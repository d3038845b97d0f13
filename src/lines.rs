//! Cutting a byte buffer into lines of text.
use vstd::prelude::*;
use vstd::utf8::{decode_utf8, valid_utf8};

use crate::table::views;

verus! {

/// The byte that ends a line.
pub const NEWLINE: u8 = 10;

/// The byte that is dropped from the end of a line when it stands before a newline.
pub const CARRIAGE_RETURN: u8 = 13;

/// `line` without one trailing carriage return.
pub open spec fn strip_cr(line: Seq<u8>) -> Seq<u8> {
    if line.len() > 0 && line.last() == CARRIAGE_RETURN {
        line.drop_last()
    } else {
        line
    }
}

/// The lines of `b` that follow position `start`, where the bytes from `start`
/// up to `i` hold no newline. A line ends at a newline, which is not part of
/// it, and so does a carriage return just before that newline. The bytes after
/// the last newline make a line of their own where there are any.
pub open spec fn lines_from(b: Seq<u8>, start: int, i: int) -> Seq<Seq<u8>>
    decreases b.len() - i,
{
    if i >= b.len() {
        if start < b.len() {
            seq![b.subrange(start, b.len() as int)]
        } else {
            Seq::empty()
        }
    } else if b[i] == NEWLINE {
        seq![strip_cr(b.subrange(start, i))] + lines_from(b, i + 1, i + 1)
    } else {
        lines_from(b, start, i + 1)
    }
}

/// The lines of `b`, as bytes.
pub open spec fn raw_lines(b: Seq<u8>) -> Seq<Seq<u8>> {
    lines_from(b, 0, 0)
}

/// Every line of `b` is valid UTF-8.
pub open spec fn decodes(b: Seq<u8>) -> bool {
    forall|j: int| 0 <= j < raw_lines(b).len() ==> valid_utf8(#[trigger] raw_lines(b)[j])
}

/// The lines of `b`, as text.
pub open spec fn text_lines(b: Seq<u8>) -> Seq<Seq<char>> {
    raw_lines(b).map_values(|l: Seq<u8>| decode_utf8(l))
}

/// Relies on std::str::from_utf8: it accepts exactly the valid UTF-8 byte
/// sequences and yields the characters that they encode.
#[verifier::external_body]
fn utf8_str(b: &[u8]) -> (r: Option<&str>)
    ensures
        r is Some <==> valid_utf8(b@),
        r matches Some(s) ==> s@ == decode_utf8(b@),
{
    std::str::from_utf8(b).ok()
}

/// Cuts `input` into lines of text, or `None` where a line is not valid UTF-8.
pub fn read_lines(input: &[u8]) -> (r: Option<Vec<String>>)
    ensures
        r is Some <==> decodes(input@),
        r matches Some(lines) ==> views(lines@) == text_lines(input@),
{
    let mut lines: Vec<String> = Vec::new();
    let ghost mut done: Seq<Seq<u8>> = Seq::empty();
    let mut start: usize = 0;
    let mut i: usize = 0;
    while i < input.len()
        invariant
            start <= i <= input@.len(),
            raw_lines(input@) == done + lines_from(input@, start as int, i as int),
            forall|j: int| 0 <= j < done.len() ==> valid_utf8(#[trigger] done[j]),
            views(lines@) == done.map_values(|l: Seq<u8>| decode_utf8(l)),
        decreases input@.len() - i,
    {
        if input[i] == NEWLINE {
            let mut end = i;
            if end > start && input[end - 1] == CARRIAGE_RETURN {
                end = end - 1;
            }
            let piece = &input[start..end];
            assert(piece@ == strip_cr(input@.subrange(start as int, i as int)));
            match utf8_str(piece) {
                Some(s) => {
                    let line = s.to_owned();
                    proof {
                        assert(raw_lines(input@) =~= done.push(piece@) + lines_from(
                            input@,
                            i + 1,
                            i + 1,
                        ));
                        assert(views(lines@.push(line)) =~= views(lines@).push(line@));
                        assert(done.push(piece@).map_values(|l: Seq<u8>| decode_utf8(l))
                            =~= done.map_values(|l: Seq<u8>| decode_utf8(l)).push(
                            decode_utf8(piece@),
                        ));
                        done = done.push(piece@);
                    }
                    lines.push(line);
                },
                None => {
                    assert(raw_lines(input@)[done.len() as int] == piece@);
                    return None;
                },
            }
            start = i + 1;
        }
        i = i + 1;
    }
    if start < input.len() {
        let piece = &input[start..input.len()];
        assert(raw_lines(input@) == done.push(piece@));
        match utf8_str(piece) {
            Some(s) => {
                let line = s.to_owned();
                proof {
                    assert(views(lines@.push(line)) =~= views(lines@).push(line@));
                    assert(done.push(piece@).map_values(|l: Seq<u8>| decode_utf8(l))
                        =~= done.map_values(|l: Seq<u8>| decode_utf8(l)).push(
                        decode_utf8(piece@),
                    ));
                    done = done.push(piece@);
                }
                lines.push(line);
            },
            None => {
                assert(raw_lines(input@)[done.len() as int] == piece@);
                return None;
            },
        }
    } else {
        assert(raw_lines(input@) =~= done);
    }
    assert(raw_lines(input@) =~= done);
    Some(lines)
}

} // verus!
