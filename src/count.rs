//! Cutting lines into tokens, and counting the tokens of a whole input.
use vstd::prelude::*;
use vstd::std_specs::iter::IteratorSpec;
use vstd::string::{axiom_spec_iter, next_postcondition};

use crate::lines::{decodes, read_lines, text_lines};
use crate::table::{freq_of, tally, views, FreqTable};
use crate::words::{regex_compiles, regex_find_all, Matcher};

verus! {

/// What a count counts.
#[derive(Debug, Clone, Copy, PartialEq, Eq, Hash)]
pub enum CountOption {
    /// Each character.
    Char,
    /// Each maximal run of word characters.
    Word,
    /// Each whole line.
    Line,
}

impl Default for CountOption {
    fn default() -> (r: CountOption)
        ensures
            r == CountOption::Word,
    {
        CountOption::Word
    }
}

/// Why a count produced no table.
#[derive(Debug, Clone, Copy, PartialEq, Eq, Hash)]
pub enum CountError {
    /// A line of the input is not valid UTF-8.
    InvalidEncoding,
    /// The regex crate did not accept the pattern of a word.
    InvalidPattern,
}

/// The pattern of a word: a maximal run of word characters, which the regex
/// crate reads with Unicode in mind (letters, marks, digits and connector
/// punctuation such as the underscore).
pub open spec fn word_pattern() -> Seq<char> {
    seq!['\\', 'w', '+']
}

/// Each character of `line`, as a string of its own.
pub open spec fn char_tokens(line: Seq<char>) -> Seq<Seq<char>> {
    line.map_values(|c: char| seq![c])
}

/// The tokens of one line.
pub open spec fn line_tokens(line: Seq<char>, option: CountOption) -> Seq<Seq<char>> {
    match option {
        CountOption::Char => char_tokens(line),
        CountOption::Word => regex_find_all(word_pattern(), line),
        CountOption::Line => seq![line],
    }
}

/// The tokens of all `lines`, line after line.
pub open spec fn tokens_of(lines: Seq<Seq<char>>, option: CountOption) -> Seq<Seq<char>>
    decreases lines.len(),
{
    if lines.len() == 0 {
        Seq::empty()
    } else {
        tokens_of(lines.drop_last(), option) + line_tokens(lines.last(), option)
    }
}

/// `words` holds a matcher for the pattern of a word.
spec fn finds_words(words: &Option<Matcher>) -> bool {
    words matches Some(m) && m.pattern() == word_pattern()
}

/// Relies on char's to_string: a string that holds exactly `c`.
#[verifier::external_body]
fn char_string(c: char) -> (r: String)
    ensures
        r@ == seq![c],
{
    c.to_string()
}

/// Appends each character of `line`, as a string of its own, to `out`.
fn push_chars(line: &String, out: &mut Vec<String>)
    ensures
        views(final(out)@) == views(old(out)@) + char_tokens(line@),
{
    broadcast use axiom_spec_iter, next_postcondition;

    let mut it = line.as_str().chars();
    let ghost mut k: int = 0;
    loop
        invariant
            0 <= k <= line@.len(),
            it.remaining() == line@.skip(k),
            it.obeys_prophetic_iter_laws(),
            views(out@) == views(old(out)@) + char_tokens(line@.take(k)),
        ensures
            views(out@) == views(old(out)@) + char_tokens(line@),
        decreases line@.len() - k,
    {
        match it.next() {
            Some(c) => {
                let s = char_string(c);
                proof {
                    assert(line@[k] == c);
                    assert(line@.skip(k + 1) =~= line@.skip(k).drop_first());
                    assert(char_tokens(line@.take(k + 1)) =~= char_tokens(line@.take(k)).push(
                        seq![c],
                    ));
                    assert(views(out@.push(s)) =~= views(out@).push(s@));
                    k = k + 1;
                }
                out.push(s);
            },
            None => {
                assert(line@.take(k) =~= line@);
                break ;
            },
        }
    }
}

/// Appends the tokens of `line` to `out`; `words` finds the words.
fn push_tokens(line: &String, option: CountOption, words: &Option<Matcher>, out: &mut Vec<String>)
    requires
        option == CountOption::Word ==> finds_words(words),
    ensures
        views(final(out)@) == views(old(out)@) + line_tokens(line@, option),
{
    match option {
        CountOption::Char => push_chars(line, out),
        CountOption::Word => {
            if let Some(m) = words {
                let found = m.find_all(line.as_str());
                let mut i: usize = 0;
                while i < found.len()
                    invariant
                        i <= found@.len(),
                        views(found@) == line_tokens(line@, option),
                        views(out@) == views(old(out)@) + views(found@).take(i as int),
                    decreases found@.len() - i,
                {
                    let s = found[i].clone();
                    assert(views(out@.push(s)) =~= views(out@).push(s@));
                    assert(views(found@).take(i + 1) =~= views(found@).take(i as int).push(s@));
                    out.push(s);
                    i = i + 1;
                }
                assert(views(found@).take(i as int) =~= views(found@));
            }
        },
        CountOption::Line => {
            let s = line.clone();
            assert(views(out@.push(s)) =~= views(out@) + seq![line@]);
            out.push(s);
        },
    }
}

/// The tokens of all `lines`, line after line; `words` finds the words.
fn collect_tokens(lines: &Vec<String>, option: CountOption, words: &Option<Matcher>) -> (r: Vec<
    String,
>)
    requires
        option == CountOption::Word ==> finds_words(words),
    ensures
        views(r@) == tokens_of(views(lines@), option),
{
    let mut out: Vec<String> = Vec::new();
    let mut i: usize = 0;
    assert(views(lines@).take(0) =~= Seq::<Seq<char>>::empty());
    assert(views(out@) =~= Seq::<Seq<char>>::empty());
    while i < lines.len()
        invariant
            i <= lines@.len(),
            option == CountOption::Word ==> finds_words(words),
            views(out@) == tokens_of(views(lines@).take(i as int), option),
        decreases lines@.len() - i,
    {
        push_tokens(&lines[i], option, words, &mut out);
        assert(views(lines@).take(i + 1).drop_last() =~= views(lines@).take(i as int));
        i = i + 1;
    }
    assert(views(lines@).take(i as int) =~= views(lines@));
    out
}

/// What counting `lines` under `option` may give: the table of their tokens,
/// or an error where the pattern of a word does not compile.
pub open spec fn lines_outcome(
    lines: Seq<Seq<char>>,
    option: CountOption,
    r: Result<FreqTable, CountError>,
) -> bool {
    match r {
        Ok(t) => {
            &&& option == CountOption::Word ==> regex_compiles(word_pattern())
            &&& t.wf()
            &&& t@ == freq_of(tokens_of(lines, option))
        },
        Err(CountError::InvalidPattern) => {
            &&& option == CountOption::Word
            &&& !regex_compiles(word_pattern())
        },
        Err(CountError::InvalidEncoding) => false,
    }
}

/// What counting the bytes `input` under `option` may give: the table of the
/// tokens of its lines, or an error where a line is not UTF-8 or the pattern
/// of a word does not compile.
pub open spec fn count_outcome(
    input: Seq<u8>,
    option: CountOption,
    r: Result<FreqTable, CountError>,
) -> bool {
    if decodes(input) {
        lines_outcome(text_lines(input), option, r)
    } else {
        r == Err::<FreqTable, CountError>(CountError::InvalidEncoding)
    }
}

/// Counts the tokens of `lines` under `option`.
pub fn count_lines(lines: &Vec<String>, option: CountOption) -> (r: Result<FreqTable, CountError>)
    ensures
        lines_outcome(views(lines@), option, r),
        r matches Ok(t) ==> forall|k: Seq<char>| #[trigger] t@.contains_key(k) ==> t@[k] > 0,
{
    let words = match option {
        CountOption::Word => {
            let pattern: &str = "\\w+";
            proof {
                reveal_strlit("\\w+");
                assert(pattern@ =~= word_pattern());
            }
            let m = Matcher::new(pattern);
            if m.is_none() {
                return Err(CountError::InvalidPattern);
            }
            m
        },
        _ => None,
    };
    let tokens = collect_tokens(lines, option, &words);
    Ok(tally(&tokens))
}

/// Counts the tokens of `input`, read as lines of UTF-8 text, under `option`.
pub fn count(input: &[u8], option: CountOption) -> (r: Result<FreqTable, CountError>)
    ensures
        count_outcome(input@, option, r),
        r is Ok <==> decodes(input@) && (option == CountOption::Word ==> regex_compiles(
            word_pattern(),
        )),
        r matches Ok(t) ==> forall|k: Seq<char>| #[trigger] t@.contains_key(k) ==> t@[k] > 0,
{
    match read_lines(input) {
        Some(lines) => count_lines(&lines, option),
        None => Err(CountError::InvalidEncoding),
    }
}

} // verus!
