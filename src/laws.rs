//! Properties that hold of every count.
use vstd::multiset::Multiset;
use vstd::prelude::*;

use crate::count::{count_outcome, lines_outcome, tokens_of, CountError, CountOption};
use crate::lines::text_lines;
use crate::table::{freq_of, FreqTable};

verus! {

broadcast use vstd::seq_lib::group_to_multiset_ensures, vstd::multiset::group_multiset_axioms;

/// The sum of all counts of a table.
pub open spec fn total(m: Map<Seq<char>, nat>) -> nat {
    Multiset::from_map(m).len()
}

/// Read back as a multiset, the table of `tokens` holds each token as often
/// as `tokens` does.
pub proof fn lemma_freq_multiset(tokens: Seq<Seq<char>>)
    ensures
        freq_of(tokens).dom().finite(),
        Multiset::from_map(freq_of(tokens)) == tokens.to_multiset(),
{
    assert(freq_of(tokens).dom() =~= tokens.to_multiset().dom());
    assert(Multiset::from_map(freq_of(tokens)) =~= tokens.to_multiset());
}

/// Under line counting, each line is one token.
pub proof fn lemma_line_tokens(lines: Seq<Seq<char>>)
    ensures
        tokens_of(lines, CountOption::Line) == lines,
    decreases lines.len(),
{
    if lines.len() > 0 {
        lemma_line_tokens(lines.drop_last());
        assert(lines.drop_last() + seq![lines.last()] =~= lines);
    }
}

/// Every count in a table is positive: a token that does not occur has no entry.
pub proof fn lemma_counts_positive(input: Seq<u8>, option: CountOption, r: Result<FreqTable, CountError>)
    requires
        count_outcome(input, option, r),
    ensures
        r matches Ok(t) ==> forall|k: Seq<char>| #[trigger] t@.contains_key(k) ==> t@[k] > 0,
{
}

/// Under line counting, the counts add up to the number of lines of the input.
pub proof fn lemma_line_total(input: Seq<u8>, r: Result<FreqTable, CountError>)
    requires
        count_outcome(input, CountOption::Line, r),
    ensures
        r matches Ok(t) ==> total(t@) == text_lines(input).len(),
{
    lemma_line_tokens(text_lines(input));
    lemma_freq_multiset(text_lines(input));
}

/// Counting the same input twice gives the same outcome: no state is carried
/// from one count to the next.
pub proof fn lemma_count_repeatable(
    input: Seq<u8>,
    option: CountOption,
    first: Result<FreqTable, CountError>,
    second: Result<FreqTable, CountError>,
)
    requires
        count_outcome(input, option, first),
        count_outcome(input, option, second),
    ensures
        first is Ok <==> second is Ok,
        first matches Ok(a) ==> second matches Ok(b) && a@ == b@,
        first matches Err(e) ==> second == Err::<FreqTable, CountError>(e),
{
}

/// Writing out each key of a line count as often as its count, in any order,
/// one per line, and counting those lines again gives the same table.
pub proof fn lemma_line_round_trip(
    lines: Seq<Seq<char>>,
    again: Seq<Seq<char>>,
    first: Result<FreqTable, CountError>,
    second: Result<FreqTable, CountError>,
)
    requires
        lines_outcome(lines, CountOption::Line, first),
        first matches Ok(t) && again.to_multiset() == Multiset::from_map(t@),
        lines_outcome(again, CountOption::Line, second),
    ensures
        second matches Ok(u) && first matches Ok(t) && u@ == t@,
{
    lemma_line_tokens(lines);
    lemma_line_tokens(again);
    lemma_freq_multiset(lines);
    assert(freq_of(again) =~= freq_of(lines));
}

} // verus!
