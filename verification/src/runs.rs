//! Runs: maximal stretches of text whose characters all satisfy one
//! predicate.

use vstd::prelude::*;

verus! {

/// The number of consecutive characters of `text`, starting at `from`, that
/// satisfy `accepts`. The run ends at the first character that does not, or
/// at the end of the text.
pub open spec fn run_len(text: Seq<char>, from: int, accepts: spec_fn(char) -> bool) -> nat
    decreases text.len() - from,
{
    if 0 <= from < text.len() && accepts(text[from]) {
        1 + run_len(text, from + 1, accepts)
    } else {
        0
    }
}

/// The predicate that accepts every character but `stop`.
pub open spec fn other_than(stop: char) -> spec_fn(char) -> bool {
    |c: char| c != stop
}

/// The predicate that accepts the characters that do not occur in `stops`.
pub open spec fn none_of(stops: Seq<char>) -> spec_fn(char) -> bool {
    |c: char| !stops.contains(c)
}

/// `count` characters of `text` from `from` on are a run for the executable
/// predicate `accepts`: it answers `true` on each of them, and `false` on
/// the character that follows, if there is one.
pub open spec fn accepted_run<F: Fn(char) -> bool>(
    accepts: F,
    text: Seq<char>,
    from: int,
    count: int,
) -> bool {
    &&& 0 <= count
    &&& from + count <= text.len()
    &&& forall|k: int| from <= k < from + count ==> accepts.ensures((#[trigger] text[k],), true)
    &&& from + count < text.len() ==> accepts.ensures((text[from + count],), false)
}

/// A run stays inside the text, holds only accepted characters, and is
/// followed by a rejected character or by the end of the text.
pub proof fn lemma_run_len(text: Seq<char>, from: int, accepts: spec_fn(char) -> bool)
    requires
        0 <= from <= text.len(),
    ensures
        from + run_len(text, from, accepts) <= text.len(),
        forall|k: int|
            from <= k < from + run_len(text, from, accepts) ==> accepts(#[trigger] text[k]),
        from + run_len(text, from, accepts) < text.len() ==> !accepts(
            text[from + run_len(text, from, accepts)],
        ),
    decreases text.len() - from,
{
    if from < text.len() && accepts(text[from]) {
        lemma_run_len(text, from + 1, accepts);
    }
}

/// A run is determined by what holds of it: `count` accepted
/// characters followed by a rejected one, or by the end of the text, are
/// the whole run.
pub proof fn lemma_run_len_is(
    text: Seq<char>,
    from: int,
    count: int,
    accepts: spec_fn(char) -> bool,
)
    requires
        0 <= from,
        0 <= count,
        from + count <= text.len(),
        forall|k: int| from <= k < from + count ==> accepts(#[trigger] text[k]),
        from + count < text.len() ==> !accepts(text[from + count]),
    ensures
        run_len(text, from, accepts) == count,
    decreases count,
{
    if count > 0 {
        lemma_run_len_is(text, from + 1, count - 1, accepts);
    }
}

/// A run found by an executable predicate is the run of the spec predicate
/// that the executable one computes.
pub proof fn lemma_accepted_run_is_run_len<F: Fn(char) -> bool>(
    exec_accepts: F,
    accepts: spec_fn(char) -> bool,
    text: Seq<char>,
    from: int,
    count: int,
)
    requires
        0 <= from,
        accepted_run(exec_accepts, text, from, count),
        forall|c: char, b: bool| #[trigger] exec_accepts.ensures((c,), b) ==> b == accepts(c),
    ensures
        run_len(text, from, accepts) == count,
{
    lemma_run_len_is(text, from, count, accepts);
}

/// Two predicates that agree on every character of the text have the same
/// runs.
pub proof fn lemma_run_len_agrees(
    text: Seq<char>,
    from: int,
    first: spec_fn(char) -> bool,
    second: spec_fn(char) -> bool,
)
    requires
        0 <= from <= text.len(),
        forall|k: int| from <= k < text.len() ==> first(#[trigger] text[k]) == second(text[k]),
    ensures
        run_len(text, from, first) == run_len(text, from, second),
{
    lemma_run_len(text, from, first);
    lemma_run_len_is(text, from, run_len(text, from, first) as int, second);
}

} // verus!
