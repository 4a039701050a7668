//! The token stream as a whole: what a run of calls returns, and how the
//! tokens of a source fit together.

use crate::grammar::{lemma_lexeme_extent, lexeme_at, next_cursor};
use crate::lexer::{token_at, LexError, TokenTyp, TokenView};
use crate::reader::{lemma_position_between, position_after, position_at, Position};
use vstd::prelude::*;

verus! {

/// The cursor of a tokenizer that stood at `at` and has returned `count`
/// tokens since.
pub open spec fn cursor_after(source: Seq<char>, at: int, count: nat) -> int
    decreases count,
{
    if count == 0 {
        at
    } else {
        cursor_after(source, next_cursor(source, at), (count - 1) as nat)
    }
}

/// The token that a tokenizer at `at` returns after `count` earlier calls.
pub open spec fn nth_token(source: Seq<char>, at: int, count: nat) -> TokenView {
    token_at(source, cursor_after(source, at, count))
}

/// The source text that the token at `at` covers.
pub open spec fn span_at(source: Seq<char>, at: int) -> Seq<char> {
    source.subrange(at, next_cursor(source, at))
}

/// The texts that the tokens from `at` to the end of the source cover, in
/// order.
pub open spec fn spans_from(source: Seq<char>, at: int) -> Seq<Seq<char>>
    decreases source.len() - at,
    via spans_from_decreases
{
    if 0 <= at < source.len() && at < next_cursor(source, at) {
        seq![span_at(source, at)] + spans_from(source, next_cursor(source, at))
    } else {
        Seq::empty()
    }
}

#[via_fn]
proof fn spans_from_decreases(source: Seq<char>, at: int) {
    if 0 <= at < source.len() {
        lemma_lexeme_extent(source, at);
    }
}

/// The texts of `parts`, one after the other.
pub open spec fn joined(parts: Seq<Seq<char>>) -> Seq<char>
    decreases parts.len(),
{
    if parts.len() == 0 {
        Seq::empty()
    } else {
        parts.first() + joined(parts.drop_first())
    }
}

/// The cursor never leaves the source, whatever the number of calls.
pub proof fn lemma_cursor_stays_inside(source: Seq<char>, at: int, count: nat)
    requires
        0 <= at <= source.len(),
    ensures
        at <= cursor_after(source, at, count) <= source.len(),
    decreases count,
{
    if count > 0 {
        lemma_lexeme_extent(source, at);
        lemma_cursor_stays_inside(source, next_cursor(source, at), (count - 1) as nat);
    }
}

/// The end of input is stable: once a call has returned the end-of-input
/// token, every later call returns that same token, with the same row and
/// column, and the cursor stays at the end of the source.
pub proof fn lemma_end_of_input_is_stable(source: Seq<char>, at: int, first: nat, later: nat)
    requires
        0 <= at <= source.len(),
        nth_token(source, at, first).typ == TokenTyp::EOF,
        first <= later,
    ensures
        nth_token(source, at, later) == nth_token(source, at, first),
        cursor_after(source, at, later) == source.len(),
        cursor_after(source, at, first) == source.len(),
    decreases later,
{
    lemma_cursor_stays_inside(source, at, first);
    lemma_lexeme_extent(source, cursor_after(source, at, first));
    if first < later {
        if first == 0 {
            // the tokenizer stands at the end already and stays there
            lemma_end_of_input_is_stable(source, at, 0, (later - 1) as nat);
        } else {
            lemma_lexeme_extent(source, at);
            lemma_end_of_input_is_stable(
                source,
                next_cursor(source, at),
                (first - 1) as nat,
                (later - 1) as nat,
            );
        }
    }
}

/// The tokens tile the source: the texts that the tokens from `at` on
/// cover, put one after the other, are the source from `at` on. No
/// character is left out and none is covered twice.
pub proof fn lemma_spans_tile_the_rest(source: Seq<char>, at: int)
    requires
        0 <= at <= source.len(),
    ensures
        joined(spans_from(source, at)) == source.skip(at),
    decreases source.len() - at,
{
    lemma_lexeme_extent(source, at);
    if at < source.len() {
        let next = next_cursor(source, at);
        lemma_spans_tile_the_rest(source, next);
        let parts = spans_from(source, at);
        assert(parts.first() == span_at(source, at));
        assert(parts.drop_first() =~= spans_from(source, next));
        assert(span_at(source, at) + source.skip(next) =~= source.skip(at));
    } else {
        assert(source.skip(at) =~= Seq::<char>::empty());
    }
}

/// The tokens of a source, from its start, cover exactly the source.
pub proof fn lemma_spans_rebuild_source(source: Seq<char>)
    ensures
        joined(spans_from(source, 0)) == source,
{
    lemma_spans_tile_the_rest(source, 0);
    assert(source.skip(0) =~= source);
}

/// Rows and columns run on from token to token: the place of the token
/// after the one at `at` is reached from the place of the token at `at` by
/// passing over the text that this token covers.
pub proof fn lemma_places_run_on(source: Seq<char>, at: int)
    requires
        0 <= at <= source.len(),
    ensures
        ({
            let here = token_at(source, at);
            let there = token_at(source, next_cursor(source, at));
            Position { row: there.row, col: there.col } == position_after(
                Position { row: here.row, col: here.col },
                span_at(source, at),
            )
        }),
{
    lemma_lexeme_extent(source, at);
    lemma_position_between(source, at, next_cursor(source, at));
}

/// The kinds of token whose content is the source text as it is: all but
/// strings and comments, whole or cut short.
pub open spec fn keeps_source_text(typ: TokenTyp) -> bool {
    match typ {
        TokenTyp::String | TokenTyp::Comment => false,
        TokenTyp::Error(LexError::UnterminatedString) => false,
        TokenTyp::Error(LexError::UnterminatedComment) => false,
        _ => true,
    }
}

/// A token that is neither a string nor a comment holds the source text
/// that it covers, as it is.
pub proof fn lemma_plain_content_is_span(source: Seq<char>, at: int)
    requires
        0 <= at <= source.len(),
        keeps_source_text(lexeme_at(source, at).typ),
    ensures
        lexeme_at(source, at).content == span_at(source, at),
{
    lemma_lexeme_extent(source, at);
    if at < source.len() {
        assert(seq![source[at]] =~= source.subrange(at, at + 1));
    } else {
        assert(source.subrange(at, at) =~= Seq::<char>::empty());
    }
}

} // verus!
