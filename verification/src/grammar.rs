//! The lexical grammar: which token stands at a given place of a source
//! text, what it holds and how many characters it covers.
//!
//! Everything here is specification. The scanner in [`crate::lexer`] is
//! proved to produce exactly the tokens described here.

use crate::chars::{
    is_apostrophe, is_digit, is_identifier_part, is_letter, is_number_part, is_punctuation,
    is_space, is_whitespace_char, APOSTROPHE, NEWLINE,
};
use crate::keywords::is_reserved_word;
use crate::lexer::{LexError, TokenTyp};
use crate::runs::{lemma_run_len, other_than, run_len};
use crate::text::repeated;
use vstd::prelude::*;

verus! {

/// A token as the grammar sees it: its kind, its content and the number of
/// source characters that it covers.
pub struct Lexeme {
    pub typ: TokenTyp,
    pub content: Seq<char>,
    pub len: nat,
}

/// The inside of a string literal, scanned from some place on: the text it
/// stands for, the index just behind it, and whether a closing delimiter
/// was found before the end of the source.
pub struct Body {
    pub content: Seq<char>,
    pub end: int,
    pub closed: bool,
}

/// The body `rest` with `text` in front of it.
pub open spec fn prepend(text: Seq<char>, rest: Body) -> Body {
    Body { content: text + rest.content, end: rest.end, closed: rest.closed }
}

/// The length of the whitespace run that starts at `from`.
pub open spec fn whitespace_run(source: Seq<char>, from: int) -> nat {
    run_len(source, from, |c: char| is_whitespace_char(c))
}

/// The length of the run of apostrophes that starts at `from`.
pub open spec fn apostrophe_run(source: Seq<char>, from: int) -> nat {
    run_len(source, from, |c: char| is_apostrophe(c))
}

/// The length of the run of spaces that starts at `from`.
pub open spec fn space_run(source: Seq<char>, from: int) -> nat {
    run_len(source, from, |c: char| is_space(c))
}

/// The length of the run of digits and periods that starts at `from`.
pub open spec fn number_run(source: Seq<char>, from: int) -> nat {
    run_len(source, from, |c: char| is_number_part(c))
}

/// The length of the run of letters, numerals and underscores that starts
/// at `from`.
pub open spec fn identifier_run(source: Seq<char>, from: int) -> nat {
    run_len(source, from, |c: char| is_identifier_part(c))
}

/// The number of characters from `from` up to, and without, the first
/// `stop`, or up to the end of the source where there is none.
pub open spec fn run_until(source: Seq<char>, from: int, stop: char) -> nat {
    run_len(source, from, other_than(stop))
}

/// A whitespace token: the longest run of whitespace, kept as it is.
pub open spec fn whitespace_lexeme(source: Seq<char>, at: int) -> Lexeme {
    let len = whitespace_run(source, at);
    Lexeme { typ: TokenTyp::Whitespace, content: source.subrange(at, at + len), len }
}

/// A numeric literal: the longest run of digits and periods, kept as it is.
pub open spec fn number_lexeme(source: Seq<char>, at: int) -> Lexeme {
    let len = number_run(source, at);
    Lexeme { typ: TokenTyp::Number, content: source.subrange(at, at + len), len }
}

/// An identifier or keyword: a letter, then the longest run of letters,
/// numerals and underscores. The word is a keyword exactly when it is
/// reserved.
pub open spec fn identifier_lexeme(source: Seq<char>, at: int) -> Lexeme {
    let len = 1 + identifier_run(source, at + 1);
    let word = source.subrange(at, at + len);
    Lexeme {
        typ: if is_reserved_word(word) {
            TokenTyp::Keyword
        } else {
            TokenTyp::Identifier
        },
        content: word,
        len,
    }
}

/// A comment that two slashes open. It holds what stands between the
/// slashes and the end of the line; the newline is not part of the token.
pub open spec fn line_comment_lexeme(source: Seq<char>, at: int) -> Lexeme {
    let inner = run_until(source, at + 2, NEWLINE);
    Lexeme {
        typ: TokenTyp::Comment,
        content: source.subrange(at + 2, at + 2 + inner),
        len: inner + 2,
    }
}

/// A comment in braces. It holds what stands between the braces. Where no
/// closing brace follows, the token is an error that covers the rest of the
/// source and holds what follows the opening brace.
pub open spec fn brace_comment_lexeme(source: Seq<char>, at: int) -> Lexeme {
    let inner = run_until(source, at + 1, '}');
    let content = source.subrange(at + 1, at + 1 + inner);
    if at + 1 + inner < source.len() {
        Lexeme { typ: TokenTyp::Comment, content, len: inner + 2 }
    } else {
        Lexeme { typ: TokenTyp::Error(LexError::UnterminatedComment), content, len: inner + 1 }
    }
}

/// The inside of a string literal on one line, from `at` on, where `at`
/// follows the opening apostrophe. Every character but the apostrophe
/// stands for itself. A run of apostrophes stands for half as many
/// apostrophes, rounded down; a run of odd length also closes the literal
/// with its last apostrophe.
pub open spec fn quoted_body(source: Seq<char>, at: int) -> Body
    decreases source.len() - at,
    via quoted_body_decreases
{
    if at < 0 || at >= source.len() {
        Body { content: Seq::empty(), end: source.len() as int, closed: false }
    } else if source[at] == APOSTROPHE {
        let run = apostrophe_run(source, at);
        let quotes = repeated(APOSTROPHE, run / 2);
        if run % 2 == 1 {
            Body { content: quotes, end: at + run, closed: true }
        } else {
            prepend(quotes, quoted_body(source, at + run))
        }
    } else {
        prepend(seq![source[at]], quoted_body(source, at + 1))
    }
}

#[via_fn]
proof fn quoted_body_decreases(source: Seq<char>, at: int) {
    if 0 <= at < source.len() && source[at] == APOSTROPHE {
        lemma_run_len(source, at, |c: char| is_apostrophe(c));
    }
}

/// The number of leading spaces that are taken off the line that starts at
/// `line`: the indentation of the literal, or all the spaces that the line
/// starts with if those are fewer.
pub open spec fn stripped(source: Seq<char>, line: int, indent: nat) -> nat {
    if space_run(source, line) < indent {
        space_run(source, line)
    } else {
        indent
    }
}

/// The inside of a fenced string literal from the start of a line on. The
/// indentation is taken off the line. If what follows is a run of exactly
/// `fence` apostrophes, that run closes the literal; otherwise the line is
/// text.
pub open spec fn fenced_line(source: Seq<char>, line: int, fence: nat, indent: nat) -> Body
    decreases source.len() - line, 1int,
    via fenced_line_decreases
{
    let first = line + stripped(source, line, indent);
    if line < 0 || line >= source.len() {
        Body { content: Seq::empty(), end: source.len() as int, closed: false }
    } else if apostrophe_run(source, first) == fence {
        Body { content: Seq::empty(), end: first + fence, closed: true }
    } else {
        fenced_text(source, first, fence, indent)
    }
}

/// The inside of a fenced string literal from a place within a line on. A
/// newline stands for itself and leads to the start of the next line. A run
/// of apostrophes, of whatever length, stands for half as many apostrophes,
/// rounded down, and closes nothing. Every other character stands for
/// itself.
pub open spec fn fenced_text(source: Seq<char>, at: int, fence: nat, indent: nat) -> Body
    decreases source.len() - at, 0int,
    via fenced_text_decreases
{
    if at < 0 || at >= source.len() {
        Body { content: Seq::empty(), end: source.len() as int, closed: false }
    } else if source[at] == NEWLINE {
        prepend(seq![NEWLINE], fenced_line(source, at + 1, fence, indent))
    } else if source[at] == APOSTROPHE {
        let run = apostrophe_run(source, at);
        prepend(repeated(APOSTROPHE, run / 2), fenced_text(source, at + run, fence, indent))
    } else {
        prepend(seq![source[at]], fenced_text(source, at + 1, fence, indent))
    }
}

#[via_fn]
proof fn fenced_line_decreases(source: Seq<char>, line: int, fence: nat, indent: nat) {
    if 0 <= line < source.len() {
        lemma_run_len(source, line, |c: char| is_space(c));
    }
}

#[via_fn]
proof fn fenced_text_decreases(source: Seq<char>, at: int, fence: nat, indent: nat) {
    if 0 <= at < source.len() && source[at] == APOSTROPHE {
        lemma_run_len(source, at, |c: char| is_apostrophe(c));
    }
}

/// `text` without its last character, if it has one.
pub open spec fn without_last(text: Seq<char>) -> Seq<char> {
    if text.len() > 0 {
        text.drop_last()
    } else {
        text
    }
}

/// The string token that starts at `at` with a run of `fence` apostrophes
/// and whose inside is `body`. Where the body is closed, the token is a
/// string with the given content. Where it is not, the token is an error
/// that covers the rest of the source and holds the body as far as it
/// goes.
pub open spec fn string_token(at: int, body: Body, content: Seq<char>) -> Lexeme {
    if body.closed {
        Lexeme { typ: TokenTyp::String, content, len: (body.end - at) as nat }
    } else {
        Lexeme {
            typ: TokenTyp::Error(LexError::UnterminatedString),
            content: body.content,
            len: (body.end - at) as nat,
        }
    }
}

/// The fenced string literal that starts at `at` with a run of `fence`
/// apostrophes. The character that follows the fence ends the opening line
/// and belongs to the delimiter. The spaces that the next line starts with
/// set the indentation, which is taken off every line. The literal ends
/// with a line that, after its indentation, starts with a run of exactly
/// `fence` apostrophes; the newline before that line is not part of the
/// content.
pub open spec fn fenced_lexeme(source: Seq<char>, at: int, fence: nat) -> Lexeme {
    let first_line = at + fence + 1;
    let body = fenced_line(source, first_line, fence, space_run(source, first_line));
    string_token(at, body, without_last(body.content))
}

/// A string literal, by the length of the run of apostrophes that opens
/// it.
///
/// - A run of even length is a whole literal. It stands for one apostrophe
///   less than half its length: two apostrophes are the empty string, four
///   are one apostrophe.
/// - A single apostrophe opens a literal on one line (see [`quoted_body`]).
/// - A run of odd length from three on is a fence and opens a fenced
///   literal (see [`fenced_lexeme`]).
pub open spec fn string_lexeme(source: Seq<char>, at: int) -> Lexeme {
    let opening = apostrophe_run(source, at);
    if opening % 2 == 0 {
        Lexeme {
            typ: TokenTyp::String,
            content: repeated(APOSTROPHE, (opening / 2 - 1) as nat),
            len: opening,
        }
    } else if opening == 1 {
        let body = quoted_body(source, at + 1);
        string_token(at, body, body.content)
    } else {
        fenced_lexeme(source, at, opening)
    }
}

/// The token that consists of the one character `c`.
pub open spec fn single(typ: TokenTyp, c: char) -> Lexeme {
    Lexeme { typ, content: seq![c], len: 1 }
}

/// Two slashes stand at `at`.
pub open spec fn opens_line_comment(source: Seq<char>, at: int) -> bool {
    0 <= at && at + 1 < source.len() && source[at] == '/' && source[at + 1] == '/'
}

/// The token that stands at `at`. Its first character decides its kind; the
/// first of these that applies wins:
///
/// 1. whitespace starts a whitespace token,
/// 2. an apostrophe starts a string literal,
/// 3. a decimal digit starts a numeric literal,
/// 4. an opening brace, or a slash before a second slash, starts a comment,
/// 5. any other punctuation mark is an operator of one character,
/// 6. a letter starts an identifier or keyword,
/// 7. any other character is an error token of one character.
///
/// At the end of the source stands the end-of-input token, which is empty.
pub open spec fn lexeme_at(source: Seq<char>, at: int) -> Lexeme {
    if at < 0 || at >= source.len() {
        Lexeme { typ: TokenTyp::EOF, content: Seq::empty(), len: 0 }
    } else {
        let c = source[at];
        if is_whitespace_char(c) {
            whitespace_lexeme(source, at)
        } else if is_apostrophe(c) {
            string_lexeme(source, at)
        } else if is_digit(c) {
            number_lexeme(source, at)
        } else if c == '{' {
            brace_comment_lexeme(source, at)
        } else if opens_line_comment(source, at) {
            line_comment_lexeme(source, at)
        } else if is_punctuation(c) {
            single(TokenTyp::Operator, c)
        } else if is_letter(c) {
            identifier_lexeme(source, at)
        } else {
            single(TokenTyp::Error(LexError::UnexpectedCharacter), c)
        }
    }
}

/// The index at which the token after the one at `at` starts.
pub open spec fn next_cursor(source: Seq<char>, at: int) -> int {
    at + lexeme_at(source, at).len
}

/// The characters up to the first `stop` stay inside the source, none of
/// them is `stop`, and `stop` follows them unless the source ends there.
pub proof fn lemma_run_until(source: Seq<char>, from: int, stop: char)
    requires
        0 <= from <= source.len(),
    ensures
        from + run_until(source, from, stop) <= source.len(),
        forall|k: int| from <= k < from + run_until(source, from, stop) ==> source[k] != stop,
        from + run_until(source, from, stop) < source.len() ==> source[from + run_until(
            source,
            from,
            stop,
        )] == stop,
{
    lemma_run_len(source, from, other_than(stop));
}

/// A line-bound string body ends inside the source, behind where it
/// started.
pub proof fn lemma_quoted_body_extent(source: Seq<char>, at: int)
    requires
        0 <= at <= source.len(),
    ensures
        at <= quoted_body(source, at).end <= source.len(),
        !quoted_body(source, at).closed ==> quoted_body(source, at).end == source.len(),
    decreases source.len() - at,
{
    if at < source.len() {
        if source[at] == APOSTROPHE {
            let run = apostrophe_run(source, at);
            lemma_run_len(source, at, |c: char| is_apostrophe(c));
            if run % 2 == 0 {
                lemma_quoted_body_extent(source, at + run);
            }
        } else {
            lemma_quoted_body_extent(source, at + 1);
        }
    }
}

/// A fenced string body ends inside the source, behind where it started.
pub proof fn lemma_fenced_line_extent(source: Seq<char>, line: int, fence: nat, indent: nat)
    requires
        0 <= line,
    ensures
        fenced_line(source, line, fence, indent).end <= source.len(),
        line <= source.len() ==> line <= fenced_line(source, line, fence, indent).end,
        !fenced_line(source, line, fence, indent).closed ==> fenced_line(
            source,
            line,
            fence,
            indent,
        ).end == source.len(),
    decreases source.len() - line, 1int,
{
    if line < source.len() {
        let first = line + stripped(source, line, indent);
        lemma_run_len(source, line, |c: char| is_space(c));
        lemma_run_len(source, first, |c: char| is_apostrophe(c));
        if apostrophe_run(source, first) != fence {
            lemma_fenced_text_extent(source, first, fence, indent);
        }
    }
}

/// A fenced string body ends inside the source, behind where it started.
pub proof fn lemma_fenced_text_extent(source: Seq<char>, at: int, fence: nat, indent: nat)
    requires
        0 <= at <= source.len(),
    ensures
        at <= fenced_text(source, at, fence, indent).end <= source.len(),
        !fenced_text(source, at, fence, indent).closed ==> fenced_text(
            source,
            at,
            fence,
            indent,
        ).end == source.len(),
    decreases source.len() - at, 0int,
{
    if at < source.len() {
        if source[at] == NEWLINE {
            lemma_fenced_line_extent(source, at + 1, fence, indent);
        } else if source[at] == APOSTROPHE {
            lemma_run_len(source, at, |c: char| is_apostrophe(c));
            lemma_fenced_text_extent(source, at + apostrophe_run(source, at), fence, indent);
        } else {
            lemma_fenced_text_extent(source, at + 1, fence, indent);
        }
    }
}

/// Text without apostrophes stands for itself: a string body that starts
/// with such text is that text and then the body behind it.
pub proof fn lemma_quoted_body_after_text(source: Seq<char>, at: int, count: int)
    requires
        0 <= at <= source.len(),
        count == run_until(source, at, APOSTROPHE),
    ensures
        quoted_body(source, at).content == source.subrange(at, at + count) + quoted_body(
            source,
            at + count,
        ).content,
        quoted_body(source, at).end == quoted_body(source, at + count).end,
        quoted_body(source, at).closed == quoted_body(source, at + count).closed,
    decreases count,
{
    lemma_run_until(source, at, APOSTROPHE);
    if count > 0 {
        lemma_quoted_body_after_text(source, at + 1, count - 1);
        assert(source.subrange(at, at + count) =~= seq![source[at]] + source.subrange(
            at + 1,
            at + count,
        ));
    } else {
        assert(source.subrange(at, at + count) =~= Seq::<char>::empty());
    }
}

/// Every token lies inside the source, and every token but the
/// end-of-input token covers at least one character.
pub proof fn lemma_lexeme_extent(source: Seq<char>, at: int)
    requires
        0 <= at <= source.len(),
    ensures
        at <= next_cursor(source, at) <= source.len(),
        at < source.len() ==> at < next_cursor(source, at),
        lexeme_at(source, at).typ == TokenTyp::EOF <==> at == source.len(),
{
    if at < source.len() {
        let c = source[at];
        if is_whitespace_char(c) {
            lemma_run_len(source, at, |c: char| is_whitespace_char(c));
        } else if is_apostrophe(c) {
            lemma_run_len(source, at, |c: char| is_apostrophe(c));
            let opening = apostrophe_run(source, at);
            if opening % 2 == 0 {
                } else if opening == 1 {
                lemma_quoted_body_extent(source, at + 1);
                } else {
                let first_line = at + opening + 1;
                lemma_fenced_line_extent(
                    source,
                    first_line,
                    opening,
                    space_run(source, first_line),
                );
                }
        } else if is_digit(c) {
            lemma_run_len(source, at, |c: char| is_number_part(c));
        } else if c == '{' {
            lemma_run_until(source, at + 1, '}');
        } else if opens_line_comment(source, at) {
            lemma_run_until(source, at + 2, NEWLINE);
        } else if is_punctuation(c) {
        } else if is_letter(c) {
            lemma_run_len(source, at + 1, |c: char| is_identifier_part(c));
        }
    }
}

} // verus!
