//! A check of the skeleton of a unit file: the keyword `unit`, the name of
//! the unit, a semicolon somewhere behind it, and an operator as the last
//! token of the file, which by convention is the period of `end.`.
//!
//! Whitespace and comments are passed over wherever they stand. Nothing
//! else of the language is parsed.

use crate::grammar::{lemma_lexeme_extent, lexeme_at, next_cursor};
use crate::lexer::{token_at, Lexer, Token, TokenTyp, TokenView};
use crate::text::{decimal, push_decimal};
use vstd::prelude::*;

verus! {

/// A token of a kind other than the one that the skeleton asks for at its
/// place: the kind that was expected, the kind that was found, and the row
/// and column of the token that was found.
#[derive(Debug, PartialEq, Eq, Clone, Copy, Structural)]
pub struct ParseError {
    pub expected: TokenTyp,
    pub found: TokenTyp,
    pub row: usize,
    pub col: usize,
}

/// A parse error as specifications see it.
pub struct Mismatch {
    pub expected: TokenTyp,
    pub found: TokenTyp,
    pub row: nat,
    pub col: nat,
}

impl Mismatch {
    /// The error in words: `Expected Operator but found EOF at 1:17`.
    pub open spec fn message(self) -> Seq<char> {
        "Expected "@ + self.expected.spec_name() + " but found "@ + self.found.spec_name()
            + " at "@ + decimal(self.row) + seq![':'] + decimal(self.col)
    }
}

impl View for ParseError {
    type V = Mismatch;

    open spec fn view(&self) -> Mismatch {
        Mismatch {
            expected: self.expected,
            found: self.found,
            row: self.row as nat,
            col: self.col as nat,
        }
    }
}

impl ParseError {
    /// The error in words, with the place of the token that was found.
    pub fn message(&self) -> (text: String)
        ensures
            text@ == self@.message(),
    {
        let mut text = String::from_str("Expected ");
        text.append(self.expected.name());
        text.append(" but found ");
        text.append(self.found.name());
        text.append(" at ");
        push_decimal(&mut text, self.row);
        text.push(':');
        push_decimal(&mut text, self.col);
        text
    }
}

/// The error that `found` is where a token of kind `expected` should be.
pub open spec fn mismatch(expected: TokenTyp, found: TokenView) -> Mismatch {
    Mismatch { expected, found: found.typ, row: found.row, col: found.col }
}

/// Whitespace and comments carry no structure; the parser passes over
/// them.
pub open spec fn is_trivia(typ: TokenTyp) -> bool {
    typ == TokenTyp::Whitespace || typ == TokenTyp::Comment
}

/// The index at which the first token from `at` on starts that is neither
/// whitespace nor a comment. At the latest this is the end of the source,
/// where the end-of-input token stands.
pub open spec fn skip_trivia(source: Seq<char>, at: int) -> int
    decreases source.len() - at,
    via skip_trivia_decreases
{
    if 0 <= at < source.len() && is_trivia(lexeme_at(source, at).typ) {
        skip_trivia(source, next_cursor(source, at))
    } else {
        at
    }
}

#[via_fn]
proof fn skip_trivia_decreases(source: Seq<char>, at: int) {
    if 0 <= at < source.len() {
        lemma_lexeme_extent(source, at);
    }
}

/// What the parser looks at: the token under inspection, and the index in
/// the source behind that token, where the tokenizer stands.
pub struct Progress {
    pub current: TokenView,
    pub cursor: int,
}

/// The progress after moving on to the next token that is neither
/// whitespace nor a comment.
pub open spec fn advanced(source: Seq<char>, from: Progress) -> Progress {
    let at = skip_trivia(source, from.cursor);
    Progress { current: token_at(source, at), cursor: next_cursor(source, at) }
}

/// The keyword `unit`.
pub open spec fn is_unit_keyword(token: TokenView) -> bool {
    token.typ == TokenTyp::Keyword && token.content == "unit"@
}

/// The operator `;`.
pub open spec fn is_semicolon(token: TokenView) -> bool {
    token.typ == TokenTyp::Operator && token.content == ";"@
}

/// The number of moves that are left at most before the end-of-input token
/// is under inspection.
pub open spec fn moves_left(source: Seq<char>, from: Progress) -> int {
    source.len() - from.cursor + if from.current.typ == TokenTyp::EOF {
        0int
    } else {
        1int
    }
}

/// The progress at the first semicolon from `from` on, or at the end of
/// input where no semicolon follows. Every token before it is passed over.
pub open spec fn seek_semicolon(source: Seq<char>, from: Progress) -> Progress
    decreases moves_left(source, from),
    when 0 <= from.cursor <= source.len()
    via seek_semicolon_decreases
{
    if is_semicolon(from.current) || from.current.typ == TokenTyp::EOF {
        from
    } else {
        seek_semicolon(source, advanced(source, from))
    }
}

#[via_fn]
proof fn seek_semicolon_decreases(source: Seq<char>, from: Progress) {
    lemma_advanced(source, from);
}

/// The end of a walk to the end of input: the progress there, and the last
/// token that was under inspection before the end-of-input token.
pub struct End {
    pub progress: Progress,
    pub last: TokenView,
}

/// Walks from `from` to the end of input. `last` is the token that was
/// under inspection before `from`; where `from` is at the end of input
/// already, it is the last token of the walk.
pub open spec fn seek_end(source: Seq<char>, from: Progress, last: TokenView) -> End
    decreases moves_left(source, from),
    when 0 <= from.cursor <= source.len()
    via seek_end_decreases
{
    if from.current.typ == TokenTyp::EOF {
        End { progress: from, last }
    } else {
        seek_end(source, advanced(source, from), from.current)
    }
}

#[via_fn]
proof fn seek_end_decreases(source: Seq<char>, from: Progress, last: TokenView) {
    lemma_advanced(source, from);
}

/// The verdict on a file, and the progress at which it was reached.
pub struct Outcome {
    pub error: Option<Mismatch>,
    pub progress: Progress,
}

/// Checks the skeleton of a unit file, starting with the token under
/// inspection.
///
/// 1. That token is the keyword `unit`.
/// 2. The next token is an identifier.
/// 3. A semicolon follows, after any number of other tokens. Where the end
///    of input comes first, an operator was expected and the end of input
///    found.
/// 4. The last token of the file stands behind that semicolon and is an
///    operator. Where nothing follows the semicolon, an operator was
///    expected and the end of input found.
///
/// The first step that fails gives the error, and the parser stays at the
/// token that it found there; for the last step that is the end of input.
pub open spec fn parse_outcome(source: Seq<char>, start: Progress) -> Outcome {
    let name = advanced(source, start);
    let semicolon = seek_semicolon(source, advanced(source, name));
    let tail = advanced(source, semicolon);
    let end = seek_end(source, tail, tail.current);
    if !is_unit_keyword(start.current) {
        Outcome { error: Some(mismatch(TokenTyp::Keyword, start.current)), progress: start }
    } else if name.current.typ != TokenTyp::Identifier {
        Outcome { error: Some(mismatch(TokenTyp::Identifier, name.current)), progress: name }
    } else if !is_semicolon(semicolon.current) {
        Outcome {
            error: Some(mismatch(TokenTyp::Operator, semicolon.current)),
            progress: semicolon,
        }
    } else if end.last.typ != TokenTyp::Operator {
        Outcome { error: Some(mismatch(TokenTyp::Operator, end.last)), progress: end.progress }
    } else {
        Outcome { error: None, progress: end.progress }
    }
}

/// Passing over whitespace and comments stays inside the source and ends
/// at a token that is neither.
pub proof fn lemma_skip_trivia(source: Seq<char>, at: int)
    requires
        0 <= at <= source.len(),
    ensures
        at <= skip_trivia(source, at) <= source.len(),
        !is_trivia(lexeme_at(source, skip_trivia(source, at)).typ),
    decreases source.len() - at,
{
    lemma_lexeme_extent(source, at);
    if at < source.len() && is_trivia(lexeme_at(source, at).typ) {
        lemma_skip_trivia(source, next_cursor(source, at));
    }
}

/// Each move brings the parser nearer to the end of input: it stays inside
/// the source, and unless the end-of-input token is under inspection
/// already, fewer moves are left after it than before.
pub proof fn lemma_advanced(source: Seq<char>, from: Progress)
    requires
        0 <= from.cursor <= source.len(),
    ensures
        from.cursor <= advanced(source, from).cursor <= source.len(),
        !is_trivia(advanced(source, from).current.typ),
        from.current.typ != TokenTyp::EOF ==> 0 <= moves_left(source, advanced(source, from))
            < moves_left(source, from),
{
    lemma_skip_trivia(source, from.cursor);
    lemma_lexeme_extent(source, skip_trivia(source, from.cursor));
}

/// A parser over one source text. It pulls tokens from its own tokenizer and
/// keeps the one under inspection.
pub struct Parser {
    lex: Lexer,
    current_token: Token,
}

impl Parser {
    /// The whole source text.
    pub closed spec fn source(&self) -> Seq<char> {
        self.lex.source()
    }

    /// The token under inspection.
    pub closed spec fn current(&self) -> TokenView {
        self.current_token@
    }

    /// The index in the source at which the tokenizer stands, behind the
    /// token under inspection.
    pub closed spec fn cursor(&self) -> nat {
        self.lex.cursor()
    }

    /// What the parser looks at.
    pub open spec fn progress(&self) -> Progress {
        Progress { current: self.current(), cursor: self.cursor() as int }
    }

    /// A parser over `content`. The first token of the source that is
    /// neither whitespace nor a comment is under inspection.
    pub fn new(content: String) -> (parser: Self)
        requires
            content@.len() < usize::MAX,
        ensures
            parser.source() == content@,
            parser.cursor() <= parser.source().len(),
            parser.current() == token_at(content@, skip_trivia(content@, 0)),
            parser.cursor() == next_cursor(content@, skip_trivia(content@, 0)),
    {
        let mut lex = Lexer::new(content);
        let current_token = Self::next_significant(&mut lex);
        Parser { lex, current_token }
    }

    /// Pulls tokens until one comes that is neither whitespace nor a
    /// comment, and returns that one.
    fn next_significant(lex: &mut Lexer) -> (token: Token)
        ensures
            final(lex).source() == old(lex).source(),
            final(lex).cursor() <= final(lex).source().len(),
            token@ == token_at(
                old(lex).source(),
                skip_trivia(old(lex).source(), old(lex).cursor() as int),
            ),
            final(lex).cursor() == next_cursor(
                old(lex).source(),
                skip_trivia(old(lex).source(), old(lex).cursor() as int),
            ),
    {
        loop
            invariant
                lex.source() == old(lex).source(),
                skip_trivia(lex.source(), lex.cursor() as int) == skip_trivia(
                    old(lex).source(),
                    old(lex).cursor() as int,
                ),
            decreases lex.source().len() - lex.cursor(),
        {
            let token = lex.next();
            match token.typ {
                TokenTyp::Whitespace | TokenTyp::Comment => {},
                _ => {
                    return token;
                },
            }
        }
    }

    /// Moves on to the next token that is neither whitespace nor a comment.
    fn advance(&mut self)
        ensures
            final(self).source() == old(self).source(),
            final(self).cursor() <= final(self).source().len(),
            final(self).progress() == advanced(old(self).source(), old(self).progress()),
    {
        self.current_token = Self::next_significant(&mut self.lex);
    }

    /// The token under inspection.
    fn peek(&self) -> (token: &Token)
        ensures
            token@ == self.current(),
    {
        &self.current_token
    }

    /// Whether the token under inspection is of the kind `expected_type`.
    fn match_token(&self, expected_type: TokenTyp) -> (matches: bool)
        ensures
            matches == (self.current().typ == expected_type),
    {
        self.current_token.typ == expected_type
    }

    /// Takes the token under inspection if it is of the kind
    /// `expected_type`, and moves on; otherwise leaves the parser as it is.
    fn consume(&mut self, expected_type: TokenTyp) -> (taken: Option<Token>)
        ensures
            final(self).source() == old(self).source(),
            match taken {
                Some(token) => {
                    &&& old(self).current().typ == expected_type
                    &&& token@ == old(self).current()
                    &&& final(self).cursor() <= final(self).source().len()
                    &&& final(self).progress() == advanced(
                        old(self).source(),
                        old(self).progress(),
                    )
                },
                None => {
                    &&& old(self).current().typ != expected_type
                    &&& final(self).progress() == old(self).progress()
                },
            },
    {
        if self.match_token(expected_type) {
            let mut token = Self::next_significant(&mut self.lex);
            std::mem::swap(&mut self.current_token, &mut token);
            Some(token)
        } else {
            None
        }
    }

    /// The error that the token under inspection is not of the kind
    /// `expected_type`.
    fn unexpected(&self, expected_type: TokenTyp) -> (error: ParseError)
        ensures
            error@ == mismatch(expected_type, self.current()),
    {
        ParseError {
            expected: expected_type,
            found: self.current_token.typ,
            row: self.current_token.row,
            col: self.current_token.col,
        }
    }

    /// Takes the token under inspection if it is of the kind
    /// `expected_type`, and moves on; otherwise reports it and leaves the
    /// parser as it is.
    fn expect(&mut self, expected_type: TokenTyp) -> (taken: Result<Token, ParseError>)
        ensures
            final(self).source() == old(self).source(),
            match taken {
                Ok(token) => {
                    &&& old(self).current().typ == expected_type
                    &&& token@ == old(self).current()
                    &&& final(self).cursor() <= final(self).source().len()
                    &&& final(self).progress() == advanced(
                        old(self).source(),
                        old(self).progress(),
                    )
                },
                Err(error) => {
                    &&& old(self).current().typ != expected_type
                    &&& error@ == mismatch(expected_type, old(self).current())
                    &&& final(self).progress() == old(self).progress()
                },
            },
    {
        match self.consume(expected_type) {
            Some(token) => Ok(token),
            None => Err(self.unexpected(expected_type)),
        }
    }

    /// Whether the token under inspection is the operator `;`.
    fn at_semicolon(&self) -> (found: bool)
        ensures
            found == is_semicolon(self.current()),
    {
        self.match_token(TokenTyp::Operator) && self.current_token.content.as_str().eq(";")
    }

    /// Whether the token under inspection is the keyword `unit`.
    fn at_unit_keyword(&self) -> (found: bool)
        ensures
            found == is_unit_keyword(self.current()),
    {
        self.match_token(TokenTyp::Keyword) && self.current_token.content.as_str().eq("unit")
    }

    /// Passes over tokens until a semicolon or the end of input is under
    /// inspection.
    fn skip_to_semicolon(&mut self)
        requires
            old(self).cursor() <= old(self).source().len(),
        ensures
            final(self).source() == old(self).source(),
            final(self).cursor() <= final(self).source().len(),
            final(self).progress() == seek_semicolon(old(self).source(), old(self).progress()),
    {
        while !self.at_semicolon() && !self.match_token(TokenTyp::EOF)
            invariant
                self.source() == old(self).source(),
                self.cursor() <= self.source().len(),
                seek_semicolon(self.source(), self.progress()) == seek_semicolon(
                    old(self).source(),
                    old(self).progress(),
                ),
            decreases moves_left(self.source(), self.progress()),
        {
            proof {
                lemma_advanced(self.source(), self.progress());
            }
            self.advance();
        }
    }

    /// Passes over tokens until the end of input is under inspection, and
    /// returns what to report if the last token before it is no operator:
    /// the kind and place of that token.
    fn skip_to_end(&mut self) -> (last: ParseError)
        requires
            old(self).cursor() <= old(self).source().len(),
        ensures
            final(self).source() == old(self).source(),
            final(self).cursor() <= final(self).source().len(),
            final(self).progress() == seek_end(
                old(self).source(),
                old(self).progress(),
                old(self).current(),
            ).progress,
            last@ == mismatch(
                TokenTyp::Operator,
                seek_end(old(self).source(), old(self).progress(), old(self).current()).last,
            ),
    {
        let ghost mut last_seen = self.current();
        let mut last = self.unexpected(TokenTyp::Operator);
        while !self.match_token(TokenTyp::EOF)
            invariant
                self.source() == old(self).source(),
                self.cursor() <= self.source().len(),
                last@ == mismatch(TokenTyp::Operator, last_seen),
                seek_end(self.source(), self.progress(), last_seen) == seek_end(
                    old(self).source(),
                    old(self).progress(),
                    old(self).current(),
                ),
            decreases moves_left(self.source(), self.progress()),
        {
            proof {
                lemma_advanced(self.source(), self.progress());
                last_seen = self.current();
            }
            last = self.unexpected(TokenTyp::Operator);
            self.advance();
        }
        last
    }

    /// Checks the skeleton of a unit file from the token under inspection
    /// on, and says which token did not fit, if one did not.
    fn check_file(&mut self) -> (verdict: Result<(), ParseError>)
        ensures
            final(self).source() == old(self).source(),
            final(self).progress() == parse_outcome(
                old(self).source(),
                old(self).progress(),
            ).progress,
            match verdict {
                Ok(_) => parse_outcome(old(self).source(), old(self).progress()).error is None,
                Err(error) => parse_outcome(old(self).source(), old(self).progress()).error
                    == Some(error@),
            },
    {
        if !self.at_unit_keyword() {
            return Err(self.unexpected(TokenTyp::Keyword));
        }
        self.advance();
        match self.expect(TokenTyp::Identifier) {
            Ok(_) => {},
            Err(error) => {
                return Err(error);
            },
        }
        self.skip_to_semicolon();
        if !self.at_semicolon() {
            return Err(self.unexpected(TokenTyp::Operator));
        }
        self.advance();
        let last = self.skip_to_end();
        if last.found == TokenTyp::Operator {
            Ok(())
        } else {
            Err(last)
        }
    }

    /// Checks that the source has the skeleton of a unit file: the keyword
    /// `unit`, an identifier, later a semicolon, and an operator as its
    /// last token. Whitespace and comments may stand anywhere. A token that
    /// does not fit ends the check; the error says in words which kind was
    /// expected, which was found, and at which row and column.
    pub fn parse_file(&mut self) -> (result: Result<(), String>)
        ensures
            final(self).source() == old(self).source(),
            final(self).progress() == parse_outcome(
                old(self).source(),
                old(self).progress(),
            ).progress,
            match result {
                Ok(_) => parse_outcome(old(self).source(), old(self).progress()).error is None,
                Err(message) => {
                    &&& parse_outcome(old(self).source(), old(self).progress()).error is Some
                    &&& message@ == parse_outcome(
                        old(self).source(),
                        old(self).progress(),
                    ).error->0.message()
                },
            },
    {
        match self.check_file() {
            Ok(_) => Ok(()),
            Err(error) => Err(error.message()),
        }
    }
}

} // verus!
