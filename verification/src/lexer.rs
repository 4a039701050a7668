//! The tokenizer: it turns source text into tokens, one token for each
//! call, each with its kind, its content and the place of its first
//! character.

use crate::chars::{
    is_apostrophe, is_digit, is_identifier_part, is_letter, is_number_part, is_punctuation,
    is_space, is_whitespace_char, spec_is_apostrophe, spec_is_identifier_part,
    spec_is_number_part, spec_is_space, spec_is_whitespace_char, APOSTROPHE, NEWLINE,
};
use crate::grammar::{
    apostrophe_run, brace_comment_lexeme, fenced_line, fenced_text, identifier_lexeme,
    lemma_lexeme_extent, lemma_quoted_body_after_text, lexeme_at, line_comment_lexeme,
    next_cursor, number_lexeme, opens_line_comment, quoted_body, single, string_lexeme,
    whitespace_lexeme, without_last, Lexeme,
};
use crate::keywords::is_keyword;
use crate::reader::{position_at, Position, Reader};
use crate::runs::{
    lemma_accepted_run_is_run_len, lemma_run_len, lemma_run_len_agrees, none_of, other_than,
};
use crate::text::{push_repeated, repeated};
use vstd::prelude::*;

verus! {

/// What can be wrong with the text at the cursor.
#[derive(Debug, PartialEq, Eq, Clone, Copy, Structural)]
pub enum LexError {
    /// A character with which no token starts.
    UnexpectedCharacter,
    /// A string literal that the end of the source cuts short.
    UnterminatedString,
    /// A comment in braces that the end of the source cuts short.
    UnterminatedComment,
}

/// The kind of a token.
#[derive(Debug, PartialEq, Eq, Clone, Copy, Structural)]
pub enum TokenTyp {
    Comment,
    String,
    Number,
    /// Kept for compiler directives; the tokenizer does not produce it.
    ConditionalCompilation,
    Operator,
    Keyword,
    Identifier,
    Whitespace,
    /// The end of the source.
    EOF,
    /// Text that is no token. The tokenizer goes on behind it.
    Error(LexError),
}

impl LexError {
    /// The name of the error.
    pub open spec fn spec_name(self) -> Seq<char> {
        match self {
            LexError::UnexpectedCharacter => "UnexpectedCharacter"@,
            LexError::UnterminatedString => "UnterminatedString"@,
            LexError::UnterminatedComment => "UnterminatedComment"@,
        }
    }

    /// The name of the error.
    pub fn name(self) -> (text: &'static str)
        ensures
            text@ == self.spec_name(),
    {
        match self {
            LexError::UnexpectedCharacter => "UnexpectedCharacter",
            LexError::UnterminatedString => "UnterminatedString",
            LexError::UnterminatedComment => "UnterminatedComment",
        }
    }
}

impl TokenTyp {
    /// The name of the kind; for an error token, the name of the error.
    pub open spec fn spec_name(self) -> Seq<char> {
        match self {
            TokenTyp::Comment => "Comment"@,
            TokenTyp::String => "String"@,
            TokenTyp::Number => "Number"@,
            TokenTyp::ConditionalCompilation => "ConditionalCompilation"@,
            TokenTyp::Operator => "Operator"@,
            TokenTyp::Keyword => "Keyword"@,
            TokenTyp::Identifier => "Identifier"@,
            TokenTyp::Whitespace => "Whitespace"@,
            TokenTyp::EOF => "EOF"@,
            TokenTyp::Error(error) => error.spec_name(),
        }
    }

    /// The name of the kind; for an error token, the name of the error.
    pub fn name(self) -> (text: &'static str)
        ensures
            text@ == self.spec_name(),
    {
        match self {
            TokenTyp::Comment => "Comment",
            TokenTyp::String => "String",
            TokenTyp::Number => "Number",
            TokenTyp::ConditionalCompilation => "ConditionalCompilation",
            TokenTyp::Operator => "Operator",
            TokenTyp::Keyword => "Keyword",
            TokenTyp::Identifier => "Identifier",
            TokenTyp::Whitespace => "Whitespace",
            TokenTyp::EOF => "EOF",
            TokenTyp::Error(error) => error.name(),
        }
    }
}

/// A token: its kind, its content, and the row and column of its first
/// character, both counted from 1. The content of a string is the text
/// that the literal stands for, that of a comment the text between its
/// delimiters, and that of every other token the source text as it is.
#[derive(Debug, PartialEq, Clone)]
pub struct Token {
    pub typ: TokenTyp,
    pub content: String,
    pub row: usize,
    pub col: usize,
}

/// A token as specifications see it.
pub struct TokenView {
    pub typ: TokenTyp,
    pub content: Seq<char>,
    pub row: nat,
    pub col: nat,
}

impl View for Token {
    type V = TokenView;

    open spec fn view(&self) -> TokenView {
        TokenView {
            typ: self.typ,
            content: self.content@,
            row: self.row as nat,
            col: self.col as nat,
        }
    }
}

/// The token that `lexeme` makes when it stands at `place`.
pub open spec fn located(lexeme: Lexeme, place: Position) -> TokenView {
    TokenView { typ: lexeme.typ, content: lexeme.content, row: place.row, col: place.col }
}

/// The token that stands at `at` in `source`.
pub open spec fn token_at(source: Seq<char>, at: int) -> TokenView {
    located(lexeme_at(source, at), position_at(source, at))
}

/// A tokenizer over one source text. It holds nothing but its reader: each
/// call starts afresh from the character at the cursor.
pub struct Lexer {
    reader: Reader,
}

impl Lexer {
    /// The whole source text.
    pub closed spec fn source(&self) -> Seq<char> {
        self.reader.source()
    }

    /// The index in the source at which the next token starts.
    pub closed spec fn cursor(&self) -> nat {
        self.reader.cursor()
    }

    /// `token` is `lexeme` at the cursor of `self`, and `after` is `self`
    /// moved behind it.
    spec fn produced(&self, after: &Lexer, token: Token, lexeme: Lexeme) -> bool {
        &&& after.reader.source() == self.reader.source()
        &&& after.reader.cursor() == self.reader.cursor() + lexeme.len
        &&& token@ == located(
            lexeme,
            position_at(self.reader.source(), self.reader.cursor() as int),
        )
    }

    /// A tokenizer at the start of `content`.
    pub fn new(content: String) -> (lexer: Self)
        requires
            content@.len() < usize::MAX,
        ensures
            lexer.source() == content@,
            lexer.cursor() == 0,
    {
        Lexer { reader: Reader::new(content) }
    }

    /// Returns the token at the cursor and moves behind it. At the end of
    /// the source it returns the end-of-input token and stays where it is,
    /// however often it is called.
    pub fn next(&mut self) -> (token: Token)
        ensures
            final(self).source() == old(self).source(),
            token@ == token_at(old(self).source(), old(self).cursor() as int),
            final(self).cursor() == next_cursor(old(self).source(), old(self).cursor() as int),
            final(self).cursor() <= final(self).source().len(),
            old(self).cursor() < old(self).source().len() ==> old(self).cursor()
                < final(self).cursor(),
            token.typ == TokenTyp::EOF <==> old(self).cursor() == old(self).source().len(),
    {
        self.next_token()
    }

    /// Recognises the token at the cursor by its first character and scans
    /// it.
    pub fn next_token(&mut self) -> (token: Token)
        ensures
            final(self).source() == old(self).source(),
            token@ == token_at(old(self).source(), old(self).cursor() as int),
            final(self).cursor() == next_cursor(old(self).source(), old(self).cursor() as int),
            final(self).cursor() <= final(self).source().len(),
            old(self).cursor() < old(self).source().len() ==> old(self).cursor()
                < final(self).cursor(),
            token.typ == TokenTyp::EOF <==> old(self).cursor() == old(self).source().len(),
    {
        proof {
            use_type_invariant(&self.reader);
            lemma_lexeme_extent(self.reader.source(), self.reader.cursor() as int);
        }
        match self.reader.peek() {
            None => {
                let (row, col) = self.reader.position();
                Token { typ: TokenTyp::EOF, content: String::new(), row, col }
            },
            Some(c) => {
                if is_whitespace_char(c) {
                    self.process_whitespace()
                } else if is_apostrophe(c) {
                    self.process_stringliteral()
                } else if is_digit(c) {
                    self.process_numeric()
                } else if c == '{' || (c == '/' && self.slash_follows()) {
                    self.process_comment()
                } else if is_punctuation(c) {
                    self.process_single(TokenTyp::Operator)
                } else if is_letter(c) {
                    self.process_indentifier()
                } else {
                    self.process_single(TokenTyp::Error(LexError::UnexpectedCharacter))
                }
            },
        }
    }

    /// Whether the character after the one at the cursor is a slash.
    fn slash_follows(&self) -> (follows: bool)
        ensures
            follows == (self.reader.char_at(1) == Some('/')),
    {
        match self.reader.peek_nth(1) {
            Some(c) => c == '/',
            None => false,
        }
    }

    /// Scans the character at the cursor as a token of its own.
    fn process_single(&mut self, typ: TokenTyp) -> (token: Token)
        requires
            old(self).reader.char_at(0) is Some,
        ensures
            old(self).produced(final(self), token, single(typ, old(self).reader.char_at(0)->0)),
    {
        let (row, col) = self.reader.position();
        let mut content = String::new();
        match self.reader.next() {
            Some(c) => {
                content.push(c);
            },
            None => {},
        }
        Token { typ, content, row, col }
    }

    fn process_whitespace(&mut self) -> (token: Token)
        ensures
            old(self).produced(
                final(self),
                token,
                whitespace_lexeme(old(self).reader.source(), old(self).reader.cursor() as int),
            ),
    {
        let (row, col) = self.reader.position();
        let accepts = |c: char| -> (b: bool)
            ensures
                b == spec_is_whitespace_char(c),
            { is_whitespace_char(c) };
        let content = self.reader.read_while(accepts);
        proof {
            lemma_accepted_run_is_run_len(
                accepts,
                |c: char| is_whitespace_char(c),
                old(self).reader.source(),
                old(self).reader.cursor() as int,
                content@.len() as int,
            );
        }
        Token { typ: TokenTyp::Whitespace, content, row, col }
    }

    fn process_numeric(&mut self) -> (token: Token)
        ensures
            old(self).produced(
                final(self),
                token,
                number_lexeme(old(self).reader.source(), old(self).reader.cursor() as int),
            ),
    {
        let (row, col) = self.reader.position();
        let accepts = |c: char| -> (b: bool)
            ensures
                b == spec_is_number_part(c),
            { is_number_part(c) };
        let content = self.reader.read_while(accepts);
        proof {
            lemma_accepted_run_is_run_len(
                accepts,
                |c: char| is_number_part(c),
                old(self).reader.source(),
                old(self).reader.cursor() as int,
                content@.len() as int,
            );
        }
        Token { typ: TokenTyp::Number, content, row, col }
    }

    fn process_indentifier(&mut self) -> (token: Token)
        requires
            old(self).reader.char_at(0) matches Some(c) && is_letter(c),
        ensures
            old(self).produced(
                final(self),
                token,
                identifier_lexeme(old(self).reader.source(), old(self).reader.cursor() as int),
            ),
    {
        let (row, col) = self.reader.position();
        let accepts = |c: char| -> (b: bool)
            ensures
                b == spec_is_identifier_part(c),
            { is_identifier_part(c) };
        let content = self.reader.read_while(accepts);
        proof {
            lemma_accepted_run_is_run_len(
                accepts,
                |c: char| is_identifier_part(c),
                old(self).reader.source(),
                old(self).reader.cursor() as int,
                content@.len() as int,
            );
        }
        let typ = if is_keyword(content.as_str()) {
            TokenTyp::Keyword
        } else {
            TokenTyp::Identifier
        };
        Token { typ, content, row, col }
    }

    fn process_comment(&mut self) -> (token: Token)
        requires
            old(self).reader.char_at(0) == Some('{') || opens_line_comment(
                old(self).reader.source(),
                old(self).reader.cursor() as int,
            ),
        ensures
            old(self).produced(
                final(self),
                token,
                if old(self).reader.char_at(0) == Some('{') {
                    brace_comment_lexeme(
                        old(self).reader.source(),
                        old(self).reader.cursor() as int,
                    )
                } else {
                    line_comment_lexeme(
                        old(self).reader.source(),
                        old(self).reader.cursor() as int,
                    )
                },
            ),
    {
        let ghost source = self.reader.source();
        let ghost start = self.reader.cursor() as int;
        proof {
            use_type_invariant(&self.reader);
        }
        let (row, col) = self.reader.position();
        match self.reader.peek() {
            Some('{') => {
                self.reader.advance_by(1);
                let stops = ['}'];
                let content = self.reader.read_until(stops.as_slice());
                proof {
                    lemma_run_len_agrees(source, start + 1, none_of(stops@), other_than('}'));
                    lemma_run_len(source, start + 1, other_than('}'));
                }
                if self.reader.is_eof() {
                    Token { typ: TokenTyp::Error(LexError::UnterminatedComment), content, row, col }
                } else {
                    self.reader.advance_by(1);
                    Token { typ: TokenTyp::Comment, content, row, col }
                }
            },
            _ => {
                self.reader.advance_by(2);
                let stops = [NEWLINE];
                let content = self.reader.read_until(stops.as_slice());
                proof {
                    lemma_run_len_agrees(source, start + 2, none_of(stops@), other_than(NEWLINE));
                }
                Token { typ: TokenTyp::Comment, content, row, col }
            },
        }
    }
}

impl Lexer {
    /// The content of a string literal that is nothing but a run of
    /// `quote_count` apostrophes: one apostrophe less than half the run.
    fn delphi_string_escaped_quotes(&self, quote_count: usize) -> (content: String)
        requires
            quote_count >= 2,
        ensures
            content@ == repeated(APOSTROPHE, (quote_count / 2 - 1) as nat),
    {
        let mut content = String::new();
        push_repeated(&mut content, APOSTROPHE, quote_count / 2 - 1);
        content
    }

    #[verifier::loop_isolation(false)]
    fn process_string(&mut self, quote_count: usize) -> (token: Token)
        requires
            quote_count == apostrophe_run(
                old(self).reader.source(),
                old(self).reader.cursor() as int,
            ),
            quote_count >= 1,
            quote_count % 2 == 0 || quote_count == 1,
        ensures
            old(self).produced(
                final(self),
                token,
                string_lexeme(old(self).reader.source(), old(self).reader.cursor() as int),
            ),
    {
        let ghost source = self.reader.source();
        let ghost start = self.reader.cursor() as int;
        proof {
            use_type_invariant(&self.reader);
            lemma_run_len(source, start, |c: char| is_apostrophe(c));
        }
        let (row, col) = self.reader.position();
        if quote_count % 2 == 0 {
            let content = self.delphi_string_escaped_quotes(quote_count);
            self.reader.advance_by(quote_count);
            return Token { typ: TokenTyp::String, content, row, col };
        }
        self.reader.advance_by(1);
        let ghost body = quoted_body(source, start + 1);
        let mut content = String::new();
        loop
            invariant
                self.reader.source() == source,
                start < self.reader.cursor() <= source.len(),
                body == quoted_body(source, start + 1),
                body.content == content@ + quoted_body(
                    source,
                    self.reader.cursor() as int,
                ).content,
                body.end == quoted_body(source, self.reader.cursor() as int).end,
                body.closed == quoted_body(source, self.reader.cursor() as int).closed,
            decreases source.len() - self.reader.cursor(),
        {
            let ghost text_start = self.reader.cursor() as int;
            let stops = [APOSTROPHE];
            let text = self.reader.read_until(stops.as_slice());
            content.append(text.as_str());
            proof {
                lemma_run_len_agrees(source, text_start, none_of(stops@), other_than(APOSTROPHE));
                lemma_run_len(source, text_start, other_than(APOSTROPHE));
                lemma_quoted_body_after_text(source, text_start, text@.len() as int);
            }
            let ghost run_start = self.reader.cursor() as int;
            let accepts = |c: char| -> (b: bool)
                ensures
                    b == spec_is_apostrophe(c),
                { is_apostrophe(c) };
            let run = self.reader.count_run(accepts);
            proof {
                lemma_accepted_run_is_run_len(
                    accepts,
                    |c: char| is_apostrophe(c),
                    source,
                    run_start,
                    run as int,
                );
            }
            if run == 0 {
                return Token {
                    typ: TokenTyp::Error(LexError::UnterminatedString),
                    content,
                    row,
                    col,
                };
            }
            push_repeated(&mut content, APOSTROPHE, run / 2);
            self.reader.advance_by(run);
            if run % 2 == 1 {
                assert(content@ =~= body.content);
                return Token { typ: TokenTyp::String, content, row, col };
            }
        }
    }

    #[verifier::loop_isolation(false)]
    fn process_multiline_string(&mut self, quote_count: usize) -> (token: Token)
        requires
            quote_count == apostrophe_run(
                old(self).reader.source(),
                old(self).reader.cursor() as int,
            ),
            quote_count >= 3,
            quote_count % 2 == 1,
        ensures
            old(self).produced(
                final(self),
                token,
                string_lexeme(old(self).reader.source(), old(self).reader.cursor() as int),
            ),
    {
        let ghost source = self.reader.source();
        let ghost start = self.reader.cursor() as int;
        let ghost fence = quote_count as nat;
        proof {
            use_type_invariant(&self.reader);
            lemma_run_len(source, start, |c: char| is_apostrophe(c));
        }
        let (row, col) = self.reader.position();
        self.reader.advance_by(quote_count);
        self.reader.next();
        let spaces = |c: char| -> (b: bool)
            ensures
                b == spec_is_space(c),
            { is_space(c) };
        let apostrophes = |c: char| -> (b: bool)
            ensures
                b == spec_is_apostrophe(c),
            { is_apostrophe(c) };
        let indent = self.reader.count_run(spaces);
        proof {
            lemma_accepted_run_is_run_len(
                spaces,
                |c: char| is_space(c),
                source,
                self.reader.cursor() as int,
                indent as int,
            );
        }
        let ghost body = fenced_line(source, start + fence + 1, fence, indent as nat);
        let mut content = String::new();
        let mut at_line_start = true;
        let mut newline_held = false;
        loop
            invariant
                self.reader.source() == source,
                start < self.reader.cursor() <= source.len(),
                newline_held ==> at_line_start,
                at_line_start && !newline_held ==> content@.len() == 0,
                at_line_start ==> {
                    let rest = fenced_line(
                        source,
                        self.reader.cursor() as int,
                        fence,
                        indent as nat,
                    );
                    &&& body.content == content@ + (if newline_held {
                        seq![NEWLINE]
                    } else {
                        Seq::<char>::empty()
                    }) + rest.content
                    &&& body.end == rest.end
                    &&& body.closed == rest.closed
                },
                !at_line_start ==> {
                    let rest = fenced_text(
                        source,
                        self.reader.cursor() as int,
                        fence,
                        indent as nat,
                    );
                    &&& body.content == content@ + rest.content
                    &&& body.end == rest.end
                    &&& body.closed == rest.closed
                },
            decreases
                    source.len() - self.reader.cursor(),
                    if at_line_start {
                        1int
                    } else {
                        0int
                    },
        {
            let ghost here = self.reader.cursor() as int;
            if at_line_start {
                if self.reader.is_eof() {
                    if newline_held {
                        content.push(NEWLINE);
                    }
                    assert(content@ =~= body.content);
                    return Token {
                        typ: TokenTyp::Error(LexError::UnterminatedString),
                        content,
                        row,
                        col,
                    };
                }
                let leading = self.reader.count_run(spaces);
                proof {
                    lemma_accepted_run_is_run_len(
                        spaces,
                        |c: char| is_space(c),
                        source,
                        here,
                        leading as int,
                    );
                }
                self.reader.advance_by(if leading < indent {
                    leading
                } else {
                    indent
                });
                let run = self.reader.count_run(apostrophes);
                proof {
                    lemma_accepted_run_is_run_len(
                        apostrophes,
                        |c: char| is_apostrophe(c),
                        source,
                        self.reader.cursor() as int,
                        run as int,
                    );
                }
                if run == quote_count {
                    self.reader.advance_by(run);
                    assert(content@ =~= without_last(body.content));
                    return Token { typ: TokenTyp::String, content, row, col };
                }
                if newline_held {
                    content.push(NEWLINE);
                    newline_held = false;
                }
                at_line_start = false;
                assert(body.content =~= content@ + fenced_text(
                    source,
                    self.reader.cursor() as int,
                    fence,
                    indent as nat,
                ).content);
            } else {
                match self.reader.peek() {
                    None => {
                        assert(content@ =~= body.content);
                        return Token {
                            typ: TokenTyp::Error(LexError::UnterminatedString),
                            content,
                            row,
                            col,
                        };
                    },
                    Some(c) => {
                        if c == NEWLINE {
                            self.reader.next();
                            newline_held = true;
                            at_line_start = true;
                        } else if c == APOSTROPHE {
                            let run = self.reader.count_run(apostrophes);
                            proof {
                                lemma_accepted_run_is_run_len(
                                    apostrophes,
                                    |c: char| is_apostrophe(c),
                                    source,
                                    here,
                                    run as int,
                                );
                            }
                            push_repeated(&mut content, APOSTROPHE, run / 2);
                            self.reader.advance_by(run);
                        } else {
                            self.reader.next();
                            content.push(c);
                        }
                        assert(at_line_start ==> body.content =~= content@ + seq![NEWLINE]
                            + fenced_line(
                            source,
                            self.reader.cursor() as int,
                            fence,
                            indent as nat,
                        ).content);
                        assert(!at_line_start ==> body.content =~= content@ + fenced_text(
                            source,
                            self.reader.cursor() as int,
                            fence,
                            indent as nat,
                        ).content);
                    },
                }
            }
        }
    }

    fn process_stringliteral(&mut self) -> (token: Token)
        requires
            old(self).reader.char_at(0) == Some(APOSTROPHE),
        ensures
            old(self).produced(
                final(self),
                token,
                string_lexeme(old(self).reader.source(), old(self).reader.cursor() as int),
            ),
    {
        let accepts = |c: char| -> (b: bool)
            ensures
                b == spec_is_apostrophe(c),
            { is_apostrophe(c) };
        let quote_count = self.reader.count_run(accepts);
        proof {
            use_type_invariant(&self.reader);
            lemma_accepted_run_is_run_len(
                accepts,
                |c: char| is_apostrophe(c),
                self.reader.source(),
                self.reader.cursor() as int,
                quote_count as int,
            );
        }
        if quote_count % 2 == 0 || quote_count == 1 {
            self.process_string(quote_count)
        } else {
            self.process_multiline_string(quote_count)
        }
    }
}

} // verus!
