use delphi_lint::lexer::{LexError, TokenTyp};
use delphi_lint::parser::{ParseError, Parser};

fn parse(source: &str) -> Result<(), String> {
    let mut parser = Parser::new(String::from(source));
    parser.parse_file()
}

fn failure(source: &str) -> String {
    match parse(source) {
        Ok(()) => panic!("parsed: {:?}", source),
        Err(message) => message,
    }
}

#[test]
fn unit_with_semicolon_and_end_parses() {
    assert_eq!(parse("unit MyUnit; end."), Ok(()));
}

#[test]
fn unit_without_semicolon_is_an_error_at_the_end_of_input() {
    assert_eq!(failure("unit MyUnit end."), "Expected Operator but found EOF at 1:17");
}

#[test]
fn whitespace_and_comments_may_stand_anywhere() {
    assert_eq!(parse("  // header\n{ c } unit { c } MyUnit // c\n ; { c }\n end. // bye\n"), Ok(()));
    assert_eq!(parse("unit\nMyUnit\n;\nend\n.\n"), Ok(()));
    assert_eq!(parse("unit A;."), Ok(()));
}

#[test]
fn tokens_between_name_and_semicolon_are_passed_over() {
    assert_eq!(parse("unit A.B.C platform 12 'x'; end."), Ok(()));
}

#[test]
fn body_between_semicolon_and_last_operator_is_passed_over() {
    assert_eq!(
        parse("unit A;\ninterface\nconst x = 'a;b';\nimplementation\nbegin end."),
        Ok(())
    );
}

#[test]
fn file_must_start_with_the_keyword_unit() {
    assert_eq!(failure("program P; end."), "Expected Keyword but found Keyword at 1:1");
    assert_eq!(failure("Unit A; end."), "Expected Keyword but found Identifier at 1:1");
    assert_eq!(failure("  \n  12"), "Expected Keyword but found Number at 2:3");
    assert_eq!(failure(""), "Expected Keyword but found EOF at 1:1");
    assert_eq!(failure(" // only a comment"), "Expected Keyword but found EOF at 1:19");
    assert_eq!(failure("'unit' A; end."), "Expected Keyword but found String at 1:1");
}

#[test]
fn name_must_be_an_identifier() {
    assert_eq!(failure("unit ; end."), "Expected Identifier but found Operator at 1:6");
    assert_eq!(failure("unit begin; end."), "Expected Identifier but found Keyword at 1:6");
    assert_eq!(failure("unit"), "Expected Identifier but found EOF at 1:5");
    assert_eq!(failure("unit\n\n  42;"), "Expected Identifier but found Number at 3:3");
}

#[test]
fn semicolon_must_follow() {
    assert_eq!(failure("unit A"), "Expected Operator but found EOF at 1:7");
    assert_eq!(failure("unit A : , .\n"), "Expected Operator but found EOF at 2:1");
    assert_eq!(failure("unit A ';'"), "Expected Operator but found EOF at 1:11");
}

#[test]
fn something_must_follow_the_semicolon() {
    assert_eq!(failure("unit A;"), "Expected Operator but found EOF at 1:8");
    assert_eq!(failure("unit A; // end.\n"), "Expected Operator but found EOF at 2:1");
}

#[test]
fn last_token_must_be_an_operator() {
    assert_eq!(failure("unit A; end"), "Expected Operator but found Keyword at 1:9");
    assert_eq!(failure("unit A; end. x"), "Expected Operator but found Identifier at 1:14");
    assert_eq!(failure("unit A; end.\n12 "), "Expected Operator but found Number at 2:1");
    assert_eq!(parse("unit A; end. { after } "), Ok(()));
    assert_eq!(parse("unit A; ;"), Ok(()));
}

#[test]
fn lexical_errors_show_in_the_parse_error() {
    assert_eq!(
        failure("unit A; end. 'open"),
        "Expected Operator but found UnterminatedString at 1:14"
    );
    assert_eq!(
        failure("unit A; end. {open"),
        "Expected Operator but found UnterminatedComment at 1:14"
    );
    assert_eq!(
        failure("unit A; end.\u{20ac}"),
        "Expected Operator but found UnexpectedCharacter at 1:13"
    );
    assert_eq!(
        failure("\u{20ac} unit A; end."),
        "Expected Keyword but found UnexpectedCharacter at 1:1"
    );
    assert_eq!(failure("unit {A; end."), "Expected Identifier but found UnterminatedComment at 1:6");
}

#[test]
fn parsing_again_after_success_starts_at_the_end_of_input() {
    let mut parser = Parser::new(String::from("unit A;\nend."));
    assert_eq!(parser.parse_file(), Ok(()));
    assert_eq!(
        parser.parse_file(),
        Err(String::from("Expected Keyword but found EOF at 2:5"))
    );
    assert_eq!(
        parser.parse_file(),
        Err(String::from("Expected Keyword but found EOF at 2:5"))
    );
}

#[test]
fn failed_parse_stays_at_the_token_that_did_not_fit() {
    let mut parser = Parser::new(String::from("x unit A; end."));
    for _ in 0..3 {
        assert_eq!(
            parser.parse_file(),
            Err(String::from("Expected Keyword but found Identifier at 1:1"))
        );
    }
}

#[test]
fn message_gives_kinds_and_place() {
    let error = ParseError {
        expected: TokenTyp::Operator,
        found: TokenTyp::Error(LexError::UnterminatedString),
        row: 120,
        col: 7,
    };
    assert_eq!(error.message(), "Expected Operator but found UnterminatedString at 120:7");
    let far = ParseError {
        expected: TokenTyp::Keyword,
        found: TokenTyp::ConditionalCompilation,
        row: usize::MAX,
        col: 0,
    };
    assert_eq!(
        far.message(),
        format!("Expected Keyword but found ConditionalCompilation at {}:0", usize::MAX)
    );
}

#[test]
fn long_files_keep_their_rows() {
    let mut source = String::from("unit A;\n");
    for _ in 0..1000 {
        source.push_str("x := 1;\n");
    }
    source.push_str("end");
    assert_eq!(failure(&source), "Expected Operator but found Keyword at 1002:1");
    source.push('.');
    assert_eq!(parse(&source), Ok(()));
}
