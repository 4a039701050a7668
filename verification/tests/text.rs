use delphi_lint::chars::{
    in_ascii, is_apostrophe, is_digit, is_identifier_part, is_letter, is_letter_or_numeral,
    is_number_part, is_punctuation, is_space, is_whitespace_char,
};
use delphi_lint::keywords::is_keyword;
use delphi_lint::text::{push_decimal, push_repeated};

fn decimal(n: usize) -> String {
    let mut out = String::new();
    push_decimal(&mut out, n);
    out
}

#[test]
fn decimal_of_small_and_large_numbers() {
    assert_eq!(decimal(0), "0");
    assert_eq!(decimal(7), "7");
    assert_eq!(decimal(9), "9");
    assert_eq!(decimal(10), "10");
    assert_eq!(decimal(42), "42");
    assert_eq!(decimal(100), "100");
    assert_eq!(decimal(1234567890), "1234567890");
    assert_eq!(decimal(usize::MAX), usize::MAX.to_string());
}

#[test]
fn push_decimal_appends() {
    let mut out = String::from("row ");
    push_decimal(&mut out, 305);
    out.push(':');
    push_decimal(&mut out, 0);
    assert_eq!(out, "row 305:0");
}

#[test]
fn push_repeated_appends_that_many() {
    let mut out = String::from("a");
    push_repeated(&mut out, '\'', 3);
    assert_eq!(out, "a'''");
    push_repeated(&mut out, 'x', 0);
    assert_eq!(out, "a'''");
    push_repeated(&mut out, '\u{e9}', 2);
    assert_eq!(out, "a'''\u{e9}\u{e9}");
}

#[test]
fn all_reserved_words_are_keywords() {
    let words = [
        "absolute", "abstract", "and", "array", "as", "asm", "assembler", "automated", "begin",
        "case", "cdecl", "class", "const", "constructor", "contains", "default", "destructor",
        "dispid", "dispinterface", "div", "do", "downto", "dynamic", "else", "end", "except",
        "export", "exports", "external", "far", "file", "final", "finalization", "finally",
        "for", "forward", "function", "goto", "if", "implementation", "implements", "in",
        "index", "inherited", "initialization", "inline", "interface", "is", "label", "library",
        "message", "mod", "name", "near", "nil", "not", "object", "of", "on", "or", "out",
        "overload", "override", "package", "packed", "pascal", "platform", "private",
        "procedure", "program", "property", "protected", "public", "published", "raise", "read",
        "record", "register", "reintroduce", "repeat", "requires", "resident", "resourcestring",
        "safecall", "set", "shl", "shr", "stdcall", "stored", "string", "then", "threadvar",
        "to", "try", "type", "unit", "unsafe", "until", "uses", "var", "virtual", "while",
        "with", "write", "xor",
    ];
    assert_eq!(words.len(), 105);
    for word in words {
        assert!(is_keyword(word), "{}", word);
        assert!(!is_keyword(&word.to_uppercase()), "{}", word);
        assert!(!is_keyword(&format!("{}x", word)), "{}", word);
        assert!(!is_keyword(&word[1..]) || word == "for" || word == "shr" || word == "nil"
            || ["or", "in", "on", "to", "of", "is", "as", "do", "if"].contains(&&word[1..])
            || is_keyword(&word[1..]), "{}", word);
    }
}

#[test]
fn other_words_are_no_keywords() {
    for word in ["", "x", "variable", "MyUnit", "Const", "en", "ends", "integer", "result", " end"]
    {
        assert!(!is_keyword(word), "{}", word);
    }
}

#[test]
fn ascii_classes() {
    for c in '\u{0}'..='\u{7f}' {
        assert!(in_ascii(c));
        assert_eq!(is_whitespace_char(c), c == ' ' || ('\t'..='\r').contains(&c));
        assert_eq!(is_whitespace_char(c), c.is_whitespace());
        assert_eq!(is_digit(c), c.is_ascii_digit());
        assert_eq!(is_number_part(c), c.is_ascii_digit() || c == '.');
        assert_eq!(is_letter(c), c.is_ascii_alphabetic());
        assert_eq!(is_letter(c), c.is_alphabetic());
        assert_eq!(is_letter_or_numeral(c), c.is_ascii_alphanumeric());
        assert_eq!(is_letter_or_numeral(c), c.is_alphanumeric());
        assert_eq!(is_identifier_part(c), c.is_ascii_alphanumeric() || c == '_');
        assert_eq!(is_punctuation(c), c.is_ascii_punctuation());
        assert_eq!(is_apostrophe(c), c == '\'');
        assert_eq!(is_space(c), c == ' ');
    }
}

#[test]
fn classes_beyond_ascii() {
    assert!(!in_ascii('\u{80}'));
    assert!(!in_ascii('\u{e9}'));
    assert!(is_whitespace_char('\u{a0}'));
    assert!(is_whitespace_char('\u{2028}'));
    assert!(!is_whitespace_char('\u{e9}'));
    assert!(!is_whitespace_char('\u{200b}'));
    assert!(is_letter('\u{e9}'));
    assert!(is_letter('\u{4e2d}'));
    assert!(!is_letter('\u{663}'));
    assert!(!is_letter('\u{20ac}'));
    assert!(is_letter_or_numeral('\u{e9}'));
    assert!(is_letter_or_numeral('\u{663}'));
    assert!(is_letter_or_numeral('\u{bd}'));
    assert!(!is_letter_or_numeral('\u{20ac}'));
    assert!(is_identifier_part('\u{663}'));
    assert!(!is_digit('\u{663}'));
    assert!(!is_number_part('\u{663}'));
    assert!(!is_punctuation('\u{a1}'));
    assert!(!is_punctuation('\u{2014}'));
    assert!(!is_space('\u{a0}'));
    assert!(!is_apostrophe('\u{2019}'));
}
