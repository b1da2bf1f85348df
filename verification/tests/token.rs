use monkey::token::{same_text, Kind, Token};

const KINDS: [Kind; 27] = [
    Kind::Eof,
    Kind::Illegal,
    Kind::Ident,
    Kind::Number,
    Kind::Assign,
    Kind::Plus,
    Kind::Minus,
    Kind::Asterisk,
    Kind::Slash,
    Kind::Bang,
    Kind::Lt,
    Kind::Gt,
    Kind::Eq,
    Kind::Neq,
    Kind::Comma,
    Kind::Semicolon,
    Kind::Lparen,
    Kind::Rparen,
    Kind::Lbrace,
    Kind::Rbrace,
    Kind::Function,
    Kind::Let,
    Kind::Return,
    Kind::True,
    Kind::False,
    Kind::If,
    Kind::Else,
];

#[test]
fn kind_to_str() {
    let expected = [
        "EOF",
        "Illegal",
        "Identifier",
        "number",
        "=",
        "+",
        "-",
        "*",
        "/",
        "!",
        "<",
        ">",
        "==",
        "!=",
        ",",
        ";",
        "(",
        ")",
        "{",
        "}",
        "function",
        "let",
        "return",
        "true",
        "false",
        "if",
        "else",
    ];
    for (kind, text) in KINDS.iter().zip(expected) {
        assert_eq!(kind.to_str(), text);
    }
}

#[test]
fn kind_name_is_the_debug_name() {
    for kind in KINDS {
        assert_eq!(kind.name(), format!("{:?}", kind));
    }
}

#[test]
fn lookup_ident_finds_keywords() {
    assert_eq!(Kind::lookup_ident("function"), Kind::Function);
    assert_eq!(Kind::lookup_ident("let"), Kind::Let);
    assert_eq!(Kind::lookup_ident("return"), Kind::Return);
    assert_eq!(Kind::lookup_ident("true"), Kind::True);
    assert_eq!(Kind::lookup_ident("false"), Kind::False);
    assert_eq!(Kind::lookup_ident("if"), Kind::If);
    assert_eq!(Kind::lookup_ident("else"), Kind::Else);
}

#[test]
fn lookup_ident_takes_other_words_as_identifiers() {
    assert_eq!(Kind::lookup_ident("foo"), Kind::Ident);
    assert_eq!(Kind::lookup_ident(""), Kind::Ident);
    assert_eq!(Kind::lookup_ident("LET"), Kind::Ident);
    assert_eq!(Kind::lookup_ident("letter"), Kind::Ident);
    assert_eq!(Kind::lookup_ident("retur"), Kind::Ident);
    assert_eq!(Kind::lookup_ident("fi"), Kind::Ident);
}

#[test]
fn default_kind_and_token() {
    assert_eq!(Kind::default(), Kind::Eof);
    let token = Token::default();
    assert_eq!(token.kind, Kind::Eof);
    assert_eq!(token.literal, "");
}

#[test]
fn token_clone_keeps_kind_and_literal() {
    let token = Token { kind: Kind::Ident, literal: "foo".to_string() };
    let copy = token.clone();
    assert_eq!(copy.kind, Kind::Ident);
    assert_eq!(copy.literal, "foo");
}

#[test]
fn same_text_compares_characters() {
    assert!(same_text("", ""));
    assert!(same_text("let", "let"));
    assert!(same_text("é", "é"));
    assert!(!same_text("let", "lit"));
    assert!(!same_text("let", "le"));
    assert!(!same_text("le", "let"));
    assert!(!same_text("é", "e"));
}
