use monkey::lexer::Lexer;
use monkey::token::Kind;

#[test]
fn test_next_token() {
    let input = "
            let five = 5;
            let ten = 10;

            let add = function(x, y) {
                return x + y;
            };

            let result = add(five, ten);

            !-/*5;
            5 < 10 > 5;

            if (5 < 10) {
                return true;
            } else {
                return false;
            }

            10 == 10;
            10 != 9;
        ";

    let tests = Vec::from([
        (Kind::Let, "let"),
        (Kind::Ident, "five"),
        (Kind::Assign, "="),
        (Kind::Number, "5"),
        (Kind::Semicolon, ";"),
        (Kind::Let, "let"),
        (Kind::Ident, "ten"),
        (Kind::Assign, "="),
        (Kind::Number, "10"),
        (Kind::Semicolon, ";"),
        (Kind::Let, "let"),
        (Kind::Ident, "add"),
        (Kind::Assign, "="),
        (Kind::Function, "function"),
        (Kind::Lparen, "("),
        (Kind::Ident, "x"),
        (Kind::Comma, ","),
        (Kind::Ident, "y"),
        (Kind::Rparen, ")"),
        (Kind::Lbrace, "{"),
        (Kind::Return, "return"),
        (Kind::Ident, "x"),
        (Kind::Plus, "+"),
        (Kind::Ident, "y"),
        (Kind::Semicolon, ";"),
        (Kind::Rbrace, "}"),
        (Kind::Semicolon, ";"),
        (Kind::Let, "let"),
        (Kind::Ident, "result"),
        (Kind::Assign, "="),
        (Kind::Ident, "add"),
        (Kind::Lparen, "("),
        (Kind::Ident, "five"),
        (Kind::Comma, ","),
        (Kind::Ident, "ten"),
        (Kind::Rparen, ")"),
        (Kind::Semicolon, ";"),
        (Kind::Bang, "!"),
        (Kind::Minus, "-"),
        (Kind::Slash, "/"),
        (Kind::Asterisk, "*"),
        (Kind::Number, "5"),
        (Kind::Semicolon, ";"),
        (Kind::Number, "5"),
        (Kind::Lt, "<"),
        (Kind::Number, "10"),
        (Kind::Gt, ">"),
        (Kind::Number, "5"),
        (Kind::Semicolon, ";"),
        (Kind::If, "if"),
        (Kind::Lparen, "("),
        (Kind::Number, "5"),
        (Kind::Lt, "<"),
        (Kind::Number, "10"),
        (Kind::Rparen, ")"),
        (Kind::Lbrace, "{"),
        (Kind::Return, "return"),
        (Kind::True, "true"),
        (Kind::Semicolon, ";"),
        (Kind::Rbrace, "}"),
        (Kind::Else, "else"),
        (Kind::Lbrace, "{"),
        (Kind::Return, "return"),
        (Kind::False, "false"),
        (Kind::Semicolon, ";"),
        (Kind::Rbrace, "}"),
        (Kind::Number, "10"),
        (Kind::Eq, "=="),
        (Kind::Number, "10"),
        (Kind::Semicolon, ";"),
        (Kind::Number, "10"),
        (Kind::Neq, "!="),
        (Kind::Number, "9"),
        (Kind::Semicolon, ";"),
        (Kind::Eof, ""),
    ]);

    let mut lexer = Lexer::new(input);

    for (id, test) in tests.iter().enumerate() {
        let token = lexer.next_token();

        assert_eq!(
            test.0, token.kind,
            "Expected Kind: {:?}. Got: {:?}. id: {}",
            test.0, token.kind, id
        );

        assert_eq!(
            test.1, token.literal,
            "Expected Literal: {:?}. Got: {:?}. id: {}",
            test.1, token.literal, id
        );
    }
}

/// All the tokens of `input` up to the end of the input, as kind and literal.
fn scan(input: &str) -> Vec<(Kind, String)> {
    let mut lexer = Lexer::new(input);
    let mut tokens = Vec::new();
    loop {
        let token = lexer.next_token();
        if token.kind == Kind::Eof {
            assert_eq!(token.literal, "");
            return tokens;
        }
        tokens.push((token.kind, token.literal));
    }
}

fn pairs(expected: &[(Kind, &str)]) -> Vec<(Kind, String)> {
    expected.iter().map(|(kind, literal)| (*kind, literal.to_string())).collect()
}

#[test]
fn empty_input_is_end_of_input() {
    let mut lexer = Lexer::new("");
    let token = lexer.next_token();
    assert_eq!(token.kind, Kind::Eof);
    assert_eq!(token.literal, "");
}

#[test]
fn end_of_input_is_stable() {
    let mut lexer = Lexer::new("x  \n\t ");
    assert_eq!(lexer.next_token().kind, Kind::Ident);
    for _ in 0..100 {
        let token = lexer.next_token();
        assert_eq!(token.kind, Kind::Eof);
        assert_eq!(token.literal, "");
    }
}

#[test]
fn whitespace_only_is_end_of_input() {
    assert_eq!(scan(" \t\r\n  "), Vec::new());
}

#[test]
fn single_character_tokens() {
    assert_eq!(
        scan(";(),+{}-!*/<>="),
        pairs(&[
            (Kind::Semicolon, ";"),
            (Kind::Lparen, "("),
            (Kind::Rparen, ")"),
            (Kind::Comma, ","),
            (Kind::Plus, "+"),
            (Kind::Lbrace, "{"),
            (Kind::Rbrace, "}"),
            (Kind::Minus, "-"),
            (Kind::Bang, "!"),
            (Kind::Asterisk, "*"),
            (Kind::Slash, "/"),
            (Kind::Lt, "<"),
            (Kind::Gt, ">"),
            (Kind::Assign, "="),
        ])
    );
}

#[test]
fn two_character_operators_take_both_characters() {
    assert_eq!(scan("=="), pairs(&[(Kind::Eq, "==")]));
    assert_eq!(scan("!="), pairs(&[(Kind::Neq, "!=")]));
    assert_eq!(scan("==="), pairs(&[(Kind::Eq, "=="), (Kind::Assign, "=")]));
    assert_eq!(scan("!=="), pairs(&[(Kind::Neq, "!="), (Kind::Assign, "=")]));
    assert_eq!(scan("= ="), pairs(&[(Kind::Assign, "="), (Kind::Assign, "=")]));
    assert_eq!(scan("!!="), pairs(&[(Kind::Bang, "!"), (Kind::Neq, "!=")]));
    assert_eq!(scan("!"), pairs(&[(Kind::Bang, "!")]));
    assert_eq!(scan("="), pairs(&[(Kind::Assign, "=")]));
}

#[test]
fn identifiers_are_maximal_runs_of_letters() {
    assert_eq!(scan("foo_bar"), pairs(&[(Kind::Ident, "foo_bar")]));
    assert_eq!(scan("_"), pairs(&[(Kind::Ident, "_")]));
    assert_eq!(
        scan("abc123def"),
        pairs(&[(Kind::Ident, "abc"), (Kind::Number, "123"), (Kind::Ident, "def")])
    );
    assert_eq!(scan("Zz"), pairs(&[(Kind::Ident, "Zz")]));
}

#[test]
fn keywords_match_exactly() {
    assert_eq!(scan("let"), pairs(&[(Kind::Let, "let")]));
    assert_eq!(scan("lets"), pairs(&[(Kind::Ident, "lets")]));
    assert_eq!(scan("le"), pairs(&[(Kind::Ident, "le")]));
    assert_eq!(scan("Let"), pairs(&[(Kind::Ident, "Let")]));
    assert_eq!(scan("function"), pairs(&[(Kind::Function, "function")]));
    assert_eq!(scan("return"), pairs(&[(Kind::Return, "return")]));
    assert_eq!(scan("true"), pairs(&[(Kind::True, "true")]));
    assert_eq!(scan("false"), pairs(&[(Kind::False, "false")]));
    assert_eq!(scan("if"), pairs(&[(Kind::If, "if")]));
    assert_eq!(scan("else"), pairs(&[(Kind::Else, "else")]));
    assert_eq!(scan("if_"), pairs(&[(Kind::Ident, "if_")]));
}

#[test]
fn numbers_are_maximal_runs_of_digits() {
    assert_eq!(scan("0123456789"), pairs(&[(Kind::Number, "0123456789")]));
    assert_eq!(
        scan("1_000"),
        pairs(&[(Kind::Number, "1"), (Kind::Ident, "_"), (Kind::Number, "000")])
    );
    assert_eq!(
        scan("1.5"),
        pairs(&[(Kind::Number, "1"), (Kind::Illegal, "."), (Kind::Number, "5")])
    );
    assert_eq!(scan("-7"), pairs(&[(Kind::Minus, "-"), (Kind::Number, "7")]));
}

#[test]
fn unrecognized_characters_are_illegal_tokens() {
    assert_eq!(
        scan("a @ b"),
        pairs(&[(Kind::Ident, "a"), (Kind::Illegal, "@"), (Kind::Ident, "b")])
    );
    assert_eq!(scan("#"), pairs(&[(Kind::Illegal, "#")]));
    assert_eq!(
        scan("é1"),
        pairs(&[(Kind::Illegal, "é"), (Kind::Number, "1")])
    );
    assert_eq!(
        scan("x\u{0}y"),
        pairs(&[(Kind::Ident, "x"), (Kind::Illegal, "\u{0}"), (Kind::Ident, "y")])
    );
    assert_eq!(
        scan("a\u{c}b"),
        pairs(&[(Kind::Ident, "a"), (Kind::Illegal, "\u{c}"), (Kind::Ident, "b")])
    );
}

#[test]
fn literals_cover_the_text_without_whitespace() {
    let inputs = [
        "let five = 5;\n\tlet ten = 10;\r\n",
        "!-/*5; 5 < 10 > 5; 10 == 10; 10 != 9;",
        "if (5 < 10) { return true; } else { return false; }",
        "a @ é # 1.5 ===!==",
        "",
        "   ",
    ];
    for input in inputs {
        let joined: String = scan(input).into_iter().map(|(_, literal)| literal).collect();
        let stripped: String =
            input.chars().filter(|c| !matches!(c, ' ' | '\t' | '\n' | '\r')).collect();
        assert_eq!(joined, stripped);
    }
}
