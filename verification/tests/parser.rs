use monkey::ast::{Expression, Node, Program, Statement};
use monkey::lexer::Lexer;
use monkey::parser::Parser;

#[test]
fn test_let_statements() {
    let input = "
        let x = 5;
        let y = 10;
        let foo = 999;
        ";

    let lexer = Lexer::new(input);
    let mut parser = Parser::new(lexer);
    let program = parser.parse_program();

    assert_eq!(parser.errors().len(), 0, "errors should be zero");

    let tests = Vec::from(["x".to_string(), "y".to_string(), "foo".to_string()]);

    for (idx, expected_name) in tests.iter().enumerate() {
        let stmt = program.statements.get(idx).unwrap();

        assert_eq!(stmt.token_literal(), "let");

        let stmt = match stmt {
            Statement::LetStatement(v) => v,
            _ => unreachable!(),
        };

        assert_eq!(&stmt.name.value, expected_name);
        assert_eq!(&stmt.name.token_literal(), expected_name);
    }
}

#[test]
fn test_return_statement() {
    let input = "
            return 5;
        ";

    let lexer = Lexer::new(input);
    let mut parser = Parser::new(lexer);
    let program = parser.parse_program();

    assert_eq!(parser.errors().len(), 0, "errors should be zero");

    for stmt in program.statements {
        match stmt {
            Statement::ReturnStatement(_) => assert_eq!(stmt.token_literal(), "return"),
            Statement::ExpressionStatement(_) => assert_eq!(stmt.token_literal(), "5"),
            _ => unreachable!(),
        }
    }
}

#[test]
fn test_identifier_expression() {
    let input = "foobar;";

    let lexer = Lexer::new(input);
    let mut parser = Parser::new(lexer);
    let program = parser.parse_program();

    assert_eq!(parser.errors().len(), 0, "errors should be zero");

    assert_eq!(
        program.statements.len(),
        1,
        "program has not enough statements"
    );

    let stmt = program.statements.first().unwrap();

    let stmt = match stmt {
        Statement::ExpressionStatement(v) => v,
        _ => panic!("statement not ExpressionStatement"),
    };

    let expr = stmt.expression.as_ref().expect("expression not Some");

    let ident = match expr {
        Expression::Identifier(v) => v,
        _ => panic!("expression not Identifier"),
    };

    assert_eq!(ident.value, "foobar");
    assert_eq!(ident.token_literal(), "foobar");
}

#[test]
fn test_integer_literal_expression() {
    let input = "5;";

    let lexer = Lexer::new(input);
    let mut parser = Parser::new(lexer);
    let program = parser.parse_program();

    assert_eq!(parser.errors().len(), 0, "errors should be zero");

    assert_eq!(
        program.statements.len(),
        1,
        "program has not enough statements"
    );

    let stmt = program.statements.first().unwrap();

    let stmt = match stmt {
        Statement::ExpressionStatement(v) => v,
        _ => panic!("statement not ExpressionStatement"),
    };

    let expr = stmt.expression.as_ref().expect("expression not Some");

    let literal = match expr {
        Expression::IntegerLiteral(v) => v,
        _ => panic!("expression not IntegerLiteral"),
    };

    assert_eq!(literal.value, 5);
    assert_eq!(literal.token_literal(), "5");
}

#[test]
fn test_prefix_expression() {
    let tests = vec![("!5", "!", 5), ("-10", "-", 10)];

    for (input, expected_prefix, expected_right) in tests {
        let lexer = Lexer::new(input);
        let mut parser = Parser::new(lexer);
        let program = parser.parse_program();

        for error in parser.errors() {
            println!("ERROR: {}", error);
        }

        assert_eq!(parser.errors().len(), 0, "errors should be zero");

        assert_eq!(
            program.statements.len(),
            1,
            "program has not enough statements"
        );

        let stmt = program.statements.first().unwrap();

        let stmt = match stmt {
            Statement::ExpressionStatement(v) => v,
            _ => panic!("statement not ExpressionStatement"),
        };

        let expr = stmt.expression.as_ref().expect("expression not Some");

        let prefix_expr = match expr {
            Expression::PrefixExpression(v) => v,
            _ => panic!("expression not PrefixExpression"),
        };

        assert_eq!(prefix_expr.operator, expected_prefix);

        // test integer literal
        if let Some(right_expr) = prefix_expr.right.as_deref() {
            let int_literal = match right_expr {
                Expression::IntegerLiteral(t) => t,
                _ => panic!("not integer literal"),
            };

            assert_eq!(int_literal.value, expected_right);
        }
    }
}

#[test]
fn test_infix_expression() {
    let tests = vec![
        ("5 + 5;", 5, "+", 5),
        ("5 - 10;", 5, "-", 10),
        ("5 * 5;", 5, "*", 5),
        ("5 / 5;", 5, "/", 5),
        ("5 > 5;", 5, ">", 5),
        ("5 < 5;", 5, "<", 5),
        ("5 == 5;", 5, "==", 5),
        ("5 != 5;", 5, "!=", 5),
    ];

    for (input, expected_left, expected_op, expected_right) in tests {
        let lexer = Lexer::new(input);
        let mut parser = Parser::new(lexer);
        let program = parser.parse_program();

        for error in parser.errors() {
            println!("ERROR: {}", error);
        }

        assert_eq!(parser.errors().len(), 0, "errors should be zero");

        assert_eq!(
            program.statements.len(),
            1,
            "program has not enough statements"
        );

        let stmt = program.statements.first().unwrap();

        let stmt = match stmt {
            Statement::ExpressionStatement(v) => v,
            _ => panic!("statement not ExpressionStatement"),
        };

        let expr = stmt.expression.as_ref().expect("expression not Some");

        let infix_expr = match expr {
            Expression::InfixExpression(v) => v,
            _ => panic!("expression not InfixExpression"),
        };

        // test integer literal
        if let Some(left_expr) = infix_expr.left.as_deref() {
            let int_literal = match left_expr {
                Expression::IntegerLiteral(t) => t,
                _ => panic!("not integer literal"),
            };

            assert_eq!(int_literal.value, expected_left);
        }

        assert_eq!(infix_expr.operator, expected_op);

        // test integer literal
        if let Some(right_expr) = infix_expr.right.as_deref() {
            let int_literal = match right_expr {
                Expression::IntegerLiteral(t) => t,
                _ => panic!("not integer literal"),
            };

            assert_eq!(int_literal.value, expected_right);
        }
    }
}

#[test]
fn test_operator_precedence() {
    let tests = vec![
        ("-a * b", "((-a) * b)"),
        ("!-a", "(!(-a))"),
        ("a + b + c", "((a + b) + c)"),
        ("a + b - c", "((a + b) - c)"),
        ("a * b * c", "((a * b) * c)"),
        ("a * b / c", "((a * b) / c)"),
        ("a + b / c", "(a + (b / c))"),
        ("a + b * c + d / e - f", "(((a + (b * c)) + (d / e)) - f)"),
        ("3 + 4; -5 * 5", "(3 + 4)((-5) * 5)"),
        ("5 > 4 == 3 < 4", "((5 > 4) == (3 < 4))"),
        ("5 < 4 != 3 > 4", "((5 < 4) != (3 > 4))"),
        (
            "3 + 4 * 5 == 3 * 1 + 4 * 5",
            "((3 + (4 * 5)) == ((3 * 1) + (4 * 5)))",
        ),
    ];

    for (input, expected) in tests {
        let lexer = Lexer::new(input);
        let mut parser = Parser::new(lexer);
        let program = parser.parse_program();

        for error in parser.errors() {
            println!("ERROR: {}", error);
        }

        assert_eq!(parser.errors().len(), 0, "errors should be zero");

        assert_eq!(program.to_str(), expected);
    }
}

/// The program and the diagnostics of `input`.
fn parse(input: &str) -> (Program, Vec<String>) {
    let mut parser = Parser::new(Lexer::new(input));
    let program = parser.parse_program();
    (program, parser.errors())
}

/// The rendering of the program of `input`, which must parse cleanly.
fn render(input: &str) -> String {
    let (program, errors) = parse(input);
    assert_eq!(errors, Vec::<String>::new());
    program.to_str()
}

fn no_errors() -> Vec<String> {
    Vec::new()
}

#[test]
fn let_statement_round_trips() {
    assert_eq!(render("let foo = bar;"), "let foo = bar;");
}

#[test]
fn let_statement_holds_its_value() {
    let (program, errors) = parse("let x = 1 + 2 * 3;");
    assert_eq!(errors, no_errors());
    assert_eq!(program.statements.len(), 1);
    let statement = match &program.statements[0] {
        Statement::LetStatement(v) => v,
        _ => panic!("statement not LetStatement"),
    };
    assert_eq!(statement.token_literal(), "let");
    assert_eq!(statement.name.value, "x");
    assert_eq!(statement.value.as_ref().expect("no value").to_str(), "(1 + (2 * 3))");
    assert_eq!(program.to_str(), "let x = (1 + (2 * 3));");
}

#[test]
fn precedence_law_examples() {
    assert_eq!(render("a + b * c"), "(a + (b * c))");
    assert_eq!(render("-a * b"), "((-a) * b)");
    assert_eq!(render("a + b + c"), "((a + b) + c)");
}

#[test]
fn comparison_binds_tighter_than_equality() {
    assert_eq!(render("a == b < c"), "(a == (b < c))");
    assert_eq!(render("a < b == c"), "((a < b) == c)");
    assert_eq!(render("a != b > c + d"), "(a != (b > (c + d)))");
}

#[test]
fn prefix_binds_tighter_than_any_infix() {
    assert_eq!(render("-a + b"), "((-a) + b)");
    assert_eq!(render("!a == b"), "((!a) == b)");
    assert_eq!(render("a * -b"), "(a * (-b))");
    assert_eq!(render("--a"), "(-(-a))");
}

#[test]
fn integer_literal_has_the_value_of_its_text() {
    let cases: [(&str, i64); 5] = [
        ("0;", 0),
        ("007;", 7),
        ("1234567890;", 1234567890),
        ("9223372036854775807;", i64::MAX),
        ("00000000000000000000000042;", 42),
    ];
    for (input, value) in cases {
        let (program, errors) = parse(input);
        assert_eq!(errors, no_errors());
        assert_eq!(program.statements.len(), 1);
        match &program.statements[0] {
            Statement::ExpressionStatement(s) => match s.expression.as_ref() {
                Some(Expression::IntegerLiteral(literal)) => assert_eq!(literal.value, value),
                _ => panic!("expression not IntegerLiteral"),
            },
            _ => panic!("statement not ExpressionStatement"),
        }
    }
}

#[test]
fn integer_literal_out_of_range_gives_a_diagnostic() {
    let (program, errors) = parse("9223372036854775808;");
    assert_eq!(errors, vec!["could not parse 9223372036854775808 as integer".to_string()]);
    assert_eq!(program.statements.len(), 1);
    match &program.statements[0] {
        Statement::ExpressionStatement(s) => {
            assert!(s.expression.is_none());
            assert_eq!(s.token_literal(), "9223372036854775808");
        }
        _ => panic!("statement not ExpressionStatement"),
    }
    assert_eq!(program.to_str(), "");
}

#[test]
fn negated_literal_is_a_prefix_expression() {
    let (program, errors) = parse("-9223372036854775807");
    assert_eq!(errors, no_errors());
    assert_eq!(program.to_str(), "(-9223372036854775807)");
    let (program, errors) = parse("-9223372036854775808");
    assert_eq!(errors, vec!["could not parse 9223372036854775808 as integer".to_string()]);
    assert_eq!(program.to_str(), "(-)");
}

#[test]
fn n_let_statements_give_n_bindings_in_order() {
    let names = ["a", "b", "c", "d", "e", "f", "g"];
    for n in 0..=names.len() {
        let mut input = String::new();
        for (i, name) in names[..n].iter().enumerate() {
            input.push_str(&format!("let {} = {} + {};\n", name, i, name));
        }
        let (program, errors) = parse(&input);
        assert_eq!(errors, no_errors());
        assert_eq!(program.statements.len(), n);
        for (statement, name) in program.statements.iter().zip(names) {
            match statement {
                Statement::LetStatement(v) => {
                    assert_eq!(v.name.value, name);
                    assert_eq!(v.name.token_literal(), name);
                    assert_eq!(v.token_literal(), "let");
                }
                _ => panic!("statement not LetStatement"),
            }
        }
    }
}

#[test]
fn return_statement_is_one_statement_without_diagnostics() {
    let (program, errors) = parse("return 5;");
    assert_eq!(errors, no_errors());
    assert_eq!(program.statements.len(), 1);
    let statement = match &program.statements[0] {
        Statement::ReturnStatement(v) => v,
        _ => panic!("statement not ReturnStatement"),
    };
    assert_eq!(statement.token_literal(), "return");
    assert_eq!(statement.return_value.as_ref().expect("no value").to_str(), "5");
    assert_eq!(program.to_str(), "return 5;");
}

#[test]
fn return_without_value() {
    let (program, errors) = parse("return;");
    assert_eq!(errors, no_errors());
    assert_eq!(program.statements.len(), 1);
    match &program.statements[0] {
        Statement::ReturnStatement(v) => assert!(v.return_value.is_none()),
        _ => panic!("statement not ReturnStatement"),
    }
    assert_eq!(program.to_str(), "return ;");
    let (program, errors) = parse("return");
    assert_eq!(errors, no_errors());
    assert_eq!(program.to_str(), "return ;");
}

#[test]
fn return_with_an_expression() {
    assert_eq!(render("return a + b * 2; return x;"), "return (a + (b * 2));return x;");
}

#[test]
fn missing_assign_gives_a_diagnostic_and_parsing_goes_on() {
    let (program, errors) = parse("let x 5;");
    assert_eq!(errors, vec!["expected next token: Assign. Got token: Number".to_string()]);
    assert_eq!(program.statements.len(), 0);

    let (program, errors) = parse("let x 5; let y = 10; foo;");
    assert_eq!(errors, vec!["expected next token: Assign. Got token: Number".to_string()]);
    assert_eq!(program.statements.len(), 2);
    assert_eq!(program.to_str(), "let y = 10;foo");
}

#[test]
fn missing_identifier_gives_a_diagnostic_and_parsing_goes_on() {
    let (program, errors) = parse("let = 5; let y = 10;");
    assert_eq!(errors, vec!["expected next token: Ident. Got token: Assign".to_string()]);
    assert_eq!(program.to_str(), "let y = 10;");

    let (program, errors) = parse("let");
    assert_eq!(errors, vec!["expected next token: Ident. Got token: Eof".to_string()]);
    assert_eq!(program.statements.len(), 0);
}

#[test]
fn let_without_terminator_ends_at_end_of_input() {
    let (program, errors) = parse("let x = 5");
    assert_eq!(errors, no_errors());
    assert_eq!(program.to_str(), "let x = 5;");
    let (program, errors) = parse("let x 5");
    assert_eq!(errors, vec!["expected next token: Assign. Got token: Number".to_string()]);
    assert_eq!(program.statements.len(), 0);
}

#[test]
fn let_without_value_keeps_the_binding() {
    let (program, errors) = parse("let x = ; y");
    assert_eq!(errors, vec!["no prefix parse function for Semicolon found".to_string()]);
    assert_eq!(program.statements.len(), 2);
    match &program.statements[0] {
        Statement::LetStatement(v) => {
            assert_eq!(v.name.value, "x");
            assert!(v.value.is_none());
        }
        _ => panic!("statement not LetStatement"),
    }
    assert_eq!(program.to_str(), "let x = ;y");
}

#[test]
fn token_without_prefix_rule_gives_a_diagnostic() {
    let (program, errors) = parse(")");
    assert_eq!(errors, vec!["no prefix parse function for Rparen found".to_string()]);
    assert_eq!(program.statements.len(), 1);
    match &program.statements[0] {
        Statement::ExpressionStatement(s) => {
            assert!(s.expression.is_none());
            assert_eq!(s.token_literal(), ")");
        }
        _ => panic!("statement not ExpressionStatement"),
    }
}

#[test]
fn illegal_token_gives_a_diagnostic_and_parsing_goes_on() {
    let (program, errors) = parse("@; a + b;");
    assert_eq!(errors, vec!["no prefix parse function for Illegal found".to_string()]);
    assert_eq!(program.statements.len(), 2);
    assert_eq!(program.to_str(), "(a + b)");
}

#[test]
fn operator_without_right_side_keeps_the_left_side() {
    let (program, errors) = parse("a +;");
    assert_eq!(errors, vec!["no prefix parse function for Semicolon found".to_string()]);
    assert_eq!(program.to_str(), "(a + )");
    let (program, errors) = parse("-");
    assert_eq!(errors, vec!["no prefix parse function for Eof found".to_string()]);
    assert_eq!(program.to_str(), "(-)");
}

#[test]
fn semicolon_is_optional_at_the_end() {
    assert_eq!(render("a"), "a");
    assert_eq!(render("a;"), "a");
    assert_eq!(render("a; b"), "ab");
}

#[test]
fn statements_without_semicolon_between_them() {
    assert_eq!(render("a b"), "ab");
    assert_eq!(render("1 2 3"), "123");
}

#[test]
fn empty_input_is_an_empty_program() {
    let (program, errors) = parse("");
    assert_eq!(errors, no_errors());
    assert_eq!(program.statements.len(), 0);
    let (program, errors) = parse("  \n ");
    assert_eq!(errors, no_errors());
    assert_eq!(program.statements.len(), 0);
}

#[test]
fn diagnostics_keep_their_order() {
    let (_, errors) = parse("let 1; ); let a b; 99999999999999999999");
    assert_eq!(
        errors,
        vec![
            "expected next token: Ident. Got token: Number".to_string(),
            "no prefix parse function for Rparen found".to_string(),
            "expected next token: Assign. Got token: Ident".to_string(),
            "could not parse 99999999999999999999 as integer".to_string(),
        ]
    );
}

#[test]
fn parsing_again_at_the_end_adds_nothing() {
    let mut parser = Parser::new(Lexer::new("a + b; )"));
    let first = parser.parse_program();
    assert_eq!(first.statements.len(), 2);
    let errors = parser.errors();
    assert_eq!(errors.len(), 1);
    let second = parser.parse_program();
    assert_eq!(second.statements.len(), 0);
    assert_eq!(parser.errors(), errors);
}

#[test]
fn parser_starts_where_the_lexer_stands() {
    let mut lexer = Lexer::new("let x = 5; y");
    lexer.next_token();
    lexer.next_token();
    lexer.next_token();
    let mut parser = Parser::new(lexer);
    let program = parser.parse_program();
    assert_eq!(program.to_str(), "5y");
}

/// The literals of the tokens that an expression holds, in source order.
fn flatten(expression: &Expression, into: &mut Vec<String>) {
    match expression {
        Expression::Identifier(v) => into.push(v.token.literal.clone()),
        Expression::IntegerLiteral(v) => into.push(v.token.literal.clone()),
        Expression::PrefixExpression(v) => {
            into.push(v.token.literal.clone());
            if let Some(right) = v.right.as_deref() {
                flatten(right, into);
            }
        }
        Expression::InfixExpression(v) => {
            if let Some(left) = v.left.as_deref() {
                flatten(left, into);
            }
            into.push(v.token.literal.clone());
            if let Some(right) = v.right.as_deref() {
                flatten(right, into);
            }
        }
    }
}

/// How tightly an expression holds together: the level of its operator for an
/// infix expression, above every level otherwise.
fn binding(expression: &Expression) -> u8 {
    match expression {
        Expression::InfixExpression(v) => {
            monkey::grammar::Precedence::get_precedence_for_token(v.token.kind).level()
        }
        _ => 7,
    }
}

fn nests_by_precedence(expression: &Expression) -> bool {
    match expression {
        Expression::Identifier(_) | Expression::IntegerLiteral(_) => true,
        Expression::PrefixExpression(v) => match v.right.as_deref() {
            Some(right) => nests_by_precedence(right) && binding(right) > 5,
            None => true,
        },
        Expression::InfixExpression(v) => {
            let left = match v.left.as_deref() {
                Some(left) => nests_by_precedence(left) && binding(left) >= binding(expression),
                None => true,
            };
            let right = match v.right.as_deref() {
                Some(right) => nests_by_precedence(right) && binding(right) > binding(expression),
                None => true,
            };
            left && right
        }
    }
}

#[test]
fn clean_expression_keeps_its_tokens_and_nests_by_precedence() {
    let inputs = [
        "a",
        "1 + 2",
        "-a * b",
        "!-a",
        "a + b * c + d / e - f",
        "5 > 4 == 3 < 4",
        "3 + 4 * 5 == 3 * 1 + 4 * 5",
        "a == b != c == d",
        "a * b + c * d < e - f / g",
        "- - ! x / y",
    ];
    for input in inputs {
        let (program, errors) = parse(input);
        assert_eq!(errors, no_errors());
        assert_eq!(program.statements.len(), 1);
        let expression = match &program.statements[0] {
            Statement::ExpressionStatement(s) => s.expression.as_ref().expect("no expression"),
            _ => panic!("statement not ExpressionStatement"),
        };
        let mut held = Vec::new();
        flatten(expression, &mut held);
        let mut lexer = Lexer::new(input);
        let mut scanned = Vec::new();
        loop {
            let token = lexer.next_token();
            if token.kind == monkey::token::Kind::Eof {
                break;
            }
            scanned.push(token.literal);
        }
        assert_eq!(held, scanned);
        assert!(nests_by_precedence(expression), "input: {}", input);
    }
}

#[test]
fn expression_after_a_failed_right_side_reads_on() {
    let (program, errors) = parse("a + ; * b");
    assert_eq!(errors, vec!["no prefix parse function for Semicolon found".to_string()]);
    assert_eq!(program.to_str(), "((a + ) * b)");
}
