//! The parser: reads the tokens of a scanner one at a time, with one token of
//! look-ahead, and builds the syntax tree by precedence climbing. Errors are
//! collected as diagnostics; none of them stops the parse.

use crate::ast::{
    optional_statement_view, optional_view, Expression, ExpressionStatement, Identifier, InfixExpression, IntegerLiteral,
    LetStatement, PrefixExpression, Program, ReturnStatement, Statement,
};
use crate::grammar;
use crate::grammar::{
    expected_message, has_infix_rule, has_prefix_rule, lemma_infix_extends,
    lemma_statement_extends, lemma_steps_extend, no_prefix_message, not_integer_message,
    skip_to_terminator, ParserState, Precedence,
};
use crate::lexer::Lexer;
use crate::number::parse_i64;
use crate::token::{Kind, Token};
use vstd::prelude::*;
use vstd::string::*;

verus! {

/// A parse in progress: the scanner, the current token, one token of
/// look-ahead, and the diagnostics given so far.
pub struct Parser {
    lexer: Lexer,
    curr_token: Token,
    peek_token: Token,
    errors: Vec<String>,
}

/// The texts of `messages`, in order.
pub open spec fn message_views(messages: Seq<String>) -> Seq<Seq<char>> {
    Seq::new(messages.len(), |i: int| messages[i]@)
}

impl View for Parser {
    type V = ParserState;

    /// The tokens from the current one on, and the diagnostics given so far.
    closed spec fn view(&self) -> ParserState {
        ParserState {
            tokens: if self.curr_token.kind == Kind::Eof {
                Seq::empty()
            } else if self.peek_token.kind == Kind::Eof {
                seq![self.curr_token@]
            } else {
                seq![self.curr_token@, self.peek_token@] + self.lexer.remaining_tokens()
            },
            errors: message_views(self.errors@),
        }
    }
}

impl Parser {
    /// Whether the look-ahead is sound: once the end of the input has been
    /// read, nothing but the end of the input follows it.
    pub closed spec fn well_formed(&self) -> bool {
        &&& self.curr_token.kind == Kind::Eof ==> self.curr_token.literal@.len() == 0
            && self.peek_token.kind == Kind::Eof
        &&& self.peek_token.kind == Kind::Eof ==> self.peek_token.literal@.len() == 0
            && self.lexer.remaining_tokens().len() == 0
    }

    /// The two tokens held are the current and the upcoming token of the state.
    proof fn lemma_lookahead(&self)
        requires
            self.well_formed(),
        ensures
            self.curr_token@ == self@.current(),
            self.peek_token@ == self@.upcoming(),
    {
        if self.curr_token.kind == Kind::Eof {
            assert(self.curr_token.literal@ =~= Seq::<char>::empty());
        }
        if self.peek_token.kind == Kind::Eof {
            assert(self.peek_token.literal@ =~= Seq::<char>::empty());
        }
    }

    /// A parser at the first token of what `lexer` has still to read, with no
    /// diagnostics.
    pub fn new(lexer: Lexer) -> (parser: Self)
        ensures
            parser.well_formed(),
            parser@ == (ParserState { tokens: lexer.remaining_tokens(), errors: Seq::empty() }),
    {
        let mut scanner = lexer;
        // read 2 next tokens to set both curr_token and peek_token
        let curr_token = scanner.next_token();
        let peek_token = scanner.next_token();
        let parser = Parser { lexer: scanner, curr_token, peek_token, errors: Vec::new() };
        assert(parser@.tokens =~= lexer.remaining_tokens());
        assert(parser@.errors =~= Seq::empty());
        parser
    }

    /// Parses the whole input: one statement after the other until the end of
    /// the input. A statement that cannot be read is left out of the program
    /// and its diagnostic is added to the list.
    pub fn parse_program(&mut self) -> (program: Program)
        requires
            old(self).well_formed(),
        ensures
            final(self).well_formed(),
            program@.statements == grammar::parse_program(old(self)@).0,
            final(self)@ == grammar::parse_program(old(self)@).1,
    {
        let mut program = Program { statements: Vec::new() };
        assert(program@.statements =~= Seq::empty());
        while !self.is_curr_token(Kind::Eof)
            invariant
                self.well_formed(),
                program@.statements + grammar::parse_program(self@).0 == grammar::parse_program(
                    old(self)@,
                ).0,
                grammar::parse_program(self@).1 == grammar::parse_program(old(self)@).1,
            decreases self@.tokens.len(),
        {
            let ghost before = self@;
            let ghost read = program@.statements;
            let stmt = self.parse_statement();
            proof {
                lemma_statement_extends(before);
                lemma_steps_extend(self@, Seq::empty());
            }
            if let Some(stmt_val) = stmt {
                program.statements.push(stmt_val);
                assert(program@.statements =~= read + seq![stmt_val@]);
            }
            self.next_token();
            proof {
                let (rest, _) = grammar::parse_program(self@);
                assert(program@.statements + rest =~= read + grammar::parse_program(before).0);
            }
        }
        assert(program@.statements + Seq::empty() =~= program@.statements);
        program
    }

    /// Moves on by one token: the upcoming token becomes the current one,
    /// and the scanner yields the new upcoming token.
    fn next_token(&mut self)
        requires
            old(self).well_formed(),
        ensures
            final(self).well_formed(),
            final(self)@ == old(self)@.advance(),
    {
        let ghost before = self@;
        let next = self.lexer.next_token();
        self.curr_token = self.peek_token.clone();
        self.peek_token = next;
        assert(self@.tokens =~= before.advance().tokens);
    }

    /// Parses one statement, chosen by the kind of the current token.
    fn parse_statement(&mut self) -> (statement: Option<Statement>)
        requires
            old(self).well_formed(),
        ensures
            final(self).well_formed(),
            optional_statement_view(statement) == grammar::parse_statement(old(self)@).0,
            final(self)@ == grammar::parse_statement(old(self)@).1,
    {
        proof {
            self.lemma_lookahead();
        }
        match self.curr_token.kind {
            Kind::Let => self.parse_let_statement(),
            Kind::Return => self.parse_return_statement(),
            _ => self.parse_expression_statement(),
        }
    }

    /// Parses an expression whose operators bind tighter than `precedence`.
    fn parse_expression(&mut self, precedence: Precedence) -> (expression: Option<Expression>)
        requires
            old(self).well_formed(),
        ensures
            final(self).well_formed(),
            optional_view(expression) == grammar::parse_expression(old(self)@, precedence).0,
            final(self)@ == grammar::parse_expression(old(self)@, precedence).1,
        decreases old(self)@.tokens.len(), 3nat,
    {
        proof {
            self.lemma_lookahead();
            grammar::lemma_prefix_extends(self@);
        }
        let kind = self.curr_token.kind;
        let left_expr = self.get_parsed_prefix_expression(kind);

        let mut left_expr = match left_expr {
            Some(left_expr) => left_expr,
            None => {
                if !Self::has_prefix_function(kind) {
                    let message = Self::no_prefix_text(kind);
                    self.report(message);
                }
                return None;
            },
        };
        let ghost after_prefix = self@;
        let ghost first = left_expr@;

        while !self.is_peek_token(Kind::Semicolon) && precedence.binds_less_than(
            &self.peek_precedence(),
        )
            invariant
                self.well_formed(),
                self@.tokens.len() <= old(self)@.tokens.len(),
                grammar::fold_infix(self@, precedence, left_expr@) == grammar::fold_infix(
                    after_prefix,
                    precedence,
                    first,
                ),
            decreases self@.tokens.len(),
        {
            proof {
                self.lemma_lookahead();
                if has_infix_rule(self@.upcoming().kind) {
                    lemma_infix_extends(self@, left_expr@);
                }
            }
            let kind = self.peek_token.kind;
            match self.get_parsed_infix_expression(kind, left_expr) {
                Ok(infix) => {
                    left_expr = infix;
                },
                Err(left_expr) => {
                    return Some(left_expr);
                },
            }
        }

        Some(left_expr)
    }

    /// Whether an expression can start with a token of this kind.
    fn has_prefix_function(kind: Kind) -> (known: bool)
        ensures
            known == has_prefix_rule(kind),
    {
        match kind {
            Kind::Ident | Kind::Number | Kind::Bang | Kind::Minus => true,
            _ => false,
        }
    }

    /// The prefix part of an expression that starts with a token of `kind`,
    /// the kind of the current token. Nothing is read where no expression
    /// starts with such a token.
    fn get_parsed_prefix_expression(&mut self, kind: Kind) -> (expression: Option<Expression>)
        requires
            old(self).well_formed(),
            kind == old(self)@.current().kind,
        ensures
            final(self).well_formed(),
            has_prefix_rule(kind) ==> optional_view(expression) == grammar::parse_prefix(
                old(self)@,
            ).0 && final(self)@ == grammar::parse_prefix(old(self)@).1,
            !has_prefix_rule(kind) ==> expression is None && final(self)@ == old(self)@,
        decreases old(self)@.tokens.len(), 2nat,
    {
        proof {
            self.lemma_lookahead();
        }
        match kind {
            Kind::Ident => Some(
                Expression::Identifier(
                    Identifier {
                        token: self.curr_token.clone(),
                        value: self.curr_token.literal.clone(),
                    },
                ),
            ),
            Kind::Number => self.parse_integer_literal(),
            Kind::Bang | Kind::Minus => self.parse_prefix_expression(),
            _ => None,
        }
    }

    /// The infix expression of `left` and the operator of `kind`, the kind of
    /// the upcoming token, with its right side. Where `kind` is no operator
    /// nothing is read and `left` comes back.
    fn get_parsed_infix_expression(&mut self, kind: Kind, left: Expression) -> (expression: Result<
        Expression,
        Expression,
    >)
        requires
            old(self).well_formed(),
            kind == old(self)@.upcoming().kind,
        ensures
            final(self).well_formed(),
            match expression {
                Ok(infix) => has_infix_rule(kind) && infix@ == grammar::parse_infix(
                    old(self)@,
                    left@,
                ).0 && final(self)@ == grammar::parse_infix(old(self)@, left@).1,
                Err(same) => !has_infix_rule(kind) && same@ == left@ && final(self)@ == old(self)@,
            },
        decreases old(self)@.tokens.len(), 1nat,
    {
        match kind {
            Kind::Plus
            | Kind::Minus
            | Kind::Slash
            | Kind::Asterisk
            | Kind::Eq
            | Kind::Neq
            | Kind::Lt
            | Kind::Gt => Ok(self.parse_infix_expression(left)),
            _ => Err(left),
        }
    }

    /// Parses let statements: "let foo = 5;"
    fn parse_let_statement(&mut self) -> (statement: Option<Statement>)
        requires
            old(self).well_formed(),
        ensures
            final(self).well_formed(),
            optional_statement_view(statement) == grammar::parse_let_statement(old(self)@).0,
            final(self)@ == grammar::parse_let_statement(old(self)@).1,
    {
        proof {
            self.lemma_lookahead();
        }
        let kind = self.curr_token.clone();

        if !self.expect_peek(Kind::Ident) {
            self.skip_statement();
            return None;
        }
        proof {
            self.lemma_lookahead();
        }
        let identifier = Identifier {
            token: self.curr_token.clone(),
            value: self.curr_token.literal.clone(),
        };

        if !self.expect_peek(Kind::Assign) {
            self.skip_statement();
            return None;
        }
        self.next_token();
        let value = self.parse_expression(Precedence::Lowest);
        self.skip_statement();

        let let_stmt = LetStatement { token: kind, name: identifier, value };
        Some(Statement::LetStatement(let_stmt))
    }

    /// Parses return statements: "return foo;"
    fn parse_return_statement(&mut self) -> (statement: Option<Statement>)
        requires
            old(self).well_formed(),
        ensures
            final(self).well_formed(),
            statement is Some,
            statement->0@ == grammar::parse_return_statement(old(self)@).0,
            final(self)@ == grammar::parse_return_statement(old(self)@).1,
    {
        proof {
            self.lemma_lookahead();
        }
        let token = self.curr_token.clone();

        self.next_token();

        let return_value = if self.is_curr_token(Kind::Semicolon) || self.is_curr_token(Kind::Eof) {
            None
        } else {
            let value = self.parse_expression(Precedence::Lowest);
            self.skip_statement();
            value
        };

        let return_stmt = ReturnStatement { token, return_value };
        Some(Statement::ReturnStatement(return_stmt))
    }

    /// Parses an expression that stands as a statement, with the semicolon
    /// after it, if there is one.
    fn parse_expression_statement(&mut self) -> (statement: Option<Statement>)
        requires
            old(self).well_formed(),
        ensures
            final(self).well_formed(),
            statement is Some,
            statement->0@ == grammar::parse_expression_statement(old(self)@).0,
            final(self)@ == grammar::parse_expression_statement(old(self)@).1,
    {
        proof {
            self.lemma_lookahead();
        }
        let token = self.curr_token.clone();
        let expression = self.parse_expression(Precedence::Lowest);

        let stmt = ExpressionStatement { token, expression };

        if self.is_peek_token(Kind::Semicolon) {
            self.next_token()
        }
        Some(Statement::ExpressionStatement(stmt))
    }

    /// Moves on to the token that ends the statement: the next semicolon, or
    /// the end of the input.
    fn skip_statement(&mut self)
        requires
            old(self).well_formed(),
        ensures
            final(self).well_formed(),
            final(self)@ == skip_to_terminator(old(self)@),
    {
        while !self.is_curr_token(Kind::Semicolon) && !self.is_curr_token(Kind::Eof)
            invariant
                self.well_formed(),
                skip_to_terminator(self@) == skip_to_terminator(old(self)@),
            decreases self@.tokens.len(),
        {
            proof {
                lemma_steps_extend(self@, Seq::empty());
            }
            self.next_token();
        }
    }

    // Parses integer literals: 1, 5, 100, etc.
    fn parse_integer_literal(&mut self) -> (expression: Option<Expression>)
        requires
            old(self).well_formed(),
        ensures
            final(self).well_formed(),
            optional_view(expression) == grammar::parse_integer_literal(old(self)@).0,
            final(self)@ == grammar::parse_integer_literal(old(self)@).1,
    {
        proof {
            self.lemma_lookahead();
        }
        let token = self.curr_token.clone();
        match parse_i64(self.curr_token.literal.as_str()) {
            Some(value) => Some(Expression::IntegerLiteral(IntegerLiteral { token, value })),
            None => {
                let message = Self::not_integer_text(self.curr_token.literal.as_str());
                self.report(message);
                None
            },
        }
    }

    // Parsed prefix expressions: -100, !foo, etc.
    fn parse_prefix_expression(&mut self) -> (expression: Option<Expression>)
        requires
            old(self).well_formed(),
            old(self)@.current().kind == Kind::Bang || old(self)@.current().kind == Kind::Minus,
        ensures
            final(self).well_formed(),
            optional_view(expression) == grammar::parse_prefix(old(self)@).0,
            final(self)@ == grammar::parse_prefix(old(self)@).1,
        decreases old(self)@.tokens.len(), 1nat,
    {
        proof {
            self.lemma_lookahead();
            lemma_steps_extend(self@, Seq::empty());
        }
        let token = self.curr_token.clone();
        let operator = self.curr_token.literal.clone();

        // Move to "right" side
        self.next_token();

        let right = match self.parse_expression(Precedence::Prefix) {
            Some(val) => Some(Box::new(val)),
            None => None,
        };
        Some(Expression::PrefixExpression(PrefixExpression { token, operator, right }))
    }

    /// Parses the operator that is the upcoming token, and its right side,
    /// into an infix expression with `left` as its left side.
    fn parse_infix_expression(&mut self, left: Expression) -> (expression: Expression)
        requires
            old(self).well_formed(),
            has_infix_rule(old(self)@.upcoming().kind),
        ensures
            final(self).well_formed(),
            expression@ == grammar::parse_infix(old(self)@, left@).0,
            final(self)@ == grammar::parse_infix(old(self)@, left@).1,
        decreases old(self)@.tokens.len(), 0nat,
    {
        proof {
            lemma_steps_extend(self@, Seq::empty());
            lemma_steps_extend(self@.advance(), Seq::empty());
        }
        self.next_token();
        proof {
            self.lemma_lookahead();
        }
        let token = self.curr_token.clone();
        let operator = self.curr_token.literal.clone();

        let precedence = self.curr_precedence();
        self.next_token();

        let right = match self.parse_expression(precedence) {
            Some(right_val) => Some(Box::new(right_val)),
            None => None,
        };
        Expression::InfixExpression(
            InfixExpression { token, left: Some(Box::new(left)), operator, right },
        )
    }

    /// Moves on by one token if the upcoming token is of the `expected` kind;
    /// gives a diagnostic, and stays, if it is not.
    fn expect_peek(&mut self, expected: Kind) -> (found: bool)
        requires
            old(self).well_formed(),
        ensures
            final(self).well_formed(),
            found == (old(self)@.upcoming().kind == expected),
            found ==> final(self)@ == old(self)@.advance(),
            !found ==> final(self)@ == old(self)@.report(
                expected_message(expected, old(self)@.upcoming().kind),
            ),
    {
        if self.is_peek_token(expected) {
            self.next_token();
            true
        } else {
            self.peek_error(expected);
            false
        }
    }

    fn is_curr_token(&self, expected: Kind) -> (same: bool)
        requires
            self.well_formed(),
        ensures
            same == (self@.current().kind == expected),
    {
        proof {
            self.lemma_lookahead();
        }
        self.curr_token.kind == expected
    }

    fn is_peek_token(&self, expected: Kind) -> (same: bool)
        requires
            self.well_formed(),
        ensures
            same == (self@.upcoming().kind == expected),
    {
        proof {
            self.lemma_lookahead();
        }
        self.peek_token.kind == expected
    }

    /// Gives the diagnostic that a token of kind `token` had to come next.
    fn peek_error(&mut self, token: Kind)
        requires
            old(self).well_formed(),
        ensures
            final(self).well_formed(),
            final(self)@ == old(self)@.report(expected_message(token, old(self)@.upcoming().kind)),
    {
        proof {
            self.lemma_lookahead();
        }
        let mut msg = String::from_str("expected next token: ");
        msg.append(token.name());
        msg.append(". Got token: ");
        msg.append(self.peek_token.kind.name());
        self.report(msg);
    }

    /// Adds `message` to the diagnostics.
    fn report(&mut self, message: String)
        requires
            old(self).well_formed(),
        ensures
            final(self).well_formed(),
            final(self)@ == old(self)@.report(message@),
    {
        self.errors.push(message);
        assert(self@.errors =~= old(self)@.errors.push(message@));
    }

    /// The diagnostic for a token that no expression can start with.
    fn no_prefix_text(kind: Kind) -> (message: String)
        ensures
            message@ == no_prefix_message(kind),
    {
        let mut message = String::from_str("no prefix parse function for ");
        message.append(kind.name());
        message.append(" found");
        message
    }

    /// The diagnostic for a number that is no 64-bit integer.
    fn not_integer_text(literal: &str) -> (message: String)
        ensures
            message@ == not_integer_message(literal@),
    {
        let mut message = String::from_str("could not parse ");
        message.append(literal);
        message.append(" as integer");
        message
    }

    /// The diagnostics given so far, in the order in which they were given.
    pub fn errors(&self) -> (errors: Vec<String>)
        ensures
            message_views(errors@) == self@.errors,
    {
        let mut errors: Vec<String> = Vec::new();
        let n: usize = self.errors.len();
        let mut i: usize = 0;
        while i < n
            invariant
                i <= n,
                n == self.errors.len(),
                errors@.len() == i,
                forall|j: int| 0 <= j < i ==> (#[trigger] errors@[j])@ == self.errors@[j]@,
            decreases n - i,
        {
            errors.push(self.errors[i].clone());
            i = i + 1;
        }
        assert(message_views(errors@) =~= message_views(self.errors@));
        errors
    }

    fn peek_precedence(&self) -> (precedence: Precedence)
        requires
            self.well_formed(),
        ensures
            precedence == Precedence::of(self@.upcoming().kind),
    {
        proof {
            self.lemma_lookahead();
        }
        Precedence::get_precedence_for_token(self.peek_token.kind)
    }

    fn curr_precedence(&self) -> (precedence: Precedence)
        requires
            self.well_formed(),
        ensures
            precedence == Precedence::of(self@.current().kind),
    {
        proof {
            self.lemma_lookahead();
        }
        Precedence::get_precedence_for_token(self.curr_token.kind)
    }
}

} // verus!
