//! The grammar: what a stream of tokens means as a program. The parser is
//! specified as a function from its state, the tokens still to be read and
//! the diagnostics given so far, to the tree it builds and its next state.

use crate::ast::{
    ExpressionStatementView, ExpressionView, IdentifierView, InfixExpressionView,
    IntegerLiteralView, LetStatementView, PrefixExpressionView, ReturnStatementView, StatementView,
};
use crate::number::{all_digits, decimal_value, integer_value, lemma_digits_value};
use crate::token::{end_of_input, Kind, TokenView};
use vstd::prelude::*;

verus! {

/// Operator precedence, from the loosest binding to the tightest.
#[derive(Clone, Copy, PartialEq, Eq, Structural, Debug)]
pub enum Precedence {
    Lowest,
    Equals,  // ==
    LessGreater,  // < or >
    Sum,  // +
    Product,  // *
    Prefix,  // -foo or !foo
    Call,  // foo_function()
}

impl Precedence {
    /// The place of a precedence in the order: a higher rank binds tighter.
    pub open spec fn rank(self) -> nat {
        match self {
            Precedence::Lowest => 0,
            Precedence::Equals => 1,
            Precedence::LessGreater => 2,
            Precedence::Sum => 3,
            Precedence::Product => 4,
            Precedence::Prefix => 5,
            Precedence::Call => 6,
        }
    }

    /// The precedence of a token as an infix operator. A kind that is no
    /// operator has the lowest precedence.
    pub open spec fn of(kind: Kind) -> Precedence {
        match kind {
            Kind::Eq => Precedence::Equals,
            Kind::Neq => Precedence::Equals,
            Kind::Lt => Precedence::LessGreater,
            Kind::Gt => Precedence::LessGreater,
            Kind::Plus => Precedence::Sum,
            Kind::Minus => Precedence::Sum,
            Kind::Slash => Precedence::Product,
            Kind::Asterisk => Precedence::Product,
            _ => Precedence::Lowest,
        }
    }

    pub fn get_precedence_for_token(kind: Kind) -> (precedence: Precedence)
        ensures
            precedence == Precedence::of(kind),
    {
        match kind {
            Kind::Eq => Precedence::Equals,
            Kind::Neq => Precedence::Equals,
            Kind::Lt => Precedence::LessGreater,
            Kind::Gt => Precedence::LessGreater,
            Kind::Plus => Precedence::Sum,
            Kind::Minus => Precedence::Sum,
            Kind::Slash => Precedence::Product,
            Kind::Asterisk => Precedence::Product,
            _ => Precedence::Lowest,
        }
    }

    /// The rank as a number.
    pub fn level(&self) -> (level: u8)
        ensures
            level == self.rank(),
    {
        match self {
            Precedence::Lowest => 0,
            Precedence::Equals => 1,
            Precedence::LessGreater => 2,
            Precedence::Sum => 3,
            Precedence::Product => 4,
            Precedence::Prefix => 5,
            Precedence::Call => 6,
        }
    }

    /// Whether `self` binds less tightly than `other`.
    pub fn binds_less_than(&self, other: &Precedence) -> (less: bool)
        ensures
            less == (self.rank() < other.rank()),
    {
        self.level() < other.level()
    }
}

/// Whether an expression can start with a token of this kind.
pub open spec fn has_prefix_rule(kind: Kind) -> bool {
    kind == Kind::Ident || kind == Kind::Number || kind == Kind::Bang || kind == Kind::Minus
}

/// Whether a token of this kind continues an expression as an infix operator.
pub open spec fn has_infix_rule(kind: Kind) -> bool {
    kind == Kind::Plus || kind == Kind::Minus || kind == Kind::Slash || kind == Kind::Asterisk
        || kind == Kind::Eq || kind == Kind::Neq || kind == Kind::Lt || kind == Kind::Gt
}

/// The operators are exactly the kinds with a precedence above the lowest.
pub proof fn lemma_operators_have_precedence(kind: Kind)
    ensures
        has_infix_rule(kind) <==> Precedence::of(kind).rank() > 0,
        Precedence::of(kind).rank() < Precedence::Prefix.rank(),
{
}

/// The diagnostic for a token that had to follow and did not.
pub open spec fn expected_message(expected: Kind, got: Kind) -> Seq<char> {
    "expected next token: "@ + expected.label() + ". Got token: "@ + got.label()
}

/// The diagnostic for a token that no expression can start with.
pub open spec fn no_prefix_message(kind: Kind) -> Seq<char> {
    "no prefix parse function for "@ + kind.label() + " found"@
}

/// The diagnostic for a number that is no 64-bit integer.
pub open spec fn not_integer_message(literal: Seq<char>) -> Seq<char> {
    "could not parse "@ + literal + " as integer"@
}

/// The state of a parse: the tokens from the current one on, up to the end
/// of the input, and the diagnostics given so far.
pub struct ParserState {
    pub tokens: Seq<TokenView>,
    pub errors: Seq<Seq<char>>,
}

impl ParserState {
    /// The current token; the end-of-input token when none is left.
    pub open spec fn current(self) -> TokenView {
        if self.tokens.len() > 0 {
            self.tokens[0]
        } else {
            end_of_input()
        }
    }

    /// The token after the current one.
    pub open spec fn upcoming(self) -> TokenView {
        if self.tokens.len() > 1 {
            self.tokens[1]
        } else {
            end_of_input()
        }
    }

    /// The state after moving to the next token. At the end of the input
    /// nothing moves.
    pub open spec fn advance(self) -> ParserState {
        if self.tokens.len() > 0 {
            ParserState { tokens: self.tokens.drop_first(), errors: self.errors }
        } else {
            self
        }
    }

    /// The state after giving one more diagnostic.
    pub open spec fn report(self, message: Seq<char>) -> ParserState {
        ParserState { tokens: self.tokens, errors: self.errors.push(message) }
    }

    /// Whether the current token ends a statement: a semicolon, or the end of
    /// the input.
    pub open spec fn at_terminator(self) -> bool {
        self.current().kind == Kind::Semicolon || self.current().kind == Kind::Eof
    }

    /// Whether `self` can follow `before` in a parse: no token has come back.
    pub open spec fn follows(self, before: ParserState) -> bool {
        self.tokens.len() <= before.tokens.len()
    }
}

/// The state after moving on to the token that ends the statement.
pub open spec fn skip_to_terminator(s: ParserState) -> ParserState
    decreases s.tokens.len(),
{
    if s.at_terminator() {
        s
    } else {
        skip_to_terminator(s.advance())
    }
}

/// The node for the current token read as an integer literal, or the
/// diagnostic that its text is no integer.
pub open spec fn parse_integer_literal(s: ParserState) -> (Option<ExpressionView>, ParserState) {
    let token = s.current();
    match integer_value(token.literal) {
        Some(value) => (
            Some(ExpressionView::IntegerLiteral(IntegerLiteralView { token, value })),
            s,
        ),
        None => (None, s.report(not_integer_message(token.literal))),
    }
}

/// A literal whose text is a run of digits has the value that the digits
/// spell, if that value is below 2^63, and no diagnostic is given; if it is
/// not, there is no node, and one diagnostic.
pub proof fn lemma_integer_literal(s: ParserState)
    requires
        s.current().literal.len() > 0,
        all_digits(s.current().literal),
    ensures
        decimal_value(s.current().literal) <= i64::MAX ==> parse_integer_literal(s) == (
            Some(
                ExpressionView::IntegerLiteral(
                    IntegerLiteralView {
                        token: s.current(),
                        value: decimal_value(s.current().literal) as i64,
                    },
                ),
            ),
            s,
        ),
        decimal_value(s.current().literal) > i64::MAX ==> parse_integer_literal(s) == (
            None::<ExpressionView>,
            s.report(not_integer_message(s.current().literal)),
        ),
{
    lemma_digits_value(s.current().literal);
}

/// An expression whose operators bind tighter than `min`, read from the
/// current token on: a prefix part, then as many infix operators with their
/// right sides as bind tighter than `min`. The current token of the state
/// returned is the last token of the expression. Where no expression can
/// start with the current token, the result is none and a diagnostic.
///
/// The definitions below recur on the state that an earlier step returns.
/// Each tests that this state holds no more tokens than the state it came
/// from, which makes the recursion well-founded; the test never fails
/// (`lemma_expression_extends` and the lemmas beside it).
pub open spec fn parse_expression(s: ParserState, min: Precedence) -> (
    Option<ExpressionView>,
    ParserState,
)
    decreases s.tokens.len(), 3nat,
{
    let (left, s1) = parse_prefix(s);
    match left {
        Some(left) if s1.follows(s) => {
            let (folded, s2) = fold_infix(s1, min, left);
            (Some(folded), s2)
        },
        _ => (left, s1),
    }
}

/// The prefix part of an expression: an identifier, an integer literal, or
/// `!` or `-` with the operand it applies to.
pub open spec fn parse_prefix(s: ParserState) -> (Option<ExpressionView>, ParserState)
    decreases s.tokens.len(), 2nat,
{
    let token = s.current();
    if token.kind == Kind::Ident {
        (Some(ExpressionView::Identifier(IdentifierView { token, value: token.literal })), s)
    } else if token.kind == Kind::Number {
        parse_integer_literal(s)
    } else if token.kind == Kind::Bang || token.kind == Kind::Minus {
        let (right, s1) = parse_expression(s.advance(), Precedence::Prefix);
        (
            Some(
                ExpressionView::PrefixExpression(
                    PrefixExpressionView {
                        token,
                        operator: token.literal,
                        right: match right {
                            Some(e) => Some(Box::new(e)),
                            None => None,
                        },
                    },
                ),
            ),
            s1,
        )
    } else {
        (None, s.report(no_prefix_message(token.kind)))
    }
}

/// Whether the upcoming token continues the expression: it is an infix
/// operator that binds tighter than `min`. A semicolon never does.
pub open spec fn continues(s: ParserState, min: Precedence) -> bool {
    &&& s.upcoming().kind != Kind::Semicolon
    &&& min.rank() < Precedence::of(s.upcoming().kind).rank()
    &&& has_infix_rule(s.upcoming().kind)
}

/// `left` folded with the infix operators that follow it and bind tighter
/// than `min`, each with its right side: operators of equal precedence nest
/// to the left, and a right side takes the operators that bind tighter than
/// its own.
pub open spec fn fold_infix(s: ParserState, min: Precedence, left: ExpressionView) -> (
    ExpressionView,
    ParserState,
)
    decreases s.tokens.len(), 1nat,
{
    if continues(s, min) {
        let (infix, s1) = parse_infix(s, left);
        if s1.tokens.len() < s.tokens.len() {
            fold_infix(s1, min, infix)
        } else {
            (infix, s1)
        }
    } else {
        (left, s)
    }
}

/// The infix expression of `left`, the upcoming token as its operator, and
/// the right side that follows the operator.
pub open spec fn parse_infix(s: ParserState, left: ExpressionView) -> (ExpressionView, ParserState)
    decreases s.tokens.len(), 0nat,
    when s.tokens.len() >= 2
{
    let token = s.upcoming();
    let (right, s1) = parse_expression(s.advance().advance(), Precedence::of(token.kind));
    (
        ExpressionView::InfixExpression(
            InfixExpressionView {
                token,
                left: Some(Box::new(left)),
                operator: token.literal,
                right: match right {
                    Some(e) => Some(Box::new(e)),
                    None => None,
                },
            },
        ),
        s1,
    )
}

/// A `let` statement, read from the `let` token on: the name, `=`, and the
/// value. Where the name or the `=` is missing the result is none and a
/// diagnostic. Either way the parse moves on to the end of the statement.
pub open spec fn parse_let_statement(s: ParserState) -> (Option<StatementView>, ParserState) {
    let token = s.current();
    if s.upcoming().kind != Kind::Ident {
        (None, skip_to_terminator(s.report(expected_message(Kind::Ident, s.upcoming().kind))))
    } else {
        let s1 = s.advance();
        let name = s1.current();
        if s1.upcoming().kind != Kind::Assign {
            (
                None,
                skip_to_terminator(s1.report(expected_message(Kind::Assign, s1.upcoming().kind))),
            )
        } else {
            let (value, s2) = parse_expression(s1.advance().advance(), Precedence::Lowest);
            (
                Some(
                    StatementView::LetStatement(
                        LetStatementView {
                            token,
                            name: IdentifierView { token: name, value: name.literal },
                            value,
                        },
                    ),
                ),
                skip_to_terminator(s2),
            )
        }
    }
}

/// A `return` statement, read from the `return` token on, with the value
/// that follows the keyword, if one does.
pub open spec fn parse_return_statement(s: ParserState) -> (StatementView, ParserState) {
    let token = s.current();
    let s1 = s.advance();
    if s1.at_terminator() {
        (StatementView::ReturnStatement(ReturnStatementView { token, return_value: None }), s1)
    } else {
        let (return_value, s2) = parse_expression(s1, Precedence::Lowest);
        (
            StatementView::ReturnStatement(ReturnStatementView { token, return_value }),
            skip_to_terminator(s2),
        )
    }
}

/// An expression statement: an expression read from the current token on,
/// and the semicolon after it, if there is one. Where no expression could be
/// read the statement stands without one.
pub open spec fn parse_expression_statement(s: ParserState) -> (StatementView, ParserState) {
    let token = s.current();
    let (expression, s1) = parse_expression(s, Precedence::Lowest);
    (
        StatementView::ExpressionStatement(ExpressionStatementView { token, expression }),
        if s1.upcoming().kind == Kind::Semicolon {
            s1.advance()
        } else {
            s1
        },
    )
}

/// One statement, chosen by the kind of the current token. The current token
/// of the state returned is the last token of the statement.
pub open spec fn parse_statement(s: ParserState) -> (Option<StatementView>, ParserState) {
    if s.current().kind == Kind::Let {
        parse_let_statement(s)
    } else if s.current().kind == Kind::Return {
        let (statement, s1) = parse_return_statement(s);
        (Some(statement), s1)
    } else {
        let (statement, s1) = parse_expression_statement(s);
        (Some(statement), s1)
    }
}

/// The statements of a program, read one after the other until the end of
/// the input. A statement that could not be read is left out.
pub open spec fn parse_program(s: ParserState) -> (Seq<StatementView>, ParserState)
    decreases s.tokens.len(),
{
    if s.current().kind == Kind::Eof {
        (Seq::empty(), s)
    } else {
        let (statement, s1) = parse_statement(s);
        let s2 = s1.advance();
        let head = match statement {
            Some(statement) => seq![statement],
            None => Seq::empty(),
        };
        if s2.tokens.len() < s.tokens.len() {
            let (rest, s3) = parse_program(s2);
            (head + rest, s3)
        } else {
            (head, s2)
        }
    }
}

/// Whether `after` can come of `before` in a parse: its tokens are the last
/// of those of `before`, and its diagnostics start with those of `before`.
pub open spec fn extends(after: ParserState, before: ParserState) -> bool {
    &&& after.tokens.len() <= before.tokens.len()
    &&& after.tokens == before.tokens.skip(before.tokens.len() - after.tokens.len())
    &&& before.errors.len() <= after.errors.len()
    &&& after.errors.take(before.errors.len() as int) == before.errors
}

/// Every state extends itself.
pub proof fn lemma_extends_itself(s: ParserState)
    ensures
        extends(s, s),
{
    assert(s.tokens.skip(0) =~= s.tokens);
    assert(s.errors.take(s.errors.len() as int) =~= s.errors);
}

/// What extends an extension of a state extends that state.
pub proof fn lemma_extends_chain(c: ParserState, b: ParserState, a: ParserState)
    requires
        extends(c, b),
        extends(b, a),
    ensures
        extends(c, a),
{
    let drop_b = a.tokens.len() - b.tokens.len();
    let drop_c = b.tokens.len() - c.tokens.len();
    assert(a.tokens.skip(drop_b).skip(drop_c) =~= a.tokens.skip(drop_b + drop_c));
    assert(c.errors.take(a.errors.len() as int) =~= c.errors.take(b.errors.len() as int).take(
        a.errors.len() as int,
    ));
}

/// Moving on and giving a diagnostic both extend a state.
pub proof fn lemma_steps_extend(s: ParserState, message: Seq<char>)
    ensures
        extends(s.advance(), s),
        extends(s.report(message), s),
        s.tokens.len() > 0 ==> s.advance().tokens.len() == s.tokens.len() - 1,
{
    lemma_extends_itself(s);
    if s.tokens.len() > 0 {
        assert(s.tokens.drop_first() =~= s.tokens.skip(1));
    }
    assert(s.report(message).errors.take(s.errors.len() as int) =~= s.errors);
}

/// Skipping to the end of a statement extends a state.
pub proof fn lemma_skip_extends(s: ParserState)
    ensures
        extends(skip_to_terminator(s), s),
        skip_to_terminator(s).at_terminator(),
    decreases s.tokens.len(),
{
    if s.at_terminator() {
        lemma_extends_itself(s);
    } else {
        lemma_steps_extend(s, Seq::empty());
        lemma_skip_extends(s.advance());
        lemma_extends_chain(skip_to_terminator(s.advance()), s.advance(), s);
    }
}

/// Reading an expression never brings a token back and never takes a
/// diagnostic away.
pub proof fn lemma_expression_extends(s: ParserState, min: Precedence)
    ensures
        extends(parse_expression(s, min).1, s),
    decreases s.tokens.len(), 3nat,
{
    let (left, s1) = parse_prefix(s);
    lemma_prefix_extends(s);
    match left {
        Some(left) => {
            lemma_fold_extends(s1, min, left);
            lemma_extends_chain(fold_infix(s1, min, left).1, s1, s);
        },
        None => {},
    }
}

/// Reading the prefix part of an expression extends the state.
pub proof fn lemma_prefix_extends(s: ParserState)
    ensures
        extends(parse_prefix(s).1, s),
    decreases s.tokens.len(), 2nat,
{
    let token = s.current();
    lemma_extends_itself(s);
    lemma_steps_extend(s, no_prefix_message(token.kind));
    lemma_steps_extend(s, not_integer_message(token.literal));
    if token.kind == Kind::Bang || token.kind == Kind::Minus {
        lemma_expression_extends(s.advance(), Precedence::Prefix);
        lemma_extends_chain(parse_expression(s.advance(), Precedence::Prefix).1, s.advance(), s);
    }
}

/// Folding infix operators extends the state.
pub proof fn lemma_fold_extends(s: ParserState, min: Precedence, left: ExpressionView)
    ensures
        extends(fold_infix(s, min, left).1, s),
    decreases s.tokens.len(), 1nat,
{
    if continues(s, min) {
        let (infix, s1) = parse_infix(s, left);
        lemma_infix_extends(s, left);
        lemma_fold_extends(s1, min, infix);
        lemma_extends_chain(fold_infix(s1, min, infix).1, s1, s);
    } else {
        lemma_extends_itself(s);
    }
}

/// Reading an operator and its right side extends the state, and takes two
/// tokens at least.
pub proof fn lemma_infix_extends(s: ParserState, left: ExpressionView)
    requires
        s.tokens.len() >= 2,
    ensures
        extends(parse_infix(s, left).1, s),
        parse_infix(s, left).1.tokens.len() + 2 <= s.tokens.len(),
    decreases s.tokens.len(), 0nat,
{
    let s2 = s.advance().advance();
    lemma_steps_extend(s, Seq::empty());
    lemma_steps_extend(s.advance(), Seq::empty());
    lemma_extends_chain(s2, s.advance(), s);
    lemma_expression_extends(s2, Precedence::of(s.upcoming().kind));
    lemma_extends_chain(parse_infix(s, left).1, s2, s);
}

/// Reading a statement extends the state.
pub proof fn lemma_statement_extends(s: ParserState)
    ensures
        extends(parse_statement(s).1, s),
{
    let s1 = s.advance();
    let s2 = s1.advance();
    lemma_steps_extend(s, expected_message(Kind::Ident, s.upcoming().kind));
    lemma_steps_extend(s1, expected_message(Kind::Assign, s1.upcoming().kind));
    lemma_steps_extend(s1, Seq::empty());
    lemma_extends_chain(s2, s1, s);
    if s.current().kind == Kind::Let {
        if s.upcoming().kind != Kind::Ident {
            let reported = s.report(expected_message(Kind::Ident, s.upcoming().kind));
            lemma_skip_extends(reported);
            lemma_extends_chain(skip_to_terminator(reported), reported, s);
        } else if s1.upcoming().kind != Kind::Assign {
            let reported = s1.report(expected_message(Kind::Assign, s1.upcoming().kind));
            lemma_skip_extends(reported);
            lemma_extends_chain(reported, s1, s);
            lemma_extends_chain(skip_to_terminator(reported), reported, s);
        } else {
            let start = s2.advance();
            let s3 = parse_expression(start, Precedence::Lowest).1;
            lemma_steps_extend(s2, Seq::empty());
            lemma_extends_chain(start, s2, s);
            lemma_expression_extends(start, Precedence::Lowest);
            lemma_skip_extends(s3);
            lemma_extends_chain(s3, start, s);
            lemma_extends_chain(skip_to_terminator(s3), s3, s);
        }
    } else if s.current().kind == Kind::Return {
        if !s1.at_terminator() {
            let s3 = parse_expression(s1, Precedence::Lowest).1;
            lemma_expression_extends(s1, Precedence::Lowest);
            lemma_skip_extends(s3);
            lemma_extends_chain(s3, s1, s);
            lemma_extends_chain(skip_to_terminator(s3), s3, s);
        }
    } else {
        let s3 = parse_expression(s, Precedence::Lowest).1;
        lemma_expression_extends(s, Precedence::Lowest);
        lemma_steps_extend(s3, Seq::empty());
        lemma_extends_chain(s3.advance(), s3, s);
    }
}

/// Reading a program uses up every token and takes no diagnostic away.
pub proof fn lemma_program_extends(s: ParserState)
    ensures
        extends(parse_program(s).1, s),
        parse_program(s).1.current().kind == Kind::Eof,
    decreases s.tokens.len(),
{
    if s.current().kind == Kind::Eof {
        lemma_extends_itself(s);
    } else {
        let s1 = parse_statement(s).1;
        let s2 = s1.advance();
        lemma_statement_extends(s);
        lemma_steps_extend(s1, Seq::empty());
        lemma_extends_chain(s2, s1, s);
        lemma_program_extends(s2);
        lemma_extends_chain(parse_program(s2).1, s2, s);
    }
}

} // verus!
