//! The syntax tree: statements and expressions, each with a view that holds
//! its text as sequences of characters, and its canonical rendering.

use crate::token::{Token, TokenView};
use vstd::prelude::*;
use vstd::string::*;

verus! {

/// What an `Identifier` is.
pub struct IdentifierView {
    pub token: TokenView,
    pub value: Seq<char>,
}

/// What an `IntegerLiteral` is.
pub struct IntegerLiteralView {
    pub token: TokenView,
    pub value: i64,
}

/// What a `PrefixExpression` is.
pub struct PrefixExpressionView {
    pub token: TokenView,
    pub operator: Seq<char>,
    pub right: Option<Box<ExpressionView>>,
}

/// What an `InfixExpression` is.
pub struct InfixExpressionView {
    pub token: TokenView,
    pub left: Option<Box<ExpressionView>>,
    pub operator: Seq<char>,
    pub right: Option<Box<ExpressionView>>,
}

/// What an `Expression` is: a tree whose texts are sequences of characters.
pub enum ExpressionView {
    Identifier(IdentifierView),
    IntegerLiteral(IntegerLiteralView),
    PrefixExpression(PrefixExpressionView),
    InfixExpression(InfixExpressionView),
}

/// What a `LetStatement` is.
pub struct LetStatementView {
    pub token: TokenView,
    pub name: IdentifierView,
    pub value: Option<ExpressionView>,
}

/// What a `ReturnStatement` is.
pub struct ReturnStatementView {
    pub token: TokenView,
    pub return_value: Option<ExpressionView>,
}

/// What an `ExpressionStatement` is.
pub struct ExpressionStatementView {
    pub token: TokenView,
    pub expression: Option<ExpressionView>,
}

/// What a `Statement` is.
pub enum StatementView {
    LetStatement(LetStatementView),
    ReturnStatement(ReturnStatementView),
    ExpressionStatement(ExpressionStatementView),
}

/// What a `Program` is: its statements, in order.
pub struct ProgramView {
    pub statements: Seq<StatementView>,
}

/// The canonical text of an expression. An identifier and an integer literal
/// render as their text, a prefix expression as `(<operator><operand>)`, an
/// infix expression as `(<left> <operator> <right>)`. An operand that is
/// missing renders as nothing.
pub open spec fn expression_text(e: ExpressionView) -> Seq<char>
    decreases e,
{
    match e {
        ExpressionView::Identifier(v) => v.value,
        ExpressionView::IntegerLiteral(v) => v.token.literal,
        ExpressionView::PrefixExpression(v) => "("@ + v.operator + (match v.right {
            Some(right) => expression_text(*right),
            None => Seq::empty(),
        }) + ")"@,
        ExpressionView::InfixExpression(v) => "("@ + (match v.left {
            Some(left) => expression_text(*left),
            None => Seq::empty(),
        }) + " "@ + v.operator + " "@ + (match v.right {
            Some(right) => expression_text(*right),
            None => Seq::empty(),
        }) + ")"@,
    }
}

/// The text of an expression that may be missing: nothing, if it is.
pub open spec fn optional_text(e: Option<ExpressionView>) -> Seq<char> {
    match e {
        Some(e) => expression_text(e),
        None => Seq::empty(),
    }
}

/// The canonical text of a statement: `let <name> = <value>;`,
/// `return <value>;`, or the text of the expression of an expression
/// statement.
pub open spec fn statement_text(s: StatementView) -> Seq<char> {
    match s {
        StatementView::LetStatement(v) => v.token.literal + " "@ + v.name.value + " = "@
            + optional_text(v.value) + ";"@,
        StatementView::ReturnStatement(v) => v.token.literal + " "@ + optional_text(v.return_value)
            + ";"@,
        StatementView::ExpressionStatement(v) => optional_text(v.expression),
    }
}

/// The texts of `statements` one after the other, with nothing between them.
pub open spec fn statements_text(statements: Seq<StatementView>) -> Seq<char>
    decreases statements.len(),
{
    if statements.len() == 0 {
        Seq::empty()
    } else {
        statements_text(statements.drop_last()) + statement_text(statements.last())
    }
}

/// The text of the token that a statement starts with.
pub open spec fn statement_token(s: StatementView) -> TokenView {
    match s {
        StatementView::LetStatement(v) => v.token,
        StatementView::ReturnStatement(v) => v.token,
        StatementView::ExpressionStatement(v) => v.token,
    }
}

/// The token that an expression was read from.
pub open spec fn expression_token(e: ExpressionView) -> TokenView {
    match e {
        ExpressionView::Identifier(v) => v.token,
        ExpressionView::IntegerLiteral(v) => v.token,
        ExpressionView::PrefixExpression(v) => v.token,
        ExpressionView::InfixExpression(v) => v.token,
    }
}

/// What every node of the tree offers: the text of the token it was read
/// from, and its canonical text.
pub trait Node {
    spec fn token_text(&self) -> Seq<char>;

    spec fn text(&self) -> Seq<char>;

    fn token_literal(&self) -> (literal: String)
        ensures
            literal@ == self.token_text(),
    ;

    fn to_str(&self) -> (text: String)
        ensures
            text@ == self.text(),
    ;
}

/// A name. Example: `foo`
#[derive(Debug)]
pub struct Identifier {
    pub token: Token,  // token.Ident
    pub value: String,
}

/// An integer literal, with the value that its text spells. Example: `5`
#[derive(Debug)]
pub struct IntegerLiteral {
    pub token: Token,  // token.Number
    pub value: i64,
}

/// A prefix operator and its operand. Examples: `!foo`, `-10`
///
/// The operand is missing where none could be read.
#[derive(Debug)]
pub struct PrefixExpression {
    pub token: Token,  // prefix token: token.Minus, token.Bang
    pub operator: String,
    pub right: Option<Box<Expression>>,
}

/// An infix operator and its two sides. Examples: `5 + 5`, `5 != 5`
///
/// A side is missing where none could be read.
#[derive(Debug)]
pub struct InfixExpression {
    pub token: Token,  // the operator's token
    pub left: Option<Box<Expression>>,
    pub operator: String,
    pub right: Option<Box<Expression>>,
}

/// An expression: a tree that owns its operands.
#[derive(Debug)]
pub enum Expression {
    Identifier(Identifier),
    IntegerLiteral(IntegerLiteral),
    PrefixExpression(PrefixExpression),
    InfixExpression(InfixExpression),
}

/// The binding of a name to a value. Example: `let x = 5;`
///
/// The value is missing where none could be read.
#[derive(Debug)]
pub struct LetStatement {
    pub token: Token,  // token.Let
    pub name: Identifier,
    pub value: Option<Expression>,
}

/// A `return` with the value it returns, if it has one. Example: `return x;`
#[derive(Debug)]
pub struct ReturnStatement {
    pub token: Token,  // token.Return
    pub return_value: Option<Expression>,
}

/// An expression that stands as a statement. Example: `x + 10;`
///
/// The expression is missing where none could be read: the statement stays.
#[derive(Debug)]
pub struct ExpressionStatement {
    pub token: Token,  // first token of expression
    pub expression: Option<Expression>,
}

/// A statement.
#[derive(Debug)]
pub enum Statement {
    LetStatement(LetStatement),
    ReturnStatement(ReturnStatement),
    ExpressionStatement(ExpressionStatement),
}

/// Root node of every AST
pub struct Program {
    pub statements: Vec<Statement>,
}

/// The view of an operand that may be missing.
pub open spec fn operand_view(operand: Option<Box<Expression>>) -> Option<Box<ExpressionView>>
    decreases operand,
{
    match operand {
        Some(e) => Some(Box::new(expression_view(*e))),
        None => None,
    }
}

/// The view of an expression.
pub open spec fn expression_view(e: Expression) -> ExpressionView
    decreases e,
{
    match e {
        Expression::Identifier(v) => ExpressionView::Identifier(v@),
        Expression::IntegerLiteral(v) => ExpressionView::IntegerLiteral(v@),
        Expression::PrefixExpression(v) => ExpressionView::PrefixExpression(
            PrefixExpressionView {
                token: v.token@,
                operator: v.operator@,
                right: operand_view(v.right),
            },
        ),
        Expression::InfixExpression(v) => ExpressionView::InfixExpression(
            InfixExpressionView {
                token: v.token@,
                left: operand_view(v.left),
                operator: v.operator@,
                right: operand_view(v.right),
            },
        ),
    }
}

/// The view of an expression that may be missing.
pub open spec fn optional_view(e: Option<Expression>) -> Option<ExpressionView> {
    match e {
        Some(e) => Some(e@),
        None => None,
    }
}

impl View for Identifier {
    type V = IdentifierView;

    open spec fn view(&self) -> IdentifierView {
        IdentifierView { token: self.token@, value: self.value@ }
    }
}

impl View for IntegerLiteral {
    type V = IntegerLiteralView;

    open spec fn view(&self) -> IntegerLiteralView {
        IntegerLiteralView { token: self.token@, value: self.value }
    }
}

impl View for PrefixExpression {
    type V = PrefixExpressionView;

    open spec fn view(&self) -> PrefixExpressionView {
        PrefixExpressionView {
            token: self.token@,
            operator: self.operator@,
            right: operand_view(self.right),
        }
    }
}

impl View for InfixExpression {
    type V = InfixExpressionView;

    open spec fn view(&self) -> InfixExpressionView {
        InfixExpressionView {
            token: self.token@,
            left: operand_view(self.left),
            operator: self.operator@,
            right: operand_view(self.right),
        }
    }
}

impl View for Expression {
    type V = ExpressionView;

    open spec fn view(&self) -> ExpressionView {
        expression_view(*self)
    }
}

impl View for LetStatement {
    type V = LetStatementView;

    open spec fn view(&self) -> LetStatementView {
        LetStatementView {
            token: self.token@,
            name: self.name@,
            value: optional_view(self.value),
        }
    }
}

impl View for ReturnStatement {
    type V = ReturnStatementView;

    open spec fn view(&self) -> ReturnStatementView {
        ReturnStatementView {
            token: self.token@,
            return_value: optional_view(self.return_value),
        }
    }
}

impl View for ExpressionStatement {
    type V = ExpressionStatementView;

    open spec fn view(&self) -> ExpressionStatementView {
        ExpressionStatementView {
            token: self.token@,
            expression: optional_view(self.expression),
        }
    }
}

impl View for Statement {
    type V = StatementView;

    open spec fn view(&self) -> StatementView {
        match self {
            Statement::LetStatement(v) => StatementView::LetStatement(v@),
            Statement::ReturnStatement(v) => StatementView::ReturnStatement(v@),
            Statement::ExpressionStatement(v) => StatementView::ExpressionStatement(v@),
        }
    }
}

/// The view of a statement that may be missing.
pub open spec fn optional_statement_view(s: Option<Statement>) -> Option<StatementView> {
    match s {
        Some(s) => Some(s@),
        None => None,
    }
}

/// The views of `statements`, in order.
pub open spec fn statement_views(statements: Seq<Statement>) -> Seq<StatementView> {
    Seq::new(statements.len(), |i: int| statements[i]@)
}

impl View for Program {
    type V = ProgramView;

    open spec fn view(&self) -> ProgramView {
        ProgramView { statements: statement_views(self.statements@) }
    }
}

/// Copies an operand that may be missing.
fn clone_operand(operand: &Option<Box<Expression>>) -> (copy: Option<Box<Expression>>)
    ensures
        operand_view(copy) == operand_view(*operand),
    decreases operand,
{
    match operand {
        Some(e) => Some(Box::new(clone_expression(e))),
        None => None,
    }
}

/// Copies an expression.
fn clone_expression(e: &Expression) -> (copy: Expression)
    ensures
        copy@ == e@,
    decreases e,
{
    match e {
        Expression::Identifier(v) => Expression::Identifier(v.clone()),
        Expression::IntegerLiteral(v) => Expression::IntegerLiteral(v.clone()),
        Expression::PrefixExpression(v) => Expression::PrefixExpression(
            PrefixExpression {
                token: v.token.clone(),
                operator: v.operator.clone(),
                right: clone_operand(&v.right),
            },
        ),
        Expression::InfixExpression(v) => Expression::InfixExpression(
            InfixExpression {
                token: v.token.clone(),
                left: clone_operand(&v.left),
                operator: v.operator.clone(),
                right: clone_operand(&v.right),
            },
        ),
    }
}

impl Clone for Identifier {
    fn clone(&self) -> (copy: Self)
        ensures
            copy@ == self@,
    {
        Identifier { token: self.token.clone(), value: self.value.clone() }
    }
}

impl Clone for IntegerLiteral {
    fn clone(&self) -> (copy: Self)
        ensures
            copy@ == self@,
    {
        IntegerLiteral { token: self.token.clone(), value: self.value }
    }
}

impl Clone for PrefixExpression {
    fn clone(&self) -> (copy: Self)
        ensures
            copy@ == self@,
    {
        PrefixExpression {
            token: self.token.clone(),
            operator: self.operator.clone(),
            right: clone_operand(&self.right),
        }
    }
}

impl Clone for InfixExpression {
    fn clone(&self) -> (copy: Self)
        ensures
            copy@ == self@,
    {
        InfixExpression {
            token: self.token.clone(),
            left: clone_operand(&self.left),
            operator: self.operator.clone(),
            right: clone_operand(&self.right),
        }
    }
}

impl Clone for Expression {
    fn clone(&self) -> (copy: Self)
        ensures
            copy@ == self@,
    {
        clone_expression(self)
    }
}

/// Renders an operand that may be missing onto the end of `text`.
fn push_operand(text: &mut String, operand: &Option<Box<Expression>>)
    ensures
        final(text)@ == old(text)@ + (match operand_view(*operand) {
            Some(e) => expression_text(*e),
            None => Seq::empty(),
        }),
    decreases operand,
{
    match operand {
        Some(e) => {
            let rendered = render_expression(e);
            text.append(rendered.as_str());
        },
        None => {
            assert(text@ + Seq::<char>::empty() =~= text@);
        },
    }
}

/// Renders an expression.
fn render_expression(e: &Expression) -> (text: String)
    ensures
        text@ == expression_text(e@),
    decreases e,
{
    match e {
        Expression::Identifier(v) => v.value.clone(),
        Expression::IntegerLiteral(v) => v.token.literal.clone(),
        Expression::PrefixExpression(v) => {
            let mut sb = String::new();
            sb.append("(");
            sb.append(v.operator.as_str());
            push_operand(&mut sb, &v.right);
            sb.append(")");
            assert(sb@ =~= expression_text(e@));
            sb
        },
        Expression::InfixExpression(v) => {
            let mut sb = String::new();
            sb.append("(");
            push_operand(&mut sb, &v.left);
            sb.append(" ");
            sb.append(v.operator.as_str());
            sb.append(" ");
            push_operand(&mut sb, &v.right);
            sb.append(")");
            assert(sb@ =~= expression_text(e@));
            sb
        },
    }
}

/// Renders an expression that may be missing onto the end of `text`.
fn push_optional(text: &mut String, e: &Option<Expression>)
    ensures
        final(text)@ == old(text)@ + optional_text(optional_view(*e)),
{
    match e {
        Some(e) => {
            let rendered = render_expression(e);
            text.append(rendered.as_str());
        },
        None => {
            assert(text@ + Seq::<char>::empty() =~= text@);
        },
    }
}

impl Node for Identifier {
    open spec fn token_text(&self) -> Seq<char> {
        self@.token.literal
    }

    open spec fn text(&self) -> Seq<char> {
        self@.value
    }

    fn token_literal(&self) -> (literal: String) {
        self.token.literal.clone()
    }

    fn to_str(&self) -> (text: String) {
        self.value.clone()
    }
}

impl Node for IntegerLiteral {
    open spec fn token_text(&self) -> Seq<char> {
        self@.token.literal
    }

    open spec fn text(&self) -> Seq<char> {
        self@.token.literal
    }

    fn token_literal(&self) -> (literal: String) {
        self.token.literal.clone()
    }

    fn to_str(&self) -> (text: String) {
        self.token.literal.clone()
    }
}

impl Node for PrefixExpression {
    open spec fn token_text(&self) -> Seq<char> {
        self@.token.literal
    }

    open spec fn text(&self) -> Seq<char> {
        expression_text(ExpressionView::PrefixExpression(self@))
    }

    fn token_literal(&self) -> (literal: String) {
        self.token.literal.clone()
    }

    fn to_str(&self) -> (text: String) {
        let mut sb = String::new();
        sb.append("(");
        sb.append(self.operator.as_str());
        push_operand(&mut sb, &self.right);
        sb.append(")");
        assert(sb@ =~= self.text());
        sb
    }
}

impl Node for InfixExpression {
    open spec fn token_text(&self) -> Seq<char> {
        self@.token.literal
    }

    open spec fn text(&self) -> Seq<char> {
        expression_text(ExpressionView::InfixExpression(self@))
    }

    fn token_literal(&self) -> (literal: String) {
        self.token.literal.clone()
    }

    fn to_str(&self) -> (text: String) {
        let mut sb = String::new();
        sb.append("(");
        push_operand(&mut sb, &self.left);
        sb.append(" ");
        sb.append(self.operator.as_str());
        sb.append(" ");
        push_operand(&mut sb, &self.right);
        sb.append(")");
        assert(sb@ =~= self.text());
        sb
    }
}

impl Node for Expression {
    open spec fn token_text(&self) -> Seq<char> {
        expression_token(self@).literal
    }

    open spec fn text(&self) -> Seq<char> {
        expression_text(self@)
    }

    fn token_literal(&self) -> (literal: String) {
        match self {
            Expression::Identifier(v) => v.token_literal(),
            Expression::IntegerLiteral(v) => v.token_literal(),
            Expression::PrefixExpression(v) => v.token_literal(),
            Expression::InfixExpression(v) => v.token_literal(),
        }
    }

    fn to_str(&self) -> (text: String) {
        match self {
            Expression::Identifier(v) => v.to_str(),
            Expression::IntegerLiteral(v) => v.to_str(),
            Expression::PrefixExpression(v) => v.to_str(),
            Expression::InfixExpression(v) => v.to_str(),
        }
    }
}

impl Node for LetStatement {
    open spec fn token_text(&self) -> Seq<char> {
        self@.token.literal
    }

    open spec fn text(&self) -> Seq<char> {
        statement_text(StatementView::LetStatement(self@))
    }

    fn token_literal(&self) -> (literal: String) {
        self.token.literal.clone()
    }

    fn to_str(&self) -> (text: String) {
        let mut sb = String::new();
        sb.append(self.token_literal().as_str());
        sb.append(" ");
        sb.append(self.name.to_str().as_str());
        sb.append(" = ");
        push_optional(&mut sb, &self.value);
        sb.append(";");
        assert(sb@ =~= self.text());
        sb
    }
}

impl Node for ReturnStatement {
    open spec fn token_text(&self) -> Seq<char> {
        self@.token.literal
    }

    open spec fn text(&self) -> Seq<char> {
        statement_text(StatementView::ReturnStatement(self@))
    }

    fn token_literal(&self) -> (literal: String) {
        self.token.literal.clone()
    }

    fn to_str(&self) -> (text: String) {
        let mut sb = String::new();
        sb.append(self.token_literal().as_str());
        sb.append(" ");
        push_optional(&mut sb, &self.return_value);
        sb.append(";");
        assert(sb@ =~= self.text());
        sb
    }
}

impl Node for ExpressionStatement {
    open spec fn token_text(&self) -> Seq<char> {
        self@.token.literal
    }

    open spec fn text(&self) -> Seq<char> {
        statement_text(StatementView::ExpressionStatement(self@))
    }

    fn token_literal(&self) -> (literal: String) {
        self.token.literal.clone()
    }

    fn to_str(&self) -> (text: String) {
        let mut sb = String::new();
        push_optional(&mut sb, &self.expression);
        assert(sb@ =~= self.text());
        sb
    }
}

impl Node for Statement {
    open spec fn token_text(&self) -> Seq<char> {
        statement_token(self@).literal
    }

    open spec fn text(&self) -> Seq<char> {
        statement_text(self@)
    }

    fn token_literal(&self) -> (literal: String) {
        match self {
            Statement::LetStatement(v) => v.token_literal(),
            Statement::ReturnStatement(v) => v.token_literal(),
            Statement::ExpressionStatement(v) => v.token_literal(),
        }
    }

    fn to_str(&self) -> (text: String) {
        match self {
            Statement::LetStatement(v) => v.to_str(),
            Statement::ReturnStatement(v) => v.to_str(),
            Statement::ExpressionStatement(v) => v.to_str(),
        }
    }
}

impl Node for Program {
    /// The token text of the first statement; nothing for an empty program.
    open spec fn token_text(&self) -> Seq<char> {
        if self@.statements.len() > 0 {
            statement_token(self@.statements[0]).literal
        } else {
            Seq::empty()
        }
    }

    open spec fn text(&self) -> Seq<char> {
        statements_text(self@.statements)
    }

    fn token_literal(&self) -> (literal: String) {
        if self.statements.len() > 0 {
            self.statements[0].token_literal()
        } else {
            String::new()
        }
    }

    fn to_str(&self) -> (text: String) {
        let mut sb = String::new();
        let n: usize = self.statements.len();
        let mut i: usize = 0;
        while i < n
            invariant
                i <= n,
                n == self.statements.len(),
                sb@ == statements_text(self@.statements.take(i as int)),
            decreases n - i,
        {
            let rendered = self.statements[i].to_str();
            sb.append(rendered.as_str());
            proof {
                let views = self@.statements;
                assert(views.take(i + 1).drop_last() =~= views.take(i as int));
                assert(views.take(i + 1).last() == self.statements[i as int]@);
            }
            i = i + 1;
        }
        assert(self@.statements.take(n as int) =~= self@.statements);
        sb
    }
}

} // verus!
