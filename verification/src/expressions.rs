//! Laws of expressions: how operators nest by their precedence, and which
//! tokens an expression holds.

use crate::ast::{ExpressionView, IdentifierView, InfixExpressionView, PrefixExpressionView};
use crate::grammar::{
    continues, fold_infix, has_infix_rule, lemma_expression_extends, lemma_fold_extends,
    lemma_infix_extends, lemma_prefix_extends, lemma_steps_extend, parse_expression, parse_infix,
    parse_prefix, ParserState, Precedence,
};
use crate::statements::tokens_read;
use crate::token::{Kind, TokenView};
use vstd::prelude::*;

verus! {

/// The identifier that a token names.
pub open spec fn name_of(token: TokenView) -> ExpressionView {
    ExpressionView::Identifier(IdentifierView { token, value: token.literal })
}

/// The infix expression of an operator token and its two sides.
pub open spec fn infix_of(
    left: ExpressionView,
    operator: TokenView,
    right: ExpressionView,
) -> ExpressionView {
    ExpressionView::InfixExpression(
        InfixExpressionView {
            token: operator,
            left: Some(Box::new(left)),
            operator: operator.literal,
            right: Some(Box::new(right)),
        },
    )
}

/// The prefix expression of an operator token and its operand.
pub open spec fn prefix_of(operator: TokenView, right: ExpressionView) -> ExpressionView {
    ExpressionView::PrefixExpression(
        PrefixExpressionView {
            token: operator,
            operator: operator.literal,
            right: Some(Box::new(right)),
        },
    )
}

/// Whether an expression that ends before `tail` ends there whatever came
/// before: `tail` does not start with an infix operator.
pub open spec fn ends_expression(tail: Seq<TokenView>) -> bool {
    tail.len() > 0 ==> !has_infix_rule(tail[0].kind)
}

/// An identifier that no operator follows, or one that binds no tighter than
/// `min`, is an expression by itself, and reading it moves nothing.
pub proof fn lemma_name_alone(s: ParserState, min: Precedence)
    requires
        s.current().kind == Kind::Ident,
        !continues(s, min),
    ensures
        parse_expression(s, min) == (Some(name_of(s.current())), s),
{
    assert(parse_prefix(s) == (Some(name_of(s.current())), s));
    assert(fold_infix(s, min, name_of(s.current())) == (name_of(s.current()), s));
}

/// Of two operators in a row, the one that binds tighter takes the middle
/// operand. In `a o1 b o2 c`, where `o2` binds tighter than `o1`, the right
/// side of `o1` is `b o2 c`; where it does not, the left side of `o2` is
/// `a o1 b`: operators of equal precedence nest to the left.
pub proof fn lemma_two_operators(
    s: ParserState,
    a: TokenView,
    o1: TokenView,
    b: TokenView,
    o2: TokenView,
    c: TokenView,
    tail: Seq<TokenView>,
)
    requires
        s.tokens == seq![a, o1, b, o2, c] + tail,
        a.kind == Kind::Ident,
        b.kind == Kind::Ident,
        c.kind == Kind::Ident,
        has_infix_rule(o1.kind),
        has_infix_rule(o2.kind),
        ends_expression(tail),
    ensures
        parse_expression(s, Precedence::Lowest).0 == Some(
            if Precedence::of(o1.kind).rank() < Precedence::of(o2.kind).rank() {
                infix_of(name_of(a), o1, infix_of(name_of(b), o2, name_of(c)))
            } else {
                infix_of(infix_of(name_of(a), o1, name_of(b)), o2, name_of(c))
            },
        ),
        parse_expression(s, Precedence::Lowest).1 == (ParserState {
            tokens: seq![c] + tail,
            errors: s.errors,
        }),
{
    let first = Precedence::of(o1.kind);
    let second = Precedence::of(o2.kind);
    let s2 = s.advance().advance();
    let s4 = s2.advance().advance();
    assert(s2.tokens =~= seq![b, o2, c] + tail);
    assert(s4.tokens =~= seq![c] + tail);
    assert(s4 == ParserState { tokens: seq![c] + tail, errors: s.errors });
    // the last operand is an expression by itself, for any precedence
    assert(!has_infix_rule(s4.upcoming().kind));
    lemma_name_alone(s4, first);
    lemma_name_alone(s4, second);
    assert(parse_prefix(s) == (Some(name_of(a)), s));
    assert(parse_prefix(s2) == (Some(name_of(b)), s2));
    assert(continues(s, Precedence::Lowest));
    assert(continues(s2, Precedence::Lowest));
    if first.rank() < second.rank() {
        let right = infix_of(name_of(b), o2, name_of(c));
        assert(continues(s2, first));
        assert(parse_infix(s2, name_of(b)) == (right, s4));
        assert(fold_infix(s4, first, right) == (right, s4));
        assert(fold_infix(s2, first, name_of(b)) == (right, s4));
        assert(parse_expression(s2, first) == (Some(right), s4));
        let whole = infix_of(name_of(a), o1, right);
        assert(parse_infix(s, name_of(a)) == (whole, s4));
        assert(fold_infix(s4, Precedence::Lowest, whole) == (whole, s4));
        assert(fold_infix(s, Precedence::Lowest, name_of(a)) == (whole, s4));
    } else {
        assert(!continues(s2, first));
        lemma_name_alone(s2, first);
        let left = infix_of(name_of(a), o1, name_of(b));
        assert(parse_infix(s, name_of(a)) == (left, s2));
        let whole = infix_of(left, o2, name_of(c));
        assert(parse_infix(s2, left) == (whole, s4));
        assert(fold_infix(s4, Precedence::Lowest, whole) == (whole, s4));
        assert(fold_infix(s2, Precedence::Lowest, left) == (whole, s4));
        assert(fold_infix(s, Precedence::Lowest, name_of(a)) == (whole, s4));
    }
}

/// A prefix operator binds tighter than any infix operator: in `p a o b` the
/// operand of `p` is `a` alone, and the prefix expression is the left side of
/// `o`.
pub proof fn lemma_prefix_binds_tightest(
    s: ParserState,
    p: TokenView,
    a: TokenView,
    o: TokenView,
    b: TokenView,
    tail: Seq<TokenView>,
)
    requires
        s.tokens == seq![p, a, o, b] + tail,
        p.kind == Kind::Bang || p.kind == Kind::Minus,
        a.kind == Kind::Ident,
        b.kind == Kind::Ident,
        has_infix_rule(o.kind),
        ends_expression(tail),
    ensures
        parse_expression(s, Precedence::Lowest).0 == Some(
            infix_of(prefix_of(p, name_of(a)), o, name_of(b)),
        ),
        parse_expression(s, Precedence::Lowest).1 == (ParserState {
            tokens: seq![b] + tail,
            errors: s.errors,
        }),
{
    let s1 = s.advance();
    let s3 = s1.advance().advance();
    assert(s1.tokens =~= seq![a, o, b] + tail);
    assert(s3.tokens =~= seq![b] + tail);
    assert(s3 == ParserState { tokens: seq![b] + tail, errors: s.errors });
    assert(!has_infix_rule(s3.upcoming().kind));
    lemma_name_alone(s3, Precedence::of(o.kind));
    assert(!continues(s1, Precedence::Prefix));
    lemma_name_alone(s1, Precedence::Prefix);
    let left = prefix_of(p, name_of(a));
    assert(parse_prefix(s) == (Some(left), s1));
    assert(continues(s1, Precedence::Lowest));
    let whole = infix_of(left, o, name_of(b));
    assert(parse_infix(s1, left) == (whole, s3));
    assert(fold_infix(s3, Precedence::Lowest, whole) == (whole, s3));
    assert(fold_infix(s1, Precedence::Lowest, left) == (whole, s3));
}

/// The tokens that an expression holds, in the order of the source: those of
/// the left side, the operator, and those of the right side.
pub open spec fn expression_tokens(e: ExpressionView) -> Seq<TokenView>
    decreases e,
{
    match e {
        ExpressionView::Identifier(v) => seq![v.token],
        ExpressionView::IntegerLiteral(v) => seq![v.token],
        ExpressionView::PrefixExpression(v) => seq![v.token] + (match v.right {
            Some(right) => expression_tokens(*right),
            None => Seq::empty(),
        }),
        ExpressionView::InfixExpression(v) => (match v.left {
            Some(left) => expression_tokens(*left),
            None => Seq::empty(),
        }) + seq![v.token] + (match v.right {
            Some(right) => expression_tokens(*right),
            None => Seq::empty(),
        }),
    }
}

/// Whether no diagnostic was given between two states of which the second
/// extends the first.
pub open spec fn is_clean(after: ParserState, before: ParserState) -> bool {
    after.errors.len() == before.errors.len()
}

/// An expression that is read without a diagnostic holds every token that
/// was read for it, in the order of the source, and no other: from the token
/// the parser stood at to the token it stands at afterwards.
pub proof fn lemma_expression_keeps_tokens(s: ParserState, min: Precedence)
    requires
        is_clean(parse_expression(s, min).1, s),
    ensures
        parse_expression(s, min).0 is Some,
        tokens_read(parse_expression(s, min).1, s) < s.tokens.len(),
        expression_tokens(parse_expression(s, min).0->0) == s.tokens.take(
            tokens_read(parse_expression(s, min).1, s) + 1,
        ),
    decreases s.tokens.len(), 3nat,
{
    let (left, s1) = parse_prefix(s);
    lemma_prefix_extends(s);
    match left {
        Some(left) => {
            lemma_fold_extends(s1, min, left);
            lemma_prefix_keeps_tokens(s);
            lemma_fold_keeps_tokens(s1, min, left);
            let (e, s2) = fold_infix(s1, min, left);
            let first = tokens_read(s1, s);
            let more = tokens_read(s2, s1);
            assert(s.tokens.take(first + 1) + s1.tokens.subrange(1, more + 1) =~= s.tokens.take(
                first + more + 1,
            ));
        },
        None => {
            lemma_prefix_keeps_tokens(s);
        },
    }
}

/// The prefix part of an expression that is read without a diagnostic holds
/// every token that was read for it.
pub proof fn lemma_prefix_keeps_tokens(s: ParserState)
    requires
        is_clean(parse_prefix(s).1, s),
    ensures
        parse_prefix(s).0 is Some,
        tokens_read(parse_prefix(s).1, s) < s.tokens.len(),
        expression_tokens(parse_prefix(s).0->0) == s.tokens.take(
            tokens_read(parse_prefix(s).1, s) + 1,
        ),
    decreases s.tokens.len(), 2nat,
{
    let token = s.current();
    if token.kind == Kind::Ident || token.kind == Kind::Number {
        assert(s.tokens.take(1) =~= seq![token]);
    } else if token.kind == Kind::Bang || token.kind == Kind::Minus {
        let start = s.advance();
        lemma_steps_extend(s, Seq::empty());
        lemma_expression_extends(start, Precedence::Prefix);
        lemma_expression_keeps_tokens(start, Precedence::Prefix);
        let read = tokens_read(parse_expression(start, Precedence::Prefix).1, start);
        assert(seq![token] + start.tokens.take(read + 1) =~= s.tokens.take(read + 2));
    }
}

/// An expression folded with the operators that follow it, without a
/// diagnostic, holds the tokens it held and every token that was read since.
pub proof fn lemma_fold_keeps_tokens(s: ParserState, min: Precedence, left: ExpressionView)
    requires
        is_clean(fold_infix(s, min, left).1, s),
        s.tokens.len() > 0,
    ensures
        tokens_read(fold_infix(s, min, left).1, s) < s.tokens.len(),
        expression_tokens(fold_infix(s, min, left).0) == expression_tokens(left)
            + s.tokens.subrange(1, tokens_read(fold_infix(s, min, left).1, s) + 1),
    decreases s.tokens.len(), 1nat,
{
    if continues(s, min) {
        let (infix, s1) = parse_infix(s, left);
        lemma_infix_extends(s, left);
        lemma_fold_extends(s1, min, infix);
        lemma_infix_keeps_tokens(s, left);
        lemma_fold_keeps_tokens(s1, min, infix);
        let first = tokens_read(s1, s);
        let more = tokens_read(fold_infix(s1, min, infix).1, s1);
        assert(s.tokens.subrange(1, first + 1) + s1.tokens.subrange(1, more + 1)
            =~= s.tokens.subrange(1, first + more + 1));
    } else {
        assert(expression_tokens(left) + s.tokens.subrange(1, 1) =~= expression_tokens(left));
    }
}

/// An infix expression that is read without a diagnostic holds the tokens of
/// its left side, its operator, and every token read for its right side.
pub proof fn lemma_infix_keeps_tokens(s: ParserState, left: ExpressionView)
    requires
        has_infix_rule(s.upcoming().kind),
        is_clean(parse_infix(s, left).1, s),
    ensures
        tokens_read(parse_infix(s, left).1, s) < s.tokens.len(),
        expression_tokens(parse_infix(s, left).0) == expression_tokens(left) + s.tokens.subrange(
            1,
            tokens_read(parse_infix(s, left).1, s) + 1,
        ),
    decreases s.tokens.len(), 0nat,
{
    let start = s.advance().advance();
    let min = Precedence::of(s.upcoming().kind);
    lemma_expression_extends(start, min);
    lemma_expression_keeps_tokens(start, min);
    let read = tokens_read(parse_expression(start, min).1, start);
    assert(start.tokens =~= s.tokens.skip(2));
    assert(seq![s.upcoming()] + start.tokens.take(read + 1) =~= s.tokens.subrange(1, read + 3));
    assert(expression_tokens(left) + seq![s.upcoming()] + start.tokens.take(read + 1)
        =~= expression_tokens(left) + s.tokens.subrange(1, read + 3));
}

/// How tightly an expression holds together: an infix expression as tightly
/// as its operator binds, any other expression tighter than every operator.
pub open spec fn binding(e: ExpressionView) -> nat {
    match e {
        ExpressionView::InfixExpression(v) => Precedence::of(v.token.kind).rank(),
        _ => Precedence::Call.rank() + 1,
    }
}

/// Whether the operators of an expression nest by their precedence. The
/// operand of a prefix operator is no infix expression. The right side of an
/// infix operator binds tighter than the operator; the left side binds at
/// least as tightly, so that operators of equal precedence nest to the left.
/// The same holds within every operand.
pub open spec fn nests_by_precedence(e: ExpressionView) -> bool
    decreases e,
{
    match e {
        ExpressionView::Identifier(_) => true,
        ExpressionView::IntegerLiteral(_) => true,
        ExpressionView::PrefixExpression(v) => match v.right {
            Some(right) => nests_by_precedence(*right) && binding(*right)
                > Precedence::Prefix.rank(),
            None => true,
        },
        ExpressionView::InfixExpression(v) => {
            &&& match v.left {
                Some(left) => nests_by_precedence(*left) && binding(*left) >= binding(e),
                None => true,
            }
            &&& match v.right {
                Some(right) => nests_by_precedence(*right) && binding(*right) > binding(e),
                None => true,
            }
        },
    }
}

/// An expression that is read without a diagnostic nests its operators by
/// their precedence, binds tighter than `min`, and ends where no operator
/// that binds tighter than `min` follows.
pub proof fn lemma_expression_nests(s: ParserState, min: Precedence)
    requires
        is_clean(parse_expression(s, min).1, s),
    ensures
        parse_expression(s, min).0 is Some,
        nests_by_precedence(parse_expression(s, min).0->0),
        binding(parse_expression(s, min).0->0) > min.rank(),
        !continues(parse_expression(s, min).1, min),
    decreases s.tokens.len(), 3nat,
{
    let (left, s1) = parse_prefix(s);
    lemma_prefix_extends(s);
    match left {
        Some(left) => {
            lemma_fold_extends(s1, min, left);
            lemma_prefix_nests(s);
            lemma_fold_nests(s1, min, left);
        },
        None => {
            lemma_prefix_nests(s);
        },
    }
}

/// The prefix part of an expression that is read without a diagnostic nests
/// its operators by their precedence, and is no infix expression.
pub proof fn lemma_prefix_nests(s: ParserState)
    requires
        is_clean(parse_prefix(s).1, s),
    ensures
        parse_prefix(s).0 is Some,
        nests_by_precedence(parse_prefix(s).0->0),
        binding(parse_prefix(s).0->0) > Precedence::Call.rank(),
    decreases s.tokens.len(), 2nat,
{
    let token = s.current();
    if token.kind == Kind::Bang || token.kind == Kind::Minus {
        let start = s.advance();
        lemma_steps_extend(s, Seq::empty());
        lemma_expression_extends(start, Precedence::Prefix);
        lemma_expression_nests(start, Precedence::Prefix);
    }
}

/// An expression folded with the operators that follow it, without a
/// diagnostic, nests its operators by their precedence, if it did so before
/// and binds at least as tightly as the operator that follows it.
pub proof fn lemma_fold_nests(s: ParserState, min: Precedence, left: ExpressionView)
    requires
        is_clean(fold_infix(s, min, left).1, s),
        nests_by_precedence(left),
        binding(left) > min.rank(),
        continues(s, min) ==> Precedence::of(s.upcoming().kind).rank() <= binding(left),
    ensures
        nests_by_precedence(fold_infix(s, min, left).0),
        binding(fold_infix(s, min, left).0) > min.rank(),
        !continues(fold_infix(s, min, left).1, min),
    decreases s.tokens.len(), 1nat,
{
    if continues(s, min) {
        let (infix, s1) = parse_infix(s, left);
        lemma_infix_extends(s, left);
        lemma_fold_extends(s1, min, infix);
        lemma_infix_nests(s, left);
        lemma_fold_nests(s1, min, infix);
    }
}

/// An infix expression that is read without a diagnostic nests its operators
/// by their precedence, if its left side does and binds at least as tightly
/// as the operator; and no operator that binds tighter follows it.
pub proof fn lemma_infix_nests(s: ParserState, left: ExpressionView)
    requires
        has_infix_rule(s.upcoming().kind),
        is_clean(parse_infix(s, left).1, s),
        nests_by_precedence(left),
        Precedence::of(s.upcoming().kind).rank() <= binding(left),
    ensures
        nests_by_precedence(parse_infix(s, left).0),
        binding(parse_infix(s, left).0) == Precedence::of(s.upcoming().kind).rank(),
        !continues(parse_infix(s, left).1, Precedence::of(s.upcoming().kind)),
    decreases s.tokens.len(), 0nat,
{
    let start = s.advance().advance();
    let min = Precedence::of(s.upcoming().kind);
    lemma_expression_extends(start, min);
    lemma_expression_nests(start, min);
}

} // verus!
