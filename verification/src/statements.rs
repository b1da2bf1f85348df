//! Laws of statements: how far an expression reaches within its statement,
//! where the parser stands after a statement, and what a program of `let`
//! statements parses to.

use crate::ast::{
    statement_text, ExpressionView, IdentifierView, LetStatementView, StatementView,
};
use crate::expressions::{ends_expression, lemma_name_alone};
use crate::grammar::{
    continues, expected_message, fold_infix, has_infix_rule, lemma_expression_extends,
    lemma_infix_extends, lemma_prefix_extends, parse_expression, parse_infix, parse_prefix,
    parse_program, parse_statement, skip_to_terminator, ParserState, Precedence,
};
use crate::token::{Kind, TokenView};
use vstd::prelude::*;

verus! {

/// Whether a token of this kind ends a statement.
pub open spec fn is_terminator(kind: Kind) -> bool {
    kind == Kind::Semicolon || kind == Kind::Eof
}

/// The number of tokens before the first one that ends a statement.
pub open spec fn statement_length(tokens: Seq<TokenView>) -> int
    decreases tokens.len(),
{
    if tokens.len() == 0 || is_terminator(tokens[0].kind) {
        0
    } else {
        1 + statement_length(tokens.drop_first())
    }
}

/// Whether the statement at the start of `tokens` is closed: the token after
/// its terminator, if there is one, is no infix operator.
pub open spec fn is_closed(tokens: Seq<TokenView>) -> bool {
    statement_length(tokens) + 1 < tokens.len() ==> !has_infix_rule(
        tokens[statement_length(tokens) + 1].kind,
    )
}

/// The number of tokens read between two states.
pub open spec fn tokens_read(after: ParserState, before: ParserState) -> int {
    before.tokens.len() - after.tokens.len()
}

/// The tokens before the terminator do not end a statement; the token at the
/// length of the statement, if there is one, does.
pub proof fn lemma_statement_length(tokens: Seq<TokenView>)
    ensures
        0 <= statement_length(tokens) <= tokens.len(),
        forall|i: int|
            0 <= i < statement_length(tokens) ==> !is_terminator((#[trigger] tokens[i]).kind),
        statement_length(tokens) < tokens.len() ==> is_terminator(
            tokens[statement_length(tokens)].kind,
        ),
    decreases tokens.len(),
{
    if !(tokens.len() == 0 || is_terminator(tokens[0].kind)) {
        let rest = tokens.drop_first();
        lemma_statement_length(rest);
        assert forall|i: int| 0 <= i < statement_length(tokens) implies !is_terminator(
            (#[trigger] tokens[i]).kind,
        ) by {
            if i > 0 {
                assert(tokens[i] == rest[i - 1]);
            }
        }
        if statement_length(tokens) < tokens.len() {
            assert(tokens[statement_length(tokens)] == rest[statement_length(rest)]);
        }
    }
}

/// The length of a statement is the offset of the first terminator.
pub proof fn lemma_statement_length_is(tokens: Seq<TokenView>, n: int)
    requires
        0 <= n <= tokens.len(),
        forall|i: int| 0 <= i < n ==> !is_terminator((#[trigger] tokens[i]).kind),
        n < tokens.len() ==> is_terminator(tokens[n].kind),
    ensures
        statement_length(tokens) == n,
{
    lemma_statement_length(tokens);
    let m = statement_length(tokens);
    if m < n {
        assert(!is_terminator(tokens[m].kind));
    }
    if n < m {
        assert(!is_terminator(tokens[n].kind));
    }
}

/// Within a statement, the tokens from offset `k` on make a statement that is
/// shorter by `k`, and that is closed if the whole statement is.
pub proof fn lemma_rest_of_statement(tokens: Seq<TokenView>, k: int)
    requires
        0 <= k <= statement_length(tokens),
    ensures
        statement_length(tokens.skip(k)) == statement_length(tokens) - k,
        is_closed(tokens) ==> is_closed(tokens.skip(k)),
{
    lemma_statement_length(tokens);
    let n = statement_length(tokens);
    let rest = tokens.skip(k);
    assert forall|i: int| 0 <= i < n - k implies !is_terminator((#[trigger] rest[i]).kind) by {
        assert(rest[i] == tokens[i + k]);
    }
    lemma_statement_length_is(rest, n - k);
    if n + 1 < tokens.len() {
        assert(rest[n - k + 1] == tokens[n + 1]);
    }
}

/// Skipping to the terminator drops the tokens of the statement and nothing
/// else.
pub proof fn lemma_skip_to_terminator(s: ParserState)
    ensures
        skip_to_terminator(s) == (ParserState {
            tokens: s.tokens.skip(statement_length(s.tokens)),
            errors: s.errors,
        }),
    decreases s.tokens.len(),
{
    if s.at_terminator() {
        assert(s.tokens.skip(0) =~= s.tokens);
    } else {
        lemma_skip_to_terminator(s.advance());
        let rest = s.tokens.drop_first();
        lemma_statement_length(rest);
        assert(rest.skip(statement_length(rest)) =~= s.tokens.skip(
            statement_length(s.tokens),
        ));
    }
}

/// An expression in a closed statement ends within the statement: reading it
/// takes no terminator.
pub proof fn lemma_expression_within_statement(s: ParserState, min: Precedence)
    requires
        is_closed(s.tokens),
    ensures
        tokens_read(parse_expression(s, min).1, s) <= statement_length(s.tokens),
    decreases s.tokens.len(), 3nat,
{
    let (left, s1) = parse_prefix(s);
    lemma_prefix_within_statement(s);
    lemma_prefix_extends(s);
    match left {
        Some(left) => {
            lemma_rest_of_statement(s.tokens, tokens_read(s1, s));
            lemma_fold_within_statement(s1, min, left);
        },
        None => {},
    }
}

/// The prefix part of an expression in a closed statement ends within the
/// statement.
pub proof fn lemma_prefix_within_statement(s: ParserState)
    requires
        is_closed(s.tokens),
    ensures
        tokens_read(parse_prefix(s).1, s) <= statement_length(s.tokens),
    decreases s.tokens.len(), 2nat,
{
    let token = s.current();
    lemma_statement_length(s.tokens);
    if token.kind == Kind::Bang || token.kind == Kind::Minus {
        lemma_statement_length(s.tokens.drop_first());
        assert(s.tokens.drop_first() =~= s.tokens.skip(1));
        lemma_rest_of_statement(s.tokens, 1);
        lemma_expression_within_statement(s.advance(), Precedence::Prefix);
    }
}

/// Folding infix operators in a closed statement ends within the statement.
pub proof fn lemma_fold_within_statement(s: ParserState, min: Precedence, left: ExpressionView)
    requires
        is_closed(s.tokens),
    ensures
        tokens_read(fold_infix(s, min, left).1, s) <= statement_length(s.tokens),
    decreases s.tokens.len(), 1nat,
{
    lemma_statement_length(s.tokens);
    if continues(s, min) {
        let (infix, s1) = parse_infix(s, left);
        lemma_infix_within_statement(s, left);
        lemma_infix_extends(s, left);
        lemma_rest_of_statement(s.tokens, tokens_read(s1, s));
        lemma_fold_within_statement(s1, min, infix);
    }
}

/// An operator and its right side in a closed statement end within the
/// statement.
pub proof fn lemma_infix_within_statement(s: ParserState, left: ExpressionView)
    requires
        is_closed(s.tokens),
        has_infix_rule(s.upcoming().kind),
    ensures
        tokens_read(parse_infix(s, left).1, s) <= statement_length(s.tokens),
        statement_length(s.tokens) >= 2,
    decreases s.tokens.len(), 0nat,
{
    lemma_statement_length(s.tokens);
    assert(s.tokens.len() >= 2);
    assert(!is_terminator(s.tokens[1].kind));
    assert(statement_length(s.tokens) >= 2);
    let s2 = s.advance().advance();
    assert(s2.tokens =~= s.tokens.skip(2));
    lemma_rest_of_statement(s.tokens, 2);
    lemma_expression_within_statement(s2, Precedence::of(s.upcoming().kind));
}

/// The tokens of a `let` statement: the keyword, the name, `=`, the tokens of
/// the value, and the semicolon.
pub struct Binding {
    pub keyword: TokenView,
    pub name: TokenView,
    pub assign: TokenView,
    pub value: Seq<TokenView>,
    pub terminator: TokenView,
}

impl Binding {
    /// Whether each token is of the kind that its place asks for, and no
    /// token of the value ends a statement.
    pub open spec fn well_formed(self) -> bool {
        &&& self.keyword.kind == Kind::Let
        &&& self.name.kind == Kind::Ident
        &&& self.assign.kind == Kind::Assign
        &&& self.terminator.kind == Kind::Semicolon
        &&& forall|i: int|
            0 <= i < self.value.len() ==> !is_terminator((#[trigger] self.value[i]).kind)
    }

    /// The tokens of the statement, in order.
    pub open spec fn tokens(self) -> Seq<TokenView> {
        seq![self.keyword, self.name, self.assign] + self.value + seq![self.terminator]
    }

    /// Whether `statement` is the `let` statement that binds the name of
    /// `self`.
    pub open spec fn is_bound_by(self, statement: StatementView) -> bool {
        match statement {
            StatementView::LetStatement(v) => {
                &&& v.token == self.keyword
                &&& v.name == (IdentifierView { token: self.name, value: self.name.literal })
            },
            _ => false,
        }
    }
}

/// The tokens of a program of `let` statements.
pub open spec fn bindings_tokens(bindings: Seq<Binding>) -> Seq<TokenView>
    decreases bindings.len(),
{
    if bindings.len() == 0 {
        Seq::empty()
    } else {
        bindings[0].tokens() + bindings_tokens(bindings.drop_first())
    }
}

/// A well-formed `let` statement, followed by tokens that do not start with
/// an infix operator, parses to the binding of its name, with the value that
/// its tokens parse to; the parser then stands at its semicolon.
pub proof fn lemma_let_statement(s: ParserState, binding: Binding, tail: Seq<TokenView>)
    requires
        binding.well_formed(),
        s.tokens == binding.tokens() + tail,
        tail.len() > 0 ==> !has_infix_rule(tail[0].kind),
    ensures
        parse_statement(s).0 == Some(
            StatementView::LetStatement(
                LetStatementView {
                    token: binding.keyword,
                    name: IdentifierView { token: binding.name, value: binding.name.literal },
                    value: parse_expression(
                        ParserState {
                            tokens: binding.value + seq![binding.terminator] + tail,
                            errors: s.errors,
                        },
                        Precedence::Lowest,
                    ).0,
                },
            ),
        ),
        parse_statement(s).1.tokens == seq![binding.terminator] + tail,
{
    let body = binding.value + seq![binding.terminator] + tail;
    let start = ParserState { tokens: body, errors: s.errors };
    let s1 = s.advance();
    assert(s1.advance().advance().tokens =~= body);
    assert(s1.advance().advance() == start);
    let length = binding.value.len() as int;
    assert forall|i: int| 0 <= i < length implies !is_terminator((#[trigger] body[i]).kind) by {
        assert(body[i] == binding.value[i]);
    }
    lemma_statement_length_is(body, length);
    if length + 1 < body.len() {
        assert(body[length + 1] == tail[0]);
    }
    let after = parse_expression(start, Precedence::Lowest).1;
    lemma_expression_within_statement(start, Precedence::Lowest);
    lemma_expression_extends(start, Precedence::Lowest);
    let read = tokens_read(after, start);
    lemma_rest_of_statement(body, read);
    lemma_skip_to_terminator(after);
    assert(body.skip(read).skip(length - read) =~= seq![binding.terminator] + tail);
}

/// A `let` statement that binds a name to a name renders as it was written,
/// with one space around the `=`: the text of `let <name> = <value>;` is
/// the literals of its tokens in this very form.
pub proof fn lemma_let_round_trip(
    s: ParserState,
    keyword: TokenView,
    name: TokenView,
    assign: TokenView,
    value: TokenView,
    terminator: TokenView,
    tail: Seq<TokenView>,
)
    requires
        s.tokens == seq![keyword, name, assign, value, terminator] + tail,
        keyword.kind == Kind::Let,
        name.kind == Kind::Ident,
        assign.kind == Kind::Assign,
        value.kind == Kind::Ident,
        terminator.kind == Kind::Semicolon,
        ends_expression(tail),
    ensures
        parse_statement(s).0 is Some,
        statement_text(parse_statement(s).0->0) == keyword.literal + " "@ + name.literal + " = "@
            + value.literal + ";"@,
        parse_statement(s).1 == (ParserState { tokens: seq![terminator] + tail, errors: s.errors }),
{
    let binding = Binding { keyword, name, assign, value: seq![value], terminator };
    assert(s.tokens =~= binding.tokens() + tail);
    lemma_let_statement(s, binding, tail);
    let start = ParserState { tokens: seq![value] + seq![terminator] + tail, errors: s.errors };
    assert(start.upcoming() == terminator);
    lemma_name_alone(start, Precedence::Lowest);
    assert(s.advance().advance().advance().tokens =~= start.tokens);
    let end = start.advance();
    assert(end.tokens =~= seq![terminator] + tail);
    assert(end.at_terminator());
    assert(skip_to_terminator(start) == skip_to_terminator(end));
    assert(parse_statement(s).1 == end);
}

/// A program of `n` well-formed `let` statements parses to `n` statements,
/// in the order of the source, each the binding of the name that its `let`
/// statement gives.
pub proof fn lemma_let_program(bindings: Seq<Binding>, errors: Seq<Seq<char>>)
    requires
        forall|i: int| 0 <= i < bindings.len() ==> (#[trigger] bindings[i]).well_formed(),
    ensures
        parse_program(ParserState { tokens: bindings_tokens(bindings), errors }).0.len()
            == bindings.len(),
        forall|i: int|
            0 <= i < bindings.len() ==> (#[trigger] bindings[i]).is_bound_by(
                parse_program(ParserState { tokens: bindings_tokens(bindings), errors }).0[i],
            ),
    decreases bindings.len(),
{
    let s = ParserState { tokens: bindings_tokens(bindings), errors };
    if bindings.len() > 0 {
        let first = bindings[0];
        let others = bindings.drop_first();
        let tail = bindings_tokens(others);
        assert(first.well_formed());
        if others.len() > 0 {
            assert(others[0].well_formed());
            assert(tail[0] == others[0].keyword);
        }
        lemma_let_statement(s, first, tail);
        let (statement, s1) = parse_statement(s);
        let s2 = s1.advance();
        assert(s2.tokens =~= tail);
        assert(s2 == ParserState { tokens: tail, errors: s2.errors });
        assert forall|i: int| 0 <= i < others.len() implies (#[trigger] others[i]).well_formed() by {
            assert(others[i] == bindings[i + 1]);
        }
        lemma_let_program(others, s2.errors);
        let rest = parse_program(s2).0;
        let all = parse_program(s).0;
        assert(all == seq![statement->0] + rest);
        assert forall|i: int| 0 <= i < bindings.len() implies (#[trigger] bindings[i]).is_bound_by(
            all[i],
        ) by {
            if i > 0 {
                assert(bindings[i] == others[i - 1]);
                assert(all[i] == rest[i - 1]);
            }
        }
    }
}

/// A `let` statement whose name is not followed by `=` gives the diagnostic
/// that `=` was expected, and no statement. The parse goes on after the
/// semicolon of the statement: what follows is read as if it stood alone.
pub proof fn lemma_let_without_assign(
    s: ParserState,
    keyword: TokenView,
    name: TokenView,
    others: Seq<TokenView>,
    terminator: TokenView,
    tail: Seq<TokenView>,
)
    requires
        s.tokens == seq![keyword, name] + others + seq![terminator] + tail,
        keyword.kind == Kind::Let,
        name.kind == Kind::Ident,
        terminator.kind == Kind::Semicolon,
        forall|i: int| 0 <= i < others.len() ==> !is_terminator((#[trigger] others[i]).kind),
        (others + seq![terminator])[0].kind != Kind::Assign,
    ensures
        parse_statement(s).0 is None,
        parse_program(s) == parse_program(
            ParserState {
                tokens: tail,
                errors: s.errors.push(
                    expected_message(Kind::Assign, (others + seq![terminator])[0].kind),
                ),
            },
        ),
{
    let s1 = s.advance();
    let found = (others + seq![terminator])[0];
    assert(s1.upcoming() == found);
    let reported = s1.report(expected_message(Kind::Assign, found.kind));
    let length = others.len() as int + 1;
    assert forall|i: int| 0 <= i < length implies !is_terminator(
        (#[trigger] reported.tokens[i]).kind,
    ) by {
        if i > 0 {
            assert(reported.tokens[i] == others[i - 1]);
        }
    }
    assert(reported.tokens[length] == terminator);
    lemma_statement_length_is(reported.tokens, length);
    lemma_skip_to_terminator(reported);
    let s2 = parse_statement(s).1;
    assert(s2 == skip_to_terminator(reported));
    assert(s2.tokens =~= seq![terminator] + tail);
    let s3 = s2.advance();
    assert(s3.tokens =~= tail);
    assert(s3 == ParserState { tokens: tail, errors: reported.errors });
    assert(Seq::<StatementView>::empty() + parse_program(s3).0 =~= parse_program(s3).0);
}

/// A `let` that is not followed by a name gives the diagnostic that a name
/// was expected, and no statement. The parse goes on after the semicolon of
/// the statement: what follows is read as if it stood alone.
pub proof fn lemma_let_without_name(
    s: ParserState,
    keyword: TokenView,
    others: Seq<TokenView>,
    terminator: TokenView,
    tail: Seq<TokenView>,
)
    requires
        s.tokens == seq![keyword] + others + seq![terminator] + tail,
        keyword.kind == Kind::Let,
        terminator.kind == Kind::Semicolon,
        forall|i: int| 0 <= i < others.len() ==> !is_terminator((#[trigger] others[i]).kind),
        (others + seq![terminator])[0].kind != Kind::Ident,
    ensures
        parse_statement(s).0 is None,
        parse_program(s) == parse_program(
            ParserState {
                tokens: tail,
                errors: s.errors.push(
                    expected_message(Kind::Ident, (others + seq![terminator])[0].kind),
                ),
            },
        ),
{
    let found = (others + seq![terminator])[0];
    assert(s.upcoming() == found);
    let reported = s.report(expected_message(Kind::Ident, found.kind));
    let length = others.len() as int + 1;
    assert forall|i: int| 0 <= i < length implies !is_terminator(
        (#[trigger] reported.tokens[i]).kind,
    ) by {
        if i > 0 {
            assert(reported.tokens[i] == others[i - 1]);
        }
    }
    assert(reported.tokens[length] == terminator);
    lemma_statement_length_is(reported.tokens, length);
    lemma_skip_to_terminator(reported);
    let s2 = parse_statement(s).1;
    assert(s2 == skip_to_terminator(reported));
    assert(s2.tokens =~= seq![terminator] + tail);
    let s3 = s2.advance();
    assert(s3.tokens =~= tail);
    assert(s3 == ParserState { tokens: tail, errors: reported.errors });
    assert(Seq::<StatementView>::empty() + parse_program(s3).0 =~= parse_program(s3).0);
}

} // verus!
