//! The scanning rules, stated over the source text as a sequence of
//! characters: where a lexeme starts and ends, which token it makes, and the
//! tokens of a whole text.

use crate::token::{end_of_input, Kind, TokenView};
use vstd::prelude::*;
use vstd::string::*;

verus! {

/// Space, tab, newline and carriage return separate lexemes.
pub open spec fn is_whitespace(c: char) -> bool {
    c == ' ' || c == '\t' || c == '\n' || c == '\r'
}

/// An ASCII letter or the underscore.
pub open spec fn is_letter(c: char) -> bool {
    ('a' <= c && c <= 'z') || ('A' <= c && c <= 'Z') || c == '_'
}

/// A decimal digit.
pub open spec fn is_digit(c: char) -> bool {
    '0' <= c && c <= '9'
}

/// The classes of characters that form runs.
pub enum CharClass {
    Blank,
    Letter,
    Digit,
}

impl CharClass {
    pub open spec fn holds(self, c: char) -> bool {
        match self {
            CharClass::Blank => is_whitespace(c),
            CharClass::Letter => is_letter(c),
            CharClass::Digit => is_digit(c),
        }
    }
}

/// The end of the longest run of characters of `class` that starts at `from`:
/// the first offset at or after `from` whose character is not of the class,
/// or the length of the text.
pub open spec fn run_end(text: Seq<char>, from: int, class: CharClass) -> int
    decreases text.len() - from,
{
    if 0 <= from < text.len() && class.holds(text[from]) {
        run_end(text, from + 1, class)
    } else {
        from
    }
}

/// The kind of a lexeme that is a single character, neither letter nor digit.
pub open spec fn symbol_kind(c: char) -> Kind {
    if c == ';' {
        Kind::Semicolon
    } else if c == '(' {
        Kind::Lparen
    } else if c == ')' {
        Kind::Rparen
    } else if c == ',' {
        Kind::Comma
    } else if c == '+' {
        Kind::Plus
    } else if c == '{' {
        Kind::Lbrace
    } else if c == '}' {
        Kind::Rbrace
    } else if c == '-' {
        Kind::Minus
    } else if c == '!' {
        Kind::Bang
    } else if c == '*' {
        Kind::Asterisk
    } else if c == '/' {
        Kind::Slash
    } else if c == '<' {
        Kind::Lt
    } else if c == '>' {
        Kind::Gt
    } else if c == '=' {
        Kind::Assign
    } else {
        Kind::Illegal
    }
}

/// Whether the two characters at `start` spell `==` or `!=`.
pub open spec fn is_double(text: Seq<char>, start: int) -> bool {
    &&& 0 <= start
    &&& start + 1 < text.len()
    &&& (text[start] == '=' || text[start] == '!')
    &&& text[start + 1] == '='
}

/// The offset just past the lexeme that starts at `start`, where `start` is
/// the offset of a character that is not whitespace.
pub open spec fn lexeme_end(text: Seq<char>, start: int) -> int {
    let c = text[start];
    if is_letter(c) {
        run_end(text, start, CharClass::Letter)
    } else if is_digit(c) {
        run_end(text, start, CharClass::Digit)
    } else if is_double(text, start) {
        start + 2
    } else {
        start + 1
    }
}

/// The kind of the lexeme that starts at `start`.
pub open spec fn lexeme_kind(text: Seq<char>, start: int) -> Kind {
    let c = text[start];
    if is_letter(c) {
        Kind::of_word(text.subrange(start, lexeme_end(text, start)))
    } else if is_digit(c) {
        Kind::Number
    } else if is_double(text, start) {
        if c == '=' {
            Kind::Eq
        } else {
            Kind::Neq
        }
    } else {
        symbol_kind(c)
    }
}

/// The token read from the lexeme that starts at `start`: its literal is the
/// exact text of the lexeme.
pub open spec fn token_at(text: Seq<char>, start: int) -> TokenView {
    TokenView {
        kind: lexeme_kind(text, start),
        literal: text.subrange(start, lexeme_end(text, start)),
    }
}

/// Where the next lexeme at or after `pos` starts: whitespace is skipped.
pub open spec fn lexeme_start(text: Seq<char>, pos: int) -> int {
    run_end(text, pos, CharClass::Blank)
}

/// Whether nothing but whitespace is left at or after `pos`.
pub open spec fn exhausted(text: Seq<char>, pos: int) -> bool {
    lexeme_start(text, pos) >= text.len()
}

/// The token that a scan from `pos` yields: the end-of-input token once the
/// text is exhausted, the token of the next lexeme otherwise.
pub open spec fn scanned_token(text: Seq<char>, pos: int) -> TokenView {
    if exhausted(text, pos) {
        end_of_input()
    } else {
        token_at(text, lexeme_start(text, pos))
    }
}

/// The offset at which a scan from `pos` stops: just past the lexeme it read,
/// or past the trailing whitespace when the text is exhausted.
pub open spec fn scanned_offset(text: Seq<char>, pos: int) -> int {
    if exhausted(text, pos) {
        lexeme_start(text, pos)
    } else {
        lexeme_end(text, lexeme_start(text, pos))
    }
}

/// A run ends at or after its start and within the text, every character in
/// it is of the class, and the character that follows it is not.
pub proof fn lemma_run_end(text: Seq<char>, from: int, class: CharClass)
    requires
        0 <= from <= text.len(),
    ensures
        from <= run_end(text, from, class) <= text.len(),
        forall|i: int| from <= i < run_end(text, from, class) ==> class.holds(#[trigger] text[i]),
        run_end(text, from, class) < text.len() ==> !class.holds(
            text[run_end(text, from, class)],
        ),
    decreases text.len() - from,
{
    if from < text.len() && class.holds(text[from]) {
        lemma_run_end(text, from + 1, class);
    }
}

/// A lexeme is not empty and lies within the text.
pub proof fn lemma_lexeme_end(text: Seq<char>, start: int)
    requires
        0 <= start < text.len(),
    ensures
        start < lexeme_end(text, start) <= text.len(),
{
    lemma_run_end(text, start + 1, CharClass::Letter);
    lemma_run_end(text, start + 1, CharClass::Digit);
}

/// A scan never moves backwards, and stays within the text.
pub proof fn lemma_scanned_offset(text: Seq<char>, pos: int)
    requires
        0 <= pos <= text.len(),
    ensures
        pos <= scanned_offset(text, pos) <= text.len(),
        !exhausted(text, pos) ==> pos < scanned_offset(text, pos),
{
    lemma_run_end(text, pos, CharClass::Blank);
    if !exhausted(text, pos) {
        lemma_lexeme_end(text, lexeme_start(text, pos));
    }
}

/// The tokens that repeated scans from `pos` yield before the end-of-input
/// token, in order.
pub open spec fn tokens_from(text: Seq<char>, pos: int) -> Seq<TokenView>
    decreases text.len() - pos,
    via tokens_from_decreases
{
    if 0 <= pos <= text.len() && !exhausted(text, pos) {
        seq![scanned_token(text, pos)] + tokens_from(text, scanned_offset(text, pos))
    } else {
        Seq::empty()
    }
}

#[via_fn]
proof fn tokens_from_decreases(text: Seq<char>, pos: int) {
    if 0 <= pos <= text.len() && !exhausted(text, pos) {
        lemma_scanned_offset(text, pos);
    }
}

/// The offset that `n` scans in a row reach from `pos`.
pub open spec fn offset_after(text: Seq<char>, pos: int, n: nat) -> int
    decreases n,
{
    if n == 0 {
        pos
    } else {
        scanned_offset(text, offset_after(text, pos, (n - 1) as nat))
    }
}

/// The token that the scan numbered `n` yields, counting from 0 at `pos`.
pub open spec fn nth_token(text: Seq<char>, pos: int, n: nat) -> TokenView {
    scanned_token(text, offset_after(text, pos, n))
}

/// The literals of `tokens`, one after the other.
pub open spec fn literals(tokens: Seq<TokenView>) -> Seq<char>
    decreases tokens.len(),
{
    if tokens.len() == 0 {
        Seq::empty()
    } else {
        tokens[0].literal + literals(tokens.drop_first())
    }
}

/// `text` with its whitespace taken out.
pub open spec fn without_whitespace(text: Seq<char>) -> Seq<char> {
    text.filter(|c: char| !is_whitespace(c))
}

/// A lexeme never yields the end-of-input token, its literal is not empty,
/// and no character of it is whitespace.
pub proof fn lemma_token_at(text: Seq<char>, start: int)
    requires
        0 <= start < text.len(),
        !is_whitespace(text[start]),
    ensures
        token_at(text, start).kind != Kind::Eof,
        token_at(text, start).literal.len() > 0,
        forall|i: int|
            0 <= i < token_at(text, start).literal.len() ==> !is_whitespace(
                #[trigger] token_at(text, start).literal[i],
            ),
{
    lemma_lexeme_end(text, start);
    lemma_run_end(text, start, CharClass::Letter);
    lemma_run_end(text, start, CharClass::Digit);
}

/// A token of a kind with a fixed spelling, a keyword, an operator or a
/// delimiter, has that spelling as its literal.
pub proof fn lemma_fixed_spelling(text: Seq<char>, start: int)
    requires
        0 <= start < text.len(),
        !is_whitespace(text[start]),
        token_at(text, start).kind != Kind::Illegal,
        token_at(text, start).kind != Kind::Ident,
        token_at(text, start).kind != Kind::Number,
    ensures
        token_at(text, start).literal == token_at(text, start).kind.text(),
{
    let token = token_at(text, start);
    lemma_lexeme_end(text, start);
    if !is_letter(text[start]) {
        reveal_strlit("=");
        reveal_strlit("+");
        reveal_strlit("-");
        reveal_strlit("*");
        reveal_strlit("/");
        reveal_strlit("!");
        reveal_strlit("<");
        reveal_strlit(">");
        reveal_strlit("==");
        reveal_strlit("!=");
        reveal_strlit(",");
        reveal_strlit(";");
        reveal_strlit("(");
        reveal_strlit(")");
        reveal_strlit("{");
        reveal_strlit("}");
        assert(token.literal =~= token.kind.text());
    }
}

/// A scan moves the cursor by the whitespace it skips and by the width of
/// the token it yields, and by nothing else.
pub proof fn lemma_scan_width(text: Seq<char>, pos: int)
    requires
        0 <= pos <= text.len(),
    ensures
        scanned_offset(text, pos) == lexeme_start(text, pos) + scanned_token(
            text,
            pos,
        ).literal.len(),
        scanned_token(text, pos).literal == text.subrange(
            lexeme_start(text, pos),
            scanned_offset(text, pos),
        ),
{
    lemma_run_end(text, pos, CharClass::Blank);
    let start = lexeme_start(text, pos);
    if !exhausted(text, pos) {
        lemma_lexeme_end(text, start);
    } else {
        assert(text.subrange(start, start) =~= Seq::<char>::empty());
    }
}

/// A scan yields the end-of-input token exactly when the text is exhausted.
pub proof fn lemma_end_of_input_iff_exhausted(text: Seq<char>, pos: int)
    requires
        0 <= pos <= text.len(),
    ensures
        scanned_token(text, pos).kind == Kind::Eof <==> exhausted(text, pos),
        exhausted(text, pos) ==> scanned_token(text, pos) == end_of_input(),
{
    lemma_run_end(text, pos, CharClass::Blank);
    if !exhausted(text, pos) {
        lemma_token_at(text, lexeme_start(text, pos));
    }
}

/// The end of the input is stable: once a scan has found the text exhausted,
/// the cursor rests at the end of the text, and every later scan finds the
/// text exhausted again, yields the end-of-input token and leaves the cursor
/// where it is.
pub proof fn lemma_end_of_input_is_stable(text: Seq<char>, pos: int, n: nat)
    requires
        0 <= pos <= text.len(),
        exhausted(text, pos),
    ensures
        nth_token(text, pos, n) == end_of_input(),
        offset_after(text, pos, n + 1) == text.len(),
        exhausted(text, offset_after(text, pos, n)),
    decreases n,
{
    lemma_run_end(text, pos, CharClass::Blank);
    if n > 0 {
        lemma_end_of_input_is_stable(text, pos, (n - 1) as nat);
        let at = offset_after(text, pos, n);
        assert(at == text.len());
        assert(offset_after(text, pos, n + 1) == scanned_offset(text, at));
    } else {
        assert(offset_after(text, pos, 1) == scanned_offset(text, offset_after(text, pos, 0)));
    }
}

/// The end of the input is reachable: the scans from `pos` yield the tokens
/// of `tokens_from` one by one, and the scan after the last of them yields
/// the end-of-input token.
pub proof fn lemma_scans_yield_tokens(text: Seq<char>, pos: int, n: nat)
    requires
        0 <= pos <= text.len(),
        n <= tokens_from(text, pos).len(),
    ensures
        0 <= offset_after(text, pos, n) <= text.len(),
        tokens_from(text, offset_after(text, pos, n)) == tokens_from(text, pos).skip(n as int),
        n < tokens_from(text, pos).len() ==> nth_token(text, pos, n) == tokens_from(text, pos)[
            n as int
        ],
        n == tokens_from(text, pos).len() ==> nth_token(text, pos, n) == end_of_input(),
    decreases n,
{
    let all = tokens_from(text, pos);
    if n == 0 {
        assert(all.skip(0) =~= all);
    } else {
        let m = (n - 1) as nat;
        lemma_scans_yield_tokens(text, pos, m);
        let at = offset_after(text, pos, m);
        lemma_scanned_offset(text, at);
        assert(tokens_from(text, at) == all.skip(m as int));
        let next = scanned_offset(text, at);
        assert(!exhausted(text, at));
        assert(tokens_from(text, at) == seq![scanned_token(text, at)] + tokens_from(text, next));
        assert(offset_after(text, pos, n) == next);
        assert(tokens_from(text, next) =~= all.skip(m as int).skip(1));
        assert(all.skip(m as int).skip(1) =~= all.skip(n as int));
    }
    let here = offset_after(text, pos, n);
    lemma_end_of_input_iff_exhausted(text, here);
    if n < all.len() {
        assert(all.skip(n as int)[0] == all[n as int]);
    }
}

/// Filtering keeps a sequence whose every element passes.
proof fn lemma_filter_keeps_all<A>(s: Seq<A>, pred: spec_fn(A) -> bool)
    requires
        forall|i: int| 0 <= i < s.len() ==> pred(#[trigger] s[i]),
    ensures
        s.filter(pred) == s,
    decreases s.len(),
{
    reveal(Seq::filter);
    if s.len() > 0 {
        lemma_filter_keeps_all(s.drop_last(), pred);
        assert(s.drop_last().push(s.last()) =~= s);
    }
}

/// Filtering empties a sequence none of whose elements passes.
proof fn lemma_filter_drops_all<A>(s: Seq<A>, pred: spec_fn(A) -> bool)
    requires
        forall|i: int| 0 <= i < s.len() ==> !pred(#[trigger] s[i]),
    ensures
        s.filter(pred) == Seq::<A>::empty(),
    decreases s.len(),
{
    reveal(Seq::filter);
    if s.len() > 0 {
        lemma_filter_drops_all(s.drop_last(), pred);
    }
}

/// The literals of the tokens from `pos` on are the text from `pos` on
/// without its whitespace.
pub proof fn lemma_literals_from(text: Seq<char>, pos: int)
    requires
        0 <= pos <= text.len(),
    ensures
        literals(tokens_from(text, pos)) == without_whitespace(
            text.subrange(pos, text.len() as int),
        ),
    decreases text.len() - pos,
{
    let keep = |c: char| !is_whitespace(c);
    let len = text.len() as int;
    let start = lexeme_start(text, pos);
    lemma_run_end(text, pos, CharClass::Blank);
    let blanks = text.subrange(pos, start);
    lemma_filter_drops_all(blanks, keep);
    if exhausted(text, pos) {
        assert(text.subrange(pos, len) =~= blanks);
    } else {
        let end = lexeme_end(text, start);
        lemma_lexeme_end(text, start);
        lemma_token_at(text, start);
        let lexeme = text.subrange(start, end);
        let rest = text.subrange(end, len);
        lemma_filter_keeps_all(lexeme, keep);
        lemma_literals_from(text, end);
        assert(text.subrange(pos, len) =~= (blanks + lexeme) + rest);
        Seq::filter_distributes_over_add(blanks + lexeme, rest, keep);
        Seq::filter_distributes_over_add(blanks, lexeme, keep);
        let tokens = tokens_from(text, pos);
        assert(tokens.drop_first() =~= tokens_from(text, end));
        assert(literals(tokens) == lexeme + literals(tokens_from(text, end)));
        assert(blanks.filter(keep) + lexeme + rest.filter(keep) =~= lexeme + rest.filter(keep));
    }
}

/// Scanning loses nothing but whitespace: the literals of all the tokens of
/// a text, one after the other, are the text without its whitespace.
pub proof fn lemma_literals_cover_text(text: Seq<char>)
    ensures
        literals(tokens_from(text, 0)) == without_whitespace(text),
{
    lemma_literals_from(text, 0);
    assert(text.subrange(0, text.len() as int) =~= text);
}

} // verus!
