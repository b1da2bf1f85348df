//! Tokens: the classified lexical units of the language.

use vstd::prelude::*;
use vstd::string::*;

verus! {

/// Classification of a lexical unit.
#[derive(Clone, Copy, PartialEq, Eq, Structural, Debug)]
pub enum Kind {
    Eof,
    Illegal,
    // identifiers, literals
    Ident,
    Number,
    // operators
    Assign,
    Plus,
    Minus,
    Asterisk,
    Slash,
    Bang,
    Lt,
    Gt,
    Eq,
    Neq,
    // delimiters
    Comma,
    Semicolon,
    Lparen,
    Rparen,
    Lbrace,
    Rbrace,
    // keywords
    Function,
    Let,
    Return,
    True,
    False,
    If,
    Else,
}

impl Default for Kind {
    fn default() -> (kind: Self)
        ensures
            kind == Kind::Eof,
    {
        Kind::Eof
    }
}

impl Kind {
    /// The display text of a kind: the symbol or keyword itself where the kind
    /// has a fixed spelling, a descriptive word otherwise.
    pub open spec fn text(self) -> Seq<char> {
        match self {
            Kind::Eof => "EOF"@,
            Kind::Illegal => "Illegal"@,
            Kind::Ident => "Identifier"@,
            Kind::Number => "number"@,
            Kind::Assign => "="@,
            Kind::Plus => "+"@,
            Kind::Asterisk => "*"@,
            Kind::Minus => "-"@,
            Kind::Slash => "/"@,
            Kind::Bang => "!"@,
            Kind::Lt => "<"@,
            Kind::Gt => ">"@,
            Kind::Eq => "=="@,
            Kind::Neq => "!="@,
            Kind::Comma => ","@,
            Kind::Semicolon => ";"@,
            Kind::Lparen => "("@,
            Kind::Rparen => ")"@,
            Kind::Lbrace => "{"@,
            Kind::Rbrace => "}"@,
            Kind::Function => "function"@,
            Kind::Let => "let"@,
            Kind::Return => "return"@,
            Kind::True => "true"@,
            Kind::False => "false"@,
            Kind::If => "if"@,
            Kind::Else => "else"@,
        }
    }

    /// The name of the variant, as diagnostics print it.
    pub open spec fn label(self) -> Seq<char> {
        match self {
            Kind::Eof => "Eof"@,
            Kind::Illegal => "Illegal"@,
            Kind::Ident => "Ident"@,
            Kind::Number => "Number"@,
            Kind::Assign => "Assign"@,
            Kind::Plus => "Plus"@,
            Kind::Minus => "Minus"@,
            Kind::Asterisk => "Asterisk"@,
            Kind::Slash => "Slash"@,
            Kind::Bang => "Bang"@,
            Kind::Lt => "Lt"@,
            Kind::Gt => "Gt"@,
            Kind::Eq => "Eq"@,
            Kind::Neq => "Neq"@,
            Kind::Comma => "Comma"@,
            Kind::Semicolon => "Semicolon"@,
            Kind::Lparen => "Lparen"@,
            Kind::Rparen => "Rparen"@,
            Kind::Lbrace => "Lbrace"@,
            Kind::Rbrace => "Rbrace"@,
            Kind::Function => "Function"@,
            Kind::Let => "Let"@,
            Kind::Return => "Return"@,
            Kind::True => "True"@,
            Kind::False => "False"@,
            Kind::If => "If"@,
            Kind::Else => "Else"@,
        }
    }

    /// The kind of a word: the keyword it spells, or a plain identifier.
    /// Only an exact match makes a keyword.
    pub open spec fn of_word(word: Seq<char>) -> Kind {
        if word == "function"@ {
            Kind::Function
        } else if word == "let"@ {
            Kind::Let
        } else if word == "return"@ {
            Kind::Return
        } else if word == "true"@ {
            Kind::True
        } else if word == "false"@ {
            Kind::False
        } else if word == "if"@ {
            Kind::If
        } else if word == "else"@ {
            Kind::Else
        } else {
            Kind::Ident
        }
    }

    pub fn to_str(&self) -> (s: &'static str)
        ensures
            s@ == self.text(),
    {
        match self {
            Kind::Eof => "EOF",
            Kind::Illegal => "Illegal",
            Kind::Ident => "Identifier",
            Kind::Number => "number",
            Kind::Assign => "=",
            Kind::Plus => "+",
            Kind::Asterisk => "*",
            Kind::Minus => "-",
            Kind::Slash => "/",
            Kind::Bang => "!",
            Kind::Lt => "<",
            Kind::Gt => ">",
            Kind::Eq => "==",
            Kind::Neq => "!=",
            Kind::Comma => ",",
            Kind::Semicolon => ";",
            Kind::Lparen => "(",
            Kind::Rparen => ")",
            Kind::Lbrace => "{",
            Kind::Rbrace => "}",
            Kind::Function => "function",
            Kind::Let => "let",
            Kind::Return => "return",
            Kind::True => "true",
            Kind::False => "false",
            Kind::If => "if",
            Kind::Else => "else",
        }
    }

    /// The variant's name, for diagnostics.
    pub fn name(&self) -> (s: &'static str)
        ensures
            s@ == self.label(),
    {
        match self {
            Kind::Eof => "Eof",
            Kind::Illegal => "Illegal",
            Kind::Ident => "Ident",
            Kind::Number => "Number",
            Kind::Assign => "Assign",
            Kind::Plus => "Plus",
            Kind::Minus => "Minus",
            Kind::Asterisk => "Asterisk",
            Kind::Slash => "Slash",
            Kind::Bang => "Bang",
            Kind::Lt => "Lt",
            Kind::Gt => "Gt",
            Kind::Eq => "Eq",
            Kind::Neq => "Neq",
            Kind::Comma => "Comma",
            Kind::Semicolon => "Semicolon",
            Kind::Lparen => "Lparen",
            Kind::Rparen => "Rparen",
            Kind::Lbrace => "Lbrace",
            Kind::Rbrace => "Rbrace",
            Kind::Function => "Function",
            Kind::Let => "Let",
            Kind::Return => "Return",
            Kind::True => "True",
            Kind::False => "False",
            Kind::If => "If",
            Kind::Else => "Else",
        }
    }

    /// Checks if given identifier is keyword
    pub fn lookup_ident(ident: &str) -> (kind: Self)
        ensures
            kind == Kind::of_word(ident@),
    {
        if same_text(ident, "function") {
            Kind::Function
        } else if same_text(ident, "let") {
            Kind::Let
        } else if same_text(ident, "return") {
            Kind::Return
        } else if same_text(ident, "true") {
            Kind::True
        } else if same_text(ident, "false") {
            Kind::False
        } else if same_text(ident, "if") {
            Kind::If
        } else if same_text(ident, "else") {
            Kind::Else
        } else {
            Kind::Ident
        }
    }
}

/// Whether two string slices hold the same characters.
pub fn same_text(a: &str, b: &str) -> (same: bool)
    ensures
        same == (a@ == b@),
{
    let n: usize = a.unicode_len();
    if n != b.unicode_len() {
        return false;
    }
    let mut i: usize = 0;
    while i < n
        invariant
            i <= n,
            n == a@.len(),
            n == b@.len(),
            forall|j: int| 0 <= j < i ==> a@[j] == b@[j],
        decreases n - i,
    {
        if a.get_char(i) != b.get_char(i) {
            return false;
        }
        i = i + 1;
    }
    assert(a@ =~= b@);
    true
}

/// What a token is, with its text as a sequence of characters.
pub struct TokenView {
    pub kind: Kind,
    pub literal: Seq<char>,
}

/// A lexical unit: its kind and the exact source text it was read from.
#[derive(Debug)]
pub struct Token {
    pub kind: Kind,
    pub literal: String,
}

impl View for Token {
    type V = TokenView;

    open spec fn view(&self) -> TokenView {
        TokenView { kind: self.kind, literal: self.literal@ }
    }
}

/// The token that marks the end of the input: it has no text.
pub open spec fn end_of_input() -> TokenView {
    TokenView { kind: Kind::Eof, literal: Seq::empty() }
}

impl Clone for Token {
    fn clone(&self) -> (token: Self)
        ensures
            token@ == self@,
    {
        Token { kind: self.kind, literal: self.literal.clone() }
    }
}

impl Default for Token {
    fn default() -> (token: Self)
        ensures
            token@ == end_of_input(),
    {
        Token { kind: Kind::Eof, literal: String::new() }
    }
}

} // verus!
