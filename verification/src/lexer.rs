//! The scanner: a cursor over the source text that yields one token per call.

use crate::scan::{
    is_digit, is_double, is_letter, lemma_end_of_input_iff_exhausted, lemma_lexeme_end,
    lemma_run_end, lemma_scanned_offset, lexeme_end, lexeme_start, run_end, scanned_offset,
    scanned_token, symbol_kind, tokens_from, CharClass,
};
use crate::token::{Kind, Token, TokenView};
use vstd::prelude::*;
use vstd::string::*;

verus! {

/// A cursor over a source text.
pub struct Lexer {
    input: String,
    /// number of characters in `input`
    len: usize,
    /// offset of the current character; `len` once the input is used up
    position: usize,
}

impl Lexer {
    #[verifier::type_invariant]
    spec fn well_formed(&self) -> bool {
        &&& self.len == self.input@.len()
        &&& self.position <= self.len
    }

    /// The source text.
    pub closed spec fn text(&self) -> Seq<char> {
        self.input@
    }

    /// The offset of the current character.
    pub closed spec fn offset(&self) -> int {
        self.position as int
    }

    /// The offset of the character that is read next: one past the current.
    pub open spec fn read_offset(&self) -> int {
        self.offset() + 1
    }

    /// The current character; `None` is the end-of-input sentinel, which
    /// stands exactly when the offset has passed the last character.
    pub open spec fn current(&self) -> Option<char> {
        if 0 <= self.offset() < self.text().len() {
            Some(self.text()[self.offset()])
        } else {
            None
        }
    }

    /// The tokens still to come, up to the end of the input.
    pub open spec fn remaining_tokens(&self) -> Seq<TokenView> {
        tokens_from(self.text(), self.offset())
    }

    /// A scanner at the start of `input`.
    pub fn new(input: &str) -> (lexer: Self)
        ensures
            lexer.text() == input@,
            lexer.offset() == 0,
    {
        let len: usize = input.unicode_len();
        Lexer { input: input.to_owned(), len, position: 0 }
    }

    /// Reads the next token and moves past it. Whitespace before the token is
    /// skipped. Once the input is exhausted every call returns the
    /// end-of-input token, and the cursor rests at the end of the text.
    pub fn next_token(&mut self) -> (token: Token)
        ensures
            final(self).text() == old(self).text(),
            token@ == scanned_token(old(self).text(), old(self).offset()),
            final(self).offset() == scanned_offset(old(self).text(), old(self).offset()),
            0 <= old(self).offset() <= final(self).offset() <= old(self).text().len(),
            token@.kind == Kind::Eof <==> old(self).remaining_tokens().len() == 0,
            token@.kind == Kind::Eof ==> final(self).remaining_tokens().len() == 0,
            token@.kind != Kind::Eof ==> old(self).remaining_tokens() == seq![token@]
                + final(self).remaining_tokens(),
    {
        proof {
            use_type_invariant(&*self);
            lemma_run_end(self.text(), self.offset(), CharClass::Blank);
            lemma_end_of_input_iff_exhausted(self.text(), self.offset());
            lemma_scanned_offset(self.text(), self.offset());
            lemma_end_of_input_iff_exhausted(
                self.text(),
                scanned_offset(self.text(), self.offset()),
            );
        }
        self.skip_whitespace();
        proof {
            use_type_invariant(&*self);
        }
        let ghost start = self.offset();
        match self.current_char() {
            None => Token::default(),
            Some(ch) => {
                proof {
                    lemma_lexeme_end(self.text(), start);
                }
                if self.is_letter(ch) {
                    let literal = self.read_identifier();
                    let kind = Kind::lookup_ident(literal.as_str());
                    Token { kind, literal }
                } else if self.is_digit(ch) {
                    let literal = self.read_number();
                    Token { kind: Kind::Number, literal }
                } else if ch == '=' {
                    self.read_operator(Kind::Assign, Kind::Eq)
                } else if ch == '!' {
                    self.read_operator(Kind::Bang, Kind::Neq)
                } else {
                    let kind = Self::symbol(ch);
                    let token = self.new_token(kind, 1);
                    self.read_char();
                    token
                }
            },
        }
    }

    /// The kind of a one-character lexeme that is neither letter nor digit.
    fn symbol(ch: char) -> (kind: Kind)
        ensures
            kind == symbol_kind(ch),
    {
        match ch {
            ';' => Kind::Semicolon,
            '(' => Kind::Lparen,
            ')' => Kind::Rparen,
            ',' => Kind::Comma,
            '+' => Kind::Plus,
            '{' => Kind::Lbrace,
            '}' => Kind::Rbrace,
            '-' => Kind::Minus,
            '!' => Kind::Bang,
            '*' => Kind::Asterisk,
            '/' => Kind::Slash,
            '<' => Kind::Lt,
            '>' => Kind::Gt,
            '=' => Kind::Assign,
            _ => Kind::Illegal,
        }
    }

    /// Reads `=` or `!`, alone or followed by `=`: one character of look-ahead
    /// decides between the `single` and the `double` kind.
    fn read_operator(&mut self, single: Kind, double: Kind) -> (token: Token)
        requires
            old(self).current() == Some('=') || old(self).current() == Some('!'),
        ensures
            final(self).text() == old(self).text(),
            final(self).offset() == lexeme_end(old(self).text(), old(self).offset()),
            token@.literal == old(self).text().subrange(old(self).offset(), final(self).offset()),
            token@.kind == if is_double(old(self).text(), old(self).offset()) {
                double
            } else {
                single
            },
    {
        proof {
            use_type_invariant(&*self);
        }
        match self.peek_char() {
            Some('=') => {
                let token = self.new_token(double, 2);
                self.read_char();
                self.read_char();
                token
            },
            _ => {
                let token = self.new_token(single, 1);
                self.read_char();
                token
            },
        }
    }

    /// A token of `kind` whose literal is the `width` characters at the cursor.
    fn new_token(&self, kind: Kind, width: usize) -> (token: Token)
        requires
            self.offset() + width <= self.text().len(),
        ensures
            token@ == (TokenView {
                kind,
                literal: self.text().subrange(self.offset(), self.offset() + width),
            }),
    {
        proof {
            use_type_invariant(self);
        }
        let literal = self.input.as_str().substring_char(self.position, self.position + width);
        Token { kind, literal: literal.to_owned() }
    }

    /// The current character, `None` past the end of the input.
    fn current_char(&self) -> (ch: Option<char>)
        ensures
            ch == self.current(),
    {
        proof {
            use_type_invariant(self);
        }
        if self.position < self.len {
            Some(self.input.as_str().get_char(self.position))
        } else {
            None
        }
    }

    /// Moves to the next character; at the end of the input the cursor stays.
    fn read_char(&mut self)
        ensures
            final(self).text() == old(self).text(),
            final(self).offset() == if old(self).offset() < old(self).text().len() {
                old(self).offset() + 1
            } else {
                old(self).offset()
            },
    {
        proof {
            use_type_invariant(&*self);
        }
        if self.position < self.len {
            self.position = self.position + 1;
        }
    }

    /// Peeks next character in input
    fn peek_char(&self) -> (ch: Option<char>)
        ensures
            ch == if self.read_offset() < self.text().len() {
                Some(self.text()[self.read_offset()])
            } else {
                None
            },
    {
        proof {
            use_type_invariant(self);
        }
        if self.len - self.position > 1 {
            Some(self.input.as_str().get_char(self.position + 1))
        } else {
            None
        }
    }

    /// Checks if char is valid letter. Only ASCII and _
    fn is_letter(&self, ch: char) -> (letter: bool)
        ensures
            letter == is_letter(ch),
    {
        (ch >= 'a' && ch <= 'z') || (ch >= 'A' && ch <= 'Z') || ch == '_'
    }

    /// Checks if char is valid number.
    fn is_digit(&self, ch: char) -> (digit: bool)
        ensures
            digit == is_digit(ch),
    {
        ch >= '0' && ch <= '9'
    }

    /// Whether the current character is of `class`.
    fn at_class(&self, class: &CharClass) -> (inside: bool)
        ensures
            inside == match self.current() {
                Some(ch) => class.holds(ch),
                None => false,
            },
    {
        match self.current_char() {
            Some(ch) => match class {
                CharClass::Blank => ch == ' ' || ch == '\t' || ch == '\n' || ch == '\r',
                CharClass::Letter => self.is_letter(ch),
                CharClass::Digit => self.is_digit(ch),
            },
            None => false,
        }
    }

    /// Moves the cursor to the end of the run of `class` that starts at it.
    fn skip_run(&mut self, class: CharClass)
        ensures
            final(self).text() == old(self).text(),
            final(self).offset() == run_end(old(self).text(), old(self).offset(), class),
    {
        proof {
            use_type_invariant(&*self);
        }
        while self.at_class(&class)
            invariant
                self.text() == old(self).text(),
                old(self).offset() <= self.offset() <= self.text().len(),
                run_end(self.text(), self.offset(), class) == run_end(
                    old(self).text(),
                    old(self).offset(),
                    class,
                ),
            decreases self.text().len() - self.offset(),
        {
            self.read_char();
        }
    }

    /// Reads identifier
    fn read_identifier(&mut self) -> (word: String)
        ensures
            final(self).text() == old(self).text(),
            final(self).offset() == run_end(old(self).text(), old(self).offset(), CharClass::Letter),
            word@ == old(self).text().subrange(old(self).offset(), final(self).offset()),
    {
        self.read_run(CharClass::Letter)
    }

    /// Skips whitespaces
    fn skip_whitespace(&mut self)
        ensures
            final(self).text() == old(self).text(),
            final(self).offset() == lexeme_start(old(self).text(), old(self).offset()),
    {
        self.skip_run(CharClass::Blank);
    }

    /// Reads number
    fn read_number(&mut self) -> (digits: String)
        ensures
            final(self).text() == old(self).text(),
            final(self).offset() == run_end(old(self).text(), old(self).offset(), CharClass::Digit),
            digits@ == old(self).text().subrange(old(self).offset(), final(self).offset()),
    {
        self.read_run(CharClass::Digit)
    }

    /// Moves past the run of `class` at the cursor and returns its text.
    fn read_run(&mut self, class: CharClass) -> (run: String)
        ensures
            final(self).text() == old(self).text(),
            final(self).offset() == run_end(old(self).text(), old(self).offset(), class),
            run@ == old(self).text().subrange(old(self).offset(), final(self).offset()),
    {
        proof {
            use_type_invariant(&*self);
            lemma_run_end(self.text(), self.offset(), class);
        }
        let position = self.position;
        self.skip_run(class);
        proof {
            use_type_invariant(&*self);
        }
        self.input.as_str().substring_char(position, self.position).to_owned()
    }
}

} // verus!
