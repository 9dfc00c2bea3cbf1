//! The scanner: a cursor over the source characters that yields one token
//! per call.
use vstd::prelude::*;

use crate::text::{chars_of, is_white_space, push_char, white_space};
use crate::token::{lookup_ident, word_token, Token, TokenView};

verus! {

/// Characters that may form an identifier: ASCII letters and the underscore.
pub open spec fn is_letter_char(c: char) -> bool {
    ('a' <= c && c <= 'z') || ('A' <= c && c <= 'Z') || c == '_'
}

/// ASCII decimal digits.
pub open spec fn is_digit_char(c: char) -> bool {
    '0' <= c && c <= '9'
}

/// The first index at or after `p` whose character is not white space, or
/// the end of `s`.
pub open spec fn skip_white_space(s: Seq<char>, p: int) -> int
    decreases s.len() - p,
{
    if 0 <= p < s.len() && is_white_space(s[p]) {
        skip_white_space(s, p + 1)
    } else {
        p
    }
}

/// The end of the longest run of identifier characters starting at `p`.
pub open spec fn letters_end(s: Seq<char>, p: int) -> int
    decreases s.len() - p,
{
    if 0 <= p < s.len() && is_letter_char(s[p]) {
        letters_end(s, p + 1)
    } else {
        p
    }
}

/// The end of the longest run of digits starting at `p`.
pub open spec fn digits_end(s: Seq<char>, p: int) -> int
    decreases s.len() - p,
{
    if 0 <= p < s.len() && is_digit_char(s[p]) {
        digits_end(s, p + 1)
    } else {
        p
    }
}

/// The token of a character that stands alone as an operator or delimiter.
pub open spec fn single_char_token(c: char) -> Option<TokenView> {
    if c == ';' {
        Some(TokenView::Semicolon)
    } else if c == '(' {
        Some(TokenView::Lparen)
    } else if c == ')' {
        Some(TokenView::Rparen)
    } else if c == '{' {
        Some(TokenView::Lbrace)
    } else if c == '}' {
        Some(TokenView::Rbrace)
    } else if c == ',' {
        Some(TokenView::Comma)
    } else if c == '+' {
        Some(TokenView::Plus)
    } else if c == '-' {
        Some(TokenView::Minus)
    } else if c == '*' {
        Some(TokenView::Asterisk)
    } else if c == '/' {
        Some(TokenView::Slash)
    } else if c == '<' {
        Some(TokenView::Lt)
    } else if c == '>' {
        Some(TokenView::Gt)
    } else {
        None
    }
}

/// Whether the character after index `q` exists and is `=`.
pub open spec fn followed_by_eq(s: Seq<char>, q: int) -> bool {
    q + 1 < s.len() && s[q + 1] == '='
}

/// One scanning step from position `p` of `s`: the token found and the
/// position just past it. White space is skipped first; `==` and `!=` are
/// preferred over `=` and `!`; identifiers and numbers take the longest run.
pub open spec fn lex_at(s: Seq<char>, p: int) -> (TokenView, int) {
    let q = skip_white_space(s, p);
    if !(0 <= q < s.len()) {
        (TokenView::Eof, q)
    } else {
        let c = s[q];
        if c == '=' {
            if followed_by_eq(s, q) {
                (TokenView::Equal, q + 2)
            } else {
                (TokenView::Assign, q + 1)
            }
        } else if c == '!' {
            if followed_by_eq(s, q) {
                (TokenView::NotEqual, q + 2)
            } else {
                (TokenView::Bang, q + 1)
            }
        } else if single_char_token(c) is Some {
            (single_char_token(c)->0, q + 1)
        } else if is_letter_char(c) {
            let e = letters_end(s, q);
            (word_token(s.subrange(q, e)), e)
        } else if is_digit_char(c) {
            let e = digits_end(s, q);
            (TokenView::Int(s.subrange(q, e)), e)
        } else {
            (TokenView::Illegal(seq![c]), q + 1)
        }
    }
}

proof fn lemma_skip_white_space(s: Seq<char>, p: int)
    requires
        0 <= p <= s.len(),
    ensures
        p <= skip_white_space(s, p) <= s.len(),
        forall|k: int| p <= k < skip_white_space(s, p) ==> is_white_space(#[trigger] s[k]),
        skip_white_space(s, p) < s.len() ==> !is_white_space(s[skip_white_space(s, p)]),
    decreases s.len() - p,
{
    if p < s.len() && is_white_space(s[p]) {
        lemma_skip_white_space(s, p + 1);
    }
}

proof fn lemma_letters_end(s: Seq<char>, p: int)
    requires
        0 <= p <= s.len(),
    ensures
        p <= letters_end(s, p) <= s.len(),
        forall|k: int| p <= k < letters_end(s, p) ==> is_letter_char(#[trigger] s[k]),
        letters_end(s, p) < s.len() ==> !is_letter_char(s[letters_end(s, p)]),
    decreases s.len() - p,
{
    if p < s.len() && is_letter_char(s[p]) {
        lemma_letters_end(s, p + 1);
    }
}

proof fn lemma_digits_end(s: Seq<char>, p: int)
    requires
        0 <= p <= s.len(),
    ensures
        p <= digits_end(s, p) <= s.len(),
        forall|k: int| p <= k < digits_end(s, p) ==> is_digit_char(#[trigger] s[k]),
        digits_end(s, p) < s.len() ==> !is_digit_char(s[digits_end(s, p)]),
    decreases s.len() - p,
{
    if p < s.len() && is_digit_char(s[p]) {
        lemma_digits_end(s, p + 1);
    }
}

/// A step stays within the text; it ends the input exactly at its end, and
/// otherwise consumes at least one character. At the end it yields the
/// end-of-input token again.
pub proof fn lemma_lex_at_progress(s: Seq<char>, p: int)
    requires
        0 <= p <= s.len(),
    ensures
        p <= lex_at(s, p).1 <= s.len(),
        lex_at(s, p).0 is Eof ==> lex_at(s, p).1 == s.len(),
        !(lex_at(s, p).0 is Eof) ==> p < lex_at(s, p).1,
        lex_at(s, s.len() as int).0 is Eof,
{
    lemma_skip_white_space(s, p);
    let q = skip_white_space(s, p);
    if q < s.len() {
        lemma_letters_end(s, q);
        lemma_digits_end(s, q);
    }
}

/// The whole token stream from position `p`, up to and including the first
/// end-of-input token.
pub open spec fn tokens_from(s: Seq<char>, p: int) -> Seq<TokenView>
    decreases s.len() - p,
{
    if !(0 <= p <= s.len()) {
        Seq::empty()
    } else {
        proof {
            lemma_lex_at_progress(s, p);
        }
        let (t, q) = lex_at(s, p);
        if t is Eof {
            seq![t]
        } else {
            seq![t] + tokens_from(s, q)
        }
    }
}

/// The lexer: the source characters and a cursor over them.
pub struct Lexer {
    input: Vec<char>,
    position: usize,
    ch: Option<char>,
}

impl Lexer {
    /// The source characters.
    pub closed spec fn source(&self) -> Seq<char> {
        self.input@
    }

    /// The cursor: the index of the current character.
    pub closed spec fn pos(&self) -> int {
        self.position as int
    }

    /// The cursor lies within the source and the current character is the
    /// one under it, absent past the end.
    pub closed spec fn wf(&self) -> bool {
        &&& self.input@.len() <= usize::MAX
        &&& self.position <= self.input@.len()
        &&& self.ch == if self.position < self.input@.len() {
            Some(self.input@[self.position as int])
        } else {
            None
        }
    }

    /// The tokens that calls of `next_token` will yield from here on, the
    /// last being the end-of-input token.
    pub open spec fn remaining_tokens(&self) -> Seq<TokenView> {
        tokens_from(self.source(), self.pos())
    }

    /// A lexer over `input`, with the first character (if any) current.
    pub fn new(input: String) -> (l: Lexer)
        ensures
            l.wf(),
            l.source() == input@,
            l.pos() == 0,
    {
        let chars = chars_of(input.as_str());
        let ch = if chars.len() > 0 {
            Some(chars[0])
        } else {
            None
        };
        Lexer { input: chars, position: 0, ch }
    }

    /// Scans and returns the next token, advancing the cursor past it. Once
    /// the input is drained it returns `Eof`, and keeps doing so.
    pub fn next_token(&mut self) -> (r: Token)
        requires
            old(self).wf(),
        ensures
            final(self).wf(),
            final(self).source() == old(self).source(),
            (r@, final(self).pos()) == lex_at(old(self).source(), old(self).pos()),
            0 <= old(self).pos() <= final(self).pos() <= final(self).source().len(),
            r@ is Eof ==> final(self).pos() == final(self).source().len(),
            !(r@ is Eof) ==> old(self).pos() < final(self).pos(),
            old(self).remaining_tokens() == if r@ is Eof {
                seq![r@]
            } else {
                seq![r@] + final(self).remaining_tokens()
            },
    {
        proof {
            lemma_lex_at_progress(self.input@, self.position as int);
        }
        self.skip_whitespace();
        let c = match self.ch {
            None => {
                return Token::Eof;
            },
            Some(c) => c,
        };
        let token = match c {
            '=' => {
                if self.next_is_eq() {
                    self.read_char();
                    Token::Equal
                } else {
                    Token::Assign
                }
            },
            ';' => Token::Semicolon,
            '(' => Token::Lparen,
            ')' => Token::Rparen,
            '{' => Token::Lbrace,
            '}' => Token::Rbrace,
            ',' => Token::Comma,
            '+' => Token::Plus,
            '-' => Token::Minus,
            '!' => {
                if self.next_is_eq() {
                    self.read_char();
                    Token::NotEqual
                } else {
                    Token::Bang
                }
            },
            '*' => Token::Asterisk,
            '/' => Token::Slash,
            '<' => Token::Lt,
            '>' => Token::Gt,
            _ => {
                if Self::is_letter(c) {
                    let literal = self.read_identifier();
                    return lookup_ident(literal.as_str());
                } else if Self::is_digit(c) {
                    return Token::Int(self.read_number());
                } else {
                    let mut text = String::new();
                    push_char(&mut text, c);
                    assert(text@ =~= seq![c]);
                    self.read_char();
                    return Token::Illegal(text);
                }
            },
        };
        self.read_char();
        token
    }

    /// Moves the cursor one character forward.
    fn read_char(&mut self)
        requires
            old(self).wf(),
            old(self).pos() < old(self).source().len(),
        ensures
            final(self).wf(),
            final(self).source() == old(self).source(),
            final(self).pos() == old(self).pos() + 1,
    {
        self.ch = self.peek_char();
        self.position = self.position + 1;
    }

    /// The character after the current one, if any.
    fn peek_char(&self) -> (r: Option<char>)
        requires
            self.wf(),
        ensures
            r == if self.pos() + 1 < self.source().len() {
                Some(self.source()[self.pos() + 1])
            } else {
                None
            },
    {
        if self.position < self.input.len() && self.position + 1 < self.input.len() {
            Some(self.input[self.position + 1])
        } else {
            None
        }
    }

    /// Whether the character after the current one is `=`.
    fn next_is_eq(&self) -> (r: bool)
        requires
            self.wf(),
        ensures
            r == followed_by_eq(self.source(), self.pos()),
    {
        match self.peek_char() {
            Some(n) => n == '=',
            None => false,
        }
    }

    /// Scans the longest run of identifier characters at the cursor.
    fn read_identifier(&mut self) -> (r: String)
        requires
            old(self).wf(),
        ensures
            final(self).wf(),
            final(self).source() == old(self).source(),
            final(self).pos() == letters_end(old(self).source(), old(self).pos()),
            r@ == old(self).source().subrange(old(self).pos(), final(self).pos()),
    {
        let pos = self.position;
        loop
            invariant
                self.wf(),
                self.source() == old(self).source(),
                pos <= self.position,
                letters_end(self.source(), self.pos()) == letters_end(
                    old(self).source(),
                    old(self).pos(),
                ),
            ensures
                self.pos() == letters_end(old(self).source(), old(self).pos()),
            decreases self.input@.len() - self.position,
        {
            match self.ch {
                Some(c) => {
                    if Self::is_letter(c) {
                        self.read_char();
                    } else {
                        break;
                    }
                },
                None => {
                    break;
                },
            }
        }
        self.read_range(pos, self.position)
    }

    /// The source characters from `start` (inclusive) to `end` (exclusive).
    fn read_range(&self, start: usize, end: usize) -> (r: String)
        requires
            start <= end <= self.source().len(),
        ensures
            r@ == self.source().subrange(start as int, end as int),
    {
        let mut r = String::new();
        let mut i: usize = start;
        while i < end
            invariant
                start <= i <= end <= self.input@.len(),
                r@ == self.input@.subrange(start as int, i as int),
            decreases end - i,
        {
            push_char(&mut r, self.input[i]);
            assert(self.input@.subrange(start as int, i + 1) =~= self.input@.subrange(
                start as int,
                i as int,
            ).push(self.input@[i as int]));
            i = i + 1;
        }
        r
    }

    /// Scans the longest run of digits at the cursor.
    fn read_number(&mut self) -> (r: String)
        requires
            old(self).wf(),
        ensures
            final(self).wf(),
            final(self).source() == old(self).source(),
            final(self).pos() == digits_end(old(self).source(), old(self).pos()),
            r@ == old(self).source().subrange(old(self).pos(), final(self).pos()),
    {
        let pos = self.position;
        loop
            invariant
                self.wf(),
                self.source() == old(self).source(),
                pos <= self.position,
                digits_end(self.source(), self.pos()) == digits_end(
                    old(self).source(),
                    old(self).pos(),
                ),
            ensures
                self.pos() == digits_end(old(self).source(), old(self).pos()),
            decreases self.input@.len() - self.position,
        {
            match self.ch {
                Some(c) => {
                    if Self::is_digit(c) {
                        self.read_char();
                    } else {
                        break;
                    }
                },
                None => {
                    break;
                },
            }
        }
        self.read_range(pos, self.position)
    }

    /// Moves the cursor past a run of white space.
    fn skip_whitespace(&mut self)
        requires
            old(self).wf(),
        ensures
            final(self).wf(),
            final(self).source() == old(self).source(),
            final(self).pos() == skip_white_space(old(self).source(), old(self).pos()),
    {
        loop
            invariant
                self.wf(),
                self.source() == old(self).source(),
                skip_white_space(self.source(), self.pos()) == skip_white_space(
                    old(self).source(),
                    old(self).pos(),
                ),
            ensures
                self.pos() == skip_white_space(old(self).source(), old(self).pos()),
            decreases self.input@.len() - self.position,
        {
            match self.ch {
                Some(c) => {
                    if white_space(c) {
                        self.read_char();
                    } else {
                        break;
                    }
                },
                None => {
                    break;
                },
            }
        }
    }

    /// Whether `ch` may appear in an identifier.
    fn is_letter(ch: char) -> (r: bool)
        ensures
            r == is_letter_char(ch),
    {
        ('a' <= ch && ch <= 'z') || ('A' <= ch && ch <= 'Z') || ch == '_'
    }

    /// Whether `ch` is an ASCII digit.
    fn is_digit(ch: char) -> (r: bool)
        ensures
            r == is_digit_char(ch),
    {
        '0' <= ch && ch <= '9'
    }
}

/// Text made only of white space yields the end-of-input token on the first
/// scan, and nothing else.
pub proof fn lemma_white_space_only_is_eof(s: Seq<char>)
    requires
        forall|i: int| 0 <= i < s.len() ==> is_white_space(#[trigger] s[i]),
    ensures
        lex_at(s, 0).0 is Eof,
        tokens_from(s, 0) == seq![TokenView::Eof],
{
    lemma_skip_white_space(s, 0);
}

/// Two lexers over the same text, at the same cursor (in particular two fresh
/// ones), yield the same tokens until end of input.
pub proof fn lemma_same_text_same_tokens(a: Lexer, b: Lexer)
    requires
        a.wf(),
        b.wf(),
        a.source() == b.source(),
        a.pos() == b.pos(),
    ensures
        a.remaining_tokens() == b.remaining_tokens(),
{
}

/// The token stream from any position is finite and ends with exactly one
/// end-of-input token.
pub proof fn lemma_single_eof_at_end(s: Seq<char>, p: int)
    requires
        0 <= p <= s.len(),
    ensures
        tokens_from(s, p).len() >= 1,
        tokens_from(s, p).last() is Eof,
        forall|i: int| 0 <= i < tokens_from(s, p).len() - 1 ==> !(#[trigger] tokens_from(s, p)[i] is Eof),
    decreases s.len() - p,
{
    lemma_lex_at_progress(s, p);
    let (t, q) = lex_at(s, p);
    if !(t is Eof) {
        lemma_single_eof_at_end(s, q);
        let rest = tokens_from(s, q);
        assert(tokens_from(s, p) == seq![t] + rest);
        assert forall|i: int| 0 <= i < tokens_from(s, p).len() - 1 implies !(#[trigger] tokens_from(s, p)[i] is Eof) by {
            if i > 0 {
                assert(tokens_from(s, p)[i] == rest[i - 1]);
            }
        }
    }
}

/// Identifier and integer payloads are non-empty runs of their character class
/// copied unchanged from the source, and each run is the longest one: the
/// character after it, if any, is not of the class.
pub proof fn lemma_payloads_are_maximal_runs(s: Seq<char>, p: int)
    requires
        0 <= p <= s.len(),
    ensures
        lex_at(s, p).0 is Ident ==> {
            let q = skip_white_space(s, p);
            let e = lex_at(s, p).1;
            &&& q < e
            &&& lex_at(s, p).0->Ident_0 == s.subrange(q, e)
            &&& forall|k: int| q <= k < e ==> is_letter_char(#[trigger] s[k])
            &&& (e < s.len() ==> !is_letter_char(s[e]))
        },
        lex_at(s, p).0 is Int ==> {
            let q = skip_white_space(s, p);
            let e = lex_at(s, p).1;
            &&& q < e
            &&& lex_at(s, p).0->Int_0 == s.subrange(q, e)
            &&& forall|k: int| q <= k < e ==> is_digit_char(#[trigger] s[k])
            &&& (e < s.len() ==> !is_digit_char(s[e]))
        },
{
    lemma_skip_white_space(s, p);
    let q = skip_white_space(s, p);
    if q < s.len() {
        lemma_letters_end(s, q);
        lemma_digits_end(s, q);
    }
}

} // verus!
