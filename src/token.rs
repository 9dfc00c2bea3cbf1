//! The closed set of token kinds and the reserved-word lookup.
use vstd::prelude::*;

use crate::text::chars_of;

verus! {

/// A classified lexical unit. Payloads are raw text taken from the source.
#[derive(Debug, PartialEq, Eq)]
pub enum Token {
    Illegal(String),
    Eof,
    // Identifiers and literals
    Ident(String),
    Int(String),
    // Operators
    Assign,
    Plus,
    Minus,
    Bang,
    Asterisk,
    Slash,
    Lt,
    Gt,
    Equal,
    NotEqual,
    // Delimiters
    Comma,
    Semicolon,
    Lparen,
    Rparen,
    Lbrace,
    Rbrace,
    // Reserved words
    Function,
    Let,
    If,
    Else,
    Return,
    True,
    False,
}

/// The mathematical value of a `Token`: payloads become character sequences.
pub enum TokenView {
    Illegal(Seq<char>),
    Eof,
    Ident(Seq<char>),
    Int(Seq<char>),
    Assign,
    Plus,
    Minus,
    Bang,
    Asterisk,
    Slash,
    Lt,
    Gt,
    Equal,
    NotEqual,
    Comma,
    Semicolon,
    Lparen,
    Rparen,
    Lbrace,
    Rbrace,
    Function,
    Let,
    If,
    Else,
    Return,
    True,
    False,
}

impl View for Token {
    type V = TokenView;

    open spec fn view(&self) -> TokenView {
        match self {
            Token::Illegal(s) => TokenView::Illegal(s@),
            Token::Eof => TokenView::Eof,
            Token::Ident(s) => TokenView::Ident(s@),
            Token::Int(s) => TokenView::Int(s@),
            Token::Assign => TokenView::Assign,
            Token::Plus => TokenView::Plus,
            Token::Minus => TokenView::Minus,
            Token::Bang => TokenView::Bang,
            Token::Asterisk => TokenView::Asterisk,
            Token::Slash => TokenView::Slash,
            Token::Lt => TokenView::Lt,
            Token::Gt => TokenView::Gt,
            Token::Equal => TokenView::Equal,
            Token::NotEqual => TokenView::NotEqual,
            Token::Comma => TokenView::Comma,
            Token::Semicolon => TokenView::Semicolon,
            Token::Lparen => TokenView::Lparen,
            Token::Rparen => TokenView::Rparen,
            Token::Lbrace => TokenView::Lbrace,
            Token::Rbrace => TokenView::Rbrace,
            Token::Function => TokenView::Function,
            Token::Let => TokenView::Let,
            Token::If => TokenView::If,
            Token::Else => TokenView::Else,
            Token::Return => TokenView::Return,
            Token::True => TokenView::True,
            Token::False => TokenView::False,
        }
    }
}

/// The reserved word spelled by `s`, if `s` is exactly one of the seven.
pub open spec fn keyword(s: Seq<char>) -> Option<TokenView> {
    if s == seq!['f', 'n'] {
        Some(TokenView::Function)
    } else if s == seq!['l', 'e', 't'] {
        Some(TokenView::Let)
    } else if s == seq!['i', 'f'] {
        Some(TokenView::If)
    } else if s == seq!['e', 'l', 's', 'e'] {
        Some(TokenView::Else)
    } else if s == seq!['r', 'e', 't', 'u', 'r', 'n'] {
        Some(TokenView::Return)
    } else if s == seq!['t', 'r', 'u', 'e'] {
        Some(TokenView::True)
    } else if s == seq!['f', 'a', 'l', 's', 'e'] {
        Some(TokenView::False)
    } else {
        None
    }
}

/// The token for a scanned word: its reserved word, or an identifier holding
/// the word unchanged.
pub open spec fn word_token(s: Seq<char>) -> TokenView {
    match keyword(s) {
        Some(t) => t,
        None => TokenView::Ident(s),
    }
}

/// Whether `w` holds exactly the characters of `lit`.
fn spells(w: &Vec<char>, lit: &[char]) -> (r: bool)
    ensures
        r == (w@ == lit@),
{
    if w.len() != lit.len() {
        return false;
    }
    let mut i: usize = 0;
    while i < w.len()
        invariant
            w@.len() == lit@.len(),
            0 <= i <= w@.len(),
            forall|j: int| 0 <= j < i ==> w@[j] == lit@[j],
        decreases w.len() - i,
    {
        if w[i] != lit[i] {
            return false;
        }
        i = i + 1;
    }
    assert(w@ =~= lit@);
    true
}

/// Maps a scanned word to its reserved-word token, or to an identifier token
/// carrying the word unchanged. Matching is exact and case-sensitive.
pub fn lookup_ident(ident: &str) -> (r: Token)
    ensures
        r@ == word_token(ident@),
{
    let w = chars_of(ident);
    if spells(&w, &['f', 'n']) {
        assert(w@ =~= seq!['f', 'n']);
        Token::Function
    } else if spells(&w, &['l', 'e', 't']) {
        assert(w@ =~= seq!['l', 'e', 't']);
        Token::Let
    } else if spells(&w, &['i', 'f']) {
        assert(w@ =~= seq!['i', 'f']);
        Token::If
    } else if spells(&w, &['e', 'l', 's', 'e']) {
        assert(w@ =~= seq!['e', 'l', 's', 'e']);
        Token::Else
    } else if spells(&w, &['r', 'e', 't', 'u', 'r', 'n']) {
        assert(w@ =~= seq!['r', 'e', 't', 'u', 'r', 'n']);
        Token::Return
    } else if spells(&w, &['t', 'r', 'u', 'e']) {
        assert(w@ =~= seq!['t', 'r', 'u', 'e']);
        Token::True
    } else if spells(&w, &['f', 'a', 'l', 's', 'e']) {
        assert(w@ =~= seq!['f', 'a', 'l', 's', 'e']);
        Token::False
    } else {
        Token::Ident(ident.to_owned())
    }
}

} // verus!
