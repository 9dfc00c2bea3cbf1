use monkey_lexer::lexer::Lexer;
use monkey_lexer::token::{lookup_ident, Token};

fn tokens(input: &str) -> Vec<Token> {
    let mut l = Lexer::new(input.to_string());
    let mut out = Vec::new();
    loop {
        let t = l.next_token();
        let done = t == Token::Eof;
        out.push(t);
        if done {
            return out;
        }
    }
}

fn ident(s: &str) -> Token {
    Token::Ident(s.to_string())
}

fn number(s: &str) -> Token {
    Token::Int(s.to_string())
}

#[test]
fn empty_input_is_eof() {
    assert_eq!(tokens(""), vec![Token::Eof]);
}

#[test]
fn white_space_only_is_eof() {
    assert_eq!(tokens(" \t\n\r  "), vec![Token::Eof]);
    assert_eq!(tokens("\u{a0}\u{3000}\u{2028}\u{85}"), vec![Token::Eof]);
    assert_eq!(tokens("\u{0b}\u{0c}\u{1680}\u{2009}"), vec![Token::Eof]);
}

#[test]
fn eof_repeats_after_end() {
    let mut l = Lexer::new("x  ".to_string());
    assert_eq!(l.next_token(), ident("x"));
    assert_eq!(l.next_token(), Token::Eof);
    assert_eq!(l.next_token(), Token::Eof);
}

#[test]
fn double_equals_is_one_token() {
    assert_eq!(tokens("=="), vec![Token::Equal, Token::Eof]);
    assert_eq!(tokens("="), vec![Token::Assign, Token::Eof]);
    assert_eq!(tokens("==="), vec![Token::Equal, Token::Assign, Token::Eof]);
    assert_eq!(tokens("= ="), vec![Token::Assign, Token::Assign, Token::Eof]);
}

#[test]
fn bang_equals_is_one_token() {
    assert_eq!(tokens("!="), vec![Token::NotEqual, Token::Eof]);
    assert_eq!(tokens("!"), vec![Token::Bang, Token::Eof]);
    assert_eq!(tokens("!!="), vec![Token::Bang, Token::NotEqual, Token::Eof]);
}

#[test]
fn single_character_tokens() {
    assert_eq!(
        tokens(";(){},+-*/<>"),
        vec![
            Token::Semicolon,
            Token::Lparen,
            Token::Rparen,
            Token::Lbrace,
            Token::Rbrace,
            Token::Comma,
            Token::Plus,
            Token::Minus,
            Token::Asterisk,
            Token::Slash,
            Token::Lt,
            Token::Gt,
            Token::Eof,
        ]
    );
}

#[test]
fn identifier_is_one_token() {
    assert_eq!(tokens("foobar"), vec![ident("foobar"), Token::Eof]);
    assert_eq!(tokens("_a_B_"), vec![ident("_a_B_"), Token::Eof]);
}

#[test]
fn number_is_one_token() {
    assert_eq!(tokens("12345"), vec![number("12345"), Token::Eof]);
    assert_eq!(tokens("007"), vec![number("007"), Token::Eof]);
}

#[test]
fn digits_end_an_identifier() {
    assert_eq!(tokens("abc123"), vec![ident("abc"), number("123"), Token::Eof]);
    assert_eq!(tokens("123abc"), vec![number("123"), ident("abc"), Token::Eof]);
    assert_eq!(tokens("let1"), vec![Token::Let, number("1"), Token::Eof]);
}

#[test]
fn reserved_words() {
    assert_eq!(tokens("let"), vec![Token::Let, Token::Eof]);
    assert_eq!(tokens("fn"), vec![Token::Function, Token::Eof]);
    assert_eq!(tokens("if"), vec![Token::If, Token::Eof]);
    assert_eq!(tokens("else"), vec![Token::Else, Token::Eof]);
    assert_eq!(tokens("return"), vec![Token::Return, Token::Eof]);
    assert_eq!(tokens("true"), vec![Token::True, Token::Eof]);
    assert_eq!(tokens("false"), vec![Token::False, Token::Eof]);
}

#[test]
fn near_miss_words_are_identifiers() {
    assert_eq!(tokens("iffy"), vec![ident("iffy"), Token::Eof]);
    assert_eq!(tokens("Let"), vec![ident("Let"), Token::Eof]);
    assert_eq!(tokens("fn_"), vec![ident("fn_"), Token::Eof]);
    assert_eq!(tokens("els"), vec![ident("els"), Token::Eof]);
}

#[test]
fn lookup_ident_is_exact() {
    assert_eq!(lookup_ident("let"), Token::Let);
    assert_eq!(lookup_ident("fn"), Token::Function);
    assert_eq!(lookup_ident("if"), Token::If);
    assert_eq!(lookup_ident("else"), Token::Else);
    assert_eq!(lookup_ident("return"), Token::Return);
    assert_eq!(lookup_ident("true"), Token::True);
    assert_eq!(lookup_ident("false"), Token::False);
    assert_eq!(lookup_ident("let1"), ident("let1"));
    assert_eq!(lookup_ident("iffy"), ident("iffy"));
    assert_eq!(lookup_ident("TRUE"), ident("TRUE"));
    assert_eq!(lookup_ident(""), ident(""));
}

#[test]
fn unknown_characters_are_illegal() {
    assert_eq!(tokens("@"), vec![Token::Illegal("@".to_string()), Token::Eof]);
    assert_eq!(
        tokens("a@é"),
        vec![
            ident("a"),
            Token::Illegal("@".to_string()),
            Token::Illegal("é".to_string()),
            Token::Eof,
        ]
    );
    assert_eq!(tokens("\"x"), vec![Token::Illegal("\"".to_string()), ident("x"), Token::Eof]);
}

#[test]
fn tokenizing_twice_gives_same_tokens() {
    let input = "let x = fn(a, b) { a != b; }; @ 42";
    assert_eq!(tokens(input), tokens(input));
}

#[test]
fn small_program_end_to_end() {
    let input = "let five = 5;
let add = fn(x, y) { x + y; };
!-/*5;
5 < 10 > 5;
10 == 10;
10 != 9;
";
    let expected = vec![
        Token::Let,
        ident("five"),
        Token::Assign,
        number("5"),
        Token::Semicolon,
        Token::Let,
        ident("add"),
        Token::Assign,
        Token::Function,
        Token::Lparen,
        ident("x"),
        Token::Comma,
        ident("y"),
        Token::Rparen,
        Token::Lbrace,
        ident("x"),
        Token::Plus,
        ident("y"),
        Token::Semicolon,
        Token::Rbrace,
        Token::Semicolon,
        Token::Bang,
        Token::Minus,
        Token::Slash,
        Token::Asterisk,
        number("5"),
        Token::Semicolon,
        number("5"),
        Token::Lt,
        number("10"),
        Token::Gt,
        number("5"),
        Token::Semicolon,
        number("10"),
        Token::Equal,
        number("10"),
        Token::Semicolon,
        number("10"),
        Token::NotEqual,
        number("9"),
        Token::Semicolon,
        Token::Eof,
    ];
    assert_eq!(tokens(input), expected);
}
