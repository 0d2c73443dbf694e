use lexer::lex;
use lexer::Lexer;
use lexer::Token;

fn ident(s: &str) -> Token {
    Token::Ident(String::from(s))
}

fn num(s: &str) -> Token {
    Token::Int(String::from(s))
}

#[test]
fn empty_input_is_exhausted_at_once() {
    let mut lx = Lexer::new("");
    assert_eq!(lx.next_token(), None);
    assert_eq!(lex(""), vec![]);
}

#[test]
fn whitespace_only_input_yields_no_token() {
    assert_eq!(lex("  \t\n\r  "), vec![]);
    let mut lx = Lexer::new(" \n\t");
    assert_eq!(lx.next_token(), None);
}

#[test]
fn exhaustion_is_terminal() {
    let mut lx = Lexer::new("+");
    assert_eq!(lx.next_token(), Some(Token::Plus));
    assert_eq!(lx.next_token(), None);
    assert_eq!(lx.next_token(), None);
    assert_eq!(lx.next_token(), None);
}

#[test]
fn every_reserved_word_lexes_to_its_fixed_token() {
    assert_eq!(lex("fn"), vec![Token::Function]);
    assert_eq!(lex("if"), vec![Token::If]);
    assert_eq!(lex("else"), vec![Token::Else]);
    assert_eq!(lex("true"), vec![Token::True]);
    assert_eq!(lex("false"), vec![Token::False]);
    assert_eq!(lex("return"), vec![Token::Return]);
    assert_eq!(lex("let"), vec![Token::Let]);
    assert_eq!(lex("while"), vec![Token::While]);
}

#[test]
fn words_near_reserved_ones_are_identifiers() {
    assert_eq!(lex("fnx"), vec![ident("fnx")]);
    assert_eq!(lex("lets"), vec![ident("lets")]);
    assert_eq!(lex("Fn"), vec![ident("Fn")]);
    assert_eq!(lex("whil"), vec![ident("whil")]);
}

#[test]
fn single_character_tokens() {
    assert_eq!(
        lex("(){},;<>+-*/"),
        vec![
            Token::LParen,
            Token::RParen,
            Token::LBrace,
            Token::RBrace,
            Token::Comma,
            Token::Semicolon,
            Token::Lt,
            Token::Gt,
            Token::Plus,
            Token::Minus,
            Token::Asterisk,
            Token::Slash,
        ]
    );
}

#[test]
fn two_character_operators_take_precedence() {
    assert_eq!(lex("=="), vec![Token::Eq]);
    assert_eq!(lex("!="), vec![Token::NotEq]);
    assert_eq!(lex("="), vec![Token::Assign]);
    assert_eq!(lex("!"), vec![Token::Bang]);
    assert_eq!(lex("==="), vec![Token::Eq, Token::Assign]);
    assert_eq!(lex("!=="), vec![Token::NotEq, Token::Assign]);
    assert_eq!(lex("=!"), vec![Token::Assign, Token::Bang]);
    assert_eq!(lex("a==b"), vec![ident("a"), Token::Eq, ident("b")]);
}

#[test]
fn maximal_munch_takes_the_longest_run() {
    assert_eq!(lex("foobar"), vec![ident("foobar")]);
    assert_eq!(lex("123"), vec![num("123")]);
    assert_eq!(lex("foo bar"), vec![ident("foo"), ident("bar")]);
    assert_eq!(lex("12 3"), vec![num("12"), num("3")]);
}

#[test]
fn identifiers_do_not_swallow_digits() {
    assert_eq!(lex("x1"), vec![ident("x"), num("1")]);
    assert_eq!(lex("1a"), vec![num("1"), ident("a")]);
}

#[test]
fn unicode_letters_form_identifiers() {
    assert_eq!(lex("héllo"), vec![ident("héllo")]);
}

#[test]
fn number_start_is_unicode_but_continuation_is_ascii() {
    // An Arabic-Indic digit starts a literal, but only '0'..'9' continue one.
    assert_eq!(lex("٣"), vec![num("٣")]);
    assert_eq!(lex("٣٣"), vec![num("٣"), num("٣")]);
    assert_eq!(lex("٣2"), vec![num("٣2")]);
}

#[test]
fn illegal_characters_pass_through_as_data() {
    assert_eq!(lex("@"), vec![Token::Illegal('@')]);
    assert_eq!(lex("@a"), vec![Token::Illegal('@'), ident("a")]);
    assert_eq!(lex("#@"), vec![Token::Illegal('#'), Token::Illegal('@')]);
    assert_eq!(lex("1?2"), vec![num("1"), Token::Illegal('?'), num("2")]);
}

#[test]
fn lexing_twice_yields_identical_sequences() {
    let text = "let f = fn(1+1) @ while x != y { return true; }";
    assert_eq!(lex(text), lex(text));
    let mut first = Lexer::new(text);
    let mut second = Lexer::new(text);
    loop {
        let a = first.next_token();
        let b = second.next_token();
        assert_eq!(a, b);
        if a.is_none() {
            break;
        }
    }
}

#[test]
fn token_count_never_exceeds_character_count() {
    for text in ["", " ", "a", "let f = fn(1+1)", "==!=", "@#a 12", "   x   "] {
        assert!(lex(text).len() <= text.chars().count());
    }
}

#[test]
fn whitespace_between_tokens_is_invisible() {
    let spaced = lex("  let   f\t=\nfn ( 1 + 1 )  ");
    let tight = lex("let f=fn(1+1)");
    assert_eq!(spaced, tight);
    assert_eq!(lex("a b"), lex("a\n\n\tb"));
    assert_eq!(lex("1 2"), lex("1\r\n2"));
}

#[test]
fn end_to_end_example() {
    let mut lx = Lexer::new("let f = fn(1+1)");
    assert_eq!(lx.next_token(), Some(Token::Let));
    assert_eq!(lx.next_token(), Some(ident("f")));
    assert_eq!(lx.next_token(), Some(Token::Assign));
    assert_eq!(lx.next_token(), Some(Token::Function));
    assert_eq!(lx.next_token(), Some(Token::LParen));
    assert_eq!(lx.next_token(), Some(num("1")));
    assert_eq!(lx.next_token(), Some(Token::Plus));
    assert_eq!(lx.next_token(), Some(num("1")));
    assert_eq!(lx.next_token(), Some(Token::RParen));
    assert_eq!(lx.next_token(), None);
}

#[test]
fn a_small_program_lexes_as_expected() {
    let text = "let add = fn(x, y) { if x < y { return x; } else { x }; };";
    assert_eq!(
        lex(text),
        vec![
            Token::Let,
            ident("add"),
            Token::Assign,
            Token::Function,
            Token::LParen,
            ident("x"),
            Token::Comma,
            ident("y"),
            Token::RParen,
            Token::LBrace,
            Token::If,
            ident("x"),
            Token::Lt,
            ident("y"),
            Token::LBrace,
            Token::Return,
            ident("x"),
            Token::Semicolon,
            Token::RBrace,
            Token::Else,
            Token::LBrace,
            ident("x"),
            Token::RBrace,
            Token::Semicolon,
            Token::RBrace,
            Token::Semicolon,
        ]
    );
}
