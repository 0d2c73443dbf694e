use vstd::prelude::*;

verus! {

/// One lexical unit of the source text.
///
/// Fixed-meaning symbols carry no data; `Ident` and `Int` carry the text
/// that was scanned (an integer literal keeps its raw digit text, it is
/// never converted to a number); `Illegal` carries the single character
/// that matched no rule.  A token owns its text: it never borrows from the
/// input buffer.
#[derive(Clone, Debug, PartialEq, Eq)]
pub enum Token {
    Illegal(char),
    Ident(String),
    Int(String),
    Function,
    If,
    Else,
    True,
    False,
    Return,
    Let,
    While,
    Assign,
    Eq,
    NotEq,
    Bang,
    Plus,
    Minus,
    Asterisk,
    Slash,
    Lt,
    Gt,
    LParen,
    RParen,
    LBrace,
    RBrace,
    Comma,
    Semicolon,
}

/// The mathematical value of a [`Token`]: the same variants, with scanned
/// text abstracted to a sequence of characters.
pub enum TokenModel {
    Illegal(char),
    Ident(Seq<char>),
    Int(Seq<char>),
    Function,
    If,
    Else,
    True,
    False,
    Return,
    Let,
    While,
    Assign,
    Eq,
    NotEq,
    Bang,
    Plus,
    Minus,
    Asterisk,
    Slash,
    Lt,
    Gt,
    LParen,
    RParen,
    LBrace,
    RBrace,
    Comma,
    Semicolon,
}

impl View for Token {
    type V = TokenModel;

    open spec fn view(&self) -> TokenModel {
        match self {
            Token::Illegal(c) => TokenModel::Illegal(*c),
            Token::Ident(s) => TokenModel::Ident(s@),
            Token::Int(s) => TokenModel::Int(s@),
            Token::Function => TokenModel::Function,
            Token::If => TokenModel::If,
            Token::Else => TokenModel::Else,
            Token::True => TokenModel::True,
            Token::False => TokenModel::False,
            Token::Return => TokenModel::Return,
            Token::Let => TokenModel::Let,
            Token::While => TokenModel::While,
            Token::Assign => TokenModel::Assign,
            Token::Eq => TokenModel::Eq,
            Token::NotEq => TokenModel::NotEq,
            Token::Bang => TokenModel::Bang,
            Token::Plus => TokenModel::Plus,
            Token::Minus => TokenModel::Minus,
            Token::Asterisk => TokenModel::Asterisk,
            Token::Slash => TokenModel::Slash,
            Token::Lt => TokenModel::Lt,
            Token::Gt => TokenModel::Gt,
            Token::LParen => TokenModel::LParen,
            Token::RParen => TokenModel::RParen,
            Token::LBrace => TokenModel::LBrace,
            Token::RBrace => TokenModel::RBrace,
            Token::Comma => TokenModel::Comma,
            Token::Semicolon => TokenModel::Semicolon,
        }
    }
}

} // verus!
