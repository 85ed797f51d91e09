//! The tokens of the schema language.

use vstd::prelude::*;
use vstd::string::*;
use crate::text::{decimal_digits, push_decimal};

verus! {

/// One token. Where it was read is kept beside it in the token stream, not
/// inside it.
#[derive(Debug, Clone, PartialEq)]
pub enum Token {
    Identifier(String),
    Integer(String),
    Float(String),
    StringLiteral(String),
    IntWidth { signed: bool, width: u8 },
    F32,
    F64,
    Match,
    Enum,
    Struct,
    CString,
    HebrewString,
    LBrace,
    RBrace,
    LBracket,
    RBracket,
    LParen,
    RParen,
    Colon,
    Comma,
    Semicolon,
    Equal,
    FatArrow,
    Unknown(char),
}

/// The mathematical value of a [`Token`]: texts are character sequences.
pub enum TokenView {
    Identifier(Seq<char>),
    Integer(Seq<char>),
    Float(Seq<char>),
    StringLiteral(Seq<char>),
    IntWidth { signed: bool, width: u8 },
    F32,
    F64,
    Match,
    Enum,
    Struct,
    CString,
    HebrewString,
    LBrace,
    RBrace,
    LBracket,
    RBracket,
    LParen,
    RParen,
    Colon,
    Comma,
    Semicolon,
    Equal,
    FatArrow,
    Unknown(char),
}

impl View for Token {
    type V = TokenView;

    open spec fn view(&self) -> TokenView {
        match self {
            Token::Identifier(s) => TokenView::Identifier(s@),
            Token::Integer(s) => TokenView::Integer(s@),
            Token::Float(s) => TokenView::Float(s@),
            Token::StringLiteral(s) => TokenView::StringLiteral(s@),
            Token::IntWidth { signed, width } => TokenView::IntWidth {
                signed: *signed,
                width: *width,
            },
            Token::F32 => TokenView::F32,
            Token::F64 => TokenView::F64,
            Token::Match => TokenView::Match,
            Token::Enum => TokenView::Enum,
            Token::Struct => TokenView::Struct,
            Token::CString => TokenView::CString,
            Token::HebrewString => TokenView::HebrewString,
            Token::LBrace => TokenView::LBrace,
            Token::RBrace => TokenView::RBrace,
            Token::LBracket => TokenView::LBracket,
            Token::RBracket => TokenView::RBracket,
            Token::LParen => TokenView::LParen,
            Token::RParen => TokenView::RParen,
            Token::Colon => TokenView::Colon,
            Token::Comma => TokenView::Comma,
            Token::Semicolon => TokenView::Semicolon,
            Token::Equal => TokenView::Equal,
            Token::FatArrow => TokenView::FatArrow,
            Token::Unknown(c) => TokenView::Unknown(*c),
        }
    }
}

impl TokenView {
    /// The text that stands for the token in a message.
    pub open spec fn text(self) -> Seq<char> {
        match self {
            TokenView::Identifier(s) => s,
            TokenView::Integer(s) => s,
            TokenView::Float(s) => s,
            TokenView::StringLiteral(s) => s,
            TokenView::IntWidth { signed, width } => (if signed {
                seq!['i']
            } else {
                seq!['u']
            }) + decimal_digits(width as nat),
            TokenView::F32 => "f32"@,
            TokenView::F64 => "f64"@,
            TokenView::Match => "match"@,
            TokenView::Enum => "enum"@,
            TokenView::Struct => "struct"@,
            TokenView::CString => "CString"@,
            TokenView::HebrewString => "HebrewString"@,
            TokenView::LBrace => "{"@,
            TokenView::RBrace => "}"@,
            TokenView::LBracket => "["@,
            TokenView::RBracket => "]"@,
            TokenView::LParen => "("@,
            TokenView::RParen => ")"@,
            TokenView::Colon => ":"@,
            TokenView::Comma => ","@,
            TokenView::Semicolon => ";"@,
            TokenView::Equal => "="@,
            TokenView::FatArrow => "=>"@,
            TokenView::Unknown(c) => seq![c],
        }
    }
}

/// The views of a run of located tokens, in order.
pub open spec fn tokens_view(ts: Seq<(Token, crate::span::Span)>) -> Seq<
    (TokenView, crate::span::Span),
> {
    Seq::new(ts.len(), |i: int| (ts[i].0@, ts[i].1))
}

impl Token {
    /// The text that stands for the token in a message: a word or a literal
    /// as it was written, a keyword or a sign by its spelling.
    pub fn to_string(&self) -> (s: String)
        ensures
            s@ == self@.text(),
    {
        match self {
            Token::Identifier(s) => s.clone(),
            Token::Integer(s) => s.clone(),
            Token::Float(s) => s.clone(),
            Token::StringLiteral(s) => s.clone(),
            Token::IntWidth { signed, width } => {
                let mut out = String::new();
                out.push(if *signed { 'i' } else { 'u' });
                push_decimal(&mut out, *width as u64);
                out
            },
            Token::F32 => String::from_str("f32"),
            Token::F64 => String::from_str("f64"),
            Token::Match => String::from_str("match"),
            Token::Enum => String::from_str("enum"),
            Token::Struct => String::from_str("struct"),
            Token::CString => String::from_str("CString"),
            Token::HebrewString => String::from_str("HebrewString"),
            Token::LBrace => String::from_str("{"),
            Token::RBrace => String::from_str("}"),
            Token::LBracket => String::from_str("["),
            Token::RBracket => String::from_str("]"),
            Token::LParen => String::from_str("("),
            Token::RParen => String::from_str(")"),
            Token::Colon => String::from_str(":"),
            Token::Comma => String::from_str(","),
            Token::Semicolon => String::from_str(";"),
            Token::Equal => String::from_str("="),
            Token::FatArrow => String::from_str("=>"),
            Token::Unknown(c) => {
                let mut out = String::new();
                out.push(*c);
                out
            },
        }
    }

    /// A copy of the token.
    pub fn duplicate(&self) -> (t: Token)
        ensures
            t@ == self@,
    {
        match self {
            Token::Identifier(s) => Token::Identifier(s.clone()),
            Token::Integer(s) => Token::Integer(s.clone()),
            Token::Float(s) => Token::Float(s.clone()),
            Token::StringLiteral(s) => Token::StringLiteral(s.clone()),
            Token::IntWidth { signed, width } => Token::IntWidth { signed: *signed, width: *width },
            Token::F32 => Token::F32,
            Token::F64 => Token::F64,
            Token::Match => Token::Match,
            Token::Enum => Token::Enum,
            Token::Struct => Token::Struct,
            Token::CString => Token::CString,
            Token::HebrewString => Token::HebrewString,
            Token::LBrace => Token::LBrace,
            Token::RBrace => Token::RBrace,
            Token::LBracket => Token::LBracket,
            Token::RBracket => Token::RBracket,
            Token::LParen => Token::LParen,
            Token::RParen => Token::RParen,
            Token::Colon => Token::Colon,
            Token::Comma => Token::Comma,
            Token::Semicolon => Token::Semicolon,
            Token::Equal => Token::Equal,
            Token::FatArrow => Token::FatArrow,
            Token::Unknown(c) => Token::Unknown(*c),
        }
    }
}

} // verus!
