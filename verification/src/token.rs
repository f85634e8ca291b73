//! The executable token types: what the tokenizer hands to its callers.

use vstd::prelude::*;
use crate::model::ItemModel;
use crate::model::LexemeModel;
use crate::model::ScanFailure;
use crate::text::byte_offset_of;

verus! {

/// The position record shared by every token: inclusive byte offsets into
/// the original input of the first and last character of the lexeme.
#[derive(Debug)]
pub struct TMeta {
    pub start: usize,
    pub end: usize,
}

/// A token: a tagged variant with its position record and, where the class
/// has one, an owned, decoded payload. A number carries its lexeme text,
/// which parses as a floating-point literal.
#[derive(Debug)]
pub enum Token {
    LowerSymbol(TMeta, String),
    UpperSymbol(TMeta, String),
    Bool(TMeta, bool),
    Number(TMeta, String),
    String(TMeta, String),
    LParen(TMeta),
    RParen(TMeta),
    LCurl(TMeta),
    RCurl(TMeta),
    LSquare(TMeta),
    RSquare(TMeta),
    LAngle(TMeta),
    RAngle(TMeta),
    Comma(TMeta),
    SemiColon(TMeta),
    Colon(TMeta),
    Dot(TMeta),
    OrBar(TMeta),
    SLArrow(TMeta),
    SRArrow(TMeta),
    DLArrow(TMeta),
    DRArrow(TMeta),
}

/// How tokenization fails: the input ended while more was needed, or a
/// character at the carried byte offset cannot start or continue any
/// accepted lexeme.
#[derive(Debug, Clone, Copy, PartialEq, Eq)]
pub enum LexError {
    UnexpectedEndOfInput,
    PositionedError(usize),
}

/// A raw lexical item: every token item, plus the discardable junk
/// pseudo-token for whitespace runs and line comments.
#[derive(Debug)]
pub enum RawToken {
    Junk,
    LowerSymbol(String),
    UpperSymbol(String),
    Bool(bool),
    Number(String),
    String(String),
    LParen,
    RParen,
    LCurl,
    RCurl,
    LSquare,
    RSquare,
    LAngle,
    RAngle,
    Comma,
    SemiColon,
    Colon,
    Dot,
    OrBar,
    SLArrow,
    SRArrow,
    DLArrow,
    DRArrow,
}

/// A raw lexeme: an item with the inclusive byte-offset span of the input
/// text that produced it.
#[derive(Debug)]
pub struct Lexeme {
    pub item: RawToken,
    pub start: usize,
    pub end: usize,
}

/// The item a raw token stands for in the model.
pub open spec fn raw_item(t: RawToken) -> ItemModel {
    match t {
        RawToken::Junk => ItemModel::Junk,
        RawToken::LowerSymbol(x) => ItemModel::LowerSymbol(x@),
        RawToken::UpperSymbol(x) => ItemModel::UpperSymbol(x@),
        RawToken::Bool(b) => ItemModel::Bool(b),
        RawToken::Number(x) => ItemModel::Number(x@),
        RawToken::String(x) => ItemModel::StringLit(x@),
        RawToken::LParen => ItemModel::LParen,
        RawToken::RParen => ItemModel::RParen,
        RawToken::LCurl => ItemModel::LCurl,
        RawToken::RCurl => ItemModel::RCurl,
        RawToken::LSquare => ItemModel::LSquare,
        RawToken::RSquare => ItemModel::RSquare,
        RawToken::LAngle => ItemModel::LAngle,
        RawToken::RAngle => ItemModel::RAngle,
        RawToken::Comma => ItemModel::Comma,
        RawToken::SemiColon => ItemModel::SemiColon,
        RawToken::Colon => ItemModel::Colon,
        RawToken::Dot => ItemModel::Dot,
        RawToken::OrBar => ItemModel::OrBar,
        RawToken::SLArrow => ItemModel::SLArrow,
        RawToken::SRArrow => ItemModel::SRArrow,
        RawToken::DLArrow => ItemModel::DLArrow,
        RawToken::DRArrow => ItemModel::DRArrow,
    }
}

/// The item a token stands for in the model.
pub open spec fn token_item(t: Token) -> ItemModel {
    match t {
        Token::LowerSymbol(_, x) => ItemModel::LowerSymbol(x@),
        Token::UpperSymbol(_, x) => ItemModel::UpperSymbol(x@),
        Token::Bool(_, b) => ItemModel::Bool(b),
        Token::Number(_, x) => ItemModel::Number(x@),
        Token::String(_, x) => ItemModel::StringLit(x@),
        Token::LParen(_) => ItemModel::LParen,
        Token::RParen(_) => ItemModel::RParen,
        Token::LCurl(_) => ItemModel::LCurl,
        Token::RCurl(_) => ItemModel::RCurl,
        Token::LSquare(_) => ItemModel::LSquare,
        Token::RSquare(_) => ItemModel::RSquare,
        Token::LAngle(_) => ItemModel::LAngle,
        Token::RAngle(_) => ItemModel::RAngle,
        Token::Comma(_) => ItemModel::Comma,
        Token::SemiColon(_) => ItemModel::SemiColon,
        Token::Colon(_) => ItemModel::Colon,
        Token::Dot(_) => ItemModel::Dot,
        Token::OrBar(_) => ItemModel::OrBar,
        Token::SLArrow(_) => ItemModel::SLArrow,
        Token::SRArrow(_) => ItemModel::SRArrow,
        Token::DLArrow(_) => ItemModel::DLArrow,
        Token::DRArrow(_) => ItemModel::DRArrow,
    }
}

/// The position record of a token.
pub open spec fn token_meta(t: Token) -> TMeta {
    match t {
        Token::LowerSymbol(m, _) => m,
        Token::UpperSymbol(m, _) => m,
        Token::Bool(m, _) => m,
        Token::Number(m, _) => m,
        Token::String(m, _) => m,
        Token::LParen(m) => m,
        Token::RParen(m) => m,
        Token::LCurl(m) => m,
        Token::RCurl(m) => m,
        Token::LSquare(m) => m,
        Token::RSquare(m) => m,
        Token::LAngle(m) => m,
        Token::RAngle(m) => m,
        Token::Comma(m) => m,
        Token::SemiColon(m) => m,
        Token::Colon(m) => m,
        Token::Dot(m) => m,
        Token::OrBar(m) => m,
        Token::SLArrow(m) => m,
        Token::SRArrow(m) => m,
        Token::DLArrow(m) => m,
        Token::DRArrow(m) => m,
    }
}

/// A raw lexeme reflects a model lexeme of the input `s` exactly: the same
/// item, and the byte offsets of the model's character indices.
pub open spec fn lexeme_reflects(lx: Lexeme, m: LexemeModel, s: Seq<char>) -> bool {
    &&& raw_item(lx.item) == m.item
    &&& lx.start == byte_offset_of(s, m.start)
    &&& lx.end == byte_offset_of(s, m.end)
}

/// A token reflects a non-junk model lexeme of the input `s` exactly: the
/// same item, and the byte offsets of the model's character indices.
pub open spec fn token_reflects(t: Token, m: LexemeModel, s: Seq<char>) -> bool {
    &&& token_item(t) == m.item
    &&& token_meta(t).start == byte_offset_of(s, m.start)
    &&& token_meta(t).end == byte_offset_of(s, m.end)
}

/// A lexing error reflects a model failure of the input `s` exactly: the
/// end-of-input kind carries nothing, and the positioned kind carries the
/// byte offset of the model's character index.
pub open spec fn reflects_failure(e: LexError, f: ScanFailure, s: Seq<char>) -> bool {
    match f {
        ScanFailure::AtChar(j) => e == LexError::PositionedError(byte_offset_of(s, j) as usize),
        ScanFailure::AtEnd => e == LexError::UnexpectedEndOfInput,
    }
}

} // verus!
