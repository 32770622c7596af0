//! The token model: the closed set of lexical categories and the payload a
//! scanned token carries (category, matched text, source line).

use vstd::prelude::*;
use vstd::string::StringExecFns;

verus! {

/// The closed set of lexical categories. `Init` is a sentinel used for a
/// parser's lookahead before the first token is read; scanning never
/// produces it.
#[derive(Debug, PartialEq, Eq, Hash, Copy, Clone, Structural)]
pub enum TokenType {
    Init,
    LeftParen,
    RightParen,
    LeftBrace,
    RightBrace,
    LeftSquare,
    RightSquare,
    Dispatch,
    True,
    False,
    Identifier,
    Keyword,
    String,
    IntegerNumber,
    FloatNumber,
    FractionNumber,
    Error,
    Eof,
}

/// The printable name of a token category, as it appears in diagnostics.
pub open spec fn spec_token_type_name(kind: TokenType) -> Seq<char> {
    match kind {
        TokenType::Init => "Init"@,
        TokenType::LeftParen => "LeftParen"@,
        TokenType::RightParen => "RightParen"@,
        TokenType::LeftBrace => "LeftBrace"@,
        TokenType::RightBrace => "RightBrace"@,
        TokenType::LeftSquare => "LeftSquare"@,
        TokenType::RightSquare => "RightSquare"@,
        TokenType::Dispatch => "Dispatch"@,
        TokenType::True => "True"@,
        TokenType::False => "False"@,
        TokenType::Identifier => "Identifier"@,
        TokenType::Keyword => "Keyword"@,
        TokenType::String => "String"@,
        TokenType::IntegerNumber => "IntegerNumber"@,
        TokenType::FloatNumber => "FloatNumber"@,
        TokenType::FractionNumber => "FractionNumber"@,
        TokenType::Error => "Error"@,
        TokenType::Eof => "Eof"@,
    }
}

impl TokenType {
    /// The printable name of this category.
    pub fn name(&self) -> (s: String)
        ensures
            s@ == spec_token_type_name(*self),
    {
        match self {
            TokenType::Init => String::from_str("Init"),
            TokenType::LeftParen => String::from_str("LeftParen"),
            TokenType::RightParen => String::from_str("RightParen"),
            TokenType::LeftBrace => String::from_str("LeftBrace"),
            TokenType::RightBrace => String::from_str("RightBrace"),
            TokenType::LeftSquare => String::from_str("LeftSquare"),
            TokenType::RightSquare => String::from_str("RightSquare"),
            TokenType::Dispatch => String::from_str("Dispatch"),
            TokenType::True => String::from_str("True"),
            TokenType::False => String::from_str("False"),
            TokenType::Identifier => String::from_str("Identifier"),
            TokenType::Keyword => String::from_str("Keyword"),
            TokenType::String => String::from_str("String"),
            TokenType::IntegerNumber => String::from_str("IntegerNumber"),
            TokenType::FloatNumber => String::from_str("FloatNumber"),
            TokenType::FractionNumber => String::from_str("FractionNumber"),
            TokenType::Error => String::from_str("Error"),
            TokenType::Eof => String::from_str("Eof"),
        }
    }
}

/// The mathematical value of a token: its category, the characters of the
/// matched text, and where it stood in the source.
pub ghost struct TokenModel {
    pub kind: TokenType,
    pub text: Seq<char>,
    pub start: nat,
    pub line: nat,
}

/// One token. `src` holds the exact matched text, except for `Error` tokens,
/// whose `src` carries the diagnostic message instead.
pub struct Token {
    pub kind: TokenType,
    pub start: usize,
    pub src: String,
    pub line: usize,
}

impl View for Token {
    type V = TokenModel;

    open spec fn view(&self) -> TokenModel {
        TokenModel {
            kind: self.kind,
            text: self.src@,
            start: self.start as nat,
            line: self.line as nat,
        }
    }
}

impl Token {
    pub fn new(kind: TokenType, start: usize, src: String, line: usize) -> (t: Token)
        ensures
            t@ == (TokenModel { kind, text: src@, start: start as nat, line: line as nat }),
    {
        Token { kind, start, src, line }
    }
}

impl Default for Token {
    /// The sentinel token a parser starts from: category `Init`, empty text.
    fn default() -> (t: Token)
        ensures
            t@.kind == TokenType::Init,
            t@.text == Seq::<char>::empty(),
            t@.start == 0,
            t@.line == 0,
    {
        Token { kind: TokenType::Init, start: 0, src: String::new(), line: 0 }
    }
}

} // verus!
