//! The tokens that the tokenizer produces.

use vstd::prelude::*;

verus! {

/// What kind of token a piece of source text is.
#[allow(non_camel_case_types)]
#[derive(Debug, PartialEq, Eq, Structural)]
pub enum TokenType {
    LEFTPAREN,
    RIGHTPAREN,
    MINUS,
    PLUS,
    SLASH,
    STAR,
    STARSTAR,
    OR,
    AND,
    MOD,
    BANG,
    BANGEQUAL,
    STRINGEQUAL,
    EQUAL,
    EQUALEQUAL,
    GREATER,
    GREATEREQUAL,
    LESSER,
    LESSEREQUAL,
    IDENTIFIER,
    STRING,
    NUMBER,
    TRUE,
    FALSE,
    COND,
    IF,
    ELSE,
    FUN,
    LIST,
}

impl Clone for TokenType {
    fn clone(&self) -> (r: Self)
        ensures
            r == *self,
    {
        match self {
            Self::LEFTPAREN => Self::LEFTPAREN,
            Self::RIGHTPAREN => Self::RIGHTPAREN,
            Self::MINUS => Self::MINUS,
            Self::PLUS => Self::PLUS,
            Self::SLASH => Self::SLASH,
            Self::STAR => Self::STAR,
            Self::STARSTAR => Self::STARSTAR,
            Self::OR => Self::OR,
            Self::AND => Self::AND,
            Self::MOD => Self::MOD,
            Self::BANG => Self::BANG,
            Self::BANGEQUAL => Self::BANGEQUAL,
            Self::STRINGEQUAL => Self::STRINGEQUAL,
            Self::EQUAL => Self::EQUAL,
            Self::EQUALEQUAL => Self::EQUALEQUAL,
            Self::GREATER => Self::GREATER,
            Self::GREATEREQUAL => Self::GREATEREQUAL,
            Self::LESSER => Self::LESSER,
            Self::LESSEREQUAL => Self::LESSEREQUAL,
            Self::IDENTIFIER => Self::IDENTIFIER,
            Self::STRING => Self::STRING,
            Self::NUMBER => Self::NUMBER,
            Self::TRUE => Self::TRUE,
            Self::FALSE => Self::FALSE,
            Self::COND => Self::COND,
            Self::IF => Self::IF,
            Self::ELSE => Self::ELSE,
            Self::FUN => Self::FUN,
            Self::LIST => Self::LIST,
        }
    }
}

impl Copy for TokenType {

}

/// The value a token carries: the text of a string, or a number.
#[derive(Debug, PartialEq)]
pub enum Literal {
    String(String),
    Number(i32),
}

/// The mathematical content of a `Literal`.
pub enum LiteralModel {
    Text(Seq<char>),
    Number(int),
}

impl View for Literal {
    type V = LiteralModel;

    open spec fn view(&self) -> LiteralModel {
        match *self {
            Literal::String(s) => LiteralModel::Text(s@),
            Literal::Number(n) => LiteralModel::Number(n as int),
        }
    }
}

/// One token: its type, the text it was read from, and its value.
#[derive(Debug, PartialEq)]
pub struct Token {
    pub token_type: TokenType,
    pub lexeme: String,
    pub literal: Literal,
}

/// The mathematical content of a `Token`.
pub struct TokenModel {
    pub token_type: TokenType,
    pub lexeme: Seq<char>,
    pub literal: LiteralModel,
}

impl View for Token {
    type V = TokenModel;

    open spec fn view(&self) -> TokenModel {
        TokenModel { token_type: self.token_type, lexeme: self.lexeme@, literal: self.literal@ }
    }
}

/// The contents of a run of tokens.
pub open spec fn token_models(tokens: Seq<Token>) -> Seq<TokenModel> {
    Seq::new(tokens.len(), |i: int| tokens[i]@)
}

} // verus!
