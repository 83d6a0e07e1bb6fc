//! Tokens, lexing errors, and their mathematical models.

use vstd::prelude::*;

verus! {

/// The statement keywords of the language.
#[derive(Debug, PartialEq, Eq)]
pub enum Expression {
    /// `echo`: print the string literal that follows.
    EchoExpression,
}

/// A literal value scanned from the source text.
#[derive(Debug, PartialEq, Eq)]
pub enum Type {
    /// A string literal, without its quotes and with escapes resolved.
    String(String),
    /// A decimal number literal.
    Number(i64),
}

/// One lexical unit of a program.
#[derive(Debug, PartialEq, Eq)]
pub enum Token {
    Type(Type),
    Expression(Expression),
    Semicolon,
}

/// Why a source text could not be lexed.
#[derive(Debug, PartialEq, Eq)]
pub enum LexError {
    /// A character that starts no token.
    UnexpectedCharacter(char),
    /// A word that starts with a lower-case letter but is no keyword.
    UnknownExpression(String),
}

/// The mathematical model of a [`Token`].
pub enum TokenModel {
    Str(Seq<char>),
    Num(i64),
    Echo,
    Semicolon,
}

/// The mathematical model of a [`LexError`].
pub enum LexErrorModel {
    UnexpectedCharacter(char),
    UnknownExpression(Seq<char>),
}

impl View for Token {
    type V = TokenModel;

    open spec fn view(&self) -> TokenModel {
        match self {
            Token::Type(Type::String(s)) => TokenModel::Str(s@),
            Token::Type(Type::Number(n)) => TokenModel::Num(*n),
            Token::Expression(Expression::EchoExpression) => TokenModel::Echo,
            Token::Semicolon => TokenModel::Semicolon,
        }
    }
}

impl View for LexError {
    type V = LexErrorModel;

    open spec fn view(&self) -> LexErrorModel {
        match self {
            LexError::UnexpectedCharacter(c) => LexErrorModel::UnexpectedCharacter(*c),
            LexError::UnknownExpression(w) => LexErrorModel::UnknownExpression(w@),
        }
    }
}

/// The models of a sequence of tokens, in order.
pub open spec fn tokens_model(ts: Seq<Token>) -> Seq<TokenModel> {
    ts.map_values(|t: Token| t@)
}

/// The model of what a lexing run returns.
pub open spec fn lex_result_model(r: Result<Vec<Token>, LexError>) -> Result<Seq<TokenModel>, LexErrorModel> {
    match r {
        Ok(ts) => Ok(tokens_model(ts@)),
        Err(e) => Err(e@),
    }
}

impl LexError {
    /// The error as a message for a person to read.
    pub fn message(&self) -> (r: String)
        ensures
            r@ == self@.message(),
    {
        match self {
            LexError::UnexpectedCharacter(c) => {
                let mut m = String::from_str("unexpected character ");
                push_char(&mut m, *c);
                m
            },
            LexError::UnknownExpression(w) => {
                let mut m = String::from_str("unknown expression ");
                m.append(w.as_str());
                m
            },
        }
    }
}

impl LexErrorModel {
    pub open spec fn message(self) -> Seq<char> {
        match self {
            LexErrorModel::UnexpectedCharacter(c) => "unexpected character "@.push(c),
            LexErrorModel::UnknownExpression(w) => "unknown expression "@ + w,
        }
    }
}

/// Relies on `String::push`: appends one character at the end.
#[verifier::external_body]
pub(crate) fn push_char(s: &mut String, c: char)
    ensures
        final(s)@ == old(s)@.push(c),
{
    s.push(c)
}

} // verus!
