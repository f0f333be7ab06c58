use vstd::prelude::*;

verus! {

/// One lexical unit of an arithmetic expression.
///
/// A number keeps the text of its literal (digits and at most one decimal
/// point); turning that text into a machine number is left to the caller.
#[derive(Debug, PartialEq)]
pub enum Token {
    Number(String),
    Add,
    Subtract,
    Multiply,
    Divide,
}

/// The mathematical counterpart of a [`Token`]: a literal is its characters.
pub enum Lexeme {
    Number(Seq<char>),
    Add,
    Subtract,
    Multiply,
    Divide,
}

impl View for Token {
    type V = Lexeme;

    open spec fn view(&self) -> Lexeme {
        match self {
            Token::Number(s) => Lexeme::Number(s@),
            Token::Add => Lexeme::Add,
            Token::Subtract => Lexeme::Subtract,
            Token::Multiply => Lexeme::Multiply,
            Token::Divide => Lexeme::Divide,
        }
    }
}

/// The lexemes of a token sequence, in order.
pub open spec fn lexemes(ts: Seq<Token>) -> Seq<Lexeme> {
    ts.map_values(|t: Token| t@)
}

/// Why an expression could not be tokenized or parsed.
#[derive(Debug, Clone, Copy, PartialEq, Eq, Structural)]
pub enum ExprError {
    /// A character that is neither part of a number, an operator nor a space.
    InvalidCharacter(char),
    /// A run of digits and points that is not a decimal number.
    NumberFormat,
    /// The parser wanted a number and found an operator or the end of input.
    UnexpectedToken,
}

} // verus!
