use vstd::prelude::*;

verus! {

/// One lexical unit of an arithmetic expression. A numeral is carried as its
/// normalized text: the digits and at most one decimal point, with a digit on
/// each side of the point.
#[derive(Clone, Debug, PartialEq)]
pub enum Token {
    Number(String),
    Plus,
    Minus,
    Multiply,
    Divide,
    Lparen,
    Rparen,
}

/// The mathematical value of a [`Token`]: the same tags, with the numeral
/// text abstracted to a sequence of characters.
pub enum TokenModel {
    Number(Seq<char>),
    Plus,
    Minus,
    Multiply,
    Divide,
    Lparen,
    Rparen,
}

impl View for Token {
    type V = TokenModel;

    open spec fn view(&self) -> TokenModel {
        match self {
            Token::Number(s) => TokenModel::Number(s@),
            Token::Plus => TokenModel::Plus,
            Token::Minus => TokenModel::Minus,
            Token::Multiply => TokenModel::Multiply,
            Token::Divide => TokenModel::Divide,
            Token::Lparen => TokenModel::Lparen,
            Token::Rparen => TokenModel::Rparen,
        }
    }
}

} // verus!
