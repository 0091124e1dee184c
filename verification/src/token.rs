//! Tokens and lexical errors, and the mathematical values they stand for.
use vstd::prelude::*;

verus! {

/// Why tokenizing stopped.
#[derive(Debug, PartialEq)]
pub enum LexerError {
    /// A character that starts no token, or the first character of a word
    /// that is not a keyword.
    UnexpectedChar(char),
    /// A string literal was opened and the input ended before it was closed.
    UnterminatedString,
    /// A numeric literal whose exponent marker is followed by no digit; it
    /// carries the text that was read.
    InvalidNumber(String),
}

/// One lexical unit of a formula.
#[derive(Debug, PartialEq)]
pub enum Token {
    /// A numeric literal, as the text that was matched.
    Number(String),
    /// A string literal, decoded: without its quotes, doubled quotes undone.
    String(String),
    /// `TRUE` or `FALSE`, in any case.
    Bool(bool),
    /// An error literal other than `#REF!`, with its leading `#`.
    Error(String),
    /// The reference error `#REF!`.
    ErrorRef,
    /// `+`
    Plus,
    /// `-`
    Minus,
    /// `*`
    Multiply,
    /// `/`
    Divide,
    /// `^`
    Power,
    /// `=`
    Equal,
    /// `<>`
    NotEqual,
    /// `<`
    Less,
    /// `>`
    Greater,
    /// `<=`
    LessEqual,
    /// `>=`
    GreaterEqual,
    /// `&`
    Concatenate,
    /// A cell reference such as `A1` or `$B$2`, as matched.
    Cell(String),
    /// A range of columns such as `A:Z`, as matched.
    VerticalRange(String),
    /// A range of rows such as `1:10`, as matched.
    HorizontalRange(String),
    /// `{`
    LeftBrace,
    /// `}`
    RightBrace,
    /// `,`
    Comma,
    /// `;`
    Semicolon,
    /// `:`
    Colon,
    /// The end of the input: the last token of every token sequence.
    Eof,
}

/// The value of a [`LexerError`]: the same variants over sequences of
/// characters.
pub enum LexerErrorView {
    UnexpectedChar(char),
    UnterminatedString,
    InvalidNumber(Seq<char>),
}

/// The value of a [`Token`]: the same variants over sequences of characters.
pub enum TokenView {
    Number(Seq<char>),
    String(Seq<char>),
    Bool(bool),
    Error(Seq<char>),
    ErrorRef,
    Plus,
    Minus,
    Multiply,
    Divide,
    Power,
    Equal,
    NotEqual,
    Less,
    Greater,
    LessEqual,
    GreaterEqual,
    Concatenate,
    Cell(Seq<char>),
    VerticalRange(Seq<char>),
    HorizontalRange(Seq<char>),
    LeftBrace,
    RightBrace,
    Comma,
    Semicolon,
    Colon,
    Eof,
}

impl View for LexerError {
    type V = LexerErrorView;

    open spec fn view(&self) -> LexerErrorView {
        match *self {
            LexerError::UnexpectedChar(c) => LexerErrorView::UnexpectedChar(c),
            LexerError::UnterminatedString => LexerErrorView::UnterminatedString,
            LexerError::InvalidNumber(text) => LexerErrorView::InvalidNumber(text@),
        }
    }
}

impl View for Token {
    type V = TokenView;

    open spec fn view(&self) -> TokenView {
        match *self {
            Token::Number(text) => TokenView::Number(text@),
            Token::String(text) => TokenView::String(text@),
            Token::Bool(b) => TokenView::Bool(b),
            Token::Error(text) => TokenView::Error(text@),
            Token::ErrorRef => TokenView::ErrorRef,
            Token::Plus => TokenView::Plus,
            Token::Minus => TokenView::Minus,
            Token::Multiply => TokenView::Multiply,
            Token::Divide => TokenView::Divide,
            Token::Power => TokenView::Power,
            Token::Equal => TokenView::Equal,
            Token::NotEqual => TokenView::NotEqual,
            Token::Less => TokenView::Less,
            Token::Greater => TokenView::Greater,
            Token::LessEqual => TokenView::LessEqual,
            Token::GreaterEqual => TokenView::GreaterEqual,
            Token::Concatenate => TokenView::Concatenate,
            Token::Cell(text) => TokenView::Cell(text@),
            Token::VerticalRange(text) => TokenView::VerticalRange(text@),
            Token::HorizontalRange(text) => TokenView::HorizontalRange(text@),
            Token::LeftBrace => TokenView::LeftBrace,
            Token::RightBrace => TokenView::RightBrace,
            Token::Comma => TokenView::Comma,
            Token::Semicolon => TokenView::Semicolon,
            Token::Colon => TokenView::Colon,
            Token::Eof => TokenView::Eof,
        }
    }
}

impl Clone for LexerError {
    /// A copy that stands for the same value.
    fn clone(&self) -> (copy: Self)
        ensures
            copy@ == self@,
    {
        match self {
            LexerError::UnexpectedChar(c) => LexerError::UnexpectedChar(*c),
            LexerError::UnterminatedString => LexerError::UnterminatedString,
            LexerError::InvalidNumber(text) => LexerError::InvalidNumber(text.clone()),
        }
    }
}

impl Clone for Token {
    /// A copy that stands for the same value.
    fn clone(&self) -> (copy: Self)
        ensures
            copy@ == self@,
    {
        match self {
            Token::Number(text) => Token::Number(text.clone()),
            Token::String(text) => Token::String(text.clone()),
            Token::Bool(b) => Token::Bool(*b),
            Token::Error(text) => Token::Error(text.clone()),
            Token::ErrorRef => Token::ErrorRef,
            Token::Plus => Token::Plus,
            Token::Minus => Token::Minus,
            Token::Multiply => Token::Multiply,
            Token::Divide => Token::Divide,
            Token::Power => Token::Power,
            Token::Equal => Token::Equal,
            Token::NotEqual => Token::NotEqual,
            Token::Less => Token::Less,
            Token::Greater => Token::Greater,
            Token::LessEqual => Token::LessEqual,
            Token::GreaterEqual => Token::GreaterEqual,
            Token::Concatenate => Token::Concatenate,
            Token::Cell(text) => Token::Cell(text.clone()),
            Token::VerticalRange(text) => Token::VerticalRange(text.clone()),
            Token::HorizontalRange(text) => Token::HorizontalRange(text.clone()),
            Token::LeftBrace => Token::LeftBrace,
            Token::RightBrace => Token::RightBrace,
            Token::Comma => Token::Comma,
            Token::Semicolon => Token::Semicolon,
            Token::Colon => Token::Colon,
            Token::Eof => Token::Eof,
        }
    }
}

/// The values of a sequence of tokens, in order.
pub open spec fn token_views(tokens: Seq<Token>) -> Seq<TokenView> {
    tokens.map_values(|t: Token| t@)
}

/// The value of what producing one token returned.
pub open spec fn token_outcome(r: Result<Token, LexerError>) -> Result<TokenView, LexerErrorView> {
    match r {
        Ok(t) => Ok(t@),
        Err(e) => Err(e@),
    }
}

/// The value of what a whole tokenization returned.
pub open spec fn tokens_outcome(r: Result<Vec<Token>, LexerError>) -> Result<
    Seq<TokenView>,
    LexerErrorView,
> {
    match r {
        Ok(tokens) => Ok(token_views(tokens@)),
        Err(e) => Err(e@),
    }
}

} // verus!
