//! Tokens: what the lexer hands to the parser.
use vstd::prelude::*;

verus! {

/// One token of a query.
///
/// The variants that carry a string hold the text as it was written: the
/// case of its letters is kept, and every escape sequence is left as it
/// stood.
#[derive(Debug, PartialEq, Eq)]
pub enum Token {
    /// End of input.
    EOS,
    /// `=`
    EQ,
    /// `<>`
    NE,
    /// `<`
    LT,
    /// `>`
    GT,
    /// `<=`
    LE,
    /// `>=`
    GE,
    /// `==`
    Exact,
    /// `/`, which starts a modifier.
    Modifier,
    /// `(`
    LP,
    /// `)`
    RP,
    /// A bare word that may serve as a relation.
    PrefixName(String),
    /// A quoted string, or a bare word that is no relation.
    SimpleString(String),
    /// The keyword `and`.
    And(String),
    /// The keyword `or`.
    Or(String),
    /// The keyword `not`.
    Not(String),
    /// The keyword `prox`.
    Prox(String),
    /// The keyword `sortby`.
    Sortby(String),
}

/// The mathematical value of a [`Token`]: the same variants over sequences of
/// characters.
pub ghost enum TokenView {
    EOS,
    EQ,
    NE,
    LT,
    GT,
    LE,
    GE,
    Exact,
    Modifier,
    LP,
    RP,
    PrefixName(Seq<char>),
    SimpleString(Seq<char>),
    And(Seq<char>),
    Or(Seq<char>),
    Not(Seq<char>),
    Prox(Seq<char>),
    Sortby(Seq<char>),
}

impl View for Token {
    type V = TokenView;

    open spec fn view(&self) -> TokenView {
        match self {
            Token::EOS => TokenView::EOS,
            Token::EQ => TokenView::EQ,
            Token::NE => TokenView::NE,
            Token::LT => TokenView::LT,
            Token::GT => TokenView::GT,
            Token::LE => TokenView::LE,
            Token::GE => TokenView::GE,
            Token::Exact => TokenView::Exact,
            Token::Modifier => TokenView::Modifier,
            Token::LP => TokenView::LP,
            Token::RP => TokenView::RP,
            Token::PrefixName(s) => TokenView::PrefixName(s@),
            Token::SimpleString(s) => TokenView::SimpleString(s@),
            Token::And(s) => TokenView::And(s@),
            Token::Or(s) => TokenView::Or(s@),
            Token::Not(s) => TokenView::Not(s@),
            Token::Prox(s) => TokenView::Prox(s@),
            Token::Sortby(s) => TokenView::Sortby(s@),
        }
    }
}

impl TokenView {
    /// The text of a token that can stand as a term: a string, a name, or a
    /// keyword read as a plain word.
    pub open spec fn term_text(self) -> Option<Seq<char>> {
        match self {
            TokenView::SimpleString(s) => Some(s),
            TokenView::PrefixName(s) => Some(s),
            TokenView::And(s) => Some(s),
            TokenView::Or(s) => Some(s),
            TokenView::Not(s) => Some(s),
            TokenView::Prox(s) => Some(s),
            TokenView::Sortby(s) => Some(s),
            _ => None,
        }
    }

    /// The text of a symbolic relation.
    pub open spec fn symbol_text(self) -> Option<Seq<char>> {
        match self {
            TokenView::EQ => Some("="@),
            TokenView::GT => Some(">"@),
            TokenView::LT => Some("<"@),
            TokenView::GE => Some(">="@),
            TokenView::LE => Some("<="@),
            TokenView::NE => Some("<>"@),
            TokenView::Exact => Some("=="@),
            _ => None,
        }
    }

    /// The text of a relation: a symbolic one, or a name used as one.
    pub open spec fn relation_text(self) -> Option<Seq<char>> {
        match self {
            TokenView::PrefixName(s) => Some(s),
            _ => self.symbol_text(),
        }
    }

    /// The text of a boolean operator.
    pub open spec fn boolean_text(self) -> Option<Seq<char>> {
        match self {
            TokenView::And(s) => Some(s),
            TokenView::Or(s) => Some(s),
            TokenView::Not(s) => Some(s),
            TokenView::Prox(s) => Some(s),
            _ => None,
        }
    }
}

} // verus!
