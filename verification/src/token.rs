//! The token data model: every lexical unit of an expression, with its
//! classification, precedence and associativity.

use crate::number::pow_num;
use crate::number::Number;
use vstd::prelude::*;

verus! {

/// The mathematical model of a token: a literal is the rendering of its
/// value, a name is its sequence of characters.
pub enum TokenV {
    Lit(Seq<char>),
    FnCall(Seq<char>),
    Identifier(Seq<char>),
    Comma,
    Plus,
    Minus,
    Star,
    Slash,
    Caret,
    LeftParen,
    RightParen,
}

/// One lexical unit of an expression.
pub enum Token {
    /// A number literal.
    Lit(Number),
    /// A name immediately followed by `(` at lex time; resolved against the
    /// function registry at evaluation time.
    FnCall(String),
    /// A bare name; resolved against the constant registry at evaluation
    /// time.
    Identifier(String),
    Comma,
    Plus,
    Minus,
    Star,
    Slash,
    Caret,
    LeftParen,
    RightParen,
}

impl View for Token {
    type V = TokenV;

    open spec fn view(&self) -> TokenV {
        match self {
            Token::Lit(n) => TokenV::Lit(n@),
            Token::FnCall(s) => TokenV::FnCall(s@),
            Token::Identifier(s) => TokenV::Identifier(s@),
            Token::Comma => TokenV::Comma,
            Token::Plus => TokenV::Plus,
            Token::Minus => TokenV::Minus,
            Token::Star => TokenV::Star,
            Token::Slash => TokenV::Slash,
            Token::Caret => TokenV::Caret,
            Token::LeftParen => TokenV::LeftParen,
            Token::RightParen => TokenV::RightParen,
        }
    }
}

impl DeepView for Token {
    type V = TokenV;

    open spec fn deep_view(&self) -> TokenV {
        self.view()
    }
}

impl Clone for Token {
    fn clone(&self) -> (r: Self)
        ensures
            r == *self,
    {
        match self {
            Token::Lit(n) => Token::Lit(n.clone()),
            Token::FnCall(s) => Token::FnCall(s.clone()),
            Token::Identifier(s) => Token::Identifier(s.clone()),
            Token::Comma => Token::Comma,
            Token::Plus => Token::Plus,
            Token::Minus => Token::Minus,
            Token::Star => Token::Star,
            Token::Slash => Token::Slash,
            Token::Caret => Token::Caret,
            Token::LeftParen => Token::LeftParen,
            Token::RightParen => Token::RightParen,
        }
    }
}

/// The token is one of the five binary operators.
pub open spec fn spec_is_operator(t: TokenV) -> bool {
    t is Plus || t is Minus || t is Star || t is Slash || t is Caret
}

/// The fixed precedence of an operator token; anything else gets -1.
pub open spec fn spec_precedence(t: TokenV) -> int {
    if t is Plus || t is Minus {
        2
    } else if t is Star || t is Slash {
        3
    } else if t is Caret {
        4
    } else {
        -1
    }
}

/// Every operator associates to the left, except exponentiation.
pub open spec fn spec_left_associated(t: TokenV) -> bool {
    !(t is Caret)
}

impl Token {
    /// The value a literal token carries.
    pub fn lit_val(&self) -> (r: Number)
        requires
            self@ is Lit,
        ensures
            r@ == self@->Lit_0,
    {
        match self {
            Token::Lit(n) => n.clone(),
            _ => vstd::pervasive::unreached(),
        }
    }

    /// The fixed precedence of an operator token; anything else gets -1.
    pub fn precedence(&self) -> (r: i64)
        ensures
            r == spec_precedence(self@),
    {
        match self {
            Token::Plus | Token::Minus => 2,
            Token::Star | Token::Slash => 3,
            Token::Caret => 4,
            _ => -1,
        }
    }

    /// Whether this token is a number literal.
    pub fn is_lit(&self) -> (r: bool)
        ensures
            r == (self@ is Lit),
    {
        matches!(self, Token::Lit(_))
    }

    /// Whether this token is a bare identifier.
    pub fn is_ident(&self) -> (r: bool)
        ensures
            r == (self@ is Identifier),
    {
        matches!(self, Token::Identifier(_))
    }

    /// Whether this token is one of the five binary operators.
    pub fn is_operator(&self) -> (r: bool)
        ensures
            r == spec_is_operator(self@),
    {
        matches!(self, Token::Plus | Token::Minus | Token::Star | Token::Slash | Token::Caret)
    }

    /// Whether this token is a function call.
    pub fn is_function(&self) -> (r: bool)
        ensures
            r == (self@ is FnCall),
    {
        matches!(self, Token::FnCall(_))
    }

    /// Every operator associates to the left, except exponentiation.
    pub fn left_associated(&self) -> (r: bool)
        ensures
            r == spec_left_associated(self@),
    {
        !matches!(self, Token::Caret)
    }

    /// This literal raised to another, at the working precision.
    pub fn pow(&self, rhs: Token) -> (r: Token)
        requires
            self@ is Lit,
            rhs@ is Lit,
        ensures
            r@ == TokenV::Lit(pow_num(self@->Lit_0, rhs@->Lit_0)),
    {
        Token::Lit(self.lit_val().to_power(&rhs.lit_val()))
    }

    /// The name an identifier or function-call token carries.
    pub fn identifier(&self) -> (r: String)
        requires
            self@ is Identifier || self@ is FnCall,
        ensures
            self@ is Identifier ==> r@ == self@->Identifier_0,
            self@ is FnCall ==> r@ == self@->FnCall_0,
    {
        match self {
            Token::Identifier(s) => s.clone(),
            Token::FnCall(s) => s.clone(),
            _ => vstd::pervasive::unreached(),
        }
    }
}

} // verus!
