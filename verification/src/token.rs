//! Tokens: their kinds, their literal values, and how they are rendered.

use vstd::prelude::*;
use vstd::string::*;
use crate::decimal::{Decimal, DecimalView};

verus! {

/// The kind of a token.
#[derive(Clone, Copy, PartialEq, Eq, Structural, Debug, Hash)]
pub enum TokenType {
    Eof,
    Lparen,
    Rparen,
    Lbrace,
    Rbrace,
    Star,
    Dot,
    Comma,
    Plus,
    Minus,
    Semicolon,
    Slash,
    Equal,
    DoubleEqual,
    Bang,
    BangEqual,
    Less,
    LessEqual,
    Greater,
    GreaterEqual,
    String,
    Number,
    Identifier,
    And,
    Class,
    Else,
    True,
    False,
    For,
    Fun,
    If,
    Nil,
    Or,
    Print,
    Return,
    Super,
    This,
    Var,
    While,
}

impl TokenType {
    /// The upper-case symbolic name of the kind.
    pub open spec fn label(self) -> Seq<char> {
        match self {
            TokenType::Eof => "EOF"@,
            TokenType::Lparen => "LEFT_PAREN"@,
            TokenType::Rparen => "RIGHT_PAREN"@,
            TokenType::Lbrace => "LEFT_BRACE"@,
            TokenType::Rbrace => "RIGHT_BRACE"@,
            TokenType::Star => "STAR"@,
            TokenType::Dot => "DOT"@,
            TokenType::Comma => "COMMA"@,
            TokenType::Plus => "PLUS"@,
            TokenType::Minus => "MINUS"@,
            TokenType::Semicolon => "SEMICOLON"@,
            TokenType::Slash => "SLASH"@,
            TokenType::Equal => "EQUAL"@,
            TokenType::DoubleEqual => "EQUAL_EQUAL"@,
            TokenType::Bang => "BANG"@,
            TokenType::BangEqual => "BANG_EQUAL"@,
            TokenType::Less => "LESS"@,
            TokenType::LessEqual => "LESS_EQUAL"@,
            TokenType::Greater => "GREATER"@,
            TokenType::GreaterEqual => "GREATER_EQUAL"@,
            TokenType::String => "STRING"@,
            TokenType::Number => "NUMBER"@,
            TokenType::Identifier => "IDENTIFIER"@,
            TokenType::And => "AND"@,
            TokenType::Class => "CLASS"@,
            TokenType::Else => "ELSE"@,
            TokenType::True => "TRUE"@,
            TokenType::False => "FALSE"@,
            TokenType::For => "FOR"@,
            TokenType::Fun => "FUN"@,
            TokenType::If => "IF"@,
            TokenType::Nil => "NIL"@,
            TokenType::Or => "OR"@,
            TokenType::Print => "PRINT"@,
            TokenType::Return => "RETURN"@,
            TokenType::Super => "SUPER"@,
            TokenType::This => "THIS"@,
            TokenType::Var => "VAR"@,
            TokenType::While => "WHILE"@,
        }
    }

    /// Returns the upper-case symbolic name of the kind.
    pub fn name(&self) -> (r: &'static str)
        ensures
            r@ == self.label(),
    {
        match self {
            TokenType::Eof => "EOF",
            TokenType::Lparen => "LEFT_PAREN",
            TokenType::Rparen => "RIGHT_PAREN",
            TokenType::Lbrace => "LEFT_BRACE",
            TokenType::Rbrace => "RIGHT_BRACE",
            TokenType::Star => "STAR",
            TokenType::Dot => "DOT",
            TokenType::Comma => "COMMA",
            TokenType::Plus => "PLUS",
            TokenType::Minus => "MINUS",
            TokenType::Semicolon => "SEMICOLON",
            TokenType::Slash => "SLASH",
            TokenType::Equal => "EQUAL",
            TokenType::DoubleEqual => "EQUAL_EQUAL",
            TokenType::Bang => "BANG",
            TokenType::BangEqual => "BANG_EQUAL",
            TokenType::Less => "LESS",
            TokenType::LessEqual => "LESS_EQUAL",
            TokenType::Greater => "GREATER",
            TokenType::GreaterEqual => "GREATER_EQUAL",
            TokenType::String => "STRING",
            TokenType::Number => "NUMBER",
            TokenType::Identifier => "IDENTIFIER",
            TokenType::And => "AND",
            TokenType::Class => "CLASS",
            TokenType::Else => "ELSE",
            TokenType::True => "TRUE",
            TokenType::False => "FALSE",
            TokenType::For => "FOR",
            TokenType::Fun => "FUN",
            TokenType::If => "IF",
            TokenType::Nil => "NIL",
            TokenType::Or => "OR",
            TokenType::Print => "PRINT",
            TokenType::Return => "RETURN",
            TokenType::Super => "SUPER",
            TokenType::This => "THIS",
            TokenType::Var => "VAR",
            TokenType::While => "WHILE",
        }
    }
}

/// The kind that a reserved word stands for; `None` for any other text. The
/// match is exact and case-sensitive.
pub open spec fn keyword(text: Seq<char>) -> Option<TokenType> {
    if text == "and"@ {
        Some(TokenType::And)
    } else if text == "class"@ {
        Some(TokenType::Class)
    } else if text == "else"@ {
        Some(TokenType::Else)
    } else if text == "false"@ {
        Some(TokenType::False)
    } else if text == "for"@ {
        Some(TokenType::For)
    } else if text == "fun"@ {
        Some(TokenType::Fun)
    } else if text == "if"@ {
        Some(TokenType::If)
    } else if text == "nil"@ {
        Some(TokenType::Nil)
    } else if text == "or"@ {
        Some(TokenType::Or)
    } else if text == "print"@ {
        Some(TokenType::Print)
    } else if text == "return"@ {
        Some(TokenType::Return)
    } else if text == "super"@ {
        Some(TokenType::Super)
    } else if text == "this"@ {
        Some(TokenType::This)
    } else if text == "true"@ {
        Some(TokenType::True)
    } else if text == "var"@ {
        Some(TokenType::Var)
    } else if text == "while"@ {
        Some(TokenType::While)
    } else {
        None
    }
}

/// The decoded value that a token carries.
#[derive(Clone, Copy, PartialEq, Eq, Debug)]
pub enum Literal<'a> {
    /// No value: every token but a string or a number.
    Null,
    /// The text strictly between the quotes of a string literal.
    Str(&'a str),
    /// The value of a number literal.
    Number(Decimal<'a>),
}

/// The mathematical content of a `Literal`.
pub enum LiteralView {
    Null,
    Str(Seq<char>),
    Number(DecimalView),
}

impl LiteralView {
    /// The text that stands for the value: `null` for no value, the content
    /// itself for a string, the shortest form for a number.
    pub open spec fn rendered(self) -> Seq<char> {
        match self {
            LiteralView::Null => "null"@,
            LiteralView::Str(content) => content,
            LiteralView::Number(number) => number.rendered(),
        }
    }
}

impl<'a> View for Literal<'a> {
    type V = LiteralView;

    open spec fn view(&self) -> LiteralView {
        match self {
            Literal::Null => LiteralView::Null,
            Literal::Str(content) => LiteralView::Str(content@),
            Literal::Number(number) => LiteralView::Number(number@),
        }
    }
}

impl<'a> Literal<'a> {
    /// Renders the value as text.
    pub fn render(&self) -> (r: String)
        ensures
            r@ == self@.rendered(),
    {
        match self {
            Literal::Null => String::from_str("null"),
            Literal::Str(content) => String::from_str(content),
            Literal::Number(number) => number.render(),
        }
    }
}

/// A classified unit of source text with its decoded value. The lexeme and
/// the value borrow from the source text.
#[derive(Clone, Copy, PartialEq, Eq, Debug)]
pub struct Token<'a> {
    /// The kind of the token.
    pub typ: TokenType,
    /// The exact source text of the token.
    pub lexeme: &'a str,
    /// The decoded value; `Null` for all but strings and numbers.
    pub literal: Literal<'a>,
}

/// The mathematical content of a `Token`.
pub struct TokenView {
    pub typ: TokenType,
    pub lexeme: Seq<char>,
    pub literal: LiteralView,
}

impl TokenView {
    /// The line that shows the token: the kind's name, the lexeme and the
    /// rendered value, with one space between them.
    pub open spec fn rendered(self) -> Seq<char> {
        self.typ.label() + seq![' '] + self.lexeme + seq![' '] + self.literal.rendered()
    }
}

impl<'a> View for Token<'a> {
    type V = TokenView;

    open spec fn view(&self) -> TokenView {
        TokenView { typ: self.typ, lexeme: self.lexeme@, literal: self.literal@ }
    }
}

impl<'a> DeepView for Token<'a> {
    type V = TokenView;

    open spec fn deep_view(&self) -> TokenView {
        self@
    }
}

impl<'a> Token<'a> {
    /// Makes a token of the three parts.
    pub fn new(typ: TokenType, lexeme: &'a str, literal: Literal<'a>) -> (r: Self)
        ensures
            r.typ == typ,
            r.lexeme == lexeme,
            r.literal == literal,
    {
        Token { typ, lexeme, literal }
    }

    /// Renders the token as one line of text.
    pub fn render(&self) -> (r: String)
        ensures
            r@ == self@.rendered(),
    {
        let mut out = String::from_str(self.typ.name());
        out.append(" ");
        out.append(self.lexeme);
        out.append(" ");
        let value = self.literal.render();
        out.append(value.as_str());
        proof {
            reveal_strlit(" ");
            assert(" "@ =~= seq![' ']);
        }
        out
    }
}

} // verus!
