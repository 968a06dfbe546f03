//! Lexical tokens, their source locations, and how both are written out in
//! diagnostics.

use crate::text::{debug_string, debug_text, decimal, push_decimal};
use vstd::prelude::*;
use vstd::string::StringExecFns;

verus! {

/// A position in the source text. Lines and columns count characters from
/// one; the default location, `0:0`, stands for "no position" and is what
/// the end-of-input marker carries.
#[derive(Clone, Copy, PartialEq, Eq, Structural, Debug)]
pub struct Location {
    pub line: usize,
    pub column: usize,
}

impl Default for Location {
    fn default() -> (r: Location)
        ensures
            r == Location::nowhere(),
    {
        Location { line: 0, column: 0 }
    }
}

impl Location {
    /// The location of the end-of-input marker.
    pub open spec fn nowhere() -> Location {
        Location { line: 0, column: 0 }
    }

    /// The location as it appears in messages: `line:column`.
    pub open spec fn text(self) -> Seq<char> {
        decimal(self.line as nat) + ":"@ + decimal(self.column as nat)
    }

    /// Writes the location as `line:column`.
    pub fn describe(&self) -> (r: String)
        ensures
            r@ == self.text(),
    {
        let mut out = String::new();
        push_decimal(&mut out, self.line);
        out.append(":");
        push_decimal(&mut out, self.column);
        out
    }
}

/// The reserved words of the language.
#[derive(Clone, Copy, PartialEq, Eq, Structural, Debug)]
pub enum Keyword {
    Select,
    From,
    Where,
    Group,
    By,
    Order,
    Limit,
    And,
    Or,
    Not,
    Is,
    Null,
    Between,
    In,
    As,
    Create,
    Table,
    Insert,
    Update,
    Delete,
    Int,
    Varchar,
    True,
    False,
    Asc,
    Desc,
}

impl Keyword {
    /// The keyword's name as it appears in messages.
    pub open spec fn name_text(self) -> Seq<char> {
        match self {
            Keyword::Select => "Select"@,
            Keyword::From => "From"@,
            Keyword::Where => "Where"@,
            Keyword::Group => "Group"@,
            Keyword::By => "By"@,
            Keyword::Order => "Order"@,
            Keyword::Limit => "Limit"@,
            Keyword::And => "And"@,
            Keyword::Or => "Or"@,
            Keyword::Not => "Not"@,
            Keyword::Is => "Is"@,
            Keyword::Null => "Null"@,
            Keyword::Between => "Between"@,
            Keyword::In => "In"@,
            Keyword::As => "As"@,
            Keyword::Create => "Create"@,
            Keyword::Table => "Table"@,
            Keyword::Insert => "Insert"@,
            Keyword::Update => "Update"@,
            Keyword::Delete => "Delete"@,
            Keyword::Int => "Int"@,
            Keyword::Varchar => "Varchar"@,
            Keyword::True => "True"@,
            Keyword::False => "False"@,
            Keyword::Asc => "Asc"@,
            Keyword::Desc => "Desc"@,
        }
    }

    /// The keyword's name as it appears in messages.
    pub fn name(self) -> (r: &'static str)
        ensures
            r@ == self.name_text(),
    {
        match self {
            Keyword::Select => "Select",
            Keyword::From => "From",
            Keyword::Where => "Where",
            Keyword::Group => "Group",
            Keyword::By => "By",
            Keyword::Order => "Order",
            Keyword::Limit => "Limit",
            Keyword::And => "And",
            Keyword::Or => "Or",
            Keyword::Not => "Not",
            Keyword::Is => "Is",
            Keyword::Null => "Null",
            Keyword::Between => "Between",
            Keyword::In => "In",
            Keyword::As => "As",
            Keyword::Create => "Create",
            Keyword::Table => "Table",
            Keyword::Insert => "Insert",
            Keyword::Update => "Update",
            Keyword::Delete => "Delete",
            Keyword::Int => "Int",
            Keyword::Varchar => "Varchar",
            Keyword::True => "True",
            Keyword::False => "False",
            Keyword::Asc => "Asc",
            Keyword::Desc => "Desc",
        }
    }
}

/// A lexical unit. Identifiers and literals carry their text as written;
/// a string literal carries what stands between its quotes.
#[derive(PartialEq, Debug)]
pub enum Token {
    Keyword(Keyword),
    Ident(String),
    StringLiteral(String),
    NumberLiteral(String),
    Dot,
    Comma,
    LParen,
    RParen,
    Semicolon,
    Asterisk,
    Eq,
    Neq,
    Lt,
    Le,
    Gt,
    Ge,
    /// The end-of-input marker, read at every position past the last token.
    Eof,
}

/// The mathematical value of a [`Token`]: the same shape, with text as a
/// sequence of characters.
pub enum SpecToken {
    Keyword(Keyword),
    Ident(Seq<char>),
    StringLiteral(Seq<char>),
    NumberLiteral(Seq<char>),
    Dot,
    Comma,
    LParen,
    RParen,
    Semicolon,
    Asterisk,
    Eq,
    Neq,
    Lt,
    Le,
    Gt,
    Ge,
    Eof,
}

/// A token's kind with what it carries in parentheses after it.
pub open spec fn labelled(kind: Seq<char>, carried: Seq<char>) -> Seq<char> {
    kind + "("@ + carried + ")"@
}

/// Writes a token's kind with what it carries in parentheses after it.
pub fn label(kind: &str, carried: &str) -> (r: String)
    ensures
        r@ == labelled(kind@, carried@),
{
    let mut out = String::from_str(kind);
    out.append("(");
    out.append(carried);
    out.append(")");
    out
}

impl SpecToken {
    /// The token as it appears in messages: the name of its kind, followed
    /// in parentheses by the keyword's name or by the text it carries. The
    /// text is written as the standard library's `Debug` writes a string:
    /// in double quotes and escaped.
    pub open spec fn text(self) -> Seq<char> {
        match self {
            SpecToken::Keyword(k) => labelled("Keyword"@, k.name_text()),
            SpecToken::Ident(s) => labelled("Ident"@, debug_text(s)),
            SpecToken::StringLiteral(s) => labelled("StringLiteral"@, debug_text(s)),
            SpecToken::NumberLiteral(s) => labelled("NumberLiteral"@, debug_text(s)),
            SpecToken::Dot => "Dot"@,
            SpecToken::Comma => "Comma"@,
            SpecToken::LParen => "LParen"@,
            SpecToken::RParen => "RParen"@,
            SpecToken::Semicolon => "Semicolon"@,
            SpecToken::Asterisk => "Asterisk"@,
            SpecToken::Eq => "Eq"@,
            SpecToken::Neq => "Neq"@,
            SpecToken::Lt => "Lt"@,
            SpecToken::Le => "Le"@,
            SpecToken::Gt => "Gt"@,
            SpecToken::Ge => "Ge"@,
            SpecToken::Eof => "Eof"@,
        }
    }
}

impl View for Token {
    type V = SpecToken;

    open spec fn view(&self) -> SpecToken {
        match self {
            Token::Keyword(k) => SpecToken::Keyword(*k),
            Token::Ident(s) => SpecToken::Ident(s@),
            Token::StringLiteral(s) => SpecToken::StringLiteral(s@),
            Token::NumberLiteral(s) => SpecToken::NumberLiteral(s@),
            Token::Dot => SpecToken::Dot,
            Token::Comma => SpecToken::Comma,
            Token::LParen => SpecToken::LParen,
            Token::RParen => SpecToken::RParen,
            Token::Semicolon => SpecToken::Semicolon,
            Token::Asterisk => SpecToken::Asterisk,
            Token::Eq => SpecToken::Eq,
            Token::Neq => SpecToken::Neq,
            Token::Lt => SpecToken::Lt,
            Token::Le => SpecToken::Le,
            Token::Gt => SpecToken::Gt,
            Token::Ge => SpecToken::Ge,
            Token::Eof => SpecToken::Eof,
        }
    }
}

impl DeepView for Token {
    type V = SpecToken;

    open spec fn deep_view(&self) -> SpecToken {
        self@
    }
}

impl Clone for Token {
    fn clone(&self) -> (r: Token)
        ensures
            r == *self,
    {
        match self {
            Token::Keyword(k) => Token::Keyword(*k),
            Token::Ident(s) => Token::Ident(s.clone()),
            Token::StringLiteral(s) => Token::StringLiteral(s.clone()),
            Token::NumberLiteral(s) => Token::NumberLiteral(s.clone()),
            Token::Dot => Token::Dot,
            Token::Comma => Token::Comma,
            Token::LParen => Token::LParen,
            Token::RParen => Token::RParen,
            Token::Semicolon => Token::Semicolon,
            Token::Asterisk => Token::Asterisk,
            Token::Eq => Token::Eq,
            Token::Neq => Token::Neq,
            Token::Lt => Token::Lt,
            Token::Le => Token::Le,
            Token::Gt => Token::Gt,
            Token::Ge => Token::Ge,
            Token::Eof => Token::Eof,
        }
    }
}

impl Token {
    /// Whether two tokens are of the same kind and carry the same text.
    pub fn same(&self, other: &Token) -> (r: bool)
        ensures
            r == (self@ == other@),
    {
        match (self, other) {
            (Token::Keyword(a), Token::Keyword(b)) => *a == *b,
            (Token::Ident(a), Token::Ident(b)) => *a == *b,
            (Token::StringLiteral(a), Token::StringLiteral(b)) => *a == *b,
            (Token::NumberLiteral(a), Token::NumberLiteral(b)) => *a == *b,
            (Token::Dot, Token::Dot) => true,
            (Token::Comma, Token::Comma) => true,
            (Token::LParen, Token::LParen) => true,
            (Token::RParen, Token::RParen) => true,
            (Token::Semicolon, Token::Semicolon) => true,
            (Token::Asterisk, Token::Asterisk) => true,
            (Token::Eq, Token::Eq) => true,
            (Token::Neq, Token::Neq) => true,
            (Token::Lt, Token::Lt) => true,
            (Token::Le, Token::Le) => true,
            (Token::Gt, Token::Gt) => true,
            (Token::Ge, Token::Ge) => true,
            (Token::Eof, Token::Eof) => true,
            _ => false,
        }
    }

    /// Writes the token as it appears in messages.
    pub fn describe(&self) -> (r: String)
        ensures
            r@ == self@.text(),
    {
        match self {
            Token::Keyword(k) => label("Keyword", k.name()),
            Token::Ident(s) => label("Ident", debug_string(s.as_str()).as_str()),
            Token::StringLiteral(s) => label("StringLiteral", debug_string(s.as_str()).as_str()),
            Token::NumberLiteral(s) => label("NumberLiteral", debug_string(s.as_str()).as_str()),
            Token::Dot => String::from_str("Dot"),
            Token::Comma => String::from_str("Comma"),
            Token::LParen => String::from_str("LParen"),
            Token::RParen => String::from_str("RParen"),
            Token::Semicolon => String::from_str("Semicolon"),
            Token::Asterisk => String::from_str("Asterisk"),
            Token::Eq => String::from_str("Eq"),
            Token::Neq => String::from_str("Neq"),
            Token::Lt => String::from_str("Lt"),
            Token::Le => String::from_str("Le"),
            Token::Gt => String::from_str("Gt"),
            Token::Ge => String::from_str("Ge"),
            Token::Eof => String::from_str("Eof"),
        }
    }
}

/// A token together with the place where it starts.
#[derive(PartialEq, Debug)]
pub struct TokenWithLocation(pub Token, pub Location);

/// The mathematical value of a [`TokenWithLocation`].
pub struct SpecLocated {
    pub token: SpecToken,
    pub location: Location,
}

impl View for TokenWithLocation {
    type V = SpecLocated;

    open spec fn view(&self) -> SpecLocated {
        SpecLocated { token: self.0@, location: self.1 }
    }
}

impl DeepView for TokenWithLocation {
    type V = SpecLocated;

    open spec fn deep_view(&self) -> SpecLocated {
        self@
    }
}

impl Clone for TokenWithLocation {
    fn clone(&self) -> (r: TokenWithLocation)
        ensures
            r == *self,
    {
        TokenWithLocation(self.0.clone(), self.1)
    }
}

} // verus!
