//! Tokens and their kinds.

use crate::text::str_eq;
use vstd::prelude::*;

verus! {

/// The kind of a token.
///
/// A `Number` token stands for the decimal literal that its lexeme spells;
/// a `String` token for the quoted text of its lexeme (see
/// [`crate::literal::unescaped`]).
#[derive(Debug, Clone, Copy, PartialEq, Eq, Structural)]
pub enum TokenKind {
    LeftParen,
    RightParen,
    LeftBrace,
    RightBrace,
    Comma,
    Dot,
    Minus,
    Plus,
    Semicolon,
    Star,
    BangEqual,
    EqualEqual,
    LessEqual,
    GreaterEqual,
    Less,
    Greater,
    Slash,
    Bang,
    Equal,
    String,
    Ident,
    Number,
    And,
    Class,
    Else,
    False,
    For,
    Fun,
    If,
    Nil,
    Or,
    Return,
    Super,
    This,
    True,
    Var,
    While,
}

/// What a token is in contracts: its kind and the text of its lexeme.
pub struct TokenView {
    pub kind: TokenKind,
    pub lexeme: Seq<char>,
}

/// A token: a kind, and the lexeme, which is the part of the source text that
/// was matched. The token borrows the lexeme from the source.
#[derive(Debug, Clone, Copy, PartialEq)]
pub struct Token<'de> {
    origin: &'de str,
    kind: TokenKind,
}

impl<'de> View for Token<'de> {
    type V = TokenView;

    closed spec fn view(&self) -> TokenView {
        TokenView { kind: self.kind, lexeme: self.origin@ }
    }
}

impl<'de> Token<'de> {
    /// A token of `kind` with the lexeme `origin`.
    pub fn new(origin: &'de str, kind: TokenKind) -> (token: Self)
        ensures
            token@ == (TokenView { kind, lexeme: origin@ }),
    {
        Token { origin, kind }
    }

    /// The kind of the token.
    pub fn kind(&self) -> (kind: TokenKind)
        ensures
            kind == self@.kind,
    {
        self.kind
    }

    /// The lexeme: the text of the source that the token was matched on.
    pub fn lexeme(&self) -> (lexeme: &'de str)
        ensures
            lexeme@ == self@.lexeme,
    {
        self.origin
    }
}

/// The token that the single character `c` is, if it is one.
pub open spec fn punctuation(c: char) -> Option<TokenKind> {
    if c == '(' {
        Some(TokenKind::LeftParen)
    } else if c == ')' {
        Some(TokenKind::RightParen)
    } else if c == '{' {
        Some(TokenKind::LeftBrace)
    } else if c == '}' {
        Some(TokenKind::RightBrace)
    } else if c == ',' {
        Some(TokenKind::Comma)
    } else if c == '.' {
        Some(TokenKind::Dot)
    } else if c == '-' {
        Some(TokenKind::Minus)
    } else if c == '+' {
        Some(TokenKind::Plus)
    } else if c == ';' {
        Some(TokenKind::Semicolon)
    } else if c == '*' {
        Some(TokenKind::Star)
    } else if c == '/' {
        Some(TokenKind::Slash)
    } else {
        None
    }
}

/// The two tokens that an operator character can start.
#[derive(Debug, Clone, Copy, PartialEq, Eq, Structural)]
pub struct Operator {
    /// The kind of the operator with the `=` that follows it.
    pub with_equal: TokenKind,
    /// The kind of the character alone.
    pub alone: TokenKind,
}

/// The tokens that `c` can start, where it is an operator character that `=`
/// may follow.
pub open spec fn operator(c: char) -> Option<Operator> {
    if c == '<' {
        Some(Operator { with_equal: TokenKind::LessEqual, alone: TokenKind::Less })
    } else if c == '>' {
        Some(Operator { with_equal: TokenKind::GreaterEqual, alone: TokenKind::Greater })
    } else if c == '!' {
        Some(Operator { with_equal: TokenKind::BangEqual, alone: TokenKind::Bang })
    } else if c == '=' {
        Some(Operator { with_equal: TokenKind::EqualEqual, alone: TokenKind::Equal })
    } else {
        None
    }
}

/// The reserved word that `word` spells, if it spells one. The match is exact
/// and case-sensitive.
pub open spec fn keyword(word: Seq<char>) -> Option<TokenKind> {
    if word == "and"@ {
        Some(TokenKind::And)
    } else if word == "class"@ {
        Some(TokenKind::Class)
    } else if word == "else"@ {
        Some(TokenKind::Else)
    } else if word == "false"@ {
        Some(TokenKind::False)
    } else if word == "for"@ {
        Some(TokenKind::For)
    } else if word == "fun"@ {
        Some(TokenKind::Fun)
    } else if word == "if"@ {
        Some(TokenKind::If)
    } else if word == "nil"@ {
        Some(TokenKind::Nil)
    } else if word == "or"@ {
        Some(TokenKind::Or)
    } else if word == "return"@ {
        Some(TokenKind::Return)
    } else if word == "super"@ {
        Some(TokenKind::Super)
    } else if word == "this"@ {
        Some(TokenKind::This)
    } else if word == "true"@ {
        Some(TokenKind::True)
    } else if word == "var"@ {
        Some(TokenKind::Var)
    } else if word == "while"@ {
        Some(TokenKind::While)
    } else {
        None
    }
}

/// The kind of the word `word`: its keyword, or else an identifier.
pub open spec fn word_kind(word: Seq<char>) -> TokenKind {
    match keyword(word) {
        Some(kind) => kind,
        None => TokenKind::Ident,
    }
}

/// The name under which a kind is displayed, in upper snake case.
pub open spec fn kind_name(kind: TokenKind) -> Seq<char> {
    match kind {
        TokenKind::LeftParen => "LEFT_PAREN"@,
        TokenKind::RightParen => "RIGHT_PAREN"@,
        TokenKind::LeftBrace => "LEFT_BRACE"@,
        TokenKind::RightBrace => "RIGHT_BRACE"@,
        TokenKind::Comma => "COMMA"@,
        TokenKind::Dot => "DOT"@,
        TokenKind::Minus => "MINUS"@,
        TokenKind::Plus => "PLUS"@,
        TokenKind::Semicolon => "SEMICOLON"@,
        TokenKind::Star => "STAR"@,
        TokenKind::BangEqual => "BANG_EQUAL"@,
        TokenKind::EqualEqual => "EQUAL_EQUAL"@,
        TokenKind::LessEqual => "LESS_EQUAL"@,
        TokenKind::GreaterEqual => "GREATER_EQUAL"@,
        TokenKind::Less => "LESS"@,
        TokenKind::Greater => "GREATER"@,
        TokenKind::Slash => "SLASH"@,
        TokenKind::Bang => "BANG"@,
        TokenKind::Equal => "EQUAL"@,
        TokenKind::String => "STRING"@,
        TokenKind::Ident => "IDENTIFIER"@,
        TokenKind::Number => "NUMBER"@,
        TokenKind::And => "AND"@,
        TokenKind::Class => "CLASS"@,
        TokenKind::Else => "ELSE"@,
        TokenKind::False => "FALSE"@,
        TokenKind::For => "FOR"@,
        TokenKind::Fun => "FUN"@,
        TokenKind::If => "IF"@,
        TokenKind::Nil => "NIL"@,
        TokenKind::Or => "OR"@,
        TokenKind::Return => "RETURN"@,
        TokenKind::Super => "SUPER"@,
        TokenKind::This => "THIS"@,
        TokenKind::True => "TRUE"@,
        TokenKind::Var => "VAR"@,
        TokenKind::While => "WHILE"@,
    }
}

impl TokenKind {
    /// The kind of the token that the single character `c` is.
    pub fn punctuation(c: char) -> (kind: Option<TokenKind>)
        ensures
            kind == punctuation(c),
    {
        match c {
            '(' => Some(TokenKind::LeftParen),
            ')' => Some(TokenKind::RightParen),
            '{' => Some(TokenKind::LeftBrace),
            '}' => Some(TokenKind::RightBrace),
            ',' => Some(TokenKind::Comma),
            '.' => Some(TokenKind::Dot),
            '-' => Some(TokenKind::Minus),
            '+' => Some(TokenKind::Plus),
            ';' => Some(TokenKind::Semicolon),
            '*' => Some(TokenKind::Star),
            '/' => Some(TokenKind::Slash),
            _ => None,
        }
    }

    /// The two tokens that an operator character can start: with a following
    /// `=`, and alone.
    pub fn operator(c: char) -> (kinds: Option<Operator>)
        ensures
            kinds == operator(c),
    {
        match c {
            '<' => Some(Operator { with_equal: TokenKind::LessEqual, alone: TokenKind::Less }),
            '>' => Some(Operator { with_equal: TokenKind::GreaterEqual, alone: TokenKind::Greater }),
            '!' => Some(Operator { with_equal: TokenKind::BangEqual, alone: TokenKind::Bang }),
            '=' => Some(Operator { with_equal: TokenKind::EqualEqual, alone: TokenKind::Equal }),
            _ => None,
        }
    }

    /// The kind of a word: a keyword if the word is reserved, an identifier
    /// if it is not.
    pub fn of_word(word: &str) -> (kind: TokenKind)
        ensures
            kind == word_kind(word@),
    {
        if str_eq(word, "and") {
            TokenKind::And
        } else if str_eq(word, "class") {
            TokenKind::Class
        } else if str_eq(word, "else") {
            TokenKind::Else
        } else if str_eq(word, "false") {
            TokenKind::False
        } else if str_eq(word, "for") {
            TokenKind::For
        } else if str_eq(word, "fun") {
            TokenKind::Fun
        } else if str_eq(word, "if") {
            TokenKind::If
        } else if str_eq(word, "nil") {
            TokenKind::Nil
        } else if str_eq(word, "or") {
            TokenKind::Or
        } else if str_eq(word, "return") {
            TokenKind::Return
        } else if str_eq(word, "super") {
            TokenKind::Super
        } else if str_eq(word, "this") {
            TokenKind::This
        } else if str_eq(word, "true") {
            TokenKind::True
        } else if str_eq(word, "var") {
            TokenKind::Var
        } else if str_eq(word, "while") {
            TokenKind::While
        } else {
            TokenKind::Ident
        }
    }

    /// The name under which this kind is displayed.
    pub fn name(&self) -> (name: &'static str)
        ensures
            name@ == kind_name(*self),
    {
        match self {
            TokenKind::LeftParen => "LEFT_PAREN",
            TokenKind::RightParen => "RIGHT_PAREN",
            TokenKind::LeftBrace => "LEFT_BRACE",
            TokenKind::RightBrace => "RIGHT_BRACE",
            TokenKind::Comma => "COMMA",
            TokenKind::Dot => "DOT",
            TokenKind::Minus => "MINUS",
            TokenKind::Plus => "PLUS",
            TokenKind::Semicolon => "SEMICOLON",
            TokenKind::Star => "STAR",
            TokenKind::BangEqual => "BANG_EQUAL",
            TokenKind::EqualEqual => "EQUAL_EQUAL",
            TokenKind::LessEqual => "LESS_EQUAL",
            TokenKind::GreaterEqual => "GREATER_EQUAL",
            TokenKind::Less => "LESS",
            TokenKind::Greater => "GREATER",
            TokenKind::Slash => "SLASH",
            TokenKind::Bang => "BANG",
            TokenKind::Equal => "EQUAL",
            TokenKind::String => "STRING",
            TokenKind::Ident => "IDENTIFIER",
            TokenKind::Number => "NUMBER",
            TokenKind::And => "AND",
            TokenKind::Class => "CLASS",
            TokenKind::Else => "ELSE",
            TokenKind::False => "FALSE",
            TokenKind::For => "FOR",
            TokenKind::Fun => "FUN",
            TokenKind::If => "IF",
            TokenKind::Nil => "NIL",
            TokenKind::Or => "OR",
            TokenKind::Return => "RETURN",
            TokenKind::Super => "SUPER",
            TokenKind::This => "THIS",
            TokenKind::True => "TRUE",
            TokenKind::Var => "VAR",
            TokenKind::While => "WHILE",
        }
    }
}

} // verus!
