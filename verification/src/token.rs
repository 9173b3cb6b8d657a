//! Tokens of the AWK language, and the tables of reserved words.

use vstd::prelude::*;
use crate::text::is_text;

verus! {

/// The kind of a token.
#[derive(Debug, Clone, Copy, PartialEq, Eq, Structural)]
pub enum TokenKind {
    Illegal,
    Eof,
    Number,
    String,
    Regex,
    Identifier,
    // Keywords.
    Begin,
    End,
    Break,
    Continue,
    Delete,
    Do,
    Else,
    Exit,
    For,
    Function,
    If,
    In,
    Next,
    Print,
    Printf,
    Return,
    While,
    // Built-in functions.
    Atan2,
    Close,
    Cos,
    Exp,
    Gsub,
    Index,
    Int,
    Length,
    Log,
    Match,
    Rand,
    Sin,
    Split,
    Sprintf,
    Sqrt,
    Srand,
    Sub,
    Substr,
    System,
    ToLower,
    ToUpper,
    // One-character tokens.
    LeftCurlyBrace,
    RightCurlyBrace,
    LeftParen,
    RightParen,
    LeftSquareBracket,
    RightSquareBracket,
    Comma,
    Semicolon,
    NewLine,
    Plus,
    Minus,
    Asterisk,
    Division,
    Percent,
    Caret,
    ExclamationMark,
    GreaterThan,
    LessThan,
    Pipe,
    QuestionMark,
    Colon,
    Tilde,
    DollarSign,
    Assign,
    // Two-character tokens.
    AddAssign,
    SubtractAssign,
    MultiplyAssign,
    DivideAssign,
    ModuloAssign,
    PowerAssign,
    Or,
    And,
    NoMatch,
    Equal,
    LessThanOrEqual,
    GreaterThanOrEqual,
    NotEqual,
    Increment,
    Decrement,
    Append,
}

/// A token: its kind, its text, and the offset in the script at which it starts.
#[derive(Debug, Clone, PartialEq, Eq)]
pub struct Token {
    pub kind: TokenKind,
    pub literal: String,
    pub offset: usize,
}

/// The mathematical value of a [`Token`].
pub struct TokenView {
    pub kind: TokenKind,
    pub literal: Seq<char>,
    pub offset: nat,
}

impl View for Token {
    type V = TokenView;

    open spec fn view(&self) -> TokenView {
        TokenView { kind: self.kind, literal: self.literal@, offset: self.offset as nat }
    }
}

impl Token {
    /// A token of the given kind and text that starts at `offset`.
    pub fn new(kind: TokenKind, literal: &str, offset: usize) -> (t: Token)
        ensures
            t@ == (TokenView { kind, literal: literal@, offset: offset as nat }),
    {
        Token { kind, literal: literal.to_owned(), offset }
    }

    /// A copy of this token.
    pub fn duplicate(&self) -> (t: Token)
        ensures
            t@ == self@,
    {
        Token { kind: self.kind, literal: self.literal.clone(), offset: self.offset }
    }
}

/// The keyword that `s` spells, if it spells one.
pub open spec fn keyword_kind(s: Seq<char>) -> Option<TokenKind> {
    if s == "BEGIN"@ {
        Some(TokenKind::Begin)
    } else if s == "END"@ {
        Some(TokenKind::End)
    } else if s == "break"@ {
        Some(TokenKind::Break)
    } else if s == "continue"@ {
        Some(TokenKind::Continue)
    } else if s == "delete"@ {
        Some(TokenKind::Delete)
    } else if s == "do"@ {
        Some(TokenKind::Do)
    } else if s == "else"@ {
        Some(TokenKind::Else)
    } else if s == "exit"@ {
        Some(TokenKind::Exit)
    } else if s == "for"@ {
        Some(TokenKind::For)
    } else if s == "function"@ {
        Some(TokenKind::Function)
    } else if s == "if"@ {
        Some(TokenKind::If)
    } else if s == "in"@ {
        Some(TokenKind::In)
    } else if s == "next"@ {
        Some(TokenKind::Next)
    } else if s == "print"@ {
        Some(TokenKind::Print)
    } else if s == "printf"@ {
        Some(TokenKind::Printf)
    } else if s == "return"@ {
        Some(TokenKind::Return)
    } else if s == "while"@ {
        Some(TokenKind::While)
    } else {
        None
    }
}

/// The built-in function that `s` names, if it names one.
pub open spec fn function_kind(s: Seq<char>) -> Option<TokenKind> {
    if s == "atan2"@ {
        Some(TokenKind::Atan2)
    } else if s == "close"@ {
        Some(TokenKind::Close)
    } else if s == "cos"@ {
        Some(TokenKind::Cos)
    } else if s == "exp"@ {
        Some(TokenKind::Exp)
    } else if s == "gsub"@ {
        Some(TokenKind::Gsub)
    } else if s == "index"@ {
        Some(TokenKind::Index)
    } else if s == "int"@ {
        Some(TokenKind::Int)
    } else if s == "length"@ {
        Some(TokenKind::Length)
    } else if s == "log"@ {
        Some(TokenKind::Log)
    } else if s == "match"@ {
        Some(TokenKind::Match)
    } else if s == "rand"@ {
        Some(TokenKind::Rand)
    } else if s == "sin"@ {
        Some(TokenKind::Sin)
    } else if s == "split"@ {
        Some(TokenKind::Split)
    } else if s == "sprintf"@ {
        Some(TokenKind::Sprintf)
    } else if s == "sqrt"@ {
        Some(TokenKind::Sqrt)
    } else if s == "srand"@ {
        Some(TokenKind::Srand)
    } else if s == "sub"@ {
        Some(TokenKind::Sub)
    } else if s == "substr"@ {
        Some(TokenKind::Substr)
    } else if s == "system"@ {
        Some(TokenKind::System)
    } else if s == "tolower"@ {
        Some(TokenKind::ToLower)
    } else if s == "toupper"@ {
        Some(TokenKind::ToUpper)
    } else {
        None
    }
}

/// The text of a token whose kind has one fixed spelling; for the other
/// kinds, the text that stands for them where no source text is kept.
pub open spec fn kind_text(kind: TokenKind) -> Seq<char> {
    match kind {
        TokenKind::Illegal => "<illegal>"@,
        TokenKind::Eof => ""@,
        TokenKind::Number => ""@,
        TokenKind::String => ""@,
        TokenKind::Regex => ""@,
        TokenKind::Identifier => ""@,
        TokenKind::NewLine => "<newline>"@,
        TokenKind::Begin => "BEGIN"@,
        TokenKind::End => "END"@,
        TokenKind::Break => "break"@,
        TokenKind::Continue => "continue"@,
        TokenKind::Delete => "delete"@,
        TokenKind::Do => "do"@,
        TokenKind::Else => "else"@,
        TokenKind::Exit => "exit"@,
        TokenKind::For => "for"@,
        TokenKind::Function => "function"@,
        TokenKind::If => "if"@,
        TokenKind::In => "in"@,
        TokenKind::Next => "next"@,
        TokenKind::Print => "print"@,
        TokenKind::Printf => "printf"@,
        TokenKind::Return => "return"@,
        TokenKind::While => "while"@,
        TokenKind::Atan2 => "atan2"@,
        TokenKind::Close => "close"@,
        TokenKind::Cos => "cos"@,
        TokenKind::Exp => "exp"@,
        TokenKind::Gsub => "gsub"@,
        TokenKind::Index => "index"@,
        TokenKind::Int => "int"@,
        TokenKind::Length => "length"@,
        TokenKind::Log => "log"@,
        TokenKind::Match => "match"@,
        TokenKind::Rand => "rand"@,
        TokenKind::Sin => "sin"@,
        TokenKind::Split => "split"@,
        TokenKind::Sprintf => "sprintf"@,
        TokenKind::Sqrt => "sqrt"@,
        TokenKind::Srand => "srand"@,
        TokenKind::Sub => "sub"@,
        TokenKind::Substr => "substr"@,
        TokenKind::System => "system"@,
        TokenKind::ToLower => "tolower"@,
        TokenKind::ToUpper => "toupper"@,
        TokenKind::LeftCurlyBrace => "{"@,
        TokenKind::RightCurlyBrace => "}"@,
        TokenKind::LeftParen => "("@,
        TokenKind::RightParen => ")"@,
        TokenKind::LeftSquareBracket => "["@,
        TokenKind::RightSquareBracket => "]"@,
        TokenKind::Comma => ","@,
        TokenKind::Semicolon => ";"@,
        TokenKind::Plus => "+"@,
        TokenKind::Minus => "-"@,
        TokenKind::Asterisk => "*"@,
        TokenKind::Division => "/"@,
        TokenKind::Percent => "%"@,
        TokenKind::Caret => "^"@,
        TokenKind::ExclamationMark => "!"@,
        TokenKind::GreaterThan => ">"@,
        TokenKind::LessThan => "<"@,
        TokenKind::Pipe => "|"@,
        TokenKind::QuestionMark => "?"@,
        TokenKind::Colon => ":"@,
        TokenKind::Tilde => "~"@,
        TokenKind::DollarSign => "$"@,
        TokenKind::Assign => "="@,
        TokenKind::AddAssign => "+="@,
        TokenKind::SubtractAssign => "-="@,
        TokenKind::MultiplyAssign => "*="@,
        TokenKind::DivideAssign => "/="@,
        TokenKind::ModuloAssign => "%="@,
        TokenKind::PowerAssign => "^="@,
        TokenKind::Or => "||"@,
        TokenKind::And => "&&"@,
        TokenKind::NoMatch => "!~"@,
        TokenKind::Equal => "=="@,
        TokenKind::LessThanOrEqual => "<="@,
        TokenKind::GreaterThanOrEqual => ">="@,
        TokenKind::NotEqual => "!="@,
        TokenKind::Increment => "++"@,
        TokenKind::Decrement => "--"@,
        TokenKind::Append => ">>"@,
    }
}

/// The kind of the keyword that `ident` spells.
pub fn keyword_of(ident: &String) -> (r: Option<TokenKind>)
    ensures
        r == keyword_kind(ident@),
{
    if is_text(ident, "BEGIN") {
        Some(TokenKind::Begin)
    } else if is_text(ident, "END") {
        Some(TokenKind::End)
    } else if is_text(ident, "break") {
        Some(TokenKind::Break)
    } else if is_text(ident, "continue") {
        Some(TokenKind::Continue)
    } else if is_text(ident, "delete") {
        Some(TokenKind::Delete)
    } else if is_text(ident, "do") {
        Some(TokenKind::Do)
    } else if is_text(ident, "else") {
        Some(TokenKind::Else)
    } else if is_text(ident, "exit") {
        Some(TokenKind::Exit)
    } else if is_text(ident, "for") {
        Some(TokenKind::For)
    } else if is_text(ident, "function") {
        Some(TokenKind::Function)
    } else if is_text(ident, "if") {
        Some(TokenKind::If)
    } else if is_text(ident, "in") {
        Some(TokenKind::In)
    } else if is_text(ident, "next") {
        Some(TokenKind::Next)
    } else if is_text(ident, "print") {
        Some(TokenKind::Print)
    } else if is_text(ident, "printf") {
        Some(TokenKind::Printf)
    } else if is_text(ident, "return") {
        Some(TokenKind::Return)
    } else if is_text(ident, "while") {
        Some(TokenKind::While)
    } else {
        None
    }
}

/// The kind of the built-in function that `ident` names.
pub fn function_of(ident: &String) -> (r: Option<TokenKind>)
    ensures
        r == function_kind(ident@),
{
    if is_text(ident, "atan2") {
        Some(TokenKind::Atan2)
    } else if is_text(ident, "close") {
        Some(TokenKind::Close)
    } else if is_text(ident, "cos") {
        Some(TokenKind::Cos)
    } else if is_text(ident, "exp") {
        Some(TokenKind::Exp)
    } else if is_text(ident, "gsub") {
        Some(TokenKind::Gsub)
    } else if is_text(ident, "index") {
        Some(TokenKind::Index)
    } else if is_text(ident, "int") {
        Some(TokenKind::Int)
    } else if is_text(ident, "length") {
        Some(TokenKind::Length)
    } else if is_text(ident, "log") {
        Some(TokenKind::Log)
    } else if is_text(ident, "match") {
        Some(TokenKind::Match)
    } else if is_text(ident, "rand") {
        Some(TokenKind::Rand)
    } else if is_text(ident, "sin") {
        Some(TokenKind::Sin)
    } else if is_text(ident, "split") {
        Some(TokenKind::Split)
    } else if is_text(ident, "sprintf") {
        Some(TokenKind::Sprintf)
    } else if is_text(ident, "sqrt") {
        Some(TokenKind::Sqrt)
    } else if is_text(ident, "srand") {
        Some(TokenKind::Srand)
    } else if is_text(ident, "sub") {
        Some(TokenKind::Sub)
    } else if is_text(ident, "substr") {
        Some(TokenKind::Substr)
    } else if is_text(ident, "system") {
        Some(TokenKind::System)
    } else if is_text(ident, "tolower") {
        Some(TokenKind::ToLower)
    } else if is_text(ident, "toupper") {
        Some(TokenKind::ToUpper)
    } else {
        None
    }
}

/// The fixed spelling of `kind` as a string.
pub fn kind_string(kind: TokenKind) -> (s: String)
    ensures
        s@ == kind_text(kind),
{
    match kind {
        TokenKind::Illegal => "<illegal>".to_owned(),
        TokenKind::Eof => "".to_owned(),
        TokenKind::Number => "".to_owned(),
        TokenKind::String => "".to_owned(),
        TokenKind::Regex => "".to_owned(),
        TokenKind::Identifier => "".to_owned(),
        TokenKind::NewLine => "<newline>".to_owned(),
        TokenKind::Begin => "BEGIN".to_owned(),
        TokenKind::End => "END".to_owned(),
        TokenKind::Break => "break".to_owned(),
        TokenKind::Continue => "continue".to_owned(),
        TokenKind::Delete => "delete".to_owned(),
        TokenKind::Do => "do".to_owned(),
        TokenKind::Else => "else".to_owned(),
        TokenKind::Exit => "exit".to_owned(),
        TokenKind::For => "for".to_owned(),
        TokenKind::Function => "function".to_owned(),
        TokenKind::If => "if".to_owned(),
        TokenKind::In => "in".to_owned(),
        TokenKind::Next => "next".to_owned(),
        TokenKind::Print => "print".to_owned(),
        TokenKind::Printf => "printf".to_owned(),
        TokenKind::Return => "return".to_owned(),
        TokenKind::While => "while".to_owned(),
        TokenKind::Atan2 => "atan2".to_owned(),
        TokenKind::Close => "close".to_owned(),
        TokenKind::Cos => "cos".to_owned(),
        TokenKind::Exp => "exp".to_owned(),
        TokenKind::Gsub => "gsub".to_owned(),
        TokenKind::Index => "index".to_owned(),
        TokenKind::Int => "int".to_owned(),
        TokenKind::Length => "length".to_owned(),
        TokenKind::Log => "log".to_owned(),
        TokenKind::Match => "match".to_owned(),
        TokenKind::Rand => "rand".to_owned(),
        TokenKind::Sin => "sin".to_owned(),
        TokenKind::Split => "split".to_owned(),
        TokenKind::Sprintf => "sprintf".to_owned(),
        TokenKind::Sqrt => "sqrt".to_owned(),
        TokenKind::Srand => "srand".to_owned(),
        TokenKind::Sub => "sub".to_owned(),
        TokenKind::Substr => "substr".to_owned(),
        TokenKind::System => "system".to_owned(),
        TokenKind::ToLower => "tolower".to_owned(),
        TokenKind::ToUpper => "toupper".to_owned(),
        TokenKind::LeftCurlyBrace => "{".to_owned(),
        TokenKind::RightCurlyBrace => "}".to_owned(),
        TokenKind::LeftParen => "(".to_owned(),
        TokenKind::RightParen => ")".to_owned(),
        TokenKind::LeftSquareBracket => "[".to_owned(),
        TokenKind::RightSquareBracket => "]".to_owned(),
        TokenKind::Comma => ",".to_owned(),
        TokenKind::Semicolon => ";".to_owned(),
        TokenKind::Plus => "+".to_owned(),
        TokenKind::Minus => "-".to_owned(),
        TokenKind::Asterisk => "*".to_owned(),
        TokenKind::Division => "/".to_owned(),
        TokenKind::Percent => "%".to_owned(),
        TokenKind::Caret => "^".to_owned(),
        TokenKind::ExclamationMark => "!".to_owned(),
        TokenKind::GreaterThan => ">".to_owned(),
        TokenKind::LessThan => "<".to_owned(),
        TokenKind::Pipe => "|".to_owned(),
        TokenKind::QuestionMark => "?".to_owned(),
        TokenKind::Colon => ":".to_owned(),
        TokenKind::Tilde => "~".to_owned(),
        TokenKind::DollarSign => "$".to_owned(),
        TokenKind::Assign => "=".to_owned(),
        TokenKind::AddAssign => "+=".to_owned(),
        TokenKind::SubtractAssign => "-=".to_owned(),
        TokenKind::MultiplyAssign => "*=".to_owned(),
        TokenKind::DivideAssign => "/=".to_owned(),
        TokenKind::ModuloAssign => "%=".to_owned(),
        TokenKind::PowerAssign => "^=".to_owned(),
        TokenKind::Or => "||".to_owned(),
        TokenKind::And => "&&".to_owned(),
        TokenKind::NoMatch => "!~".to_owned(),
        TokenKind::Equal => "==".to_owned(),
        TokenKind::LessThanOrEqual => "<=".to_owned(),
        TokenKind::GreaterThanOrEqual => ">=".to_owned(),
        TokenKind::NotEqual => "!=".to_owned(),
        TokenKind::Increment => "++".to_owned(),
        TokenKind::Decrement => "--".to_owned(),
        TokenKind::Append => ">>".to_owned(),
    }
}

/// Looks `ident` up among the keywords. The token found carries the keyword
/// as its text and offset 0.
pub fn lookup_keyword(ident: &str) -> (r: Option<Token>)
    ensures
        match keyword_kind(ident@) {
            Some(kind) => r.is_some() && r.unwrap()@ == (TokenView {
                kind,
                literal: ident@,
                offset: 0,
            }),
            None => r.is_none(),
        },
{
    let owned = ident.to_owned();
    match keyword_of(&owned) {
        Some(kind) => Some(Token { kind, literal: owned, offset: 0 }),
        None => None,
    }
}

/// Looks `ident` up among the built-in functions. The token found carries the
/// function's name as its text and offset 0.
pub fn lookup_functions(ident: &str) -> (r: Option<Token>)
    ensures
        match function_kind(ident@) {
            Some(kind) => r.is_some() && r.unwrap()@ == (TokenView {
                kind,
                literal: ident@,
                offset: 0,
            }),
            None => r.is_none(),
        },
{
    let owned = ident.to_owned();
    match function_of(&owned) {
        Some(kind) => Some(Token { kind, literal: owned, offset: 0 }),
        None => None,
    }
}

} // verus!
