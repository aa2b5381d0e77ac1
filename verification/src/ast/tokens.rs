//! Tokens produced by the scanner.
use vstd::prelude::*;

verus! {

/// The kind of a token.
#[derive(Debug, Copy, Clone, PartialEq, Eq, Structural)]
pub enum TokenType {
    // single char
    LeftParen,
    RightParen,
    LeftBrace,
    RightBrace,
    LeftBracket,
    RightBracket,
    Comma,
    Dot,
    Colon,
    Semicolon,
    Plus,
    Minus,
    Star,
    Slash,
    Percent,
    Ampersand,
    Underscore,
    Question,
    // one or two chars
    Bang,
    BangEqual,
    Equal,
    EqualEqual,
    Greater,
    GreaterEqual,
    Less,
    LessEqual,
    Arrow,
    FatArrow,
    DotDot,
    ColonColon,
    AmpAmp,
    PipePipe,
    PlusEqual,
    MinusEqual,
    StarEqual,
    SlashEqual,
    // literals
    Identifier,
    StringLit,
    FStringLit,
    CharLit,
    IntLit,
    FloatLit,
    // keywords
    Fn,
    Let,
    Return,
    Struct,
    Enum,
    Extend,
    Interface,
    Match,
    If,
    Else,
    While,
    For,
    In,
    Loop,
    Break,
    Continue,
    Defer,
    Region,
    Use,
    Public,
    Async,
    True,
    False,
    /// unwrap-or fallback
    Or,
    /// type cast
    As,
    /// `self`
    SelfKw,
    Mut,
    Move,
    Eof,
}

/// The name of a token kind, as it is printed.
pub open spec fn token_type_name(t: TokenType) -> Seq<char> {
    match t {
        TokenType::LeftParen => "LeftParen"@,
        TokenType::RightParen => "RightParen"@,
        TokenType::LeftBrace => "LeftBrace"@,
        TokenType::RightBrace => "RightBrace"@,
        TokenType::LeftBracket => "LeftBracket"@,
        TokenType::RightBracket => "RightBracket"@,
        TokenType::Comma => "Comma"@,
        TokenType::Dot => "Dot"@,
        TokenType::Colon => "Colon"@,
        TokenType::Semicolon => "Semicolon"@,
        TokenType::Plus => "Plus"@,
        TokenType::Minus => "Minus"@,
        TokenType::Star => "Star"@,
        TokenType::Slash => "Slash"@,
        TokenType::Percent => "Percent"@,
        TokenType::Ampersand => "Ampersand"@,
        TokenType::Underscore => "Underscore"@,
        TokenType::Question => "Question"@,
        TokenType::Bang => "Bang"@,
        TokenType::BangEqual => "BangEqual"@,
        TokenType::Equal => "Equal"@,
        TokenType::EqualEqual => "EqualEqual"@,
        TokenType::Greater => "Greater"@,
        TokenType::GreaterEqual => "GreaterEqual"@,
        TokenType::Less => "Less"@,
        TokenType::LessEqual => "LessEqual"@,
        TokenType::Arrow => "Arrow"@,
        TokenType::FatArrow => "FatArrow"@,
        TokenType::DotDot => "DotDot"@,
        TokenType::ColonColon => "ColonColon"@,
        TokenType::AmpAmp => "AmpAmp"@,
        TokenType::PipePipe => "PipePipe"@,
        TokenType::PlusEqual => "PlusEqual"@,
        TokenType::MinusEqual => "MinusEqual"@,
        TokenType::StarEqual => "StarEqual"@,
        TokenType::SlashEqual => "SlashEqual"@,
        TokenType::Identifier => "Identifier"@,
        TokenType::StringLit => "StringLit"@,
        TokenType::FStringLit => "FStringLit"@,
        TokenType::CharLit => "CharLit"@,
        TokenType::IntLit => "IntLit"@,
        TokenType::FloatLit => "FloatLit"@,
        TokenType::Fn => "Fn"@,
        TokenType::Let => "Let"@,
        TokenType::Return => "Return"@,
        TokenType::Struct => "Struct"@,
        TokenType::Enum => "Enum"@,
        TokenType::Extend => "Extend"@,
        TokenType::Interface => "Interface"@,
        TokenType::Match => "Match"@,
        TokenType::If => "If"@,
        TokenType::Else => "Else"@,
        TokenType::While => "While"@,
        TokenType::For => "For"@,
        TokenType::In => "In"@,
        TokenType::Loop => "Loop"@,
        TokenType::Break => "Break"@,
        TokenType::Continue => "Continue"@,
        TokenType::Defer => "Defer"@,
        TokenType::Region => "Region"@,
        TokenType::Use => "Use"@,
        TokenType::Public => "Public"@,
        TokenType::Async => "Async"@,
        TokenType::True => "True"@,
        TokenType::False => "False"@,
        TokenType::Or => "Or"@,
        TokenType::As => "As"@,
        TokenType::SelfKw => "SelfKw"@,
        TokenType::Mut => "Mut"@,
        TokenType::Move => "Move"@,
        TokenType::Eof => "Eof"@,
    }
}

impl TokenType {
    /// The name of the token kind, as it is printed.
    pub fn to_string(&self) -> (res: String)
        ensures
            res@ == token_type_name(*self),
    {
        let name: &str = match self {
            TokenType::LeftParen => "LeftParen",
            TokenType::RightParen => "RightParen",
            TokenType::LeftBrace => "LeftBrace",
            TokenType::RightBrace => "RightBrace",
            TokenType::LeftBracket => "LeftBracket",
            TokenType::RightBracket => "RightBracket",
            TokenType::Comma => "Comma",
            TokenType::Dot => "Dot",
            TokenType::Colon => "Colon",
            TokenType::Semicolon => "Semicolon",
            TokenType::Plus => "Plus",
            TokenType::Minus => "Minus",
            TokenType::Star => "Star",
            TokenType::Slash => "Slash",
            TokenType::Percent => "Percent",
            TokenType::Ampersand => "Ampersand",
            TokenType::Underscore => "Underscore",
            TokenType::Question => "Question",
            TokenType::Bang => "Bang",
            TokenType::BangEqual => "BangEqual",
            TokenType::Equal => "Equal",
            TokenType::EqualEqual => "EqualEqual",
            TokenType::Greater => "Greater",
            TokenType::GreaterEqual => "GreaterEqual",
            TokenType::Less => "Less",
            TokenType::LessEqual => "LessEqual",
            TokenType::Arrow => "Arrow",
            TokenType::FatArrow => "FatArrow",
            TokenType::DotDot => "DotDot",
            TokenType::ColonColon => "ColonColon",
            TokenType::AmpAmp => "AmpAmp",
            TokenType::PipePipe => "PipePipe",
            TokenType::PlusEqual => "PlusEqual",
            TokenType::MinusEqual => "MinusEqual",
            TokenType::StarEqual => "StarEqual",
            TokenType::SlashEqual => "SlashEqual",
            TokenType::Identifier => "Identifier",
            TokenType::StringLit => "StringLit",
            TokenType::FStringLit => "FStringLit",
            TokenType::CharLit => "CharLit",
            TokenType::IntLit => "IntLit",
            TokenType::FloatLit => "FloatLit",
            TokenType::Fn => "Fn",
            TokenType::Let => "Let",
            TokenType::Return => "Return",
            TokenType::Struct => "Struct",
            TokenType::Enum => "Enum",
            TokenType::Extend => "Extend",
            TokenType::Interface => "Interface",
            TokenType::Match => "Match",
            TokenType::If => "If",
            TokenType::Else => "Else",
            TokenType::While => "While",
            TokenType::For => "For",
            TokenType::In => "In",
            TokenType::Loop => "Loop",
            TokenType::Break => "Break",
            TokenType::Continue => "Continue",
            TokenType::Defer => "Defer",
            TokenType::Region => "Region",
            TokenType::Use => "Use",
            TokenType::Public => "Public",
            TokenType::Async => "Async",
            TokenType::True => "True",
            TokenType::False => "False",
            TokenType::Or => "Or",
            TokenType::As => "As",
            TokenType::SelfKw => "SelfKw",
            TokenType::Mut => "Mut",
            TokenType::Move => "Move",
            TokenType::Eof => "Eof",
        };
        name.to_owned()
    }
}

/// The value that a literal token carries. A floating-point literal carries
/// its decimal text, which is a run of digits, a dot and a run of digits.
#[derive(Debug, Clone)]
pub enum LiteralValue {
    IntValue(i64),
    FloatValue(String),
    StringValue(String),
    CharValue(char),
}

/// The mathematical value of a `LiteralValue`.
pub enum LiteralModel {
    Int(int),
    Float(Seq<char>),
    Str(Seq<char>),
    Char(char),
}

impl View for LiteralValue {
    type V = LiteralModel;

    open spec fn view(&self) -> LiteralModel {
        match self {
            LiteralValue::IntValue(v) => LiteralModel::Int(*v as int),
            LiteralValue::FloatValue(s) => LiteralModel::Float(s@),
            LiteralValue::StringValue(s) => LiteralModel::Str(s@),
            LiteralValue::CharValue(c) => LiteralModel::Char(*c),
        }
    }
}

/// The mathematical value of an optional literal.
pub open spec fn literal_model(o: Option<LiteralValue>) -> Option<LiteralModel> {
    match o {
        Some(l) => Some(l@),
        None => None,
    }
}

/// A token: its kind, the source text it was read from, the value of a
/// literal, and the line on which the scanner stood when it was read.
#[derive(Debug, Clone)]
pub struct Token {
    pub token_type: TokenType,
    pub lexeme: String,
    pub literal: Option<LiteralValue>,
    pub line_number: usize,
}

/// The mathematical value of a `Token`.
pub struct TokenModel {
    pub kind: TokenType,
    pub lexeme: Seq<char>,
    pub literal: Option<LiteralModel>,
    pub line: int,
}

impl View for Token {
    type V = TokenModel;

    open spec fn view(&self) -> TokenModel {
        TokenModel {
            kind: self.token_type,
            lexeme: self.lexeme@,
            literal: literal_model(self.literal),
            line: self.line_number as int,
        }
    }
}

/// The values of a sequence of tokens.
pub open spec fn token_models(ts: Seq<Token>) -> Seq<TokenModel> {
    ts.map_values(|t: Token| t@)
}

impl LiteralValue {
    /// A copy of the literal value.
    pub fn duplicate(&self) -> (res: LiteralValue)
        ensures
            res@ == self@,
    {
        match self {
            LiteralValue::IntValue(v) => LiteralValue::IntValue(*v),
            LiteralValue::FloatValue(s) => LiteralValue::FloatValue(s.clone()),
            LiteralValue::StringValue(s) => LiteralValue::StringValue(s.clone()),
            LiteralValue::CharValue(c) => LiteralValue::CharValue(*c),
        }
    }
}

impl Token {
    /// A copy of the token.
    pub fn duplicate(&self) -> (res: Token)
        ensures
            res@ == self@,
    {
        let literal = match &self.literal {
            Some(l) => Some(l.duplicate()),
            None => None,
        };
        Token {
            token_type: self.token_type,
            lexeme: self.lexeme.clone(),
            literal,
            line_number: self.line_number,
        }
    }
}

/// A copy of each of the tokens, in order.
pub fn duplicate_tokens(ts: &Vec<Token>) -> (res: Vec<Token>)
    ensures
        token_models(res@) == token_models(ts@),
{
    let mut res: Vec<Token> = Vec::new();
    let n = ts.len();
    for i in 0..n
        invariant
            n == ts.len(),
            res.len() == i,
            forall|k: int| 0 <= k < i ==> (#[trigger] res@[k])@ == ts@[k]@,
    {
        res.push(ts[i].duplicate());
    }
    proof {
        assert(token_models(res@) =~= token_models(ts@));
    }
    res
}

} // verus!
