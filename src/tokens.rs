use vstd::prelude::*;
use vstd::string::StringExecFns;

verus! {

/// The closed set of lexical categories.
#[derive(Debug, Clone, Copy, PartialEq, Eq, Structural)]
pub enum TokenType {
    LeftParen,
    RightParen,
    LeftBrace,
    RightBrace,
    Comma,
    Dot,
    Minus,
    Plus,
    Semicolon,
    Slash,
    Star,
    Bang,
    BangEqual,
    Equal,
    EqualEqual,
    Greater,
    GreaterEqual,
    Less,
    LessEqual,
    Identifier,
    String,
    Number,
    And,
    Class,
    Else,
    False,
    Fun,
    For,
    If,
    Nil,
    Or,
    Print,
    Return,
    Super,
    This,
    True,
    Var,
    While,
    Eof,
}

/// A literal payload. A number is kept as the numeral text that the source
/// wrote (digits, optionally a dot and more digits); turning it into a machine
/// number is the evaluator's business.
#[derive(Debug, Clone, PartialEq)]
pub enum Object {
    String(String),
    Number(String),
    Nil,
    Boolean(bool),
}

/// Mathematical model of an `Object`.
pub enum ObjectView {
    String(Seq<char>),
    Number(Seq<char>),
    Nil,
    Boolean(bool),
}

impl View for Object {
    type V = ObjectView;

    open spec fn view(&self) -> ObjectView {
        match self {
            Object::String(s) => ObjectView::String(s@),
            Object::Number(s) => ObjectView::Number(s@),
            Object::Nil => ObjectView::Nil,
            Object::Boolean(b) => ObjectView::Boolean(*b),
        }
    }
}

impl Object {
    /// A copy of the literal.
    pub fn duplicate(&self) -> (r: Object)
        ensures
            r == *self,
    {
        match self {
            Object::String(s) => Object::String(s.clone()),
            Object::Number(s) => Object::Number(s.clone()),
            Object::Nil => Object::Nil,
            Object::Boolean(b) => Object::Boolean(*b),
        }
    }
}

/// One token: its category, the source text it was made from, an optional
/// literal payload and the line it ends on.
#[derive(Debug, Clone, PartialEq)]
pub struct Token {
    pub token_type: TokenType,
    pub lexeme: String,
    pub literal: Option<Object>,
    pub line: u32,
}

/// Mathematical model of a `Token`.
pub struct TokenView {
    pub token_type: TokenType,
    pub lexeme: Seq<char>,
    pub literal: Option<ObjectView>,
    pub line: u32,
}

pub open spec fn literal_view(l: Option<Object>) -> Option<ObjectView> {
    match l {
        Some(o) => Some(o@),
        None => None,
    }
}

impl View for Token {
    type V = TokenView;

    open spec fn view(&self) -> TokenView {
        TokenView {
            token_type: self.token_type,
            lexeme: self.lexeme@,
            literal: literal_view(self.literal),
            line: self.line,
        }
    }
}

impl Token {
    pub fn new(token_type: TokenType, lexeme: String, literal: Option<Object>, line: u32) -> (r:
        Self)
        ensures
            r.token_type == token_type,
            r.lexeme == lexeme,
            r.literal == literal,
            r.line == line,
    {
        Token { token_type, lexeme, literal, line }
    }

    /// A copy of the token.
    pub fn duplicate(&self) -> (r: Token)
        ensures
            r == *self,
    {
        let literal = match &self.literal {
            Some(o) => Some(o.duplicate()),
            None => None,
        };
        Token { token_type: self.token_type, lexeme: self.lexeme.clone(), literal, line: self.line }
    }
}

/// The name of a token kind, as its variant is written.
pub open spec fn kind_name(k: TokenType) -> Seq<char> {
    match k {
        TokenType::LeftParen => "LeftParen"@,
        TokenType::RightParen => "RightParen"@,
        TokenType::LeftBrace => "LeftBrace"@,
        TokenType::RightBrace => "RightBrace"@,
        TokenType::Comma => "Comma"@,
        TokenType::Dot => "Dot"@,
        TokenType::Minus => "Minus"@,
        TokenType::Plus => "Plus"@,
        TokenType::Semicolon => "Semicolon"@,
        TokenType::Slash => "Slash"@,
        TokenType::Star => "Star"@,
        TokenType::Bang => "Bang"@,
        TokenType::BangEqual => "BangEqual"@,
        TokenType::Equal => "Equal"@,
        TokenType::EqualEqual => "EqualEqual"@,
        TokenType::Greater => "Greater"@,
        TokenType::GreaterEqual => "GreaterEqual"@,
        TokenType::Less => "Less"@,
        TokenType::LessEqual => "LessEqual"@,
        TokenType::Identifier => "Identifier"@,
        TokenType::String => "String"@,
        TokenType::Number => "Number"@,
        TokenType::And => "And"@,
        TokenType::Class => "Class"@,
        TokenType::Else => "Else"@,
        TokenType::False => "False"@,
        TokenType::Fun => "Fun"@,
        TokenType::For => "For"@,
        TokenType::If => "If"@,
        TokenType::Nil => "Nil"@,
        TokenType::Or => "Or"@,
        TokenType::Print => "Print"@,
        TokenType::Return => "Return"@,
        TokenType::Super => "Super"@,
        TokenType::This => "This"@,
        TokenType::True => "True"@,
        TokenType::Var => "Var"@,
        TokenType::While => "While"@,
        TokenType::Eof => "Eof"@,
    }
}

/// The display form of a literal: strings quoted, numbers as their numeral,
/// `true`, `false` and `nil`.
pub open spec fn object_text(o: Object) -> Seq<char> {
    match o {
        Object::String(s) => "\""@ + s@ + "\""@,
        Object::Number(n) => n@,
        Object::Boolean(b) => if b {
            "true"@
        } else {
            "false"@
        },
        Object::Nil => "nil"@,
    }
}

/// The display form of a token: its kind, its lexeme and its literal (or `None`).
pub open spec fn token_text(t: Token) -> Seq<char> {
    kind_name(t.token_type) + " "@ + t.lexeme@ + " "@ + match t.literal {
        Some(o) => object_text(o),
        None => "None"@,
    }
}

fn kind_name_of(k: TokenType) -> (r: &'static str)
    ensures
        r@ == kind_name(k),
{
    match k {
        TokenType::LeftParen => "LeftParen",
        TokenType::RightParen => "RightParen",
        TokenType::LeftBrace => "LeftBrace",
        TokenType::RightBrace => "RightBrace",
        TokenType::Comma => "Comma",
        TokenType::Dot => "Dot",
        TokenType::Minus => "Minus",
        TokenType::Plus => "Plus",
        TokenType::Semicolon => "Semicolon",
        TokenType::Slash => "Slash",
        TokenType::Star => "Star",
        TokenType::Bang => "Bang",
        TokenType::BangEqual => "BangEqual",
        TokenType::Equal => "Equal",
        TokenType::EqualEqual => "EqualEqual",
        TokenType::Greater => "Greater",
        TokenType::GreaterEqual => "GreaterEqual",
        TokenType::Less => "Less",
        TokenType::LessEqual => "LessEqual",
        TokenType::Identifier => "Identifier",
        TokenType::String => "String",
        TokenType::Number => "Number",
        TokenType::And => "And",
        TokenType::Class => "Class",
        TokenType::Else => "Else",
        TokenType::False => "False",
        TokenType::Fun => "Fun",
        TokenType::For => "For",
        TokenType::If => "If",
        TokenType::Nil => "Nil",
        TokenType::Or => "Or",
        TokenType::Print => "Print",
        TokenType::Return => "Return",
        TokenType::Super => "Super",
        TokenType::This => "This",
        TokenType::True => "True",
        TokenType::Var => "Var",
        TokenType::While => "While",
        TokenType::Eof => "Eof",
    }
}

impl Object {
    /// The display form of the literal.
    pub fn to_string(&self) -> (r: String)
        ensures
            r@ == object_text(*self),
    {
        match self {
            Object::String(s) => {
                let mut r = "\"".to_owned();
                r.append(s.as_str());
                r.append("\"");
                r
            },
            Object::Number(n) => n.clone(),
            Object::Boolean(b) => if *b {
                "true".to_owned()
            } else {
                "false".to_owned()
            },
            Object::Nil => "nil".to_owned(),
        }
    }
}

impl Token {
    /// The display form of the token.
    pub fn to_string(&self) -> (r: String)
        ensures
            r@ == token_text(*self),
    {
        let mut r = kind_name_of(self.token_type).to_owned();
        r.append(" ");
        r.append(self.lexeme.as_str());
        r.append(" ");
        match &self.literal {
            Some(o) => r.append(o.to_string().as_str()),
            None => r.append("None"),
        }
        r
    }
}

} // verus!
