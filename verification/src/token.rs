//! Tokens: a kind tag paired with the place in the source where it starts.

use vstd::prelude::*;

verus! {

/// A place in the source text.  Lines and columns are counted from 1.
#[derive(Clone, Copy, Debug, PartialEq, Eq, Structural)]
pub struct Location {
    pub line: usize,
    pub column: usize,
}

/// The closed set of token classes.
///
/// `StringLiteral`, `IntegerLiteral` and `Identifier` carry a payload that is
/// kept outside the token, keyed by the token's location.  Every other kind
/// has one fixed spelling.
#[derive(Clone, Copy, Debug, PartialEq, Eq, Structural)]
pub enum TokenKind {
    StringLiteral,
    IntegerLiteral,
    Identifier,
    OpenBraces,
    CloseBraces,
    OpenParentheses,
    CloseParentheses,
    Plus,
    Minus,
    Mul,
    Div,
    Rem,
    Assign,
    DefineVar,
    FieldTypeSeparator,
    RightArrow,
    Equal,
    Greater,
    GreaterOrEqual,
    Less,
    LessOrEqual,
    FunctionDefinition,
    Mutable,
    Struct,
    Not,
    Or,
    And,
    Xor,
    Comma,
    EndOfStatement,
}

impl TokenKind {
    /// Whether tokens of this kind have their text in the literal side table.
    pub open spec fn carries_payload(self) -> bool {
        self == TokenKind::StringLiteral || self == TokenKind::IntegerLiteral || self
            == TokenKind::Identifier
    }

    /// The fixed spelling of a kind, `None` for the kinds that carry a payload.
    pub open spec fn spelling(self) -> Option<Seq<char>> {
        match self {
            TokenKind::StringLiteral => None,
            TokenKind::IntegerLiteral => None,
            TokenKind::Identifier => None,
            TokenKind::OpenBraces => Some(seq!['{']),
            TokenKind::CloseBraces => Some(seq!['}']),
            TokenKind::OpenParentheses => Some(seq!['(']),
            TokenKind::CloseParentheses => Some(seq![')']),
            TokenKind::Plus => Some(seq!['+']),
            TokenKind::Minus => Some(seq!['-']),
            TokenKind::Mul => Some(seq!['*']),
            TokenKind::Div => Some(seq!['/']),
            TokenKind::Rem => Some(seq!['%']),
            TokenKind::Assign => Some(seq!['=']),
            TokenKind::DefineVar => Some(seq![':', '=']),
            TokenKind::FieldTypeSeparator => Some(seq![':']),
            TokenKind::RightArrow => Some(seq!['-', '>']),
            TokenKind::Equal => Some(seq!['=', '=']),
            TokenKind::Greater => Some(seq!['>']),
            TokenKind::GreaterOrEqual => Some(seq!['>', '=']),
            TokenKind::Less => Some(seq!['<']),
            TokenKind::LessOrEqual => Some(seq!['<', '=']),
            TokenKind::FunctionDefinition => Some(seq!['f', 'n']),
            TokenKind::Mutable => Some(seq!['m', 'u', 't']),
            TokenKind::Struct => Some(seq!['s', 't', 'r', 'u', 'c', 't']),
            TokenKind::Not => Some(seq!['!']),
            TokenKind::Or => Some(seq!['|']),
            TokenKind::And => Some(seq!['&']),
            TokenKind::Xor => Some(seq!['^']),
            TokenKind::Comma => Some(seq![',']),
            TokenKind::EndOfStatement => Some(seq![';']),
        }
    }

    /// The text a token of this kind is written as, where the kind fixes it.
    pub fn text(&self) -> (text: Option<&'static str>)
        ensures
            match text {
                Some(t) => self.spelling() == Some(t@),
                None => self.spelling() is None,
            },
    {
        proof {
            reveal_strlit("{");
            reveal_strlit("}");
            reveal_strlit("(");
            reveal_strlit(")");
            reveal_strlit("+");
            reveal_strlit("-");
            reveal_strlit("*");
            reveal_strlit("/");
            reveal_strlit("%");
            reveal_strlit("=");
            reveal_strlit(":=");
            reveal_strlit(":");
            reveal_strlit("->");
            reveal_strlit("==");
            reveal_strlit(">");
            reveal_strlit(">=");
            reveal_strlit("<");
            reveal_strlit("<=");
            reveal_strlit("fn");
            reveal_strlit("mut");
            reveal_strlit("struct");
            reveal_strlit("!");
            reveal_strlit("|");
            reveal_strlit("&");
            reveal_strlit("^");
            reveal_strlit(",");
            reveal_strlit(";");
        }
        let text = match self {
            TokenKind::StringLiteral => None,
            TokenKind::IntegerLiteral => None,
            TokenKind::Identifier => None,
            TokenKind::OpenBraces => Some("{"),
            TokenKind::CloseBraces => Some("}"),
            TokenKind::OpenParentheses => Some("("),
            TokenKind::CloseParentheses => Some(")"),
            TokenKind::Plus => Some("+"),
            TokenKind::Minus => Some("-"),
            TokenKind::Mul => Some("*"),
            TokenKind::Div => Some("/"),
            TokenKind::Rem => Some("%"),
            TokenKind::Assign => Some("="),
            TokenKind::DefineVar => Some(":="),
            TokenKind::FieldTypeSeparator => Some(":"),
            TokenKind::RightArrow => Some("->"),
            TokenKind::Equal => Some("=="),
            TokenKind::Greater => Some(">"),
            TokenKind::GreaterOrEqual => Some(">="),
            TokenKind::Less => Some("<"),
            TokenKind::LessOrEqual => Some("<="),
            TokenKind::FunctionDefinition => Some("fn"),
            TokenKind::Mutable => Some("mut"),
            TokenKind::Struct => Some("struct"),
            TokenKind::Not => Some("!"),
            TokenKind::Or => Some("|"),
            TokenKind::And => Some("&"),
            TokenKind::Xor => Some("^"),
            TokenKind::Comma => Some(","),
            TokenKind::EndOfStatement => Some(";"),
        };
        text
    }
}

/// What a token is, as a plain value: its kind and where it starts.
pub struct TokenView {
    pub kind: TokenKind,
    pub location: Location,
}

/// One token of the stream: a kind and the location of its first code point.
#[derive(Clone, Copy, Debug)]
pub struct Token {
    token_kind: TokenKind,
    location: Location,
}

impl View for Token {
    type V = TokenView;

    closed spec fn view(&self) -> TokenView {
        TokenView { kind: self.token_kind, location: self.location }
    }
}

impl DeepView for Token {
    type V = TokenView;

    open spec fn deep_view(&self) -> TokenView {
        self@
    }
}

impl Token {
    /// A token of `token_kind` whose first code point stands at `location`.
    pub fn new(token_kind: TokenKind, location: Location) -> (token: Self)
        ensures
            token@ == (TokenView { kind: token_kind, location }),
    {
        Self { token_kind, location }
    }

    /// What the token is.
    pub fn kind(&self) -> (kind: &TokenKind)
        ensures
            *kind == self@.kind,
    {
        &self.token_kind
    }

    /// Where the first code point of the token stands.
    pub fn location(&self) -> (location: &Location)
        ensures
            *location == self@.location,
    {
        &self.location
    }
}

} // verus!
