use vstd::prelude::*;

verus! {

/// A region of source text: byte offsets `start..end`, with the line and
/// column (both counted from 1) of its first character.
#[derive(Debug, Clone, Copy, PartialEq, Eq, Structural)]
pub struct Span {
    pub start: usize,
    pub end: usize,
    pub line: usize,
    pub column: usize,
}

impl Span {
    pub fn new(start: usize, end: usize, line: usize, column: usize) -> (s: Self)
        ensures
            s.start == start,
            s.end == end,
            s.line == line,
            s.column == column,
    {
        Span { start, end, line, column }
    }

    /// The smallest start, the largest end, the smallest line, and the column
    /// of whichever span starts first (the receiver on a tie).
    pub open spec fn spec_merge(self, other: Span) -> Span {
        Span {
            start: if self.start <= other.start { self.start } else { other.start },
            end: if self.end >= other.end { self.end } else { other.end },
            line: if self.line <= other.line { self.line } else { other.line },
            column: if self.start <= other.start { self.column } else { other.column },
        }
    }

    pub fn merge(self, other: Span) -> (s: Self)
        ensures
            s == self.spec_merge(other),
    {
        Span {
            start: if self.start <= other.start { self.start } else { other.start },
            end: if self.end >= other.end { self.end } else { other.end },
            line: if self.line <= other.line { self.line } else { other.line },
            column: if self.start <= other.start { self.column } else { other.column },
        }
    }
}

impl Default for Span {
    fn default() -> (s: Self)
        ensures
            s == (Span { start: 0, end: 0, line: 0, column: 0 }),
    {
        Span { start: 0, end: 0, line: 0, column: 0 }
    }
}

/// Merging is idempotent: a span merged with itself is unchanged.
pub proof fn law_merge_idempotent(a: Span)
    ensures
        a.spec_merge(a) == a,
{
}

/// Merging is associative, so a chain of merges may be grouped either way.
pub proof fn law_merge_associative(a: Span, b: Span, c: Span)
    ensures
        a.spec_merge(b).spec_merge(c) == a.spec_merge(b.spec_merge(c)),
{
}

/// Merging is commutative whenever the two spans start at different offsets.
pub proof fn law_merge_commutative(a: Span, b: Span)
    requires
        a.start != b.start,
    ensures
        a.spec_merge(b) == b.spec_merge(a),
{
}

/// The merge covers both operands: it starts no later and ends no earlier
/// than either of them.
pub proof fn law_merge_covers(a: Span, b: Span)
    ensures
        a.spec_merge(b).start <= a.start,
        a.spec_merge(b).start <= b.start,
        a.spec_merge(b).end >= a.end,
        a.spec_merge(b).end >= b.end,
        a.spec_merge(b).line <= a.line,
        a.spec_merge(b).line <= b.line,
{
}

#[derive(Debug, Clone, PartialEq)]
pub struct Token {
    pub kind: TokenKind,
    pub span: Span,
}

impl Token {
    pub fn new(kind: TokenKind, span: Span) -> (t: Self)
        ensures
            t.kind == kind,
            t.span == span,
    {
        Token { kind, span }
    }

    /// A copy of the token, equal to it.
    pub fn duplicate(&self) -> (t: Token)
        ensures
            t == *self,
    {
        Token { kind: self.kind.duplicate(), span: self.span }
    }
}

#[derive(Debug, Clone, PartialEq)]
pub enum TokenKind {
    // --- Literals ---
    Ident(String),
    Int(i64),
    /// A floating-point literal, kept as the digit text that was lexed
    /// (underscores removed, exponent kept).
    Float(String),
    Str(String),
    True,
    False,
    NoneKw,

    // --- Lucid Keywords ---
    Export,
    Factory,
    Construct,
    Getter,
    Setter,
    Final,
    Sealed,
    Override,
    Without,
    Interface,
    Trait,
    Class,
    Implement,
    Dispatch,
    Type,
    Any,
    Trust,
    Match,
    Case,
    IfBroken,
    Skip,
    Let,
    Caller,
    FromVarName,
    ClassMethod,
    ClassVar,

    // --- Preserved Python Keywords ---
    And,
    As,
    Assert,
    Async,
    Await,
    Break,
    Continue,
    Def,
    Del,
    Elif,
    Else,
    Except,
    Finally,
    For,
    From,
    If,
    Import,
    In,
    Is,
    Not,
    Or,
    Pass,
    Raise,
    Return,
    Try,
    While,
    With,
    Yield,

    // --- Discarded Keywords (captured for clear error diagnostics) ---
    Global,
    Nonlocal,
    Lambda,

    // --- Operators & Symbols ---
    TripleStar, // ***
    DoubleStar, // **
    Star,       // *
    Arrow,      // ->
    Question,   // ?
    Bang,       // !
    Amp,        // &
    Plus,       // +
    Minus,      // -
    Slash,      // /
    DoubleSlash,// //
    Percent,    // %
    EqEq,       // ==
    NotEq,      // !=
    Lt,         // <
    LtEq,       // <=
    Gt,         // >
    GtEq,       // >=
    Pipe,       // |
    Caret,      // ^
    Tilde,      // ~
    Shl,        // <<
    Shr,        // >>
    Walrus,     // :=
    Eq,         // =
    PlusEq,     // +=
    MinusEq,    // -=
    StarEq,     // *=
    SlashEq,    // /=
    PercentEq,  // %=
    DoubleStarEq, // **=
    DoubleSlashEq, // //=
    At,         // @
    Dot,        // .
    Ellipsis,   // ...
    Comma,      // ,
    Colon,      // :
    Semi,       // ;
    LParen,     // (
    RParen,     // )
    LBracket,   // [
    RBracket,   // ]
    LBrace,     // {
    RBrace,     // }

    // --- Layout ---
    Newline,
    Indent,
    Dedent,
    Eof,
}

impl TokenKind {
    /// Two kinds are alike when they are the same variant and their payloads
    /// (text or number) are equal.
    pub open spec fn same_as(self, other: TokenKind) -> bool {
        match (self, other) {
            (TokenKind::Ident(a), TokenKind::Ident(b)) => a@ == b@,
            (TokenKind::Int(a), TokenKind::Int(b)) => a == b,
            (TokenKind::Float(a), TokenKind::Float(b)) => a@ == b@,
            (TokenKind::Str(a), TokenKind::Str(b)) => a@ == b@,
            (TokenKind::Ident(_), _) | (TokenKind::Int(_), _) | (TokenKind::Float(_), _) | (TokenKind::Str(_), _) => false,
            (_, TokenKind::Ident(_)) | (_, TokenKind::Int(_)) | (_, TokenKind::Float(_)) | (_, TokenKind::Str(_)) => false,
            _ => self.tag() == other.tag(),
        }
    }

    /// The position of the variant in the declaration.
    pub open spec fn tag(self) -> int {
        match self {
            TokenKind::Ident(_) => 0,
            TokenKind::Int(_) => 1,
            TokenKind::Float(_) => 2,
            TokenKind::Str(_) => 3,
            TokenKind::True => 4,
            TokenKind::False => 5,
            TokenKind::NoneKw => 6,
            TokenKind::Export => 7,
            TokenKind::Factory => 8,
            TokenKind::Construct => 9,
            TokenKind::Getter => 10,
            TokenKind::Setter => 11,
            TokenKind::Final => 12,
            TokenKind::Sealed => 13,
            TokenKind::Override => 14,
            TokenKind::Without => 15,
            TokenKind::Interface => 16,
            TokenKind::Trait => 17,
            TokenKind::Class => 18,
            TokenKind::Implement => 19,
            TokenKind::Dispatch => 20,
            TokenKind::Type => 21,
            TokenKind::Any => 22,
            TokenKind::Trust => 23,
            TokenKind::Match => 24,
            TokenKind::Case => 25,
            TokenKind::IfBroken => 26,
            TokenKind::Skip => 27,
            TokenKind::Let => 28,
            TokenKind::Caller => 29,
            TokenKind::FromVarName => 30,
            TokenKind::ClassMethod => 31,
            TokenKind::ClassVar => 32,
            TokenKind::And => 33,
            TokenKind::As => 34,
            TokenKind::Assert => 35,
            TokenKind::Async => 36,
            TokenKind::Await => 37,
            TokenKind::Break => 38,
            TokenKind::Continue => 39,
            TokenKind::Def => 40,
            TokenKind::Del => 41,
            TokenKind::Elif => 42,
            TokenKind::Else => 43,
            TokenKind::Except => 44,
            TokenKind::Finally => 45,
            TokenKind::For => 46,
            TokenKind::From => 47,
            TokenKind::If => 48,
            TokenKind::Import => 49,
            TokenKind::In => 50,
            TokenKind::Is => 51,
            TokenKind::Not => 52,
            TokenKind::Or => 53,
            TokenKind::Pass => 54,
            TokenKind::Raise => 55,
            TokenKind::Return => 56,
            TokenKind::Try => 57,
            TokenKind::While => 58,
            TokenKind::With => 59,
            TokenKind::Yield => 60,
            TokenKind::Global => 61,
            TokenKind::Nonlocal => 62,
            TokenKind::Lambda => 63,
            TokenKind::TripleStar => 64,
            TokenKind::DoubleStar => 65,
            TokenKind::Star => 66,
            TokenKind::Arrow => 67,
            TokenKind::Question => 68,
            TokenKind::Bang => 69,
            TokenKind::Amp => 70,
            TokenKind::Plus => 71,
            TokenKind::Minus => 72,
            TokenKind::Slash => 73,
            TokenKind::DoubleSlash => 74,
            TokenKind::Percent => 75,
            TokenKind::EqEq => 76,
            TokenKind::NotEq => 77,
            TokenKind::Lt => 78,
            TokenKind::LtEq => 79,
            TokenKind::Gt => 80,
            TokenKind::GtEq => 81,
            TokenKind::Pipe => 82,
            TokenKind::Caret => 83,
            TokenKind::Tilde => 84,
            TokenKind::Shl => 85,
            TokenKind::Shr => 86,
            TokenKind::Walrus => 87,
            TokenKind::Eq => 88,
            TokenKind::PlusEq => 89,
            TokenKind::MinusEq => 90,
            TokenKind::StarEq => 91,
            TokenKind::SlashEq => 92,
            TokenKind::PercentEq => 93,
            TokenKind::DoubleStarEq => 94,
            TokenKind::DoubleSlashEq => 95,
            TokenKind::At => 96,
            TokenKind::Dot => 97,
            TokenKind::Ellipsis => 98,
            TokenKind::Comma => 99,
            TokenKind::Colon => 100,
            TokenKind::Semi => 101,
            TokenKind::LParen => 102,
            TokenKind::RParen => 103,
            TokenKind::LBracket => 104,
            TokenKind::RBracket => 105,
            TokenKind::LBrace => 106,
            TokenKind::RBrace => 107,
            TokenKind::Newline => 108,
            TokenKind::Indent => 109,
            TokenKind::Dedent => 110,
            TokenKind::Eof => 111,
        }
    }

    pub fn tag_of(&self) -> (t: u8)
        ensures
            t as int == self.tag(),
    {
        match self {
            TokenKind::Ident(_) => 0,
            TokenKind::Int(_) => 1,
            TokenKind::Float(_) => 2,
            TokenKind::Str(_) => 3,
            TokenKind::True => 4,
            TokenKind::False => 5,
            TokenKind::NoneKw => 6,
            TokenKind::Export => 7,
            TokenKind::Factory => 8,
            TokenKind::Construct => 9,
            TokenKind::Getter => 10,
            TokenKind::Setter => 11,
            TokenKind::Final => 12,
            TokenKind::Sealed => 13,
            TokenKind::Override => 14,
            TokenKind::Without => 15,
            TokenKind::Interface => 16,
            TokenKind::Trait => 17,
            TokenKind::Class => 18,
            TokenKind::Implement => 19,
            TokenKind::Dispatch => 20,
            TokenKind::Type => 21,
            TokenKind::Any => 22,
            TokenKind::Trust => 23,
            TokenKind::Match => 24,
            TokenKind::Case => 25,
            TokenKind::IfBroken => 26,
            TokenKind::Skip => 27,
            TokenKind::Let => 28,
            TokenKind::Caller => 29,
            TokenKind::FromVarName => 30,
            TokenKind::ClassMethod => 31,
            TokenKind::ClassVar => 32,
            TokenKind::And => 33,
            TokenKind::As => 34,
            TokenKind::Assert => 35,
            TokenKind::Async => 36,
            TokenKind::Await => 37,
            TokenKind::Break => 38,
            TokenKind::Continue => 39,
            TokenKind::Def => 40,
            TokenKind::Del => 41,
            TokenKind::Elif => 42,
            TokenKind::Else => 43,
            TokenKind::Except => 44,
            TokenKind::Finally => 45,
            TokenKind::For => 46,
            TokenKind::From => 47,
            TokenKind::If => 48,
            TokenKind::Import => 49,
            TokenKind::In => 50,
            TokenKind::Is => 51,
            TokenKind::Not => 52,
            TokenKind::Or => 53,
            TokenKind::Pass => 54,
            TokenKind::Raise => 55,
            TokenKind::Return => 56,
            TokenKind::Try => 57,
            TokenKind::While => 58,
            TokenKind::With => 59,
            TokenKind::Yield => 60,
            TokenKind::Global => 61,
            TokenKind::Nonlocal => 62,
            TokenKind::Lambda => 63,
            TokenKind::TripleStar => 64,
            TokenKind::DoubleStar => 65,
            TokenKind::Star => 66,
            TokenKind::Arrow => 67,
            TokenKind::Question => 68,
            TokenKind::Bang => 69,
            TokenKind::Amp => 70,
            TokenKind::Plus => 71,
            TokenKind::Minus => 72,
            TokenKind::Slash => 73,
            TokenKind::DoubleSlash => 74,
            TokenKind::Percent => 75,
            TokenKind::EqEq => 76,
            TokenKind::NotEq => 77,
            TokenKind::Lt => 78,
            TokenKind::LtEq => 79,
            TokenKind::Gt => 80,
            TokenKind::GtEq => 81,
            TokenKind::Pipe => 82,
            TokenKind::Caret => 83,
            TokenKind::Tilde => 84,
            TokenKind::Shl => 85,
            TokenKind::Shr => 86,
            TokenKind::Walrus => 87,
            TokenKind::Eq => 88,
            TokenKind::PlusEq => 89,
            TokenKind::MinusEq => 90,
            TokenKind::StarEq => 91,
            TokenKind::SlashEq => 92,
            TokenKind::PercentEq => 93,
            TokenKind::DoubleStarEq => 94,
            TokenKind::DoubleSlashEq => 95,
            TokenKind::At => 96,
            TokenKind::Dot => 97,
            TokenKind::Ellipsis => 98,
            TokenKind::Comma => 99,
            TokenKind::Colon => 100,
            TokenKind::Semi => 101,
            TokenKind::LParen => 102,
            TokenKind::RParen => 103,
            TokenKind::LBracket => 104,
            TokenKind::RBracket => 105,
            TokenKind::LBrace => 106,
            TokenKind::RBrace => 107,
            TokenKind::Newline => 108,
            TokenKind::Indent => 109,
            TokenKind::Dedent => 110,
            TokenKind::Eof => 111,
        }
    }

    /// Whether two kinds are alike (see `same_as`).
    pub fn same_kind(&self, other: &TokenKind) -> (r: bool)
        ensures
            r == self.same_as(*other),
    {
        match (self, other) {
            (TokenKind::Ident(a), TokenKind::Ident(b)) => *a == *b,
            (TokenKind::Int(a), TokenKind::Int(b)) => *a == *b,
            (TokenKind::Float(a), TokenKind::Float(b)) => *a == *b,
            (TokenKind::Str(a), TokenKind::Str(b)) => *a == *b,
            (TokenKind::Ident(_), _) | (TokenKind::Int(_), _) | (TokenKind::Float(_), _) | (TokenKind::Str(_), _) => false,
            (_, TokenKind::Ident(_)) | (_, TokenKind::Int(_)) | (_, TokenKind::Float(_)) | (_, TokenKind::Str(_)) => false,
            _ => self.tag_of() == other.tag_of(),
        }
    }

    /// A copy of the kind, equal to it.
    pub fn duplicate(&self) -> (r: TokenKind)
        ensures
            r == *self,
    {
        match self {
            TokenKind::Ident(s) => TokenKind::Ident(s.clone()),
            TokenKind::Int(n) => TokenKind::Int(*n),
            TokenKind::Float(s) => TokenKind::Float(s.clone()),
            TokenKind::Str(s) => TokenKind::Str(s.clone()),
            TokenKind::True => TokenKind::True,
            TokenKind::False => TokenKind::False,
            TokenKind::NoneKw => TokenKind::NoneKw,
            TokenKind::Export => TokenKind::Export,
            TokenKind::Factory => TokenKind::Factory,
            TokenKind::Construct => TokenKind::Construct,
            TokenKind::Getter => TokenKind::Getter,
            TokenKind::Setter => TokenKind::Setter,
            TokenKind::Final => TokenKind::Final,
            TokenKind::Sealed => TokenKind::Sealed,
            TokenKind::Override => TokenKind::Override,
            TokenKind::Without => TokenKind::Without,
            TokenKind::Interface => TokenKind::Interface,
            TokenKind::Trait => TokenKind::Trait,
            TokenKind::Class => TokenKind::Class,
            TokenKind::Implement => TokenKind::Implement,
            TokenKind::Dispatch => TokenKind::Dispatch,
            TokenKind::Type => TokenKind::Type,
            TokenKind::Any => TokenKind::Any,
            TokenKind::Trust => TokenKind::Trust,
            TokenKind::Match => TokenKind::Match,
            TokenKind::Case => TokenKind::Case,
            TokenKind::IfBroken => TokenKind::IfBroken,
            TokenKind::Skip => TokenKind::Skip,
            TokenKind::Let => TokenKind::Let,
            TokenKind::Caller => TokenKind::Caller,
            TokenKind::FromVarName => TokenKind::FromVarName,
            TokenKind::ClassMethod => TokenKind::ClassMethod,
            TokenKind::ClassVar => TokenKind::ClassVar,
            TokenKind::And => TokenKind::And,
            TokenKind::As => TokenKind::As,
            TokenKind::Assert => TokenKind::Assert,
            TokenKind::Async => TokenKind::Async,
            TokenKind::Await => TokenKind::Await,
            TokenKind::Break => TokenKind::Break,
            TokenKind::Continue => TokenKind::Continue,
            TokenKind::Def => TokenKind::Def,
            TokenKind::Del => TokenKind::Del,
            TokenKind::Elif => TokenKind::Elif,
            TokenKind::Else => TokenKind::Else,
            TokenKind::Except => TokenKind::Except,
            TokenKind::Finally => TokenKind::Finally,
            TokenKind::For => TokenKind::For,
            TokenKind::From => TokenKind::From,
            TokenKind::If => TokenKind::If,
            TokenKind::Import => TokenKind::Import,
            TokenKind::In => TokenKind::In,
            TokenKind::Is => TokenKind::Is,
            TokenKind::Not => TokenKind::Not,
            TokenKind::Or => TokenKind::Or,
            TokenKind::Pass => TokenKind::Pass,
            TokenKind::Raise => TokenKind::Raise,
            TokenKind::Return => TokenKind::Return,
            TokenKind::Try => TokenKind::Try,
            TokenKind::While => TokenKind::While,
            TokenKind::With => TokenKind::With,
            TokenKind::Yield => TokenKind::Yield,
            TokenKind::Global => TokenKind::Global,
            TokenKind::Nonlocal => TokenKind::Nonlocal,
            TokenKind::Lambda => TokenKind::Lambda,
            TokenKind::TripleStar => TokenKind::TripleStar,
            TokenKind::DoubleStar => TokenKind::DoubleStar,
            TokenKind::Star => TokenKind::Star,
            TokenKind::Arrow => TokenKind::Arrow,
            TokenKind::Question => TokenKind::Question,
            TokenKind::Bang => TokenKind::Bang,
            TokenKind::Amp => TokenKind::Amp,
            TokenKind::Plus => TokenKind::Plus,
            TokenKind::Minus => TokenKind::Minus,
            TokenKind::Slash => TokenKind::Slash,
            TokenKind::DoubleSlash => TokenKind::DoubleSlash,
            TokenKind::Percent => TokenKind::Percent,
            TokenKind::EqEq => TokenKind::EqEq,
            TokenKind::NotEq => TokenKind::NotEq,
            TokenKind::Lt => TokenKind::Lt,
            TokenKind::LtEq => TokenKind::LtEq,
            TokenKind::Gt => TokenKind::Gt,
            TokenKind::GtEq => TokenKind::GtEq,
            TokenKind::Pipe => TokenKind::Pipe,
            TokenKind::Caret => TokenKind::Caret,
            TokenKind::Tilde => TokenKind::Tilde,
            TokenKind::Shl => TokenKind::Shl,
            TokenKind::Shr => TokenKind::Shr,
            TokenKind::Walrus => TokenKind::Walrus,
            TokenKind::Eq => TokenKind::Eq,
            TokenKind::PlusEq => TokenKind::PlusEq,
            TokenKind::MinusEq => TokenKind::MinusEq,
            TokenKind::StarEq => TokenKind::StarEq,
            TokenKind::SlashEq => TokenKind::SlashEq,
            TokenKind::PercentEq => TokenKind::PercentEq,
            TokenKind::DoubleStarEq => TokenKind::DoubleStarEq,
            TokenKind::DoubleSlashEq => TokenKind::DoubleSlashEq,
            TokenKind::At => TokenKind::At,
            TokenKind::Dot => TokenKind::Dot,
            TokenKind::Ellipsis => TokenKind::Ellipsis,
            TokenKind::Comma => TokenKind::Comma,
            TokenKind::Colon => TokenKind::Colon,
            TokenKind::Semi => TokenKind::Semi,
            TokenKind::LParen => TokenKind::LParen,
            TokenKind::RParen => TokenKind::RParen,
            TokenKind::LBracket => TokenKind::LBracket,
            TokenKind::RBracket => TokenKind::RBracket,
            TokenKind::LBrace => TokenKind::LBrace,
            TokenKind::RBrace => TokenKind::RBrace,
            TokenKind::Newline => TokenKind::Newline,
            TokenKind::Indent => TokenKind::Indent,
            TokenKind::Dedent => TokenKind::Dedent,
            TokenKind::Eof => TokenKind::Eof,
        }
    }

    /// The text by which diagnostics name a token kind.
    pub open spec fn spec_describe(self) -> Seq<char> {
        match self {
            TokenKind::Ident(s) => "identifier '"@ + s@ + "'"@,
            TokenKind::Int(n) => "integer "@ + crate::text::int_text(n as int),
            TokenKind::Float(s) => "float "@ + s@,
            TokenKind::Str(s) => "string \""@ + s@ + "\""@,
            TokenKind::True => "'true'"@,
            TokenKind::False => "'false'"@,
            TokenKind::NoneKw => "'none'"@,
            TokenKind::Export => "'export'"@,
            TokenKind::Factory => "'factory'"@,
            TokenKind::Construct => "'construct'"@,
            TokenKind::Getter => "'getter'"@,
            TokenKind::Setter => "'setter'"@,
            TokenKind::Final => "'final'"@,
            TokenKind::Sealed => "'sealed'"@,
            TokenKind::Override => "'override'"@,
            TokenKind::Without => "'without'"@,
            TokenKind::Interface => "'interface'"@,
            TokenKind::Trait => "'trait'"@,
            TokenKind::Class => "'class'"@,
            TokenKind::Implement => "'implement'"@,
            TokenKind::Dispatch => "'dispatch'"@,
            TokenKind::Type => "'type'"@,
            TokenKind::Any => "'any'"@,
            TokenKind::Trust => "'trust'"@,
            TokenKind::Match => "'match'"@,
            TokenKind::Case => "'case'"@,
            TokenKind::IfBroken => "'if_broken'"@,
            TokenKind::Skip => "'skip'"@,
            TokenKind::Let => "'let'"@,
            TokenKind::Caller => "'caller'"@,
            TokenKind::FromVarName => "'from_var_name'"@,
            TokenKind::ClassMethod => "'classmethod'"@,
            TokenKind::ClassVar => "'classvar'"@,
            TokenKind::And => "'and'"@,
            TokenKind::As => "'as'"@,
            TokenKind::Assert => "'assert'"@,
            TokenKind::Async => "'async'"@,
            TokenKind::Await => "'await'"@,
            TokenKind::Break => "'break'"@,
            TokenKind::Continue => "'continue'"@,
            TokenKind::Def => "'def'"@,
            TokenKind::Del => "'del'"@,
            TokenKind::Elif => "'elif'"@,
            TokenKind::Else => "'else'"@,
            TokenKind::Except => "'except'"@,
            TokenKind::Finally => "'finally'"@,
            TokenKind::For => "'for'"@,
            TokenKind::From => "'from'"@,
            TokenKind::If => "'if'"@,
            TokenKind::Import => "'import'"@,
            TokenKind::In => "'in'"@,
            TokenKind::Is => "'is'"@,
            TokenKind::Not => "'not'"@,
            TokenKind::Or => "'or'"@,
            TokenKind::Pass => "'pass'"@,
            TokenKind::Raise => "'raise'"@,
            TokenKind::Return => "'return'"@,
            TokenKind::Try => "'try'"@,
            TokenKind::While => "'while'"@,
            TokenKind::With => "'with'"@,
            TokenKind::Yield => "'yield'"@,
            TokenKind::Global => "'global' (discarded in Lucid)"@,
            TokenKind::Nonlocal => "'nonlocal' (discarded in Lucid)"@,
            TokenKind::Lambda => "'lambda' (discarded in Lucid; use anonymous 'def')"@,
            TokenKind::TripleStar => "'***'"@,
            TokenKind::DoubleStar => "'**'"@,
            TokenKind::Star => "'*'"@,
            TokenKind::Arrow => "'->'"@,
            TokenKind::Question => "'?'"@,
            TokenKind::Bang => "'!'"@,
            TokenKind::Amp => "'&'"@,
            TokenKind::Plus => "'+'"@,
            TokenKind::Minus => "'-'"@,
            TokenKind::Slash => "'/'"@,
            TokenKind::DoubleSlash => "'//'"@,
            TokenKind::Percent => "'%'"@,
            TokenKind::EqEq => "'=='"@,
            TokenKind::NotEq => "'!='"@,
            TokenKind::Lt => "'<'"@,
            TokenKind::LtEq => "'<='"@,
            TokenKind::Gt => "'>'"@,
            TokenKind::GtEq => "'>='"@,
            TokenKind::Pipe => "'|'"@,
            TokenKind::Caret => "'^'"@,
            TokenKind::Tilde => "'~'"@,
            TokenKind::Shl => "'<<'"@,
            TokenKind::Shr => "'>>'"@,
            TokenKind::Walrus => "':='"@,
            TokenKind::Eq => "'='"@,
            TokenKind::PlusEq => "'+='"@,
            TokenKind::MinusEq => "'-='"@,
            TokenKind::StarEq => "'*='"@,
            TokenKind::SlashEq => "'/='"@,
            TokenKind::PercentEq => "'%='"@,
            TokenKind::DoubleStarEq => "'**='"@,
            TokenKind::DoubleSlashEq => "'//='"@,
            TokenKind::At => "'@'"@,
            TokenKind::Dot => "'.'"@,
            TokenKind::Ellipsis => "'...'"@,
            TokenKind::Comma => "','"@,
            TokenKind::Colon => "':'"@,
            TokenKind::Semi => "';'"@,
            TokenKind::LParen => "'('"@,
            TokenKind::RParen => "')'"@,
            TokenKind::LBracket => "'['"@,
            TokenKind::RBracket => "']'"@,
            TokenKind::LBrace => "'{'"@,
            TokenKind::RBrace => "'}'"@,
            TokenKind::Newline => "NEWLINE"@,
            TokenKind::Indent => "INDENT"@,
            TokenKind::Dedent => "DEDENT"@,
            TokenKind::Eof => "end of file"@,
        }
    }

    /// The text by which diagnostics name a token kind.
    pub fn describe(&self) -> (r: String)
        ensures
            r@ == self.spec_describe(),
    {
        match self {
            TokenKind::Ident(s) => {
                let mut r = String::from_str("identifier '");
                r.append(s.as_str());
                r.append("'");
                r
            },
            TokenKind::Int(n) => {
                let mut r = String::from_str("integer ");
                let t = crate::text::i64_to_string(*n);
                r.append(t.as_str());
                r
            },
            TokenKind::Float(s) => {
                let mut r = String::from_str("float ");
                r.append(s.as_str());
                r
            },
            TokenKind::Str(s) => {
                let mut r = String::from_str("string \"");
                r.append(s.as_str());
                r.append("\"");
                r
            },
            TokenKind::True => String::from_str("'true'"),
            TokenKind::False => String::from_str("'false'"),
            TokenKind::NoneKw => String::from_str("'none'"),
            TokenKind::Export => String::from_str("'export'"),
            TokenKind::Factory => String::from_str("'factory'"),
            TokenKind::Construct => String::from_str("'construct'"),
            TokenKind::Getter => String::from_str("'getter'"),
            TokenKind::Setter => String::from_str("'setter'"),
            TokenKind::Final => String::from_str("'final'"),
            TokenKind::Sealed => String::from_str("'sealed'"),
            TokenKind::Override => String::from_str("'override'"),
            TokenKind::Without => String::from_str("'without'"),
            TokenKind::Interface => String::from_str("'interface'"),
            TokenKind::Trait => String::from_str("'trait'"),
            TokenKind::Class => String::from_str("'class'"),
            TokenKind::Implement => String::from_str("'implement'"),
            TokenKind::Dispatch => String::from_str("'dispatch'"),
            TokenKind::Type => String::from_str("'type'"),
            TokenKind::Any => String::from_str("'any'"),
            TokenKind::Trust => String::from_str("'trust'"),
            TokenKind::Match => String::from_str("'match'"),
            TokenKind::Case => String::from_str("'case'"),
            TokenKind::IfBroken => String::from_str("'if_broken'"),
            TokenKind::Skip => String::from_str("'skip'"),
            TokenKind::Let => String::from_str("'let'"),
            TokenKind::Caller => String::from_str("'caller'"),
            TokenKind::FromVarName => String::from_str("'from_var_name'"),
            TokenKind::ClassMethod => String::from_str("'classmethod'"),
            TokenKind::ClassVar => String::from_str("'classvar'"),
            TokenKind::And => String::from_str("'and'"),
            TokenKind::As => String::from_str("'as'"),
            TokenKind::Assert => String::from_str("'assert'"),
            TokenKind::Async => String::from_str("'async'"),
            TokenKind::Await => String::from_str("'await'"),
            TokenKind::Break => String::from_str("'break'"),
            TokenKind::Continue => String::from_str("'continue'"),
            TokenKind::Def => String::from_str("'def'"),
            TokenKind::Del => String::from_str("'del'"),
            TokenKind::Elif => String::from_str("'elif'"),
            TokenKind::Else => String::from_str("'else'"),
            TokenKind::Except => String::from_str("'except'"),
            TokenKind::Finally => String::from_str("'finally'"),
            TokenKind::For => String::from_str("'for'"),
            TokenKind::From => String::from_str("'from'"),
            TokenKind::If => String::from_str("'if'"),
            TokenKind::Import => String::from_str("'import'"),
            TokenKind::In => String::from_str("'in'"),
            TokenKind::Is => String::from_str("'is'"),
            TokenKind::Not => String::from_str("'not'"),
            TokenKind::Or => String::from_str("'or'"),
            TokenKind::Pass => String::from_str("'pass'"),
            TokenKind::Raise => String::from_str("'raise'"),
            TokenKind::Return => String::from_str("'return'"),
            TokenKind::Try => String::from_str("'try'"),
            TokenKind::While => String::from_str("'while'"),
            TokenKind::With => String::from_str("'with'"),
            TokenKind::Yield => String::from_str("'yield'"),
            TokenKind::Global => String::from_str("'global' (discarded in Lucid)"),
            TokenKind::Nonlocal => String::from_str("'nonlocal' (discarded in Lucid)"),
            TokenKind::Lambda => String::from_str("'lambda' (discarded in Lucid; use anonymous 'def')"),
            TokenKind::TripleStar => String::from_str("'***'"),
            TokenKind::DoubleStar => String::from_str("'**'"),
            TokenKind::Star => String::from_str("'*'"),
            TokenKind::Arrow => String::from_str("'->'"),
            TokenKind::Question => String::from_str("'?'"),
            TokenKind::Bang => String::from_str("'!'"),
            TokenKind::Amp => String::from_str("'&'"),
            TokenKind::Plus => String::from_str("'+'"),
            TokenKind::Minus => String::from_str("'-'"),
            TokenKind::Slash => String::from_str("'/'"),
            TokenKind::DoubleSlash => String::from_str("'//'"),
            TokenKind::Percent => String::from_str("'%'"),
            TokenKind::EqEq => String::from_str("'=='"),
            TokenKind::NotEq => String::from_str("'!='"),
            TokenKind::Lt => String::from_str("'<'"),
            TokenKind::LtEq => String::from_str("'<='"),
            TokenKind::Gt => String::from_str("'>'"),
            TokenKind::GtEq => String::from_str("'>='"),
            TokenKind::Pipe => String::from_str("'|'"),
            TokenKind::Caret => String::from_str("'^'"),
            TokenKind::Tilde => String::from_str("'~'"),
            TokenKind::Shl => String::from_str("'<<'"),
            TokenKind::Shr => String::from_str("'>>'"),
            TokenKind::Walrus => String::from_str("':='"),
            TokenKind::Eq => String::from_str("'='"),
            TokenKind::PlusEq => String::from_str("'+='"),
            TokenKind::MinusEq => String::from_str("'-='"),
            TokenKind::StarEq => String::from_str("'*='"),
            TokenKind::SlashEq => String::from_str("'/='"),
            TokenKind::PercentEq => String::from_str("'%='"),
            TokenKind::DoubleStarEq => String::from_str("'**='"),
            TokenKind::DoubleSlashEq => String::from_str("'//='"),
            TokenKind::At => String::from_str("'@'"),
            TokenKind::Dot => String::from_str("'.'"),
            TokenKind::Ellipsis => String::from_str("'...'"),
            TokenKind::Comma => String::from_str("','"),
            TokenKind::Colon => String::from_str("':'"),
            TokenKind::Semi => String::from_str("';'"),
            TokenKind::LParen => String::from_str("'('"),
            TokenKind::RParen => String::from_str("')'"),
            TokenKind::LBracket => String::from_str("'['"),
            TokenKind::RBracket => String::from_str("']'"),
            TokenKind::LBrace => String::from_str("'{'"),
            TokenKind::RBrace => String::from_str("'}'"),
            TokenKind::Newline => String::from_str("NEWLINE"),
            TokenKind::Indent => String::from_str("INDENT"),
            TokenKind::Dedent => String::from_str("DEDENT"),
            TokenKind::Eof => String::from_str("end of file"),
        }
    }
}

} // verus!
