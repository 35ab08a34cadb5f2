//! The lexer: turns source text into a sequence of positioned tokens.
use vstd::prelude::*;
use crate::text::{
    push_char, push_int, chars_of, copy_string, same_text, text_is, int_text, decimal,
    push_decimal, is_digit, digits_value, all_digits, digit_value, char_is_alphabetic,
    char_is_alphanumeric, char_is_whitespace, is_alpha, is_alnum, is_space, string_of, is_ascii_letter,
};

verus! {

/// A lexical token.
#[derive(Debug)]
pub enum Token {
    Let,
    Mut,
    Fn,
    Return,
    If,
    Else,
    While,
    For,
    In,
    Import,
    Gpu,
    Cpu,
    True,
    False,
    Struct,
    Break,
    Continue,
    KwInt64,
    KwFloat64,
    KwBool,
    KwString,
    KwTensor,
    KwModel,
    KwVoid,
    AtGpu,
    AtCpu,
    Plus,
    Minus,
    Star,
    Slash,
    Percent,
    EqEq,
    BangEq,
    Lt,
    Gt,
    LtEq,
    GtEq,
    AndAnd,
    OrOr,
    Bang,
    Eq,
    Arrow,
    Dot,
    DotDot,
    Colon,
    Semicolon,
    Comma,
    LParen,
    RParen,
    LBrace,
    RBrace,
    LBracket,
    RBracket,
    /// Integer literal.
    IntLit(i64),
    /// Decimal text of a number literal with a fractional part.
    FloatLit(String),
    StringLit(String),
    Ident(String),
    /// The text after `///` on a documentation line, to the end of the line,
    /// kept as written (a leading space included).
    DocComment(String),
    EOF,
}

/// The mathematical value of a token: text payloads are character sequences.
pub enum Tok {
    Let,
    Mut,
    Fn,
    Return,
    If,
    Else,
    While,
    For,
    In,
    Import,
    Gpu,
    Cpu,
    True,
    False,
    Struct,
    Break,
    Continue,
    KwInt64,
    KwFloat64,
    KwBool,
    KwString,
    KwTensor,
    KwModel,
    KwVoid,
    AtGpu,
    AtCpu,
    Plus,
    Minus,
    Star,
    Slash,
    Percent,
    EqEq,
    BangEq,
    Lt,
    Gt,
    LtEq,
    GtEq,
    AndAnd,
    OrOr,
    Bang,
    Eq,
    Arrow,
    Dot,
    DotDot,
    Colon,
    Semicolon,
    Comma,
    LParen,
    RParen,
    LBrace,
    RBrace,
    LBracket,
    RBracket,
    IntLit(i64),
    FloatLit(Seq<char>),
    StringLit(Seq<char>),
    Ident(Seq<char>),
    DocComment(Seq<char>),
    EOF,
}

impl View for Token {
    type V = Tok;

    open spec fn view(&self) -> Tok {
        match self {
            Token::Let => Tok::Let,
            Token::Mut => Tok::Mut,
            Token::Fn => Tok::Fn,
            Token::Return => Tok::Return,
            Token::If => Tok::If,
            Token::Else => Tok::Else,
            Token::While => Tok::While,
            Token::For => Tok::For,
            Token::In => Tok::In,
            Token::Import => Tok::Import,
            Token::Gpu => Tok::Gpu,
            Token::Cpu => Tok::Cpu,
            Token::True => Tok::True,
            Token::False => Tok::False,
            Token::Struct => Tok::Struct,
            Token::Break => Tok::Break,
            Token::Continue => Tok::Continue,
            Token::KwInt64 => Tok::KwInt64,
            Token::KwFloat64 => Tok::KwFloat64,
            Token::KwBool => Tok::KwBool,
            Token::KwString => Tok::KwString,
            Token::KwTensor => Tok::KwTensor,
            Token::KwModel => Tok::KwModel,
            Token::KwVoid => Tok::KwVoid,
            Token::AtGpu => Tok::AtGpu,
            Token::AtCpu => Tok::AtCpu,
            Token::Plus => Tok::Plus,
            Token::Minus => Tok::Minus,
            Token::Star => Tok::Star,
            Token::Slash => Tok::Slash,
            Token::Percent => Tok::Percent,
            Token::EqEq => Tok::EqEq,
            Token::BangEq => Tok::BangEq,
            Token::Lt => Tok::Lt,
            Token::Gt => Tok::Gt,
            Token::LtEq => Tok::LtEq,
            Token::GtEq => Tok::GtEq,
            Token::AndAnd => Tok::AndAnd,
            Token::OrOr => Tok::OrOr,
            Token::Bang => Tok::Bang,
            Token::Eq => Tok::Eq,
            Token::Arrow => Tok::Arrow,
            Token::Dot => Tok::Dot,
            Token::DotDot => Tok::DotDot,
            Token::Colon => Tok::Colon,
            Token::Semicolon => Tok::Semicolon,
            Token::Comma => Tok::Comma,
            Token::LParen => Tok::LParen,
            Token::RParen => Tok::RParen,
            Token::LBrace => Tok::LBrace,
            Token::RBrace => Tok::RBrace,
            Token::LBracket => Tok::LBracket,
            Token::RBracket => Tok::RBracket,
            Token::EOF => Tok::EOF,
            Token::IntLit(v) => Tok::IntLit(*v),
            Token::FloatLit(s) => Tok::FloatLit(s@),
            Token::StringLit(s) => Tok::StringLit(s@),
            Token::Ident(s) => Tok::Ident(s@),
            Token::DocComment(s) => Tok::DocComment(s@),
        }
    }
}

/// The keyword an identifier-shaped word stands for, if any.
pub open spec fn keyword(s: Seq<char>) -> Option<Tok> {
    if s == "let"@ {
        Some(Tok::Let)
    } else if s == "mut"@ {
        Some(Tok::Mut)
    } else if s == "fn"@ {
        Some(Tok::Fn)
    } else if s == "return"@ {
        Some(Tok::Return)
    } else if s == "if"@ {
        Some(Tok::If)
    } else if s == "else"@ {
        Some(Tok::Else)
    } else if s == "while"@ {
        Some(Tok::While)
    } else if s == "for"@ {
        Some(Tok::For)
    } else if s == "in"@ {
        Some(Tok::In)
    } else if s == "import"@ {
        Some(Tok::Import)
    } else if s == "gpu"@ {
        Some(Tok::Gpu)
    } else if s == "cpu"@ {
        Some(Tok::Cpu)
    } else if s == "true"@ {
        Some(Tok::True)
    } else if s == "false"@ {
        Some(Tok::False)
    } else if s == "struct"@ {
        Some(Tok::Struct)
    } else if s == "break"@ {
        Some(Tok::Break)
    } else if s == "continue"@ {
        Some(Tok::Continue)
    } else if s == "int64"@ {
        Some(Tok::KwInt64)
    } else if s == "float64"@ {
        Some(Tok::KwFloat64)
    } else if s == "bool"@ {
        Some(Tok::KwBool)
    } else if s == "string"@ {
        Some(Tok::KwString)
    } else if s == "tensor"@ {
        Some(Tok::KwTensor)
    } else if s == "model"@ {
        Some(Tok::KwModel)
    } else if s == "void"@ {
        Some(Tok::KwVoid)
    } else {
        None
    }
}

/// How a token is written in messages.
pub open spec fn tok_text(t: Tok) -> Seq<char> {
    match t {
        Tok::Let => "let"@,
        Tok::Mut => "mut"@,
        Tok::Fn => "fn"@,
        Tok::Return => "return"@,
        Tok::If => "if"@,
        Tok::Else => "else"@,
        Tok::While => "while"@,
        Tok::For => "for"@,
        Tok::In => "in"@,
        Tok::Import => "import"@,
        Tok::Gpu => "gpu"@,
        Tok::Cpu => "cpu"@,
        Tok::True => "true"@,
        Tok::False => "false"@,
        Tok::Struct => "struct"@,
        Tok::Break => "break"@,
        Tok::Continue => "continue"@,
        Tok::KwInt64 => "int64"@,
        Tok::KwFloat64 => "float64"@,
        Tok::KwBool => "bool"@,
        Tok::KwString => "string"@,
        Tok::KwTensor => "tensor"@,
        Tok::KwModel => "model"@,
        Tok::KwVoid => "void"@,
        Tok::AtGpu => "@gpu"@,
        Tok::AtCpu => "@cpu"@,
        Tok::Plus => "+"@,
        Tok::Minus => "-"@,
        Tok::Star => "*"@,
        Tok::Slash => "/"@,
        Tok::Percent => "%"@,
        Tok::EqEq => "=="@,
        Tok::BangEq => "!="@,
        Tok::Lt => "<"@,
        Tok::Gt => ">"@,
        Tok::LtEq => "<="@,
        Tok::GtEq => ">="@,
        Tok::AndAnd => "&&"@,
        Tok::OrOr => "||"@,
        Tok::Bang => "!"@,
        Tok::Eq => "="@,
        Tok::Arrow => "->"@,
        Tok::Dot => "."@,
        Tok::DotDot => ".."@,
        Tok::Colon => ":"@,
        Tok::Semicolon => ";"@,
        Tok::Comma => ","@,
        Tok::LParen => "("@,
        Tok::RParen => ")"@,
        Tok::LBrace => "{"@,
        Tok::RBrace => "}"@,
        Tok::LBracket => "["@,
        Tok::RBracket => "]"@,
        Tok::EOF => "<EOF>"@,
        Tok::IntLit(v) => int_text(v as int),
        Tok::FloatLit(s) => s,
        Tok::StringLit(s) => "\""@ + s + "\""@,
        Tok::Ident(s) => s,
        Tok::DocComment(s) => "///"@ + s,
    }
}

impl Token {
    /// The keyword token a word stands for, if any.
    pub fn keyword(s: &String) -> (r: Option<Token>)
        ensures
            match r {
                Some(t) => keyword(s@) == Some(t@),
                None => keyword(s@) is None,
            },
    {
        if text_is(s, "let") {
            Some(Token::Let)
        } else if text_is(s, "mut") {
            Some(Token::Mut)
        } else if text_is(s, "fn") {
            Some(Token::Fn)
        } else if text_is(s, "return") {
            Some(Token::Return)
        } else if text_is(s, "if") {
            Some(Token::If)
        } else if text_is(s, "else") {
            Some(Token::Else)
        } else if text_is(s, "while") {
            Some(Token::While)
        } else if text_is(s, "for") {
            Some(Token::For)
        } else if text_is(s, "in") {
            Some(Token::In)
        } else if text_is(s, "import") {
            Some(Token::Import)
        } else if text_is(s, "gpu") {
            Some(Token::Gpu)
        } else if text_is(s, "cpu") {
            Some(Token::Cpu)
        } else if text_is(s, "true") {
            Some(Token::True)
        } else if text_is(s, "false") {
            Some(Token::False)
        } else if text_is(s, "struct") {
            Some(Token::Struct)
        } else if text_is(s, "break") {
            Some(Token::Break)
        } else if text_is(s, "continue") {
            Some(Token::Continue)
        } else if text_is(s, "int64") {
            Some(Token::KwInt64)
        } else if text_is(s, "float64") {
            Some(Token::KwFloat64)
        } else if text_is(s, "bool") {
            Some(Token::KwBool)
        } else if text_is(s, "string") {
            Some(Token::KwString)
        } else if text_is(s, "tensor") {
            Some(Token::KwTensor)
        } else if text_is(s, "model") {
            Some(Token::KwModel)
        } else if text_is(s, "void") {
            Some(Token::KwVoid)
        } else {
            None
        }
    }

    /// Token equality (text payloads compared by their characters).
    pub fn same(&self, other: &Token) -> (r: bool)
        ensures
            r == (self@ == other@),
    {
        match (self, other) {
            (Token::Let, Token::Let) => true,
            (Token::Mut, Token::Mut) => true,
            (Token::Fn, Token::Fn) => true,
            (Token::Return, Token::Return) => true,
            (Token::If, Token::If) => true,
            (Token::Else, Token::Else) => true,
            (Token::While, Token::While) => true,
            (Token::For, Token::For) => true,
            (Token::In, Token::In) => true,
            (Token::Import, Token::Import) => true,
            (Token::Gpu, Token::Gpu) => true,
            (Token::Cpu, Token::Cpu) => true,
            (Token::True, Token::True) => true,
            (Token::False, Token::False) => true,
            (Token::Struct, Token::Struct) => true,
            (Token::Break, Token::Break) => true,
            (Token::Continue, Token::Continue) => true,
            (Token::KwInt64, Token::KwInt64) => true,
            (Token::KwFloat64, Token::KwFloat64) => true,
            (Token::KwBool, Token::KwBool) => true,
            (Token::KwString, Token::KwString) => true,
            (Token::KwTensor, Token::KwTensor) => true,
            (Token::KwModel, Token::KwModel) => true,
            (Token::KwVoid, Token::KwVoid) => true,
            (Token::AtGpu, Token::AtGpu) => true,
            (Token::AtCpu, Token::AtCpu) => true,
            (Token::Plus, Token::Plus) => true,
            (Token::Minus, Token::Minus) => true,
            (Token::Star, Token::Star) => true,
            (Token::Slash, Token::Slash) => true,
            (Token::Percent, Token::Percent) => true,
            (Token::EqEq, Token::EqEq) => true,
            (Token::BangEq, Token::BangEq) => true,
            (Token::Lt, Token::Lt) => true,
            (Token::Gt, Token::Gt) => true,
            (Token::LtEq, Token::LtEq) => true,
            (Token::GtEq, Token::GtEq) => true,
            (Token::AndAnd, Token::AndAnd) => true,
            (Token::OrOr, Token::OrOr) => true,
            (Token::Bang, Token::Bang) => true,
            (Token::Eq, Token::Eq) => true,
            (Token::Arrow, Token::Arrow) => true,
            (Token::Dot, Token::Dot) => true,
            (Token::DotDot, Token::DotDot) => true,
            (Token::Colon, Token::Colon) => true,
            (Token::Semicolon, Token::Semicolon) => true,
            (Token::Comma, Token::Comma) => true,
            (Token::LParen, Token::LParen) => true,
            (Token::RParen, Token::RParen) => true,
            (Token::LBrace, Token::LBrace) => true,
            (Token::RBrace, Token::RBrace) => true,
            (Token::LBracket, Token::LBracket) => true,
            (Token::RBracket, Token::RBracket) => true,
            (Token::EOF, Token::EOF) => true,
            (Token::IntLit(a), Token::IntLit(b)) => *a == *b,
            (Token::FloatLit(a), Token::FloatLit(b)) => same_text(a, b),
            (Token::StringLit(a), Token::StringLit(b)) => same_text(a, b),
            (Token::Ident(a), Token::Ident(b)) => same_text(a, b),
            (Token::DocComment(a), Token::DocComment(b)) => same_text(a, b),
            _ => false,
        }
    }

    /// An equal copy.
    pub fn copy(&self) -> (r: Token)
        ensures
            r@ == self@,
    {
        match self {
            Token::Let => Token::Let,
            Token::Mut => Token::Mut,
            Token::Fn => Token::Fn,
            Token::Return => Token::Return,
            Token::If => Token::If,
            Token::Else => Token::Else,
            Token::While => Token::While,
            Token::For => Token::For,
            Token::In => Token::In,
            Token::Import => Token::Import,
            Token::Gpu => Token::Gpu,
            Token::Cpu => Token::Cpu,
            Token::True => Token::True,
            Token::False => Token::False,
            Token::Struct => Token::Struct,
            Token::Break => Token::Break,
            Token::Continue => Token::Continue,
            Token::KwInt64 => Token::KwInt64,
            Token::KwFloat64 => Token::KwFloat64,
            Token::KwBool => Token::KwBool,
            Token::KwString => Token::KwString,
            Token::KwTensor => Token::KwTensor,
            Token::KwModel => Token::KwModel,
            Token::KwVoid => Token::KwVoid,
            Token::AtGpu => Token::AtGpu,
            Token::AtCpu => Token::AtCpu,
            Token::Plus => Token::Plus,
            Token::Minus => Token::Minus,
            Token::Star => Token::Star,
            Token::Slash => Token::Slash,
            Token::Percent => Token::Percent,
            Token::EqEq => Token::EqEq,
            Token::BangEq => Token::BangEq,
            Token::Lt => Token::Lt,
            Token::Gt => Token::Gt,
            Token::LtEq => Token::LtEq,
            Token::GtEq => Token::GtEq,
            Token::AndAnd => Token::AndAnd,
            Token::OrOr => Token::OrOr,
            Token::Bang => Token::Bang,
            Token::Eq => Token::Eq,
            Token::Arrow => Token::Arrow,
            Token::Dot => Token::Dot,
            Token::DotDot => Token::DotDot,
            Token::Colon => Token::Colon,
            Token::Semicolon => Token::Semicolon,
            Token::Comma => Token::Comma,
            Token::LParen => Token::LParen,
            Token::RParen => Token::RParen,
            Token::LBrace => Token::LBrace,
            Token::RBrace => Token::RBrace,
            Token::LBracket => Token::LBracket,
            Token::RBracket => Token::RBracket,
            Token::EOF => Token::EOF,
            Token::IntLit(v) => Token::IntLit(*v),
            Token::FloatLit(s) => Token::FloatLit(copy_string(s)),
            Token::StringLit(s) => Token::StringLit(copy_string(s)),
            Token::Ident(s) => Token::Ident(copy_string(s)),
            Token::DocComment(s) => Token::DocComment(copy_string(s)),
        }
    }

    /// Appends the token as it is written in messages.
    pub fn push_text(&self, s: &mut String)
        ensures
            final(s)@ == old(s)@ + tok_text(self@),
    {
        proof {
            reveal_strlit("let");
            reveal_strlit("mut");
            reveal_strlit("fn");
            reveal_strlit("return");
            reveal_strlit("if");
            reveal_strlit("else");
            reveal_strlit("while");
            reveal_strlit("for");
            reveal_strlit("in");
            reveal_strlit("import");
            reveal_strlit("gpu");
            reveal_strlit("cpu");
            reveal_strlit("true");
            reveal_strlit("false");
            reveal_strlit("struct");
            reveal_strlit("break");
            reveal_strlit("continue");
            reveal_strlit("int64");
            reveal_strlit("float64");
            reveal_strlit("bool");
            reveal_strlit("string");
            reveal_strlit("tensor");
            reveal_strlit("model");
            reveal_strlit("void");
            reveal_strlit("@gpu");
            reveal_strlit("@cpu");
            reveal_strlit("+");
            reveal_strlit("-");
            reveal_strlit("*");
            reveal_strlit("/");
            reveal_strlit("%");
            reveal_strlit("==");
            reveal_strlit("!=");
            reveal_strlit("<");
            reveal_strlit(">");
            reveal_strlit("<=");
            reveal_strlit(">=");
            reveal_strlit("&&");
            reveal_strlit("||");
            reveal_strlit("!");
            reveal_strlit("=");
            reveal_strlit("->");
            reveal_strlit(".");
            reveal_strlit("..");
            reveal_strlit(":");
            reveal_strlit(";");
            reveal_strlit(",");
            reveal_strlit("(");
            reveal_strlit(")");
            reveal_strlit("{");
            reveal_strlit("}");
            reveal_strlit("[");
            reveal_strlit("]");
            reveal_strlit("<EOF>");
            reveal_strlit("\"");
            reveal_strlit("///");
        }
        match self {
            Token::Let => s.append("let"),
            Token::Mut => s.append("mut"),
            Token::Fn => s.append("fn"),
            Token::Return => s.append("return"),
            Token::If => s.append("if"),
            Token::Else => s.append("else"),
            Token::While => s.append("while"),
            Token::For => s.append("for"),
            Token::In => s.append("in"),
            Token::Import => s.append("import"),
            Token::Gpu => s.append("gpu"),
            Token::Cpu => s.append("cpu"),
            Token::True => s.append("true"),
            Token::False => s.append("false"),
            Token::Struct => s.append("struct"),
            Token::Break => s.append("break"),
            Token::Continue => s.append("continue"),
            Token::KwInt64 => s.append("int64"),
            Token::KwFloat64 => s.append("float64"),
            Token::KwBool => s.append("bool"),
            Token::KwString => s.append("string"),
            Token::KwTensor => s.append("tensor"),
            Token::KwModel => s.append("model"),
            Token::KwVoid => s.append("void"),
            Token::AtGpu => s.append("@gpu"),
            Token::AtCpu => s.append("@cpu"),
            Token::Plus => s.append("+"),
            Token::Minus => s.append("-"),
            Token::Star => s.append("*"),
            Token::Slash => s.append("/"),
            Token::Percent => s.append("%"),
            Token::EqEq => s.append("=="),
            Token::BangEq => s.append("!="),
            Token::Lt => s.append("<"),
            Token::Gt => s.append(">"),
            Token::LtEq => s.append("<="),
            Token::GtEq => s.append(">="),
            Token::AndAnd => s.append("&&"),
            Token::OrOr => s.append("||"),
            Token::Bang => s.append("!"),
            Token::Eq => s.append("="),
            Token::Arrow => s.append("->"),
            Token::Dot => s.append("."),
            Token::DotDot => s.append(".."),
            Token::Colon => s.append(":"),
            Token::Semicolon => s.append(";"),
            Token::Comma => s.append(","),
            Token::LParen => s.append("("),
            Token::RParen => s.append(")"),
            Token::LBrace => s.append("{"),
            Token::RBrace => s.append("}"),
            Token::LBracket => s.append("["),
            Token::RBracket => s.append("]"),
            Token::EOF => s.append("<EOF>"),
            Token::IntLit(v) => push_int(s, *v),
            Token::FloatLit(t) => s.append(t.as_str()),
            Token::StringLit(t) => {
                s.append("\"");
                s.append(t.as_str());
                s.append("\"");
                assert(final(s)@ =~= old(s)@ + tok_text(self@));
            },
            Token::Ident(t) => s.append(t.as_str()),
            Token::DocComment(t) => {
                s.append("///");
                s.append(t.as_str());
            },
        }
    }

    /// The token as it is written in messages.
    pub fn text(&self) -> (r: String)
        ensures
            r@ == tok_text(self@),
    {
        let mut s = String::new();
        self.push_text(&mut s);
        assert(s@ =~= tok_text(self@));
        s
    }

    pub fn is_eof(&self) -> (r: bool)
        ensures
            r == (self@ == Tok::EOF),
    {
        match self {
            Token::EOF => true,
            _ => false,
        }
    }
}

/// The tokens that always have the same text (keywords, types, annotations, punctuation).
pub open spec fn is_fixed(t: Tok) -> bool {
    !(t is IntLit || t is FloatLit || t is StringLit || t is Ident || t is DocComment || t is EOF)
}

/// A value with the line and column where it starts (both counted from 1).
#[derive(Debug)]
pub struct Spanned<T> {
    pub node: T,
    pub line: usize,
    pub col: usize,
}

pub type SpannedToken = Spanned<Token>;

/// A positioned token as a mathematical value: (token, line, column).
pub open spec fn stok(t: &SpannedToken) -> (Tok, nat, nat) {
    (t.node@, t.line as nat, t.col as nat)
}

pub open spec fn stoks(ts: Seq<SpannedToken>) -> Seq<(Tok, nat, nat)> {
    Seq::new(ts.len(), |i: int| stok(&ts[i]))
}

/// A position in the source: index of the next character, and its line and column.
pub struct Cursor {
    pub pos: nat,
    pub line: nat,
    pub col: nat,
}

/// Moving over one character: a line feed starts a new line at column 1.
pub open spec fn step(src: Seq<char>, c: Cursor) -> Cursor {
    if c.pos < src.len() {
        if src[c.pos as int] == '\n' {
            Cursor { pos: c.pos + 1, line: c.line + 1, col: 1 }
        } else {
            Cursor { pos: c.pos + 1, line: c.line, col: c.col + 1 }
        }
    } else {
        c
    }
}

/// Moving forward until index `end` (or the end of the source).
pub open spec fn walk(src: Seq<char>, c: Cursor, end: nat) -> Cursor
    decreases end - c.pos,
{
    if c.pos < end && c.pos < src.len() {
        walk(src, step(src, c), end)
    } else {
        c
    }
}

/// `//` that is not `///` starts a comment that runs to the end of the line.
pub open spec fn is_line_comment(src: Seq<char>, p: nat) -> bool {
    &&& p + 1 < src.len()
    &&& src[p as int] == '/'
    &&& src[p + 1int] == '/'
    &&& !(p + 2 < src.len() && src[p + 2int] == '/')
}

/// `///` starts a documentation line.
pub open spec fn is_doc_comment(src: Seq<char>, p: nat) -> bool {
    &&& p + 2 < src.len()
    &&& src[p as int] == '/'
    &&& src[p + 1int] == '/'
    &&& src[p + 2int] == '/'
}

/// Index of the first line feed at or after `i` (or the end of the source).
pub open spec fn line_end(src: Seq<char>, i: nat) -> nat
    decreases src.len() - i,
{
    if i < src.len() && src[i as int] != '\n' {
        line_end(src, i + 1)
    } else {
        i
    }
}

/// Skipping white space and `//` comments; `in_comment` is set inside a comment.
pub open spec fn skip(src: Seq<char>, c: Cursor, in_comment: bool) -> Cursor
    decreases src.len() - c.pos, if in_comment { 1int } else { 0int },
{
    if in_comment {
        if c.pos < src.len() && src[c.pos as int] != '\n' {
            skip(src, step(src, c), true)
        } else {
            skip(src, c, false)
        }
    } else if c.pos < src.len() && is_space(src[c.pos as int]) {
        skip(src, step(src, c), false)
    } else if is_line_comment(src, c.pos) {
        skip(src, step(src, c), true)
    } else {
        c
    }
}

/// What an escape `\c` inside a string literal stands for.
pub open spec fn unescape(c: char) -> char {
    if c == 'n' {
        '\n'
    } else if c == 't' {
        '\t'
    } else {
        c
    }
}

/// Outcome of scanning the body of a string literal.
pub enum StrScan {
    /// The characters of the literal, and the index after the closing quote.
    Done(Seq<char>, nat),
    /// The source ends before the closing quote.
    NoClose,
    /// The source ends right after a backslash.
    BadEscape,
}

pub open spec fn prefixed(acc: Seq<char>, r: StrScan) -> StrScan {
    match r {
        StrScan::Done(s, e) => StrScan::Done(acc + s, e),
        other => other,
    }
}

/// Scans a string literal body starting at index `i` (after the opening quote).
pub open spec fn str_body(src: Seq<char>, i: nat) -> StrScan
    decreases src.len() - i,
{
    if i >= src.len() {
        StrScan::NoClose
    } else if src[i as int] == '"' {
        StrScan::Done(seq![], i + 1)
    } else if src[i as int] == '\\' {
        if i + 1 >= src.len() {
            StrScan::BadEscape
        } else {
            prefixed(seq![unescape(src[i + 1int])], str_body(src, i + 2))
        }
    } else {
        prefixed(seq![src[i as int]], str_body(src, i + 1))
    }
}

/// Characters that continue an identifier.
pub open spec fn ident_char(c: char) -> bool {
    is_alnum(c) || c == '_'
}

/// End of the run of identifier characters starting at `i`.
pub open spec fn ident_end(src: Seq<char>, i: nat) -> nat
    decreases src.len() - i,
{
    if i < src.len() && ident_char(src[i as int]) {
        ident_end(src, i + 1)
    } else {
        i
    }
}

/// End of a number: digits, and `.` where a digit follows it.
pub open spec fn num_end(src: Seq<char>, i: nat) -> nat
    decreases src.len() - i,
{
    if i < src.len() && is_digit(src[i as int]) {
        num_end(src, i + 1)
    } else if i + 1 < src.len() && src[i as int] == '.' && is_digit(src[i + 1int]) {
        num_end(src, i + 1)
    } else {
        i
    }
}

/// Number of `.` characters.
pub open spec fn dots(s: Seq<char>) -> nat
    decreases s.len(),
{
    if s.len() == 0 {
        0
    } else {
        dots(s.drop_last()) + if s.last() == '.' {
            1nat
        } else {
            0nat
        }
    }
}

/// The token a number text stands for: a float with one `.`, an integer
/// without one; more dots, or an integer above `i64::MAX`, are errors.
pub open spec fn number_tok(text: Seq<char>) -> Result<Tok, Seq<char>> {
    if dots(text) >= 2 {
        Err("Invalid float '"@ + text + "': invalid float literal"@)
    } else if dots(text) == 1 {
        Ok(Tok::FloatLit(text))
    } else if digits_value(text) > i64::MAX {
        Err("Invalid integer '"@ + text + "': number too large to fit in target type"@)
    } else {
        Ok(Tok::IntLit(digits_value(text) as i64))
    }
}

pub open spec fn next_is(src: Seq<char>, p: nat, c: char) -> bool {
    p + 1 < src.len() && src[p + 1int] == c
}

/// Operator or punctuation starting at `p`, with its length.
pub open spec fn punct(src: Seq<char>, p: nat) -> Option<(Tok, nat)> {
    let ch = src[p as int];
    if ch == '+' {
        Some((Tok::Plus, 1))
    } else if ch == '*' {
        Some((Tok::Star, 1))
    } else if ch == '%' {
        Some((Tok::Percent, 1))
    } else if ch == '.' {
        if next_is(src, p, '.') {
            Some((Tok::DotDot, 2))
        } else {
            Some((Tok::Dot, 1))
        }
    } else if ch == ',' {
        Some((Tok::Comma, 1))
    } else if ch == ';' {
        Some((Tok::Semicolon, 1))
    } else if ch == ':' {
        Some((Tok::Colon, 1))
    } else if ch == '(' {
        Some((Tok::LParen, 1))
    } else if ch == ')' {
        Some((Tok::RParen, 1))
    } else if ch == '{' {
        Some((Tok::LBrace, 1))
    } else if ch == '}' {
        Some((Tok::RBrace, 1))
    } else if ch == '[' {
        Some((Tok::LBracket, 1))
    } else if ch == ']' {
        Some((Tok::RBracket, 1))
    } else if ch == '-' {
        if next_is(src, p, '>') {
            Some((Tok::Arrow, 2))
        } else {
            Some((Tok::Minus, 1))
        }
    } else if ch == '/' {
        Some((Tok::Slash, 1))
    } else if ch == '=' {
        if next_is(src, p, '=') {
            Some((Tok::EqEq, 2))
        } else {
            Some((Tok::Eq, 1))
        }
    } else if ch == '!' {
        if next_is(src, p, '=') {
            Some((Tok::BangEq, 2))
        } else {
            Some((Tok::Bang, 1))
        }
    } else if ch == '<' {
        if next_is(src, p, '=') {
            Some((Tok::LtEq, 2))
        } else {
            Some((Tok::Lt, 1))
        }
    } else if ch == '>' {
        if next_is(src, p, '=') {
            Some((Tok::GtEq, 2))
        } else {
            Some((Tok::Gt, 1))
        }
    } else if ch == '&' {
        if next_is(src, p, '&') {
            Some((Tok::AndAnd, 2))
        } else {
            None
        }
    } else if ch == '|' {
        if next_is(src, p, '|') {
            Some((Tok::OrOr, 2))
        } else {
            None
        }
    } else {
        None
    }
}

pub open spec fn at_line_col(line: nat, col: nat) -> Seq<char> {
    " at line "@ + decimal(line) + ", col "@ + decimal(col)
}

/// The message for a character that starts no token.
pub open spec fn punct_error(ch: char, line: nat, col: nat) -> Seq<char> {
    if ch == '&' {
        "Unexpected '&'"@ + at_line_col(line, col)
    } else if ch == '|' {
        "Unexpected '|'"@ + at_line_col(line, col)
    } else {
        "Unexpected character '"@ + seq![ch] + "'"@ + at_line_col(line, col)
    }
}

/// The next token after white space and comments, with the cursor after it.
pub open spec fn next_tok(src: Seq<char>, c0: Cursor) -> Result<((Tok, nat, nat), Cursor), Seq<char>> {
    let c = skip(src, c0, false);
    let p = c.pos;
    let line = c.line;
    let col = c.col;
    if p >= src.len() {
        Ok(((Tok::EOF, line, col), c))
    } else if src[p as int] == '"' {
        match str_body(src, p + 1) {
            StrScan::Done(s, e) => Ok(((Tok::StringLit(s), line, col), walk(src, c, e))),
            StrScan::NoClose => Err("Unterminated string at line "@ + decimal(line)),
            StrScan::BadEscape => Err("Unterminated escape"@),
        }
    } else if is_doc_comment(src, p) {
        let e = line_end(src, p);
        Ok(((Tok::DocComment(src.subrange(p + 3int, e as int)), line, col), walk(src, c, e)))
    } else if src[p as int] == '@' {
        let e = ident_end(src, p + 1);
        let kw = src.subrange(p + 1int, e as int);
        if kw == "gpu"@ {
            Ok(((Tok::AtGpu, line, col), walk(src, c, e)))
        } else if kw == "cpu"@ {
            Ok(((Tok::AtCpu, line, col), walk(src, c, e)))
        } else {
            Err("Unknown annotation @"@ + kw + " at line "@ + decimal(line))
        }
    } else if is_digit(src[p as int]) {
        let e = num_end(src, p);
        match number_tok(src.subrange(p as int, e as int)) {
            Ok(t) => Ok(((t, line, col), walk(src, c, e))),
            Err(m) => Err(m),
        }
    } else if is_alpha(src[p as int]) || src[p as int] == '_' {
        let e = ident_end(src, p);
        let w = src.subrange(p as int, e as int);
        let t = match keyword(w) {
            Some(k) => k,
            None => Tok::Ident(w),
        };
        Ok(((t, line, col), walk(src, c, e)))
    } else {
        match punct(src, p) {
            Some((t, n)) => Ok(((t, line, col), walk(src, c, p + n))),
            None => Err(punct_error(src[p as int], line, col)),
        }
    }
}

/// The whole token stream from cursor `c`: tokens up to and including `EOF`,
/// or the first error.
pub open spec fn lex_from(src: Seq<char>, c: Cursor) -> Result<Seq<(Tok, nat, nat)>, Seq<char>>
    decreases src.len() - c.pos,
{
    match next_tok(src, c) {
        Err(m) => Err(m),
        Ok((t, c2)) => {
            if t.0 is EOF {
                Ok(seq![t])
            } else if c.pos < c2.pos && c2.pos <= src.len() {
                match lex_from(src, c2) {
                    Ok(rest) => Ok(seq![t] + rest),
                    Err(m) => Err(m),
                }
            } else {
                Ok(seq![t])
            }
        },
    }
}

/// The start of a source: index 0, line 1, column 1.
pub open spec fn start() -> Cursor {
    Cursor { pos: 0, line: 1, col: 1 }
}

/// The token stream of a whole source text.
pub open spec fn lex(src: Seq<char>) -> Result<Seq<(Tok, nat, nat)>, Seq<char>> {
    lex_from(src, start())
}

pub open spec fn prepend_toks(
    pre: Seq<(Tok, nat, nat)>,
    r: Result<Seq<(Tok, nat, nat)>, Seq<char>>,
) -> Result<Seq<(Tok, nat, nat)>, Seq<char>> {
    match r {
        Ok(s) => Ok(pre + s),
        Err(m) => Err(m),
    }
}

pub proof fn lemma_line_end_ge(src: Seq<char>, i: nat)
    ensures
        line_end(src, i) >= i,
        i < src.len() && src[i as int] != '\n' ==> line_end(src, i) > i,
        line_end(src, i) <= src.len() || line_end(src, i) == i,
    decreases src.len() - i,
{
    if i < src.len() && src[i as int] != '\n' {
        lemma_line_end_ge(src, i + 1);
    }
}

pub proof fn lemma_ident_end_ge(src: Seq<char>, i: nat)
    ensures
        ident_end(src, i) >= i,
        i < src.len() && ident_char(src[i as int]) ==> ident_end(src, i) > i,
        i <= src.len() ==> ident_end(src, i) <= src.len(),
    decreases src.len() - i,
{
    if i < src.len() && ident_char(src[i as int]) {
        lemma_ident_end_ge(src, i + 1);
    }
}

pub proof fn lemma_num_end_ge(src: Seq<char>, i: nat)
    ensures
        num_end(src, i) >= i,
        i < src.len() && is_digit(src[i as int]) ==> num_end(src, i) > i,
        i <= src.len() ==> num_end(src, i) <= src.len(),
    decreases src.len() - i,
{
    if i < src.len() && is_digit(src[i as int]) {
        lemma_num_end_ge(src, i + 1);
    } else if i + 1 < src.len() && src[i as int] == '.' && is_digit(src[i + 1int]) {
        lemma_num_end_ge(src, i + 1);
    }
}

pub proof fn lemma_str_body_end(src: Seq<char>, i: nat)
    ensures
        str_body(src, i) matches StrScan::Done(_, e) ==> i < e <= src.len(),
    decreases src.len() - i,
{
    if i < src.len() && src[i as int] != '"' {
        if src[i as int] == '\\' {
            if i + 1 < src.len() {
                lemma_str_body_end(src, i + 2);
            }
        } else {
            lemma_str_body_end(src, i + 1);
        }
    }
}

pub proof fn lemma_walk_step(src: Seq<char>, c: Cursor, e: nat)
    requires
        c.pos < e,
        c.pos < src.len(),
    ensures
        walk(src, c, e) == walk(src, step(src, c), e),
{
}

pub proof fn lemma_walk_pos(src: Seq<char>, c: Cursor, end: nat)
    requires
        c.pos <= end <= src.len(),
    ensures
        walk(src, c, end).pos == end,
    decreases end - c.pos,
{
    if c.pos < end {
        lemma_walk_pos(src, step(src, c), end);
    }
}

pub proof fn lemma_skip_pos(src: Seq<char>, c: Cursor, in_comment: bool)
    requires
        c.pos <= src.len(),
    ensures
        skip(src, c, in_comment).pos >= c.pos,
        skip(src, c, in_comment).pos <= src.len(),
    decreases src.len() - c.pos, if in_comment { 1int } else { 0int },
{
    if in_comment {
        if c.pos < src.len() && src[c.pos as int] != '\n' {
            lemma_skip_pos(src, step(src, c), true);
        } else {
            lemma_skip_pos(src, c, false);
        }
    } else if c.pos < src.len() && is_space(src[c.pos as int]) {
        lemma_skip_pos(src, step(src, c), false);
    } else if is_line_comment(src, c.pos) {
        lemma_skip_pos(src, step(src, c), true);
    }
}


/// Every successful token stream ends with `EOF`, and `EOF` occurs nowhere else.
pub proof fn lemma_lex_ends_with_eof(src: Seq<char>, c: Cursor)
    requires
        c.pos <= src.len(),
    ensures
        lex_from(src, c) matches Ok(s) ==> {
            &&& s.len() >= 1
            &&& s.last().0 is EOF
            &&& forall|i: int| 0 <= i < s.len() - 1 ==> !(#[trigger] s[i].0 is EOF)
        },
    decreases src.len() - c.pos,
{
    lemma_next_tok_progress(src, c);
    match next_tok(src, c) {
        Err(_) => {},
        Ok((t, c2)) => {
            if !(t.0 is EOF) && c.pos < c2.pos && c2.pos <= src.len() {
                lemma_lex_ends_with_eof(src, c2);
                match lex_from(src, c2) {
                    Ok(rest) => {
                        let s = seq![t] + rest;
                        assert forall|i: int| 0 <= i < s.len() - 1 implies !(#[trigger] s[i].0 is EOF) by {
                            if i > 0 {
                                assert(s[i] == rest[i - 1]);
                            }
                        }
                        assert(s.last() == rest.last());
                    },
                    Err(_) => {},
                }
            }
        },
    }
}

/// Every token of a stream lexed from the start has line and column at least 1.
pub proof fn lemma_lex_positions(src: Seq<char>, c: Cursor)
    requires
        c.line >= 1,
        c.col >= 1,
    ensures
        lex_from(src, c) matches Ok(s) ==> forall|i: int|
            0 <= i < s.len() ==> (#[trigger] s[i]).1 >= 1 && s[i].2 >= 1,
    decreases src.len() - c.pos,
{
    lemma_skip_line_col(src, c, false);
    match next_tok(src, c) {
        Err(_) => {},
        Ok((t, c2)) => {
            lemma_next_tok_line_col(src, c);
            if !(t.0 is EOF) && c.pos < c2.pos && c2.pos <= src.len() {
                lemma_lex_positions(src, c2);
                match lex_from(src, c2) {
                    Ok(rest) => {
                        let s = seq![t] + rest;
                        assert forall|i: int| 0 <= i < s.len() implies (#[trigger] s[i]).1 >= 1
                            && s[i].2 >= 1 by {
                            if i > 0 {
                                assert(s[i] == rest[i - 1]);
                            }
                        }
                    },
                    Err(_) => {},
                }
            }
        },
    }
}

/// `a` is at an earlier line, or at an earlier column of the same line.
pub open spec fn before(a: Cursor, b: Cursor) -> bool {
    a.line < b.line || (a.line == b.line && a.col < b.col)
}

pub open spec fn same_place(a: Cursor, b: Cursor) -> bool {
    a.line == b.line && a.col == b.col
}

proof fn lemma_walk_mono(src: Seq<char>, c: Cursor, end: nat)
    ensures
        walk(src, c, end).pos >= c.pos,
        walk(src, c, end).pos == c.pos ==> walk(src, c, end) == c,
        walk(src, c, end).pos != c.pos ==> before(c, walk(src, c, end)),
    decreases end - c.pos,
{
    if c.pos < end && c.pos < src.len() {
        lemma_walk_mono(src, step(src, c), end);
    }
}

proof fn lemma_skip_mono(src: Seq<char>, c: Cursor, in_comment: bool)
    ensures
        before(c, skip(src, c, in_comment)) || same_place(c, skip(src, c, in_comment)),
    decreases src.len() - c.pos, if in_comment { 1int } else { 0int },
{
    if in_comment {
        if c.pos < src.len() && src[c.pos as int] != '\n' {
            lemma_skip_mono(src, step(src, c), true);
        } else {
            lemma_skip_mono(src, c, false);
        }
    } else if c.pos < src.len() && is_space(src[c.pos as int]) {
        lemma_skip_mono(src, step(src, c), false);
    } else if is_line_comment(src, c.pos) {
        lemma_skip_mono(src, step(src, c), true);
    }
}

proof fn lemma_next_tok_order(src: Seq<char>, c0: Cursor)
    requires
        c0.pos <= src.len(),
    ensures
        next_tok(src, c0) matches Ok((t, c2)) ==> {
            &&& t.1 == skip(src, c0, false).line
            &&& t.2 == skip(src, c0, false).col
            &&& !(t.0 is EOF) ==> before(skip(src, c0, false), c2)
        },
{
    lemma_next_tok_progress(src, c0);
    let c = skip(src, c0, false);
    lemma_walk_mono(src, c, line_end(src, c.pos));
    lemma_walk_mono(src, c, ident_end(src, c.pos));
    lemma_walk_mono(src, c, ident_end(src, c.pos + 1));
    lemma_walk_mono(src, c, num_end(src, c.pos));
    lemma_walk_mono(src, c, c.pos + 1);
    lemma_walk_mono(src, c, c.pos + 2);
    match str_body(src, c.pos + 1) {
        StrScan::Done(_, e) => lemma_walk_mono(src, c, e),
        _ => {},
    }
}

/// Token positions strictly increase: each token of a lexed stream starts at
/// a later line, or later on the same line, than the one before it.
pub proof fn law_token_positions_increase(src: Seq<char>, c: Cursor)
    requires
        c.pos <= src.len(),
    ensures
        lex_from(src, c) matches Ok(s) ==> forall|i: int|
            0 <= i < s.len() - 1 ==> (#[trigger] s[i]).1 < s[i + 1].1 || (s[i].1 == s[i + 1].1 && s[i].2 < s[i
                + 1].2),
    decreases src.len() - c.pos,
{
    lemma_next_tok_progress(src, c);
    lemma_next_tok_order(src, c);
    match next_tok(src, c) {
        Err(_) => {},
        Ok((t, c2)) => {
            if !(t.0 is EOF) && c.pos < c2.pos && c2.pos <= src.len() {
                law_token_positions_increase(src, c2);
                lemma_next_tok_order(src, c2);
                lemma_skip_mono(src, c2, false);
                match lex_from(src, c2) {
                    Ok(rest) => {
                        let s = seq![t] + rest;
                        assert(rest[0] == next_tok(src, c2)->Ok_0.0);
                        assert forall|i: int| 0 <= i < s.len() - 1 implies (#[trigger] s[i]).1 < s[i + 1].1 || (s[i].1
                            == s[i + 1].1 && s[i].2 < s[i + 1].2) by {
                            if i > 0 {
                                assert(s[i] == rest[i - 1]);
                                assert(s[i + 1] == rest[i]);
                            } else {
                                assert(s[1] == rest[0]);
                            }
                        }
                    },
                    Err(_) => {},
                }
            }
        },
    }
}

/// Skipping stops only at the end of the source or at a character that is no
/// white space and starts no `//` comment (a `///` documentation line is a
/// token, so skipping stops there too).
pub proof fn law_skip_stops_at_a_token(src: Seq<char>, c: Cursor, in_comment: bool)
    ensures
        skip(src, c, in_comment).pos >= src.len() || (!is_space(src[skip(src, c, in_comment).pos as int])
            && !is_line_comment(src, skip(src, c, in_comment).pos)),
    decreases src.len() - c.pos, if in_comment { 1int } else { 0int },
{
    if in_comment {
        if c.pos < src.len() && src[c.pos as int] != '\n' {
            law_skip_stops_at_a_token(src, step(src, c), true);
        } else {
            law_skip_stops_at_a_token(src, c, false);
        }
    } else if c.pos < src.len() && is_space(src[c.pos as int]) {
        law_skip_stops_at_a_token(src, step(src, c), false);
    } else if is_line_comment(src, c.pos) {
        law_skip_stops_at_a_token(src, step(src, c), true);
    }
}

/// Moving over a character: within the source, the position moves by one,
/// a line feed starts the next line at column 1 and any other character moves
/// one column right; at the end nothing moves.
pub proof fn law_step_moves_one_character(src: Seq<char>, c: Cursor)
    ensures
        c.pos < src.len() && src[c.pos as int] == '\n' ==> step(src, c) == (Cursor { pos: c.pos + 1, line: c.line + 1, col: 1 }),
        c.pos < src.len() && src[c.pos as int] != '\n' ==> step(src, c) == (Cursor { pos: c.pos + 1, line: c.line, col: c.col + 1 }),
        c.pos >= src.len() ==> step(src, c) == c,
{
}

pub proof fn lemma_walk_line_col(src: Seq<char>, c: Cursor, end: nat)
    requires
        c.line >= 1,
        c.col >= 1,
    ensures
        walk(src, c, end).line >= 1,
        walk(src, c, end).col >= 1,
    decreases end - c.pos,
{
    if c.pos < end && c.pos < src.len() {
        lemma_walk_line_col(src, step(src, c), end);
    }
}

pub proof fn lemma_skip_line_col(src: Seq<char>, c: Cursor, in_comment: bool)
    requires
        c.line >= 1,
        c.col >= 1,
    ensures
        skip(src, c, in_comment).line >= 1,
        skip(src, c, in_comment).col >= 1,
    decreases src.len() - c.pos, if in_comment { 1int } else { 0int },
{
    if in_comment {
        if c.pos < src.len() && src[c.pos as int] != '\n' {
            lemma_skip_line_col(src, step(src, c), true);
        } else {
            lemma_skip_line_col(src, c, false);
        }
    } else if c.pos < src.len() && is_space(src[c.pos as int]) {
        lemma_skip_line_col(src, step(src, c), false);
    } else if is_line_comment(src, c.pos) {
        lemma_skip_line_col(src, step(src, c), true);
    }
}

pub proof fn lemma_next_tok_line_col(src: Seq<char>, c0: Cursor)
    requires
        c0.line >= 1,
        c0.col >= 1,
    ensures
        next_tok(src, c0) matches Ok((t, c2)) ==> t.1 >= 1 && t.2 >= 1 && c2.line >= 1
            && c2.col >= 1,
{
    lemma_skip_line_col(src, c0, false);
    let c = skip(src, c0, false);
    lemma_walk_line_col(src, c, line_end(src, c.pos));
    lemma_walk_line_col(src, c, ident_end(src, c.pos));
    lemma_walk_line_col(src, c, ident_end(src, c.pos + 1));
    lemma_walk_line_col(src, c, num_end(src, c.pos));
    lemma_walk_line_col(src, c, c.pos + 1);
    lemma_walk_line_col(src, c, c.pos + 2);
    match str_body(src, c.pos + 1) {
        StrScan::Done(_, e) => lemma_walk_line_col(src, c, e),
        _ => {},
    }
}


/// Every token but `EOF` consumes at least one character.
pub proof fn lemma_next_tok_progress(src: Seq<char>, c0: Cursor)
    requires
        c0.pos <= src.len(),
    ensures
        next_tok(src, c0) matches Ok((t, c2)) ==> c2.pos <= src.len() && (!(t.0 is EOF) ==> c0.pos
            < c2.pos && skip(src, c0, false).pos < c2.pos),
{
    lemma_skip_pos(src, c0, false);
    let c = skip(src, c0, false);
    let p = c.pos;
    if p < src.len() {
        if src[p as int] == '"' {
            lemma_str_body_end(src, p + 1);
            match str_body(src, p + 1) {
                StrScan::Done(_, e) => lemma_walk_pos(src, c, e),
                _ => {},
            }
        } else if is_doc_comment(src, p) {
            lemma_line_end_ge(src, p);
            lemma_walk_pos(src, c, line_end(src, p));
        } else if src[p as int] == '@' {
            lemma_ident_end_ge(src, p + 1);
            lemma_walk_pos(src, c, ident_end(src, p + 1));
        } else if is_digit(src[p as int]) {
            lemma_num_end_ge(src, p);
            lemma_walk_pos(src, c, num_end(src, p));
        } else if is_alpha(src[p as int]) || src[p as int] == '_' {
            lemma_ident_end_ge(src, p);
            lemma_walk_pos(src, c, ident_end(src, p));
        } else {
            match punct(src, p) {
                Some((t, n)) => lemma_walk_pos(src, c, p + n),
                None => {},
            }
        }
    }
}

/// Characters of a plain word: ASCII letters, digits and `_`.
pub open spec fn word_char(c: char) -> bool {
    is_ascii_letter(c) || is_digit(c) || c == '_'
}

/// A plain word: starts with an ASCII letter or `_`, continues with word characters.
pub open spec fn is_word(w: Seq<char>) -> bool {
    &&& w.len() >= 1
    &&& (is_ascii_letter(w[0]) || w[0] == '_')
    &&& forall|i: int| 0 <= i < w.len() ==> word_char(#[trigger] w[i])
}

/// What a plain word lexes to: its keyword, or an identifier.
pub open spec fn word_tok(w: Seq<char>) -> Tok {
    match keyword(w) {
        Some(k) => k,
        None => Tok::Ident(w),
    }
}

pub proof fn lemma_walk_flat(src: Seq<char>, c: Cursor, end: nat)
    requires
        c.pos <= end <= src.len(),
        forall|i: int| c.pos <= i < end ==> src[i] != '\n',
    ensures
        walk(src, c, end) == (Cursor { pos: end, line: c.line, col: (c.col + end - c.pos) as nat }),
    decreases end - c.pos,
{
    if c.pos < end {
        lemma_walk_flat(src, step(src, c), end);
    }
}

proof fn lemma_word_ident_end(w: Seq<char>, i: nat)
    requires
        i <= w.len(),
        forall|k: int| 0 <= k < w.len() ==> word_char(#[trigger] w[k]),
    ensures
        ident_end(w, i) == w.len(),
    decreases w.len() - i,
{
    if i < w.len() {
        assert(word_char(w[i as int]));
        lemma_word_ident_end(w, i + 1);
    }
}

/// The token stream at the very end of a source is the single `EOF`.
proof fn lemma_lex_at_end(src: Seq<char>, c: Cursor)
    requires
        c.pos == src.len(),
    ensures
        lex_from(src, c) == Ok::<Seq<(Tok, nat, nat)>, Seq<char>>(seq![(Tok::EOF, c.line, c.col)]),
{
    assert(skip(src, c, false) == c);
}

/// A plain word lexes to its keyword or identifier, followed by `EOF` right after it.
pub proof fn lemma_lex_word(w: Seq<char>)
    requires
        is_word(w),
    ensures
        lex(w) == Ok::<Seq<(Tok, nat, nat)>, Seq<char>>(
            seq![(word_tok(w), 1nat, 1nat), (Tok::EOF, 1nat, w.len() + 1)],
        ),
{
    let c = start();
    assert(word_char(w[0]));
    assert(skip(w, c, false) == c);
    lemma_word_ident_end(w, 0);
    lemma_walk_flat(w, c, w.len());
    assert(w.subrange(0, w.len() as int) =~= w);
    let c2 = Cursor { pos: w.len(), line: 1, col: w.len() + 1 };
    assert(next_tok(w, c) == Ok::<((Tok, nat, nat), Cursor), Seq<char>>(((word_tok(w), 1nat, 1nat), c2)));
    lemma_lex_at_end(w, c2);
    assert(seq![(word_tok(w), 1nat, 1nat)] + seq![(Tok::EOF, 1nat, w.len() + 1)] =~= seq![
        (word_tok(w), 1nat, 1nat),
        (Tok::EOF, 1nat, w.len() + 1),
    ]);
}

proof fn lemma_digits_num_end(d: Seq<char>, i: nat)
    requires
        i <= d.len(),
        forall|k: int| 0 <= k < d.len() ==> is_digit(#[trigger] d[k]),
    ensures
        num_end(d, i) == d.len(),
    decreases d.len() - i,
{
    if i < d.len() {
        assert(is_digit(d[i as int]));
        lemma_digits_num_end(d, i + 1);
    }
}

proof fn lemma_digits_no_dots(d: Seq<char>)
    requires
        forall|k: int| 0 <= k < d.len() ==> is_digit(#[trigger] d[k]),
    ensures
        dots(d) == 0,
    decreases d.len(),
{
    if d.len() > 0 {
        assert(is_digit(d[d.len() - 1]));
        lemma_digits_no_dots(d.drop_last());
    }
}

/// A run of decimal digits whose value fits in `i64` lexes to that integer,
/// followed by `EOF` right after it.
pub proof fn law_digits_lex_to_integer(d: Seq<char>)
    requires
        d.len() >= 1,
        forall|k: int| 0 <= k < d.len() ==> is_digit(#[trigger] d[k]),
        digits_value(d) <= i64::MAX,
    ensures
        lex(d) == Ok::<Seq<(Tok, nat, nat)>, Seq<char>>(
            seq![(Tok::IntLit(digits_value(d) as i64), 1nat, 1nat), (Tok::EOF, 1nat, d.len() + 1)],
        ),
{
    let c = start();
    assert(is_digit(d[0]));
    assert(skip(d, c, false) == c);
    lemma_digits_num_end(d, 0);
    lemma_digits_no_dots(d);
    assert forall|i: int| 0 <= i < d.len() implies d[i] != '\n' by {
        assert(is_digit(d[i]));
    }
    lemma_walk_flat(d, c, d.len());
    assert(d.subrange(0, d.len() as int) =~= d);
    let c2 = Cursor { pos: d.len(), line: 1, col: d.len() + 1 };
    let t = Tok::IntLit(digits_value(d) as i64);
    assert(next_tok(d, c) == Ok::<((Tok, nat, nat), Cursor), Seq<char>>(((t, 1nat, 1nat), c2)));
    lemma_lex_at_end(d, c2);
    assert(seq![(t, 1nat, 1nat)] + seq![(Tok::EOF, 1nat, d.len() + 1)] =~= seq![
        (t, 1nat, 1nat),
        (Tok::EOF, 1nat, d.len() + 1),
    ]);
}

/// The token stream of a one-token text: the token at 1:1, then `EOF` right after it.
pub open spec fn single_token(t: Tok, len: nat) -> Result<Seq<(Tok, nat, nat)>, Seq<char>> {
    Ok(seq![(t, 1nat, 1nat), (Tok::EOF, 1nat, len + 1)])
}

proof fn lemma_lex_punct(s: Seq<char>, t: Tok)
    requires
        1 <= s.len() <= 2,
        !is_space(s[0]),
        s[0] != '"',
        s[0] != '@',
        s[0] != '_',
        !is_digit(s[0]),
        !is_alpha(s[0]),
        !is_line_comment(s, 0),
        !is_doc_comment(s, 0),
        s[0] != '\n',
        s.len() == 2 ==> s[1] != '\n',
        punct(s, 0) == Some((t, s.len())),
    ensures
        lex(s) == single_token(t, s.len()),
{
    let c = start();
    assert(skip(s, c, false) == c);
    lemma_walk_flat(s, c, s.len());
    let c2 = Cursor { pos: s.len(), line: 1, col: s.len() + 1 };
    assert(next_tok(s, c) == Ok::<((Tok, nat, nat), Cursor), Seq<char>>(((t, 1nat, 1nat), c2)));
    lemma_lex_at_end(s, c2);
    assert(seq![(t, 1nat, 1nat)] + seq![(Tok::EOF, 1nat, s.len() + 1)] =~= seq![
        (t, 1nat, 1nat),
        (Tok::EOF, 1nat, s.len() + 1),
    ]);
}

proof fn lemma_lex_annotation(s: Seq<char>, t: Tok)
    requires
        s.len() == 4,
        s[0] == '@',
        word_char(s[1]),
        word_char(s[2]),
        word_char(s[3]),
        s.subrange(1, 4) == "gpu"@ ==> t == Tok::AtGpu,
        s.subrange(1, 4) == "cpu"@ ==> t == Tok::AtCpu,
        s.subrange(1, 4) == "gpu"@ || s.subrange(1, 4) == "cpu"@,
    ensures
        lex(s) == single_token(t, 4),
{
    let c = start();
    assert(skip(s, c, false) == c);
    assert(ident_end(s, 4) == 4);
    assert(ident_end(s, 3) == 4);
    assert(ident_end(s, 2) == 4);
    assert(ident_end(s, 1) == 4);
    assert forall|i: int| 0 <= i < 4 implies s[i] != '\n' by {}
    lemma_walk_flat(s, c, 4);
    let c2 = Cursor { pos: 4, line: 1, col: 5 };
    assert(next_tok(s, c) == Ok::<((Tok, nat, nat), Cursor), Seq<char>>(((t, 1nat, 1nat), c2)));
    lemma_lex_at_end(s, c2);
    assert(seq![(t, 1nat, 1nat)] + seq![(Tok::EOF, 1nat, 5nat)] =~= seq![
        (t, 1nat, 1nat),
        (Tok::EOF, 1nat, 5nat),
    ]);
}

proof fn lemma_lex_fixed_let()
    ensures
        lex(tok_text(Tok::Let)) == single_token(Tok::Let, tok_text(Tok::Let).len()),
{
    reveal_strlit("let");
    reveal_strlit("mut");
    reveal_strlit("fn");
    reveal_strlit("return");
    reveal_strlit("if");
    reveal_strlit("else");
    reveal_strlit("while");
    reveal_strlit("for");
    reveal_strlit("in");
    reveal_strlit("import");
    reveal_strlit("gpu");
    reveal_strlit("cpu");
    reveal_strlit("true");
    reveal_strlit("false");
    reveal_strlit("struct");
    reveal_strlit("break");
    reveal_strlit("continue");
    reveal_strlit("int64");
    reveal_strlit("float64");
    reveal_strlit("bool");
    reveal_strlit("string");
    reveal_strlit("tensor");
    reveal_strlit("model");
    reveal_strlit("void");
    let s = "let"@;
    assert(is_word(s));
    assert(keyword(s) == Some(Tok::Let));
    lemma_lex_word(s);
}

proof fn lemma_lex_fixed_mut()
    ensures
        lex(tok_text(Tok::Mut)) == single_token(Tok::Mut, tok_text(Tok::Mut).len()),
{
    reveal_strlit("mut");
    reveal_strlit("let");
    reveal_strlit("fn");
    reveal_strlit("return");
    reveal_strlit("if");
    reveal_strlit("else");
    reveal_strlit("while");
    reveal_strlit("for");
    reveal_strlit("in");
    reveal_strlit("import");
    reveal_strlit("gpu");
    reveal_strlit("cpu");
    reveal_strlit("true");
    reveal_strlit("false");
    reveal_strlit("struct");
    reveal_strlit("break");
    reveal_strlit("continue");
    reveal_strlit("int64");
    reveal_strlit("float64");
    reveal_strlit("bool");
    reveal_strlit("string");
    reveal_strlit("tensor");
    reveal_strlit("model");
    reveal_strlit("void");
    let s = "mut"@;
    assert(is_word(s));
    assert(keyword(s) == Some(Tok::Mut));
    lemma_lex_word(s);
}

proof fn lemma_lex_fixed_fn()
    ensures
        lex(tok_text(Tok::Fn)) == single_token(Tok::Fn, tok_text(Tok::Fn).len()),
{
    reveal_strlit("fn");
    reveal_strlit("let");
    reveal_strlit("mut");
    reveal_strlit("return");
    reveal_strlit("if");
    reveal_strlit("else");
    reveal_strlit("while");
    reveal_strlit("for");
    reveal_strlit("in");
    reveal_strlit("import");
    reveal_strlit("gpu");
    reveal_strlit("cpu");
    reveal_strlit("true");
    reveal_strlit("false");
    reveal_strlit("struct");
    reveal_strlit("break");
    reveal_strlit("continue");
    reveal_strlit("int64");
    reveal_strlit("float64");
    reveal_strlit("bool");
    reveal_strlit("string");
    reveal_strlit("tensor");
    reveal_strlit("model");
    reveal_strlit("void");
    let s = "fn"@;
    assert(is_word(s));
    assert(keyword(s) == Some(Tok::Fn));
    lemma_lex_word(s);
}

proof fn lemma_lex_fixed_return()
    ensures
        lex(tok_text(Tok::Return)) == single_token(Tok::Return, tok_text(Tok::Return).len()),
{
    reveal_strlit("return");
    reveal_strlit("let");
    reveal_strlit("mut");
    reveal_strlit("fn");
    reveal_strlit("if");
    reveal_strlit("else");
    reveal_strlit("while");
    reveal_strlit("for");
    reveal_strlit("in");
    reveal_strlit("import");
    reveal_strlit("gpu");
    reveal_strlit("cpu");
    reveal_strlit("true");
    reveal_strlit("false");
    reveal_strlit("struct");
    reveal_strlit("break");
    reveal_strlit("continue");
    reveal_strlit("int64");
    reveal_strlit("float64");
    reveal_strlit("bool");
    reveal_strlit("string");
    reveal_strlit("tensor");
    reveal_strlit("model");
    reveal_strlit("void");
    let s = "return"@;
    assert(is_word(s));
    assert(keyword(s) == Some(Tok::Return));
    lemma_lex_word(s);
}

proof fn lemma_lex_fixed_if()
    ensures
        lex(tok_text(Tok::If)) == single_token(Tok::If, tok_text(Tok::If).len()),
{
    reveal_strlit("if");
    reveal_strlit("let");
    reveal_strlit("mut");
    reveal_strlit("fn");
    reveal_strlit("return");
    reveal_strlit("else");
    reveal_strlit("while");
    reveal_strlit("for");
    reveal_strlit("in");
    reveal_strlit("import");
    reveal_strlit("gpu");
    reveal_strlit("cpu");
    reveal_strlit("true");
    reveal_strlit("false");
    reveal_strlit("struct");
    reveal_strlit("break");
    reveal_strlit("continue");
    reveal_strlit("int64");
    reveal_strlit("float64");
    reveal_strlit("bool");
    reveal_strlit("string");
    reveal_strlit("tensor");
    reveal_strlit("model");
    reveal_strlit("void");
    let s = "if"@;
    assert(is_word(s));
    assert(keyword(s) == Some(Tok::If));
    lemma_lex_word(s);
}

proof fn lemma_lex_fixed_else()
    ensures
        lex(tok_text(Tok::Else)) == single_token(Tok::Else, tok_text(Tok::Else).len()),
{
    reveal_strlit("else");
    reveal_strlit("let");
    reveal_strlit("mut");
    reveal_strlit("fn");
    reveal_strlit("return");
    reveal_strlit("if");
    reveal_strlit("while");
    reveal_strlit("for");
    reveal_strlit("in");
    reveal_strlit("import");
    reveal_strlit("gpu");
    reveal_strlit("cpu");
    reveal_strlit("true");
    reveal_strlit("false");
    reveal_strlit("struct");
    reveal_strlit("break");
    reveal_strlit("continue");
    reveal_strlit("int64");
    reveal_strlit("float64");
    reveal_strlit("bool");
    reveal_strlit("string");
    reveal_strlit("tensor");
    reveal_strlit("model");
    reveal_strlit("void");
    let s = "else"@;
    assert(is_word(s));
    assert(keyword(s) == Some(Tok::Else));
    lemma_lex_word(s);
}

proof fn lemma_lex_fixed_while()
    ensures
        lex(tok_text(Tok::While)) == single_token(Tok::While, tok_text(Tok::While).len()),
{
    reveal_strlit("while");
    reveal_strlit("let");
    reveal_strlit("mut");
    reveal_strlit("fn");
    reveal_strlit("return");
    reveal_strlit("if");
    reveal_strlit("else");
    reveal_strlit("for");
    reveal_strlit("in");
    reveal_strlit("import");
    reveal_strlit("gpu");
    reveal_strlit("cpu");
    reveal_strlit("true");
    reveal_strlit("false");
    reveal_strlit("struct");
    reveal_strlit("break");
    reveal_strlit("continue");
    reveal_strlit("int64");
    reveal_strlit("float64");
    reveal_strlit("bool");
    reveal_strlit("string");
    reveal_strlit("tensor");
    reveal_strlit("model");
    reveal_strlit("void");
    let s = "while"@;
    assert(is_word(s));
    assert(keyword(s) == Some(Tok::While));
    lemma_lex_word(s);
}

proof fn lemma_lex_fixed_for()
    ensures
        lex(tok_text(Tok::For)) == single_token(Tok::For, tok_text(Tok::For).len()),
{
    reveal_strlit("for");
    reveal_strlit("let");
    reveal_strlit("mut");
    reveal_strlit("fn");
    reveal_strlit("return");
    reveal_strlit("if");
    reveal_strlit("else");
    reveal_strlit("while");
    reveal_strlit("in");
    reveal_strlit("import");
    reveal_strlit("gpu");
    reveal_strlit("cpu");
    reveal_strlit("true");
    reveal_strlit("false");
    reveal_strlit("struct");
    reveal_strlit("break");
    reveal_strlit("continue");
    reveal_strlit("int64");
    reveal_strlit("float64");
    reveal_strlit("bool");
    reveal_strlit("string");
    reveal_strlit("tensor");
    reveal_strlit("model");
    reveal_strlit("void");
    let s = "for"@;
    assert(is_word(s));
    assert(keyword(s) == Some(Tok::For));
    lemma_lex_word(s);
}

proof fn lemma_lex_fixed_in()
    ensures
        lex(tok_text(Tok::In)) == single_token(Tok::In, tok_text(Tok::In).len()),
{
    reveal_strlit("in");
    reveal_strlit("let");
    reveal_strlit("mut");
    reveal_strlit("fn");
    reveal_strlit("return");
    reveal_strlit("if");
    reveal_strlit("else");
    reveal_strlit("while");
    reveal_strlit("for");
    reveal_strlit("import");
    reveal_strlit("gpu");
    reveal_strlit("cpu");
    reveal_strlit("true");
    reveal_strlit("false");
    reveal_strlit("struct");
    reveal_strlit("break");
    reveal_strlit("continue");
    reveal_strlit("int64");
    reveal_strlit("float64");
    reveal_strlit("bool");
    reveal_strlit("string");
    reveal_strlit("tensor");
    reveal_strlit("model");
    reveal_strlit("void");
    let s = "in"@;
    assert(is_word(s));
    assert(keyword(s) == Some(Tok::In));
    lemma_lex_word(s);
}

proof fn lemma_lex_fixed_import()
    ensures
        lex(tok_text(Tok::Import)) == single_token(Tok::Import, tok_text(Tok::Import).len()),
{
    reveal_strlit("import");
    reveal_strlit("let");
    reveal_strlit("mut");
    reveal_strlit("fn");
    reveal_strlit("return");
    reveal_strlit("if");
    reveal_strlit("else");
    reveal_strlit("while");
    reveal_strlit("for");
    reveal_strlit("in");
    reveal_strlit("gpu");
    reveal_strlit("cpu");
    reveal_strlit("true");
    reveal_strlit("false");
    reveal_strlit("struct");
    reveal_strlit("break");
    reveal_strlit("continue");
    reveal_strlit("int64");
    reveal_strlit("float64");
    reveal_strlit("bool");
    reveal_strlit("string");
    reveal_strlit("tensor");
    reveal_strlit("model");
    reveal_strlit("void");
    let s = "import"@;
    assert(is_word(s));
    assert(keyword(s) == Some(Tok::Import));
    lemma_lex_word(s);
}

proof fn lemma_lex_fixed_gpu()
    ensures
        lex(tok_text(Tok::Gpu)) == single_token(Tok::Gpu, tok_text(Tok::Gpu).len()),
{
    reveal_strlit("gpu");
    reveal_strlit("let");
    reveal_strlit("mut");
    reveal_strlit("fn");
    reveal_strlit("return");
    reveal_strlit("if");
    reveal_strlit("else");
    reveal_strlit("while");
    reveal_strlit("for");
    reveal_strlit("in");
    reveal_strlit("import");
    reveal_strlit("cpu");
    reveal_strlit("true");
    reveal_strlit("false");
    reveal_strlit("struct");
    reveal_strlit("break");
    reveal_strlit("continue");
    reveal_strlit("int64");
    reveal_strlit("float64");
    reveal_strlit("bool");
    reveal_strlit("string");
    reveal_strlit("tensor");
    reveal_strlit("model");
    reveal_strlit("void");
    let s = "gpu"@;
    assert(is_word(s));
    assert(keyword(s) == Some(Tok::Gpu));
    lemma_lex_word(s);
}

proof fn lemma_lex_fixed_cpu()
    ensures
        lex(tok_text(Tok::Cpu)) == single_token(Tok::Cpu, tok_text(Tok::Cpu).len()),
{
    reveal_strlit("cpu");
    reveal_strlit("let");
    reveal_strlit("mut");
    reveal_strlit("fn");
    reveal_strlit("return");
    reveal_strlit("if");
    reveal_strlit("else");
    reveal_strlit("while");
    reveal_strlit("for");
    reveal_strlit("in");
    reveal_strlit("import");
    reveal_strlit("gpu");
    reveal_strlit("true");
    reveal_strlit("false");
    reveal_strlit("struct");
    reveal_strlit("break");
    reveal_strlit("continue");
    reveal_strlit("int64");
    reveal_strlit("float64");
    reveal_strlit("bool");
    reveal_strlit("string");
    reveal_strlit("tensor");
    reveal_strlit("model");
    reveal_strlit("void");
    let s = "cpu"@;
    assert(is_word(s));
    assert(keyword(s) == Some(Tok::Cpu));
    lemma_lex_word(s);
}

proof fn lemma_lex_fixed_true()
    ensures
        lex(tok_text(Tok::True)) == single_token(Tok::True, tok_text(Tok::True).len()),
{
    reveal_strlit("true");
    reveal_strlit("let");
    reveal_strlit("mut");
    reveal_strlit("fn");
    reveal_strlit("return");
    reveal_strlit("if");
    reveal_strlit("else");
    reveal_strlit("while");
    reveal_strlit("for");
    reveal_strlit("in");
    reveal_strlit("import");
    reveal_strlit("gpu");
    reveal_strlit("cpu");
    reveal_strlit("false");
    reveal_strlit("struct");
    reveal_strlit("break");
    reveal_strlit("continue");
    reveal_strlit("int64");
    reveal_strlit("float64");
    reveal_strlit("bool");
    reveal_strlit("string");
    reveal_strlit("tensor");
    reveal_strlit("model");
    reveal_strlit("void");
    let s = "true"@;
    assert(is_word(s));
    assert(keyword(s) == Some(Tok::True));
    lemma_lex_word(s);
}

proof fn lemma_lex_fixed_false()
    ensures
        lex(tok_text(Tok::False)) == single_token(Tok::False, tok_text(Tok::False).len()),
{
    reveal_strlit("false");
    reveal_strlit("let");
    reveal_strlit("mut");
    reveal_strlit("fn");
    reveal_strlit("return");
    reveal_strlit("if");
    reveal_strlit("else");
    reveal_strlit("while");
    reveal_strlit("for");
    reveal_strlit("in");
    reveal_strlit("import");
    reveal_strlit("gpu");
    reveal_strlit("cpu");
    reveal_strlit("true");
    reveal_strlit("struct");
    reveal_strlit("break");
    reveal_strlit("continue");
    reveal_strlit("int64");
    reveal_strlit("float64");
    reveal_strlit("bool");
    reveal_strlit("string");
    reveal_strlit("tensor");
    reveal_strlit("model");
    reveal_strlit("void");
    let s = "false"@;
    assert(is_word(s));
    assert(keyword(s) == Some(Tok::False));
    lemma_lex_word(s);
}

proof fn lemma_lex_fixed_struct()
    ensures
        lex(tok_text(Tok::Struct)) == single_token(Tok::Struct, tok_text(Tok::Struct).len()),
{
    reveal_strlit("struct");
    reveal_strlit("let");
    reveal_strlit("mut");
    reveal_strlit("fn");
    reveal_strlit("return");
    reveal_strlit("if");
    reveal_strlit("else");
    reveal_strlit("while");
    reveal_strlit("for");
    reveal_strlit("in");
    reveal_strlit("import");
    reveal_strlit("gpu");
    reveal_strlit("cpu");
    reveal_strlit("true");
    reveal_strlit("false");
    reveal_strlit("break");
    reveal_strlit("continue");
    reveal_strlit("int64");
    reveal_strlit("float64");
    reveal_strlit("bool");
    reveal_strlit("string");
    reveal_strlit("tensor");
    reveal_strlit("model");
    reveal_strlit("void");
    let s = "struct"@;
    assert(is_word(s));
    assert(keyword(s) == Some(Tok::Struct));
    lemma_lex_word(s);
}

proof fn lemma_lex_fixed_break()
    ensures
        lex(tok_text(Tok::Break)) == single_token(Tok::Break, tok_text(Tok::Break).len()),
{
    reveal_strlit("break");
    reveal_strlit("let");
    reveal_strlit("mut");
    reveal_strlit("fn");
    reveal_strlit("return");
    reveal_strlit("if");
    reveal_strlit("else");
    reveal_strlit("while");
    reveal_strlit("for");
    reveal_strlit("in");
    reveal_strlit("import");
    reveal_strlit("gpu");
    reveal_strlit("cpu");
    reveal_strlit("true");
    reveal_strlit("false");
    reveal_strlit("struct");
    reveal_strlit("continue");
    reveal_strlit("int64");
    reveal_strlit("float64");
    reveal_strlit("bool");
    reveal_strlit("string");
    reveal_strlit("tensor");
    reveal_strlit("model");
    reveal_strlit("void");
    let s = "break"@;
    assert(is_word(s));
    assert(keyword(s) == Some(Tok::Break));
    lemma_lex_word(s);
}

proof fn lemma_lex_fixed_continue()
    ensures
        lex(tok_text(Tok::Continue)) == single_token(Tok::Continue, tok_text(Tok::Continue).len()),
{
    reveal_strlit("continue");
    reveal_strlit("let");
    reveal_strlit("mut");
    reveal_strlit("fn");
    reveal_strlit("return");
    reveal_strlit("if");
    reveal_strlit("else");
    reveal_strlit("while");
    reveal_strlit("for");
    reveal_strlit("in");
    reveal_strlit("import");
    reveal_strlit("gpu");
    reveal_strlit("cpu");
    reveal_strlit("true");
    reveal_strlit("false");
    reveal_strlit("struct");
    reveal_strlit("break");
    reveal_strlit("int64");
    reveal_strlit("float64");
    reveal_strlit("bool");
    reveal_strlit("string");
    reveal_strlit("tensor");
    reveal_strlit("model");
    reveal_strlit("void");
    let s = "continue"@;
    assert(is_word(s));
    assert(keyword(s) == Some(Tok::Continue));
    lemma_lex_word(s);
}

proof fn lemma_lex_fixed_kwint64()
    ensures
        lex(tok_text(Tok::KwInt64)) == single_token(Tok::KwInt64, tok_text(Tok::KwInt64).len()),
{
    reveal_strlit("int64");
    reveal_strlit("let");
    reveal_strlit("mut");
    reveal_strlit("fn");
    reveal_strlit("return");
    reveal_strlit("if");
    reveal_strlit("else");
    reveal_strlit("while");
    reveal_strlit("for");
    reveal_strlit("in");
    reveal_strlit("import");
    reveal_strlit("gpu");
    reveal_strlit("cpu");
    reveal_strlit("true");
    reveal_strlit("false");
    reveal_strlit("struct");
    reveal_strlit("break");
    reveal_strlit("continue");
    reveal_strlit("float64");
    reveal_strlit("bool");
    reveal_strlit("string");
    reveal_strlit("tensor");
    reveal_strlit("model");
    reveal_strlit("void");
    let s = "int64"@;
    assert(is_word(s));
    assert(keyword(s) == Some(Tok::KwInt64));
    lemma_lex_word(s);
}

proof fn lemma_lex_fixed_kwfloat64()
    ensures
        lex(tok_text(Tok::KwFloat64)) == single_token(Tok::KwFloat64, tok_text(Tok::KwFloat64).len()),
{
    reveal_strlit("float64");
    reveal_strlit("let");
    reveal_strlit("mut");
    reveal_strlit("fn");
    reveal_strlit("return");
    reveal_strlit("if");
    reveal_strlit("else");
    reveal_strlit("while");
    reveal_strlit("for");
    reveal_strlit("in");
    reveal_strlit("import");
    reveal_strlit("gpu");
    reveal_strlit("cpu");
    reveal_strlit("true");
    reveal_strlit("false");
    reveal_strlit("struct");
    reveal_strlit("break");
    reveal_strlit("continue");
    reveal_strlit("int64");
    reveal_strlit("bool");
    reveal_strlit("string");
    reveal_strlit("tensor");
    reveal_strlit("model");
    reveal_strlit("void");
    let s = "float64"@;
    assert(is_word(s));
    assert(keyword(s) == Some(Tok::KwFloat64));
    lemma_lex_word(s);
}

proof fn lemma_lex_fixed_kwbool()
    ensures
        lex(tok_text(Tok::KwBool)) == single_token(Tok::KwBool, tok_text(Tok::KwBool).len()),
{
    reveal_strlit("bool");
    reveal_strlit("let");
    reveal_strlit("mut");
    reveal_strlit("fn");
    reveal_strlit("return");
    reveal_strlit("if");
    reveal_strlit("else");
    reveal_strlit("while");
    reveal_strlit("for");
    reveal_strlit("in");
    reveal_strlit("import");
    reveal_strlit("gpu");
    reveal_strlit("cpu");
    reveal_strlit("true");
    reveal_strlit("false");
    reveal_strlit("struct");
    reveal_strlit("break");
    reveal_strlit("continue");
    reveal_strlit("int64");
    reveal_strlit("float64");
    reveal_strlit("string");
    reveal_strlit("tensor");
    reveal_strlit("model");
    reveal_strlit("void");
    let s = "bool"@;
    assert(is_word(s));
    assert(keyword(s) == Some(Tok::KwBool));
    lemma_lex_word(s);
}

proof fn lemma_lex_fixed_kwstring()
    ensures
        lex(tok_text(Tok::KwString)) == single_token(Tok::KwString, tok_text(Tok::KwString).len()),
{
    reveal_strlit("string");
    reveal_strlit("let");
    reveal_strlit("mut");
    reveal_strlit("fn");
    reveal_strlit("return");
    reveal_strlit("if");
    reveal_strlit("else");
    reveal_strlit("while");
    reveal_strlit("for");
    reveal_strlit("in");
    reveal_strlit("import");
    reveal_strlit("gpu");
    reveal_strlit("cpu");
    reveal_strlit("true");
    reveal_strlit("false");
    reveal_strlit("struct");
    reveal_strlit("break");
    reveal_strlit("continue");
    reveal_strlit("int64");
    reveal_strlit("float64");
    reveal_strlit("bool");
    reveal_strlit("tensor");
    reveal_strlit("model");
    reveal_strlit("void");
    let s = "string"@;
    assert(is_word(s));
    assert("string"@[3] != "struct"@[3]);
    assert(keyword(s) == Some(Tok::KwString));
    lemma_lex_word(s);
}

proof fn lemma_lex_fixed_kwtensor()
    ensures
        lex(tok_text(Tok::KwTensor)) == single_token(Tok::KwTensor, tok_text(Tok::KwTensor).len()),
{
    reveal_strlit("tensor");
    reveal_strlit("let");
    reveal_strlit("mut");
    reveal_strlit("fn");
    reveal_strlit("return");
    reveal_strlit("if");
    reveal_strlit("else");
    reveal_strlit("while");
    reveal_strlit("for");
    reveal_strlit("in");
    reveal_strlit("import");
    reveal_strlit("gpu");
    reveal_strlit("cpu");
    reveal_strlit("true");
    reveal_strlit("false");
    reveal_strlit("struct");
    reveal_strlit("break");
    reveal_strlit("continue");
    reveal_strlit("int64");
    reveal_strlit("float64");
    reveal_strlit("bool");
    reveal_strlit("string");
    reveal_strlit("model");
    reveal_strlit("void");
    let s = "tensor"@;
    assert(is_word(s));
    assert(keyword(s) == Some(Tok::KwTensor));
    lemma_lex_word(s);
}

proof fn lemma_lex_fixed_kwmodel()
    ensures
        lex(tok_text(Tok::KwModel)) == single_token(Tok::KwModel, tok_text(Tok::KwModel).len()),
{
    reveal_strlit("model");
    reveal_strlit("let");
    reveal_strlit("mut");
    reveal_strlit("fn");
    reveal_strlit("return");
    reveal_strlit("if");
    reveal_strlit("else");
    reveal_strlit("while");
    reveal_strlit("for");
    reveal_strlit("in");
    reveal_strlit("import");
    reveal_strlit("gpu");
    reveal_strlit("cpu");
    reveal_strlit("true");
    reveal_strlit("false");
    reveal_strlit("struct");
    reveal_strlit("break");
    reveal_strlit("continue");
    reveal_strlit("int64");
    reveal_strlit("float64");
    reveal_strlit("bool");
    reveal_strlit("string");
    reveal_strlit("tensor");
    reveal_strlit("void");
    let s = "model"@;
    assert(is_word(s));
    assert(keyword(s) == Some(Tok::KwModel));
    lemma_lex_word(s);
}

proof fn lemma_lex_fixed_kwvoid()
    ensures
        lex(tok_text(Tok::KwVoid)) == single_token(Tok::KwVoid, tok_text(Tok::KwVoid).len()),
{
    reveal_strlit("void");
    reveal_strlit("let");
    reveal_strlit("mut");
    reveal_strlit("fn");
    reveal_strlit("return");
    reveal_strlit("if");
    reveal_strlit("else");
    reveal_strlit("while");
    reveal_strlit("for");
    reveal_strlit("in");
    reveal_strlit("import");
    reveal_strlit("gpu");
    reveal_strlit("cpu");
    reveal_strlit("true");
    reveal_strlit("false");
    reveal_strlit("struct");
    reveal_strlit("break");
    reveal_strlit("continue");
    reveal_strlit("int64");
    reveal_strlit("float64");
    reveal_strlit("bool");
    reveal_strlit("string");
    reveal_strlit("tensor");
    reveal_strlit("model");
    let s = "void"@;
    assert(is_word(s));
    assert(keyword(s) == Some(Tok::KwVoid));
    lemma_lex_word(s);
}

proof fn lemma_lex_fixed_atgpu()
    ensures
        lex(tok_text(Tok::AtGpu)) == single_token(Tok::AtGpu, tok_text(Tok::AtGpu).len()),
{
    reveal_strlit("@gpu");
    reveal_strlit("gpu");
    reveal_strlit("cpu");
    let s = "@gpu"@;
    assert(s.subrange(1, 4) =~= "gpu"@);
    assert("gpu"@[0] != "cpu"@[0]);
    lemma_lex_annotation(s, Tok::AtGpu);
}

proof fn lemma_lex_fixed_atcpu()
    ensures
        lex(tok_text(Tok::AtCpu)) == single_token(Tok::AtCpu, tok_text(Tok::AtCpu).len()),
{
    reveal_strlit("@cpu");
    reveal_strlit("gpu");
    reveal_strlit("cpu");
    let s = "@cpu"@;
    assert(s.subrange(1, 4) =~= "cpu"@);
    assert("gpu"@[0] != "cpu"@[0]);
    lemma_lex_annotation(s, Tok::AtCpu);
}

proof fn lemma_lex_fixed_plus()
    ensures
        lex(tok_text(Tok::Plus)) == single_token(Tok::Plus, tok_text(Tok::Plus).len()),
{
    reveal_strlit("+");
    let s = "+"@;
    lemma_lex_punct(s, Tok::Plus);
}

proof fn lemma_lex_fixed_minus()
    ensures
        lex(tok_text(Tok::Minus)) == single_token(Tok::Minus, tok_text(Tok::Minus).len()),
{
    reveal_strlit("-");
    let s = "-"@;
    lemma_lex_punct(s, Tok::Minus);
}

proof fn lemma_lex_fixed_star()
    ensures
        lex(tok_text(Tok::Star)) == single_token(Tok::Star, tok_text(Tok::Star).len()),
{
    reveal_strlit("*");
    let s = "*"@;
    lemma_lex_punct(s, Tok::Star);
}

proof fn lemma_lex_fixed_slash()
    ensures
        lex(tok_text(Tok::Slash)) == single_token(Tok::Slash, tok_text(Tok::Slash).len()),
{
    reveal_strlit("/");
    let s = "/"@;
    lemma_lex_punct(s, Tok::Slash);
}

proof fn lemma_lex_fixed_percent()
    ensures
        lex(tok_text(Tok::Percent)) == single_token(Tok::Percent, tok_text(Tok::Percent).len()),
{
    reveal_strlit("%");
    let s = "%"@;
    lemma_lex_punct(s, Tok::Percent);
}

proof fn lemma_lex_fixed_eqeq()
    ensures
        lex(tok_text(Tok::EqEq)) == single_token(Tok::EqEq, tok_text(Tok::EqEq).len()),
{
    reveal_strlit("==");
    let s = "=="@;
    lemma_lex_punct(s, Tok::EqEq);
}

proof fn lemma_lex_fixed_bangeq()
    ensures
        lex(tok_text(Tok::BangEq)) == single_token(Tok::BangEq, tok_text(Tok::BangEq).len()),
{
    reveal_strlit("!=");
    let s = "!="@;
    lemma_lex_punct(s, Tok::BangEq);
}

proof fn lemma_lex_fixed_lt()
    ensures
        lex(tok_text(Tok::Lt)) == single_token(Tok::Lt, tok_text(Tok::Lt).len()),
{
    reveal_strlit("<");
    let s = "<"@;
    lemma_lex_punct(s, Tok::Lt);
}

proof fn lemma_lex_fixed_gt()
    ensures
        lex(tok_text(Tok::Gt)) == single_token(Tok::Gt, tok_text(Tok::Gt).len()),
{
    reveal_strlit(">");
    let s = ">"@;
    lemma_lex_punct(s, Tok::Gt);
}

proof fn lemma_lex_fixed_lteq()
    ensures
        lex(tok_text(Tok::LtEq)) == single_token(Tok::LtEq, tok_text(Tok::LtEq).len()),
{
    reveal_strlit("<=");
    let s = "<="@;
    lemma_lex_punct(s, Tok::LtEq);
}

proof fn lemma_lex_fixed_gteq()
    ensures
        lex(tok_text(Tok::GtEq)) == single_token(Tok::GtEq, tok_text(Tok::GtEq).len()),
{
    reveal_strlit(">=");
    let s = ">="@;
    lemma_lex_punct(s, Tok::GtEq);
}

proof fn lemma_lex_fixed_andand()
    ensures
        lex(tok_text(Tok::AndAnd)) == single_token(Tok::AndAnd, tok_text(Tok::AndAnd).len()),
{
    reveal_strlit("&&");
    let s = "&&"@;
    lemma_lex_punct(s, Tok::AndAnd);
}

proof fn lemma_lex_fixed_oror()
    ensures
        lex(tok_text(Tok::OrOr)) == single_token(Tok::OrOr, tok_text(Tok::OrOr).len()),
{
    reveal_strlit("||");
    let s = "||"@;
    lemma_lex_punct(s, Tok::OrOr);
}

proof fn lemma_lex_fixed_bang()
    ensures
        lex(tok_text(Tok::Bang)) == single_token(Tok::Bang, tok_text(Tok::Bang).len()),
{
    reveal_strlit("!");
    let s = "!"@;
    lemma_lex_punct(s, Tok::Bang);
}

proof fn lemma_lex_fixed_eq()
    ensures
        lex(tok_text(Tok::Eq)) == single_token(Tok::Eq, tok_text(Tok::Eq).len()),
{
    reveal_strlit("=");
    let s = "="@;
    lemma_lex_punct(s, Tok::Eq);
}

proof fn lemma_lex_fixed_arrow()
    ensures
        lex(tok_text(Tok::Arrow)) == single_token(Tok::Arrow, tok_text(Tok::Arrow).len()),
{
    reveal_strlit("->");
    let s = "->"@;
    lemma_lex_punct(s, Tok::Arrow);
}

proof fn lemma_lex_fixed_dot()
    ensures
        lex(tok_text(Tok::Dot)) == single_token(Tok::Dot, tok_text(Tok::Dot).len()),
{
    reveal_strlit(".");
    let s = "."@;
    lemma_lex_punct(s, Tok::Dot);
}

proof fn lemma_lex_fixed_dotdot()
    ensures
        lex(tok_text(Tok::DotDot)) == single_token(Tok::DotDot, tok_text(Tok::DotDot).len()),
{
    reveal_strlit("..");
    let s = ".."@;
    lemma_lex_punct(s, Tok::DotDot);
}

proof fn lemma_lex_fixed_colon()
    ensures
        lex(tok_text(Tok::Colon)) == single_token(Tok::Colon, tok_text(Tok::Colon).len()),
{
    reveal_strlit(":");
    let s = ":"@;
    lemma_lex_punct(s, Tok::Colon);
}

proof fn lemma_lex_fixed_semicolon()
    ensures
        lex(tok_text(Tok::Semicolon)) == single_token(Tok::Semicolon, tok_text(Tok::Semicolon).len()),
{
    reveal_strlit(";");
    let s = ";"@;
    lemma_lex_punct(s, Tok::Semicolon);
}

proof fn lemma_lex_fixed_comma()
    ensures
        lex(tok_text(Tok::Comma)) == single_token(Tok::Comma, tok_text(Tok::Comma).len()),
{
    reveal_strlit(",");
    let s = ","@;
    lemma_lex_punct(s, Tok::Comma);
}

proof fn lemma_lex_fixed_lparen()
    ensures
        lex(tok_text(Tok::LParen)) == single_token(Tok::LParen, tok_text(Tok::LParen).len()),
{
    reveal_strlit("(");
    let s = "("@;
    lemma_lex_punct(s, Tok::LParen);
}

proof fn lemma_lex_fixed_rparen()
    ensures
        lex(tok_text(Tok::RParen)) == single_token(Tok::RParen, tok_text(Tok::RParen).len()),
{
    reveal_strlit(")");
    let s = ")"@;
    lemma_lex_punct(s, Tok::RParen);
}

proof fn lemma_lex_fixed_lbrace()
    ensures
        lex(tok_text(Tok::LBrace)) == single_token(Tok::LBrace, tok_text(Tok::LBrace).len()),
{
    reveal_strlit("{");
    let s = "{"@;
    lemma_lex_punct(s, Tok::LBrace);
}

proof fn lemma_lex_fixed_rbrace()
    ensures
        lex(tok_text(Tok::RBrace)) == single_token(Tok::RBrace, tok_text(Tok::RBrace).len()),
{
    reveal_strlit("}");
    let s = "}"@;
    lemma_lex_punct(s, Tok::RBrace);
}

proof fn lemma_lex_fixed_lbracket()
    ensures
        lex(tok_text(Tok::LBracket)) == single_token(Tok::LBracket, tok_text(Tok::LBracket).len()),
{
    reveal_strlit("[");
    let s = "["@;
    lemma_lex_punct(s, Tok::LBracket);
}

proof fn lemma_lex_fixed_rbracket()
    ensures
        lex(tok_text(Tok::RBracket)) == single_token(Tok::RBracket, tok_text(Tok::RBracket).len()),
{
    reveal_strlit("]");
    let s = "]"@;
    lemma_lex_punct(s, Tok::RBracket);
}

/// Every keyword, type name, annotation, operator and punctuation token lexes
/// back from its own text: the token at line 1, column 1, then `EOF` right after it.
pub proof fn law_fixed_token_lexes_back(t: Tok)
    requires
        is_fixed(t),
    ensures
        lex(tok_text(t)) == single_token(t, tok_text(t).len()),
{
    match t {
        Tok::Let => lemma_lex_fixed_let(),
        Tok::Mut => lemma_lex_fixed_mut(),
        Tok::Fn => lemma_lex_fixed_fn(),
        Tok::Return => lemma_lex_fixed_return(),
        Tok::If => lemma_lex_fixed_if(),
        Tok::Else => lemma_lex_fixed_else(),
        Tok::While => lemma_lex_fixed_while(),
        Tok::For => lemma_lex_fixed_for(),
        Tok::In => lemma_lex_fixed_in(),
        Tok::Import => lemma_lex_fixed_import(),
        Tok::Gpu => lemma_lex_fixed_gpu(),
        Tok::Cpu => lemma_lex_fixed_cpu(),
        Tok::True => lemma_lex_fixed_true(),
        Tok::False => lemma_lex_fixed_false(),
        Tok::Struct => lemma_lex_fixed_struct(),
        Tok::Break => lemma_lex_fixed_break(),
        Tok::Continue => lemma_lex_fixed_continue(),
        Tok::KwInt64 => lemma_lex_fixed_kwint64(),
        Tok::KwFloat64 => lemma_lex_fixed_kwfloat64(),
        Tok::KwBool => lemma_lex_fixed_kwbool(),
        Tok::KwString => lemma_lex_fixed_kwstring(),
        Tok::KwTensor => lemma_lex_fixed_kwtensor(),
        Tok::KwModel => lemma_lex_fixed_kwmodel(),
        Tok::KwVoid => lemma_lex_fixed_kwvoid(),
        Tok::AtGpu => lemma_lex_fixed_atgpu(),
        Tok::AtCpu => lemma_lex_fixed_atcpu(),
        Tok::Plus => lemma_lex_fixed_plus(),
        Tok::Minus => lemma_lex_fixed_minus(),
        Tok::Star => lemma_lex_fixed_star(),
        Tok::Slash => lemma_lex_fixed_slash(),
        Tok::Percent => lemma_lex_fixed_percent(),
        Tok::EqEq => lemma_lex_fixed_eqeq(),
        Tok::BangEq => lemma_lex_fixed_bangeq(),
        Tok::Lt => lemma_lex_fixed_lt(),
        Tok::Gt => lemma_lex_fixed_gt(),
        Tok::LtEq => lemma_lex_fixed_lteq(),
        Tok::GtEq => lemma_lex_fixed_gteq(),
        Tok::AndAnd => lemma_lex_fixed_andand(),
        Tok::OrOr => lemma_lex_fixed_oror(),
        Tok::Bang => lemma_lex_fixed_bang(),
        Tok::Eq => lemma_lex_fixed_eq(),
        Tok::Arrow => lemma_lex_fixed_arrow(),
        Tok::Dot => lemma_lex_fixed_dot(),
        Tok::DotDot => lemma_lex_fixed_dotdot(),
        Tok::Colon => lemma_lex_fixed_colon(),
        Tok::Semicolon => lemma_lex_fixed_semicolon(),
        Tok::Comma => lemma_lex_fixed_comma(),
        Tok::LParen => lemma_lex_fixed_lparen(),
        Tok::RParen => lemma_lex_fixed_rparen(),
        Tok::LBrace => lemma_lex_fixed_lbrace(),
        Tok::RBrace => lemma_lex_fixed_rbrace(),
        Tok::LBracket => lemma_lex_fixed_lbracket(),
        Tok::RBracket => lemma_lex_fixed_rbracket(),
        _ => {},
    }
}

/// Turns source text into tokens, tracking line and column.
pub struct Lexer {
    src: Vec<char>,
    pos: usize,
    line: usize,
    col: usize,
}

fn is_ascii_digit(c: char) -> (r: bool)
    ensures
        r == is_digit(c),
{
    '0' <= c && c <= '9'
}

fn digit_val(c: char) -> (r: u64)
    ensures
        r == digit_value(c),
{
    if c == '0' {
        0
    } else if c == '1' {
        1
    } else if c == '2' {
        2
    } else if c == '3' {
        3
    } else if c == '4' {
        4
    } else if c == '5' {
        5
    } else if c == '6' {
        6
    } else if c == '7' {
        7
    } else if c == '8' {
        8
    } else {
        9
    }
}

/// Appends " at line {line}, col {col}".
fn push_at_line_col(s: &mut String, line: usize, col: usize)
    ensures
        final(s)@ == old(s)@ + at_line_col(line as nat, col as nat),
{
    proof {
        reveal_strlit(" at line ");
        reveal_strlit(", col ");
    }
    s.append(" at line ");
    push_decimal(s, line as u64);
    s.append(", col ");
    push_decimal(s, col as u64);
    assert(final(s)@ =~= old(s)@ + at_line_col(line as nat, col as nat));
}

impl Lexer {
    /// The source characters.
    pub closed spec fn source(&self) -> Seq<char> {
        self.src@
    }

    /// The current position.
    pub closed spec fn cursor(&self) -> Cursor {
        Cursor { pos: self.pos as nat, line: self.line as nat, col: self.col as nat }
    }

    /// The position lies within the source, and line and column are at least 1
    /// and at most one more than the index.
    pub closed spec fn wf(&self) -> bool {
        &&& self.src@.len() < usize::MAX
        &&& self.pos <= self.src@.len()
        &&& 1 <= self.line <= self.pos + 1
        &&& 1 <= self.col <= self.pos + 1
    }

    /// A lexer at the start of `source` (line 1, column 1).
    pub fn new(source: &str) -> (r: Lexer)
        requires
            source@.len() < usize::MAX,
        ensures
            r.wf(),
            r.source() == source@,
            r.cursor() == start(),
    {
        Lexer { src: chars_of(source), pos: 0, line: 1, col: 1 }
    }

    /// Lexes the whole source: all tokens up to and including `EOF`, or the
    /// first error message.
    pub fn tokenize(&mut self) -> (r: Result<Vec<SpannedToken>, String>)
        requires
            old(self).wf(),
        ensures
            final(self).wf(),
            final(self).source() == old(self).source(),
            match (r, lex_from(old(self).source(), old(self).cursor())) {
                (Ok(ts), Ok(s)) => stoks(ts@) == s,
                (Err(e), Err(m)) => e@ == m,
                _ => false,
            },
    {
        let mut tokens: Vec<SpannedToken> = Vec::new();
        let ghost src = self.src@;
        let ghost c0 = self.cursor();
        loop
            invariant_except_break
                lex_from(src, c0) == prepend_toks(stoks(tokens@), lex_from(src, self.cursor())),
            invariant
                self.wf(),
                self.src@ == src,
                src == old(self).src@,
                c0 == old(self).cursor(),
            ensures
                lex_from(src, c0) == Ok::<Seq<(Tok, nat, nat)>, Seq<char>>(stoks(tokens@)),
            decreases src.len() - self.pos,
        {
            let ghost before = self.cursor();
            let tok = match self.next_token() {
                Ok(t) => t,
                Err(e) => {
                    return Err(e);
                },
            };
            let is_eof = tok.node.is_eof();
            let ghost st = stok(&tok);
            let ghost prev = tokens@;
            tokens.push(tok);
            proof {
                assert(stoks(tokens@) =~= stoks(prev) + seq![st]);
                if !is_eof {
                    assert(before.pos < self.cursor().pos);
                }
                match lex_from(src, self.cursor()) {
                    Ok(rest) => {
                        assert(stoks(prev) + (seq![st] + rest) =~= stoks(tokens@) + rest);
                    },
                    Err(_) => {},
                }
            }
            if is_eof {
                proof {
                    assert(stoks(prev) + seq![st] =~= stoks(tokens@));
                }
                break;
            }
        }
        Ok(tokens)
    }

    fn peek(&self) -> (r: Option<char>)
        requires
            self.wf(),
        ensures
            r == (if self.pos < self.src@.len() {
                Some(self.src@[self.pos as int])
            } else {
                None
            }),
    {
        if self.pos < self.src.len() {
            Some(self.src[self.pos])
        } else {
            None
        }
    }

    fn peek2(&self) -> (r: Option<char>)
        requires
            self.wf(),
        ensures
            r == (if self.pos + 1 < self.src@.len() {
                Some(self.src@[self.pos + 1])
            } else {
                None
            }),
    {
        if self.pos + 1 < self.src.len() {
            Some(self.src[self.pos + 1])
        } else {
            None
        }
    }

    fn peek3(&self) -> (r: Option<char>)
        requires
            self.wf(),
        ensures
            r == (if self.pos + 2 < self.src@.len() {
                Some(self.src@[self.pos + 2])
            } else {
                None
            }),
    {
        if self.pos < self.src.len() && self.src.len() - self.pos > 2 {
            Some(self.src[self.pos + 2])
        } else {
            None
        }
    }

    fn advance(&mut self) -> (r: Option<char>)
        requires
            old(self).wf(),
        ensures
            final(self).wf(),
            final(self).src@ == old(self).src@,
            final(self).cursor() == step(old(self).src@, old(self).cursor()),
            r == (if old(self).pos < old(self).src@.len() {
                Some(old(self).src@[old(self).pos as int])
            } else {
                None
            }),
    {
        let c = self.peek();
        if let Some(ch) = c {
            self.pos = self.pos + 1;
            if ch == '\n' {
                self.line = self.line + 1;
                self.col = 1;
            } else {
                self.col = self.col + 1;
            }
        }
        c
    }

    fn skip_whitespace_and_comments(&mut self)
        requires
            old(self).wf(),
        ensures
            final(self).wf(),
            final(self).src@ == old(self).src@,
            final(self).cursor() == skip(old(self).src@, old(self).cursor(), false),
    {
        let ghost src = self.src@;
        let ghost target = skip(src, self.cursor(), false);
        loop
            invariant
                self.wf(),
                self.src@ == src,
                skip(src, self.cursor(), false) == target,
            ensures
                self.cursor() == target,
            decreases src.len() - self.pos,
        {
            let ghost p_iter = self.pos;
            loop
                invariant
                    self.wf(),
                    self.src@ == src,
                    skip(src, self.cursor(), false) == target,
                    self.pos >= p_iter,
                ensures
                    self.pos < src.len() ==> !is_space(src[self.pos as int]),
                decreases src.len() - self.pos,
            {
                let c = self.peek();
                match c {
                    Some(ch) => {
                        if char_is_whitespace(ch) {
                            self.advance();
                        } else {
                            break;
                        }
                    },
                    None => {
                        break;
                    },
                }
            }
            let slash1 = match self.peek() {
                Some(ch) => ch == '/',
                None => false,
            };
            let slash2 = match self.peek2() {
                Some(ch) => ch == '/',
                None => false,
            };
            let slash3 = match self.peek3() {
                Some(ch) => ch == '/',
                None => false,
            };
            if slash1 && slash2 && !slash3 {
                let ghost p0 = self.pos;
                loop
                    invariant
                        self.wf(),
                        self.src@ == src,
                        skip(src, self.cursor(), true) == target,
                        self.pos >= p0,
                        p0 < src.len(),
                        src[p0 as int] == '/',
                    ensures
                        skip(src, self.cursor(), false) == target,
                        self.pos > p0,
                    decreases src.len() - self.pos,
                {
                    let c = self.peek();
                    match c {
                        Some(ch) => {
                            if ch != '\n' {
                                self.advance();
                            } else {
                                break;
                            }
                        },
                        None => {
                            break;
                        },
                    }
                }
            } else {
                break;
            }
        }
    }

    fn spanned(&self, node: Token, line: usize, col: usize) -> (r: SpannedToken)
        ensures
            r.node == node,
            r.line == line,
            r.col == col,
    {
        Spanned { node, line, col }
    }

    /// Reads the run of identifier characters at the cursor.
    fn read_ident(&mut self) -> (r: String)
        requires
            old(self).wf(),
        ensures
            final(self).wf(),
            final(self).src@ == old(self).src@,
            final(self).cursor() == walk(
                old(self).src@,
                old(self).cursor(),
                ident_end(old(self).src@, old(self).pos as nat),
            ),
            r@ == old(self).src@.subrange(
                old(self).pos as int,
                ident_end(old(self).src@, old(self).pos as nat) as int,
            ),
            final(self).pos == ident_end(old(self).src@, old(self).pos as nat),
    {
        let ghost src = self.src@;
        let ghost c0 = self.cursor();
        let ghost e = ident_end(src, self.pos as nat);
        proof {
            lemma_ident_end_ge(src, self.pos as nat);
        }
        let mut s = String::new();
        loop
            invariant
                self.wf(),
                self.src@ == src,
                c0.pos <= self.pos <= e <= src.len(),
                ident_end(src, self.pos as nat) == e,
                walk(src, self.cursor(), e) == walk(src, c0, e),
                s@ == src.subrange(c0.pos as int, self.pos as int),
            ensures
                self.pos == e,
            decreases src.len() - self.pos,
        {
            let c = self.peek();
            match c {
                Some(ch) => {
                    if char_is_alphanumeric(ch) || ch == '_' {
                        proof {
                            lemma_ident_end_ge(src, self.pos as nat);
                            lemma_walk_step(src, self.cursor(), e);
                        }
                        push_char(&mut s, ch);
                        self.advance();
                        assert(s@ =~= src.subrange(c0.pos as int, self.pos as int));
                    } else {
                        break;
                    }
                },
                None => {
                    break;
                },
            }
        }
        s
    }

    /// Reads a number literal at the cursor (which is on a digit).
    fn read_number(&mut self, line: usize, col: usize) -> (r: Result<SpannedToken, String>)
        requires
            old(self).wf(),
        ensures
            final(self).wf(),
            final(self).src@ == old(self).src@,
            ({
                let src = old(self).src@;
                let e = num_end(src, old(self).pos as nat);
                match (r, number_tok(src.subrange(old(self).pos as int, e as int))) {
                    (Ok(t), Ok(tk)) => t.node@ == tk && t.line == line && t.col == col
                        && final(self).cursor() == walk(src, old(self).cursor(), e),
                    (Err(m), Err(msg)) => m@ == msg,
                    _ => false,
                }
            }),
    {
        let ghost src = self.src@;
        let ghost c0 = self.cursor();
        let ghost e = num_end(src, self.pos as nat);
        proof {
            lemma_num_end_ge(src, self.pos as nat);
        }
        let mut buf: Vec<char> = Vec::new();
        let mut ndots: usize = 0;
        loop
            invariant
                self.wf(),
                self.src@ == src,
                c0.pos <= self.pos <= e <= src.len(),
                num_end(src, self.pos as nat) == e,
                walk(src, self.cursor(), e) == walk(src, c0, e),
                buf@ == src.subrange(c0.pos as int, self.pos as int),
                ndots == dots(buf@),
                ndots <= buf@.len(),
            ensures
                self.pos == e,
            decreases src.len() - self.pos,
        {
            let c = self.peek();
            match c {
                Some(ch) => {
                    let next_digit = match self.peek2() {
                        Some(d) => is_ascii_digit(d),
                        None => false,
                    };
                    if is_ascii_digit(ch) || (ch == '.' && next_digit) {
                        proof {
                            lemma_num_end_ge(src, self.pos as nat);
                            if !is_digit(ch) {
                                lemma_num_end_ge(src, self.pos as nat + 1);
                            }
                            lemma_walk_step(src, self.cursor(), e);
                        }
                        let ghost prev = buf@;
                        buf.push(ch);
                        if ch == '.' {
                            ndots = ndots + 1;
                        }
                        self.advance();
                        assert(buf@.drop_last() =~= prev);
                        assert(buf@ =~= src.subrange(c0.pos as int, self.pos as int));
                    } else {
                        break;
                    }
                },
                None => {
                    break;
                },
            }
        }
        let text = string_of(&buf);
        proof {
            reveal_strlit("Invalid float '");
            reveal_strlit("': invalid float literal");
            reveal_strlit("Invalid integer '");
            reveal_strlit("': number too large to fit in target type");
        }
        if ndots >= 2 {
            let mut m = String::new();
            m.append("Invalid float '");
            m.append(text.as_str());
            m.append("': invalid float literal");
            return Err(m);
        }
        if ndots == 1 {
            return Ok(self.spanned(Token::FloatLit(text), line, col));
        }
        let mut v: u64 = 0;
        let mut big = false;
        let mut k: usize = 0;
        while k < buf.len()
            invariant
                0 <= k <= buf@.len(),
                !big ==> v == digits_value(buf@.subrange(0, k as int)) && v <= i64::MAX,
                big ==> digits_value(buf@.subrange(0, k as int)) > i64::MAX,
            decreases buf.len() - k,
        {
            let d = digit_val(buf[k]);
            proof {
                assert(buf@.subrange(0, k as int + 1).drop_last() =~= buf@.subrange(0, k as int));
            }
            if !big {
                if v > (9223372036854775807u64 - d) / 10 {
                    big = true;
                } else {
                    v = v * 10 + d;
                }
            }
            k = k + 1;
        }
        proof {
            assert(buf@.subrange(0, buf@.len() as int) =~= buf@);
        }
        if big {
            let mut m = String::new();
            m.append("Invalid integer '");
            m.append(text.as_str());
            m.append("': number too large to fit in target type");
            return Err(m);
        }
        Ok(self.spanned(Token::IntLit(v as i64), line, col))
    }

    /// Reads a string literal; the cursor is on the opening quote.
    fn read_string(&mut self, line: usize, col: usize) -> (r: Result<SpannedToken, String>)
        requires
            old(self).wf(),
            old(self).pos < old(self).src@.len(),
            old(self).src@[old(self).pos as int] == '"',
        ensures
            final(self).wf(),
            final(self).src@ == old(self).src@,
            final(self).pos > old(self).pos,
            ({
                let src = old(self).src@;
                match (r, str_body(src, old(self).pos as nat + 1)) {
                    (Ok(t), StrScan::Done(s, e)) => t.node@ == Tok::StringLit(s) && t.line == line
                        && t.col == col && final(self).cursor() == walk(src, old(self).cursor(), e),
                    (Err(m), StrScan::NoClose) => m@ == "Unterminated string at line "@ + decimal(
                        line as nat,
                    ),
                    (Err(m), StrScan::BadEscape) => m@ == "Unterminated escape"@,
                    _ => false,
                }
            }),
    {
        let ghost src = self.src@;
        let ghost c0 = self.cursor();
        let ghost whole = str_body(src, self.pos as nat + 1);
        self.advance();
        let mut s = String::new();
        proof {
            reveal_strlit("Unterminated string at line ");
            reveal_strlit("Unterminated escape");
            assert(s@ + seq![] =~= seq![]);
            match str_body(src, self.pos as nat) {
                StrScan::Done(t, e) => assert(s@ + t =~= t),
                _ => {},
            }
        }
        proof {
            lemma_str_body_end(src, self.pos as nat);
            match str_body(src, self.pos as nat) {
                StrScan::Done(_, e) => lemma_walk_step(src, c0, e),
                _ => {},
            }
        }
        loop
            invariant_except_break
                whole == prefixed(s@, str_body(src, self.pos as nat)),
                match str_body(src, self.pos as nat) {
                    StrScan::Done(_, e) => walk(src, c0, e) == walk(src, self.cursor(), e)
                        && self.pos < e <= src.len(),
                    _ => true,
                },
            invariant
                self.wf(),
                self.src@ == src,
                src == old(self).src@,
                c0 == old(self).cursor(),
                whole == str_body(src, c0.pos + 1),
                self.pos > c0.pos,
            ensures
                whole == StrScan::Done(s@, self.pos as nat),
                self.cursor() == walk(src, c0, self.pos as nat),
            decreases src.len() - self.pos,
        {
            let ghost here = self.cursor();
            proof {
                lemma_str_body_end(src, self.pos as nat);
                lemma_str_body_end(src, self.pos as nat + 1);
                lemma_str_body_end(src, self.pos as nat + 2);
                match str_body(src, self.pos as nat) {
                    StrScan::Done(_, e) => {
                        if self.pos < src.len() {
                            lemma_walk_step(src, self.cursor(), e);
                            if self.pos + 1 < e && src[self.pos as int] == '\\' {
                                lemma_walk_step(src, step(src, self.cursor()), e);
                            }
                        }
                    },
                    _ => {},
                }
            }
            match self.advance() {
                None => {
                    let mut m = String::new();
                    m.append("Unterminated string at line ");
                    push_decimal(&mut m, line as u64);
                    return Err(m);
                },
                Some(ch) => {
                    if ch == '"' {
                        proof {
                            assert(s@ + seq![] =~= s@);
                        }
                        break;
                    } else if ch == '\\' {
                        match self.advance() {
                            None => {
                                let mut m = String::new();
                                m.append("Unterminated escape");
                                return Err(m);
                            },
                            Some(e) => {
                                let u = if e == 'n' {
                                    '\n'
                                } else if e == 't' {
                                    '\t'
                                } else {
                                    e
                                };
                                let ghost prev = s@;
                                push_char(&mut s, u);
                                proof {
                                    match str_body(src, self.pos as nat) {
                                        StrScan::Done(t, en) => {
                                            assert(prev + (seq![u] + t) =~= s@ + t);
                                        },
                                        _ => {},
                                    }
                                }
                            },
                        }
                    } else {
                        let ghost prev = s@;
                        push_char(&mut s, ch);
                        proof {
                            match str_body(src, self.pos as nat) {
                                StrScan::Done(t, en) => {
                                    assert(prev + (seq![ch] + t) =~= s@ + t);
                                },
                                _ => {},
                            }
                        }
                    }
                },
            }
        }
        proof {
            assert(s@ + seq![] =~= s@);
        }
        Ok(self.spanned(Token::StringLit(s), line, col))
    }

    /// Reads a `///` documentation line; the cursor is on the first `/`.
    fn read_doc(&mut self, line: usize, col: usize) -> (r: SpannedToken)
        requires
            old(self).wf(),
            is_doc_comment(old(self).src@, old(self).pos as nat),
        ensures
            final(self).wf(),
            final(self).src@ == old(self).src@,
            final(self).pos > old(self).pos,
            ({
                let src = old(self).src@;
                let e = line_end(src, old(self).pos as nat);
                &&& r.node@ == Tok::DocComment(src.subrange(old(self).pos + 3, e as int))
                &&& r.line == line
                &&& r.col == col
                &&& final(self).cursor() == walk(src, old(self).cursor(), e)
            }),
    {
        let ghost src = self.src@;
        let ghost c0 = self.cursor();
        let ghost e = line_end(src, self.pos as nat);
        proof {
            lemma_line_end_ge(src, self.pos as nat);
            lemma_line_end_ge(src, self.pos as nat + 1);
            lemma_line_end_ge(src, self.pos as nat + 2);
            lemma_line_end_ge(src, self.pos as nat + 3);
            assert(line_end(src, self.pos as nat) == line_end(src, self.pos as nat + 3));
            lemma_walk_step(src, c0, e);
            lemma_walk_step(src, step(src, c0), e);
            lemma_walk_step(src, step(src, step(src, c0)), e);
        }
        self.advance();
        self.advance();
        self.advance();
        let mut buf: Vec<char> = Vec::new();
        loop
            invariant
                self.wf(),
                self.src@ == src,
                c0.pos + 3 <= self.pos <= e <= src.len(),
                line_end(src, self.pos as nat) == e,
                walk(src, self.cursor(), e) == walk(src, c0, e),
                buf@ == src.subrange(c0.pos + 3int, self.pos as int),
            ensures
                self.pos == e,
            decreases src.len() - self.pos,
        {
            let c = self.peek();
            match c {
                Some(ch) => {
                    if ch != '\n' {
                        proof {
                            lemma_line_end_ge(src, self.pos as nat);
                            lemma_walk_step(src, self.cursor(), e);
                        }
                        buf.push(ch);
                        self.advance();
                        assert(buf@ =~= src.subrange(c0.pos + 3int, self.pos as int));
                    } else {
                        break;
                    }
                },
                None => {
                    break;
                },
            }
        }
        self.spanned(Token::DocComment(string_of(&buf)), line, col)
    }

    /// The next token after white space and comments.
    fn next_token(&mut self) -> (r: Result<SpannedToken, String>)
        requires
            old(self).wf(),
        ensures
            final(self).wf(),
            final(self).src@ == old(self).src@,
            match (r, next_tok(old(self).src@, old(self).cursor())) {
                (Ok(t), Ok((st, c2))) => stok(&t) == st && final(self).cursor() == c2,
                (Err(e), Err(m)) => e@ == m,
                _ => false,
            },
            r is Ok && !(r->Ok_0.node@ is EOF) ==> final(self).pos > old(self).pos,
    {
        let ghost src = self.src@;
        self.skip_whitespace_and_comments();
        proof {
            lemma_skip_pos(src, old(self).cursor(), false);
        }
        let line = self.line;
        let col = self.col;
        let ghost c = self.cursor();
        let ghost p = self.pos as nat;
        let ch = match self.peek() {
            None => {
                return Ok(self.spanned(Token::EOF, line, col));
            },
            Some(ch) => ch,
        };
        if ch == '"' {
            return self.read_string(line, col);
        }
        let s2 = match self.peek2() {
            Some(d) => d == '/',
            None => false,
        };
        let s3 = match self.peek3() {
            Some(d) => d == '/',
            None => false,
        };
        if ch == '/' && s2 && s3 {
            return Ok(self.read_doc(line, col));
        }
        if ch == '@' {
            self.advance();
            let kw = self.read_ident();
            proof {
                reveal_strlit("Unknown annotation @");
                reveal_strlit(" at line ");
                lemma_ident_end_ge(src, p + 1);
            }
            let tok = if text_is(&kw, "gpu") {
                Token::AtGpu
            } else if text_is(&kw, "cpu") {
                Token::AtCpu
            } else {
                let mut m = String::new();
                m.append("Unknown annotation @");
                m.append(kw.as_str());
                m.append(" at line ");
                push_decimal(&mut m, line as u64);
                return Err(m);
            };
            return Ok(self.spanned(tok, line, col));
        }
        if is_ascii_digit(ch) {
            proof {
                lemma_num_end_ge(src, p);
                lemma_walk_pos(src, c, num_end(src, p));
            }
            return self.read_number(line, col);
        }
        if char_is_alphabetic(ch) || ch == '_' {
            proof {
                lemma_ident_end_ge(src, p);
                lemma_walk_pos(src, c, ident_end(src, p));
            }
            let ident = self.read_ident();
            let tok = match Token::keyword(&ident) {
                Some(k) => k,
                None => Token::Ident(ident),
            };
            return Ok(self.spanned(tok, line, col));
        }
        self.advance();
        let n = self.peek();
        let tok = if ch == '+' {
            Token::Plus
        } else if ch == '*' {
            Token::Star
        } else if ch == '%' {
            Token::Percent
        } else if ch == '.' {
            if n == Some('.') {
                self.advance();
                Token::DotDot
            } else {
                Token::Dot
            }
        } else if ch == ',' {
            Token::Comma
        } else if ch == ';' {
            Token::Semicolon
        } else if ch == ':' {
            Token::Colon
        } else if ch == '(' {
            Token::LParen
        } else if ch == ')' {
            Token::RParen
        } else if ch == '{' {
            Token::LBrace
        } else if ch == '}' {
            Token::RBrace
        } else if ch == '[' {
            Token::LBracket
        } else if ch == ']' {
            Token::RBracket
        } else if ch == '-' {
            if n == Some('>') {
                self.advance();
                Token::Arrow
            } else {
                Token::Minus
            }
        } else if ch == '/' {
            Token::Slash
        } else if ch == '=' {
            if n == Some('=') {
                self.advance();
                Token::EqEq
            } else {
                Token::Eq
            }
        } else if ch == '!' {
            if n == Some('=') {
                self.advance();
                Token::BangEq
            } else {
                Token::Bang
            }
        } else if ch == '<' {
            if n == Some('=') {
                self.advance();
                Token::LtEq
            } else {
                Token::Lt
            }
        } else if ch == '>' {
            if n == Some('=') {
                self.advance();
                Token::GtEq
            } else {
                Token::Gt
            }
        } else if ch == '&' {
            if n == Some('&') {
                self.advance();
                Token::AndAnd
            } else {
                proof {
                    reveal_strlit("Unexpected '&'");
                }
                let mut m = String::new();
                m.append("Unexpected '&'");
                push_at_line_col(&mut m, line, col);
                return Err(m);
            }
        } else if ch == '|' {
            if n == Some('|') {
                self.advance();
                Token::OrOr
            } else {
                proof {
                    reveal_strlit("Unexpected '|'");
                }
                let mut m = String::new();
                m.append("Unexpected '|'");
                push_at_line_col(&mut m, line, col);
                return Err(m);
            }
        } else {
            proof {
                reveal_strlit("Unexpected character '");
                reveal_strlit("'");
            }
            let mut m = String::new();
            m.append("Unexpected character '");
            push_char(&mut m, ch);
            m.append("'");
            push_at_line_col(&mut m, line, col);
            assert(m@ =~= punct_error(ch, line as nat, col as nat));
            return Err(m);
        };
        proof {
            if self.pos == p + 1 {
                lemma_walk_step(src, c, p + 1);
            } else {
                lemma_walk_step(src, c, p + 2);
                lemma_walk_step(src, step(src, c), p + 2);
            }
        }
        Ok(self.spanned(tok, line, col))
    }
}


// ── Laws of string literals ─────────────────────────────────────────────────

proof fn lemma_prefixed_prefixed(a: Seq<char>, b: Seq<char>, r: StrScan)
    ensures
        prefixed(a, prefixed(b, r)) == prefixed(a + b, r),
{
    match r {
        StrScan::Done(s, e) => {
            assert(a + (b + s) =~= (a + b) + s);
        },
        _ => {},
    }
}

proof fn lemma_plain_run(src: Seq<char>, i: nat, j: nat)
    requires
        i <= j <= src.len(),
        forall|k: int| i <= k < j ==> src[k] != '"' && src[k] != '\\',
    ensures
        str_body(src, i) == prefixed(src.subrange(i as int, j as int), str_body(src, j)),
    decreases j - i,
{
    if i == j {
        assert(src.subrange(i as int, j as int) =~= Seq::<char>::empty());
        match str_body(src, j) {
            StrScan::Done(s, e) => assert(Seq::<char>::empty() + s =~= s),
            _ => {},
        }
    } else {
        lemma_plain_run(src, i + 1, j);
        lemma_prefixed_prefixed(seq![src[i as int]], src.subrange(i + 1int, j as int), str_body(src, j));
        assert(seq![src[i as int]] + src.subrange(i + 1int, j as int) =~= src.subrange(i as int, j as int));
    }
}

/// Inside a string literal, characters other than `"` and `\` stand for
/// themselves, and the closing `"` ends the literal just after it.
pub proof fn law_string_plain_text(src: Seq<char>, i: nat, j: nat)
    requires
        i <= j < src.len(),
        forall|k: int| i <= k < j ==> src[k] != '"' && src[k] != '\\',
        src[j as int] == '"',
    ensures
        str_body(src, i) == StrScan::Done(src.subrange(i as int, j as int), j + 1),
{
    lemma_plain_run(src, i, j);
    assert(src.subrange(i as int, j as int) + Seq::<char>::empty() =~= src.subrange(i as int, j as int));
}

/// Inside a string literal, `\t` stands for a tab, `\n` for a line feed and
/// `\` followed by any other character for that character; the literal goes
/// on after the two characters of the escape.
pub proof fn law_string_escapes(src: Seq<char>, i: nat, j: nat)
    requires
        i <= j,
        j + 1 < src.len(),
        forall|k: int| i <= k < j ==> src[k] != '"' && src[k] != '\\',
        src[j as int] == '\\',
    ensures
        src[j + 1int] == 't' ==> str_body(src, i) == prefixed(src.subrange(i as int, j as int).push('\t'), str_body(src, j + 2)),
        src[j + 1int] == 'n' ==> str_body(src, i) == prefixed(src.subrange(i as int, j as int).push('\n'), str_body(src, j + 2)),
        src[j + 1int] != 't' && src[j + 1int] != 'n' ==> str_body(src, i) == prefixed(
            src.subrange(i as int, j as int).push(src[j + 1int]),
            str_body(src, j + 2),
        ),
{
    lemma_plain_run(src, i, j);
    let x = unescape(src[j + 1int]);
    assert(str_body(src, j) == prefixed(seq![x], str_body(src, j + 2)));
    lemma_prefixed_prefixed(src.subrange(i as int, j as int), seq![x], str_body(src, j + 2));
    assert(src.subrange(i as int, j as int) + seq![x] =~= src.subrange(i as int, j as int).push(x));
}

/// A string literal whose text runs to the end of the source without a
/// closing `"` is unclosed; one whose text ends right after a `\` has a bad
/// escape.
pub proof fn law_string_needs_its_close(src: Seq<char>, i: nat)
    requires
        i <= src.len(),
        forall|k: int| i <= k < src.len() - 1 ==> src[k] != '"' && src[k] != '\\',
    ensures
        src.len() > i && src.last() == '\\' ==> str_body(src, i) == StrScan::BadEscape,
        (src.len() == i || (src.last() != '"' && src.last() != '\\')) ==> str_body(src, i) == StrScan::NoClose,
{
    if src.len() > i {
        let j = (src.len() - 1) as nat;
        lemma_plain_run(src, i, j);
        if src.last() != '"' && src.last() != '\\' {
            lemma_plain_run(src, i, src.len());
        }
    }
}

} // verus!
