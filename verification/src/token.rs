use vstd::prelude::*;
use crate::ast::{AssignOp, BasicType, BinOp, UnOp};

verus! {

/// Lexical token kinds of the language.
#[derive(Copy, Clone, PartialEq, Eq, Debug, Structural)]
pub enum Token {
    Eof,
    Ident,
    IntLit,
    FloatLit,
    CharLit,
    StringLit,
    KwProc,
    KwEnum,
    KwStruct,
    KwImport,
    KwBreak,
    KwContinue,
    KwReturn,
    KwDefer,
    KwFor,
    KwIn,
    KwLet,
    KwMut,
    KwZeroed,
    KwUndefined,
    KwNull,
    KwTrue,
    KwFalse,
    KwIf,
    KwElse,
    KwMatch,
    KwAs,
    KwDiscard,
    KwS8,
    KwS16,
    KwS32,
    KwS64,
    KwSsize,
    KwU8,
    KwU16,
    KwU32,
    KwU64,
    KwUsize,
    KwF32,
    KwF64,
    KwBool,
    KwBool16,
    KwBool32,
    KwBool64,
    KwString,
    KwCstring,
    KwChar,
    KwVoid,
    KwNever,
    KwRawptr,
    Dot,
    Comma,
    Colon,
    Semicolon,
    Hash,
    At,
    ParenOpen,
    ParenClose,
    BracketOpen,
    BracketClose,
    BlockOpen,
    BlockClose,
    DotDot,
    ArrowThin,
    Range,
    RangeInc,
    Tilde,
    Bang,
    Plus,
    Minus,
    Star,
    ForwSlash,
    Percent,
    Ampersand,
    Pipe,
    Caret,
    Shl,
    Shr,
    Eq,
    NotEq,
    Less,
    LessEq,
    Greater,
    GreaterEq,
    LogicAnd,
    LogicOr,
    Equals,
    AssignAdd,
    AssignSub,
    AssignMul,
    AssignDiv,
    AssignRem,
    AssignBitAnd,
    AssignBitOr,
    AssignBitXor,
    AssignShl,
    AssignShr,
}

/// Number of token kinds.
pub const TOKEN_COUNT: u8 = 97;

/// The position of a token kind in the declaration order of `Token`.
pub open spec fn token_index(t: Token) -> u8 {
    match t {
        Token::Eof => 0,
        Token::Ident => 1,
        Token::IntLit => 2,
        Token::FloatLit => 3,
        Token::CharLit => 4,
        Token::StringLit => 5,
        Token::KwProc => 6,
        Token::KwEnum => 7,
        Token::KwStruct => 8,
        Token::KwImport => 9,
        Token::KwBreak => 10,
        Token::KwContinue => 11,
        Token::KwReturn => 12,
        Token::KwDefer => 13,
        Token::KwFor => 14,
        Token::KwIn => 15,
        Token::KwLet => 16,
        Token::KwMut => 17,
        Token::KwZeroed => 18,
        Token::KwUndefined => 19,
        Token::KwNull => 20,
        Token::KwTrue => 21,
        Token::KwFalse => 22,
        Token::KwIf => 23,
        Token::KwElse => 24,
        Token::KwMatch => 25,
        Token::KwAs => 26,
        Token::KwDiscard => 27,
        Token::KwS8 => 28,
        Token::KwS16 => 29,
        Token::KwS32 => 30,
        Token::KwS64 => 31,
        Token::KwSsize => 32,
        Token::KwU8 => 33,
        Token::KwU16 => 34,
        Token::KwU32 => 35,
        Token::KwU64 => 36,
        Token::KwUsize => 37,
        Token::KwF32 => 38,
        Token::KwF64 => 39,
        Token::KwBool => 40,
        Token::KwBool16 => 41,
        Token::KwBool32 => 42,
        Token::KwBool64 => 43,
        Token::KwString => 44,
        Token::KwCstring => 45,
        Token::KwChar => 46,
        Token::KwVoid => 47,
        Token::KwNever => 48,
        Token::KwRawptr => 49,
        Token::Dot => 50,
        Token::Comma => 51,
        Token::Colon => 52,
        Token::Semicolon => 53,
        Token::Hash => 54,
        Token::At => 55,
        Token::ParenOpen => 56,
        Token::ParenClose => 57,
        Token::BracketOpen => 58,
        Token::BracketClose => 59,
        Token::BlockOpen => 60,
        Token::BlockClose => 61,
        Token::DotDot => 62,
        Token::ArrowThin => 63,
        Token::Range => 64,
        Token::RangeInc => 65,
        Token::Tilde => 66,
        Token::Bang => 67,
        Token::Plus => 68,
        Token::Minus => 69,
        Token::Star => 70,
        Token::ForwSlash => 71,
        Token::Percent => 72,
        Token::Ampersand => 73,
        Token::Pipe => 74,
        Token::Caret => 75,
        Token::Shl => 76,
        Token::Shr => 77,
        Token::Eq => 78,
        Token::NotEq => 79,
        Token::Less => 80,
        Token::LessEq => 81,
        Token::Greater => 82,
        Token::GreaterEq => 83,
        Token::LogicAnd => 84,
        Token::LogicOr => 85,
        Token::Equals => 86,
        Token::AssignAdd => 87,
        Token::AssignSub => 88,
        Token::AssignMul => 89,
        Token::AssignDiv => 90,
        Token::AssignRem => 91,
        Token::AssignBitAnd => 92,
        Token::AssignBitOr => 93,
        Token::AssignBitXor => 94,
        Token::AssignShl => 95,
        Token::AssignShr => 96,
    }
}

/// A token kind of fixed spelling covers as many bytes of source as its spelling has
/// characters.
pub proof fn law_normal_len_is_spelling_len(t: Token)
    requires
        token_index(t) >= 6,
    ensures
        normal_token_len(t) == token_text(t).len(),
{
    reveal_strlit("end of file");
    reveal_strlit("identifier");
    reveal_strlit("int literal");
    reveal_strlit("float literal");
    reveal_strlit("char literal");
    reveal_strlit("string literal");
    reveal_strlit("proc");
    reveal_strlit("enum");
    reveal_strlit("struct");
    reveal_strlit("import");
    reveal_strlit("break");
    reveal_strlit("continue");
    reveal_strlit("return");
    reveal_strlit("defer");
    reveal_strlit("for");
    reveal_strlit("in");
    reveal_strlit("let");
    reveal_strlit("mut");
    reveal_strlit("zeroed");
    reveal_strlit("undefined");
    reveal_strlit("null");
    reveal_strlit("true");
    reveal_strlit("false");
    reveal_strlit("if");
    reveal_strlit("else");
    reveal_strlit("match");
    reveal_strlit("as");
    reveal_strlit("_");
    reveal_strlit("s8");
    reveal_strlit("s16");
    reveal_strlit("s32");
    reveal_strlit("s64");
    reveal_strlit("ssize");
    reveal_strlit("u8");
    reveal_strlit("u16");
    reveal_strlit("u32");
    reveal_strlit("u64");
    reveal_strlit("usize");
    reveal_strlit("f32");
    reveal_strlit("f64");
    reveal_strlit("bool");
    reveal_strlit("bool16");
    reveal_strlit("bool32");
    reveal_strlit("bool64");
    reveal_strlit("string");
    reveal_strlit("cstring");
    reveal_strlit("char");
    reveal_strlit("void");
    reveal_strlit("never");
    reveal_strlit("rawptr");
    reveal_strlit(".");
    reveal_strlit(",");
    reveal_strlit(":");
    reveal_strlit(";");
    reveal_strlit("#");
    reveal_strlit("@");
    reveal_strlit("(");
    reveal_strlit(")");
    reveal_strlit("[");
    reveal_strlit("]");
    reveal_strlit("{");
    reveal_strlit("}");
    reveal_strlit("..");
    reveal_strlit("->");
    reveal_strlit("..<");
    reveal_strlit("..=");
    reveal_strlit("~");
    reveal_strlit("!");
    reveal_strlit("+");
    reveal_strlit("-");
    reveal_strlit("*");
    reveal_strlit("/");
    reveal_strlit("%");
    reveal_strlit("&");
    reveal_strlit("|");
    reveal_strlit("^");
    reveal_strlit("<<");
    reveal_strlit(">>");
    reveal_strlit("==");
    reveal_strlit("!=");
    reveal_strlit("<");
    reveal_strlit("<=");
    reveal_strlit(">");
    reveal_strlit(">=");
    reveal_strlit("&&");
    reveal_strlit("||");
    reveal_strlit("=");
    reveal_strlit("+=");
    reveal_strlit("-=");
    reveal_strlit("*=");
    reveal_strlit("/=");
    reveal_strlit("%=");
    reveal_strlit("&=");
    reveal_strlit("|=");
    reveal_strlit("^=");
    reveal_strlit("<<=");
    reveal_strlit(">>=");
}

/// The text of a token kind, or its description for the special kinds.
pub open spec fn token_text(t: Token) -> Seq<char> {
    match t {
        Token::Eof => "end of file"@,
        Token::Ident => "identifier"@,
        Token::IntLit => "int literal"@,
        Token::FloatLit => "float literal"@,
        Token::CharLit => "char literal"@,
        Token::StringLit => "string literal"@,
        Token::KwProc => "proc"@,
        Token::KwEnum => "enum"@,
        Token::KwStruct => "struct"@,
        Token::KwImport => "import"@,
        Token::KwBreak => "break"@,
        Token::KwContinue => "continue"@,
        Token::KwReturn => "return"@,
        Token::KwDefer => "defer"@,
        Token::KwFor => "for"@,
        Token::KwIn => "in"@,
        Token::KwLet => "let"@,
        Token::KwMut => "mut"@,
        Token::KwZeroed => "zeroed"@,
        Token::KwUndefined => "undefined"@,
        Token::KwNull => "null"@,
        Token::KwTrue => "true"@,
        Token::KwFalse => "false"@,
        Token::KwIf => "if"@,
        Token::KwElse => "else"@,
        Token::KwMatch => "match"@,
        Token::KwAs => "as"@,
        Token::KwDiscard => "_"@,
        Token::KwS8 => "s8"@,
        Token::KwS16 => "s16"@,
        Token::KwS32 => "s32"@,
        Token::KwS64 => "s64"@,
        Token::KwSsize => "ssize"@,
        Token::KwU8 => "u8"@,
        Token::KwU16 => "u16"@,
        Token::KwU32 => "u32"@,
        Token::KwU64 => "u64"@,
        Token::KwUsize => "usize"@,
        Token::KwF32 => "f32"@,
        Token::KwF64 => "f64"@,
        Token::KwBool => "bool"@,
        Token::KwBool16 => "bool16"@,
        Token::KwBool32 => "bool32"@,
        Token::KwBool64 => "bool64"@,
        Token::KwString => "string"@,
        Token::KwCstring => "cstring"@,
        Token::KwChar => "char"@,
        Token::KwVoid => "void"@,
        Token::KwNever => "never"@,
        Token::KwRawptr => "rawptr"@,
        Token::Dot => "."@,
        Token::Comma => ","@,
        Token::Colon => ":"@,
        Token::Semicolon => ";"@,
        Token::Hash => "#"@,
        Token::At => "@"@,
        Token::ParenOpen => "("@,
        Token::ParenClose => ")"@,
        Token::BracketOpen => "["@,
        Token::BracketClose => "]"@,
        Token::BlockOpen => "{"@,
        Token::BlockClose => "}"@,
        Token::DotDot => ".."@,
        Token::ArrowThin => "->"@,
        Token::Range => "..<"@,
        Token::RangeInc => "..="@,
        Token::Tilde => "~"@,
        Token::Bang => "!"@,
        Token::Plus => "+"@,
        Token::Minus => "-"@,
        Token::Star => "*"@,
        Token::ForwSlash => "/"@,
        Token::Percent => "%"@,
        Token::Ampersand => "&"@,
        Token::Pipe => "|"@,
        Token::Caret => "^"@,
        Token::Shl => "<<"@,
        Token::Shr => ">>"@,
        Token::Eq => "=="@,
        Token::NotEq => "!="@,
        Token::Less => "<"@,
        Token::LessEq => "<="@,
        Token::Greater => ">"@,
        Token::GreaterEq => ">="@,
        Token::LogicAnd => "&&"@,
        Token::LogicOr => "||"@,
        Token::Equals => "="@,
        Token::AssignAdd => "+="@,
        Token::AssignSub => "-="@,
        Token::AssignMul => "*="@,
        Token::AssignDiv => "/="@,
        Token::AssignRem => "%="@,
        Token::AssignBitAnd => "&="@,
        Token::AssignBitOr => "|="@,
        Token::AssignBitXor => "^="@,
        Token::AssignShl => "<<="@,
        Token::AssignShr => ">>="@,
    }
}

/// Byte length of the source text of a token kind; 0 for the special kinds.
pub open spec fn normal_token_len(t: Token) -> u32 {
    match t {
        Token::Eof => 0,
        Token::Ident => 0,
        Token::IntLit => 0,
        Token::FloatLit => 0,
        Token::CharLit => 0,
        Token::StringLit => 0,
        Token::KwProc => 4,
        Token::KwEnum => 4,
        Token::KwStruct => 6,
        Token::KwImport => 6,
        Token::KwBreak => 5,
        Token::KwContinue => 8,
        Token::KwReturn => 6,
        Token::KwDefer => 5,
        Token::KwFor => 3,
        Token::KwIn => 2,
        Token::KwLet => 3,
        Token::KwMut => 3,
        Token::KwZeroed => 6,
        Token::KwUndefined => 9,
        Token::KwNull => 4,
        Token::KwTrue => 4,
        Token::KwFalse => 5,
        Token::KwIf => 2,
        Token::KwElse => 4,
        Token::KwMatch => 5,
        Token::KwAs => 2,
        Token::KwDiscard => 1,
        Token::KwS8 => 2,
        Token::KwS16 => 3,
        Token::KwS32 => 3,
        Token::KwS64 => 3,
        Token::KwSsize => 5,
        Token::KwU8 => 2,
        Token::KwU16 => 3,
        Token::KwU32 => 3,
        Token::KwU64 => 3,
        Token::KwUsize => 5,
        Token::KwF32 => 3,
        Token::KwF64 => 3,
        Token::KwBool => 4,
        Token::KwBool16 => 6,
        Token::KwBool32 => 6,
        Token::KwBool64 => 6,
        Token::KwString => 6,
        Token::KwCstring => 7,
        Token::KwChar => 4,
        Token::KwVoid => 4,
        Token::KwNever => 5,
        Token::KwRawptr => 6,
        Token::Dot => 1,
        Token::Comma => 1,
        Token::Colon => 1,
        Token::Semicolon => 1,
        Token::Hash => 1,
        Token::At => 1,
        Token::ParenOpen => 1,
        Token::ParenClose => 1,
        Token::BracketOpen => 1,
        Token::BracketClose => 1,
        Token::BlockOpen => 1,
        Token::BlockClose => 1,
        Token::DotDot => 2,
        Token::ArrowThin => 2,
        Token::Range => 3,
        Token::RangeInc => 3,
        Token::Tilde => 1,
        Token::Bang => 1,
        Token::Plus => 1,
        Token::Minus => 1,
        Token::Star => 1,
        Token::ForwSlash => 1,
        Token::Percent => 1,
        Token::Ampersand => 1,
        Token::Pipe => 1,
        Token::Caret => 1,
        Token::Shl => 2,
        Token::Shr => 2,
        Token::Eq => 2,
        Token::NotEq => 2,
        Token::Less => 1,
        Token::LessEq => 2,
        Token::Greater => 1,
        Token::GreaterEq => 2,
        Token::LogicAnd => 2,
        Token::LogicOr => 2,
        Token::Equals => 1,
        Token::AssignAdd => 2,
        Token::AssignSub => 2,
        Token::AssignMul => 2,
        Token::AssignDiv => 2,
        Token::AssignRem => 2,
        Token::AssignBitAnd => 2,
        Token::AssignBitOr => 2,
        Token::AssignBitXor => 2,
        Token::AssignShl => 3,
        Token::AssignShr => 3,
    }
}

pub open spec fn spec_as_un_op(t: Token) -> Option<UnOp> {
    match t {
        Token::Tilde => Some(UnOp::BitNot),
        Token::Bang => Some(UnOp::LogicNot),
        Token::Minus => Some(UnOp::Neg),
        _ => None,
    }
}

pub open spec fn spec_as_bin_op(t: Token) -> Option<BinOp> {
    match t {
        Token::Plus => Some(BinOp::Add),
        Token::Minus => Some(BinOp::Sub),
        Token::Star => Some(BinOp::Mul),
        Token::ForwSlash => Some(BinOp::Div),
        Token::Percent => Some(BinOp::Rem),
        Token::Ampersand => Some(BinOp::BitAnd),
        Token::Pipe => Some(BinOp::BitOr),
        Token::Caret => Some(BinOp::BitXor),
        Token::Shl => Some(BinOp::BitShl),
        Token::Shr => Some(BinOp::BitShr),
        Token::Eq => Some(BinOp::Eq),
        Token::NotEq => Some(BinOp::NotEq),
        Token::Less => Some(BinOp::Less),
        Token::LessEq => Some(BinOp::LessEq),
        Token::Greater => Some(BinOp::Greater),
        Token::GreaterEq => Some(BinOp::GreaterEq),
        Token::LogicAnd => Some(BinOp::LogicAnd),
        Token::LogicOr => Some(BinOp::LogicOr),
        _ => None,
    }
}

pub open spec fn spec_as_assign_op(t: Token) -> Option<AssignOp> {
    match t {
        Token::Equals => Some(AssignOp::Assign),
        Token::AssignAdd => Some(AssignOp::Bin(BinOp::Add)),
        Token::AssignSub => Some(AssignOp::Bin(BinOp::Sub)),
        Token::AssignMul => Some(AssignOp::Bin(BinOp::Mul)),
        Token::AssignDiv => Some(AssignOp::Bin(BinOp::Div)),
        Token::AssignRem => Some(AssignOp::Bin(BinOp::Rem)),
        Token::AssignBitAnd => Some(AssignOp::Bin(BinOp::BitAnd)),
        Token::AssignBitOr => Some(AssignOp::Bin(BinOp::BitOr)),
        Token::AssignBitXor => Some(AssignOp::Bin(BinOp::BitXor)),
        Token::AssignShl => Some(AssignOp::Bin(BinOp::BitShl)),
        Token::AssignShr => Some(AssignOp::Bin(BinOp::BitShr)),
        _ => None,
    }
}

pub open spec fn spec_as_basic_type(t: Token) -> Option<BasicType> {
    match t {
        Token::KwS8 => Some(BasicType::S8),
        Token::KwS16 => Some(BasicType::S16),
        Token::KwS32 => Some(BasicType::S32),
        Token::KwS64 => Some(BasicType::S64),
        Token::KwSsize => Some(BasicType::Ssize),
        Token::KwU8 => Some(BasicType::U8),
        Token::KwU16 => Some(BasicType::U16),
        Token::KwU32 => Some(BasicType::U32),
        Token::KwU64 => Some(BasicType::U64),
        Token::KwUsize => Some(BasicType::Usize),
        Token::KwF32 => Some(BasicType::F32),
        Token::KwF64 => Some(BasicType::F64),
        Token::KwBool => Some(BasicType::Bool),
        Token::KwBool16 => Some(BasicType::Bool16),
        Token::KwBool32 => Some(BasicType::Bool32),
        Token::KwBool64 => Some(BasicType::Bool64),
        Token::KwString => Some(BasicType::String),
        Token::KwCstring => Some(BasicType::CString),
        Token::KwChar => Some(BasicType::Char),
        Token::KwVoid => Some(BasicType::Void),
        Token::KwNever => Some(BasicType::Never),
        Token::KwRawptr => Some(BasicType::Rawptr),
        _ => None,
    }
}

pub open spec fn spec_as_bool(t: Token) -> Option<bool> {
    match t {
        Token::KwTrue => Some(true),
        Token::KwFalse => Some(false),
        _ => None,
    }
}

/// The token of a single ASCII punctuation character, `Eof` for any other byte.
pub open spec fn spec_byte_to_single(c: u8) -> Token {
    if c == 46 {
        Token::Dot
    }
     else if c == 44 {
        Token::Comma
    }
     else if c == 58 {
        Token::Colon
    }
     else if c == 59 {
        Token::Semicolon
    }
     else if c == 35 {
        Token::Hash
    }
     else if c == 64 {
        Token::At
    }
     else if c == 40 {
        Token::ParenOpen
    }
     else if c == 41 {
        Token::ParenClose
    }
     else if c == 91 {
        Token::BracketOpen
    }
     else if c == 93 {
        Token::BracketClose
    }
     else if c == 123 {
        Token::BlockOpen
    }
     else if c == 125 {
        Token::BlockClose
    }
     else if c == 126 {
        Token::Tilde
    }
     else if c == 33 {
        Token::Bang
    }
     else if c == 43 {
        Token::Plus
    }
     else if c == 45 {
        Token::Minus
    }
     else if c == 42 {
        Token::Star
    }
     else if c == 47 {
        Token::ForwSlash
    }
     else if c == 37 {
        Token::Percent
    }
     else if c == 38 {
        Token::Ampersand
    }
     else if c == 124 {
        Token::Pipe
    }
     else if c == 94 {
        Token::Caret
    }
     else if c == 60 {
        Token::Less
    }
     else if c == 62 {
        Token::Greater
    }
     else if c == 61 {
        Token::Equals
    }
 else {
        Token::Eof
    }
}

pub open spec fn spec_glue_double(c: u8, t: Token) -> Token {
    if c == 46 {
        match t {
            Token::Dot => Token::DotDot,
            _ => t,
        }
    } else if c == 62 {
        match t {
            Token::Minus => Token::ArrowThin,
            Token::Greater => Token::Shr,
            _ => t,
        }
    } else if c == 60 {
        match t {
            Token::Less => Token::Shl,
            _ => t,
        }
    } else if c == 38 {
        match t {
            Token::Ampersand => Token::LogicAnd,
            _ => t,
        }
    } else if c == 124 {
        match t {
            Token::Pipe => Token::LogicOr,
            _ => t,
        }
    } else if c == 61 {
        match t {
            Token::Plus => Token::AssignAdd,
            Token::Minus => Token::AssignSub,
            Token::Star => Token::AssignMul,
            Token::ForwSlash => Token::AssignDiv,
            Token::Percent => Token::AssignRem,
            Token::Ampersand => Token::AssignBitAnd,
            Token::Pipe => Token::AssignBitOr,
            Token::Caret => Token::AssignBitXor,
            Token::Equals => Token::Eq,
            Token::Bang => Token::NotEq,
            Token::Less => Token::LessEq,
            Token::Greater => Token::GreaterEq,
            _ => t,
        }
    } else {
        t
    }
}

pub open spec fn spec_glue_triple(c: u8, t: Token) -> Token {
    if c == 60 {
        match t {
            Token::DotDot => Token::Range,
            _ => t,
        }
    } else if c == 61 {
        match t {
            Token::DotDot => Token::RangeInc,
            Token::Shl => Token::AssignShl,
            Token::Shr => Token::AssignShr,
            _ => t,
        }
    } else {
        t
    }
}

impl Token {
    /// Position of the kind in the declaration order.
    pub fn index(self) -> (r: u8)
        ensures
            r == token_index(self),
            r < TOKEN_COUNT,
    {
        match self {
            Token::Eof => 0,
            Token::Ident => 1,
            Token::IntLit => 2,
            Token::FloatLit => 3,
            Token::CharLit => 4,
            Token::StringLit => 5,
            Token::KwProc => 6,
            Token::KwEnum => 7,
            Token::KwStruct => 8,
            Token::KwImport => 9,
            Token::KwBreak => 10,
            Token::KwContinue => 11,
            Token::KwReturn => 12,
            Token::KwDefer => 13,
            Token::KwFor => 14,
            Token::KwIn => 15,
            Token::KwLet => 16,
            Token::KwMut => 17,
            Token::KwZeroed => 18,
            Token::KwUndefined => 19,
            Token::KwNull => 20,
            Token::KwTrue => 21,
            Token::KwFalse => 22,
            Token::KwIf => 23,
            Token::KwElse => 24,
            Token::KwMatch => 25,
            Token::KwAs => 26,
            Token::KwDiscard => 27,
            Token::KwS8 => 28,
            Token::KwS16 => 29,
            Token::KwS32 => 30,
            Token::KwS64 => 31,
            Token::KwSsize => 32,
            Token::KwU8 => 33,
            Token::KwU16 => 34,
            Token::KwU32 => 35,
            Token::KwU64 => 36,
            Token::KwUsize => 37,
            Token::KwF32 => 38,
            Token::KwF64 => 39,
            Token::KwBool => 40,
            Token::KwBool16 => 41,
            Token::KwBool32 => 42,
            Token::KwBool64 => 43,
            Token::KwString => 44,
            Token::KwCstring => 45,
            Token::KwChar => 46,
            Token::KwVoid => 47,
            Token::KwNever => 48,
            Token::KwRawptr => 49,
            Token::Dot => 50,
            Token::Comma => 51,
            Token::Colon => 52,
            Token::Semicolon => 53,
            Token::Hash => 54,
            Token::At => 55,
            Token::ParenOpen => 56,
            Token::ParenClose => 57,
            Token::BracketOpen => 58,
            Token::BracketClose => 59,
            Token::BlockOpen => 60,
            Token::BlockClose => 61,
            Token::DotDot => 62,
            Token::ArrowThin => 63,
            Token::Range => 64,
            Token::RangeInc => 65,
            Token::Tilde => 66,
            Token::Bang => 67,
            Token::Plus => 68,
            Token::Minus => 69,
            Token::Star => 70,
            Token::ForwSlash => 71,
            Token::Percent => 72,
            Token::Ampersand => 73,
            Token::Pipe => 74,
            Token::Caret => 75,
            Token::Shl => 76,
            Token::Shr => 77,
            Token::Eq => 78,
            Token::NotEq => 79,
            Token::Less => 80,
            Token::LessEq => 81,
            Token::Greater => 82,
            Token::GreaterEq => 83,
            Token::LogicAnd => 84,
            Token::LogicOr => 85,
            Token::Equals => 86,
            Token::AssignAdd => 87,
            Token::AssignSub => 88,
            Token::AssignMul => 89,
            Token::AssignDiv => 90,
            Token::AssignRem => 91,
            Token::AssignBitAnd => 92,
            Token::AssignBitOr => 93,
            Token::AssignBitXor => 94,
            Token::AssignShl => 95,
            Token::AssignShr => 96,
        }
    }

    pub fn as_str(self) -> (r: &'static str)
        ensures
            r@ == token_text(self),
    {
        proof {
            reveal_strlit("end of file");
            reveal_strlit("identifier");
            reveal_strlit("int literal");
            reveal_strlit("float literal");
            reveal_strlit("char literal");
            reveal_strlit("string literal");
            reveal_strlit("proc");
            reveal_strlit("enum");
            reveal_strlit("struct");
            reveal_strlit("import");
            reveal_strlit("break");
            reveal_strlit("continue");
            reveal_strlit("return");
            reveal_strlit("defer");
            reveal_strlit("for");
            reveal_strlit("in");
            reveal_strlit("let");
            reveal_strlit("mut");
            reveal_strlit("zeroed");
            reveal_strlit("undefined");
            reveal_strlit("null");
            reveal_strlit("true");
            reveal_strlit("false");
            reveal_strlit("if");
            reveal_strlit("else");
            reveal_strlit("match");
            reveal_strlit("as");
            reveal_strlit("_");
            reveal_strlit("s8");
            reveal_strlit("s16");
            reveal_strlit("s32");
            reveal_strlit("s64");
            reveal_strlit("ssize");
            reveal_strlit("u8");
            reveal_strlit("u16");
            reveal_strlit("u32");
            reveal_strlit("u64");
            reveal_strlit("usize");
            reveal_strlit("f32");
            reveal_strlit("f64");
            reveal_strlit("bool");
            reveal_strlit("bool16");
            reveal_strlit("bool32");
            reveal_strlit("bool64");
            reveal_strlit("string");
            reveal_strlit("cstring");
            reveal_strlit("char");
            reveal_strlit("void");
            reveal_strlit("never");
            reveal_strlit("rawptr");
            reveal_strlit(".");
            reveal_strlit(",");
            reveal_strlit(":");
            reveal_strlit(";");
            reveal_strlit("#");
            reveal_strlit("@");
            reveal_strlit("(");
            reveal_strlit(")");
            reveal_strlit("[");
            reveal_strlit("]");
            reveal_strlit("{");
            reveal_strlit("}");
            reveal_strlit("..");
            reveal_strlit("->");
            reveal_strlit("..<");
            reveal_strlit("..=");
            reveal_strlit("~");
            reveal_strlit("!");
            reveal_strlit("+");
            reveal_strlit("-");
            reveal_strlit("*");
            reveal_strlit("/");
            reveal_strlit("%");
            reveal_strlit("&");
            reveal_strlit("|");
            reveal_strlit("^");
            reveal_strlit("<<");
            reveal_strlit(">>");
            reveal_strlit("==");
            reveal_strlit("!=");
            reveal_strlit("<");
            reveal_strlit("<=");
            reveal_strlit(">");
            reveal_strlit(">=");
            reveal_strlit("&&");
            reveal_strlit("||");
            reveal_strlit("=");
            reveal_strlit("+=");
            reveal_strlit("-=");
            reveal_strlit("*=");
            reveal_strlit("/=");
            reveal_strlit("%=");
            reveal_strlit("&=");
            reveal_strlit("|=");
            reveal_strlit("^=");
            reveal_strlit("<<=");
            reveal_strlit(">>=");
        }
        match self {
            Token::Eof => "end of file",
            Token::Ident => "identifier",
            Token::IntLit => "int literal",
            Token::FloatLit => "float literal",
            Token::CharLit => "char literal",
            Token::StringLit => "string literal",
            Token::KwProc => "proc",
            Token::KwEnum => "enum",
            Token::KwStruct => "struct",
            Token::KwImport => "import",
            Token::KwBreak => "break",
            Token::KwContinue => "continue",
            Token::KwReturn => "return",
            Token::KwDefer => "defer",
            Token::KwFor => "for",
            Token::KwIn => "in",
            Token::KwLet => "let",
            Token::KwMut => "mut",
            Token::KwZeroed => "zeroed",
            Token::KwUndefined => "undefined",
            Token::KwNull => "null",
            Token::KwTrue => "true",
            Token::KwFalse => "false",
            Token::KwIf => "if",
            Token::KwElse => "else",
            Token::KwMatch => "match",
            Token::KwAs => "as",
            Token::KwDiscard => "_",
            Token::KwS8 => "s8",
            Token::KwS16 => "s16",
            Token::KwS32 => "s32",
            Token::KwS64 => "s64",
            Token::KwSsize => "ssize",
            Token::KwU8 => "u8",
            Token::KwU16 => "u16",
            Token::KwU32 => "u32",
            Token::KwU64 => "u64",
            Token::KwUsize => "usize",
            Token::KwF32 => "f32",
            Token::KwF64 => "f64",
            Token::KwBool => "bool",
            Token::KwBool16 => "bool16",
            Token::KwBool32 => "bool32",
            Token::KwBool64 => "bool64",
            Token::KwString => "string",
            Token::KwCstring => "cstring",
            Token::KwChar => "char",
            Token::KwVoid => "void",
            Token::KwNever => "never",
            Token::KwRawptr => "rawptr",
            Token::Dot => ".",
            Token::Comma => ",",
            Token::Colon => ":",
            Token::Semicolon => ";",
            Token::Hash => "#",
            Token::At => "@",
            Token::ParenOpen => "(",
            Token::ParenClose => ")",
            Token::BracketOpen => "[",
            Token::BracketClose => "]",
            Token::BlockOpen => "{",
            Token::BlockClose => "}",
            Token::DotDot => "..",
            Token::ArrowThin => "->",
            Token::Range => "..<",
            Token::RangeInc => "..=",
            Token::Tilde => "~",
            Token::Bang => "!",
            Token::Plus => "+",
            Token::Minus => "-",
            Token::Star => "*",
            Token::ForwSlash => "/",
            Token::Percent => "%",
            Token::Ampersand => "&",
            Token::Pipe => "|",
            Token::Caret => "^",
            Token::Shl => "<<",
            Token::Shr => ">>",
            Token::Eq => "==",
            Token::NotEq => "!=",
            Token::Less => "<",
            Token::LessEq => "<=",
            Token::Greater => ">",
            Token::GreaterEq => ">=",
            Token::LogicAnd => "&&",
            Token::LogicOr => "||",
            Token::Equals => "=",
            Token::AssignAdd => "+=",
            Token::AssignSub => "-=",
            Token::AssignMul => "*=",
            Token::AssignDiv => "/=",
            Token::AssignRem => "%=",
            Token::AssignBitAnd => "&=",
            Token::AssignBitOr => "|=",
            Token::AssignBitXor => "^=",
            Token::AssignShl => "<<=",
            Token::AssignShr => ">>=",
        }
    }

    /// Byte length of the source text of a non-special token kind.
    pub fn normal_len(self) -> (r: u32)
        ensures
            r == normal_token_len(self),
    {
        match self {
            Token::Eof => 0,
            Token::Ident => 0,
            Token::IntLit => 0,
            Token::FloatLit => 0,
            Token::CharLit => 0,
            Token::StringLit => 0,
            Token::KwProc => 4,
            Token::KwEnum => 4,
            Token::KwStruct => 6,
            Token::KwImport => 6,
            Token::KwBreak => 5,
            Token::KwContinue => 8,
            Token::KwReturn => 6,
            Token::KwDefer => 5,
            Token::KwFor => 3,
            Token::KwIn => 2,
            Token::KwLet => 3,
            Token::KwMut => 3,
            Token::KwZeroed => 6,
            Token::KwUndefined => 9,
            Token::KwNull => 4,
            Token::KwTrue => 4,
            Token::KwFalse => 5,
            Token::KwIf => 2,
            Token::KwElse => 4,
            Token::KwMatch => 5,
            Token::KwAs => 2,
            Token::KwDiscard => 1,
            Token::KwS8 => 2,
            Token::KwS16 => 3,
            Token::KwS32 => 3,
            Token::KwS64 => 3,
            Token::KwSsize => 5,
            Token::KwU8 => 2,
            Token::KwU16 => 3,
            Token::KwU32 => 3,
            Token::KwU64 => 3,
            Token::KwUsize => 5,
            Token::KwF32 => 3,
            Token::KwF64 => 3,
            Token::KwBool => 4,
            Token::KwBool16 => 6,
            Token::KwBool32 => 6,
            Token::KwBool64 => 6,
            Token::KwString => 6,
            Token::KwCstring => 7,
            Token::KwChar => 4,
            Token::KwVoid => 4,
            Token::KwNever => 5,
            Token::KwRawptr => 6,
            Token::Dot => 1,
            Token::Comma => 1,
            Token::Colon => 1,
            Token::Semicolon => 1,
            Token::Hash => 1,
            Token::At => 1,
            Token::ParenOpen => 1,
            Token::ParenClose => 1,
            Token::BracketOpen => 1,
            Token::BracketClose => 1,
            Token::BlockOpen => 1,
            Token::BlockClose => 1,
            Token::DotDot => 2,
            Token::ArrowThin => 2,
            Token::Range => 3,
            Token::RangeInc => 3,
            Token::Tilde => 1,
            Token::Bang => 1,
            Token::Plus => 1,
            Token::Minus => 1,
            Token::Star => 1,
            Token::ForwSlash => 1,
            Token::Percent => 1,
            Token::Ampersand => 1,
            Token::Pipe => 1,
            Token::Caret => 1,
            Token::Shl => 2,
            Token::Shr => 2,
            Token::Eq => 2,
            Token::NotEq => 2,
            Token::Less => 1,
            Token::LessEq => 2,
            Token::Greater => 1,
            Token::GreaterEq => 2,
            Token::LogicAnd => 2,
            Token::LogicOr => 2,
            Token::Equals => 1,
            Token::AssignAdd => 2,
            Token::AssignSub => 2,
            Token::AssignMul => 2,
            Token::AssignDiv => 2,
            Token::AssignRem => 2,
            Token::AssignBitAnd => 2,
            Token::AssignBitOr => 2,
            Token::AssignBitXor => 2,
            Token::AssignShl => 3,
            Token::AssignShr => 3,
        }
    }

    pub fn as_un_op(self) -> (r: Option<UnOp>)
        ensures
            r == spec_as_un_op(self),
    {
        match self {
            Token::Tilde => Some(UnOp::BitNot),
            Token::Bang => Some(UnOp::LogicNot),
            Token::Minus => Some(UnOp::Neg),
            _ => None,
        }
    }

    pub fn as_bin_op(self) -> (r: Option<BinOp>)
        ensures
            r == spec_as_bin_op(self),
    {
        match self {
            Token::Plus => Some(BinOp::Add),
            Token::Minus => Some(BinOp::Sub),
            Token::Star => Some(BinOp::Mul),
            Token::ForwSlash => Some(BinOp::Div),
            Token::Percent => Some(BinOp::Rem),
            Token::Ampersand => Some(BinOp::BitAnd),
            Token::Pipe => Some(BinOp::BitOr),
            Token::Caret => Some(BinOp::BitXor),
            Token::Shl => Some(BinOp::BitShl),
            Token::Shr => Some(BinOp::BitShr),
            Token::Eq => Some(BinOp::Eq),
            Token::NotEq => Some(BinOp::NotEq),
            Token::Less => Some(BinOp::Less),
            Token::LessEq => Some(BinOp::LessEq),
            Token::Greater => Some(BinOp::Greater),
            Token::GreaterEq => Some(BinOp::GreaterEq),
            Token::LogicAnd => Some(BinOp::LogicAnd),
            Token::LogicOr => Some(BinOp::LogicOr),
            _ => None,
        }
    }

    pub fn as_assign_op(self) -> (r: Option<AssignOp>)
        ensures
            r == spec_as_assign_op(self),
    {
        match self {
            Token::Equals => Some(AssignOp::Assign),
            Token::AssignAdd => Some(AssignOp::Bin(BinOp::Add)),
            Token::AssignSub => Some(AssignOp::Bin(BinOp::Sub)),
            Token::AssignMul => Some(AssignOp::Bin(BinOp::Mul)),
            Token::AssignDiv => Some(AssignOp::Bin(BinOp::Div)),
            Token::AssignRem => Some(AssignOp::Bin(BinOp::Rem)),
            Token::AssignBitAnd => Some(AssignOp::Bin(BinOp::BitAnd)),
            Token::AssignBitOr => Some(AssignOp::Bin(BinOp::BitOr)),
            Token::AssignBitXor => Some(AssignOp::Bin(BinOp::BitXor)),
            Token::AssignShl => Some(AssignOp::Bin(BinOp::BitShl)),
            Token::AssignShr => Some(AssignOp::Bin(BinOp::BitShr)),
            _ => None,
        }
    }

    pub fn as_basic_type(self) -> (r: Option<BasicType>)
        ensures
            r == spec_as_basic_type(self),
    {
        match self {
            Token::KwS8 => Some(BasicType::S8),
            Token::KwS16 => Some(BasicType::S16),
            Token::KwS32 => Some(BasicType::S32),
            Token::KwS64 => Some(BasicType::S64),
            Token::KwSsize => Some(BasicType::Ssize),
            Token::KwU8 => Some(BasicType::U8),
            Token::KwU16 => Some(BasicType::U16),
            Token::KwU32 => Some(BasicType::U32),
            Token::KwU64 => Some(BasicType::U64),
            Token::KwUsize => Some(BasicType::Usize),
            Token::KwF32 => Some(BasicType::F32),
            Token::KwF64 => Some(BasicType::F64),
            Token::KwBool => Some(BasicType::Bool),
            Token::KwBool16 => Some(BasicType::Bool16),
            Token::KwBool32 => Some(BasicType::Bool32),
            Token::KwBool64 => Some(BasicType::Bool64),
            Token::KwString => Some(BasicType::String),
            Token::KwCstring => Some(BasicType::CString),
            Token::KwChar => Some(BasicType::Char),
            Token::KwVoid => Some(BasicType::Void),
            Token::KwNever => Some(BasicType::Never),
            Token::KwRawptr => Some(BasicType::Rawptr),
            _ => None,
        }
    }

    pub fn as_bool(self) -> (r: Option<bool>)
        ensures
            r == spec_as_bool(self),
    {
        match self {
            Token::KwTrue => Some(true),
            Token::KwFalse => Some(false),
            _ => None,
        }
    }

    /// The token of a single punctuation character.
    pub fn from_char(c: char) -> (r: Option<Token>)
        ensures
            (c as u32) < 128 && spec_byte_to_single(c as u8) != Token::Eof ==> r == Some(spec_byte_to_single(c as u8)),
            !((c as u32) < 128 && spec_byte_to_single(c as u8) != Token::Eof) ==> r is None,
    {
        match c {
            '.' => Some(Token::Dot),
            ',' => Some(Token::Comma),
            ':' => Some(Token::Colon),
            ';' => Some(Token::Semicolon),
            '#' => Some(Token::Hash),
            '@' => Some(Token::At),
            '(' => Some(Token::ParenOpen),
            ')' => Some(Token::ParenClose),
            '[' => Some(Token::BracketOpen),
            ']' => Some(Token::BracketClose),
            '{' => Some(Token::BlockOpen),
            '}' => Some(Token::BlockClose),
            '~' => Some(Token::Tilde),
            '!' => Some(Token::Bang),
            '+' => Some(Token::Plus),
            '-' => Some(Token::Minus),
            '*' => Some(Token::Star),
            '/' => Some(Token::ForwSlash),
            '%' => Some(Token::Percent),
            '&' => Some(Token::Ampersand),
            '|' => Some(Token::Pipe),
            '^' => Some(Token::Caret),
            '<' => Some(Token::Less),
            '>' => Some(Token::Greater),
            '=' => Some(Token::Equals),
            _ => None,
        }
    }

    /// Table lookup of a single punctuation byte; `Eof` when the byte is no token.
    pub fn from_byte(c: u8) -> (r: Token)
        ensures
            r == spec_byte_to_single(c),
    {
        if c == 46 {
            Token::Dot
        }
         else if c == 44 {
            Token::Comma
        }
         else if c == 58 {
            Token::Colon
        }
         else if c == 59 {
            Token::Semicolon
        }
         else if c == 35 {
            Token::Hash
        }
         else if c == 64 {
            Token::At
        }
         else if c == 40 {
            Token::ParenOpen
        }
         else if c == 41 {
            Token::ParenClose
        }
         else if c == 91 {
            Token::BracketOpen
        }
         else if c == 93 {
            Token::BracketClose
        }
         else if c == 123 {
            Token::BlockOpen
        }
         else if c == 125 {
            Token::BlockClose
        }
         else if c == 126 {
            Token::Tilde
        }
         else if c == 33 {
            Token::Bang
        }
         else if c == 43 {
            Token::Plus
        }
         else if c == 45 {
            Token::Minus
        }
         else if c == 42 {
            Token::Star
        }
         else if c == 47 {
            Token::ForwSlash
        }
         else if c == 37 {
            Token::Percent
        }
         else if c == 38 {
            Token::Ampersand
        }
         else if c == 124 {
            Token::Pipe
        }
         else if c == 94 {
            Token::Caret
        }
         else if c == 60 {
            Token::Less
        }
         else if c == 62 {
            Token::Greater
        }
         else if c == 61 {
            Token::Equals
        }
 else {
            Token::Eof
        }
    }

    pub fn glue_double(c: u8, token: Token) -> (r: Token)
        ensures
            r == spec_glue_double(c, token),
    {
        if c == 46 {
            match token {
                Token::Dot => Token::DotDot,
                _ => token,
            }
        } else if c == 62 {
            match token {
                Token::Minus => Token::ArrowThin,
                Token::Greater => Token::Shr,
                _ => token,
            }
        } else if c == 60 {
            match token {
                Token::Less => Token::Shl,
                _ => token,
            }
        } else if c == 38 {
            match token {
                Token::Ampersand => Token::LogicAnd,
                _ => token,
            }
        } else if c == 124 {
            match token {
                Token::Pipe => Token::LogicOr,
                _ => token,
            }
        } else if c == 61 {
            match token {
                Token::Plus => Token::AssignAdd,
                Token::Minus => Token::AssignSub,
                Token::Star => Token::AssignMul,
                Token::ForwSlash => Token::AssignDiv,
                Token::Percent => Token::AssignRem,
                Token::Ampersand => Token::AssignBitAnd,
                Token::Pipe => Token::AssignBitOr,
                Token::Caret => Token::AssignBitXor,
                Token::Equals => Token::Eq,
                Token::Bang => Token::NotEq,
                Token::Less => Token::LessEq,
                Token::Greater => Token::GreaterEq,
                _ => token,
            }
        } else {
            token
        }
    }

    pub fn glue_triple(c: u8, token: Token) -> (r: Token)
        ensures
            r == spec_glue_triple(c, token),
    {
        if c == 60 {
            match token {
                Token::DotDot => Token::Range,
                _ => token,
            }
        } else if c == 61 {
            match token {
                Token::DotDot => Token::RangeInc,
                Token::Shl => Token::AssignShl,
                Token::Shr => Token::AssignShr,
                _ => token,
            }
        } else {
            token
        }
    }

}

} // verus!
