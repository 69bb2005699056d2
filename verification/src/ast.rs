use vstd::prelude::*;

verus! {

/// Unary operators.
#[derive(Copy, Clone, PartialEq, Eq, Debug, Structural)]
pub enum UnOp {
    Neg,
    BitNot,
    LogicNot,
}

/// Binary operators.
#[derive(Copy, Clone, PartialEq, Eq, Debug, Structural)]
pub enum BinOp {
    Add,
    Sub,
    Mul,
    Div,
    Rem,
    BitAnd,
    BitOr,
    BitXor,
    BitShl,
    BitShr,
    Eq,
    NotEq,
    Less,
    LessEq,
    Greater,
    GreaterEq,
    LogicAnd,
    LogicOr,
}

/// Assignment operators: plain `=` or a compound `op=`.
#[derive(Copy, Clone, PartialEq, Eq, Debug, Structural)]
pub enum AssignOp {
    Assign,
    Bin(BinOp),
}

/// Built-in types named by a keyword.
#[derive(Copy, Clone, PartialEq, Eq, Debug, Structural)]
pub enum BasicType {
    S8,
    S16,
    S32,
    S64,
    Ssize,
    U8,
    U16,
    U32,
    U64,
    Usize,
    F32,
    F64,
    Bool,
    Bool16,
    Bool32,
    Bool64,
    String,
    CString,
    Char,
    Void,
    Never,
    Rawptr,
}

/// Binding power of a binary operator; higher binds tighter.
pub open spec fn spec_prec(op: BinOp) -> u32 {
    match op {
        BinOp::LogicOr => 1,
        BinOp::LogicAnd => 2,
        BinOp::Eq | BinOp::NotEq | BinOp::Less | BinOp::LessEq | BinOp::Greater
        | BinOp::GreaterEq => 3,
        BinOp::Add | BinOp::Sub | BinOp::BitOr | BinOp::BitXor => 4,
        BinOp::Mul | BinOp::Div | BinOp::Rem | BinOp::BitAnd | BinOp::BitShl | BinOp::BitShr => 5,
    }
}

impl BinOp {
    pub fn prec(self) -> (r: u32)
        ensures
            r == spec_prec(self),
            1 <= r <= 5,
    {
        match self {
            BinOp::LogicOr => 1,
            BinOp::LogicAnd => 2,
            BinOp::Eq | BinOp::NotEq | BinOp::Less | BinOp::LessEq | BinOp::Greater
            | BinOp::GreaterEq => 3,
            BinOp::Add | BinOp::Sub | BinOp::BitOr | BinOp::BitXor => 4,
            BinOp::Mul | BinOp::Div | BinOp::Rem | BinOp::BitAnd | BinOp::BitShl
            | BinOp::BitShr => 5,
        }
    }
}

/// The operator as it is written.
pub open spec fn un_op_text(x: UnOp) -> Seq<char> {
    match x {
        UnOp::Neg => "-"@,
        UnOp::BitNot => "~"@,
        UnOp::LogicNot => "!"@,
    }
}

impl UnOp {
    /// The operator as it is written.
    pub fn as_str(self) -> (r: &'static str)
        ensures
            r@ == un_op_text(self),
    {
        proof {
            reveal_strlit("-");
            reveal_strlit("~");
            reveal_strlit("!");
        }
        match self {
            UnOp::Neg => "-",
            UnOp::BitNot => "~",
            UnOp::LogicNot => "!",
        }
    }
}

/// The operator as it is written.
pub open spec fn bin_op_text(x: BinOp) -> Seq<char> {
    match x {
        BinOp::Add => "+"@,
        BinOp::Sub => "-"@,
        BinOp::Mul => "*"@,
        BinOp::Div => "/"@,
        BinOp::Rem => "%"@,
        BinOp::BitAnd => "&"@,
        BinOp::BitOr => "|"@,
        BinOp::BitXor => "^"@,
        BinOp::BitShl => "<<"@,
        BinOp::BitShr => ">>"@,
        BinOp::Eq => "=="@,
        BinOp::NotEq => "!="@,
        BinOp::Less => "<"@,
        BinOp::LessEq => "<="@,
        BinOp::Greater => ">"@,
        BinOp::GreaterEq => ">="@,
        BinOp::LogicAnd => "&&"@,
        BinOp::LogicOr => "||"@,
    }
}

impl BinOp {
    /// The operator as it is written.
    pub fn as_str(self) -> (r: &'static str)
        ensures
            r@ == bin_op_text(self),
    {
        proof {
            reveal_strlit("+");
            reveal_strlit("-");
            reveal_strlit("*");
            reveal_strlit("/");
            reveal_strlit("%");
            reveal_strlit("&");
            reveal_strlit("|");
            reveal_strlit("^");
            reveal_strlit("<<");
            reveal_strlit(">>");
            reveal_strlit("==");
            reveal_strlit("!=");
            reveal_strlit("<");
            reveal_strlit("<=");
            reveal_strlit(">");
            reveal_strlit(">=");
            reveal_strlit("&&");
            reveal_strlit("||");
        }
        match self {
            BinOp::Add => "+",
            BinOp::Sub => "-",
            BinOp::Mul => "*",
            BinOp::Div => "/",
            BinOp::Rem => "%",
            BinOp::BitAnd => "&",
            BinOp::BitOr => "|",
            BinOp::BitXor => "^",
            BinOp::BitShl => "<<",
            BinOp::BitShr => ">>",
            BinOp::Eq => "==",
            BinOp::NotEq => "!=",
            BinOp::Less => "<",
            BinOp::LessEq => "<=",
            BinOp::Greater => ">",
            BinOp::GreaterEq => ">=",
            BinOp::LogicAnd => "&&",
            BinOp::LogicOr => "||",
        }
    }
}

/// The type as it is written.
pub open spec fn basic_type_text(x: BasicType) -> Seq<char> {
    match x {
        BasicType::S8 => "s8"@,
        BasicType::S16 => "s16"@,
        BasicType::S32 => "s32"@,
        BasicType::S64 => "s64"@,
        BasicType::Ssize => "ssize"@,
        BasicType::U8 => "u8"@,
        BasicType::U16 => "u16"@,
        BasicType::U32 => "u32"@,
        BasicType::U64 => "u64"@,
        BasicType::Usize => "usize"@,
        BasicType::F32 => "f32"@,
        BasicType::F64 => "f64"@,
        BasicType::Bool => "bool"@,
        BasicType::Bool16 => "bool16"@,
        BasicType::Bool32 => "bool32"@,
        BasicType::Bool64 => "bool64"@,
        BasicType::String => "string"@,
        BasicType::CString => "cstring"@,
        BasicType::Char => "char"@,
        BasicType::Void => "void"@,
        BasicType::Never => "never"@,
        BasicType::Rawptr => "rawptr"@,
    }
}

impl BasicType {
    /// The type as it is written.
    pub fn as_str(self) -> (r: &'static str)
        ensures
            r@ == basic_type_text(self),
    {
        proof {
            reveal_strlit("s8");
            reveal_strlit("s16");
            reveal_strlit("s32");
            reveal_strlit("s64");
            reveal_strlit("ssize");
            reveal_strlit("u8");
            reveal_strlit("u16");
            reveal_strlit("u32");
            reveal_strlit("u64");
            reveal_strlit("usize");
            reveal_strlit("f32");
            reveal_strlit("f64");
            reveal_strlit("bool");
            reveal_strlit("bool16");
            reveal_strlit("bool32");
            reveal_strlit("bool64");
            reveal_strlit("string");
            reveal_strlit("cstring");
            reveal_strlit("char");
            reveal_strlit("void");
            reveal_strlit("never");
            reveal_strlit("rawptr");
        }
        match self {
            BasicType::S8 => "s8",
            BasicType::S16 => "s16",
            BasicType::S32 => "s32",
            BasicType::S64 => "s64",
            BasicType::Ssize => "ssize",
            BasicType::U8 => "u8",
            BasicType::U16 => "u16",
            BasicType::U32 => "u32",
            BasicType::U64 => "u64",
            BasicType::Usize => "usize",
            BasicType::F32 => "f32",
            BasicType::F64 => "f64",
            BasicType::Bool => "bool",
            BasicType::Bool16 => "bool16",
            BasicType::Bool32 => "bool32",
            BasicType::Bool64 => "bool64",
            BasicType::String => "string",
            BasicType::CString => "cstring",
            BasicType::Char => "char",
            BasicType::Void => "void",
            BasicType::Never => "never",
            BasicType::Rawptr => "rawptr",
        }
    }
}

} // verus!
