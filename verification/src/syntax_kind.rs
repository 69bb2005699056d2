use vstd::prelude::*;

verus! {

/// Kinds of the nodes of a syntax tree.
#[allow(non_camel_case_types)]
#[derive(Copy, Clone, PartialEq, Eq, Debug, Structural)]
pub enum SyntaxKind {
    ERROR,
    TOMBSTONE,
    SOURCE_FILE,
    PROC_ITEM,
    PARAM_LIST,
    PARAM,
    ENUM_ITEM,
    VARIANT_LIST,
    VARIANT,
    VARIANT_FIELD_LIST,
    VARIANT_FIELD,
    STRUCT_ITEM,
    FIELD_LIST,
    FIELD,
    CONST_ITEM,
    GLOBAL_ITEM,
    IMPORT_ITEM,
    IMPORT_PATH,
    IMPORT_SYMBOL_LIST,
    IMPORT_SYMBOL,
    IMPORT_SYMBOL_RENAME,
    DIRECTIVE_LIST,
    DIRECTIVE_SIMPLE,
    DIRECTIVE_WITH_PARAMS,
    DIRECTIVE_PARAM_LIST,
    DIRECTIVE_PARAM,
    TYPE_BASIC,
    TYPE_CUSTOM,
    TYPE_REFERENCE,
    TYPE_MULTI_REFERENCE,
    TYPE_PROCEDURE,
    PROC_TYPE_PARAM_LIST,
    PROC_TYPE_PARAM,
    TYPE_ARRAY_SLICE,
    TYPE_ARRAY_STATIC,
    BLOCK,
    STMT_BREAK,
    STMT_CONTINUE,
    STMT_RETURN,
    STMT_DEFER,
    STMT_FOR,
    FOR_BIND,
    FOR_HEADER_COND,
    FOR_HEADER_ELEM,
    FOR_HEADER_RANGE,
    FOR_HEADER_PAT,
    STMT_LOCAL,
    STMT_ASSIGN,
    STMT_EXPR_SEMI,
    STMT_EXPR_TAIL,
    STMT_WITH_DIRECTIVE,
    EXPR_PAREN,
    EXPR_IF,
    IF_BRANCH,
    BRANCH_COND,
    BRANCH_PAT,
    EXPR_MATCH,
    MATCH_ARM_LIST,
    MATCH_ARM,
    EXPR_FIELD,
    EXPR_INDEX,
    EXPR_SLICE,
    EXPR_CALL,
    EXPR_CAST,
    EXPR_ITEM,
    EXPR_VARIANT,
    EXPR_STRUCT_INIT,
    FIELD_INIT_LIST,
    FIELD_INIT,
    EXPR_ARRAY_INIT,
    EXPR_ARRAY_REPEAT,
    EXPR_DEREF,
    EXPR_ADDRESS,
    BUILTIN_ERROR,
    BUILTIN_WITH_TYPE,
    BUILTIN_TRANSMUTE,
    EXPR_UNARY,
    EXPR_BINARY,
    PAT_WILD,
    PAT_LIT,
    PAT_ITEM,
    PAT_VARIANT,
    PAT_OR,
    LIT_VOID,
    LIT_NULL,
    LIT_BOOL,
    LIT_INT,
    LIT_FLOAT,
    LIT_CHAR,
    LIT_STRING,
    NAME,
    BIND,
    BIND_LIST,
    ARGS_LIST,
    PATH,
    PATH_SEGMENT,
    POLYMORPH_ARGS,
    POLYMORPH_PARAMS,
}

pub open spec fn syntax_index(k: SyntaxKind) -> u8 {
    match k {
        SyntaxKind::ERROR => 0,
        SyntaxKind::TOMBSTONE => 1,
        SyntaxKind::SOURCE_FILE => 2,
        SyntaxKind::PROC_ITEM => 3,
        SyntaxKind::PARAM_LIST => 4,
        SyntaxKind::PARAM => 5,
        SyntaxKind::ENUM_ITEM => 6,
        SyntaxKind::VARIANT_LIST => 7,
        SyntaxKind::VARIANT => 8,
        SyntaxKind::VARIANT_FIELD_LIST => 9,
        SyntaxKind::VARIANT_FIELD => 10,
        SyntaxKind::STRUCT_ITEM => 11,
        SyntaxKind::FIELD_LIST => 12,
        SyntaxKind::FIELD => 13,
        SyntaxKind::CONST_ITEM => 14,
        SyntaxKind::GLOBAL_ITEM => 15,
        SyntaxKind::IMPORT_ITEM => 16,
        SyntaxKind::IMPORT_PATH => 17,
        SyntaxKind::IMPORT_SYMBOL_LIST => 18,
        SyntaxKind::IMPORT_SYMBOL => 19,
        SyntaxKind::IMPORT_SYMBOL_RENAME => 20,
        SyntaxKind::DIRECTIVE_LIST => 21,
        SyntaxKind::DIRECTIVE_SIMPLE => 22,
        SyntaxKind::DIRECTIVE_WITH_PARAMS => 23,
        SyntaxKind::DIRECTIVE_PARAM_LIST => 24,
        SyntaxKind::DIRECTIVE_PARAM => 25,
        SyntaxKind::TYPE_BASIC => 26,
        SyntaxKind::TYPE_CUSTOM => 27,
        SyntaxKind::TYPE_REFERENCE => 28,
        SyntaxKind::TYPE_MULTI_REFERENCE => 29,
        SyntaxKind::TYPE_PROCEDURE => 30,
        SyntaxKind::PROC_TYPE_PARAM_LIST => 31,
        SyntaxKind::PROC_TYPE_PARAM => 32,
        SyntaxKind::TYPE_ARRAY_SLICE => 33,
        SyntaxKind::TYPE_ARRAY_STATIC => 34,
        SyntaxKind::BLOCK => 35,
        SyntaxKind::STMT_BREAK => 36,
        SyntaxKind::STMT_CONTINUE => 37,
        SyntaxKind::STMT_RETURN => 38,
        SyntaxKind::STMT_DEFER => 39,
        SyntaxKind::STMT_FOR => 40,
        SyntaxKind::FOR_BIND => 41,
        SyntaxKind::FOR_HEADER_COND => 42,
        SyntaxKind::FOR_HEADER_ELEM => 43,
        SyntaxKind::FOR_HEADER_RANGE => 44,
        SyntaxKind::FOR_HEADER_PAT => 45,
        SyntaxKind::STMT_LOCAL => 46,
        SyntaxKind::STMT_ASSIGN => 47,
        SyntaxKind::STMT_EXPR_SEMI => 48,
        SyntaxKind::STMT_EXPR_TAIL => 49,
        SyntaxKind::STMT_WITH_DIRECTIVE => 50,
        SyntaxKind::EXPR_PAREN => 51,
        SyntaxKind::EXPR_IF => 52,
        SyntaxKind::IF_BRANCH => 53,
        SyntaxKind::BRANCH_COND => 54,
        SyntaxKind::BRANCH_PAT => 55,
        SyntaxKind::EXPR_MATCH => 56,
        SyntaxKind::MATCH_ARM_LIST => 57,
        SyntaxKind::MATCH_ARM => 58,
        SyntaxKind::EXPR_FIELD => 59,
        SyntaxKind::EXPR_INDEX => 60,
        SyntaxKind::EXPR_SLICE => 61,
        SyntaxKind::EXPR_CALL => 62,
        SyntaxKind::EXPR_CAST => 63,
        SyntaxKind::EXPR_ITEM => 64,
        SyntaxKind::EXPR_VARIANT => 65,
        SyntaxKind::EXPR_STRUCT_INIT => 66,
        SyntaxKind::FIELD_INIT_LIST => 67,
        SyntaxKind::FIELD_INIT => 68,
        SyntaxKind::EXPR_ARRAY_INIT => 69,
        SyntaxKind::EXPR_ARRAY_REPEAT => 70,
        SyntaxKind::EXPR_DEREF => 71,
        SyntaxKind::EXPR_ADDRESS => 72,
        SyntaxKind::BUILTIN_ERROR => 73,
        SyntaxKind::BUILTIN_WITH_TYPE => 74,
        SyntaxKind::BUILTIN_TRANSMUTE => 75,
        SyntaxKind::EXPR_UNARY => 76,
        SyntaxKind::EXPR_BINARY => 77,
        SyntaxKind::PAT_WILD => 78,
        SyntaxKind::PAT_LIT => 79,
        SyntaxKind::PAT_ITEM => 80,
        SyntaxKind::PAT_VARIANT => 81,
        SyntaxKind::PAT_OR => 82,
        SyntaxKind::LIT_VOID => 83,
        SyntaxKind::LIT_NULL => 84,
        SyntaxKind::LIT_BOOL => 85,
        SyntaxKind::LIT_INT => 86,
        SyntaxKind::LIT_FLOAT => 87,
        SyntaxKind::LIT_CHAR => 88,
        SyntaxKind::LIT_STRING => 89,
        SyntaxKind::NAME => 90,
        SyntaxKind::BIND => 91,
        SyntaxKind::BIND_LIST => 92,
        SyntaxKind::ARGS_LIST => 93,
        SyntaxKind::PATH => 94,
        SyntaxKind::PATH_SEGMENT => 95,
        SyntaxKind::POLYMORPH_ARGS => 96,
        SyntaxKind::POLYMORPH_PARAMS => 97,
    }
}

impl SyntaxKind {
    /// Position of the kind in the declaration order.
    pub fn index(self) -> (r: u8)
        ensures
            r == syntax_index(self),
            r < 128,
    {
        match self {
            SyntaxKind::ERROR => 0,
            SyntaxKind::TOMBSTONE => 1,
            SyntaxKind::SOURCE_FILE => 2,
            SyntaxKind::PROC_ITEM => 3,
            SyntaxKind::PARAM_LIST => 4,
            SyntaxKind::PARAM => 5,
            SyntaxKind::ENUM_ITEM => 6,
            SyntaxKind::VARIANT_LIST => 7,
            SyntaxKind::VARIANT => 8,
            SyntaxKind::VARIANT_FIELD_LIST => 9,
            SyntaxKind::VARIANT_FIELD => 10,
            SyntaxKind::STRUCT_ITEM => 11,
            SyntaxKind::FIELD_LIST => 12,
            SyntaxKind::FIELD => 13,
            SyntaxKind::CONST_ITEM => 14,
            SyntaxKind::GLOBAL_ITEM => 15,
            SyntaxKind::IMPORT_ITEM => 16,
            SyntaxKind::IMPORT_PATH => 17,
            SyntaxKind::IMPORT_SYMBOL_LIST => 18,
            SyntaxKind::IMPORT_SYMBOL => 19,
            SyntaxKind::IMPORT_SYMBOL_RENAME => 20,
            SyntaxKind::DIRECTIVE_LIST => 21,
            SyntaxKind::DIRECTIVE_SIMPLE => 22,
            SyntaxKind::DIRECTIVE_WITH_PARAMS => 23,
            SyntaxKind::DIRECTIVE_PARAM_LIST => 24,
            SyntaxKind::DIRECTIVE_PARAM => 25,
            SyntaxKind::TYPE_BASIC => 26,
            SyntaxKind::TYPE_CUSTOM => 27,
            SyntaxKind::TYPE_REFERENCE => 28,
            SyntaxKind::TYPE_MULTI_REFERENCE => 29,
            SyntaxKind::TYPE_PROCEDURE => 30,
            SyntaxKind::PROC_TYPE_PARAM_LIST => 31,
            SyntaxKind::PROC_TYPE_PARAM => 32,
            SyntaxKind::TYPE_ARRAY_SLICE => 33,
            SyntaxKind::TYPE_ARRAY_STATIC => 34,
            SyntaxKind::BLOCK => 35,
            SyntaxKind::STMT_BREAK => 36,
            SyntaxKind::STMT_CONTINUE => 37,
            SyntaxKind::STMT_RETURN => 38,
            SyntaxKind::STMT_DEFER => 39,
            SyntaxKind::STMT_FOR => 40,
            SyntaxKind::FOR_BIND => 41,
            SyntaxKind::FOR_HEADER_COND => 42,
            SyntaxKind::FOR_HEADER_ELEM => 43,
            SyntaxKind::FOR_HEADER_RANGE => 44,
            SyntaxKind::FOR_HEADER_PAT => 45,
            SyntaxKind::STMT_LOCAL => 46,
            SyntaxKind::STMT_ASSIGN => 47,
            SyntaxKind::STMT_EXPR_SEMI => 48,
            SyntaxKind::STMT_EXPR_TAIL => 49,
            SyntaxKind::STMT_WITH_DIRECTIVE => 50,
            SyntaxKind::EXPR_PAREN => 51,
            SyntaxKind::EXPR_IF => 52,
            SyntaxKind::IF_BRANCH => 53,
            SyntaxKind::BRANCH_COND => 54,
            SyntaxKind::BRANCH_PAT => 55,
            SyntaxKind::EXPR_MATCH => 56,
            SyntaxKind::MATCH_ARM_LIST => 57,
            SyntaxKind::MATCH_ARM => 58,
            SyntaxKind::EXPR_FIELD => 59,
            SyntaxKind::EXPR_INDEX => 60,
            SyntaxKind::EXPR_SLICE => 61,
            SyntaxKind::EXPR_CALL => 62,
            SyntaxKind::EXPR_CAST => 63,
            SyntaxKind::EXPR_ITEM => 64,
            SyntaxKind::EXPR_VARIANT => 65,
            SyntaxKind::EXPR_STRUCT_INIT => 66,
            SyntaxKind::FIELD_INIT_LIST => 67,
            SyntaxKind::FIELD_INIT => 68,
            SyntaxKind::EXPR_ARRAY_INIT => 69,
            SyntaxKind::EXPR_ARRAY_REPEAT => 70,
            SyntaxKind::EXPR_DEREF => 71,
            SyntaxKind::EXPR_ADDRESS => 72,
            SyntaxKind::BUILTIN_ERROR => 73,
            SyntaxKind::BUILTIN_WITH_TYPE => 74,
            SyntaxKind::BUILTIN_TRANSMUTE => 75,
            SyntaxKind::EXPR_UNARY => 76,
            SyntaxKind::EXPR_BINARY => 77,
            SyntaxKind::PAT_WILD => 78,
            SyntaxKind::PAT_LIT => 79,
            SyntaxKind::PAT_ITEM => 80,
            SyntaxKind::PAT_VARIANT => 81,
            SyntaxKind::PAT_OR => 82,
            SyntaxKind::LIT_VOID => 83,
            SyntaxKind::LIT_NULL => 84,
            SyntaxKind::LIT_BOOL => 85,
            SyntaxKind::LIT_INT => 86,
            SyntaxKind::LIT_FLOAT => 87,
            SyntaxKind::LIT_CHAR => 88,
            SyntaxKind::LIT_STRING => 89,
            SyntaxKind::NAME => 90,
            SyntaxKind::BIND => 91,
            SyntaxKind::BIND_LIST => 92,
            SyntaxKind::ARGS_LIST => 93,
            SyntaxKind::PATH => 94,
            SyntaxKind::PATH_SEGMENT => 95,
            SyntaxKind::POLYMORPH_ARGS => 96,
            SyntaxKind::POLYMORPH_PARAMS => 97,
        }
    }
}

/// Set of syntax kinds, one bit per kind.
#[derive(Copy, Clone, PartialEq, Eq, Debug, Structural)]
pub struct SyntaxSet {
    pub mask: u128,
}

pub open spec fn syntax_bit(k: SyntaxKind) -> u128 {
    1u128 << syntax_index(k)
}

proof fn lemma_bit_or_one(m: u128, i: u8, j: u8)
    requires
        i < 128,
        j < 128,
    ensures
        ((m | (1u128 << j)) & (1u128 << i) != 0) == ((m & (1u128 << i) != 0) || i == j),
{
    assert(((m | (1u128 << j)) & (1u128 << i) != 0) == ((m & (1u128 << i) != 0) || i == j))
        by (bit_vector)
        requires
            i < 128,
            j < 128,
    ;
}

proof fn lemma_bit_or(a: u128, b: u128, i: u8)
    requires
        i < 128,
    ensures
        ((a | b) & (1u128 << i) != 0) == ((a & (1u128 << i) != 0) || (b & (1u128 << i) != 0)),
{
    assert(((a | b) & (1u128 << i) != 0) == ((a & (1u128 << i) != 0) || (b & (1u128 << i) != 0)))
        by (bit_vector)
        requires
            i < 128,
    ;
}

proof fn lemma_bit_zero(i: u8)
    requires
        i < 128,
    ensures
        (0u128 & (1u128 << i)) == 0,
{
    assert((0u128 & (1u128 << i)) == 0) by (bit_vector);
}

pub proof fn lemma_syntax_index_injective(a: SyntaxKind, b: SyntaxKind)
    ensures
        syntax_index(a) == syntax_index(b) ==> a == b,
{
}

impl SyntaxSet {
    pub open spec fn has(self, k: SyntaxKind) -> bool {
        self.mask & syntax_bit(k) != 0
    }

    /// The set of the given kinds.
    pub fn new(syntax: &[SyntaxKind]) -> (r: SyntaxSet)
        ensures
            forall|k: SyntaxKind| #[trigger] r.has(k) <==> syntax@.contains(k),
    {
        let mut mask: u128 = 0;
        let mut i: usize = 0;
        proof {
            assert forall|k: SyntaxKind| !(#[trigger] (SyntaxSet { mask: 0u128 }).has(k)) by {
                lemma_bit_zero(syntax_index(k));
            }
        }
        while i < syntax.len()
            invariant
                i <= syntax@.len(),
                forall|k: SyntaxKind|
                    #[trigger] (SyntaxSet { mask }).has(k) <==> syntax@.subrange(0, i as int).contains(
                        k,
                    ),
            decreases syntax@.len() - i,
        {
            let idx = syntax[i].index();
            let ghost old_mask = mask;
            mask = mask | (1u128 << idx);
            proof {
                assert forall|k: SyntaxKind| #[trigger] (SyntaxSet { mask }).has(k)
                    <==> syntax@.subrange(0, i + 1).contains(k) by {
                    lemma_bit_or_one(old_mask, syntax_index(k), idx);
                    lemma_syntax_index_injective(k, syntax@[i as int]);
                    let s0 = syntax@.subrange(0, i as int);
                    let s1 = syntax@.subrange(0, i + 1);
                    assert(s1 == s0.push(syntax@[i as int]));
                    if s0.contains(k) {
                        let j = choose|j: int| 0 <= j < s0.len() && s0[j] == k;
                        assert(s1[j] == k);
                    }
                    if k == syntax@[i as int] {
                        assert(s1[i as int] == k);
                    }
                    if s1.contains(k) {
                        let j = choose|j: int| 0 <= j < s1.len() && s1[j] == k;
                        if j < i {
                            assert(s0[j] == k);
                        }
                    }
                    assert(SyntaxSet { mask: old_mask }.has(k) == ((old_mask & (1u128
                        << syntax_index(k))) != 0));
                }
            }
            i = i + 1;
        }
        proof {
            assert(syntax@.subrange(0, i as int) == syntax@);
        }
        SyntaxSet { mask }
    }

    pub fn empty() -> (r: SyntaxSet)
        ensures
            forall|k: SyntaxKind| !(#[trigger] r.has(k)),
    {
        proof {
            assert forall|k: SyntaxKind| !(#[trigger] (SyntaxSet { mask: 0u128 }).has(k)) by {
                lemma_bit_zero(syntax_index(k));
            }
        }
        SyntaxSet { mask: 0 }
    }

    pub fn combine(self, other: SyntaxSet) -> (r: SyntaxSet)
        ensures
            forall|k: SyntaxKind| #[trigger] r.has(k) <==> self.has(k) || other.has(k),
    {
        let r = SyntaxSet { mask: self.mask | other.mask };
        proof {
            assert forall|k: SyntaxKind| #[trigger] r.has(k) <==> self.has(k) || other.has(k) by {
                lemma_bit_or(self.mask, other.mask, syntax_index(k));
            }
        }
        r
    }

    pub fn contains(&self, syntax: SyntaxKind) -> (r: bool)
        ensures
            r == self.has(syntax),
    {
        self.mask & (1u128 << syntax.index()) != 0
    }
}

/// The name of the kind `k`, as written in its declaration.
pub open spec fn syntax_name(k: SyntaxKind) -> Seq<char> {
    match k {
        SyntaxKind::ERROR => "ERROR"@,
        SyntaxKind::TOMBSTONE => "TOMBSTONE"@,
        SyntaxKind::SOURCE_FILE => "SOURCE_FILE"@,
        SyntaxKind::PROC_ITEM => "PROC_ITEM"@,
        SyntaxKind::PARAM_LIST => "PARAM_LIST"@,
        SyntaxKind::PARAM => "PARAM"@,
        SyntaxKind::ENUM_ITEM => "ENUM_ITEM"@,
        SyntaxKind::VARIANT_LIST => "VARIANT_LIST"@,
        SyntaxKind::VARIANT => "VARIANT"@,
        SyntaxKind::VARIANT_FIELD_LIST => "VARIANT_FIELD_LIST"@,
        SyntaxKind::VARIANT_FIELD => "VARIANT_FIELD"@,
        SyntaxKind::STRUCT_ITEM => "STRUCT_ITEM"@,
        SyntaxKind::FIELD_LIST => "FIELD_LIST"@,
        SyntaxKind::FIELD => "FIELD"@,
        SyntaxKind::CONST_ITEM => "CONST_ITEM"@,
        SyntaxKind::GLOBAL_ITEM => "GLOBAL_ITEM"@,
        SyntaxKind::IMPORT_ITEM => "IMPORT_ITEM"@,
        SyntaxKind::IMPORT_PATH => "IMPORT_PATH"@,
        SyntaxKind::IMPORT_SYMBOL_LIST => "IMPORT_SYMBOL_LIST"@,
        SyntaxKind::IMPORT_SYMBOL => "IMPORT_SYMBOL"@,
        SyntaxKind::IMPORT_SYMBOL_RENAME => "IMPORT_SYMBOL_RENAME"@,
        SyntaxKind::DIRECTIVE_LIST => "DIRECTIVE_LIST"@,
        SyntaxKind::DIRECTIVE_SIMPLE => "DIRECTIVE_SIMPLE"@,
        SyntaxKind::DIRECTIVE_WITH_PARAMS => "DIRECTIVE_WITH_PARAMS"@,
        SyntaxKind::DIRECTIVE_PARAM_LIST => "DIRECTIVE_PARAM_LIST"@,
        SyntaxKind::DIRECTIVE_PARAM => "DIRECTIVE_PARAM"@,
        SyntaxKind::TYPE_BASIC => "TYPE_BASIC"@,
        SyntaxKind::TYPE_CUSTOM => "TYPE_CUSTOM"@,
        SyntaxKind::TYPE_REFERENCE => "TYPE_REFERENCE"@,
        SyntaxKind::TYPE_MULTI_REFERENCE => "TYPE_MULTI_REFERENCE"@,
        SyntaxKind::TYPE_PROCEDURE => "TYPE_PROCEDURE"@,
        SyntaxKind::PROC_TYPE_PARAM_LIST => "PROC_TYPE_PARAM_LIST"@,
        SyntaxKind::PROC_TYPE_PARAM => "PROC_TYPE_PARAM"@,
        SyntaxKind::TYPE_ARRAY_SLICE => "TYPE_ARRAY_SLICE"@,
        SyntaxKind::TYPE_ARRAY_STATIC => "TYPE_ARRAY_STATIC"@,
        SyntaxKind::BLOCK => "BLOCK"@,
        SyntaxKind::STMT_BREAK => "STMT_BREAK"@,
        SyntaxKind::STMT_CONTINUE => "STMT_CONTINUE"@,
        SyntaxKind::STMT_RETURN => "STMT_RETURN"@,
        SyntaxKind::STMT_DEFER => "STMT_DEFER"@,
        SyntaxKind::STMT_FOR => "STMT_FOR"@,
        SyntaxKind::FOR_BIND => "FOR_BIND"@,
        SyntaxKind::FOR_HEADER_COND => "FOR_HEADER_COND"@,
        SyntaxKind::FOR_HEADER_ELEM => "FOR_HEADER_ELEM"@,
        SyntaxKind::FOR_HEADER_RANGE => "FOR_HEADER_RANGE"@,
        SyntaxKind::FOR_HEADER_PAT => "FOR_HEADER_PAT"@,
        SyntaxKind::STMT_LOCAL => "STMT_LOCAL"@,
        SyntaxKind::STMT_ASSIGN => "STMT_ASSIGN"@,
        SyntaxKind::STMT_EXPR_SEMI => "STMT_EXPR_SEMI"@,
        SyntaxKind::STMT_EXPR_TAIL => "STMT_EXPR_TAIL"@,
        SyntaxKind::STMT_WITH_DIRECTIVE => "STMT_WITH_DIRECTIVE"@,
        SyntaxKind::EXPR_PAREN => "EXPR_PAREN"@,
        SyntaxKind::EXPR_IF => "EXPR_IF"@,
        SyntaxKind::IF_BRANCH => "IF_BRANCH"@,
        SyntaxKind::BRANCH_COND => "BRANCH_COND"@,
        SyntaxKind::BRANCH_PAT => "BRANCH_PAT"@,
        SyntaxKind::EXPR_MATCH => "EXPR_MATCH"@,
        SyntaxKind::MATCH_ARM_LIST => "MATCH_ARM_LIST"@,
        SyntaxKind::MATCH_ARM => "MATCH_ARM"@,
        SyntaxKind::EXPR_FIELD => "EXPR_FIELD"@,
        SyntaxKind::EXPR_INDEX => "EXPR_INDEX"@,
        SyntaxKind::EXPR_SLICE => "EXPR_SLICE"@,
        SyntaxKind::EXPR_CALL => "EXPR_CALL"@,
        SyntaxKind::EXPR_CAST => "EXPR_CAST"@,
        SyntaxKind::EXPR_ITEM => "EXPR_ITEM"@,
        SyntaxKind::EXPR_VARIANT => "EXPR_VARIANT"@,
        SyntaxKind::EXPR_STRUCT_INIT => "EXPR_STRUCT_INIT"@,
        SyntaxKind::FIELD_INIT_LIST => "FIELD_INIT_LIST"@,
        SyntaxKind::FIELD_INIT => "FIELD_INIT"@,
        SyntaxKind::EXPR_ARRAY_INIT => "EXPR_ARRAY_INIT"@,
        SyntaxKind::EXPR_ARRAY_REPEAT => "EXPR_ARRAY_REPEAT"@,
        SyntaxKind::EXPR_DEREF => "EXPR_DEREF"@,
        SyntaxKind::EXPR_ADDRESS => "EXPR_ADDRESS"@,
        SyntaxKind::BUILTIN_ERROR => "BUILTIN_ERROR"@,
        SyntaxKind::BUILTIN_WITH_TYPE => "BUILTIN_WITH_TYPE"@,
        SyntaxKind::BUILTIN_TRANSMUTE => "BUILTIN_TRANSMUTE"@,
        SyntaxKind::EXPR_UNARY => "EXPR_UNARY"@,
        SyntaxKind::EXPR_BINARY => "EXPR_BINARY"@,
        SyntaxKind::PAT_WILD => "PAT_WILD"@,
        SyntaxKind::PAT_LIT => "PAT_LIT"@,
        SyntaxKind::PAT_ITEM => "PAT_ITEM"@,
        SyntaxKind::PAT_VARIANT => "PAT_VARIANT"@,
        SyntaxKind::PAT_OR => "PAT_OR"@,
        SyntaxKind::LIT_VOID => "LIT_VOID"@,
        SyntaxKind::LIT_NULL => "LIT_NULL"@,
        SyntaxKind::LIT_BOOL => "LIT_BOOL"@,
        SyntaxKind::LIT_INT => "LIT_INT"@,
        SyntaxKind::LIT_FLOAT => "LIT_FLOAT"@,
        SyntaxKind::LIT_CHAR => "LIT_CHAR"@,
        SyntaxKind::LIT_STRING => "LIT_STRING"@,
        SyntaxKind::NAME => "NAME"@,
        SyntaxKind::BIND => "BIND"@,
        SyntaxKind::BIND_LIST => "BIND_LIST"@,
        SyntaxKind::ARGS_LIST => "ARGS_LIST"@,
        SyntaxKind::PATH => "PATH"@,
        SyntaxKind::PATH_SEGMENT => "PATH_SEGMENT"@,
        SyntaxKind::POLYMORPH_ARGS => "POLYMORPH_ARGS"@,
        SyntaxKind::POLYMORPH_PARAMS => "POLYMORPH_PARAMS"@,
    }
}

impl SyntaxKind {
    /// The name of the kind, as written in its declaration.
    pub fn name(self) -> (r: &'static str)
        ensures
            r@ == syntax_name(self),
    {
        proof {
            reveal_strlit("ERROR");
            reveal_strlit("TOMBSTONE");
            reveal_strlit("SOURCE_FILE");
            reveal_strlit("PROC_ITEM");
            reveal_strlit("PARAM_LIST");
            reveal_strlit("PARAM");
            reveal_strlit("ENUM_ITEM");
            reveal_strlit("VARIANT_LIST");
            reveal_strlit("VARIANT");
            reveal_strlit("VARIANT_FIELD_LIST");
            reveal_strlit("VARIANT_FIELD");
            reveal_strlit("STRUCT_ITEM");
            reveal_strlit("FIELD_LIST");
            reveal_strlit("FIELD");
            reveal_strlit("CONST_ITEM");
            reveal_strlit("GLOBAL_ITEM");
            reveal_strlit("IMPORT_ITEM");
            reveal_strlit("IMPORT_PATH");
            reveal_strlit("IMPORT_SYMBOL_LIST");
            reveal_strlit("IMPORT_SYMBOL");
            reveal_strlit("IMPORT_SYMBOL_RENAME");
            reveal_strlit("DIRECTIVE_LIST");
            reveal_strlit("DIRECTIVE_SIMPLE");
            reveal_strlit("DIRECTIVE_WITH_PARAMS");
            reveal_strlit("DIRECTIVE_PARAM_LIST");
            reveal_strlit("DIRECTIVE_PARAM");
            reveal_strlit("TYPE_BASIC");
            reveal_strlit("TYPE_CUSTOM");
            reveal_strlit("TYPE_REFERENCE");
            reveal_strlit("TYPE_MULTI_REFERENCE");
            reveal_strlit("TYPE_PROCEDURE");
            reveal_strlit("PROC_TYPE_PARAM_LIST");
            reveal_strlit("PROC_TYPE_PARAM");
            reveal_strlit("TYPE_ARRAY_SLICE");
            reveal_strlit("TYPE_ARRAY_STATIC");
            reveal_strlit("BLOCK");
            reveal_strlit("STMT_BREAK");
            reveal_strlit("STMT_CONTINUE");
            reveal_strlit("STMT_RETURN");
            reveal_strlit("STMT_DEFER");
            reveal_strlit("STMT_FOR");
            reveal_strlit("FOR_BIND");
            reveal_strlit("FOR_HEADER_COND");
            reveal_strlit("FOR_HEADER_ELEM");
            reveal_strlit("FOR_HEADER_RANGE");
            reveal_strlit("FOR_HEADER_PAT");
            reveal_strlit("STMT_LOCAL");
            reveal_strlit("STMT_ASSIGN");
            reveal_strlit("STMT_EXPR_SEMI");
            reveal_strlit("STMT_EXPR_TAIL");
            reveal_strlit("STMT_WITH_DIRECTIVE");
            reveal_strlit("EXPR_PAREN");
            reveal_strlit("EXPR_IF");
            reveal_strlit("IF_BRANCH");
            reveal_strlit("BRANCH_COND");
            reveal_strlit("BRANCH_PAT");
            reveal_strlit("EXPR_MATCH");
            reveal_strlit("MATCH_ARM_LIST");
            reveal_strlit("MATCH_ARM");
            reveal_strlit("EXPR_FIELD");
            reveal_strlit("EXPR_INDEX");
            reveal_strlit("EXPR_SLICE");
            reveal_strlit("EXPR_CALL");
            reveal_strlit("EXPR_CAST");
            reveal_strlit("EXPR_ITEM");
            reveal_strlit("EXPR_VARIANT");
            reveal_strlit("EXPR_STRUCT_INIT");
            reveal_strlit("FIELD_INIT_LIST");
            reveal_strlit("FIELD_INIT");
            reveal_strlit("EXPR_ARRAY_INIT");
            reveal_strlit("EXPR_ARRAY_REPEAT");
            reveal_strlit("EXPR_DEREF");
            reveal_strlit("EXPR_ADDRESS");
            reveal_strlit("BUILTIN_ERROR");
            reveal_strlit("BUILTIN_WITH_TYPE");
            reveal_strlit("BUILTIN_TRANSMUTE");
            reveal_strlit("EXPR_UNARY");
            reveal_strlit("EXPR_BINARY");
            reveal_strlit("PAT_WILD");
            reveal_strlit("PAT_LIT");
            reveal_strlit("PAT_ITEM");
            reveal_strlit("PAT_VARIANT");
            reveal_strlit("PAT_OR");
            reveal_strlit("LIT_VOID");
            reveal_strlit("LIT_NULL");
            reveal_strlit("LIT_BOOL");
            reveal_strlit("LIT_INT");
            reveal_strlit("LIT_FLOAT");
            reveal_strlit("LIT_CHAR");
            reveal_strlit("LIT_STRING");
            reveal_strlit("NAME");
            reveal_strlit("BIND");
            reveal_strlit("BIND_LIST");
            reveal_strlit("ARGS_LIST");
            reveal_strlit("PATH");
            reveal_strlit("PATH_SEGMENT");
            reveal_strlit("POLYMORPH_ARGS");
            reveal_strlit("POLYMORPH_PARAMS");
        }
        match self {
            SyntaxKind::ERROR => "ERROR",
            SyntaxKind::TOMBSTONE => "TOMBSTONE",
            SyntaxKind::SOURCE_FILE => "SOURCE_FILE",
            SyntaxKind::PROC_ITEM => "PROC_ITEM",
            SyntaxKind::PARAM_LIST => "PARAM_LIST",
            SyntaxKind::PARAM => "PARAM",
            SyntaxKind::ENUM_ITEM => "ENUM_ITEM",
            SyntaxKind::VARIANT_LIST => "VARIANT_LIST",
            SyntaxKind::VARIANT => "VARIANT",
            SyntaxKind::VARIANT_FIELD_LIST => "VARIANT_FIELD_LIST",
            SyntaxKind::VARIANT_FIELD => "VARIANT_FIELD",
            SyntaxKind::STRUCT_ITEM => "STRUCT_ITEM",
            SyntaxKind::FIELD_LIST => "FIELD_LIST",
            SyntaxKind::FIELD => "FIELD",
            SyntaxKind::CONST_ITEM => "CONST_ITEM",
            SyntaxKind::GLOBAL_ITEM => "GLOBAL_ITEM",
            SyntaxKind::IMPORT_ITEM => "IMPORT_ITEM",
            SyntaxKind::IMPORT_PATH => "IMPORT_PATH",
            SyntaxKind::IMPORT_SYMBOL_LIST => "IMPORT_SYMBOL_LIST",
            SyntaxKind::IMPORT_SYMBOL => "IMPORT_SYMBOL",
            SyntaxKind::IMPORT_SYMBOL_RENAME => "IMPORT_SYMBOL_RENAME",
            SyntaxKind::DIRECTIVE_LIST => "DIRECTIVE_LIST",
            SyntaxKind::DIRECTIVE_SIMPLE => "DIRECTIVE_SIMPLE",
            SyntaxKind::DIRECTIVE_WITH_PARAMS => "DIRECTIVE_WITH_PARAMS",
            SyntaxKind::DIRECTIVE_PARAM_LIST => "DIRECTIVE_PARAM_LIST",
            SyntaxKind::DIRECTIVE_PARAM => "DIRECTIVE_PARAM",
            SyntaxKind::TYPE_BASIC => "TYPE_BASIC",
            SyntaxKind::TYPE_CUSTOM => "TYPE_CUSTOM",
            SyntaxKind::TYPE_REFERENCE => "TYPE_REFERENCE",
            SyntaxKind::TYPE_MULTI_REFERENCE => "TYPE_MULTI_REFERENCE",
            SyntaxKind::TYPE_PROCEDURE => "TYPE_PROCEDURE",
            SyntaxKind::PROC_TYPE_PARAM_LIST => "PROC_TYPE_PARAM_LIST",
            SyntaxKind::PROC_TYPE_PARAM => "PROC_TYPE_PARAM",
            SyntaxKind::TYPE_ARRAY_SLICE => "TYPE_ARRAY_SLICE",
            SyntaxKind::TYPE_ARRAY_STATIC => "TYPE_ARRAY_STATIC",
            SyntaxKind::BLOCK => "BLOCK",
            SyntaxKind::STMT_BREAK => "STMT_BREAK",
            SyntaxKind::STMT_CONTINUE => "STMT_CONTINUE",
            SyntaxKind::STMT_RETURN => "STMT_RETURN",
            SyntaxKind::STMT_DEFER => "STMT_DEFER",
            SyntaxKind::STMT_FOR => "STMT_FOR",
            SyntaxKind::FOR_BIND => "FOR_BIND",
            SyntaxKind::FOR_HEADER_COND => "FOR_HEADER_COND",
            SyntaxKind::FOR_HEADER_ELEM => "FOR_HEADER_ELEM",
            SyntaxKind::FOR_HEADER_RANGE => "FOR_HEADER_RANGE",
            SyntaxKind::FOR_HEADER_PAT => "FOR_HEADER_PAT",
            SyntaxKind::STMT_LOCAL => "STMT_LOCAL",
            SyntaxKind::STMT_ASSIGN => "STMT_ASSIGN",
            SyntaxKind::STMT_EXPR_SEMI => "STMT_EXPR_SEMI",
            SyntaxKind::STMT_EXPR_TAIL => "STMT_EXPR_TAIL",
            SyntaxKind::STMT_WITH_DIRECTIVE => "STMT_WITH_DIRECTIVE",
            SyntaxKind::EXPR_PAREN => "EXPR_PAREN",
            SyntaxKind::EXPR_IF => "EXPR_IF",
            SyntaxKind::IF_BRANCH => "IF_BRANCH",
            SyntaxKind::BRANCH_COND => "BRANCH_COND",
            SyntaxKind::BRANCH_PAT => "BRANCH_PAT",
            SyntaxKind::EXPR_MATCH => "EXPR_MATCH",
            SyntaxKind::MATCH_ARM_LIST => "MATCH_ARM_LIST",
            SyntaxKind::MATCH_ARM => "MATCH_ARM",
            SyntaxKind::EXPR_FIELD => "EXPR_FIELD",
            SyntaxKind::EXPR_INDEX => "EXPR_INDEX",
            SyntaxKind::EXPR_SLICE => "EXPR_SLICE",
            SyntaxKind::EXPR_CALL => "EXPR_CALL",
            SyntaxKind::EXPR_CAST => "EXPR_CAST",
            SyntaxKind::EXPR_ITEM => "EXPR_ITEM",
            SyntaxKind::EXPR_VARIANT => "EXPR_VARIANT",
            SyntaxKind::EXPR_STRUCT_INIT => "EXPR_STRUCT_INIT",
            SyntaxKind::FIELD_INIT_LIST => "FIELD_INIT_LIST",
            SyntaxKind::FIELD_INIT => "FIELD_INIT",
            SyntaxKind::EXPR_ARRAY_INIT => "EXPR_ARRAY_INIT",
            SyntaxKind::EXPR_ARRAY_REPEAT => "EXPR_ARRAY_REPEAT",
            SyntaxKind::EXPR_DEREF => "EXPR_DEREF",
            SyntaxKind::EXPR_ADDRESS => "EXPR_ADDRESS",
            SyntaxKind::BUILTIN_ERROR => "BUILTIN_ERROR",
            SyntaxKind::BUILTIN_WITH_TYPE => "BUILTIN_WITH_TYPE",
            SyntaxKind::BUILTIN_TRANSMUTE => "BUILTIN_TRANSMUTE",
            SyntaxKind::EXPR_UNARY => "EXPR_UNARY",
            SyntaxKind::EXPR_BINARY => "EXPR_BINARY",
            SyntaxKind::PAT_WILD => "PAT_WILD",
            SyntaxKind::PAT_LIT => "PAT_LIT",
            SyntaxKind::PAT_ITEM => "PAT_ITEM",
            SyntaxKind::PAT_VARIANT => "PAT_VARIANT",
            SyntaxKind::PAT_OR => "PAT_OR",
            SyntaxKind::LIT_VOID => "LIT_VOID",
            SyntaxKind::LIT_NULL => "LIT_NULL",
            SyntaxKind::LIT_BOOL => "LIT_BOOL",
            SyntaxKind::LIT_INT => "LIT_INT",
            SyntaxKind::LIT_FLOAT => "LIT_FLOAT",
            SyntaxKind::LIT_CHAR => "LIT_CHAR",
            SyntaxKind::LIT_STRING => "LIT_STRING",
            SyntaxKind::NAME => "NAME",
            SyntaxKind::BIND => "BIND",
            SyntaxKind::BIND_LIST => "BIND_LIST",
            SyntaxKind::ARGS_LIST => "ARGS_LIST",
            SyntaxKind::PATH => "PATH",
            SyntaxKind::PATH_SEGMENT => "PATH_SEGMENT",
            SyntaxKind::POLYMORPH_ARGS => "POLYMORPH_ARGS",
            SyntaxKind::POLYMORPH_PARAMS => "POLYMORPH_PARAMS",
        }
    }
}

} // verus!
