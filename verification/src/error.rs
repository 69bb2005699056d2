use vstd::prelude::*;
use crate::ids::ModuleID;
use crate::text::TextRange;

verus! {

/// A range of source text in a module.
#[derive(Copy, Clone, PartialEq, Eq, Debug, Structural)]
pub struct SourceRange {
    pub module_id: ModuleID,
    pub range: TextRange,
}

impl SourceRange {
    pub fn new(module_id: ModuleID, range: TextRange) -> (r: SourceRange)
        ensures
            r.module_id == module_id,
            r.range == range,
    {
        SourceRange { module_id, range }
    }
}

/// What went wrong while splitting a source text into tokens.
#[derive(Copy, Clone, PartialEq, Eq, Debug, Structural)]
pub enum LexErrorKind {
    SymbolUnknown(char),
    CharIncomplete,
    CharTabNotEscaped,
    CharEmpty,
    CharQuoteNotEscaped,
    CharNotTerminated,
    StringNotTerminated,
    StringRawNotTerminated,
    EscapeSequenceIncomplete,
    EscapeSequenceNotSupported(char),
    ExpectOpenBracket,
    ExpectCloseBracket,
    EscapeHexWrongDigitCount(u32),
    EscapeHexNonUtf8(u32),
    FloatExpMissingDigits,
    IntDecOverflow,
    IntBinInvalidDigit(char),
    IntBaseMissingDigits,
    IntBinOverflow(u32),
    IntOctInvalidDigit(char),
    IntOctOverflow,
    IntHexOverflow(u32),
}

/// A lexing error and where it occurred.
#[derive(Copy, Clone, PartialEq, Eq, Debug, Structural)]
pub struct LexError {
    pub kind: LexErrorKind,
    pub src: SourceRange,
}

/// A syntax error with its message.
#[derive(Debug)]
pub struct SyntaxError {
    pub message: String,
    pub src: SourceRange,
}

/// A comment that the syntax tree cannot attach where it stands.
#[derive(Copy, Clone, PartialEq, Eq, Debug, Structural)]
pub enum TreeErrorKind {
    /// A doc comment that documents no item.
    InvalidDocComment,
    /// A module comment after the start of the module.
    InvalidModComment,
}

/// A misplaced comment and where it stands.
#[derive(Copy, Clone, PartialEq, Eq, Debug, Structural)]
pub struct TreeError {
    pub kind: TreeErrorKind,
    pub src: SourceRange,
}

/// Every error found while parsing a source file, by the stage that found it.
#[derive(Debug)]
pub struct ParseErrors {
    pub lex: Vec<LexError>,
    pub syntax: Vec<SyntaxError>,
    pub tree: Vec<TreeError>,
}

impl ParseErrors {
    pub open spec fn count(&self) -> nat {
        self.lex@.len() + self.syntax@.len() + self.tree@.len()
    }

    /// Total number of errors.
    pub fn error_count(&self) -> (r: usize)
        requires
            self.count() <= usize::MAX,
        ensures
            r == self.count(),
    {
        self.lex.len() + self.syntax.len() + self.tree.len()
    }
}

} // verus!
