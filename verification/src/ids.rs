use vstd::prelude::*;

verus! {

/// Index of a token in a `TokenList`.
#[derive(Copy, Clone, PartialEq, Eq, Debug, Hash, Structural)]
pub struct TokenID(pub u32);

impl TokenID {
    pub fn new(index: usize) -> (r: TokenID)
        requires
            index <= u32::MAX,
        ensures
            r.0 == index,
    {
        TokenID(index as u32)
    }

    /// Placeholder id that refers to nothing.
    pub fn dummy() -> (r: TokenID)
        ensures
            r.0 == u32::MAX,
    {
        TokenID(u32::MAX)
    }

    pub fn raw(self) -> (r: u32)
        ensures
            r == self.0,
    {
        self.0
    }

    pub fn index(self) -> (r: usize)
        ensures
            r == self.0,
    {
        self.0 as usize
    }

    pub fn inc(self) -> (r: TokenID)
        requires
            self.0 < u32::MAX,
        ensures
            r.0 == self.0 + 1,
    {
        TokenID(self.0 + 1)
    }

    pub fn dec(self) -> (r: TokenID)
        requires
            self.0 != 0,
        ensures
            r.0 == self.0 - 1,
    {
        TokenID(self.0 - 1)
    }
}

/// Index of a trivia in a `TokenList`.
#[derive(Copy, Clone, PartialEq, Eq, Debug, Hash, Structural)]
pub struct TriviaID(pub u32);

impl TriviaID {
    pub fn new(index: usize) -> (r: TriviaID)
        requires
            index <= u32::MAX,
        ensures
            r.0 == index,
    {
        TriviaID(index as u32)
    }

    /// Placeholder id that refers to nothing.
    pub fn dummy() -> (r: TriviaID)
        ensures
            r.0 == u32::MAX,
    {
        TriviaID(u32::MAX)
    }

    pub fn raw(self) -> (r: u32)
        ensures
            r == self.0,
    {
        self.0
    }

    pub fn index(self) -> (r: usize)
        ensures
            r == self.0,
    {
        self.0 as usize
    }

    pub fn inc(self) -> (r: TriviaID)
        requires
            self.0 < u32::MAX,
        ensures
            r.0 == self.0 + 1,
    {
        TriviaID(self.0 + 1)
    }

    pub fn dec(self) -> (r: TriviaID)
        requires
            self.0 != 0,
        ensures
            r.0 == self.0 - 1,
    {
        TriviaID(self.0 - 1)
    }
}

/// Index of a node of a `SyntaxTree`.
#[derive(Copy, Clone, PartialEq, Eq, Debug, Hash, Structural)]
pub struct NodeID(pub u32);

impl NodeID {
    pub fn new(index: usize) -> (r: NodeID)
        requires
            index <= u32::MAX,
        ensures
            r.0 == index,
    {
        NodeID(index as u32)
    }

    /// Placeholder id that refers to nothing.
    pub fn dummy() -> (r: NodeID)
        ensures
            r.0 == u32::MAX,
    {
        NodeID(u32::MAX)
    }

    pub fn raw(self) -> (r: u32)
        ensures
            r == self.0,
    {
        self.0
    }

    pub fn index(self) -> (r: usize)
        ensures
            r == self.0,
    {
        self.0 as usize
    }

    pub fn inc(self) -> (r: NodeID)
        requires
            self.0 < u32::MAX,
        ensures
            r.0 == self.0 + 1,
    {
        NodeID(self.0 + 1)
    }

    pub fn dec(self) -> (r: NodeID)
        requires
            self.0 != 0,
        ensures
            r.0 == self.0 - 1,
    {
        NodeID(self.0 - 1)
    }
}

/// Index of a module of a session.
#[derive(Copy, Clone, PartialEq, Eq, Debug, Hash, Structural)]
pub struct ModuleID(pub u32);

impl ModuleID {
    pub fn new(index: usize) -> (r: ModuleID)
        requires
            index <= u32::MAX,
        ensures
            r.0 == index,
    {
        ModuleID(index as u32)
    }

    /// Placeholder id that refers to nothing.
    pub fn dummy() -> (r: ModuleID)
        ensures
            r.0 == u32::MAX,
    {
        ModuleID(u32::MAX)
    }

    pub fn raw(self) -> (r: u32)
        ensures
            r == self.0,
    {
        self.0
    }

    pub fn index(self) -> (r: usize)
        ensures
            r == self.0,
    {
        self.0 as usize
    }

    pub fn inc(self) -> (r: ModuleID)
        requires
            self.0 < u32::MAX,
        ensures
            r.0 == self.0 + 1,
    {
        ModuleID(self.0 + 1)
    }

    pub fn dec(self) -> (r: ModuleID)
        requires
            self.0 != 0,
        ensures
            r.0 == self.0 - 1,
    {
        ModuleID(self.0 - 1)
    }
}

/// Index of a package of a session.
#[derive(Copy, Clone, PartialEq, Eq, Debug, Hash, Structural)]
pub struct PackageID(pub u32);

impl PackageID {
    pub fn new(index: usize) -> (r: PackageID)
        requires
            index <= u32::MAX,
        ensures
            r.0 == index,
    {
        PackageID(index as u32)
    }

    /// Placeholder id that refers to nothing.
    pub fn dummy() -> (r: PackageID)
        ensures
            r.0 == u32::MAX,
    {
        PackageID(u32::MAX)
    }

    pub fn raw(self) -> (r: u32)
        ensures
            r == self.0,
    {
        self.0
    }

    pub fn index(self) -> (r: usize)
        ensures
            r == self.0,
    {
        self.0 as usize
    }

    pub fn inc(self) -> (r: PackageID)
        requires
            self.0 < u32::MAX,
        ensures
            r.0 == self.0 + 1,
    {
        PackageID(self.0 + 1)
    }

    pub fn dec(self) -> (r: PackageID)
        requires
            self.0 != 0,
        ensures
            r.0 == self.0 - 1,
    {
        PackageID(self.0 - 1)
    }
}

/// Index of an interned string literal.
#[derive(Copy, Clone, PartialEq, Eq, Debug, Hash, Structural)]
pub struct LitID(pub u32);

impl LitID {
    pub fn new(index: usize) -> (r: LitID)
        requires
            index <= u32::MAX,
        ensures
            r.0 == index,
    {
        LitID(index as u32)
    }

    /// Placeholder id that refers to nothing.
    pub fn dummy() -> (r: LitID)
        ensures
            r.0 == u32::MAX,
    {
        LitID(u32::MAX)
    }

    pub fn raw(self) -> (r: u32)
        ensures
            r == self.0,
    {
        self.0
    }

    pub fn index(self) -> (r: usize)
        ensures
            r == self.0,
    {
        self.0 as usize
    }

    pub fn inc(self) -> (r: LitID)
        requires
            self.0 < u32::MAX,
        ensures
            r.0 == self.0 + 1,
    {
        LitID(self.0 + 1)
    }

    pub fn dec(self) -> (r: LitID)
        requires
            self.0 != 0,
        ensures
            r.0 == self.0 - 1,
    {
        LitID(self.0 - 1)
    }
}

/// Index of an interned name.
#[derive(Copy, Clone, PartialEq, Eq, Debug, Hash, Structural)]
pub struct NameID(pub u32);

impl NameID {
    pub fn new(index: usize) -> (r: NameID)
        requires
            index <= u32::MAX,
        ensures
            r.0 == index,
    {
        NameID(index as u32)
    }

    /// Placeholder id that refers to nothing.
    pub fn dummy() -> (r: NameID)
        ensures
            r.0 == u32::MAX,
    {
        NameID(u32::MAX)
    }

    pub fn raw(self) -> (r: u32)
        ensures
            r == self.0,
    {
        self.0
    }

    pub fn index(self) -> (r: usize)
        ensures
            r == self.0,
    {
        self.0 as usize
    }

    pub fn inc(self) -> (r: NameID)
        requires
            self.0 < u32::MAX,
        ensures
            r.0 == self.0 + 1,
    {
        NameID(self.0 + 1)
    }

    pub fn dec(self) -> (r: NameID)
        requires
            self.0 != 0,
        ensures
            r.0 == self.0 - 1,
    {
        NameID(self.0 - 1)
    }
}

} // verus!
