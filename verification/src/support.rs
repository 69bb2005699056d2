use vstd::prelude::*;

verus! {

/// A stack of values where nested users each own the part above their offset.
pub struct TempBuffer<T> {
    buffer: Vec<T>,
}

/// Where a user's part of a `TempBuffer` starts.
#[derive(Copy, Clone, PartialEq, Eq, Debug, Structural)]
pub struct TempOffset {
    pub idx: usize,
}

impl<T: Copy> TempBuffer<T> {
    pub closed spec fn view_seq(&self) -> Seq<T> {
        self.buffer@
    }

    pub fn new(cap: usize) -> (r: TempBuffer<T>)
        ensures
            r.view_seq().len() == 0,
    {
        TempBuffer { buffer: Vec::with_capacity(cap) }
    }

    pub fn len(&self) -> (r: usize)
        ensures
            r == self.view_seq().len(),
    {
        self.buffer.len()
    }

    pub fn is_empty(&self) -> (r: bool)
        ensures
            r == (self.view_seq().len() == 0),
    {
        self.buffer.len() == 0
    }

    /// Offset of the next value pushed.
    pub fn start(&self) -> (r: TempOffset)
        ensures
            r.idx == self.view_seq().len(),
    {
        TempOffset { idx: self.buffer.len() }
    }

    pub fn push(&mut self, value: T)
        ensures
            final(self).view_seq() == old(self).view_seq().push(value),
    {
        self.buffer.push(value);
    }

    /// The values pushed since `offset`.
    pub fn view(&self, offset: TempOffset) -> (r: &[T])
        requires
            offset.idx <= self.view_seq().len(),
        ensures
            r@ == self.view_seq().subrange(offset.idx as int, self.view_seq().len() as int),
    {
        &self.buffer.as_slice()[offset.idx..self.buffer.len()]
    }

    /// All values in the buffer.
    pub fn view_all(&self) -> (r: &[T])
        ensures
            r@ == self.view_seq(),
    {
        self.buffer.as_slice()
    }

    /// Drop the values pushed since `offset`.
    pub fn pop_view(&mut self, offset: TempOffset)
        requires
            offset.idx <= old(self).view_seq().len(),
        ensures
            final(self).view_seq() == old(self).view_seq().subrange(0, offset.idx as int),
    {
        self.buffer.truncate(offset.idx);
    }

    /// Remove the values pushed since `offset` and hand them out.
    pub fn take(&mut self, offset: TempOffset) -> (r: Vec<T>)
        requires
            offset.idx <= old(self).view_seq().len(),
        ensures
            final(self).view_seq() == old(self).view_seq().subrange(0, offset.idx as int),
            r@ == old(self).view_seq().subrange(
                offset.idx as int,
                old(self).view_seq().len() as int,
            ),
    {
        let mut out: Vec<T> = Vec::new();
        let n = self.buffer.len();
        let mut i = offset.idx;
        while i < n
            invariant
                n == self.buffer@.len(),
                offset.idx <= i <= n,
                self.buffer@ == old(self).buffer@,
                out@ == self.buffer@.subrange(offset.idx as int, i as int),
            decreases n - i,
        {
            out.push(self.buffer[i]);
            i = i + 1;
        }
        self.buffer.truncate(offset.idx);
        out
    }
}

/// The stack discipline of a `TempBuffer`: a user that notes the offset of a buffer
/// holding `below` and then pushes `pushed` takes back from that offset exactly
/// `pushed`, leaving `below`; a user nested above it does the same within `pushed`, so
/// neither disturbs the other.
pub proof fn law_temp_buffer_stack<T>(below: Seq<T>, pushed: Seq<T>)
    ensures
        (below + pushed).subrange(below.len() as int, (below + pushed).len() as int) == pushed,
        (below + pushed).subrange(0, below.len() as int) == below,
{
    assert((below + pushed).subrange(below.len() as int, (below + pushed).len() as int) =~= pushed);
    assert((below + pushed).subrange(0, below.len() as int) =~= below);
}

/// Set of small flags, one bit each.
#[derive(Copy, Clone, PartialEq, Eq, Debug, Structural)]
pub struct BitSet {
    pub mask: u32,
}

impl BitSet {
    pub open spec fn has(self, flag: u32) -> bool {
        self.mask & (1u32 << flag) != 0
    }

    pub fn empty() -> (r: BitSet)
        ensures
            forall|f: u32| f < 32 ==> !#[trigger] r.has(f),
    {
        proof {
            assert forall|f: u32| f < 32 implies !#[trigger] (BitSet { mask: 0 }).has(f) by {
                assert(0u32 & (1u32 << f) == 0) by (bit_vector);
            }
        }
        BitSet { mask: 0 }
    }

    pub fn set(&mut self, flag: u32)
        requires
            flag < 32,
        ensures
            forall|f: u32| f < 32 ==> (#[trigger] final(self).has(f) <==> old(self).has(f) || f == flag),
    {
        let m0 = self.mask;
        self.mask = self.mask | (1u32 << flag);
        proof {
            assert forall|f: u32| f < 32 implies (#[trigger] (BitSet { mask: m0 | (1u32 << flag) }).has(
                f,
            ) <==> (BitSet { mask: m0 }).has(f) || f == flag) by {
                assert(((m0 | (1u32 << flag)) & (1u32 << f) != 0) == ((m0 & (1u32 << f) != 0) || f
                    == flag)) by (bit_vector)
                    requires
                        f < 32,
                        flag < 32,
                ;
            }
        }
    }

    pub fn contains(&self, flag: u32) -> (r: bool)
        requires
            flag < 32,
        ensures
            r == self.has(flag),
    {
        self.mask & (1u32 << flag) != 0
    }
}

} // verus!
