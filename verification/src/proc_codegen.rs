use vstd::prelude::*;

verus! {

/// Where `break` and `continue` of a loop jump to.
#[derive(Copy, Clone, PartialEq, Eq, Debug, Structural)]
pub struct LoopInfo<BB> {
    pub break_bb: BB,
    pub continue_bb: BB,
}

/// An open block: how many deferred blocks it registered, and the loop it is the
/// body of, if any.
#[derive(Copy, Clone, PartialEq, Eq, Debug, Structural)]
pub struct BlockInfo<BB> {
    pub defer_count: u32,
    pub loop_info: Option<LoopInfo<BB>>,
}

/// Index of a tail value of a procedure.
#[derive(Copy, Clone, PartialEq, Eq, Debug, Structural)]
pub struct TailValueID(pub u32);

/// Where the value of a block's tail expression is stored, and its type.
#[derive(Copy, Clone, PartialEq, Eq, Debug, Structural)]
pub struct TailValue<V, T> {
    pub value_ptr: V,
    pub value_ty: T,
}

/// What an expression is emitted as: a value (possibly into a tail value), a pointer,
/// or a store into a given place.
#[derive(Copy, Clone, PartialEq, Eq, Debug, Structural)]
pub enum Expect<V> {
    Value(Option<TailValueID>),
    Pointer,
    Store(V),
}

/// Total of the deferred blocks registered by the blocks of `s`.
pub open spec fn defer_total<BB>(s: Seq<BlockInfo<BB>>) -> nat
    decreases s.len(),
{
    if s.len() == 0 {
        0
    } else {
        defer_total(s.drop_last()) + s.last().defer_count as nat
    }
}

/// Position, from the innermost block out, of the innermost loop body in `s`.
pub open spec fn innermost_loop<BB>(s: Seq<BlockInfo<BB>>) -> Option<int>
    decreases s.len(),
{
    if s.len() == 0 {
        None
    } else if s.last().loop_info is Some {
        Some(s.len() - 1)
    } else {
        innermost_loop(s.drop_last())
    }
}

/// Per-procedure state of code generation: the open blocks with their deferred blocks
/// and loops, and the tail values.
pub struct ProcCodegen<BB, D, V, T> {
    pub proc_id: u32,
    pub fn_val: V,
    pub param_ptrs: Vec<V>,
    pub variable_ptrs: Vec<V>,
    tail_values: Vec<Option<TailValue<V, T>>>,
    block_stack: Vec<BlockInfo<BB>>,
    defer_blocks: Vec<D>,
    next_loop_info: Option<LoopInfo<BB>>,
}

impl<BB: Copy, D: Copy, V: Copy, T: Copy> ProcCodegen<BB, D, V, T> {
    pub closed spec fn spec_proc_id(&self) -> u32 {
        self.proc_id
    }

    pub closed spec fn spec_fn_val(&self) -> V {
        self.fn_val
    }

    pub closed spec fn spec_params(&self) -> Seq<V> {
        self.param_ptrs@
    }

    pub closed spec fn spec_variables(&self) -> Seq<V> {
        self.variable_ptrs@
    }

    pub closed spec fn blocks(&self) -> Seq<BlockInfo<BB>> {
        self.block_stack@
    }

    pub closed spec fn defers(&self) -> Seq<D> {
        self.defer_blocks@
    }

    pub closed spec fn tails(&self) -> Seq<Option<TailValue<V, T>>> {
        self.tail_values@
    }

    pub closed spec fn next_loop(&self) -> Option<LoopInfo<BB>> {
        self.next_loop_info
    }

    /// The deferred blocks are exactly those that the open blocks registered.
    pub open spec fn wf(&self) -> bool {
        defer_total(self.blocks()) == self.defers().len()
    }

    pub fn new(proc_id: u32, fn_val: V) -> (r: Self)
        ensures
            r.wf(),
            r.spec_proc_id() == proc_id,
            r.spec_fn_val() == fn_val,
            r.spec_params().len() == 0,
            r.spec_variables().len() == 0,
            r.blocks().len() == 0,
            r.defers().len() == 0,
            r.tails().len() == 0,
            r.next_loop() is None,
    {
        ProcCodegen {
            proc_id,
            fn_val,
            param_ptrs: Vec::new(),
            variable_ptrs: Vec::new(),
            tail_values: Vec::new(),
            block_stack: Vec::new(),
            defer_blocks: Vec::new(),
            next_loop_info: None,
        }
    }

    /// Starts on the procedure `proc_id`, forgetting all state.
    pub fn reset(&mut self, proc_id: u32, fn_val: V)
        ensures
            final(self).wf(),
            final(self).spec_proc_id() == proc_id,
            final(self).spec_fn_val() == fn_val,
            final(self).spec_params().len() == 0,
            final(self).spec_variables().len() == 0,
            final(self).blocks().len() == 0,
            final(self).defers().len() == 0,
            final(self).tails().len() == 0,
            final(self).next_loop() is None,
    {
        self.proc_id = proc_id;
        self.fn_val = fn_val;
        self.param_ptrs.clear();
        self.variable_ptrs.clear();
        self.tail_values.clear();
        self.block_stack.clear();
        self.defer_blocks.clear();
        self.next_loop_info = None;
    }

    /// Opens a block, the body of the loop announced by `set_next_loop_info` if any.
    pub fn block_enter(&mut self)
        requires
            old(self).wf(),
        ensures
            final(self).wf(),
            final(self).blocks() == old(self).blocks().push(
                BlockInfo { defer_count: 0, loop_info: old(self).next_loop() },
            ),
            final(self).defers() == old(self).defers(),
            final(self).tails() == old(self).tails(),
            final(self).next_loop() is None,
    {
        let block_info = BlockInfo { defer_count: 0, loop_info: self.next_loop_info.take() };
        self.block_stack.push(block_info);
        proof {
            assert(self.blocks().drop_last() =~= old(self).blocks());
        }
    }

    /// Closes the innermost block, dropping the deferred blocks it registered.
    pub fn block_exit(&mut self)
        requires
            old(self).wf(),
            old(self).blocks().len() > 0,
        ensures
            final(self).wf(),
            final(self).blocks() == old(self).blocks().drop_last(),
            final(self).defers() == old(self).defers().subrange(
                0,
                old(self).defers().len() - old(self).blocks().last().defer_count,
            ),
            final(self).tails() == old(self).tails(),
            final(self).next_loop() == old(self).next_loop(),
    {
        let defer_count = self.block_stack[self.block_stack.len() - 1].defer_count;
        let ghost d0 = self.defer_blocks@;
        let mut i: u32 = 0;
        while i < defer_count
            invariant
                0 <= i <= defer_count,
                defer_count <= d0.len(),
                self.defer_blocks@ == d0.subrange(0, d0.len() - i),
                self.block_stack == old(self).block_stack,
                self.tail_values == old(self).tail_values,
                self.next_loop_info == old(self).next_loop_info,
            decreases defer_count - i,
        {
            self.defer_blocks.pop();
            proof {
                assert(self.defer_blocks@ =~= d0.subrange(0, d0.len() - (i + 1)));
            }
            i = i + 1;
        }
        self.block_stack.pop();
    }

    /// Announces that the next block opened is the body of a loop.
    pub fn set_next_loop_info(&mut self, break_bb: BB, continue_bb: BB)
        ensures
            final(self).blocks() == old(self).blocks(),
            final(self).defers() == old(self).defers(),
            final(self).tails() == old(self).tails(),
            final(self).next_loop() == Some(LoopInfo { break_bb, continue_bb }),
    {
        let loop_info = LoopInfo { break_bb, continue_bb };
        self.next_loop_info = Some(loop_info);
    }

    /// Registers `block` to run when the innermost block is left.
    pub fn add_defer_block(&mut self, block: D)
        requires
            old(self).wf(),
            old(self).blocks().len() > 0,
            old(self).blocks().last().defer_count < u32::MAX,
        ensures
            final(self).wf(),
            final(self).blocks() == old(self).blocks().update(
                old(self).blocks().len() - 1,
                BlockInfo {
                    defer_count: (old(self).blocks().last().defer_count + 1) as u32,
                    loop_info: old(self).blocks().last().loop_info,
                },
            ),
            final(self).defers() == old(self).defers().push(block),
            final(self).tails() == old(self).tails(),
            final(self).next_loop() == old(self).next_loop(),
    {
        let last = self.block_stack.len() - 1;
        let mut info = self.block_stack[last];
        info.defer_count = info.defer_count + 1;
        self.block_stack.set(last, info);
        self.defer_blocks.push(block);
        proof {
            assert(self.blocks().drop_last() =~= old(self).blocks().drop_last());
        }
    }

    pub fn defer_block(&self, block_idx: usize) -> (r: D)
        requires
            block_idx < self.defers().len(),
        ensures
            r == self.defers()[block_idx as int],
    {
        self.defer_blocks[block_idx]
    }

    /// Indices of every registered deferred block.
    pub fn all_defer_blocks(&self) -> (r: core::ops::Range<usize>)
        ensures
            r.start == 0,
            r.end == self.defers().len(),
    {
        0..self.defer_blocks.len()
    }

    /// Indices of the deferred blocks of the innermost block.
    pub fn last_defer_blocks(&self) -> (r: core::ops::Range<usize>)
        requires
            self.wf(),
            self.blocks().len() > 0,
        ensures
            r.start == self.defers().len() - self.blocks().last().defer_count,
            r.end == self.defers().len(),
    {
        let total_count = self.defer_blocks.len();
        let defer_count = self.block_stack[self.block_stack.len() - 1].defer_count as usize;
        (total_count - defer_count)..total_count
    }

    /// The innermost loop, with the indices of the deferred blocks registered inside it
    /// (its body and the blocks within).
    pub fn last_loop_info(&self) -> (r: (LoopInfo<BB>, core::ops::Range<usize>))
        requires
            self.wf(),
            innermost_loop(self.blocks()) is Some,
        ensures
            ({
                let k = innermost_loop(self.blocks())->Some_0;
                &&& Some(r.0) == self.blocks()[k].loop_info
                &&& r.1.start == defer_total(self.blocks().subrange(0, k))
                &&& r.1.end == self.defers().len()
            }),
    {
        let total_count = self.defer_blocks.len();
        let mut defer_count: usize = 0;
        let mut i = self.block_stack.len();
        assert(self.blocks().subrange(0, i as int) =~= self.blocks());
        while i > 0
            invariant
                self.wf(),
                total_count == self.defers().len(),
                0 <= i <= self.blocks().len(),
                innermost_loop(self.blocks()) == innermost_loop(self.blocks().subrange(0, i as int)),
                defer_total(self.blocks()) == defer_total(self.blocks().subrange(0, i as int)) + defer_count,
            decreases i,
        {
            let info = self.block_stack[i - 1];
            proof {
                assert(self.blocks().subrange(0, i as int).drop_last() =~= self.blocks().subrange(0, i - 1));
            }
            defer_count = defer_count + info.defer_count as usize;
            if let Some(loop_info) = info.loop_info {
                return (loop_info, (total_count - defer_count)..total_count);
            }
            i = i - 1;
        }
        proof {
            assert(self.blocks().subrange(0, 0) =~= Seq::<BlockInfo<BB>>::empty());
        }
        let info = self.block_stack[0];
        (info.loop_info.unwrap(), 0..total_count)
    }

    /// A new, unset tail value.
    pub fn add_tail_value(&mut self) -> (r: TailValueID)
        requires
            old(self).tails().len() < u32::MAX,
        ensures
            r.0 == old(self).tails().len(),
            final(self).tails() == old(self).tails().push(None),
            final(self).blocks() == old(self).blocks(),
            final(self).defers() == old(self).defers(),
            final(self).next_loop() == old(self).next_loop(),
    {
        let value_id = TailValueID(self.tail_values.len() as u32);
        self.tail_values.push(None);
        value_id
    }

    pub fn tail_value(&self, value_id: TailValueID) -> (r: Option<TailValue<V, T>>)
        requires
            value_id.0 < self.tails().len(),
        ensures
            r == self.tails()[value_id.0 as int],
    {
        self.tail_values[value_id.0 as usize]
    }

    pub fn set_tail_value(&mut self, value_id: TailValueID, value_ptr: V, value_ty: T)
        requires
            value_id.0 < old(self).tails().len(),
        ensures
            final(self).tails() == old(self).tails().update(
                value_id.0 as int,
                Some(TailValue { value_ptr, value_ty }),
            ),
            final(self).blocks() == old(self).blocks(),
            final(self).defers() == old(self).defers(),
            final(self).next_loop() == old(self).next_loop(),
    {
        let value = TailValue { value_ptr, value_ty };
        self.tail_values.set(value_id.0 as usize, Some(value));
    }
}

/// A loop body stays the innermost loop while only blocks that are no loop bodies are
/// entered inside it, so `last_loop_info` gives its loop info.
pub proof fn law_innermost_loop_is_last_loop_body<BB>(
    blocks: Seq<BlockInfo<BB>>,
    body: BlockInfo<BB>,
    inner: Seq<BlockInfo<BB>>,
)
    requires
        body.loop_info is Some,
        forall|k: int| 0 <= k < inner.len() ==> (#[trigger] inner[k]).loop_info is None,
    ensures
        innermost_loop(blocks.push(body) + inner) == Some(blocks.len() as int),
        (blocks.push(body) + inner)[blocks.len() as int] == body,
    decreases inner.len(),
{
    let s = blocks.push(body) + inner;
    if inner.len() == 0 {
        assert(s =~= blocks.push(body));
    } else {
        law_innermost_loop_is_last_loop_body(blocks, body, inner.drop_last());
        assert(s.drop_last() =~= blocks.push(body) + inner.drop_last());
        assert(s.last() == inner[inner.len() - 1]);
    }
}

/// Entering a block, registering deferred blocks `xs` in it and leaving it again gives
/// back the open blocks and the deferred blocks from before: leaving a block drops
/// exactly what it registered.
pub proof fn law_block_exit_drops_its_defers<BB, D>(
    blocks: Seq<BlockInfo<BB>>,
    defers: Seq<D>,
    xs: Seq<D>,
    next: Option<LoopInfo<BB>>,
)
    requires
        defer_total(blocks) == defers.len(),
        xs.len() <= u32::MAX,
    ensures
        ({
            let inner = blocks.push(BlockInfo { defer_count: xs.len() as u32, loop_info: next });
            &&& defer_total(inner) == (defers + xs).len()
            &&& inner.drop_last() == blocks
            &&& (defers + xs).subrange(0, (defers + xs).len() - inner.last().defer_count) == defers
        }),
{
    let inner = blocks.push(BlockInfo { defer_count: xs.len() as u32, loop_info: next });
    assert(inner.drop_last() =~= blocks);
    assert((defers + xs).subrange(0, defers.len() as int) =~= defers);
}

} // verus!
