use vstd::prelude::*;
use vstd::string::StringSliceAdditionalSpecFns;
use crate::error::{SourceRange, TreeError, TreeErrorKind};
use crate::ids::{ModuleID, NodeID, TokenID, TriviaID};
use crate::lexer::{byte_covered, covered, lexed_wf, lexed_widths};
use crate::parser::{ev_kind, lemma_token_events_update, token_events, Event};
use crate::support::{TempBuffer, TempOffset};
use crate::syntax_kind::SyntaxKind;
use crate::text::{TextOffset, TextRange};
use crate::token_list::{TokenList, Trivia};

verus! {

/// One entry of a node's content.
#[derive(Copy, Clone, PartialEq, Eq, Debug, Structural)]
pub enum NodeOrToken {
    Node(NodeID),
    Token(TokenID),
    Trivia(TriviaID),
}

/// A node of the syntax tree; its content is `content_len` entries of the tree's
/// content list, starting at `content_idx`.
#[derive(Copy, Clone, PartialEq, Eq, Debug, Structural)]
pub struct Node {
    pub kind: SyntaxKind,
    pub range: TextRange,
    pub content_idx: u32,
    pub content_len: u32,
}

/// Lossless syntax tree: nodes over the tokens and trivia of one source file.
pub struct SyntaxTree {
    nodes: Vec<Node>,
    content: Vec<NodeOrToken>,
    tokens: TokenList,
    complete: bool,
}

impl SyntaxTree {
    pub closed spec fn nodes_view(&self) -> Seq<Node> {
        self.nodes@
    }

    pub closed spec fn content_view(&self) -> Seq<NodeOrToken> {
        self.content@
    }

    pub closed spec fn token_list(&self) -> TokenList {
        self.tokens
    }

    pub closed spec fn is_complete(&self) -> bool {
        self.complete
    }

    /// The entry `x` may stand in the content of node `parent`: a node made after it,
    /// or a token or trivia of the list.
    pub open spec fn entry_ok(&self, parent: int, x: NodeOrToken) -> bool {
        match x {
            NodeOrToken::Node(id) => parent < id.0 < self.nodes_view().len(),
            NodeOrToken::Token(id) => id.0 < self.token_list().token_len(),
            NodeOrToken::Trivia(id) => id.0 < self.token_list().trivia_len(),
        }
    }

    /// The content of node `i`.
    pub open spec fn node_content(&self, i: int) -> Seq<NodeOrToken> {
        let n = self.nodes_view()[i];
        self.content_view().subrange(
            n.content_idx as int,
            n.content_idx as int + n.content_len as int,
        )
    }

    pub open spec fn node_ok(&self, i: int) -> bool {
        let n = self.nodes_view()[i];
        &&& n.content_idx as int + n.content_len as int <= self.content_view().len()
        &&& forall|j: int|
            n.content_idx <= j < n.content_idx as int + n.content_len as int ==> self.entry_ok(
                i,
                #[trigger] self.content_view()[j],
            )
    }

    /// The root is a `SOURCE_FILE` node, every node's content lies in the content list,
    /// and a node only holds nodes made after it, so the tree has no cycle.
    pub open spec fn wf(&self) -> bool {
        &&& self.token_list().wf()
        &&& self.nodes_view().len() >= 1
        &&& self.nodes_view().len() <= u32::MAX
        &&& self.content_view().len() <= u32::MAX
        &&& self.nodes_view()[0].kind == SyntaxKind::SOURCE_FILE
        &&& forall|i: int| 0 <= i < self.nodes_view().len() ==> #[trigger] self.node_ok(i)
    }

    /// A tree of only the root node over `tokens`, for a source that could not be parsed.
    pub fn unparsed(tokens: TokenList) -> (r: SyntaxTree)
        requires
            tokens.wf(),
        ensures
            r.wf(),
            r.token_list() == tokens,
            !r.is_complete(),
            r.nodes_view().len() == 1,
            r.content_view().len() == 0,
    {
        let mut nodes = Vec::new();
        nodes.push(
            Node {
                kind: SyntaxKind::SOURCE_FILE,
                range: TextRange::zero(),
                content_idx: 0,
                content_len: 0,
            },
        );
        let r = SyntaxTree { nodes, content: Vec::new(), tokens, complete: false };
        assert(r.node_ok(0));
        r
    }

    /// Every trivia of the token list, and every token but the two closing `Eof` tokens,
    /// stands exactly once in the content list.
    pub open spec fn leaves_once(&self) -> bool {
        &&& forall|v: int|
            0 <= v < self.token_list().trivia_len() ==> #[trigger] occurrences(
                self.content_view(),
                NodeOrToken::Trivia(TriviaID(v as u32)),
            ) == 1
        &&& forall|t: int|
            0 <= t < self.token_list().token_len() ==> #[trigger] occurrences(
                self.content_view(),
                NodeOrToken::Token(TokenID(t as u32)),
            ) == (if t < self.token_list().token_len() - 2 {
                1nat
            } else {
                0nat
            })
    }

    /// Each node but the root stands exactly once in the content list; the root never does.
    pub open spec fn nodes_once(&self) -> bool {
        forall|i: int|
            0 <= i < self.nodes_view().len() ==> #[trigger] occurrences(
                self.content_view(),
                NodeOrToken::Node(NodeID(i as u32)),
            ) == (if i == 0 {
                0nat
            } else {
                1nat
            })
    }

    /// Every node's range is well formed and holds the ranges of its content, which come
    /// in source order: each entry, child node or leaf, ends where or before the next
    /// starts.
    pub open spec fn ranges_nest(&self) -> bool {
        forall|i: int|
            0 <= i < self.nodes_view().len() ==> #[trigger] nested(
                self.nodes_view(),
                self.token_list(),
                self.content_view(),
                i,
            )
    }

    /// Node `p` holds node `c` in its content.
    pub open spec fn holds_node(&self, p: int, c: int) -> bool {
        exists|j: int|
            #![trigger in_node(self.nodes_view()[p], j)]
            in_node(self.nodes_view()[p], j) && self.content_view()[j] == NodeOrToken::Node(
                NodeID(c as u32),
            )
    }

    /// Node `i` is the root, or is held by a node made before it that is reachable.
    pub open spec fn reachable(&self, i: int) -> bool
        decreases i,
    {
        if i <= 0 {
            i == 0
        } else {
            exists|p: int| 0 <= p < i && #[trigger] self.holds_node(p, i) && self.reachable(p)
        }
    }

    /// Entry `j` of the content list lies in the content of some node.
    pub open spec fn entry_covered(&self, j: int) -> bool {
        exists|i: int| 0 <= i < self.nodes_view().len() && #[trigger] in_node(self.nodes_view()[i], j)
    }

    /// Each entry of the content list lies in the content of exactly one node.
    pub open spec fn content_partitioned(&self) -> bool {
        &&& forall|j: int| 0 <= j < self.content_view().len() ==> #[trigger] self.entry_covered(j)
        &&& forall|i1: int, i2: int, j: int|
            #![trigger in_node(self.nodes_view()[i1], j), in_node(self.nodes_view()[i2], j)]
            0 <= i1 < self.nodes_view().len() && 0 <= i2 < self.nodes_view().len() && in_node(
                self.nodes_view()[i1],
                j,
            ) && in_node(self.nodes_view()[i2], j) ==> i1 == i2
    }

    pub fn root(&self) -> (r: &Node)
        requires
            self.wf(),
        ensures
            *r == self.nodes_view()[0],
    {
        &self.nodes[0]
    }

    pub fn node(&self, id: NodeID) -> (r: &Node)
        requires
            id.0 < self.nodes_view().len(),
        ensures
            *r == self.nodes_view()[id.0 as int],
    {
        &self.nodes[id.index()]
    }

    pub fn node_count(&self) -> (r: usize)
        ensures
            r == self.nodes_view().len(),
    {
        self.nodes.len()
    }

    pub fn tokens(&self) -> (r: &TokenList)
        ensures
            *r == self.token_list(),
    {
        &self.tokens
    }

    pub fn complete(&self) -> (r: bool)
        ensures
            r == self.is_complete(),
    {
        self.complete
    }

    /// The content entries of `node`, in order.
    pub fn content_of(&self, node: &Node) -> (r: &[NodeOrToken])
        requires
            node.content_idx as int + node.content_len as int <= self.content_view().len(),
        ensures
            r@ == self.content_view().subrange(
                node.content_idx as int,
                node.content_idx as int + node.content_len as int,
            ),
    {
        let total = self.content.len();
        let start = node.content_idx as usize;
        let end = start + node.content_len as usize;
        assert(end <= total);
        &self.content.as_slice()[start..end]
    }

    /// A double-ended walk over the content entries of `node`.
    pub fn content<'syn>(&'syn self, node: &Node) -> (r: NodeContentIter<'syn>)
        requires
            node.content_idx as int + node.content_len as int <= self.content_view().len(),
            self.content_view().len() <= u32::MAX,
        ensures
            r.wf(),
            r.remaining() == self.content_view().subrange(
                node.content_idx as int,
                node.content_idx as int + node.content_len as int,
            ),
    {
        NodeContentIter {
            tree: self,
            pos: node.content_idx,
            end: node.content_idx + node.content_len,
        }
    }
}

/// A walk over the content of one node, from both ends.
pub struct NodeContentIter<'syn> {
    pub tree: &'syn SyntaxTree,
    pos: u32,
    end: u32,
}

impl<'syn> NodeContentIter<'syn> {
    pub closed spec fn wf(&self) -> bool {
        self.pos <= self.end && self.end <= self.tree.content@.len()
    }

    /// The entries not yet handed out.
    pub closed spec fn remaining(&self) -> Seq<NodeOrToken> {
        self.tree.content@.subrange(self.pos as int, self.end as int)
    }

    /// The next entry from the front, if any.
    pub fn next(&mut self) -> (r: Option<NodeOrToken>)
        requires
            old(self).wf(),
        ensures
            final(self).wf(),
            old(self).remaining().len() == 0 ==> r is None && final(self).remaining().len() == 0,
            old(self).remaining().len() > 0 ==> r == Some(old(self).remaining()[0])
                && final(self).remaining() == old(self).remaining().subrange(
                1,
                old(self).remaining().len() as int,
            ),
    {
        if self.pos == self.end {
            return None;
        }
        let not = self.tree.content[self.pos as usize];
        self.pos = self.pos + 1;
        proof {
            assert(self.remaining() =~= old(self).remaining().subrange(
                1,
                old(self).remaining().len() as int,
            ));
        }
        Some(not)
    }

    /// The next entry from the back, if any.
    pub fn next_back(&mut self) -> (r: Option<NodeOrToken>)
        requires
            old(self).wf(),
        ensures
            final(self).wf(),
            old(self).remaining().len() == 0 ==> r is None && final(self).remaining().len() == 0,
            old(self).remaining().len() > 0 ==> r == Some(
                old(self).remaining()[old(self).remaining().len() - 1],
            ) && final(self).remaining() == old(self).remaining().subrange(
                0,
                old(self).remaining().len() - 1,
            ),
    {
        if self.pos == self.end {
            return None;
        }
        self.end = self.end - 1;
        let not = self.tree.content[self.end as usize];
        proof {
            assert(self.remaining() =~= old(self).remaining().subrange(
                0,
                old(self).remaining().len() - 1,
            ));
        }
        Some(not)
    }
}


/// Number of `StartNode` events in `s`.
pub open spec fn start_count(s: Seq<Event>) -> nat
    decreases s.len(),
{
    if s.len() == 0 {
        0
    } else {
        (if s[0] is StartNode {
            1nat
        } else {
            0nat
        }) + start_count(s.subrange(1, s.len() as int))
    }
}

proof fn lemma_token_events_front(s: Seq<Event>, a: int, b: int)
    requires
        0 <= a < b <= s.len(),
    ensures
        token_events(s.subrange(a, b)) == (if s[a] is Token {
            1nat
        } else {
            0nat
        }) + token_events(s.subrange(a + 1, b)),
    decreases b - a,
{
    if b == a + 1 {
        assert(s.subrange(a, b).drop_last() =~= Seq::<Event>::empty());
        assert(s.subrange(a + 1, b) =~= Seq::<Event>::empty());
    } else {
        lemma_token_events_front(s, a, b - 1);
        assert(s.subrange(a, b).drop_last() =~= s.subrange(a, b - 1));
        assert(s.subrange(a + 1, b).drop_last() =~= s.subrange(a + 1, b - 1));
    }
}

proof fn lemma_start_count_le(s: Seq<Event>)
    ensures
        start_count(s) <= s.len(),
    decreases s.len(),
{
    if s.len() > 0 {
        lemma_start_count_le(s.subrange(1, s.len() as int));
    }
}

proof fn lemma_start_count_ignore(s: Seq<Event>, i: int)
    requires
        0 <= i < s.len(),
        s[i] is StartNode,
    ensures
        start_count(s.update(i, Event::Ignore)) + 1 == start_count(s),
    decreases s.len(),
{
    let u = s.update(i, Event::Ignore);
    if i == 0 {
        assert(u.subrange(1, u.len() as int) =~= s.subrange(1, s.len() as int));
    } else {
        let t = s.subrange(1, s.len() as int);
        assert(u.subrange(1, u.len() as int) =~= t.update(i - 1, Event::Ignore));
        lemma_start_count_ignore(t, i - 1);
    }
}

proof fn lemma_start_count_step(s: Seq<Event>, a: int)
    requires
        0 <= a < s.len(),
    ensures
        start_count(s.subrange(a, s.len() as int)) == (if s[a] is StartNode {
            1nat
        } else {
            0nat
        }) + start_count(s.subrange(a + 1, s.len() as int)),
{
    let t = s.subrange(a, s.len() as int);
    assert(t.subrange(1, t.len() as int) =~= s.subrange(a + 1, s.len() as int));
}

/// Number of newline bytes in `s`.
pub open spec fn newline_count(s: Seq<u8>) -> nat
    decreases s.len(),
{
    if s.len() == 0 {
        0
    } else {
        newline_count(s.drop_last()) + (if s.last() == 10 {
            1nat
        } else {
            0nat
        })
    }
}

/// Counts the newlines inside `range` of `source`.
fn count_newlines(source: &[u8], range: TextRange) -> (r: usize)
    requires
        range.wf(),
        range.end.0 <= source@.len(),
    ensures
        r == newline_count(source@.subrange(range.start.0 as int, range.end.0 as int)),
{
    let start = range.start.0 as usize;
    let end = range.end.0 as usize;
    let mut i = start;
    let mut count: usize = 0;
    while i < end
        invariant
            start <= i <= end,
            end <= source@.len(),
            count == newline_count(source@.subrange(start as int, i as int)),
            count <= i - start,
        decreases end - i,
    {
        proof {
            let s = source@.subrange(start as int, i as int + 1);
            assert(s.drop_last() =~= source@.subrange(start as int, i as int));
        }
        if source[i] == 10u8 {
            count = count + 1;
        }
        i = i + 1;
    }
    count
}

/// State of the tree build: replays parse events over the tokens and trivia.
struct TreeBuild<'src> {
    source: &'src [u8],
    tokens: TokenList,
    events: Vec<Event>,
    module_id: ModuleID,
    errors: Vec<TreeError>,
    nodes: Vec<Node>,
    content: TempBuffer<NodeOrToken>,
    content_vec: Vec<NodeOrToken>,
    node_stack: Vec<(TempOffset, NodeID)>,
    parent_stack: Vec<SyntaxKind>,
    curr_token: TokenID,
    curr_trivia: TriviaID,
    /// For each entry of `content_vec`, the node whose content holds it.
    owner: Ghost<Seq<int>>,
}

/// Number of times `x` occurs in `s`.
pub open spec fn occurrences(s: Seq<NodeOrToken>, x: NodeOrToken) -> nat
    decreases s.len(),
{
    if s.len() == 0 {
        0
    } else {
        occurrences(s.drop_last(), x) + (if s.last() == x {
            1nat
        } else {
            0nat
        })
    }
}

proof fn lemma_occurrences_concat(a: Seq<NodeOrToken>, b: Seq<NodeOrToken>, x: NodeOrToken)
    ensures
        occurrences(a + b, x) == occurrences(a, x) + occurrences(b, x),
    decreases b.len(),
{
    if b.len() == 0 {
        assert(a + b =~= a);
    } else {
        lemma_occurrences_concat(a, b.drop_last(), x);
        assert((a + b).drop_last() =~= a + b.drop_last());
    }
}

proof fn lemma_occurrences_pos(s: Seq<NodeOrToken>, x: NodeOrToken)
    requires
        occurrences(s, x) > 0,
    ensures
        exists|j: int| 0 <= j < s.len() && s[j] == x,
    decreases s.len(),
{
    if s.last() == x {
        assert(s[s.len() - 1] == x);
    } else {
        lemma_occurrences_pos(s.drop_last(), x);
        let j = choose|j: int| 0 <= j < s.len() - 1 && s.drop_last()[j] == x;
        assert(s[j] == x);
    }
}

/// In a tree built from a token list, every trivia stands in the content of a node: no
/// comment or whitespace of the source is lost.
pub proof fn law_trivia_in_a_node(tree: &SyntaxTree, v: int)
    requires
        tree.leaves_once(),
        tree.content_partitioned(),
        0 <= v < tree.token_list().trivia_len(),
    ensures
        exists|i: int, j: int|
            0 <= i < tree.nodes_view().len() && in_node(tree.nodes_view()[i], j)
                && tree.content_view()[j] == NodeOrToken::Trivia(TriviaID(v as u32)),
{
    let x = NodeOrToken::Trivia(TriviaID(v as u32));
    assert(occurrences(tree.content_view(), x) == 1);
    lemma_occurrences_pos(tree.content_view(), x);
    let j = choose|j: int| 0 <= j < tree.content_view().len() && tree.content_view()[j] == x;
    assert(tree.entry_covered(j));
    let i = choose|i: int| 0 <= i < tree.nodes_view().len() && #[trigger] in_node(tree.nodes_view()[i], j);
    assert(in_node(tree.nodes_view()[i], j) && tree.content_view()[j] == x);
}

proof fn lemma_occurrences_at(s: Seq<NodeOrToken>, x: NodeOrToken, j: int)
    requires
        0 <= j < s.len(),
        s[j] == x,
    ensures
        occurrences(s, x) >= 1,
    decreases s.len(),
{
    if j < s.len() - 1 {
        lemma_occurrences_at(s.drop_last(), x, j);
    }
}

proof fn lemma_occurrences_two(s: Seq<NodeOrToken>, x: NodeOrToken, j1: int, j2: int)
    requires
        0 <= j1 < j2 < s.len(),
        s[j1] == x,
        s[j2] == x,
    ensures
        occurrences(s, x) >= 2,
    decreases s.len(),
{
    if j2 == s.len() - 1 {
        lemma_occurrences_at(s.drop_last(), x, j1);
    } else {
        lemma_occurrences_two(s.drop_last(), x, j1, j2);
    }
}

/// Every node of the tree but the root is held by exactly one node, made before it, and
/// at exactly one place of that node's content; no node holds the root.
pub proof fn law_one_parent(tree: &SyntaxTree, c: int)
    requires
        tree.wf(),
        tree.nodes_once(),
        tree.content_partitioned(),
        0 <= c < tree.nodes_view().len(),
    ensures
        c > 0 ==> exists|p: int| 0 <= p < c && #[trigger] tree.holds_node(p, c),
        c == 0 ==> forall|p: int| 0 <= p < tree.nodes_view().len() ==> !#[trigger] tree.holds_node(p, c),
        forall|p1: int, j1: int, p2: int, j2: int|
            #![trigger in_node(tree.nodes_view()[p1], j1), in_node(tree.nodes_view()[p2], j2)]
            0 <= p1 < tree.nodes_view().len() && 0 <= p2 < tree.nodes_view().len() && in_node(
                tree.nodes_view()[p1],
                j1,
            ) && in_node(tree.nodes_view()[p2], j2) && tree.content_view()[j1] == NodeOrToken::Node(
                NodeID(c as u32),
            ) && tree.content_view()[j2] == NodeOrToken::Node(NodeID(c as u32)) ==> p1 == p2 && j1
                == j2,
{
    let x = NodeOrToken::Node(NodeID(c as u32));
    let s = tree.content_view();
    assert(occurrences(s, x) == (if c == 0 {
        0nat
    } else {
        1nat
    }));
    assert forall|p1: int, j1: int, p2: int, j2: int|
        #![trigger in_node(tree.nodes_view()[p1], j1), in_node(tree.nodes_view()[p2], j2)]
        0 <= p1 < tree.nodes_view().len() && 0 <= p2 < tree.nodes_view().len() && in_node(
            tree.nodes_view()[p1],
            j1,
        ) && in_node(tree.nodes_view()[p2], j2) && s[j1] == x && s[j2] == x implies p1 == p2 && j1
        == j2 by {
        assert(tree.node_ok(p1));
        assert(tree.node_ok(p2));
        if j1 < j2 {
            lemma_occurrences_two(s, x, j1, j2);
        } else if j2 < j1 {
            lemma_occurrences_two(s, x, j2, j1);
        }
    }
    if c > 0 {
        lemma_occurrences_pos(s, x);
        let j = choose|j: int| 0 <= j < s.len() && s[j] == x;
        assert(tree.entry_covered(j));
        let p = choose|p: int| 0 <= p < tree.nodes_view().len() && #[trigger] in_node(
            tree.nodes_view()[p],
            j,
        );
        assert(tree.node_ok(p));
        assert(tree.entry_ok(p, s[j]));
        assert(tree.holds_node(p, c));
    } else {
        assert forall|p: int| 0 <= p < tree.nodes_view().len() implies !#[trigger] tree.holds_node(
            p,
            c,
        ) by {
            if tree.holds_node(p, c) {
                let j = choose|j: int| #![trigger in_node(tree.nodes_view()[p], j)] in_node(tree.nodes_view()[p], j)
                    && s[j] == x;
                assert(tree.node_ok(p));
                lemma_occurrences_at(s, x, j);
            }
        }
    }
}

/// A child node, like every entry of a node's content, lies within the range of the node
/// that holds it, and two entries of one content come in source order: the earlier ends
/// where or before the later starts.
pub proof fn law_ranges_nest(tree: &SyntaxTree, p: int, j1: int, j2: int)
    requires
        tree.wf(),
        tree.ranges_nest(),
        0 <= p < tree.nodes_view().len(),
        in_node(tree.nodes_view()[p], j1),
        in_node(tree.nodes_view()[p], j2),
        j1 < j2,
    ensures
        ({
            let n = tree.nodes_view()[p];
            let r1 = erange(tree.nodes_view(), tree.token_list(), tree.content_view()[j1]);
            let r2 = erange(tree.nodes_view(), tree.token_list(), tree.content_view()[j2]);
            &&& n.range.start.0 <= r1.start.0 <= r1.end.0 <= r2.start.0 <= r2.end.0 <= n.range.end.0
        }),
{
    let n = tree.nodes_view()[p];
    assert(nested(tree.nodes_view(), tree.token_list(), tree.content_view(), p));
    let c = tree.content_view().subrange(n.content_idx as int, n.content_idx + n.content_len);
    let a = n.content_idx as int;
    assert(tree.node_ok(p));
    assert(c[j1 - a] == tree.content_view()[j1]);
    assert(c[j2 - a] == tree.content_view()[j2]);
}

/// The leaves met by a pre-order walk of node `i`: its content in order, each child node
/// replaced by the leaves of its own walk.
pub open spec fn walk(tree: &SyntaxTree, i: int) -> Seq<NodeOrToken>
    decreases tree.nodes_view().len() - i, tree.content_view().len() + 1,
{
    let n = tree.nodes_view()[i];
    if 0 <= i < tree.nodes_view().len() && n.content_idx + n.content_len <= tree.content_view().len() {
        walk_seq(
            tree,
            i,
            tree.content_view().subrange(n.content_idx as int, n.content_idx + n.content_len),
        )
    } else {
        seq![]
    }
}

/// The leaves met by a pre-order walk of the entries `s` of node `i`'s content.
pub open spec fn walk_seq(tree: &SyntaxTree, i: int, s: Seq<NodeOrToken>) -> Seq<NodeOrToken>
    decreases tree.nodes_view().len() - i, s.len(),
{
    if s.len() == 0 || s.len() > tree.content_view().len() {
        seq![]
    } else {
        let rest = walk_seq(tree, i, s.drop_last());
        match s.last() {
            NodeOrToken::Node(c) => if i < c.0 < tree.nodes_view().len() {
                rest + walk(tree, c.0 as int)
            } else {
                rest
            },
            leaf => rest.push(leaf),
        }
    }
}

/// The leaves of `w` are in source order and lie within `lo..hi`.
pub open spec fn leaves_in_order(tree: &SyntaxTree, w: Seq<NodeOrToken>, lo: int, hi: int) -> bool {
    &&& forall|j: int|
        0 <= j < w.len() ==> !((#[trigger] w[j]) is Node) && tree.entry_ok(-1, w[j]) && (w[j] is Token
            ==> w[j]->Token_0.0 < tree.token_list().token_len() - 2)
    &&& in_order(tree.nodes_view(), tree.token_list(), w)
    &&& forall|j: int|
        0 <= j < w.len() ==> lo <= #[trigger] erange(tree.nodes_view(), tree.token_list(), w[j]).start.0
            && erange(tree.nodes_view(), tree.token_list(), w[j]).end.0 <= hi
}

proof fn lemma_leaves_concat(tree: &SyntaxTree, a: Seq<NodeOrToken>, b: Seq<NodeOrToken>, lo: int, mid: int, hi: int)
    requires
        leaves_in_order(tree, a, lo, mid),
        leaves_in_order(tree, b, mid, hi),
        lo <= mid <= hi,
    ensures
        leaves_in_order(tree, a + b, lo, hi),
{
    let w = a + b;
    let nodes = tree.nodes_view();
    let tl = tree.token_list();
    assert forall|j: int| 0 <= j < w.len() implies !((#[trigger] w[j]) is Node) && lo <= erange(nodes, tl, w[j]).start.0
        && erange(nodes, tl, w[j]).end.0 <= hi && erange(nodes, tl, w[j]).start.0 <= erange(nodes, tl, w[j]).end.0 by {
        if j < a.len() {
            assert(w[j] == a[j]);
        } else {
            assert(w[j] == b[j - a.len()]);
        }
    }
    assert forall|j1: int, j2: int| 0 <= j1 < j2 < w.len() implies #[trigger] erange(nodes, tl, w[j1]).end.0
        <= #[trigger] erange(nodes, tl, w[j2]).start.0 by {
        if j2 < a.len() {
            assert(w[j1] == a[j1] && w[j2] == a[j2]);
        } else if j1 >= a.len() {
            assert(w[j1] == b[j1 - a.len()] && w[j2] == b[j2 - a.len()]);
        } else {
            assert(w[j1] == a[j1] && w[j2] == b[j2 - a.len()]);
        }
    }
}

proof fn lemma_nested_entry(nodes: Seq<Node>, tl: TokenList, content: Seq<NodeOrToken>, i: int, j: int)
    requires
        nested(nodes, tl, content, i),
        nodes[i].content_idx <= j < nodes[i].content_idx + nodes[i].content_len,
    ensures
        nodes[i].range.start.0 <= erange(nodes, tl, content[j]).start.0,
        erange(nodes, tl, content[j]).end.0 <= nodes[i].range.end.0,
{
    let n = nodes[i];
    assert(n.content_idx <= j < n.content_idx + n.content_len);
    assert(n.range.start.0 <= erange(nodes, tl, content[j]).start.0 && erange(nodes, tl, content[j]).end.0
        <= n.range.end.0);
}

proof fn lemma_leaves_widen(tree: &SyntaxTree, w: Seq<NodeOrToken>, lo: int, hi: int, lo2: int, hi2: int)
    requires
        leaves_in_order(tree, w, lo, hi),
        lo2 <= lo,
        hi <= hi2,
    ensures
        leaves_in_order(tree, w, lo2, hi2),
{
}

/// The walk of the first `k` entries of node `i`'s content is in source order, within
/// the node's start and the end of entry `k - 1`.
#[verifier::rlimit(60)]
#[verifier::spinoff_prover]
proof fn lemma_walk_seq_in_order(tree: &SyntaxTree, i: int, k: int)
    requires
        tree.wf(),
        tree.ranges_nest(),
        tree.leaves_once(),
        0 <= i < tree.nodes_view().len(),
        0 <= k <= tree.nodes_view()[i].content_len,
    ensures
        ({
            let n = tree.nodes_view()[i];
            let c = tree.content_view().subrange(n.content_idx as int, n.content_idx + n.content_len);
            let hi = if k == 0 {
                n.range.start.0 as int
            } else {
                erange(tree.nodes_view(), tree.token_list(), c[k - 1]).end.0 as int
            };
            leaves_in_order(tree, walk_seq(tree, i, c.subrange(0, k)), n.range.start.0 as int, hi)
        }),
    decreases tree.nodes_view().len() - i, k,
{
    let nodes = tree.nodes_view();
    let tl = tree.token_list();
    let n = nodes[i];
    assert(tree.node_ok(i));
    assert(nested(nodes, tl, tree.content_view(), i));
    let c = tree.content_view().subrange(n.content_idx as int, n.content_idx + n.content_len);
    let p = c.subrange(0, k);
    if k == 0 {
        assert(walk_seq(tree, i, p) =~= Seq::<NodeOrToken>::empty());
    } else {
        lemma_walk_seq_in_order(tree, i, k - 1);
        assert(p.drop_last() =~= c.subrange(0, k - 1));
        let x = c[k - 1];
        assert(p.last() == x);
        let a = n.content_idx as int;
        assert(c[k - 1] == tree.content_view()[a + k - 1]);
        let rx = erange(nodes, tl, x);
        let lo_x = if k == 1 {
            n.range.start.0 as int
        } else {
            erange(nodes, tl, c[k - 2]).end.0 as int
        };
        assert(lo_x <= rx.start.0 && n.range.start.0 <= lo_x && rx.start.0 <= rx.end.0) by {
            assert(rx.start.0 <= rx.end.0);
            if k >= 2 {
                assert(c[k - 2] == tree.content_view()[a + k - 2]);
                assert(n.range.start.0 <= erange(nodes, tl, tree.content_view()[a + k - 2]).start.0);
                assert(erange(nodes, tl, c[k - 2]).start.0 <= erange(nodes, tl, c[k - 2]).end.0);
            }
        }
        let rest = walk_seq(tree, i, p.drop_last());
        match x {
            NodeOrToken::Node(cid) => {
                assert(tree.entry_ok(i, tree.content_view()[a + k - 1]));
                lemma_walk_in_order(tree, cid.0 as int);
                lemma_leaves_widen(tree, walk(tree, cid.0 as int), rx.start.0 as int, rx.end.0 as int, lo_x, rx.end.0 as int);
                lemma_leaves_concat(tree, rest, walk(tree, cid.0 as int), n.range.start.0 as int, lo_x, rx.end.0 as int);
            },
            _ => {
                let one = seq![x];
                assert(tree.entry_ok(i, tree.content_view()[a + k - 1]));
                if let NodeOrToken::Token(t) = x {
                    if t.0 >= tree.token_list().token_len() - 2 {
                        let ti = t.0 as int;
                        assert(TokenID(ti as u32) == t);
                        assert(0 <= ti < tree.token_list().token_len());
                        assert(occurrences(tree.content_view(), NodeOrToken::Token(TokenID(ti as u32))) == 0);
                        lemma_occurrences_at(tree.content_view(), x, a + k - 1);
                    }
                }
                assert(leaves_in_order(tree, one, lo_x, rx.end.0 as int));
                lemma_leaves_concat(tree, rest, one, n.range.start.0 as int, lo_x, rx.end.0 as int);
                assert(rest.push(x) =~= rest + one);
            },
        }
    }
}

/// A pre-order walk of a node meets its leaves in source order, within the node's range:
/// each leaf ends where or before the next one starts.
pub proof fn lemma_walk_in_order(tree: &SyntaxTree, i: int)
    requires
        tree.wf(),
        tree.ranges_nest(),
        tree.leaves_once(),
        0 <= i < tree.nodes_view().len(),
    ensures
        leaves_in_order(
            tree,
            walk(tree, i),
            tree.nodes_view()[i].range.start.0 as int,
            tree.nodes_view()[i].range.end.0 as int,
        ),
    decreases tree.nodes_view().len() - i, tree.content_view().len() + 1,
{
    let n = tree.nodes_view()[i];
    assert(tree.node_ok(i));
    assert(nested(tree.nodes_view(), tree.token_list(), tree.content_view(), i));
    let c = tree.content_view().subrange(n.content_idx as int, n.content_idx + n.content_len);
    lemma_walk_seq_in_order(tree, i, n.content_len as int);
    assert(c.subrange(0, n.content_len as int) =~= c);
    let w = walk_seq(tree, i, c.subrange(0, n.content_len as int));
    assert(walk(tree, i) == w);
    if n.content_len > 0 {
        let a = n.content_idx as int;
        let j = a + n.content_len - 1;
        assert(c[n.content_len - 1] == tree.content_view()[j]);
        lemma_nested_entry(tree.nodes_view(), tree.token_list(), tree.content_view(), i, j);
        let hi = erange(tree.nodes_view(), tree.token_list(), c[n.content_len - 1]).end.0 as int;
        assert(leaves_in_order(tree, w, n.range.start.0 as int, hi));
        assert(hi <= n.range.end.0);
        lemma_leaves_widen(tree, w, n.range.start.0 as int, hi, n.range.start.0 as int, n.range.end.0 as int);
    } else {
        lemma_leaves_widen(tree, w, n.range.start.0 as int, n.range.start.0 as int, n.range.start.0 as int, n.range.end.0 as int);
    }
}

/// A pre-order walk of the tree meets its tokens and trivia in source order, each ending
/// where or before the next one starts, and so meets the tokens, and the trivia, in
/// increasing order.
pub proof fn law_walk_in_source_order(tree: &SyntaxTree, len: int, a: int, b: int)
    requires
        tree.wf(),
        tree.ranges_nest(),
        tree.leaves_once(),
        lexed_wf(&tree.token_list(), len),
        0 <= a < b < walk(tree, 0).len(),
    ensures
        ({
            let w = walk(tree, 0);
            &&& !(w[a] is Node) && !(w[b] is Node)
            &&& erange(tree.nodes_view(), tree.token_list(), w[a]).end.0 <= erange(
                tree.nodes_view(),
                tree.token_list(),
                w[b],
            ).start.0
            &&& (w[a] is Trivia && w[b] is Trivia) ==> w[a]->Trivia_0.0 < w[b]->Trivia_0.0
            &&& (w[a] is Token && w[b] is Token) ==> w[a]->Token_0.0 < w[b]->Token_0.0
        }),
{
    reveal(lexed_widths);
    let w = walk(tree, 0);
    lemma_walk_in_order(tree, 0);
    let tl = tree.token_list();
    assert(tree.entry_ok(-1, w[a]) && tree.entry_ok(-1, w[b]));
    assert(erange(tree.nodes_view(), tl, w[a]).end.0 <= erange(tree.nodes_view(), tl, w[b]).start.0);
    if w[a] is Trivia && w[b] is Trivia {
        let va = w[a]->Trivia_0.0 as int;
        let vb = w[b]->Trivia_0.0 as int;
        tl.lemma_trivia_lens();
        assert(tl.trivia_ranges_view()[va].start.0 < tl.trivia_ranges_view()[va].end.0);
        assert(tl.trivia_ranges_view()[vb].start.0 < tl.trivia_ranges_view()[vb].end.0);
        assert(erange(tree.nodes_view(), tl, w[a]) == tl.trivia_ranges_view()[va]);
        assert(erange(tree.nodes_view(), tl, w[b]) == tl.trivia_ranges_view()[vb]);
        if vb < va {
            assert(tl.trivia_ranges_view()[vb].end.0 <= tl.trivia_ranges_view()[va].start.0);
        }
    }
    if w[a] is Token && w[b] is Token {
        let ta = w[a]->Token_0.0 as int;
        let tb = w[b]->Token_0.0 as int;
        assert(erange(tree.nodes_view(), tl, w[a]) == tl.range_at(ta));
        assert(erange(tree.nodes_view(), tl, w[b]) == tl.range_at(tb));
        assert(tl.range_at(ta).start.0 < tl.range_at(ta).end.0);
        assert(tl.range_at(tb).start.0 < tl.range_at(tb).end.0);
        if tb < ta {
            assert(tl.range_at(tb).end.0 <= tl.range_at(ta).start.0);
        }
    }
}

/// Every node of the tree can be reached from the root through the contents of nodes.
pub proof fn law_reachable_from_root(tree: &SyntaxTree, i: int)
    requires
        tree.wf(),
        tree.nodes_once(),
        tree.content_partitioned(),
        0 <= i < tree.nodes_view().len(),
    ensures
        tree.reachable(i),
    decreases i,
{
    if i > 0 {
        law_one_parent(tree, i);
        let p = choose|p: int| 0 <= p < i && #[trigger] tree.holds_node(p, i);
        law_reachable_from_root(tree, p);
        assert(0 <= p < i && tree.holds_node(p, i) && tree.reachable(p));
    }
}

/// The entry `x` is a token or trivia whose source range holds byte `k`.
pub open spec fn leaf_holds(tree: &SyntaxTree, x: NodeOrToken, k: int) -> bool {
    match x {
        NodeOrToken::Node(_) => false,
        NodeOrToken::Token(t) => tree.token_list().range_at(t.0 as int).start.0 <= k
            < tree.token_list().range_at(t.0 as int).end.0,
        NodeOrToken::Trivia(v) => tree.token_list().trivia_ranges_view()[v.0 as int].start.0 <= k
            < tree.token_list().trivia_ranges_view()[v.0 as int].end.0,
    }
}

/// The tree is lossless: when the tokens and trivia cover the first `len` bytes of the
/// source, each of those bytes lies in a token or trivia that stands in the content of
/// a node of the tree.
pub proof fn law_tree_covers_source(tree: &SyntaxTree, len: int, k: int)
    requires
        tree.token_list().wf(),
        tree.token_list().token_len() + tree.token_list().trivia_len() <= u32::MAX,
        lexed_wf(&tree.token_list(), len),
        tree.leaves_once(),
        tree.content_partitioned(),
        covered(&tree.token_list(), len),
        0 <= k < len,
    ensures
        exists|i: int, j: int|
            0 <= i < tree.nodes_view().len() && in_node(tree.nodes_view()[i], j) && leaf_holds(
                tree,
                tree.content_view()[j],
                k,
            ),
{
    let tl = tree.token_list();
    assert(byte_covered(&tl, k));
    tl.lemma_trivia_lens();
    let x = if exists|i: int| 0 <= i < tl.token_len() && #[trigger] tl.range_at(i).start.0 <= k
        < tl.range_at(i).end.0 {
        let t = choose|i: int| 0 <= i < tl.token_len() && #[trigger] tl.range_at(i).start.0 <= k
            < tl.range_at(i).end.0;
        if t >= tl.token_len() - 2 {
            tl.lemma_eof_empty(t);
        }
        assert(t < tl.token_len() - 2);
        NodeOrToken::Token(TokenID(t as u32))
    } else {
        let v = choose|j: int|
            0 <= j < tl.trivia_len() && #[trigger] tl.trivia_ranges_view()[j].start.0 <= k
                < tl.trivia_ranges_view()[j].end.0;
        NodeOrToken::Trivia(TriviaID(v as u32))
    };
    assert(occurrences(tree.content_view(), x) == 1);
    lemma_occurrences_pos(tree.content_view(), x);
    let j = choose|j: int| 0 <= j < tree.content_view().len() && tree.content_view()[j] == x;
    assert(tree.entry_covered(j));
    let i = choose|i: int| 0 <= i < tree.nodes_view().len() && #[trigger] in_node(tree.nodes_view()[i], j);
    assert(leaf_holds(tree, tree.content_view()[j], k));
}

/// `e` reports a doc comment, or a module comment, of the trivia of `tl`, at its range.
pub open spec fn comment_error(e: TreeError, tl: &TokenList) -> bool {
    exists|v: int|
        0 <= v < tl.trivia_len() && #[trigger] tl.trivia_ranges_view()[v] == e.src.range && ((
        tl.trivia_view()[v] == Trivia::DocComment && e.kind == TreeErrorKind::InvalidDocComment)
            || (tl.trivia_view()[v] == Trivia::ModComment && e.kind
            == TreeErrorKind::InvalidModComment))
}

/// Among `errors` is one for the module comment `v` of `tl`, at its range.
pub open spec fn mod_comment_reported(errors: Seq<TreeError>, tl: &TokenList, v: int) -> bool {
    exists|j: int|
        0 <= j < errors.len() && (#[trigger] errors[j]).kind == TreeErrorKind::InvalidModComment
            && errors[j].src.range == tl.trivia_ranges_view()[v]
}

/// Each module comment among the first `n` trivia of `tl` that stands at or after the
/// start of the first token has its error among `errors`: module comments belong at the
/// top of the source, before any token.
pub open spec fn late_mod_comments_reported(errors: Seq<TreeError>, tl: &TokenList, n: int) -> bool {
    forall|v: int|
        0 <= v < n && #[trigger] tl.trivia_view()[v] == Trivia::ModComment
            && tl.trivia_ranges_view()[v].start.0 >= tl.range_at(0).start.0 ==> mod_comment_reported(
            errors,
            tl,
            v,
        )
}

/// Among `errors` is one for the doc comment `v` of `tl`, at its range.
pub open spec fn doc_comment_reported(errors: Seq<TreeError>, tl: &TokenList, v: int) -> bool {
    exists|j: int|
        0 <= j < errors.len() && (#[trigger] errors[j]).kind == TreeErrorKind::InvalidDocComment
            && errors[j].src.range == tl.trivia_ranges_view()[v]
}

/// Trivia `u` of `tl` parts a doc comment from what follows: a module comment, or
/// whitespace that holds a blank line.
pub open spec fn parting_trivia(tl: &TokenList, source: Seq<u8>, u: int) -> bool {
    let r = tl.trivia_ranges_view()[u];
    ||| tl.trivia_view()[u] == Trivia::ModComment
    ||| tl.trivia_view()[u] == Trivia::Whitespace && newline_count(
        source.subrange(r.start.0 as int, r.end.0 as int),
    ) >= 2
}

/// No token of `tl` starts after trivia `v` starts and where or before trivia `u` starts.
pub open spec fn same_gap(tl: &TokenList, v: int, u: int) -> bool {
    forall|t: int|
        0 <= t < tl.token_len() ==> !(tl.trivia_ranges_view()[v].start.0 < (
        #[trigger] tl.range_at(t)).start.0 <= tl.trivia_ranges_view()[u].start.0)
}

/// Trivia `v` of `tl` is a doc comment that no item can take: a module comment or a
/// blank line comes after it before the next token.
pub open spec fn doc_misplaced(tl: &TokenList, source: Seq<u8>, v: int) -> bool {
    &&& tl.trivia_view()[v] == Trivia::DocComment
    &&& exists|u: int| v < u < tl.trivia_len() && #[trigger] parting_trivia(tl, source, u) && same_gap(tl, v, u)
}

/// Each misplaced doc comment among the first `n` trivia of `tl` has its error among
/// `errors`.
pub open spec fn misplaced_docs_reported(errors: Seq<TreeError>, tl: &TokenList, source: Seq<u8>, n: int) -> bool {
    forall|v: int| 0 <= v < n && #[trigger] doc_misplaced(tl, source, v) ==> doc_comment_reported(errors, tl, v)
}

/// The comments of `tl` all stand where they may: no module comment at or after the
/// start of the first token, and no misplaced doc comment.
pub open spec fn comments_placed(tl: &TokenList, source: Seq<u8>) -> bool {
    &&& forall|v: int|
        0 <= v < tl.trivia_len() && #[trigger] tl.trivia_view()[v] == Trivia::ModComment
            ==> tl.trivia_ranges_view()[v].start.0 < tl.range_at(0).start.0
    &&& forall|v: int| 0 <= v < tl.trivia_len() ==> !#[trigger] doc_misplaced(tl, source, v)
}

/// When no error reports a comment, every comment stands where it may.
pub proof fn lemma_unreported_comments_placed(tl: &TokenList, source: Seq<u8>)
    requires
        late_mod_comments_reported(Seq::empty(), tl, tl.trivia_len() as int),
        misplaced_docs_reported(Seq::empty(), tl, source, tl.trivia_len() as int),
    ensures
        comments_placed(tl, source),
{
    assert forall|v: int|
        0 <= v < tl.trivia_len() && #[trigger] tl.trivia_view()[v] == Trivia::ModComment implies tl.trivia_ranges_view()[v].start.0
        < tl.range_at(0).start.0 by {
        if tl.trivia_ranges_view()[v].start.0 >= tl.range_at(0).start.0 {
            assert(mod_comment_reported(Seq::empty(), tl, v));
        }
    }
    assert forall|v: int| 0 <= v < tl.trivia_len() implies !#[trigger] doc_misplaced(tl, source, v) by {
        if doc_misplaced(tl, source, v) {
            assert(doc_comment_reported(Seq::empty(), tl, v));
        }
    }
}

/// Errors that only grow keep every misplaced doc comment reported.
proof fn lemma_docs_reported_grow(e1: Seq<TreeError>, e2: Seq<TreeError>, tl: &TokenList, source: Seq<u8>, n: int)
    requires
        misplaced_docs_reported(e1, tl, source, n),
        e1.len() <= e2.len(),
        forall|j: int| 0 <= j < e1.len() ==> #[trigger] e2[j] == e1[j],
    ensures
        misplaced_docs_reported(e2, tl, source, n),
{
    assert forall|v: int| 0 <= v < n && #[trigger] doc_misplaced(tl, source, v) implies doc_comment_reported(
        e2,
        tl,
        v,
    ) by {
        let j = choose|j: int|
            0 <= j < e1.len() && (#[trigger] e1[j]).kind == TreeErrorKind::InvalidDocComment
                && e1[j].src.range == tl.trivia_ranges_view()[v];
        assert(e2[j] == e1[j]);
    }
}

/// Trivia that come before the current token, none of them parting, and after which
/// the next trivia starts at or after that token, hold no misplaced doc comment: the
/// current token stands between each of them and any later parting trivia.
proof fn lemma_inner_docs_placed(b: &TreeBuild, n: int)
    requires
        b.inv(),
        b.before_token(n),
        b.curr_trivia.0 + n == b.vlen() || b.tokens.trivia_ranges_view()[b.curr_trivia.0 + n].start.0
            >= b.token_start(),
        forall|t: int| b.curr_trivia.0 <= t < b.curr_trivia.0 + n ==> !#[trigger] parting_trivia(&b.tokens, b.source@, t),
    ensures
        forall|v: int| b.curr_trivia.0 <= v < b.curr_trivia.0 + n ==> !#[trigger] doc_misplaced(&b.tokens, b.source@, v),
{
    let tl = b.tokens;
    assert forall|v: int| b.curr_trivia.0 <= v < b.curr_trivia.0 + n implies !#[trigger] doc_misplaced(&tl, b.source@, v) by {
        if doc_misplaced(&tl, b.source@, v) {
            let u = choose|u: int| v < u < tl.trivia_len() && #[trigger] parting_trivia(&tl, b.source@, u) && same_gap(&tl, v, u);
            if u < b.curr_trivia.0 + n {
                assert(!parting_trivia(&tl, b.source@, u));
            } else {
                let c = b.curr_trivia.0 + n;
                if u > c {
                    assert(tl.trivia_ranges_view()[c].end.0 <= tl.trivia_ranges_view()[u].start.0);
                    assert(tl.trivia_ranges_view()[c].wf());
                }
                assert(tl.trivia_ranges_view()[v].start.0 < b.token_start());
                let t = b.curr_token.0 as int;
                assert(!(tl.trivia_ranges_view()[v].start.0 < tl.range_at(t).start.0 <= tl.trivia_ranges_view()[u].start.0));
            }
        }
    }
}

/// Errors that only grow keep every module comment reported.
proof fn lemma_reported_grow(e1: Seq<TreeError>, e2: Seq<TreeError>, tl: &TokenList, n: int)
    requires
        late_mod_comments_reported(e1, tl, n),
        e1.len() <= e2.len(),
        forall|j: int| 0 <= j < e1.len() ==> #[trigger] e2[j] == e1[j],
    ensures
        late_mod_comments_reported(e2, tl, n),
{
    assert forall|v: int|
        0 <= v < n && #[trigger] tl.trivia_view()[v] == Trivia::ModComment
            && tl.trivia_ranges_view()[v].start.0 >= tl.range_at(0).start.0 implies mod_comment_reported(
        e2,
        tl,
        v,
    ) by {
        let j = choose|j: int|
            0 <= j < e1.len() && (#[trigger] e1[j]).kind == TreeErrorKind::InvalidModComment
                && e1[j].src.range == tl.trivia_ranges_view()[v];
        assert(e2[j] == e1[j]);
    }
}

/// Entry `j` of the content list lies in the content of `n`.
pub open spec fn in_node(n: Node, j: int) -> bool {
    n.content_idx <= j < n.content_idx as int + n.content_len as int
}

impl<'src> TreeBuild<'src> {
    /// The entries placed so far: those of closed nodes, then those of open ones.
    spec fn all_items(&self) -> Seq<NodeOrToken> {
        self.content_vec@ + self.temp()
    }

    /// Each trivia and token before the current one is placed exactly once, and none
    /// after it is.
    spec fn counts_ok(&self) -> bool {
        &&& forall|v: int|
            0 <= v < self.vlen() ==> #[trigger] occurrences(
                self.all_items(),
                NodeOrToken::Trivia(TriviaID(v as u32)),
            ) == (if v < self.curr_trivia.0 {
                1nat
            } else {
                0nat
            })
        &&& forall|t: int|
            0 <= t < self.tlen() ==> #[trigger] occurrences(
                self.all_items(),
                NodeOrToken::Token(TokenID(t as u32)),
            ) == (if t < self.curr_token.0 {
                1nat
            } else {
                0nat
            })
    }

    /// Each node but the root stands exactly once among the entries placed so far; the
    /// root and nodes not made yet do not stand there.
    spec fn nodes_placed(&self) -> bool {
        forall|id: NodeID|
            #[trigger] occurrences(self.all_items(), NodeOrToken::Node(id)) == (if 0 < id.0
                < self.nodes@.len() {
                1nat
            } else {
                0nat
            })
    }

    /// Every closed entry belongs to the content of exactly one node; the open nodes on
    /// the stack have no content yet, and were opened in stack order.
    spec fn owners_ok(&self) -> bool {
        &&& self.owner@.len() == self.content_vec@.len()
        &&& forall|j: int|
            0 <= j < self.content_vec@.len() ==> 0 <= #[trigger] self.owner@[j] < self.nodes@.len()
                && in_node(self.nodes@[self.owner@[j]], j)
        &&& forall|i: int, j: int|
            0 <= i < self.nodes@.len() && #[trigger] in_node(self.nodes@[i], j) ==> self.owner@[j] == i
        &&& forall|k: int|
            0 <= k < self.node_stack@.len() ==> self.nodes@[(#[trigger] self.node_stack@[k]).1.0 as int].content_len
                == 0
        &&& forall|k1: int, k2: int|
            0 <= k1 < k2 < self.node_stack@.len() ==> (#[trigger] self.node_stack@[k1]).1.0 < (
            #[trigger] self.node_stack@[k2]).1.0
    }

    spec fn lossless(&self) -> bool {
        self.counts_ok() && self.owners_ok()
    }

    spec fn tlen(&self) -> int {
        self.tokens.token_len()
    }

    spec fn vlen(&self) -> int {
        self.tokens.trivia_len()
    }

    spec fn temp(&self) -> Seq<NodeOrToken> {
        self.content.view_seq()
    }

    /// `x` refers to something that exists.
    spec fn entry_valid(&self, x: NodeOrToken) -> bool {
        match x {
            NodeOrToken::Node(id) => id.0 < self.nodes@.len(),
            NodeOrToken::Token(id) => id.0 < self.tlen(),
            NodeOrToken::Trivia(id) => id.0 < self.vlen(),
        }
    }

    spec fn closed_ok(&self, i: int) -> bool {
        let n = self.nodes@[i];
        &&& n.content_idx as int + n.content_len as int <= self.content_vec@.len()
        &&& forall|j: int|
            n.content_idx <= j < n.content_idx as int + n.content_len as int ==> {
                let x = #[trigger] self.content_vec@[j];
                &&& self.entry_valid(x)
                &&& (x is Node ==> x->Node_0.0 > i)
            }
    }

    spec fn inv(&self) -> bool {
        &&& lexed_wf(&self.tokens, self.source@.len() as int)
        &&& self.curr_token.0 + 2 <= self.tlen()
        &&& self.curr_trivia.0 <= self.vlen()
        &&& self.events@.len() + self.tlen() + self.vlen() <= u32::MAX
        &&& 1 <= self.nodes@.len() <= self.events@.len()
        &&& self.nodes@[0].kind == SyntaxKind::SOURCE_FILE
        &&& forall|i: int| 0 <= i < self.nodes@.len() ==> #[trigger] self.closed_ok(i)
        &&& forall|j: int| 0 <= j < self.temp().len() ==> self.entry_valid(#[trigger] self.temp()[j])
        &&& self.content_vec@.len() + self.temp().len() + 1 == self.nodes@.len()
            + self.curr_token.0 + self.curr_trivia.0
        &&& forall|i: int|
            0 <= i < self.errors@.len() ==> (#[trigger] self.errors@[i]).src.module_id
                == self.module_id
        &&& forall|i: int| 0 <= i < self.errors@.len() ==> comment_error(#[trigger] self.errors@[i], &self.tokens)
    }

    /// Start of the current token.
    spec fn token_start(&self) -> int {
        self.tokens.range_at(self.curr_token.0 as int).start.0 as int
    }

    /// The `n` trivia from the current one all start before the current token.
    spec fn before_token(&self, n: int) -> bool {
        &&& self.curr_trivia.0 + n <= self.vlen()
        &&& forall|k: int|
            self.curr_trivia.0 <= k < self.curr_trivia.0 + n ==> (
            #[trigger] self.tokens.trivia_ranges_view()[k]).start.0 < self.token_start()
    }

    /// Exactly `n` trivia, from the current one, start before the current token.
    spec fn all_before_token(&self, n: int) -> bool {
        &&& self.before_token(n)
        &&& (self.curr_trivia.0 + n == self.vlen() || self.tokens.trivia_ranges_view()[
            self.curr_trivia.0 + n].start.0 >= self.token_start())
    }

    /// Only the temp content, the trivia cursor and the errors differ.
    spec fn same_but_trivia(&self, other: &Self) -> bool {
        &&& self.source == other.source
        &&& self.tokens == other.tokens
        &&& self.events == other.events
        &&& self.module_id == other.module_id
        &&& self.nodes == other.nodes
        &&& self.content_vec == other.content_vec
        &&& self.node_stack == other.node_stack
        &&& self.parent_stack == other.parent_stack
        &&& self.curr_token == other.curr_token
        &&& self.owner == other.owner
    }
}

/// Number of trivia, from the current one, that come before the current token.
fn attached_token_trivia(b: &TreeBuild) -> (r: usize)
    requires
        b.inv(),
    ensures
        b.all_before_token(r as int),
{
    let mut total_count: usize = 0;
    let token_range = b.tokens.token_range(b.curr_token);
    let count = b.tokens.trivia_count();
    let mut idx = b.curr_trivia.index();
    while idx < count
        invariant
            b.inv(),
            token_range == b.tokens.range_at(b.curr_token.0 as int),
            count == b.vlen(),
            idx == b.curr_trivia.0 + total_count,
            b.before_token(total_count as int),
        ensures
            b.all_before_token(total_count as int),
        decreases count - idx,
    {
        let range = b.tokens.trivia_range(TriviaID::new(idx));
        let before_token = range.start.0 < token_range.start.0;
        if !before_token {
            break;
        }
        total_count = total_count + 1;
        idx = idx + 1;
    }
    total_count
}

/// Trivia before the current token, split into those that stay outside the node that
/// starts there and those that go inside it: the doc comments and what follows them
/// in an item's own header.
fn attached_node_trivia(b: &TreeBuild, kind: SyntaxKind) -> (r: (usize, usize))
    requires
        b.inv(),
    ensures
        b.all_before_token(r.0 + r.1),
        forall|t: int|
            b.curr_trivia.0 + r.1 <= t < b.curr_trivia.0 + r.0 + r.1 ==> #[trigger] b.tokens.trivia_view()[t]
                != Trivia::ModComment,
        forall|t: int|
            b.curr_trivia.0 + r.1 <= t < b.curr_trivia.0 + r.0 + r.1 ==> !#[trigger] parting_trivia(&b.tokens, b.source@, t),
{
    let can_attach_inner = match kind {
        SyntaxKind::PROC_ITEM | SyntaxKind::ENUM_ITEM | SyntaxKind::STRUCT_ITEM
        | SyntaxKind::CONST_ITEM | SyntaxKind::GLOBAL_ITEM | SyntaxKind::IMPORT_ITEM => true,
        _ => false,
    };
    let mut total_count: usize = 0;
    let mut inner_count: usize = 0;
    let mut collect_inner = false;
    let token_range = b.tokens.token_range(b.curr_token);
    let count = b.tokens.trivia_count();
    let mut idx = b.curr_trivia.index();
    while idx < count
        invariant
            b.inv(),
            token_range == b.tokens.range_at(b.curr_token.0 as int),
            count == b.vlen(),
            idx == b.curr_trivia.0 + total_count,
            inner_count <= total_count,
            b.before_token(total_count as int),
            !collect_inner ==> inner_count == 0,
            !can_attach_inner ==> !collect_inner,
            forall|t: int|
                idx - inner_count <= t < idx ==> #[trigger] b.tokens.trivia_view()[t] != Trivia::ModComment,
            forall|t: int|
                idx - inner_count <= t < idx ==> !#[trigger] parting_trivia(&b.tokens, b.source@, t),
        ensures
            b.all_before_token(total_count as int),
            inner_count <= total_count,
            forall|t: int|
                b.curr_trivia.0 + total_count - inner_count <= t < b.curr_trivia.0 + total_count ==> #[trigger] b.tokens.trivia_view()[t] != Trivia::ModComment,
            forall|t: int|
                b.curr_trivia.0 + total_count - inner_count <= t < b.curr_trivia.0 + total_count ==> !#[trigger] parting_trivia(&b.tokens, b.source@, t),
        decreases count - idx,
    {
        let (trivia, range) = b.tokens.trivia_and_range(TriviaID::new(idx));
        let before_token = range.start.0 < token_range.start.0;
        if !before_token {
            break;
        }
        total_count = total_count + 1;
        idx = idx + 1;
        if !can_attach_inner {
            continue;
        }
        match trivia {
            Trivia::Whitespace => {
                let new_lines = count_newlines(b.source, range);
                if new_lines >= 2 {
                    collect_inner = false;
                    inner_count = 0;
                } else if collect_inner {
                    inner_count = inner_count + 1;
                }
            },
            Trivia::LineComment => {
                if collect_inner {
                    inner_count = inner_count + 1;
                }
            },
            Trivia::DocComment => {
                collect_inner = true;
                inner_count = inner_count + 1;
            },
            Trivia::ModComment => {
                collect_inner = false;
                inner_count = 0;
            },
        }
    }
    (inner_count, total_count - inner_count)
}

/// Trivia at the start of the source that belong to the source file itself: the
/// leading whitespace and module comments, up to a blank line after a module comment.
impl<'src> TreeBuild<'src> {
    /// How many trivia from index `k` on still belong to the source file: whitespace and
    /// module comments before the first token, up to a line comment, a doc comment, or a
    /// blank line once a module comment was seen.
    spec fn source_trivia_from(&self, k: int, mod_found: bool) -> nat
        decreases self.vlen() - k,
    {
        if k < 0 || k >= self.vlen() || !(self.tokens.trivia_ranges_view()[k].start.0
            < self.token_start()) {
            0
        } else {
            let r = self.tokens.trivia_ranges_view()[k];
            match self.tokens.trivia_view()[k] {
                Trivia::Whitespace => if newline_count(
                    self.source@.subrange(r.start.0 as int, r.end.0 as int),
                ) >= 2 && mod_found {
                    0
                } else {
                    1 + self.source_trivia_from(k + 1, mod_found)
                },
                Trivia::ModComment => 1 + self.source_trivia_from(k + 1, true),
                _ => 0,
            }
        }
    }
}

fn attached_source_trivia(b: &TreeBuild) -> (r: usize)
    requires
        b.inv(),
    ensures
        b.before_token(r as int),
        r == b.source_trivia_from(b.curr_trivia.0 as int, false),
        forall|t: int|
            b.curr_trivia.0 <= t < b.curr_trivia.0 + r ==> #[trigger] b.tokens.trivia_view()[t] != Trivia::DocComment,
{
    let mut total_count: usize = 0;
    let mut mod_trivia_found = false;
    let token_range = b.tokens.token_range(b.curr_token);
    let count = b.tokens.trivia_count();
    let mut idx = b.curr_trivia.index();
    while idx < count
        invariant
            b.inv(),
            token_range == b.tokens.range_at(b.curr_token.0 as int),
            count == b.vlen(),
            idx == b.curr_trivia.0 + total_count,
            b.before_token(total_count as int),
            forall|t: int|
                b.curr_trivia.0 <= t < idx ==> #[trigger] b.tokens.trivia_view()[t] != Trivia::DocComment,
            total_count + b.source_trivia_from(idx as int, mod_trivia_found) == b.source_trivia_from(
                b.curr_trivia.0 as int,
                false,
            ),
        ensures
            b.before_token(total_count as int),
            total_count == b.source_trivia_from(b.curr_trivia.0 as int, false),
            forall|t: int|
                b.curr_trivia.0 <= t < b.curr_trivia.0 + total_count ==> #[trigger] b.tokens.trivia_view()[t] != Trivia::DocComment,
        decreases count - idx,
    {
        let (trivia, range) = b.tokens.trivia_and_range(TriviaID::new(idx));
        let before_token = range.start.0 < token_range.start.0;
        if !before_token {
            break;
        }
        proof {
            b.tokens.lemma_trivia_lens();
            assert(b.tokens.trivia_ranges_view()[idx as int].wf());
        }
        match trivia {
            Trivia::Whitespace => {
                let new_lines = count_newlines(b.source, range);
                if new_lines >= 2 && mod_trivia_found {
                    break;
                } else {
                    total_count = total_count + 1;
                }
            },
            Trivia::LineComment => {
                break;
            },
            Trivia::DocComment => {
                break;
            },
            Trivia::ModComment => {
                mod_trivia_found = true;
                total_count = total_count + 1;
            },
        }
        idx = idx + 1;
    }
    total_count
}

/// `n` trivia entries, from trivia `start` on.
pub open spec fn trivia_run(start: int, n: int) -> Seq<NodeOrToken> {
    Seq::new(n as nat, |k: int| NodeOrToken::Trivia(TriviaID((start + k) as u32)))
}

impl<'src> TreeBuild<'src> {
    spec fn entry_props(&self, e: (TempOffset, NodeID)) -> bool {
        &&& e.0.idx <= self.temp().len()
        &&& e.1.0 < self.nodes@.len()
        &&& forall|j: int|
            e.0.idx <= j < self.temp().len() ==> (#[trigger] self.temp()[j] is Node
                ==> self.temp()[j]->Node_0.0 > e.1.0)
    }

    spec fn stack_entries_ok(&self) -> bool {
        &&& forall|k: int|
            0 <= k < self.node_stack@.len() ==> self.entry_props(#[trigger] self.node_stack@[k])
        &&& forall|k1: int, k2: int|
            0 <= k1 < k2 < self.node_stack@.len() ==> (#[trigger] self.node_stack@[k1]).0.idx
                <= (#[trigger] self.node_stack@[k2]).0.idx
    }

    spec fn root_at_bottom(&self) -> bool {
        &&& self.node_stack@.len() >= 1
        &&& self.node_stack@[0].0.idx == 0
        &&& self.node_stack@[0].1.0 == 0
    }
}

/// Moves the next `n` trivia into the content of the open node.
fn eat_n_inner_trivias(b: &mut TreeBuild, n: usize)
    requires
        old(b).inv(),
        old(b).stack_entries_ok(),
        old(b).lossless(),
        old(b).curr_trivia.0 + n <= old(b).vlen(),
        old(b).ranges_ok(),
        old(b).before_token(n as int) || old(b).curr_token.0 + 2 == old(b).tlen(),
        late_mod_comments_reported(old(b).errors@, &old(b).tokens, old(b).curr_trivia.0 as int),
        misplaced_docs_reported(old(b).errors@, &old(b).tokens, old(b).source@, old(b).curr_trivia.0 as int),
        forall|v: int|
            old(b).curr_trivia.0 <= v < old(b).curr_trivia.0 + n ==> !#[trigger] doc_misplaced(&old(b).tokens, old(b).source@, v),
        forall|v: int|
            old(b).curr_trivia.0 <= v < old(b).curr_trivia.0 + n && #[trigger] old(b).tokens.trivia_view()[v]
                == Trivia::ModComment ==> old(b).tokens.trivia_ranges_view()[v].start.0 < old(b).tokens.range_at(0).start.0,
    ensures
        late_mod_comments_reported(final(b).errors@, &final(b).tokens, final(b).curr_trivia.0 as int),
        misplaced_docs_reported(final(b).errors@, &final(b).tokens, final(b).source@, final(b).curr_trivia.0 as int),
        final(b).ranges_ok(),
        final(b).inv(),
        final(b).stack_entries_ok(),
        final(b).lossless(),
        final(b).same_but_trivia(old(b)),
        final(b).errors == old(b).errors,
        final(b).curr_trivia.0 == old(b).curr_trivia.0 + n,
        final(b).temp() == old(b).temp() + trivia_run(old(b).curr_trivia.0 as int, n as int),
{
    let ghost b0 = *b;
    let start = b.curr_trivia.index();
    let end = start + n;
    let mut i = start;
    while i < end
        invariant
            b.inv(),
            b.stack_entries_ok(),
            b.lossless(),
            b.same_but_trivia(&b0),
            b.errors == b0.errors,
            b0.curr_trivia.0 == start,
            end == start + n,
            end <= b.vlen(),
            start <= i <= end,
            b.curr_trivia.0 == i,
            b.temp() == b0.temp() + trivia_run(start as int, i - start),
            b.ranges_ok(),
            b0.before_token(n as int) || b.curr_token.0 + 2 == b.tlen(),
        decreases end - i,
    {
        let id = TriviaID::new(i);
        let ghost pre = *b;
        b.curr_trivia = b.curr_trivia.inc();
        b.content.push(NodeOrToken::Trivia(id));
        proof {
            assert(b.temp() == pre.temp().push(NodeOrToken::Trivia(id)));
            assert forall|k: int| 0 <= k < b.node_stack@.len() implies b.entry_props(
                #[trigger] b.node_stack@[k],
            ) by {
                assert(pre.entry_props(pre.node_stack@[k]));
                let e = b.node_stack@[k];
                assert forall|j: int| e.0.idx <= j < b.temp().len() && #[trigger] b.temp()[j] is Node implies
                b.temp()[j]->Node_0.0 > e.1.0 by {
                    if j < pre.temp().len() {
                        assert(b.temp()[j] == pre.temp()[j]);
                    }
                }
            }
            assert forall|j: int| 0 <= j < b.temp().len() implies b.entry_valid(
                #[trigger] b.temp()[j],
            ) by {
                if j < pre.temp().len() {
                    assert(b.temp()[j] == pre.temp()[j]);
                }
            }
            assert forall|j: int| 0 <= j < b.nodes@.len() implies #[trigger] b.closed_ok(j) by {
                assert(pre.closed_ok(j));
            }
            assert(b.temp() =~= b0.temp() + trivia_run(start as int, i + 1 - start));
            assert(b.all_items() =~= pre.all_items().push(NodeOrToken::Trivia(pre.curr_trivia)));
            lemma_push_trivia(&pre, b);
            lemma_eat_in_order(&b0, &pre, b, i as int, n as int);
            lemma_owners_frame(&pre, b);
        }
        i = i + 1;
    }
}

/// Moves the next `n` trivia into the content of the open node, with an error for
/// each doc or module comment among them: none of those may stand there.
fn eat_n_outher_trivias(b: &mut TreeBuild, n: usize)
    requires
        old(b).inv(),
        old(b).stack_entries_ok(),
        old(b).lossless(),
        old(b).curr_trivia.0 + n <= old(b).vlen(),
        old(b).ranges_ok(),
        old(b).before_token(n as int) || old(b).curr_token.0 + 2 == old(b).tlen(),
        late_mod_comments_reported(old(b).errors@, &old(b).tokens, old(b).curr_trivia.0 as int),
        misplaced_docs_reported(old(b).errors@, &old(b).tokens, old(b).source@, old(b).curr_trivia.0 as int),
    ensures
        late_mod_comments_reported(final(b).errors@, &final(b).tokens, final(b).curr_trivia.0 as int),
        misplaced_docs_reported(final(b).errors@, &final(b).tokens, final(b).source@, final(b).curr_trivia.0 as int),
        final(b).errors@.len() >= old(b).errors@.len(),
        forall|j: int| 0 <= j < old(b).errors@.len() ==> #[trigger] final(b).errors@[j] == old(b).errors@[j],
        final(b).ranges_ok(),
        final(b).inv(),
        final(b).stack_entries_ok(),
        final(b).lossless(),
        final(b).same_but_trivia(old(b)),
        final(b).curr_trivia.0 == old(b).curr_trivia.0 + n,
        final(b).temp() == old(b).temp() + trivia_run(old(b).curr_trivia.0 as int, n as int),
{
    let ghost b0 = *b;
    let start = b.curr_trivia.index();
    let end = start + n;
    let mut i = start;
    while i < end
        invariant
            b.inv(),
            b.stack_entries_ok(),
            b.lossless(),
            b.same_but_trivia(&b0),
            b0.curr_trivia.0 == start,
            end == start + n,
            end <= b.vlen(),
            start <= i <= end,
            b.curr_trivia.0 == i,
            b.temp() == b0.temp() + trivia_run(start as int, i - start),
            b.ranges_ok(),
            late_mod_comments_reported(b.errors@, &b.tokens, i as int),
            misplaced_docs_reported(b.errors@, &b.tokens, b.source@, i as int),
            b.errors@.len() >= b0.errors@.len(),
            forall|j: int| 0 <= j < b0.errors@.len() ==> #[trigger] b.errors@[j] == b0.errors@[j],
            b0.before_token(n as int) || b.curr_token.0 + 2 == b.tlen(),
        decreases end - i,
    {
        let id = TriviaID::new(i);
        let ghost pre = *b;
        b.curr_trivia = b.curr_trivia.inc();
        b.content.push(NodeOrToken::Trivia(id));
        let (trivia, range) = b.tokens.trivia_and_range(id);
        match trivia {
            Trivia::Whitespace => {},
            Trivia::LineComment => {},
            Trivia::DocComment => {
                let src = SourceRange::new(b.module_id, range);
                b.errors.push(TreeError { kind: TreeErrorKind::InvalidDocComment, src });
            },
            Trivia::ModComment => {
                let src = SourceRange::new(b.module_id, range);
                b.errors.push(TreeError { kind: TreeErrorKind::InvalidModComment, src });
            },
        }
        proof {
            lemma_reported_grow(pre.errors@, b.errors@, &b.tokens, i as int);
            lemma_docs_reported_grow(pre.errors@, b.errors@, &b.tokens, b.source@, i as int);
            if trivia == Trivia::DocComment {
                assert(b.errors@[pre.errors@.len() as int].kind == TreeErrorKind::InvalidDocComment);
                assert(b.tokens.trivia_ranges_view()[i as int] == range);
                assert(doc_comment_reported(b.errors@, &b.tokens, i as int));
            }
            assert(misplaced_docs_reported(b.errors@, &b.tokens, b.source@, i + 1));
            if trivia == Trivia::ModComment {
                assert(b.errors@[pre.errors@.len() as int].kind == TreeErrorKind::InvalidModComment);
                assert(b.tokens.trivia_ranges_view()[i as int] == range);
                assert(mod_comment_reported(b.errors@, &b.tokens, i as int));
            }
            assert(late_mod_comments_reported(b.errors@, &b.tokens, i + 1));
            assert forall|q: int| 0 <= q < b.errors@.len() implies comment_error(
                #[trigger] b.errors@[q],
                &b.tokens,
            ) by {
                if q < pre.errors@.len() {
                    assert(b.errors@[q] == pre.errors@[q]);
                } else {
                    assert(b.tokens.trivia_ranges_view()[i as int] == range);
                    assert(b.tokens.trivia_view()[i as int] == trivia);
                }
            }
            assert(b.temp() == pre.temp().push(NodeOrToken::Trivia(id)));
            assert forall|k: int| 0 <= k < b.node_stack@.len() implies b.entry_props(
                #[trigger] b.node_stack@[k],
            ) by {
                assert(pre.entry_props(pre.node_stack@[k]));
                let e = b.node_stack@[k];
                assert forall|j: int| e.0.idx <= j < b.temp().len() && #[trigger] b.temp()[j] is Node implies
                b.temp()[j]->Node_0.0 > e.1.0 by {
                    if j < pre.temp().len() {
                        assert(b.temp()[j] == pre.temp()[j]);
                    }
                }
            }
            assert forall|j: int| 0 <= j < b.temp().len() implies b.entry_valid(
                #[trigger] b.temp()[j],
            ) by {
                if j < pre.temp().len() {
                    assert(b.temp()[j] == pre.temp()[j]);
                }
            }
            assert forall|j: int| 0 <= j < b.nodes@.len() implies #[trigger] b.closed_ok(j) by {
                assert(pre.closed_ok(j));
            }
            assert(b.temp() =~= b0.temp() + trivia_run(start as int, i + 1 - start));
            assert(b.all_items() =~= pre.all_items().push(NodeOrToken::Trivia(pre.curr_trivia)));
            lemma_push_trivia(&pre, b);
            lemma_eat_in_order(&b0, &pre, b, i as int, n as int);
            lemma_owners_frame(&pre, b);
        }
        i = i + 1;
    }
}

/// Source range of the entry `not`; the empty range at 0 for none.
fn node_or_token_range(b: &TreeBuild, not: Option<NodeOrToken>) -> (r: TextRange)
    requires
        b.inv(),
        not matches Some(x) ==> b.entry_valid(x),
    ensures
        not matches Some(NodeOrToken::Node(id)) ==> r == b.nodes@[id.0 as int].range,
        not matches Some(NodeOrToken::Token(id)) ==> r == b.tokens.range_at(id.0 as int),
        not matches Some(NodeOrToken::Trivia(id)) ==> r == b.tokens.trivia_ranges_view()[id.0 as int],
        not is None ==> r.start.0 == 0 && r.end.0 == 0,
{
    match not {
        Some(NodeOrToken::Node(id)) => b.nodes[id.index()].range,
        Some(NodeOrToken::Token(id)) => b.tokens.token_range(id),
        Some(NodeOrToken::Trivia(id)) => b.tokens.trivia_range(id),
        None => TextRange::zero(),
    }
}

/// Source range of the entry `x`, a node of `nodes` or a token or trivia of `tl`.
pub open spec fn erange(nodes: Seq<Node>, tl: TokenList, x: NodeOrToken) -> TextRange {
    match x {
        NodeOrToken::Node(id) => nodes[id.0 as int].range,
        NodeOrToken::Token(id) => tl.range_at(id.0 as int),
        NodeOrToken::Trivia(id) => tl.trivia_ranges_view()[id.0 as int],
    }
}

/// The entries of `s` have well-formed ranges in source order: each ends where or before
/// the next starts.
pub open spec fn in_order(nodes: Seq<Node>, tl: TokenList, s: Seq<NodeOrToken>) -> bool {
    &&& forall|j: int|
        0 <= j < s.len() ==> #[trigger] erange(nodes, tl, s[j]).start.0 <= erange(nodes, tl, s[j]).end.0
    &&& forall|j1: int, j2: int|
        0 <= j1 < j2 < s.len() ==> #[trigger] erange(nodes, tl, s[j1]).end.0
            <= #[trigger] erange(nodes, tl, s[j2]).start.0
}

/// The content of node `i`, entries `content[c..c + len]`, lies in its range in source
/// order.
pub open spec fn nested(nodes: Seq<Node>, tl: TokenList, content: Seq<NodeOrToken>, i: int) -> bool {
    let n = nodes[i];
    &&& n.range.start.0 <= n.range.end.0
    &&& in_order(nodes, tl, content.subrange(n.content_idx as int, n.content_idx + n.content_len))
    &&& forall|j: int|
        n.content_idx <= j < n.content_idx + n.content_len ==> n.range.start.0 <= #[trigger] erange(
            nodes,
            tl,
            content[j],
        ).start.0 && erange(nodes, tl, content[j]).end.0 <= n.range.end.0
}

impl<'src> TreeBuild<'src> {
    /// Source range of the entry `x`.
    spec fn entry_range(&self, x: NodeOrToken) -> TextRange {
        erange(self.nodes@, self.tokens, x)
    }

    /// Where the next leaf to be placed starts: the next token, but for the closing
    /// `Eof`s, or the next trivia, whichever comes first.
    spec fn next_pos(&self) -> int {
        let t = if self.curr_token.0 + 2 < self.tlen() {
            self.token_start()
        } else {
            u32::MAX as int + 1
        };
        let v = if self.curr_trivia.0 < self.vlen() {
            self.tokens.trivia_ranges_view()[self.curr_trivia.0 as int].start.0 as int
        } else {
            u32::MAX as int + 1
        };
        if t <= v {
            t
        } else {
            v
        }
    }

    /// The open content is in source order and ends before the next leaf; every node's
    /// content lies in its range in source order; and the node of each open stack entry
    /// but the root stands just before that entry's part of the open content.
    spec fn ranges_ok(&self) -> bool {
        &&& in_order(self.nodes@, self.tokens, self.temp())
        &&& forall|j: int|
            0 <= j < self.temp().len() ==> #[trigger] erange(self.nodes@, self.tokens, self.temp()[j]).end.0
                <= self.next_pos()
        &&& forall|i: int|
            0 <= i < self.nodes@.len() ==> #[trigger] nested(self.nodes@, self.tokens, self.content_vec@, i)
        &&& forall|k: int|
            1 <= k < self.node_stack@.len() ==> 1 <= (#[trigger] self.node_stack@[k]).0.idx
                <= self.temp().len() && self.temp()[self.node_stack@[k].0.idx - 1]
                == NodeOrToken::Node(self.node_stack@[k].1)
    }
}

/// Placing a leaf that starts where or after the open content ends, and ends where or
/// before the next leaf starts, keeps the ranges in order.
proof fn lemma_push_leaf(b1: &TreeBuild, b2: &TreeBuild, x: NodeOrToken)
    requires
        b1.ranges_ok(),
        b2.nodes == b1.nodes,
        b2.content_vec == b1.content_vec,
        b2.tokens == b1.tokens,
        b2.node_stack == b1.node_stack,
        b2.temp() == b1.temp().push(x),
        b1.next_pos() <= erange(b1.nodes@, b1.tokens, x).start.0 <= erange(b1.nodes@, b1.tokens, x).end.0
            <= b2.next_pos(),
    ensures
        b2.ranges_ok(),
{
    let nodes = b1.nodes@;
    let tl = b1.tokens;
    assert forall|j: int| 0 <= j < b2.temp().len() implies #[trigger] erange(nodes, tl, b2.temp()[j]).start.0
        <= erange(nodes, tl, b2.temp()[j]).end.0 && erange(nodes, tl, b2.temp()[j]).end.0 <= b2.next_pos() by {
        if j < b1.temp().len() {
            assert(b2.temp()[j] == b1.temp()[j]);
            assert(erange(nodes, tl, b1.temp()[j]).end.0 <= b1.next_pos());
        }
    }
    assert forall|j1: int, j2: int| 0 <= j1 < j2 < b2.temp().len() implies #[trigger] erange(
        nodes,
        tl,
        b2.temp()[j1],
    ).end.0 <= #[trigger] erange(nodes, tl, b2.temp()[j2]).start.0 by {
        assert(b2.temp()[j1] == b1.temp()[j1]);
        assert(erange(nodes, tl, b1.temp()[j1]).end.0 <= b1.next_pos());
        if j2 < b1.temp().len() {
            assert(b2.temp()[j2] == b1.temp()[j2]);
        }
    }
    assert forall|k: int| 1 <= k < b2.node_stack@.len() implies 1 <= (#[trigger] b2.node_stack@[k]).0.idx
        <= b2.temp().len() && b2.temp()[b2.node_stack@[k].0.idx - 1] == NodeOrToken::Node(
        b2.node_stack@[k].1,
    ) by {
        assert(b1.node_stack@[k] == b2.node_stack@[k]);
        assert(b2.temp()[b2.node_stack@[k].0.idx - 1] == b1.temp()[b2.node_stack@[k].0.idx - 1]);
    }
}

/// Eating trivia `i`, one of the `n` from where `b0` stood, keeps the ranges in order:
/// it starts where the next leaf does, and ends before the next trivia and, when it comes
/// before the current token, before that token.
proof fn lemma_eat_in_order(b0: &TreeBuild, pre: &TreeBuild, b: &TreeBuild, i: int, n: int)
    requires
        pre.inv(),
        pre.ranges_ok(),
        b0.tokens == pre.tokens,
        b0.curr_token == pre.curr_token,
        b0.curr_trivia.0 <= i < b0.curr_trivia.0 + n,
        i < pre.vlen(),
        pre.curr_trivia.0 == i,
        b0.before_token(n) || pre.curr_token.0 + 2 == pre.tlen(),
        b.nodes == pre.nodes,
        b.content_vec == pre.content_vec,
        b.tokens == pre.tokens,
        b.node_stack == pre.node_stack,
        b.curr_token == pre.curr_token,
        b.curr_trivia.0 == i + 1,
        b.temp() == pre.temp().push(NodeOrToken::Trivia(TriviaID(i as u32))),
    ensures
        b.ranges_ok(),
{
    reveal(lexed_widths);
    let tl = pre.tokens;
    let v = tl.trivia_ranges_view()[i];
    tl.lemma_trivia_lens();
    assert(v.wf());
    if i + 1 < tl.trivia_len() {
        assert(tl.trivia_ranges_view()[i].end.0 <= tl.trivia_ranges_view()[i + 1].start.0);
    }
    if pre.curr_token.0 + 2 < pre.tlen() {
        let t = pre.curr_token.0 as int;
        assert(tl.trivia_ranges_view()[i].start.0 < pre.token_start());
        assert(tl.range_at(t).wf());
        assert(tl.range_at(t).end.0 <= tl.trivia_ranges_view()[i].start.0 || tl.trivia_ranges_view()[i].end.0
            <= tl.range_at(t).start.0);
    }
    lemma_push_leaf(pre, b, NodeOrToken::Trivia(TriviaID(i as u32)));
}

/// Entries whose ranges are the same under `n2` as under `n1` keep their order.
proof fn lemma_in_order_frame(n1: Seq<Node>, n2: Seq<Node>, tl: TokenList, s: Seq<NodeOrToken>)
    requires
        in_order(n1, tl, s),
        forall|j: int| 0 <= j < s.len() ==> #[trigger] erange(n2, tl, s[j]) == erange(n1, tl, s[j]),
    ensures
        in_order(n2, tl, s),
{
    assert forall|j1: int, j2: int| 0 <= j1 < j2 < s.len() implies #[trigger] erange(n2, tl, s[j1]).end.0
        <= #[trigger] erange(n2, tl, s[j2]).start.0 by {
        assert(erange(n2, tl, s[j1]) == erange(n1, tl, s[j1]));
        assert(erange(n2, tl, s[j2]) == erange(n1, tl, s[j2]));
    }
    assert forall|j: int| 0 <= j < s.len() implies #[trigger] erange(n2, tl, s[j]).start.0 <= erange(
        n2,
        tl,
        s[j],
    ).end.0 by {
        assert(erange(n2, tl, s[j]) == erange(n1, tl, s[j]));
    }
}

/// A node whose own entry and whose content's ranges are the same under `n2` as under
/// `n1`, over content that reads the same, stays nested.
proof fn lemma_nested_frame(
    n1: Seq<Node>,
    n2: Seq<Node>,
    tl: TokenList,
    c1: Seq<NodeOrToken>,
    c2: Seq<NodeOrToken>,
    i: int,
)
    requires
        nested(n1, tl, c1, i),
        0 <= i < n1.len(),
        i < n2.len(),
        n2[i] == n1[i],
        n1[i].content_idx + n1[i].content_len <= c1.len(),
        n1[i].content_idx + n1[i].content_len <= c2.len(),
        forall|j: int|
            n1[i].content_idx <= j < n1[i].content_idx + n1[i].content_len ==> #[trigger] c2[j] == c1[j]
                && erange(n2, tl, c1[j]) == erange(n1, tl, c1[j]),
    ensures
        nested(n2, tl, c2, i),
{
    let n = n1[i];
    let a = n.content_idx as int;
    let z = n.content_idx + n.content_len;
    let s1 = c1.subrange(a, z);
    let s2 = c2.subrange(a, z);
    assert(s2 =~= s1) by {
        assert forall|j: int| 0 <= j < s1.len() implies s2[j] == s1[j] by {
            assert(c2[a + j] == c1[a + j]);
        }
    }
    assert forall|j: int| 0 <= j < s1.len() implies #[trigger] erange(n2, tl, s1[j]) == erange(n1, tl, s1[j]) by {
        assert(s1[j] == c1[a + j]);
        assert(c2[a + j] == c1[a + j]);
    }
    lemma_in_order_frame(n1, n2, tl, s1);
    assert forall|j: int| a <= j < z implies n2[i].range.start.0 <= #[trigger] erange(n2, tl, c2[j]).start.0
        && erange(n2, tl, c2[j]).end.0 <= n2[i].range.end.0 by {
        assert(c2[j] == c1[j]);
    }
}

/// In entries in order, each ends where or before the last one ends.
proof fn lemma_in_order_last(nodes: Seq<Node>, tl: TokenList, s: Seq<NodeOrToken>, j: int)
    requires
        in_order(nodes, tl, s),
        0 <= j < s.len(),
    ensures
        erange(nodes, tl, s[j]).end.0 <= erange(nodes, tl, s[s.len() - 1]).end.0,
{
    if j < s.len() - 1 {
        assert(erange(nodes, tl, s[j]).end.0 <= erange(nodes, tl, s[s.len() - 1]).start.0);
    }
    assert(erange(nodes, tl, s[s.len() - 1]).start.0 <= erange(nodes, tl, s[s.len() - 1]).end.0);
}

/// Changing only the stack by dropping its top, the events, the parents or the errors
/// keeps the ranges in order.
proof fn lemma_ranges_frame(b1: &TreeBuild, b2: &TreeBuild)
    requires
        b1.ranges_ok(),
        b2.nodes == b1.nodes,
        b2.content_vec == b1.content_vec,
        b2.content == b1.content,
        b2.tokens == b1.tokens,
        b2.curr_token == b1.curr_token,
        b2.curr_trivia == b1.curr_trivia,
        b2.node_stack@.len() <= b1.node_stack@.len(),
        forall|k: int| 0 <= k < b2.node_stack@.len() ==> b2.node_stack@[k] == b1.node_stack@[k],
    ensures
        b2.ranges_ok(),
{
    assert forall|k: int| 1 <= k < b2.node_stack@.len() implies 1 <= (#[trigger] b2.node_stack@[k]).0.idx
        <= b2.temp().len() && b2.temp()[b2.node_stack@[k].0.idx - 1] == NodeOrToken::Node(
        b2.node_stack@[k].1,
    ) by {
        assert(b1.node_stack@[k] == b2.node_stack@[k]);
    }
}

/// Where the last entry of the open content ends: a new node starts there, and a node
/// that is closed ends there.
fn last_end(b: &TreeBuild) -> (r: TextOffset)
    requires
        b.inv(),
    ensures
        b.temp().len() == 0 ==> r.0 == 0,
        b.temp().len() > 0 ==> r == b.entry_range(b.temp().last()).end,
{
    let all = b.content.view_all();
    let last = if all.len() > 0 {
        Some(all[all.len() - 1])
    } else {
        None
    };
    node_or_token_range(b, last).end()
}

/// Closes the node of the stack entry `e`: its content is what was added since it
/// was opened, and its range ends where that content ends.
#[verifier::rlimit(50)]
#[verifier::spinoff_prover]
fn close_node(b: &mut TreeBuild, e: (TempOffset, NodeID))
    requires
        old(b).inv(),
        old(b).stack_entries_ok(),
        old(b).entry_props(e),
        forall|k: int|
            0 <= k < old(b).node_stack@.len() ==> (#[trigger] old(b).node_stack@[k]).0.idx
                <= e.0.idx,
        old(b).lossless(),
        old(b).nodes@[e.1.0 as int].content_len == 0,
        forall|k: int|
            0 <= k < old(b).node_stack@.len() ==> (#[trigger] old(b).node_stack@[k]).1.0 < e.1.0,
        old(b).nodes_placed(),
        old(b).ranges_ok(),
        e.0.idx >= 1 ==> old(b).temp()[e.0.idx - 1] == NodeOrToken::Node(e.1),
        e.0.idx == 0 ==> e.1.0 == 0 && old(b).nodes@[0].range.start.0 == 0,
    ensures
        final(b).inv(),
        final(b).lossless(),
        final(b).nodes_placed(),
        final(b).ranges_ok(),
        forall|i: int|
            0 <= i < final(b).nodes@.len() ==> (#[trigger] final(b).nodes@[i]).kind == old(
                b,
            ).nodes@[i].kind && final(b).nodes@[i].range.start == old(b).nodes@[i].range.start,
        final(b).stack_entries_ok(),
        final(b).source == old(b).source,
        final(b).tokens == old(b).tokens,
        final(b).events == old(b).events,
        final(b).module_id == old(b).module_id,
        final(b).errors == old(b).errors,
        final(b).node_stack == old(b).node_stack,
        final(b).parent_stack == old(b).parent_stack,
        final(b).curr_token == old(b).curr_token,
        final(b).curr_trivia == old(b).curr_trivia,
        final(b).nodes@.len() == old(b).nodes@.len(),
        final(b).temp() == old(b).temp().subrange(0, e.0.idx as int),
{
    let ghost b0 = *b;
    let end0 = last_end(b);
    let id = e.1.index();
    let mut node = b.nodes[id];
    let start = node.range.start;
    let end = if end0.0 < start.0 {
        start
    } else {
        end0
    };
    node.range = TextRange::new(start, end);
    let idx_c = b.content_vec.len();
    let view = b.content.view(e.0);
    let len_c = view.len();
    let mut i: usize = 0;
    while i < len_c
        invariant
            b.content == b0.content,
            b.nodes == b0.nodes,
            b.source == b0.source,
            b.tokens == b0.tokens,
            b.events == b0.events,
            b.module_id == b0.module_id,
            b.errors == b0.errors,
            b.node_stack == b0.node_stack,
            b.parent_stack == b0.parent_stack,
            b.curr_token == b0.curr_token,
            b.curr_trivia == b0.curr_trivia,
            view@ == b0.temp().subrange(e.0.idx as int, b0.temp().len() as int),
            len_c == view@.len(),
            0 <= i <= len_c,
            idx_c == b0.content_vec@.len(),
            b.content_vec@ == b0.content_vec@ + view@.subrange(0, i as int),
        decreases len_c - i,
    {
        b.content_vec.push(view[i]);
        proof {
            assert(b.content_vec@ =~= b0.content_vec@ + view@.subrange(0, i + 1));
        }
        i = i + 1;
    }
    proof {
        assert(view@.subrange(0, len_c as int) =~= view@);
    }
    assert(idx_c + len_c <= u32::MAX);
    node.content_idx = idx_c as u32;
    node.content_len = len_c as u32;
    b.nodes.set(id, node);
    b.content.pop_view(e.0);
    b.owner = Ghost(b0.owner@ + Seq::new(len_c as nat, |k: int| id as int));
    proof {
        assert(b.all_items() =~= (b0.content_vec@ + view@) + b0.temp().subrange(0, e.0.idx as int));
        assert(b0.all_items() =~= b0.content_vec@ + (b0.temp().subrange(0, e.0.idx as int) + view@));
        assert(b0.temp() =~= b0.temp().subrange(0, e.0.idx as int) + view@);
        assert forall|x: NodeOrToken| occurrences(b.all_items(), x) == occurrences(b0.all_items(), x)
            + occurrences(Seq::<NodeOrToken>::empty(), x) by {
            lemma_occurrences_concat(b0.content_vec@, view@, x);
            lemma_occurrences_concat(b0.content_vec@ + view@, b0.temp().subrange(0, e.0.idx as int), x);
            lemma_occurrences_concat(b0.temp().subrange(0, e.0.idx as int), view@, x);
            lemma_occurrences_concat(b0.content_vec@, b0.temp().subrange(0, e.0.idx as int) + view@, x);
        }
        lemma_counts_same(&b0, b, Seq::empty());
        assert forall|id: NodeID| #[trigger] occurrences(b.all_items(), NodeOrToken::Node(id)) == (if 0
            < id.0 < b.nodes@.len() {
            1nat
        } else {
            0nat
        }) by {
            assert(occurrences(b.all_items(), NodeOrToken::Node(id)) == occurrences(
                b0.all_items(),
                NodeOrToken::Node(id),
            ) + occurrences(Seq::<NodeOrToken>::empty(), NodeOrToken::Node(id)));
        }
        assert forall|j: int| 0 <= j < b.content_vec@.len() implies 0 <= #[trigger] b.owner@[j]
            < b.nodes@.len() && in_node(b.nodes@[b.owner@[j]], j) by {
            if j < b0.content_vec@.len() {
                assert(b.owner@[j] == b0.owner@[j]);
                if b0.owner@[j] == id {
                    assert(in_node(b0.nodes@[id as int], j));
                }
                assert(b.nodes@[b0.owner@[j]] == b0.nodes@[b0.owner@[j]]);
            } else {
                assert(b.owner@[j] == id);
            }
        }
        assert forall|i: int, j: int|
            0 <= i < b.nodes@.len() && #[trigger] in_node(b.nodes@[i], j) implies b.owner@[j] == i by {
            if i != id {
                assert(b.nodes@[i] == b0.nodes@[i]);
                assert(b0.closed_ok(i));
                assert(b.owner@[j] == b0.owner@[j]);
            }
        }
        assert forall|k: int| 0 <= k < b.node_stack@.len() implies b.nodes@[(
        #[trigger] b.node_stack@[k]).1.0 as int].content_len == 0 by {
            assert(b.node_stack@[k].1.0 < e.1.0);
        }
        assert forall|j: int| 0 <= j < b.nodes@.len() implies #[trigger] b.closed_ok(j) by {
            if j == id {
                assert forall|q: int|
                    node.content_idx <= q < node.content_idx as int
                        + node.content_len as int implies {
                    let x = #[trigger] b.content_vec@[q];
                    &&& b.entry_valid(x)
                    &&& (x is Node ==> x->Node_0.0 > j)
                } by {
                    assert(node.content_idx == idx_c);
                    assert(b.content_vec@ == b0.content_vec@ + view@);
                    assert(b.content_vec@[q] == view@[q - idx_c]);
                    assert(b.content_vec@[q] == b0.temp()[e.0.idx + q - idx_c]);
                    assert(b0.entry_valid(b0.temp()[e.0.idx + q - idx_c]));
                    assert(b.nodes@.len() == b0.nodes@.len());
                    assert(b.tokens == b0.tokens);
                    assert(b.entry_valid(b0.temp()[e.0.idx + q - idx_c]));
                }
            } else {
                assert(b0.closed_ok(j));
                assert(b.nodes@[j] == b0.nodes@[j]);
                let n = b.nodes@[j];
                assert forall|q: int|
                    n.content_idx <= q < n.content_idx as int + n.content_len as int implies {
                    let x = #[trigger] b.content_vec@[q];
                    &&& b.entry_valid(x)
                    &&& (x is Node ==> x->Node_0.0 > j)
                } by {
                    assert(b.content_vec@[q] == b0.content_vec@[q]);
                }
            }
        }
        assert forall|j: int| 0 <= j < b.temp().len() implies b.entry_valid(
            #[trigger] b.temp()[j],
        ) by {
            assert(b.temp()[j] == b0.temp()[j]);
        }
        assert forall|k: int| 0 <= k < b.node_stack@.len() implies b.entry_props(
            #[trigger] b.node_stack@[k],
        ) by {
            assert(b0.entry_props(b0.node_stack@[k]));
            let f = b.node_stack@[k];
            assert forall|j: int| f.0.idx <= j < b.temp().len() && #[trigger] b.temp()[j] is Node implies
            b.temp()[j]->Node_0.0 > f.1.0 by {
                assert(b.temp()[j] == b0.temp()[j]);
            }
        }
        lemma_close_ranges(&b0, b, e, node);
    }
}

proof fn lemma_push_trivia(b1: &TreeBuild, b2: &TreeBuild)
    requires
        b1.counts_ok(),
        b1.vlen() <= u32::MAX,
        b1.tlen() <= u32::MAX,
        b1.curr_trivia.0 < b1.vlen(),
        b2.tokens == b1.tokens,
        b2.all_items() == b1.all_items().push(NodeOrToken::Trivia(b1.curr_trivia)),
        b2.curr_trivia.0 == b1.curr_trivia.0 + 1,
        b2.curr_token == b1.curr_token,
    ensures
        b2.counts_ok(),
{
    assert(b2.all_items().drop_last() =~= b1.all_items());
    assert forall|v: int| 0 <= v < b2.vlen() implies #[trigger] occurrences(
        b2.all_items(),
        NodeOrToken::Trivia(TriviaID(v as u32)),
    ) == (if v < b2.curr_trivia.0 {
        1nat
    } else {
        0nat
    }) by {
        assert(occurrences(b1.all_items(), NodeOrToken::Trivia(TriviaID(v as u32))) == (if v
            < b1.curr_trivia.0 {
            1nat
        } else {
            0nat
        }));
    }
    assert forall|t: int| 0 <= t < b2.tlen() implies #[trigger] occurrences(
        b2.all_items(),
        NodeOrToken::Token(TokenID(t as u32)),
    ) == (if t < b2.curr_token.0 {
        1nat
    } else {
        0nat
    }) by {
        assert(occurrences(b1.all_items(), NodeOrToken::Token(TokenID(t as u32))) == (if t
            < b1.curr_token.0 {
            1nat
        } else {
            0nat
        }));
    }
}

proof fn lemma_push_token(b1: &TreeBuild, b2: &TreeBuild)
    requires
        b1.counts_ok(),
        b1.vlen() <= u32::MAX,
        b1.tlen() <= u32::MAX,
        b1.curr_token.0 < b1.tlen(),
        b2.tokens == b1.tokens,
        b2.all_items() == b1.all_items().push(NodeOrToken::Token(b1.curr_token)),
        b2.curr_token.0 == b1.curr_token.0 + 1,
        b2.curr_trivia == b1.curr_trivia,
    ensures
        b2.counts_ok(),
{
    assert(b2.all_items().drop_last() =~= b1.all_items());
    assert forall|v: int| 0 <= v < b2.vlen() implies #[trigger] occurrences(
        b2.all_items(),
        NodeOrToken::Trivia(TriviaID(v as u32)),
    ) == (if v < b2.curr_trivia.0 {
        1nat
    } else {
        0nat
    }) by {
        assert(occurrences(b1.all_items(), NodeOrToken::Trivia(TriviaID(v as u32))) == (if v
            < b1.curr_trivia.0 {
            1nat
        } else {
            0nat
        }));
    }
    assert forall|t: int| 0 <= t < b2.tlen() implies #[trigger] occurrences(
        b2.all_items(),
        NodeOrToken::Token(TokenID(t as u32)),
    ) == (if t < b2.curr_token.0 {
        1nat
    } else {
        0nat
    }) by {
        assert(occurrences(b1.all_items(), NodeOrToken::Token(TokenID(t as u32))) == (if t
            < b1.curr_token.0 {
            1nat
        } else {
            0nat
        }));
    }
}

/// Placing a node entry, or moving entries from the open content to the closed one,
/// changes no count of trivia or tokens.
proof fn lemma_counts_same(b1: &TreeBuild, b2: &TreeBuild, extra: Seq<NodeOrToken>)
    requires
        b1.counts_ok(),
        b2.tokens == b1.tokens,
        b2.curr_token == b1.curr_token,
        b2.curr_trivia == b1.curr_trivia,
        forall|x: NodeOrToken| occurrences(b2.all_items(), x) == occurrences(b1.all_items(), x)
            + occurrences(extra, x),
        forall|k: int| 0 <= k < extra.len() ==> (#[trigger] extra[k]) is Node,
    ensures
        b2.counts_ok(),
{
    assert forall|x: NodeOrToken| !(x is Node) implies occurrences(extra, x) == 0 by {
        lemma_occurrences_none(extra, x);
    }
    assert forall|v: int| 0 <= v < b2.vlen() implies #[trigger] occurrences(
        b2.all_items(),
        NodeOrToken::Trivia(TriviaID(v as u32)),
    ) == (if v < b2.curr_trivia.0 {
        1nat
    } else {
        0nat
    }) by {
        assert(occurrences(extra, NodeOrToken::Trivia(TriviaID(v as u32))) == 0);
    }
    assert forall|t: int| 0 <= t < b2.tlen() implies #[trigger] occurrences(
        b2.all_items(),
        NodeOrToken::Token(TokenID(t as u32)),
    ) == (if t < b2.curr_token.0 {
        1nat
    } else {
        0nat
    }) by {
        assert(occurrences(extra, NodeOrToken::Token(TokenID(t as u32))) == 0);
    }
}

proof fn lemma_occurrences_none(s: Seq<NodeOrToken>, x: NodeOrToken)
    requires
        forall|k: int| 0 <= k < s.len() ==> (#[trigger] s[k]) is Node,
        !(x is Node),
    ensures
        occurrences(s, x) == 0,
    decreases s.len(),
{
    if s.len() > 0 {
        lemma_occurrences_none(s.drop_last(), x);
        assert(s.last() is Node);
    }
}

proof fn lemma_occurrences_absent(s: Seq<NodeOrToken>, x: NodeOrToken)
    requires
        forall|k: int| 0 <= k < s.len() ==> #[trigger] s[k] != x,
    ensures
        occurrences(s, x) == 0,
    decreases s.len(),
{
    if s.len() > 0 {
        lemma_occurrences_absent(s.drop_last(), x);
        assert(s.last() == s[s.len() - 1]);
    }
}

/// Placing entries that are no nodes keeps where the nodes stand.
proof fn lemma_nodes_placed_extend(b1: &TreeBuild, b2: &TreeBuild, extra: Seq<NodeOrToken>)
    requires
        b1.nodes_placed(),
        b2.nodes@.len() == b1.nodes@.len(),
        b2.content_vec@ == b1.content_vec@,
        b2.temp() == b1.temp() + extra,
        forall|k: int| 0 <= k < extra.len() ==> !((#[trigger] extra[k]) is Node),
    ensures
        b2.nodes_placed(),
{
    assert(b2.all_items() =~= b1.all_items() + extra);
    assert forall|id: NodeID| #[trigger] occurrences(b2.all_items(), NodeOrToken::Node(id)) == (if 0
        < id.0 < b2.nodes@.len() {
        1nat
    } else {
        0nat
    }) by {
        lemma_occurrences_concat(b1.all_items(), extra, NodeOrToken::Node(id));
        lemma_occurrences_absent(extra, NodeOrToken::Node(id));
        assert(occurrences(b1.all_items(), NodeOrToken::Node(id)) == (if 0 < id.0 < b1.nodes@.len() {
            1nat
        } else {
            0nat
        }));
    }
}

proof fn lemma_nodes_placed_frame(b1: &TreeBuild, b2: &TreeBuild)
    requires
        b1.nodes_placed(),
        b2.nodes@.len() == b1.nodes@.len(),
        b2.content == b1.content,
        b2.content_vec == b1.content_vec,
    ensures
        b2.nodes_placed(),
{
    assert(b2.all_items() == b1.all_items());
}

proof fn lemma_owners_frame(b1: &TreeBuild, b2: &TreeBuild)
    requires
        b1.owners_ok(),
        b2.owner == b1.owner,
        b2.content_vec == b1.content_vec,
        b2.nodes == b1.nodes,
        b2.node_stack == b1.node_stack,
    ensures
        b2.owners_ok(),
{
}

proof fn lemma_lossless_frame(b1: &TreeBuild, b2: &TreeBuild)
    requires
        b1.lossless(),
        b2.tokens == b1.tokens,
        b2.content == b1.content,
        b2.content_vec == b1.content_vec,
        b2.nodes == b1.nodes,
        b2.node_stack == b1.node_stack,
        b2.owner == b1.owner,
        b2.curr_token == b1.curr_token,
        b2.curr_trivia == b1.curr_trivia,
    ensures
        b2.lossless(),
{
    assert(b2.all_items() == b1.all_items());
}

/// Popping the top of the node stack keeps everything but what concerns that entry,
/// which is the newest open node and has no content yet.
proof fn lemma_pop_lossless(b1: &TreeBuild, b2: &TreeBuild)
    requires
        b1.lossless(),
        b1.node_stack@.len() > 0,
        b2.node_stack@ == b1.node_stack@.drop_last(),
        b2.tokens == b1.tokens,
        b2.content == b1.content,
        b2.content_vec == b1.content_vec,
        b2.nodes == b1.nodes,
        b2.owner == b1.owner,
        b2.curr_token == b1.curr_token,
        b2.curr_trivia == b1.curr_trivia,
    ensures
        b2.lossless(),
        b1.nodes@[b1.node_stack@.last().1.0 as int].content_len == 0,
        forall|k: int| 0 <= k < b2.node_stack@.len() ==> (#[trigger] b2.node_stack@[k]).1.0 < b1.node_stack@.last().1.0,
{
    assert(b2.all_items() == b1.all_items());
    assert forall|k: int| 0 <= k < b2.node_stack@.len() implies b2.nodes@[(
    #[trigger] b2.node_stack@[k]).1.0 as int].content_len == 0 by {
        assert(b2.node_stack@[k] == b1.node_stack@[k]);
    }
    assert forall|k1: int, k2: int|
        0 <= k1 < k2 < b2.node_stack@.len() implies (#[trigger] b2.node_stack@[k1]).1.0 < (
        #[trigger] b2.node_stack@[k2]).1.0 by {
        assert(b2.node_stack@[k1] == b1.node_stack@[k1]);
        assert(b2.node_stack@[k2] == b1.node_stack@[k2]);
    }
    let last = b1.node_stack@.len() - 1;
    assert(b1.nodes@[b1.node_stack@[last].1.0 as int].content_len == 0);
    assert forall|k: int| 0 <= k < b2.node_stack@.len() implies (#[trigger] b2.node_stack@[k]).1.0
        < b1.node_stack@.last().1.0 by {
        assert(b2.node_stack@[k] == b1.node_stack@[k]);
        assert(b1.node_stack@[k].1.0 < b1.node_stack@[last].1.0);
    }
}

proof fn lemma_inv_frame(b1: &TreeBuild, b2: &TreeBuild)
    requires
        b1.inv(),
        b2.source == b1.source,
        b2.tokens == b1.tokens,
        b2.events@.len() == b1.events@.len(),
        b2.module_id == b1.module_id,
        b2.errors == b1.errors,
        b2.nodes == b1.nodes,
        b2.content == b1.content,
        b2.content_vec == b1.content_vec,
        b2.curr_token == b1.curr_token,
        b2.curr_trivia == b1.curr_trivia,
    ensures
        b2.inv(),
{
    assert forall|i: int| 0 <= i < b2.nodes@.len() implies #[trigger] b2.closed_ok(i) by {
        assert(b1.closed_ok(i));
    }
}

proof fn lemma_stack_frame(b1: &TreeBuild, b2: &TreeBuild)
    requires
        b1.stack_entries_ok(),
        b2.node_stack == b1.node_stack,
        b2.content == b1.content,
        b2.nodes@.len() == b1.nodes@.len(),
    ensures
        b2.stack_entries_ok(),
{
    assert forall|k: int| 0 <= k < b2.node_stack@.len() implies b2.entry_props(
        #[trigger] b2.node_stack@[k],
    ) by {
        assert(b1.entry_props(b1.node_stack@[k]));
    }
}

/// Opens a node of `kind` at the end of the open content.
fn open_node(b: &mut TreeBuild, kind: SyntaxKind)
    requires
        old(b).inv(),
        old(b).stack_entries_ok(),
        old(b).nodes@.len() < old(b).events@.len(),
        old(b).lossless(),
        old(b).nodes_placed(),
        old(b).ranges_ok(),
    ensures
        final(b).inv(),
        final(b).lossless(),
        final(b).nodes_placed(),
        final(b).ranges_ok(),
        forall|i: int| 0 <= i < old(b).nodes@.len() ==> #[trigger] final(b).nodes@[i] == old(b).nodes@[i],
        final(b).nodes@[old(b).nodes@.len() as int].kind == kind,
        final(b).stack_entries_ok(),
        final(b).source == old(b).source,
        final(b).tokens == old(b).tokens,
        final(b).events == old(b).events,
        final(b).module_id == old(b).module_id,
        final(b).errors == old(b).errors,
        final(b).parent_stack == old(b).parent_stack,
        final(b).curr_token == old(b).curr_token,
        final(b).curr_trivia == old(b).curr_trivia,
        final(b).nodes@.len() == old(b).nodes@.len() + 1,
        final(b).node_stack@.len() == old(b).node_stack@.len() + 1,
        final(b).node_stack@.subrange(0, old(b).node_stack@.len() as int) == old(b).node_stack@,
{
    let ghost b0 = *b;
    let start = last_end(b);
    let node = Node { kind, range: TextRange::new(start, start), content_idx: 0, content_len: 0 };
    let node_id = NodeID::new(b.nodes.len());
    b.content.push(NodeOrToken::Node(node_id));
    let offset = b.content.start();
    b.nodes.push(node);
    b.node_stack.push((offset, node_id));
    proof {
        assert(b.temp() == b0.temp().push(NodeOrToken::Node(node_id)));
        assert forall|j: int| 0 <= j < b.nodes@.len() implies #[trigger] b.closed_ok(j) by {
            if j < b0.nodes@.len() {
                assert(b0.closed_ok(j));
                assert(b.nodes@[j] == b0.nodes@[j]);
                let n = b.nodes@[j];
                assert forall|q: int|
                    n.content_idx <= q < n.content_idx as int + n.content_len as int implies {
                    let x = #[trigger] b.content_vec@[q];
                    &&& b.entry_valid(x)
                    &&& (x is Node ==> x->Node_0.0 > j)
                } by {
                    assert(b0.entry_valid(b0.content_vec@[q]));
                }
            }
        }
        assert forall|j: int| 0 <= j < b.temp().len() implies b.entry_valid(
            #[trigger] b.temp()[j],
        ) by {
            if j < b0.temp().len() {
                assert(b.temp()[j] == b0.temp()[j]);
                assert(b0.entry_valid(b0.temp()[j]));
            }
        }
        assert forall|k: int| 0 <= k < b.node_stack@.len() implies b.entry_props(
            #[trigger] b.node_stack@[k],
        ) by {
            if k < b0.node_stack@.len() {
                assert(b0.entry_props(b0.node_stack@[k]));
                assert(b.node_stack@[k] == b0.node_stack@[k]);
                let f = b.node_stack@[k];
                assert forall|j: int| f.0.idx <= j < b.temp().len() && #[trigger] b.temp()[j] is Node implies
                b.temp()[j]->Node_0.0 > f.1.0 by {
                    if j < b0.temp().len() {
                        assert(b.temp()[j] == b0.temp()[j]);
                    }
                }
            }
        }
        assert forall|k1: int, k2: int|
            0 <= k1 < k2 < b.node_stack@.len() implies (#[trigger] b.node_stack@[k1]).0.idx
                <= (#[trigger] b.node_stack@[k2]).0.idx by {
            if k2 < b0.node_stack@.len() {
                assert(b.node_stack@[k1] == b0.node_stack@[k1]);
                assert(b.node_stack@[k2] == b0.node_stack@[k2]);
            } else {
                assert(b.node_stack@[k1] == b0.node_stack@[k1]);
                assert(b0.entry_props(b0.node_stack@[k1]));
            }
        }
        assert(b.node_stack@.subrange(0, b0.node_stack@.len() as int) =~= b0.node_stack@);
        let extra = seq![NodeOrToken::Node(node_id)];
        assert(b.all_items() =~= b0.all_items() + extra);
        assert forall|x: NodeOrToken| occurrences(b.all_items(), x) == occurrences(b0.all_items(), x)
            + occurrences(extra, x) by {
            lemma_occurrences_concat(b0.all_items(), extra, x);
        }
        lemma_counts_same(&b0, b, extra);
        assert(extra.drop_last() =~= Seq::<NodeOrToken>::empty());
        assert forall|id: NodeID| #[trigger] occurrences(b.all_items(), NodeOrToken::Node(id)) == (if 0
            < id.0 < b.nodes@.len() {
            1nat
        } else {
            0nat
        }) by {
            assert(occurrences(b.all_items(), NodeOrToken::Node(id)) == occurrences(
                b0.all_items(),
                NodeOrToken::Node(id),
            ) + occurrences(extra, NodeOrToken::Node(id)));
            assert(occurrences(b0.all_items(), NodeOrToken::Node(id)) == (if 0 < id.0 < b0.nodes@.len() {
                1nat
            } else {
                0nat
            }));
            assert(occurrences(extra.drop_last(), NodeOrToken::Node(id)) == 0);
            assert(extra.last() == NodeOrToken::Node(node_id));
            assert(occurrences(extra, NodeOrToken::Node(id)) == (if id == node_id {
                1nat
            } else {
                0nat
            }));
        }
        assert forall|j: int| 0 <= j < b.content_vec@.len() implies 0 <= #[trigger] b.owner@[j]
            < b.nodes@.len() && in_node(b.nodes@[b.owner@[j]], j) by {
            assert(b.nodes@[b0.owner@[j]] == b0.nodes@[b0.owner@[j]]);
        }
        assert forall|i: int, j: int|
            0 <= i < b.nodes@.len() && #[trigger] in_node(b.nodes@[i], j) implies b.owner@[j] == i by {
            if i < b0.nodes@.len() {
                assert(b.nodes@[i] == b0.nodes@[i]);
            }
        }
        assert forall|k: int| 0 <= k < b.node_stack@.len() implies b.nodes@[(
        #[trigger] b.node_stack@[k]).1.0 as int].content_len == 0 by {
            if k < b0.node_stack@.len() {
                assert(b.node_stack@[k] == b0.node_stack@[k]);
                assert(b0.entry_props(b0.node_stack@[k]));
            }
        }
        assert forall|k1: int, k2: int|
            0 <= k1 < k2 < b.node_stack@.len() implies (#[trigger] b.node_stack@[k1]).1.0 < (
            #[trigger] b.node_stack@[k2]).1.0 by {
            assert(b.node_stack@[k1] == b0.node_stack@[k1]);
            assert(b0.entry_props(b0.node_stack@[k1]));
            if k2 < b0.node_stack@.len() {
                assert(b.node_stack@[k2] == b0.node_stack@[k2]);
            }
        }
        lemma_open_ranges(&b0, b, node_id, start);
    }
}

/// Closing a node keeps the ranges in order: its content, what was opened after it, lies
/// in its range, which runs from its start to the end of that content.
proof fn lemma_close_ranges(b0: &TreeBuild, b: &TreeBuild, e: (TempOffset, NodeID), nn: Node)
    requires
        b0.inv(),
        b0.ranges_ok(),
        b0.nodes_placed(),
        b0.entry_props(e),
        forall|k: int|
            0 <= k < b0.node_stack@.len() ==> (#[trigger] b0.node_stack@[k]).0.idx <= e.0.idx
                && b0.node_stack@[k].1.0 < e.1.0,
        e.0.idx >= 1 ==> b0.temp()[e.0.idx - 1] == NodeOrToken::Node(e.1),
        e.0.idx == 0 ==> e.1.0 == 0 && b0.nodes@[0].range.start.0 == 0,
        b.nodes@ == b0.nodes@.update(e.1.0 as int, nn),
        nn.range.start == b0.nodes@[e.1.0 as int].range.start,
        nn.range.start.0 <= nn.range.end.0,
        b0.temp().len() > 0 ==> b0.entry_range(b0.temp().last()).end.0 <= nn.range.end.0,
        nn.range.end == nn.range.start || (b0.temp().len() > 0 && nn.range.end == b0.entry_range(
            b0.temp().last(),
        ).end),
        nn.content_idx == b0.content_vec@.len(),
        nn.content_len == b0.temp().len() - e.0.idx,
        b.content_vec@ == b0.content_vec@ + b0.temp().subrange(e.0.idx as int, b0.temp().len() as int),
        b.temp() == b0.temp().subrange(0, e.0.idx as int),
        b.tokens == b0.tokens,
        b.curr_token == b0.curr_token,
        b.curr_trivia == b0.curr_trivia,
        b.node_stack == b0.node_stack,
    ensures
        b.ranges_ok(),
{
    let n0 = b0.nodes@;
    let n1 = b.nodes@;
    let tl = b0.tokens;
    let t0 = b0.temp();
    let cv0 = b0.content_vec@;
    let idx = e.0.idx as int;
    let id = e.1.0 as int;
    let x = NodeOrToken::Node(e.1);
    let all = b0.all_items();
    assert(all == cv0 + t0);
    assert(occurrences(all, x) == (if 0 < id < n0.len() { 1nat } else { 0nat }));
    // the closed node's own entry stands at `idx - 1` only
    assert forall|j: int| 0 <= j < t0.len() && j != idx - 1 implies #[trigger] t0[j] != x by {
        if t0[j] == x {
            assert(all[cv0.len() + j] == x);
            if idx >= 1 {
                assert(all[cv0.len() + idx - 1] == x);
                if j < idx - 1 {
                    lemma_occurrences_two(all, x, cv0.len() + j, cv0.len() + idx - 1);
                } else {
                    lemma_occurrences_two(all, x, cv0.len() + idx - 1, cv0.len() + j);
                }
            } else {
                lemma_occurrences_at(all, x, cv0.len() + j);
            }
        }
    }
    assert forall|j: int| 0 <= j < cv0.len() implies #[trigger] cv0[j] != x by {
        if cv0[j] == x {
            assert(all[j] == x);
            if idx >= 1 {
                assert(all[cv0.len() + idx - 1] == x);
                lemma_occurrences_two(all, x, j, cv0.len() + idx - 1);
            } else {
                lemma_occurrences_at(all, x, j);
            }
        }
    }
    // every other valid entry keeps its range
    assert forall|y: NodeOrToken| y != x && #[trigger] b0.entry_valid(y) implies erange(n1, tl, y) == erange(
        n0,
        tl,
        y,
    ) by {}
    // the open content left
    assert forall|j: int| 0 <= j < b.temp().len() implies #[trigger] erange(n1, tl, b.temp()[j]).start.0
        <= erange(n1, tl, b.temp()[j]).end.0 && erange(n1, tl, b.temp()[j]).end.0 <= b.next_pos() by {
        assert(b.temp()[j] == t0[j]);
        assert(b0.entry_valid(t0[j]));
        assert(erange(n0, tl, t0[j]).end.0 <= b0.next_pos());
        if j == idx - 1 {
            assert(erange(n0, tl, t0[j]).start.0 <= erange(n0, tl, t0[j]).end.0);
            if nn.range.end != nn.range.start {
                assert(erange(n0, tl, t0[t0.len() - 1]).end.0 <= b0.next_pos());
            }
        }
    }
    assert forall|j1: int, j2: int| 0 <= j1 < j2 < b.temp().len() implies #[trigger] erange(
        n1,
        tl,
        b.temp()[j1],
    ).end.0 <= #[trigger] erange(n1, tl, b.temp()[j2]).start.0 by {
        assert(b.temp()[j1] == t0[j1]);
        assert(b.temp()[j2] == t0[j2]);
        assert(b0.entry_valid(t0[j1]));
        assert(b0.entry_valid(t0[j2]));
        assert(erange(n0, tl, t0[j1]).end.0 <= erange(n0, tl, t0[j2]).start.0);
    }
    // the closed node
    let suffix = t0.subrange(idx, t0.len() as int);
    assert forall|j: int| 0 <= j < suffix.len() implies #[trigger] erange(n1, tl, suffix[j]) == erange(
        n0,
        tl,
        t0[idx + j],
    ) by {
        assert(suffix[j] == t0[idx + j]);
        assert(b0.entry_valid(t0[idx + j]));
    }
    assert(nested(n1, tl, b.content_vec@, id)) by {
        let c = b.content_vec@.subrange(nn.content_idx as int, nn.content_idx + nn.content_len);
        assert(c =~= suffix);
        assert forall|j1: int, j2: int| 0 <= j1 < j2 < c.len() implies #[trigger] erange(n1, tl, c[j1]).end.0
            <= #[trigger] erange(n1, tl, c[j2]).start.0 by {
            assert(erange(n0, tl, t0[idx + j1]).end.0 <= erange(n0, tl, t0[idx + j2]).start.0);
        }
        assert forall|j: int| 0 <= j < c.len() implies #[trigger] erange(n1, tl, c[j]).start.0 <= erange(
            n1,
            tl,
            c[j],
        ).end.0 by {
            assert(erange(n0, tl, t0[idx + j]).start.0 <= erange(n0, tl, t0[idx + j]).end.0);
        }
        assert forall|j: int|
            nn.content_idx <= j < nn.content_idx + nn.content_len implies nn.range.start.0 <= #[trigger] erange(
            n1,
            tl,
            b.content_vec@[j],
        ).start.0 && erange(n1, tl, b.content_vec@[j]).end.0 <= nn.range.end.0 by {
            let q = j - cv0.len();
            assert(b.content_vec@[j] == suffix[q]);
            assert(erange(n1, tl, suffix[q]) == erange(n0, tl, t0[idx + q]));
            lemma_in_order_last(n0, tl, t0, idx + q);
            if idx >= 1 {
                assert(erange(n0, tl, t0[idx - 1]).end.0 <= erange(n0, tl, t0[idx + q]).start.0);
                assert(erange(n0, tl, t0[idx - 1]).start.0 <= erange(n0, tl, t0[idx - 1]).end.0);
            }
        }
        assert(n1[id] == nn);
    }
    // the other nodes
    assert forall|i: int| 0 <= i < n1.len() implies #[trigger] nested(n1, tl, b.content_vec@, i) by {
        if i != id {
            assert(b0.closed_ok(i));
            assert(nested(n0, tl, cv0, i));
            assert(n1[i] == n0[i]);
            assert forall|j: int| n0[i].content_idx <= j < n0[i].content_idx + n0[i].content_len implies #[trigger] b.content_vec@[j]
                == cv0[j] && erange(n1, tl, cv0[j]) == erange(n0, tl, cv0[j]) by {
                assert(b0.entry_valid(cv0[j]));
            }
            lemma_nested_frame(n0, n1, tl, cv0, b.content_vec@, i);
        }
    }
    assert forall|k: int| 1 <= k < b.node_stack@.len() implies 1 <= (#[trigger] b.node_stack@[k]).0.idx
        <= b.temp().len() && b.temp()[b.node_stack@[k].0.idx - 1] == NodeOrToken::Node(b.node_stack@[k].1) by {
        assert(b.temp()[b.node_stack@[k].0.idx - 1] == t0[b.node_stack@[k].0.idx - 1]);
    }
}

/// Opening a node where the open content ends keeps the ranges in order.
proof fn lemma_open_ranges(b0: &TreeBuild, b: &TreeBuild, node_id: NodeID, start: TextOffset)
    requires
        b0.inv(),
        b0.ranges_ok(),
        node_id.0 == b0.nodes@.len(),
        b0.temp().len() == 0 ==> start.0 == 0,
        b0.temp().len() > 0 ==> start == b0.entry_range(b0.temp().last()).end,
        b.nodes@ == b0.nodes@.push(b.nodes@[node_id.0 as int]),
        b.nodes@[node_id.0 as int].range == (TextRange { start, end: start }),
        b.nodes@[node_id.0 as int].content_len == 0,
        b.nodes@[node_id.0 as int].content_idx == 0,
        b.content_vec == b0.content_vec,
        b.tokens == b0.tokens,
        b.curr_token == b0.curr_token,
        b.curr_trivia == b0.curr_trivia,
        b.temp() == b0.temp().push(NodeOrToken::Node(node_id)),
        b.node_stack@ == b0.node_stack@.push((TempOffset { idx: b.temp().len() as usize }, node_id)),
    ensures
        b.ranges_ok(),
{
    let n0 = b0.nodes@;
    let n1 = b.nodes@;
    let tl = b.tokens;
    assert forall|j: int| 0 <= j < b0.temp().len() implies #[trigger] erange(n1, tl, b0.temp()[j]) == erange(
        n0,
        tl,
        b0.temp()[j],
    ) by {
        assert(b0.entry_valid(b0.temp()[j]));
    }
    if b0.temp().len() > 0 {
        assert forall|j: int| 0 <= j < b0.temp().len() implies #[trigger] erange(n0, tl, b0.temp()[j]).end.0
            <= start.0 by {
            lemma_in_order_last(n0, tl, b0.temp(), j);
        }
        assert(erange(n0, tl, b0.temp()[b0.temp().len() - 1]).end.0 <= b0.next_pos());
    }
    lemma_in_order_frame(n0, n1, tl, b0.temp());
    assert forall|j1: int, j2: int| 0 <= j1 < j2 < b.temp().len() implies #[trigger] erange(n1, tl, b.temp()[j1]).end.0
        <= #[trigger] erange(n1, tl, b.temp()[j2]).start.0 by {
        assert(b.temp()[j1] == b0.temp()[j1]);
        if j2 < b0.temp().len() {
            assert(b.temp()[j2] == b0.temp()[j2]);
        }
    }
    assert forall|j: int| 0 <= j < b.temp().len() implies #[trigger] erange(n1, tl, b.temp()[j]).start.0
        <= erange(n1, tl, b.temp()[j]).end.0 && erange(n1, tl, b.temp()[j]).end.0 <= b.next_pos() by {
        if j < b0.temp().len() {
            assert(b.temp()[j] == b0.temp()[j]);
            assert(erange(n0, tl, b0.temp()[j]).end.0 <= b0.next_pos());
        }
    }
    assert forall|i: int| 0 <= i < n1.len() implies #[trigger] nested(n1, tl, b.content_vec@, i) by {
        if i < n0.len() {
            assert(b0.closed_ok(i));
            assert(nested(n0, tl, b0.content_vec@, i));
            assert(n1[i] == n0[i]);
            assert forall|j: int|
                n0[i].content_idx <= j < n0[i].content_idx + n0[i].content_len implies #[trigger] b.content_vec@[j]
                    == b0.content_vec@[j] && erange(n1, tl, b0.content_vec@[j]) == erange(
                    n0,
                    tl,
                    b0.content_vec@[j],
                ) by {
                assert(b0.entry_valid(b0.content_vec@[j]));
            }
            lemma_nested_frame(n0, n1, tl, b0.content_vec@, b.content_vec@, i);
        } else {
            assert(b.content_vec@.subrange(n1[i].content_idx as int, n1[i].content_idx + n1[i].content_len)
                =~= Seq::<NodeOrToken>::empty());
        }
    }
    assert forall|k: int| 1 <= k < b.node_stack@.len() implies 1 <= (#[trigger] b.node_stack@[k]).0.idx
        <= b.temp().len() && b.temp()[b.node_stack@[k].0.idx - 1] == NodeOrToken::Node(b.node_stack@[k].1) by {
        if k < b0.node_stack@.len() {
            assert(b.node_stack@[k] == b0.node_stack@[k]);
            assert(b.temp()[b.node_stack@[k].0.idx - 1] == b0.temp()[b.node_stack@[k].0.idx - 1]);
        }
    }
}

/// Each node but the root was made from its own `StartNode` event of `events`, the one
/// at `origin[i]`, and has that event's kind.
pub open spec fn kinds_from(nodes: Seq<Node>, events: Seq<Event>, origin: Seq<int>) -> bool {
    &&& origin.len() == nodes.len()
    &&& forall|i: int|
        1 <= i < nodes.len() ==> 1 <= #[trigger] origin[i] < events.len() && events[origin[i]] is StartNode
            && ev_kind(events[origin[i]]) == nodes[i].kind
    &&& forall|i: int, j: int| 1 <= i < j < nodes.len() ==> #[trigger] origin[i] != #[trigger] origin[j]
}

/// The events are those of `orig`, some of them replaced by `Ignore`.
spec fn events_from(evs: Seq<Event>, orig: Seq<Event>) -> bool {
    &&& evs.len() == orig.len()
    &&& forall|j: int| 0 <= j < evs.len() ==> #[trigger] evs[j] == orig[j] || evs[j] is Ignore
}

proof fn lemma_kinds_frame(n1: Seq<Node>, n2: Seq<Node>, orig: Seq<Event>, origin: Seq<int>)
    requires
        kinds_from(n1, orig, origin),
        n2.len() == n1.len(),
        forall|i: int| 0 <= i < n2.len() ==> (#[trigger] n2[i]).kind == n1[i].kind,
    ensures
        kinds_from(n2, orig, origin),
{
    assert forall|i: int| 1 <= i < n2.len() implies 1 <= #[trigger] origin[i] < orig.len()
        && orig[origin[i]] is StartNode && ev_kind(orig[origin[i]]) == n2[i].kind by {
        assert(n2[i].kind == n1[i].kind);
    }
}

/// Replays the events: opens and closes nodes, adds tokens, and gives each trivia to
/// the node it belongs to.
fn tree_build_impl(b: &mut TreeBuild)
    requires
        lexed_wf(&old(b).tokens, old(b).source@.len() as int),
        old(b).events@.len() >= 2,
        old(b).events@.len() + old(b).tokens.token_len() + old(b).tokens.trivia_len() <= u32::MAX,
        old(b).nodes@.len() == 0,
        old(b).content_vec@.len() == 0,
        old(b).temp().len() == 0,
        old(b).node_stack@.len() == 0,
        old(b).parent_stack@.len() == 0,
        old(b).curr_token.0 == 0,
        old(b).curr_trivia.0 == 0,
        old(b).errors@.len() == 0,
        old(b).owner@.len() == 0,
        token_events(old(b).events@) + 2 == old(b).tokens.token_len(),
        !(old(b).events@[0] is Token),
        !(old(b).events@[old(b).events@.len() - 1] is Token),
    ensures
        final(b).inv(),
        final(b).lossless(),
        final(b).curr_token.0 + 2 == final(b).tlen(),
        final(b).temp().len() == 0,
        final(b).curr_trivia.0 == final(b).vlen(),
        final(b).tokens == old(b).tokens,
        final(b).module_id == old(b).module_id,
        final(b).nodes_placed(),
        final(b).nodes@[0].range.start.0 == 0,
        final(b).ranges_ok(),
        exists|origin: Seq<int>| kinds_from(final(b).nodes@, old(b).events@, origin),
        late_mod_comments_reported(final(b).errors@, &final(b).tokens, final(b).vlen()),
        misplaced_docs_reported(final(b).errors@, &final(b).tokens, final(b).source@, final(b).vlen()),
        final(b).source == old(b).source,
{
    let ghost src0 = b.source;
    let ghost orig = b.events@;
    // the source file node
    let node = Node {
        kind: SyntaxKind::SOURCE_FILE,
        range: TextRange::zero(),
        content_idx: 0,
        content_len: 0,
    };
    let node_id = NodeID::new(b.nodes.len());
    let offset = b.content.start();
    b.nodes.push(node);
    b.node_stack.push((offset, node_id));
    proof {
        assert(b.closed_ok(0));
        assert(b.all_items() =~= Seq::<NodeOrToken>::empty());
        assert(b.owners_ok());
        assert forall|id: NodeID| #[trigger] occurrences(b.all_items(), NodeOrToken::Node(id)) == (if 0
            < id.0 < b.nodes@.len() {
            1nat
        } else {
            0nat
        }) by {}
        assert(b.content_vec@.subrange(0, 0) =~= Seq::<NodeOrToken>::empty());
        assert(nested(b.nodes@, b.tokens, b.content_vec@, 0));
        assert(b.ranges_ok());
    }
    let n_inner = attached_source_trivia(b);
    let ghost pre = *b;
    assert(b.curr_token.0 == 0 && b.errors@.len() == 0);
    eat_n_inner_trivias(b, n_inner);
    proof {
        lemma_nodes_placed_extend(&pre, b, trivia_run(pre.curr_trivia.0 as int, n_inner as int));
    }
    let ghost tokens0 = b.tokens;
    let ghost mid = b.module_id;
    let ghost mut origin: Seq<int> = seq![0int];
    let n = b.events.len();
    let mut idx: usize = 1;
    proof {
        lemma_start_count_le(b.events@.subrange(1, n as int));
        let e = b.events@;
        lemma_token_events_front(e, 0, n as int);
        assert(e.subrange(0, n as int) =~= e);
        assert(e.subrange(1, n as int).drop_last() =~= e.subrange(1, n - 1));
    }
    while idx + 1 < n
        invariant
            b.inv(),
            b.stack_entries_ok(),
            b.lossless(),
            b.root_at_bottom(),
            b.tokens == tokens0,
            b.module_id == mid,
            b.events@.len() == n,
            b.parent_stack@.len() == 0,
            b.nodes_placed(),
            b.nodes@[0].range.start.0 == 0,
            orig.len() == n,
            b.ranges_ok(),
            events_from(b.events@, orig),
            kinds_from(b.nodes@, orig, origin),
            forall|i: int| 1 <= i < b.nodes@.len() ==> #[trigger] origin[i] < idx || b.events@[origin[i]] is Ignore,
            late_mod_comments_reported(b.errors@, &b.tokens, b.curr_trivia.0 as int),
            misplaced_docs_reported(b.errors@, &b.tokens, b.source@, b.curr_trivia.0 as int),
            b.source == src0,
            1 <= idx < n,
            b.nodes@.len() + start_count(b.events@.subrange(idx as int, n as int)) <= n,
            b.curr_token.0 + token_events(b.events@.subrange(idx as int, n - 1)) + 2 == b.tlen(),
        decreases n - idx,
    {
        proof {
            lemma_token_events_front(b.events@, idx as int, n - 1);
            lemma_start_count_step(b.events@, idx as int);
        }
        match b.events[idx] {
            Event::StartNode { kind, forward_parent } => {
                let mut parent_next = forward_parent;
                let mut prev = idx;
                let ghost b1 = *b;
                let ghost ev_start = b.events@;
                let ghost nodes_start = b.nodes@;
                let ghost mut pfull: Seq<int> = seq![idx as int];
                assert(b.events@[idx as int] == orig[idx as int]);
                b.parent_stack.push(kind);
                proof {
                    lemma_inv_frame(&b1, b);
                    lemma_stack_frame(&b1, b);
                    lemma_lossless_frame(&b1, b);
                    lemma_nodes_placed_frame(&b1, b);
                    lemma_ranges_frame(&b1, b);
                }
                loop
                    invariant
                        b.inv(),
                        b.stack_entries_ok(),
                        b.lossless(),
                        b.root_at_bottom(),
                        b.tokens == tokens0,
                        b.module_id == mid,
                        b.events@.len() == n,
                        b.nodes_placed(),
                        b.nodes@[0].range.start.0 == 0,
                        orig.len() == n,
                        ev_start.len() == n,
                        b.ranges_ok(),
                        events_from(b.events@, orig),
                        forall|j: int| 0 <= j < n ==> #[trigger] b.events@[j] == ev_start[j] || b.events@[j] is Ignore,
                        b.nodes@ == nodes_start,
                        kinds_from(b.nodes@, orig, origin),
                        forall|i: int| 1 <= i < b.nodes@.len() ==> #[trigger] origin[i] < idx || ev_start[origin[i]] is Ignore,
                        pfull.len() == b.parent_stack@.len(),
                        pfull[0] == idx,
                        pfull.last() == prev,
                        late_mod_comments_reported(b.errors@, &b.tokens, b.curr_trivia.0 as int),
                        misplaced_docs_reported(b.errors@, &b.tokens, b.source@, b.curr_trivia.0 as int),
                        b.source == src0,
                        forall|k: int| 0 <= k < pfull.len() ==> idx <= #[trigger] pfull[k] < n
                            && ev_start[pfull[k]] is StartNode && orig[pfull[k]] is StartNode
                            && ev_kind(orig[pfull[k]]) == b.parent_stack@[k],
                        forall|k: int| 0 < k < pfull.len() ==> b.events@[#[trigger] pfull[k]] is Ignore,
                        forall|k1: int, k2: int| 0 <= k1 < k2 < pfull.len() ==> #[trigger] pfull[k1] < #[trigger] pfull[k2],
                        1 <= idx <= prev < n,
                        b.parent_stack@.len() >= 1,
                        b.nodes@.len() + b.parent_stack@.len() + start_count(
                            b.events@.subrange(idx + 1, n as int),
                        ) <= n,
                        b.curr_token.0 + token_events(b.events@.subrange(idx + 1, n - 1)) + 2
                            == b.tlen(),
                    decreases n - prev,
                {
                    let pidx = match parent_next {
                        Some(p) => p,
                        None => {
                            break;
                        },
                    };
                    if pidx <= prev || pidx >= n {
                        break;
                    }
                    match b.events[pidx] {
                        Event::StartNode { kind, forward_parent } => {
                            let ghost evs = b.events@;
                            let ghost b1 = *b;
                            parent_next = forward_parent;
                            b.parent_stack.push(kind);
                            b.events.set(pidx, Event::Ignore);
                            proof {
                                assert(evs[pidx as int] == orig[pidx as int]);
                                assert(ev_start[pidx as int] is StartNode);
                                pfull = pfull.push(pidx as int);
                                lemma_inv_frame(&b1, b);
                                lemma_stack_frame(&b1, b);
                                lemma_lossless_frame(&b1, b);
                                lemma_nodes_placed_frame(&b1, b);
                                lemma_ranges_frame(&b1, b);
                                let sub = evs.subrange(idx + 1, n as int);
                                assert(b.events@.subrange(idx + 1, n as int) =~= sub.update(
                                    pidx - idx - 1,
                                    Event::Ignore,
                                ));
                                lemma_start_count_ignore(sub, pidx - idx - 1);
                                if pidx < n - 1 {
                                    let tsub = evs.subrange(idx + 1, n - 1);
                                    assert(b.events@.subrange(idx + 1, n - 1) =~= tsub.update(
                                        pidx - idx - 1,
                                        Event::Ignore,
                                    ));
                                    lemma_token_events_update(tsub, pidx - idx - 1, Event::Ignore);
                                } else {
                                    assert(b.events@.subrange(idx + 1, n - 1) =~= evs.subrange(
                                        idx + 1,
                                        n - 1,
                                    ));
                                }
                            }
                            prev = pidx;
                        },
                        _ => {
                            break;
                        },
                    }
                }
                let top_kind = b.parent_stack[b.parent_stack.len() - 1];
                let (n_inner, n_outher) = attached_node_trivia(b, top_kind);
                let ghost pre = *b;
                eat_n_outher_trivias(b, n_outher);
                proof {
                    lemma_nodes_placed_extend(&pre, b, trivia_run(pre.curr_trivia.0 as int, n_outher as int));
                    assert forall|k: int|
                        b.curr_trivia.0 <= k < b.curr_trivia.0 + n_inner implies (
                        #[trigger] b.tokens.trivia_ranges_view()[k]).start.0 < b.token_start() by {
                        assert(pre.curr_trivia.0 <= k < pre.curr_trivia.0 + n_inner + n_outher);
                    }
                    assert forall|k: int|
                        b.curr_trivia.0 <= k < b.curr_trivia.0 + n_inner implies #[trigger] b.tokens.trivia_view()[k]
                            != Trivia::ModComment by {
                        assert(pre.curr_trivia.0 + n_outher <= k < pre.curr_trivia.0 + n_inner + n_outher);
                    }
                    assert forall|k: int|
                        b.curr_trivia.0 <= k < b.curr_trivia.0 + n_inner implies !#[trigger] parting_trivia(&b.tokens, b.source@, k) by {
                        assert(pre.curr_trivia.0 + n_outher <= k < pre.curr_trivia.0 + n_inner + n_outher);
                    }
                    assert(b.curr_trivia.0 + n_inner == pre.curr_trivia.0 + n_inner + n_outher);
                    lemma_inner_docs_placed(b, n_inner as int);
                }
                let mut added_inner = false;
                let ghost ev_after = b.events@;
                while b.parent_stack.len() > 0
                    invariant
                        orig.len() == n,
                        ev_start.len() == n,
                        events_from(b.events@, orig),
                        b.events@ == ev_after,
                        forall|j: int| 0 <= j < n ==> #[trigger] b.events@[j] == ev_start[j] || b.events@[j] is Ignore,
                        pfull[0] == idx,
                        forall|k: int| 0 <= k < pfull.len() ==> idx <= #[trigger] pfull[k] < n
                            && ev_start[pfull[k]] is StartNode && orig[pfull[k]] is StartNode,
                        forall|k: int| 0 <= k < b.parent_stack@.len() ==> ev_kind(orig[#[trigger] pfull[k]]) == b.parent_stack@[k],
                        forall|k: int| 0 < k < pfull.len() ==> b.events@[#[trigger] pfull[k]] is Ignore,
                        forall|k1: int, k2: int| 0 <= k1 < k2 < pfull.len() ==> #[trigger] pfull[k1] < #[trigger] pfull[k2],
                        b.parent_stack@.len() <= pfull.len(),
                        nodes_start.len() >= 1,
                        b.nodes@.len() == nodes_start.len() + pfull.len() - b.parent_stack@.len(),
                        kinds_from(b.nodes@, orig, origin),
                        forall|i: int| 1 <= i < nodes_start.len() ==> #[trigger] origin[i] < idx || ev_start[origin[i]] is Ignore,
                        forall|i: int| nodes_start.len() <= i < b.nodes@.len() ==> #[trigger] origin[i] == pfull[pfull.len() - 1 - (i - nodes_start.len())],
                        b.inv(),
                        b.stack_entries_ok(),
                        b.lossless(),
                        b.root_at_bottom(),
                        b.tokens == tokens0,
                        b.module_id == mid,
                        b.events@.len() == n,
                        1 <= idx < n,
                        b.nodes@.len() + b.parent_stack@.len() + start_count(
                            b.events@.subrange(idx + 1, n as int),
                        ) <= n,
                        b.curr_token.0 + token_events(b.events@.subrange(idx + 1, n - 1)) + 2
                            == b.tlen(),
                        !added_inner ==> b.before_token(n_inner as int),
                        !added_inner ==> forall|k: int|
                            b.curr_trivia.0 <= k < b.curr_trivia.0 + n_inner ==> #[trigger] b.tokens.trivia_view()[k]
                                != Trivia::ModComment,
                        !added_inner ==> forall|k: int|
                            b.curr_trivia.0 <= k < b.curr_trivia.0 + n_inner ==> !#[trigger] doc_misplaced(&b.tokens, b.source@, k),
                        late_mod_comments_reported(b.errors@, &b.tokens, b.curr_trivia.0 as int),
                        misplaced_docs_reported(b.errors@, &b.tokens, b.source@, b.curr_trivia.0 as int),
                        b.source == src0,
                        b.ranges_ok(),
                        b.nodes_placed(),
                        b.nodes@[0].range.start.0 == 0,
                    decreases b.parent_stack@.len(),
                {
                    let ghost b0 = *b;
                    let kind = b.parent_stack.pop().unwrap();
                    proof {
                        lemma_inv_frame(&b0, b);
                        lemma_stack_frame(&b0, b);
                        lemma_lossless_frame(&b0, b);
                        lemma_nodes_placed_frame(&b0, b);
                        lemma_ranges_frame(&b0, b);
                    }
                    let ghost b1 = *b;
                    let ghost m = b.parent_stack@.len() as int;
                    open_node(b, kind);
                    proof {
                        assert(b.node_stack@[0] == b1.node_stack@[0]);
                        let i_new = b1.nodes@.len() as int;
                        let o = pfull[m];
                        assert(ev_kind(orig[o]) == kind);
                        let origin0 = origin;
                        origin = origin.push(o);
                        assert(origin[i_new] == o);
                        assert forall|i: int| 1 <= i < b.nodes@.len() implies 1 <= #[trigger] origin[i] < orig.len()
                            && orig[origin[i]] is StartNode && ev_kind(orig[origin[i]]) == b.nodes@[i].kind by {
                            if i < i_new {
                                assert(origin[i] == origin0[i]);
                                assert(b.nodes@[i] == b1.nodes@[i]);
                            }
                        }
                        assert forall|i: int, j: int| 1 <= i < j < b.nodes@.len() implies #[trigger] origin[i]
                            != #[trigger] origin[j] by {
                            assert(origin[i] == origin0[i]);
                            if j == i_new {
                                if i < nodes_start.len() {
                                    assert(ev_start[o] is StartNode);
                                } else {
                                    let k = pfull.len() - 1 - (i - nodes_start.len());
                                    assert(origin0[i] == pfull[k]);
                                    assert(k > m);
                                    assert(pfull[m] < pfull[k]);
                                }
                            } else {
                                assert(origin[j] == origin0[j]);
                            }
                        }
                        assert forall|i: int| nodes_start.len() <= i < b.nodes@.len() implies #[trigger] origin[i]
                            == pfull[pfull.len() - 1 - (i - nodes_start.len())] by {
                            if i < i_new {
                                assert(origin[i] == origin0[i]);
                            }
                        }
                        assert forall|i: int| 1 <= i < nodes_start.len() implies #[trigger] origin[i] < idx
                            || ev_start[origin[i]] is Ignore by {
                            assert(origin[i] == origin0[i]);
                        }
                        assert(kinds_from(b.nodes@, orig, origin));
                    }
                    if !added_inner {
                        added_inner = true;
                        let ghost pre = *b;
                        eat_n_inner_trivias(b, n_inner);
                        proof {
                            lemma_nodes_placed_extend(&pre, b, trivia_run(pre.curr_trivia.0 as int, n_inner as int));
                        }
                    }
                }
                proof {
                    assert forall|i: int| 1 <= i < b.nodes@.len() implies #[trigger] origin[i] < idx + 1
                        || b.events@[origin[i]] is Ignore by {
                        if i >= nodes_start.len() {
                            let k = pfull.len() - 1 - (i - nodes_start.len());
                            assert(origin[i] == pfull[k]);
                            if k > 0 {
                                assert(b.events@[pfull[k]] is Ignore);
                            }
                        } else if !(origin[i] < idx) {
                            assert(ev_start[origin[i]] is Ignore);
                        }
                    }
                }
            },
            Event::EndNode => {
                if b.node_stack.len() > 1 {
                    let ghost b1 = *b;
                    let e = b.node_stack.pop().unwrap();
                    proof {
                        lemma_inv_frame(&b1, b);
                        lemma_pop_lossless(&b1, b);
                        assert(b1.entry_props(b1.node_stack@[b1.node_stack@.len() - 1]));
                        assert forall|k: int| 0 <= k < b.node_stack@.len() implies b.entry_props(
                            #[trigger] b.node_stack@[k],
                        ) by {
                            assert(b.node_stack@[k] == b1.node_stack@[k]);
                            assert(b1.entry_props(b1.node_stack@[k]));
                        }
                        assert forall|k: int| 0 <= k < b.node_stack@.len() implies (
                        #[trigger] b.node_stack@[k]).0.idx <= e.0.idx by {
                            assert(b.node_stack@[k] == b1.node_stack@[k]);
                        }
                        lemma_nodes_placed_frame(&b1, b);
                        lemma_ranges_frame(&b1, b);
                        assert(b1.node_stack@[b1.node_stack@.len() - 1] == e);
                    }
                    let ghost b2 = *b;
                    close_node(b, e);
                    proof {
                        lemma_kinds_frame(b2.nodes@, b.nodes@, orig, origin);
                    }
                }
            },
            Event::Token => {
                if b.curr_token.index() + 2 < b.tokens.token_count() {
                    let n_outher = attached_token_trivia(b);
                    let ghost pre = *b;
                    eat_n_outher_trivias(b, n_outher);
                    proof {
                        lemma_nodes_placed_extend(&pre, b, trivia_run(pre.curr_trivia.0 as int, n_outher as int));
                    }
                    let ghost b1 = *b;
                    b.content.push(NodeOrToken::Token(b.curr_token));
                    b.curr_token = b.curr_token.inc();
                    proof {
                        reveal(lexed_widths);
                        let t = b1.curr_token.0 as int;
                        let tl = b1.tokens;
                        tl.lemma_trivia_lens();
                        assert(tl.range_at(t).wf());
                        if t + 1 + 2 < b.tlen() {
                            assert(tl.range_at(t).end.0 <= tl.range_at(t + 1).start.0);
                        }
                        if b1.curr_trivia.0 < b1.vlen() {
                            let v = b1.curr_trivia.0 as int;
                            assert(tl.trivia_ranges_view()[v].start.0 >= tl.range_at(t).start.0);
                            assert(tl.trivia_ranges_view()[v].start.0 < tl.trivia_ranges_view()[v].end.0);
                            assert(tl.range_at(t).end.0 <= tl.trivia_ranges_view()[v].start.0
                                || tl.trivia_ranges_view()[v].end.0 <= tl.range_at(t).start.0);
                        }
                        lemma_push_leaf(&b1, b, NodeOrToken::Token(b1.curr_token));
                        assert(b.temp() == b1.temp().push(NodeOrToken::Token(b1.curr_token)));
                        assert(b.temp() =~= b1.temp() + seq![NodeOrToken::Token(b1.curr_token)]);
                        lemma_nodes_placed_extend(&b1, b, seq![NodeOrToken::Token(b1.curr_token)]);
                        assert(b.all_items() =~= b1.all_items().push(NodeOrToken::Token(b1.curr_token)));
                        lemma_push_token(&b1, b);
                        lemma_owners_frame(&b1, b);
                        assert forall|j: int| 0 <= j < b.nodes@.len() implies #[trigger] b.closed_ok(
                            j,
                        ) by {
                            assert(b1.closed_ok(j));
                        }
                        assert forall|j: int| 0 <= j < b.temp().len() implies b.entry_valid(
                            #[trigger] b.temp()[j],
                        ) by {
                            if j < b1.temp().len() {
                                assert(b.temp()[j] == b1.temp()[j]);
                            }
                        }
                        assert forall|k: int| 0 <= k < b.node_stack@.len() implies b.entry_props(
                            #[trigger] b.node_stack@[k],
                        ) by {
                            assert(b1.entry_props(b1.node_stack@[k]));
                            let f = b.node_stack@[k];
                            assert forall|j: int| f.0.idx <= j < b.temp().len() && #[trigger] b.temp()[j] is Node implies
                            b.temp()[j]->Node_0.0 > f.1.0 by {
                                if j < b1.temp().len() {
                                    assert(b.temp()[j] == b1.temp()[j]);
                                }
                            }
                        }
                    }
                }
            },
            Event::Ignore => {},
        }
        idx = idx + 1;
    }
    // the end of the source file node: the remaining trivia, then every node still open
    proof {
        assert(b.events@.subrange(idx as int, n - 1) =~= Seq::<Event>::empty());
    }
    let n_remaining = b.tokens.trivia_count() - b.curr_trivia.index();
    let ghost pre = *b;
    eat_n_outher_trivias(b, n_remaining);
    proof {
        lemma_nodes_placed_extend(&pre, b, trivia_run(pre.curr_trivia.0 as int, n_remaining as int));
    }
    while b.node_stack.len() > 0
        invariant
            b.inv(),
            b.stack_entries_ok(),
            b.lossless(),
            b.tokens == tokens0,
            b.module_id == mid,
            b.curr_trivia.0 == b.vlen(),
            b.curr_token.0 + 2 == b.tlen(),
            b.node_stack@.len() > 0 ==> b.node_stack@[0].0.idx == 0,
            b.node_stack@.len() == 0 ==> b.temp().len() == 0,
            b.nodes_placed(),
            b.nodes@[0].range.start.0 == 0,
            kinds_from(b.nodes@, orig, origin),
            b.ranges_ok(),
            b.node_stack@.len() > 0 ==> b.node_stack@[0].1.0 == 0,
            late_mod_comments_reported(b.errors@, &b.tokens, b.curr_trivia.0 as int),
            misplaced_docs_reported(b.errors@, &b.tokens, b.source@, b.curr_trivia.0 as int),
            b.source == src0,
        decreases b.node_stack@.len(),
    {
        let ghost b1 = *b;
        let e = b.node_stack.pop().unwrap();
        proof {
            lemma_inv_frame(&b1, b);
            lemma_pop_lossless(&b1, b);
            assert(b1.entry_props(b1.node_stack@[b1.node_stack@.len() - 1]));
            assert forall|k: int| 0 <= k < b.node_stack@.len() implies b.entry_props(
                #[trigger] b.node_stack@[k],
            ) by {
                assert(b.node_stack@[k] == b1.node_stack@[k]);
                assert(b1.entry_props(b1.node_stack@[k]));
            }
            assert forall|k: int| 0 <= k < b.node_stack@.len() implies (
            #[trigger] b.node_stack@[k]).0.idx <= e.0.idx by {
                assert(b.node_stack@[k] == b1.node_stack@[k]);
            }
            if b.node_stack@.len() > 0 {
                assert(b.node_stack@[0] == b1.node_stack@[0]);
            }
            lemma_nodes_placed_frame(&b1, b);
            lemma_ranges_frame(&b1, b);
            assert(b1.node_stack@[b1.node_stack@.len() - 1] == e);
        }
        let ghost b2 = *b;
        close_node(b, e);
        proof {
            lemma_kinds_frame(b2.nodes@, b.nodes@, orig, origin);
        }
    }
    proof {
        assert(kinds_from(b.nodes@, orig, origin));
    }
}

/// Builds the syntax tree of `source` from its tokens and the parse events, with an
/// error for each doc or module comment that stands where it cannot be attached.
/// The tree is complete when the parse was and no such error came up. The root is the
/// source file node, starting at offset 0; every other node comes from its own
/// `StartNode` event, with that event's kind, and is held exactly once in the content
/// of a node made before it. Each node's range holds its content, which comes in source
/// order. Each error reports a doc or module comment at its range, and each module
/// comment at or after the start of the first token, and each doc comment that a blank
/// line or a module comment parts from the next token, has its error.
pub fn tree_build(
    source: &str,
    tokens: TokenList,
    events: Vec<Event>,
    module_id: ModuleID,
    complete: bool,
) -> (r: (SyntaxTree, Vec<TreeError>))
    requires
        lexed_wf(&tokens, source.spec_bytes().len() as int),
        events@.len() >= 2,
        events@.len() + tokens.token_len() + tokens.trivia_len() <= u32::MAX,
        token_events(events@) + 2 == tokens.token_len(),
        !(events@[0] is Token),
        !(events@[events@.len() - 1] is Token),
    ensures
        r.0.wf(),
        r.0.leaves_once(),
        r.0.content_partitioned(),
        r.0.nodes_once(),
        r.0.nodes_view()[0].range.start.0 == 0,
        r.0.ranges_nest(),
        exists|origin: Seq<int>| kinds_from(r.0.nodes_view(), events@, origin),
        r.0.token_list().token_len() + r.0.token_list().trivia_len() <= u32::MAX,
        r.0.nodes_view().len() + 2 <= u32::MAX,
        r.0.token_list() == tokens,
        r.0.is_complete() == (complete && r.1@.len() == 0),
        forall|i: int| 0 <= i < r.1@.len() ==> (#[trigger] r.1@[i]).src.module_id == module_id,
        forall|i: int| 0 <= i < r.1@.len() ==> comment_error(#[trigger] r.1@[i], &tokens),
        late_mod_comments_reported(r.1@, &tokens, tokens.trivia_len()),
        misplaced_docs_reported(r.1@, &tokens, source.spec_bytes(), tokens.trivia_len()),
{
    let bytes = source.as_bytes();
    let mut build = TreeBuild {
        source: bytes,
        tokens,
        events,
        module_id,
        errors: Vec::new(),
        nodes: Vec::new(),
        content: TempBuffer::new(128),
        content_vec: Vec::new(),
        node_stack: Vec::new(),
        parent_stack: Vec::new(),
        curr_token: TokenID::new(0),
        curr_trivia: TriviaID::new(0),
        owner: Ghost(Seq::empty()),
    };
    tree_build_impl(&mut build);
    let no_errors = build.errors.len() == 0;
    let tree = SyntaxTree {
        nodes: build.nodes,
        content: build.content_vec,
        tokens: build.tokens,
        complete: complete && no_errors,
    };
    proof {
        assert forall|i: int| 0 <= i < tree.nodes_view().len() implies #[trigger] tree.node_ok(
            i,
        ) by {
            assert(build.closed_ok(i));
        }
        assert(build.all_items() =~= build.content_vec@);
        assert forall|i: int| 0 <= i < tree.nodes_view().len() implies #[trigger] occurrences(
            tree.content_view(),
            NodeOrToken::Node(NodeID(i as u32)),
        ) == (if i == 0 {
            0nat
        } else {
            1nat
        }) by {
            assert(occurrences(build.all_items(), NodeOrToken::Node(NodeID(i as u32))) == (if 0
                < (NodeID(i as u32)).0 < build.nodes@.len() {
                1nat
            } else {
                0nat
            }));
        }
        assert forall|v: int| 0 <= v < tree.token_list().trivia_len() implies #[trigger] occurrences(
            tree.content_view(),
            NodeOrToken::Trivia(TriviaID(v as u32)),
        ) == 1 by {
            assert(occurrences(build.all_items(), NodeOrToken::Trivia(TriviaID(v as u32))) == 1);
        }
        assert forall|t: int| 0 <= t < tree.token_list().token_len() implies #[trigger] occurrences(
            tree.content_view(),
            NodeOrToken::Token(TokenID(t as u32)),
        ) == (if t < tree.token_list().token_len() - 2 {
            1nat
        } else {
            0nat
        }) by {
            assert(occurrences(build.all_items(), NodeOrToken::Token(TokenID(t as u32))) == (if t
                < build.curr_token.0 {
                1nat
            } else {
                0nat
            }));
        }
        assert forall|j: int| 0 <= j < tree.content_view().len() implies #[trigger] tree.entry_covered(j) by {
            let i = build.owner@[j];
            assert(in_node(tree.nodes_view()[i], j));
        }
        assert forall|i1: int, i2: int, j: int|
            #![trigger in_node(tree.nodes_view()[i1], j), in_node(tree.nodes_view()[i2], j)]
            0 <= i1 < tree.nodes_view().len() && 0 <= i2 < tree.nodes_view().len() && in_node(
                tree.nodes_view()[i1],
                j,
            ) && in_node(tree.nodes_view()[i2], j) implies i1 == i2 by {
            assert(build.owner@[j] == i1);
            assert(build.owner@[j] == i2);
        }
    }
    (tree, build.errors)
}

} // verus!
