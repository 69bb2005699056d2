use vstd::prelude::*;
use crate::ids::{NodeID, TokenID};
use crate::syntax_kind::{SyntaxKind, SyntaxSet};
use crate::text::{TextOffset, TextRange};
use crate::token::Token;
use crate::tree::{Node, NodeOrToken, SyntaxTree};

verus! {

/// The content entries of `node`.
pub open spec fn content_of(tree: &SyntaxTree, node: Node) -> Seq<NodeOrToken> {
    tree.content_view().subrange(
        node.content_idx as int,
        node.content_idx as int + node.content_len as int,
    )
}

/// `node` is a node of `tree`: its content lies in the tree's content list and every
/// entry refers to something that exists.
pub open spec fn node_in(tree: &SyntaxTree, node: Node) -> bool {
    &&& node.content_idx as int + node.content_len as int <= tree.content_view().len()
    &&& forall|j: int|
        0 <= j < content_of(tree, node).len() ==> entry_valid(tree, #[trigger] content_of(tree, node)[j])
}

pub open spec fn entry_valid(tree: &SyntaxTree, x: NodeOrToken) -> bool {
    match x {
        NodeOrToken::Node(id) => id.0 < tree.nodes_view().len(),
        NodeOrToken::Token(id) => id.0 < tree.token_list().token_len(),
        NodeOrToken::Trivia(id) => id.0 < tree.token_list().trivia_len(),
    }
}

/// Kind of the node that `x` refers to, if it is a node.
pub open spec fn entry_kind(tree: &SyntaxTree, x: NodeOrToken) -> Option<SyntaxKind> {
    match x {
        NodeOrToken::Node(id) => Some(tree.nodes_view()[id.0 as int].kind),
        _ => None,
    }
}

/// Token that `x` refers to, if it is a token.
pub open spec fn entry_token(tree: &SyntaxTree, x: NodeOrToken) -> Option<Token> {
    match x {
        NodeOrToken::Token(id) => Some(tree.token_list().tokens_view()[id.0 as int]),
        _ => None,
    }
}

/// First node of `c` whose kind is in `kinds`.
pub open spec fn first_node_of(tree: &SyntaxTree, c: Seq<NodeOrToken>, kinds: SyntaxSet) -> Option<
    NodeID,
>
    decreases c.len(),
{
    if c.len() == 0 {
        None
    } else {
        match c[0] {
            NodeOrToken::Node(id) => if kinds.has(tree.nodes_view()[id.0 as int].kind) {
                Some(id)
            } else {
                first_node_of(tree, c.subrange(1, c.len() as int), kinds)
            },
            _ => first_node_of(tree, c.subrange(1, c.len() as int), kinds),
        }
    }
}

/// What follows the first `tok` token of `c`; nothing when there is none.
pub open spec fn after_token(tree: &SyntaxTree, c: Seq<NodeOrToken>, tok: Token) -> Seq<NodeOrToken>
    decreases c.len(),
{
    if c.len() == 0 {
        c
    } else if entry_token(tree, c[0]) == Some(tok) {
        c.subrange(1, c.len() as int)
    } else {
        after_token(tree, c.subrange(1, c.len() as int), tok)
    }
}

/// First node of `c` whose kind is in `kinds`, unless a `tok` token comes first.
pub open spec fn first_node_before(
    tree: &SyntaxTree,
    c: Seq<NodeOrToken>,
    kinds: SyntaxSet,
    tok: Token,
) -> Option<NodeID>
    decreases c.len(),
{
    if c.len() == 0 {
        None
    } else {
        match c[0] {
            NodeOrToken::Node(id) => if kinds.has(tree.nodes_view()[id.0 as int].kind) {
                Some(id)
            } else {
                first_node_before(tree, c.subrange(1, c.len() as int), kinds, tok)
            },
            NodeOrToken::Token(id) => if tree.token_list().tokens_view()[id.0 as int] == tok {
                None
            } else {
                first_node_before(tree, c.subrange(1, c.len() as int), kinds, tok)
            },
            _ => first_node_before(tree, c.subrange(1, c.len() as int), kinds, tok),
        }
    }
}

/// First token of `c` that is `tok`.
pub open spec fn first_token_of(tree: &SyntaxTree, c: Seq<NodeOrToken>, tok: Token) -> Option<TokenID>
    decreases c.len(),
{
    if c.len() == 0 {
        None
    } else if entry_token(tree, c[0]) == Some(tok) {
        Some(c[0]->Token_0)
    } else {
        first_token_of(tree, c.subrange(1, c.len() as int), tok)
    }
}

/// Last token of `c` that is `tok`.
pub open spec fn last_token_of(tree: &SyntaxTree, c: Seq<NodeOrToken>, tok: Token) -> Option<TokenID>
    decreases c.len(),
{
    if c.len() == 0 {
        None
    } else if entry_token(tree, c.last()) == Some(tok) {
        Some(c.last()->Token_0)
    } else {
        last_token_of(tree, c.drop_last(), tok)
    }
}

proof fn lemma_content_step(tree: &SyntaxTree, node: Node, i: int)
    requires
        node_in(tree, node),
        0 <= i < node.content_len,
    ensures
        content_of(tree, node).subrange(i, node.content_len as int).subrange(
            1,
            node.content_len - i,
        ) == content_of(tree, node).subrange(i + 1, node.content_len as int),
        content_of(tree, node).subrange(i, node.content_len as int)[0] == tree.content_view()[node.content_idx + i],
{
    assert(content_of(tree, node).subrange(i, node.content_len as int).subrange(
        1,
        node.content_len - i,
    ) =~= content_of(tree, node).subrange(i + 1, node.content_len as int));
}

/// The first node in the content of `node` whose kind is in `kinds`.
pub fn node_find(tree: &SyntaxTree, node: &Node, kinds: SyntaxSet) -> (r: Option<NodeID>)
    requires
        node_in(tree, *node),
    ensures
        r == first_node_of(tree, content_of(tree, *node), kinds),
{
    let content = tree.content_of(node);
    let n = content.len();
    assert(content@.subrange(0, n as int) =~= content@);
    let mut i: usize = 0;
    while i < n
        invariant
            node_in(tree, *node),
            content@ == content_of(tree, *node),
            n == content@.len(),
            0 <= i <= n,
            first_node_of(tree, content@, kinds) == first_node_of(
                tree,
                content@.subrange(i as int, n as int),
                kinds,
            ),
        decreases n - i,
    {
        proof {
            lemma_content_step(tree, *node, i as int);
            assert(entry_valid(tree, content@[i as int]));
        }
        match content[i] {
            NodeOrToken::Node(id) => {
                if kinds.contains(tree.node(id).kind) {
                    return Some(id);
                }
            },
            _ => {},
        }
        i = i + 1;
    }
    None
}

/// The first node whose kind is in `kinds` after the first `after` token in the
/// content of `node`.
pub fn node_after_token(tree: &SyntaxTree, node: &Node, kinds: SyntaxSet, after: Token) -> (r:
    Option<NodeID>)
    requires
        node_in(tree, *node),
        tree.token_list().wf(),
    ensures
        r == first_node_of(tree, after_token(tree, content_of(tree, *node), after), kinds),
{
    let content = tree.content_of(node);
    let n = content.len();
    assert(content@.subrange(0, n as int) =~= content@);
    let mut i: usize = 0;
    while i < n
        invariant
            node_in(tree, *node),
            tree.token_list().wf(),
            content@ == content_of(tree, *node),
            n == content@.len(),
            0 <= i <= n,
            after_token(tree, content@, after) == after_token(
                tree,
                content@.subrange(i as int, n as int),
                after,
            ),
        decreases n - i,
    {
        proof {
            lemma_content_step(tree, *node, i as int);
            assert(entry_valid(tree, content@[i as int]));
        }
        match content[i] {
            NodeOrToken::Token(id) => {
                if tree.tokens().token(id) == after {
                    i = i + 1;
                    let mut j = i;
                    while j < n
                        invariant
                            node_in(tree, *node),
                            content@ == content_of(tree, *node),
                            n == content@.len(),
                            i <= j <= n,
                            first_node_of(tree, after_token(tree, content@, after), kinds)
                                == first_node_of(tree, content@.subrange(j as int, n as int), kinds),
                        decreases n - j,
                    {
                        proof {
                            lemma_content_step(tree, *node, j as int);
                            assert(entry_valid(tree, content@[j as int]));
                        }
                        match content[j] {
                            NodeOrToken::Node(id) => {
                                if kinds.contains(tree.node(id).kind) {
                                    return Some(id);
                                }
                            },
                            _ => {},
                        }
                        j = j + 1;
                    }
                    return None;
                }
            },
            _ => {},
        }
        i = i + 1;
    }
    None
}

/// The first node whose kind is in `kinds` in the content of `node`, unless a `before`
/// token comes first.
pub fn node_before_token(tree: &SyntaxTree, node: &Node, kinds: SyntaxSet, before: Token) -> (r:
    Option<NodeID>)
    requires
        node_in(tree, *node),
        tree.token_list().wf(),
    ensures
        r == first_node_before(tree, content_of(tree, *node), kinds, before),
{
    let content = tree.content_of(node);
    let n = content.len();
    assert(content@.subrange(0, n as int) =~= content@);
    let mut i: usize = 0;
    while i < n
        invariant
            node_in(tree, *node),
            tree.token_list().wf(),
            content@ == content_of(tree, *node),
            n == content@.len(),
            0 <= i <= n,
            first_node_before(tree, content@, kinds, before) == first_node_before(
                tree,
                content@.subrange(i as int, n as int),
                kinds,
                before,
            ),
        decreases n - i,
    {
        proof {
            lemma_content_step(tree, *node, i as int);
            assert(entry_valid(tree, content@[i as int]));
        }
        match content[i] {
            NodeOrToken::Node(id) => {
                if kinds.contains(tree.node(id).kind) {
                    return Some(id);
                }
            },
            NodeOrToken::Token(id) => {
                if tree.tokens().token(id) == before {
                    return None;
                }
            },
            NodeOrToken::Trivia(_) => {},
        }
        i = i + 1;
    }
    None
}

/// The first `find` token in the content of `node`.
pub fn token_find_id(tree: &SyntaxTree, node: &Node, find: Token) -> (r: Option<TokenID>)
    requires
        node_in(tree, *node),
        tree.token_list().wf(),
    ensures
        r == first_token_of(tree, content_of(tree, *node), find),
        r matches Some(id) ==> id.0 < tree.token_list().token_len(),
{
    let content = tree.content_of(node);
    let n = content.len();
    assert(content@.subrange(0, n as int) =~= content@);
    let mut i: usize = 0;
    while i < n
        invariant
            node_in(tree, *node),
            tree.token_list().wf(),
            content@ == content_of(tree, *node),
            n == content@.len(),
            0 <= i <= n,
            first_token_of(tree, content@, find) == first_token_of(
                tree,
                content@.subrange(i as int, n as int),
                find,
            ),
        decreases n - i,
    {
        proof {
            lemma_content_step(tree, *node, i as int);
            assert(entry_valid(tree, content@[i as int]));
        }
        match content[i] {
            NodeOrToken::Token(id) => {
                if tree.tokens().token(id) == find {
                    return Some(id);
                }
            },
            _ => {},
        }
        i = i + 1;
    }
    None
}

/// Source range of the first `find` token in the content of `node`.
pub fn token_find(tree: &SyntaxTree, node: &Node, find: Token) -> (r: Option<TextRange>)
    requires
        node_in(tree, *node),
        tree.token_list().wf(),
    ensures
        r == (match first_token_of(tree, content_of(tree, *node), find) {
            Some(id) => Some(tree.token_list().range_at(id.0 as int)),
            None => None::<TextRange>,
        }),
{
    match token_find_id(tree, node, find) {
        Some(id) => Some(tree.tokens().token_range(id)),
        None => None,
    }
}

/// Source range of the last `find` token in the content of `node`.
pub fn token_find_rev(tree: &SyntaxTree, node: &Node, find: Token) -> (r: Option<TextRange>)
    requires
        node_in(tree, *node),
        tree.token_list().wf(),
    ensures
        r == (match last_token_of(tree, content_of(tree, *node), find) {
            Some(id) => Some(tree.token_list().range_at(id.0 as int)),
            None => None::<TextRange>,
        }),
{
    let content = tree.content_of(node);
    let n = content.len();
    assert(content@.subrange(0, n as int) =~= content@);
    let mut i: usize = n;
    while i > 0
        invariant
            node_in(tree, *node),
            tree.token_list().wf(),
            content@ == content_of(tree, *node),
            n == content@.len(),
            0 <= i <= n,
            last_token_of(tree, content@, find) == last_token_of(
                tree,
                content@.subrange(0, i as int),
                find,
            ),
        decreases i,
    {
        proof {
            assert(content@.subrange(0, i as int).drop_last() =~= content@.subrange(0, i - 1));
            assert(entry_valid(tree, content@[i - 1]));
        }
        match content[i - 1] {
            NodeOrToken::Token(id) => {
                if tree.tokens().token(id) == find {
                    return Some(tree.tokens().token_range(id));
                }
            },
            _ => {},
        }
        i = i - 1;
    }
    proof {
        assert(content@.subrange(0, 0) =~= Seq::<NodeOrToken>::empty());
    }
    None
}

/// First entry of `c` that is a node or a token.
pub open spec fn leading_entry(c: Seq<NodeOrToken>) -> Option<NodeOrToken>
    decreases c.len(),
{
    if c.len() == 0 {
        None
    } else if c[0] is Trivia {
        leading_entry(c.subrange(1, c.len() as int))
    } else {
        Some(c[0])
    }
}

/// Last entry of `c` that is a node or a token.
pub open spec fn trailing_entry(c: Seq<NodeOrToken>) -> Option<NodeOrToken>
    decreases c.len(),
{
    if c.len() == 0 {
        None
    } else if c.last() is Trivia {
        trailing_entry(c.drop_last())
    } else {
        Some(c.last())
    }
}

/// The token where node `i` starts: down the first node or token of each content.
pub open spec fn first_token(tree: &SyntaxTree, i: int) -> Option<TokenID>
    decreases tree.nodes_view().len() - i,
{
    if i < 0 || i >= tree.nodes_view().len() {
        None
    } else {
        match leading_entry(tree.node_content(i)) {
            Some(NodeOrToken::Node(c)) => if i < c.0 < tree.nodes_view().len() {
                first_token(tree, c.0 as int)
            } else {
                None
            },
            Some(NodeOrToken::Token(t)) => Some(t),
            _ => None,
        }
    }
}

/// The token where node `i` ends: down the last node or token of each content.
pub open spec fn last_token(tree: &SyntaxTree, i: int) -> Option<TokenID>
    decreases tree.nodes_view().len() - i,
{
    if i < 0 || i >= tree.nodes_view().len() {
        None
    } else {
        match trailing_entry(tree.node_content(i)) {
            Some(NodeOrToken::Node(c)) => if i < c.0 < tree.nodes_view().len() {
                last_token(tree, c.0 as int)
            } else {
                None
            },
            Some(NodeOrToken::Token(t)) => Some(t),
            _ => None,
        }
    }
}

/// The first node or token in the content of node `id`.
fn leading(tree: &SyntaxTree, id: NodeID) -> (r: Option<NodeOrToken>)
    requires
        tree.wf(),
        id.0 < tree.nodes_view().len(),
    ensures
        r == leading_entry(tree.node_content(id.0 as int)),
        r matches Some(x) ==> tree.entry_ok(id.0 as int, x),
{
    let node = tree.node(id);
    proof {
        assert(tree.node_ok(id.0 as int));
    }
    let content = tree.content_of(node);
    let n = content.len();
    assert(content@.subrange(0, n as int) =~= content@);
    let mut i: usize = 0;
    while i < n
        invariant
            tree.wf(),
            id.0 < tree.nodes_view().len(),
            content@ == tree.node_content(id.0 as int),
            *node == tree.nodes_view()[id.0 as int],
            n == content@.len(),
            0 <= i <= n,
            leading_entry(content@) == leading_entry(content@.subrange(i as int, n as int)),
        decreases n - i,
    {
        proof {
            let t = content@.subrange(i as int, n as int);
            assert(t.subrange(1, t.len() as int) =~= content@.subrange(i + 1, n as int));
            assert(tree.node_ok(id.0 as int));
            let j = node.content_idx as int + i;
            assert(content@[i as int] == tree.content_view()[j]);
            assert(tree.entry_ok(id.0 as int, tree.content_view()[j]));
        }
        match content[i] {
            NodeOrToken::Trivia(_) => {},
            x => {
                return Some(x);
            },
        }
        i = i + 1;
    }
    None
}

/// The last node or token in the content of node `id`.
fn trailing(tree: &SyntaxTree, id: NodeID) -> (r: Option<NodeOrToken>)
    requires
        tree.wf(),
        id.0 < tree.nodes_view().len(),
    ensures
        r == trailing_entry(tree.node_content(id.0 as int)),
        r matches Some(x) ==> tree.entry_ok(id.0 as int, x),
{
    let node = tree.node(id);
    proof {
        assert(tree.node_ok(id.0 as int));
    }
    let content = tree.content_of(node);
    let n = content.len();
    assert(content@.subrange(0, n as int) =~= content@);
    let mut i: usize = n;
    while i > 0
        invariant
            tree.wf(),
            id.0 < tree.nodes_view().len(),
            content@ == tree.node_content(id.0 as int),
            *node == tree.nodes_view()[id.0 as int],
            n == content@.len(),
            0 <= i <= n,
            trailing_entry(content@) == trailing_entry(content@.subrange(0, i as int)),
        decreases i,
    {
        proof {
            assert(content@.subrange(0, i as int).drop_last() =~= content@.subrange(0, i - 1));
            assert(tree.node_ok(id.0 as int));
            let j = node.content_idx as int + i - 1;
            assert(content@[i - 1] == tree.content_view()[j]);
            assert(tree.entry_ok(id.0 as int, tree.content_view()[j]));
        }
        match content[i - 1] {
            NodeOrToken::Trivia(_) => {},
            x => {
                return Some(x);
            },
        }
        i = i - 1;
    }
    None
}

proof fn lemma_leading_in(c: Seq<NodeOrToken>)
    ensures
        leading_entry(c) matches Some(x) ==> c.contains(x),
        trailing_entry(c) matches Some(x) ==> c.contains(x),
    decreases c.len(),
{
    if c.len() > 0 {
        lemma_leading_in(c.subrange(1, c.len() as int));
        lemma_leading_in(c.drop_last());
        if leading_entry(c) is Some && c[0] is Trivia {
            let x = leading_entry(c)->Some_0;
            let k = choose|k: int| 0 <= k < c.len() - 1 && c.subrange(1, c.len() as int)[k] == x;
            assert(c[k + 1] == x);
        }
        if trailing_entry(c) is Some && c.last() is Trivia {
            let x = trailing_entry(c)->Some_0;
            let k = choose|k: int| 0 <= k < c.len() - 1 && c.drop_last()[k] == x;
            assert(c[k] == x);
        }
        if leading_entry(c) is Some && !(c[0] is Trivia) {
            assert(c[0] == leading_entry(c)->Some_0);
        }
        if trailing_entry(c) is Some && !(c.last() is Trivia) {
            assert(c[c.len() - 1] == trailing_entry(c)->Some_0);
        }
    }
}

/// The tokens where a node starts and ends are tokens of the list.
pub proof fn lemma_first_last_token_valid(tree: &SyntaxTree, i: int)
    requires
        tree.wf(),
        0 <= i < tree.nodes_view().len(),
    ensures
        first_token(tree, i) matches Some(t) ==> t.0 < tree.token_list().token_len(),
        last_token(tree, i) matches Some(t) ==> t.0 < tree.token_list().token_len(),
    decreases tree.nodes_view().len() - i,
{
    let c = tree.node_content(i);
    assert(tree.node_ok(i));
    lemma_leading_in(c);
    let n = tree.nodes_view()[i];
    if let Some(x) = leading_entry(c) {
        let k = choose|k: int| 0 <= k < c.len() && c[k] == x;
        assert(c[k] == tree.content_view()[n.content_idx + k]);
        assert(tree.entry_ok(i, tree.content_view()[n.content_idx + k]));
        if let NodeOrToken::Node(ch) = x {
            lemma_first_last_token_valid(tree, ch.0 as int);
        }
    }
    if let Some(x) = trailing_entry(c) {
        let k = choose|k: int| 0 <= k < c.len() && c[k] == x;
        assert(c[k] == tree.content_view()[n.content_idx + k]);
        assert(tree.entry_ok(i, tree.content_view()[n.content_idx + k]));
        if let NodeOrToken::Node(ch) = x {
            lemma_first_last_token_valid(tree, ch.0 as int);
        }
    }
}

/// The token where node `id` starts.
fn find_first_token(tree: &SyntaxTree, id: NodeID) -> (r: Option<TokenID>)
    requires
        tree.wf(),
        id.0 < tree.nodes_view().len(),
    ensures
        r == first_token(tree, id.0 as int),
        r matches Some(t) ==> t.0 < tree.token_list().token_len(),
{
    let mut cur = id;
    loop
        invariant
            tree.wf(),
            id.0 <= cur.0 < tree.nodes_view().len(),
            first_token(tree, id.0 as int) == first_token(tree, cur.0 as int),
        decreases tree.nodes_view().len() - cur.0,
    {
        match leading(tree, cur) {
            Some(NodeOrToken::Node(c)) => {
                cur = c;
            },
            Some(NodeOrToken::Token(t)) => {
                return Some(t);
            },
            _ => {
                return None;
            },
        }
    }
}

/// The token where node `id` ends.
fn find_last_token(tree: &SyntaxTree, id: NodeID) -> (r: Option<TokenID>)
    requires
        tree.wf(),
        id.0 < tree.nodes_view().len(),
    ensures
        r == last_token(tree, id.0 as int),
        r matches Some(t) ==> t.0 < tree.token_list().token_len(),
{
    let mut cur = id;
    loop
        invariant
            tree.wf(),
            id.0 <= cur.0 < tree.nodes_view().len(),
            last_token(tree, id.0 as int) == last_token(tree, cur.0 as int),
        decreases tree.nodes_view().len() - cur.0,
    {
        match trailing(tree, cur) {
            Some(NodeOrToken::Node(c)) => {
                cur = c;
            },
            Some(NodeOrToken::Token(t)) => {
                return Some(t);
            },
            _ => {
                return None;
            },
        }
    }
}

/// Source range of node `id`: from the start of its first token to the end of its last,
/// each found down the first (last) node or token of each content; none where such a
/// content holds neither.
pub fn find_range(tree: &SyntaxTree, id: NodeID) -> (r: Option<TextRange>)
    requires
        tree.wf(),
        id.0 < tree.nodes_view().len(),
    ensures
        r is Some <==> first_token(tree, id.0 as int) is Some && last_token(tree, id.0 as int) is Some,
        r matches Some(range) ==> range.start == tree.token_list().range_at(
            first_token(tree, id.0 as int)->Some_0.0 as int,
        ).start && range.end == tree.token_list().range_at(
            last_token(tree, id.0 as int)->Some_0.0 as int,
        ).end,
{
    let first = match find_first_token(tree, id) {
        Some(t) => t,
        None => {
            return None;
        },
    };
    let last = match find_last_token(tree, id) {
        Some(t) => t,
        None => {
            return None;
        },
    };
    let start = tree.tokens().token_range(first).start;
    let end = tree.tokens().token_range(last).end;
    Some(TextRange { start, end })
}

/// A top-level item. The node that it is.
#[derive(Copy, Clone, PartialEq, Eq, Debug, Structural)]
pub enum Item {
    Proc(NodeID),
    Enum(NodeID),
    Struct(NodeID),
    Const(NodeID),
    Global(NodeID),
    Import(NodeID),
    Directive(NodeID),
}

/// The item that a node of kind `kind` with id `id` is, if any.
pub open spec fn item_of(kind: SyntaxKind, id: NodeID) -> Option<Item> {
    match kind {
        SyntaxKind::PROC_ITEM => Some(Item::Proc(id)),
        SyntaxKind::ENUM_ITEM => Some(Item::Enum(id)),
        SyntaxKind::STRUCT_ITEM => Some(Item::Struct(id)),
        SyntaxKind::CONST_ITEM => Some(Item::Const(id)),
        SyntaxKind::GLOBAL_ITEM => Some(Item::Global(id)),
        SyntaxKind::IMPORT_ITEM => Some(Item::Import(id)),
        SyntaxKind::DIRECTIVE_LIST => Some(Item::Directive(id)),
        _ => None,
    }
}

/// The syntax kind of the node that the item `x` is, variant by variant.
pub open spec fn item_kind(x: Item) -> SyntaxKind {
    match x {
        Item::Proc(_) => SyntaxKind::PROC_ITEM,
        Item::Enum(_) => SyntaxKind::ENUM_ITEM,
        Item::Struct(_) => SyntaxKind::STRUCT_ITEM,
        Item::Const(_) => SyntaxKind::CONST_ITEM,
        Item::Global(_) => SyntaxKind::GLOBAL_ITEM,
        Item::Import(_) => SyntaxKind::IMPORT_ITEM,
        Item::Directive(_) => SyntaxKind::DIRECTIVE_LIST,
    }
}

/// The node that the item `x` is.
pub open spec fn item_node(x: Item) -> NodeID {
    match x {
        Item::Proc(id) => id,
        Item::Enum(id) => id,
        Item::Struct(id) => id,
        Item::Const(id) => id,
        Item::Global(id) => id,
        Item::Import(id) => id,
        Item::Directive(id) => id,
    }
}

/// A node casts to the item of its own kind and id, and to nothing when no item has
/// that kind.
pub proof fn law_item_cast_follows_kind(kind: SyntaxKind, id: NodeID, x: Item)
    ensures
        item_of(kind, id) == Some(x) <==> (item_kind(x) == kind && item_node(x) == id),
{
}

impl Item {
    /// The item that node `id` is, if any.
    pub fn cast(tree: &SyntaxTree, id: NodeID) -> (r: Option<Item>)
        requires
            id.0 < tree.nodes_view().len(),
        ensures
            r == item_of(tree.nodes_view()[id.0 as int].kind, id),
            r matches Some(x) ==> item_kind(x) == tree.nodes_view()[id.0 as int].kind && item_node(x) == id,
            r is None ==> forall|x: Item| #[trigger] item_kind(x) != tree.nodes_view()[id.0 as int].kind,
    {
        match tree.node(id).kind {
            SyntaxKind::PROC_ITEM => Some(Item::Proc(id)),
            SyntaxKind::ENUM_ITEM => Some(Item::Enum(id)),
            SyntaxKind::STRUCT_ITEM => Some(Item::Struct(id)),
            SyntaxKind::CONST_ITEM => Some(Item::Const(id)),
            SyntaxKind::GLOBAL_ITEM => Some(Item::Global(id)),
            SyntaxKind::IMPORT_ITEM => Some(Item::Import(id)),
            SyntaxKind::DIRECTIVE_LIST => Some(Item::Directive(id)),
            _ => None,
        }
    }
}

/// A type. The node that it is.
#[derive(Copy, Clone, PartialEq, Eq, Debug, Structural)]
pub enum Type {
    Basic(NodeID),
    Custom(NodeID),
    Reference(NodeID),
    MultiReference(NodeID),
    Procedure(NodeID),
    ArraySlice(NodeID),
    ArrayStatic(NodeID),
}

/// The type that a node of kind `kind` with id `id` is, if any.
pub open spec fn type_of(kind: SyntaxKind, id: NodeID) -> Option<Type> {
    match kind {
        SyntaxKind::TYPE_BASIC => Some(Type::Basic(id)),
        SyntaxKind::TYPE_CUSTOM => Some(Type::Custom(id)),
        SyntaxKind::TYPE_REFERENCE => Some(Type::Reference(id)),
        SyntaxKind::TYPE_MULTI_REFERENCE => Some(Type::MultiReference(id)),
        SyntaxKind::TYPE_PROCEDURE => Some(Type::Procedure(id)),
        SyntaxKind::TYPE_ARRAY_SLICE => Some(Type::ArraySlice(id)),
        SyntaxKind::TYPE_ARRAY_STATIC => Some(Type::ArrayStatic(id)),
        _ => None,
    }
}

/// The syntax kind of the node that the type `x` is, variant by variant.
pub open spec fn type_kind(x: Type) -> SyntaxKind {
    match x {
        Type::Basic(_) => SyntaxKind::TYPE_BASIC,
        Type::Custom(_) => SyntaxKind::TYPE_CUSTOM,
        Type::Reference(_) => SyntaxKind::TYPE_REFERENCE,
        Type::MultiReference(_) => SyntaxKind::TYPE_MULTI_REFERENCE,
        Type::Procedure(_) => SyntaxKind::TYPE_PROCEDURE,
        Type::ArraySlice(_) => SyntaxKind::TYPE_ARRAY_SLICE,
        Type::ArrayStatic(_) => SyntaxKind::TYPE_ARRAY_STATIC,
    }
}

/// The node that the type `x` is.
pub open spec fn type_node(x: Type) -> NodeID {
    match x {
        Type::Basic(id) => id,
        Type::Custom(id) => id,
        Type::Reference(id) => id,
        Type::MultiReference(id) => id,
        Type::Procedure(id) => id,
        Type::ArraySlice(id) => id,
        Type::ArrayStatic(id) => id,
    }
}

/// A node casts to the type of its own kind and id, and to nothing when no type has
/// that kind.
pub proof fn law_type_cast_follows_kind(kind: SyntaxKind, id: NodeID, x: Type)
    ensures
        type_of(kind, id) == Some(x) <==> (type_kind(x) == kind && type_node(x) == id),
{
}

impl Type {
    /// The type that node `id` is, if any.
    pub fn cast(tree: &SyntaxTree, id: NodeID) -> (r: Option<Type>)
        requires
            id.0 < tree.nodes_view().len(),
        ensures
            r == type_of(tree.nodes_view()[id.0 as int].kind, id),
            r matches Some(x) ==> type_kind(x) == tree.nodes_view()[id.0 as int].kind && type_node(x) == id,
            r is None ==> forall|x: Type| #[trigger] type_kind(x) != tree.nodes_view()[id.0 as int].kind,
    {
        match tree.node(id).kind {
            SyntaxKind::TYPE_BASIC => Some(Type::Basic(id)),
            SyntaxKind::TYPE_CUSTOM => Some(Type::Custom(id)),
            SyntaxKind::TYPE_REFERENCE => Some(Type::Reference(id)),
            SyntaxKind::TYPE_MULTI_REFERENCE => Some(Type::MultiReference(id)),
            SyntaxKind::TYPE_PROCEDURE => Some(Type::Procedure(id)),
            SyntaxKind::TYPE_ARRAY_SLICE => Some(Type::ArraySlice(id)),
            SyntaxKind::TYPE_ARRAY_STATIC => Some(Type::ArrayStatic(id)),
            _ => None,
        }
    }
}

/// A statement. The node that it is.
#[derive(Copy, Clone, PartialEq, Eq, Debug, Structural)]
pub enum Stmt {
    Break(NodeID),
    Continue(NodeID),
    Return(NodeID),
    Defer(NodeID),
    For(NodeID),
    Local(NodeID),
    Assign(NodeID),
    ExprSemi(NodeID),
    ExprTail(NodeID),
    WithDirective(NodeID),
}

/// The stmt that a node of kind `kind` with id `id` is, if any.
pub open spec fn stmt_of(kind: SyntaxKind, id: NodeID) -> Option<Stmt> {
    match kind {
        SyntaxKind::STMT_BREAK => Some(Stmt::Break(id)),
        SyntaxKind::STMT_CONTINUE => Some(Stmt::Continue(id)),
        SyntaxKind::STMT_RETURN => Some(Stmt::Return(id)),
        SyntaxKind::STMT_DEFER => Some(Stmt::Defer(id)),
        SyntaxKind::STMT_FOR => Some(Stmt::For(id)),
        SyntaxKind::STMT_LOCAL => Some(Stmt::Local(id)),
        SyntaxKind::STMT_ASSIGN => Some(Stmt::Assign(id)),
        SyntaxKind::STMT_EXPR_SEMI => Some(Stmt::ExprSemi(id)),
        SyntaxKind::STMT_EXPR_TAIL => Some(Stmt::ExprTail(id)),
        SyntaxKind::STMT_WITH_DIRECTIVE => Some(Stmt::WithDirective(id)),
        _ => None,
    }
}

/// The syntax kind of the node that the stmt `x` is, variant by variant.
pub open spec fn stmt_kind(x: Stmt) -> SyntaxKind {
    match x {
        Stmt::Break(_) => SyntaxKind::STMT_BREAK,
        Stmt::Continue(_) => SyntaxKind::STMT_CONTINUE,
        Stmt::Return(_) => SyntaxKind::STMT_RETURN,
        Stmt::Defer(_) => SyntaxKind::STMT_DEFER,
        Stmt::For(_) => SyntaxKind::STMT_FOR,
        Stmt::Local(_) => SyntaxKind::STMT_LOCAL,
        Stmt::Assign(_) => SyntaxKind::STMT_ASSIGN,
        Stmt::ExprSemi(_) => SyntaxKind::STMT_EXPR_SEMI,
        Stmt::ExprTail(_) => SyntaxKind::STMT_EXPR_TAIL,
        Stmt::WithDirective(_) => SyntaxKind::STMT_WITH_DIRECTIVE,
    }
}

/// The node that the stmt `x` is.
pub open spec fn stmt_node(x: Stmt) -> NodeID {
    match x {
        Stmt::Break(id) => id,
        Stmt::Continue(id) => id,
        Stmt::Return(id) => id,
        Stmt::Defer(id) => id,
        Stmt::For(id) => id,
        Stmt::Local(id) => id,
        Stmt::Assign(id) => id,
        Stmt::ExprSemi(id) => id,
        Stmt::ExprTail(id) => id,
        Stmt::WithDirective(id) => id,
    }
}

/// A node casts to the stmt of its own kind and id, and to nothing when no stmt has
/// that kind.
pub proof fn law_stmt_cast_follows_kind(kind: SyntaxKind, id: NodeID, x: Stmt)
    ensures
        stmt_of(kind, id) == Some(x) <==> (stmt_kind(x) == kind && stmt_node(x) == id),
{
}

impl Stmt {
    /// The stmt that node `id` is, if any.
    pub fn cast(tree: &SyntaxTree, id: NodeID) -> (r: Option<Stmt>)
        requires
            id.0 < tree.nodes_view().len(),
        ensures
            r == stmt_of(tree.nodes_view()[id.0 as int].kind, id),
            r matches Some(x) ==> stmt_kind(x) == tree.nodes_view()[id.0 as int].kind && stmt_node(x) == id,
            r is None ==> forall|x: Stmt| #[trigger] stmt_kind(x) != tree.nodes_view()[id.0 as int].kind,
    {
        match tree.node(id).kind {
            SyntaxKind::STMT_BREAK => Some(Stmt::Break(id)),
            SyntaxKind::STMT_CONTINUE => Some(Stmt::Continue(id)),
            SyntaxKind::STMT_RETURN => Some(Stmt::Return(id)),
            SyntaxKind::STMT_DEFER => Some(Stmt::Defer(id)),
            SyntaxKind::STMT_FOR => Some(Stmt::For(id)),
            SyntaxKind::STMT_LOCAL => Some(Stmt::Local(id)),
            SyntaxKind::STMT_ASSIGN => Some(Stmt::Assign(id)),
            SyntaxKind::STMT_EXPR_SEMI => Some(Stmt::ExprSemi(id)),
            SyntaxKind::STMT_EXPR_TAIL => Some(Stmt::ExprTail(id)),
            SyntaxKind::STMT_WITH_DIRECTIVE => Some(Stmt::WithDirective(id)),
            _ => None,
        }
    }
}

/// A pattern. The node that it is.
#[derive(Copy, Clone, PartialEq, Eq, Debug, Structural)]
pub enum Pat {
    Wild(NodeID),
    Lit(NodeID),
    Item(NodeID),
    Variant(NodeID),
    Or(NodeID),
}

/// The pat that a node of kind `kind` with id `id` is, if any.
pub open spec fn pat_of(kind: SyntaxKind, id: NodeID) -> Option<Pat> {
    match kind {
        SyntaxKind::PAT_WILD => Some(Pat::Wild(id)),
        SyntaxKind::PAT_LIT => Some(Pat::Lit(id)),
        SyntaxKind::PAT_ITEM => Some(Pat::Item(id)),
        SyntaxKind::PAT_VARIANT => Some(Pat::Variant(id)),
        SyntaxKind::PAT_OR => Some(Pat::Or(id)),
        _ => None,
    }
}

/// The syntax kind of the node that the pat `x` is, variant by variant.
pub open spec fn pat_kind(x: Pat) -> SyntaxKind {
    match x {
        Pat::Wild(_) => SyntaxKind::PAT_WILD,
        Pat::Lit(_) => SyntaxKind::PAT_LIT,
        Pat::Item(_) => SyntaxKind::PAT_ITEM,
        Pat::Variant(_) => SyntaxKind::PAT_VARIANT,
        Pat::Or(_) => SyntaxKind::PAT_OR,
    }
}

/// The node that the pat `x` is.
pub open spec fn pat_node(x: Pat) -> NodeID {
    match x {
        Pat::Wild(id) => id,
        Pat::Lit(id) => id,
        Pat::Item(id) => id,
        Pat::Variant(id) => id,
        Pat::Or(id) => id,
    }
}

/// A node casts to the pat of its own kind and id, and to nothing when no pat has
/// that kind.
pub proof fn law_pat_cast_follows_kind(kind: SyntaxKind, id: NodeID, x: Pat)
    ensures
        pat_of(kind, id) == Some(x) <==> (pat_kind(x) == kind && pat_node(x) == id),
{
}

impl Pat {
    /// The pat that node `id` is, if any.
    pub fn cast(tree: &SyntaxTree, id: NodeID) -> (r: Option<Pat>)
        requires
            id.0 < tree.nodes_view().len(),
        ensures
            r == pat_of(tree.nodes_view()[id.0 as int].kind, id),
            r matches Some(x) ==> pat_kind(x) == tree.nodes_view()[id.0 as int].kind && pat_node(x) == id,
            r is None ==> forall|x: Pat| #[trigger] pat_kind(x) != tree.nodes_view()[id.0 as int].kind,
    {
        match tree.node(id).kind {
            SyntaxKind::PAT_WILD => Some(Pat::Wild(id)),
            SyntaxKind::PAT_LIT => Some(Pat::Lit(id)),
            SyntaxKind::PAT_ITEM => Some(Pat::Item(id)),
            SyntaxKind::PAT_VARIANT => Some(Pat::Variant(id)),
            SyntaxKind::PAT_OR => Some(Pat::Or(id)),
            _ => None,
        }
    }
}

/// A literal. The node that it is.
#[derive(Copy, Clone, PartialEq, Eq, Debug, Structural)]
pub enum Lit {
    Void(NodeID),
    Null(NodeID),
    Bool(NodeID),
    Int(NodeID),
    Float(NodeID),
    Char(NodeID),
    String(NodeID),
}

/// The lit that a node of kind `kind` with id `id` is, if any.
pub open spec fn lit_of(kind: SyntaxKind, id: NodeID) -> Option<Lit> {
    match kind {
        SyntaxKind::LIT_VOID => Some(Lit::Void(id)),
        SyntaxKind::LIT_NULL => Some(Lit::Null(id)),
        SyntaxKind::LIT_BOOL => Some(Lit::Bool(id)),
        SyntaxKind::LIT_INT => Some(Lit::Int(id)),
        SyntaxKind::LIT_FLOAT => Some(Lit::Float(id)),
        SyntaxKind::LIT_CHAR => Some(Lit::Char(id)),
        SyntaxKind::LIT_STRING => Some(Lit::String(id)),
        _ => None,
    }
}

/// The syntax kind of the node that the lit `x` is, variant by variant.
pub open spec fn lit_kind(x: Lit) -> SyntaxKind {
    match x {
        Lit::Void(_) => SyntaxKind::LIT_VOID,
        Lit::Null(_) => SyntaxKind::LIT_NULL,
        Lit::Bool(_) => SyntaxKind::LIT_BOOL,
        Lit::Int(_) => SyntaxKind::LIT_INT,
        Lit::Float(_) => SyntaxKind::LIT_FLOAT,
        Lit::Char(_) => SyntaxKind::LIT_CHAR,
        Lit::String(_) => SyntaxKind::LIT_STRING,
    }
}

/// The node that the lit `x` is.
pub open spec fn lit_node(x: Lit) -> NodeID {
    match x {
        Lit::Void(id) => id,
        Lit::Null(id) => id,
        Lit::Bool(id) => id,
        Lit::Int(id) => id,
        Lit::Float(id) => id,
        Lit::Char(id) => id,
        Lit::String(id) => id,
    }
}

/// A node casts to the lit of its own kind and id, and to nothing when no lit has
/// that kind.
pub proof fn law_lit_cast_follows_kind(kind: SyntaxKind, id: NodeID, x: Lit)
    ensures
        lit_of(kind, id) == Some(x) <==> (lit_kind(x) == kind && lit_node(x) == id),
{
}

impl Lit {
    /// The lit that node `id` is, if any.
    pub fn cast(tree: &SyntaxTree, id: NodeID) -> (r: Option<Lit>)
        requires
            id.0 < tree.nodes_view().len(),
        ensures
            r == lit_of(tree.nodes_view()[id.0 as int].kind, id),
            r matches Some(x) ==> lit_kind(x) == tree.nodes_view()[id.0 as int].kind && lit_node(x) == id,
            r is None ==> forall|x: Lit| #[trigger] lit_kind(x) != tree.nodes_view()[id.0 as int].kind,
    {
        match tree.node(id).kind {
            SyntaxKind::LIT_VOID => Some(Lit::Void(id)),
            SyntaxKind::LIT_NULL => Some(Lit::Null(id)),
            SyntaxKind::LIT_BOOL => Some(Lit::Bool(id)),
            SyntaxKind::LIT_INT => Some(Lit::Int(id)),
            SyntaxKind::LIT_FLOAT => Some(Lit::Float(id)),
            SyntaxKind::LIT_CHAR => Some(Lit::Char(id)),
            SyntaxKind::LIT_STRING => Some(Lit::String(id)),
            _ => None,
        }
    }
}

/// A directive. The node that it is.
#[derive(Copy, Clone, PartialEq, Eq, Debug, Structural)]
pub enum Directive {
    Simple(NodeID),
    WithParams(NodeID),
}

/// The directive that a node of kind `kind` with id `id` is, if any.
pub open spec fn directive_of(kind: SyntaxKind, id: NodeID) -> Option<Directive> {
    match kind {
        SyntaxKind::DIRECTIVE_SIMPLE => Some(Directive::Simple(id)),
        SyntaxKind::DIRECTIVE_WITH_PARAMS => Some(Directive::WithParams(id)),
        _ => None,
    }
}

/// The syntax kind of the node that the directive `x` is, variant by variant.
pub open spec fn directive_kind(x: Directive) -> SyntaxKind {
    match x {
        Directive::Simple(_) => SyntaxKind::DIRECTIVE_SIMPLE,
        Directive::WithParams(_) => SyntaxKind::DIRECTIVE_WITH_PARAMS,
    }
}

/// The node that the directive `x` is.
pub open spec fn directive_node(x: Directive) -> NodeID {
    match x {
        Directive::Simple(id) => id,
        Directive::WithParams(id) => id,
    }
}

/// A node casts to the directive of its own kind and id, and to nothing when no directive has
/// that kind.
pub proof fn law_directive_cast_follows_kind(kind: SyntaxKind, id: NodeID, x: Directive)
    ensures
        directive_of(kind, id) == Some(x) <==> (directive_kind(x) == kind && directive_node(x) == id),
{
}

impl Directive {
    /// The directive that node `id` is, if any.
    pub fn cast(tree: &SyntaxTree, id: NodeID) -> (r: Option<Directive>)
        requires
            id.0 < tree.nodes_view().len(),
        ensures
            r == directive_of(tree.nodes_view()[id.0 as int].kind, id),
            r matches Some(x) ==> directive_kind(x) == tree.nodes_view()[id.0 as int].kind && directive_node(x) == id,
            r is None ==> forall|x: Directive| #[trigger] directive_kind(x) != tree.nodes_view()[id.0 as int].kind,
    {
        match tree.node(id).kind {
            SyntaxKind::DIRECTIVE_SIMPLE => Some(Directive::Simple(id)),
            SyntaxKind::DIRECTIVE_WITH_PARAMS => Some(Directive::WithParams(id)),
            _ => None,
        }
    }
}

/// An expression. The node that it is.
#[derive(Copy, Clone, PartialEq, Eq, Debug, Structural)]
pub enum Expr {
    Paren(NodeID),
    If(NodeID),
    Block(NodeID),
    Match(NodeID),
    Field(NodeID),
    Index(NodeID),
    Slice(NodeID),
    Call(NodeID),
    Cast(NodeID),
    Item(NodeID),
    Variant(NodeID),
    StructInit(NodeID),
    ArrayInit(NodeID),
    ArrayRepeat(NodeID),
    Deref(NodeID),
    Address(NodeID),
    Unary(NodeID),
    Binary(NodeID),
    Lit(Lit),
    Directive(Directive),
}

/// The expr that a node of kind `kind` with id `id` is, if any.
pub open spec fn expr_of(kind: SyntaxKind, id: NodeID) -> Option<Expr> {
    match kind {
        SyntaxKind::EXPR_PAREN => Some(Expr::Paren(id)),
        SyntaxKind::EXPR_IF => Some(Expr::If(id)),
        SyntaxKind::BLOCK => Some(Expr::Block(id)),
        SyntaxKind::EXPR_MATCH => Some(Expr::Match(id)),
        SyntaxKind::EXPR_FIELD => Some(Expr::Field(id)),
        SyntaxKind::EXPR_INDEX => Some(Expr::Index(id)),
        SyntaxKind::EXPR_SLICE => Some(Expr::Slice(id)),
        SyntaxKind::EXPR_CALL => Some(Expr::Call(id)),
        SyntaxKind::EXPR_CAST => Some(Expr::Cast(id)),
        SyntaxKind::EXPR_ITEM => Some(Expr::Item(id)),
        SyntaxKind::EXPR_VARIANT => Some(Expr::Variant(id)),
        SyntaxKind::EXPR_STRUCT_INIT => Some(Expr::StructInit(id)),
        SyntaxKind::EXPR_ARRAY_INIT => Some(Expr::ArrayInit(id)),
        SyntaxKind::EXPR_ARRAY_REPEAT => Some(Expr::ArrayRepeat(id)),
        SyntaxKind::EXPR_DEREF => Some(Expr::Deref(id)),
        SyntaxKind::EXPR_ADDRESS => Some(Expr::Address(id)),
        SyntaxKind::EXPR_UNARY => Some(Expr::Unary(id)),
        SyntaxKind::EXPR_BINARY => Some(Expr::Binary(id)),
        _ => match lit_of(kind, id) { Some(l) => Some(Expr::Lit(l)), None => match directive_of(kind, id) { Some(d) => Some(Expr::Directive(d)), None => None } },
    }
}

/// The syntax kind of the node that the expr `x` is, variant by variant.
pub open spec fn expr_kind(x: Expr) -> SyntaxKind {
    match x {
        Expr::Paren(_) => SyntaxKind::EXPR_PAREN,
        Expr::If(_) => SyntaxKind::EXPR_IF,
        Expr::Block(_) => SyntaxKind::BLOCK,
        Expr::Match(_) => SyntaxKind::EXPR_MATCH,
        Expr::Field(_) => SyntaxKind::EXPR_FIELD,
        Expr::Index(_) => SyntaxKind::EXPR_INDEX,
        Expr::Slice(_) => SyntaxKind::EXPR_SLICE,
        Expr::Call(_) => SyntaxKind::EXPR_CALL,
        Expr::Cast(_) => SyntaxKind::EXPR_CAST,
        Expr::Item(_) => SyntaxKind::EXPR_ITEM,
        Expr::Variant(_) => SyntaxKind::EXPR_VARIANT,
        Expr::StructInit(_) => SyntaxKind::EXPR_STRUCT_INIT,
        Expr::ArrayInit(_) => SyntaxKind::EXPR_ARRAY_INIT,
        Expr::ArrayRepeat(_) => SyntaxKind::EXPR_ARRAY_REPEAT,
        Expr::Deref(_) => SyntaxKind::EXPR_DEREF,
        Expr::Address(_) => SyntaxKind::EXPR_ADDRESS,
        Expr::Unary(_) => SyntaxKind::EXPR_UNARY,
        Expr::Binary(_) => SyntaxKind::EXPR_BINARY,
        Expr::Lit(l) => lit_kind(l),
        Expr::Directive(d) => directive_kind(d),
    }
}

/// The node that the expr `x` is.
pub open spec fn expr_node(x: Expr) -> NodeID {
    match x {
        Expr::Paren(id) => id,
        Expr::If(id) => id,
        Expr::Block(id) => id,
        Expr::Match(id) => id,
        Expr::Field(id) => id,
        Expr::Index(id) => id,
        Expr::Slice(id) => id,
        Expr::Call(id) => id,
        Expr::Cast(id) => id,
        Expr::Item(id) => id,
        Expr::Variant(id) => id,
        Expr::StructInit(id) => id,
        Expr::ArrayInit(id) => id,
        Expr::ArrayRepeat(id) => id,
        Expr::Deref(id) => id,
        Expr::Address(id) => id,
        Expr::Unary(id) => id,
        Expr::Binary(id) => id,
        Expr::Lit(l) => lit_node(l),
        Expr::Directive(d) => directive_node(d),
    }
}

/// A node casts to the expr of its own kind and id, and to nothing when no expr has
/// that kind.
pub proof fn law_expr_cast_follows_kind(kind: SyntaxKind, id: NodeID, x: Expr)
    ensures
        expr_of(kind, id) == Some(x) <==> (expr_kind(x) == kind && expr_node(x) == id),
{
}

impl Expr {
    /// The expr that node `id` is, if any.
    pub fn cast(tree: &SyntaxTree, id: NodeID) -> (r: Option<Expr>)
        requires
            id.0 < tree.nodes_view().len(),
        ensures
            r == expr_of(tree.nodes_view()[id.0 as int].kind, id),
            r matches Some(x) ==> expr_kind(x) == tree.nodes_view()[id.0 as int].kind && expr_node(x) == id,
            r is None ==> forall|x: Expr| #[trigger] expr_kind(x) != tree.nodes_view()[id.0 as int].kind,
    {
        match tree.node(id).kind {
            SyntaxKind::EXPR_PAREN => Some(Expr::Paren(id)),
            SyntaxKind::EXPR_IF => Some(Expr::If(id)),
            SyntaxKind::BLOCK => Some(Expr::Block(id)),
            SyntaxKind::EXPR_MATCH => Some(Expr::Match(id)),
            SyntaxKind::EXPR_FIELD => Some(Expr::Field(id)),
            SyntaxKind::EXPR_INDEX => Some(Expr::Index(id)),
            SyntaxKind::EXPR_SLICE => Some(Expr::Slice(id)),
            SyntaxKind::EXPR_CALL => Some(Expr::Call(id)),
            SyntaxKind::EXPR_CAST => Some(Expr::Cast(id)),
            SyntaxKind::EXPR_ITEM => Some(Expr::Item(id)),
            SyntaxKind::EXPR_VARIANT => Some(Expr::Variant(id)),
            SyntaxKind::EXPR_STRUCT_INIT => Some(Expr::StructInit(id)),
            SyntaxKind::EXPR_ARRAY_INIT => Some(Expr::ArrayInit(id)),
            SyntaxKind::EXPR_ARRAY_REPEAT => Some(Expr::ArrayRepeat(id)),
            SyntaxKind::EXPR_DEREF => Some(Expr::Deref(id)),
            SyntaxKind::EXPR_ADDRESS => Some(Expr::Address(id)),
            SyntaxKind::EXPR_UNARY => Some(Expr::Unary(id)),
            SyntaxKind::EXPR_BINARY => Some(Expr::Binary(id)),
            _ => match Lit::cast(tree, id) {
                Some(l) => Some(Expr::Lit(l)),
                None => match Directive::cast(tree, id) {
                    Some(d) => Some(Expr::Directive(d)),
                    None => None,
                },
            },
        }
    }
}

/// A walk over the nodes of some kinds in the content of one node.
pub struct AstNodeIterator<'syn> {
    tree: &'syn SyntaxTree,
    content: &'syn [NodeOrToken],
    pos: usize,
    kinds: SyntaxSet,
}

impl<'syn> AstNodeIterator<'syn> {
    pub closed spec fn tree_view(&self) -> SyntaxTree {
        *self.tree
    }

    pub closed spec fn kinds_view(&self) -> SyntaxSet {
        self.kinds
    }

    /// The content entries not walked yet.
    pub closed spec fn remaining(&self) -> Seq<NodeOrToken> {
        self.content@.subrange(self.pos as int, self.content@.len() as int)
    }

    pub closed spec fn wf(&self) -> bool {
        &&& self.pos <= self.content@.len()
        &&& forall|j: int|
            0 <= j < self.content@.len() ==> entry_valid(self.tree, #[trigger] self.content@[j])
    }

    /// Walks the nodes of `kinds` in the content of `node`.
    pub fn new(tree: &'syn SyntaxTree, node: &Node, kinds: SyntaxSet) -> (r: AstNodeIterator<'syn>)
        requires
            node_in(tree, *node),
        ensures
            r.wf(),
            r.tree_view() == *tree,
            r.kinds_view() == kinds,
            r.remaining() == content_of(tree, *node),
    {
        let content = tree.content_of(node);
        let r = AstNodeIterator { tree, content, pos: 0, kinds };
        assert(r.remaining() =~= content_of(tree, *node));
        r
    }

    /// The next node of the kinds, if any.
    pub fn next(&mut self) -> (r: Option<NodeID>)
        requires
            old(self).wf(),
        ensures
            final(self).wf(),
            final(self).tree_view() == old(self).tree_view(),
            final(self).kinds_view() == old(self).kinds_view(),
            r == first_node_of(&old(self).tree_view(), old(self).remaining(), old(self).kinds_view()),
            r is None ==> final(self).remaining().len() == 0,
            r matches Some(id) ==> exists|p: int|
                0 <= p < old(self).remaining().len() && old(self).remaining()[p] == NodeOrToken::Node(id)
                    && final(self).remaining() == old(self).remaining().subrange(
                    p + 1,
                    old(self).remaining().len() as int,
                ),
    {
        let ghost rem0 = self.remaining();
        let ghost t0 = self.tree_view();
        let n = self.content.len();
        while self.pos < n
            invariant
                self.wf(),
                n == self.content@.len(),
                self.tree_view() == t0,
                t0 == old(self).tree_view(),
                rem0 == old(self).remaining(),
                self.kinds_view() == old(self).kinds_view(),
                first_node_of(&t0, rem0, self.kinds) == first_node_of(&t0, self.remaining(), self.kinds),
                old(self).pos <= self.pos,
                self.content == old(self).content,
                rem0 == old(self).content@.subrange(old(self).pos as int, n as int),
            decreases n - self.pos,
        {
            let i = self.pos;
            proof {
                let t = self.remaining();
                assert(t.subrange(1, t.len() as int) =~= self.content@.subrange(i + 1, n as int));
                assert(entry_valid(self.tree, self.content@[i as int]));
            }
            self.pos = i + 1;
            match self.content[i] {
                NodeOrToken::Node(id) => {
                    if self.kinds.contains(self.tree.node(id).kind) {
                        proof {
                            let p = i - old(self).pos;
                            assert(rem0[p] == NodeOrToken::Node(id));
                            assert(self.remaining() =~= rem0.subrange(p + 1, rem0.len() as int));
                        }
                        return Some(id);
                    }
                },
                _ => {},
            }
        }
        None
    }
}

} // verus!
