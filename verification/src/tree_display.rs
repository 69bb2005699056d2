use vstd::prelude::*;
use vstd::string::StrSliceExecFns;
use vstd::string::StringSliceAdditionalSpecFns;
use crate::ids::NodeID;
use crate::strings::{decimal, push_char, push_decimal, push_str};
use crate::syntax_kind::syntax_name;
use crate::text::{char_count, is_char_start, TextRange};
use crate::tree::{NodeOrToken, SyntaxTree};

verus! {

/// std's `Debug` notation of the string `s`: in double quotes, with special characters
/// escaped.
pub uninterp spec fn str_debug(s: Seq<char>) -> Seq<char>;

/// The `Debug` formatting of a `str` by std (`format!("{:?}", s)`), which quotes the text
/// and escapes its special characters; the result depends on `s` alone.
#[verifier::external_body]
fn debug_str(s: &str) -> (r: String)
    ensures
        r@ == str_debug(s@),
{
    format!("{:?}", s)
}

/// Two spaces per level of `depth`.
pub open spec fn indent(depth: nat) -> Seq<char> {
    Seq::new(2 * depth, |i: int| ' ')
}

/// A range written as `start..end`.
pub open spec fn range_text(r: TextRange) -> Seq<char> {
    decimal(r.start.0 as nat) + ".."@ + decimal(r.end.0 as nat)
}

/// The text of the byte range `r` of `source`, in `Debug` notation; where the range does
/// not fall on characters of the source, the `Debug` notation of the empty text, `""`.
pub open spec fn leaf_text(source: Seq<char>, bytes: Seq<u8>, r: TextRange) -> Seq<char> {
    let a = char_count(bytes, 0, r.start.0 as int);
    let b = char_count(bytes, 0, r.end.0 as int);
    if r.start.0 <= bytes.len() && r.end.0 <= bytes.len() && 0 <= a <= b <= source.len() {
        str_debug(source.subrange(a, b))
    } else {
        str_debug(Seq::empty())
    }
}

/// The line for a token or trivia at `r`, at `depth`.
pub open spec fn leaf_line(source: Seq<char>, bytes: Seq<u8>, r: TextRange, depth: nat) -> Seq<char> {
    indent(depth) + range_text(r) + " "@ + leaf_text(source, bytes, r) + "\n"@
}

/// The lines for entries `k..` of the content of node `i`, itself at `depth`.
pub open spec fn display_content(
    tree: &SyntaxTree,
    source: Seq<char>,
    bytes: Seq<u8>,
    i: int,
    k: int,
    depth: nat,
) -> Seq<char>
    decreases tree.nodes_view().len() - i, tree.node_content(i).len() - k,
{
    if i < 0 || i >= tree.nodes_view().len() || k < 0 || k >= tree.node_content(i).len() {
        Seq::empty()
    } else {
        let rest = display_content(tree, source, bytes, i, k + 1, depth);
        match tree.node_content(i)[k] {
            NodeOrToken::Node(c) => (if i < c.0 < tree.nodes_view().len() {
                display_node(tree, source, bytes, c.0 as int, depth + 1)
            } else {
                Seq::empty()
            }) + rest,
            NodeOrToken::Token(t) => leaf_line(
                source,
                bytes,
                tree.token_list().range_at(t.0 as int),
                depth + 1,
            ) + rest,
            NodeOrToken::Trivia(v) => leaf_line(
                source,
                bytes,
                tree.token_list().trivia_ranges_view()[v.0 as int],
                depth + 1,
            ) + rest,
        }
    }
}

/// The lines for node `i` at `depth`: its kind and range, then its content one level
/// deeper.
pub open spec fn display_node(tree: &SyntaxTree, source: Seq<char>, bytes: Seq<u8>, i: int, depth: nat) -> Seq<
    char,
>
    decreases tree.nodes_view().len() - i, tree.node_content(i).len() + 1,
{
    if i < 0 || i >= tree.nodes_view().len() {
        Seq::empty()
    } else {
        let n = tree.nodes_view()[i];
        indent(depth) + syntax_name(n.kind) + " "@ + range_text(n.range) + "\n"@ + display_content(
            tree,
            source,
            bytes,
            i,
            0,
            depth,
        )
    }
}

fn push_indent(buf: &mut String, depth: u32)
    ensures
        final(buf)@ == old(buf)@ + indent(depth as nat),
{
    let mut i: u32 = 0;
    while i < depth
        invariant
            0 <= i <= depth,
            buf@ == old(buf)@ + indent(i as nat),
        decreases depth - i,
    {
        push_char(buf, ' ');
        push_char(buf, ' ');
        proof {
            assert(buf@ =~= old(buf)@ + indent((i + 1) as nat));
        }
        i = i + 1;
    }
}

fn push_range(buf: &mut String, r: TextRange)
    ensures
        final(buf)@ == old(buf)@ + range_text(r),
{
    push_decimal(buf, r.start.0);
    push_str(buf, "..");
    push_decimal(buf, r.end.0);
    proof {
        reveal_strlit("..");
        assert(buf@ =~= old(buf)@ + range_text(r));
    }
}

/// Number of characters that start in `bytes[0..offset]`.
fn char_index(bytes: &[u8], offset: usize) -> (r: usize)
    requires
        offset <= bytes@.len(),
    ensures
        r == char_count(bytes@, 0, offset as int),
{
    let mut count: usize = 0;
    let mut i: usize = 0;
    while i < offset
        invariant
            0 <= i <= offset <= bytes@.len(),
            count == char_count(bytes@, 0, i as int),
            count <= i,
        decreases offset - i,
    {
        if bytes[i] < 128 || bytes[i] >= 192 {
            count = count + 1;
        }
        i = i + 1;
    }
    count
}

proof fn lemma_char_count_nonneg(bytes: Seq<u8>, lo: int, hi: int)
    ensures
        char_count(bytes, lo, hi) >= 0,
    decreases hi - lo,
{
    if hi > lo {
        lemma_char_count_nonneg(bytes, lo, hi - 1);
    }
}

fn push_leaf(buf: &mut String, source: &str, r: TextRange, depth: u32)
    ensures
        final(buf)@ == old(buf)@ + leaf_line(source@, source.spec_bytes(), r, depth as nat),
{
    push_indent(buf, depth);
    push_range(buf, r);
    push_str(buf, " ");
    let bytes = source.as_bytes();
    let text = if (r.end.0 as usize) <= bytes.len() && (r.start.0 as usize) <= bytes.len() {
        let a = char_index(bytes, r.start.0 as usize);
        let b = char_index(bytes, r.end.0 as usize);
        let n = source.unicode_len();
        proof {
            lemma_char_count_nonneg(bytes@, 0, r.start.0 as int);
        }
        if a <= b && b <= n {
            let t = debug_str(source.substring_char(a, b));
            assert(t@ == leaf_text(source@, source.spec_bytes(), r));
            t
        } else {
            debug_str("")
        }
    } else {
        debug_str("")
    };
    proof {
        reveal_strlit("");
        reveal_strlit(" ");
        reveal_strlit("\n");
    }
    push_str(buf, text.as_str());
    push_str(buf, "\n");
    proof {
        assert(""@ =~= Seq::<char>::empty());
        assert(buf@ =~= old(buf)@ + leaf_line(source@, source.spec_bytes(), r, depth as nat));
    }
}

fn display_node_exec(buf: &mut String, tree: &SyntaxTree, source: &str, id: NodeID, depth: u32)
    requires
        tree.wf(),
        id.0 < tree.nodes_view().len(),
        depth <= id.0,
    ensures
        final(buf)@ == old(buf)@ + display_node(
            tree,
            source@,
            source.spec_bytes(),
            id.0 as int,
            depth as nat,
        ),
    decreases tree.nodes_view().len() - id.0, tree.node_content(id.0 as int).len() + 1,
{
    let node = tree.node(id);
    push_indent(buf, depth);
    push_str(buf, node.kind.name());
    push_str(buf, " ");
    push_range(buf, node.range);
    push_str(buf, "\n");
    proof {
        reveal_strlit(" ");
        reveal_strlit("\n");
        assert(tree.node_ok(id.0 as int));
    }
    let ghost head = buf@;
    let content = tree.content_of(node);
    let n = content.len();
    let ghost i = id.0 as int;
    let ghost bytes = source.spec_bytes();
    let ghost mut done: Seq<char> = Seq::empty();
    let mut k: usize = 0;
    while k < n
        invariant
            tree.wf(),
            id.0 < tree.nodes_view().len(),
            depth <= id.0,
            i == id.0,
            bytes == source.spec_bytes(),
            *node == tree.nodes_view()[i],
            content@ == tree.node_content(i),
            n == content@.len(),
            0 <= k <= n,
            buf@ == head + done,
            done + display_content(tree, source@, bytes, i, k as int, depth as nat) == display_content(
                tree,
                source@,
                bytes,
                i,
                0,
                depth as nat,
            ),
        decreases n - k,
    {
        proof {
            assert(tree.node_ok(i));
            let j = node.content_idx as int + k;
            assert(content@[k as int] == tree.content_view()[j]);
            assert(tree.entry_ok(i, tree.content_view()[j]));
        }
        let ghost before = buf@;
        match content[k] {
            NodeOrToken::Node(c) => {
                display_node_exec(buf, tree, source, c, depth + 1);
            },
            NodeOrToken::Token(t) => {
                let r = tree.tokens().token_range(t);
                push_leaf(buf, source, r, depth + 1);
            },
            NodeOrToken::Trivia(v) => {
                let r = tree.tokens().trivia_range(v);
                push_leaf(buf, source, r, depth + 1);
            },
        }
        proof {
            let piece = buf@.subrange(before.len() as int, buf@.len() as int);
            assert(buf@ =~= before + piece);
            done = done + piece;
            assert(buf@ =~= head + done);
        }
        k = k + 1;
    }
    proof {
        assert(done =~= display_content(tree, source@, bytes, i, 0, depth as nat));
    }
}

/// An outline of the syntax tree of `source`: one line per node with its kind and
/// range, and one per token and trivia with its range and text, indented by depth.
pub fn tree_display(tree: &SyntaxTree, source: &str) -> (r: String)
    requires
        tree.wf(),
    ensures
        r@ == display_node(tree, source@, source.spec_bytes(), 0, 0),
{
    let mut buf = String::new();
    display_node_exec(&mut buf, tree, source, NodeID(0), 0);
    buf
}

} // verus!
