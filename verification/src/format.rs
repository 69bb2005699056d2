use vstd::prelude::*;
use crate::ast::{AssignOp, BasicType, BinOp, UnOp};
use crate::ast_layer::{find_range, first_token, last_token, lemma_first_last_token_valid};
use crate::syntax_kind::SyntaxKind;
use crate::token::{spec_as_assign_op, spec_as_basic_type, spec_as_bin_op, spec_as_un_op, Token};
use crate::ids::{NodeID, TokenID, TriviaID};
use crate::lexer::lexed_wf;
use vstd::string::StringSliceAdditionalSpecFns;
use vstd::utf8::encode_utf8;
use crate::syntax_kind::SyntaxSet;
use crate::text::TextRange;
use crate::token_list::Trivia;
use crate::tree::{NodeOrToken, SyntaxTree};

verus! {

/// One level of indentation.
pub const TAB_LEN: u32 = 4;

/// Column past which a list is wrapped onto several lines.
pub const WRAP_THRESHOLD: u32 = 90;

/// Length of the import symbols after which a wrapped symbol list starts a new line.
pub const SUBWRAP_IMPORT_SYMBOL: u32 = 60;

/// One piece of formatted output.
#[derive(Copy, Clone, PartialEq, Eq, Debug, Structural)]
pub enum FormatEvent {
    Space,
    Newline,
    /// An ASCII character.
    Char(char),
    /// `count` levels of indentation.
    Tab { count: u32 },
    /// The source text of a stored range.
    Range { range_idx: usize },
    /// A stored fixed string.
    String { string_idx: usize },
    /// A comment from the source, with its trailing whitespace removed, after
    /// `spacing` spaces.
    Comment { spacing: u16, range_idx: usize },
}

/// A line comment placed after a list element: where it was written and its event.
#[derive(Copy, Clone, PartialEq, Eq, Debug, Structural)]
pub struct CommentPosition {
    pub line_num: u32,
    pub line_offset: u32,
    pub event_idx: usize,
}

/// The output of a formatting run, kept between runs to reuse its buffers.
pub struct FormatterCache {
    events: Vec<FormatEvent>,
    ranges: Vec<TextRange>,
    strings: Vec<&'static str>,
    comments: Vec<CommentPosition>,
}

impl FormatterCache {
    pub closed spec fn events_view(&self) -> Seq<FormatEvent> {
        self.events@
    }

    pub closed spec fn ranges_view(&self) -> Seq<TextRange> {
        self.ranges@
    }

    pub closed spec fn strings_view(&self) -> Seq<Seq<char>> {
        Seq::new(self.strings@.len(), |i: int| self.strings@[i]@)
    }

    pub closed spec fn comments_view(&self) -> Seq<CommentPosition> {
        self.comments@
    }

    /// Every event refers to a stored range or string, and every stored range lies in a
    /// text of `len` bytes.
    pub open spec fn wf(&self, len: nat) -> bool {
        &&& forall|i: int|
            0 <= i < self.events_view().len() ==> event_ok(
                #[trigger] self.events_view()[i],
                self.ranges_view().len(),
                self.strings_view().len(),
            )
        &&& forall|i: int|
            0 <= i < self.ranges_view().len() ==> (#[trigger] self.ranges_view()[i]).start.0
                <= self.ranges_view()[i].end.0 <= len
    }

    pub fn new() -> (r: FormatterCache)
        ensures
            r.events_view().len() == 0,
            r.ranges_view().len() == 0,
            r.strings_view().len() == 0,
            r.comments_view().len() == 0,
    {
        FormatterCache {
            events: Vec::new(),
            ranges: Vec::new(),
            strings: Vec::new(),
            comments: Vec::new(),
        }
    }

    /// Empties the cache for a new run.
    pub fn reset(&mut self)
        ensures
            final(self).events_view().len() == 0,
            final(self).ranges_view().len() == 0,
            final(self).strings_view().len() == 0,
            final(self).comments_view().len() == 0,
    {
        self.events.clear();
        self.ranges.clear();
        self.strings.clear();
        self.comments.clear();
        proof {
            assert(self.strings_view() =~= Seq::<Seq<char>>::empty());
        }
    }

    pub fn range(&self, range_idx: usize) -> (r: TextRange)
        requires
            range_idx < self.ranges_view().len(),
        ensures
            r == self.ranges_view()[range_idx as int],
    {
        self.ranges[range_idx]
    }

    pub fn string(&self, string_idx: usize) -> (r: &'static str)
        requires
            string_idx < self.strings_view().len(),
        ensures
            r@ == self.strings_view()[string_idx as int],
    {
        self.strings[string_idx]
    }

    /// The events of the last run.
    pub fn events(&self) -> (r: &[FormatEvent])
        ensures
            r@ == self.events_view(),
    {
        self.events.as_slice()
    }
}

/// `e` refers only to stored ranges and strings, and a character event holds ASCII.
pub open spec fn event_ok(e: FormatEvent, n_ranges: nat, n_strings: nat) -> bool {
    match e {
        FormatEvent::Char(c) => (c as u32) < 128,
        FormatEvent::Range { range_idx } => range_idx < n_ranges,
        FormatEvent::String { string_idx } => string_idx < n_strings,
        FormatEvent::Comment { range_idx, .. } => range_idx < n_ranges,
        _ => true,
    }
}

/// State of a formatting run over one syntax tree: the output so far and where it
/// stands in the output and in the source.
pub struct Formatter<'syn> {
    tree: &'syn SyntaxTree,
    source: &'syn [u8],
    line_ranges: &'syn [TextRange],
    cache: FormatterCache,
    line_num: u32,
    line_offset: u32,
    line_num_src: u32,
    tab_depth: u32,
}

impl<'syn> Formatter<'syn> {
    pub closed spec fn tree_view(&self) -> SyntaxTree {
        *self.tree
    }

    pub closed spec fn source_view(&self) -> Seq<u8> {
        self.source@
    }

    pub closed spec fn line_ranges_view(&self) -> Seq<TextRange> {
        self.line_ranges@
    }

    pub closed spec fn cache_view(&self) -> FormatterCache {
        self.cache
    }

    pub open spec fn events(&self) -> Seq<FormatEvent> {
        self.cache_view().events_view()
    }

    pub open spec fn ranges(&self) -> Seq<TextRange> {
        self.cache_view().ranges_view()
    }

    pub open spec fn strings(&self) -> Seq<Seq<char>> {
        self.cache_view().strings_view()
    }

    pub open spec fn comments(&self) -> Seq<CommentPosition> {
        self.cache_view().comments_view()
    }

    /// Output line, output column, indentation depth and current source line.
    pub closed spec fn position(&self) -> (u32, u32, u32, u32) {
        (self.line_num, self.line_offset, self.tab_depth, self.line_num_src)
    }

    /// The tree is well formed, the output refers only to stored ranges (inside the
    /// source) and strings, and each recorded comment position is a comment event.
    pub open spec fn wf(&self) -> bool {
        &&& self.tree_view().wf()
        &&& self.tree_view().nodes_view().len() + 2 <= u32::MAX
        &&& lexed_wf(&self.tree_view().token_list(), self.source_view().len() as int)
        &&& self.cache_view().wf(self.source_view().len())
        &&& forall|i: int|
            0 <= i < self.comments().len() ==> (#[trigger] self.comments()[i]).event_idx
                < self.events().len() && self.events()[self.comments()[i].event_idx as int] is Comment
        &&& forall|i: int, j: int|
            0 <= i < j < self.comments().len() ==> (#[trigger] self.comments()[i]).event_idx < (
            #[trigger] self.comments()[j]).event_idx
    }

    /// Same tree and source, and the output only grew: earlier events, ranges, strings
    /// and comment positions are kept.
    pub open spec fn extends(&self, old: &Self) -> bool {
        &&& self.tree_view() == old.tree_view()
        &&& self.source_view() == old.source_view()
        &&& self.line_ranges_view() == old.line_ranges_view()
        &&& self.events().len() >= old.events().len()
        &&& self.ranges().len() >= old.ranges().len()
        &&& self.strings().len() >= old.strings().len()
        &&& forall|i: int| 0 <= i < old.events().len() ==> #[trigger] self.events()[i] == old.events()[i]
        &&& forall|i: int| 0 <= i < old.ranges().len() ==> #[trigger] self.ranges()[i] == old.ranges()[i]
        &&& forall|i: int| 0 <= i < old.strings().len() ==> #[trigger] self.strings()[i] == old.strings()[i]
    }

    /// Only the output grew by `e` and the column moved; the comment positions and the
    /// indentation are kept.
    pub open spec fn pushed(&self, old: &Self, e: FormatEvent) -> bool {
        &&& self.extends(old)
        &&& self.events() == old.events().push(e)
        &&& self.comments() == old.comments()
        &&& self.position().0 == old.position().0
        &&& self.position().2 == old.position().2
        &&& self.position().3 == old.position().3
    }

    /// A run over `tree`, whose source is `source` with the line ranges `line_ranges`,
    /// that writes into `cache` after emptying it.
    pub fn new(
        tree: &'syn SyntaxTree,
        source: &'syn [u8],
        line_ranges: &'syn [TextRange],
        cache: FormatterCache,
    ) -> (r: Formatter<'syn>)
        requires
            tree.wf(),
            tree.nodes_view().len() + 2 <= u32::MAX,
            lexed_wf(&tree.token_list(), source@.len() as int),
        ensures
            r.wf(),
            r.tree_view() == *tree,
            r.source_view() == source@,
            r.line_ranges_view() == line_ranges@,
            r.events().len() == 0,
            r.comments().len() == 0,
            r.position() == (0u32, 0u32, 0u32, 0u32),
    {
        let mut cache = cache;
        cache.reset();
        Formatter {
            tree,
            source,
            line_ranges,
            cache,
            line_num: 0,
            line_offset: 0,
            line_num_src: 0,
            tab_depth: 0,
        }
    }

    /// Ends the run, handing back its output.
    pub fn into_cache(self) -> (r: FormatterCache)
        ensures
            r == self.cache_view(),
    {
        self.cache
    }

    pub fn space(&mut self)
        requires
            old(self).wf(),
        ensures
            final(self).wf(),
            final(self).pushed(old(self), FormatEvent::Space),
            final(self).ranges() == old(self).ranges(),
            final(self).strings() == old(self).strings(),
            final(self).position().1 == sat_add(old(self).position().1, 1),
    {
        self.line_offset = self.line_offset.saturating_add(1);
        self.push_event(FormatEvent::Space);
    }

    pub fn new_line(&mut self)
        requires
            old(self).wf(),
        ensures
            final(self).wf(),
            final(self).extends(old(self)),
            final(self).events() == old(self).events().push(FormatEvent::Newline),
            final(self).ranges() == old(self).ranges(),
            final(self).strings() == old(self).strings(),
            final(self).comments() == old(self).comments(),
            final(self).position() == (
                sat_add(old(self).position().0, 1),
                0u32,
                old(self).position().2,
                old(self).position().3,
            ),
    {
        self.line_num = self.line_num.saturating_add(1);
        self.line_offset = 0;
        self.push_event(FormatEvent::Newline);
    }

    /// Writes the ASCII character `c`.
    pub fn write(&mut self, c: char)
        requires
            old(self).wf(),
            (c as u32) < 128,
        ensures
            final(self).wf(),
            final(self).pushed(old(self), FormatEvent::Char(c)),
            final(self).ranges() == old(self).ranges(),
            final(self).strings() == old(self).strings(),
            final(self).position().1 == sat_add(old(self).position().1, 1),
    {
        self.line_offset = self.line_offset.saturating_add(1);
        self.push_event(FormatEvent::Char(c));
    }

    /// Writes the source text of `range`.
    pub fn write_range(&mut self, range: TextRange)
        requires
            old(self).wf(),
            range.start.0 <= range.end.0 <= old(self).source_view().len(),
        ensures
            final(self).wf(),
            final(self).pushed(
                old(self),
                FormatEvent::Range { range_idx: old(self).ranges().len() as usize },
            ),
            final(self).ranges() == old(self).ranges().push(range),
            final(self).strings() == old(self).strings(),
            final(self).position().1 == sat_add(old(self).position().1, range.spec_len() as u32),
    {
        self.line_offset = self.line_offset.saturating_add(range.end.0 - range.start.0);
        let range_idx = self.push_range(range);
        self.push_event(FormatEvent::Range { range_idx });
    }

    /// Writes `string`.
    pub fn write_str(&mut self, string: &'static str)
        requires
            old(self).wf(),
        ensures
            final(self).wf(),
            final(self).pushed(
                old(self),
                FormatEvent::String { string_idx: old(self).strings().len() as usize },
            ),
            final(self).strings() == old(self).strings().push(string@),
            final(self).ranges() == old(self).ranges(),
            final(self).position().1 == sat_add(
                old(self).position().1,
                clamp_u32(encode_utf8(string@).len()),
            ),
    {
        let n = string.as_bytes().len();
        let width: u32 = if n > u32::MAX as usize {
            u32::MAX
        } else {
            n as u32
        };
        self.line_offset = self.line_offset.saturating_add(width);
        let ghost c0 = self.cache;
        let string_idx = self.cache.strings.len();
        self.cache.strings.push(string);
        proof {
            assert(self.strings() =~= c0.strings_view().push(string@));
            assert forall|i: int| 0 <= i < self.events().len() implies event_ok(
                #[trigger] self.events()[i],
                self.ranges().len(),
                self.strings().len(),
            ) by {
                assert(event_ok(c0.events_view()[i], c0.ranges_view().len(), c0.strings_view().len()));
            }
        }
        self.push_event(FormatEvent::String { string_idx });
    }

    /// Writes the comment at `range` of the source, and gives the index of its event.
    pub fn write_comment(&mut self, range: TextRange) -> (r: usize)
        requires
            old(self).wf(),
            range.start.0 <= range.end.0 <= old(self).source_view().len(),
        ensures
            final(self).wf(),
            r == old(self).events().len(),
            final(self).pushed(
                old(self),
                FormatEvent::Comment { spacing: 0, range_idx: old(self).ranges().len() as usize },
            ),
            final(self).ranges() == old(self).ranges().push(range),
            final(self).strings() == old(self).strings(),
            final(self).position().1 == sat_add(old(self).position().1, range.spec_len() as u32),
    {
        self.line_offset = self.line_offset.saturating_add(range.end.0 - range.start.0);
        let range_idx = self.push_range(range);
        let event_idx = self.cache.events.len();
        self.push_event(FormatEvent::Comment { spacing: 0, range_idx });
        event_idx
    }

    pub fn tab_inc(&mut self)
        requires
            old(self).wf(),
        ensures
            final(self).wf(),
            final(self).cache_view() == old(self).cache_view(),
            final(self).extends(old(self)),
            final(self).position() == (
                old(self).position().0,
                old(self).position().1,
                sat_add(old(self).position().2, 1),
                old(self).position().3,
            ),
    {
        self.tab_depth = self.tab_depth.saturating_add(1);
    }

    pub fn tab_dec(&mut self)
        requires
            old(self).wf(),
            old(self).position().2 != 0,
        ensures
            final(self).wf(),
            final(self).cache_view() == old(self).cache_view(),
            final(self).extends(old(self)),
            final(self).position() == (
                old(self).position().0,
                old(self).position().1,
                (old(self).position().2 - 1) as u32,
                old(self).position().3,
            ),
    {
        self.tab_depth = self.tab_depth - 1;
    }

    /// Writes one level of indentation.
    pub fn tab_single(&mut self)
        requires
            old(self).wf(),
        ensures
            final(self).wf(),
            final(self).pushed(old(self), FormatEvent::Tab { count: 1 }),
            final(self).ranges() == old(self).ranges(),
            final(self).strings() == old(self).strings(),
            final(self).position().1 == sat_add(old(self).position().1, TAB_LEN),
    {
        self.line_offset = self.line_offset.saturating_add(TAB_LEN);
        self.push_event(FormatEvent::Tab { count: 1 });
    }

    /// Writes the current indentation, if any.
    pub fn tab_depth(&mut self)
        requires
            old(self).wf(),
        ensures
            final(self).wf(),
            old(self).position().2 == 0 ==> *final(self) == *old(self),
            old(self).position().2 != 0 ==> final(self).pushed(
                old(self),
                FormatEvent::Tab { count: old(self).position().2 },
            ) && final(self).position().1 == sat_add(
                old(self).position().1,
                sat_mul(TAB_LEN, old(self).position().2),
            ),
            final(self).extends(old(self)),
            final(self).comments() == old(self).comments(),
            final(self).ranges() == old(self).ranges(),
            final(self).strings() == old(self).strings(),
            final(self).position().0 == old(self).position().0,
            final(self).position().2 == old(self).position().2,
            final(self).position().3 == old(self).position().3,
    {
        if self.tab_depth == 0 {
            return;
        }
        let width = if self.tab_depth > u32::MAX / TAB_LEN {
            u32::MAX
        } else {
            TAB_LEN * self.tab_depth
        };
        self.line_offset = self.line_offset.saturating_add(width);
        self.push_event(FormatEvent::Tab { count: self.tab_depth });
    }

    fn push_event(&mut self, e: FormatEvent)
        requires
            old(self).wf(),
            event_ok(e, old(self).ranges().len(), old(self).strings().len()),
        ensures
            final(self).wf(),
            final(self).extends(old(self)),
            final(self).events() == old(self).events().push(e),
            final(self).ranges() == old(self).ranges(),
            final(self).strings() == old(self).strings(),
            final(self).comments() == old(self).comments(),
            final(self).position() == old(self).position(),
    {
        let ghost c0 = self.cache;
        self.cache.events.push(e);
        proof {
            assert(self.ranges() == c0.ranges_view());
            assert(self.strings() =~= c0.strings_view());
            assert forall|i: int| 0 <= i < self.events().len() implies event_ok(
                #[trigger] self.events()[i],
                self.ranges().len(),
                self.strings().len(),
            ) by {
                if i < c0.events_view().len() {
                    assert(event_ok(c0.events_view()[i], c0.ranges_view().len(), c0.strings_view().len()));
                }
            }
        }
    }

    fn push_range(&mut self, range: TextRange) -> (r: usize)
        requires
            old(self).wf(),
            range.start.0 <= range.end.0 <= old(self).source_view().len(),
        ensures
            final(self).wf(),
            final(self).extends(old(self)),
            r == old(self).ranges().len(),
            final(self).events() == old(self).events(),
            final(self).ranges() == old(self).ranges().push(range),
            final(self).strings() == old(self).strings(),
            final(self).comments() == old(self).comments(),
            final(self).position() == old(self).position(),
    {
        let ghost c0 = self.cache;
        let range_idx = self.cache.ranges.len();
        self.cache.ranges.push(range);
        proof {
            assert(self.strings() =~= c0.strings_view());
            assert forall|i: int| 0 <= i < self.ranges().len() implies (#[trigger] self.ranges()[i]).start.0
                <= self.ranges()[i].end.0 <= self.source_view().len() by {
                if i < c0.ranges_view().len() {
                    assert(self.ranges()[i] == c0.ranges_view()[i]);
                }
            }
            assert forall|i: int| 0 <= i < self.events().len() implies event_ok(
                #[trigger] self.events()[i],
                self.ranges().len(),
                self.strings().len(),
            ) by {
                assert(event_ok(c0.events_view()[i], c0.ranges_view().len(), c0.strings_view().len()));
            }
        }
        range_idx
    }
}

/// `a + b`, or `u32::MAX` where that does not fit.
pub open spec fn sat_add(a: u32, b: u32) -> u32 {
    if a + b > u32::MAX {
        u32::MAX
    } else {
        (a + b) as u32
    }
}

/// `a * b`, or `u32::MAX` where that does not fit.
pub open spec fn sat_mul(a: u32, b: u32) -> u32 {
    if a * b > u32::MAX {
        u32::MAX
    } else {
        (a * b) as u32
    }
}

/// The content `c` holds no node and no comment.
pub open spec fn content_is_empty(tree: &SyntaxTree, c: Seq<NodeOrToken>) -> bool {
    forall|j: int|
        0 <= j < c.len() ==> match #[trigger] c[j] {
            NodeOrToken::Node(_) => false,
            NodeOrToken::Token(_) => true,
            NodeOrToken::Trivia(id) => tree.token_list().trivia_view()[id.0 as int] == Trivia::Whitespace,
        }
}

/// Length of the source text of the tokens in entries `k..` of the content of node `i`,
/// the tokens of the nodes there included.
pub open spec fn content_text_len(tree: &SyntaxTree, i: int, k: int) -> nat
    decreases tree.nodes_view().len() - i, tree.node_content(i).len() - k,
{
    if i < 0 || i >= tree.nodes_view().len() || k < 0 || k >= tree.node_content(i).len() {
        0
    } else {
        let rest = content_text_len(tree, i, k + 1);
        match tree.node_content(i)[k] {
            NodeOrToken::Node(c) => if i < c.0 < tree.nodes_view().len() {
                content_text_len(tree, c.0 as int, 0) + rest
            } else {
                rest
            },
            NodeOrToken::Token(t) => {
                let r = tree.token_list().range_at(t.0 as int);
                (if r.end.0 >= r.start.0 {
                    (r.end.0 - r.start.0) as nat
                } else {
                    0nat
                }) + rest
            },
            NodeOrToken::Trivia(_) => rest,
        }
    }
}

/// `min(n, u32::MAX)`.
pub open spec fn clamp_u32(n: nat) -> u32 {
    if n > u32::MAX {
        u32::MAX
    } else {
        n as u32
    }
}

/// The content of node `id` holds no node and no comment.
fn content_empty(fmt: &Formatter, id: NodeID) -> (r: bool)
    requires
        fmt.wf(),
        id.0 < fmt.tree_view().nodes_view().len(),
    ensures
        r == content_is_empty(&fmt.tree_view(), fmt.tree_view().node_content(id.0 as int)),
{
    let tree = fmt.tree;
    let node = tree.node(id);
    proof {
        assert(tree.node_ok(id.0 as int));
    }
    let content = tree.content_of(node);
    let n = content.len();
    let mut i: usize = 0;
    while i < n
        invariant
            fmt.wf(),
            *tree == fmt.tree_view(),
            id.0 < tree.nodes_view().len(),
            *node == tree.nodes_view()[id.0 as int],
            content@ == tree.node_content(id.0 as int),
            n == content@.len(),
            0 <= i <= n,
            content_is_empty(tree, content@.subrange(0, i as int)),
        decreases n - i,
    {
        proof {
            assert(tree.node_ok(id.0 as int));
            let j = node.content_idx as int + i;
            assert(content@[i as int] == tree.content_view()[j]);
            assert(tree.entry_ok(id.0 as int, tree.content_view()[j]));
        }
        match content[i] {
            NodeOrToken::Node(_) => {
                assert(!content_is_empty(tree, content@)) by {
                    assert(content@[i as int] is Node);
                }
                return false;
            },
            NodeOrToken::Token(_) => {},
            NodeOrToken::Trivia(trivia_id) => {
                match tree.tokens().trivia(trivia_id) {
                    Trivia::Whitespace => {},
                    _ => {
                        assert(!content_is_empty(tree, content@)) by {
                            assert(content@[i as int] is Trivia);
                        }
                        return false;
                    },
                }
            },
        }
        proof {
            let c = content@.subrange(0, i + 1);
            assert forall|j: int| 0 <= j < c.len() implies match #[trigger] c[j] {
                NodeOrToken::Node(_) => false,
                NodeOrToken::Token(_) => true,
                NodeOrToken::Trivia(tid) => tree.token_list().trivia_view()[tid.0 as int] == Trivia::Whitespace,
            } by {
                if j < i {
                    assert(c[j] == content@.subrange(0, i as int)[j]);
                }
            }
        }
        i = i + 1;
    }
    proof {
        assert(content@.subrange(0, n as int) =~= content@);
    }
    true
}

/// Length of the source text of the tokens under node `id`, at most `u32::MAX`.
fn content_len(fmt: &Formatter, id: NodeID) -> (r: u32)
    requires
        fmt.wf(),
        id.0 < fmt.tree_view().nodes_view().len(),
    ensures
        r == clamp_u32(content_text_len(&fmt.tree_view(), id.0 as int, 0)),
    decreases fmt.tree_view().nodes_view().len() - id.0,
{
    let tree = fmt.tree;
    let node = tree.node(id);
    proof {
        assert(tree.node_ok(id.0 as int));
    }
    let content = tree.content_of(node);
    let n = content.len();
    let mut len: u32 = 0;
    let ghost mut total: nat = 0;
    let mut i: usize = 0;
    while i < n
        invariant
            fmt.wf(),
            *tree == fmt.tree_view(),
            id.0 < tree.nodes_view().len(),
            *node == tree.nodes_view()[id.0 as int],
            content@ == tree.node_content(id.0 as int),
            n == content@.len(),
            0 <= i <= n,
            total + content_text_len(tree, id.0 as int, i as int) == content_text_len(tree, id.0 as int, 0),
            len == clamp_u32(total),
        decreases n - i,
    {
        proof {
            assert(tree.node_ok(id.0 as int));
            let j = node.content_idx as int + i;
            assert(content@[i as int] == tree.content_view()[j]);
            assert(tree.entry_ok(id.0 as int, tree.content_view()[j]));
        }
        let add: u32 = match content[i] {
            NodeOrToken::Node(child) => {
                let l = content_len(fmt, child);
                proof {
                    total = total + content_text_len(tree, child.0 as int, 0);
                }
                l
            },
            NodeOrToken::Token(token_id) => {
                let range = tree.tokens().token_range(token_id);
                proof {
                    total = total + (range.end.0 - range.start.0) as nat;
                }
                range.len()
            },
            NodeOrToken::Trivia(_) => 0,
        };
        len = len.saturating_add(add);
        i = i + 1;
    }
    len
}

/// The ranges of the comments in entries `k..` of the content of node `i` and, depth
/// first, in the nodes there whose kind is not in `halt`.
pub open spec fn lifted_comments(tree: &SyntaxTree, i: int, k: int, halt: SyntaxSet) -> Seq<TextRange>
    decreases tree.nodes_view().len() - i, tree.node_content(i).len() - k,
{
    if i < 0 || i >= tree.nodes_view().len() || k < 0 || k >= tree.node_content(i).len() {
        Seq::empty()
    } else {
        let rest = lifted_comments(tree, i, k + 1, halt);
        match tree.node_content(i)[k] {
            NodeOrToken::Node(c) => (if i < c.0 < tree.nodes_view().len() && !halt.has(
                tree.nodes_view()[c.0 as int].kind,
            ) {
                lifted_comments(tree, c.0 as int, 0, halt)
            } else {
                Seq::empty()
            }) + rest,
            NodeOrToken::Trivia(v) => (if tree.token_list().trivia_view()[v.0 as int]
                != Trivia::Whitespace {
                seq![tree.token_list().trivia_ranges_view()[v.0 as int]]
            } else {
                Seq::empty()
            }) + rest,
            NodeOrToken::Token(_) => rest,
        }
    }
}

/// The events of `n` comments written each on a line of its own at indentation `depth`,
/// their ranges stored from `base` on.
pub open spec fn lifted_events(depth: u32, base: nat, n: nat) -> Seq<FormatEvent>
    decreases n,
{
    if n == 0 {
        Seq::empty()
    } else {
        lifted_events(depth, base, (n - 1) as nat) + (if depth == 0 {
            Seq::empty()
        } else {
            seq![FormatEvent::Tab { count: depth }]
        }) + seq![
            FormatEvent::Comment { spacing: 0, range_idx: (base + n - 1) as usize },
            FormatEvent::Newline,
        ]
    }
}

proof fn lemma_lifted_events_concat(depth: u32, base: nat, m: nat, n: nat)
    ensures
        lifted_events(depth, base, m) + lifted_events(depth, base + m, n) == lifted_events(
            depth,
            base,
            m + n,
        ),
    decreases n,
{
    if n == 0 {
        assert(lifted_events(depth, base, m) + lifted_events(depth, base + m, 0) =~= lifted_events(
            depth,
            base,
            m,
        ));
    } else {
        lemma_lifted_events_concat(depth, base, m, (n - 1) as nat);
        assert(lifted_events(depth, base, m) + lifted_events(depth, base + m, n) =~= lifted_events(
            depth,
            base,
            m + n,
        ));
    }
}

/// Writes, each on its own line, the comments inside node `id`, except those inside
/// nodes whose kind is in `halt`: they move before the node's formatted text.
fn trivia_lift(fmt: &mut Formatter, id: NodeID, halt: SyntaxSet)
    requires
        old(fmt).wf(),
        id.0 < old(fmt).tree_view().nodes_view().len(),
    ensures
        final(fmt).wf(),
        final(fmt).extends(old(fmt)),
        final(fmt).comments() == old(fmt).comments(),
        final(fmt).position().2 == old(fmt).position().2,
        final(fmt).strings() == old(fmt).strings(),
        final(fmt).ranges() == old(fmt).ranges() + lifted_comments(
            &old(fmt).tree_view(),
            id.0 as int,
            0,
            halt,
        ),
        final(fmt).events() == old(fmt).events() + lifted_events(
            old(fmt).position().2,
            old(fmt).ranges().len(),
            lifted_comments(&old(fmt).tree_view(), id.0 as int, 0, halt).len(),
        ),
    decreases old(fmt).tree_view().nodes_view().len() - id.0,
{
    let tree = fmt.tree;
    let node = tree.node(id);
    proof {
        assert(tree.node_ok(id.0 as int));
    }
    let content = tree.content_of(node);
    let n = content.len();
    let ghost f0 = *fmt;
    let ghost depth = f0.position().2;
    let ghost base = f0.ranges().len();
    let ghost mut done: Seq<TextRange> = Seq::empty();
    let mut i: usize = 0;
    while i < n
        invariant
            fmt.wf(),
            fmt.extends(&f0),
            fmt.comments() == f0.comments(),
            fmt.position().2 == f0.position().2,
            depth == f0.position().2,
            base == f0.ranges().len(),
            f0.tree_view() == *tree,
            old(fmt).tree_view() == *tree,
            id.0 < tree.nodes_view().len(),
            *node == tree.nodes_view()[id.0 as int],
            content@ == tree.node_content(id.0 as int),
            n == content@.len(),
            0 <= i <= n,
            fmt.strings() == f0.strings(),
            fmt.ranges() == f0.ranges() + done,
            fmt.events() == f0.events() + lifted_events(depth, base, done.len()),
            done + lifted_comments(tree, id.0 as int, i as int, halt) == lifted_comments(
                tree,
                id.0 as int,
                0,
                halt,
            ),
        decreases n - i,
    {
        proof {
            assert(tree.node_ok(id.0 as int));
            let j = node.content_idx as int + i;
            assert(content@[i as int] == tree.content_view()[j]);
            assert(tree.entry_ok(id.0 as int, tree.content_view()[j]));
        }
        let ghost f1 = *fmt;
        match content[i] {
            NodeOrToken::Node(child) => {
                if !halt.contains(tree.node(child).kind) {
                    trivia_lift(fmt, child, halt);
                    proof {
                        let piece = lifted_comments(tree, child.0 as int, 0, halt);
                        lemma_lifted_events_concat(depth, base, done.len(), piece.len());
                        assert(fmt.ranges() =~= f0.ranges() + (done + piece));
                        assert(fmt.events() =~= f0.events() + lifted_events(depth, base, (done + piece).len()));
                        assert((done + piece) + lifted_comments(tree, id.0 as int, i + 1, halt) =~= done
                            + lifted_comments(tree, id.0 as int, i as int, halt));
                        done = done + piece;
                    }
                } else {
                    proof {
                        assert(done + lifted_comments(tree, id.0 as int, i + 1, halt) =~= done
                            + lifted_comments(tree, id.0 as int, i as int, halt));
                    }
                }
            },
            NodeOrToken::Trivia(trivia_id) => {
                let (trivia, range) = tree.tokens().trivia_and_range(trivia_id);
                match trivia {
                    Trivia::Whitespace => {
                        proof {
                            assert(done + lifted_comments(tree, id.0 as int, i + 1, halt) =~= done
                                + lifted_comments(tree, id.0 as int, i as int, halt));
                        }
                    },
                    _ => {
                        fmt.tab_depth();
                        let _ = fmt.write_comment(range);
                        fmt.new_line();
                        proof {
                            let piece = seq![range];
                            lemma_lifted_events_concat(depth, base, done.len(), 1);
                            assert(lifted_events(depth, (base + done.len()) as nat, 0)
                                =~= Seq::<FormatEvent>::empty());
                            assert(lifted_events(depth, (base + done.len()) as nat, 1) =~= (if depth
                                == 0 {
                                Seq::empty()
                            } else {
                                seq![FormatEvent::Tab { count: depth }]
                            }) + seq![
                                FormatEvent::Comment {
                                    spacing: 0,
                                    range_idx: (base + done.len()) as usize,
                                },
                                FormatEvent::Newline,
                            ]);
                            assert(fmt.ranges() =~= f0.ranges() + (done + piece));
                            assert(fmt.events() =~= f0.events() + lifted_events(
                                depth,
                                base,
                                (done + piece).len(),
                            ));
                            assert((done + piece) + lifted_comments(tree, id.0 as int, i + 1, halt)
                                =~= done + lifted_comments(tree, id.0 as int, i as int, halt));
                            done = done + piece;
                        }
                    },
                }
            },
            NodeOrToken::Token(_) => {
                proof {
                    assert(done + lifted_comments(tree, id.0 as int, i + 1, halt) =~= done
                        + lifted_comments(tree, id.0 as int, i as int, halt));
                }
            },
        }
        i = i + 1;
    }
    proof {
        assert(lifted_comments(tree, id.0 as int, n as int, halt) =~= Seq::<TextRange>::empty());
        assert(done =~= lifted_comments(tree, id.0 as int, 0, halt));
    }
}

/// The content of node `id` would pass the wrap column if written from here.
fn wrap_content_len_based(fmt: &Formatter, id: NodeID) -> (r: bool)
    requires
        fmt.wf(),
        id.0 < fmt.tree_view().nodes_view().len(),
    ensures
        r == (sat_add(fmt.position().1, clamp_u32(content_text_len(&fmt.tree_view(), id.0 as int, 0)))
            > WRAP_THRESHOLD),
{
    let offset = fmt.line_offset.saturating_add(content_len(fmt, id));
    offset > WRAP_THRESHOLD
}

/// Counts the newlines in the source text of `range`, up to `limit`.
fn newlines_in(source: &[u8], range: TextRange, limit: u32) -> (r: u32)
    requires
        range.start.0 <= range.end.0 <= source@.len(),
        limit >= 1,
    ensures
        r <= limit,
        r == 0 <==> forall|k: int| range.start.0 <= k < range.end.0 ==> source@[k] != 10u8,
{
    let mut count: u32 = 0;
    let mut i = range.start.0 as usize;
    let end = range.end.0 as usize;
    while i < end
        invariant
            range.start.0 <= i <= end,
            end == range.end.0,
            end <= source@.len(),
            count <= limit,
            count == 0 <==> forall|k: int| range.start.0 <= k < i ==> source@[k] != 10u8,
            limit >= 1,
        decreases end - i,
    {
        if source[i] == 10u8 {
            if count < limit {
                count = count + 1;
            }
            if count == limit {
                assert(source@[i as int] == 10u8);
                assert(!(forall|k: int| range.start.0 <= k < range.end.0 ==> source@[k] != 10u8)) by {
                    assert(range.start.0 <= i < range.end.0);
                }
                return count;
            }
        }
        i = i + 1;
    }
    count
}

/// The line comment that follows, on the same source line, the element that ends
/// before position `pos` of `c`: only tokens and whitespace without a line break may
/// stand between.
pub open spec fn trailing_comment(tree: &SyntaxTree, source: Seq<u8>, c: Seq<NodeOrToken>, pos: int) -> Option<
    TriviaID,
>
    decreases c.len() - pos,
{
    if pos < 0 || pos >= c.len() {
        None
    } else {
        match c[pos] {
            NodeOrToken::Token(_) => trailing_comment(tree, source, c, pos + 1),
            NodeOrToken::Node(_) => None,
            NodeOrToken::Trivia(v) => {
                let r = tree.token_list().trivia_ranges_view()[v.0 as int];
                match tree.token_list().trivia_view()[v.0 as int] {
                    Trivia::Whitespace => if forall|k: int| r.start.0 <= k < r.end.0 ==> source[k] != 10u8 {
                        trailing_comment(tree, source, c, pos + 1)
                    } else {
                        None
                    },
                    Trivia::LineComment => Some(v),
                    _ => None,
                }
            },
        }
    }
}

/// Walk over the content of a list node (a source file, a block, a field list...):
/// its elements each on a line of their own, with the comments between them, blank
/// lines kept (at most one), and line comments after an element aligned.
pub struct InterleaveWalk {
    list: NodeID,
    pos: usize,
    first: bool,
    new_line: bool,
    comments_offset: usize,
}

impl InterleaveWalk {
    pub closed spec fn list_view(&self) -> NodeID {
        self.list
    }

    pub closed spec fn pos_view(&self) -> int {
        self.pos as int
    }

    pub closed spec fn comments_offset_view(&self) -> int {
        self.comments_offset as int
    }

    /// The walk is over a node of `fmt`'s tree, and the comment positions it recorded
    /// follow those that were there before.
    pub open spec fn wf(&self, fmt: &Formatter) -> bool {
        &&& self.list_view().0 < fmt.tree_view().nodes_view().len()
        &&& self.pos_view() <= fmt.tree_view().node_content(self.list_view().0 as int).len()
        &&& self.comments_offset_view() <= fmt.comments().len()
    }

    /// Starts the walk over the content of `list`.
    pub fn new(fmt: &Formatter, list: NodeID) -> (r: InterleaveWalk)
        requires
            fmt.wf(),
            list.0 < fmt.tree_view().nodes_view().len(),
        ensures
            r.wf(fmt),
            r.list_view() == list,
            r.pos_view() == 0,
            r.comments_offset_view() == fmt.comments().len(),
    {
        InterleaveWalk {
            list,
            pos: 0,
            first: true,
            new_line: false,
            comments_offset: fmt.cache.comments.len(),
        }
    }

    /// Writes the comments (and a kept blank line) before the next element, and gives
    /// that element; none at the end of the list.
    pub fn next_element(&mut self, fmt: &mut Formatter) -> (r: Option<NodeID>)
        requires
            old(fmt).wf(),
            old(self).wf(old(fmt)),
        ensures
            final(fmt).wf(),
            final(fmt).extends(old(fmt)),
            final(fmt).comments() == old(fmt).comments(),
            final(fmt).position().2 == old(fmt).position().2,
            final(self).wf(final(fmt)),
            final(self).list_view() == old(self).list_view(),
            final(self).comments_offset_view() == old(self).comments_offset_view(),
            final(self).pos_view() >= old(self).pos_view(),
            r matches Some(id) ==> old(self).list_view().0 < id.0 < final(fmt).tree_view().nodes_view().len()
                && final(self).pos_view() > old(self).pos_view(),
            r is None ==> final(self).pos_view() == final(fmt).tree_view().node_content(
                final(self).list_view().0 as int,
            ).len(),
    {
        let tree = fmt.tree;
        let node = tree.node(self.list);
        proof {
            assert(tree.node_ok(self.list.0 as int));
        }
        let content = tree.content_of(node);
        let n = content.len();
        let ghost f0 = *fmt;
        while self.pos < n
            invariant
                fmt.wf(),
                fmt.extends(&f0),
                fmt.comments() == f0.comments(),
                fmt.position().2 == f0.position().2,
                f0 == *old(fmt),
                f0.wf(),
                f0.tree_view() == *tree,
                self.list == old(self).list,
                self.comments_offset == old(self).comments_offset,
                old(self).pos <= self.pos <= n,
                self.list.0 < tree.nodes_view().len(),
                *node == tree.nodes_view()[self.list.0 as int],
                content@ == tree.node_content(self.list.0 as int),
                n == content@.len(),
                old(self).comments_offset_view() <= f0.comments().len(),
            decreases n - self.pos,
        {
            let i = self.pos;
            proof {
                assert(tree.node_ok(self.list.0 as int));
                let j = node.content_idx as int + i;
                assert(content@[i as int] == tree.content_view()[j]);
                assert(tree.entry_ok(self.list.0 as int, tree.content_view()[j]));
            }
            self.pos = i + 1;
            match content[i] {
                NodeOrToken::Token(_) => {},
                NodeOrToken::Node(id) => {
                    if self.new_line {
                        self.new_line = false;
                        fmt.new_line();
                    }
                    self.first = false;
                    return Some(id);
                },
                NodeOrToken::Trivia(trivia_id) => {
                    let (trivia, range) = tree.tokens().trivia_and_range(trivia_id);
                    match trivia {
                        Trivia::Whitespace => {
                            if !self.first {
                                if newlines_in(fmt.source, range, 2) == 2 {
                                    self.new_line = true;
                                }
                            }
                        },
                        _ => {
                            if self.new_line {
                                self.new_line = false;
                                fmt.new_line();
                            }
                            self.first = false;
                            fmt.tab_depth();
                            let _ = fmt.write_comment(range);
                            fmt.new_line();
                        },
                    }
                },
            }
        }
        None
    }

    /// After an element was written: a line comment on the same source line follows it,
    /// its position recorded for alignment; then the line ends.
    pub fn after_element(&mut self, fmt: &mut Formatter)
        requires
            old(fmt).wf(),
            old(self).wf(old(fmt)),
        ensures
            final(fmt).wf(),
            final(fmt).extends(old(fmt)),
            final(fmt).comments().len() >= old(fmt).comments().len(),
            final(fmt).comments().subrange(0, old(fmt).comments().len() as int) == old(fmt).comments(),
            final(fmt).position().2 == old(fmt).position().2,
            final(self).wf(final(fmt)),
            final(self).list_view() == old(self).list_view(),
            final(self).comments_offset_view() == old(self).comments_offset_view(),
            final(self).pos_view() >= old(self).pos_view(),
            ({
                let tree = old(fmt).tree_view();
                match trailing_comment(
                    &tree,
                    old(fmt).source_view(),
                    tree.node_content(old(self).list_view().0 as int),
                    old(self).pos_view(),
                ) {
                    Some(v) => final(fmt).events() == old(fmt).events().push(
                        FormatEvent::Comment { spacing: 0, range_idx: old(fmt).ranges().len() as usize },
                    ).push(FormatEvent::Newline) && final(fmt).ranges() == old(fmt).ranges().push(
                        tree.token_list().trivia_ranges_view()[v.0 as int],
                    ) && final(fmt).comments() == old(fmt).comments().push(
                        CommentPosition {
                            line_num: old(fmt).position().0,
                            line_offset: old(fmt).position().1,
                            event_idx: old(fmt).events().len() as usize,
                        },
                    ),
                    None => final(fmt).events() == old(fmt).events().push(FormatEvent::Newline)
                        && final(fmt).ranges() == old(fmt).ranges() && final(fmt).comments() == old(
                        fmt,
                    ).comments(),
                }
            }),
    {
        let tree = fmt.tree;
        let node = tree.node(self.list);
        proof {
            assert(tree.node_ok(self.list.0 as int));
        }
        let content = tree.content_of(node);
        let n = content.len();
        let ghost f0 = *fmt;
        while self.pos < n
            invariant
                fmt.wf(),
                fmt.extends(&f0),
                fmt.comments() == f0.comments(),
                fmt.position().2 == f0.position().2,
                f0 == *old(fmt),
                f0.wf(),
                f0.tree_view() == *tree,
                self.list == old(self).list,
                self.comments_offset == old(self).comments_offset,
                old(self).pos <= self.pos <= n,
                self.list.0 < tree.nodes_view().len(),
                *node == tree.nodes_view()[self.list.0 as int],
                content@ == tree.node_content(self.list.0 as int),
                n == content@.len(),
                old(self).comments_offset_view() <= f0.comments().len(),
                *fmt == f0,
                trailing_comment(tree, f0.source_view(), content@, old(self).pos as int) == trailing_comment(
                    tree,
                    f0.source_view(),
                    content@,
                    self.pos as int,
                ),
                forall|k: int| 0 <= k < n ==> tree.entry_ok(self.list.0 as int, #[trigger] content@[k]),
            ensures
                fmt.wf(),
                *fmt == f0,
                f0 == *old(fmt),
                self.list == old(self).list,
                self.comments_offset == old(self).comments_offset,
                old(self).pos <= self.pos <= n,
                trailing_comment(tree, f0.source_view(), content@, old(self).pos as int) is None,
            decreases n - self.pos,
        {
            let i = self.pos;
            proof {
                assert(tree.node_ok(self.list.0 as int));
                let j = node.content_idx as int + i;
                assert(content@[i as int] == tree.content_view()[j]);
                assert(tree.entry_ok(self.list.0 as int, tree.content_view()[j]));
            }
            match content[i] {
                NodeOrToken::Token(_) => {
                    self.pos = i + 1;
                },
                NodeOrToken::Node(_) => {
                    break;
                },
                NodeOrToken::Trivia(trivia_id) => {
                    let (trivia, range) = tree.tokens().trivia_and_range(trivia_id);
                    match trivia {
                        Trivia::Whitespace => {
                            if newlines_in(fmt.source, range, 1) == 0 {
                                self.pos = i + 1;
                            } else {
                                break;
                            }
                        },
                        Trivia::LineComment => {
                            proof {
                                assert(content@[i as int] == NodeOrToken::Trivia(trivia_id));
                                assert(trailing_comment(tree, f0.source_view(), content@, i as int)
                                    == Some(trivia_id));
                            }
                            let line_num = fmt.line_num;
                            let line_offset = fmt.line_offset;
                            let event_idx = fmt.write_comment(range);
                            let ghost f1 = *fmt;
                            fmt.cache.comments.push(CommentPosition { line_num, line_offset, event_idx });
                            proof {
                                assert(fmt.events() == f1.events());
                                assert(fmt.ranges() == f1.ranges());
                                assert(fmt.strings() =~= f1.strings());
                                assert(fmt.comments() == f0.comments().push(
                                    CommentPosition { line_num, line_offset, event_idx },
                                ));
                                assert forall|k: int| 0 <= k < fmt.comments().len() implies (
                                #[trigger] fmt.comments()[k]).event_idx < fmt.events().len()
                                    && fmt.events()[fmt.comments()[k].event_idx as int] is Comment by {
                                    if k < f0.comments().len() {
                                        assert(fmt.comments()[k] == f0.comments()[k]);
                                        assert(fmt.events()[f0.comments()[k].event_idx as int]
                                            == f0.events()[f0.comments()[k].event_idx as int]);
                                    }
                                }
                            }
                            self.pos = i + 1;
                            fmt.new_line();
                            proof {
                                assert(fmt.comments().subrange(0, f0.comments().len() as int) =~= f0.comments());
                            }
                            return;
                        },
                        _ => {
                            break;
                        },
                    }
                },
            }
        }
        fmt.new_line();
        proof {
            assert(fmt.comments().subrange(0, f0.comments().len() as int) =~= f0.comments());
        }
    }

    /// Ends the walk: the line comments recorded after its elements are aligned in
    /// groups of consecutive lines whose comment columns differ by at most
    /// `comment_align`, each group to one column past its rightmost comment start; then
    /// their positions are dropped.
    pub fn finish(self, fmt: &mut Formatter, comment_align: u32)
        requires
            old(fmt).wf(),
            self.wf(old(fmt)),
        ensures
            final(fmt).wf(),
            final(fmt).tree_view() == old(fmt).tree_view(),
            final(fmt).source_view() == old(fmt).source_view(),
            final(fmt).line_ranges_view() == old(fmt).line_ranges_view(),
            final(fmt).ranges() == old(fmt).ranges(),
            final(fmt).strings() == old(fmt).strings(),
            final(fmt).position() == old(fmt).position(),
            final(fmt).events().len() == old(fmt).events().len(),
            forall|i: int|
                0 <= i < old(fmt).events().len() ==> same_but_spacing(
                    #[trigger] final(fmt).events()[i],
                    old(fmt).events()[i],
                ),
            forall|k: int|
                self.comments_offset_view() <= k < old(fmt).comments().len() ==> final(fmt).events()[(
                #[trigger] old(fmt).comments()[k]).event_idx as int]
                    == aligned_event(
                    old(fmt).events()[old(fmt).comments()[k].event_idx as int],
                    aligned_spacing(old(fmt).comments(), self.comments_offset_view(), k, comment_align),
                ),
            forall|i: int|
                0 <= i < old(fmt).events().len() && !walk_event(
                    old(fmt).comments(),
                    self.comments_offset_view(),
                    i,
                ) ==> #[trigger] final(fmt).events()[i] == old(fmt).events()[i],
            final(fmt).comments() == old(fmt).comments().subrange(0, self.comments_offset_view()),
    {
        let offset = self.comments_offset;
        let total = fmt.cache.comments.len();
        let ghost f0 = *fmt;
        let ghost cs = f0.comments();
        let mut group_start = offset;
        while group_start < total
            invariant
                fmt.wf(),
                f0.wf(),
                cs == f0.comments(),
                fmt.tree_view() == f0.tree_view(),
                fmt.source_view() == f0.source_view(),
                fmt.line_ranges_view() == f0.line_ranges_view(),
                fmt.ranges() == f0.ranges(),
                fmt.strings() == f0.strings(),
                fmt.position() == f0.position(),
                fmt.comments() == f0.comments(),
                fmt.events().len() == f0.events().len(),
                forall|i: int|
                    0 <= i < f0.events().len() ==> same_but_spacing(#[trigger] fmt.events()[i], f0.events()[i]),
                total == cs.len(),
                offset <= group_start <= total,
                forall|k: int|
                    group_start <= k < total ==> #[trigger] aligned_spacing(cs, offset as int, k, comment_align)
                        == aligned_spacing(cs, group_start as int, k, comment_align),
                forall|k: int|
                    offset <= k < group_start ==> fmt.events()[(#[trigger] cs[k]).event_idx as int]
                        == aligned_event(
                        f0.events()[cs[k].event_idx as int],
                        aligned_spacing(cs, offset as int, k, comment_align),
                    ),
                forall|i: int|
                    0 <= i < f0.events().len() && !walk_event(cs, offset as int, i) ==> #[trigger] fmt.events()[i]
                        == f0.events()[i],
                forall|k: int|
                    group_start <= k < total ==> fmt.events()[(#[trigger] cs[k]).event_idx as int]
                        == f0.events()[cs[k].event_idx as int],
            decreases total - group_start,
        {
            let (group_end, max_offset) = group_end_of(fmt, group_start, comment_align);
            let mut k = group_start;
            while k < group_end
                invariant
                    fmt.wf(),
                    f0.wf(),
                    cs == f0.comments(),
                    fmt.tree_view() == f0.tree_view(),
                    fmt.source_view() == f0.source_view(),
                    fmt.line_ranges_view() == f0.line_ranges_view(),
                    fmt.ranges() == f0.ranges(),
                    fmt.strings() == f0.strings(),
                    fmt.position() == f0.position(),
                    fmt.comments() == f0.comments(),
                    fmt.events().len() == f0.events().len(),
                    forall|i: int|
                        0 <= i < f0.events().len() ==> same_but_spacing(#[trigger] fmt.events()[i], f0.events()[i]),
                    total == cs.len(),
                    offset <= group_start <= k <= group_end <= total,
                    group_start < group_end,
                    group_at(cs, group_start as int, comment_align) == (group_end as int, max_offset),
                    forall|q: int| group_start <= q < group_end ==> (#[trigger] cs[q]).line_offset <= max_offset,
                    forall|q: int|
                        group_start <= q < total ==> #[trigger] aligned_spacing(cs, offset as int, q, comment_align)
                            == aligned_spacing(cs, group_start as int, q, comment_align),
                    forall|q: int|
                        offset <= q < k ==> fmt.events()[(#[trigger] cs[q]).event_idx as int]
                            == aligned_event(
                            f0.events()[cs[q].event_idx as int],
                            aligned_spacing(cs, offset as int, q, comment_align),
                        ),
                    forall|i: int|
                        0 <= i < f0.events().len() && !walk_event(cs, offset as int, i) ==> #[trigger] fmt.events()[i]
                            == f0.events()[i],
                    forall|q: int|
                        k <= q < total ==> fmt.events()[(#[trigger] cs[q]).event_idx as int]
                            == f0.events()[cs[q].event_idx as int],
                decreases group_end - k,
            {
                let comment = fmt.cache.comments[k];
                let extra: u32 = (max_offset - comment.line_offset).saturating_add(1);
                let spacing: u16 = (extra % 65536) as u16;
                let ghost e0 = fmt.events();
                proof {
                    assert(cs[k as int] == comment);
                    assert(aligned_spacing(cs, group_start as int, k as int, comment_align) == spacing);
                }
                fmt.set_comment_spacing(comment.event_idx, spacing);
                proof {
                    let ki = comment.event_idx as int;
                    assert forall|q: int|
                        offset <= q < k + 1 implies fmt.events()[(#[trigger] cs[q]).event_idx as int]
                        == aligned_event(
                        f0.events()[cs[q].event_idx as int],
                        aligned_spacing(cs, offset as int, q, comment_align),
                    ) by {
                        if q < k {
                            assert(cs[q].event_idx < cs[k as int].event_idx);
                        } else {
                            assert(e0[ki] == f0.events()[ki]);
                        }
                    }
                    assert forall|q: int|
                        k + 1 <= q < total implies fmt.events()[(#[trigger] cs[q]).event_idx as int]
                        == f0.events()[cs[q].event_idx as int] by {
                        assert(cs[k as int].event_idx < cs[q].event_idx);
                    }
                    assert forall|i: int|
                        0 <= i < f0.events().len() && !walk_event(cs, offset as int, i) implies #[trigger] fmt.events()[i]
                        == f0.events()[i] by {
                        if i == ki {
                            assert(walk_event(cs, offset as int, i)) by {
                                assert(offset <= k < cs.len() && cs[k as int].event_idx == i);
                            }
                        }
                    }
                }
                k = k + 1;
            }
            proof {
                assert forall|q: int|
                    group_end <= q < total implies #[trigger] aligned_spacing(cs, offset as int, q, comment_align)
                    == aligned_spacing(cs, group_end as int, q, comment_align) by {
                    assert(aligned_spacing(cs, offset as int, q, comment_align) == aligned_spacing(
                        cs,
                        group_start as int,
                        q,
                        comment_align,
                    ));
                }
            }
            group_start = group_end;
        }
        let ghost f1 = *fmt;
        fmt.cache.comments.truncate(offset);
        proof {
            assert(fmt.events() == f1.events());
            assert(fmt.ranges() == f1.ranges());
            assert(fmt.strings() =~= f1.strings());
            assert(fmt.comments() =~= f0.comments().subrange(0, offset as int));
        }
    }
}

/// The group of line comments of the list that starts at `gs`: its end and its
/// rightmost start column.
fn group_end_of(fmt: &Formatter, gs: usize, align: u32) -> (r: (usize, u32))
    requires
        fmt.wf(),
        gs < fmt.comments().len(),
    ensures
        gs < r.0 <= fmt.comments().len(),
        group_at(fmt.comments(), gs as int, align) == (r.0 as int, r.1),
        forall|q: int| gs <= q < r.0 ==> (#[trigger] fmt.comments()[q]).line_offset <= r.1,
{
    let ghost cs = fmt.comments();
    let total = fmt.cache.comments.len();
    let first = fmt.cache.comments[gs];
    let mut line_num = first.line_num;
    let mut min_offset = first.line_offset;
    let mut max_offset = first.line_offset;
    let mut ge = gs + 1;
    while ge < total
        invariant
            cs == fmt.comments(),
            total == cs.len(),
            gs < ge <= total,
            min_offset <= max_offset,
            forall|q: int| gs <= q < ge ==> min_offset <= (#[trigger] cs[q]).line_offset <= max_offset,
            group_scan(cs, ge as int, line_num, min_offset, max_offset, align) == group_at(cs, gs as int, align),
        ensures
            gs < ge <= total,
            forall|q: int| gs <= q < ge ==> (#[trigger] cs[q]).line_offset <= max_offset,
            group_scan(cs, ge as int, line_num, min_offset, max_offset, align) == group_at(cs, gs as int, align),
            group_scan(cs, ge as int, line_num, min_offset, max_offset, align) == (ge as int, max_offset),
        decreases total - ge,
    {
        let comment = fmt.cache.comments[ge];
        if !(line_num < u32::MAX && comment.line_num == line_num + 1) {
            break;
        }
        let new_min = if comment.line_offset < min_offset {
            comment.line_offset
        } else {
            min_offset
        };
        let new_max = if comment.line_offset > max_offset {
            comment.line_offset
        } else {
            max_offset
        };
        if new_max - new_min > align {
            break;
        }
        line_num = comment.line_num;
        min_offset = new_min;
        max_offset = new_max;
        ge = ge + 1;
    }
    (ge, max_offset)
}

/// The line comment positions from `gs` on, read as `finish` groups them: the end of the
/// group that starts with `cs[ge - 1]`'s line `line`, its columns so far spanning
/// `mn..=mx`.
pub open spec fn group_scan(cs: Seq<CommentPosition>, ge: int, line: u32, mn: u32, mx: u32, align: u32) -> (int, u32)
    decreases cs.len() - ge,
{
    if ge < 0 || ge >= cs.len() {
        (ge, mx)
    } else {
        let c = cs[ge];
        if !(line < u32::MAX && c.line_num == line + 1) {
            (ge, mx)
        } else {
            let nmn = if c.line_offset < mn {
                c.line_offset
            } else {
                mn
            };
            let nmx = if c.line_offset > mx {
                c.line_offset
            } else {
                mx
            };
            if nmx - nmn <= align {
                group_scan(cs, ge + 1, c.line_num, nmn, nmx, align)
            } else {
                (ge, mx)
            }
        }
    }
}

/// The group of line comments that starts at `gs`: comments on consecutive output lines
/// whose start columns stay within `align` of each other. Gives its end and its
/// rightmost start column.
pub open spec fn group_at(cs: Seq<CommentPosition>, gs: int, align: u32) -> (int, u32) {
    group_scan(cs, gs + 1, cs[gs].line_num, cs[gs].line_offset, cs[gs].line_offset, align)
}

/// Spaces before a comment that starts at column `off` so that it starts one column past
/// `mx`.
pub open spec fn spacing_for(mx: u32, off: u32) -> u16 {
    (sat_add((mx - off) as u32, 1) % 65536) as u16
}

/// Spacing of comment `k` when the comments are grouped from `gs` on.
pub open spec fn aligned_spacing(cs: Seq<CommentPosition>, gs: int, k: int, align: u32) -> u16
    decreases cs.len() - gs,
{
    if gs < 0 || gs >= cs.len() || k < gs {
        0
    } else {
        let g = group_at(cs, gs, align);
        if k < g.0 {
            spacing_for(g.1, cs[k].line_offset)
        } else if g.0 <= gs || g.0 > cs.len() {
            0
        } else {
            aligned_spacing(cs, g.0, k, align)
        }
    }
}

proof fn lemma_group_scan_max(
    cs: Seq<CommentPosition>,
    gs: int,
    ge: int,
    line: u32,
    mn: u32,
    mx: u32,
    align: u32,
)
    requires
        0 <= gs < ge,
        forall|q: int| gs <= q < ge && q < cs.len() ==> (#[trigger] cs[q]).line_offset <= mx,
    ensures
        ge <= group_scan(cs, ge, line, mn, mx, align).0,
        mx <= group_scan(cs, ge, line, mn, mx, align).1,
        forall|q: int|
            gs <= q < group_scan(cs, ge, line, mn, mx, align).0 && q < cs.len() ==> (#[trigger] cs[q]).line_offset
                <= group_scan(cs, ge, line, mn, mx, align).1,
    decreases cs.len() - ge,
{
    if ge < 0 || ge >= cs.len() {
    } else {
        let c = cs[ge];
        if line < u32::MAX && c.line_num == line + 1 {
            let nmn = if c.line_offset < mn {
                c.line_offset
            } else {
                mn
            };
            let nmx = if c.line_offset > mx {
                c.line_offset
            } else {
                mx
            };
            if nmx - nmn <= align {
                lemma_group_scan_max(cs, gs, ge + 1, c.line_num, nmn, nmx, align);
            }
        }
    }
}

/// The line comments of one aligned group all start in the same column, one past the
/// rightmost column where any of them was written (when that takes fewer than 65536
/// spaces).
pub proof fn law_group_comments_aligned(cs: Seq<CommentPosition>, gs: int, k: int, align: u32)
    requires
        0 <= gs <= k < group_at(cs, gs, align).0,
        k < cs.len(),
        group_at(cs, gs, align).1 - cs[k].line_offset + 1 < 65536,
    ensures
        cs[k].line_offset + aligned_spacing(cs, gs, k, align) == group_at(cs, gs, align).1 + 1,
{
    lemma_group_scan_max(
        cs,
        gs,
        gs + 1,
        cs[gs].line_num,
        cs[gs].line_offset,
        cs[gs].line_offset,
        align,
    );
    let g = group_at(cs, gs, align);
    assert(cs[k].line_offset <= g.1);
}

/// The comment event `e` with `spacing` spaces before it.
pub open spec fn aligned_event(e: FormatEvent, spacing: u16) -> FormatEvent {
    FormatEvent::Comment { spacing, range_idx: e->Comment_range_idx }
}

/// Event `i` is that of one of the line comments from `offset` on.
pub open spec fn walk_event(cs: Seq<CommentPosition>, offset: int, i: int) -> bool {
    exists|k: int| offset <= k < cs.len() && (#[trigger] cs[k]).event_idx == i
}

/// `a` is `b`, but for the spacing of a comment.
pub open spec fn same_but_spacing(a: FormatEvent, b: FormatEvent) -> bool {
    match (a, b) {
        (FormatEvent::Comment { range_idx: r1, .. }, FormatEvent::Comment { range_idx: r2, .. }) => r1 == r2,
        _ => a == b,
    }
}

impl<'syn> Formatter<'syn> {
    /// Sets the spacing of the comment event `event_idx`.
    fn set_comment_spacing(&mut self, event_idx: usize, spacing: u16)
        requires
            old(self).wf(),
            event_idx < old(self).events().len(),
            old(self).events()[event_idx as int] is Comment,
        ensures
            final(self).wf(),
            final(self).tree_view() == old(self).tree_view(),
            final(self).source_view() == old(self).source_view(),
            final(self).line_ranges_view() == old(self).line_ranges_view(),
            final(self).ranges() == old(self).ranges(),
            final(self).strings() == old(self).strings(),
            final(self).position() == old(self).position(),
            final(self).comments() == old(self).comments(),
            final(self).events() == old(self).events().update(
                event_idx as int,
                FormatEvent::Comment {
                    spacing,
                    range_idx: old(self).events()[event_idx as int]->Comment_range_idx,
                },
            ),
    {
        let ghost c0 = self.cache;
        let range_idx = match self.cache.events[event_idx] {
            FormatEvent::Comment { range_idx, .. } => range_idx,
            _ => 0,
        };
        self.cache.events.set(event_idx, FormatEvent::Comment { spacing, range_idx });
        proof {
            assert(self.strings() =~= c0.strings_view());
            assert forall|i: int| 0 <= i < self.events().len() implies event_ok(
                #[trigger] self.events()[i],
                self.ranges().len(),
                self.strings().len(),
            ) by {
                if i != event_idx {
                    assert(event_ok(c0.events_view()[i], c0.ranges_view().len(), c0.strings_view().len()));
                }
            }
        }
    }
}

/// The nodes of `c` whose kind is in `kinds`, in order.
pub open spec fn kind_nodes(tree: &SyntaxTree, c: Seq<NodeOrToken>, kinds: SyntaxSet) -> Seq<NodeID>
    decreases c.len(),
{
    if c.len() == 0 {
        Seq::empty()
    } else {
        let rest = kind_nodes(tree, c.drop_last(), kinds);
        match c.last() {
            NodeOrToken::Node(id) => if kinds.has(tree.nodes_view()[id.0 as int].kind) {
                rest.push(id)
            } else {
                rest
            },
            _ => rest,
        }
    }
}

/// Where node `id` starts in the source, if `find_range` finds its range.
pub open spec fn node_start(tree: &SyntaxTree, id: NodeID) -> Option<u32> {
    if first_token(tree, id.0 as int) is Some && last_token(tree, id.0 as int) is Some {
        Some(tree.token_list().range_at(first_token(tree, id.0 as int)->Some_0.0 as int).start.0)
    } else {
        None
    }
}

impl<'syn> Formatter<'syn> {
    /// Whether the elements of `kinds` in the content of `list` were written over several
    /// lines in the source: some element after the first starts outside the source line
    /// of the first one. That line, found from the current source line on, becomes the
    /// current one. No wrap where the first element or its line cannot be found.
    #[verifier::rlimit(80)]
    pub fn wrap_line_break_based(&mut self, list: NodeID, kinds: SyntaxSet) -> (r: bool)
        requires
            old(self).wf(),
            list.0 < old(self).tree_view().nodes_view().len(),
        ensures
            final(self).wf(),
            final(self).cache_view() == old(self).cache_view(),
            final(self).tree_view() == old(self).tree_view(),
            final(self).source_view() == old(self).source_view(),
            final(self).line_ranges_view() == old(self).line_ranges_view(),
            final(self).position().0 == old(self).position().0,
            final(self).position().1 == old(self).position().1,
            final(self).position().2 == old(self).position().2,
            ({
                let tree = old(self).tree_view();
                let els = kind_nodes(&tree, tree.node_content(list.0 as int), kinds);
                let lines = old(self).line_ranges_view();
                let l = final(self).position().3 as int;
                r ==> els.len() > 1 && node_start(&tree, els[0]) is Some && 0 <= l < lines.len()
                    && lines[l].start.0 <= node_start(&tree, els[0])->Some_0 < lines[l].end.0
                    && exists|j: int|
                    1 <= j < els.len() && node_start(&tree, els[j]) is Some && !(lines[l].start.0
                        <= node_start(&tree, els[j])->Some_0 < lines[l].end.0)
            }),
            ({
                let tree = old(self).tree_view();
                let els = kind_nodes(&tree, tree.node_content(list.0 as int), kinds);
                let lines = old(self).line_ranges_view();
                let l = final(self).position().3 as int;
                !r && els.len() > 0 && node_start(&tree, els[0]) is Some && 0 <= l < lines.len()
                    && lines[l].start.0 <= node_start(&tree, els[0])->Some_0 < lines[l].end.0
                    ==> forall|j: int|
                    1 <= j < els.len() && #[trigger] node_start(&tree, els[j]) is Some ==> lines[l].start.0
                        <= node_start(&tree, els[j])->Some_0 < lines[l].end.0
            }),
    {
        let tree = self.tree;
        let node = tree.node(list);
        proof {
            assert(tree.node_ok(list.0 as int));
        }
        let content = tree.content_of(node);
        let n = content.len();
        let ghost els_all = kind_nodes(tree, content@, kinds);
        // the first element
        let (first_idx, first) = match first_kind_node(tree, list, kinds) {
            Some(x) => x,
            None => {
                return false;
            },
        };
        let mut i = first_idx + 1;
        let ghost pre = content@.subrange(0, i as int);
        assert(kind_nodes(tree, pre, kinds) == seq![first]);
        proof {
            lemma_kind_nodes_prefix(tree, content@, kinds, i as int);
            let kp = kind_nodes(tree, pre, kinds);
            assert(kp.is_prefix_of(els_all));
            assert(kp.len() <= els_all.len());
            assert(kp =~= els_all.subrange(0, kp.len() as int));
            assert(kp[0] == els_all[0]);
            assert(els_all[0] == first);
        }
        let first_start = match find_range(tree, first) {
            Some(range) => range.start.0,
            None => {
                return false;
            },
        };
        let lines_len = self.line_ranges.len();
        if self.line_num_src as usize >= lines_len {
            return false;
        }
        let mut line_range = self.line_ranges[self.line_num_src as usize];
        while !(line_range.start.0 <= first_start && first_start < line_range.end.0)
            invariant
                self.wf(),
                *tree == self.tree_view(),
                lines_len == self.line_ranges_view().len(),
                (self.line_num_src as int) < lines_len,
                line_range == self.line_ranges_view()[self.line_num_src as int],
                self.cache_view() == old(self).cache_view(),
                self.line_ranges_view() == old(self).line_ranges_view(),
                self.tree_view() == old(self).tree_view(),
                self.source_view() == old(self).source_view(),
                self.position().0 == old(self).position().0,
                self.position().1 == old(self).position().1,
                self.position().2 == old(self).position().2,
                els_all.len() > 0,
                els_all[0] == first,
                els_all == kind_nodes(tree, content@, kinds),
                content@ == tree.node_content(list.0 as int),
                node_start(tree, first) == Some(first_start),
            decreases lines_len - self.line_num_src,
        {
            if self.line_num_src as usize + 1 >= lines_len || self.line_num_src == u32::MAX {
                return false;
            }
            self.line_num_src = self.line_num_src + 1;
            line_range = self.line_ranges[self.line_num_src as usize];
        }
        // any later element on another line
        proof {
            lemma_kind_nodes_prefix(tree, content@, kinds, i as int);
        }
        while i < n
            invariant
                self.wf(),
                *tree == self.tree_view(),
                self.cache_view() == old(self).cache_view(),
                self.line_ranges_view() == old(self).line_ranges_view(),
                self.tree_view() == old(self).tree_view(),
                self.source_view() == old(self).source_view(),
                self.position().0 == old(self).position().0,
                self.position().1 == old(self).position().1,
                self.position().2 == old(self).position().2,
                (self.line_num_src as int) < self.line_ranges_view().len(),
                line_range == self.line_ranges_view()[self.line_num_src as int],
                line_range.start.0 <= first_start < line_range.end.0,
                list.0 < tree.nodes_view().len(),
                *node == tree.nodes_view()[list.0 as int],
                content@ == tree.node_content(list.0 as int),
                n == content@.len(),
                0 < i <= n,
                kind_nodes(tree, content@.subrange(0, i as int), kinds).len() >= 1,
                kind_nodes(tree, content@.subrange(0, i as int), kinds)[0] == first,
                node_start(tree, first) == Some(first_start),
                kind_nodes(tree, content@.subrange(0, i as int), kinds).is_prefix_of(els_all),
                els_all == kind_nodes(tree, content@, kinds),
                forall|j: int|
                    1 <= j < kind_nodes(tree, content@.subrange(0, i as int), kinds).len()
                        && #[trigger] node_start(tree, els_all[j]) is Some ==> line_range.start.0
                        <= node_start(tree, els_all[j])->Some_0 < line_range.end.0,
            decreases n - i,
        {
            proof {
                assert(tree.node_ok(list.0 as int));
                let j = node.content_idx as int + i;
                assert(content@[i as int] == tree.content_view()[j]);
                assert(tree.entry_ok(list.0 as int, tree.content_view()[j]));
                assert(content@.subrange(0, i + 1).drop_last() =~= content@.subrange(0, i as int));
                lemma_kind_nodes_prefix(tree, content@, kinds, i + 1);
            }
            if let NodeOrToken::Node(id) = content[i] {
                if kinds.contains(tree.node(id).kind) {
                    if let Some(range) = find_range(tree, id) {
                        if !(line_range.start.0 <= range.start.0 && range.start.0 < line_range.end.0) {
                            proof {
                                let ks = kind_nodes(tree, content@.subrange(0, i + 1), kinds);
                                let jj = ks.len() - 1;
                                assert(ks[jj] == id);
                                assert(els_all[jj] == id);
                                assert(els_all[0] == first);
                            }
                            return true;
                        }
                    }
                }
            }
            proof {
                let ks0 = kind_nodes(tree, content@.subrange(0, i as int), kinds);
                let ks1 = kind_nodes(tree, content@.subrange(0, i + 1), kinds);
                if ks1.len() > ks0.len() {
                    let jj = ks1.len() - 1;
                    assert(ks1[jj] == els_all[jj]);
                    assert(ks1[jj] == content@[i as int]->Node_0);
                }
                assert forall|j: int| 0 <= j < ks0.len() implies ks1[j] == ks0[j] by {
                    assert(ks0[j] == els_all[j]);
                    assert(ks1[j] == els_all[j]);
                }
            }
            i = i + 1;
        }
        proof {
            assert(content@.subrange(0, n as int) =~= content@);
        }
        false
    }
}

/// The position and id of the first node of `kinds` in the content of `list`.
fn first_kind_node(tree: &SyntaxTree, list: NodeID, kinds: SyntaxSet) -> (r: Option<(usize, NodeID)>)
    requires
        tree.wf(),
        list.0 < tree.nodes_view().len(),
    ensures
        r matches Some((i, id)) ==> i < tree.node_content(list.0 as int).len() && list.0 < id.0
            < tree.nodes_view().len() && kind_nodes(tree, tree.node_content(list.0 as int).subrange(0, i + 1), kinds) == seq![id],
        r is None ==> kind_nodes(tree, tree.node_content(list.0 as int), kinds).len() == 0,
{
    let node = tree.node(list);
    proof {
        assert(tree.node_ok(list.0 as int));
    }
    let content = tree.content_of(node);
    let n = content.len();
    let mut i: usize = 0;
    while i < n
        invariant
            tree.wf(),
            list.0 < tree.nodes_view().len(),
            *node == tree.nodes_view()[list.0 as int],
            content@ == tree.node_content(list.0 as int),
            n == content@.len(),
            0 <= i <= n,
            kind_nodes(tree, content@.subrange(0, i as int), kinds).len() == 0,
        decreases n - i,
    {
        proof {
            assert(tree.node_ok(list.0 as int));
            let j = node.content_idx as int + i;
            assert(content@[i as int] == tree.content_view()[j]);
            assert(tree.entry_ok(list.0 as int, tree.content_view()[j]));
            assert(content@.subrange(0, i + 1).drop_last() =~= content@.subrange(0, i as int));
        }
        if let NodeOrToken::Node(id) = content[i] {
            if kinds.contains(tree.node(id).kind) {
                proof {
                    assert(kind_nodes(tree, content@.subrange(0, i as int), kinds) =~= Seq::<NodeID>::empty());
                    assert(kind_nodes(tree, content@.subrange(0, i + 1), kinds) =~= seq![id]);
                }
                return Some((i, id));
            }
        }
        i = i + 1;
    }
    proof {
        assert(content@.subrange(0, n as int) =~= content@);
    }
    None
}

proof fn lemma_kind_nodes_prefix(tree: &SyntaxTree, c: Seq<NodeOrToken>, kinds: SyntaxSet, i: int)
    requires
        0 <= i <= c.len(),
    ensures
        kind_nodes(tree, c.subrange(0, i), kinds).is_prefix_of(kind_nodes(tree, c, kinds)),
    decreases c.len() - i,
{
    if i < c.len() {
        lemma_kind_nodes_prefix(tree, c, kinds, i + 1);
        assert(c.subrange(0, i + 1).drop_last() =~= c.subrange(0, i));
    } else {
        assert(c.subrange(0, i) =~= c);
    }
}

/// Length of the Unicode whitespace character that ends `bytes[lo..hi]`, 0 if it ends
/// otherwise.
pub open spec fn ws_suffix(bytes: Seq<u8>, lo: int, hi: int) -> int {
    if hi - 1 >= lo && (bytes[hi - 1] == 32 || (9 <= bytes[hi - 1] <= 13)) {
        1
    } else if hi - 2 >= lo && bytes[hi - 2] == 0xC2 && (bytes[hi - 1] == 0x85 || bytes[hi - 1] == 0xA0) {
        2
    } else if hi - 3 >= lo && ((bytes[hi - 3] == 0xE1 && bytes[hi - 2] == 0x9A && bytes[hi - 1] == 0x80)
        || (bytes[hi - 3] == 0xE2 && bytes[hi - 2] == 0x80 && (bytes[hi - 1] <= 0x8A || bytes[hi - 1]
        == 0xA8 || bytes[hi - 1] == 0xA9 || bytes[hi - 1] == 0xAF) && bytes[hi - 1] >= 0x80) || (
    bytes[hi - 3] == 0xE2 && bytes[hi - 2] == 0x81 && bytes[hi - 1] == 0x9F) || (bytes[hi - 3]
        == 0xE3 && bytes[hi - 2] == 0x80 && bytes[hi - 1] == 0x80)) {
        3
    } else {
        0
    }
}

/// End of `bytes[lo..hi]` once its trailing whitespace is removed.
pub open spec fn trim_end(bytes: Seq<u8>, lo: int, hi: int) -> int
    decreases hi - lo,
{
    if hi <= lo {
        hi
    } else if ws_suffix(bytes, lo, hi) == 0 {
        hi
    } else {
        trim_end(bytes, lo, hi - ws_suffix(bytes, lo, hi))
    }
}

pub open spec fn spaces(n: nat) -> Seq<u8> {
    Seq::new(n, |i: int| 32u8)
}

/// The text that the event `e` stands for.
pub open spec fn event_text(e: FormatEvent, cache: &FormatterCache, source: Seq<u8>) -> Seq<u8> {
    match e {
        FormatEvent::Space => seq![32u8],
        FormatEvent::Newline => seq![10u8],
        FormatEvent::Char(c) => seq![c as u8],
        FormatEvent::Tab { count } => spaces((TAB_LEN as nat) * (count as nat)),
        FormatEvent::Range { range_idx } => {
            let r = cache.ranges_view()[range_idx as int];
            source.subrange(r.start.0 as int, r.end.0 as int)
        },
        FormatEvent::String { string_idx } => encode_utf8(cache.strings_view()[string_idx as int]),
        FormatEvent::Comment { spacing, range_idx } => {
            let r = cache.ranges_view()[range_idx as int];
            spaces(spacing as nat) + source.subrange(
                r.start.0 as int,
                trim_end(source, r.start.0 as int, r.end.0 as int),
            )
        },
    }
}

/// The text of the events `es`, one after the other.
pub open spec fn events_text(es: Seq<FormatEvent>, cache: &FormatterCache, source: Seq<u8>) -> Seq<u8>
    decreases es.len(),
{
    if es.len() == 0 {
        Seq::empty()
    } else {
        events_text(es.drop_last(), cache, source) + event_text(es.last(), cache, source)
    }
}

/// Length of the whitespace character that ends `bytes[lo..hi]`.
fn ws_suffix_len(bytes: &[u8], lo: usize, hi: usize) -> (r: usize)
    requires
        lo <= hi <= bytes@.len(),
    ensures
        r == ws_suffix(bytes@, lo as int, hi as int),
{
    if hi - lo >= 1 {
        let b = bytes[hi - 1];
        if b == 32 || (9 <= b && b <= 13) {
            return 1;
        }
    }
    if hi - lo >= 2 {
        let a = bytes[hi - 2];
        let b = bytes[hi - 1];
        if a == 0xC2 && (b == 0x85 || b == 0xA0) {
            return 2;
        }
    }
    if hi - lo >= 3 {
        let a = bytes[hi - 3];
        let b = bytes[hi - 2];
        let c = bytes[hi - 1];
        if (a == 0xE1 && b == 0x9A && c == 0x80) || (a == 0xE2 && b == 0x80 && (c <= 0x8A || c
            == 0xA8 || c == 0xA9 || c == 0xAF) && c >= 0x80) || (a == 0xE2 && b == 0x81 && c
            == 0x9F) || (a == 0xE3 && b == 0x80 && c == 0x80) {
            return 3;
        }
    }
    0
}

/// End of `source[lo..hi]` once its trailing whitespace is removed.
fn trim_end_exec(source: &[u8], lo: usize, hi: usize) -> (r: usize)
    requires
        lo <= hi <= source@.len(),
    ensures
        lo <= r <= hi,
        r == trim_end(source@, lo as int, hi as int),
{
    let mut end = hi;
    while end > lo && ws_suffix_len(source, lo, end) != 0
        invariant
            lo <= end <= hi <= source@.len(),
            trim_end(source@, lo as int, end as int) == trim_end(source@, lo as int, hi as int),
        decreases end - lo,
    {
        end = end - ws_suffix_len(source, lo, end);
    }
    end
}

/// Appends `n` spaces to `out`.
fn push_spaces(out: &mut Vec<u8>, n: usize)
    ensures
        final(out)@ == old(out)@ + spaces(n as nat),
{
    let mut i: usize = 0;
    while i < n
        invariant
            0 <= i <= n,
            out@ == old(out)@ + spaces(i as nat),
        decreases n - i,
    {
        out.push(32u8);
        proof {
            assert(out@ =~= old(out)@ + spaces((i + 1) as nat));
        }
        i = i + 1;
    }
}

/// Appends `source[lo..hi]` to `out`.
fn push_bytes(out: &mut Vec<u8>, source: &[u8], lo: usize, hi: usize)
    requires
        lo <= hi <= source@.len(),
    ensures
        final(out)@ == old(out)@ + source@.subrange(lo as int, hi as int),
{
    let mut i = lo;
    while i < hi
        invariant
            lo <= i <= hi <= source@.len(),
            out@ == old(out)@ + source@.subrange(lo as int, i as int),
        decreases hi - i,
    {
        out.push(source[i]);
        proof {
            assert(out@ =~= old(out)@ + source@.subrange(lo as int, i + 1));
        }
        i = i + 1;
    }
}

/// Appends the text of the event `e` to `out`.
fn render_event(out: &mut Vec<u8>, e: FormatEvent, cache: &FormatterCache, source: &[u8])
    requires
        cache.wf(source@.len()),
        event_ok(e, cache.ranges_view().len(), cache.strings_view().len()),
    ensures
        final(out)@ == old(out)@ + event_text(e, cache, source@),
{
    match e {
        FormatEvent::Space => {
            out.push(32u8);
        },
        FormatEvent::Newline => {
            out.push(10u8);
        },
        FormatEvent::Char(c) => {
            out.push(c as u8);
        },
        FormatEvent::Tab { count } => {
            let mut k: u32 = 0;
            while k < count
                invariant
                    0 <= k <= count,
                    out@ == old(out)@ + spaces((TAB_LEN as nat) * (k as nat)),
                decreases count - k,
            {
                push_spaces(out, TAB_LEN as usize);
                proof {
                    assert(spaces((TAB_LEN as nat) * (k as nat)) + spaces(TAB_LEN as nat) =~= spaces((TAB_LEN as nat) * ((k + 1) as nat)));
                }
                k = k + 1;
            }
        },
        FormatEvent::Range { range_idx } => {
            let r = cache.range(range_idx);
            push_bytes(out, source, r.start.0 as usize, r.end.0 as usize);
        },
        FormatEvent::String { string_idx } => {
            let text = cache.string(string_idx);
            let bytes = text.as_bytes();
            push_bytes(out, bytes, 0, bytes.len());
            proof {
                assert(bytes@.subrange(0, bytes@.len() as int) =~= bytes@);
            }
        },
        FormatEvent::Comment { spacing, range_idx } => {
            push_spaces(out, spacing as usize);
            let r = cache.range(range_idx);
            let lo = r.start.0 as usize;
            let hi = trim_end_exec(source, lo, r.end.0 as usize);
            push_bytes(out, source, lo, hi);
            proof {
                assert(out@ =~= old(out)@ + event_text(e, cache, source@));
            }
        },
    }
}

/// The formatted text that the events of `cache` stand for, over the source `source`.
pub fn render(cache: &FormatterCache, source: &[u8]) -> (r: Vec<u8>)
    requires
        cache.wf(source@.len()),
    ensures
        r@ == events_text(cache.events_view(), cache, source@),
{
    let events = cache.events();
    let mut out: Vec<u8> = Vec::new();
    let mut i: usize = 0;
    while i < events.len()
        invariant
            cache.wf(source@.len()),
            events@ == cache.events_view(),
            0 <= i <= events@.len(),
            out@ == events_text(events@.subrange(0, i as int), cache, source@),
        decreases events@.len() - i,
    {
        proof {
            assert(events@.subrange(0, i + 1).drop_last() =~= events@.subrange(0, i as int));
        }
        render_event(&mut out, events[i], cache, source);
        i = i + 1;
    }
    proof {
        assert(events@.subrange(0, i as int) =~= events@);
    }
    out
}

/// The run only wrote output: same tree, source and line ranges, the same recorded
/// comments, and the indentation depth back where it was.
/// The output only grew: each earlier event is kept, but for a comment's spacing.
pub open spec fn events_grow(new: Seq<FormatEvent>, old: Seq<FormatEvent>) -> bool {
    &&& new.len() >= old.len()
    &&& forall|i: int| 0 <= i < old.len() ==> same_but_spacing(#[trigger] new[i], old[i])
}

pub open spec fn fmt_frame(new: &Formatter, old: &Formatter) -> bool {
    &&& new.wf()
    &&& events_grow(new.events(), old.events())
    &&& new.tree_view() == old.tree_view()
    &&& new.source_view() == old.source_view()
    &&& new.line_ranges_view() == old.line_ranges_view()
    &&& new.comments() == old.comments()
    &&& new.position().2 == old.position().2
}

/// A test on a token: one kind, or any binary or assignment operator.
#[derive(Copy, Clone, PartialEq, Eq, Debug, Structural)]
pub enum TokenTest {
    Is(Token),
    BinOp,
    AssignOp,
    UnOp,
    BasicType,
}

pub open spec fn token_test(test: TokenTest, t: Token) -> bool {
    match test {
        TokenTest::Is(k) => t == k,
        TokenTest::BinOp => spec_as_bin_op(t) is Some,
        TokenTest::AssignOp => spec_as_assign_op(t) is Some,
        TokenTest::UnOp => spec_as_un_op(t) is Some,
        TokenTest::BasicType => spec_as_basic_type(t) is Some,
    }
}

fn test_token(test: TokenTest, t: Token) -> (r: bool)
    ensures
        r == token_test(test, t),
{
    match test {
        TokenTest::Is(k) => t == k,
        TokenTest::BinOp => t.as_bin_op().is_some(),
        TokenTest::AssignOp => t.as_assign_op().is_some(),
        TokenTest::UnOp => t.as_un_op().is_some(),
        TokenTest::BasicType => t.as_basic_type().is_some(),
    }
}

/// Where to look for a child node relative to the tokens of a content.
#[derive(Copy, Clone, PartialEq, Eq, Debug, Structural)]
pub enum Around {
    /// The first such node.
    Any,
    /// The first such node, unless a token passing the test comes first.
    Before(TokenTest),
    /// The first such node after the first token passing the test.
    After(TokenTest),
}


/// The first node of `kinds` in `c`, looked for as `around` says; `found` tells whether
/// the token that `After` waits for was seen already.
pub open spec fn child_scan(
    tree: &SyntaxTree,
    c: Seq<NodeOrToken>,
    kinds: SyntaxSet,
    around: Around,
    found: bool,
) -> Option<NodeID>
    decreases c.len(),
{
    if c.len() == 0 {
        None
    } else {
        let rest = c.subrange(1, c.len() as int);
        match c[0] {
            NodeOrToken::Node(x) => if found && kinds.has(tree.nodes_view()[x.0 as int].kind) {
                Some(x)
            } else {
                child_scan(tree, rest, kinds, around, found)
            },
            NodeOrToken::Token(t) => {
                let tok = tree.token_list().tokens_view()[t.0 as int];
                match around {
                    Around::Any => child_scan(tree, rest, kinds, around, found),
                    Around::Before(test) => if token_test(test, tok) {
                        None
                    } else {
                        child_scan(tree, rest, kinds, around, found)
                    },
                    Around::After(test) => child_scan(
                        tree,
                        rest,
                        kinds,
                        around,
                        found || token_test(test, tok),
                    ),
                }
            },
            NodeOrToken::Trivia(_) => child_scan(tree, rest, kinds, around, found),
        }
    }
}

/// The child of node `id` that `child` finds.
pub open spec fn child_of(tree: &SyntaxTree, id: int, kinds: SyntaxSet, around: Around) -> Option<NodeID> {
    child_scan(tree, tree.node_content(id), kinds, around, !(around is After))
}

/// The first token of `c` that passes `test`.
pub open spec fn first_passing(tree: &SyntaxTree, c: Seq<NodeOrToken>, test: TokenTest) -> Option<TokenID>
    decreases c.len(),
{
    if c.len() == 0 {
        None
    } else {
        match c[0] {
            NodeOrToken::Token(t) => if token_test(test, tree.token_list().tokens_view()[t.0 as int]) {
                Some(t)
            } else {
                first_passing(tree, c.subrange(1, c.len() as int), test)
            },
            _ => first_passing(tree, c.subrange(1, c.len() as int), test),
        }
    }
}

/// Position, from `from` on, of the first node of `kinds` in `c`.
pub open spec fn next_kind_pos(tree: &SyntaxTree, c: Seq<NodeOrToken>, kinds: SyntaxSet, from: int) -> Option<int>
    decreases c.len() - from,
{
    if from < 0 || from >= c.len() {
        None
    } else if c[from] is Node && kinds.has(tree.nodes_view()[c[from]->Node_0.0 as int].kind) {
        Some(from)
    } else {
        next_kind_pos(tree, c, kinds, from + 1)
    }
}

/// The first child of node `id` whose kind is in `kinds`, looked for as `around` says.
fn child(fmt: &Formatter, id: NodeID, kinds: SyntaxSet, around: Around) -> (r: Option<NodeID>)
    requires
        fmt.wf(),
        id.0 < fmt.tree_view().nodes_view().len(),
    ensures
        r matches Some(c) ==> id.0 < c.0 < fmt.tree_view().nodes_view().len(),
        r == child_of(&fmt.tree_view(), id.0 as int, kinds, around),
{
    let tree = fmt.tree;
    let node = tree.node(id);
    proof {
        assert(tree.node_ok(id.0 as int));
    }
    let content = tree.content_of(node);
    let n = content.len();
    let mut found = match around {
        Around::After(_) => false,
        _ => true,
    };
    let mut i: usize = 0;
    assert(content@.subrange(0, n as int) =~= content@);
    while i < n
        invariant
            tree.wf(),
            lexed_wf(&tree.token_list(), fmt.source_view().len() as int),
            *tree == fmt.tree_view(),
            id.0 < tree.nodes_view().len(),
            *node == tree.nodes_view()[id.0 as int],
            content@ == tree.node_content(id.0 as int),
            n == content@.len(),
            0 <= i <= n,
            child_of(tree, id.0 as int, kinds, around) == child_scan(
                tree,
                content@.subrange(i as int, n as int),
                kinds,
                around,
                found,
            ),
            forall|k: int| 0 <= k < n ==> tree.entry_ok(id.0 as int, #[trigger] content@[k]),
        decreases n - i,
    {
        proof {
            let t = content@.subrange(i as int, n as int);
            assert(t.subrange(1, t.len() as int) =~= content@.subrange(i + 1, n as int));
            assert(t[0] == content@[i as int]);
        }
        proof {
            assert(tree.node_ok(id.0 as int));
            let j = node.content_idx as int + i;
            assert(content@[i as int] == tree.content_view()[j]);
            assert(tree.entry_ok(id.0 as int, tree.content_view()[j]));
        }
        match content[i] {
            NodeOrToken::Node(c) => {
                if found && kinds.contains(tree.node(c).kind) {
                    return Some(c);
                }
            },
            NodeOrToken::Token(t) => {
                let token = tree.tokens().token(t);
                match around {
                    Around::Any => {},
                    Around::Before(test) => {
                        if test_token(test, token) {
                            return None;
                        }
                    },
                    Around::After(test) => {
                        if !found && test_token(test, token) {
                            found = true;
                        }
                    },
                }
            },
            NodeOrToken::Trivia(_) => {},
        }
        i = i + 1;
    }
    None
}

/// The first child of node `id` at content position `from` or later whose kind is in
/// `kinds`, with the position after it.
fn next_child(fmt: &Formatter, id: NodeID, kinds: SyntaxSet, from: usize) -> (r: Option<(usize, NodeID)>)
    requires
        fmt.wf(),
        id.0 < fmt.tree_view().nodes_view().len(),
    ensures
        r matches Some((p, c)) ==> p > from && p <= fmt.tree_view().node_content(id.0 as int).len()
            && id.0 < c.0 < fmt.tree_view().nodes_view().len(),
        r matches Some((p, c)) ==> next_kind_pos(
            &fmt.tree_view(),
            fmt.tree_view().node_content(id.0 as int),
            kinds,
            from as int,
        ) == Some(p - 1) && fmt.tree_view().node_content(id.0 as int)[p - 1] == NodeOrToken::Node(c),
        r is None ==> next_kind_pos(
            &fmt.tree_view(),
            fmt.tree_view().node_content(id.0 as int),
            kinds,
            from as int,
        ) is None,
{
    let tree = fmt.tree;
    let node = tree.node(id);
    proof {
        assert(tree.node_ok(id.0 as int));
    }
    let content = tree.content_of(node);
    let n = content.len();
    let mut i = from;
    while i < n
        invariant
            tree.wf(),
            *tree == fmt.tree_view(),
            id.0 < tree.nodes_view().len(),
            *node == tree.nodes_view()[id.0 as int],
            content@ == tree.node_content(id.0 as int),
            n == content@.len(),
            from <= i,
            next_kind_pos(tree, content@, kinds, from as int) == next_kind_pos(
                tree,
                content@,
                kinds,
                i as int,
            ),
        decreases n - i,
    {
        proof {
            assert(tree.node_ok(id.0 as int));
            let j = node.content_idx as int + i;
            assert(content@[i as int] == tree.content_view()[j]);
            assert(tree.entry_ok(id.0 as int, tree.content_view()[j]));
        }
        if let NodeOrToken::Node(c) = content[i] {
            if kinds.contains(tree.node(c).kind) {
                return Some((i + 1, c));
            }
        }
        i = i + 1;
    }
    None
}

/// Source range of the first token of node `id` passing `test`.
fn find_token(fmt: &Formatter, id: NodeID, test: TokenTest) -> (r: Option<(Token, TextRange)>)
    requires
        fmt.wf(),
        id.0 < fmt.tree_view().nodes_view().len(),
    ensures
        r matches Some((t, range)) ==> token_test(test, t) && range.start.0 <= range.end.0
            <= fmt.source_view().len(),
        first_passing(&fmt.tree_view(), fmt.tree_view().node_content(id.0 as int), test) matches Some(
            t,
        ) ==> r == Some(
            (
                fmt.tree_view().token_list().tokens_view()[t.0 as int],
                fmt.tree_view().token_list().range_at(t.0 as int),
            ),
        ),
        first_passing(&fmt.tree_view(), fmt.tree_view().node_content(id.0 as int), test) is None
            ==> r is None,
{
    let tree = fmt.tree;
    let node = tree.node(id);
    proof {
        assert(tree.node_ok(id.0 as int));
    }
    let content = tree.content_of(node);
    let n = content.len();
    let mut i: usize = 0;
    assert(content@.subrange(0, n as int) =~= content@);
    while i < n
        invariant
            tree.wf(),
            lexed_wf(&tree.token_list(), fmt.source_view().len() as int),
            *tree == fmt.tree_view(),
            id.0 < tree.nodes_view().len(),
            *node == tree.nodes_view()[id.0 as int],
            content@ == tree.node_content(id.0 as int),
            n == content@.len(),
            0 <= i <= n,
            first_passing(tree, content@, test) == first_passing(
                tree,
                content@.subrange(i as int, n as int),
                test,
            ),
        decreases n - i,
    {
        proof {
            let t = content@.subrange(i as int, n as int);
            assert(t.subrange(1, t.len() as int) =~= content@.subrange(i + 1, n as int));
            assert(t[0] == content@[i as int]);
            assert(tree.node_ok(id.0 as int));
            let j = node.content_idx as int + i;
            assert(content@[i as int] == tree.content_view()[j]);
            assert(tree.entry_ok(id.0 as int, tree.content_view()[j]));
        }
        if let NodeOrToken::Token(t) = content[i] {
            let (token, range) = tree.tokens().token_and_range(t);
            if test_token(test, token) {
                proof {
                    assert(tree.token_list().range_at(t.0 as int).wf());
                }
                return Some((token, range));
            }
        }
        i = i + 1;
    }
    None
}

/// Node `id` holds a `tok` token.
fn has_token(fmt: &Formatter, id: NodeID, tok: Token) -> (r: bool)
    requires
        fmt.wf(),
        id.0 < fmt.tree_view().nodes_view().len(),
    ensures
        r == first_passing(
            &fmt.tree_view(),
            fmt.tree_view().node_content(id.0 as int),
            TokenTest::Is(tok),
        ) is Some,
{
    find_token(fmt, id, TokenTest::Is(tok)).is_some()
}

/// The first token of node `id` that names a basic type, with that type.
fn find_basic_type(fmt: &Formatter, id: NodeID) -> (r: Option<BasicType>)
    requires
        fmt.wf(),
        id.0 < fmt.tree_view().nodes_view().len(),
    ensures
        r == (match first_passing(
            &fmt.tree_view(),
            fmt.tree_view().node_content(id.0 as int),
            TokenTest::BasicType,
        ) {
            Some(t) => spec_as_basic_type(fmt.tree_view().token_list().tokens_view()[t.0 as int]),
            None => None::<BasicType>,
        }),
{
    match find_token(fmt, id, TokenTest::BasicType) {
        Some((t, _)) => t.as_basic_type(),
        None => None,
    }
}

/// The first token of node `id` that is a unary operator, with that operator.
fn find_un_op(fmt: &Formatter, id: NodeID) -> (r: Option<UnOp>)
    requires
        fmt.wf(),
        id.0 < fmt.tree_view().nodes_view().len(),
    ensures
        r == (match first_passing(
            &fmt.tree_view(),
            fmt.tree_view().node_content(id.0 as int),
            TokenTest::UnOp,
        ) {
            Some(t) => spec_as_un_op(fmt.tree_view().token_list().tokens_view()[t.0 as int]),
            None => None::<UnOp>,
        }),
{
    match find_token(fmt, id, TokenTest::UnOp) {
        Some((t, _)) => t.as_un_op(),
        None => None,
    }
}

/// The first token of node `id` that is a binary operator, with that operator.
fn find_bin_op(fmt: &Formatter, id: NodeID) -> (r: Option<BinOp>)
    requires
        fmt.wf(),
        id.0 < fmt.tree_view().nodes_view().len(),
    ensures
        r == (match first_passing(
            &fmt.tree_view(),
            fmt.tree_view().node_content(id.0 as int),
            TokenTest::BinOp,
        ) {
            Some(t) => spec_as_bin_op(fmt.tree_view().token_list().tokens_view()[t.0 as int]),
            None => None::<BinOp>,
        }),
{
    match find_token(fmt, id, TokenTest::BinOp) {
        Some((t, _)) => t.as_bin_op(),
        None => None,
    }
}

/// The first token of node `id` that is an assignment operator, with that operator.
fn find_assign_op(fmt: &Formatter, id: NodeID) -> (r: Option<AssignOp>)
    requires
        fmt.wf(),
        id.0 < fmt.tree_view().nodes_view().len(),
    ensures
        r == (match first_passing(
            &fmt.tree_view(),
            fmt.tree_view().node_content(id.0 as int),
            TokenTest::AssignOp,
        ) {
            Some(t) => spec_as_assign_op(fmt.tree_view().token_list().tokens_view()[t.0 as int]),
            None => None::<AssignOp>,
        }),
{
    match find_token(fmt, id, TokenTest::AssignOp) {
        Some((t, _)) => t.as_assign_op(),
        None => None,
    }
}

fn kind_of(fmt: &Formatter, id: NodeID) -> (r: SyntaxKind)
    requires
        id.0 < fmt.tree_view().nodes_view().len(),
    ensures
        r == fmt.tree_view().nodes_view()[id.0 as int].kind,
{
    fmt.tree.node(id).kind
}

/// A kind of type node.
pub open spec fn is_type_kind(k: SyntaxKind) -> bool {
    k == SyntaxKind::TYPE_BASIC || k == SyntaxKind::TYPE_CUSTOM || k == SyntaxKind::TYPE_REFERENCE || k == SyntaxKind::TYPE_MULTI_REFERENCE || k == SyntaxKind::TYPE_PROCEDURE || k == SyntaxKind::TYPE_ARRAY_SLICE || k == SyntaxKind::TYPE_ARRAY_STATIC
}

/// A kind of literal node.
pub open spec fn is_lit_kind(k: SyntaxKind) -> bool {
    k == SyntaxKind::LIT_VOID || k == SyntaxKind::LIT_NULL || k == SyntaxKind::LIT_BOOL || k == SyntaxKind::LIT_INT || k == SyntaxKind::LIT_FLOAT || k == SyntaxKind::LIT_CHAR || k == SyntaxKind::LIT_STRING
}

/// A kind of statement node.
pub open spec fn is_stmt_kind(k: SyntaxKind) -> bool {
    k == SyntaxKind::STMT_BREAK || k == SyntaxKind::STMT_CONTINUE || k == SyntaxKind::STMT_RETURN || k == SyntaxKind::STMT_DEFER || k == SyntaxKind::STMT_FOR || k == SyntaxKind::STMT_LOCAL || k == SyntaxKind::STMT_ASSIGN || k == SyntaxKind::STMT_EXPR_SEMI || k == SyntaxKind::STMT_EXPR_TAIL || k == SyntaxKind::STMT_WITH_DIRECTIVE
}

/// A kind of pattern node.
pub open spec fn is_pat_kind(k: SyntaxKind) -> bool {
    k == SyntaxKind::PAT_WILD || k == SyntaxKind::PAT_LIT || k == SyntaxKind::PAT_ITEM || k == SyntaxKind::PAT_VARIANT || k == SyntaxKind::PAT_OR
}

/// A kind of directive node.
pub open spec fn is_directive_kind(k: SyntaxKind) -> bool {
    k == SyntaxKind::DIRECTIVE_SIMPLE || k == SyntaxKind::DIRECTIVE_WITH_PARAMS
}

/// A kind of expression node: literals and directives included.
pub open spec fn is_expr_kind(k: SyntaxKind) -> bool {
    k == SyntaxKind::EXPR_PAREN || k == SyntaxKind::EXPR_IF || k == SyntaxKind::BLOCK || k == SyntaxKind::EXPR_MATCH || k == SyntaxKind::EXPR_FIELD || k == SyntaxKind::EXPR_INDEX || k == SyntaxKind::EXPR_SLICE || k == SyntaxKind::EXPR_CALL || k == SyntaxKind::EXPR_CAST || k == SyntaxKind::EXPR_ITEM || k == SyntaxKind::EXPR_VARIANT || k == SyntaxKind::EXPR_STRUCT_INIT || k == SyntaxKind::EXPR_ARRAY_INIT || k == SyntaxKind::EXPR_ARRAY_REPEAT || k == SyntaxKind::EXPR_DEREF || k == SyntaxKind::EXPR_ADDRESS || k == SyntaxKind::EXPR_UNARY || k == SyntaxKind::EXPR_BINARY || is_lit_kind(k) || is_directive_kind(k)
}

fn kinds_type() -> (r: SyntaxSet)
    ensures
        forall|k: SyntaxKind| #[trigger] r.has(k) <==> is_type_kind(k),
{
    SyntaxSet::new(
        &[
            SyntaxKind::TYPE_BASIC,
            SyntaxKind::TYPE_CUSTOM,
            SyntaxKind::TYPE_REFERENCE,
            SyntaxKind::TYPE_MULTI_REFERENCE,
            SyntaxKind::TYPE_PROCEDURE,
            SyntaxKind::TYPE_ARRAY_SLICE,
            SyntaxKind::TYPE_ARRAY_STATIC,
        ],
    )
}

fn kinds_lit() -> (r: SyntaxSet)
    ensures
        forall|k: SyntaxKind| #[trigger] r.has(k) <==> is_lit_kind(k),
{
    SyntaxSet::new(
        &[
            SyntaxKind::LIT_VOID,
            SyntaxKind::LIT_NULL,
            SyntaxKind::LIT_BOOL,
            SyntaxKind::LIT_INT,
            SyntaxKind::LIT_FLOAT,
            SyntaxKind::LIT_CHAR,
            SyntaxKind::LIT_STRING,
        ],
    )
}

fn kinds_expr() -> (r: SyntaxSet)
    ensures
        forall|k: SyntaxKind| #[trigger] r.has(k) <==> is_expr_kind(k),
{
    SyntaxSet::new(
        &[
            SyntaxKind::EXPR_PAREN,
            SyntaxKind::EXPR_IF,
            SyntaxKind::BLOCK,
            SyntaxKind::EXPR_MATCH,
            SyntaxKind::EXPR_FIELD,
            SyntaxKind::EXPR_INDEX,
            SyntaxKind::EXPR_SLICE,
            SyntaxKind::EXPR_CALL,
            SyntaxKind::EXPR_CAST,
            SyntaxKind::EXPR_ITEM,
            SyntaxKind::EXPR_VARIANT,
            SyntaxKind::EXPR_STRUCT_INIT,
            SyntaxKind::EXPR_ARRAY_INIT,
            SyntaxKind::EXPR_ARRAY_REPEAT,
            SyntaxKind::EXPR_DEREF,
            SyntaxKind::EXPR_ADDRESS,
            SyntaxKind::EXPR_UNARY,
            SyntaxKind::EXPR_BINARY,
        ],
    ).combine(kinds_lit()).combine(SyntaxSet::new(&[SyntaxKind::DIRECTIVE_SIMPLE, SyntaxKind::DIRECTIVE_WITH_PARAMS]))
}

fn kinds_stmt() -> (r: SyntaxSet)
    ensures
        forall|k: SyntaxKind| #[trigger] r.has(k) <==> is_stmt_kind(k),
{
    SyntaxSet::new(
        &[
            SyntaxKind::STMT_BREAK,
            SyntaxKind::STMT_CONTINUE,
            SyntaxKind::STMT_RETURN,
            SyntaxKind::STMT_DEFER,
            SyntaxKind::STMT_FOR,
            SyntaxKind::STMT_LOCAL,
            SyntaxKind::STMT_ASSIGN,
            SyntaxKind::STMT_EXPR_SEMI,
            SyntaxKind::STMT_EXPR_TAIL,
            SyntaxKind::STMT_WITH_DIRECTIVE,
        ],
    )
}

fn kinds_pat() -> (r: SyntaxSet)
    ensures
        forall|k: SyntaxKind| #[trigger] r.has(k) <==> is_pat_kind(k),
{
    SyntaxSet::new(
        &[
            SyntaxKind::PAT_WILD,
            SyntaxKind::PAT_LIT,
            SyntaxKind::PAT_ITEM,
            SyntaxKind::PAT_VARIANT,
            SyntaxKind::PAT_OR,
        ],
    )
}

fn kinds_directive() -> (r: SyntaxSet)
    ensures
        forall|k: SyntaxKind| #[trigger] r.has(k) <==> is_directive_kind(k),
{
    SyntaxSet::new(&[SyntaxKind::DIRECTIVE_SIMPLE, SyntaxKind::DIRECTIVE_WITH_PARAMS])
}

fn one(kind: SyntaxKind) -> (r: SyntaxSet)
    ensures
        forall|k: SyntaxKind| #[trigger] r.has(k) <==> k == kind,
{
    SyntaxSet::new(&[kind])
}

/// What the elements of an interleaved list are, which decides how each is written and
/// how far apart trailing comments may be and still be aligned.
#[derive(Copy, Clone, PartialEq, Eq, Debug, Structural)]
pub enum ListElement {
    Item,
    Variant,
    Field,
    Stmt,
    Expr,
    MatchArm,
    FieldInit,
}

/// How far apart the start columns of aligned trailing comments may be, by list.
pub open spec fn spec_comment_align(element: ListElement) -> u32 {
    match element {
        ListElement::Item => 36,
        ListElement::Variant => 24,
        ListElement::Field => 24,
        _ => 0,
    }
}

fn comment_align(element: ListElement) -> (r: u32)
    ensures
        r == spec_comment_align(element),
{
    match element {
        ListElement::Item => 36,
        ListElement::Variant => 24,
        ListElement::Field => 24,
        _ => 0,
    }
}

/// Writes the elements of the list node `list`, each on its own line, with the
/// comments between them and the blank lines kept, and aligns their trailing comments.
fn interleaved_node_list(fmt: &mut Formatter, list: NodeID, element: ListElement)
    requires
        old(fmt).wf(),
        list.0 < old(fmt).tree_view().nodes_view().len(),
        old(fmt).position().2 <= list.0 + 2,
    ensures
        fmt_frame(final(fmt), old(fmt)),
    decreases old(fmt).tree_view().nodes_view().len() - list.0, 0nat,
{
    let ghost f0 = *fmt;
    let mut walk = InterleaveWalk::new(fmt, list);
    let ghost n = fmt.tree_view().node_content(list.0 as int).len();
    loop
        invariant
            fmt.wf(),
            walk.wf(fmt),
            walk.list_view() == list,
            walk.comments_offset_view() == f0.comments().len(),
            fmt.tree_view() == f0.tree_view(),
            fmt.source_view() == f0.source_view(),
            fmt.line_ranges_view() == f0.line_ranges_view(),
            fmt.comments().len() >= f0.comments().len(),
            fmt.comments().subrange(0, f0.comments().len() as int) == f0.comments(),
            fmt.position().2 == f0.position().2,
            events_grow(fmt.events(), f0.events()),
            f0 == *old(fmt),
            fmt.position().2 <= list.0 + 2,
            n == fmt.tree_view().node_content(list.0 as int).len(),
        decreases n - walk.pos_view(),
    {
        let ghost f1 = *fmt;
        match walk.next_element(fmt) {
            None => {
                break;
            },
            Some(el) => {
                let ghost f2 = *fmt;
                match element {
                    ListElement::Item => item(fmt, el),
                    ListElement::Variant => variant(fmt, el),
                    ListElement::Field => field(fmt, el),
                    ListElement::Stmt => stmt(fmt, el, true),
                    ListElement::Expr => {
                        fmt.tab_depth();
                        expr(fmt, el);
                        fmt.write(',');
                    },
                    ListElement::MatchArm => match_arm(fmt, el),
                    ListElement::FieldInit => {
                        fmt.tab_depth();
                        field_init(fmt, el);
                        fmt.write(',');
                    },
                }
                let ghost f3 = *fmt;
                walk.after_element(fmt);
                proof {
                    assert(f2.comments() == f3.comments());
                    assert(fmt.comments().subrange(0, f0.comments().len() as int) =~= f0.comments()) by {
                        assert(fmt.comments().subrange(0, f3.comments().len() as int) == f3.comments());
                        assert forall|k: int| 0 <= k < f0.comments().len() implies fmt.comments()[k] == f0.comments()[k] by {
                            assert(fmt.comments()[k] == fmt.comments().subrange(0, f3.comments().len() as int)[k]);
                            assert(f1.comments()[k] == f1.comments().subrange(0, f0.comments().len() as int)[k]);
                        }
                    }
                }
            },
        }
    }
    walk.finish(fmt, comment_align(element));
    proof {
        assert(fmt.comments() =~= f0.comments());
    }
}

/// The first child of kind `kind` in `c`.
pub open spec fn child_kind_scan(tree: &SyntaxTree, c: Seq<NodeOrToken>, kind: SyntaxKind) -> Option<NodeID>
    decreases c.len(),
{
    if c.len() == 0 {
        None
    } else {
        match c[0] {
            NodeOrToken::Node(x) => if tree.nodes_view()[x.0 as int].kind == kind {
                Some(x)
            } else {
                child_kind_scan(tree, c.subrange(1, c.len() as int), kind)
            },
            _ => child_kind_scan(tree, c.subrange(1, c.len() as int), kind),
        }
    }
}

proof fn lemma_child_one(tree: &SyntaxTree, c: Seq<NodeOrToken>, kinds: SyntaxSet, kind: SyntaxKind)
    requires
        forall|k: SyntaxKind| #[trigger] kinds.has(k) <==> k == kind,
    ensures
        child_scan(tree, c, kinds, Around::Any, true) == child_kind_scan(tree, c, kind),
    decreases c.len(),
{
    if c.len() > 0 {
        lemma_child_one(tree, c.subrange(1, c.len() as int), kinds, kind);
    }
}

/// The `NAME` child of node `id`.
pub open spec fn name_child(tree: &SyntaxTree, id: int) -> Option<NodeID> {
    child_kind_scan(tree, tree.node_content(id), SyntaxKind::NAME)
}

/// The identifier token of the name node `n`.
pub open spec fn name_token(tree: &SyntaxTree, n: int) -> Option<TokenID> {
    first_passing(tree, tree.node_content(n), TokenTest::Is(Token::Ident))
}

/// What writing the name node `n` adds to the events, its range stored at `base`.
pub open spec fn name_events(tree: &SyntaxTree, n: int, base: nat) -> Seq<FormatEvent> {
    match name_token(tree, n) {
        Some(_) => seq![FormatEvent::Range { range_idx: base as usize }],
        None => Seq::empty(),
    }
}

/// What writing the name node `n` adds to the stored ranges.
pub open spec fn name_ranges(tree: &SyntaxTree, n: int) -> Seq<TextRange> {
    match name_token(tree, n) {
        Some(t) => seq![tree.token_list().range_at(t.0 as int)],
        None => Seq::empty(),
    }
}

/// What writing the name of node `id`, or `_` where it has none, adds to the events.
pub open spec fn name_or_discard_events(tree: &SyntaxTree, id: int, base: nat) -> Seq<FormatEvent> {
    match name_child(tree, id) {
        Some(n) => name_events(tree, n.0 as int, base),
        None => seq![FormatEvent::Char('_')],
    }
}

/// What writing the name of node `id`, or `_`, adds to the stored ranges.
pub open spec fn name_or_discard_ranges(tree: &SyntaxTree, id: int) -> Seq<TextRange> {
    match name_child(tree, id) {
        Some(n) => name_ranges(tree, n.0 as int),
        None => Seq::empty(),
    }
}

fn name(fmt: &mut Formatter, id: NodeID)
    requires
        old(fmt).wf(),
        id.0 < old(fmt).tree_view().nodes_view().len(),
        old(fmt).position().2 <= id.0 + 1,
    ensures
        fmt_frame(final(fmt), old(fmt)),
        final(fmt).strings() == old(fmt).strings(),
        final(fmt).events() == old(fmt).events() + name_events(
            &old(fmt).tree_view(),
            id.0 as int,
            old(fmt).ranges().len(),
        ),
        final(fmt).ranges() == old(fmt).ranges() + name_ranges(&old(fmt).tree_view(), id.0 as int),
        ({
            let tree = old(fmt).tree_view();
            match first_passing(&tree, tree.node_content(id.0 as int), TokenTest::Is(Token::Ident)) {
                Some(t) => final(fmt).events() == old(fmt).events().push(
                    FormatEvent::Range { range_idx: old(fmt).ranges().len() as usize },
                ) && final(fmt).ranges() == old(fmt).ranges().push(
                    tree.token_list().range_at(t.0 as int),
                ),
                None => final(fmt).events() == old(fmt).events() && final(fmt).ranges() == old(
                    fmt,
                ).ranges(),
            }
        }),
{
    let ghost f0 = *fmt;
    if let Some((_, range)) = find_token(fmt, id, TokenTest::Is(Token::Ident)) {
        fmt.write_range(range);
    }
    proof {
        assert(fmt.events() =~= f0.events() + name_events(&f0.tree_view(), id.0 as int, f0.ranges().len()));
        assert(fmt.ranges() =~= f0.ranges() + name_ranges(&f0.tree_view(), id.0 as int));
    }
}

/// Writes the source text of node `id`.
fn verbatim(fmt: &mut Formatter, id: NodeID)
    requires
        old(fmt).wf(),
        id.0 < old(fmt).tree_view().nodes_view().len(),
        old(fmt).position().2 <= id.0 + 1,
    ensures
        fmt_frame(final(fmt), old(fmt)),
        final(fmt).strings() == old(fmt).strings(),
        ({
            let tree = old(fmt).tree_view();
            let first = first_token(&tree, id.0 as int);
            let last = last_token(&tree, id.0 as int);
            if first is Some && last is Some && tree.token_list().range_at(
                first->Some_0.0 as int,
            ).start.0 <= tree.token_list().range_at(last->Some_0.0 as int).end.0 {
                final(fmt).events() == old(fmt).events().push(
                    FormatEvent::Range { range_idx: old(fmt).ranges().len() as usize },
                ) && final(fmt).ranges() == old(fmt).ranges().push(
                    TextRange {
                        start: tree.token_list().range_at(first->Some_0.0 as int).start,
                        end: tree.token_list().range_at(last->Some_0.0 as int).end,
                    },
                )
            } else {
                final(fmt).events() == old(fmt).events() && final(fmt).ranges() == old(fmt).ranges()
            }
        }),
{
    proof {
        assert(fmt.tree_view().wf());
    }
    if let Some(range) = find_range(fmt.tree, id) {
        proof {
            let tl = fmt.tree_view().token_list();
            let first = first_token(&fmt.tree_view(), id.0 as int)->Some_0;
            let last = last_token(&fmt.tree_view(), id.0 as int)->Some_0;
            lemma_first_last_token_valid(&fmt.tree_view(), id.0 as int);
            assert(tl.range_at(first.0 as int).wf());
            assert(tl.range_at(last.0 as int).wf());
        }
        if range.start.0 <= range.end.0 {
            fmt.write_range(range);
        }
    }
}

fn lit(fmt: &mut Formatter, id: NodeID)
    requires
        old(fmt).wf(),
        id.0 < old(fmt).tree_view().nodes_view().len(),
        old(fmt).position().2 <= id.0 + 1,
    ensures
        fmt_frame(final(fmt), old(fmt)),
{
    verbatim(fmt, id);
}

fn source_file(fmt: &mut Formatter, id: NodeID)
    requires
        old(fmt).wf(),
        id.0 < old(fmt).tree_view().nodes_view().len(),
        old(fmt).position().2 <= id.0 + 1,
    ensures
        fmt_frame(final(fmt), old(fmt)),
    decreases old(fmt).tree_view().nodes_view().len() - id.0, 2nat,
{
    interleaved_node_list(fmt, id, ListElement::Item);
}

/// A top-level item.
fn item(fmt: &mut Formatter, id: NodeID)
    requires
        old(fmt).wf(),
        id.0 < old(fmt).tree_view().nodes_view().len(),
        old(fmt).position().2 <= id.0 + 1,
    ensures
        fmt_frame(final(fmt), old(fmt)),
    decreases old(fmt).tree_view().nodes_view().len() - id.0, 3nat,
{
    match kind_of(fmt, id) {
        SyntaxKind::PROC_ITEM => proc_item(fmt, id),
        SyntaxKind::ENUM_ITEM => enum_item(fmt, id),
        SyntaxKind::STRUCT_ITEM => struct_item(fmt, id),
        SyntaxKind::CONST_ITEM => const_item(fmt, id),
        SyntaxKind::GLOBAL_ITEM => global_item(fmt, id),
        SyntaxKind::IMPORT_ITEM => import_item(fmt, id),
        SyntaxKind::DIRECTIVE_LIST => directive_list(fmt, id, false),
        _ => {},
    }
}

/// The comments of the item move before it, then its directives go on lines of their own.
fn item_head(fmt: &mut Formatter, id: NodeID, halt: SyntaxSet)
    requires
        old(fmt).wf(),
        id.0 < old(fmt).tree_view().nodes_view().len(),
        old(fmt).position().2 <= id.0 + 1,
    ensures
        fmt_frame(final(fmt), old(fmt)),
    decreases old(fmt).tree_view().nodes_view().len() - id.0, 1nat,
{
    trivia_lift(fmt, id, halt);
    if let Some(dir_list) = child(fmt, id, one(SyntaxKind::DIRECTIVE_LIST), Around::Any) {
        directive_list(fmt, dir_list, true);
    }
}

fn proc_item(fmt: &mut Formatter, id: NodeID)
    requires
        old(fmt).wf(),
        id.0 < old(fmt).tree_view().nodes_view().len(),
        old(fmt).position().2 <= id.0 + 1,
    ensures
        fmt_frame(final(fmt), old(fmt)),
    decreases old(fmt).tree_view().nodes_view().len() - id.0, 2nat,
{
    item_head(fmt, id, one(SyntaxKind::BLOCK));
    fmt.write_str("proc");
    fmt.space();
    if let Some(n) = child(fmt, id, one(SyntaxKind::NAME), Around::Any) {
        name(fmt, n);
    }
    if let Some(p) = child(fmt, id, one(SyntaxKind::PARAM_LIST), Around::Any) {
        param_list(fmt, p);
    }
    if let Some(p) = child(fmt, id, one(SyntaxKind::POLYMORPH_PARAMS), Around::Any) {
        polymorph_params(fmt, p);
    }
    fmt.space();
    if let Some(t) = child(fmt, id, kinds_type(), Around::Any) {
        ty(fmt, t);
    }
    if let Some(b) = child(fmt, id, one(SyntaxKind::BLOCK), Around::Any) {
        fmt.space();
        block(fmt, b, false);
    } else {
        fmt.write(';');
    }
}

/// Writes the nodes of `kinds` in the content of `id` separated by `, `.
fn comma_list(fmt: &mut Formatter, id: NodeID, kinds: SyntaxSet, what: ListPart)
    requires
        old(fmt).wf(),
        id.0 < old(fmt).tree_view().nodes_view().len(),
        old(fmt).position().2 <= id.0 + 1,
    ensures
        fmt_frame(final(fmt), old(fmt)),
    decreases old(fmt).tree_view().nodes_view().len() - id.0, 1nat,
{
    let ghost f0 = *fmt;
    let ghost n = fmt.tree_view().node_content(id.0 as int).len();
    let mut first = true;
    let mut pos: usize = 0;
    loop
        invariant
            fmt_frame(fmt, &f0),
            f0.tree_view() == old(fmt).tree_view(),
            f0.position().2 == old(fmt).position().2,
            fmt.position().2 <= id.0 + 1,
            id.0 < fmt.tree_view().nodes_view().len(),
            n == fmt.tree_view().node_content(id.0 as int).len(),
            pos <= n,
        decreases n - pos,
    {
        match next_child(fmt, id, kinds, pos) {
            None => {
                break;
            },
            Some((p, c)) => {
                if !first {
                    fmt.write(',');
                    fmt.space();
                }
                first = false;
                list_part(fmt, c, what);
                pos = p;
            },
        }
    }
}

/// What the elements of a plain comma separated list are.
#[derive(Copy, Clone, PartialEq, Eq, Debug, Structural)]
pub enum ListPart {
    Param,
    Type,
    Expr,
    Bind,
    Name,
    FieldInit,
}

fn list_part(fmt: &mut Formatter, id: NodeID, what: ListPart)
    requires
        old(fmt).wf(),
        id.0 < old(fmt).tree_view().nodes_view().len(),
        old(fmt).position().2 <= id.0 + 1,
    ensures
        fmt_frame(final(fmt), old(fmt)),
    decreases old(fmt).tree_view().nodes_view().len() - id.0, 5nat,
{
    match what {
        ListPart::Param => param(fmt, id),
        ListPart::Type => ty(fmt, id),
        ListPart::Expr => expr(fmt, id),
        ListPart::Bind => bind(fmt, id),
        ListPart::Name => name(fmt, id),
        ListPart::FieldInit => field_init(fmt, id),
    }
}

/// Writes the nodes of `kinds` in the content of `id`, one per line when the source
/// had them on several lines, else separated by `, `; a trailing `,` when wrapped.
fn wrapped_list(fmt: &mut Formatter, id: NodeID, kinds: SyntaxSet, what: ListPart, wrap: bool)
    requires
        old(fmt).wf(),
        id.0 < old(fmt).tree_view().nodes_view().len(),
        old(fmt).position().2 <= id.0 + 1,
    ensures
        fmt_frame(final(fmt), old(fmt)),
    decreases old(fmt).tree_view().nodes_view().len() - id.0, 1nat,
{
    let ghost f0 = *fmt;
    let ghost n = fmt.tree_view().node_content(id.0 as int).len();
    let mut first = true;
    let mut pos: usize = 0;
    loop
        invariant
            fmt_frame(fmt, &f0),
            f0.tree_view() == old(fmt).tree_view(),
            f0.position().2 == old(fmt).position().2,
            fmt.position().2 <= id.0 + 1,
            id.0 < fmt.tree_view().nodes_view().len(),
            n == fmt.tree_view().node_content(id.0 as int).len(),
            pos <= n,
        decreases n - pos,
    {
        match next_child(fmt, id, kinds, pos) {
            None => {
                break;
            },
            Some((p, c)) => {
                if !first {
                    fmt.write(',');
                    if wrap {
                        fmt.new_line();
                    } else {
                        fmt.space();
                    }
                }
                if wrap {
                    fmt.tab_single();
                }
                first = false;
                list_part(fmt, c, what);
                pos = p;
            },
        }
    }
}

fn param_list(fmt: &mut Formatter, id: NodeID)
    requires
        old(fmt).wf(),
        id.0 < old(fmt).tree_view().nodes_view().len(),
        old(fmt).position().2 <= id.0 + 1,
    ensures
        fmt_frame(final(fmt), old(fmt)),
    decreases old(fmt).tree_view().nodes_view().len() - id.0, 2nat,
{
    let params = one(SyntaxKind::PARAM);
    let is_variadic = has_token(fmt, id, Token::DotDot);
    if next_child(fmt, id, params, 0).is_none() {
        fmt.write('(');
        if is_variadic {
            fmt.write_str("..");
        }
        fmt.write(')');
        return;
    }
    fmt.write('(');
    let wrap = fmt.wrap_line_break_based(id, params);
    if wrap {
        fmt.new_line();
    }
    wrapped_list(fmt, id, params, ListPart::Param, wrap);
    if is_variadic {
        fmt.write(',');
        fmt.space();
        fmt.write_str("..");
    }
    if wrap {
        if !is_variadic {
            fmt.write(',');
        }
        fmt.new_line();
    }
    fmt.write(')');
}

fn param(fmt: &mut Formatter, id: NodeID)
    requires
        old(fmt).wf(),
        id.0 < old(fmt).tree_view().nodes_view().len(),
        old(fmt).position().2 <= id.0 + 1,
    ensures
        fmt_frame(final(fmt), old(fmt)),
    decreases old(fmt).tree_view().nodes_view().len() - id.0, 2nat,
{
    if has_token(fmt, id, Token::KwMut) {
        fmt.write_str("mut");
        fmt.space();
    }
    if let Some(n) = child(fmt, id, one(SyntaxKind::NAME), Around::Any) {
        name(fmt, n);
    }
    fmt.write(':');
    fmt.space();
    if let Some(t) = child(fmt, id, kinds_type(), Around::Any) {
        ty(fmt, t);
    }
}

fn enum_item(fmt: &mut Formatter, id: NodeID)
    requires
        old(fmt).wf(),
        id.0 < old(fmt).tree_view().nodes_view().len(),
        old(fmt).position().2 <= id.0 + 1,
    ensures
        fmt_frame(final(fmt), old(fmt)),
    decreases old(fmt).tree_view().nodes_view().len() - id.0, 2nat,
{
    item_head(fmt, id, one(SyntaxKind::VARIANT_LIST));
    fmt.write_str("enum");
    fmt.space();
    if let Some(n) = child(fmt, id, one(SyntaxKind::NAME), Around::Any) {
        name(fmt, n);
    }
    if let Some(p) = child(fmt, id, one(SyntaxKind::POLYMORPH_PARAMS), Around::Any) {
        polymorph_params(fmt, p);
    }
    if let Some(basic) = find_basic_type(fmt, id) {
        fmt.space();
        fmt.write_str(basic.as_str());
    }
    fmt.space();
    if let Some(v) = child(fmt, id, one(SyntaxKind::VARIANT_LIST), Around::Any) {
        braced_list(fmt, v, ListElement::Variant, false);
    }
}

/// `{}` for a list without elements or comments, else its elements on lines of their
/// own between braces; with `close_tab` the closing brace is indented.
fn braced_list(fmt: &mut Formatter, id: NodeID, element: ListElement, close_tab: bool)
    requires
        old(fmt).wf(),
        id.0 < old(fmt).tree_view().nodes_view().len(),
        old(fmt).position().2 <= id.0 + 1,
    ensures
        fmt_frame(final(fmt), old(fmt)),
    decreases old(fmt).tree_view().nodes_view().len() - id.0, 1nat,
{
    if content_empty(fmt, id) {
        fmt.write('{');
        fmt.write('}');
        return;
    }
    fmt.write('{');
    fmt.new_line();
    fmt.tab_inc();
    interleaved_node_list(fmt, id, element);
    fmt.tab_dec();
    if close_tab {
        fmt.tab_depth();
    }
    fmt.write('}');
}

fn variant(fmt: &mut Formatter, id: NodeID)
    requires
        old(fmt).wf(),
        id.0 < old(fmt).tree_view().nodes_view().len(),
        old(fmt).position().2 <= id.0 + 1,
    ensures
        fmt_frame(final(fmt), old(fmt)),
    decreases old(fmt).tree_view().nodes_view().len() - id.0, 2nat,
{
    item_head(fmt, id, SyntaxSet::empty());
    fmt.tab_depth();
    if let Some(n) = child(fmt, id, one(SyntaxKind::NAME), Around::Any) {
        name(fmt, n);
    }
    if let Some(value) = child(fmt, id, kinds_expr(), Around::Any) {
        fmt.write_str(" = ");
        expr(fmt, value);
    } else if let Some(fields) = child(fmt, id, one(SyntaxKind::VARIANT_FIELD_LIST), Around::Any) {
        fmt.write('(');
        comma_list(fmt, fields, kinds_type(), ListPart::Type);
        fmt.write(')');
    }
    fmt.write(',');
}

fn struct_item(fmt: &mut Formatter, id: NodeID)
    requires
        old(fmt).wf(),
        id.0 < old(fmt).tree_view().nodes_view().len(),
        old(fmt).position().2 <= id.0 + 1,
    ensures
        fmt_frame(final(fmt), old(fmt)),
    decreases old(fmt).tree_view().nodes_view().len() - id.0, 2nat,
{
    item_head(fmt, id, one(SyntaxKind::FIELD_LIST));
    fmt.write_str("struct");
    fmt.space();
    if let Some(n) = child(fmt, id, one(SyntaxKind::NAME), Around::Any) {
        name(fmt, n);
    }
    if let Some(p) = child(fmt, id, one(SyntaxKind::POLYMORPH_PARAMS), Around::Any) {
        polymorph_params(fmt, p);
    }
    fmt.space();
    if let Some(f) = child(fmt, id, one(SyntaxKind::FIELD_LIST), Around::Any) {
        braced_list(fmt, f, ListElement::Field, false);
    }
}

fn field(fmt: &mut Formatter, id: NodeID)
    requires
        old(fmt).wf(),
        id.0 < old(fmt).tree_view().nodes_view().len(),
        old(fmt).position().2 <= id.0 + 1,
    ensures
        fmt_frame(final(fmt), old(fmt)),
    decreases old(fmt).tree_view().nodes_view().len() - id.0, 2nat,
{
    item_head(fmt, id, SyntaxSet::empty());
    fmt.tab_depth();
    if let Some(n) = child(fmt, id, one(SyntaxKind::NAME), Around::Any) {
        name(fmt, n);
    }
    fmt.write(':');
    fmt.space();
    if let Some(t) = child(fmt, id, kinds_type(), Around::Any) {
        ty(fmt, t);
    }
    fmt.write(',');
}

fn const_item(fmt: &mut Formatter, id: NodeID)
    requires
        old(fmt).wf(),
        id.0 < old(fmt).tree_view().nodes_view().len(),
        old(fmt).position().2 <= id.0 + 1,
    ensures
        fmt_frame(final(fmt), old(fmt)),
    decreases old(fmt).tree_view().nodes_view().len() - id.0, 2nat,
{
    item_head(fmt, id, SyntaxSet::empty());
    fmt.write_str("const");
    fmt.space();
    if let Some(n) = child(fmt, id, one(SyntaxKind::NAME), Around::Any) {
        name(fmt, n);
    }
    fmt.write(':');
    fmt.space();
    if let Some(t) = child(fmt, id, kinds_type(), Around::Any) {
        ty(fmt, t);
    }
    fmt.space();
    fmt.write('=');
    fmt.space();
    if let Some(v) = child(fmt, id, kinds_expr(), Around::Any) {
        expr(fmt, v);
    }
    fmt.write(';');
}

#[verifier::rlimit(40)]
fn global_item(fmt: &mut Formatter, id: NodeID)
    requires
        old(fmt).wf(),
        id.0 < old(fmt).tree_view().nodes_view().len(),
        old(fmt).position().2 <= id.0 + 1,
    ensures
        fmt_frame(final(fmt), old(fmt)),
    decreases old(fmt).tree_view().nodes_view().len() - id.0, 2nat,
{
    item_head(fmt, id, SyntaxSet::empty());
    fmt.write_str("global");
    fmt.space();
    if has_token(fmt, id, Token::KwMut) {
        fmt.write_str("mut");
        fmt.space();
    }
    if let Some(n) = child(fmt, id, one(SyntaxKind::NAME), Around::Any) {
        name(fmt, n);
    }
    fmt.write(':');
    fmt.space();
    if let Some(t) = child(fmt, id, kinds_type(), Around::Any) {
        ty(fmt, t);
    }
    fmt.space();
    fmt.write('=');
    fmt.space();
    if has_token(fmt, id, Token::KwZeroed) {
        fmt.write_str("zeroed");
    } else if let Some(v) = child(fmt, id, kinds_expr(), Around::Any) {
        expr(fmt, v);
    }
    fmt.write(';');
}

fn import_item(fmt: &mut Formatter, id: NodeID)
    requires
        old(fmt).wf(),
        id.0 < old(fmt).tree_view().nodes_view().len(),
        old(fmt).position().2 <= id.0 + 1,
    ensures
        fmt_frame(final(fmt), old(fmt)),
    decreases old(fmt).tree_view().nodes_view().len() - id.0, 2nat,
{
    item_head(fmt, id, SyntaxSet::empty());
    fmt.write_str("import");
    fmt.space();
    if let Some(package) = child(fmt, id, one(SyntaxKind::NAME), Around::Any) {
        name(fmt, package);
        fmt.write(':');
    }
    if let Some(path) = child(fmt, id, one(SyntaxKind::IMPORT_PATH), Around::Any) {
        let ghost f0 = *fmt;
        let ghost n = fmt.tree_view().node_content(path.0 as int).len();
        let mut first = true;
        let mut pos: usize = 0;
        loop
            invariant
                fmt_frame(fmt, &f0),
                f0.tree_view() == old(fmt).tree_view(),
                f0.position().2 == old(fmt).position().2,
                fmt.position().2 <= id.0 + 1,
                id.0 < path.0 < fmt.tree_view().nodes_view().len(),
                n == fmt.tree_view().node_content(path.0 as int).len(),
                pos <= n,
            decreases n - pos,
        {
            match next_child(fmt, path, one(SyntaxKind::NAME), pos) {
                None => {
                    break;
                },
                Some((p, c)) => {
                    if !first {
                        fmt.write('/');
                    }
                    first = false;
                    name(fmt, c);
                    pos = p;
                },
            }
        }
    }
    if let Some(rename) = child(fmt, id, one(SyntaxKind::IMPORT_SYMBOL_RENAME), Around::Any) {
        import_symbol_rename(fmt, rename);
    }
    if let Some(list) = child(fmt, id, one(SyntaxKind::IMPORT_SYMBOL_LIST), Around::Any) {
        fmt.write('.');
        import_symbol_list(fmt, list);
    } else {
        fmt.write(';');
    }
}

fn import_symbol_list(fmt: &mut Formatter, id: NodeID)
    requires
        old(fmt).wf(),
        id.0 < old(fmt).tree_view().nodes_view().len(),
        old(fmt).position().2 <= id.0 + 1,
    ensures
        fmt_frame(final(fmt), old(fmt)),
    decreases old(fmt).tree_view().nodes_view().len() - id.0, 2nat,
{
    let symbols = one(SyntaxKind::IMPORT_SYMBOL);
    if next_child(fmt, id, symbols, 0).is_none() {
        fmt.write('{');
        fmt.write('}');
        return;
    }
    fmt.write('{');
    let wrap = wrap_content_len_based(fmt, id);
    if wrap {
        fmt.new_line();
    }
    let ghost f0 = *fmt;
    let ghost n = fmt.tree_view().node_content(id.0 as int).len();
    let mut first = true;
    let mut total_len: u32 = 0;
    let mut pos: usize = 0;
    loop
        invariant
            fmt_frame(fmt, &f0),
            f0.tree_view() == old(fmt).tree_view(),
            f0.position().2 == old(fmt).position().2,
            fmt.position().2 <= id.0 + 1,
            id.0 < fmt.tree_view().nodes_view().len(),
            n == fmt.tree_view().node_content(id.0 as int).len(),
            pos <= n,
        decreases n - pos,
    {
        match next_child(fmt, id, symbols, pos) {
            None => {
                break;
            },
            Some((p, c)) => {
                let sub_wrap = total_len > SUBWRAP_IMPORT_SYMBOL;
                if sub_wrap {
                    total_len = 0;
                }
                if wrap {
                    total_len = total_len.saturating_add(content_len(fmt, c));
                }
                if !first {
                    fmt.write(',');
                    if wrap && sub_wrap {
                        fmt.new_line();
                    } else {
                        fmt.space();
                    }
                }
                if wrap && (first || sub_wrap) {
                    fmt.tab_single();
                }
                first = false;
                if let Some(n) = child(fmt, c, one(SyntaxKind::NAME), Around::Any) {
                    name(fmt, n);
                }
                if let Some(rename) = child(fmt, c, one(SyntaxKind::IMPORT_SYMBOL_RENAME), Around::Any) {
                    import_symbol_rename(fmt, rename);
                }
                pos = p;
            },
        }
    }
    if wrap {
        fmt.write(',');
        fmt.new_line();
    }
    fmt.write('}');
}

fn import_symbol_rename(fmt: &mut Formatter, id: NodeID)
    requires
        old(fmt).wf(),
        id.0 < old(fmt).tree_view().nodes_view().len(),
        old(fmt).position().2 <= id.0 + 1,
    ensures
        fmt_frame(final(fmt), old(fmt)),
        final(fmt).strings() == old(fmt).strings().push("as"@),
        final(fmt).events() == old(fmt).events() + seq![
            FormatEvent::Space,
            FormatEvent::String { string_idx: old(fmt).strings().len() as usize },
            FormatEvent::Space,
        ] + name_or_discard_events(&old(fmt).tree_view(), id.0 as int, old(fmt).ranges().len()),
        final(fmt).ranges() == old(fmt).ranges() + name_or_discard_ranges(
            &old(fmt).tree_view(),
            id.0 as int,
        ),
{
    let ghost f0 = *fmt;
    fmt.space();
    fmt.write_str("as");
    fmt.space();
    let ghost f1 = *fmt;
    proof {
        assert(f1.events() =~= f0.events() + seq![
            FormatEvent::Space,
            FormatEvent::String { string_idx: f0.strings().len() as usize },
            FormatEvent::Space,
        ]);
        assert(f1.ranges() == f0.ranges());
    }
    let names = one(SyntaxKind::NAME);
    proof {
        lemma_child_one(&f0.tree_view(), f0.tree_view().node_content(id.0 as int), names, SyntaxKind::NAME);
    }
    if let Some(alias) = child(fmt, id, names, Around::Any) {
        name(fmt, alias);
        proof {
            assert(fmt.events() =~= f1.events() + name_or_discard_events(&f0.tree_view(), id.0 as int, f0.ranges().len()));
        }
    } else {
        fmt.write('_');
        proof {
            assert(fmt.events() =~= f1.events() + seq![FormatEvent::Char('_')]);
            assert(fmt.ranges() =~= f0.ranges() + Seq::<TextRange>::empty());
        }
    }
}

fn directive_list(fmt: &mut Formatter, id: NodeID, new_line: bool)
    requires
        old(fmt).wf(),
        id.0 < old(fmt).tree_view().nodes_view().len(),
        old(fmt).position().2 <= id.0 + 1,
    ensures
        fmt_frame(final(fmt), old(fmt)),
    decreases old(fmt).tree_view().nodes_view().len() - id.0, 2nat,
{
    let ghost f0 = *fmt;
    let ghost n = fmt.tree_view().node_content(id.0 as int).len();
    let mut first = true;
    let mut pos: usize = 0;
    loop
        invariant
            fmt_frame(fmt, &f0),
            f0.tree_view() == old(fmt).tree_view(),
            f0.position().2 == old(fmt).position().2,
            fmt.position().2 <= id.0 + 1,
            id.0 < fmt.tree_view().nodes_view().len(),
            n == fmt.tree_view().node_content(id.0 as int).len(),
            pos <= n,
        decreases n - pos,
    {
        match next_child(fmt, id, kinds_directive(), pos) {
            None => {
                break;
            },
            Some((p, c)) => {
                if !first {
                    fmt.new_line();
                }
                first = false;
                fmt.tab_depth();
                directive(fmt, c);
                pos = p;
            },
        }
    }
    if new_line {
        fmt.new_line();
    }
}

fn directive(fmt: &mut Formatter, id: NodeID)
    requires
        old(fmt).wf(),
        id.0 < old(fmt).tree_view().nodes_view().len(),
        old(fmt).position().2 <= id.0 + 1,
    ensures
        fmt_frame(final(fmt), old(fmt)),
    decreases old(fmt).tree_view().nodes_view().len() - id.0, 2nat,
{
    fmt.write('#');
    if let Some(n) = child(fmt, id, one(SyntaxKind::NAME), Around::Any) {
        name(fmt, n);
    }
    if kind_of(fmt, id) == SyntaxKind::DIRECTIVE_WITH_PARAMS {
        if let Some(list) = child(fmt, id, one(SyntaxKind::DIRECTIVE_PARAM_LIST), Around::Any) {
            directive_param_list(fmt, list);
        }
    }
}

fn directive_param_list(fmt: &mut Formatter, id: NodeID)
    requires
        old(fmt).wf(),
        id.0 < old(fmt).tree_view().nodes_view().len(),
        old(fmt).position().2 <= id.0 + 1,
    ensures
        fmt_frame(final(fmt), old(fmt)),
    decreases old(fmt).tree_view().nodes_view().len() - id.0, 2nat,
{
    let params = one(SyntaxKind::DIRECTIVE_PARAM);
    if next_child(fmt, id, params, 0).is_none() {
        fmt.write('(');
        fmt.write(')');
        return;
    }
    fmt.write('(');
    let wrap = fmt.wrap_line_break_based(id, params);
    if wrap {
        fmt.new_line();
    }
    let ghost f0 = *fmt;
    let ghost n = fmt.tree_view().node_content(id.0 as int).len();
    let mut first = true;
    let mut pos: usize = 0;
    loop
        invariant
            fmt_frame(fmt, &f0),
            f0.tree_view() == old(fmt).tree_view(),
            f0.position().2 == old(fmt).position().2,
            fmt.position().2 <= id.0 + 1,
            id.0 < fmt.tree_view().nodes_view().len(),
            n == fmt.tree_view().node_content(id.0 as int).len(),
            pos <= n,
        decreases n - pos,
    {
        match next_child(fmt, id, params, pos) {
            None => {
                break;
            },
            Some((p, c)) => {
                if !first {
                    fmt.write(',');
                    if wrap {
                        fmt.new_line();
                    } else {
                        fmt.space();
                    }
                }
                if wrap {
                    fmt.tab_single();
                }
                first = false;
                if let Some(n) = child(fmt, c, one(SyntaxKind::NAME), Around::Any) {
                    name(fmt, n);
                }
                fmt.space();
                fmt.write('=');
                fmt.space();
                if let Some(value) = child(fmt, c, one(SyntaxKind::LIT_STRING), Around::Any) {
                    verbatim(fmt, value);
                }
                pos = p;
            },
        }
    }
    if wrap {
        fmt.write(',');
        fmt.new_line();
    }
    fmt.write(')');
}

fn ty(fmt: &mut Formatter, id: NodeID)
    requires
        old(fmt).wf(),
        id.0 < old(fmt).tree_view().nodes_view().len(),
        old(fmt).position().2 <= id.0 + 1,
    ensures
        fmt_frame(final(fmt), old(fmt)),
    decreases old(fmt).tree_view().nodes_view().len() - id.0, 3nat,
{
    match kind_of(fmt, id) {
        SyntaxKind::TYPE_BASIC => {
            if let Some(basic) = find_basic_type(fmt, id) {
                fmt.write_str(basic.as_str());
            }
        },
        SyntaxKind::TYPE_CUSTOM => {
            if let Some(path) = child(fmt, id, one(SyntaxKind::PATH), Around::Any) {
                path_segments(fmt, path, false);
            }
        },
        SyntaxKind::TYPE_REFERENCE => {
            fmt.write('&');
            let mut with_space = false;
            if has_token(fmt, id, Token::KwMut) {
                fmt.write_str("mut");
                fmt.space();
                with_space = true;
            }
            if let Some(ref_ty) = child(fmt, id, kinds_type(), Around::Any) {
                if !with_space && kind_of(fmt, ref_ty) == SyntaxKind::TYPE_REFERENCE {
                    fmt.space();
                }
                ty(fmt, ref_ty);
            }
        },
        SyntaxKind::TYPE_MULTI_REFERENCE => {
            fmt.write('[');
            fmt.write('&');
            if has_token(fmt, id, Token::KwMut) {
                fmt.write_str("mut");
            }
            fmt.write(']');
            if let Some(ref_ty) = child(fmt, id, kinds_type(), Around::Any) {
                ty(fmt, ref_ty);
            }
        },
        SyntaxKind::TYPE_PROCEDURE => ty_proc(fmt, id),
        SyntaxKind::TYPE_ARRAY_SLICE => {
            fmt.write('[');
            if has_token(fmt, id, Token::KwMut) {
                fmt.write_str("mut");
            }
            fmt.write(']');
            if let Some(elem) = child(fmt, id, kinds_type(), Around::Any) {
                ty(fmt, elem);
            }
        },
        SyntaxKind::TYPE_ARRAY_STATIC => {
            fmt.write('[');
            if let Some(len) = child(fmt, id, kinds_expr(), Around::Any) {
                expr(fmt, len);
            }
            fmt.write(']');
            if let Some(elem) = child(fmt, id, kinds_type(), Around::Any) {
                ty(fmt, elem);
            }
        },
        _ => {},
    }
}

fn ty_proc(fmt: &mut Formatter, id: NodeID)
    requires
        old(fmt).wf(),
        id.0 < old(fmt).tree_view().nodes_view().len(),
        old(fmt).position().2 <= id.0 + 1,
    ensures
        fmt_frame(final(fmt), old(fmt)),
    decreases old(fmt).tree_view().nodes_view().len() - id.0, 2nat,
{
    fmt.write_str("proc");
    fmt.write('(');
    if let Some(list) = child(fmt, id, one(SyntaxKind::PROC_TYPE_PARAM_LIST), Around::Any) {
        let params = one(SyntaxKind::PARAM);
        comma_list(fmt, list, params, ListPart::Param);
        if has_token(fmt, list, Token::DotDot) {
            if next_child(fmt, list, params, 0).is_some() {
                fmt.write(',');
                fmt.space();
            }
            fmt.write_str("..");
        }
    }
    fmt.write(')');
    fmt.space();
    if let Some(ret) = child(fmt, id, kinds_type(), Around::Any) {
        ty(fmt, ret);
    }
}

/// A block: `{}` when it holds nothing (with `carry`, the closing brace on the next
/// line), else its statements on lines of their own.
fn block(fmt: &mut Formatter, id: NodeID, carry: bool)
    requires
        old(fmt).wf(),
        id.0 < old(fmt).tree_view().nodes_view().len(),
        old(fmt).position().2 <= id.0 + 1,
    ensures
        fmt_frame(final(fmt), old(fmt)),
    decreases old(fmt).tree_view().nodes_view().len() - id.0, 3nat,
{
    if content_empty(fmt, id) {
        fmt.write('{');
        if carry {
            fmt.new_line();
            fmt.tab_depth();
        }
        fmt.write('}');
        return;
    }
    fmt.write('{');
    fmt.new_line();
    fmt.tab_inc();
    interleaved_node_list(fmt, id, ListElement::Stmt);
    fmt.tab_dec();
    fmt.tab_depth();
    fmt.write('}');
}

/// A statement, indented when `tab` holds (a statement with directives indents itself).
fn stmt(fmt: &mut Formatter, id: NodeID, tab: bool)
    requires
        old(fmt).wf(),
        id.0 < old(fmt).tree_view().nodes_view().len(),
        old(fmt).position().2 <= id.0 + 1,
    ensures
        fmt_frame(final(fmt), old(fmt)),
    decreases old(fmt).tree_view().nodes_view().len() - id.0, 3nat,
{
    let kind = kind_of(fmt, id);
    if tab && kind != SyntaxKind::STMT_WITH_DIRECTIVE {
        fmt.tab_depth();
    }
    match kind {
        SyntaxKind::STMT_BREAK => {
            fmt.write_str("break");
            fmt.write(';');
        },
        SyntaxKind::STMT_CONTINUE => {
            fmt.write_str("continue");
            fmt.write(';');
        },
        SyntaxKind::STMT_RETURN => {
            fmt.write_str("return");
            if let Some(e) = child(fmt, id, kinds_expr(), Around::Any) {
                fmt.space();
                expr(fmt, e);
            }
            fmt.write(';');
        },
        SyntaxKind::STMT_DEFER => {
            fmt.write_str("defer");
            fmt.space();
            if let Some(b) = child(fmt, id, one(SyntaxKind::BLOCK), Around::Any) {
                block(fmt, b, false);
            } else if let Some(s) = child(fmt, id, kinds_stmt(), Around::Any) {
                stmt(fmt, s, false);
            }
        },
        SyntaxKind::STMT_FOR => stmt_for(fmt, id),
        SyntaxKind::STMT_LOCAL => stmt_local(fmt, id),
        SyntaxKind::STMT_ASSIGN => stmt_assign(fmt, id),
        SyntaxKind::STMT_EXPR_SEMI => {
            if let Some(e) = child(fmt, id, kinds_expr(), Around::Any) {
                expr(fmt, e);
            }
            if has_token(fmt, id, Token::Semicolon) {
                fmt.write(';');
            }
        },
        SyntaxKind::STMT_EXPR_TAIL => {
            if let Some(e) = child(fmt, id, kinds_expr(), Around::Any) {
                expr(fmt, e);
            }
        },
        SyntaxKind::STMT_WITH_DIRECTIVE => {
            if let Some(list) = child(fmt, id, one(SyntaxKind::DIRECTIVE_LIST), Around::Any) {
                directive_list(fmt, list, true);
            }
            if let Some(s) = child(fmt, id, kinds_stmt(), Around::Any) {
                stmt(fmt, s, true);
            }
        },
        _ => {},
    }
}

#[verifier::rlimit(40)]
fn stmt_for(fmt: &mut Formatter, id: NodeID)
    requires
        old(fmt).wf(),
        id.0 < old(fmt).tree_view().nodes_view().len(),
        old(fmt).position().2 <= id.0 + 1,
    ensures
        fmt_frame(final(fmt), old(fmt)),
    decreases old(fmt).tree_view().nodes_view().len() - id.0, 2nat,
{
    fmt.write_str("for");
    if let Some(header) = child(fmt, id, one(SyntaxKind::FOR_HEADER_COND), Around::Any) {
        fmt.space();
        if let Some(e) = child(fmt, header, kinds_expr(), Around::Any) {
            expr(fmt, e);
        }
    } else if let Some(header) = child(fmt, id, one(SyntaxKind::FOR_HEADER_ELEM), Around::Any) {
        fmt.space();
        if has_token(fmt, header, Token::Ampersand) {
            fmt.write('&');
            if has_token(fmt, header, Token::KwMut) {
                fmt.write_str("mut");
                fmt.space();
            }
        }
        let comma = TokenTest::Is(Token::Comma);
        if let Some(value) = child(fmt, header, one(SyntaxKind::FOR_BIND), Around::Before(comma)) {
            for_bind(fmt, value);
        }
        if let Some(index) = child(fmt, header, one(SyntaxKind::FOR_BIND), Around::After(comma)) {
            fmt.write(',');
            fmt.space();
            for_bind(fmt, index);
        }
        fmt.space();
        fmt.write_str("in");
        fmt.space();
        if has_token(fmt, header, Token::Shl) {
            fmt.write_str("<<");
            fmt.space();
        }
        if let Some(e) = child(fmt, header, kinds_expr(), Around::Any) {
            expr(fmt, e);
        }
    } else if let Some(header) = child(fmt, id, one(SyntaxKind::FOR_HEADER_PAT), Around::Any) {
        fmt.space();
        fmt.write_str("let");
        fmt.space();
        if let Some(p) = child(fmt, header, kinds_pat(), Around::Any) {
            pat(fmt, p);
        }
        fmt.space();
        fmt.write('=');
        fmt.space();
        if let Some(e) = child(fmt, header, kinds_expr(), Around::Any) {
            expr(fmt, e);
        }
    }
    fmt.space();
    if let Some(b) = child(fmt, id, one(SyntaxKind::BLOCK), Around::Any) {
        block(fmt, b, false);
    }
}

/// A name bound by a `for` header, or `_`.
fn for_bind(fmt: &mut Formatter, id: NodeID)
    requires
        old(fmt).wf(),
        id.0 < old(fmt).tree_view().nodes_view().len(),
        old(fmt).position().2 <= id.0 + 1,
    ensures
        fmt_frame(final(fmt), old(fmt)),
        final(fmt).strings() == old(fmt).strings(),
        final(fmt).events() == old(fmt).events() + name_or_discard_events(
            &old(fmt).tree_view(),
            id.0 as int,
            old(fmt).ranges().len(),
        ),
        final(fmt).ranges() == old(fmt).ranges() + name_or_discard_ranges(
            &old(fmt).tree_view(),
            id.0 as int,
        ),
{
    let ghost f0 = *fmt;
    let names = one(SyntaxKind::NAME);
    proof {
        lemma_child_one(&f0.tree_view(), f0.tree_view().node_content(id.0 as int), names, SyntaxKind::NAME);
    }
    if let Some(n) = child(fmt, id, names, Around::Any) {
        name(fmt, n);
    } else {
        fmt.write('_');
        proof {
            assert(fmt.events() =~= f0.events() + seq![FormatEvent::Char('_')]);
            assert(fmt.ranges() =~= f0.ranges() + Seq::<TextRange>::empty());
        }
    }
}

fn stmt_local(fmt: &mut Formatter, id: NodeID)
    requires
        old(fmt).wf(),
        id.0 < old(fmt).tree_view().nodes_view().len(),
        old(fmt).position().2 <= id.0 + 1,
    ensures
        fmt_frame(final(fmt), old(fmt)),
    decreases old(fmt).tree_view().nodes_view().len() - id.0, 2nat,
{
    fmt.write_str("let");
    fmt.space();
    if let Some(b) = child(fmt, id, one(SyntaxKind::BIND), Around::Any) {
        bind(fmt, b);
    }
    if let Some(t) = child(fmt, id, kinds_type(), Around::Any) {
        fmt.write(':');
        fmt.space();
        ty(fmt, t);
    }
    fmt.space();
    fmt.write('=');
    fmt.space();
    if has_token(fmt, id, Token::KwZeroed) {
        fmt.write_str("zeroed");
    } else if has_token(fmt, id, Token::KwUndefined) {
        fmt.write_str("undefined");
    } else if let Some(init) = child(fmt, id, kinds_expr(), Around::Any) {
        expr(fmt, init);
    }
    fmt.write(';');
}

fn stmt_assign(fmt: &mut Formatter, id: NodeID)
    requires
        old(fmt).wf(),
        id.0 < old(fmt).tree_view().nodes_view().len(),
        old(fmt).position().2 <= id.0 + 1,
    ensures
        fmt_frame(final(fmt), old(fmt)),
    decreases old(fmt).tree_view().nodes_view().len() - id.0, 2nat,
{
    if let Some(lhs) = child(fmt, id, kinds_expr(), Around::Before(TokenTest::AssignOp)) {
        expr(fmt, lhs);
    }
    fmt.space();
    match find_assign_op(fmt, id) {
        Some(AssignOp::Assign) => fmt.write('='),
        Some(AssignOp::Bin(op)) => {
            fmt.write_str(op.as_str());
            fmt.write('=');
        },
        None => {},
    }
    fmt.space();
    if let Some(rhs) = child(fmt, id, kinds_expr(), Around::After(TokenTest::AssignOp)) {
        expr(fmt, rhs);
    }
    fmt.write(';');
}

fn expr(fmt: &mut Formatter, id: NodeID)
    requires
        old(fmt).wf(),
        id.0 < old(fmt).tree_view().nodes_view().len(),
        old(fmt).position().2 <= id.0 + 1,
    ensures
        fmt_frame(final(fmt), old(fmt)),
    decreases old(fmt).tree_view().nodes_view().len() - id.0, 4nat,
{
    let any = Around::Any;
    let kind = kind_of(fmt, id);
    match kind {
        SyntaxKind::EXPR_PAREN => {
            fmt.write('(');
            if let Some(e) = child(fmt, id, kinds_expr(), any) {
                expr(fmt, e);
            }
            fmt.write(')');
        },
        SyntaxKind::EXPR_IF => expr_if(fmt, id),
        SyntaxKind::BLOCK => block(fmt, id, false),
        SyntaxKind::EXPR_MATCH => expr_match(fmt, id),
        SyntaxKind::EXPR_FIELD => {
            if let Some(target) = child(fmt, id, kinds_expr(), any) {
                expr(fmt, target);
            }
            fmt.write('.');
            if let Some(n) = child(fmt, id, one(SyntaxKind::NAME), any) {
                name(fmt, n);
            }
        },
        SyntaxKind::EXPR_INDEX => {
            let open = TokenTest::Is(Token::BracketOpen);
            if let Some(target) = child(fmt, id, kinds_expr(), Around::Before(open)) {
                expr(fmt, target);
            }
            fmt.write('[');
            if let Some(index) = child(fmt, id, kinds_expr(), Around::After(open)) {
                expr(fmt, index);
            }
            fmt.write(']');
        },
        SyntaxKind::EXPR_SLICE => {
            let open = TokenTest::Is(Token::BracketOpen);
            if let Some(target) = child(fmt, id, kinds_expr(), Around::Before(open)) {
                expr(fmt, target);
            }
            fmt.write('[');
            fmt.write(':');
            if has_token(fmt, id, Token::KwMut) {
                fmt.write_str("mut");
                fmt.space();
            }
            if let Some(range) = child(fmt, id, kinds_expr(), Around::After(open)) {
                expr(fmt, range);
            }
            fmt.write(']');
        },
        SyntaxKind::EXPR_CALL => {
            if let Some(target) = child(fmt, id, kinds_expr(), any) {
                expr(fmt, target);
            }
            if let Some(args) = child(fmt, id, one(SyntaxKind::ARGS_LIST), any) {
                args_list(fmt, args);
            }
        },
        SyntaxKind::EXPR_CAST => {
            if let Some(target) = child(fmt, id, kinds_expr(), any) {
                expr(fmt, target);
            }
            fmt.space();
            fmt.write_str("as");
            fmt.space();
            if let Some(t) = child(fmt, id, kinds_type(), any) {
                ty(fmt, t);
            }
        },
        SyntaxKind::EXPR_ITEM => {
            if let Some(path) = child(fmt, id, one(SyntaxKind::PATH), any) {
                path_segments(fmt, path, true);
            }
            if let Some(args) = child(fmt, id, one(SyntaxKind::ARGS_LIST), any) {
                args_list(fmt, args);
            }
        },
        SyntaxKind::EXPR_VARIANT => {
            fmt.write('.');
            if let Some(n) = child(fmt, id, one(SyntaxKind::NAME), any) {
                name(fmt, n);
            }
            if let Some(args) = child(fmt, id, one(SyntaxKind::ARGS_LIST), any) {
                args_list(fmt, args);
            }
        },
        SyntaxKind::EXPR_STRUCT_INIT => {
            if let Some(path) = child(fmt, id, one(SyntaxKind::PATH), any) {
                path_segments(fmt, path, true);
            }
            fmt.write('.');
            if let Some(list) = child(fmt, id, one(SyntaxKind::FIELD_INIT_LIST), any) {
                field_init_list(fmt, list);
            }
        },
        SyntaxKind::EXPR_ARRAY_INIT => {
            fmt.write('[');
            comma_list(fmt, id, kinds_expr(), ListPart::Expr);
            fmt.write(']');
        },
        SyntaxKind::EXPR_ARRAY_REPEAT => {
            let semi = TokenTest::Is(Token::Semicolon);
            fmt.write('[');
            if let Some(value) = child(fmt, id, kinds_expr(), Around::Before(semi)) {
                expr(fmt, value);
            }
            fmt.write(';');
            fmt.space();
            if let Some(len) = child(fmt, id, kinds_expr(), Around::After(semi)) {
                expr(fmt, len);
            }
            fmt.write(']');
        },
        SyntaxKind::EXPR_DEREF => {
            fmt.write('*');
            if let Some(e) = child(fmt, id, kinds_expr(), any) {
                expr(fmt, e);
            }
        },
        SyntaxKind::EXPR_ADDRESS => {
            fmt.write('&');
            let mut with_space = false;
            if has_token(fmt, id, Token::KwMut) {
                fmt.write_str("mut");
                fmt.space();
                with_space = true;
            }
            if let Some(e) = child(fmt, id, kinds_expr(), any) {
                if !with_space && kind_of(fmt, e) == SyntaxKind::EXPR_ADDRESS {
                    fmt.space();
                }
                expr(fmt, e);
            }
        },
        SyntaxKind::EXPR_UNARY => {
            if let Some(op) = find_un_op(fmt, id) {
                fmt.write_str(op.as_str());
            }
            if let Some(rhs) = child(fmt, id, kinds_expr(), any) {
                expr(fmt, rhs);
            }
        },
        SyntaxKind::EXPR_BINARY => {
            if let Some(lhs) = child(fmt, id, kinds_expr(), Around::Before(TokenTest::BinOp)) {
                expr(fmt, lhs);
            }
            fmt.space();
            if let Some(op) = find_bin_op(fmt, id) {
                fmt.write_str(op.as_str());
            }
            fmt.space();
            if let Some(rhs) = child(fmt, id, kinds_expr(), Around::After(TokenTest::BinOp)) {
                expr(fmt, rhs);
            }
        },
        SyntaxKind::DIRECTIVE_SIMPLE | SyntaxKind::DIRECTIVE_WITH_PARAMS => directive(fmt, id),
        SyntaxKind::LIT_VOID | SyntaxKind::LIT_NULL | SyntaxKind::LIT_BOOL | SyntaxKind::LIT_INT
        | SyntaxKind::LIT_FLOAT | SyntaxKind::LIT_CHAR | SyntaxKind::LIT_STRING => lit(fmt, id),
        _ => {},
    }
}

fn expr_if(fmt: &mut Formatter, id: NodeID)
    requires
        old(fmt).wf(),
        id.0 < old(fmt).tree_view().nodes_view().len(),
        old(fmt).position().2 <= id.0 + 1,
    ensures
        fmt_frame(final(fmt), old(fmt)),
    decreases old(fmt).tree_view().nodes_view().len() - id.0, 2nat,
{
    let branches = one(SyntaxKind::IF_BRANCH);
    let ghost f0 = *fmt;
    let ghost n = fmt.tree_view().node_content(id.0 as int).len();
    let mut first = true;
    let mut pos: usize = 0;
    loop
        invariant
            fmt_frame(fmt, &f0),
            f0.tree_view() == old(fmt).tree_view(),
            f0.position().2 == old(fmt).position().2,
            fmt.position().2 <= id.0 + 1,
            id.0 < fmt.tree_view().nodes_view().len(),
            n == fmt.tree_view().node_content(id.0 as int).len(),
            pos <= n,
        decreases n - pos,
    {
        match next_child(fmt, id, branches, pos) {
            None => {
                break;
            },
            Some((p, branch)) => {
                if first {
                    fmt.write_str("if");
                    fmt.space();
                } else {
                    fmt.space();
                    fmt.write_str("else");
                    fmt.space();
                    fmt.write_str("if");
                    fmt.space();
                }
                first = false;
                if let Some(cond) = child(fmt, branch, kinds_expr(), Around::Any) {
                    expr(fmt, cond);
                }
                fmt.space();
                if let Some(b) = child(fmt, branch, one(SyntaxKind::BLOCK), Around::Any) {
                    block(fmt, b, true);
                }
                pos = p;
            },
        }
    }
    if let Some(else_block) = child(fmt, id, one(SyntaxKind::BLOCK), Around::Any) {
        fmt.space();
        fmt.write_str("else");
        fmt.space();
        block(fmt, else_block, true);
    }
}

fn expr_match(fmt: &mut Formatter, id: NodeID)
    requires
        old(fmt).wf(),
        id.0 < old(fmt).tree_view().nodes_view().len(),
        old(fmt).position().2 <= id.0 + 1,
    ensures
        fmt_frame(final(fmt), old(fmt)),
    decreases old(fmt).tree_view().nodes_view().len() - id.0, 2nat,
{
    fmt.write_str("match");
    fmt.space();
    if let Some(on) = child(fmt, id, kinds_expr(), Around::Any) {
        expr(fmt, on);
    }
    fmt.space();
    if let Some(arms) = child(fmt, id, one(SyntaxKind::MATCH_ARM_LIST), Around::Any) {
        braced_list(fmt, arms, ListElement::MatchArm, true);
    }
}

fn match_arm(fmt: &mut Formatter, id: NodeID)
    requires
        old(fmt).wf(),
        id.0 < old(fmt).tree_view().nodes_view().len(),
        old(fmt).position().2 <= id.0 + 1,
    ensures
        fmt_frame(final(fmt), old(fmt)),
    decreases old(fmt).tree_view().nodes_view().len() - id.0, 2nat,
{
    fmt.tab_depth();
    if let Some(p) = child(fmt, id, kinds_pat(), Around::Any) {
        pat(fmt, p);
    }
    fmt.space();
    fmt.write_str("->");
    fmt.space();
    if let Some(e) = child(fmt, id, kinds_expr(), Around::Any) {
        expr(fmt, e);
    }
    fmt.write(',');
}

fn field_init_list(fmt: &mut Formatter, id: NodeID)
    requires
        old(fmt).wf(),
        id.0 < old(fmt).tree_view().nodes_view().len(),
        old(fmt).position().2 <= id.0 + 1,
    ensures
        fmt_frame(final(fmt), old(fmt)),
    decreases old(fmt).tree_view().nodes_view().len() - id.0, 2nat,
{
    if content_empty(fmt, id) {
        fmt.write('{');
        fmt.write('}');
        return;
    }
    let inits = one(SyntaxKind::FIELD_INIT);
    let wrap = fmt.wrap_line_break_based(id, inits);
    let empty = next_child(fmt, id, inits, 0).is_none();
    if wrap || empty {
        braced_list(fmt, id, ListElement::FieldInit, true);
        return;
    }
    fmt.write('{');
    fmt.space();
    comma_list(fmt, id, inits, ListPart::FieldInit);
    fmt.space();
    fmt.write('}');
}

fn field_init(fmt: &mut Formatter, id: NodeID)
    requires
        old(fmt).wf(),
        id.0 < old(fmt).tree_view().nodes_view().len(),
        old(fmt).position().2 <= id.0 + 1,
    ensures
        fmt_frame(final(fmt), old(fmt)),
    decreases old(fmt).tree_view().nodes_view().len() - id.0, 2nat,
{
    if let Some(n) = child(fmt, id, one(SyntaxKind::NAME), Around::Any) {
        name(fmt, n);
    }
    if let Some(e) = child(fmt, id, kinds_expr(), Around::Any) {
        fmt.write(':');
        fmt.space();
        expr(fmt, e);
    }
}

fn pat(fmt: &mut Formatter, id: NodeID)
    requires
        old(fmt).wf(),
        id.0 < old(fmt).tree_view().nodes_view().len(),
        old(fmt).position().2 <= id.0 + 1,
    ensures
        fmt_frame(final(fmt), old(fmt)),
    decreases old(fmt).tree_view().nodes_view().len() - id.0, 3nat,
{
    match kind_of(fmt, id) {
        SyntaxKind::PAT_WILD => fmt.write('_'),
        SyntaxKind::PAT_LIT => {
            if let Some(op) = find_un_op(fmt, id) {
                fmt.write_str(op.as_str());
            }
            if let Some(l) = child(fmt, id, kinds_lit(), Around::Any) {
                lit(fmt, l);
            }
        },
        SyntaxKind::PAT_ITEM => {
            if let Some(path) = child(fmt, id, one(SyntaxKind::PATH), Around::Any) {
                path_segments(fmt, path, true);
            }
            if let Some(binds) = child(fmt, id, one(SyntaxKind::BIND_LIST), Around::Any) {
                bind_list(fmt, binds);
            }
        },
        SyntaxKind::PAT_VARIANT => {
            fmt.write('.');
            if let Some(n) = child(fmt, id, one(SyntaxKind::NAME), Around::Any) {
                name(fmt, n);
            }
            if let Some(binds) = child(fmt, id, one(SyntaxKind::BIND_LIST), Around::Any) {
                bind_list(fmt, binds);
            }
        },
        SyntaxKind::PAT_OR => pat_or(fmt, id),
        _ => {},
    }
}

fn pat_or(fmt: &mut Formatter, id: NodeID)
    requires
        old(fmt).wf(),
        id.0 < old(fmt).tree_view().nodes_view().len(),
        old(fmt).position().2 <= id.0 + 1,
    ensures
        fmt_frame(final(fmt), old(fmt)),
    decreases old(fmt).tree_view().nodes_view().len() - id.0, 2nat,
{
    let pats = kinds_pat();
    let wrap = fmt.wrap_line_break_based(id, pats);
    let ghost f0 = *fmt;
    let ghost n = fmt.tree_view().node_content(id.0 as int).len();
    let mut first = true;
    let mut pos: usize = 0;
    loop
        invariant
            fmt_frame(fmt, &f0),
            f0.tree_view() == old(fmt).tree_view(),
            f0.position().2 == old(fmt).position().2,
            fmt.position().2 <= id.0 + 1,
            id.0 < fmt.tree_view().nodes_view().len(),
            n == fmt.tree_view().node_content(id.0 as int).len(),
            pos <= n,
        decreases n - pos,
    {
        match next_child(fmt, id, pats, pos) {
            None => {
                break;
            },
            Some((p, c)) => {
                if !first {
                    if wrap {
                        fmt.new_line();
                        fmt.tab_depth();
                    } else {
                        fmt.space();
                    }
                    fmt.write('|');
                    fmt.space();
                }
                first = false;
                pat(fmt, c);
                pos = p;
            },
        }
    }
}

fn bind(fmt: &mut Formatter, id: NodeID)
    requires
        old(fmt).wf(),
        id.0 < old(fmt).tree_view().nodes_view().len(),
        old(fmt).position().2 <= id.0 + 1,
    ensures
        fmt_frame(final(fmt), old(fmt)),
        ({
            let tree = old(fmt).tree_view();
            let is_mut = first_passing(
                &tree,
                tree.node_content(id.0 as int),
                TokenTest::Is(Token::KwMut),
            ) is Some;
            match name_child(&tree, id.0 as int) {
                Some(n) => final(fmt).ranges() == old(fmt).ranges() + name_ranges(&tree, n.0 as int)
                    && if is_mut {
                    final(fmt).strings() == old(fmt).strings().push("mut"@) && final(fmt).events()
                        == old(fmt).events() + seq![
                        FormatEvent::String { string_idx: old(fmt).strings().len() as usize },
                        FormatEvent::Space,
                    ] + name_events(&tree, n.0 as int, old(fmt).ranges().len())
                } else {
                    final(fmt).strings() == old(fmt).strings() && final(fmt).events() == old(
                        fmt,
                    ).events() + name_events(&tree, n.0 as int, old(fmt).ranges().len())
                },
                None => final(fmt).events() == old(fmt).events().push(FormatEvent::Char('_'))
                    && final(fmt).ranges() == old(fmt).ranges() && final(fmt).strings() == old(
                    fmt,
                ).strings(),
            }
        }),
{
    let ghost f0 = *fmt;
    let names = one(SyntaxKind::NAME);
    proof {
        lemma_child_one(&f0.tree_view(), f0.tree_view().node_content(id.0 as int), names, SyntaxKind::NAME);
    }
    if let Some(n) = child(fmt, id, names, Around::Any) {
        if has_token(fmt, id, Token::KwMut) {
            fmt.write_str("mut");
            fmt.space();
            let ghost f1 = *fmt;
            name(fmt, n);
            proof {
                assert(f1.events() =~= f0.events() + seq![
                    FormatEvent::String { string_idx: f0.strings().len() as usize },
                    FormatEvent::Space,
                ]);
                assert(fmt.events() =~= f0.events() + seq![
                    FormatEvent::String { string_idx: f0.strings().len() as usize },
                    FormatEvent::Space,
                ] + name_events(&f0.tree_view(), n.0 as int, f0.ranges().len()));
            }
        } else {
            name(fmt, n);
        }
    } else {
        fmt.write('_');
    }
}

fn bind_list(fmt: &mut Formatter, id: NodeID)
    requires
        old(fmt).wf(),
        id.0 < old(fmt).tree_view().nodes_view().len(),
        old(fmt).position().2 <= id.0 + 1,
    ensures
        fmt_frame(final(fmt), old(fmt)),
    decreases old(fmt).tree_view().nodes_view().len() - id.0, 2nat,
{
    fmt.write('(');
    comma_list(fmt, id, one(SyntaxKind::BIND), ListPart::Bind);
    fmt.write(')');
}

fn args_list(fmt: &mut Formatter, id: NodeID)
    requires
        old(fmt).wf(),
        id.0 < old(fmt).tree_view().nodes_view().len(),
        old(fmt).position().2 <= id.0 + 1,
    ensures
        fmt_frame(final(fmt), old(fmt)),
    decreases old(fmt).tree_view().nodes_view().len() - id.0, 2nat,
{
    if content_empty(fmt, id) {
        fmt.write('(');
        fmt.write(')');
        return;
    }
    let exprs = kinds_expr();
    let wrap = fmt.wrap_line_break_based(id, exprs);
    let empty = next_child(fmt, id, exprs, 0).is_none();
    if wrap || empty {
        fmt.write('(');
        fmt.new_line();
        fmt.tab_inc();
        interleaved_node_list(fmt, id, ListElement::Expr);
        fmt.tab_dec();
        fmt.tab_depth();
        fmt.write(')');
        return;
    }
    fmt.write('(');
    comma_list(fmt, id, exprs, ListPart::Expr);
    fmt.write(')');
}

/// The segments of a path separated by `.`, each with its polymorphic arguments; in
/// an expression or pattern those follow a `:`.
fn path_segments(fmt: &mut Formatter, id: NodeID, in_expr: bool)
    requires
        old(fmt).wf(),
        id.0 < old(fmt).tree_view().nodes_view().len(),
        old(fmt).position().2 <= id.0 + 1,
    ensures
        fmt_frame(final(fmt), old(fmt)),
    decreases old(fmt).tree_view().nodes_view().len() - id.0, 2nat,
{
    let segments = one(SyntaxKind::PATH_SEGMENT);
    let ghost f0 = *fmt;
    let ghost n = fmt.tree_view().node_content(id.0 as int).len();
    let mut first = true;
    let mut pos: usize = 0;
    loop
        invariant
            fmt_frame(fmt, &f0),
            f0.tree_view() == old(fmt).tree_view(),
            f0.position().2 == old(fmt).position().2,
            fmt.position().2 <= id.0 + 1,
            id.0 < fmt.tree_view().nodes_view().len(),
            n == fmt.tree_view().node_content(id.0 as int).len(),
            pos <= n,
        decreases n - pos,
    {
        match next_child(fmt, id, segments, pos) {
            None => {
                break;
            },
            Some((p, segment)) => {
                if !first {
                    fmt.write('.');
                }
                first = false;
                if let Some(nm) = child(fmt, segment, one(SyntaxKind::NAME), Around::Any) {
                    name(fmt, nm);
                }
                if let Some(args) = child(fmt, segment, one(SyntaxKind::POLYMORPH_ARGS), Around::Any) {
                    if in_expr {
                        fmt.write(':');
                    }
                    fmt.write('(');
                    comma_list(fmt, args, kinds_type(), ListPart::Type);
                    fmt.write(')');
                }
                pos = p;
            },
        }
    }
}

fn polymorph_params(fmt: &mut Formatter, id: NodeID)
    requires
        old(fmt).wf(),
        id.0 < old(fmt).tree_view().nodes_view().len(),
        old(fmt).position().2 <= id.0 + 1,
    ensures
        fmt_frame(final(fmt), old(fmt)),
    decreases old(fmt).tree_view().nodes_view().len() - id.0, 2nat,
{
    fmt.write('(');
    comma_list(fmt, id, one(SyntaxKind::NAME), ListPart::Name);
    fmt.write(')');
}

/// Formats the source file of `tree`, whose source is `source` with the line ranges
/// `line_ranges`, into the events of `cache`; gives the cache back.
pub fn format_events(
    tree: &SyntaxTree,
    source: &[u8],
    line_ranges: &[TextRange],
    cache: FormatterCache,
) -> (r: FormatterCache)
    requires
        tree.wf(),
        tree.nodes_view().len() + 2 <= u32::MAX,
        lexed_wf(&tree.token_list(), source@.len() as int),
    ensures
        r.wf(source@.len()),
{
    let mut fmt = Formatter::new(tree, source, line_ranges, cache);
    source_file(&mut fmt, NodeID(0));
    fmt.into_cache()
}

/// The formatted text of the source file of `tree`, as UTF-8 bytes.
pub fn format(
    tree: &SyntaxTree,
    source: &[u8],
    line_ranges: &[TextRange],
    cache: &mut FormatterCache,
) -> (r: Vec<u8>)
    requires
        tree.wf(),
        tree.nodes_view().len() + 2 <= u32::MAX,
        lexed_wf(&tree.token_list(), source@.len() as int),
    ensures
        final(cache).wf(source@.len()),
        r@ == events_text(final(cache).events_view(), final(cache), source@),
{
    let mut taken = FormatterCache::new();
    std::mem::swap(&mut taken, cache);
    let mut filled = format_events(tree, source, line_ranges, taken);
    std::mem::swap(&mut filled, cache);
    render(cache, source)
}

} // verus!
