use vstd::prelude::*;
use vstd::string::StringSliceAdditionalSpecFns;

verus! {

/// Byte offset into a source text.
#[derive(Copy, Clone, PartialEq, Eq, Debug, Structural)]
pub struct TextOffset(pub u32);

/// Byte range `start..end` in a source text; well formed when `start <= end`.
#[derive(Copy, Clone, PartialEq, Eq, Debug, Structural)]
pub struct TextRange {
    pub start: TextOffset,
    pub end: TextOffset,
}

/// 1-based line number and 1-based column counted in characters.
#[derive(Copy, Clone, PartialEq, Eq, Debug, Structural)]
pub struct TextLocation {
    pub line: u32,
    pub col: u32,
}

impl From<u32> for TextOffset {
    fn from(value: u32) -> (r: TextOffset)
        ensures
            r.0 == value,
    {
        TextOffset(value)
    }
}

impl vstd::std_specs::convert::FromSpecImpl<u32> for TextOffset {
    open spec fn obeys_from_spec() -> bool {
        true
    }

    open spec fn from_spec(v: u32) -> TextOffset {
        TextOffset(v)
    }
}

impl From<TextOffset> for u32 {
    fn from(value: TextOffset) -> (r: u32)
        ensures
            r == value.0,
    {
        value.0
    }
}

impl vstd::std_specs::convert::FromSpecImpl<TextOffset> for u32 {
    open spec fn obeys_from_spec() -> bool {
        true
    }

    open spec fn from_spec(v: TextOffset) -> u32 {
        v.0
    }
}

impl TextOffset {
    /// The offset as a `usize` index.
    pub fn index(self) -> (r: usize)
        ensures
            r == self.0,
    {
        self.0 as usize
    }
}

impl TextRange {
    pub open spec fn wf(self) -> bool {
        self.start.0 <= self.end.0
    }

    pub open spec fn spec_len(self) -> int {
        self.end.0 - self.start.0
    }

    /// Range `start..end`; the caller guarantees `start <= end`.
    pub fn new(start: TextOffset, end: TextOffset) -> (r: TextRange)
        requires
            start.0 <= end.0,
        ensures
            r.start == start,
            r.end == end,
            r.wf(),
    {
        TextRange { start, end }
    }

    pub fn zero() -> (r: TextRange)
        ensures
            r.start.0 == 0,
            r.end.0 == 0,
    {
        TextRange { start: TextOffset(0), end: TextOffset(0) }
    }

    pub fn empty_at(offset: TextOffset) -> (r: TextRange)
        ensures
            r.start == offset,
            r.end == offset,
    {
        TextRange { start: offset, end: offset }
    }

    pub fn start(self) -> (r: TextOffset)
        ensures
            r == self.start,
    {
        self.start
    }

    pub fn end(self) -> (r: TextOffset)
        ensures
            r == self.end,
    {
        self.end
    }

    pub fn len(self) -> (r: u32)
        requires
            self.wf(),
        ensures
            r == self.spec_len(),
    {
        self.end.0 - self.start.0
    }

    pub fn is_empty(self) -> (r: bool)
        requires
            self.wf(),
        ensures
            r == (self.spec_len() == 0),
    {
        self.len() == 0
    }

    pub fn as_usize(self) -> (r: core::ops::Range<usize>)
        ensures
            r.start == self.start.0,
            r.end == self.end.0,
    {
        core::ops::Range { start: self.start.0 as usize, end: self.end.0 as usize }
    }

    pub fn extend_by(&mut self, by: TextOffset)
        requires
            old(self).end.0 + by.0 <= u32::MAX,
        ensures
            final(self).start == old(self).start,
            final(self).end.0 == old(self).end.0 + by.0,
    {
        self.end = TextOffset(self.end.0 + by.0);
    }

    pub fn contains_exclusive(self, offset: TextOffset) -> (r: bool)
        ensures
            r == (self.start.0 <= offset.0 && offset.0 < self.end.0),
    {
        offset.0 >= self.start.0 && offset.0 < self.end.0
    }

    pub fn contains_inclusive(self, offset: TextOffset) -> (r: bool)
        ensures
            r == (self.start.0 <= offset.0 && offset.0 <= self.end.0),
    {
        offset.0 >= self.start.0 && offset.0 <= self.end.0
    }
}

impl TextLocation {
    fn new(line: u32, col: u32) -> (r: TextLocation)
        ensures
            r.line == line,
            r.col == col,
    {
        TextLocation { line, col }
    }

    pub fn line(&self) -> (r: u32)
        ensures
            r == self.line,
    {
        self.line
    }

    pub fn line_index(&self) -> (r: usize)
        requires
            self.line >= 1,
        ensures
            r == self.line - 1,
    {
        (self.line - 1) as usize
    }

    pub fn col(&self) -> (r: u32)
        ensures
            r == self.col,
    {
        self.col
    }
}

pub open spec fn is_newline(b: u8) -> bool {
    b == 10u8
}

/// `ranges` cut `bytes` into its lines: each line ends with (and includes) its
/// `\n`, except the last one which ends at the end of the text; no line is empty.
pub open spec fn is_line_partition(ranges: Seq<TextRange>, bytes: Seq<u8>) -> bool {
    &&& bytes.len() == 0 <==> ranges.len() == 0
    &&& ranges.len() > 0 ==> ranges[0].start.0 == 0
    &&& ranges.len() > 0 ==> ranges.last().end.0 == bytes.len()
    &&& forall|i: int| 0 <= i < ranges.len() ==> #[trigger] ranges[i].start.0 < ranges[i].end.0
    &&& forall|i: int| 0 <= i < ranges.len() - 1 ==> #[trigger] ranges[i].end == ranges[i + 1].start
    &&& forall|i: int, k: int|
        0 <= i < ranges.len() && ranges[i].start.0 <= k < ranges[i].end.0 - 1 ==> !is_newline(
            #[trigger] bytes[k],
        ) && #[trigger] ranges[i].end.0 > 0
    &&& forall|i: int| 0 <= i < ranges.len() - 1 ==> is_newline(bytes[#[trigger] ranges[i].end.0 - 1])
}

/// The number of bytes in `bytes[lo..hi]` that start a UTF-8 encoded character,
/// which for valid UTF-8 is the number of characters in that slice.
pub open spec fn char_count(bytes: Seq<u8>, lo: int, hi: int) -> int
    decreases hi - lo,
{
    if hi <= lo {
        0
    } else {
        char_count(bytes, lo, hi - 1) + if is_char_start(bytes[hi - 1]) {
            1int
        } else {
            0int
        }
    }
}

pub open spec fn is_char_start(b: u8) -> bool {
    b < 128 || b >= 192
}

/// Fill `line_ranges` with the ranges of the lines of `text`.
pub fn find_line_ranges(line_ranges: &mut Vec<TextRange>, text: &str)
    requires
        text.spec_bytes().len() <= u32::MAX,
    ensures
        is_line_partition(final(line_ranges)@, text.spec_bytes()),
{
    line_ranges.clear();
    let bytes = text.as_bytes();
    let n = bytes.len();
    let mut range = TextRange::zero();
    let mut i: usize = 0;
    while i < n
        invariant
            n == bytes@.len(),
            n <= u32::MAX,
            i <= n,
            range.end.0 == i,
            range.start.0 <= range.end.0,
            forall|k: int| range.start.0 <= k < i ==> !is_newline(#[trigger] bytes@[k]),
            line_ranges@.len() == 0 ==> range.start.0 == 0,
            line_ranges@.len() > 0 ==> line_ranges@[0].start.0 == 0,
            line_ranges@.len() > 0 ==> line_ranges@.last().end == range.start,
            line_ranges@.len() > 0 ==> is_newline(bytes@[line_ranges@.last().end.0 - 1]),
            forall|j: int| 0 <= j < line_ranges@.len() ==> #[trigger] line_ranges@[j].start.0 < line_ranges@[j].end.0,
            forall|j: int|
                0 <= j < line_ranges@.len() - 1 ==> #[trigger] line_ranges@[j].end
                    == line_ranges@[j + 1].start,
            forall|j: int, k: int|
                0 <= j < line_ranges@.len() && line_ranges@[j].start.0 <= k < line_ranges@[j].end.0
                    - 1 ==> !is_newline(#[trigger] bytes@[k]) && #[trigger] line_ranges@[j].end.0 > 0,
            forall|j: int|
                0 <= j < line_ranges@.len() - 1 ==> is_newline(
                    bytes@[#[trigger] line_ranges@[j].end.0 - 1],
                ),
        decreases n - i,
    {
        let b = bytes[i];
        range.extend_by(TextOffset(1));
        i = i + 1;
        if b == 10u8 {
            let ghost old_ranges = line_ranges@;
            line_ranges.push(range);
            assert(line_ranges@.last() == range);
            assert forall|j: int| 0 <= j < line_ranges@.len() - 1 implies is_newline(
                bytes@[#[trigger] line_ranges@[j].end.0 - 1],
            ) by {
                if j < old_ranges.len() - 1 {
                    assert(line_ranges@[j] == old_ranges[j]);
                } else {
                    assert(line_ranges@[j] == old_ranges.last());
                }
            }
            range = TextRange::empty_at(range.end());
        }
    }
    if !range.is_empty() {
        line_ranges.push(range);
    }
    proof {
        let ranges = line_ranges@;
        let by = text.spec_bytes();
        assert(by == bytes@);
        if by.len() == 0 {
            assert(ranges.len() == 0);
        }
        if ranges.len() == 0 {
            assert(range.start.0 == range.end.0);
        }
    }
}

/// Find the line and column of `offset` in `text`, given the line ranges of `text`.
pub fn find_text_location(text: &str, offset: TextOffset, line_ranges: &[TextRange]) -> (r:
    TextLocation)
    requires
        is_line_partition(line_ranges@, text.spec_bytes()),
        text.spec_bytes().len() > 0,
        offset.0 <= text.spec_bytes().len(),
        text.spec_bytes().len() < u32::MAX,
        line_ranges@.len() < u32::MAX,
    ensures
        1 <= r.line <= line_ranges@.len(),
        ({
            let i = r.line - 1;
            let range = line_ranges@[i];
            &&& range.start.0 <= offset.0
            &&& offset.0 < range.end.0 || (i == line_ranges@.len() - 1 && offset.0 == range.end.0)
            &&& r.col == 1 + char_count(text.spec_bytes(), range.start.0 as int, offset.0 as int)
        }),
{
    let bytes = text.as_bytes();
    let len = line_ranges.len();
    let mut size = len;
    let mut left: usize = 0;
    let mut right: usize = size;
    let ghost ranges = line_ranges@;
    proof {
        lemma_line_partition_sorted(ranges, bytes@);
    }
    while left < right
        invariant
            len == ranges.len(),
            ranges == line_ranges@,
            bytes@ == text.spec_bytes(),
            is_line_partition(ranges, bytes@),
            offset.0 <= bytes@.len(),
            bytes@.len() < u32::MAX,
            len < u32::MAX,
            left <= right <= len,
            size == right - left,
            left > 0 ==> ranges[left - 1].end.0 <= offset.0,
            left == len && len > 0 ==> ranges[len - 1].end.0 < offset.0,
            right < len ==> offset.0 < ranges[right as int].start.0,
            forall|a: int, b: int|
                0 <= a <= b < ranges.len() ==> ranges[a].start.0 <= #[trigger] ranges[b].start.0
                    && #[trigger] ranges[a].end.0 <= ranges[b].end.0,
            forall|a: int, b: int|
                0 <= a < b < ranges.len() ==> #[trigger] ranges[a].end.0 <= #[trigger] ranges[b].start.0,
        decreases right - left,
    {
        let mid = left + size / 2;
        let range = line_ranges[mid];
        let contains = if mid + 1 == len {
            range.contains_inclusive(offset)
        } else {
            range.contains_exclusive(offset)
        };
        if contains {
            let col = count_chars(bytes, range.start.0 as usize, offset.0 as usize);
            return TextLocation::new(mid as u32 + 1, col + 1);
        } else if offset.0 < range.start.0 {
            right = mid;
        } else {
            left = mid + 1;
        }
        size = right - left;
    }
    proof {
        // the search space is empty: the offset would lie between two lines
        assert(left == right);
        if left == len {
            assert(ranges.last().end.0 == bytes@.len());
            assert(false);
        } else if left == 0 {
            assert(ranges[0].start.0 == 0);
            assert(false);
        } else {
            assert(ranges[left - 1].end == ranges[left as int].start);
            assert(false);
        }
    }
    TextLocation::new(0, 0)
}

/// The lines of a partition follow each other in order.
pub proof fn lemma_line_partition_sorted(ranges: Seq<TextRange>, bytes: Seq<u8>)
    requires
        is_line_partition(ranges, bytes),
    ensures
        forall|a: int, b: int|
            0 <= a <= b < ranges.len() ==> ranges[a].start.0 <= #[trigger] ranges[b].start.0
                && #[trigger] ranges[a].end.0 <= ranges[b].end.0,
        forall|a: int, b: int|
            0 <= a < b < ranges.len() ==> #[trigger] ranges[a].end.0 <= #[trigger] ranges[b].start.0,
{
    assert forall|a: int, b: int| 0 <= a < b < ranges.len() implies #[trigger] ranges[a].end.0
        <= #[trigger] ranges[b].start.0 by {
        lemma_sorted_step(ranges, bytes, a, b);
    }
    assert forall|a: int, b: int| 0 <= a <= b < ranges.len() implies ranges[a].start.0
        <= #[trigger] ranges[b].start.0 && #[trigger] ranges[a].end.0 <= ranges[b].end.0 by {
        if a < b {
            lemma_sorted_step(ranges, bytes, a, b);
        }
    }
}

proof fn lemma_sorted_step(ranges: Seq<TextRange>, bytes: Seq<u8>, a: int, b: int)
    requires
        is_line_partition(ranges, bytes),
        0 <= a < b < ranges.len(),
    ensures
        ranges[a].end.0 <= ranges[b].start.0,
    decreases b - a,
{
    assert(ranges[b - 1].end == ranges[b].start);
    if a < b - 1 {
        lemma_sorted_step(ranges, bytes, a, b - 1);
        assert(ranges[b - 1].start.0 < ranges[b - 1].end.0);
    }
}

/// Number of characters (UTF-8 start bytes) in `bytes[lo..hi]`.
fn count_chars(bytes: &[u8], lo: usize, hi: usize) -> (r: u32)
    requires
        lo <= hi <= bytes@.len(),
        hi - lo <= u32::MAX,
    ensures
        r == char_count(bytes@, lo as int, hi as int),
        r <= hi - lo,
{
    let mut count: u32 = 0;
    let mut i: usize = lo;
    while i < hi
        invariant
            lo <= i <= hi <= bytes@.len(),
            hi - lo <= u32::MAX,
            count == char_count(bytes@, lo as int, i as int),
            count <= i - lo,
        decreases hi - i,
    {
        let b = bytes[i];
        if b < 128 || b >= 192 {
            count = count + 1;
        }
        i = i + 1;
    }
    count
}

} // verus!
