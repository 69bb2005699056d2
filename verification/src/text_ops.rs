use vstd::prelude::*;
use vstd::string::StrSliceExecFns;
use vstd::string::StringSliceAdditionalSpecFns;
use vstd::utf8::encode_utf8;
use crate::session::FileData;
use crate::text::{find_text_location, is_char_start, is_line_partition, TextOffset, TextRange};

verus! {

/// A position in a text as an editor gives it: a line (from 0) and a column in UTF-16
/// code units.
#[derive(Copy, Clone, PartialEq, Eq, Debug, Structural)]
pub struct Position {
    pub line: u32,
    pub character: u32,
}

/// A range between two editor positions.
#[derive(Copy, Clone, PartialEq, Eq, Debug, Structural)]
pub struct Range {
    pub start: Position,
    pub end: Position,
}

/// UTF-16 code units of `c`.
pub open spec fn char_utf16_len(c: char) -> nat {
    if (c as u32) < 0x10000 {
        1
    } else {
        2
    }
}

/// UTF-16 code units of the characters `s`.
pub open spec fn utf16_len(s: Seq<char>) -> nat
    decreases s.len(),
{
    if s.len() == 0 {
        0
    } else {
        utf16_len(s.drop_last()) + char_utf16_len(s.last())
    }
}

/// UTF-16 code units of the character that the UTF-8 byte `b` starts; none for a
/// byte inside a character.
pub open spec fn byte_utf16_len(b: u8) -> nat {
    if !is_char_start(b) {
        0
    } else if b >= 0xF0 {
        2
    } else {
        1
    }
}

/// UTF-16 code units of the UTF-8 text `bytes[lo..hi]`.
pub open spec fn bytes_utf16_len(bytes: Seq<u8>, lo: int, hi: int) -> nat
    decreases hi - lo,
{
    if hi <= lo {
        0
    } else {
        bytes_utf16_len(bytes, lo, hi - 1) + byte_utf16_len(bytes[hi - 1])
    }
}

/// Length of `string` in UTF-16 code units.
pub fn string_len_utf16(string: &str) -> (r: u32)
    requires
        string@.len() * 2 <= u32::MAX,
    ensures
        r == utf16_len(string@),
{
    let n = string.unicode_len();
    let mut len: u32 = 0;
    let mut i: usize = 0;
    while i < n
        invariant
            n == string@.len(),
            n * 2 <= u32::MAX,
            0 <= i <= n,
            len == utf16_len(string@.subrange(0, i as int)),
            len <= 2 * i,
        decreases n - i,
    {
        let c = string.get_char(i);
        proof {
            assert(string@.subrange(0, i + 1).drop_last() =~= string@.subrange(0, i as int));
        }
        if (c as u32) < 0x10000 {
            len = len + 1;
        } else {
            len = len + 2;
        }
        i = i + 1;
    }
    proof {
        assert(string@.subrange(0, n as int) =~= string@);
    }
    len
}

/// UTF-16 code units of `bytes[lo..hi]`.
fn bytes_len_utf16(bytes: &[u8], lo: usize, hi: usize) -> (r: u32)
    requires
        lo <= hi <= bytes@.len(),
        (hi - lo) * 2 <= u32::MAX,
    ensures
        r == bytes_utf16_len(bytes@, lo as int, hi as int),
{
    let mut len: u32 = 0;
    let mut i = lo;
    while i < hi
        invariant
            lo <= i <= hi <= bytes@.len(),
            (hi - lo) * 2 <= u32::MAX,
            len == bytes_utf16_len(bytes@, lo as int, i as int),
            len <= 2 * (i - lo),
        decreases hi - i,
    {
        let b = bytes[i];
        if b < 0x80 || b >= 0xC0 {
            if b >= 0xF0 {
                len = len + 2;
            } else {
                len = len + 1;
            }
        }
        i = i + 1;
    }
    len
}

/// Byte range of line `line` (from 0); the empty range at the end for the line after
/// the last, and at 0 for a file without lines. None for a line further on.
fn line_range(file: &FileData, line: u32) -> (r: Option<TextRange>)
    ensures
        file.line_ranges@.len() == 0 ==> r == Some(TextRange { start: TextOffset(0), end: TextOffset(0) }),
        file.line_ranges@.len() > 0 && line < file.line_ranges@.len() ==> r == Some(
            file.line_ranges@[line as int],
        ),
        file.line_ranges@.len() > 0 && line == file.line_ranges@.len() ==> r == Some(
            TextRange { start: file.line_ranges@.last().end, end: file.line_ranges@.last().end },
        ),
        file.line_ranges@.len() > 0 && line > file.line_ranges@.len() ==> r is None,
{
    let n = file.line_ranges.len();
    if n == 0 {
        Some(TextRange::zero())
    } else if (line as usize) < n {
        Some(file.line_ranges[line as usize])
    } else if line as usize == n {
        let last = file.line_ranges[n - 1];
        Some(TextRange { start: last.end, end: last.end })
    } else {
        None
    }
}

/// Byte offset of the editor position `position` in `file`: the first character
/// boundary of its line after `position.character` UTF-16 code units. None where the
/// line does not exist or has no such boundary.
pub fn position_utf16_to_offset_utf8(file: &FileData, position: Position) -> (r: Option<TextOffset>)
    requires
        is_line_partition(file.line_ranges@, encode_utf8(file.source@)),
    ensures
        r matches Some(o) ==> ({
            let bytes = encode_utf8(file.source@);
            let line = line_range_spec(file.line_ranges@, position.line);
            &&& line is Some
            &&& first_boundary_with(
                bytes,
                line->Some_0.start.0 as int,
                line->Some_0.end.0 as int,
                o.0 as int,
                position.character as nat,
            )
        }),
        r is None ==> ({
            let bytes = encode_utf8(file.source@);
            let line = line_range_spec(file.line_ranges@, position.line);
            line is None || forall|j: int|
                line->Some_0.start.0 <= j <= line->Some_0.end.0 && is_boundary(
                    bytes,
                    line->Some_0.end.0 as int,
                    j,
                ) ==> bytes_utf16_len(bytes, line->Some_0.start.0 as int, j) != position.character
        }),
{
    let range = match line_range(file, position.line) {
        Some(r) => r,
        None => {
            return None;
        },
    };
    let bytes = file.source.as_str().as_bytes();
    let start = range.start.0 as usize;
    let end = range.end.0 as usize;
    proof {
        lemma_line_range_in_text(file.line_ranges@, bytes@, position.line);
    }
    let mut count: u64 = 0;
    let mut i = start;
    while i <= end
        invariant
            bytes@ == encode_utf8(file.source@),
            line_range_spec(file.line_ranges@, position.line) == Some(range),
            start == range.start.0,
            end == range.end.0,
            start <= i <= end + 1,
            end <= bytes@.len(),
            i <= end ==> count == bytes_utf16_len(bytes@, start as int, i as int),
            count <= 2 * (i - start),
            forall|j: int|
                start <= j < i && is_boundary(bytes@, end as int, j) ==> bytes_utf16_len(
                    bytes@,
                    start as int,
                    j,
                ) != position.character,
        decreases end + 1 - i,
    {
        if count == position.character as u64 && (i == end || bytes[i] < 0x80 || bytes[i] >= 0xC0) {
            return Some(TextOffset(i as u32));
        }
        if i == end {
            return None;
        }
        let b = bytes[i];
        if b < 0x80 || b >= 0xC0 {
            if b >= 0xF0 {
                count = count + 2;
            } else {
                count = count + 1;
            }
        }
        i = i + 1;
    }
    None
}

/// `j` is where a character starts in a line ending at `end`, or that end.
pub open spec fn is_boundary(bytes: Seq<u8>, end: int, j: int) -> bool {
    j == end || is_char_start(bytes[j])
}

/// `o` is the first character boundary of the line `lo..hi` with `units` UTF-16 code
/// units before it on the line.
pub open spec fn first_boundary_with(bytes: Seq<u8>, lo: int, hi: int, o: int, units: nat) -> bool {
    &&& lo <= o <= hi
    &&& is_boundary(bytes, hi, o)
    &&& bytes_utf16_len(bytes, lo, o) == units
    &&& forall|j: int| lo <= j < o && is_boundary(bytes, hi, j) ==> bytes_utf16_len(bytes, lo, j) != units
}

proof fn lemma_units_grow(bytes: Seq<u8>, lo: int, a: int, b: int)
    requires
        lo <= a <= b,
    ensures
        bytes_utf16_len(bytes, lo, a) <= bytes_utf16_len(bytes, lo, b),
    decreases b - a,
{
    if a < b {
        lemma_units_grow(bytes, lo, a, b - 1);
    }
}

/// The character boundaries of a line have distinct UTF-16 positions: each one is the
/// first boundary of its line with its position, so going from a byte offset at a
/// character boundary to an editor position and back gives the offset again.
pub proof fn law_boundary_position_unique(bytes: Seq<u8>, lo: int, hi: int, o: int)
    requires
        0 <= lo <= o <= hi <= bytes.len(),
        is_boundary(bytes, hi, o),
    ensures
        first_boundary_with(bytes, lo, hi, o, bytes_utf16_len(bytes, lo, o)),
{
    assert forall|j: int| lo <= j < o && is_boundary(bytes, hi, j) implies bytes_utf16_len(bytes, lo, j)
        != bytes_utf16_len(bytes, lo, o) by {
        assert(is_char_start(bytes[j]));
        assert(bytes_utf16_len(bytes, lo, j + 1) == bytes_utf16_len(bytes, lo, j) + byte_utf16_len(bytes[j]));
        lemma_units_grow(bytes, lo, j + 1, o);
    }
}

/// The range of line `line` as `line_range` gives it.
pub open spec fn line_range_spec(ranges: Seq<TextRange>, line: u32) -> Option<TextRange> {
    if ranges.len() == 0 {
        Some(TextRange { start: TextOffset(0), end: TextOffset(0) })
    } else if line < ranges.len() {
        Some(ranges[line as int])
    } else if line == ranges.len() {
        Some(TextRange { start: ranges.last().end, end: ranges.last().end })
    } else {
        None
    }
}

proof fn lemma_line_range_in_text(ranges: Seq<TextRange>, bytes: Seq<u8>, line: u32)
    requires
        is_line_partition(ranges, bytes),
    ensures
        line_range_spec(ranges, line) matches Some(r) ==> r.start.0 <= r.end.0 <= bytes.len(),
{
    if ranges.len() > 0 && line < ranges.len() {
        crate::text::lemma_line_partition_sorted(ranges, bytes);
    }
}

/// Editor position of the byte offset `offset` in `file`: its line from 0, and the
/// UTF-16 code units between the start of that line and `offset`. The column counts from
/// the start of the offset's own line: taking the 1-based line of `find_text_location`
/// as an index after subtracting one more would start from the line before it, give a
/// column past the end of the line, and fail on the first line.
pub fn offset_utf8_to_position_utf16(file: &FileData, offset: TextOffset) -> (r: Position)
    requires
        is_line_partition(file.line_ranges@, encode_utf8(file.source@)),
        encode_utf8(file.source@).len() > 0,
        offset.0 <= encode_utf8(file.source@).len(),
        encode_utf8(file.source@).len() < u32::MAX / 2,
        file.line_ranges@.len() < u32::MAX,
    ensures
        r.line < file.line_ranges@.len(),
        line_holds(file.line_ranges@, r.line as int, offset.0 as int),
        ({
            let range = file.line_ranges@[r.line as int];
            &&& range.start.0 <= offset.0
            &&& offset.0 < range.end.0 || (r.line == file.line_ranges@.len() - 1 && offset.0
                == range.end.0)
            &&& r.character == bytes_utf16_len(
                encode_utf8(file.source@),
                range.start.0 as int,
                offset.0 as int,
            )
        }),
{
    let text = file.source.as_str();
    let pos = find_text_location(text, offset, file.line_ranges.as_slice());
    let line_range = file.line_ranges[pos.line_index()];
    let bytes = text.as_bytes();
    proof {
        crate::text::lemma_line_partition_sorted(file.line_ranges@, bytes@);
    }
    let character = bytes_len_utf16(bytes, line_range.start.0 as usize, offset.0 as usize);
    Position { line: pos.line() - 1, character }
}

/// Byte range of the editor range `range`; None where either end has no offset.
pub fn range_utf16_to_range_utf8(file: &FileData, range: Range) -> (r: Option<TextRange>)
    requires
        is_line_partition(file.line_ranges@, encode_utf8(file.source@)),
    ensures
        r matches Some(t) ==> position_utf16_to_offset_utf8_spec(file, range.start, t.start)
            && position_utf16_to_offset_utf8_spec(file, range.end, t.end),
        r is None ==> !has_offset(file, range.start) || !has_offset(file, range.end),
{
    let start = match position_utf16_to_offset_utf8(file, range.start) {
        Some(o) => o,
        None => {
            return None;
        },
    };
    let end = match position_utf16_to_offset_utf8(file, range.end) {
        Some(o) => o,
        None => {
            return None;
        },
    };
    Some(TextRange { start, end })
}

/// Some offset of `file` stands at the editor position `position`.
pub open spec fn has_offset(file: &FileData, position: Position) -> bool {
    exists|o: TextOffset| position_utf16_to_offset_utf8_spec(file, position, o)
}

/// `o` is an offset that `position_utf16_to_offset_utf8` may give for `position`.
pub open spec fn position_utf16_to_offset_utf8_spec(file: &FileData, position: Position, o: TextOffset) -> bool {
    let bytes = encode_utf8(file.source@);
    let line = line_range_spec(file.line_ranges@, position.line);
    &&& line is Some
    &&& first_boundary_with(
        bytes,
        line->Some_0.start.0 as int,
        line->Some_0.end.0 as int,
        o.0 as int,
        position.character as nat,
    )
}

/// Line `line` of `ranges` holds the byte offset `offset`: the offset lies in the line,
/// or at the end of the text on the last line.
pub open spec fn line_holds(ranges: Seq<TextRange>, line: int, offset: int) -> bool {
    &&& 0 <= line < ranges.len()
    &&& ranges[line].start.0 <= offset
    &&& offset < ranges[line].end.0 || (line == ranges.len() - 1 && offset == ranges[line].end.0)
}

/// At most one line of a line partition holds a given offset, so an editor position's
/// line is fixed by its byte offset.
pub proof fn law_one_line_holds_an_offset(ranges: Seq<TextRange>, bytes: Seq<u8>, offset: int, l1: int, l2: int)
    requires
        is_line_partition(ranges, bytes),
        line_holds(ranges, l1, offset),
        line_holds(ranges, l2, offset),
    ensures
        l1 == l2,
{
    crate::text::lemma_line_partition_sorted(ranges, bytes);
    if l1 < l2 {
        assert(ranges[l1].end.0 <= ranges[l2].start.0);
    } else if l2 < l1 {
        assert(ranges[l2].end.0 <= ranges[l1].start.0);
    }
}

/// Editor range of the byte range `range`: each end on the line that holds its offset,
/// at the UTF-16 length from that line's start.
pub fn range_utf8_to_range_utf16(file: &FileData, range: TextRange) -> (r: Range)
    requires
        is_line_partition(file.line_ranges@, encode_utf8(file.source@)),
        encode_utf8(file.source@).len() > 0,
        range.start.0 <= encode_utf8(file.source@).len(),
        range.end.0 <= encode_utf8(file.source@).len(),
        encode_utf8(file.source@).len() < u32::MAX / 2,
        file.line_ranges@.len() < u32::MAX,
    ensures
        r.start.line < file.line_ranges@.len(),
        r.end.line < file.line_ranges@.len(),
        r.start.character == bytes_utf16_len(
            encode_utf8(file.source@),
            file.line_ranges@[r.start.line as int].start.0 as int,
            range.start.0 as int,
        ),
        r.end.character == bytes_utf16_len(
            encode_utf8(file.source@),
            file.line_ranges@[r.end.line as int].start.0 as int,
            range.end.0 as int,
        ),
        line_holds(file.line_ranges@, r.start.line as int, range.start.0 as int),
        line_holds(file.line_ranges@, r.end.line as int, range.end.0 as int),
{
    let start = offset_utf8_to_position_utf16(file, range.start);
    let end = offset_utf8_to_position_utf16(file, range.end);
    Range { start, end }
}

} // verus!
