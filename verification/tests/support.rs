use rock_core::intern::InternPool;
use rock_core::proc_codegen::{ProcCodegen, TailValue, TailValueID};
use rock_core::support::{BitSet, TempBuffer};
use rock_core::text::{find_line_ranges, find_text_location, TextOffset};
use rock_core::text_ops::{
    offset_utf8_to_position_utf16, position_utf16_to_offset_utf8, string_len_utf16, Position,
};
use rock_core::session::Vfs;

#[test]
fn temp_buffer_take_and_pop() {
    let mut buf: TempBuffer<u32> = TempBuffer::new(4);
    buf.push(1);
    let offset = buf.start();
    buf.push(2);
    buf.push(3);
    assert_eq!(buf.view(offset), &[2, 3]);
    let taken = buf.take(offset);
    assert_eq!(taken, vec![2, 3]);
    assert_eq!(buf.view_all(), &[1]);
    let offset = buf.start();
    buf.push(9);
    buf.pop_view(offset);
    assert_eq!(buf.len(), 1);
    assert!(!buf.is_empty());
}

#[test]
fn bitset_set_and_contains() {
    let mut set = BitSet::empty();
    assert!(!set.contains(3));
    set.set(3);
    set.set(31);
    assert!(set.contains(3));
    assert!(set.contains(31));
    assert!(!set.contains(4));
}

#[test]
fn intern_pool_same_string_same_id() {
    let mut pool = InternPool::new();
    let a: Vec<char> = "alpha".chars().collect();
    let b: Vec<char> = "beta".chars().collect();
    let ia = pool.intern(&a);
    let ib = pool.intern(&b);
    assert_ne!(ia, ib);
    assert_eq!(pool.intern(&a), ia);
    assert_eq!(pool.len(), 2);
    assert_eq!(pool.get(ib), &b[..]);
}

#[test]
fn line_ranges_and_locations() {
    let text = "ab\ncd\n\nx";
    let mut ranges = Vec::new();
    find_line_ranges(&mut ranges, text);
    let spans: Vec<(u32, u32)> = ranges.iter().map(|r| (r.start.0, r.end.0)).collect();
    assert_eq!(spans, vec![(0, 3), (3, 6), (6, 7), (7, 8)]);
    let loc = find_text_location(text, TextOffset(4), &ranges);
    assert_eq!((loc.line(), loc.col()), (2, 2));
    let end = find_text_location(text, TextOffset(8), &ranges);
    assert_eq!((end.line(), end.col()), (4, 2));
}

#[test]
fn utf16_lengths_and_positions() {
    assert_eq!(string_len_utf16("abc"), 3);
    assert_eq!(string_len_utf16("é"), 1);
    assert_eq!(string_len_utf16("😀a"), 3);
    let mut vfs = Vfs::new();
    let id = vfs.open("/x.rock", "a😀b\ncd".to_string());
    let file = vfs.file(id);
    let pos = offset_utf8_to_position_utf16(file, TextOffset(5));
    assert_eq!(pos, Position { line: 0, character: 3 });
    let off = position_utf16_to_offset_utf8(file, Position { line: 0, character: 3 });
    assert_eq!(off, Some(TextOffset(5)));
    let off = position_utf16_to_offset_utf8(file, Position { line: 1, character: 1 });
    assert_eq!(off, Some(TextOffset(8)));
    assert_eq!(position_utf16_to_offset_utf8(file, Position { line: 5, character: 0 }), None);
}

#[test]
fn proc_codegen_blocks_and_defers() {
    let mut p: ProcCodegen<u32, &'static str, u64, u8> = ProcCodegen::new(7, 0);
    p.block_enter();
    p.add_defer_block("outer");
    p.set_next_loop_info(10, 11);
    p.block_enter();
    p.add_defer_block("body");
    p.block_enter();
    p.add_defer_block("inner");
    p.add_defer_block("inner2");
    assert_eq!(p.all_defer_blocks(), 0..4);
    assert_eq!(p.last_defer_blocks(), 2..4);
    let (info, range) = p.last_loop_info();
    assert_eq!((info.break_bb, info.continue_bb), (10, 11));
    assert_eq!(range, 1..4);
    p.block_exit();
    assert_eq!(p.all_defer_blocks(), 0..2);
    assert_eq!(p.defer_block(1), "body");
    p.block_exit();
    assert_eq!(p.all_defer_blocks(), 0..1);
    let t = p.add_tail_value();
    assert_eq!(t, TailValueID(0));
    assert_eq!(p.tail_value(t), None);
    p.set_tail_value(t, 99, 1);
    assert_eq!(p.tail_value(t), Some(TailValue { value_ptr: 99, value_ty: 1 }));
    p.reset(8, 1);
    assert_eq!(p.all_defer_blocks(), 0..0);
}

#[test]
fn offset_position_roundtrip() {
    let mut vfs = Vfs::new();
    let text = "aé😀b\nxyz\n";
    let id = vfs.open("/y.rock", text.to_string());
    let file = vfs.file(id);
    for (offset, _) in text.char_indices() {
        let pos = offset_utf8_to_position_utf16(file, TextOffset(offset as u32));
        let back = position_utf16_to_offset_utf8(file, pos);
        assert_eq!(back, Some(TextOffset(offset as u32)));
    }
}
