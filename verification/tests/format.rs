use rock_core::format::{render, FormatEvent, FormatterCache};
use rock_core::ids::ModuleID;
use rock_core::intern::InternPool;
use rock_core::syntax::parse_tree;
use rock_core::text::find_line_ranges;

fn format_source(source: &str) -> String {
    let mut pool = InternPool::new();
    let (tree, errors) = parse_tree(source, ModuleID(0), &mut pool);
    assert_eq!(errors.error_count(), 0);
    let mut lines = Vec::new();
    find_line_ranges(&mut lines, source);
    let mut cache = FormatterCache::new();
    let bytes = rock_core::format::format(&tree, source.as_bytes(), &lines, &mut cache);
    String::from_utf8(bytes).unwrap()
}

#[test]
fn format_empty_proc() {
    assert_eq!(format_source("proc main() void {}"), "proc main() void {}\n");
}

#[test]
fn format_normalizes_spacing() {
    assert_eq!(
        format_source("proc   main( )  s32{ return 0 ; }"),
        "proc main() s32 {\n    return 0;\n}\n"
    );
}

#[test]
fn format_keeps_leading_comment() {
    assert_eq!(format_source("// c\nproc a() void {}"), "// c\nproc a() void {}\n");
}

#[test]
fn format_keeps_one_blank_line_between_items() {
    assert_eq!(
        format_source("proc a() void {}\n\n\n\nproc b() void {}"),
        "proc a() void {}\n\nproc b() void {}\n"
    );
}

#[test]
fn format_is_idempotent_on_formatted_text() {
    let once = format_source("proc main(x: s32, y: s32) s32 {\n  let z = x +   y;\n return z;\n}");
    let twice = format_source(&once);
    assert_eq!(once, twice);
}

#[test]
fn render_empty_cache_is_empty() {
    let cache = FormatterCache::new();
    assert!(render(&cache, b"abc").is_empty());
    assert!(cache.events().iter().all(|e| !matches!(e, FormatEvent::Newline)));
}

#[test]
fn format_aligns_trailing_comments() {
    let source = "struct S {\n    a: s32, // one\n    bbbb: s32, // two\n}\n";
    assert_eq!(
        format_source(source),
        "struct S {\n    a: s32,    // one\n    bbbb: s32, // two\n}\n"
    );
}
