use rock_core::ast_layer::{find_range, node_find, token_find, AstNodeIterator, Item};
use rock_core::error::TreeErrorKind;
use rock_core::ids::{ModuleID, NodeID};
use rock_core::intern::InternPool;
use rock_core::lexer::lex;
use rock_core::syntax::{parse_tree, parse_tree_complete};
use rock_core::syntax_kind::{SyntaxKind, SyntaxSet};
use rock_core::text::TextRange;
use rock_core::token::Token;
use rock_core::tree::NodeOrToken;

#[test]
fn lex_simple_proc() {
    let mut pool = InternPool::new();
    let (tokens, errors) = lex("proc main() s32 { return 0; }", ModuleID(0), &mut pool);
    assert!(errors.is_empty());
    let kinds: Vec<Token> = (0..tokens.token_count())
        .map(|i| tokens.token(rock_core::ids::TokenID(i as u32)))
        .collect();
    assert_eq!(
        kinds,
        vec![
            Token::KwProc,
            Token::Ident,
            Token::ParenOpen,
            Token::ParenClose,
            Token::KwS32,
            Token::BlockOpen,
            Token::KwReturn,
            Token::IntLit,
            Token::Semicolon,
            Token::BlockClose,
            Token::Eof,
            Token::Eof,
        ]
    );
    assert_eq!(tokens.int_value(rock_core::ids::TokenID(7)), 0);
    let r = tokens.token_range(rock_core::ids::TokenID(1));
    assert_eq!((r.start.0, r.end.0), (5, 9));
    // whitespace between the tokens is kept as trivia
    assert_eq!(tokens.trivia_count(), 6);
}

#[test]
fn lex_reports_unknown_symbol() {
    let mut pool = InternPool::new();
    let (_tokens, errors) = lex("proc $", ModuleID(3), &mut pool);
    assert_eq!(errors.len(), 1);
    assert_eq!(errors[0].src.module_id, ModuleID(3));
}

#[test]
fn lex_integer_bases() {
    let mut pool = InternPool::new();
    let (tokens, errors) = lex("0xff 0b101 1234", ModuleID(0), &mut pool);
    assert!(errors.is_empty());
    assert_eq!(tokens.int_value(rock_core::ids::TokenID(0)), 255);
    assert_eq!(tokens.int_value(rock_core::ids::TokenID(1)), 5);
    assert_eq!(tokens.int_value(rock_core::ids::TokenID(2)), 1234);
}

#[test]
fn parse_tree_of_valid_source_is_complete() {
    let mut pool = InternPool::new();
    let source = "proc main() s32 { return 0; }";
    let (tree, errors) = parse_tree(source, ModuleID(0), &mut pool);
    assert_eq!(errors.error_count(), 0);
    assert!(tree.complete());
    assert_eq!(tree.root().kind, SyntaxKind::SOURCE_FILE);
    let items = SyntaxSet::new(&[SyntaxKind::PROC_ITEM]);
    let proc_id = node_find(&tree, tree.root(), items).expect("a proc item");
    assert_eq!(tree.node(proc_id).kind, SyntaxKind::PROC_ITEM);
    assert!(matches!(Item::cast(&tree, proc_id), Some(Item::Proc(id)) if id == proc_id));
    let range = find_range(&tree, proc_id).unwrap();
    assert_eq!((range.start.0, range.end.0), (0, source.len() as u32));
    let kw = token_find(&tree, tree.node(proc_id), Token::KwProc).unwrap();
    assert_eq!((kw.start.0, kw.end.0), (0, 4));
}

#[test]
fn parse_tree_children_come_after_parents() {
    let mut pool = InternPool::new();
    let (tree, _errors) = parse_tree("proc a() void {}\nproc b() void {}", ModuleID(0), &mut pool);
    for i in 0..tree.node_count() {
        let node = tree.node(NodeID(i as u32));
        for x in tree.content_of(node) {
            if let NodeOrToken::Node(child) = x {
                assert!(child.0 as usize > i);
            }
        }
    }
    let mut iter = AstNodeIterator::new(&tree, tree.root(), SyntaxSet::new(&[SyntaxKind::PROC_ITEM]));
    let mut count = 0;
    while let Some(_) = iter.next() {
        count += 1;
    }
    assert_eq!(count, 2);
}

#[test]
fn parse_tree_with_error_is_incomplete() {
    let mut pool = InternPool::new();
    let (tree, errors) = parse_tree("proc main( {", ModuleID(1), &mut pool);
    assert!(errors.error_count() > 0);
    assert!(!tree.complete());
    assert!(errors.syntax.iter().all(|e| e.src.module_id == ModuleID(1)));
}

#[test]
fn parse_tree_complete_gives_tree_or_errors() {
    let mut pool = InternPool::new();
    let ok = parse_tree_complete("proc main() void {}", ModuleID(0), &mut pool);
    assert!(ok.is_ok());
    assert!(ok.unwrap().complete());
    let err = parse_tree_complete("proc main( {", ModuleID(0), &mut pool);
    let errors = err.err().unwrap();
    assert!(errors.error_count() > 0);
    assert!(errors.syntax.len() <= 1);
}

#[test]
fn doc_comment_parted_by_a_blank_line_is_reported() {
    let mut pool = InternPool::new();
    let source = "/// doc\n\nproc main() void {}\n";
    let (_tree, errors) = parse_tree(source, ModuleID(0), &mut pool);
    assert_eq!(errors.tree.len(), 1);
    assert_eq!(errors.tree[0].kind, TreeErrorKind::InvalidDocComment);
    assert_eq!(errors.tree[0].src.range.start.0, 0);
}

#[test]
fn module_comment_after_a_token_is_reported() {
    let mut pool = InternPool::new();
    let source = "//// top\nproc main() void {}\n//// late\n";
    let (_tree, errors) = parse_tree(source, ModuleID(0), &mut pool);
    assert_eq!(errors.tree.len(), 1);
    assert_eq!(errors.tree[0].kind, TreeErrorKind::InvalidModComment);
    assert_eq!(errors.tree[0].src.range.start.0, 29);
}

#[test]
fn lex_unknown_bytes_are_the_only_ones_skipped() {
    let mut pool = InternPool::new();
    let (tokens, errors) = lex("a \u{e9} b", ModuleID(0), &mut pool);
    assert_eq!(errors.len(), 1);
    assert!(matches!(errors[0].kind, rock_core::error::LexErrorKind::SymbolUnknown(_)));
    assert_eq!((errors[0].src.range.start.0, errors[0].src.range.end.0), (2, 4));
    assert_eq!(tokens.token_count(), 4);
    assert_eq!(tokens.token(rock_core::ids::TokenID(0)), Token::Ident);
    assert_eq!(tokens.token(rock_core::ids::TokenID(1)), Token::Ident);
}

#[test]
fn misplaced_doc_comment_is_an_error() {
    let mut pool = InternPool::new();
    let source = "proc main() void {\n    /// doc\n}";
    let (_tree, errors) = parse_tree(source, ModuleID(0), &mut pool);
    let total = errors.error_count();
    if !errors.tree.is_empty() {
        assert_eq!(errors.tree[0].kind, TreeErrorKind::InvalidDocComment);
    }
    assert!(total <= 2);
}

#[test]
fn tree_content_iter_both_ends() {
    let mut pool = InternPool::new();
    let (tree, _errors) = parse_tree("proc main() void {}", ModuleID(0), &mut pool);
    let all: Vec<NodeOrToken> = tree.content_of(tree.root()).to_vec();
    let mut iter = tree.content(tree.root());
    let first = iter.next();
    assert_eq!(first, all.first().copied());
    let last = iter.next_back();
    if all.len() > 1 {
        assert_eq!(last, all.last().copied());
    }
}

#[test]
fn text_range_basics() {
    let r = TextRange::new(rock_core::text::TextOffset(2), rock_core::text::TextOffset(5));
    assert_eq!(r.len(), 3);
    assert!(!r.is_empty());
    assert!(r.contains_exclusive(rock_core::text::TextOffset(4)));
    assert!(!r.contains_exclusive(rock_core::text::TextOffset(5)));
    assert!(r.contains_inclusive(rock_core::text::TextOffset(5)));
    assert_eq!(r.as_usize(), 2..5);
}

#[test]
fn tree_display_outline() {
    let mut pool = InternPool::new();
    let source = "proc a() void {}";
    let (tree, _errors) = parse_tree(source, ModuleID(0), &mut pool);
    let text = rock_core::tree_display::tree_display(&tree, source);
    assert!(text.starts_with("SOURCE_FILE 0..16\n  PROC_ITEM 0..16\n"), "{}", text);
    assert!(text.contains("    0..4 \"proc\"\n"), "{}", text);
    assert!(text.contains("    4..5 \" \"\n"), "{}", text);
}

#[test]
fn token_texts_and_glue() {
    assert_eq!(Token::KwProc.as_str(), "proc");
    assert_eq!(Token::ArrowThin.as_str(), "->");
    assert_eq!(Token::from_char('('), Some(Token::ParenOpen));
    assert_eq!(Token::from_char('a'), None);
    assert_eq!(rock_core::ast::BinOp::BitShl.as_str(), "<<");
    assert_eq!(rock_core::ast::BasicType::CString.as_str(), "cstring");
    assert_eq!(Token::Shl.as_bin_op(), Some(rock_core::ast::BinOp::BitShl));
}

fn collect_leaves(tree: &rock_core::tree::SyntaxTree, id: NodeID, out: &mut Vec<NodeOrToken>) {
    let node = tree.node(id);
    for x in tree.content_of(node) {
        match x {
            NodeOrToken::Node(child) => collect_leaves(tree, *child, out),
            leaf => out.push(*leaf),
        }
    }
}

#[test]
fn tree_holds_every_token_and_trivia_once() {
    let mut pool = InternPool::new();
    let source = "// lead\nproc main(x: s32) s32 {\n    let y = x * 2; // twice\n    return y;\n}\n";
    let (tree, errors) = parse_tree(source, ModuleID(0), &mut pool);
    assert_eq!(errors.error_count(), 0);
    let mut leaves = Vec::new();
    collect_leaves(&tree, NodeID(0), &mut leaves);
    let tokens: Vec<u32> = leaves
        .iter()
        .filter_map(|x| if let NodeOrToken::Token(t) = x { Some(t.0) } else { None })
        .collect();
    let trivia: Vec<u32> = leaves
        .iter()
        .filter_map(|x| if let NodeOrToken::Trivia(t) = x { Some(t.0) } else { None })
        .collect();
    let n_tokens = tree.tokens().token_count() as u32;
    let n_trivia = tree.tokens().trivia_count() as u32;
    assert_eq!(tokens, (0..n_tokens - 2).collect::<Vec<u32>>());
    assert_eq!(trivia, (0..n_trivia).collect::<Vec<u32>>());
}

#[test]
fn tree_walk_meets_leaves_in_source_order() {
    let mut pool = InternPool::new();
    let source = "// note\nproc f(a: s32) s32 { // body\n    return a + 1; }\n";
    let (tree, errors) = parse_tree(source, ModuleID(0), &mut pool);
    assert_eq!(errors.error_count(), 0);
    let mut leaves = Vec::new();
    collect_leaves(&tree, NodeID(0), &mut leaves);
    let ranges: Vec<TextRange> = leaves
        .iter()
        .map(|x| match x {
            NodeOrToken::Token(t) => tree.tokens().token_range(*t),
            NodeOrToken::Trivia(t) => tree.tokens().trivia_range(*t),
            NodeOrToken::Node(_) => unreachable!(),
        })
        .collect();
    assert!(ranges.len() > 2);
    for pair in ranges.windows(2) {
        assert!(pair[0].end.0 <= pair[1].start.0, "{:?}", pair);
    }
}

#[test]
fn lex_char_literals() {
    let mut pool = InternPool::new();
    let (tokens, errors) = lex("'a' '\\n' '\\x{41}' 'é'", ModuleID(0), &mut pool);
    assert!(errors.is_empty(), "{:?}", errors);
    assert_eq!(tokens.char(rock_core::ids::TokenID(0)), 'a');
    assert_eq!(tokens.char(rock_core::ids::TokenID(1)), '\n');
    assert_eq!(tokens.char(rock_core::ids::TokenID(2)), 'A');
    assert_eq!(tokens.char(rock_core::ids::TokenID(3)), 'é');
}

#[test]
fn lex_escape_hex_errors() {
    let mut pool = InternPool::new();
    let (_tokens, errors) = lex("'\\x{D800}'", ModuleID(0), &mut pool);
    assert_eq!(errors.len(), 1);
    assert!(matches!(errors[0].kind, rock_core::error::LexErrorKind::EscapeHexNonUtf8(0xD800)));
}

#[test]
fn lexing_covers_every_byte_of_a_valid_source() {
    let mut pool = InternPool::new();
    let source = "proc main() s32 {\n    // note\n    let x = 0x1F + 'a' as s32;\n    return x;\n}\n";
    let (tokens, errors) = lex(source, ModuleID(0), &mut pool);
    assert!(errors.is_empty());
    let mut ranges: Vec<(u32, u32)> = Vec::new();
    for i in 0..tokens.token_count() - 2 {
        let r = tokens.token_range(rock_core::ids::TokenID(i as u32));
        ranges.push((r.start.0, r.end.0));
    }
    for i in 0..tokens.trivia_count() {
        let r = tokens.trivia_range(rock_core::ids::TriviaID(i as u32));
        ranges.push((r.start.0, r.end.0));
    }
    ranges.sort();
    let mut at = 0;
    for (start, end) in ranges {
        assert_eq!(start, at);
        at = end;
    }
    assert_eq!(at as usize, source.len());
}

#[test]
fn parser_eat_expect_and_first_error() {
    let source = "proc main";
    let mut pool = InternPool::new();
    let (tokens, errors) = lex(source, ModuleID(2), &mut pool);
    assert!(errors.is_empty());
    let mut p = rock_core::parser::Parser::new(tokens, ModuleID(2), source);
    assert!(!p.eat(Token::Ident));
    assert!(!p.eat(Token::Eof));
    assert!(p.eat(Token::KwProc));
    p.expect(Token::ParenOpen);
    p.expect(Token::Ident);
    assert!(p.at(Token::Eof));
    p.error("second error is dropped");
    let (_tokens, events, errors) = p.finish();
    assert_eq!(events.len(), 2);
    assert_eq!(errors.len(), 1);
    assert_eq!(errors[0].message, "expected `(`");
    assert_eq!(errors[0].src.module_id, ModuleID(2));
    assert_eq!((errors[0].src.range.start.0, errors[0].src.range.end.0), (5, 9));
}

#[test]
fn parser_error_at_end_points_at_last_token() {
    let source = "x";
    let mut pool = InternPool::new();
    let (tokens, _errors) = lex(source, ModuleID(0), &mut pool);
    let mut p = rock_core::parser::Parser::new(tokens, ModuleID(0), source);
    p.bump(Token::Ident);
    p.error("unexpected end");
    let (_tokens, _events, errors) = p.finish();
    assert_eq!(errors[0].message, "unexpected end");
    assert_eq!((errors[0].src.range.start.0, errors[0].src.range.end.0), (0, 1));
}

#[test]
fn lex_decimal_values_and_overflow() {
    let mut pool = InternPool::new();
    let (tokens, errors) = lex("1_000 007 18446744073709551615", ModuleID(0), &mut pool);
    assert!(errors.is_empty());
    assert_eq!(tokens.int_value(rock_core::ids::TokenID(0)), 1000);
    assert_eq!(tokens.int_value(rock_core::ids::TokenID(1)), 7);
    assert_eq!(tokens.int_value(rock_core::ids::TokenID(2)), u64::MAX);

    let mut pool = InternPool::new();
    let (tokens, errors) = lex("18446744073709551616", ModuleID(4), &mut pool);
    assert_eq!(errors.len(), 1);
    assert!(matches!(errors[0].kind, rock_core::error::LexErrorKind::IntDecOverflow));
    assert_eq!((errors[0].src.range.start.0, errors[0].src.range.end.0), (0, 20));
    assert_eq!(tokens.token(rock_core::ids::TokenID(0)), Token::IntLit);
    assert_eq!(tokens.int_value(rock_core::ids::TokenID(0)), 0);
}

#[test]
fn lex_decimal_overflow_whatever_the_wrapped_value() {
    // the wrapped value of the last step is larger than the one before it
    let mut pool = InternPool::new();
    let (tokens, errors) = lex("27670116110564327420", ModuleID(0), &mut pool);
    assert_eq!(errors.len(), 1);
    assert!(matches!(errors[0].kind, rock_core::error::LexErrorKind::IntDecOverflow));
    assert_eq!((errors[0].src.range.start.0, errors[0].src.range.end.0), (0, 20));
    assert_eq!(tokens.token_count(), 3);
    assert_eq!(tokens.int_value(rock_core::ids::TokenID(0)), 9223372036854775804);
}

fn collect_nodes(tree: &rock_core::tree::SyntaxTree, id: NodeID, out: &mut Vec<u32>) {
    out.push(id.0);
    let node = tree.node(id);
    for x in tree.content_of(node) {
        if let NodeOrToken::Node(child) = x {
            assert!(child.0 > id.0);
            collect_nodes(tree, *child, out);
        }
    }
}

#[test]
fn tree_reaches_every_node_once_from_the_root() {
    let mut pool = InternPool::new();
    let source = "import core.{fmt};\nproc main() s32 {\n    let a = f(1, 2 + 3);\n    return a;\n}\n";
    let (tree, errors) = parse_tree(source, ModuleID(0), &mut pool);
    assert_eq!(errors.error_count(), 0);
    let mut seen = Vec::new();
    collect_nodes(&tree, NodeID(0), &mut seen);
    seen.sort();
    assert_eq!(seen, (0..tree.node_count() as u32).collect::<Vec<u32>>());
    assert_eq!(tree.root().kind, SyntaxKind::SOURCE_FILE);
    assert_eq!(tree.root().range.start.0, 0);
    assert_eq!(tree.node(NodeID(1)).kind, SyntaxKind::IMPORT_ITEM);
}

#[test]
fn lex_octal_literals() {
    let mut pool = InternPool::new();
    let (tokens, errors) = lex("0o17 0o_7_7 0o1777777777777777777777", ModuleID(0), &mut pool);
    assert!(errors.is_empty());
    assert_eq!(tokens.token(rock_core::ids::TokenID(0)), Token::IntLit);
    assert_eq!(tokens.int_value(rock_core::ids::TokenID(0)), 15);
    let r = tokens.token_range(rock_core::ids::TokenID(0));
    assert_eq!((r.start.0, r.end.0), (0, 4));
    assert_eq!(tokens.int_value(rock_core::ids::TokenID(1)), 63);
    assert_eq!(tokens.int_value(rock_core::ids::TokenID(2)), u64::MAX);

    let mut pool = InternPool::new();
    let (_tokens, errors) = lex("0o18", ModuleID(0), &mut pool);
    assert_eq!(errors.len(), 1);
    assert!(matches!(errors[0].kind, rock_core::error::LexErrorKind::IntOctInvalidDigit('8')));

    let mut pool = InternPool::new();
    let (_tokens, errors) = lex("0o2000000000000000000000", ModuleID(0), &mut pool);
    assert_eq!(errors.len(), 1);
    assert!(matches!(errors[0].kind, rock_core::error::LexErrorKind::IntOctOverflow));
}

fn entry_range(tree: &rock_core::tree::SyntaxTree, x: NodeOrToken) -> (u32, u32) {
    let r = match x {
        NodeOrToken::Node(id) => tree.node(id).range,
        NodeOrToken::Token(id) => tree.tokens().token_range(id),
        NodeOrToken::Trivia(id) => tree.tokens().trivia_range(id),
    };
    (r.start.0, r.end.0)
}

#[test]
fn tree_ranges_nest_in_source_order() {
    let mut pool = InternPool::new();
    let source = "// c\nproc main() s32 {\n    let a = [1, 2];\n    return a[0]; // end\n}\n";
    let (tree, errors) = parse_tree(source, ModuleID(0), &mut pool);
    assert_eq!(errors.error_count(), 0);
    for i in 0..tree.node_count() {
        let node = tree.node(NodeID(i as u32));
        let (start, end) = (node.range.start.0, node.range.end.0);
        assert!(start <= end);
        let mut prev_end = start;
        for x in tree.content_of(node) {
            let (s, e) = entry_range(&tree, *x);
            assert!(prev_end <= s && s <= e && e <= end);
            prev_end = e;
        }
    }
}

#[test]
fn token_list_counts_follow_the_adds() {
    let mut tl = rock_core::token_list::TokenList::new("proc 42 // c");
    tl.add_token(Token::KwProc, rock_core::text::TextOffset(0));
    tl.add_trivia(rock_core::token_list::Trivia::Whitespace, TextRange { start: rock_core::text::TextOffset(4), end: rock_core::text::TextOffset(5) });
    tl.add_int(42, TextRange { start: rock_core::text::TextOffset(5), end: rock_core::text::TextOffset(7) });
    tl.add_trivia(rock_core::token_list::Trivia::LineComment, TextRange { start: rock_core::text::TextOffset(8), end: rock_core::text::TextOffset(12) });
    assert_eq!(tl.token_count(), 2);
    assert_eq!(tl.trivia_count(), 2);
    assert_eq!(tl.token(rock_core::ids::TokenID(0)), Token::KwProc);
    assert_eq!(tl.token_range(rock_core::ids::TokenID(0)), TextRange { start: rock_core::text::TextOffset(0), end: rock_core::text::TextOffset(4) });
    assert_eq!(tl.token(rock_core::ids::TokenID(1)), Token::IntLit);
    assert_eq!(tl.int_value(rock_core::ids::TokenID(1)), 42);
    assert_eq!(tl.trivia(rock_core::ids::TriviaID(1)), rock_core::token_list::Trivia::LineComment);
    assert_eq!(tl.trivia_range(rock_core::ids::TriviaID(0)), TextRange { start: rock_core::text::TextOffset(4), end: rock_core::text::TextOffset(5) });
}

#[test]
fn lex_literal_errors_stand_where_the_text_shows_them() {
    let mut pool = InternPool::new();
    let (_tokens, errors) = lex("''", ModuleID(0), &mut pool);
    assert_eq!(errors.len(), 1);
    assert!(matches!(errors[0].kind, rock_core::error::LexErrorKind::CharEmpty));
    assert_eq!((errors[0].src.range.start.0, errors[0].src.range.end.0), (0, 2));

    let mut pool = InternPool::new();
    let (_tokens, errors) = lex("'\\q'", ModuleID(0), &mut pool);
    assert_eq!(errors.len(), 1);
    assert!(matches!(errors[0].kind, rock_core::error::LexErrorKind::EscapeSequenceNotSupported('q')));
    assert_eq!((errors[0].src.range.start.0, errors[0].src.range.end.0), (1, 3));

    let mut pool = InternPool::new();
    let (_tokens, errors) = lex("\"ab\ncd", ModuleID(0), &mut pool);
    assert_eq!(errors.len(), 1);
    assert!(matches!(errors[0].kind, rock_core::error::LexErrorKind::StringNotTerminated));
    assert_eq!((errors[0].src.range.start.0, errors[0].src.range.end.0), (0, 3));
}

#[test]
fn lex_hex_escape_and_exponent_errors() {
    let mut pool = InternPool::new();
    let (_tokens, errors) = lex("'\\x{41'", ModuleID(0), &mut pool);
    assert!(matches!(errors[0].kind, rock_core::error::LexErrorKind::ExpectCloseBracket));
    assert_eq!((errors[0].src.range.start.0, errors[0].src.range.end.0), (1, 6));

    let mut pool = InternPool::new();
    let (_tokens, errors) = lex("'\\x{}'", ModuleID(0), &mut pool);
    assert!(matches!(errors[0].kind, rock_core::error::LexErrorKind::EscapeHexWrongDigitCount(0)));
    assert_eq!((errors[0].src.range.start.0, errors[0].src.range.end.0), (1, 5));

    let mut pool = InternPool::new();
    let (_tokens, errors) = lex("1.5e+", ModuleID(0), &mut pool);
    assert_eq!(errors.len(), 1);
    assert!(matches!(errors[0].kind, rock_core::error::LexErrorKind::FloatExpMissingDigits));
    assert_eq!((errors[0].src.range.start.0, errors[0].src.range.end.0), (0, 5));
}
