use vstd::prelude::*;
use vstd::string::StringSliceAdditionalSpecFns;
use crate::error::{ParseErrors, SourceRange, SyntaxError, TreeError};
use crate::grammar;
use crate::ids::ModuleID;
use crate::intern::InternPool;
use crate::lexer::{covered, dec_overflow_errors_justified, dec_overflows_reported, int_values, lex, lexed_wf, literal_errors_justified, no_skips, raw_strings_decoded, strings_decoded, chars_decoded, skips_justified, spelled};
use crate::parser::Parser;
use crate::text::TextRange;
use crate::token_list::TokenList;
use crate::tree::{comments_placed, late_mod_comments_reported, lemma_unreported_comments_placed, misplaced_docs_reported, tree_build, SyntaxTree};

verus! {

/// Both the token list and the parse events of a source fit the 32-bit ids of the tree.
fn fits_ids(tokens: &TokenList, event_count: usize) -> (r: bool)
    requires
        tokens.wf(),
    ensures
        r == (event_count + tokens.token_len() + tokens.trivia_len() <= u32::MAX),
{
    let t = tokens.token_count();
    let v = tokens.trivia_count();
    let max = u32::MAX as usize;
    event_count <= max && t <= max - event_count && v <= max - event_count - t
}

/// The error given for a source whose tokens or parse do not fit the tree's 32-bit ids.
fn too_large(module_id: ModuleID) -> (r: SyntaxError)
    ensures
        r.src.module_id == module_id,
{
    SyntaxError {
        message: String::from_str("source file is too large"),
        src: SourceRange::new(module_id, TextRange::zero()),
    }
}

/// Lexes and parses `source` and builds its syntax tree, with every error found on
/// the way. The tree is complete exactly when there is none.
pub fn parse_tree(source: &str, module_id: ModuleID, intern_lit: &mut InternPool) -> (r: (
    SyntaxTree,
    ParseErrors,
))
    requires
        old(intern_lit).wf(),
        old(intern_lit).view_strings().len() + source.spec_bytes().len() + 8 < u32::MAX,
    ensures
        final(intern_lit).wf(),
        r.0.wf(),
        r.0.content_partitioned(),
        spelled(&r.0.token_list(), source.spec_bytes()),
        int_values(&r.0.token_list(), source.spec_bytes()),
        dec_overflows_reported(&r.0.token_list(), source.spec_bytes(), r.1.lex@),
        r.1.syntax@.len() == 0 ==> r.0.nodes_once() && r.0.nodes_view()[0].range.start.0 == 0
            && r.0.ranges_nest(),
        r.1.syntax@.len() == 0 ==> late_mod_comments_reported(r.1.tree@, &r.0.token_list(), r.0.token_list().trivia_len())
            && misplaced_docs_reported(r.1.tree@, &r.0.token_list(), source.spec_bytes(), r.0.token_list().trivia_len()),
        r.1.syntax@.len() == 0 ==> r.0.leaves_once() && r.0.token_list().token_len()
            + r.0.token_list().trivia_len() <= u32::MAX,
        skips_justified(source.spec_bytes(), r.1.lex@),
        dec_overflow_errors_justified(source.spec_bytes(), r.1.lex@),
        literal_errors_justified(source.spec_bytes(), r.1.lex@),
        strings_decoded(&r.0.token_list(), source.spec_bytes(), final(intern_lit).view_strings()),
        raw_strings_decoded(&r.0.token_list(), source.spec_bytes(), final(intern_lit).view_strings()),
        chars_decoded(&r.0.token_list(), source.spec_bytes()),
        no_skips(r.1.lex@, 0) && (forall|k: int|
            0 <= k < source.spec_bytes().len() ==> source.spec_bytes()[k] != 0) ==> covered(
            &r.0.token_list(),
            source.spec_bytes().len() as int,
        ),
        r.0.nodes_view().len() + 2 <= u32::MAX,
        lexed_wf(&r.0.token_list(), source.spec_bytes().len() as int),
        r.0.is_complete() == (r.1.count() == 0),
        forall|i: int| 0 <= i < r.1.lex@.len() ==> (#[trigger] r.1.lex@[i]).src.module_id == module_id,
        forall|i: int|
            0 <= i < r.1.syntax@.len() ==> (#[trigger] r.1.syntax@[i]).src.module_id == module_id,
        forall|i: int| 0 <= i < r.1.tree@.len() ==> (#[trigger] r.1.tree@[i]).src.module_id == module_id,
{
    let (tokens, lex_errors) = lex(source, module_id, intern_lit);
    if !fits_ids(&tokens, 2) {
        let mut syntax = Vec::new();
        syntax.push(too_large(module_id));
        let tree = SyntaxTree::unparsed(tokens);
        return (tree, ParseErrors { lex: lex_errors, syntax, tree: Vec::new() });
    }
    let mut parser = Parser::new(tokens, module_id, source);
    grammar::source_file(&mut parser);
    let (tokens, events, mut parse_errors) = parser.finish();
    if !fits_ids(&tokens, events.len()) {
        parse_errors.push(too_large(module_id));
        let tree = SyntaxTree::unparsed(tokens);
        return (tree, ParseErrors { lex: lex_errors, syntax: parse_errors, tree: Vec::new() });
    }
    let complete = lex_errors.len() == 0 && parse_errors.len() == 0;
    let (tree, tree_errors) = tree_build(source, tokens, events, module_id, complete);
    (tree, ParseErrors { lex: lex_errors, syntax: parse_errors, tree: tree_errors })
}

/// Lexes and parses `source` and builds its syntax tree, which is given only when
/// no error came up. Otherwise the errors are those of the lexer with the first syntax
/// error, or, where there were none, the misplaced comments found by the tree build.
pub fn parse_tree_complete(source: &str, module_id: ModuleID, intern_lit: &mut InternPool) -> (r:
    Result<SyntaxTree, ParseErrors>)
    requires
        old(intern_lit).wf(),
        old(intern_lit).view_strings().len() + source.spec_bytes().len() + 8 < u32::MAX,
    ensures
        final(intern_lit).wf(),
        r matches Ok(tree) ==> tree.wf() && tree.is_complete() && tree.leaves_once()
            && tree.content_partitioned() && tree.nodes_once() && tree.nodes_view()[0].range.start.0
            == 0 && tree.ranges_nest() && spelled(&tree.token_list(), source.spec_bytes()) && int_values(
            &tree.token_list(),
            source.spec_bytes(),
        ) && comments_placed(&tree.token_list(), source.spec_bytes()) && tree.token_list().token_len()
            + tree.token_list().trivia_len() <= u32::MAX && tree.nodes_view().len() + 2 <= u32::MAX && ((forall|
            k: int,
        |
            0 <= k < source.spec_bytes().len() ==> source.spec_bytes()[k] != 0) ==> covered(
            &tree.token_list(),
            source.spec_bytes().len() as int,
        )) && lexed_wf(
            &tree.token_list(),
            source.spec_bytes().len() as int,
        ),
        r matches Err(e) ==> {
            &&& e.count() > 0
            &&& e.syntax@.len() <= 1
            &&& e.tree@.len() > 0 ==> e.lex@.len() == 0 && e.syntax@.len() == 0
            &&& forall|i: int| 0 <= i < e.lex@.len() ==> (#[trigger] e.lex@[i]).src.module_id == module_id
            &&& forall|i: int|
                0 <= i < e.syntax@.len() ==> (#[trigger] e.syntax@[i]).src.module_id == module_id
            &&& forall|i: int| 0 <= i < e.tree@.len() ==> (#[trigger] e.tree@[i]).src.module_id == module_id
        },
{
    let (tokens, lex_errors) = lex(source, module_id, intern_lit);
    if !fits_ids(&tokens, 2) {
        let mut syntax = Vec::new();
        syntax.push(too_large(module_id));
        return Err(ParseErrors { lex: lex_errors, syntax, tree: Vec::new() });
    }
    let mut parser = Parser::new(tokens, module_id, source);
    grammar::source_file(&mut parser);
    let (tokens, events, mut parse_errors) = parser.finish();
    let mut first: Vec<SyntaxError> = Vec::new();
    if parse_errors.len() > 0 {
        first.push(parse_errors.swap_remove(0));
    }
    if lex_errors.len() > 0 || first.len() > 0 {
        return Err(ParseErrors { lex: lex_errors, syntax: first, tree: Vec::new() });
    }
    if !fits_ids(&tokens, events.len()) {
        first.push(too_large(module_id));
        return Err(ParseErrors { lex: lex_errors, syntax: first, tree: Vec::new() });
    }
    let (tree, tree_errors) = tree_build(source, tokens, events, module_id, true);
    if tree_errors.len() == 0 {
        proof {
            assert(tree_errors@ =~= Seq::<TreeError>::empty());
            lemma_unreported_comments_placed(&tree.token_list(), source.spec_bytes());
        }
        Ok(tree)
    } else {
        Err(ParseErrors { lex: Vec::new(), syntax: Vec::new(), tree: tree_errors })
    }
}

} // verus!
