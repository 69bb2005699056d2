use vstd::prelude::*;
use crate::parser::{frame, frame_except, open_at, Event, Marker, MarkerClosed, Parser};
use crate::syntax_kind::SyntaxKind;
use crate::token::{spec_as_assign_op, spec_as_basic_type, spec_as_bin_op, spec_as_un_op, Token};
use crate::ast::spec_prec;
use crate::token_list::TokenSet;

verus! {

/// `p` went on from `o`: same input, cursor not moved back, earlier events kept.
pub open spec fn step(p: Parser, o: Parser) -> bool {
    &&& p.wf()
    &&& p.live()
    &&& p.same_input(&o)
    &&& p.cur() >= o.cur()
    &&& frame(p.evs(), o.evs())
    &&& p.error_count() >= o.error_count()
}

/// Like `step`, but the event at `idx` (the marker handed in) may have changed.
pub open spec fn step_except(p: Parser, o: Parser, idx: int) -> bool {
    &&& p.wf()
    &&& p.live()
    &&& p.same_input(&o)
    &&& p.cur() >= o.cur()
    &&& frame_except(p.evs(), o.evs(), idx)
    &&& p.evs()[idx] is StartNode
    &&& p.error_count() >= o.error_count()
}

/// A node marker just produced: it starts a node with no forward parent, after `o`'s events.
pub open spec fn fresh(p: Parser, o: Parser, mc: MarkerClosed) -> bool {
    &&& open_at(p.evs(), mc.event_idx as int)
    &&& mc.event_idx >= o.evs().len()
}

pub open spec fn is_lit_token(t: Token) -> bool {
    t == Token::KwVoid || t == Token::KwNull || t == Token::KwTrue || t == Token::KwFalse || t
        == Token::IntLit || t == Token::FloatLit || t == Token::CharLit || t == Token::StringLit
}

pub open spec fn is_first_type(t: Token) -> bool {
    spec_as_basic_type(t) is Some || t == Token::Ident || t == Token::Ampersand || t
        == Token::KwProc || t == Token::BracketOpen
}

pub open spec fn is_first_item(t: Token) -> bool {
    t == Token::Hash || t == Token::KwProc || t == Token::KwEnum || t == Token::KwStruct || t
        == Token::Ident || t == Token::KwLet || t == Token::KwImport
}

/// Parse a whole source file into one `SOURCE_FILE` node.
pub fn source_file(p: &mut Parser)
    requires
        old(p).wf(),
        old(p).cur() == 0,
        old(p).evs().len() == 0,
    ensures
        final(p).wf(),
        final(p).same_input(old(p)),
        final(p).peek_tok() == Token::Eof,
        final(p).evs().len() >= 2,
        final(p).evs()[0] is StartNode,
        final(p).evs()[final(p).evs().len() - 1] == Event::EndNode,
{
    let m = p.start();
    proof {
        p.lemma_wf();
    }
    if p.at(Token::Eof) {
        m.complete(p, SyntaxKind::SOURCE_FILE);
        return;
    }
    while !p.at(Token::Eof)
        invariant
            step(*p, *old(p)),
            p.evs().len() >= 1,
            open_at(p.evs(), 0),
        decreases p.remaining(),
    {
        item(p);
    }
    m.complete(p, SyntaxKind::SOURCE_FILE);
}

fn first_item() -> (r: TokenSet)
    ensures
        forall|t: Token| #[trigger] r.has(t) <==> is_first_item(t),
{
    TokenSet::new(
        &[
            Token::Hash,
            Token::KwProc,
            Token::KwEnum,
            Token::KwStruct,
            Token::Ident,
            Token::KwLet,
            Token::KwImport,
        ],
    )
}

fn first_param() -> (r: TokenSet)
    ensures
        forall|t: Token| #[trigger] r.has(t) <==> (t == Token::KwMut || t == Token::Ident),
{
    TokenSet::new(&[Token::KwMut, Token::Ident])
}

fn first_variant() -> (r: TokenSet)
    ensures
        forall|t: Token| #[trigger] r.has(t) <==> (t == Token::Hash || t == Token::Ident),
{
    TokenSet::new(&[Token::Hash, Token::Ident])
}

fn first_field() -> (r: TokenSet)
    ensures
        forall|t: Token| #[trigger] r.has(t) <==> (t == Token::Hash || t == Token::Ident),
{
    TokenSet::new(&[Token::Hash, Token::Ident])
}

fn first_bind() -> (r: TokenSet)
    ensures
        forall|t: Token| #[trigger] r.has(t) <==> (t == Token::KwMut || t == Token::Ident || t
            == Token::KwDiscard),
{
    TokenSet::new(&[Token::KwMut, Token::Ident, Token::KwDiscard])
}

fn first_type() -> (r: TokenSet)
    ensures
        forall|t: Token| #[trigger] r.has(t) <==> is_first_type(t),
{
    TokenSet::new(
        &[
            Token::KwChar,
            Token::KwVoid,
            Token::KwNever,
            Token::KwRawptr,
            Token::KwS8,
            Token::KwS16,
            Token::KwS32,
            Token::KwS64,
            Token::KwSsize,
            Token::KwU8,
            Token::KwU16,
            Token::KwU32,
            Token::KwU64,
            Token::KwUsize,
            Token::KwF32,
            Token::KwF64,
            Token::KwBool,
            Token::KwBool16,
            Token::KwBool32,
            Token::KwBool64,
            Token::KwString,
            Token::KwCstring,
            Token::Ident,
            Token::Ampersand,
            Token::KwProc,
            Token::BracketOpen,
        ],
    )
}

fn first_proc_type_param() -> (r: TokenSet)
    ensures
        forall|t: Token| #[trigger] r.has(t) <==> (is_first_type(t) || t == Token::Ident || t
            == Token::Hash),
{
    first_type().combine(TokenSet::new(&[Token::Ident, Token::Hash]))
}

fn recover_directive_param() -> (r: TokenSet)
    ensures
        forall|t: Token| #[trigger] r.has(t) <==> (is_first_item(t) || t == Token::ParenClose),
{
    first_item().combine(TokenSet::new(&[Token::ParenClose]))
}

fn recover_param_list() -> (r: TokenSet)
    ensures
        forall|t: Token| #[trigger] r.has(t) <==> (is_first_item(t) || is_first_type(t) || t == Token::ParenOpen || t == Token::BlockOpen
            || t == Token::Semicolon),
{
    first_item().combine(first_type()).combine(
        TokenSet::new(&[Token::ParenOpen, Token::BlockOpen, Token::Semicolon]),
    )
}

fn recover_variant_field_list() -> (r: TokenSet)
    ensures
        forall|t: Token| #[trigger] r.has(t) <==> (is_first_item(t) || t == Token::Comma || t == Token::ParenClose || t == Token::BlockClose
            || t == Token::Ident),
{
    first_item().combine(
        TokenSet::new(&[Token::Comma, Token::ParenClose, Token::BlockClose, Token::Ident]),
    )
}

fn recover_import_path() -> (r: TokenSet)
    ensures
        forall|t: Token| #[trigger] r.has(t) <==> (is_first_item(t) || t == Token::KwAs || t == Token::Dot || t == Token::Semicolon),
{
    first_item().combine(TokenSet::new(&[Token::KwAs, Token::Dot, Token::Semicolon]))
}

fn recover_import_symbol_list() -> (r: TokenSet)
    ensures
        forall|t: Token| #[trigger] r.has(t) <==> (is_first_item(t) || t == Token::Semicolon),
{
    first_item().combine(TokenSet::new(&[Token::Semicolon]))
}

fn recover_proc_type_param_list() -> (r: TokenSet)
    ensures
        forall|t: Token| #[trigger] r.has(t) <==> (is_first_item(t) || is_first_type(t) || t == Token::ParenClose),
{
    first_item().combine(first_type()).combine(TokenSet::new(&[Token::ParenClose]))
}

fn bytes_eq(a: &[u8], b: &[u8]) -> (r: bool)
    ensures
        r == (a@ == b@),
{
    if a.len() != b.len() {
        return false;
    }
    let mut i: usize = 0;
    while i < a.len()
        invariant
            a@.len() == b@.len(),
            i <= a@.len(),
            forall|k: int| 0 <= k < i ==> a@[k] == b@[k],
        decreases a@.len() - i,
    {
        if a[i] != b[i] {
            return false;
        }
        i = i + 1;
    }
    assert(a@ =~= b@);
    true
}

fn item(p: &mut Parser)
    requires
        old(p).wf(),
        old(p).live(),
        old(p).peek_tok() != Token::Eof,
    ensures
        step(*final(p), *old(p)),
        final(p).cur() > old(p).cur(),
{
    let mut mc: Option<MarkerClosed> = None;
    if p.at(Token::Hash) {
        let (m, scope) = directive_list_item(p);
        if scope {
            return;
        }
        mc = Some(m);
    }
    let m = match mc {
        Some(mc) => p.start_before(mc),
        None => p.start(),
    };
    let t = p.peek();
    match t {
        Token::KwProc => proc_item(p, m),
        Token::KwEnum => enum_item(p, m),
        Token::KwStruct => struct_item(p, m),
        Token::Ident => const_item(p, m),
        Token::KwLet => global_item(p, m),
        Token::KwImport => import_item(p, m),
        _ => {
            p.error("expected item");
            p.bump_sync(first_item());
            m.complete(p, SyntaxKind::ERROR);
        },
    }
}

fn proc_item(p: &mut Parser, m: Marker)
    requires
        old(p).wf(),
        old(p).live(),
        old(p).peek_tok() == Token::KwProc,
        m.event_idx < old(p).evs().len(),
        old(p).evs()[m.event_idx as int] is StartNode,
    ensures
        step_except(*final(p), *old(p), m.event_idx as int),
        final(p).cur() > old(p).cur(),
{
    p.bump(Token::KwProc);
    name(p);
    if p.at(Token::ParenOpen) {
        param_list(p);
    } else {
        p.error_recover("expected parameter list", recover_param_list());
    }
    if p.at(Token::ParenOpen) {
        polymorph_params(p);
    }
    ty(p);
    if p.at(Token::BlockOpen) {
        block(p);
    } else if !p.eat(Token::Semicolon) {
        p.error_recover("expected block or `;`", first_item());
    }
    m.complete(p, SyntaxKind::PROC_ITEM);
}

fn param_list(p: &mut Parser)
    requires
        old(p).wf(),
        old(p).live(),
        old(p).peek_tok() == Token::ParenOpen,
    ensures
        step(*final(p), *old(p)),
        final(p).cur() > old(p).cur(),
{
    let m = p.start();
    p.bump(Token::ParenOpen);
    while !p.at(Token::ParenClose) && !p.at(Token::Eof)
        invariant
            step(*p, *old(p)),
            p.cur() > old(p).cur(),
            m.event_idx == old(p).evs().len(),
            m.event_idx < p.evs().len(),
            p.evs()[m.event_idx as int] is StartNode,
        decreases p.remaining(),
    {
        if p.at_set(first_param()) {
            param(p);
            if !p.at(Token::ParenClose) {
                p.expect(Token::Comma);
            }
        } else {
            p.error_recover("expected parameter", recover_param_list());
            break;
        }
    }
    p.expect(Token::ParenClose);
    m.complete(p, SyntaxKind::PARAM_LIST);
}

fn param(p: &mut Parser)
    requires
        old(p).wf(),
        old(p).live(),
        old(p).peek_tok() == Token::KwMut || old(p).peek_tok() == Token::Ident,
    ensures
        step(*final(p), *old(p)),
        final(p).cur() > old(p).cur(),
{
    let m = p.start();
    p.eat(Token::KwMut);
    name(p);
    p.expect(Token::Colon);
    if p.at(Token::Hash) {
        directive(p);
    } else {
        ty(p);
    }
    m.complete(p, SyntaxKind::PARAM);
}

fn enum_item(p: &mut Parser, m: Marker)
    requires
        old(p).wf(),
        old(p).live(),
        old(p).peek_tok() == Token::KwEnum,
        m.event_idx < old(p).evs().len(),
        old(p).evs()[m.event_idx as int] is StartNode,
    ensures
        step_except(*final(p), *old(p), m.event_idx as int),
        final(p).cur() > old(p).cur(),
{
    p.bump(Token::KwEnum);
    name(p);
    if p.at(Token::ParenOpen) {
        polymorph_params(p);
    }
    let t = p.peek();
    if t.as_basic_type().is_some() {
        p.bump(t);
    }
    if p.at(Token::BlockOpen) {
        variant_list(p);
    } else {
        p.error_recover("expected variant list", first_item());
    }
    m.complete(p, SyntaxKind::ENUM_ITEM);
}

fn variant_list(p: &mut Parser)
    requires
        old(p).wf(),
        old(p).live(),
        old(p).peek_tok() == Token::BlockOpen,
    ensures
        step(*final(p), *old(p)),
        final(p).cur() > old(p).cur(),
{
    let m = p.start();
    p.bump(Token::BlockOpen);
    while !p.at(Token::BlockClose) && !p.at(Token::Eof)
        invariant
            step(*p, *old(p)),
            p.cur() > old(p).cur(),
            p.cur() > 0,
            m.event_idx == old(p).evs().len(),
            m.event_idx < p.evs().len(),
            p.evs()[m.event_idx as int] is StartNode,
        decreases p.remaining(),
    {
        if p.at_set(first_variant()) {
            variant(p);
            if !p.at(Token::BlockClose) {
                p.expect(Token::Comma);
            }
        } else {
            p.error_recover("expected variant", first_item());
            break;
        }
    }
    p.expect(Token::BlockClose);
    m.complete(p, SyntaxKind::VARIANT_LIST);
}

fn variant(p: &mut Parser)
    requires
        old(p).wf(),
        old(p).live(),
        old(p).peek_tok() == Token::Hash || old(p).peek_tok() == Token::Ident,
    ensures
        step(*final(p), *old(p)),
        final(p).cur() > old(p).cur(),
{
    let m = if p.at(Token::Hash) {
        let mc = directive_list(p);
        p.start_before(mc)
    } else {
        p.start()
    };
    name(p);
    if p.eat(Token::Equals) {
        expr(p);
    } else if p.at(Token::ParenOpen) {
        variant_field_list(p);
    }
    m.complete(p, SyntaxKind::VARIANT);
}

fn variant_field_list(p: &mut Parser)
    requires
        old(p).wf(),
        old(p).live(),
        old(p).peek_tok() == Token::ParenOpen,
    ensures
        step(*final(p), *old(p)),
        final(p).cur() > old(p).cur(),
{
    let m = p.start();
    p.bump(Token::ParenOpen);
    while !p.at(Token::ParenClose) && !p.at(Token::Eof)
        invariant
            step(*p, *old(p)),
            p.cur() > old(p).cur(),
            m.event_idx == old(p).evs().len(),
            m.event_idx < p.evs().len(),
            p.evs()[m.event_idx as int] is StartNode,
        decreases p.remaining(),
    {
        if p.at_set(first_type()) {
            ty(p);
            if !p.at(Token::ParenClose) {
                p.expect(Token::Comma);
            }
        } else {
            p.error_recover("expected field type", recover_variant_field_list());
            break;
        }
    }
    p.expect(Token::ParenClose);
    m.complete(p, SyntaxKind::VARIANT_FIELD_LIST);
}

fn struct_item(p: &mut Parser, m: Marker)
    requires
        old(p).wf(),
        old(p).live(),
        old(p).peek_tok() == Token::KwStruct,
        m.event_idx < old(p).evs().len(),
        old(p).evs()[m.event_idx as int] is StartNode,
    ensures
        step_except(*final(p), *old(p), m.event_idx as int),
        final(p).cur() > old(p).cur(),
{
    p.bump(Token::KwStruct);
    name(p);
    if p.at(Token::ParenOpen) {
        polymorph_params(p);
    }
    if p.at(Token::BlockOpen) {
        field_list(p);
    } else {
        p.error_recover("expected field list", first_item());
    }
    m.complete(p, SyntaxKind::STRUCT_ITEM);
}

fn field_list(p: &mut Parser)
    requires
        old(p).wf(),
        old(p).live(),
        old(p).peek_tok() == Token::BlockOpen,
    ensures
        step(*final(p), *old(p)),
        final(p).cur() > old(p).cur(),
{
    let m = p.start();
    p.bump(Token::BlockOpen);
    while !p.at(Token::BlockClose) && !p.at(Token::Eof)
        invariant
            step(*p, *old(p)),
            p.cur() > old(p).cur(),
            m.event_idx == old(p).evs().len(),
            m.event_idx < p.evs().len(),
            p.evs()[m.event_idx as int] is StartNode,
        decreases p.remaining(),
    {
        if p.at_set(first_field()) {
            field(p);
            if !p.at(Token::BlockClose) {
                p.expect(Token::Comma);
            }
        } else {
            p.error_recover("expected field", first_item());
            break;
        }
    }
    p.expect(Token::BlockClose);
    m.complete(p, SyntaxKind::FIELD_LIST);
}

fn field(p: &mut Parser)
    requires
        old(p).wf(),
        old(p).live(),
        old(p).peek_tok() == Token::Hash || old(p).peek_tok() == Token::Ident,
    ensures
        step(*final(p), *old(p)),
        final(p).cur() > old(p).cur(),
{
    let m = if p.at(Token::Hash) {
        let mc = directive_list(p);
        p.start_before(mc)
    } else {
        p.start()
    };
    name(p);
    p.expect(Token::Colon);
    ty(p);
    m.complete(p, SyntaxKind::FIELD);
}

fn const_item(p: &mut Parser, m: Marker)
    requires
        old(p).wf(),
        old(p).live(),
        old(p).peek_tok() == Token::Ident,
        m.event_idx < old(p).evs().len(),
        old(p).evs()[m.event_idx as int] is StartNode,
    ensures
        step_except(*final(p), *old(p), m.event_idx as int),
        final(p).cur() > old(p).cur(),
{
    name_bump(p);
    if p.eat(Token::Colon) {
        ty(p);
    }
    p.expect(Token::Equals);
    expr(p);
    p.expect(Token::Semicolon);
    m.complete(p, SyntaxKind::CONST_ITEM);
}

fn global_item(p: &mut Parser, m: Marker)
    requires
        old(p).wf(),
        old(p).live(),
        old(p).peek_tok() == Token::KwLet,
        m.event_idx < old(p).evs().len(),
        old(p).evs()[m.event_idx as int] is StartNode,
    ensures
        step_except(*final(p), *old(p), m.event_idx as int),
        final(p).cur() > old(p).cur(),
{
    p.bump(Token::KwLet);
    p.eat(Token::KwMut);
    name(p);
    p.expect(Token::Colon);
    ty(p);
    p.expect(Token::Equals);
    if !p.eat(Token::KwZeroed) {
        expr(p);
    }
    p.expect(Token::Semicolon);
    m.complete(p, SyntaxKind::GLOBAL_ITEM);
}

fn import_item(p: &mut Parser, m: Marker)
    requires
        old(p).wf(),
        old(p).live(),
        old(p).peek_tok() == Token::KwImport,
        m.event_idx < old(p).evs().len(),
        old(p).evs()[m.event_idx as int] is StartNode,
    ensures
        step_except(*final(p), *old(p), m.event_idx as int),
        final(p).cur() > old(p).cur(),
{
    p.bump(Token::KwImport);
    if p.at(Token::Ident) && p.at_next(Token::Colon) {
        name(p);
        p.bump(Token::Colon);
    }
    if p.at(Token::Ident) {
        import_path(p);
    } else {
        p.error_recover("expected import path", recover_import_path());
    }
    if p.at(Token::KwAs) {
        import_symbol_rename(p);
    }
    if p.eat(Token::Dot) {
        if p.at(Token::BlockOpen) {
            import_symbol_list(p);
        } else {
            p.error_recover("expected import symbol list", recover_import_symbol_list());
        }
        p.eat(Token::Semicolon);
    } else {
        p.expect(Token::Semicolon);
    }
    m.complete(p, SyntaxKind::IMPORT_ITEM);
}

fn import_path(p: &mut Parser)
    requires
        old(p).wf(),
        old(p).live(),
        old(p).peek_tok() == Token::Ident,
    ensures
        step(*final(p), *old(p)),
        final(p).cur() > old(p).cur(),
{
    let m = p.start();
    name(p);
    while p.eat(Token::ForwSlash)
        invariant
            step(*p, *old(p)),
            p.cur() > old(p).cur(),
            m.event_idx == old(p).evs().len(),
            m.event_idx < p.evs().len(),
            p.evs()[m.event_idx as int] is StartNode,
        decreases p.remaining(),
    {
        name(p);
    }
    m.complete(p, SyntaxKind::IMPORT_PATH);
}

fn import_symbol_list(p: &mut Parser)
    requires
        old(p).wf(),
        old(p).live(),
        old(p).peek_tok() == Token::BlockOpen,
    ensures
        step(*final(p), *old(p)),
        final(p).cur() > old(p).cur(),
{
    let m = p.start();
    p.bump(Token::BlockOpen);
    while !p.at(Token::BlockClose) && !p.at(Token::Eof)
        invariant
            step(*p, *old(p)),
            p.cur() > old(p).cur(),
            m.event_idx == old(p).evs().len(),
            m.event_idx < p.evs().len(),
            p.evs()[m.event_idx as int] is StartNode,
        decreases p.remaining(),
    {
        if p.at(Token::Ident) {
            import_symbol(p);
            if !p.at(Token::BlockClose) {
                p.expect(Token::Comma);
            }
        } else {
            p.error_recover("expected import symbol", recover_import_symbol_list());
            break;
        }
    }
    p.expect(Token::BlockClose);
    m.complete(p, SyntaxKind::IMPORT_SYMBOL_LIST);
}

fn import_symbol(p: &mut Parser)
    requires
        old(p).wf(),
        old(p).live(),
        old(p).peek_tok() == Token::Ident,
    ensures
        step(*final(p), *old(p)),
        final(p).cur() > old(p).cur(),
{
    let m = p.start();
    name(p);
    if p.at(Token::KwAs) {
        import_symbol_rename(p);
    }
    m.complete(p, SyntaxKind::IMPORT_SYMBOL);
}

fn import_symbol_rename(p: &mut Parser)
    requires
        old(p).wf(),
        old(p).live(),
        old(p).peek_tok() == Token::KwAs,
    ensures
        step(*final(p), *old(p)),
        final(p).cur() > old(p).cur(),
{
    let m = p.start();
    p.bump(Token::KwAs);
    if !p.eat(Token::KwDiscard) {
        name(p);
    }
    m.complete(p, SyntaxKind::IMPORT_SYMBOL_RENAME);
}

//==================== DIRECTIVE ====================

fn directive_list(p: &mut Parser) -> (r: MarkerClosed)
    requires
        old(p).wf(),
        old(p).live(),
    ensures
        step(*final(p), *old(p)),
        fresh(*final(p), *old(p), r),
        old(p).peek_tok() == Token::Hash ==> final(p).cur() > old(p).cur(),
{
    let m = p.start();
    while p.at(Token::Hash)
        invariant
            step(*p, *old(p)),
            p.cur() == old(p).cur() ==> p.peek_tok() == old(p).peek_tok(),
            m.event_idx == old(p).evs().len(),
            m.event_idx < p.evs().len(),
            open_at(p.evs(), m.event_idx as int),
        decreases p.remaining(),
    {
        directive(p);
    }
    m.complete(p, SyntaxKind::DIRECTIVE_LIST)
}

fn directive_list_item(p: &mut Parser) -> (r: (MarkerClosed, bool))
    requires
        old(p).wf(),
        old(p).live(),
        old(p).peek_tok() == Token::Hash,
    ensures
        step(*final(p), *old(p)),
        fresh(*final(p), *old(p), r.0),
        final(p).cur() > old(p).cur(),
{
    let m = p.start();
    let mut scope = false;
    while p.at(Token::Hash)
        invariant
            step(*p, *old(p)),
            p.cur() == old(p).cur() ==> p.peek_tok() == Token::Hash,
            scope ==> p.cur() > old(p).cur(),
            m.event_idx == old(p).evs().len(),
            m.event_idx < p.evs().len(),
            open_at(p.evs(), m.event_idx as int),
        ensures
            p.cur() > old(p).cur(),
        decreases p.remaining(),
    {
        scope = directive(p).1;
        if scope {
            break;
        }
    }
    (m.complete(p, SyntaxKind::DIRECTIVE_LIST), scope)
}

fn directive(p: &mut Parser) -> (r: (MarkerClosed, bool))
    requires
        old(p).wf(),
        old(p).live(),
        old(p).peek_tok() == Token::Hash,
    ensures
        step(*final(p), *old(p)),
        fresh(*final(p), *old(p), r.0),
        final(p).cur() > old(p).cur(),
{
    let m = p.start();
    p.bump(Token::Hash);
    let mut scope = false;
    let kind = if p.at(Token::Ident) {
        let text = p.current_token_string();
        let scope_public: [u8; 12] = [
            115u8,
            99u8,
            111u8,
            112u8,
            101u8,
            95u8,
            112u8,
            117u8,
            98u8,
            108u8,
            105u8,
            99u8,
        ];
        let scope_package: [u8; 13] = [
            115u8,
            99u8,
            111u8,
            112u8,
            101u8,
            95u8,
            112u8,
            97u8,
            99u8,
            107u8,
            97u8,
            103u8,
            101u8,
        ];
        let scope_private: [u8; 13] = [
            115u8,
            99u8,
            111u8,
            112u8,
            101u8,
            95u8,
            112u8,
            114u8,
            105u8,
            118u8,
            97u8,
            116u8,
            101u8,
        ];
        let config: [u8; 6] = [99u8, 111u8, 110u8, 102u8, 105u8, 103u8];
        let config_any: [u8; 10] = [99u8, 111u8, 110u8, 102u8, 105u8, 103u8, 95u8, 97u8, 110u8, 121u8];
        let config_not: [u8; 10] = [99u8, 111u8, 110u8, 102u8, 105u8, 103u8, 95u8, 110u8, 111u8, 116u8];
        if bytes_eq(text, &scope_public) || bytes_eq(text, &scope_package) || bytes_eq(
            text,
            &scope_private,
        ) {
            scope = true;
            SyntaxKind::DIRECTIVE_SIMPLE
        } else if bytes_eq(text, &config) || bytes_eq(text, &config_any) || bytes_eq(
            text,
            &config_not,
        ) {
            SyntaxKind::DIRECTIVE_WITH_PARAMS
        } else {
            SyntaxKind::DIRECTIVE_SIMPLE
        }
    } else {
        SyntaxKind::DIRECTIVE_SIMPLE
    };
    name(p);
    if kind == SyntaxKind::DIRECTIVE_WITH_PARAMS {
        if p.at(Token::ParenOpen) {
            directive_param_list(p);
        } else {
            p.error_recover("expected directive parameter list", first_item());
        }
    }
    (m.complete(p, kind), scope)
}

fn directive_param_list(p: &mut Parser)
    requires
        old(p).wf(),
        old(p).live(),
        old(p).peek_tok() == Token::ParenOpen,
    ensures
        step(*final(p), *old(p)),
        final(p).cur() > old(p).cur(),
{
    let m = p.start();
    p.bump(Token::ParenOpen);
    while !p.at(Token::ParenClose) && !p.at(Token::Eof)
        invariant
            step(*p, *old(p)),
            p.cur() > old(p).cur(),
            m.event_idx == old(p).evs().len(),
            m.event_idx < p.evs().len(),
            p.evs()[m.event_idx as int] is StartNode,
        decreases p.remaining(),
    {
        if p.at(Token::Ident) {
            directive_param(p);
            if !p.at(Token::ParenClose) {
                p.expect(Token::Comma);
            }
        } else {
            p.error_recover("expected directive parameter", recover_directive_param());
            break;
        }
    }
    p.expect(Token::ParenClose);
    m.complete(p, SyntaxKind::DIRECTIVE_PARAM_LIST);
}

fn directive_param(p: &mut Parser)
    requires
        old(p).wf(),
        old(p).live(),
        old(p).peek_tok() == Token::Ident,
    ensures
        step(*final(p), *old(p)),
        final(p).cur() > old(p).cur(),
{
    let m = p.start();
    name_bump(p);
    p.expect(Token::Equals);
    if p.at(Token::StringLit) {
        let ml = p.start();
        p.bump(Token::StringLit);
        ml.complete(p, SyntaxKind::LIT_STRING);
    } else {
        p.expect(Token::StringLit);
    }
    m.complete(p, SyntaxKind::DIRECTIVE_PARAM);
}

//==================== TYPE ====================

fn ty(p: &mut Parser)
    requires
        old(p).wf(),
        old(p).live(),
    ensures
        step(*final(p), *old(p)),
        is_first_type(old(p).peek_tok()) ==> final(p).cur() > old(p).cur(),
    decreases old(p).remaining(), 4int,
{
    let t = p.peek();
    if t.as_basic_type().is_some() {
        let m = p.start();
        p.bump(t);
        m.complete(p, SyntaxKind::TYPE_BASIC);
        return;
    }
    match t {
        Token::Ident => {
            let m = p.start();
            path_type(p);
            m.complete(p, SyntaxKind::TYPE_CUSTOM);
        },
        Token::Ampersand => {
            let m = p.start();
            p.bump(Token::Ampersand);
            p.eat(Token::KwMut);
            ty(p);
            m.complete(p, SyntaxKind::TYPE_REFERENCE);
        },
        Token::KwProc => type_proc(p),
        Token::BracketOpen => type_at_bracket(p),
        _ => p.error("expected type"),
    }
}

fn type_proc(p: &mut Parser)
    requires
        old(p).wf(),
        old(p).live(),
        old(p).peek_tok() == Token::KwProc,
    ensures
        step(*final(p), *old(p)),
        final(p).cur() > old(p).cur(),
    decreases old(p).remaining(), 1int,
{
    let m = p.start();
    p.bump(Token::KwProc);
    if p.at(Token::Hash) {
        directive(p);
    }
    if p.at(Token::ParenOpen) {
        proc_type_param_list(p);
    } else {
        p.error_recover("expected parameter list", recover_proc_type_param_list());
    }
    ty(p);
    m.complete(p, SyntaxKind::TYPE_PROCEDURE);
}

fn proc_type_param_list(p: &mut Parser)
    requires
        old(p).wf(),
        old(p).live(),
        old(p).peek_tok() == Token::ParenOpen,
    ensures
        step(*final(p), *old(p)),
        final(p).cur() > old(p).cur(),
    decreases old(p).remaining(), 1int,
{
    let m = p.start();
    p.bump(Token::ParenOpen);
    while !p.at(Token::ParenClose) && !p.at(Token::Eof)
        invariant
            step(*p, *old(p)),
            p.cur() > old(p).cur(),
            m.event_idx == old(p).evs().len(),
            m.event_idx < p.evs().len(),
            p.evs()[m.event_idx as int] is StartNode,
        decreases p.remaining(),
    {
        if p.at_set(first_proc_type_param()) {
            proc_type_param(p);
            if !p.at(Token::ParenClose) {
                p.expect(Token::Comma);
            }
        } else {
            p.error_recover("expected parameter", recover_proc_type_param_list());
            break;
        }
    }
    p.expect(Token::ParenClose);
    m.complete(p, SyntaxKind::PROC_TYPE_PARAM_LIST);
}

fn proc_type_param(p: &mut Parser)
    requires
        old(p).wf(),
        old(p).live(),
        is_first_type(old(p).peek_tok()) || old(p).peek_tok() == Token::Ident || old(p).peek_tok()
            == Token::Hash,
    ensures
        step(*final(p), *old(p)),
        final(p).cur() > old(p).cur(),
    decreases old(p).remaining(), 5int,
{
    let m = p.start();
    if p.at_next(Token::Colon) {
        name(p);
        p.expect(Token::Colon);
    }
    if p.at(Token::Hash) {
        directive(p);
    } else {
        ty(p);
    }
    m.complete(p, SyntaxKind::PROC_TYPE_PARAM);
}

fn type_at_bracket(p: &mut Parser)
    requires
        old(p).wf(),
        old(p).live(),
        old(p).peek_tok() == Token::BracketOpen,
    ensures
        step(*final(p), *old(p)),
        final(p).cur() > old(p).cur(),
    decreases old(p).remaining(), 1int,
{
    let m = p.start();
    p.bump(Token::BracketOpen);
    if p.at(Token::BracketClose) || p.at(Token::KwMut) {
        p.eat(Token::KwMut);
        p.expect(Token::BracketClose);
        ty(p);
        m.complete(p, SyntaxKind::TYPE_ARRAY_SLICE);
    } else if p.eat(Token::Ampersand) {
        p.eat(Token::KwMut);
        p.expect(Token::BracketClose);
        ty(p);
        m.complete(p, SyntaxKind::TYPE_MULTI_REFERENCE);
    } else {
        expr(p);
        p.expect(Token::BracketClose);
        ty(p);
        m.complete(p, SyntaxKind::TYPE_ARRAY_STATIC);
    }
}

//==================== STMT ====================

fn block(p: &mut Parser) -> (r: MarkerClosed)
    requires
        old(p).wf(),
        old(p).live(),
        old(p).peek_tok() == Token::BlockOpen,
    ensures
        step(*final(p), *old(p)),
        fresh(*final(p), *old(p), r),
        final(p).cur() > old(p).cur(),
    decreases old(p).remaining(), 1int,
{
    let m = p.start();
    p.bump(Token::BlockOpen);
    while !p.at(Token::BlockClose) && !p.at(Token::Eof)
        invariant
            step(*p, *old(p)),
            p.cur() > old(p).cur(),
            p.cur() > 0,
            m.event_idx == old(p).evs().len(),
            m.event_idx < p.evs().len(),
            open_at(p.evs(), m.event_idx as int),
        decreases p.remaining(),
    {
        stmt(p);
    }
    p.expect(Token::BlockClose);
    m.complete(p, SyntaxKind::BLOCK)
}

fn block_expect(p: &mut Parser)
    requires
        old(p).wf(),
        old(p).live(),
    ensures
        step(*final(p), *old(p)),
        old(p).peek_tok() == Token::BlockOpen ==> final(p).cur() > old(p).cur(),
        old(p).peek_tok() != Token::BlockOpen ==> final(p).cur() == old(p).cur() && final(p).evs()
            == old(p).evs() && final(p).error_count() >= 1,
    decreases old(p).remaining(), 2int,
{
    if p.at(Token::BlockOpen) {
        block(p);
    } else {
        p.error("expected block");
    }
}

fn stmt(p: &mut Parser)
    requires
        old(p).wf(),
        old(p).live(),
        old(p).cur() > 0,
    ensures
        step(*final(p), *old(p)),
        old(p).peek_tok() != Token::Eof ==> final(p).cur() > old(p).cur(),
    decreases old(p).remaining(), 7int,
{
    let t = p.peek();
    match t {
        Token::KwBreak => stmt_break(p),
        Token::KwContinue => stmt_continue(p),
        Token::KwReturn => stmt_return(p),
        Token::KwDefer => stmt_defer(p),
        Token::KwFor => stmt_for(p),
        Token::KwLet => stmt_local(p),
        Token::Hash => stmt_with_directive(p),
        _ => stmt_assign_or_expr_semi(p),
    }
}

fn stmt_break(p: &mut Parser)
    requires
        old(p).wf(),
        old(p).live(),
        old(p).peek_tok() == Token::KwBreak,
    ensures
        step(*final(p), *old(p)),
        final(p).cur() > old(p).cur(),
{
    let m = p.start();
    p.bump(Token::KwBreak);
    p.expect(Token::Semicolon);
    m.complete(p, SyntaxKind::STMT_BREAK);
}

fn stmt_continue(p: &mut Parser)
    requires
        old(p).wf(),
        old(p).live(),
        old(p).peek_tok() == Token::KwContinue,
    ensures
        step(*final(p), *old(p)),
        final(p).cur() > old(p).cur(),
{
    let m = p.start();
    p.bump(Token::KwContinue);
    p.expect(Token::Semicolon);
    m.complete(p, SyntaxKind::STMT_CONTINUE);
}

fn stmt_return(p: &mut Parser)
    requires
        old(p).wf(),
        old(p).live(),
        old(p).peek_tok() == Token::KwReturn,
    ensures
        step(*final(p), *old(p)),
        final(p).cur() > old(p).cur(),
    decreases old(p).remaining(), 1int,
{
    let m = p.start();
    p.bump(Token::KwReturn);
    if !p.at(Token::Semicolon) {
        expr(p);
    }
    p.expect(Token::Semicolon);
    m.complete(p, SyntaxKind::STMT_RETURN);
}

fn stmt_defer(p: &mut Parser)
    requires
        old(p).wf(),
        old(p).live(),
        old(p).peek_tok() == Token::KwDefer,
    ensures
        step(*final(p), *old(p)),
        final(p).cur() > old(p).cur(),
    decreases old(p).remaining(), 1int,
{
    let m = p.start();
    p.bump(Token::KwDefer);
    if p.at(Token::BlockOpen) {
        block(p);
        p.eat(Token::Semicolon);
    } else {
        stmt(p);
    }
    m.complete(p, SyntaxKind::STMT_DEFER);
}

fn stmt_for(p: &mut Parser)
    requires
        old(p).wf(),
        old(p).live(),
        old(p).peek_tok() == Token::KwFor,
    ensures
        step(*final(p), *old(p)),
        final(p).cur() > old(p).cur(),
    decreases old(p).remaining(), 1int,
{
    let m = p.start();
    p.bump(Token::KwFor);
    let t = p.peek();
    match t {
        Token::BlockOpen => {},
        Token::Ampersand => {
            let mh = p.start();
            p.bump(Token::Ampersand);
            p.eat(Token::KwMut);
            for_bind(p);
            if p.eat(Token::Comma) {
                for_bind(p);
            }
            p.expect(Token::KwIn);
            p.eat(Token::Shl);
            expr(p);
            if p.eat(Token::Range) || p.eat(Token::RangeInc) {
                expr(p);
                mh.complete(p, SyntaxKind::FOR_HEADER_RANGE);
            } else {
                mh.complete(p, SyntaxKind::FOR_HEADER_ELEM);
            }
        },
        Token::Ident | Token::KwDiscard => {
            if p.at_next(Token::Comma) || p.at_next(Token::KwIn) {
                let mh = p.start();
                for_bind(p);
                if p.eat(Token::Comma) {
                    for_bind(p);
                }
                p.expect(Token::KwIn);
                p.eat(Token::Shl);
                expr(p);
                if p.eat(Token::Range) || p.eat(Token::RangeInc) {
                    expr(p);
                    mh.complete(p, SyntaxKind::FOR_HEADER_RANGE);
                } else {
                    mh.complete(p, SyntaxKind::FOR_HEADER_ELEM);
                }
            } else {
                let mh = p.start();
                expr(p);
                mh.complete(p, SyntaxKind::FOR_HEADER_COND);
            }
        },
        Token::KwLet => {
            let mh = p.start();
            p.bump(Token::KwLet);
            pat(p);
            p.expect(Token::Equals);
            expr(p);
            mh.complete(p, SyntaxKind::FOR_HEADER_PAT);
        },
        _ => {
            let mh = p.start();
            expr(p);
            mh.complete(p, SyntaxKind::FOR_HEADER_COND);
        },
    }
    block_expect(p);
    m.complete(p, SyntaxKind::STMT_FOR);
}

fn for_bind(p: &mut Parser)
    requires
        old(p).wf(),
        old(p).live(),
    ensures
        step(*final(p), *old(p)),
        (old(p).peek_tok() == Token::Ident || old(p).peek_tok() == Token::KwDiscard) ==> final(p).cur() > old(p).cur(),
{
    let m = p.start();
    if p.at(Token::Ident) {
        name(p);
    } else if !p.eat(Token::KwDiscard) {
        p.error("expected name or `_`");
    }
    m.complete(p, SyntaxKind::FOR_BIND);
}

fn stmt_local(p: &mut Parser)
    requires
        old(p).wf(),
        old(p).live(),
        old(p).peek_tok() == Token::KwLet,
    ensures
        step(*final(p), *old(p)),
        final(p).cur() > old(p).cur(),
    decreases old(p).remaining(), 1int,
{
    let m = p.start();
    p.bump(Token::KwLet);
    bind(p);
    if p.eat(Token::Colon) {
        ty(p);
    }
    p.expect(Token::Equals);
    if !p.eat(Token::KwZeroed) && !p.eat(Token::KwUndefined) {
        expr(p);
    }
    p.expect(Token::Semicolon);
    m.complete(p, SyntaxKind::STMT_LOCAL);
}

fn stmt_with_directive(p: &mut Parser)
    requires
        old(p).wf(),
        old(p).live(),
        old(p).peek_tok() == Token::Hash,
    ensures
        step(*final(p), *old(p)),
        final(p).cur() > old(p).cur(),
    decreases old(p).remaining(), 1int,
{
    let mc = directive_list(p);
    let m = p.start_before(mc);
    stmt(p);
    m.complete(p, SyntaxKind::STMT_WITH_DIRECTIVE);
}

fn stmt_assign_or_expr_semi(p: &mut Parser)
    requires
        old(p).wf(),
        old(p).live(),
        old(p).cur() > 0,
    ensures
        step(*final(p), *old(p)),
        old(p).peek_tok() != Token::Eof ==> final(p).cur() > old(p).cur(),
    decreases old(p).remaining(), 6int,
{
    let m = p.start();
    expr(p);
    let t = p.peek();
    if t.as_assign_op().is_some() {
        p.bump(t);
        expr(p);
        p.expect(Token::Semicolon);
        m.complete(p, SyntaxKind::STMT_ASSIGN);
    } else if p.at(Token::BlockClose) {
        m.complete(p, SyntaxKind::STMT_EXPR_TAIL);
    } else if p.at_prev(Token::BlockClose) {
        p.eat(Token::Semicolon);
        m.complete(p, SyntaxKind::STMT_EXPR_SEMI);
    } else {
        p.expect(Token::Semicolon);
        m.complete(p, SyntaxKind::STMT_EXPR_SEMI);
    }
}

//==================== EXPR ====================

fn expr(p: &mut Parser)
    requires
        old(p).wf(),
        old(p).live(),
    ensures
        step(*final(p), *old(p)),
        old(p).peek_tok() != Token::Eof ==> final(p).cur() > old(p).cur(),
    decreases old(p).remaining(), 5int,
{
    sub_expr(p, 0);
}

/// Expression whose binary operators bind at least as tight as `min_prec`. It ends
/// before the first binary operator that binds looser, or where no operator follows.
/// `lowest` is the loosest precedence among the binary operators at its top.
fn sub_expr(p: &mut Parser, min_prec: u32) -> (lowest: Ghost<Option<u32>>)
    requires
        old(p).wf(),
        old(p).live(),
    ensures
        step(*final(p), *old(p)),
        old(p).peek_tok() != Token::Eof ==> final(p).cur() > old(p).cur(),
        spec_as_bin_op(final(p).peek_tok()) is Some ==> spec_prec(
            spec_as_bin_op(final(p).peek_tok())->Some_0,
        ) < min_prec,
        lowest@ matches Some(l) ==> l >= min_prec,
    decreases old(p).remaining(), 4int,
{
    let ghost mut low: Option<u32> = None;
    let mut mc_curr = primary_expr(p);
    while p.at(Token::KwAs)
        invariant
            step(*p, *old(p)),
            old(p).peek_tok() != Token::Eof ==> p.cur() > old(p).cur(),
            fresh(*p, *old(p), mc_curr),
        decreases p.remaining(),
    {
        let m = p.start_before(mc_curr);
        p.bump(Token::KwAs);
        ty(p);
        mc_curr = m.complete(p, SyntaxKind::EXPR_CAST);
    }
    loop
        invariant
            step(*p, *old(p)),
            old(p).peek_tok() != Token::Eof ==> p.cur() > old(p).cur(),
            fresh(*p, *old(p), mc_curr),
            low matches Some(l) ==> l >= min_prec,
        ensures
            step(*p, *old(p)),
            old(p).peek_tok() != Token::Eof ==> p.cur() > old(p).cur(),
            spec_as_bin_op(p.peek_tok()) is None,
            low matches Some(l) ==> l >= min_prec,
        decreases p.remaining(),
    {
        let t = p.peek();
        match t.as_bin_op() {
            Some(bin_op) => {
                let prec = bin_op.prec();
                if prec < min_prec {
                    return Ghost(low);
                }
                let m = p.start_before(mc_curr);
                p.bump(t);
                let rhs_lowest = sub_expr(p, prec + 1);
                mc_curr = m.complete_binary(p, t, rhs_lowest);
                proof {
                    low = match low {
                        Some(l) => if l < prec { Some(l) } else { Some(prec) },
                        None => Some(prec),
                    };
                }
            },
            None => {
                break;
            },
        }
    }
    Ghost(low)
}

fn primary_expr(p: &mut Parser) -> (r: MarkerClosed)
    requires
        old(p).wf(),
        old(p).live(),
    ensures
        step(*final(p), *old(p)),
        fresh(*final(p), *old(p), r),
        old(p).peek_tok() != Token::Eof ==> final(p).cur() > old(p).cur(),
    decreases old(p).remaining(), 3int,
{
    if p.at(Token::ParenOpen) {
        let m = p.start();
        p.bump(Token::ParenOpen);
        sub_expr(p, 0);
        p.expect(Token::ParenClose);
        let mc = m.complete(p, SyntaxKind::EXPR_PAREN);
        return tail_expr(p, mc);
    }
    let t = p.peek();
    if t.as_un_op().is_some() {
        let m = p.start();
        p.bump(t);
        primary_expr(p);
        return m.complete(p, SyntaxKind::EXPR_UNARY);
    }
    let mc = match t {
        Token::KwVoid | Token::KwNull | Token::KwTrue | Token::KwFalse | Token::IntLit
        | Token::FloatLit | Token::CharLit | Token::StringLit => lit(p),
        Token::KwIf => expr_if(p),
        Token::BlockOpen => block(p),
        Token::KwMatch => expr_match(p),
        Token::At => expr_builtin(p),
        Token::Hash => directive(p).0,
        Token::Ident => expr_item_or_struct_init(p),
        Token::Dot => expr_variant_or_struct_init(p),
        Token::BracketOpen => expr_array_init_or_repeat(p),
        Token::Star => expr_deref(p),
        Token::Ampersand => expr_address(p),
        _ => p.error_recover("expected expression", TokenSet::empty()),
    };
    tail_expr(p, mc)
}

/// Field accesses, indexing, slicing and calls that follow the expression `mc`.
/// A token that continues an expression as a field access, an index or a call.
pub open spec fn is_postfix(t: Token) -> bool {
    t == Token::Dot || t == Token::BracketOpen || t == Token::ParenOpen
}

fn tail_expr(p: &mut Parser, mc: MarkerClosed) -> (r: MarkerClosed)
    requires
        old(p).wf(),
        old(p).live(),
        open_at(old(p).evs(), mc.event_idx as int),
    ensures
        step_except(*final(p), *old(p), mc.event_idx as int),
        open_at(final(p).evs(), r.event_idx as int),
        r.event_idx == mc.event_idx || r.event_idx >= old(p).evs().len(),
        !is_postfix(final(p).peek_tok()),
        !is_postfix(old(p).peek_tok()) ==> r.event_idx == mc.event_idx && final(p).cur() == old(
            p,
        ).cur() && final(p).evs() == old(p).evs() && final(p).error_count() == old(p).error_count(),
        is_postfix(old(p).peek_tok()) ==> r.event_idx >= old(p).evs().len() && final(p).cur() > old(
            p,
        ).cur(),
    decreases old(p).remaining(), 2int,
{
    let ghost first = mc.event_idx;
    let mut cur_mc = mc;
    loop
        invariant
            step_except(*p, *old(p), first as int),
            first == mc.event_idx,
            first < old(p).evs().len(),
            open_at(p.evs(), cur_mc.event_idx as int),
            cur_mc.event_idx == first || cur_mc.event_idx >= old(p).evs().len(),
            cur_mc.event_idx == first ==> p.cur() == old(p).cur() && p.evs() == old(p).evs()
                && p.error_count() == old(p).error_count(),
            cur_mc.event_idx != first ==> p.cur() > old(p).cur() && is_postfix(old(p).peek_tok()),
        decreases p.remaining(),
    {
        let t = p.peek();
        match t {
            Token::Dot => {
                let m = p.start_before(cur_mc);
                p.bump(Token::Dot);
                name(p);
                cur_mc = m.complete(p, SyntaxKind::EXPR_FIELD);
            },
            Token::BracketOpen => {
                let m = p.start_before(cur_mc);
                p.bump(Token::BracketOpen);
                if p.eat(Token::DotDot) {
                    p.expect(Token::BracketClose);
                    cur_mc = m.complete(p, SyntaxKind::EXPR_SLICE);
                } else if p.eat(Token::Range) || p.eat(Token::RangeInc) {
                    expr(p);
                    p.expect(Token::BracketClose);
                    cur_mc = m.complete(p, SyntaxKind::EXPR_SLICE);
                } else {
                    expr(p);
                    if p.eat(Token::DotDot) {
                        p.expect(Token::BracketClose);
                        cur_mc = m.complete(p, SyntaxKind::EXPR_SLICE);
                    } else if p.eat(Token::Range) || p.eat(Token::RangeInc) {
                        expr(p);
                        p.expect(Token::BracketClose);
                        cur_mc = m.complete(p, SyntaxKind::EXPR_SLICE);
                    } else {
                        p.expect(Token::BracketClose);
                        cur_mc = m.complete(p, SyntaxKind::EXPR_INDEX);
                    }
                }
            },
            Token::ParenOpen => {
                let m = p.start_before(cur_mc);
                args_list(p);
                cur_mc = m.complete(p, SyntaxKind::EXPR_CALL);
            },
            _ => {
                return cur_mc;
            },
        }
    }
}

fn expr_if(p: &mut Parser) -> (r: MarkerClosed)
    requires
        old(p).wf(),
        old(p).live(),
        old(p).peek_tok() == Token::KwIf,
    ensures
        step(*final(p), *old(p)),
        fresh(*final(p), *old(p), r),
        final(p).cur() > old(p).cur(),
    decreases old(p).remaining(), 1int,
{
    let m = p.start();
    let mb = p.start();
    p.bump(Token::KwIf);
    expr(p);
    block_expect(p);
    mb.complete(p, SyntaxKind::IF_BRANCH);
    while p.eat(Token::KwElse)
        invariant
            step(*p, *old(p)),
            p.cur() > old(p).cur(),
            m.event_idx == old(p).evs().len(),
            m.event_idx < p.evs().len(),
            open_at(p.evs(), m.event_idx as int),
        decreases p.remaining(),
    {
        if p.at(Token::KwIf) {
            let mb = p.start();
            p.bump(Token::KwIf);
            expr(p);
            block_expect(p);
            mb.complete(p, SyntaxKind::IF_BRANCH);
        } else {
            block_expect(p);
            break;
        }
    }
    m.complete(p, SyntaxKind::EXPR_IF)
}

fn expr_match(p: &mut Parser) -> (r: MarkerClosed)
    requires
        old(p).wf(),
        old(p).live(),
        old(p).peek_tok() == Token::KwMatch,
    ensures
        step(*final(p), *old(p)),
        fresh(*final(p), *old(p), r),
        final(p).cur() > old(p).cur(),
    decreases old(p).remaining(), 1int,
{
    let m = p.start();
    p.bump(Token::KwMatch);
    expr(p);
    if p.at(Token::BlockOpen) {
        match_arm_list(p);
    } else {
        p.error("expected match arm list");
    }
    m.complete(p, SyntaxKind::EXPR_MATCH)
}

fn match_arm_list(p: &mut Parser)
    requires
        old(p).wf(),
        old(p).live(),
        old(p).peek_tok() == Token::BlockOpen,
    ensures
        step(*final(p), *old(p)),
        final(p).cur() > old(p).cur(),
    decreases old(p).remaining(), 1int,
{
    let m = p.start();
    p.bump(Token::BlockOpen);
    while !p.at(Token::BlockClose) && !p.at(Token::Eof)
        invariant
            step(*p, *old(p)),
            p.cur() > old(p).cur(),
            m.event_idx == old(p).evs().len(),
            m.event_idx < p.evs().len(),
            open_at(p.evs(), m.event_idx as int),
        decreases p.remaining(),
    {
        match_arm(p);
        if !p.at(Token::BlockClose) {
            p.expect(Token::Comma);
        }
    }
    p.expect(Token::BlockClose);
    m.complete(p, SyntaxKind::MATCH_ARM_LIST);
}

fn match_arm(p: &mut Parser)
    requires
        old(p).wf(),
        old(p).live(),
    ensures
        step(*final(p), *old(p)),
        old(p).peek_tok() != Token::Eof ==> final(p).cur() > old(p).cur(),
    decreases old(p).remaining(), 6int,
{
    let m = p.start();
    pat(p);
    p.expect(Token::ArrowThin);
    expr(p);
    m.complete(p, SyntaxKind::MATCH_ARM);
}

fn expr_builtin(p: &mut Parser) -> (r: MarkerClosed)
    requires
        old(p).wf(),
        old(p).live(),
        old(p).peek_tok() == Token::At,
    ensures
        step(*final(p), *old(p)),
        fresh(*final(p), *old(p), r),
        final(p).cur() > old(p).cur(),
    decreases old(p).remaining(), 1int,
{
    let m = p.start();
    p.bump(Token::At);
    let kind = if p.at(Token::Ident) {
        let text = p.current_token_string();
        let size_of: [u8; 7] = [115u8, 105u8, 122u8, 101u8, 95u8, 111u8, 102u8];
        let align_of: [u8; 8] = [97u8, 108u8, 105u8, 103u8, 110u8, 95u8, 111u8, 102u8];
        let transmute: [u8; 9] = [116u8, 114u8, 97u8, 110u8, 115u8, 109u8, 117u8, 116u8, 101u8];
        if bytes_eq(text, &size_of) || bytes_eq(text, &align_of) {
            SyntaxKind::BUILTIN_WITH_TYPE
        } else if bytes_eq(text, &transmute) {
            SyntaxKind::BUILTIN_TRANSMUTE
        } else {
            SyntaxKind::BUILTIN_ERROR
        }
    } else {
        SyntaxKind::BUILTIN_ERROR
    };
    name(p);
    p.expect(Token::ParenOpen);
    match kind {
        SyntaxKind::BUILTIN_WITH_TYPE => {
            ty(p);
        },
        SyntaxKind::BUILTIN_TRANSMUTE => {
            expr(p);
            p.expect(Token::Comma);
            ty(p);
        },
        _ => {},
    }
    p.expect(Token::ParenClose);
    m.complete(p, kind)
}

fn expr_item_or_struct_init(p: &mut Parser) -> (r: MarkerClosed)
    requires
        old(p).wf(),
        old(p).live(),
        old(p).peek_tok() == Token::Ident,
    ensures
        step(*final(p), *old(p)),
        fresh(*final(p), *old(p), r),
        final(p).cur() > old(p).cur(),
    decreases old(p).remaining(), 2int,
{
    let m = p.start();
    let mp = p.start();
    path_segment_expr(p);
    while p.eat(Token::Dot)
        invariant
            step(*p, *old(p)),
            p.cur() > old(p).cur(),
            m.event_idx == old(p).evs().len(),
            m.event_idx < p.evs().len(),
            mp.event_idx == old(p).evs().len() + 1,
            mp.event_idx < p.evs().len(),
            open_at(p.evs(), m.event_idx as int),
            open_at(p.evs(), mp.event_idx as int),
        decreases p.remaining(),
    {
        if p.at(Token::BlockOpen) {
            mp.complete(p, SyntaxKind::PATH);
            field_init_list(p);
            return m.complete(p, SyntaxKind::EXPR_STRUCT_INIT);
        }
        path_segment_expr(p);
    }
    mp.complete(p, SyntaxKind::PATH);
    if p.at(Token::ParenOpen) {
        args_list(p);
    }
    m.complete(p, SyntaxKind::EXPR_ITEM)
}

fn expr_variant_or_struct_init(p: &mut Parser) -> (r: MarkerClosed)
    requires
        old(p).wf(),
        old(p).live(),
        old(p).peek_tok() == Token::Dot,
    ensures
        step(*final(p), *old(p)),
        fresh(*final(p), *old(p), r),
        final(p).cur() > old(p).cur(),
    decreases old(p).remaining(), 1int,
{
    let m = p.start();
    p.bump(Token::Dot);
    if p.at(Token::BlockOpen) {
        field_init_list(p);
        m.complete(p, SyntaxKind::EXPR_STRUCT_INIT)
    } else {
        name(p);
        if p.at(Token::ParenOpen) {
            args_list(p);
        }
        m.complete(p, SyntaxKind::EXPR_VARIANT)
    }
}

fn field_init_list(p: &mut Parser)
    requires
        old(p).wf(),
        old(p).live(),
        old(p).peek_tok() == Token::BlockOpen,
    ensures
        step(*final(p), *old(p)),
        final(p).cur() > old(p).cur(),
    decreases old(p).remaining(), 1int,
{
    let m = p.start();
    p.bump(Token::BlockOpen);
    while !p.at(Token::BlockClose) && !p.at(Token::Eof)
        invariant
            step(*p, *old(p)),
            p.cur() > old(p).cur(),
            m.event_idx == old(p).evs().len(),
            m.event_idx < p.evs().len(),
            open_at(p.evs(), m.event_idx as int),
        decreases p.remaining(),
    {
        if p.at(Token::Ident) {
            field_init(p);
            if !p.at(Token::BlockClose) {
                p.expect(Token::Comma);
            }
        } else {
            p.error("expected field initializer");
            break;
        }
    }
    p.expect(Token::BlockClose);
    m.complete(p, SyntaxKind::FIELD_INIT_LIST);
}

fn field_init(p: &mut Parser)
    requires
        old(p).wf(),
        old(p).live(),
        old(p).peek_tok() == Token::Ident,
    ensures
        step(*final(p), *old(p)),
        final(p).cur() > old(p).cur(),
    decreases old(p).remaining(), 1int,
{
    let m = p.start();
    name(p);
    if p.eat(Token::Colon) {
        expr(p);
    }
    m.complete(p, SyntaxKind::FIELD_INIT);
}

fn expr_array_init_or_repeat(p: &mut Parser) -> (r: MarkerClosed)
    requires
        old(p).wf(),
        old(p).live(),
        old(p).peek_tok() == Token::BracketOpen,
    ensures
        step(*final(p), *old(p)),
        fresh(*final(p), *old(p), r),
        final(p).cur() > old(p).cur(),
    decreases old(p).remaining(), 1int,
{
    let m = p.start();
    p.bump(Token::BracketOpen);
    while !p.at(Token::BracketClose) && !p.at(Token::Eof)
        invariant
            step(*p, *old(p)),
            p.cur() > old(p).cur(),
            m.event_idx == old(p).evs().len(),
            m.event_idx < p.evs().len(),
            open_at(p.evs(), m.event_idx as int),
        decreases p.remaining(),
    {
        expr(p);
        if p.eat(Token::Semicolon) {
            expr(p);
            p.expect(Token::BracketClose);
            return m.complete(p, SyntaxKind::EXPR_ARRAY_REPEAT);
        }
        if !p.at(Token::BracketClose) {
            p.expect(Token::Comma);
        }
    }
    p.expect(Token::BracketClose);
    m.complete(p, SyntaxKind::EXPR_ARRAY_INIT)
}

fn expr_deref(p: &mut Parser) -> (r: MarkerClosed)
    requires
        old(p).wf(),
        old(p).live(),
        old(p).peek_tok() == Token::Star,
    ensures
        step(*final(p), *old(p)),
        fresh(*final(p), *old(p), r),
        final(p).cur() > old(p).cur(),
    decreases old(p).remaining(), 1int,
{
    let m = p.start();
    p.bump(Token::Star);
    primary_expr(p);
    m.complete(p, SyntaxKind::EXPR_DEREF)
}

fn expr_address(p: &mut Parser) -> (r: MarkerClosed)
    requires
        old(p).wf(),
        old(p).live(),
        old(p).peek_tok() == Token::Ampersand,
    ensures
        step(*final(p), *old(p)),
        fresh(*final(p), *old(p), r),
        final(p).cur() > old(p).cur(),
    decreases old(p).remaining(), 1int,
{
    let m = p.start();
    p.bump(Token::Ampersand);
    p.eat(Token::KwMut);
    primary_expr(p);
    m.complete(p, SyntaxKind::EXPR_ADDRESS)
}

//==================== PAT ====================

fn pat(p: &mut Parser)
    requires
        old(p).wf(),
        old(p).live(),
    ensures
        step(*final(p), *old(p)),
        old(p).peek_tok() != Token::Eof ==> final(p).cur() > old(p).cur(),
    decreases old(p).remaining(), 4int,
{
    let mc = primary_pat(p);
    if p.at(Token::Pipe) {
        let m = p.start_before(mc);
        while p.eat(Token::Pipe)
            invariant
                step(*p, *old(p)),
                old(p).peek_tok() != Token::Eof ==> p.cur() > old(p).cur(),
                m.event_idx >= old(p).evs().len(),
                m.event_idx < p.evs().len(),
                open_at(p.evs(), m.event_idx as int),
            decreases p.remaining(),
        {
            primary_pat(p);
        }
        m.complete(p, SyntaxKind::PAT_OR);
    }
}

fn primary_pat(p: &mut Parser) -> (r: MarkerClosed)
    requires
        old(p).wf(),
        old(p).live(),
    ensures
        step(*final(p), *old(p)),
        fresh(*final(p), *old(p), r),
        old(p).peek_tok() != Token::Eof ==> final(p).cur() > old(p).cur(),
    decreases old(p).remaining(), 3int,
{
    let t = p.peek();
    match t {
        Token::KwDiscard => {
            let m = p.start();
            p.bump(Token::KwDiscard);
            m.complete(p, SyntaxKind::PAT_WILD)
        },
        Token::KwVoid | Token::KwNull | Token::KwTrue | Token::KwFalse | Token::IntLit
        | Token::FloatLit | Token::CharLit | Token::StringLit => {
            let m = p.start();
            lit(p);
            m.complete(p, SyntaxKind::PAT_LIT)
        },
        Token::Minus => {
            let m = p.start();
            p.bump(Token::Minus);
            if p.at(Token::IntLit) {
                let ml = p.start();
                p.bump(Token::IntLit);
                ml.complete(p, SyntaxKind::LIT_INT);
            } else {
                p.error("expected integer literal");
            }
            m.complete(p, SyntaxKind::PAT_LIT)
        },
        Token::Ident => {
            let m = p.start();
            path_expr(p);
            if p.at(Token::ParenOpen) {
                bind_list(p);
            }
            m.complete(p, SyntaxKind::PAT_ITEM)
        },
        Token::Dot => {
            let m = p.start();
            p.bump(Token::Dot);
            name(p);
            if p.at(Token::ParenOpen) {
                bind_list(p);
            }
            m.complete(p, SyntaxKind::PAT_VARIANT)
        },
        _ => p.error_recover("expected pattern", TokenSet::empty()),
    }
}

fn lit(p: &mut Parser) -> (r: MarkerClosed)
    requires
        old(p).wf(),
        old(p).live(),
        is_lit_token(old(p).peek_tok()),
    ensures
        step(*final(p), *old(p)),
        fresh(*final(p), *old(p), r),
        final(p).cur() > old(p).cur(),
{
    let t = p.peek();
    let kind = match t {
        Token::KwVoid => SyntaxKind::LIT_VOID,
        Token::KwNull => SyntaxKind::LIT_NULL,
        Token::KwTrue | Token::KwFalse => SyntaxKind::LIT_BOOL,
        Token::IntLit => SyntaxKind::LIT_INT,
        Token::FloatLit => SyntaxKind::LIT_FLOAT,
        Token::CharLit => SyntaxKind::LIT_CHAR,
        _ => SyntaxKind::LIT_STRING,
    };
    let m = p.start();
    p.bump(t);
    m.complete(p, kind)
}

//==================== COMMON ====================

fn name(p: &mut Parser)
    requires
        old(p).wf(),
        old(p).live(),
    ensures
        step(*final(p), *old(p)),
        old(p).peek_tok() == Token::Ident ==> final(p).cur() == old(p).cur() + 1,
        old(p).peek_tok() != Token::Ident ==> final(p).cur() == old(p).cur(),
{
    let m = p.start();
    if p.eat(Token::Ident) {
        m.complete(p, SyntaxKind::NAME);
    } else {
        p.expect(Token::Ident);
        m.complete(p, SyntaxKind::ERROR);
    }
}

fn name_bump(p: &mut Parser)
    requires
        old(p).wf(),
        old(p).live(),
        old(p).peek_tok() == Token::Ident,
    ensures
        step(*final(p), *old(p)),
        final(p).cur() > old(p).cur(),
{
    let m = p.start();
    p.bump(Token::Ident);
    m.complete(p, SyntaxKind::NAME);
}

fn bind(p: &mut Parser)
    requires
        old(p).wf(),
        old(p).live(),
    ensures
        step(*final(p), *old(p)),
        (old(p).peek_tok() == Token::KwMut || old(p).peek_tok() == Token::Ident || old(p).peek_tok()
            == Token::KwDiscard) ==> final(p).cur() > old(p).cur(),
{
    let m = p.start();
    if p.eat(Token::KwMut) || p.at(Token::Ident) {
        name(p);
    } else if !p.eat(Token::KwDiscard) {
        p.error("expected name or `_`");
    }
    m.complete(p, SyntaxKind::BIND);
}

fn bind_list(p: &mut Parser)
    requires
        old(p).wf(),
        old(p).live(),
        old(p).peek_tok() == Token::ParenOpen,
    ensures
        step(*final(p), *old(p)),
        final(p).cur() > old(p).cur(),
{
    let m = p.start();
    p.bump(Token::ParenOpen);
    while !p.at(Token::ParenClose) && !p.at(Token::Eof)
        invariant
            step(*p, *old(p)),
            p.cur() > old(p).cur(),
            m.event_idx == old(p).evs().len(),
            m.event_idx < p.evs().len(),
            open_at(p.evs(), m.event_idx as int),
        decreases p.remaining(),
    {
        if p.at_set(first_bind()) {
            bind(p);
            if !p.at(Token::ParenClose) {
                p.expect(Token::Comma);
            }
        } else {
            p.error("expected binding");
            break;
        }
    }
    p.expect(Token::ParenClose);
    m.complete(p, SyntaxKind::BIND_LIST);
}

fn args_list(p: &mut Parser)
    requires
        old(p).wf(),
        old(p).live(),
        old(p).peek_tok() == Token::ParenOpen,
    ensures
        step(*final(p), *old(p)),
        final(p).cur() > old(p).cur(),
    decreases old(p).remaining(), 1int,
{
    let m = p.start();
    p.bump(Token::ParenOpen);
    while !p.at(Token::ParenClose) && !p.at(Token::Eof)
        invariant
            step(*p, *old(p)),
            p.cur() > old(p).cur(),
            m.event_idx == old(p).evs().len(),
            m.event_idx < p.evs().len(),
            open_at(p.evs(), m.event_idx as int),
        decreases p.remaining(),
    {
        expr(p);
        if !p.at(Token::ParenClose) {
            p.expect(Token::Comma);
        }
    }
    p.expect(Token::ParenClose);
    m.complete(p, SyntaxKind::ARGS_LIST);
}

fn path_type(p: &mut Parser)
    requires
        old(p).wf(),
        old(p).live(),
        old(p).peek_tok() == Token::Ident,
    ensures
        step(*final(p), *old(p)),
        final(p).cur() > old(p).cur(),
    decreases old(p).remaining(), 3int,
{
    let m = p.start();
    path_segment_type(p);
    while p.eat(Token::Dot)
        invariant
            step(*p, *old(p)),
            p.cur() > old(p).cur(),
            m.event_idx == old(p).evs().len(),
            m.event_idx < p.evs().len(),
            open_at(p.evs(), m.event_idx as int),
        decreases p.remaining(),
    {
        path_segment_type(p);
    }
    m.complete(p, SyntaxKind::PATH);
}

fn path_expr(p: &mut Parser)
    requires
        old(p).wf(),
        old(p).live(),
        old(p).peek_tok() == Token::Ident,
    ensures
        step(*final(p), *old(p)),
        final(p).cur() > old(p).cur(),
    decreases old(p).remaining(), 2int,
{
    let m = p.start();
    path_segment_expr(p);
    while p.eat(Token::Dot)
        invariant
            step(*p, *old(p)),
            p.cur() > old(p).cur(),
            m.event_idx == old(p).evs().len(),
            m.event_idx < p.evs().len(),
            open_at(p.evs(), m.event_idx as int),
        decreases p.remaining(),
    {
        path_segment_expr(p);
    }
    m.complete(p, SyntaxKind::PATH);
}

fn path_segment_type(p: &mut Parser)
    requires
        old(p).wf(),
        old(p).live(),
    ensures
        step(*final(p), *old(p)),
        old(p).peek_tok() == Token::Ident ==> final(p).cur() > old(p).cur(),
    decreases old(p).remaining(), 2int,
{
    let m = p.start();
    name(p);
    if p.at(Token::ParenOpen) {
        polymorph_args(p);
    }
    m.complete(p, SyntaxKind::PATH_SEGMENT);
}

fn path_segment_expr(p: &mut Parser)
    requires
        old(p).wf(),
        old(p).live(),
    ensures
        step(*final(p), *old(p)),
        old(p).peek_tok() == Token::Ident ==> final(p).cur() > old(p).cur(),
    decreases old(p).remaining(), 1int,
{
    let m = p.start();
    name(p);
    if p.eat(Token::Colon) {
        polymorph_args(p);
    }
    m.complete(p, SyntaxKind::PATH_SEGMENT);
}

fn polymorph_args(p: &mut Parser)
    requires
        old(p).wf(),
        old(p).live(),
    ensures
        step(*final(p), *old(p)),
        old(p).peek_tok() == Token::ParenOpen ==> final(p).cur() > old(p).cur(),
    decreases old(p).remaining(), if old(p).peek_tok() == Token::ParenOpen {
        1int
    } else {
        9int
    },
{
    let m = p.start();
    p.expect(Token::ParenOpen);
    while !p.at(Token::ParenClose) && !p.at(Token::Eof)
        invariant
            step(*p, *old(p)),
            old(p).peek_tok() == Token::ParenOpen ==> p.cur() > old(p).cur(),
            m.event_idx == old(p).evs().len(),
            m.event_idx < p.evs().len(),
            open_at(p.evs(), m.event_idx as int),
        decreases p.remaining(),
    {
        if p.at_set(first_type()) {
            ty(p);
            if !p.at(Token::ParenClose) {
                p.expect(Token::Comma);
            }
        } else {
            p.error_recover("expected type argument", TokenSet::empty());
            break;
        }
    }
    p.expect(Token::ParenClose);
    m.complete(p, SyntaxKind::POLYMORPH_ARGS);
}

fn polymorph_params(p: &mut Parser)
    requires
        old(p).wf(),
        old(p).live(),
        old(p).peek_tok() == Token::ParenOpen,
    ensures
        step(*final(p), *old(p)),
        final(p).cur() > old(p).cur(),
{
    let m = p.start();
    p.bump(Token::ParenOpen);
    while !p.at(Token::ParenClose) && !p.at(Token::Eof)
        invariant
            step(*p, *old(p)),
            p.cur() > old(p).cur(),
            m.event_idx == old(p).evs().len(),
            m.event_idx < p.evs().len(),
            open_at(p.evs(), m.event_idx as int),
        decreases p.remaining(),
    {
        if p.at(Token::Ident) {
            name(p);
            if !p.at(Token::ParenClose) {
                p.expect(Token::Comma);
            }
        } else {
            p.error_recover("expected type parameter", TokenSet::empty());
            break;
        }
    }
    p.expect(Token::ParenClose);
    m.complete(p, SyntaxKind::POLYMORPH_PARAMS);
}

} // verus!
