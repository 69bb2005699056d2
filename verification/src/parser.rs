use vstd::prelude::*;
use vstd::string::StringExecFns;
use vstd::string::StringSliceAdditionalSpecFns;
use crate::error::{SourceRange, SyntaxError};
use crate::ids::{ModuleID, TokenID};
use crate::lexer::{lexed_wf, no_eof};
use crate::syntax_kind::SyntaxKind;
use crate::text::TextRange;
use crate::token::{spec_as_bin_op, token_text, Token};
use crate::ast::spec_prec;
use crate::token_list::{TokenList, TokenSet};

verus! {

/// One step of the parse, replayed later to build the syntax tree.
#[derive(Copy, Clone, PartialEq, Eq, Debug, Structural)]
pub enum Event {
    /// Start of a node; `forward_parent` is the event of a node that must be started
    /// right before this one and encloses it.
    StartNode { kind: SyntaxKind, forward_parent: Option<usize> },
    EndNode,
    Token,
    Ignore,
}

/// A started node that has to be completed.
pub struct Marker {
    pub event_idx: usize,
}

/// A completed node, which may still get a parent started before it.
pub struct MarkerClosed {
    pub event_idx: usize,
}

pub open spec fn ev_kind(e: Event) -> SyntaxKind {
    match e {
        Event::StartNode { kind, .. } => kind,
        _ => SyntaxKind::TOMBSTONE,
    }
}

pub open spec fn ev_parent(e: Event) -> Option<usize> {
    match e {
        Event::StartNode { forward_parent, .. } => forward_parent,
        _ => None,
    }
}

/// Number of `Token` events in `s`.
pub open spec fn token_events(s: Seq<Event>) -> nat
    decreases s.len(),
{
    if s.len() == 0 {
        0
    } else {
        token_events(s.drop_last()) + (if s.last() is Token {
            1nat
        } else {
            0nat
        })
    }
}

/// Replacing a `StartNode` event by another event that is no `Token` keeps the count.
pub proof fn lemma_token_events_update(s: Seq<Event>, i: int, e: Event)
    requires
        0 <= i < s.len(),
        !(s[i] is Token),
        !(e is Token),
    ensures
        token_events(s.update(i, e)) == token_events(s),
    decreases s.len(),
{
    let u = s.update(i, e);
    if i == s.len() - 1 {
        assert(u.drop_last() =~= s.drop_last());
    } else {
        assert(u.drop_last() =~= s.drop_last().update(i, e));
        lemma_token_events_update(s.drop_last(), i, e);
    }
}

proof fn lemma_token_events_push(s: Seq<Event>, e: Event)
    ensures
        token_events(s.push(e)) == token_events(s) + (if e is Token {
            1nat
        } else {
            0nat
        }),
{
    assert(s.push(e).drop_last() =~= s);
}

/// The event at `idx` starts a node that has no forward parent yet.
pub open spec fn open_at(evs: Seq<Event>, idx: int) -> bool {
    0 <= idx < evs.len() && evs[idx] matches Event::StartNode { forward_parent: None, .. }
}

/// `new` extends `old` and leaves its events alone.
pub open spec fn frame(new: Seq<Event>, old: Seq<Event>) -> bool {
    &&& new.len() >= old.len()
    &&& forall|i: int| #![trigger new[i]] #![trigger old[i]] 0 <= i < old.len() ==> new[i] == old[i]
}

/// `new` extends `old` and leaves its events alone, except the one at `idx`.
pub open spec fn frame_except(new: Seq<Event>, old: Seq<Event>, idx: int) -> bool {
    &&& new.len() >= old.len()
    &&& forall|i: int|
        #![trigger new[i]]
        #![trigger old[i]]
        0 <= i < old.len() && i != idx ==> new[i] == old[i]
}

/// Recursive descent parser state: a cursor over the tokens and the events produced so far.
pub struct Parser<'src> {
    cursor: TokenID,
    tokens: TokenList,
    events: Vec<Event>,
    errors: Vec<SyntaxError>,
    module_id: ModuleID,
    source: &'src [u8],
}

impl<'src> Parser<'src> {
    pub open spec fn wf(&self) -> bool {
        &&& self.wf_inner()
        &&& 0 <= self.cur() <= self.toks().len() - 2
    }

    pub closed spec fn wf_inner(&self) -> bool {
        &&& forall|i: int|
            0 <= i < self.errors@.len() ==> (#[trigger] self.errors@[i]).src.module_id
                == self.module_id
        &&& lexed_wf(&self.tokens, self.source@.len() as int)
        &&& self.tokens.token_len() < u32::MAX
        &&& self.cursor.0 <= self.tokens.token_len() - 2
        &&& token_events(self.events@) == self.cursor.0
        &&& (self.tokens.tokens_view()[self.cursor.0 as int] == Token::Eof ==> self.cursor.0
            == self.tokens.token_len() - 2)
    }

    /// Index of the current token.
    pub closed spec fn cur(&self) -> int {
        self.cursor.0 as int
    }

    pub closed spec fn source_len(&self) -> int {
        self.source@.len() as int
    }

    /// Source bytes of the current token.
    pub closed spec fn current_text(&self) -> Seq<u8> {
        self.source@.subrange(
            self.tokens.range_at(self.cur()).start.0 as int,
            self.tokens.range_at(self.cur()).end.0 as int,
        )
    }

    pub closed spec fn tokens_list(&self) -> TokenList {
        self.tokens
    }

    pub closed spec fn module(&self) -> ModuleID {
        self.module_id
    }

    pub closed spec fn source_view(&self) -> Seq<u8> {
        self.source@
    }

    pub open spec fn toks(&self) -> Seq<Token> {
        self.tokens_list().tokens_view()
    }

    pub closed spec fn evs(&self) -> Seq<Event> {
        self.events@
    }

    pub closed spec fn errs(&self) -> Seq<SyntaxError> {
        self.errors@
    }

    pub open spec fn error_count(&self) -> nat {
        self.errs().len()
    }

    /// Index of the token that an error reported now points at: the current token, or
    /// the one before it at the end of the file.
    pub open spec fn error_pos(&self) -> int {
        if self.peek_tok() == Token::Eof {
            self.cur() - 1
        } else {
            self.cur()
        }
    }

    /// Where an error reported now points.
    pub open spec fn error_src(&self) -> SourceRange {
        SourceRange {
            module_id: self.module(),
            range: self.tokens_list().range_at(self.error_pos()),
        }
    }

    /// The current token.
    pub open spec fn peek_tok(&self) -> Token {
        self.toks()[self.cur()]
    }

    pub open spec fn remaining(&self) -> int {
        self.toks().len() - self.cur()
    }

    /// An error at the current token can point at it, or at the token before the end.
    pub open spec fn live(&self) -> bool {
        self.cur() > 0 || self.peek_tok() != Token::Eof
    }

    pub open spec fn same_input(&self, other: &Self) -> bool {
        &&& self.tokens_list() == other.tokens_list()
        &&& self.module() == other.module()
        &&& self.source_view() == other.source_view()
    }

    pub proof fn lemma_wf(&self)
        requires
            self.wf(),
        ensures
            0 <= self.cur() <= self.toks().len() - 2,
            self.remaining() >= 2,
            self.peek_tok() == Token::Eof ==> self.remaining() == 2,
            self.toks()[self.cur() + 1] == Token::Eof ==> self.peek_tok() == Token::Eof
                || self.cur() + 1 == self.toks().len() - 2,
    {
        let s = self.tokens.tokens_view();
        if self.cur() + 1 < s.len() - 2 {
            assert(s.subrange(0, s.len() - 2)[self.cur() + 1] == s[self.cur() + 1]);
        }
    }

    /// A parser at the first token of `tokens`, which come from lexing `source`.
    pub fn new(tokens: TokenList, module_id: ModuleID, source: &'src str) -> (r: Parser<'src>)
        requires
            lexed_wf(&tokens, source.spec_bytes().len() as int),
            tokens.token_len() < u32::MAX,
        ensures
            r.wf(),
            r.cur() == 0,
            r.toks() == tokens.tokens_view(),
            r.tokens_list() == tokens,
            r.module() == module_id,
            r.source_view() == source.spec_bytes(),
            r.evs().len() == 0,
            r.error_count() == 0,
    {
        let r = Parser {
            cursor: TokenID(0),
            tokens,
            events: Vec::new(),
            errors: Vec::new(),
            module_id,
            source: source.as_bytes(),
        };
        proof {
            let s = r.tokens.tokens_view();
            if s[0] == Token::Eof && 0 < s.len() - 2 {
                assert(s.subrange(0, s.len() - 2)[0] == s[0]);
            }
        }
        r
    }

    /// The tokens, the events and the errors of the parse.
    pub fn finish(self) -> (r: (TokenList, Vec<Event>, Vec<SyntaxError>))
        requires
            self.wf(),
        ensures
            r.0 == self.tokens_list(),
            r.0.tokens_view() == self.toks(),
            r.1@ == self.evs(),
            r.2@.len() == self.error_count(),
            forall|i: int| 0 <= i < r.2@.len() ==> (#[trigger] r.2@[i]).src.module_id == self.module(),
            lexed_wf(&r.0, self.source_len()),
            token_events(r.1@) == self.cur(),
            self.peek_tok() == Token::Eof ==> self.cur() + 2 == self.toks().len(),
    {
        (self.tokens, self.events, self.errors)
    }

    pub fn peek(&self) -> (r: Token)
        requires
            self.wf(),
        ensures
            r == self.peek_tok(),
    {
        self.tokens.token(self.cursor)
    }

    pub fn peek_next(&self) -> (r: Token)
        requires
            self.wf(),
        ensures
            r == self.toks()[self.cur() + 1],
    {
        self.tokens.token(self.cursor.inc())
    }

    pub fn at(&self, token: Token) -> (r: bool)
        requires
            self.wf(),
        ensures
            r == (self.peek_tok() == token),
    {
        self.peek() == token
    }

    pub fn at_next(&self, token: Token) -> (r: bool)
        requires
            self.wf(),
        ensures
            r == (self.toks()[self.cur() + 1] == token),
    {
        self.peek_next() == token
    }

    pub fn at_set(&self, token_set: TokenSet) -> (r: bool)
        requires
            self.wf(),
        ensures
            r == token_set.has(self.peek_tok()),
    {
        token_set.contains(self.peek())
    }

    pub fn at_prev(&self, token: Token) -> (r: bool)
        requires
            self.wf(),
            self.cur() > 0,
        ensures
            r == (self.toks()[self.cur() - 1] == token),
    {
        self.tokens.token(self.cursor.dec()) == token
    }

    /// Step over the current token, which is not the end of the file.
    fn do_bump(&mut self)
        requires
            old(self).wf(),
            old(self).peek_tok() != Token::Eof,
        ensures
            final(self).wf(),
            final(self).live(),
            final(self).same_input(old(self)),
            final(self).cur() == old(self).cur() + 1,
            final(self).evs() == old(self).evs().push(Event::Token),
            final(self).errs() == old(self).errs(),
    {
        proof {
            self.lemma_wf();
        }
        proof {
            lemma_token_events_push(self.events@, Event::Token);
        }
        self.cursor = self.cursor.inc();
        self.events.push(Event::Token);
        proof {
            let s = self.tokens.tokens_view();
            if self.cursor.0 < s.len() - 2 {
                assert(s.subrange(0, s.len() - 2)[self.cursor.0 as int] == s[self.cursor.0 as int]);
            }
        }
    }

    /// Step over the current token when it is `token`.
    pub fn eat(&mut self, token: Token) -> (r: bool)
        requires
            old(self).wf(),
            !(token == Token::Eof && old(self).peek_tok() == Token::Eof),
        ensures
            final(self).wf(),
            old(self).live() ==> final(self).live(),
            r ==> final(self).live(),
            final(self).same_input(old(self)),
            r == (old(self).peek_tok() == token),
            r ==> final(self).cur() == old(self).cur() + 1 && final(self).evs() == old(self).evs().push(
                Event::Token,
            ),
            !r ==> final(self).cur() == old(self).cur() && final(self).evs() == old(self).evs(),
            final(self).errs() == old(self).errs(),
    {
        if self.at(token) {
            self.do_bump();
            true
        } else {
            false
        }
    }

    /// Step over the current token, which must be `token`.
    pub fn bump(&mut self, token: Token)
        requires
            old(self).wf(),
            token != Token::Eof,
            old(self).peek_tok() == token,
        ensures
            final(self).wf(),
            final(self).live(),
            final(self).same_input(old(self)),
            final(self).cur() == old(self).cur() + 1,
            final(self).evs() == old(self).evs().push(Event::Token),
            final(self).errs() == old(self).errs(),
    {
        self.eat(token);
    }

    /// Step over `token`, or report that it was expected.
    pub fn expect(&mut self, token: Token)
        requires
            old(self).wf(),
            !(token == Token::Eof && old(self).peek_tok() == Token::Eof),
            old(self).peek_tok() != token && old(self).error_count() == 0 ==> old(self).live(),
        ensures
            final(self).wf(),
            old(self).live() ==> final(self).live(),
            final(self).same_input(old(self)),
            old(self).peek_tok() == token ==> final(self).cur() == old(self).cur() + 1
                && final(self).evs() == old(self).evs().push(Event::Token),
            old(self).peek_tok() != token ==> final(self).cur() == old(self).cur()
                && final(self).evs() == old(self).evs(),
            old(self).peek_tok() == token || old(self).error_count() > 0 ==> final(self).errs()
                == old(self).errs(),
            old(self).peek_tok() != token && old(self).error_count() == 0 ==> {
                &&& final(self).errs().len() == 1
                &&& final(self).errs()[0].message@ == "expected `"@ + token_text(token) + "`"@
                &&& final(self).errs()[0].src == old(self).error_src()
            },
    {
        if !self.eat(token) && self.errors.len() == 0 {
            let mut msg = String::from_str("expected `");
            msg.append(token.as_str());
            msg.append("`");
            self.error_string(msg);
        }
    }

    /// Report an error at the current token, unless an error was already reported.
    pub fn error(&mut self, msg: &str)
        requires
            old(self).wf(),
            old(self).error_count() == 0 ==> old(self).live(),
        ensures
            final(self).wf(),
            old(self).live() ==> final(self).live(),
            final(self).same_input(old(self)),
            final(self).cur() == old(self).cur(),
            final(self).evs() == old(self).evs(),
            old(self).error_count() == 0 ==> {
                &&& final(self).errs().len() == 1
                &&& final(self).errs()[0].message@ == msg@
                &&& final(self).errs()[0].src == old(self).error_src()
            },
            old(self).error_count() > 0 ==> final(self).errs() == old(self).errs(),
    {
        self.error_string(String::from_str(msg));
    }

    fn error_string(&mut self, msg: String)
        requires
            old(self).wf(),
            old(self).error_count() == 0 ==> old(self).live(),
        ensures
            final(self).wf(),
            old(self).live() ==> final(self).live(),
            final(self).same_input(old(self)),
            final(self).cur() == old(self).cur(),
            final(self).evs() == old(self).evs(),
            old(self).error_count() == 0 ==> {
                &&& final(self).errs().len() == 1
                &&& final(self).errs()[0].message@ == msg@
                &&& final(self).errs()[0].src == old(self).error_src()
            },
            old(self).error_count() > 0 ==> final(self).errs() == old(self).errs(),
    {
        if self.errors.len() == 0 {
            let cursor = if self.at(Token::Eof) {
                self.cursor.dec()
            } else {
                self.cursor
            };
            let range = self.tokens.token_range(cursor);
            let src = SourceRange::new(self.module_id, range);
            self.errors.push(SyntaxError { message: msg, src });
        }
    }

    /// Report an error and wrap the current token, unless it starts a recovery point,
    /// in an `ERROR` node.
    pub fn error_recover(&mut self, msg: &str, recovery: TokenSet) -> (r: MarkerClosed)
        requires
            old(self).wf(),
            old(self).live(),
        ensures
            final(self).wf(),
            final(self).live(),
            final(self).same_input(old(self)),
            final(self).cur() >= old(self).cur(),
            (!recovery.has(old(self).peek_tok()) && old(self).peek_tok() != Token::Eof) ==> final(self).cur() > old(self).cur(),
            frame(final(self).evs(), old(self).evs()),
            open_at(final(self).evs(), r.event_idx as int),
            r.event_idx >= old(self).evs().len(),
            final(self).error_count() >= old(self).error_count(),
    {
        self.error(msg);
        let m = self.start();
        if !self.at_set(recovery) && !self.at(Token::Eof) {
            self.do_bump();
        }
        m.complete(self, SyntaxKind::ERROR)
    }

    /// Step over tokens up to one in `token_set` or the end of the file.
    pub fn bump_sync(&mut self, token_set: TokenSet)
        requires
            old(self).wf(),
            old(self).live(),
        ensures
            final(self).wf(),
            final(self).live(),
            final(self).same_input(old(self)),
            final(self).cur() >= old(self).cur(),
            (!token_set.has(old(self).peek_tok()) && old(self).peek_tok() != Token::Eof) ==> final(self).cur() > old(self).cur(),
            token_set.has(final(self).peek_tok()) || final(self).peek_tok() == Token::Eof,
            frame(final(self).evs(), old(self).evs()),
            final(self).error_count() == old(self).error_count(),
    {
        if self.at_set(token_set) || self.at(Token::Eof) {
            return;
        }
        self.do_bump();
        while !self.at_set(token_set) && !self.at(Token::Eof)
            invariant
                self.wf(),
                self.live(),
                self.same_input(old(self)),
                self.cur() > old(self).cur(),
                frame(self.evs(), old(self).evs()),
                self.error_count() == old(self).error_count(),
            decreases self.remaining(),
        {
            proof {
                self.lemma_wf();
            }
            self.do_bump();
        }
    }

    /// Source text of the current token, as bytes.
    pub fn current_token_string(&self) -> (r: &[u8])
        requires
            self.wf(),
        ensures
            r@ == self.current_text(),
    {
        let range = self.tokens.token_range(self.cursor);
        &self.source[range.start.0 as usize..range.end.0 as usize]
    }

    /// Start a node at the current position.
    pub fn start(&mut self) -> (r: Marker)
        requires
            old(self).wf(),
        ensures
            final(self).wf(),
            final(self).same_input(old(self)),
            final(self).cur() == old(self).cur(),
            final(self).evs() == old(self).evs().push(
                Event::StartNode { kind: SyntaxKind::TOMBSTONE, forward_parent: None },
            ),
            r.event_idx == old(self).evs().len(),
            final(self).error_count() == old(self).error_count(),
    {
        let event_idx = self.events.len();
        proof {
            lemma_token_events_push(
                self.events@,
                Event::StartNode { kind: SyntaxKind::TOMBSTONE, forward_parent: None },
            );
        }
        self.events.push(Event::StartNode { kind: SyntaxKind::TOMBSTONE, forward_parent: None });
        Marker { event_idx }
    }

    /// Start a node that will enclose the completed node `mc`.
    pub fn start_before(&mut self, mc: MarkerClosed) -> (r: Marker)
        requires
            old(self).wf(),
            open_at(old(self).evs(), mc.event_idx as int),
        ensures
            final(self).wf(),
            final(self).same_input(old(self)),
            final(self).cur() == old(self).cur(),
            r.event_idx == old(self).evs().len(),
            final(self).evs().len() == old(self).evs().len() + 1,
            open_at(final(self).evs(), r.event_idx as int),
            frame_except(final(self).evs(), old(self).evs(), mc.event_idx as int),
            final(self).evs()[mc.event_idx as int] is StartNode,
            ev_parent(final(self).evs()[mc.event_idx as int]) == Some(r.event_idx),
            ev_kind(final(self).evs()[mc.event_idx as int]) == ev_kind(
                old(self).evs()[mc.event_idx as int],
            ),
            final(self).error_count() == old(self).error_count(),
    {
        let event_idx = self.events.len();
        proof {
            lemma_token_events_push(
                self.events@,
                Event::StartNode { kind: SyntaxKind::TOMBSTONE, forward_parent: None },
            );
        }
        self.events.push(Event::StartNode { kind: SyntaxKind::TOMBSTONE, forward_parent: None });
        let ev = self.events[mc.event_idx];
        match ev {
            Event::StartNode { kind, .. } => {
                proof {
                    lemma_token_events_update(
                        self.events@,
                        mc.event_idx as int,
                        Event::StartNode { kind, forward_parent: Some(event_idx) },
                    );
                }
                self.events.set(
                    mc.event_idx,
                    Event::StartNode { kind, forward_parent: Some(event_idx) },
                );
            },
            _ => {},
        }
        Marker { event_idx }
    }
}

/// The token `next` is a binary operator that binds tighter than the binary operator
/// `op`: a binary expression of `op` that ended before it would take away its left operand.
pub open spec fn binds_tighter(next: Token, op: Token) -> bool {
    &&& spec_as_bin_op(next) is Some
    &&& spec_as_bin_op(op) is Some
    &&& spec_prec(spec_as_bin_op(next)->Some_0) > spec_prec(spec_as_bin_op(op)->Some_0)
}

impl Marker {
    /// Complete the node started by this marker as a binary expression of the operator
    /// `op`, whose right operand has `rhs_lowest` as the loosest precedence among the
    /// binary operators at its top. Precedence climbing only ends such a node where the
    /// next token does not bind tighter than `op`, and only with a right operand whose
    /// operators all bind tighter than `op`: `1 + 2 * 3` groups as `1 + (2 * 3)` and
    /// `1 - 2 - 3` as `(1 - 2) - 3`.
    pub fn complete_binary(self, p: &mut Parser, op: Token, rhs_lowest: Ghost<Option<u32>>) -> (r: MarkerClosed)
        requires
            old(p).wf(),
            0 <= self.event_idx < old(p).evs().len(),
            old(p).evs()[self.event_idx as int] is StartNode,
            spec_as_bin_op(op) is Some,
            !binds_tighter(old(p).peek_tok(), op),
            rhs_lowest@ matches Some(l) ==> l > spec_prec(spec_as_bin_op(op)->Some_0),
        ensures
            final(p).wf(),
            final(p).same_input(old(p)),
            final(p).cur() == old(p).cur(),
            r.event_idx == self.event_idx,
            final(p).evs().len() == old(p).evs().len() + 1,
            frame_except(final(p).evs(), old(p).evs(), self.event_idx as int),
            final(p).evs()[self.event_idx as int] is StartNode,
            ev_kind(final(p).evs()[self.event_idx as int]) == SyntaxKind::EXPR_BINARY,
            ev_parent(final(p).evs()[self.event_idx as int]) == ev_parent(
                old(p).evs()[self.event_idx as int],
            ),
            final(p).evs()[old(p).evs().len() as int] == Event::EndNode,
            final(p).error_count() == old(p).error_count(),
    {
        self.complete(p, SyntaxKind::EXPR_BINARY)
    }

    /// Complete the node started by this marker as a node of `kind`.
    pub fn complete(self, p: &mut Parser, kind: SyntaxKind) -> (r: MarkerClosed)
        requires
            old(p).wf(),
            0 <= self.event_idx < old(p).evs().len(),
            old(p).evs()[self.event_idx as int] is StartNode,
        ensures
            final(p).wf(),
            final(p).same_input(old(p)),
            final(p).cur() == old(p).cur(),
            r.event_idx == self.event_idx,
            final(p).evs().len() == old(p).evs().len() + 1,
            frame_except(final(p).evs(), old(p).evs(), self.event_idx as int),
            final(p).evs()[self.event_idx as int] is StartNode,
            ev_kind(final(p).evs()[self.event_idx as int]) == kind,
            ev_parent(final(p).evs()[self.event_idx as int]) == ev_parent(
                old(p).evs()[self.event_idx as int],
            ),
            final(p).evs()[old(p).evs().len() as int] == Event::EndNode,
            final(p).error_count() == old(p).error_count(),
    {
        let ev = p.events[self.event_idx];
        match ev {
            Event::StartNode { forward_parent, .. } => {
                proof {
                    lemma_token_events_update(
                        p.events@,
                        self.event_idx as int,
                        Event::StartNode { kind, forward_parent },
                    );
                }
                p.events.set(self.event_idx, Event::StartNode { kind, forward_parent });
            },
            _ => {},
        }
        proof {
            lemma_token_events_push(p.events@, Event::EndNode);
        }
        p.events.push(Event::EndNode);
        MarkerClosed { event_idx: self.event_idx }
    }
}

} // verus!
