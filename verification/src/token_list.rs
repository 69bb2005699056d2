use vstd::prelude::*;
use crate::ids::{LitID, TokenID, TriviaID};
use crate::text::{TextOffset, TextRange};
use crate::token::{normal_token_len, token_index, Token, TOKEN_COUNT};

verus! {

/// Source text that carries no meaning for the grammar.
#[derive(Copy, Clone, PartialEq, Eq, Debug, Structural)]
pub enum Trivia {
    Whitespace,
    LineComment,
    DocComment,
    ModComment,
}

/// Token classes used for semantic highlighting.
#[derive(Copy, Clone, PartialEq, Eq, Debug, Structural)]
pub enum SemanticToken {
    Namespace,
    Type,
    Parameter,
    Variable,
    Property,
    EnumMember,
    Function,
    Keyword,
    Comment,
    Number,
    String,
    Operator,
}

/// Set of token kinds, one bit per kind.
#[derive(Copy, Clone, PartialEq, Eq, Debug, Structural)]
pub struct TokenSet {
    pub mask: u128,
}

pub open spec fn token_bit(t: Token) -> u128 {
    1u128 << token_index(t)
}

proof fn lemma_bit_or_one(m: u128, i: u8, j: u8)
    requires
        i < 128,
        j < 128,
    ensures
        ((m | (1u128 << j)) & (1u128 << i) != 0) == ((m & (1u128 << i) != 0) || i == j),
{
    assert(((m | (1u128 << j)) & (1u128 << i) != 0) == ((m & (1u128 << i) != 0) || i == j))
        by (bit_vector)
        requires
            i < 128,
            j < 128,
    ;
}

proof fn lemma_bit_or(a: u128, b: u128, i: u8)
    requires
        i < 128,
    ensures
        ((a | b) & (1u128 << i) != 0) == ((a & (1u128 << i) != 0) || (b & (1u128 << i) != 0)),
{
    assert(((a | b) & (1u128 << i) != 0) == ((a & (1u128 << i) != 0) || (b & (1u128 << i) != 0)))
        by (bit_vector)
        requires
            i < 128,
    ;
}

proof fn lemma_bit_zero(i: u8)
    requires
        i < 128,
    ensures
        (0u128 & (1u128 << i)) == 0,
{
    assert((0u128 & (1u128 << i)) == 0) by (bit_vector);
}

pub proof fn lemma_token_index_injective(a: Token, b: Token)
    ensures
        token_index(a) == token_index(b) ==> a == b,
{
}

impl TokenSet {
    pub open spec fn has(self, t: Token) -> bool {
        self.mask & token_bit(t) != 0
    }

    /// The set of the given token kinds.
    pub fn new(tokens: &[Token]) -> (r: TokenSet)
        ensures
            forall|t: Token| #[trigger] r.has(t) <==> tokens@.contains(t),
    {
        let mut mask: u128 = 0;
        let mut i: usize = 0;
        proof {
            assert forall|t: Token| !(#[trigger] (TokenSet { mask: 0u128 }).has(t)) by {
                lemma_bit_zero(token_index(t));
            }
        }
        while i < tokens.len()
            invariant
                i <= tokens@.len(),
                forall|t: Token|
                    #[trigger] (TokenSet { mask }).has(t) <==> tokens@.subrange(0, i as int).contains(
                        t,
                    ),
            decreases tokens@.len() - i,
        {
            let idx = tokens[i].index();
            let ghost old_mask = mask;
            mask = mask | (1u128 << idx);
            proof {
                assert forall|t: Token| #[trigger] (TokenSet { mask }).has(t)
                    <==> tokens@.subrange(0, i + 1).contains(t) by {
                    lemma_bit_or_one(old_mask, token_index(t), idx);
                    lemma_token_index_injective(t, tokens@[i as int]);
                    let s0 = tokens@.subrange(0, i as int);
                    let s1 = tokens@.subrange(0, i + 1);
                    assert(s1 == s0.push(tokens@[i as int]));
                    if s0.contains(t) {
                        let j = choose|j: int| 0 <= j < s0.len() && s0[j] == t;
                        assert(s1[j] == t);
                    }
                    if t == tokens@[i as int] {
                        assert(s1[i as int] == t);
                    }
                    if s1.contains(t) {
                        let j = choose|j: int| 0 <= j < s1.len() && s1[j] == t;
                        if j < i {
                            assert(s0[j] == t);
                        }
                    }
                    assert(TokenSet { mask: old_mask }.has(t) == ((old_mask & (1u128
                        << token_index(t))) != 0));
                }
            }
            i = i + 1;
        }
        proof {
            assert(tokens@.subrange(0, i as int) == tokens@);
        }
        TokenSet { mask }
    }

    pub fn empty() -> (r: TokenSet)
        ensures
            forall|t: Token| !(#[trigger] r.has(t)),
    {
        proof {
            assert forall|t: Token| !(#[trigger] (TokenSet { mask: 0u128 }).has(t)) by {
                lemma_bit_zero(token_index(t));
            }
        }
        TokenSet { mask: 0 }
    }

    pub fn combine(self, other: TokenSet) -> (r: TokenSet)
        ensures
            forall|t: Token| #[trigger] r.has(t) <==> self.has(t) || other.has(t),
    {
        let r = TokenSet { mask: self.mask | other.mask };
        proof {
            assert forall|t: Token| #[trigger] r.has(t) <==> self.has(t) || other.has(t) by {
                lemma_bit_or(self.mask, other.mask, token_index(t));
            }
        }
        r
    }

    pub fn contains(&self, token: Token) -> (r: bool)
        ensures
            r == self.has(token),
    {
        self.mask & (1u128 << token.index()) != 0
    }
}

/// Extra data of the tokens whose text varies.
#[derive(Copy, Clone, PartialEq, Eq, Debug, Structural)]
pub enum TokenValue {
    Ident(TextRange),
    Int(TextRange, u64),
    Float(TextRange),
    Char(TextRange, char),
    Str(TextRange, LitID),
}

pub open spec fn is_special(t: Token) -> bool {
    t == Token::Ident || t == Token::IntLit || t == Token::FloatLit || t == Token::CharLit || t
        == Token::StringLit
}

pub open spec fn value_range(v: TokenValue) -> TextRange {
    match v {
        TokenValue::Ident(r) => r,
        TokenValue::Int(r, _) => r,
        TokenValue::Float(r) => r,
        TokenValue::Char(r, _) => r,
        TokenValue::Str(r, _) => r,
    }
}

pub open spec fn value_matches(t: Token, v: TokenValue) -> bool {
    match t {
        Token::Ident => v is Ident,
        Token::IntLit => v is Int,
        Token::FloatLit => v is Float,
        Token::CharLit => v is Char,
        Token::StringLit => v is Str,
        _ => false,
    }
}

/// Tokens and trivia of a source text, with the range of each in the text.
pub struct TokenList {
    tokens: Vec<Token>,
    token_data: Vec<u32>,
    token_encode: Vec<TokenValue>,
    trivias: Vec<Trivia>,
    trivia_ranges: Vec<TextRange>,
}

impl TokenList {
    pub closed spec fn wf(&self) -> bool {
        &&& self.tokens@.len() == self.token_data@.len()
        &&& self.trivias@.len() == self.trivia_ranges@.len()
        &&& forall|i: int|
            0 <= i < self.tokens@.len() ==> {
                let t = #[trigger] self.tokens@[i];
                let d = self.token_data@[i];
                if is_special(t) {
                    &&& d < self.token_encode@.len()
                    &&& value_matches(t, self.token_encode@[d as int])
                    &&& value_range(self.token_encode@[d as int]).wf()
                } else {
                    d + normal_token_len(t) <= u32::MAX
                }
            }
    }

    /// The token kinds, in order.
    pub closed spec fn tokens_view(&self) -> Seq<Token> {
        self.tokens@
    }

    /// The source range of token `i`.
    pub closed spec fn range_at(&self, i: int) -> TextRange {
        let t = self.tokens@[i];
        let d = self.token_data@[i];
        if is_special(t) {
            value_range(self.token_encode@[d as int])
        } else {
            TextRange { start: TextOffset(d), end: TextOffset((d + normal_token_len(t)) as u32) }
        }
    }

    /// The extra data of the special token `i`.
    pub closed spec fn value_at(&self, i: int) -> TokenValue {
        if is_special(self.tokens@[i]) {
            self.token_encode@[self.token_data@[i] as int]
        } else {
            TokenValue::Ident(TextRange { start: TextOffset(0), end: TextOffset(0) })
        }
    }

    pub closed spec fn trivia_view(&self) -> Seq<Trivia> {
        self.trivias@
    }

    pub closed spec fn trivia_ranges_view(&self) -> Seq<TextRange> {
        self.trivia_ranges@
    }

    pub proof fn lemma_trivia_lens(&self)
        requires
            self.wf(),
        ensures
            self.trivia_view().len() == self.trivia_ranges_view().len(),
    {
    }

    /// An `Eof` token covers no text.
    pub proof fn lemma_eof_empty(&self, i: int)
        requires
            self.wf(),
            0 <= i < self.token_len(),
            self.tokens_view()[i] == Token::Eof,
        ensures
            self.range_at(i).start == self.range_at(i).end,
    {
    }

    pub open spec fn token_len(&self) -> int {
        self.tokens_view().len() as int
    }

    pub open spec fn trivia_len(&self) -> int {
        self.trivia_view().len() as int
    }

    /// `self` is `old` with tokens and trivia added after its own: each earlier token keeps
    /// its kind, range and value, and each earlier trivia its kind and range.
    pub open spec fn extends(&self, old: &TokenList) -> bool {
        &&& old.token_len() <= self.token_len()
        &&& old.trivia_len() <= self.trivia_len()
        &&& old.trivia_ranges_view().len() <= self.trivia_ranges_view().len()
        &&& forall|i: int|
            0 <= i < old.token_len() ==> #[trigger] self.tokens_view()[i] == old.tokens_view()[i]
                && self.range_at(i) == old.range_at(i) && self.value_at(i) == old.value_at(i)
        &&& forall|v: int| 0 <= v < old.trivia_len() ==> #[trigger] self.trivia_view()[v] == old.trivia_view()[v]
        &&& forall|v: int|
            0 <= v < old.trivia_ranges_view().len() ==> #[trigger] self.trivia_ranges_view()[v]
                == old.trivia_ranges_view()[v]
    }

    /// An empty list; the source is only used to size the buffers.
    pub fn new(source: &str) -> (r: TokenList)
        ensures
            r.wf(),
            r.tokens_view().len() == 0,
            r.trivia_view().len() == 0,
            r.trivia_ranges_view().len() == 0,
            r.special_count() == 0,
    {
        let n = source.len();
        TokenList {
            tokens: Vec::with_capacity(n / 8),
            token_data: Vec::with_capacity(n / 8),
            token_encode: Vec::with_capacity(n / 16),
            trivias: Vec::with_capacity(n / 16),
            trivia_ranges: Vec::with_capacity(n / 16),
        }
    }

    pub fn token_count(&self) -> (r: usize)
        requires
            self.wf(),
        ensures
            r == self.tokens_view().len(),
    {
        self.tokens.len()
    }

    pub fn token(&self, id: TokenID) -> (r: Token)
        requires
            self.wf(),
            id.0 < self.tokens_view().len(),
        ensures
            r == self.tokens_view()[id.0 as int],
    {
        self.tokens[id.index()]
    }

    pub fn token_range(&self, id: TokenID) -> (r: TextRange)
        requires
            self.wf(),
            id.0 < self.tokens_view().len(),
        ensures
            r == self.range_at(id.0 as int),
            r.wf(),
    {
        let i = id.index();
        let token = self.tokens[i];
        let d = self.token_data[i];
        match token {
            Token::Ident | Token::IntLit | Token::FloatLit | Token::CharLit | Token::StringLit => {
                match self.token_encode[d as usize] {
                    TokenValue::Ident(r) => r,
                    TokenValue::Int(r, _) => r,
                    TokenValue::Float(r) => r,
                    TokenValue::Char(r, _) => r,
                    TokenValue::Str(r, _) => r,
                }
            },
            _ => {
                let len = token.normal_len();
                TextRange::new(TextOffset(d), TextOffset(d + len))
            },
        }
    }

    pub fn token_and_range(&self, id: TokenID) -> (r: (Token, TextRange))
        requires
            self.wf(),
            id.0 < self.tokens_view().len(),
        ensures
            r.0 == self.tokens_view()[id.0 as int],
            r.1 == self.range_at(id.0 as int),
    {
        (self.tokens[id.index()], self.token_range(id))
    }

    pub fn trivia_count(&self) -> (r: usize)
        requires
            self.wf(),
        ensures
            r == self.trivia_view().len(),
    {
        self.trivias.len()
    }

    pub fn trivia(&self, id: TriviaID) -> (r: Trivia)
        requires
            self.wf(),
            id.0 < self.trivia_view().len(),
        ensures
            r == self.trivia_view()[id.0 as int],
    {
        self.trivias[id.index()]
    }

    pub fn trivia_range(&self, id: TriviaID) -> (r: TextRange)
        requires
            self.wf(),
            id.0 < self.trivia_view().len(),
        ensures
            r == self.trivia_ranges_view()[id.0 as int],
    {
        self.trivia_ranges[id.index()]
    }

    pub fn trivia_and_range(&self, id: TriviaID) -> (r: (Trivia, TextRange))
        requires
            self.wf(),
            id.0 < self.trivia_view().len(),
        ensures
            r.0 == self.trivia_view()[id.0 as int],
            r.1 == self.trivia_ranges_view()[id.0 as int],
    {
        (self.trivias[id.index()], self.trivia_ranges[id.index()])
    }

    /// Value of an integer literal token.
    pub fn int_value(&self, id: TokenID) -> (r: u64)
        requires
            self.wf(),
            id.0 < self.tokens_view().len(),
            self.tokens_view()[id.0 as int] == Token::IntLit,
        ensures
            self.value_at(id.0 as int) matches TokenValue::Int(_, v) && r == v,
    {
        let d = self.token_data[id.index()];
        match self.token_encode[d as usize] {
            TokenValue::Int(_, v) => v,
            _ => 0,
        }
    }

    /// Value of a character literal token.
    pub fn char(&self, id: TokenID) -> (r: char)
        requires
            self.wf(),
            id.0 < self.tokens_view().len(),
            self.tokens_view()[id.0 as int] == Token::CharLit,
        ensures
            self.value_at(id.0 as int) matches TokenValue::Char(_, v) && r == v,
    {
        let d = self.token_data[id.index()];
        match self.token_encode[d as usize] {
            TokenValue::Char(_, v) => v,
            _ => '\0',
        }
    }

    /// Interned content of a string literal token.
    pub fn string(&self, id: TokenID) -> (r: LitID)
        requires
            self.wf(),
            id.0 < self.tokens_view().len(),
            self.tokens_view()[id.0 as int] == Token::StringLit,
        ensures
            self.value_at(id.0 as int) matches TokenValue::Str(_, v) && r == v,
    {
        let d = self.token_data[id.index()];
        match self.token_encode[d as usize] {
            TokenValue::Str(_, v) => v,
            _ => LitID(0),
        }
    }

    /// Append a token whose text is fixed by its kind, starting at `start`.
    pub fn add_token(&mut self, token: Token, start: TextOffset)
        requires
            old(self).wf(),
            !is_special(token),
            start.0 + normal_token_len(token) <= u32::MAX,
        ensures
            final(self).wf(),
            final(self).extends(old(self)),
            one_add(&*final(self), &*old(self)),
            final(self).special_count() == old(self).special_count(),
            final(self).tokens_view() == old(self).tokens_view().push(token),
            final(self).range_at(old(self).token_len()) == (TextRange {
                start,
                end: TextOffset((start.0 + normal_token_len(token)) as u32),
            }),
            forall|i: int| 0 <= i < old(self).token_len() ==> final(self).range_at(i) == old(self).range_at(i),
            forall|i: int| 0 <= i < old(self).token_len() ==> final(self).value_at(i) == old(self).value_at(i),
            final(self).trivia_view() == old(self).trivia_view(),
            final(self).trivia_ranges_view() == old(self).trivia_ranges_view(),
    {
        self.tokens.push(token);
        self.token_data.push(start.0);
        proof {
            assert forall|i: int| 0 <= i < self.tokens@.len() implies {
                let t = #[trigger] self.tokens@[i];
                let d = self.token_data@[i];
                if is_special(t) {
                    &&& d < self.token_encode@.len()
                    &&& value_matches(t, self.token_encode@[d as int])
                    &&& value_range(self.token_encode@[d as int]).wf()
                } else {
                    d + normal_token_len(t) <= u32::MAX
                }
            } by {
                if i < old(self).tokens@.len() {
                    assert(self.tokens@[i] == old(self).tokens@[i]);
                }
            }
        }
    }

    fn push_special(&mut self, token: Token, value: TokenValue)
        requires
            old(self).wf(),
            is_special(token),
            value_matches(token, value),
            value_range(value).wf(),
            old(self).token_encode@.len() < u32::MAX,
        ensures
            final(self).wf(),
            final(self).extends(old(self)),
            final(self).tokens_view() == old(self).tokens_view().push(token),
            final(self).range_at(old(self).token_len()) == value_range(value),
            final(self).value_at(old(self).token_len()) == value,
            final(self).special_count() == old(self).special_count() + 1,
            forall|i: int| 0 <= i < old(self).token_len() ==> final(self).range_at(i) == old(self).range_at(i),
            forall|i: int| 0 <= i < old(self).token_len() ==> final(self).value_at(i) == old(self).value_at(i),
            final(self).trivia_view() == old(self).trivia_view(),
            final(self).trivia_ranges_view() == old(self).trivia_ranges_view(),
    {
        let idx = self.token_encode.len() as u32;
        self.tokens.push(token);
        self.token_data.push(idx);
        self.token_encode.push(value);
        proof {
            assert forall|i: int| 0 <= i < self.tokens@.len() implies {
                let t = #[trigger] self.tokens@[i];
                let d = self.token_data@[i];
                if is_special(t) {
                    &&& d < self.token_encode@.len()
                    &&& value_matches(t, self.token_encode@[d as int])
                    &&& value_range(self.token_encode@[d as int]).wf()
                } else {
                    d + normal_token_len(t) <= u32::MAX
                }
            } by {
                if i < old(self).tokens@.len() {
                    assert(self.tokens@[i] == old(self).tokens@[i]);
                    assert(self.token_data@[i] == old(self).token_data@[i]);
                }
            }
            assert forall|i: int| 0 <= i < old(self).token_len() implies #[trigger] self.range_at(i)
                == old(self).range_at(i) by {
                assert(self.tokens@[i] == old(self).tokens@[i]);
                assert(self.token_data@[i] == old(self).token_data@[i]);
            }
            assert forall|i: int| 0 <= i < old(self).token_len() implies #[trigger] self.value_at(i)
                == old(self).value_at(i) by {
                assert(self.tokens@[i] == old(self).tokens@[i]);
                assert(self.token_data@[i] == old(self).token_data@[i]);
                if is_special(self.tokens@[i]) {
                    assert(self.token_encode@[self.token_data@[i] as int] == old(self).token_encode@[old(self).token_data@[i] as int]);
                }
            }
        }
    }

    pub open spec fn can_add_special(&self) -> bool {
        self.special_count() < u32::MAX
    }

    pub closed spec fn special_count(&self) -> int {
        self.token_encode@.len() as int
    }

    pub fn add_ident(&mut self, range: TextRange)
        requires
            old(self).wf(),
            old(self).can_add_special(),
            range.wf(),
        ensures
            final(self).wf(),
            final(self).extends(old(self)),
            one_add(&*final(self), &*old(self)),
            final(self).special_count() == old(self).special_count() + 1,
            final(self).tokens_view() == old(self).tokens_view().push(Token::Ident),
            final(self).range_at(old(self).token_len()) == range,
            final(self).value_at(old(self).token_len()) == TokenValue::Ident(range),
            forall|i: int| 0 <= i < old(self).token_len() ==> final(self).range_at(i) == old(self).range_at(i),
            forall|i: int| 0 <= i < old(self).token_len() ==> final(self).value_at(i) == old(self).value_at(i),
            final(self).trivia_view() == old(self).trivia_view(),
            final(self).trivia_ranges_view() == old(self).trivia_ranges_view(),
    {
        self.push_special(Token::Ident, TokenValue::Ident(range));
    }

    pub fn add_int(&mut self, value: u64, range: TextRange)
        requires
            old(self).wf(),
            old(self).can_add_special(),
            range.wf(),
        ensures
            final(self).wf(),
            final(self).extends(old(self)),
            one_add(&*final(self), &*old(self)),
            final(self).special_count() == old(self).special_count() + 1,
            final(self).tokens_view() == old(self).tokens_view().push(Token::IntLit),
            final(self).range_at(old(self).token_len()) == range,
            final(self).value_at(old(self).token_len()) == TokenValue::Int(range, value),
            forall|i: int| 0 <= i < old(self).token_len() ==> final(self).range_at(i) == old(self).range_at(i),
            forall|i: int| 0 <= i < old(self).token_len() ==> final(self).value_at(i) == old(self).value_at(i),
            final(self).trivia_view() == old(self).trivia_view(),
            final(self).trivia_ranges_view() == old(self).trivia_ranges_view(),
    {
        self.push_special(Token::IntLit, TokenValue::Int(range, value));
    }

    /// Append a float literal token; its value is read from the source text by the consumer.
    pub fn add_float(&mut self, range: TextRange)
        requires
            old(self).wf(),
            old(self).can_add_special(),
            range.wf(),
        ensures
            final(self).wf(),
            final(self).extends(old(self)),
            one_add(&*final(self), &*old(self)),
            final(self).special_count() == old(self).special_count() + 1,
            final(self).tokens_view() == old(self).tokens_view().push(Token::FloatLit),
            final(self).range_at(old(self).token_len()) == range,
            final(self).value_at(old(self).token_len()) == TokenValue::Float(range),
            forall|i: int| 0 <= i < old(self).token_len() ==> final(self).range_at(i) == old(self).range_at(i),
            forall|i: int| 0 <= i < old(self).token_len() ==> final(self).value_at(i) == old(self).value_at(i),
            final(self).trivia_view() == old(self).trivia_view(),
            final(self).trivia_ranges_view() == old(self).trivia_ranges_view(),
    {
        self.push_special(Token::FloatLit, TokenValue::Float(range));
    }

    pub fn add_char(&mut self, ch: char, range: TextRange)
        requires
            old(self).wf(),
            old(self).can_add_special(),
            range.wf(),
        ensures
            final(self).wf(),
            final(self).extends(old(self)),
            one_add(&*final(self), &*old(self)),
            final(self).special_count() == old(self).special_count() + 1,
            final(self).tokens_view() == old(self).tokens_view().push(Token::CharLit),
            final(self).range_at(old(self).token_len()) == range,
            final(self).value_at(old(self).token_len()) == TokenValue::Char(range, ch),
            forall|i: int| 0 <= i < old(self).token_len() ==> final(self).range_at(i) == old(self).range_at(i),
            forall|i: int| 0 <= i < old(self).token_len() ==> final(self).value_at(i) == old(self).value_at(i),
            final(self).trivia_view() == old(self).trivia_view(),
            final(self).trivia_ranges_view() == old(self).trivia_ranges_view(),
    {
        self.push_special(Token::CharLit, TokenValue::Char(range, ch));
    }

    pub fn add_string(&mut self, id: LitID, range: TextRange)
        requires
            old(self).wf(),
            old(self).can_add_special(),
            range.wf(),
        ensures
            final(self).wf(),
            final(self).extends(old(self)),
            one_add(&*final(self), &*old(self)),
            final(self).special_count() == old(self).special_count() + 1,
            final(self).tokens_view() == old(self).tokens_view().push(Token::StringLit),
            final(self).range_at(old(self).token_len()) == range,
            final(self).value_at(old(self).token_len()) == TokenValue::Str(range, id),
            forall|i: int| 0 <= i < old(self).token_len() ==> final(self).range_at(i) == old(self).range_at(i),
            forall|i: int| 0 <= i < old(self).token_len() ==> final(self).value_at(i) == old(self).value_at(i),
            final(self).trivia_view() == old(self).trivia_view(),
            final(self).trivia_ranges_view() == old(self).trivia_ranges_view(),
    {
        self.push_special(Token::StringLit, TokenValue::Str(range, id));
    }

    pub fn add_trivia(&mut self, trivia: Trivia, range: TextRange)
        requires
            old(self).wf(),
        ensures
            final(self).wf(),
            final(self).extends(old(self)),
            one_add(&*final(self), &*old(self)),
            final(self).special_count() == old(self).special_count(),
            final(self).tokens_view() == old(self).tokens_view(),
            forall|i: int| 0 <= i < old(self).token_len() ==> final(self).range_at(i) == old(self).range_at(i),
            forall|i: int| 0 <= i < old(self).token_len() ==> final(self).value_at(i) == old(self).value_at(i),
            final(self).trivia_view() == old(self).trivia_view().push(trivia),
            final(self).trivia_ranges_view() == old(self).trivia_ranges_view().push(range),
    {
        self.trivias.push(trivia);
        self.trivia_ranges.push(range);
    }
}

/// A token list extends itself.
pub proof fn law_extends_refl(a: &TokenList)
    ensures
        a.extends(a),
{
}

/// Adding to a token list, call after call, keeps all that was there: a list that extends
/// one that extends `a` extends `a`.
pub proof fn law_extends_trans(a: &TokenList, b: &TokenList, c: &TokenList)
    requires
        b.extends(a),
        c.extends(b),
    ensures
        c.extends(a),
{
}

/// Whatever is added later, token `i` of `a` reads back the same from `b`: its kind, its
/// range and its value (an integer, character or string literal's among them).
pub proof fn law_token_kept(a: &TokenList, b: &TokenList, i: int)
    requires
        b.extends(a),
        0 <= i < a.token_len(),
    ensures
        b.tokens_view()[i] == a.tokens_view()[i],
        b.range_at(i) == a.range_at(i),
        b.value_at(i) == a.value_at(i),
{
}

/// Whatever is added later, trivia `v` of `a` reads back the same from `b`: its kind and
/// its range.
pub proof fn law_trivia_kept(a: &TokenList, b: &TokenList, v: int)
    requires
        b.extends(a),
        a.wf(),
        0 <= v < a.trivia_len(),
    ensures
        b.trivia_view()[v] == a.trivia_view()[v],
        b.trivia_ranges_view()[v] == a.trivia_ranges_view()[v],
{
    a.lemma_trivia_lens();
}

/// `new` is `old` after one call that adds to it: one token and no trivia, or one trivia
/// and no token, with all that was there kept.
pub open spec fn one_add(new: &TokenList, old: &TokenList) -> bool {
    &&& new.extends(old)
    &&& (new.token_len() == old.token_len() + 1 && new.trivia_len() == old.trivia_len())
        || (new.token_len() == old.token_len() && new.trivia_len() == old.trivia_len() + 1)
}

/// How many of the steps from each list of `ls` to the next added a trivia.
pub open spec fn trivia_adds(ls: Seq<TokenList>) -> int
    decreases ls.len(),
{
    if ls.len() <= 1 {
        0
    } else {
        trivia_adds(ls.drop_last()) + (if ls.last().trivia_len() == ls[ls.len() - 2].trivia_len() + 1 {
            1int
        } else {
            0int
        })
    }
}

/// Along any run of calls that each add one token or one trivia, the trivia count grows
/// by the number of trivia added and the token count by the number of tokens added, and
/// the last list keeps all that the first held.
pub proof fn law_counts_follow_adds(ls: Seq<TokenList>)
    requires
        ls.len() >= 1,
        forall|k: int| 1 <= k < ls.len() ==> #[trigger] one_add(&ls[k], &ls[k - 1]),
    ensures
        ls.last().trivia_len() == ls[0].trivia_len() + trivia_adds(ls),
        ls.last().token_len() == ls[0].token_len() + (ls.len() - 1 - trivia_adds(ls)),
        ls.last().extends(&ls[0]),
    decreases ls.len(),
{
    if ls.len() > 1 {
        let p = ls.drop_last();
        assert forall|k: int| 1 <= k < p.len() implies #[trigger] one_add(&p[k], &p[k - 1]) by {
            assert(one_add(&ls[k], &ls[k - 1]));
        }
        law_counts_follow_adds(p);
        assert(one_add(&ls[ls.len() - 1], &ls[ls.len() - 2]));
        law_extends_trans(&ls[0], &p.last(), &ls.last());
    } else {
        law_extends_refl(&ls[0]);
    }
}

} // verus!
