use vstd::prelude::*;
use vstd::string::StringSliceAdditionalSpecFns;
use crate::error::{LexError, LexErrorKind, SourceRange};
use crate::ids::{LitID, ModuleID};
use crate::intern::InternPool;
use crate::text::{TextOffset, TextRange};
use crate::token::{normal_token_len, spec_byte_to_single, spec_glue_double, spec_glue_triple, token_index, Token};
use crate::token_list::{is_special, TokenList, TokenValue};

verus! {

/// The token ranges of `tl` are well formed, end at or before `bound`, and follow
/// each other in source order without overlap.
pub open spec fn ordered_tokens(tl: &TokenList, bound: int) -> bool {
    &&& forall|i: int|
        0 <= i < tl.token_len() ==> (#[trigger] tl.range_at(i)).wf() && tl.range_at(i).end.0
            <= bound
    &&& forall|i: int, j: int|
        0 <= i < j < tl.token_len() ==> #[trigger] tl.range_at(i).end.0
            <= #[trigger] tl.range_at(j).start.0
}

/// The trivia ranges of `tl` are well formed, end at or before `bound`, and follow
/// each other in source order without overlap.
pub open spec fn ordered_trivia(tl: &TokenList, bound: int) -> bool {
    &&& forall|i: int|
        0 <= i < tl.trivia_len() ==> (#[trigger] tl.trivia_ranges_view()[i]).wf()
            && tl.trivia_ranges_view()[i].end.0 <= bound
    &&& forall|i: int, j: int|
        0 <= i < j < tl.trivia_len() ==> #[trigger] tl.trivia_ranges_view()[i].end.0
            <= #[trigger] tl.trivia_ranges_view()[j].start.0
}

/// Every token of `tl` before index `n` covers at least one byte.
pub open spec fn tokens_nonempty(tl: &TokenList, n: int) -> bool {
    forall|i: int| 0 <= i < n ==> (#[trigger] tl.range_at(i)).start.0 < tl.range_at(i).end.0
}

/// Every trivia covers at least one byte.
pub open spec fn trivia_nonempty(tl: &TokenList) -> bool {
    forall|v: int|
        0 <= v < tl.trivia_len() ==> (#[trigger] tl.trivia_ranges_view()[v]).start.0
            < tl.trivia_ranges_view()[v].end.0
}

/// No token overlaps a trivia: of the two, one ends before the other starts.
pub open spec fn tokens_trivia_apart(tl: &TokenList) -> bool {
    forall|i: int, v: int|
        0 <= i < tl.token_len() && 0 <= v < tl.trivia_len() ==> #[trigger] tl.range_at(i).end.0
            <= #[trigger] tl.trivia_ranges_view()[v].start.0 || tl.trivia_ranges_view()[v].end.0
            <= tl.range_at(i).start.0
}

/// A trivia of at least one byte, added where every token has ended, keeps tokens and
/// trivia apart and every trivia non-empty.
proof fn lemma_apart_trivia_push(t0: &TokenList, t1: &TokenList, range: TextRange)
    requires
        t0.wf(),
        tokens_trivia_apart(t0),
        trivia_nonempty(t0),
        ordered_tokens(t0, range.start.0 as int),
        range.start.0 < range.end.0,
        t1.extends(t0),
        t1.token_len() == t0.token_len(),
        t1.trivia_len() == t0.trivia_len() + 1,
        t1.trivia_ranges_view() == t0.trivia_ranges_view().push(range),
    ensures
        tokens_trivia_apart(t1),
        trivia_nonempty(t1),
{
    t0.lemma_trivia_lens();
    assert forall|v: int| 0 <= v < t1.trivia_len() implies (#[trigger] t1.trivia_ranges_view()[v]).start.0
        < t1.trivia_ranges_view()[v].end.0 by {
        if v < t0.trivia_len() {
            assert(t1.trivia_ranges_view()[v] == t0.trivia_ranges_view()[v]);
        }
    }
    assert forall|i: int, v: int|
        0 <= i < t1.token_len() && 0 <= v < t1.trivia_len() implies #[trigger] t1.range_at(i).end.0
        <= #[trigger] t1.trivia_ranges_view()[v].start.0 || t1.trivia_ranges_view()[v].end.0
        <= t1.range_at(i).start.0 by {
        assert(t1.tokens_view()[i] == t0.tokens_view()[i]);
        assert(t1.range_at(i) == t0.range_at(i));
        if v < t0.trivia_len() {
            assert(t1.trivia_ranges_view()[v] == t0.trivia_ranges_view()[v]);
        }
    }
}

/// Byte `k` lies in the range of a token or of a trivia of `tl`.
pub open spec fn byte_covered(tl: &TokenList, k: int) -> bool {
    (exists|i: int|
        0 <= i < tl.token_len() && #[trigger] tl.range_at(i).start.0 <= k < tl.range_at(i).end.0)
        || (exists|j: int|
        0 <= j < tl.trivia_len() && #[trigger] tl.trivia_ranges_view()[j].start.0 <= k
            < tl.trivia_ranges_view()[j].end.0)
}

/// An error after which the lexer moves on without a token: an unknown symbol, or a
/// `'` that the end of a line or of the text follows.
pub open spec fn skips_bytes(kind: LexErrorKind) -> bool {
    kind is SymbolUnknown || kind == LexErrorKind::CharIncomplete
}

/// The skipping error `e` stands where `source` holds what it reports: a byte that starts
/// no token (outside ASCII, or an ASCII byte that is no symbol), or a `'` that the end
/// of a line or of the text follows.
pub open spec fn skip_justified(source: Seq<u8>, e: LexError) -> bool {
    let s = e.src.range.start.0 as int;
    let t = e.src.range.end.0 as int;
    let next = if s + 1 < source.len() {
        source[s + 1]
    } else {
        0u8
    };
    &&& 0 <= s < t <= source.len()
    &&& e.kind is SymbolUnknown ==> source[s] >= 128 || spec_byte_to_single(source[s]) == Token::Eof
    &&& e.kind == LexErrorKind::CharIncomplete ==> t == s + 1 && source[s] == 39u8 && (next == 0
        || next == 10 || next == 13)
}

/// Each skipping error among `errors` is justified by `source`.
pub open spec fn skips_justified(source: Seq<u8>, errors: Seq<LexError>) -> bool {
    forall|j: int| 0 <= j < errors.len() && skips_bytes((#[trigger] errors[j]).kind) ==> skip_justified(source, errors[j])
}

/// Each `IntDecOverflow` error among `errors` is over a decimal integer literal of
/// `source` whose value is larger than `u64::MAX`.
pub open spec fn dec_overflow_errors_justified(source: Seq<u8>, errors: Seq<LexError>) -> bool {
    forall|j: int|
        0 <= j < errors.len() && (#[trigger] errors[j]).kind == LexErrorKind::IntDecOverflow ==> {
            let r = errors[j].src.range;
            &&& r.start.0 <= r.end.0 <= source.len()
            &&& dec_overflows(source.subrange(r.start.0 as int, r.end.0 as int))
        }
}

/// A run of hexadecimal digits from `a` that the byte at `c` ends is `c - a` long.
proof fn lemma_hex_run_exact(source: Seq<u8>, a: int, c: int)
    requires
        0 <= a <= c <= source.len(),
        forall|k: int| a <= k < c ==> is_hex_digit(#[trigger] source[k]),
        !is_hex_digit(byte_of(source, c)),
    ensures
        hex_run(source, a) == c - a,
    decreases c - a,
{
    if a < c {
        lemma_hex_run_exact(source, a + 1, c);
    } else if a < source.len() {
        assert(byte_of(source, c) == source[a]);
    }
}

/// `v` is a Unicode scalar value.
pub open spec fn is_scalar(v: u32) -> bool {
    v <= 0x10FFFF && !(0xD800 <= v <= 0xDFFF)
}

/// The character that starts at byte `i` of `source`, as a scalar value, and how many
/// bytes it takes: U+FFFD where the bytes there encode no character.
pub open spec fn text_unit(source: Seq<u8>, i: int) -> (u32, int) {
    let w0 = utf8_width(source[i]);
    let w = if i + w0 <= source.len() {
        w0
    } else {
        source.len() - i
    };
    let v = utf8_scalar(source, i, w);
    (if is_scalar(v) {
        v
    } else {
        0xFFFDu32
    }, w)
}

/// How many hexadecimal digits of `source` follow one another from byte `k` on.
pub open spec fn hex_run(source: Seq<u8>, k: int) -> int
    decreases source.len() - k,
{
    if 0 <= k < source.len() && is_hex_digit(source[k]) {
        1 + hex_run(source, k + 1)
    } else {
        0
    }
}

/// The character that the escape starting with the `\` at byte `i` of `source` denotes,
/// as a scalar value, and how many bytes it takes: `\n`, `\r`, `\t`, `\'`, `\"` and
/// `\\` their characters, `\x{h}` with one to six hexadecimal digits the scalar `h`;
/// anything else, which is an error, a `\`.
pub open spec fn escape_unit(source: Seq<u8>, i: int) -> (u32, int) {
    let c = byte_of(source, i + 1);
    if c == 0 || is_whitespace(c) {
        (92, 1)
    } else if c == 110 {
        (10, 2)
    } else if c == 114 {
        (13, 2)
    } else if c == 116 {
        (9, 2)
    } else if c == 39 {
        (39, 2)
    } else if c == 34 {
        (34, 2)
    } else if c == 92 {
        (92, 2)
    } else if c != 120 {
        (92, 2)
    } else if byte_of(source, i + 2) != 123 {
        (92, 2)
    } else {
        let d = hex_run(source, i + 3);
        if byte_of(source, i + 3 + d) != 125 {
            (92, 3 + d)
        } else if d == 0 || d > 6 {
            (92, 4 + d)
        } else {
            let v = hex_fold32(source.subrange(i + 3, i + 3 + d));
            (if is_scalar(v) {
                v
            } else {
                92
            }, 4 + d)
        }
    }
}

/// The scalar values of the characters of a string literal whose text (after the opening
/// `"`) starts at byte `i` of `source`: up to the closing `"` or the end of the line or
/// text, each escape replaced by the character it denotes.
pub open spec fn string_scalars(source: Seq<u8>, i: int) -> Seq<u32>
    decreases source.len() - i,
{
    let b = byte_of(source, i);
    if b == 0 || b == 10 || b == 13 || b == 34 || i < 0 {
        Seq::empty()
    } else {
        let u = if b == 92 {
            escape_unit(source, i)
        } else {
            text_unit(source, i)
        };
        if u.1 >= 1 && i + u.1 <= source.len() {
            seq![u.0].add(string_scalars(source, i + u.1))
        } else {
            Seq::empty()
        }
    }
}

/// The scalar values of the characters of a raw string literal whose text (after the
/// opening backquote) starts at byte `i` of `source`: up to the closing backquote or the
/// end of the line or text, taken as they are.
pub open spec fn raw_string_scalars(source: Seq<u8>, i: int) -> Seq<u32>
    decreases source.len() - i,
{
    let b = byte_of(source, i);
    if b == 0 || b == 10 || b == 13 || b == 96 || i < 0 {
        Seq::empty()
    } else {
        let u = text_unit(source, i);
        if u.1 >= 1 && i + u.1 <= source.len() {
            seq![u.0].add(raw_string_scalars(source, i + u.1))
        } else {
            Seq::empty()
        }
    }
}

/// The scalar value of a character literal whose opening `'` is byte `s` of `source`:
/// the character of its escape, the `'` or tab that stands in it, or its character.
pub open spec fn char_scalar(source: Seq<u8>, s: int) -> u32 {
    let b = byte_of(source, s + 1);
    if b == 92 {
        escape_unit(source, s + 1).0
    } else if b == 39 {
        39
    } else if b == 9 {
        9
    } else {
        text_unit(source, s + 1).0
    }
}

/// Each character literal token of `tl` holds the character that its text denotes.
pub open spec fn chars_decoded(tl: &TokenList, source: Seq<u8>) -> bool {
    forall|i: int|
        0 <= i < tl.token_len() && #[trigger] tl.tokens_view()[i] == Token::CharLit ==> {
            &&& tl.value_at(i) is Char
            &&& (tl.value_at(i)->Char_1) as u32 == char_scalar(source, tl.range_at(i).start.0 as int)
        }
}

/// Each raw string literal token of `tl` holds, in `pool`, the characters of its text.
pub open spec fn raw_strings_decoded(tl: &TokenList, source: Seq<u8>, pool: Seq<Seq<char>>) -> bool {
    forall|i: int|
        0 <= i < tl.token_len() && #[trigger] tl.tokens_view()[i] == Token::StringLit && byte_of(
            source,
            tl.range_at(i).start.0 as int,
        ) == 96 ==> {
            &&& tl.value_at(i) is Str
            &&& (tl.value_at(i)->Str_1).0 < pool.len()
            &&& scalars(pool[(tl.value_at(i)->Str_1).0 as int]) == raw_string_scalars(
                source,
                tl.range_at(i).start.0 + 1,
            )
        }
}

/// Each string literal token of `tl` written with `"` holds, in `pool`, the characters of
/// its text with each escape replaced by the character it denotes.
pub open spec fn strings_decoded(tl: &TokenList, source: Seq<u8>, pool: Seq<Seq<char>>) -> bool {
    forall|i: int|
        0 <= i < tl.token_len() && #[trigger] tl.tokens_view()[i] == Token::StringLit && byte_of(
            source,
            tl.range_at(i).start.0 as int,
        ) == 34 ==> {
            &&& tl.value_at(i) is Str
            &&& (tl.value_at(i)->Str_1).0 < pool.len()
            &&& scalars(pool[(tl.value_at(i)->Str_1).0 as int]) == string_scalars(
                source,
                tl.range_at(i).start.0 + 1,
            )
        }
}

/// Adding a token and interning a string keep the string literals that were there
/// decoded.
proof fn lemma_strings_decoded_push(
    t0: &TokenList,
    t1: &TokenList,
    source: Seq<u8>,
    pool0: Seq<Seq<char>>,
    pool1: Seq<Seq<char>>,
)
    requires
        strings_decoded(t0, source, pool0),
        t1.extends(t0),
        pool0.len() <= pool1.len(),
        forall|k: int| 0 <= k < pool0.len() ==> #[trigger] pool1[k] == pool0[k],
    ensures
        forall|i: int|
            0 <= i < t0.token_len() && #[trigger] t1.tokens_view()[i] == Token::StringLit && byte_of(
                source,
                t1.range_at(i).start.0 as int,
            ) == 34 ==> {
                &&& t1.value_at(i) is Str
                &&& (t1.value_at(i)->Str_1).0 < pool1.len()
                &&& scalars(pool1[(t1.value_at(i)->Str_1).0 as int]) == string_scalars(
                    source,
                    t1.range_at(i).start.0 + 1,
                )
            },
{
    assert forall|i: int|
        0 <= i < t0.token_len() && #[trigger] t1.tokens_view()[i] == Token::StringLit && byte_of(
            source,
            t1.range_at(i).start.0 as int,
        ) == 34 implies {
        &&& t1.value_at(i) is Str
        &&& (t1.value_at(i)->Str_1).0 < pool1.len()
        &&& scalars(pool1[(t1.value_at(i)->Str_1).0 as int]) == string_scalars(
            source,
            t1.range_at(i).start.0 + 1,
        )
    } by {
        assert(t0.tokens_view()[i] == Token::StringLit);
        let k = (t0.value_at(i)->Str_1).0 as int;
        assert(pool1[k] == pool0[k]);
    }
}

/// Adding a token and interning a string keep the raw string literals that were there
/// decoded.
proof fn lemma_raw_strings_decoded_push(
    t0: &TokenList,
    t1: &TokenList,
    source: Seq<u8>,
    pool0: Seq<Seq<char>>,
    pool1: Seq<Seq<char>>,
)
    requires
        raw_strings_decoded(t0, source, pool0),
        t1.extends(t0),
        pool0.len() <= pool1.len(),
        forall|k: int| 0 <= k < pool0.len() ==> #[trigger] pool1[k] == pool0[k],
    ensures
        forall|i: int|
            0 <= i < t0.token_len() && #[trigger] t1.tokens_view()[i] == Token::StringLit && byte_of(
                source,
                t1.range_at(i).start.0 as int,
            ) == 96 ==> {
                &&& t1.value_at(i) is Str
                &&& (t1.value_at(i)->Str_1).0 < pool1.len()
                &&& scalars(pool1[(t1.value_at(i)->Str_1).0 as int]) == raw_string_scalars(
                    source,
                    t1.range_at(i).start.0 + 1,
                )
            },
{
    assert forall|i: int|
        0 <= i < t0.token_len() && #[trigger] t1.tokens_view()[i] == Token::StringLit && byte_of(
            source,
            t1.range_at(i).start.0 as int,
        ) == 96 implies {
        &&& t1.value_at(i) is Str
        &&& (t1.value_at(i)->Str_1).0 < pool1.len()
        &&& scalars(pool1[(t1.value_at(i)->Str_1).0 as int]) == raw_string_scalars(
            source,
            t1.range_at(i).start.0 + 1,
        )
    } by {
        assert(t0.tokens_view()[i] == Token::StringLit);
        let k = (t0.value_at(i)->Str_1).0 as int;
        assert(pool1[k] == pool0[k]);
    }
}

/// The scalar values of the characters of `s`.
pub open spec fn scalars(s: Seq<char>) -> Seq<u32> {
    Seq::new(s.len(), |k: int| s[k] as u32)
}

/// Byte `i` of `source`, or the sentinel `0` past its end.
pub open spec fn byte_of(source: Seq<u8>, i: int) -> u8 {
    if 0 <= i < source.len() {
        source[i]
    } else {
        0u8
    }
}

/// A literal error `e` stands where `source` holds what it reports: `''` with no third
/// quote, `'''`, a tab right after a `'`, a literal whose closing quote is missing where
/// its range ends, a `\` that ends the text or a line or starts no known escape, a `\x`
/// with no `{`, a `\x{` whose digits have no `}`, are too few or too many, or name no
/// character, a digit that a binary or octal literal cannot hold, or an exponent with no
/// digit.
pub open spec fn literal_error_justified(source: Seq<u8>, e: LexError) -> bool {
    let s = e.src.range.start.0 as int;
    let t = e.src.range.end.0 as int;
    let at_line_end = byte_of(source, t) == 0 || byte_of(source, t) == 10 || byte_of(source, t) == 13;
    &&& e.kind == LexErrorKind::CharEmpty ==> t == s + 2 && byte_of(source, s) == 39 && byte_of(source, s + 1)
        == 39 && byte_of(source, s + 2) != 39
    &&& e.kind == LexErrorKind::CharQuoteNotEscaped ==> t == s + 3 && byte_of(source, s) == 39
        && byte_of(source, s + 1) == 39 && byte_of(source, s + 2) == 39
    &&& e.kind == LexErrorKind::CharTabNotEscaped ==> t == s + 1 && byte_of(source, s) == 9
        && byte_of(source, s - 1) == 39
    &&& e.kind == LexErrorKind::CharNotTerminated ==> s < t && byte_of(source, s) == 39 && byte_of(
        source,
        t,
    ) != 39
    &&& e.kind == LexErrorKind::StringNotTerminated ==> s < t && byte_of(source, s) == 34 && at_line_end
    &&& e.kind == LexErrorKind::StringRawNotTerminated ==> s < t && byte_of(source, s) == 96 && at_line_end
    &&& e.kind == LexErrorKind::EscapeSequenceIncomplete ==> t == s + 1 && byte_of(source, s) == 92 && (
    byte_of(source, s + 1) == 0 || is_whitespace(byte_of(source, s + 1)))
    &&& e.kind is EscapeSequenceNotSupported ==> t == s + 2 && byte_of(source, s) == 92 && !supported_escape(
        byte_of(source, s + 1),
    ) && byte_of(source, s + 1) != 0 && !is_whitespace(byte_of(source, s + 1))
    &&& e.kind == LexErrorKind::ExpectOpenBracket ==> t == s + 2 && byte_of(source, s) == 92 && byte_of(
        source,
        s + 1,
    ) == 120 && byte_of(source, s + 2) != 123
    &&& e.kind is IntBinInvalidDigit ==> t == s + 1 && 50 <= byte_of(source, s) <= 57
    &&& e.kind is IntOctInvalidDigit ==> t == s + 1 && 56 <= byte_of(source, s) <= 57
    &&& e.kind == LexErrorKind::ExpectCloseBracket ==> hex_escape_open(source, s) && s + 3 <= t
        && hex_digits_between(source, s + 3, t) && byte_of(source, t) != 125
    &&& e.kind is EscapeHexWrongDigitCount ==> hex_escape_open(source, s) && s + 4 <= t
        && hex_digits_between(source, s + 3, t - 1) && byte_of(source, t - 1) == 125 && e.kind
        == LexErrorKind::EscapeHexWrongDigitCount((t - 4 - s) as u32) && (t - 4 - s == 0 || t - 4 - s > 6)
    &&& e.kind is EscapeHexNonUtf8 ==> hex_escape_open(source, s) && s + 5 <= t <= s + 10
        && hex_digits_between(source, s + 3, t - 1) && byte_of(source, t - 1) == 125 && e.kind
        == LexErrorKind::EscapeHexNonUtf8(hex_fold32(source.subrange(s + 3, t - 1))) && !(hex_fold32(
        source.subrange(s + 3, t - 1),
    ) <= 0x10FFFF && !(0xD800 <= hex_fold32(source.subrange(s + 3, t - 1)) <= 0xDFFF))
    &&& e.kind == LexErrorKind::FloatExpMissingDigits ==> s < t && !is_digit(byte_of(source, t)) && (
    byte_of(source, t - 1) == 101 || ((byte_of(source, t - 1) == 43 || byte_of(source, t - 1) == 45)
        && byte_of(source, t - 2) == 101))
}

/// A `\x{` starts at byte `s` of `source`.
pub open spec fn hex_escape_open(source: Seq<u8>, s: int) -> bool {
    byte_of(source, s) == 92 && byte_of(source, s + 1) == 120 && byte_of(source, s + 2) == 123
}

/// The bytes of `source` from `a` up to `b` are hexadecimal digits.
pub open spec fn hex_digits_between(source: Seq<u8>, a: int, b: int) -> bool {
    &&& 0 <= a <= b <= source.len()
    &&& forall|k: int| a <= k < b ==> is_hex_digit(#[trigger] source[k])
}

/// The byte after a `\` starts a known escape: `n`, `r`, `t`, a quote, `\\` or `x`.
pub open spec fn supported_escape(c: u8) -> bool {
    c == 110 || c == 114 || c == 116 || c == 39 || c == 34 || c == 92 || c == 120
}

/// Each literal error among `errors` is justified by `source`.
pub open spec fn literal_errors_justified(source: Seq<u8>, errors: Seq<LexError>) -> bool {
    forall|j: int| 0 <= j < errors.len() ==> literal_error_justified(source, #[trigger] errors[j])
}

/// No error among `errors` from index `from` on is a skipping one.
pub open spec fn no_skips(errors: Seq<LexError>, from: int) -> bool {
    forall|j: int| from <= j < errors.len() ==> !skips_bytes((#[trigger] errors[j]).kind)
}

/// Every byte before `n` lies in the range of a token or of a trivia of `tl`.
pub open spec fn covered(tl: &TokenList, n: int) -> bool {
    forall|k: int| 0 <= k < n ==> #[trigger] byte_covered(tl, k)
}

/// The symbol token spelled by the one to three bytes of `s`.
pub open spec fn symbol_of(s: Seq<u8>) -> Token {
    if s.len() == 1 {
        spec_byte_to_single(s[0])
    } else if s.len() == 2 {
        spec_glue_double(s[1], spec_byte_to_single(s[0]))
    } else if s.len() == 3 {
        spec_glue_triple(s[2], spec_glue_double(s[1], spec_byte_to_single(s[0])))
    } else {
        Token::Eof
    }
}

/// The text of each identifier, keyword and symbol token of `tl` in `source` spells it:
/// an identifier is no keyword, a keyword is its own spelling, and a symbol is read from
/// its bytes.
pub open spec fn spelled(tl: &TokenList, source: Seq<u8>) -> bool {
    forall|i: int|
        0 <= i < tl.token_len() ==> #[trigger] token_spelled(
            tl.tokens_view()[i],
            source.subrange(tl.range_at(i).start.0 as int, tl.range_at(i).end.0 as int),
        )
}

/// `s` spells `t`, when `t` is an identifier, a keyword or a symbol.
pub open spec fn token_spelled(t: Token, s: Seq<u8>) -> bool {
    &&& (t == Token::Ident || 6 <= token_index(t) < 50) ==> spec_keyword(s) == t
    &&& token_index(t) >= 50 ==> symbol_of(s) == t
}

/// The decimal digits among the bytes `s`, as characters, in order.
pub open spec fn digit_chars(s: Seq<u8>) -> Seq<char>
    decreases s.len(),
{
    if s.len() == 0 {
        Seq::empty()
    } else if is_digit(s.last()) {
        digit_chars(s.drop_last()).push(s.last() as char)
    } else {
        digit_chars(s.drop_last())
    }
}

/// `text` starts with `0` and the base letter `letter`.
pub open spec fn has_base_prefix(text: Seq<u8>, letter: u8) -> bool {
    text.len() >= 2 && text[0] == 48u8 && text[1] == letter
}

/// The value of the integer literal written `text`: binary digits after `0b`, octal ones
/// after `0o`, hexadecimal ones after `0x`, else the decimal digits, each folded into 64
/// bits as the lexer does.
pub open spec fn int_literal_value(text: Seq<u8>) -> u64 {
    if text.len() >= 2 && text[0] == 48u8 && text[1] == 98u8 {
        bin_fold(text.subrange(2, text.len() as int))
    } else if has_base_prefix(text, 111u8) {
        oct_fold(text.subrange(2, text.len() as int))
    } else if text.len() >= 2 && text[0] == 48u8 && text[1] == 120u8 {
        hex_fold64(text.subrange(2, text.len() as int))
    } else {
        dec_fold(digit_chars(text)).0
    }
}

/// Each integer literal token of `tl` holds the value of its text in `source`.
pub open spec fn int_values(tl: &TokenList, source: Seq<u8>) -> bool {
    forall|i: int|
        0 <= i < tl.token_len() && #[trigger] tl.tokens_view()[i] == Token::IntLit ==> tl.value_at(i)
            == TokenValue::Int(
            tl.range_at(i),
            int_literal_value(
                source.subrange(tl.range_at(i).start.0 as int, tl.range_at(i).end.0 as int),
            ),
        )
}

/// The value of the decimal digits `s`, as an unbounded number.
pub open spec fn dec_nat(s: Seq<char>) -> nat
    decreases s.len(),
{
    if s.len() == 0 {
        0
    } else {
        (10 * dec_nat(s.drop_last()) + (s.last() as u32 - 48)) as nat
    }
}

/// `text` is a decimal integer literal whose value is larger than `u64::MAX`.
pub open spec fn dec_overflows(text: Seq<u8>) -> bool {
    &&& !(text.len() >= 2 && text[0] == 48u8 && (text[1] == 98u8 || text[1] == 111u8 || text[1]
        == 120u8))
    &&& dec_nat(digit_chars(text)) > u64::MAX
}

/// Each decimal integer literal of `tl` whose digits overflow has an `IntDecOverflow`
/// error over its range among `errors`.
pub open spec fn dec_overflows_reported(tl: &TokenList, source: Seq<u8>, errors: Seq<LexError>) -> bool {
    forall|i: int|
        0 <= i < tl.token_len() && #[trigger] tl.tokens_view()[i] == Token::IntLit && dec_overflows(
            source.subrange(tl.range_at(i).start.0 as int, tl.range_at(i).end.0 as int),
        ) ==> exists|j: int|
            0 <= j < errors.len() && (#[trigger] errors[j]).kind == LexErrorKind::IntDecOverflow
                && errors[j].src.range == tl.range_at(i)
}

pub open spec fn no_eof(s: Seq<Token>) -> bool {
    forall|i: int| 0 <= i < s.len() ==> #[trigger] s[i] != Token::Eof
}

/// The result of lexing a text of `len` bytes: ordered tokens and trivia inside the text,
/// ended by exactly two `Eof` tokens at the end of what was lexed.
pub open spec fn lexed_wf(tl: &TokenList, len: int) -> bool {
    &&& tl.wf()
    &&& tl.token_len() >= 2
    &&& no_eof(tl.tokens_view().subrange(0, tl.token_len() - 2))
    &&& tl.tokens_view()[tl.token_len() - 2] == Token::Eof
    &&& tl.tokens_view()[tl.token_len() - 1] == Token::Eof
    &&& ordered_tokens(tl, len)
    &&& ordered_trivia(tl, len)
    &&& lexed_widths(tl)
}

/// Tokens and trivia of a lexed list never overlap, and each of them but the two closing
/// `Eof` tokens covers at least one byte. Kept opaque: only the proofs that need it reveal it.
#[verifier::opaque]
pub open spec fn lexed_widths(tl: &TokenList) -> bool {
    &&& tokens_trivia_apart(tl)
    &&& trivia_nonempty(tl)
    &&& tokens_nonempty(tl, tl.token_len() - 2)
}

pub open spec fn is_digit(c: u8) -> bool {
    48 <= c <= 57
}

pub open spec fn is_alpha(c: u8) -> bool {
    (65 <= c <= 90) || (97 <= c <= 122)
}

pub open spec fn is_whitespace(c: u8) -> bool {
    c == 32 || c == 9 || c == 10 || c == 12 || c == 13
}

pub open spec fn is_hex_digit(c: u8) -> bool {
    is_digit(c) || (97 <= c <= 102) || (65 <= c <= 70)
}

pub open spec fn hex_value(c: u8) -> u64 {
    if is_digit(c) {
        (c - 48) as u64
    } else if 97 <= c <= 102 {
        (c - 97 + 10) as u64
    } else {
        (c - 65 + 10) as u64
    }
}

fn byte_is_digit(c: u8) -> (r: bool)
    ensures
        r == is_digit(c),
{
    c >= 48 && c <= 57
}

fn byte_is_alpha(c: u8) -> (r: bool)
    ensures
        r == is_alpha(c),
{
    (c >= 65 && c <= 90) || (c >= 97 && c <= 122)
}

fn byte_is_whitespace(c: u8) -> (r: bool)
    ensures
        r == is_whitespace(c),
{
    c == 32 || c == 9 || c == 10 || c == 12 || c == 13
}

/// `char::from_u32`: the character with scalar value `v`, when `v` is one.
#[verifier::external_body]
fn char_from_u32(v: u32) -> (r: Option<char>)
    ensures
        r is Some <==> (v <= 0x10FFFF && !(0xD800 <= v <= 0xDFFF)),
        r matches Some(c) ==> c as u32 == v,
{
    char::from_u32(v)
}

fn byte_to_char(c: u8) -> (r: char)
    ensures
        r as u32 == c as u32,
        r == c as char,
{
    c as char
}

/// Byte width of the UTF-8 sequence that starts with `lead`, continuation bytes counting as one.
pub open spec fn utf8_width(lead: u8) -> int {
    if lead < 0xC0 {
        1
    } else if lead < 0xE0 {
        2
    } else if lead < 0xF0 {
        3
    } else {
        4
    }
}

/// The scalar value that the `w` bytes of `bytes` from `i` encode in UTF-8, its lead
/// and continuation bits put together.
pub open spec fn utf8_scalar(bytes: Seq<u8>, i: int, w: int) -> u32 {
    let b0 = bytes[i] as u32;
    if w == 1 {
        b0
    } else if w == 2 {
        ((b0 & 0x1F) << 6) | (bytes[i + 1] as u32 & 0x3F)
    } else if w == 3 {
        ((b0 & 0x0F) << 12) | ((bytes[i + 1] as u32 & 0x3F) << 6) | (bytes[i + 2] as u32 & 0x3F)
    } else {
        ((b0 & 0x07) << 18) | ((bytes[i + 1] as u32 & 0x3F) << 12) | ((bytes[i + 2] as u32 & 0x3F)
            << 6) | (bytes[i + 3] as u32 & 0x3F)
    }
}

/// The virtual sentinel: lexing stops at a zero byte or at the end of the text.
pub const SENTINEL: u8 = 0;

struct Lexer<'s> {
    cursor: usize,
    tokens: TokenList,
    errors: Vec<LexError>,
    buffer: Vec<char>,
    source: &'s [u8],
    module_id: ModuleID,
    intern_lit: InternPool,
    pool_base: Ghost<int>,
}

impl<'s> Lexer<'s> {
    spec fn wf(&self) -> bool {
        &&& self.cursor <= self.source@.len()
        &&& 0 <= self.pool_base@
        &&& self.pool_base@ + self.source@.len() + 8 < u32::MAX
        &&& forall|i: int| 0 <= i < self.errors@.len() ==> (#[trigger] self.errors@[i]).src.module_id
            == self.module_id
        &&& self.tokens.wf()
        &&& self.tokens.special_count() <= self.cursor
        &&& self.intern_lit.wf()
        &&& self.intern_lit.view_strings().len() <= self.pool_base@ + self.cursor
        &&& no_eof(self.tokens.tokens_view())
        &&& ordered_tokens(&self.tokens, self.cursor as int)
        &&& ordered_trivia(&self.tokens, self.cursor as int)
        &&& tokens_trivia_apart(&self.tokens)
        &&& trivia_nonempty(&self.tokens)
        &&& tokens_nonempty(&self.tokens, self.tokens.token_len())
        &&& spelled(&self.tokens, self.source@)
        &&& int_values(&self.tokens, self.source@)
        &&& dec_overflows_reported(&self.tokens, self.source@, self.errors@)
        &&& skips_justified(self.source@, self.errors@)
        &&& dec_overflow_errors_justified(self.source@, self.errors@)
        &&& literal_errors_justified(self.source@, self.errors@)
        &&& strings_decoded(&self.tokens, self.source@, self.intern_lit.view_strings())
        &&& raw_strings_decoded(&self.tokens, self.source@, self.intern_lit.view_strings())
        &&& chars_decoded(&self.tokens, self.source@)
    }

    spec fn byte_at(&self, i: int) -> u8 {
        if 0 <= i < self.source@.len() {
            self.source@[i]
        } else {
            0
        }
    }

    spec fn same_input(&self, other: &Self) -> bool {
        &&& self.source == other.source
        &&& self.module_id == other.module_id
        &&& self.pool_base == other.pool_base
    }

    fn start_range(&self) -> (r: TextOffset)
        requires
            self.wf(),
        ensures
            r.0 == self.cursor,
    {
        TextOffset(self.cursor as u32)
    }

    fn make_range(&self, start: TextOffset) -> (r: TextRange)
        requires
            self.wf(),
            start.0 <= self.cursor,
        ensures
            r.start == start,
            r.end.0 == self.cursor,
            r.wf(),
    {
        TextRange::new(start, TextOffset(self.cursor as u32))
    }

    fn make_src(&self, start: TextOffset) -> (r: SourceRange)
        requires
            self.wf(),
            start.0 <= self.cursor,
        ensures
            r.module_id == self.module_id,
            r.range.start == start,
            r.range.end.0 == self.cursor,
    {
        let range = TextRange::new(start, TextOffset(self.cursor as u32));
        SourceRange::new(self.module_id, range)
    }

    fn peek(&self) -> (r: u8)
        requires
            self.wf(),
        ensures
            r == self.byte_at(self.cursor as int),
    {
        if self.cursor < self.source.len() {
            self.source[self.cursor]
        } else {
            SENTINEL
        }
    }

    fn peek_next(&self) -> (r: u8)
        requires
            self.wf(),
        ensures
            r == self.byte_at(self.cursor + 1),
    {
        if self.cursor + 1 < self.source.len() {
            self.source[self.cursor + 1]
        } else {
            SENTINEL
        }
    }

    /// Width in bytes of the character at the cursor, clipped to the end of the text.
    fn utf8_width_at(&self) -> (r: usize)
        requires
            self.wf(),
            self.cursor < self.source@.len(),
        ensures
            r >= 1,
            self.cursor + r <= self.source@.len(),
            r == (if self.cursor + utf8_width(self.source@[self.cursor as int])
                <= self.source@.len() {
                utf8_width(self.source@[self.cursor as int])
            } else {
                self.source@.len() - self.cursor
            }),
    {
        let lead = self.source[self.cursor];
        let w: usize = if lead < 0xC0 {
            1
        } else if lead < 0xE0 {
            2
        } else if lead < 0xF0 {
            3
        } else {
            4
        };
        let rest = self.source.len() - self.cursor;
        if w <= rest {
            w
        } else {
            rest
        }
    }

    /// Width of the character at the cursor, as `utf8_width_at` gives it.
    spec fn width_at(&self) -> int {
        if self.cursor + utf8_width(self.source@[self.cursor as int]) <= self.source@.len() {
            utf8_width(self.source@[self.cursor as int])
        } else {
            self.source@.len() - self.cursor
        }
    }

    /// The character whose UTF-8 encoding starts at the cursor; U+FFFD where the bytes
    /// there encode no character.
    fn peek_utf8(&self) -> (r: char)
        requires
            self.wf(),
            self.cursor < self.source@.len(),
        ensures
            ({
                let v = utf8_scalar(self.source@, self.cursor as int, self.width_at());
                &&& (v <= 0x10FFFF && !(0xD800 <= v <= 0xDFFF)) ==> r as u32 == v
                &&& !(v <= 0x10FFFF && !(0xD800 <= v <= 0xDFFF)) ==> r == '\u{FFFD}'
            }),
    {
        let w = self.utf8_width_at();
        let i = self.cursor;
        let b0 = self.source[i] as u32;
        let v: u32 = if w == 1 {
            b0
        } else if w == 2 {
            ((b0 & 0x1F) << 6) | (self.source[i + 1] as u32 & 0x3F)
        } else if w == 3 {
            ((b0 & 0x0F) << 12) | ((self.source[i + 1] as u32 & 0x3F) << 6) | (self.source[i
                + 2] as u32 & 0x3F)
        } else {
            ((b0 & 0x07) << 18) | ((self.source[i + 1] as u32 & 0x3F) << 12) | ((self.source[i
                + 2] as u32 & 0x3F) << 6) | (self.source[i + 3] as u32 & 0x3F)
        };
        match char_from_u32(v) {
            Some(c) => c,
            None => '\u{FFFD}',
        }
    }

    fn bump(&mut self)
        requires
            old(self).wf(),
            old(self).cursor < old(self).source@.len(),
        ensures
            final(self).wf(),
            final(self).cursor == old(self).cursor + 1,
            final(self).same_input(old(self)),
            final(self).tokens == old(self).tokens,
            final(self).errors == old(self).errors,
            final(self).buffer == old(self).buffer,
            final(self).intern_lit == old(self).intern_lit,
    {
        self.cursor = self.cursor + 1;
    }

    /// Step over the whole character at the cursor.
    fn bump_utf8(&mut self)
        requires
            old(self).wf(),
            old(self).cursor < old(self).source@.len(),
        ensures
            final(self).wf(),
            final(self).cursor == old(self).cursor + old(self).width_at(),
            final(self).cursor > old(self).cursor,
            final(self).same_input(old(self)),
            final(self).tokens == old(self).tokens,
            final(self).errors == old(self).errors,
            final(self).buffer == old(self).buffer,
            final(self).intern_lit == old(self).intern_lit,
    {
        let w = self.utf8_width_at();
        self.cursor = self.cursor + w;
    }

    fn at(&self, c: u8) -> (r: bool)
        requires
            self.wf(),
        ensures
            r == (self.byte_at(self.cursor as int) == c),
    {
        self.peek() == c
    }

    fn at_next(&self, c: u8) -> (r: bool)
        requires
            self.wf(),
        ensures
            r == (self.byte_at(self.cursor + 1) == c),
    {
        self.peek_next() == c
    }

    /// Step over the byte `c` when it is at the cursor; `c` is never the sentinel.
    fn eat(&mut self, c: u8) -> (r: bool)
        requires
            old(self).wf(),
            c != SENTINEL,
        ensures
            final(self).wf(),
            r == (old(self).byte_at(old(self).cursor as int) == c),
            r ==> final(self).cursor == old(self).cursor + 1,
            !r ==> final(self).cursor == old(self).cursor,
            final(self).same_input(old(self)),
            final(self).tokens == old(self).tokens,
            final(self).errors == old(self).errors,
            final(self).buffer == old(self).buffer,
            final(self).intern_lit == old(self).intern_lit,
    {
        if self.at(c) {
            self.bump();
            true
        } else {
            false
        }
    }

    fn error(&mut self, kind: LexErrorKind, src: SourceRange)
        requires
            old(self).wf(),
            src.module_id == old(self).module_id,
            skips_bytes(kind) ==> skip_justified(old(self).source@, LexError { kind, src }),
            literal_error_justified(old(self).source@, LexError { kind, src }),
            kind == LexErrorKind::IntDecOverflow ==> src.range.start.0 <= src.range.end.0
                <= old(self).source@.len() && dec_overflows(
                old(self).source@.subrange(src.range.start.0 as int, src.range.end.0 as int),
            ),
        ensures
            final(self).wf(),
            final(self).cursor == old(self).cursor,
            final(self).same_input(old(self)),
            final(self).tokens == old(self).tokens,
            final(self).errors@ == old(self).errors@.push(LexError { kind, src }),
            final(self).buffer == old(self).buffer,
            final(self).intern_lit == old(self).intern_lit,
    {
        let ghost e0 = self.errors@;
        self.errors.push(LexError { kind, src });
        proof {
            assert forall|i: int|
                0 <= i < self.tokens.token_len() && #[trigger] self.tokens.tokens_view()[i]
                    == Token::IntLit && dec_overflows(
                    self.source@.subrange(
                        self.tokens.range_at(i).start.0 as int,
                        self.tokens.range_at(i).end.0 as int,
                    ),
                ) implies exists|j: int|
                0 <= j < self.errors@.len() && (#[trigger] self.errors@[j]).kind
                    == LexErrorKind::IntDecOverflow && self.errors@[j].src.range
                    == self.tokens.range_at(i) by {
                let j = choose|j: int|
                    0 <= j < e0.len() && (#[trigger] e0[j]).kind == LexErrorKind::IntDecOverflow
                        && e0[j].src.range == self.tokens.range_at(i);
                assert(self.errors@[j] == e0[j]);
            }
        }
    }
}

proof fn lemma_ordered_push(old_tl: &TokenList, new_tl: &TokenList, r: TextRange, bound: int)
    requires
        ordered_tokens(old_tl, r.start.0 as int),
        r.wf(),
        r.end.0 <= bound,
        new_tl.token_len() == old_tl.token_len() + 1,
        new_tl.range_at(old_tl.token_len()) == r,
        forall|i: int| 0 <= i < old_tl.token_len() ==> new_tl.range_at(i) == old_tl.range_at(i),
        new_tl.trivia_ranges_view() == old_tl.trivia_ranges_view(),
        new_tl.wf(),
        old_tl.wf(),
    ensures
        ordered_tokens(new_tl, bound),
        covered(old_tl, r.start.0 as int) ==> covered(new_tl, r.end.0 as int),
{
    new_tl.lemma_trivia_lens();
    old_tl.lemma_trivia_lens();
    if covered(old_tl, r.start.0 as int) {
        assert forall|k: int| 0 <= k < r.end.0 implies #[trigger] byte_covered(new_tl, k) by {
            if k < r.start.0 {
                assert(byte_covered(old_tl, k));
                if exists|i: int|
                    0 <= i < old_tl.token_len() && #[trigger] old_tl.range_at(i).start.0 <= k
                        < old_tl.range_at(i).end.0 {
                    let i = choose|i: int|
                        0 <= i < old_tl.token_len() && #[trigger] old_tl.range_at(i).start.0 <= k
                            < old_tl.range_at(i).end.0;
                    assert(new_tl.range_at(i) == old_tl.range_at(i));
                } else {
                    let j = choose|j: int|
                        0 <= j < old_tl.trivia_len() && #[trigger] old_tl.trivia_ranges_view()[j].start.0
                            <= k < old_tl.trivia_ranges_view()[j].end.0;
                    assert(new_tl.trivia_ranges_view()[j] == old_tl.trivia_ranges_view()[j]);
                }
            } else {
                assert(new_tl.range_at(old_tl.token_len()).start.0 <= k);
            }
        }
    }
    assert forall|i: int, j: int| 0 <= i < j < new_tl.token_len() implies #[trigger] new_tl.range_at(
        i,
    ).end.0 <= #[trigger] new_tl.range_at(j).start.0 by {
        assert(new_tl.range_at(i) == old_tl.range_at(i));
        if j < old_tl.token_len() {
            assert(new_tl.range_at(j) == old_tl.range_at(j));
        }
    }
    assert forall|i: int| 0 <= i < new_tl.token_len() implies (#[trigger] new_tl.range_at(i)).wf()
        && new_tl.range_at(i).end.0 <= bound by {
        if i < old_tl.token_len() {
            assert(new_tl.range_at(i) == old_tl.range_at(i));
        }
    }
}

proof fn lemma_trivia_push(old_tl: &TokenList, new_tl: &TokenList, r: TextRange, bound: int)
    requires
        ordered_trivia(old_tl, r.start.0 as int),
        r.wf(),
        r.end.0 <= bound,
        new_tl.trivia_ranges_view() == old_tl.trivia_ranges_view().push(r),
        new_tl.wf(),
        old_tl.wf(),
        new_tl.token_len() == old_tl.token_len(),
        forall|i: int| 0 <= i < old_tl.token_len() ==> new_tl.range_at(i) == old_tl.range_at(i),
    ensures
        ordered_trivia(new_tl, bound),
        covered(old_tl, r.start.0 as int) ==> covered(new_tl, r.end.0 as int),
{
    new_tl.lemma_trivia_lens();
    old_tl.lemma_trivia_lens();
    if covered(old_tl, r.start.0 as int) {
        assert forall|k: int| 0 <= k < r.end.0 implies #[trigger] byte_covered(new_tl, k) by {
            if k < r.start.0 {
                assert(byte_covered(old_tl, k));
                if exists|i: int|
                    0 <= i < old_tl.token_len() && #[trigger] old_tl.range_at(i).start.0 <= k
                        < old_tl.range_at(i).end.0 {
                    let i = choose|i: int|
                        0 <= i < old_tl.token_len() && #[trigger] old_tl.range_at(i).start.0 <= k
                            < old_tl.range_at(i).end.0;
                    assert(new_tl.range_at(i) == old_tl.range_at(i));
                } else {
                    let j = choose|j: int|
                        0 <= j < old_tl.trivia_len() && #[trigger] old_tl.trivia_ranges_view()[j].start.0
                            <= k < old_tl.trivia_ranges_view()[j].end.0;
                    assert(new_tl.trivia_ranges_view()[j] == old_tl.trivia_ranges_view()[j]);
                }
            } else {
                assert(new_tl.trivia_ranges_view()[old_tl.trivia_len()] == r);
            }
        }
    }
    let s = new_tl.trivia_ranges_view();
    assert forall|i: int, j: int| 0 <= i < j < new_tl.trivia_len() implies #[trigger] s[i].end.0
        <= #[trigger] s[j].start.0 by {
        assert(s[i] == old_tl.trivia_ranges_view()[i]);
        if j < old_tl.trivia_len() {
            assert(s[j] == old_tl.trivia_ranges_view()[j]);
        }
    }
    assert forall|i: int| 0 <= i < new_tl.trivia_len() implies (#[trigger] s[i]).wf() && s[i].end.0
        <= bound by {
        if i < old_tl.trivia_len() {
            assert(s[i] == old_tl.trivia_ranges_view()[i]);
        }
    }
}

proof fn lemma_ordered_weaken(tl: &TokenList, a: int, b: int)
    requires
        ordered_tokens(tl, a),
        ordered_trivia(tl, a),
        a <= b,
    ensures
        ordered_tokens(tl, b),
        ordered_trivia(tl, b),
{
}

/// Split `source` into tokens and trivia, interning string literal contents into `intern_lit`.
/// Each integer literal token holds the value of its text (binary, octal, hexadecimal or
/// decimal, folded into 64 bits), and each decimal one whose value is larger than
/// `u64::MAX` comes with an `IntDecOverflow` error over it.
///
/// Each string literal, plain or raw, is a token of its own, whatever follows it.
pub fn lex(source: &str, module_id: ModuleID, intern_lit: &mut InternPool) -> (r: (
    TokenList,
    Vec<LexError>,
))
    requires
        old(intern_lit).wf(),
        old(intern_lit).view_strings().len() + source.spec_bytes().len() + 8 < u32::MAX,
    ensures
        final(intern_lit).wf(),
        lexed_wf(&r.0, source.spec_bytes().len() as int),
        forall|i: int| 0 <= i < r.1@.len() ==> (#[trigger] r.1@[i]).src.module_id == module_id,
        spelled(&r.0, source.spec_bytes()),
        int_values(&r.0, source.spec_bytes()),
        dec_overflows_reported(&r.0, source.spec_bytes(), r.1@),
        skips_justified(source.spec_bytes(), r.1@),
        dec_overflow_errors_justified(source.spec_bytes(), r.1@),
        literal_errors_justified(source.spec_bytes(), r.1@),
        strings_decoded(&r.0, source.spec_bytes(), final(intern_lit).view_strings()),
        raw_strings_decoded(&r.0, source.spec_bytes(), final(intern_lit).view_strings()),
        chars_decoded(&r.0, source.spec_bytes()),
        no_skips(r.1@, 0) && (forall|k: int|
            0 <= k < source.spec_bytes().len() ==> source.spec_bytes()[k] != 0) ==> covered(
            &r.0,
            source.spec_bytes().len() as int,
        ),
{
    let mut pool = InternPool::new();
    std::mem::swap(&mut pool, intern_lit);
    let bytes = source.as_bytes();
    let mut lex = Lexer {
        cursor: 0,
        tokens: TokenList::new(source),
        errors: Vec::new(),
        buffer: Vec::new(),
        source: bytes,
        module_id,
        intern_lit: pool,
        pool_base: Ghost(old(intern_lit).view_strings().len() as int),
    };
    source_file(&mut lex);
    std::mem::swap(&mut lex.intern_lit, intern_lit);
    (lex.tokens, lex.errors)
}
/// The keyword spelled by `s`, or `Ident` when `s` is no keyword.
pub open spec fn spec_keyword(s: Seq<u8>) -> Token {
    if s == seq![112u8, 114u8, 111u8, 99u8] {
        Token::KwProc
    }
    else if s == seq![101u8, 110u8, 117u8, 109u8] {
        Token::KwEnum
    }
    else if s == seq![115u8, 116u8, 114u8, 117u8, 99u8, 116u8] {
        Token::KwStruct
    }
    else if s == seq![105u8, 109u8, 112u8, 111u8, 114u8, 116u8] {
        Token::KwImport
    }
    else if s == seq![98u8, 114u8, 101u8, 97u8, 107u8] {
        Token::KwBreak
    }
    else if s == seq![99u8, 111u8, 110u8, 116u8, 105u8, 110u8, 117u8, 101u8] {
        Token::KwContinue
    }
    else if s == seq![114u8, 101u8, 116u8, 117u8, 114u8, 110u8] {
        Token::KwReturn
    }
    else if s == seq![100u8, 101u8, 102u8, 101u8, 114u8] {
        Token::KwDefer
    }
    else if s == seq![102u8, 111u8, 114u8] {
        Token::KwFor
    }
    else if s == seq![105u8, 110u8] {
        Token::KwIn
    }
    else if s == seq![108u8, 101u8, 116u8] {
        Token::KwLet
    }
    else if s == seq![109u8, 117u8, 116u8] {
        Token::KwMut
    }
    else if s == seq![122u8, 101u8, 114u8, 111u8, 101u8, 100u8] {
        Token::KwZeroed
    }
    else if s == seq![117u8, 110u8, 100u8, 101u8, 102u8, 105u8, 110u8, 101u8, 100u8] {
        Token::KwUndefined
    }
    else if s == seq![110u8, 117u8, 108u8, 108u8] {
        Token::KwNull
    }
    else if s == seq![116u8, 114u8, 117u8, 101u8] {
        Token::KwTrue
    }
    else if s == seq![102u8, 97u8, 108u8, 115u8, 101u8] {
        Token::KwFalse
    }
    else if s == seq![105u8, 102u8] {
        Token::KwIf
    }
    else if s == seq![101u8, 108u8, 115u8, 101u8] {
        Token::KwElse
    }
    else if s == seq![109u8, 97u8, 116u8, 99u8, 104u8] {
        Token::KwMatch
    }
    else if s == seq![97u8, 115u8] {
        Token::KwAs
    }
    else if s == seq![95u8] {
        Token::KwDiscard
    }
    else if s == seq![115u8, 56u8] {
        Token::KwS8
    }
    else if s == seq![115u8, 49u8, 54u8] {
        Token::KwS16
    }
    else if s == seq![115u8, 51u8, 50u8] {
        Token::KwS32
    }
    else if s == seq![115u8, 54u8, 52u8] {
        Token::KwS64
    }
    else if s == seq![117u8, 56u8] {
        Token::KwU8
    }
    else if s == seq![117u8, 49u8, 54u8] {
        Token::KwU16
    }
    else if s == seq![117u8, 51u8, 50u8] {
        Token::KwU32
    }
    else if s == seq![117u8, 54u8, 52u8] {
        Token::KwU64
    }
    else if s == seq![102u8, 51u8, 50u8] {
        Token::KwF32
    }
    else if s == seq![102u8, 54u8, 52u8] {
        Token::KwF64
    }
    else if s == seq![98u8, 111u8, 111u8, 108u8] {
        Token::KwBool
    }
    else if s == seq![98u8, 111u8, 111u8, 108u8, 49u8, 54u8] {
        Token::KwBool16
    }
    else if s == seq![98u8, 111u8, 111u8, 108u8, 51u8, 50u8] {
        Token::KwBool32
    }
    else if s == seq![98u8, 111u8, 111u8, 108u8, 54u8, 52u8] {
        Token::KwBool64
    }
    else if s == seq![115u8, 116u8, 114u8, 105u8, 110u8, 103u8] {
        Token::KwString
    }
    else if s == seq![99u8, 115u8, 116u8, 114u8, 105u8, 110u8, 103u8] {
        Token::KwCstring
    }
    else if s == seq![99u8, 104u8, 97u8, 114u8] {
        Token::KwChar
    }
    else if s == seq![118u8, 111u8, 105u8, 100u8] {
        Token::KwVoid
    }
    else if s == seq![110u8, 101u8, 118u8, 101u8, 114u8] {
        Token::KwNever
    }
    else if s == seq![114u8, 97u8, 119u8, 112u8, 116u8, 114u8] {
        Token::KwRawptr
    }
    else {
        Token::Ident
    }
}

/// Keyword lookup for the identifier `source[start..end]`.
fn keyword(source: &[u8], start: usize, end: usize) -> (r: Token)
    requires
        start <= end <= source@.len(),
    ensures
        r == spec_keyword(source@.subrange(start as int, end as int)),
{
    let kw: [u8; 4] = [112u8, 114u8, 111u8, 99u8];
    assert(kw@ =~= seq![112u8, 114u8, 111u8, 99u8]);
    if text_is(source, start, end, &kw) {
        return Token::KwProc;
    }
    let kw: [u8; 4] = [101u8, 110u8, 117u8, 109u8];
    assert(kw@ =~= seq![101u8, 110u8, 117u8, 109u8]);
    if text_is(source, start, end, &kw) {
        return Token::KwEnum;
    }
    let kw: [u8; 6] = [115u8, 116u8, 114u8, 117u8, 99u8, 116u8];
    assert(kw@ =~= seq![115u8, 116u8, 114u8, 117u8, 99u8, 116u8]);
    if text_is(source, start, end, &kw) {
        return Token::KwStruct;
    }
    let kw: [u8; 6] = [105u8, 109u8, 112u8, 111u8, 114u8, 116u8];
    assert(kw@ =~= seq![105u8, 109u8, 112u8, 111u8, 114u8, 116u8]);
    if text_is(source, start, end, &kw) {
        return Token::KwImport;
    }
    let kw: [u8; 5] = [98u8, 114u8, 101u8, 97u8, 107u8];
    assert(kw@ =~= seq![98u8, 114u8, 101u8, 97u8, 107u8]);
    if text_is(source, start, end, &kw) {
        return Token::KwBreak;
    }
    let kw: [u8; 8] = [99u8, 111u8, 110u8, 116u8, 105u8, 110u8, 117u8, 101u8];
    assert(kw@ =~= seq![99u8, 111u8, 110u8, 116u8, 105u8, 110u8, 117u8, 101u8]);
    if text_is(source, start, end, &kw) {
        return Token::KwContinue;
    }
    let kw: [u8; 6] = [114u8, 101u8, 116u8, 117u8, 114u8, 110u8];
    assert(kw@ =~= seq![114u8, 101u8, 116u8, 117u8, 114u8, 110u8]);
    if text_is(source, start, end, &kw) {
        return Token::KwReturn;
    }
    let kw: [u8; 5] = [100u8, 101u8, 102u8, 101u8, 114u8];
    assert(kw@ =~= seq![100u8, 101u8, 102u8, 101u8, 114u8]);
    if text_is(source, start, end, &kw) {
        return Token::KwDefer;
    }
    let kw: [u8; 3] = [102u8, 111u8, 114u8];
    assert(kw@ =~= seq![102u8, 111u8, 114u8]);
    if text_is(source, start, end, &kw) {
        return Token::KwFor;
    }
    let kw: [u8; 2] = [105u8, 110u8];
    assert(kw@ =~= seq![105u8, 110u8]);
    if text_is(source, start, end, &kw) {
        return Token::KwIn;
    }
    let kw: [u8; 3] = [108u8, 101u8, 116u8];
    assert(kw@ =~= seq![108u8, 101u8, 116u8]);
    if text_is(source, start, end, &kw) {
        return Token::KwLet;
    }
    let kw: [u8; 3] = [109u8, 117u8, 116u8];
    assert(kw@ =~= seq![109u8, 117u8, 116u8]);
    if text_is(source, start, end, &kw) {
        return Token::KwMut;
    }
    let kw: [u8; 6] = [122u8, 101u8, 114u8, 111u8, 101u8, 100u8];
    assert(kw@ =~= seq![122u8, 101u8, 114u8, 111u8, 101u8, 100u8]);
    if text_is(source, start, end, &kw) {
        return Token::KwZeroed;
    }
    let kw: [u8; 9] = [117u8, 110u8, 100u8, 101u8, 102u8, 105u8, 110u8, 101u8, 100u8];
    assert(kw@ =~= seq![117u8, 110u8, 100u8, 101u8, 102u8, 105u8, 110u8, 101u8, 100u8]);
    if text_is(source, start, end, &kw) {
        return Token::KwUndefined;
    }
    let kw: [u8; 4] = [110u8, 117u8, 108u8, 108u8];
    assert(kw@ =~= seq![110u8, 117u8, 108u8, 108u8]);
    if text_is(source, start, end, &kw) {
        return Token::KwNull;
    }
    let kw: [u8; 4] = [116u8, 114u8, 117u8, 101u8];
    assert(kw@ =~= seq![116u8, 114u8, 117u8, 101u8]);
    if text_is(source, start, end, &kw) {
        return Token::KwTrue;
    }
    let kw: [u8; 5] = [102u8, 97u8, 108u8, 115u8, 101u8];
    assert(kw@ =~= seq![102u8, 97u8, 108u8, 115u8, 101u8]);
    if text_is(source, start, end, &kw) {
        return Token::KwFalse;
    }
    let kw: [u8; 2] = [105u8, 102u8];
    assert(kw@ =~= seq![105u8, 102u8]);
    if text_is(source, start, end, &kw) {
        return Token::KwIf;
    }
    let kw: [u8; 4] = [101u8, 108u8, 115u8, 101u8];
    assert(kw@ =~= seq![101u8, 108u8, 115u8, 101u8]);
    if text_is(source, start, end, &kw) {
        return Token::KwElse;
    }
    let kw: [u8; 5] = [109u8, 97u8, 116u8, 99u8, 104u8];
    assert(kw@ =~= seq![109u8, 97u8, 116u8, 99u8, 104u8]);
    if text_is(source, start, end, &kw) {
        return Token::KwMatch;
    }
    let kw: [u8; 2] = [97u8, 115u8];
    assert(kw@ =~= seq![97u8, 115u8]);
    if text_is(source, start, end, &kw) {
        return Token::KwAs;
    }
    let kw: [u8; 1] = [95u8];
    assert(kw@ =~= seq![95u8]);
    if text_is(source, start, end, &kw) {
        return Token::KwDiscard;
    }
    let kw: [u8; 2] = [115u8, 56u8];
    assert(kw@ =~= seq![115u8, 56u8]);
    if text_is(source, start, end, &kw) {
        return Token::KwS8;
    }
    let kw: [u8; 3] = [115u8, 49u8, 54u8];
    assert(kw@ =~= seq![115u8, 49u8, 54u8]);
    if text_is(source, start, end, &kw) {
        return Token::KwS16;
    }
    let kw: [u8; 3] = [115u8, 51u8, 50u8];
    assert(kw@ =~= seq![115u8, 51u8, 50u8]);
    if text_is(source, start, end, &kw) {
        return Token::KwS32;
    }
    let kw: [u8; 3] = [115u8, 54u8, 52u8];
    assert(kw@ =~= seq![115u8, 54u8, 52u8]);
    if text_is(source, start, end, &kw) {
        return Token::KwS64;
    }
    let kw: [u8; 2] = [117u8, 56u8];
    assert(kw@ =~= seq![117u8, 56u8]);
    if text_is(source, start, end, &kw) {
        return Token::KwU8;
    }
    let kw: [u8; 3] = [117u8, 49u8, 54u8];
    assert(kw@ =~= seq![117u8, 49u8, 54u8]);
    if text_is(source, start, end, &kw) {
        return Token::KwU16;
    }
    let kw: [u8; 3] = [117u8, 51u8, 50u8];
    assert(kw@ =~= seq![117u8, 51u8, 50u8]);
    if text_is(source, start, end, &kw) {
        return Token::KwU32;
    }
    let kw: [u8; 3] = [117u8, 54u8, 52u8];
    assert(kw@ =~= seq![117u8, 54u8, 52u8]);
    if text_is(source, start, end, &kw) {
        return Token::KwU64;
    }
    let kw: [u8; 3] = [102u8, 51u8, 50u8];
    assert(kw@ =~= seq![102u8, 51u8, 50u8]);
    if text_is(source, start, end, &kw) {
        return Token::KwF32;
    }
    let kw: [u8; 3] = [102u8, 54u8, 52u8];
    assert(kw@ =~= seq![102u8, 54u8, 52u8]);
    if text_is(source, start, end, &kw) {
        return Token::KwF64;
    }
    let kw: [u8; 4] = [98u8, 111u8, 111u8, 108u8];
    assert(kw@ =~= seq![98u8, 111u8, 111u8, 108u8]);
    if text_is(source, start, end, &kw) {
        return Token::KwBool;
    }
    let kw: [u8; 6] = [98u8, 111u8, 111u8, 108u8, 49u8, 54u8];
    assert(kw@ =~= seq![98u8, 111u8, 111u8, 108u8, 49u8, 54u8]);
    if text_is(source, start, end, &kw) {
        return Token::KwBool16;
    }
    let kw: [u8; 6] = [98u8, 111u8, 111u8, 108u8, 51u8, 50u8];
    assert(kw@ =~= seq![98u8, 111u8, 111u8, 108u8, 51u8, 50u8]);
    if text_is(source, start, end, &kw) {
        return Token::KwBool32;
    }
    let kw: [u8; 6] = [98u8, 111u8, 111u8, 108u8, 54u8, 52u8];
    assert(kw@ =~= seq![98u8, 111u8, 111u8, 108u8, 54u8, 52u8]);
    if text_is(source, start, end, &kw) {
        return Token::KwBool64;
    }
    let kw: [u8; 6] = [115u8, 116u8, 114u8, 105u8, 110u8, 103u8];
    assert(kw@ =~= seq![115u8, 116u8, 114u8, 105u8, 110u8, 103u8]);
    if text_is(source, start, end, &kw) {
        return Token::KwString;
    }
    let kw: [u8; 7] = [99u8, 115u8, 116u8, 114u8, 105u8, 110u8, 103u8];
    assert(kw@ =~= seq![99u8, 115u8, 116u8, 114u8, 105u8, 110u8, 103u8]);
    if text_is(source, start, end, &kw) {
        return Token::KwCstring;
    }
    let kw: [u8; 4] = [99u8, 104u8, 97u8, 114u8];
    assert(kw@ =~= seq![99u8, 104u8, 97u8, 114u8]);
    if text_is(source, start, end, &kw) {
        return Token::KwChar;
    }
    let kw: [u8; 4] = [118u8, 111u8, 105u8, 100u8];
    assert(kw@ =~= seq![118u8, 111u8, 105u8, 100u8]);
    if text_is(source, start, end, &kw) {
        return Token::KwVoid;
    }
    let kw: [u8; 5] = [110u8, 101u8, 118u8, 101u8, 114u8];
    assert(kw@ =~= seq![110u8, 101u8, 118u8, 101u8, 114u8]);
    if text_is(source, start, end, &kw) {
        return Token::KwNever;
    }
    let kw: [u8; 6] = [114u8, 97u8, 119u8, 112u8, 116u8, 114u8];
    assert(kw@ =~= seq![114u8, 97u8, 119u8, 112u8, 116u8, 114u8]);
    if text_is(source, start, end, &kw) {
        return Token::KwRawptr;
    }
    Token::Ident
}

/// Whether `source[start..end]` is exactly `kw`.
fn text_is(source: &[u8], start: usize, end: usize, kw: &[u8]) -> (r: bool)
    requires
        start <= end <= source@.len(),
    ensures
        r == (source@.subrange(start as int, end as int) == kw@),
{
    if end - start != kw.len() {
        return false;
    }
    let mut i: usize = 0;
    while i < kw.len()
        invariant
            start <= end <= source@.len(),
            end - start == kw@.len(),
            i <= kw@.len(),
            forall|k: int| 0 <= k < i ==> source@[start + k] == kw@[k],
        decreases kw@.len() - i,
    {
        if source[start + i] != kw[i] {
            assert(source@.subrange(start as int, end as int)[i as int] != kw@[i as int]);
            return false;
        }
        i = i + 1;
    }
    assert(source@.subrange(start as int, end as int) =~= kw@);
    true
}

proof fn lemma_keyword_token(s: Seq<u8>)
    ensures
        spec_keyword(s) != Token::Eof,
        !is_special(spec_keyword(s)) || spec_keyword(s) == Token::Ident,
        spec_keyword(s) != Token::Ident ==> normal_token_len(spec_keyword(s)) == s.len(),
{
}

/// `new` is a lexer state reached from `old` by lexing further.
spec fn stepped(new: Lexer, old: Lexer) -> bool {
    &&& new.wf()
    &&& new.same_input(&old)
    &&& new.cursor >= old.cursor
    &&& new.errors@.len() >= old.errors@.len()
    &&& forall|j: int| 0 <= j < old.errors@.len() ==> #[trigger] new.errors@[j] == old.errors@[j]
}

/// When every byte before `start` was covered and no error came up, every byte before
/// the new cursor is covered.
spec fn cover_step(new: Lexer, old: Lexer, start: int) -> bool {
    covered(&old.tokens, start) && no_skips(new.errors@, old.errors@.len() as int) ==> covered(
        &new.tokens,
        new.cursor as int,
    )
}

/// Body of the lexer: tokens until the sentinel, then two `Eof` tokens.
fn source_file(lex: &mut Lexer)
    requires
        old(lex).wf(),
    ensures
        final(lex).same_input(old(lex)),
        final(lex).tokens.wf(),
        final(lex).intern_lit.wf(),
        final(lex).intern_lit.view_strings().len() <= final(lex).pool_base@ + final(lex).source@.len(),
        lexed_wf(&final(lex).tokens, final(lex).source@.len() as int),
        forall|i: int| 0 <= i < final(lex).errors@.len() ==> (#[trigger] final(lex).errors@[i]).src.module_id
            == final(lex).module_id,
        final(lex).byte_at(final(lex).cursor as int) == SENTINEL,
        spelled(&final(lex).tokens, final(lex).source@),
        int_values(&final(lex).tokens, final(lex).source@),
        dec_overflows_reported(&final(lex).tokens, final(lex).source@, final(lex).errors@),
        skips_justified(final(lex).source@, final(lex).errors@),
        dec_overflow_errors_justified(final(lex).source@, final(lex).errors@),
        literal_errors_justified(final(lex).source@, final(lex).errors@),
        strings_decoded(&final(lex).tokens, final(lex).source@, final(lex).intern_lit.view_strings()),
        raw_strings_decoded(&final(lex).tokens, final(lex).source@, final(lex).intern_lit.view_strings()),
        chars_decoded(&final(lex).tokens, final(lex).source@),
        old(lex).cursor == 0 && old(lex).errors@.len() == 0 && no_skips(final(lex).errors@, 0) ==> covered(
            &final(lex).tokens,
            final(lex).cursor as int,
        ),
{
    loop
        invariant
            lex.wf(),
            lex.same_input(old(lex)),
            lex.errors@.len() >= old(lex).errors@.len(),
            old(lex).cursor == 0 && old(lex).errors@.len() == 0 && no_skips(lex.errors@, 0) ==> covered(&lex.tokens, lex.cursor as int),
        ensures
            lex.wf(),
            lex.same_input(old(lex)),
            lex.byte_at(lex.cursor as int) == SENTINEL,
            old(lex).cursor == 0 && old(lex).errors@.len() == 0 && no_skips(lex.errors@, 0) ==> covered(&lex.tokens, lex.cursor as int),
        decreases lex.source@.len() - lex.cursor,
    {
        let ghost before = lex.cursor;
        let ghost e0 = lex.errors@;
        lex_whitespace(lex);
        let c = lex.peek();
        if c == SENTINEL {
            break;
        } else if c == 39u8 {
            lex_char(lex);
        } else if c == 34u8 {
            lex_string(lex);
        } else if c == 96u8 {
            lex_string_raw(lex);
        } else if byte_is_alpha(c) || c == 95u8 {
            lex_ident(lex);
        } else if byte_is_digit(c) {
            lex_number(lex, c);
        } else if c < 128 {
            lex_symbol(lex, c);
        } else {
            let start = lex.start_range();
            let ch = lex.peek_utf8();
            lex.bump_utf8();
            let src = lex.make_src(start);
            lex.error(LexErrorKind::SymbolUnknown(ch), src);
            assert(skips_bytes(lex.errors@[e0.len() as int].kind));
        }
        proof {
            if no_skips(lex.errors@, 0) {
                assert forall|j: int| 0 <= j < e0.len() implies !skips_bytes((#[trigger] e0[j]).kind) by {
                    assert(lex.errors@[j] == e0[j]);
                }
            }
        }
    }
    let ghost t0 = lex.tokens;
    let start = lex.start_range();
    lex.tokens.add_token(Token::Eof, start);
    proof {
        lemma_ordered_push(&t0, &lex.tokens, TextRange { start, end: start }, lex.cursor as int);
    }
    let ghost t1 = lex.tokens;
    lex.tokens.add_token(Token::Eof, start);
    proof {
        lemma_ordered_push(&t1, &lex.tokens, TextRange { start, end: start }, lex.cursor as int);
        lemma_ordered_weaken(&lex.tokens, lex.cursor as int, lex.source@.len() as int);
        let s = lex.tokens.tokens_view();
        assert(s.subrange(0, s.len() - 2) =~= t0.tokens_view());
        reveal(lexed_widths);
    }
}

fn lex_whitespace(lex: &mut Lexer)
    requires
        old(lex).wf(),
    ensures
        stepped(*final(lex), *old(lex)),
        cover_step(*final(lex), *old(lex), old(lex).cursor as int),
        final(lex).tokens.tokens_view() == old(lex).tokens.tokens_view(),
        final(lex).errors == old(lex).errors,
        !is_whitespace(final(lex).byte_at(final(lex).cursor as int)),
        !(final(lex).byte_at(final(lex).cursor as int) == 47u8 && final(lex).byte_at(
            final(lex).cursor + 1,
        ) == 47u8),
        final(lex).tokens.trivia_ranges_view().len() >= old(lex).tokens.trivia_ranges_view().len(),
        forall|i: int|
            0 <= i < old(lex).tokens.trivia_ranges_view().len() ==> #[trigger] final(lex).tokens.trivia_ranges_view()[i]
                == old(lex).tokens.trivia_ranges_view()[i],
{
    loop
        invariant
            stepped(*lex, *old(lex)),
            lex.tokens.tokens_view() == old(lex).tokens.tokens_view(),
            cover_step(*lex, *old(lex), old(lex).cursor as int),
            lex.errors == old(lex).errors,
            lex.tokens.trivia_ranges_view().len() >= old(lex).tokens.trivia_ranges_view().len(),
            forall|i: int|
                0 <= i < old(lex).tokens.trivia_ranges_view().len() ==> #[trigger] lex.tokens.trivia_ranges_view()[i]
                    == old(lex).tokens.trivia_ranges_view()[i],
        ensures
            stepped(*lex, *old(lex)),
            lex.tokens.tokens_view() == old(lex).tokens.tokens_view(),
            cover_step(*lex, *old(lex), old(lex).cursor as int),
            lex.errors == old(lex).errors,
            !is_whitespace(lex.byte_at(lex.cursor as int)),
            !(lex.byte_at(lex.cursor as int) == 47u8 && lex.byte_at(lex.cursor + 1) == 47u8),
            lex.tokens.trivia_ranges_view().len() >= old(lex).tokens.trivia_ranges_view().len(),
            forall|i: int|
                0 <= i < old(lex).tokens.trivia_ranges_view().len() ==> #[trigger] lex.tokens.trivia_ranges_view()[i]
                    == old(lex).tokens.trivia_ranges_view()[i],
        decreases lex.source@.len() - lex.cursor,
    {
        let c = lex.peek();
        if byte_is_whitespace(c) {
            let start = lex.start_range();
            let ghost t_start = lex.tokens;
            let ghost e_start = lex.errors;
            lex.bump();
            while byte_is_whitespace(lex.peek())
                invariant
                    stepped(*lex, *old(lex)),
                    lex.tokens.tokens_view() == old(lex).tokens.tokens_view(),
                    start.0 < lex.cursor,
                    ordered_trivia(&lex.tokens, start.0 as int),
                    ordered_tokens(&lex.tokens, start.0 as int),
                    lex.tokens == t_start,
                    lex.errors == e_start,
                    covered(&old(lex).tokens, old(lex).cursor as int) && lex.errors@.len()
                        == old(lex).errors@.len() ==> covered(&t_start, start.0 as int),
                decreases lex.source@.len() - lex.cursor,
            {
                lex.bump();
            }
            let range = lex.make_range(start);
            let ghost t0 = lex.tokens;
            lex.tokens.add_trivia(crate::token_list::Trivia::Whitespace, range);
            proof {
                lemma_trivia_push(&t0, &lex.tokens, range, lex.cursor as int);
                lemma_apart_trivia_push(&t0, &lex.tokens, range);
            }
        } else if c == 47u8 && lex.at_next(47u8) {
            let start = lex.start_range();
            let ghost t_start = lex.tokens;
            let ghost e_start = lex.errors;
            lex.bump();
            lex.bump();
            let trivia = if lex.eat(47u8) {
                if lex.eat(47u8) {
                    crate::token_list::Trivia::ModComment
                } else {
                    crate::token_list::Trivia::DocComment
                }
            } else {
                crate::token_list::Trivia::LineComment
            };
            loop
                invariant
                    stepped(*lex, *old(lex)),
                    lex.tokens.tokens_view() == old(lex).tokens.tokens_view(),
                    start.0 < lex.cursor,
                    ordered_trivia(&lex.tokens, start.0 as int),
                    ordered_tokens(&lex.tokens, start.0 as int),
                    lex.tokens == t_start,
                    lex.errors == e_start,
                    covered(&old(lex).tokens, old(lex).cursor as int) && lex.errors@.len()
                        == old(lex).errors@.len() ==> covered(&t_start, start.0 as int),
                decreases lex.source@.len() - lex.cursor,
            {
                let c = lex.peek();
                if c == 10u8 || c == 13u8 || c == SENTINEL {
                    break;
                }
                if c < 128 {
                    lex.bump();
                } else {
                    lex.bump_utf8();
                }
            }
            let range = lex.make_range(start);
            let ghost t0 = lex.tokens;
            lex.tokens.add_trivia(trivia, range);
            proof {
                lemma_trivia_push(&t0, &lex.tokens, range, lex.cursor as int);
                lemma_apart_trivia_push(&t0, &lex.tokens, range);
            }
        } else {
            break;
        }
    }
}

fn lex_ident(lex: &mut Lexer)
    requires
        old(lex).wf(),
        is_alpha(old(lex).byte_at(old(lex).cursor as int)) || old(lex).byte_at(
            old(lex).cursor as int,
        ) == 95u8,
    ensures
        stepped(*final(lex), *old(lex)),
        cover_step(*final(lex), *old(lex), old(lex).cursor as int),
        final(lex).cursor > old(lex).cursor,
        final(lex).tokens.tokens_view() == old(lex).tokens.tokens_view().push(
            spec_keyword(final(lex).source@.subrange(old(lex).cursor as int, final(lex).cursor as int)),
        ),
{
    let start = lex.start_range();
    lex.bump();
    loop
        invariant
            stepped(*lex, *old(lex)),
            lex.tokens == old(lex).tokens,
            lex.intern_lit == old(lex).intern_lit,
            start.0 == old(lex).cursor,
            start.0 < lex.cursor,
        decreases lex.source@.len() - lex.cursor,
    {
        let c = lex.peek();
        if byte_is_alpha(c) || byte_is_digit(c) || c == 95u8 {
            lex.bump();
        } else {
            break;
        }
    }
    let range = lex.make_range(start);
    let token = keyword(lex.source, start.0 as usize, lex.cursor);
    proof {
        lemma_keyword_token(lex.source@.subrange(start.0 as int, lex.cursor as int));
    }
    let ghost t0 = lex.tokens;
    if token == Token::Ident {
        lex.tokens.add_ident(range);
    } else {
        lex.tokens.add_token(token, range.start);
    }
    proof {
        lemma_ordered_push(&t0, &lex.tokens, range, lex.cursor as int);
    }
}

fn lex_symbol(lex: &mut Lexer, c: u8)
    requires
        old(lex).wf(),
        c == old(lex).byte_at(old(lex).cursor as int),
        c != SENTINEL,
        c < 128,
    ensures
        stepped(*final(lex), *old(lex)),
        cover_step(*final(lex), *old(lex), old(lex).cursor as int),
        final(lex).cursor > old(lex).cursor,
{
    let start = lex.start_range();
    lex.bump();
    let mut token = Token::from_byte(c);
    if token == Token::Eof {
        let src = lex.make_src(start);
        lex.error(LexErrorKind::SymbolUnknown(byte_to_char(c)), src);
        assert(skips_bytes(lex.errors@[old(lex).errors@.len() as int].kind));
        return;
    }
    let c2 = lex.peek();
    let double = Token::glue_double(c2, token);
    if token != double {
        token = double;
        lex.bump();
    } else {
        let ghost t0 = lex.tokens;
        lex.tokens.add_token(token, start);
        proof {
            lemma_ordered_push(&t0, &lex.tokens, lex.tokens.range_at(t0.token_len()), lex.cursor as int);
        }
        return;
    }
    let c3 = lex.peek();
    let triple = Token::glue_triple(c3, token);
    if token != triple {
        token = triple;
        lex.bump();
    }
    let ghost t0 = lex.tokens;
    lex.tokens.add_token(token, start);
    proof {
        lemma_ordered_push(&t0, &lex.tokens, lex.tokens.range_at(t0.token_len()), lex.cursor as int);
    }
}

fn lex_char(lex: &mut Lexer)
    requires
        old(lex).wf(),
        old(lex).byte_at(old(lex).cursor as int) == 39u8,
    ensures
        stepped(*final(lex), *old(lex)),
        cover_step(*final(lex), *old(lex), old(lex).cursor as int),
        final(lex).cursor > old(lex).cursor,
{
    let start = lex.start_range();
    lex.bump();
    let fc = lex.peek();
    if fc == SENTINEL || fc == 10u8 || fc == 13u8 {
        let src = lex.make_src(start);
        lex.error(LexErrorKind::CharIncomplete, src);
        assert(skips_bytes(lex.errors@[old(lex).errors@.len() as int].kind));
        return;
    }
    let mut inner_tick = false;
    let ch = if fc == 92u8 {
        lex_escape(lex)
    } else if fc == 39u8 {
        inner_tick = true;
        lex.bump();
        '\''
    } else if fc == 9u8 {
        let start2 = lex.start_range();
        lex.bump();
        let src = lex.make_src(start2);
        lex.error(LexErrorKind::CharTabNotEscaped, src);
        '\t'
    } else {
        let c = lex.peek_utf8();
        lex.bump_utf8();
        c
    };
    let terminated = lex.eat(39u8);
    if inner_tick {
        if !terminated {
            let src = lex.make_src(start);
            lex.error(LexErrorKind::CharEmpty, src);
        } else {
            let src = lex.make_src(start);
            lex.error(LexErrorKind::CharQuoteNotEscaped, src);
        }
    } else if !terminated {
        let src = lex.make_src(start);
        lex.error(LexErrorKind::CharNotTerminated, src);
    }
    let range = lex.make_range(start);
    let ghost t0 = lex.tokens;
    lex.tokens.add_char(ch, range);
    proof {
        lemma_ordered_push(&t0, &lex.tokens, range, lex.cursor as int);
    }
}

fn lex_string(lex: &mut Lexer)
    requires
        old(lex).wf(),
        old(lex).byte_at(old(lex).cursor as int) == 34u8,
    ensures
        stepped(*final(lex), *old(lex)),
        cover_step(*final(lex), *old(lex), old(lex).cursor as int),
        final(lex).cursor > old(lex).cursor,
{
    let start = lex.start_range();
    lex.bump();
    lex.buffer.clear();
    let mut terminated = false;
    proof {
        assert(scalars(lex.buffer@) =~= Seq::<u32>::empty());
        assert(scalars(lex.buffer@) + string_scalars(lex.source@, lex.cursor as int) =~= string_scalars(
            lex.source@,
            start.0 + 1,
        ));
    }
    loop
        invariant_except_break
            scalars(lex.buffer@) + string_scalars(lex.source@, lex.cursor as int) == string_scalars(
                lex.source@,
                start.0 + 1,
            ),
        invariant
            stepped(*lex, *old(lex)),
            lex.tokens == old(lex).tokens,
            lex.intern_lit == old(lex).intern_lit,
            start.0 == old(lex).cursor,
            start.0 < lex.cursor,
        ensures
            stepped(*lex, *old(lex)),
            lex.tokens == old(lex).tokens,
            lex.intern_lit == old(lex).intern_lit,
            start.0 == old(lex).cursor,
            start.0 < lex.cursor,
            !terminated ==> lex.byte_at(lex.cursor as int) == 0 || lex.byte_at(lex.cursor as int) == 10
                || lex.byte_at(lex.cursor as int) == 13,
            scalars(lex.buffer@) == string_scalars(lex.source@, start.0 + 1),
        decreases lex.source@.len() - lex.cursor,
    {
        let c = lex.peek();
        let ghost c1 = lex.cursor as int;
        let ghost b1 = lex.buffer@;
        if c == SENTINEL || c == 10u8 || c == 13u8 {
            proof {
                assert(scalars(lex.buffer@) + Seq::<u32>::empty() =~= scalars(lex.buffer@));
            }
            break;
        } else if c == 34u8 {
            proof {
                assert(scalars(lex.buffer@) + Seq::<u32>::empty() =~= scalars(lex.buffer@));
            }
            lex.bump();
            terminated = true;
            break;
        } else if c == 92u8 {
            let escape = lex_escape(lex);
            lex.buffer.push(escape);
            proof {
                let src = lex.source@;
                assert(string_scalars(src, c1) == seq![escape as u32].add(string_scalars(src, lex.cursor as int)));
                assert(scalars(lex.buffer@) =~= scalars(b1).push(escape as u32));
                assert(scalars(lex.buffer@) + string_scalars(src, lex.cursor as int) =~= scalars(b1)
                    + string_scalars(src, c1));
            }
        } else {
            let ch = lex.peek_utf8();
            lex.bump_utf8();
            lex.buffer.push(ch);
            proof {
                let src = lex.source@;
                assert(ch as u32 == text_unit(src, c1).0);
                assert(string_scalars(src, c1) == seq![ch as u32].add(string_scalars(src, lex.cursor as int)));
                assert(scalars(lex.buffer@) =~= scalars(b1).push(ch as u32));
                assert(scalars(lex.buffer@) + string_scalars(src, lex.cursor as int) =~= scalars(b1)
                    + string_scalars(src, c1));
            }
        }
    }
    let range = lex.make_range(start);
    let ghost pool0 = lex.intern_lit.view_strings();
    let id = lex.intern_lit.intern(lex.buffer.as_slice());
    let ghost t0 = lex.tokens;
    lex.tokens.add_string(LitID(id), range);
    proof {
        lemma_ordered_push(&t0, &lex.tokens, range, lex.cursor as int);
        lemma_strings_decoded_push(&t0, &lex.tokens, lex.source@, pool0, lex.intern_lit.view_strings());
        lemma_raw_strings_decoded_push(&t0, &lex.tokens, lex.source@, pool0, lex.intern_lit.view_strings());
        assert(lex.tokens.range_at(t0.token_len()) == range);
    }
    if !terminated {
        let src = lex.make_src(start);
        lex.error(LexErrorKind::StringNotTerminated, src);
    }
}

fn lex_string_raw(lex: &mut Lexer)
    requires
        old(lex).wf(),
        old(lex).byte_at(old(lex).cursor as int) == 96u8,
    ensures
        stepped(*final(lex), *old(lex)),
        cover_step(*final(lex), *old(lex), old(lex).cursor as int),
        final(lex).cursor > old(lex).cursor,
{
    let start = lex.start_range();
    lex.bump();
    lex.buffer.clear();
    let mut terminated = false;
    proof {
        assert(scalars(lex.buffer@) + raw_string_scalars(lex.source@, lex.cursor as int) =~= raw_string_scalars(
            lex.source@,
            start.0 + 1,
        ));
    }
    loop
        invariant_except_break
            scalars(lex.buffer@) + raw_string_scalars(lex.source@, lex.cursor as int) == raw_string_scalars(
                lex.source@,
                start.0 + 1,
            ),
        invariant
            stepped(*lex, *old(lex)),
            lex.tokens == old(lex).tokens,
            lex.intern_lit == old(lex).intern_lit,
            start.0 == old(lex).cursor,
            start.0 < lex.cursor,
        ensures
            stepped(*lex, *old(lex)),
            lex.tokens == old(lex).tokens,
            lex.intern_lit == old(lex).intern_lit,
            start.0 == old(lex).cursor,
            start.0 < lex.cursor,
            !terminated ==> lex.byte_at(lex.cursor as int) == 0 || lex.byte_at(lex.cursor as int) == 10
                || lex.byte_at(lex.cursor as int) == 13,
            scalars(lex.buffer@) == raw_string_scalars(lex.source@, start.0 + 1),
        decreases lex.source@.len() - lex.cursor,
    {
        let c = lex.peek();
        let ghost c1 = lex.cursor as int;
        let ghost b1 = lex.buffer@;
        if c == SENTINEL || c == 10u8 || c == 13u8 {
            proof {
                assert(scalars(lex.buffer@) + Seq::<u32>::empty() =~= scalars(lex.buffer@));
            }
            break;
        } else if c == 96u8 {
            proof {
                assert(scalars(lex.buffer@) + Seq::<u32>::empty() =~= scalars(lex.buffer@));
            }
            lex.bump();
            terminated = true;
            break;
        } else {
            let ch = lex.peek_utf8();
            lex.bump_utf8();
            lex.buffer.push(ch);
            proof {
                let src = lex.source@;
                assert(ch as u32 == text_unit(src, c1).0);
                assert(raw_string_scalars(src, c1) == seq![ch as u32].add(
                    raw_string_scalars(src, lex.cursor as int),
                ));
                assert(scalars(lex.buffer@) =~= scalars(b1).push(ch as u32));
                assert(scalars(lex.buffer@) + raw_string_scalars(src, lex.cursor as int) =~= scalars(b1)
                    + raw_string_scalars(src, c1));
            }
        }
    }
    let range = lex.make_range(start);
    let ghost pool0 = lex.intern_lit.view_strings();
    let id = lex.intern_lit.intern(lex.buffer.as_slice());
    let ghost t0 = lex.tokens;
    lex.tokens.add_string(LitID(id), range);
    proof {
        lemma_ordered_push(&t0, &lex.tokens, range, lex.cursor as int);
        lemma_strings_decoded_push(&t0, &lex.tokens, lex.source@, pool0, lex.intern_lit.view_strings());
        lemma_raw_strings_decoded_push(&t0, &lex.tokens, lex.source@, pool0, lex.intern_lit.view_strings());
        assert(lex.tokens.range_at(t0.token_len()) == range);
    }
    if !terminated {
        let src = lex.make_src(start);
        lex.error(LexErrorKind::StringRawNotTerminated, src);
    }
}

/// The character denoted by the escape sequence at the cursor (which is at a `\`).
fn lex_escape(lex: &mut Lexer) -> (r: char)
    requires
        old(lex).wf(),
        old(lex).byte_at(old(lex).cursor as int) == 92u8,
    ensures
        stepped(*final(lex), *old(lex)),
        final(lex).cursor > old(lex).cursor,
        final(lex).tokens == old(lex).tokens,
        final(lex).intern_lit == old(lex).intern_lit,
        final(lex).buffer == old(lex).buffer,
        r as u32 == escape_unit(old(lex).source@, old(lex).cursor as int).0,
        final(lex).cursor == old(lex).cursor + escape_unit(old(lex).source@, old(lex).cursor as int).1,
        ({
            let c = old(lex).byte_at(old(lex).cursor + 1);
            &&& c == 110u8 ==> r == '\n'
            &&& c == 114u8 ==> r == '\r'
            &&& c == 116u8 ==> r == '\t'
            &&& c == 39u8 ==> r == '\''
            &&& c == 34u8 ==> r == '"'
            &&& c == 92u8 ==> r == '\\'
        }),
{
    let start = lex.start_range();
    lex.bump();
    let c = lex.peek();
    if c == SENTINEL {
        let src = lex.make_src(start);
        lex.error(LexErrorKind::EscapeSequenceIncomplete, src);
        return '\\';
    }
    let escaped = if c == 110u8 {
        '\n'
    } else if c == 114u8 {
        '\r'
    } else if c == 116u8 {
        '\t'
    } else if c == 39u8 {
        '\''
    } else if c == 34u8 {
        '"'
    } else if c == 92u8 {
        '\\'
    } else if c == 120u8 {
        lex.bump();
        return lex_escape_hex(lex, start);
    } else {
        if byte_is_whitespace(c) {
            let src = lex.make_src(start);
            lex.error(LexErrorKind::EscapeSequenceIncomplete, src);
        } else {
            lex.bump();
            let src = lex.make_src(start);
            lex.error(LexErrorKind::EscapeSequenceNotSupported(byte_to_char(c)), src);
        }
        return '\\';
    };
    lex.bump();
    escaped
}

/// Value of the hexadecimal digits of `s` (a sequence of hex digits), as the lexer
/// accumulates it: four bits per digit, high bits shifted out.
pub open spec fn hex_fold32(s: Seq<u8>) -> u32
    decreases s.len(),
{
    if s.len() == 0 {
        0
    } else {
        ((hex_fold32(s.drop_last()) << 4u32) | (hex_value(s.last()) as u32)) as u32
    }
}

/// The `{hex}` part of a `\x{hex}` escape, the cursor being just after the `x`.
fn lex_escape_hex(lex: &mut Lexer, start: TextOffset) -> (r: char)
    requires
        old(lex).wf(),
        start.0 < old(lex).cursor,
        old(lex).cursor == start.0 + 2,
        old(lex).byte_at(start.0 as int) == 92u8,
        old(lex).byte_at(start.0 + 1) == 120u8,
    ensures
        stepped(*final(lex), *old(lex)),
        final(lex).tokens == old(lex).tokens,
        final(lex).intern_lit == old(lex).intern_lit,
        final(lex).buffer == old(lex).buffer,
        old(lex).byte_at(old(lex).cursor as int) != 123u8 ==> r == '\\',
        r as u32 == escape_unit(old(lex).source@, start.0 as int).0,
        final(lex).cursor == start.0 + escape_unit(old(lex).source@, start.0 as int).1,
        ({
            let open = old(lex).cursor as int;
            let digits = final(lex).source@.subrange(open + 1, final(lex).cursor - 1);
            (old(lex).byte_at(open) == 123u8 && final(lex).byte_at(final(lex).cursor - 1) == 125u8
                && final(lex).cursor - 1 > open && 1 <= digits.len() <= 6 && r != '\\')
                ==> r as u32 == hex_fold32(digits)
        }),
{
    let mut integer: u32 = 0;
    let mut digit_count: u32 = 0;
    if !lex.eat(123u8) {
        let src = lex.make_src(start);
        lex.error(LexErrorKind::ExpectOpenBracket, src);
        return '\\';
    }
    let ghost first = lex.cursor;
    loop
        invariant
            stepped(*lex, *old(lex)),
            lex.tokens == old(lex).tokens,
            lex.intern_lit == old(lex).intern_lit,
            lex.buffer == old(lex).buffer,
            first == old(lex).cursor + 1,
            first <= lex.cursor,
            digit_count == lex.cursor - first,
            integer == hex_fold32(lex.source@.subrange(first as int, lex.cursor as int)),
            forall|k: int| first <= k < lex.cursor ==> is_hex_digit(#[trigger] lex.source@[k]),
            start.0 < old(lex).cursor,
        ensures
            stepped(*lex, *old(lex)),
            lex.tokens == old(lex).tokens,
            lex.intern_lit == old(lex).intern_lit,
            lex.buffer == old(lex).buffer,
            first == old(lex).cursor + 1,
            first <= lex.cursor,
            digit_count == lex.cursor - first,
            integer == hex_fold32(lex.source@.subrange(first as int, lex.cursor as int)),
            forall|k: int| first <= k < lex.cursor ==> is_hex_digit(#[trigger] lex.source@[k]),
            start.0 < old(lex).cursor,
            !is_hex_digit(lex.byte_at(lex.cursor as int)),
        decreases lex.source@.len() - lex.cursor,
    {
        let c = lex.peek();
        let value: u32 = if byte_is_digit(c) {
            (c - 48) as u32
        } else if c >= 97 && c <= 102 {
            (c - 97 + 10) as u32
        } else if c >= 65 && c <= 70 {
            (c - 65 + 10) as u32
        } else {
            break;
        };
        let ghost prev = lex.cursor;
        lex.bump();
        digit_count = digit_count + 1;
        integer = (integer << 4u32) | value;
        proof {
            let s1 = lex.source@.subrange(first as int, lex.cursor as int);
            assert(s1.drop_last() =~= lex.source@.subrange(first as int, prev as int));
            assert(s1.last() == c);
        }
    }
    proof {
        lemma_hex_run_exact(lex.source@, first as int, lex.cursor as int);
    }
    if !lex.eat(125u8) {
        let src = lex.make_src(start);
        lex.error(LexErrorKind::ExpectCloseBracket, src);
        return '\\';
    }
    if digit_count == 0 || digit_count > 6 {
        let src = lex.make_src(start);
        lex.error(LexErrorKind::EscapeHexWrongDigitCount(digit_count), src);
        return '\\';
    }
    match char_from_u32(integer) {
        Some(escaped) => escaped,
        None => {
            let src = lex.make_src(start);
            lex.error(LexErrorKind::EscapeHexNonUtf8(integer), src);
            '\\'
        },
    }
}

/// Digits of the number, `_` separators and leading zeros left out, are collected in the buffer.
fn lex_number(lex: &mut Lexer, fc: u8)
    requires
        old(lex).wf(),
        fc == old(lex).byte_at(old(lex).cursor as int),
        is_digit(fc),
    ensures
        stepped(*final(lex), *old(lex)),
        cover_step(*final(lex), *old(lex), old(lex).cursor as int),
        final(lex).cursor > old(lex).cursor,
{
    let start = lex.start_range();
    let ghost second = lex.byte_at(start.0 + 1);
    if fc == 48u8 {
        let n = lex.peek_next();
        if n == 98u8 {
            lex.bump();
            lex.bump();
            lex_integer_bin(lex, start);
            return;
        } else if n == 111u8 {
            lex.bump();
            lex.bump();
            lex_integer_oct(lex, start);
            return;
        } else if n == 120u8 {
            lex.bump();
            lex.bump();
            lex_integer_hex(lex, start);
            return;
        }
    }
    lex.buffer.clear();
    if skip_zero_digits(lex) {
        lex.buffer.push('0');
    }
    let ghost c2 = lex.cursor;
    let ghost b0 = lex.buffer@;
    assert(all_digits(b0));
    skip_num_digits(lex);
    proof {
        assert forall|k: int| 0 <= k < lex.buffer@.len() implies is_digit_char(
            #[trigger] lex.buffer@[k],
        ) by {
            if k < b0.len() {
                assert(lex.buffer@.subrange(0, b0.len() as int)[k] == lex.buffer@[k]);
            }
        }
        let text = lex.source@.subrange(start.0 as int, lex.cursor as int);
        let zpart = lex.source@.subrange(start.0 as int, c2 as int);
        let rest = lex.source@.subrange(c2 as int, lex.cursor as int);
        assert(text =~= zpart + rest);
        lemma_digit_chars_concat(zpart, rest);
        assert forall|k: int| 0 <= k < zpart.len() implies #[trigger] zpart[k] == 48u8 || zpart[k]
            == 95u8 by {
            assert(zpart[k] == lex.source@[start.0 + k]);
        }
        lemma_digit_chars_zeros(zpart);
        lemma_dec_fold_zeros(digit_chars(zpart), digit_chars(rest));
        lemma_dec_fold_zeros(b0, digit_chars(rest));
        lemma_dec_nat_zeros(digit_chars(zpart), digit_chars(rest));
        lemma_dec_nat_zeros(b0, digit_chars(rest));
        if text.len() >= 2 {
            assert(text[0] == fc);
            assert(text[1] == second);
        }
    }
    if lex.at(46u8) && byte_is_digit(lex.peek_next()) {
        lex_float(lex, start);
    } else {
        lex_integer_dec(lex, start);
    }
}

/// Rest of a float literal after its integer digits; its value is read from the text
/// of the token by the consumer.
fn lex_float(lex: &mut Lexer, start: TextOffset)
    requires
        old(lex).wf(),
        ordered_trivia(&old(lex).tokens, start.0 as int),
        start.0 < old(lex).cursor,
        ordered_tokens(&old(lex).tokens, start.0 as int),
        old(lex).tokens.special_count() <= start.0,
    ensures
        stepped(*final(lex), *old(lex)),
        cover_step(*final(lex), *old(lex), start.0 as int),
{
    lex.eat(46u8);
    lex.buffer.push('.');
    skip_num_digits(lex);
    let mut error = false;
    if lex.eat(101u8) {
        lex.buffer.push('e');
        if lex.eat(43u8) {
            lex.buffer.push('+');
        } else if lex.eat(45u8) {
            lex.buffer.push('-');
        }
        if byte_is_digit(lex.peek()) {
            skip_num_digits(lex);
        } else {
            error = true;
            let src = lex.make_src(start);
            lex.error(LexErrorKind::FloatExpMissingDigits, src);
        }
    }
    let range = lex.make_range(start);
    let ghost t0 = lex.tokens;
    lex.tokens.add_float(range);
    proof {
        lemma_ordered_push(&t0, &lex.tokens, range, lex.cursor as int);
    }
}

pub open spec fn is_digit_char(c: char) -> bool {
    '0' <= c <= '9'
}

pub open spec fn all_digits(s: Seq<char>) -> bool {
    forall|i: int| 0 <= i < s.len() ==> is_digit_char(#[trigger] s[i])
}

/// The decimal digits `s` folded as the lexer does with wrapping arithmetic, with the
/// flag it raises once a step goes past `u64::MAX`.
pub open spec fn dec_fold(s: Seq<char>) -> (u64, bool)
    decreases s.len(),
{
    if s.len() == 0 {
        (0, false)
    } else {
        let (prev, overflow) = dec_fold(s.drop_last());
        let d = (s.last() as u32 - 48) as u64;
        let next = prev.wrapping_mul(10).wrapping_add(d);
        (next, overflow || prev * 10 + d > u64::MAX)
    }
}

/// The folded flag is raised exactly when the value of the digits is larger than
/// `u64::MAX`, and until then the folded value is that value.
pub proof fn lemma_dec_fold_exact(s: Seq<char>)
    requires
        all_digits(s),
    ensures
        dec_fold(s).1 == (dec_nat(s) > u64::MAX),
        !dec_fold(s).1 ==> dec_fold(s).0 == dec_nat(s),
    decreases s.len(),
{
    if s.len() > 0 {
        let p = s.drop_last();
        assert(all_digits(p)) by {
            assert forall|i: int| 0 <= i < p.len() implies is_digit_char(#[trigger] p[i]) by {
                assert(p[i] == s[i]);
            }
        }
        lemma_dec_fold_exact(p);
        assert(is_digit_char(s[s.len() - 1]));
        let (prev, overflow) = dec_fold(p);
        let d = (s.last() as u32 - 48) as u64;
        if !overflow && prev * 10 + d <= u64::MAX {
            let m = prev.wrapping_mul(10);
            vstd::arithmetic::div_mod::lemma_small_mod((prev * 10) as nat, 0x1_0000_0000_0000_0000nat);
            assert(m == prev * 10);
        }
    }
}

/// Leading `0` digits do not change the value of decimal digits.
proof fn lemma_dec_nat_zeros(z: Seq<char>, r: Seq<char>)
    requires
        forall|k: int| 0 <= k < z.len() ==> #[trigger] z[k] == '0',
    ensures
        dec_nat(z + r) == dec_nat(r),
    decreases z.len() + r.len(),
{
    if r.len() == 0 {
        assert(z + r =~= z);
        if z.len() > 0 {
            let t = z.drop_last();
            lemma_dec_nat_zeros(t, r);
            assert(t + r =~= t);
            assert(z.last() == z[z.len() - 1]);
        }
    } else {
        lemma_dec_nat_zeros(z, r.drop_last());
        assert((z + r).drop_last() =~= z + r.drop_last());
        assert((z + r).last() == r.last());
    }
}

proof fn lemma_digit_chars_concat(a: Seq<u8>, b: Seq<u8>)
    ensures
        digit_chars(a + b) == digit_chars(a) + digit_chars(b),
    decreases b.len(),
{
    if b.len() == 0 {
        assert(a + b =~= a);
        assert(digit_chars(a) + digit_chars(b) =~= digit_chars(a));
    } else {
        lemma_digit_chars_concat(a, b.drop_last());
        assert((a + b).drop_last() =~= a + b.drop_last());
        assert((a + b).last() == b.last());
        if is_digit(b.last()) {
            assert(digit_chars(a) + digit_chars(b) =~= (digit_chars(a) + digit_chars(b.drop_last())).push(
                b.last() as char,
            ));
        }
    }
}

/// Bytes that are all `0` or `_` have only `0` digits.
proof fn lemma_digit_chars_zeros(s: Seq<u8>)
    requires
        forall|k: int| 0 <= k < s.len() ==> #[trigger] s[k] == 48u8 || s[k] == 95u8,
    ensures
        forall|k: int| 0 <= k < digit_chars(s).len() ==> #[trigger] digit_chars(s)[k] == '0',
        digit_chars(s).len() > 0 <==> exists|k: int| 0 <= k < s.len() && #[trigger] s[k] == 48u8,
    decreases s.len(),
{
    if s.len() > 0 {
        let t = s.drop_last();
        assert forall|k: int| 0 <= k < t.len() implies #[trigger] t[k] == 48u8 || t[k] == 95u8 by {
            assert(t[k] == s[k]);
        }
        lemma_digit_chars_zeros(t);
        assert(s.last() == s[s.len() - 1]);
        if exists|k: int| 0 <= k < t.len() && #[trigger] t[k] == 48u8 {
            let k = choose|k: int| 0 <= k < t.len() && #[trigger] t[k] == 48u8;
            assert(s[k] == 48u8);
        }
        if exists|k: int| 0 <= k < s.len() && #[trigger] s[k] == 48u8 {
            let k = choose|k: int| 0 <= k < s.len() && #[trigger] s[k] == 48u8;
            if k < t.len() {
                assert(t[k] == 48u8);
            }
        }
    }
}

/// Leading `0` digits change neither the folded value nor the overflow flag.
proof fn lemma_dec_fold_zeros(z: Seq<char>, r: Seq<char>)
    requires
        forall|k: int| 0 <= k < z.len() ==> #[trigger] z[k] == '0',
    ensures
        dec_fold(z + r) == dec_fold(r),
    decreases z.len() + r.len(),
{
    if r.len() == 0 {
        assert(z + r =~= z);
        if z.len() > 0 {
            let t = z.drop_last();
            lemma_dec_fold_zeros(t, r);
            assert(t + r =~= t);
            assert(z.last() == z[z.len() - 1]);
            assert(0u64.wrapping_mul(10) == 0u64);
            assert(0u64.wrapping_add(0) == 0u64);
        }
    } else {
        lemma_dec_fold_zeros(z, r.drop_last());
        assert((z + r).drop_last() =~= z + r.drop_last());
        assert((z + r).last() == r.last());
    }
}

fn lex_integer_dec(lex: &mut Lexer, start: TextOffset)
    requires
        old(lex).wf(),
        ordered_trivia(&old(lex).tokens, start.0 as int),
        start.0 < old(lex).cursor,
        ordered_tokens(&old(lex).tokens, start.0 as int),
        old(lex).tokens.special_count() <= start.0,
        all_digits(old(lex).buffer@),
        ({
            let text = old(lex).source@.subrange(start.0 as int, old(lex).cursor as int);
            &&& dec_fold(old(lex).buffer@) == dec_fold(digit_chars(text))
            &&& dec_nat(old(lex).buffer@) == dec_nat(digit_chars(text))
            &&& !(text.len() >= 2 && text[0] == 48u8 && (text[1] == 98u8 || text[1] == 111u8
                || text[1] == 120u8))
        }),
    ensures
        stepped(*final(lex), *old(lex)),
        cover_step(*final(lex), *old(lex), start.0 as int),
        final(lex).cursor == old(lex).cursor,
        final(lex).tokens.tokens_view() == old(lex).tokens.tokens_view().push(Token::IntLit),
        final(lex).tokens.value_at(old(lex).tokens.token_len()) == crate::token_list::TokenValue::Int(
            TextRange { start, end: TextOffset(final(lex).cursor as u32) },
            dec_fold(old(lex).buffer@).0,
        ),
        final(lex).errors@.len() == old(lex).errors@.len() + (if dec_fold(old(lex).buffer@).1 {
            1int
        } else {
            0int
        }),
{
    let mut integer: u64 = 0;
    let mut overflow = false;
    let n = lex.buffer.len();
    let mut i: usize = 0;
    while i < n
        invariant
            n == lex.buffer@.len(),
            *lex == *old(lex),
            i <= n,
            all_digits(lex.buffer@),
            (integer, overflow) == dec_fold(lex.buffer@.subrange(0, i as int)),
        decreases n - i,
    {
        let c = lex.buffer[i];
        let value: u64 = (c as u32 - 48) as u64;
        let prev_value = integer;
        integer = integer.wrapping_mul(10).wrapping_add(value);
        overflow = overflow || (prev_value as u128) * 10 + (value as u128) > 18446744073709551615u128;
        proof {
            let s1 = lex.buffer@.subrange(0, i + 1);
            assert(s1.drop_last() =~= lex.buffer@.subrange(0, i as int));
            assert(s1.last() == c);
        }
        i = i + 1;
    }
    proof {
        assert(lex.buffer@.subrange(0, n as int) =~= lex.buffer@);
    }
    let ghost e_len = lex.errors@.len();
    proof {
        lemma_dec_fold_exact(lex.buffer@);
    }
    if overflow {
        let src = lex.make_src(start);
        lex.error(LexErrorKind::IntDecOverflow, src);
    }
    let range = lex.make_range(start);
    let ghost t0 = lex.tokens;
    lex.tokens.add_int(integer, range);
    proof {
        lemma_ordered_push(&t0, &lex.tokens, range, lex.cursor as int);
        let text = lex.source@.subrange(start.0 as int, lex.cursor as int);
        lemma_dec_fold_exact(lex.buffer@);
        if dec_overflows(text) {
            assert(overflow);
            assert(lex.errors@[e_len as int].kind == LexErrorKind::IntDecOverflow);
            assert(lex.errors@[e_len as int].src.range == lex.tokens.range_at(t0.token_len()));
        }
    }
}

/// Value of the binary digits among `s`, as the lexer accumulates it: one bit per `0`/`1`,
/// other bytes ignored, high bits shifted out.
pub open spec fn bin_fold(s: Seq<u8>) -> u64
    decreases s.len(),
{
    if s.len() == 0 {
        0
    } else if s.last() == 48u8 || s.last() == 49u8 {
        ((bin_fold(s.drop_last()) << 1u64) | ((s.last() - 48) as u64)) as u64
    } else {
        bin_fold(s.drop_last())
    }
}

pub open spec fn bin_digit_count(s: Seq<u8>) -> int
    decreases s.len(),
{
    if s.len() == 0 {
        0
    } else {
        bin_digit_count(s.drop_last()) + if s.last() == 48u8 || s.last() == 49u8 {
            1int
        } else {
            0int
        }
    }
}

fn lex_integer_bin(lex: &mut Lexer, start: TextOffset)
    requires
        old(lex).wf(),
        ordered_trivia(&old(lex).tokens, start.0 as int),
        start.0 + 2 == old(lex).cursor,
        old(lex).source@[start.0 as int] == 48u8,
        old(lex).source@[start.0 + 1] == 98u8,
        ordered_tokens(&old(lex).tokens, start.0 as int),
        old(lex).tokens.special_count() <= start.0,
    ensures
        stepped(*final(lex), *old(lex)),
        cover_step(*final(lex), *old(lex), start.0 as int),
        final(lex).tokens.tokens_view() == old(lex).tokens.tokens_view().push(Token::IntLit),
        ({
            let s = final(lex).source@.subrange(old(lex).cursor as int, final(lex).cursor as int);
            final(lex).tokens.value_at(old(lex).tokens.token_len())
                == crate::token_list::TokenValue::Int(
                TextRange { start, end: TextOffset(final(lex).cursor as u32) },
                bin_fold(s),
            )
        }),
{
    let mut integer: u64 = 0;
    let mut digit_count: u32 = 0;
    let skipped = skip_zero_digits(lex);
    let ghost first = old(lex).cursor;
    proof {
        lemma_bin_fold_zeros(lex.source@.subrange(first as int, lex.cursor as int));
    }
    loop
        invariant
            stepped(*lex, *old(lex)),
            lex.tokens == old(lex).tokens,
            lex.intern_lit == old(lex).intern_lit,
            first == old(lex).cursor,
            start.0 < old(lex).cursor,
            digit_count <= lex.cursor - first,
            integer == bin_fold(lex.source@.subrange(first as int, lex.cursor as int)),
        decreases lex.source@.len() - lex.cursor,
    {
        let c = lex.peek();
        let ghost prev = lex.cursor;
        if c == 48u8 || c == 49u8 {
            lex.bump();
            digit_count = digit_count + 1;
            integer = (integer << 1u64) | ((c - 48) as u64);
        } else if c >= 50u8 && c <= 57u8 {
            let start2 = lex.start_range();
            lex.bump();
            let src = lex.make_src(start2);
            lex.error(LexErrorKind::IntBinInvalidDigit(byte_to_char(c)), src);
        } else if c == 95u8 {
            lex.bump();
        } else {
            break;
        }
        proof {
            let s1 = lex.source@.subrange(first as int, lex.cursor as int);
            assert(s1.drop_last() =~= lex.source@.subrange(first as int, prev as int));
            assert(s1.last() == c);
        }
    }
    if digit_count == 0 && !skipped {
        let src = lex.make_src(start);
        lex.error(LexErrorKind::IntBaseMissingDigits, src);
    } else if digit_count > 64 {
        let src = lex.make_src(start);
        lex.error(LexErrorKind::IntBinOverflow(digit_count), src);
    }
    let range = lex.make_range(start);
    let ghost t0 = lex.tokens;
    lex.tokens.add_int(integer, range);
    proof {
        lemma_ordered_push(&t0, &lex.tokens, range, lex.cursor as int);
        let text = lex.source@.subrange(start.0 as int, lex.cursor as int);
        assert(text.subrange(2, text.len() as int) =~= lex.source@.subrange(old(lex).cursor as int, lex.cursor as int));
        assert(text[0] == lex.source@[start.0 as int] && text[1] == lex.source@[start.0 + 1]);
    }
}

proof fn lemma_bin_fold_zeros(s: Seq<u8>)
    requires
        forall|k: int| 0 <= k < s.len() ==> #[trigger] s[k] == 48u8 || s[k] == 95u8,
    ensures
        bin_fold(s) == 0,
    decreases s.len(),
{
    if s.len() > 0 {
        lemma_bin_fold_zeros(s.drop_last());
        let v = bin_fold(s.drop_last());
        assert(((0u64 << 1u64) | 0u64) == 0u64) by (bit_vector);
    }
}

/// Value of the octal digits among `s`, as the lexer accumulates it: three bits per digit,
/// other bytes ignored, high bits shifted out.
pub open spec fn oct_fold(s: Seq<u8>) -> u64
    decreases s.len(),
{
    if s.len() == 0 {
        0
    } else if 48u8 <= s.last() <= 55u8 {
        ((oct_fold(s.drop_last()) << 3u64) | ((s.last() - 48) as u64)) as u64
    } else {
        oct_fold(s.drop_last())
    }
}

proof fn lemma_oct_fold_zeros(s: Seq<u8>)
    requires
        forall|k: int| 0 <= k < s.len() ==> #[trigger] s[k] == 48u8 || s[k] == 95u8,
    ensures
        oct_fold(s) == 0,
    decreases s.len(),
{
    if s.len() > 0 {
        lemma_oct_fold_zeros(s.drop_last());
        assert(((0u64 << 3u64) | 0u64) == 0u64) by (bit_vector);
    }
}

/// An octal literal after its `0o`: at most 22 digits, the first of 22 at most `1`, so
/// that the value fits 64 bits.
fn lex_integer_oct(lex: &mut Lexer, start: TextOffset)
    requires
        old(lex).wf(),
        ordered_trivia(&old(lex).tokens, start.0 as int),
        start.0 + 2 == old(lex).cursor,
        old(lex).source@[start.0 as int] == 48u8,
        old(lex).source@[start.0 + 1] == 111u8,
        ordered_tokens(&old(lex).tokens, start.0 as int),
        old(lex).tokens.special_count() <= start.0,
    ensures
        stepped(*final(lex), *old(lex)),
        cover_step(*final(lex), *old(lex), start.0 as int),
        final(lex).tokens.tokens_view() == old(lex).tokens.tokens_view().push(Token::IntLit),
        ({
            let s = final(lex).source@.subrange(old(lex).cursor as int, final(lex).cursor as int);
            final(lex).tokens.value_at(old(lex).tokens.token_len())
                == crate::token_list::TokenValue::Int(
                TextRange { start, end: TextOffset(final(lex).cursor as u32) },
                oct_fold(s),
            )
        }),
{
    let mut integer: u64 = 0;
    let mut digit_count: u32 = 0;
    let mut first_digit: u64 = 0;
    let skipped = skip_zero_digits(lex);
    let ghost first = old(lex).cursor;
    proof {
        lemma_oct_fold_zeros(lex.source@.subrange(first as int, lex.cursor as int));
    }
    loop
        invariant
            stepped(*lex, *old(lex)),
            lex.tokens == old(lex).tokens,
            lex.intern_lit == old(lex).intern_lit,
            first == old(lex).cursor,
            start.0 < old(lex).cursor,
            digit_count <= lex.cursor - first,
            integer == oct_fold(lex.source@.subrange(first as int, lex.cursor as int)),
        decreases lex.source@.len() - lex.cursor,
    {
        let c = lex.peek();
        let ghost prev = lex.cursor;
        if c >= 48u8 && c <= 55u8 {
            lex.bump();
            if digit_count == 0 {
                first_digit = (c - 48) as u64;
            }
            digit_count = digit_count + 1;
            integer = (integer << 3u64) | ((c - 48) as u64);
        } else if c == 56u8 || c == 57u8 {
            let start2 = lex.start_range();
            lex.bump();
            let src = lex.make_src(start2);
            lex.error(LexErrorKind::IntOctInvalidDigit(byte_to_char(c)), src);
        } else if c == 95u8 {
            lex.bump();
        } else {
            break;
        }
        proof {
            let s1 = lex.source@.subrange(first as int, lex.cursor as int);
            assert(s1.drop_last() =~= lex.source@.subrange(first as int, prev as int));
            assert(s1.last() == c);
        }
    }
    if digit_count == 0 && !skipped {
        let src = lex.make_src(start);
        lex.error(LexErrorKind::IntBaseMissingDigits, src);
    } else if digit_count > 22 || (digit_count == 22 && first_digit > 1) {
        let src = lex.make_src(start);
        lex.error(LexErrorKind::IntOctOverflow, src);
    }
    let range = lex.make_range(start);
    let ghost t0 = lex.tokens;
    lex.tokens.add_int(integer, range);
    proof {
        lemma_ordered_push(&t0, &lex.tokens, range, lex.cursor as int);
        let text = lex.source@.subrange(start.0 as int, lex.cursor as int);
        assert(text.subrange(2, text.len() as int) =~= lex.source@.subrange(old(lex).cursor as int, lex.cursor as int));
        assert(text[0] == lex.source@[start.0 as int] && text[1] == lex.source@[start.0 + 1]);
    }
}

/// Value of the hexadecimal digits among `s`, as the lexer accumulates it: four bits per
/// digit, `_` ignored, high bits shifted out.
pub open spec fn hex_fold64(s: Seq<u8>) -> u64
    decreases s.len(),
{
    if s.len() == 0 {
        0
    } else if is_hex_digit(s.last()) {
        ((hex_fold64(s.drop_last()) << 4u64) | hex_value(s.last())) as u64
    } else {
        hex_fold64(s.drop_last())
    }
}

fn lex_integer_hex(lex: &mut Lexer, start: TextOffset)
    requires
        old(lex).wf(),
        ordered_trivia(&old(lex).tokens, start.0 as int),
        start.0 + 2 == old(lex).cursor,
        old(lex).source@[start.0 as int] == 48u8,
        old(lex).source@[start.0 + 1] == 120u8,
        ordered_tokens(&old(lex).tokens, start.0 as int),
        old(lex).tokens.special_count() <= start.0,
    ensures
        stepped(*final(lex), *old(lex)),
        cover_step(*final(lex), *old(lex), start.0 as int),
        final(lex).tokens.tokens_view() == old(lex).tokens.tokens_view().push(Token::IntLit),
        ({
            let s = final(lex).source@.subrange(old(lex).cursor as int, final(lex).cursor as int);
            final(lex).tokens.value_at(old(lex).tokens.token_len())
                == crate::token_list::TokenValue::Int(
                TextRange { start, end: TextOffset(final(lex).cursor as u32) },
                hex_fold64(s),
            )
        }),
{
    let mut integer: u64 = 0;
    let mut digit_count: u32 = 0;
    let skipped = skip_zero_digits(lex);
    let ghost first = old(lex).cursor;
    proof {
        lemma_hex_fold_zeros(lex.source@.subrange(first as int, lex.cursor as int));
    }
    loop
        invariant
            stepped(*lex, *old(lex)),
            lex.tokens == old(lex).tokens,
            lex.intern_lit == old(lex).intern_lit,
            first == old(lex).cursor,
            start.0 < old(lex).cursor,
            digit_count <= lex.cursor - first,
            integer == hex_fold64(lex.source@.subrange(first as int, lex.cursor as int)),
        decreases lex.source@.len() - lex.cursor,
    {
        let c = lex.peek();
        let ghost prev = lex.cursor;
        let value: u64 = if byte_is_digit(c) {
            (c - 48) as u64
        } else if c >= 97 && c <= 102 {
            (c - 97 + 10) as u64
        } else if c >= 65 && c <= 70 {
            (c - 65 + 10) as u64
        } else if c == 95u8 {
            lex.bump();
            proof {
                let s1 = lex.source@.subrange(first as int, lex.cursor as int);
                assert(s1.drop_last() =~= lex.source@.subrange(first as int, prev as int));
                assert(s1.last() == c);
            }
            continue;
        } else {
            break;
        };
        lex.bump();
        digit_count = digit_count + 1;
        integer = (integer << 4u64) | value;
        proof {
            let s1 = lex.source@.subrange(first as int, lex.cursor as int);
            assert(s1.drop_last() =~= lex.source@.subrange(first as int, prev as int));
            assert(s1.last() == c);
        }
    }
    if digit_count == 0 && !skipped {
        let src = lex.make_src(start);
        lex.error(LexErrorKind::IntBaseMissingDigits, src);
    } else if digit_count > 16 {
        let src = lex.make_src(start);
        lex.error(LexErrorKind::IntHexOverflow(digit_count), src);
    }
    let range = lex.make_range(start);
    let ghost t0 = lex.tokens;
    lex.tokens.add_int(integer, range);
    proof {
        lemma_ordered_push(&t0, &lex.tokens, range, lex.cursor as int);
        let text = lex.source@.subrange(start.0 as int, lex.cursor as int);
        assert(text.subrange(2, text.len() as int) =~= lex.source@.subrange(old(lex).cursor as int, lex.cursor as int));
        assert(text[0] == lex.source@[start.0 as int] && text[1] == lex.source@[start.0 + 1]);
    }
}

proof fn lemma_hex_fold_zeros(s: Seq<u8>)
    requires
        forall|k: int| 0 <= k < s.len() ==> #[trigger] s[k] == 48u8 || s[k] == 95u8,
    ensures
        hex_fold64(s) == 0,
    decreases s.len(),
{
    if s.len() > 0 {
        lemma_hex_fold_zeros(s.drop_last());
        assert(((0u64 << 4u64) | 0u64) == 0u64) by (bit_vector);
    }
}

/// Skip `0` digits and `_` separators; true when a `0` was skipped.
fn skip_zero_digits(lex: &mut Lexer) -> (r: bool)
    requires
        old(lex).wf(),
    ensures
        stepped(*final(lex), *old(lex)),
        final(lex).tokens == old(lex).tokens,
        final(lex).intern_lit == old(lex).intern_lit,
        final(lex).errors == old(lex).errors,
        final(lex).buffer == old(lex).buffer,
        forall|k: int| old(lex).cursor <= k < final(lex).cursor ==> #[trigger] final(lex).source@[k] == 48u8
            || final(lex).source@[k] == 95u8,
        final(lex).byte_at(final(lex).cursor as int) != 48u8 && final(lex).byte_at(final(lex).cursor as int) != 95u8,
        r == (exists|k: int| old(lex).cursor <= k < final(lex).cursor && #[trigger] final(lex).source@[k] == 48u8),
{
    let mut skipped = false;
    loop
        invariant
            stepped(*lex, *old(lex)),
            lex.tokens == old(lex).tokens,
            lex.intern_lit == old(lex).intern_lit,
            lex.errors == old(lex).errors,
            lex.buffer == old(lex).buffer,
            forall|k: int| old(lex).cursor <= k < lex.cursor ==> #[trigger] lex.source@[k] == 48u8
                || lex.source@[k] == 95u8,
            skipped == (exists|k: int|
                old(lex).cursor <= k < lex.cursor && #[trigger] lex.source@[k] == 48u8),
        ensures
            lex.byte_at(lex.cursor as int) != 48u8 && lex.byte_at(lex.cursor as int) != 95u8,
        decreases lex.source@.len() - lex.cursor,
    {
        let c = lex.peek();
        let ghost prev = lex.cursor;
        if c == 48u8 {
            lex.bump();
            skipped = true;
            assert(lex.source@[prev as int] == 48u8);
        } else if c == 95u8 {
            lex.bump();
            proof {
                if skipped {
                    let k = choose|k: int| old(lex).cursor <= k < prev && #[trigger] lex.source@[k] == 48u8;
                    assert(lex.source@[k] == 48u8);
                }
            }
        } else {
            break;
        }
    }
    skipped
}

/// Skip decimal digits and `_` separators, collecting the digits in the buffer.
fn skip_num_digits(lex: &mut Lexer)
    requires
        old(lex).wf(),
    ensures
        stepped(*final(lex), *old(lex)),
        final(lex).tokens == old(lex).tokens,
        final(lex).intern_lit == old(lex).intern_lit,
        final(lex).errors == old(lex).errors,
        forall|k: int| old(lex).buffer@.len() <= k < final(lex).buffer@.len() ==> is_digit_char(#[trigger] final(lex).buffer@[k]),
        final(lex).buffer@.len() >= old(lex).buffer@.len(),
        final(lex).buffer@.subrange(0, old(lex).buffer@.len() as int) == old(lex).buffer@,
        final(lex).buffer@ == old(lex).buffer@ + digit_chars(
            final(lex).source@.subrange(old(lex).cursor as int, final(lex).cursor as int),
        ),
        !is_digit(final(lex).byte_at(final(lex).cursor as int)) && final(lex).byte_at(final(lex).cursor as int) != 95u8,
{
    loop
        invariant
            stepped(*lex, *old(lex)),
            lex.tokens == old(lex).tokens,
            lex.intern_lit == old(lex).intern_lit,
            lex.errors == old(lex).errors,
            forall|k: int| old(lex).buffer@.len() <= k < lex.buffer@.len() ==> is_digit_char(#[trigger] lex.buffer@[k]),
            lex.buffer@.len() >= old(lex).buffer@.len(),
            lex.buffer@.subrange(0, old(lex).buffer@.len() as int) == old(lex).buffer@,
            lex.buffer@ == old(lex).buffer@ + digit_chars(
                lex.source@.subrange(old(lex).cursor as int, lex.cursor as int),
            ),
        decreases lex.source@.len() - lex.cursor,
    {
        let c = lex.peek();
        let ghost c0 = lex.cursor;
        let ghost seg0 = lex.source@.subrange(old(lex).cursor as int, c0 as int);
        if byte_is_digit(c) {
            lex.bump();
            let ghost b0 = lex.buffer@;
            lex.buffer.push(byte_to_char(c));
            proof {
                assert(lex.buffer@.subrange(0, old(lex).buffer@.len() as int) =~= b0.subrange(
                    0,
                    old(lex).buffer@.len() as int,
                ));
                let seg1 = lex.source@.subrange(old(lex).cursor as int, lex.cursor as int);
                assert(seg1.drop_last() =~= seg0);
                assert(seg1.last() == c);
                assert(lex.buffer@ =~= old(lex).buffer@ + digit_chars(seg1));
            }
        } else if c == 95u8 {
            lex.bump();
            proof {
                let seg1 = lex.source@.subrange(old(lex).cursor as int, lex.cursor as int);
                assert(seg1.drop_last() =~= seg0);
                assert(seg1.last() == c);
            }
        } else {
            return;
        }
    }
}

} // verus!
