use vstd::prelude::*;
use crate::strings::push_chars;

verus! {

/// Index of the first `\n` of `s` at or after `i`, or the length of `s`.
pub open spec fn newline_from(s: Seq<char>, i: int) -> int
    decreases s.len() - i,
{
    if i >= s.len() {
        s.len() as int
    } else if s[i] == '\n' {
        i
    } else {
        newline_from(s, i + 1)
    }
}

pub proof fn lemma_newline_from(s: Seq<char>, i: int)
    requires
        0 <= i,
    ensures
        i <= newline_from(s, i) || i > s.len(),
        newline_from(s, i) <= s.len(),
        newline_from(s, i) < s.len() ==> s[newline_from(s, i)] == '\n',
        forall|k: int| i <= k < newline_from(s, i) ==> #[trigger] s[k] != '\n',
    decreases s.len() - i,
{
    if i < s.len() && s[i] != '\n' {
        lemma_newline_from(s, i + 1);
    }
}

/// `l` without one `\r` at its end.
pub open spec fn strip_cr(l: Seq<char>) -> Seq<char> {
    if l.len() > 0 && l.last() == '\r' {
        l.drop_last()
    } else {
        l
    }
}

/// The lines of `s` from index `i` on: split at each `\n`, a `\r` before it left out; a
/// last line without `\n` counts when it is not empty.
pub open spec fn lines_from(s: Seq<char>, i: int) -> Seq<Seq<char>>
    decreases s.len() - i,
{
    if i < 0 || i >= s.len() {
        seq![]
    } else {
        let k = newline_from(s, i);
        proof {
            lemma_newline_from(s, i);
        }
        if k >= s.len() {
            seq![s.subrange(i, s.len() as int)]
        } else {
            seq![strip_cr(s.subrange(i, k))] + lines_from(s, k + 1)
        }
    }
}

/// The lines of `text`.
pub open spec fn text_lines(text: Seq<char>) -> Seq<Seq<char>> {
    lines_from(text, 0)
}

/// Splits `text` into its lines, each as its characters.
pub fn split_lines(text: &str) -> (r: Vec<Vec<char>>)
    ensures
        r@.len() == text_lines(text@).len(),
        forall|k: int| 0 <= k < r@.len() ==> (#[trigger] r@[k])@ == text_lines(text@)[k],
{
    let n = text.unicode_len();
    let mut cs: Vec<char> = Vec::new();
    let mut i: usize = 0;
    while i < n
        invariant
            n == text@.len(),
            0 <= i <= n,
            cs@ == text@.subrange(0, i as int),
        decreases n - i,
    {
        let c = text.get_char(i);
        proof {
            assert(text@.subrange(0, i + 1).drop_last() =~= text@.subrange(0, i as int));
        }
        cs.push(c);
        i = i + 1;
    }
    proof {
        assert(text@.subrange(0, n as int) =~= text@);
    }
    let ghost s = cs@;
    let mut lines: Vec<Vec<char>> = Vec::new();
    let mut pos: usize = 0;
    while pos < n
        invariant
            n == s.len(),
            s == text@,
            cs@ == s,
            0 <= pos <= n,
            lines@.len() + lines_from(s, pos as int).len() == text_lines(s).len(),
            forall|k: int| 0 <= k < lines@.len() ==> (#[trigger] lines@[k])@ == text_lines(s)[k],
            forall|k: int|
                0 <= k < lines_from(s, pos as int).len() ==> #[trigger] lines_from(s, pos as int)[k]
                    == text_lines(s)[lines@.len() + k],
        decreases n - pos,
    {
        let mut line: Vec<char> = Vec::new();
        let mut j = pos;
        while j < n && cs[j] != '\n'
            invariant
                n == s.len(),
                cs@ == s,
                pos <= j <= n,
                line@ == s.subrange(pos as int, j as int),
                forall|k: int| pos <= k < j ==> #[trigger] s[k] != '\n',
            decreases n - j,
        {
            line.push(cs[j]);
            proof {
                assert(line@ =~= s.subrange(pos as int, j + 1));
            }
            j = j + 1;
        }
        proof {
            lemma_newline_from(s, pos as int);
            lemma_newline_from_first(s, pos as int, j as int);
        }
        let ghost rest = lines_from(s, pos as int);
        if j < n {
            if line.len() > 0 && line[line.len() - 1] == '\r' {
                line.pop();
            }
            proof {
                assert(line@ =~= strip_cr(s.subrange(pos as int, j as int)));
                assert(rest == seq![strip_cr(s.subrange(pos as int, j as int))] + lines_from(s, j + 1));
                assert(rest[0] == line@);
                assert forall|k: int| 0 <= k < lines_from(s, j + 1).len() implies #[trigger] lines_from(
                    s,
                    j + 1,
                )[k] == text_lines(s)[lines@.len() + 1 + k] by {
                    assert(lines_from(s, j + 1)[k] == rest[k + 1]);
                }
            }
            lines.push(line);
            pos = j + 1;
        } else {
            proof {
                assert(rest == seq![s.subrange(pos as int, n as int)]);
                assert(rest[0] == line@);
                assert(lines_from(s, n as int) =~= Seq::<Seq<char>>::empty());
            }
            lines.push(line);
            pos = n;
        }
    }
    proof {
        assert(lines_from(s, n as int).len() == 0);
    }
    lines
}

/// `newline_from` finds the first `\n` after a run of other characters.
proof fn lemma_newline_from_first(s: Seq<char>, i: int, j: int)
    requires
        0 <= i <= j <= s.len(),
        forall|k: int| i <= k < j ==> #[trigger] s[k] != '\n',
        j == s.len() || s[j] == '\n',
    ensures
        newline_from(s, i) == j,
    decreases j - i,
{
    if i < j {
        lemma_newline_from_first(s, i + 1, j);
    }
}

/// `l` starts with `p`.
pub open spec fn starts_with(l: Seq<char>, p: Seq<char>) -> bool {
    p.len() <= l.len() && l.subrange(0, p.len() as int) == p
}

/// Index of the first line of `ls` at or after `i` that starts with a tag, `//#`, or the
/// number of lines.
pub open spec fn tag_from(ls: Seq<Seq<char>>, i: int) -> int
    decreases ls.len() - i,
{
    if i < 0 || i >= ls.len() {
        ls.len() as int
    } else if starts_with(ls[i], "//#"@) {
        i
    } else {
        tag_from(ls, i + 1)
    }
}

/// Lines `a..b` of `ls`, each followed by `\n`.
pub open spec fn joined(ls: Seq<Seq<char>>, a: int, b: int) -> Seq<char>
    decreases b - a,
{
    if a >= b {
        seq![]
    } else {
        joined(ls, a, b - 1) + ls[b - 1] + seq!['\n']
    }
}

/// Index of the first line at or after `i` that ends an expected output: one that starts
/// with `//#!` or is no `//` comment; or the number of lines.
pub open spec fn expect_stop(ls: Seq<Seq<char>>, i: int) -> int
    decreases ls.len() - i,
{
    if i < 0 || i >= ls.len() {
        ls.len() as int
    } else if !starts_with(ls[i], "//"@) || starts_with(ls[i], "//#!"@) {
        i
    } else {
        expect_stop(ls, i + 1)
    }
}

/// The expected output written in lines `a..b`: each line after its `//`, followed by `\n`.
pub open spec fn expect_text(ls: Seq<Seq<char>>, a: int, b: int) -> Seq<char>
    decreases b - a,
{
    if a >= b {
        seq![]
    } else {
        expect_text(ls, a, b - 1) + ls[b - 1].subrange(2, ls[b - 1].len() as int) + seq!['\n']
    }
}

/// `s` without its last character, if it has one.
pub open spec fn drop_last_char(s: Seq<char>) -> Seq<char> {
    if s.len() > 0 {
        s.drop_last()
    } else {
        s
    }
}

/// Index of the first `c` in `l` at or after `i`, or the length of `l`.
pub open spec fn find_from(l: Seq<char>, c: char, i: int) -> int
    decreases l.len() - i,
{
    if i < 0 || i >= l.len() {
        l.len() as int
    } else if l[i] == c {
        i
    } else {
        find_from(l, c, i + 1)
    }
}

/// What is wrong with a test file.
#[derive(Copy, Clone, PartialEq, Eq, Debug, Structural)]
pub enum TestFileError {
    /// The first line is not `//#prelude`.
    MissingPrelude,
    /// A test does not start with an `//#entry` line.
    MissingEntry,
    /// The entry line has no `"` to open the entry name.
    EntryNameOpen,
    /// The entry name is not closed by a `"`.
    EntryNameClose,
    /// The entry line is not followed by an `//#expect` line.
    MissingExpect,
    /// A line of the expected output is not a `//` comment.
    ExpectNotComment,
    /// Two tests have the same entry name.
    DuplicateEntry,
}

/// A test: its entry name, expected output and source, as characters.
pub type TestView = (Seq<char>, Seq<char>, Seq<char>);

/// The test whose `//#entry` line is line `i`, with the index of the line after it.
pub open spec fn test_at(ls: Seq<Seq<char>>, i: int) -> Result<(TestView, int), TestFileError> {
    let el = ls[i];
    let q1 = find_from(el, '"', 0);
    let q2 = find_from(el, '"', q1 + 1);
    if !starts_with(el, "//#entry"@) {
        Err(TestFileError::MissingEntry)
    } else if q1 >= el.len() {
        Err(TestFileError::EntryNameOpen)
    } else if q2 >= el.len() {
        Err(TestFileError::EntryNameClose)
    } else if i + 1 >= ls.len() || !starts_with(ls[i + 1], "//#expect"@) {
        Err(TestFileError::MissingExpect)
    } else {
        let xe = expect_stop(ls, i + 2);
        if xe < ls.len() && !starts_with(ls[xe], "//"@) {
            Err(TestFileError::ExpectNotComment)
        } else {
            let raw = expect_text(ls, i + 2, xe);
            let expect = if ls[i + 1] == "//#expect(no_new_line)"@ {
                drop_last_char(raw)
            } else {
                raw
            };
            let next = if xe < ls.len() {
                xe + 1
            } else {
                xe
            };
            let se = tag_from(ls, next);
            Ok(((el.subrange(q1 + 1, q2), expect, joined(ls, next, se)), se))
        }
    }
}

/// Some test of `acc` has the entry name `name`.
pub open spec fn has_entry(acc: Seq<TestView>, name: Seq<char>) -> bool {
    exists|k: int| 0 <= k < acc.len() && (#[trigger] acc[k]).0 == name
}

/// The tests from line `i` on, after those of `acc`.
pub open spec fn tests_from(ls: Seq<Seq<char>>, i: int, acc: Seq<TestView>) -> Result<
    Seq<TestView>,
    TestFileError,
>
    decreases ls.len() - i,
{
    if i < 0 || i >= ls.len() {
        Ok(acc)
    } else {
        match test_at(ls, i) {
            Err(e) => Err(e),
            Ok((t, se)) => if se <= i || se > ls.len() {
                Err(TestFileError::MissingEntry)
            } else if has_entry(acc, t.0) {
                Err(TestFileError::DuplicateEntry)
            } else {
                tests_from(ls, se, acc.push(t))
            },
        }
    }
}

/// A test file written `text`: its prelude and its tests, in order.
pub open spec fn parse_test_text(text: Seq<char>) -> Result<(Seq<char>, Seq<TestView>), TestFileError> {
    let ls = text_lines(text);
    if ls.len() == 0 || ls[0] != "//#prelude"@ {
        Err(TestFileError::MissingPrelude)
    } else {
        let pe = tag_from(ls, 1);
        match tests_from(ls, pe, seq![]) {
            Ok(ts) => Ok((drop_last_char(joined(ls, 1, pe)), ts)),
            Err(e) => Err(e),
        }
    }
}

/// A test of a test file.
pub struct TestCase {
    pub entry: String,
    pub expect: String,
    pub source: String,
}

/// A test file: the prelude that every test's source is followed by, and the tests.
pub struct TestFile {
    pub prelude: String,
    pub tests: Vec<TestCase>,
}

pub open spec fn case_views(cs: Seq<TestCase>) -> Seq<TestView> {
    cs.map_values(|c: TestCase| (c.entry@, c.expect@, c.source@))
}

fn chars_of(s: &str) -> (r: Vec<char>)
    ensures
        r@ == s@,
{
    let n = s.unicode_len();
    let mut cs: Vec<char> = Vec::new();
    let mut i: usize = 0;
    while i < n
        invariant
            n == s@.len(),
            0 <= i <= n,
            cs@ == s@.subrange(0, i as int),
        decreases n - i,
    {
        let c = s.get_char(i);
        proof {
            assert(s@.subrange(0, i + 1).drop_last() =~= s@.subrange(0, i as int));
        }
        cs.push(c);
        i = i + 1;
    }
    proof {
        assert(s@.subrange(0, n as int) =~= s@);
    }
    cs
}

fn string_of(cs: &Vec<char>) -> (r: String)
    ensures
        r@ == cs@,
{
    let mut s = String::new();
    push_chars(&mut s, cs.as_slice());
    proof {
        assert(s@ =~= cs@);
    }
    s
}

fn same_chars(a: &Vec<char>, b: &Vec<char>) -> (r: bool)
    ensures
        r == (a@ == b@),
{
    if a.len() != b.len() {
        return false;
    }
    let mut i: usize = 0;
    while i < a.len()
        invariant
            a@.len() == b@.len(),
            0 <= i <= a@.len(),
            forall|k: int| 0 <= k < i ==> a@[k] == b@[k],
        decreases a@.len() - i,
    {
        if a[i] != b[i] {
            return false;
        }
        i = i + 1;
    }
    proof {
        assert(a@ =~= b@);
    }
    true
}

fn has_prefix(l: &Vec<char>, p: &Vec<char>) -> (r: bool)
    ensures
        r == starts_with(l@, p@),
{
    if p.len() > l.len() {
        return false;
    }
    let mut i: usize = 0;
    while i < p.len()
        invariant
            p@.len() <= l@.len(),
            0 <= i <= p@.len(),
            forall|k: int| 0 <= k < i ==> l@[k] == p@[k],
        decreases p@.len() - i,
    {
        if l[i] != p[i] {
            proof {
                assert(l@.subrange(0, p@.len() as int)[i as int] != p@[i as int]);
            }
            return false;
        }
        i = i + 1;
    }
    proof {
        assert(l@.subrange(0, p@.len() as int) =~= p@);
    }
    true
}

proof fn lemma_find_from(l: Seq<char>, c: char, i: int)
    requires
        0 <= i <= l.len(),
    ensures
        i <= find_from(l, c, i) <= l.len(),
    decreases l.len() - i,
{
    if i < l.len() && l[i] != c {
        lemma_find_from(l, c, i + 1);
    }
}

fn find_char(l: &Vec<char>, c: char, from: usize) -> (r: usize)
    ensures
        r == find_from(l@, c, from as int),
{
    let mut i = from;
    if i >= l.len() {
        return l.len();
    }
    while i < l.len() && l[i] != c
        invariant
            from <= i <= l@.len(),
            find_from(l@, c, from as int) == find_from(l@, c, i as int),
        decreases l@.len() - i,
    {
        i = i + 1;
    }
    i
}

/// Appends `l[from..]` and a `\n` to `out`.
fn push_line(out: &mut Vec<char>, l: &Vec<char>, from: usize)
    requires
        from <= l@.len(),
    ensures
        final(out)@ == old(out)@ + l@.subrange(from as int, l@.len() as int) + seq!['\n'],
{
    let mut i = from;
    while i < l.len()
        invariant
            from <= i <= l@.len(),
            out@ == old(out)@ + l@.subrange(from as int, i as int),
        decreases l@.len() - i,
    {
        out.push(l[i]);
        proof {
            assert(out@ =~= old(out)@ + l@.subrange(from as int, i + 1));
        }
        i = i + 1;
    }
    out.push('\n');
}

/// Reads a test file: a `//#prelude` line and the prelude, then the tests, each an
/// `//#entry` line with the entry name in quotes, an `//#expect` line, the expected
/// output in `//` comments up to an `//#!` line, and the test's source up to the next
/// tag line. No two tests may have the same entry name.
pub fn parse_test_file(text: &str) -> (r: Result<TestFile, TestFileError>)
    ensures
        r matches Ok(f) ==> parse_test_text(text@) == Ok::<(Seq<char>, Seq<TestView>), TestFileError>(
            (f.prelude@, case_views(f.tests@)),
        ),
        r matches Err(e) ==> parse_test_text(text@) == Err::<(Seq<char>, Seq<TestView>), TestFileError>(e),
        r matches Ok(f) ==> forall|a: int, b: int|
            0 <= a < b < f.tests@.len() ==> (#[trigger] f.tests@[a]).entry@ != (#[trigger] f.tests@[b]).entry@,
{
    let lines = split_lines(text);
    let ghost ls = text_lines(text@);
    let n = lines.len();
    let tag = chars_of("//#");
    let prelude_tag = chars_of("//#prelude");
    if n == 0 || !same_chars(&lines[0], &prelude_tag) {
        return Err(TestFileError::MissingPrelude);
    }
    let mut prelude: Vec<char> = Vec::new();
    let mut j: usize = 1;
    while j < n && !has_prefix(&lines[j], &tag)
        invariant
            n == ls.len(),
            lines@.len() == n,
            forall|k: int| 0 <= k < n ==> (#[trigger] lines@[k])@ == ls[k],
            tag@ == "//#"@,
            1 <= j <= n,
            prelude@ == joined(ls, 1, j as int),
            tag_from(ls, 1) == tag_from(ls, j as int),
        decreases n - j,
    {
        push_line(&mut prelude, &lines[j], 0);
        proof {
            assert(lines@[j as int]@.subrange(0, lines@[j as int]@.len() as int) =~= ls[j as int]);
            assert(prelude@ =~= joined(ls, 1, j + 1));
        }
        j = j + 1;
    }
    let pe = j;
    assert(pe == tag_from(ls, 1));
    if prelude.len() > 0 {
        prelude.pop();
    }
    let entry_tag = chars_of("//#entry");
    let expect_tag = chars_of("//#expect");
    let no_new_line_tag = chars_of("//#expect(no_new_line)");
    let comment = chars_of("//");
    let expect_end = chars_of("//#!");
    proof {
        reveal_strlit("//");
    }
    let mut tests: Vec<TestCase> = Vec::new();
    let mut names: Vec<Vec<char>> = Vec::new();
    let mut i: usize = pe;
    assert(case_views(tests@) =~= Seq::<TestView>::empty());
    while i < n
        invariant
            n == ls.len(),
            lines@.len() == n,
            forall|k: int| 0 <= k < n ==> (#[trigger] lines@[k])@ == ls[k],
            tag@ == "//#"@,
            entry_tag@ == "//#entry"@,
            expect_tag@ == "//#expect"@,
            no_new_line_tag@ == "//#expect(no_new_line)"@,
            comment@ == "//"@,
            comment@.len() == 2,
            expect_end@ == "//#!"@,
            pe <= i <= n,
            ls == text_lines(text@),
            ls.len() > 0 && ls[0] == "//#prelude"@,
            pe == tag_from(ls, 1),
            prelude@ == drop_last_char(joined(ls, 1, pe as int)),
            names@.len() == tests@.len(),
            forall|k: int| 0 <= k < names@.len() ==> (#[trigger] names@[k])@ == tests@[k].entry@,
            forall|a: int, b: int|
                0 <= a < b < names@.len() ==> (#[trigger] names@[a])@ != (#[trigger] names@[b])@,
            tests_from(ls, pe as int, seq![]) == tests_from(ls, i as int, case_views(tests@)),
        decreases n - i,
    {
        let ghost acc = case_views(tests@);
        let el = &lines[i];
        assert(el@ == ls[i as int]);
        if !has_prefix(el, &entry_tag) {
            assert(tests_from(ls, i as int, acc) == Err::<Seq<TestView>, TestFileError>(TestFileError::MissingEntry));
            return Err(TestFileError::MissingEntry);
        }
        let q1 = find_char(el, '"', 0);
        if q1 >= el.len() {
            assert(tests_from(ls, i as int, acc) == Err::<Seq<TestView>, TestFileError>(TestFileError::EntryNameOpen));
            return Err(TestFileError::EntryNameOpen);
        }
        let q2 = find_char(el, '"', q1 + 1);
        proof {
            lemma_find_from(el@, '"', q1 + 1);
        }
        if q2 >= el.len() {
            assert(tests_from(ls, i as int, acc) == Err::<Seq<TestView>, TestFileError>(TestFileError::EntryNameClose));
            return Err(TestFileError::EntryNameClose);
        }
        if i + 1 >= n || !has_prefix(&lines[i + 1], &expect_tag) {
            assert(tests_from(ls, i as int, acc) == Err::<Seq<TestView>, TestFileError>(TestFileError::MissingExpect));
            return Err(TestFileError::MissingExpect);
        }
        let mut expect: Vec<char> = Vec::new();
        let mut k = i + 2;
        while k < n && has_prefix(&lines[k], &comment) && !has_prefix(&lines[k], &expect_end)
            invariant
                n == ls.len(),
                lines@.len() == n,
                forall|x: int| 0 <= x < n ==> (#[trigger] lines@[x])@ == ls[x],
                comment@ == "//"@,
                comment@.len() == 2,
                expect_end@ == "//#!"@,
                i + 2 <= k <= n,
                expect@ == expect_text(ls, i + 2, k as int),
                expect_stop(ls, i + 2) == expect_stop(ls, k as int),
            decreases n - k,
        {
            push_line(&mut expect, &lines[k], 2);
            proof {
                assert(expect@ =~= expect_text(ls, i + 2, k + 1));
            }
            k = k + 1;
        }
        if k < n && !has_prefix(&lines[k], &comment) {
            assert(tests_from(ls, i as int, acc) == Err::<Seq<TestView>, TestFileError>(TestFileError::ExpectNotComment));
            return Err(TestFileError::ExpectNotComment);
        }
        let ghost raw = expect@;
        if same_chars(&lines[i + 1], &no_new_line_tag) && expect.len() > 0 {
            expect.pop();
        }
        let next = if k < n {
            k + 1
        } else {
            k
        };
        let mut source: Vec<char> = Vec::new();
        let mut m = next;
        while m < n && !has_prefix(&lines[m], &tag)
            invariant
                n == ls.len(),
                lines@.len() == n,
                forall|x: int| 0 <= x < n ==> (#[trigger] lines@[x])@ == ls[x],
                tag@ == "//#"@,
                next <= m <= n,
                source@ == joined(ls, next as int, m as int),
                tag_from(ls, next as int) == tag_from(ls, m as int),
            decreases n - m,
        {
            push_line(&mut source, &lines[m], 0);
            proof {
                assert(lines@[m as int]@.subrange(0, lines@[m as int]@.len() as int) =~= ls[m as int]);
                assert(source@ =~= joined(ls, next as int, m + 1));
            }
            m = m + 1;
        }
        let mut entry: Vec<char> = Vec::new();
        let mut e = q1 + 1;
        while e < q2
            invariant
                q1 + 1 <= e <= q2 < el@.len(),
                entry@ == el@.subrange(q1 + 1, e as int),
            decreases q2 - e,
        {
            entry.push(el[e]);
            proof {
                assert(entry@ =~= el@.subrange(q1 + 1, e + 1));
            }
            e = e + 1;
        }
        let ghost t: TestView = (entry@, expect@, source@);
        proof {
            assert(test_at(ls, i as int) == Ok::<(TestView, int), TestFileError>((t, m as int)));
        }
        let mut d: usize = 0;
        while d < names.len() && !same_chars(&names[d], &entry)
            invariant
                0 <= d <= names@.len(),
                forall|x: int| 0 <= x < d ==> (#[trigger] names@[x])@ != entry@,
            decreases names@.len() - d,
        {
            d = d + 1;
        }
        if d < names.len() {
            proof {
                assert(names@[d as int]@ == entry@);
                assert(acc[d as int] == (tests@[d as int].entry@, tests@[d as int].expect@, tests@[d as int].source@));
                assert(acc[d as int].0 == t.0);
                assert(has_entry(acc, t.0));
                assert(tests_from(ls, i as int, acc) == Err::<Seq<TestView>, TestFileError>(TestFileError::DuplicateEntry));
            }
            return Err(TestFileError::DuplicateEntry);
        }
        proof {
            if has_entry(acc, t.0) {
                let x = choose|x: int| 0 <= x < acc.len() && (#[trigger] acc[x]).0 == t.0;
                assert(acc[x] == (tests@[x].entry@, tests@[x].expect@, tests@[x].source@));
                assert(names@[x]@ == t.0);
            }
        }
        let case = TestCase {
            entry: string_of(&entry),
            expect: string_of(&expect),
            source: string_of(&source),
        };
        tests.push(case);
        names.push(entry);
        proof {
            assert(case_views(tests@) =~= acc.push(t));
            assert forall|a: int, b: int| 0 <= a < b < names@.len() implies (#[trigger] names@[a])@
                != (#[trigger] names@[b])@ by {
                if b == names@.len() - 1 {
                    assert(names@[b]@ == entry@);
                }
            }
        }
        i = m;
    }
    proof {
        assert forall|a: int, b: int| 0 <= a < b < tests@.len() implies (#[trigger] tests@[a]).entry@
            != (#[trigger] tests@[b]).entry@ by {
            assert(names@[a]@ == tests@[a].entry@);
            assert(names@[b]@ == tests@[b].entry@);
        }
    }
    Ok(TestFile { prelude: string_of(&prelude), tests })
}

} // verus!
