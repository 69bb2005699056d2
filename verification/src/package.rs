use vstd::prelude::*;
use vstd::string::StrSliceExecFns;
use vstd::string::StringSliceAdditionalSpecFns;
use crate::strings::{decimal, push_char, push_decimal};
use std::collections::BTreeMap;

verus! {

/// Longest package name, in bytes.
pub const MAX_NAME_LEN: usize = 32;

/// Why a package name was refused.
#[derive(Copy, Clone, PartialEq, Eq, Debug, Structural)]
pub enum NameError {
    /// Longer than `MAX_NAME_LEN` bytes.
    TooLong,
    Empty,
    /// The first character that is not `a-z`, `0-9` or `_`.
    InvalidChar(char),
    /// The first character, which is not `a-z`.
    InvalidStart(char),
}

pub open spec fn is_lower(c: char) -> bool {
    'a' <= c && c <= 'z'
}

pub open spec fn is_digit_char(c: char) -> bool {
    '0' <= c && c <= '9'
}

/// A character that a package name may hold.
pub open spec fn name_char_ok(c: char) -> bool {
    is_lower(c) || is_digit_char(c) || c == '_'
}

/// The first position from `i` on whose character may not stand in a package name.
pub open spec fn first_bad_char(s: Seq<char>, i: int) -> Option<int>
    decreases s.len() - i,
{
    if i < 0 || i >= s.len() {
        None
    } else if !name_char_ok(s[i]) {
        Some(i)
    } else {
        first_bad_char(s, i + 1)
    }
}

/// What checking the package name `s` (of `byte_len` bytes) gives.
pub open spec fn name_check(s: Seq<char>, byte_len: nat) -> Result<(), NameError> {
    if byte_len > MAX_NAME_LEN {
        Err(NameError::TooLong)
    } else if s.len() == 0 {
        Err(NameError::Empty)
    } else if first_bad_char(s, 0) is Some {
        Err(NameError::InvalidChar(s[first_bad_char(s, 0)->Some_0]))
    } else if !is_lower(s[0]) {
        Err(NameError::InvalidStart(s[0]))
    } else {
        Ok(())
    }
}

proof fn lemma_first_bad_step(s: Seq<char>, i: int)
    requires
        0 <= i,
        forall|k: int| 0 <= k < i && k < s.len() ==> name_char_ok(#[trigger] s[k]),
    ensures
        first_bad_char(s, 0) == first_bad_char(s, i),
    decreases i,
{
    if i > 0 {
        lemma_first_bad_step(s, i - 1);
        if i - 1 < s.len() {
            assert(name_char_ok(s[i - 1]));
        }
    }
}

/// Checks a package name: at most `MAX_NAME_LEN` bytes, not empty, only `a-z`, `0-9`
/// and `_`, starting with `a-z`.
pub fn verify_name(name: &str) -> (r: Result<&str, NameError>)
    ensures
        r matches Ok(n) ==> n == name,
        name_check(name@, name.spec_bytes().len()) is Ok <==> r is Ok,
        name_check(name@, name.spec_bytes().len()) matches Err(e) ==> r == Err::<&str, NameError>(e),
{
    if name.as_bytes().len() > MAX_NAME_LEN {
        return Err(NameError::TooLong);
    }
    let n = name.unicode_len();
    if n == 0 {
        return Err(NameError::Empty);
    }
    let fc = name.get_char(0);
    let mut i: usize = 0;
    while i < n
        invariant
            n == name@.len(),
            0 <= i <= n,
            forall|k: int| 0 <= k < i ==> name_char_ok(#[trigger] name@[k]),
            name.spec_bytes().len() <= MAX_NAME_LEN,
        decreases n - i,
    {
        let c = name.get_char(i);
        if !(('a' <= c && c <= 'z') || ('0' <= c && c <= '9') || c == '_') {
            proof {
                lemma_first_bad_step(name@, i as int);
            }
            return Err(NameError::InvalidChar(c));
        }
        i = i + 1;
    }
    proof {
        lemma_first_bad_step(name@, n as int);
    }
    if !('a' <= fc && fc <= 'z') {
        return Err(NameError::InvalidStart(fc));
    }
    Ok(name)
}

/// The same check as `verify_name`, as the session applies it to a manifest.
pub fn package_verify_name(name: &str) -> (r: Result<&str, NameError>)
    ensures
        r matches Ok(n) ==> n == name,
        name_check(name@, name.spec_bytes().len()) is Ok <==> r is Ok,
        name_check(name@, name.spec_bytes().len()) matches Err(e) ==> r == Err::<&str, NameError>(e),
{
    verify_name(name)
}

/// Version `major.minor.patch`.
#[derive(Copy, Clone, PartialEq, Eq, Debug, Structural)]
pub struct Semver {
    major: u32,
    minor: u32,
    patch: u32,
}

/// Compatibility of two versions: the same major version, and for major 0 the same
/// minor version too.
pub open spec fn spec_compatible(a: Semver, b: Semver) -> bool {
    if a.parts().0 != b.parts().0 {
        false
    } else if a.parts().0 == 0 {
        a.parts().1 == b.parts().1
    } else {
        true
    }
}

impl Semver {
    /// Major, minor and patch version.
    pub closed spec fn parts(self) -> (u32, u32, u32) {
        (self.major, self.minor, self.patch)
    }

    pub fn new(major: u32, minor: u32, patch: u32) -> (r: Semver)
        ensures
            r.parts() == (major, minor, patch),
    {
        Semver { major, minor, patch }
    }

    pub fn major(&self) -> (r: u32)
        ensures
            r == self.parts().0,
    {
        self.major
    }

    pub fn minor(&self) -> (r: u32)
        ensures
            r == self.parts().1,
    {
        self.minor
    }

    pub fn patch(&self) -> (r: u32)
        ensures
            r == self.parts().2,
    {
        self.patch
    }

    pub fn compatible(&self, other: Semver) -> (r: bool)
        ensures
            r == spec_compatible(*self, other),
    {
        if self.major != other.major {
            false
        } else if self.major == 0 {
            self.minor == other.minor
        } else {
            true
        }
    }

    /// `major.minor.patch` in decimal.
    pub open spec fn text(self) -> Seq<char> {
        decimal(self.parts().0 as nat) + seq!['.'] + decimal(self.parts().1 as nat) + seq!['.']
            + decimal(self.parts().2 as nat)
    }

    /// The version written as `major.minor.patch`.
    pub fn to_string(&self) -> (r: String)
        ensures
            r@ == self.text(),
    {
        let mut s = String::new();
        push_decimal(&mut s, self.major);
        push_char(&mut s, '.');
        push_decimal(&mut s, self.minor);
        push_char(&mut s, '.');
        push_decimal(&mut s, self.patch);
        proof {
            assert(s@ =~= self.text());
        }
        s
    }
}

/// Why a number could not be read.
#[derive(Copy, Clone, PartialEq, Eq, Debug, Structural)]
pub enum IntError {
    /// Nothing to read.
    Empty,
    /// A character that is no decimal digit.
    InvalidDigit,
    /// More than `u32::MAX`.
    Overflow,
}

/// Why a version could not be read.
#[derive(Copy, Clone, PartialEq, Eq, Debug, Structural)]
pub enum SemverError {
    /// Not three parts separated by `.`.
    Format,
    Major(IntError),
    Minor(IntError),
    Patch(IntError),
}

/// Value of the decimal digits `s`.
pub open spec fn digits_value(s: Seq<char>) -> nat
    decreases s.len(),
{
    if s.len() == 0 {
        0
    } else {
        digits_value(s.drop_last()) * 10 + ((s.last() as u32) - 48) as nat
    }
}

/// The digits of a number, after its optional `+` sign.
pub open spec fn unsigned_digits(s: Seq<char>) -> Seq<char> {
    if s.len() > 0 && s[0] == '+' {
        s.subrange(1, s.len() as int)
    } else {
        s
    }
}

/// Reading `s` as a `u32` in decimal, with an optional `+` sign.
pub open spec fn parse_u32(s: Seq<char>) -> Result<u32, IntError> {
    let d = unsigned_digits(s);
    if s.len() == 0 {
        Err(IntError::Empty)
    } else if d.len() == 0 {
        Err(IntError::InvalidDigit)
    } else if exists|i: int| 0 <= i < d.len() && !is_digit_char(#[trigger] d[i]) {
        Err(IntError::InvalidDigit)
    } else if digits_value(d) > u32::MAX {
        Err(IntError::Overflow)
    } else {
        Ok(digits_value(d) as u32)
    }
}

proof fn lemma_digits_value_mono(s: Seq<char>, i: int)
    requires
        0 <= i <= s.len(),
        forall|k: int| 0 <= k < s.len() ==> is_digit_char(#[trigger] s[k]),
    ensures
        digits_value(s.subrange(0, i)) <= digits_value(s),
    decreases s.len() - i,
{
    if i < s.len() {
        lemma_digits_value_mono(s, i + 1);
        let t = s.subrange(0, i + 1);
        assert(t.drop_last() =~= s.subrange(0, i));
    } else {
        assert(s.subrange(0, i) =~= s);
    }
}

/// Reads the decimal number in `s[from..to]`, with an optional `+` sign, as std's
/// `u32` parsing does.
fn parse_part(s: &Vec<char>, from: usize, to: usize) -> (r: Result<u32, IntError>)
    requires
        from <= to <= s@.len(),
    ensures
        r == parse_u32(s@.subrange(from as int, to as int)),
{
    let ghost part = s@.subrange(from as int, to as int);
    let mut start = from;
    if start < to && s[start] == '+' {
        start = start + 1;
    }
    let ghost d = s@.subrange(start as int, to as int);
    assert(d =~= unsigned_digits(part));
    if start == to {
        if from == to {
            return Err(IntError::Empty);
        }
        return Err(IntError::InvalidDigit);
    }
    let mut i = start;
    while i < to
        invariant
            start <= i <= to <= s@.len(),
            d == s@.subrange(start as int, to as int),
            d == unsigned_digits(part),
            part == s@.subrange(from as int, to as int),
            forall|k: int| 0 <= k < i - start ==> is_digit_char(#[trigger] d[k]),
        decreases to - i,
    {
        let c = s[i];
        if !('0' <= c && c <= '9') {
            assert(!is_digit_char(d[i - start]));
            assert(exists|k: int| 0 <= k < d.len() && !is_digit_char(#[trigger] d[k]));
            assert(unsigned_digits(part).len() != 0);
            assert(parse_u32(part) == Err::<u32, IntError>(IntError::InvalidDigit));
            return Err(IntError::InvalidDigit);
        }
        i = i + 1;
    }
    let mut value: u64 = 0;
    let mut j = start;
    while j < to
        invariant
            start <= j <= to <= s@.len(),
            d == s@.subrange(start as int, to as int),
            d == unsigned_digits(part),
            part == s@.subrange(from as int, to as int),
            forall|k: int| 0 <= k < d.len() ==> is_digit_char(#[trigger] d[k]),
            value == digits_value(d.subrange(0, j - start)),
            value <= u32::MAX,
        decreases to - j,
    {
        let c = s[j];
        proof {
            assert(d.subrange(0, j + 1 - start).drop_last() =~= d.subrange(0, j - start));
            assert(d[j - start] == c);
        }
        let digit = (c as u32 - 48) as u64;
        value = value * 10 + digit;
        if value > u32::MAX as u64 {
            proof {
                lemma_digits_value_mono(d, j + 1 - start);
            }
            return Err(IntError::Overflow);
        }
        j = j + 1;
    }
    proof {
        assert(d.subrange(0, d.len() as int) =~= d);
    }
    Ok(value as u32)
}

/// Positions of the `.` characters in `s`.
pub open spec fn dot_positions(s: Seq<char>) -> Seq<int>
    decreases s.len(),
{
    if s.len() == 0 {
        seq![]
    } else if s.last() == '.' {
        dot_positions(s.drop_last()).push(s.len() - 1)
    } else {
        dot_positions(s.drop_last())
    }
}

/// Reading `s` as a version: exactly two dots, each part a `u32`.
pub open spec fn parse_semver(s: Seq<char>) -> Result<(u32, u32, u32), SemverError> {
    let dots = dot_positions(s);
    if dots.len() != 2 {
        Err(SemverError::Format)
    } else {
        let a = s.subrange(0, dots[0]);
        let b = s.subrange(dots[0] + 1, dots[1]);
        let c = s.subrange(dots[1] + 1, s.len() as int);
        match parse_u32(a) {
            Err(e) => Err(SemverError::Major(e)),
            Ok(major) => match parse_u32(b) {
                Err(e) => Err(SemverError::Minor(e)),
                Ok(minor) => match parse_u32(c) {
                    Err(e) => Err(SemverError::Patch(e)),
                    Ok(patch) => Ok((major, minor, patch)),
                },
            },
        }
    }
}

proof fn lemma_dots_bounds(s: Seq<char>)
    ensures
        forall|k: int| 0 <= k < dot_positions(s).len() ==> 0 <= #[trigger] dot_positions(s)[k] < s.len() && s[dot_positions(s)[k]] == '.',
        forall|k1: int, k2: int|
            0 <= k1 < k2 < dot_positions(s).len() ==> #[trigger] dot_positions(s)[k1] < #[trigger] dot_positions(s)[k2],
    decreases s.len(),
{
    if s.len() > 0 {
        let t = s.drop_last();
        lemma_dots_bounds(t);
        assert forall|k: int| 0 <= k < dot_positions(t).len() implies s[#[trigger] dot_positions(
            t,
        )[k]] == '.' by {
            assert(t[dot_positions(t)[k]] == '.');
        }
    }
}

impl Semver {
    /// Reads a version written as `major.minor.patch`.
    pub fn from_str(s: &str) -> (r: Result<Semver, SemverError>)
        ensures
            r matches Ok(v) ==> parse_semver(s@) == Ok::<(u32, u32, u32), SemverError>(v.parts()),
            r matches Err(e) ==> parse_semver(s@) == Err::<(u32, u32, u32), SemverError>(e),
    {
        let n = s.unicode_len();
        let mut chars: Vec<char> = Vec::new();
        let mut dots: Vec<usize> = Vec::new();
        let mut i: usize = 0;
        while i < n
            invariant
                n == s@.len(),
                0 <= i <= n,
                chars@ == s@.subrange(0, i as int),
                dots@.len() == dot_positions(s@.subrange(0, i as int)).len(),
                forall|k: int| 0 <= k < dots@.len() ==> #[trigger] dots@[k] as int == dot_positions(s@.subrange(0, i as int))[k],
            decreases n - i,
        {
            let c = s.get_char(i);
            proof {
                assert(s@.subrange(0, i + 1).drop_last() =~= s@.subrange(0, i as int));
            }
            if c == '.' {
                dots.push(i);
            }
            chars.push(c);
            i = i + 1;
        }
        proof {
            assert(s@.subrange(0, n as int) =~= s@);
            lemma_dots_bounds(s@);
        }
        if dots.len() != 2 {
            return Err(SemverError::Format);
        }
        let d0 = dots[0];
        let d1 = dots[1];
        let major = match parse_part(&chars, 0, d0) {
            Ok(v) => v,
            Err(e) => {
                return Err(SemverError::Major(e));
            },
        };
        let minor = match parse_part(&chars, d0 + 1, d1) {
            Ok(v) => v,
            Err(e) => {
                return Err(SemverError::Minor(e));
            },
        };
        let patch = match parse_part(&chars, d1 + 1, n) {
            Ok(v) => v,
            Err(e) => {
                return Err(SemverError::Patch(e));
            },
        };
        Ok(Semver { major, minor, patch })
    }
}

/// Whether a package is built into an executable or a library.
#[derive(Copy, Clone, PartialEq, Eq, Debug, Structural)]
pub enum PackageKind {
    Bin,
    Lib,
}

impl PackageKind {
    /// The name used in manifests.
    pub fn as_str(self) -> (r: &'static str)
        ensures
            self == PackageKind::Bin ==> r@ == "bin"@,
            self == PackageKind::Lib ==> r@ == "lib"@,
    {
        match self {
            PackageKind::Bin => "bin",
            PackageKind::Lib => "lib",
        }
    }

    /// The name used in messages.
    pub fn as_str_full(self) -> (r: &'static str)
        ensures
            self == PackageKind::Bin ==> r@ == "executable"@,
            self == PackageKind::Lib ==> r@ == "library"@,
    {
        match self {
            PackageKind::Bin => "executable",
            PackageKind::Lib => "library",
        }
    }

    /// The name used in messages, as the session gives it.
    pub fn full_name(self) -> (r: &'static str)
        ensures
            self == PackageKind::Bin ==> r@ == "executable"@,
            self == PackageKind::Lib ==> r@ == "library"@,
    {
        self.as_str_full()
    }
}

/// Where a package's repository is hosted.
#[derive(Copy, Clone, PartialEq, Eq, Debug, Structural)]
pub enum RepositoryHost {
    Github,
}

impl RepositoryHost {
    pub fn domain_name(self) -> (r: &'static str)
        ensures
            r@ == "github.com"@,
    {
        match self {
            RepositoryHost::Github => "github.com",
        }
    }
}

/// A repository: its host, the user that owns it and its name.
pub struct Repository {
    pub host: RepositoryHost,
    pub user: String,
    pub name: String,
}

/// The `[package]` table of a manifest.
pub struct PackageManifest {
    pub name: String,
    pub kind: PackageKind,
    pub version: Semver,
    pub authors: Option<Vec<String>>,
    pub repository: Option<Repository>,
    pub description: Option<String>,
}

/// The `[build]` table of a manifest.
pub struct BuildManifest {
    pub bin_name: Option<String>,
    pub nodefaultlib: Option<bool>,
    pub lib_paths: Option<Vec<String>>,
    pub links: Option<Vec<String>>,
}

/// A package manifest: the package, how to build it, and its dependencies by name.
pub struct Manifest {
    pub package: PackageManifest,
    pub build: BuildManifest,
    pub dependencies: BTreeMap<String, Semver>,
}

/// One version of a package in the package index.
pub struct IndexManifest {
    pub version: Semver,
    pub repository: Repository,
    pub dependencies: Vec<IndexDependency>,
}

/// A dependency of an indexed package, by name and version requirement.
pub struct IndexDependency {
    pub name: String,
    pub version_req: Semver,
}

/// Compatibility is reflexive and symmetric.
pub proof fn law_compatible_reflexive_symmetric(a: Semver, b: Semver)
    ensures
        spec_compatible(a, a),
        spec_compatible(a, b) == spec_compatible(b, a),
{
}

proof fn lemma_decimal_digits(n: nat)
    ensures
        decimal(n).len() > 0,
        forall|k: int| 0 <= k < decimal(n).len() ==> is_digit_char(#[trigger] decimal(n)[k]),
        digits_value(decimal(n)) == n,
    decreases n,
{
    let c = crate::strings::digit_char(n);
    assert(((n % 10 + 48) as u8) as u32 == n % 10 + 48);
    assert(c as u32 == n % 10 + 48);
    assert(is_digit_char(c));
    if n < 10 {
        assert(decimal(n) == seq![crate::strings::digit_char(n)]);
        assert(decimal(n).drop_last() =~= Seq::<char>::empty());
        assert(digits_value(Seq::<char>::empty()) == 0);
        assert(digits_value(decimal(n)) == digits_value(decimal(n).drop_last()) * 10 + ((decimal(n).last() as u32) - 48) as nat);
    } else {
        lemma_decimal_digits(n / 10);
        let d = decimal(n);
        assert(d.drop_last() == decimal(n / 10));
        assert(d.last() == crate::strings::digit_char(n % 10));
        assert(crate::strings::digit_char(n % 10) as u32 == n % 10 + 48);
        assert(digits_value(d) == digits_value(decimal(n / 10)) * 10 + ((d.last() as u32) - 48) as nat);
        assert(n == (n / 10) * 10 + n % 10);
        assert forall|k: int| 0 <= k < d.len() implies is_digit_char(#[trigger] d[k]) by {
            if k < d.len() - 1 {
                assert(d[k] == decimal(n / 10)[k]);
            }
        }
    }
}

proof fn lemma_no_dots(s: Seq<char>)
    requires
        forall|k: int| 0 <= k < s.len() ==> is_digit_char(#[trigger] s[k]),
    ensures
        dot_positions(s).len() == 0,
    decreases s.len(),
{
    if s.len() > 0 {
        assert(is_digit_char(s.last()));
        lemma_no_dots(s.drop_last());
    }
}

proof fn lemma_dots_concat(a: Seq<char>, b: Seq<char>)
    ensures
        dot_positions(a + b) == dot_positions(a) + dot_positions(b).map_values(|p: int| p + a.len()),
    decreases b.len(),
{
    if b.len() == 0 {
        assert(a + b =~= a);
        assert(dot_positions(b).map_values(|p: int| p + a.len()) =~= Seq::<int>::empty());
        assert(dot_positions(a) + Seq::<int>::empty() =~= dot_positions(a));
    } else {
        lemma_dots_concat(a, b.drop_last());
        assert((a + b).drop_last() =~= a + b.drop_last());
        assert((a + b).last() == b.last());
        if b.last() == '.' {
            assert(dot_positions(b).map_values(|p: int| p + a.len()) =~= dot_positions(b.drop_last()).map_values(|p: int| p + a.len()).push(b.len() - 1 + a.len()));
            assert(dot_positions(a + b) =~= dot_positions(a) + dot_positions(b).map_values(|p: int| p + a.len()));
        } else {
            assert(dot_positions(b).map_values(|p: int| p + a.len()) =~= dot_positions(b.drop_last()).map_values(|p: int| p + a.len()));
        }
    }
}

/// A version written out by `to_string` reads back as itself with `from_str`.
pub proof fn law_semver_text_roundtrip(v: Semver)
    ensures
        parse_semver(v.text()) == Ok::<(u32, u32, u32), SemverError>(v.parts()),
{
    let a = decimal(v.parts().0 as nat);
    let b = decimal(v.parts().1 as nat);
    let c = decimal(v.parts().2 as nat);
    lemma_decimal_digits(v.parts().0 as nat);
    lemma_decimal_digits(v.parts().1 as nat);
    lemma_decimal_digits(v.parts().2 as nat);
    lemma_no_dots(a);
    lemma_no_dots(b);
    lemma_no_dots(c);
    let dot = seq!['.'];
    assert(dot.drop_last() =~= Seq::<char>::empty());
    assert(dot_positions(dot.drop_last()) =~= Seq::<int>::empty());
    assert(dot_positions(dot) =~= seq![0int]);
    let s1 = a + dot;
    lemma_dots_concat(a, dot);
    assert(dot_positions(s1) =~= seq![a.len() as int]);
    let s2 = s1 + b;
    lemma_dots_concat(s1, b);
    assert(dot_positions(s2) =~= seq![a.len() as int]);
    let s3 = s2 + dot;
    lemma_dots_concat(s2, dot);
    assert(dot_positions(s3) =~= seq![a.len() as int, (a.len() + 1 + b.len()) as int]);
    let s = s3 + c;
    lemma_dots_concat(s3, c);
    assert(s == v.text());
    let dots = dot_positions(s);
    assert(dots =~= seq![a.len() as int, (a.len() + 1 + b.len()) as int]);
    assert(s.subrange(0, dots[0]) =~= a);
    assert(s.subrange(dots[0] + 1, dots[1]) =~= b);
    assert(s.subrange(dots[1] + 1, s.len() as int) =~= c);
    assert(unsigned_digits(a) == a) by {
        assert(is_digit_char(a[0]));
    }
    assert(unsigned_digits(b) == b) by {
        assert(is_digit_char(b[0]));
    }
    assert(unsigned_digits(c) == c) by {
        assert(is_digit_char(c[0]));
    }
}

} // verus!
