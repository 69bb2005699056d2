use vstd::prelude::*;

verus! {

/// Pool of distinct strings; interning a string gives the index of its single copy.
pub struct InternPool {
    strings: Vec<Vec<char>>,
}

impl InternPool {
    /// The interned strings, by index.
    pub closed spec fn view_strings(&self) -> Seq<Seq<char>> {
        Seq::new(self.strings@.len(), |i: int| self.strings@[i]@)
    }

    /// No string is stored twice.
    pub open spec fn wf(&self) -> bool {
        forall|i: int, j: int|
            0 <= i < j < self.view_strings().len() ==> #[trigger] self.view_strings()[i]
                != #[trigger] self.view_strings()[j]
    }

    pub fn new() -> (r: InternPool)
        ensures
            r.wf(),
            r.view_strings().len() == 0,
    {
        InternPool { strings: Vec::new() }
    }

    pub fn len(&self) -> (r: usize)
        ensures
            r == self.view_strings().len(),
    {
        self.strings.len()
    }

    /// Index of `string` in the pool, adding it when it is not there yet.
    pub fn intern(&mut self, string: &[char]) -> (r: u32)
        requires
            old(self).wf(),
            old(self).view_strings().len() < u32::MAX,
        ensures
            final(self).wf(),
            r < final(self).view_strings().len(),
            final(self).view_strings()[r as int] == string@,
            old(self).view_strings().contains(string@) ==> final(self).view_strings() == old(
                self,
            ).view_strings(),
            !old(self).view_strings().contains(string@) ==> final(self).view_strings() == old(
                self,
            ).view_strings().push(string@),
    {
        let n = self.strings.len();
        let mut i: usize = 0;
        while i < n
            invariant
                n == self.strings@.len(),
                self.wf(),
                self.view_strings().len() < u32::MAX,
                i <= n,
                forall|k: int| 0 <= k < i ==> self.view_strings()[k] != string@,
            decreases n - i,
        {
            if chars_eq(self.strings[i].as_slice(), string) {
                proof {
                    assert(self.view_strings()[i as int] == string@);
                }
                return i as u32;
            }
            i = i + 1;
        }
        let ghost old_view = self.view_strings();
        proof {
            assert(!old_view.contains(string@));
        }
        self.strings.push(copy_chars(string));
        proof {
            assert(self.view_strings() =~= old_view.push(string@));
        }
        n as u32
    }

    /// The string stored at `id`.
    pub fn get(&self, id: u32) -> (r: &[char])
        requires
            id < self.view_strings().len(),
        ensures
            r@ == self.view_strings()[id as int],
    {
        self.strings[id as usize].as_slice()
    }
}

/// In a well-formed pool each string has a single index: interning a string again
/// gives the index it got the first time.
pub proof fn law_intern_index_unique(pool: &InternPool, i: int, j: int)
    requires
        pool.wf(),
        0 <= i < pool.view_strings().len(),
        0 <= j < pool.view_strings().len(),
        pool.view_strings()[i] == pool.view_strings()[j],
    ensures
        i == j,
{
    if i < j {
        assert(pool.view_strings()[i] != pool.view_strings()[j]);
    } else if j < i {
        assert(pool.view_strings()[j] != pool.view_strings()[i]);
    }
}

fn copy_chars(s: &[char]) -> (r: Vec<char>)
    ensures
        r@ == s@,
{
    let mut r: Vec<char> = Vec::with_capacity(s.len());
    let mut i: usize = 0;
    while i < s.len()
        invariant
            i <= s@.len(),
            r@ == s@.subrange(0, i as int),
        decreases s@.len() - i,
    {
        r.push(s[i]);
        i = i + 1;
    }
    proof {
        assert(s@.subrange(0, i as int) =~= s@);
    }
    r
}

fn chars_eq(a: &[char], b: &[char]) -> (r: bool)
    ensures
        r == (a@ == b@),
{
    if a.len() != b.len() {
        return false;
    }
    let mut i: usize = 0;
    while i < a.len()
        invariant
            a@.len() == b@.len(),
            i <= a@.len(),
            forall|k: int| 0 <= k < i ==> a@[k] == b@[k],
        decreases a@.len() - i,
    {
        if a[i] != b[i] {
            return false;
        }
        i = i + 1;
    }
    proof {
        assert(a@ =~= b@);
    }
    true
}

} // verus!
