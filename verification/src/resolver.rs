use vstd::prelude::*;
use vstd::string::StrSliceExecFns;
use vstd::string::StringExecFns;
use vstd::string::is_ascii;
use crate::package::Semver;

verus! {

/// Why a dependency could not be resolved.
#[derive(Copy, Clone, PartialEq, Eq, Debug, Structural)]
pub enum ResolveError {
    /// The package index has no entry for the package.
    NotInIndex,
    /// The package was already selected, at `existing`.
    VersionConflict { existing: Semver, selected: Semver },
    /// The package index lists no such version.
    VersionNotFound,
}

/// Position of the first `v` in `versions`, if any.
pub open spec fn first_index_of(versions: Seq<Semver>, v: Semver) -> Option<int>
    decreases versions.len(),
{
    if versions.len() == 0 {
        None
    } else if first_index_of(versions.drop_last(), v) is Some {
        first_index_of(versions.drop_last(), v)
    } else if versions.last() == v {
        Some(versions.len() - 1)
    } else {
        None
    }
}

/// The packages chosen so far, each by name with its version.
pub struct Resolver {
    selected: Vec<(String, Semver)>,
}

/// Position of the package `name` in `sel`, if it was selected.
pub open spec fn selected_index(sel: Seq<(Seq<char>, Semver)>, name: Seq<char>) -> Option<int>
    decreases sel.len(),
{
    if sel.len() == 0 {
        None
    } else if selected_index(sel.drop_last(), name) is Some {
        selected_index(sel.drop_last(), name)
    } else if sel.last().0 == name {
        Some(sel.len() - 1)
    } else {
        None
    }
}

/// What selecting `version` of package `name` gives, with `index` the versions the
/// package index lists for it (none when it has no entry).
pub open spec fn select_result(
    sel: Seq<(Seq<char>, Semver)>,
    name: Seq<char>,
    version: Semver,
    index: Option<Seq<Semver>>,
) -> Result<Semver, ResolveError> {
    match index {
        None => Err(ResolveError::NotInIndex),
        Some(vs) => match first_index_of(vs, version) {
            None => Err(ResolveError::VersionNotFound),
            Some(i) => match selected_index(sel, name) {
                Some(j) => Err(ResolveError::VersionConflict { existing: sel[j].1, selected: vs[i] }),
                None => Ok(vs[i]),
            },
        },
    }
}

impl Resolver {
    pub closed spec fn view(&self) -> Seq<(Seq<char>, Semver)> {
        Seq::new(self.selected@.len(), |i: int| (self.selected@[i].0@, self.selected@[i].1))
    }

    /// No package is selected twice.
    pub open spec fn wf(&self) -> bool {
        forall|i: int, j: int|
            0 <= i < j < self.view().len() ==> #[trigger] self.view()[i].0 != #[trigger] self.view()[j].0
    }

    pub fn new() -> (r: Resolver)
        ensures
            r.wf(),
            r.view().len() == 0,
    {
        Resolver { selected: Vec::new() }
    }

    /// Number of selected packages.
    pub fn count(&self) -> (r: usize)
        ensures
            r == self.view().len(),
    {
        self.selected.len()
    }

    /// The selected version of package `name`, if any.
    pub fn selected(&self, name: &str) -> (r: Option<Semver>)
        ensures
            r == (match selected_index(self.view(), name@) {
                Some(j) => Some(self.view()[j].1),
                None => None::<Semver>,
            }),
    {
        let key = String::from_str(name);
        let mut i: usize = 0;
        while i < self.selected.len()
            invariant
                key@ == name@,
                0 <= i <= self.selected@.len(),
                selected_index(self.view().subrange(0, i as int), name@) is None,
            decreases self.selected@.len() - i,
        {
            proof {
                assert(self.view().subrange(0, i + 1).drop_last() =~= self.view().subrange(
                    0,
                    i as int,
                ));
            }
            if self.selected[i].0 == key {
                proof {
                    lemma_selected_prefix(self.view(), name@, i + 1);
                }
                return Some(self.selected[i].1);
            }
            i = i + 1;
        }
        proof {
            assert(self.view().subrange(0, i as int) =~= self.view());
        }
        None
    }

    /// Selects `version` of the dependency `name`: the first entry of `index` (the
    /// versions that the package index lists for it, none where it has no entry) equal
    /// to it, unless the package was selected already.
    pub fn select(&mut self, name: &str, version: Semver, index: Option<&[Semver]>) -> (r: Result<
        (),
        ResolveError,
    >)
        requires
            old(self).wf(),
        ensures
            final(self).wf(),
            match select_result(
                old(self).view(),
                name@,
                version,
                match index {
                    Some(vs) => Some(vs@),
                    None => None::<Seq<Semver>>,
                },
            ) {
                Ok(v) => r is Ok && final(self).view() == old(self).view().push((name@, v)),
                Err(e) => r == Err::<(), ResolveError>(e) && final(self).view() == old(self).view(),
            },
    {
        let vs = match index {
            None => {
                return Err(ResolveError::NotInIndex);
            },
            Some(vs) => vs,
        };
        let v = match first_index(vs, version) {
            None => {
                return Err(ResolveError::VersionNotFound);
            },
            Some(i) => vs[i],
        };
        match self.selected(name) {
            Some(existing) => Err(ResolveError::VersionConflict { existing, selected: v }),
            None => {
                proof {
                    lemma_not_selected(old(self).view(), name@);
                }
                self.selected.push((String::from_str(name), v));
                proof {
                    assert(self.view() =~= old(self).view().push((name@, v)));
                }
                Ok(())
            },
        }
    }
}

/// Position of the first `v` in `vs`.
fn first_index(vs: &[Semver], v: Semver) -> (r: Option<usize>)
    ensures
        r matches Some(i) ==> first_index_of(vs@, v) == Some(i as int) && i < vs@.len()
            && vs@[i as int] == v,
        r is None ==> first_index_of(vs@, v) is None,
{
    let mut i: usize = 0;
    while i < vs.len()
        invariant
            0 <= i <= vs@.len(),
            first_index_of(vs@.subrange(0, i as int), v) is None,
        decreases vs@.len() - i,
    {
        proof {
            assert(vs@.subrange(0, i + 1).drop_last() =~= vs@.subrange(0, i as int));
        }
        if vs[i] == v {
            proof {
                lemma_first_prefix(vs@, v, i + 1);
            }
            return Some(i);
        }
        i = i + 1;
    }
    proof {
        assert(vs@.subrange(0, vs@.len() as int) =~= vs@);
    }
    None
}

proof fn lemma_not_selected(sel: Seq<(Seq<char>, Semver)>, name: Seq<char>)
    requires
        selected_index(sel, name) is None,
    ensures
        forall|i: int| 0 <= i < sel.len() ==> (#[trigger] sel[i]).0 != name,
    decreases sel.len(),
{
    if sel.len() > 0 {
        lemma_not_selected(sel.drop_last(), name);
        assert forall|i: int| 0 <= i < sel.len() implies (#[trigger] sel[i]).0 != name by {
            if i < sel.len() - 1 {
                assert(sel[i] == sel.drop_last()[i]);
            }
        }
    }
}

proof fn lemma_first_prefix(vs: Seq<Semver>, v: Semver, n: int)
    requires
        0 < n <= vs.len(),
        first_index_of(vs.subrange(0, n - 1), v) is None,
        vs[n - 1] == v,
    ensures
        first_index_of(vs, v) == Some(n - 1),
    decreases vs.len() - n,
{
    if n == vs.len() {
        assert(vs.drop_last() =~= vs.subrange(0, n - 1));
    } else {
        assert(vs.drop_last().subrange(0, n - 1) =~= vs.subrange(0, n - 1));
        lemma_first_prefix(vs.drop_last(), v, n);
    }
}

proof fn lemma_selected_prefix(sel: Seq<(Seq<char>, Semver)>, name: Seq<char>, n: int)
    requires
        0 < n <= sel.len(),
        selected_index(sel.subrange(0, n - 1), name) is None,
        sel[n - 1].0 == name,
    ensures
        selected_index(sel, name) == Some(n - 1),
    decreases sel.len() - n,
{
    if n == sel.len() {
        assert(sel.drop_last() =~= sel.subrange(0, n - 1));
    } else {
        assert(sel.drop_last().subrange(0, n - 1) =~= sel.subrange(0, n - 1));
        lemma_selected_prefix(sel.drop_last(), name, n);
    }
}

/// Path, as directory names under the index directory, of the index file of the
/// package `name`: by length for names of up to three characters, else by the first
/// two pairs of characters.
pub open spec fn registry_path(name: Seq<char>) -> Seq<Seq<char>> {
    if name.len() == 1 {
        seq!["1"@, name]
    } else if name.len() == 2 {
        seq!["2"@, name]
    } else if name.len() == 3 {
        seq!["3"@, name.subrange(0, 1), name]
    } else {
        seq![name.subrange(0, 2), name.subrange(2, 4), name]
    }
}

/// The directory names, under the index directory, of the index file of `name`.
pub fn registry_package_path(package_name: &str) -> (r: Vec<String>)
    requires
        package_name@.len() > 0,
        is_ascii(package_name),
    ensures
        r@.len() == registry_path(package_name@).len(),
        forall|i: int| 0 <= i < r@.len() ==> #[trigger] r@[i]@ == registry_path(package_name@)[i],
{
    let n = package_name.unicode_len();
    let mut path: Vec<String> = Vec::new();
    if n == 1 {
        path.push(String::from_str("1"));
        path.push(String::from_str(package_name));
    } else if n == 2 {
        path.push(String::from_str("2"));
        path.push(String::from_str(package_name));
    } else if n == 3 {
        path.push(String::from_str("3"));
        path.push(String::from_str(package_name.substring_ascii(0, 1)));
        path.push(String::from_str(package_name));
    } else {
        path.push(String::from_str(package_name.substring_ascii(0, 2)));
        path.push(String::from_str(package_name.substring_ascii(2, 4)));
        path.push(String::from_str(package_name));
    }
    proof {
        reveal_strlit("1");
        reveal_strlit("2");
        reveal_strlit("3");
    }
    path
}

} // verus!
