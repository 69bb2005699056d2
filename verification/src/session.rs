use vstd::prelude::*;
use vstd::string::StringSliceAdditionalSpecFns;
use crate::ids::{ModuleID, NameID, PackageID};
use crate::intern::InternPool;
use crate::package::Manifest;
use crate::strings::{push_chars, push_str};
use crate::text::{find_line_ranges, is_line_partition, TextRange};
use crate::error::ParseErrors;
use crate::syntax::parse_tree_complete;
use crate::tree::SyntaxTree;

verus! {

/// Index of a file in the `Vfs`.
#[derive(Copy, Clone, PartialEq, Eq, Debug, Hash, Structural)]
pub struct FileID(pub u32);

impl FileID {
    pub fn index(self) -> (r: usize)
        ensures
            r == self.0,
    {
        self.0 as usize
    }
}

/// A source file: its path, its text and the ranges of its lines.
pub struct FileData {
    pub version: u32,
    pub path: String,
    pub source: String,
    pub line_ranges: Vec<TextRange>,
}

/// A path from the root of the file system.
pub open spec fn is_absolute_path(p: Seq<char>) -> bool {
    p.len() > 0 && p[0] == '/'
}

/// A component of a path spelled by the bytes `cur`, as it goes into the path's list of
/// components after the first: none for an empty one or for `.`.
pub open spec fn kept_component(cur: Seq<u8>) -> Seq<Seq<u8>> {
    if cur.len() == 0 || cur == seq![46u8] {
        Seq::empty()
    } else {
        seq![cur]
    }
}

/// The path bytes `b` read so far: the components found, the bytes of the one being
/// read, and whether no `/` came yet.
pub open spec fn components_fold(b: Seq<u8>) -> (Seq<Seq<u8>>, Seq<u8>, bool)
    decreases b.len(),
{
    if b.len() == 0 {
        (Seq::empty(), Seq::empty(), true)
    } else {
        let (acc, cur, first) = components_fold(b.drop_last());
        let c = b.last();
        if c != 47u8 {
            (acc, cur.push(c), first)
        } else if first {
            if cur.len() == 0 {
                (seq![seq![47u8]], Seq::empty(), false)
            } else {
                (seq![cur], Seq::empty(), false)
            }
        } else {
            (acc + kept_component(cur), Seq::empty(), false)
        }
    }
}

/// The components of path `p`: a leading `/` for the root, then the parts between
/// slashes, without empty parts and without `.` but as the first part of a relative
/// path. Two spellings of one path, such as `/a//b/` and `/a/./b`, have the same
/// components.
pub open spec fn path_components(p: Seq<char>) -> Seq<Seq<u8>> {
    let (acc, cur, first) = components_fold(vstd::utf8::encode_utf8(p));
    if first {
        if cur.len() == 0 {
            Seq::empty()
        } else {
            seq![cur]
        }
    } else {
        acc + kept_component(cur)
    }
}

/// The byte strings held by `v`.
pub open spec fn byte_strings(v: Seq<Vec<u8>>) -> Seq<Seq<u8>> {
    Seq::new(v.len(), |k: int| v[k]@)
}

/// The components of `path`.
fn components_of(path: &str) -> (r: Vec<Vec<u8>>)
    ensures
        byte_strings(r@) == path_components(path@),
{
    let bytes = path.as_bytes();
    let mut acc: Vec<Vec<u8>> = Vec::new();
    let mut cur: Vec<u8> = Vec::new();
    let mut first = true;
    let mut i: usize = 0;
    while i < bytes.len()
        invariant
            bytes@ == vstd::utf8::encode_utf8(path@),
            0 <= i <= bytes@.len(),
            (byte_strings(acc@), cur@, first) == components_fold(bytes@.subrange(0, i as int)),
            first ==> acc@.len() == 0,
        decreases bytes@.len() - i,
    {
        let c = bytes[i];
        let ghost pre = bytes@.subrange(0, i as int);
        proof {
            let s1 = bytes@.subrange(0, i + 1);
            assert(s1.drop_last() =~= pre);
            assert(s1.last() == c);
        }
        if c != 47u8 {
            cur.push(c);
        } else if first {
            let ghost a0 = acc@;
            if cur.len() == 0 {
                let mut root: Vec<u8> = Vec::new();
                root.push(47u8);
                acc = Vec::new();
                acc.push(root);
            } else {
                let part = cur;
                acc = Vec::new();
                acc.push(part);
                cur = Vec::new();
            }
            proof {
                assert(byte_strings(acc@) =~= components_fold(bytes@.subrange(0, i + 1)).0);
            }
            cur = Vec::new();
            first = false;
        } else {
            let ghost a0 = byte_strings(acc@);
            let n = cur.len();
            let is_dot = n == 1 && cur[0] == 46u8;
            if n > 0 && !is_dot {
                let part = cur;
                acc.push(part);
                proof {
                    assert(part@ != seq![46u8]) by {
                        if part@ == seq![46u8] {
                            assert(part@[0] == 46u8);
                        }
                    }
                    assert(byte_strings(acc@) =~= a0 + kept_component(part@));
                }
            } else {
                proof {
                    if n == 1 {
                        assert(cur@ =~= seq![46u8]);
                    }
                    assert(byte_strings(acc@) =~= a0 + kept_component(cur@));
                }
            }
            cur = Vec::new();
        }
        i = i + 1;
    }
    proof {
        assert(bytes@.subrange(0, bytes@.len() as int) =~= bytes@);
    }
    if first {
        let ghost c0 = cur@;
        if cur.len() > 0 {
            acc.push(cur);
            proof {
                assert(byte_strings(acc@) =~= seq![c0]);
            }
        } else {
            proof {
                assert(byte_strings(acc@) =~= Seq::<Seq<u8>>::empty());
            }
        }
    } else {
        let n = cur.len();
        let is_dot = n == 1 && cur[0] == 46u8;
        let ghost a0 = byte_strings(acc@);
        let ghost c0 = cur@;
        if n > 0 && !is_dot {
            acc.push(cur);
            proof {
                assert(c0 != seq![46u8]) by {
                    if c0 == seq![46u8] {
                        assert(c0[0] == 46u8);
                    }
                }
            }
        } else {
            proof {
                if n == 1 {
                    assert(c0 =~= seq![46u8]);
                }
            }
        }
        proof {
            assert(byte_strings(acc@) =~= a0 + kept_component(c0));
        }
    }
    acc
}

/// Whether `a` and `b` hold the same byte strings.
fn same_byte_strings(a: &Vec<Vec<u8>>, b: &Vec<Vec<u8>>) -> (r: bool)
    ensures
        r == (byte_strings(a@) == byte_strings(b@)),
{
    if a.len() != b.len() {
        proof {
            assert(byte_strings(a@).len() != byte_strings(b@).len());
        }
        return false;
    }
    let mut k: usize = 0;
    while k < a.len()
        invariant
            a@.len() == b@.len(),
            0 <= k <= a@.len(),
            forall|q: int| 0 <= q < k ==> a@[q]@ == b@[q]@,
        decreases a@.len() - k,
    {
        let x = &a[k];
        let y = &b[k];
        if x.len() != y.len() {
            proof {
                assert(byte_strings(a@)[k as int] != byte_strings(b@)[k as int]);
            }
            return false;
        }
        let mut m: usize = 0;
        while m < x.len()
            invariant
                x@.len() == y@.len(),
                0 <= m <= x@.len(),
                a@.len() == b@.len(),
                0 <= k < a@.len(),
                x@ == a@[k as int]@,
                y@ == b@[k as int]@,
                forall|q: int| 0 <= q < m ==> x@[q] == y@[q],
            decreases x@.len() - m,
        {
            if x[m] != y[m] {
                proof {
                    assert(byte_strings(a@)[k as int] == x@);
                    assert(byte_strings(b@)[k as int] == y@);
                    assert(x@[m as int] != y@[m as int]);
                }
                return false;
            }
            m = m + 1;
        }
        proof {
            assert(x@ =~= y@);
        }
        k = k + 1;
    }
    proof {
        assert(byte_strings(a@) =~= byte_strings(b@));
    }
    true
}

/// The open source files, each by its path. Paths are compared by their components, so
/// two spellings of one path, such as `/a//b` and `/a/b`, name one file.
pub struct Vfs {
    files: Vec<FileData>,
}

impl Vfs {
    /// The files, by id.
    pub closed spec fn files_view(&self) -> Seq<FileData> {
        self.files@
    }

    pub open spec fn paths(&self) -> Seq<Seq<char>> {
        Seq::new(self.files_view().len(), |i: int| self.files_view()[i].path@)
    }

    pub open spec fn sources(&self) -> Seq<Seq<char>> {
        Seq::new(self.files_view().len(), |i: int| self.files_view()[i].source@)
    }

    pub open spec fn versions(&self) -> Seq<u32> {
        Seq::new(self.files_view().len(), |i: int| self.files_view()[i].version)
    }

    /// No path is open twice, and every file's line ranges are those of its text.
    pub closed spec fn wf(&self) -> bool {
        &&& forall|i: int, j: int|
            0 <= i < j < self.files@.len() ==> path_components(#[trigger] self.files@[i].path@)
                != path_components(#[trigger] self.files@[j].path@)
        &&& forall|i: int|
            0 <= i < self.files@.len() ==> is_line_partition(
                (#[trigger] self.files@[i]).line_ranges@,
                vstd::utf8::encode_utf8(self.files@[i].source@),
            )
        &&& self.files@.len() < u32::MAX
    }

    /// Every file of `old` is still there, under the same id and path.
    pub open spec fn keeps_files(&self, old: &Vfs) -> bool {
        &&& old.paths().len() <= self.paths().len()
        &&& forall|i: int| 0 <= i < old.paths().len() ==> #[trigger] self.paths()[i] == old.paths()[i]
    }

    /// No two files of a well-formed `Vfs` have the same path, even spelled otherwise.
    pub proof fn lemma_paths_distinct(&self)
        requires
            self.wf(),
        ensures
            forall|i: int, j: int|
                0 <= i < j < self.paths().len() ==> path_components(#[trigger] self.paths()[i])
                    != path_components(#[trigger] self.paths()[j]),
    {
        assert forall|i: int, j: int| 0 <= i < j < self.paths().len() implies path_components(#[trigger] self.paths()[i])
            != path_components(#[trigger] self.paths()[j]) by {
            assert(self.paths()[i] == self.files@[i].path@);
            assert(self.paths()[j] == self.files@[j].path@);
        }
    }

    pub fn new() -> (r: Vfs)
        ensures
            r.wf(),
            r.paths().len() == 0,
    {
        Vfs { files: Vec::new() }
    }

    pub fn file_count(&self) -> (r: usize)
        ensures
            r == self.paths().len(),
    {
        self.files.len()
    }

    pub fn file(&self, file_id: FileID) -> (r: &FileData)
        requires
            file_id.0 < self.paths().len(),
        ensures
            r.path@ == self.paths()[file_id.0 as int],
            r.source@ == self.sources()[file_id.0 as int],
            r.version == self.versions()[file_id.0 as int],
            self.wf() ==> is_line_partition(r.line_ranges@, vstd::utf8::encode_utf8(r.source@)),
    {
        &self.files[file_id.index()]
    }

    /// The file `file_id`, to change in place. The caller keeps its line ranges those of
    /// its text.
    pub fn file_mut(&mut self, file_id: FileID) -> (r: &mut FileData)
        requires
            file_id.0 < old(self).paths().len(),
        ensures
            r.path@ == old(self).paths()[file_id.0 as int],
            r.source@ == old(self).sources()[file_id.0 as int],
            r.version == old(self).versions()[file_id.0 as int],
            final(self).files_view() == old(self).files_view().update(file_id.0 as int, *final(r)),
    {
        &mut self.files[file_id.index()]
    }

    /// Whether some file is open at `p`, however spelled.
    pub open spec fn has_path(&self, p: Seq<char>) -> bool {
        exists|i: int| 0 <= i < self.paths().len() && path_components(#[trigger] self.paths()[i]) == path_components(p)
    }

    /// The file open at `path`, however spelled, if any.
    pub fn path_to_file_id(&self, path: &str) -> (r: Option<FileID>)
        requires
            self.wf(),
        ensures
            r matches Some(id) ==> id.0 < self.paths().len() && path_components(self.paths()[id.0 as int])
                == path_components(path@),
            r is None ==> !self.has_path(path@),
    {
        let key = components_of(path);
        let mut i: usize = 0;
        while i < self.files.len()
            invariant
                byte_strings(key@) == path_components(path@),
                self.wf(),
                0 <= i <= self.files@.len(),
                forall|k: int| 0 <= k < i ==> path_components(#[trigger] self.files@[k].path@) != path_components(path@),
            decreases self.files@.len() - i,
        {
            let comps = components_of(self.files[i].path.as_str());
            if same_byte_strings(&comps, &key) {
                proof {
                    assert(self.paths()[i as int] == self.files@[i as int].path@);
                }
                return Some(FileID(i as u32));
            }
            i = i + 1;
        }
        proof {
            if self.has_path(path@) {
                let k = choose|k: int| 0 <= k < self.paths().len() && path_components(#[trigger] self.paths()[k]) == path_components(path@);
                assert(self.files@[k].path@ == self.paths()[k]);
            }
        }
        None
    }

    /// Opens the file at `path` with the text `source`: a file already open there gets
    /// the new text and keeps its id, else a new file is added at version 1. A new path
    /// must be absolute.
    pub fn open(&mut self, path: &str, source: String) -> (r: FileID)
        requires
            old(self).wf(),
            old(self).paths().len() + 1 < u32::MAX,
            vstd::utf8::encode_utf8(source@).len() <= u32::MAX,
            !old(self).has_path(path@) ==> is_absolute_path(path@),
        ensures
            final(self).wf(),
            r.0 < final(self).paths().len(),
            path_components(final(self).paths()[r.0 as int]) == path_components(path@),
            final(self).sources()[r.0 as int] == source@,
            forall|i: int|
                0 <= i < final(self).paths().len() && path_components(#[trigger] final(self).paths()[i])
                    == path_components(path@) ==> i == r.0,
            old(self).has_path(path@) ==> r.0 < old(self).paths().len()
                && path_components(old(self).paths()[r.0 as int]) == path_components(path@),
            !old(self).has_path(path@) ==> r.0 == old(self).paths().len(),
            final(self).keeps_files(old(self)),
            old(self).has_path(path@) ==> final(self).paths() == old(self).paths()
                && final(self).versions() == old(self).versions()
                && final(self).sources() == old(self).sources().update(r.0 as int, source@),
            !old(self).has_path(path@) ==> final(self).paths() == old(self).paths().push(
                path@,
            ) && final(self).versions() == old(self).versions().push(1)
                && final(self).sources() == old(self).sources().push(source@),
    {
        match self.path_to_file_id(path) {
            Some(file_id) => {
                let ghost v0 = *self;
                let i = file_id.index();
                let mut line_ranges: Vec<TextRange> = Vec::new();
                find_line_ranges(&mut line_ranges, source.as_str());
                let old_file = &self.files[i];
                let file = FileData {
                    version: old_file.version,
                    path: old_file.path.clone(),
                    source,
                    line_ranges,
                };
                self.files.set(i, file);
                proof {
                    assert(self.paths() =~= v0.paths());
                    assert(self.versions() =~= v0.versions());
                    assert(self.sources() =~= v0.sources().update(i as int, source@));
                    assert forall|a: int, b: int|
                        0 <= a < b < self.files@.len() implies path_components(#[trigger] self.files@[a].path@)
                        != path_components(#[trigger] self.files@[b].path@) by {
                        assert(self.paths()[a] == v0.paths()[a]);
                        assert(self.paths()[b] == v0.paths()[b]);
                        assert(v0.paths()[a] == v0.files@[a].path@);
                        assert(v0.paths()[b] == v0.files@[b].path@);
                    }
                    assert forall|k: int|
                        0 <= k < self.paths().len() && path_components(#[trigger] self.paths()[k])
                            == path_components(path@) implies k == i by {
                        if k != i {
                            assert(self.paths()[k] == v0.files@[k].path@);
                            assert(self.paths()[i as int] == v0.files@[i as int].path@);
                            if k < i {
                                assert(path_components(v0.files@[k].path@) != path_components(v0.files@[i as int].path@));
                            } else {
                                assert(path_components(v0.files@[i as int].path@) != path_components(v0.files@[k].path@));
                            }
                        }
                    }
                }
                file_id
            },
            None => {
                let ghost v0 = *self;
                let mut line_ranges: Vec<TextRange> = Vec::new();
                find_line_ranges(&mut line_ranges, source.as_str());
                let file = FileData {
                    version: 1,
                    path: String::from_str(path),
                    source,
                    line_ranges,
                };
                let file_id = FileID(self.files.len() as u32);
                self.files.push(file);
                proof {
                    assert(self.paths() =~= v0.paths().push(path@));
                    assert(self.versions() =~= v0.versions().push(1));
                    assert(self.sources() =~= v0.sources().push(source@));
                    assert forall|a: int, b: int|
                        0 <= a < b < self.files@.len() implies path_components(#[trigger] self.files@[a].path@)
                        != path_components(#[trigger] self.files@[b].path@) by {
                        assert(v0.paths()[a] == self.files@[a].path@);
                        if b == self.files@.len() - 1 {
                            assert(self.files@[b].path@ == path@);
                        } else {
                            assert(v0.files@[a] == self.files@[a]);
                            assert(v0.files@[b] == self.files@[b]);
                        }
                    }
                    assert forall|k: int|
                        0 <= k < self.paths().len() && path_components(#[trigger] self.paths()[k])
                            == path_components(path@) implies k == file_id.0 by {
                        if k < v0.paths().len() {
                            assert(self.paths()[k] == v0.paths()[k]);
                        }
                    }
                }
                file_id
            },
        }
    }

    /// Drops the text of a file, keeping its path.
    pub fn unload(&mut self, file_id: FileID)
        requires
            old(self).wf(),
            file_id.0 < old(self).paths().len(),
        ensures
            final(self).wf(),
            final(self).paths() == old(self).paths(),
            final(self).versions() == old(self).versions(),
            final(self).sources() == old(self).sources().update(file_id.0 as int, Seq::empty()),
            final(self).keeps_files(old(self)),
    {
        let ghost v0 = *self;
        let i = file_id.index();
        let old_file = &self.files[i];
        let empty = String::new();
        let mut line_ranges: Vec<TextRange> = Vec::new();
        find_line_ranges(&mut line_ranges, empty.as_str());
        let file = FileData {
            version: old_file.version,
            path: old_file.path.clone(),
            source: empty,
            line_ranges,
        };
        self.files.set(i, file);
        proof {
            assert(self.paths() =~= v0.paths());
            assert(self.versions() =~= v0.versions());
            assert(self.sources() =~= v0.sources().update(i as int, Seq::empty()));
            assert forall|a: int, b: int|
                0 <= a < b < self.files@.len() implies path_components(#[trigger] self.files@[a].path@)
                != path_components(#[trigger] self.files@[b].path@) by {
                assert(self.paths()[a] == v0.paths()[a]);
                assert(self.paths()[b] == v0.paths()[b]);
                assert(v0.paths()[a] == v0.files@[a].path@);
                assert(v0.paths()[b] == v0.files@[b].path@);
            }
        }
    }
}

/// Files keep their ids and paths whatever files are opened or unloaded later: a `Vfs`
/// that keeps the files of one that keeps those of `a` keeps those of `a`.
pub proof fn law_files_kept(a: &Vfs, b: &Vfs, c: &Vfs)
    requires
        b.keeps_files(a),
        c.keeps_files(b),
    ensures
        c.keeps_files(a),
{
}

/// A module: a source file of a package, with its syntax tree once parsed.
pub struct Module {
    origin: PackageID,
    name_id: NameID,
    file_id: FileID,
    tree: Option<SyntaxTree>,
}

impl Module {
    pub closed spec fn spec_origin(&self) -> PackageID {
        self.origin
    }

    pub closed spec fn spec_name(&self) -> NameID {
        self.name_id
    }

    pub closed spec fn spec_file_id(&self) -> FileID {
        self.file_id
    }

    pub closed spec fn has_tree(&self) -> bool {
        self.tree is Some
    }

    pub closed spec fn spec_tree(&self) -> SyntaxTree {
        self.tree->Some_0
    }

    /// A module of package `origin`, named `name_id`, over the file `file_id`; not
    /// parsed yet.
    pub fn new(origin: PackageID, name_id: NameID, file_id: FileID) -> (r: Module)
        ensures
            r.spec_origin() == origin,
            r.spec_name() == name_id,
            r.spec_file_id() == file_id,
            !r.has_tree(),
    {
        Module { origin, name_id, file_id, tree: None }
    }

    pub fn origin(&self) -> (r: PackageID)
        ensures
            r == self.spec_origin(),
    {
        self.origin
    }

    pub fn name(&self) -> (r: NameID)
        ensures
            r == self.spec_name(),
    {
        self.name_id
    }

    pub fn file_id(&self) -> (r: FileID)
        ensures
            r == self.spec_file_id(),
    {
        self.file_id
    }

    pub fn tree(&self) -> (r: Option<&SyntaxTree>)
        ensures
            r is Some == self.has_tree(),
            r matches Some(t) ==> *t == self.spec_tree(),
    {
        self.tree.as_ref()
    }

    /// The syntax tree of a module that was parsed.
    pub fn tree_expect(&self) -> (r: &SyntaxTree)
        requires
            self.has_tree(),
        ensures
            *r == self.spec_tree(),
    {
        self.tree.as_ref().unwrap()
    }

    pub fn set_tree(&mut self, tree: SyntaxTree)
        ensures
            final(self).has_tree(),
            final(self).spec_tree() == tree,
            final(self).spec_origin() == old(self).spec_origin(),
            final(self).spec_name() == old(self).spec_name(),
            final(self).spec_file_id() == old(self).spec_file_id(),
    {
        self.tree = Some(tree);
    }

    pub fn unload_tree(&mut self)
        ensures
            !final(self).has_tree(),
            final(self).spec_origin() == old(self).spec_origin(),
            final(self).spec_name() == old(self).spec_name(),
            final(self).spec_file_id() == old(self).spec_file_id(),
    {
        self.tree = None;
    }
}

/// The modules of a session, by id, each with the path of its file.
pub struct Modules {
    modules: Vec<Module>,
    paths: Vec<String>,
}

impl Modules {
    pub closed spec fn view(&self) -> Seq<Module> {
        self.modules@
    }

    pub closed spec fn paths(&self) -> Seq<Seq<char>> {
        Seq::new(self.paths@.len(), |i: int| self.paths@[i]@)
    }

    /// Every module has its path, and ids fit in 32 bits.
    pub open spec fn wf(&self) -> bool {
        &&& self.paths().len() == self.view().len()
        &&& self.view().len() <= u32::MAX
    }

    pub fn new() -> (r: Modules)
        ensures
            r.wf(),
            r.view().len() == 0,
    {
        Modules { modules: Vec::new(), paths: Vec::new() }
    }

    /// Adds `module`, read from `path`, under the next id.
    pub fn add(&mut self, module: Module, path: &str) -> (r: ModuleID)
        requires
            old(self).wf(),
            old(self).view().len() < u32::MAX,
        ensures
            final(self).wf(),
            r.0 == old(self).view().len(),
            final(self).view() == old(self).view().push(module),
            final(self).paths() == old(self).paths().push(path@),
    {
        let module_id = ModuleID(self.modules.len() as u32);
        self.modules.push(module);
        self.paths.push(String::from_str(path));
        proof {
            assert(self.paths() =~= old(self).paths().push(path@));
        }
        module_id
    }

    /// The module last added from `path`, however spelled, if any.
    pub fn path_to_id(&self, path: &str) -> (r: Option<ModuleID>)
        requires
            self.wf(),
        ensures
            r matches Some(id) ==> id.0 < self.view().len() && path_components(self.paths()[id.0 as int])
                == path_components(path@) && forall|k: int|
                id.0 < k < self.view().len() ==> path_components(#[trigger] self.paths()[k])
                    != path_components(path@),
            r is None ==> forall|k: int|
                0 <= k < self.view().len() ==> path_components(#[trigger] self.paths()[k])
                    != path_components(path@),
    {
        let key = components_of(path);
        let mut i: usize = self.paths.len();
        while i > 0
            invariant
                self.wf(),
                byte_strings(key@) == path_components(path@),
                0 <= i <= self.paths@.len(),
                forall|k: int|
                    i <= k < self.paths@.len() ==> path_components(#[trigger] self.paths()[k])
                        != path_components(path@),
            decreases i,
        {
            let comps = components_of(self.paths[i - 1].as_str());
            proof {
                assert(self.paths()[i - 1] == self.paths@[i - 1]@);
            }
            if same_byte_strings(&comps, &key) {
                return Some(ModuleID((i - 1) as u32));
            }
            i = i - 1;
        }
        None
    }

    pub fn count(&self) -> (r: usize)
        ensures
            r == self.view().len(),
    {
        self.modules.len()
    }

    /// The ids of all modules, in order.
    pub fn ids(&self) -> (r: Vec<ModuleID>)
        ensures
            r@.len() == self.view().len(),
            forall|i: int| 0 <= i < r@.len() ==> #[trigger] r@[i] == ModuleID(i as u32),
    {
        let n = self.modules.len();
        let mut ids: Vec<ModuleID> = Vec::new();
        let mut i: usize = 0;
        while i < n
            invariant
                n == self.view().len(),
                0 <= i <= n,
                ids@.len() == i,
                forall|k: int| 0 <= k < i ==> #[trigger] ids@[k] == ModuleID(k as u32),
            decreases n - i,
        {
            ids.push(ModuleID(i as u32));
            i = i + 1;
        }
        ids
    }

    pub fn get(&self, module_id: ModuleID) -> (r: &Module)
        requires
            module_id.0 < self.view().len(),
        ensures
            *r == self.view()[module_id.0 as int],
    {
        &self.modules[module_id.index()]
    }

    pub fn get_mut(&mut self, module_id: ModuleID) -> (r: &mut Module)
        requires
            module_id.0 < old(self).view().len(),
        ensures
            *r == old(self).view()[module_id.0 as int],
            final(self).view() == old(self).view().update(module_id.0 as int, *final(r)),
            final(self).paths() == old(self).paths(),
    {
        &mut self.modules[module_id.index()]
    }
}

/// A directory of a package's sources: its modules and its subdirectories.
pub struct Directory {
    name_id: NameID,
    modules: Vec<ModuleID>,
    sub_dirs: Vec<Directory>,
}

/// What a name refers to inside a directory.
pub enum ModuleOrDirectory<'s> {
    NotFound,
    Module(ModuleID),
    Directory(&'s Directory),
}

impl Directory {
    pub closed spec fn spec_name(&self) -> NameID {
        self.name_id
    }

    pub closed spec fn module_ids(&self) -> Seq<ModuleID> {
        self.modules@
    }

    pub closed spec fn sub_dirs(&self) -> Seq<Directory> {
        self.sub_dirs@
    }

    pub fn new(name_id: NameID, modules: Vec<ModuleID>, sub_dirs: Vec<Directory>) -> (r: Directory)
        ensures
            r.spec_name() == name_id,
            r.module_ids() == modules@,
            r.sub_dirs() == sub_dirs@,
    {
        Directory { name_id, modules, sub_dirs }
    }

    pub fn name(&self) -> (r: NameID)
        ensures
            r == self.spec_name(),
    {
        self.name_id
    }

    /// The first module of this directory named `name_id`, else its first subdirectory
    /// of that name, else nothing.
    pub fn find<'s>(&'s self, modules: &Modules, name_id: NameID) -> (r: ModuleOrDirectory<'s>)
        requires
            forall|i: int|
                0 <= i < self.module_ids().len() ==> (#[trigger] self.module_ids()[i]).0
                    < modules.view().len(),
        ensures
            r matches ModuleOrDirectory::Module(id) ==> exists|i: int|
                0 <= i < self.module_ids().len() && self.module_ids()[i] == id
                    && modules.view()[id.0 as int].spec_name() == name_id && forall|k: int|
                    0 <= k < i ==> modules.view()[(#[trigger] self.module_ids()[k]).0 as int].spec_name()
                        != name_id,
            r matches ModuleOrDirectory::Directory(d) ==> (forall|k: int|
                0 <= k < self.module_ids().len() ==> modules.view()[(
                #[trigger] self.module_ids()[k]).0 as int].spec_name() != name_id) && exists|
                i: int,
            |
                0 <= i < self.sub_dirs().len() && self.sub_dirs()[i] == *d && d.spec_name()
                    == name_id && forall|k: int|
                    0 <= k < i ==> (#[trigger] self.sub_dirs()[k]).spec_name() != name_id,
            r is NotFound ==> (forall|k: int|
                0 <= k < self.module_ids().len() ==> modules.view()[(
                #[trigger] self.module_ids()[k]).0 as int].spec_name() != name_id) && (forall|
                k: int,
            |
                0 <= k < self.sub_dirs().len() ==> (#[trigger] self.sub_dirs()[k]).spec_name()
                    != name_id),
    {
        let mut i: usize = 0;
        while i < self.modules.len()
            invariant
                0 <= i <= self.module_ids().len(),
                forall|j: int|
                    0 <= j < self.module_ids().len() ==> (#[trigger] self.module_ids()[j]).0
                        < modules.view().len(),
                forall|k: int|
                    0 <= k < i ==> modules.view()[(#[trigger] self.module_ids()[k]).0 as int].spec_name()
                        != name_id,
            decreases self.module_ids().len() - i,
        {
            let module_id = self.modules[i];
            if modules.get(module_id).name_id == name_id {
                return ModuleOrDirectory::Module(module_id);
            }
            i = i + 1;
        }
        let mut j: usize = 0;
        while j < self.sub_dirs.len()
            invariant
                0 <= j <= self.sub_dirs().len(),
                forall|k: int|
                    0 <= k < self.module_ids().len() ==> modules.view()[(
                    #[trigger] self.module_ids()[k]).0 as int].spec_name() != name_id,
                forall|k: int| 0 <= k < j ==> (#[trigger] self.sub_dirs()[k]).spec_name() != name_id,
            decreases self.sub_dirs().len() - j,
        {
            let directory = &self.sub_dirs[j];
            if directory.name_id == name_id {
                return ModuleOrDirectory::Directory(directory);
            }
            j = j + 1;
        }
        ModuleOrDirectory::NotFound
    }
}

/// A package: where it lives, its name, its sources, its manifest, the packages it
/// depends on and its modules.
pub struct Package {
    root_dir: String,
    name_id: NameID,
    src: Directory,
    manifest: Manifest,
    deps: Vec<PackageID>,
    modules: Vec<ModuleID>,
}

impl Package {
    pub closed spec fn spec_root_dir(&self) -> Seq<char> {
        self.root_dir@
    }

    pub closed spec fn spec_name(&self) -> NameID {
        self.name_id
    }

    pub closed spec fn spec_src(&self) -> Directory {
        self.src
    }

    pub closed spec fn spec_manifest(&self) -> Manifest {
        self.manifest
    }

    pub closed spec fn spec_deps(&self) -> Seq<PackageID> {
        self.deps@
    }

    pub closed spec fn spec_modules(&self) -> Seq<ModuleID> {
        self.modules@
    }

    pub fn new(
        root_dir: String,
        name_id: NameID,
        src: Directory,
        manifest: Manifest,
        deps: Vec<PackageID>,
        modules: Vec<ModuleID>,
    ) -> (r: Package)
        ensures
            r.spec_root_dir() == root_dir@,
            r.spec_name() == name_id,
            r.spec_src() == src,
            r.spec_manifest() == manifest,
            r.spec_deps() == deps@,
            r.spec_modules() == modules@,
    {
        Package { root_dir, name_id, src, manifest, deps, modules }
    }

    pub fn root_dir(&self) -> (r: &str)
        ensures
            r@ == self.spec_root_dir(),
    {
        self.root_dir.as_str()
    }

    pub fn name(&self) -> (r: NameID)
        ensures
            r == self.spec_name(),
    {
        self.name_id
    }

    pub fn src(&self) -> (r: &Directory)
        ensures
            *r == self.spec_src(),
    {
        &self.src
    }

    pub fn manifest(&self) -> (r: &Manifest)
        ensures
            *r == self.spec_manifest(),
    {
        &self.manifest
    }

    pub fn dep_ids(&self) -> (r: &[PackageID])
        ensures
            r@ == self.spec_deps(),
    {
        self.deps.as_slice()
    }

    pub fn module_ids(&self) -> (r: &[ModuleID])
        ensures
            r@ == self.spec_modules(),
    {
        self.modules.as_slice()
    }
}

/// `to` can be reached from `from` over at most `fuel` dependency edges.
pub open spec fn reaches(deps: Seq<Seq<PackageID>>, from: int, to: int, fuel: nat) -> bool
    decreases fuel,
{
    from == to || (fuel > 0 && 0 <= from < deps.len() && exists|k: int|
        0 <= k < deps[from].len() && reaches(deps, #[trigger] deps[from][k].0 as int, to, (fuel - 1) as nat))
}

/// `p` is a chain of dependency edges.
pub open spec fn is_dep_chain(deps: Seq<Seq<PackageID>>, p: Seq<PackageID>) -> bool {
    forall|k: int|
        0 <= k < p.len() - 1 ==> 0 <= #[trigger] p[k].0 < deps.len() && deps[p[k].0 as int].contains(
            p[k + 1],
        )
}

/// Message part for the dependency from `names[i]` to `names[i + 1]`, the last being
/// number `count - 1`.
pub open spec fn relation_part(names: Seq<Seq<char>>, i: int, count: int) -> Seq<char> {
    (if i == 0 {
        "attempting to add dependency from `"@ + names[0] + "` to `"@ + names[1] + "`"@
    } else {
        "which depends on `"@ + names[i + 1] + "`"@
    }) + (if i + 1 == count {
        ", completing the cycle..."@
    } else {
        "...\n"@
    })
}

/// Message describing the first `k` dependencies along `names`.
pub open spec fn relation_msg(names: Seq<Seq<char>>, k: int) -> Seq<char>
    decreases k,
{
    if k <= 0 {
        Seq::empty()
    } else {
        relation_msg(names, k - 1) + relation_part(names, k - 1, names.len() - 1)
    }
}

/// The packages of a session, by id, each with the packages it depends on.
pub struct PackageGraph {
    packages: Vec<Package>,
}

impl PackageGraph {
    pub closed spec fn view(&self) -> Seq<Package> {
        self.packages@
    }

    /// The dependencies of each package.
    pub open spec fn deps(&self) -> Seq<Seq<PackageID>> {
        Seq::new(self.view().len(), |i: int| self.view()[i].spec_deps())
    }

    /// Every dependency is a package of the graph, no root directory is used twice,
    /// and ids fit in 32 bits.
    pub open spec fn wf(&self) -> bool {
        &&& self.view().len() < u32::MAX
        &&& forall|i: int, k: int|
            0 <= i < self.view().len() && 0 <= k < self.view()[i].spec_deps().len()
                ==> (#[trigger] self.view()[i].spec_deps()[k]).0 < self.view().len()
        &&& forall|i: int, j: int|
            0 <= i < j < self.view().len() ==> (#[trigger] self.view()[i]).spec_root_dir() != (
            #[trigger] self.view()[j]).spec_root_dir()
    }

    pub fn new() -> (r: PackageGraph)
        ensures
            r.wf(),
            r.view().len() == 0,
    {
        PackageGraph { packages: Vec::new() }
    }

    pub fn package(&self, package_id: PackageID) -> (r: &Package)
        requires
            package_id.0 < self.view().len(),
        ensures
            *r == self.view()[package_id.0 as int],
    {
        &self.packages[package_id.0 as usize]
    }

    pub fn package_mut(&mut self, package_id: PackageID) -> (r: &mut Package)
        requires
            package_id.0 < old(self).view().len(),
        ensures
            *r == old(self).view()[package_id.0 as int],
            final(self).view() == old(self).view().update(package_id.0 as int, *final(r)),
    {
        &mut self.packages[package_id.0 as usize]
    }

    pub fn package_count(&self) -> (r: usize)
        ensures
            r == self.view().len(),
    {
        self.packages.len()
    }

    /// Every package, by id.
    pub fn all_packages(&self) -> (r: &[Package])
        ensures
            r@ == self.view(),
    {
        self.packages.as_slice()
    }

    /// The first dependency of `package_id` named `dep_name`.
    pub fn find_package_dep(&self, package_id: PackageID, dep_name: NameID) -> (r: Option<PackageID>)
        requires
            self.wf(),
            package_id.0 < self.view().len(),
        ensures
            ({
                let ds = self.view()[package_id.0 as int].spec_deps();
                &&& r matches Some(id) ==> exists|i: int|
                    0 <= i < ds.len() && ds[i] == id && self.view()[id.0 as int].spec_name()
                        == dep_name && forall|k: int|
                        0 <= k < i ==> self.view()[(#[trigger] ds[k]).0 as int].spec_name()
                            != dep_name
                &&& r is None ==> forall|k: int|
                    0 <= k < ds.len() ==> self.view()[(#[trigger] ds[k]).0 as int].spec_name()
                        != dep_name
            }),
    {
        let package = self.package(package_id);
        let ghost ds = package.spec_deps();
        let mut i: usize = 0;
        while i < package.deps.len()
            invariant
                self.wf(),
                package_id.0 < self.view().len(),
                *package == self.view()[package_id.0 as int],
                ds == package.spec_deps(),
                0 <= i <= ds.len(),
                forall|k: int| 0 <= k < i ==> self.view()[(#[trigger] ds[k]).0 as int].spec_name() != dep_name,
            decreases ds.len() - i,
        {
            let dep_id = package.deps[i];
            assert(dep_id.0 < self.view().len());
            if self.package(dep_id).name_id == dep_name {
                return Some(dep_id);
            }
            i = i + 1;
        }
        None
    }

    /// Id that the next package added gets.
    pub fn next_id(&self) -> (r: PackageID)
        requires
            self.wf(),
        ensures
            r.0 == self.view().len(),
    {
        PackageID(self.packages.len() as u32)
    }

    /// The package whose root directory is `root_dir`, if any.
    pub fn get_unique(&self, root_dir: &str) -> (r: Option<PackageID>)
        requires
            self.wf(),
        ensures
            r matches Some(id) ==> id.0 < self.view().len() && self.view()[id.0 as int].spec_root_dir()
                == root_dir@,
            r is None ==> forall|i: int|
                0 <= i < self.view().len() ==> (#[trigger] self.view()[i]).spec_root_dir()
                    != root_dir@,
    {
        let key = String::from_str(root_dir);
        let mut i: usize = 0;
        while i < self.packages.len()
            invariant
                key@ == root_dir@,
                self.wf(),
                0 <= i <= self.view().len(),
                forall|k: int| 0 <= k < i ==> (#[trigger] self.view()[k]).spec_root_dir() != root_dir@,
            decreases self.view().len() - i,
        {
            if self.packages[i].root_dir == key {
                return Some(PackageID(i as u32));
            }
            i = i + 1;
        }
        None
    }

    /// Adds `package` under the next id.
    pub fn add(&mut self, package: Package) -> (r: PackageID)
        requires
            old(self).wf(),
            old(self).view().len() + 1 < u32::MAX,
            forall|k: int|
                0 <= k < package.spec_deps().len() ==> (#[trigger] package.spec_deps()[k]).0
                    < old(self).view().len(),
            forall|i: int|
                0 <= i < old(self).view().len() ==> (#[trigger] old(self).view()[i]).spec_root_dir()
                    != package.spec_root_dir(),
        ensures
            final(self).wf(),
            r.0 == old(self).view().len(),
            final(self).view() == old(self).view().push(package),
    {
        let package_id = PackageID(self.packages.len() as u32);
        self.packages.push(package);
        package_id
    }

    /// Makes `from` depend on `to`, unless `from` can be reached from `to`, which would
    /// close a cycle: then the message describes that cycle.
    pub fn add_dep(&mut self, from: PackageID, to: PackageID, intern_name: &InternPool) -> (r:
        Result<(), String>)
        requires
            old(self).wf(),
            from.0 < old(self).view().len(),
            to.0 < old(self).view().len(),
            !old(self).view()[from.0 as int].spec_deps().contains(to),
            forall|i: int|
                0 <= i < old(self).view().len() ==> (#[trigger] old(self).view()[i]).spec_name().0
                    < intern_name.view_strings().len(),
        ensures
            final(self).wf(),
            r is Ok <==> !reaches(old(self).deps(), to.0 as int, from.0 as int, old(self).view().len() as nat),
            r is Ok ==> final(self).deps() == old(self).deps().update(
                from.0 as int,
                old(self).deps()[from.0 as int].push(to),
            ),
            r is Err ==> final(self).view() == old(self).view(),
    {
        let mut path: Vec<PackageID> = Vec::new();
        path.push(from);
        let n = self.packages.len();
        if self.find_cycle(from, to, &mut path, n) {
            let relation = self.cycle_relation_msg(path.as_slice(), intern_name);
            Err(relation)
        } else {
            let ghost g0 = self.deps();
            let mut package = self.packages.remove(from.0 as usize);
            package.deps.push(to);
            self.packages.insert(from.0 as usize, package);
            proof {
                assert(self.deps() =~= g0.update(from.0 as int, g0[from.0 as int].push(to)));
                assert forall|i: int, k: int|
                    0 <= i < self.view().len() && 0 <= k < self.view()[i].spec_deps().len()
                        implies (#[trigger] self.view()[i].spec_deps()[k]).0 < self.view().len() by {
                    if i != from.0 {
                        assert(self.view()[i] == old(self).view()[i]);
                    } else if k < old(self).view()[i].spec_deps().len() {
                        assert(self.view()[i].spec_deps()[k] == old(self).view()[i].spec_deps()[k]);
                    }
                }
                assert forall|i: int, j: int|
                    0 <= i < j < self.view().len() implies (#[trigger] self.view()[i]).spec_root_dir()
                        != (#[trigger] self.view()[j]).spec_root_dir() by {
                    assert(self.view()[i].spec_root_dir() == old(self).view()[i].spec_root_dir());
                    assert(self.view()[j].spec_root_dir() == old(self).view()[j].spec_root_dir());
                }
            }
            Ok(())
        }
    }

    /// Depth-first search for `target` from `current`, over at most `fuel` edges; the
    /// chain walked to it is added to `path`.
    fn find_cycle(&self, target: PackageID, current: PackageID, path: &mut Vec<PackageID>, fuel: usize) -> (r: bool)
        requires
            self.wf(),
            current.0 < self.view().len(),
            target.0 < self.view().len(),
            forall|k: int| 0 <= k < old(path)@.len() ==> (#[trigger] old(path)@[k]).0 < self.view().len(),
        ensures
            r == reaches(self.deps(), current.0 as int, target.0 as int, fuel as nat),
            forall|k: int| 0 <= k < final(path)@.len() ==> (#[trigger] final(path)@[k]).0 < self.view().len(),
            !r ==> final(path)@ == old(path)@,
            r ==> final(path)@.len() > old(path)@.len() && final(path)@.subrange(0, old(path)@.len() as int)
                == old(path)@ && final(path)@[old(path)@.len() as int] == current
                && final(path)@.last() == target && is_dep_chain(
                self.deps(),
                final(path)@.subrange(old(path)@.len() as int, final(path)@.len() as int),
            ),
        decreases fuel,
    {
        path.push(current);
        if target == current {
            proof {
                let p = path@.subrange(old(path)@.len() as int, path@.len() as int);
                assert(path@.subrange(0, old(path)@.len() as int) =~= old(path)@);
                assert(p.len() == 1);
            }
            return true;
        }
        if fuel == 0 {
            path.pop();
            proof {
                assert(path@ =~= old(path)@);
            }
            return false;
        }
        let ghost g = self.deps();
        let deps = self.package(current).dep_ids();
        let mut i: usize = 0;
        while i < deps.len()
            invariant
                self.wf(),
                g == self.deps(),
                deps@ == g[current.0 as int],
                current.0 < self.view().len(),
                target.0 < self.view().len(),
                fuel > 0,
                0 <= i <= deps@.len(),
                path@ == old(path)@.push(current),
                forall|k: int| 0 <= k < path@.len() ==> (#[trigger] path@[k]).0 < self.view().len(),
                target != current,
                forall|k: int| 0 <= k < i ==> !reaches(g, (#[trigger] deps@[k]).0 as int, target.0 as int, (fuel - 1) as nat),
            decreases deps@.len() - i,
        {
            let dep = deps[i];
            assert(dep.0 < self.view().len()) by {
                assert(self.view()[current.0 as int].spec_deps()[i as int] == dep);
            }
            let ghost before = path@;
            if self.find_cycle(target, dep, path, fuel - 1) {
                proof {
                    let p = path@.subrange(old(path)@.len() as int, path@.len() as int);
                    let q = path@.subrange(before.len() as int, path@.len() as int);
                    let ol = old(path)@.len() as int;
                    assert(before[ol] == current);
                    assert(path@.subrange(0, before.len() as int)[ol] == path@[ol]);
                    assert(path@[ol] == current);
                    assert forall|k: int| 0 <= k < ol implies path@[k] == old(path)@[k] by {
                        assert(path@.subrange(0, before.len() as int)[k] == path@[k]);
                        assert(before[k] == old(path)@[k]);
                    }
                    assert(path@.subrange(0, old(path)@.len() as int) =~= old(path)@);
                    assert forall|k: int| 0 <= k < p.len() - 1 implies 0 <= #[trigger] p[k].0 < g.len()
                        && g[p[k].0 as int].contains(p[k + 1]) by {
                        if k == 0 {
                            assert(p[0] == current);
                            assert(p[1] == q[0]);
                            assert(q[0] == dep);
                            assert(g[current.0 as int][i as int] == dep);
                            assert(g[current.0 as int].contains(dep));
                        } else {
                            assert(p[k] == q[k - 1]);
                            assert(p[k + 1] == q[k]);
                            assert(is_dep_chain(g, q));
                            let t = q[k - 1];
                            assert(0 <= t.0 < g.len() && g[t.0 as int].contains(q[k]));
                        }
                    }
                    assert(g[current.0 as int][i as int] == dep);
                    assert(reaches(g, current.0 as int, target.0 as int, fuel as nat));
                    assert forall|k: int| 0 <= k < path@.len() implies (#[trigger] path@[k]).0 < self.view().len() by {
                        if k < before.len() {
                            assert(path@[k] == before[k]);
                        }
                    }
                }
                return true;
            }
            i = i + 1;
        }
        path.pop();
        proof {
            assert(path@ =~= old(path)@);
            if reaches(g, current.0 as int, target.0 as int, fuel as nat) {
                let k = choose|k: int|
                    0 <= k < g[current.0 as int].len() && reaches(g, #[trigger] g[current.0 as int][k].0 as int, target.0 as int, (fuel - 1) as nat);
                assert(!reaches(g, deps@[k].0 as int, target.0 as int, (fuel - 1) as nat));
            }
        }
        false
    }

    /// The message for a dependency cycle along `path`.
    fn cycle_relation_msg(&self, path: &[PackageID], intern_name: &InternPool) -> (r: String)
        requires
            self.wf(),
            path@.len() >= 1,
            forall|k: int| 0 <= k < path@.len() ==> (#[trigger] path@[k]).0 < self.view().len(),
            forall|i: int|
                0 <= i < self.view().len() ==> (#[trigger] self.view()[i]).spec_name().0
                    < intern_name.view_strings().len(),
        ensures
            r@ == relation_msg(
                Seq::new(path@.len(), |k: int| intern_name.view_strings()[self.view()[path@[k].0 as int].spec_name().0 as int]),
                path@.len() - 1,
            ),
    {
        let ghost names = Seq::new(path@.len(), |k: int| intern_name.view_strings()[self.view()[path@[k].0 as int].spec_name().0 as int]);
        let mut msg = String::new();
        let relation_count = path.len() - 1;
        let mut idx: usize = 0;
        while idx < relation_count
            invariant
                self.wf(),
                relation_count == path@.len() - 1,
                names.len() == path@.len(),
                forall|k: int| 0 <= k < path@.len() ==> (#[trigger] path@[k]).0 < self.view().len(),
                forall|i: int|
                    0 <= i < self.view().len() ==> (#[trigger] self.view()[i]).spec_name().0
                        < intern_name.view_strings().len(),
                forall|k: int| 0 <= k < names.len() ==> #[trigger] names[k] == intern_name.view_strings()[self.view()[path@[k].0 as int].spec_name().0 as int],
                0 <= idx <= relation_count,
                msg@ == relation_msg(names, idx as int),
            decreases relation_count - idx,
        {
            let from_id = path[idx];
            let to_id = path[idx + 1];
            let from_name = intern_name.get(self.package(from_id).name_id.0);
            let to_name = intern_name.get(self.package(to_id).name_id.0);
            let ghost m0 = msg@;
            if idx == 0 {
                push_str(&mut msg, "attempting to add dependency from `");
                push_chars(&mut msg, from_name);
                push_str(&mut msg, "` to `");
                push_chars(&mut msg, to_name);
                push_str(&mut msg, "`");
            } else {
                push_str(&mut msg, "which depends on `");
                push_chars(&mut msg, to_name);
                push_str(&mut msg, "`");
            }
            if idx + 1 == relation_count {
                push_str(&mut msg, ", completing the cycle...");
            } else {
                push_str(&mut msg, "...\n");
            }
            proof {
                assert(names[idx as int] == from_name@);
                assert(names[idx + 1] == to_name@);
                assert(msg@ =~= m0 + relation_part(names, idx as int, names.len() - 1));
            }
            idx = idx + 1;
        }
        msg
    }
}

/// Counts gathered while building.
#[derive(Copy, Clone, PartialEq, Eq, Debug, Structural)]
pub struct BuildStats {
    pub package_count: u32,
    pub module_count: u32,
    pub line_count: u32,
    pub token_count: u32,
}

/// Parses every module of `modules` from its file in `vfs`, giving each module that
/// parsed without error its tree and counting its lines and tokens; the modules that
/// did not parse are given back with their errors, in order.
pub fn parse_all_trees(
    vfs: &Vfs,
    modules: &mut Modules,
    intern_lit: &mut InternPool,
    stats: &mut BuildStats,
) -> (r: Result<(), Vec<(ModuleID, ParseErrors)>>)
    requires
        old(modules).wf(),
        old(intern_lit).wf(),
        forall|i: int|
            0 <= i < old(modules).view().len() ==> (#[trigger] old(modules).view()[i]).spec_file_id().0
                < vfs.paths().len(),
    ensures
        final(modules).wf(),
        final(intern_lit).wf(),
        final(modules).view().len() == old(modules).view().len(),
        final(modules).paths() == old(modules).paths(),
        forall|i: int|
            0 <= i < final(modules).view().len() ==> (#[trigger] final(modules).view()[i]).spec_origin()
                == old(modules).view()[i].spec_origin() && final(modules).view()[i].spec_name()
                == old(modules).view()[i].spec_name() && final(modules).view()[i].spec_file_id()
                == old(modules).view()[i].spec_file_id(),
        r is Ok ==> forall|i: int|
            0 <= i < final(modules).view().len() ==> (#[trigger] final(modules).view()[i]).has_tree()
                && final(modules).view()[i].spec_tree().is_complete(),
        r matches Err(failed) ==> failed@.len() > 0 && forall|k: int|
            0 <= k < failed@.len() ==> (#[trigger] failed@[k]).0.0 < final(modules).view().len()
                && failed@[k].1.count() > 0,
{
    let mut failed: Vec<(ModuleID, ParseErrors)> = Vec::new();
    let n = modules.count();
    let mut i: usize = 0;
    while i < n
        invariant
            n == modules.view().len(),
            n == old(modules).view().len(),
            modules.wf(),
            intern_lit.wf(),
            modules.paths() == old(modules).paths(),
            0 <= i <= n,
            forall|k: int|
                0 <= k < n ==> (#[trigger] modules.view()[k]).spec_origin() == old(modules).view()[k].spec_origin()
                    && modules.view()[k].spec_name() == old(modules).view()[k].spec_name()
                    && modules.view()[k].spec_file_id() == old(modules).view()[k].spec_file_id(),
            forall|k: int|
                0 <= k < old(modules).view().len() ==> (#[trigger] old(modules).view()[k]).spec_file_id().0
                    < vfs.paths().len(),
            forall|k: int|
                0 <= k < failed@.len() ==> (#[trigger] failed@[k]).0.0 < n && failed@[k].1.count()
                    > 0,
            failed@.len() == 0 ==> forall|k: int|
                0 <= k < i ==> (#[trigger] modules.view()[k]).has_tree()
                    && modules.view()[k].spec_tree().is_complete(),
        decreases n - i,
    {
        let module_id = ModuleID(i as u32);
        let file_id = modules.get(module_id).file_id();
        assert(modules.view()[i as int].spec_file_id() == old(modules).view()[i as int].spec_file_id());
        let file = vfs.file(file_id);
        let source = file.source.as_str();
        let size = source.as_bytes().len();
        if intern_lit.len() >= (u32::MAX as usize) - 8 || size >= (u32::MAX as usize) - 8
            - intern_lit.len() {
            let mut syntax = Vec::new();
            syntax.push(crate::error::SyntaxError {
                message: String::from_str("source file is too large"),
                src: crate::error::SourceRange::new(module_id, crate::text::TextRange::zero()),
            });
            failed.push((module_id, ParseErrors { lex: Vec::new(), syntax, tree: Vec::new() }));
        } else {
            match parse_tree_complete(source, module_id, intern_lit) {
                Ok(tree) => {
                    let lines = file.line_ranges.len();
                    let tokens = tree.tokens().token_count();
                    stats.line_count = stats.line_count.saturating_add(
                        if lines > u32::MAX as usize { u32::MAX } else { lines as u32 },
                    );
                    stats.token_count = stats.token_count.saturating_add(
                        if tokens > u32::MAX as usize { u32::MAX } else { tokens as u32 },
                    );
                    let ghost m0 = modules.view();
                    modules.get_mut(module_id).set_tree(tree);
                    proof {
                        if failed@.len() == 0 {
                            assert forall|k: int| 0 <= k < i + 1 implies (
                            #[trigger] modules.view()[k]).has_tree()
                                && modules.view()[k].spec_tree().is_complete() by {
                                if k < i {
                                    assert(modules.view()[k] == m0[k]);
                                }
                            }
                        }
                        assert forall|k: int|
                            0 <= k < n implies (#[trigger] modules.view()[k]).spec_origin()
                            == old(modules).view()[k].spec_origin() && modules.view()[k].spec_name()
                            == old(modules).view()[k].spec_name() && modules.view()[k].spec_file_id()
                            == old(modules).view()[k].spec_file_id() by {
                            if k != i {
                                assert(modules.view()[k] == m0[k]);
                            }
                        }
                    }
                },
                Err(errors) => {
                    failed.push((module_id, errors));
                },
            }
        }
        i = i + 1;
    }
    if failed.len() == 0 {
        Ok(())
    } else {
        Err(failed)
    }
}

} // verus!
