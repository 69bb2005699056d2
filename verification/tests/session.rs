use rock_core::ids::{ModuleID, NameID, PackageID};
use rock_core::intern::InternPool;
use rock_core::package::{BuildManifest, Manifest, PackageKind, PackageManifest, Semver};
use rock_core::session::{
    parse_all_trees, BuildStats, Directory, FileID, Module, ModuleOrDirectory, Modules, Package,
    PackageGraph, Vfs,
};
use std::collections::BTreeMap;

fn manifest(name: &str) -> Manifest {
    Manifest {
        package: PackageManifest {
            name: name.to_string(),
            kind: PackageKind::Lib,
            version: Semver::new(0, 1, 0),
            authors: None,
            repository: None,
            description: None,
        },
        build: BuildManifest { bin_name: None, nodefaultlib: None, lib_paths: None, links: None },
        dependencies: BTreeMap::new(),
    }
}

fn package(root: &str, name_id: u32) -> Package {
    Package::new(
        root.to_string(),
        NameID(name_id),
        Directory::new(NameID(name_id), Vec::new(), Vec::new()),
        manifest(root),
        Vec::new(),
        Vec::new(),
    )
}

fn graph_of_three(pool: &mut InternPool) -> PackageGraph {
    let a: Vec<char> = "a".chars().collect();
    let b: Vec<char> = "b".chars().collect();
    let c: Vec<char> = "c".chars().collect();
    let ia = pool.intern(&a);
    let ib = pool.intern(&b);
    let ic = pool.intern(&c);
    let mut g = PackageGraph::new();
    assert_eq!(g.add(package("/a", ia)), PackageID(0));
    assert_eq!(g.add(package("/b", ib)), PackageID(1));
    assert_eq!(g.add(package("/c", ic)), PackageID(2));
    g
}

#[test]
fn vfs_two_spellings_of_a_path_are_one_file() {
    let mut vfs = Vfs::new();
    let id = vfs.open("/src/main.rock", "a\n".to_string());
    assert_eq!(vfs.path_to_file_id("/src//main.rock"), Some(id));
    assert_eq!(vfs.path_to_file_id("/src/./main.rock"), Some(id));
    assert_eq!(vfs.path_to_file_id("/src/main.rock/"), Some(id));
    assert_eq!(vfs.path_to_file_id("src/main.rock"), None);
    assert_eq!(vfs.path_to_file_id("/src/../src/main.rock"), None);
    let again = vfs.open("//src/main.rock", "b\n".to_string());
    assert_eq!(again, id);
    assert_eq!(vfs.file_count(), 1);
    assert_eq!(vfs.file(id).path, "/src/main.rock");
    assert_eq!(vfs.file(id).source, "b\n");
}

#[test]
fn vfs_open_and_reopen() {
    let mut vfs = Vfs::new();
    let id = vfs.open("/src/main.rock", "a\nb\n".to_string());
    assert_eq!(id, FileID(0));
    assert_eq!(vfs.file(id).version, 1);
    assert_eq!(vfs.file(id).line_ranges.len(), 2);
    let again = vfs.open("/src/main.rock", "x".to_string());
    assert_eq!(again, id);
    assert_eq!(vfs.file(id).source, "x");
    assert_eq!(vfs.file(id).line_ranges.len(), 1);
    assert_eq!(vfs.path_to_file_id("/src/main.rock"), Some(id));
    assert_eq!(vfs.path_to_file_id("/src/other.rock"), None);
    vfs.unload(id);
    assert_eq!(vfs.file(id).source, "");
    assert_eq!(vfs.file_count(), 1);
}

#[test]
fn graph_dependencies_and_cycles() {
    let mut pool = InternPool::new();
    let mut g = graph_of_three(&mut pool);
    assert_eq!(g.package_count(), 3);
    assert_eq!(g.get_unique("/b"), Some(PackageID(1)));
    assert_eq!(g.get_unique("/z"), None);
    assert_eq!(g.next_id(), PackageID(3));
    assert!(g.add_dep(PackageID(0), PackageID(1), &pool).is_ok());
    assert!(g.add_dep(PackageID(1), PackageID(2), &pool).is_ok());
    assert_eq!(g.package(PackageID(0)).dep_ids(), &[PackageID(1)]);
    assert_eq!(g.find_package_dep(PackageID(0), NameID(1)), Some(PackageID(1)));
    assert_eq!(g.find_package_dep(PackageID(0), NameID(2)), None);
    let err = g.add_dep(PackageID(2), PackageID(0), &pool).unwrap_err();
    assert_eq!(
        err,
        "attempting to add dependency from `c` to `a`...\nwhich depends on `b`...\nwhich depends on `c`, completing the cycle..."
    );
    assert_eq!(g.package(PackageID(2)).dep_ids(), &[] as &[PackageID]);
}

#[test]
fn graph_self_dependency_is_a_cycle() {
    let mut pool = InternPool::new();
    let mut g = graph_of_three(&mut pool);
    let err = g.add_dep(PackageID(1), PackageID(1), &pool).unwrap_err();
    assert_eq!(err, "attempting to add dependency from `b` to `b`, completing the cycle...");
}

#[test]
fn modules_and_directory_find() {
    let mut modules = Modules::new();
    let m0 = modules.add(Module::new(PackageID(0), NameID(5), FileID(0)), "/src/a.rock");
    let m1 = modules.add(Module::new(PackageID(0), NameID(6), FileID(1)), "/src/b.rock");
    assert_eq!((m0, m1), (ModuleID(0), ModuleID(1)));
    assert_eq!(modules.count(), 2);
    assert_eq!(modules.ids(), vec![ModuleID(0), ModuleID(1)]);
    assert_eq!(modules.path_to_id("/src/b.rock"), Some(ModuleID(1)));
    assert_eq!(modules.path_to_id("/src/c.rock"), None);
    assert_eq!(modules.path_to_id("/src/./b.rock"), Some(ModuleID(1)));
    assert_eq!(modules.get(m1).name(), NameID(6));
    modules.get_mut(m1).unload_tree();
    let sub = Directory::new(NameID(7), Vec::new(), Vec::new());
    let dir = Directory::new(NameID(1), vec![m0, m1], vec![sub]);
    assert!(matches!(dir.find(&modules, NameID(6)), ModuleOrDirectory::Module(id) if id == m1));
    assert!(matches!(dir.find(&modules, NameID(7)), ModuleOrDirectory::Directory(d) if d.name() == NameID(7)));
    assert!(matches!(dir.find(&modules, NameID(8)), ModuleOrDirectory::NotFound));
}

#[test]
fn module_tree_set_and_unload() {
    let mut pool = InternPool::new();
    let (tree, _errors) = rock_core::syntax::parse_tree("proc main() void {}", ModuleID(0), &mut pool);
    let mut module = Module::new(PackageID(2), NameID(3), FileID(4));
    assert!(module.tree().is_none());
    module.set_tree(tree);
    assert!(module.tree_expect().complete());
    assert_eq!(module.origin(), PackageID(2));
    assert_eq!(module.name(), NameID(3));
    assert_eq!(module.file_id(), FileID(4));
    module.unload_tree();
    assert!(module.tree().is_none());
}

#[test]
fn parse_all_trees_sets_trees_and_reports_failures() {
    let mut vfs = Vfs::new();
    let f0 = vfs.open("/src/a.rock", "proc a() void {}\n".to_string());
    let f1 = vfs.open("/src/b.rock", "proc b( {\n".to_string());
    let mut modules = Modules::new();
    let m0 = modules.add(Module::new(PackageID(0), NameID(0), f0), "/src/a.rock");
    let m1 = modules.add(Module::new(PackageID(0), NameID(1), f1), "/src/b.rock");
    let mut pool = InternPool::new();
    let mut stats = BuildStats { package_count: 1, module_count: 2, line_count: 0, token_count: 0 };
    let result = parse_all_trees(&vfs, &mut modules, &mut pool, &mut stats);
    let failed = result.err().unwrap();
    assert_eq!(failed.len(), 1);
    assert_eq!(failed[0].0, m1);
    assert!(modules.get(m0).tree().is_some());
    assert!(modules.get(m1).tree().is_none());
    assert_eq!(stats.line_count, 1);
    assert_eq!(stats.token_count, 9);
}
