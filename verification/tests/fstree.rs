use miniutils::UtilError;
use miniutils::fstree::FsTree;
use miniutils::fstree::clone_tree;
use miniutils::fstree::copy_tree;

fn file(bytes: &[u8]) -> FsTree {
    FsTree::File { data: bytes.to_vec() }
}

fn dir(entries: Vec<(&str, FsTree)>) -> FsTree {
    FsTree::Dir { entries: entries.into_iter().map(|(n, t)| (n.to_string(), t)).collect() }
}

fn child<'a>(t: &'a FsTree, name: &str) -> Option<&'a FsTree> {
    match t {
        FsTree::Dir { entries } => entries.iter().find(|e| e.0 == name).map(|e| &e.1),
        FsTree::File { .. } => None,
    }
}

#[test]
fn copy_file_to_absent_path() {
    let src = file(b"hello");
    let got = copy_tree(&"a.txt".to_string(), &src, None).unwrap();
    assert_eq!(got, file(b"hello"));
}

#[test]
fn copy_file_into_directory_overwrites_same_name() {
    let src = file(b"new");
    let dst = dir(vec![("a.txt", file(b"old")), ("keep", file(b"k"))]);
    let got = copy_tree(&"a.txt".to_string(), &src, Some(&dst)).unwrap();
    assert_eq!(got, dir(vec![("a.txt", file(b"new")), ("keep", file(b"k"))]));
}

#[test]
fn copy_file_over_directory_child_fails() {
    let src = file(b"x");
    let dst = dir(vec![("a.txt", dir(vec![]))]);
    assert_eq!(copy_tree(&"a.txt".to_string(), &src, Some(&dst)), Err(UtilError::Io));
}

#[test]
fn copy_directory_over_file_fails() {
    let src = dir(vec![("x", file(b""))]);
    let dst = file(b"occupied");
    assert_eq!(copy_tree(&"A".to_string(), &src, Some(&dst)), Err(UtilError::Io));
}

#[test]
fn copy_tree_to_fresh_destination_reproduces_it() {
    let src = dir(vec![
        ("a.txt", file(b"alpha")),
        ("sub", dir(vec![("b.txt", file(b"beta"))])),
    ]);
    let first = copy_tree(&"src".to_string(), &src, None).unwrap();
    assert_eq!(first, src);
    // a second run after the destination is removed gives the same tree
    let second = copy_tree(&"src".to_string(), &src, None).unwrap();
    assert_eq!(first, second);
}

#[test]
fn copy_into_existing_directory_nests_by_base_name() {
    // copying directory A (containing A/x) into existing B gives B/A/x
    let a = dir(vec![("x", file(b"payload"))]);
    let b = dir(vec![]);
    let got = copy_tree(&"A".to_string(), &a, Some(&b)).unwrap();
    assert!(child(&got, "x").is_none());
    let nested = child(&got, "A").expect("B/A should exist");
    assert_eq!(child(nested, "x"), Some(&file(b"payload")));
}

#[test]
fn copy_scenario_two_files_one_nested() {
    // src/{a.txt, sub/b.txt} copied into pre-existing empty dst
    let src = dir(vec![
        ("a.txt", file(b"one")),
        ("sub", dir(vec![("b.txt", file(b"two"))])),
    ]);
    let dst = dir(vec![]);
    let got = copy_tree(&"src".to_string(), &src, Some(&dst)).unwrap();
    let under = child(&got, "src").expect("dst/src should exist");
    assert_eq!(child(under, "a.txt"), Some(&file(b"one")));
    let sub = child(under, "sub").expect("dst/src/sub should exist");
    assert_eq!(child(sub, "b.txt"), Some(&file(b"two")));
}

#[test]
fn copy_directory_over_same_named_file_child_fails() {
    // the effective destination directory cannot be created over a file
    let src = dir(vec![("x", file(b""))]);
    let dst = dir(vec![("A", file(b"occupied"))]);
    assert_eq!(copy_tree(&"A".to_string(), &src, Some(&dst)), Err(UtilError::Io));
}

#[test]
fn copy_fails_on_a_conflict_deeper_in_the_walk() {
    // merging A into an existing A whose child x is a file, while the
    // source's x is a directory, fails when the walk reaches x
    let src = dir(vec![("x", dir(vec![("y", file(b""))]))]);
    let dst = dir(vec![("A", dir(vec![("x", file(b"plain"))]))]);
    assert_eq!(copy_tree(&"A".to_string(), &src, Some(&dst)), Err(UtilError::Io));
}

#[test]
fn copy_merges_with_directory_already_there() {
    let src = dir(vec![("new.txt", file(b"n"))]);
    let dst = dir(vec![("A", dir(vec![("old.txt", file(b"o"))]))]);
    let got = copy_tree(&"A".to_string(), &src, Some(&dst)).unwrap();
    let merged = child(&got, "A").unwrap();
    assert_eq!(child(merged, "old.txt"), Some(&file(b"o")));
    assert_eq!(child(merged, "new.txt"), Some(&file(b"n")));
}

#[test]
fn clone_tree_copies_deeply() {
    let src = dir(vec![("a", file(b"1")), ("d", dir(vec![("b", file(b"2"))]))]);
    let copy = clone_tree(&src);
    assert_eq!(copy, src);
}
