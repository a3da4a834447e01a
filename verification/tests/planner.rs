use test_scaffold::plan::{TestDirectory, TestFile};
use test_scaffold::source::{find_unsupported, parse_src_tree, SourceEntry, UnsupportedEntry};

fn file(name: &str) -> SourceEntry {
    SourceEntry::File { name: String::from(name) }
}

fn dir(name: &str, entries: Vec<SourceEntry>) -> SourceEntry {
    SourceEntry::Directory { name: String::from(name), entries }
}

fn other(name: &str) -> SourceEntry {
    SourceEntry::Other { name: String::from(name) }
}

fn unsupported(path: &[&str]) -> UnsupportedEntry {
    UnsupportedEntry { path: path.iter().map(|s| String::from(*s)).collect() }
}

#[test]
fn test_parsing() {
    // given
    let src_root = vec![
        dir("module_1", vec![file("__init__.py"), file("submodule1.py")]),
        file("main.py"),
    ];
    let test_root = "tests";

    let mut module_1_dir = TestDirectory::new("test_module_1");
    module_1_dir.files = vec![
        TestFile::new("__init__.py"),
        TestFile::new("test_submodule1.py"),
    ];
    let mut expected = TestDirectory::new("tests");
    expected.dirs = vec![module_1_dir];
    expected.files = vec![TestFile::new("test_main.py")];
    // when
    let result = parse_src_tree(&src_root, test_root);
    // then
    assert_eq!(result, expected);
}

#[test]
fn empty_source_gives_an_empty_directory() {
    let result = parse_src_tree(&Vec::new(), "tests");
    assert_eq!(result, TestDirectory::new("tests"));
    assert_eq!(find_unsupported(&Vec::new()), None);
}

#[test]
fn root_name_is_taken_as_given() {
    let plan = parse_src_tree(&vec![file("a.py")], "./some/where");
    assert_eq!(plan.name, "./some/where");
    let plan = parse_src_tree(&vec![dir("tests", vec![])], "__init__.py");
    assert_eq!(plan.name, "__init__.py");
    assert_eq!(plan.dirs[0].name, "test_tests");
}

#[test]
fn files_and_directories_keep_their_order() {
    let source = vec![
        file("z.py"),
        dir("b", vec![]),
        file("a.py"),
        dir("a", vec![file("x.py")]),
        file("__init__.py"),
    ];
    let plan = parse_src_tree(&source, "tests");
    let files: Vec<&str> = plan.files.iter().map(|f| f.name.as_str()).collect();
    let dirs: Vec<&str> = plan.dirs.iter().map(|d| d.name.as_str()).collect();
    assert_eq!(files, vec!["test_z.py", "test_a.py", "__init__.py"]);
    assert_eq!(dirs, vec!["test_b", "test_a"]);
    assert!(plan.dirs[0].files.is_empty());
    assert_eq!(plan.dirs[1].files, vec![TestFile::new("test_x.py")]);
}

#[test]
fn directory_named_like_an_init_file_keeps_its_name() {
    let source = vec![dir("__init__.py", vec![file("a.py")])];
    let plan = parse_src_tree(&source, "tests");
    assert_eq!(plan.dirs.len(), 1);
    assert_eq!(plan.dirs[0].name, "__init__.py");
    assert_eq!(plan.dirs[0].files, vec![TestFile::new("test_a.py")]);
}

#[test]
fn duplicate_names_are_kept() {
    let source = vec![file("a.py"), file("a.py")];
    let plan = parse_src_tree(&source, "tests");
    assert_eq!(plan.files, vec![TestFile::new("test_a.py"), TestFile::new("test_a.py")]);
}

#[test]
fn nesting_is_mirrored() {
    let source = vec![dir("a", vec![dir("b", vec![dir("c", vec![file("__init__.py")])])])];
    let plan = parse_src_tree(&source, "tests");
    let a = &plan.dirs[0];
    let b = &a.dirs[0];
    let c = &b.dirs[0];
    assert_eq!(a.name, "test_a");
    assert_eq!(b.name, "test_b");
    assert_eq!(c.name, "test_c");
    assert_eq!(c.files, vec![TestFile::new("__init__.py")]);
    assert!(a.files.is_empty() && b.files.is_empty() && c.dirs.is_empty());
}

#[test]
fn planning_twice_gives_equal_plans() {
    let source = vec![
        file("module.py"),
        file("__init__.py"),
        dir("sub", vec![file("helpers.py"), dir("deep", vec![])]),
    ];
    assert_eq!(find_unsupported(&source), None);
    let first = parse_src_tree(&source, "tests");
    let second = parse_src_tree(&source, "tests");
    assert_eq!(first, second);
    assert_eq!(first.files.len(), 2);
    assert_eq!(first.dirs[0].dirs[0].name, "test_deep");
}

#[test]
fn supported_tree_holds_nothing_unsupported() {
    let source = vec![file("a.py"), dir("pkg", vec![dir("inner", vec![file("x.py")])])];
    assert_eq!(find_unsupported(&source), None);
}

#[test]
fn unsupported_entry_is_found() {
    let source = vec![file("a.py"), other("sock"), file("b.py")];
    assert_eq!(find_unsupported(&source), Some(unsupported(&["sock"])));
}

#[test]
fn unsupported_entry_in_a_subdirectory_is_found() {
    let source = vec![file("a.py"), dir("pkg", vec![dir("inner", vec![file("x.py"), other("link")])])];
    assert_eq!(find_unsupported(&source), Some(unsupported(&["pkg", "inner", "link"])));
}

#[test]
fn first_unsupported_entry_of_the_walk_is_named() {
    let source = vec![dir("pkg", vec![other("first")]), other("second")];
    assert_eq!(find_unsupported(&source), Some(unsupported(&["pkg", "first"])));
    let source = vec![other("second"), dir("pkg", vec![other("first")])];
    assert_eq!(find_unsupported(&source), Some(unsupported(&["second"])));
}

#[test]
fn unsupported_entry_named_like_an_init_file_is_found_too() {
    let source = vec![other("__init__.py")];
    assert_eq!(find_unsupported(&source), Some(unsupported(&["__init__.py"])));
}
