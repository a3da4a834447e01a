use test_scaffold::builder::{create_resource, traverse_and_build, BuildStep};
use test_scaffold::paths::{split_test_path, try_split_test_path};
use test_scaffold::plan::{ResourceKind, TestDirectory, TestFile};
use test_scaffold::source::{parse_src_tree, SourceEntry};
use test_scaffold::target::Target;

fn step(path: &str, kind: ResourceKind) -> BuildStep {
    BuildStep { path: String::from(path), kind }
}

fn file_step(path: &str) -> BuildStep {
    step(path, ResourceKind::File)
}

fn dir_step(path: &str) -> BuildStep {
    step(path, ResourceKind::Directory)
}

fn example_source() -> Vec<SourceEntry> {
    vec![
        SourceEntry::File { name: String::from("module.py") },
        SourceEntry::File { name: String::from("__init__.py") },
        SourceEntry::Directory {
            name: String::from("sub"),
            entries: vec![SourceEntry::File { name: String::from("helpers.py") }],
        },
    ]
}

fn example_plan() -> TestDirectory {
    let mut sub = TestDirectory::new("test_sub");
    sub.register_file(TestFile::new("a.py"));
    sub.register_directory(TestDirectory::new("deep"));
    let mut plan = TestDirectory::new("tests");
    plan.register_directory(sub);
    plan.register_directory(TestDirectory::new("last"));
    plan.register_file(TestFile::new("__init__.py"));
    plan.register_file(TestFile::new("test_b.py"));
    plan
}

#[test]
fn destination_splits_into_parent_and_root_name() {
    assert_eq!(split_test_path("./a/b/tests"), (String::from("./a/b"), String::from("tests")));
    assert_eq!(
        try_split_test_path("./a/b/tests"),
        Some((String::from("./a/b"), String::from("tests")))
    );
}

#[test]
fn bare_name_has_an_empty_parent() {
    assert_eq!(split_test_path("tests"), (String::new(), String::from("tests")));
    assert_eq!(split_test_path("./tests"), (String::from("."), String::from("tests")));
    assert_eq!(split_test_path("/tests"), (String::from("/"), String::from("tests")));
    assert_eq!(try_split_test_path("tests"), Some((String::new(), String::from("tests"))));
}

#[test]
fn path_without_parent_does_not_split() {
    assert_eq!(try_split_test_path("/"), None);
    assert_eq!(try_split_test_path(""), None);
}

#[test]
fn resource_path_is_the_parent_joined_with_the_name() {
    let mut steps = Vec::new();
    let path = create_resource(&TestFile::new("test_a.py"), "out/tests", &mut steps);
    assert_eq!(path, "out/tests/test_a.py");
    let path = create_resource(&TestDirectory::new("tests"), "", &mut steps);
    assert_eq!(path, "tests");
    let path = create_resource(&TestDirectory::new("tests"), "out/", &mut steps);
    assert_eq!(path, "out/tests");
    assert_eq!(
        steps,
        vec![file_step("out/tests/test_a.py"), dir_step("tests"), dir_step("out/tests")]
    );
}

#[test]
fn create_resource_adds_behind_the_steps_there() {
    let mut steps = vec![dir_step("x")];
    create_resource(&TestFile::new("y"), "x", &mut steps);
    assert_eq!(steps, vec![dir_step("x"), file_step("x/y")]);
}

#[test]
fn steps_come_directory_first_then_files_then_subdirectories() {
    let mut steps = Vec::new();
    let root = traverse_and_build(&example_plan(), "./out", &mut steps);
    assert_eq!(root, "./out/tests");
    assert_eq!(
        steps,
        vec![
            dir_step("./out/tests"),
            file_step("./out/tests/__init__.py"),
            file_step("./out/tests/test_b.py"),
            dir_step("./out/tests/test_sub"),
            file_step("./out/tests/test_sub/a.py"),
            dir_step("./out/tests/test_sub/deep"),
            dir_step("./out/tests/last"),
        ]
    );
}

#[test]
fn empty_directory_is_one_step() {
    let mut steps = vec![file_step("kept")];
    let root = traverse_and_build(&TestDirectory::new("tests"), "", &mut steps);
    assert_eq!(root, "tests");
    assert_eq!(steps, vec![file_step("kept"), dir_step("tests")]);
}

#[test]
fn example_tree_is_materialized() {
    let (parent, name) = split_test_path("tests");
    let plan = parse_src_tree(&example_source(), &name);
    let mut steps = Vec::new();
    traverse_and_build(&plan, &parent, &mut steps);
    let mut target = Target::new();
    let created = target.build(&steps);
    assert_eq!(
        created,
        vec![
            dir_step("tests"),
            file_step("tests/test_module.py"),
            file_step("tests/__init__.py"),
            dir_step("tests/test_sub"),
            file_step("tests/test_sub/test_helpers.py"),
        ]
    );
    assert_eq!(target.kind_of("tests"), Some(ResourceKind::Directory));
    assert_eq!(target.kind_of("tests/__init__.py"), Some(ResourceKind::File));
    assert_eq!(target.kind_of("tests/test_module.py"), Some(ResourceKind::File));
    assert_eq!(target.kind_of("tests/test_sub"), Some(ResourceKind::Directory));
    assert_eq!(target.kind_of("tests/test_sub/test_helpers.py"), Some(ResourceKind::File));
    assert_eq!(target.kind_of("tests/test_sub/__init__.py"), None);
    assert_eq!(target.kind_of("tests/module.py"), None);
}

#[test]
fn step_creates_only_what_is_missing() {
    assert_eq!(file_step("a").action(false), Some(ResourceKind::File));
    assert_eq!(dir_step("a").action(false), Some(ResourceKind::Directory));
    assert_eq!(file_step("a").action(true), None);
    assert_eq!(dir_step("a").action(true), None);
}

#[test]
fn new_target_holds_nothing() {
    let target = Target::new();
    assert!(!target.holds("tests"));
    assert!(!target.holds(""));
    assert_eq!(target.kind_of("tests"), None);
}

#[test]
fn apply_creates_a_missing_path_once() {
    let mut target = Target::new();
    assert!(target.apply(&dir_step("tests")));
    assert!(target.holds("tests"));
    assert!(!target.holds("test"));
    assert!(!target.apply(&file_step("tests")));
    assert_eq!(target.kind_of("tests"), Some(ResourceKind::Directory));
}

#[test]
fn building_twice_is_building_once() {
    let mut steps = Vec::new();
    traverse_and_build(&example_plan(), "out", &mut steps);
    let mut target = Target::new();
    let first = target.build(&steps);
    assert_eq!(first, steps);
    let second = target.build(&steps);
    assert_eq!(second, Vec::new());
    for step in &steps {
        assert_eq!(target.kind_of(&step.path), Some(step.kind));
    }
    assert!(!target.holds("out"));
}

#[test]
fn build_leaves_what_exists() {
    let mut target = Target::new();
    target.apply(&file_step("out/tests/test_sub"));
    target.apply(&dir_step("out/tests/__init__.py"));
    target.apply(&file_step("out/elsewhere"));
    let mut steps = Vec::new();
    traverse_and_build(&example_plan(), "out", &mut steps);
    let created = target.build(&steps);
    assert_eq!(
        created,
        vec![
            dir_step("out/tests"),
            file_step("out/tests/test_b.py"),
            file_step("out/tests/test_sub/a.py"),
            dir_step("out/tests/test_sub/deep"),
            dir_step("out/tests/last"),
        ]
    );
    assert_eq!(target.kind_of("out/tests/test_sub"), Some(ResourceKind::File));
    assert_eq!(target.kind_of("out/tests/__init__.py"), Some(ResourceKind::Directory));
    assert_eq!(target.kind_of("out/elsewhere"), Some(ResourceKind::File));
}

#[test]
fn path_planned_twice_is_created_once() {
    let mut plan = TestDirectory::new("tests");
    plan.register_file(TestFile::new("same"));
    plan.register_file(TestFile::new("same"));
    plan.register_directory(TestDirectory::new("same"));
    let mut steps = Vec::new();
    traverse_and_build(&plan, "", &mut steps);
    assert_eq!(steps.len(), 4);
    let mut target = Target::new();
    let created = target.build(&steps);
    assert_eq!(created, vec![dir_step("tests"), file_step("tests/same")]);
    assert_eq!(target.kind_of("tests/same"), Some(ResourceKind::File));
}

#[test]
fn clone_of_a_step_is_equal_to_it() {
    let step = dir_step("out/tests");
    assert_eq!(step.clone(), step);
}
