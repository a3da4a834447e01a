//! A source tree as it was read, and the planner that mirrors it.

use vstd::pervasive::unreached;
use vstd::prelude::*;
use crate::naming::{
    init_file_name,
    lemma_transformed_is_segment,
    test_prefix,
    transformed,
    transformed_name,
};
use crate::plan::{is_segment, well_named, DirPlan, FilePlan, TestDirectory, TestFile};

verus! {

/// One entry of a source directory, by its name within that directory.
///
/// A directory holds its own entries in the order in which they were read; a
/// directory that could not be read holds none.
#[derive(PartialEq, Debug)]
pub enum SourceEntry {
    /// A regular file.
    File { name: String },
    /// A directory and what it holds.
    Directory { name: String, entries: Vec<SourceEntry> },
    /// Anything that is neither a regular file nor a directory.
    Other { name: String },
}

/// The view of a source entry.
pub ghost enum SourceNode {
    File { name: Seq<char> },
    Directory { name: Seq<char>, entries: Seq<SourceNode> },
    Other { name: Seq<char> },
}

impl SourceNode {
    /// The entry's name within its directory.
    pub open spec fn name(self) -> Seq<char> {
        match self {
            SourceNode::File { name } => name,
            SourceNode::Directory { name, .. } => name,
            SourceNode::Other { name } => name,
        }
    }
}

/// The views of a sequence of source entries, in order.
pub open spec fn source_nodes(entries: Seq<SourceEntry>) -> Seq<SourceNode>
    decreases entries,
{
    Seq::new(
        entries.len(),
        |i: int|
            if 0 <= i < entries.len() {
                source_node(entries[i])
            } else {
                arbitrary()
            },
    )
}

/// The view of one source entry.
pub open spec fn source_node(entry: SourceEntry) -> SourceNode
    decreases entry,
{
    match entry {
        SourceEntry::File { name } => SourceNode::File { name: name@ },
        SourceEntry::Directory { name, entries } => SourceNode::Directory {
            name: name@,
            entries: source_nodes(entries@),
        },
        SourceEntry::Other { name } => SourceNode::Other { name: name@ },
    }
}

impl View for SourceEntry {
    type V = SourceNode;

    open spec fn view(&self) -> SourceNode {
        source_node(*self)
    }
}

/// The test files planned for `entries`: one for each regular file, in the
/// order of the entries, under its transformed name.
pub open spec fn planned_files(entries: Seq<SourceNode>) -> Seq<FilePlan>
    decreases entries.len(),
{
    if entries.len() == 0 {
        Seq::empty()
    } else {
        let before = planned_files(entries.drop_last());
        match entries.last() {
            SourceNode::File { name } => before.push(FilePlan { name: transformed(name) }),
            _ => before,
        }
    }
}

/// The test directories planned for `entries`: one for each directory, in the
/// order of the entries, under its transformed name and holding the plan of
/// what the directory holds.
pub open spec fn planned_dirs(entries: Seq<SourceNode>) -> Seq<DirPlan>
    decreases entries, 0int,
{
    if entries.len() == 0 {
        Seq::empty()
    } else {
        let before = planned_dirs(entries.drop_last());
        match entries.last() {
            SourceNode::Directory { name, entries: inner } => before.push(
                planned(inner, transformed(name)),
            ),
            _ => before,
        }
    }
}

/// The test directory named `name` that mirrors a source directory holding
/// `entries`.
pub open spec fn planned(entries: Seq<SourceNode>, name: Seq<char>) -> DirPlan
    decreases entries, 1int,
{
    DirPlan { name, dirs: planned_dirs(entries), files: planned_files(entries) }
}

/// The first entry, in the order in which the tree is walked, that is neither
/// a regular file nor a directory, as the names that lead to it from the
/// source directory; `None` where the tree holds no such entry.
///
/// The walk takes the entries of a directory in order and goes through a
/// subdirectory before it takes the entry behind it.
pub open spec fn first_unsupported(entries: Seq<SourceNode>) -> Option<Seq<Seq<char>>>
    decreases entries,
{
    if entries.len() == 0 {
        None
    } else {
        match first_unsupported(entries.drop_last()) {
            Some(path) => Some(path),
            None => match entries.last() {
                SourceNode::File { .. } => None,
                SourceNode::Directory { name, entries: inner } => match first_unsupported(inner) {
                    Some(path) => Some(seq![name] + path),
                    None => None,
                },
                SourceNode::Other { name } => Some(seq![name]),
            },
        }
    }
}

/// Why a source tree cannot be planned: it holds an entry that is neither a
/// regular file nor a directory.
#[derive(PartialEq, Debug)]
pub struct UnsupportedEntry {
    /// The names that lead from the source directory to the entry, the
    /// entry's own name last.
    pub path: Vec<String>,
}

/// The views of a sequence of names, in order.
pub open spec fn names(path: Seq<String>) -> Seq<Seq<char>> {
    Seq::new(path.len(), |i: int| path[i]@)
}

impl View for UnsupportedEntry {
    type V = Seq<Seq<char>>;

    open spec fn view(&self) -> Seq<Seq<char>> {
        names(self.path@)
    }
}

/// Finds the first entry of the walk that is neither a regular file nor a
/// directory, at any depth, and names it by the names that lead to it from
/// the source directory; `None` where the tree holds no such entry.
pub fn find_unsupported(entries: &Vec<SourceEntry>) -> (found: Option<UnsupportedEntry>)
    ensures
        found is Some <==> first_unsupported(source_nodes(entries@)) is Some,
        found matches Some(unsupported) ==> first_unsupported(source_nodes(entries@)) == Some(
            unsupported@,
        ),
    decreases entries,
{
    let ghost nodes = source_nodes(entries@);
    let mut i: usize = 0;
    assert(nodes.take(0) =~= Seq::empty());
    while i < entries.len()
        invariant
            i <= entries.len(),
            nodes == source_nodes(entries@),
            first_unsupported(nodes.take(i as int)) is None,
        decreases entries.len() - i,
    {
        proof {
            assert(nodes.take(i + 1).drop_last() =~= nodes.take(i as int));
            assert(nodes.take(i + 1).last() == entries[i as int]@);
        }
        match &entries[i] {
            SourceEntry::File { .. } => {},
            SourceEntry::Directory { name, entries: inner } => {
                match find_unsupported(inner) {
                    Some(unsupported) => {
                        let mut path = unsupported.path;
                        path.insert(0, name.clone());
                        proof {
                            assert(names(path@) =~= seq![name@] + unsupported@);
                            lemma_unsupported_in_prefix(nodes, i + 1);
                        }
                        return Some(UnsupportedEntry { path });
                    },
                    None => {},
                }
            },
            SourceEntry::Other { name } => {
                let mut path: Vec<String> = Vec::new();
                path.push(name.clone());
                proof {
                    assert(names(path@) =~= seq![name@]);
                    lemma_unsupported_in_prefix(nodes, i + 1);
                }
                return Some(UnsupportedEntry { path });
            },
        }
        i += 1;
    }
    assert(nodes.take(i as int) =~= nodes);
    None
}

/// Plans the test directory `test_path` for a source directory that holds
/// `entries`.
///
/// Every regular file becomes a test file and every directory a test
/// directory, planned in turn, each under its transformed name and in the
/// order of the entries.
///
/// A tree that holds, at any depth, an entry that is neither a regular file
/// nor a directory is not to be planned: `find_unsupported` finds such an
/// entry.
pub fn parse_src_tree(entries: &Vec<SourceEntry>, test_path: &str) -> (dir: TestDirectory)
    requires
        first_unsupported(source_nodes(entries@)) is None,
    ensures
        dir@ == planned(source_nodes(entries@), test_path@),
    decreases entries,
{
    let ghost nodes = source_nodes(entries@);
    let mut test_dir = TestDirectory::new(test_path);
    let mut i: usize = 0;
    assert(nodes.take(0) =~= Seq::empty());
    while i < entries.len()
        invariant
            i <= entries.len(),
            nodes == source_nodes(entries@),
            first_unsupported(nodes) is None,
            test_dir@ == planned(nodes.take(i as int), test_path@),
        decreases entries.len() - i,
    {
        proof {
            assert(nodes.take(i + 1).drop_last() =~= nodes.take(i as int));
            assert(nodes.take(i + 1).last() == entries[i as int]@);
            if first_unsupported(nodes.take(i + 1)) is Some {
                lemma_unsupported_in_prefix(nodes, i + 1);
            }
            if first_unsupported(nodes.take(i as int)) is Some {
                lemma_unsupported_in_prefix(nodes, i as int);
            }
        }
        match &entries[i] {
            SourceEntry::File { name } => {
                let test_name = transformed_name(name.as_str());
                test_dir.register_file(TestFile::new(test_name.as_str()));
            },
            SourceEntry::Directory { name, entries: inner } => {
                let test_name = transformed_name(name.as_str());
                let sub_dir = parse_src_tree(inner, test_name.as_str());
                test_dir.register_directory(sub_dir);
            },
            SourceEntry::Other { .. } => {
                unreached::<()>();
            },
        }
        i += 1;
    }
    assert(nodes.take(i as int) =~= nodes);
    test_dir
}

/// An unsupported entry met among the first `n` entries is the one met in
/// the whole sequence.
pub proof fn lemma_unsupported_in_prefix(entries: Seq<SourceNode>, n: int)
    requires
        0 <= n <= entries.len(),
        first_unsupported(entries.take(n)) is Some,
    ensures
        first_unsupported(entries) == first_unsupported(entries.take(n)),
    decreases entries.len() - n,
{
    if n < entries.len() {
        assert(entries.take(n + 1).drop_last() =~= entries.take(n));
        lemma_unsupported_in_prefix(entries, n + 1);
    } else {
        assert(entries.take(n) =~= entries);
    }
}

/// Planning the same source tree twice, for the same name, gives two plans
/// that are equal in names, order and nesting.
pub proof fn lemma_replanning_agrees(
    entries: Seq<SourceNode>,
    name: Seq<char>,
    first: TestDirectory,
    second: TestDirectory,
)
    requires
        first@ == planned(entries, name),
        second@ == planned(entries, name),
    ensures
        first@ == second@,
        first@.name == name,
        first@.files == planned_files(entries),
        first@.dirs == planned_dirs(entries),
{
}

/// How many of `entries` are regular files.
pub open spec fn count_files(entries: Seq<SourceNode>) -> nat
    decreases entries.len(),
{
    if entries.len() == 0 {
        0
    } else if entries.last() is File {
        count_files(entries.drop_last()) + 1
    } else {
        count_files(entries.drop_last())
    }
}

/// How many of `entries` are directories.
pub open spec fn count_dirs(entries: Seq<SourceNode>) -> nat
    decreases entries.len(),
{
    if entries.len() == 0 {
        0
    } else if entries.last() is Directory {
        count_dirs(entries.drop_last()) + 1
    } else {
        count_dirs(entries.drop_last())
    }
}

/// A plan holds one test file for each regular file and one test directory
/// for each directory, and nothing else.
pub proof fn lemma_plan_sizes(entries: Seq<SourceNode>)
    ensures
        planned_files(entries).len() == count_files(entries),
        planned_dirs(entries).len() == count_dirs(entries),
    decreases entries.len(),
{
    if entries.len() > 0 {
        lemma_plan_sizes(entries.drop_last());
    }
}

/// The regular file at position `i` is planned as the test file whose
/// position among the test files is the number of regular files before `i`,
/// under its transformed name.
pub proof fn lemma_file_is_planned(entries: Seq<SourceNode>, i: int)
    requires
        0 <= i < entries.len(),
        entries[i] is File,
    ensures
        count_files(entries.take(i)) < planned_files(entries).len(),
        planned_files(entries)[count_files(entries.take(i)) as int].name == transformed(
            entries[i].name(),
        ),
    decreases entries.len(),
{
    let front = entries.drop_last();
    lemma_plan_sizes(front);
    if i == entries.len() - 1 {
        assert(entries.take(i) =~= front);
    } else {
        assert(front.take(i) =~= entries.take(i));
        lemma_file_is_planned(front, i);
    }
}

/// The directory at position `i` is planned as the test directory whose
/// position among the test directories is the number of directories before
/// `i`: under its transformed name, and as the plan of what it holds.
pub proof fn lemma_directory_is_planned(entries: Seq<SourceNode>, i: int)
    requires
        0 <= i < entries.len(),
        entries[i] is Directory,
    ensures
        count_dirs(entries.take(i)) < planned_dirs(entries).len(),
        planned_dirs(entries)[count_dirs(entries.take(i)) as int] == planned(
            entries[i]->Directory_entries,
            transformed(entries[i].name()),
        ),
    decreases entries.len(),
{
    let front = entries.drop_last();
    lemma_plan_sizes(front);
    if i == entries.len() - 1 {
        assert(entries.take(i) =~= front);
    } else {
        assert(front.take(i) =~= entries.take(i));
        lemma_directory_is_planned(front, i);
    }
}

/// The name that the plan gives to the entry at position `i`, which is a
/// regular file or a directory.
pub open spec fn planned_name(entries: Seq<SourceNode>, i: int) -> Seq<char> {
    if entries[i] is File {
        planned_files(entries)[count_files(entries.take(i)) as int].name
    } else {
        planned_dirs(entries)[count_dirs(entries.take(i)) as int].name
    }
}

/// A package-init file passes through: the test file planned for a regular
/// file of that name has the same name.
pub proof fn lemma_init_file_passes_through(entries: Seq<SourceNode>, i: int)
    requires
        0 <= i < entries.len(),
        entries[i] is File,
        entries[i].name() == init_file_name(),
    ensures
        planned_name(entries, i) == init_file_name(),
{
    lemma_file_is_planned(entries, i);
}

/// The prefix rule: the test entry planned for a regular file or a directory
/// of any other name is named by the test prefix followed by that name.
pub proof fn lemma_prefix_rule(entries: Seq<SourceNode>, i: int)
    requires
        0 <= i < entries.len(),
        entries[i] is File || entries[i] is Directory,
        entries[i].name() != init_file_name(),
    ensures
        planned_name(entries, i) == test_prefix() + entries[i].name(),
{
    if entries[i] is File {
        lemma_file_is_planned(entries, i);
    } else {
        lemma_directory_is_planned(entries, i);
    }
}

/// Whether the tree holds, at any depth, an entry that is neither a regular
/// file nor a directory.
pub open spec fn holds_unsupported(entries: Seq<SourceNode>) -> bool
    decreases entries,
{
    exists|i: int|
        0 <= i < entries.len() && match #[trigger] entries[i] {
            SourceNode::File { .. } => false,
            SourceNode::Directory { entries: inner, .. } => holds_unsupported(inner),
            SourceNode::Other { .. } => true,
        }
}

/// A tree is unfit for planning exactly where it holds an unsupported entry,
/// however deep it lies and whatever stands beside it.
pub proof fn lemma_fails_iff_unsupported(entries: Seq<SourceNode>)
    ensures
        first_unsupported(entries) is Some <==> holds_unsupported(entries),
    decreases entries,
{
    if entries.len() > 0 {
        let front = entries.drop_last();
        let last = entries.last();
        lemma_fails_iff_unsupported(front);
        if let SourceNode::Directory { entries: inner, .. } = last {
            lemma_fails_iff_unsupported(inner);
        }
        if first_unsupported(entries) is Some {
            if first_unsupported(front) is Some {
                let i = choose|i: int|
                    0 <= i < front.len() && match #[trigger] front[i] {
                        SourceNode::File { .. } => false,
                        SourceNode::Directory { entries: inner, .. } => holds_unsupported(inner),
                        SourceNode::Other { .. } => true,
                    };
                assert(entries[i] == front[i]);
            } else {
                assert(entries[entries.len() - 1] == last);
            }
            assert(holds_unsupported(entries));
        }
        if holds_unsupported(entries) {
            let i = choose|i: int|
                0 <= i < entries.len() && match #[trigger] entries[i] {
                    SourceNode::File { .. } => false,
                    SourceNode::Directory { entries: inner, .. } => holds_unsupported(inner),
                    SourceNode::Other { .. } => true,
                };
            if i < front.len() {
                assert(front[i] == entries[i]);
                assert(holds_unsupported(front));
            }
            assert(first_unsupported(entries) is Some);
        }
    }
}

/// A source directory that holds nothing, as one that could not be read, is
/// planned as an empty test directory.
pub proof fn lemma_empty_source_is_planned_empty(name: Seq<char>)
    ensures
        first_unsupported(Seq::empty()) is None,
        planned(Seq::empty(), name) == (DirPlan {
            name,
            dirs: Seq::empty(),
            files: Seq::empty(),
        }),
{
}

/// Whether every name in the source tree is a single path segment.
pub open spec fn segment_names(entries: Seq<SourceNode>) -> bool
    decreases entries,
{
    forall|i: int|
        0 <= i < entries.len() ==> is_segment((#[trigger] entries[i]).name()) && match entries[i] {
            SourceNode::Directory { entries: inner, .. } => segment_names(inner),
            _ => true,
        }
}

/// Where every name in the source tree is a single path segment, so is every
/// name that is planned for its entries.
pub proof fn lemma_planned_entries_are_well_named(entries: Seq<SourceNode>)
    requires
        segment_names(entries),
    ensures
        forall|k: int|
            0 <= k < planned_files(entries).len() ==> is_segment(
                (#[trigger] planned_files(entries)[k]).name,
            ),
        forall|k: int|
            0 <= k < planned_dirs(entries).len() ==> well_named(
                #[trigger] planned_dirs(entries)[k],
            ),
    decreases entries, 0int,
{
    if entries.len() > 0 {
        let front = entries.drop_last();
        let last = entries[entries.len() - 1];
        assert forall|i: int| 0 <= i < front.len() implies is_segment(
            (#[trigger] front[i]).name(),
        ) && match front[i] {
            SourceNode::Directory { entries: inner, .. } => segment_names(inner),
            _ => true,
        } by {
            assert(front[i] == entries[i]);
        }
        lemma_planned_entries_are_well_named(front);
        lemma_transformed_is_segment(last.name());
        if let SourceNode::Directory { name, entries: inner } = last {
            lemma_planned_entries_are_well_named(inner);
            lemma_plan_is_well_named(inner, transformed(name));
        }
        assert forall|k: int| 0 <= k < planned_files(entries).len() implies is_segment(
            (#[trigger] planned_files(entries)[k]).name,
        ) by {
            if k < planned_files(front).len() {
                assert(planned_files(entries)[k] == planned_files(front)[k]);
            }
        }
        assert forall|k: int| 0 <= k < planned_dirs(entries).len() implies well_named(
            #[trigger] planned_dirs(entries)[k],
        ) by {
            if k < planned_dirs(front).len() {
                assert(planned_dirs(entries)[k] == planned_dirs(front)[k]);
            }
        }
    }
}

/// A plan is well named: where the name given to the test directory and
/// every name in the source tree is a single path segment, so is every name
/// in the plan.
pub proof fn lemma_plan_is_well_named(entries: Seq<SourceNode>, name: Seq<char>)
    requires
        segment_names(entries),
        is_segment(name),
    ensures
        well_named(planned(entries, name)),
    decreases entries, 1int,
{
    lemma_planned_entries_are_well_named(entries);
    let plan = planned(entries, name);
    assert(plan.files == planned_files(entries));
    assert(plan.dirs == planned_dirs(entries));
}

} // verus!
