//! The build: a plan laid out as an ordered list of steps, each of which
//! creates one path unless it exists.
//!
//! Nothing here touches a disk. Whoever runs a build takes the steps in
//! order, finds out for each whether its path exists, and does what
//! `BuildStep::action` says.

use vstd::prelude::*;
use crate::paths::{join, joined_path};
use crate::plan::{DirPlan, FilePlan, ResourceKind, TestDirectory, TestResource};

verus! {

/// One step of a build: `path` is created as `kind` unless it exists.
#[derive(PartialEq, Debug)]
pub struct BuildStep {
    pub path: String,
    pub kind: ResourceKind,
}

/// The view of a build step.
pub ghost struct Step {
    pub path: Seq<char>,
    pub kind: ResourceKind,
}

impl View for BuildStep {
    type V = Step;

    open spec fn view(&self) -> Step {
        Step { path: self.path@, kind: self.kind }
    }
}

impl BuildStep {
    /// What the step does, given whether its path exists: a path that exists
    /// is left as it is, whatever it is; one that does not is created as the
    /// step's kind.
    pub fn action(&self, present: bool) -> (create: Option<ResourceKind>)
        ensures
            present ==> create is None,
            !present ==> create == Some(self@.kind),
    {
        if present {
            None
        } else {
            Some(self.kind)
        }
    }
}

impl Clone for BuildStep {
    fn clone(&self) -> (copy: BuildStep)
        ensures
            copy@ == self@,
    {
        BuildStep { path: self.path.clone(), kind: self.kind }
    }
}

/// The views of a sequence of build steps, in order.
pub open spec fn step_views(steps: Seq<BuildStep>) -> Seq<Step> {
    Seq::new(steps.len(), |i: int| steps[i]@)
}

/// The steps for the files of a directory built at `root`, in the order of
/// the files.
pub open spec fn file_steps(files: Seq<FilePlan>, root: Seq<char>) -> Seq<Step> {
    Seq::new(
        files.len(),
        |i: int| Step { path: joined_path(root, files[i].name), kind: ResourceKind::File },
    )
}

/// The steps for the subdirectories of a directory built at `root`: those of
/// each subdirectory together, in the order of the subdirectories.
pub open spec fn dir_steps(dirs: Seq<DirPlan>, root: Seq<char>) -> Seq<Step>
    decreases dirs, 0int,
{
    if dirs.len() == 0 {
        Seq::empty()
    } else {
        dir_steps(dirs.drop_last(), root) + build_steps(dirs.last(), root)
    }
}

/// The steps that build `dir` under `parent`: first the directory itself, at
/// `parent` joined with its name, then its files, then its subdirectories,
/// each of them built in full before the next.
pub open spec fn build_steps(dir: DirPlan, parent: Seq<char>) -> Seq<Step>
    decreases dir, 1int,
{
    let root = joined_path(parent, dir.name);
    seq![Step { path: root, kind: ResourceKind::Directory }] + file_steps(dir.files, root)
        + dir_steps(dir.dirs, root)
}

/// Adds the step that creates `resource` in the directory `path`, and returns
/// the path of the resource: `path` joined with the resource's name.
pub fn create_resource<T: TestResource>(resource: &T, path: &str, steps: &mut Vec<BuildStep>) -> (
    full_path: String
)
    ensures
        full_path@ == joined_path(path@, resource.name_view()),
        step_views(final(steps)@) == step_views(old(steps)@).push(
            Step { path: full_path@, kind: resource.kind_view() },
        ),
{
    let full_path = join(path, resource.resource_name());
    steps.push(BuildStep { path: full_path.clone(), kind: resource.resource_kind() });
    assert(step_views(steps@) =~= step_views(old(steps)@).push(
        Step { path: full_path@, kind: resource.kind_view() },
    ));
    full_path
}

/// Adds the steps that build `test_dir` under `path`, and returns the path of
/// the directory built: `path` joined with the directory's name.
///
/// The directory comes first, then its files in their order, then its
/// subdirectories in theirs, each with all that it holds.
pub fn traverse_and_build(test_dir: &TestDirectory, path: &str, steps: &mut Vec<BuildStep>) -> (
    root: String
)
    ensures
        root@ == joined_path(path@, test_dir@.name),
        step_views(final(steps)@) == step_views(old(steps)@) + build_steps(test_dir@, path@),
    decreases test_dir,
{
    let root = create_resource(test_dir, path, steps);
    let ghost first = step_views(steps@);
    let mut i: usize = 0;
    while i < test_dir.files.len()
        invariant
            i <= test_dir.files.len(),
            step_views(steps@) == first + file_steps(test_dir@.files, root@).take(i as int),
        decreases test_dir.files.len() - i,
    {
        create_resource(&test_dir.files[i], root.as_str(), steps);
        assert(step_views(steps@) =~= first + file_steps(test_dir@.files, root@).take(i + 1));
        i += 1;
    }
    let ghost with_files = step_views(steps@);
    assert(with_files =~= first + file_steps(test_dir@.files, root@));
    let mut k: usize = 0;
    while k < test_dir.dirs.len()
        invariant
            k <= test_dir.dirs.len(),
            step_views(steps@) == with_files + dir_steps(test_dir@.dirs.take(k as int), root@),
        decreases test_dir.dirs.len() - k,
    {
        assert(test_dir@.dirs.take(k + 1).drop_last() =~= test_dir@.dirs.take(k as int));
        traverse_and_build(&test_dir.dirs[k], root.as_str(), steps);
        assert(step_views(steps@) =~= with_files + dir_steps(
            test_dir@.dirs.take(k + 1),
            root@,
        ));
        k += 1;
    }
    assert(test_dir@.dirs.take(k as int) =~= test_dir@.dirs);
    assert(step_views(steps@) =~= step_views(old(steps)@) + build_steps(test_dir@, path@));
    root
}

} // verus!
