//! The plan tree: test files and test directories, with their mathematical views.

use vstd::prelude::*;
use vstd::string::StringExecFns;

verus! {

/// The view of a planned test file: its name.
pub ghost struct FilePlan {
    pub name: Seq<char>,
}

/// The view of a planned test directory: its name, its subdirectories and its
/// files, both in the order in which they were registered.
pub ghost struct DirPlan {
    pub name: Seq<char>,
    pub dirs: Seq<DirPlan>,
    pub files: Seq<FilePlan>,
}

/// What a planned entry is created as.
#[derive(Clone, Copy, PartialEq, Eq, Debug, Structural)]
pub enum ResourceKind {
    /// An empty regular file.
    File,
    /// A directory.
    Directory,
}

/// What a build needs to know of a planned entry: the name it gets in the
/// directory above it, and what it is created as.
pub trait TestResource {
    /// The name of the entry.
    spec fn name_view(&self) -> Seq<char>;

    /// What the entry is created as.
    spec fn kind_view(&self) -> ResourceKind;

    /// The name under which the entry is created.
    fn resource_name(&self) -> (name: &str)
        ensures
            name@ == self.name_view(),
    ;

    /// What the entry is created as.
    fn resource_kind(&self) -> (kind: ResourceKind)
        ensures
            kind == self.kind_view(),
    ;
}

/// Whether `name` is a single path segment: not empty, and without a
/// separator.
pub open spec fn is_segment(name: Seq<char>) -> bool {
    name.len() > 0 && !name.contains('/')
}

/// Whether every name in the plan, that of `dir` and those of all that it
/// holds at any depth, is a single path segment.
pub open spec fn well_named(dir: DirPlan) -> bool
    decreases dir,
{
    &&& is_segment(dir.name)
    &&& forall|i: int| 0 <= i < dir.files.len() ==> is_segment((#[trigger] dir.files[i]).name)
    &&& forall|i: int| 0 <= i < dir.dirs.len() ==> well_named(#[trigger] dir.dirs[i])
}

/// A planned test file.
#[derive(PartialEq, Debug)]
pub struct TestFile {
    pub name: String,
}

/// A planned test directory, which owns its subdirectories and its files.
#[derive(PartialEq, Debug)]
pub struct TestDirectory {
    pub name: String,
    pub dirs: Vec<TestDirectory>,
    pub files: Vec<TestFile>,
}

impl View for TestFile {
    type V = FilePlan;

    open spec fn view(&self) -> FilePlan {
        FilePlan { name: self.name@ }
    }
}

/// The views of a sequence of test files, in order.
pub open spec fn file_plans(files: Seq<TestFile>) -> Seq<FilePlan> {
    Seq::new(files.len(), |i: int| files[i]@)
}

/// The views of a sequence of test directories, in order.
pub open spec fn dir_plans(dirs: Seq<TestDirectory>) -> Seq<DirPlan>
    decreases dirs,
{
    Seq::new(
        dirs.len(),
        |i: int|
            if 0 <= i < dirs.len() {
                dir_plan(dirs[i])
            } else {
                arbitrary()
            },
    )
}

/// The view of one test directory.
pub open spec fn dir_plan(dir: TestDirectory) -> DirPlan
    decreases dir,
{
    DirPlan { name: dir.name@, dirs: dir_plans(dir.dirs@), files: file_plans(dir.files@) }
}

impl View for TestDirectory {
    type V = DirPlan;

    open spec fn view(&self) -> DirPlan {
        dir_plan(*self)
    }
}

impl TestResource for TestFile {
    open spec fn name_view(&self) -> Seq<char> {
        self@.name
    }

    open spec fn kind_view(&self) -> ResourceKind {
        ResourceKind::File
    }

    fn resource_name(&self) -> (name: &str) {
        self.name.as_str()
    }

    fn resource_kind(&self) -> (kind: ResourceKind) {
        ResourceKind::File
    }
}

impl TestResource for TestDirectory {
    open spec fn name_view(&self) -> Seq<char> {
        self@.name
    }

    open spec fn kind_view(&self) -> ResourceKind {
        ResourceKind::Directory
    }

    fn resource_name(&self) -> (name: &str) {
        self.name.as_str()
    }

    fn resource_kind(&self) -> (kind: ResourceKind) {
        ResourceKind::Directory
    }
}

impl Clone for TestFile {
    fn clone(&self) -> (copy: TestFile)
        ensures
            copy@ == self@,
    {
        TestFile { name: self.name.clone() }
    }
}

impl Clone for TestDirectory {
    fn clone(&self) -> (copy: TestDirectory)
        ensures
            copy@ == self@,
        decreases self,
    {
        let mut dirs: Vec<TestDirectory> = Vec::new();
        let mut i: usize = 0;
        while i < self.dirs.len()
            invariant
                i <= self.dirs.len(),
                dirs.len() == i,
                forall|j: int| 0 <= j < i ==> dirs[j]@ == self.dirs[j]@,
            decreases self.dirs.len() - i,
        {
            dirs.push(self.dirs[i].clone());
            i += 1;
        }
        let mut files: Vec<TestFile> = Vec::new();
        let mut k: usize = 0;
        while k < self.files.len()
            invariant
                k <= self.files.len(),
                files.len() == k,
                forall|j: int| 0 <= j < k ==> files[j]@ == self.files[j]@,
            decreases self.files.len() - k,
        {
            files.push(self.files[k].clone());
            k += 1;
        }
        assert(dir_plans(dirs@) =~= dir_plans(self.dirs@));
        assert(file_plans(files@) =~= file_plans(self.files@));
        TestDirectory { name: self.name.clone(), dirs, files }
    }
}

impl TestFile {
    /// A test file of the given name.
    pub fn new(name: &str) -> (file: TestFile)
        ensures
            file@.name == name@,
    {
        TestFile { name: String::from_str(name) }
    }
}

impl TestDirectory {
    /// An empty test directory of the given name.
    pub fn new(name: &str) -> (dir: TestDirectory)
        ensures
            dir@ == (DirPlan { name: name@, dirs: Seq::empty(), files: Seq::empty() }),
    {
        let dir = TestDirectory { name: String::from_str(name), dirs: Vec::new(), files: Vec::new() };
        assert(dir_plans(dir.dirs@) =~= Seq::empty());
        assert(file_plans(dir.files@) =~= Seq::empty());
        dir
    }

    /// Adds `file` behind the files already registered.
    pub fn register_file(&mut self, file: TestFile)
        ensures
            final(self)@ == (DirPlan { files: old(self)@.files.push(file@), ..old(self)@ }),
    {
        self.files.push(file);
        assert(file_plans(self.files@) =~= file_plans(old(self).files@).push(file@));
    }

    /// Adds `directory` behind the subdirectories already registered.
    pub fn register_directory(&mut self, directory: TestDirectory)
        ensures
            final(self)@ == (DirPlan { dirs: old(self)@.dirs.push(directory@), ..old(self)@ }),
    {
        self.dirs.push(directory);
        assert(dir_plans(self.dirs@) =~= dir_plans(old(self).dirs@).push(directory@));
    }
}

} // verus!
