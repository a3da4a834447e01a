//! What a build does to the tree it is run against, and the laws that follow.
//!
//! The tree is a map from each path that exists to what it is. `Target` holds
//! such a tree in memory, so that a build can be run without touching a disk.

use vstd::prelude::*;
use vstd::string::StringExecFns;
use crate::builder::{step_views, BuildStep, Step};
use crate::plan::ResourceKind;

verus! {

/// A tree of paths: each path that exists, with what it is.
pub type Tree = Map<Seq<char>, ResourceKind>;

/// The tree after one step: unchanged where the step's path exists, and with
/// the path added as the step's kind where it does not.
pub open spec fn after_step(tree: Tree, step: Step) -> Tree {
    if tree.dom().contains(step.path) {
        tree
    } else {
        tree.insert(step.path, step.kind)
    }
}

/// The tree after the steps, taken in order.
pub open spec fn after_steps(tree: Tree, steps: Seq<Step>) -> Tree
    decreases steps.len(),
{
    if steps.len() == 0 {
        tree
    } else {
        after_step(after_steps(tree, steps.drop_last()), steps.last())
    }
}

/// The steps that create something when the steps are taken in order: those
/// whose path does not exist when their turn comes.
pub open spec fn created_by(tree: Tree, steps: Seq<Step>) -> Seq<Step>
    decreases steps.len(),
{
    if steps.len() == 0 {
        Seq::empty()
    } else {
        let before = created_by(tree, steps.drop_last());
        if after_steps(tree, steps.drop_last()).dom().contains(steps.last().path) {
            before
        } else {
            before.push(steps.last())
        }
    }
}

/// Whether one of the steps is for `path`.
pub open spec fn has_path(steps: Seq<Step>, path: Seq<char>) -> bool {
    exists|j: int| 0 <= j < steps.len() && (#[trigger] steps[j]).path == path
}

/// After a build the paths that exist are those that existed before and
/// those of the steps, and no others.
pub proof fn lemma_paths_after_build(tree: Tree, steps: Seq<Step>)
    ensures
        forall|path: Seq<char>| #[trigger]
            after_steps(tree, steps).dom().contains(path) <==> tree.dom().contains(path)
                || has_path(steps, path),
    decreases steps.len(),
{
    if steps.len() > 0 {
        let front = steps.drop_last();
        lemma_paths_after_build(tree, front);
        assert forall|path: Seq<char>| #[trigger]
            after_steps(tree, steps).dom().contains(path) <==> tree.dom().contains(path)
                || has_path(steps, path) by {
            let prev = after_steps(tree, front);
            assert(prev.dom().contains(path) <==> tree.dom().contains(path) || has_path(
                front,
                path,
            ));
            assert(after_steps(tree, steps).dom().contains(path) <==> prev.dom().contains(path)
                || steps.last().path == path);
            assert(has_path(steps, path) <==> has_path(front, path) || steps.last().path
                == path) by {
                if has_path(front, path) {
                    let j = choose|j: int|
                        0 <= j < front.len() && (#[trigger] front[j]).path == path;
                    assert(steps[j].path == path);
                }
                if steps.last().path == path {
                    assert(steps[steps.len() - 1].path == path);
                }
                if has_path(steps, path) {
                    let j = choose|j: int|
                        0 <= j < steps.len() && (#[trigger] steps[j]).path == path;
                    if j < front.len() {
                        assert(front[j].path == path);
                    }
                }
            }
        }
    }
}

/// A build is not destructive: every path that exists before it exists after
/// it, as what it was, and no step that creates something is for a path that
/// existed before.
pub proof fn lemma_build_keeps_what_exists(tree: Tree, steps: Seq<Step>)
    ensures
        forall|path: Seq<char>| #[trigger]
            tree.dom().contains(path) ==> after_steps(tree, steps).dom().contains(path)
                && after_steps(tree, steps)[path] == tree[path],
        forall|i: int|
            0 <= i < created_by(tree, steps).len() ==> !tree.dom().contains(
                (#[trigger] created_by(tree, steps)[i]).path,
            ),
    decreases steps.len(),
{
    if steps.len() > 0 {
        lemma_build_keeps_what_exists(tree, steps.drop_last());
    }
}

/// Steps whose paths all exist change nothing and create nothing.
pub proof fn lemma_nothing_to_build(tree: Tree, steps: Seq<Step>)
    requires
        forall|j: int| 0 <= j < steps.len() ==> tree.dom().contains((#[trigger] steps[j]).path),
    ensures
        after_steps(tree, steps) == tree,
        created_by(tree, steps) == Seq::<Step>::empty(),
    decreases steps.len(),
{
    if steps.len() > 0 {
        let front = steps.drop_last();
        assert forall|j: int| 0 <= j < front.len() implies tree.dom().contains(
            (#[trigger] front[j]).path,
        ) by {
            assert(front[j] == steps[j]);
        }
        lemma_nothing_to_build(tree, front);
        assert(tree.dom().contains(steps[steps.len() - 1].path));
    }
}

/// A build is idempotent: run again on the tree that it left, with the same
/// steps, it creates nothing and leaves the tree as it is.
pub proof fn lemma_build_twice(tree: Tree, steps: Seq<Step>)
    ensures
        after_steps(after_steps(tree, steps), steps) == after_steps(tree, steps),
        created_by(after_steps(tree, steps), steps) == Seq::<Step>::empty(),
{
    let built = after_steps(tree, steps);
    lemma_paths_after_build(tree, steps);
    assert forall|j: int| 0 <= j < steps.len() implies built.dom().contains(
        (#[trigger] steps[j]).path,
    ) by {
        assert(has_path(steps, steps[j].path));
    }
    lemma_nothing_to_build(built, steps);
}

/// Among steps taken on an empty tree, the first one for a path decides what
/// the path is.
proof fn lemma_first_step_decides(steps: Seq<Step>, first: int)
    requires
        0 <= first < steps.len(),
        forall|j: int| 0 <= j < first ==> (#[trigger] steps[j]).path != steps[first].path,
    ensures
        after_steps(Map::empty(), steps).dom().contains(steps[first].path),
        after_steps(Map::empty(), steps)[steps[first].path] == steps[first].kind,
    decreases steps.len(),
{
    let front = steps.drop_last();
    if first == steps.len() - 1 {
        lemma_paths_after_build(Map::empty(), front);
        if has_path(front, steps[first].path) {
            let j = choose|j: int|
                0 <= j < front.len() && (#[trigger] front[j]).path == steps[first].path;
            assert(steps[j].path == steps[first].path);
        }
    } else {
        assert(front[first] == steps[first]);
        assert forall|j: int| 0 <= j < first implies (#[trigger] front[j]).path
            != front[first].path by {
            assert(front[j] == steps[j]);
        }
        lemma_first_step_decides(front, first);
    }
}

/// A tree held in memory: which paths exist, and what each of them is.
pub struct Target {
    nodes: Vec<BuildStep>,
}

impl View for Target {
    type V = Tree;

    closed spec fn view(&self) -> Tree {
        after_steps(Map::empty(), step_views(self.nodes@))
    }
}

impl Target {
    /// A tree in which no path exists.
    pub fn new() -> (target: Target)
        ensures
            target@ == Tree::empty(),
    {
        Target { nodes: Vec::new() }
    }

    /// What `path` is in the tree, or `None` where it does not exist.
    pub fn kind_of(&self, path: &str) -> (kind: Option<ResourceKind>)
        ensures
            kind is Some <==> self@.dom().contains(path@),
            kind matches Some(found) ==> found == self@[path@],
    {
        let wanted = String::from_str(path);
        let ghost steps = step_views(self.nodes@);
        let mut i: usize = 0;
        while i < self.nodes.len()
            invariant
                i <= self.nodes.len(),
                wanted@ == path@,
                steps == step_views(self.nodes@),
                forall|j: int| 0 <= j < i ==> (#[trigger] steps[j]).path != path@,
            decreases self.nodes.len() - i,
        {
            if self.nodes[i].path == wanted {
                proof {
                    assert(steps[i as int].path == path@);
                    lemma_first_step_decides(steps, i as int);
                }
                return Some(self.nodes[i].kind);
            }
            i += 1;
        }
        proof {
            lemma_paths_after_build(Map::empty(), steps);
            if has_path(steps, path@) {
                let j = choose|j: int| 0 <= j < steps.len() && (#[trigger] steps[j]).path == path@;
                assert(false);
            }
        }
        None
    }

    /// Whether `path` exists in the tree.
    pub fn holds(&self, path: &str) -> (present: bool)
        ensures
            present == self@.dom().contains(path@),
    {
        self.kind_of(path).is_some()
    }

    /// Takes one step on the tree, and says whether it created its path.
    pub fn apply(&mut self, step: &BuildStep) -> (created: bool)
        ensures
            final(self)@ == after_step(old(self)@, step@),
            created == !old(self)@.dom().contains(step@.path),
    {
        let present = self.holds(step.path.as_str());
        match step.action(present) {
            Some(kind) => {
                self.nodes.push(BuildStep { path: step.path.clone(), kind });
                proof {
                    let now = step_views(self.nodes@);
                    assert(now.drop_last() =~= step_views(old(self).nodes@));
                    assert(now.last() == step@);
                }
                true
            },
            None => false,
        }
    }

    /// Runs a build on the tree: takes the steps in order, and returns those
    /// that created something.
    pub fn build(&mut self, steps: &Vec<BuildStep>) -> (created: Vec<BuildStep>)
        ensures
            final(self)@ == after_steps(old(self)@, step_views(steps@)),
            step_views(created@) == created_by(old(self)@, step_views(steps@)),
    {
        let ghost all = step_views(steps@);
        let mut created: Vec<BuildStep> = Vec::new();
        let mut i: usize = 0;
        assert(all.take(0) =~= Seq::empty());
        assert(step_views(created@) =~= Seq::empty());
        while i < steps.len()
            invariant
                i <= steps.len(),
                all == step_views(steps@),
                self@ == after_steps(old(self)@, all.take(i as int)),
                step_views(created@) == created_by(old(self)@, all.take(i as int)),
            decreases steps.len() - i,
        {
            proof {
                assert(all.take(i + 1).drop_last() =~= all.take(i as int));
                assert(all.take(i + 1).last() == steps[i as int]@);
            }
            let ghost before = step_views(created@);
            if self.apply(&steps[i]) {
                created.push(steps[i].clone());
                assert(step_views(created@) =~= before.push(steps[i as int]@));
            }
            i += 1;
        }
        assert(all.take(i as int) =~= all);
        created
    }
}

} // verus!
