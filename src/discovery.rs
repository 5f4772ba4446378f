//! Decisions of the walk that locates build-cache roots below a directory.
//!
//! The walk itself (listing directories, asking the build tool for a
//! project's target directory) is done by the caller; these functions decide
//! what to do with each entry it meets.
use vstd::prelude::*;
use vstd::string::StringSliceAdditionalSpecFns;

verus! {

/// The target directory of a project, when the build tool reported one
/// (`target_directory`) and it exists on disk (`exists`).
pub fn is_cargo_root(target_directory: Option<String>, exists: bool) -> (r: Option<String>)
    ensures
        r == (if exists {
            target_directory
        } else {
            None
        }),
{
    if exists {
        target_directory
    } else {
        None
    }
}

/// A Unix-style hidden name: it starts with `.`.
pub fn is_hidden(name: &str) -> (r: bool)
    ensures
        r == (name.spec_bytes().len() > 0 && name.spec_bytes()[0] == 46u8),
{
    let b = name.as_bytes();
    b.len() > 0 && b[0] == 46u8
}

/// A path as its sequence of components.
pub open spec fn path_view(p: Seq<Vec<u8>>) -> Seq<Seq<u8>> {
    p.map_values(|c: Vec<u8>| c@)
}

/// `a` is `p` itself or one of its ancestors.
pub open spec fn is_ancestor(a: Seq<Seq<u8>>, p: Seq<Seq<u8>>) -> bool {
    a.len() <= p.len() && p.subrange(0, a.len() as int) == a
}

/// Some directory of `targets` is `path` or one of its ancestors.
pub open spec fn covered_spec(path: Seq<Seq<u8>>, targets: Seq<Seq<Seq<u8>>>) -> bool {
    exists|t: int| 0 <= t < targets.len() && is_ancestor(targets[t], path)
}

/// Whether `a` is `p` itself or one of its ancestors, both given by components.
fn ancestor_of(a: &Vec<Vec<u8>>, p: &Vec<Vec<u8>>) -> (r: bool)
    ensures
        r == is_ancestor(path_view(a@), path_view(p@)),
{
    if a.len() > p.len() {
        return false;
    }
    let mut k: usize = 0;
    while k < a.len()
        invariant
            a@.len() <= p@.len(),
            k <= a@.len(),
            forall|x: int| 0 <= x < k ==> a@[x]@ == p@[x]@,
        decreases a.len() - k,
    {
        if !crate::policy::same_bytes(&a[k], &p[k]) {
            assert(path_view(p@).subrange(0, a@.len() as int)[k as int] != path_view(a@)[k as int]);
            return false;
        }
        k = k + 1;
    }
    assert(path_view(p@).subrange(0, a@.len() as int) =~= path_view(a@));
    true
}

/// Whether `path` lies inside (or is) one of the cache roots already found;
/// the walk need not look into such a directory.
pub fn is_covered(path: &Vec<Vec<u8>>, targets: &Vec<Vec<Vec<u8>>>) -> (r: bool)
    ensures
        r == covered_spec(path_view(path@), targets@.map_values(|t: Vec<Vec<u8>>| path_view(t@))),
{
    let ghost tv = targets@.map_values(|t: Vec<Vec<u8>>| path_view(t@));
    let mut k: usize = 0;
    while k < targets.len()
        invariant
            k <= targets@.len(),
            tv == targets@.map_values(|t: Vec<Vec<u8>>| path_view(t@)),
            forall|x: int| 0 <= x < k ==> !is_ancestor(#[trigger] tv[x], path_view(path@)),
        decreases targets.len() - k,
    {
        if ancestor_of(&targets[k], path) {
            assert(is_ancestor(tv[k as int], path_view(path@)));
            return true;
        }
        k = k + 1;
    }
    false
}

/// What the walk does with one entry.
#[derive(PartialEq, Eq, Structural, Debug, Clone, Copy)]
pub enum WalkAction {
    /// Do not descend into this directory.
    SkipDir,
    /// Go on with the next entry.
    Pass,
    /// A project manifest: ask for its target directory, and if there is one,
    /// record it and do not descend further.
    Inspect,
}

pub open spec fn walk_action_spec(
    include_hidden: bool,
    is_dir: bool,
    hidden: bool,
    covered: bool,
    is_manifest: bool,
) -> WalkAction {
    if is_dir && ((!include_hidden && hidden) || covered) {
        WalkAction::SkipDir
    } else if is_manifest {
        WalkAction::Inspect
    } else {
        WalkAction::Pass
    }
}

/// Decides one step of the walk: hidden directories are skipped unless
/// `include_hidden`, directories inside a cache root already found are
/// skipped, and project manifests are inspected.
pub fn walk_action(include_hidden: bool, is_dir: bool, hidden: bool, covered: bool, is_manifest: bool) -> (r:
    WalkAction)
    ensures
        r == walk_action_spec(include_hidden, is_dir, hidden, covered, is_manifest),
{
    if is_dir && ((!include_hidden && hidden) || covered) {
        WalkAction::SkipDir
    } else if is_manifest {
        WalkAction::Inspect
    } else {
        WalkAction::Pass
    }
}

} // verus!
