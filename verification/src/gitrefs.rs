//! Reference resolution planning: the ordered fallback chain of
//! version-control reference names, and the decision how to obtain a
//! repository.  Performing the version-control work itself is the
//! caller's; the decisions are verified here.

use vstd::prelude::*;

verus! {

/// The reference names tried for a given name, in resolution order:
/// local branch, remote branch, tag, then the literal reference.
pub open spec fn spec_candidate_refs(name: Seq<char>) -> Seq<Seq<char>> {
    seq![
        "refs/heads/"@ + name,
        "refs/remotes/origin/"@ + name,
        "refs/tags/"@ + name,
        name,
    ]
}

/// Writes the reference names to try for a given name, in order.
pub fn candidate_ref_names(name: &str) -> (r: Vec<String>)
    ensures
        r.deep_view() == spec_candidate_refs(name@),
{
    let mut out: Vec<String> = Vec::new();
    let mut heads = "refs/heads/".to_owned();
    heads.append(name);
    out.push(heads);
    let mut remotes = "refs/remotes/origin/".to_owned();
    remotes.append(name);
    out.push(remotes);
    let mut tags = "refs/tags/".to_owned();
    tags.append(name);
    out.push(tags);
    out.push(name.to_owned());
    proof {
        assert(out.deep_view() =~= spec_candidate_refs(name@));
    }
    out
}

/// Writes the branch names tried when no reference was asked for, in
/// order of preference.
pub fn default_branch_candidates() -> (r: Vec<String>)
    ensures
        r.deep_view() == seq!["main"@, "master"@],
{
    let mut out: Vec<String> = Vec::new();
    out.push("main".to_owned());
    out.push("master".to_owned());
    proof {
        assert(out.deep_view() =~= seq!["main"@, "master"@]);
    }
    out
}

/// How a repository at a destination is obtained.
#[derive(Clone, Copy, Debug, PartialEq, Eq, Structural)]
pub enum CloneAction {
    /// The destination already holds a repository: open it and fetch
    /// the latest changes.
    OpenAndFetch,
    /// The destination exists but holds no repository: remove it, then
    /// clone afresh.
    RemoveThenClone,
    /// The destination does not exist: clone afresh.
    CloneFresh,
}

/// Decides how to obtain the repository from what is at the destination.
pub fn plan_clone(dest_exists: bool, dest_has_git: bool) -> (r: CloneAction)
    ensures
        r == (if dest_exists && dest_has_git {
            CloneAction::OpenAndFetch
        } else if dest_exists {
            CloneAction::RemoveThenClone
        } else {
            CloneAction::CloneFresh
        }),
{
    if dest_exists && dest_has_git {
        CloneAction::OpenAndFetch
    } else if dest_exists {
        CloneAction::RemoveThenClone
    } else {
        CloneAction::CloneFresh
    }
}

} // verus!
