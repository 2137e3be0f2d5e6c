//! What the git repository around the working directory says of itself.

use vstd::prelude::*;

use crate::text::{blank, is_blank, trim, trim_str};

verus! {

/// Repository root, commit, branch and whether the work tree is dirty, as
/// far as git could tell.
#[derive(Debug, Clone)]
pub struct GitInfo {
    pub available: bool,
    pub repo_root: Option<String>,
    pub commit: Option<String>,
    pub branch: Option<String>,
    pub dirty: Option<bool>,
}

/// An optional command output, trimmed.
pub open spec fn trimmed(out: Option<String>) -> Option<Seq<char>> {
    match out {
        Some(s) => Some(trim(s@)),
        None => None,
    }
}

/// The texts of an optional string.
pub open spec fn opt_text(s: Option<String>) -> Option<Seq<char>> {
    match s {
        Some(t) => Some(t@),
        None => None,
    }
}

fn trim_opt(out: &Option<String>) -> (res: Option<String>)
    ensures
        opt_text(res) == trimmed(*out),
{
    match out {
        Some(s) => Some(trim_str(s.as_str())),
        None => None,
    }
}

/// What git said, from the standard output of `git rev-parse
/// --show-toplevel`, `git rev-parse HEAD`, `git branch --show-current` and
/// `git status --porcelain` (`None` where the command failed): nothing is
/// available without a repository root; otherwise each output trimmed, and
/// the tree is dirty when the status output is not blank.
pub fn git_info_from_outputs(
    root_out: &Option<String>,
    commit_out: &Option<String>,
    branch_out: &Option<String>,
    status_out: &Option<String>,
) -> (res: GitInfo)
    ensures
        res.available == root_out.is_some(),
        root_out.is_none() ==> res.repo_root.is_none() && res.commit.is_none()
            && res.branch.is_none() && res.dirty.is_none(),
        root_out.is_some() ==> {
            &&& opt_text(res.repo_root) == trimmed(*root_out)
            &&& opt_text(res.commit) == trimmed(*commit_out)
            &&& opt_text(res.branch) == trimmed(*branch_out)
            &&& res.dirty == match status_out {
                Some(s) => Some(!is_blank(s@)),
                None => None,
            }
        },
{
    if root_out.is_none() {
        return GitInfo { available: false, repo_root: None, commit: None, branch: None, dirty: None };
    }
    let dirty = match status_out {
        Some(s) => Some(!blank(s.as_str())),
        None => None,
    };
    GitInfo {
        available: true,
        repo_root: trim_opt(root_out),
        commit: trim_opt(commit_out),
        branch: trim_opt(branch_out),
        dirty,
    }
}

} // verus!
