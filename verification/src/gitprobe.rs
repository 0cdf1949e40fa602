//! What the files and the repository of a linked worktree say about it. Dirty
//! counts untracked files (untracked work is precious); unpushed counts commits
//! reachable from HEAD but from no remote tip, and is 0 when no remote exists
//! (worktree removal never touches refs); lock and head come from the files
//! below `.git/worktrees/<name>`.

use crate::model::{GitFacts, GitView, HeadState, HeadView, LockState, LockView};
use crate::paths::{
    file_name, is_relative, join, parent, path_file_name, path_is_relative, path_join, path_parent,
};
use crate::text::{chars_of, chars_start_with, text_of, text_option, text_starts_with, trim, trimmed};
use vstd::prelude::*;
use vstd::slice::slice_subrange;

verus! {

/// The path that the content of a `.git` file points to.
pub open spec fn gitdir_target(content: Seq<char>) -> Option<Seq<char>> {
    if text_starts_with(content, "gitdir:"@) {
        Some(trimmed(content.skip(7)))
    } else {
        None
    }
}

/// The admin directory of a worktree whose `.git` file has this content. A
/// relative target is taken from the worktree. A target that does not look like
/// `.../worktrees/<name>`, by having a named parent, is none.
pub open spec fn admin_dir(worktree: Seq<char>, content: Seq<char>) -> Option<Seq<char>> {
    match gitdir_target(content) {
        None => None,
        Some(target) => {
            let path = if path_is_relative(target) {
                path_join(worktree, target)
            } else {
                target
            };
            match path_parent(path) {
                None => None,
                Some(up) => if path_file_name(up) is Some {
                    Some(path)
                } else {
                    None
                },
            }
        },
    }
}

/// `.git` file content: `gitdir: <path>/.git/worktrees/<name>`, the admin
/// directory whose `locked` and `HEAD` files carry worktree state.
pub fn admin_dir_of(worktree: &str, content: &str) -> (r: Option<String>)
    ensures
        text_option(r) == admin_dir(worktree@, content@),
{
    proof {
        reveal_strlit("gitdir:");
    }
    let chars = chars_of(content);
    if !chars_start_with(chars.as_slice(), "gitdir:") {
        return None;
    }
    let rest = slice_subrange(chars.as_slice(), 7, chars.len());
    assert(rest@ =~= content@.skip(7));
    let target = text_of(trim(rest));
    let path = if is_relative(target.as_str()) {
        join(worktree, target.as_str())
    } else {
        target
    };
    let up = match parent(path.as_str()) {
        Some(up) => up,
        None => return None,
    };
    match file_name(up.as_str()) {
        Some(_) => Some(path),
        None => None,
    }
}

/// What a reading of the `locked` file of an admin directory gave.
#[derive(Debug, PartialEq, Eq)]
pub enum LockRead {
    /// There is no such file.
    Absent,
    /// There is one, with this content.
    Content(String),
    /// Whether there is one, or what it holds, could not be read.
    Unreadable,
}

/// The lock state that a reading of the `locked` file establishes: there is one
/// exactly where the worktree is locked, and it may hold a note.
pub open spec fn lock_of(read: LockRead) -> Option<LockView> {
    match read {
        LockRead::Absent => Some(LockView::Unlocked),
        LockRead::Content(content) => Some(
            LockView::Locked {
                note: if trimmed(content@).len() == 0 {
                    None
                } else {
                    Some(trimmed(content@))
                },
            },
        ),
        LockRead::Unreadable => None,
    }
}

/// The lock state that a reading of the `locked` file establishes: nothing, where
/// it could not be read.
pub fn lock_state(read: LockRead) -> (r: Option<LockState>)
    ensures
        r is Some <==> lock_of(read) is Some,
        r matches Some(lock) ==> lock_of(read) == Some(lock@),
{
    match read {
        LockRead::Absent => Some(LockState::Unlocked),
        LockRead::Content(content) => {
            let chars = chars_of(content.as_str());
            let note = trim(chars.as_slice());
            if note.len() == 0 {
                Some(LockState::Locked { note: None })
            } else {
                Some(LockState::Locked { note: Some(text_of(note)) })
            }
        },
        LockRead::Unreadable => None,
    }
}

/// What a repository says of its HEAD.
#[derive(Debug, PartialEq, Eq)]
pub enum HeadRead {
    /// HEAD points to a commit; the number of commits reachable from it but
    /// from no ref, where they could be counted.
    Detached { unreachable_commits: Option<u64> },
    /// HEAD points to a ref; its short name, where it has one.
    OnRef { branch: Option<String> },
    /// HEAD cannot be read.
    Unreadable,
}

/// The head state that a reading of HEAD establishes.
pub open spec fn head_of(head: HeadRead) -> Option<HeadView> {
    match head {
        HeadRead::Detached { unreachable_commits: Some(unreachable_commits) } => Some(
            HeadView::Detached { unreachable_commits },
        ),
        HeadRead::OnRef { branch: Some(branch) } => Some(HeadView::Attached { branch: branch@ }),
        _ => None,
    }
}

/// The head state that a reading of HEAD establishes: what could not be counted
/// or named is not.
pub fn head_state(head: HeadRead) -> (r: Option<HeadState>)
    ensures
        r is Some <==> head_of(head) is Some,
        r matches Some(state) ==> head_of(head) == Some(state@),
{
    match head {
        HeadRead::Detached { unreachable_commits: Some(unreachable_commits) } => Some(
            HeadState::Detached { unreachable_commits },
        ),
        HeadRead::OnRef { branch: Some(branch) } => Some(HeadState::Attached { branch }),
        _ => None,
    }
}

/// Whether a remote exists.
pub open spec fn remote_known(remote_tips: Option<usize>, remotes: usize) -> Option<bool> {
    match remote_tips {
        Some(tips) => Some(tips > 0 || remotes > 0),
        None => None,
    }
}

/// The number of unpushed commits.
pub open spec fn unpushed_count(
    head: bool,
    has_remote: Option<bool>,
    remote_tips: Option<usize>,
    ahead: Option<u64>,
) -> Option<u64> {
    if !head || has_remote is None || remote_tips is None {
        None
    } else if has_remote == Some(false) {
        Some(0)
    } else {
        ahead
    }
}

/// Whether a remote exists, from the number of remote tips, where they could be
/// read, and the number of remotes that are configured: a tip that a remote left
/// behind counts, and so does a remote that has none yet.
pub fn remote_exists(remote_tips: Option<usize>, remotes: usize) -> (r: Option<bool>)
    ensures
        r == (match remote_tips {
            Some(tips) => Some(tips > 0 || remotes > 0),
            None => None,
        }),
        r == remote_known(remote_tips, remotes),
{
    match remote_tips {
        Some(tips) => Some(tips > 0 || remotes > 0),
        None => None,
    }
}

/// The number of unpushed commits, from whether a remote exists, the number of
/// remote tips and the number of commits reachable from HEAD but from none of
/// them, where these could be read. Without a remote there is nothing to push to:
/// 0. With one that has no tip yet, everything is unpushed: the count decides.
/// Nothing is established where the commit of HEAD cannot be read.
pub fn unpushed(
    head: bool,
    has_remote: Option<bool>,
    remote_tips: Option<usize>,
    ahead: Option<u64>,
) -> (r: Option<u64>)
    ensures
        r == (if !head || has_remote is None || remote_tips is None {
            None
        } else if has_remote == Some(false) {
            Some(0u64)
        } else {
            ahead
        }),
        r == unpushed_count(head, has_remote, remote_tips, ahead),
{
    if !head || remote_tips.is_none() {
        return None;
    }
    match has_remote {
        None => None,
        Some(true) => ahead,
        Some(false) => Some(0),
    }
}

/// What an opened repository establishes.
#[derive(Debug, PartialEq, Eq)]
pub struct RepoRead {
    pub head: HeadRead,
    pub dirty_entries: Option<usize>,
    pub unpushed_commits: Option<u64>,
}

/// The git facts of a worktree: every part stands alone, and what could not be
/// read is not established. A repository that does not open establishes
/// nothing.
pub open spec fn facts_of(lock: Option<LockView>, repo: Option<RepoRead>) -> Option<GitView> {
    match repo {
        None => None,
        Some(repo) => Some(
            GitView {
                dirty_entries: repo.dirty_entries,
                unpushed_commits: repo.unpushed_commits,
                lock,
                head: head_of(repo.head),
            },
        ),
    }
}

/// The git facts of a worktree. The lock state is known where the admin
/// directory is and its `locked` file could be read.
pub fn git_facts(lock: Option<LockState>, repo: Option<RepoRead>) -> (r: Option<GitFacts>)
    ensures
        r is Some <==> repo is Some,
        r matches Some(facts) ==> facts_of(
            match lock {
                Some(lock) => Some(lock@),
                None => None,
            },
            repo,
        ) == Some(facts@),
{
    match repo {
        None => None,
        Some(repo) => Some(
            GitFacts {
                dirty_entries: repo.dirty_entries,
                unpushed_commits: repo.unpushed_commits,
                lock,
                head: head_state(repo.head),
            },
        ),
    }
}

} // verus!
