//! Worktrees: what the files and the repository of a linked worktree say.

use crate::classify::verdict;
use crate::gitprobe::{
    admin_dir, facts_of, head_of, lock_of, remote_known, unpushed_count, HeadRead, LockRead,
    RepoRead,
};
use crate::laws::texts::{trimming_leaves_what_is_between, trimming_takes_white_space};
use crate::laws::verdicts::{gives, locked_worktrees_refuse};
use crate::model::{FactsView, HeadView, LockView, ReasonView};
use crate::paths::{path_file_name, path_is_relative, path_join, path_parent};
use crate::policy::PolicyView;
use crate::text::is_space;
use vstd::prelude::*;

verus! {

/// Where a repository opens, its facts are what was read of it, part by part: the lock is the one
/// that was read, and so are the counts; nothing is known of a repository that does not open.
pub proof fn git_facts_are_what_was_read(lock: Option<LockView>, repo: Option<RepoRead>)
    ensures
        repo is None ==> facts_of(lock, repo) is None,
        repo is Some ==> {
            &&& facts_of(lock, repo) is Some
            &&& facts_of(lock, repo)->0.lock == lock
            &&& facts_of(lock, repo)->0.dirty_entries == repo->0.dirty_entries
            &&& facts_of(lock, repo)->0.unpushed_commits == repo->0.unpushed_commits
            &&& facts_of(lock, repo)->0.head == head_of(repo->0.head)
        },
{
}

/// HEAD on a branch is attached to it; HEAD on a commit is detached, with the commits that only it
/// reaches. What could not be named or counted is not known.
pub proof fn head_is_what_was_read(branch: Option<String>, commits: Option<u64>)
    ensures
        branch matches Some(b) ==> head_of(HeadRead::OnRef { branch }) == Some(
            HeadView::Attached { branch: b@ },
        ),
        branch is None ==> head_of(HeadRead::OnRef { branch }) is None,
        commits matches Some(n) ==> head_of(HeadRead::Detached { unreachable_commits: commits })
            == Some(HeadView::Detached { unreachable_commits: n }),
        commits is None ==> head_of(HeadRead::Detached { unreachable_commits: commits }) is None,
        head_of(HeadRead::Unreadable) is None,
{
}

/// A worktree is locked exactly where it has a `locked` file. The note is the text of the file
/// between its white space, and there is none where it holds nothing else.
pub proof fn lock_is_what_was_read(content: String)
    ensures
        lock_of(LockRead::Absent) == Some(LockView::Unlocked),
        lock_of(LockRead::Unreadable) is None,
        lock_of(LockRead::Content(content)) matches Some(LockView::Locked { note }) && {
            &&& note is None <==> forall|i: int|
                0 <= i < content@.len() ==> is_space(#[trigger] content@[i])
            &&& note matches Some(text) ==> exists|a: int, b: int|
                0 <= a < b <= content@.len() && text == #[trigger] content@.subrange(a, b)
                    && !is_space(content@[a]) && !is_space(content@[b - 1]) && (forall|i: int|
                    0 <= i < a || b <= i < content@.len() ==> is_space(#[trigger] content@[i]))
        },
{
    trimming_takes_white_space(content@);
}

/// A locked worktree is refused, whatever else is known of it.
pub proof fn locked_worktree_is_refused(
    f: FactsView,
    p: PolicyView,
    content: String,
    repo: RepoRead,
)
    requires
        f.candidate.safety_class is GitWorktree,
        f.git == facts_of(lock_of(LockRead::Content(content)), Some(repo)),
    ensures
        verdict(f, p) matches Some(reasons) && exists|i: int|
            0 <= i < reasons.len() && (#[trigger] reasons[i]) is Locked,
{
    let lock = lock_of(LockRead::Content(content));
    let note = lock->0->note;
    git_facts_are_what_was_read(lock, Some(repo));
    locked_worktrees_refuse(f, p, note);
    reveal(gives);
    let reasons = verdict(f, p)->0;
    let i = choose|i: int| 0 <= i < reasons.len() && reasons[i] == (ReasonView::Locked { note });
    assert(reasons[i] is Locked);
}

/// The admin directory is what the `.git` file points to, taken from the worktree where it is
/// relative. A file that does not point, or points to what has no named parent, names none.
pub proof fn admin_directory_is_pointed_to(worktree: Seq<char>, pad: Seq<char>, target: Seq<char>)
    requires
        forall|i: int| 0 <= i < pad.len() ==> is_space(#[trigger] pad[i]),
        target.len() > 0,
        !is_space(target[0]),
        !is_space(target.last()),
    ensures
        ({
            let content = "gitdir:"@ + pad + target;
            let path = if path_is_relative(target) {
                path_join(worktree, target)
            } else {
                target
            };
            &&& path_parent(path) is Some && path_file_name(path_parent(path)->0) is Some
                ==> admin_dir(worktree, content) == Some(path)
            &&& path_parent(path) is None || path_file_name(path_parent(path)->0) is None
                ==> admin_dir(worktree, content) is None
            &&& admin_dir(worktree, content + seq!['\n']) == admin_dir(worktree, content)
        }),
{
    reveal_strlit("gitdir:");
    let content = "gitdir:"@ + pad + target;
    let line = content + seq!['\n'];
    assert(content.take(7) =~= "gitdir:"@);
    assert(line.take(7) =~= "gitdir:"@);
    assert(content.skip(7) =~= pad + target);
    assert(line.skip(7) =~= pad + target + seq!['\n']);
    trimming_leaves_what_is_between(pad, target, seq![]);
    trimming_leaves_what_is_between(pad, target, seq!['\n']);
    assert(pad + target + seq![] =~= pad + target);
}

/// A file that does not start with `gitdir:` names no admin directory.
pub proof fn other_files_point_nowhere(worktree: Seq<char>, content: Seq<char>)
    requires
        content.len() < 7 || content.take(7) != "gitdir:"@,
    ensures
        admin_dir(worktree, content) is None,
{
    reveal_strlit("gitdir:");
}

/// A remote exists where one is configured, or a tip of one is there; where the tips cannot be read,
/// it is not known.
pub proof fn remotes_exist(tips: usize, remotes: usize)
    ensures
        remote_known(None, remotes) is None,
        remote_known(Some(tips), remotes) == Some(false) <==> tips == 0 && remotes == 0,
        remote_known(Some(tips), remotes) == Some(true) <==> tips > 0 || remotes > 0,
{
}

/// Unpushed are the commits that no remote has, where one exists; without one there are none to
/// push. Where HEAD, the remotes or their tips cannot be read, it is not known.
pub proof fn unpushed_is_what_no_remote_has(tips: usize, ahead: Option<u64>, head: bool)
    ensures
        unpushed_count(true, Some(true), Some(tips), ahead) == ahead,
        unpushed_count(true, Some(false), Some(tips), ahead) == Some(0u64),
        unpushed_count(false, Some(head), Some(tips), ahead) is None,
        unpushed_count(head, None, Some(tips), ahead) is None,
        unpushed_count(head, Some(head), None, ahead) is None,
{
}

} // verus!
