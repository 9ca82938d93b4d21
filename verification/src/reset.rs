//! The reset engine: a state machine over (HEAD, index, working tree)
//! with three modes, each a single transition.

use vstd::prelude::*;
use vstd::string::StringSliceAdditionalSpecFns;
use vstd::string::StrSliceExecFns;
use crate::commit::first_line_of;
use crate::errors::VcsError;
use crate::index::{index_fold, Index, IndexEntryV};
use crate::objects::{slice_to_vec_u8, store_find, ObjectData, ObjectDataV};
use crate::oid::ObjectId;
use crate::repo::Repository;
use crate::revision::rev_resolve;
use crate::trees::store_flatten;
use crate::worktree::materialize;
use crate::bytes::hex_of;

verus! {

/// The three reset modes.
#[derive(Clone, Copy, PartialEq, Eq, Structural, Debug)]
pub enum ResetMode {
    /// Move HEAD only.
    Soft,
    /// Move HEAD and rebuild the index from the target tree.
    Mixed,
    /// Move HEAD, rebuild the index, and overwrite the working tree.
    Hard,
}

/// What `reset` reports.
#[derive(Clone, Debug)]
pub enum ResetOutcome {
    /// The target revision did not resolve: nothing was changed.
    NotFound { target: Vec<u8> },
    /// HEAD is unborn, so there is no reference to move: nothing was
    /// changed.
    NoHead,
    /// The reset went through: the moved-to id and the target
    /// commit's title.
    Done { id: ObjectId, short_id: Vec<u8>, summary: Vec<u8> },
}

/// The first line of the target commit's message.
pub fn get_commit_summary(repo: &Repository, commit_id: &ObjectId) -> (r: Result<Vec<u8>, VcsError>)
    ensures
        match r {
            Ok(s) => (store_find(repo.store@, commit_id@) matches Some(ObjectDataV::Commit(c))
                && s@ == first_line_of(c.message)),
            Err(e) => e == VcsError::StoreFailure && !(store_find(repo.store@, commit_id@) matches
            Some(ObjectDataV::Commit(_))),
        },
{
    match repo.store.find(commit_id) {
        Some(ObjectData::Commit(c)) => Ok(crate::commit::get_first_line(c.message.as_slice())),
        _ => Err(VcsError::StoreFailure),
    }
}

/// Replace the index wholesale with the entries reconstructed from
/// the target tree, and persist it.
pub fn reset_index(repo: &mut Repository, tree_id: &ObjectId) -> (r: Result<(), VcsError>)
    requires
        old(repo).well_formed(),
    ensures
        final(repo).well_formed(),
        final(repo).store@ == old(repo).store@,
        final(repo).refs@ == old(repo).refs@,
        final(repo).worktree@ == old(repo).worktree@,
        final(repo).workdir@ == old(repo).workdir@,
        final(repo).default_branch == old(repo).default_branch,
        final(repo).author@ == old(repo).author@,
        match r {
            Ok(_) => (store_flatten(old(repo).store@, tree_id@) matches Some(entries)
                && final(repo).index@ == index_fold(Seq::empty(), entries)
                && !final(repo).index.changed),
            Err(e) => e == VcsError::StoreFailure && store_flatten(
                old(repo).store@,
                tree_id@,
            ) is None && final(repo).index@ == old(repo).index@,
        },
{
    let entries = match resolve_tree(repo, tree_id) {
        Ok(v) => v,
        Err(e) => {
            return Err(e);
        },
    };
    let mut idx = Index::from_entries(&entries);
    idx.write();
    repo.index = idx;
    Ok(())
}

/// Overwrite the working tree to exactly match the target tree,
/// discarding uncommitted edits and pruning files the tree lacks.
/// Fails exactly when the tree does not flatten or its entries do not
/// materialize, leaving the working tree untouched.
pub fn reset_worktree(repo: &mut Repository, tree_id: &ObjectId) -> (r: Result<(), VcsError>)
    requires
        old(repo).well_formed(),
    ensures
        final(repo).well_formed(),
        final(repo).store@ == old(repo).store@,
        final(repo).refs@ == old(repo).refs@,
        final(repo).index@ == old(repo).index@,
        final(repo).index.changed == old(repo).index.changed,
        final(repo).workdir@ == old(repo).workdir@,
        final(repo).default_branch == old(repo).default_branch,
        final(repo).author@ == old(repo).author@,
        r is Err <==> (store_flatten(old(repo).store@, tree_id@) is None || (store_flatten(
            old(repo).store@,
            tree_id@,
        ) matches Some(es) && materialize(old(repo).store@, es) is None)),
        match r {
            Ok(_) => (store_flatten(old(repo).store@, tree_id@) matches Some(entries)
                && materialize(old(repo).store@, entries) == Some(final(repo).worktree@)),
            Err(e) => e == VcsError::StoreFailure
                && final(repo).worktree@ == old(repo).worktree@,
        },
{
    let entries = match resolve_tree(repo, tree_id) {
        Ok(v) => v,
        Err(e) => {
            return Err(e);
        },
    };
    let res = repo.worktree.checkout(&repo.store, &entries);
    match res {
        Ok(_) => Ok(()),
        Err(e) => Err(e),
    }
}

/// Flatten the tree with the given id into index-entry form.
fn resolve_tree(repo: &Repository, tree_id: &ObjectId) -> (r: Result<
    Vec<crate::index::IndexEntry>,
    VcsError,
>)
    ensures
        match r {
            Ok(v) => store_flatten(repo.store@, tree_id@) == Some(v.deep_view()),
            Err(e) => e == VcsError::StoreFailure && store_flatten(repo.store@, tree_id@) is None,
        },
{
    let entries = match repo.store.find(tree_id) {
        Some(ObjectData::Tree(es)) => es,
        _ => {
            return Err(VcsError::StoreFailure);
        },
    };
    let prefix: Vec<u8> = Vec::new();
    let fuel = repo.store.objects.len() as u64;
    proof {
        assert(prefix@ =~= Seq::<u8>::empty());
        assert(repo.store@.len() == repo.store.objects@.len());
    }
    crate::trees::flatten_tree_exec(&repo.store, entries, &prefix, fuel)
}

/// Move HEAD to the target commit and, depending on the mode, rebuild
/// the index and overwrite the working tree to match its tree. The
/// target, its commit, its tree and (for a hard reset) its files are
/// all resolved first: the mutation sequence only begins once nothing
/// can fail, so a failing reset changes nothing.
#[verifier::rlimit(100)]
pub fn run(repo: &mut Repository, mode: ResetMode, commit: Option<Vec<u8>>) -> (r: Result<
    ResetOutcome,
    VcsError,
>)
    requires
        old(repo).well_formed(),
    ensures
        final(repo).well_formed(),
        final(repo).store@ == old(repo).store@,
        final(repo).workdir@ == old(repo).workdir@,
        final(repo).default_branch == old(repo).default_branch,
        final(repo).author@ == old(repo).author@,
        ({
            let target_str = match commit {
                Some(c) => c@,
                None => "HEAD".spec_bytes(),
            };
            let resolved = rev_resolve(old(repo).refs@.head_target, old(repo).store@, target_str);
            let born = old(repo).refs@.head_target is Some;
            let failure = (resolved matches Some(t) && born && (!(store_find(
                old(repo).store@,
                t,
            ) matches Some(ObjectDataV::Commit(_))) || (mode != ResetMode::Soft && store_flatten(
                old(repo).store@,
                store_find(old(repo).store@, t)->Some_0->Commit_0.tree,
            ) is None) || (mode == ResetMode::Hard && (store_flatten(
                old(repo).store@,
                store_find(old(repo).store@, t)->Some_0->Commit_0.tree,
            ) matches Some(es) && materialize(old(repo).store@, es) is None))));
            &&& (resolved is None ==> r matches Ok(ResetOutcome::NotFound { .. }))
            &&& (resolved is Some && !born ==> r matches Ok(ResetOutcome::NoHead))
            &&& (r is Err <==> failure)
            &&& match r {
                Ok(out) => match out {
                    ResetOutcome::NotFound { target } => {
                        &&& target@ == target_str
                        &&& resolved is None
                        &&& final(repo).refs@ == old(repo).refs@
                        &&& final(repo).index@ == old(repo).index@
                        &&& final(repo).worktree@ == old(repo).worktree@
                    },
                    ResetOutcome::NoHead => {
                        &&& resolved is Some
                        &&& !born
                        &&& final(repo).refs@ == old(repo).refs@
                        &&& final(repo).index@ == old(repo).index@
                        &&& final(repo).worktree@ == old(repo).worktree@
                    },
                    ResetOutcome::Done { id, short_id, summary } => {
                        &&& resolved == Some(id@)
                        &&& born
                        &&& final(repo).refs@.head_target == Some(id@)
                        &&& final(repo).refs@.branch == old(repo).refs@.branch
                        &&& final(repo).refs@.last_reason == "reset: moving to HEAD".spec_bytes()
                        &&& short_id@ == hex_of(id@).take(7)
                        &&& (store_find(old(repo).store@, id@) matches Some(ObjectDataV::Commit(c))
                            && summary@ == first_line_of(c.message))
                        &&& (mode == ResetMode::Soft ==> final(repo).index@ == old(repo).index@
                            && final(repo).index.changed == old(repo).index.changed
                            && final(repo).worktree@ == old(repo).worktree@)
                        &&& (mode == ResetMode::Mixed || mode == ResetMode::Hard ==> ({
                            let c = store_find(old(repo).store@, id@)->Some_0->Commit_0;
                            store_flatten(old(repo).store@, c.tree) matches Some(entries)
                                && final(repo).index@ == index_fold(Seq::empty(), entries)
                                && !final(repo).index.changed
                        }))
                        &&& (mode == ResetMode::Mixed ==> final(repo).worktree@ == old(repo).worktree@)
                        &&& (mode == ResetMode::Hard ==> ({
                            let c = store_find(old(repo).store@, id@)->Some_0->Commit_0;
                            materialize(
                                old(repo).store@,
                                store_flatten(old(repo).store@, c.tree)->Some_0,
                            ) == Some(final(repo).worktree@)
                        }))
                    },
                },
                Err(e) => {
                    &&& e == VcsError::StoreFailure
                    &&& final(repo).refs@ == old(repo).refs@
                    &&& final(repo).index@ == old(repo).index@
                    &&& final(repo).index.changed == old(repo).index.changed
                    &&& final(repo).worktree@ == old(repo).worktree@
                },
            }
        }),
{
    let target = match &commit {
        Some(c) => slice_to_vec_u8(c.as_slice()),
        None => "HEAD".as_bytes_vec(),
    };
    let commit_id = match crate::revision::resolve_revision(repo, target.as_slice()) {
        Some(id) => id,
        None => {
            return Ok(ResetOutcome::NotFound { target });
        },
    };
    if repo.refs.is_unborn() {
        return Ok(ResetOutcome::NoHead);
    }
    let summary = match get_commit_summary(repo, &commit_id) {
        Ok(s) => s,
        Err(e) => {
            return Err(e);
        },
    };
    let tree_id = match repo.store.find(&commit_id) {
        Some(ObjectData::Commit(c)) => ObjectId::new(slice_to_vec_u8(c.tree.bytes.as_slice())),
        _ => {
            proof {
                assert(false);
            }
            return Err(VcsError::StoreFailure);
        },
    };
    let entries = match mode {
        ResetMode::Soft => Vec::new(),
        _ => {
            match resolve_tree(repo, &tree_id) {
                Ok(v) => v,
                Err(e) => {
                    return Err(e);
                },
            }
        },
    };
    let files = match mode {
        ResetMode::Hard => {
            match crate::worktree::materialize_files(&repo.store, &entries) {
                Ok(v) => v,
                Err(e) => {
                    return Err(e);
                },
            }
        },
        _ => Vec::new(),
    };
    let reason = "reset: moving to HEAD".as_bytes_vec();
    repo.refs.set_target(&commit_id, reason.as_slice());
    match mode {
        ResetMode::Soft => {},
        ResetMode::Mixed => {
            let mut idx = Index::from_entries(&entries);
            idx.write();
            repo.index = idx;
        },
        ResetMode::Hard => {
            let mut idx = Index::from_entries(&entries);
            idx.write();
            repo.index = idx;
            repo.worktree.files = files;
        },
    }
    let short_id = commit_id.to_hex_with_len(7);
    Ok(ResetOutcome::Done { id: commit_id, short_id, summary })
}

} // verus!
