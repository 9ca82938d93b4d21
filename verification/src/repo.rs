//! The repository handle the engines operate on: the object store,
//! the reference store, the staging index and the working-tree mirror,
//! with the configuration the engines read.

use vstd::prelude::*;
use vstd::string::StringSliceAdditionalSpecFns;
use vstd::string::StrSliceExecFns;
use crate::index::Index;
use crate::objects::{slice_to_vec_u8, ObjectStore};
use crate::refs::RefStore;
use crate::worktree::Worktree;

verus! {

/// One open repository.
pub struct Repository {
    pub store: ObjectStore,
    pub refs: RefStore,
    pub index: Index,
    pub worktree: Worktree,
    /// The working-tree root path, with a trailing separator; staged
    /// absolute paths are resolved against it.
    pub workdir: Vec<u8>,
    /// The configured default branch name for unborn repositories,
    /// when one is configured.
    pub default_branch: Option<Vec<u8>>,
    /// The configured author of new commits.
    pub author: crate::objects::Signature,
}

impl Repository {
    pub open spec fn well_formed(&self) -> bool {
        &&& self.store.well_formed()
        &&& self.index.well_formed()
        &&& match self.refs@.head_target {
            Some(h) => h.len() == 20,
            None => true,
        }
    }

    /// A fresh repository: empty store, unborn HEAD, empty index.
    pub fn init(workdir: Vec<u8>, branch: Vec<u8>, author: crate::objects::Signature) -> (r:
        Repository)
        ensures
            r.well_formed(),
            r.store@.len() == 0,
            r.index@.len() == 0,
            !r.index.changed,
            r.refs@.head_target is None,
            r.refs@.branch == Some(branch@),
            r.worktree@.len() == 0,
            r.workdir@ == workdir@,
            r.default_branch is None,
    {
        Repository {
            store: ObjectStore::new(),
            refs: RefStore::unborn(branch),
            index: Index::empty(),
            worktree: Worktree::new(),
            workdir,
            default_branch: None,
            author,
        }
    }
}

/// Whether the repository is in the initial-commit state: HEAD unborn,
/// no commits yet.
pub fn is_initial_commit(repo: &Repository) -> (r: bool)
    ensures
        r == (repo.refs@.head_target is None),
{
    repo.refs.is_unborn()
}

/// The branch name current output should show: the referent branch
/// when HEAD has one, the configured default branch (or `master`) when
/// HEAD is unborn and nameless, and `HEAD` when detached.
pub fn get_current_branch(repo: &Repository) -> (r: Vec<u8>)
    ensures
        r@ == spec_current_branch(
            repo.refs@.head_target is None,
            repo.refs@.branch,
            match repo.default_branch {
                Some(ref b) => Some(b@),
                None => None,
            },
        ),
{
    if repo.refs.is_unborn() {
        match &repo.default_branch {
            Some(d) => slice_to_vec_u8(d.as_slice()),
            None => "master".as_bytes_vec(),
        }
    } else {
        match &repo.refs.branch {
            Some(b) => slice_to_vec_u8(b.as_slice()),
            None => "HEAD".as_bytes_vec(),
        }
    }
}

/// What `get_current_branch` returns: the configured default branch
/// (or `master`) while HEAD is unborn, else the referent branch, or
/// `HEAD` when detached.
pub open spec fn spec_current_branch(
    unborn: bool,
    branch: Option<Seq<u8>>,
    default_branch: Option<Seq<u8>>,
) -> Seq<u8> {
    if unborn {
        match default_branch {
            Some(d) => d,
            None => "master".spec_bytes(),
        }
    } else {
        match branch {
            Some(b) => b,
            None => "HEAD".spec_bytes(),
        }
    }
}

} // verus!
