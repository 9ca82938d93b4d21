//! The commit engine: freeze the index into a tree, append a commit
//! object to history, and advance HEAD.

use vstd::prelude::*;
use vstd::string::StringSliceAdditionalSpecFns;
use vstd::string::StrSliceExecFns;
use crate::errors::VcsError;
use crate::hashing::digest_refused;
use crate::index::IndexEntryV;
use crate::objects::{
    obj_id_of, push_bytes, push_str_bytes, slice_to_vec_u8, CommitData, CommitV, ObjectData,
    ObjectDataV, Signature, StoredObjectV,
};
use crate::oid::ObjectId;
use crate::repo::{get_current_branch, is_initial_commit, spec_current_branch, Repository};
use crate::staging::{add_modified_files_to_index, mod_paths, stage_paths};
use crate::status::status_items;
use crate::trees::{
    index_tree_id, lemma_prefix_trans, store_flatten, write_tree_from_index, write_tree_refused,
};
use crate::bytes::hex_of;

verus! {

/// The end of the first line: the position of the first line feed, or
/// the end of the text.
pub open spec fn line_end(s: Seq<u8>, i: int) -> int
    decreases s.len() - i,
{
    if i >= s.len() || i < 0 {
        s.len() as int
    } else if s[i] == 10 {
        i
    } else {
        line_end(s, i + 1)
    }
}

/// The first line of a message, its title.
pub open spec fn first_line_of(s: Seq<u8>) -> Seq<u8> {
    s.take(line_end(s, 0))
}

/// The first line of a commit message.
pub fn get_first_line(message: &[u8]) -> (r: Vec<u8>)
    ensures
        r@ == first_line_of(message@),
{
    proof {
        lemma_line_end_props(message@, 0);
    }
    let mut j: usize = 0;
    while j < message.len() && message[j] != 10
        invariant
            j <= message@.len(),
            line_end(message@, 0) == line_end(message@, j as int),
        decreases message@.len() - j,
    {
        j = j + 1;
    }
    crate::trees::sub_bytes(message, 0, j)
}

proof fn lemma_line_end_props(s: Seq<u8>, i: int)
    requires
        0 <= i <= s.len(),
    ensures
        i <= line_end(s, i) <= s.len(),
    decreases s.len() - i,
{
    if i < s.len() && s[i] != 10 {
        lemma_line_end_props(s, i + 1);
    }
}

/// Per-commit summary statistics; placeholders where a full diff is
/// not computed.
#[derive(Clone, Copy, PartialEq, Eq, Structural, Debug, Default)]
pub struct CommitStats {
    pub files_changed: usize,
    pub insertions: usize,
    pub deletions: usize,
}

/// The changed-file summary shown after a commit: placeholder values,
/// a full diff not being computed here.
pub fn get_commit_stats(_repo: &Repository) -> (r: CommitStats)
    ensures
        r == (CommitStats { files_changed: 1usize, insertions: 1usize, deletions: 0usize }),
{
    CommitStats { files_changed: 1, insertions: 1, deletions: 0 }
}

/// Whether two entry runs agree id-by-id and path-by-path.
pub open spec fn entries_match(a: Seq<IndexEntryV>, b: Seq<IndexEntryV>) -> bool {
    a.len() == b.len() && forall|i: int|
        0 <= i < a.len() ==> (#[trigger] a[i]).id == b[i].id && a[i].path == b[i].path
}

/// What `has_staged_changes` decides from the index, the store and
/// HEAD: `None` when HEAD's commit or tree cannot be resolved.
pub open spec fn spec_has_staged(
    index: Seq<IndexEntryV>,
    store: Seq<StoredObjectV>,
    head: Option<Seq<u8>>,
) -> Option<bool> {
    match head {
        None => Some(index.len() > 0),
        Some(h) => match crate::objects::store_find(store, h) {
            Some(ObjectDataV::Commit(c)) => match store_flatten(store, c.tree) {
                Some(head_entries) => Some(!entries_match(index, head_entries)),
                None => None,
            },
            _ => None,
        },
    }
}

/// Whether the index differs from HEAD's tree: any count mismatch or
/// any id-or-path mismatch is a staged change; on an unborn HEAD any
/// entry at all is.
pub fn has_staged_changes(repo: &Repository) -> (r: Result<bool, VcsError>)
    requires
        repo.well_formed(),
    ensures
        match r {
            Ok(b) => spec_has_staged(repo.index@, repo.store@, repo.refs@.head_target) == Some(b),
            Err(e) => e == VcsError::StoreFailure && spec_has_staged(
                repo.index@,
                repo.store@,
                repo.refs@.head_target,
            ) is None,
        },
{
    let head = match repo.refs.target() {
        Some(id) => id,
        None => {
            return Ok(repo.index.len() > 0);
        },
    };
    let commit_tree = match repo.store.find(head) {
        Some(ObjectData::Commit(c)) => &c.tree,
        _ => {
            return Err(VcsError::StoreFailure);
        },
    };
    let head_entries = match resolve_tree_entries(repo, commit_tree) {
        Ok(v) => v,
        Err(e) => {
            return Err(e);
        },
    };
    let n = repo.index.len();
    if n != head_entries.len() {
        return Ok(true);
    }
    let ghost iv = repo.index@;
    let ghost hv = head_entries.deep_view();
    let mut i: usize = 0;
    while i < n
        invariant
            i <= n,
            n == repo.index@.len(),
            n == head_entries@.len(),
            iv == repo.index@,
            hv == head_entries.deep_view(),
            hv.len() == n,
            repo.index@.len() == repo.index.entries@.len(),
            forall|j: int| 0 <= j < n ==> iv[j] == repo.index.entries@[j]@,
            forall|j: int| 0 <= j < n ==> hv[j] == head_entries@[j]@,
            forall|j: int|
                0 <= j < i ==> (#[trigger] iv[j]).id == hv[j].id && iv[j].path == hv[j].path,
            spec_has_staged(repo.index@, repo.store@, repo.refs@.head_target) == Some(
                !entries_match(iv, hv),
            ),
        decreases n - i,
    {
        let e = &repo.index.entries[i];
        let h = &head_entries[i];
        if !e.id.eq_id(&h.id) || !crate::bytes::bytes_eq(e.path.as_slice(), h.path.as_slice()) {
            proof {
                assert(!entries_match(iv, hv)) by {
                    if entries_match(iv, hv) {
                        assert(iv[i as int].id == hv[i as int].id && iv[i as int].path
                            == hv[i as int].path);
                    }
                }
            }
            return Ok(true);
        }
        i = i + 1;
    }
    Ok(false)
}

/// Flatten the tree with the given id into index-entry form.
fn resolve_tree_entries(repo: &Repository, tree_id: &ObjectId) -> (r: Result<
    Vec<crate::index::IndexEntry>,
    VcsError,
>)
    ensures
        match r {
            Ok(v) => store_flatten(repo.store@, tree_id@) == Some(v.deep_view()),
            Err(e) => e == VcsError::StoreFailure && store_flatten(repo.store@, tree_id@) is None,
        },
{
    let entries = match repo.store.find(tree_id) {
        Some(ObjectData::Tree(es)) => es,
        _ => {
            return Err(VcsError::StoreFailure);
        },
    };
    let prefix: Vec<u8> = Vec::new();
    let fuel = repo.store.objects.len() as u64;
    proof {
        assert(prefix@ =~= Seq::<u8>::empty());
        assert(repo.store@.len() == repo.store.objects@.len());
    }
    crate::trees::flatten_tree_exec(&repo.store, entries, &prefix, fuel)
}

/// The commit object `create_commit` writes: the tree frozen from the
/// index, HEAD as the only parent when born, the configured author,
/// and the message.
pub open spec fn spec_new_commit(
    index: Seq<IndexEntryV>,
    head: Option<Seq<u8>>,
    author: crate::objects::SignatureV,
    message: Seq<u8>,
) -> CommitV {
    CommitV {
        tree: index_tree_id(index),
        parents: match head {
            None => Seq::empty(),
            Some(h) => seq![h],
        },
        author,
        message,
    }
}

/// The reflog-style reason recorded when a commit advances HEAD.
pub open spec fn commit_reason(initial: bool, message: Seq<u8>) -> Seq<u8> {
    if initial {
        "commit (initial): ".spec_bytes() + first_line_of(message)
    } else {
        "commit: ".spec_bytes() + first_line_of(message)
    }
}

/// Create a commit: freeze the live index into a fresh tree, write the
/// commit object with that tree and the current HEAD (if any) as its
/// parent, and advance HEAD to it with a descriptive reason. Fails
/// exactly when freezing the tree does, or the hashing routine refuses
/// the commit body.
pub fn create_commit(repo: &mut Repository, message: &[u8]) -> (r: Result<ObjectId, VcsError>)
    requires
        old(repo).well_formed(),
    ensures
        final(repo).well_formed(),
        final(repo).index@ == old(repo).index@,
        final(repo).worktree@ == old(repo).worktree@,
        final(repo).workdir@ == old(repo).workdir@,
        final(repo).default_branch == old(repo).default_branch,
        final(repo).author@ == old(repo).author@,
        old(repo).store@.is_prefix_of(final(repo).store@),
        r is Err <==> (write_tree_refused(old(repo).index@) || digest_refused(
            crate::hashing::ObjectKind::Commit,
            crate::objects::commit_body_of(
                spec_new_commit(
                    old(repo).index@,
                    old(repo).refs@.head_target,
                    old(repo).author@,
                    message@,
                ),
            ),
        )),
        match r {
            Ok(id) => ({
                let c = spec_new_commit(
                    old(repo).index@,
                    old(repo).refs@.head_target,
                    old(repo).author@,
                    message@,
                );
                &&& id@ == obj_id_of(ObjectDataV::Commit(c))
                &&& id@.len() == 20
                &&& crate::objects::store_find(final(repo).store@, id@) is Some
                &&& final(repo).refs@.head_target == Some(id@)
                &&& final(repo).refs@.branch == old(repo).refs@.branch
                &&& final(repo).refs@.last_reason == commit_reason(
                    old(repo).refs@.head_target is None,
                    message@,
                )
            }),
            Err(e) => {
                &&& e == VcsError::StoreFailure
                &&& final(repo).refs@ == old(repo).refs@
            },
        },
{
    let ghost store0 = repo.store@;
    let tree_id = match write_tree_from_index(&mut repo.store, &repo.index) {
        Ok(id) => id,
        Err(e) => {
            return Err(e);
        },
    };
    let initial = repo.refs.is_unborn();
    let mut parents: Vec<ObjectId> = Vec::new();
    match repo.refs.target() {
        Some(h) => {
            parents.push(ObjectId::new(slice_to_vec_u8(h.bytes.as_slice())));
        },
        None => {},
    }
    proof {
        match repo.refs@.head_target {
            Some(h) => {
                assert(parents.deep_view() =~= seq![h]);
            },
            None => {
                assert(parents.deep_view() =~= Seq::<Seq<u8>>::empty());
            },
        }
    }
    let author = Signature {
        name: slice_to_vec_u8(repo.author.name.as_slice()),
        email: slice_to_vec_u8(repo.author.email.as_slice()),
        time: repo.author.time,
    };
    let commit = CommitData { tree: tree_id, parents, author, message: slice_to_vec_u8(message) };
    proof {
        let c = spec_new_commit(
            old(repo).index@,
            old(repo).refs@.head_target,
            old(repo).author@,
            message@,
        );
        assert(commit@.parents =~= c.parents);
        assert(commit@ == c);
    }
    let ghost store_mid = repo.store@;
    let id = match repo.store.write_object(ObjectData::Commit(commit)) {
        Ok(id) => id,
        Err(e) => {
            proof {
                lemma_prefix_trans(store0, store_mid, repo.store@);
            }
            return Err(e);
        },
    };
    proof {
        assert(store_mid.is_prefix_of(repo.store@)) by {
            assert(store_mid =~= repo.store@.subrange(0, store_mid.len() as int));
        }
        lemma_prefix_trans(store0, store_mid, repo.store@);
    }
    let title = get_first_line(message);
    let mut reason: Vec<u8> = Vec::new();
    if initial {
        push_str_bytes(&mut reason, "commit (initial): ");
    } else {
        push_str_bytes(&mut reason, "commit: ");
    }
    push_bytes(&mut reason, title.as_slice());
    repo.refs.set_target(&id, reason.as_slice());
    proof {
        assert(reason@ =~= commit_reason(old(repo).refs@.head_target is None, message@));
    }
    Ok(id)
}


/// What `commit` reports: the guards and the committed summary.
#[derive(Clone, Debug)]
pub enum CommitOutcome {
    /// No commit message was supplied: nothing is committed.
    NoMessage,
    /// The index matches HEAD's tree and empty commits are not
    /// allowed: nothing is committed.
    NothingToCommit { branch: Vec<u8>, initial: bool },
    /// A commit was created and HEAD advanced to it.
    Committed {
        branch: Vec<u8>,
        id: ObjectId,
        short_id: Vec<u8>,
        root: bool,
        title: Vec<u8>,
        stats: CommitStats,
    },
}

/// Record changes to the repository: optionally stage modified tracked
/// files first, refuse when no message was supplied, skip commit
/// creation when the index matches HEAD's tree and empty commits are
/// not allowed, else create the commit and advance HEAD.
#[verifier::rlimit(100)]
pub fn run(repo: &mut Repository, message: Option<Vec<u8>>, all: bool, allow_empty: bool) -> (r:
    Result<CommitOutcome, VcsError>)
    requires
        old(repo).well_formed(),
    ensures
        final(repo).well_formed(),
        final(repo).worktree@ == old(repo).worktree@,
        final(repo).workdir@ == old(repo).workdir@,
        final(repo).default_branch == old(repo).default_branch,
        old(repo).store@.is_prefix_of(final(repo).store@),
        !all ==> final(repo).index@ == old(repo).index@,
        all ==> (r is Err || final(repo).index@ == stage_paths(
            old(repo).index@,
            old(repo).worktree@,
            mod_paths(status_items(old(repo).index@, old(repo).worktree@)),
        ).0),
        ({
            let staging_failed = all && (crate::status::status_refused(
                old(repo).index@,
                old(repo).worktree@,
            ) || crate::staging::stage_refused(
                old(repo).worktree@,
                mod_paths(status_items(old(repo).index@, old(repo).worktree@)),
            ));
            &&& (r is Err ==> final(repo).refs@ == old(repo).refs@ && (staging_failed || (
            message is Some && !allow_empty && spec_has_staged(
                final(repo).index@,
                final(repo).store@,
                old(repo).refs@.head_target,
            ) is None) || (message is Some && (write_tree_refused(final(repo).index@)
                || digest_refused(
                crate::hashing::ObjectKind::Commit,
                crate::objects::commit_body_of(
                    spec_new_commit(
                        final(repo).index@,
                        old(repo).refs@.head_target,
                        old(repo).author@,
                        message->Some_0@,
                    ),
                ),
            )))))
            &&& (message is None && !staging_failed ==> r == Ok::<
                CommitOutcome,
                VcsError,
            >(CommitOutcome::NoMessage))
            &&& (!all && message is Some && !allow_empty && spec_has_staged(
                old(repo).index@,
                old(repo).store@,
                old(repo).refs@.head_target,
            ) == Some(false) ==> r matches Ok(CommitOutcome::NothingToCommit { .. }))
            &&& (message matches Some(m) ==> (!all && (allow_empty || spec_has_staged(
                old(repo).index@,
                old(repo).store@,
                old(repo).refs@.head_target,
            ) == Some(true)) && !write_tree_refused(old(repo).index@) && !digest_refused(
                crate::hashing::ObjectKind::Commit,
                crate::objects::commit_body_of(
                    spec_new_commit(
                        old(repo).index@,
                        old(repo).refs@.head_target,
                        old(repo).author@,
                        m@,
                    ),
                ),
            ) ==> r matches Ok(CommitOutcome::Committed { .. })))
        }),
        match r {
            Ok(out) => match out {
                CommitOutcome::NoMessage => message is None && final(repo).refs@ == old(
                    repo,
                ).refs@,
                CommitOutcome::NothingToCommit { branch, initial } => {
                    &&& message is Some
                    &&& !allow_empty
                    &&& spec_has_staged(
                        final(repo).index@,
                        final(repo).store@,
                        old(repo).refs@.head_target,
                    ) == Some(false)
                    &&& final(repo).refs@ == old(repo).refs@
                    &&& branch@ == spec_current_branch(
                        old(repo).refs@.head_target is None,
                        old(repo).refs@.branch,
                        match old(repo).default_branch {
                            Some(b) => Some(b@),
                            None => None,
                        },
                    )
                    &&& initial == (old(repo).refs@.head_target is None)
                },
                CommitOutcome::Committed { branch, id, short_id, root, title, stats } => {
                    &&& message matches Some(m)
                    &&& ({
                        let m = message->Some_0;
                        let c = spec_new_commit(
                            final(repo).index@,
                            old(repo).refs@.head_target,
                            old(repo).author@,
                            m@,
                        );
                        &&& id@ == obj_id_of(ObjectDataV::Commit(c))
                        &&& final(repo).refs@.head_target == Some(id@)
                        &&& final(repo).refs@.branch == old(repo).refs@.branch
                        &&& final(repo).refs@.last_reason == commit_reason(
                            old(repo).refs@.head_target is None,
                            m@,
                        )
                        &&& root == (old(repo).refs@.head_target is None)
                        &&& title@ == first_line_of(m@)
                        &&& short_id@ == hex_of(id@).take(7)
                        &&& branch@ == spec_current_branch(
                            false,
                            old(repo).refs@.branch,
                            match old(repo).default_branch {
                                Some(b) => Some(b@),
                                None => None,
                            },
                        )
                        &&& stats == (CommitStats {
                            files_changed: 1usize,
                            insertions: 1usize,
                            deletions: 0usize,
                        })
                    })
                },
            },
            Err(e) => e == VcsError::StoreFailure,
        },
{
    let ghost store0 = repo.store@;
    if all {
        let ghost store_a = repo.store@;
        match add_modified_files_to_index(repo) {
            Ok(_) => {},
            Err(e) => {
                return Err(e);
            },
        }
    }
    let ghost store1 = repo.store@;
    proof {
        if !all {
            assert(store0.is_prefix_of(repo.store@)) by {
                assert(store0 =~= repo.store@.subrange(0, store0.len() as int));
            }
        }
    }
    let msg = match message {
        Some(m) => m,
        None => {
            return Ok(CommitOutcome::NoMessage);
        },
    };
    if !allow_empty {
        let staged = match has_staged_changes(repo) {
            Ok(b) => b,
            Err(e) => {
                return Err(e);
            },
        };
        if !staged {
            let branch = get_current_branch(repo);
            let initial = is_initial_commit(repo);
            return Ok(CommitOutcome::NothingToCommit { branch, initial });
        }
    }
    let root = is_initial_commit(repo);
    let id = match create_commit(repo, msg.as_slice()) {
        Ok(id) => id,
        Err(e) => {
            proof {
                lemma_prefix_trans(store0, store1, repo.store@);
            }
            return Err(e);
        },
    };
    proof {
        lemma_prefix_trans(store0, store1, repo.store@);
    }
    let branch = get_current_branch(repo);
    let short_id = id.to_hex_with_len(7);
    let title = get_first_line(msg.as_slice());
    let stats = get_commit_stats(repo);
    Ok(CommitOutcome::Committed { branch, id, short_id, root, title, stats })
}


/// On an unborn HEAD with an empty index, the commit that would be
/// created has no parents and carries the canonical empty-tree id: the
/// digest of the empty tree body.
pub proof fn lemma_root_commit(author: crate::objects::SignatureV, message: Seq<u8>)
    ensures
        spec_new_commit(Seq::empty(), None, author, message).parents.len() == 0,
        spec_new_commit(Seq::empty(), None, author, message).tree == crate::hashing::object_digest(
            crate::hashing::ObjectKind::Tree,
            Seq::empty(),
        ),
{
    let empty = Seq::<IndexEntryV>::empty();
    assert(crate::trees::max_path_len(empty) == 0);
    assert(crate::trees::tree_entries_at(empty, 0, 1nat) == Some(
        Seq::<crate::objects::TreeEntryV>::empty(),
    ));
    assert(crate::objects::tree_body_of(Seq::<crate::objects::TreeEntryV>::empty()) =~= Seq::<
        u8,
    >::empty());
    assert(crate::trees::index_tree_id(empty) == crate::hashing::object_digest(
        crate::hashing::ObjectKind::Tree,
        Seq::<u8>::empty(),
    ));
}

} // verus!
