//! The status engine: classifying each working-tree item against the
//! index into the closed set of change kinds that callers route on.

use vstd::prelude::*;
use crate::errors::VcsError;
use crate::hashing::{digest_refused, hash_object, object_digest, ObjectKind};
use crate::index::{entry_find, lemma_entry_find, Index, IndexEntryV};
use crate::objects::slice_to_vec_u8;
use crate::repo::Repository;
use crate::worktree::WorktreeFileV;

verus! {

/// One classified change, as the diff collaborator reports it.
#[derive(Clone, Debug)]
pub enum ChangeItem {
    /// A tracked path whose content or mode differs from its entry.
    Modification { rela_path: Vec<u8> },
    /// A directory-walk item with no entry: an untracked file.
    DirectoryContents { rela_path: Vec<u8> },
    /// A path that was removed and re-added with similar content.
    Rewrite { rela_path: Vec<u8> },
}

pub ghost enum ChangeItemV {
    Modification { rela_path: Seq<u8> },
    DirectoryContents { rela_path: Seq<u8> },
    Rewrite { rela_path: Seq<u8> },
}

impl View for ChangeItem {
    type V = ChangeItemV;

    open spec fn view(&self) -> ChangeItemV {
        match self {
            ChangeItem::Modification { rela_path } => ChangeItemV::Modification {
                rela_path: rela_path@,
            },
            ChangeItem::DirectoryContents { rela_path } => ChangeItemV::DirectoryContents {
                rela_path: rela_path@,
            },
            ChangeItem::Rewrite { rela_path } => ChangeItemV::Rewrite { rela_path: rela_path@ },
        }
    }
}

impl DeepView for ChangeItem {
    type V = ChangeItemV;

    open spec fn deep_view(&self) -> ChangeItemV {
        self@
    }
}

/// Whether a working-tree file differs from its index entry: its blob
/// digest or its mode does.
pub open spec fn file_differs(e: IndexEntryV, f: WorktreeFileV) -> bool {
    e.id != object_digest(ObjectKind::Blob, f.data) || e.mode != f.mode
}

/// The classified changes: each working-tree file in order, reported
/// as a modification when tracked and different, as untracked
/// directory contents when untracked, and not at all when unchanged.
pub open spec fn status_items(index: Seq<IndexEntryV>, files: Seq<WorktreeFileV>) -> Seq<
    ChangeItemV,
>
    decreases files.len(),
{
    if files.len() == 0 {
        Seq::empty()
    } else {
        let f = files[0];
        let head: Seq<ChangeItemV> = match entry_find(index, f.path) {
            Some(e) => {
                if file_differs(e, f) {
                    seq![ChangeItemV::Modification { rela_path: f.path }]
                } else {
                    Seq::empty()
                }
            },
            None => seq![ChangeItemV::DirectoryContents { rela_path: f.path }],
        };
        head + status_items(index, files.skip(1))
    }
}

pub proof fn lemma_status_items_split(
    index: Seq<IndexEntryV>,
    a: Seq<WorktreeFileV>,
    b: Seq<WorktreeFileV>,
)
    ensures
        status_items(index, a + b) == status_items(index, a) + status_items(index, b),
    decreases a.len(),
{
    if a.len() == 0 {
        assert(a + b =~= b);
        assert(status_items(index, a) + status_items(index, b) =~= status_items(index, b));
    } else {
        lemma_status_items_split(index, a.skip(1), b);
        assert((a + b).skip(1) =~= a.skip(1) + b);
        assert((a + b)[0] == a[0]);
        let head: Seq<ChangeItemV> = match entry_find(index, a[0].path) {
            Some(e) => {
                if file_differs(e, a[0]) {
                    seq![ChangeItemV::Modification { rela_path: a[0].path }]
                } else {
                    Seq::empty()
                }
            },
            None => seq![ChangeItemV::DirectoryContents { rela_path: a[0].path }],
        };
        assert(head + (status_items(index, a.skip(1)) + status_items(index, b)) =~= (head
            + status_items(index, a.skip(1))) + status_items(index, b));
    }
}

/// Whether classifying some working-tree file would require a digest
/// the hashing routine refuses: the one condition on which the status
/// computation fails.
pub open spec fn status_refused(index: Seq<IndexEntryV>, files: Seq<WorktreeFileV>) -> bool
    decreases files.len(),
{
    if files.len() == 0 {
        false
    } else {
        (entry_find(index, files[0].path) is Some && digest_refused(
            ObjectKind::Blob,
            files[0].data,
        )) || status_refused(index, files.skip(1))
    }
}

pub proof fn lemma_status_refused_split(
    index: Seq<IndexEntryV>,
    a: Seq<WorktreeFileV>,
    b: Seq<WorktreeFileV>,
)
    ensures
        status_refused(index, a + b) == (status_refused(index, a) || status_refused(index, b)),
    decreases a.len(),
{
    if a.len() == 0 {
        assert(a + b =~= b);
    } else {
        lemma_status_refused_split(index, a.skip(1), b);
        assert((a + b).skip(1) =~= a.skip(1) + b);
        assert((a + b)[0] == a[0]);
    }
}

/// Compute the status of the working tree against the index, by
/// hashing each file's content and comparing with its entry. Fails
/// exactly when the hashing routine refuses some tracked file's
/// content.
pub fn status(repo: &Repository) -> (r: Result<Vec<ChangeItem>, VcsError>)
    requires
        repo.well_formed(),
    ensures
        r is Err <==> status_refused(repo.index@, repo.worktree@),
        match r {
            Ok(v) => v.deep_view() == status_items(repo.index@, repo.worktree@),
            Err(e) => e == VcsError::StoreFailure,
        },
{
    let ghost fv = repo.worktree@;
    let ghost iv = repo.index@;
    let mut out: Vec<ChangeItem> = Vec::new();
    let mut i: usize = 0;
    proof {
        assert(fv.take(0) =~= Seq::<WorktreeFileV>::empty());
        assert(out.deep_view() =~= Seq::<ChangeItemV>::empty());
    }
    while i < repo.worktree.files.len()
        invariant
            repo.well_formed(),
            i <= repo.worktree.files@.len(),
            fv == repo.worktree@,
            iv == repo.index@,
            fv.len() == repo.worktree.files@.len(),
            forall|k: int| 0 <= k < fv.len() ==> fv[k] == repo.worktree.files@[k]@,
            out.deep_view() == status_items(iv, fv.take(i as int)),
            !status_refused(iv, fv.take(i as int)),
        decreases repo.worktree.files@.len() - i,
    {
        let f = &repo.worktree.files[i];
        let ghost outv = out.deep_view();
        proof {
            assert(fv.take(i + 1) =~= fv.take(i as int) + seq![fv[i as int]]);
            lemma_status_items_split(iv, fv.take(i as int), seq![fv[i as int]]);
            lemma_status_refused_split(iv, fv.take(i as int), seq![fv[i as int]]);
            assert(seq![fv[i as int]].skip(1) =~= Seq::<WorktreeFileV>::empty());
            assert(status_items(iv, Seq::<WorktreeFileV>::empty()) =~= Seq::<ChangeItemV>::empty());
            assert(!status_refused(iv, Seq::<WorktreeFileV>::empty()));
            assert(seq![fv[i as int]][0] == fv[i as int]);
        }
        let found = repo.index.find_entry(f.path.as_slice());
        match found {
            Some(p) => {
                proof {
                    lemma_entry_find(iv, fv[i as int].path, p as int);
                }
                let hashed = hash_object(ObjectKind::Blob, f.data.as_slice());
                let h = match hashed {
                    Some(h) => h,
                    None => {
                        proof {
                            assert(status_refused(iv, fv.take(i + 1)));
                            lemma_status_refused_split(iv, fv.take(i + 1), fv.skip(i + 1));
                            assert(fv.take(i + 1) + fv.skip(i + 1) =~= fv);
                        }
                        return Err(VcsError::StoreFailure);
                    },
                };
                let e = &repo.index.entries[p];
                let same = e.id.eq_id(&crate::oid::ObjectId::new(h)) && e.mode == f.mode;
                if !same {
                    out.push(ChangeItem::Modification { rela_path: slice_to_vec_u8(f.path.as_slice()) });
                    proof {
                        let item = ChangeItemV::Modification { rela_path: fv[i as int].path };
                        assert(seq![item] + Seq::<ChangeItemV>::empty() =~= seq![item]);
                        assert(out.deep_view() =~= outv + seq![item]);
                    }
                } else {
                    proof {
                        assert(outv + Seq::<ChangeItemV>::empty() =~= outv);
                    }
                }
            },
            None => {
                proof {
                    lemma_entry_find_none(iv, fv[i as int].path);
                }
                out.push(
                    ChangeItem::DirectoryContents { rela_path: slice_to_vec_u8(f.path.as_slice()) },
                );
                proof {
                    let item = ChangeItemV::DirectoryContents { rela_path: fv[i as int].path };
                    assert(seq![item] + Seq::<ChangeItemV>::empty() =~= seq![item]);
                    assert(out.deep_view() =~= outv + seq![item]);
                }
            },
        }
        i = i + 1;
    }
    proof {
        assert(fv.take(fv.len() as int) =~= fv);
    }
    Ok(out)
}

/// When no entry holds the path, the lookup spec agrees.
pub proof fn lemma_entry_find_none(s: Seq<IndexEntryV>, path: Seq<u8>)
    requires
        forall|j: int| 0 <= j < s.len() ==> (#[trigger] s[j]).path != path,
    ensures
        entry_find(s, path) is None,
    decreases s.len(),
{
    if s.len() > 0 {
        assert(forall|j: int| 0 <= j < s.len() - 1 ==> s.skip(1)[j] == s[j + 1]);
        lemma_entry_find_none(s.skip(1), path);
    }
}

} // verus!
