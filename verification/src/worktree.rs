//! The working tree as the engines see it: an external mirror of
//! files, read by staging and status and overwritten by hard reset.

use vstd::prelude::*;
use crate::bytes::bytes_eq;
use crate::errors::VcsError;
use crate::index::IndexEntryV;
use crate::objects::{store_find, EntryMode, ObjectDataV, ObjectStore, StoredObjectV};

verus! {

/// One file of the working tree: its repository-relative path, its
/// content, its mode, and its modification time.
#[derive(Clone, Debug)]
pub struct WorktreeFile {
    pub path: Vec<u8>,
    pub data: Vec<u8>,
    pub mode: EntryMode,
    pub mtime_secs: u32,
}

pub ghost struct WorktreeFileV {
    pub path: Seq<u8>,
    pub data: Seq<u8>,
    pub mode: EntryMode,
    pub mtime_secs: u32,
}

impl View for WorktreeFile {
    type V = WorktreeFileV;

    open spec fn view(&self) -> WorktreeFileV {
        WorktreeFileV {
            path: self.path@,
            data: self.data@,
            mode: self.mode,
            mtime_secs: self.mtime_secs,
        }
    }
}

impl DeepView for WorktreeFile {
    type V = WorktreeFileV;

    open spec fn deep_view(&self) -> WorktreeFileV {
        self@
    }
}

/// The first file bearing the path, if any.
pub open spec fn wt_find(files: Seq<WorktreeFileV>, path: Seq<u8>) -> Option<WorktreeFileV>
    decreases files.len(),
{
    if files.len() == 0 {
        None
    } else if files[0].path == path {
        Some(files[0])
    } else {
        wt_find(files.skip(1), path)
    }
}

pub proof fn lemma_wt_find_skip(files: Seq<WorktreeFileV>, path: Seq<u8>, i: int)
    requires
        0 <= i <= files.len(),
        forall|j: int| 0 <= j < i ==> (#[trigger] files[j]).path != path,
    ensures
        wt_find(files, path) == wt_find(files.skip(i), path),
    decreases i,
{
    if i > 0 {
        assert(forall|j: int| 0 <= j < i - 1 ==> files.skip(1)[j] == files[j + 1]);
        lemma_wt_find_skip(files.skip(1), path, i - 1);
        assert(files.skip(1).skip(i - 1) =~= files.skip(i));
    } else {
        assert(files.skip(0) =~= files);
    }
}

/// The files a tree's flattened entries denote: each entry's blob
/// content read from the store. `None` when an entry's id does not
/// resolve to a blob; submodule entries carry no file and are skipped.
pub open spec fn materialize(store: Seq<StoredObjectV>, entries: Seq<IndexEntryV>) -> Option<
    Seq<WorktreeFileV>,
>
    decreases entries.len(),
{
    if entries.len() == 0 {
        Some(Seq::empty())
    } else {
        let e = entries[0];
        if e.mode == EntryMode::Commit {
            materialize(store, entries.skip(1))
        } else {
            match store_find(store, e.id) {
                Some(ObjectDataV::Blob(b)) => {
                    match materialize(store, entries.skip(1)) {
                        Some(rest) => Some(
                            seq![
                                WorktreeFileV { path: e.path, data: b, mode: e.mode, mtime_secs: 0 },
                            ] + rest,
                        ),
                        None => None,
                    }
                },
                _ => None,
            }
        }
    }
}

/// The working tree mirror.
pub struct Worktree {
    pub files: Vec<WorktreeFile>,
}

impl View for Worktree {
    type V = Seq<WorktreeFileV>;

    open spec fn view(&self) -> Seq<WorktreeFileV> {
        self.files.deep_view()
    }
}

impl Worktree {
    pub fn new() -> (r: Worktree)
        ensures
            r@.len() == 0,
    {
        let r = Worktree { files: Vec::new() };
        proof {
            assert(r@ =~= Seq::<WorktreeFileV>::empty());
        }
        r
    }

    /// Look a path up in the working tree.
    pub fn find_file(&self, path: &[u8]) -> (r: Option<&WorktreeFile>)
        ensures
            match r {
                Some(f) => wt_find(self@, path@) == Some(f@),
                None => wt_find(self@, path@) is None,
            },
    {
        let n = self.files.len();
        let mut i: usize = 0;
        while i < n
            invariant
                i <= n,
                n == self.files@.len(),
                self@.len() == n,
                forall|j: int| 0 <= j < self@.len() ==> self@[j] == self.files@[j]@,
                forall|j: int| 0 <= j < i ==> (#[trigger] self@[j]).path != path@,
            decreases n - i,
        {
            let f = &self.files[i];
            if bytes_eq(f.path.as_slice(), path) {
                proof {
                    lemma_wt_find_skip(self@, path@, i as int);
                    assert(self@.skip(i as int)[0] == self@[i as int]);
                }
                return Some(f);
            }
            i = i + 1;
        }
        proof {
            lemma_wt_find_skip(self@, path@, n as int);
            assert(self@.skip(n as int) =~= Seq::<WorktreeFileV>::empty());
        }
        None
    }

    /// Overwrite the whole working tree with the files a tree's
    /// entries denote: files absent from the tree are pruned. Fails
    /// exactly when the entries do not materialize, leaving the tree
    /// untouched.
    pub fn checkout(&mut self, store: &ObjectStore, entries: &Vec<crate::index::IndexEntry>) -> (r:
        Result<(), VcsError>)
        ensures
            r is Err <==> materialize(store@, entries.deep_view()) is None,
            match r {
                Ok(_) => materialize(store@, entries.deep_view()) == Some(final(self)@),
                Err(e) => {
                    &&& e == VcsError::StoreFailure
                    &&& final(self)@ == old(self)@
                },
            },
    {
        match materialize_files(store, entries) {
            Ok(files) => {
                self.files = files;
                Ok(())
            },
            Err(e) => Err(e),
        }
    }
}

/// The working-tree files a tree's entries denote, read from the
/// store; fails exactly when some entry does not materialize.
pub fn materialize_files(store: &ObjectStore, entries: &Vec<crate::index::IndexEntry>) -> (r:
    Result<Vec<WorktreeFile>, VcsError>)
    ensures
        r is Err <==> materialize(store@, entries.deep_view()) is None,
        match r {
            Ok(files) => materialize(store@, entries.deep_view()) == Some(files.deep_view()),
            Err(e) => e == VcsError::StoreFailure,
        },
{
    let ghost dv = entries.deep_view();
    let mut out: Vec<WorktreeFile> = Vec::new();
    let mut i: usize = 0;
        proof {
            assert(out.deep_view() =~= Seq::<WorktreeFileV>::empty());
            assert(dv.take(0) =~= Seq::<IndexEntryV>::empty());
        }
        while i < entries.len()
            invariant
                i <= entries@.len(),
                dv == entries.deep_view(),
                dv.len() == entries@.len(),
                forall|k: int| 0 <= k < dv.len() ==> dv[k] == entries@[k]@,
                materialize(store@, dv.take(i as int)) == Some(out.deep_view()),
            decreases entries@.len() - i,
        {
            let ghost outv = out.deep_view();
            let e = &entries[i];
            proof {
                assert(dv.take(i + 1) =~= dv.take(i as int) + seq![dv[i as int]]);
                lemma_materialize_split(store@, dv.take(i as int), seq![dv[i as int]]);
                assert(seq![dv[i as int]].skip(1) =~= Seq::<IndexEntryV>::empty());
                assert(materialize(store@, Seq::<IndexEntryV>::empty()) == Some(
                    Seq::<WorktreeFileV>::empty(),
                ));
                assert(seq![dv[i as int]][0] == dv[i as int]);
            }
            match e.mode {
                EntryMode::Commit => {
                    proof {
                        assert(materialize(store@, seq![dv[i as int]]) == Some(
                            Seq::<WorktreeFileV>::empty(),
                        ));
                        assert(outv + Seq::<WorktreeFileV>::empty() =~= outv);
                    }
                },
                _ => {
                    let found = store.find(&e.id);
                    match found {
                        Some(crate::objects::ObjectData::Blob(b)) => {
                            let f = WorktreeFile {
                                path: crate::objects::slice_to_vec_u8(e.path.as_slice()),
                                data: crate::objects::slice_to_vec_u8(b.as_slice()),
                                mode: e.mode,
                                mtime_secs: 0,
                            };
                            out.push(f);
                            proof {
                                let fv = WorktreeFileV {
                                    path: dv[i as int].path,
                                    data: b@,
                                    mode: dv[i as int].mode,
                                    mtime_secs: 0,
                                };
                                assert(seq![fv] + Seq::<WorktreeFileV>::empty() =~= seq![fv]);
                                assert(materialize(store@, seq![dv[i as int]]) == Some(seq![fv]));
                                assert(out.deep_view() =~= outv + seq![fv]);
                            }
                        },
                        _ => {
                            proof {
                                assert(materialize(store@, seq![dv[i as int]]) is None);
                                lemma_materialize_split(store@, dv.take(i + 1), dv.skip(i + 1));
                                assert(dv.take(i + 1) + dv.skip(i + 1) =~= dv);
                            }
                            return Err(VcsError::StoreFailure);
                        },
                    }
                },
            }
            i = i + 1;
        }
        proof {
            assert(dv.take(dv.len() as int) =~= dv);
        }
        Ok(out)
}

/// Materializing distributes over splitting the entry run.
pub proof fn lemma_materialize_split(
    store: Seq<StoredObjectV>,
    a: Seq<IndexEntryV>,
    b: Seq<IndexEntryV>,
)
    ensures
        materialize(store, a + b) == (match (materialize(store, a), materialize(store, b)) {
            (Some(x), Some(y)) => Some(x + y),
            _ => None,
        }),
    decreases a.len(),
{
    if a.len() == 0 {
        assert(a + b =~= b);
        assert(materialize(store, a) == Some(Seq::<WorktreeFileV>::empty()));
        if materialize(store, b) is Some {
            assert(Seq::<WorktreeFileV>::empty() + materialize(store, b)->Some_0 =~= materialize(
                store,
                b,
            )->Some_0);
        }
    } else {
        lemma_materialize_split(store, a.skip(1), b);
        assert((a + b).skip(1) =~= a.skip(1) + b);
        assert((a + b)[0] == a[0]);
        let r1 = materialize(store, a.skip(1));
        let r2 = materialize(store, b);
        if a[0].mode == EntryMode::Commit {
        } else {
            match store_find(store, a[0].id) {
                Some(ObjectDataV::Blob(bl)) => {
                    if r1 is Some && r2 is Some {
                        let head = WorktreeFileV {
                            path: a[0].path,
                            data: bl,
                            mode: a[0].mode,
                            mtime_secs: 0,
                        };
                        assert(seq![head] + (r1->Some_0 + r2->Some_0) =~= (seq![head] + r1->Some_0)
                            + r2->Some_0);
                    }
                },
                _ => {},
            }
        }
    }
}

} // verus!
