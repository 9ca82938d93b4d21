//! The staging engine: turning working-tree files into blobs and index
//! entries, one file at a time, in the all-files, modified-only and
//! explicit-pathspec policies.

use vstd::prelude::*;
use vstd::string::StringSliceAdditionalSpecFns;
use crate::bytes::{is_prefix_of, starts_with};
use crate::errors::VcsError;
use crate::hashing::{digest_refused, object_digest, ObjectKind};
use crate::index::{index_insert, IndexEntry, IndexEntryV, Stat};
use crate::objects::{push_bytes, slice_to_vec_u8, EntryMode, ObjectData};
use crate::repo::Repository;
use crate::status::{status, status_items, ChangeItem, ChangeItemV};
use crate::trees::{slash, sub_bytes};
use crate::worktree::{wt_find, WorktreeFileV};

verus! {

/// Whether a repository-relative path names the metadata directory or
/// something beneath it; such paths are never staged.
pub open spec fn is_git_path(rel: Seq<u8>) -> bool {
    &&& rel.len() >= 4
    &&& rel.take(4) == ".git".spec_bytes()
    &&& (rel.len() == 4 || rel[4] == slash())
}

/// The index mode staged for a working-tree file: the executable bit
/// and symlinks carry over, everything else is a regular file.
pub open spec fn stage_mode(m: EntryMode) -> EntryMode {
    match m {
        EntryMode::BlobExecutable => EntryMode::BlobExecutable,
        EntryMode::Link => EntryMode::Link,
        _ => EntryMode::Blob,
    }
}

/// The low 32 bits of a size, as the stat cache stores it.
pub open spec fn truncate32(n: nat) -> u32 {
    (n % 0x100000000) as u32
}

/// The index entry staging builds for a file at the relative path.
pub open spec fn staged_entry(rel: Seq<u8>, f: WorktreeFileV) -> IndexEntryV {
    IndexEntryV {
        path: rel,
        id: object_digest(ObjectKind::Blob, f.data),
        mode: stage_mode(f.mode),
        stat: Stat { mtime_secs: f.mtime_secs, size: truncate32(f.data.len()) },
        flags: 0,
    }
}

/// The relative form of an absolute path under the working-tree root.
pub open spec fn rel_of(wd: Seq<u8>, p: Seq<u8>) -> Seq<u8> {
    p.skip(wd.len() as int)
}

/// The effect of staging one relative path: the new entry sequence and
/// whether it changed. Metadata paths and paths missing from the
/// working tree change nothing.
pub open spec fn stage_one(
    index0: Seq<IndexEntryV>,
    files: Seq<WorktreeFileV>,
    p: Seq<u8>,
) -> (Seq<IndexEntryV>, nat) {
    if is_git_path(p) {
        (index0, 0)
    } else {
        match wt_find(files, p) {
            Some(f) => {
                let ni = index_insert(index0, staged_entry(p, f));
                (ni, if ni != index0 { 1nat } else { 0nat })
            },
            None => (index0, 0),
        }
    }
}

/// The effect of staging a list of relative paths in order: the final
/// entry sequence, and how many stagings changed the index.
pub open spec fn stage_paths(
    index0: Seq<IndexEntryV>,
    files: Seq<WorktreeFileV>,
    paths: Seq<Seq<u8>>,
) -> (Seq<IndexEntryV>, nat)
    decreases paths.len(),
{
    if paths.len() == 0 {
        (index0, 0)
    } else {
        let stepped = stage_one(index0, files, paths[0]);
        let rest = stage_paths(stepped.0, files, paths.skip(1));
        (rest.0, (stepped.1 + rest.1) as nat)
    }
}

pub proof fn lemma_stage_paths_snoc(
    index0: Seq<IndexEntryV>,
    files: Seq<WorktreeFileV>,
    paths: Seq<Seq<u8>>,
    p: Seq<u8>,
)
    ensures
        stage_paths(index0, files, paths + seq![p]) == {
            let pre = stage_paths(index0, files, paths);
            let stepped = stage_one(pre.0, files, p);
            (stepped.0, (pre.1 + stepped.1) as nat)
        },
    decreases paths.len(),
{
    if paths.len() == 0 {
        assert(paths + seq![p] =~= seq![p]);
        assert(seq![p].skip(1) =~= Seq::<Seq<u8>>::empty());
        assert(seq![p][0] == p);
        let stepped = stage_one(index0, files, p);
        assert(stage_paths(stepped.0, files, Seq::<Seq<u8>>::empty()) == (stepped.0, 0nat));
        assert(stage_paths(index0, files, seq![p]) == (stepped.0, stepped.1));
    } else {
        assert((paths + seq![p])[0] == paths[0]);
        assert((paths + seq![p]).skip(1) =~= paths.skip(1) + seq![p]);
        let stepped = stage_one(index0, files, paths[0]);
        lemma_stage_paths_snoc(stepped.0, files, paths.skip(1), p);
        let pre1 = stage_paths(stepped.0, files, paths.skip(1));
        let st2 = stage_one(pre1.0, files, p);
        assert(stage_paths(index0, files, paths + seq![p]) == (
            st2.0,
            (stepped.1 + (pre1.1 + st2.1)) as nat,
        ));
        assert(stage_paths(index0, files, paths) == (pre1.0, (stepped.1 + pre1.1) as nat));
    }
}

/// Whether staging one relative path would require a digest the
/// hashing routine refuses: the one condition on which staging a path
/// fails.
pub open spec fn stage_one_refused(files: Seq<WorktreeFileV>, p: Seq<u8>) -> bool {
    !is_git_path(p) && (wt_find(files, p) matches Some(f) && digest_refused(
        ObjectKind::Blob,
        f.data,
    ))
}

/// Whether staging some path of the list fails.
pub open spec fn stage_refused(files: Seq<WorktreeFileV>, paths: Seq<Seq<u8>>) -> bool
    decreases paths.len(),
{
    if paths.len() == 0 {
        false
    } else {
        stage_one_refused(files, paths[0]) || stage_refused(files, paths.skip(1))
    }
}

pub proof fn lemma_stage_refused_split(files: Seq<WorktreeFileV>, a: Seq<Seq<u8>>, b: Seq<Seq<u8>>)
    ensures
        stage_refused(files, a + b) == (stage_refused(files, a) || stage_refused(files, b)),
    decreases a.len(),
{
    if a.len() == 0 {
        assert(a + b =~= b);
    } else {
        lemma_stage_refused_split(files, a.skip(1), b);
        assert((a + b).skip(1) =~= a.skip(1) + b);
        assert((a + b)[0] == a[0]);
    }
}

/// The modification paths among classified changes.
pub open spec fn mod_paths(items: Seq<ChangeItemV>) -> Seq<Seq<u8>>
    decreases items.len(),
{
    if items.len() == 0 {
        Seq::empty()
    } else {
        (match items[0] {
            ChangeItemV::Modification { rela_path } => seq![rela_path],
            _ => Seq::empty(),
        }) + mod_paths(items.skip(1))
    }
}

/// The paths of all classified changes, whatever their kind.
pub open spec fn all_paths(items: Seq<ChangeItemV>) -> Seq<Seq<u8>>
    decreases items.len(),
{
    if items.len() == 0 {
        Seq::empty()
    } else {
        (match items[0] {
            ChangeItemV::Modification { rela_path } => seq![rela_path],
            ChangeItemV::DirectoryContents { rela_path } => seq![rela_path],
            ChangeItemV::Rewrite { rela_path } => seq![rela_path],
        }) + all_paths(items.skip(1))
    }
}

pub proof fn lemma_mod_paths_split(a: Seq<ChangeItemV>, b: Seq<ChangeItemV>)
    ensures
        mod_paths(a + b) == mod_paths(a) + mod_paths(b),
        all_paths(a + b) == all_paths(a) + all_paths(b),
    decreases a.len(),
{
    if a.len() == 0 {
        assert(a + b =~= b);
        assert(mod_paths(a) + mod_paths(b) =~= mod_paths(b));
        assert(all_paths(a) + all_paths(b) =~= all_paths(b));
    } else {
        lemma_mod_paths_split(a.skip(1), b);
        assert((a + b).skip(1) =~= a.skip(1) + b);
        assert((a + b)[0] == a[0]);
        let hm: Seq<Seq<u8>> = match a[0] {
            ChangeItemV::Modification { rela_path } => seq![rela_path],
            _ => Seq::empty(),
        };
        let ha: Seq<Seq<u8>> = match a[0] {
            ChangeItemV::Modification { rela_path } => seq![rela_path],
            ChangeItemV::DirectoryContents { rela_path } => seq![rela_path],
            ChangeItemV::Rewrite { rela_path } => seq![rela_path],
        };
        assert(hm + (mod_paths(a.skip(1)) + mod_paths(b)) =~= (hm + mod_paths(a.skip(1)))
            + mod_paths(b));
        assert(ha + (all_paths(a.skip(1)) + all_paths(b)) =~= (ha + all_paths(a.skip(1)))
            + all_paths(b));
    }
}

/// Whether a relative path names the metadata directory.
fn is_git_path_exec(rel: &[u8]) -> (r: bool)
    ensures
        r == is_git_path(rel@),
{
    if rel.len() < 4 {
        return false;
    }
    let dotgit = ".git".as_bytes_vec();
    let head = sub_bytes(rel, 0, 4);
    let same = crate::bytes::bytes_eq(head.as_slice(), dotgit.as_slice());
    if !same {
        proof {
            assert(rel@.take(4) =~= rel@.subrange(0, 4));
        }
        return false;
    }
    proof {
        assert(rel@.take(4) =~= rel@.subrange(0, 4));
    }
    rel.len() == 4 || rel[4] == 47
}

/// Stage one file: resolve the absolute path against the working-tree
/// root, reject metadata paths, read the file from the working tree,
/// write its blob, and insert or replace its index entry. Paths
/// outside the root, metadata paths and unreadable files are skipped
/// without error; staging fails exactly when the hashing routine
/// refuses the file's content.
pub fn add_file_to_index(repo: &mut Repository, file_path: &[u8]) -> (r: Result<bool, VcsError>)
    requires
        old(repo).well_formed(),
    ensures
        final(repo).well_formed(),
        final(repo).worktree@ == old(repo).worktree@,
        final(repo).refs@ == old(repo).refs@,
        final(repo).workdir@ == old(repo).workdir@,
        final(repo).default_branch == old(repo).default_branch,
        final(repo).author@ == old(repo).author@,
        old(repo).store@.is_prefix_of(final(repo).store@),
        r is Err <==> (is_prefix_of(old(repo).workdir@, file_path@) && stage_one_refused(
            old(repo).worktree@,
            rel_of(old(repo).workdir@, file_path@),
        )),
        ({
            let wd = old(repo).workdir@;
            let rel = rel_of(wd, file_path@);
            let skipped = !is_prefix_of(wd, file_path@) || is_git_path(rel) || wt_find(
                old(repo).worktree@,
                rel,
            ) is None;
            if skipped {
                r == Ok::<bool, VcsError>(false) && final(repo).index@ == old(repo).index@
                    && final(repo).index.changed == old(repo).index.changed
                    && final(repo).store@ == old(repo).store@
            } else {
                let f = wt_find(old(repo).worktree@, rel)->Some_0;
                match r {
                    Ok(b) => final(repo).index@ == index_insert(
                        old(repo).index@,
                        staged_entry(rel, f),
                    ) && (b <==> final(repo).index@ != old(repo).index@)
                        && final(repo).index.changed == (old(repo).index.changed || b)
                        && crate::objects::store_find(
                        final(repo).store@,
                        object_digest(ObjectKind::Blob, f.data),
                    ) is Some,
                    Err(e) => e == VcsError::StoreFailure && final(repo).index@ == old(repo).index@
                        && final(repo).index.changed == old(repo).index.changed,
                }
            }
        }),
{
    let wd_len = repo.workdir.len();
    if !starts_with(file_path, repo.workdir.as_slice()) {
        proof {
            assert(repo.store@.is_prefix_of(repo.store@));
        }
        return Ok(false);
    }
    let rel = sub_bytes(file_path, wd_len, file_path.len());
    proof {
        assert(rel@ =~= rel_of(repo.workdir@, file_path@));
    }
    if is_git_path_exec(rel.as_slice()) {
        proof {
            assert(repo.store@.is_prefix_of(repo.store@));
        }
        return Ok(false);
    }
    let found = repo.worktree.find_file(rel.as_slice());
    let (data, mode, mtime) = match found {
        Some(f) => (slice_to_vec_u8(f.data.as_slice()), f.mode, f.mtime_secs),
        None => {
            proof {
                assert(repo.store@.is_prefix_of(repo.store@));
            }
            return Ok(false);
        },
    };
    let size: u32 = ((data.len() as u64) % 0x100000000u64) as u32;
    let entry_mode = match mode {
        EntryMode::BlobExecutable => EntryMode::BlobExecutable,
        EntryMode::Link => EntryMode::Link,
        _ => EntryMode::Blob,
    };
    let ghost store0 = repo.store@;
    let write_r = repo.store.write_object(ObjectData::Blob(data));
    let id = match write_r {
        Ok(id) => id,
        Err(e) => {
            proof {
                assert(repo.store@.is_prefix_of(repo.store@));
            }
            return Err(e);
        },
    };
    proof {
        assert(store0.is_prefix_of(repo.store@)) by {
            assert(store0 =~= repo.store@.subrange(0, store0.len() as int));
        }
    }
    let entry = IndexEntry {
        path: rel,
        id,
        mode: entry_mode,
        stat: Stat { mtime_secs: mtime, size },
        flags: 0,
    };
    let b = repo.index.insert_or_replace(entry);
    Ok(b)
}


/// Stage a list of relative paths, each resolved against the
/// working-tree root; counts how many stagings changed the index.
fn stage_path_list(repo: &mut Repository, paths: &Vec<Vec<u8>>) -> (r: Result<usize, VcsError>)
    requires
        old(repo).well_formed(),
    ensures
        final(repo).well_formed(),
        final(repo).worktree@ == old(repo).worktree@,
        final(repo).refs@ == old(repo).refs@,
        final(repo).workdir@ == old(repo).workdir@,
        final(repo).default_branch == old(repo).default_branch,
        final(repo).author@ == old(repo).author@,
        old(repo).store@.is_prefix_of(final(repo).store@),
        r is Err <==> stage_refused(old(repo).worktree@, paths.deep_view()),
        match r {
            Ok(n) => ({
                let st = stage_paths(old(repo).index@, old(repo).worktree@, paths.deep_view());
                final(repo).index@ == st.0 && n == st.1 && final(repo).index.changed == (old(
                    repo,
                ).index.changed || n > 0)
            }),
            Err(e) => e == VcsError::StoreFailure,
        },
{
    let ghost idx0 = repo.index@;
    let ghost files = repo.worktree@;
    let ghost wd = repo.workdir@;
    let ghost pdv = paths.deep_view();
    let ghost store0 = repo.store@;
    let ghost changed0 = repo.index.changed;
    let mut added: usize = 0;
    let mut i: usize = 0;
    proof {
        assert(pdv.take(0) =~= Seq::<Seq<u8>>::empty());
    }
    while i < paths.len()
        invariant
            i <= paths@.len(),
            added <= i,
            repo.well_formed(),
            pdv == paths.deep_view(),
            pdv.len() == paths@.len(),
            forall|k: int| 0 <= k < pdv.len() ==> pdv[k] == paths@[k]@,
            repo.worktree@ == files,
            files == old(repo).worktree@,
            repo.refs@ == old(repo).refs@,
            repo.workdir@ == wd,
            wd == old(repo).workdir@,
            idx0 == old(repo).index@,
            changed0 == old(repo).index.changed,
            store0 == old(repo).store@,
            repo.default_branch == old(repo).default_branch,
            repo.author@ == old(repo).author@,
            store0.is_prefix_of(repo.store@),
            (repo.index@, added as nat) == stage_paths(idx0, files, pdv.take(i as int)),
            repo.index.changed == (changed0 || added > 0),
            !stage_refused(files, pdv.take(i as int)),
        decreases paths@.len() - i,
    {
        let mut full = slice_to_vec_u8(repo.workdir.as_slice());
        push_bytes(&mut full, paths[i].as_slice());
        let ghost p = pdv[i as int];
        proof {
            assert(full@.take(wd.len() as int) =~= wd);
            assert(rel_of(wd, full@) =~= p);
        }
        let ghost store_pre = repo.store@;
        let ghost idx_pre = repo.index@;
        let ghost changed_pre = repo.index.changed;
        let step = add_file_to_index(repo, full.as_slice());
        proof {
            assert(pdv.take(i + 1) =~= pdv.take(i as int) + seq![p]);
            lemma_stage_refused_split(files, pdv.take(i as int), seq![p]);
            assert(seq![p].skip(1) =~= Seq::<Seq<u8>>::empty());
            assert(seq![p][0] == p);
            assert(!stage_refused(files, Seq::<Seq<u8>>::empty()));
            assert(stage_refused(files, seq![p]) == stage_one_refused(files, p));
        }
        match step {
            Ok(b) => {
                proof {
                    lemma_stage_paths_snoc(idx0, files, pdv.take(i as int), p);
                    crate::trees::lemma_prefix_trans(store0, store_pre, repo.store@);
                    assert(is_prefix_of(wd, full@));
                    assert(!stage_one_refused(files, p));
                    let stepped = stage_one(idx_pre, files, p);
                    if is_git_path(p) || wt_find(files, p) is None {
                        assert((repo.index@, 0nat) == stepped);
                    } else {
                        assert(repo.index@ == stepped.0);
                        assert(stepped.1 == if b { 1nat } else { 0nat });
                    }
                }
                if b {
                    added = added + 1;
                }
            },
            Err(e) => {
                proof {
                    crate::trees::lemma_prefix_trans(store0, store_pre, repo.store@);
                    assert(stage_one_refused(files, p));
                    lemma_stage_refused_split(files, pdv.take(i + 1), pdv.skip(i + 1));
                    assert(pdv.take(i + 1) + pdv.skip(i + 1) =~= pdv);
                }
                return Err(e);
            },
        }
        i = i + 1;
    }
    proof {
        assert(pdv.take(pdv.len() as int) =~= pdv);
    }
    Ok(added)
}

/// Stage every change the status engine reports on already-tracked
/// paths (the modified-only policy of `commit -a` and `add -u`), and
/// persist the index once when anything changed.
pub fn add_modified_files_to_index(repo: &mut Repository) -> (r: Result<usize, VcsError>)
    requires
        old(repo).well_formed(),
    ensures
        final(repo).well_formed(),
        final(repo).worktree@ == old(repo).worktree@,
        final(repo).refs@ == old(repo).refs@,
        final(repo).workdir@ == old(repo).workdir@,
        final(repo).default_branch == old(repo).default_branch,
        final(repo).author@ == old(repo).author@,
        old(repo).store@.is_prefix_of(final(repo).store@),
        r is Err <==> (crate::status::status_refused(old(repo).index@, old(repo).worktree@)
            || stage_refused(
            old(repo).worktree@,
            mod_paths(status_items(old(repo).index@, old(repo).worktree@)),
        )),
        match r {
            Ok(n) => ({
                let st = stage_paths(
                    old(repo).index@,
                    old(repo).worktree@,
                    mod_paths(status_items(old(repo).index@, old(repo).worktree@)),
                );
                final(repo).index@ == st.0 && n == st.1 && final(repo).index.changed == (if n > 0 {
                    false
                } else {
                    old(repo).index.changed
                })
            }),
            Err(e) => e == VcsError::StoreFailure,
        },
{
    let items = match status(repo) {
        Ok(v) => v,
        Err(e) => {
            proof {
                assert(repo.store@.is_prefix_of(repo.store@));
            }
            return Err(e);
        },
    };
    let ghost iv = items.deep_view();
    let mut paths: Vec<Vec<u8>> = Vec::new();
    let mut k: usize = 0;
    proof {
        assert(iv.take(0) =~= Seq::<ChangeItemV>::empty());
        assert(paths.deep_view() =~= Seq::<Seq<u8>>::empty());
    }
    while k < items.len()
        invariant
            k <= items@.len(),
            iv == items.deep_view(),
            iv.len() == items@.len(),
            forall|j: int| 0 <= j < iv.len() ==> iv[j] == items@[j]@,
            paths.deep_view() == mod_paths(iv.take(k as int)),
        decreases items@.len() - k,
    {
        let ghost pv = paths.deep_view();
        proof {
            assert(iv.take(k + 1) =~= iv.take(k as int) + seq![iv[k as int]]);
            lemma_mod_paths_split(iv.take(k as int), seq![iv[k as int]]);
            assert(seq![iv[k as int]].skip(1) =~= Seq::<ChangeItemV>::empty());
            assert(seq![iv[k as int]][0] == iv[k as int]);
            assert(mod_paths(Seq::<ChangeItemV>::empty()) =~= Seq::<Seq<u8>>::empty());
            assert(all_paths(Seq::<ChangeItemV>::empty()) =~= Seq::<Seq<u8>>::empty());
        }
        match &items[k] {
            ChangeItem::Modification { rela_path } => {
                paths.push(slice_to_vec_u8(rela_path.as_slice()));
                proof {
                    let pseq = seq![iv[k as int]->Modification_rela_path];
                    assert(mod_paths(seq![iv[k as int]]) =~= pseq);
                    assert(paths.deep_view() =~~= pv + pseq);
                }
            },
            _ => {
                proof {
                    assert(mod_paths(seq![iv[k as int]]) =~= Seq::<Seq<u8>>::empty());
                    assert(pv + Seq::<Seq<u8>>::empty() =~= pv);
                }
            },
        }
        k = k + 1;
    }
    proof {
        assert(iv.take(iv.len() as int) =~= iv);
    }
    let added = match stage_path_list(repo, &paths) {
        Ok(n) => n,
        Err(e) => {
            return Err(e);
        },
    };
    if added > 0 {
        repo.index.write();
    }
    Ok(added)
}

/// Stage every change the status engine reports, untracked files and
/// rewrites included (the all-files policy of `add -A`), and persist
/// the index once when anything changed.
pub fn add_all_files(repo: &mut Repository) -> (r: Result<usize, VcsError>)
    requires
        old(repo).well_formed(),
    ensures
        final(repo).well_formed(),
        final(repo).worktree@ == old(repo).worktree@,
        final(repo).refs@ == old(repo).refs@,
        final(repo).workdir@ == old(repo).workdir@,
        final(repo).default_branch == old(repo).default_branch,
        final(repo).author@ == old(repo).author@,
        old(repo).store@.is_prefix_of(final(repo).store@),
        r is Err <==> (crate::status::status_refused(old(repo).index@, old(repo).worktree@)
            || stage_refused(
            old(repo).worktree@,
            all_paths(status_items(old(repo).index@, old(repo).worktree@)),
        )),
        match r {
            Ok(n) => ({
                let st = stage_paths(
                    old(repo).index@,
                    old(repo).worktree@,
                    all_paths(status_items(old(repo).index@, old(repo).worktree@)),
                );
                final(repo).index@ == st.0 && n == st.1 && final(repo).index.changed == (if n > 0 {
                    false
                } else {
                    old(repo).index.changed
                })
            }),
            Err(e) => e == VcsError::StoreFailure,
        },
{
    let items = match status(repo) {
        Ok(v) => v,
        Err(e) => {
            proof {
                assert(repo.store@.is_prefix_of(repo.store@));
            }
            return Err(e);
        },
    };
    let ghost iv = items.deep_view();
    let mut paths: Vec<Vec<u8>> = Vec::new();
    let mut k: usize = 0;
    proof {
        assert(iv.take(0) =~= Seq::<ChangeItemV>::empty());
        assert(paths.deep_view() =~= Seq::<Seq<u8>>::empty());
    }
    while k < items.len()
        invariant
            k <= items@.len(),
            iv == items.deep_view(),
            iv.len() == items@.len(),
            forall|j: int| 0 <= j < iv.len() ==> iv[j] == items@[j]@,
            paths.deep_view() == all_paths(iv.take(k as int)),
        decreases items@.len() - k,
    {
        let ghost pv = paths.deep_view();
        proof {
            assert(iv.take(k + 1) =~= iv.take(k as int) + seq![iv[k as int]]);
            lemma_mod_paths_split(iv.take(k as int), seq![iv[k as int]]);
            assert(seq![iv[k as int]].skip(1) =~= Seq::<ChangeItemV>::empty());
            assert(seq![iv[k as int]][0] == iv[k as int]);
            assert(mod_paths(Seq::<ChangeItemV>::empty()) =~= Seq::<Seq<u8>>::empty());
            assert(all_paths(Seq::<ChangeItemV>::empty()) =~= Seq::<Seq<u8>>::empty());
        }
        let rela = match &items[k] {
            ChangeItem::Modification { rela_path } => rela_path,
            ChangeItem::DirectoryContents { rela_path } => rela_path,
            ChangeItem::Rewrite { rela_path } => rela_path,
        };
        paths.push(slice_to_vec_u8(rela.as_slice()));
        proof {
            let pseq: Seq<Seq<u8>> = match iv[k as int] {
                ChangeItemV::Modification { rela_path } => seq![rela_path],
                ChangeItemV::DirectoryContents { rela_path } => seq![rela_path],
                ChangeItemV::Rewrite { rela_path } => seq![rela_path],
            };
            assert(all_paths(seq![iv[k as int]]) =~= pseq);
            assert(paths.deep_view() =~~= pv + pseq);
        }
        k = k + 1;
    }
    proof {
        assert(iv.take(iv.len() as int) =~= iv);
    }
    let added = match stage_path_list(repo, &paths) {
        Ok(n) => n,
        Err(e) => {
            return Err(e);
        },
    };
    if added > 0 {
        repo.index.write();
    }
    Ok(added)
}


/// Staging the same unchanged file twice produces one entry with an
/// unchanged id, and the second staging does not change the entry
/// sequence, so it does not mark the index as modified.
pub proof fn lemma_staging_idempotent(
    index0: Seq<IndexEntryV>,
    files: Seq<WorktreeFileV>,
    p: Seq<u8>,
)
    ensures
        ({
            let first = stage_one(index0, files, p);
            let second = stage_one(first.0, files, p);
            second.0 == first.0 && second.1 == 0
        }),
{
    if !is_git_path(p) {
        match wt_find(files, p) {
            Some(f) => {
                crate::index::lemma_index_insert_idempotent(index0, staged_entry(p, f));
            },
            None => {},
        }
    }
}


/// The repository-relative form of a pathspec: an absolute path under
/// the working-tree root is stripped, anything else is taken as
/// already relative.
pub open spec fn spec_rel(wd: Seq<u8>, p: Seq<u8>) -> Seq<u8> {
    if is_prefix_of(wd, p) {
        rel_of(wd, p)
    } else {
        p
    }
}

/// The paths of the working-tree files beneath the directory `dir`,
/// in working-tree order.
pub open spec fn files_under(files: Seq<WorktreeFileV>, dir: Seq<u8>) -> Seq<Seq<u8>>
    decreases files.len(),
{
    if files.len() == 0 {
        Seq::empty()
    } else {
        (if is_prefix_of(dir + "/".spec_bytes(), files[0].path) {
            seq![files[0].path]
        } else {
            Seq::empty()
        }) + files_under(files.skip(1), dir)
    }
}

pub proof fn lemma_files_under_split(a: Seq<WorktreeFileV>, b: Seq<WorktreeFileV>, dir: Seq<u8>)
    ensures
        files_under(a + b, dir) == files_under(a, dir) + files_under(b, dir),
    decreases a.len(),
{
    if a.len() == 0 {
        assert(a + b =~= b);
        assert(files_under(a, dir) + files_under(b, dir) =~= files_under(b, dir));
    } else {
        lemma_files_under_split(a.skip(1), b, dir);
        assert((a + b).skip(1) =~= a.skip(1) + b);
        assert((a + b)[0] == a[0]);
        let h: Seq<Seq<u8>> = if is_prefix_of(dir + "/".spec_bytes(), a[0].path) {
            seq![a[0].path]
        } else {
            Seq::empty()
        };
        assert(h + (files_under(a.skip(1), dir) + files_under(b, dir)) =~= (h + files_under(
            a.skip(1),
            dir,
        )) + files_under(b, dir));
    }
}

/// What one relative pathspec expands to: the path itself when it
/// names a working-tree file, else every file beneath it as a
/// directory.
pub open spec fn expand_pathspec(files: Seq<WorktreeFileV>, rel: Seq<u8>) -> Seq<Seq<u8>> {
    if wt_find(files, rel) is Some {
        seq![rel]
    } else {
        files_under(files, rel)
    }
}

/// What a pathspec list expands to, in order.
pub open spec fn expand_pathspecs(
    wd: Seq<u8>,
    files: Seq<WorktreeFileV>,
    specs: Seq<Seq<u8>>,
) -> Seq<Seq<u8>>
    decreases specs.len(),
{
    if specs.len() == 0 {
        Seq::empty()
    } else {
        expand_pathspec(files, spec_rel(wd, specs[0])) + expand_pathspecs(wd, files, specs.skip(1))
    }
}

/// The pathspecs that match nothing: no file and nothing beneath them.
pub open spec fn unmatched_of(
    wd: Seq<u8>,
    files: Seq<WorktreeFileV>,
    specs: Seq<Seq<u8>>,
) -> Seq<Seq<u8>>
    decreases specs.len(),
{
    if specs.len() == 0 {
        Seq::empty()
    } else {
        (if expand_pathspec(files, spec_rel(wd, specs[0])).len() == 0 {
            seq![specs[0]]
        } else {
            Seq::empty()
        }) + unmatched_of(wd, files, specs.skip(1))
    }
}

pub proof fn lemma_expand_split(
    wd: Seq<u8>,
    files: Seq<WorktreeFileV>,
    a: Seq<Seq<u8>>,
    b: Seq<Seq<u8>>,
)
    ensures
        expand_pathspecs(wd, files, a + b) == expand_pathspecs(wd, files, a) + expand_pathspecs(
            wd,
            files,
            b,
        ),
        unmatched_of(wd, files, a + b) == unmatched_of(wd, files, a) + unmatched_of(wd, files, b),
    decreases a.len(),
{
    if a.len() == 0 {
        assert(a + b =~= b);
        assert(expand_pathspecs(wd, files, a) + expand_pathspecs(wd, files, b) =~= expand_pathspecs(
            wd,
            files,
            b,
        ));
        assert(unmatched_of(wd, files, a) + unmatched_of(wd, files, b) =~= unmatched_of(
            wd,
            files,
            b,
        ));
    } else {
        lemma_expand_split(wd, files, a.skip(1), b);
        assert((a + b).skip(1) =~= a.skip(1) + b);
        assert((a + b)[0] == a[0]);
        let h = expand_pathspec(files, spec_rel(wd, a[0]));
        assert(h + (expand_pathspecs(wd, files, a.skip(1)) + expand_pathspecs(wd, files, b)) =~= (h
            + expand_pathspecs(wd, files, a.skip(1))) + expand_pathspecs(wd, files, b));
        let hu: Seq<Seq<u8>> = if expand_pathspec(files, spec_rel(wd, a[0])).len() == 0 {
            seq![a[0]]
        } else {
            Seq::empty()
        };
        assert(hu + (unmatched_of(wd, files, a.skip(1)) + unmatched_of(wd, files, b)) =~= (hu
            + unmatched_of(wd, files, a.skip(1))) + unmatched_of(wd, files, b));
    }
}

/// What the explicit-pathspec policy reports: how many stagings
/// changed the index and which pathspecs matched nothing.
#[derive(Clone, Debug)]
pub struct AddReport {
    pub added: usize,
    pub unmatched: Vec<Vec<u8>>,
}

/// Expand one relative pathspec against the working tree.
fn expand_one(repo: &Repository, rel: &[u8]) -> (r: Vec<Vec<u8>>)
    ensures
        r.deep_view() == expand_pathspec(repo.worktree@, rel@),
{
    let mut plan: Vec<Vec<u8>> = Vec::new();
    match repo.worktree.find_file(rel) {
        Some(_) => {
            plan.push(slice_to_vec_u8(rel));
            proof {
                assert(plan.deep_view() =~~= seq![rel@]);
            }
            return plan;
        },
        None => {},
    }
    let mut dir = slice_to_vec_u8(rel);
    crate::objects::push_str_bytes(&mut dir, "/");
    let ghost fv = repo.worktree@;
    let mut k: usize = 0;
    proof {
        assert(fv.take(0) =~= Seq::<WorktreeFileV>::empty());
        assert(plan.deep_view() =~= Seq::<Seq<u8>>::empty());
        assert(dir@ =~= rel@ + "/".spec_bytes());
    }
    while k < repo.worktree.files.len()
        invariant
            k <= repo.worktree.files@.len(),
            fv == repo.worktree@,
            fv.len() == repo.worktree.files@.len(),
            forall|j: int| 0 <= j < fv.len() ==> fv[j] == repo.worktree.files@[j]@,
            dir@ == rel@ + "/".spec_bytes(),
            plan.deep_view() == files_under(fv.take(k as int), rel@),
        decreases repo.worktree.files@.len() - k,
    {
        let f = &repo.worktree.files[k];
        let ghost pv = plan.deep_view();
        proof {
            assert(fv.take(k + 1) =~= fv.take(k as int) + seq![fv[k as int]]);
            lemma_files_under_split(fv.take(k as int), seq![fv[k as int]], rel@);
            assert(seq![fv[k as int]].skip(1) =~= Seq::<WorktreeFileV>::empty());
            assert(files_under(Seq::<WorktreeFileV>::empty(), rel@) =~= Seq::<Seq<u8>>::empty());
            assert(seq![fv[k as int]][0] == fv[k as int]);
        }
        if starts_with(f.path.as_slice(), dir.as_slice()) {
            let ghost fp = fv[k as int].path;
            plan.push(slice_to_vec_u8(f.path.as_slice()));
            proof {
                assert(files_under(seq![fv[k as int]], rel@) =~= seq![fp]);
                assert(plan.deep_view() =~~= pv + seq![fp]);
            }
        } else {
            proof {
                assert(files_under(seq![fv[k as int]], rel@) =~= Seq::<Seq<u8>>::empty());
                assert(pv + Seq::<Seq<u8>>::empty() =~= pv);
            }
        }
        k = k + 1;
    }
    proof {
        assert(fv.take(fv.len() as int) =~= fv);
    }
    plan
}

/// Stage the given pathspecs: a file is staged directly, a directory
/// recursively, a pathspec matching nothing is reported and skipped;
/// the index is persisted once when anything changed.
pub fn add_pathspec_files(repo: &mut Repository, pathspecs: &Vec<Vec<u8>>) -> (r: Result<
    AddReport,
    VcsError,
>)
    requires
        old(repo).well_formed(),
    ensures
        final(repo).well_formed(),
        final(repo).worktree@ == old(repo).worktree@,
        final(repo).refs@ == old(repo).refs@,
        final(repo).workdir@ == old(repo).workdir@,
        final(repo).default_branch == old(repo).default_branch,
        final(repo).author@ == old(repo).author@,
        old(repo).store@.is_prefix_of(final(repo).store@),
        r is Err <==> stage_refused(
            old(repo).worktree@,
            expand_pathspecs(old(repo).workdir@, old(repo).worktree@, pathspecs.deep_view()),
        ),
        match r {
            Ok(report) => ({
                let plan = expand_pathspecs(
                    old(repo).workdir@,
                    old(repo).worktree@,
                    pathspecs.deep_view(),
                );
                let st = stage_paths(old(repo).index@, old(repo).worktree@, plan);
                &&& final(repo).index@ == st.0
                &&& report.added == st.1
                &&& report.unmatched.deep_view() == unmatched_of(
                    old(repo).workdir@,
                    old(repo).worktree@,
                    pathspecs.deep_view(),
                )
                &&& final(repo).index.changed == (if report.added > 0 {
                    false
                } else {
                    old(repo).index.changed
                })
            }),
            Err(e) => e == VcsError::StoreFailure,
        },
{
    let ghost wd = repo.workdir@;
    let ghost fv = repo.worktree@;
    let ghost sv = pathspecs.deep_view();
    let mut plan: Vec<Vec<u8>> = Vec::new();
    let mut unmatched: Vec<Vec<u8>> = Vec::new();
    let mut i: usize = 0;
    proof {
        assert(sv.take(0) =~= Seq::<Seq<u8>>::empty());
        assert(plan.deep_view() =~= Seq::<Seq<u8>>::empty());
        assert(unmatched.deep_view() =~= Seq::<Seq<u8>>::empty());
    }
    while i < pathspecs.len()
        invariant
            i <= pathspecs@.len(),
            sv == pathspecs.deep_view(),
            sv.len() == pathspecs@.len(),
            forall|k: int| 0 <= k < sv.len() ==> sv[k] == pathspecs@[k]@,
            wd == repo.workdir@,
            fv == repo.worktree@,
            plan.deep_view() == expand_pathspecs(wd, fv, sv.take(i as int)),
            unmatched.deep_view() == unmatched_of(wd, fv, sv.take(i as int)),
        decreases pathspecs@.len() - i,
    {
        let p = &pathspecs[i];
        let rel = if starts_with(p.as_slice(), repo.workdir.as_slice()) {
            sub_bytes(p.as_slice(), repo.workdir.len(), p.len())
        } else {
            slice_to_vec_u8(p.as_slice())
        };
        proof {
            assert(rel@ =~= spec_rel(wd, sv[i as int]));
        }
        let ghost planv = plan.deep_view();
        let ghost unv = unmatched.deep_view();
        let mut expanded = expand_one(repo, rel.as_slice());
        let ghost ev = expanded.deep_view();
        let had_any = expanded.len() > 0;
        plan.append(&mut expanded);
        if !had_any {
            unmatched.push(slice_to_vec_u8(p.as_slice()));
            proof {
                assert(unmatched.deep_view() =~~= unv + seq![sv[i as int]]);
            }
        }
        proof {
            assert(sv.take(i + 1) =~= sv.take(i as int) + seq![sv[i as int]]);
            lemma_expand_split(wd, fv, sv.take(i as int), seq![sv[i as int]]);
            assert(seq![sv[i as int]].skip(1) =~= Seq::<Seq<u8>>::empty());
            assert(expand_pathspecs(wd, fv, Seq::<Seq<u8>>::empty()) =~= Seq::<Seq<u8>>::empty());
            assert(unmatched_of(wd, fv, Seq::<Seq<u8>>::empty()) =~= Seq::<Seq<u8>>::empty());
            assert(seq![sv[i as int]][0] == sv[i as int]);
            assert(expand_pathspecs(wd, fv, seq![sv[i as int]]) =~= ev);
            assert(plan.deep_view() =~= planv + ev);
            if had_any {
                assert(unmatched_of(wd, fv, seq![sv[i as int]]) =~= Seq::<Seq<u8>>::empty());
                assert(unv + Seq::<Seq<u8>>::empty() =~= unv);
            } else {
                assert(ev =~= Seq::<Seq<u8>>::empty());
                assert(unmatched_of(wd, fv, seq![sv[i as int]]) =~= seq![sv[i as int]]);
            }
        }
        i = i + 1;
    }
    proof {
        assert(sv.take(sv.len() as int) =~= sv);
    }
    let added = match stage_path_list(repo, &plan) {
        Ok(n) => n,
        Err(e) => {
            return Err(e);
        },
    };
    if added > 0 {
        repo.index.write();
    }
    Ok(AddReport { added, unmatched })
}

/// What `add` reports.
#[derive(Clone, Debug)]
pub enum AddOutcome {
    /// Nothing was specified and no policy flag given: nothing added.
    NothingSpecified,
    /// Staging ran; how many stagings changed the index, and any
    /// pathspecs that matched nothing.
    Added { count: usize, unmatched: Vec<Vec<u8>> },
}

/// Add file contents to the index: every change in all-files mode,
/// tracked modifications only in update mode, else the given
/// pathspecs; with nothing specified and no flag, nothing is added.
pub fn run(repo: &mut Repository, pathspec: Vec<Vec<u8>>, all: bool, update: bool) -> (r: Result<
    AddOutcome,
    VcsError,
>)
    requires
        old(repo).well_formed(),
    ensures
        final(repo).well_formed(),
        final(repo).worktree@ == old(repo).worktree@,
        final(repo).refs@ == old(repo).refs@,
        final(repo).workdir@ == old(repo).workdir@,
        final(repo).default_branch == old(repo).default_branch,
        final(repo).author@ == old(repo).author@,
        old(repo).store@.is_prefix_of(final(repo).store@),
        (!all && !update && pathspec.deep_view().len() == 0) <==> r == Ok::<
            AddOutcome,
            VcsError,
        >(AddOutcome::NothingSpecified),
        r is Err <==> ({
            let items = status_items(old(repo).index@, old(repo).worktree@);
            if all {
                crate::status::status_refused(old(repo).index@, old(repo).worktree@)
                    || stage_refused(old(repo).worktree@, all_paths(items))
            } else if update {
                crate::status::status_refused(old(repo).index@, old(repo).worktree@)
                    || stage_refused(old(repo).worktree@, mod_paths(items))
            } else if pathspec.deep_view().len() > 0 {
                stage_refused(
                    old(repo).worktree@,
                    expand_pathspecs(
                        old(repo).workdir@,
                        old(repo).worktree@,
                        pathspec.deep_view(),
                    ),
                )
            } else {
                false
            }
        }),
        match r {
            Ok(out) => match out {
                AddOutcome::NothingSpecified => !all && !update && pathspec.deep_view().len() == 0
                    && final(repo).index@ == old(repo).index@,
                AddOutcome::Added { count, unmatched } => ({
                    let items = status_items(old(repo).index@, old(repo).worktree@);
                    let plan = if all {
                        all_paths(items)
                    } else if update {
                        mod_paths(items)
                    } else {
                        expand_pathspecs(
                            old(repo).workdir@,
                            old(repo).worktree@,
                            pathspec.deep_view(),
                        )
                    };
                    let st = stage_paths(old(repo).index@, old(repo).worktree@, plan);
                    &&& final(repo).index@ == st.0
                    &&& count == st.1
                    &&& (all || update ==> unmatched.deep_view().len() == 0)
                    &&& (!all && !update ==> unmatched.deep_view() == unmatched_of(
                        old(repo).workdir@,
                        old(repo).worktree@,
                        pathspec.deep_view(),
                    ))
                }),
            },
            Err(e) => e == VcsError::StoreFailure,
        },
{
    if all {
        match add_all_files(repo) {
            Ok(n) => Ok(AddOutcome::Added { count: n, unmatched: Vec::new() }),
            Err(e) => Err(e),
        }
    } else if update {
        match add_modified_files_to_index(repo) {
            Ok(n) => Ok(AddOutcome::Added { count: n, unmatched: Vec::new() }),
            Err(e) => Err(e),
        }
    } else if pathspec.len() == 0 {
        proof {
            assert(repo.store@.is_prefix_of(repo.store@));
        }
        Ok(AddOutcome::NothingSpecified)
    } else {
        match add_pathspec_files(repo, &pathspec) {
            Ok(report) => Ok(
                AddOutcome::Added { count: report.added, unmatched: report.unmatched },
            ),
            Err(e) => Err(e),
        }
    }
}

} // verus!
