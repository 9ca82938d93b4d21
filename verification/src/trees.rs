//! Trees against the index: building a tree object (and its subtrees)
//! from the live index by grouping entries on directory prefixes, and
//! flattening a stored tree back into index entries.

use vstd::prelude::*;
use vstd::seq_lib::*;
use vstd::string::StrSliceExecFns;
use vstd::string::StringSliceAdditionalSpecFns;
use crate::errors::VcsError;
use crate::hashing::{digest_refused, object_digest, ObjectKind};
use crate::index::{Index, IndexEntry, IndexEntryV, Stat};
use crate::objects::{
    store_find, tree_body_of, EntryMode, ObjectData, ObjectDataV, ObjectStore, StoredObjectV,
    TreeEntry, TreeEntryV,
};
use crate::oid::ObjectId;

verus! {

/// The byte that separates path components.
pub open spec fn slash() -> u8 {
    47u8
}

/// The end of the path component that starts at `i`: the position of
/// the next separator, or the end of the path.
pub open spec fn seg_end(p: Seq<u8>, i: int) -> int
    decreases p.len() - i,
{
    if i >= p.len() || i < 0 {
        p.len() as int
    } else if p[i] == slash() {
        i
    } else {
        seg_end(p, i + 1)
    }
}

pub proof fn lemma_seg_end_props(p: Seq<u8>, i: int)
    requires
        0 <= i <= p.len(),
    ensures
        i <= seg_end(p, i) <= p.len(),
        seg_end(p, i) < p.len() ==> p[seg_end(p, i)] == slash(),
        forall|j: int| i <= j < seg_end(p, i) ==> p[j] != slash(),
    decreases p.len() - i,
{
    if i < p.len() && p[i] != slash() {
        lemma_seg_end_props(p, i + 1);
    }
}

/// Whether the path lies beneath the directory named `seg` at `plen`:
/// it continues with `seg` and a separator.
pub open spec fn path_in_dir(p: Seq<u8>, plen: int, seg: Seq<u8>) -> bool {
    &&& 0 <= plen
    &&& p.len() > plen + seg.len()
    &&& p.subrange(plen, plen + seg.len()) == seg
    &&& p[plen + seg.len()] == slash()
}

/// How many leading entries lie beneath the directory `seg` at `plen`.
pub open spec fn dir_run(s: Seq<IndexEntryV>, plen: int, seg: Seq<u8>) -> int
    decreases s.len(),
{
    if s.len() > 0 && path_in_dir(s[0].path, plen, seg) {
        1 + dir_run(s.skip(1), plen, seg)
    } else {
        0
    }
}

pub proof fn lemma_dir_run_bounds(s: Seq<IndexEntryV>, plen: int, seg: Seq<u8>)
    ensures
        0 <= dir_run(s, plen, seg) <= s.len(),
        forall|j: int| 0 <= j < dir_run(s, plen, seg) ==> path_in_dir(#[trigger] s[j].path, plen, seg),
        dir_run(s, plen, seg) < s.len() ==> !path_in_dir(s[dir_run(s, plen, seg)].path, plen, seg),
    decreases s.len(),
{
    if s.len() > 0 && path_in_dir(s[0].path, plen, seg) {
        lemma_dir_run_bounds(s.skip(1), plen, seg);
        let g1 = dir_run(s.skip(1), plen, seg);
        assert forall|j: int| 0 <= j < dir_run(s, plen, seg) implies path_in_dir(
            #[trigger] s[j].path,
            plen,
            seg,
        ) by {
            if j >= 1 {
                assert(s.skip(1)[j - 1] == s[j]);
                assert(path_in_dir(s.skip(1)[j - 1].path, plen, seg));
            }
        }
        assert(g1 < s.skip(1).len() ==> s.skip(1)[g1] == s[g1 + 1]);
    }
}

/// The tree-level entries that a run of index entries sharing the
/// path prefix of length `plen` serializes to, one component deep;
/// subtrees are named by their digests. `None` when the recursion
/// fuel runs out.
pub open spec fn tree_entries_at(s: Seq<IndexEntryV>, plen: int, fuel: nat) -> Option<
    Seq<TreeEntryV>,
>
    decreases fuel, s.len(),
    via tree_entries_at_dec
{
    if s.len() == 0 {
        Some(Seq::empty())
    } else {
        let p0 = s[0].path;
        let e = seg_end(p0, plen);
        let seg = p0.subrange(plen, e);
        if e < p0.len() {
            if fuel == 0 {
                None
            } else {
                let g = dir_run_pos(s, plen, seg);
                match tree_entries_at(s.take(g), plen + seg.len() + 1, (fuel - 1) as nat) {
                    Some(sub) => {
                        let id = object_digest(ObjectKind::Tree, tree_body_of(sub));
                        match tree_entries_at(s.skip(g), plen, fuel) {
                            Some(rest) => Some(
                                seq![TreeEntryV { mode: EntryMode::Tree, name: seg, id }] + rest,
                            ),
                            None => None,
                        }
                    },
                    None => None,
                }
            }
        } else {
            match tree_entries_at(s.skip(1), plen, fuel) {
                Some(rest) => Some(
                    seq![TreeEntryV { mode: s[0].mode, name: seg, id: s[0].id }] + rest,
                ),
                None => None,
            }
        }
    }
}

#[via_fn]
proof fn tree_entries_at_dec(s: Seq<IndexEntryV>, plen: int, fuel: nat) {
    if s.len() > 0 {
        let p0 = s[0].path;
        let e = seg_end(p0, plen);
        let seg = p0.subrange(plen, e);
        lemma_dir_run_bounds(s, plen, seg);
        assert(1 <= dir_run_pos(s, plen, seg) <= s.len());
    }
}

/// Whether building tree objects for the entry run would require a
/// subtree digest the hashing routine refuses; where the fuel runs out
/// the run fails for that reason instead and this is false.
pub open spec fn build_refused(s: Seq<IndexEntryV>, plen: int, fuel: nat) -> bool
    decreases fuel, s.len(),
    via build_refused_dec
{
    if s.len() == 0 {
        false
    } else {
        let p0 = s[0].path;
        let e = seg_end(p0, plen);
        let seg = p0.subrange(plen, e);
        if e < p0.len() {
            if fuel == 0 {
                false
            } else {
                let g = dir_run_pos(s, plen, seg);
                build_refused(s.take(g), plen + seg.len() + 1, (fuel - 1) as nat) || (match
                    tree_entries_at(s.take(g), plen + seg.len() + 1, (fuel - 1) as nat) {
                    Some(sub) => digest_refused(ObjectKind::Tree, tree_body_of(sub)),
                    None => false,
                }) || build_refused(s.skip(g), plen, fuel)
            }
        } else {
            build_refused(s.skip(1), plen, fuel)
        }
    }
}

#[via_fn]
proof fn build_refused_dec(s: Seq<IndexEntryV>, plen: int, fuel: nat) {
    if s.len() > 0 {
        let p0 = s[0].path;
        let e = seg_end(p0, plen);
        let seg = p0.subrange(plen, e);
        lemma_dir_run_bounds(s, plen, seg);
        assert(1 <= dir_run_pos(s, plen, seg) <= s.len());
    }
}

/// The directory run, never smaller than one: used so that recursion
/// visibly consumes entries even on degenerate inputs.
pub open spec fn dir_run_pos(s: Seq<IndexEntryV>, plen: int, seg: Seq<u8>) -> int {
    if dir_run(s, plen, seg) < 1 {
        1
    } else {
        dir_run(s, plen, seg)
    }
}

/// The longest path length among the entries.
pub open spec fn max_path_len(s: Seq<IndexEntryV>) -> nat
    decreases s.len(),
{
    if s.len() == 0 {
        0
    } else {
        let rest = max_path_len(s.skip(1));
        if s[0].path.len() > rest {
            s[0].path.len()
        } else {
            rest
        }
    }
}

/// The tree entries of the whole index, with fuel that suffices for
/// any nesting its paths can produce.
pub open spec fn index_tree_entries(s: Seq<IndexEntryV>) -> Option<Seq<TreeEntryV>> {
    tree_entries_at(s, 0, (max_path_len(s) + 1) as nat)
}

/// The id the index serializes to, where the fuel suffices.
pub open spec fn index_tree_id(s: Seq<IndexEntryV>) -> Seq<u8> {
    object_digest(ObjectKind::Tree, tree_body_of(index_tree_entries(s)->Some_0))
}

pub proof fn lemma_dir_run_eq(s: Seq<IndexEntryV>, plen: int, seg: Seq<u8>, g: int)
    requires
        0 <= g <= s.len(),
        forall|j: int| 0 <= j < g ==> path_in_dir(#[trigger] s[j].path, plen, seg),
        g < s.len() ==> !path_in_dir(s[g].path, plen, seg),
    ensures
        dir_run(s, plen, seg) == g,
    decreases g,
{
    if g == 0 {
    } else {
        assert(path_in_dir(s[0].path, plen, seg));
        assert(forall|j: int| 0 <= j < g - 1 ==> s.skip(1)[j] == s[j + 1]);
        assert(g - 1 < s.skip(1).len() ==> s.skip(1)[g - 1] == s[g as int]);
        lemma_dir_run_eq(s.skip(1), plen, seg, g - 1);
    }
}

/// Find the end of the path component that starts at `i`.
pub fn seg_end_exec(p: &[u8], i: usize) -> (r: usize)
    requires
        i <= p@.len(),
    ensures
        r == seg_end(p@, i as int),
        i <= r <= p@.len(),
{
    proof {
        lemma_seg_end_props(p@, i as int);
    }
    let mut j: usize = i;
    while j < p.len() && p[j] != 47
        invariant
            i <= j <= p@.len(),
            seg_end(p@, i as int) == seg_end(p@, j as int),
        decreases p@.len() - j,
    {
        j = j + 1;
    }
    j
}

/// Copy `p[from..to]` out.
pub fn sub_bytes(p: &[u8], from: usize, to: usize) -> (r: Vec<u8>)
    requires
        from <= to <= p@.len(),
    ensures
        r@ == p@.subrange(from as int, to as int),
{
    let mut out: Vec<u8> = Vec::new();
    let mut j: usize = from;
    while j < to
        invariant
            from <= j <= to <= p@.len(),
            out@ == p@.subrange(from as int, j as int),
        decreases to - j,
    {
        proof {
            assert(p@.subrange(from as int, j + 1) =~= p@.subrange(from as int, j as int).push(
                p@[j as int],
            ));
        }
        out.push(p[j]);
        j = j + 1;
    }
    out
}

/// Whether the path continues at `plen` with `seg` and a separator.
pub fn path_in_dir_exec(p: &[u8], plen: usize, seg: &[u8]) -> (r: bool)
    ensures
        r == path_in_dir(p@, plen as int, seg@),
{
    let n = p.len();
    if n <= plen {
        return false;
    }
    if n - plen <= seg.len() {
        return false;
    }
    let mut j: usize = 0;
    while j < seg.len()
        invariant
            j <= seg@.len(),
            n == p@.len(),
            plen + seg@.len() < n,
            forall|k: int| 0 <= k < j ==> p@[plen + k] == seg@[k],
        decreases seg@.len() - j,
    {
        if p[plen + j] != seg[j] {
            proof {
                assert(p@.subrange(plen as int, plen + seg@.len())[j as int] != seg@[j as int]);
            }
            return false;
        }
        j = j + 1;
    }
    let r = p[plen + seg.len()] == 47;
    proof {
        assert(p@.subrange(plen as int, plen + seg@.len()) =~= seg@);
    }
    r
}

/// Build the tree objects for the entry range `[lo, hi)` of the index,
/// all of whose paths share a directory prefix of length `plen`:
/// subtrees are grouped on their next path component, written to the
/// store, and named by their ids. Fails only when the fuel cannot
/// cover the nesting or the store refuses a write.
pub fn collect_tree_entries(
    store: &mut ObjectStore,
    entries: &Vec<IndexEntry>,
    lo: usize,
    hi: usize,
    plen: usize,
    fuel: u64,
) -> (r: Result<Vec<TreeEntry>, VcsError>)
    requires
        lo <= hi <= entries@.len(),
        forall|k: int| lo <= k < hi ==> plen <= (#[trigger] entries.deep_view()[k]).path.len(),
        old(store).well_formed(),
    ensures
        final(store).well_formed(),
        old(store)@.is_prefix_of(final(store)@),
        r is Err <==> (tree_entries_at(
            entries.deep_view().subrange(lo as int, hi as int),
            plen as int,
            fuel as nat,
        ) is None || build_refused(
            entries.deep_view().subrange(lo as int, hi as int),
            plen as int,
            fuel as nat,
        )),
        match r {
            Ok(v) => tree_entries_at(
                entries.deep_view().subrange(lo as int, hi as int),
                plen as int,
                fuel as nat,
            ) == Some(v.deep_view()),
            Err(e) => e == VcsError::StoreFailure,
        },
    decreases fuel, hi - lo,
{
    let ghost sub = entries.deep_view().subrange(lo as int, hi as int);
    if lo == hi {
        proof {
            assert(sub =~= Seq::<IndexEntryV>::empty());
            assert(store@.is_prefix_of(store@));
        }
        let v: Vec<TreeEntry> = Vec::new();
        proof {
            assert(v.deep_view() =~= Seq::<TreeEntryV>::empty());
        }
        return Ok(v);
    }
    proof {
        assert(sub[0] == entries.deep_view()[lo as int]);
        assert(entries.deep_view()[lo as int] == entries@[lo as int]@);
    }
    let e = seg_end_exec(entries[lo].path.as_slice(), plen);
    let seg = sub_bytes(entries[lo].path.as_slice(), plen, e);
    let ghost p0 = sub[0].path;
    proof {
        lemma_seg_end_props(p0, plen as int);
    }
    if e < entries[lo].path.len() {
        if fuel == 0 {
            proof {
                assert(store@.is_prefix_of(store@));
            }
            return Err(VcsError::StoreFailure);
        }
        // The first entry itself lies beneath the directory.
        proof {
            assert(p0.subrange(plen as int, plen + seg@.len()) =~= seg@);
            assert(path_in_dir(p0, plen as int, seg@));
        }
        let mut g: usize = 1;
        loop
            invariant_except_break
                1 <= g,
                lo + g <= hi <= entries@.len(),
                sub == entries.deep_view().subrange(lo as int, hi as int),
                sub.len() == hi - lo,
                forall|k: int| 0 <= k < sub.len() ==> sub[k] == entries.deep_view()[lo + k],
                forall|j: int| 0 <= j < g ==> path_in_dir(#[trigger] sub[j].path, plen as int, seg@),
            ensures
                1 <= g,
                lo + g <= hi,
                forall|j: int| 0 <= j < g ==> path_in_dir(#[trigger] sub[j].path, plen as int, seg@),
                lo + g < hi ==> !path_in_dir(sub[g as int].path, plen as int, seg@),
            decreases hi - lo - g,
        {
            if lo + g >= hi {
                break;
            }
            if !path_in_dir_exec(entries[lo + g].path.as_slice(), plen, seg.as_slice()) {
                break;
            }
            g = g + 1;
        }
        proof {
            lemma_dir_run_eq(sub, plen as int, seg@, g as int);
            assert(dir_run_pos(sub, plen as int, seg@) == g);
        }
        let plen2 = e + 1;
        proof {
            assert(forall|k: int|
                lo <= k < lo + g ==> plen2 <= (#[trigger] entries.deep_view()[k]).path.len()) by {
                assert(forall|j: int|
                    0 <= j < g ==> path_in_dir(#[trigger] sub[j].path, plen as int, seg@));
                assert(forall|k: int| lo <= k < lo + g ==> entries.deep_view()[k] == sub[k - lo]);
            }
        }
        let ghost store0 = store@;
        let sub_r = collect_tree_entries(store, entries, lo, lo + g, plen2, fuel - 1);
        let subv = match sub_r {
            Ok(v) => v,
            Err(err) => {
                proof {
                    assert(entries.deep_view().subrange(lo as int, lo + g) =~= sub.take(g as int));
                    assert(tree_entries_at(sub.take(g as int), plen2 as int, (fuel - 1) as nat)
                        is None ==> tree_entries_at(sub, plen as int, fuel as nat) is None);
                    assert(build_refused(sub.take(g as int), plen2 as int, (fuel - 1) as nat)
                        ==> build_refused(sub, plen as int, fuel as nat));
                }
                return Err(err);
            },
        };
        let ghost subvv = subv.deep_view();
        proof {
            assert(entries.deep_view().subrange(lo as int, lo + g) =~= sub.take(g as int));
        }
        let ghost store_mid = store@;
        let id_r = store.write_object(ObjectData::Tree(subv));
        let id = match id_r {
            Ok(id) => id,
            Err(err) => {
                proof {
                    assert(store_mid == store@);
                    lemma_prefix_trans(store0, store_mid, store@);
                    assert(digest_refused(ObjectKind::Tree, tree_body_of(subvv)));
                    assert(build_refused(sub, plen as int, fuel as nat));
                }
                return Err(err);
            },
        };
        proof {
            assert(store_mid.is_prefix_of(store@)) by {
                assert(store_mid =~= store@.subrange(0, store_mid.len() as int));
            }
            lemma_prefix_trans(store0, store_mid, store@);
        }
        let ghost store_mid2 = store@;
        let rest_r = collect_tree_entries(store, entries, lo + g, hi, plen, fuel);
        let mut rest = match rest_r {
            Ok(v) => v,
            Err(err) => {
                proof {
                    lemma_prefix_trans(store0, store_mid2, store@);
                    assert(entries.deep_view().subrange(lo + g, hi as int) =~= sub.skip(g as int));
                    assert(tree_entries_at(sub.skip(g as int), plen as int, fuel as nat) is None
                        ==> tree_entries_at(sub, plen as int, fuel as nat) is None);
                    assert(build_refused(sub.skip(g as int), plen as int, fuel as nat)
                        ==> build_refused(sub, plen as int, fuel as nat));
                }
                return Err(err);
            },
        };
        let ghost restv = rest.deep_view();
        let mut out: Vec<TreeEntry> = Vec::new();
        out.push(TreeEntry { mode: EntryMode::Tree, name: seg, id });
        out.append(&mut rest);
        proof {
            lemma_prefix_trans(store0, store_mid2, store@);
            assert(entries.deep_view().subrange(lo + g, hi as int) =~= sub.skip(g as int));
            let head = TreeEntryV {
                mode: EntryMode::Tree,
                name: seg@,
                id: object_digest(ObjectKind::Tree, tree_body_of(subvv)),
            };
            assert(out.deep_view() =~= seq![head] + restv);
            assert(tree_entries_at(sub, plen as int, fuel as nat) == Some(seq![head] + restv));
            assert(!build_refused(sub, plen as int, fuel as nat));
        }
        Ok(out)
    } else {
        let ghost store0 = store@;
        let rest_r = collect_tree_entries(store, entries, lo + 1, hi, plen, fuel);
        let mut rest = match rest_r {
            Ok(v) => v,
            Err(err) => {
                proof {
                    assert(entries.deep_view().subrange(lo + 1, hi as int) =~= sub.skip(1));
                    assert(tree_entries_at(sub.skip(1), plen as int, fuel as nat) is None
                        ==> tree_entries_at(sub, plen as int, fuel as nat) is None);
                    assert(build_refused(sub.skip(1), plen as int, fuel as nat) ==> build_refused(
                        sub,
                        plen as int,
                        fuel as nat,
                    ));
                }
                return Err(err);
            },
        };
        let ghost restv = rest.deep_view();
        let mut out: Vec<TreeEntry> = Vec::new();
        let id = ObjectId::new(crate::objects::slice_to_vec_u8(entries[lo].id.bytes.as_slice()));
        out.push(TreeEntry { mode: entries[lo].mode, name: seg, id });
        out.append(&mut rest);
        proof {
            assert(entries.deep_view().subrange(lo + 1, hi as int) =~= sub.skip(1));
            let head = TreeEntryV { mode: sub[0].mode, name: seg@, id: sub[0].id };
            assert(out.deep_view() =~= seq![head] + restv);
            assert(tree_entries_at(sub, plen as int, fuel as nat) == Some(seq![head] + restv));
            assert(!build_refused(sub, plen as int, fuel as nat));
        }
        Ok(out)
    }
}

/// The longest path length among the first `i` entries equals the
/// spec maximum over the suffix processed so far.
pub fn max_path_len_exec(entries: &Vec<IndexEntry>) -> (r: usize)
    ensures
        r == max_path_len(entries.deep_view()),
{
    let ghost dv = entries.deep_view();
    let mut m: usize = 0;
    let mut i: usize = entries.len();
    proof {
        assert(dv.skip(i as int) =~= Seq::<IndexEntryV>::empty());
    }
    while i > 0
        invariant
            i <= entries@.len(),
            dv == entries.deep_view(),
            dv.len() == entries@.len(),
            forall|k: int| 0 <= k < dv.len() ==> dv[k] == entries@[k]@,
            m == max_path_len(dv.skip(i as int)),
        decreases i,
    {
        i = i - 1;
        let plen = entries[i].path.len();
        proof {
            assert(dv.skip(i as int)[0] == dv[i as int]);
            assert(dv.skip(i as int).skip(1) =~= dv.skip(i + 1));
        }
        if plen > m {
            m = plen;
        }
    }
    proof {
        assert(dv.skip(0) =~= dv);
    }
    m
}

/// Whether freezing the index into a tree fails: the fuel cannot be
/// sized (a path of the machine's maximum length), the grouping runs
/// out of fuel, or the hashing routine refuses some subtree or the
/// root tree body.
pub open spec fn write_tree_refused(s: Seq<IndexEntryV>) -> bool {
    ||| max_path_len(s) == usize::MAX
    ||| index_tree_entries(s) is None
    ||| build_refused(s, 0, (max_path_len(s) + 1) as nat)
    ||| (index_tree_entries(s) matches Some(tes) && digest_refused(
        ObjectKind::Tree,
        tree_body_of(tes),
    ))
}

/// Freeze the live index into a tree object: entries are grouped
/// recursively by directory prefix, every subtree is written to the
/// store, and the root tree's id is returned.
pub fn write_tree_from_index(store: &mut ObjectStore, index: &Index) -> (r: Result<
    ObjectId,
    VcsError,
>)
    requires
        old(store).well_formed(),
    ensures
        final(store).well_formed(),
        old(store)@.is_prefix_of(final(store)@),
        r is Err <==> write_tree_refused(index@),
        match r {
            Ok(id) => {
                &&& index_tree_entries(index@) is Some
                &&& id@ == index_tree_id(index@)
                &&& id@.len() == 20
                &&& store_find(final(store)@, id@) is Some
            },
            Err(e) => e == VcsError::StoreFailure,
        },
{
    let maxlen = max_path_len_exec(&index.entries);
    if maxlen == usize::MAX {
        proof {
            assert(store@.is_prefix_of(store@));
        }
        return Err(VcsError::StoreFailure);
    }
    let fuel: u64 = (maxlen as u64) + 1;
    let n = index.entries.len();
    proof {
        assert(index.entries.deep_view().subrange(0, n as int) =~= index.entries.deep_view());
        assert(index@ == index.entries.deep_view());
    }
    let ghost store0 = store@;
    let top_r = collect_tree_entries(store, &index.entries, 0, n, 0, fuel);
    let top = match top_r {
        Ok(v) => v,
        Err(err) => {
            return Err(err);
        },
    };
    let ghost topv = top.deep_view();
    let ghost store_mid = store@;
    match store.write_object(ObjectData::Tree(top)) {
        Ok(id) => {
            proof {
                assert(store_mid.is_prefix_of(store@)) by {
                    assert(store_mid =~= store@.subrange(0, store_mid.len() as int));
                }
                lemma_prefix_trans(store0, store_mid, store@);
                assert(index_tree_entries(index@) == Some(topv));
            }
            Ok(id)
        },
        Err(err) => {
            proof {
                lemma_prefix_trans(store0, store_mid, store@);
            }
            Err(err)
        },
    }
}

/// Flatten a run of tree entries into index entries: blobs become
/// entries at `prefix` plus their name, subtrees are resolved in the
/// store and descended into. `None` when a subtree id does not resolve
/// to a tree or the fuel cannot cover the nesting.
pub open spec fn flatten_tree_at(
    store: Seq<StoredObjectV>,
    entries: Seq<TreeEntryV>,
    prefix: Seq<u8>,
    fuel: nat,
) -> Option<Seq<IndexEntryV>>
    decreases fuel, entries.len(),
{
    if entries.len() == 0 {
        Some(Seq::empty())
    } else {
        let e = entries[0];
        if e.mode == EntryMode::Tree {
            if fuel == 0 {
                None
            } else {
                match store_find(store, e.id) {
                    Some(ObjectDataV::Tree(subents)) => {
                        match flatten_tree_at(
                            store,
                            subents,
                            prefix + e.name + "/".spec_bytes(),
                            (fuel - 1) as nat,
                        ) {
                            Some(subfl) => {
                                match flatten_tree_at(store, entries.skip(1), prefix, fuel) {
                                    Some(rest) => Some(subfl + rest),
                                    None => None,
                                }
                            },
                            None => None,
                        }
                    },
                    _ => None,
                }
            }
        } else {
            match flatten_tree_at(store, entries.skip(1), prefix, fuel) {
                Some(rest) => Some(
                    seq![
                        IndexEntryV {
                            path: prefix + e.name,
                            id: e.id,
                            mode: e.mode,
                            stat: Stat { mtime_secs: 0, size: 0 },
                            flags: 0,
                        },
                    ] + rest,
                ),
                None => None,
            }
        }
    }
}

/// The index entries a stored tree denotes, with fuel bounded by the
/// store's own size.
pub open spec fn store_flatten(store: Seq<StoredObjectV>, tree_id: Seq<u8>) -> Option<
    Seq<IndexEntryV>,
> {
    match store_find(store, tree_id) {
        Some(ObjectDataV::Tree(es)) => flatten_tree_at(store, es, Seq::empty(), store.len() as nat),
        _ => None,
    }
}

/// Flattening distributes over splitting the entry run.
pub proof fn lemma_flatten_split(
    store: Seq<StoredObjectV>,
    a: Seq<TreeEntryV>,
    b: Seq<TreeEntryV>,
    prefix: Seq<u8>,
    fuel: nat,
)
    ensures
        flatten_tree_at(store, a + b, prefix, fuel) == (match (
            flatten_tree_at(store, a, prefix, fuel),
            flatten_tree_at(store, b, prefix, fuel),
        ) {
            (Some(x), Some(y)) => Some(x + y),
            _ => None,
        }),
    decreases a.len(),
{
    if a.len() == 0 {
        assert(a + b =~= b);
        assert(flatten_tree_at(store, a, prefix, fuel) == Some(Seq::<IndexEntryV>::empty()));
        if flatten_tree_at(store, b, prefix, fuel) is Some {
            assert(Seq::<IndexEntryV>::empty() + flatten_tree_at(store, b, prefix, fuel)->Some_0
                =~= flatten_tree_at(store, b, prefix, fuel)->Some_0);
        }
    } else {
        lemma_flatten_split(store, a.skip(1), b, prefix, fuel);
        assert((a + b).skip(1) =~= a.skip(1) + b);
        assert((a + b)[0] == a[0]);
        let r1 = flatten_tree_at(store, a.skip(1), prefix, fuel);
        let r2 = flatten_tree_at(store, b, prefix, fuel);
        if a[0].mode == EntryMode::Tree {
            if fuel > 0 {
                match store_find(store, a[0].id) {
                    Some(ObjectDataV::Tree(subents)) => {
                        let sf = flatten_tree_at(
                            store,
                            subents,
                            prefix + a[0].name + "/".spec_bytes(),
                            (fuel - 1) as nat,
                        );
                        if sf is Some && r1 is Some && r2 is Some {
                            assert(sf->Some_0 + (r1->Some_0 + r2->Some_0) =~= (sf->Some_0
                                + r1->Some_0) + r2->Some_0);
                        }
                    },
                    _ => {},
                }
            }
        } else {
            if r1 is Some && r2 is Some {
                let head = IndexEntryV {
                    path: prefix + a[0].name,
                    id: a[0].id,
                    mode: a[0].mode,
                    stat: Stat { mtime_secs: 0, size: 0 },
                    flags: 0,
                };
                assert(seq![head] + (r1->Some_0 + r2->Some_0) =~= (seq![head] + r1->Some_0)
                    + r2->Some_0);
            }
        }
    }
}

/// Flatten stored tree entries into index entries, in stored order.
pub fn flatten_tree_exec(
    store: &ObjectStore,
    entries: &Vec<TreeEntry>,
    prefix: &Vec<u8>,
    fuel: u64,
) -> (r: Result<Vec<IndexEntry>, VcsError>)
    ensures
        match r {
            Ok(v) => flatten_tree_at(store@, entries.deep_view(), prefix@, fuel as nat) == Some(
                v.deep_view(),
            ),
            Err(e) => e == VcsError::StoreFailure && flatten_tree_at(
                store@,
                entries.deep_view(),
                prefix@,
                fuel as nat,
            ) is None,
        },
    decreases fuel,
{
    let ghost dv = entries.deep_view();
    let mut out: Vec<IndexEntry> = Vec::new();
    let mut i: usize = 0;
    proof {
        assert(dv.take(0) =~= Seq::<TreeEntryV>::empty());
        assert(out.deep_view() =~= Seq::<IndexEntryV>::empty());
    }
    while i < entries.len()
        invariant
            i <= entries@.len(),
            dv == entries.deep_view(),
            dv.len() == entries@.len(),
            forall|k: int| 0 <= k < dv.len() ==> dv[k] == entries@[k]@,
            flatten_tree_at(store@, dv.take(i as int), prefix@, fuel as nat) == Some(
                out.deep_view(),
            ),
        decreases entries@.len() - i,
    {
        let e = &entries[i];
        let ghost outv = out.deep_view();
        proof {
            assert(dv.take(i + 1) =~= dv.take(i as int) + seq![dv[i as int]]);
            lemma_flatten_split(store@, dv.take(i as int), seq![dv[i as int]], prefix@, fuel as nat);
            assert(seq![dv[i as int]].skip(1) =~= Seq::<TreeEntryV>::empty());
            assert(flatten_tree_at(store@, Seq::<TreeEntryV>::empty(), prefix@, fuel as nat)
                == Some(Seq::<IndexEntryV>::empty()));
            assert(seq![dv[i as int]][0] == dv[i as int]);
        }
        match e.mode {
            EntryMode::Tree => {
                if fuel == 0 {
                    proof {
                        lemma_flatten_split(
                            store@,
                            dv.take(i + 1),
                            dv.skip(i + 1),
                            prefix@,
                            fuel as nat,
                        );
                        assert(dv.take(i + 1) + dv.skip(i + 1) =~= dv);
                    }
                    return Err(VcsError::StoreFailure);
                }
                let found = store.find(&e.id);
                match found {
                    Some(ObjectData::Tree(subents)) => {
                        let mut np = crate::objects::slice_to_vec_u8(prefix.as_slice());
                        crate::objects::push_bytes(&mut np, e.name.as_slice());
                        crate::objects::push_str_bytes(&mut np, "/");
                        let sub_r = flatten_tree_exec(store, subents, &np, fuel - 1);
                        match sub_r {
                            Ok(mut subfl) => {
                                let ghost subflv = subfl.deep_view();
                                out.append(&mut subfl);
                                proof {
                                    assert(np@ =~= prefix@ + dv[i as int].name
                                        + "/".spec_bytes());
                                    assert(out.deep_view() =~= outv + subflv);
                                    assert(subflv + Seq::<IndexEntryV>::empty() =~= subflv);
                                    assert(flatten_tree_at(
                                        store@,
                                        seq![dv[i as int]],
                                        prefix@,
                                        fuel as nat,
                                    ) == Some(subflv));
                                }
                            },
                            Err(err) => {
                                proof {
                                    assert(np@ =~= prefix@ + dv[i as int].name
                                        + "/".spec_bytes());
                                    assert(flatten_tree_at(
                                        store@,
                                        seq![dv[i as int]],
                                        prefix@,
                                        fuel as nat,
                                    ) is None);
                                    lemma_flatten_split(
                                        store@,
                                        dv.take(i + 1),
                                        dv.skip(i + 1),
                                        prefix@,
                                        fuel as nat,
                                    );
                                    assert(dv.take(i + 1) + dv.skip(i + 1) =~= dv);
                                }
                                return Err(err);
                            },
                        }
                    },
                    _ => {
                        proof {
                            assert(flatten_tree_at(
                                store@,
                                seq![dv[i as int]],
                                prefix@,
                                fuel as nat,
                            ) is None);
                            lemma_flatten_split(
                                store@,
                                dv.take(i + 1),
                                dv.skip(i + 1),
                                prefix@,
                                fuel as nat,
                            );
                            assert(dv.take(i + 1) + dv.skip(i + 1) =~= dv);
                        }
                        return Err(VcsError::StoreFailure);
                    },
                }
            },
            _ => {
                let mut path = crate::objects::slice_to_vec_u8(prefix.as_slice());
                crate::objects::push_bytes(&mut path, e.name.as_slice());
                let id = ObjectId::new(crate::objects::slice_to_vec_u8(e.id.bytes.as_slice()));
                let mode = e.mode;
                out.push(
                    IndexEntry { path, id, mode, stat: Stat { mtime_secs: 0, size: 0 }, flags: 0 },
                );
                proof {
                    let head = IndexEntryV {
                        path: prefix@ + dv[i as int].name,
                        id: dv[i as int].id,
                        mode: dv[i as int].mode,
                        stat: Stat { mtime_secs: 0, size: 0 },
                        flags: 0,
                    };
                    assert(seq![head] + Seq::<IndexEntryV>::empty() =~= seq![head]);
                    assert(flatten_tree_at(store@, seq![dv[i as int]], prefix@, fuel as nat)
                        == Some(seq![head]));
                    assert(out.deep_view() =~= outv + seq![head]);
                }
            },
        }
        i = i + 1;
    }
    proof {
        assert(dv.take(dv.len() as int) =~= dv);
    }
    Ok(out)
}

/// Prefix extension is transitive.
pub proof fn lemma_prefix_trans(a: Seq<StoredObjectV>, b: Seq<StoredObjectV>, c: Seq<StoredObjectV>)
    requires
        a.is_prefix_of(b),
        b.is_prefix_of(c),
    ensures
        a.is_prefix_of(c),
{
    assert(a =~= c.subrange(0, a.len() as int)) by {
        assert(forall|i: int|
            0 <= i < a.len() ==> a[i] == b.subrange(0, a.len() as int)[i]);
        assert(forall|i: int|
            0 <= i < b.len() ==> b[i] == c.subrange(0, b.len() as int)[i]);
    }
}

} // verus!
