//! The tree-listing engine: depth-first traversal of a tree object,
//! formatted entries, and aggregate statistics per entry kind.

use vstd::prelude::*;
use vstd::string::StringSliceAdditionalSpecFns;
use vstd::string::StrSliceExecFns;
use std::collections::VecDeque;
use crate::bytes::{dec_of, hex_of, to_hex, u64_to_dec};
use crate::errors::VcsError;
use crate::objects::{
    obj_body_of, push_bytes, push_str_bytes, serialize_object, slice_to_vec_u8, store_find,
    EntryMode, ObjectData, ObjectDataV, ObjectStore, StoredObjectV, TreeEntry, TreeEntryV,
};
use crate::oid::ObjectId;
use crate::repo::Repository;
use crate::trees::slash;

verus! {

/// Counts per entry kind and the byte total of resolved objects.
#[derive(Clone, Copy, PartialEq, Eq, Structural, Debug, Default)]
pub struct Statistics {
    pub num_trees: usize,
    pub num_links: usize,
    pub num_blobs: usize,
    pub num_blobs_exec: usize,
    pub num_submodules: usize,
    pub num_bytes: u64,
}

/// Zeroed statistics, as a fresh delegate carries them.
pub open spec fn stats_zero() -> Statistics {
    Statistics {
        num_trees: 0usize,
        num_links: 0usize,
        num_blobs: 0usize,
        num_blobs_exec: 0usize,
        num_submodules: 0usize,
        num_bytes: 0u64,
    }
}

/// A count that stops at its ceiling instead of wrapping.
pub open spec fn sat_inc(x: usize) -> usize {
    if x == usize::MAX {
        x
    } else {
        (x + 1) as usize
    }
}

pub open spec fn sat_add64(x: u64, n: u64) -> u64 {
    if x + n > u64::MAX {
        u64::MAX
    } else {
        (x + n) as u64
    }
}

fn sat_inc_exec(x: usize) -> (r: usize)
    ensures
        r == sat_inc(x),
{
    if x == usize::MAX {
        x
    } else {
        x + 1
    }
}

fn sat_add64_exec(x: u64, n: u64) -> (r: u64)
    ensures
        r == sat_add64(x, n),
{
    if n > u64::MAX - x {
        u64::MAX
    } else {
        x + n
    }
}

/// The six-digit octal mode shown for an entry.
pub open spec fn mode_octal(m: EntryMode) -> Seq<u8> {
    match m {
        EntryMode::Tree => "040000".spec_bytes(),
        EntryMode::Blob => "100644".spec_bytes(),
        EntryMode::BlobExecutable => "100755".spec_bytes(),
        EntryMode::Link => "120000".spec_bytes(),
        EntryMode::Commit => "160000".spec_bytes(),
    }
}

/// The kind label shown for an entry.
pub open spec fn kind_label(m: EntryMode) -> Seq<u8> {
    match m {
        EntryMode::Tree => "Tree".spec_bytes(),
        EntryMode::Blob => "Blob".spec_bytes(),
        EntryMode::BlobExecutable => "BlobExecutable".spec_bytes(),
        EntryMode::Link => "Link".spec_bytes(),
        EntryMode::Commit => "Commit".spec_bytes(),
    }
}

/// One formatted listing line: octal mode, kind, id, a tab, the
/// filename, and the resolved size in parentheses when one is known.
pub open spec fn line_of(m: EntryMode, id: Seq<u8>, filename: Seq<u8>, size: Option<u64>) -> Seq<
    u8,
> {
    mode_octal(m) + " ".spec_bytes() + kind_label(m) + " ".spec_bytes() + hex_of(id)
        + "\t".spec_bytes() + filename + (match size {
        Some(s) => " (".spec_bytes() + dec_of(s as nat) + ")".spec_bytes(),
        None => Seq::empty(),
    })
}

/// Format one tree entry for listing output.
pub fn format_entry(m: EntryMode, id: &ObjectId, filename: &[u8], size: Option<u64>) -> (r: Vec<
    u8,
>)
    ensures
        r@ == line_of(m, id@, filename@, size),
{
    let mut out: Vec<u8> = Vec::new();
    match m {
        EntryMode::Tree => push_str_bytes(&mut out, "040000"),
        EntryMode::Blob => push_str_bytes(&mut out, "100644"),
        EntryMode::BlobExecutable => push_str_bytes(&mut out, "100755"),
        EntryMode::Link => push_str_bytes(&mut out, "120000"),
        EntryMode::Commit => push_str_bytes(&mut out, "160000"),
    }
    push_str_bytes(&mut out, " ");
    match m {
        EntryMode::Tree => push_str_bytes(&mut out, "Tree"),
        EntryMode::Blob => push_str_bytes(&mut out, "Blob"),
        EntryMode::BlobExecutable => push_str_bytes(&mut out, "BlobExecutable"),
        EntryMode::Link => push_str_bytes(&mut out, "Link"),
        EntryMode::Commit => push_str_bytes(&mut out, "Commit"),
    }
    push_str_bytes(&mut out, " ");
    let hex = to_hex(id.bytes.as_slice());
    push_bytes(&mut out, hex.as_slice());
    push_str_bytes(&mut out, "\t");
    push_bytes(&mut out, filename);
    match size {
        Some(s) => {
            push_str_bytes(&mut out, " (");
            let d = u64_to_dec(s);
            push_bytes(&mut out, d.as_slice());
            push_str_bytes(&mut out, ")");
        },
        None => {},
    }
    proof {
        assert(out@ =~= line_of(m, id@, filename@, size));
    }
    out
}

/// The byte size of the object an id resolves to, if it resolves.
pub open spec fn entry_size(store: Seq<StoredObjectV>, id: Seq<u8>) -> Option<nat> {
    match store_find(store, id) {
        Some(o) => Some(obj_body_of(o).len()),
        None => None,
    }
}

fn entry_size_exec(store: &ObjectStore, id: &ObjectId) -> (r: Option<u64>)
    ensures
        match r {
            Some(s) => entry_size(store@, id@) == Some(s as nat),
            None => entry_size(store@, id@) is None,
        },
{
    match store.find(id) {
        Some(o) => {
            let body = serialize_object(o);
            Some(body.len() as u64)
        },
        None => None,
    }
}

/// The path with one more component appended.
pub open spec fn joined(path: Seq<u8>, name: Seq<u8>) -> Seq<u8> {
    if path.len() == 0 {
        name
    } else {
        path + "/".spec_bytes() + name
    }
}

/// The delegate that a depth-first traversal drives: statistics, the
/// current path, a tracked-path deque for traversals that visit out of
/// strict call/return order, the formatted lines, and whether the
/// extended statistics (sizes) are resolved.
pub struct Traverse {
    pub stats: Statistics,
    pub path: Vec<u8>,
    pub path_deque: VecDeque<Vec<u8>>,
    pub out: Vec<Vec<u8>>,
    pub extended: bool,
}

impl Traverse {
    /// A fresh delegate with zeroed statistics and an empty path.
    pub fn new(extended: bool) -> (r: Traverse)
        ensures
            r.stats == (Statistics {
                num_trees: 0usize,
                num_links: 0usize,
                num_blobs: 0usize,
                num_blobs_exec: 0usize,
                num_submodules: 0usize,
                num_bytes: 0u64,
            }),
            r.path@.len() == 0,
            r.path_deque.deep_view().len() == 0,
            r.out.deep_view().len() == 0,
            r.extended == extended,
    {
        Traverse {
            stats: Statistics {
                num_trees: 0,
                num_links: 0,
                num_blobs: 0,
                num_blobs_exec: 0,
                num_submodules: 0,
                num_bytes: 0,
            },
            path: Vec::new(),
            path_deque: VecDeque::new(),
            out: Vec::new(),
            extended,
        }
    }

    /// Drop the last component of the current path: cut at the last
    /// separator, or clear a single-component path.
    pub fn pop_element(&mut self)
        ensures
            final(self).path@ == old(self).path@.take(last_slash(old(self).path@)),
            final(self).stats == old(self).stats,
            final(self).out.deep_view() == old(self).out.deep_view(),
            final(self).path_deque.deep_view() == old(self).path_deque.deep_view(),
            final(self).extended == old(self).extended,
    {
        proof {
            lemma_last_slash_le(old(self).path@, old(self).path@.len() as int);
        }
        let mut j: usize = self.path.len();
        loop
            invariant_except_break
                j <= self.path@.len(),
                self == old(self),
                last_slash_from(self.path@, j as int) == last_slash(self.path@),
            ensures
                self == old(self),
                j == last_slash(old(self).path@),
                j <= old(self).path@.len(),
            decreases j,
        {
            if j == 0 {
                break;
            }
            if self.path[j - 1] == 47 {
                j = j - 1;
                break;
            }
            j = j - 1;
        }
        self.path.truncate(j);
    }

    /// Append one component to the current path, separated when the
    /// path is not empty.
    pub fn push_element(&mut self, name: &[u8])
        ensures
            final(self).path@ == joined(old(self).path@, name@),
            final(self).stats == old(self).stats,
            final(self).out.deep_view() == old(self).out.deep_view(),
            final(self).path_deque.deep_view() == old(self).path_deque.deep_view(),
            final(self).extended == old(self).extended,
    {
        if self.path.len() > 0 {
            push_str_bytes(&mut self.path, "/");
        }
        push_bytes(&mut self.path, name);
        proof {
            assert(final(self).path@ =~= joined(old(self).path@, name@));
        }
    }

    /// Track the path extended by one component at the back of the
    /// deque, setting it current.
    pub fn push_back_tracked_path_component(&mut self, component: &[u8])
        ensures
            final(self).path@ == joined(old(self).path@, component@),
            final(self).path_deque.deep_view() == old(self).path_deque.deep_view().push(
                joined(old(self).path@, component@),
            ),
            final(self).stats == old(self).stats,
            final(self).out.deep_view() == old(self).out.deep_view(),
            final(self).extended == old(self).extended,
    {
        self.push_element(component);
        let copy = slice_to_vec_u8(self.path.as_slice());
        self.path_deque.push_back(copy);
        proof {
            assert(self.path_deque.deep_view() =~~= old(self).path_deque.deep_view().push(
                joined(old(self).path@, component@),
            ));
        }
    }

    /// Make the front tracked path current, consuming it.
    pub fn pop_front_tracked_path_and_set_current(&mut self)
        ensures
            old(self).path_deque.deep_view().len() > 0 ==> final(self).path@ == old(self).path_deque.deep_view()[0]
                && final(self).path_deque.deep_view() == old(self).path_deque.deep_view().skip(1),
            old(self).path_deque.deep_view().len() == 0 ==> final(self).path@ == old(self).path@
                && final(self).path_deque.deep_view() == old(self).path_deque.deep_view(),
            final(self).stats == old(self).stats,
            final(self).out.deep_view() == old(self).out.deep_view(),
            final(self).extended == old(self).extended,
    {
        match self.path_deque.pop_front() {
            Some(p) => {
                self.path = p;
            },
            None => {},
        }
    }

    /// Make the back tracked path current, consuming it.
    pub fn pop_back_tracked_path_and_set_current(&mut self)
        ensures
            old(self).path_deque.deep_view().len() > 0 ==> final(self).path@ == old(self).path_deque.deep_view()[
                old(self).path_deque.deep_view().len() - 1]
                && final(self).path_deque.deep_view() == old(self).path_deque.deep_view().take(
                old(self).path_deque.deep_view().len() - 1,
            ),
            old(self).path_deque.deep_view().len() == 0 ==> final(self).path@ == old(self).path@
                && final(self).path_deque.deep_view() == old(self).path_deque.deep_view(),
            final(self).stats == old(self).stats,
            final(self).out.deep_view() == old(self).out.deep_view(),
            final(self).extended == old(self).extended,
    {
        match self.path_deque.pop_back() {
            Some(p) => {
                self.path = p;
            },
            None => {},
        }
    }

    /// Append one component to the current path.
    pub fn push_path_component(&mut self, component: &[u8])
        ensures
            final(self).path@ == joined(old(self).path@, component@),
            final(self).stats == old(self).stats,
            final(self).out.deep_view() == old(self).out.deep_view(),
            final(self).path_deque.deep_view() == old(self).path_deque.deep_view(),
            final(self).extended == old(self).extended,
    {
        self.push_element(component);
    }

    /// Drop the last component of the current path.
    pub fn pop_path_component(&mut self)
        ensures
            final(self).path@ == old(self).path@.take(last_slash(old(self).path@)),
            final(self).stats == old(self).stats,
            final(self).out.deep_view() == old(self).out.deep_view(),
            final(self).path_deque.deep_view() == old(self).path_deque.deep_view(),
            final(self).extended == old(self).extended,
    {
        self.pop_element();
    }

    /// Count and print one subtree entry at the current path.
    pub fn visit_tree(&mut self, entry: &TreeEntry)
        ensures
            final(self).stats == (Statistics {
                num_trees: sat_inc(old(self).stats.num_trees),
                ..old(self).stats
            }),
            final(self).out.deep_view() == old(self).out.deep_view().push(
                line_of(EntryMode::Tree, entry@.id, old(self).path@, None),
            ),
            final(self).path@ == old(self).path@,
            final(self).path_deque.deep_view() == old(self).path_deque.deep_view(),
            final(self).extended == old(self).extended,
    {
        self.stats.num_trees = sat_inc_exec(self.stats.num_trees);
        let line = format_entry(EntryMode::Tree, &entry.id, self.path.as_slice(), None);
        let ghost lv = line@;
        self.out.push(line);
        proof {
            assert(self.out.deep_view() =~~= old(self).out.deep_view().push(lv));
        }
    }

    /// Classify, count and print one non-tree entry at the current
    /// path; in extended mode its size is resolved in the store and
    /// added to the byte total.
    pub fn visit_nontree(&mut self, entry: &TreeEntry, store: &ObjectStore)
        ensures
            final(self).stats == visit_nontree_stats(
                old(self).stats,
                entry@,
                store@,
                old(self).extended,
            ),
            final(self).out.deep_view() == old(self).out.deep_view().push(
                line_of(
                    entry@.mode,
                    entry@.id,
                    old(self).path@,
                    nontree_size(entry@, store@, old(self).extended),
                ),
            ),
            final(self).path@ == old(self).path@,
            final(self).path_deque.deep_view() == old(self).path_deque.deep_view(),
            final(self).extended == old(self).extended,
    {
        match entry.mode {
            EntryMode::Tree => {},
            EntryMode::Blob => {
                self.stats.num_blobs = sat_inc_exec(self.stats.num_blobs);
            },
            EntryMode::BlobExecutable => {
                self.stats.num_blobs_exec = sat_inc_exec(self.stats.num_blobs_exec);
            },
            EntryMode::Link => {
                self.stats.num_links = sat_inc_exec(self.stats.num_links);
            },
            EntryMode::Commit => {
                self.stats.num_submodules = sat_inc_exec(self.stats.num_submodules);
            },
        }
        let size = if self.extended {
            entry_size_exec(store, &entry.id)
        } else {
            None
        };
        match size {
            Some(s) => {
                self.stats.num_bytes = sat_add64_exec(self.stats.num_bytes, s);
            },
            None => {},
        }
        let line = format_entry(entry.mode, &entry.id, self.path.as_slice(), size);
        let ghost lv = line@;
        self.out.push(line);
        proof {
            assert(self.out.deep_view() =~~= old(self).out.deep_view().push(lv));
        }
    }
}

/// The size shown for a non-tree entry: resolved in the store only in
/// extended mode, and clamped to the unsigned 64-bit range.
pub open spec fn nontree_size(e: TreeEntryV, store: Seq<StoredObjectV>, extended: bool) -> Option<
    u64,
> {
    if extended {
        match entry_size(store, e.id) {
            Some(n) => Some(
                if n > u64::MAX {
                    u64::MAX as u64
                } else {
                    n as u64
                },
            ),
            None => None,
        }
    } else {
        None
    }
}

/// The statistics after counting one non-tree entry.
pub open spec fn visit_nontree_stats(
    stats: Statistics,
    e: TreeEntryV,
    store: Seq<StoredObjectV>,
    extended: bool,
) -> Statistics {
    let counted = match e.mode {
        EntryMode::Tree => stats,
        EntryMode::Blob => Statistics { num_blobs: sat_inc(stats.num_blobs), ..stats },
        EntryMode::BlobExecutable => Statistics {
            num_blobs_exec: sat_inc(stats.num_blobs_exec),
            ..stats
        },
        EntryMode::Link => Statistics { num_links: sat_inc(stats.num_links), ..stats },
        EntryMode::Commit => Statistics { num_submodules: sat_inc(stats.num_submodules), ..stats },
    };
    match nontree_size(e, store, extended) {
        Some(s) => Statistics { num_bytes: sat_add64(counted.num_bytes, s), ..counted },
        None => counted,
    }
}

/// The position after the last separator, or zero: what remains of the
/// path when its last component is dropped.
pub open spec fn last_slash(p: Seq<u8>) -> int {
    last_slash_from(p, p.len() as int)
}

/// The cut position found scanning backwards from `j`.
pub open spec fn last_slash_from(p: Seq<u8>, j: int) -> int
    decreases j,
{
    if j <= 0 {
        0
    } else if p[j - 1] == slash() {
        j - 1
    } else {
        last_slash_from(p, j - 1)
    }
}

pub proof fn lemma_last_slash_le(p: Seq<u8>, j: int)
    ensures
        0 <= last_slash_from(p, j),
        last_slash_from(p, j) <= j || j < 0,
    decreases j,
{
    if j > 0 && p[j - 1] != slash() {
        lemma_last_slash_le(p, j - 1);
    }
}


/// What a depth-first traversal of an entry run adds to the
/// accumulated statistics and lines: subtree entries are counted,
/// printed at their full path and descended into; other entries are
/// classified, sized in extended mode, and printed. `None` when a
/// subtree id does not resolve to a tree or the fuel cannot cover the
/// nesting.
pub open spec fn traverse_spec(
    store: Seq<StoredObjectV>,
    entries: Seq<TreeEntryV>,
    path: Seq<u8>,
    stats: Statistics,
    lines: Seq<Seq<u8>>,
    extended: bool,
    fuel: nat,
) -> Option<(Statistics, Seq<Seq<u8>>)>
    decreases fuel, entries.len(),
{
    if entries.len() == 0 {
        Some((stats, lines))
    } else {
        let e = entries[0];
        let epath = joined(path, e.name);
        if e.mode == EntryMode::Tree {
            let stats1 = Statistics { num_trees: sat_inc(stats.num_trees), ..stats };
            let lines1 = lines.push(line_of(EntryMode::Tree, e.id, epath, None));
            if fuel == 0 {
                None
            } else {
                match store_find(store, e.id) {
                    Some(ObjectDataV::Tree(sub)) => {
                        match traverse_spec(
                            store,
                            sub,
                            epath,
                            stats1,
                            lines1,
                            extended,
                            (fuel - 1) as nat,
                        ) {
                            Some((s2, l2)) => traverse_spec(
                                store,
                                entries.skip(1),
                                path,
                                s2,
                                l2,
                                extended,
                                fuel,
                            ),
                            None => None,
                        }
                    },
                    _ => None,
                }
            }
        } else {
            let stats1 = visit_nontree_stats(stats, e, store, extended);
            let lines1 = lines.push(
                line_of(e.mode, e.id, epath, nontree_size(e, store, extended)),
            );
            traverse_spec(store, entries.skip(1), path, stats1, lines1, extended, fuel)
        }
    }
}

/// Drive a depth-first traversal of the entry run, leaving the
/// delegate's path as it found it.
pub fn traverse_run(
    store: &ObjectStore,
    entries: &Vec<TreeEntry>,
    trav: &mut Traverse,
    fuel: u64,
) -> (r: Result<(), VcsError>)
    ensures
        final(trav).path@ == old(trav).path@,
        final(trav).path_deque.deep_view() == old(trav).path_deque.deep_view(),
        final(trav).extended == old(trav).extended,
        match r {
            Ok(_) => traverse_spec(
                store@,
                entries.deep_view(),
                old(trav).path@,
                old(trav).stats,
                old(trav).out.deep_view(),
                old(trav).extended,
                fuel as nat,
            ) == Some((final(trav).stats, final(trav).out.deep_view())),
            Err(e) => e == VcsError::StoreFailure && traverse_spec(
                store@,
                entries.deep_view(),
                old(trav).path@,
                old(trav).stats,
                old(trav).out.deep_view(),
                old(trav).extended,
                fuel as nat,
            ) is None,
        },
    decreases fuel,
{
    let ghost dv = entries.deep_view();
    let ghost path0 = trav.path@;
    let ghost stats0 = trav.stats;
    let ghost lines0 = trav.out.deep_view();
    let ghost ext = trav.extended;
    let p0len = trav.path.len();
    let mut i: usize = 0;
    proof {
        assert(dv.skip(0) =~= dv);
    }
    while i < entries.len()
        invariant
            i <= entries@.len(),
            dv == entries.deep_view(),
            dv.len() == entries@.len(),
            forall|k: int| 0 <= k < dv.len() ==> dv[k] == entries@[k]@,
            trav.path@ == path0,
            p0len == path0.len(),
            path0 == old(trav).path@,
            stats0 == old(trav).stats,
            lines0 == old(trav).out.deep_view(),
            ext == old(trav).extended,
            trav.extended == ext,
            trav.path_deque.deep_view() == old(trav).path_deque.deep_view(),
            traverse_spec(store@, dv, path0, stats0, lines0, ext, fuel as nat) == traverse_spec(
                store@,
                dv.skip(i as int),
                path0,
                trav.stats,
                trav.out.deep_view(),
                ext,
                fuel as nat,
            ),
        decreases entries@.len() - i,
    {
        let e = &entries[i];
        proof {
            assert(dv.skip(i as int)[0] == dv[i as int]);
            assert(dv.skip(i as int).skip(1) =~= dv.skip(i + 1));
            assert(path0.is_prefix_of(joined(path0, dv[i as int].name))) by {
                assert(path0 =~= joined(path0, dv[i as int].name).subrange(
                    0,
                    path0.len() as int,
                ));
            }
            assert(joined(path0, dv[i as int].name).take(p0len as int) =~= path0);
        }
        match e.mode {
            EntryMode::Tree => {
                trav.push_element(e.name.as_slice());
                trav.visit_tree(e);
                if fuel == 0 {
                    trav.path.truncate(p0len);
                    return Err(VcsError::StoreFailure);
                }
                let found = store.find(&e.id);
                match found {
                    Some(ObjectData::Tree(sub)) => {
                        let sub_r = traverse_run(store, sub, trav, fuel - 1);
                        match sub_r {
                            Ok(_) => {},
                            Err(err) => {
                                trav.path.truncate(p0len);
                                return Err(err);
                            },
                        }
                    },
                    _ => {
                        trav.path.truncate(p0len);
                        return Err(VcsError::StoreFailure);
                    },
                }
                trav.path.truncate(p0len);
            },
            _ => {
                trav.push_element(e.name.as_slice());
                trav.visit_nontree(e, store);
                trav.path.truncate(p0len);
            },
        }
        i = i + 1;
    }
    proof {
        assert(dv.skip(dv.len() as int) =~= Seq::<TreeEntryV>::empty());
    }
    Ok(())
}

/// The id of the tree a tree-ish denotes: a given revision must name a
/// tree object held by the store; with none given, the tree of HEAD's
/// commit.
pub open spec fn spec_treeish_tree(
    store: Seq<StoredObjectV>,
    head: Option<Seq<u8>>,
    treeish: Option<Seq<u8>>,
) -> Option<Seq<u8>> {
    match treeish {
        Some(s) => match crate::revision::rev_resolve(head, store, s) {
            Some(id) => {
                if store_find(store, id) matches Some(ObjectDataV::Tree(_)) {
                    Some(id)
                } else {
                    None
                }
            },
            None => None,
        },
        None => match head {
            Some(h) => match store_find(store, h) {
                Some(ObjectDataV::Commit(c)) => Some(c.tree),
                _ => None,
            },
            None => None,
        },
    }
}

/// Resolve a tree-ish to its tree id; it fails exactly when the tree
/// id is not denoted: an unresolvable revision is an ambiguous
/// argument, a missing HEAD is a missing reference, anything that is
/// not a tree (or a commit the store lacks) is a store failure.
pub fn treeish_to_tree(treeish: Option<Vec<u8>>, repo: &Repository) -> (r: Result<
    ObjectId,
    VcsError,
>)
    requires
        repo.well_formed(),
    ensures
        r is Err <==> spec_treeish_tree(
            repo.store@,
            repo.refs@.head_target,
            match treeish {
                Some(t) => Some(t@),
                None => None,
            },
        ) is None,
        match r {
            Ok(id) => spec_treeish_tree(
                repo.store@,
                repo.refs@.head_target,
                match treeish {
                    Some(t) => Some(t@),
                    None => None,
                },
            ) == Some(id@),
            Err(e) => match treeish {
                Some(t) => {
                    if crate::revision::rev_resolve(
                        repo.refs@.head_target,
                        repo.store@,
                        t@,
                    ) is None {
                        e == VcsError::AmbiguousRevision
                    } else {
                        e == VcsError::StoreFailure
                    }
                },
                None => {
                    if repo.refs@.head_target is None {
                        e == VcsError::MissingReference
                    } else {
                        e == VcsError::StoreFailure
                    }
                },
            },
        },
{
    match treeish {
        Some(t) => {
            let id = match crate::revision::resolve_revision(repo, t.as_slice()) {
                Some(id) => id,
                None => {
                    return Err(VcsError::AmbiguousRevision);
                },
            };
            match repo.store.find(&id) {
                Some(ObjectData::Tree(_)) => Ok(id),
                _ => Err(VcsError::StoreFailure),
            }
        },
        None => {
            let head = match repo.refs.target() {
                Some(h) => h,
                None => {
                    return Err(VcsError::MissingReference);
                },
            };
            match repo.store.find(head) {
                Some(ObjectData::Commit(c)) => Ok(
                    ObjectId::new(slice_to_vec_u8(c.tree.bytes.as_slice())),
                ),
                _ => Err(VcsError::StoreFailure),
            }
        },
    }
}

/// The listing lines of the top level of a tree, unexpanded.
pub open spec fn toplevel_lines(entries: Seq<TreeEntryV>) -> Seq<Seq<u8>>
    decreases entries.len(),
{
    if entries.len() == 0 {
        Seq::empty()
    } else {
        seq![line_of(entries[0].mode, entries[0].id, entries[0].name, None)] + toplevel_lines(
            entries.skip(1),
        )
    }
}

pub proof fn lemma_toplevel_lines_concat(a: Seq<TreeEntryV>, b: Seq<TreeEntryV>)
    ensures
        toplevel_lines(a + b) == toplevel_lines(a) + toplevel_lines(b),
    decreases a.len(),
{
    if a.len() == 0 {
        assert(a + b =~= b);
        assert(toplevel_lines(a) + toplevel_lines(b) =~= toplevel_lines(b));
    } else {
        lemma_toplevel_lines_concat(a.skip(1), b);
        assert((a + b).skip(1) =~= a.skip(1) + b);
        assert((a + b)[0] == a[0]);
        let h = seq![line_of(a[0].mode, a[0].id, a[0].name, None)];
        assert(h + (toplevel_lines(a.skip(1)) + toplevel_lines(b)) =~= (h + toplevel_lines(
            a.skip(1),
        )) + toplevel_lines(b));
    }
}

/// List a tree: the formatted lines and, for a recursive listing, the
/// aggregate statistics over the whole traversal (sizes resolved only
/// in extended mode). A plain listing shows the stored top-level
/// entries in stored order and accumulates nothing.
pub fn entries(repo: &Repository, treeish: Option<Vec<u8>>, recursive: bool, extended: bool) -> (r:
    Result<(Vec<Vec<u8>>, Statistics), VcsError>)
    requires
        repo.well_formed(),
    ensures
        r is Err <==> ({
            let tid = spec_treeish_tree(
                repo.store@,
                repo.refs@.head_target,
                match treeish {
                    Some(t) => Some(t@),
                    None => None,
                },
            );
            ||| tid is None
            ||| !(store_find(repo.store@, tid->Some_0) matches Some(ObjectDataV::Tree(_)))
            ||| (recursive && (store_find(repo.store@, tid->Some_0) matches Some(
                ObjectDataV::Tree(es),
            ) && traverse_spec(
                repo.store@,
                es,
                Seq::empty(),
                stats_zero(),
                Seq::empty(),
                extended,
                repo.store@.len() as nat,
            ) is None))
        }),
        match r {
            Ok(out) => ({
                let tid = spec_treeish_tree(
                    repo.store@,
                    repo.refs@.head_target,
                    match treeish {
                        Some(t) => Some(t@),
                        None => None,
                    },
                );
                &&& tid is Some
                &&& (store_find(repo.store@, tid->Some_0) matches Some(ObjectDataV::Tree(es)) && (
                recursive ==> traverse_spec(
                    repo.store@,
                    es,
                    Seq::empty(),
                    stats_zero(),
                    Seq::empty(),
                    extended,
                    repo.store@.len() as nat,
                ) == Some((out.1, out.0.deep_view()))) && (!recursive ==> out.0.deep_view()
                    == toplevel_lines(es) && out.1 == stats_zero()))
            }),
            Err(e) => e == VcsError::AmbiguousRevision || e == VcsError::MissingReference || e
                == VcsError::StoreFailure,
        },
{
    let tree_id = match treeish_to_tree(treeish, repo) {
        Ok(id) => id,
        Err(e) => {
            return Err(e);
        },
    };
    let tree_entries = match repo.store.find(&tree_id) {
        Some(ObjectData::Tree(es)) => es,
        _ => {
            return Err(VcsError::StoreFailure);
        },
    };
    if recursive {
        let mut delegate = Traverse::new(extended);
        let fuel = repo.store.objects.len() as u64;
        proof {
            assert(repo.store@.len() == repo.store.objects@.len());
            assert(delegate.out.deep_view() =~= Seq::<Seq<u8>>::empty());
            assert(delegate.path@ =~= Seq::<u8>::empty());
        }
        match traverse_run(&repo.store, tree_entries, &mut delegate, fuel) {
            Ok(_) => Ok((delegate.out, delegate.stats)),
            Err(e) => Err(e),
        }
    } else {
        let ghost dv = tree_entries.deep_view();
        let mut lines: Vec<Vec<u8>> = Vec::new();
        let mut i: usize = 0;
        proof {
            assert(dv.take(0) =~= Seq::<TreeEntryV>::empty());
            assert(lines.deep_view() =~= Seq::<Seq<u8>>::empty());
        }
        while i < tree_entries.len()
            invariant
                i <= tree_entries@.len(),
                dv == tree_entries.deep_view(),
                dv.len() == tree_entries@.len(),
                forall|k: int| 0 <= k < dv.len() ==> dv[k] == tree_entries@[k]@,
                lines.deep_view() == toplevel_lines(dv.take(i as int)),
            decreases tree_entries@.len() - i,
        {
            let e = &tree_entries[i];
            let ghost lv0 = lines.deep_view();
            let line = format_entry(e.mode, &e.id, e.name.as_slice(), None);
            let ghost lvline = line@;
            lines.push(line);
            proof {
                assert(dv.take(i + 1) =~= dv.take(i as int) + seq![dv[i as int]]);
                lemma_toplevel_lines_concat(dv.take(i as int), seq![dv[i as int]]);
                assert(seq![dv[i as int]].skip(1) =~= Seq::<TreeEntryV>::empty());
                assert(toplevel_lines(Seq::<TreeEntryV>::empty()) =~= Seq::<Seq<u8>>::empty());
                assert(seq![dv[i as int]][0] == dv[i as int]);
                assert(toplevel_lines(seq![dv[i as int]]) =~= seq![lvline]);
                assert(lines.deep_view() =~~= lv0 + seq![lvline]);
            }
            i = i + 1;
        }
        proof {
            assert(dv.take(dv.len() as int) =~= dv);
        }
        Ok((lines, Statistics {
            num_trees: 0,
            num_links: 0,
            num_blobs: 0,
            num_blobs_exec: 0,
            num_submodules: 0,
            num_bytes: 0,
        }))
    }
}


/// Folding one kind's count over flattened entries, saturating.
pub open spec fn count_fold(acc: usize, fl: Seq<crate::index::IndexEntryV>, m: EntryMode) -> usize
    decreases fl.len(),
{
    if fl.len() == 0 {
        acc
    } else {
        count_fold(
            if fl[0].mode == m {
                sat_inc(acc)
            } else {
                acc
            },
            fl.skip(1),
            m,
        )
    }
}

/// Folding the resolved sizes of flattened entries into a byte total,
/// saturating.
pub open spec fn bytes_fold(
    store: Seq<StoredObjectV>,
    fl: Seq<crate::index::IndexEntryV>,
    acc: u64,
) -> u64
    decreases fl.len(),
{
    if fl.len() == 0 {
        acc
    } else {
        bytes_fold(
            store,
            fl.skip(1),
            match entry_size(store, fl[0].id) {
                Some(n) => sat_add64(
                    acc,
                    if n > u64::MAX {
                        u64::MAX as u64
                    } else {
                        n as u64
                    },
                ),
                None => acc,
            },
        )
    }
}

pub proof fn lemma_count_fold_concat(
    acc: usize,
    a: Seq<crate::index::IndexEntryV>,
    b: Seq<crate::index::IndexEntryV>,
    m: EntryMode,
)
    ensures
        count_fold(acc, a + b, m) == count_fold(count_fold(acc, a, m), b, m),
    decreases a.len(),
{
    if a.len() == 0 {
        assert(a + b =~= b);
    } else {
        assert((a + b)[0] == a[0]);
        assert((a + b).skip(1) =~= a.skip(1) + b);
        let acc1 = if a[0].mode == m {
            sat_inc(acc)
        } else {
            acc
        };
        lemma_count_fold_concat(acc1, a.skip(1), b, m);
    }
}

pub proof fn lemma_bytes_fold_concat(
    store: Seq<StoredObjectV>,
    acc: u64,
    a: Seq<crate::index::IndexEntryV>,
    b: Seq<crate::index::IndexEntryV>,
)
    ensures
        bytes_fold(store, a + b, acc) == bytes_fold(store, b, bytes_fold(store, a, acc)),
    decreases a.len(),
{
    if a.len() == 0 {
        assert(a + b =~= b);
    } else {
        assert((a + b)[0] == a[0]);
        assert((a + b).skip(1) =~= a.skip(1) + b);
        let acc1 = match entry_size(store, a[0].id) {
            Some(n) => sat_add64(
                acc,
                if n > u64::MAX {
                    u64::MAX as u64
                } else {
                    n as u64
                },
            ),
            None => acc,
        };
        lemma_bytes_fold_concat(store, acc1, a.skip(1), b);
    }
}


proof fn lemma_count_fold_one(acc: usize, e: crate::index::IndexEntryV, m: EntryMode)
    ensures
        count_fold(acc, seq![e], m) == (if e.mode == m {
            sat_inc(acc)
        } else {
            acc
        }),
{
    let acc1 = if e.mode == m {
        sat_inc(acc)
    } else {
        acc
    };
    assert(seq![e][0] == e);
    assert(seq![e].skip(1) =~= Seq::<crate::index::IndexEntryV>::empty());
    assert(count_fold(acc1, Seq::<crate::index::IndexEntryV>::empty(), m) == acc1);
}

proof fn lemma_bytes_fold_one(store: Seq<StoredObjectV>, acc: u64, e: crate::index::IndexEntryV)
    ensures
        bytes_fold(store, seq![e], acc) == (match entry_size(store, e.id) {
            Some(n) => sat_add64(
                acc,
                if n > u64::MAX {
                    u64::MAX as u64
                } else {
                    n as u64
                },
            ),
            None => acc,
        }),
{
    let acc1 = match entry_size(store, e.id) {
        Some(n) => sat_add64(
            acc,
            if n > u64::MAX {
                u64::MAX as u64
            } else {
                n as u64
            },
        ),
        None => acc,
    };
    assert(seq![e][0] == e);
    assert(seq![e].skip(1) =~= Seq::<crate::index::IndexEntryV>::empty());
    assert(bytes_fold(store, Seq::<crate::index::IndexEntryV>::empty(), acc1) == acc1);
}

/// The listing totals over the flattened tree: a recursive traversal
/// resolves exactly when flattening the same entries does, and its
/// statistics fold each kind's count, and in extended mode the
/// resolved sizes, over the flattened entries in traversal order.
pub proof fn lemma_traverse_stats(
    store: Seq<StoredObjectV>,
    entries: Seq<TreeEntryV>,
    tpath: Seq<u8>,
    fprefix: Seq<u8>,
    stats: Statistics,
    lines: Seq<Seq<u8>>,
    extended: bool,
    fuel: nat,
)
    ensures
        ({
            let t = traverse_spec(store, entries, tpath, stats, lines, extended, fuel);
            let f = crate::trees::flatten_tree_at(store, entries, fprefix, fuel);
            &&& (t is Some <==> f is Some)
            &&& (t matches Some(tr) ==> f matches Some(fl) ==> (tr.0.num_blobs == count_fold(
                stats.num_blobs,
                fl,
                EntryMode::Blob,
            ) && tr.0.num_blobs_exec == count_fold(
                stats.num_blobs_exec,
                fl,
                EntryMode::BlobExecutable,
            ) && tr.0.num_links == count_fold(stats.num_links, fl, EntryMode::Link)
                && tr.0.num_submodules == count_fold(stats.num_submodules, fl, EntryMode::Commit)
                && tr.0.num_bytes == (if extended {
                bytes_fold(store, fl, stats.num_bytes)
            } else {
                stats.num_bytes
            })))
        }),
    decreases fuel, entries.len(),
{
    if entries.len() == 0 {
        assert(crate::trees::flatten_tree_at(store, entries, fprefix, fuel) == Some(Seq::<
            crate::index::IndexEntryV,
        >::empty()));
    } else {
        let e = entries[0];
        if e.mode == EntryMode::Tree {
            if fuel == 0 {
            } else {
                match store_find(store, e.id) {
                    Some(ObjectDataV::Tree(sub)) => {
                        let epath_t = joined(tpath, e.name);
                        let epath_f = fprefix + e.name + "/".spec_bytes();
                        let stats1 = Statistics {
                            num_trees: sat_inc(stats.num_trees),
                            ..stats
                        };
                        let lines1 = lines.push(line_of(EntryMode::Tree, e.id, epath_t, None));
                        lemma_traverse_stats(
                            store,
                            sub,
                            epath_t,
                            epath_f,
                            stats1,
                            lines1,
                            extended,
                            (fuel - 1) as nat,
                        );
                        let tsub = traverse_spec(
                            store,
                            sub,
                            epath_t,
                            stats1,
                            lines1,
                            extended,
                            (fuel - 1) as nat,
                        );
                        let fsub = crate::trees::flatten_tree_at(
                            store,
                            sub,
                            epath_f,
                            (fuel - 1) as nat,
                        );
                        if tsub is Some {
                            let tr2 = tsub->Some_0;
                            let fl2 = fsub->Some_0;
                            lemma_traverse_stats(
                                store,
                                entries.skip(1),
                                tpath,
                                fprefix,
                                tr2.0,
                                tr2.1,
                                extended,
                                fuel,
                            );
                            let trest = traverse_spec(
                                store,
                                entries.skip(1),
                                tpath,
                                tr2.0,
                                tr2.1,
                                extended,
                                fuel,
                            );
                            let frest = crate::trees::flatten_tree_at(
                                store,
                                entries.skip(1),
                                fprefix,
                                fuel,
                            );
                            if trest is Some {
                                let fl3 = frest->Some_0;
                                lemma_count_fold_concat(
                                    stats.num_blobs,
                                    fl2,
                                    fl3,
                                    EntryMode::Blob,
                                );
                                lemma_count_fold_concat(
                                    stats.num_blobs_exec,
                                    fl2,
                                    fl3,
                                    EntryMode::BlobExecutable,
                                );
                                lemma_count_fold_concat(stats.num_links, fl2, fl3, EntryMode::Link);
                                lemma_count_fold_concat(
                                    stats.num_submodules,
                                    fl2,
                                    fl3,
                                    EntryMode::Commit,
                                );
                                lemma_bytes_fold_concat(store, stats.num_bytes, fl2, fl3);
                            }
                        }
                    },
                    _ => {},
                }
            }
        } else {
            let stats1 = visit_nontree_stats(stats, e, store, extended);
            let lines1 = lines.push(
                line_of(e.mode, e.id, joined(tpath, e.name), nontree_size(e, store, extended)),
            );
            lemma_traverse_stats(
                store,
                entries.skip(1),
                tpath,
                fprefix,
                stats1,
                lines1,
                extended,
                fuel,
            );
            let he = crate::index::IndexEntryV {
                path: fprefix + e.name,
                id: e.id,
                mode: e.mode,
                stat: crate::index::Stat { mtime_secs: 0, size: 0 },
                flags: 0,
            };
            let frest = crate::trees::flatten_tree_at(store, entries.skip(1), fprefix, fuel);
            if frest is Some {
                let fl3 = frest->Some_0;
                assert(crate::trees::flatten_tree_at(store, entries, fprefix, fuel) == Some(
                    seq![he] + fl3,
                ));
                lemma_count_fold_concat(stats.num_blobs, seq![he], fl3, EntryMode::Blob);
                lemma_count_fold_concat(
                    stats.num_blobs_exec,
                    seq![he],
                    fl3,
                    EntryMode::BlobExecutable,
                );
                lemma_count_fold_concat(stats.num_links, seq![he], fl3, EntryMode::Link);
                lemma_count_fold_concat(stats.num_submodules, seq![he], fl3, EntryMode::Commit);
                lemma_bytes_fold_concat(store, stats.num_bytes, seq![he], fl3);
                assert(seq![he].skip(1) =~= Seq::<crate::index::IndexEntryV>::empty());
                assert(seq![he][0] == he);
                lemma_count_fold_one(stats.num_blobs, he, EntryMode::Blob);
                lemma_count_fold_one(stats.num_blobs_exec, he, EntryMode::BlobExecutable);
                lemma_count_fold_one(stats.num_links, he, EntryMode::Link);
                lemma_count_fold_one(stats.num_submodules, he, EntryMode::Commit);
                lemma_bytes_fold_one(store, stats.num_bytes, he);
            }
        }
    }
}

} // verus!
