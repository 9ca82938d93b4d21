//! The staging index: an ordered sequence of entries, one per tracked
//! path, kept strictly ascending in the lexicographic path order.

use vstd::prelude::*;
use crate::bytes::{bytes_cmp, bytes_eq, bytes_lt, lemma_bytes_lt_asym, lemma_bytes_lt_trans};
use crate::objects::EntryMode;
use crate::oid::ObjectId;

verus! {

/// Cached filesystem metadata: a fast-path hint for status checks,
/// never authoritative.
#[derive(Clone, Copy, PartialEq, Eq, Structural, Debug)]
pub struct Stat {
    pub mtime_secs: u32,
    pub size: u32,
}

/// One tracked path.
#[derive(Clone, Debug)]
pub struct IndexEntry {
    pub path: Vec<u8>,
    pub id: ObjectId,
    pub mode: EntryMode,
    pub stat: Stat,
    pub flags: u16,
}

pub ghost struct IndexEntryV {
    pub path: Seq<u8>,
    pub id: Seq<u8>,
    pub mode: EntryMode,
    pub stat: Stat,
    pub flags: u16,
}

impl View for IndexEntry {
    type V = IndexEntryV;

    open spec fn view(&self) -> IndexEntryV {
        IndexEntryV {
            path: self.path@,
            id: self.id@,
            mode: self.mode,
            stat: self.stat,
            flags: self.flags,
        }
    }
}

impl DeepView for IndexEntry {
    type V = IndexEntryV;

    open spec fn deep_view(&self) -> IndexEntryV {
        self@
    }
}

impl IndexEntry {
    /// Whole-entry equality.
    pub fn entry_eq(&self, other: &IndexEntry) -> (r: bool)
        ensures
            r <==> self@ == other@,
    {
        let r = bytes_eq(self.path.as_slice(), other.path.as_slice()) && self.id.eq_id(&other.id)
            && self.mode == other.mode && self.stat == other.stat && self.flags == other.flags;
        proof {
            if r {
                assert(self@ == other@);
            } else {
                assert(self@ != other@);
            }
        }
        r
    }
}

/// Entries stand in strictly ascending path order: no duplicates.
pub open spec fn entries_ordered(s: Seq<IndexEntryV>) -> bool {
    forall|i: int, j: int|
        0 <= i < j < s.len() ==> bytes_lt(#[trigger] s[i].path, #[trigger] s[j].path)
}

/// Where an entry lands in an ordered sequence: replacing the entry
/// with its path if one exists, else inserted at its sort position.
pub open spec fn index_insert(s: Seq<IndexEntryV>, e: IndexEntryV) -> Seq<IndexEntryV>
    decreases s.len(),
{
    if s.len() == 0 {
        seq![e]
    } else if bytes_lt(e.path, s[0].path) {
        seq![e] + s
    } else if e.path == s[0].path {
        seq![e] + s.skip(1)
    } else {
        seq![s[0]] + index_insert(s.skip(1), e)
    }
}

/// The order is connected: distinct byte strings compare one way.
pub proof fn lemma_bytes_lt_connected(a: Seq<u8>, b: Seq<u8>)
    requires
        a != b,
    ensures
        bytes_lt(a, b) || bytes_lt(b, a),
    decreases a.len(),
{
    if a.len() == 0 {
        assert(b.len() > 0) by {
            if b.len() == 0 {
                assert(a =~= b);
            }
        }
        assert(bytes_lt(a, b));
    } else if b.len() == 0 {
        assert(bytes_lt(b, a));
    } else if a[0] != b[0] {
        assert(a[0] < b[0] ==> bytes_lt(a, b));
        assert(b[0] < a[0] ==> bytes_lt(b, a));
    } else {
        if a.skip(1) == b.skip(1) {
            assert(a.skip(1).len() == b.skip(1).len());
            assert(a.len() == b.len());
            assert(a =~= b) by {
                assert forall|i: int| 0 <= i < a.len() implies a[i] == b[i] by {
                    if i >= 1 {
                        assert(a.skip(1)[i - 1] == a[i]);
                        assert(b.skip(1)[i - 1] == b[i]);
                    }
                }
            }
        } else {
            lemma_bytes_lt_connected(a.skip(1), b.skip(1));
        }
    }
}

/// In an ordered sequence whose first `p` paths are below `e.path` and
/// whose entry at `p` (if any) is not below it, `index_insert` either
/// replaces position `p` or inserts there.
pub proof fn lemma_index_insert_at(s: Seq<IndexEntryV>, e: IndexEntryV, p: int)
    requires
        entries_ordered(s),
        0 <= p <= s.len(),
        forall|j: int| 0 <= j < p ==> bytes_lt(#[trigger] s[j].path, e.path),
        p < s.len() ==> !bytes_lt(s[p].path, e.path),
    ensures
        p < s.len() && s[p].path == e.path ==> index_insert(s, e) == s.update(p, e),
        !(p < s.len() && s[p].path == e.path) ==> index_insert(s, e) == s.take(p) + seq![e]
            + s.skip(p),
    decreases p,
{
    if s.len() == 0 {
        assert(index_insert(s, e) == seq![e]);
        assert(s.take(0) + seq![e] + s.skip(0) =~= seq![e]);
    } else if p == 0 {
        if s[0].path == e.path {
            assert(index_insert(s, e) == seq![e] + s.skip(1));
            assert(seq![e] + s.skip(1) =~= s.update(0, e));
        } else {
            lemma_bytes_lt_connected(e.path, s[0].path);
            assert(bytes_lt(e.path, s[0].path));
            assert(index_insert(s, e) == seq![e] + s);
            assert(s.take(0) + seq![e] + s.skip(0) =~= seq![e] + s);
        }
    } else {
        assert(bytes_lt(s[0].path, e.path));
        if bytes_lt(e.path, s[0].path) {
            lemma_bytes_lt_asym(s[0].path, e.path);
        }
        if e.path == s[0].path {
            lemma_bytes_lt_asym(s[0].path, e.path);
        }
        assert(index_insert(s, e) == seq![s[0]] + index_insert(s.skip(1), e));
        let s1 = s.skip(1);
        assert(entries_ordered(s1)) by {
            assert(forall|i: int, j: int|
                0 <= i < j < s1.len() ==> s1[i] == s[i + 1] && s1[j] == s[j + 1]);
        }
        assert(forall|j: int| 0 <= j < p - 1 ==> bytes_lt(#[trigger] s1[j].path, e.path)) by {
            assert(forall|j: int| 0 <= j < p - 1 ==> s1[j] == s[j + 1]);
        }
        assert(p - 1 < s1.len() ==> !bytes_lt(s1[p - 1].path, e.path)) by {
            assert(p - 1 < s1.len() ==> s1[p - 1] == s[p as int]);
        }
        lemma_index_insert_at(s1, e, p - 1);
        if p < s.len() && s[p].path == e.path {
            assert(s1[p - 1] == s[p as int]);
            assert(index_insert(s1, e) == s1.update(p - 1, e));
            assert(seq![s[0]] + s1.update(p - 1, e) =~= s.update(p, e));
        } else {
            assert(index_insert(s1, e) == s1.take(p - 1) + seq![e] + s1.skip(p - 1));
            assert(seq![s[0]] + (s1.take(p - 1) + seq![e] + s1.skip(p - 1)) =~= s.take(p)
                + seq![e] + s.skip(p));
        }
    }
}

/// Replacing or inserting preserves strict path order (the index
/// ordering invariant).
pub proof fn lemma_index_insert_ordered(s: Seq<IndexEntryV>, e: IndexEntryV, p: int)
    requires
        entries_ordered(s),
        0 <= p <= s.len(),
        forall|j: int| 0 <= j < p ==> bytes_lt(#[trigger] s[j].path, e.path),
        p < s.len() ==> !bytes_lt(s[p].path, e.path),
    ensures
        entries_ordered(index_insert(s, e)),
{
    lemma_index_insert_at(s, e, p);
    if p < s.len() && s[p].path == e.path {
        let r = s.update(p, e);
        assert forall|i: int, j: int| 0 <= i < j < r.len() implies bytes_lt(
            #[trigger] r[i].path,
            #[trigger] r[j].path,
        ) by {
            assert(s[i].path == r[i].path || i == p);
            assert(s[j].path == r[j].path || j == p);
            assert(bytes_lt(s[i].path, s[j].path));
        }
    } else {
        let r = s.take(p) + seq![e] + s.skip(p);
        assert(p < s.len() ==> e.path != s[p].path);
        if p < s.len() {
            lemma_bytes_lt_connected(e.path, s[p].path);
        }
        assert(p < s.len() ==> bytes_lt(e.path, s[p].path));
        assert forall|i: int, j: int| 0 <= i < j < r.len() implies bytes_lt(
            #[trigger] r[i].path,
            #[trigger] r[j].path,
        ) by {
            assert(forall|k: int| 0 <= k < p ==> r[k] == s[k]);
            assert(r[p] == e);
            assert(forall|k: int| p < k < r.len() ==> r[k] == s[k - 1]);
            if i < p && j == p {
            } else if i == p && j > p {
                assert(bytes_lt(e.path, s[p as int].path));
                if j - 1 > p {
                    lemma_bytes_lt_trans(e.path, s[p as int].path, s[j - 1].path);
                }
            } else if i < p && j > p {
                assert(bytes_lt(s[i].path, s[j - 1].path));
            } else if i > p && j > p {
                assert(bytes_lt(s[i - 1].path, s[j - 1].path));
            }
        }
    }
}

/// The first entry bearing the path, if any; in an ordered index it is
/// the only one.
pub open spec fn entry_find(s: Seq<IndexEntryV>, path: Seq<u8>) -> Option<IndexEntryV>
    decreases s.len(),
{
    if s.len() == 0 {
        None
    } else if s[0].path == path {
        Some(s[0])
    } else {
        entry_find(s.skip(1), path)
    }
}

/// In an ordered index, the entry at any position holding the path is
/// what the lookup finds.
pub proof fn lemma_entry_find(s: Seq<IndexEntryV>, path: Seq<u8>, p: int)
    requires
        entries_ordered(s),
        0 <= p < s.len(),
        s[p].path == path,
    ensures
        entry_find(s, path) == Some(s[p]),
    decreases p,
{
    if p == 0 {
    } else {
        assert(bytes_lt(s[0].path, s[p].path));
        lemma_bytes_lt_asym(s[0].path, s[p].path);
        assert(entries_ordered(s.skip(1))) by {
            assert(forall|i: int, j: int|
                0 <= i < j < s.skip(1).len() ==> s.skip(1)[i] == s[i + 1] && s.skip(1)[j] == s[j
                    + 1]);
        }
        assert(s.skip(1)[p - 1] == s[p]);
        lemma_entry_find(s.skip(1), path, p - 1);
    }
}

/// The staging index: its entry sequence, and whether it differs from
/// its persisted form.
pub struct Index {
    pub entries: Vec<IndexEntry>,
    pub changed: bool,
}

impl View for Index {
    type V = Seq<IndexEntryV>;

    open spec fn view(&self) -> Seq<IndexEntryV> {
        self.entries.deep_view()
    }
}

impl Index {
    /// The ordering invariant of the index.
    pub open spec fn well_formed(&self) -> bool {
        entries_ordered(self@)
    }

    /// An empty index, as synthesized when none is persisted.
    pub fn empty() -> (r: Index)
        ensures
            r@.len() == 0,
            r.well_formed(),
            !r.changed,
    {
        let r = Index { entries: Vec::new(), changed: false };
        proof {
            assert(r@ =~= Seq::<IndexEntryV>::empty());
        }
        r
    }

    pub fn len(&self) -> (r: usize)
        ensures
            r == self@.len(),
    {
        self.entries.len()
    }

    /// Find the position of `path` by binary search: the count of
    /// entries whose path is below it, which is its own position when
    /// present.
    pub fn lookup(&self, path: &[u8]) -> (r: usize)
        requires
            self.well_formed(),
        ensures
            r <= self@.len(),
            forall|j: int| 0 <= j < r ==> bytes_lt(#[trigger] self@[j].path, path@),
            r < self@.len() ==> !bytes_lt(self@[r as int].path, path@),
    {
        let mut lo: usize = 0;
        let mut hi: usize = self.entries.len();
        while lo < hi
            invariant
                lo <= hi <= self@.len(),
                self.well_formed(),
                self@.len() == self.entries@.len(),
                forall|j: int| 0 <= j < self@.len() ==> self@[j] == self.entries@[j]@,
                forall|j: int| 0 <= j < lo ==> bytes_lt(#[trigger] self@[j].path, path@),
                hi < self@.len() ==> !bytes_lt(self@[hi as int].path, path@),
            decreases hi - lo,
        {
            let mid = lo + (hi - lo) / 2;
            let c = bytes_cmp(self.entries[mid].path.as_slice(), path);
            if c < 0 {
                proof {
                    assert(bytes_lt(self@[mid as int].path, path@));
                    assert forall|j: int| 0 <= j < mid + 1 implies bytes_lt(
                        #[trigger] self@[j].path,
                        path@,
                    ) by {
                        if j < mid {
                            lemma_bytes_lt_trans(
                                self@[j].path,
                                self@[mid as int].path,
                                path@,
                            );
                        }
                    }
                }
                lo = mid + 1;
            } else {
                hi = mid;
            }
        }
        lo
    }

    /// Whether the index holds an entry for `path`, and where.
    pub fn find_entry(&self, path: &[u8]) -> (r: Option<usize>)
        requires
            self.well_formed(),
        ensures
            match r {
                Some(p) => p < self@.len() && self@[p as int].path == path@,
                None => forall|j: int| 0 <= j < self@.len() ==> self@[j].path != path@,
            },
    {
        let p = self.lookup(path);
        if p < self.entries.len() && bytes_eq(self.entries[p].path.as_slice(), path) {
            Some(p)
        } else {
            proof {
                assert forall|j: int| 0 <= j < self@.len() implies self@[j].path != path@ by {
                    if j < p {
                        lemma_bytes_lt_asym(self@[j].path, path@);
                    } else if j >= p && (p as int) < self@.len() {
                        if self@[j].path == path@ {
                            if j > p {
                                assert(bytes_lt(self@[p as int].path, self@[j].path));
                            }
                        }
                    }
                }
            }
            None
        }
    }

    /// Insert the entry at its sort position, or replace the entry
    /// that holds its path; the order invariant is re-established
    /// either way, and the index is marked changed only when the
    /// stored sequence actually changed.
    pub fn insert_or_replace(&mut self, e: IndexEntry) -> (r: bool)
        requires
            old(self).well_formed(),
        ensures
            final(self)@ == index_insert(old(self)@, e@),
            final(self).well_formed(),
            r <==> final(self)@ != old(self)@,
            final(self).changed == (old(self).changed || r),
    {
        let ghost s = self@;
        let p = self.lookup(e.path.as_slice());
        proof {
            lemma_index_insert_at(s, e@, p as int);
            lemma_index_insert_ordered(s, e@, p as int);
        }
        if p < self.entries.len() && bytes_eq(self.entries[p].path.as_slice(), e.path.as_slice()) {
            if self.entries[p].entry_eq(&e) {
                proof {
                    assert(index_insert(s, e@) =~= s.update(p as int, e@));
                    assert(s.update(p as int, e@) =~= s);
                }
                false
            } else {
                let ghost old_entry = self.entries@[p as int]@;
                self.entries.set(p, e);
                self.changed = true;
                proof {
                    assert(self@ =~= s.update(p as int, e@));
                    assert(self@[p as int] != s[p as int]);
                    assert(self@ != s);
                }
                true
            }
        } else {
            proof {
                if (p as int) < s.len() {
                    assert(s[p as int].path != e@.path);
                }
                assert(index_insert(s, e@) == s.take(p as int) + seq![e@] + s.skip(p as int));
            }
            self.entries.insert(p, e);
            self.changed = true;
            proof {
                assert(self@ =~= s.take(p as int) + seq![e@] + s.skip(p as int));
                assert(self@.len() != s.len());
                assert(self@ != s);
            }
            true
        }
    }

    /// Persist the working set of mutations: a write happens only when
    /// at least one entry changed, and clears the changed mark.
    pub fn write(&mut self) -> (r: bool)
        ensures
            final(self)@ == old(self)@,
            !final(self).changed,
            r == old(self).changed,
    {
        let was = self.changed;
        self.changed = false;
        was
    }
}


/// Folding a run of entries into an index, in order.
pub open spec fn index_fold(acc: Seq<IndexEntryV>, s: Seq<IndexEntryV>) -> Seq<IndexEntryV>
    decreases s.len(),
{
    if s.len() == 0 {
        acc
    } else {
        index_fold(index_insert(acc, s[0]), s.skip(1))
    }
}

pub proof fn lemma_index_fold_snoc(acc: Seq<IndexEntryV>, s: Seq<IndexEntryV>, e: IndexEntryV)
    ensures
        index_fold(acc, s + seq![e]) == index_insert(index_fold(acc, s), e),
    decreases s.len(),
{
    if s.len() == 0 {
        assert(s + seq![e] =~= seq![e]);
        assert(seq![e].skip(1) =~= Seq::<IndexEntryV>::empty());
        assert(seq![e][0] == e);
        assert(index_fold(index_insert(acc, e), Seq::<IndexEntryV>::empty()) == index_insert(
            acc,
            e,
        ));
    } else {
        assert((s + seq![e])[0] == s[0]);
        assert((s + seq![e]).skip(1) =~= s.skip(1) + seq![e]);
        lemma_index_fold_snoc(index_insert(acc, s[0]), s.skip(1), e);
    }
}

impl Index {
    /// Build an index from a run of entries by inserting each in turn:
    /// the ordering invariant holds by construction whatever the input
    /// order.
    pub fn from_entries(entries: &Vec<IndexEntry>) -> (r: Index)
        ensures
            r@ == index_fold(Seq::empty(), entries.deep_view()),
            r.well_formed(),
            r.changed,
    {
        let ghost dv = entries.deep_view();
        let mut idx = Index::empty();
        let mut i: usize = 0;
        proof {
            assert(dv.take(0) =~= Seq::<IndexEntryV>::empty());
            assert(idx@ =~= Seq::<IndexEntryV>::empty());
        }
        while i < entries.len()
            invariant
                i <= entries@.len(),
                dv == entries.deep_view(),
                dv.len() == entries@.len(),
                forall|k: int| 0 <= k < dv.len() ==> dv[k] == entries@[k]@,
                idx@ == index_fold(Seq::empty(), dv.take(i as int)),
                idx.well_formed(),
            decreases entries@.len() - i,
        {
            let e = &entries[i];
            let copy = IndexEntry {
                path: crate::objects::slice_to_vec_u8(e.path.as_slice()),
                id: crate::oid::ObjectId::new(
                    crate::objects::slice_to_vec_u8(e.id.bytes.as_slice()),
                ),
                mode: e.mode,
                stat: e.stat,
                flags: e.flags,
            };
            proof {
                assert(copy@ == dv[i as int]);
                lemma_index_fold_snoc(Seq::empty(), dv.take(i as int), dv[i as int]);
                assert(dv.take(i + 1) =~= dv.take(i as int) + seq![dv[i as int]]);
            }
            idx.insert_or_replace(copy);
            i = i + 1;
        }
        proof {
            assert(dv.take(dv.len() as int) =~= dv);
        }
        idx.changed = true;
        idx
    }
}

/// Inserting entries that already stand in strictly ascending order,
/// onto an index whose entries all come before them, only appends: the
/// fold reproduces the run itself.
pub proof fn lemma_index_fold_ordered(acc: Seq<IndexEntryV>, s: Seq<IndexEntryV>)
    requires
        entries_ordered(acc + s),
    ensures
        index_fold(acc, s) == acc + s,
    decreases s.len(),
{
    if s.len() == 0 {
        assert(acc + s =~= acc);
    } else {
        let e = s[0];
        assert(forall|j: int| 0 <= j < acc.len() ==> (acc + s)[j] == acc[j]);
        assert((acc + s)[acc.len() as int] == e);
        assert(forall|j: int|
            0 <= j < acc.len() ==> bytes_lt((#[trigger] acc[j]).path, e.path)) by {
            assert(forall|j: int|
                0 <= j < acc.len() ==> bytes_lt(
                    (acc + s)[j].path,
                    (acc + s)[acc.len() as int].path,
                ));
        }
        lemma_index_insert_at(acc, e, acc.len() as int);
        assert(index_insert(acc, e) == acc.take(acc.len() as int) + seq![e] + acc.skip(
            acc.len() as int,
        ));
        assert(index_insert(acc, e) =~= acc + seq![e]);
        assert((acc + seq![e]) + s.skip(1) =~= acc + s);
        lemma_index_fold_ordered(acc + seq![e], s.skip(1));
    }
}


/// Inserting the same entry a second time changes nothing: the first
/// insertion placed or replaced it, and the second finds it equal in
/// place.
pub proof fn lemma_index_insert_idempotent(s: Seq<IndexEntryV>, e: IndexEntryV)
    ensures
        index_insert(index_insert(s, e), e) == index_insert(s, e),
    decreases s.len(),
{
    if s.len() == 0 {
        let r = index_insert(s, e);
        assert(r == seq![e]);
        assert(r[0] == e);
        if bytes_lt(e.path, e.path) {
            lemma_bytes_lt_asym(e.path, e.path);
        }
        assert(index_insert(r, e) == seq![e] + r.skip(1));
        assert(seq![e] + r.skip(1) =~= r);
    } else if bytes_lt(e.path, s[0].path) {
        let r = seq![e] + s;
        assert(index_insert(s, e) == r);
        assert(r[0] == e);
        if bytes_lt(e.path, e.path) {
            lemma_bytes_lt_asym(e.path, e.path);
        }
        assert(index_insert(r, e) == seq![e] + r.skip(1));
        assert(seq![e] + r.skip(1) =~= r);
    } else if e.path == s[0].path {
        let r = seq![e] + s.skip(1);
        assert(index_insert(s, e) == r);
        assert(r[0] == e);
        if bytes_lt(e.path, e.path) {
            lemma_bytes_lt_asym(e.path, e.path);
        }
        assert(index_insert(r, e) == seq![e] + r.skip(1));
        assert(r.skip(1) =~= s.skip(1));
        assert(seq![e] + r.skip(1) =~= r);
    } else {
        lemma_index_insert_idempotent(s.skip(1), e);
        let r = seq![s[0]] + index_insert(s.skip(1), e);
        assert(index_insert(s, e) == r);
        assert(r[0] == s[0]);
        assert(index_insert(r, e) == seq![r[0]] + index_insert(r.skip(1), e));
        assert(r.skip(1) =~= index_insert(s.skip(1), e));
        assert(seq![r[0]] + index_insert(r.skip(1), e) =~= r);
    }
}


/// Rebuilding an index from entries that already stand in strictly
/// ascending path order reproduces exactly those entries: what a reset
/// to a tree leaves in the index.
pub proof fn lemma_index_rebuilt_exact(s: Seq<IndexEntryV>)
    requires
        entries_ordered(s),
    ensures
        index_fold(Seq::empty(), s) == s,
{
    assert(Seq::<IndexEntryV>::empty() + s =~= s);
    lemma_index_fold_ordered(Seq::empty(), s);
}

} // verus!
