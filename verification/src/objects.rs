//! The object model: blobs, trees, commits and tags, their canonical
//! body serialization, and the content-addressed object store.

use vstd::prelude::*;
use vstd::string::StrSliceExecFns;
use vstd::string::StringSliceAdditionalSpecFns;
use crate::bytes::{bytes_eq, dec_of, hex_of, to_hex, u64_to_dec};
use crate::errors::VcsError;
use crate::hashing::{hash_object, object_digest, ObjectKind};
use crate::oid::ObjectId;

verus! {

/// The mode of one tree or index entry.
#[derive(Clone, Copy, PartialEq, Eq, Structural, Debug)]
pub enum EntryMode {
    /// A subtree.
    Tree,
    /// A regular file.
    Blob,
    /// An executable file.
    BlobExecutable,
    /// A symbolic link.
    Link,
    /// A submodule commit.
    Commit,
}

/// One named entry of a tree object.
#[derive(Clone, Debug)]
pub struct TreeEntry {
    pub mode: EntryMode,
    pub name: Vec<u8>,
    pub id: ObjectId,
}

pub ghost struct TreeEntryV {
    pub mode: EntryMode,
    pub name: Seq<u8>,
    pub id: Seq<u8>,
}

impl View for TreeEntry {
    type V = TreeEntryV;

    open spec fn view(&self) -> TreeEntryV {
        TreeEntryV { mode: self.mode, name: self.name@, id: self.id@ }
    }
}

impl DeepView for TreeEntry {
    type V = TreeEntryV;

    open spec fn deep_view(&self) -> TreeEntryV {
        self@
    }
}

/// Authorship: a name, an address, and seconds since the epoch.
#[derive(Clone, Debug)]
pub struct Signature {
    pub name: Vec<u8>,
    pub email: Vec<u8>,
    pub time: u64,
}

pub ghost struct SignatureV {
    pub name: Seq<u8>,
    pub email: Seq<u8>,
    pub time: u64,
}

impl View for Signature {
    type V = SignatureV;

    open spec fn view(&self) -> SignatureV {
        SignatureV { name: self.name@, email: self.email@, time: self.time }
    }
}

impl DeepView for Signature {
    type V = SignatureV;

    open spec fn deep_view(&self) -> SignatureV {
        self@
    }
}

/// A commit: one tree, any number of parents, authorship, a message.
#[derive(Clone, Debug)]
pub struct CommitData {
    pub tree: ObjectId,
    pub parents: Vec<ObjectId>,
    pub author: Signature,
    pub message: Vec<u8>,
}

pub ghost struct CommitV {
    pub tree: Seq<u8>,
    pub parents: Seq<Seq<u8>>,
    pub author: SignatureV,
    pub message: Seq<u8>,
}

impl View for CommitData {
    type V = CommitV;

    open spec fn view(&self) -> CommitV {
        CommitV {
            tree: self.tree@,
            parents: self.parents.deep_view(),
            author: self.author@,
            message: self.message@,
        }
    }
}

impl DeepView for CommitData {
    type V = CommitV;

    open spec fn deep_view(&self) -> CommitV {
        self@
    }
}

/// An annotated tag.
#[derive(Clone, Debug)]
pub struct TagData {
    pub target: ObjectId,
    pub target_kind: ObjectKind,
    pub name: Vec<u8>,
    pub tagger: Option<Signature>,
    pub message: Vec<u8>,
}

pub ghost struct TagV {
    pub target: Seq<u8>,
    pub target_kind: ObjectKind,
    pub name: Seq<u8>,
    pub tagger: Option<SignatureV>,
    pub message: Seq<u8>,
}

impl View for TagData {
    type V = TagV;

    open spec fn view(&self) -> TagV {
        TagV {
            target: self.target@,
            target_kind: self.target_kind,
            name: self.name@,
            tagger: match self.tagger {
                Some(s) => Some(s@),
                None => None,
            },
            message: self.message@,
        }
    }
}

impl DeepView for TagData {
    type V = TagV;

    open spec fn deep_view(&self) -> TagV {
        self@
    }
}

/// The payload of one stored object.
#[derive(Clone, Debug)]
pub enum ObjectData {
    Blob(Vec<u8>),
    Tree(Vec<TreeEntry>),
    Commit(CommitData),
    Tag(TagData),
}

pub ghost enum ObjectDataV {
    Blob(Seq<u8>),
    Tree(Seq<TreeEntryV>),
    Commit(CommitV),
    Tag(TagV),
}

impl View for ObjectData {
    type V = ObjectDataV;

    open spec fn view(&self) -> ObjectDataV {
        match self {
            ObjectData::Blob(b) => ObjectDataV::Blob(b@),
            ObjectData::Tree(es) => ObjectDataV::Tree(es.deep_view()),
            ObjectData::Commit(c) => ObjectDataV::Commit(c@),
            ObjectData::Tag(t) => ObjectDataV::Tag(t@),
        }
    }
}

impl DeepView for ObjectData {
    type V = ObjectDataV;

    open spec fn deep_view(&self) -> ObjectDataV {
        self@
    }
}

/// The kind of a stored object.
pub open spec fn obj_kind_of(o: ObjectDataV) -> ObjectKind {
    match o {
        ObjectDataV::Blob(_) => ObjectKind::Blob,
        ObjectDataV::Tree(_) => ObjectKind::Tree,
        ObjectDataV::Commit(_) => ObjectKind::Commit,
        ObjectDataV::Tag(_) => ObjectKind::Tag,
    }
}

/// The mode field of a tree entry, as serialized in a tree body.
pub open spec fn mode_bytes(m: EntryMode) -> Seq<u8> {
    match m {
        EntryMode::Tree => "40000".spec_bytes(),
        EntryMode::Blob => "100644".spec_bytes(),
        EntryMode::BlobExecutable => "100755".spec_bytes(),
        EntryMode::Link => "120000".spec_bytes(),
        EntryMode::Commit => "160000".spec_bytes(),
    }
}

/// The canonical body of a tree object: for each entry its mode, a
/// space, its name, a NUL, and its raw id bytes.
pub open spec fn tree_body_of(entries: Seq<TreeEntryV>) -> Seq<u8>
    decreases entries.len(),
{
    if entries.len() == 0 {
        Seq::empty()
    } else {
        mode_bytes(entries[0].mode) + " ".spec_bytes() + entries[0].name + "\u{0}".spec_bytes()
            + entries[0].id + tree_body_of(entries.skip(1))
    }
}

pub proof fn lemma_tree_body_concat(a: Seq<TreeEntryV>, b: Seq<TreeEntryV>)
    ensures
        tree_body_of(a + b) == tree_body_of(a) + tree_body_of(b),
    decreases a.len(),
{
    if a.len() == 0 {
        assert(a + b =~= b);
        assert(tree_body_of(a) + tree_body_of(b) =~= tree_body_of(b));
    } else {
        lemma_tree_body_concat(a.skip(1), b);
        assert((a + b).skip(1) =~= a.skip(1) + b);
        assert((a + b)[0] == a[0]);
        assert(mode_bytes(a[0].mode) + " ".spec_bytes() + a[0].name + "\u{0}".spec_bytes()
            + a[0].id + (tree_body_of(a.skip(1)) + tree_body_of(b)) =~= (mode_bytes(a[0].mode)
            + " ".spec_bytes() + a[0].name + "\u{0}".spec_bytes() + a[0].id + tree_body_of(
            a.skip(1),
        )) + tree_body_of(b));
    }
}

/// An authorship line body: `name <email> time +0000`.
pub open spec fn sig_bytes(s: SignatureV) -> Seq<u8> {
    s.name + " <".spec_bytes() + s.email + "> ".spec_bytes() + dec_of(s.time as nat)
        + " +0000".spec_bytes()
}

/// The `parent` lines of a commit body, one per parent id.
pub open spec fn parent_lines_of(parents: Seq<Seq<u8>>) -> Seq<u8>
    decreases parents.len(),
{
    if parents.len() == 0 {
        Seq::empty()
    } else {
        "parent ".spec_bytes() + hex_of(parents[0]) + "\n".spec_bytes() + parent_lines_of(
            parents.skip(1),
        )
    }
}

pub proof fn lemma_parent_lines_concat(a: Seq<Seq<u8>>, b: Seq<Seq<u8>>)
    ensures
        parent_lines_of(a + b) == parent_lines_of(a) + parent_lines_of(b),
    decreases a.len(),
{
    if a.len() == 0 {
        assert(a + b =~= b);
        assert(parent_lines_of(a) + parent_lines_of(b) =~= parent_lines_of(b));
    } else {
        lemma_parent_lines_concat(a.skip(1), b);
        assert((a + b).skip(1) =~= a.skip(1) + b);
        assert((a + b)[0] == a[0]);
        assert("parent ".spec_bytes() + hex_of(a[0]) + "\n".spec_bytes() + (parent_lines_of(
            a.skip(1),
        ) + parent_lines_of(b)) =~= ("parent ".spec_bytes() + hex_of(a[0]) + "\n".spec_bytes()
            + parent_lines_of(a.skip(1))) + parent_lines_of(b));
    }
}

/// The canonical body of a commit object.
pub open spec fn commit_body_of(c: CommitV) -> Seq<u8> {
    "tree ".spec_bytes() + hex_of(c.tree) + "\n".spec_bytes() + parent_lines_of(c.parents)
        + "author ".spec_bytes() + sig_bytes(c.author) + "\n".spec_bytes()
        + "committer ".spec_bytes() + sig_bytes(c.author) + "\n\n".spec_bytes() + c.message
}

/// The serialized name of an object kind.
pub open spec fn kind_name_bytes(k: ObjectKind) -> Seq<u8> {
    match k {
        ObjectKind::Blob => "blob".spec_bytes(),
        ObjectKind::Tree => "tree".spec_bytes(),
        ObjectKind::Commit => "commit".spec_bytes(),
        ObjectKind::Tag => "tag".spec_bytes(),
    }
}

/// The canonical body of an annotated tag object.
pub open spec fn tag_body_of(t: TagV) -> Seq<u8> {
    "object ".spec_bytes() + hex_of(t.target) + "\n".spec_bytes() + "type ".spec_bytes()
        + kind_name_bytes(t.target_kind) + "\n".spec_bytes() + "tag ".spec_bytes() + t.name
        + "\n".spec_bytes() + (match t.tagger {
        Some(s) => "tagger ".spec_bytes() + sig_bytes(s) + "\n".spec_bytes(),
        None => Seq::empty(),
    }) + "\n".spec_bytes() + t.message
}

/// The canonical body bytes of any object; what the digest is taken
/// over.
pub open spec fn obj_body_of(o: ObjectDataV) -> Seq<u8> {
    match o {
        ObjectDataV::Blob(b) => b,
        ObjectDataV::Tree(es) => tree_body_of(es),
        ObjectDataV::Commit(c) => commit_body_of(c),
        ObjectDataV::Tag(t) => tag_body_of(t),
    }
}

/// The digest an object receives in the store.
pub open spec fn obj_id_of(o: ObjectDataV) -> Seq<u8> {
    object_digest(obj_kind_of(o), obj_body_of(o))
}

/// Append `s` to `out`.
pub fn push_bytes(out: &mut Vec<u8>, s: &[u8])
    ensures
        final(out)@ == old(out)@ + s@,
{
    let mut i: usize = 0;
    while i < s.len()
        invariant
            i <= s@.len(),
            out@ == old(out)@ + s@.take(i as int),
        decreases s@.len() - i,
    {
        proof {
            assert(old(out)@ + s@.take(i + 1) =~= (old(out)@ + s@.take(i as int)).push(
                s@[i as int],
            ));
        }
        out.push(s[i]);
        i = i + 1;
    }
    proof {
        assert(old(out)@ + s@.take(s@.len() as int) =~= old(out)@ + s@);
    }
}

/// Append a string literal's bytes to `out`.
pub fn push_str_bytes(out: &mut Vec<u8>, s: &str)
    ensures
        final(out)@ == old(out)@ + s.spec_bytes(),
{
    let piece = s.as_bytes_vec();
    push_bytes(out, piece.as_slice());
}

/// The serialized mode of a tree entry.
pub fn mode_to_bytes(m: EntryMode) -> (r: Vec<u8>)
    ensures
        r@ == mode_bytes(m),
{
    let mut out: Vec<u8> = Vec::new();
    match m {
        EntryMode::Tree => push_str_bytes(&mut out, "40000"),
        EntryMode::Blob => push_str_bytes(&mut out, "100644"),
        EntryMode::BlobExecutable => push_str_bytes(&mut out, "100755"),
        EntryMode::Link => push_str_bytes(&mut out, "120000"),
        EntryMode::Commit => push_str_bytes(&mut out, "160000"),
    }
    proof {
        assert(Seq::<u8>::empty() + mode_bytes(m) =~= mode_bytes(m));
    }
    out
}

/// Serialize a tree body from its entries, in stored order.
pub fn serialize_tree(entries: &Vec<TreeEntry>) -> (r: Vec<u8>)
    ensures
        r@ == tree_body_of(entries.deep_view()),
{
    let ghost evs = entries.deep_view();
    let mut out: Vec<u8> = Vec::new();
    let mut i: usize = 0;
    while i < entries.len()
        invariant
            i <= entries@.len(),
            evs == entries.deep_view(),
            evs.len() == entries@.len(),
            forall|j: int| 0 <= j < evs.len() ==> evs[j] == entries@[j]@,
            out@ == tree_body_of(evs.take(i as int)),
        decreases entries@.len() - i,
    {
        let e = &entries[i];
        let mode = mode_to_bytes(e.mode);
        push_bytes(&mut out, mode.as_slice());
        push_str_bytes(&mut out, " ");
        push_bytes(&mut out, e.name.as_slice());
        push_str_bytes(&mut out, "\u{0}");
        push_bytes(&mut out, e.id.bytes.as_slice());
        proof {
            let t = evs.take(i as int);
            lemma_tree_body_concat(t, seq![evs[i as int]]);
            assert(seq![evs[i as int]].skip(1) =~= Seq::<TreeEntryV>::empty());
            assert(tree_body_of(Seq::<TreeEntryV>::empty()) =~= Seq::<u8>::empty());
            assert(tree_body_of(seq![evs[i as int]]) =~= mode_bytes(evs[i as int].mode)
                + " ".spec_bytes() + evs[i as int].name + "\u{0}".spec_bytes() + evs[i as int].id);
            assert(evs.take(i + 1) =~= t + seq![evs[i as int]]);
            assert(out@ =~= tree_body_of(evs.take(i + 1)));
        }
        i = i + 1;
    }
    proof {
        assert(evs.take(evs.len() as int) =~= evs);
    }
    out
}

/// Serialize an authorship line body.
pub fn serialize_sig(out: &mut Vec<u8>, s: &Signature)
    ensures
        final(out)@ == old(out)@ + sig_bytes(s@),
{
    push_bytes(out, s.name.as_slice());
    push_str_bytes(out, " <");
    push_bytes(out, s.email.as_slice());
    push_str_bytes(out, "> ");
    let time = u64_to_dec(s.time);
    push_bytes(out, time.as_slice());
    push_str_bytes(out, " +0000");
    proof {
        assert(final(out)@ =~= old(out)@ + sig_bytes(s@));
    }
}

/// Serialize a commit body.
pub fn serialize_commit(c: &CommitData) -> (r: Vec<u8>)
    ensures
        r@ == commit_body_of(c@),
{
    let mut out: Vec<u8> = Vec::new();
    push_str_bytes(&mut out, "tree ");
    let tree_hex = to_hex(c.tree.bytes.as_slice());
    push_bytes(&mut out, tree_hex.as_slice());
    push_str_bytes(&mut out, "\n");
    let ghost pvs = c.parents.deep_view();
    let ghost head = out@;
    let mut i: usize = 0;
    while i < c.parents.len()
        invariant
            i <= c.parents@.len(),
            pvs == c.parents.deep_view(),
            pvs.len() == c.parents@.len(),
            forall|j: int| 0 <= j < pvs.len() ==> pvs[j] == c.parents@[j]@,
            out@ == head + parent_lines_of(pvs.take(i as int)),
        decreases c.parents@.len() - i,
    {
        push_str_bytes(&mut out, "parent ");
        let ph = to_hex(c.parents[i].bytes.as_slice());
        push_bytes(&mut out, ph.as_slice());
        push_str_bytes(&mut out, "\n");
        proof {
            let t = pvs.take(i as int);
            lemma_parent_lines_concat(t, seq![pvs[i as int]]);
            assert(seq![pvs[i as int]].skip(1) =~= Seq::<Seq<u8>>::empty());
            assert(parent_lines_of(Seq::<Seq<u8>>::empty()) =~= Seq::<u8>::empty());
            assert(parent_lines_of(seq![pvs[i as int]]) =~= "parent ".spec_bytes() + hex_of(
                pvs[i as int],
            ) + "\n".spec_bytes());
            assert(pvs.take(i + 1) =~= t + seq![pvs[i as int]]);
            assert(out@ =~= head + parent_lines_of(pvs.take(i + 1)));
        }
        i = i + 1;
    }
    proof {
        assert(pvs.take(pvs.len() as int) =~= pvs);
    }
    push_str_bytes(&mut out, "author ");
    serialize_sig(&mut out, &c.author);
    push_str_bytes(&mut out, "\n");
    push_str_bytes(&mut out, "committer ");
    serialize_sig(&mut out, &c.author);
    push_str_bytes(&mut out, "\n\n");
    push_bytes(&mut out, c.message.as_slice());
    proof {
        assert(out@ =~= commit_body_of(c@));
    }
    out
}

/// The serialized name of an object kind.
pub fn kind_name(k: ObjectKind) -> (r: Vec<u8>)
    ensures
        r@ == kind_name_bytes(k),
{
    let mut out: Vec<u8> = Vec::new();
    match k {
        ObjectKind::Blob => push_str_bytes(&mut out, "blob"),
        ObjectKind::Tree => push_str_bytes(&mut out, "tree"),
        ObjectKind::Commit => push_str_bytes(&mut out, "commit"),
        ObjectKind::Tag => push_str_bytes(&mut out, "tag"),
    }
    proof {
        assert(Seq::<u8>::empty() + kind_name_bytes(k) =~= kind_name_bytes(k));
    }
    out
}

/// Serialize an annotated tag body.
pub fn serialize_tag(t: &TagData) -> (r: Vec<u8>)
    ensures
        r@ == tag_body_of(t@),
{
    let mut out: Vec<u8> = Vec::new();
    push_str_bytes(&mut out, "object ");
    let target_hex = to_hex(t.target.bytes.as_slice());
    push_bytes(&mut out, target_hex.as_slice());
    push_str_bytes(&mut out, "\n");
    push_str_bytes(&mut out, "type ");
    let kn = kind_name(t.target_kind);
    push_bytes(&mut out, kn.as_slice());
    push_str_bytes(&mut out, "\n");
    push_str_bytes(&mut out, "tag ");
    push_bytes(&mut out, t.name.as_slice());
    push_str_bytes(&mut out, "\n");
    match &t.tagger {
        Some(s) => {
            push_str_bytes(&mut out, "tagger ");
            serialize_sig(&mut out, s);
            push_str_bytes(&mut out, "\n");
        },
        None => {},
    }
    push_str_bytes(&mut out, "\n");
    push_bytes(&mut out, t.message.as_slice());
    proof {
        assert(out@ =~= tag_body_of(t@));
    }
    out
}

/// Serialize any object's canonical body.
pub fn serialize_object(o: &ObjectData) -> (r: Vec<u8>)
    ensures
        r@ == obj_body_of(o@),
{
    match o {
        ObjectData::Blob(b) => {
            let mut out: Vec<u8> = Vec::new();
            push_bytes(&mut out, b.as_slice());
            proof {
                assert(Seq::<u8>::empty() + b@ =~= b@);
            }
            out
        },
        ObjectData::Tree(es) => serialize_tree(es),
        ObjectData::Commit(c) => serialize_commit(c),
        ObjectData::Tag(t) => serialize_tag(t),
    }
}

/// The kind tag of an object value.
pub fn object_kind(o: &ObjectData) -> (r: ObjectKind)
    ensures
        r == obj_kind_of(o@),
{
    match o {
        ObjectData::Blob(_) => ObjectKind::Blob,
        ObjectData::Tree(_) => ObjectKind::Tree,
        ObjectData::Commit(_) => ObjectKind::Commit,
        ObjectData::Tag(_) => ObjectKind::Tag,
    }
}

/// One object as held by the store.
#[derive(Clone, Debug)]
pub struct StoredObject {
    pub id: ObjectId,
    pub data: ObjectData,
}

pub ghost struct StoredObjectV {
    pub id: Seq<u8>,
    pub data: ObjectDataV,
}

impl View for StoredObject {
    type V = StoredObjectV;

    open spec fn view(&self) -> StoredObjectV {
        StoredObjectV { id: self.id@, data: self.data@ }
    }
}

impl DeepView for StoredObject {
    type V = StoredObjectV;

    open spec fn deep_view(&self) -> StoredObjectV {
        self@
    }
}

/// Look an id up in a store: the first object bearing it.
pub open spec fn store_find(s: Seq<StoredObjectV>, id: Seq<u8>) -> Option<ObjectDataV>
    decreases s.len(),
{
    if s.len() == 0 {
        None
    } else if s[0].id == id {
        Some(s[0].data)
    } else {
        store_find(s.skip(1), id)
    }
}

pub proof fn lemma_store_find_skip(s: Seq<StoredObjectV>, id: Seq<u8>, i: int)
    requires
        0 <= i <= s.len(),
        forall|j: int| 0 <= j < i ==> s[j].id != id,
    ensures
        store_find(s, id) == store_find(s.skip(i), id),
    decreases i,
{
    if i > 0 {
        assert(forall|j: int| 0 <= j < i - 1 ==> s.skip(1)[j].id != id);
        lemma_store_find_skip(s.skip(1), id, i - 1);
        assert(s.skip(1).skip(i - 1) =~= s.skip(i));
    } else {
        assert(s.skip(0) =~= s);
    }
}

/// Appending an object leaves every other id's resolution unchanged,
/// and resolves the new id if it was absent.
pub proof fn lemma_store_find_push(s: Seq<StoredObjectV>, o: StoredObjectV, id: Seq<u8>)
    ensures
        store_find(s, id) is Some ==> store_find(s.push(o), id) == store_find(s, id),
        store_find(s, id) is None && o.id == id ==> store_find(s.push(o), id) == Some(o.data),
        store_find(s, id) is None && o.id != id ==> store_find(s.push(o), id) is None,
    decreases s.len(),
{
    if s.len() == 0 {
        assert(s.push(o)[0] == o);
        assert(s.push(o).skip(1) =~= Seq::<StoredObjectV>::empty());
        assert(store_find(Seq::<StoredObjectV>::empty(), id) is None);
    } else {
        lemma_store_find_push(s.skip(1), o, id);
        assert(s.push(o).skip(1) =~= s.skip(1).push(o));
        assert(s.push(o)[0] == s[0]);
    }
}

/// The content-addressed object store: every object it holds carries
/// the digest of its own canonical body.
pub struct ObjectStore {
    pub objects: Vec<StoredObject>,
}

impl View for ObjectStore {
    type V = Seq<StoredObjectV>;

    open spec fn view(&self) -> Seq<StoredObjectV> {
        self.objects.deep_view()
    }
}

impl ObjectStore {
    /// Every stored object's id is the digest of its body, of full
    /// width.
    pub open spec fn well_formed(&self) -> bool {
        forall|i: int|
            0 <= i < self@.len() ==> (#[trigger] self@[i]).id == obj_id_of(self@[i].data)
                && self@[i].id.len() == 20
    }

    pub fn new() -> (r: ObjectStore)
        ensures
            r@.len() == 0,
            r.well_formed(),
    {
        let r = ObjectStore { objects: Vec::new() };
        proof {
            assert(r@ =~= Seq::<StoredObjectV>::empty());
        }
        r
    }

    /// Look an object up by id.
    pub fn find(&self, id: &ObjectId) -> (r: Option<&ObjectData>)
        ensures
            match r {
                Some(d) => store_find(self@, id@) == Some(d@),
                None => store_find(self@, id@) is None,
            },
    {
        let n = self.objects.len();
        let mut i: usize = 0;
        while i < n
            invariant
                i <= n,
                n == self.objects@.len(),
                self@.len() == n,
                forall|j: int| 0 <= j < self@.len() ==> self@[j] == self.objects@[j]@,
                forall|j: int| 0 <= j < i ==> self@[j].id != id@,
            decreases n - i,
        {
            let o = &self.objects[i];
            if o.id.eq_id(id) {
                proof {
                    lemma_store_find_skip(self@, id@, i as int);
                    assert(self@.skip(i as int)[0] == self@[i as int]);
                    assert(self@.skip(i as int).len() > 0);
                }
                return Some(&o.data);
            }
            i = i + 1;
        }
        proof {
            lemma_store_find_skip(self@, id@, n as int);
            assert(self@.skip(n as int) =~= Seq::<StoredObjectV>::empty());
        }
        None
    }

    /// Whether the store holds an object with this id.
    pub fn contains(&self, id: &ObjectId) -> (r: bool)
        ensures
            r <==> store_find(self@, id@) is Some,
    {
        match self.find(id) {
            Some(_) => true,
            None => false,
        }
    }

    /// Write one object: hash its canonical body and keep it under the
    /// resulting id, leaving the store unchanged when the id is already
    /// present. Fails exactly when the hashing routine refuses the
    /// body.
    pub fn write_object(&mut self, data: ObjectData) -> (r: Result<ObjectId, VcsError>)
        ensures
            r is Err <==> crate::hashing::digest_refused(obj_kind_of(data@), obj_body_of(data@)),
            match r {
                Ok(id) => {
                    &&& id@ == obj_id_of(data@)
                    &&& id@.len() == 20
                    &&& store_find(old(self)@, id@) is Some ==> final(self)@ == old(self)@
                    &&& store_find(old(self)@, id@) is None ==> final(self)@ == old(self)@.push(
                        StoredObjectV { id: id@, data: data@ },
                    )
                    &&& store_find(final(self)@, id@) is Some
                    &&& old(self).well_formed() ==> final(self).well_formed()
                },
                Err(e) => {
                    &&& e == VcsError::StoreFailure
                    &&& final(self)@ == old(self)@
                },
            },
    {
        let body = serialize_object(&data);
        let kind = object_kind(&data);
        let hashed = hash_object(kind, body.as_slice());
        match hashed {
            Some(h) => {
                let id = ObjectId::new(h);
                if self.contains(&id) {
                    proof {
                        assert(final(self)@ =~= old(self)@);
                    }
                    Ok(id)
                } else {
                    let ghost pre = self@;
                    let id2 = ObjectId { bytes: slice_to_vec_u8(id.bytes.as_slice()) };
                    self.objects.push(StoredObject { id: id2, data });
                    proof {
                        assert(self@ =~= pre.push(StoredObjectV { id: id@, data: data@ }));
                        lemma_store_find_push(pre, StoredObjectV { id: id@, data: data@ }, id@);
                        assert(forall|i: int|
                            0 <= i < pre.len() ==> self@[i] == pre[i]);
                    }
                    Ok(id)
                }
            },
            None => Err(VcsError::StoreFailure),
        }
    }
}

/// Copy a byte slice into a fresh vector.
pub fn slice_to_vec_u8(s: &[u8]) -> (r: Vec<u8>)
    ensures
        r@ == s@,
{
    let mut out: Vec<u8> = Vec::new();
    push_bytes(&mut out, s);
    proof {
        assert(Seq::<u8>::empty() + s@ =~= s@);
    }
    out
}

} // verus!
