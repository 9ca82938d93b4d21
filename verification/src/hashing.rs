//! Content addressing. The digest of an object is computed by the
//! `gix` object library; its value is named, not restated.

use vstd::prelude::*;

verus! {

/// The kinds of objects a content-addressed store holds.
#[derive(Clone, Copy, PartialEq, Eq, Structural, Debug)]
pub enum ObjectKind {
    Blob,
    Tree,
    Commit,
    Tag,
}

/// The digest that content addressing assigns to an object of a given
/// kind with the given body bytes. Its value is fixed by the hashing
/// routine of the object library and is a function of the arguments
/// alone; nothing more is assumed of it.
pub uninterp spec fn object_digest(kind: ObjectKind, body: Seq<u8>) -> Seq<u8>;

/// Whether the hashing routine refuses an object of this kind and
/// body: its collision detection decides from the bytes alone, so the
/// refusal too is a function of the arguments.
pub uninterp spec fn digest_refused(kind: ObjectKind, body: Seq<u8>) -> bool;

/// Relies on gix::objs::compute_hash: the SHA-1 object digest is a
/// function of the object kind and body alone, and is 20 bytes long;
/// it errs exactly when the hasher's collision detection refuses the
/// bytes, which is itself a function of kind and body alone.
#[verifier::external_body]
pub(crate) fn hash_object(kind: ObjectKind, body: &[u8]) -> (r: Option<Vec<u8>>)
    ensures
        r is Some <==> !digest_refused(kind, body@),
        r matches Some(h) ==> h@ == object_digest(kind, body@) && h@.len() == 20,
{
    let gix_kind = match kind {
        ObjectKind::Blob => gix::objs::Kind::Blob,
        ObjectKind::Tree => gix::objs::Kind::Tree,
        ObjectKind::Commit => gix::objs::Kind::Commit,
        ObjectKind::Tag => gix::objs::Kind::Tag,
    };
    match gix::objs::compute_hash(gix::hash::Kind::Sha1, gix_kind, body) {
        Ok(id) => Some(id.as_slice().to_vec()),
        Err(_) => None,
    }
}

} // verus!
