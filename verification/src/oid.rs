//! Object identifiers: the value by which the object store addresses
//! blobs, trees, commits and tags.

use vstd::prelude::*;
use crate::bytes::{bytes_eq, hex_of, lemma_hex_of_len, to_hex};

verus! {

/// An object id: the digest bytes of a stored object.
#[derive(Clone, Debug)]
pub struct ObjectId {
    pub bytes: Vec<u8>,
}

impl View for ObjectId {
    type V = Seq<u8>;

    open spec fn view(&self) -> Seq<u8> {
        self.bytes@
    }
}

impl DeepView for ObjectId {
    type V = Seq<u8>;

    open spec fn deep_view(&self) -> Seq<u8> {
        self@
    }
}

impl ObjectId {
    /// A full-size id holds exactly the digest width of the hash.
    pub open spec fn well_formed(&self) -> bool {
        self@.len() == 20
    }

    pub fn new(bytes: Vec<u8>) -> (r: ObjectId)
        ensures
            r@ == bytes@,
    {
        ObjectId { bytes }
    }

    pub fn eq_id(&self, other: &ObjectId) -> (r: bool)
        ensures
            r <==> self@ == other@,
    {
        bytes_eq(self.bytes.as_slice(), other.bytes.as_slice())
    }

    /// The full lower-case hexadecimal form of the id.
    pub fn to_hex(&self) -> (r: Vec<u8>)
        ensures
            r@ == hex_of(self@),
    {
        to_hex(self.bytes.as_slice())
    }

    /// The abbreviated hexadecimal form: the first `len` digits, as
    /// shown in command output.
    pub fn to_hex_with_len(&self, len: usize) -> (r: Vec<u8>)
        requires
            len <= 2 * self@.len(),
        ensures
            r@ == hex_of(self@).take(len as int),
    {
        let full = to_hex(self.bytes.as_slice());
        proof {
            lemma_hex_of_len(self@);
        }
        let mut out: Vec<u8> = Vec::new();
        let mut i: usize = 0;
        while i < len
            invariant
                i <= len,
                len <= full@.len(),
                full@ == hex_of(self@),
                out@ == full@.take(i as int),
            decreases len - i,
        {
            proof {
                assert(full@.take(i + 1) =~= full@.take(i as int).push(full@[i as int]));
            }
            out.push(full[i]);
            i = i + 1;
        }
        out
    }
}

} // verus!
