//! Revision resolution over the model: `HEAD`, or a full hexadecimal
//! object id held by the store.

use vstd::prelude::*;
use vstd::string::StringSliceAdditionalSpecFns;
use vstd::string::StrSliceExecFns;
use crate::objects::{slice_to_vec_u8, store_find};
use crate::oid::ObjectId;
use crate::repo::Repository;

verus! {

/// The value of one hexadecimal digit, or 16 for any other byte.
pub open spec fn hex_val(c: u8) -> int {
    if 48 <= c <= 57 {
        c - 48
    } else if 97 <= c <= 102 {
        c - 87
    } else if 65 <= c <= 70 {
        c - 55
    } else {
        16
    }
}

/// Whether the string is exactly forty hexadecimal digits.
pub open spec fn is_hex40(s: Seq<u8>) -> bool {
    s.len() == 40 && forall|i: int| 0 <= i < s.len() ==> hex_val(#[trigger] s[i]) < 16
}

/// The bytes a hexadecimal string denotes, two digits per byte.
pub open spec fn hex_decode(s: Seq<u8>) -> Seq<u8>
    decreases s.len(),
{
    if s.len() < 2 {
        Seq::empty()
    } else {
        seq![(hex_val(s[0]) * 16 + hex_val(s[1])) as u8] + hex_decode(s.skip(2))
    }
}

/// What a revision string resolves to: `HEAD`'s target, or a full
/// hexadecimal id that the store holds.
pub open spec fn rev_resolve(
    head: Option<Seq<u8>>,
    store: Seq<crate::objects::StoredObjectV>,
    s: Seq<u8>,
) -> Option<Seq<u8>> {
    if s == "HEAD".spec_bytes() {
        head
    } else if is_hex40(s) && store_find(store, hex_decode(s)) is Some {
        Some(hex_decode(s))
    } else {
        None
    }
}

/// Resolve a revision string against the repository.
pub fn resolve_revision(repo: &Repository, rev: &[u8]) -> (r: Option<ObjectId>)
    requires
        repo.well_formed(),
    ensures
        match r {
            Some(id) => rev_resolve(repo.refs@.head_target, repo.store@, rev@) == Some(id@)
                && id@.len() == 20,
            None => rev_resolve(repo.refs@.head_target, repo.store@, rev@) is None,
        },
{
    let head_lit = "HEAD".as_bytes_vec();
    if crate::bytes::bytes_eq(rev, head_lit.as_slice()) {
        return match repo.refs.target() {
            Some(id) => Some(ObjectId::new(slice_to_vec_u8(id.bytes.as_slice()))),
            None => None,
        };
    }
    if rev.len() != 40 {
        return None;
    }
    let mut bytes: Vec<u8> = Vec::new();
    let mut i: usize = 0;
    while i < 40
        invariant
            i <= 40,
            i % 2 == 0,
            rev@.len() == 40,
            rev@ != "HEAD".spec_bytes(),
            forall|j: int| 0 <= j < i ==> hex_val(#[trigger] rev@[j]) < 16,
            bytes@ == hex_decode(rev@.take(i as int)),
        decreases 40 - i,
    {
        let hi = hex_val_exec(rev[i]);
        let lo = hex_val_exec(rev[i + 1]);
        if hi == 16 || lo == 16 {
            proof {
                if is_hex40(rev@) {
                    assert(hex_val(rev@[i as int]) < 16);
                    assert(hex_val(rev@[i + 1]) < 16);
                }
            }
            return None;
        }
        proof {
            lemma_hex_decode_step(rev@, i as int);
        }
        bytes.push(hi * 16 + lo);
        i = i + 2;
    }
    proof {
        assert(rev@.take(40) =~= rev@);
        lemma_hex_decode_len(rev@);
    }
    let id = ObjectId::new(bytes);
    if repo.store.contains(&id) {
        Some(id)
    } else {
        None
    }
}

/// Decoding two more digits appends one byte.
proof fn lemma_hex_decode_step(s: Seq<u8>, i: int)
    requires
        0 <= i,
        i + 2 <= s.len(),
        i % 2 == 0,
    ensures
        hex_decode(s.take(i + 2)) == hex_decode(s.take(i)).push(
            (hex_val(s[i]) * 16 + hex_val(s[i + 1])) as u8,
        ),
    decreases i,
{
    if i == 0 {
        assert(s.take(2).skip(2) =~= Seq::<u8>::empty());
        assert(hex_decode(Seq::<u8>::empty()) =~= Seq::<u8>::empty());
        assert(s.take(0) =~= Seq::<u8>::empty());
        assert(s.take(2)[0] == s[0] && s.take(2)[1] == s[1]);
        assert(hex_decode(s.take(2)) =~= seq![(hex_val(s[0]) * 16 + hex_val(s[1])) as u8]);
        assert(hex_decode(s.take(0)).push((hex_val(s[0]) * 16 + hex_val(s[1])) as u8) =~= seq![
            (hex_val(s[0]) * 16 + hex_val(s[1])) as u8,
        ]);
    } else {
        lemma_hex_decode_step(s.skip(2), i - 2);
        assert(s.take(i + 2).skip(2) =~= s.skip(2).take(i));
        assert(s.take(i).skip(2) =~= s.skip(2).take(i - 2));
        assert(s.take(i + 2)[0] == s[0] && s.take(i + 2)[1] == s[1]);
        assert(s.take(i)[0] == s[0] && s.take(i)[1] == s[1]);
        assert(s.skip(2)[i - 2] == s[i as int] && s.skip(2)[i - 1] == s[i + 1]);
        assert(hex_decode(s.take(i + 2)) =~= seq![(hex_val(s[0]) * 16 + hex_val(s[1])) as u8]
            + hex_decode(s.skip(2).take(i)));
        assert(hex_decode(s.take(i)) =~= seq![(hex_val(s[0]) * 16 + hex_val(s[1])) as u8]
            + hex_decode(s.skip(2).take(i - 2)));
        assert(hex_decode(s.take(i)).push((hex_val(s[i as int]) * 16 + hex_val(s[i + 1])) as u8)
            =~= seq![(hex_val(s[0]) * 16 + hex_val(s[1])) as u8] + hex_decode(
            s.skip(2).take(i - 2),
        ).push((hex_val(s.skip(2)[i - 2]) * 16 + hex_val(s.skip(2)[i - 1])) as u8));
    }
}

/// An even-length hexadecimal string decodes to half as many bytes.
proof fn lemma_hex_decode_len(s: Seq<u8>)
    requires
        s.len() % 2 == 0,
    ensures
        hex_decode(s).len() == s.len() / 2,
    decreases s.len(),
{
    if s.len() >= 2 {
        lemma_hex_decode_len(s.skip(2));
    }
}

/// The value of one hexadecimal digit, or 16.
pub fn hex_val_exec(c: u8) -> (r: u8)
    ensures
        r == hex_val(c),
        r <= 16,
{
    if 48 <= c && c <= 57 {
        c - 48
    } else if 97 <= c && c <= 102 {
        c - 87
    } else if 65 <= c && c <= 70 {
        c - 55
    } else {
        16
    }
}

} // verus!
