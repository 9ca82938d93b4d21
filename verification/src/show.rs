//! Displaying objects: rendering a resolved object's content as the
//! `show` command prints it.

use vstd::prelude::*;
use vstd::string::StringSliceAdditionalSpecFns;
use crate::bytes::{dec_of, hex_of, to_hex, u64_to_dec};
use crate::errors::VcsError;
use crate::ls_tree::toplevel_lines;
use crate::objects::{
    kind_name, kind_name_bytes, push_bytes, push_str_bytes, store_find, CommitV,
    ObjectData, ObjectDataV, SignatureV, TagV,
};
use crate::oid::ObjectId;
use crate::repo::Repository;
use crate::revision::rev_resolve;

verus! {

/// How tree objects are rendered.
#[derive(Clone, Copy, PartialEq, Eq, Structural, Debug)]
pub enum TreeMode {
    /// One formatted line per entry.
    Pretty,
}

/// An authorship display line body: name, address and timestamp.
pub open spec fn sig_display(s: SignatureV) -> Seq<u8> {
    s.name + " <".spec_bytes() + s.email + "> ".spec_bytes() + dec_of(s.time as nat)
        + " +0000".spec_bytes()
}

/// The lines shown for a commit: its id, its author, its date, and
/// its message.
pub open spec fn commit_display(id: Seq<u8>, c: CommitV) -> Seq<Seq<u8>> {
    seq![
        "commit ".spec_bytes() + hex_of(id),
        "Author: ".spec_bytes() + c.author.name + " <".spec_bytes() + c.author.email
            + ">".spec_bytes(),
        "Date:   ".spec_bytes() + dec_of(c.author.time as nat) + " +0000".spec_bytes(),
        Seq::<u8>::empty(),
        c.message,
    ]
}

/// The lines shown for an annotated tag.
pub open spec fn tag_display(t: TagV) -> Seq<Seq<u8>> {
    seq![
        "object ".spec_bytes() + hex_of(t.target),
        "type ".spec_bytes() + kind_name_bytes(t.target_kind),
        "tag ".spec_bytes() + t.name,
    ] + (match t.tagger {
        Some(s) => seq!["tagger ".spec_bytes() + sig_display(s)],
        None => Seq::<Seq<u8>>::empty(),
    }) + seq![Seq::<u8>::empty(), t.message]
}

/// What is shown for any object: a blob's raw content as one line, a
/// tree's entry listing, a commit's header and message, a tag's
/// fields.
pub open spec fn object_display(id: Seq<u8>, o: ObjectDataV) -> Seq<Seq<u8>> {
    match o {
        ObjectDataV::Blob(b) => seq![b],
        ObjectDataV::Tree(es) => toplevel_lines(es),
        ObjectDataV::Commit(c) => commit_display(id, c),
        ObjectDataV::Tag(t) => tag_display(t),
    }
}

/// Render the object with the given id for display, one output line
/// per element.
pub fn display_object(repo: &Repository, id: &ObjectId) -> (r: Result<Vec<Vec<u8>>, VcsError>)
    ensures
        match r {
            Ok(lines) => (store_find(repo.store@, id@) matches Some(o) && lines.deep_view()
                == object_display(id@, o)),
            Err(e) => e == VcsError::StoreFailure && store_find(repo.store@, id@) is None,
        },
{
    let obj = match repo.store.find(id) {
        Some(o) => o,
        None => {
            return Err(VcsError::StoreFailure);
        },
    };
    let mut lines: Vec<Vec<u8>> = Vec::new();
    match obj {
        ObjectData::Blob(b) => {
            let ghost bv = b@;
            lines.push(crate::objects::slice_to_vec_u8(b.as_slice()));
            proof {
                assert(lines.deep_view() =~~= seq![bv]);
            }
        },
        ObjectData::Tree(es) => {
            let ghost dv = es.deep_view();
            let mut i: usize = 0;
            proof {
                assert(dv.take(0) =~= Seq::<crate::objects::TreeEntryV>::empty());
                assert(lines.deep_view() =~= Seq::<Seq<u8>>::empty());
            }
            while i < es.len()
                invariant
                    i <= es@.len(),
                    dv == es.deep_view(),
                    dv.len() == es@.len(),
                    forall|k: int| 0 <= k < dv.len() ==> dv[k] == es@[k]@,
                    lines.deep_view() == toplevel_lines(dv.take(i as int)),
                decreases es@.len() - i,
            {
                let e = &es[i];
                let ghost lv0 = lines.deep_view();
                let line = crate::ls_tree::format_entry(e.mode, &e.id, e.name.as_slice(), None);
                let ghost lvline = line@;
                lines.push(line);
                proof {
                    assert(dv.take(i + 1) =~= dv.take(i as int) + seq![dv[i as int]]);
                    crate::ls_tree::lemma_toplevel_lines_concat(
                        dv.take(i as int),
                        seq![dv[i as int]],
                    );
                    assert(seq![dv[i as int]].skip(1) =~= Seq::<
                        crate::objects::TreeEntryV,
                    >::empty());
                    assert(toplevel_lines(Seq::<crate::objects::TreeEntryV>::empty()) =~= Seq::<
                        Seq<u8>,
                    >::empty());
                    assert(seq![dv[i as int]][0] == dv[i as int]);
                    assert(toplevel_lines(seq![dv[i as int]]) =~= seq![lvline]);
                    assert(lines.deep_view() =~~= lv0 + seq![lvline]);
                }
                i = i + 1;
            }
            proof {
                assert(dv.take(dv.len() as int) =~= dv);
            }
        },
        ObjectData::Commit(c) => {
            let mut l1: Vec<u8> = Vec::new();
            push_str_bytes(&mut l1, "commit ");
            let hx = to_hex(id.bytes.as_slice());
            push_bytes(&mut l1, hx.as_slice());
            let mut l2: Vec<u8> = Vec::new();
            push_str_bytes(&mut l2, "Author: ");
            push_bytes(&mut l2, c.author.name.as_slice());
            push_str_bytes(&mut l2, " <");
            push_bytes(&mut l2, c.author.email.as_slice());
            push_str_bytes(&mut l2, ">");
            let mut l3: Vec<u8> = Vec::new();
            push_str_bytes(&mut l3, "Date:   ");
            let t = u64_to_dec(c.author.time);
            push_bytes(&mut l3, t.as_slice());
            push_str_bytes(&mut l3, " +0000");
            let ghost g1 = l1@;
            let ghost g2 = l2@;
            let ghost g3 = l3@;
            let ghost gm = c.message@;
            lines.push(l1);
            lines.push(l2);
            lines.push(l3);
            lines.push(Vec::new());
            lines.push(crate::objects::slice_to_vec_u8(c.message.as_slice()));
            proof {
                assert(lines.deep_view() =~~= seq![g1, g2, g3, Seq::<u8>::empty(), gm]);
                assert(seq![g1, g2, g3, Seq::<u8>::empty(), gm] =~~= commit_display(id@, c@));
            }
        },
        ObjectData::Tag(tag) => {
            let mut l1: Vec<u8> = Vec::new();
            push_str_bytes(&mut l1, "object ");
            let hx = to_hex(tag.target.bytes.as_slice());
            push_bytes(&mut l1, hx.as_slice());
            let mut l2: Vec<u8> = Vec::new();
            push_str_bytes(&mut l2, "type ");
            let kn = kind_name(tag.target_kind);
            push_bytes(&mut l2, kn.as_slice());
            let mut l3: Vec<u8> = Vec::new();
            push_str_bytes(&mut l3, "tag ");
            push_bytes(&mut l3, tag.name.as_slice());
            let ghost g1 = l1@;
            let ghost g2 = l2@;
            let ghost g3 = l3@;
            let ghost gm = tag.message@;
            lines.push(l1);
            lines.push(l2);
            lines.push(l3);
            match &tag.tagger {
                Some(s) => {
                    let mut l4: Vec<u8> = Vec::new();
                    push_str_bytes(&mut l4, "tagger ");
                    push_bytes(&mut l4, s.name.as_slice());
                    push_str_bytes(&mut l4, " <");
                    push_bytes(&mut l4, s.email.as_slice());
                    push_str_bytes(&mut l4, "> ");
                    let t = u64_to_dec(s.time);
                    push_bytes(&mut l4, t.as_slice());
                    push_str_bytes(&mut l4, " +0000");
                    let ghost g4 = l4@;
                    lines.push(l4);
                    lines.push(Vec::new());
                    lines.push(crate::objects::slice_to_vec_u8(tag.message.as_slice()));
                    proof {
                        assert(lines.deep_view() =~~= seq![
                            g1,
                            g2,
                            g3,
                            g4,
                            Seq::<u8>::empty(),
                            gm,
                        ]);
                        assert(seq![g1, g2, g3, g4, Seq::<u8>::empty(), gm] =~~= tag_display(
                            tag@,
                        ));
                    }
                },
                None => {
                    lines.push(Vec::new());
                    lines.push(crate::objects::slice_to_vec_u8(tag.message.as_slice()));
                    proof {
                        assert(lines.deep_view() =~~= seq![g1, g2, g3, Seq::<u8>::empty(), gm]);
                        assert(seq![g1, g2, g3, Seq::<u8>::empty(), gm] =~~= tag_display(tag@));
                    }
                },
            }
        },
    }
    Ok(lines)
}

/// Resolve a revision and display the object it names; it fails
/// exactly when the revision does not resolve (an ambiguous argument)
/// or the resolved id is absent from the store (a store failure).
pub fn cat(repo: &Repository, revspec: &[u8]) -> (r: Result<Vec<Vec<u8>>, VcsError>)
    requires
        repo.well_formed(),
    ensures
        r is Err <==> (rev_resolve(repo.refs@.head_target, repo.store@, revspec@) is None
            || store_find(
            repo.store@,
            rev_resolve(repo.refs@.head_target, repo.store@, revspec@)->Some_0,
        ) is None),
        match r {
            Ok(lines) => ({
                let id = rev_resolve(repo.refs@.head_target, repo.store@, revspec@);
                &&& id is Some
                &&& (store_find(repo.store@, id->Some_0) matches Some(o) && lines.deep_view()
                    == object_display(id->Some_0, o))
            }),
            Err(e) => {
                if rev_resolve(repo.refs@.head_target, repo.store@, revspec@) is None {
                    e == VcsError::AmbiguousRevision
                } else {
                    e == VcsError::StoreFailure
                }
            },
        },
{
    let id = match crate::revision::resolve_revision(repo, revspec) {
        Some(id) => id,
        None => {
            return Err(VcsError::AmbiguousRevision);
        },
    };
    display_object(repo, &id)
}

} // verus!
