//! The reference store: HEAD, either unborn (a branch name with no
//! commit yet) or resolved to a commit id, every mutation carrying a
//! reflog-style reason.

use vstd::prelude::*;
use vstd::string::StringSliceAdditionalSpecFns;
use vstd::string::StrSliceExecFns;
use crate::objects::slice_to_vec_u8;
use crate::oid::ObjectId;

verus! {

/// The reference store, reduced to what the engines read and write.
pub struct RefStore {
    /// The commit HEAD resolves to; `None` while HEAD is unborn.
    pub head_target: Option<ObjectId>,
    /// The branch HEAD points through, when it points through one.
    pub branch: Option<Vec<u8>>,
    /// The reason string supplied with the last mutation.
    pub last_reason: Vec<u8>,
}

pub ghost struct RefStoreV {
    pub head_target: Option<Seq<u8>>,
    pub branch: Option<Seq<u8>>,
    pub last_reason: Seq<u8>,
}

impl View for RefStore {
    type V = RefStoreV;

    open spec fn view(&self) -> RefStoreV {
        RefStoreV {
            head_target: match self.head_target {
                Some(ref id) => Some(id@),
                None => None,
            },
            branch: match self.branch {
                Some(ref b) => Some(b@),
                None => None,
            },
            last_reason: self.last_reason@,
        }
    }
}

impl RefStore {
    /// An unborn HEAD on the given branch.
    pub fn unborn(branch: Vec<u8>) -> (r: RefStore)
        ensures
            r@.head_target is None,
            r@.branch == Some(branch@),
            r@.last_reason.len() == 0,
    {
        RefStore { head_target: None, branch: Some(branch), last_reason: Vec::new() }
    }

    /// Whether HEAD points at a branch that has no commit yet.
    pub fn is_unborn(&self) -> (r: bool)
        ensures
            r == (self@.head_target is None),
    {
        match self.head_target {
            Some(_) => false,
            None => true,
        }
    }

    /// Point HEAD at `id`, recording the reason.
    pub fn set_target(&mut self, id: &ObjectId, reason: &[u8])
        ensures
            final(self)@.head_target == Some(id@),
            final(self)@.branch == old(self)@.branch,
            final(self)@.last_reason == reason@,
    {
        self.head_target = Some(ObjectId::new(slice_to_vec_u8(id.bytes.as_slice())));
        self.last_reason = slice_to_vec_u8(reason);
    }

    /// The commit HEAD resolves to, when born.
    pub fn target(&self) -> (r: Option<&ObjectId>)
        ensures
            match r {
                Some(id) => self@.head_target == Some(id@),
                None => self@.head_target is None,
            },
    {
        match &self.head_target {
            Some(id) => Some(id),
            None => None,
        }
    }
}

} // verus!
