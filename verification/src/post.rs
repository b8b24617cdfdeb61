//! The minimal slice of the post subsystem that governance touches: every
//! proposal is announced through a companion post that carries its
//! description, and creating one costs its author cycles.

use vstd::prelude::*;
use crate::{PostId, UserId};

verus! {

pub struct Post {
    /// Dense identifier: the post's index in the state's post list.
    pub id: PostId,
    /// The human-readable description.
    pub body: String,
    pub author: UserId,
    pub timestamp: u64,
    /// Set when the post accompanies a proposal, to that proposal's id.
    pub proposal: Option<u32>,
}

} // verus!
