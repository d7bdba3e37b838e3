//! The encrypted integer: a sequence of blocks with its per-block tags.

use crate::propagation::views;
use crate::shortint::BlockView;
use concrete_shortint::Ciphertext as Block;
use vstd::prelude::*;

verus! {

/// Identifies the key a block was encrypted under.
#[derive(Clone, Copy, Debug, PartialEq, Eq, Structural)]
pub struct KeyId(pub usize);

/// An integer encrypted digit by digit.
///
/// `ct_vec` holds the blocks, least significant first. Once every block is down to a
/// single digit, the integer is the sum of `digit_i * B^i`. The two other vectors tag each
/// block with a modulus and a key; both may be left empty. This library hands them on as
/// they are and never reads them.
pub struct Ciphertext {
    pub ct_vec: Vec<Block>,
    pub message_modulus_vec: Vec<u64>,
    pub key_id_vec: Vec<KeyId>,
}

impl Ciphertext {
    /// The clear parts of the blocks, least significant first.
    pub open spec fn views(&self) -> Seq<BlockView> {
        views(self.ct_vec@)
    }

    /// Each vector of tags is empty or has one entry for every block.
    pub open spec fn well_formed(&self) -> bool {
        &&& self.message_modulus_vec@.len() == 0 || self.message_modulus_vec@.len()
            == self.ct_vec@.len()
        &&& self.key_id_vec@.len() == 0 || self.key_id_vec@.len() == self.ct_vec@.len()
    }

    /// The two vectors of tags are those of `other`.
    pub open spec fn same_tags(&self, other: &Ciphertext) -> bool {
        &&& self.message_modulus_vec@ == other.message_modulus_vec@
        &&& self.key_id_vec@ == other.key_id_vec@
    }
}

} // verus!
