//! The headroom of a block: how far a block may accumulate before it has to be cleaned.

use crate::shortint::BlockView;
use vstd::prelude::*;

verus! {

/// The headroom of a block: the largest degree at which a block with `message_modulus`
/// digit values and a carry space of `carry_modulus` still has room for one more carry.
pub open spec fn headroom(message_modulus: nat, carry_modulus: nat) -> int {
    (message_modulus - 1) * carry_modulus - 1
}

/// The moduli have a headroom, and it is a machine word: `message_modulus` is at least 2,
/// `carry_modulus` at least 1, and `(message_modulus - 1) * carry_modulus - 1` at most
/// `usize::MAX`.
pub open spec fn has_headroom(message_modulus: nat, carry_modulus: nat) -> bool {
    0 <= headroom(message_modulus, carry_modulus) <= usize::MAX
}

/// Computes the headroom of a pair of moduli, or `None` where they have none.
pub fn max_degree_for(message_modulus: usize, carry_modulus: usize) -> (max: Option<usize>)
    ensures
        max is Some <==> has_headroom(message_modulus as nat, carry_modulus as nat),
        max is Some ==> max->0 == headroom(message_modulus as nat, carry_modulus as nat),
{
    if message_modulus < 2 || carry_modulus < 1 {
        assert((message_modulus - 1) * carry_modulus <= 0) by (nonlinear_arith)
            requires
                message_modulus < 2 || carry_modulus < 1,
                message_modulus >= 0,
                carry_modulus >= 0,
        ;
        return None;
    }
    let digits: u128 = (message_modulus - 1) as u128;
    let room: u128 = carry_modulus as u128;
    assert(1 <= digits * room <= 0xffff_ffff_ffff_ffff * 0xffff_ffff_ffff_ffff) by (nonlinear_arith)
        requires
            1 <= digits <= 0xffff_ffff_ffff_ffff,
            1 <= room <= 0xffff_ffff_ffff_ffff,
    ;
    let max: u128 = digits * room - 1;
    if max <= usize::MAX as u128 {
        Some(max as usize)
    } else {
        None
    }
}

/// The headroom is what leaves room for a carry: when two blocks of the same moduli are
/// both within the headroom, the carry of one can be added into the other, and the sum
/// stays below `B * C`, the size of the value space.
pub proof fn lemma_headroom_takes_a_carry(receiver: BlockView, sender: BlockView)
    requires
        receiver.message_modulus == sender.message_modulus,
        receiver.carry_modulus == sender.carry_modulus,
        has_headroom(receiver.message_modulus, receiver.carry_modulus),
        receiver.degree <= headroom(receiver.message_modulus, receiver.carry_modulus),
        sender.degree <= headroom(sender.message_modulus, sender.carry_modulus),
    ensures
        receiver.plus(sender.carry()).degree < receiver.message_modulus * receiver.carry_modulus,
{
    let b = sender.message_modulus as int;
    let c = sender.carry_modulus as int;
    let d = sender.degree as int;
    assert(b >= 2 && c >= 1) by (nonlinear_arith)
        requires
            b >= 0,
            c >= 0,
            0 <= (b - 1) * c - 1,
    ;
    assert(d / b < c) by (nonlinear_arith)
        requires
            b >= 2,
            c >= 1,
            0 <= d <= (b - 1) * c - 1,
    ;
    assert((b - 1) * c - 1 + (c - 1) < b * c) by (nonlinear_arith);
}

} // verus!
