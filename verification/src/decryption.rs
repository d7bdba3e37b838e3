//! Blocks and the numbers they hold.
//!
//! The server never decrypts, and nothing in this library can say what a block decrypts
//! to. What it can say is what follows if the single-block scheme is exact: if the carry
//! it extracts from a block holds the quotient of what the block holds, the message the
//! remainder, and a sum the sum. A decryption here is any way of giving each block a
//! number, and `exact` says that the scheme keeps this promise for it. The laws of this
//! module take `exact` as their premise. They do not claim it: that is for the scheme.

use crate::digits::{
    all_digits, first_values, held, integer_of, lemma_first_values, lemma_headroom_holds,
    lemma_pass_keeps_integer, lemma_pass_values, lemma_pass_values_idempotent, pass_values,
    step_values, weighted,
};
use crate::headroom::{has_headroom, headroom};
use crate::propagation::{
    is_record, lemma_accumulated_keeps_shape, lemma_propagate_all, lemma_propagate_first,
    lemma_record_views, passed, step_recorded, stepped, views,
};
use crate::shortint::{block_view, is_carry, is_message, key_view, sum_of, trivial_of};
use concrete_shortint::Ciphertext as Block;
use concrete_shortint::ServerKey as EvaluationKey;
use vstd::arithmetic::power::pow;
use vstd::prelude::*;

verus! {

/// The numbers that `decrypt` gives to a sequence of blocks.
pub open spec fn values(decrypt: spec_fn(Block) -> nat, blocks: Seq<Block>) -> Seq<nat> {
    blocks.map_values(|block: Block| decrypt(block))
}

/// The size of the value space under `key`: `B * C`. The scheme computes exactly on
/// numbers below it.
pub open spec fn space(key: EvaluationKey) -> nat {
    key_view(key).message_modulus * key_view(key).carry_modulus
}

/// Under `decrypt`, a trivial encryption under `key` holds its value modulo the `B` of the
/// key. No noise and no secret go into a trivial encryption, so this is the least that a
/// decryption has to do.
pub open spec fn reads_trivial(key: EvaluationKey, decrypt: spec_fn(Block) -> nat) -> bool {
    forall|value: u8|
        decrypt(#[trigger] trivial_of(key, value)) == value as nat % key_view(key).message_modulus
}

/// The scheme is exact under `key` for `decrypt`:
/// the carry of a block that holds less than the value space holds the quotient by the
/// `B` of the block, its message holds the remainder, the sum of two blocks that
/// together hold less than the value space holds the sum, and a trivial encryption holds
/// its value modulo the `B` of the key.
pub open spec fn exact(key: EvaluationKey, decrypt: spec_fn(Block) -> nat) -> bool {
    &&& forall|block: Block, carry: Block| #[trigger]
        is_carry(key, block, carry) && decrypt(block) < space(key) ==> decrypt(carry) == decrypt(
            block,
        ) / block_view(block).message_modulus
    &&& forall|block: Block, message: Block| #[trigger]
        is_message(key, block, message) && decrypt(block) < space(key) ==> decrypt(message)
            == decrypt(block) % block_view(block).message_modulus
    &&& forall|left: Block, right: Block|
        decrypt(left) + decrypt(right) < space(key) ==> decrypt(#[trigger] sum_of(left, right))
            == decrypt(left) + decrypt(right)
    &&& reads_trivial(key, decrypt)
}

/// Every block has `base` digit values.
pub open spec fn same_base(blocks: Seq<Block>, base: nat) -> bool {
    forall|index: int|
        0 <= index < blocks.len() ==> block_view(#[trigger] blocks[index]).message_modulus == base
}

/// In a full pass no block comes to hold as much as the value space.
pub open spec fn within_space(key: EvaluationKey, numbers: Seq<nat>, base: nat) -> bool {
    forall|index: int| 0 <= index < numbers.len() ==> #[trigger] held(numbers, base, index) < space(key)
}

/// A step splits what the block holds. If the scheme is exact, and neither the block at
/// `index` nor, with the carry added, the next block comes to hold as much as the value
/// space, then after the step the block at `index` holds the remainder of what it held,
/// the next block holds the quotient more, and every other block holds what it held.
pub proof fn lemma_step_decrypts(
    key: EvaluationKey,
    decrypt: spec_fn(Block) -> nat,
    before: Seq<Block>,
    index: int,
    after: Seq<Block>,
)
    requires
        exact(key, decrypt),
        stepped(key, before, index, after),
        0 <= index < before.len(),
        decrypt(before[index]) < space(key),
        index + 1 < before.len() ==> decrypt(before[index + 1]) + decrypt(before[index])
            / block_view(before[index]).message_modulus < space(key),
    ensures
        values(decrypt, after) == step_values(
            values(decrypt, before),
            block_view(before[index]).message_modulus,
            index,
        ),
{
}

/// What the states of a record hold: after the first `index` steps, the numbers are
/// those of the first `index` steps of the ripple.
proof fn lemma_record_decrypts(
    key: EvaluationKey,
    decrypt: spec_fn(Block) -> nat,
    before: Seq<Block>,
    states: Seq<Seq<Block>>,
    base: nat,
    index: nat,
)
    requires
        exact(key, decrypt),
        is_record(key, before, states, before.len()),
        same_base(before, base),
        base >= 1,
        within_space(key, values(decrypt, before), base),
        index <= before.len(),
    ensures
        values(decrypt, states[index as int]) == first_values(values(decrypt, before), base, index),
    decreases index,
{
    let numbers = values(decrypt, before);
    if index > 0 {
        let step = (index - 1) as nat;
        let state = states[step as int];
        lemma_record_decrypts(key, decrypt, before, states, base, step);
        lemma_record_views(key, before, states, before.len(), step);
        lemma_propagate_first(views(before), step);
        lemma_accumulated_keeps_shape(views(before), step as int);
        lemma_first_values(numbers, base, step);
        assert(step_recorded(key, states, step as int));
        if index < before.len() {
            assert(values(decrypt, state)[index as int] == decrypt(state[index as int]));
            assert(held(numbers, base, index as int) < space(key));
        }
        lemma_step_decrypts(key, decrypt, state, step as int, states[index as int]);
    }
}

/// A full pass is the ripple on what the blocks hold. If the scheme is exact, every block
/// has `base` digit values, and no block comes to hold as much as the value space, then
/// after the pass the blocks hold what the ripple in `base` makes of what they held.
pub proof fn lemma_pass_decrypts(
    key: EvaluationKey,
    decrypt: spec_fn(Block) -> nat,
    before: Seq<Block>,
    after: Seq<Block>,
    base: nat,
)
    requires
        exact(key, decrypt),
        passed(key, before, after),
        same_base(before, base),
        base >= 1,
        within_space(key, values(decrypt, before), base),
    ensures
        values(decrypt, after) == pass_values(values(decrypt, before), base),
{
    let states = choose|states: Seq<Seq<Block>>| #[trigger]
        is_record(key, before, states, before.len()) && states.last() == after;
    lemma_record_decrypts(key, decrypt, before, states, base, before.len());
}

/// A full pass cleans the blocks and keeps the integer. Under the premises of
/// `lemma_pass_decrypts`, every block holds a single digit after the pass, and the digits
/// stand for the integer that the blocks stood for before, modulo `base^len`: the carry
/// out of the last block is dropped. Where that carry is zero, the integer is the same.
pub proof fn lemma_pass_keeps_decrypted_integer(
    key: EvaluationKey,
    decrypt: spec_fn(Block) -> nat,
    before: Seq<Block>,
    after: Seq<Block>,
    base: nat,
)
    requires
        exact(key, decrypt),
        passed(key, before, after),
        same_base(before, base),
        base >= 1,
        within_space(key, values(decrypt, before), base),
    ensures
        all_digits(values(decrypt, after), base),
        integer_of(values(decrypt, after), base) == integer_of(values(decrypt, before), base) % pow(
            base as int,
            before.len(),
        ),
        before.len() > 0 && held(values(decrypt, before), base, before.len() - 1) < base
            ==> integer_of(values(decrypt, after), base) == integer_of(
            values(decrypt, before),
            base,
        ),
{
    let numbers = values(decrypt, before);
    lemma_pass_decrypts(key, decrypt, before, after, base);
    lemma_pass_values(numbers, base);
    lemma_pass_keeps_integer(numbers, base);
    if before.len() > 0 && held(numbers, base, before.len() - 1) < base {
        let top = held(numbers, base, before.len() - 1);
        assert(top / base == 0) by (nonlinear_arith)
            requires
                0 <= top < base,
        ;
    }
}

/// A second full pass finds nothing to do. If the scheme is exact and the first pass
/// stayed within the value space, which has room for a digit, the blocks hold after the
/// second pass what they held after the first.
pub proof fn lemma_second_pass_decrypts_the_same(
    key: EvaluationKey,
    decrypt: spec_fn(Block) -> nat,
    before: Seq<Block>,
    once: Seq<Block>,
    twice: Seq<Block>,
    base: nat,
)
    requires
        exact(key, decrypt),
        passed(key, before, once),
        passed(key, once, twice),
        same_base(before, base),
        1 <= base <= space(key),
        within_space(key, values(decrypt, before), base),
    ensures
        values(decrypt, twice) == values(decrypt, once),
        integer_of(values(decrypt, twice), base) == integer_of(values(decrypt, once), base),
{
    let numbers = values(decrypt, before);
    let digits = values(decrypt, once);
    lemma_pass_decrypts(key, decrypt, before, once, base);
    lemma_pass_values(numbers, base);
    let states = choose|states: Seq<Seq<Block>>| #[trigger]
        is_record(key, before, states, before.len()) && states.last() == once;
    lemma_record_views(key, before, states, before.len(), before.len());
    lemma_propagate_all(views(before));
    assert forall|index: int| 0 <= index < once.len() implies block_view(
        #[trigger] once[index],
    ).message_modulus == base by {
        assert(views(once)[index] == block_view(once[index]));
    }
    assert forall|index: int| 0 <= index < digits.len() implies #[trigger] held(
        digits,
        base,
        index,
    ) < space(key) by {
        crate::digits::lemma_digits_hold_themselves(digits, base, index);
    }
    lemma_pass_decrypts(key, decrypt, once, twice, base);
    lemma_pass_values_idempotent(numbers, base);
}

/// The sequential pass and the concurrent one decrypt to the same. Both are full passes,
/// so if the scheme is exact and the pass stays within the value space, any two results
/// of a pass over the same blocks hold the same numbers, block for block.
pub proof fn lemma_passes_decrypt_the_same(
    key: EvaluationKey,
    decrypt: spec_fn(Block) -> nat,
    before: Seq<Block>,
    sequential: Seq<Block>,
    concurrent: Seq<Block>,
    base: nat,
)
    requires
        exact(key, decrypt),
        passed(key, before, sequential),
        passed(key, before, concurrent),
        same_base(before, base),
        base >= 1,
        within_space(key, values(decrypt, before), base),
    ensures
        values(decrypt, sequential) == values(decrypt, concurrent),
        integer_of(values(decrypt, sequential), base) == integer_of(
            values(decrypt, concurrent),
            base,
        ),
{
    lemma_pass_decrypts(key, decrypt, before, sequential, base);
    lemma_pass_decrypts(key, decrypt, before, concurrent, base);
}

/// Trivial encryptions of zero stand for zero, however many there are, under every
/// decryption that reads a trivial encryption for what it is.
pub proof fn lemma_trivial_zero_decrypts_to_zero(
    key: EvaluationKey,
    decrypt: spec_fn(Block) -> nat,
    blocks: Seq<Block>,
    base: nat,
)
    requires
        reads_trivial(key, decrypt),
        key_view(key).message_modulus >= 1,
        forall|index: int| 0 <= index < blocks.len() ==> (#[trigger] blocks[index]) == trivial_of(key, 0),
    ensures
        forall|index: int| 0 <= index < blocks.len() ==> decrypt(#[trigger] blocks[index]) == 0,
        integer_of(values(decrypt, blocks), base) == 0,
{
    let numbers = values(decrypt, blocks);
    lemma_zeros_stand_for_zero(numbers, base, numbers.len());
}

/// Zeros weigh nothing.
proof fn lemma_zeros_stand_for_zero(numbers: Seq<nat>, base: nat, count: nat)
    requires
        count <= numbers.len(),
        forall|index: int| 0 <= index < numbers.len() ==> (#[trigger] numbers[index]) == 0,
    ensures
        weighted(numbers, base, count) == 0,
    decreases count,
{
    if count > 0 {
        lemma_zeros_stand_for_zero(numbers, base, (count - 1) as nat);
    }
}

/// Within the headroom a pass stays within the value space. When the blocks have the
/// moduli of the key and none holds more than the headroom, no block comes to hold as
/// much as the value space in a full pass, so that an exact scheme gets every step right.
pub proof fn lemma_headroom_keeps_within_space(
    key: EvaluationKey,
    decrypt: spec_fn(Block) -> nat,
    blocks: Seq<Block>,
)
    requires
        has_headroom(key_view(key).message_modulus, key_view(key).carry_modulus),
        forall|index: int|
            0 <= index < blocks.len() ==> decrypt(#[trigger] blocks[index]) <= headroom(
                key_view(key).message_modulus,
                key_view(key).carry_modulus,
            ),
    ensures
        within_space(key, values(decrypt, blocks), key_view(key).message_modulus),
{
    let numbers = values(decrypt, blocks);
    let base = key_view(key).message_modulus;
    let room = key_view(key).carry_modulus;
    assert forall|index: int| 0 <= index < numbers.len() implies #[trigger] held(
        numbers,
        base,
        index,
    ) < space(key) by {
        lemma_headroom_holds(numbers, base, room, index);
    }
}

} // verus!
