//! Carry propagation, step by step: what a step does to the degrees of the blocks, when a
//! step can be made, what a whole pass comes to, and which block comes from which.

use crate::shortint::{block_view, is_carry, is_message, sum_of, BlockView, KeyView};
use concrete_shortint::Ciphertext as Block;
use concrete_shortint::ServerKey as EvaluationKey;
use vstd::prelude::*;

verus! {

/// One step at block `index`: the block is replaced by its message, and its carry is added
/// into the next block, if there is one.
pub open spec fn propagate_step(blocks: Seq<BlockView>, index: int) -> Seq<BlockView>
    recommends
        0 <= index < blocks.len(),
{
    let emptied = blocks.update(index, blocks[index].message());
    if index + 1 < blocks.len() {
        emptied.update(index + 1, blocks[index + 1].plus(blocks[index].carry()))
    } else {
        emptied
    }
}

/// The steps at the blocks `0`, `1`, up to `count - 1`, made in that order.
pub open spec fn propagate_first(blocks: Seq<BlockView>, count: nat) -> Seq<BlockView>
    recommends
        count <= blocks.len(),
    decreases count,
{
    if count == 0 {
        blocks
    } else {
        propagate_step(propagate_first(blocks, (count - 1) as nat), count - 1)
    }
}

/// A full pass: one step at every block, in ascending order.
pub open spec fn propagate_all(blocks: Seq<BlockView>) -> Seq<BlockView> {
    propagate_first(blocks, blocks.len())
}

/// The step at block `index` can be made under `key`: the block is there, the key is well
/// formed and takes the block, and the next block, if there is one, has the same
/// dimension and a degree that leaves room for the carry in a machine word.
pub open spec fn step_possible(key: KeyView, blocks: Seq<BlockView>, index: int) -> bool {
    &&& 0 <= index < blocks.len()
    &&& key.well_formed()
    &&& key.takes(blocks[index])
    &&& index + 1 < blocks.len() ==> {
        &&& blocks[index + 1].lwe_dimension == blocks[index].lwe_dimension
        &&& blocks[index + 1].degree + blocks[index].carry().degree <= usize::MAX
    }
}

/// A full pass can be made under `key`: each of its steps can, when its turn comes.
pub open spec fn pass_possible(key: KeyView, blocks: Seq<BlockView>) -> bool {
    forall|index: nat|
        index < blocks.len() ==> step_possible(
            key,
            #[trigger] propagate_first(blocks, index),
            index as int,
        )
}

/// What block `index` has accumulated when its turn comes in a full pass: what it held,
/// and the carry of the block before it.
pub open spec fn accumulated(blocks: Seq<BlockView>, index: int) -> BlockView
    recommends
        0 <= index < blocks.len(),
    decreases index,
{
    if index <= 0 {
        blocks[0]
    } else {
        blocks[index].plus(accumulated(blocks, index - 1).carry())
    }
}

/// Every block replaced by its message.
pub open spec fn all_messages(blocks: Seq<BlockView>) -> Seq<BlockView> {
    blocks.map_values(|block: BlockView| block.message())
}

/// Apart from its degree, what a block has accumulated is what it held.
pub proof fn lemma_accumulated_keeps_shape(blocks: Seq<BlockView>, index: int)
    requires
        0 <= index < blocks.len(),
    ensures
        accumulated(blocks, index).message_modulus == blocks[index].message_modulus,
        accumulated(blocks, index).carry_modulus == blocks[index].carry_modulus,
        accumulated(blocks, index).lwe_dimension == blocks[index].lwe_dimension,
        accumulated(blocks, index).message() == blocks[index].message(),
{
}

/// After the first `count` steps of a pass, the blocks before `count` hold their
/// messages, block `count` holds what it has accumulated, and the blocks behind it are
/// untouched.
pub proof fn lemma_propagate_first(blocks: Seq<BlockView>, count: nat)
    requires
        count <= blocks.len(),
    ensures
        propagate_first(blocks, count).len() == blocks.len(),
        forall|j: int|
            0 <= j < count ==> (#[trigger] propagate_first(blocks, count)[j])
                == blocks[j].message(),
        count < blocks.len() ==> propagate_first(blocks, count)[count as int] == accumulated(
            blocks,
            count as int,
        ),
        forall|j: int|
            count < j < blocks.len() ==> (#[trigger] propagate_first(blocks, count)[j])
                == blocks[j],
    decreases count,
{
    if count > 0 {
        let before = (count - 1) as nat;
        lemma_propagate_first(blocks, before);
        lemma_accumulated_keeps_shape(blocks, before as int);
    }
}

/// A full pass leaves every block with its message: the degree of each block is `B - 1`,
/// whatever the block had accumulated.
pub proof fn lemma_propagate_all(blocks: Seq<BlockView>)
    ensures
        propagate_all(blocks) == all_messages(blocks),
{
    lemma_propagate_first(blocks, blocks.len());
}

/// Block `index` is ready for a full pass under `key`: the key is well formed and takes
/// the block, and what the block accumulates from the one before it fits in a machine
/// word.
pub open spec fn block_fits(key: KeyView, blocks: Seq<BlockView>, index: int) -> bool {
    &&& key.well_formed()
    &&& key.takes(blocks[index])
    &&& index > 0 ==> accumulated(blocks, index).degree <= usize::MAX
}

/// When a full pass can be made, said without its steps: every block is ready for it.
pub open spec fn pass_fits(key: KeyView, blocks: Seq<BlockView>) -> bool {
    forall|index: int| 0 <= index < blocks.len() ==> #[trigger] block_fits(key, blocks, index)
}

/// The two ways of saying that a full pass can be made agree.
pub proof fn lemma_pass_possible(key: KeyView, blocks: Seq<BlockView>)
    ensures
        pass_possible(key, blocks) <==> pass_fits(key, blocks),
{
    if pass_possible(key, blocks) {
        assert forall|index: int| 0 <= index < blocks.len() implies #[trigger] block_fits(
            key,
            blocks,
            index,
        ) by {
            lemma_propagate_first(blocks, index as nat);
            lemma_accumulated_keeps_shape(blocks, index);
            if index > 0 {
                lemma_propagate_first(blocks, (index - 1) as nat);
                lemma_accumulated_keeps_shape(blocks, index - 1);
            }
        }
    }
    if pass_fits(key, blocks) {
        assert forall|index: nat| index < blocks.len() implies step_possible(
            key,
            #[trigger] propagate_first(blocks, index),
            index as int,
        ) by {
            lemma_propagate_first(blocks, index);
            lemma_accumulated_keeps_shape(blocks, index as int);
            assert(block_fits(key, blocks, index as int));
            if index + 1 < blocks.len() {
                assert(block_fits(key, blocks, index as int + 1));
            }
        }
    }
}

/// In a sequence of messages, a block accumulates nothing: the carry of a single digit is
/// zero.
pub proof fn lemma_messages_accumulate_nothing(blocks: Seq<BlockView>, index: int)
    requires
        0 <= index < blocks.len(),
        forall|j: int| 0 <= j < blocks.len() ==> (#[trigger] blocks[j]).message_modulus >= 1,
    ensures
        accumulated(all_messages(blocks), index) == blocks[index].message(),
    decreases index,
{
    if index > 0 {
        lemma_messages_accumulate_nothing(blocks, index - 1);
        let below = blocks[index - 1];
        assert((below.message_modulus - 1) / (below.message_modulus as int) == 0) by (nonlinear_arith)
            requires
                below.message_modulus >= 1,
        ;
    }
}

/// After a full pass every block is clean.
pub proof fn lemma_pass_cleans(key: KeyView, blocks: Seq<BlockView>)
    requires
        pass_possible(key, blocks),
    ensures
        forall|index: int|
            0 <= index < blocks.len() ==> (#[trigger] propagate_all(blocks)[index]).is_clean(),
{
    lemma_propagate_all(blocks);
    lemma_pass_possible(key, blocks);
    assert forall|index: int| 0 <= index < blocks.len() implies (#[trigger] propagate_all(
        blocks,
    )[index]).is_clean() by {
        assert(block_fits(key, blocks, index));
    }
}

/// A full pass is idempotent in the clear: after one pass a second one can be made, and it
/// leaves every degree as the first left it.
pub proof fn lemma_second_pass_changes_nothing(key: KeyView, blocks: Seq<BlockView>)
    requires
        pass_possible(key, blocks),
    ensures
        pass_possible(key, propagate_all(blocks)),
        propagate_all(propagate_all(blocks)) == propagate_all(blocks),
{
    let once = all_messages(blocks);
    lemma_propagate_all(blocks);
    lemma_propagate_all(once);
    lemma_pass_possible(key, blocks);
    assert forall|index: int| 0 <= index < once.len() implies #[trigger] block_fits(
        key,
        once,
        index,
    ) by {
        assert(block_fits(key, blocks, index));
        assert forall|j: int| 0 <= j < blocks.len() implies (#[trigger] blocks[j]).message_modulus
            >= 1 by {
            assert(block_fits(key, blocks, j));
        }
        lemma_messages_accumulate_nothing(blocks, index);
    }
    lemma_pass_possible(key, once);
}

/// A trivial zero can be propagated: under a well-formed key, a full pass can be made
/// over blocks that the key made as trivial encryptions of zero.
pub proof fn lemma_trivial_zero_passes(key: KeyView, blocks: Seq<BlockView>)
    requires
        key.well_formed(),
        forall|index: int| 0 <= index < blocks.len() ==> (#[trigger] blocks[index]) == key.trivial(0),
    ensures
        pass_possible(key, blocks),
{
    let b = key.message_modulus as int;
    let c = key.carry_modulus as int;
    assert(1 <= b <= usize::MAX) by (nonlinear_arith)
        requires
            0 <= b,
            0 <= c,
            1 <= b * c <= usize::MAX,
    ;
    assert forall|index: int| 0 <= index < blocks.len() implies #[trigger] block_fits(
        key,
        blocks,
        index,
    ) by {
        lemma_trivial_zero_accumulates_nothing(key, blocks, index);
    }
    lemma_pass_possible(key, blocks);
}

/// In a trivial zero no block accumulates anything.
proof fn lemma_trivial_zero_accumulates_nothing(key: KeyView, blocks: Seq<BlockView>, index: int)
    requires
        key.message_modulus >= 1,
        forall|j: int| 0 <= j < blocks.len() ==> (#[trigger] blocks[j]) == key.trivial(0),
        0 <= index < blocks.len(),
    ensures
        accumulated(blocks, index) == key.trivial(0),
        key.trivial(0).degree == 0,
    decreases index,
{
    if index > 0 {
        lemma_trivial_zero_accumulates_nothing(key, blocks, index - 1);
    }
}

/// The clear parts of a sequence of blocks.
pub open spec fn views(blocks: Seq<Block>) -> Seq<BlockView> {
    blocks.map_values(|block: Block| block_view(block))
}

/// `after` is what a step at `index` under `key` has made of `before`: the block at
/// `index` is the message of the one that was there, the next block, if there is one, is
/// the sum of the one that was there and the carry, and every other block is the same
/// block as before. In the clear, this is `propagate_step`.
pub open spec fn stepped(key: EvaluationKey, before: Seq<Block>, index: int, after: Seq<Block>) -> bool {
    &&& after.len() == before.len()
    &&& views(after) == propagate_step(views(before), index)
    &&& is_message(key, before[index], after[index])
    &&& index + 1 < before.len() ==> exists|carry: Block| #[trigger]
        is_carry(key, before[index], carry) && after[index + 1] == sum_of(before[index + 1], carry)
    &&& forall|j: int|
        0 <= j < before.len() && j != index && j != index + 1 ==> (#[trigger] after[j])
            == before[j]
}

/// In `states`, the state behind the one at `index` is what the step at `index` has made
/// of it.
pub open spec fn step_recorded(key: EvaluationKey, states: Seq<Seq<Block>>, index: int) -> bool {
    stepped(key, states[index], index, states[index + 1])
}

/// `states` records the first `count` steps of a pass over `before`: it starts with
/// `before`, and each state is what the step at its index has made of the state before
/// it.
pub open spec fn is_record(
    key: EvaluationKey,
    before: Seq<Block>,
    states: Seq<Seq<Block>>,
    count: nat,
) -> bool {
    &&& states.len() == count + 1
    &&& states[0] == before
    &&& forall|index: int| 0 <= index < count ==> #[trigger] step_recorded(key, states, index)
}

/// A record grows by a step: when `states` records the first `count` steps and `next` is
/// what the step at `count` has made of its last state, `states` with `next` behind it
/// records the first `count + 1` steps.
pub proof fn lemma_record_grows(
    key: EvaluationKey,
    before: Seq<Block>,
    states: Seq<Seq<Block>>,
    count: nat,
    next: Seq<Block>,
)
    requires
        is_record(key, before, states, count),
        stepped(key, states.last(), count as int, next),
    ensures
        is_record(key, before, states.push(next), count + 1),
        states.push(next).last() == next,
{
    let longer = states.push(next);
    assert forall|index: int| 0 <= index < count + 1 implies #[trigger] step_recorded(
        key,
        longer,
        index,
    ) by {
        if index < count {
            assert(step_recorded(key, states, index));
        }
    }
}

/// `after` is what a full pass under `key` has made of `before`: one step at every block,
/// in ascending order, each on what the steps before it have left.
pub open spec fn passed(key: EvaluationKey, before: Seq<Block>, after: Seq<Block>) -> bool {
    exists|states: Seq<Seq<Block>>| #[trigger]
        is_record(key, before, states, before.len()) && states.last() == after
}

/// Every state of a record shows in the clear what the steps so far come to.
pub proof fn lemma_record_views(
    key: EvaluationKey,
    before: Seq<Block>,
    states: Seq<Seq<Block>>,
    count: nat,
    index: nat,
)
    requires
        is_record(key, before, states, count),
        index <= count,
    ensures
        states[index as int].len() == before.len(),
        views(states[index as int]) == propagate_first(views(before), index),
    decreases index,
{
    if index > 0 {
        lemma_record_views(key, before, states, count, (index - 1) as nat);
        assert(step_recorded(key, states, index - 1));
    }
}

} // verus!
