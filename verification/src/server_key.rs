//! The server key, and the operations that keep an encrypted integer in order.

use crate::ciphertext::{Ciphertext, KeyId};
use crate::client_key::ClientKey;
use crate::headroom::{has_headroom, headroom, max_degree_for};
use crate::propagation::{
    accumulated, all_messages, block_fits, is_record, lemma_accumulated_keeps_shape,
    lemma_pass_cleans, lemma_pass_possible, lemma_propagate_all, pass_fits, pass_possible,
    lemma_record_grows, passed, propagate_all, propagate_first, propagate_step,
    step_possible, stepped,
};
use crate::shortint::{
    add_assign, block_shape, block_view, carry_extract, generate_key, is_carry, is_message,
    key_parameters, key_shape, key_view, message_extract, parameters_shape, set_max_degree,
    trivial_block, trivial_of, with_max_degree, BlockShape, KeyView,
};
use concrete_shortint::Ciphertext as Block;
use concrete_shortint::ServerKey as EvaluationKey;
use vstd::prelude::*;

verus! {

/// The server's key: the public key of the single-block scheme, with the headroom of a
/// block as its maximum degree.
///
/// The client generates it and publishes it. The server needs nothing else to compute on
/// encrypted integers. It is never changed after it was made.
pub struct ServerKey {
    pub key: EvaluationKey,
}

impl Clone for ServerKey {
    /// A copy of the key.
    fn clone(&self) -> (copy: ServerKey)
        ensures
            copy == *self,
    {
        ServerKey { key: self.key.clone() }
    }
}

impl View for ServerKey {
    type V = KeyView;

    open spec fn view(&self) -> KeyView {
        key_view(self.key)
    }
}

impl ServerKey {
    /// Generates a server key from the client's key.
    ///
    /// The maximum degree of the new key is the headroom that the client's moduli give:
    /// `(B - 1) * C - 1`, which leaves just enough room to add one carry.
    ///
    /// The client key must be one whose secret keys go with its parameters, as every key
    /// from `ClientKey::new` is. `ClientKey::is_generation_possible` tests the rest.
    pub fn new(cks: &ClientKey) -> (sks: ServerKey)
        requires
            has_headroom(cks@.message_modulus, cks@.carry_modulus),
            cks@.supports_generation(),
            cks.secret_keys_fit(),
        ensures
            sks@.max_degree == headroom(cks@.message_modulus, cks@.carry_modulus),
            sks@.message_modulus == cks@.message_modulus,
            sks@.carry_modulus == cks@.carry_modulus,
            sks@.dimensions_fit(),
            cks@.message_modulus * cks@.carry_modulus <= usize::MAX ==> sks@.well_formed(),
    {
        let parameters = parameters_shape(&key_parameters(&cks.key));
        let max = max_degree_for(parameters.message_modulus, parameters.carry_modulus).unwrap();
        assert(parameters.message_modulus * parameters.carry_modulus >= 1) by (nonlinear_arith)
            requires
                0 <= (parameters.message_modulus - 1) * parameters.carry_modulus - 1,
                parameters.message_modulus >= 0,
                parameters.carry_modulus >= 0,
        ;
        ServerKey { key: generate_key(&cks.key, max) }
    }

    /// Makes a server key of a single-block key that exists already.
    ///
    /// Only the maximum degree of `key` is replaced, by the headroom that the client's
    /// moduli give. A key that has this maximum degree already is taken as it is, so
    /// that adopting an adopted key again changes nothing.
    pub fn from_shortint(cks: &ClientKey, key: EvaluationKey) -> (sks: ServerKey)
        requires
            has_headroom(cks@.message_modulus, cks@.carry_modulus),
        ensures
            sks.key == with_max_degree(
                key,
                headroom(cks@.message_modulus, cks@.carry_modulus) as usize,
            ),
            sks@ == (KeyView {
                max_degree: headroom(cks@.message_modulus, cks@.carry_modulus) as nat,
                ..key_view(key)
            }),
            key_view(key).max_degree == headroom(cks@.message_modulus, cks@.carry_modulus)
                ==> sks.key == key,
    {
        let parameters = parameters_shape(&key_parameters(&cks.key));
        let max = max_degree_for(parameters.message_modulus, parameters.carry_modulus).unwrap();
        let mut key = key;
        set_max_degree(&mut key, max);
        ServerKey { key }
    }

    /// Creates a ciphertext of `size` blocks that holds zero.
    ///
    /// Each block is a trivial encryption of the digit 0: anyone can read it, and it hides
    /// nothing. The two vectors of tags go into the result as they are.
    pub fn create_trivial_zero(
        &self,
        size: usize,
        message_modulus_vec: Vec<u64>,
        key_id_vec: Vec<KeyId>,
    ) -> (ct: Ciphertext)
        requires
            size > 0 ==> 1 <= self@.message_modulus * self@.carry_modulus <= usize::MAX,
        ensures
            ct.ct_vec@.len() == size,
            forall|i: int| 0 <= i < size ==> (#[trigger] ct.views()[i]) == self@.trivial(0),
            forall|i: int| 0 <= i < size ==> (#[trigger] ct.ct_vec@[i]) == trivial_of(self.key, 0),
            ct.message_modulus_vec@ == message_modulus_vec@,
            ct.key_id_vec@ == key_id_vec@,
            ct.well_formed() <==> {
                &&& message_modulus_vec@.len() == 0 || message_modulus_vec@.len() == size
                &&& key_id_vec@.len() == 0 || key_id_vec@.len() == size
            },
    {
        let mut vec_res = Vec::<Block>::with_capacity(size);
        for i in 0..size
            invariant
                size > 0 ==> 1 <= self@.message_modulus * self@.carry_modulus <= usize::MAX,
                vec_res@.len() == i,
                forall|j: int| 0 <= j < i ==> block_view(#[trigger] vec_res@[j]) == self@.trivial(0),
                forall|j: int| 0 <= j < i ==> (#[trigger] vec_res@[j]) == trivial_of(self.key, 0),
        {
            vec_res.push(trivial_block(&self.key, 0_u8));
        }
        Ciphertext { ct_vec: vec_res, message_modulus_vec, key_id_vec }
    }

    /// Propagates the carry of the block at `index` into the next block.
    ///
    /// The block at `index` is replaced by its message, so that it holds a single digit
    /// again. Its carry is added into the block at `index + 1`; the carry of the last
    /// block is dropped. No other block is touched.
    ///
    /// # One kind of key per thread
    ///
    /// The single-block scheme keeps one scratch buffer per thread for all keys that
    /// agree in GLWE dimension and polynomial size, sized for the first of them that the
    /// thread extracts under. A thread that has propagated under one such key must not
    /// propagate under another that differs from it in the dimension between key switch
    /// and bootstrap: the scheme fails there. This is not a condition on the arguments;
    /// `requires` does not state it, and `is_propagate_possible` cannot test it.
    pub fn propagate(&self, ctxt: &mut Ciphertext, index: usize)
        requires
            step_possible(self@, old(ctxt).views(), index as int),
        ensures
            stepped(self.key, old(ctxt).ct_vec@, index as int, final(ctxt).ct_vec@),
            final(ctxt).views() == propagate_step(old(ctxt).views(), index as int),
            final(ctxt).same_tags(old(ctxt)),
            final(ctxt).well_formed() == old(ctxt).well_formed(),
    {
        let carry = carry_extract(&self.key, &ctxt.ct_vec[index]);
        let message = message_extract(&self.key, &ctxt.ct_vec[index]);
        ctxt.ct_vec[index] = message;

        if index < ctxt.ct_vec.len() - 1 {
            add_assign(&self.key, &mut ctxt.ct_vec[index + 1], &carry);
        }
        assert(ctxt.views() =~= propagate_step(old(ctxt).views(), index as int));
    }

    /// Propagates all the carries, from the least significant block upwards.
    ///
    /// Afterwards every block holds a single digit: its degree is `B - 1`.
    ///
    /// # One kind of key per thread
    ///
    /// The single-block scheme keeps one scratch buffer per thread for all keys that
    /// agree in GLWE dimension and polynomial size, sized for the first of them that the
    /// thread extracts under. A thread that has propagated under one such key must not
    /// propagate under another that differs from it in the dimension between key switch
    /// and bootstrap: the scheme fails there. This is not a condition on the arguments;
    /// `requires` does not state it, and `is_full_propagate_possible` cannot test it.
    pub fn full_propagate(&self, ctxt: &mut Ciphertext)
        requires
            pass_possible(self@, old(ctxt).views()),
        ensures
            passed(self.key, old(ctxt).ct_vec@, final(ctxt).ct_vec@),
            final(ctxt).views() == propagate_all(old(ctxt).views()),
            final(ctxt).views() == all_messages(old(ctxt).views()),
            forall|i: int|
                0 <= i < final(ctxt).views().len() ==> (#[trigger] final(ctxt).views()[i]).is_clean(),
            final(ctxt).same_tags(old(ctxt)),
            final(ctxt).ct_vec@.len() == old(ctxt).ct_vec@.len(),
            final(ctxt).well_formed() == old(ctxt).well_formed(),
    {
        proof {
            lemma_propagate_all(old(ctxt).views());
            lemma_pass_cleans(self@, old(ctxt).views());
        }
        let len = ctxt.ct_vec.len();
        let ghost mut states: Seq<Seq<Block>> = seq![ctxt.ct_vec@];
        for i in 0..len
            invariant
                len == old(ctxt).ct_vec@.len(),
                ctxt.ct_vec@.len() == len,
                pass_possible(self@, old(ctxt).views()),
                ctxt.views() == propagate_first(old(ctxt).views(), i as nat),
                ctxt.same_tags(old(ctxt)),
                ctxt.well_formed() == old(ctxt).well_formed(),
                is_record(self.key, old(ctxt).ct_vec@, states, i as nat),
                states.last() == ctxt.ct_vec@,
        {
            self.propagate(ctxt, i);
            proof {
                lemma_record_grows(self.key, old(ctxt).ct_vec@, states, i as nat, ctxt.ct_vec@);
                states = states.push(ctxt.ct_vec@);
            }
        }
    }
}

/// The same operations, with the two extractions of a step run concurrently.
impl ServerKey {
    /// Creates a ciphertext of `size` blocks that holds zero.
    ///
    /// This does what `create_trivial_zero` does.
    pub fn create_trivial_zero_parallelized(
        &self,
        size: usize,
        message_modulus_vec: Vec<u64>,
        key_id_vec: Vec<KeyId>,
    ) -> (ct: Ciphertext)
        requires
            size > 0 ==> 1 <= self@.message_modulus * self@.carry_modulus <= usize::MAX,
        ensures
            ct.ct_vec@.len() == size,
            forall|i: int| 0 <= i < size ==> (#[trigger] ct.views()[i]) == self@.trivial(0),
            forall|i: int| 0 <= i < size ==> (#[trigger] ct.ct_vec@[i]) == trivial_of(self.key, 0),
            ct.message_modulus_vec@ == message_modulus_vec@,
            ct.key_id_vec@ == key_id_vec@,
            ct.well_formed() <==> {
                &&& message_modulus_vec@.len() == 0 || message_modulus_vec@.len() == size
                &&& key_id_vec@.len() == 0 || key_id_vec@.len() == size
            },
    {
        self.create_trivial_zero(size, message_modulus_vec, key_id_vec)
    }

    /// Propagates the carry of the block at `index` into the next block.
    ///
    /// The carry and the message are extracted at the same time, both from the block as
    /// it stands before the step. The step ends as the one of `propagate` does.
    ///
    /// # One kind of key per thread
    ///
    /// The single-block scheme keeps one scratch buffer per thread for all keys that
    /// agree in GLWE dimension and polynomial size, sized for the first of them that the
    /// thread extracts under. A thread that has propagated under one such key must not
    /// propagate under another that differs from it in the dimension between key switch
    /// and bootstrap: the scheme fails there. This is not a condition on the arguments;
    /// `requires` does not state it, and `is_propagate_possible` cannot test it. Here
    /// the two extractions may run on two threads of the pool, and it holds of each.
    pub fn propagate_parallelized(&self, ctxt: &mut Ciphertext, index: usize)
        requires
            step_possible(self@, old(ctxt).views(), index as int),
        ensures
            stepped(self.key, old(ctxt).ct_vec@, index as int, final(ctxt).ct_vec@),
            final(ctxt).views() == propagate_step(old(ctxt).views(), index as int),
            final(ctxt).same_tags(old(ctxt)),
            final(ctxt).well_formed() == old(ctxt).well_formed(),
    {
        let key = &self.key;
        let block = &ctxt.ct_vec[index];
        let extract_carry = || -> (carry: Block)
            ensures
                block_view(carry) == block_view(*block).carry(),
                is_carry(*key, *block, carry),
            {
                carry_extract(key, block)
            };
        let extract_message = || -> (message: Block)
            ensures
                block_view(message) == block_view(*block).message(),
                is_message(*key, *block, message),
            {
                message_extract(key, block)
            };
        let (carry, message) = rayon::join(extract_carry, extract_message);
        ctxt.ct_vec[index] = message;

        if index < ctxt.ct_vec.len() - 1 {
            add_assign(&self.key, &mut ctxt.ct_vec[index + 1], &carry);
        }
        assert(ctxt.views() =~= propagate_step(old(ctxt).views(), index as int));
    }

    /// Propagates all the carries, from the least significant block upwards.
    ///
    /// The blocks are still taken one after the other: a block is not looked at before
    /// the carry of the one below has been added into it.
    ///
    /// # One kind of key per thread
    ///
    /// The single-block scheme keeps one scratch buffer per thread for all keys that
    /// agree in GLWE dimension and polynomial size, sized for the first of them that the
    /// thread extracts under. A thread that has propagated under one such key must not
    /// propagate under another that differs from it in the dimension between key switch
    /// and bootstrap: the scheme fails there. This is not a condition on the arguments;
    /// `requires` does not state it, and `is_full_propagate_possible` cannot test it.
    /// It holds of every thread of the pool that an extraction runs on.
    pub fn full_propagate_parallelized(&self, ctxt: &mut Ciphertext)
        requires
            pass_possible(self@, old(ctxt).views()),
        ensures
            passed(self.key, old(ctxt).ct_vec@, final(ctxt).ct_vec@),
            final(ctxt).views() == propagate_all(old(ctxt).views()),
            final(ctxt).views() == all_messages(old(ctxt).views()),
            forall|i: int|
                0 <= i < final(ctxt).views().len() ==> (#[trigger] final(ctxt).views()[i]).is_clean(),
            final(ctxt).same_tags(old(ctxt)),
            final(ctxt).ct_vec@.len() == old(ctxt).ct_vec@.len(),
            final(ctxt).well_formed() == old(ctxt).well_formed(),
    {
        proof {
            lemma_propagate_all(old(ctxt).views());
            lemma_pass_cleans(self@, old(ctxt).views());
        }
        let len = ctxt.ct_vec.len();
        let ghost mut states: Seq<Seq<Block>> = seq![ctxt.ct_vec@];
        for i in 0..len
            invariant
                len == old(ctxt).ct_vec@.len(),
                ctxt.ct_vec@.len() == len,
                pass_possible(self@, old(ctxt).views()),
                ctxt.views() == propagate_first(old(ctxt).views(), i as nat),
                ctxt.same_tags(old(ctxt)),
                ctxt.well_formed() == old(ctxt).well_formed(),
                is_record(self.key, old(ctxt).ct_vec@, states, i as nat),
                states.last() == ctxt.ct_vec@,
        {
            self.propagate_parallelized(ctxt, i);
            proof {
                lemma_record_grows(self.key, old(ctxt).ct_vec@, states, i as nat, ctxt.ct_vec@);
                states = states.push(ctxt.ct_vec@);
            }
        }
    }
}

/// What a caller can ask of a key before it acts: each function here computes one of the
/// conditions that the operations above require.
impl ServerKey {
    /// The degree up to which a block may accumulate under this key.
    pub fn max_degree(&self) -> (max: usize)
        ensures
            max == self@.max_degree,
    {
        key_shape(&self.key).max_degree
    }

    /// The number of digit values of this key, `B`.
    pub fn message_modulus(&self) -> (modulus: usize)
        ensures
            modulus == self@.message_modulus,
    {
        key_shape(&self.key).message_modulus
    }

    /// The room above a digit of this key, `C`.
    pub fn carry_modulus(&self) -> (modulus: usize)
        ensures
            modulus == self@.carry_modulus,
    {
        key_shape(&self.key).carry_modulus
    }

    /// Whether the key is well formed, so that extractions can be made under it.
    pub fn is_well_formed(&self) -> (well_formed: bool)
        ensures
            well_formed == self@.well_formed(),
    {
        let key = key_shape(&self.key);
        let space = key.message_modulus.checked_mul(key.carry_modulus);
        key.fft_ready && key.keyswitch_output == key.bootstrap_input && key.keyswitch_input
            == key.bootstrap_output && match space {
            Some(size) => size >= 1,
            None => false,
        }
    }

    /// Whether `propagate` can be called on `ctxt` at `index`.
    ///
    /// This tests what `propagate` requires of its arguments. It cannot test what the
    /// thread has done before: see "One kind of key per thread" at `propagate`.
    pub fn is_propagate_possible(&self, ctxt: &Ciphertext, index: usize) -> (possible: bool)
        ensures
            possible == step_possible(self@, ctxt.views(), index as int),
    {
        if index >= ctxt.ct_vec.len() || !self.is_well_formed() {
            return false;
        }
        let key = key_shape(&self.key);
        let block = block_shape(&ctxt.ct_vec[index]);
        if block.lwe_dimension != key.keyswitch_input || block.message_modulus < 1 {
            return false;
        }
        if index + 1 < ctxt.ct_vec.len() {
            let next = block_shape(&ctxt.ct_vec[index + 1]);
            next.lwe_dimension == block.lwe_dimension && next.degree.checked_add(
                carry_degree(&block),
            ).is_some()
        } else {
            true
        }
    }

    /// Whether `full_propagate` can be called on `ctxt`.
    ///
    /// The degrees are followed through the pass: each block must have room for the carry
    /// that the block below it will hand on.
    ///
    /// This tests what `full_propagate` requires of its arguments. It cannot test what
    /// the thread has done before: see "One kind of key per thread" at `full_propagate`.
    pub fn is_full_propagate_possible(&self, ctxt: &Ciphertext) -> (possible: bool)
        ensures
            possible == pass_possible(self@, ctxt.views()),
    {
        let ghost blocks = ctxt.views();
        proof {
            lemma_pass_possible(self@, blocks);
        }
        let len = ctxt.ct_vec.len();
        if len == 0 {
            return true;
        }
        if !self.is_well_formed() {
            assert(!block_fits(self@, blocks, 0));
            return false;
        }
        let key = key_shape(&self.key);
        let mut incoming: usize = 0;
        for i in 0..len
            invariant
                len == ctxt.ct_vec@.len(),
                blocks == ctxt.views(),
                pass_possible(self@, blocks) <==> pass_fits(self@, blocks),
                key@ == self@,
                self@.well_formed(),
                forall|j: int| 0 <= j < i ==> #[trigger] block_fits(self@, blocks, j),
                i == 0 ==> incoming == 0,
                i > 0 ==> incoming == accumulated(blocks, i - 1).carry().degree,
        {
            let block = block_shape(&ctxt.ct_vec[i]);
            proof {
                lemma_accumulated_keeps_shape(blocks, i as int);
            }
            if block.lwe_dimension != key.keyswitch_input || block.message_modulus < 1 {
                assert(!block_fits(self@, blocks, i as int));
                return false;
            }
            match block.degree.checked_add(incoming) {
                Some(total) => {
                    let held = BlockShape { degree: total, ..block };
                    incoming = carry_degree(&held);
                },
                None => {
                    assert(!block_fits(self@, blocks, i as int));
                    return false;
                },
            }
        }
        true
    }
}

/// The degree of the carry that is extracted from a block: `min(B - 1, degree / B)`.
fn carry_degree(block: &BlockShape) -> (degree: usize)
    requires
        block.message_modulus >= 1,
    ensures
        degree == block@.carry().degree,
{
    let quotient = block.degree / block.message_modulus;
    if quotient <= block.message_modulus - 1 {
        quotient
    } else {
        block.message_modulus - 1
    }
}

/// Generating a key and adopting one give the same maximum degree: under one client key
/// both come to the headroom of its moduli.
pub proof fn lemma_generated_and_adopted_agree(
    cks: ClientKey,
    generated: ServerKey,
    key: EvaluationKey,
    adopted: ServerKey,
)
    requires
        has_headroom(cks@.message_modulus, cks@.carry_modulus),
        generated@.max_degree == headroom(cks@.message_modulus, cks@.carry_modulus),
        adopted@ == (KeyView {
            max_degree: headroom(cks@.message_modulus, cks@.carry_modulus) as nat,
            ..key_view(key)
        }),
    ensures
        generated@.max_degree == adopted@.max_degree,
        adopted@.max_degree == (cks@.message_modulus - 1) * cks@.carry_modulus - 1,
{
}

} // verus!
