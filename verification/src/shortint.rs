//! The single-block scheme underneath this library: its types, what they show in the clear,
//! and every call this library makes into it.
//!
//! A block, an evaluation key, a client key and a set of parameters stay values of
//! `concrete_shortint`; Verus cannot look inside them. What the contracts of this library
//! need of them is a handful of integers that each carries. `block_view`, `key_view` and
//! `parameters_view` name the integers that can be read in the clear, and
//! `secret_keys_view` names the sizes of the secret keys inside a client key, which
//! cannot. The functions at the end of this module say what each call does to them.
//! `parameters_of`, `with_max_degree`, `sum_of` and `trivial_of` name values that the
//! scheme computes from its arguments alone. `is_carry` and `is_message` name which block
//! came out of which extraction, and say nothing else of it.
//!
//! None of the contracts in this module is proved. They restate the bookkeeping that the
//! scheme's source performs, and leave out the inputs on which its source gives up. The
//! rest of the library is verified against them. Nothing here speaks of what a block
//! decrypts to.
//!
//! The scheme allocates its keys and blocks as `Vec` does, without asking. That the
//! memory for them can be had is no part of any contract here.
//!
//! # One scratch buffer per thread
//!
//! One condition on the two extractions is not a condition on their arguments, and no
//! contract here can state it. The scheme keeps, on every thread, one scratch buffer for
//! all evaluation keys that agree in GLWE dimension and polynomial size, and sizes it for
//! the first such key that the thread extracts under. An extraction under a second key
//! that agrees with the first in those two sizes and has another dimension between key
//! switch and bootstrap fails on that thread, although each of the two keys is well
//! formed and works alone. A thread must therefore not extract under two such keys. The
//! propagation functions of this library inherit the condition.

use concrete_core::prelude::{
    FftError, LweBootstrapKeyEntity, LweCiphertextEntity, LweKeyswitchKeyEntity,
};
use concrete_shortint::server_key::MaxDegree;
use concrete_shortint::Ciphertext as Block;
use concrete_shortint::ClientKey as SecretKey;
use concrete_shortint::Parameters;
use concrete_shortint::ServerKey as EvaluationKey;
use vstd::prelude::*;

verus! {

/// One encrypted digit.
#[verifier::external_type_specification]
#[verifier::external_body]
pub struct ExBlock(Block);

/// The public key material that the single-block operations take.
#[verifier::external_type_specification]
#[verifier::external_body]
pub struct ExEvaluationKey(EvaluationKey);

/// The secret key material, with the parameters it was generated from.
#[verifier::external_type_specification]
#[verifier::external_body]
pub struct ExSecretKey(SecretKey);

/// The cryptographic parameters that the client chooses.
#[verifier::external_type_specification]
#[verifier::external_body]
pub struct ExParameters(Parameters);

/// What a block carries in the clear.
pub struct BlockView {
    /// The bound that the scheme keeps on the value the block has accumulated.
    pub degree: nat,
    /// The number of digit values, `B`.
    pub message_modulus: nat,
    /// The room above a digit, `C`.
    pub carry_modulus: nat,
    /// The dimension of the LWE ciphertext that holds the value.
    pub lwe_dimension: nat,
}

/// What an evaluation key carries in the clear.
pub struct KeyView {
    pub message_modulus: nat,
    pub carry_modulus: nat,
    /// The degree up to which a block may accumulate before it has to be cleaned.
    pub max_degree: nat,
    /// The LWE dimension that the key-switching key takes and the one it gives.
    pub keyswitch_input: nat,
    pub keyswitch_output: nat,
    /// The LWE dimension that the bootstrapping key takes and the one it gives.
    pub bootstrap_input: nat,
    pub bootstrap_output: nat,
    /// Whether the Fourier transform accepts the key's polynomial size.
    pub fft_ready: bool,
}

/// The integers of a set of parameters that key generation reads.
pub struct ParametersView {
    pub message_modulus: nat,
    pub carry_modulus: nat,
    pub lwe_dimension: nat,
    pub glwe_dimension: nat,
    pub polynomial_size: nat,
    pub pbs_base_log: nat,
    pub pbs_level: nat,
    pub ks_base_log: nat,
    pub ks_level: nat,
    /// Whether the Fourier transform accepts the polynomial size.
    pub fft_ready: bool,
}

/// The sizes of the three secret keys inside a client key.
pub struct SecretKeysView {
    /// The dimension of the LWE key that blocks are encrypted under.
    pub large_dimension: nat,
    /// The dimension of the LWE key that a key switch leads to.
    pub small_dimension: nat,
    /// The dimension and the polynomial size of the GLWE key.
    pub glwe_dimension: nat,
    pub polynomial_size: nat,
}

/// The fields `degree`, `message_modulus` and `carry_modulus` of a block, and the LWE
/// dimension of its field `ct`.
pub uninterp spec fn block_view(block: Block) -> BlockView;

/// The fields `message_modulus`, `carry_modulus` and `max_degree` of an evaluation key, the
/// dimensions of its two keys, and the outcome of the Fourier transform's check on the
/// polynomial size of its bootstrapping key.
pub uninterp spec fn key_view(key: EvaluationKey) -> KeyView;

/// The integer fields of a set of parameters, and the outcome of the Fourier transform's
/// check on its polynomial size.
pub uninterp spec fn parameters_view(parameters: Parameters) -> ParametersView;

/// The field `parameters` of a client key.
pub uninterp spec fn parameters_of(key: SecretKey) -> Parameters;

/// The dimensions and the polynomial size of the secret keys that a client key holds.
/// They are private to the scheme: only what the scheme says of the keys it generates
/// tells them.
pub uninterp spec fn secret_keys_view(key: SecretKey) -> SecretKeysView;

/// The evaluation key `key` with `max_degree` in its field of that name, and every other
/// field as it is.
pub uninterp spec fn with_max_degree(key: EvaluationKey, max_degree: usize) -> EvaluationKey;

/// The block that `left` becomes when `right` is added into it.
pub uninterp spec fn sum_of(left: Block, right: Block) -> Block;

/// The trivial encryption of `value` under `key`.
pub uninterp spec fn trivial_of(key: EvaluationKey, value: u8) -> Block;

/// `carry` is a block that the scheme gives as the carry of `block` under `key`. The
/// bootstrap behind it computes in floating point, and two machines need not give the
/// same block: this says which blocks belong together, not what the carry is.
pub uninterp spec fn is_carry(key: EvaluationKey, block: Block, carry: Block) -> bool;

/// `message` is a block that the scheme gives as the message of `block` under `key`.
pub uninterp spec fn is_message(key: EvaluationKey, block: Block, message: Block) -> bool;

impl BlockView {
    /// The clear part of the carry that is extracted from a block: the degree becomes
    /// `min(B - 1, degree / B)`.
    pub open spec fn carry(self) -> BlockView
        recommends
            self.message_modulus >= 1,
    {
        let b = self.message_modulus;
        let quotient = self.degree / b;
        BlockView {
            degree: if quotient <= b - 1 { quotient } else { (b - 1) as nat },
            ..self
        }
    }

    /// The clear part of the message that is extracted from a block: the degree becomes
    /// `B - 1`.
    pub open spec fn message(self) -> BlockView
        recommends
            self.message_modulus >= 1,
    {
        BlockView { degree: (self.message_modulus - 1) as nat, ..self }
    }

    /// The clear part of a block after another block was added into it: the degrees add
    /// up.
    pub open spec fn plus(self, other: BlockView) -> BlockView {
        BlockView { degree: self.degree + other.degree, ..self }
    }

    /// The block has accumulated no more than a single digit: its degree is below `B`.
    pub open spec fn is_clean(self) -> bool {
        self.degree < self.message_modulus
    }
}

impl KeyView {
    /// The two keys inside fit each other, and the Fourier transform takes them.
    pub open spec fn dimensions_fit(self) -> bool {
        &&& self.keyswitch_output == self.bootstrap_input
        &&& self.keyswitch_input == self.bootstrap_output
        &&& self.fft_ready
    }

    /// The key can be used for every single-block operation: its dimensions fit, and the
    /// size `B * C` of its value space is at least 1 and fits in a machine word.
    pub open spec fn well_formed(self) -> bool {
        &&& self.dimensions_fit()
        &&& 1 <= self.message_modulus * self.carry_modulus <= usize::MAX
    }

    /// A block that this key can extract from: it has the dimension the key takes, and
    /// at least one digit value. Its `B` is a machine word, as that of every block is.
    pub open spec fn takes(self, block: BlockView) -> bool {
        &&& block.lwe_dimension == self.keyswitch_input
        &&& 1 <= block.message_modulus <= usize::MAX
    }

    /// The clear part of the trivial encryption of `value` under this key.
    pub open spec fn trivial(self, value: nat) -> BlockView
        recommends
            self.message_modulus >= 1,
    {
        BlockView {
            degree: value % self.message_modulus,
            message_modulus: self.message_modulus,
            carry_modulus: self.carry_modulus,
            lwe_dimension: self.bootstrap_output,
        }
    }
}

impl ParametersView {
    /// Secret keys can be generated for the parameters: no dimension is 0, a polynomial
    /// has at least two coefficients, and the number of coefficients of the GLWE key is
    /// a machine word.
    pub open spec fn supports_secret_keys(self) -> bool {
        &&& self.lwe_dimension >= 1
        &&& self.glwe_dimension >= 1
        &&& self.polynomial_size >= 2
        &&& self.glwe_dimension * self.polynomial_size <= usize::MAX
    }

    /// The sizes of the secret keys that the scheme generates for the parameters.
    pub open spec fn secret_keys(self) -> SecretKeysView {
        SecretKeysView {
            large_dimension: self.glwe_dimension * self.polynomial_size,
            small_dimension: self.lwe_dimension,
            glwe_dimension: self.glwe_dimension,
            polynomial_size: self.polynomial_size,
        }
    }

    /// Key generation accepts the decomposition parameters and the polynomial size.
    pub open spec fn supports_generation(self) -> bool {
        &&& self.pbs_base_log >= 1
        &&& self.pbs_level >= 1
        &&& self.pbs_base_log * self.pbs_level <= 64
        &&& self.ks_base_log >= 1
        &&& self.ks_level >= 1
        &&& self.ks_base_log * self.ks_level <= 64
        &&& self.fft_ready
    }
}

/// The clear part of a block, as machine integers.
pub struct BlockShape {
    pub degree: usize,
    pub message_modulus: usize,
    pub carry_modulus: usize,
    pub lwe_dimension: usize,
}

impl View for BlockShape {
    type V = BlockView;

    open spec fn view(&self) -> BlockView {
        BlockView {
            degree: self.degree as nat,
            message_modulus: self.message_modulus as nat,
            carry_modulus: self.carry_modulus as nat,
            lwe_dimension: self.lwe_dimension as nat,
        }
    }
}

/// The clear part of an evaluation key, as machine integers.
pub struct KeyShape {
    pub message_modulus: usize,
    pub carry_modulus: usize,
    pub max_degree: usize,
    pub keyswitch_input: usize,
    pub keyswitch_output: usize,
    pub bootstrap_input: usize,
    pub bootstrap_output: usize,
    pub fft_ready: bool,
}

impl View for KeyShape {
    type V = KeyView;

    open spec fn view(&self) -> KeyView {
        KeyView {
            message_modulus: self.message_modulus as nat,
            carry_modulus: self.carry_modulus as nat,
            max_degree: self.max_degree as nat,
            keyswitch_input: self.keyswitch_input as nat,
            keyswitch_output: self.keyswitch_output as nat,
            bootstrap_input: self.bootstrap_input as nat,
            bootstrap_output: self.bootstrap_output as nat,
            fft_ready: self.fft_ready,
        }
    }
}

impl SecretKeysView {
    /// The secret keys are as the scheme generates them for the parameters.
    pub open spec fn fits(self, parameters: ParametersView) -> bool {
        &&& parameters.supports_secret_keys()
        &&& self == parameters.secret_keys()
    }
}

/// The integers of a set of parameters, as machine integers.
pub struct ParametersShape {
    pub message_modulus: usize,
    pub carry_modulus: usize,
    pub lwe_dimension: usize,
    pub glwe_dimension: usize,
    pub polynomial_size: usize,
    pub pbs_base_log: usize,
    pub pbs_level: usize,
    pub ks_base_log: usize,
    pub ks_level: usize,
    pub fft_ready: bool,
}

impl View for ParametersShape {
    type V = ParametersView;

    open spec fn view(&self) -> ParametersView {
        ParametersView {
            message_modulus: self.message_modulus as nat,
            carry_modulus: self.carry_modulus as nat,
            lwe_dimension: self.lwe_dimension as nat,
            glwe_dimension: self.glwe_dimension as nat,
            polynomial_size: self.polynomial_size as nat,
            pbs_base_log: self.pbs_base_log as nat,
            pbs_level: self.pbs_level as nat,
            ks_base_log: self.ks_base_log as nat,
            ks_level: self.ks_level as nat,
            fft_ready: self.fft_ready,
        }
    }
}

/// Reads the clear part of a block: its three public integer fields, and
/// `LweCiphertextEntity::lwe_dimension` of its LWE ciphertext. This is what `block_view`
/// names.
#[verifier::external_body]
pub(crate) fn block_shape(block: &Block) -> (shape: BlockShape)
    ensures
        shape@ == block_view(*block),
{
    BlockShape {
        degree: block.degree.0,
        message_modulus: block.message_modulus.0,
        carry_modulus: block.carry_modulus.0,
        lwe_dimension: block.ct.lwe_dimension().0,
    }
}

/// Reads the clear part of an evaluation key: its three public integer fields, the
/// dimensions that `LweKeyswitchKeyEntity` and `LweBootstrapKeyEntity` report of its two
/// keys, and whether `FftError::perform_fft_checks` accepts the polynomial size of the
/// bootstrapping key. This is what `key_view` names.
#[verifier::external_body]
pub(crate) fn key_shape(key: &EvaluationKey) -> (shape: KeyShape)
    ensures
        shape@ == key_view(*key),
{
    let polynomial_size = key.bootstrapping_key.polynomial_size();
    KeyShape {
        message_modulus: key.message_modulus.0,
        carry_modulus: key.carry_modulus.0,
        max_degree: key.max_degree.0,
        keyswitch_input: key.key_switching_key.input_lwe_dimension().0,
        keyswitch_output: key.key_switching_key.output_lwe_dimension().0,
        bootstrap_input: key.bootstrapping_key.input_lwe_dimension().0,
        bootstrap_output: key.bootstrapping_key.output_lwe_dimension().0,
        fft_ready: FftError::perform_fft_checks(polynomial_size).is_ok(),
    }
}

/// Reads a set of parameters: the two moduli, the three sizes, the four decomposition
/// parameters, and whether `FftError::perform_fft_checks` accepts the polynomial size.
/// This is what `parameters_view` names.
#[verifier::external_body]
pub(crate) fn parameters_shape(parameters: &Parameters) -> (shape: ParametersShape)
    ensures
        shape@ == parameters_view(*parameters),
{
    ParametersShape {
        message_modulus: parameters.message_modulus.0,
        carry_modulus: parameters.carry_modulus.0,
        lwe_dimension: parameters.lwe_dimension.0,
        glwe_dimension: parameters.glwe_dimension.0,
        polynomial_size: parameters.polynomial_size.0,
        pbs_base_log: parameters.pbs_base_log.0,
        pbs_level: parameters.pbs_level.0,
        ks_base_log: parameters.ks_base_log.0,
        ks_level: parameters.ks_level.0,
        fft_ready: FftError::perform_fft_checks(parameters.polynomial_size).is_ok(),
    }
}

/// Reads the public field `parameters` of a client key, which `parameters_of` names.
#[verifier::external_body]
pub(crate) fn key_parameters(key: &SecretKey) -> (parameters: Parameters)
    ensures
        parameters == parameters_of(*key),
{
    key.parameters
}

/// `concrete_shortint::ClientKey::new`: generates the three secret keys for a set of
/// parameters and keeps the parameters beside them. The key material is random and
/// nothing is said of it. The small LWE key has the LWE dimension of the parameters, the
/// GLWE key their GLWE dimension and polynomial size, and the large LWE key is the GLWE
/// key laid out flat. Generation rejects a dimension of 0 and a polynomial size below 2,
/// and it multiplies the GLWE dimension by the polynomial size: `requires` leaves out
/// where that fails.
#[verifier::external_body]
pub(crate) fn generate_secret_keys(parameters: Parameters) -> (key: SecretKey)
    requires
        parameters_view(parameters).supports_secret_keys(),
    ensures
        parameters_of(key) == parameters,
        secret_keys_view(key) == parameters_view(parameters).secret_keys(),
{
    SecretKey::new(parameters)
}

/// `Clone` of an evaluation key, which the scheme derives: the copy has every field of the
/// key it was made from.
pub assume_specification[ <EvaluationKey as Clone>::clone ](key: &EvaluationKey) -> (copy:
    EvaluationKey)
    ensures
        copy == *key,
;

/// `rayon::join`: runs the two closures, possibly at the same time on two threads, and
/// returns what each gave once both are done. Both closures are always run.
pub assume_specification<A, B, RA, RB>[ rayon::join::<A, B, RA, RB> ](oper_a: A, oper_b: B) -> (results: (
    RA,
    RB,
))
    where
        A: FnOnce() -> RA + Send,
        B: FnOnce() -> RB + Send,
        RA: Send,
        RB: Send,
    requires
        oper_a.requires(()),
        oper_b.requires(()),
    ensures
        oper_a.ensures((), results.0),
        oper_b.ensures((), results.1),
;

/// `concrete_shortint::ServerKey::new_with_max_degree`: generates the key-switching and
/// bootstrapping keys from the secret keys of the client key. The key material is random
/// and nothing is said of it. The result copies the two moduli of the client key's
/// parameters and holds the given maximum degree. Its key-switching key leads from the
/// large LWE key to the small one, and its bootstrapping key from the small one to the
/// GLWE key; the Fourier conversion has accepted the polynomial size of the GLWE key.
///
/// Generation rejects a decomposition whose base or level count is 0 or whose product
/// exceeds 64 bits; it reads those from the parameters. It rejects a polynomial size
/// that the Fourier transform does not take; it reads that from the GLWE key itself.
/// `requires` leaves both out: the second through the outcome of the check on the
/// parameters, and the premise that the secret keys are as the scheme generates them
/// for these parameters, which also keeps away keys of no size.
#[verifier::external_body]
pub(crate) fn generate_key(client_key: &SecretKey, max_degree: usize) -> (key: EvaluationKey)
    requires
        parameters_view(parameters_of(*client_key)).supports_generation(),
        secret_keys_view(*client_key).fits(parameters_view(parameters_of(*client_key))),
    ensures
        key_view(key) == (KeyView {
            message_modulus: parameters_view(parameters_of(*client_key)).message_modulus,
            carry_modulus: parameters_view(parameters_of(*client_key)).carry_modulus,
            max_degree: max_degree as nat,
            keyswitch_input: secret_keys_view(*client_key).large_dimension,
            keyswitch_output: secret_keys_view(*client_key).small_dimension,
            bootstrap_input: secret_keys_view(*client_key).small_dimension,
            bootstrap_output: secret_keys_view(*client_key).glwe_dimension * secret_keys_view(
                *client_key,
            ).polynomial_size,
            fft_ready: true,
        }),
{
    EvaluationKey::new_with_max_degree(client_key, MaxDegree(max_degree))
}

/// Assigns the public field `max_degree` of an evaluation key. Every other part of the
/// key stays as it was, so that in the clear nothing but the maximum degree changes, and
/// a key that held this maximum degree already is the same key afterwards.
#[verifier::external_body]
pub(crate) fn set_max_degree(key: &mut EvaluationKey, max_degree: usize)
    ensures
        *final(key) == with_max_degree(*old(key), max_degree),
        key_view(*final(key)) == (KeyView {
            max_degree: max_degree as nat,
            ..key_view(*old(key))
        }),
        key_view(*old(key)).max_degree == max_degree ==> *final(key) == *old(key),
{
    key.max_degree = MaxDegree(max_degree);
}

/// `concrete_shortint::ServerKey::create_trivial`: a block that holds `value` modulo `B`
/// without encrypting it. No randomness goes into it, so the block is a function of the
/// key and the value, which `trivial_of` names. Its degree is that residue, its moduli are
/// the key's, and its LWE ciphertext has the dimension that the bootstrapping key gives.
/// The call divides by `B` and by `B * C`, a product of machine words.
#[verifier::external_body]
pub(crate) fn trivial_block(key: &EvaluationKey, value: u8) -> (block: Block)
    requires
        1 <= key_view(*key).message_modulus * key_view(*key).carry_modulus <= usize::MAX,
    ensures
        block == trivial_of(*key, value),
        block_view(block) == key_view(*key).trivial(value as nat),
{
    key.create_trivial(value)
}

/// `concrete_shortint::ServerKey::carry_extract`: a new block for the carry of `block`,
/// which `is_carry` records. The new block keeps the moduli and the dimension of `block`;
/// its degree is `min(B - 1, degree / B)` for the `B` of `block`. The call key-switches
/// and bootstraps, which fail on a key whose parts do not fit or on a block of another
/// dimension, and it divides by the `B` of the block and by the `B * C` of the key:
/// `requires` leaves those out. It is also subject to the condition on the thread that
/// the head of this module states, which `requires` cannot leave out.
#[verifier::external_body]
pub(crate) fn carry_extract(key: &EvaluationKey, block: &Block) -> (carry: Block)
    requires
        key_view(*key).well_formed(),
        key_view(*key).takes(block_view(*block)),
    ensures
        block_view(carry) == block_view(*block).carry(),
        is_carry(*key, *block, carry),
{
    key.carry_extract(block)
}

/// `concrete_shortint::ServerKey::message_extract`: a new block for the digit of `block`,
/// which `is_message` records. The new block keeps the moduli and the dimension of
/// `block`; its degree is `B - 1` for the `B` of `block`. It fails where `carry_extract`
/// does, and is subject to the same condition on the thread.
#[verifier::external_body]
pub(crate) fn message_extract(key: &EvaluationKey, block: &Block) -> (message: Block)
    requires
        key_view(*key).well_formed(),
        key_view(*key).takes(block_view(*block)),
    ensures
        block_view(message) == block_view(*block).message(),
        is_message(*key, *block, message),
{
    key.message_extract(block)
}

/// `concrete_shortint::ServerKey::unchecked_add_assign`: adds `right` into `left`, word
/// by word, which `sum_of` names. The degree of `left` grows by that of `right`; its
/// moduli and its dimension stay. The call fails where the two dimensions differ, and the
/// sum of the degrees is a machine word.
#[verifier::external_body]
pub(crate) fn add_assign(key: &EvaluationKey, left: &mut Block, right: &Block)
    requires
        block_view(*old(left)).lwe_dimension == block_view(*right).lwe_dimension,
        block_view(*old(left)).degree + block_view(*right).degree <= usize::MAX,
    ensures
        *final(left) == sum_of(*old(left), *right),
        block_view(*final(left)) == block_view(*old(left)).plus(block_view(*right)),
{
    key.unchecked_add_assign(left, right)
}

} // verus!
