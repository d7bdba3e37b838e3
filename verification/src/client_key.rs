//! The client's key, as far as the server side reads it.

use crate::headroom::{has_headroom, headroom, max_degree_for};
use crate::shortint::{
    generate_secret_keys, key_parameters, parameters_of, parameters_shape, parameters_view,
    secret_keys_view, ParametersView,
};
use concrete_shortint::ClientKey as SecretKey;
use concrete_shortint::Parameters;
use vstd::prelude::*;

verus! {

/// The client's key: the secret keys of the single-block scheme, with the parameters they
/// were generated for.
pub struct ClientKey {
    pub key: SecretKey,
}

impl View for ClientKey {
    type V = ParametersView;

    /// The parameters that the key carries.
    open spec fn view(&self) -> ParametersView {
        parameters_view(parameters_of(self.key))
    }
}

impl ClientKey {
    /// The secret keys inside are as the scheme generates them for the parameters beside
    /// them.
    ///
    /// The secret keys cannot be read, so no function can test this. It holds of every
    /// key that `new` has made. It may fail of a key that was put together otherwise, or
    /// whose parameters were changed afterwards.
    pub open spec fn secret_keys_fit(&self) -> bool {
        secret_keys_view(self.key).fits(self@)
    }

    /// Generates a client key for `parameters`, or `None` where the scheme generates no
    /// secret keys for them: where a dimension is 0, the polynomial size is below 2, or
    /// the GLWE key would have more coefficients than a machine word counts.
    pub fn new(parameters: Parameters) -> (cks: Option<ClientKey>)
        ensures
            cks is Some <==> parameters_view(parameters).supports_secret_keys(),
            cks is Some ==> {
                &&& parameters_of(cks->0.key) == parameters
                &&& cks->0@ == parameters_view(parameters)
                &&& secret_keys_view(cks->0.key) == parameters_view(parameters).secret_keys()
                &&& cks->0.secret_keys_fit()
            },
    {
        let shape = parameters_shape(&parameters);
        let coefficients = shape.glwe_dimension.checked_mul(shape.polynomial_size);
        if shape.lwe_dimension >= 1 && shape.glwe_dimension >= 1 && shape.polynomial_size >= 2
            && coefficients.is_some() {
            Some(ClientKey { key: generate_secret_keys(parameters) })
        } else {
            None
        }
    }

    /// The headroom that the parameters of this key give to a block, or `None` where the
    /// moduli have none.
    pub fn max_degree(&self) -> (max: Option<usize>)
        ensures
            max is Some <==> has_headroom(self@.message_modulus, self@.carry_modulus),
            max is Some ==> max->0 == headroom(self@.message_modulus, self@.carry_modulus),
    {
        let parameters = parameters_shape(&key_parameters(&self.key));
        max_degree_for(parameters.message_modulus, parameters.carry_modulus)
    }

    /// Whether the parameters of this key allow a server key: the moduli have a headroom,
    /// and key generation accepts the decomposition and the polynomial size.
    ///
    /// This reads the parameters only. That the secret keys inside go with them is the
    /// other thing that `ServerKey::new` requires, see `secret_keys_fit`.
    pub fn is_generation_possible(&self) -> (possible: bool)
        ensures
            possible == (has_headroom(self@.message_modulus, self@.carry_modulus)
                && self@.supports_generation()),
    {
        let parameters = parameters_shape(&key_parameters(&self.key));
        let max = max_degree_for(parameters.message_modulus, parameters.carry_modulus);
        max.is_some() && parameters.fft_ready && decomposition_fits(
            parameters.pbs_base_log,
            parameters.pbs_level,
        ) && decomposition_fits(parameters.ks_base_log, parameters.ks_level)
    }
}

/// Whether a decomposition into `level` digits of `base_log` bits is one that key
/// generation accepts: neither number is 0, and together they take at most 64 bits.
fn decomposition_fits(base_log: usize, level: usize) -> (fits: bool)
    ensures
        fits == (base_log >= 1 && level >= 1 && base_log * level <= 64),
{
    if base_log < 1 || level < 1 || base_log > 64 || level > 64 {
        assert(!(base_log >= 1 && level >= 1 && base_log * level <= 64)) by (nonlinear_arith)
            requires
                base_log < 1 || level < 1 || base_log > 64 || level > 64,
        ;
        false
    } else {
        assert(base_log * level <= 64 * 64) by (nonlinear_arith)
            requires
                base_log <= 64,
                level <= 64,
        ;
        base_log * level <= 64
    }
}

} // verus!
