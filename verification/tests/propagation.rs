use concrete_integer::{Ciphertext, ClientKey, KeyId, ServerKey};
use concrete_shortint::ciphertext::Degree;
use concrete_shortint::parameters::{
    CarryModulus, DecompositionBaseLog, DecompositionLevelCount, GlweDimension, LweDimension,
    MessageModulus, PolynomialSize, StandardDev,
};
use concrete_shortint::Parameters;

/// Parameters that are far too small to be secure and make key generation quick.
fn small_parameters(polynomial_size: usize) -> Parameters {
    Parameters {
        lwe_dimension: LweDimension(16),
        glwe_dimension: GlweDimension(1),
        polynomial_size: PolynomialSize(polynomial_size),
        lwe_modular_std_dev: StandardDev(0.000000000000000000001),
        glwe_modular_std_dev: StandardDev(0.000000000000000000001),
        pbs_base_log: DecompositionBaseLog(23),
        pbs_level: DecompositionLevelCount(1),
        ks_level: DecompositionLevelCount(5),
        ks_base_log: DecompositionBaseLog(4),
        pfks_level: DecompositionLevelCount(1),
        pfks_base_log: DecompositionBaseLog(23),
        pfks_modular_std_dev: StandardDev(0.000000000000000000001),
        cbs_level: DecompositionLevelCount(0),
        cbs_base_log: DecompositionBaseLog(0),
        message_modulus: MessageModulus(4),
        carry_modulus: CarryModulus(4),
    }
}

fn gen_keys() -> (ClientKey, ServerKey) {
    let cks = ClientKey::new(small_parameters(512)).unwrap();
    let sks = ServerKey::new(&cks);
    (cks, sks)
}

/// Keys for blocks of one bit with one bit of room.
fn gen_binary_keys() -> (ClientKey, ServerKey) {
    let mut parameters = small_parameters(512);
    parameters.message_modulus = MessageModulus(2);
    parameters.carry_modulus = CarryModulus(2);
    let cks = ClientKey::new(parameters).unwrap();
    let sks = ServerKey::new(&cks);
    (cks, sks)
}

/// Encrypts `message` in base 4, least significant digit first.
fn encrypt(cks: &ClientKey, message: u64, size: usize) -> Ciphertext {
    let mut rest = message;
    let mut ct_vec = Vec::new();
    for _ in 0..size {
        ct_vec.push(cks.key.encrypt(rest % 4));
        rest /= 4;
    }
    Ciphertext { ct_vec, message_modulus_vec: vec![], key_id_vec: vec![] }
}

/// Encrypts the given values, one to a block, without reducing them to a digit.
fn encrypt_blocks(cks: &ClientKey, values: &[u64]) -> Ciphertext {
    let ct_vec = values.iter().map(|value| cks.key.unchecked_encrypt(*value)).collect();
    Ciphertext { ct_vec, message_modulus_vec: vec![], key_id_vec: vec![] }
}

/// Adds `right` into `left` block by block, with no propagation.
fn add_assign(sks: &ServerKey, left: &mut Ciphertext, right: &Ciphertext) {
    for (l, r) in left.ct_vec.iter_mut().zip(right.ct_vec.iter()) {
        sks.key.unchecked_add_assign(l, r);
    }
}

/// What each block holds, digit and carry together.
fn decrypt_blocks(cks: &ClientKey, ct: &Ciphertext) -> Vec<u64> {
    ct.ct_vec.iter().map(|block| cks.key.decrypt_message_and_carry(block)).collect()
}

/// The integer that the digits of the blocks stand for.
fn decrypt(cks: &ClientKey, ct: &Ciphertext) -> u64 {
    let mut result = 0;
    let mut shift = 1;
    for block in ct.ct_vec.iter() {
        result += cks.key.decrypt(block) * shift;
        shift *= 4;
    }
    result
}

fn degrees(ct: &Ciphertext) -> Vec<usize> {
    ct.ct_vec.iter().map(|block| block.degree.0).collect()
}

#[test]
fn trivial_zero_decrypts_to_zero() {
    let (cks, sks) = gen_keys();
    for size in 0..6 {
        let ct = sks.create_trivial_zero(size, vec![], vec![]);
        assert_eq!(ct.ct_vec.len(), size);
        assert_eq!(decrypt(&cks, &ct), 0);
        assert_eq!(decrypt_blocks(&cks, &ct), vec![0; size]);
    }
}

#[test]
fn trivial_zero_parallelized_decrypts_to_zero() {
    let (cks, sks) = gen_keys();
    for size in 0..6 {
        let ct = sks.create_trivial_zero_parallelized(size, vec![], vec![]);
        assert_eq!(ct.ct_vec.len(), size);
        assert_eq!(decrypt(&cks, &ct), 0);
        assert_eq!(decrypt_blocks(&cks, &ct), vec![0; size]);
    }
}

#[test]
fn trivial_zero_shows_the_key_in_the_clear() {
    let (_, sks) = gen_keys();
    let ct = sks.create_trivial_zero(3, vec![], vec![]);
    for block in ct.ct_vec.iter() {
        assert_eq!(block.degree, Degree(0));
        assert_eq!(block.message_modulus, MessageModulus(4));
        assert_eq!(block.carry_modulus, CarryModulus(4));
    }
    assert!(sks.is_full_propagate_possible(&ct));
}

#[test]
fn trivial_zero_hands_the_tags_on() {
    let (_, sks) = gen_keys();
    let ct = sks.create_trivial_zero(2, vec![4, 4], vec![KeyId(7), KeyId(9)]);
    assert_eq!(ct.message_modulus_vec, vec![4, 4]);
    assert_eq!(ct.key_id_vec, vec![KeyId(7), KeyId(9)]);
    let ct = sks.create_trivial_zero_parallelized(2, vec![5], vec![KeyId(1), KeyId(2), KeyId(3)]);
    assert_eq!(ct.message_modulus_vec, vec![5]);
    assert_eq!(ct.key_id_vec, vec![KeyId(1), KeyId(2), KeyId(3)]);
    assert_eq!(ct.ct_vec.len(), 2);
}

#[test]
fn trivial_zero_is_a_neutral_element() {
    let (cks, sks) = gen_keys();
    let mut sum = sks.create_trivial_zero(4, vec![], vec![]);
    add_assign(&sks, &mut sum, &encrypt(&cks, 27, 4));
    assert_eq!(decrypt(&cks, &sum), 27);
    sks.full_propagate(&mut sum);
    assert_eq!(decrypt(&cks, &sum), 27);
}

#[test]
fn propagate_moves_the_carry_of_seven_plus_seven() {
    let (cks, sks) = gen_keys();
    let mut ct_res = encrypt(&cks, 7, 4);
    add_assign(&sks, &mut ct_res, &encrypt(&cks, 7, 4));
    sks.propagate(&mut ct_res, 0);
    assert_eq!(cks.key.decrypt(&ct_res.ct_vec[1]), 3);
    assert_eq!(decrypt_blocks(&cks, &ct_res), vec![2, 3, 0, 0]);
}

#[test]
fn propagate_parallelized_moves_the_carry_of_seven_plus_seven() {
    let (cks, sks) = gen_keys();
    let mut ct_res = encrypt(&cks, 7, 4);
    add_assign(&sks, &mut ct_res, &encrypt(&cks, 7, 4));
    sks.propagate_parallelized(&mut ct_res, 0);
    assert_eq!(cks.key.decrypt(&ct_res.ct_vec[1]), 3);
    assert_eq!(decrypt_blocks(&cks, &ct_res), vec![2, 3, 0, 0]);
}

#[test]
fn propagate_splits_a_dirty_block() {
    let (cks, sks) = gen_keys();
    for d0 in 0..4u64 {
        for d1 in 0..4u64 {
            for a in 0..8u64 {
                let mut ct = encrypt_blocks(&cks, &[d0 + a, d1]);
                sks.propagate(&mut ct, 0);
                assert_eq!(decrypt_blocks(&cks, &ct), vec![(d0 + a) % 4, d1 + (d0 + a) / 4]);
            }
        }
    }
}

#[test]
fn propagate_parallelized_splits_a_dirty_block() {
    let (cks, sks) = gen_keys();
    for d0 in 0..4u64 {
        for d1 in 0..4u64 {
            for a in 0..8u64 {
                let mut ct = encrypt_blocks(&cks, &[d0 + a, d1]);
                sks.propagate_parallelized(&mut ct, 0);
                assert_eq!(decrypt_blocks(&cks, &ct), vec![(d0 + a) % 4, d1 + (d0 + a) / 4]);
            }
        }
    }
}

#[test]
fn propagate_keeps_message_three_of_seven() {
    let (cks, sks) = gen_keys();
    let mut single = encrypt_blocks(&cks, &[7]);
    sks.propagate(&mut single, 0);
    assert_eq!(decrypt_blocks(&cks, &single), vec![3]);

    let mut pair = encrypt_blocks(&cks, &[7, 0]);
    sks.propagate(&mut pair, 0);
    assert_eq!(decrypt_blocks(&cks, &pair), vec![3, 1]);
}

#[test]
fn propagate_drops_the_carry_of_the_last_block() {
    let (cks, sks) = gen_keys();
    let mut ct = encrypt_blocks(&cks, &[1, 2, 14]);
    sks.propagate(&mut ct, 2);
    assert_eq!(decrypt_blocks(&cks, &ct), vec![1, 2, 2]);
    let mut ct = encrypt_blocks(&cks, &[1, 2, 14]);
    sks.propagate_parallelized(&mut ct, 2);
    assert_eq!(decrypt_blocks(&cks, &ct), vec![1, 2, 2]);
}

#[test]
fn propagate_touches_two_blocks_only() {
    let (cks, sks) = gen_keys();
    let mut ct = encrypt_blocks(&cks, &[9, 6, 5, 11]);
    ct.message_modulus_vec = vec![4, 4, 4, 4];
    ct.key_id_vec = vec![KeyId(0), KeyId(0), KeyId(1), KeyId(1)];
    let before = ct.ct_vec.clone();
    sks.propagate(&mut ct, 1);
    assert_eq!(decrypt_blocks(&cks, &ct), vec![9, 2, 6, 11]);
    assert!(ct.ct_vec[0].ct == before[0].ct);
    assert!(ct.ct_vec[3].ct == before[3].ct);
    assert!(ct.ct_vec[1].ct != before[1].ct);
    assert!(ct.ct_vec[2].ct != before[2].ct);
    assert_eq!(ct.message_modulus_vec, vec![4, 4, 4, 4]);
    assert_eq!(ct.key_id_vec, vec![KeyId(0), KeyId(0), KeyId(1), KeyId(1)]);
}

#[test]
fn propagate_sets_the_degrees() {
    let (cks, sks) = gen_keys();
    let mut ct = encrypt(&cks, 7, 3);
    add_assign(&sks, &mut ct, &encrypt(&cks, 7, 3));
    add_assign(&sks, &mut ct, &encrypt(&cks, 7, 3));
    assert_eq!(degrees(&ct), vec![9, 9, 9]);
    sks.propagate(&mut ct, 0);
    assert_eq!(degrees(&ct), vec![3, 11, 9]);
    sks.propagate_parallelized(&mut ct, 1);
    assert_eq!(degrees(&ct), vec![3, 3, 11]);
    sks.propagate(&mut ct, 2);
    assert_eq!(degrees(&ct), vec![3, 3, 3]);
}

#[test]
fn carry_degree_is_capped_below_the_modulus() {
    let (cks, sks) = gen_keys();
    let mut ct = encrypt_blocks(&cks, &[1, 1]);
    ct.ct_vec[0].degree = Degree(100);
    ct.ct_vec[1].degree = Degree(5);
    assert!(sks.is_propagate_possible(&ct, 0));
    sks.propagate(&mut ct, 0);
    assert_eq!(degrees(&ct), vec![3, 8]);
    assert_eq!(decrypt_blocks(&cks, &ct), vec![1, 1]);
}

#[test]
fn full_propagate_of_ten_plus_ten_is_twenty() {
    let (cks, sks) = gen_keys();
    let msg = 10;
    let mut ct_res = encrypt(&cks, msg, 4);
    add_assign(&sks, &mut ct_res, &encrypt(&cks, msg, 4));
    sks.full_propagate(&mut ct_res);
    assert_eq!(decrypt(&cks, &ct_res), msg + msg);
    assert_eq!(decrypt_blocks(&cks, &ct_res), vec![0, 1, 1, 0]);
}

#[test]
fn full_propagate_parallelized_of_ten_plus_ten_is_twenty() {
    let (cks, sks) = gen_keys();
    let msg = 10;
    let mut ct_res = encrypt(&cks, msg, 4);
    add_assign(&sks, &mut ct_res, &encrypt(&cks, msg, 4));
    sks.full_propagate_parallelized(&mut ct_res);
    assert_eq!(decrypt(&cks, &ct_res), msg + msg);
    assert_eq!(decrypt_blocks(&cks, &ct_res), vec![0, 1, 1, 0]);
}

#[test]
fn full_propagate_ripples_through_every_block() {
    let (cks, sks) = gen_keys();
    let mut ct = encrypt(&cks, 255, 4);
    add_assign(&sks, &mut ct, &encrypt(&cks, 1, 4));
    assert_eq!(decrypt_blocks(&cks, &ct), vec![4, 3, 3, 3]);
    sks.full_propagate(&mut ct);
    assert_eq!(decrypt_blocks(&cks, &ct), vec![0, 0, 0, 0]);

    let mut ct = encrypt(&cks, 63, 4);
    add_assign(&sks, &mut ct, &encrypt(&cks, 1, 4));
    sks.full_propagate(&mut ct);
    assert_eq!(decrypt_blocks(&cks, &ct), vec![0, 0, 0, 1]);
    assert_eq!(decrypt(&cks, &ct), 64);
}

#[test]
fn full_propagate_leaves_clean_blocks() {
    let (cks, sks) = gen_keys();
    let mut ct = encrypt(&cks, 201, 4);
    add_assign(&sks, &mut ct, &encrypt(&cks, 54, 4));
    add_assign(&sks, &mut ct, &encrypt(&cks, 0, 4));
    assert_eq!(degrees(&ct), vec![9, 9, 9, 9]);
    ct.message_modulus_vec = vec![4, 4, 4, 4];
    ct.key_id_vec = vec![KeyId(3); 4];
    sks.full_propagate(&mut ct);
    assert_eq!(degrees(&ct), vec![3, 3, 3, 3]);
    for value in decrypt_blocks(&cks, &ct) {
        assert!(value < 4);
    }
    assert_eq!(decrypt(&cks, &ct), 255);
    assert_eq!(ct.message_modulus_vec, vec![4, 4, 4, 4]);
    assert_eq!(ct.key_id_vec, vec![KeyId(3); 4]);
}

#[test]
fn full_propagate_twice_is_full_propagate_once() {
    let (cks, sks) = gen_keys();
    for (left, right) in [(10, 10), (201, 54), (255, 255), (0, 0), (77, 100)] {
        let mut ct = encrypt(&cks, left, 4);
        add_assign(&sks, &mut ct, &encrypt(&cks, right, 4));
        sks.full_propagate(&mut ct);
        let once = decrypt_blocks(&cks, &ct);
        assert_eq!(decrypt(&cks, &ct), (left + right) % 256);
        assert!(sks.is_full_propagate_possible(&ct));
        sks.full_propagate(&mut ct);
        assert_eq!(decrypt_blocks(&cks, &ct), once);
        assert_eq!(decrypt(&cks, &ct), (left + right) % 256);
        assert_eq!(degrees(&ct), vec![3, 3, 3, 3]);
    }
}

#[test]
fn full_propagate_parallelized_agrees_with_full_propagate() {
    let (cks, sks) = gen_keys();
    for size in 0..5usize {
        for (left, right) in [(10, 10), (201, 54), (255, 255), (3, 1), (77, 100)] {
            let mut sequential = encrypt(&cks, left, size);
            add_assign(&sks, &mut sequential, &encrypt(&cks, right, size));
            let mut concurrent = Ciphertext {
                ct_vec: sequential.ct_vec.clone(),
                message_modulus_vec: vec![],
                key_id_vec: vec![],
            };
            sks.full_propagate(&mut sequential);
            sks.full_propagate_parallelized(&mut concurrent);
            assert_eq!(decrypt_blocks(&cks, &sequential), decrypt_blocks(&cks, &concurrent));
            assert_eq!(decrypt(&cks, &sequential), decrypt(&cks, &concurrent));
            assert_eq!(degrees(&sequential), degrees(&concurrent));
            let modulus = 4u64.pow(size as u32);
            assert_eq!(decrypt(&cks, &sequential), (left % modulus + right % modulus) % modulus);
        }
    }
}

#[test]
fn full_propagate_of_nothing_does_nothing() {
    let (cks, sks) = gen_keys();
    let mut ct = encrypt(&cks, 0, 0);
    ct.key_id_vec = vec![KeyId(5)];
    assert!(sks.is_full_propagate_possible(&ct));
    sks.full_propagate(&mut ct);
    sks.full_propagate_parallelized(&mut ct);
    assert_eq!(ct.ct_vec.len(), 0);
    assert_eq!(ct.key_id_vec, vec![KeyId(5)]);
}

#[test]
fn propagation_is_possible_on_fresh_sums() {
    let (cks, sks) = gen_keys();
    let mut ct = encrypt(&cks, 99, 4);
    add_assign(&sks, &mut ct, &encrypt(&cks, 99, 4));
    assert!(sks.is_full_propagate_possible(&ct));
    for index in 0..4 {
        assert!(sks.is_propagate_possible(&ct, index));
    }
    assert!(!sks.is_propagate_possible(&ct, 4));
    assert!(!sks.is_propagate_possible(&ct, usize::MAX));
}

#[test]
fn propagation_is_refused_where_a_degree_would_overflow() {
    let (cks, sks) = gen_keys();
    let mut ct = encrypt_blocks(&cks, &[5, 1, 1]);
    ct.ct_vec[0].degree = Degree(5);
    ct.ct_vec[1].degree = Degree(usize::MAX);
    assert!(!sks.is_propagate_possible(&ct, 0));
    assert!(!sks.is_full_propagate_possible(&ct));
    assert!(sks.is_propagate_possible(&ct, 1));
    assert!(sks.is_propagate_possible(&ct, 2));

    ct.ct_vec[1].degree = Degree(usize::MAX - 1);
    assert!(sks.is_propagate_possible(&ct, 0));
    assert!(sks.is_full_propagate_possible(&ct));

    ct.ct_vec[0].degree = Degree(8);
    assert!(!sks.is_propagate_possible(&ct, 0));
    assert!(!sks.is_full_propagate_possible(&ct));

    ct.ct_vec[0].degree = Degree(3);
    ct.ct_vec[1].degree = Degree(usize::MAX);
    assert!(sks.is_propagate_possible(&ct, 0));
    assert!(sks.is_full_propagate_possible(&ct));
}

#[test]
fn full_propagation_follows_the_carries_upwards() {
    let (cks, sks) = gen_keys();
    let mut ct = encrypt_blocks(&cks, &[1, 1, 1]);
    ct.ct_vec[0].degree = Degree(4);
    ct.ct_vec[1].degree = Degree(3);
    ct.ct_vec[2].degree = Degree(usize::MAX);
    assert!(sks.is_propagate_possible(&ct, 1));
    assert!(!sks.is_full_propagate_possible(&ct));
    ct.ct_vec[0].degree = Degree(3);
    assert!(sks.is_full_propagate_possible(&ct));
}

#[test]
fn propagation_is_refused_on_a_block_of_another_dimension() {
    let (cks, sks) = gen_keys();
    let other = concrete_shortint::ClientKey::new(small_parameters(256));
    let mut ct = encrypt(&cks, 99, 3);
    ct.ct_vec[1] = other.encrypt(2);
    assert!(sks.is_propagate_possible(&ct, 2));
    assert!(!sks.is_propagate_possible(&ct, 1));
    assert!(!sks.is_propagate_possible(&ct, 0));
    assert!(!sks.is_full_propagate_possible(&ct));
}

#[test]
fn propagation_is_refused_on_a_block_without_digits() {
    let (cks, sks) = gen_keys();
    let mut ct = encrypt(&cks, 99, 3);
    ct.ct_vec[2].message_modulus = MessageModulus(0);
    assert!(sks.is_propagate_possible(&ct, 0));
    assert!(sks.is_propagate_possible(&ct, 1));
    assert!(!sks.is_propagate_possible(&ct, 2));
    assert!(!sks.is_full_propagate_possible(&ct));
}

#[test]
fn propagation_is_refused_under_a_key_that_is_not_well_formed() {
    let (cks, mut sks) = gen_keys();
    let ct = encrypt(&cks, 99, 3);
    sks.key.message_modulus = MessageModulus(0);
    assert!(!sks.is_well_formed());
    assert!(!sks.is_propagate_possible(&ct, 0));
    assert!(!sks.is_full_propagate_possible(&ct));
    assert!(sks.is_full_propagate_possible(&encrypt(&cks, 0, 0)));
}

#[test]
fn propagation_works_in_base_two() {
    let (cks, sks) = gen_binary_keys();
    assert_eq!(sks.max_degree(), 1);
    let mut ct = encrypt_blocks(&cks, &[3, 1, 0]);
    sks.propagate(&mut ct, 0);
    assert_eq!(decrypt_blocks(&cks, &ct), vec![1, 2, 0]);
    assert_eq!(degrees(&ct), vec![1, 4, 3]);
    sks.full_propagate_parallelized(&mut ct);
    assert_eq!(decrypt_blocks(&cks, &ct), vec![1, 0, 1]);
    assert_eq!(degrees(&ct), vec![1, 1, 1]);
}

#[test]
fn full_propagate_within_the_headroom_keeps_the_integer() {
    let (cks, sks) = gen_keys();
    let max = sks.max_degree() as u64;
    assert_eq!(max, 11);
    for values in [[11, 11, 11, 2], [11, 0, 11, 0], [3, 11, 3, 1], [0, 0, 0, 0], [11, 11, 11, 11]] {
        let mut ct = encrypt_blocks(&cks, &values);
        let integer: u64 = values.iter().rev().fold(0, |sum, value| sum * 4 + value);
        sks.full_propagate(&mut ct);
        for value in decrypt_blocks(&cks, &ct) {
            assert!(value < 4);
        }
        assert_eq!(decrypt(&cks, &ct), integer % 256);
    }
}
