//! The ripple on plain numbers.
//!
//! Here every block is just the number it holds. A step splits the number of one block
//! into a digit, which stays, and a carry, which goes into the next block. This module
//! says what a full pass of such steps comes to. It is arithmetic only: how these numbers
//! relate to encrypted blocks is said where the two are brought together.

use crate::headroom::{has_headroom, headroom};
use vstd::arithmetic::div_mod::{lemma_fundamental_div_mod, lemma_fundamental_div_mod_converse};
use vstd::arithmetic::power::{lemma_pow0, lemma_pow_positive, pow};
use vstd::prelude::*;

verus! {

/// One step at `index`: the number there is reduced to its digit in `base`, and what was
/// above the digit, counted in units of `base`, goes into the next number, if there is
/// one.
pub open spec fn step_values(values: Seq<nat>, base: nat, index: int) -> Seq<nat>
    recommends
        0 <= index < values.len(),
        base >= 1,
{
    let emptied = values.update(index, values[index] % base);
    if index + 1 < values.len() {
        emptied.update(index + 1, values[index + 1] + values[index] / base)
    } else {
        emptied
    }
}

/// The steps at `0`, `1`, up to `count - 1`, made in that order.
pub open spec fn first_values(values: Seq<nat>, base: nat, count: nat) -> Seq<nat>
    recommends
        count <= values.len(),
        base >= 1,
    decreases count,
{
    if count == 0 {
        values
    } else {
        step_values(first_values(values, base, (count - 1) as nat), base, count - 1)
    }
}

/// A full pass: one step at every index, in ascending order.
pub open spec fn pass_values(values: Seq<nat>, base: nat) -> Seq<nat> {
    first_values(values, base, values.len())
}

/// The number at `index` when its turn comes in a full pass: what was there, and the
/// carry out of the number before it.
pub open spec fn held(values: Seq<nat>, base: nat, index: int) -> nat
    recommends
        0 <= index < values.len(),
        base >= 1,
    decreases index,
{
    if index <= 0 {
        values[0]
    } else {
        values[index] + held(values, base, index - 1) / base
    }
}

/// The first `count` values, weighted as the digits of an integer in `base`: the sum of
/// `values[i] * base^i`.
pub open spec fn weighted(values: Seq<nat>, base: nat, count: nat) -> int
    recommends
        count <= values.len(),
    decreases count,
{
    if count == 0 {
        0
    } else {
        weighted(values, base, (count - 1) as nat) + values[count - 1] * pow(
            base as int,
            (count - 1) as nat,
        )
    }
}

/// The integer that the values stand for, least significant first.
pub open spec fn integer_of(values: Seq<nat>, base: nat) -> int {
    weighted(values, base, values.len())
}

/// Every value is a single digit.
pub open spec fn all_digits(values: Seq<nat>, base: nat) -> bool {
    forall|index: int| 0 <= index < values.len() ==> (#[trigger] values[index]) < base
}

/// After the first `count` steps of a pass, the numbers before `count` are digits, the
/// number at `count` is what it holds when its turn comes, and the numbers behind it are
/// untouched.
pub proof fn lemma_first_values(values: Seq<nat>, base: nat, count: nat)
    requires
        count <= values.len(),
        base >= 1,
    ensures
        first_values(values, base, count).len() == values.len(),
        forall|j: int|
            0 <= j < count ==> (#[trigger] first_values(values, base, count)[j]) == held(
                values,
                base,
                j,
            ) % base,
        count < values.len() ==> first_values(values, base, count)[count as int] == held(
            values,
            base,
            count as int,
        ),
        forall|j: int|
            count < j < values.len() ==> (#[trigger] first_values(values, base, count)[j])
                == values[j],
    decreases count,
{
    if count > 0 {
        lemma_first_values(values, base, (count - 1) as nat);
    }
}

/// A full pass leaves single digits: each number is reduced to the digit of what it held
/// when its turn came.
pub proof fn lemma_pass_values(values: Seq<nat>, base: nat)
    requires
        base >= 1,
    ensures
        pass_values(values, base).len() == values.len(),
        forall|j: int|
            0 <= j < values.len() ==> (#[trigger] pass_values(values, base)[j]) == held(
                values,
                base,
                j,
            ) % base,
        all_digits(pass_values(values, base), base),
{
    lemma_first_values(values, base, values.len());
}

/// Single digits hold nothing but themselves when their turn comes.
pub proof fn lemma_digits_hold_themselves(values: Seq<nat>, base: nat, index: int)
    requires
        all_digits(values, base),
        0 <= index < values.len(),
    ensures
        held(values, base, index) == values[index],
    decreases index,
{
    if index > 0 {
        lemma_digits_hold_themselves(values, base, index - 1);
        let below = values[index - 1];
        assert(below / base == 0) by (nonlinear_arith)
            requires
                0 <= below < base,
        ;
    }
}

/// Single digits are a fixed point of the pass.
pub proof fn lemma_digits_stay(values: Seq<nat>, base: nat)
    requires
        all_digits(values, base),
    ensures
        pass_values(values, base) == values,
{
    if values.len() > 0 {
        assert(values[0] < base);
        lemma_pass_values(values, base);
        assert forall|j: int| 0 <= j < values.len() implies (#[trigger] pass_values(values, base)[j])
            == values[j] by {
            lemma_digits_hold_themselves(values, base, j);
            let digit = values[j];
            assert(digit % base == digit) by (nonlinear_arith)
                requires
                    0 <= digit < base,
            ;
        }
    }
}

/// A second pass changes nothing.
pub proof fn lemma_pass_values_idempotent(values: Seq<nat>, base: nat)
    requires
        base >= 1,
    ensures
        pass_values(pass_values(values, base), base) == pass_values(values, base),
{
    lemma_pass_values(values, base);
    lemma_digits_stay(pass_values(values, base), base);
}

/// The carry out of the first `count` numbers of a pass.
pub open spec fn carry_out(values: Seq<nat>, base: nat, count: nat) -> nat {
    if count == 0 {
        0
    } else {
        held(values, base, count - 1) / base
    }
}

/// The first `count` numbers stand for what their digits stand for after the pass, and
/// the carry out of them, which weighs `base^count`. The digits alone stay below
/// `base^count`.
pub proof fn lemma_weighted_split(values: Seq<nat>, base: nat, count: nat)
    requires
        count <= values.len(),
        base >= 1,
    ensures
        weighted(values, base, count) == weighted(pass_values(values, base), base, count)
            + carry_out(values, base, count) * pow(base as int, count),
        0 <= weighted(pass_values(values, base), base, count) < pow(base as int, count),
    decreases count,
{
    let digits = pass_values(values, base);
    lemma_pow0(base as int);
    if count > 0 {
        let below = (count - 1) as nat;
        lemma_weighted_split(values, base, below);
        lemma_pass_values(values, base);
        lemma_pow_positive(base as int, below);
        let unit = pow(base as int, below);
        assert(pow(base as int, count) == base * unit) by {
            reveal(pow);
        }
        let value = values[below as int] as int;
        let incoming = carry_out(values, base, below) as int;
        let total = held(values, base, below as int) as int;
        let digit = digits[below as int] as int;
        let outgoing = carry_out(values, base, count) as int;
        lemma_fundamental_div_mod(total, base as int);
        let rest = weighted(digits, base, below);
        assert(rest + incoming * unit + value * unit == rest + digit * unit + outgoing * (base
            * unit)) by (nonlinear_arith)
            requires
                value + incoming == base * outgoing + digit,
        ;
        assert(rest + digit * unit < base * unit) by (nonlinear_arith)
            requires
                0 <= rest < unit,
                0 <= digit < base,
        ;
    }
}

/// A full pass keeps the integer, up to the carry out of the last number, which is
/// dropped: the digits after the pass stand for the integer before it, modulo
/// `base^len`.
pub proof fn lemma_pass_keeps_integer(values: Seq<nat>, base: nat)
    requires
        base >= 1,
    ensures
        integer_of(pass_values(values, base), base) == integer_of(values, base) % pow(
            base as int,
            values.len(),
        ),
        carry_out(values, base, values.len()) == 0 ==> integer_of(pass_values(values, base), base)
            == integer_of(values, base),
{
    let count = values.len();
    lemma_weighted_split(values, base, count);
    lemma_pass_values(values, base);
    lemma_pow_positive(base as int, count);
    lemma_fundamental_div_mod_converse(
        integer_of(values, base),
        pow(base as int, count),
        carry_out(values, base, count) as int,
        integer_of(pass_values(values, base), base),
    );
}

/// Within the headroom nothing overflows: when every number is at most the headroom of
/// `base` and `room`, what a number holds when its turn comes stays below `base * room`.
pub proof fn lemma_headroom_holds(values: Seq<nat>, base: nat, room: nat, index: int)
    requires
        has_headroom(base, room),
        forall|j: int| 0 <= j < values.len() ==> (#[trigger] values[j]) <= headroom(base, room),
        0 <= index < values.len(),
    ensures
        held(values, base, index) < base * room,
    decreases index,
{
    let b = base as int;
    let c = room as int;
    assert(b >= 2 && c >= 1) by (nonlinear_arith)
        requires
            b >= 0,
            c >= 0,
            0 <= (b - 1) * c - 1,
    ;
    assert((b - 1) * c - 1 + (c - 1) < b * c) by (nonlinear_arith);
    if index > 0 {
        lemma_headroom_holds(values, base, room, index - 1);
        let before = held(values, base, index - 1) as int;
        assert(before / b < c) by (nonlinear_arith)
            requires
                b >= 2,
                0 <= before < b * c,
        ;
    }
}

} // verus!
