//! The witness vector: the values of all variables, each at its position in
//! the witness domain.

use crate::domain::{lemma_domain_blocks, DomainSizes};
use crate::index_map::{
    domain_position_to_flat_index, flat_index_to_domain_position, lemma_flat_index_in_block,
    lemma_flat_index_round_trip, lemma_position_in_domain, lemma_position_round_trip,
    lemma_position_shape,
};
use vstd::arithmetic::div_mod::{lemma_div_pos_is_pos, lemma_fundamental_div_mod};
use vstd::arithmetic::mul::{lemma_mul_basics, lemma_mul_is_commutative, lemma_mul_nonnegative};
use vstd::prelude::*;

verus! {

/// The value at position `w` of the witness: `one` at position 0, a public
/// input at the head of each of the next blocks, an auxiliary input at each
/// place behind a head, as far as they go, and `zero` everywhere else.
pub open spec fn witness_value<F>(
    ratio: int,
    zero: F,
    one: F,
    primary: Seq<F>,
    auxiliary: Seq<F>,
    w: int,
) -> F {
    if w % ratio == 0 {
        let block = w / ratio;
        if block == 0 {
            one
        } else if block <= primary.len() {
            primary[block - 1]
        } else {
            zero
        }
    } else {
        let a = domain_position_to_flat_index(primary.len() as int + 1, ratio, w) - (primary.len() as int
            + 1);
        if a < auxiliary.len() {
            auxiliary[a]
        } else {
            zero
        }
    }
}

/// The witness vector over a domain of `h` positions.
pub open spec fn witness_layout<F>(
    h: int,
    ratio: int,
    zero: F,
    one: F,
    primary: Seq<F>,
    auxiliary: Seq<F>,
) -> Seq<F> {
    Seq::new(h as nat, |w: int| witness_value(ratio, zero, one, primary, auxiliary, w))
}

/// True when the witness holds `value` at the position of flat index `i`,
/// and that position is in the witness domain.
pub open spec fn holds_at_flat_index<F>(
    domains: DomainSizes,
    witness: Seq<F>,
    public_inputs: int,
    i: int,
    value: F,
) -> bool {
    let w = flat_index_to_domain_position(public_inputs, domains.ratio(), i);
    0 <= w < domains.h && witness[w] == value
}

/// The witness holds each variable at the position of its flat index: the
/// constant has flat index 0, public input `i` has `1 + i`, and auxiliary
/// input `i` has `public_inputs + i`, where `public_inputs` counts the
/// constant and the public inputs.
pub proof fn lemma_witness_follows_index_map<F>(
    domains: DomainSizes,
    zero: F,
    one: F,
    primary: Seq<F>,
    auxiliary: Seq<F>,
)
    requires
        domains.holds(primary.len() as int, auxiliary.len() as int),
    ensures
        holds_at_flat_index(
            domains,
            witness_layout(domains.h as int, domains.ratio(), zero, one, primary, auxiliary),
            primary.len() as int + 1,
            0,
            one,
        ),
        forall|i: int|
            0 <= i < primary.len() ==> holds_at_flat_index(
                domains,
                witness_layout(domains.h as int, domains.ratio(), zero, one, primary, auxiliary),
                primary.len() as int + 1,
                1 + i,
                #[trigger] primary[i],
            ),
        forall|i: int|
            0 <= i < auxiliary.len() ==> holds_at_flat_index(
                domains,
                witness_layout(domains.h as int, domains.ratio(), zero, one, primary, auxiliary),
                primary.len() as int + 1,
                primary.len() as int + 1 + i,
                #[trigger] auxiliary[i],
            ),
{
    let h = domains.h as int;
    let x = domains.x as int;
    let ratio = domains.ratio();
    let p: int = primary.len() as int + 1;
    let witness = witness_layout(h, ratio, zero, one, primary, auxiliary);
    lemma_domain_blocks(domains);
    lemma_position_shape(p, ratio, 0);
    lemma_position_in_domain(p, ratio, x, 0);
    assert forall|i: int| 0 <= i < primary.len() implies holds_at_flat_index(
        domains,
        witness,
        p,
        1 + i,
        #[trigger] primary[i],
    ) by {
        lemma_position_shape(p, ratio, 1 + i);
        lemma_position_in_domain(p, ratio, x, 1 + i);
    }
    assert forall|i: int| 0 <= i < auxiliary.len() implies holds_at_flat_index(
        domains,
        witness,
        p,
        p + i,
        #[trigger] auxiliary[i],
    ) by {
        if ratio == 1 {
            lemma_mul_basics(x);
        }
        lemma_position_shape(p, ratio, p + i);
        lemma_position_in_domain(p, ratio, x, p + i);
        lemma_flat_index_round_trip(p, ratio, p + i);
    }
}

/// The value at position `w` once the first `public_done` public inputs and
/// the first `auxiliary_done` auxiliary inputs are written.
spec fn partial_witness_value<F>(
    ratio: int,
    zero: F,
    one: F,
    primary: Seq<F>,
    auxiliary: Seq<F>,
    public_done: int,
    auxiliary_done: int,
    w: int,
) -> F {
    witness_value(
        ratio,
        zero,
        one,
        primary.take(public_done),
        auxiliary.take(auxiliary_done),
        w,
    )
}

/// The position of a flat index does not depend on how many auxiliary inputs
/// follow, and that of an auxiliary input not on the number of public inputs
/// but for the shift by it.
proof fn lemma_flat_index_shift(ratio: int, a: int, b: int, w: int)
    requires
        1 <= ratio,
        0 <= w,
        w % ratio != 0,
    ensures
        domain_position_to_flat_index(a, ratio, w) - a == domain_position_to_flat_index(b, ratio, w)
            - b,
{
}

/// Lays the values of all variables out over the witness domain.
///
/// `zero` and `one` are the two identities of the field. The result has one
/// value for each position of the witness domain: `one` at position 0, the
/// public inputs at the heads of the blocks after the first, the auxiliary
/// inputs behind the heads, block after block, and `zero` wherever no
/// variable lives. Each variable is at the position of its flat index.
pub fn prepare_witness<F: Copy>(
    domains: DomainSizes,
    zero: F,
    one: F,
    primary_input: &Vec<F>,
    auxiliary_input: &Vec<F>,
) -> (witness: Vec<F>)
    requires
        domains.holds(primary_input@.len() as int, auxiliary_input@.len() as int),
    ensures
        witness@ == witness_layout(
            domains.h as int,
            domains.ratio(),
            zero,
            one,
            primary_input@,
            auxiliary_input@,
        ),
        witness@.len() == domains.h,
        witness@[0] == one,
        forall|i: int|
            0 <= i < primary_input@.len() ==> holds_at_flat_index(
                domains,
                witness@,
                primary_input@.len() as int + 1,
                1 + i,
                #[trigger] primary_input@[i],
            ),
        forall|i: int|
            0 <= i < auxiliary_input@.len() ==> holds_at_flat_index(
                domains,
                witness@,
                primary_input@.len() as int + 1,
                primary_input@.len() as int + 1 + i,
                #[trigger] auxiliary_input@[i],
            ),
{
    let h = domains.h;
    let ratio = h / domains.x;
    let ghost p: int = primary_input@.len() as int + 1;
    proof {
        lemma_domain_blocks(domains);
        lemma_position_shape(p, ratio as int, 0);
    }
    let mut witness: Vec<F> = Vec::new();
    let mut n: usize = 0;
    while n < h
        invariant
            n <= h,
            witness@.len() == n,
            forall|w: int| 0 <= w < n ==> witness@[w] == zero,
        decreases h - n,
    {
        witness.push(zero);
        n = n + 1;
    }
    witness.set(0, one);
    assert forall|w: int| 0 <= w < h implies witness@[w] == partial_witness_value(
        ratio as int,
        zero,
        one,
        primary_input@,
        auxiliary_input@,
        0,
        0,
        w,
    ) by {
        let r = ratio as int;
        assert(primary_input@.take(0).len() == 0);
        assert(auxiliary_input@.take(0).len() == 0);
        if w % r == 0 {
            lemma_fundamental_div_mod(w, r);
            lemma_div_pos_is_pos(w, r);
            lemma_mul_basics(r);
        } else {
            lemma_flat_index_in_block(1, r, w);
        }
    }
    let mut i: usize = 0;
    while i < primary_input.len()
        invariant
            i <= primary_input@.len(),
            domains.holds(primary_input@.len() as int, auxiliary_input@.len() as int),
            h == domains.h,
            ratio == domains.ratio(),
            1 <= ratio,
            h == domains.x * ratio,
            p == primary_input@.len() + 1,
            witness@.len() == h,
            forall|w: int|
                0 <= w < h ==> witness@[w] == partial_witness_value(
                    ratio as int,
                    zero,
                    one,
                    primary_input@,
                    auxiliary_input@,
                    i as int,
                    0,
                    w,
                ),
        decreases primary_input@.len() - i,
    {
        proof {
            lemma_position_shape(p, ratio as int, 1 + i);
            lemma_position_in_domain(p, ratio as int, domains.x as int, 1 + i);
        }
        let position = (1 + i) * ratio;
        let ghost before = witness@;
        witness.set(position, primary_input[i]);
        assert forall|w: int| 0 <= w < h implies witness@[w] == partial_witness_value(
            ratio as int,
            zero,
            one,
            primary_input@,
            auxiliary_input@,
            i + 1,
            0,
            w,
        ) by {
            let r = ratio as int;
            if w % r == 0 {
                lemma_fundamental_div_mod(w, r);
                lemma_mul_is_commutative(r, w / r);
                lemma_div_pos_is_pos(w, r);
                if w / r == 1 + i {
                    assert(w == position);
                } else {
                    assert(w != position);
                }
            } else {
                assert(w != position);
                lemma_flat_index_shift(r, i as int + 1, i as int + 2, w);
            }
        }
        i = i + 1;
    }
    assert(primary_input@.take(i as int) =~= primary_input@);
    let mut i: usize = 0;
    while i < auxiliary_input.len()
        invariant
            i <= auxiliary_input@.len(),
            domains.holds(primary_input@.len() as int, auxiliary_input@.len() as int),
            h == domains.h,
            ratio == domains.ratio(),
            1 <= ratio,
            h == domains.x * ratio,
            h - domains.x == domains.x * (ratio - 1),
            p == primary_input@.len() + 1,
            witness@.len() == h,
            forall|w: int|
                0 <= w < h ==> witness@[w] == partial_witness_value(
                    ratio as int,
                    zero,
                    one,
                    primary_input@,
                    auxiliary_input@,
                    primary_input@.len() as int,
                    i as int,
                    w,
                ),
        decreases auxiliary_input@.len() - i,
    {
        proof {
            if ratio == 1 {
                lemma_mul_basics(domains.x as int);
            }
            lemma_position_shape(p, ratio as int, p + i);
            lemma_position_in_domain(p, ratio as int, domains.x as int, p + i);
            lemma_flat_index_round_trip(p, ratio as int, p + i);
        }
        let m = ratio - 1;
        let block = i / m;
        let intra_block = i % m;
        proof {
            lemma_mul_nonnegative(ratio as int, block as int);
        }
        let position = ratio * block + 1 + intra_block;
        witness.set(position, auxiliary_input[i]);
        assert(primary_input@.take(primary_input@.len() as int) =~= primary_input@);
        assert forall|w: int| 0 <= w < h implies witness@[w] == partial_witness_value(
            ratio as int,
            zero,
            one,
            primary_input@,
            auxiliary_input@,
            primary_input@.len() as int,
            i + 1,
            w,
        ) by {
            let r = ratio as int;
            if w % r != 0 {
                lemma_flat_index_in_block(p, r, w);
                if domain_position_to_flat_index(p, r, w) == p + i {
                    lemma_position_round_trip(p, r, w);
                    assert(w == position);
                } else {
                    assert(w != position);
                }
            } else {
                assert(w != position);
            }
        }
        i = i + 1;
    }
    assert(auxiliary_input@.take(i as int) =~= auxiliary_input@);
    assert(primary_input@.take(primary_input@.len() as int) =~= primary_input@);
    assert(witness@ =~= witness_layout(
        h as int,
        ratio as int,
        zero,
        one,
        primary_input@,
        auxiliary_input@,
    ));
    proof {
        lemma_witness_follows_index_map(domains, zero, one, primary_input@, auxiliary_input@);
    }
    witness
}

} // verus!
