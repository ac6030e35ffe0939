//! The map between the flat index of a variable and its position in the
//! witness domain.
//!
//! The witness domain is cut into blocks of `ratio` positions. The first
//! position of block `k` belongs to flat index `k` while `k` is below
//! `public_inputs`: the constant for `k = 0`, a public input after that. The
//! other `ratio - 1` positions of every block hold the auxiliary inputs, block
//! after block, in the order of their flat indices.

use vstd::arithmetic::div_mod::{
    lemma_div_nonincreasing, lemma_div_pos_is_pos, lemma_fundamental_div_mod,
    lemma_fundamental_div_mod_converse, lemma_mod_pos_bound,
};
use vstd::arithmetic::mul::{lemma_mul_is_commutative, lemma_mul_nonnegative};
use vstd::prelude::*;

verus! {

/// The position in the witness domain of the variable with flat index `i`.
pub open spec fn flat_index_to_domain_position(public_inputs: int, ratio: int, i: int) -> int {
    if i < public_inputs {
        i * ratio
    } else {
        let m = ratio - 1;
        let aux = i - public_inputs;
        ratio * (aux / m) + 1 + aux % m
    }
}

/// The flat index that position `w` of the witness domain stands for.
pub open spec fn domain_position_to_flat_index(public_inputs: int, ratio: int, w: int) -> int {
    if w % ratio == 0 {
        w / ratio
    } else {
        let m = ratio - 1;
        let r = (w - 1) % ratio;
        let q = ((w - 1) - r) / ratio;
        public_inputs + r + m * q
    }
}

/// True when flat index `i` has a position: a block needs at least one
/// position, and a second one before it can take an auxiliary input.
pub open spec fn has_position(public_inputs: int, ratio: int, i: int) -> bool {
    &&& 0 <= i
    &&& 0 <= public_inputs
    &&& 1 <= ratio
    &&& public_inputs <= i ==> 2 <= ratio
}

/// Position `ratio * block + 1 + offset` lies in block `block`, `1 + offset`
/// places after its head.
proof fn lemma_position_in_block(ratio: int, block: int, offset: int)
    requires
        2 <= ratio,
        0 <= offset < ratio - 1,
    ensures
        (ratio * block + 1 + offset) % ratio == 1 + offset,
        (ratio * block + 1 + offset) / ratio == block,
        (ratio * block + offset) % ratio == offset,
        (ratio * block + offset) / ratio == block,
        (ratio * block) / ratio == block,
{
    lemma_mul_is_commutative(ratio, block);
    lemma_fundamental_div_mod_converse(ratio * block + 1 + offset, ratio, block, 1 + offset);
    lemma_fundamental_div_mod_converse(ratio * block + offset, ratio, block, offset);
    lemma_fundamental_div_mod_converse(ratio * block, ratio, block, 0);
}

/// An auxiliary input lands behind the head of its block, and the head of a
/// block is a multiple of `ratio`.
pub proof fn lemma_position_shape(public_inputs: int, ratio: int, i: int)
    requires
        has_position(public_inputs, ratio, i),
    ensures
        0 <= flat_index_to_domain_position(public_inputs, ratio, i),
        i < public_inputs ==> {
            &&& flat_index_to_domain_position(public_inputs, ratio, i) % ratio == 0
            &&& flat_index_to_domain_position(public_inputs, ratio, i) / ratio == i
        },
        public_inputs <= i ==> {
            &&& flat_index_to_domain_position(public_inputs, ratio, i) % ratio == 1 + (i
                - public_inputs) % (ratio - 1)
            &&& flat_index_to_domain_position(public_inputs, ratio, i) / ratio == (i
                - public_inputs) / (ratio - 1)
            &&& 0 <= (i - public_inputs) % (ratio - 1) < ratio - 1
            &&& 0 <= (i - public_inputs) / (ratio - 1)
        },
{
    if i < public_inputs {
        lemma_mul_nonnegative(i, ratio);
        lemma_fundamental_div_mod_converse(i * ratio, ratio, i, 0);
    } else {
        let m = ratio - 1;
        let aux = i - public_inputs;
        lemma_mod_pos_bound(aux, m);
        lemma_div_pos_is_pos(aux, m);
        lemma_mul_nonnegative(ratio, aux / m);
        lemma_position_in_block(ratio, aux / m, aux % m);
    }
}

/// Going to the position of a flat index and back gives the flat index.
pub proof fn lemma_flat_index_round_trip(public_inputs: int, ratio: int, i: int)
    requires
        has_position(public_inputs, ratio, i),
    ensures
        domain_position_to_flat_index(
            public_inputs,
            ratio,
            flat_index_to_domain_position(public_inputs, ratio, i),
        ) == i,
{
    lemma_position_shape(public_inputs, ratio, i);
    if public_inputs <= i {
        let m = ratio - 1;
        let aux = i - public_inputs;
        let block = aux / m;
        let offset = aux % m;
        lemma_position_in_block(ratio, block, offset);
        lemma_fundamental_div_mod(aux, m);
    }
}

/// Two flat indices with one position are one flat index.
pub proof fn lemma_position_is_injective(public_inputs: int, ratio: int, i: int, j: int)
    requires
        has_position(public_inputs, ratio, i),
        has_position(public_inputs, ratio, j),
        flat_index_to_domain_position(public_inputs, ratio, i) == flat_index_to_domain_position(
            public_inputs,
            ratio,
            j,
        ),
    ensures
        i == j,
{
    lemma_flat_index_round_trip(public_inputs, ratio, i);
    lemma_flat_index_round_trip(public_inputs, ratio, j);
}

/// A position behind the head of its block stands for an auxiliary input.
/// Before it come `ratio - 1` auxiliary inputs for each earlier block, and
/// one for each place between the head of its block and itself.
pub proof fn lemma_flat_index_in_block(public_inputs: int, ratio: int, w: int)
    requires
        1 <= ratio,
        0 <= w,
        w % ratio != 0,
    ensures
        2 <= ratio,
        1 <= w,
        1 <= w % ratio < ratio,
        0 <= w / ratio,
        (w - 1) % ratio == w % ratio - 1,
        ((w - 1) - (w - 1) % ratio) / ratio == w / ratio,
        domain_position_to_flat_index(public_inputs, ratio, w) == public_inputs + (w % ratio - 1)
            + (ratio - 1) * (w / ratio),
        0 <= (ratio - 1) * (w / ratio) <= w - (w % ratio),
{
    let block = w / ratio;
    let place = w % ratio;
    lemma_fundamental_div_mod(w, ratio);
    lemma_mod_pos_bound(w, ratio);
    lemma_div_pos_is_pos(w, ratio);
    lemma_mul_nonnegative(ratio, block);
    lemma_mul_nonnegative(ratio - 1, block);
    lemma_position_in_block(ratio, block, place - 1);
    assert((ratio - 1) * block == ratio * block - block) by (nonlinear_arith);
}

/// Going to the flat index of a position and back gives the position,
/// unless the position is the head of a block past the public inputs, which
/// holds no variable.
pub proof fn lemma_position_round_trip(public_inputs: int, ratio: int, w: int)
    requires
        0 <= public_inputs,
        1 <= ratio,
        0 <= w,
        w % ratio == 0 ==> w / ratio < public_inputs,
    ensures
        has_position(public_inputs, ratio, domain_position_to_flat_index(public_inputs, ratio, w)),
        flat_index_to_domain_position(
            public_inputs,
            ratio,
            domain_position_to_flat_index(public_inputs, ratio, w),
        ) == w,
{
    if w % ratio == 0 {
        lemma_div_pos_is_pos(w, ratio);
        lemma_fundamental_div_mod(w, ratio);
        lemma_mul_is_commutative(ratio, w / ratio);
    } else {
        lemma_flat_index_in_block(public_inputs, ratio, w);
        let m = ratio - 1;
        let block = w / ratio;
        let place = w % ratio;
        let aux = (place - 1) + m * block;
        lemma_mul_is_commutative(m, block);
        lemma_fundamental_div_mod_converse(aux, m, block, place - 1);
        lemma_fundamental_div_mod(w, ratio);
    }
}

/// The flat index of the position of the flat index of a position is the
/// flat index of that position.
///
/// With one position to a block there is no auxiliary input, and the
/// positions past the public inputs are left out.
pub proof fn lemma_flat_index_is_stable(public_inputs: int, ratio: int, w: int)
    requires
        0 <= public_inputs,
        1 <= ratio,
        0 <= w,
        ratio == 1 ==> w < public_inputs,
    ensures
        domain_position_to_flat_index(
            public_inputs,
            ratio,
            flat_index_to_domain_position(
                public_inputs,
                ratio,
                domain_position_to_flat_index(public_inputs, ratio, w),
            ),
        ) == domain_position_to_flat_index(public_inputs, ratio, w),
{
    lemma_flat_index_bounds(public_inputs, ratio, w);
    if ratio == 1 {
        lemma_fundamental_div_mod_converse(w, 1, w, 0);
    }
    lemma_flat_index_round_trip(
        public_inputs,
        ratio,
        domain_position_to_flat_index(public_inputs, ratio, w),
    );
}

/// Which flat indices have their position in a witness domain of `x_size`
/// blocks: the constant and the public inputs when there are at most
/// `x_size` of them, and the auxiliary inputs that the places behind the
/// heads of the blocks have room for.
pub proof fn lemma_position_in_domain(public_inputs: int, ratio: int, x_size: int, i: int)
    requires
        has_position(public_inputs, ratio, i),
        public_inputs <= x_size,
    ensures
        i < public_inputs ==> flat_index_to_domain_position(public_inputs, ratio, i) < x_size
            * ratio,
        public_inputs <= i ==> (flat_index_to_domain_position(public_inputs, ratio, i) < x_size
            * ratio <==> i - public_inputs < x_size * (ratio - 1)),
{
    lemma_position_shape(public_inputs, ratio, i);
    if i < public_inputs {
        assert(i * ratio < x_size * ratio) by (nonlinear_arith)
            requires
                0 <= i < x_size,
                1 <= ratio,
        ;
    } else {
        let m = ratio - 1;
        let aux = i - public_inputs;
        let block = aux / m;
        let place = aux % m;
        lemma_fundamental_div_mod(aux, m);
        if block < x_size {
            assert(ratio * block + ratio <= x_size * ratio) by (nonlinear_arith)
                requires
                    0 <= block < x_size,
                    1 <= ratio,
            ;
            assert(m * block + m <= x_size * m) by (nonlinear_arith)
                requires
                    0 <= block < x_size,
                    1 <= m,
            ;
        } else {
            assert(ratio * block >= x_size * ratio) by (nonlinear_arith)
                requires
                    block >= x_size,
                    1 <= ratio,
            ;
            assert(m * block >= x_size * m) by (nonlinear_arith)
                requires
                    block >= x_size,
                    1 <= m,
            ;
        }
    }
}

/// The flat index of a position is not negative and at most the position
/// and `public_inputs` together.
pub proof fn lemma_flat_index_bounds(public_inputs: int, ratio: int, w: int)
    requires
        0 <= public_inputs,
        1 <= ratio,
        0 <= w,
    ensures
        0 <= domain_position_to_flat_index(public_inputs, ratio, w) <= public_inputs + w,
{
    if w % ratio == 0 {
        lemma_div_pos_is_pos(w, ratio);
        lemma_div_nonincreasing(w, ratio);
    } else {
        lemma_flat_index_in_block(public_inputs, ratio, w);
    }
}

/// The flat index that position `w` of the witness domain stands for.
///
/// `h_to_x_ratio` is the number of positions in a block. The flat index must
/// fit a `usize`; it does whenever `public_inputs + w` does.
pub fn witness_position_to_index(public_inputs: usize, h_to_x_ratio: usize, w: usize) -> (i: usize)
    requires
        h_to_x_ratio >= 1,
        domain_position_to_flat_index(public_inputs as int, h_to_x_ratio as int, w as int)
            <= usize::MAX,
    ensures
        i == domain_position_to_flat_index(public_inputs as int, h_to_x_ratio as int, w as int),
{
    if w % h_to_x_ratio == 0 {
        w / h_to_x_ratio
    } else {
        proof {
            lemma_flat_index_in_block(public_inputs as int, h_to_x_ratio as int, w as int);
        }
        let m = h_to_x_ratio - 1;
        let aux_index_mod_m = (w - 1) % h_to_x_ratio;
        let aux_index_over_m = ((w - 1) - aux_index_mod_m) / h_to_x_ratio;
        let aux_index = aux_index_mod_m + m * aux_index_over_m;
        aux_index + public_inputs
    }
}

/// The position in the witness domain of the variable with flat index `i`.
///
/// `h_to_x_ratio` is the number of positions in a block: at least one, and at
/// least two for an auxiliary input, which cannot sit at the head of a block.
/// The position must fit a `usize`. Going back from the position gives `i`.
pub fn index_to_witness_position(public_inputs: usize, h_to_x_ratio: usize, i: usize) -> (w: usize)
    requires
        has_position(public_inputs as int, h_to_x_ratio as int, i as int),
        flat_index_to_domain_position(public_inputs as int, h_to_x_ratio as int, i as int)
            <= usize::MAX,
    ensures
        w == flat_index_to_domain_position(public_inputs as int, h_to_x_ratio as int, i as int),
        domain_position_to_flat_index(public_inputs as int, h_to_x_ratio as int, w as int) == i,
{
    proof {
        lemma_position_shape(public_inputs as int, h_to_x_ratio as int, i as int);
        lemma_flat_index_round_trip(public_inputs as int, h_to_x_ratio as int, i as int);
    }
    if i < public_inputs {
        i * h_to_x_ratio
    } else {
        let m = h_to_x_ratio - 1;
        let aux_index = i - public_inputs;
        let block = aux_index / m;
        let intra_block = aux_index % m;
        proof {
            lemma_mul_nonnegative(h_to_x_ratio as int, block as int);
        }
        h_to_x_ratio * block + 1 + intra_block
    }
}

/// The position in the witness domain of the variable with flat index `i`,
/// or `None` where it has none or the position does not fit a `usize`.
pub fn checked_index_to_witness_position(
    public_inputs: usize,
    h_to_x_ratio: usize,
    i: usize,
) -> (res: Option<usize>)
    ensures
        res is Some <==> has_position(public_inputs as int, h_to_x_ratio as int, i as int)
            && flat_index_to_domain_position(public_inputs as int, h_to_x_ratio as int, i as int)
            <= usize::MAX,
        res matches Some(w) ==> w == flat_index_to_domain_position(
            public_inputs as int,
            h_to_x_ratio as int,
            i as int,
        ),
{
    if h_to_x_ratio == 0 {
        return None;
    }
    if i < public_inputs {
        i.checked_mul(h_to_x_ratio)
    } else {
        if h_to_x_ratio < 2 {
            return None;
        }
        proof {
            lemma_position_shape(public_inputs as int, h_to_x_ratio as int, i as int);
        }
        let m = h_to_x_ratio - 1;
        let aux_index = i - public_inputs;
        let block = aux_index / m;
        let intra_block = aux_index % m;
        match h_to_x_ratio.checked_mul(block) {
            Some(start) => start.checked_add(1 + intra_block),
            None => {
                proof {
                    lemma_mul_nonnegative(h_to_x_ratio as int, block as int);
                }
                None
            },
        }
    }
}

} // verus!
