//! Sizes of evaluation domains: the smallest power of two that holds a
//! given number of elements, and the two domains of a constraint system.

use vstd::arithmetic::div_mod::{lemma_div_pos_is_pos, lemma_fundamental_div_mod};
use vstd::arithmetic::power2::{
    lemma2_to64, lemma2_to64_rest, lemma_pow2_pos, lemma_pow2_strictly_increases,
    lemma_pow2_unfold, pow2,
};
use vstd::prelude::*;

verus! {

/// True when `n` is `2^e` for some natural `e`.
pub open spec fn is_power_of_two(n: int) -> bool {
    exists|e: nat| n == #[trigger] pow2(e)
}

/// True when `size` is the least power of two that is at least `count`.
pub open spec fn is_least_power_of_two(count: int, size: int) -> bool {
    &&& is_power_of_two(size)
    &&& count <= size
    &&& forall|q: int| #[trigger] is_power_of_two(q) && count <= q ==> size <= q
}

/// The size of the evaluation domain for `count` elements: `1` for at most
/// one element, and otherwise twice the size for half as many, rounded up.
pub open spec fn domain_size_for(count: nat) -> nat
    decreases count,
{
    if count <= 1 {
        1
    } else {
        2 * domain_size_for((count + 1) / 2)
    }
}

/// Twice a power of two is a power of two.
proof fn lemma_double_power_of_two(n: int)
    requires
        is_power_of_two(n),
    ensures
        is_power_of_two(2 * n),
{
    let e = choose|e: nat| n == #[trigger] pow2(e);
    lemma_pow2_unfold(e + 1);
    assert(2 * n == pow2(e + 1));
}

/// A power of two above one is twice a power of two.
proof fn lemma_half_power_of_two(n: int)
    requires
        is_power_of_two(n),
        n > 1,
    ensures
        n % 2 == 0,
        is_power_of_two(n / 2),
{
    let e = choose|e: nat| n == #[trigger] pow2(e);
    if e == 0 {
        lemma2_to64();
    } else {
        lemma_pow2_unfold(e);
        assert(n / 2 == pow2((e - 1) as nat));
    }
}

/// `domain_size_for(count)` is a power of two, holds `count` elements, and no
/// smaller power of two does.
pub proof fn lemma_domain_size_is_least(count: nat)
    ensures
        is_least_power_of_two(count as int, domain_size_for(count) as int),
    decreases count,
{
    let size = domain_size_for(count) as int;
    if count <= 1 {
        lemma2_to64();
        assert(is_power_of_two(1));
        assert forall|q: int| #[trigger] is_power_of_two(q) && count <= q implies size <= q by {
            let e = choose|e: nat| q == #[trigger] pow2(e);
            lemma_pow2_pos(e);
        }
    } else {
        let half = (count + 1) / 2;
        lemma_domain_size_is_least(half);
        lemma_double_power_of_two(domain_size_for(half) as int);
        assert forall|q: int| #[trigger] is_power_of_two(q) && count <= q implies size <= q by {
            lemma_half_power_of_two(q);
            assert(half <= q / 2);
        }
    }
}

/// There is only one least power of two at or above a count.
pub proof fn lemma_least_power_of_two_unique(count: int, a: int, b: int)
    requires
        is_least_power_of_two(count, a),
        is_least_power_of_two(count, b),
    ensures
        a == b,
{
}

/// One more than half of the largest `usize`, and one more than its 32nd
/// part, are powers of two.
pub proof fn lemma_usize_powers_of_two()
    ensures
        is_power_of_two(usize::MAX / 2 + 1),
        is_power_of_two(usize::MAX / 32 + 1),
{
    lemma2_to64();
    lemma2_to64_rest();
    if usize::MAX == 0xffff_ffff {
        assert(usize::MAX / 2 + 1 == pow2(31));
        assert(usize::MAX / 32 + 1 == pow2(27));
    } else {
        assert(usize::MAX == 0xffff_ffff_ffff_ffff);
        assert(usize::MAX / 2 + 1 == pow2(63));
        assert(usize::MAX / 32 + 1 == pow2(59));
    }
}

/// The smallest power of two that is at least `x`: the size of the
/// evaluation domain for `x` elements. For no element at all it is 1.
///
/// The bound on `x` is the largest power of two that a `usize` holds.
pub fn ceil_pow2(x: usize) -> (res: usize)
    requires
        x <= usize::MAX / 2 + 1,
    ensures
        res == domain_size_for(x as nat),
        is_least_power_of_two(x as int, res as int),
{
    let mut res: usize = 1;
    let ghost mut e: nat = 0;
    proof {
        lemma2_to64();
    }
    while x > res
        invariant
            x <= usize::MAX / 2 + 1,
            res >= 1,
            res == pow2(e),
            e == 0 || pow2((e - 1) as nat) < x,
        decreases usize::MAX - res,
    {
        res = res * 2;
        proof {
            e = e + 1;
            lemma_pow2_unfold(e);
        }
    }
    proof {
        assert(is_power_of_two(res as int));
        assert forall|q: int| #[trigger] is_power_of_two(q) && x <= q implies res <= q by {
            let j = choose|j: nat| q == #[trigger] pow2(j);
            if j < e {
                if j < e - 1 {
                    lemma_pow2_strictly_increases(j, (e - 1) as nat);
                }
            } else if j > e {
                lemma_pow2_strictly_increases(e, j);
            }
        }
        lemma_domain_size_is_least(x as nat);
        lemma_least_power_of_two_unique(x as int, res as int, domain_size_for(x as nat) as int);
    }
    res
}

/// The sizes of the two evaluation domains: `h` for the witness, `x` for the
/// public inputs.
#[derive(Clone, Copy, Debug, PartialEq, Eq)]
pub struct DomainSizes {
    pub h: usize,
    pub x: usize,
}

impl DomainSizes {
    /// True when the witness domain is made of whole blocks, one for each
    /// element of the domain of the public inputs.
    pub open spec fn well_formed(self) -> bool {
        &&& 0 < self.x
        &&& self.x <= self.h
        &&& self.h % self.x == 0
    }

    /// The number of positions in a block.
    pub open spec fn ratio(self) -> int {
        self.h as int / self.x as int
    }

    /// True when the domains have room for `primary` public inputs beside
    /// the constant, and for `auxiliary` auxiliary inputs behind the heads of
    /// the blocks.
    pub open spec fn holds(self, primary: int, auxiliary: int) -> bool {
        &&& self.well_formed()
        &&& primary < self.x
        &&& auxiliary <= self.h - self.x
    }

    /// Says whether a witness of `primary` public and `auxiliary` auxiliary
    /// inputs can be laid out over these domains.
    pub fn has_room(&self, primary: usize, auxiliary: usize) -> (b: bool)
        ensures
            b == self.holds(primary as int, auxiliary as int),
    {
        self.x > 0 && self.x <= self.h && self.h % self.x == 0 && primary < self.x && auxiliary
            <= self.h - self.x
    }
}

/// Well-formed domains: the witness domain is `x` blocks of `ratio` positions.
pub proof fn lemma_domain_blocks(domains: DomainSizes)
    requires
        domains.well_formed(),
    ensures
        1 <= domains.ratio(),
        domains.h == domains.x * domains.ratio(),
        domains.h - domains.x == domains.x * (domains.ratio() - 1),
{
    let h = domains.h as int;
    let x = domains.x as int;
    lemma_fundamental_div_mod(h, x);
    lemma_div_pos_is_pos(h, x);
    if h / x == 0 {
        assert(x * (h / x) == 0);
    }
    assert(x * (h / x - 1) == x * (h / x) - x) by (nonlinear_arith);
}

} // verus!
