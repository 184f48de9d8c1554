use vstd::arithmetic::div_mod::lemma_mod_multiples_basic;
use vstd::arithmetic::power2::{
    lemma2_to64, lemma2_to64_rest, lemma_pow2_adds, lemma_pow2_pos, lemma_pow2_strictly_increases,
    lemma_pow2_unfold, pow2,
};
use vstd::bits::{lemma_usize_low_bits_mask_is_mod, low_bits_mask};
use vstd::prelude::*;

verus! {

/// `n` is a power of two.
pub open spec fn is_pow2(n: int) -> bool {
    exists|e: nat| n == #[trigger] pow2(e)
}

/// `p` is the least power of two that is not below `n`.
pub open spec fn is_pow2_ceil(n: int, p: int) -> bool {
    &&& is_pow2(p)
    &&& n <= p
    &&& forall|q: int| #[trigger] is_pow2(q) && n <= q ==> p <= q
}

/// How many values a `usize` can take.
pub open spec fn word() -> int {
    usize::MAX + 1
}

/// The word size is itself a power of two, with exponent `usize::BITS`.
pub proof fn lemma_word()
    ensures
        word() == pow2(usize::BITS as nat),
{
    lemma2_to64();
    lemma2_to64_rest();
    assert(usize::BITS == 32 || usize::BITS == 64);
}

/// A power of two that fits in a `usize` has an exponent below `usize::BITS`.
pub proof fn lemma_pow2_fits(n: int) -> (e: nat)
    requires
        is_pow2(n),
        n <= usize::MAX,
    ensures
        n == pow2(e),
        e < usize::BITS,
        n > 0,
{
    let e = choose|e: nat| n == #[trigger] pow2(e);
    lemma_word();
    lemma_pow2_pos(e);
    if e >= usize::BITS {
        if e > usize::BITS {
            lemma_pow2_strictly_increases(usize::BITS as nat, e);
        }
    }
    e
}

/// A power of two that fits in a `usize` divides the word size.
pub proof fn lemma_pow2_divides_word(n: int)
    requires
        is_pow2(n),
        n <= usize::MAX,
    ensures
        n > 0,
        word() % n == 0,
{
    let e = lemma_pow2_fits(n);
    lemma_word();
    let f = (usize::BITS - e) as nat;
    lemma_pow2_adds(e, f);
    assert(word() == pow2(f) * n) by (nonlinear_arith)
        requires
            word() == n * pow2(f),
    ;
    lemma_mod_multiples_basic(pow2(f) as int, n);
}

/// Masking with a power of two less one is taking the remainder.
pub proof fn lemma_mask_is_mod(x: usize, n: usize)
    requires
        is_pow2(n as int),
    ensures
        n > 0,
        x & ((n - 1) as usize) == x % n,
{
    let e = lemma_pow2_fits(n as int);
    lemma_usize_low_bits_mask_is_mod(x, e);
    assert(low_bits_mask(e) == n - 1);
}

/// The least power of two not below `n`, and 1 for 0.
pub fn nearest_power_of_two(n: usize) -> (p: usize)
    requires
        n <= usize::MAX / 2 + 1,
    ensures
        p >= 1,
        is_pow2_ceil(n as int, p as int),
{
    let mut p: usize = 1;
    let ghost mut e: nat = 0;
    proof {
        lemma_word();
        lemma2_to64();
        lemma_pow2_unfold(usize::BITS as nat);
        assert forall|q: int| #[trigger] is_pow2(q) implies 1 <= q by {
            let k = choose|k: nat| q == #[trigger] pow2(k);
            lemma_pow2_pos(k);
        }
    }
    while p < n
        invariant
            p >= 1,
            p == pow2(e),
            n <= usize::MAX / 2 + 1,
            word() == pow2(usize::BITS as nat),
            word() == 2 * pow2((usize::BITS - 1) as nat),
            forall|q: int| #[trigger] is_pow2(q) && n <= q ==> p <= q,
        decreases usize::MAX - p,
    {
        proof {
            lemma_pow2_unfold(e + 1);
            if e >= usize::BITS - 1 {
                if e > usize::BITS - 1 {
                    lemma_pow2_strictly_increases((usize::BITS - 1) as nat, e);
                }
                assert(false);
            }
            lemma_pow2_strictly_increases(e, (usize::BITS - 1) as nat);
            assert forall|q: int| #[trigger] is_pow2(q) && n <= q implies 2 * p <= q by {
                let k = choose|k: nat| q == #[trigger] pow2(k);
                if k <= e {
                    if k < e {
                        lemma_pow2_strictly_increases(k, e);
                    }
                    assert(false);
                }
                if k > e + 1 {
                    lemma_pow2_strictly_increases(e + 1, k);
                }
            }
        }
        p = p * 2;
        proof {
            e = e + 1;
        }
    }
    proof {
        assert(p == pow2(e));
    }
    p
}

/// The powers of two up to 2^32, for callers that need one to be known as such.
pub proof fn lemma_powers()
    ensures
        is_pow2(0x1),
        is_pow2(0x2),
        is_pow2(0x4),
        is_pow2(0x8),
        is_pow2(0x10),
        is_pow2(0x20),
        is_pow2(0x40),
        is_pow2(0x80),
        is_pow2(0x100),
        is_pow2(0x200),
        is_pow2(0x400),
        is_pow2(0x800),
        is_pow2(0x1000),
        is_pow2(0x2000),
        is_pow2(0x4000),
        is_pow2(0x8000),
        is_pow2(0x10000),
        is_pow2(0x20000),
        is_pow2(0x40000),
        is_pow2(0x80000),
        is_pow2(0x100000),
        is_pow2(0x200000),
        is_pow2(0x400000),
        is_pow2(0x800000),
        is_pow2(0x1000000),
        is_pow2(0x2000000),
        is_pow2(0x4000000),
        is_pow2(0x8000000),
        is_pow2(0x10000000),
        is_pow2(0x20000000),
        is_pow2(0x40000000),
        is_pow2(0x80000000),
        is_pow2(0x100000000),
{
    lemma2_to64();
    assert(0x1 == pow2(0));
    assert(0x2 == pow2(1));
    assert(0x4 == pow2(2));
    assert(0x8 == pow2(3));
    assert(0x10 == pow2(4));
    assert(0x20 == pow2(5));
    assert(0x40 == pow2(6));
    assert(0x80 == pow2(7));
    assert(0x100 == pow2(8));
    assert(0x200 == pow2(9));
    assert(0x400 == pow2(10));
    assert(0x800 == pow2(11));
    assert(0x1000 == pow2(12));
    assert(0x2000 == pow2(13));
    assert(0x4000 == pow2(14));
    assert(0x8000 == pow2(15));
    assert(0x10000 == pow2(16));
    assert(0x20000 == pow2(17));
    assert(0x40000 == pow2(18));
    assert(0x80000 == pow2(19));
    assert(0x100000 == pow2(20));
    assert(0x200000 == pow2(21));
    assert(0x400000 == pow2(22));
    assert(0x800000 == pow2(23));
    assert(0x1000000 == pow2(24));
    assert(0x2000000 == pow2(25));
    assert(0x4000000 == pow2(26));
    assert(0x8000000 == pow2(27));
    assert(0x10000000 == pow2(28));
    assert(0x20000000 == pow2(29));
    assert(0x40000000 == pow2(30));
    assert(0x80000000 == pow2(31));
    assert(0x100000000 == pow2(32));
}

/// Rounding up to a power of two twice is rounding once.
pub proof fn law_rounding_is_idempotent(n: int, p: int, q: int)
    requires
        is_pow2_ceil(n, p),
        is_pow2_ceil(p, q),
    ensures
        q == p,
{
    assert(is_pow2(p));
}

/// Rounding up to a power of two less than doubles a number.
pub proof fn law_rounding_less_than_doubles(n: int, p: int)
    requires
        n >= 1,
        is_pow2_ceil(n, p),
    ensures
        n <= p < 2 * n,
{
    let e = choose|e: nat| p == #[trigger] pow2(e);
    if p >= 2 * n {
        lemma2_to64();
        assert(e > 0);
        lemma_pow2_unfold(e);
        let q = pow2((e - 1) as nat) as int;
        assert(is_pow2(q));
    }
}

} // verus!
