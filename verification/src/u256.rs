//! Unsigned 256-bit arithmetic.
//!
//! Products of two 128-bit balances need 256-bit intermediates, and the
//! per-share accumulators of a sale are 256-bit values.  The type here
//! stores a value as two 128-bit limbs and proves every operation against
//! the mathematical value `lo + 2^128 * hi`.

use vstd::prelude::*;
use vstd::arithmetic::power2::{pow2, lemma_pow2_adds, lemma_pow2_pos, lemma2_to64, lemma2_to64_rest};
use vstd::arithmetic::div_mod::{
    lemma_fundamental_div_mod, lemma_fundamental_div_mod_converse_div,
    lemma_fundamental_div_mod_converse_mod,
};
use vstd::arithmetic::mul::{
    lemma_mul_inequality, lemma_mul_strict_inequality, lemma_mul_upper_bound,
    lemma_mul_is_distributive_add_other_way, lemma_mul_is_distributive_add,
    lemma_mul_is_commutative, lemma_mul_is_associative,
};

verus! {

/// 2^64 as a mathematical integer.
pub open spec fn p64() -> int {
    0x10000000000000000
}

/// 2^128 as a mathematical integer.
pub open spec fn p128() -> int {
    0x100000000000000000000000000000000int
}

/// 2^255 as a mathematical integer.
pub open spec fn p255() -> int {
    0x8000000000000000000000000000000000000000000000000000000000000000int
}

/// 2^256 as a mathematical integer.
pub open spec fn p256() -> int {
    0x10000000000000000000000000000000000000000000000000000000000000000int
}

/// 2^127, the top bit of a 128-bit limb.
pub const LIMB_TOP_BIT: u128 = 0x80000000000000000000000000000000;

/// 2^64 as a limb value.
pub const LIMB_P64: u128 = 0x10000000000000000;

/// Ties the symbolic `pow2` function to the literal constants used in
/// the limb arithmetic.
pub proof fn lemma_pow2_big()
    ensures
        pow2(127) == LIMB_TOP_BIT,
        pow2(128) == p128(),
        pow2(255) == p255(),
        pow2(256) == p256(),
        pow2(0) == 1,
        pow2(1) == 2,
{
    lemma2_to64();
    lemma2_to64_rest();
    lemma_pow2_adds(64, 63);
    lemma_pow2_adds(64, 64);
    assert(pow2(127) == LIMB_TOP_BIT) by (nonlinear_arith)
        requires
            pow2(127) == pow2(64) * pow2(63),
            pow2(64) == 0x10000000000000000,
            pow2(63) == 0x8000000000000000,
    {
    }
    assert(pow2(128) == p128()) by (nonlinear_arith)
        requires
            pow2(128) == pow2(64) * pow2(64),
            pow2(64) == 0x10000000000000000,
    {
    }
    lemma_pow2_adds(128, 127);
    lemma_pow2_adds(128, 128);
    assert(pow2(255) == p255()) by (nonlinear_arith)
        requires
            pow2(255) == pow2(128) * pow2(127),
            pow2(128) == p128(),
            pow2(127) == LIMB_TOP_BIT,
    {
    }
    assert(pow2(256) == p256()) by (nonlinear_arith)
        requires
            pow2(256) == pow2(128) * pow2(128),
            pow2(128) == p128(),
    {
    }
}

/// An unsigned 256-bit integer stored as two 128-bit limbs.
#[derive(Clone, Copy, Debug, PartialEq, Eq, Structural)]
pub struct U256 {
    pub lo: u128,
    pub hi: u128,
}

impl U256 {
    /// The mathematical value of this 256-bit integer.
    pub open spec fn v(self) -> int {
        self.lo as int + p128() * (self.hi as int)
    }

    pub fn zero() -> (r: U256)
        ensures
            r.v() == 0,
    {
        U256 { lo: 0, hi: 0 }
    }

    pub fn from_u128(x: u128) -> (r: U256)
        ensures
            r.v() == x,
    {
        U256 { lo: x, hi: 0 }
    }

    pub fn is_zero(&self) -> (r: bool)
        ensures
            r <==> self.v() == 0,
    {
        self.lo == 0 && self.hi == 0
    }

    /// The value fits in 128 bits, so the low limb is the whole value.
    pub fn as_u128(self) -> (r: u128)
        requires
            self.v() < p128(),
        ensures
            r == self.v(),
    {
        self.lo
    }

    pub fn lt(self, other: U256) -> (r: bool)
        ensures
            r <==> self.v() < other.v(),
    {
        self.hi < other.hi || (self.hi == other.hi && self.lo < other.lo)
    }

    pub fn plus(self, other: U256) -> (r: U256)
        requires
            self.v() + other.v() < p256(),
        ensures
            r.v() == self.v() + other.v(),
    {
        let (lo, carry): (u128, u128) = if self.lo <= u128::MAX - other.lo {
            (self.lo + other.lo, 0)
        } else {
            (self.lo - (u128::MAX - other.lo) - 1, 1)
        };
        let hi = self.hi + other.hi + carry;
        U256 { lo, hi }
    }

    pub fn minus(self, other: U256) -> (r: U256)
        requires
            self.v() >= other.v(),
        ensures
            r.v() == self.v() - other.v(),
    {
        let (lo, borrow): (u128, u128) = if self.lo >= other.lo {
            (self.lo - other.lo, 0)
        } else {
            (u128::MAX - other.lo + self.lo + 1, 1)
        };
        let hi = self.hi - other.hi - borrow;
        U256 { lo, hi }
    }

    /// Doubles the value, discarding the top bit.
    fn double_mod(self) -> (r: U256)
        ensures
            r.v() == if self.v() >= p255() {
                2 * self.v() - p256()
            } else {
                2 * self.v()
            },
            r.lo % 2 == 0,
    {
        let carry: u128 = if self.lo >= LIMB_TOP_BIT {
            1
        } else {
            0
        };
        let lo2: u128 = if self.lo >= LIMB_TOP_BIT {
            (self.lo - LIMB_TOP_BIT) * 2
        } else {
            self.lo * 2
        };
        let hi_kept: u128 = if self.hi >= LIMB_TOP_BIT {
            self.hi - LIMB_TOP_BIT
        } else {
            self.hi
        };
        let hi2: u128 = hi_kept * 2 + carry;
        U256 { lo: lo2, hi: hi2 }
    }

    /// Doubles the value and adds a bit, without truncation.
    fn double_plus(self, b: u128) -> (r: U256)
        requires
            b <= 1,
            2 * self.v() + b < p256(),
        ensures
            r.v() == 2 * self.v() + b,
    {
        let d = self.double_mod();
        U256 { lo: d.lo + b, hi: d.hi }
    }

    /// Whether the top (255th) bit of the value is set.
    fn top_bit(&self) -> (b: u128)
        ensures
            b <= 1,
            b == 1 <==> self.v() >= p255(),
    {
        if self.hi >= LIMB_TOP_BIT {
            1
        } else {
            0
        }
    }

    /// Full 128 x 128 -> 256 bit multiplication.
    pub fn mul128(a: u128, b: u128) -> (r: U256)
        ensures
            r.v() == a * b,
    {
        let ah = a / LIMB_P64;
        let al = a % LIMB_P64;
        let bh = b / LIMB_P64;
        let bl = b % LIMB_P64;
        proof {
            assert((p64() - 1) * (p64() - 1) < p128()) by (nonlinear_arith);
            lemma_mul_upper_bound(ah as int, p64() - 1, bh as int, p64() - 1);
            lemma_mul_upper_bound(ah as int, p64() - 1, bl as int, p64() - 1);
            lemma_mul_upper_bound(al as int, p64() - 1, bh as int, p64() - 1);
            lemma_mul_upper_bound(al as int, p64() - 1, bl as int, p64() - 1);
        }
        let ll = al * bl;
        let lh = al * bh;
        let hl = ah * bl;
        let hh = ah * bh;
        let t = ll / LIMB_P64 + lh % LIMB_P64 + hl % LIMB_P64;
        proof {
            lemma_mul_inequality(t as int % p64(), p64() - 1, p64());
        }
        let lo = (t % LIMB_P64) * LIMB_P64 + ll % LIMB_P64;
        proof {
            assert(p64() * (p64() - 1) == p128() - p64()) by (nonlinear_arith);
            assert((p64() - 1) * (p64() - 1) == p128() - 2 * p64() + 1) by (nonlinear_arith);
            vstd::arithmetic::div_mod::lemma_multiply_divide_le(lh as int, p64(), p64() - 1);
            vstd::arithmetic::div_mod::lemma_multiply_divide_le(hl as int, p64(), p64() - 1);
            vstd::arithmetic::div_mod::lemma_multiply_divide_le(t as int, p64(), 3);
        }
        let hi = hh + lh / LIMB_P64 + hl / LIMB_P64 + t / LIMB_P64;
        proof {
            lemma_fundamental_div_mod(a as int, p64());
            lemma_fundamental_div_mod(b as int, p64());
            lemma_fundamental_div_mod(ll as int, p64());
            lemma_fundamental_div_mod(lh as int, p64());
            lemma_fundamental_div_mod(hl as int, p64());
            lemma_fundamental_div_mod(t as int, p64());
            assert((lo as int) + p128() * (hi as int) == (a as int) * (b as int))
                by (nonlinear_arith)
                requires
                    a as int == (ah as int) * p64() + al as int,
                    b as int == (bh as int) * p64() + bl as int,
                    ll as int == (al as int) * (bl as int),
                    lh as int == (al as int) * (bh as int),
                    hl as int == (ah as int) * (bl as int),
                    hh as int == (ah as int) * (bh as int),
                    ll as int == (ll as int / p64()) * p64() + (ll as int % p64()),
                    lh as int == (lh as int / p64()) * p64() + (lh as int % p64()),
                    hl as int == (hl as int / p64()) * p64() + (hl as int % p64()),
                    t as int == (ll as int / p64()) + (lh as int % p64()) + (hl as int % p64()),
                    t as int == (t as int / p64()) * p64() + (t as int % p64()),
                    lo as int == (t as int % p64()) * p64() + (ll as int % p64()),
                    hi as int == (hh as int) + (lh as int / p64()) + (hl as int / p64()) + (t as int / p64()),
                    p128() == p64() * p64(),
            {
            }
        }
        U256 { lo, hi }
    }

    /// Multiplies a 256-bit value by a 128-bit value; the product must fit.
    pub fn mul_u128(self, m: u128) -> (r: U256)
        requires
            self.v() * m < p256(),
        ensures
            r.v() == self.v() * m,
    {
        proof {
            if m > 0 {
                lemma_mul_inequality(p128() * (self.hi as int), self.v(), m as int);
                assert(p128() * (self.hi as int) * (m as int) == p128() * ((self.hi as int) * (m as int))) by {
                    lemma_mul_is_associative(p128(), self.hi as int, m as int);
                }
                assert((self.hi as int) * (m as int) < p128()) by {
                    if (self.hi as int) * (m as int) >= p128() {
                        lemma_mul_inequality(p128(), (self.hi as int) * (m as int), p128());
                    }
                }
            } else {
                assert((self.hi as int) * (m as int) == 0) by {
                    lemma_mul_is_commutative(self.hi as int, m as int);
                }
                assert((self.lo as int) * (m as int) == 0) by {
                    lemma_mul_is_commutative(self.lo as int, m as int);
                }
            }
        }
        let low = U256::mul128(self.lo, m);
        let high = U256::mul128(self.hi, m);
        let shifted = U256 { lo: 0, hi: high.lo };
        proof {
            assert(self.v() * (m as int) == (self.lo as int) * (m as int) + p128() * ((self.hi as int) * (m as int))) by {
                lemma_mul_is_distributive_add_other_way(m as int, self.lo as int, p128() * (self.hi as int));
                lemma_mul_is_associative(p128(), self.hi as int, m as int);
                lemma_mul_is_commutative(p128() * (self.hi as int), m as int);
                lemma_mul_is_commutative(self.lo as int, m as int);
            }
        }
        low.plus(shifted)
    }

    /// Long division of a 256-bit value by a non-zero 128-bit divisor.
    pub fn div_rem(self, d: u128) -> (qr: (U256, u128))
        requires
            d >= 1,
        ensures
            (qr.0.v()) * d + qr.1 == self.v(),
            qr.1 < d,
            qr.0.v() == self.v() / (d as int),
            qr.1 == self.v() % (d as int),
    {
        let mut q = U256::zero();
        let mut rem = U256::zero();
        let mut n = self;
        let mut i: usize = 0;
        let ghost mut low: int = self.v();
        let ghost mut pre: int = 0;
        proof {
            lemma_pow2_big();
        }
        while i < 256
            invariant
                i <= 256,
                d >= 1,
                rem.v() < d,
                n.v() == low * pow2(i as nat),
                0 <= low < pow2((256 - i) as nat),
                self.v() == pre * pow2((256 - i) as nat) + low,
                q.v() * d + rem.v() == pre,
                0 <= pre < pow2(i as nat),
            decreases 256 - i,
        {
            proof {
                lemma_pow2_big();
                lemma_pow2_adds((255 - i) as nat, 1);
                lemma_pow2_adds(i as nat, 1);
                lemma_pow2_adds(i as nat, (255 - i) as nat);
                lemma_pow2_pos(i as nat);
                lemma_pow2_pos((255 - i) as nat);
            }
            let b = n.top_bit();
            proof {
                // The top bit of n is the top bit of low.
                if b == 1 {
                    assert(low >= pow2((255 - i) as nat)) by {
                        if low < pow2((255 - i) as nat) {
                            lemma_mul_strict_inequality(low, pow2((255 - i) as nat) as int, pow2(i as nat) as int);
                            lemma_mul_is_commutative(pow2((255 - i) as nat) as int, pow2(i as nat) as int);
                        }
                    }
                } else {
                    assert(low < pow2((255 - i) as nat)) by {
                        if low >= pow2((255 - i) as nat) {
                            lemma_mul_inequality(pow2((255 - i) as nat) as int, low, pow2(i as nat) as int);
                            lemma_mul_is_commutative(pow2((255 - i) as nat) as int, pow2(i as nat) as int);
                        }
                    }
                }
            }
            let n2 = n.double_mod();
            proof {
                // q stays below 2^255, so doubling it cannot overflow.
                lemma_mul_inequality(1, d as int, q.v());
                lemma_mul_is_commutative(q.v(), d as int);
                if i < 255 {
                    vstd::arithmetic::power2::lemma_pow2_strictly_increases(i as nat, 255);
                }
                assert(q.v() < p255());
            }
            let rcand = rem.double_plus(b);
            let (rem2, qbit): (U256, u128) = if !rcand.lt(U256::from_u128(d)) {
                (rcand.minus(U256::from_u128(d)), 1)
            } else {
                (rcand, 0)
            };
            let q2 = q.double_plus(qbit);
            proof {
                let ghost low2 = low - b * pow2((255 - i) as nat);
                let ghost pre2 = 2 * pre + b;
                assert(self.v() == pre2 * pow2((255 - i) as nat) + low2) by {
                    assert(pow2((256 - i) as nat) == 2 * pow2((255 - i) as nat));
                    assert(pre * (2 * (pow2((255 - i) as nat) as int)) == (2 * pre) * (pow2((255 - i) as nat) as int)) by {
                        lemma_mul_is_associative(pre, 2, pow2((255 - i) as nat) as int);
                        lemma_mul_is_commutative(pre, 2);
                    }
                    lemma_mul_is_distributive_add_other_way(
                        pow2((255 - i) as nat) as int, 2 * pre, b as int);
                }
                assert(n2.v() == low2 * pow2((i + 1) as nat)) by {
                    assert(low * pow2(i as nat) >= p255() <==> b == 1);
                    assert(2 * (low * pow2(i as nat)) == low * pow2((i + 1) as nat)) by {
                        lemma_mul_is_associative(2, low, pow2(i as nat) as int);
                        lemma_mul_is_commutative(2, low);
                        lemma_mul_is_associative(low, 2, pow2(i as nat) as int);
                    }
                    assert(low * pow2((i + 1) as nat) == low2 * pow2((i + 1) as nat) + b * (pow2((255 - i) as nat) * pow2((i + 1) as nat))) by {
                        lemma_mul_is_distributive_add_other_way(
                            pow2((i + 1) as nat) as int, low2, b * pow2((255 - i) as nat));
                        lemma_mul_is_associative(b as int, pow2((255 - i) as nat) as int, pow2((i + 1) as nat) as int);
                    }
                    assert(pow2((255 - i) as nat) * pow2((i + 1) as nat) == p256()) by {
                        lemma_pow2_adds((255 - i) as nat, (i + 1) as nat);
                    }
                    assert(low2 * pow2((i + 1) as nat) < p256()) by {
                        lemma_mul_strict_inequality(low2, pow2((255 - i) as nat) as int, pow2((i + 1) as nat) as int);
                        lemma_mul_is_commutative(pow2((255 - i) as nat) as int, pow2((i + 1) as nat) as int);
                        lemma_pow2_adds((255 - i) as nat, (i + 1) as nat);
                    }
                    assert(low2 * pow2((i + 1) as nat) >= 0) by {
                        vstd::arithmetic::mul::lemma_mul_nonnegative(low2, pow2((i + 1) as nat) as int);
                    }
                }
                assert(q2.v() * d + rem2.v() == pre2) by {
                    lemma_mul_is_distributive_add_other_way(d as int, 2 * q.v(), qbit as int);
                    lemma_mul_is_distributive_add_other_way(d as int, q.v(), q.v());
                }
                low = low2;
                pre = pre2;
            }
            q = q2;
            rem = rem2;
            n = n2;
            i = i + 1;
        }
        proof {
            lemma_pow2_big();
            assert(low == 0);
            assert(pre * (pow2(0) as int) == pre * 1);
            assert(self.v() == q.v() * (d as int) + rem.v());
            lemma_fundamental_div_mod_converse_div(self.v(), d as int, q.v(), rem.v());
            lemma_fundamental_div_mod_converse_mod(self.v(), d as int, q.v(), rem.v());
        }
        let r = rem.as_u128();
        (q, r)
    }
}

/// Computes `a * b / c` exactly, with a 256-bit intermediate product.
/// The quotient must fit in 128 bits.
pub fn mul_div(a: u128, b: u128, c: u128) -> (r: u128)
    requires
        c >= 1,
        a * b / (c as int) < p128(),
    ensures
        r == a * b / (c as int),
{
    proof {
        lemma_mul_upper_bound(a as int, p128() - 1, b as int, p128() - 1);
    }
    let prod = U256::mul128(a, b);
    let (q, _rem) = prod.div_rem(c);
    q.as_u128()
}

/// Computes `(a * b + c - 1) / c`, the ceiling of `a * b / c`, with a
/// 256-bit intermediate product.  The result must fit in 128 bits.
pub fn mul_div_up(a: u128, b: u128, c: u128) -> (r: u128)
    requires
        c >= 1,
        (a * b + c - 1) / (c as int) < p128(),
    ensures
        r == (a * b + c - 1) / (c as int),
{
    proof {
        lemma_mul_upper_bound(a as int, p128() - 1, b as int, p128() - 1);
        assert((p128() - 1) * (p128() - 1) + p128() < p256()) by (nonlinear_arith);
    }
    let prod = U256::mul128(a, b);
    let bumped = prod.plus(U256::from_u128(c - 1));
    let (q, _rem) = bumped.div_rem(c);
    q.as_u128()
}

} // verus!
