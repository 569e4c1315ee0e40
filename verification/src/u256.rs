//! A 256-bit unsigned integer made of four 64-bit limbs, with the exact
//! arithmetic the address ring needs: wrapping addition of a 64-bit value,
//! division by a 64-bit value, and a total order.

use vstd::prelude::*;
use vstd::arithmetic::div_mod::{
    lemma_fundamental_div_mod, lemma_fundamental_div_mod_converse, lemma_small_mod,
    lemma_mod_multiples_vanish,
};
use vstd::arithmetic::mul::lemma_mul_inequality;

verus! {

/// 2^64.
#[verifier::inline]
pub open spec fn pow2_64() -> int {
    0x10000000000000000
}

/// 2^128.
#[verifier::inline]
pub open spec fn pow2_128() -> int {
    0x100000000000000000000000000000000int
}

/// 2^192.
#[verifier::inline]
pub open spec fn pow2_192() -> int {
    0x1000000000000000000000000000000000000000000000000int
}

/// 2^256, the size of the address space.
#[verifier::inline]
pub open spec fn pow2_256() -> int {
    0x10000000000000000000000000000000000000000000000000000000000000000int
}

/// A 256-bit unsigned integer; `w0` is the least significant limb.
#[derive(Clone, Copy, PartialEq, Eq, Structural, Debug)]
pub struct U256 {
    pub w0: u64,
    pub w1: u64,
    pub w2: u64,
    pub w3: u64,
}

impl U256 {
    /// The numeric value of the four limbs.
    pub open spec fn as_int(self) -> int {
        self.w0 + self.w1 * pow2_64() + self.w2 * pow2_128() + self.w3 * pow2_192()
    }

    /// Strict order on the numeric values, decided limb by limb.
    pub fn lt(&self, other: &U256) -> (r: bool)
        ensures
            r == (self.as_int() < other.as_int()),
    {
        if self.w3 != other.w3 {
            self.w3 < other.w3
        } else if self.w2 != other.w2 {
            self.w2 < other.w2
        } else if self.w1 != other.w1 {
            self.w1 < other.w1
        } else {
            self.w0 < other.w0
        }
    }

    /// Addition of a 64-bit value, wrapping around 2^256.
    #[verifier::spinoff_prover]
    pub fn wrapping_add_u64(&self, rhs: u64) -> (r: U256)
        ensures
            r.as_int() == (self.as_int() + rhs) % pow2_256(),
    {
        let s0: u128 = self.w0 as u128 + rhs as u128;
        let r0: u64 = (s0 % 0x10000000000000000u128) as u64;
        let c0: u128 = s0 / 0x10000000000000000u128;
        let s1: u128 = self.w1 as u128 + c0;
        let r1: u64 = (s1 % 0x10000000000000000u128) as u64;
        let c1: u128 = s1 / 0x10000000000000000u128;
        let s2: u128 = self.w2 as u128 + c1;
        let r2: u64 = (s2 % 0x10000000000000000u128) as u64;
        let c2: u128 = s2 / 0x10000000000000000u128;
        let s3: u128 = self.w3 as u128 + c2;
        let r3: u64 = (s3 % 0x10000000000000000u128) as u64;
        let c3: u128 = s3 / 0x10000000000000000u128;
        let r = U256 { w0: r0, w1: r1, w2: r2, w3: r3 };
        proof {
            lemma_fundamental_div_mod(s0 as int, pow2_64());
            lemma_fundamental_div_mod(s1 as int, pow2_64());
            lemma_fundamental_div_mod(s2 as int, pow2_64());
            lemma_fundamental_div_mod(s3 as int, pow2_64());
            let total = self.as_int() + rhs;
            assert(total == r.as_int() + c3 * pow2_256());
            assert(0 <= r.as_int() < pow2_256());
            if c3 == 0 {
                lemma_small_mod(total as nat, pow2_256() as nat);
            } else {
                assert(c3 == 1);
                lemma_mod_multiples_vanish(1, r.as_int(), pow2_256());
                lemma_small_mod(r.as_int() as nat, pow2_256() as nat);
            }
        }
        r
    }

    /// Division by a nonzero 64-bit value, by long division over the limbs.
    pub fn div_u64(&self, d: u64) -> (r: U256)
        requires
            d >= 1,
        ensures
            r.as_int() == self.as_int() / (d as int),
    {
        self.div_rem_u64(d).0
    }

    /// Quotient and remainder of division by a nonzero 64-bit value.
    #[verifier::spinoff_prover]
    pub fn div_rem_u64(&self, d: u64) -> (r: (U256, u64))
        requires
            d >= 1,
        ensures
            r.0.as_int() == self.as_int() / (d as int),
            r.1 == self.as_int() % (d as int),
            r.1 < d,
    {
        let dd = d as u128;
        let c3: u128 = self.w3 as u128;
        let q3: u64 = (c3 / dd) as u64;
        let rem3: u128 = c3 % dd;
        let c2: u128 = rem3 * 0x10000000000000000u128 + self.w2 as u128;
        proof {
            lemma_fundamental_div_mod(c3 as int, dd as int);
            Self::lemma_partial_quotient_fits(c2 as int, dd as int);
        }
        let q2: u64 = (c2 / dd) as u64;
        let rem2: u128 = c2 % dd;
        let c1: u128 = rem2 * 0x10000000000000000u128 + self.w1 as u128;
        proof {
            lemma_fundamental_div_mod(c2 as int, dd as int);
            Self::lemma_partial_quotient_fits(c1 as int, dd as int);
        }
        let q1: u64 = (c1 / dd) as u64;
        let rem1: u128 = c1 % dd;
        let c0: u128 = rem1 * 0x10000000000000000u128 + self.w0 as u128;
        proof {
            lemma_fundamental_div_mod(c1 as int, dd as int);
            Self::lemma_partial_quotient_fits(c0 as int, dd as int);
        }
        let q0: u64 = (c0 / dd) as u64;
        let rem0: u128 = c0 % dd;
        let r = U256 { w0: q0, w1: q1, w2: q2, w3: q3 };
        let rem_out: u64 = rem0 as u64;
        proof {
            lemma_fundamental_div_mod(c0 as int, dd as int);
            let di = d as int;
            let p3: int = di * q3;
            let p2: int = di * q2;
            let p1: int = di * q1;
            let p0: int = di * q0;
            assert(c3 == p3 + rem3 && c2 == p2 + rem2 && c1 == p1 + rem1 && c0 == p0 + rem0);
            assert(self.as_int() == c3 * pow2_192() + self.w2 * pow2_128() + self.w1 * pow2_64()
                + self.w0);
            assert(self.as_int() == p3 * pow2_192() + c2 * pow2_128() + self.w1 * pow2_64()
                + self.w0);
            assert(self.as_int() == p3 * pow2_192() + p2 * pow2_128() + c1 * pow2_64() + self.w0);
            assert(self.as_int() == p3 * pow2_192() + p2 * pow2_128() + p1 * pow2_64() + c0);
            assert(self.as_int() == p3 * pow2_192() + p2 * pow2_128() + p1 * pow2_64() + p0
                + rem0);
            let qq: int = q0 + q1 * pow2_64() + q2 * pow2_128() + q3 * pow2_192();
            Self::lemma_recompose_quotient(
                di,
                q0 as int,
                q1 as int,
                q2 as int,
                q3 as int,
                pow2_64(),
                pow2_128(),
                pow2_192(),
            );
            assert(self.as_int() == qq * di + rem0);
            lemma_fundamental_div_mod_converse(self.as_int(), di, qq, rem0 as int);
            assert(r.as_int() == qq);
        }
        (r, rem_out)
    }

    /// Distributing a common factor over a weighted sum of quotient limbs.
    proof fn lemma_recompose_quotient(
        di: int,
        q0: int,
        q1: int,
        q2: int,
        q3: int,
        k1: int,
        k2: int,
        k3: int,
    )
        ensures
            di * q3 * k3 + di * q2 * k2 + di * q1 * k1 + di * q0 == (q0 + q1 * k1 + q2 * k2 + q3
                * k3) * di,
    {
        broadcast use vstd::arithmetic::mul::group_mul_properties;

        assert(di * (q3 * k3) == di * q3 * k3);
        assert(di * (q2 * k2) == di * q2 * k2);
        assert(di * (q1 * k1) == di * q1 * k1);
    }

    /// For long division: a partial dividend below `d * 2^64` has a quotient
    /// that fits in one limb.
    proof fn lemma_partial_quotient_fits(c: int, d: int)
        requires
            d >= 1,
            0 <= c < d * pow2_64(),
        ensures
            c / d < pow2_64(),
    {
        broadcast use vstd::arithmetic::mul::lemma_mul_is_commutative;

        lemma_fundamental_div_mod(c, d);
        if c / d >= pow2_64() {
            lemma_mul_inequality(pow2_64(), c / d, d);
        }
    }
}

/// The value of the limb decomposition is recovered by dividing out the limb
/// weights; in particular `as_int` is injective and below 2^256.
#[verifier::spinoff_prover]
pub proof fn lemma_u256_of_int_roundtrip(a: U256)
    ensures
        0 <= a.as_int() < pow2_256(),
        u256_of_int(a.as_int()) == a,
{
    let n = a.as_int();
    assert(n == (a.w1 + a.w2 * pow2_64() + a.w3 * pow2_128()) * pow2_64() + a.w0);
    lemma_fundamental_div_mod_converse(
        n,
        pow2_64(),
        a.w1 + a.w2 * pow2_64() + a.w3 * pow2_128(),
        a.w0 as int,
    );
    assert(n == (a.w2 + a.w3 * pow2_64()) * pow2_128() + (a.w0 + a.w1 * pow2_64()));
    lemma_fundamental_div_mod_converse(
        n,
        pow2_128(),
        a.w2 + a.w3 * pow2_64(),
        a.w0 + a.w1 * pow2_64(),
    );
    lemma_fundamental_div_mod_converse(
        a.w2 + a.w3 * pow2_64(),
        pow2_64(),
        a.w3 as int,
        a.w2 as int,
    );
    assert(n == a.w3 * pow2_192() + (a.w0 + a.w1 * pow2_64() + a.w2 * pow2_128()));
    lemma_fundamental_div_mod_converse(
        n,
        pow2_192(),
        a.w3 as int,
        a.w0 + a.w1 * pow2_64() + a.w2 * pow2_128(),
    );
    lemma_fundamental_div_mod_converse(
        (n / pow2_64()),
        pow2_64(),
        a.w2 + a.w3 * pow2_64(),
        a.w1 as int,
    );
}

/// The 256-bit value with the given numeric value.
pub open spec fn u256_of_int(n: int) -> U256
    recommends
        0 <= n < pow2_256(),
{
    U256 {
        w0: (n % pow2_64()) as u64,
        w1: ((n / pow2_64()) % pow2_64()) as u64,
        w2: ((n / pow2_128()) % pow2_64()) as u64,
        w3: (n / pow2_192()) as u64,
    }
}

} // verus!
