//! Integers of any size, as Python writes them.
use vstd::arithmetic::div_mod::{
    lemma_div_denominator, lemma_fundamental_div_mod, lemma_fundamental_div_mod_converse,
    lemma_mod_multiples_basic,
};
use vstd::arithmetic::power::{lemma_pow_positive, pow};
use vstd::prelude::*;

verus! {

/// An integer of any size: its sign, and its magnitude in base 2^64 with the lowest digit first.
#[derive(Debug)]
pub struct Integer {
    pub negative: bool,
    pub digits: Vec<u64>,
}

/// 2^64.
pub open spec fn base() -> int {
    0x1_0000_0000_0000_0000
}

/// The number that `digits` write in base 2^64, lowest digit first.
pub open spec fn magnitude(digits: Seq<u64>) -> int
    decreases digits.len(),
{
    if digits.len() == 0 {
        0
    } else {
        digits[0] + base() * magnitude(digits.skip(1))
    }
}

/// `n` reduced to 64 bits in two's complement.
pub open spec fn truncated(n: int) -> u64 {
    (n % base()) as u64
}

impl View for Integer {
    type V = int;

    open spec fn view(&self) -> int {
        if self.negative {
            -magnitude(self.digits@)
        } else {
            magnitude(self.digits@)
        }
    }
}

impl Integer {
    /// The lowest 64 bits of the two's complement encoding.
    pub fn truncate_to_u64(&self) -> (r: u64)
        ensures
            r == truncated(self@),
    {
        let lowest: u64 = if self.digits.len() == 0 {
            0
        } else {
            self.digits[0]
        };
        proof {
            let digits = self.digits@;
            let rest = if digits.len() == 0 {
                0
            } else {
                magnitude(digits.skip(1))
            };
            assert(magnitude(digits) == base() * rest + lowest);
            lemma_fundamental_div_mod_converse(magnitude(digits), base(), rest, lowest as int);
            if self.negative && lowest != 0 {
                assert(-magnitude(digits) == base() * (-rest - 1) + (base() - lowest))
                    by (nonlinear_arith)
                    requires
                        magnitude(digits) == base() * rest + lowest,
                ;
                lemma_fundamental_div_mod_converse(
                    -magnitude(digits),
                    base(),
                    -rest - 1,
                    base() - lowest,
                );
            } else if self.negative {
                assert(-magnitude(digits) == base() * (-rest) + 0) by (nonlinear_arith)
                    requires
                        magnitude(digits) == base() * rest + lowest,
                        lowest == 0,
                ;
                lemma_fundamental_div_mod_converse(-magnitude(digits), base(), -rest, 0);
            }
        }
        if self.negative && lowest != 0 {
            u64::MAX - lowest + 1
        } else {
            lowest
        }
    }

    /// The integer with its sign changed.
    pub fn negated(&self) -> (r: Integer)
        ensures
            r@ == -self@,
    {
        Integer { negative: !self.negative, digits: self.digits.clone() }
    }
}

/// The digits of an integer are those of its magnitude in base 2^64, digit `i` at the place of
/// (2^64)^i, and there are no others. The sign makes it the opposite of the integer without it.
/// Truncation keeps the integer modulo 2^64.
pub proof fn integer_value(negative: bool, digits: Vec<u64>, i: nat)
    ensures
        ({
            let magnitude = Integer { negative: false, digits }@;
            let n = digits@.len();
            &&& Integer { negative: true, digits }@ == -magnitude
            &&& 0 <= magnitude < pow(0x1_0000_0000_0000_0000, n)
            &&& i < n ==> (magnitude / pow(0x1_0000_0000_0000_0000, i)) % 0x1_0000_0000_0000_0000
                == digits@[i as int]
            &&& (truncated(Integer { negative, digits }@) - Integer { negative, digits }@)
                % 0x1_0000_0000_0000_0000 == 0
        }),
{
    lemma_digits(digits@, i);
    let value = Integer { negative, digits }@;
    lemma_fundamental_div_mod(value, base());
    let q = value / base();
    assert(truncated(value) - value == base() * (-q)) by (nonlinear_arith)
        requires
            value == base() * q + truncated(value),
    ;
    lemma_mod_multiples_basic(-q, base());
    assert((-q) * base() == base() * (-q)) by (nonlinear_arith);
}

/// The digits of a magnitude.
proof fn lemma_digits(digits: Seq<u64>, i: nat)
    ensures
        0 <= magnitude(digits) < pow(base(), digits.len()),
        i < digits.len() ==> (magnitude(digits) / pow(base(), i)) % base() == digits[i as int],
    decreases digits.len(),
{
    reveal(pow);
    if digits.len() > 0 {
        let rest = digits.skip(1);
        let m = magnitude(rest);
        let p = pow(base(), rest.len());
        lemma_digits(rest, if i > 0 {
            (i - 1) as nat
        } else {
            0
        });
        assert(pow(base(), digits.len()) == base() * p);
        assert(digits[0] + base() * m < base() * p) by (nonlinear_arith)
            requires
                m < p,
                digits[0] < base(),
        ;
        assert(base() * m >= 0) by (nonlinear_arith)
            requires
                m >= 0,
        ;
        lemma_fundamental_div_mod_converse(magnitude(digits), base(), m, digits[0] as int);
        if i == 0 {
            assert(magnitude(digits) / 1 == magnitude(digits));
        } else if i < digits.len() {
            let k = (i - 1) as nat;
            lemma_pow_positive(base(), k);
            lemma_div_denominator(magnitude(digits), base(), pow(base(), k));
            assert(rest[k as int] == digits[i as int]);
        }
    }
}

} // verus!
