//! Numbers: IEEE 754 doubles by their bit patterns, and what can be said of
//! them with integers alone: how two of them compare, the whole part of one,
//! and the double that stands for a count.

use vstd::arithmetic::div_mod::lemma_div_multiples_vanish;
use vstd::arithmetic::power2::{
    lemma2_to64, lemma2_to64_rest, lemma_pow2_adds, lemma_pow2_pos, lemma_pow2_strictly_increases,
    lemma_pow2_unfold, pow2,
};
use vstd::prelude::*;

verus! {

/// The sign bit of a double.
pub const SIGN: u64 = 0x8000_0000_0000_0000;

/// Positive infinity: every exponent bit set, no fraction bit.
pub const INFINITY: u64 = 0x7FF0_0000_0000_0000;

/// The value one.
pub const ONE: u64 = 0x3FF0_0000_0000_0000;

/// The value zero.
pub const ZERO: u64 = 0;

/// Two to the power 52: the weight of the lowest exponent bit, and the
/// implicit leading bit of a normal number's significand.
pub const HIDDEN: u64 = 0x0010_0000_0000_0000;

/// How two numbers stand to each other. `Unordered` is what comparing with a
/// NaN gives.
#[derive(Clone, Copy, Debug, PartialEq, Eq, Structural)]
pub enum Relation {
    Less,
    Equal,
    Greater,
    Unordered,
}

/// The bits below the sign bit.
pub open spec fn magnitude(bits: u64) -> int {
    bits as int % 0x8000_0000_0000_0000
}

pub open spec fn is_negative(bits: u64) -> bool {
    bits >= 0x8000_0000_0000_0000
}

/// A NaN has every exponent bit set and some fraction bit.
pub open spec fn is_nan(bits: u64) -> bool {
    magnitude(bits) > 0x7FF0_0000_0000_0000
}

/// Where a number that is no NaN stands on the number line, as an integer
/// that grows with the number. Both zeros stand at 0.
pub open spec fn ordinal(bits: u64) -> int {
    if is_negative(bits) {
        -magnitude(bits)
    } else {
        magnitude(bits)
    }
}

/// The IEEE 754 comparison of two doubles.
pub open spec fn relation_of(a: u64, b: u64) -> Relation {
    if is_nan(a) || is_nan(b) {
        Relation::Unordered
    } else if ordinal(a) < ordinal(b) {
        Relation::Less
    } else if ordinal(a) == ordinal(b) {
        Relation::Equal
    } else {
        Relation::Greater
    }
}

/// The biased exponent, 0 to 2047.
pub open spec fn exponent(bits: u64) -> int {
    magnitude(bits) / 0x0010_0000_0000_0000
}

/// The significand of a normal number, the implicit leading bit included.
pub open spec fn significand(bits: u64) -> int {
    0x0010_0000_0000_0000 + magnitude(bits) % 0x0010_0000_0000_0000
}

/// The whole part of a number, rounded toward zero. A NaN and every number
/// below one give 0; infinity gives a number beyond every machine integer.
pub open spec fn truncated(bits: u64) -> nat {
    if is_nan(bits) || is_negative(bits) || exponent(bits) < 1023 {
        0
    } else if exponent(bits) >= 1075 {
        (significand(bits) * pow2((exponent(bits) - 1075) as nat)) as nat
    } else {
        (significand(bits) / pow2((1075 - exponent(bits)) as nat) as int) as nat
    }
}

/// The whole part of a number as an index: `truncated`, held to 64 bits.
pub open spec fn index_of(bits: u64) -> u64 {
    if truncated(bits) > u64::MAX {
        u64::MAX
    } else {
        truncated(bits) as u64
    }
}

/// The whole part of a number as a repeat count: `truncated`, held to 32 bits.
pub open spec fn count_of(bits: u64) -> u32 {
    if truncated(bits) > u32::MAX {
        u32::MAX
    } else {
        truncated(bits) as u32
    }
}

/// The position of the highest set bit of `n`; 0 for 0 and 1.
pub open spec fn top_bit(n: nat) -> nat
    decreases n,
{
    if n <= 1 {
        0
    } else {
        1 + top_bit(n / 2)
    }
}

/// The double nearest to `n`, ties going to the even significand.
pub open spec fn count_as_number(n: u64) -> u64 {
    let k = top_bit(n as nat);
    if n == 0 {
        0
    } else if k <= 52 {
        ((1023 + k) * 0x0010_0000_0000_0000 + (n * pow2((52 - k) as nat) - 0x0010_0000_0000_0000)) as u64
    } else {
        let unit = pow2((k - 52) as nat) as int;
        let kept = n as int / unit;
        let rest = n as int % unit;
        let up: int = if 2 * rest > unit || (2 * rest == unit && kept % 2 == 1) {
            1
        } else {
            0
        };
        ((1023 + k) * 0x0010_0000_0000_0000 + (kept - 0x0010_0000_0000_0000) + up) as u64
    }
}

/// Compares two doubles as IEEE 754 does.
pub fn relation(a: u64, b: u64) -> (r: Relation)
    ensures
        r == relation_of(a, b),
{
    let ma: u64 = a % SIGN;
    let mb: u64 = b % SIGN;
    if ma > INFINITY || mb > INFINITY {
        Relation::Unordered
    } else if a >= SIGN {
        if b >= SIGN {
            if ma > mb {
                Relation::Less
            } else if ma == mb {
                Relation::Equal
            } else {
                Relation::Greater
            }
        } else if ma == 0 && mb == 0 {
            Relation::Equal
        } else {
            Relation::Less
        }
    } else if b >= SIGN {
        if ma == 0 && mb == 0 {
            Relation::Equal
        } else {
            Relation::Greater
        }
    } else if ma < mb {
        Relation::Less
    } else if ma == mb {
        Relation::Equal
    } else {
        Relation::Greater
    }
}

/// Two to the power `k`.
fn power_of_two(k: u64) -> (r: u64)
    requires
        k < 64,
    ensures
        r == pow2(k as nat),
{
    let mut r: u64 = 1;
    let mut i: u64 = 0;
    proof {
        lemma2_to64();
    }
    while i < k
        invariant
            i <= k,
            k < 64,
            r == pow2(i as nat),
        decreases k - i,
    {
        proof {
            lemma_pow2_unfold((i + 1) as nat);
            lemma2_to64_rest();
            if i + 1 < 63 {
                lemma_pow2_strictly_increases((i + 1) as nat, 63);
            }
        }
        r = r * 2;
        i += 1;
    }
    r
}

/// The whole part of a number, rounded toward zero and held to 64 bits.
pub fn to_index(bits: u64) -> (r: u64)
    ensures
        r == index_of(bits),
{
    let m: u64 = bits % SIGN;
    if bits >= SIGN || m > INFINITY {
        return 0;
    }
    let e: u64 = m / HIDDEN;
    let f: u64 = m % HIDDEN;
    if e < 1023 {
        0
    } else if e >= 1087 {
        proof {
            lemma2_to64();
            if e > 1087 {
                lemma_pow2_strictly_increases(12, (e - 1075) as nat);
            }
            assert(significand(bits) * pow2((e - 1075) as nat) >= 0x0010_0000_0000_0000 * 4096)
                by (nonlinear_arith)
                requires
                    significand(bits) >= 0x0010_0000_0000_0000,
                    pow2((e - 1075) as nat) >= 4096,
            ;
        }
        u64::MAX
    } else {
        let s: u64 = HIDDEN + f;
        if e >= 1075 {
            let p: u64 = power_of_two(e - 1075);
            proof {
                lemma2_to64();
                if e < 1086 {
                    lemma_pow2_strictly_increases((e - 1075) as nat, 11);
                }
                assert(s * p < 0x0020_0000_0000_0000 * 2048) by (nonlinear_arith)
                    requires
                        0 <= s < 0x0020_0000_0000_0000,
                        0 < p <= 2048,
                ;
            }
            s * p
        } else {
            let p: u64 = power_of_two(1075 - e);
            proof {
                lemma_pow2_pos((1075 - e) as nat);
            }
            s / p
        }
    }
}

/// The whole part of a number, rounded toward zero and held to 32 bits.
pub fn to_count(bits: u64) -> (r: u32)
    ensures
        r == count_of(bits),
{
    let wide: u64 = to_index(bits);
    if wide > 0xFFFF_FFFF {
        u32::MAX
    } else {
        wide as u32
    }
}

/// `top_bit(n)` is the one `k` with `pow2(k) <= n < pow2(k + 1)`.
proof fn lemma_top_bit(n: nat, k: nat)
    requires
        pow2(k) <= n < pow2(k + 1),
    ensures
        top_bit(n) == k,
    decreases k,
{
    lemma2_to64();
    if k == 0 {
    } else {
        lemma_pow2_unfold(k);
        lemma_pow2_unfold(k + 1);
        lemma_pow2_pos((k - 1) as nat);
        lemma_top_bit(n / 2, (k - 1) as nat);
    }
}

/// The double nearest to `n`, ties going to the even significand.
pub fn from_count(n: u64) -> (r: u64)
    ensures
        r == count_as_number(n),
{
    if n == 0 {
        return 0;
    }
    let mut k: u64 = 0;
    let mut p: u64 = 1;
    proof {
        lemma2_to64();
    }
    while n / 2 >= p
        invariant
            p == pow2(k as nat),
            1 <= p <= n,
            k <= 63,
        decreases n - p,
    {
        proof {
            lemma_pow2_unfold((k + 1) as nat);
            lemma2_to64_rest();
            if k >= 63 {
                assert(false);
            }
        }
        p = p * 2;
        k += 1;
    }
    proof {
        lemma_pow2_unfold((k + 1) as nat);
        lemma_top_bit(n as nat, k as nat);
        lemma2_to64_rest();
    }
    if k <= 52 {
        let scale: u64 = power_of_two(52 - k);
        proof {
            lemma_pow2_adds(k as nat, (52 - k) as nat);
            lemma_pow2_adds((k + 1) as nat, (52 - k) as nat);
            assert(pow2(52) <= n * scale < pow2(53)) by (nonlinear_arith)
                requires
                    p <= n < 2 * p,
                    p * scale == pow2(52),
                    2 * p * scale == pow2(53),
                    scale > 0,
            ;
        }
        (1023 + k) * HIDDEN + (n * scale - HIDDEN)
    } else {
        let unit: u64 = power_of_two(k - 52);
        proof {
            lemma_pow2_adds(52, (k - 52) as nat);
            lemma_pow2_pos((k - 52) as nat);
            lemma_pow2_unfold((k - 52) as nat);
            assert(pow2(52) <= n / unit < pow2(53)) by (nonlinear_arith)
                requires
                    p <= n < 2 * p,
                    pow2(52) * unit == p,
                    pow2(53) == 2 * pow2(52),
                    unit > 0,
            ;
        }
        let kept: u64 = n / unit;
        let rest: u64 = n % unit;
        let up: u64 = if rest > unit - rest || (rest == unit - rest && kept % 2 == 1) {
            1
        } else {
            0
        };
        (1023 + k) * HIDDEN + (kept - HIDDEN) + up
    }
}

/// `top_bit(n)` is a `k` with `pow2(k) <= n < pow2(k + 1)`.
proof fn lemma_top_bit_bounds(n: nat)
    requires
        n >= 1,
    ensures
        pow2(top_bit(n)) <= n < pow2(top_bit(n) + 1),
    decreases n,
{
    lemma2_to64();
    if n > 1 {
        lemma_top_bit_bounds(n / 2);
        lemma_pow2_unfold(top_bit(n));
        lemma_pow2_unfold(top_bit(n) + 1);
    }
}

/// Counting and truncating agree: a count below two to the power 53 is the
/// whole part of the number that stands for it.
pub proof fn law_count_comes_back(n: u64)
    requires
        n < 0x0020_0000_0000_0000,
    ensures
        index_of(count_as_number(n)) == n,
{
    lemma2_to64();
    lemma2_to64_rest();
    if n > 0 {
        let k = top_bit(n as nat);
        lemma_top_bit_bounds(n as nat);
        if k > 52 {
            lemma_pow2_strictly_increases(53, k + 1);
            if k > 53 {
                lemma_pow2_strictly_increases(53, k);
            }
        }
        let scale = pow2((52 - k) as nat) as int;
        lemma_pow2_pos((52 - k) as nat);
        lemma_pow2_adds(k, (52 - k) as nat);
        lemma_pow2_adds(k + 1, (52 - k) as nat);
        assert(pow2(52) <= n * scale < pow2(53)) by (nonlinear_arith)
            requires
                pow2(k) <= n < pow2(k + 1),
                pow2(k) * scale == pow2(52),
                pow2(k + 1) * scale == pow2(53),
                scale > 0,
        ;
        let bits = count_as_number(n);
        assert(bits == (1022 + k) * 0x0010_0000_0000_0000 + n * scale);
        assert(exponent(bits) == 1023 + k);
        assert(significand(bits) == n * scale);
        lemma_div_multiples_vanish(n as int, scale);
        assert(n * scale == scale * n) by (nonlinear_arith);
        assert(!is_nan(bits) && !is_negative(bits));
        if k == 52 {
            assert(scale == 1 && pow2((exponent(bits) - 1075) as nat) == 1);
            assert(n * scale == n) by (nonlinear_arith)
                requires
                    scale == 1,
            ;
        } else {
            assert((1075 - exponent(bits)) as nat == (52 - k) as nat);
            assert(truncated(bits) == (n * scale) / scale);
        }
    }
}

} // verus!
