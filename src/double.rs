use vstd::prelude::*;
use vstd::arithmetic::power2::{pow2, lemma2_to64, lemma_pow2_adds, lemma_pow2_strictly_increases};
use vstd::bits::lemma_u128_shr_is_div;

verus! {

/// 2 to the 52nd: the place of a binary64 number's exponent field.
pub const FRACTION_STEP: u64 = 0x10_0000_0000_0000;

/// 2 to the 63rd: the place of a binary64 number's sign bit.
pub const SIGN_STEP: u64 = 0x8000_0000_0000_0000;

/// `x` divided by 2 to the `s` (`s` at least one), rounded to the nearest,
/// halves up: half of the quotient by 2 to the `s - 1`, plus one half.
pub open spec fn half_up(x: nat, s: nat) -> nat {
    (x / pow2((s - 1) as nat) + 1) / 2
}

/// The magnitude of the IEEE 754 binary64 number with bits `b`, times
/// `scale`, rounded to the nearest integer; `None` for an infinity or a NaN.
/// The number is the 53-bit significand `m` times 2 to the `e - 1075`, with
/// `m` the fraction field plus 2 to the 52nd (none for subnormals) and `e`
/// the exponent field (one for subnormals).
pub open spec fn scaled_magnitude(b: u64, scale: nat) -> Option<nat> {
    let exp = (b / FRACTION_STEP) % 2048;
    let frac = b % FRACTION_STEP;
    if exp == 2047 {
        None
    } else {
        let m: nat = if exp == 0 { frac as nat } else { (frac + FRACTION_STEP) as nat };
        let e: int = if exp == 0 { 1 } else { exp as int };
        let x = m * scale;
        if e >= 1075 {
            Some(x * pow2((e - 1075) as nat))
        } else {
            Some(half_up(x, (1075 - e) as nat))
        }
    }
}

/// The binary64 number with bits `b` times `scale`, rounded to the nearest
/// integer (halves away from zero), when finite and of magnitude at most `i64::MAX`.
pub open spec fn scaled_double(b: u64, scale: nat) -> Option<int> {
    match scaled_magnitude(b, scale) {
        None => None,
        Some(v) => if v > i64::MAX {
            None
        } else if b / SIGN_STEP == 1 {
            Some(-(v as int))
        } else {
            Some(v as int)
        },
    }
}

/// The binary64 number with bits `b` times `scale`, rounded to the nearest
/// integer, or `None` if it is not finite or does not fit.
pub fn scale_double(b: u64, scale: u64) -> (r: Option<i64>)
    requires
        1 <= scale <= 1_000_000_000,
    ensures
        r is None <==> scaled_double(b, scale as nat) is None,
        r matches Some(v) ==> scaled_double(b, scale as nat) == Some(v as int),
{
    let exp = (b / FRACTION_STEP) % 2048;
    let frac = b % FRACTION_STEP;
    if exp == 2047 {
        return None;
    }
    let m: u128 = if exp == 0 { frac as u128 } else { frac as u128 + FRACTION_STEP as u128 };
    let e: u64 = if exp == 0 { 1 } else { exp };
    proof {
        assert(m < 0x20_0000_0000_0000);
        assert(m * scale <= 0x20_0000_0000_0000 * 1_000_000_000) by (nonlinear_arith)
            requires m < 0x20_0000_0000_0000, scale <= 1_000_000_000;
    }
    let x: u128 = m * scale as u128;
    let mag: u128 = if e >= 1075 {
        let k = e - 1075;
        let mut v: u128 = x;
        let mut i: u64 = 0;
        proof {
            lemma2_to64();
            assert(scaled_magnitude(b, scale as nat) == Some(x as nat * pow2(k as nat)));
        }
        while i < k
            invariant
                0 <= i <= k,
                v as nat == x as nat * pow2(i as nat),
                v <= 2 * 0x8000_0000_0000_0000 || i == 0,
                x <= 0x20_0000_0000_0000 * 1_000_000_000,
                scaled_magnitude(b, scale as nat) == Some(x as nat * pow2(k as nat)),
            decreases k - i,
        {
            if v > i64::MAX as u128 {
                proof {
                    lemma_pow2_adds(i as nat, (k - i) as nat);
                    assert(pow2((k - i) as nat) >= 1) by {
                        vstd::arithmetic::power2::lemma_pow2_pos((k - i) as nat);
                    }
                    assert(x as nat * pow2(k as nat) >= v as nat) by (nonlinear_arith)
                        requires v as nat == x as nat * pow2(i as nat), pow2(k as nat) == pow2(i as nat) * pow2((k - i) as nat),
                            pow2((k - i) as nat) >= 1, x >= 0;
                }
                return None;
            }
            proof {
                lemma_pow2_adds(i as nat, 1);
                lemma2_to64();
                assert(v as nat * 2 == x as nat * pow2((i + 1) as nat)) by (nonlinear_arith)
                    requires v as nat == x as nat * pow2(i as nat), pow2((i + 1) as nat) == pow2(i as nat) * 2;
            }
            v = v * 2;
            i = i + 1;
        }
        v
    } else {
        let s = 1075 - e;
        proof {
            lemma2_to64();
            lemma_pow2_adds(64, 20);
            assert(pow2(84) == 0x1_0000_0000_0000_0000 * 0x10_0000);
        }
        if s - 1 >= 84 {
            proof {
                if s - 1 > 84 {
                    lemma_pow2_strictly_increases(84, (s - 1) as nat);
                }
                assert(x as nat / pow2((s - 1) as nat) == 0) by (nonlinear_arith)
                    requires (x as nat) < pow2((s - 1) as nat);
            }
            0
        } else {
            let y = x >> ((s - 1) as u128);
            proof {
                lemma_u128_shr_is_div(x, (s - 1) as u128);
                vstd::arithmetic::power2::lemma_pow2_pos((s - 1) as nat);
                assert(x as nat / pow2((s - 1) as nat) <= x as nat) by (nonlinear_arith)
                    requires pow2((s - 1) as nat) >= 1;
            }
            (y + 1) / 2
        }
    };
    if mag > i64::MAX as u128 {
        return None;
    }
    let v = mag as i64;
    if b / SIGN_STEP == 1 {
        Some(-v)
    } else {
        Some(v)
    }
}

} // verus!
