//! Human-readable file sizes for the hosted-files index.
//!
//! A size is shown in the largest of B, KB, MB, GB and TB that keeps the
//! value above one, with two decimals past bytes. The displayed value is
//! the size carried through double-precision arithmetic, reproduced here
//! exactly over the integers: the size is first rounded to 53 significant
//! bits (ties to even), the binary-power divisions are exact, and the two
//! decimals round to nearest, ties to even.

use vstd::prelude::*;

use crate::encoding::{push_char, spec_dec_digit, spec_decimal, u64_to_decimal};
use vstd::arithmetic::div_mod::{
    lemma_div_denominator, lemma_fundamental_div_mod, lemma_div_is_ordered_by_denominator,
};
use vstd::arithmetic::power2::{pow2, lemma_pow2_adds, lemma_pow2_pos, lemma2_to64};

verus! {

/// `n / d` rounded to the nearest integer, ties to the even neighbour.
pub open spec fn spec_round_even(n: nat, d: nat) -> nat
    recommends
        d >= 1,
{
    let q = n / d;
    let r = n % d;
    if 2 * r > d {
        (q + 1) as nat
    } else if 2 * r < d {
        q
    } else if q % 2 == 0 {
        q
    } else {
        (q + 1) as nat
    }
}

/// How many low bits a value loses when rounded to 53 significant bits.
pub open spec fn spec_excess_bits(size: nat) -> nat
    decreases size,
{
    if size < 0x20000000000000 {
        0
    } else {
        (1 + spec_excess_bits(size / 2)) as nat
    }
}

/// The value rounded to 53 significant bits, ties to even: what carrying
/// the size through a double-precision conversion yields.
pub open spec fn spec_sig53(size: nat) -> nat {
    spec_round_even(size, pow2(spec_excess_bits(size))) * pow2(spec_excess_bits(size))
}

/// The unit the size is shown in: 0 bytes, 1 kilobytes, up to 4 terabytes,
/// chosen by halving the (rounded) value by 1024 while it stays at least
/// 1024, at most four times.
pub open spec fn spec_unit_index(m: nat) -> nat {
    if m < 0x400 {
        0
    } else if m < 0x100000 {
        1
    } else if m < 0x40000000 {
        2
    } else if m < 0x10000000000 {
        3
    } else {
        4
    }
}

/// The divisor that scales the rounded value into its unit.
pub open spec fn spec_unit_divisor(k: nat) -> nat {
    if k == 1 {
        0x400
    } else if k == 2 {
        0x100000
    } else if k == 3 {
        0x40000000
    } else {
        0x10000000000
    }
}

/// The label printed after the scaled value.
pub open spec fn spec_unit_suffix(k: nat) -> Seq<char> {
    if k == 1 {
        " KB"@
    } else if k == 2 {
        " MB"@
    } else if k == 3 {
        " GB"@
    } else {
        " TB"@
    }
}

/// What `format_file_size` returns: `0 B` for zero, the exact byte count
/// below a kilobyte, else the scaled value with two decimals and its unit.
pub open spec fn spec_format_file_size(size: u64) -> Seq<char> {
    if size == 0 {
        "0 B"@
    } else {
        let m = spec_sig53(size as nat);
        let k = spec_unit_index(m);
        if k == 0 {
            spec_decimal(size as nat) + " B"@
        } else {
            let h = spec_round_even(m * 100, spec_unit_divisor(k));
            spec_decimal(h / 100) + seq!['.', spec_dec_digit((h % 100) / 10), spec_dec_digit(h % 10)]
                + spec_unit_suffix(k)
        }
    }
}

/// Rounds a size to 53 significant bits, ties to even.
#[verifier::rlimit(100)]
#[verifier::spinoff_prover]
fn sig53_of(size: u64) -> (m: u128)
    requires
        size >= 1,
    ensures
        m == spec_sig53(size as nat),
        m <= 0x20000000000000 * 0x800,
{
    let s128 = size as u128;
    let mut e: u32 = 0;
    let mut p: u128 = 1;
    proof {
        lemma2_to64();
        assert(s128 / 1 == s128 as nat / pow2(0));
    }
    while s128 / p >= 0x20000000000000
        invariant
            size >= 1,
            s128 == size as u128,
            e <= 11,
            p == pow2(e as nat),
            p >= 1,
            spec_excess_bits(size as nat) == e + spec_excess_bits((s128 / p) as nat),
        decreases 64 - e,
    {
        proof {
            lemma_pow2_pos(e as nat);
            let sp = (s128 / p) as nat;
            assert(sp >= 0x20000000000000);
            assert(spec_excess_bits(sp) == 1 + spec_excess_bits(sp / 2));
            lemma_div_denominator(s128 as int, p as int, 2);
            assert(sp / 2 == s128 as nat / (p * 2) as nat);
            lemma_pow2_adds(e as nat, 1);
            assert(pow2(e as nat + 1) == p * 2) by {
                assert(pow2(1) == 2) by {
                    lemma2_to64();
                }
            }
            assert((s128 as nat / p as nat) * p as nat <= s128 as nat) by {
                lemma_fundamental_div_mod(s128 as int, p as int);
            }
            assert(0x20000000000000 * p as int <= (s128 as int / p as int) * p as int) by (nonlinear_arith)
                requires
                    s128 as int / p as int >= 0x20000000000000,
                    p as int >= 1,
            ;
            assert(0x20000000000000 * p <= s128);
            if e >= 11 {
                assert(pow2(11) == 0x800) by {
                    lemma2_to64();
                }
                assert(p >= 0x800) by {
                    if e > 11 {
                        vstd::arithmetic::power2::lemma_pow2_strictly_increases(11, e as nat);
                    }
                }
                assert(0x20000000000000 * p as int >= 0x20000000000000 * 0x800)
                    by (nonlinear_arith)
                    requires
                        p as int >= 0x800,
                ;
                assert(false);
            }
            assert(p * 2 <= u128::MAX);
        }
        e = e + 1;
        p = p * 2;
    }
    let q = s128 / p;
    let rem = s128 % p;
    proof {
        assert(spec_excess_bits((s128 / p) as nat) == 0);
        assert(spec_excess_bits(size as nat) == e as nat);
        lemma_pow2_pos(e as nat);
        lemma_fundamental_div_mod(s128 as int, p as int);
        assert(q < 0x20000000000000);
        assert(rem < p);
        assert(2 * rem < u128::MAX);
        assert(p <= 0x800) by {
            assert(pow2(11) == 0x800) by {
                lemma2_to64();
            }
            if e < 11 {
                vstd::arithmetic::power2::lemma_pow2_strictly_increases(e as nat, 11);
            }
        }
        assert((q + 1) * p <= 0x20000000000000 * p) by (nonlinear_arith)
            requires
                q + 1 <= 0x20000000000000,
                p >= 1,
        ;
        assert(0x20000000000000 * p as int <= 0x20000000000000 * 0x800) by (nonlinear_arith)
            requires
                1 <= p as int <= 0x800,
        ;
        assert(q * p <= (q + 1) * p) by (nonlinear_arith)
            requires
                p >= 1,
                q >= 0,
        ;
    }
    let m: u128 = if 2 * rem > p {
        (q + 1) * p
    } else if 2 * rem < p {
        q * p
    } else if q % 2 == 0 {
        q * p
    } else {
        (q + 1) * p
    };
    proof {
        assert(m == spec_round_even(size as nat, pow2(e as nat)) * pow2(e as nat));
        assert(m == spec_sig53(size as nat));
        assert(m <= 0x20000000000000 * 0x800);
    }
    m
}

/// Renders a byte count for display, as the hosted-files index shows it.
#[verifier::rlimit(100)]
#[verifier::spinoff_prover]
pub fn format_file_size(size: u64) -> (r: String)
    ensures
        r@ == spec_format_file_size(size),
{
    if size == 0 {
        return "0 B".to_owned();
    }
    let m = sig53_of(size);
    if m < 0x400 {
        proof {
            assert(spec_unit_index(spec_sig53(size as nat)) == 0);
        }
        let mut out = u64_to_decimal(size);
        out.append(" B");
        proof {
            assert(out@ =~= spec_format_file_size(size));
        }
        return out;
    }
    let k: u32 = if m < 0x100000 {
        1
    } else if m < 0x40000000 {
        2
    } else if m < 0x10000000000 {
        3
    } else {
        4
    };
    let d: u128 = if k == 1 {
        0x400
    } else if k == 2 {
        0x100000
    } else if k == 3 {
        0x40000000
    } else {
        0x10000000000
    };
    let n: u128 = m * 100;
    let hq = n / d;
    let hr = n % d;
    proof {
        lemma_fundamental_div_mod(n as int, d as int);
        assert(hq * d <= n);
        assert(hq * 0x400 <= hq * d) by (nonlinear_arith)
            requires
                d >= 0x400,
                hq >= 0,
        ;
        assert(hq * 0x400 <= 0x20000000000000 * 0x800 * 100);
        assert(hq + 1 < u64::MAX);
    }
    let h: u128 = if 2 * hr > d {
        hq + 1
    } else if 2 * hr < d {
        hq
    } else if hq % 2 == 0 {
        hq
    } else {
        hq + 1
    };
    proof {
        assert(h == spec_round_even((m * 100) as nat, spec_unit_divisor(k as nat)));
        assert(h < u64::MAX);
    }
    let int_part = (h / 100) as u64;
    let frac = (h % 100) as u64;
    let mut out = u64_to_decimal(int_part);
    push_char(&mut out, '.');
    push_char(&mut out, (48 + (frac / 10) as u8) as char);
    push_char(&mut out, (48 + (frac % 10) as u8) as char);
    if k == 1 {
        out.append(" KB");
    } else if k == 2 {
        out.append(" MB");
    } else if k == 3 {
        out.append(" GB");
    } else {
        out.append(" TB");
    }
    proof {
        assert(out@ =~= spec_format_file_size(size));
    }
    out
}

} // verus!
