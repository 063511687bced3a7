//! Pure FLAC encoder (RFC 9639): fixed predictors, partitioned Rice coding,
//! per-frame CRCs, and a streaminfo block carrying the MD5 of the unencoded
//! audio.
//!
//! Every encoding function states, over the bit-stream model of
//! [`crate::bitio`], exactly which bits it appends; the stream assembler's
//! contract composes them into the full stream layout.

use vstd::prelude::*;
use vstd::arithmetic::power2::{pow2, lemma_pow2_adds, lemma_pow2_pos, lemma_pow2_strictly_increases, lemma_pow2_unfold, lemma2_to64};
use vstd::arithmetic::div_mod::{lemma_div_denominator, lemma_small_mod, lemma_fundamental_div_mod};
use vstd::bits::{low_bits_mask, lemma_u32_shr_is_div, lemma_u32_shl_is_mul, lemma_u32_low_bits_mask_is_mod, lemma_usize_shr_is_div, lemma_usize_shl_is_mul};
use vstd::math::abs;
use crate::bitio::{BitWriter, bits_of, byte_bits, bytes_bits, stream_bytes, unary_bits};
use crate::FlacError;

verus! {

/// Greatest value `t <= cap` such that `2^t` divides `n`: the largest usable
/// partition order for a block of `n` samples, capped by the compression
/// level.
pub open spec fn tz_cap(n: nat, cap: nat) -> nat
    decreases cap,
{
    if cap == 0 {
        0
    } else if n % pow2(cap) == 0 {
        cap
    } else {
        tz_cap(n, (cap - 1) as nat)
    }
}

/// Floor of the base-two logarithm; zero for zero.
pub open spec fn floor_log2(n: nat) -> nat
    decreases n,
{
    if n <= 1 {
        0
    } else {
        1 + floor_log2(n / 2)
    }
}

/// `2^floor_log2(n)` brackets `n` from below.
pub proof fn lemma_floor_log2(n: nat)
    requires
        n >= 1,
    ensures
        pow2(floor_log2(n)) <= n < pow2(floor_log2(n) + 1),
    decreases n,
{
    if n == 1 {
        assert(pow2(0) == 1 && pow2(1) == 2) by { lemma2_to64(); };
    } else {
        lemma_floor_log2(n / 2);
        let f = floor_log2(n / 2);
        lemma_pow2_unfold(f + 1);
        lemma_pow2_unfold(f + 2);
        assert(pow2(f) <= n / 2 < pow2(f + 1));
        assert(n < 2 * (n / 2) + 2);
        assert(2 * (n / 2) <= n);
    }
}

/// The UTF-8-style coding of a frame number, one to seven bytes, as bits.
#[verifier::opaque]
pub open spec fn utf8_bits(v: u64) -> Seq<bool> {
    if v < 0x80 {
        byte_bits(v as u8)
    } else if v < 0x800 {
        byte_bits(0xC0 | (((v >> 6) & 0x1F) as u8)) + byte_bits(0x80 | ((v & 0x3F) as u8))
    } else if v < 0x10000 {
        byte_bits(0xE0 | (((v >> 12) & 0x0F) as u8)) + byte_bits(0x80 | (((v >> 6) & 0x3F) as u8))
            + byte_bits(0x80 | ((v & 0x3F) as u8))
    } else if v < 0x200000 {
        byte_bits(0xF0 | (((v >> 18) & 0x07) as u8)) + byte_bits(0x80 | (((v >> 12) & 0x3F) as u8))
            + byte_bits(0x80 | (((v >> 6) & 0x3F) as u8)) + byte_bits(0x80 | ((v & 0x3F) as u8))
    } else if v < 0x4000000 {
        byte_bits(0xF8 | (((v >> 24) & 0x03) as u8)) + byte_bits(0x80 | (((v >> 18) & 0x3F) as u8))
            + byte_bits(0x80 | (((v >> 12) & 0x3F) as u8)) + byte_bits(0x80 | (((v >> 6) & 0x3F) as u8))
            + byte_bits(0x80 | ((v & 0x3F) as u8))
    } else if v < 0x80000000 {
        byte_bits(0xFC | (((v >> 30) & 0x01) as u8)) + byte_bits(0x80 | (((v >> 24) & 0x3F) as u8))
            + byte_bits(0x80 | (((v >> 18) & 0x3F) as u8)) + byte_bits(0x80 | (((v >> 12) & 0x3F) as u8))
            + byte_bits(0x80 | (((v >> 6) & 0x3F) as u8)) + byte_bits(0x80 | ((v & 0x3F) as u8))
    } else {
        byte_bits(0xFE) + byte_bits(0x80 | (((v >> 30) & 0x3F) as u8))
            + byte_bits(0x80 | (((v >> 24) & 0x3F) as u8)) + byte_bits(0x80 | (((v >> 18) & 0x3F) as u8))
            + byte_bits(0x80 | (((v >> 12) & 0x3F) as u8)) + byte_bits(0x80 | (((v >> 6) & 0x3F) as u8))
            + byte_bits(0x80 | ((v & 0x3F) as u8))
    }
}

/// Write the UTF-8-style coded frame number: one byte below 0x80, up to seven
/// bytes for values of 2^31 and above.
pub fn write_utf8_number(writer: &mut BitWriter, value: u64)
    requires
        old(writer).wf(),
    ensures
        final(writer).wf(),
        final(writer).bits() == old(writer).bits() + utf8_bits(value),
{
    if value < 0x80 {
        writer.write_byte(value as u8);
        proof {
            reveal(utf8_bits);
            assert(final(writer).bits() =~= old(writer).bits() + utf8_bits(value));
        }
    } else if value < 0x800 {
        writer.write_byte(0xC0 | ((value >> 6) & 0x1F) as u8);
        writer.write_byte(0x80 | (value & 0x3F) as u8);
        proof {
            reveal(utf8_bits);
            assert(final(writer).bits() =~= old(writer).bits() + utf8_bits(value));
        }
    } else if value < 0x10000 {
        writer.write_byte(0xE0 | ((value >> 12) & 0x0F) as u8);
        writer.write_byte(0x80 | ((value >> 6) & 0x3F) as u8);
        writer.write_byte(0x80 | (value & 0x3F) as u8);
        proof {
            reveal(utf8_bits);
            assert(final(writer).bits() =~= old(writer).bits() + utf8_bits(value));
        }
    } else if value < 0x200000 {
        writer.write_byte(0xF0 | ((value >> 18) & 0x07) as u8);
        writer.write_byte(0x80 | ((value >> 12) & 0x3F) as u8);
        writer.write_byte(0x80 | ((value >> 6) & 0x3F) as u8);
        writer.write_byte(0x80 | (value & 0x3F) as u8);
        proof {
            reveal(utf8_bits);
            assert(final(writer).bits() =~= old(writer).bits() + utf8_bits(value));
        }
    } else if value < 0x4000000 {
        writer.write_byte(0xF8 | ((value >> 24) & 0x03) as u8);
        writer.write_byte(0x80 | ((value >> 18) & 0x3F) as u8);
        writer.write_byte(0x80 | ((value >> 12) & 0x3F) as u8);
        writer.write_byte(0x80 | ((value >> 6) & 0x3F) as u8);
        writer.write_byte(0x80 | (value & 0x3F) as u8);
        proof {
            reveal(utf8_bits);
            assert(final(writer).bits() =~= old(writer).bits() + utf8_bits(value));
        }
    } else if value < 0x80000000 {
        writer.write_byte(0xFC | ((value >> 30) & 0x01) as u8);
        writer.write_byte(0x80 | ((value >> 24) & 0x3F) as u8);
        writer.write_byte(0x80 | ((value >> 18) & 0x3F) as u8);
        writer.write_byte(0x80 | ((value >> 12) & 0x3F) as u8);
        writer.write_byte(0x80 | ((value >> 6) & 0x3F) as u8);
        writer.write_byte(0x80 | (value & 0x3F) as u8);
        proof {
            reveal(utf8_bits);
            assert(final(writer).bits() =~= old(writer).bits() + utf8_bits(value));
        }
    } else {
        writer.write_byte(0xFE);
        writer.write_byte(0x80 | ((value >> 30) & 0x3F) as u8);
        writer.write_byte(0x80 | ((value >> 24) & 0x3F) as u8);
        writer.write_byte(0x80 | ((value >> 18) & 0x3F) as u8);
        writer.write_byte(0x80 | ((value >> 12) & 0x3F) as u8);
        writer.write_byte(0x80 | ((value >> 6) & 0x3F) as u8);
        writer.write_byte(0x80 | (value & 0x3F) as u8);
        proof {
            reveal(utf8_bits);
            assert(final(writer).bits() =~= old(writer).bits() + utf8_bits(value));
        }
    }
}

/// The fixed predictor's estimate for `s[j]` at the given order: the
/// polynomial predictors of RFC 9639.
pub open spec fn fixed_prediction(s: Seq<i32>, order: int, j: int) -> int {
    if order == 0 {
        0
    } else if order == 1 {
        s[j - 1] as int
    } else if order == 2 {
        2 * s[j - 1] - s[j - 2]
    } else if order == 3 {
        3 * s[j - 1] - 3 * s[j - 2] + s[j - 3]
    } else {
        4 * s[j - 1] - 6 * s[j - 2] + 4 * s[j - 3] - s[j - 4]
    }
}

/// All samples lie in the signed 16-bit range.
pub open spec fn samples_in_i16_range(s: Seq<i32>) -> bool {
    forall|j: int| 0 <= j < s.len() ==> -0x8000 <= #[trigger] s[j] <= 0x7FFF
}

/// Apply the fixed predictor of the given order: entry `j` holds
/// `s[j]` minus its prediction, and the first `order` entries (the warm-up
/// samples, stored separately) hold zero.
pub fn apply_fixed_predictor(samples: &[i32], order: usize) -> (r: Vec<i32>)
    requires
        order <= 4,
        samples_in_i16_range(samples@),
    ensures
        r@.len() == samples@.len(),
        forall|j: int| 0 <= j < samples@.len() && j < order ==> r@[j] == 0,
        forall|j: int|
            order <= j < samples@.len() ==> r@[j] == samples@[j] - fixed_prediction(
                samples@,
                order as int,
                j,
            ),
{
    let mut residual: Vec<i32> = Vec::new();
    let mut i: usize = 0;
    while i < samples.len()
        invariant
            i <= samples@.len(),
            order <= 4,
            samples_in_i16_range(samples@),
            residual@.len() == i,
            forall|j: int| 0 <= j < i && j < order ==> residual@[j] == 0,
            forall|j: int|
                order <= j < i ==> residual@[j] == samples@[j] - fixed_prediction(
                    samples@,
                    order as int,
                    j,
                ),
        decreases samples@.len() - i,
    {
        if i < order {
            residual.push(0);
        } else {
            let predicted: i32 = if order == 0 {
                0
            } else if order == 1 {
                samples[i - 1]
            } else if order == 2 {
                2 * samples[i - 1] - samples[i - 2]
            } else if order == 3 {
                3 * samples[i - 1] - 3 * samples[i - 2] + samples[i - 3]
            } else {
                4 * samples[i - 1] - 6 * samples[i - 2] + 4 * samples[i - 3] - samples[i - 4]
            };
            residual.push(samples[i] - predicted);
        }
        i = i + 1;
    }
    residual
}

/// Sum of the absolute values of a residual run.
pub open spec fn abs_sum(s: Seq<i32>) -> nat
    decreases s.len(),
{
    if s.len() == 0 {
        0
    } else {
        abs_sum(s.drop_last()) + abs(s.last() as int)
    }
}

/// The Rice parameter the estimator chooses for a partition: the floor of
/// the base-two logarithm of the mean absolute residual, clamped to at most
/// fourteen so it fits the four-bit coding method; zero for an empty or
/// all-zero partition.
pub open spec fn rice_param_of(s: Seq<i32>) -> u32 {
    if s.len() == 0 {
        0u32
    } else {
        let mean = abs_sum(s) / s.len();
        if mean == 0 {
            0u32
        } else if floor_log2(mean) >= 14 {
            14u32
        } else {
            floor_log2(mean) as u32
        }
    }
}

/// Maximum Rice parameter expressible with four-bit parameters.
pub const MAX_RICE_PARAM_4BIT: u32 = 14;

/// Estimate the best Rice parameter for a partition from the mean absolute
/// residual.
pub fn calculate_rice_parameter(residual: &[i32]) -> (r: u32)
    requires
        residual@.len() < 0x1_0000_0000,
    ensures
        r == rice_param_of(residual@),
        r <= 14,
{
    if residual.len() == 0 {
        return 0;
    }

    let ghost all = residual@;
    let mut sum: u64 = 0;
    let mut i: usize = 0;
    while i < residual.len()
        invariant
            i <= all.len(),
            residual@ == all,
            all.len() < 0x1_0000_0000,
            sum == abs_sum(all.take(i as int)),
            sum <= i * 0x8000_0000,
        decreases all.len() - i,
    {
        let x: i32 = residual[i];
        let a: u64 = if x >= 0 {
            x as u64
        } else {
            (-(x as i64)) as u64
        };
        proof {
            assert(a == abs(all[i as int] as int));
            assert(all.take(i + 1).drop_last() =~= all.take(i as int));
            assert((i + 1) * 0x8000_0000 == i * 0x8000_0000 + 0x8000_0000) by (nonlinear_arith);
        }
        sum = sum + a;
        i = i + 1;
    }
    proof {
        assert(all.take(all.len() as int) =~= all);
    }

    let mean: u64 = sum / (residual.len() as u64);

    if mean == 0 {
        return 0;
    }

    let ghost flm: nat = floor_log2(mean as nat);
    proof {
        lemma_floor_log2(mean as nat);
    }

    let mut param: u32 = 0;
    let mut test_mean: u64 = mean;
    let ghost iters: nat = 0;
    proof {
        assert(pow2(0) == 1) by { lemma2_to64(); };
    }
    while test_mean > 0 && param < MAX_RICE_PARAM_4BIT
        invariant
            mean >= 1,
            flm == floor_log2(mean as nat),
            pow2(flm) <= (mean as nat) < pow2(flm + 1),
            (test_mean as nat) == (mean as nat) / pow2(iters),
            param == if iters <= flm { iters } else { flm },
            iters <= flm + 1,
            param <= 14,
        decreases 15 - param, test_mean,
    {
        let ghost tm0: u64 = test_mean;
        proof {
            lemma_pow2_pos(iters);
            lemma_pow2_pos(flm);
            // test_mean > 0 means we have not yet passed the floor log
            assert(iters <= flm) by {
                if iters > flm {
                    assert((mean as nat) < pow2(iters)) by {
                        if flm + 1 < iters {
                            lemma_pow2_strictly_increases(flm + 1, iters);
                        }
                    };
                    assert((mean as nat) / pow2(iters) == 0) by {
                        vstd::arithmetic::div_mod::lemma_basic_div(mean as int, pow2(iters) as int);
                    };
                }
            };
        }
        test_mean = test_mean >> 1u64;
        proof {
            vstd::bits::lemma_u64_shr_is_div(tm0, 1);
            assert(pow2(1) == 2) by { lemma2_to64(); };
            lemma_div_denominator(mean as int, pow2(iters) as int, 2);
            lemma_pow2_unfold(iters + 1);
            iters = iters + 1;
            assert((test_mean as nat) == (mean as nat) / pow2(iters));
        }
        if test_mean > 0 {
            param = param + 1;
            proof {
                // still inside the bracket: the floor log is at least iters
                assert(pow2(iters) <= (mean as nat)) by {
                    lemma_pow2_pos(iters);
                    if (mean as nat) < pow2(iters) {
                        vstd::arithmetic::div_mod::lemma_basic_div(mean as int, pow2(iters) as int);
                    }
                };
                assert(iters <= flm) by {
                    if iters > flm {
                        assert(pow2(flm + 1) <= pow2(iters)) by {
                            if flm + 1 < iters {
                                lemma_pow2_strictly_increases(flm + 1, iters);
                            }
                        };
                    }
                };
            }
        } else {
            proof {
                assert(iters > flm) by {
                    if iters <= flm {
                        assert(pow2(iters) <= pow2(flm)) by {
                            if iters < flm {
                                lemma_pow2_strictly_increases(iters, flm);
                            }
                        };
                        lemma_pow2_pos(iters);
                        assert((mean as nat) / pow2(iters) >= 1) by {
                            vstd::arithmetic::div_mod::lemma_div_is_ordered_by_denominator(mean as int, pow2(iters) as int, pow2(flm) as int);
                            vstd::arithmetic::div_mod::lemma_div_is_ordered(pow2(flm) as int, mean as int, pow2(flm) as int);
                            vstd::arithmetic::div_mod::lemma_div_by_self(pow2(flm) as int);
                        };
                    }
                };
            }
        }
    }

    proof {
        // on exit the parameter is the clamped floor log of the mean
        if param == 14 {
            assert(flm >= 14);
        } else {
            assert(test_mean == 0);
            assert(iters > flm) by {
                if iters <= flm {
                    assert(pow2(iters) <= pow2(flm)) by {
                        if iters < flm {
                            lemma_pow2_strictly_increases(iters, flm);
                        }
                    };
                    lemma_pow2_pos(iters);
                    assert((mean as nat) / pow2(iters) >= 1) by {
                        vstd::arithmetic::div_mod::lemma_div_is_ordered_by_denominator(mean as int, pow2(iters) as int, pow2(flm) as int);
                        vstd::arithmetic::div_mod::lemma_div_is_ordered(pow2(flm) as int, mean as int, pow2(flm) as int);
                        vstd::arithmetic::div_mod::lemma_div_by_self(pow2(flm) as int);
                    };
                }
            };
            assert(param == flm);
        }
        assert(param == rice_param_of(all));
    }

    // adjust for better compression; the estimate already brackets the mean,
    // so this never fires, and the clamp below is likewise already met
    if param > 0 && mean < (1u64 << (param - 1) as u64) {
        proof {
            assert(pow2(flm) <= (mean as nat));
            lemma2_to64();
            vstd::bits::lemma_u64_shl_is_mul(1u64, (param - 1) as u64);
            if ((param - 1) as nat) < flm {
                lemma_pow2_strictly_increases((param - 1) as nat, flm);
            }
            assert(false);
        }
        param = param - 1;
    }

    if param < MAX_RICE_PARAM_4BIT {
        param
    } else {
        MAX_RICE_PARAM_4BIT
    }
}


/// The zigzag fold: a bijection from signed residuals to nonnegative values,
/// even for nonnegative inputs and odd for negative ones.
pub open spec fn zigzag(r: int) -> nat {
    if r >= 0 {
        (2 * r) as nat
    } else {
        (2 * (-r) - 1) as nat
    }
}

/// The Rice code of one residual with the given parameter: the folded value's
/// high part in unary, then its low `param` bits in binary.
pub open spec fn rice_bits(r: int, param: nat) -> Seq<bool> {
    unary_bits(zigzag(r) / pow2(param)) + bits_of(zigzag(r), param)
}

/// The Rice codes of a residual run, in order.
pub open spec fn rice_partition_bits(s: Seq<i32>, param: nat) -> Seq<bool>
    decreases s.len(),
{
    if s.len() == 0 {
        Seq::empty()
    } else {
        rice_partition_bits(s.drop_last(), param) + rice_bits(s.last() as int, param)
    }
}

/// All residuals are small enough for the zigzag fold to fit in 32 bits.
pub open spec fn residuals_in_range(s: Seq<i32>) -> bool {
    forall|j: int| 0 <= j < s.len() ==> -0x4000_0000 <= #[trigger] s[j] <= 0x3FFF_FFFF
}

/// Encode one partition's residuals with Rice coding: zigzag fold, unary
/// quotient, binary remainder.
pub fn encode_rice_partition(writer: &mut BitWriter, residual: &[i32], rice_param: u32) -> (r:
    Result<(), FlacError>)
    requires
        old(writer).wf(),
        rice_param <= 14,
        residuals_in_range(residual@),
    ensures
        r is Ok,
        final(writer).wf(),
        final(writer).bits() == old(writer).bits() + rice_partition_bits(
            residual@,
            rice_param as nat,
        ),
{
    let ghost all = residual@;
    let ghost p: nat = rice_param as nat;
    let mut i: usize = 0;
    proof {
        assert(rice_partition_bits(all.take(0), p) =~= Seq::<bool>::empty());
        assert(old(writer).bits() + rice_partition_bits(all.take(0), p) =~= old(writer).bits());
        lemma_pow2_pos(p);
        if p < 32 {
            lemma_pow2_strictly_increases(p, 32);
        }
        assert(pow2(32) == 0x1_0000_0000 && pow2(1) == 2) by { lemma2_to64(); };
    }
    while i < residual.len()
        invariant
            i <= all.len(),
            residual@ == all,
            residuals_in_range(all),
            p == rice_param as nat,
            rice_param <= 14,
            pow2(p) < 0x1_0000_0000,
            pow2(p) >= 1,
            writer.wf(),
            writer.bits() == old(writer).bits() + rice_partition_bits(all.take(i as int), p),
        decreases all.len() - i,
    {
        let sample: i32 = residual[i];
        let ghost z: nat = zigzag(sample as int);
        proof {
            assert(-0x4000_0000 <= sample <= 0x3FFF_FFFF);
            assert(pow2(1) == 2) by { lemma2_to64(); };
            if sample >= 0 {
                lemma_u32_shl_is_mul(sample as u32, 1);
            } else {
                lemma_u32_shl_is_mul((-(sample + 1)) as u32, 1);
            }
        }

        // zigzag fold the residual, mapping signed to unsigned
        let folded: u32 = if sample >= 0 {
            (sample as u32) << 1u32
        } else {
            (((-(sample + 1)) as u32) << 1u32) | 1
        };
        proof {
            if sample >= 0 {
                assert(folded == z);
            } else {
                let m: u32 = (-(sample + 1)) as u32;
                assert((m << 1u32) | 1u32 == 2 * m + 1) by (bit_vector)
                    requires
                        m <= 0x3FFF_FFFF,
                ;
                assert(folded == 2 * (m as nat) + 1);
                assert(folded == z);
            }
            lemma_u32_shl_is_mul(1u32, rice_param);
        }

        // split into high (unary) and low (binary) parts
        let msb: u32 = folded >> rice_param;
        let mask: u32 = (1u32 << rice_param) - 1;
        let lsb: u32 = folded & mask;
        proof {
            lemma_u32_shr_is_div(folded, rice_param);
            assert(mask as nat == low_bits_mask(p));
            lemma_u32_low_bits_mask_is_mod(folded, p);
            assert(msb as nat == z / pow2(p));
            assert(lsb as nat == z % pow2(p));
        }

        writer.write_unary(msb);
        if rice_param > 0 {
            writer.write_bits(lsb as u64, rice_param as u8);
        }
        proof {
            crate::bitio::lemma_bits_of_mod(z, p);
            assert(bits_of(lsb as nat, p) == bits_of(z, p)) by {
                crate::bitio::lemma_bits_of_mod(lsb as nat, p);
                lemma_small_mod(lsb as nat, pow2(p));
            };
            if rice_param == 0 {
                assert(bits_of(z, 0) =~= Seq::<bool>::empty());
            }
            assert(all.take(i + 1).drop_last() =~= all.take(i as int));
            assert(all.take(i + 1).last() == all[i as int]);
            assert(writer.bits() =~= old(writer).bits() + rice_partition_bits(all.take(i + 1), p));
        }
        i = i + 1;
    }
    proof {
        assert(all.take(all.len() as int) =~= all);
    }
    Ok(())
}

/// The cap the compression level puts on the partition order.
pub open spec fn initial_partition_cap(level: u8) -> nat {
    if level == 0 {
        0
    } else if level <= 2 {
        2
    } else if level <= 5 {
        4
    } else {
        6
    }
}

/// Lower the partition order until each partition holds more samples than
/// the predictor order and at least four.
pub open spec fn shrink_partition_order(po: nat, bs: nat, pred: nat) -> nat
    decreases po,
{
    if po == 0 {
        0
    } else if bs / pow2(po) > pred && bs / pow2(po) >= 4 {
        po
    } else {
        shrink_partition_order((po - 1) as nat, bs, pred)
    }
}

/// The partition order chosen for a block: the level's cap, lowered to a
/// power of two dividing the block size, then shrunk to keep partitions
/// usable.
pub open spec fn partition_order_of(level: u8, bs: nat, pred: nat) -> nat {
    shrink_partition_order(tz_cap(bs, initial_partition_cap(level)), bs, pred)
}

/// A power of two dividing `n` carries all smaller powers with it.
proof fn lemma_pow2_divides_smaller(n: nat, j: nat, k: nat)
    requires
        j <= k,
        n % pow2(k) == 0,
    ensures
        n % pow2(j) == 0,
{
    lemma_pow2_pos(j);
    lemma_pow2_pos(k);
    lemma_pow2_adds(j, (k - j) as nat);
    lemma_fundamental_div_mod(n as int, pow2(k) as int);
    let q = n as int / pow2(k) as int;
    assert(n as int == pow2(k) * q);
    assert(pow2(k) * q == pow2(j) * (pow2((k - j) as nat) * q)) by (nonlinear_arith)
        requires
            pow2(k) == pow2(j) * pow2((k - j) as nat),
    ;
    vstd::arithmetic::div_mod::lemma_mod_multiples_basic(pow2((k - j) as nat) as int * q, pow2(j) as int);
    assert((pow2((k - j) as nat) * q) * pow2(j) == pow2(j) * (pow2((k - j) as nat) * q)) by (nonlinear_arith);
}

/// The bits of the Rice-coded partitions of a block's residuals: partition
/// `i` of `n`, where the first partition is shortened by the warm-up samples
/// and each nonempty partition carries its four-bit Rice parameter.
pub open spec fn partitions_bits(res: Seq<i32>, psize: nat, pred: nat, i: nat, n_left: nat) -> Seq<bool>
    decreases n_left,
{
    if n_left == 0 {
        Seq::empty()
    } else {
        let cnt: nat = if i == 0 { (psize - pred) as nat } else { psize };
        let off: nat = if i == 0 { 0 } else { (i * psize - pred) as nat };
        let part = res.subrange(off as int, (off + cnt) as int);
        let here: Seq<bool> = if cnt == 0 {
            Seq::empty()
        } else {
            bits_of(rice_param_of(part) as nat, 4) + rice_partition_bits(part, rice_param_of(part) as nat)
        };
        here + partitions_bits(res, psize, pred, i + 1, (n_left - 1) as nat)
    }
}

/// The partitioned-Rice coding of a block's residuals: the two-bit coding
/// method, the four-bit partition order, then each partition in order.
pub open spec fn residual_bits(res: Seq<i32>, pred: nat, bs: nat, level: u8) -> Seq<bool> {
    let po = partition_order_of(level, bs, pred);
    bits_of(0, 2) + bits_of(po, 4) + partitions_bits(res, bs / pow2(po), pred, 0, pow2(po))
}

/// Encode a block's residuals with partitioned Rice coding; `residual` holds
/// the residuals after the warm-up samples.
pub fn encode_residual(writer: &mut BitWriter, residual: &[i32], predictor_order: usize, block_size: usize, compression_level: u8) -> (r: Result<(), FlacError>)
    requires
        old(writer).wf(),
        predictor_order <= 4,
        block_size >= 1,
        block_size < 0x1_0000_0000,
        residual@.len() + predictor_order == block_size,
        residuals_in_range(residual@),
    ensures
        r is Ok,
        final(writer).wf(),
        final(writer).bits() == old(writer).bits() + residual_bits(
            residual@,
            predictor_order as nat,
            block_size as nat,
            compression_level,
        ),
{
    let ghost res = residual@;
    let ghost bs: nat = block_size as nat;
    let ghost pred: nat = predictor_order as nat;

    // calculate the level's cap on the partition order
    let cap: usize = if compression_level == 0 {
        0
    } else if compression_level <= 2 {
        2
    } else if compression_level <= 5 {
        4
    } else {
        6
    };
    proof {
        assert(cap == initial_partition_cap(compression_level));
        assert(pow2(0) == 1 && pow2(1) == 2 && pow2(2) == 4 && pow2(3) == 8 && pow2(4) == 16
            && pow2(5) == 32 && pow2(6) == 64) by { lemma2_to64(); };
    }

    // largest order up to the cap whose power of two divides the block size
    proof {
        assert(bs % pow2(0) == 0) by {
            vstd::arithmetic::div_mod::lemma_mod_multiples_basic(bs as int, 1);
        };
    }
    let mut partition_order: usize = 0;
    let mut t: usize = 1;
    while t <= cap
        invariant
            1 <= t <= cap + 1,
            cap <= 6,
            bs == block_size,
            partition_order as nat == tz_cap(bs, (t - 1) as nat),
            partition_order <= t - 1,
            bs % pow2(partition_order as nat) == 0,
            pow2(0) == 1 && pow2(1) == 2 && pow2(2) == 4 && pow2(3) == 8 && pow2(4) == 16
                && pow2(5) == 32 && pow2(6) == 64,
        decreases cap + 1 - t,
    {
        proof {
            lemma_usize_shl_is_mul(1, t);
        }
        let divisor: usize = 1usize << t;
        if block_size % divisor == 0 {
            partition_order = t;
        }
        t = t + 1;
    }
    proof {
        assert(partition_order as nat == tz_cap(bs, cap as nat));
    }

    // lower the order until each partition holds more samples than the
    // predictor order and at least four
    let ghost po_tz: nat = partition_order as nat;
    while partition_order > 0 && (block_size >> partition_order <= predictor_order
        || block_size >> partition_order < 4)
        invariant
            partition_order <= po_tz <= 6,
            bs == block_size,
            pred == predictor_order,
            bs % pow2(po_tz) == 0,
            bs % pow2(partition_order as nat) == 0,
            shrink_partition_order(po_tz, bs, pred) == shrink_partition_order(
                partition_order as nat,
                bs,
                pred,
            ),
        decreases partition_order,
    {
        proof {
            lemma_usize_shr_is_div(block_size, partition_order);
            lemma_pow2_divides_smaller(bs, (partition_order - 1) as nat, po_tz);
        }
        partition_order = partition_order - 1;
    }
    proof {
        lemma_usize_shr_is_div(block_size, partition_order);
        assert(partition_order as nat == partition_order_of(compression_level, bs, pred));
    }
    let ghost po: nat = partition_order as nat;

    // write coding method (0b00 for 4-bit Rice parameters) and the order
    writer.write_bits(0, 2);
    writer.write_bits(partition_order as u64, 4);

    proof {
        lemma_usize_shl_is_mul(1, partition_order);
        lemma_usize_shr_is_div(block_size, partition_order);
        lemma_pow2_pos(po);
        assert(pow2(0) == 1 && pow2(1) == 2 && pow2(2) == 4 && pow2(3) == 8 && pow2(4) == 16
            && pow2(5) == 32 && pow2(6) == 64) by { lemma2_to64(); };
    }
    let num_partitions: usize = 1usize << partition_order;
    let default_partition_samples: usize = block_size >> partition_order;
    proof {
        assert(num_partitions == pow2(po));
        assert(default_partition_samples as nat == bs / pow2(po));
        // the order divides the block size exactly
        lemma_fundamental_div_mod(bs as int, pow2(po) as int);
        assert(pow2(po) * (default_partition_samples as int) == (default_partition_samples as int)
            * pow2(po)) by (nonlinear_arith);
        assert((default_partition_samples as int) * pow2(po) == bs);
        // the first partition is never shorter than the warm-up
        if partition_order == 0 {
            assert(default_partition_samples == block_size);
        }
    }
    let ghost psize: nat = default_partition_samples as nat;

    let mut sample_idx: usize = 0;
    let mut partition_idx: usize = 0;
    proof {
        assert(writer.bits() =~= old(writer).bits() + (bits_of(0, 2) + bits_of(po, 4)));
        assert(writer.bits() + partitions_bits(res, psize, pred, 0, pow2(po)) =~= old(
            writer,
        ).bits() + residual_bits(res, pred, bs, compression_level));
    }
    while partition_idx < num_partitions
        invariant
            partition_idx <= num_partitions,
            num_partitions == pow2(po),
            psize == default_partition_samples,
            (default_partition_samples as int) * pow2(po) == bs,
            partition_order as nat == po,
            default_partition_samples as nat == bs / pow2(po),
            po > 0 ==> psize > pred && psize >= 4,
            po == 0 ==> num_partitions == 1 && psize == bs,
            pred <= 4,
            bs >= 1,
            bs < 0x1_0000_0000,
            res.len() + pred == bs,
            res == residual@,
            residuals_in_range(res),
            pred == predictor_order,
            bs == block_size,
            sample_idx == if partition_idx == 0 {
                0int
            } else {
                partition_idx * psize - pred
            },
            writer.wf(),
            writer.bits() + partitions_bits(
                res,
                psize,
                pred,
                partition_idx as nat,
                (num_partitions - partition_idx) as nat,
            ) == old(writer).bits() + residual_bits(res, pred, bs, compression_level),
        decreases num_partitions - partition_idx,
    {
        proof {
            assert((partition_idx + 1) * psize <= pow2(po) * psize) by (nonlinear_arith)
                requires
                    partition_idx + 1 <= pow2(po),
                    psize >= 0,
            ;
            assert(pow2(po) * psize == bs) by (nonlinear_arith)
                requires
                    (psize as int) * pow2(po) == bs,
            ;
            assert((partition_idx + 1) * psize == partition_idx * psize + psize) by (nonlinear_arith);
            if partition_idx > 0 {
                assert(partition_idx * psize >= psize) by (nonlinear_arith)
                    requires
                        partition_idx >= 1,
                        psize >= 0,
                ;
            }
        }

        // the first partition has fewer samples because the warm-up samples
        // are not residuals
        let partition_samples: usize = if partition_idx == 0 {
            default_partition_samples - predictor_order
        } else {
            default_partition_samples
        };
        let ghost cnt: nat = partition_samples as nat;
        proof {
            assert(sample_idx + partition_samples <= res.len());
        }

        if partition_samples > 0 {
            let partition_residual = vstd::slice::slice_subrange(
                residual,
                sample_idx,
                sample_idx + partition_samples,
            );
            let rice_param: u32 = calculate_rice_parameter(partition_residual);
            writer.write_bits(rice_param as u64, 4);
            encode_rice_partition(writer, partition_residual, rice_param)?;
            proof {
                assert(writer.bits() + partitions_bits(
                    res,
                    psize,
                    pred,
                    (partition_idx + 1) as nat,
                    (num_partitions - partition_idx - 1) as nat,
                ) =~= old(writer).bits() + residual_bits(res, pred, bs, compression_level));
            }
        } else {
            proof {
                assert(writer.bits() + partitions_bits(
                    res,
                    psize,
                    pred,
                    (partition_idx + 1) as nat,
                    (num_partitions - partition_idx - 1) as nat,
                ) =~= old(writer).bits() + residual_bits(res, pred, bs, compression_level));
            }
        }

        sample_idx = sample_idx + partition_samples;
        partition_idx = partition_idx + 1;
    }
    proof {
        assert(partitions_bits(res, psize, pred, num_partitions as nat, 0) =~= Seq::<
            bool,
        >::empty());
        assert(writer.bits() =~= writer.bits() + partitions_bits(
            res,
            psize,
            pred,
            num_partitions as nat,
            0,
        ));
    }
    Ok(())
}


/// The predictor order the compression level selects, lowered when the block
/// is too short for it.
pub open spec fn subframe_predictor_order(level: u8, bs: nat) -> nat {
    if level == 0 {
        0
    } else if level == 1 {
        if bs >= 1 { 1 } else { 0 }
    } else if level == 2 {
        if bs >= 2 { 2 } else { 0 }
    } else if level <= 4 {
        if bs >= 3 { 3 } else { 0 }
    } else {
        if bs >= 4 { 4 } else { 0 }
    }
}

/// A channel's residuals after the warm-up samples: each sample minus its
/// fixed prediction.
pub open spec fn residuals_of(s: Seq<i32>, order: nat) -> Seq<i32> {
    Seq::new(
        (s.len() - order) as nat,
        |j: int| (s[j + order] - fixed_prediction(s, order as int, j + order)) as i32,
    )
}

/// One sample written verbatim: its two's-complement value at `bps` bits.
pub open spec fn sample_bits(v: i32, bps: nat) -> Seq<bool> {
    bits_of((v as u64) as nat, bps)
}

/// A run of samples written verbatim, in order.
pub open spec fn verbatim_bits(s: Seq<i32>, bps: nat) -> Seq<bool>
    decreases s.len(),
{
    if s.len() == 0 {
        Seq::empty()
    } else {
        verbatim_bits(s.drop_last(), bps) + sample_bits(s.last(), bps)
    }
}

/// The bits of one subframe: the one-bit zero pad, the six-bit type code
/// (verbatim or fixed with its order), the wasted-bits flag, then either the
/// raw samples or the warm-up samples followed by the partitioned-Rice
/// residuals.
pub open spec fn subframe_bits(s: Seq<i32>, bps: nat, level: u8) -> Seq<bool> {
    let order = subframe_predictor_order(level, s.len());
    let header = bits_of(0, 1) + (if order == 0 {
        bits_of(1, 6)
    } else {
        bits_of(8 + order, 6)
    }) + bits_of(0, 1);
    if order == 0 {
        header + verbatim_bits(s, bps)
    } else {
        header + verbatim_bits(s.take(order as int), bps) + residual_bits(
            residuals_of(s, order),
            order,
            s.len(),
            level,
        )
    }
}

/// Encode one channel's samples as a subframe: verbatim at level zero or for
/// blocks shorter than the predictor, otherwise a fixed predictor with
/// partitioned-Rice residuals.
pub fn encode_subframe(writer: &mut BitWriter, samples: &[i32], bits_per_sample: u8, compression_level: u8) -> (r: Result<(), FlacError>)
    requires
        old(writer).wf(),
        samples_in_i16_range(samples@),
        1 <= samples@.len() < 0x1_0000_0000,
        bits_per_sample <= 64,
    ensures
        r is Ok,
        final(writer).wf(),
        final(writer).bits() == old(writer).bits() + subframe_bits(
            samples@,
            bits_per_sample as nat,
            compression_level,
        ),
{
    let ghost all = samples@;
    let ghost bps: nat = bits_per_sample as nat;
    let block_size: usize = samples.len();

    // choose predictor order based on compression level
    let predictor_order: usize = if compression_level == 0 {
        0
    } else if compression_level == 1 {
        if block_size >= 1 { 1 } else { 0 }
    } else if compression_level == 2 {
        if block_size >= 2 { 2 } else { 0 }
    } else if compression_level <= 4 {
        if block_size >= 3 { 3 } else { 0 }
    } else {
        if block_size >= 4 { 4 } else { 0 }
    };
    let ghost order: nat = predictor_order as nat;
    proof {
        assert(order == subframe_predictor_order(compression_level, all.len()));
    }

    // subframe header: zero bit, six-bit type, wasted-bits flag
    writer.write_bits(0, 1);
    if predictor_order == 0 {
        writer.write_bits(0b000001, 6);
    } else {
        let subframe_type: u64 = 0b001000 | (predictor_order as u64);
        proof {
            let o: u64 = predictor_order as u64;
            assert(0b001000u64 | o == 8 + o) by (bit_vector)
                requires
                    o <= 4,
            ;
        }
        writer.write_bits(subframe_type, 6);
    }
    writer.write_bits(0, 1);
    let ghost header = bits_of(0, 1) + (if order == 0 {
        bits_of(1, 6)
    } else {
        bits_of(8 + order, 6)
    }) + bits_of(0, 1);
    proof {
        assert(writer.bits() =~= old(writer).bits() + header);
    }

    if predictor_order == 0 {
        // verbatim subframe: write the samples directly
        let mut i: usize = 0;
        proof {
            assert(verbatim_bits(all.take(0), bps) =~= Seq::<bool>::empty());
            assert(writer.bits() + verbatim_bits(all.take(0), bps) =~= writer.bits());
        }
        while i < samples.len()
            invariant
                i <= all.len(),
                samples@ == all,
                bps == bits_per_sample as nat,
                bits_per_sample <= 64,
                writer.wf(),
                writer.bits() == old(writer).bits() + header + verbatim_bits(all.take(i as int), bps),
            decreases all.len() - i,
        {
            let sample: i32 = samples[i];
            writer.write_bits(sample as u64, bits_per_sample);
            proof {
                assert(all.take(i + 1).drop_last() =~= all.take(i as int));
                assert(all.take(i + 1).last() == all[i as int]);
                assert(writer.bits() =~= old(writer).bits() + header + verbatim_bits(all.take(i + 1), bps));
            }
            i = i + 1;
        }
        proof {
            assert(all.take(all.len() as int) =~= all);
            assert(writer.bits() =~= old(writer).bits() + subframe_bits(all, bps, compression_level));
        }
    } else {
        // write the warm-up samples
        let mut i: usize = 0;
        proof {
            assert(verbatim_bits(all.take(0), bps) =~= Seq::<bool>::empty());
            assert(writer.bits() + verbatim_bits(all.take(0), bps) =~= writer.bits());
        }
        while i < predictor_order
            invariant
                i <= predictor_order <= 4,
                predictor_order <= all.len(),
                samples@ == all,
                bps == bits_per_sample as nat,
                bits_per_sample <= 64,
                writer.wf(),
                writer.bits() == old(writer).bits() + header + verbatim_bits(all.take(i as int), bps),
            decreases predictor_order - i,
        {
            let sample: i32 = samples[i];
            writer.write_bits(sample as u64, bits_per_sample);
            proof {
                assert(all.take(i + 1).drop_last() =~= all.take(i as int));
                assert(all.take(i + 1).last() == all[i as int]);
                assert(writer.bits() =~= old(writer).bits() + header + verbatim_bits(all.take(i + 1), bps));
            }
            i = i + 1;
        }

        // calculate and encode the residual after the warm-up samples
        let residual = apply_fixed_predictor(samples, predictor_order);
        let residual_tail = vstd::slice::slice_subrange(residual.as_slice(), predictor_order, block_size);
        proof {
            assert(residual_tail@ =~= residuals_of(all, order));
            assert forall|j: int| 0 <= j < residual_tail@.len() implies -0x4000_0000
                <= #[trigger] residual_tail@[j] <= 0x3FFF_FFFF by {
                assert(-0x8000 <= all[j + order] <= 0x7FFF);
                if order >= 1 { assert(-0x8000 <= all[j + order - 1] <= 0x7FFF); }
                if order >= 2 { assert(-0x8000 <= all[j + order - 2] <= 0x7FFF); }
                if order >= 3 { assert(-0x8000 <= all[j + order - 3] <= 0x7FFF); }
                if order >= 4 { assert(-0x8000 <= all[j + order - 4] <= 0x7FFF); }
            };
        }
        encode_residual(writer, residual_tail, predictor_order, block_size, compression_level)?;
        proof {
            assert(writer.bits() =~= old(writer).bits() + subframe_bits(all, bps, compression_level));
        }
    }

    Ok(())
}

/// The bits of the streaminfo metadata block, flagged as the last metadata
/// block: block sizes, frame sizes, stream parameters, total samples per
/// channel, and the MD5 of the unencoded audio.
pub open spec fn streaminfo_bits(min_block_size: u16, max_block_size: u16, min_frame_size: u32, max_frame_size: u32, sample_rate: u32, channels: u16, bits_per_sample: u8, total_samples: u64, md5: Seq<u8>) -> Seq<bool> {
    bits_of(1, 1) + bits_of(0, 7) + bits_of(34, 24) + bits_of(min_block_size as nat, 16)
        + bits_of(max_block_size as nat, 16) + bits_of(min_frame_size as nat, 24)
        + bits_of(max_frame_size as nat, 24) + bits_of(sample_rate as nat, 20)
        + bits_of((channels - 1) as nat, 3) + bits_of((bits_per_sample - 1) as nat, 5)
        + bits_of(total_samples as nat, 36) + bytes_bits(md5)
}

/// Write the streaminfo metadata block, including the audio MD5.
pub fn write_streaminfo(writer: &mut BitWriter, min_block_size: u16, max_block_size: u16, min_frame_size: u32, max_frame_size: u32, sample_rate: u32, channels: u16, bits_per_sample: u8, total_samples: u64, md5: &[u8])
    requires
        old(writer).wf(),
        channels >= 1,
        bits_per_sample >= 1,
        md5@.len() == 16,
    ensures
        final(writer).wf(),
        final(writer).bits() == old(writer).bits() + streaminfo_bits(
            min_block_size,
            max_block_size,
            min_frame_size,
            max_frame_size,
            sample_rate,
            channels,
            bits_per_sample,
            total_samples,
            md5@,
        ),
{
    // metadata block header: last-block flag, type zero, 34-byte length
    writer.write_bits(1, 1);
    writer.write_bits(0, 7);
    writer.write_bits(34, 24);

    // streaminfo fields
    writer.write_bits(min_block_size as u64, 16);
    writer.write_bits(max_block_size as u64, 16);
    writer.write_bits(min_frame_size as u64, 24);
    writer.write_bits(max_frame_size as u64, 24);
    writer.write_bits(sample_rate as u64, 20);
    writer.write_bits((channels - 1) as u64, 3);
    writer.write_bits((bits_per_sample - 1) as u64, 5);
    writer.write_bits(total_samples, 36);

    // MD5 checksum of the unencoded audio
    writer.write_bytes(md5);

    proof {
        assert(final(writer).bits() =~= old(writer).bits() + streaminfo_bits(
            min_block_size,
            max_block_size,
            min_frame_size,
            max_frame_size,
            sample_rate,
            channels,
            bits_per_sample,
            total_samples,
            md5@,
        ));
    }
}


/// Frame sync code: fourteen one bits save the last.
pub const FRAME_SYNC_CODE: u16 = 0x3FFE;

/// The four-bit block-size code of the frame header; six and seven announce
/// an explicit block size after the frame number.
#[verifier::opaque]
pub open spec fn block_size_code(bs: nat) -> nat {
    if bs == 192 { 1 }
    else if bs == 576 { 2 }
    else if bs == 1152 { 3 }
    else if bs == 2304 { 4 }
    else if bs == 4608 { 5 }
    else if bs == 256 { 8 }
    else if bs == 512 { 9 }
    else if bs == 1024 { 10 }
    else if bs == 2048 { 11 }
    else if bs == 4096 { 12 }
    else if bs == 8192 { 13 }
    else if bs == 16384 { 14 }
    else if bs == 32768 { 15 }
    else if bs < 256 { 6 }
    else { 7 }
}

/// The four-bit sample-rate code of the frame header; zero defers to the
/// streaminfo block.
#[verifier::opaque]
pub open spec fn sample_rate_code(rate: nat) -> nat {
    if rate == 88200 { 1 }
    else if rate == 176400 { 2 }
    else if rate == 192000 { 3 }
    else if rate == 8000 { 4 }
    else if rate == 16000 { 5 }
    else if rate == 22050 { 6 }
    else if rate == 24000 { 7 }
    else if rate == 32000 { 8 }
    else if rate == 44100 { 9 }
    else if rate == 48000 { 10 }
    else if rate == 96000 { 11 }
    else { 0 }
}

/// The three-bit sample-size code of the frame header; zero defers to the
/// streaminfo block.
#[verifier::opaque]
pub open spec fn sample_size_code(bps: nat) -> nat {
    if bps == 8 { 1 }
    else if bps == 12 { 2 }
    else if bps == 16 { 4 }
    else if bps == 20 { 5 }
    else if bps == 24 { 6 }
    else { 0 }
}

/// The frame header bits before its CRC-8: sync code, reserved and blocking
/// strategy bits, the four field codes, the coded frame number, and the
/// explicit block size when the code calls for one.
pub open spec fn frame_header_bits(channels: nat, sample_rate: nat, bps: nat, frame_number: u64, bs: nat) -> Seq<bool> {
    bits_of(0x3FFE, 14) + bits_of(0, 1) + bits_of(0, 1) + bits_of(block_size_code(bs), 4)
        + bits_of(sample_rate_code(sample_rate), 4) + bits_of((channels - 1) as nat, 4)
        + bits_of(sample_size_code(bps), 3) + bits_of(0, 1) + utf8_bits(frame_number) + (if block_size_code(bs) == 6 {
        byte_bits((bs - 1) as u8)
    } else if block_size_code(bs) == 7 {
        bits_of((bs - 1) as nat, 16)
    } else {
        Seq::<bool>::empty()
    })
}

/// Channel `ch` of an interleaved block, widened to 32 bits; positions past
/// the supplied samples read as zero.
pub open spec fn channel_samples_of(samples: Seq<i16>, channels: nat, ch: int, bs: nat) -> Seq<i32> {
    Seq::new(
        bs as nat,
        |i: int| if i * channels + ch < samples.len() {
            samples[i * channels + ch] as i32
        } else {
            0i32
        },
    )
}

/// The subframes of channels `ch .. ch + n_left`, in order.
pub open spec fn subframes_bits(samples: Seq<i16>, channels: nat, bs: nat, bps: nat, level: u8, ch: nat, n_left: nat) -> Seq<bool>
    decreases n_left,
{
    if n_left == 0 {
        Seq::empty()
    } else {
        subframe_bits(channel_samples_of(samples, channels, ch as int, bs), bps, level)
            + subframes_bits(samples, channels, bs, bps, level, ch + 1, (n_left - 1) as nat)
    }
}

/// The bits of one whole FLAC frame: the header followed by the CRC-8 of the
/// header's bytes, one subframe per channel, zero padding to the next byte
/// boundary, and the CRC-16 of all the frame's bytes so far. Running the
/// frame's emitted bytes back through the two checksums reproduces the
/// embedded values.
pub open spec fn frame_bits(samples: Seq<i16>, channels: nat, sample_rate: nat, bps: nat, frame_number: u64, bs: nat, level: u8) -> Seq<bool> {
    let h = frame_header_bits(channels, sample_rate, bps, frame_number, bs);
    let h2 = h + byte_bits(crate::crc::crc8_of(stream_bytes(h)));
    let body = h2 + subframes_bits(samples, channels, bs, bps, level, 0, channels);
    let padded = body + bits_of(0, ((8 - body.len() % 8) % 8) as nat);
    padded + bits_of(crate::crc::crc16_of(stream_bytes(padded)) as nat, 16)
}

/// The coded frame numbers stay a whole number of bytes long.
proof fn lemma_utf8_bits_len(v: u64)
    ensures
        utf8_bits(v).len() % 8 == 0,
{
    broadcast use crate::bitio::lemma_bits_of_len;

    reveal(utf8_bits);
}

/// Write a frame's header and its CRC-8: everything of the frame before the
/// first subframe.
#[verifier::rlimit(100)]
fn write_frame_header(writer: &mut BitWriter, channels: u16, sample_rate: u32, bits_per_sample: u8, frame_number: u32, block_size: usize)
    requires
        old(writer).wf(),
        old(writer).bits().len() % 8 == 0,
        channels >= 1,
        1 <= block_size < 0x1_0000_0000,
    ensures
        final(writer).wf(),
        final(writer).bits() == old(writer).bits() + frame_header_bits(
            channels as nat,
            sample_rate as nat,
            bits_per_sample as nat,
            frame_number as u64,
            block_size as nat,
        ) + byte_bits(crate::crc::crc8_of(stream_bytes(frame_header_bits(
            channels as nat,
            sample_rate as nat,
            bits_per_sample as nat,
            frame_number as u64,
            block_size as nat,
        )))),
        final(writer).bits().len() % 8 == 0,
{
    broadcast use crate::bitio::lemma_bits_of_len, crate::bitio::lemma_bytes_bits_len;

    let ghost start_bits = old(writer).bits();
    let frame_start: usize = writer.buffer.len();
    proof {
        writer.lemma_aligned_buffer();
        writer.lemma_bits_len();
    }
    let ghost buffer0 = writer.buffer@;

    // frame header: sync code, reserved bit, fixed blocking strategy
    writer.write_bits(FRAME_SYNC_CODE as u64, 14);
    writer.write_bits(0, 1);
    writer.write_bits(0, 1);

    // block size code
    let block_size_bits: u64 = if block_size == 192 { 0b0001 }
    else if block_size == 576 { 0b0010 }
    else if block_size == 1152 { 0b0011 }
    else if block_size == 2304 { 0b0100 }
    else if block_size == 4608 { 0b0101 }
    else if block_size == 256 { 0b1000 }
    else if block_size == 512 { 0b1001 }
    else if block_size == 1024 { 0b1010 }
    else if block_size == 2048 { 0b1011 }
    else if block_size == 4096 { 0b1100 }
    else if block_size == 8192 { 0b1101 }
    else if block_size == 16384 { 0b1110 }
    else if block_size == 32768 { 0b1111 }
    else if block_size < 256 { 0b0110 }
    else { 0b0111 };
    proof {
        assert(block_size_bits as nat == block_size_code(block_size as nat)) by {
            reveal(block_size_code);
        };
    }
    writer.write_bits(block_size_bits, 4);

    // sample rate code
    let sample_rate_bits: u64 = if sample_rate == 88200 { 0b0001 }
    else if sample_rate == 176400 { 0b0010 }
    else if sample_rate == 192000 { 0b0011 }
    else if sample_rate == 8000 { 0b0100 }
    else if sample_rate == 16000 { 0b0101 }
    else if sample_rate == 22050 { 0b0110 }
    else if sample_rate == 24000 { 0b0111 }
    else if sample_rate == 32000 { 0b1000 }
    else if sample_rate == 44100 { 0b1001 }
    else if sample_rate == 48000 { 0b1010 }
    else if sample_rate == 96000 { 0b1011 }
    else { 0b0000 };
    proof {
        assert(sample_rate_bits as nat == sample_rate_code(sample_rate as nat)) by {
            reveal(sample_rate_code);
        };
    }
    writer.write_bits(sample_rate_bits, 4);

    // channel assignment: independent channels only
    writer.write_bits((channels - 1) as u64, 4);

    // sample size code
    let sample_size_bits: u64 = if bits_per_sample == 8 { 0b001 }
    else if bits_per_sample == 12 { 0b010 }
    else if bits_per_sample == 16 { 0b100 }
    else if bits_per_sample == 20 { 0b101 }
    else if bits_per_sample == 24 { 0b110 }
    else { 0b000 };
    proof {
        assert(sample_size_bits as nat == sample_size_code(bits_per_sample as nat)) by {
            reveal(sample_size_code);
        };
    }
    writer.write_bits(sample_size_bits, 3);

    // reserved bit
    writer.write_bits(0, 1);

    // frame number, UTF-8 coded
    write_utf8_number(writer, frame_number as u64);

    // explicit block size for the uncommon codes
    if block_size_bits == 0b0110 {
        writer.write_byte((block_size - 1) as u8);
    } else if block_size_bits == 0b0111 {
        writer.write_bits((block_size - 1) as u64, 16);
    }

    let ghost h = frame_header_bits(
        channels as nat,
        sample_rate as nat,
        bits_per_sample as nat,
        frame_number as u64,
        block_size as nat,
    );
    proof {
        assert(writer.bits() =~= start_bits + h);
        lemma_utf8_bits_len(frame_number as u64);
        assert(h.len() % 8 == 0);
        assert(writer.bits().len() % 8 == 0);
        writer.lemma_aligned_buffer();
        assert(start_bits =~= bytes_bits(buffer0));
        assert(writer.bits() =~= bytes_bits(buffer0) + h);
        crate::bitio::lemma_stream_bytes_of_bytes(buffer0, h);
        assert(writer.buffer@ == buffer0 + stream_bytes(h));
    }


    // frame header CRC-8 over the header's bytes
    let header_len: usize = writer.buffer.len() - frame_start;
    let header_bytes = vstd::slice::slice_subrange(writer.buffer.as_slice(), frame_start, frame_start + header_len);
    proof {
        assert(header_bytes@ =~= stream_bytes(h));
    }
    let crc8_value: u8 = crate::crc::crc8(header_bytes);
    writer.write_byte(crc8_value);
    proof {
        assert(final(writer).bits() =~= start_bits + h + byte_bits(crate::crc::crc8_of(stream_bytes(h))));
        final(writer).lemma_bits_len();
        assert((8 * final(writer).buffer@.len() + final(writer).bit_count as int) % 8
            == final(writer).bit_count as int % 8) by (nonlinear_arith);
    }
}

/// Split an interleaved block into its channels, widened to 32 bits, reading
/// zero past the end of the supplied samples.
fn deinterleave_channels(samples: &[i16], channels: u16, block_size: usize) -> (r: Vec<Vec<i32>>)
    requires
        channels >= 1,
        block_size * channels <= usize::MAX,
    ensures
        r@.len() == channels,
        forall|c: int| 0 <= c < channels ==> #[trigger] r@[c]@ == channel_samples_of(
            samples@,
            channels as nat,
            c,
            block_size as nat,
        ),
{
    let channels_us: usize = channels as usize;
    let mut channel_samples: Vec<Vec<i32>> = Vec::new();
    let mut ch: usize = 0;
    while ch < channels_us
        invariant
            ch <= channels_us,
            channels_us == channels,
            channels >= 1,
            block_size * channels <= usize::MAX,
            channel_samples@.len() == ch,
            forall|c: int| 0 <= c < ch ==> #[trigger] channel_samples@[c]@ == channel_samples_of(
                samples@,
                channels as nat,
                c,
                block_size as nat,
            ),
        decreases channels_us - ch,
    {
        let mut chan: Vec<i32> = Vec::new();
        let mut i: usize = 0;
        while i < block_size
            invariant
                i <= block_size,
                ch < channels_us,
                channels_us == channels,
                block_size * channels <= usize::MAX,
                chan@.len() == i,
                forall|j: int| 0 <= j < i ==> #[trigger] chan@[j] == channel_samples_of(
                    samples@,
                    channels as nat,
                    ch as int,
                    block_size as nat,
                )[j],
            decreases block_size - i,
        {
            proof {
                assert((i + 1) * channels <= block_size * channels) by (nonlinear_arith)
                    requires
                        i + 1 <= block_size,
                        channels >= 0,
                ;
                assert(i * channels + channels == (i + 1) * channels) by (nonlinear_arith);
            }
            let sample_idx: usize = i * channels_us + ch;
            if sample_idx < samples.len() {
                chan.push(samples[sample_idx] as i32);
            } else {
                chan.push(0);
            }
            i = i + 1;
        }
        proof {
            assert(chan@ =~= channel_samples_of(samples@, channels as nat, ch as int, block_size as nat));
        }
        channel_samples.push(chan);
        ch = ch + 1;
    }
    channel_samples
}

/// Encode one complete FLAC frame: header with CRC-8, one subframe per
/// channel, byte alignment, and the CRC-16 footer.
#[verifier::rlimit(100)]
pub fn encode_frame(writer: &mut BitWriter, samples: &[i16], channels: u16, sample_rate: u32, bits_per_sample: u8, frame_number: u32, block_size: usize, compression_level: u8) -> (r: Result<(), FlacError>)
    requires
        old(writer).wf(),
        old(writer).bits().len() % 8 == 0,
        channels >= 1,
        1 <= block_size < 0x1_0000_0000,
        block_size * channels <= usize::MAX,
        bits_per_sample <= 64,
    ensures
        r is Ok,
        final(writer).wf(),
        final(writer).bits() == old(writer).bits() + frame_bits(
            samples@,
            channels as nat,
            sample_rate as nat,
            bits_per_sample as nat,
            frame_number as u64,
            block_size as nat,
            compression_level,
        ),
        final(writer).bits().len() % 8 == 0,
{
    let ghost start_bits = old(writer).bits();
    let frame_start: usize = writer.buffer.len();
    proof {
        writer.lemma_aligned_buffer();
        writer.lemma_bits_len();
    }
    let ghost buffer0 = writer.buffer@;

    write_frame_header(writer, channels, sample_rate, bits_per_sample, frame_number, block_size);
    let ghost h = frame_header_bits(
        channels as nat,
        sample_rate as nat,
        bits_per_sample as nat,
        frame_number as u64,
        block_size as nat,
    );
    let ghost h2 = h + byte_bits(crate::crc::crc8_of(stream_bytes(h)));
    proof {
        assert(writer.bits() =~= start_bits + h2);
    }

    // deinterleave the block and encode each channel as one subframe
    let channel_samples = deinterleave_channels(samples, channels, block_size);
    let channels_us: usize = channels as usize;
    let mut ch2: usize = 0;
    proof {
        assert(writer.bits() + subframes_bits(
            samples@,
            channels as nat,
            block_size as nat,
            bits_per_sample as nat,
            compression_level,
            0,
            channels as nat,
        ) =~= start_bits + h2 + subframes_bits(
            samples@,
            channels as nat,
            block_size as nat,
            bits_per_sample as nat,
            compression_level,
            0,
            channels as nat,
        ));
    }
    while ch2 < channels_us
        invariant
            ch2 <= channels_us,
            channels_us == channels,
            channels >= 1,
            1 <= block_size < 0x1_0000_0000,
            bits_per_sample <= 64,
            channel_samples@.len() == channels_us,
            forall|c: int| 0 <= c < channels_us ==> #[trigger] channel_samples@[c]@
                == channel_samples_of(samples@, channels as nat, c, block_size as nat),
            writer.wf(),
            writer.bits() + subframes_bits(
                samples@,
                channels as nat,
                block_size as nat,
                bits_per_sample as nat,
                compression_level,
                ch2 as nat,
                (channels_us - ch2) as nat,
            ) == start_bits + h2 + subframes_bits(
                samples@,
                channels as nat,
                block_size as nat,
                bits_per_sample as nat,
                compression_level,
                0,
                channels as nat,
            ),
        decreases channels_us - ch2,
    {
        let chan_ref: &Vec<i32> = &channel_samples[ch2];
        proof {
            assert(chan_ref@ == channel_samples_of(samples@, channels as nat, ch2 as int, block_size as nat));
            assert forall|j: int| 0 <= j < chan_ref@.len() implies -0x8000 <= #[trigger] chan_ref@[j]
                <= 0x7FFF by {
                assert(chan_ref@[j] == channel_samples_of(samples@, channels as nat, ch2 as int, block_size as nat)[j]);
            };
        }
        encode_subframe(writer, chan_ref.as_slice(), bits_per_sample, compression_level)?;
        proof {
            assert(writer.bits() + subframes_bits(
                samples@,
                channels as nat,
                block_size as nat,
                bits_per_sample as nat,
                compression_level,
                (ch2 + 1) as nat,
                (channels_us - ch2 - 1) as nat,
            ) =~= start_bits + h2 + subframes_bits(
                samples@,
                channels as nat,
                block_size as nat,
                bits_per_sample as nat,
                compression_level,
                0,
                channels as nat,
            ));
        }
        ch2 = ch2 + 1;
    }
    let ghost body = h2 + subframes_bits(
        samples@,
        channels as nat,
        block_size as nat,
        bits_per_sample as nat,
        compression_level,
        0,
        channels as nat,
    );
    proof {
        assert(subframes_bits(
            samples@,
            channels as nat,
            block_size as nat,
            bits_per_sample as nat,
            compression_level,
            channels_us as nat,
            0,
        ) =~= Seq::<bool>::empty());
        assert(writer.bits() + Seq::<bool>::empty() =~= writer.bits());
        assert(writer.bits() =~= start_bits + body);
    }

    // byte-align the subframe payload
    proof {
        writer.lemma_bits_len();
        assert((8 * writer.buffer@.len() + writer.bit_count as int) % 8 == writer.bit_count as int
            % 8) by (nonlinear_arith);
        assert(writer.bits().len() % 8 == writer.bit_count as int % 8);
        assert(start_bits.len() % 8 == 0);
        assert(body.len() % 8 == (start_bits.len() + body.len()) % 8) by {
            vstd::arithmetic::div_mod::lemma_add_mod_noop(start_bits.len() as int, body.len() as int, 8);
        };
    }
    writer.byte_align();
    let ghost padded = body + bits_of(0, ((8 - body.len() % 8) % 8) as nat);
    proof {
        assert(writer.bits() =~= start_bits + padded);
        writer.lemma_bits_len();
        writer.lemma_aligned_buffer();
        assert(start_bits =~= bytes_bits(buffer0));
        assert(writer.bits() =~= bytes_bits(buffer0) + padded);
        crate::bitio::lemma_stream_bytes_of_bytes(buffer0, padded);
        assert(writer.buffer@ == buffer0 + stream_bytes(padded));
    }

    // frame footer: CRC-16 over the whole frame's bytes
    let frame_len: usize = writer.buffer.len() - frame_start;
    let frame_bytes_slice = vstd::slice::slice_subrange(writer.buffer.as_slice(), frame_start, frame_start + frame_len);
    proof {
        assert(frame_bytes_slice@ =~= stream_bytes(padded));
    }
    let crc16_value: u16 = crate::crc::crc16(frame_bytes_slice);
    writer.write_bits(crc16_value as u64, 16);

    proof {
        assert(final(writer).bits() =~= start_bits + frame_bits(
            samples@,
            channels as nat,
            sample_rate as nat,
            bits_per_sample as nat,
            frame_number as u64,
            block_size as nat,
            compression_level,
        ));
        crate::bitio::lemma_bits_of_len(crc16_value as nat, 16);
        vstd::arithmetic::div_mod::lemma_add_mod_noop((start_bits + padded).len() as int, 16, 8);
        assert(final(writer).bits().len() % 8 == 0);
    }
    Ok(())
}


/// The block size a compression level selects for a stream of `total`
/// samples per channel: 1152 for the fast levels, 4096 above, clamped to the
/// stream's length and to the format's minimum of 16.
pub open spec fn stream_block_size(level: u8, total: nat) -> nat {
    let base: nat = if level <= 2 { 1152 } else { 4096 };
    let m: nat = if base <= total { base } else { total };
    if m >= 16 { m } else { 16 }
}

/// The stream magic: the four bytes spelling fLaC.
pub open spec fn flac_magic_bits() -> Seq<bool> {
    byte_bits(0x66) + byte_bits(0x4C) + byte_bits(0x61) + byte_bits(0x43)
}

/// The audio frames of a stream from `offset` on: blocks of the stream's
/// block size, a shorter final block for the leftover, stopping when fewer
/// than one frame per channel remains.
pub open spec fn frames_bits(samples: Seq<i16>, sample_rate: u32, channels: nat, level: u8, offset: nat, frame_number: u64) -> Seq<bool>
    decreases samples.len() - offset,
    when offset <= samples.len() && channels >= 1
    via frames_bits_dec
{
    let bsz = stream_block_size(level, samples.len() / channels);
    let remaining = (samples.len() - offset) as nat;
    let cbs: nat = if bsz <= remaining / channels {
        bsz
    } else {
        remaining / channels
    };
    if cbs == 0 {
        Seq::<bool>::empty()
    } else {
        frame_bits(
            samples.subrange(offset as int, (offset + cbs * channels) as int),
            channels,
            sample_rate as nat,
            16,
            frame_number,
            cbs,
            level,
        ) + frames_bits(
            samples,
            sample_rate,
            channels,
            level,
            offset + cbs * channels,
            (frame_number + 1) as u64,
        )
    }
}

#[via_fn]
proof fn frames_bits_dec(samples: Seq<i16>, sample_rate: u32, channels: nat, level: u8, offset: nat, frame_number: u64) {
    let remaining = (samples.len() - offset) as nat;
    let bsz = stream_block_size(level, samples.len() / channels);
    let cbs: nat = if bsz <= remaining / channels {
        bsz
    } else {
        remaining / channels
    };
    if cbs != 0 {
        assert(cbs <= remaining / channels);
        assert((remaining / channels) * channels <= remaining) by (nonlinear_arith)
            requires
                channels >= 1,
                remaining >= 0,
        ;
        assert(cbs * channels <= (remaining / channels) * channels) by (nonlinear_arith)
            requires
                cbs <= remaining / channels,
                channels >= 0,
        ;
        assert(cbs * channels >= 1) by (nonlinear_arith)
            requires
                cbs >= 1,
                channels >= 1,
        ;
    }
}

/// The bits of a whole FLAC stream: the magic, the streaminfo block carrying
/// the stream parameters and the MD5 of the unencoded samples, then the
/// audio frames.
pub open spec fn flac_stream_bits(samples: Seq<i16>, sample_rate: u32, channels: u16, level: u8) -> Seq<bool> {
    let total = samples.len() / (channels as nat);
    let bsz = stream_block_size(level, total);
    flac_magic_bits() + streaminfo_bits(
        bsz as u16,
        bsz as u16,
        0,
        0,
        sample_rate,
        channels,
        16,
        total as u64,
        crate::md5::md5_digest(crate::md5::samples_le_bytes(samples)),
    ) + frames_bits(samples, sample_rate, channels as nat, level, 0, 0)
}

/// Encode interleaved 16-bit samples as a complete FLAC stream at the given
/// compression level. Succeeds exactly when at least sixteen samples per
/// channel are supplied and the level is at most eight; the bytes returned
/// are the stream's specified layout, bit for bit.
#[verifier::rlimit(60)]
pub fn encode_flac_with_level(samples: &[i16], sample_rate: u32, channels: u16, compression_level: u8) -> (r: Result<Vec<u8>, FlacError>)
    requires
        channels >= 1,
        samples@.len() < 0x1_0000_0000,
    ensures
        r is Ok <==> samples@.len() / (channels as nat) >= 16 && compression_level <= 8,
        samples@.len() / (channels as nat) < 16 ==> r == Err::<Vec<u8>, FlacError>(
            FlacError::TooShort,
        ),
        samples@.len() / (channels as nat) >= 16 && compression_level > 8 ==> r == Err::<
            Vec<u8>,
            FlacError,
        >(FlacError::InvalidConfig),
        r is Ok ==> r->Ok_0@ == stream_bytes(flac_stream_bits(
            samples@,
            sample_rate,
            channels,
            compression_level,
        )),
{
    broadcast use crate::bitio::lemma_bits_of_len, crate::bitio::lemma_bytes_bits_len;

    let channels_us: usize = channels as usize;
    let total_samples: usize = samples.len() / channels_us;

    // FLAC requires at least 16 samples per channel
    if total_samples < 16 {
        return Err(FlacError::TooShort);
    }

    // validate compression level
    if compression_level > 8 {
        return Err(FlacError::InvalidConfig);
    }

    let bits_per_sample: u8 = 16;

    // choose block size based on compression level
    let base: usize = if compression_level <= 2 {
        1152
    } else {
        4096
    };
    let clamped: usize = if base <= total_samples {
        base
    } else {
        total_samples
    };
    let block_size: usize = if clamped >= 16 {
        clamped
    } else {
        16
    };
    proof {
        assert(block_size as nat == stream_block_size(compression_level, total_samples as nat));
        assert(16 <= block_size <= 4096);
    }

    let mut writer = BitWriter::new();

    // write the FLAC signature
    writer.write_byte(0x66);
    writer.write_byte(0x4C);
    writer.write_byte(0x61);
    writer.write_byte(0x43);
    proof {
        assert(writer.bits() =~= flac_magic_bits());
    }

    // MD5 checksum of the unencoded audio
    let md5 = crate::md5::compute_md5(samples);

    write_streaminfo(
        &mut writer,
        block_size as u16,
        block_size as u16,
        0,  // unknown min frame size
        0,  // unknown max frame size
        sample_rate,
        channels,
        bits_per_sample,
        total_samples as u64,
        md5.as_slice(),
    );
    let ghost preamble = flac_magic_bits() + streaminfo_bits(
        block_size as u16,
        block_size as u16,
        0,
        0,
        sample_rate,
        channels,
        16,
        total_samples as u64,
        crate::md5::md5_digest(crate::md5::samples_le_bytes(samples@)),
    );
    proof {
        assert(writer.bits() =~= preamble);
        assert(writer.bits().len() % 8 == 0);
    }

    // encode frames until fewer samples than one frame per channel remain
    let mut sample_offset: usize = 0;
    let mut frame_number: u32 = 0;
    proof {
        assert(writer.bits() + frames_bits(
            samples@,
            sample_rate,
            channels as nat,
            compression_level,
            0,
            0,
        ) =~= flac_stream_bits(samples@, sample_rate, channels, compression_level));
    }
    while channels_us <= samples.len() - sample_offset
        invariant
            channels_us == channels,
            channels >= 1,
            samples@.len() < 0x1_0000_0000,
            total_samples == samples@.len() / (channels as nat),
            total_samples >= 16,
            compression_level <= 8,
            bits_per_sample == 16,
            block_size as nat == stream_block_size(compression_level, total_samples as nat),
            16 <= block_size <= 4096,
            sample_offset <= samples@.len(),
            frame_number <= sample_offset,
            writer.wf(),
            writer.bits().len() % 8 == 0,
            writer.bits() + frames_bits(
                samples@,
                sample_rate,
                channels as nat,
                compression_level,
                sample_offset as nat,
                frame_number as u64,
            ) == flac_stream_bits(samples@, sample_rate, channels, compression_level),
        decreases samples@.len() - sample_offset,
    {
        let remaining: usize = samples.len() - sample_offset;
        let quotient: usize = remaining / channels_us;
        let current_block_size: usize = if block_size <= quotient {
            block_size
        } else {
            quotient
        };
        proof {
            // at least one whole frame remains
            assert(remaining >= channels);
            assert(quotient >= 1) by {
                vstd::arithmetic::div_mod::lemma_div_is_ordered(channels as int, remaining as int, channels as int);
                vstd::arithmetic::div_mod::lemma_div_by_self(channels as int);
            };
            assert(current_block_size >= 1);
            assert(quotient * channels <= remaining) by (nonlinear_arith)
                requires
                    channels >= 1,
                    remaining >= 0,
                    quotient == remaining as int / channels as int,
            ;
            assert(current_block_size * channels <= quotient * channels) by (nonlinear_arith)
                requires
                    current_block_size <= quotient,
                    channels >= 0,
            ;
            assert(current_block_size * channels >= 1) by (nonlinear_arith)
                requires
                    current_block_size >= 1,
                    channels >= 1,
            ;
            assert(current_block_size * channels <= 4096 * 65535) by (nonlinear_arith)
                requires
                    current_block_size <= 4096,
                    channels <= 65535,
            ;
        }

        let frame_samples = vstd::slice::slice_subrange(
            samples,
            sample_offset,
            sample_offset + current_block_size * channels_us,
        );
        let res = encode_frame(
            &mut writer,
            frame_samples,
            channels,
            sample_rate,
            bits_per_sample,
            frame_number,
            current_block_size,
            compression_level,
        );
        proof {
            assert(writer.bits() + frames_bits(
                samples@,
                sample_rate,
                channels as nat,
                compression_level,
                (sample_offset + current_block_size * channels_us) as nat,
                (frame_number + 1) as u64,
            ) =~= flac_stream_bits(samples@, sample_rate, channels, compression_level));
        }

        sample_offset = sample_offset + current_block_size * channels_us;
        frame_number = frame_number + 1;
    }

    proof {
        // fewer than one frame per channel is left: the frame sequence ends
        let remaining: nat = (samples@.len() - sample_offset) as nat;
        assert(remaining < channels);
        assert(remaining / (channels as nat) == 0) by {
            vstd::arithmetic::div_mod::lemma_basic_div(remaining as int, channels as int);
        };
        assert(frames_bits(
            samples@,
            sample_rate,
            channels as nat,
            compression_level,
            sample_offset as nat,
            frame_number as u64,
        ) =~= Seq::<bool>::empty());
        assert(writer.bits() =~= flac_stream_bits(samples@, sample_rate, channels, compression_level));
    }
    Ok(writer.get_bytes())
}

} // verus!
