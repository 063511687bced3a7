//! Append-only MSB-first bit stream with byte alignment and exposed backing
//! bytes.
//!
//! The writer is modelled by the sequence of bits written so far, `bits()`:
//! every write appends to that sequence, and the backing bytes are the bit
//! sequence packed eight to a byte, the last byte padded with zeros at its low
//! end.

use vstd::prelude::*;
use vstd::arithmetic::power2::{pow2, lemma_pow2_adds, lemma_pow2_pos, lemma_pow2_strictly_increases, lemma_pow2_unfold, lemma2_to64};
use vstd::arithmetic::div_mod::{lemma_div_denominator, lemma_div_multiples_vanish, lemma_mod_breakdown, lemma_mod_multiples_vanish, lemma_small_mod, lemma_fundamental_div_mod};
use vstd::bits::{low_bits_mask, lemma_u64_shr_is_div, lemma_u64_shl_is_mul, lemma_u64_low_bits_mask_is_mod, lemma_u8_shl_is_mul};

verus! {

/// The low `n` bits of `v`, most significant first.
pub open spec fn bits_of(v: nat, n: nat) -> Seq<bool>
    decreases n,
{
    if n == 0 {
        Seq::empty()
    } else {
        bits_of(v / 2, (n - 1) as nat).push(v % 2 == 1)
    }
}

/// The value of a bit sequence read most significant bit first.
pub open spec fn val_of_bits(s: Seq<bool>) -> nat
    decreases s.len(),
{
    if s.len() == 0 {
        0
    } else {
        2 * val_of_bits(s.drop_last()) + (if s.last() { 1nat } else { 0nat })
    }
}

/// The eight bits of one byte, most significant first.
pub open spec fn byte_bits(b: u8) -> Seq<bool> {
    bits_of(b as nat, 8)
}

/// The bits of a byte sequence, in order.
pub open spec fn bytes_bits(s: Seq<u8>) -> Seq<bool>
    decreases s.len(),
{
    if s.len() == 0 {
        Seq::empty()
    } else {
        byte_bits(s.first()) + bytes_bits(s.drop_first())
    }
}

/// A bit sequence packed into bytes, eight bits at a time, the trailing
/// partial byte (if any) padded with zeros at its low end.
pub open spec fn stream_bytes(s: Seq<bool>) -> Seq<u8>
    decreases s.len(),
{
    if s.len() == 0 {
        Seq::empty()
    } else if s.len() >= 8 {
        seq![val_of_bits(s.take(8)) as u8] + stream_bytes(s.skip(8))
    } else {
        seq![(val_of_bits(s) * pow2((8 - s.len()) as nat)) as u8]
    }
}

/// `v` zero bits followed by a one: the unary code of `v`.
pub open spec fn unary_bits(v: nat) -> Seq<bool> {
    bits_of(0, v) + seq![true]
}

pub broadcast proof fn lemma_bits_of_len(v: nat, n: nat)
    ensures
        (#[trigger] bits_of(v, n)).len() == n,
    decreases n,
{
    if n > 0 {
        lemma_bits_of_len(v / 2, (n - 1) as nat);
    }
}

pub broadcast proof fn lemma_bytes_bits_len(s: Seq<u8>)
    ensures
        (#[trigger] bytes_bits(s)).len() == 8 * s.len(),
    decreases s.len(),
{
    if s.len() > 0 {
        lemma_bits_of_len(s.first() as nat, 8);
        lemma_bytes_bits_len(s.drop_first());
    }
}

/// Splitting the low `n` bits of `v` at position `k`: the high `n - k` bits
/// are the bits of `v / 2^k`, the low `k` bits follow them.
pub proof fn lemma_bits_of_split(v: nat, n: nat, k: nat)
    requires
        k <= n,
    ensures
        bits_of(v, n) == bits_of(v / pow2(k), (n - k) as nat) + bits_of(v, k),
    decreases k,
{
    broadcast use lemma_bits_of_len;

    if k == 0 {
        assert(pow2(0) == 1) by { lemma2_to64(); };
        assert(bits_of(v, n) =~= bits_of(v / 1, n) + bits_of(v, 0));
    } else {
        lemma_bits_of_split(v / 2, (n - 1) as nat, (k - 1) as nat);
        lemma_pow2_unfold(k);
        lemma_pow2_pos((k - 1) as nat);
        lemma_div_denominator(v as int, 2, pow2((k - 1) as nat) as int);
        assert((v / 2) / pow2((k - 1) as nat) == v / pow2(k));
        assert(bits_of(v, n) =~= (bits_of(v / pow2(k), (n - k) as nat) + bits_of(v / 2, (k - 1) as nat)).push(v % 2 == 1));
        assert((bits_of(v / pow2(k), (n - k) as nat) + bits_of(v / 2, (k - 1) as nat)).push(v % 2 == 1)
            =~= bits_of(v / pow2(k), (n - k) as nat) + bits_of(v / 2, (k - 1) as nat).push(v % 2 == 1));
    }
}

/// Only the low `n` bits of `v` matter to `bits_of(v, n)`.
pub proof fn lemma_bits_of_mod(v: nat, n: nat)
    ensures
        bits_of(v % pow2(n), n) == bits_of(v, n),
    decreases n,
{
    if n == 0 {
        assert(pow2(0) == 1) by { lemma2_to64(); };
        assert(bits_of(v % pow2(0), 0) =~= bits_of(v, 0));
    } else {
        let p = pow2((n - 1) as nat);
        lemma_pow2_unfold(n);
        lemma_pow2_pos(n);
        lemma_pow2_pos((n - 1) as nat);
        lemma_mod_breakdown(v as int, 2, p as int);
        assert(v % pow2(n) == 2 * ((v / 2) % p) + v % 2);
        let w = (v % pow2(n)) as nat;
        let a = (v / 2) % p;
        let b = v % 2;
        assert(w % 2 == b && w / 2 == a) by (nonlinear_arith)
            requires
                w == 2 * a + b,
                0 <= b < 2,
                a >= 0,
        ;
        lemma_bits_of_mod(v / 2, (n - 1) as nat);
        assert(bits_of(w, n) =~= bits_of(v, n));
    }
}

/// Appending `k` low bits of `c` to the `m`-bit value `p` forms the
/// `m + k`-bit value `p * 2^k + c`.
pub proof fn lemma_bits_of_compose(p: nat, c: nat, m: nat, k: nat)
    requires
        c < pow2(k),
    ensures
        bits_of(p * pow2(k) + c, m + k) == bits_of(p, m) + bits_of(c, k),
{
    let x = p * pow2(k) + c;
    lemma_pow2_pos(k);
    lemma_bits_of_split(x, m + k, k);
    assert(x / pow2(k) == p && x % pow2(k) == c) by (nonlinear_arith)
        requires
            x == p * pow2(k) + c,
            0 <= c < pow2(k),
    ;
    lemma_bits_of_mod(x, k);
    lemma_bits_of_mod(c, k);
    lemma_small_mod(c, pow2(k));
    assert(bits_of(x, k) == bits_of(c, k));
}

/// Reading bits back: the value of the low `n` bits of `v` is `v % 2^n`.
pub proof fn lemma_val_of_bits_of(v: nat, n: nat)
    ensures
        val_of_bits(bits_of(v, n)) == v % pow2(n),
    decreases n,
{
    broadcast use lemma_bits_of_len;

    if n == 0 {
        assert(pow2(0) == 1) by { lemma2_to64(); };
    } else {
        let p = pow2((n - 1) as nat);
        lemma_val_of_bits_of(v / 2, (n - 1) as nat);
        assert(bits_of(v, n).drop_last() =~= bits_of(v / 2, (n - 1) as nat));
        lemma_pow2_unfold(n);
        lemma_pow2_pos((n - 1) as nat);
        lemma_mod_breakdown(v as int, 2, p as int);
        assert(v % pow2(n) == 2 * ((v / 2) % p) + v % 2);
    }
}

pub proof fn lemma_bytes_bits_push(s: Seq<u8>, b: u8)
    ensures
        bytes_bits(s.push(b)) == bytes_bits(s) + byte_bits(b),
    decreases s.len(),
{
    if s.len() == 0 {
        assert(s.push(b).drop_first() =~= s);
        assert(bytes_bits(s) =~= Seq::<bool>::empty());
        assert(bytes_bits(s.push(b)) =~= byte_bits(b));
        assert(bytes_bits(s) + byte_bits(b) =~= byte_bits(b));
    } else {
        assert(s.push(b).first() == s.first());
        assert(s.push(b).drop_first() =~= s.drop_first().push(b));
        lemma_bytes_bits_push(s.drop_first(), b);
        assert(bytes_bits(s.push(b)) =~= bytes_bits(s) + byte_bits(b));
    }
}

/// Packing undoes unpacking: the stream bytes of a byte sequence's bits,
/// followed by any tail, are those bytes followed by the packed tail.
pub proof fn lemma_stream_bytes_of_bytes(s: Seq<u8>, t: Seq<bool>)
    ensures
        stream_bytes(bytes_bits(s) + t) == s + stream_bytes(t),
    decreases s.len(),
{
    broadcast use lemma_bits_of_len, lemma_bytes_bits_len;

    if s.len() == 0 {
        assert(bytes_bits(s) + t =~= t);
        assert(s + stream_bytes(t) =~= stream_bytes(t));
    } else {
        let b = s.first();
        let rest = s.drop_first();
        let whole = bytes_bits(s) + t;
        assert(whole =~= byte_bits(b) + (bytes_bits(rest) + t));
        assert(whole.len() >= 8);
        assert(whole.take(8) =~= byte_bits(b));
        assert(whole.skip(8) =~= bytes_bits(rest) + t);
        lemma_val_of_bits_of(b as nat, 8);
        assert(pow2(8) == 256) by { lemma2_to64(); };
        assert(val_of_bits(whole.take(8)) == b as nat);
        lemma_stream_bytes_of_bytes(rest, t);
        assert(stream_bytes(whole) =~= seq![b] + (rest + stream_bytes(t)));
        assert(seq![b] + (rest + stream_bytes(t)) =~= s + stream_bytes(t));
    }
}

/// Bit writer for FLAC encoding: append-only, most significant bit first.
pub struct BitWriter {
    /// Completed bytes of the stream.
    pub buffer: Vec<u8>,
    /// Bits of the trailing partial byte, placed from the most significant
    /// position down; the unused low positions are zero.
    pub current_byte: u8,
    /// Number of bits occupied in `current_byte`.
    pub bit_count: u8,
}

impl BitWriter {
    /// Value of the bits held in the trailing partial byte.
    pub open spec fn partial_val(&self) -> nat {
        self.current_byte as nat / pow2((8 - self.bit_count) as nat)
    }

    /// The partial byte holds fewer than eight bits, and its unused low
    /// positions are zero.
    pub open spec fn wf(&self) -> bool {
        self.bit_count < 8 && self.current_byte as nat % pow2((8 - self.bit_count) as nat) == 0
    }

    /// The whole bit stream written so far.
    #[verifier::opaque]
    pub open spec fn bits(&self) -> Seq<bool> {
        bytes_bits(self.buffer@) + bits_of(self.partial_val(), self.bit_count as nat)
    }

    /// The stream's length in bits, split over the completed bytes and the
    /// partial byte.
    pub proof fn lemma_bits_len(&self)
        ensures
            self.bits().len() == 8 * self.buffer@.len() + self.bit_count,
    {
        broadcast use lemma_bits_of_len, lemma_bytes_bits_len;

        reveal(BitWriter::bits);
    }

    /// A byte-aligned stream has no partial byte, and its backing bytes are
    /// exactly its bits packed eight to a byte.
    pub proof fn lemma_aligned_buffer(&self)
        requires
            self.wf(),
            self.bits().len() % 8 == 0,
        ensures
            self.bit_count == 0,
            self.buffer@ == stream_bytes(self.bits()),
            self.bits() == bytes_bits(self.buffer@),
    {
        broadcast use lemma_bits_of_len, lemma_bytes_bits_len;

        reveal(BitWriter::bits);
        self.lemma_bits_len();
        assert((8 * self.buffer@.len() + self.bit_count as int) % 8 == self.bit_count as int % 8) by (nonlinear_arith);
        assert(self.bit_count == 0);
        lemma_stream_bytes_of_bytes(self.buffer@, bits_of(self.partial_val(), 0));
        assert(self.bits() =~= bytes_bits(self.buffer@) + bits_of(self.partial_val(), 0));
        assert(self.buffer@ + stream_bytes(bits_of(self.partial_val(), 0)) =~= self.buffer@);
        assert(bytes_bits(self.buffer@) + bits_of(self.partial_val(), 0) =~= bytes_bits(self.buffer@));
    }

    /// Create a new, empty bit writer.
    pub fn new() -> (r: BitWriter)
        ensures
            r.wf(),
            r.bits() == Seq::<bool>::empty(),
            r.buffer@ == Seq::<u8>::empty(),
    {
        proof {
            lemma_pow2_pos(8);
        }
        let w = BitWriter { buffer: Vec::new(), current_byte: 0, bit_count: 0 };
        proof {
            reveal(BitWriter::bits);
            assert(w.bits() =~= Seq::<bool>::empty());
        }
        w
    }

    /// Append the low `bits` bits of `value`, most significant first.
    pub fn write_bits(&mut self, value: u64, bits: u8)
        requires
            old(self).wf(),
            bits <= 64,
        ensures
            final(self).wf(),
            final(self).bits() == old(self).bits() + bits_of(value as nat, bits as nat),
    {
        let mut bits_remaining: u8 = bits;
        proof {
            broadcast use lemma_bits_of_len;

            assert(pow2(0) == 1) by { lemma2_to64(); };
            lemma_pow2_pos(bits as nat);
            assert(self.bits() + bits_of(value as nat / pow2(bits as nat), 0) =~= self.bits());
        }
        while bits_remaining > 0
            invariant
                self.wf(),
                bits_remaining <= bits <= 64,
                self.bits() == old(self).bits()
                    + bits_of(value as nat / pow2(bits_remaining as nat), (bits - bits_remaining) as nat),
            decreases bits_remaining,
        {
            let ghost pre = *self;
            let ghost rem0: nat = bits_remaining as nat;
            let ghost bc: nat = self.bit_count as nat;
            let ghost pv: nat = self.partial_val();

            let avail: u8 = 8 - self.bit_count;
            let bits_to_write: u8 = if avail <= bits_remaining { avail } else { bits_remaining };
            let shift: u8 = bits_remaining - bits_to_write;
            let ghost k: nat = bits_to_write as nat;
            let ghost rem1: nat = shift as nat;

            proof {
                lemma_pow2_pos(k);
                lemma_pow2_pos(rem0);
                lemma_pow2_pos(rem1);
                lemma_pow2_pos((8 - bc) as nat);
                lemma_pow2_pos((8 - bc - k) as nat);
                lemma_pow2_pos(bc);
                if k < 8 {
                    lemma_pow2_strictly_increases(k, 8);
                }
                if 8 - bc < 8 {
                    lemma_pow2_strictly_increases((8 - bc) as nat, 8);
                }
                assert(pow2(8) == 256 && pow2(0) == 1 && pow2(1) == 2) by { lemma2_to64(); };
                lemma_u64_shl_is_mul(1u64, bits_to_write as u64);
                assert(1u64 << (bits_to_write as u64) == pow2(k));
            }

            let mask: u64 = (1u64 << (bits_to_write as u64)) - 1;
            proof {
                assert(mask == (pow2(k) - 1) as u64);
                assert(mask as nat == low_bits_mask(k));
            }
            let chunk_wide: u64 = (value >> (shift as u64)) & mask;
            proof {
                lemma_u64_shr_is_div(value, shift as u64);
                lemma_u64_low_bits_mask_is_mod(value >> (shift as u64), k);
                assert(chunk_wide as nat == (value as nat / pow2(rem1)) % pow2(k));
                assert(chunk_wide < pow2(k));
            }
            let chunk: u8 = chunk_wide as u8;
            let ghost c: nat = chunk as nat;
            proof {
                assert(c == chunk_wide as nat);
            }

            let pos: u8 = 8 - self.bit_count - bits_to_write;
            proof {
                // the partial byte is pv * 2^(8 - bc), and the new chunk slots
                // into its zeroed low positions
                lemma_pow2_adds((8 - bc - k) as nat, k);
                lemma_pow2_adds((8 - bc) as nat, bc);
                assert(self.current_byte as nat == pv * pow2((8 - bc) as nat)) by {
                    assert(self.current_byte as nat % pow2((8 - bc) as nat) == 0);
                    lemma_fundamental_div_mod(self.current_byte as int, pow2((8 - bc) as nat) as int);
                    assert(pow2((8 - bc) as nat) * pv == pv * pow2((8 - bc) as nat)) by (nonlinear_arith);
                };
                assert(pv < pow2(bc)) by {
                    assert((8 - bc) as nat + bc == 8);
                    assert(pow2(8) == pow2((8 - bc) as nat) * pow2(bc));
                    assert((self.current_byte as nat) < pow2((8 - bc) as nat) * pow2(bc));
                    vstd::arithmetic::div_mod::lemma_multiply_divide_lt(self.current_byte as int, pow2((8 - bc) as nat) as int, pow2(bc) as int);
                };
                assert(chunk as nat * pow2(pos as nat) < pow2((8 - bc) as nat)) by (nonlinear_arith)
                    requires
                        chunk < pow2(k),
                        pow2((8 - bc) as nat) == pow2((8 - bc - k) as nat) * pow2(k),
                        pos as nat == (8 - bc - k) as nat,
                        pow2((8 - bc - k) as nat) > 0,
                ;
                assert(pv * pow2((8 - bc) as nat) + pow2((8 - bc) as nat) <= pow2(bc) * pow2((8 - bc) as nat)) by (nonlinear_arith)
                    requires
                        pv < pow2(bc),
                        pow2((8 - bc) as nat) > 0,
                ;
                assert(pow2(bc) * pow2((8 - bc) as nat) == pow2((8 - bc) as nat) * pow2(bc)) by (nonlinear_arith);
                lemma_u8_shl_is_mul(chunk, pos);
            }
            let shifted: u8 = chunk << pos;
            self.current_byte = self.current_byte + shifted;
            self.bit_count = self.bit_count + bits_to_write;

            proof {
                let nb: nat = self.current_byte as nat;
                assert(nb == pv * pow2((8 - bc) as nat) + c * pow2((8 - bc - k) as nat));
                // nb == (pv * 2^k + c) * 2^(8 - bc - k)
                assert(nb == (pv * pow2(k) + c) * pow2((8 - bc - k) as nat)) by (nonlinear_arith)
                    requires
                        nb == pv * (pow2((8 - bc - k) as nat) * pow2(k)) + c * pow2((8 - bc - k) as nat),
                ;
                assert((pv * pow2(k) + c) * pow2((8 - bc - k) as nat) == pow2((8 - bc - k) as nat) * (pv * pow2(k) + c)) by (nonlinear_arith);
                lemma_mod_multiples_vanish((pv * pow2(k) + c) as int, 0, pow2((8 - bc - k) as nat) as int);
                lemma_small_mod(0, pow2((8 - bc - k) as nat));
                assert(nb % pow2((8 - bc - k) as nat) == 0);
                lemma_div_multiples_vanish((pv * pow2(k) + c) as int, pow2((8 - bc - k) as nat) as int);
                assert(nb / pow2((8 - bc - k) as nat) == pv * pow2(k) + c);
                lemma_bits_of_compose(pv, c, bc, k);
            }

            if self.bit_count == 8 {
                let full = self.current_byte;
                self.buffer.push(full);
                self.current_byte = 0;
                self.bit_count = 0;
                proof {
                    reveal(BitWriter::bits);
                    assert(pow2(0) == 1) by { lemma2_to64(); };
                    assert(8 - bc - k == 0);
                    assert(full as nat == pv * pow2(k) + c);
                    lemma_bytes_bits_push(pre.buffer@, full);
                    assert(byte_bits(full) == bits_of(pv, bc) + bits_of(c, k));
                    assert(self.bits() =~= pre.bits() + bits_of(c, k));
                }
            } else {
                proof {
                    reveal(BitWriter::bits);
                    assert(self.partial_val() == pv * pow2(k) + c);
                    assert(self.bits() =~= pre.bits() + bits_of(c, k));
                }
            }

            proof {
                // fold the freshly written chunk into the prefix already written
                lemma_pow2_adds(rem1, k);
                lemma_div_denominator(value as int, pow2(rem1) as int, pow2(k) as int);
                assert((value as nat / pow2(rem1)) / pow2(k) == value as nat / pow2(rem0));
                lemma_bits_of_split(value as nat / pow2(rem1), (bits - shift) as nat, k);
                lemma_bits_of_mod(value as nat / pow2(rem1), k);
                assert(bits_of(c, k) == bits_of(value as nat / pow2(rem1), k)) by {
                    lemma_bits_of_mod(c, k);
                    lemma_small_mod(c, pow2(k));
                    assert(c % pow2(k) == (value as nat / pow2(rem1)) % pow2(k));
                };
                assert(bits_of(value as nat / pow2(rem1), (bits - shift) as nat)
                    == bits_of(value as nat / pow2(rem0), (bits - bits_remaining) as nat) + bits_of(c, k));
                assert(self.bits() =~= old(self).bits() + bits_of(value as nat / pow2(rem1), (bits - shift) as nat));
            }

            bits_remaining = shift;
        }
        proof {
            assert(pow2(0) == 1) by { lemma2_to64(); };
            assert(value as nat / 1 == value as nat);
        }
    }

    /// Append one byte: eight bits, most significant first.
    pub fn write_byte(&mut self, byte: u8)
        requires
            old(self).wf(),
        ensures
            final(self).wf(),
            final(self).bits() == old(self).bits() + byte_bits(byte),
    {
        self.write_bits(byte as u64, 8);
    }

    /// Append a run of bytes in order.
    pub fn write_bytes(&mut self, bytes: &[u8])
        requires
            old(self).wf(),
        ensures
            final(self).wf(),
            final(self).bits() == old(self).bits() + bytes_bits(bytes@),
    {
        let ghost all = bytes@;
        let mut i: usize = 0;
        proof {
            assert(bytes_bits(all.take(0)) =~= Seq::<bool>::empty());
            assert(self.bits() + bytes_bits(all.take(0)) =~= self.bits());
        }
        while i < bytes.len()
            invariant
                self.wf(),
                i <= all.len(),
                bytes@ == all,
                self.bits() == old(self).bits() + bytes_bits(all.take(i as int)),
            decreases all.len() - i,
        {
            let b = bytes[i];
            self.write_byte(b);
            proof {
                assert(all.take(i + 1) =~= all.take(i as int).push(all[i as int]));
                lemma_bytes_bits_push(all.take(i as int), all[i as int]);
                assert(self.bits() =~= old(self).bits() + bytes_bits(all.take(i + 1)));
            }
            i = i + 1;
        }
        proof {
            assert(all.take(all.len() as int) =~= all);
        }
    }

    /// Append the unary code of `value`: `value` zeros, then a one.
    pub fn write_unary(&mut self, value: u32)
        requires
            old(self).wf(),
        ensures
            final(self).wf(),
            final(self).bits() == old(self).bits() + unary_bits(value as nat),
    {
        let mut i: u32 = 0;
        proof {
            assert(bits_of(0, 0) =~= Seq::<bool>::empty());
            assert(self.bits() + bits_of(0, 0) =~= self.bits());
        }
        while i < value
            invariant
                self.wf(),
                i <= value,
                self.bits() == old(self).bits() + bits_of(0, i as nat),
            decreases value - i,
        {
            self.write_bits(0, 1);
            proof {
                assert(bits_of(0, 0) =~= Seq::<bool>::empty());
                assert(bits_of(0u64 as nat, 1) =~= seq![false]);
                assert(bits_of(0, i as nat + 1) =~= bits_of(0, i as nat).push(false));
                assert(self.bits() =~= old(self).bits() + bits_of(0, i as nat + 1));
            }
            i = i + 1;
        }
        self.write_bits(1, 1);
        proof {
            assert(bits_of(1nat / 2, 0) =~= Seq::<bool>::empty());
            assert(bits_of(1u64 as nat, 1) =~= seq![true]);
            assert(self.bits() =~= old(self).bits() + unary_bits(value as nat));
        }
    }

    /// Flush the partial byte, if any: pad the stream with zeros to the next
    /// byte boundary.
    pub fn byte_align(&mut self)
        requires
            old(self).wf(),
        ensures
            final(self).wf(),
            final(self).bit_count == 0,
            final(self).bits() == old(self).bits()
                + bits_of(0, ((8 - old(self).bit_count as int) % 8) as nat),
            final(self).bits().len() % 8 == 0,
    {
        let ghost pre = *self;
        if self.bit_count > 0 {
            let ghost bc: nat = self.bit_count as nat;
            let ghost pv: nat = self.partial_val();
            let full = self.current_byte;
            self.buffer.push(full);
            self.current_byte = 0;
            self.bit_count = 0;
            proof {
                broadcast use lemma_bits_of_len;

                reveal(BitWriter::bits);
                lemma_pow2_pos((8 - bc) as nat);
                assert(pow2(8) == 256 && pow2(0) == 1) by { lemma2_to64(); };
                assert(full as nat == pv * pow2((8 - bc) as nat)) by {
                    lemma_fundamental_div_mod(full as int, pow2((8 - bc) as nat) as int);
                    assert(pow2((8 - bc) as nat) * pv == pv * pow2((8 - bc) as nat)) by (nonlinear_arith);
                };
                lemma_bits_of_compose(pv, 0, bc, (8 - bc) as nat);
                assert(byte_bits(full) == bits_of(pv, bc) + bits_of(0, (8 - bc) as nat));
                lemma_bytes_bits_push(pre.buffer@, full);
                assert(bits_of(self.partial_val(), 0) =~= Seq::<bool>::empty());
                assert(self.bits() =~= pre.bits() + bits_of(0, (8 - bc) as nat));
                self.lemma_bits_len();
                assert((8 * self.buffer@.len()) % 8 == 0) by (nonlinear_arith);
            }
        } else {
            proof {
                broadcast use lemma_bits_of_len;

                reveal(BitWriter::bits);
                assert(pow2(8) == 256) by { lemma2_to64(); };
                assert(pre.bits() + bits_of(0, ((8 - pre.bit_count as int) % 8) as nat) =~= pre.bits());
                self.lemma_bits_len();
                assert((8 * self.buffer@.len()) % 8 == 0) by (nonlinear_arith);
            }
        }
    }

    /// All bytes written so far, including the partial byte (zero-padded at
    /// its low end) if one is open: the stream's bits packed into bytes.
    pub fn get_bytes(&self) -> (r: Vec<u8>)
        requires
            self.wf(),
        ensures
            r@ == stream_bytes(self.bits()),
    {
        let mut result = self.buffer.clone();
        if self.bit_count > 0 {
            result.push(self.current_byte);
        }
        proof {
            reveal(BitWriter::bits);
            let bc: nat = self.bit_count as nat;
            let pv: nat = self.partial_val();
            let tail = bits_of(pv, bc);
            lemma_stream_bytes_of_bytes(self.buffer@, tail);
            broadcast use lemma_bits_of_len;

            if self.bit_count > 0 {
                lemma_val_of_bits_of(pv, bc);
                lemma_pow2_pos((8 - bc) as nat);
                assert(pv < pow2(bc)) by {
                    lemma_pow2_adds((8 - bc) as nat, bc);
                    assert((8 - bc) as nat + bc == 8);
                    assert(pow2(8) == pow2((8 - bc) as nat) * pow2(bc));
                    assert(pow2(8) == 256) by { lemma2_to64(); };
                    assert((self.current_byte as nat) < pow2((8 - bc) as nat) * pow2(bc));
                    vstd::arithmetic::div_mod::lemma_multiply_divide_lt(self.current_byte as int, pow2((8 - bc) as nat) as int, pow2(bc) as int);
                };
                assert(pv % pow2(bc) == pv) by {
                    lemma_pow2_pos(bc);
                    lemma_small_mod(pv, pow2(bc));
                };
                assert(val_of_bits(tail) == pv);
                assert(self.current_byte as nat == pv * pow2((8 - bc) as nat)) by {
                    lemma_fundamental_div_mod(self.current_byte as int, pow2((8 - bc) as nat) as int);
                    assert(pow2((8 - bc) as nat) * pv == pv * pow2((8 - bc) as nat)) by (nonlinear_arith);
                };
                assert(pv * pow2((8 - bc) as nat) < 256);
                assert(stream_bytes(tail) =~= seq![self.current_byte]);
                assert(result@ =~= self.buffer@ + stream_bytes(tail));
            } else {
                assert(tail =~= Seq::<bool>::empty());
                assert(stream_bytes(tail) =~= Seq::<u8>::empty());
                assert(result@ =~= self.buffer@ + stream_bytes(tail));
            }
        }
        result
    }
}

} // verus!
