//! MD5 digest over the unencoded audio samples, as FLAC's streaminfo
//! requires.
//!
//! The digest is specified from first principles: the padded message is
//! folded sixty-four bytes at a time through the four-round compression
//! function, and the executable context is proved to compute exactly that
//! fold over the bytes fed to it.

use vstd::prelude::*;
use vstd::bytes::{spec_u16_to_le_bytes, spec_u32_from_le_bytes, spec_u32_to_le_bytes, spec_u64_to_le_bytes, u16_to_le_bytes, u32_from_le_bytes, u32_to_le_bytes, u64_to_le_bytes};
use vstd::wrapping::u32_specs;
use vstd::slice::slice_subrange;
use vstd::arithmetic::div_mod::{lemma_add_mod_noop, lemma_small_mod, lemma_mod_sub_multiples_vanish, lemma_fundamental_div_mod};

verus! {

/// Round function of the first MD5 round: a bitwise select.
pub open spec fn md5_f(b: u32, c: u32, d: u32) -> u32 {
    (b & c) | (!b & d)
}

/// Round function of the second MD5 round.
pub open spec fn md5_g(b: u32, c: u32, d: u32) -> u32 {
    (b & d) | (c & !d)
}

/// Round function of the third MD5 round.
pub open spec fn md5_h(b: u32, c: u32, d: u32) -> u32 {
    b ^ c ^ d
}

/// Round function of the fourth MD5 round.
pub open spec fn md5_i(b: u32, c: u32, d: u32) -> u32 {
    c ^ (b | !d)
}

/// Left rotation of a 32-bit word by `s` positions, for `1 <= s <= 31`.
pub open spec fn rotl32(x: u32, s: u32) -> u32 {
    (x << s) | (x >> ((32 - s) as u32))
}

/// One MD5 step: add the round function, message word and constant, rotate,
/// and add back the neighbouring word. All additions wrap modulo 2^32.
pub open spec fn md5_step(a: u32, f: u32, b: u32, x: u32, s: u32, ac: u32) -> u32 {
    u32_specs::wrapping_add(
        rotl32(u32_specs::wrapping_add(a, u32_specs::wrapping_add(u32_specs::wrapping_add(f, x), ac)), s),
        b,
    )
}

/// A step of the first round.
pub open spec fn spec_ff(a: u32, b: u32, c: u32, d: u32, x: u32, s: u32, ac: u32) -> u32 {
    md5_step(a, md5_f(b, c, d), b, x, s, ac)
}

/// A step of the second round.
pub open spec fn spec_gg(a: u32, b: u32, c: u32, d: u32, x: u32, s: u32, ac: u32) -> u32 {
    md5_step(a, md5_g(b, c, d), b, x, s, ac)
}

/// A step of the third round.
pub open spec fn spec_hh(a: u32, b: u32, c: u32, d: u32, x: u32, s: u32, ac: u32) -> u32 {
    md5_step(a, md5_h(b, c, d), b, x, s, ac)
}

/// A step of the fourth round.
pub open spec fn spec_ii(a: u32, b: u32, c: u32, d: u32, x: u32, s: u32, ac: u32) -> u32 {
    md5_step(a, md5_i(b, c, d), b, x, s, ac)
}

/// The sixteen 32-bit message words of one 64-byte block, little-endian.
pub open spec fn md5_words(block: Seq<u8>) -> Seq<u32> {
    Seq::new(16, |i: int| spec_u32_from_le_bytes(block.subrange(4 * i, 4 * i + 4)))
}

/// The initial MD5 chaining state.
pub open spec fn md5_init() -> Seq<u32> {
    seq![0x67452301u32, 0xEFCDAB89u32, 0x98BADCFEu32, 0x10325476u32]
}

/// The MD5 compression function: four rounds of sixteen steps over one
/// 64-byte block, added back into the chaining state.
pub open spec fn md5_transform_spec(st: Seq<u32>, x: Seq<u32>) -> Seq<u32> {
    let a = st[0];
    let b = st[1];
    let c = st[2];
    let d = st[3];
    let a = spec_ff(a, b, c, d, x[0], 7, 0xD76AA478);
    let d = spec_ff(d, a, b, c, x[1], 12, 0xE8C7B756);
    let c = spec_ff(c, d, a, b, x[2], 17, 0x242070DB);
    let b = spec_ff(b, c, d, a, x[3], 22, 0xC1BDCEEE);
    let a = spec_ff(a, b, c, d, x[4], 7, 0xF57C0FAF);
    let d = spec_ff(d, a, b, c, x[5], 12, 0x4787C62A);
    let c = spec_ff(c, d, a, b, x[6], 17, 0xA8304613);
    let b = spec_ff(b, c, d, a, x[7], 22, 0xFD469501);
    let a = spec_ff(a, b, c, d, x[8], 7, 0x698098D8);
    let d = spec_ff(d, a, b, c, x[9], 12, 0x8B44F7AF);
    let c = spec_ff(c, d, a, b, x[10], 17, 0xFFFF5BB1);
    let b = spec_ff(b, c, d, a, x[11], 22, 0x895CD7BE);
    let a = spec_ff(a, b, c, d, x[12], 7, 0x6B901122);
    let d = spec_ff(d, a, b, c, x[13], 12, 0xFD987193);
    let c = spec_ff(c, d, a, b, x[14], 17, 0xA679438E);
    let b = spec_ff(b, c, d, a, x[15], 22, 0x49B40821);
    let a = spec_gg(a, b, c, d, x[1], 5, 0xF61E2562);
    let d = spec_gg(d, a, b, c, x[6], 9, 0xC040B340);
    let c = spec_gg(c, d, a, b, x[11], 14, 0x265E5A51);
    let b = spec_gg(b, c, d, a, x[0], 20, 0xE9B6C7AA);
    let a = spec_gg(a, b, c, d, x[5], 5, 0xD62F105D);
    let d = spec_gg(d, a, b, c, x[10], 9, 0x02441453);
    let c = spec_gg(c, d, a, b, x[15], 14, 0xD8A1E681);
    let b = spec_gg(b, c, d, a, x[4], 20, 0xE7D3FBC8);
    let a = spec_gg(a, b, c, d, x[9], 5, 0x21E1CDE6);
    let d = spec_gg(d, a, b, c, x[14], 9, 0xC33707D6);
    let c = spec_gg(c, d, a, b, x[3], 14, 0xF4D50D87);
    let b = spec_gg(b, c, d, a, x[8], 20, 0x455A14ED);
    let a = spec_gg(a, b, c, d, x[13], 5, 0xA9E3E905);
    let d = spec_gg(d, a, b, c, x[2], 9, 0xFCEFA3F8);
    let c = spec_gg(c, d, a, b, x[7], 14, 0x676F02D9);
    let b = spec_gg(b, c, d, a, x[12], 20, 0x8D2A4C8A);
    let a = spec_hh(a, b, c, d, x[5], 4, 0xFFFA3942);
    let d = spec_hh(d, a, b, c, x[8], 11, 0x8771F681);
    let c = spec_hh(c, d, a, b, x[11], 16, 0x6D9D6122);
    let b = spec_hh(b, c, d, a, x[14], 23, 0xFDE5380C);
    let a = spec_hh(a, b, c, d, x[1], 4, 0xA4BEEA44);
    let d = spec_hh(d, a, b, c, x[4], 11, 0x4BDECFA9);
    let c = spec_hh(c, d, a, b, x[7], 16, 0xF6BB4B60);
    let b = spec_hh(b, c, d, a, x[10], 23, 0xBEBFBC70);
    let a = spec_hh(a, b, c, d, x[13], 4, 0x289B7EC6);
    let d = spec_hh(d, a, b, c, x[0], 11, 0xEAA127FA);
    let c = spec_hh(c, d, a, b, x[3], 16, 0xD4EF3085);
    let b = spec_hh(b, c, d, a, x[6], 23, 0x04881D05);
    let a = spec_hh(a, b, c, d, x[9], 4, 0xD9D4D039);
    let d = spec_hh(d, a, b, c, x[12], 11, 0xE6DB99E5);
    let c = spec_hh(c, d, a, b, x[15], 16, 0x1FA27CF8);
    let b = spec_hh(b, c, d, a, x[2], 23, 0xC4AC5665);
    let a = spec_ii(a, b, c, d, x[0], 6, 0xF4292244);
    let d = spec_ii(d, a, b, c, x[7], 10, 0x432AFF97);
    let c = spec_ii(c, d, a, b, x[14], 15, 0xAB9423A7);
    let b = spec_ii(b, c, d, a, x[5], 21, 0xFC93A039);
    let a = spec_ii(a, b, c, d, x[12], 6, 0x655B59C3);
    let d = spec_ii(d, a, b, c, x[3], 10, 0x8F0CCC92);
    let c = spec_ii(c, d, a, b, x[10], 15, 0xFFEFF47D);
    let b = spec_ii(b, c, d, a, x[1], 21, 0x85845DD1);
    let a = spec_ii(a, b, c, d, x[8], 6, 0x6FA87E4F);
    let d = spec_ii(d, a, b, c, x[15], 10, 0xFE2CE6E0);
    let c = spec_ii(c, d, a, b, x[6], 15, 0xA3014314);
    let b = spec_ii(b, c, d, a, x[13], 21, 0x4E0811A1);
    let a = spec_ii(a, b, c, d, x[4], 6, 0xF7537E82);
    let d = spec_ii(d, a, b, c, x[11], 10, 0xBD3AF235);
    let c = spec_ii(c, d, a, b, x[2], 15, 0x2AD7D2BB);
    let b = spec_ii(b, c, d, a, x[9], 21, 0xEB86D391);
    seq![
        u32_specs::wrapping_add(st[0], a),
        u32_specs::wrapping_add(st[1], b),
        u32_specs::wrapping_add(st[2], c),
        u32_specs::wrapping_add(st[3], d),
    ]
}

/// Chaining state after folding every complete 64-byte block of `s`, in
/// order, starting from the initial state.
pub open spec fn md5_fold(s: Seq<u8>) -> Seq<u32>
    decreases s.len(),
{
    if s.len() < 64 {
        md5_init()
    } else {
        md5_transform_spec(
            md5_fold(s.take(s.len() - 64)),
            md5_words(s.skip(s.len() - 64)),
        )
    }
}

/// MD5 padding: one 0x80 byte, zeros up to 56 modulo 64, then the original
/// length in bits as eight little-endian bytes.
pub open spec fn md5_pad(msg: Seq<u8>) -> Seq<u8> {
    let index = msg.len() % 64;
    let pad_len: nat = if index < 56 { (56 - index) as nat } else { (120 - index) as nat };
    msg + seq![0x80u8] + Seq::new((pad_len - 1) as nat, |i: int| 0u8)
        + spec_u64_to_le_bytes(((msg.len() * 8) % 0x1_0000_0000_0000_0000) as u64)
}

/// The MD5 digest of a message: the chaining state after folding the padded
/// message, serialised as four little-endian words.
pub open spec fn md5_digest(msg: Seq<u8>) -> Seq<u8> {
    let fin = md5_fold(md5_pad(msg));
    spec_u32_to_le_bytes(fin[0]) + spec_u32_to_le_bytes(fin[1]) + spec_u32_to_le_bytes(fin[2])
        + spec_u32_to_le_bytes(fin[3])
}

/// The interleaved samples as bytes, each sample two little-endian bytes of
/// its two's-complement representation: the byte stream the FLAC audio MD5
/// covers.
pub open spec fn samples_le_bytes(s: Seq<i16>) -> Seq<u8>
    decreases s.len(),
{
    if s.len() == 0 {
        Seq::empty()
    } else {
        samples_le_bytes(s.drop_last()) + spec_u16_to_le_bytes(s.last() as u16)
    }
}

/// One step of the first round.
fn md5_ff(a: u32, b: u32, c: u32, d: u32, x: u32, s: u32, ac: u32) -> (r: u32)
    requires
        1 <= s <= 31,
    ensures
        r == spec_ff(a, b, c, d, x, s, ac),
{
    let f: u32 = (b & c) | (!b & d);
    let t: u32 = a.wrapping_add(f.wrapping_add(x).wrapping_add(ac));
    ((t << s) | (t >> (32 - s))).wrapping_add(b)
}

/// One step of the second round.
fn md5_gg(a: u32, b: u32, c: u32, d: u32, x: u32, s: u32, ac: u32) -> (r: u32)
    requires
        1 <= s <= 31,
    ensures
        r == spec_gg(a, b, c, d, x, s, ac),
{
    let f: u32 = (b & d) | (c & !d);
    let t: u32 = a.wrapping_add(f.wrapping_add(x).wrapping_add(ac));
    ((t << s) | (t >> (32 - s))).wrapping_add(b)
}

/// One step of the third round.
fn md5_hh(a: u32, b: u32, c: u32, d: u32, x: u32, s: u32, ac: u32) -> (r: u32)
    requires
        1 <= s <= 31,
    ensures
        r == spec_hh(a, b, c, d, x, s, ac),
{
    let f: u32 = b ^ c ^ d;
    let t: u32 = a.wrapping_add(f.wrapping_add(x).wrapping_add(ac));
    ((t << s) | (t >> (32 - s))).wrapping_add(b)
}

/// One step of the fourth round.
fn md5_ii(a: u32, b: u32, c: u32, d: u32, x: u32, s: u32, ac: u32) -> (r: u32)
    requires
        1 <= s <= 31,
    ensures
        r == spec_ii(a, b, c, d, x, s, ac),
{
    let f: u32 = c ^ (b | !d);
    let t: u32 = a.wrapping_add(f.wrapping_add(x).wrapping_add(ac));
    ((t << s) | (t >> (32 - s))).wrapping_add(b)
}

/// MD5 context for computing the audio checksum: the chaining state, the
/// total bit count, and the bytes of the trailing partial block.
pub struct MD5Context {
    /// Four-word chaining state.
    pub state: Vec<u32>,
    /// Total number of bits fed, modulo 2^64.
    pub count: u64,
    /// Bytes fed since the last complete block; fewer than 64.
    pub buffer: Vec<u8>,
    /// The whole byte stream fed so far.
    pub fed: Ghost<Seq<u8>>,
}

impl MD5Context {
    /// Length of the complete-block prefix of the fed bytes.
    pub open spec fn blocks_len(&self) -> int {
        self.fed@.len() - self.fed@.len() % 64
    }

    /// The context mirrors the fed bytes: the state is the fold of the
    /// complete blocks, the buffer holds the remainder, and the count holds
    /// the fed length in bits.
    pub open spec fn wf(&self) -> bool {
        &&& self.state@.len() == 4
        &&& self.state@ == md5_fold(self.fed@.take(self.blocks_len()))
        &&& self.buffer@ == self.fed@.skip(self.blocks_len())
        &&& self.count == (self.fed@.len() * 8) % 0x1_0000_0000_0000_0000
    }

    /// Create a context with the standard initial state and no bytes fed.
    pub fn new() -> (r: MD5Context)
        ensures
            r.wf(),
            r.fed@ == Seq::<u8>::empty(),
    {
        let mut state: Vec<u32> = Vec::new();
        state.push(0x67452301);
        state.push(0xEFCDAB89);
        state.push(0x98BADCFE);
        state.push(0x10325476);
        let r = MD5Context { state, count: 0, buffer: Vec::new(), fed: Ghost(Seq::empty()) };
        proof {
            assert(r.fed@.take(0) =~= Seq::<u8>::empty());
            assert(r.fed@.skip(0) =~= Seq::<u8>::empty());
            assert(r.state@ =~= md5_init());
        }
        r
    }

    /// Fold one 64-byte block into the chaining state; the count, buffer and
    /// fed bytes are untouched.
    pub fn transform(&mut self, block: &[u8])
        requires
            old(self).state@.len() == 4,
            block@.len() == 64,
        ensures
            final(self).state@ == md5_transform_spec(old(self).state@, md5_words(block@)),
            final(self).state@.len() == 4,
            final(self).count == old(self).count,
            final(self).buffer@ == old(self).buffer@,
            final(self).fed@ == old(self).fed@,
    {
        let ghost st0 = self.state@;
        let mut x: Vec<u32> = Vec::new();
        let mut i: usize = 0;
        while i < 16
            invariant
                i <= 16,
                block@.len() == 64,
                x@.len() == i,
                forall|j: int| 0 <= j < i ==> x@[j] == spec_u32_from_le_bytes(block@.subrange(4 * j, 4 * j + 4)),
            decreases 16 - i,
        {
            let w = u32_from_le_bytes(slice_subrange(block, 4 * i, 4 * i + 4));
            x.push(w);
            i = i + 1;
        }
        proof {
            assert(x@ =~= md5_words(block@));
        }

        let mut a: u32 = self.state[0];
        let mut b: u32 = self.state[1];
        let mut c: u32 = self.state[2];
        let mut d: u32 = self.state[3];

        a = md5_ff(a, b, c, d, x[0], 7, 0xD76AA478);
        d = md5_ff(d, a, b, c, x[1], 12, 0xE8C7B756);
        c = md5_ff(c, d, a, b, x[2], 17, 0x242070DB);
        b = md5_ff(b, c, d, a, x[3], 22, 0xC1BDCEEE);
        a = md5_ff(a, b, c, d, x[4], 7, 0xF57C0FAF);
        d = md5_ff(d, a, b, c, x[5], 12, 0x4787C62A);
        c = md5_ff(c, d, a, b, x[6], 17, 0xA8304613);
        b = md5_ff(b, c, d, a, x[7], 22, 0xFD469501);
        a = md5_ff(a, b, c, d, x[8], 7, 0x698098D8);
        d = md5_ff(d, a, b, c, x[9], 12, 0x8B44F7AF);
        c = md5_ff(c, d, a, b, x[10], 17, 0xFFFF5BB1);
        b = md5_ff(b, c, d, a, x[11], 22, 0x895CD7BE);
        a = md5_ff(a, b, c, d, x[12], 7, 0x6B901122);
        d = md5_ff(d, a, b, c, x[13], 12, 0xFD987193);
        c = md5_ff(c, d, a, b, x[14], 17, 0xA679438E);
        b = md5_ff(b, c, d, a, x[15], 22, 0x49B40821);
        a = md5_gg(a, b, c, d, x[1], 5, 0xF61E2562);
        d = md5_gg(d, a, b, c, x[6], 9, 0xC040B340);
        c = md5_gg(c, d, a, b, x[11], 14, 0x265E5A51);
        b = md5_gg(b, c, d, a, x[0], 20, 0xE9B6C7AA);
        a = md5_gg(a, b, c, d, x[5], 5, 0xD62F105D);
        d = md5_gg(d, a, b, c, x[10], 9, 0x02441453);
        c = md5_gg(c, d, a, b, x[15], 14, 0xD8A1E681);
        b = md5_gg(b, c, d, a, x[4], 20, 0xE7D3FBC8);
        a = md5_gg(a, b, c, d, x[9], 5, 0x21E1CDE6);
        d = md5_gg(d, a, b, c, x[14], 9, 0xC33707D6);
        c = md5_gg(c, d, a, b, x[3], 14, 0xF4D50D87);
        b = md5_gg(b, c, d, a, x[8], 20, 0x455A14ED);
        a = md5_gg(a, b, c, d, x[13], 5, 0xA9E3E905);
        d = md5_gg(d, a, b, c, x[2], 9, 0xFCEFA3F8);
        c = md5_gg(c, d, a, b, x[7], 14, 0x676F02D9);
        b = md5_gg(b, c, d, a, x[12], 20, 0x8D2A4C8A);
        a = md5_hh(a, b, c, d, x[5], 4, 0xFFFA3942);
        d = md5_hh(d, a, b, c, x[8], 11, 0x8771F681);
        c = md5_hh(c, d, a, b, x[11], 16, 0x6D9D6122);
        b = md5_hh(b, c, d, a, x[14], 23, 0xFDE5380C);
        a = md5_hh(a, b, c, d, x[1], 4, 0xA4BEEA44);
        d = md5_hh(d, a, b, c, x[4], 11, 0x4BDECFA9);
        c = md5_hh(c, d, a, b, x[7], 16, 0xF6BB4B60);
        b = md5_hh(b, c, d, a, x[10], 23, 0xBEBFBC70);
        a = md5_hh(a, b, c, d, x[13], 4, 0x289B7EC6);
        d = md5_hh(d, a, b, c, x[0], 11, 0xEAA127FA);
        c = md5_hh(c, d, a, b, x[3], 16, 0xD4EF3085);
        b = md5_hh(b, c, d, a, x[6], 23, 0x04881D05);
        a = md5_hh(a, b, c, d, x[9], 4, 0xD9D4D039);
        d = md5_hh(d, a, b, c, x[12], 11, 0xE6DB99E5);
        c = md5_hh(c, d, a, b, x[15], 16, 0x1FA27CF8);
        b = md5_hh(b, c, d, a, x[2], 23, 0xC4AC5665);
        a = md5_ii(a, b, c, d, x[0], 6, 0xF4292244);
        d = md5_ii(d, a, b, c, x[7], 10, 0x432AFF97);
        c = md5_ii(c, d, a, b, x[14], 15, 0xAB9423A7);
        b = md5_ii(b, c, d, a, x[5], 21, 0xFC93A039);
        a = md5_ii(a, b, c, d, x[12], 6, 0x655B59C3);
        d = md5_ii(d, a, b, c, x[3], 10, 0x8F0CCC92);
        c = md5_ii(c, d, a, b, x[10], 15, 0xFFEFF47D);
        b = md5_ii(b, c, d, a, x[1], 21, 0x85845DD1);
        a = md5_ii(a, b, c, d, x[8], 6, 0x6FA87E4F);
        d = md5_ii(d, a, b, c, x[15], 10, 0xFE2CE6E0);
        c = md5_ii(c, d, a, b, x[6], 15, 0xA3014314);
        b = md5_ii(b, c, d, a, x[13], 21, 0x4E0811A1);
        a = md5_ii(a, b, c, d, x[4], 6, 0xF7537E82);
        d = md5_ii(d, a, b, c, x[11], 10, 0xBD3AF235);
        c = md5_ii(c, d, a, b, x[2], 15, 0x2AD7D2BB);
        b = md5_ii(b, c, d, a, x[9], 21, 0xEB86D391);
        let s0: u32 = self.state[0].wrapping_add(a);
        let s1: u32 = self.state[1].wrapping_add(b);
        let s2: u32 = self.state[2].wrapping_add(c);
        let s3: u32 = self.state[3].wrapping_add(d);
        self.state.set(0, s0);
        self.state.set(1, s1);
        self.state.set(2, s2);
        self.state.set(3, s3);
        proof {
            assert(self.state@ =~= md5_transform_spec(st0, x@));
        }
    }

    /// Feed `data` into the digest, folding each 64-byte block as it
    /// completes.
    pub fn update(&mut self, data: &[u8])
        requires
            old(self).wf(),
        ensures
            final(self).wf(),
            final(self).fed@ == old(self).fed@ + data@,
    {
        let ghost m: int = 0x1_0000_0000_0000_0000;
        let ghost fl0: nat = self.fed@.len();
        let len: usize = data.len();
        let len64: u64 = len as u64;
        let bits_add: u64 = len64 << 3u64;
        proof {
            assert(bits_add as nat == (len64 as nat * 8) % 0x1_0000_0000_0000_0000) by (bit_vector)
                requires
                    bits_add == len64 << 3u64,
            ;
        }
        let old_count: u64 = self.count;
        self.count = self.count.wrapping_add(bits_add);
        proof {
            assert(self.count == (old_count + bits_add) % m) by {
                if old_count + bits_add <= u64::MAX {
                    lemma_small_mod((old_count + bits_add) as nat, m as nat);
                } else {
                    lemma_mod_sub_multiples_vanish((old_count + bits_add) as int, m);
                    lemma_small_mod((old_count + bits_add - m) as nat, m as nat);
                }
            };
            lemma_add_mod_noop((fl0 * 8) as int, (len as nat * 8) as int, m);
            assert(self.count == (((fl0 + len as nat) * 8) as int) % m);
        }

        let mut i: usize = 0;
        while i < len
            invariant
                i <= len,
                len == data@.len(),
                self.state@.len() == 4,
                self.fed@ == old(self).fed@ + data@.take(i as int),
                self.buffer@ == self.fed@.skip(self.blocks_len()),
                self.buffer@.len() == self.fed@.len() % 64,
                self.state@ == md5_fold(self.fed@.take(self.blocks_len())),
                self.count == ((fl0 + len as nat) * 8) % 0x1_0000_0000_0000_0000,
            decreases len - i,
        {
            let ghost fed0 = self.fed@;
            let ghost bl0: int = self.blocks_len();
            let ghost r0: nat = fed0.len() % 64;
            let b_in: u8 = data[i];
            self.buffer.push(b_in);
            proof {
                self.fed@ = fed0.push(b_in);
            }
            proof {
                assert(data@.take(i + 1) =~= data@.take(i as int).push(b_in));
                assert(self.fed@ =~= old(self).fed@ + data@.take(i + 1));
                // one more byte in the current block
                vstd::arithmetic::div_mod::lemma_add_mod_noop(fed0.len() as int, 1, 64);
                if r0 < 63 {
                    lemma_small_mod((r0 + 1) as nat, 64);
                    assert(self.fed@.len() % 64 == r0 + 1);
                    assert(self.blocks_len() == bl0);
                    assert(self.fed@.take(bl0) =~= fed0.take(bl0));
                    assert(self.fed@.skip(bl0) =~= fed0.skip(bl0).push(b_in));
                } else {
                    vstd::arithmetic::div_mod::lemma_mod_self_0(64);
                    assert(self.fed@.len() % 64 == 0);
                    assert(self.blocks_len() == self.fed@.len());
                    assert(self.fed@.len() - 64 == bl0);
                    assert(self.fed@.take(bl0) =~= fed0.take(bl0));
                    assert(self.fed@.skip(bl0) =~= fed0.skip(bl0).push(b_in));
                    assert(self.fed@.skip(bl0) =~= self.buffer@);
                }
            }
            if self.buffer.len() == 64 {
                let block = self.buffer.clone();
                self.buffer = Vec::new();
                self.transform(block.as_slice());
                proof {
                    let whole = self.fed@.take(self.fed@.len() as int);
                    assert(whole =~= self.fed@);
                    assert(whole.len() >= 64);
                    assert(whole.take(whole.len() - 64) =~= self.fed@.take(bl0));
                    assert(whole.skip(whole.len() - 64) =~= block@);
                    assert(self.state@ == md5_fold(self.fed@.take(self.blocks_len())));
                    assert(self.fed@.skip(self.blocks_len()) =~= Seq::<u8>::empty());
                }
            }
            i = i + 1;
        }
        proof {
            assert(data@.take(len as int) =~= data@);
            assert((fl0 + len as nat) == self.fed@.len());
        }
    }

    /// Finalize the digest: pad the fed bytes as MD5 prescribes, append the
    /// length in bits, and serialise the chaining state little-endian.
    pub fn finalize(&mut self) -> (r: Vec<u8>)
        requires
            old(self).wf(),
        ensures
            r@ == md5_digest(old(self).fed@),
            r@.len() == 16,
    {
        let ghost msg = self.fed@;
        let ghost fl0: nat = msg.len();
        let bits: u64 = self.count;
        let bits_bytes = u64_to_le_bytes(bits);

        let index: usize = self.buffer.len();
        let pad_len: usize = if index < 56 { 56 - index } else { 120 - index };
        let mut padding: Vec<u8> = Vec::new();
        padding.push(0x80);
        let mut i: usize = 1;
        while i < pad_len
            invariant
                1 <= i <= pad_len,
                padding@.len() == i,
                padding@[0] == 0x80,
                forall|j: int| 1 <= j < i ==> padding@[j] == 0,
            decreases pad_len - i,
        {
            padding.push(0);
            i = i + 1;
        }

        self.update(padding.as_slice());
        self.update(bits_bytes.as_slice());

        proof {
            assert(padding@ =~= seq![0x80u8] + Seq::new((pad_len - 1) as nat, |j: int| 0u8));
            assert(self.fed@ =~= md5_pad(msg));
            // the padded length is a whole number of blocks
            lemma_fundamental_div_mod(fl0 as int, 64);
            let q: int = fl0 as int / 64;
            assert(self.fed@.len() == fl0 + pad_len + 8);
            if index < 56 {
                assert(self.fed@.len() == 64 * q + 64);
            } else {
                assert(self.fed@.len() == 64 * q + 128);
            }
            assert(self.fed@.len() % 64 == 0) by {
                vstd::arithmetic::div_mod::lemma_mod_multiples_basic(q + 1, 64);
                vstd::arithmetic::div_mod::lemma_mod_multiples_basic(q + 2, 64);
                assert((q + 1) * 64 == 64 * q + 64);
                assert((q + 2) * 64 == 64 * q + 128);
            };
            assert(self.blocks_len() == self.fed@.len());
            assert(self.fed@.take(self.blocks_len()) =~= self.fed@);
            assert(self.state@ == md5_fold(md5_pad(msg)));
        }

        let mut digest: Vec<u8> = Vec::new();
        let mut w0 = u32_to_le_bytes(self.state[0]);
        digest.append(&mut w0);
        let mut w1 = u32_to_le_bytes(self.state[1]);
        digest.append(&mut w1);
        let mut w2 = u32_to_le_bytes(self.state[2]);
        digest.append(&mut w2);
        let mut w3 = u32_to_le_bytes(self.state[3]);
        digest.append(&mut w3);
        proof {
            assert(digest@ =~= md5_digest(msg));
        }
        digest
    }
}

/// Compute the MD5 checksum of interleaved audio samples, taken as
/// little-endian two-byte values, as the FLAC streaminfo requires.
#[verifier::rlimit(60)]
pub fn compute_md5(samples: &[i16]) -> (r: Vec<u8>)
    ensures
        r@ == md5_digest(samples_le_bytes(samples@)),
        r@.len() == 16,
{
    let mut ctx = MD5Context::new();
    let mut i: usize = 0;
    proof {
        assert(samples_le_bytes(samples@.take(0)) =~= Seq::<u8>::empty());
        assert(ctx.fed@ =~= samples_le_bytes(samples@.take(0)));
    }
    while i < samples.len()
        invariant
            i <= samples@.len(),
            ctx.wf(),
            ctx.fed@ == samples_le_bytes(samples@.take(i as int)),
        decreases samples@.len() - i,
    {
        let sample: i16 = samples[i];
        let bytes = u16_to_le_bytes(sample as u16);
        ctx.update(bytes.as_slice());
        proof {
            assert(samples@.take(i + 1).drop_last() =~= samples@.take(i as int));
            assert(samples@.take(i + 1).last() == samples@[i as int]);
            assert(ctx.fed@ =~= samples_le_bytes(samples@.take(i + 1)));
        }
        i = i + 1;
    }
    proof {
        assert(samples@.take(samples@.len() as int) =~= samples@);
    }
    ctx.finalize()
}

} // verus!
