//! CRC-8 and CRC-16 checksums over raw byte runs of a FLAC stream.
//!
//! CRC-8 uses the polynomial 0x07, CRC-16 the polynomial 0x8005; both run
//! most significant bit first with initial value zero. The specification is
//! the bitwise shift-register fold; the executable code uses lookup tables
//! proved equal to it entry by entry.

use vstd::prelude::*;

verus! {

/// One shift-register step of the CRC-8 polynomial 0x07.
pub open spec fn crc8_shift_once(crc: u8) -> u8 {
    if crc & 0x80 != 0 {
        (crc << 1) ^ 0x07
    } else {
        crc << 1
    }
}

/// `rounds` shift-register steps of the CRC-8 polynomial.
pub open spec fn crc8_shift(crc: u8, rounds: nat) -> u8
    decreases rounds,
{
    if rounds == 0 {
        crc
    } else {
        crc8_shift_once(crc8_shift(crc, (rounds - 1) as nat))
    }
}

/// The CRC-8 lookup table entry for byte `i`: eight register steps.
pub open spec fn crc8_table_entry(i: u8) -> u8 {
    crc8_shift(i, 8)
}

/// Folding one byte into a running CRC-8.
pub open spec fn crc8_update(crc: u8, byte: u8) -> u8 {
    crc8_table_entry(crc ^ byte)
}

/// CRC-8 of `data` continued from the running value `crc`.
pub open spec fn crc8_of_from(crc: u8, data: Seq<u8>) -> u8
    decreases data.len(),
{
    if data.len() == 0 {
        crc
    } else {
        crc8_of_from(crc8_update(crc, data.first()), data.drop_first())
    }
}

/// CRC-8 of a byte run, initial value zero.
pub open spec fn crc8_of(data: Seq<u8>) -> u8 {
    crc8_of_from(0, data)
}

/// One shift-register step of the CRC-16 polynomial 0x8005.
pub open spec fn crc16_shift_once(crc: u16) -> u16 {
    if crc & 0x8000 != 0 {
        (crc << 1) ^ 0x8005
    } else {
        crc << 1
    }
}

/// `rounds` shift-register steps of the CRC-16 polynomial.
pub open spec fn crc16_shift(crc: u16, rounds: nat) -> u16
    decreases rounds,
{
    if rounds == 0 {
        crc
    } else {
        crc16_shift_once(crc16_shift(crc, (rounds - 1) as nat))
    }
}

/// The CRC-16 lookup table entry for byte `val`.
pub open spec fn crc16_entry(val: u8) -> u16 {
    crc16_shift((val as u16) << 8, 8)
}

/// Folding one byte into a running CRC-16.
pub open spec fn crc16_update(crc: u16, byte: u8) -> u16 {
    (crc << 8) ^ crc16_entry(((crc >> 8) ^ byte as u16) as u8)
}

/// CRC-16 of `data` continued from the running value `crc`.
pub open spec fn crc16_of_from(crc: u16, data: Seq<u8>) -> u16
    decreases data.len(),
{
    if data.len() == 0 {
        crc
    } else {
        crc16_of_from(crc16_update(crc, data.first()), data.drop_first())
    }
}

/// CRC-16 of a byte run, initial value zero.
pub open spec fn crc16_of(data: Seq<u8>) -> u16 {
    crc16_of_from(0, data)
}

/// Folding bytes one at a time from the left: appending a byte to the run
/// updates the running CRC-8 by one table step.
pub proof fn lemma_crc8_of_from_push(crc: u8, s: Seq<u8>, b: u8)
    ensures
        crc8_of_from(crc, s.push(b)) == crc8_update(crc8_of_from(crc, s), b),
    decreases s.len(),
{
    if s.len() == 0 {
        assert(s.push(b).drop_first() =~= s);
        assert(crc8_of_from(crc8_update(crc, b), s) == crc8_update(crc, b));
    } else {
        assert(s.push(b).first() == s.first());
        assert(s.push(b).drop_first() =~= s.drop_first().push(b));
        lemma_crc8_of_from_push(crc8_update(crc, s.first()), s.drop_first(), b);
    }
}

/// The same fold step for CRC-16.
pub proof fn lemma_crc16_of_from_push(crc: u16, s: Seq<u8>, b: u8)
    ensures
        crc16_of_from(crc, s.push(b)) == crc16_update(crc16_of_from(crc, s), b),
    decreases s.len(),
{
    if s.len() == 0 {
        assert(s.push(b).drop_first() =~= s);
        assert(crc16_of_from(crc16_update(crc, b), s) == crc16_update(crc, b));
    } else {
        assert(s.push(b).first() == s.first());
        assert(s.push(b).drop_first() =~= s.drop_first().push(b));
        lemma_crc16_of_from_push(crc16_update(crc, s.first()), s.drop_first(), b);
    }
}

/// Build the CRC-8 lookup table: entry `i` holds eight register steps of the
/// byte `i`.
pub fn build_crc8_table() -> (r: Vec<u8>)
    ensures
        r@.len() == 256,
        forall|i: int| 0 <= i < 256 ==> r@[i] == crc8_table_entry(i as u8),
{
    let mut table: Vec<u8> = Vec::new();
    let mut i: usize = 0;
    while i < 256
        invariant
            i <= 256,
            table@.len() == i,
            forall|j: int| 0 <= j < i ==> table@[j] == crc8_table_entry(j as u8),
        decreases 256 - i,
    {
        let mut crc: u8 = i as u8;
        let mut round: usize = 0;
        while round < 8
            invariant
                round <= 8,
                crc == crc8_shift(i as u8, round as nat),
            decreases 8 - round,
        {
            if crc & 0x80 != 0 {
                crc = (crc << 1u8) ^ 0x07;
            } else {
                crc = crc << 1u8;
            }
            round = round + 1;
        }
        table.push(crc);
        i = i + 1;
    }
    table
}

/// Compute the CRC-8 checksum of `data` with the FLAC polynomial 0x07.
pub fn crc8(data: &[u8]) -> (r: u8)
    ensures
        r == crc8_of(data@),
{
    let table = build_crc8_table();
    let mut crc: u8 = 0;
    let mut i: usize = 0;
    proof {
        assert(data@.take(0) =~= Seq::<u8>::empty());
    }
    while i < data.len()
        invariant
            i <= data@.len(),
            table@.len() == 256,
            forall|j: int| 0 <= j < 256 ==> table@[j] == crc8_table_entry(j as u8),
            crc == crc8_of_from(0, data@.take(i as int)),
        decreases data@.len() - i,
    {
        let byte = data[i];
        crc = table[(crc ^ byte) as usize];
        proof {
            lemma_crc8_of_from_push(0, data@.take(i as int), byte);
            assert(data@.take(i + 1) =~= data@.take(i as int).push(byte));
        }
        i = i + 1;
    }
    proof {
        assert(data@.take(data@.len() as int) =~= data@);
    }
    crc
}

/// Compute one CRC-16 lookup-table entry for the byte `val`.
pub fn crc16_table(val: u8) -> (r: u16)
    ensures
        r == crc16_entry(val),
{
    let mut crc: u16 = (val as u16) << 8u16;
    let mut round: usize = 0;
    while round < 8
        invariant
            round <= 8,
            crc == crc16_shift((val as u16) << 8u16, round as nat),
        decreases 8 - round,
    {
        if crc & 0x8000 != 0 {
            crc = (crc << 1u16) ^ 0x8005;
        } else {
            crc = crc << 1u16;
        }
        round = round + 1;
    }
    crc
}

/// Compute the CRC-16 checksum of `data` with the FLAC polynomial 0x8005.
pub fn crc16(data: &[u8]) -> (r: u16)
    ensures
        r == crc16_of(data@),
{
    let mut crc: u16 = 0;
    let mut i: usize = 0;
    proof {
        assert(data@.take(0) =~= Seq::<u8>::empty());
    }
    while i < data.len()
        invariant
            i <= data@.len(),
            crc == crc16_of_from(0, data@.take(i as int)),
        decreases data@.len() - i,
    {
        let byte = data[i];
        let entry = crc16_table(((crc >> 8u16) ^ byte as u16) as u8);
        crc = (crc << 8u16) ^ entry;
        proof {
            lemma_crc16_of_from_push(0, data@.take(i as int), byte);
            assert(data@.take(i + 1) =~= data@.take(i as int).push(byte));
        }
        i = i + 1;
    }
    proof {
        assert(data@.take(data@.len() as int) =~= data@);
    }
    crc
}

} // verus!
