//! Mode-S parity: the residual of a frame's data bits over the fixed parity
//! table, and the 24-bit checksum a frame carries in its last three bytes.
use vstd::prelude::*;

verus! {

/// The Mode-S CRC generator polynomial that the parity table is built from.
pub const MODES_GENERATOR_POLY: u32 = 0x1FFF409;

/// Bits in a long Mode-S frame.
pub const LONG_MSG_BITS: u8 = 112;

/// Bits in a short Mode-S frame.
pub const SHORT_MSG_BITS: u8 = 56;

/// One word per bit of a long (112-bit) frame: the parity contribution of that
/// bit when it is set. A short (56-bit) frame uses the last 56 words. The last
/// 24 words are zero, so the checksum bits themselves never contribute.
pub const PARITY_TABLE: [u32; 112] = [
    0x3935ea, 0x1c9af5, 0xf1b77e, 0x78dbbf, 0xc397db, 0x9e31e9, 0xb0e2f0, 0x587178,
    0x2c38bc, 0x161c5e, 0x0b0e2f, 0xfa7d13, 0x82c48d, 0xbe9842, 0x5f4c21, 0xd05c14,
    0x682e0a, 0x341705, 0xe5f186, 0x72f8c3, 0xc68665, 0x9cb936, 0x4e5c9b, 0xd8d449,
    0x939020, 0x49c810, 0x24e408, 0x127204, 0x093902, 0x049c81, 0xfdb444, 0x7eda22,
    0x3f6d11, 0xe04c8c, 0x702646, 0x381323, 0xe3f395, 0x8e03ce, 0x4701e7, 0xdc7af7,
    0x91c77f, 0xb719bb, 0xa476d9, 0xadc168, 0x56e0b4, 0x2b705a, 0x15b82d, 0xf52612,
    0x7a9309, 0xc2b380, 0x6159c0, 0x30ace0, 0x185670, 0x0c2b38, 0x06159c, 0x030ace,
    0x018567, 0xff38b7, 0x80665f, 0xbfc92b, 0xa01e91, 0xaff54c, 0x57faa6, 0x2bfd53,
    0xea04ad, 0x8af852, 0x457c29, 0xdd4410, 0x6ea208, 0x375104, 0x1ba882, 0x0dd441,
    0xf91024, 0x7c8812, 0x3e4409, 0xe0d800, 0x706c00, 0x383600, 0x1c1b00, 0x0e0d80,
    0x0706c0, 0x038360, 0x01c1b0, 0x00e0d8, 0x00706c, 0x003836, 0x001c1b, 0xfff409,
    0x000000, 0x000000, 0x000000, 0x000000, 0x000000, 0x000000, 0x000000, 0x000000,
    0x000000, 0x000000, 0x000000, 0x000000, 0x000000, 0x000000, 0x000000, 0x000000,
    0x000000, 0x000000, 0x000000, 0x000000, 0x000000, 0x000000, 0x000000, 0x000000,
];

/// Bit `j` of `data`, counting from the most significant bit of the first
/// byte; a position past the end reads as clear.
pub open spec fn data_bit(data: Seq<u8>, j: int) -> bool {
    0 <= j && j / 8 < data.len() && data[j / 8] & (1u8 << ((7 - j % 8) as u8)) != 0
}

/// XOR of the table words, shifted by `offset`, of the set bits among the
/// first `n` bits of `data`.
pub open spec fn parity_over(data: Seq<u8>, n: nat, offset: nat) -> u32
    decreases n,
{
    if n == 0 {
        0
    } else {
        let acc = parity_over(data, (n - 1) as nat, offset);
        if data_bit(data, n - 1) {
            acc ^ PARITY_TABLE@[n - 1 + offset]
        } else {
            acc
        }
    }
}

/// How many bits a checksum covers: the given count, or else 56 for a 7-byte
/// frame and 112 for a 14-byte one; no count for any other length.
pub open spec fn message_bits(data: Seq<u8>, bits: Option<u8>) -> Option<nat> {
    match bits {
        Some(b) => Some(b as nat),
        None => if data.len() == 7 {
            Some(56)
        } else if data.len() == 14 {
            Some(112)
        } else {
            None
        },
    }
}

/// Where a frame of `bits` bits starts in the table.
pub open spec fn parity_offset(bits: nat) -> nat {
    if bits == 112 {
        0
    } else {
        56
    }
}

/// A bit count that stays inside the table.
pub open spec fn bits_in_table(bits: Option<u8>) -> bool {
    match bits {
        Some(b) => b == 112 || b <= 56,
        None => true,
    }
}

/// The parity residual of `data`: zero where no bit count applies.
pub open spec fn checksum_of(data: Seq<u8>, bits: Option<u8>) -> u32 {
    match message_bits(data, bits) {
        Some(n) => parity_over(data, n, parity_offset(n)),
        None => 0,
    }
}

/// The frame length, in bytes, that the transmitted checksum ends at.
pub open spec fn crc_bytes(len: nat, bits: Option<usize>) -> nat {
    match bits {
        Some(b) => (b / 8) as nat,
        None => len,
    }
}

/// The big-endian 24-bit value of the three bytes that end at `bytes`; zero
/// when fewer than three bytes are covered.
pub open spec fn transmitted_crc(data: Seq<u8>, bytes: nat) -> u32 {
    if bytes < 3 {
        0
    } else {
        ((data[bytes - 3] as u32) << 16) | ((data[bytes - 2] as u32) << 8) | (data[bytes - 1] as u32)
    }
}

/// The transmitted checksum agrees with the computed one.
pub open spec fn checksum_matches(data: Seq<u8>, bits: Option<u8>) -> bool {
    match message_bits(data, bits) {
        Some(n) => transmitted_crc(data, n / 8) == checksum_of(data, bits),
        None => false,
    }
}

/// The parity residual of a frame's data bits.
pub fn checksum(data: &[u8], bits: Option<u8>) -> (r: u32)
    requires
        bits_in_table(bits),
    ensures
        r == checksum_of(data@, bits),
{
    let nbits: usize = match bits {
        Some(b) => b as usize,
        None => {
            if data.len() == 7 {
                56
            } else if data.len() == 14 {
                112
            } else {
                return 0;
            }
        },
    };
    let offset: usize = if nbits == 112 {
        0
    } else {
        56
    };
    let mut crc: u32 = 0;
    let mut j: usize = 0;
    while j < nbits
        invariant
            j <= nbits,
            nbits + offset <= 112,
            message_bits(data@, bits) == Some(nbits as nat),
            offset == parity_offset(nbits as nat),
            crc == parity_over(data@, j as nat, offset as nat),
        decreases nbits - j,
    {
        let b: usize = j / 8;
        let bit: usize = j % 8;
        let mask: u8 = 1u8 << ((7 - bit) as u8);
        if b < data.len() && data[b] & mask != 0 {
            crc = crc ^ PARITY_TABLE[j + offset];
        }
        j += 1;
    }
    crc
}

/// The checksum a frame carries: the big-endian value of the three bytes that
/// end at `bits / 8` (or at the end of `data` when no count is given); zero
/// when that covers fewer than three bytes.
pub fn modescrc_buffer_crc(data: &[u8], bits: Option<usize>) -> (r: u32)
    requires
        crc_bytes(data@.len(), bits) < 3 || crc_bytes(data@.len(), bits) <= data@.len(),
    ensures
        r == transmitted_crc(data@, crc_bytes(data@.len(), bits)),
{
    let bytes: usize = match bits {
        Some(b) => b / 8,
        None => data.len(),
    };
    if bytes < 3 {
        return 0;
    }
    ((data[bytes - 3] as u32) << 16) | ((data[bytes - 2] as u32) << 8) | (data[bytes - 1] as u32)
}

/// Whether the checksum a frame carries equals the parity residual of its data
/// bits; false when no bit count applies.
pub fn checksum_compare(data: &[u8], bits: Option<u8>) -> (r: bool)
    requires
        bits_in_table(bits),
        match bits {
            Some(b) => b / 8 < 3 || b / 8 <= data@.len(),
            None => true,
        },
    ensures
        r == checksum_matches(data@, bits),
{
    let nbits: usize = match bits {
        Some(b) => b as usize,
        None => {
            if data.len() == 7 {
                56
            } else if data.len() == 14 {
                112
            } else {
                return false;
            }
        },
    };
    let received = modescrc_buffer_crc(data, Some(nbits));
    let expected = checksum(data, bits);
    received == expected
}

proof fn lemma_table_words()
    ensures
        forall|i: int| 0 <= i < 112 ==> PARITY_TABLE@[i] < 0x100_0000,
        forall|i: int| 88 <= i < 112 ==> PARITY_TABLE@[i] == 0,
{
}

proof fn lemma_parity_below_24_bits(data: Seq<u8>, n: nat, offset: nat)
    requires
        n + offset <= 112,
    ensures
        parity_over(data, n, offset) < 0x100_0000,
    decreases n,
{
    if n > 0 {
        lemma_table_words();
        lemma_parity_below_24_bits(data, (n - 1) as nat, offset);
        let acc = parity_over(data, (n - 1) as nat, offset);
        let w = PARITY_TABLE@[n - 1 + offset];
        assert(acc < 0x100_0000 && w < 0x100_0000 ==> acc ^ w < 0x100_0000) by (bit_vector);
    }
}

/// The residual only reads the bits that meet non-zero table words: two frames
/// that agree on all but their last 24 bits have the same residual.
proof fn lemma_parity_ignores_tail(a: Seq<u8>, b: Seq<u8>, n: nat, offset: nat, total: nat)
    requires
        n <= total,
        total + offset == 112,
        a.len() == b.len(),
        total == 8 * a.len(),
        a.subrange(0, a.len() - 3) == b.subrange(0, b.len() - 3),
    ensures
        parity_over(a, n, offset) == parity_over(b, n, offset),
    decreases n,
{
    if n > 0 {
        lemma_parity_ignores_tail(a, b, (n - 1) as nat, offset, total);
        let k = n - 1;
        if k < total - 24 {
            assert(k / 8 < a.len() - 3);
            assert(a[k / 8] == a.subrange(0, a.len() - 3)[k / 8]);
            assert(b[k / 8] == b.subrange(0, b.len() - 3)[k / 8]);
        } else {
            lemma_table_words();
            let acc = parity_over(a, k as nat, offset);
            assert(acc ^ 0 == acc) by (bit_vector);
        }
    }
}

/// A 7- or 14-byte frame whose last three bytes carry, big-endian, the parity
/// residual of its data bits passes the checksum comparison. `data` is the
/// frame before those bytes were filled in: the residual does not read them.
pub proof fn lemma_checksum_of_framed(data: Seq<u8>, frame: Seq<u8>)
    requires
        data.len() == 7 || data.len() == 14,
        frame.len() == data.len(),
        frame.subrange(0, frame.len() - 3) == data.subrange(0, data.len() - 3),
        frame[frame.len() - 3] == (checksum_of(data, None) >> 16) as u8,
        frame[frame.len() - 2] == (checksum_of(data, None) >> 8) as u8,
        frame[frame.len() - 1] == checksum_of(data, None) as u8,
    ensures
        checksum_matches(frame, None),
{
    let n: nat = if data.len() == 7 { 56 } else { 112 };
    let offset = parity_offset(n);
    lemma_parity_ignores_tail(frame, data, n, offset, n);
    lemma_parity_below_24_bits(data, n, offset);
    let c = checksum_of(data, None);
    assert(c == checksum_of(frame, None));
    assert(c < 0x100_0000 ==> ((((c >> 16) as u8) as u32) << 16) | ((((c >> 8) as u8) as u32) << 8)
        | ((c as u8) as u32) == c) by (bit_vector);
}

} // verus!
