//! Mode-C / Mode-S altitude codes: the 13-bit AC field and the 12-bit field of
//! airborne position messages, in Gillham (gray) code or 25-foot Q-bit steps.
use vstd::prelude::*;

verus! {

/// The word that a set bit contributes to an XOR fold: `word` when any bit of
/// `mask` is set in `code`, else zero.
pub open spec fn fold_word(code: u32, mask: u32, word: u32) -> u32 {
    if code & mask != 0 {
        word
    } else {
        0
    }
}

/// The 25-foot step count of a Q-bit code: bits [12:7], bit 5 and bits [3:0]
/// joined into eleven bits.
pub open spec fn q_count(ac13: u32) -> u32 {
    ((ac13 & 0x1F80) >> 2) | ((ac13 & 0x0020) >> 1) | (ac13 & 0x000F)
}

/// The hundreds group of a Gillham code, folded from C1, C2 and C4, before it
/// is reflected by the parity of the five-hundreds index.
pub open spec fn gillham_hundreds(ac13: u32) -> u32 {
    let h = fold_word(ac13, 0x1000, 7) ^ fold_word(ac13, 0x0400, 3) ^ fold_word(ac13, 0x0100, 1);
    if h & 5 != 0 {
        h ^ 5
    } else {
        h
    }
}

/// The five-hundreds index of a Gillham code, folded from D1, D2, D4, A1, A2,
/// A4, B1, B2 and B4.
pub open spec fn gillham_fives(ac13: u32) -> u32 {
    fold_word(ac13, 0x0010, 0x1ff) ^ fold_word(ac13, 0x0004, 0x0ff) ^ fold_word(ac13, 0x0001, 0x07f)
        ^ fold_word(ac13, 0x0800, 0x03f) ^ fold_word(ac13, 0x0200, 0x01f) ^ fold_word(
        ac13,
        0x0080,
        0x00f,
    ) ^ fold_word(ac13, 0x0020, 0x007) ^ fold_word(ac13, 0x0008, 0x003) ^ fold_word(
        ac13,
        0x0002,
        0x001,
    )
}

/// The altitude in feet that a 13-bit AC code stands for, or none for a zero
/// code, a metric code (M bit set), an illegal Gillham code, or an altitude
/// below -1200 feet.
pub open spec fn ac13_feet(ac13: u32) -> Option<int> {
    if ac13 == 0 || ac13 & 0x0040 != 0 {
        None
    } else if ac13 & 0x0010 != 0 {
        Some(q_count(ac13) * 25 - 1000)
    } else if ac13 & 0x1500 == 0 {
        None
    } else if gillham_hundreds(ac13) > 5 {
        None
    } else {
        let f = gillham_fives(ac13);
        let h = if f & 1 != 0 {
            6 - gillham_hundreds(ac13)
        } else {
            gillham_hundreds(ac13) as int
        };
        let a = 500 * f + 100 * h - 1300;
        if a < -1200 {
            None
        } else {
            Some(a)
        }
    }
}

/// The 13-bit form of a 12-bit altitude code: bits [11:6] move up one place
/// (making room for the M bit) and bits [5:0] stay.
pub open spec fn ac12_as_ac13(ac12: u32) -> u32 {
    ((ac12 & 0x0fc0) << 1) | (ac12 & 0x003f)
}

proof fn lemma_xor_below_512(a: u32, b: u32)
    requires
        a < 512,
        b < 512,
    ensures
        a ^ b < 512,
{
    assert(a < 512 && b < 512 ==> a ^ b < 512) by (bit_vector);
}

fn fold(code: u32, mask: u32, word: u32) -> (r: u32)
    ensures
        r == fold_word(code, mask, word),
{
    if code & mask != 0 {
        word
    } else {
        0
    }
}

/// Decodes a 13-bit AC altitude code into feet.
pub fn decode_ac13(ac13: u32) -> (r: Option<i32>)
    ensures
        r == decode_ac13_result(ac13),
        r is Some ==> ac13_feet(ac13) == Some(r.unwrap() as int),
        ac13 == 0 ==> r is None,
        ac13 & 0x0040 != 0 ==> r is None,
{
    if ac13 == 0 || (ac13 & 0x0040) != 0 {
        return None;
    }
    if (ac13 & 0x0010) != 0 {
        let n = ((ac13 & 0x1F80) >> 2) | ((ac13 & 0x0020) >> 1) | (ac13 & 0x000F);
        assert(((ac13 & 0x1F80) >> 2) | ((ac13 & 0x0020) >> 1) | (ac13 & 0x000F) < 0x800)
            by (bit_vector);
        return Some((n as i32) * 25 - 1000);
    }
    if (ac13 & 0x1500) == 0 {
        return None;
    }
    let mut h = fold(ac13, 0x1000, 7) ^ fold(ac13, 0x0400, 3) ^ fold(ac13, 0x0100, 1);
    if h & 5 != 0 {
        h = h ^ 5;
    }
    if h > 5 {
        return None;
    }
    let mut f = fold(ac13, 0x0010, 0x1ff);
    let w = fold(ac13, 0x0004, 0x0ff);
    proof { lemma_xor_below_512(f, w); }
    f = f ^ w;
    let w = fold(ac13, 0x0001, 0x07f);
    proof { lemma_xor_below_512(f, w); }
    f = f ^ w;
    let w = fold(ac13, 0x0800, 0x03f);
    proof { lemma_xor_below_512(f, w); }
    f = f ^ w;
    let w = fold(ac13, 0x0200, 0x01f);
    proof { lemma_xor_below_512(f, w); }
    f = f ^ w;
    let w = fold(ac13, 0x0080, 0x00f);
    proof { lemma_xor_below_512(f, w); }
    f = f ^ w;
    let w = fold(ac13, 0x0020, 0x007);
    proof { lemma_xor_below_512(f, w); }
    f = f ^ w;
    let w = fold(ac13, 0x0008, 0x003);
    proof { lemma_xor_below_512(f, w); }
    f = f ^ w;
    let w = fold(ac13, 0x0002, 0x001);
    proof { lemma_xor_below_512(f, w); }
    f = f ^ w;
    if f & 1 != 0 {
        h = 6 - h;
    }
    let a: i32 = 500 * (f as i32) + 100 * (h as i32) - 1300;
    if a < -1200 {
        return None;
    }
    Some(a)
}

/// Decodes a 12-bit altitude code (as carried in airborne position messages)
/// into feet, through its 13-bit form.
pub fn decode_ac12(ac12: u32) -> (r: Option<i32>)
    ensures
        r == decode_ac13_result(ac12_as_ac13(ac12)),
{
    let ac13 = ((ac12 & 0x0fc0) << 1) | (ac12 & 0x003f);
    decode_ac13(ac13)
}

/// What `decode_ac13` returns for a code.
pub open spec fn decode_ac13_result(ac13: u32) -> Option<i32> {
    match ac13_feet(ac13) {
        Some(a) => Some(a as i32),
        None => None,
    }
}

} // verus!
