//! Rendering of bytes and numbers as text: hexadecimal digits, two per byte,
//! and unsigned decimal numbers.
use vstd::prelude::*;
use vstd::string::StringExecFns;

verus! {

/// The lowercase hexadecimal digit of a value below 16.
pub open spec fn hex_digit(n: int) -> char {
    if n == 0 {
        '0'
    } else if n == 1 {
        '1'
    } else if n == 2 {
        '2'
    } else if n == 3 {
        '3'
    } else if n == 4 {
        '4'
    } else if n == 5 {
        '5'
    } else if n == 6 {
        '6'
    } else if n == 7 {
        '7'
    } else if n == 8 {
        '8'
    } else if n == 9 {
        '9'
    } else if n == 10 {
        'a'
    } else if n == 11 {
        'b'
    } else if n == 12 {
        'c'
    } else if n == 13 {
        'd'
    } else if n == 14 {
        'e'
    } else {
        'f'
    }
}

/// The uppercase hexadecimal digit of a value below 16.
pub open spec fn hex_digit_upper(n: int) -> char {
    if n == 0 {
        '0'
    } else if n == 1 {
        '1'
    } else if n == 2 {
        '2'
    } else if n == 3 {
        '3'
    } else if n == 4 {
        '4'
    } else if n == 5 {
        '5'
    } else if n == 6 {
        '6'
    } else if n == 7 {
        '7'
    } else if n == 8 {
        '8'
    } else if n == 9 {
        '9'
    } else if n == 10 {
        'A'
    } else if n == 11 {
        'B'
    } else if n == 12 {
        'C'
    } else if n == 13 {
        'D'
    } else if n == 14 {
        'E'
    } else {
        'F'
    }
}

/// The digit of `n` in the chosen case.
pub open spec fn digit_in_case(n: int, upper: bool) -> char {
    if upper {
        hex_digit_upper(n)
    } else {
        hex_digit(n)
    }
}

/// Two hexadecimal digits per byte, most significant first.
pub open spec fn hex_of(bytes: Seq<u8>, upper: bool) -> Seq<char>
    decreases bytes.len(),
{
    if bytes.len() == 0 {
        Seq::empty()
    } else {
        let b = bytes.last();
        hex_of(bytes.drop_last(), upper) + seq![digit_in_case(b as int / 16, upper), digit_in_case(b as int % 16, upper)]
    }
}

/// The decimal digits of `n`, without leading zeros.
pub open spec fn decimal_of(n: nat) -> Seq<char>
    decreases n,
{
    if n < 10 {
        seq![hex_digit(n as int)]
    } else {
        decimal_of(n / 10) + seq![hex_digit((n % 10) as int)]
    }
}

fn lower_digit(n: u8) -> (r: &'static str)
    requires
        n < 16,
    ensures
        r@ == seq![hex_digit(n as int)],
{
    match n {
        0 => {
            proof { reveal_strlit("0"); }
            "0"
        },
        1 => {
            proof { reveal_strlit("1"); }
            "1"
        },
        2 => {
            proof { reveal_strlit("2"); }
            "2"
        },
        3 => {
            proof { reveal_strlit("3"); }
            "3"
        },
        4 => {
            proof { reveal_strlit("4"); }
            "4"
        },
        5 => {
            proof { reveal_strlit("5"); }
            "5"
        },
        6 => {
            proof { reveal_strlit("6"); }
            "6"
        },
        7 => {
            proof { reveal_strlit("7"); }
            "7"
        },
        8 => {
            proof { reveal_strlit("8"); }
            "8"
        },
        9 => {
            proof { reveal_strlit("9"); }
            "9"
        },
        10 => {
            proof { reveal_strlit("a"); }
            "a"
        },
        11 => {
            proof { reveal_strlit("b"); }
            "b"
        },
        12 => {
            proof { reveal_strlit("c"); }
            "c"
        },
        13 => {
            proof { reveal_strlit("d"); }
            "d"
        },
        14 => {
            proof { reveal_strlit("e"); }
            "e"
        },
        15 => {
            proof { reveal_strlit("f"); }
            "f"
        },
        _ => {
            proof { reveal_strlit("f"); }
            "f"
        },
    }
}

fn upper_digit(n: u8) -> (r: &'static str)
    requires
        n < 16,
    ensures
        r@ == seq![hex_digit_upper(n as int)],
{
    match n {
        0 => {
            proof { reveal_strlit("0"); }
            "0"
        },
        1 => {
            proof { reveal_strlit("1"); }
            "1"
        },
        2 => {
            proof { reveal_strlit("2"); }
            "2"
        },
        3 => {
            proof { reveal_strlit("3"); }
            "3"
        },
        4 => {
            proof { reveal_strlit("4"); }
            "4"
        },
        5 => {
            proof { reveal_strlit("5"); }
            "5"
        },
        6 => {
            proof { reveal_strlit("6"); }
            "6"
        },
        7 => {
            proof { reveal_strlit("7"); }
            "7"
        },
        8 => {
            proof { reveal_strlit("8"); }
            "8"
        },
        9 => {
            proof { reveal_strlit("9"); }
            "9"
        },
        10 => {
            proof { reveal_strlit("A"); }
            "A"
        },
        11 => {
            proof { reveal_strlit("B"); }
            "B"
        },
        12 => {
            proof { reveal_strlit("C"); }
            "C"
        },
        13 => {
            proof { reveal_strlit("D"); }
            "D"
        },
        14 => {
            proof { reveal_strlit("E"); }
            "E"
        },
        15 => {
            proof { reveal_strlit("F"); }
            "F"
        },
        _ => {
            proof { reveal_strlit("F"); }
            "F"
        },
    }
}

fn digit(n: u8, upper: bool) -> (r: &'static str)
    requires
        n < 16,
    ensures
        r@ == seq![digit_in_case(n as int, upper)],
{
    if upper {
        upper_digit(n)
    } else {
        lower_digit(n)
    }
}

/// Appends two hexadecimal digits per byte of `bytes` to `out`.
pub fn push_hex(out: &mut String, bytes: &[u8], upper: bool)
    ensures
        final(out)@ == old(out)@ + hex_of(bytes@, upper),
{
    let ghost start = out@;
    let mut i: usize = 0;
    while i < bytes.len()
        invariant
            i <= bytes@.len(),
            out@ == start + hex_of(bytes@.take(i as int), upper),
        decreases bytes@.len() - i,
    {
        let b = bytes[i];
        out.append(digit(b / 16, upper));
        out.append(digit(b % 16, upper));
        proof {
            assert(bytes@.take(i + 1).drop_last() == bytes@.take(i as int));
        }
        i += 1;
    }
    assert(bytes@.take(i as int) == bytes@);
}

/// Appends the decimal digits of `n` to `out`.
pub fn push_decimal(out: &mut String, n: u64)
    ensures
        final(out)@ == old(out)@ + decimal_of(n as nat),
    decreases n,
{
    if n >= 10 {
        push_decimal(out, n / 10);
    }
    out.append(lower_digit((n % 10) as u8));
    proof {
        if n >= 10 {
            assert(old(out)@ + decimal_of(n as nat) == old(out)@ + decimal_of((n / 10) as nat) + seq![hex_digit((n % 10) as int)]);
        }
    }
}

} // verus!
