//! Fixed-width octal field encoding: an unsigned integer rendered as exactly
//! `width` octal digits, left-padded with `'0'`. Callers pick a width large
//! enough for the value; the encoder itself performs no bounds checking.

use vstd::prelude::*;
use vstd::string::StringExecFns;

verus! {

/// The ASCII byte for the octal digit `d % 8`.
pub open spec fn oct_digit(d: nat) -> u8 {
    (48 + d % 8) as u8
}

/// The octal digit `d % 8` as a character.
pub open spec fn oct_digit_char(d: nat) -> char {
    let r = d % 8;
    if r == 0 {
        '0'
    } else if r == 1 {
        '1'
    } else if r == 2 {
        '2'
    } else if r == 3 {
        '3'
    } else if r == 4 {
        '4'
    } else if r == 5 {
        '5'
    } else if r == 6 {
        '6'
    } else {
        '7'
    }
}

/// The low `width` octal digits of `n`, most significant first, as ASCII
/// bytes. When `n < 8^width` this is `n` in octal, left-padded with `'0'`.
pub open spec fn octal_seq(n: nat, width: nat) -> Seq<u8>
    decreases width,
{
    if width == 0 {
        Seq::empty()
    } else {
        octal_seq(n / 8, (width - 1) as nat).push(oct_digit(n % 8))
    }
}

/// The same digits as `octal_seq`, as characters.
pub open spec fn octal_chars(n: nat, width: nat) -> Seq<char>
    decreases width,
{
    if width == 0 {
        Seq::empty()
    } else {
        octal_chars(n / 8, (width - 1) as nat).push(oct_digit_char(n % 8))
    }
}

pub broadcast proof fn lemma_octal_seq_len(n: nat, width: nat)
    ensures
        (#[trigger] octal_seq(n, width)).len() == width,
    decreases width,
{
    if width > 0 {
        lemma_octal_seq_len(n / 8, (width - 1) as nat);
    }
}

/// `n` as exactly `width` octal ASCII bytes, left-padded with `'0'`.
pub fn octal_bytes(n: u64, width: usize) -> (r: Vec<u8>)
    ensures
        r@ == octal_seq(n as nat, width as nat),
    decreases width,
{
    if width == 0 {
        let r: Vec<u8> = Vec::new();
        assert(r@ =~= octal_seq(n as nat, 0));
        r
    } else {
        let mut r = octal_bytes(n / 8, width - 1);
        let d: u8 = 48 + (n % 8) as u8;
        r.push(d);
        assert(r@ =~= octal_seq(n as nat, width as nat));
        r
    }
}

/// `n` as a string of exactly `pad` octal digits, left-padded with `'0'`.
pub fn octal(n: u64, pad: usize) -> (r: String)
    ensures
        r@ == octal_chars(n as nat, pad as nat),
    decreases pad,
{
    if pad == 0 {
        let r = String::new();
        assert(r@ =~= octal_chars(n as nat, 0));
        r
    } else {
        let mut r = octal(n / 8, pad - 1);
        let d: u64 = n % 8;
        let s: &str = if d == 0 {
            "0"
        } else if d == 1 {
            "1"
        } else if d == 2 {
            "2"
        } else if d == 3 {
            "3"
        } else if d == 4 {
            "4"
        } else if d == 5 {
            "5"
        } else if d == 6 {
            "6"
        } else {
            "7"
        };
        proof {
            reveal_strlit("0");
            reveal_strlit("1");
            reveal_strlit("2");
            reveal_strlit("3");
            reveal_strlit("4");
            reveal_strlit("5");
            reveal_strlit("6");
            reveal_strlit("7");
        }
        r.append(s);
        assert(r@ =~= octal_chars(n as nat, pad as nat));
        r
    }
}

} // verus!
