//! Textual rendering of the values that appear in published messages:
//! decimal numbers and canonical hyphenated identifiers, as bytes.

use vstd::prelude::*;
use vstd::string::StringSliceAdditionalSpecFns;

verus! {

/// The decimal digits of a non-negative number, most significant first.
pub open spec fn dec_digits(n: nat) -> Seq<u8>
    decreases n,
{
    if n < 10 {
        seq![(n + 0x30) as u8]
    } else {
        dec_digits(n / 10).push(((n % 10) + 0x30) as u8)
    }
}

/// The decimal rendering of an integer, with a leading minus sign when it
/// is negative.
pub open spec fn dec_text(x: int) -> Seq<u8> {
    if x < 0 {
        seq![0x2du8] + dec_digits((-x) as nat)
    } else {
        dec_digits(x as nat)
    }
}

/// One lowercase hexadecimal digit.
pub open spec fn hex_digit(n: int) -> u8 {
    if n < 10 {
        (n + 0x30) as u8
    } else {
        (n - 10 + 0x61) as u8
    }
}

/// The low `count` hexadecimal digits of a number, most significant
/// first.
pub open spec fn hex_digits(n: nat, count: nat) -> Seq<u8>
    decreases count,
{
    if count == 0 {
        Seq::empty()
    } else {
        hex_digits(n / 16, (count - 1) as nat).push(hex_digit((n % 16) as int))
    }
}

/// The canonical textual form of a 128-bit identifier: 32 lowercase
/// hexadecimal digits in five hyphen-separated groups of 8, 4, 4, 4 and
/// 12.
pub open spec fn id_text(id: u128) -> Seq<u8> {
    let h = hex_digits(id as nat, 32);
    h.subrange(0, 8) + seq![0x2du8] + h.subrange(8, 12) + seq![0x2du8] + h.subrange(12, 16)
        + seq![0x2du8] + h.subrange(16, 20) + seq![0x2du8] + h.subrange(20, 32)
}

/// Appends a byte slice.
pub fn append_slice(out: &mut Vec<u8>, s: &[u8])
    ensures
        final (out)@ == old(out)@ + s@,
{
    let ghost out0 = out@;
    let mut i: usize = 0;
    proof {
        assert(out@ =~= out0 + s@.take(0));
    }
    while i < s.len()
        invariant
            out0 == old(out)@,
            i <= s.len(),
            out@ == out0 + s@.take(i as int),
        decreases s.len() - i,
    {
        out.push(s[i]);
        proof {
            assert(s@.take(i as int + 1) =~= s@.take(i as int).push(s@[i as int]));
            assert(out@ =~= out0 + s@.take(i as int + 1));
        }
        i += 1;
    }
    proof {
        assert(s@.take(s@.len() as int) =~= s@);
    }
}

/// Appends the bytes of a string literal.
pub fn append_literal(out: &mut Vec<u8>, s: &str)
    ensures
        final (out)@ == old(out)@ + s.spec_bytes(),
{
    append_slice(out, s.as_bytes());
}

/// Renders a non-negative number in decimal.
pub fn append_u128_decimal(out: &mut Vec<u8>, n: u128)
    ensures
        final (out)@ == old(out)@ + dec_digits(n as nat),
{
    let ghost out0 = out@;
    let mut digits: Vec<u8> = Vec::new();
    let mut cur: u128 = n;
    while cur >= 10
        invariant
            dec_digits(n as nat) == dec_digits(cur as nat) + digits@,
        decreases cur,
    {
        let digit: u8 = (cur % 10) as u8 + 0x30;
        let ghost before = digits@;
        digits.insert(0, digit);
        proof {
            assert(digits@ =~= seq![digit] + before);
            assert(dec_digits(cur as nat) == dec_digits((cur as nat) / 10).push(digit));
            assert(dec_digits((cur as nat) / 10).push(digit) + before =~= dec_digits(
                (cur as nat) / 10,
            ) + (seq![digit] + before));
            assert((cur / 10) as nat == (cur as nat) / 10);
        }
        cur = cur / 10;
    }
    let last: u8 = cur as u8 + 0x30;
    let ghost before = digits@;
    digits.insert(0, last);
    proof {
        assert(dec_digits(cur as nat) =~= seq![last]);
        assert(digits@ =~= seq![last] + before);
        assert(seq![last] + before =~= dec_digits(n as nat));
    }
    append_slice(out, digits.as_slice());
}

/// Renders a signed number in decimal.
pub fn append_i64_decimal(out: &mut Vec<u8>, x: i64)
    ensures
        final (out)@ == old(out)@ + dec_text(x as int),
{
    if x >= 0 {
        append_u128_decimal(out, x as u128);
    } else {
        let ghost out0 = out@;
        let mut sign: Vec<u8> = Vec::new();
        sign.push(0x2d);
        append_slice(out, sign.as_slice());
        proof {
            assert(sign@ =~= seq![0x2du8]);
        }
        let magnitude: u128 = (-(x as i128)) as u128;
        proof {
            assert(magnitude as nat == (-(x as int)) as nat);
        }
        append_u128_decimal(out, magnitude);
        proof {
            assert((out0 + seq![0x2du8]) + dec_digits((-(x as int)) as nat) =~= out0 + (
            seq![0x2du8] + dec_digits((-(x as int)) as nat)));
        }
    }
}

/// Renders the low 32 hexadecimal digits of a number.
fn hex32(n: u128) -> (r: Vec<u8>)
    ensures
        r@ == hex_digits(n as nat, 32),
        r@.len() == 32,
{
    let mut digits: Vec<u8> = Vec::new();
    let mut cur: u128 = n;
    let mut count: usize = 0;
    proof {
        assert(hex_digits(n as nat, 32) =~= hex_digits(n as nat, 32) + digits@);
    }
    while count < 32
        invariant
            count <= 32,
            hex_digits(n as nat, 32) == hex_digits(cur as nat, (32 - count) as nat) + digits@,
        decreases 32 - count,
    {
        let digit: u8 = hex_digit_of((cur % 16) as u8);
        let ghost before = digits@;
        digits.insert(0, digit);
        proof {
            assert(digits@ =~= seq![digit] + before);
            assert(hex_digits(cur as nat, (32 - count) as nat) == hex_digits(
                (cur as nat) / 16,
                (32 - count - 1) as nat,
            ).push(digit));
            assert(hex_digits((cur as nat) / 16, (32 - count - 1) as nat).push(digit) + before
                =~= hex_digits((cur as nat) / 16, (32 - count - 1) as nat) + (seq![digit]
                + before));
            assert((cur / 16) as nat == (cur as nat) / 16);
        }
        cur = cur / 16;
        count += 1;
    }
    proof {
        assert(hex_digits(cur as nat, 0) =~= Seq::<u8>::empty());
        assert(hex_digits(cur as nat, 0) + digits@ =~= digits@);
        assert(hex_digits(n as nat, 32).len() == 32) by {
            lemma_hex_digits_len(n as nat, 32);
        }
    }
    digits
}

/// The length of a fixed-width hexadecimal rendering is its width.
proof fn lemma_hex_digits_len(n: nat, count: nat)
    ensures
        hex_digits(n, count).len() == count,
    decreases count,
{
    if count > 0 {
        lemma_hex_digits_len(n / 16, (count - 1) as nat);
    }
}

/// One lowercase hexadecimal digit, as a byte.
fn hex_digit_of(n: u8) -> (r: u8)
    requires
        n < 16,
    ensures
        r == hex_digit(n as int),
{
    if n < 10 {
        n + 0x30
    } else {
        n - 10 + 0x61
    }
}

/// Appends one hyphen-separated group of an identifier's hexadecimal
/// digits.
fn append_hex_group(out: &mut Vec<u8>, h: &Vec<u8>, start: usize, end: usize)
    requires
        start <= end <= h.len(),
    ensures
        final (out)@ == old(out)@ + h@.subrange(start as int, end as int),
{
    let ghost out0 = out@;
    let mut i: usize = start;
    proof {
        assert(out@ =~= out0 + h@.subrange(start as int, start as int));
    }
    while i < end
        invariant
            out0 == old(out)@,
            start <= i <= end <= h.len(),
            out@ == out0 + h@.subrange(start as int, i as int),
        decreases end - i,
    {
        out.push(h[i]);
        proof {
            assert(h@.subrange(start as int, i as int + 1) =~= h@.subrange(
                start as int,
                i as int,
            ).push(h@[i as int]));
            assert(out@ =~= out0 + h@.subrange(start as int, i as int + 1));
        }
        i += 1;
    }
}

/// Renders a 128-bit identifier in its canonical hyphenated form.
pub fn append_id_text(out: &mut Vec<u8>, id: u128)
    ensures
        final (out)@ == old(out)@ + id_text(id),
{
    let ghost out0 = out@;
    let h = hex32(id);
    append_hex_group(out, &h, 0, 8);
    out.push(0x2d);
    append_hex_group(out, &h, 8, 12);
    out.push(0x2d);
    append_hex_group(out, &h, 12, 16);
    out.push(0x2d);
    append_hex_group(out, &h, 16, 20);
    out.push(0x2d);
    append_hex_group(out, &h, 20, 32);
    proof {
        let hs = hex_digits(id as nat, 32);
        assert(out@ =~= out0 + (hs.subrange(0, 8) + seq![0x2du8] + hs.subrange(8, 12)
            + seq![0x2du8] + hs.subrange(12, 16) + seq![0x2du8] + hs.subrange(16, 20)
            + seq![0x2du8] + hs.subrange(20, 32)));
    }
}

} // verus!
