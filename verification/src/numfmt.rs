//! Turning cells into output text and input text into cells: decimal output
//! for `.`, the byte-to-character encoding for `,`, the decimal reader behind
//! `&`, and positional digits in other bases for the printing extensions.

use std::fmt::Write;

use vstd::prelude::*;

verus! {

/// The decimal digits of `n`, most significant first, `"0"` for zero.
pub open spec fn dec_rep(n: nat) -> Seq<u8>
    decreases n,
{
    if n < 10 {
        seq![(0x30 + n) as u8]
    } else {
        dec_rep(n / 10).push((0x30 + n % 10) as u8)
    }
}

/// The decimal text of a cell: a minus sign before the digits when negative.
pub open spec fn int_text(v: int) -> Seq<u8> {
    if v < 0 {
        seq![0x2Du8] + dec_rep((-v) as nat)
    } else {
        dec_rep(v as nat)
    }
}

/// The digits of `n` in base `b`, most significant first; `a`-`z` continue
/// past `9`.
pub open spec fn radix_rep(n: nat, b: nat) -> Seq<u8>
    recommends
        2 <= b <= 36,
    decreases n,
    via radix_rep_decreases
{
    if n < b || b <= 1 {
        seq![radix_digit(n % 36)]
    } else {
        radix_rep(n / b, b).push(radix_digit(n % b))
    }
}

#[via_fn]
proof fn radix_rep_decreases(n: nat, b: nat) {
    if !(n < b || b <= 1) {
        assert(n / b < n) by (nonlinear_arith)
            requires
                n >= b,
                b >= 2,
        ;
    }
}

/// The character for one digit value.
pub open spec fn radix_digit(d: nat) -> u8 {
    if d < 10 {
        (0x30 + d) as u8
    } else {
        (0x61 + (d - 10)) as u8
    }
}

/// The decimal digits of `n`, as bytes.
pub fn dec_digits(n: u64) -> (r: Vec<u8>)
    ensures
        r@ == dec_rep(n as nat),
    decreases n,
{
    if n < 10 {
        let mut r: Vec<u8> = Vec::new();
        r.push(0x30 + n as u8);
        proof {
            vstd::assert_seqs_equal!(r@, dec_rep(n as nat));
        }
        r
    } else {
        let mut r = dec_digits(n / 10);
        r.push(0x30 + (n % 10) as u8);
        r
    }
}

/// The decimal text of a cell, as `.` prints it (without the trailing space).
pub fn format_int(v: i32) -> (r: Vec<u8>)
    ensures
        r@ == int_text(v as int),
{
    if v < 0 {
        let mut r: Vec<u8> = Vec::new();
        r.push(0x2D);
        let mag: u64 = (-(v as i64)) as u64;
        let mut d = dec_digits(mag);
        r.append(&mut d);
        proof {
            vstd::assert_seqs_equal!(r@, int_text(v as int));
        }
        r
    } else {
        dec_digits(v as u64)
    }
}

/// The digits of `n` in base `b`, as bytes.
pub fn radix_digits(n: u32, b: u32) -> (r: Vec<u8>)
    requires
        2 <= b <= 36,
    ensures
        r@ == radix_rep(n as nat, b as nat),
    decreases n,
{
    if n < b {
        let mut r: Vec<u8> = Vec::new();
        r.push(radix_digit_exec(n % 36));
        proof {
            vstd::assert_seqs_equal!(r@, radix_rep(n as nat, b as nat));
        }
        r
    } else {
        proof {
            assert(n / b < n) by (nonlinear_arith)
                requires
                    n >= b,
                    b >= 2,
            ;
        }
        let mut r = radix_digits(n / b, b);
        r.push(radix_digit_exec(n % b));
        r
    }
}

pub fn radix_digit_exec(d: u32) -> (r: u8)
    requires
        d < 36,
    ensures
        r == radix_digit(d as nat),
{
    if d < 10 {
        0x30 + d as u8
    } else {
        0x61 + (d as u8 - 10)
    }
}

/// The UTF-8 encoding of the character with code point `b`, as `,` writes it:
/// one byte below 128, two bytes above.
pub open spec fn byte_utf8(b: u8) -> Seq<u8> {
    if b < 128 {
        seq![b]
    } else {
        seq![(0xC0u8 | (b >> 6)) as u8, (0x80u8 | (b & 0x3F)) as u8]
    }
}

/// Encodes the character with code point `b` as UTF-8 bytes.
pub fn encode_byte_char(b: u8) -> (r: Vec<u8>)
    ensures
        r@ == byte_utf8(b),
{
    let mut r: Vec<u8> = Vec::new();
    if b < 128 {
        r.push(b);
    } else {
        r.push(0xC0u8 | (b >> 6));
        r.push(0x80u8 | (b & 0x3F));
    }
    proof {
        vstd::assert_seqs_equal!(r@, byte_utf8(b));
    }
    r
}

/// The state the decimal reader walks through a line with: characters before
/// the number are discarded, one leading `-` is remembered, digits accumulate
/// until the line ends, a non-digit follows, or one more digit would
/// overflow the cell.
pub open spec fn parse_loop(s: Seq<u8>, i: int, res: int, discard: bool, neg: bool) -> (int, bool)
    decreases s.len() - i,
{
    if i < 0 || i >= s.len() {
        (res, neg)
    } else {
        let b = s[i];
        if 0x30 <= b <= 0x39 {
            let d = b - 0x30;
            if res * 10 + d > 0x7FFF_FFFF {
                (res, neg)
            } else {
                parse_loop(s, i + 1, res * 10 + d, true, neg)
            }
        } else if discard {
            (res, neg)
        } else if b == 0x2D {
            parse_loop(s, i + 1, res, true, true)
        } else {
            parse_loop(s, i + 1, res, discard, neg)
        }
    }
}

/// The cell that `&` reads from an input line: 0 when the line holds no
/// digits.
pub open spec fn parse_decimal_spec(s: Seq<u8>) -> int {
    let r = parse_loop(s, 0, 0, false, false);
    if r.1 {
        -r.0
    } else {
        r.0
    }
}

/// Reads a decimal cell from an input line, as `&` does.
pub fn parse_decimal(s: &Vec<u8>) -> (r: i32)
    ensures
        r as int == parse_decimal_spec(s@),
{
    let n = s.len();
    let mut res: i32 = 0;
    let mut discard = false;
    let mut neg = false;
    let mut i: usize = 0;
    let mut done = false;
    while i < n && !done
        invariant
            i <= n,
            n == s@.len(),
            0 <= res,
            parse_loop(s@, 0, 0, false, false) == (if done {
                (res as int, neg)
            } else {
                parse_loop(s@, i as int, res as int, discard, neg)
            }),
        decreases n - i, (if done {
            0int
        } else {
            1int
        }),
    {
        let b = s[i];
        if 0x30 <= b && b <= 0x39 {
            let d = (b - 0x30) as i32;
            if res > (0x7FFF_FFFF - d) / 10 {
                proof {
                    assert(res * 10 + d > 0x7FFF_FFFF) by (nonlinear_arith)
                        requires
                            res > (0x7FFF_FFFF - d) / 10,
                            0 <= d <= 9,
                            res >= 0,
                    ;
                }
                done = true;
            } else {
                proof {
                    assert(res * 10 + d <= 0x7FFF_FFFF) by (nonlinear_arith)
                        requires
                            res <= (0x7FFF_FFFF - d) / 10,
                            0 <= d <= 9,
                            res >= 0,
                    ;
                }
                res = res * 10 + d;
                discard = true;
                i = i + 1;
            }
        } else if discard {
            done = true;
        } else if b == 0x2D {
            neg = true;
            discard = true;
            i = i + 1;
        } else {
            i = i + 1;
        }
    }
    if neg {
        -res
    } else {
        res
    }
}

/// Relies on radix_fmt::radix: rendering it displays the base-`b` digits of
/// `n`, lowercase, most significant first, with no prefix and no leading
/// zeros (a lone `0` for zero).
#[verifier::external_body]
pub fn radix_text(n: u32, b: u8) -> (r: Vec<u8>)
    requires
        2 <= b <= 36,
    ensures
        r@ == radix_rep(n as nat, b as nat),
{
    let mut s = String::new();
    let v = radix_fmt::radix(n, b);
    match write!(&mut s, "{}", v) {
        _ => {},
    }
    s.into_bytes()
}

} // verus!
