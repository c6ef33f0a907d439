//! Display text of decoded raw values.

use vstd::prelude::*;
use crate::raw::RawValue;
use crate::text::{chars_of, string_of};

verus! {

/// The decimal digit for `d`.
pub open spec fn digit(d: nat) -> char {
    if d < 10 {
        (d + 48) as char
    } else {
        (d - 10 + 97) as char
    }
}

/// `n` in decimal, without leading zeros.
pub open spec fn decimal(n: nat) -> Seq<char>
    decreases n,
{
    if n < 10 {
        seq![digit(n)]
    } else {
        decimal(n / 10).push(digit(n % 10))
    }
}

/// `n` in decimal, with a leading zero below ten.
pub open spec fn pad2(n: nat) -> Seq<char> {
    if n < 10 {
        seq!['0'] + decimal(n)
    } else {
        decimal(n)
    }
}

/// `n` in decimal, with leading zeros to three digits.
pub open spec fn pad3(n: nat) -> Seq<char> {
    if n < 10 {
        seq!['0', '0'] + decimal(n)
    } else if n < 100 {
        seq!['0'] + decimal(n)
    } else {
        decimal(n)
    }
}

/// The lowest `n` hexadecimal digits of `v`, in lower case.
pub open spec fn hex_digits(v: nat, n: nat) -> Seq<char>
    decreases n,
{
    if n == 0 {
        seq![]
    } else {
        hex_digits(v / 16, (n - 1) as nat).push(digit(v % 16))
    }
}

/// `a b c`, three numbers separated by blanks.
pub open spec fn three(a: nat, b: nat, c: nat) -> Seq<char> {
    decimal(a) + " "@ + decimal(b) + " "@ + decimal(c)
}

/// ` (a b c)` where any of the three is not zero, else nothing.
pub open spec fn extra3(a: nat, b: nat, c: nat) -> Seq<char> {
    if a != 0 || b != 0 || c != 0 {
        " ("@ + three(a, b, c) + ")"@
    } else {
        seq![]
    }
}

/// The display text of a decoded raw value.
pub open spec fn shown(r: RawValue) -> Seq<char> {
    match r {
        RawValue::Bytes(a, b, c, d, e, f) => three(a as nat, b as nat, c as nat) + " "@ + three(
            d as nat,
            e as nat,
            f as nat,
        ),
        RawValue::Words(a, b, c) => three(a as nat, b as nat, c as nat),
        RawValue::Int(v) => decimal(v as nat),
        RawValue::Hex(v, n) => "0x"@ + hex_digits(v as nat, n as nat),
        RawValue::WordExtra(v, a, b) => decimal(v as nat) + if a != 0 || b != 0 {
            " ("@ + decimal(a as nat) + " "@ + decimal(b as nat) + ")"@
        } else {
            seq![]
        },
        RawValue::WordAverage(v, avg) => decimal(v as nat) + if avg != 0 {
            " (Average "@ + decimal(avg as nat) + ")"@
        } else {
            seq![]
        },
        RawValue::Int24Extra(v, a, b, c) => decimal(v as nat) + extra3(a as nat, b as nat, c as nat),
        RawValue::Ratio(a, b) => decimal(a as nat) + "/"@ + decimal(b as nat),
        RawValue::Minutes(m, x) => decimal(m as nat / 60) + "h+"@ + pad2(m as nat % 60) + "m"@ + if x != 0 {
            " ("@ + decimal(x as nat) + ")"@
        } else {
            seq![]
        },
        RawValue::Seconds(s) => decimal(s as nat / 3600) + "h+"@ + pad2(s as nat % 3600 / 60) + "m+"@ + pad2(
            s as nat % 60,
        ) + "s"@,
        RawValue::HalfMinutes(h) => decimal(h as nat / 120) + "h+"@ + pad2(h as nat % 120 / 2) + "m"@,
        RawValue::MsecHours(hours, ms) => decimal(hours as nat) + "h+"@ + pad2(ms as nat / 1000 / 60)
            + "m+"@ + pad2(ms as nat / 1000 % 60) + "."@ + pad3(ms as nat % 1000) + "s"@,
        RawValue::Temperature(t) => decimal(t as nat),
        RawValue::TemperatureRange(t, lo, hi) => decimal(t as nat) + " (Min/Max "@ + decimal(lo as nat)
            + "/"@ + decimal(hi as nat) + ")"@,
        RawValue::Temp10x(w) => decimal(w as nat / 10) + "."@ + decimal(w as nat % 10),
    }
}

fn digit_char(d: u64) -> (r: char)
    requires
        d < 16,
    ensures
        r == digit(d as nat),
{
    if d < 10 {
        ((d + 48) as u8) as char
    } else {
        ((d - 10 + 97) as u8) as char
    }
}

pub(crate) fn push_text(out: &mut Vec<char>, lit: &str)
    ensures
        final(out)@ == old(out)@ + lit@,
{
    let cs = chars_of(lit);
    let ghost start = out@;
    let mut i: usize = 0;
    while i < cs.len()
        invariant
            i <= cs@.len(),
            cs@ == lit@,
            out@ == start + cs@.take(i as int),
        decreases cs@.len() - i,
    {
        out.push(cs[i]);
        i += 1;
        proof {
            assert(out@ =~= start + cs@.take(i as int));
        }
    }
    proof {
        assert(cs@.take(i as int) =~= cs@);
    }
}

pub(crate) fn push_decimal(out: &mut Vec<char>, n: u64)
    ensures
        final(out)@ == old(out)@ + decimal(n as nat),
    decreases n,
{
    let ghost start = out@;
    if n >= 10 {
        push_decimal(out, n / 10);
    }
    out.push(digit_char(n % 10));
    proof {
        if n >= 10 {
            assert(out@ =~= start + decimal(n as nat));
        } else {
            assert(out@ =~= start + decimal(n as nat));
        }
    }
}

fn push_pad2(out: &mut Vec<char>, n: u64)
    ensures
        final(out)@ == old(out)@ + pad2(n as nat),
{
    let ghost start = out@;
    if n < 10 {
        out.push('0');
    }
    push_decimal(out, n);
    proof {
        assert(out@ =~= start + pad2(n as nat));
    }
}

fn push_pad3(out: &mut Vec<char>, n: u64)
    ensures
        final(out)@ == old(out)@ + pad3(n as nat),
{
    let ghost start = out@;
    if n < 100 {
        out.push('0');
    }
    if n < 10 {
        out.push('0');
    }
    push_decimal(out, n);
    proof {
        assert(out@ =~= start + pad3(n as nat));
    }
}

fn push_hex(out: &mut Vec<char>, v: u64, n: u8)
    ensures
        final(out)@ == old(out)@ + hex_digits(v as nat, n as nat),
    decreases n,
{
    let ghost start = out@;
    if n > 0 {
        push_hex(out, v / 16, n - 1);
        out.push(digit_char(v % 16));
        proof {
            assert(out@ =~= start + hex_digits(v as nat, n as nat));
        }
    } else {
        proof {
            assert(out@ =~= start + hex_digits(v as nat, n as nat));
        }
    }
}

fn push_three(out: &mut Vec<char>, a: u64, b: u64, c: u64)
    ensures
        final(out)@ == old(out)@ + three(a as nat, b as nat, c as nat),
{
    let ghost start = out@;
    push_decimal(out, a);
    push_text(out, " ");
    push_decimal(out, b);
    push_text(out, " ");
    push_decimal(out, c);
    proof {
        assert(out@ =~= start + three(a as nat, b as nat, c as nat));
    }
}

impl RawValue {
    /// The text in which this value is shown.
    pub fn text(&self) -> (r: String)
        ensures
            r@ == shown(*self),
    {
        let mut out: Vec<char> = Vec::new();
        match *self {
            RawValue::Bytes(a, b, c, d, e, f) => {
                push_three(&mut out, a as u64, b as u64, c as u64);
                push_text(&mut out, " ");
                push_three(&mut out, d as u64, e as u64, f as u64);
            },
            RawValue::Words(a, b, c) => push_three(&mut out, a as u64, b as u64, c as u64),
            RawValue::Int(v) => push_decimal(&mut out, v),
            RawValue::Hex(v, n) => {
                push_text(&mut out, "0x");
                push_hex(&mut out, v, n);
            },
            RawValue::WordExtra(v, a, b) => {
                push_decimal(&mut out, v as u64);
                if a != 0 || b != 0 {
                    push_text(&mut out, " (");
                    push_decimal(&mut out, a as u64);
                    push_text(&mut out, " ");
                    push_decimal(&mut out, b as u64);
                    push_text(&mut out, ")");
                }
            },
            RawValue::WordAverage(v, avg) => {
                push_decimal(&mut out, v as u64);
                if avg != 0 {
                    push_text(&mut out, " (Average ");
                    push_decimal(&mut out, avg as u64);
                    push_text(&mut out, ")");
                }
            },
            RawValue::Int24Extra(v, a, b, c) => {
                push_decimal(&mut out, v as u64);
                if a != 0 || b != 0 || c != 0 {
                    push_text(&mut out, " (");
                    push_three(&mut out, a as u64, b as u64, c as u64);
                    push_text(&mut out, ")");
                }
            },
            RawValue::Ratio(a, b) => {
                push_decimal(&mut out, a as u64);
                push_text(&mut out, "/");
                push_decimal(&mut out, b as u64);
            },
            RawValue::Minutes(m, x) => {
                push_decimal(&mut out, m as u64 / 60);
                push_text(&mut out, "h+");
                push_pad2(&mut out, m as u64 % 60);
                push_text(&mut out, "m");
                if x != 0 {
                    push_text(&mut out, " (");
                    push_decimal(&mut out, x as u64);
                    push_text(&mut out, ")");
                }
            },
            RawValue::Seconds(s) => {
                push_decimal(&mut out, s / 3600);
                push_text(&mut out, "h+");
                push_pad2(&mut out, s % 3600 / 60);
                push_text(&mut out, "m+");
                push_pad2(&mut out, s % 60);
                push_text(&mut out, "s");
            },
            RawValue::HalfMinutes(h) => {
                push_decimal(&mut out, h / 120);
                push_text(&mut out, "h+");
                push_pad2(&mut out, h % 120 / 2);
                push_text(&mut out, "m");
            },
            RawValue::MsecHours(hours, ms) => {
                push_decimal(&mut out, hours as u64);
                push_text(&mut out, "h+");
                push_pad2(&mut out, ms as u64 / 1000 / 60);
                push_text(&mut out, "m+");
                push_pad2(&mut out, ms as u64 / 1000 % 60);
                push_text(&mut out, ".");
                push_pad3(&mut out, ms as u64 % 1000);
                push_text(&mut out, "s");
            },
            RawValue::Temperature(t) => push_decimal(&mut out, t as u64),
            RawValue::TemperatureRange(t, lo, hi) => {
                push_decimal(&mut out, t as u64);
                push_text(&mut out, " (Min/Max ");
                push_decimal(&mut out, lo as u64);
                push_text(&mut out, "/");
                push_decimal(&mut out, hi as u64);
                push_text(&mut out, ")");
            },
            RawValue::Temp10x(w) => {
                push_decimal(&mut out, w as u64 / 10);
                push_text(&mut out, ".");
                push_decimal(&mut out, w as u64 % 10);
            },
        }
        proof {
            assert(out@ =~= shown(*self));
        }
        string_of(out.as_slice())
    }
}

} // verus!
