//! Decoding of an attribute's raw payload: bytes are first reordered as the
//! rule's byte order says, then read as one big-endian number and split up
//! as the rule's format says.

use vstd::prelude::*;
use crate::text::chars_of;
use vstd::arithmetic::div_mod::{lemma_fundamental_div_mod, lemma_fundamental_div_mod_converse, lemma_mod_mod, lemma_small_mod};
use crate::vendor_attribute::{Attribute, RawFormat, default_order, lemma_default_order_len};

verus! {

/// The byte of a 12-byte attribute slot that byte-order token `c` selects;
/// an unknown token selects a zero pad byte.
pub open spec fn pick(slot: Seq<u8>, c: char) -> u8 {
    match c {
        'v' => slot[3],
        'w' => slot[4],
        '0' => slot[5],
        '1' => slot[6],
        '2' => slot[7],
        '3' => slot[8],
        '4' => slot[9],
        '5' => slot[10],
        'r' => slot[11],
        _ => 0,
    }
}

/// The bytes that byte order `order` selects from `slot`, in order.
pub open spec fn reordered(slot: Seq<u8>, order: Seq<char>) -> Seq<u8> {
    Seq::new(order.len(), |i: int| pick(slot, order[i]))
}

/// `s` read as a big-endian unsigned number.
pub open spec fn be_value(s: Seq<u8>) -> nat
    decreases s.len(),
{
    if s.len() == 0 {
        0
    } else {
        be_value(s.drop_last()) * 256 + s.last() as nat
    }
}

/// 256 to the power `n`.
pub open spec fn span(n: nat) -> nat
    decreases n,
{
    if n == 0 {
        1
    } else {
        256 * span((n - 1) as nat)
    }
}

proof fn lemma_be_value_bound(s: Seq<u8>)
    ensures
        be_value(s) < span(s.len()),
    decreases s.len(),
{
    if s.len() > 0 {
        lemma_be_value_bound(s.drop_last());
        let a = be_value(s.drop_last());
        let b = span((s.len() - 1) as nat);
        let l = s.last() as nat;
        assert(a * 256 + l < b * 256) by (nonlinear_arith)
            requires
                a < b,
                l < 256,
        ;
    }
}

/// Two bytes read big-endian: the first counts 256 times, and the value
/// fits in 16 bits.
pub proof fn lemma_be_two(s: Seq<u8>)
    requires
        s.len() == 2,
    ensures
        be_value(s) == s[0] as nat * 256 + s[1] as nat,
        be_value(s) < 0x1_0000,
{
    let a = s.drop_last();
    assert(a.drop_last() =~= Seq::<u8>::empty());
    assert(be_value(a.drop_last()) == 0);
    assert(a.last() == s[0]);
    assert(be_value(a) == s[0] as nat);
    assert(s.last() == s[1]);
    assert(be_value(s) == be_value(a) * 256 + s[1] as nat);
}

/// Four bytes read big-endian fit in 32 bits.
pub proof fn lemma_be_four(s: Seq<u8>)
    requires
        s.len() == 4,
    ensures
        be_value(s) < 0x1_0000_0000,
{
    lemma_be_value_bound(s);
    reveal_with_fuel(span, 5);
}

/// At most eight bytes read big-endian fit in 64 bits.
pub proof fn lemma_be_fits(s: Seq<u8>)
    requires
        s.len() <= 8,
    ensures
        be_value(s) < 0x1_0000_0000_0000_0000,
{
    lemma_be_value_bound(s);
    lemma_span_monotone(s.len(), 8);
    lemma_span_8();
}

proof fn lemma_span_monotone(m: nat, n: nat)
    requires
        m <= n,
    ensures
        span(m) <= span(n),
    decreases n,
{
    if m < n {
        lemma_span_monotone(m, (n - 1) as nat);
    }
}

proof fn lemma_span_8()
    ensures
        span(8) == 0x1_0000_0000_0000_0000,
{
    reveal_with_fuel(span, 9);
}

/// Reorders the bytes of an attribute slot (id byte first) as `byte_order`
/// says.
pub fn reorder(data: &[u8], byte_order: &str) -> (r: Vec<u8>)
    requires
        data@.len() >= 12,
    ensures
        r@ == reordered(data@, byte_order@),
{
    let order = chars_of(byte_order);
    let mut out: Vec<u8> = Vec::new();
    let mut i: usize = 0;
    while i < order.len()
        invariant
            data@.len() >= 12,
            order@ == byte_order@,
            i <= order@.len(),
            out@ == reordered(data@, order@).take(i as int),
        decreases order@.len() - i,
    {
        let b: u8 = match order[i] {
            'v' => data[3],
            'w' => data[4],
            '0' => data[5],
            '1' => data[6],
            '2' => data[7],
            '3' => data[8],
            '4' => data[9],
            '5' => data[10],
            'r' => data[11],
            _ => 0,
        };
        out.push(b);
        i += 1;
        proof {
            assert(out@ =~= reordered(data@, order@).take(i as int));
        }
    }
    proof {
        assert(out@ =~= reordered(data@, order@));
    }
    out
}

/// The first `bits / 8` bytes of `data` read as a big-endian number,
/// modulo 2^64: with more than eight bytes only the last eight count.
pub fn read(data: &[u8], bits: usize) -> (r: u64)
    requires
        bits / 8 <= data@.len(),
    ensures
        r == be_value(data@.take((bits / 8) as int)) % 0x1_0000_0000_0000_0000,
        bits <= 64 ==> r == be_value(data@.take((bits / 8) as int)),
{
    let n = bits / 8;
    let mut out: u64 = 0;
    let mut i: usize = 0;
    while i < n
        invariant
            n <= data@.len(),
            i <= n,
            out == be_value(data@.take(i as int)) % 0x1_0000_0000_0000_0000,
        decreases n - i,
    {
        let low = out % 0x100_0000_0000_0000;
        proof {
            let b = be_value(data@.take(i as int)) as int;
            let d = data@[i as int] as int;
            lemma_mod_mod(b, 0x100_0000_0000_0000, 256);
            assert(low == b % 0x100_0000_0000_0000);
            lemma_fundamental_div_mod(b, 0x100_0000_0000_0000);
            let q = b / 0x100_0000_0000_0000;
            let rem = b % 0x100_0000_0000_0000;
            assert(b * 256 + d == q * 0x1_0000_0000_0000_0000 + (rem * 256 + d)) by (nonlinear_arith)
                requires
                    b == 0x100_0000_0000_0000 * q + rem,
            ;
            lemma_fundamental_div_mod_converse(b * 256 + d, 0x1_0000_0000_0000_0000, q, rem * 256 + d);
            assert(data@.take(i + 1).drop_last() =~= data@.take(i as int));
        }
        out = low * 256 + data[i] as u64;
        i += 1;
    }
    proof {
        if bits <= 64 {
            lemma_be_fits(data@.take(n as int));
            lemma_small_mod(be_value(data@.take(n as int)), 0x1_0000_0000_0000_0000);
        }
    }
    out
}

/// A decoded raw value; which variant comes out is set by the format.
#[derive(Clone, Copy, Debug, PartialEq, Eq, Structural)]
pub enum RawValue {
    /// Six bytes, most significant first.
    Bytes(u8, u8, u8, u8, u8, u8),
    /// Three 16-bit words, most significant first.
    Words(u16, u16, u16),
    /// One plain integer.
    Int(u64),
    /// One integer shown in hexadecimal with the given number of digits.
    Hex(u64, u8),
    /// A 16-bit value with the two other words beside it.
    WordExtra(u16, u16, u16),
    /// A 16-bit value and a 16-bit average.
    WordAverage(u16, u16),
    /// A 24-bit value with the three upper bytes beside it.
    Int24Extra(u32, u8, u8, u8),
    /// Two counters shown as `a/b`.
    Ratio(u32, u32),
    /// A count of minutes and a 16-bit extra word.
    Minutes(u32, u16),
    /// A count of seconds.
    Seconds(u64),
    /// A count of half minutes.
    HalfMinutes(u64),
    /// Hours and milliseconds.
    MsecHours(u32, u32),
    /// The current temperature.
    Temperature(u8),
    /// The current temperature with the lowest and the highest reported.
    TemperatureRange(u8, u8, u8),
    /// Ten times the temperature.
    Temp10x(u16),
}

/// The one number by which values of a kind compare, where there is one.
pub open spec fn comparable(r: RawValue) -> Option<u64> {
    match r {
        RawValue::Int(v) | RawValue::Hex(v, _) | RawValue::Seconds(v) | RawValue::HalfMinutes(v) => Some(v),
        RawValue::Minutes(m, _) => Some(m as u64),
        RawValue::WordExtra(v, _, _) | RawValue::WordAverage(v, _) => Some(v as u64),
        RawValue::Int24Extra(v, _, _, _) => Some(v as u64),
        RawValue::MsecHours(hours, _) => Some(hours as u64),
        RawValue::Temperature(t) | RawValue::TemperatureRange(t, _, _) => Some(t as u64),
        RawValue::Temp10x(w) => Some(w as u64),
        RawValue::Bytes(..) | RawValue::Words(..) | RawValue::Ratio(..) => None,
    }
}

impl RawValue {
    /// The one number by which values of this kind compare, where there is
    /// one.
    pub fn number(&self) -> (r: Option<u64>)
        ensures
            r == comparable(*self),
    {
        match *self {
            RawValue::Int(v) | RawValue::Hex(v, _) | RawValue::Seconds(v) | RawValue::HalfMinutes(v) => Some(v),
            RawValue::Minutes(m, _) => Some(m as u64),
            RawValue::WordExtra(v, _, _) | RawValue::WordAverage(v, _) => Some(v as u64),
            RawValue::Int24Extra(v, _, _, _) => Some(v as u64),
            RawValue::MsecHours(hours, _) => Some(hours as u64),
            RawValue::Temperature(t) | RawValue::TemperatureRange(t, _, _) => Some(t as u64),
            RawValue::Temp10x(w) => Some(w as u64),
            RawValue::Bytes(..) | RawValue::Words(..) | RawValue::Ratio(..) => None,
        }
    }
}

/// Byte `k` of `v`, counting from the least significant.
pub open spec fn byte_at(v: u64, k: u64) -> u8 {
    ((v >> (8 * k)) & 0xff) as u8
}

/// Word `k` of `v`, counting from the least significant.
pub open spec fn word_at(v: u64, k: u64) -> u16 {
    ((v >> (16 * k)) & 0xffff) as u16
}

/// What format `f` makes of the reordered number `v`.
pub open spec fn interpret(f: RawFormat, v: u64) -> RawValue {
    match f {
        RawFormat::Raw8 => RawValue::Bytes(
            byte_at(v, 5),
            byte_at(v, 4),
            byte_at(v, 3),
            byte_at(v, 2),
            byte_at(v, 1),
            byte_at(v, 0),
        ),
        RawFormat::Raw16 => RawValue::Words(word_at(v, 2), word_at(v, 1), word_at(v, 0)),
        RawFormat::Raw48 | RawFormat::Raw56 | RawFormat::Raw64 => RawValue::Int(v),
        RawFormat::Hex48 => RawValue::Hex(v, 12),
        RawFormat::Hex56 => RawValue::Hex(v, 14),
        RawFormat::Hex64 => RawValue::Hex(v, 16),
        RawFormat::Raw16OptRaw16 => RawValue::WordExtra(word_at(v, 0), word_at(v, 2), word_at(v, 1)),
        RawFormat::Raw16OptAvg16 => RawValue::WordAverage(word_at(v, 0), word_at(v, 1)),
        RawFormat::Raw24OptRaw8 => RawValue::Int24Extra(
            (v & 0xff_ffff) as u32,
            byte_at(v, 5),
            byte_at(v, 4),
            byte_at(v, 3),
        ),
        RawFormat::Raw24DivRaw24 => RawValue::Ratio(
            ((v >> 24) & 0xffff_ffff) as u32,
            (v & 0xff_ffff) as u32,
        ),
        RawFormat::Raw24DivRaw32 => RawValue::Ratio(
            ((v >> 32) & 0xffff_ffff) as u32,
            (v & 0xffff_ffff) as u32,
        ),
        RawFormat::Min2Hour => RawValue::Minutes((v & 0xffff_ffff) as u32, word_at(v, 2)),
        RawFormat::Sec2Hour => RawValue::Seconds(v),
        RawFormat::HalfMin2Hour => RawValue::HalfMinutes(v),
        RawFormat::Msec24Hour32 => RawValue::MsecHours(
            (v & 0xffff_ffff) as u32,
            ((v >> 32) & 0xffff_ffff) as u32,
        ),
        RawFormat::TempMinMax => if word_at(v, 1) == 0 && word_at(v, 2) == 0 {
            RawValue::Temperature(byte_at(v, 0))
        } else if byte_at(v, 2) <= byte_at(v, 4) {
            RawValue::TemperatureRange(byte_at(v, 0), byte_at(v, 2), byte_at(v, 4))
        } else {
            RawValue::TemperatureRange(byte_at(v, 0), byte_at(v, 4), byte_at(v, 2))
        },
        RawFormat::Temp10x => RawValue::Temp10x(word_at(v, 0)),
    }
}

/// The format in force for a rule, raw48 where there is none.
pub open spec fn effective_format(rule: Option<Attribute>) -> RawFormat {
    match rule {
        Some(a) => a.format,
        None => RawFormat::Raw48,
    }
}

/// The byte order in force for a rule: its own where it gives one, else its
/// format's default.
pub open spec fn effective_order(rule: Option<Attribute>) -> Seq<char> {
    match rule {
        Some(a) => if 0 < a.byte_order@.len() {
            a.byte_order@
        } else {
            default_order(a.format)
        },
        None => default_order(RawFormat::Raw48),
    }
}

/// The leading bytes of `s` that fit in 64 bits: at most eight.
pub open spec fn leading(s: Seq<u8>) -> Seq<u8> {
    if s.len() > 8 {
        s.take(8)
    } else {
        s
    }
}

/// The decoded raw value of `slot` under `rule`: the leading eight
/// reordered bytes at most make the number.
pub open spec fn decoded(slot: Seq<u8>, rule: Option<Attribute>) -> RawValue {
    interpret(
        effective_format(rule),
        be_value(leading(reordered(slot, effective_order(rule)))) as u64,
    )
}

fn interpret_number(f: RawFormat, v: u64) -> (r: RawValue)
    ensures
        r == interpret(f, v),
{
    let b = |k: u64| -> (r: u8)
        requires k < 8,
        ensures r == byte_at(v, k),
        { ((v >> (8 * k)) & 0xff) as u8 };
    let w = |k: u64| -> (r: u16)
        requires k < 4,
        ensures r == word_at(v, k),
        { ((v >> (16 * k)) & 0xffff) as u16 };
    match f {
        RawFormat::Raw8 => RawValue::Bytes(b(5), b(4), b(3), b(2), b(1), b(0)),
        RawFormat::Raw16 => RawValue::Words(w(2), w(1), w(0)),
        RawFormat::Raw48 | RawFormat::Raw56 | RawFormat::Raw64 => RawValue::Int(v),
        RawFormat::Hex48 => RawValue::Hex(v, 12),
        RawFormat::Hex56 => RawValue::Hex(v, 14),
        RawFormat::Hex64 => RawValue::Hex(v, 16),
        RawFormat::Raw16OptRaw16 => RawValue::WordExtra(w(0), w(2), w(1)),
        RawFormat::Raw16OptAvg16 => RawValue::WordAverage(w(0), w(1)),
        RawFormat::Raw24OptRaw8 => RawValue::Int24Extra((v & 0xff_ffff) as u32, b(5), b(4), b(3)),
        RawFormat::Raw24DivRaw24 => RawValue::Ratio(
            ((v >> 24) & 0xffff_ffff) as u32,
            (v & 0xff_ffff) as u32,
        ),
        RawFormat::Raw24DivRaw32 => RawValue::Ratio(
            ((v >> 32) & 0xffff_ffff) as u32,
            (v & 0xffff_ffff) as u32,
        ),
        RawFormat::Min2Hour => RawValue::Minutes((v & 0xffff_ffff) as u32, w(2)),
        RawFormat::Sec2Hour => RawValue::Seconds(v),
        RawFormat::HalfMin2Hour => RawValue::HalfMinutes(v),
        RawFormat::Msec24Hour32 => RawValue::MsecHours(
            (v & 0xffff_ffff) as u32,
            ((v >> 32) & 0xffff_ffff) as u32,
        ),
        RawFormat::TempMinMax => if w(1) == 0 && w(2) == 0 {
            RawValue::Temperature(b(0))
        } else if b(2) <= b(4) {
            RawValue::TemperatureRange(b(0), b(2), b(4))
        } else {
            RawValue::TemperatureRange(b(0), b(4), b(2))
        },
        RawFormat::Temp10x => RawValue::Temp10x(w(0)),
    }
}

/// The byte order in force for `rule`, as characters.
pub fn order_in_force(rule: &Option<Attribute>) -> (r: Vec<char>)
    ensures
        r@ == effective_order(*rule),
        0 < r@.len(),
{
    proof {
        lemma_default_order_len(RawFormat::Raw48);
        if let Some(a) = rule {
            lemma_default_order_len(a.format);
        }
    }
    match rule {
        Some(a) => {
            let own = chars_of(a.byte_order.as_str());
            if 0 < own.len() {
                own
            } else {
                chars_of(a.format.default_byte_order())
            }
        },
        None => chars_of(RawFormat::Raw48.default_byte_order()),
    }
}

/// Decodes the raw payload of a 12-byte attribute slot (id byte first)
/// under `rule`; with no rule it is read as a plain 48-bit integer. Of a
/// byte order longer than eight tokens only the leading eight bytes make
/// the number.
pub fn decode_raw(slot: &[u8], rule: &Option<Attribute>) -> (r: RawValue)
    requires
        slot@.len() == 12,
    ensures
        r == decoded(slot@, *rule),
{
    let (format, order) = match rule {
        Some(a) => {
            if a.byte_order.as_str().is_empty() {
                (a.format, a.format.default_byte_order())
            } else {
                (a.format, a.byte_order.as_str())
            }
        },
        None => (RawFormat::Raw48, RawFormat::Raw48.default_byte_order()),
    };
    let bytes = reorder(slot, order);
    proof {
        assert(order@ == effective_order(*rule));
    }
    let n = if bytes.len() > 8 {
        8
    } else {
        bytes.len()
    };
    let v = read(bytes.as_slice(), n * 8);
    proof {
        assert(bytes@.take(n as int) =~= leading(bytes@));
    }
    interpret_number(format, v)
}

} // verus!
