//! Interpretation of the SCSI log pages that report errors, temperature,
//! cycle counters, self-tests and informational exceptions, from their
//! parameters.

use vstd::prelude::*;
use vstd::slice::slice_subrange;
use crate::log_page::{Parameter, ParameterView, params_view};
use crate::raw::{be_value, lemma_be_four, read};
use crate::text::string_of;

verus! {

/// One counter of an error counter log page.
#[derive(Clone, Copy, Debug, PartialEq, Eq, Hash, Structural)]
pub enum ErrorCounter {
    /// Errors corrected without substantial delay.
    CorrectedNoDelay,
    /// Errors corrected with possible delays.
    CorrectedDelay,
    /// Total rewrites or rereads.
    Total,
    /// Total errors corrected.
    ErrorsCorrected,
    /// Total times the correction algorithm ran.
    CRCProcessed,
    /// Total bytes processed.
    BytesProcessed,
    /// Total uncorrected errors.
    Uncorrected,
    VendorSpecific(u16),
    Reserved(u16),
}

/// The counter that parameter code `code` stands for.
pub open spec fn counter_of(code: u16) -> ErrorCounter {
    if code == 0 {
        ErrorCounter::CorrectedNoDelay
    } else if code == 1 {
        ErrorCounter::CorrectedDelay
    } else if code == 2 {
        ErrorCounter::Total
    } else if code == 3 {
        ErrorCounter::ErrorsCorrected
    } else if code == 4 {
        ErrorCounter::CRCProcessed
    } else if code == 5 {
        ErrorCounter::BytesProcessed
    } else if code == 6 {
        ErrorCounter::Uncorrected
    } else if code >= 0x8000 {
        ErrorCounter::VendorSpecific(code)
    } else {
        ErrorCounter::Reserved(code)
    }
}

impl ErrorCounter {
    /// The counter that log parameter code `code` stands for.
    pub fn from_code(code: u16) -> (r: ErrorCounter)
        ensures
            r == counter_of(code),
    {
        match code {
            0x0000 => ErrorCounter::CorrectedNoDelay,
            0x0001 => ErrorCounter::CorrectedDelay,
            0x0002 => ErrorCounter::Total,
            0x0003 => ErrorCounter::ErrorsCorrected,
            0x0004 => ErrorCounter::CRCProcessed,
            0x0005 => ErrorCounter::BytesProcessed,
            0x0006 => ErrorCounter::Uncorrected,
            x => if x >= 0x8000 {
                ErrorCounter::VendorSpecific(x)
            } else {
                ErrorCounter::Reserved(x)
            },
        }
    }
}

/// The name of log page `page`.
pub open spec fn page_title(page: u8) -> Seq<char> {
    if page == 0x00 {
        "Supported Log Pages"@
    } else if page == 0x02 {
        "Write Error Counter"@
    } else if page == 0x03 {
        "Read Error Counter"@
    } else if page == 0x04 {
        "Read Reverse Error Counter"@
    } else if page == 0x05 {
        "Verify Error Counter"@
    } else if page == 0x06 {
        "Non-Medium Error"@
    } else if page == 0x0d {
        "Temperature"@
    } else if page == 0x0e {
        "Start-Stop Cycle Counter"@
    } else if page == 0x10 {
        "Self-Test results"@
    } else if page == 0x2f {
        "Informational Exceptions"@
    } else if 0x30 <= page <= 0x3e {
        "(Vendor-Specific)"@
    } else if page == 0x3f {
        "(Reserved)"@
    } else {
        "?"@
    }
}

/// For a given page number `page`, return its name.
pub fn page_name(page: u8) -> (r: &'static str)
    ensures
        r@ == page_title(page),
{
    match page {
        0x00 => "Supported Log Pages",
        0x02 => "Write Error Counter",
        0x03 => "Read Error Counter",
        0x04 => "Read Reverse Error Counter",
        0x05 => "Verify Error Counter",
        0x06 => "Non-Medium Error",
        0x0d => "Temperature",
        0x0e => "Start-Stop Cycle Counter",
        0x10 => "Self-Test results",
        0x2f => "Informational Exceptions",
        0x30..=0x3e => "(Vendor-Specific)",
        0x3f => "(Reserved)",
        _ => "?",
    }
}

/// The value of a counter parameter: its bytes read big-endian, where they
/// fit in 64 bits (longer values are read when their leading bytes are
/// zero). An empty value gives none.
pub open spec fn counter_value(v: Seq<u8>) -> Option<u64> {
    if v.len() == 0 {
        None
    } else if v.len() > 8 && exists|k: int| 0 <= k < v.len() - 8 && v[k] != 0 {
        None
    } else {
        let off = if v.len() > 8 { v.len() - 8 } else { 0 };
        Some(be_value(v.subrange(off, v.len() as int)) as u64)
    }
}

/// `s` with the entry for counter `c` set to `v`: in place where `c` has an
/// entry, else appended.
pub open spec fn put(s: Seq<(ErrorCounter, u64)>, c: ErrorCounter, v: u64) -> Seq<(ErrorCounter, u64)>
    decreases s.len(),
{
    if s.len() == 0 {
        seq![(c, v)]
    } else if s[0].0 == c {
        seq![(c, v)] + s.drop_first()
    } else {
        seq![s[0]] + put(s.drop_first(), c, v)
    }
}

/// The counters that the first `n` parameters of an error counter page
/// give: one entry per counter, in the order of first appearance, holding
/// the value of the last parameter for it.
pub open spec fn counters_upto(ps: Seq<ParameterView>, n: int) -> Seq<(ErrorCounter, u64)>
    decreases n,
{
    if n <= 0 {
        seq![]
    } else {
        let prev = counters_upto(ps, n - 1);
        match counter_value(ps[n - 1].value) {
            Some(v) => put(prev, counter_of(ps[n - 1].code), v),
            None => prev,
        }
    }
}

proof fn lemma_put_at(s: Seq<(ErrorCounter, u64)>, c: ErrorCounter, v: u64, j: int)
    requires
        0 <= j < s.len(),
        s[j].0 == c,
        forall|k: int| 0 <= k < j ==> s[k].0 != c,
    ensures
        put(s, c, v) == s.update(j, (c, v)),
    decreases j,
{
    if j == 0 {
        assert(seq![(c, v)] + s.drop_first() =~= s.update(0, (c, v)));
    } else {
        lemma_put_at(s.drop_first(), c, v, j - 1);
        assert(seq![s[0]] + s.drop_first().update(j - 1, (c, v)) =~= s.update(j, (c, v)));
    }
}

proof fn lemma_put_absent(s: Seq<(ErrorCounter, u64)>, c: ErrorCounter, v: u64)
    requires
        forall|k: int| 0 <= k < s.len() ==> s[k].0 != c,
    ensures
        put(s, c, v) == s.push((c, v)),
    decreases s.len(),
{
    if s.len() == 0 {
        assert(seq![(c, v)] =~= s.push((c, v)));
    } else {
        lemma_put_absent(s.drop_first(), c, v);
        assert(seq![s[0]] + s.drop_first().push((c, v)) =~= s.push((c, v)));
    }
}

fn put_counter(out: &mut Vec<(ErrorCounter, u64)>, c: ErrorCounter, v: u64)
    ensures
        final(out)@ == put(old(out)@, c, v),
{
    let mut j: usize = 0;
    while j < out.len()
        invariant
            out@ == old(out)@,
            j <= out@.len(),
            forall|k: int| 0 <= k < j ==> out@[k].0 != c,
        decreases out@.len() - j,
    {
        if out[j].0 == c {
            proof {
                lemma_put_at(out@, c, v, j as int);
            }
            out.set(j, (c, v));
            return;
        }
        j += 1;
    }
    proof {
        lemma_put_absent(out@, c, v);
    }
    out.push((c, v));
}

fn read_counter(v: &Vec<u8>) -> (r: Option<u64>)
    ensures
        r == counter_value(v@),
{
    let len = v.len();
    if len == 0 {
        return None;
    }
    let mut off: usize = 0;
    if len > 8 {
        while off < len - 8
            invariant
                len == v@.len(),
                len > 8,
                off <= len - 8,
                forall|k: int| 0 <= k < off ==> v@[k] == 0,
            decreases len - 8 - off,
        {
            if v[off] != 0 {
                return None;
            }
            off += 1;
        }
    }
    proof {
        crate::raw::lemma_be_fits(v@.subrange(off as int, len as int));
    }
    let tail = slice_subrange(v.as_slice(), off, len);
    proof {
        assert(tail@.take(tail@.len() as int) =~= tail@);
    }
    Some(read(tail, (len - off) * 8))
}

/// Interprets the parameters of an error counter page (pages 02h to 05h):
/// for each counter with a parameter whose value fits in 64 bits, the value
/// of the last such parameter; counters come in the order they first
/// appear.
pub fn error_counters(params: &Vec<Parameter>) -> (r: Vec<(ErrorCounter, u64)>)
    ensures
        r@ == counters_upto(params_view(params@), params@.len() as int),
{
    let ghost ps = params_view(params@);
    let mut out: Vec<(ErrorCounter, u64)> = Vec::new();
    let mut i: usize = 0;
    while i < params.len()
        invariant
            ps == params_view(params@),
            i <= params@.len(),
            out@ == counters_upto(ps, i as int),
        decreases params@.len() - i,
    {
        let p = &params[i];
        proof {
            assert(ps[i as int] == p@);
        }
        match read_counter(&p.value) {
            Some(v) => put_counter(&mut out, ErrorCounter::from_code(p.code), v),
            None => {},
        }
        i += 1;
    }
    out
}

/// The count of the first parameter from index `i` on with code 0 and a
/// value, where that value fits in 64 bits.
pub open spec fn first_count(ps: Seq<ParameterView>, i: int) -> Option<u64>
    decreases ps.len() - i,
{
    if i < 0 || i >= ps.len() {
        None
    } else if ps[i].value.len() != 0 && ps[i].code == 0 {
        counter_value(ps[i].value)
    } else {
        first_count(ps, i + 1)
    }
}

/// Interprets the parameters of the Non-Medium Error page (06h): the count
/// of its first non-empty parameter with code 0.
pub fn non_medium_error_count(params: &Vec<Parameter>) -> (r: Option<u64>)
    ensures
        r == first_count(params_view(params@), 0),
{
    let ghost ps = params_view(params@);
    let mut i: usize = 0;
    while i < params.len()
        invariant
            ps == params_view(params@),
            i <= params@.len(),
            first_count(ps, 0) == first_count(ps, i as int),
        decreases params@.len() - i,
    {
        let p = &params[i];
        proof {
            assert(ps[i as int] == p@);
        }
        if p.value.len() != 0 && p.code == 0 {
            return read_counter(&p.value);
        }
        i += 1;
    }
    None
}

/// The reading of the last of the first `n` parameters with code `code` and
/// at least two bytes; 0xff means the device could not read it.
pub open spec fn reading(ps: Seq<ParameterView>, n: int, code: u16) -> Option<u8>
    decreases n,
{
    if n <= 0 {
        None
    } else if ps[n - 1].code == code && ps[n - 1].value.len() >= 2 {
        if ps[n - 1].value[1] == 0xff {
            None
        } else {
            Some(ps[n - 1].value[1])
        }
    } else {
        reading(ps, n - 1, code)
    }
}

/// Interprets the parameters of the Temperature page (0Dh): the current
/// temperature and the reference temperature, in degrees Celsius.
pub fn temperature(params: &Vec<Parameter>) -> (r: (Option<u8>, Option<u8>))
    ensures
        r.0 == reading(params_view(params@), params@.len() as int, 0),
        r.1 == reading(params_view(params@), params@.len() as int, 1),
{
    let ghost ps = params_view(params@);
    let mut temp: Option<u8> = None;
    let mut ref_temp: Option<u8> = None;
    let mut i: usize = 0;
    while i < params.len()
        invariant
            ps == params_view(params@),
            i <= params@.len(),
            temp == reading(ps, i as int, 0),
            ref_temp == reading(ps, i as int, 1),
        decreases params@.len() - i,
    {
        let p = &params[i];
        proof {
            assert(ps[i as int] == p@);
        }
        if p.value.len() >= 2 {
            let value = if p.value[1] == 0xff {
                None
            } else {
                Some(p.value[1])
            };
            if p.code == 0 {
                temp = value;
            } else if p.code == 1 {
                ref_temp = value;
            }
        }
        i += 1;
    }
    (temp, ref_temp)
}

/// A date as year and week, both in ASCII digits.
#[derive(Debug)]
pub struct Date {
    pub year: String,
    pub week: String,
}

/// The dates and cycle counters of the Start-Stop Cycle Counter page.
#[derive(Debug)]
pub struct DatesAndCycleCounters {
    pub manufacturing_date: Option<Date>,
    pub accounting_date: Option<Date>,
    pub lifetime_start_stop_cycles: Option<u32>,
    pub start_stop_cycles: Option<u32>,
    pub lifetime_load_unload_cycles: Option<u32>,
    pub load_unload_cycles: Option<u32>,
}

/// The value of the last of the first `n` parameters with code `code` and
/// at least `min` bytes.
pub open spec fn last_value(ps: Seq<ParameterView>, n: int, code: u16, min: int) -> Option<Seq<u8>>
    decreases n,
{
    if n <= 0 {
        None
    } else if ps[n - 1].code == code && ps[n - 1].value.len() >= min {
        Some(ps[n - 1].value)
    } else {
        last_value(ps, n - 1, code, min)
    }
}

/// Bytes as the characters of the same code.
pub open spec fn ascii(b: Seq<u8>) -> Seq<char> {
    b.map_values(|x: u8| x as char)
}

/// Whether `d` is the date that the six bytes of `v` give.
pub open spec fn date_is(d: Option<Date>, v: Option<Seq<u8>>) -> bool {
    match (d, v) {
        (None, None) => true,
        (Some(d), Some(v)) => d.year@ == ascii(v.subrange(0, 4)) && d.week@ == ascii(v.subrange(4, 6)),
        _ => false,
    }
}

/// The cycle count that the four bytes of `v` give.
pub open spec fn cycles(v: Option<Seq<u8>>) -> Option<u32> {
    match v {
        Some(v) => Some(be_value(v.subrange(0, 4)) as u32),
        None => None,
    }
}

fn ascii_string(v: &Vec<u8>, start: usize, end: usize) -> (r: String)
    requires
        start <= end <= v@.len(),
    ensures
        r@ == ascii(v@.subrange(start as int, end as int)),
{
    let mut cs: Vec<char> = Vec::new();
    let mut k: usize = start;
    while k < end
        invariant
            start <= k <= end <= v@.len(),
            cs@ == ascii(v@.subrange(start as int, k as int)),
        decreases end - k,
    {
        cs.push(v[k] as char);
        k += 1;
        proof {
            assert(cs@ =~= ascii(v@.subrange(start as int, k as int)));
        }
    }
    string_of(cs.as_slice())
}

fn date(v: &Vec<u8>) -> (r: Date)
    requires
        v@.len() >= 6,
    ensures
        date_is(Some(r), Some(v@)),
{
    Date { year: ascii_string(v, 0, 4), week: ascii_string(v, 4, 6) }
}

fn cycle_count(v: &Vec<u8>) -> (r: u32)
    requires
        v@.len() >= 4,
    ensures
        Some(r) == cycles(Some(v@)),
{
    let b = slice_subrange(v.as_slice(), 0, 4);
    proof {
        assert(b@.take(4) =~= b@);
        lemma_be_four(b@);
    }
    read(b, 32) as u32
}

/// Interprets the parameters of the Start-Stop Cycle Counter page (0Eh);
/// where a parameter comes more than once, the last one counts.
pub fn dates_and_cycle_counters(params: &Vec<Parameter>) -> (r: DatesAndCycleCounters)
    ensures
        date_is(r.manufacturing_date, last_value(params_view(params@), params@.len() as int, 1, 6)),
        date_is(r.accounting_date, last_value(params_view(params@), params@.len() as int, 2, 6)),
        r.lifetime_start_stop_cycles == cycles(last_value(params_view(params@), params@.len() as int, 3, 4)),
        r.start_stop_cycles == cycles(last_value(params_view(params@), params@.len() as int, 4, 4)),
        r.lifetime_load_unload_cycles == cycles(last_value(params_view(params@), params@.len() as int, 5, 4)),
        r.load_unload_cycles == cycles(last_value(params_view(params@), params@.len() as int, 6, 4)),
{
    let ghost ps = params_view(params@);
    let mut result = DatesAndCycleCounters {
        manufacturing_date: None,
        accounting_date: None,
        lifetime_start_stop_cycles: None,
        start_stop_cycles: None,
        lifetime_load_unload_cycles: None,
        load_unload_cycles: None,
    };
    let mut i: usize = 0;
    while i < params.len()
        invariant
            ps == params_view(params@),
            i <= params@.len(),
            date_is(result.manufacturing_date, last_value(ps, i as int, 1, 6)),
            date_is(result.accounting_date, last_value(ps, i as int, 2, 6)),
            result.lifetime_start_stop_cycles == cycles(last_value(ps, i as int, 3, 4)),
            result.start_stop_cycles == cycles(last_value(ps, i as int, 4, 4)),
            result.lifetime_load_unload_cycles == cycles(last_value(ps, i as int, 5, 4)),
            result.load_unload_cycles == cycles(last_value(ps, i as int, 6, 4)),
        decreases params@.len() - i,
    {
        let p = &params[i];
        proof {
            assert(ps[i as int] == p@);
        }
        let n = p.value.len();
        if p.code == 1 && n >= 6 {
            result.manufacturing_date = Some(date(&p.value));
        } else if p.code == 2 && n >= 6 {
            result.accounting_date = Some(date(&p.value));
        } else if p.code == 3 && n >= 4 {
            result.lifetime_start_stop_cycles = Some(cycle_count(&p.value));
        } else if p.code == 4 && n >= 4 {
            result.start_stop_cycles = Some(cycle_count(&p.value));
        } else if p.code == 5 && n >= 4 {
            result.lifetime_load_unload_cycles = Some(cycle_count(&p.value));
        } else if p.code == 6 && n >= 4 {
            result.load_unload_cycles = Some(cycle_count(&p.value));
        }
        i += 1;
    }
    result
}

/// The outcome of one self-test.
#[derive(Clone, Copy, Debug, PartialEq, Eq, Structural)]
pub enum SelfTestResult {
    NoError,
    /// Aborted by a command (`explicitly`) or by a reset.
    Aborted { explicitly: bool },
    UnknownError,
    /// A segment of the test failed.
    Failed,
    InProgress,
    Reserved(u8),
}

/// One entry of the self-test log.
#[derive(Clone, Copy, Debug, PartialEq, Eq, Structural)]
pub struct SelfTest {
    pub result: SelfTestResult,
    pub code: u8,
    pub number: u8,
    pub power_on_hours: u16,
    pub first_failure_lba: u64,
    pub sense_key: u8,
    pub sense_asc: u8,
    pub sense_ascq: u8,
    pub vendor_specific: u8,
}

/// The outcome that the low three bits of a self-test entry give.
pub open spec fn result_of(b: u8) -> SelfTestResult {
    let x = b & 0x07;
    if x == 0 {
        SelfTestResult::NoError
    } else if x == 1 {
        SelfTestResult::Aborted { explicitly: true }
    } else if x == 2 {
        SelfTestResult::Aborted { explicitly: false }
    } else if x == 3 {
        SelfTestResult::UnknownError
    } else if 4 <= x <= 7 {
        SelfTestResult::Failed
    } else if x == 15 {
        SelfTestResult::InProgress
    } else {
        SelfTestResult::Reserved(x)
    }
}

/// The self-test that a parameter of the self-test log holds, if it holds
/// one: its code is 1 to 20, its value is at least 16 bytes and not all
/// zero.
pub open spec fn self_test_of(p: ParameterView) -> Option<SelfTest> {
    let v = p.value;
    if p.code == 0 || p.code > 0x14 || v.len() < 16 || forall|k: int| 0 <= k < v.len() ==> v[k] == 0 {
        None
    } else {
        Some(SelfTest {
            result: result_of(v[0]),
            code: (v[0] & 0xe0) >> 5,
            number: v[1],
            power_on_hours: be_value(v.subrange(2, 4)) as u16,
            first_failure_lba: be_value(v.subrange(4, 12)) as u64,
            sense_key: v[12] & 0x0f,
            sense_asc: v[13],
            sense_ascq: v[14],
            vendor_specific: v[15],
        })
    }
}

/// The self-tests of the first `n` parameters, in order.
pub open spec fn self_tests_upto(ps: Seq<ParameterView>, n: int) -> Seq<SelfTest>
    decreases n,
{
    if n <= 0 {
        seq![]
    } else {
        match self_test_of(ps[n - 1]) {
            Some(t) => self_tests_upto(ps, n - 1).push(t),
            None => self_tests_upto(ps, n - 1),
        }
    }
}

fn self_test_result(b: u8) -> (r: SelfTestResult)
    ensures
        r == result_of(b),
{
    match b & 0x07 {
        0 => SelfTestResult::NoError,
        1 => SelfTestResult::Aborted { explicitly: true },
        2 => SelfTestResult::Aborted { explicitly: false },
        3 => SelfTestResult::UnknownError,
        4..=7 => SelfTestResult::Failed,
        15 => SelfTestResult::InProgress,
        x => SelfTestResult::Reserved(x),
    }
}

fn self_test(p: &Parameter) -> (r: Option<SelfTest>)
    ensures
        r == self_test_of(p@),
{
    let v = &p.value;
    if p.code == 0 || p.code > 0x14 || v.len() < 16 {
        return None;
    }
    let mut k: usize = 0;
    while k < v.len() && v[k] == 0
        invariant
            k <= v@.len(),
            forall|j: int| 0 <= j < k ==> v@[j] == 0,
        decreases v@.len() - k,
    {
        k += 1;
    }
    if k == v.len() {
        return None;
    }
    let hours = slice_subrange(v.as_slice(), 2, 4);
    let lba = slice_subrange(v.as_slice(), 4, 12);
    proof {
        assert(hours@.take(2) =~= hours@);
        assert(lba@.take(8) =~= lba@);
        crate::raw::lemma_be_two(hours@);
        crate::raw::lemma_be_fits(lba@);
    }
    Some(SelfTest {
        result: self_test_result(v[0]),
        code: (v[0] & 0xe0) >> 5,
        number: v[1],
        power_on_hours: read(hours, 16) as u16,
        first_failure_lba: read(lba, 64),
        sense_key: v[12] & 0x0f,
        sense_asc: v[13],
        sense_ascq: v[14],
        vendor_specific: v[15],
    })
}

/// Interprets the parameters of the Self-Test results page (10h): one
/// entry per used log parameter, in order.
pub fn self_test_results(params: &Vec<Parameter>) -> (r: Vec<SelfTest>)
    ensures
        r@ == self_tests_upto(params_view(params@), params@.len() as int),
{
    let ghost ps = params_view(params@);
    let mut out: Vec<SelfTest> = Vec::new();
    let mut i: usize = 0;
    while i < params.len()
        invariant
            ps == params_view(params@),
            i <= params@.len(),
            out@ == self_tests_upto(ps, i as int),
        decreases params@.len() - i,
    {
        let p = &params[i];
        proof {
            assert(ps[i as int] == p@);
        }
        match self_test(p) {
            Some(t) => out.push(t),
            None => {},
        }
        i += 1;
    }
    out
}

/// An informational exception condition.
#[derive(Debug)]
pub struct InformationalException {
    pub asc: u8,
    pub ascq: u8,
    pub recent_temperature_reading: Option<u8>,
    pub vendor_specific: Vec<u8>,
}

/// An exception as its codes, temperature reading and vendor bytes.
pub open spec fn exception_view(e: InformationalException) -> (u8, u8, Option<u8>, Seq<u8>) {
    (e.asc, e.ascq, e.recent_temperature_reading, e.vendor_specific@)
}

/// The exceptions of the first `n` parameters: one for each with code 0
/// and at least three bytes.
pub open spec fn exceptions_upto(ps: Seq<ParameterView>, n: int) -> Seq<(u8, u8, Option<u8>, Seq<u8>)>
    decreases n,
{
    if n <= 0 {
        seq![]
    } else {
        let v = ps[n - 1].value;
        if ps[n - 1].code == 0 && v.len() >= 3 {
            exceptions_upto(ps, n - 1).push(
                (v[0], v[1], if v[2] == 0xff { None } else { Some(v[2]) }, v.subrange(3, v.len() as int)),
            )
        } else {
            exceptions_upto(ps, n - 1)
        }
    }
}

/// Interprets the parameters of the Informational Exceptions page (2Fh).
pub fn informational_exceptions(params: &Vec<Parameter>) -> (r: Vec<InformationalException>)
    ensures
        r@.map_values(|e: InformationalException| exception_view(e)) == exceptions_upto(
            params_view(params@),
            params@.len() as int,
        ),
{
    let ghost ps = params_view(params@);
    let mut out: Vec<InformationalException> = Vec::new();
    let mut i: usize = 0;
    while i < params.len()
        invariant
            ps == params_view(params@),
            i <= params@.len(),
            out@.map_values(|e: InformationalException| exception_view(e)) == exceptions_upto(ps, i as int),
        decreases params@.len() - i,
    {
        let p = &params[i];
        proof {
            assert(ps[i as int] == p@);
        }
        let v = &p.value;
        if p.code == 0 && v.len() >= 3 {
            let e = InformationalException {
                asc: v[0],
                ascq: v[1],
                recent_temperature_reading: if v[2] == 0xff {
                    None
                } else {
                    Some(v[2])
                },
                vendor_specific: vstd::slice::slice_to_vec(slice_subrange(v.as_slice(), 3, v.len())),
            };
            let ghost before = out@;
            out.push(e);
            proof {
                assert(out@.map_values(|e: InformationalException| exception_view(e)) =~= before.map_values(
                    |e: InformationalException| exception_view(e),
                ).push(exception_view(e)));
            }
        }
        i += 1;
    }
    out
}

} // verus!
