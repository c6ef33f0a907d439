//! Attribute rules and the parser for their compact textual form
//! `id,format[:byteorder][,name[,HDD|SSD]]`.

use vstd::prelude::*;
use vstd::string::StringExecFns;
use crate::display::{decimal, digit, push_decimal, push_text};
use crate::text::{chars_of, span_is, span_string, string_of, whole_is};

verus! {

/// The kind of drive a rule is restricted to.
#[derive(Clone, Copy, Debug, PartialEq, Eq, Structural)]
pub enum Type {
    HDD,
    SSD,
}

/// How the reordered raw bytes of an attribute are interpreted.
#[derive(Clone, Copy, Debug, PartialEq, Eq, Structural)]
pub enum RawFormat {
    Raw8,
    Raw16,
    Raw48,
    Hex48,
    Raw56,
    Hex56,
    Raw64,
    Hex64,
    Raw16OptRaw16,
    Raw16OptAvg16,
    Raw24OptRaw8,
    Raw24DivRaw24,
    Raw24DivRaw32,
    Sec2Hour,
    Min2Hour,
    HalfMin2Hour,
    Msec24Hour32,
    TempMinMax,
    Temp10x,
}

/// The token that names `f` in rule text.
pub open spec fn format_name(f: RawFormat) -> Seq<char> {
    match f {
        RawFormat::Raw8 => "raw8"@,
        RawFormat::Raw16 => "raw16"@,
        RawFormat::Raw48 => "raw48"@,
        RawFormat::Hex48 => "hex48"@,
        RawFormat::Raw56 => "raw56"@,
        RawFormat::Hex56 => "hex56"@,
        RawFormat::Raw64 => "raw64"@,
        RawFormat::Hex64 => "hex64"@,
        RawFormat::Raw16OptRaw16 => "raw16(raw16)"@,
        RawFormat::Raw16OptAvg16 => "raw16(avg16)"@,
        RawFormat::Raw24OptRaw8 => "raw24(raw8)"@,
        RawFormat::Raw24DivRaw24 => "raw24/raw24"@,
        RawFormat::Raw24DivRaw32 => "raw24/raw32"@,
        RawFormat::Sec2Hour => "sec2hour"@,
        RawFormat::Min2Hour => "min2hour"@,
        RawFormat::HalfMin2Hour => "halfmin2hour"@,
        RawFormat::Msec24Hour32 => "msec24hour32"@,
        RawFormat::TempMinMax => "tempminmax"@,
        RawFormat::Temp10x => "temp10x"@,
    }
}

/// The byte order a format uses when a rule gives none.
pub open spec fn default_order(f: RawFormat) -> Seq<char> {
    match f {
        RawFormat::Raw64 | RawFormat::Hex64 => "543210wv"@,
        RawFormat::Raw56 | RawFormat::Hex56 | RawFormat::Raw24DivRaw32
        | RawFormat::Msec24Hour32 => "r543210"@,
        _ => "543210"@,
    }
}

/// Every default byte order selects between one and eight bytes.
pub proof fn lemma_default_order_len(f: RawFormat)
    ensures
        0 < default_order(f).len() <= 8,
{
    reveal_strlit("543210wv");
    reveal_strlit("r543210");
    reveal_strlit("543210");
}

impl RawFormat {
    /// The token that names this format in rule text.
    pub fn name(&self) -> (r: &'static str)
        ensures
            r@ == format_name(*self),
    {
        match self {
            RawFormat::Raw8 => "raw8",
            RawFormat::Raw16 => "raw16",
            RawFormat::Raw48 => "raw48",
            RawFormat::Hex48 => "hex48",
            RawFormat::Raw56 => "raw56",
            RawFormat::Hex56 => "hex56",
            RawFormat::Raw64 => "raw64",
            RawFormat::Hex64 => "hex64",
            RawFormat::Raw16OptRaw16 => "raw16(raw16)",
            RawFormat::Raw16OptAvg16 => "raw16(avg16)",
            RawFormat::Raw24OptRaw8 => "raw24(raw8)",
            RawFormat::Raw24DivRaw24 => "raw24/raw24",
            RawFormat::Raw24DivRaw32 => "raw24/raw32",
            RawFormat::Sec2Hour => "sec2hour",
            RawFormat::Min2Hour => "min2hour",
            RawFormat::HalfMin2Hour => "halfmin2hour",
            RawFormat::Msec24Hour32 => "msec24hour32",
            RawFormat::TempMinMax => "tempminmax",
            RawFormat::Temp10x => "temp10x",
        }
    }

    /// The byte order this format uses when a rule gives none.
    pub fn default_byte_order(&self) -> (r: &'static str)
        ensures
            r@ == default_order(*self),
    {
        match self {
            RawFormat::Raw64 | RawFormat::Hex64 => "543210wv",
            RawFormat::Raw56 | RawFormat::Hex56 | RawFormat::Raw24DivRaw32
            | RawFormat::Msec24Hour32 => "r543210",
            _ => "543210",
        }
    }
}

/// One rendering rule for one attribute id.
#[derive(Clone, Debug, PartialEq, Eq)]
pub struct Attribute {
    pub id: Option<u8>,
    pub name: Option<String>,
    pub format: RawFormat,
    pub byte_order: String,
    pub drivetype: Option<Type>,
}

/// The content of an [`Attribute`], with text as character sequences.
pub struct AttributeView {
    pub id: Option<u8>,
    pub name: Option<Seq<char>>,
    pub format: RawFormat,
    pub byte_order: Seq<char>,
    pub drivetype: Option<Type>,
}

impl View for Attribute {
    type V = AttributeView;

    open spec fn view(&self) -> AttributeView {
        AttributeView {
            id: self.id,
            name: match self.name {
                Some(n) => Some(n@),
                None => None,
            },
            format: self.format,
            byte_order: self.byte_order@,
            drivetype: self.drivetype,
        }
    }
}

impl Attribute {
    /// An identical copy of this rule.
    pub fn duplicate(&self) -> (r: Attribute)
        ensures
            r == *self,
    {
        Attribute {
            id: self.id,
            name: match &self.name {
                Some(n) => Some(n.clone()),
                None => None,
            },
            format: self.format,
            byte_order: self.byte_order.clone(),
            drivetype: self.drivetype,
        }
    }
}

/// Which part of a rule's text is malformed.
#[derive(Clone, Copy, Debug, PartialEq, Eq, Structural)]
pub enum ParseError {
    /// The id is not a number from 0 to 255.
    BadId,
    /// The format is missing or unknown.
    BadFormat,
    /// The byte order is empty or holds only pad tokens.
    BadByteOrder,
    /// What follows the name is not `HDD` or `SSD`.
    Trailing,
}

/// The text that explains a rule parse error.
pub open spec fn parse_error_text(e: ParseError) -> Seq<char> {
    match e {
        ParseError::BadId => "attribute id is not a number from 0 to 255"@,
        ParseError::BadFormat => "raw value format is missing or unknown"@,
        ParseError::BadByteOrder => "byte order is empty, invalid or only padding"@,
        ParseError::Trailing => "drive type after the name is not HDD or SSD"@,
    }
}

impl ParseError {
    /// What is wrong, in words.
    pub fn message(&self) -> (r: &'static str)
        ensures
            r@ == parse_error_text(*self),
    {
        match self {
            ParseError::BadId => "attribute id is not a number from 0 to 255",
            ParseError::BadFormat => "raw value format is missing or unknown",
            ParseError::BadByteOrder => "byte order is empty, invalid or only padding",
            ParseError::Trailing => "drive type after the name is not HDD or SSD",
        }
    }
}

/// The first index from `i` on where `s` holds `d1` or `d2`, or the length
/// of `s`.
pub open spec fn upto(s: Seq<char>, i: int, d1: char, d2: char) -> int
    decreases s.len() - i,
{
    if i >= s.len() {
        s.len() as int
    } else if s[i] == d1 || s[i] == d2 {
        i
    } else {
        upto(s, i + 1, d1, d2)
    }
}

proof fn lemma_upto(s: Seq<char>, i: int, d1: char, d2: char)
    requires
        0 <= i <= s.len(),
    ensures
        i <= upto(s, i, d1, d2) <= s.len(),
        upto(s, i, d1, d2) < s.len() ==> (s[upto(s, i, d1, d2)] == d1 || s[upto(s, i, d1, d2)] == d2),
        forall|k: int| i <= k < upto(s, i, d1, d2) ==> s[k] != d1 && s[k] != d2,
    decreases s.len() - i,
{
    if i < s.len() && !(s[i] == d1 || s[i] == d2) {
        lemma_upto(s, i + 1, d1, d2);
    }
}

/// Whether `c` is a decimal digit.
pub open spec fn is_digit(c: char) -> bool {
    '0' <= c <= '9'
}

/// The number that the decimal digits `t` spell.
pub open spec fn digits_value(t: Seq<char>) -> nat
    decreases t.len(),
{
    if t.len() == 0 {
        0
    } else {
        digits_value(t.drop_last()) * 10 + (t.last() as nat - '0' as nat) as nat
    }
}

/// Whether `t` is a valid attribute id: one to three digits, at most 255.
pub open spec fn is_id(t: Seq<char>) -> bool {
    &&& 1 <= t.len() <= 3
    &&& forall|k: int| 0 <= k < t.len() ==> is_digit(#[trigger] t[k])
    &&& digits_value(t) <= 255
}

/// The format that token `t` names.
pub open spec fn format_of(t: Seq<char>) -> Option<RawFormat> {
    if t == "raw8"@ {
        Some(RawFormat::Raw8)
    } else if t == "raw16"@ {
        Some(RawFormat::Raw16)
    } else if t == "raw48"@ {
        Some(RawFormat::Raw48)
    } else if t == "hex48"@ {
        Some(RawFormat::Hex48)
    } else if t == "raw56"@ {
        Some(RawFormat::Raw56)
    } else if t == "hex56"@ {
        Some(RawFormat::Hex56)
    } else if t == "raw64"@ {
        Some(RawFormat::Raw64)
    } else if t == "hex64"@ {
        Some(RawFormat::Hex64)
    } else if t == "raw16(raw16)"@ {
        Some(RawFormat::Raw16OptRaw16)
    } else if t == "raw16(avg16)"@ {
        Some(RawFormat::Raw16OptAvg16)
    } else if t == "raw24(raw8)"@ {
        Some(RawFormat::Raw24OptRaw8)
    } else if t == "raw24/raw24"@ {
        Some(RawFormat::Raw24DivRaw24)
    } else if t == "raw24/raw32"@ {
        Some(RawFormat::Raw24DivRaw32)
    } else if t == "sec2hour"@ {
        Some(RawFormat::Sec2Hour)
    } else if t == "min2hour"@ {
        Some(RawFormat::Min2Hour)
    } else if t == "halfmin2hour"@ {
        Some(RawFormat::HalfMin2Hour)
    } else if t == "msec24hour32"@ {
        Some(RawFormat::Msec24Hour32)
    } else if t == "tempminmax"@ {
        Some(RawFormat::TempMinMax)
    } else if t == "temp10x"@ {
        Some(RawFormat::Temp10x)
    } else {
        None
    }
}

/// Whether byte-order token `c` selects a byte of the slot: a raw byte,
/// `v`, `w` or `r`. Any other token is a zero pad byte.
pub open spec fn is_byte_token(c: char) -> bool {
    ('0' <= c <= '5') || c == 'v' || c == 'w' || c == 'r'
}

/// Whether `o` is a valid explicit byte order: not empty, and not made of
/// pad tokens alone.
pub open spec fn valid_order(o: Seq<char>) -> bool {
    exists|k: int| 0 <= k < o.len() && is_byte_token(#[trigger] o[k])
}

/// The rule that `s`, from index `rest` on, completes; `rest` is where the
/// part after the format and byte order starts.
pub open spec fn parsed_tail(s: Seq<char>, id: u8, format: RawFormat, order: Seq<char>, rest: int) -> Result<AttributeView, ParseError> {
    let plain = AttributeView { id: Some(id), name: None, format, byte_order: order, drivetype: None };
    if rest >= s.len() {
        Ok(plain)
    } else {
        let name_end = upto(s, rest + 1, ',', ',');
        let name = s.subrange(rest + 1, name_end);
        let named = AttributeView {
            name: if name.len() == 0 { None } else { Some(name) },
            ..plain
        };
        if name_end >= s.len() {
            Ok(named)
        } else {
            let kind = s.subrange(name_end + 1, s.len() as int);
            if kind == "HDD"@ {
                Ok(AttributeView { drivetype: Some(Type::HDD), ..named })
            } else if kind == "SSD"@ {
                Ok(AttributeView { drivetype: Some(Type::SSD), ..named })
            } else {
                Err(ParseError::Trailing)
            }
        }
    }
}

/// The rule that the text `s` describes in the general form, or which part
/// of it is malformed.
pub open spec fn parsed_rule(s: Seq<char>) -> Result<AttributeView, ParseError> {
    let comma = upto(s, 0, ',', ',');
    if !is_id(s.subrange(0, comma)) {
        Err(ParseError::BadId)
    } else if comma >= s.len() {
        Err(ParseError::BadFormat)
    } else {
        let id = digits_value(s.subrange(0, comma)) as u8;
        let f_end = upto(s, comma + 1, ':', ',');
        match format_of(s.subrange(comma + 1, f_end)) {
            None => Err(ParseError::BadFormat),
            Some(format) => if f_end < s.len() && s[f_end] == ':' {
                let o_end = upto(s, f_end + 1, ',', ',');
                let order = s.subrange(f_end + 1, o_end);
                if valid_order(order) {
                    parsed_tail(s, id, format, order, o_end)
                } else {
                    Err(ParseError::BadByteOrder)
                }
            } else {
                parsed_tail(s, id, format, default_order(format), f_end)
            },
        }
    }
}

/// The general form of the older shorthand `s`, where it is one.
pub open spec fn legacy_form(s: Seq<char>) -> Option<Seq<char>> {
    if s == "9,halfminutes"@ {
        Some("9,halfmin2hour,Power_On_Half_Minutes"@)
    } else if s == "9,minutes"@ {
        Some("9,min2hour,Power_On_Minutes"@)
    } else if s == "9,seconds"@ {
        Some("9,sec2hour,Power_On_Seconds"@)
    } else if s == "9,temp"@ {
        Some("9,tempminmax,Temperature_Celsius"@)
    } else if s == "192,emergencyretractcyclect"@ {
        Some("192,raw48,Emerg_Retract_Cycle_Ct"@)
    } else if s == "193,loadunload"@ {
        Some("193,raw24/raw24"@)
    } else if s == "194,10xCelsius"@ {
        Some("194,temp10x,Temperature_Celsius_x10"@)
    } else if s == "194,unknown"@ {
        Some("194,raw48,Unknown_Attribute"@)
    } else if s == "198,offlinescanuncsectorct"@ {
        Some("198,raw48,Offline_Scan_UNC_SectCt"@)
    } else if s == "200,writeerrorcount"@ {
        Some("200,raw48,Write_Error_Count"@)
    } else if s == "201,detectedtacount"@ {
        Some("201,raw48,Detected_TA_Count"@)
    } else if s == "220,temp"@ {
        Some("220,tempminmax,Temperature_Celsius"@)
    } else {
        None
    }
}

/// The rule that the text `s` describes, or which part of it is malformed.
pub open spec fn parsed(s: Seq<char>) -> Result<AttributeView, ParseError> {
    match legacy_form(s) {
        Some(t) => parsed_rule(t),
        None => parsed_rule(s),
    }
}

/// A parse result with text as character sequences.
pub open spec fn result_view(r: Result<Attribute, ParseError>) -> Result<AttributeView, ParseError> {
    match r {
        Ok(a) => Ok(a@),
        Err(e) => Err(e),
    }
}

fn scan_until(s: &Vec<char>, i: usize, d1: char, d2: char) -> (r: usize)
    requires
        i <= s@.len(),
    ensures
        r == upto(s@, i as int, d1, d2),
        i <= r <= s@.len(),
{
    proof {
        lemma_upto(s@, i as int, d1, d2);
    }
    let mut k: usize = i;
    while k < s.len() && s[k] != d1 && s[k] != d2
        invariant
            i <= k <= s@.len(),
            upto(s@, k as int, d1, d2) == upto(s@, i as int, d1, d2),
        decreases s@.len() - k,
    {
        k += 1;
    }
    k
}

fn id_value(s: &Vec<char>, end: usize) -> (r: Option<u8>)
    requires
        end <= s@.len(),
    ensures
        is_id(s@.subrange(0, end as int)) ==> r == Some(digits_value(s@.subrange(0, end as int)) as u8),
        !is_id(s@.subrange(0, end as int)) ==> r is None,
{
    if end == 0 || end > 3 {
        return None;
    }
    let mut v: u32 = 0;
    let mut k: usize = 0;
    while k < end
        invariant
            1 <= end <= 3,
            end <= s@.len(),
            k <= end,
            v == digits_value(s@.subrange(0, k as int)),
            v < 1000,
            k <= 1 ==> v < 10,
            k <= 2 ==> v < 100,
            forall|j: int| 0 <= j < k ==> is_digit(s@[j]),
        decreases end - k,
    {
        let c = s[k];
        if !('0' <= c && c <= '9') {
            proof {
                assert(!is_digit(s@.subrange(0, end as int)[k as int]));
            }
            return None;
        }
        proof {
            assert(s@.subrange(0, k + 1).drop_last() =~= s@.subrange(0, k as int));
        }
        v = v * 10 + (c as u32 - '0' as u32);
        k += 1;
    }
    proof {
        assert forall|j: int| 0 <= j < end implies is_digit(#[trigger] s@.subrange(0, end as int)[j]) by {
            assert(s@.subrange(0, end as int)[j] == s@[j]);
        }
    }
    if v > 255 {
        None
    } else {
        Some(v as u8)
    }
}

fn format_token(s: &Vec<char>, start: usize, end: usize) -> (r: Option<RawFormat>)
    requires
        start <= end <= s@.len(),
    ensures
        r == format_of(s@.subrange(start as int, end as int)),
{
    if span_is(s, start, end, "raw8") {
        Some(RawFormat::Raw8)
    } else if span_is(s, start, end, "raw16") {
        Some(RawFormat::Raw16)
    } else if span_is(s, start, end, "raw48") {
        Some(RawFormat::Raw48)
    } else if span_is(s, start, end, "hex48") {
        Some(RawFormat::Hex48)
    } else if span_is(s, start, end, "raw56") {
        Some(RawFormat::Raw56)
    } else if span_is(s, start, end, "hex56") {
        Some(RawFormat::Hex56)
    } else if span_is(s, start, end, "raw64") {
        Some(RawFormat::Raw64)
    } else if span_is(s, start, end, "hex64") {
        Some(RawFormat::Hex64)
    } else if span_is(s, start, end, "raw16(raw16)") {
        Some(RawFormat::Raw16OptRaw16)
    } else if span_is(s, start, end, "raw16(avg16)") {
        Some(RawFormat::Raw16OptAvg16)
    } else if span_is(s, start, end, "raw24(raw8)") {
        Some(RawFormat::Raw24OptRaw8)
    } else if span_is(s, start, end, "raw24/raw24") {
        Some(RawFormat::Raw24DivRaw24)
    } else if span_is(s, start, end, "raw24/raw32") {
        Some(RawFormat::Raw24DivRaw32)
    } else if span_is(s, start, end, "sec2hour") {
        Some(RawFormat::Sec2Hour)
    } else if span_is(s, start, end, "min2hour") {
        Some(RawFormat::Min2Hour)
    } else if span_is(s, start, end, "halfmin2hour") {
        Some(RawFormat::HalfMin2Hour)
    } else if span_is(s, start, end, "msec24hour32") {
        Some(RawFormat::Msec24Hour32)
    } else if span_is(s, start, end, "tempminmax") {
        Some(RawFormat::TempMinMax)
    } else if span_is(s, start, end, "temp10x") {
        Some(RawFormat::Temp10x)
    } else {
        None
    }
}

fn order_is_valid(s: &Vec<char>, start: usize, end: usize) -> (r: bool)
    requires
        start <= end <= s@.len(),
    ensures
        r == valid_order(s@.subrange(start as int, end as int)),
{
    let ghost o = s@.subrange(start as int, end as int);
    let mut k: usize = start;
    while k < end
        invariant
            start <= k <= end <= s@.len(),
            o == s@.subrange(start as int, end as int),
            forall|j: int| 0 <= j < k - start ==> !is_byte_token(#[trigger] o[j]),
        decreases end - k,
    {
        let c = s[k];
        proof {
            assert(o[k - start] == c);
        }
        if ('0' <= c && c <= '5') || c == 'v' || c == 'w' || c == 'r' {
            return true;
        }
        k += 1;
    }
    false
}

fn finish(s: &Vec<char>, id: u8, format: RawFormat, order: String, rest: usize) -> (r: Result<Attribute, ParseError>)
    requires
        rest <= s@.len(),
        rest < s@.len() ==> s@[rest as int] == ',',
    ensures
        result_view(r) == parsed_tail(s@, id, format, order@, rest as int),
{
    let plain = Attribute { id: Some(id), name: None, format, byte_order: order, drivetype: None };
    if rest >= s.len() {
        return Ok(plain);
    }
    let name_end = scan_until(s, rest + 1, ',', ',');
    let name = if name_end == rest + 1 {
        None
    } else {
        Some(span_string(s, rest + 1, name_end))
    };
    let named = Attribute { name, ..plain };
    if name_end >= s.len() {
        return Ok(named);
    }
    if span_is(s, name_end + 1, s.len(), "HDD") {
        Ok(Attribute { drivetype: Some(Type::HDD), ..named })
    } else if span_is(s, name_end + 1, s.len(), "SSD") {
        Ok(Attribute { drivetype: Some(Type::SSD), ..named })
    } else {
        Err(ParseError::Trailing)
    }
}

/// Parses a rule written `id,format[:byteorder][,name[,HDD|SSD]]`. Without
/// a byte order the format's default applies; an empty name counts as none.
/// The older shorthands of smartctl, such as `9,minutes`, stand for their
/// general form.
pub fn parse(s: &str) -> (r: Result<Attribute, ParseError>)
    ensures
        result_view(r) == parsed(s@),
{
    let cs = chars_of(s);
    parse_chars(&cs)
}

fn legacy(cs: &Vec<char>) -> (r: Option<&'static str>)
    ensures
        match r {
            Some(t) => legacy_form(cs@) == Some(t@),
            None => legacy_form(cs@) is None,
        },
{
    if whole_is(cs, "9,halfminutes") {
        Some("9,halfmin2hour,Power_On_Half_Minutes")
    } else if whole_is(cs, "9,minutes") {
        Some("9,min2hour,Power_On_Minutes")
    } else if whole_is(cs, "9,seconds") {
        Some("9,sec2hour,Power_On_Seconds")
    } else if whole_is(cs, "9,temp") {
        Some("9,tempminmax,Temperature_Celsius")
    } else if whole_is(cs, "192,emergencyretractcyclect") {
        Some("192,raw48,Emerg_Retract_Cycle_Ct")
    } else if whole_is(cs, "193,loadunload") {
        Some("193,raw24/raw24")
    } else if whole_is(cs, "194,10xCelsius") {
        Some("194,temp10x,Temperature_Celsius_x10")
    } else if whole_is(cs, "194,unknown") {
        Some("194,raw48,Unknown_Attribute")
    } else if whole_is(cs, "198,offlinescanuncsectorct") {
        Some("198,raw48,Offline_Scan_UNC_SectCt")
    } else if whole_is(cs, "200,writeerrorcount") {
        Some("200,raw48,Write_Error_Count")
    } else if whole_is(cs, "201,detectedtacount") {
        Some("201,raw48,Detected_TA_Count")
    } else if whole_is(cs, "220,temp") {
        Some("220,tempminmax,Temperature_Celsius")
    } else {
        None
    }
}

/// Parses a rule given as characters; see [`parse`].
pub fn parse_chars(cs: &Vec<char>) -> (r: Result<Attribute, ParseError>)
    ensures
        result_view(r) == parsed(cs@),
{
    match legacy(cs) {
        Some(t) => parse_rule_chars(&chars_of(t)),
        None => parse_rule_chars(cs),
    }
}

fn parse_rule_chars(cs: &Vec<char>) -> (r: Result<Attribute, ParseError>)
    ensures
        result_view(r) == parsed_rule(cs@),
{
    let comma = scan_until(cs, 0, ',', ',');
    let id = match id_value(cs, comma) {
        Some(id) => id,
        None => return Err(ParseError::BadId),
    };
    if comma >= cs.len() {
        return Err(ParseError::BadFormat);
    }
    let f_end = scan_until(cs, comma + 1, ':', ',');
    let format = match format_token(cs, comma + 1, f_end) {
        Some(f) => f,
        None => return Err(ParseError::BadFormat),
    };
    proof {
        lemma_upto(cs@, comma + 1, ':', ',');
    }
    if f_end < cs.len() && cs[f_end] == ':' {
        let o_end = scan_until(cs, f_end + 1, ',', ',');
        proof {
            lemma_upto(cs@, f_end + 1, ',', ',');
        }
        if !order_is_valid(cs, f_end + 1, o_end) {
            return Err(ParseError::BadByteOrder);
        }
        let order = span_string(cs, f_end + 1, o_end);
        finish(cs, id, format, order, o_end)
    } else {
        let order = String::from_str(format.default_byte_order());
        finish(cs, id, format, order, f_end)
    }
}

/// The text of a drive type in rule text.
pub open spec fn drive_type_text(t: Type) -> Seq<char> {
    match t {
        Type::HDD => "HDD"@,
        Type::SSD => "SSD"@,
    }
}

/// The text `id,format:byteorder[,name[,HDD|SSD]]` of a rule; an empty name
/// is written where only a drive type follows.
pub open spec fn rule_text(a: AttributeView) -> Seq<char> {
    let head = match a.id {
        Some(id) => decimal(id as nat),
        None => seq![],
    } + ","@ + format_name(a.format) + ":"@ + a.byte_order;
    match (a.name, a.drivetype) {
        (None, None) => head,
        (Some(n), None) => head + ","@ + n,
        (n, Some(t)) => head + ","@ + match n {
            Some(x) => x,
            None => seq![],
        } + ","@ + drive_type_text(t),
    }
}

impl Attribute {
    /// This rule as text, in the form that [`parse`] reads.
    pub fn to_text(&self) -> (r: String)
        ensures
            r@ == rule_text(self@),
    {
        let mut out: Vec<char> = Vec::new();
        if let Some(id) = self.id {
            push_decimal(&mut out, id as u64);
        }
        push_text(&mut out, ",");
        push_text(&mut out, self.format.name());
        push_text(&mut out, ":");
        push_text(&mut out, self.byte_order.as_str());
        match (&self.name, self.drivetype) {
            (None, None) => {},
            (Some(n), None) => {
                push_text(&mut out, ",");
                push_text(&mut out, n.as_str());
            },
            (n, Some(t)) => {
                push_text(&mut out, ",");
                if let Some(x) = n {
                    push_text(&mut out, x.as_str());
                }
                push_text(&mut out, ",");
                push_text(
                    &mut out,
                    match t {
                        Type::HDD => "HDD",
                        Type::SSD => "SSD",
                    },
                );
            },
        }
        proof {
            assert(out@ =~= rule_text(self@));
        }
        string_of(out.as_slice())
    }
}

/// Whether `s` holds neither `d1` nor `d2` from index `i` on.
pub open spec fn lacks(s: Seq<char>, i: int, d1: char, d2: char) -> bool
    decreases s.len() - i,
{
    if i < 0 || i >= s.len() {
        true
    } else {
        s[i] != d1 && s[i] != d2 && lacks(s, i + 1, d1, d2)
    }
}

proof fn lemma_lacks(s: Seq<char>, i: int, d1: char, d2: char)
    requires
        0 <= i,
        lacks(s, i, d1, d2),
    ensures
        forall|k: int| i <= k < s.len() ==> s[k] != d1 && s[k] != d2,
    decreases s.len() - i,
{
    if i < s.len() {
        lemma_lacks(s, i + 1, d1, d2);
    }
}

proof fn lemma_upto_at(s: Seq<char>, i: int, j: int, d1: char, d2: char)
    requires
        0 <= i <= j <= s.len(),
        forall|k: int| i <= k < j ==> s[k] != d1 && s[k] != d2,
        j == s.len() || s[j] == d1 || s[j] == d2,
    ensures
        upto(s, i, d1, d2) == j,
    decreases j - i,
{
    if i < j {
        lemma_upto_at(s, i + 1, j, d1, d2);
    }
}

proof fn lemma_decimal(n: nat)
    requires
        n < 1000,
    ensures
        1 <= decimal(n).len(),
        n < 10 ==> decimal(n).len() == 1,
        n < 100 ==> decimal(n).len() <= 2,
        decimal(n).len() <= 3,
        forall|k: int| 0 <= k < decimal(n).len() ==> is_digit(#[trigger] decimal(n)[k]),
        digits_value(decimal(n)) == n,
    decreases n,
{
    let d = digit(n % 10);
    assert(d as nat == n % 10 + 48);
    if n < 10 {
        assert(decimal(n) == seq![d]);
        assert(seq![d].drop_last() =~= Seq::<char>::empty());
        assert(digits_value(seq![d]) == digits_value(Seq::<char>::empty()) * 10 + (d as nat - '0' as nat) as nat);
    } else {
        lemma_decimal(n / 10);
        let s = decimal(n / 10);
        assert(decimal(n) == s.push(d));
        assert(s.push(d).drop_last() =~= s);
        assert(s.push(d).last() == d);
        assert(digits_value(s.push(d)) == digits_value(s) * 10 + (d as nat - '0' as nat) as nat);
        assert(n == (n / 10) * 10 + n % 10);
        assert forall|k: int| 0 <= k < s.push(d).len() implies is_digit(#[trigger] s.push(d)[k]) by {
            if k < s.len() {
                assert(s.push(d)[k] == s[k]);
            }
        }
    }
}

/// A format's name is at least four characters long, holds neither `:` nor
/// `,`, and reads back as the format.
proof fn lemma_format_name(f: RawFormat)
    ensures
        format_name(f).len() >= 4,
        lacks(format_name(f), 0, ':', ','),
        format_of(format_name(f)) == Some(f),
{
    reveal_with_fuel(lacks, 13);
    reveal_strlit("raw8");
    reveal_strlit("raw16");
    reveal_strlit("raw48");
    reveal_strlit("hex48");
    reveal_strlit("raw56");
    reveal_strlit("hex56");
    reveal_strlit("raw64");
    reveal_strlit("hex64");
    reveal_strlit("raw16(raw16)");
    reveal_strlit("raw16(avg16)");
    reveal_strlit("raw24(raw8)");
    reveal_strlit("raw24/raw24");
    reveal_strlit("raw24/raw32");
    reveal_strlit("sec2hour");
    reveal_strlit("min2hour");
    reveal_strlit("halfmin2hour");
    reveal_strlit("msec24hour32");
    reveal_strlit("tempminmax");
    reveal_strlit("temp10x");
    match f {
        RawFormat::Raw8 => {
        },
        RawFormat::Raw16 => {
            assert("raw16"@.len() != "raw8"@.len());
        },
        RawFormat::Raw48 => {
            assert("raw48"@.len() != "raw8"@.len());
            assert("raw48"@[3] != "raw16"@[3]);
        },
        RawFormat::Hex48 => {
            assert("hex48"@.len() != "raw8"@.len());
            assert("hex48"@[0] != "raw16"@[0]);
            assert("hex48"@[0] != "raw48"@[0]);
        },
        RawFormat::Raw56 => {
            assert("raw56"@.len() != "raw8"@.len());
            assert("raw56"@[3] != "raw16"@[3]);
            assert("raw56"@[3] != "raw48"@[3]);
            assert("raw56"@[0] != "hex48"@[0]);
        },
        RawFormat::Hex56 => {
            assert("hex56"@.len() != "raw8"@.len());
            assert("hex56"@[0] != "raw16"@[0]);
            assert("hex56"@[0] != "raw48"@[0]);
            assert("hex56"@[3] != "hex48"@[3]);
            assert("hex56"@[0] != "raw56"@[0]);
        },
        RawFormat::Raw64 => {
            assert("raw64"@.len() != "raw8"@.len());
            assert("raw64"@[3] != "raw16"@[3]);
            assert("raw64"@[3] != "raw48"@[3]);
            assert("raw64"@[0] != "hex48"@[0]);
            assert("raw64"@[3] != "raw56"@[3]);
            assert("raw64"@[0] != "hex56"@[0]);
        },
        RawFormat::Hex64 => {
            assert("hex64"@.len() != "raw8"@.len());
            assert("hex64"@[0] != "raw16"@[0]);
            assert("hex64"@[0] != "raw48"@[0]);
            assert("hex64"@[3] != "hex48"@[3]);
            assert("hex64"@[0] != "raw56"@[0]);
            assert("hex64"@[3] != "hex56"@[3]);
            assert("hex64"@[0] != "raw64"@[0]);
        },
        RawFormat::Raw16OptRaw16 => {
            assert("raw16(raw16)"@.len() != "raw8"@.len());
            assert("raw16(raw16)"@.len() != "raw16"@.len());
            assert("raw16(raw16)"@.len() != "raw48"@.len());
            assert("raw16(raw16)"@.len() != "hex48"@.len());
            assert("raw16(raw16)"@.len() != "raw56"@.len());
            assert("raw16(raw16)"@.len() != "hex56"@.len());
            assert("raw16(raw16)"@.len() != "raw64"@.len());
            assert("raw16(raw16)"@.len() != "hex64"@.len());
        },
        RawFormat::Raw16OptAvg16 => {
            assert("raw16(avg16)"@.len() != "raw8"@.len());
            assert("raw16(avg16)"@.len() != "raw16"@.len());
            assert("raw16(avg16)"@.len() != "raw48"@.len());
            assert("raw16(avg16)"@.len() != "hex48"@.len());
            assert("raw16(avg16)"@.len() != "raw56"@.len());
            assert("raw16(avg16)"@.len() != "hex56"@.len());
            assert("raw16(avg16)"@.len() != "raw64"@.len());
            assert("raw16(avg16)"@.len() != "hex64"@.len());
            assert("raw16(avg16)"@[6] != "raw16(raw16)"@[6]);
        },
        RawFormat::Raw24OptRaw8 => {
            assert("raw24(raw8)"@.len() != "raw8"@.len());
            assert("raw24(raw8)"@.len() != "raw16"@.len());
            assert("raw24(raw8)"@.len() != "raw48"@.len());
            assert("raw24(raw8)"@.len() != "hex48"@.len());
            assert("raw24(raw8)"@.len() != "raw56"@.len());
            assert("raw24(raw8)"@.len() != "hex56"@.len());
            assert("raw24(raw8)"@.len() != "raw64"@.len());
            assert("raw24(raw8)"@.len() != "hex64"@.len());
            assert("raw24(raw8)"@.len() != "raw16(raw16)"@.len());
            assert("raw24(raw8)"@.len() != "raw16(avg16)"@.len());
        },
        RawFormat::Raw24DivRaw24 => {
            assert("raw24/raw24"@.len() != "raw8"@.len());
            assert("raw24/raw24"@.len() != "raw16"@.len());
            assert("raw24/raw24"@.len() != "raw48"@.len());
            assert("raw24/raw24"@.len() != "hex48"@.len());
            assert("raw24/raw24"@.len() != "raw56"@.len());
            assert("raw24/raw24"@.len() != "hex56"@.len());
            assert("raw24/raw24"@.len() != "raw64"@.len());
            assert("raw24/raw24"@.len() != "hex64"@.len());
            assert("raw24/raw24"@.len() != "raw16(raw16)"@.len());
            assert("raw24/raw24"@.len() != "raw16(avg16)"@.len());
            assert("raw24/raw24"@[5] != "raw24(raw8)"@[5]);
        },
        RawFormat::Raw24DivRaw32 => {
            assert("raw24/raw32"@.len() != "raw8"@.len());
            assert("raw24/raw32"@.len() != "raw16"@.len());
            assert("raw24/raw32"@.len() != "raw48"@.len());
            assert("raw24/raw32"@.len() != "hex48"@.len());
            assert("raw24/raw32"@.len() != "raw56"@.len());
            assert("raw24/raw32"@.len() != "hex56"@.len());
            assert("raw24/raw32"@.len() != "raw64"@.len());
            assert("raw24/raw32"@.len() != "hex64"@.len());
            assert("raw24/raw32"@.len() != "raw16(raw16)"@.len());
            assert("raw24/raw32"@.len() != "raw16(avg16)"@.len());
            assert("raw24/raw32"@[5] != "raw24(raw8)"@[5]);
            assert("raw24/raw32"@[9] != "raw24/raw24"@[9]);
        },
        RawFormat::Sec2Hour => {
            assert("sec2hour"@.len() != "raw8"@.len());
            assert("sec2hour"@.len() != "raw16"@.len());
            assert("sec2hour"@.len() != "raw48"@.len());
            assert("sec2hour"@.len() != "hex48"@.len());
            assert("sec2hour"@.len() != "raw56"@.len());
            assert("sec2hour"@.len() != "hex56"@.len());
            assert("sec2hour"@.len() != "raw64"@.len());
            assert("sec2hour"@.len() != "hex64"@.len());
            assert("sec2hour"@.len() != "raw16(raw16)"@.len());
            assert("sec2hour"@.len() != "raw16(avg16)"@.len());
            assert("sec2hour"@.len() != "raw24(raw8)"@.len());
            assert("sec2hour"@.len() != "raw24/raw24"@.len());
            assert("sec2hour"@.len() != "raw24/raw32"@.len());
        },
        RawFormat::Min2Hour => {
            assert("min2hour"@.len() != "raw8"@.len());
            assert("min2hour"@.len() != "raw16"@.len());
            assert("min2hour"@.len() != "raw48"@.len());
            assert("min2hour"@.len() != "hex48"@.len());
            assert("min2hour"@.len() != "raw56"@.len());
            assert("min2hour"@.len() != "hex56"@.len());
            assert("min2hour"@.len() != "raw64"@.len());
            assert("min2hour"@.len() != "hex64"@.len());
            assert("min2hour"@.len() != "raw16(raw16)"@.len());
            assert("min2hour"@.len() != "raw16(avg16)"@.len());
            assert("min2hour"@.len() != "raw24(raw8)"@.len());
            assert("min2hour"@.len() != "raw24/raw24"@.len());
            assert("min2hour"@.len() != "raw24/raw32"@.len());
            assert("min2hour"@[0] != "sec2hour"@[0]);
        },
        RawFormat::HalfMin2Hour => {
            assert("halfmin2hour"@.len() != "raw8"@.len());
            assert("halfmin2hour"@.len() != "raw16"@.len());
            assert("halfmin2hour"@.len() != "raw48"@.len());
            assert("halfmin2hour"@.len() != "hex48"@.len());
            assert("halfmin2hour"@.len() != "raw56"@.len());
            assert("halfmin2hour"@.len() != "hex56"@.len());
            assert("halfmin2hour"@.len() != "raw64"@.len());
            assert("halfmin2hour"@.len() != "hex64"@.len());
            assert("halfmin2hour"@[0] != "raw16(raw16)"@[0]);
            assert("halfmin2hour"@[0] != "raw16(avg16)"@[0]);
            assert("halfmin2hour"@.len() != "raw24(raw8)"@.len());
            assert("halfmin2hour"@.len() != "raw24/raw24"@.len());
            assert("halfmin2hour"@.len() != "raw24/raw32"@.len());
            assert("halfmin2hour"@.len() != "sec2hour"@.len());
            assert("halfmin2hour"@.len() != "min2hour"@.len());
        },
        RawFormat::Msec24Hour32 => {
            assert("msec24hour32"@.len() != "raw8"@.len());
            assert("msec24hour32"@.len() != "raw16"@.len());
            assert("msec24hour32"@.len() != "raw48"@.len());
            assert("msec24hour32"@.len() != "hex48"@.len());
            assert("msec24hour32"@.len() != "raw56"@.len());
            assert("msec24hour32"@.len() != "hex56"@.len());
            assert("msec24hour32"@.len() != "raw64"@.len());
            assert("msec24hour32"@.len() != "hex64"@.len());
            assert("msec24hour32"@[0] != "raw16(raw16)"@[0]);
            assert("msec24hour32"@[0] != "raw16(avg16)"@[0]);
            assert("msec24hour32"@.len() != "raw24(raw8)"@.len());
            assert("msec24hour32"@.len() != "raw24/raw24"@.len());
            assert("msec24hour32"@.len() != "raw24/raw32"@.len());
            assert("msec24hour32"@.len() != "sec2hour"@.len());
            assert("msec24hour32"@.len() != "min2hour"@.len());
            assert("msec24hour32"@[0] != "halfmin2hour"@[0]);
        },
        RawFormat::TempMinMax => {
            assert("tempminmax"@.len() != "raw8"@.len());
            assert("tempminmax"@.len() != "raw16"@.len());
            assert("tempminmax"@.len() != "raw48"@.len());
            assert("tempminmax"@.len() != "hex48"@.len());
            assert("tempminmax"@.len() != "raw56"@.len());
            assert("tempminmax"@.len() != "hex56"@.len());
            assert("tempminmax"@.len() != "raw64"@.len());
            assert("tempminmax"@.len() != "hex64"@.len());
            assert("tempminmax"@.len() != "raw16(raw16)"@.len());
            assert("tempminmax"@.len() != "raw16(avg16)"@.len());
            assert("tempminmax"@.len() != "raw24(raw8)"@.len());
            assert("tempminmax"@.len() != "raw24/raw24"@.len());
            assert("tempminmax"@.len() != "raw24/raw32"@.len());
            assert("tempminmax"@.len() != "sec2hour"@.len());
            assert("tempminmax"@.len() != "min2hour"@.len());
            assert("tempminmax"@.len() != "halfmin2hour"@.len());
            assert("tempminmax"@.len() != "msec24hour32"@.len());
        },
        RawFormat::Temp10x => {
            assert("temp10x"@.len() != "raw8"@.len());
            assert("temp10x"@.len() != "raw16"@.len());
            assert("temp10x"@.len() != "raw48"@.len());
            assert("temp10x"@.len() != "hex48"@.len());
            assert("temp10x"@.len() != "raw56"@.len());
            assert("temp10x"@.len() != "hex56"@.len());
            assert("temp10x"@.len() != "raw64"@.len());
            assert("temp10x"@.len() != "hex64"@.len());
            assert("temp10x"@.len() != "raw16(raw16)"@.len());
            assert("temp10x"@.len() != "raw16(avg16)"@.len());
            assert("temp10x"@.len() != "raw24(raw8)"@.len());
            assert("temp10x"@.len() != "raw24/raw24"@.len());
            assert("temp10x"@.len() != "raw24/raw32"@.len());
            assert("temp10x"@.len() != "sec2hour"@.len());
            assert("temp10x"@.len() != "min2hour"@.len());
            assert("temp10x"@.len() != "halfmin2hour"@.len());
            assert("temp10x"@.len() != "msec24hour32"@.len());
            assert("temp10x"@.len() != "tempminmax"@.len());
        },
    }
}

/// No shorthand holds a colon.
proof fn lemma_shorthand_has_no_colon(t: Seq<char>)
    requires
        legacy_form(t) is Some,
    ensures
        lacks(t, 0, ':', ':'),
{
    reveal_with_fuel(lacks, 28);
    reveal_strlit("9,halfminutes");
    reveal_strlit("9,minutes");
    reveal_strlit("9,seconds");
    reveal_strlit("9,temp");
    reveal_strlit("192,emergencyretractcyclect");
    reveal_strlit("193,loadunload");
    reveal_strlit("194,10xCelsius");
    reveal_strlit("194,unknown");
    reveal_strlit("198,offlinescanuncsectorct");
    reveal_strlit("200,writeerrorcount");
    reveal_strlit("201,detectedtacount");
    reveal_strlit("220,temp");
}

/// The text of a rule up to its byte order, for a rule with id `id`.
pub open spec fn head_text(id: u8, a: AttributeView) -> Seq<char> {
    decimal(id as nat) + ","@ + format_name(a.format) + ":"@ + a.byte_order
}

proof fn lemma_parse_head(s: Seq<char>, id: u8, a: AttributeView)
    requires
        valid_order(a.byte_order),
        !a.byte_order.contains(','),
        head_text(id, a).len() <= s.len(),
        s.subrange(0, head_text(id, a).len() as int) == head_text(id, a),
        s.len() == head_text(id, a).len() || s[head_text(id, a).len() as int] == ',',
    ensures
        parsed_rule(s) == parsed_tail(s, id, a.format, a.byte_order, head_text(id, a).len() as int),
{
    reveal_strlit(",");
    reveal_strlit(":");
    let dec = decimal(id as nat);
    let fname = format_name(a.format);
    let order = a.byte_order;
    let head = head_text(id, a);
    lemma_decimal(id as nat);
    lemma_format_name(a.format);
    lemma_lacks(fname, 0, ':', ',');
    let c1 = dec.len() as int;
    let fe = c1 + 1 + fname.len();
    let oe = fe + 1 + order.len();
    assert(head.len() == oe);
    assert forall|k: int| 0 <= k < oe implies s[k] == head[k] by {
        assert(s[k] == s.subrange(0, oe)[k]);
    }
    assert forall|k: int| 0 <= k < c1 implies s[k] != ',' by {
        assert(head[k] == dec[k]);
        assert(is_digit(dec[k]));
    }
    assert(s[c1] == head[c1]);
    lemma_upto_at(s, 0, c1, ',', ',');
    assert(s.subrange(0, c1) =~= dec);
    assert forall|k: int| c1 + 1 <= k < fe implies s[k] != ':' && s[k] != ',' by {
        assert(head[k] == fname[k - c1 - 1]);
    }
    assert(s[fe] == head[fe]);
    lemma_upto_at(s, c1 + 1, fe, ':', ',');
    assert(s.subrange(c1 + 1, fe) =~= fname);
    assert forall|k: int| fe + 1 <= k < oe implies s[k] != ',' by {
        assert(head[k] == order[k - fe - 1]);
    }
    lemma_upto_at(s, fe + 1, oe, ',', ',');
    assert(s.subrange(fe + 1, oe) =~= order);
    let comma = upto(s, 0, ',', ',');
    assert(comma == c1);
    assert(is_id(s.subrange(0, comma)));
    assert(digits_value(s.subrange(0, comma)) as u8 == id);
    assert(upto(s, comma + 1, ':', ',') == fe);
    assert(format_of(s.subrange(comma + 1, fe)) == Some(a.format));
    assert(fe < s.len() && s[fe] == ':');
    assert(upto(s, fe + 1, ',', ',') == oe);
    assert(valid_order(s.subrange(fe + 1, oe)));
}

/// Whether rule `a` is one that parsing can give: it has an id, a valid
/// byte order without a comma, and a name, if any, that is not empty and
/// holds no comma.
pub open spec fn well_formed(a: AttributeView) -> bool {
    &&& a.id is Some
    &&& valid_order(a.byte_order)
    &&& !a.byte_order.contains(',')
    &&& (a.name matches Some(n) ==> n.len() > 0 && !n.contains(','))
}

/// Writing a well-formed rule as text and parsing that text gives the same
/// rule back.
#[verifier::rlimit(40)]
pub proof fn lemma_text_round_trip(a: AttributeView)
    requires
        well_formed(a),
    ensures
        parsed(rule_text(a)) == Ok::<AttributeView, ParseError>(a),
{
    reveal_strlit(",");
    reveal_strlit("HDD");
    reveal_strlit("SSD");
    let id = a.id->Some_0;
    let s = rule_text(a);
    let head = head_text(id, a);
    let oe = head.len() as int;
    assert(s.subrange(0, oe) =~= head);
    match (a.name, a.drivetype) {
        (None, None) => {
            assert(s == head);
            lemma_parse_head(s, id, a);
            assert(parsed_tail(s, id, a.format, a.byte_order, oe) == Ok::<AttributeView, ParseError>(
                AttributeView { id: Some(id), name: None, format: a.format, byte_order: a.byte_order, drivetype: None },
            ));
        },
        (Some(n), None) => {
            assert(s == head + ","@ + n);
            assert(s[oe] == ',');
            lemma_parse_head(s, id, a);
            assert forall|k: int| oe + 1 <= k < s.len() implies s[k] != ',' by {
                assert(s[k] == n[k - oe - 1]);
            }
            lemma_upto_at(s, oe + 1, s.len() as int, ',', ',');
            assert(s.subrange(oe + 1, s.len() as int) =~= n);
            assert(parsed_tail(s, id, a.format, a.byte_order, oe) == Ok::<AttributeView, ParseError>(
                AttributeView { id: Some(id), name: Some(n), format: a.format, byte_order: a.byte_order, drivetype: None },
            ));
        },
        (nm, Some(t)) => {
            let nn = match nm {
                Some(x) => x,
                None => Seq::<char>::empty(),
            };
            let ne = oe + 1 + nn.len();
            assert(s == head + ","@ + nn + ","@ + drive_type_text(t));
            assert(s[oe] == ',');
            lemma_parse_head(s, id, a);
            assert forall|k: int| oe + 1 <= k < ne implies s[k] != ',' by {
                assert(s[k] == nn[k - oe - 1]);
            }
            assert(s[ne] == ',');
            lemma_upto_at(s, oe + 1, ne, ',', ',');
            assert(s.subrange(oe + 1, ne) =~= nn);
            assert(s.subrange(ne + 1, s.len() as int) =~= drive_type_text(t));
            assert(nm is None ==> nn.len() == 0);
            assert("SSD"@[0] != "HDD"@[0]);
            assert(t == Type::HDD ==> s.subrange(ne + 1, s.len() as int) == "HDD"@);
            assert(t == Type::SSD ==> s.subrange(ne + 1, s.len() as int) != "HDD"@);
            assert(parsed_tail(s, id, a.format, a.byte_order, oe) == Ok::<AttributeView, ParseError>(
                AttributeView { id: Some(id), name: nm, format: a.format, byte_order: a.byte_order, drivetype: Some(t) },
            ));
        },
    }
    assert(parsed_rule(s) == Ok::<AttributeView, ParseError>(a));
    if legacy_form(s) is Some {
        lemma_shorthand_has_no_colon(s);
        lemma_lacks(s, 0, ':', ':');
        lemma_decimal(id as nat);
        reveal_strlit(":");
        let fe = (decimal(id as nat).len() + 1 + format_name(a.format).len()) as int;
        assert(s[fe] == head[fe]);
        assert(s[fe] == ':');
    }
}

/// Every default byte order is valid and holds no comma.
proof fn lemma_default_order_ok(f: RawFormat)
    ensures
        valid_order(default_order(f)),
        !default_order(f).contains(','),
{
    reveal_with_fuel(lacks, 9);
    reveal_strlit("543210wv");
    reveal_strlit("r543210");
    reveal_strlit("543210");
    let o = default_order(f);
    assert(is_byte_token(o[0]));
    assert(lacks(o, 0, ',', ','));
    lemma_lacks(o, 0, ',', ',');
}

proof fn lemma_tail_well_formed(s: Seq<char>, id: u8, format: RawFormat, order: Seq<char>, rest: int)
    requires
        0 <= rest <= s.len(),
        valid_order(order),
        !order.contains(','),
    ensures
        parsed_tail(s, id, format, order, rest) matches Ok(a) ==> well_formed(a),
{
    if rest < s.len() {
        lemma_upto(s, rest + 1, ',', ',');
        let name = s.subrange(rest + 1, upto(s, rest + 1, ',', ','));
        assert forall|k: int| 0 <= k < name.len() implies name[k] != ',' by {
            assert(name[k] == s[rest + 1 + k]);
        }
    }
}

proof fn lemma_parsed_rule_well_formed(t: Seq<char>)
    ensures
        parsed_rule(t) matches Ok(a) ==> well_formed(a),
{
    lemma_upto(t, 0, ',', ',');
    let comma = upto(t, 0, ',', ',');
    if is_id(t.subrange(0, comma)) && comma < t.len() {
        let id = digits_value(t.subrange(0, comma)) as u8;
        lemma_upto(t, comma + 1, ':', ',');
        let f_end = upto(t, comma + 1, ':', ',');
        if let Some(format) = format_of(t.subrange(comma + 1, f_end)) {
            if f_end < t.len() && t[f_end] == ':' {
                lemma_upto(t, f_end + 1, ',', ',');
                let o_end = upto(t, f_end + 1, ',', ',');
                let order = t.subrange(f_end + 1, o_end);
                assert forall|k: int| 0 <= k < order.len() implies order[k] != ',' by {
                    assert(order[k] == t[f_end + 1 + k]);
                }
                if valid_order(order) {
                    lemma_tail_well_formed(t, id, format, order, o_end);
                }
            } else {
                lemma_default_order_ok(format);
                lemma_tail_well_formed(t, id, format, default_order(format), f_end);
            }
        }
    }
}

/// Every rule that parsing gives is well formed, so writing it as text and
/// parsing that text gives the same rule back.
pub proof fn lemma_parse_round_trip(s: Seq<char>)
    requires
        parsed(s) is Ok,
    ensures
        well_formed(parsed(s)->Ok_0),
        parsed(rule_text(parsed(s)->Ok_0)) == parsed(s),
{
    let t = match legacy_form(s) {
        Some(t) => t,
        None => s,
    };
    lemma_parsed_rule_well_formed(t);
    lemma_text_round_trip(parsed(s)->Ok_0);
}

} // verus!
