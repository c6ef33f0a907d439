//! Decoding of the 512-byte S.M.A.R.T. attribute and threshold tables.
//!
//! Both tables hold 30 slots of 12 bytes from offset 2 on; a slot whose id
//! byte is zero is unused.

use vstd::prelude::*;
use crate::drivedb::{DriveDB, DriveMeta, conflicts, flag, lemma_single_record, resolved_rule, resolved_warning, rule_for};
use crate::raw::{RawValue, be_value, decode_raw, decoded, effective_order, order_in_force, reordered};
use crate::vendor_attribute::{Attribute, Type};

verus! {

/// Number of slots in a table.
pub const SLOTS: usize = 30;

/// Length of a table.
pub const TABLE_LEN: usize = 512;

/// One attribute of the table, decoded.
#[derive(Debug)]
pub struct SmartAttribute {
    pub id: u8,
    pub name: Option<String>,
    /// Failure of this attribute predicts failure of the drive.
    pub pre_fail: bool,
    /// Collected while the drive is online.
    pub online: bool,
    pub performance: bool,
    pub error_rate: bool,
    pub event_count: bool,
    pub self_preserving: bool,
    /// The flag bits not named above.
    pub flags: u16,
    /// The normalised value, unless the raw value holds that byte.
    pub value: Option<u8>,
    /// The worst normalised value, unless the raw value holds that byte.
    pub worst: Option<u8>,
    pub raw: RawValue,
    pub thresh: Option<u8>,
}

/// Why a table could not be decoded.
#[derive(Clone, Copy, Debug, PartialEq, Eq, Structural)]
pub enum DecodeError {
    /// A table is not 512 bytes long.
    InvalidLength,
}

impl DecodeError {
    /// What is wrong, in words.
    pub fn message(&self) -> (r: &'static str)
        ensures
            r@ == "attribute or threshold table is not 512 bytes long"@,
    {
        "attribute or threshold table is not 512 bytes long"
    }
}

/// Offset of slot `i`.
pub open spec fn slot_offset(i: int) -> int {
    2 + 12 * i
}

/// The threshold that the first `n` slots of `table` give for `id`: that of
/// the last slot with this id.
pub open spec fn thresh_upto(table: Seq<u8>, n: int, id: u8) -> Option<u8>
    decreases n,
{
    if n <= 0 {
        None
    } else if id != 0 && table[slot_offset(n - 1)] == id {
        Some(table[slot_offset(n - 1) + 1])
    } else {
        thresh_upto(table, n - 1, id)
    }
}

/// The threshold that `table` gives for `id`, if a slot has this id.
pub open spec fn thresh_for(table: Seq<u8>, id: u8) -> Option<u8> {
    thresh_upto(table, SLOTS as int, id)
}

/// The rule in force for `id`, if rules were resolved.
pub open spec fn rule_of(meta: Option<DriveMeta>, id: u8) -> Option<Attribute> {
    match meta {
        Some(m) => m.rule(id),
        None => None,
    }
}

/// The two flag bytes of the slot at offset `o`, low byte first.
pub open spec fn flags_at(data: Seq<u8>, o: int) -> u16 {
    (data[o + 2] as u16 * 256 + data[o + 1] as u16) as u16
}

/// The attribute that slot `i` of `data` holds.
pub open spec fn attribute_at(data: Seq<u8>, thresh: Seq<u8>, meta: Option<DriveMeta>, i: int) -> SmartAttribute {
    let o = slot_offset(i);
    let id = data[o];
    let flags = flags_at(data, o);
    let rule = rule_of(meta, id);
    SmartAttribute {
        id,
        name: match rule {
            Some(a) => a.name,
            None => None,
        },
        pre_fail: flags & 0x01 != 0,
        online: flags & 0x02 != 0,
        performance: flags & 0x04 != 0,
        error_rate: flags & 0x08 != 0,
        event_count: flags & 0x10 != 0,
        self_preserving: flags & 0x20 != 0,
        flags: flags & !0x3fu16,
        value: if effective_order(rule).contains('v') {
            None
        } else {
            Some(data[o + 3])
        },
        worst: if effective_order(rule).contains('w') {
            None
        } else {
            Some(data[o + 4])
        },
        raw: decoded(data.subrange(o, o + 12), rule),
        thresh: thresh_for(thresh, id),
    }
}

/// The attributes of the first `n` slots of `data`, skipping unused slots.
pub open spec fn attributes_upto(data: Seq<u8>, thresh: Seq<u8>, meta: Option<DriveMeta>, n: int) -> Seq<SmartAttribute>
    decreases n,
{
    if n <= 0 {
        seq![]
    } else if data[slot_offset(n - 1)] == 0 {
        attributes_upto(data, thresh, meta, n - 1)
    } else {
        attributes_upto(data, thresh, meta, n - 1).push(attribute_at(data, thresh, meta, n - 1))
    }
}

/// The attributes of the table `data`.
pub open spec fn attributes(data: Seq<u8>, thresh: Seq<u8>, meta: Option<DriveMeta>) -> Seq<SmartAttribute> {
    attributes_upto(data, thresh, meta, SLOTS as int)
}

/// `c` where `b` holds, else `-`: one column of a flags column.
pub fn bool_to_flag(b: bool, c: char) -> (r: char)
    ensures
        r == (if b { c } else { '-' }),
{
    if b {
        c
    } else {
        '-'
    }
}

fn has_char(v: &Vec<char>, c: char) -> (r: bool)
    ensures
        r == v@.contains(c),
{
    let mut i: usize = 0;
    while i < v.len()
        invariant
            i <= v@.len(),
            forall|k: int| 0 <= k < i ==> v@[k] != c,
        decreases v@.len() - i,
    {
        if v[i] == c {
            return true;
        }
        i += 1;
    }
    false
}

fn slot_bytes(data: &Vec<u8>, o: usize) -> (r: Vec<u8>)
    requires
        data@.len() == TABLE_LEN,
        o + 12 <= TABLE_LEN,
    ensures
        r@ == data@.subrange(o as int, o + 12),
{
    let mut v: Vec<u8> = Vec::new();
    let end = o + 12;
    let mut k: usize = o;
    while k < end
        invariant
            end == o + 12,
            o <= k <= end,
            end <= data@.len(),
            v@ == data@.subrange(o as int, k as int),
        decreases end - k,
    {
        v.push(data[k]);
        k += 1;
        proof {
            assert(v@ =~= data@.subrange(o as int, k as int));
        }
    }
    v
}

/// For each id, the threshold that `table` gives it.
fn threshold_map(table: &Vec<u8>) -> (r: Vec<Option<u8>>)
    requires
        table@.len() == TABLE_LEN,
    ensures
        r@.len() == 256,
        forall|id: u8| #[trigger] r@[id as int] == thresh_for(table@, id),
{
    let mut map: Vec<Option<u8>> = Vec::new();
    let mut k: usize = 0;
    while k < 256
        invariant
            k <= 256,
            map@.len() == k,
            forall|j: int| 0 <= j < k ==> map@[j] == None::<u8>,
        decreases 256 - k,
    {
        map.push(None);
        k += 1;
    }
    let mut i: usize = 0;
    while i < SLOTS
        invariant
            table@.len() == TABLE_LEN,
            i <= SLOTS,
            map@.len() == 256,
            forall|id: u8| #[trigger] map@[id as int] == thresh_upto(table@, i as int, id),
        decreases SLOTS - i,
    {
        let o = 2 + 12 * i;
        let id = table[o];
        if id != 0 {
            map.set(id as usize, Some(table[o + 1]));
        }
        i += 1;
    }
    map
}

/// Decodes the attribute table `data` with the threshold table
/// `raw_thresh`, naming and decoding each attribute by the rules in `meta`.
/// Unused slots are skipped; the rest come in table order.
pub fn parse_smart_values(
    data: &Vec<u8>,
    raw_thresh: &Vec<u8>,
    meta: &Option<DriveMeta>,
) -> (r: Result<Vec<SmartAttribute>, DecodeError>)
    ensures
        data@.len() == TABLE_LEN && raw_thresh@.len() == TABLE_LEN
            ==> r is Ok && r->Ok_0@ == attributes(data@, raw_thresh@, *meta),
        data@.len() != TABLE_LEN || raw_thresh@.len() != TABLE_LEN
            ==> r == Err::<Vec<SmartAttribute>, DecodeError>(DecodeError::InvalidLength),
{
    if data.len() != TABLE_LEN || raw_thresh.len() != TABLE_LEN {
        return Err(DecodeError::InvalidLength);
    }
    let threshs = threshold_map(raw_thresh);
    let mut attrs: Vec<SmartAttribute> = Vec::new();
    let mut i: usize = 0;
    while i < SLOTS
        invariant
            data@.len() == TABLE_LEN,
            raw_thresh@.len() == TABLE_LEN,
            i <= SLOTS,
            threshs@.len() == 256,
            forall|id: u8| #[trigger] threshs@[id as int] == thresh_for(raw_thresh@, id),
            attrs@ == attributes_upto(data@, raw_thresh@, *meta, i as int),
        decreases SLOTS - i,
    {
        let o = 2 + 12 * i;
        let id = data[o];
        if id != 0 {
            let flags: u16 = data[o + 2] as u16 * 256 + data[o + 1] as u16;
            let rule = match meta {
                Some(m) => m.render_attribute(id),
                None => None,
            };
            let order = order_in_force(&rule);
            let slot = slot_bytes(data, o);
            let raw = decode_raw(slot.as_slice(), &rule);
            let value = if has_char(&order, 'v') {
                None
            } else {
                Some(data[o + 3])
            };
            let worst = if has_char(&order, 'w') {
                None
            } else {
                Some(data[o + 4])
            };
            let name = match rule {
                Some(a) => a.name,
                None => None,
            };
            attrs.push(SmartAttribute {
                id,
                name,
                pre_fail: flags & 0x01 != 0,
                online: flags & 0x02 != 0,
                performance: flags & 0x04 != 0,
                error_rate: flags & 0x08 != 0,
                event_count: flags & 0x10 != 0,
                self_preserving: flags & 0x20 != 0,
                flags: flags & !0x3fu16,
                value,
                worst,
                raw,
                thresh: threshs[id as usize],
            });
        }
        i += 1;
    }
    Ok(attrs)
}

proof fn lemma_attributes_upto(data: Seq<u8>, thresh: Seq<u8>, meta: Option<DriveMeta>, n: int)
    requires
        0 <= n <= SLOTS,
        data.len() == TABLE_LEN,
    ensures
        forall|k: int| 0 <= k < attributes_upto(data, thresh, meta, n).len() ==>
            exists|i: int| 0 <= i < n && data[slot_offset(i)] != 0
                && #[trigger] attributes_upto(data, thresh, meta, n)[k] == attribute_at(data, thresh, meta, i),
        forall|i: int| 0 <= i < n && data[slot_offset(i)] != 0 ==>
            attributes_upto(data, thresh, meta, n).contains(#[trigger] attribute_at(data, thresh, meta, i)),
    decreases n,
{
    if n > 0 {
        lemma_attributes_upto(data, thresh, meta, n - 1);
        let prev = attributes_upto(data, thresh, meta, n - 1);
        let cur = attributes_upto(data, thresh, meta, n);
        if data[slot_offset(n - 1)] != 0 {
            let a = attribute_at(data, thresh, meta, n - 1);
            assert(cur == prev.push(a));
            assert forall|k: int| 0 <= k < cur.len() implies
                exists|i: int| 0 <= i < n && data[slot_offset(i)] != 0
                    && #[trigger] cur[k] == attribute_at(data, thresh, meta, i) by {
                if k < prev.len() {
                    assert(cur[k] == prev[k]);
                } else {
                    assert(cur[k] == attribute_at(data, thresh, meta, n - 1));
                }
            }
            assert forall|i: int| 0 <= i < n && data[slot_offset(i)] != 0 implies
                cur.contains(#[trigger] attribute_at(data, thresh, meta, i)) by {
                if i < n - 1 {
                    let k = choose|k: int| 0 <= k < prev.len() && prev[k] == attribute_at(data, thresh, meta, i);
                    assert(cur[k] == prev[k]);
                } else {
                    assert(cur[prev.len() as int] == a);
                }
            }
        }
    }
}

/// Each decoded attribute is that of a used slot, and each used slot is
/// decoded.
pub proof fn lemma_attributes_are_used_slots(data: Seq<u8>, thresh: Seq<u8>, meta: Option<DriveMeta>)
    requires
        data.len() == TABLE_LEN,
        thresh.len() == TABLE_LEN,
    ensures
        forall|k: int| 0 <= k < attributes(data, thresh, meta).len() ==>
            exists|i: int| 0 <= i < SLOTS && data[slot_offset(i)] != 0
                && #[trigger] attributes(data, thresh, meta)[k] == attribute_at(data, thresh, meta, i),
        forall|i: int| 0 <= i < SLOTS && data[slot_offset(i)] != 0 ==>
            attributes(data, thresh, meta).contains(#[trigger] attribute_at(data, thresh, meta, i)),
{
    lemma_attributes_upto(data, thresh, meta, SLOTS as int);
}

/// A slot whose id byte is zero yields no attribute: no decoded attribute
/// has id zero.
pub proof fn lemma_no_zero_ids(data: Seq<u8>, thresh: Seq<u8>, meta: Option<DriveMeta>)
    requires
        data.len() == TABLE_LEN,
        thresh.len() == TABLE_LEN,
    ensures
        forall|k: int| 0 <= k < attributes(data, thresh, meta).len() ==>
            #[trigger] attributes(data, thresh, meta)[k].id != 0,
{
    lemma_attributes_are_used_slots(data, thresh, meta);
    assert forall|k: int| 0 <= k < attributes(data, thresh, meta).len() implies
        #[trigger] attributes(data, thresh, meta)[k].id != 0 by {
        let i = choose|i: int| 0 <= i < SLOTS && data[slot_offset(i)] != 0
            && attributes(data, thresh, meta)[k] == attribute_at(data, thresh, meta, i);
    }
}

/// An attribute has no value exactly where the byte order in force for its
/// id selects the value byte, and no worst value exactly where it selects
/// the worst byte; in particular, where the rule for its id has a byte order
/// that references `v` (`w`), its value (worst value) is absent.
pub proof fn lemma_embedded_bytes_absent(data: Seq<u8>, thresh: Seq<u8>, meta: Option<DriveMeta>)
    requires
        data.len() == TABLE_LEN,
        thresh.len() == TABLE_LEN,
    ensures
        forall|k: int| 0 <= k < attributes(data, thresh, meta).len() ==> {
            let a = #[trigger] attributes(data, thresh, meta)[k];
            &&& (a.value is None <==> effective_order(rule_of(meta, a.id)).contains('v'))
            &&& (a.worst is None <==> effective_order(rule_of(meta, a.id)).contains('w'))
            &&& (rule_of(meta, a.id) matches Some(r) && r.byte_order@.contains('v') ==> a.value is None)
            &&& (rule_of(meta, a.id) matches Some(r) && r.byte_order@.contains('w') ==> a.worst is None)
        },
{
    lemma_attributes_are_used_slots(data, thresh, meta);
    let attrs = attributes(data, thresh, meta);
    assert forall|k: int| 0 <= k < attrs.len() implies {
        let a = #[trigger] attrs[k];
        &&& (a.value is None <==> effective_order(rule_of(meta, a.id)).contains('v'))
        &&& (a.worst is None <==> effective_order(rule_of(meta, a.id)).contains('w'))
        &&& (rule_of(meta, a.id) matches Some(r) && r.byte_order@.contains('v') ==> a.value is None)
        &&& (rule_of(meta, a.id) matches Some(r) && r.byte_order@.contains('w') ==> a.worst is None)
    } by {
        let i = choose|i: int| 0 <= i < SLOTS && data[slot_offset(i)] != 0
            && attrs[k] == attribute_at(data, thresh, meta, i);
        if let Some(r) = rule_of(meta, attrs[k].id) {
            if r.byte_order@.contains('v') || r.byte_order@.contains('w') {
                assert(r.byte_order@.len() > 0);
            }
        }
    }
}

proof fn lemma_thresh_upto(table: Seq<u8>, n: int, id: u8)
    requires
        0 <= n <= SLOTS,
        table.len() == TABLE_LEN,
    ensures
        match thresh_upto(table, n, id) {
            Some(t) => exists|i: int| 0 <= i < n && table[#[trigger] slot_offset(i)] == id
                && table[slot_offset(i) + 1] == t,
            None => id == 0 || forall|i: int| 0 <= i < n ==> table[#[trigger] slot_offset(i)] != id,
        },
    decreases n,
{
    if n > 0 {
        lemma_thresh_upto(table, n - 1, id);
    }
}

/// The threshold of each decoded attribute is the threshold byte of a
/// threshold-table slot with the same id, or none where no such slot
/// exists.
pub proof fn lemma_thresholds(data: Seq<u8>, thresh: Seq<u8>, meta: Option<DriveMeta>)
    requires
        data.len() == TABLE_LEN,
        thresh.len() == TABLE_LEN,
    ensures
        forall|k: int| 0 <= k < attributes(data, thresh, meta).len() ==>
            match (#[trigger] attributes(data, thresh, meta)[k]).thresh {
                Some(t) => exists|i: int| 0 <= i < SLOTS
                    && thresh[#[trigger] slot_offset(i)] == attributes(data, thresh, meta)[k].id
                    && thresh[slot_offset(i) + 1] == t,
                None => forall|i: int| 0 <= i < SLOTS
                    ==> thresh[#[trigger] slot_offset(i)] != attributes(data, thresh, meta)[k].id,
            },
{
    lemma_attributes_are_used_slots(data, thresh, meta);
    lemma_no_zero_ids(data, thresh, meta);
    assert forall|k: int| 0 <= k < attributes(data, thresh, meta).len() implies
        match (#[trigger] attributes(data, thresh, meta)[k]).thresh {
            Some(t) => exists|i: int| 0 <= i < SLOTS
                && thresh[#[trigger] slot_offset(i)] == attributes(data, thresh, meta)[k].id
                && thresh[slot_offset(i) + 1] == t,
            None => forall|i: int| 0 <= i < SLOTS
                ==> thresh[#[trigger] slot_offset(i)] != attributes(data, thresh, meta)[k].id,
        } by {
        let a = attributes(data, thresh, meta)[k];
        let i = choose|i: int| 0 <= i < SLOTS && data[slot_offset(i)] != 0
            && attributes(data, thresh, meta)[k] == attribute_at(data, thresh, meta, i);
        assert(a.thresh == thresh_for(thresh, a.id));
        lemma_thresh_upto(thresh, SLOTS as int, a.id);
    }
}

/// With no rule for any id, every used slot is decoded, unnamed, with its
/// value and worst bytes, and with its raw bytes read as a plain 48-bit
/// integer.
pub proof fn lemma_generic_decoding(data: Seq<u8>, thresh: Seq<u8>, meta: Option<DriveMeta>)
    requires
        data.len() == TABLE_LEN,
        thresh.len() == TABLE_LEN,
        forall|id: u8| #[trigger] rule_of(meta, id) is None,
    ensures
        forall|i: int| 0 <= i < SLOTS && data[slot_offset(i)] != 0 ==> {
            let a = #[trigger] attribute_at(data, thresh, meta, i);
            &&& attributes(data, thresh, meta).contains(a)
            &&& a.name is None
            &&& a.value == Some(data[slot_offset(i) + 3])
            &&& a.worst == Some(data[slot_offset(i) + 4])
            &&& a.raw == RawValue::Int(
                be_value(reordered(data.subrange(slot_offset(i), slot_offset(i) + 12), "543210"@)) as u64,
            )
        },
{
    reveal_strlit("543210");
    lemma_attributes_are_used_slots(data, thresh, meta);
    assert forall|i: int| 0 <= i < SLOTS && data[slot_offset(i)] != 0 implies {
        let a = #[trigger] attribute_at(data, thresh, meta, i);
        &&& attributes(data, thresh, meta).contains(a)
        &&& a.name is None
        &&& a.value == Some(data[slot_offset(i) + 3])
        &&& a.worst == Some(data[slot_offset(i) + 4])
        &&& a.raw == RawValue::Int(
            be_value(reordered(data.subrange(slot_offset(i), slot_offset(i) + 12), "543210"@)) as u64,
        )
    } by {
        assert(rule_of(meta, data[slot_offset(i)]) is None);
        let o = "543210"@;
        assert(!o.contains('v')) by {
            assert forall|k: int| 0 <= k < o.len() implies o[k] != 'v' by {}
        }
        assert(!o.contains('w')) by {
            assert forall|k: int| 0 <= k < o.len() implies o[k] != 'w' by {}
        }
    }
}

/// End to end: where exactly one record applies to a drive, with a warning
/// and a rule `r` for `id` not restricted to another type of drive, the rules
/// resolved without user rules carry that warning, and a used slot with id
/// `id` is decoded by `r`: named by it, with its raw value in `r`'s format
/// and byte order, and with value and worst present unless `r`'s byte order
/// selects them.
pub proof fn lemma_single_record_decoding(
    db: DriveDB,
    matched: Seq<bool>,
    hint: Option<Type>,
    meta: DriveMeta,
    j: int,
    id: u8,
    r: Attribute,
    data: Seq<u8>,
    thresh: Seq<u8>,
    i: int,
)
    requires
        0 <= j < db.records().len(),
        forall|k: int| 0 <= k < db.records().len() ==> (flag(matched, k) <==> k == j),
        db.records()[j].warning is Some,
        rule_for(db.records()[j].rules@, id) == Some(r),
        !conflicts(r, hint),
        forall|x: u8| #[trigger] meta.rule(x) == resolved_rule(db.records(), matched, hint, seq![], x),
        meta.warning == resolved_warning(db.records(), matched, db.records().len() as int),
        data.len() == TABLE_LEN,
        thresh.len() == TABLE_LEN,
        0 <= i < SLOTS,
        data[slot_offset(i)] == id,
        id != 0,
    ensures
        meta.warning is Some,
        meta.rule(id) == Some(r),
        attributes(data, thresh, Some(meta)).contains(attribute_at(data, thresh, Some(meta), i)),
        attribute_at(data, thresh, Some(meta), i).name == r.name,
        attribute_at(data, thresh, Some(meta), i).raw == decoded(
            data.subrange(slot_offset(i), slot_offset(i) + 12),
            Some(r),
        ),
        attribute_at(data, thresh, Some(meta), i).value == if effective_order(Some(r)).contains('v') {
            None
        } else {
            Some(data[slot_offset(i) + 3])
        },
        attribute_at(data, thresh, Some(meta), i).worst == if effective_order(Some(r)).contains('w') {
            None
        } else {
            Some(data[slot_offset(i) + 4])
        },
{
    lemma_single_record(db, matched, hint, j, id, r);
    assert(meta.rule(id) == Some(r));
    lemma_attributes_are_used_slots(data, thresh, Some(meta));
}

} // verus!
