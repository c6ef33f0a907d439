//! Sense data in fixed format (SPC-4, 4.5.3).

use vstd::prelude::*;
use vstd::slice::slice_subrange;

verus! {

/// Fixed-format sense data.
#[derive(Debug)]
pub enum FixedData<'a> {
    Valid {
        file_mark: bool,
        eom: bool,
        incorrect_length: bool,
        key: u8,
        info: [u8; 4],
        cmd_info: [u8; 4],
        asc: u8,
        ascq: u8,
        fruc: u8,
        sks: [u8; 3],
        /// Additional sense bytes after the eighteenth.
        more: &'a [u8],
    },
    /// Sense data flagged as not conforming to the standard.
    Invalid(&'a [u8]),
}

fn copy_from_slice_3(x: &[u8]) -> (r: [u8; 3])
    requires
        x@.len() == 3,
    ensures
        r@ == x@,
{
    let r = [x[0], x[1], x[2]];
    proof {
        assert(r@ =~= x@);
    }
    r
}

fn copy_from_slice_4(x: &[u8]) -> (r: [u8; 4])
    requires
        x@.len() == 4,
    ensures
        r@ == x@,
{
    let r = [x[0], x[1], x[2], x[3]];
    proof {
        assert(r@ =~= x@);
    }
    r
}

/// The length that the additional sense length of `data` announces.
pub open spec fn sense_len(data: Seq<u8>) -> int {
    data[7] + 8
}

/// Parses fixed-format sense data: `None` where it is shorter than 18
/// bytes, or where its additional sense length announces fewer than 18
/// bytes or more than the data holds.
pub fn parse<'a>(data: &'a [u8]) -> (r: Option<FixedData<'a>>)
    ensures
        data@.len() < 18 ==> r is None,
        data@.len() >= 18 && data@[0] & 0x80 != 0 ==> (r matches Some(FixedData::Invalid(d)) && d@ == data@),
        data@.len() >= 18 && data@[0] & 0x80 == 0 && !(18 <= sense_len(data@) <= data@.len()) ==> r is None,
        data@.len() >= 18 && data@[0] & 0x80 == 0 && 18 <= sense_len(data@) <= data@.len() ==> (
        r matches Some(FixedData::Valid {
            file_mark, eom, incorrect_length, key, info, cmd_info, asc, ascq, fruc, sks, more,
        }) && {
            &&& file_mark == (data@[2] & 0x80 != 0)
            &&& eom == (data@[2] & 0x40 != 0)
            &&& incorrect_length == (data@[2] & 0x20 != 0)
            &&& key == data@[2] & 0x0f
            &&& info@ == data@.subrange(3, 7)
            &&& cmd_info@ == data@.subrange(8, 12)
            &&& asc == data@[12]
            &&& ascq == data@[13]
            &&& fruc == data@[14]
            &&& sks@ == data@.subrange(15, 18)
            &&& more@ == data@.subrange(18, sense_len(data@))
        }),
{
    if data.len() < 18 {
        return None;
    }
    if data[0] & 0x80 != 0 {
        return Some(FixedData::Invalid(data));
    }
    let len = data[7] as usize + 8;
    if len < 18 || len > data.len() {
        return None;
    }
    Some(FixedData::Valid {
        file_mark: data[2] & 0x80 != 0,
        eom: data[2] & 0x40 != 0,
        incorrect_length: data[2] & 0x20 != 0,
        key: data[2] & 0x0f,
        info: copy_from_slice_4(slice_subrange(data, 3, 7)),
        cmd_info: copy_from_slice_4(slice_subrange(data, 8, 12)),
        asc: data[12],
        ascq: data[13],
        fruc: data[14],
        sks: copy_from_slice_3(slice_subrange(data, 15, 18)),
        more: slice_subrange(data, 18, len),
    })
}

} // verus!
