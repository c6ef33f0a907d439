//! Sense data in descriptor format (SPC-4, 4.5.2).

use vstd::prelude::*;
use vstd::slice::slice_subrange;

verus! {

/// One sense data descriptor.
#[derive(Debug)]
pub struct Descriptor<'a> {
    pub code: u8,
    pub data: &'a [u8],
}

/// Descriptor-format sense data.
#[derive(Debug)]
pub struct DescriptorData<'a> {
    pub key: u8,
    pub asc: u8,
    pub ascq: u8,
    pub descriptors: Vec<Descriptor<'a>>,
}

/// The length that the additional sense length of `data` announces.
pub open spec fn sense_len(data: Seq<u8>) -> int {
    data[7] + 8
}

/// The descriptors of `data` from offset `i` up to `end`, each as its code
/// and its bytes, or `None` where one runs past `end`.
pub open spec fn descriptors_from(data: Seq<u8>, i: int, end: int) -> Option<Seq<(u8, Seq<u8>)>>
    decreases end - i,
{
    if i >= end {
        Some(seq![])
    } else if i + 2 > end || i + 2 + data[i + 1] > end {
        None
    } else {
        match descriptors_from(data, i + 2 + data[i + 1], end) {
            Some(rest) => Some(seq![(data[i], data.subrange(i + 2, i + 2 + data[i + 1]))] + rest),
            None => None,
        }
    }
}

/// Each descriptor as its code and its bytes.
pub open spec fn descriptors_view<'a>(v: Seq<Descriptor<'a>>) -> Seq<(u8, Seq<u8>)> {
    v.map_values(|d: Descriptor<'a>| (d.code, d.data@))
}

/// Parses descriptor-format sense data: `None` where it is shorter than 8
/// bytes or than its additional sense length says, or where a descriptor
/// runs past that length.
pub fn parse<'a>(data: &'a [u8]) -> (r: Option<DescriptorData<'a>>)
    ensures
        data@.len() < 8 || data@.len() < sense_len(data@) ==> r is None,
        data@.len() >= 8 && data@.len() >= sense_len(data@) ==> match descriptors_from(data@, 8, sense_len(data@)) {
            Some(ds) => (r matches Some(s) && s.key == data@[1] & 0x0f && s.asc == data@[2]
                && s.ascq == data@[3] && descriptors_view(s.descriptors@) == ds),
            None => r is None,
        },
{
    if data.len() < 8 {
        return None;
    }
    let len = data[7] as usize + 8;
    if data.len() < len {
        return None;
    }
    let mut descriptors: Vec<Descriptor<'a>> = Vec::new();
    let mut current: usize = 8;
    while current < len
        invariant
            8 <= current,
            len == sense_len(data@),
            len <= data@.len(),
            descriptors_from(data@, 8, len as int) == match descriptors_from(data@, current as int, len as int) {
                Some(rest) => Some(descriptors_view(descriptors@) + rest),
                None => None::<Seq<(u8, Seq<u8>)>>,
            },
        decreases len - current,
    {
        if len - current < 2 {
            return None;
        }
        let code = data[current];
        let dlen = data[current + 1] as usize;
        if dlen > len - current - 2 {
            return None;
        }
        let d = Descriptor { code, data: slice_subrange(data, current + 2, current + 2 + dlen) };
        let ghost before = descriptors@;
        descriptors.push(d);
        proof {
            assert(descriptors_view(descriptors@) =~= descriptors_view(before).push((code, d.data@)));
            match descriptors_from(data@, (current + 2 + dlen) as int, len as int) {
                Some(rest) => {
                    assert(descriptors_view(before) + (seq![(code, d.data@)] + rest)
                        =~= descriptors_view(descriptors@) + rest);
                },
                None => {},
            }
        }
        current = current + 2 + dlen;
    }
    proof {
        assert(descriptors_view(descriptors@) + Seq::<(u8, Seq<u8>)>::empty() =~= descriptors_view(descriptors@));
    }
    Some(DescriptorData { key: data[1] & 0x0f, asc: data[2], ascq: data[3], descriptors })
}

} // verus!
