//! The Device Identification VPD page (SPC-4, 7.8.6).

use vstd::prelude::*;
use vstd::slice::slice_subrange;
use crate::raw::{be_value, lemma_be_four, read};

verus! {

/// The protocol a designator belongs to.
#[derive(Clone, Copy, Debug, PartialEq, Eq, Structural)]
pub enum Protocol {
    FC,
    SCSI,
    SSA,
    FireWire,
    RDMA,
    ISCSI,
    SAS,
    Reserved(u8),
}

/// How a designator is encoded.
#[derive(Clone, Copy, Debug, PartialEq, Eq, Structural)]
pub enum CodeSet {
    Binary,
    ASCII,
    Reserved(u8),
}

/// What a designator is associated with.
#[derive(Clone, Copy, Debug, PartialEq, Eq, Structural)]
pub enum Association {
    Device,
    Port,
    Target,
    Reserved,
}

/// A designator.
#[derive(Debug)]
pub enum Identifier<'a> {
    VendorSpecific(&'a [u8]),
    Generic { vendor_id: &'a [u8], id: &'a [u8] },
    EUI64(&'a [u8]),
    FCNameIdentifier(&'a [u8]),
    Port(u32),
    Reserved(u8),
    Invalid,
    MD5(&'a [u8]),
}

/// One designation descriptor.
#[derive(Debug)]
pub struct Descriptor<'a> {
    pub proto: Option<Protocol>,
    pub codeset: CodeSet,
    pub assoc: Association,
    pub id: Identifier<'a>,
}

/// The content of an [`Identifier`], with bytes as sequences.
pub enum IdentifierView {
    VendorSpecific(Seq<u8>),
    Generic { vendor_id: Seq<u8>, id: Seq<u8> },
    EUI64(Seq<u8>),
    FCNameIdentifier(Seq<u8>),
    Port(u32),
    Reserved(u8),
    Invalid,
    MD5(Seq<u8>),
}

/// The content of a [`Descriptor`].
pub struct DescriptorView {
    pub proto: Option<Protocol>,
    pub codeset: CodeSet,
    pub assoc: Association,
    pub id: IdentifierView,
}

/// The content of identifier `i`.
pub open spec fn identifier_view<'a>(i: Identifier<'a>) -> IdentifierView {
    match i {
        Identifier::VendorSpecific(b) => IdentifierView::VendorSpecific(b@),
        Identifier::Generic { vendor_id, id } => IdentifierView::Generic { vendor_id: vendor_id@, id: id@ },
        Identifier::EUI64(b) => IdentifierView::EUI64(b@),
        Identifier::FCNameIdentifier(b) => IdentifierView::FCNameIdentifier(b@),
        Identifier::Port(p) => IdentifierView::Port(p),
        Identifier::Reserved(x) => IdentifierView::Reserved(x),
        Identifier::Invalid => IdentifierView::Invalid,
        Identifier::MD5(b) => IdentifierView::MD5(b@),
    }
}

/// The content of descriptor `d`.
pub open spec fn descriptor_view<'a>(d: Descriptor<'a>) -> DescriptorView {
    DescriptorView { proto: d.proto, codeset: d.codeset, assoc: d.assoc, id: identifier_view(d.id) }
}

/// The protocol that the first two bytes of a designator name, if valid.
pub open spec fn protocol_of(b0: u8, b1: u8) -> Option<Protocol> {
    if b1 & 0x80 == 0 {
        None
    } else {
        let p = b0 >> 4;
        Some(
            if p == 0 {
                Protocol::FC
            } else if p == 1 {
                Protocol::SCSI
            } else if p == 2 {
                Protocol::SSA
            } else if p == 3 {
                Protocol::FireWire
            } else if p == 4 {
                Protocol::RDMA
            } else if p == 5 {
                Protocol::ISCSI
            } else if p == 6 {
                Protocol::SAS
            } else {
                Protocol::Reserved(p)
            },
        )
    }
}

/// The code set that the first byte of a designator names.
pub open spec fn codeset_of(b0: u8) -> CodeSet {
    if b0 & 0x0f == 1 {
        CodeSet::Binary
    } else if b0 & 0x0f == 2 {
        CodeSet::ASCII
    } else {
        CodeSet::Reserved(b0 & 0x0f)
    }
}

/// The association that the second byte of a designator names.
pub open spec fn association_of(b1: u8) -> Association {
    if (b1 >> 4) & 0x03 == 0 {
        Association::Device
    } else if (b1 >> 4) & 0x03 == 1 {
        Association::Port
    } else if (b1 >> 4) & 0x03 == 2 {
        Association::Target
    } else {
        Association::Reserved
    }
}

/// A 32-bit port number, where the designator is binary and four bytes
/// long.
pub open spec fn port_of(id: Seq<u8>, codeset: CodeSet) -> IdentifierView {
    if codeset == CodeSet::Binary && id.len() == 8 {
        IdentifierView::Port(be_value(id.subrange(4, 8)) as u32)
    } else {
        IdentifierView::Invalid
    }
}

/// The identifier of designation descriptor `id` (header included).
pub open spec fn identifier_of(id: Seq<u8>) -> IdentifierView {
    let t = id[1] & 0x0f;
    let codeset = codeset_of(id[0]);
    let assoc = association_of(id[1]);
    let body = id.subrange(4, id.len() as int);
    if t == 0 {
        IdentifierView::VendorSpecific(body)
    } else if t == 1 {
        if id.len() >= 12 {
            IdentifierView::Generic { vendor_id: id.subrange(4, 12), id: id.subrange(12, id.len() as int) }
        } else {
            IdentifierView::Invalid
        }
    } else if t == 2 {
        IdentifierView::EUI64(body)
    } else if t == 3 {
        IdentifierView::FCNameIdentifier(body)
    } else if t == 4 || t == 5 {
        if assoc == Association::Port {
            port_of(id, codeset)
        } else {
            IdentifierView::Reserved(t)
        }
    } else if t == 6 {
        if assoc == Association::Device {
            port_of(id, codeset)
        } else {
            IdentifierView::Reserved(6)
        }
    } else if t == 7 {
        IdentifierView::MD5(body)
    } else {
        IdentifierView::Reserved(t)
    }
}

/// The descriptors of `data` from offset `i` on, or `None` where one runs
/// past the end.
pub open spec fn descriptors_from(data: Seq<u8>, i: int) -> Option<Seq<DescriptorView>>
    decreases data.len() - i,
{
    if i < 0 || i >= data.len() {
        Some(seq![])
    } else if i + 4 > data.len() || i + 4 + data[i + 3] > data.len() {
        None
    } else {
        let id = data.subrange(i, i + 4 + data[i + 3]);
        let d = DescriptorView {
            proto: protocol_of(id[0], id[1]),
            codeset: codeset_of(id[0]),
            assoc: association_of(id[1]),
            id: identifier_of(id),
        };
        match descriptors_from(data, i + 4 + data[i + 3]) {
            Some(rest) => Some(seq![d] + rest),
            None => None,
        }
    }
}

/// The views of a sequence of descriptors.
pub open spec fn descriptors_view<'a>(v: Seq<Descriptor<'a>>) -> Seq<DescriptorView> {
    v.map_values(|d: Descriptor<'a>| descriptor_view(d))
}

fn protocol(b0: u8, b1: u8) -> (r: Option<Protocol>)
    ensures
        r == protocol_of(b0, b1),
{
    if b1 & 0x80 == 0 {
        return None;
    }
    Some(
        match b0 >> 4 {
            0 => Protocol::FC,
            1 => Protocol::SCSI,
            2 => Protocol::SSA,
            3 => Protocol::FireWire,
            4 => Protocol::RDMA,
            5 => Protocol::ISCSI,
            6 => Protocol::SAS,
            x => Protocol::Reserved(x),
        },
    )
}

fn codeset(b0: u8) -> (r: CodeSet)
    ensures
        r == codeset_of(b0),
{
    match b0 & 0x0f {
        1 => CodeSet::Binary,
        2 => CodeSet::ASCII,
        x => CodeSet::Reserved(x),
    }
}

fn association(b1: u8) -> (r: Association)
    ensures
        r == association_of(b1),
{
    match (b1 >> 4) & 0x03 {
        0 => Association::Device,
        1 => Association::Port,
        2 => Association::Target,
        _ => Association::Reserved,
    }
}

fn port<'a>(id: &'a [u8], codeset: CodeSet) -> (r: Identifier<'a>)
    requires
        id@.len() >= 4,
    ensures
        identifier_view(r) == port_of(id@, codeset),
{
    if codeset == CodeSet::Binary && id.len() == 8 {
        let b = slice_subrange(id, 4, 8);
        proof {
            assert(b@.take(4) =~= b@);
            lemma_be_four(b@);
        }
        Identifier::Port(read(b, 32) as u32)
    } else {
        Identifier::Invalid
    }
}

fn identifier<'a>(id: &'a [u8]) -> (r: Identifier<'a>)
    requires
        id@.len() >= 4,
    ensures
        identifier_view(r) == identifier_of(id@),
{
    let t = id[1] & 0x0f;
    let cs = codeset(id[0]);
    let assoc = association(id[1]);
    let len = id.len();
    match t {
        0 => Identifier::VendorSpecific(slice_subrange(id, 4, len)),
        1 => if len >= 12 {
            Identifier::Generic { vendor_id: slice_subrange(id, 4, 12), id: slice_subrange(id, 12, len) }
        } else {
            Identifier::Invalid
        },
        2 => Identifier::EUI64(slice_subrange(id, 4, len)),
        3 => Identifier::FCNameIdentifier(slice_subrange(id, 4, len)),
        4 | 5 => if assoc == Association::Port {
            port(id, cs)
        } else {
            Identifier::Reserved(t)
        },
        6 => if assoc == Association::Device {
            port(id, cs)
        } else {
            Identifier::Reserved(6)
        },
        7 => Identifier::MD5(slice_subrange(id, 4, len)),
        x => Identifier::Reserved(x),
    }
}

/// Parses the designation descriptors of a Device Identification page
/// (the page without its four header bytes); `None` where a descriptor runs
/// past the end of the data.
pub fn parse<'a>(data: &'a [u8]) -> (r: Option<Vec<Descriptor<'a>>>)
    ensures
        match descriptors_from(data@, 0) {
            Some(ds) => r is Some && descriptors_view(r->Some_0@) == ds,
            None => r is None,
        },
{
    let mut descriptors: Vec<Descriptor<'a>> = Vec::new();
    let len = data.len();
    let mut i: usize = 0;
    while i < len
        invariant
            len == data@.len(),
            i <= len,
            descriptors_from(data@, 0) == match descriptors_from(data@, i as int) {
                Some(rest) => Some(descriptors_view(descriptors@) + rest),
                None => None::<Seq<DescriptorView>>,
            },
        decreases len - i,
    {
        if len - i < 4 {
            return None;
        }
        let idlen = data[i + 3] as usize;
        if idlen > len - i - 4 {
            return None;
        }
        let id = slice_subrange(data, i, i + 4 + idlen);
        let d = Descriptor {
            proto: protocol(id[0], id[1]),
            codeset: codeset(id[0]),
            assoc: association(id[1]),
            id: identifier(id),
        };
        let ghost before = descriptors@;
        descriptors.push(d);
        proof {
            assert(descriptors_view(descriptors@) =~= descriptors_view(before).push(descriptor_view(d)));
            match descriptors_from(data@, (i + 4 + idlen) as int) {
                Some(rest) => {
                    assert(descriptors_view(before) + (seq![descriptor_view(d)] + rest)
                        =~= descriptors_view(descriptors@) + rest);
                },
                None => {},
            }
        }
        i = i + 4 + idlen;
    }
    proof {
        assert(descriptors_view(descriptors@) + Seq::<DescriptorView>::empty() =~= descriptors_view(descriptors@));
    }
    Some(descriptors)
}

} // verus!
