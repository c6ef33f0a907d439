//! READ DEFECT DATA commands and the header of their replies (SBC-3).

use vstd::prelude::*;
use vstd::slice::slice_subrange;
use crate::raw::{be_value, lemma_be_four, lemma_be_two, read};

verus! {

/// How defect addresses are reported.
#[derive(Clone, Copy, Debug, PartialEq, Eq, Structural)]
pub enum AddrDescriptorFormat {
    ShortBlock,
    LongBlock,
    BytesFromIndex,
    PhysicalSector,
    VendorSpecific,
}

/// The three-bit code of a descriptor format.
pub open spec fn format_code(f: AddrDescriptorFormat) -> u8 {
    match f {
        AddrDescriptorFormat::ShortBlock => 0b000,
        AddrDescriptorFormat::LongBlock => 0b011,
        AddrDescriptorFormat::BytesFromIndex => 0b100,
        AddrDescriptorFormat::PhysicalSector => 0b101,
        AddrDescriptorFormat::VendorSpecific => 0b110,
    }
}

impl AddrDescriptorFormat {
    /// The three-bit code of this format.
    pub fn code(&self) -> (r: u8)
        ensures
            r == format_code(*self),
    {
        match self {
            AddrDescriptorFormat::ShortBlock => 0b000,
            AddrDescriptorFormat::LongBlock => 0b011,
            AddrDescriptorFormat::BytesFromIndex => 0b100,
            AddrDescriptorFormat::PhysicalSector => 0b101,
            AddrDescriptorFormat::VendorSpecific => 0b110,
        }
    }
}

/// The byte holding the list request bits and the format.
pub open spec fn request_byte(plist: u8, glist: u8, format: AddrDescriptorFormat) -> u8 {
    (plist * 16 + glist * 8 + format_code(format)) as u8
}

/// The READ DEFECT DATA (10) command asking for the defect list header
/// only, with the number of bytes to read back.
pub fn read_defect_data_10_cmd(plist: u8, glist: u8, format: AddrDescriptorFormat) -> (r: (Vec<u8>, usize))
    requires
        plist <= 1,
        glist <= 1,
    ensures
        r.0@ == seq![0x37u8, 0, request_byte(plist, glist, format), 0, 0, 0, 0, 0, 4, 0],
        r.1 == 4,
{
    let alloc: usize = 4;
    let cmd = vec![
        0x37,
        0,
        plist * 16 + glist * 8 + format.code(),
        0, 0, 0, 0,
        (alloc / 0x100 % 0x100) as u8,
        (alloc % 0x100) as u8,
        0,
    ];
    (cmd, alloc)
}

/// The READ DEFECT DATA (12) command asking for the defect list header
/// only, with the number of bytes to read back.
pub fn read_defect_data_12_cmd(plist: u8, glist: u8, format: AddrDescriptorFormat) -> (r: (Vec<u8>, usize))
    requires
        plist <= 1,
        glist <= 1,
    ensures
        r.0@ == seq![0xb7u8, request_byte(plist, glist, format), 0, 0, 0, 0, 0, 0, 0, 8, 0, 0],
        r.1 == 8,
{
    let alloc: usize = 8;
    let cmd = vec![
        0xb7,
        plist * 16 + glist * 8 + format.code(),
        0, 0, 0, 0,
        (alloc / 0x100_0000 % 0x100) as u8,
        (alloc / 0x1_0000 % 0x100) as u8,
        (alloc / 0x100 % 0x100) as u8,
        (alloc % 0x100) as u8,
        0,
        0,
    ];
    (cmd, alloc)
}

/// Parses the header of a READ DEFECT DATA (10) reply: the list format,
/// whether the grown and the primary list are valid, and the list length.
pub fn parse_defect_data_10(data: &[u8]) -> (r: Option<(u8, bool, bool, u16)>)
    ensures
        data@.len() < 4 ==> r is None,
        data@.len() >= 4 ==> r == Some((
            data@[1] & 0x07,
            data@[1] & 0x08 != 0,
            data@[1] & 0x10 != 0,
            be_value(data@.subrange(2, 4)) as u16,
        )),
{
    if data.len() < 4 {
        return None;
    }
    let len = slice_subrange(data, 2, 4);
    proof {
        assert(len@.take(2) =~= len@);
        lemma_be_two(len@);
    }
    Some((data[1] & 0x07, data[1] & 0x08 != 0, data[1] & 0x10 != 0, read(len, 16) as u16))
}

/// Parses the header of a READ DEFECT DATA (12) reply: the list format,
/// whether the grown and the primary list are valid, and the list length.
pub fn parse_defect_data_12(data: &[u8]) -> (r: Option<(u8, bool, bool, u32)>)
    ensures
        data@.len() < 8 ==> r is None,
        data@.len() >= 8 ==> r == Some((
            data@[1] & 0x07,
            data@[1] & 0x08 != 0,
            data@[1] & 0x10 != 0,
            be_value(data@.subrange(4, 8)) as u32,
        )),
{
    if data.len() < 8 {
        return None;
    }
    let len = slice_subrange(data, 4, 8);
    proof {
        assert(len@.take(4) =~= len@);
        lemma_be_four(len@);
    }
    Some((data[1] & 0x07, data[1] & 0x08 != 0, data[1] & 0x10 != 0, read(len, 32) as u32))
}

} // verus!
