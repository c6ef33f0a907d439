//! SCSI log pages and the parameters they hold (SPC-4, 7.3).

use vstd::prelude::*;
use vstd::slice::{slice_subrange, slice_to_vec};
use crate::raw::{be_value, lemma_be_two, read};

verus! {

/// A log page, as returned by LOG SENSE.
#[derive(Debug)]
pub struct Page {
    /// The page was read from saved values.
    pub saved: bool,
    pub page: u8,
    pub subpage: Option<u8>,
    /// The page contents after the four header bytes.
    pub data: Vec<u8>,
}

/// When a parameter's value is compared with its threshold.
#[derive(Clone, Copy, Debug, PartialEq, Eq, Structural)]
pub enum Condition {
    Never,
    Always,
    Eq,
    Ne,
    Gt,
}

/// How a parameter's value is to be read.
#[derive(Clone, Copy, Debug, PartialEq, Eq, Structural)]
pub enum Format {
    BoundedCounter,
    ASCIIList,
    UnboundedCounter,
    BinaryList,
}

/// One log parameter.
#[derive(Debug)]
pub struct Parameter {
    pub code: u16,
    pub update_disabled: bool,
    pub target_save: bool,
    pub threshold_comparison: Condition,
    pub format: Format,
    pub value: Vec<u8>,
}

/// The content of a [`Parameter`], with the value as a byte sequence.
pub struct ParameterView {
    pub code: u16,
    pub update_disabled: bool,
    pub target_save: bool,
    pub threshold_comparison: Condition,
    pub format: Format,
    pub value: Seq<u8>,
}

impl View for Parameter {
    type V = ParameterView;

    open spec fn view(&self) -> ParameterView {
        ParameterView {
            code: self.code,
            update_disabled: self.update_disabled,
            target_save: self.target_save,
            threshold_comparison: self.threshold_comparison,
            format: self.format,
            value: self.value@,
        }
    }
}

/// The total length that a page header announces.
pub open spec fn page_len(d: Seq<u8>) -> int {
    be_value(d.subrange(2, 4)) as int + 4
}

/// Whether `d` holds a whole page with a consistent subpage field.
pub open spec fn page_ok(d: Seq<u8>) -> bool {
    &&& d.len() >= 4
    &&& d.len() >= page_len(d)
    &&& (d[0] & 0x40 != 0 || d[1] == 0)
}

/// Parses a log page; `None` where the data is shorter than the page
/// length says, or a subpage is given without the subpage format bit.
pub fn parse(data: &[u8]) -> (r: Option<Page>)
    ensures
        r is Some <==> page_ok(data@),
        r matches Some(p) ==> {
            &&& p.saved == (data@[0] & 0x80 == 0)
            &&& p.page == data@[0] & 0x3f
            &&& p.subpage == if data@[0] & 0x40 != 0 { Some(data@[1]) } else { None::<u8> }
            &&& p.data@ == data@.subrange(4, page_len(data@))
        },
{
    if data.len() < 4 {
        return None;
    }
    let header = slice_subrange(data, 2, 4);
    proof {
        assert(header@.take(2) =~= header@);
        lemma_be_two(header@);
    }
    let len = read(header, 16) as usize + 4;
    if data.len() < len {
        return None;
    }
    let subpage = if data[0] & 0x40 != 0 {
        Some(data[1])
    } else if data[1] == 0 {
        None
    } else {
        return None;
    };
    Some(Page {
        saved: data[0] & 0x80 == 0,
        page: data[0] & 0x3f,
        subpage,
        data: slice_to_vec(slice_subrange(data, 4, len)),
    })
}

/// How the control byte of a parameter says its value is compared.
pub open spec fn condition_of(control: u8) -> Condition {
    if control & 0x10 == 0 {
        Condition::Never
    } else if (control & 0x0c) >> 2 == 0 {
        Condition::Always
    } else if (control & 0x0c) >> 2 == 1 {
        Condition::Eq
    } else if (control & 0x0c) >> 2 == 2 {
        Condition::Ne
    } else {
        Condition::Gt
    }
}

/// How the control byte of a parameter says its value is read.
pub open spec fn format_of(control: u8) -> Format {
    if control & 0x03 == 0 {
        Format::BoundedCounter
    } else if control & 0x03 == 1 {
        Format::ASCIIList
    } else if control & 0x03 == 2 {
        Format::UnboundedCounter
    } else {
        Format::BinaryList
    }
}

/// The parameter whose header starts at offset `i` of `d`.
pub open spec fn param_at(d: Seq<u8>, i: int) -> ParameterView {
    let control = d[i + 2];
    ParameterView {
        code: be_value(d.subrange(i, i + 2)) as u16,
        update_disabled: control & 0x80 != 0,
        target_save: control & 0x20 != 0,
        threshold_comparison: condition_of(control),
        format: format_of(control),
        value: d.subrange(i + 4, i + 4 + d[i + 3]),
    }
}

/// The parameters of `d` from offset `i` on, or `None` where one runs past
/// the end.
pub open spec fn params_from(d: Seq<u8>, i: int) -> Option<Seq<ParameterView>>
    decreases d.len() - i,
{
    if i < 0 || i >= d.len() {
        Some(seq![])
    } else if i + 4 > d.len() || i + 4 + d[i + 3] > d.len() {
        None
    } else {
        match params_from(d, i + 4 + d[i + 3]) {
            Some(rest) => Some(seq![param_at(d, i)] + rest),
            None => None,
        }
    }
}

/// The views of a sequence of parameters.
pub open spec fn params_view(v: Seq<Parameter>) -> Seq<ParameterView> {
    v.map_values(|p: Parameter| p@)
}

fn condition(control: u8) -> (r: Condition)
    ensures
        r == condition_of(control),
{
    if control & 0x10 == 0 {
        Condition::Never
    } else if (control & 0x0c) >> 2 == 0 {
        Condition::Always
    } else if (control & 0x0c) >> 2 == 1 {
        Condition::Eq
    } else if (control & 0x0c) >> 2 == 2 {
        Condition::Ne
    } else {
        Condition::Gt
    }
}

fn format(control: u8) -> (r: Format)
    ensures
        r == format_of(control),
{
    if control & 0x03 == 0 {
        Format::BoundedCounter
    } else if control & 0x03 == 1 {
        Format::ASCIIList
    } else if control & 0x03 == 2 {
        Format::UnboundedCounter
    } else {
        Format::BinaryList
    }
}

impl Page {
    /// Parses the page contents as a list of parameters; `None` where a
    /// parameter spans past the end of the data. Not every page holds
    /// parameters: page 00h lists the supported pages as plain bytes.
    pub fn parse_params(&self) -> (r: Option<Vec<Parameter>>)
        ensures
            match params_from(self.data@, 0) {
                Some(ps) => r is Some && params_view(r->Some_0@) == ps,
                None => r is None,
            },
    {
        let d = self.data.as_slice();
        let len = d.len();
        let mut params: Vec<Parameter> = Vec::new();
        let mut i: usize = 0;
        while i < len
            invariant
                d@ == self.data@,
                len == d@.len(),
                i <= len,
                params_from(d@, 0) == match params_from(d@, i as int) {
                    Some(rest) => Some(params_view(params@) + rest),
                    None => None::<Seq<ParameterView>>,
                },
            decreases len - i,
        {
            if len - i < 4 {
                return None;
            }
            let head = slice_subrange(d, i, i + 2);
            proof {
                assert(head@.take(2) =~= head@);
                lemma_be_two(head@);
            }
            let code = read(head, 16) as u16;
            let control = d[i + 2];
            let plen = d[i + 3] as usize;
            if plen > len - i - 4 {
                return None;
            }
            let p = Parameter {
                code,
                update_disabled: control & 0x80 != 0,
                target_save: control & 0x20 != 0,
                threshold_comparison: condition(control),
                format: format(control),
                value: slice_to_vec(slice_subrange(d, i + 4, i + 4 + plen)),
            };
            let ghost before = params@;
            params.push(p);
            proof {
                assert(p@ == param_at(d@, i as int));
                assert(params_view(params@) =~= params_view(before).push(p@));
                let next = i + 4 + plen;
                match params_from(d@, next as int) {
                    Some(rest) => {
                        assert(params_view(before) + (seq![param_at(d@, i as int)] + rest)
                            =~= params_view(params@) + rest);
                    },
                    None => {},
                }
            }
            i = i + 4 + plen;
        }
        proof {
            assert(params_view(params@) + Seq::<ParameterView>::empty() =~= params_view(params@));
        }
        Some(params)
    }
}

} // verus!
