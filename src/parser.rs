//! Parser for the drive database text, the C source form in which
//! smartmontools ships it (`drivedb.h`).
//!
//! The text is a sequence of records `{ "family", "model", "firmware",
//! "warning", "presets" }`, separated by commas, with blanks and C comments
//! anywhere between tokens. Each field is one or more adjacent string
//! literals, joined; the literals know the escapes `\n`, `\t`, `\\` and
//! `\"`. An empty firmware pattern means any firmware, an empty warning
//! none. The presets are options separated by blanks: `-v RULE` adds an
//! attribute rule, `-F X` and `-d X` concern other tools and are skipped.

use vstd::prelude::*;
use crate::drivedb::{Entry, EntryView, rules_view};
use crate::text::{chars_of, string_of, whole_is};
use vstd::string::StringExecFns;
use crate::vendor_attribute::{Attribute, AttributeView, ParseError, parse_chars, parse_error_text, parsed};

verus! {

/// Why a database text could not be parsed.
#[derive(Clone, Copy, Debug, PartialEq, Eq, Structural)]
pub enum DbError {
    /// The text ends inside a record or a comment.
    Unterminated,
    /// A string literal holds a line break or an unknown escape, or is not
    /// closed.
    BadLiteral,
    /// A record does not hold five fields, or holds something else.
    BadRecord,
    /// An attribute rule in the presets is malformed.
    BadAttribute(ParseError),
    /// Something other than a record or a comment stands between records,
    /// or the presets hold an unknown option or miss an option's argument.
    UnknownDirective,
}

/// The text that explains a database parse error.
pub open spec fn db_error_text(e: DbError) -> Seq<char> {
    match e {
        DbError::Unterminated => "text ends inside a record or a comment"@,
        DbError::BadLiteral => "malformed string literal"@,
        DbError::BadRecord => "record does not hold five string fields"@,
        DbError::BadAttribute(p) => "malformed attribute rule: "@ + parse_error_text(p),
        DbError::UnknownDirective => "unexpected text or unknown option"@,
    }
}

impl DbError {
    /// What is wrong, in words.
    pub fn message(&self) -> (r: String)
        ensures
            r@ == db_error_text(*self),
    {
        match self {
            DbError::Unterminated => String::from_str("text ends inside a record or a comment"),
            DbError::BadLiteral => String::from_str("malformed string literal"),
            DbError::BadRecord => String::from_str("record does not hold five string fields"),
            DbError::BadAttribute(p) => {
                let mut m = String::from_str("malformed attribute rule: ");
                m.append(p.message());
                m
            },
            DbError::UnknownDirective => String::from_str("unexpected text or unknown option"),
        }
    }
}

/// Whether `c` separates tokens.
pub open spec fn is_blank(c: char) -> bool {
    c == ' ' || c == '\t' || c == '\n' || c == '\r'
}

/// What the next presets token is.
#[derive(Clone, Copy, Debug, PartialEq, Eq, Structural)]
pub enum Expect {
    /// An option.
    Flag,
    /// The rule after `-v`.
    Rule,
    /// The argument of an option that is skipped.
    Skip,
}

/// The state of the presets reader: what comes next, the token being read,
/// and the rules so far.
pub struct PresetView {
    pub expect: Expect,
    pub tok: Seq<char>,
    pub rules: Seq<AttributeView>,
}

/// The effect of the complete token `tok`.
pub open spec fn token_done(expect: Expect, rules: Seq<AttributeView>, tok: Seq<char>) -> Result<(Expect, Seq<AttributeView>), DbError> {
    match expect {
        Expect::Rule => match parsed(tok) {
            Ok(a) => Ok((Expect::Flag, rules.push(a))),
            Err(e) => Err(DbError::BadAttribute(e)),
        },
        Expect::Skip => Ok((Expect::Flag, rules)),
        Expect::Flag => if tok == "-v"@ {
            Ok((Expect::Rule, rules))
        } else if tok == "-F"@ || tok == "-d"@ {
            Ok((Expect::Skip, rules))
        } else {
            Err(DbError::UnknownDirective)
        },
    }
}

/// The presets reader after character `c`.
pub open spec fn preset_step(st: PresetView, c: char) -> Result<PresetView, DbError> {
    if !is_blank(c) {
        Ok(PresetView { tok: st.tok.push(c), ..st })
    } else if st.tok.len() == 0 {
        Ok(st)
    } else {
        match token_done(st.expect, st.rules, st.tok) {
            Ok((x, rs)) => Ok(PresetView { expect: x, tok: seq![], rules: rs }),
            Err(e) => Err(e),
        }
    }
}

/// The rules, once the presets text has ended in state `st`.
pub open spec fn preset_end(st: PresetView) -> Result<Seq<AttributeView>, DbError> {
    let last = if st.tok.len() == 0 {
        Ok((st.expect, st.rules))
    } else {
        token_done(st.expect, st.rules, st.tok)
    };
    match last {
        Ok((x, rs)) => if x == Expect::Flag {
            Ok(rs)
        } else {
            Err(DbError::UnknownDirective)
        },
        Err(e) => Err(e),
    }
}

/// The rules of presets text `p`, read from index `i` on in state `st`.
pub open spec fn presets_from(p: Seq<char>, i: int, st: PresetView) -> Result<Seq<AttributeView>, DbError>
    decreases p.len() - i,
{
    if i >= p.len() {
        preset_end(st)
    } else {
        match preset_step(st, p[i]) {
            Ok(n) => presets_from(p, i + 1, n),
            Err(e) => Err(e),
        }
    }
}

/// The rules that presets text `p` gives.
pub open spec fn presets_parsed(p: Seq<char>) -> Result<Seq<AttributeView>, DbError> {
    presets_from(p, 0, PresetView { expect: Expect::Flag, tok: seq![], rules: seq![] })
}

struct Presets {
    expect: Expect,
    tok: Vec<char>,
    rules: Vec<Attribute>,
}

impl View for Presets {
    type V = PresetView;

    closed spec fn view(&self) -> PresetView {
        PresetView { expect: self.expect, tok: self.tok@, rules: rules_view(self.rules@) }
    }
}

fn is_blank_char(c: char) -> (r: bool)
    ensures
        r == is_blank(c),
{
    c == ' ' || c == '\t' || c == '\n' || c == '\r'
}

impl Presets {
    fn take_token(&mut self) -> (r: Result<(), DbError>)
        ensures
            match token_done(old(self)@.expect, old(self)@.rules, old(self)@.tok) {
                Ok((x, rs)) => r is Ok && final(self)@ == (PresetView { expect: x, tok: seq![], rules: rs }),
                Err(e) => r == Err::<(), DbError>(e),
            },
    {
        let mut tok: Vec<char> = Vec::new();
        core::mem::swap(&mut tok, &mut self.tok);
        proof {
            assert(self.tok@ =~= Seq::<char>::empty());
        }
        match self.expect {
            Expect::Rule => match parse_chars(&tok) {
                Ok(a) => {
                    let ghost before = self.rules@;
                    self.rules.push(a);
                    self.expect = Expect::Flag;
                    proof {
                        assert(rules_view(self.rules@) =~= rules_view(before).push(a@));
                    }
                    Ok(())
                },
                Err(e) => Err(DbError::BadAttribute(e)),
            },
            Expect::Skip => {
                self.expect = Expect::Flag;
                Ok(())
            },
            Expect::Flag => {
                if whole_is(&tok, "-v") {
                    self.expect = Expect::Rule;
                    Ok(())
                } else if whole_is(&tok, "-F") || whole_is(&tok, "-d") {
                    self.expect = Expect::Skip;
                    Ok(())
                } else {
                    Err(DbError::UnknownDirective)
                }
            },
        }
    }
}

/// Reads the rules of a record's presets text.
pub fn parse_presets(p: &Vec<char>) -> (r: Result<Vec<Attribute>, DbError>)
    ensures
        match r {
            Ok(v) => presets_parsed(p@) == Ok::<Seq<AttributeView>, DbError>(rules_view(v@)),
            Err(e) => presets_parsed(p@) == Err::<Seq<AttributeView>, DbError>(e),
        },
{
    let mut st = Presets { expect: Expect::Flag, tok: Vec::new(), rules: Vec::new() };
    proof {
        assert(st@.tok =~= Seq::<char>::empty());
        assert(st@.rules =~= Seq::<AttributeView>::empty());
    }
    let mut i: usize = 0;
    while i < p.len()
        invariant
            i <= p@.len(),
            presets_from(p@, i as int, st@) == presets_parsed(p@),
        decreases p@.len() - i,
    {
        let c = p[i];
        if !is_blank_char(c) {
            st.tok.push(c);
        } else if st.tok.len() > 0 {
            match st.take_token() {
                Ok(()) => {},
                Err(e) => return Err(e),
            }
        }
        i += 1;
    }
    if st.tok.len() > 0 {
        match st.take_token() {
            Ok(()) => {},
            Err(e) => return Err(e),
        }
    }
    match st.expect {
        Expect::Flag => Ok(st.rules),
        _ => Err(DbError::UnknownDirective),
    }
}

/// Where the scanner stands in the text.
#[derive(Clone, Copy, Debug, PartialEq, Eq, Structural)]
pub enum Lex {
    /// Between tokens.
    Code,
    /// After a `/` that may open a comment.
    Slash,
    /// Inside a `//` comment.
    Line,
    /// Inside a `/* */` comment.
    Block,
    /// Inside a `/* */` comment, after a `*`.
    BlockStar,
    /// Inside a string literal.
    Str,
    /// Inside a string literal, after a backslash.
    Escape,
}

/// The state of the database scanner: whether it is inside a record, where
/// it stands, the fields read so far of the open record, the text of the
/// field being read and whether it has a literal yet, and the records so far.
pub struct ScanView {
    pub in_record: bool,
    pub lex: Lex,
    pub fields: Seq<Seq<char>>,
    pub cur: Seq<char>,
    pub has_lit: bool,
    pub records: Seq<EntryView>,
}

/// The character that escape `\c` stands for.
pub open spec fn unescape(c: char) -> Option<char> {
    match c {
        'n' => Some('\n'),
        't' => Some('\t'),
        '\\' => Some('\\'),
        '"' => Some('"'),
        _ => None,
    }
}

/// `t`, or none where it is empty.
pub open spec fn nonempty(t: Seq<char>) -> Option<Seq<char>> {
    if t.len() == 0 {
        None
    } else {
        Some(t)
    }
}

/// The record that five fields make.
pub open spec fn entry_of(fs: Seq<Seq<char>>) -> Result<EntryView, DbError> {
    match presets_parsed(fs[4]) {
        Ok(rules) => Ok(EntryView {
            family: fs[0],
            model: fs[1],
            firmware: nonempty(fs[2]),
            warning: nonempty(fs[3]),
            rules,
        }),
        Err(e) => Err(e),
    }
}

/// The scanner after a character outside literals and comments.
pub open spec fn code_step(st: ScanView, c: char) -> Result<ScanView, DbError> {
    if is_blank(c) {
        Ok(st)
    } else if c == '/' {
        Ok(ScanView { lex: Lex::Slash, ..st })
    } else if !st.in_record {
        if c == '{' {
            Ok(ScanView { in_record: true, fields: seq![], cur: seq![], has_lit: false, ..st })
        } else if c == ',' {
            Ok(st)
        } else {
            Err(DbError::UnknownDirective)
        }
    } else if c == '"' {
        Ok(ScanView { lex: Lex::Str, ..st })
    } else if c == ',' {
        if st.has_lit {
            Ok(ScanView { fields: st.fields.push(st.cur), cur: seq![], has_lit: false, ..st })
        } else {
            Err(DbError::BadRecord)
        }
    } else if c == '}' {
        let fs = if st.has_lit { st.fields.push(st.cur) } else { st.fields };
        if fs.len() != 5 {
            Err(DbError::BadRecord)
        } else {
            match entry_of(fs) {
                Ok(e) => Ok(ScanView {
                    in_record: false,
                    fields: seq![],
                    cur: seq![],
                    has_lit: false,
                    records: st.records.push(e),
                    ..st
                }),
                Err(e) => Err(e),
            }
        }
    } else {
        Err(DbError::BadRecord)
    }
}

/// The scanner after character `c`.
pub open spec fn scan_step(st: ScanView, c: char) -> Result<ScanView, DbError> {
    match st.lex {
        Lex::Str => if c == '"' {
            Ok(ScanView { lex: Lex::Code, has_lit: true, ..st })
        } else if c == '\\' {
            Ok(ScanView { lex: Lex::Escape, ..st })
        } else if c == '\n' {
            Err(DbError::BadLiteral)
        } else {
            Ok(ScanView { cur: st.cur.push(c), ..st })
        },
        Lex::Escape => match unescape(c) {
            Some(e) => Ok(ScanView { lex: Lex::Str, cur: st.cur.push(e), ..st }),
            None => Err(DbError::BadLiteral),
        },
        Lex::Line => if c == '\n' {
            Ok(ScanView { lex: Lex::Code, ..st })
        } else {
            Ok(st)
        },
        Lex::Block => if c == '*' {
            Ok(ScanView { lex: Lex::BlockStar, ..st })
        } else {
            Ok(st)
        },
        Lex::BlockStar => if c == '/' {
            Ok(ScanView { lex: Lex::Code, ..st })
        } else if c == '*' {
            Ok(st)
        } else {
            Ok(ScanView { lex: Lex::Block, ..st })
        },
        Lex::Slash => if c == '/' {
            Ok(ScanView { lex: Lex::Line, ..st })
        } else if c == '*' {
            Ok(ScanView { lex: Lex::Block, ..st })
        } else {
            Err(DbError::UnknownDirective)
        },
        Lex::Code => code_step(st, c),
    }
}

/// The records, once the text has ended in state `st`.
pub open spec fn scan_end(st: ScanView) -> Result<Seq<EntryView>, DbError> {
    match st.lex {
        Lex::Str | Lex::Escape => Err(DbError::BadLiteral),
        Lex::Slash => Err(DbError::UnknownDirective),
        Lex::Block | Lex::BlockStar => Err(DbError::Unterminated),
        Lex::Code | Lex::Line => if st.in_record {
            Err(DbError::Unterminated)
        } else {
            Ok(st.records)
        },
    }
}

/// The records of text `s`, read from index `i` on in state `st`.
pub open spec fn scan_from(s: Seq<char>, i: int, st: ScanView) -> Result<Seq<EntryView>, DbError>
    decreases s.len() - i,
{
    if i >= s.len() {
        scan_end(st)
    } else {
        match scan_step(st, s[i]) {
            Ok(n) => scan_from(s, i + 1, n),
            Err(e) => Err(e),
        }
    }
}

/// The records that the database text `s` holds, in order.
pub open spec fn parsed_db(s: Seq<char>) -> Result<Seq<EntryView>, DbError> {
    scan_from(
        s,
        0,
        ScanView {
            in_record: false,
            lex: Lex::Code,
            fields: seq![],
            cur: seq![],
            has_lit: false,
            records: seq![],
        },
    )
}

/// The views of a sequence of records.
pub open spec fn entries_view(v: Seq<Entry>) -> Seq<EntryView> {
    v.map_values(|e: Entry| e@)
}

/// The views of a sequence of fields.
pub open spec fn fields_view(v: Seq<Vec<char>>) -> Seq<Seq<char>> {
    v.map_values(|f: Vec<char>| f@)
}

struct Scanner {
    in_record: bool,
    lex: Lex,
    fields: Vec<Vec<char>>,
    cur: Vec<char>,
    has_lit: bool,
    records: Vec<Entry>,
}

impl View for Scanner {
    type V = ScanView;

    closed spec fn view(&self) -> ScanView {
        ScanView {
            in_record: self.in_record,
            lex: self.lex,
            fields: fields_view(self.fields@),
            cur: self.cur@,
            has_lit: self.has_lit,
            records: entries_view(self.records@),
        }
    }
}

fn optional_text(t: &Vec<char>) -> (r: Option<String>)
    ensures
        match r {
            Some(x) => nonempty(t@) == Some(x@),
            None => nonempty(t@) is None,
        },
{
    if t.len() == 0 {
        None
    } else {
        Some(string_of(t.as_slice()))
    }
}

fn make_entry(fields: &Vec<Vec<char>>) -> (r: Result<Entry, DbError>)
    requires
        fields@.len() == 5,
    ensures
        match entry_of(fields_view(fields@)) {
            Ok(ev) => r is Ok && r->Ok_0@ == ev,
            Err(e) => r == Err::<Entry, DbError>(e),
        },
{
    let ghost fv = fields_view(fields@);
    proof {
        assert(fv[0] == fields@[0]@);
        assert(fv[1] == fields@[1]@);
        assert(fv[2] == fields@[2]@);
        assert(fv[3] == fields@[3]@);
        assert(fv[4] == fields@[4]@);
    }
    let rules = match parse_presets(&fields[4]) {
        Ok(r) => r,
        Err(e) => return Err(e),
    };
    let firmware = optional_text(&fields[2]);
    let warning = optional_text(&fields[3]);
    let e = Entry {
        family: string_of(fields[0].as_slice()),
        model: string_of(fields[1].as_slice()),
        firmware,
        warning,
        rules,
    };
    proof {
        assert(e@.firmware == nonempty(fv[2]));
        assert(e@.warning == nonempty(fv[3]));
    }
    Ok(e)
}

impl Scanner {
    fn close_field(&mut self)
        ensures
            final(self)@ == (ScanView {
                fields: old(self)@.fields.push(old(self)@.cur),
                cur: seq![],
                has_lit: false,
                ..old(self)@
            }),
    {
        let mut f: Vec<char> = Vec::new();
        core::mem::swap(&mut f, &mut self.cur);
        let ghost before = self.fields@;
        self.fields.push(f);
        self.has_lit = false;
        proof {
            assert(fields_view(self.fields@) =~= fields_view(before).push(f@));
            assert(self.cur@ =~= Seq::<char>::empty());
        }
    }

    fn code(&mut self, c: char) -> (r: Result<(), DbError>)
        requires
            old(self)@.lex == Lex::Code,
        ensures
            match code_step(old(self)@, c) {
                Ok(n) => r is Ok && final(self)@ == n,
                Err(e) => r == Err::<(), DbError>(e),
            },
    {
        if is_blank_char(c) {
            Ok(())
        } else if c == '/' {
            self.lex = Lex::Slash;
            Ok(())
        } else if !self.in_record {
            if c == '{' {
                self.in_record = true;
                self.fields = Vec::new();
                self.cur = Vec::new();
                self.has_lit = false;
                proof {
                    assert(fields_view(self.fields@) =~= Seq::<Seq<char>>::empty());
                    assert(self.cur@ =~= Seq::<char>::empty());
                }
                Ok(())
            } else if c == ',' {
                Ok(())
            } else {
                Err(DbError::UnknownDirective)
            }
        } else if c == '"' {
            self.lex = Lex::Str;
            Ok(())
        } else if c == ',' {
            if self.has_lit {
                self.close_field();
                Ok(())
            } else {
                Err(DbError::BadRecord)
            }
        } else if c == '}' {
            let ghost start = self@;
            if self.has_lit {
                self.close_field();
            }
            if self.fields.len() != 5 {
                proof {
                    assert(fields_view(self.fields@).len() == self.fields@.len());
                }
                return Err(DbError::BadRecord);
            }
            let e = match make_entry(&self.fields) {
                Ok(e) => e,
                Err(err) => return Err(err),
            };
            let ghost before = self.records@;
            self.records.push(e);
            self.in_record = false;
            self.fields = Vec::new();
            self.cur = Vec::new();
            self.has_lit = false;
            proof {
                assert(entries_view(self.records@) =~= entries_view(before).push(e@));
                assert(fields_view(self.fields@) =~= Seq::<Seq<char>>::empty());
                assert(self.cur@ =~= Seq::<char>::empty());
            }
            Ok(())
        } else {
            Err(DbError::BadRecord)
        }
    }

    fn step(&mut self, c: char) -> (r: Result<(), DbError>)
        ensures
            match scan_step(old(self)@, c) {
                Ok(n) => r is Ok && final(self)@ == n,
                Err(e) => r == Err::<(), DbError>(e),
            },
    {
        match self.lex {
            Lex::Str => {
                if c == '"' {
                    self.lex = Lex::Code;
                    self.has_lit = true;
                } else if c == '\\' {
                    self.lex = Lex::Escape;
                } else if c == '\n' {
                    return Err(DbError::BadLiteral);
                } else {
                    self.cur.push(c);
                }
                Ok(())
            },
            Lex::Escape => {
                let e = match c {
                    'n' => '\n',
                    't' => '\t',
                    '\\' => '\\',
                    '"' => '"',
                    _ => return Err(DbError::BadLiteral),
                };
                self.cur.push(e);
                self.lex = Lex::Str;
                Ok(())
            },
            Lex::Line => {
                if c == '\n' {
                    self.lex = Lex::Code;
                }
                Ok(())
            },
            Lex::Block => {
                if c == '*' {
                    self.lex = Lex::BlockStar;
                }
                Ok(())
            },
            Lex::BlockStar => {
                if c == '/' {
                    self.lex = Lex::Code;
                } else if c != '*' {
                    self.lex = Lex::Block;
                }
                Ok(())
            },
            Lex::Slash => {
                if c == '/' {
                    self.lex = Lex::Line;
                    Ok(())
                } else if c == '*' {
                    self.lex = Lex::Block;
                    Ok(())
                } else {
                    Err(DbError::UnknownDirective)
                }
            },
            Lex::Code => self.code(c),
        }
    }
}

/// Parses the drive database text `text` into its records, in order.
pub fn parse_database(text: &str) -> (r: Result<Vec<Entry>, DbError>)
    ensures
        match r {
            Ok(v) => parsed_db(text@) == Ok::<Seq<EntryView>, DbError>(entries_view(v@)),
            Err(e) => parsed_db(text@) == Err::<Seq<EntryView>, DbError>(e),
        },
{
    let s = chars_of(text);
    let mut st = Scanner {
        in_record: false,
        lex: Lex::Code,
        fields: Vec::new(),
        cur: Vec::new(),
        has_lit: false,
        records: Vec::new(),
    };
    proof {
        assert(st@.fields =~= Seq::<Seq<char>>::empty());
        assert(st@.cur =~= Seq::<char>::empty());
        assert(st@.records =~= Seq::<EntryView>::empty());
    }
    let mut i: usize = 0;
    while i < s.len()
        invariant
            s@ == text@,
            i <= s@.len(),
            scan_from(s@, i as int, st@) == parsed_db(text@),
        decreases s@.len() - i,
    {
        match st.step(s[i]) {
            Ok(()) => {},
            Err(e) => return Err(e),
        }
        i += 1;
    }
    match st.lex {
        Lex::Str | Lex::Escape => Err(DbError::BadLiteral),
        Lex::Slash => Err(DbError::UnknownDirective),
        Lex::Block | Lex::BlockStar => Err(DbError::Unterminated),
        Lex::Code | Lex::Line => {
            if st.in_record {
                Err(DbError::Unterminated)
            } else {
                Ok(st.records)
            }
        },
    }
}

} // verus!
