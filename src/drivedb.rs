//! The drive database and the resolution of the rules that apply to one
//! drive.
//!
//! A database record matches a drive when its model pattern matches the
//! whole model string and its firmware pattern, if it has one, matches the
//! whole firmware string. All matching records contribute, in database
//! order: for each attribute id the rule of the last matching record wins.
//! When a drive type is given, rules restricted to the other type rank
//! below every other database rule, whatever their record's position. User
//! rules are applied last and always win. The warning is that of the last
//! matching record that has one.

use vstd::prelude::*;
use vstd::string::StringExecFns;
use crate::vendor_attribute::{Attribute, AttributeView, Type};

verus! {

/// What `regex::Regex` makes of `pattern` searched for in `text`: `None`
/// where the pattern does not compile, else whether it matches somewhere.
pub uninterp spec fn regex_match(pattern: Seq<char>, text: Seq<char>) -> Option<bool>;

/// Relies on `regex::Regex::new` and `regex::Regex::is_match`: the pattern
/// is compiled, and on success searched for anywhere in `text`. Both depend
/// on the two strings alone.
#[verifier::external_body]
fn regex_search(pattern: &str, text: &str) -> (r: Option<bool>)
    ensures
        r == regex_match(pattern@, text@),
{
    match regex::Regex::new(pattern) {
        Ok(re) => Some(re.is_match(text)),
        Err(_) => None,
    }
}

/// `pattern` as a regular expression that must match the whole text.
pub open spec fn anchored(pattern: Seq<char>) -> Seq<char> {
    "^(?:"@ + pattern + ")$"@
}

/// Whether `pattern` compiles and matches the whole of `text`.
pub open spec fn pattern_matches(pattern: Seq<char>, text: Seq<char>) -> bool {
    regex_match(anchored(pattern), text) == Some(true)
}

/// Whether `pattern` compiles and matches the whole of `text`.
pub fn full_match(pattern: &str, text: &str) -> (r: bool)
    ensures
        r == pattern_matches(pattern@, text@),
{
    let mut p = String::from_str("^(?:");
    p.append(pattern);
    p.append(")$");
    proof {
        assert(p@ =~= anchored(pattern@));
    }
    match regex_search(p.as_str(), text) {
        Some(found) => found,
        None => false,
    }
}

/// One family record of the drive database.
#[derive(Debug)]
pub struct Entry {
    /// Display label of the drive family.
    pub family: String,
    /// Pattern for the model string.
    pub model: String,
    /// Pattern for the firmware string; none means any firmware.
    pub firmware: Option<String>,
    /// Advisory text for drives of this family.
    pub warning: Option<String>,
    /// Attribute rules of this family.
    pub rules: Vec<Attribute>,
}

/// Text of an optional string as characters.
pub open spec fn opt_view(o: Option<String>) -> Option<Seq<char>> {
    match o {
        Some(t) => Some(t@),
        None => None,
    }
}

/// The content of an [`Entry`], with text as character sequences.
pub struct EntryView {
    pub family: Seq<char>,
    pub model: Seq<char>,
    pub firmware: Option<Seq<char>>,
    pub warning: Option<Seq<char>>,
    pub rules: Seq<AttributeView>,
}

/// The views of a sequence of rules.
pub open spec fn rules_view(rules: Seq<Attribute>) -> Seq<AttributeView> {
    rules.map_values(|a: Attribute| a@)
}

impl View for Entry {
    type V = EntryView;

    open spec fn view(&self) -> EntryView {
        EntryView {
            family: self.family@,
            model: self.model@,
            firmware: opt_view(self.firmware),
            warning: opt_view(self.warning),
            rules: rules_view(self.rules@),
        }
    }
}

/// Whether record `e` applies to a drive with this model and firmware.
pub open spec fn entry_matches(e: Entry, model: Seq<char>, firmware: Seq<char>) -> bool {
    &&& pattern_matches(e.model@, model)
    &&& match e.firmware {
        Some(f) => pattern_matches(f@, firmware),
        None => true,
    }
}

/// The last rule for `id` in `rules`.
pub open spec fn rule_for(rules: Seq<Attribute>, id: u8) -> Option<Attribute>
    decreases rules.len(),
{
    if rules.len() == 0 {
        None
    } else if rules.last().id == Some(id) {
        Some(rules.last())
    } else {
        rule_for(rules.drop_last(), id)
    }
}

/// `a` where it holds a rule, else `b`.
pub open spec fn or_else(a: Option<Attribute>, b: Option<Attribute>) -> Option<Attribute> {
    match a {
        Some(x) => Some(x),
        None => b,
    }
}

/// Whether rule `a` is restricted to another type of drive than `hint`.
pub open spec fn conflicts(a: Attribute, hint: Option<Type>) -> bool {
    match (hint, a.drivetype) {
        (Some(h), Some(t)) => h != t,
        _ => false,
    }
}

/// The last rule for `id` in `rules` whose conflict with `hint` is
/// `conflicting`.
pub open spec fn layered_rule(rules: Seq<Attribute>, id: u8, hint: Option<Type>, conflicting: bool) -> Option<Attribute>
    decreases rules.len(),
{
    if rules.len() == 0 {
        None
    } else if rules.last().id == Some(id) && conflicts(rules.last(), hint) == conflicting {
        Some(rules.last())
    } else {
        layered_rule(rules.drop_last(), id, hint, conflicting)
    }
}

/// Whether flag `j` of `matched` is set; a missing flag counts as unset.
pub open spec fn flag(matched: Seq<bool>, j: int) -> bool {
    0 <= j < matched.len() && matched[j]
}

/// For each record, whether it applies to a drive with this model and
/// firmware.
pub open spec fn match_flags(entries: Seq<Entry>, model: Seq<char>, firmware: Seq<char>) -> Seq<bool> {
    Seq::new(entries.len(), |j: int| entry_matches(entries[j], model, firmware))
}

/// The rule for `id`, among those whose conflict with `hint` is
/// `conflicting`, of the last of the first `n` records that is flagged in
/// `matched` and has one.
pub open spec fn db_layer(
    entries: Seq<Entry>,
    matched: Seq<bool>,
    n: int,
    hint: Option<Type>,
    conflicting: bool,
    id: u8,
) -> Option<Attribute>
    decreases n,
{
    if n <= 0 {
        None
    } else {
        let here = if flag(matched, n - 1) {
            layered_rule(entries[n - 1].rules@, id, hint, conflicting)
        } else {
            None
        };
        or_else(here, db_layer(entries, matched, n - 1, hint, conflicting, id))
    }
}

/// The rule for `id` that the flagged records give: one of a preferred type
/// where any of them has one, else one of the other type.
pub open spec fn db_rule(entries: Seq<Entry>, matched: Seq<bool>, hint: Option<Type>, id: u8) -> Option<Attribute> {
    or_else(
        db_layer(entries, matched, entries.len() as int, hint, false, id),
        db_layer(entries, matched, entries.len() as int, hint, true, id),
    )
}

/// The rule in force for `id`: the last user rule for it, else the one of
/// the flagged records.
pub open spec fn resolved_rule(
    entries: Seq<Entry>,
    matched: Seq<bool>,
    hint: Option<Type>,
    user: Seq<Attribute>,
    id: u8,
) -> Option<Attribute> {
    or_else(rule_for(user, id), db_rule(entries, matched, hint, id))
}

/// The warning of the last of the first `n` records that is flagged and has
/// one.
pub open spec fn resolved_warning(entries: Seq<Entry>, matched: Seq<bool>, n: int) -> Option<String>
    decreases n,
{
    if n <= 0 {
        None
    } else if flag(matched, n - 1) && entries[n - 1].warning is Some {
        entries[n - 1].warning
    } else {
        resolved_warning(entries, matched, n - 1)
    }
}

/// The rules resolved for one drive.
#[derive(Debug)]
pub struct DriveMeta {
    /// Advisory text of the matching records, if any.
    pub warning: Option<String>,
    /// The type of drive the rules were resolved for.
    pub drivetype: Option<Type>,
    /// The rules; for each id the last one is in force.
    pub rules: Vec<Attribute>,
}

impl DriveMeta {
    /// The rule in force for attribute `id`.
    pub open spec fn rule(&self, id: u8) -> Option<Attribute> {
        rule_for(self.rules@, id)
    }

    /// The rule in force for attribute `id`, or `None` where neither the
    /// database nor the user gave one.
    pub fn render_attribute(&self, id: u8) -> (r: Option<Attribute>)
        ensures
            r == self.rule(id),
    {
        let mut i: usize = self.rules.len();
        proof {
            assert(self.rules@.take(i as int) =~= self.rules@);
        }
        while i > 0
            invariant
                i <= self.rules@.len(),
                rule_for(self.rules@, id) == rule_for(self.rules@.take(i as int), id),
            decreases i,
        {
            proof {
                assert(self.rules@.take(i as int).drop_last() =~= self.rules@.take(i - 1));
            }
            if self.rules[i - 1].id == Some(id) {
                return Some(self.rules[i - 1].duplicate());
            }
            i -= 1;
        }
        None
    }
}

/// The drive database: family records in file order. It is not changed
/// once built.
#[derive(Debug)]
pub struct DriveDB {
    entries: Vec<Entry>,
}

impl DriveDB {
    /// The records, in order.
    pub closed spec fn records(&self) -> Seq<Entry> {
        self.entries@
    }

    /// A database of the given records.
    pub fn new(entries: Vec<Entry>) -> (r: DriveDB)
        ensures
            r.records() == entries@,
    {
        DriveDB { entries }
    }

    /// A database without records, for when none could be loaded.
    pub fn empty() -> (r: DriveDB)
        ensures
            r.records().len() == 0,
    {
        DriveDB { entries: Vec::new() }
    }

    /// The records, in order.
    pub fn entries(&self) -> (r: &Vec<Entry>)
        ensures
            r@ == self.records(),
    {
        &self.entries
    }

    /// Whether record `j` applies to this model and firmware.
    fn matches_at(&self, j: usize, model: &str, firmware: &str) -> (r: bool)
        requires
            j < self.records().len(),
        ensures
            r == entry_matches(self.records()[j as int], model@, firmware@),
    {
        let e = &self.entries[j];
        if !full_match(e.model.as_str(), model) {
            return false;
        }
        match &e.firmware {
            Some(f) => full_match(f.as_str(), firmware),
            None => true,
        }
    }

    /// Appends, for each flagged record in order, its rules whose conflict
    /// with `hint` is `conflicting`.
    fn push_layer(&self, rules: &mut Vec<Attribute>, matched: &Vec<bool>, hint: Option<Type>, conflicting: bool)
        ensures
            forall|id: u8| rule_for(final(rules)@, id) == or_else(
                db_layer(self.records(), matched@, self.records().len() as int, hint, conflicting, id),
                rule_for(old(rules)@, id),
            ),
    {
        let ghost start = rules@;
        let ghost entries = self.entries@;
        let mut j: usize = 0;
        while j < self.entries.len()
            invariant
                entries == self.entries@,
                j <= entries.len(),
                forall|id: u8| rule_for(rules@, id) == or_else(
                    db_layer(entries, matched@, j as int, hint, conflicting, id),
                    rule_for(start, id),
                ),
            decreases entries.len() - j,
        {
            let e = &self.entries[j];
            let ghost before = rules@;
            if j < matched.len() && matched[j] {
                let mut k: usize = 0;
                while k < e.rules.len()
                    invariant
                        k <= e.rules@.len(),
                        forall|id: u8| rule_for(rules@, id) == or_else(
                            layered_rule(e.rules@.take(k as int), id, hint, conflicting),
                            rule_for(before, id),
                        ),
                    decreases e.rules@.len() - k,
                {
                    let a = &e.rules[k];
                    let keep = match (hint, a.drivetype) {
                        (Some(h), Some(t)) => h != t,
                        _ => false,
                    } == conflicting;
                    let ghost prev = rules@;
                    if keep {
                        rules.push(a.duplicate());
                    }
                    proof {
                        assert(e.rules@.take(k + 1).drop_last() =~= e.rules@.take(k as int));
                        assert forall|id: u8| rule_for(rules@, id) == or_else(
                            layered_rule(e.rules@.take(k + 1), id, hint, conflicting),
                            rule_for(before, id),
                        ) by {
                            assert(e.rules@.take(k + 1).last() == e.rules@[k as int]);
                            assert(rule_for(prev, id) == or_else(
                                layered_rule(e.rules@.take(k as int), id, hint, conflicting),
                                rule_for(before, id),
                            ));
                            if keep {
                                assert(rules@.drop_last() =~= prev);
                                assert(rules@.last() == e.rules@[k as int]);
                            }
                        }
                    }
                    k += 1;
                }
                proof {
                    assert(e.rules@.take(k as int) =~= e.rules@);
                }
            }
            proof {
                assert forall|id: u8| rule_for(rules@, id) == or_else(
                    db_layer(entries, matched@, j + 1, hint, conflicting, id),
                    rule_for(start, id),
                ) by {
                    assert(rule_for(before, id) == or_else(
                        db_layer(entries, matched@, j as int, hint, conflicting, id),
                        rule_for(start, id),
                    ));
                }
            }
            j += 1;
        }
    }

    /// Resolves the rules for a drive that the records flagged in `matched`
    /// apply to (a missing flag counts as unset), of type `drivetype` where
    /// known, with the user's rules applied last.
    pub fn merge(&self, matched: &Vec<bool>, drivetype: Option<Type>, user_attributes: &Vec<Attribute>) -> (r: DriveMeta)
        ensures
            forall|id: u8| #[trigger] r.rule(id) == resolved_rule(
                self.records(), matched@, drivetype, user_attributes@, id,
            ),
            r.warning == resolved_warning(self.records(), matched@, self.records().len() as int),
            r.drivetype == drivetype,
    {
        let ghost entries = self.entries@;
        let mut warning: Option<String> = None;
        let mut j: usize = 0;
        while j < self.entries.len()
            invariant
                entries == self.entries@,
                j <= entries.len(),
                warning == resolved_warning(entries, matched@, j as int),
            decreases entries.len() - j,
        {
            if j < matched.len() && matched[j] {
                if let Some(w) = &self.entries[j].warning {
                    warning = Some(w.clone());
                }
            }
            j += 1;
        }
        let mut rules: Vec<Attribute> = Vec::new();
        self.push_layer(&mut rules, matched, drivetype, true);
        self.push_layer(&mut rules, matched, drivetype, false);
        let ghost base = rules@;
        let mut k: usize = 0;
        while k < user_attributes.len()
            invariant
                k <= user_attributes@.len(),
                forall|id: u8| rule_for(rules@, id) == or_else(
                    rule_for(user_attributes@.take(k as int), id),
                    rule_for(base, id),
                ),
            decreases user_attributes@.len() - k,
        {
            let ghost prev = rules@;
            rules.push(user_attributes[k].duplicate());
            proof {
                assert(rules@.drop_last() =~= prev);
                assert(user_attributes@.take(k + 1).drop_last() =~= user_attributes@.take(k as int));
                assert forall|id: u8| rule_for(rules@, id) == or_else(
                    rule_for(user_attributes@.take(k + 1), id),
                    rule_for(base, id),
                ) by {
                    assert(user_attributes@.take(k + 1).last() == user_attributes@[k as int]);
                    assert(rules@.last() == user_attributes@[k as int]);
                    assert(rule_for(prev, id) == or_else(
                        rule_for(user_attributes@.take(k as int), id),
                        rule_for(base, id),
                    ));
                }
            }
            k += 1;
        }
        proof {
            assert(user_attributes@.take(k as int) =~= user_attributes@);
        }
        DriveMeta { warning, drivetype, rules }
    }

    /// Resolves the rules for a drive with this model and firmware, of type
    /// `drivetype` where known, with the user's rules applied last.
    pub fn render_meta(
        &self,
        model: &str,
        firmware: &str,
        drivetype: Option<Type>,
        user_attributes: &Vec<Attribute>,
    ) -> (r: DriveMeta)
        ensures
            forall|id: u8| #[trigger] r.rule(id) == resolved_rule(
                self.records(), match_flags(self.records(), model@, firmware@), drivetype, user_attributes@, id,
            ),
            r.warning == resolved_warning(
                self.records(),
                match_flags(self.records(), model@, firmware@),
                self.records().len() as int,
            ),
            r.drivetype == drivetype,
    {
        let ghost entries = self.entries@;
        let mut matched: Vec<bool> = Vec::new();
        let mut j: usize = 0;
        while j < self.entries.len()
            invariant
                entries == self.entries@,
                j <= entries.len(),
                matched@.len() == j,
                forall|k: int| 0 <= k < j ==> matched@[k] == entry_matches(entries[k], model@, firmware@),
            decreases entries.len() - j,
        {
            matched.push(self.matches_at(j, model, firmware));
            j += 1;
        }
        proof {
            assert(matched@ =~= match_flags(entries, model@, firmware@));
        }
        self.merge(&matched, drivetype, user_attributes)
    }
}

/// A user rule for an id wins over whatever the database gives for it,
/// whatever the records, which of them match, and the drive type.
pub proof fn lemma_user_rule_wins(db: DriveDB, matched: Seq<bool>, hint: Option<Type>, user: Seq<Attribute>, id: u8)
    requires
        rule_for(user, id) is Some,
    ensures
        resolved_rule(db.records(), matched, hint, user, id) == rule_for(user, id),
{
}

proof fn lemma_unflagged(entries: Seq<Entry>, matched: Seq<bool>, n: int, hint: Option<Type>, conflicting: bool, id: u8)
    requires
        forall|j: int| 0 <= j < n ==> !flag(matched, j),
    ensures
        db_layer(entries, matched, n, hint, conflicting, id) is None,
        resolved_warning(entries, matched, n) is None,
    decreases n,
{
    if n > 0 {
        lemma_unflagged(entries, matched, n - 1, hint, conflicting, id);
    }
}

/// A drive that no record matches gets, without user rules, no rule for
/// any id and no warning.
pub proof fn lemma_unmatched_drive(db: DriveDB, model: Seq<char>, firmware: Seq<char>, hint: Option<Type>)
    requires
        forall|j: int| 0 <= j < db.records().len() ==> !entry_matches(#[trigger] db.records()[j], model, firmware),
    ensures
        forall|id: u8| #[trigger] resolved_rule(
            db.records(), match_flags(db.records(), model, firmware), hint, seq![], id,
        ) is None,
        resolved_warning(db.records(), match_flags(db.records(), model, firmware), db.records().len() as int)
            is None,
{
    let entries = db.records();
    let flags = match_flags(entries, model, firmware);
    assert forall|j: int| 0 <= j < entries.len() implies !flag(flags, j) by {
        assert(!entry_matches(entries[j], model, firmware));
    }
    assert forall|id: u8| #[trigger] resolved_rule(entries, flags, hint, seq![], id) is None by {
        lemma_unflagged(entries, flags, entries.len() as int, hint, false, id);
        lemma_unflagged(entries, flags, entries.len() as int, hint, true, id);
    }
    lemma_unflagged(entries, flags, entries.len() as int, hint, false, 0);
}

proof fn lemma_last_rule_kept(rules: Seq<Attribute>, id: u8, hint: Option<Type>, r: Attribute)
    requires
        rule_for(rules, id) == Some(r),
        !conflicts(r, hint),
    ensures
        layered_rule(rules, id, hint, false) == Some(r),
    decreases rules.len(),
{
    if rules.len() > 0 && rules.last().id != Some(id) {
        lemma_last_rule_kept(rules.drop_last(), id, hint, r);
    }
}

proof fn lemma_single_layer(entries: Seq<Entry>, matched: Seq<bool>, n: int, j: int, hint: Option<Type>, id: u8, r: Attribute)
    requires
        0 <= j < n <= entries.len(),
        forall|k: int| 0 <= k < entries.len() ==> (flag(matched, k) <==> k == j),
        layered_rule(entries[j].rules@, id, hint, false) == Some(r),
        entries[j].warning is Some,
    ensures
        db_layer(entries, matched, n, hint, false, id) == Some(r),
        resolved_warning(entries, matched, n) == entries[j].warning,
    decreases n,
{
    if n - 1 > j {
        lemma_single_layer(entries, matched, n - 1, j, hint, id, r);
    }
}

/// Where exactly one record is flagged, that record has a warning, and its
/// rule for `id` is not restricted to another type of drive, the drive gets,
/// without user rules, that warning and that rule.
pub proof fn lemma_single_record(db: DriveDB, matched: Seq<bool>, hint: Option<Type>, j: int, id: u8, r: Attribute)
    requires
        0 <= j < db.records().len(),
        forall|k: int| 0 <= k < db.records().len() ==> (flag(matched, k) <==> k == j),
        db.records()[j].warning is Some,
        rule_for(db.records()[j].rules@, id) == Some(r),
        !conflicts(r, hint),
    ensures
        resolved_warning(db.records(), matched, db.records().len() as int) == db.records()[j].warning,
        resolved_rule(db.records(), matched, hint, seq![], id) == Some(r),
{
    lemma_last_rule_kept(db.records()[j].rules@, id, hint, r);
    lemma_single_layer(db.records(), matched, db.records().len() as int, j, hint, id, r);
}

} // verus!
