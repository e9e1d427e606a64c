//! Moving one CIM10 record onto its CIM16 class along the mapping table.
use vstd::prelude::*;
use crate::cim_mapping_data::{MappingEntry, mapping_data, mapping_data_spec};
use crate::cim_mapping_rules::{DerModelCategory, MappingAction, derive_migration_actions, migration_actions, opt_text};
use crate::field_map::FieldMap;
use crate::text::{chars_of, ascii_lowercase_chars, ascii_lower_seq, contains_seq, contains_chars, find_chars, first_occurrence, occurs_at, trim, trim_chars, copy_range, string_from_chars, string_eq_str};

verus! {

/// What the caller knows about the record beyond its fields.
#[derive(Debug, Clone, Copy, PartialEq, Eq, Structural)]
pub struct TransformContext {
    pub limit_set_is_rating: bool,
    pub der_category_hint: Option<DerModelCategory>,
}

impl Default for TransformContext {
    fn default() -> (c: Self)
        ensures
            !c.limit_set_is_rating,
            c.der_category_hint is None,
    {
        TransformContext { limit_set_is_rating: false, der_category_hint: None }
    }
}

/// A field that needs a person's attention.
#[derive(Debug)]
pub struct TransformationIssue {
    pub source_attr: String,
    pub target_attr: String,
    pub reason: String,
}

/// The CIM16 record: its class, its fields, and the fields that need attention.
#[derive(Debug)]
pub struct TransformResult {
    pub target_type: String,
    pub fields: FieldMap,
    pub issues: Vec<TransformationIssue>,
}

/// An issue as three texts: source attribute, target attribute, reason.
pub open spec fn issue_view(i: TransformationIssue) -> (Seq<char>, Seq<char>, Seq<char>) {
    (i.source_attr@, i.target_attr@, i.reason@)
}

/// Whether a row maps the CIM10 class `ty`.
pub open spec fn is_candidate(e: MappingEntry, ty: Seq<char>) -> bool {
    e.instance_type_cim10 matches Some(t) && t@ == ty
}

/// Whether some row of `ty` notes that an analog limit becomes an apparent power limit.
pub open spec fn has_limit_note(table: Seq<MappingEntry>, ty: Seq<char>) -> bool {
    exists|i: int|
        0 <= i < table.len() && is_candidate(#[trigger] table[i], ty) && contains_seq(
            opt_text(table[i].mapping_notes),
            "AnalogLimit changed to ApparentPowerLimit"@,
        )
}

/// The CIM16 class of the first row of `ty` that names one.
pub open spec fn first_target(table: Seq<MappingEntry>, ty: Seq<char>) -> Option<Seq<char>>
    decreases table.len(),
{
    if table.len() == 0 {
        None
    } else {
        match first_target(table.drop_last(), ty) {
            Some(t) => Some(t),
            None => if is_candidate(table.last(), ty) && table.last().instance_type_cim16 is Some {
                Some(table.last().instance_type_cim16->0@)
            } else {
                None
            },
        }
    }
}

/// The CIM16 class that a record of `ty` becomes.
pub open spec fn chosen_target(table: Seq<MappingEntry>, ty: Seq<char>, ctx: TransformContext) -> Seq<char> {
    if has_limit_note(table, ty) && ctx.limit_set_is_rating {
        "ApparentPowerLimit"@
    } else {
        match first_target(table, ty) {
            Some(t) => t,
            None => "UnknownTargetType"@,
        }
    }
}

/// `s` without leading and trailing dots (`str::trim_matches('.')`).
pub open spec fn strip_dots(s: Seq<char>) -> Seq<char>
    decreases s.len(),
{
    if s.len() > 0 && s[0] == '.' {
        strip_dots(s.drop_first())
    } else if s.len() > 0 && s.last() == '.' {
        strip_dots(s.drop_last())
    } else {
        s
    }
}

/// The default value that a note sets: what follows the first `all set to` (found
/// ignoring ASCII case), trimmed of white space and then of dots; none when the note
/// has no such phrase or nothing follows it.
pub open spec fn default_value(notes: Seq<char>) -> Option<Seq<char>> {
    let lower = ascii_lower_seq(notes);
    if !contains_seq(lower, "all set to"@) {
        None
    } else {
        let idx = choose|i: int| first_occurrence(lower, "all set to"@, i);
        let raw = trim(notes.subrange(idx + 10, notes.len() as int));
        if raw.len() == 0 {
            None
        } else {
            Some(strip_dots(raw))
        }
    }
}

fn strip_dots_chars(s: &[char]) -> (v: Vec<char>)
    ensures
        v@ == strip_dots(s@),
{
    let mut a: usize = 0;
    let mut b: usize = s.len();
    assert(s@.subrange(0, s@.len() as int) == s@);
    while a < b && (s[a] == '.' || s[b - 1] == '.')
        invariant
            a <= b <= s.len(),
            strip_dots(s@) == strip_dots(s@.subrange(a as int, b as int)),
        decreases b - a,
    {
        if s[a] == '.' {
            assert(s@.subrange(a as int, b as int).drop_first() == s@.subrange(a + 1, b as int));
            a = a + 1;
        } else {
            assert(s@.subrange(a as int, b as int).drop_last() == s@.subrange(a as int, b - 1));
            b = b - 1;
        }
    }
    copy_range(s, a, b)
}

proof fn lemma_first_occurrence_unique(s: Seq<char>, p: Seq<char>, i: int, j: int)
    requires
        first_occurrence(s, p, i),
        first_occurrence(s, p, j),
    ensures
        i == j,
{
    if i < j {
        assert(!occurs_at(s, p, i));
    } else if j < i {
        assert(!occurs_at(s, p, j));
    }
}

fn parse_default_value(notes: &str) -> (r: Option<String>)
    ensures
        match r {
            Some(v) => default_value(notes@) == Some(v@),
            None => default_value(notes@) is None,
        },
{
    let raw_notes = chars_of(notes);
    let lower = ascii_lowercase_chars(raw_notes.as_slice());
    let marker = chars_of("all set to");
    proof {
        reveal_strlit("all set to");
    }
    match find_chars(lower.as_slice(), marker.as_slice()) {
        None => None,
        Some(idx) => {
            proof {
                let chosen = choose|i: int| first_occurrence(lower@, "all set to"@, i);
                lemma_first_occurrence_unique(lower@, "all set to"@, idx as int, chosen);
                assert(marker@.len() == 10);
                assert(lower@.len() == raw_notes@.len());
                assert(occurs_at(lower@, marker@, idx as int));
                assert(idx + 10 <= raw_notes@.len());
            }
            assert(idx + 10 <= raw_notes.len());
            let start: usize = idx + 10;
            let tail = copy_range(raw_notes.as_slice(), start, raw_notes.len());
            let raw = trim_chars(tail.as_slice());
            if raw.len() == 0 {
                None
            } else {
                let stripped = strip_dots_chars(raw.as_slice());
                Some(string_from_chars(stripped.as_slice()))
            }
        },
    }
}

/// What one mapping row does to the fields and issues gathered so far, for a record
/// of class `ty` becoming `target`, with source fields `src`.
pub open spec fn apply_entry(
    e: MappingEntry,
    ty: Seq<char>,
    target: Seq<char>,
    src: Map<Seq<char>, Seq<char>>,
    fields: Map<Seq<char>, Seq<char>>,
    issues: Seq<(Seq<char>, Seq<char>, Seq<char>)>,
) -> (Map<Seq<char>, Seq<char>>, Seq<(Seq<char>, Seq<char>, Seq<char>)>) {
    let sa = opt_text(e.attr_name_cim10);
    let ta = opt_text(e.attr_name_cim16);
    let acts = migration_actions(e);
    if !is_candidate(e, ty) || !(e.instance_type_cim16 matches Some(t) && t@ == target) || sa.len() == 0
        || ta.len() == 0 || acts.contains(MappingAction::SkipUnmappedField) {
        (fields, issues)
    } else {
        let from_source = src.contains_key(sa);
        let default = default_value(opt_text(e.mapping_notes));
        let with_default = !from_source && acts.contains(MappingAction::ApplyDefaultValue) && default is Some;
        let fields2 = if from_source {
            fields.insert(ta, src[sa])
        } else if with_default {
            fields.insert(ta, default->0)
        } else {
            fields
        };
        let applied = from_source || with_default;
        let issues2 = if acts.contains(MappingAction::ManualReview) {
            issues.push(
                (
                    sa,
                    ta,
                    match e.mapping_notes {
                        Some(n) => n@,
                        None => "Manual review required"@,
                    },
                ),
            )
        } else {
            issues
        };
        let issues3 = if acts.contains(MappingAction::RemapTypeConditionally) && !applied {
            issues2.push((sa, ta, "Conditional remap requires additional context"@))
        } else {
            issues2
        };
        (fields2, issues3)
    }
}

/// The fields and issues after going through the rows of `table` in order.
pub open spec fn transform_rows(
    table: Seq<MappingEntry>,
    ty: Seq<char>,
    target: Seq<char>,
    src: Map<Seq<char>, Seq<char>>,
) -> (Map<Seq<char>, Seq<char>>, Seq<(Seq<char>, Seq<char>, Seq<char>)>)
    decreases table.len(),
{
    if table.len() == 0 {
        (Map::empty(), Seq::empty())
    } else {
        let prev = transform_rows(table.drop_last(), ty, target, src);
        apply_entry(table.last(), ty, target, src, prev.0, prev.1)
    }
}

fn has_action(actions: &Vec<MappingAction>, a: MappingAction) -> (r: bool)
    ensures
        r == actions@.contains(a),
{
    let mut i: usize = 0;
    while i < actions.len()
        invariant
            i <= actions.len(),
            forall|j: int| 0 <= j < i ==> actions@[j] != a,
        decreases actions.len() - i,
    {
        if actions[i] == a {
            return true;
        }
        i = i + 1;
    }
    false
}

fn cell_text(cell: Option<&'static str>) -> (s: String)
    ensures
        s@ == opt_text(cell),
{
    match cell {
        Some(c) => c.to_string(),
        None => String::new(),
    }
}

fn candidate(e: &MappingEntry, ty: &str) -> (r: bool)
    ensures
        r == is_candidate(*e, ty@),
{
    match e.instance_type_cim10 {
        Some(t) => {
            let a = chars_of(t);
            let b = chars_of(ty);
            crate::text::chars_eq(a.as_slice(), b.as_slice())
        },
        None => false,
    }
}

fn choose_target_type(table: &Vec<MappingEntry>, ty: &str, context: &TransformContext) -> (t: String)
    ensures
        t@ == chosen_target(table@, ty@, *context),
{
    let mut limit_note = false;
    let mut first: Option<&'static str> = None;
    let marker = chars_of("AnalogLimit changed to ApparentPowerLimit");
    let mut i: usize = 0;
    while i < table.len()
        invariant
            i <= table.len(),
            marker@ == "AnalogLimit changed to ApparentPowerLimit"@,
            limit_note == exists|j: int|
                0 <= j < i && is_candidate(#[trigger] table@[j], ty@) && contains_seq(
                    opt_text(table@[j].mapping_notes),
                    "AnalogLimit changed to ApparentPowerLimit"@,
                ),
            match first {
                Some(f) => first_target(table@.take(i as int), ty@) == Some(f@),
                None => first_target(table@.take(i as int), ty@) is None,
            },
        decreases table.len() - i,
    {
        let e = table[i];
        proof {
            assert(table@.take(i + 1).drop_last() == table@.take(i as int));
            assert(table@.take(i + 1).last() == e);
        }
        if candidate(&e, ty) {
            let notes = chars_of(match e.mapping_notes {
                Some(n) => n,
                None => "",
            });
            proof {
                reveal_strlit("");
                assert(notes@ == opt_text(e.mapping_notes));
            }
            if contains_chars(notes.as_slice(), marker.as_slice()) {
                limit_note = true;
            }
            if first.is_none() {
                first = e.instance_type_cim16;
            }
        }
        i = i + 1;
    }
    assert(table@.take(i as int) == table@);
    if limit_note && context.limit_set_is_rating {
        return "ApparentPowerLimit".to_string();
    }
    match first {
        Some(f) => f.to_string(),
        None => "UnknownTargetType".to_string(),
    }
}

/// Moves a CIM10 record of class `cim10_type` onto its CIM16 class. The class is
/// `ApparentPowerLimit` when a row of the class notes that change and the limit set
/// is a rating, else the first CIM16 class that a row of the class names. Then each
/// row from that class to that one, in table order, copies the source field (or the
/// default value its note sets) to the target attribute, and records an issue where
/// the row needs a manual review or a conditional remap found nothing to apply.
pub fn transform_record(cim10_type: &str, source_fields: &FieldMap, context: &TransformContext) -> (out: TransformResult)
    ensures
        out.target_type@ == chosen_target(mapping_data_spec(), cim10_type@, *context),
        out.fields@ == transform_rows(mapping_data_spec(), cim10_type@, out.target_type@, source_fields@).0,
        out.issues@.map_values(|i: TransformationIssue| issue_view(i)) == transform_rows(
            mapping_data_spec(),
            cim10_type@,
            out.target_type@,
            source_fields@,
        ).1,
{
    let table = mapping_data();
    let target = choose_target_type(&table, cim10_type, context);
    let mut fields = FieldMap::new();
    let mut issues: Vec<TransformationIssue> = Vec::new();
    let mut i: usize = 0;
    while i < table.len()
        invariant
            i <= table.len(),
            table@ == mapping_data_spec(),
            fields@ == transform_rows(table@.take(i as int), cim10_type@, target@, source_fields@).0,
            issues@.map_values(|x: TransformationIssue| issue_view(x)) == transform_rows(
                table@.take(i as int),
                cim10_type@,
                target@,
                source_fields@,
            ).1,
        decreases table.len() - i,
    {
        let e = table[i];
        proof {
            assert(table@.take(i + 1).drop_last() == table@.take(i as int));
            assert(table@.take(i + 1).last() == e);
        }
        let ghost f0 = fields@;
        let ghost is0 = issues@.map_values(|x: TransformationIssue| issue_view(x));
        let matches_target = candidate(&e, cim10_type) && match e.instance_type_cim16 {
            Some(t) => string_eq_str(&target, t),
            None => false,
        };
        let source_attr = cell_text(e.attr_name_cim10);
        let target_attr = cell_text(e.attr_name_cim16);
        let actions = derive_migration_actions(&e);
        let source_len = chars_of(source_attr.as_str()).len();
        let target_len = chars_of(target_attr.as_str()).len();
        if matches_target && source_len > 0 && target_len > 0 && !has_action(
            &actions,
            MappingAction::SkipUnmappedField,
        ) {
            let mut applied = false;
            match source_fields.get(source_attr.as_str()) {
                Some(value) => {
                    fields.insert(target_attr.clone(), value.clone());
                    applied = true;
                },
                None => {
                    if has_action(&actions, MappingAction::ApplyDefaultValue) {
                        let notes: &str = match e.mapping_notes {
                            Some(n) => n,
                            None => "",
                        };
                        proof {
                            reveal_strlit("");
                            assert(notes@ == opt_text(e.mapping_notes));
                        }
                        match parse_default_value(notes) {
                            Some(d) => {
                                fields.insert(target_attr.clone(), d);
                                applied = true;
                            },
                            None => {},
                        }
                    }
                },
            }
            if has_action(&actions, MappingAction::ManualReview) {
                let reason = match e.mapping_notes {
                    Some(n) => n.to_string(),
                    None => "Manual review required".to_string(),
                };
                issues.push(
                    TransformationIssue {
                        source_attr: source_attr.clone(),
                        target_attr: target_attr.clone(),
                        reason,
                    },
                );
            }
            if has_action(&actions, MappingAction::RemapTypeConditionally) && !applied {
                issues.push(
                    TransformationIssue {
                        source_attr: source_attr.clone(),
                        target_attr: target_attr.clone(),
                        reason: "Conditional remap requires additional context".to_string(),
                    },
                );
            }
        }
        i = i + 1;
    }
    assert(table@.take(i as int) == table@);
    TransformResult { target_type: target, fields, issues }
}

} // verus!
