//! Reading the mapping notes: what kind of rule a row states, which migration
//! actions follow from it, and which DER modelling style a row belongs to.
use vstd::prelude::*;
use crate::cim_mapping_data::{MappingEntry, mapping_data_with_notes, mapping_data_with_notes_spec};
use crate::text::{chars_of, ascii_lowercase_chars, ascii_lower_seq, contains_chars, contains_seq, chars_eq};

verus! {

/// The kind of rule that a mapping note states.
#[derive(Debug, Clone, Copy, PartialEq, Eq, Structural)]
pub enum MappingRuleKind {
    AttributeMoved,
    TypeConditionalRemap,
    UnitNormalization,
    DefaultValueOverride,
    EnumTranslation,
    NotMappedInSource,
    DerModelingHint,
    Other,
}

/// The DER modelling style of a mapping row.
#[derive(Debug, Clone, Copy, PartialEq, Eq, Structural)]
pub enum DerModelCategory {
    DgrOrDesrStyle,
    SodgStyle,
    UdgLoadReductionStyle,
    GenericDer,
}

/// A step that migrating a value along a mapping row takes.
#[derive(Debug, Clone, Copy, PartialEq, Eq, Structural)]
pub enum MappingAction {
    MoveAttribute,
    RemapTypeConditionally,
    SplitUnitAndMultiplier,
    ApplyDefaultValue,
    TranslateEnum,
    SkipUnmappedField,
    ManualReview,
}

/// The text of a cell, empty when the cell is empty.
pub open spec fn opt_text(o: Option<&'static str>) -> Seq<char> {
    match o {
        Some(s) => s@,
        None => Seq::empty(),
    }
}

/// The kind of rule that a lower-cased note states: the first of these phrases that
/// it contains decides.
pub open spec fn classify_notes(n: Seq<char>) -> MappingRuleKind {
    if contains_seq(n, "attribute moved"@) {
        MappingRuleKind::AttributeMoved
    } else if contains_seq(n, "changed to"@) || contains_seq(n, "if associated limitset"@) {
        MappingRuleKind::TypeConditionalRemap
    } else if contains_seq(n, "unit is changed"@) || contains_seq(n, "multiplier"@) {
        MappingRuleKind::UnitNormalization
    } else if contains_seq(n, "all set to"@) {
        MappingRuleKind::DefaultValueOverride
    } else if contains_seq(n, "enumeration"@) || contains_seq(n, "enum"@) {
        MappingRuleKind::EnumTranslation
    } else if contains_seq(n, "not mapped"@) {
        MappingRuleKind::NotMappedInSource
    } else if contains_seq(n, "der"@) || contains_seq(n, "distributed"@) {
        MappingRuleKind::DerModelingHint
    } else {
        MappingRuleKind::Other
    }
}

/// The kind of rule a row states: none without a note.
pub open spec fn rule_kind(e: MappingEntry) -> Option<MappingRuleKind> {
    match e.mapping_notes {
        Some(n) => Some(classify_notes(ascii_lower_seq(n@))),
        None => None,
    }
}

fn note_contains(lower: &[char], phrase: &str) -> (r: bool)
    ensures
        r == contains_seq(lower@, phrase@),
{
    let p = chars_of(phrase);
    contains_chars(lower, p.as_slice())
}

/// The kind of rule that a row's note states, ignoring ASCII case.
pub fn classify_mapping_rule(entry: &MappingEntry) -> (r: Option<MappingRuleKind>)
    ensures
        r == rule_kind(*entry),
{
    let notes = match entry.mapping_notes {
        Some(n) => n,
        None => {
            return None;
        },
    };
    let raw = chars_of(notes);
    let n = ascii_lowercase_chars(raw.as_slice());
    let s = n.as_slice();
    if note_contains(s, "attribute moved") {
        return Some(MappingRuleKind::AttributeMoved);
    }
    if note_contains(s, "changed to") || note_contains(s, "if associated limitset") {
        return Some(MappingRuleKind::TypeConditionalRemap);
    }
    if note_contains(s, "unit is changed") || note_contains(s, "multiplier") {
        return Some(MappingRuleKind::UnitNormalization);
    }
    if note_contains(s, "all set to") {
        return Some(MappingRuleKind::DefaultValueOverride);
    }
    if note_contains(s, "enumeration") || note_contains(s, "enum") {
        return Some(MappingRuleKind::EnumTranslation);
    }
    if note_contains(s, "not mapped") {
        return Some(MappingRuleKind::NotMappedInSource);
    }
    if note_contains(s, "der") || note_contains(s, "distributed") {
        return Some(MappingRuleKind::DerModelingHint);
    }
    Some(MappingRuleKind::Other)
}

/// The action that a rule kind calls for.
pub open spec fn action_for(kind: MappingRuleKind) -> MappingAction {
    match kind {
        MappingRuleKind::AttributeMoved => MappingAction::MoveAttribute,
        MappingRuleKind::TypeConditionalRemap => MappingAction::RemapTypeConditionally,
        MappingRuleKind::UnitNormalization => MappingAction::SplitUnitAndMultiplier,
        MappingRuleKind::DefaultValueOverride => MappingAction::ApplyDefaultValue,
        MappingRuleKind::EnumTranslation => MappingAction::TranslateEnum,
        MappingRuleKind::NotMappedInSource => MappingAction::SkipUnmappedField,
        MappingRuleKind::DerModelingHint => MappingAction::ManualReview,
        MappingRuleKind::Other => MappingAction::ManualReview,
    }
}

/// The migration actions of a row: the one its rule kind calls for, then a manual
/// review for a DER row when none is listed yet.
pub open spec fn migration_actions(e: MappingEntry) -> Seq<MappingAction> {
    let base = match rule_kind(e) {
        Some(k) => seq![action_for(k)],
        None => Seq::empty(),
    };
    if der_category(e) is Some && !base.contains(MappingAction::ManualReview) {
        base.push(MappingAction::ManualReview)
    } else {
        base
    }
}

/// The migration actions that a row calls for.
pub fn derive_migration_actions(entry: &MappingEntry) -> (actions: Vec<MappingAction>)
    ensures
        actions@ == migration_actions(*entry),
{
    let mut actions: Vec<MappingAction> = Vec::new();
    match classify_mapping_rule(entry) {
        Some(kind) => {
            let a = match kind {
                MappingRuleKind::AttributeMoved => MappingAction::MoveAttribute,
                MappingRuleKind::TypeConditionalRemap => MappingAction::RemapTypeConditionally,
                MappingRuleKind::UnitNormalization => MappingAction::SplitUnitAndMultiplier,
                MappingRuleKind::DefaultValueOverride => MappingAction::ApplyDefaultValue,
                MappingRuleKind::EnumTranslation => MappingAction::TranslateEnum,
                MappingRuleKind::NotMappedInSource => MappingAction::SkipUnmappedField,
                MappingRuleKind::DerModelingHint => MappingAction::ManualReview,
                MappingRuleKind::Other => MappingAction::ManualReview,
            };
            actions.push(a);
            assert(actions@ == seq![action_for(kind)]);
        },
        None => {},
    }
    let has_review = actions.len() == 1 && actions[0] == MappingAction::ManualReview;
    proof {
        if actions@.len() == 1 {
            assert(actions@.contains(MappingAction::ManualReview) == (actions@[0] == MappingAction::ManualReview));
        }
    }
    if classify_der_model(entry).is_some() && !has_review {
        actions.push(MappingAction::ManualReview);
    }
    actions
}

fn text_eq(a: &str, b: &str) -> (r: bool)
    ensures
        r == (a@ == b@),
{
    let x = chars_of(a);
    let y = chars_of(b);
    chars_eq(x.as_slice(), y.as_slice())
}

fn cell_is(cell: Option<&'static str>, text: &str) -> (r: bool)
    ensures
        r == (opt_text(cell) == text@),
{
    match cell {
        Some(c) => {
            text_eq(c, text)
        },
        None => {
            let t = chars_of(text);
            assert(t@.len() == 0 ==> text@ =~= Seq::<char>::empty());
            t.len() == 0
        },
    }
}

/// The DER modelling style of a row, from its classes and attribute.
pub open spec fn der_category(e: MappingEntry) -> Option<DerModelCategory> {
    let c10 = opt_text(e.instance_type_cim10);
    let c16 = opt_text(e.instance_type_cim16);
    let s10 = opt_text(e.attr_source_cim10);
    let s16 = opt_text(e.attr_source_cim16);
    let a10 = opt_text(e.attr_name_cim10);
    let has_distribution_resource = c10 == "DistributionResource"@ || c16 == "DistributionResource"@;
    let has_distribution_generation = c10 == "DistributionGeneration"@ || c16 == "DistributionGeneration"@;
    let has_resource_meter = c10 == "EnergyProducerResourceMeter"@ || c16 == "EnergyProducerResourceMeter"@;
    let has_customer_load = c10 == "CustomerLoad"@ || c16 == "CustomerLoad"@ || s10 == "CustomerLoad"@ || s16
        == "CustomerLoad"@;
    if has_distribution_resource {
        Some(DerModelCategory::DgrOrDesrStyle)
    } else if has_distribution_generation && has_resource_meter {
        Some(DerModelCategory::SodgStyle)
    } else if has_customer_load && ascii_lower_seq(a10) == ascii_lower_seq("loadReduction"@) {
        Some(DerModelCategory::UdgLoadReductionStyle)
    } else if has_distribution_generation || has_resource_meter || has_customer_load {
        Some(DerModelCategory::GenericDer)
    } else {
        None
    }
}

/// The DER modelling style of a row, if it is a DER row.
pub fn classify_der_model(entry: &MappingEntry) -> (r: Option<DerModelCategory>)
    ensures
        r == der_category(*entry),
{
    let has_distribution_resource = cell_is(entry.instance_type_cim10, "DistributionResource") || cell_is(
        entry.instance_type_cim16,
        "DistributionResource",
    );
    let has_distribution_generation = cell_is(entry.instance_type_cim10, "DistributionGeneration") || cell_is(
        entry.instance_type_cim16,
        "DistributionGeneration",
    );
    let has_resource_meter = cell_is(entry.instance_type_cim10, "EnergyProducerResourceMeter") || cell_is(
        entry.instance_type_cim16,
        "EnergyProducerResourceMeter",
    );
    let has_customer_load = cell_is(entry.instance_type_cim10, "CustomerLoad") || cell_is(
        entry.instance_type_cim16,
        "CustomerLoad",
    ) || cell_is(entry.attr_source_cim10, "CustomerLoad") || cell_is(entry.attr_source_cim16, "CustomerLoad");
    if has_distribution_resource {
        return Some(DerModelCategory::DgrOrDesrStyle);
    }
    if has_distribution_generation && has_resource_meter {
        return Some(DerModelCategory::SodgStyle);
    }
    if has_customer_load {
        let a10 = match entry.attr_name_cim10 {
            Some(a) => chars_of(a),
            None => Vec::new(),
        };
        let la = ascii_lowercase_chars(a10.as_slice());
        let target = chars_of("loadReduction");
        let lt = ascii_lowercase_chars(target.as_slice());
        if chars_eq(la.as_slice(), lt.as_slice()) {
            return Some(DerModelCategory::UdgLoadReductionStyle);
        }
    }
    if has_distribution_generation || has_resource_meter || has_customer_load {
        return Some(DerModelCategory::GenericDer);
    }
    None
}

/// The noted rows of the mapping table whose rule is of the given kind, in table order.
pub fn notes_entries_by_kind(kind: MappingRuleKind) -> (v: Vec<MappingEntry>)
    ensures
        v@ == mapping_data_with_notes_spec().filter(|e: MappingEntry| rule_kind(e) == Some(kind)),
{
    let all = mapping_data_with_notes();
    let ghost pred = |e: MappingEntry| rule_kind(e) == Some(kind);
    let mut v: Vec<MappingEntry> = Vec::new();
    let mut i: usize = 0;
    while i < all.len()
        invariant
            i <= all.len(),
            all@ == mapping_data_with_notes_spec(),
            pred == (|e: MappingEntry| rule_kind(e) == Some(kind)),
            v@ == all@.take(i as int).filter(pred),
        decreases all.len() - i,
    {
        let e = all[i];
        proof {
            all@.take(i as int).lemma_filter_push(e, pred);
            assert(all@.take(i + 1) == all@.take(i as int).push(e));
        }
        if classify_mapping_rule(&e) == Some(kind) {
            v.push(e);
        }
        i = i + 1;
    }
    assert(all@.take(all.len() as int) == all@);
    v
}

/// The migration actions of a row: at most two, none twice; the action its rule kind
/// calls for comes first; a DER row always gets a manual review; and no other action
/// occurs.
pub proof fn lemma_migration_actions_shape(e: MappingEntry)
    ensures
        migration_actions(e).len() <= 2,
        migration_actions(e).no_duplicates(),
        rule_kind(e) matches Some(k) ==> migration_actions(e)[0] == action_for(k),
        der_category(e) is Some ==> migration_actions(e).contains(MappingAction::ManualReview),
        forall|a: MappingAction| #[trigger] migration_actions(e).contains(a) ==> a == MappingAction::ManualReview || (
        rule_kind(e) matches Some(k) && a == action_for(k)),
{
    let base = match rule_kind(e) {
        Some(k) => seq![action_for(k)],
        None => Seq::<MappingAction>::empty(),
    };
    if base.len() == 1 {
        assert(base.contains(MappingAction::ManualReview) <==> base[0] == MappingAction::ManualReview);
    }
    if der_category(e) is Some && !base.contains(MappingAction::ManualReview) {
        let r = base.push(MappingAction::ManualReview);
        assert(r[r.len() - 1] == MappingAction::ManualReview);
        assert forall|a: MappingAction| #[trigger] r.contains(a) implies a == MappingAction::ManualReview || (
        rule_kind(e) matches Some(k) && a == action_for(k)) by {
            let j = choose|j: int| 0 <= j < r.len() && r[j] == a;
            if j < base.len() {
                assert(base[j] == a);
            }
        }
    } else {
        assert forall|a: MappingAction| #[trigger] base.contains(a) implies a == MappingAction::ManualReview || (
        rule_kind(e) matches Some(k) && a == action_for(k)) by {
            let j = choose|j: int| 0 <= j < base.len() && base[j] == a;
        }
    }
}

/// A noted row is listed under one rule kind at most: the lists that
/// `notes_entries_by_kind` gives for two different kinds share no row.
pub proof fn lemma_notes_kinds_disjoint(k1: MappingRuleKind, k2: MappingRuleKind, e: MappingEntry)
    requires
        k1 != k2,
    ensures
        !(mapping_data_with_notes_spec().filter(|x: MappingEntry| rule_kind(x) == Some(k1)).contains(e)
            && mapping_data_with_notes_spec().filter(|x: MappingEntry| rule_kind(x) == Some(k2)).contains(e)),
{
    let all = mapping_data_with_notes_spec();
    let p1 = |x: MappingEntry| rule_kind(x) == Some(k1);
    let p2 = |x: MappingEntry| rule_kind(x) == Some(k2);
    if all.filter(p1).contains(e) && all.filter(p2).contains(e) {
        let i = choose|i: int| 0 <= i < all.filter(p1).len() && all.filter(p1)[i] == e;
        let j = choose|j: int| 0 <= j < all.filter(p2).len() && all.filter(p2)[j] == e;
        all.lemma_filter_pred(p1, i);
        all.lemma_filter_pred(p2, j);
    }
}

} // verus!
