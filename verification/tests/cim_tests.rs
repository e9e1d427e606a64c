use m_v_r_esprint1::cim_mapping_data::{mapping_data, mapping_data_with_notes, MappingEntry};
use m_v_r_esprint1::cim_mapping_rules::{
    classify_der_model, classify_mapping_rule, derive_migration_actions, notes_entries_by_kind, DerModelCategory,
    MappingAction, MappingRuleKind,
};
use m_v_r_esprint1::cim_mapping_transform::{transform_record, TransformContext};
use m_v_r_esprint1::field_map::FieldMap;

fn analog_value_to_analog_bypass() -> MappingEntry {
    mapping_data_with_notes()
        .into_iter()
        .find(|e| {
            e.instance_type_cim10 == Some("AnalogValue")
                && e.instance_type_cim16 == Some("Analog")
                && e.attr_name_cim10 == Some("byPass")
        })
        .expect("expected known AnalogValue->Analog mapping")
}

#[test]
fn classifies_attribute_move_note() {
    let entry = analog_value_to_analog_bypass();
    assert_eq!(classify_mapping_rule(&entry), Some(MappingRuleKind::AttributeMoved));
}

#[test]
fn finds_some_unit_normalization_rules() {
    let units = notes_entries_by_kind(MappingRuleKind::UnitNormalization);
    assert!(!units.is_empty());
}

#[test]
fn classifies_der_distribution_resource() {
    let der_entry = mapping_data()
        .into_iter()
        .find(|e| e.instance_type_cim10 == Some("DistributionResource"))
        .expect("expected DistributionResource mapping");
    assert_eq!(classify_der_model(&der_entry), Some(DerModelCategory::DgrOrDesrStyle));
}

#[test]
fn derives_actions_for_attribute_move() {
    let entry = analog_value_to_analog_bypass();
    let actions = derive_migration_actions(&entry);
    assert!(actions.contains(&MappingAction::MoveAttribute));
}

#[test]
fn transforms_simple_attribute_copy() {
    let mut source = FieldMap::new();
    source.insert("byPass".to_string(), "true".to_string());
    let out = transform_record("AnalogValue", &source, &TransformContext::default());
    assert_eq!(out.target_type, "AnalogValue");
    assert!(out.fields.contains_key("byPass"));
}

#[test]
fn chooses_apparent_power_limit_when_rating_context() {
    let mut source = FieldMap::new();
    source.insert("value".to_string(), "12.3".to_string());
    let ctx = TransformContext { limit_set_is_rating: true, der_category_hint: None };
    let out = transform_record("AnalogLimit", &source, &ctx);
    assert_eq!(out.target_type, "ApparentPowerLimit");
}

#[test]
fn applies_default_override_from_notes() {
    let source = FieldMap::new();
    let out = transform_record("Contingency", &source, &TransformContext::default());
    assert_eq!(out.fields.get("generationLoss").map(String::as_str), Some("99999"));
}

#[test]
fn rule_kinds_follow_note_phrases() {
    let note = |n: &'static str| MappingEntry {
        instance_type_cim10: None,
        instance_type_cim16: None,
        attr_source_cim10: None,
        attr_source_cim16: None,
        attr_name_cim10: None,
        attr_name_cim16: None,
        mapping_notes: Some(n),
    };
    assert_eq!(classify_mapping_rule(&note("Type CHANGED TO x")), Some(MappingRuleKind::TypeConditionalRemap));
    assert_eq!(classify_mapping_rule(&note("apply the Multiplier")), Some(MappingRuleKind::UnitNormalization));
    assert_eq!(classify_mapping_rule(&note("All set to 5.")), Some(MappingRuleKind::DefaultValueOverride));
    assert_eq!(classify_mapping_rule(&note("an enum value")), Some(MappingRuleKind::EnumTranslation));
    assert_eq!(classify_mapping_rule(&note("field not mapped")), Some(MappingRuleKind::NotMappedInSource));
    assert_eq!(classify_mapping_rule(&note("Distributed resources")), Some(MappingRuleKind::DerModelingHint));
    assert_eq!(classify_mapping_rule(&note("nothing special")), Some(MappingRuleKind::Other));
    let mut empty = note("x");
    empty.mapping_notes = None;
    assert_eq!(classify_mapping_rule(&empty), None);
}

#[test]
fn der_rows_get_manual_review_once() {
    let der_entry = mapping_data()
        .into_iter()
        .find(|e| e.instance_type_cim10 == Some("DistributionResource"))
        .unwrap();
    let actions = derive_migration_actions(&der_entry);
    assert_eq!(actions, vec![MappingAction::ManualReview]);
    let load = mapping_data()
        .into_iter()
        .find(|e| e.instance_type_cim10 == Some("CustomerLoad"))
        .unwrap();
    assert_eq!(classify_der_model(&load), Some(DerModelCategory::UdgLoadReductionStyle));
    assert_eq!(derive_migration_actions(&load), vec![MappingAction::ManualReview]);
}

#[test]
fn conditional_remap_without_value_is_an_issue() {
    let source = FieldMap::new();
    let ctx = TransformContext { limit_set_is_rating: true, der_category_hint: None };
    let out = transform_record("AnalogLimit", &source, &ctx);
    assert_eq!(out.issues.len(), 1);
    assert_eq!(out.issues[0].reason, "Conditional remap requires additional context");
    assert_eq!(out.fields.get("value"), None);
}

#[test]
fn unknown_class_has_unknown_target() {
    let out = transform_record("NoSuchClass", &FieldMap::new(), &TransformContext::default());
    assert_eq!(out.target_type, "UnknownTargetType");
    assert!(out.issues.is_empty());
}

#[test]
fn field_map_insert_replaces() {
    let mut m = FieldMap::new();
    m.insert("a".to_string(), "1".to_string());
    m.insert("b".to_string(), "2".to_string());
    m.insert("a".to_string(), "3".to_string());
    assert_eq!(m.get("a").map(String::as_str), Some("3"));
    assert_eq!(m.get("b").map(String::as_str), Some("2"));
    assert!(!m.contains_key("c"));
}
