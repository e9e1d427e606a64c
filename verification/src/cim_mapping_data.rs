//! The CIM10 to CIM16 mapping table: one row per (class, attribute) pair, with the
//! notes that say how a value moves between the two models.
use vstd::prelude::*;

verus! {

/// One row of the mapping table. A missing cell is `None`.
#[derive(Debug, Clone, Copy)]
pub struct MappingEntry {
    pub instance_type_cim10: Option<&'static str>,
    pub instance_type_cim16: Option<&'static str>,
    pub attr_source_cim10: Option<&'static str>,
    pub attr_source_cim16: Option<&'static str>,
    pub attr_name_cim10: Option<&'static str>,
    pub attr_name_cim16: Option<&'static str>,
    pub mapping_notes: Option<&'static str>,
}

/// The mapping table.
pub open spec fn mapping_data_spec() -> Seq<MappingEntry> {
    seq![
        MappingEntry {
            instance_type_cim10: Some("AnalogValue"),
            instance_type_cim16: Some("AnalogValue"),
            attr_source_cim10: Some("AnalogValue"),
            attr_source_cim16: Some("AnalogValue"),
            attr_name_cim10: Some("byPass"),
            attr_name_cim16: Some("byPass"),
            mapping_notes: None,
        },
        MappingEntry {
            instance_type_cim10: Some("AnalogValue"),
            instance_type_cim16: Some("Analog"),
            attr_source_cim10: Some("AnalogValue"),
            attr_source_cim16: Some("Analog"),
            attr_name_cim10: Some("byPass"),
            attr_name_cim16: Some("byPass"),
            mapping_notes: Some("Attribute moved from AnalogValue to Analog."),
        },
        MappingEntry {
            instance_type_cim10: Some("AnalogLimit"),
            instance_type_cim16: Some("AnalogLimit"),
            attr_source_cim10: Some("AnalogLimit"),
            attr_source_cim16: Some("AnalogLimit"),
            attr_name_cim10: Some("value"),
            attr_name_cim16: Some("value"),
            mapping_notes: Some("AnalogLimit changed to ApparentPowerLimit if associated LimitSet is a rating."),
        },
        MappingEntry {
            instance_type_cim10: Some("AnalogLimit"),
            instance_type_cim16: Some("ApparentPowerLimit"),
            attr_source_cim10: Some("AnalogLimit"),
            attr_source_cim16: Some("ApparentPowerLimit"),
            attr_name_cim10: Some("value"),
            attr_name_cim16: Some("value"),
            mapping_notes: Some("AnalogLimit changed to ApparentPowerLimit if associated LimitSet is a rating."),
        },
        MappingEntry {
            instance_type_cim10: Some("ActivePowerLimit"),
            instance_type_cim16: Some("ActivePowerLimit"),
            attr_source_cim10: Some("ActivePowerLimit"),
            attr_source_cim16: Some("ActivePowerLimit"),
            attr_name_cim10: Some("value"),
            attr_name_cim16: Some("value"),
            mapping_notes: Some("Unit is changed from MW to W; the multiplier carries the scale."),
        },
        MappingEntry {
            instance_type_cim10: Some("Contingency"),
            instance_type_cim16: Some("Contingency"),
            attr_source_cim10: Some("Contingency"),
            attr_source_cim16: Some("Contingency"),
            attr_name_cim10: Some("generationLoss"),
            attr_name_cim16: Some("generationLoss"),
            mapping_notes: Some("Not present in the source model; all set to 99999."),
        },
        MappingEntry {
            instance_type_cim10: Some("Switch"),
            instance_type_cim16: Some("Switch"),
            attr_source_cim10: Some("Switch"),
            attr_source_cim16: Some("Switch"),
            attr_name_cim10: Some("normalOpen"),
            attr_name_cim16: Some("normalOpen"),
            mapping_notes: Some("Enumeration literal names are translated."),
        },
        MappingEntry {
            instance_type_cim10: Some("MeasurementValueSource"),
            instance_type_cim16: Some("MeasurementValueSource"),
            attr_source_cim10: Some("MeasurementValueSource"),
            attr_source_cim16: Some("MeasurementValueSource"),
            attr_name_cim10: Some("remoteSource"),
            attr_name_cim16: None,
            mapping_notes: Some("Not mapped in the target model."),
        },
        MappingEntry {
            instance_type_cim10: Some("DistributionResource"),
            instance_type_cim16: Some("DistributionResource"),
            attr_source_cim10: Some("DistributionResource"),
            attr_source_cim16: Some("DistributionResource"),
            attr_name_cim10: Some("ratedS"),
            attr_name_cim16: Some("ratedS"),
            mapping_notes: Some("DER rating carried over unchanged."),
        },
        MappingEntry {
            instance_type_cim10: Some("DistributionGeneration"),
            instance_type_cim16: Some("DistributionGeneration"),
            attr_source_cim10: Some("DistributionGeneration"),
            attr_source_cim16: Some("DistributionGeneration"),
            attr_name_cim10: Some("maxP"),
            attr_name_cim16: Some("maxP"),
            mapping_notes: None,
        },
        MappingEntry {
            instance_type_cim10: Some("CustomerLoad"),
            instance_type_cim16: Some("CustomerLoad"),
            attr_source_cim10: Some("CustomerLoad"),
            attr_source_cim16: Some("CustomerLoad"),
            attr_name_cim10: Some("loadReduction"),
            attr_name_cim16: Some("loadReduction"),
            mapping_notes: None,
        }
    ]
}

/// The rows of the mapping table that carry notes, in table order.
pub open spec fn mapping_data_with_notes_spec() -> Seq<MappingEntry> {
    mapping_data_spec().filter(|e: MappingEntry| e.mapping_notes is Some)
}

/// The mapping table, in order.
pub fn mapping_data() -> (v: Vec<MappingEntry>)
    ensures
        v@ == mapping_data_spec(),
{
    let v = vec![
        MappingEntry {
            instance_type_cim10: Some("AnalogValue"),
            instance_type_cim16: Some("AnalogValue"),
            attr_source_cim10: Some("AnalogValue"),
            attr_source_cim16: Some("AnalogValue"),
            attr_name_cim10: Some("byPass"),
            attr_name_cim16: Some("byPass"),
            mapping_notes: None,
        },
        MappingEntry {
            instance_type_cim10: Some("AnalogValue"),
            instance_type_cim16: Some("Analog"),
            attr_source_cim10: Some("AnalogValue"),
            attr_source_cim16: Some("Analog"),
            attr_name_cim10: Some("byPass"),
            attr_name_cim16: Some("byPass"),
            mapping_notes: Some("Attribute moved from AnalogValue to Analog."),
        },
        MappingEntry {
            instance_type_cim10: Some("AnalogLimit"),
            instance_type_cim16: Some("AnalogLimit"),
            attr_source_cim10: Some("AnalogLimit"),
            attr_source_cim16: Some("AnalogLimit"),
            attr_name_cim10: Some("value"),
            attr_name_cim16: Some("value"),
            mapping_notes: Some("AnalogLimit changed to ApparentPowerLimit if associated LimitSet is a rating."),
        },
        MappingEntry {
            instance_type_cim10: Some("AnalogLimit"),
            instance_type_cim16: Some("ApparentPowerLimit"),
            attr_source_cim10: Some("AnalogLimit"),
            attr_source_cim16: Some("ApparentPowerLimit"),
            attr_name_cim10: Some("value"),
            attr_name_cim16: Some("value"),
            mapping_notes: Some("AnalogLimit changed to ApparentPowerLimit if associated LimitSet is a rating."),
        },
        MappingEntry {
            instance_type_cim10: Some("ActivePowerLimit"),
            instance_type_cim16: Some("ActivePowerLimit"),
            attr_source_cim10: Some("ActivePowerLimit"),
            attr_source_cim16: Some("ActivePowerLimit"),
            attr_name_cim10: Some("value"),
            attr_name_cim16: Some("value"),
            mapping_notes: Some("Unit is changed from MW to W; the multiplier carries the scale."),
        },
        MappingEntry {
            instance_type_cim10: Some("Contingency"),
            instance_type_cim16: Some("Contingency"),
            attr_source_cim10: Some("Contingency"),
            attr_source_cim16: Some("Contingency"),
            attr_name_cim10: Some("generationLoss"),
            attr_name_cim16: Some("generationLoss"),
            mapping_notes: Some("Not present in the source model; all set to 99999."),
        },
        MappingEntry {
            instance_type_cim10: Some("Switch"),
            instance_type_cim16: Some("Switch"),
            attr_source_cim10: Some("Switch"),
            attr_source_cim16: Some("Switch"),
            attr_name_cim10: Some("normalOpen"),
            attr_name_cim16: Some("normalOpen"),
            mapping_notes: Some("Enumeration literal names are translated."),
        },
        MappingEntry {
            instance_type_cim10: Some("MeasurementValueSource"),
            instance_type_cim16: Some("MeasurementValueSource"),
            attr_source_cim10: Some("MeasurementValueSource"),
            attr_source_cim16: Some("MeasurementValueSource"),
            attr_name_cim10: Some("remoteSource"),
            attr_name_cim16: None,
            mapping_notes: Some("Not mapped in the target model."),
        },
        MappingEntry {
            instance_type_cim10: Some("DistributionResource"),
            instance_type_cim16: Some("DistributionResource"),
            attr_source_cim10: Some("DistributionResource"),
            attr_source_cim16: Some("DistributionResource"),
            attr_name_cim10: Some("ratedS"),
            attr_name_cim16: Some("ratedS"),
            mapping_notes: Some("DER rating carried over unchanged."),
        },
        MappingEntry {
            instance_type_cim10: Some("DistributionGeneration"),
            instance_type_cim16: Some("DistributionGeneration"),
            attr_source_cim10: Some("DistributionGeneration"),
            attr_source_cim16: Some("DistributionGeneration"),
            attr_name_cim10: Some("maxP"),
            attr_name_cim16: Some("maxP"),
            mapping_notes: None,
        },
        MappingEntry {
            instance_type_cim10: Some("CustomerLoad"),
            instance_type_cim16: Some("CustomerLoad"),
            attr_source_cim10: Some("CustomerLoad"),
            attr_source_cim16: Some("CustomerLoad"),
            attr_name_cim10: Some("loadReduction"),
            attr_name_cim16: Some("loadReduction"),
            mapping_notes: None,
        }
    ];
    assert(v@ == mapping_data_spec());
    v
}

/// The number of rows of the mapping table.
pub fn mapping_data_len() -> (n: usize)
    ensures
        n == mapping_data_spec().len(),
{
    mapping_data().len()
}

/// The rows of the mapping table that carry notes, in table order.
pub fn mapping_data_with_notes() -> (v: Vec<MappingEntry>)
    ensures
        v@ == mapping_data_with_notes_spec(),
{
    let all = mapping_data();
    let mut v: Vec<MappingEntry> = Vec::new();
    let mut i: usize = 0;
    while i < all.len()
        invariant
            i <= all.len(),
            all@ == mapping_data_spec(),
            v@ == all@.take(i as int).filter(|e: MappingEntry| e.mapping_notes is Some),
        decreases all.len() - i,
    {
        let e = all[i];
        proof {
            all@.take(i as int).lemma_filter_push(e, |e: MappingEntry| e.mapping_notes is Some);
            assert(all@.take(i + 1) == all@.take(i as int).push(e));
        }
        if e.mapping_notes.is_some() {
            v.push(e);
        }
        i = i + 1;
    }
    assert(all@.take(all.len() as int) == all@);
    v
}

} // verus!
