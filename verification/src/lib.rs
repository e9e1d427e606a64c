use vstd::prelude::*;

pub mod canonical_time;
pub mod text;
pub mod hashing;
pub mod order;
pub mod seq_facts;
pub mod sced_offer_chain;
pub mod numeric;
pub mod sprint1;
pub mod guardian;
pub mod mvre;
pub mod sced_chain;
pub mod failure_axis;
pub mod tlbss_types;
pub mod compliance;
pub mod telemetry;
pub mod deterministic_core;
pub mod clock;
pub mod modeling_expectations_policy;
pub mod audit_ticket;
pub mod interface_discovery;
pub mod cim_mapping_data;
pub mod protocol_drivers;
pub mod cim_mapping_rules;
pub mod field_map;
pub mod cim_mapping_transform;
pub mod reliability_controls;
pub mod validation_matrix;
pub mod trusted_time;
pub mod ptp_clock;
pub mod bytes;
pub mod tpm_attestation;
pub mod attestation_verifier;
pub mod sovereign_kernel;
pub mod audit_guardian;
pub mod trace_replay;
pub mod constraint_system;
pub mod shadow_prices;
pub mod ercot_stress;
pub mod setpoint_guard;
pub mod ybus;
pub mod mora_ingestion;
pub mod a2e_state_machine;
pub mod transition;
pub mod int_parse;
pub mod sced_chain_cli;
pub mod sda_inputs;
pub mod grid_audit;
pub mod probe_args;
pub mod barcode;
pub mod text_map;
pub mod rdf_parser;
pub mod graph_builder;
pub mod operational_semantics;
pub mod sorted_text;
pub mod tlbss_v2;
pub mod visions_core;
pub mod audit_chain;
pub mod runtime_checks;
