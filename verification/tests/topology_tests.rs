use m_v_r_esprint1::failure_axis::FailureAxis;
use m_v_r_esprint1::graph_builder::{
    build_topology_graph, build_topology_graph_with_mode, TopologyBuildMode, TopologyGraph,
};
use m_v_r_esprint1::hashing::sha256_hex;
use m_v_r_esprint1::operational_semantics::{
    resolve_violations, validate_breaker_sequencing, validate_operator_authority, validate_timing_coherence,
    validate_topology_coherence, EnforcementAction, OperationalSource, OperatorCommandContext,
    ResolutionCategory, SemanticConfig, SemanticSpecification, SemanticViolation, TopologyEvent,
};
use m_v_r_esprint1::rdf_parser::{
    local_name, normalize_ref, parse_bool, parse_cim_document, parse_cim_events, xml_events, xml_unescape, CimModel,
    EquipmentKind, FixedDec9, RdfEvent, RdfParseError, XmlAttribute, XmlTag,
};
use m_v_r_esprint1::runtime_checks::{derive_telemetered_switch_state, validate_quality_masks};
use m_v_r_esprint1::telemetry::{BreakerState, TelemetryStamp};
use m_v_r_esprint1::text_map::TextMap;

fn tag(name: &str, attrs: &[(&str, &str)]) -> XmlTag {
    XmlTag {
        name: name.to_string(),
        attributes: attrs
            .iter()
            .map(|(k, v)| Some(XmlAttribute { key: k.to_string(), value: Ok(v.to_string()) }))
            .collect(),
    }
}

fn start(name: &str, attrs: &[(&str, &str)]) -> RdfEvent {
    RdfEvent::Start(tag(name, attrs))
}

fn empty(name: &str, attrs: &[(&str, &str)]) -> RdfEvent {
    RdfEvent::Empty(tag(name, attrs))
}

fn text(t: &str) -> RdfEvent {
    RdfEvent::Text(Ok(t.to_string()))
}

fn end(name: &str) -> RdfEvent {
    RdfEvent::End(name.to_string())
}

fn value_child(events: &mut Vec<RdfEvent>, name: &str, value: &str) {
    events.push(start(name, &[]));
    events.push(text(value));
    events.push(end(name));
}

fn node(events: &mut Vec<RdfEvent>, id: &str) {
    events.push(empty("cim:ConnectivityNode", &[("rdf:ID", id)]));
}

fn breaker(events: &mut Vec<RdfEvent>, id: &str, field: &str, value: &str) {
    events.push(start("cim:Breaker", &[("rdf:ID", id)]));
    value_child(events, field, value);
    events.push(end("cim:Breaker"));
}

fn terminal(events: &mut Vec<RdfEvent>, id: &str, equipment: &str, node: &str) {
    events.push(start("cim:Terminal", &[("rdf:ID", id)]));
    let eq_ref = format!("#{}", equipment);
    let node_ref = format!("#{}", node);
    events.push(empty("cim:Terminal.ConductingEquipment", &[("rdf:resource", eq_ref.as_str())]));
    events.push(empty("cim:Terminal.ConnectivityNode", &[("rdf:resource", node_ref.as_str())]));
    events.push(end("cim:Terminal"));
}

fn line(events: &mut Vec<RdfEvent>, id: &str, values: &[(&str, &str)]) {
    events.push(start("cim:ACLineSegment", &[("rdf:ID", id)]));
    for (field, value) in values {
        value_child(events, field, value);
    }
    events.push(end("cim:ACLineSegment"));
}

fn document(body: Vec<RdfEvent>) -> Vec<RdfEvent> {
    let mut events = vec![start(
        "rdf:RDF",
        &[
            ("xmlns:rdf", "http://www.w3.org/1999/02/22-rdf-syntax-ns#"),
            ("xmlns:cim", "http://iec.ch/TC57/2013/CIM-schema-cim16#"),
        ],
    )];
    events.extend(body);
    events.push(end("rdf:RDF"));
    events
}

fn parse(events: Vec<RdfEvent>) -> CimModel {
    parse_cim_events(&events).expect("parses")
}

const MINIMAL_SWITCH_LINE: &str = r##"
<rdf:RDF xmlns:rdf="http://www.w3.org/1999/02/22-rdf-syntax-ns#"
         xmlns:cim="http://iec.ch/TC57/2013/CIM-schema-cim16#">
  <cim:ConnectivityNode rdf:ID="CN_A"/>
  <cim:ConnectivityNode rdf:ID="CN_B"/>
  <cim:Breaker rdf:ID="BRK_1">
    <cim:Switch.normalOpen>false</cim:Switch.normalOpen>
  </cim:Breaker>
  <cim:Terminal rdf:ID="T1">
    <cim:Terminal.ConductingEquipment rdf:resource="#BRK_1"/>
    <cim:Terminal.ConnectivityNode rdf:resource="#CN_A"/>
  </cim:Terminal>
  <cim:Terminal rdf:ID="T2">
    <cim:Terminal.ConductingEquipment rdf:resource="#BRK_1"/>
    <cim:Terminal.ConnectivityNode rdf:resource="#CN_B"/>
  </cim:Terminal>
  <cim:ACLineSegment rdf:ID="L1">
    <cim:ACLineSegment.r>0.01</cim:ACLineSegment.r>
    <cim:ACLineSegment.x>0.1</cim:ACLineSegment.x>
    <cim:ACLineSegment.bch>0.001</cim:ACLineSegment.bch>
  </cim:ACLineSegment>
</rdf:RDF>"##;

const THREE_NODES_WITH_LINE: &str = r##"
<rdf:RDF xmlns:rdf="http://www.w3.org/1999/02/22-rdf-syntax-ns#"
         xmlns:cim="http://iec.ch/TC57/2013/CIM-schema-cim16#">
  <cim:ConnectivityNode rdf:ID="CN_A"/>
  <cim:ConnectivityNode rdf:ID="CN_B"/>
  <cim:ConnectivityNode rdf:ID="CN_C"/>
  <cim:Breaker rdf:ID="BRK_1">
    <cim:Switch.open>false</cim:Switch.open>
  </cim:Breaker>
  <cim:Terminal rdf:ID="T1">
    <cim:Terminal.ConductingEquipment rdf:resource="#BRK_1"/>
    <cim:Terminal.ConnectivityNode rdf:resource="#CN_A"/>
  </cim:Terminal>
  <cim:Terminal rdf:ID="T2">
    <cim:Terminal.ConductingEquipment rdf:resource="#BRK_1"/>
    <cim:Terminal.ConnectivityNode rdf:resource="#CN_B"/>
  </cim:Terminal>
  <cim:ACLineSegment rdf:ID="L1">
    <cim:ACLineSegment.r>0.01</cim:ACLineSegment.r>
    <cim:ACLineSegment.x>0.1</cim:ACLineSegment.x>
  </cim:ACLineSegment>
  <cim:Terminal rdf:ID="T3">
    <cim:Terminal.ConductingEquipment rdf:resource="#L1"/>
    <cim:Terminal.ConnectivityNode rdf:resource="#CN_B"/>
  </cim:Terminal>
  <cim:Terminal rdf:ID="T4">
    <cim:Terminal.ConductingEquipment rdf:resource="#L1"/>
    <cim:Terminal.ConnectivityNode rdf:resource="#CN_C"/>
  </cim:Terminal>
</rdf:RDF>"##;

const THREE_NODES: &str = r##"
<rdf:RDF xmlns:rdf="http://www.w3.org/1999/02/22-rdf-syntax-ns#"
         xmlns:cim="http://iec.ch/TC57/2013/CIM-schema-cim16#">
  <cim:ConnectivityNode rdf:ID="CN_A"/>
  <cim:ConnectivityNode rdf:ID="CN_B"/>
  <cim:ConnectivityNode rdf:ID="CN_C"/>
  <cim:Breaker rdf:ID="BRK_1">
    <cim:Switch.open>false</cim:Switch.open>
  </cim:Breaker>
  <cim:Terminal rdf:ID="T1">
    <cim:Terminal.ConductingEquipment rdf:resource="#BRK_1"/>
    <cim:Terminal.ConnectivityNode rdf:resource="#CN_A"/>
  </cim:Terminal>
  <cim:Terminal rdf:ID="T2">
    <cim:Terminal.ConductingEquipment rdf:resource="#BRK_1"/>
    <cim:Terminal.ConnectivityNode rdf:resource="#CN_B"/>
  </cim:Terminal>
</rdf:RDF>"##;

#[test]
fn parses_minimal_switch_line_topology() {
    let parsed = parse_cim_document(MINIMAL_SWITCH_LINE.as_bytes()).expect("parses");
    assert_eq!(parsed.nodes.len(), 2);
    assert_eq!(parsed.terminals.len(), 2);
    assert!(parsed.equipment.contains_key("BRK_1"));
    assert!(parsed.equipment.contains_key("L1"));
    let l1 = parsed.equipment.get("L1").unwrap();
    assert_eq!(l1.r, Some(FixedDec9(10_000_000)));
    assert_eq!(l1.x, Some(FixedDec9(100_000_000)));
    assert_eq!(l1.bch, Some(FixedDec9(1_000_000)));
}

#[test]
fn event_stream_gives_the_same_model() {
    let mut body = Vec::new();
    node(&mut body, "CN_A");
    node(&mut body, "CN_B");
    breaker(&mut body, "BRK_1", "cim:Switch.normalOpen", "false");
    terminal(&mut body, "T1", "BRK_1", "CN_A");
    terminal(&mut body, "T2", "BRK_1", "CN_B");
    line(
        &mut body,
        "L1",
        &[
            ("cim:ACLineSegment.r", "0.01"),
            ("cim:ACLineSegment.x", "0.1"),
            ("cim:ACLineSegment.bch", "0.001"),
        ],
    );
    let parsed = parse(document(body));
    let from_xml = parse_cim_document(MINIMAL_SWITCH_LINE.as_bytes()).expect("parses");
    assert_eq!(parsed.nodes.len(), from_xml.nodes.len());
    assert_eq!(parsed.terminals.len(), from_xml.terminals.len());
    let brk = parsed.equipment.get("BRK_1").unwrap();
    assert_eq!(brk.kind, EquipmentKind::Breaker);
    assert_eq!(brk.normal_open, Some(false));
    assert_eq!(from_xml.equipment.get("BRK_1").unwrap().normal_open, Some(false));
    assert_eq!(parsed.terminals.get("T2").unwrap().connectivity_node_id, "CN_B");
    assert_eq!(from_xml.terminals.get("T2").unwrap().connectivity_node_id, "CN_B");
}

#[test]
fn tokenizer_reports_elements_texts_and_ends() {
    let (events, end) = xml_events(b"<a x=\"1\"><b>t &amp; u</b><c/></a>");
    assert!(end.is_ok());
    assert_eq!(events.len(), 6);
    match &events[0] {
        RdfEvent::Start(t) => {
            assert_eq!(t.name, "a");
            assert_eq!(t.attributes.len(), 1);
            let a = t.attributes[0].as_ref().unwrap();
            assert_eq!(a.key, "x");
            assert_eq!(a.value, Ok("1".to_string()));
        }
        _ => panic!("expected a start"),
    }
    match &events[2] {
        RdfEvent::Text(Ok(t)) => assert_eq!(t, "t &amp; u"),
        _ => panic!("expected text"),
    }
    match &events[4] {
        RdfEvent::Empty(t) => assert_eq!(t.name, "c"),
        _ => panic!("expected an empty element"),
    }
}

#[test]
fn malformed_xml_is_an_xml_error() {
    match parse_cim_document(b"<rdf:RDF><cim:Breaker rdf:ID=\"B\"></rdf:RDF>") {
        Err(RdfParseError::Xml(_)) => {}
        other => panic!("unexpected {:?}", other.map(|m| m.nodes.len())),
    }
}

#[test]
fn non_utf8_text_is_a_parse_error() {
    let mut body = Vec::new();
    body.push(start("cim:Breaker", &[("rdf:ID", "B")]));
    body.push(start("cim:Switch.open", &[]));
    body.push(RdfEvent::Text(Err("bad bytes".to_string())));
    body.push(end("cim:Switch.open"));
    body.push(end("cim:Breaker"));
    match parse_cim_events(&document(body)) {
        Err(RdfParseError::Utf8(_)) => {}
        other => panic!("unexpected {:?}", other.map(|m| m.nodes.len())),
    }
}

#[test]
fn fixed_decimal_reads_nine_places() {
    assert_eq!(FixedDec9::from_str("0.01"), Some(FixedDec9(10_000_000)));
    assert_eq!(FixedDec9::from_str("-1.5"), Some(FixedDec9(-1_500_000_000)));
    assert_eq!(FixedDec9::from_str("12"), Some(FixedDec9(12_000_000_000)));
    assert_eq!(FixedDec9::from_str("1.0000000009"), Some(FixedDec9(1_000_000_000)));
    assert_eq!(FixedDec9::from_str("abc"), None);
    assert_eq!(FixedDec9::from_str(""), None);
}

#[test]
fn rdf_text_helpers() {
    assert_eq!(parse_bool(" true "), Some(true));
    assert_eq!(parse_bool("false"), Some(false));
    assert_eq!(parse_bool("TRUE"), None);
    assert_eq!(parse_bool("maybe"), None);
    assert_eq!(local_name("cim:Breaker"), "Breaker");
    assert_eq!(local_name("Breaker"), "Breaker");
    assert_eq!(normalize_ref("#BRK_1"), "BRK_1");
    assert_eq!(xml_unescape("a &amp; b &lt;c&gt;"), "a & b <c>");
}

fn three_node_model(with_line: bool) -> CimModel {
    let xml = if with_line { THREE_NODES_WITH_LINE } else { THREE_NODES };
    parse_cim_document(xml.as_bytes()).expect("parse")
}

#[test]
fn closed_breaker_collapses_nodes_and_detects_divergence() {
    let model = three_node_model(true);
    let mut telem = TextMap::new();
    telem.insert("BRK_1".to_string(), false);
    let graph = build_topology_graph(&model, &telem);

    assert_eq!(graph.buses.len(), 2);
    assert_eq!(graph.branches.len(), 1);
    assert_eq!(graph.divergences.len(), 1);
    assert_eq!(graph.divergences[0].equipment_id, "BRK_1");
    assert!(graph.divergences[0].modeled_closed);
    assert!(!graph.divergences[0].telemetered_closed);
}

#[test]
fn telemetry_override_splits_bus_when_breaker_is_open() {
    let model = three_node_model(false);
    let mut telem = TextMap::new();
    telem.insert("BRK_1".to_string(), false);

    let graph = build_topology_graph_with_mode(&model, &telem, TopologyBuildMode::TelemetryOverride);
    assert_eq!(graph.buses.len(), 3);
    assert_eq!(graph.divergences.len(), 1);
}

#[test]
fn line_joins_buses_it_connects() {
    let model = three_node_model(true);
    let telem: TextMap<bool> = TextMap::new();
    let graph = build_topology_graph(&model, &telem);
    assert_eq!(graph.divergences.len(), 0);
    assert_eq!(graph.branches[0].equipment_id, "L1");
    assert_ne!(graph.branches[0].from_bus, graph.branches[0].to_bus);
    let total_nodes: usize = graph.buses.iter().map(|b| b.connectivity_nodes.len()).sum();
    assert_eq!(total_nodes, 3);
}

fn event(id: &str, state: BreakerState, ts: u64) -> TopologyEvent {
    TopologyEvent { equipment_id: id.to_string(), breaker_state: state, timestamp_ms_utc: ts }
}

#[test]
fn telemetered_state_takes_latest_report() {
    let events = vec![
        event("BRK_2", BreakerState::Open, 50),
        event("BRK_1", BreakerState::Closed, 100),
        event("BRK_1", BreakerState::Open, 300),
        event("BRK_1", BreakerState::Closed, 200),
        event("BRK_3", BreakerState::Intermediate, 400),
    ];
    let map = derive_telemetered_switch_state(&events);
    assert_eq!(map.len(), 2);
    assert_eq!(map.get("BRK_1"), Some(&false));
    assert_eq!(map.get("BRK_2"), Some(&false));
    assert_eq!(map.get("BRK_3"), None);
}

#[test]
fn bad_quality_mask_halts() {
    assert!(validate_quality_masks(&[0, 0, 0]).is_ok());
    let h = validate_quality_masks(&[0, 0x1f, 2]).unwrap_err();
    assert_eq!(h.axis, FailureAxis::ExternalInjectionDetected);
    assert_eq!(h.message, "Protocol validation failed: bad telemetry quality mask 0x1f");
    let h = validate_quality_masks(&[4]).unwrap_err();
    assert_eq!(h.message, "Protocol validation failed: bad telemetry quality mask 0x04");
}

#[test]
fn semantic_identities_are_hashes() {
    let spec = SemanticSpecification::current();
    assert_eq!(spec.name, "MVRE Operational Semantics");
    let lineage = "temporal_coherence|event_ordering|contradictory_state|breaker_sequencing|topology_consistency|operator_authority|relay_transition_legality";
    assert_eq!(spec.constraint_lineage_hash, sha256_hex(lineage));
    assert_eq!(
        spec.identity_hash,
        sha256_hex(&format!("MVRE Operational Semantics|1.0.0|{}", lineage))
    );
    assert_eq!(SemanticConfig::default().identity_hash(), sha256_hex("20000|2000|2000|5"));
}

#[test]
fn violations_resolve_to_one_decision() {
    let clean = resolve_violations(Vec::new());
    assert!(clean.admissible);
    assert_eq!(clean.resolution, EnforcementAction::Accept);
    assert_eq!(clean.resolution_category, ResolutionCategory::Informational);

    let outcome = resolve_violations(vec![
        SemanticViolation::new(OperationalSource::Topology, "breaker_timing", "x".to_string(), EnforcementAction::QStateIsolation),
        SemanticViolation::new(OperationalSource::OperatorCommand, "operator_authority", "y".to_string(), EnforcementAction::OperatorReview),
    ]);
    assert!(!outcome.admissible);
    assert_eq!(outcome.resolution, EnforcementAction::OperatorReview);
    assert_eq!(outcome.resolution_category, ResolutionCategory::Incoherent);

    let impossible = resolve_violations(vec![SemanticViolation::new(
        OperationalSource::Topology,
        "topology_consistency",
        "z".to_string(),
        EnforcementAction::QStateIsolation,
    )]);
    assert_eq!(impossible.resolution_category, ResolutionCategory::InfrastructureImpossible);
}

#[test]
fn guest_operator_without_authority_is_flagged_twice() {
    let cmd = Some(OperatorCommandContext {
        operator_id: "op7".to_string(),
        role: "Guest".to_string(),
        command: "OPEN BRK_1".to_string(),
        authority_level: 1,
    });
    let v = validate_operator_authority(&cmd, &SemanticConfig::default());
    assert_eq!(v.len(), 2);
    assert_eq!(v[0].reason, "Operator 'op7' role 'Guest' lacks authority level 1 for command OPEN BRK_1");
    assert_eq!(v[0].action, EnforcementAction::OperatorReview);
    assert_eq!(v[1].reason, "Unauthorized command OPEN BRK_1 from guest operator op7");
    assert_eq!(v[1].action, EnforcementAction::Reject);
    assert!(validate_operator_authority(&None, &SemanticConfig::default()).is_empty());
}

#[test]
fn breaker_toggling_fast_is_flagged() {
    let events = vec![event("B1", BreakerState::Closed, 1000), event("B1", BreakerState::Open, 1500)];
    let v = validate_breaker_sequencing(&events, &SemanticConfig::default());
    assert_eq!(v.len(), 2);
    assert_eq!(v[0].constraint, "breaker_timing");
    assert_eq!(v[0].reason, "Breaker B1 toggled state too quickly: 500ms between events");
    assert_eq!(v[1].constraint, "topology_consistency");
    assert_eq!(v[1].reason, "Breaker B1 has conflicting closed/open reports");
    let single = vec![event("B2", BreakerState::Intermediate, 10)];
    assert!(validate_breaker_sequencing(&single, &SemanticConfig::default()).is_empty());
}

#[test]
fn missing_topology_is_flagged() {
    let graph = TopologyGraph::default();
    let v = validate_topology_coherence(&graph, false, &Vec::new(), &SemanticConfig::default());
    assert_eq!(v.len(), 1);
    assert_eq!(v[0].constraint, "authoritative_topology_missing");
    assert!(validate_topology_coherence(&graph, true, &Vec::new(), &SemanticConfig::default()).is_empty());
}

fn stamp(ts: u64, mask: u8) -> TelemetryStamp {
    TelemetryStamp { point_timestamp_ms_utc: ts, quality_mask: mask }
}

#[test]
fn stale_point_violates_temporal_coherence() {
    let v = validate_timing_coherence(&vec![stamp(1000, 0)], 30_000, 0, &SemanticConfig::default());
    assert_eq!(v.len(), 1);
    assert_eq!(v[0].constraint, "temporal_coherence");
    assert_eq!(v[0].reason, "Telemetry coherence failure: stale telemetry: age_ms=29000 threshold_ms=20000");
    assert_eq!(v[0].action, EnforcementAction::Reject);
}

#[test]
fn telemetry_spread_and_quality_are_flagged() {
    let v = validate_timing_coherence(
        &vec![stamp(10_000, 0x02), stamp(13_000, 0)],
        13_000,
        2_500,
        &SemanticConfig::default(),
    );
    let reasons: Vec<&str> = v.iter().map(|x| x.reason.as_str()).collect();
    assert_eq!(
        reasons,
        vec![
            "Telemetry coherence failure: latency exceeded: latency_ms=2500 limit_ms=2000",
            "Telemetry coherence failure: bad quality: Suspect",
            "Telemetry coherence failure: latency exceeded: latency_ms=2500 limit_ms=2000",
            "Telemetry ordering divergence exceeds 2000ms window (delta 3000ms)",
        ]
    );
    assert_eq!(v[3].constraint, "event_ordering");
    assert!(validate_timing_coherence(&vec![stamp(5, 0)], 5, 0, &SemanticConfig::default()).is_empty());
}
