use std::collections::HashSet;
use m_v_r_esprint1::reliability_controls::{enforce_cip007, CipPolicy, EnforcementCode, InboundPacket, PacketType};
use m_v_r_esprint1::validation_matrix::{emergency_physics_outcome, evaluate_emergency_cyber, KernelLogicAction, MatrixCode, OutputState};

#[test]
fn emergency_cyber_halts_0x0b() {
    let policy = CipPolicy { allowed_ports: HashSet::from([102, 123]), allowed_macs: Vec::new() };
    let packet = InboundPacket {
        src_mac: "ff:ff:ff:ff:ff:ff".to_string(),
        dst_port: 102,
        packet_type: PacketType::Iccp,
        writes_base_point: true,
    };
    let out = evaluate_emergency_cyber(&packet, &policy).unwrap();
    assert_eq!(out.code, Some(MatrixCode::Halt0x0B));
}

#[test]
fn admitted_packet_changes_nothing() {
    let policy = CipPolicy { allowed_ports: HashSet::from([102]), allowed_macs: vec!["aa:bb".to_string()] };
    let packet = InboundPacket {
        src_mac: "aa:bb".to_string(),
        dst_port: 102,
        packet_type: PacketType::Iccp,
        writes_base_point: false,
    };
    assert!(evaluate_emergency_cyber(&packet, &policy).is_none());
    assert!(enforce_cip007(&packet, &policy).is_ok());
}

#[test]
fn wrong_port_is_a_cip007_breach() {
    let policy = CipPolicy { allowed_ports: HashSet::from([102]), allowed_macs: vec!["aa:bb".to_string()] };
    let packet = InboundPacket {
        src_mac: "aa:bb".to_string(),
        dst_port: 502,
        packet_type: PacketType::Modbus,
        writes_base_point: false,
    };
    let e = enforce_cip007(&packet, &policy).unwrap_err();
    assert_eq!(e.code, EnforcementCode::ErrCip007);
    let out = evaluate_emergency_cyber(&packet, &policy).unwrap();
    assert_eq!(out.action, KernelLogicAction::KernelPanicHalt);
    assert_eq!(out.output_state, OutputState::SecureLockdown);
    assert_eq!(out.message, "sovereignty breach attempt blocked; fail-safe freeze engaged");
}

#[test]
fn emergency_physics_sheds_load_when_reserves_cannot_cover() {
    let out = emergency_physics_outcome(true, false, false).unwrap();
    assert_eq!(out.code, Some(MatrixCode::Exec0x0C));
    assert_eq!(out.action, KernelLogicAction::LoadShed);
    assert_eq!(out.output_state, OutputState::ResourceOfflineOrLoadShed);
    assert_eq!(out.message, "UFRT threshold exceeded; emergency mitigation required");
    let out = emergency_physics_outcome(false, true, true).unwrap();
    assert_eq!(out.code, None);
    assert_eq!(out.action, KernelLogicAction::PanicDispatch);
    assert_eq!(out.message, "FAC-008 emergency thermal violation");
    assert!(emergency_physics_outcome(false, false, true).is_none());
}
