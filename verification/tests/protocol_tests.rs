use m_v_r_esprint1::hashing::sha256_hex;
use m_v_r_esprint1::interface_discovery::{DiscoveredEndpoint, ProtocolKind};
use m_v_r_esprint1::protocol_drivers::{
    validate_discovered_protocols, C37p118Driver, Dnp3Driver, Iec61850Driver, ModbusDriver, ProtocolDriver,
    ProtocolTraceSigner, TransactionDirection,
};

#[test]
fn dnp3_driver_validates_port() {
    let driver = Dnp3Driver;
    let ep = DiscoveredEndpoint { hostname: "test".to_string(), port: 20000, service: "dnp3".to_string() };
    assert!(driver.validate_endpoint(&ep));
}

#[test]
fn modbus_driver_validates_port() {
    let driver = ModbusDriver;
    let ep = DiscoveredEndpoint { hostname: "test".to_string(), port: 502, service: "modbus".to_string() };
    assert!(driver.validate_endpoint(&ep));
}

#[test]
fn dnp3_driver_authenticate_checks_secret() {
    let driver = Dnp3Driver;
    let expected = sha256_hex("TEST_SHARED_SECRET_V1");
    assert!(driver.authenticate(Some(expected.as_bytes())));
    assert!(!driver.authenticate(Some(b"badtoken")));
    assert!(!driver.authenticate(None));
}

#[test]
fn wrong_port_is_refused() {
    let ep = DiscoveredEndpoint { hostname: "h".to_string(), port: 502, service: "x".to_string() };
    assert!(!Dnp3Driver.validate_endpoint(&ep));
    assert!(!C37p118Driver.validate_endpoint(&ep));
}

#[test]
fn telemetry_summary_counts_bytes() {
    let t = Iec61850Driver.parse_telemetry(&[1, 2, 3]).ok().unwrap();
    assert_eq!(t.protocol, ProtocolKind::IEC61850);
    assert_eq!(t.summary, "IEC-61850 message: 3 bytes");
    assert!(ModbusDriver.authenticate_transport(None));
}

#[test]
fn cim_summary_names_table_size() {
    let s = Iec61850Driver.map_to_cim_summary(&[]);
    assert_eq!(s, "IEC-61850 canonicalized (mapping entries: 11)");
}

#[test]
fn discovered_endpoints_are_listed() {
    let eps = vec![
        DiscoveredEndpoint { hostname: "a".to_string(), port: 1, service: "s".to_string() },
        DiscoveredEndpoint { hostname: "b".to_string(), port: 2, service: "s".to_string() },
    ];
    assert_eq!(validate_discovered_protocols(&eps), vec![("a".to_string(), true), ("b".to_string(), true)]);
}

#[test]
fn signed_transaction_binds_payload_and_device() {
    let mut signer = ProtocolTraceSigner::new();
    let t = signer.sign_transaction("dev-1".to_string(), ProtocolKind::DNP3, TransactionDirection::Inbound, b"abc");
    assert_eq!(t.payload_hash_hex, "ba7816bf8f01cfea414140de5dae2223b00361a396177a9cb410ff61f20015ad");
    let mut signed = t.payload_hash_hex.clone().into_bytes();
    signed.extend_from_slice(b"dev-1");
    let expected = {
        let mut s = String::new();
        for b in signed {
            s.push(b as char);
        }
        sha256_hex(&s)
    };
    assert_eq!(t.signature_hex, expected);
    assert!(t.first_use);
    assert!(t.binding_confirmed);
}
