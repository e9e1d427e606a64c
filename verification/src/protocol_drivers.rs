//! Drivers for the industrial protocols: which port each listens on, how a payload
//! is summarised, and the signing of protocol transactions.
use vstd::prelude::*;
use crate::failure_axis::SystemHalt;
use crate::interface_discovery::{DiscoveredEndpoint, ProtocolKind};
use crate::hashing::{sha256_hex, sha256_hex_spec, sha256_hex_of_bytes, sha256_hex_bytes_spec, extend_bytes};
use crate::text::{push_str, push_decimal, decimal};
use crate::cim_mapping_data::mapping_data_len;
use crate::clock::{unix_time_nanos, clock_reading, micros_of_reading};

verus! {

/// Whether a transaction came in or went out.
#[derive(Debug, Clone, Copy, PartialEq, Eq, Structural)]
pub enum TransactionDirection {
    Inbound,
    Outbound,
}

/// A signed record of one protocol transaction.
#[derive(Debug)]
pub struct ProtocolTransactionTrace {
    pub timestamp_us: u64,
    pub device_id: String,
    pub protocol: ProtocolKind,
    pub direction: TransactionDirection,
    pub payload_hash_hex: String,
    pub binding_confirmed: bool,
    pub first_use: bool,
    pub signature_hex: String,
}

/// A payload as a driver summarises it.
#[derive(Debug)]
pub struct ParsedTelemetry {
    pub protocol: ProtocolKind,
    pub summary: String,
}

/// The well-known port of a protocol.
pub open spec fn protocol_port(kind: ProtocolKind) -> u16 {
    match kind {
        ProtocolKind::DNP3 => 20000,
        ProtocolKind::Modbus => 502,
        ProtocolKind::IEC61850 => 50000,
        ProtocolKind::C37p118 => 4712,
        ProtocolKind::IccpTase2 => 102,
    }
}

/// The name of a protocol in summaries.
pub open spec fn protocol_name(kind: ProtocolKind) -> Seq<char> {
    match kind {
        ProtocolKind::DNP3 => "DNP3"@,
        ProtocolKind::Modbus => "Modbus"@,
        ProtocolKind::IEC61850 => "IEC-61850"@,
        ProtocolKind::C37p118 => "C37.118"@,
        ProtocolKind::IccpTase2 => "ICCP-TASE2"@,
    }
}

/// The summary of a payload of `len` bytes.
pub open spec fn telemetry_summary(kind: ProtocolKind, len: nat) -> Seq<char> {
    protocol_name(kind) + " message: "@ + decimal(len) + " bytes"@
}

fn summarize(name: &str, len: usize) -> (s: String)
    ensures
        s@ == name@ + " message: "@ + decimal(len as nat) + " bytes"@,
{
    let mut s = String::new();
    push_str(&mut s, name);
    push_str(&mut s, " message: ");
    push_decimal(&mut s, len as u64);
    push_str(&mut s, " bytes");
    s
}

/// A driver for one protocol family.
pub trait ProtocolDriver {
    fn kind(&self) -> ProtocolKind;

    fn validate_endpoint(&self, endpoint: &DiscoveredEndpoint) -> bool;

    fn parse_telemetry(&self, payload: &[u8]) -> Result<ParsedTelemetry, SystemHalt>;

    /// Transport authentication; drivers that enforce none accept every token.
    fn authenticate_transport(&self, token: Option<&[u8]>) -> (r: bool)
        default_ensures
            r,
    {
        true
    }
}

/// The DNP3 driver.
pub struct Dnp3Driver;

impl ProtocolDriver for Dnp3Driver {
    fn kind(&self) -> (k: ProtocolKind)
        ensures
            k == ProtocolKind::DNP3,
    {
        ProtocolKind::DNP3
    }

    fn validate_endpoint(&self, endpoint: &DiscoveredEndpoint) -> (r: bool)
        ensures
            r == (endpoint.port == protocol_port(ProtocolKind::DNP3)),
    {
        endpoint.port == 20000
    }

    fn parse_telemetry(&self, payload: &[u8]) -> (r: Result<ParsedTelemetry, SystemHalt>)
        ensures
            r matches Ok(t) && t.protocol == ProtocolKind::DNP3
                && t.summary@ == telemetry_summary(ProtocolKind::DNP3, payload@.len()),
    {
        Ok(ParsedTelemetry { protocol: ProtocolKind::DNP3, summary: summarize("DNP3", payload.len()) })
    }
}

/// The Modbus driver.
pub struct ModbusDriver;

impl ProtocolDriver for ModbusDriver {
    fn kind(&self) -> (k: ProtocolKind)
        ensures
            k == ProtocolKind::Modbus,
    {
        ProtocolKind::Modbus
    }

    fn validate_endpoint(&self, endpoint: &DiscoveredEndpoint) -> (r: bool)
        ensures
            r == (endpoint.port == protocol_port(ProtocolKind::Modbus)),
    {
        endpoint.port == 502
    }

    fn parse_telemetry(&self, payload: &[u8]) -> (r: Result<ParsedTelemetry, SystemHalt>)
        ensures
            r matches Ok(t) && t.protocol == ProtocolKind::Modbus
                && t.summary@ == telemetry_summary(ProtocolKind::Modbus, payload@.len()),
    {
        Ok(ParsedTelemetry { protocol: ProtocolKind::Modbus, summary: summarize("Modbus", payload.len()) })
    }
}

/// The IEC-61850 driver.
pub struct Iec61850Driver;

impl ProtocolDriver for Iec61850Driver {
    fn kind(&self) -> (k: ProtocolKind)
        ensures
            k == ProtocolKind::IEC61850,
    {
        ProtocolKind::IEC61850
    }

    fn validate_endpoint(&self, endpoint: &DiscoveredEndpoint) -> (r: bool)
        ensures
            r == (endpoint.port == protocol_port(ProtocolKind::IEC61850)),
    {
        endpoint.port == 50000
    }

    fn parse_telemetry(&self, payload: &[u8]) -> (r: Result<ParsedTelemetry, SystemHalt>)
        ensures
            r matches Ok(t) && t.protocol == ProtocolKind::IEC61850
                && t.summary@ == telemetry_summary(ProtocolKind::IEC61850, payload@.len()),
    {
        Ok(ParsedTelemetry { protocol: ProtocolKind::IEC61850, summary: summarize("IEC-61850", payload.len()) })
    }
}

/// The C37.118 driver.
pub struct C37p118Driver;

impl ProtocolDriver for C37p118Driver {
    fn kind(&self) -> (k: ProtocolKind)
        ensures
            k == ProtocolKind::C37p118,
    {
        ProtocolKind::C37p118
    }

    fn validate_endpoint(&self, endpoint: &DiscoveredEndpoint) -> (r: bool)
        ensures
            r == (endpoint.port == protocol_port(ProtocolKind::C37p118)),
    {
        endpoint.port == 4712
    }

    fn parse_telemetry(&self, payload: &[u8]) -> (r: Result<ParsedTelemetry, SystemHalt>)
        ensures
            r matches Ok(t) && t.protocol == ProtocolKind::C37p118
                && t.summary@ == telemetry_summary(ProtocolKind::C37p118, payload@.len()),
    {
        Ok(ParsedTelemetry { protocol: ProtocolKind::C37p118, summary: summarize("C37.118", payload.len()) })
    }
}

/// The ICCP-TASE2 driver.
pub struct IccpTase2Driver;

impl ProtocolDriver for IccpTase2Driver {
    fn kind(&self) -> (k: ProtocolKind)
        ensures
            k == ProtocolKind::IccpTase2,
    {
        ProtocolKind::IccpTase2
    }

    fn validate_endpoint(&self, endpoint: &DiscoveredEndpoint) -> (r: bool)
        ensures
            r == (endpoint.port == protocol_port(ProtocolKind::IccpTase2)),
    {
        endpoint.port == 102
    }

    fn parse_telemetry(&self, payload: &[u8]) -> (r: Result<ParsedTelemetry, SystemHalt>)
        ensures
            r matches Ok(t) && t.protocol == ProtocolKind::IccpTase2
                && t.summary@ == telemetry_summary(ProtocolKind::IccpTase2, payload@.len()),
    {
        Ok(ParsedTelemetry { protocol: ProtocolKind::IccpTase2, summary: summarize("ICCP-TASE2", payload.len()) })
    }
}

/// Every discovered endpoint by host name, each marked as accepted.
pub fn validate_discovered_protocols(endpoints: &[DiscoveredEndpoint]) -> (r: Vec<(String, bool)>)
    ensures
        r@.len() == endpoints@.len(),
        forall|i: int| 0 <= i < r@.len() ==> (#[trigger] r@[i]).0 == endpoints@[i].hostname && r@[i].1,
{
    let mut r: Vec<(String, bool)> = Vec::new();
    let mut i: usize = 0;
    while i < endpoints.len()
        invariant
            i <= endpoints.len(),
            r@.len() == i,
            forall|j: int| 0 <= j < i ==> (#[trigger] r@[j]).0 == endpoints@[j].hostname && r@[j].1,
        decreases endpoints.len() - i,
    {
        r.push((endpoints[i].hostname.clone(), true));
        i = i + 1;
    }
    r
}

/// Signs protocol transactions.
#[derive(Debug)]
pub struct ProtocolTraceSigner {
    traces: Vec<ProtocolTransactionTrace>,
}

/// The signature of a transaction: SHA-256, in lower-case hex, of the payload's hex
/// digest (as text) followed by the device id.
pub open spec fn transaction_signature(payload: Seq<u8>, device_id: Seq<char>) -> Seq<char> {
    sha256_hex_bytes_spec(vstd::utf8::encode_utf8(sha256_hex_bytes_spec(payload)) + vstd::utf8::encode_utf8(device_id))
}

impl ProtocolTraceSigner {
    /// How many traces the signer keeps.
    pub closed spec fn trace_count(&self) -> nat {
        self.traces@.len()
    }

    /// A signer that has kept no trace.
    pub fn new() -> (s: Self)
        ensures
            s.trace_count() == 0,
    {
        ProtocolTraceSigner { traces: Vec::new() }
    }

    /// Signs one transaction: the payload's digest, a signature over that digest and
    /// the device id, and the current time in microseconds (0 when the clock reads
    /// before the epoch; otherwise whatever the host clock gives). `first_use` says
    /// whether the signer has kept no trace; the signer keeps none of the traces it signs.
    pub fn sign_transaction(
        &mut self,
        device_id: String,
        protocol: ProtocolKind,
        direction: TransactionDirection,
        payload: &[u8],
    ) -> (t: ProtocolTransactionTrace)
        ensures
            final(self).trace_count() == old(self).trace_count(),
            t.device_id == device_id,
            t.protocol == protocol,
            t.direction == direction,
            t.payload_hash_hex@ == sha256_hex_bytes_spec(payload@),
            t.binding_confirmed,
            t.first_use == (old(self).trace_count() == 0),
            t.signature_hex@ == transaction_signature(payload@, device_id@),
    {
        let hash = sha256_hex_of_bytes(payload);
        let mut signed: Vec<u8> = Vec::new();
        extend_bytes(&mut signed, hash.as_str().as_bytes());
        extend_bytes(&mut signed, device_id.as_str().as_bytes());
        let sig = sha256_hex_of_bytes(signed.as_slice());
        let timestamp_us: u64 = micros_of_reading(clock_reading(unix_time_nanos()));
        ProtocolTransactionTrace {
            timestamp_us,
            device_id,
            protocol,
            direction,
            payload_hash_hex: hash,
            binding_confirmed: true,
            first_use: self.traces.len() == 0,
            signature_hex: sig,
        }
    }
}

/// The token that DNP3 transport authentication expects: the lower-case hex SHA-256
/// of the shared test secret.
pub open spec fn dnp3_expected_token() -> Seq<char> {
    sha256_hex_spec("TEST_SHARED_SECRET_V1"@)
}

impl Dnp3Driver {
    /// Accepts a token exactly when it is the UTF-8 text of `dnp3_expected_token`.
    pub fn authenticate(&self, token: Option<&[u8]>) -> (r: bool)
        ensures
            r == (token matches Some(t) && t@ == vstd::utf8::encode_utf8(dnp3_expected_token())),
    {
        let expected = sha256_hex("TEST_SHARED_SECRET_V1");
        match token {
            Some(t) => {
                let e = expected.as_str().as_bytes();
                if t.len() != e.len() {
                    return false;
                }
                let mut i: usize = 0;
                while i < t.len()
                    invariant
                        t.len() == e.len(),
                        i <= t.len(),
                        token == Some(t),
                        e@ == vstd::utf8::encode_utf8(dnp3_expected_token()),
                        forall|j: int| 0 <= j < i ==> t@[j] == e@[j],
                    decreases t.len() - i,
                {
                    if t[i] != e[i] {
                        return false;
                    }
                    i = i + 1;
                }
                assert(t@ == e@);
                true
            },
            None => false,
        }
    }
}

/// The summary of an IEC-61850 payload mapped onto CIM.
pub open spec fn cim_summary(entries: nat) -> Seq<char> {
    "IEC-61850 canonicalized (mapping entries: "@ + decimal(entries) + ")"@
}

impl Iec61850Driver {
    /// Names how many mapping entries the canonicalization draws on.
    pub fn map_to_cim_summary(&self, payload: &[u8]) -> (s: String)
        ensures
            s@ == cim_summary(crate::cim_mapping_data::mapping_data_spec().len()),
    {
        let count = mapping_data_len();
        let mut s = "IEC-61850 canonicalized (mapping entries: ".to_string();
        push_decimal(&mut s, count as u64);
        push_str(&mut s, ")");
        s
    }
}

} // verus!
