//! The deterministic assurance pipeline over an evidence package: the checks on the
//! evidence and on the topology, the failure classes, and the replay identity.
use vstd::prelude::*;
use crate::text::{push_str, push_decimal, push_hex, decimal, hex_text};

verus! {

/// Switch positions of the network: each switch by name, closed or open.
#[derive(Debug, Clone, PartialEq, Eq)]
pub struct TopologyState {
    pub switches: Vec<(String, bool)>,
}

impl TopologyState {
    /// A topology from named switch states, in the given order.
    pub fn from_switches(switches: Vec<(&str, bool)>) -> (t: Self)
        ensures
            t.switches.len() == switches.len(),
            forall|i: int|
                0 <= i < switches.len() ==> (#[trigger] t.switches@[i]).0@ == switches@[i].0@
                    && t.switches@[i].1 == switches@[i].1,
    {
        let mut out: Vec<(String, bool)> = Vec::new();
        let mut i: usize = 0;
        while i < switches.len()
            invariant
                i <= switches.len(),
                out.len() == i,
                forall|k: int|
                    0 <= k < i ==> (#[trigger] out@[k]).0@ == switches@[k].0@ && out@[k].1
                        == switches@[k].1,
            decreases switches.len() - i,
        {
            let (name, state) = switches[i];
            out.push((name.to_string(), state));
            i = i + 1;
        }
        TopologyState { switches: out }
    }
}

/// The failure classes of an execution.
#[derive(Debug, Clone, PartialEq, Eq)]
pub enum TlbssError {
    /// Class I: the evidence is incomplete or invalid.
    EvidenceFailure(String),
    /// Class II: the topology cannot be reconstructed.
    TopologyFailure(String),
    /// Class III: no physically consistent state exists.
    ReconstructionFailure(String),
    /// Class IV: the operational state cannot be evaluated.
    AssuranceFailure(String),
    /// Class V: the execution was not deterministic.
    DeterminismFailure(String),
}

/// The display text of a failure: its class and its message.
pub open spec fn tlbss_error_text(e: TlbssError) -> Seq<char> {
    match e {
        TlbssError::EvidenceFailure(m) => "Evidence Failure (Class I): "@ + m@,
        TlbssError::TopologyFailure(m) => "Topology Failure (Class II): "@ + m@,
        TlbssError::ReconstructionFailure(m) => "Reconstruction Failure (Class III): "@ + m@,
        TlbssError::AssuranceFailure(m) => "Assurance Failure (Class IV): "@ + m@,
        TlbssError::DeterminismFailure(m) => "Determinism Failure (Class V): "@ + m@,
    }
}

impl TlbssError {
    /// The display text of the failure.
    pub fn message_text(&self) -> (s: String)
        ensures
            s@ == tlbss_error_text(*self),
    {
        let (mut s, m) = match self {
            TlbssError::EvidenceFailure(m) => ("Evidence Failure (Class I): ".to_string(), m),
            TlbssError::TopologyFailure(m) => ("Topology Failure (Class II): ".to_string(), m),
            TlbssError::ReconstructionFailure(m) => (
                "Reconstruction Failure (Class III): ".to_string(),
                m,
            ),
            TlbssError::AssuranceFailure(m) => ("Assurance Failure (Class IV): ".to_string(), m),
            TlbssError::DeterminismFailure(m) => (
                "Determinism Failure (Class V): ".to_string(),
                m,
            ),
        };
        push_str(&mut s, m.as_str());
        s
    }
}

/// What the evidence check reads of one measurement: its provenance labels, whether
/// its quality lies in `(0.0, 1.0]`, and the quality as it is printed.
#[derive(Debug, Clone)]
pub struct MeasurementEvidence {
    pub source: String,
    pub units: String,
    pub point: String,
    pub provenance: String,
    pub quality_in_range: bool,
    pub quality_text: String,
}

/// The first fault of one measurement, checked in order: quality, source, point,
/// provenance, units.
pub open spec fn measurement_fault(m: MeasurementEvidence) -> Option<Seq<char>> {
    if !m.quality_in_range {
        Some(
            "measurement quality "@ + m.quality_text@ + " is outside valid range [0.0, 1.0]"@,
        )
    } else if m.source@.len() == 0 {
        Some("measurement source is missing"@)
    } else if m.point@.len() == 0 {
        Some("measurement point identifier is missing"@)
    } else if m.provenance@.len() == 0 {
        Some("measurement provenance is missing"@)
    } else if m.units@.len() == 0 {
        Some("measurement units are not specified"@)
    } else {
        None
    }
}

/// The first fault among the measurements from index `i` on.
pub open spec fn first_fault_from(ms: Seq<MeasurementEvidence>, i: int) -> Option<Seq<char>>
    decreases ms.len() - i,
{
    if i < 0 || i >= ms.len() {
        None
    } else {
        match measurement_fault(ms[i]) {
            Some(f) => Some(f),
            None => first_fault_from(ms, i + 1),
        }
    }
}

/// The message of the evidence check's failure, if it fails.
pub open spec fn evidence_fault(ms: Seq<MeasurementEvidence>, provenance_id: Seq<char>) -> Option<
    Seq<char>,
> {
    if ms.len() == 0 {
        Some("measurement set is empty"@)
    } else {
        match first_fault_from(ms, 0) {
            Some(f) => Some(f),
            None => if provenance_id.len() == 0 {
                Some("evidence provenance identifier is missing"@)
            } else {
                None
            },
        }
    }
}

/// The message of the topology check's failure, if it fails.
pub open spec fn topology_fault(switches: Seq<(String, bool)>) -> Option<Seq<char>> {
    if switches.len() == 0 {
        Some("topology cannot be reconstructed from available evidence"@)
    } else if exists|i: int| 0 <= i < switches.len() && (#[trigger] switches[i]).0@.len() == 0 {
        Some("switch identifier is missing"@)
    } else {
        None
    }
}

/// How a switch state is printed.
pub open spec fn bool_text(b: bool) -> Seq<char> {
    if b {
        "true"@
    } else {
        "false"@
    }
}

/// The replay components of the switches, each as `:name=state`.
pub open spec fn switch_components(switches: Seq<(String, bool)>) -> Seq<char>
    decreases switches.len(),
{
    if switches.len() == 0 {
        Seq::empty()
    } else {
        switch_components(switches.drop_last()) + ":"@ + switches.last().0@ + "="@ + bool_text(
            switches.last().1,
        )
    }
}

/// The replay identity: the software version, the provenance identifier, the execution
/// index in hexadecimal, the number of switches, each switch, and the printed physical
/// state, joined by `:`.
pub open spec fn replay_identity_spec(
    version: Seq<char>,
    provenance_id: Seq<char>,
    execution_index: u64,
    switches: Seq<(String, bool)>,
    state_text: Seq<char>,
) -> Seq<char> {
    version + ":"@ + provenance_id + ":"@ + hex_text(execution_index as nat) + ":"@ + decimal(
        switches.len(),
    ) + switch_components(switches) + ":"@ + state_text
}

/// The deterministic execution engine; its version enters every replay identity.
#[derive(Debug)]
pub struct TlbssEngine {
    version: &'static str,
}

impl TlbssEngine {
    /// The version the engine stamps into replay identities.
    pub closed spec fn version_text(&self) -> Seq<char> {
        self.version@
    }

    /// The engine at software version `2.0.0`.
    pub fn new() -> (e: Self)
        ensures
            e.version_text() == "2.0.0"@,
    {
        TlbssEngine { version: "2.0.0" }
    }

    /// Stage 1: every measurement has a quality in range and complete provenance, and
    /// the package has a provenance identifier.
    pub fn validate_evidence(&self, measurements: &Vec<MeasurementEvidence>, provenance_id: &str) -> (r:
        Result<(), TlbssError>)
        ensures
            r is Ok <==> evidence_fault(measurements@, provenance_id@) is None,
            r matches Err(e) ==> e matches TlbssError::EvidenceFailure(m) && evidence_fault(
                measurements@,
                provenance_id@,
            ) == Some(m@),
    {
        if measurements.len() == 0 {
            return Err(TlbssError::EvidenceFailure("measurement set is empty".to_string()));
        }
        let mut i: usize = 0;
        while i < measurements.len()
            invariant
                i <= measurements.len(),
                first_fault_from(measurements@, 0) == first_fault_from(measurements@, i as int),
            decreases measurements.len() - i,
        {
            let m = &measurements[i];
            let fault: Option<String> = if !m.quality_in_range {
                let mut s = "measurement quality ".to_string();
                push_str(&mut s, m.quality_text.as_str());
                push_str(&mut s, " is outside valid range [0.0, 1.0]");
                Some(s)
            } else if m.source.as_str().unicode_len() == 0 {
                Some("measurement source is missing".to_string())
            } else if m.point.as_str().unicode_len() == 0 {
                Some("measurement point identifier is missing".to_string())
            } else if m.provenance.as_str().unicode_len() == 0 {
                Some("measurement provenance is missing".to_string())
            } else if m.units.as_str().unicode_len() == 0 {
                Some("measurement units are not specified".to_string())
            } else {
                None
            };
            match fault {
                Some(f) => {
                    assert(measurement_fault(measurements@[i as int]) == Some(f@));
                    return Err(TlbssError::EvidenceFailure(f));
                },
                None => {
                    assert(measurement_fault(measurements@[i as int]) is None);
                },
            }
            i = i + 1;
        }
        if provenance_id.unicode_len() == 0 {
            return Err(
                TlbssError::EvidenceFailure("evidence provenance identifier is missing".to_string()),
            );
        }
        Ok(())
    }

    /// Stage 2: the topology has switches, each with a name.
    pub fn verify_topology(&self, topology: &TopologyState) -> (r: Result<(), TlbssError>)
        ensures
            r is Ok <==> topology_fault(topology.switches@) is None,
            r matches Err(e) ==> e matches TlbssError::TopologyFailure(m) && topology_fault(
                topology.switches@,
            ) == Some(m@),
    {
        if topology.switches.len() == 0 {
            return Err(
                TlbssError::TopologyFailure(
                    "topology cannot be reconstructed from available evidence".to_string(),
                ),
            );
        }
        let mut i: usize = 0;
        while i < topology.switches.len()
            invariant
                i <= topology.switches.len(),
                forall|k: int| 0 <= k < i ==> (#[trigger] topology.switches@[k]).0@.len() != 0,
            decreases topology.switches.len() - i,
        {
            if topology.switches[i].0.as_str().unicode_len() == 0 {
                return Err(TlbssError::TopologyFailure("switch identifier is missing".to_string()));
            }
            i = i + 1;
        }
        Ok(())
    }

    /// Stages 1 and 2 in order: the evidence is checked before the topology, so a
    /// package with faulty evidence fails as evidence whatever its topology.
    pub fn validate_evidence_and_topology(
        &self,
        measurements: &Vec<MeasurementEvidence>,
        provenance_id: &str,
        topology: &TopologyState,
    ) -> (r: Result<(), TlbssError>)
        ensures
            evidence_fault(measurements@, provenance_id@) matches Some(f) ==> r matches Err(
                TlbssError::EvidenceFailure(m),
            ) && m@ == f,
            evidence_fault(measurements@, provenance_id@) is None ==> (r is Ok <==> topology_fault(
                topology.switches@,
            ) is None) && (r matches Err(e) ==> e matches TlbssError::TopologyFailure(m)
                && topology_fault(topology.switches@) == Some(m@)),
    {
        match self.validate_evidence(measurements, provenance_id) {
            Err(e) => Err(e),
            Ok(()) => self.verify_topology(topology),
        }
    }

    /// The deterministic replay identity of an execution, from the provenance
    /// identifier, the execution index, the topology and the printed physical state.
    pub fn replay_identity(
        &self,
        provenance_id: &str,
        execution_index: u64,
        topology: &TopologyState,
        state_text: &str,
    ) -> (s: String)
        ensures
            s@ == replay_identity_spec(
                self.version_text(),
                provenance_id@,
                execution_index,
                topology.switches@,
                state_text@,
            ),
    {
        let mut s = self.version.to_string();
        push_str(&mut s, ":");
        push_str(&mut s, provenance_id);
        push_str(&mut s, ":");
        push_hex(&mut s, execution_index);
        push_str(&mut s, ":");
        push_decimal(&mut s, topology.switches.len() as u64);
        let ghost head = s@;
        let mut i: usize = 0;
        while i < topology.switches.len()
            invariant
                i <= topology.switches.len(),
                s@ == head + switch_components(topology.switches@.take(i as int)),
            decreases topology.switches.len() - i,
        {
            push_str(&mut s, ":");
            push_str(&mut s, topology.switches[i].0.as_str());
            push_str(&mut s, "=");
            if topology.switches[i].1 {
                push_str(&mut s, "true");
            } else {
                push_str(&mut s, "false");
            }
            assert(topology.switches@.take(i + 1).drop_last() == topology.switches@.take(i as int));
            i = i + 1;
        }
        assert(topology.switches@.take(topology.switches.len() as int) == topology.switches@);
        push_str(&mut s, ":");
        push_str(&mut s, state_text);
        s
    }

    /// The advisory identifier of an evidence package: `adv-` and its provenance.
    pub fn advisory_id(&self, provenance_id: &str) -> (s: String)
        ensures
            s@ == "adv-"@ + provenance_id@,
    {
        let mut s = "adv-".to_string();
        push_str(&mut s, provenance_id);
        s
    }
}

impl Default for TlbssEngine {
    /// An engine with an empty version.
    fn default() -> (e: Self)
        ensures
            e.version_text() == ""@,
    {
        TlbssEngine { version: "" }
    }
}

} // verus!
