//! Checks the runtime makes on each cycle's input: the switch states that telemetry
//! reports, the quality of the telemetry points, where the topology comes from, and
//! the runtime's state and counters across cycles.
use vstd::prelude::*;
use crate::failure_axis::{FailureAxis, SystemHalt};
use crate::hashing::hex_lower;
use crate::operational_semantics::{OperatorCommandContext, TopologyEvent};
use crate::telemetry::BreakerState;
use crate::text_map::TextMap;
use crate::text::{push_str, chars_of, chars_eq};

verus! {

/// An event that reports a definite switch position (closed or open).
pub open spec fn reports_position(e: TopologyEvent) -> bool {
    e.breaker_state == BreakerState::Closed || e.breaker_state == BreakerState::Open
}

/// Event `j` of `events` is a latest report of a definite position for `id`: no other
/// such report for `id` is later.
pub open spec fn latest_report(events: Seq<TopologyEvent>, id: Seq<char>, j: int) -> bool {
    &&& 0 <= j < events.len()
    &&& reports_position(events[j])
    &&& events[j].equipment_id@ == id
    &&& forall|k: int|
        0 <= k < events.len() && reports_position(#[trigger] events[k]) && events[k].equipment_id@
            == id ==> events[k].timestamp_ms_utc <= events[j].timestamp_ms_utc
}

/// Whether some event reports a definite position for `id`.
pub open spec fn has_report(events: Seq<TopologyEvent>, id: Seq<char>) -> bool {
    exists|j: int| 0 <= j < events.len() && reports_position(#[trigger] events[j]) && events[j].equipment_id@ == id
}

/// The switch states that telemetry reports: for each switch with a definite report,
/// whether its latest report is closed (among reports with the same latest time, one
/// of them).
pub fn derive_telemetered_switch_state(events: &[TopologyEvent]) -> (m: TextMap<bool>)
    ensures
        m.wf(),
        forall|id: Seq<char>| #[trigger] m@.contains_key(id) <==> has_report(events@, id),
        forall|id: Seq<char>|
            #[trigger] m@.contains_key(id) ==> exists|j: int|
                latest_report(events@, id, j) && m@[id] == (events@[j].breaker_state
                    == BreakerState::Closed),
{
    let mut closed: TextMap<bool> = TextMap::new();
    let mut seen: TextMap<u64> = TextMap::new();
    let mut i: usize = 0;
    while i < events.len()
        invariant
            i <= events.len(),
            closed.wf(),
            seen.wf(),
            forall|id: Seq<char>| #[trigger] closed@.contains_key(id) <==> seen@.contains_key(id),
            forall|id: Seq<char>| #[trigger] closed@.contains_key(id) <==> has_report(events@.take(i as int), id),
            forall|id: Seq<char>|
                #[trigger] closed@.contains_key(id) ==> exists|j: int|
                    latest_report(events@.take(i as int), id, j) && closed@[id] == (
                    events@[j].breaker_state == BreakerState::Closed) && seen@[id]
                        == events@[j].timestamp_ms_utc,
        decreases events.len() - i,
    {
        let e = &events[i];
        let ghost pre = events@.take(i as int);
        let ghost post = events@.take(i + 1);
        assert(post == pre.push(events@[i as int]));
        let decisive = match e.breaker_state {
            BreakerState::Closed => true,
            BreakerState::Open => true,
            _ => false,
        };
        if decisive {
            let is_closed = match e.breaker_state {
                BreakerState::Closed => true,
                _ => false,
            };
            let replace = match seen.get(e.equipment_id.as_str()) {
                Some(t) => *t <= e.timestamp_ms_utc,
                None => true,
            };
            let ghost old_closed = closed@;
            let ghost old_seen = seen@;
            if replace {
                closed.insert(e.equipment_id.clone(), is_closed);
                seen.insert(e.equipment_id.clone(), e.timestamp_ms_utc);
            }
            proof {
                let key = e.equipment_id@;
                assert forall|id: Seq<char>| #[trigger] closed@.contains_key(id) <==> has_report(post, id) by {
                    if id == key {
                        assert(reports_position(post[i as int]) && post[i as int].equipment_id@ == id);
                    } else {
                        if has_report(post, id) {
                            let j = choose|j: int| 0 <= j < post.len() && reports_position(#[trigger] post[j]) && post[j].equipment_id@ == id;
                            assert(pre[j] == post[j]);
                        }
                        if has_report(pre, id) {
                            let j = choose|j: int| 0 <= j < pre.len() && reports_position(#[trigger] pre[j]) && pre[j].equipment_id@ == id;
                            assert(pre[j] == post[j]);
                        }
                    }
                }
                assert forall|id: Seq<char>|
                    #[trigger] closed@.contains_key(id) implies exists|j: int|
                        latest_report(post, id, j) && closed@[id] == (events@[j].breaker_state
                            == BreakerState::Closed) && seen@[id] == events@[j].timestamp_ms_utc by {
                    if id == key && replace {
                        assert forall|k: int|
                            0 <= k < post.len() && reports_position(#[trigger] post[k])
                                && post[k].equipment_id@ == id implies post[k].timestamp_ms_utc
                            <= post[i as int].timestamp_ms_utc by {
                            if k < i && old_closed.contains_key(id) {
                                let j0 = choose|j: int|
                                    latest_report(pre, id, j) && old_closed[id] == (
                                    events@[j].breaker_state == BreakerState::Closed)
                                        && old_seen[id] == events@[j].timestamp_ms_utc;
                                assert(pre[k] == post[k]);
                            } else if k < i {
                                assert(pre[k] == post[k]);
                                assert(has_report(pre, id));
                            }
                        }
                        assert(latest_report(post, id, i as int));
                    } else {
                        let j0 = choose|j: int|
                            latest_report(pre, id, j) && old_closed[id] == (
                            events@[j].breaker_state == BreakerState::Closed) && old_seen[id]
                                == events@[j].timestamp_ms_utc;
                        assert forall|k: int|
                            0 <= k < post.len() && reports_position(#[trigger] post[k])
                                && post[k].equipment_id@ == id implies post[k].timestamp_ms_utc
                            <= post[j0].timestamp_ms_utc by {
                            if k < i {
                                assert(pre[k] == post[k]);
                            }
                        }
                        assert(pre[j0] == post[j0]);
                        assert(latest_report(post, id, j0));
                    }
                }
            }
        } else {
            proof {
                assert forall|id: Seq<char>| #[trigger] closed@.contains_key(id) <==> has_report(post, id) by {
                    if has_report(post, id) {
                        let j = choose|j: int| 0 <= j < post.len() && reports_position(#[trigger] post[j]) && post[j].equipment_id@ == id;
                        assert(pre[j] == post[j]);
                    }
                    if has_report(pre, id) {
                        let j = choose|j: int| 0 <= j < pre.len() && reports_position(#[trigger] pre[j]) && pre[j].equipment_id@ == id;
                        assert(pre[j] == post[j]);
                    }
                }
                assert forall|id: Seq<char>|
                    #[trigger] closed@.contains_key(id) implies exists|j: int|
                        latest_report(post, id, j) && closed@[id] == (events@[j].breaker_state
                            == BreakerState::Closed) && seen@[id] == events@[j].timestamp_ms_utc by {
                    let j0 = choose|j: int|
                        latest_report(pre, id, j) && closed@[id] == (events@[j].breaker_state
                            == BreakerState::Closed) && seen@[id] == events@[j].timestamp_ms_utc;
                    assert forall|k: int|
                        0 <= k < post.len() && reports_position(#[trigger] post[k])
                            && post[k].equipment_id@ == id implies post[k].timestamp_ms_utc
                        <= post[j0].timestamp_ms_utc by {
                        if k < i {
                            assert(pre[k] == post[k]);
                        }
                    }
                    assert(pre[j0] == post[j0]);
                    assert(latest_report(post, id, j0));
                }
            }
        }
        i = i + 1;
    }
    assert(events@.take(events.len() as int) == events@);
    closed
}

/// The halt message for a telemetry point of bad quality: the mask as `0x` and two
/// lower-case hexadecimal digits.
pub open spec fn bad_quality_message(mask: u8) -> Seq<char> {
    "Protocol validation failed: bad telemetry quality mask 0x"@ + hex_lower(seq![mask])
}

/// Every telemetry point must carry a quality mask of zero; the first that does not
/// halts the cycle as an external injection.
pub fn validate_quality_masks(masks: &[u8]) -> (r: Result<(), SystemHalt>)
    ensures
        r is Ok <==> forall|i: int| 0 <= i < masks.len() ==> masks@[i] == 0,
        r matches Err(h) ==> h.axis == FailureAxis::ExternalInjectionDetected && exists|i: int|
            0 <= i < masks.len() && masks@[i] != 0 && (forall|k: int| 0 <= k < i ==> masks@[k] == 0)
                && h.message@ == bad_quality_message(masks@[i]),
{
    let mut i: usize = 0;
    while i < masks.len()
        invariant
            i <= masks.len(),
            forall|k: int| 0 <= k < i ==> masks@[k] == 0,
        decreases masks.len() - i,
    {
        if masks[i] != 0 {
            let one = [masks[i]];
            let digits = crate::hashing::hex_encode(&one);
            assert(one@ == seq![masks@[i as int]]);
            let mut m = "Protocol validation failed: bad telemetry quality mask 0x".to_string();
            push_str(&mut m, digits.as_str());
            return Err(SystemHalt::with_formatted(FailureAxis::ExternalInjectionDetected, m));
        }
        i = i + 1;
    }
    Ok(())
}

/// Where a cycle's topology comes from.
#[derive(Debug, Clone, Copy, PartialEq, Eq, Structural)]
pub enum TopologySource {
    /// The configured CIM model file.
    CimModel,
    /// No topology: an empty graph.
    Empty,
}

/// The halt message of an operational runtime without a CIM model.
pub open spec fn missing_topology_message() -> Seq<char> {
    "Operational runtime requires authoritative CIM topology input"@
}

/// Where a cycle's topology comes from: the CIM model when one is configured;
/// otherwise an empty topology, except in `"operational"` mode, which requires
/// authoritative input and halts as an internal invariant breach.
pub fn topology_source(mode: &str, has_cim_model: bool) -> (r: Result<TopologySource, SystemHalt>)
    ensures
        r is Err <==> !has_cim_model && mode@ == "operational"@,
        r matches Ok(src) ==> (src == TopologySource::CimModel <==> has_cim_model),
        r matches Err(h) ==> h.axis == FailureAxis::InternalInvariantBreach && h.message@ == missing_topology_message(),
{
    if has_cim_model {
        return Ok(TopologySource::CimModel);
    }
    let m = chars_of(mode);
    let op = chars_of("operational");
    if chars_eq(m.as_slice(), op.as_slice()) {
        Err(SystemHalt::new(FailureAxis::InternalInvariantBreach, "Operational runtime requires authoritative CIM topology input"))
    } else {
        Ok(TopologySource::Empty)
    }
}

/// The runtime's state machine.
#[derive(Debug, Clone, Copy, PartialEq, Eq, Structural)]
pub enum RuntimeState {
    /// Initializing protocol and kernel.
    Initializing,
    /// Ready to process telemetry.
    Ready,
    /// Evaluating constraint feasibility.
    Evaluating,
    /// Kernel executing.
    Executing,
    /// Generating and publishing the audit trace.
    Auditing,
    /// Healthy operational state.
    Nominal,
    /// Degraded: telemetry issues or constraint violations.
    Degraded,
    /// Incoherent: contradictions detected.
    Incoherent,
    /// Emergency halt.
    Emergency,
}

/// The runtime's decision counters.
#[derive(Debug, Clone, Copy, PartialEq, Eq, Structural)]
pub struct CycleMetrics {
    pub cycles_executed: u64,
    pub admissible_decisions: u64,
    pub inadmissible_decisions: u64,
}

impl CycleMetrics {
    /// No cycle run yet.
    pub fn new() -> (m: Self)
        ensures
            m == (CycleMetrics { cycles_executed: 0, admissible_decisions: 0, inadmissible_decisions: 0 }),
    {
        CycleMetrics { cycles_executed: 0, admissible_decisions: 0, inadmissible_decisions: 0 }
    }

    /// A cycle starts: it counts as executed whether or not it reaches a decision.
    pub fn start_cycle(&mut self)
        requires
            old(self).cycles_executed < u64::MAX,
        ensures
            *final(self) == (CycleMetrics { cycles_executed: (old(self).cycles_executed + 1) as u64, ..*old(self) }),
    {
        self.cycles_executed = self.cycles_executed + 1;
    }

    /// A cycle reaches its decision: it is counted as admissible or not, and the
    /// runtime ends the cycle `Nominal` when it was admissible and `Degraded` when not.
    pub fn finish_cycle(&mut self, admissible: bool) -> (s: RuntimeState)
        requires
            admissible ==> old(self).admissible_decisions < u64::MAX,
            !admissible ==> old(self).inadmissible_decisions < u64::MAX,
        ensures
            s == (if admissible { RuntimeState::Nominal } else { RuntimeState::Degraded }),
            final(self).cycles_executed == old(self).cycles_executed,
            final(self).admissible_decisions == old(self).admissible_decisions + (if admissible { 1int } else { 0int }),
            final(self).inadmissible_decisions == old(self).inadmissible_decisions + (if admissible { 0int } else { 1int }),
    {
        if admissible {
            self.admissible_decisions = self.admissible_decisions + 1;
            RuntimeState::Nominal
        } else {
            self.inadmissible_decisions = self.inadmissible_decisions + 1;
            RuntimeState::Degraded
        }
    }
}

/// What a replay scenario sets besides its telemetry values: the source latency, the
/// reported breaker events, and the operator command.
#[derive(Debug)]
pub struct ScenarioConditions {
    pub source_latency_ms: u64,
    pub topology_events: Vec<TopologyEvent>,
    pub operator_command: Option<OperatorCommandContext>,
}

/// A breaker event as plain values.
pub open spec fn event_view(e: TopologyEvent) -> (Seq<char>, BreakerState, u64) {
    (e.equipment_id@, e.breaker_state, e.timestamp_ms_utc)
}

/// An operator command as plain values.
pub open spec fn command_view(c: Option<OperatorCommandContext>) -> Option<(Seq<char>, Seq<char>, Seq<char>, u8)> {
    match c {
        Some(x) => Some((x.operator_id@, x.role@, x.command@, x.authority_level)),
        None => None,
    }
}

/// The source latency of a scenario: 2100 ms for `timing_divergence`, 30 s for
/// `delayed_scada`, 2500 ms for `cascading_failure`, else 500 ms.
pub open spec fn scenario_latency(name: Option<Seq<char>>) -> u64 {
    if name == Some("timing_divergence"@) {
        2100
    } else if name == Some("delayed_scada"@) {
        30_000
    } else if name == Some("cascading_failure"@) {
        2500
    } else {
        500
    }
}

/// The breaker events of a scenario: `BRK_1` closed then open 5 ms later for
/// `relay_disagreement`, `BRK_2` closed and open at once for `impossible_topology`,
/// `BRK_4` closed then intermediate 2 ms later for `safe_state_stabilization`, else none.
pub open spec fn scenario_events(name: Option<Seq<char>>) -> Seq<(Seq<char>, BreakerState, u64)> {
    if name == Some("relay_disagreement"@) {
        seq![("BRK_1"@, BreakerState::Closed, 1000u64), ("BRK_1"@, BreakerState::Open, 1005u64)]
    } else if name == Some("impossible_topology"@) {
        seq![("BRK_2"@, BreakerState::Closed, 1000u64), ("BRK_2"@, BreakerState::Open, 1000u64)]
    } else if name == Some("safe_state_stabilization"@) {
        seq![("BRK_4"@, BreakerState::Closed, 1000u64), ("BRK_4"@, BreakerState::Intermediate, 1002u64)]
    } else {
        Seq::empty()
    }
}

/// The operator command of a scenario: a guest's `increase_generation` with authority
/// 1 for `command_mismatch`, else none.
pub open spec fn scenario_command(name: Option<Seq<char>>) -> Option<(Seq<char>, Seq<char>, Seq<char>, u8)> {
    if name == Some("command_mismatch"@) {
        Some(("guest.operator"@, "guest"@, "increase_generation"@, 1u8))
    } else {
        None
    }
}

fn name_is(name: Option<&str>, s: &str) -> (r: bool)
    ensures
        r == (match name {
            Some(n) => n@ == s@,
            None => false,
        }),
{
    match name {
        Some(n) => {
            let a = chars_of(n);
            let b = chars_of(s);
            chars_eq(a.as_slice(), b.as_slice())
        },
        None => false,
    }
}

fn event(id: &str, state: BreakerState, ts: u64) -> (e: TopologyEvent)
    ensures
        event_view(e) == (id@, state, ts),
{
    TopologyEvent { equipment_id: id.to_string(), breaker_state: state, timestamp_ms_utc: ts }
}

/// What the replay scenario `name` (none for nominal operation) sets besides its
/// telemetry values.
pub fn scenario_conditions(name: Option<&str>) -> (c: ScenarioConditions)
    ensures
        c.source_latency_ms == scenario_latency(match name {
            Some(n) => Some(n@),
            None => None,
        }),
        c.topology_events@.map_values(|e: TopologyEvent| event_view(e)) == scenario_events(match name {
            Some(n) => Some(n@),
            None => None,
        }),
        command_view(c.operator_command) == scenario_command(match name {
            Some(n) => Some(n@),
            None => None,
        }),
{
    let ghost nv: Option<Seq<char>> = match name {
        Some(n) => Some(n@),
        None => None,
    };
    proof {
        reveal_strlit("timing_divergence");
        reveal_strlit("relay_disagreement");
        reveal_strlit("delayed_scada");
        reveal_strlit("impossible_topology");
        reveal_strlit("command_mismatch");
        reveal_strlit("cascading_failure");
        reveal_strlit("safe_state_stabilization");
        assert("timing_divergence"@.len() == 17 && "timing_divergence"@[0] == 't');
        assert("relay_disagreement"@.len() == 18);
        assert("delayed_scada"@.len() == 13);
        assert("impossible_topology"@.len() == 19);
        assert("command_mismatch"@.len() == 16);
        assert("cascading_failure"@.len() == 17 && "cascading_failure"@[0] == 'c');
        assert("safe_state_stabilization"@.len() == 24);
    }
    let mut events: Vec<TopologyEvent> = Vec::new();
    let mut latency: u64 = 500;
    let mut command: Option<OperatorCommandContext> = None;
    if name_is(name, "timing_divergence") {
        latency = 2100;
    } else if name_is(name, "relay_disagreement") {
        events.push(event("BRK_1", BreakerState::Closed, 1000));
        events.push(event("BRK_1", BreakerState::Open, 1005));
    } else if name_is(name, "delayed_scada") {
        latency = 30_000;
    } else if name_is(name, "impossible_topology") {
        events.push(event("BRK_2", BreakerState::Closed, 1000));
        events.push(event("BRK_2", BreakerState::Open, 1000));
    } else if name_is(name, "command_mismatch") {
        command = Some(OperatorCommandContext {
            operator_id: "guest.operator".to_string(),
            role: "guest".to_string(),
            command: "increase_generation".to_string(),
            authority_level: 1,
        });
    } else if name_is(name, "cascading_failure") {
        latency = 2500;
    } else if name_is(name, "safe_state_stabilization") {
        events.push(event("BRK_4", BreakerState::Closed, 1000));
        events.push(event("BRK_4", BreakerState::Intermediate, 1002));
    }
    let c = ScenarioConditions { source_latency_ms: latency, topology_events: events, operator_command: command };
    assert(c.topology_events@.map_values(|e: TopologyEvent| event_view(e)) =~= scenario_events(nv));
    c
}

} // verus!
