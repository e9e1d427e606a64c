//! The electrical topology of a CIM model: connectivity nodes joined by closed
//! switches form buses, the other equipment forms branches between buses, and a
//! switch whose telemetered state differs from the model is a divergence.
use vstd::prelude::*;
use crate::rdf_parser::{CimModel, ConductingEquipment, EquipmentKind, FixedDec9, Terminal};
use crate::text_map::TextMap;
use crate::sorted_text::{insert_distinct, lemma_sorted_unique, strictly_sorted, text_views};
use crate::text::{string_eq_str, push_str};
use crate::order::{chars_lt, compare_chars, lemma_chars_lt_facts, TextOrder};

verus! {

/// A switch whose telemetered state differs from its modelled state.
#[derive(Debug)]
pub struct TopologyDivergence {
    pub equipment_id: String,
    pub modeled_closed: bool,
    pub telemetered_closed: bool,
}

/// A bus: the connectivity nodes that closed switches join, in ascending order.
#[derive(Debug)]
pub struct ElectricalBus {
    pub bus_id: String,
    pub connectivity_nodes: Vec<String>,
}

/// A branch between two buses, with the equipment's line parameters.
#[derive(Debug)]
pub struct BranchEdge {
    pub equipment_id: String,
    pub kind: EquipmentKind,
    pub from_bus: String,
    pub to_bus: String,
    pub r: Option<FixedDec9>,
    pub x: Option<FixedDec9>,
    pub bch: Option<FixedDec9>,
}

/// The topology: buses, branches and divergences, each in ascending order.
#[derive(Debug)]
pub struct TopologyGraph {
    pub buses: Vec<ElectricalBus>,
    pub branches: Vec<BranchEdge>,
    pub divergences: Vec<TopologyDivergence>,
}

impl Default for TopologyGraph {
    fn default() -> (g: Self)
        ensures
            g.buses@.len() == 0,
            g.branches@.len() == 0,
            g.divergences@.len() == 0,
    {
        TopologyGraph { buses: Vec::new(), branches: Vec::new(), divergences: Vec::new() }
    }
}

/// Whether switch states come from the model, or from telemetry where it reports them.
#[derive(Debug, Clone, Copy, PartialEq, Eq, Structural)]
pub enum TopologyBuildMode {
    ModelState,
    TelemetryOverride,
}

/// Breakers, disconnectors and switches join nodes; other equipment forms branches.
pub open spec fn is_switch_kind(kind: EquipmentKind) -> bool {
    kind == EquipmentKind::Breaker || kind == EquipmentKind::Disconnector || kind == EquipmentKind::Switch
}

/// Whether the model has a switch closed: its `open` state if given, else its normal state
/// (closed when neither is given).
pub open spec fn modeled_closed(open: Option<bool>, normal_open: Option<bool>) -> bool {
    match open {
        Some(v) => !v,
        None => !(match normal_open {
            Some(n) => n,
            None => false,
        }),
    }
}

/// Whether a switch counts as closed: the telemetered state in override mode where
/// telemetry reports one, else the modelled state.
pub open spec fn effective_closed(e: ConductingEquipment, telem: Option<bool>, mode: TopologyBuildMode) -> bool {
    match telem {
        Some(t) => if mode == TopologyBuildMode::TelemetryOverride { t } else { modeled_closed(e.open, e.normal_open) },
        None => modeled_closed(e.open, e.normal_open),
    }
}

/// The current `open` state of a switch decides whether the model has it closed,
/// whatever its normal state says; the normal state decides only when there is no
/// current state; and with no telemetry (or outside override mode) a switch the model
/// has open does not join its nodes.
pub proof fn lemma_open_state_decides(e: ConductingEquipment, mode: TopologyBuildMode)
    ensures
        e.open == Some(true) ==> !modeled_closed(e.open, e.normal_open),
        e.open == Some(false) ==> modeled_closed(e.open, e.normal_open),
        e.open is None && e.normal_open == Some(true) ==> !modeled_closed(e.open, e.normal_open),
        e.open is None && e.normal_open != Some(true) ==> modeled_closed(e.open, e.normal_open),
        e.open == Some(true) ==> !effective_closed(e, None, mode),
        e.open == Some(true) && mode == TopologyBuildMode::ModelState ==> forall|t: bool| !#[trigger] effective_closed(e, Some(t), mode),
{
}

/// The telemetered state of a switch, if reported.
pub open spec fn telem_of(telem: Map<Seq<char>, bool>, id: Seq<char>) -> Option<bool> {
    if telem.contains_key(id) { Some(telem[id]) } else { None }
}

/// Whether a terminal connects equipment `eq_id` to a node.
pub open spec fn terminal_of(t: (String, Terminal), eq_id: Seq<char>) -> bool {
    t.1.conducting_equipment_id@.len() > 0 && t.1.connectivity_node_id@.len() > 0 && t.1.conducting_equipment_id@ == eq_id
}

/// The nodes that equipment `eq_id` connects, in terminal-id order.
pub open spec fn terminal_nodes(ts: Seq<(String, Terminal)>, eq_id: Seq<char>) -> Seq<Seq<char>>
    decreases ts.len(),
{
    if ts.len() == 0 {
        Seq::empty()
    } else if terminal_of(ts.last(), eq_id) {
        terminal_nodes(ts.drop_last(), eq_id).push(ts.last().1.connectivity_node_id@)
    } else {
        terminal_nodes(ts.drop_last(), eq_id)
    }
}

/// The node sets joined by closed switches, in equipment-id order.
pub open spec fn closed_groups(
    es: Seq<(String, ConductingEquipment)>,
    ts: Seq<(String, Terminal)>,
    telem: Map<Seq<char>, bool>,
    mode: TopologyBuildMode,
) -> Seq<Seq<Seq<char>>>
    decreases es.len(),
{
    if es.len() == 0 {
        Seq::empty()
    } else {
        let prev = closed_groups(es.drop_last(), ts, telem, mode);
        let e = es.last();
        if is_switch_kind(e.1.kind) && effective_closed(e.1, telem_of(telem, e.0@), mode) {
            prev.push(terminal_nodes(ts, e.0@))
        } else {
            prev
        }
    }
}

/// A divergence as plain values.
pub open spec fn divergence_view(d: TopologyDivergence) -> (Seq<char>, bool, bool) {
    (d.equipment_id@, d.modeled_closed, d.telemetered_closed)
}

/// The switches whose telemetered state differs from the model, in equipment-id order.
pub open spec fn divergences_spec(es: Seq<(String, ConductingEquipment)>, telem: Map<Seq<char>, bool>) -> Seq<(Seq<char>, bool, bool)>
    decreases es.len(),
{
    if es.len() == 0 {
        Seq::empty()
    } else {
        let prev = divergences_spec(es.drop_last(), telem);
        let e = es.last();
        let m = modeled_closed(e.1.open, e.1.normal_open);
        if is_switch_kind(e.1.kind) && telem.contains_key(e.0@) && telem[e.0@] != m {
            prev.push((e.0@, m, telem[e.0@]))
        } else {
            prev
        }
    }
}

/// Whether `x` and `y` are joined by the node sets `g`: the smallest equivalence in
/// which the nodes of each set are joined.
pub open spec fn joined(g: Seq<Seq<Seq<char>>>, x: Seq<char>, y: Seq<char>) -> bool
    decreases g.len(),
{
    if g.len() == 0 {
        x == y
    } else {
        let prev = g.drop_last();
        let last = g.last();
        joined(prev, x, y) || ((exists|a: Seq<char>| last.contains(a) && joined(prev, x, a)) && (exists|b: Seq<char>|
            last.contains(b) && joined(prev, b, y)))
    }
}

fn terminal_nodes_exec(terminals: &TextMap<Terminal>, eq_id: &str) -> (v: Vec<String>)
    ensures
        text_views(v@) == terminal_nodes(terminals.entries_view(), eq_id@),
{
    let ts = terminals.as_slice();
    let mut v: Vec<String> = Vec::new();
    let mut i: usize = 0;
    assert(text_views(v@) =~= Seq::<Seq<char>>::empty());
    while i < ts.len()
        invariant
            i <= ts.len(),
            ts@ == terminals.entries_view(),
            text_views(v@) == terminal_nodes(ts@.take(i as int), eq_id@),
        decreases ts.len() - i,
    {
        let t = &ts[i].1;
        proof {
            assert(ts@.take(i + 1).drop_last() == ts@.take(i as int));
            assert(ts@.take(i + 1).last() == ts@[i as int]);
        }
        let ce_len = crate::text::chars_of(t.conducting_equipment_id.as_str()).len();
        let cn_len = crate::text::chars_of(t.connectivity_node_id.as_str()).len();
        if ce_len > 0 && cn_len > 0 && string_eq_str(&t.conducting_equipment_id, eq_id) {
            let ghost before = v@;
            v.push(t.connectivity_node_id.clone());
            assert(text_views(v@) == text_views(before).push(t.connectivity_node_id@));
        }
        i = i + 1;
    }
    assert(ts@.take(ts.len() as int) == ts@);
    v
}

fn is_switch(kind: EquipmentKind) -> (r: bool)
    ensures
        r == is_switch_kind(kind),
{
    match kind {
        EquipmentKind::Breaker | EquipmentKind::Disconnector | EquipmentKind::Switch => true,
        _ => false,
    }
}

/// Views of node sets.
pub open spec fn group_views(v: Seq<Vec<String>>) -> Seq<Seq<Seq<char>>> {
    v.map_values(|g: Vec<String>| text_views(g@))
}

fn switch_groups(model: &CimModel, telem: &TextMap<bool>, mode: TopologyBuildMode) -> (r: (Vec<Vec<String>>, Vec<TopologyDivergence>))
    requires
        model.wf(),
        telem.wf(),
    ensures
        group_views(r.0@) == closed_groups(model.equipment.entries_view(), model.terminals.entries_view(), telem@, mode),
        r.1@.map_values(|d: TopologyDivergence| divergence_view(d)) == divergences_spec(model.equipment.entries_view(), telem@),
{
    let es = model.equipment.as_slice();
    let mut groups: Vec<Vec<String>> = Vec::new();
    let mut divs: Vec<TopologyDivergence> = Vec::new();
    let mut i: usize = 0;
    assert(group_views(groups@) =~= Seq::<Seq<Seq<char>>>::empty());
    assert(divs@.map_values(|d: TopologyDivergence| divergence_view(d)) =~= Seq::<(Seq<char>, bool, bool)>::empty());
    while i < es.len()
        invariant
            i <= es.len(),
            es@ == model.equipment.entries_view(),
            telem.wf(),
            group_views(groups@) == closed_groups(es@.take(i as int), model.terminals.entries_view(), telem@, mode),
            divs@.map_values(|d: TopologyDivergence| divergence_view(d)) == divergences_spec(es@.take(i as int), telem@),
        decreases es.len() - i,
    {
        let (id, eq) = (&es[i].0, &es[i].1);
        proof {
            assert(es@.take(i + 1).drop_last() == es@.take(i as int));
            assert(es@.take(i + 1).last() == es@[i as int]);
        }
        if is_switch(eq.kind) {
            let modeled = match eq.open {
                Some(v) => !v,
                None => !(match eq.normal_open {
                    Some(n) => n,
                    None => false,
                }),
            };
            let t = telem.get(id.as_str());
            let closed = match t {
                Some(tv) => {
                    if *tv != modeled {
                        let ghost before = divs@;
                        divs.push(TopologyDivergence { equipment_id: id.clone(), modeled_closed: modeled, telemetered_closed: *tv });
                        assert(divs@.map_values(|d: TopologyDivergence| divergence_view(d)) == before.map_values(
                            |d: TopologyDivergence| divergence_view(d),
                        ).push((id@, modeled, *tv)));
                    }
                    if mode == TopologyBuildMode::TelemetryOverride {
                        *tv
                    } else {
                        modeled
                    }
                },
                None => modeled,
            };
            if closed {
                let nodes = terminal_nodes_exec(&model.terminals, id.as_str());
                let ghost before = groups@;
                groups.push(nodes);
                assert(group_views(groups@) == group_views(before).push(text_views(nodes@)));
            }
        }
        i = i + 1;
    }
    assert(es@.take(es.len() as int) == es@);
    (groups, divs)
}

/// Whether the vertices at some two positions with the same label are `x` and `y`.
pub open spec fn same_label(vs: Seq<Seq<char>>, ls: Seq<u128>, x: Seq<char>, y: Seq<char>) -> bool {
    exists|i: int, j: int|
        0 <= i < vs.len() && 0 <= j < vs.len() && #[trigger] vs[i] == x && #[trigger] vs[j] == y && ls[i] == ls[j]
}

/// The labelling as the partition of `joined`: each vertex once, labels below `next`,
/// every model node present, and two texts joined exactly when equal or equally labelled.
pub open spec fn labels_ok(vs: Seq<Seq<char>>, ls: Seq<u128>, next: u128, g: Seq<Seq<Seq<char>>>, nodes: Seq<Seq<char>>) -> bool {
    &&& ls.len() == vs.len()
    &&& forall|i: int, j: int| 0 <= i < j < vs.len() ==> #[trigger] vs[i] != #[trigger] vs[j]
    &&& forall|i: int| 0 <= i < ls.len() ==> #[trigger] ls[i] < next
    &&& vs.len() >= nodes.len()
    &&& forall|i: int| 0 <= i < nodes.len() ==> #[trigger] vs[i] == nodes[i]
    &&& forall|x: Seq<char>, y: Seq<char>| #[trigger] joined(g, x, y) <==> (x == y || same_label(vs, ls, x, y))
}

fn find_vertex(vs: &Vec<String>, x: &String) -> (r: Option<usize>)
    ensures
        match r {
            Some(i) => i < vs@.len() && vs@[i as int]@ == x@,
            None => forall|i: int| 0 <= i < vs@.len() ==> (#[trigger] vs@[i])@ != x@,
        },
{
    let mut i: usize = 0;
    while i < vs.len()
        invariant
            i <= vs.len(),
            forall|k: int| 0 <= k < i ==> (#[trigger] vs@[k])@ != x@,
        decreases vs.len() - i,
    {
        if string_eq_str(&vs[i], x.as_str()) {
            return Some(i);
        }
        i = i + 1;
    }
    None
}

/// Joins the vertices of a node set: every label the set touches, and the set's own
/// nodes, get one fresh label.
fn merge_group(
    vs: &mut Vec<String>,
    ls: &mut Vec<u128>,
    next: &mut u128,
    grp: &Vec<String>,
    Ghost(g): Ghost<Seq<Seq<Seq<char>>>>,
    Ghost(nodes): Ghost<Seq<Seq<char>>>,
)
    requires
        labels_ok(text_views(old(vs)@), old(ls)@, *old(next), g, nodes),
        *old(next) < u128::MAX - 1,
    ensures
        labels_ok(text_views(final(vs)@), final(ls)@, *final(next), g.push(text_views(grp@)), nodes),
        *final(next) == *old(next) + 1,
{
    let ghost v0 = text_views(vs@);
    let ghost l0 = ls@;
    let ghost gv = text_views(grp@);
    let fresh = *next;
    *next = *next + 1;
    // the labels that the set touches
    let mut touched: Vec<u128> = Vec::new();
    let mut k: usize = 0;
    while k < grp.len()
        invariant
            k <= grp.len(),
            vs@ == old(vs)@,
            ls@ == l0,
            v0 == text_views(vs@),
            gv == text_views(grp@),
            l0.len() == v0.len(),
            forall|i: int, j: int| 0 <= i < j < v0.len() ==> #[trigger] v0[i] != #[trigger] v0[j],
            forall|t: u128| #[trigger] touched@.contains(t) <==> exists|a: int, i: int|
                0 <= a < k && 0 <= i < v0.len() && #[trigger] gv[a] == #[trigger] v0[i] && l0[i] == t,
        decreases grp.len() - k,
    {
        match find_vertex(vs, &grp[k]) {
            Some(i) => {
                let ghost before = touched@;
                touched.push(ls[i]);
                proof {
                    assert forall|t: u128| #[trigger] touched@.contains(t) <==> exists|a: int, i2: int|
                        0 <= a < k + 1 && 0 <= i2 < v0.len() && #[trigger] gv[a] == #[trigger] v0[i2] && l0[i2] == t by {
                        if touched@.contains(t) {
                            if t == l0[i as int] {
                                assert(gv[k as int] == v0[i as int]);
                            } else {
                                assert(before.contains(t));
                            }
                        }
                        if exists|a: int, i2: int| 0 <= a < k + 1 && 0 <= i2 < v0.len() && #[trigger] gv[a] == #[trigger] v0[i2] && l0[i2] == t {
                            let (a, i2) = choose|a: int, i2: int| 0 <= a < k + 1 && 0 <= i2 < v0.len() && #[trigger] gv[a] == #[trigger] v0[i2] && l0[i2] == t;
                            if a == k {
                                if i2 != i {
                                    if i2 < i {
                                        assert(v0[i2] != v0[i as int]);
                                    } else {
                                        assert(v0[i as int] != v0[i2]);
                                    }
                                }
                                assert(touched@[touched@.len() - 1] == t);
                            } else {
                                assert(before.contains(t));
                                let q = choose|q: int| 0 <= q < before.len() && before[q] == t;
                                assert(touched@[q] == t);
                            }
                        }
                    }
                }
            },
            None => {
                proof {
                    assert forall|t: u128| #[trigger] touched@.contains(t) <==> exists|a: int, i2: int|
                        0 <= a < k + 1 && 0 <= i2 < v0.len() && #[trigger] gv[a] == #[trigger] v0[i2] && l0[i2] == t by {
                        if exists|a: int, i2: int| 0 <= a < k + 1 && 0 <= i2 < v0.len() && #[trigger] gv[a] == #[trigger] v0[i2] && l0[i2] == t {
                            let (a, i2) = choose|a: int, i2: int| 0 <= a < k + 1 && 0 <= i2 < v0.len() && #[trigger] gv[a] == #[trigger] v0[i2] && l0[i2] == t;
                            if a == k {
                                assert(v0[i2] == vs@[i2]@);
                            }
                        }
                    }
                }
            },
        }
        k = k + 1;
    }
    // relabel every touched class
    let mut i: usize = 0;
    while i < ls.len()
        invariant
            i <= ls.len(),
            ls@.len() == l0.len(),
            vs@ == old(vs)@,
            forall|j: int| 0 <= j < i ==> #[trigger] ls@[j] == (if touched@.contains(l0[j]) { fresh } else { l0[j] }),
            forall|j: int| i <= j < ls@.len() ==> #[trigger] ls@[j] == l0[j],
        decreases ls.len() - i,
    {
        let l = ls[i];
        let mut hit = false;
        let mut q: usize = 0;
        while q < touched.len()
            invariant
                q <= touched.len(),
                hit == exists|r: int| 0 <= r < q && touched@[r] == l,
            decreases touched.len() - q,
        {
            if touched[q] == l {
                hit = true;
            }
            q = q + 1;
        }
        if hit {
            ls.set(i, fresh);
        }
        i = i + 1;
    }
    let ghost l1 = ls@;
    assert(l0.len() == v0.len());
    assert(forall|j: int| 0 <= j < v0.len() ==> #[trigger] l1[j] == (if touched@.contains(l0[j]) { fresh } else { l0[j] }));
    assert forall|i2: int, j: int| 0 <= i2 < j < vs@.len() implies (#[trigger] vs@[i2])@ != (#[trigger] vs@[j])@ by {
        assert(v0[i2] == vs@[i2]@ && v0[j] == vs@[j]@);
    }
    // add the set's nodes that are not vertices yet
    let mut k: usize = 0;
    while k < grp.len()
        invariant
            k <= grp.len(),
            gv == text_views(grp@),
            ls@.len() == vs@.len(),
            vs@.len() >= v0.len(),
            forall|j: int| 0 <= j < v0.len() ==> (#[trigger] vs@[j])@ == v0[j] && ls@[j] == l1[j],
            forall|j: int| v0.len() <= j < vs@.len() ==> #[trigger] ls@[j] == fresh && gv.contains(vs@[j]@),
            forall|i2: int, j: int| 0 <= i2 < j < vs@.len() ==> (#[trigger] vs@[i2])@ != (#[trigger] vs@[j])@,
            forall|a: int| 0 <= a < k ==> text_views(vs@).contains(#[trigger] gv[a]),
            forall|j: int| 0 <= j < v0.len() ==> #[trigger] l1[j] == (if touched@.contains(l0[j]) { fresh } else { l0[j] }),
            l0.len() == v0.len(),
        decreases grp.len() - k,
    {
        let ghost before = text_views(vs@);
        match find_vertex(vs, &grp[k]) {
            Some(i) => {
                assert(text_views(vs@)[i as int] == gv[k as int]);
            },
            None => {
                let ghost vs_before = vs@;
                let ghost ls_before = ls@;
                vs.push(grp[k].clone());
                ls.push(fresh);
                proof {
                    assert(gv[k as int] == grp@[k as int]@);
                    assert(gv.contains(grp@[k as int]@));
                    assert(vs@[vs@.len() - 1]@ == gv[k as int]);
                    assert forall|j: int| 0 <= j < v0.len() implies (#[trigger] vs@[j])@ == v0[j] && ls@[j] == l1[j] by {
                        assert(vs@[j] == vs_before[j]);
                        assert(ls@[j] == ls_before[j]);
                    }
                    assert forall|j: int| v0.len() <= j < vs@.len() implies #[trigger] ls@[j] == fresh && gv.contains(vs@[j]@) by {
                        if j < vs@.len() - 1 {
                            assert(vs@[j] == vs_before[j]);
                            assert(ls@[j] == ls_before[j]);
                        }
                    }
                    assert(text_views(vs@) == before.push(gv[k as int]));
                    assert(text_views(vs@)[vs@.len() - 1] == gv[k as int]);
                }
            },
        }
        proof {
            assert forall|a: int| 0 <= a < k + 1 implies text_views(vs@).contains(#[trigger] gv[a]) by {
                if a < k {
                    assert(before.contains(gv[a]));
                    let q = choose|q: int| 0 <= q < before.len() && before[q] == gv[a];
                    assert(text_views(vs@)[q] == gv[a]);
                }
            }
        }
        k = k + 1;
    }
    proof {
        lemma_merge_labels(v0, l0, text_views(vs@), ls@, touched@, fresh, g, gv, nodes);
    }
}

proof fn lemma_merge_labels(
    v0: Seq<Seq<char>>,
    l0: Seq<u128>,
    v1: Seq<Seq<char>>,
    l1: Seq<u128>,
    touched: Seq<u128>,
    fresh: u128,
    g: Seq<Seq<Seq<char>>>,
    gv: Seq<Seq<char>>,
    nodes: Seq<Seq<char>>,
)
    requires
        labels_ok(v0, l0, fresh, g, nodes),
        fresh < u128::MAX - 1,
        forall|t: u128| #[trigger] touched.contains(t) <==> exists|a: int, i: int|
            0 <= a < gv.len() && 0 <= i < v0.len() && #[trigger] gv[a] == #[trigger] v0[i] && l0[i] == t,
        l1.len() == v1.len(),
        v1.len() >= v0.len(),
        forall|j: int| 0 <= j < v0.len() ==> #[trigger] v1[j] == v0[j] && l1[j] == (if touched.contains(l0[j]) { fresh } else { l0[j] }),
        forall|j: int| v0.len() <= j < v1.len() ==> #[trigger] l1[j] == fresh && gv.contains(v1[j]),
        forall|i: int, j: int| 0 <= i < j < v1.len() ==> #[trigger] v1[i] != #[trigger] v1[j],
        forall|a: int| 0 <= a < gv.len() ==> v1.contains(#[trigger] gv[a]),
    ensures
        labels_ok(v1, l1, (fresh + 1) as u128, g.push(gv), nodes),
{
    let g2 = g.push(gv);
    assert(g2.drop_last() == g);
    assert(g2.last() == gv);
    assert forall|j: int| 0 <= j < l1.len() implies #[trigger] l1[j] < fresh + 1 by {
        if j < v0.len() {
            assert(v1[j] == v0[j]);
            assert(l0[j] < fresh);
        }
    }
    assert forall|i: int| 0 <= i < nodes.len() implies #[trigger] v1[i] == nodes[i] by {
        assert(v0[i] == nodes[i]);
    }
    // a vertex of v1 carries the fresh label exactly when it is in the merged class
    assert forall|j: int| 0 <= j < v1.len() implies (#[trigger] l1[j] == fresh) <==> (gv.contains(v1[j]) || (j < v0.len()
        && touched.contains(l0[j]))) by {
        if j < v0.len() {
            if gv.contains(v1[j]) {
                let a = choose|a: int| 0 <= a < gv.len() && gv[a] == v1[j];
                assert(gv[a] == v0[j]);
                assert(touched.contains(l0[j]));
            }
            if !touched.contains(l0[j]) {
                assert(l0[j] < fresh);
            }
        }
    }
    assert forall|x: Seq<char>, y: Seq<char>| #[trigger] joined(g2, x, y) <==> (x == y || same_label(v1, l1, x, y)) by {
        lemma_reach_group(v0, l0, touched, fresh, g, gv, nodes, x);
        lemma_reach_group_rev(v0, l0, touched, fresh, g, gv, nodes, y);
        lemma_same_label_after(v0, l0, v1, l1, touched, fresh, gv, x, y);
        if same_label(v0, l0, x, y) {
            lemma_same_label_touched(v0, l0, touched, gv, x, y);
        }
        assert(joined(g, x, y) <==> (x == y || same_label(v0, l0, x, y)));
    }
}

/// Whether `z` falls in the class that joining `gv` forms.
pub open spec fn in_merged(v0: Seq<Seq<char>>, l0: Seq<u128>, touched: Seq<u128>, gv: Seq<Seq<char>>, z: Seq<char>) -> bool {
    gv.contains(z) || exists|i: int| 0 <= i < v0.len() && #[trigger] v0[i] == z && touched.contains(l0[i])
}

proof fn lemma_reach_group(
    v0: Seq<Seq<char>>,
    l0: Seq<u128>,
    touched: Seq<u128>,
    fresh: u128,
    g: Seq<Seq<Seq<char>>>,
    gv: Seq<Seq<char>>,
    nodes: Seq<Seq<char>>,
    x: Seq<char>,
)
    requires
        labels_ok(v0, l0, fresh, g, nodes),
        forall|t: u128| #[trigger] touched.contains(t) <==> exists|a: int, i: int|
            0 <= a < gv.len() && 0 <= i < v0.len() && #[trigger] gv[a] == #[trigger] v0[i] && l0[i] == t,
    ensures
        (exists|a: Seq<char>| gv.contains(a) && joined(g, x, a)) <==> in_merged(v0, l0, touched, gv, x),
{
    if exists|a: Seq<char>| gv.contains(a) && joined(g, x, a) {
        let a = choose|a: Seq<char>| gv.contains(a) && joined(g, x, a);
        if x != a {
            assert(same_label(v0, l0, x, a));
            let (i, j) = choose|i: int, j: int|
                0 <= i < v0.len() && 0 <= j < v0.len() && #[trigger] v0[i] == x && #[trigger] v0[j] == a && l0[i] == l0[j];
            let k = choose|k: int| 0 <= k < gv.len() && gv[k] == a;
            assert(gv[k] == v0[j]);
            assert(touched.contains(l0[j]));
        }
    }
    if in_merged(v0, l0, touched, gv, x) {
        if gv.contains(x) {
            assert(joined(g, x, x));
        } else {
            let i = choose|i: int| 0 <= i < v0.len() && #[trigger] v0[i] == x && touched.contains(l0[i]);
            let (a, j) = choose|a: int, j: int| 0 <= a < gv.len() && 0 <= j < v0.len() && #[trigger] gv[a] == #[trigger] v0[j] && l0[j] == l0[i];
            assert(same_label(v0, l0, x, gv[a]));
            assert(joined(g, x, gv[a]));
            assert(gv.contains(gv[a]));
        }
    }
}

proof fn lemma_reach_group_rev(
    v0: Seq<Seq<char>>,
    l0: Seq<u128>,
    touched: Seq<u128>,
    fresh: u128,
    g: Seq<Seq<Seq<char>>>,
    gv: Seq<Seq<char>>,
    nodes: Seq<Seq<char>>,
    y: Seq<char>,
)
    requires
        labels_ok(v0, l0, fresh, g, nodes),
        forall|t: u128| #[trigger] touched.contains(t) <==> exists|a: int, i: int|
            0 <= a < gv.len() && 0 <= i < v0.len() && #[trigger] gv[a] == #[trigger] v0[i] && l0[i] == t,
    ensures
        (exists|b: Seq<char>| gv.contains(b) && joined(g, b, y)) <==> in_merged(v0, l0, touched, gv, y),
{
    if exists|b: Seq<char>| gv.contains(b) && joined(g, b, y) {
        let b = choose|b: Seq<char>| gv.contains(b) && joined(g, b, y);
        if b != y {
            assert(same_label(v0, l0, b, y));
            let (i, j) = choose|i: int, j: int|
                0 <= i < v0.len() && 0 <= j < v0.len() && #[trigger] v0[i] == b && #[trigger] v0[j] == y && l0[i] == l0[j];
            let k = choose|k: int| 0 <= k < gv.len() && gv[k] == b;
            assert(gv[k] == v0[i]);
            assert(touched.contains(l0[i]));
        }
    }
    if in_merged(v0, l0, touched, gv, y) {
        if gv.contains(y) {
            assert(joined(g, y, y));
        } else {
            let i = choose|i: int| 0 <= i < v0.len() && #[trigger] v0[i] == y && touched.contains(l0[i]);
            let (a, j) = choose|a: int, j: int| 0 <= a < gv.len() && 0 <= j < v0.len() && #[trigger] gv[a] == #[trigger] v0[j] && l0[j] == l0[i];
            assert(same_label(v0, l0, gv[a], y));
            assert(joined(g, gv[a], y));
            assert(gv.contains(gv[a]));
        }
    }
}

proof fn lemma_same_label_touched(v0: Seq<Seq<char>>, l0: Seq<u128>, touched: Seq<u128>, gv: Seq<Seq<char>>, x: Seq<char>, y: Seq<char>)
    requires
        forall|i: int, j: int| 0 <= i < j < v0.len() ==> #[trigger] v0[i] != #[trigger] v0[j],
        l0.len() == v0.len(),
        forall|t: u128| #[trigger] touched.contains(t) <==> exists|a: int, i: int|
            0 <= a < gv.len() && 0 <= i < v0.len() && #[trigger] gv[a] == #[trigger] v0[i] && l0[i] == t,
        same_label(v0, l0, x, y),
    ensures
        in_merged(v0, l0, touched, gv, x) <==> in_merged(v0, l0, touched, gv, y),
{
    let (i, j) = choose|i: int, j: int|
        0 <= i < v0.len() && 0 <= j < v0.len() && #[trigger] v0[i] == x && #[trigger] v0[j] == y && l0[i] == l0[j];
    if in_merged(v0, l0, touched, gv, x) {
        if gv.contains(x) {
            let a = choose|a: int| 0 <= a < gv.len() && gv[a] == x;
            assert(gv[a] == v0[i]);
            assert(touched.contains(l0[i]));
        } else {
            let i2 = choose|i2: int| 0 <= i2 < v0.len() && #[trigger] v0[i2] == x && touched.contains(l0[i2]);
            if i2 != i {
                if i2 < i { assert(v0[i2] != v0[i]); } else { assert(v0[i] != v0[i2]); }
            }
        }
        assert(v0[j] == y && touched.contains(l0[j]));
    }
    if in_merged(v0, l0, touched, gv, y) {
        if gv.contains(y) {
            let a = choose|a: int| 0 <= a < gv.len() && gv[a] == y;
            assert(gv[a] == v0[j]);
            assert(touched.contains(l0[j]));
        } else {
            let j2 = choose|j2: int| 0 <= j2 < v0.len() && #[trigger] v0[j2] == y && touched.contains(l0[j2]);
            if j2 != j {
                if j2 < j { assert(v0[j2] != v0[j]); } else { assert(v0[j] != v0[j2]); }
            }
        }
        assert(v0[i] == x && touched.contains(l0[i]));
    }
}

proof fn lemma_same_label_after(
    v0: Seq<Seq<char>>,
    l0: Seq<u128>,
    v1: Seq<Seq<char>>,
    l1: Seq<u128>,
    touched: Seq<u128>,
    fresh: u128,
    gv: Seq<Seq<char>>,
    x: Seq<char>,
    y: Seq<char>,
)
    requires
        l0.len() == v0.len(),
        forall|i: int, j: int| 0 <= i < j < v0.len() ==> #[trigger] v0[i] != #[trigger] v0[j],
        forall|i: int| 0 <= i < l0.len() ==> #[trigger] l0[i] < fresh,
        forall|t: u128| #[trigger] touched.contains(t) <==> exists|a: int, i: int|
            0 <= a < gv.len() && 0 <= i < v0.len() && #[trigger] gv[a] == #[trigger] v0[i] && l0[i] == t,
        l1.len() == v1.len(),
        v1.len() >= v0.len(),
        forall|j: int| 0 <= j < v0.len() ==> #[trigger] v1[j] == v0[j] && l1[j] == (if touched.contains(l0[j]) { fresh } else { l0[j] }),
        forall|j: int| v0.len() <= j < v1.len() ==> #[trigger] l1[j] == fresh && gv.contains(v1[j]),
        forall|i: int, j: int| 0 <= i < j < v1.len() ==> #[trigger] v1[i] != #[trigger] v1[j],
        forall|a: int| 0 <= a < gv.len() ==> v1.contains(#[trigger] gv[a]),
    ensures
        same_label(v1, l1, x, y) <==> ((in_merged(v0, l0, touched, gv, x) && in_merged(v0, l0, touched, gv, y)) || (
        same_label(v0, l0, x, y) && !in_merged(v0, l0, touched, gv, x) && !in_merged(v0, l0, touched, gv, y))),
{
    // every vertex in the merged class carries the fresh label in v1
    assert forall|z: Seq<char>| in_merged(v0, l0, touched, gv, z) implies exists|j: int|
        0 <= j < v1.len() && #[trigger] v1[j] == z && l1[j] == fresh by {
        if gv.contains(z) {
            let a = choose|a: int| 0 <= a < gv.len() && gv[a] == z;
            assert(v1.contains(gv[a]));
            let j = choose|j: int| 0 <= j < v1.len() && v1[j] == gv[a];
            if j < v0.len() {
                assert(gv[a] == v0[j]);
                assert(touched.contains(l0[j]));
            }
        } else {
            let i = choose|i: int| 0 <= i < v0.len() && #[trigger] v0[i] == z && touched.contains(l0[i]);
            assert(v1[i] == z);
        }
    }
    // a vertex of v1 with the fresh label is in the merged class
    assert forall|j: int| 0 <= j < v1.len() && #[trigger] l1[j] == fresh implies in_merged(v0, l0, touched, gv, v1[j]) by {
        if j < v0.len() {
            if !touched.contains(l0[j]) {
                assert(l0[j] < fresh);
            }
            assert(v0[j] == v1[j]);
        }
    }
    if same_label(v1, l1, x, y) {
        let (i, j) = choose|i: int, j: int|
            0 <= i < v1.len() && 0 <= j < v1.len() && #[trigger] v1[i] == x && #[trigger] v1[j] == y && l1[i] == l1[j];
        if l1[i] != fresh {
            assert(i < v0.len() && j < v0.len());
            assert(!touched.contains(l0[i]) && !touched.contains(l0[j]));
            assert(l0[i] == l0[j]);
            assert(v0[i] == x && v0[j] == y);
            assert(same_label(v0, l0, x, y));
            if in_merged(v0, l0, touched, gv, x) {
                if gv.contains(x) {
                    let a = choose|a: int| 0 <= a < gv.len() && gv[a] == x;
                    assert(gv[a] == v0[i]);
                    assert(touched.contains(l0[i]));
                } else {
                    let i2 = choose|i2: int| 0 <= i2 < v0.len() && #[trigger] v0[i2] == x && touched.contains(l0[i2]);
                    if i2 != i {
                        if i2 < i { assert(v0[i2] != v0[i]); } else { assert(v0[i] != v0[i2]); }
                    }
                }
            }
            if in_merged(v0, l0, touched, gv, y) {
                if gv.contains(y) {
                    let a = choose|a: int| 0 <= a < gv.len() && gv[a] == y;
                    assert(gv[a] == v0[j]);
                    assert(touched.contains(l0[j]));
                } else {
                    let j2 = choose|j2: int| 0 <= j2 < v0.len() && #[trigger] v0[j2] == y && touched.contains(l0[j2]);
                    if j2 != j {
                        if j2 < j { assert(v0[j2] != v0[j]); } else { assert(v0[j] != v0[j2]); }
                    }
                }
            }
        }
    }
    if in_merged(v0, l0, touched, gv, x) && in_merged(v0, l0, touched, gv, y) {
        let i = choose|j: int| 0 <= j < v1.len() && #[trigger] v1[j] == x && l1[j] == fresh;
        let j = choose|j: int| 0 <= j < v1.len() && #[trigger] v1[j] == y && l1[j] == fresh;
        assert(same_label(v1, l1, x, y));
    }
    if same_label(v0, l0, x, y) && !in_merged(v0, l0, touched, gv, x) && !in_merged(v0, l0, touched, gv, y) {
        let (i, j) = choose|i: int, j: int|
            0 <= i < v0.len() && 0 <= j < v0.len() && #[trigger] v0[i] == x && #[trigger] v0[j] == y && l0[i] == l0[j];
        assert(!touched.contains(l0[i]));
        assert(!touched.contains(l0[j]));
        assert(v1[i] == x && v1[j] == y);
        assert(same_label(v1, l1, x, y));
    }
}

/// Texts joined by `+`.
pub open spec fn plus_join(s: Seq<Seq<char>>) -> Seq<char>
    decreases s.len(),
{
    if s.len() == 0 {
        Seq::empty()
    } else if s.len() == 1 {
        s[0]
    } else {
        plus_join(s.drop_last()) + "+"@ + s.last()
    }
}

/// The id of the bus made of the given nodes.
pub open spec fn bus_id_text(members: Seq<Seq<char>>) -> Seq<char> {
    "BUS::"@ + plus_join(members)
}

fn bus_id_of(members: &Vec<String>) -> (s: String)
    ensures
        s@ == bus_id_text(text_views(members@)),
{
    let mut s = "BUS::".to_string();
    let ghost head = s@;
    let mut i: usize = 0;
    while i < members.len()
        invariant
            i <= members.len(),
            s@ == head + plus_join(text_views(members@).take(i as int)),
            head == "BUS::"@,
        decreases members.len() - i,
    {
        let ghost t = text_views(members@).take(i + 1);
        assert(t.drop_last() == text_views(members@).take(i as int));
        assert(t.last() == members@[i as int]@);
        if i > 0 {
            push_str(&mut s, "+");
        } else {
            assert(text_views(members@).take(0).len() == 0);
            assert(t.len() == 1);
        }
        push_str(&mut s, members[i].as_str());
        i = i + 1;
    }
    assert(text_views(members@).take(members.len() as int) == text_views(members@));
    s
}

/// The nodes of a bus.
pub open spec fn members_of(b: ElectricalBus) -> Seq<Seq<char>> {
    text_views(b.connectivity_nodes@)
}

/// The buses as the partition of the model nodes that `joined` induces: each bus a
/// non-empty ascending list of model nodes named after them, every model node in a
/// bus, two nodes in the same bus exactly when joined, buses in ascending id order.
pub open spec fn buses_ok(bv: Seq<ElectricalBus>, g: Seq<Seq<Seq<char>>>, nodes: Seq<Seq<char>>) -> bool {
    &&& forall|i: int| 0 <= i < bv.len() ==> {
        &&& strictly_sorted(members_of(#[trigger] bv[i]))
        &&& members_of(bv[i]).len() > 0
        &&& forall|n: Seq<char>| members_of(bv[i]).contains(n) ==> nodes.contains(n)
        &&& bv[i].bus_id@ == bus_id_text(members_of(bv[i]))
    }
    &&& forall|n: Seq<char>| nodes.contains(n) ==> exists|i: int| 0 <= i < bv.len() && members_of(#[trigger] bv[i]).contains(n)
    &&& forall|i: int, j: int, x: Seq<char>, y: Seq<char>|
        0 <= i < bv.len() && 0 <= j < bv.len() && #[trigger] members_of(bv[i]).contains(x) && #[trigger] members_of(
            bv[j],
        ).contains(y) ==> ((i == j) <==> joined(g, x, y))
    &&& forall|i: int, j: int| 0 <= i < j < bv.len() ==> !chars_lt((#[trigger] bv[j]).bus_id@, (#[trigger] bv[i]).bus_id@)
}

/// The nodes (among the first `n` vertices) that carry label `l`.
pub open spec fn labelled(vs: Seq<Seq<char>>, ls: Seq<u128>, n: int, l: u128, x: Seq<char>) -> bool {
    exists|j: int| 0 <= j < n && #[trigger] vs[j] == x && ls[j] == l
}

fn members_with_label(vs: &Vec<String>, ls: &Vec<u128>, n: usize, l: u128) -> (m: Vec<String>)
    requires
        n <= vs@.len(),
        ls@.len() == vs@.len(),
    ensures
        strictly_sorted(text_views(m@)),
        forall|x: Seq<char>| #[trigger] text_views(m@).contains(x) <==> labelled(text_views(vs@), ls@, n as int, l, x),
{
    let mut m: Vec<String> = Vec::new();
    let mut j: usize = 0;
    assert(text_views(m@) =~= Seq::<Seq<char>>::empty());
    while j < n
        invariant
            j <= n,
            n <= vs@.len(),
            ls@.len() == vs@.len(),
            strictly_sorted(text_views(m@)),
            forall|x: Seq<char>| #[trigger] text_views(m@).contains(x) <==> labelled(text_views(vs@), ls@, j as int, l, x),
        decreases n - j,
    {
        if ls[j] == l {
            insert_distinct(&mut m, vs[j].clone());
            proof {
                assert forall|x: Seq<char>| #[trigger] text_views(m@).contains(x) <==> labelled(text_views(vs@), ls@, j + 1, l, x) by {
                    if x == vs@[j as int]@ {
                        assert(text_views(vs@)[j as int] == x);
                    }
                    if labelled(text_views(vs@), ls@, j + 1, l, x) {
                        let q = choose|q: int| 0 <= q < j + 1 && #[trigger] text_views(vs@)[q] == x && ls@[q] == l;
                        if q < j {
                            assert(labelled(text_views(vs@), ls@, j as int, l, x));
                        }
                    }
                }
            }
        } else {
            proof {
                assert forall|x: Seq<char>| #[trigger] text_views(m@).contains(x) <==> labelled(text_views(vs@), ls@, j + 1, l, x) by {
                    if labelled(text_views(vs@), ls@, j + 1, l, x) {
                        let q = choose|q: int| 0 <= q < j + 1 && #[trigger] text_views(vs@)[q] == x && ls@[q] == l;
                        assert(q < j);
                        assert(labelled(text_views(vs@), ls@, j as int, l, x));
                    }
                }
            }
        }
        j = j + 1;
    }
    m
}

fn bus_position(buses: &Vec<ElectricalBus>, id: &String) -> (p: usize)
    requires
        forall|i: int, j: int| 0 <= i < j < buses@.len() ==> !chars_lt((#[trigger] buses@[j]).bus_id@, (#[trigger] buses@[i]).bus_id@),
    ensures
        p <= buses@.len(),
        forall|k: int| 0 <= k < p ==> !chars_lt(id@, (#[trigger] buses@[k]).bus_id@),
        forall|k: int| p <= k < buses@.len() ==> !chars_lt((#[trigger] buses@[k]).bus_id@, id@),
{
    proof {
        lemma_chars_lt_facts();
    }
    let idc = crate::text::chars_of(id.as_str());
    let mut p: usize = 0;
    while p < buses.len()
        invariant
            p <= buses@.len(),
            idc@ == id@,
            forall|i: int, j: int| 0 <= i < j < buses@.len() ==> !chars_lt((#[trigger] buses@[j]).bus_id@, (#[trigger] buses@[i]).bus_id@),
            forall|k: int| 0 <= k < p ==> !chars_lt(id@, (#[trigger] buses@[k]).bus_id@),
        decreases buses.len() - p,
    {
        let b = crate::text::chars_of(buses[p].bus_id.as_str());
        if compare_chars(idc.as_slice(), b.as_slice()) == TextOrder::Less {
            proof {
                lemma_chars_lt_facts();
                assert forall|k: int| p <= k < buses@.len() implies !chars_lt((#[trigger] buses@[k]).bus_id@, id@) by {
                    if k > p && chars_lt(buses@[k].bus_id@, id@) {
                        assert(chars_lt(buses@[k].bus_id@, buses@[p as int].bus_id@));
                    }
                }
            }
            return p;
        }
        p = p + 1;
    }
    p
}

fn label_seen(seen: &Vec<u128>, l: u128) -> (r: bool)
    ensures
        r == seen@.contains(l),
{
    let mut i: usize = 0;
    while i < seen.len()
        invariant
            i <= seen.len(),
            forall|k: int| 0 <= k < i ==> seen@[k] != l,
        decreases seen.len() - i,
    {
        if seen[i] == l {
            return true;
        }
        i = i + 1;
    }
    false
}

/// The invariant of bus construction: one bus per label met so far, each holding the
/// nodes of its label, in ascending id order.
pub open spec fn buses_built(
    bv: Seq<ElectricalBus>,
    labs: Seq<u128>,
    vs: Seq<Seq<char>>,
    ls: Seq<u128>,
    n: int,
    i: int,
) -> bool {
    &&& bv.len() == labs.len()
    &&& forall|k: int| 0 <= k < labs.len() ==> exists|j: int| 0 <= j < n && ls[j] == #[trigger] labs[k]
    &&& forall|k1: int, k2: int| 0 <= k1 < k2 < labs.len() ==> #[trigger] labs[k1] != #[trigger] labs[k2]
    &&& forall|k: int| 0 <= k < bv.len() ==> {
        &&& strictly_sorted(members_of(#[trigger] bv[k]))
        &&& forall|x: Seq<char>| members_of(bv[k]).contains(x) <==> labelled(vs, ls, n, labs[k], x)
        &&& bv[k].bus_id@ == bus_id_text(members_of(bv[k]))
    }
    &&& forall|j: int| 0 <= j < i ==> labs.contains(#[trigger] ls[j])
    &&& forall|a: int, b: int| 0 <= a < b < bv.len() ==> !chars_lt((#[trigger] bv[b]).bus_id@, (#[trigger] bv[a]).bus_id@)
}

fn build_buses(vs: &Vec<String>, ls: &Vec<u128>, n: usize) -> (r: (Vec<ElectricalBus>, Ghost<Seq<u128>>))
    requires
        n <= vs@.len(),
        ls@.len() == vs@.len(),
    ensures
        buses_built(r.0@, r.1@, text_views(vs@), ls@, n as int, n as int),
{
    let mut buses: Vec<ElectricalBus> = Vec::new();
    let ghost mut labs: Seq<u128> = Seq::empty();
    let mut seen: Vec<u128> = Vec::new();
    let mut i: usize = 0;
    while i < n
        invariant
            i <= n,
            n <= vs@.len(),
            ls@.len() == vs@.len(),
            buses_built(buses@, labs, text_views(vs@), ls@, n as int, i as int),
            forall|l: u128| #[trigger] seen@.contains(l) <==> labs.contains(l),
        decreases n - i,
    {
        let l = ls[i];
        if !label_seen(&seen, l) {
            let members = members_with_label(vs, ls, n, l);
            let id = bus_id_of(&members);
            let p = bus_position(&buses, &id);
            let ghost b0 = buses@;
            let ghost labs0 = labs;
            buses.insert(p, ElectricalBus { bus_id: id, connectivity_nodes: members });
            proof {
                labs = labs.insert(p as int, l);
                lemma_chars_lt_facts();
                let bv = buses@;
                assert(bv == b0.insert(p as int, bv[p as int]));
                assert forall|k: int| 0 <= k < labs.len() implies exists|j: int| 0 <= j < n && ls@[j] == #[trigger] labs[k] by {
                    if k < p {
                        assert(labs[k] == labs0[k]);
                    } else if k > p {
                        assert(labs[k] == labs0[k - 1]);
                    } else {
                        assert(ls@[i as int] == labs[k]);
                    }
                }
                assert forall|k1: int, k2: int| 0 <= k1 < k2 < labs.len() implies #[trigger] labs[k1] != #[trigger] labs[k2] by {
                    assert(!labs0.contains(l));
                    if k1 == p {
                        assert(labs[k2] == labs0[k2 - 1]);
                    } else if k2 == p {
                        assert(labs[k1] == labs0[k1]);
                    } else {
                        let a = if k1 < p { k1 } else { k1 - 1 };
                        let b = if k2 < p { k2 } else { k2 - 1 };
                        assert(labs[k1] == labs0[a] && labs[k2] == labs0[b]);
                    }
                }
                assert forall|k: int| 0 <= k < bv.len() implies {
                    &&& strictly_sorted(members_of(#[trigger] bv[k]))
                    &&& forall|x: Seq<char>| members_of(bv[k]).contains(x) <==> labelled(text_views(vs@), ls@, n as int, labs[k], x)
                    &&& bv[k].bus_id@ == bus_id_text(members_of(bv[k]))
                } by {
                    if k < p {
                        assert(bv[k] == b0[k] && labs[k] == labs0[k]);
                    } else if k > p {
                        assert(bv[k] == b0[k - 1] && labs[k] == labs0[k - 1]);
                    }
                }
                assert forall|j: int| 0 <= j < i + 1 implies labs.contains(#[trigger] ls@[j]) by {
                    if j < i {
                        assert(labs0.contains(ls@[j]));
                        let q = choose|q: int| 0 <= q < labs0.len() && labs0[q] == ls@[j];
                        if q < p {
                            assert(labs[q] == ls@[j]);
                        } else {
                            assert(labs[q + 1] == ls@[j]);
                        }
                    } else {
                        assert(labs[p as int] == l);
                    }
                }
                assert forall|a: int, b: int| 0 <= a < b < bv.len() implies !chars_lt((#[trigger] bv[b]).bus_id@, (#[trigger] bv[a]).bus_id@) by {
                    if b < p {
                        assert(bv[a] == b0[a] && bv[b] == b0[b]);
                    } else if b == p {
                        assert(bv[a] == b0[a]);
                    } else if a == p {
                        assert(bv[b] == b0[b - 1]);
                    } else if a < p {
                        assert(bv[a] == b0[a] && bv[b] == b0[b - 1]);
                    } else {
                        assert(bv[a] == b0[a - 1] && bv[b] == b0[b - 1]);
                    }
                }
            }
            let ghost seen0 = seen@;
            assert(forall|l2: u128| #[trigger] seen0.contains(l2) <==> labs0.contains(l2));
            seen.push(l);
            proof {
                assert forall|l2: u128| #[trigger] seen@.contains(l2) <==> labs.contains(l2) by {
                    if seen@.contains(l2) && l2 != l {
                        let q = choose|q: int| 0 <= q < seen@.len() && seen@[q] == l2;
                        assert(seen0[q] == l2);
                        assert(seen0.contains(l2));
                        assert(labs0.contains(l2));
                        let r = choose|r: int| 0 <= r < labs0.len() && labs0[r] == l2;
                        if r < p { assert(labs[r] == l2); } else { assert(labs[r + 1] == l2); }
                    }
                    if labs.contains(l2) && l2 != l {
                        let r = choose|r: int| 0 <= r < labs.len() && labs[r] == l2;
                        if r < p { assert(labs0[r] == l2); } else if r > p { assert(labs0[r - 1] == l2); }
                        assert(labs0.contains(l2));
                        assert(seen0.contains(l2));
                        let q = choose|q: int| 0 <= q < seen0.len() && seen0[q] == l2;
                        assert(seen@[q] == l2);
                    }
                    if l2 == l {
                        assert(seen@[seen@.len() - 1] == l);
                        assert(labs[p as int] == l);
                    }
                }
            }
        } else {
            proof {
                assert forall|j: int| 0 <= j < i + 1 implies labs.contains(#[trigger] ls@[j]) by {
                    if j == i {
                        assert(seen@.contains(l));
                    }
                }
            }
        }
        i = i + 1;
    }
    (buses, Ghost(labs))
}

proof fn lemma_buses_ok(
    bv: Seq<ElectricalBus>,
    labs: Seq<u128>,
    vs: Seq<Seq<char>>,
    ls: Seq<u128>,
    next: u128,
    g: Seq<Seq<Seq<char>>>,
    nodes: Seq<Seq<char>>,
)
    requires
        labels_ok(vs, ls, next, g, nodes),
        buses_built(bv, labs, vs, ls, nodes.len() as int, nodes.len() as int),
    ensures
        buses_ok(bv, g, nodes),
{
    let n = nodes.len() as int;
    assert forall|i: int| 0 <= i < bv.len() implies {
        &&& strictly_sorted(members_of(#[trigger] bv[i]))
        &&& members_of(bv[i]).len() > 0
        &&& forall|x: Seq<char>| members_of(bv[i]).contains(x) ==> nodes.contains(x)
        &&& bv[i].bus_id@ == bus_id_text(members_of(bv[i]))
    } by {
        let j = choose|j: int| 0 <= j < n && ls[j] == #[trigger] labs[i];
        assert(vs[j] == nodes[j]);
        assert(labelled(vs, ls, n, labs[i], vs[j]));
        assert(members_of(bv[i]).contains(vs[j]));
        assert forall|x: Seq<char>| members_of(bv[i]).contains(x) implies nodes.contains(x) by {
            assert(labelled(vs, ls, n, labs[i], x));
            let q = choose|q: int| 0 <= q < n && #[trigger] vs[q] == x && ls[q] == labs[i];
            assert(vs[q] == nodes[q]);
        }
    }
    assert forall|x: Seq<char>| nodes.contains(x) implies exists|i: int| 0 <= i < bv.len() && members_of(#[trigger] bv[i]).contains(x) by {
        let j = choose|j: int| 0 <= j < nodes.len() && nodes[j] == x;
        assert(vs[j] == nodes[j]);
        assert(labs.contains(ls[j]));
        let k = choose|k: int| 0 <= k < labs.len() && labs[k] == ls[j];
        assert(labelled(vs, ls, n, labs[k], x));
        assert(members_of(bv[k]).contains(x));
    }
    assert forall|i: int, j: int, x: Seq<char>, y: Seq<char>|
        0 <= i < bv.len() && 0 <= j < bv.len() && #[trigger] members_of(bv[i]).contains(x) && #[trigger] members_of(
            bv[j],
        ).contains(y) implies ((i == j) <==> joined(g, x, y)) by {
        assert(labelled(vs, ls, n, labs[i], x));
        assert(labelled(vs, ls, n, labs[j], y));
        let a = choose|a: int| 0 <= a < n && #[trigger] vs[a] == x && ls[a] == labs[i];
        let b = choose|b: int| 0 <= b < n && #[trigger] vs[b] == y && ls[b] == labs[j];
        if same_label(vs, ls, x, y) {
            let (i2, j2) = choose|i2: int, j2: int|
                0 <= i2 < vs.len() && 0 <= j2 < vs.len() && #[trigger] vs[i2] == x && #[trigger] vs[j2] == y && ls[i2] == ls[j2];
            if i2 != a {
                if i2 < a { assert(vs[i2] != vs[a]); } else { assert(vs[a] != vs[i2]); }
            }
            if j2 != b {
                if j2 < b { assert(vs[j2] != vs[b]); } else { assert(vs[b] != vs[j2]); }
            }
        }
        if x == y && a != b {
            if a < b { assert(vs[a] != vs[b]); } else { assert(vs[b] != vs[a]); }
        }
        if ls[a] == ls[b] {
            assert(same_label(vs, ls, x, y));
        }
        if i != j {
            if i < j { assert(labs[i] != labs[j]); } else { assert(labs[j] != labs[i]); }
        }
        assert(joined(g, x, y) <==> (x == y || same_label(vs, ls, x, y)));
    }
}

/// The ids of the model's connectivity nodes, ascending.
pub open spec fn node_keys(model: CimModel) -> Seq<Seq<char>> {
    model.nodes.entries_view().map_values(|e: (String, crate::rdf_parser::ConnectivityNode)| e.0@)
}

fn initial_labels(model: &CimModel) -> (r: (Vec<String>, Vec<u128>))
    requires
        model.wf(),
    ensures
        labels_ok(text_views(r.0@), r.1@, r.0@.len() as u128, Seq::empty(), node_keys(*model)),
        r.0@.len() == node_keys(*model).len(),
{
    let es = model.nodes.as_slice();
    let ghost nodes = node_keys(*model);
    let mut vs: Vec<String> = Vec::new();
    let mut ls: Vec<u128> = Vec::new();
    let mut i: usize = 0;
    proof {
        lemma_chars_lt_facts();
    }
    while i < es.len()
        invariant
            i <= es.len(),
            es@ == model.nodes.entries_view(),
            nodes == node_keys(*model),
            crate::text_map::keys_sorted(es@),
            vs@.len() == i,
            ls@.len() == i,
            forall|j: int| 0 <= j < i ==> (#[trigger] vs@[j])@ == es@[j].0@ && ls@[j] == j,
        decreases es.len() - i,
    {
        vs.push(es[i].0.clone());
        ls.push(i as u128);
        i = i + 1;
    }
    proof {
        lemma_chars_lt_facts();
        let v = text_views(vs@);
        assert forall|a: int, b: int| 0 <= a < b < v.len() implies #[trigger] v[a] != #[trigger] v[b] by {
            assert(v[a] == es@[a].0@ && v[b] == es@[b].0@);
            assert(chars_lt(es@[a].0@, es@[b].0@));
        }
        assert forall|j: int| 0 <= j < nodes.len() implies #[trigger] v[j] == nodes[j] by {
            assert(v[j] == es@[j].0@);
        }
        assert forall|x: Seq<char>, y: Seq<char>| #[trigger] joined(Seq::<Seq<Seq<char>>>::empty(), x, y) <==> (x == y || same_label(v, ls@, x, y)) by {
            if same_label(v, ls@, x, y) {
                let (a, b) = choose|a: int, b: int|
                    0 <= a < v.len() && 0 <= b < v.len() && #[trigger] v[a] == x && #[trigger] v[b] == y && ls@[a] == ls@[b];
                assert(vs@[a]@ == es@[a].0@ && vs@[b]@ == es@[b].0@);
                assert(ls@[a] == a && ls@[b] == b);
            }
            if x == y && v.contains(x) {
                let a = choose|a: int| 0 <= a < v.len() && v[a] == x;
                assert(same_label(v, ls@, x, y));
            }
        }
        assert forall|j: int| 0 <= j < ls@.len() implies #[trigger] ls@[j] < vs@.len() as u128 by {
            assert(vs@[j]@ == es@[j].0@);
            assert(ls@[j] == j);
        }
    }
    (vs, ls)
}

/// The bus ids that the nodes `terms` belong to.
pub open spec fn bus_of_terms(bv: Seq<ElectricalBus>, terms: Seq<Seq<char>>, b: Seq<char>) -> bool {
    exists|k: int, i: int|
        0 <= k < terms.len() && 0 <= i < bv.len() && #[trigger] members_of(bv[i]).contains(#[trigger] terms[k])
            && bv[i].bus_id@ == b
}

/// The buses that a branch's terminals reach, each once, ascending.
pub open spec fn branch_buses(bv: Seq<ElectricalBus>, terms: Seq<Seq<char>>) -> Seq<Seq<char>> {
    choose|s: Seq<Seq<char>>| strictly_sorted(s) && forall|b: Seq<char>| #[trigger] s.contains(b) <==> bus_of_terms(bv, terms, b)
}

/// A branch as plain values.
pub open spec fn branch_view(b: BranchEdge) -> (Seq<char>, EquipmentKind, Seq<char>, Seq<char>, Option<FixedDec9>, Option<FixedDec9>, Option<FixedDec9>) {
    (b.equipment_id@, b.kind, b.from_bus@, b.to_bus@, b.r, b.x, b.bch)
}

/// The branches: each non-switch equipment with at least two terminals whose nodes lie
/// in at least two buses, between the two lowest of those buses, in equipment-id order.
pub open spec fn branches_spec(
    es: Seq<(String, ConductingEquipment)>,
    ts: Seq<(String, Terminal)>,
    bv: Seq<ElectricalBus>,
) -> Seq<(Seq<char>, EquipmentKind, Seq<char>, Seq<char>, Option<FixedDec9>, Option<FixedDec9>, Option<FixedDec9>)>
    decreases es.len(),
{
    if es.len() == 0 {
        Seq::empty()
    } else {
        let prev = branches_spec(es.drop_last(), ts, bv);
        let e = es.last();
        let terms = terminal_nodes(ts, e.0@);
        let bb = branch_buses(bv, terms);
        if !is_switch_kind(e.1.kind) && terms.len() >= 2 && bb.len() >= 2 {
            prev.push((e.0@, e.1.kind, bb[0], bb[1], e.1.r, e.1.x, e.1.bch))
        } else {
            prev
        }
    }
}

fn reached_buses(buses: &Vec<ElectricalBus>, terms: &Vec<String>) -> (m: Vec<String>)
    requires
        forall|i: int, j: int, x: Seq<char>|
            0 <= i < buses@.len() && 0 <= j < buses@.len() && #[trigger] members_of(buses@[i]).contains(x)
                && #[trigger] members_of(buses@[j]).contains(x) ==> i == j,
    ensures
        text_views(m@) == branch_buses(buses@, text_views(terms@)),
{
    let ghost tv = text_views(terms@);
    let mut m: Vec<String> = Vec::new();
    let mut k: usize = 0;
    assert(text_views(m@) =~= Seq::<Seq<char>>::empty());
    while k < terms.len()
        invariant
            k <= terms.len(),
            tv == text_views(terms@),
            forall|i: int, j: int, x: Seq<char>|
                0 <= i < buses@.len() && 0 <= j < buses@.len() && #[trigger] members_of(buses@[i]).contains(x)
                    && #[trigger] members_of(buses@[j]).contains(x) ==> i == j,
            strictly_sorted(text_views(m@)),
            forall|b: Seq<char>| #[trigger] text_views(m@).contains(b) <==> bus_of_terms(buses@, tv.take(k as int), b),
        decreases terms.len() - k,
    {
        let mut i: usize = 0;
        let mut found: Option<usize> = None;
        while i < buses.len() && found.is_none()
            invariant
                i <= buses.len(),
                k < terms@.len(),
                found matches Some(f) ==> f < buses@.len() && members_of(buses@[f as int]).contains(terms@[k as int]@),
                found is None ==> forall|q: int| 0 <= q < i ==> !members_of(#[trigger] buses@[q]).contains(terms@[k as int]@),
            decreases buses.len() - i + (if found is None { 1int } else { 0int }),
        {
            let nodes = &buses[i].connectivity_nodes;
            let mut j: usize = 0;
            let mut hit = false;
            while j < nodes.len() && !hit
                invariant
                    j <= nodes.len(),
                    k < terms@.len(),
                    hit ==> j < nodes.len() && nodes@[j as int]@ == terms@[k as int]@,
                    !hit ==> forall|q: int| 0 <= q < j ==> (#[trigger] nodes@[q])@ != terms@[k as int]@,
                decreases nodes.len() - j + (if hit { 0int } else { 1int }),
            {
                if string_eq_str(&nodes[j], terms[k].as_str()) {
                    hit = true;
                } else {
                    j = j + 1;
                }
            }
            if hit {
                proof {
                    assert(members_of(buses@[i as int])[j as int] == terms@[k as int]@);
                }
                found = Some(i);
            } else {
                proof {
                    assert forall|q: int| 0 <= q < i + 1 implies !members_of(#[trigger] buses@[q]).contains(terms@[k as int]@) by {
                        if q == i {
                            if members_of(buses@[q]).contains(terms@[k as int]@) {
                                let r = choose|r: int| 0 <= r < members_of(buses@[q]).len() && members_of(buses@[q])[r] == terms@[k as int]@;
                                assert(nodes@[r]@ == terms@[k as int]@);
                            }
                        }
                    }
                }
                i = i + 1;
            }
        }
        let ghost t2 = tv.take(k + 1);
        assert(t2[k as int] == terms@[k as int]@);
        match found {
            Some(f) => {
                insert_distinct(&mut m, buses[f].bus_id.clone());
                proof {
                    assert forall|b: Seq<char>| #[trigger] text_views(m@).contains(b) <==> bus_of_terms(buses@, t2, b) by {
                        if bus_of_terms(buses@, t2, b) {
                            let (kk, ii) = choose|kk: int, ii: int|
                                0 <= kk < t2.len() && 0 <= ii < buses@.len() && #[trigger] members_of(buses@[ii]).contains(#[trigger] t2[kk])
                                    && buses@[ii].bus_id@ == b;
                            if kk < k {
                                assert(tv.take(k as int)[kk] == t2[kk]);
                                assert(bus_of_terms(buses@, tv.take(k as int), b));
                            }
                        }
                        if bus_of_terms(buses@, tv.take(k as int), b) {
                            let (kk, ii) = choose|kk: int, ii: int|
                                0 <= kk < k && 0 <= ii < buses@.len() && #[trigger] members_of(buses@[ii]).contains(#[trigger] tv.take(k as int)[kk])
                                    && buses@[ii].bus_id@ == b;
                            assert(t2[kk] == tv.take(k as int)[kk]);
                        }
                        if b == buses@[f as int].bus_id@ {
                            assert(members_of(buses@[f as int]).contains(t2[k as int]));
                        }
                        if bus_of_terms(buses@, t2, b) && !bus_of_terms(buses@, tv.take(k as int), b) {
                            let (kk, ii) = choose|kk: int, ii: int|
                                0 <= kk < t2.len() && 0 <= ii < buses@.len() && #[trigger] members_of(buses@[ii]).contains(#[trigger] t2[kk])
                                    && buses@[ii].bus_id@ == b;
                            if kk < k {
                                assert(tv.take(k as int)[kk] == t2[kk]);
                            } else {
                                assert(members_of(buses@[f as int]).contains(t2[kk]));
                                assert(ii == f);
                            }
                        }
                    }
                }
            },
            None => {
                proof {
                    assert forall|b: Seq<char>| #[trigger] text_views(m@).contains(b) <==> bus_of_terms(buses@, t2, b) by {
                        if bus_of_terms(buses@, t2, b) {
                            let (kk, ii) = choose|kk: int, ii: int|
                                0 <= kk < t2.len() && 0 <= ii < buses@.len() && #[trigger] members_of(buses@[ii]).contains(#[trigger] t2[kk])
                                    && buses@[ii].bus_id@ == b;
                            if kk < k {
                                assert(tv.take(k as int)[kk] == t2[kk]);
                                assert(bus_of_terms(buses@, tv.take(k as int), b));
                            } else {
                                assert(!members_of(buses@[ii]).contains(terms@[k as int]@));
                            }
                        }
                        if bus_of_terms(buses@, tv.take(k as int), b) {
                            let (kk, ii) = choose|kk: int, ii: int|
                                0 <= kk < k && 0 <= ii < buses@.len() && #[trigger] members_of(buses@[ii]).contains(#[trigger] tv.take(k as int)[kk])
                                    && buses@[ii].bus_id@ == b;
                            assert(t2[kk] == tv.take(k as int)[kk]);
                        }
                    }
                }
            },
        }
        k = k + 1;
    }
    assert(tv.take(terms.len() as int) == tv);
    proof {
        let c = branch_buses(buses@, tv);
        assert(strictly_sorted(text_views(m@)) && forall|b: Seq<char>| #[trigger] text_views(m@).contains(b) <==> bus_of_terms(buses@, tv, b));
        assert(strictly_sorted(c) && forall|b: Seq<char>| #[trigger] c.contains(b) <==> bus_of_terms(buses@, tv, b));
        lemma_sorted_unique(text_views(m@), c);
    }
    m
}

/// Every node is joined to itself.
pub proof fn lemma_joined_refl(g: Seq<Seq<Seq<char>>>, x: Seq<char>)
    ensures
        joined(g, x, x),
    decreases g.len(),
{
    if g.len() > 0 {
        lemma_joined_refl(g.drop_last(), x);
    }
}

/// Builds the topology of a model: the switches that count as closed (the model's
/// state, or in override mode the telemetered one where reported) join connectivity
/// nodes into buses; every other piece of equipment with two or more terminals on two or
/// more buses becomes a branch between the two lowest of them; every switch whose
/// telemetered state differs from the model is a divergence.
pub fn build_topology_graph_with_mode(model: &CimModel, telemetered_switch_closed: &TextMap<bool>, mode: TopologyBuildMode) -> (graph: TopologyGraph)
    requires
        model.wf(),
        telemetered_switch_closed.wf(),
    ensures
        buses_ok(
            graph.buses@,
            closed_groups(model.equipment.entries_view(), model.terminals.entries_view(), telemetered_switch_closed@, mode),
            node_keys(*model),
        ),
        graph.branches@.map_values(|b: BranchEdge| branch_view(b)) == branches_spec(
            model.equipment.entries_view(),
            model.terminals.entries_view(),
            graph.buses@,
        ),
        graph.divergences@.map_values(|d: TopologyDivergence| divergence_view(d)) == divergences_spec(
            model.equipment.entries_view(),
            telemetered_switch_closed@,
        ),
{
    let (groups, divergences) = switch_groups(model, telemetered_switch_closed, mode);
    let ghost gs = group_views(groups@);
    let ghost nodes = node_keys(*model);
    let (mut vs, mut ls) = initial_labels(model);
    let n = vs.len();
    let mut next: u128 = n as u128;
    let mut k: usize = 0;
    assert(gs.take(0) =~= Seq::<Seq<Seq<char>>>::empty());
    while k < groups.len()
        invariant
            k <= groups.len(),
            gs == group_views(groups@),
            nodes == node_keys(*model),
            n == nodes.len(),
            next == n + k,
            labels_ok(text_views(vs@), ls@, next, gs.take(k as int), nodes),
        decreases groups.len() - k,
    {
        proof {
            assert(gs.take(k + 1) == gs.take(k as int).push(text_views(groups@[k as int]@)));
        }
        merge_group(&mut vs, &mut ls, &mut next, &groups[k], Ghost(gs.take(k as int)), Ghost(nodes));
        k = k + 1;
    }
    assert(gs.take(groups.len() as int) == gs);
    let (buses, Ghost(labs)) = build_buses(&vs, &ls, n);
    proof {
        lemma_buses_ok(buses@, labs, text_views(vs@), ls@, next, gs, nodes);
        assert forall|i: int, j: int, x: Seq<char>|
            0 <= i < buses@.len() && 0 <= j < buses@.len() && #[trigger] members_of(buses@[i]).contains(x)
                && #[trigger] members_of(buses@[j]).contains(x) implies i == j by {
            lemma_joined_refl(gs, x);
        }
    }
    let es = model.equipment.as_slice();
    let mut branches: Vec<BranchEdge> = Vec::new();
    let mut i: usize = 0;
    assert(branches@.map_values(|b: BranchEdge| branch_view(b)) =~= Seq::empty());
    while i < es.len()
        invariant
            i <= es.len(),
            es@ == model.equipment.entries_view(),
            forall|a: int, b: int, x: Seq<char>|
                0 <= a < buses@.len() && 0 <= b < buses@.len() && #[trigger] members_of(buses@[a]).contains(x)
                    && #[trigger] members_of(buses@[b]).contains(x) ==> a == b,
            branches@.map_values(|b: BranchEdge| branch_view(b)) == branches_spec(es@.take(i as int), model.terminals.entries_view(), buses@),
        decreases es.len() - i,
    {
        let (id, eq) = (&es[i].0, &es[i].1);
        proof {
            assert(es@.take(i + 1).drop_last() == es@.take(i as int));
            assert(es@.take(i + 1).last() == es@[i as int]);
        }
        if !is_switch(eq.kind) {
            let terms = terminal_nodes_exec(&model.terminals, id.as_str());
            if terms.len() >= 2 {
                let mapped = reached_buses(&buses, &terms);
                if mapped.len() >= 2 {
                    let ghost before = branches@;
                    let edge = BranchEdge {
                        equipment_id: id.clone(),
                        kind: eq.kind,
                        from_bus: mapped[0].clone(),
                        to_bus: mapped[1].clone(),
                        r: eq.r,
                        x: eq.x,
                        bch: eq.bch,
                    };
                    proof {
                        assert(text_views(mapped@)[0] == mapped@[0]@);
                        assert(text_views(mapped@)[1] == mapped@[1]@);
                    }
                    branches.push(edge);
                    assert(branches@.map_values(|b: BranchEdge| branch_view(b)) == before.map_values(|b: BranchEdge| branch_view(b)).push(
                        branch_view(edge),
                    ));
                }
            }
        }
        i = i + 1;
    }
    assert(es@.take(es.len() as int) == es@);
    TopologyGraph { buses, branches, divergences }
}

/// Builds the topology from the model's switch states, reporting divergences.
pub fn build_topology_graph(model: &CimModel, telemetered_switch_closed: &TextMap<bool>) -> (graph: TopologyGraph)
    requires
        model.wf(),
        telemetered_switch_closed.wf(),
    ensures
        buses_ok(
            graph.buses@,
            closed_groups(
                model.equipment.entries_view(),
                model.terminals.entries_view(),
                telemetered_switch_closed@,
                TopologyBuildMode::ModelState,
            ),
            node_keys(*model),
        ),
        graph.branches@.map_values(|b: BranchEdge| branch_view(b)) == branches_spec(
            model.equipment.entries_view(),
            model.terminals.entries_view(),
            graph.buses@,
        ),
        graph.divergences@.map_values(|d: TopologyDivergence| divergence_view(d)) == divergences_spec(
            model.equipment.entries_view(),
            telemetered_switch_closed@,
        ),
{
    build_topology_graph_with_mode(model, telemetered_switch_closed, TopologyBuildMode::ModelState)
}

} // verus!
