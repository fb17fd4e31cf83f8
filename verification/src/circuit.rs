//! The circuit facade: the user-facing handle over a compiled dataflow.
//!
//! A circuit is built from a validated graph: every declared source gets
//! an input endpoint and every declared sink an output endpoint.  With
//! optimization on, sources that no sink observes and sinks whose
//! producers were pruned keep their declared layouts but lose their
//! endpoints; feeding an absent endpoint is a no-op and consolidating an
//! absent sink yields the empty collection of the declared shape.  Each
//! `step` absorbs all pending input, evaluates the dataflow once, and
//! appends the resulting delta to each live sink's trace;
//! `consolidate_output` drains a trace into canonical consolidated form.
//! `kill` consumes the circuit, so no endpoint or row handle can outlive
//! it.

use vstd::prelude::*;

use crate::consolidate::{
    consolidate_map, consolidate_set, map_pairs_view, map_sorted, map_weights_fit, set_sorted,
    set_weights_fit, weight_of, MapV, SetV,
};
use crate::demands::{CsvColumnMapping, Demands, JsonDeserConfig};
use crate::json::IngestError;
use crate::graph::{
    feeds, graph_wf, live_node, node_output, node_wf, source_used, Graph, Node, NodeId,
};
use crate::layout::{LayoutId, NativeLayout, RowLayout};
use crate::literal::{
    literal_wf, set_view, NullableConstantV, RowLiteral, StreamCollection, StreamLayout, Weight,
};
use crate::row::{has_ptr, row_from_literal, row_literal_from_row, Row};

verus! {

/// The input endpoint of one declared source.  `live` is false when the
/// optimizer dropped the endpoint; the layout stays addressable.
pub struct SourceState {
    pub live: bool,
    pub layout: StreamLayout,
    pub set_pending: Vec<(Row, Weight)>,
    pub map_pending: Vec<(Row, Row, Weight)>,
}

/// The output endpoint of one declared sink.
pub struct SinkState {
    pub live: bool,
    pub layout: StreamLayout,
    pub upstream: NodeId,
    pub set_trace: Vec<(RowLiteral, Weight)>,
    pub map_trace: Vec<(RowLiteral, RowLiteral, Weight)>,
}

/// Failure to build a circuit.
#[derive(Clone, Copy, Debug, PartialEq, Eq, Structural)]
pub enum CircuitError {
    /// The graph failed validation.
    InvalidGraph,
}

/// Failure of one step of the circuit.
#[derive(Clone, Copy, Debug, PartialEq, Eq, Structural)]
pub enum StepError {
    /// A joined weight left the representable range.
    WeightOverflow,
}

/// The circuit handle: endpoint maps, demand tables, and the frozen graph.
pub struct DbspCircuit {
    pub graph: Graph,
    pub workers: usize,
    pub tick: u64,
    pub inputs: Vec<(NodeId, SourceState)>,
    pub outputs: Vec<(NodeId, SinkState)>,
    pub csv_demands: Vec<(LayoutId, CsvColumnMapping)>,
    pub json_demands: Vec<(LayoutId, JsonDeserConfig)>,
}

/// Is node `target` a declared source?
pub open spec fn is_source(g: Graph, target: int) -> bool {
    0 <= target < g.nodes@.len() && g.nodes@[target] matches Node::Source(_)
}

/// Is node `target` a declared sink?
pub open spec fn is_sink(g: Graph, target: int) -> bool {
    0 <= target < g.nodes@.len() && g.nodes@[target] matches Node::Sink { .. }
}

impl SourceState {
    /// Pending rows are well-formed for the source's layout.
    pub open spec fn wf(&self, g: Graph) -> bool {
        match self.layout {
            StreamLayout::SetOf(k) => {
                &&& g.cache.contains(k)
                &&& self.map_pending@.len() == 0
                &&& forall|j: int|
                    0 <= j < self.set_pending@.len() ==> (#[trigger] self.set_pending@[j]).0.wf(
                        g.cache.layouts@[k as int].cols@,
                        g.cache.natives@[k as int],
                    )
            },
            StreamLayout::MapOf(k, v) => {
                &&& g.cache.contains(k)
                &&& g.cache.contains(v)
                &&& self.set_pending@.len() == 0
                &&& forall|j: int|
                    0 <= j < self.map_pending@.len() ==> (#[trigger] self.map_pending@[j]).0.wf(
                        g.cache.layouts@[k as int].cols@,
                        g.cache.natives@[k as int],
                    ) && self.map_pending@[j].1.wf(
                        g.cache.layouts@[v as int].cols@,
                        g.cache.natives@[v as int],
                    )
            },
        }
    }

    /// The pending batch of a set-typed source, as literal values.
    pub open spec fn set_pending_view(&self, g: Graph) -> SetV {
        match self.layout {
            StreamLayout::SetOf(k) => self.set_pending@.map_values(
                |e: (Row, Weight)|
                    (
                        e.0.view_as(g.cache.layouts@[k as int].cols@, g.cache.natives@[k as int]),
                        e.1 as int,
                    ),
            ),
            StreamLayout::MapOf(..) => Seq::empty(),
        }
    }

    /// The pending batch of a map-typed source, as literal values.
    pub open spec fn map_pending_view(&self, g: Graph) -> MapV {
        match self.layout {
            StreamLayout::MapOf(k, v) => self.map_pending@.map_values(
                |e: (Row, Row, Weight)|
                    (
                        (
                            e.0.view_as(
                                g.cache.layouts@[k as int].cols@,
                                g.cache.natives@[k as int],
                            ),
                            e.1.view_as(
                                g.cache.layouts@[v as int].cols@,
                                g.cache.natives@[v as int],
                            ),
                        ),
                        e.2 as int,
                    ),
            ),
            StreamLayout::SetOf(_) => Seq::empty(),
        }
    }
}

impl DbspCircuit {
    /// The circuit invariant: the graph is valid, the input map lists
    /// exactly the declared sources in ascending order, the output map
    /// lists exactly the declared sinks in ascending order, and every
    /// buffered row conforms to its endpoint's layout.
    pub open spec fn wf(&self) -> bool {
        &&& graph_wf(self.graph)
        &&& forall|k: int|
            0 <= k < self.inputs@.len() ==> {
                let (id, st) = #[trigger] self.inputs@[k];
                &&& is_source(self.graph, id as int)
                &&& st.layout == node_output(self.graph, id as int)
                &&& st.wf(self.graph)
            }
        &&& forall|k1: int, k2: int|
            0 <= k1 < k2 < self.inputs@.len() ==> self.inputs@[k1].0 < self.inputs@[k2].0
        &&& forall|i: int|
            is_source(self.graph, i) ==> exists|k: int|
                0 <= k < self.inputs@.len() && (#[trigger] self.inputs@[k]).0 == i
        &&& forall|k: int|
            0 <= k < self.outputs@.len() ==> {
                let (id, st) = #[trigger] self.outputs@[k];
                &&& is_sink(self.graph, id as int)
                &&& st.layout == node_output(self.graph, id as int)
                &&& self.graph.nodes@[id as int] matches Node::Sink { input, .. } && st.upstream
                    == input
                &&& (st.layout is SetOf ==> st.map_trace@.len() == 0)
                &&& (st.layout is MapOf ==> st.set_trace@.len() == 0)
            }
        &&& forall|k1: int, k2: int|
            0 <= k1 < k2 < self.outputs@.len() ==> self.outputs@[k1].0 < self.outputs@[k2].0
        &&& forall|i: int|
            is_sink(self.graph, i) ==> exists|k: int|
                0 <= k < self.outputs@.len() && (#[trigger] self.outputs@[k]).0 == i
    }

    /// Index of a declared source in the input map.
    fn find_input(&self, target: NodeId) -> (r: Option<usize>)
        ensures
            r matches Some(k) ==> k < self.inputs@.len() && self.inputs@[k as int].0 == target,
            r is None ==> forall|k: int|
                0 <= k < self.inputs@.len() ==> (#[trigger] self.inputs@[k]).0 != target,
    {
        let n = self.inputs.len();
        let mut k: usize = 0;
        while k < n
            invariant
                k <= n,
                n == self.inputs@.len(),
                forall|p: int| 0 <= p < k ==> (#[trigger] self.inputs@[p]).0 != target,
            decreases n - k,
        {
            if self.inputs[k].0 == target {
                return Some(k);
            }
            k = k + 1;
        }
        None
    }

    /// Index of a declared sink in the output map.
    fn find_output(&self, target: NodeId) -> (r: Option<usize>)
        ensures
            r matches Some(k) ==> k < self.outputs@.len() && self.outputs@[k as int].0 == target,
            r is None ==> forall|k: int|
                0 <= k < self.outputs@.len() ==> (#[trigger] self.outputs@[k]).0 != target,
    {
        let n = self.outputs.len();
        let mut k: usize = 0;
        while k < n
            invariant
                k <= n,
                n == self.outputs@.len(),
                forall|p: int| 0 <= p < k ==> (#[trigger] self.outputs@[p]).0 != target,
            decreases n - k,
        {
            if self.outputs[k].0 == target {
                return Some(k);
            }
            k = k + 1;
        }
        None
    }

    /// Discards everything buffered on a declared source's endpoint and
    /// not yet absorbed by a step.  An absent endpoint holds nothing, so
    /// the call changes nothing there.
    pub fn clear_input(&mut self, target: NodeId)
        requires
            old(self).wf(),
            is_source(old(self).graph, target as int),
        ensures
            final(self).wf(),
            final(self).graph == old(self).graph,
            final(self).tick == old(self).tick,
            final(self).outputs@ == old(self).outputs@,
            final(self).inputs@.len() == old(self).inputs@.len(),
            forall|k: int|
                0 <= k < old(self).inputs@.len() && (#[trigger] old(self).inputs@[k]).0 != target
                    ==> final(self).inputs@[k] == old(self).inputs@[k],
            forall|k: int|
                0 <= k < old(self).inputs@.len() && (#[trigger] old(self).inputs@[k]).0 == target
                    ==> {
                    let st0 = old(self).inputs@[k].1;
                    let st1 = final(self).inputs@[k].1;
                    &&& st1.live == st0.live
                    &&& st1.layout == st0.layout
                    &&& st1.set_pending@.len() == 0
                    &&& st1.map_pending@.len() == 0
                },
    {
        let kidx = match self.find_input(target) {
            Some(k) => k,
            None => {
                proof {
                    assert(exists|kk: int|
                        0 <= kk < self.inputs@.len() && (#[trigger] self.inputs@[kk]).0
                            == target);
                    assert(false);
                }
                return ;
            },
        };
        let ghost pre = *self;
        let (id, mut st) = self.inputs.remove(kidx);
        st.set_pending = Vec::new();
        st.map_pending = Vec::new();
        self.inputs.insert(kidx, (id, st));
        proof {
            assert(self.inputs@ =~= pre.inputs@.update(kidx as int, (id, st)));
            assert forall|k: int|
                0 <= k < self.inputs@.len() implies {
                let (id2, st2) = #[trigger] self.inputs@[k];
                &&& is_source(self.graph, id2 as int)
                &&& st2.layout == node_output(self.graph, id2 as int)
                &&& st2.wf(self.graph)
            } by {
                if k != kidx {
                    assert(self.inputs@[k] == pre.inputs@[k]);
                }
            }
            assert forall|k1: int, k2: int|
                0 <= k1 < k2 < self.inputs@.len() implies self.inputs@[k1].0
                < self.inputs@[k2].0 by {
                assert(self.inputs@[k1].0 == pre.inputs@[k1].0);
                assert(self.inputs@[k2].0 == pre.inputs@[k2].0);
            }
            assert forall|i2: int|
                is_source(self.graph, i2) implies exists|k: int|
                    0 <= k < self.inputs@.len() && (#[trigger] self.inputs@[k]).0 == i2 by {
                let k = choose|k: int|
                    0 <= k < pre.inputs@.len() && (#[trigger] pre.inputs@[k]).0 == i2;
                assert(self.inputs@[k].0 == pre.inputs@[k].0);
            }
        }
    }

    /// Terminates the circuit.  Taking the handle by value retires every
    /// endpoint with it: no input, output, or row handle can be used past
    /// this call.
    pub fn kill(self) {
    }
}

/// Which nodes stay alive after optimization.
fn compute_live(g: &Graph) -> (live: Vec<bool>)
    requires
        graph_wf(*g),
    ensures
        live@.len() == g.nodes@.len(),
        forall|i: int| 0 <= i < g.nodes@.len() ==> #[trigger] live@[i] == live_node(*g, i),
{
    let n = g.nodes.len();
    let mut live: Vec<bool> = Vec::new();
    let mut i: usize = 0;
    while i < n
        invariant
            i <= n,
            n == g.nodes@.len(),
            graph_wf(*g),
            live@.len() == i,
            forall|p: int| 0 <= p < i ==> #[trigger] live@[p] == live_node(*g, p),
        decreases n - i,
    {
        proof {
            assert(node_wf(*g, i as int));
        }
        let l = match &g.nodes[i] {
            Node::Source(_) => true,
            Node::ConstantStream { value, .. } => match value {
                StreamCollection::SetRows(v) => v.len() > 0,
                StreamCollection::MapRows(v) => v.len() > 0,
            },
            Node::Join { left, right, .. } => live[*left] && live[*right],
            Node::Sink { input, .. } => live[*input],
        };
        live.push(l);
        i = i + 1;
    }
    live
}

/// Marks every source that feeds node `i` through live operators.
fn mark_feeds(g: &Graph, live: &Vec<bool>, i: NodeId, used: &mut Vec<bool>)
    requires
        graph_wf(*g),
        i < g.nodes@.len(),
        live@.len() == g.nodes@.len(),
        forall|p: int| 0 <= p < g.nodes@.len() ==> #[trigger] live@[p] == live_node(*g, p),
        old(used)@.len() == g.nodes@.len(),
    ensures
        final(used)@.len() == g.nodes@.len(),
        forall|s: int|
            0 <= s < g.nodes@.len() ==> #[trigger] final(used)@[s] == (old(used)@[s] || feeds(
                *g,
                i as int,
                s,
            )),
    decreases i,
{
    proof {
        assert(node_wf(*g, i as int));
    }
    match &g.nodes[i] {
        Node::Source(_) => {
            used.set(i, true);
        },
        Node::ConstantStream { .. } => {},
        Node::Join { left, right, .. } => {
            if live[*left] && live[*right] {
                mark_feeds(g, live, *left, used);
                mark_feeds(g, live, *right, used);
            }
        },
        Node::Sink { input, .. } => {
            mark_feeds(g, live, *input, used);
        },
    }
}

/// Which sources some sink observes.
fn compute_used(g: &Graph, live: &Vec<bool>) -> (used: Vec<bool>)
    requires
        graph_wf(*g),
        live@.len() == g.nodes@.len(),
        forall|p: int| 0 <= p < g.nodes@.len() ==> #[trigger] live@[p] == live_node(*g, p),
    ensures
        used@.len() == g.nodes@.len(),
        forall|s: int| 0 <= s < g.nodes@.len() ==> #[trigger] used@[s] == source_used(*g, s),
{
    let n = g.nodes.len();
    let mut used: Vec<bool> = Vec::new();
    let mut i: usize = 0;
    while i < n
        invariant
            i <= n,
            n == g.nodes@.len(),
            used@.len() == i,
            forall|p: int| 0 <= p < i ==> #[trigger] used@[p] == false,
        decreases n - i,
    {
        used.push(false);
        i = i + 1;
    }
    let mut k: usize = 0;
    while k < n
        invariant
            k <= n,
            n == g.nodes@.len(),
            graph_wf(*g),
            live@.len() == g.nodes@.len(),
            forall|p: int| 0 <= p < g.nodes@.len() ==> #[trigger] live@[p] == live_node(*g, p),
            used@.len() == n,
            forall|s: int|
                0 <= s < n ==> #[trigger] used@[s] == exists|t: int|
                    0 <= t < k && ((#[trigger] g.nodes@[t]) matches Node::Sink { .. } && feeds(
                        *g,
                        t,
                        s,
                    )),
        decreases n - k,
    {
        let is_sink_node = match &g.nodes[k] {
            Node::Sink { .. } => true,
            _ => false,
        };
        let ghost pre = used@;
        if is_sink_node {
            mark_feeds(g, live, k, &mut used);
        }
        proof {
            assert forall|s: int|
                0 <= s < n implies #[trigger] used@[s] == exists|t: int|
                    0 <= t < k + 1 && ((#[trigger] g.nodes@[t]) matches Node::Sink { .. } && feeds(
                        *g,
                        t,
                        s,
                    )) by {
                if used@[s] {
                    if pre[s] {
                        let t = choose|t: int|
                            0 <= t < k && ((#[trigger] g.nodes@[t]) matches Node::Sink { .. }
                                && feeds(*g, t, s));
                        assert(0 <= t < k + 1 && (g.nodes@[t] matches Node::Sink { .. } && feeds(
                            *g,
                            t,
                            s,
                        )));
                    } else {
                        assert(g.nodes@[k as int] matches Node::Sink { .. } && feeds(
                            *g,
                            k as int,
                            s,
                        ));
                    }
                } else {
                    assert forall|t: int|
                        0 <= t < k + 1 && (#[trigger] g.nodes@[t]) matches Node::Sink { .. }
                            implies !feeds(*g, t, s) by {
                        if t < k {
                            assert(!pre[s]);
                        }
                    }
                }
            }
        }
        k = k + 1;
    }
    proof {
        assert forall|s: int| 0 <= s < n implies #[trigger] used@[s] == source_used(*g, s) by {}
    }
    used
}

} // verus!

verus! {

impl DbspCircuit {
    /// Builds a circuit from a frozen graph.
    ///
    /// The graph's declared sources and sinks are snapshotted before
    /// optimization, so every one of them stays addressable.  With
    /// `optimize`, a source that no sink observes and a sink whose
    /// producers are pruned lose their endpoints (`live == false`) but
    /// keep their declared layouts.  Fails exactly when validation fails.
    pub fn new(graph: Graph, optimize: bool, workers: usize, demands: Demands) -> (r: Result<
        DbspCircuit,
        CircuitError,
    >)
        ensures
            r matches Ok(c) ==> {
                &&& c.wf()
                &&& c.graph == graph
                &&& c.tick == 0
                &&& c.workers == workers
                &&& c.csv_demands@ == demands.csv@
                &&& c.json_demands@ == demands.json_deser@
                &&& forall|k: int|
                    0 <= k < c.inputs@.len() ==> {
                        let (id, st) = #[trigger] c.inputs@[k];
                        &&& st.live == (!optimize || source_used(graph, id as int))
                        &&& st.set_pending@.len() == 0
                        &&& st.map_pending@.len() == 0
                    }
                &&& forall|k: int|
                    0 <= k < c.outputs@.len() ==> {
                        let (id, st) = #[trigger] c.outputs@[k];
                        &&& st.live == (!optimize || live_node(graph, id as int))
                        &&& st.set_trace@.len() == 0
                        &&& st.map_trace@.len() == 0
                    }
            },
            r is Err <==> !graph_wf(graph),
    {
        if !graph.validate() {
            return Err(CircuitError::InvalidGraph);
        }
        let live = compute_live(&graph);
        let used = compute_used(&graph, &live);
        let n = graph.nodes.len();
        let mut inputs: Vec<(NodeId, SourceState)> = Vec::new();
        let mut outputs: Vec<(NodeId, SinkState)> = Vec::new();
        let mut i: usize = 0;
        while i < n
            invariant
                i <= n,
                n == graph.nodes@.len(),
                graph_wf(graph),
                live@.len() == n,
                used@.len() == n,
                forall|p: int| 0 <= p < n ==> #[trigger] live@[p] == live_node(graph, p),
                forall|p: int| 0 <= p < n ==> #[trigger] used@[p] == source_used(graph, p),
                forall|k: int|
                    0 <= k < inputs@.len() ==> {
                        let (id, st) = #[trigger] inputs@[k];
                        &&& id < i
                        &&& is_source(graph, id as int)
                        &&& st.layout == node_output(graph, id as int)
                        &&& st.wf(graph)
                        &&& st.live == (!optimize || source_used(graph, id as int))
                        &&& st.set_pending@.len() == 0
                        &&& st.map_pending@.len() == 0
                    },
                forall|k1: int, k2: int|
                    0 <= k1 < k2 < inputs@.len() ==> inputs@[k1].0 < inputs@[k2].0,
                forall|p: int|
                    0 <= p < i && is_source(graph, p) ==> exists|k: int|
                        0 <= k < inputs@.len() && (#[trigger] inputs@[k]).0 == p,
                forall|k: int|
                    0 <= k < outputs@.len() ==> {
                        let (id, st) = #[trigger] outputs@[k];
                        &&& id < i
                        &&& is_sink(graph, id as int)
                        &&& st.layout == node_output(graph, id as int)
                        &&& (graph.nodes@[id as int] matches Node::Sink { input, .. }
                            && st.upstream == input)
                        &&& st.live == (!optimize || live_node(graph, id as int))
                        &&& st.set_trace@.len() == 0
                        &&& st.map_trace@.len() == 0
                    },
                forall|k1: int, k2: int|
                    0 <= k1 < k2 < outputs@.len() ==> outputs@[k1].0 < outputs@[k2].0,
                forall|p: int|
                    0 <= p < i && is_sink(graph, p) ==> exists|k: int|
                        0 <= k < outputs@.len() && (#[trigger] outputs@[k]).0 == p,
            decreases n - i,
        {
            proof {
                assert(node_wf(graph, i as int));
            }
            let ghost pre_inputs = inputs@;
            let ghost pre_outputs = outputs@;
            match &graph.nodes[i] {
                Node::Source(sl) => {
                    let lv = if optimize {
                        used[i]
                    } else {
                        true
                    };
                    inputs.push(
                        (
                            i,
                            SourceState {
                                live: lv,
                                layout: *sl,
                                set_pending: Vec::new(),
                                map_pending: Vec::new(),
                            },
                        ),
                    );
                },
                Node::Sink { input, layout } => {
                    let lv = if optimize {
                        live[i]
                    } else {
                        true
                    };
                    outputs.push(
                        (
                            i,
                            SinkState {
                                live: lv,
                                layout: *layout,
                                upstream: *input,
                                set_trace: Vec::new(),
                                map_trace: Vec::new(),
                            },
                        ),
                    );
                },
                _ => {},
            }
            proof {
                assert forall|p: int|
                    0 <= p < i + 1 && is_source(graph, p) implies exists|k: int|
                        0 <= k < inputs@.len() && (#[trigger] inputs@[k]).0 == p by {
                    if p < i {
                        let k = choose|k: int|
                            0 <= k < pre_inputs.len() && (#[trigger] pre_inputs[k]).0 == p;
                        assert(inputs@[k] == pre_inputs[k]);
                    } else {
                        assert(inputs@[inputs@.len() - 1].0 == p);
                    }
                }
                assert forall|p: int|
                    0 <= p < i + 1 && is_sink(graph, p) implies exists|k: int|
                        0 <= k < outputs@.len() && (#[trigger] outputs@[k]).0 == p by {
                    if p < i {
                        let k = choose|k: int|
                            0 <= k < pre_outputs.len() && (#[trigger] pre_outputs[k]).0 == p;
                        assert(outputs@[k] == pre_outputs[k]);
                    } else {
                        assert(outputs@[outputs@.len() - 1].0 == p);
                    }
                }
            }
            i = i + 1;
        }
        Ok(
            DbspCircuit {
                graph,
                workers,
                tick: 0,
                inputs,
                outputs,
                csv_demands: demands.csv,
                json_demands: demands.json_deser,
            },
        )
    }

    /// Appends a batch of literals to a declared source.
    ///
    /// The batch's kind and literals must fit the source's declared
    /// layout.  When the optimizer dropped the endpoint the call changes
    /// nothing; otherwise each literal is marshalled into a row and the
    /// weighted rows join the source's pending input.
    pub fn append_input(&mut self, target: NodeId, data: &StreamCollection)
        requires
            old(self).wf(),
            is_source(old(self).graph, target as int),
            crate::graph::constant_value_wf(
                old(self).graph.cache,
                node_output(old(self).graph, target as int),
                *data,
            ),
        ensures
            final(self).wf(),
            final(self).graph == old(self).graph,
            final(self).tick == old(self).tick,
            final(self).outputs@ == old(self).outputs@,
            final(self).csv_demands@ == old(self).csv_demands@,
            final(self).json_demands@ == old(self).json_demands@,
            final(self).inputs@.len() == old(self).inputs@.len(),
            forall|k: int|
                0 <= k < old(self).inputs@.len() && (#[trigger] old(self).inputs@[k]).0 != target
                    ==> final(self).inputs@[k] == old(self).inputs@[k],
            forall|k: int|
                0 <= k < old(self).inputs@.len() && (#[trigger] old(self).inputs@[k]).0 == target
                    ==> {
                    let st0 = old(self).inputs@[k].1;
                    let st1 = final(self).inputs@[k].1;
                    &&& final(self).inputs@[k].0 == target
                    &&& st1.live == st0.live
                    &&& st1.layout == st0.layout
                    &&& (!st0.live ==> st1 == st0)
                    &&& (st0.live ==> match *data {
                        StreamCollection::SetRows(rows) => st1.set_pending_view(final(self).graph)
                            == st0.set_pending_view(old(self).graph) + set_view(rows@)
                            && st1.map_pending@ == st0.map_pending@,
                        StreamCollection::MapRows(rows) => st1.map_pending_view(final(self).graph)
                            == st0.map_pending_view(old(self).graph) + map_pairs_view(rows@)
                            && st1.set_pending@ == st0.set_pending@,
                    })
                },
    {
        let kidx = match self.find_input(target) {
            Some(k) => k,
            None => {
                proof {
                    assert(exists|k: int|
                        0 <= k < self.inputs@.len() && (#[trigger] self.inputs@[k]).0
                            == target);
                }
                proof {
                    assert(false);
                }
                return ;
            },
        };
        if !self.inputs[kidx].1.live {
            return ;
        }
        let ghost pre = *self;
        proof {
            assert(node_wf(self.graph, target as int));
            assert(pre.inputs@[kidx as int].1.layout == node_output(pre.graph, target as int));
            assert(pre.inputs@[kidx as int].1.wf(pre.graph));
        }
        let (id, mut st) = self.inputs.remove(kidx);
        let ghost st0 = st;
        match data {
            StreamCollection::SetRows(rows) => {
                let kl = match st.layout {
                    StreamLayout::SetOf(k) => k,
                    StreamLayout::MapOf(..) => {
                        proof {
                            assert(false);
                        }
                        0
                    },
                };
                let layout = self.graph.cache.layout_of(kl);
                let native = self.graph.cache.native_of(kl);
                let m = rows.len();
                let mut j: usize = 0;
                while j < m
                    invariant
                        j <= m,
                        m == rows@.len(),
                        graph_wf(self.graph),
                        st.layout == StreamLayout::SetOf(kl),
                        self.graph.cache.contains(kl),
                        layout == &self.graph.cache.layouts@[kl as int],
                        native == &self.graph.cache.natives@[kl as int],
                        native.wf(layout.cols@),
                        !has_ptr(layout.cols@),
                        forall|p: int|
                            0 <= p < m ==> literal_wf(
                                (#[trigger] rows@[p]).0@,
                                self.graph.cache.layouts@[kl as int].cols@,
                            ),
                        st.live == st0.live,
                        st.map_pending@ == st0.map_pending@,
                        st.wf(self.graph),
                        st.set_pending_view(self.graph) =~= st0.set_pending_view(self.graph)
                            + set_view(rows@.subrange(0, j as int)),
                    decreases m - j,
                {
                    let w = rows[j].1;
                    let ghost prev = st.set_pending_view(self.graph);
                    match row_from_literal(&rows[j].0, layout, native) {
                        Ok(row) => {
                            st.set_pending.push((row, w));
                        },
                        Err(_) => {
                            proof {
                                assert(false);
                            }
                        },
                    }
                    proof {
                        assert(st.set_pending_view(self.graph) =~= prev.push(
                            (rows@[j as int].0@, w as int),
                        ));
                        assert(set_view(rows@.subrange(0, j as int + 1)) =~= set_view(
                            rows@.subrange(0, j as int),
                        ).push((rows@[j as int].0@, w as int)));
                        assert(st.set_pending_view(self.graph) =~= st0.set_pending_view(self.graph)
                            + set_view(rows@.subrange(0, j as int + 1)));
                    }
                    j = j + 1;
                }
                proof {
                    assert(rows@.subrange(0, m as int) =~= rows@);
                }
            },
            StreamCollection::MapRows(rows) => {
                let (kl, vl) = match st.layout {
                    StreamLayout::MapOf(k, v) => (k, v),
                    StreamLayout::SetOf(_) => {
                        proof {
                            assert(false);
                        }
                        (0, 0)
                    },
                };
                let klayout = self.graph.cache.layout_of(kl);
                let knative = self.graph.cache.native_of(kl);
                let vlayout = self.graph.cache.layout_of(vl);
                let vnative = self.graph.cache.native_of(vl);
                let m = rows.len();
                let mut j: usize = 0;
                while j < m
                    invariant
                        j <= m,
                        m == rows@.len(),
                        graph_wf(self.graph),
                        st.layout == StreamLayout::MapOf(kl, vl),
                        self.graph.cache.contains(kl),
                        self.graph.cache.contains(vl),
                        klayout == &self.graph.cache.layouts@[kl as int],
                        knative == &self.graph.cache.natives@[kl as int],
                        vlayout == &self.graph.cache.layouts@[vl as int],
                        vnative == &self.graph.cache.natives@[vl as int],
                        knative.wf(klayout.cols@),
                        vnative.wf(vlayout.cols@),
                        !has_ptr(klayout.cols@),
                        !has_ptr(vlayout.cols@),
                        forall|p: int|
                            0 <= p < m ==> literal_wf(
                                (#[trigger] rows@[p]).0@,
                                self.graph.cache.layouts@[kl as int].cols@,
                            ) && literal_wf(rows@[p].1@, self.graph.cache.layouts@[vl as int].cols@),
                        st.live == st0.live,
                        st.set_pending@ == st0.set_pending@,
                        st.wf(self.graph),
                        st.map_pending_view(self.graph) =~= st0.map_pending_view(self.graph)
                            + map_pairs_view(rows@.subrange(0, j as int)),
                    decreases m - j,
                {
                    let w = rows[j].2;
                    let ghost prev = st.map_pending_view(self.graph);
                    let krow = match row_from_literal(&rows[j].0, klayout, knative) {
                        Ok(row) => row,
                        Err(_) => {
                            proof {
                                assert(false);
                            }
                            return ;
                        },
                    };
                    let vrow = match row_from_literal(&rows[j].1, vlayout, vnative) {
                        Ok(row) => row,
                        Err(_) => {
                            proof {
                                assert(false);
                            }
                            return ;
                        },
                    };
                    st.map_pending.push((krow, vrow, w));
                    proof {
                        assert(st.map_pending_view(self.graph) =~= prev.push(
                            ((rows@[j as int].0@, rows@[j as int].1@), w as int),
                        ));
                        assert(map_pairs_view(rows@.subrange(0, j as int + 1)) =~= map_pairs_view(
                            rows@.subrange(0, j as int),
                        ).push(((rows@[j as int].0@, rows@[j as int].1@), w as int)));
                        assert(st.map_pending_view(self.graph) =~= st0.map_pending_view(self.graph)
                            + map_pairs_view(rows@.subrange(0, j as int + 1)));
                    }
                    j = j + 1;
                }
                proof {
                    assert(rows@.subrange(0, m as int) =~= rows@);
                }
            },
        }
        self.inputs.insert(kidx, (id, st));
        proof {
            assert(self.inputs@ =~= pre.inputs@.update(kidx as int, (id, st)));
            assert forall|k: int|
                0 <= k < self.inputs@.len() implies {
                let (id2, st2) = #[trigger] self.inputs@[k];
                &&& is_source(self.graph, id2 as int)
                &&& st2.layout == node_output(self.graph, id2 as int)
                &&& st2.wf(self.graph)
            } by {
                if k != kidx {
                    assert(self.inputs@[k] == pre.inputs@[k]);
                }
            }
            assert forall|k1: int, k2: int|
                0 <= k1 < k2 < self.inputs@.len() implies self.inputs@[k1].0
                < self.inputs@[k2].0 by {
                assert(self.inputs@[k1].0 == pre.inputs@[k1].0);
                assert(self.inputs@[k2].0 == pre.inputs@[k2].0);
            }
            assert forall|i2: int|
                is_source(self.graph, i2) implies exists|k: int|
                    0 <= k < self.inputs@.len() && (#[trigger] self.inputs@[k]).0 == i2 by {
                let k = choose|k: int|
                    0 <= k < pre.inputs@.len() && (#[trigger] pre.inputs@[k]).0 == i2;
                assert(self.inputs@[k].0 == pre.inputs@[k].0);
            }
        }
    }
}

} // verus!

verus! {

/// The spec-level equi-join of two set batches: one output entry per pair
/// of entries with equal key columns, weights multiplied, rows
/// concatenated.
pub open spec fn join_one(x: (Seq<NullableConstantV>, int), b: SetV, lk: int, rk: int) -> SetV
    decreases b.len(),
{
    if b.len() == 0 {
        Seq::empty()
    } else {
        join_one(x, b.drop_last(), lk, rk) + if x.0[lk] == b.last().0[rk] {
            seq![(x.0 + b.last().0, x.1 * b.last().1)]
        } else {
            Seq::empty()
        }
    }
}

pub open spec fn join_sets(a: SetV, b: SetV, lk: int, rk: int) -> SetV
    decreases a.len(),
{
    if a.len() == 0 {
        Seq::empty()
    } else {
        join_sets(a.drop_last(), b, lk, rk) + join_one(a.last(), b, lk, rk)
    }
}

/// Every weight product of matching entries stays representable.
pub open spec fn join_fits(a: SetV, b: SetV, lk: int, rk: int) -> bool {
    forall|p: int, q: int|
        0 <= p < a.len() && 0 <= q < b.len() && (#[trigger] a[p]).0[lk] == (#[trigger] b[q]).0[rk]
            ==> i64::MIN <= a[p].1 * b[q].1 <= i64::MAX
}

/// The pending batch of the source with node id `i`, as literal values.
pub open spec fn source_set_view(c: DbspCircuit, i: int) -> SetV {
    if exists|k: int| 0 <= k < c.inputs@.len() && (#[trigger] c.inputs@[k]).0 == i {
        let k = choose|k: int| 0 <= k < c.inputs@.len() && (#[trigger] c.inputs@[k]).0 == i;
        c.inputs@[k].1.set_pending_view(c.graph)
    } else {
        Seq::empty()
    }
}

pub open spec fn source_map_view(c: DbspCircuit, i: int) -> MapV {
    if exists|k: int| 0 <= k < c.inputs@.len() && (#[trigger] c.inputs@[k]).0 == i {
        let k = choose|k: int| 0 <= k < c.inputs@.len() && (#[trigger] c.inputs@[k]).0 == i;
        c.inputs@[k].1.map_pending_view(c.graph)
    } else {
        Seq::empty()
    }
}

/// The set delta node `i` emits at the circuit's current tick: pending
/// input for sources, the constant batch at the first tick only, the join
/// of the children's deltas for joins.
pub open spec fn eval_set(c: DbspCircuit, i: int) -> SetV
    decreases i,
{
    if 0 <= i < c.graph.nodes@.len() {
        match c.graph.nodes@[i] {
            Node::Source(_) => source_set_view(c, i),
            Node::ConstantStream { value, .. } => if c.tick == 0 {
                match value {
                    StreamCollection::SetRows(rows) => set_view(rows@),
                    StreamCollection::MapRows(_) => Seq::empty(),
                }
            } else {
                Seq::empty()
            },
            Node::Join { left, right, left_key, right_key, .. } => if left < i && right < i {
                join_sets(
                    eval_set(c, left as int),
                    eval_set(c, right as int),
                    left_key as int,
                    right_key as int,
                )
            } else {
                Seq::empty()
            },
            Node::Sink { input, .. } => if input < i {
                eval_set(c, input as int)
            } else {
                Seq::empty()
            },
        }
    } else {
        Seq::empty()
    }
}

/// The map delta node `i` emits at the circuit's current tick.
pub open spec fn eval_map(c: DbspCircuit, i: int) -> MapV
    decreases i,
{
    if 0 <= i < c.graph.nodes@.len() {
        match c.graph.nodes@[i] {
            Node::Source(_) => source_map_view(c, i),
            Node::ConstantStream { value, .. } => if c.tick == 0 {
                match value {
                    StreamCollection::MapRows(rows) => map_pairs_view(rows@),
                    StreamCollection::SetRows(_) => Seq::empty(),
                }
            } else {
                Seq::empty()
            },
            Node::Join { .. } => Seq::empty(),
            Node::Sink { input, .. } => if input < i {
                eval_map(c, input as int)
            } else {
                Seq::empty()
            },
        }
    } else {
        Seq::empty()
    }
}

/// Every weight product inside the evaluation of node `i` is
/// representable: the condition under which a step succeeds.
pub open spec fn eval_fits(c: DbspCircuit, i: int) -> bool
    decreases i,
{
    if 0 <= i < c.graph.nodes@.len() {
        match c.graph.nodes@[i] {
            Node::Source(_) => true,
            Node::ConstantStream { .. } => true,
            Node::Join { left, right, left_key, right_key, .. } => left < i && right < i
                && eval_fits(c, left as int) && eval_fits(c, right as int) && join_fits(
                eval_set(c, left as int),
                eval_set(c, right as int),
                left_key as int,
                right_key as int,
            ),
            Node::Sink { input, .. } => input < i && eval_fits(c, input as int),
        }
    } else {
        true
    }
}

/// Every entry of the evaluation of a valid set node is a well-formed
/// literal of the node's key schema.
pub proof fn lemma_eval_set_wf(c: DbspCircuit, i: int)
    requires
        c.wf(),
        0 <= i < c.graph.nodes@.len(),
        node_output(c.graph, i) matches StreamLayout::SetOf(_),
    ensures
        node_output(c.graph, i) matches StreamLayout::SetOf(kl) ==> forall|j: int|
            0 <= j < eval_set(c, i).len() ==> literal_wf(
                (#[trigger] eval_set(c, i)[j]).0,
                c.graph.cache.layouts@[kl as int].cols@,
            ),
    decreases i,
{
    assert(node_wf(c.graph, i));
    let kl = node_output(c.graph, i)->SetOf_0;
    let cols = c.graph.cache.layouts@[kl as int].cols@;
    match c.graph.nodes@[i] {
        Node::Source(_) => {
            if exists|k: int| 0 <= k < c.inputs@.len() && (#[trigger] c.inputs@[k]).0 == i {
                let k = choose|k: int|
                    0 <= k < c.inputs@.len() && (#[trigger] c.inputs@[k]).0 == i;
                let st = c.inputs@[k].1;
                assert(st.layout == node_output(c.graph, i));
                assert forall|j: int|
                    0 <= j < eval_set(c, i).len() implies literal_wf(
                    (#[trigger] eval_set(c, i)[j]).0,
                    cols,
                ) by {
                    assert(eval_set(c, i)[j].0 == st.set_pending@[j].0.view_as(
                        cols,
                        c.graph.cache.natives@[kl as int],
                    ));
                    crate::row::lemma_row_view_wf(
                        st.set_pending@[j].0,
                        cols,
                        c.graph.cache.natives@[kl as int],
                    );
                }
            }
        },
        Node::ConstantStream { value, .. } => {},
        Node::Join { left, right, left_key, right_key, .. } => {
            lemma_eval_set_wf(c, left as int);
            lemma_eval_set_wf(c, right as int);
            let la = eval_set(c, left as int);
            let rb = eval_set(c, right as int);
            let lkl = node_output(c.graph, left as int)->SetOf_0;
            let rkl = node_output(c.graph, right as int)->SetOf_0;
            lemma_join_sets_wf(
                la,
                rb,
                left_key as int,
                right_key as int,
                c.graph.cache.layouts@[lkl as int].cols@,
                c.graph.cache.layouts@[rkl as int].cols@,
            );
            assert(cols == c.graph.cache.layouts@[lkl as int].cols@ + c.graph.cache.layouts@[
                rkl as int
            ].cols@);
            assert(eval_set(c, i) == join_sets(la, rb, left_key as int, right_key as int));
        },
        Node::Sink { input, .. } => {
            lemma_eval_set_wf(c, input as int);
            assert(node_output(c.graph, input as int) == node_output(c.graph, i));
            assert(eval_set(c, i) == eval_set(c, input as int));
        },
    }
}

/// A join of well-formed batches is well-formed for the concatenated
/// schema.
proof fn lemma_join_sets_wf(
    a: SetV,
    b: SetV,
    lk: int,
    rk: int,
    ca: Seq<(crate::layout::ColumnType, bool)>,
    cb: Seq<(crate::layout::ColumnType, bool)>,
)
    requires
        forall|p: int| 0 <= p < a.len() ==> literal_wf((#[trigger] a[p]).0, ca),
        forall|q: int| 0 <= q < b.len() ==> literal_wf((#[trigger] b[q]).0, cb),
    ensures
        forall|j: int|
            0 <= j < join_sets(a, b, lk, rk).len() ==> literal_wf(
                (#[trigger] join_sets(a, b, lk, rk)[j]).0,
                ca + cb,
            ),
    decreases a.len(),
{
    if a.len() > 0 {
        lemma_join_sets_wf(a.drop_last(), b, lk, rk, ca, cb);
        lemma_join_one_wf(a.last(), b, lk, rk, ca, cb);
        let whole = join_sets(a, b, lk, rk);
        let prev = join_sets(a.drop_last(), b, lk, rk);
        let one = join_one(a.last(), b, lk, rk);
        assert forall|j: int| 0 <= j < whole.len() implies literal_wf(
            (#[trigger] whole[j]).0,
            ca + cb,
        ) by {
            if j < prev.len() {
                assert(whole[j] == prev[j]);
            } else {
                assert(whole[j] == one[j - prev.len()]);
            }
        }
    }
}

proof fn lemma_join_one_wf(
    x: (Seq<NullableConstantV>, int),
    b: SetV,
    lk: int,
    rk: int,
    ca: Seq<(crate::layout::ColumnType, bool)>,
    cb: Seq<(crate::layout::ColumnType, bool)>,
)
    requires
        literal_wf(x.0, ca),
        forall|q: int| 0 <= q < b.len() ==> literal_wf((#[trigger] b[q]).0, cb),
    ensures
        forall|j: int|
            0 <= j < join_one(x, b, lk, rk).len() ==> literal_wf(
                (#[trigger] join_one(x, b, lk, rk)[j]).0,
                ca + cb,
            ),
    decreases b.len(),
{
    if b.len() > 0 {
        lemma_join_one_wf(x, b.drop_last(), lk, rk, ca, cb);
        let whole = join_one(x, b, lk, rk);
        let prev = join_one(x, b.drop_last(), lk, rk);
        if x.0[lk] != b.last().0[rk] {
            assert(whole =~= prev);
        }
        if x.0[lk] == b.last().0[rk] {
            assert(literal_wf(b.last().0, cb));
            assert forall|i: int|
                0 <= i < (x.0 + b.last().0).len() implies match #[trigger] (x.0 + b.last().0)[i] {
                NullableConstantV::NonNull(c) => !(ca + cb)[i].1 && crate::literal::constant_matches(
                    c,
                    (ca + cb)[i].0,
                ),
                NullableConstantV::Nullable(o) => (ca + cb)[i].1 && match o {
                    Some(c) => crate::literal::constant_matches(c, (ca + cb)[i].0),
                    None => true,
                },
            } by {
                if i < x.0.len() {
                    assert((x.0 + b.last().0)[i] == x.0[i]);
                    assert((ca + cb)[i] == ca[i]);
                } else {
                    assert((x.0 + b.last().0)[i] == b.last().0[i - x.0.len()]);
                    assert((ca + cb)[i] == cb[i - ca.len()]);
                }
            }
            assert(literal_wf(x.0 + b.last().0, ca + cb));
            assert forall|j: int| 0 <= j < whole.len() implies literal_wf(
                (#[trigger] whole[j]).0,
                ca + cb,
            ) by {
                if j < prev.len() {
                    assert(whole[j] == prev[j]);
                } else {
                    assert(whole[j] == (x.0 + b.last().0, x.1 * b.last().1));
                }
            }
        }
    }
}

} // verus!

verus! {

impl DbspCircuit {
    /// Evaluates the set delta of one node.  Fails exactly when a joined
    /// weight leaves the representable range; on success the batch equals
    /// the node's spec-level delta.
    #[verifier::loop_isolation(false)]
    fn eval_node_set(&self, i: NodeId) -> (r: Result<Vec<(RowLiteral, Weight)>, StepError>)
        requires
            self.wf(),
            i < self.graph.nodes@.len(),
            node_output(self.graph, i as int) matches StreamLayout::SetOf(_),
        ensures
            r matches Ok(v) ==> set_view(v@) == eval_set(*self, i as int) && eval_fits(
                *self,
                i as int,
            ),
            r is Err ==> !eval_fits(*self, i as int),
        decreases i,
    {
        proof {
            assert(node_wf(self.graph, i as int));
        }
        match &self.graph.nodes[i] {
            Node::Source(_) => {
                proof {
                    assert(is_source(self.graph, i as int));
                }
                let k = match self.find_input(i) {
                    Some(k) => k,
                    None => {
                        proof {
                            assert(exists|kk: int|
                                0 <= kk < self.inputs@.len() && (#[trigger] self.inputs@[kk]).0
                                    == i);
                            assert(false);
                        }
                        return Ok(Vec::new());
                    },
                };
                let kl = match self.inputs[k].1.layout {
                    StreamLayout::SetOf(x) => x,
                    StreamLayout::MapOf(..) => {
                        proof {
                            assert(false);
                        }
                        0
                    },
                };
                let layout = self.graph.cache.layout_of(kl);
                let native = self.graph.cache.native_of(kl);
                let pend = &self.inputs[k].1.set_pending;
                let m = pend.len();
                let mut out: Vec<(RowLiteral, Weight)> = Vec::new();
                let mut j: usize = 0;
                while j < m
                    invariant
                        j <= m,
                        self.wf(),
                        k < self.inputs@.len(),
                        self.inputs@[k as int].1.layout == StreamLayout::SetOf(kl),
                        self.graph.cache.contains(kl),
                        layout == &self.graph.cache.layouts@[kl as int],
                        native == &self.graph.cache.natives@[kl as int],
                        native.wf(layout.cols@),
                        !has_ptr(layout.cols@),
                        pend == &self.inputs@[k as int].1.set_pending,
                        m == pend@.len(),
                        out@.len() == j,
                        forall|p: int|
                            0 <= p < j ==> #[trigger] set_view(out@)[p] == self.inputs@[
                                k as int
                            ].1.set_pending_view(self.graph)[p],
                    decreases m - j,
                {
                    let ghost pre_out = set_view(out@);
                    let lit = row_literal_from_row(&pend[j].0, native, layout);
                    out.push((lit, pend[j].1));
                    proof {
                        assert(set_view(out@) =~= pre_out.push((lit@, pend@[j as int].1 as int)));
                        assert(self.inputs@[k as int].1.set_pending_view(self.graph)[j as int]
                            == (pend@[j as int].0.view_as(layout.cols@, *native), pend@[
                            j as int
                        ].1 as int));
                    }
                    j = j + 1;
                }
                proof {
                    assert(set_view(out@) =~= self.inputs@[k as int].1.set_pending_view(
                        self.graph,
                    ));
                    let kk = choose|kk: int|
                        0 <= kk < self.inputs@.len() && (#[trigger] self.inputs@[kk]).0
                            == i;
                    assert(kk == k);
                }
                Ok(out)
            },
            Node::ConstantStream { value, .. } => {
                let mut out: Vec<(RowLiteral, Weight)> = Vec::new();
                if self.tick == 0 {
                    match value {
                        StreamCollection::SetRows(rows) => {
                            let m = rows.len();
                            let mut j: usize = 0;
                            while j < m
                                invariant
                                    j <= m,
                                    m == rows@.len(),
                                    out@.len() == j,
                                    forall|p: int|
                                        0 <= p < j ==> #[trigger] set_view(out@)[p] == set_view(
                                            rows@,
                                        )[p],
                                decreases m - j,
                            {
                                let ghost pre_out = set_view(out@);
                                let lit = crate::literal::clone_literal(&rows[j].0);
                                out.push((lit, rows[j].1));
                                proof {
                                    assert(set_view(out@) =~= pre_out.push(
                                        (lit@, rows@[j as int].1 as int),
                                    ));
                                    assert(set_view(rows@)[j as int] == (
                                        rows@[j as int].0@,
                                        rows@[j as int].1 as int,
                                    ));
                                }
                                j = j + 1;
                            }
                            proof {
                                assert(set_view(out@) =~= set_view(rows@));
                            }
                        },
                        StreamCollection::MapRows(_) => {
                            proof {
                                assert(false);
                            }
                        },
                    }
                } else {
                    proof {
                        assert(set_view(out@) =~= Seq::<(Seq<NullableConstantV>, int)>::empty());
                    }
                }
                Ok(out)
            },
            Node::Join { left, right, left_key, right_key, .. } => {
                let lv = match self.eval_node_set(*left) {
                    Ok(v) => v,
                    Err(e) => {
                        return Err(e);
                    },
                };
                let rv = match self.eval_node_set(*right) {
                    Ok(v) => v,
                    Err(e) => {
                        return Err(e);
                    },
                };
                proof {
                    lemma_eval_set_wf(*self, *left as int);
                    lemma_eval_set_wf(*self, *right as int);
                }
                let lk = *left_key;
                let rk = *right_key;
                let ghost la = set_view(lv@);
                let ghost rb = set_view(rv@);
                let nl = lv.len();
                let nr = rv.len();
                let mut out: Vec<(RowLiteral, Weight)> = Vec::new();
                let mut p: usize = 0;
                proof {
                    assert(set_view(out@) =~= join_sets(la.subrange(0, 0), rb, lk as int, rk as int));
                }
                while p < nl
                    invariant
                        p <= nl,
                        self.wf(),
                        nl == lv@.len(),
                        nr == rv@.len(),
                        la == set_view(lv@),
                        rb == set_view(rv@),
                        forall|t: int| 0 <= t < nl ==> lk < (#[trigger] la[t]).0.len(),
                        forall|t: int| 0 <= t < nr ==> rk < (#[trigger] rb[t]).0.len(),
                        forall|t: int| 0 <= t < nl ==> (#[trigger] lv@[t]).0@ == la[t].0
                            && lv@[t].1 as int == la[t].1,
                        forall|t: int| 0 <= t < nr ==> (#[trigger] rv@[t]).0@ == rb[t].0
                            && rv@[t].1 as int == rb[t].1,
                        set_view(out@) == join_sets(la.subrange(0, p as int), rb, lk as int, rk as int),
                        forall|t: int, u: int|
                            0 <= t < p && 0 <= u < nr && (#[trigger] la[t]).0[lk as int] == (
                            #[trigger] rb[u]).0[rk as int] ==> i64::MIN <= la[t].1 * rb[u].1
                                <= i64::MAX,
                    decreases nl - p,
                {
                    let mut q: usize = 0;
                    let ghost x = la[p as int];
                    proof {
                        assert(join_one(x, rb.subrange(0, 0), lk as int, rk as int) =~= Seq::<(
                            Seq<NullableConstantV>,
                            int,
                        )>::empty());
                        assert(la.subrange(0, p as int + 1) =~= la.subrange(0, p as int).push(x));
                        assert(la.subrange(0, p as int + 1).drop_last() =~= la.subrange(
                            0,
                            p as int,
                        ));
                    }
                    while q < nr
                        invariant
                            q <= nr,
                            p < nl,
                            self.wf(),
                            nl == lv@.len(),
                            nr == rv@.len(),
                            la == set_view(lv@),
                            rb == set_view(rv@),
                            x == la[p as int],
                            forall|t: int| 0 <= t < nl ==> lk < (#[trigger] la[t]).0.len(),
                            forall|t: int| 0 <= t < nr ==> rk < (#[trigger] rb[t]).0.len(),
                            forall|t: int| 0 <= t < nl ==> (#[trigger] lv@[t]).0@ == la[t].0
                                && lv@[t].1 as int == la[t].1,
                            forall|t: int| 0 <= t < nr ==> (#[trigger] rv@[t]).0@ == rb[t].0
                                && rv@[t].1 as int == rb[t].1,
                            set_view(out@) == join_sets(
                                la.subrange(0, p as int),
                                rb,
                                lk as int,
                                rk as int,
                            ) + join_one(x, rb.subrange(0, q as int), lk as int, rk as int),
                            forall|t: int, u: int|
                                0 <= t < p && 0 <= u < nr && (#[trigger] la[t]).0[lk as int] == (
                                #[trigger] rb[u]).0[rk as int] ==> i64::MIN <= la[t].1 * rb[u].1
                                    <= i64::MAX,
                            forall|u: int|
                                0 <= u < q && x.0[lk as int] == (#[trigger] rb[u]).0[rk as int]
                                    ==> i64::MIN <= x.1 * rb[u].1 <= i64::MAX,
                        decreases nr - q,
                    {
                        let ghost pre_out = set_view(out@);
                        let keys_equal = match crate::order::cmp_nconstant(
                            &lv[p].0.columns[lk],
                            &rv[q].0.columns[rk],
                        ) {
                            crate::order::Cmp::Eq => true,
                            _ => false,
                        };
                        proof {
                            assert(lv@[p as int].0.columns@[lk as int]@ == la[p as int].0[lk as int]);
                            assert(rv@[q as int].0.columns@[rk as int]@ == rb[q as int].0[rk as int]);
                            assert(rb.subrange(0, q as int + 1) =~= rb.subrange(0, q as int).push(
                                rb[q as int],
                            ));
                            assert(rb.subrange(0, q as int + 1).drop_last() =~= rb.subrange(
                                0,
                                q as int,
                            ));
                        }
                        if keys_equal {
                            let wa: i64 = lv[p].1;
                            let wb: i64 = rv[q].1;
                            proof {
                                assert(i128::MIN <= (wa as i128) * (wb as i128) <= i128::MAX)
                                    by (nonlinear_arith)
                                    requires
                                        i64::MIN <= wa <= i64::MAX,
                                        i64::MIN <= wb <= i64::MAX,
                                {}
                            }
                            let wide: i128 = (wa as i128) * (wb as i128);
                            if wide < i64::MIN as i128 || wide > i64::MAX as i128 {
                                proof {
                                    assert(la[p as int].0[lk as int] == rb[q as int].0[rk as int]);
                                    assert(la[p as int].1 * rb[q as int].1 == wide as int);
                                    assert(!join_fits(la, rb, lk as int, rk as int));
                                    assert(!eval_fits(*self, i as int));
                                }
                                return Err(StepError::WeightOverflow);
                            }
                            let lit = crate::literal::concat_literals(&lv[p].0, &rv[q].0);
                            out.push((lit, wide as i64));
                            proof {
                                assert(set_view(out@) =~= pre_out.push(
                                    (x.0 + rb[q as int].0, x.1 * rb[q as int].1),
                                ));
                                assert(join_one(x, rb.subrange(0, q as int + 1), lk as int, rk as int)
                                    =~= join_one(x, rb.subrange(0, q as int), lk as int, rk as int)
                                    + seq![(x.0 + rb[q as int].0, x.1 * rb[q as int].1)]);
                                assert(set_view(out@) =~= join_sets(
                                    la.subrange(0, p as int),
                                    rb,
                                    lk as int,
                                    rk as int,
                                ) + join_one(x, rb.subrange(0, q as int + 1), lk as int, rk as int));
                            }
                        } else {
                            proof {
                                assert(join_one(x, rb.subrange(0, q as int + 1), lk as int, rk as int)
                                    =~= join_one(x, rb.subrange(0, q as int), lk as int, rk as int));
                            }
                        }
                        q = q + 1;
                    }
                    proof {
                        assert(rb.subrange(0, nr as int) =~= rb);
                        assert(la.subrange(0, p as int + 1) =~= la.subrange(0, p as int).push(x));
                        assert(join_sets(la.subrange(0, p as int + 1), rb, lk as int, rk as int)
                            =~= join_sets(la.subrange(0, p as int), rb, lk as int, rk as int)
                            + join_one(x, rb, lk as int, rk as int));
                    }
                    p = p + 1;
                }
                proof {
                    assert(la.subrange(0, nl as int) =~= la);
                    assert(set_view(out@) == join_sets(la, rb, lk as int, rk as int));
                }
                Ok(out)
            },
            Node::Sink { input, .. } => self.eval_node_set(*input),
        }
    }
}

} // verus!

verus! {

impl DbspCircuit {
    /// Evaluates the map delta of one node; map streams carry no
    /// operators, so this never fails.
    #[verifier::loop_isolation(false)]
    fn eval_node_map(&self, i: NodeId) -> (r: Vec<(RowLiteral, RowLiteral, Weight)>)
        requires
            self.wf(),
            i < self.graph.nodes@.len(),
            node_output(self.graph, i as int) matches StreamLayout::MapOf(..),
        ensures
            map_pairs_view(r@) == eval_map(*self, i as int),
        decreases i,
    {
        proof {
            assert(node_wf(self.graph, i as int));
        }
        match &self.graph.nodes[i] {
            Node::Source(_) => {
                proof {
                    assert(is_source(self.graph, i as int));
                }
                let k = match self.find_input(i) {
                    Some(k) => k,
                    None => {
                        proof {
                            assert(exists|kk: int|
                                0 <= kk < self.inputs@.len() && (#[trigger] self.inputs@[kk]).0
                                    == i);
                            assert(false);
                        }
                        return Vec::new();
                    },
                };
                let (kl, vl) = match self.inputs[k].1.layout {
                    StreamLayout::MapOf(x, y) => (x, y),
                    StreamLayout::SetOf(_) => {
                        proof {
                            assert(false);
                        }
                        (0, 0)
                    },
                };
                let klayout = self.graph.cache.layout_of(kl);
                let knative = self.graph.cache.native_of(kl);
                let vlayout = self.graph.cache.layout_of(vl);
                let vnative = self.graph.cache.native_of(vl);
                let pend = &self.inputs[k].1.map_pending;
                let m = pend.len();
                let mut out: Vec<(RowLiteral, RowLiteral, Weight)> = Vec::new();
                let mut j: usize = 0;
                while j < m
                    invariant
                        j <= m,
                        out@.len() == j,
                        forall|p: int|
                            0 <= p < j ==> #[trigger] map_pairs_view(out@)[p] == self.inputs@[
                                k as int
                            ].1.map_pending_view(self.graph)[p],
                    decreases m - j,
                {
                    let ghost pre_out = map_pairs_view(out@);
                    let klit = row_literal_from_row(&pend[j].0, knative, klayout);
                    let vlit = row_literal_from_row(&pend[j].1, vnative, vlayout);
                    out.push((klit, vlit, pend[j].2));
                    proof {
                        assert(map_pairs_view(out@) =~= pre_out.push(
                            ((klit@, vlit@), pend@[j as int].2 as int),
                        ));
                    }
                    j = j + 1;
                }
                proof {
                    assert(map_pairs_view(out@) =~= self.inputs@[k as int].1.map_pending_view(
                        self.graph,
                    ));
                    let kk = choose|kk: int|
                        0 <= kk < self.inputs@.len() && (#[trigger] self.inputs@[kk]).0
                            == i;
                    assert(kk == k);
                }
                out
            },
            Node::ConstantStream { value, .. } => {
                let mut out: Vec<(RowLiteral, RowLiteral, Weight)> = Vec::new();
                if self.tick == 0 {
                    match value {
                        StreamCollection::MapRows(rows) => {
                            let m = rows.len();
                            let mut j: usize = 0;
                            while j < m
                                invariant
                                    j <= m,
                                    out@.len() == j,
                                    forall|p: int|
                                        0 <= p < j ==> #[trigger] map_pairs_view(out@)[p]
                                            == map_pairs_view(rows@)[p],
                                decreases m - j,
                            {
                                let ghost pre_out = map_pairs_view(out@);
                                let klit = crate::literal::clone_literal(&rows[j].0);
                                let vlit = crate::literal::clone_literal(&rows[j].1);
                                out.push((klit, vlit, rows[j].2));
                                proof {
                                    assert(map_pairs_view(out@) =~= pre_out.push(
                                        ((klit@, vlit@), rows@[j as int].2 as int),
                                    ));
                                }
                                j = j + 1;
                            }
                            proof {
                                assert(map_pairs_view(out@) =~= map_pairs_view(rows@));
                            }
                        },
                        StreamCollection::SetRows(_) => {
                            proof {
                                assert(false);
                            }
                        },
                    }
                } else {
                    proof {
                        assert(map_pairs_view(out@) =~= Seq::<(
                            (Seq<NullableConstantV>, Seq<NullableConstantV>),
                            int,
                        )>::empty());
                    }
                }
                out
            },
            Node::Join { .. } => {
                proof {
                    assert(false);
                }
                Vec::new()
            },
            Node::Sink { input, .. } => self.eval_node_map(*input),
        }
    }

    /// Advances the circuit one logical tick: absorbs all pending input,
    /// evaluates every live sink's upstream once, appends the deltas to
    /// the traces, and clears the pending input.
    ///
    /// Fails, leaving the circuit untouched, exactly when some joined
    /// weight leaves the representable range.
    #[verifier::loop_isolation(false)]
    pub fn step(&mut self) -> (r: Result<(), StepError>)
        requires
            old(self).wf(),
            old(self).tick < u64::MAX,
        ensures
            final(self).wf(),
            r is Err ==> *final(self) == *old(self),
            (r is Ok) == step_fits(*old(self)),
            r is Ok ==> {
                &&& final(self).graph == old(self).graph
                &&& final(self).workers == old(self).workers
                &&& final(self).tick == old(self).tick + 1
                &&& final(self).csv_demands@ == old(self).csv_demands@
                &&& final(self).json_demands@ == old(self).json_demands@
                &&& final(self).inputs@.len() == old(self).inputs@.len()
                &&& forall|k: int|
                    0 <= k < old(self).inputs@.len() ==> {
                        let (id0, st0) = #[trigger] old(self).inputs@[k];
                        let (id1, st1) = final(self).inputs@[k];
                        &&& id1 == id0
                        &&& st1.live == st0.live
                        &&& st1.layout == st0.layout
                        &&& st1.set_pending@.len() == 0
                        &&& st1.map_pending@.len() == 0
                    }
                &&& final(self).outputs@.len() == old(self).outputs@.len()
                &&& forall|k: int|
                    0 <= k < old(self).outputs@.len() ==> {
                        let (id0, st0) = #[trigger] old(self).outputs@[k];
                        let (id1, st1) = final(self).outputs@[k];
                        &&& id1 == id0
                        &&& st1.live == st0.live
                        &&& st1.layout == st0.layout
                        &&& st1.upstream == st0.upstream
                        &&& (!st0.live ==> st1.set_trace@ == st0.set_trace@ && st1.map_trace@
                            == st0.map_trace@)
                        &&& (st0.live && st0.layout is SetOf ==> set_view(st1.set_trace@)
                            == set_view(st0.set_trace@) + eval_set(
                            *old(self),
                            st0.upstream as int,
                        ) && st1.map_trace@ == st0.map_trace@)
                        &&& (st0.live && st0.layout is MapOf ==> map_pairs_view(st1.map_trace@)
                            == map_pairs_view(st0.map_trace@) + eval_map(
                            *old(self),
                            st0.upstream as int,
                        ) && st1.set_trace@ == st0.set_trace@)
                    }
            },
    {
        let ghost pre = *self;
        // Evaluate every live sink against the pre-step state.
        let n = self.outputs.len();
        let mut set_deltas: Vec<Vec<(RowLiteral, Weight)>> = Vec::new();
        let mut map_deltas: Vec<Vec<(RowLiteral, RowLiteral, Weight)>> = Vec::new();
        let mut k: usize = 0;
        while k < n
            invariant
                k <= n,
                *self == pre,
                n == self.outputs@.len(),
                set_deltas@.len() == k,
                map_deltas@.len() == k,
                forall|p: int|
                    0 <= p < k ==> {
                        let (id, st) = #[trigger] self.outputs@[p];
                        &&& (st.live && st.layout is SetOf ==> set_view(set_deltas@[p]@)
                            == eval_set(pre, st.upstream as int) && map_deltas@[p]@.len() == 0)
                        &&& (st.live && st.layout is MapOf ==> map_pairs_view(map_deltas@[p]@)
                            == eval_map(pre, st.upstream as int) && set_deltas@[p]@.len() == 0)
                        &&& (!st.live ==> set_deltas@[p]@.len() == 0 && map_deltas@[p]@.len() == 0)
                    },
                forall|p: int|
                    0 <= p < k ==> ((#[trigger] self.outputs@[p]).1.live
                        && self.outputs@[p].1.layout is SetOf ==> eval_fits(
                        pre,
                        self.outputs@[p].1.upstream as int,
                    )),
            decreases n - k,
        {
            let live = self.outputs[k].1.live;
            let layout = self.outputs[k].1.layout;
            let upstream = self.outputs[k].1.upstream;
            proof {
                assert(node_wf(self.graph, self.outputs@[k as int].0 as int));
            }
            if live {
                match layout {
                    StreamLayout::SetOf(_) => {
                        match self.eval_node_set(upstream) {
                            Ok(v) => {
                                set_deltas.push(v);
                                map_deltas.push(Vec::new());
                            },
                            Err(e) => {
                                proof {
                                    assert(!step_fits(pre));
                                }
                                return Err(e);
                            },
                        }
                    },
                    StreamLayout::MapOf(..) => {
                        let v = self.eval_node_map(upstream);
                        map_deltas.push(v);
                        set_deltas.push(Vec::new());
                    },
                }
            } else {
                set_deltas.push(Vec::new());
                map_deltas.push(Vec::new());
            }
            k = k + 1;
        }
        proof {
            assert(step_fits(pre));
        }
        // Commit: extend each live trace with its delta.
        let mut k2: usize = 0;
        while k2 < n
            invariant
                k2 <= n,
                n == self.outputs@.len(),
                n == pre.outputs@.len(),
                set_deltas@.len() == n,
                map_deltas@.len() == n,
                self.graph == pre.graph,
                self.tick == pre.tick,
                self.workers == pre.workers,
                self.inputs@ == pre.inputs@,
                self.csv_demands@ == pre.csv_demands@,
                self.json_demands@ == pre.json_demands@,
                forall|p: int|
                    k2 <= p < n ==> {
                        let (id, st) = #[trigger] pre.outputs@[p];
                        &&& (st.live && st.layout is SetOf ==> set_view(set_deltas@[p]@)
                            == eval_set(pre, st.upstream as int) && map_deltas@[p]@.len() == 0)
                        &&& (st.live && st.layout is MapOf ==> map_pairs_view(map_deltas@[p]@)
                            == eval_map(pre, st.upstream as int) && set_deltas@[p]@.len() == 0)
                        &&& (!st.live ==> set_deltas@[p]@.len() == 0 && map_deltas@[p]@.len() == 0)
                    },
                forall|p: int|
                    k2 <= p < n ==> #[trigger] self.outputs@[p] == pre.outputs@[p],
                forall|p: int|
                    0 <= p < k2 ==> {
                        let (id0, st0) = #[trigger] pre.outputs@[p];
                        let (id1, st1) = self.outputs@[p];
                        &&& id1 == id0
                        &&& st1.live == st0.live
                        &&& st1.layout == st0.layout
                        &&& st1.upstream == st0.upstream
                        &&& (!st0.live ==> st1.set_trace@ == st0.set_trace@ && st1.map_trace@
                            == st0.map_trace@)
                        &&& (st0.live && st0.layout is SetOf ==> set_view(st1.set_trace@)
                            == set_view(st0.set_trace@) + eval_set(pre, st0.upstream as int)
                            && st1.map_trace@ == st0.map_trace@)
                        &&& (st0.live && st0.layout is MapOf ==> map_pairs_view(st1.map_trace@)
                            == map_pairs_view(st0.map_trace@) + eval_map(pre, st0.upstream as int)
                            && st1.set_trace@ == st0.set_trace@)
                    },
            decreases n - k2,
        {
            let ghost pre_outputs = self.outputs@;
            let live = self.outputs[k2].1.live;
            if live {
                let (id, mut st) = self.outputs.remove(k2);
                let ghost st0 = st;
                match st.layout {
                    StreamLayout::SetOf(_) => {
                        let mut delta = set_deltas.remove(k2);
                        set_deltas.insert(k2, Vec::new());
                        let ghost dv = delta@;
                        let ghost tv = st.set_trace@;
                        st.set_trace.append(&mut delta);
                        proof {
                            assert(st.set_trace@ == tv + dv);
                            assert(set_view(st.set_trace@) =~= set_view(tv) + set_view(dv));
                        }
                    },
                    StreamLayout::MapOf(..) => {
                        let mut delta = map_deltas.remove(k2);
                        map_deltas.insert(k2, Vec::new());
                        let ghost dv = delta@;
                        let ghost tv = st.map_trace@;
                        st.map_trace.append(&mut delta);
                        proof {
                            assert(st.map_trace@ == tv + dv);
                            assert(map_pairs_view(st.map_trace@) =~= map_pairs_view(tv)
                                + map_pairs_view(dv));
                        }
                    },
                }
                self.outputs.insert(k2, (id, st));
                proof {
                    assert(self.outputs@ =~= pre_outputs.update(k2 as int, (id, st)));
                }
            }
            k2 = k2 + 1;
        }
        // Absorb: clear every source's pending input.
        let m = self.inputs.len();
        let mut k3: usize = 0;
        let ghost mid = *self;
        while k3 < m
            invariant
                k3 <= m,
                m == self.inputs@.len(),
                m == mid.inputs@.len(),
                self.graph == mid.graph,
                self.tick == mid.tick,
                self.workers == mid.workers,
                self.outputs@ == mid.outputs@,
                self.csv_demands@ == mid.csv_demands@,
                self.json_demands@ == mid.json_demands@,
                forall|p: int|
                    k3 <= p < m ==> #[trigger] self.inputs@[p] == mid.inputs@[p],
                forall|p: int|
                    0 <= p < k3 ==> {
                        let (id0, st0) = #[trigger] mid.inputs@[p];
                        let (id1, st1) = self.inputs@[p];
                        &&& id1 == id0
                        &&& st1.live == st0.live
                        &&& st1.layout == st0.layout
                        &&& st1.set_pending@.len() == 0
                        &&& st1.map_pending@.len() == 0
                    },
            decreases m - k3,
        {
            let ghost pre_inputs = self.inputs@;
            let (id, mut st) = self.inputs.remove(k3);
            st.set_pending = Vec::new();
            st.map_pending = Vec::new();
            self.inputs.insert(k3, (id, st));
            proof {
                assert(self.inputs@ =~= pre_inputs.update(k3 as int, (id, st)));
            }
            k3 = k3 + 1;
        }
        self.tick = self.tick + 1;
        proof {
            let post = *self;
            assert forall|k: int|
                0 <= k < post.inputs@.len() implies {
                let (id, st) = #[trigger] post.inputs@[k];
                &&& is_source(post.graph, id as int)
                &&& st.layout == node_output(post.graph, id as int)
                &&& st.wf(post.graph)
            } by {
                let (id0, st0) = pre.inputs@[k];
                assert(is_source(pre.graph, id0 as int));
            }
            assert forall|i2: int|
                is_source(post.graph, i2) implies exists|k: int|
                    0 <= k < post.inputs@.len() && (#[trigger] post.inputs@[k]).0 == i2 by {
                let k = choose|k: int|
                    0 <= k < pre.inputs@.len() && (#[trigger] pre.inputs@[k]).0 == i2;
                assert(post.inputs@[k].0 == pre.inputs@[k].0);
            }
            assert forall|k: int|
                0 <= k < post.outputs@.len() implies {
                let (id, st) = #[trigger] post.outputs@[k];
                &&& is_sink(post.graph, id as int)
                &&& st.layout == node_output(post.graph, id as int)
                &&& (post.graph.nodes@[id as int] matches Node::Sink { input, .. } && st.upstream
                    == input)
                &&& (st.layout is SetOf ==> st.map_trace@.len() == 0)
                &&& (st.layout is MapOf ==> st.set_trace@.len() == 0)
            } by {
                let (id0, st0) = pre.outputs@[k];
                assert(is_sink(pre.graph, id0 as int));
            }
            assert forall|i2: int|
                is_sink(post.graph, i2) implies exists|k: int|
                    0 <= k < post.outputs@.len() && (#[trigger] post.outputs@[k]).0 == i2 by {
                let k = choose|k: int|
                    0 <= k < pre.outputs@.len() && (#[trigger] pre.outputs@[k]).0 == i2;
                assert(post.outputs@[k].0 == pre.outputs@[k].0);
            }
            assert forall|k1: int, k2x: int|
                0 <= k1 < k2x < post.inputs@.len() implies post.inputs@[k1].0
                < post.inputs@[k2x].0 by {
                assert(post.inputs@[k1].0 == pre.inputs@[k1].0);
                assert(post.inputs@[k2x].0 == pre.inputs@[k2x].0);
            }
            assert forall|k1: int, k2x: int|
                0 <= k1 < k2x < post.outputs@.len() implies post.outputs@[k1].0
                < post.outputs@[k2x].0 by {
                assert(post.outputs@[k1].0 == pre.outputs@[k1].0);
                assert(post.outputs@[k2x].0 == pre.outputs@[k2x].0);
            }
        }
        Ok(())
    }
}

/// The later pending view extends the earlier one with weight-one rows of
/// well-formed literals.
pub open spec fn v1_extends(
    v0: SetV,
    vm: SetV,
    v1: SetV,
    cols: Seq<(crate::layout::ColumnType, bool)>,
) -> bool {
    &&& v1.subrange(0, v0.len() as int) == v0
    &&& v0.len() <= v1.len()
    &&& forall|j: int|
        v0.len() <= j < v1.len() ==> (#[trigger] v1[j]).1 == 1 && literal_wf(v1[j].0, cols)
}

/// All joined weights of every live set sink stay representable at the
/// current state: the exact success condition of `step`.
pub open spec fn step_fits(c: DbspCircuit) -> bool {
    forall|k: int|
        0 <= k < c.outputs@.len() && (#[trigger] c.outputs@[k]).1.live
            && c.outputs@[k].1.layout is SetOf ==> eval_fits(c, c.outputs@[k].1.upstream as int)
}

} // verus!

verus! {

impl DbspCircuit {
    /// Drains a sink's accumulated trace into canonical consolidated form:
    /// rows in strictly ascending canonical order, weights totalled, zero
    /// totals dropped.  An absent sink yields the empty collection of the
    /// declared shape and nothing changes.
    ///
    /// The machine limit `consolidation_fits` asks that every row's total
    /// weight be representable.
    pub fn consolidate_output(&mut self, output: NodeId) -> (r: StreamCollection)
        requires
            old(self).wf(),
            is_sink(old(self).graph, output as int),
            consolidation_fits(*old(self), output as int),
        ensures
            final(self).wf(),
            final(self).graph == old(self).graph,
            final(self).tick == old(self).tick,
            final(self).inputs@ == old(self).inputs@,
            final(self).csv_demands@ == old(self).csv_demands@,
            final(self).json_demands@ == old(self).json_demands@,
            final(self).outputs@.len() == old(self).outputs@.len(),
            forall|k: int|
                0 <= k < old(self).outputs@.len() && (#[trigger] old(self).outputs@[k]).0 != output
                    ==> final(self).outputs@[k] == old(self).outputs@[k],
            forall|k: int|
                0 <= k < old(self).outputs@.len() && (#[trigger] old(self).outputs@[k]).0 == output
                    ==> {
                    let st0 = old(self).outputs@[k].1;
                    let st1 = final(self).outputs@[k].1;
                    &&& final(self).outputs@[k].0 == output
                    &&& st1.live == st0.live
                    &&& st1.layout == st0.layout
                    &&& st1.upstream == st0.upstream
                    &&& (!st0.live ==> st1 == st0 && (match st0.layout {
                        StreamLayout::SetOf(_) => r matches StreamCollection::SetRows(v)
                            && v@.len() == 0,
                        StreamLayout::MapOf(..) => r matches StreamCollection::MapRows(v)
                            && v@.len() == 0,
                    }))
                    &&& (st0.live ==> match st0.layout {
                        StreamLayout::SetOf(_) => {
                            &&& st1.set_trace@.len() == 0
                            &&& st1.map_trace@ == st0.map_trace@
                            &&& r matches StreamCollection::SetRows(v) && set_sorted(set_view(v@))
                                && (forall|m: Seq<NullableConstantV>| #[trigger] weight_of(
                                set_view(v@),
                                m,
                            ) == weight_of(set_view(st0.set_trace@), m)) && (forall|j: int|
                                0 <= j < v@.len() ==> (#[trigger] v@[j]).1 != 0)
                        },
                        StreamLayout::MapOf(..) => {
                            &&& st1.map_trace@.len() == 0
                            &&& st1.set_trace@ == st0.set_trace@
                            &&& r matches StreamCollection::MapRows(v) && map_sorted(
                                map_pairs_view(v@),
                            ) && (forall|m: (Seq<NullableConstantV>, Seq<NullableConstantV>)|
                                #[trigger] weight_of(map_pairs_view(v@), m) == weight_of(
                                map_pairs_view(st0.map_trace@),
                                m,
                            )) && (forall|j: int| 0 <= j < v@.len() ==> (#[trigger] v@[j]).2 != 0)
                        },
                    })
                },
    {
        let kidx = match self.find_output(output) {
            Some(k) => k,
            None => {
                proof {
                    assert(exists|k: int|
                        0 <= k < self.outputs@.len() && (#[trigger] self.outputs@[k]).0
                            == output);
                    assert(false);
                }
                return StreamCollection::SetRows(Vec::new());
            },
        };
        let ghost pre = *self;
        if !self.outputs[kidx].1.live {
            let layout = self.outputs[kidx].1.layout;
            return StreamCollection::empty(layout);
        }
        let (id, mut st) = self.outputs.remove(kidx);
        let ghost st0 = st;
        let result = match st.layout {
            StreamLayout::SetOf(_) => {
                let consolidated = consolidate_set(&st.set_trace);
                st.set_trace = Vec::new();
                StreamCollection::SetRows(consolidated)
            },
            StreamLayout::MapOf(..) => {
                let consolidated = consolidate_map(&st.map_trace);
                st.map_trace = Vec::new();
                StreamCollection::MapRows(consolidated)
            },
        };
        self.outputs.insert(kidx, (id, st));
        proof {
            assert(self.outputs@ =~= pre.outputs@.update(kidx as int, (id, st)));
            assert forall|k: int|
                0 <= k < self.outputs@.len() implies {
                let (id2, st2) = #[trigger] self.outputs@[k];
                &&& is_sink(self.graph, id2 as int)
                &&& st2.layout == node_output(self.graph, id2 as int)
                &&& (self.graph.nodes@[id2 as int] matches Node::Sink { input, .. }
                    && st2.upstream == input)
                &&& (st2.layout is SetOf ==> st2.map_trace@.len() == 0)
                &&& (st2.layout is MapOf ==> st2.set_trace@.len() == 0)
            } by {
                if k != kidx {
                    assert(self.outputs@[k] == pre.outputs@[k]);
                }
            }
            assert forall|k1: int, k2: int|
                0 <= k1 < k2 < self.outputs@.len() implies self.outputs@[k1].0
                < self.outputs@[k2].0 by {
                assert(self.outputs@[k1].0 == pre.outputs@[k1].0);
                assert(self.outputs@[k2].0 == pre.outputs@[k2].0);
            }
            assert forall|i2: int|
                is_sink(self.graph, i2) implies exists|k: int|
                    0 <= k < self.outputs@.len() && (#[trigger] self.outputs@[k]).0 == i2 by {
                let k = choose|k: int|
                    0 <= k < pre.outputs@.len() && (#[trigger] pre.outputs@[k]).0 == i2;
                assert(self.outputs@[k].0 == pre.outputs@[k].0);
            }
        }
        result
    }
}

/// The machine limit of consolidation at one sink: every row's (or
/// pair's) total weight in the accumulated trace fits a [`Weight`].
pub open spec fn consolidation_fits(c: DbspCircuit, output: int) -> bool {
    forall|k: int|
        0 <= k < c.outputs@.len() && (#[trigger] c.outputs@[k]).0 == output
            && c.outputs@[k].1.live ==> {
            let st = c.outputs@[k].1;
            match st.layout {
                StreamLayout::SetOf(_) => set_weights_fit(set_view(st.set_trace@)),
                StreamLayout::MapOf(..) => map_weights_fit(map_pairs_view(st.map_trace@)),
            }
        }
}

/// Does the declared source's endpoint survive optimization?
pub open spec fn endpoint_live(c: DbspCircuit, target: int) -> bool {
    exists|k: int|
        0 <= k < c.inputs@.len() && (#[trigger] c.inputs@[k]).0 == target && c.inputs@[k].1.live
}

/// Whether the declared source's endpoint survived optimization.
pub fn endpoint_live_exec(c: &DbspCircuit, target: NodeId) -> (r: bool)
    requires
        c.wf(),
    ensures
        r == endpoint_live(*c, target as int),
{
    let n = c.inputs.len();
    let mut k: usize = 0;
    while k < n
        invariant
            k <= n,
            n == c.inputs@.len(),
            c.wf(),
            forall|p: int| 0 <= p < k ==> (#[trigger] c.inputs@[p]).0 != target,
        decreases n - k,
    {
        if c.inputs[k].0 == target {
            proof {
                lemma_unique_input_index(*c, target as int, k as int);
            }
            return c.inputs[k].1.live;
        }
        k = k + 1;
    }
    false
}

/// Input-map ids are strictly ascending, so each declared source has
/// exactly one entry.
proof fn lemma_unique_input_index(c: DbspCircuit, target: int, kidx: int)
    requires
        c.wf(),
        0 <= kidx < c.inputs@.len(),
        c.inputs@[kidx].0 == target,
    ensures
        forall|k: int|
            0 <= k < c.inputs@.len() && (#[trigger] c.inputs@[k]).0 == target ==> k == kidx,
        endpoint_live(c, target) == c.inputs@[kidx].1.live,
{
    assert forall|k: int|
        0 <= k < c.inputs@.len() && (#[trigger] c.inputs@[k]).0 == target implies k == kidx by {
        if k < kidx {
            assert(c.inputs@[k].0 < c.inputs@[kidx].0);
        }
        if k > kidx {
            assert(c.inputs@[kidx].0 < c.inputs@[k].0);
        }
    }
    if c.inputs@[kidx].1.live {
        assert(endpoint_live(c, target));
    }
}

} // verus!

verus! {

/// A cloneable producer handle for one set-typed source: it owns the
/// source's layout, physical layout and JSON demand, buffers pushed rows,
/// and hands them to the circuit in one batch.  A handle borrows nothing
/// from the circuit, and `kill` consumes the circuit, so no handle can
/// outlive the endpoints it feeds.
pub struct JsonSetHandle {
    pub target: NodeId,
    pub key_layout: crate::layout::LayoutId,
    pub row_layout: RowLayout,
    pub native: NativeLayout,
    pub mapping: JsonDeserConfig,
    pub batch: Vec<(Row, Weight)>,
}

impl JsonSetHandle {
    /// The handle's buffered rows conform to its layout.
    pub open spec fn wf(&self) -> bool {
        &&& self.native.wf(self.row_layout.cols@)
        &&& !has_ptr(self.row_layout.cols@)
        &&& forall|j: int|
            0 <= j < self.batch@.len() ==> (#[trigger] self.batch@[j]).0.wf(
                self.row_layout.cols@,
                self.native,
            )
    }

    /// The buffered batch as literal values.
    pub open spec fn batch_view(&self) -> SetV {
        self.batch@.map_values(
            |e: (Row, Weight)| (e.0.view_as(self.row_layout.cols@, self.native), e.1 as int),
        )
    }

    /// Parses one JSON value and buffers the marshalled row under the
    /// given weight.  A malformed value or one that does not fit the
    /// layout fails and buffers nothing.
    pub fn push(&mut self, key: &[u8], weight: Weight) -> (r: Result<(), IngestError>)
        requires
            old(self).wf(),
        ensures
            final(self).wf(),
            final(self).target == old(self).target,
            final(self).key_layout == old(self).key_layout,
            final(self).row_layout == old(self).row_layout,
            final(self).native == old(self).native,
            r is Err ==> final(self).batch@ == old(self).batch@,
            (r == Err::<(), IngestError>(IngestError::Parse)) == !crate::json::json_parses(key@),
            crate::json::json_parses(key@) ==> (match crate::json::json_literal_spec(
                key@,
                crate::json::jmap_view(old(self).mapping.mappings@),
                old(self).row_layout.cols@,
                old(self).row_layout.cols@.len() as int,
            ) {
                Ok(l) => r is Ok && final(self).batch_view() == old(self).batch_view().push(
                    (l, weight as int),
                ),
                Err(e) => r == Err::<(), IngestError>(e),
            }),
            r is Ok ==> exists|l: Seq<NullableConstantV>|
                literal_wf(l, final(self).row_layout.cols@) && final(self).batch_view() == old(
                    self,
                ).batch_view().push((l, weight as int)),
    {
        if !crate::json::json_parse_check(key) {
            return Err(IngestError::Parse);
        }
        let lit = match crate::json::literal_from_json(key, &self.mapping, &self.row_layout) {
            Ok(l) => l,
            Err(e) => {
                return Err(e);
            },
        };
        let ghost pre = self.batch_view();
        match row_from_literal(&lit, &self.row_layout, &self.native) {
            Ok(row) => {
                self.batch.push((row, weight));
                proof {
                    assert(self.batch_view() =~= pre.push((lit@, weight as int)));
                }
                Ok(())
            },
            Err(_) => {
                proof {
                    assert(false);
                }
                Err(IngestError::BadValue)
            },
        }
    }

    /// Discards everything this handle buffered and not yet handed to the
    /// circuit.  Input already handed over sits on the source endpoint;
    /// [`DbspCircuit::clear_input`] discards that.
    pub fn clear_input(&mut self)
        requires
            old(self).wf(),
        ensures
            final(self).wf(),
            final(self).batch@.len() == 0,
            final(self).target == old(self).target,
            final(self).key_layout == old(self).key_layout,
            final(self).row_layout == old(self).row_layout,
            final(self).native == old(self).native,
    {
        self.batch = Vec::new();
    }
}

/// Does the circuit hold a JSON demand for this layout?
pub open spec fn has_json_demand(c: DbspCircuit, kl: crate::layout::LayoutId) -> bool {
    crate::demands::assoc_contains(c.json_demands@, kl)
}

impl DbspCircuit {
    /// Parses one JSON value and appends the marshalled row with weight
    /// one to a set-typed source.  An absent endpoint makes the call a
    /// no-op; a malformed or ill-fitting value fails without changing
    /// anything; a map-typed source is not yet supported.
    pub fn append_json_record(&mut self, target: NodeId, record: &[u8]) -> (r: Result<
        (),
        IngestError,
    >)
        requires
            old(self).wf(),
            is_source(old(self).graph, target as int),
            node_output(old(self).graph, target as int) matches StreamLayout::SetOf(kl)
                ==> has_json_demand(*old(self), kl),
        ensures
            final(self).wf(),
            final(self).graph == old(self).graph,
            final(self).tick == old(self).tick,
            final(self).outputs@ == old(self).outputs@,
            final(self).inputs@.len() == old(self).inputs@.len(),
            r is Err ==> final(self).inputs@ == old(self).inputs@,
            node_output(old(self).graph, target as int) is MapOf ==> r == Err::<(), IngestError>(
                IngestError::NotImplemented,
            ),
            (node_output(old(self).graph, target as int) is SetOf && endpoint_live(
                *old(self),
                target as int,
            )) ==> ((r == Err::<(), IngestError>(IngestError::Parse)) == !crate::json::json_parses(
                record@,
            )),
            (node_output(old(self).graph, target as int) is SetOf && !endpoint_live(
                *old(self),
                target as int,
            )) ==> (r is Ok && final(self).inputs@ == old(self).inputs@),
            node_output(old(self).graph, target as int) matches StreamLayout::SetOf(kl)
                ==> endpoint_live(*old(self), target as int) ==> crate::json::json_parses(record@)
                ==> (crate::demands::assoc_first(old(self).json_demands@, kl) matches Some(cfg)
                && (match crate::json::json_literal_spec(
                record@,
                crate::json::jmap_view(cfg.mappings@),
                old(self).graph.cache.layouts@[kl as int].cols@,
                old(self).graph.cache.layouts@[kl as int].cols@.len() as int,
            ) {
                Ok(l) => r is Ok && (forall|k: int|
                    0 <= k < old(self).inputs@.len() && (#[trigger] old(self).inputs@[k]).0
                        == target ==> final(self).inputs@[k].1.set_pending_view(final(self).graph)
                        == old(self).inputs@[k].1.set_pending_view(old(self).graph).push(
                        (l, 1int),
                    )),
                Err(e) => r == Err::<(), IngestError>(e),
            })),
            forall|k: int|
                0 <= k < old(self).inputs@.len() && (#[trigger] old(self).inputs@[k]).0 != target
                    ==> final(self).inputs@[k] == old(self).inputs@[k],
            r is Ok ==> forall|k: int|
                0 <= k < old(self).inputs@.len() && (#[trigger] old(self).inputs@[k]).0 == target
                    ==> {
                    let st0 = old(self).inputs@[k].1;
                    let st1 = final(self).inputs@[k].1;
                    &&& st1.live == st0.live
                    &&& st1.layout == st0.layout
                    &&& (!st0.live ==> st1 == st0)
                    &&& (st0.live ==> exists|l: Seq<NullableConstantV>|
                        literal_wf(
                            l,
                            old(self).graph.cache.layouts@[st0.layout->SetOf_0 as int].cols@,
                        ) && st1.set_pending_view(final(self).graph) == st0.set_pending_view(
                            old(self).graph,
                        ).push((l, 1int)))
                },
    {
        let kidx = match self.find_input(target) {
            Some(k) => k,
            None => {
                proof {
                    assert(exists|kk: int|
                        0 <= kk < self.inputs@.len() && (#[trigger] self.inputs@[kk]).0
                            == target);
                    assert(false);
                }
                return Err(IngestError::Parse);
            },
        };
        proof {
            lemma_unique_input_index(*self, target as int, kidx as int);
            assert(self.inputs@[kidx as int].1.layout == node_output(self.graph, target as int));
        }
        let kl = match self.inputs[kidx].1.layout {
            StreamLayout::SetOf(x) => x,
            StreamLayout::MapOf(..) => {
                return Err(IngestError::NotImplemented);
            },
        };
        if !self.inputs[kidx].1.live {
            return Ok(());
        }
        let mapping = match crate::demands::assoc_find(&self.json_demands, kl) {
            Some(m) => m,
            None => {
                proof {
                    assert(false);
                }
                return Err(IngestError::Parse);
            },
        };
        if !crate::json::json_parse_check(record) {
            return Err(IngestError::Parse);
        }
        proof {
            assert(node_wf(self.graph, target as int));
        }
        let layout = self.graph.cache.layout_of(kl);
        let native = self.graph.cache.native_of(kl);
        let lit = match crate::json::literal_from_json(record, mapping, layout) {
            Ok(l) => l,
            Err(e) => {
                return Err(e);
            },
        };
        let ghost pre = *self;
        let (id, mut st) = self.inputs.remove(kidx);
        let ghost st0 = st;
        let ghost prev = st.set_pending_view(self.graph);
        match row_from_literal(&lit, layout, native) {
            Ok(row) => {
                st.set_pending.push((row, 1));
            },
            Err(_) => {
                proof {
                    assert(false);
                }
            },
        }
        proof {
            assert(st.set_pending_view(self.graph) =~= prev.push((lit@, 1int)));
        }
        self.inputs.insert(kidx, (id, st));
        proof {
            assert(self.inputs@ =~= pre.inputs@.update(kidx as int, (id, st)));
            assert forall|k: int|
                0 <= k < self.inputs@.len() implies {
                let (id2, st2) = #[trigger] self.inputs@[k];
                &&& is_source(self.graph, id2 as int)
                &&& st2.layout == node_output(self.graph, id2 as int)
                &&& st2.wf(self.graph)
            } by {
                if k != kidx {
                    assert(self.inputs@[k] == pre.inputs@[k]);
                }
            }
            assert forall|k1: int, k2: int|
                0 <= k1 < k2 < self.inputs@.len() implies self.inputs@[k1].0
                < self.inputs@[k2].0 by {
                assert(self.inputs@[k1].0 == pre.inputs@[k1].0);
                assert(self.inputs@[k2].0 == pre.inputs@[k2].0);
            }
            assert forall|i2: int|
                is_source(self.graph, i2) implies exists|k: int|
                    0 <= k < self.inputs@.len() && (#[trigger] self.inputs@[k]).0 == i2 by {
                let k = choose|k: int|
                    0 <= k < pre.inputs@.len() && (#[trigger] pre.inputs@[k]).0 == i2;
                assert(self.inputs@[k].0 == pre.inputs@[k].0);
            }
        }
        Ok(())
    }

    /// Streams concatenated JSON values into a set-typed source, one row
    /// of weight one per value.  Values parsed before the first malformed
    /// one are ingested; the malformed value fails the call.
    pub fn append_json_input(&mut self, target: NodeId, json: &[u8]) -> (r: Result<
        usize,
        IngestError,
    >)
        requires
            old(self).wf(),
            is_source(old(self).graph, target as int),
            node_output(old(self).graph, target as int) matches StreamLayout::SetOf(kl)
                ==> has_json_demand(*old(self), kl),
        ensures
            final(self).wf(),
            final(self).graph == old(self).graph,
            final(self).tick == old(self).tick,
            final(self).outputs@ == old(self).outputs@,
            node_output(old(self).graph, target as int) is MapOf ==> r == Err::<usize, IngestError>(
                IngestError::NotImplemented,
            ),
            (node_output(old(self).graph, target as int) is SetOf && endpoint_live(
                *old(self),
                target as int,
            )) ==> {
                &&& (r matches Ok(n) ==> n == crate::json::json_stream_split(json@).0.len()
                    && crate::json::json_stream_split(json@).1)
                &&& (r == Err::<usize, IngestError>(IngestError::Parse)
                    ==> !crate::json::json_stream_split(json@).1)
            },
            (node_output(old(self).graph, target as int) is SetOf && !endpoint_live(
                *old(self),
                target as int,
            )) ==> (r == Ok::<usize, IngestError>(0) && final(self).inputs@ == old(self).inputs@),
            node_output(old(self).graph, target as int) matches StreamLayout::SetOf(kl)
                ==> endpoint_live(*old(self), target as int)
                ==> (crate::demands::assoc_first(old(self).json_demands@, kl) matches Some(cfg)
                && (forall|k: int|
                0 <= k < old(self).inputs@.len() && (#[trigger] old(self).inputs@[k]).0 == target
                    ==> {
                    let v0 = old(self).inputs@[k].1.set_pending_view(old(self).graph);
                    let v1 = final(self).inputs@[k].1.set_pending_view(final(self).graph);
                    let vals = crate::json::json_stream_split(json@).0;
                    let cols = old(self).graph.cache.layouts@[kl as int].cols@;
                    let c = v1.len() - v0.len();
                    &&& c <= vals.len()
                    &&& (forall|j: int|
                        0 <= j < c ==> crate::json::json_literal_spec(
                            vals[j],
                            crate::json::jmap_view(cfg.mappings@),
                            cols,
                            cols.len() as int,
                        ) == Ok::<Seq<NullableConstantV>, IngestError>((#[trigger] v1[v0.len() + j]).0))
                    &&& (r == Err::<usize, IngestError>(IngestError::Parse) ==> c == vals.len())
                    &&& (r matches Err(e) ==> (e != IngestError::Parse ==> c < vals.len()
                        && crate::json::json_literal_spec(
                        vals[c],
                        crate::json::jmap_view(cfg.mappings@),
                        cols,
                        cols.len() as int,
                    ) == Err::<Seq<NullableConstantV>, IngestError>(e)))
                })),
            final(self).inputs@.len() == old(self).inputs@.len(),
            forall|k: int|
                0 <= k < old(self).inputs@.len() && (#[trigger] old(self).inputs@[k]).0 != target
                    ==> final(self).inputs@[k] == old(self).inputs@[k],
            forall|k: int|
                0 <= k < old(self).inputs@.len() && (#[trigger] old(self).inputs@[k]).0 == target
                    ==> {
                    let st0 = old(self).inputs@[k].1;
                    let st1 = final(self).inputs@[k].1;
                    let v0 = st0.set_pending_view(old(self).graph);
                    let v1 = st1.set_pending_view(final(self).graph);
                    &&& st1.live == st0.live
                    &&& st1.layout == st0.layout
                    &&& (!st0.live ==> st1 == st0)
                    &&& v0.len() <= v1.len()
                    &&& v1.subrange(0, v0.len() as int) == v0
                    &&& (st0.layout matches StreamLayout::SetOf(kl) ==> forall|j: int|
                        v0.len() <= j < v1.len() ==> (#[trigger] v1[j]).1 == 1 && literal_wf(
                            v1[j].0,
                            old(self).graph.cache.layouts@[kl as int].cols@,
                        ))
                    &&& (r matches Ok(n) ==> (st0.live ==> v1.len() == v0.len() + n))
                },
    {
        let kidx = match self.find_input(target) {
            Some(k) => k,
            None => {
                proof {
                    assert(exists|kk: int|
                        0 <= kk < self.inputs@.len() && (#[trigger] self.inputs@[kk]).0
                            == target);
                    assert(false);
                }
                return Err(IngestError::Parse);
            },
        };
        match self.inputs[kidx].1.layout {
            StreamLayout::SetOf(_) => {},
            StreamLayout::MapOf(..) => {
                proof {
                    assert(self.inputs@[kidx as int].1.layout == node_output(
                        self.graph,
                        target as int,
                    ));
                }
                return Err(IngestError::NotImplemented);
            },
        }
        proof {
            assert(self.inputs@[kidx as int].1.layout == node_output(self.graph, target as int));
            assert(node_output(self.graph, target as int) is SetOf);
            lemma_unique_input_index(*self, target as int, kidx as int);
        }
        if !self.inputs[kidx].1.live {
            return Ok(0);
        }
        let ghost kl0 = self.inputs@[kidx as int].1.layout->SetOf_0;
        proof {
            crate::demands::lemma_assoc_first_some(self.json_demands@, kl0);
        }
        let (values, complete) = crate::json::json_parse_stream(json);
        let n = values.len();
        let mut i: usize = 0;
        let mut ingested: usize = 0;
        while i < n
            invariant
                i <= n,
                ingested == i,
                n == values@.len(),
                crate::json::slices_view(values@) == crate::json::json_stream_split(json@).0,
                n == crate::json::json_stream_split(json@).0.len(),
                crate::demands::assoc_first(old(self).json_demands@, kl0) is Some,
                node_output(old(self).graph, target as int) == StreamLayout::SetOf(kl0),
                endpoint_live(*old(self), target as int),
                self.wf(),
                self.graph == old(self).graph,
                self.tick == old(self).tick,
                self.outputs@ == old(self).outputs@,
                is_source(self.graph, target as int),
                node_output(self.graph, target as int) is SetOf,
                node_output(self.graph, target as int) matches StreamLayout::SetOf(kl)
                    ==> has_json_demand(*self, kl),
                self.json_demands@ == old(self).json_demands@,
                self.inputs@.len() == old(self).inputs@.len(),
                forall|k: int|
                    0 <= k < old(self).inputs@.len() && (#[trigger] old(self).inputs@[k]).0
                        != target ==> self.inputs@[k] == old(self).inputs@[k],
                forall|k: int|
                    0 <= k < old(self).inputs@.len() && (#[trigger] old(self).inputs@[k]).0
                        == target ==> {
                        let st0 = old(self).inputs@[k].1;
                        let st1 = self.inputs@[k].1;
                        let v0 = st0.set_pending_view(old(self).graph);
                        let v1 = st1.set_pending_view(self.graph);
                        &&& self.inputs@[k].0 == target
                        &&& st1.live == st0.live
                        &&& st1.layout == st0.layout
                        &&& (!st0.live ==> st1 == st0)
                        &&& v0.len() <= v1.len()
                        &&& v1.subrange(0, v0.len() as int) == v0
                        &&& (st0.layout matches StreamLayout::SetOf(kl) ==> forall|j: int|
                            v0.len() <= j < v1.len() ==> (#[trigger] v1[j]).1 == 1 && literal_wf(
                                v1[j].0,
                                old(self).graph.cache.layouts@[kl as int].cols@,
                            ))
                        &&& (st0.live ==> v1.len() == v0.len() + ingested)
                        &&& (crate::demands::assoc_first(
                            old(self).json_demands@,
                            kl0,
                        ) matches Some(cfg) ==> forall|j: int|
                            0 <= j < v1.len() - v0.len() ==> crate::json::json_literal_spec(
                                crate::json::slices_view(values@)[j],
                                crate::json::jmap_view(cfg.mappings@),
                                old(self).graph.cache.layouts@[kl0 as int].cols@,
                                old(self).graph.cache.layouts@[kl0 as int].cols@.len() as int,
                            ) == Ok::<Seq<NullableConstantV>, IngestError>(
                                (#[trigger] v1[v0.len() + j]).0,
                            ))
                    },
            decreases n - i,
        {
            let ghost mid = *self;
            match self.append_json_record_value(target, values[i].as_slice()) {
                Ok(_) => {
                    ingested = ingested + 1;
                },
                Err(e) => {
                    proof {
                        assert(crate::json::slices_view(values@)[i as int] == values@[i as int]@);
                        assert(endpoint_live(mid, target as int));
                    }
                    return Err(e);
                },
            }
            proof {
                assert forall|k: int|
                    0 <= k < old(self).inputs@.len() && (#[trigger] old(self).inputs@[k]).0
                        == target implies v1_extends(
                    old(self).inputs@[k].1.set_pending_view(old(self).graph),
                    mid.inputs@[k].1.set_pending_view(mid.graph),
                    self.inputs@[k].1.set_pending_view(self.graph),
                    old(self).graph.cache.layouts@[old(self).inputs@[
                        k
                    ].1.layout->SetOf_0 as int].cols@,
                ) by {
                    let st0 = old(self).inputs@[k].1;
                    let stm = mid.inputs@[k].1;
                    let st1 = self.inputs@[k].1;
                    let cols = old(self).graph.cache.layouts@[st0.layout->SetOf_0 as int].cols@;
                    let v0 = st0.set_pending_view(old(self).graph);
                    let vm = stm.set_pending_view(mid.graph);
                    let v1 = st1.set_pending_view(self.graph);
                    assert(mid.inputs@[k].0 == target);
                    assert(vm.subrange(0, v0.len() as int) == v0);
                    assert(v1.subrange(0, vm.len() as int) == vm);
                    assert(v1.subrange(0, v0.len() as int) =~= v0);
                    assert forall|j: int|
                        v0.len() <= j < v1.len() implies (#[trigger] v1[j]).1 == 1 && literal_wf(
                        v1[j].0,
                        cols,
                    ) by {
                        if j < vm.len() {
                            assert(v1[j] == vm[j]);
                        }
                    }
                }
                let cfg0 = crate::demands::assoc_first(old(self).json_demands@, kl0)->Some_0;
                assert forall|k: int|
                    0 <= k < old(self).inputs@.len() && (#[trigger] old(self).inputs@[k]).0
                        == target implies {
                    let v0 = old(self).inputs@[k].1.set_pending_view(old(self).graph);
                    let v1 = self.inputs@[k].1.set_pending_view(self.graph);
                    forall|j: int|
                        0 <= j < v1.len() - v0.len() ==> crate::json::json_literal_spec(
                            crate::json::slices_view(values@)[j],
                            crate::json::jmap_view(cfg0.mappings@),
                            old(self).graph.cache.layouts@[kl0 as int].cols@,
                            old(self).graph.cache.layouts@[kl0 as int].cols@.len() as int,
                        ) == Ok::<Seq<NullableConstantV>, IngestError>(
                            (#[trigger] v1[v0.len() + j]).0,
                        )
                } by {
                    let v0 = old(self).inputs@[k].1.set_pending_view(old(self).graph);
                    let vm = mid.inputs@[k].1.set_pending_view(mid.graph);
                    let v1 = self.inputs@[k].1.set_pending_view(self.graph);
                    assert(mid.inputs@[k].0 == target);
                    assert(crate::json::slices_view(values@)[i as int] == values@[i as int]@);
                    assert forall|j: int|
                        0 <= j < v1.len() - v0.len() implies crate::json::json_literal_spec(
                        crate::json::slices_view(values@)[j],
                        crate::json::jmap_view(cfg0.mappings@),
                        old(self).graph.cache.layouts@[kl0 as int].cols@,
                        old(self).graph.cache.layouts@[kl0 as int].cols@.len() as int,
                    ) == Ok::<Seq<NullableConstantV>, IngestError>(
                        (#[trigger] v1[v0.len() + j]).0,
                    ) by {
                        if j < vm.len() - v0.len() {
                            assert(v1[v0.len() + j] == vm[v0.len() + j]);
                        } else {
                            assert(j == i);
                        }
                    }
                }
            }
            i = i + 1;
        }
        if complete {
            Ok(ingested)
        } else {
            Err(IngestError::Parse)
        }
    }

    /// Appends one already-parsed JSON value to a set-typed source.
    fn append_json_record_value(&mut self, target: NodeId, value_bytes: &[u8]) -> (r: Result<
        (),
        IngestError,
    >)
        requires
            old(self).wf(),
            is_source(old(self).graph, target as int),
            node_output(old(self).graph, target as int) matches StreamLayout::SetOf(kl)
                ==> has_json_demand(*old(self), kl),
            node_output(old(self).graph, target as int) is SetOf,
        ensures
            node_output(old(self).graph, target as int) matches StreamLayout::SetOf(kl)
                ==> endpoint_live(*old(self), target as int)
                ==> (crate::demands::assoc_first(old(self).json_demands@, kl) matches Some(cfg)
                && (match crate::json::json_literal_spec(
                value_bytes@,
                crate::json::jmap_view(cfg.mappings@),
                old(self).graph.cache.layouts@[kl as int].cols@,
                old(self).graph.cache.layouts@[kl as int].cols@.len() as int,
            ) {
                Ok(l) => r is Ok && (forall|k: int|
                    0 <= k < old(self).inputs@.len() && (#[trigger] old(self).inputs@[k]).0
                        == target ==> final(self).inputs@[k].1.set_pending_view(final(self).graph)
                        == old(self).inputs@[k].1.set_pending_view(old(self).graph).push(
                        (l, 1int),
                    )),
                Err(e) => r == Err::<(), IngestError>(e),
            })),
            final(self).wf(),
            final(self).graph == old(self).graph,
            final(self).tick == old(self).tick,
            final(self).outputs@ == old(self).outputs@,
            final(self).json_demands@ == old(self).json_demands@,
            final(self).csv_demands@ == old(self).csv_demands@,
            r is Err ==> final(self).inputs@ == old(self).inputs@,
            r matches Err(e) ==> e != IngestError::Parse,
            final(self).inputs@.len() == old(self).inputs@.len(),
            forall|k: int|
                0 <= k < old(self).inputs@.len() ==> (#[trigger] final(self).inputs@[k]).0 == old(
                    self,
                ).inputs@[k].0,
            forall|k: int|
                0 <= k < old(self).inputs@.len() && (#[trigger] old(self).inputs@[k]).0 != target
                    ==> final(self).inputs@[k] == old(self).inputs@[k],
            forall|k: int|
                0 <= k < old(self).inputs@.len() && (#[trigger] old(self).inputs@[k]).0 == target
                    ==> {
                    let st0 = old(self).inputs@[k].1;
                    let st1 = final(self).inputs@[k].1;
                    let v0 = st0.set_pending_view(old(self).graph);
                    let v1 = st1.set_pending_view(final(self).graph);
                    &&& st1.live == st0.live
                    &&& st1.layout == st0.layout
                    &&& (!st0.live ==> st1 == st0)
                    &&& v0.len() <= v1.len() <= v0.len() + 1
                    &&& v1.subrange(0, v0.len() as int) == v0
                    &&& (st0.layout matches StreamLayout::SetOf(kl) ==> forall|j: int|
                        v0.len() <= j < v1.len() ==> (#[trigger] v1[j]).1 == 1 && literal_wf(
                            v1[j].0,
                            old(self).graph.cache.layouts@[kl as int].cols@,
                        ))
                    &&& (r matches Ok(u) ==> (st0.live ==> v1.len() == v0.len() + 1))
                },
    {
        let kidx = match self.find_input(target) {
            Some(k) => k,
            None => {
                proof {
                    assert(exists|kk: int|
                        0 <= kk < self.inputs@.len() && (#[trigger] self.inputs@[kk]).0
                            == target);
                    assert(false);
                }
                return Err(IngestError::Parse);
            },
        };
        proof {
            lemma_unique_input_index(*self, target as int, kidx as int);
            assert(self.inputs@[kidx as int].1.layout == node_output(self.graph, target as int));
        }
        let kl = match self.inputs[kidx].1.layout {
            StreamLayout::SetOf(x) => x,
            StreamLayout::MapOf(..) => {
                proof {
                    assert(false);
                }
                return Err(IngestError::NotImplemented);
            },
        };
        if !self.inputs[kidx].1.live {
            return Ok(());
        }
        let mapping = match crate::demands::assoc_find(&self.json_demands, kl) {
            Some(m) => m,
            None => {
                proof {
                    assert(false);
                }
                return Err(IngestError::Parse);
            },
        };
        proof {
            assert(node_wf(self.graph, target as int));
        }
        let layout = self.graph.cache.layout_of(kl);
        let native = self.graph.cache.native_of(kl);
        let lit = match crate::json::literal_from_json(value_bytes, mapping, layout) {
            Ok(l) => l,
            Err(e) => {
                return Err(e);
            },
        };
        let ghost pre = *self;
        let (id, mut st) = self.inputs.remove(kidx);
        let ghost st0 = st;
        let ghost prev = st.set_pending_view(self.graph);
        match row_from_literal(&lit, layout, native) {
            Ok(row) => {
                st.set_pending.push((row, 1));
            },
            Err(_) => {
                proof {
                    assert(false);
                }
            },
        }
        self.inputs.insert(kidx, (id, st));
        proof {
            assert(self.inputs@ =~= pre.inputs@.update(kidx as int, (id, st)));
            let v1 = st.set_pending_view(self.graph);
            assert(v1 =~= prev.push((lit@, 1int)));
            assert(v1.subrange(0, prev.len() as int) =~= prev);
            assert forall|k: int|
                0 <= k < self.inputs@.len() implies {
                let (id2, st2) = #[trigger] self.inputs@[k];
                &&& is_source(self.graph, id2 as int)
                &&& st2.layout == node_output(self.graph, id2 as int)
                &&& st2.wf(self.graph)
            } by {
                if k != kidx {
                    assert(self.inputs@[k] == pre.inputs@[k]);
                }
            }
            assert forall|k1: int, k2: int|
                0 <= k1 < k2 < self.inputs@.len() implies self.inputs@[k1].0
                < self.inputs@[k2].0 by {
                assert(self.inputs@[k1].0 == pre.inputs@[k1].0);
                assert(self.inputs@[k2].0 == pre.inputs@[k2].0);
            }
            assert forall|i2: int|
                is_source(self.graph, i2) implies exists|k: int|
                    0 <= k < self.inputs@.len() && (#[trigger] self.inputs@[k]).0 == i2 by {
                let k = choose|k: int|
                    0 <= k < pre.inputs@.len() && (#[trigger] pre.inputs@[k]).0 == i2;
                assert(self.inputs@[k].0 == pre.inputs@[k].0);
            }
        }
        Ok(())
    }

    /// A cloneable JSON producer handle for a set-typed source; `None`
    /// when the optimizer dropped the source's endpoint.
    pub fn json_input_set(&self, target: NodeId) -> (r: Option<JsonSetHandle>)
        requires
            self.wf(),
            is_source(self.graph, target as int),
            node_output(self.graph, target as int) is SetOf,
            node_output(self.graph, target as int) matches StreamLayout::SetOf(kl)
                ==> has_json_demand(*self, kl),
        ensures
            (r is Some) == endpoint_live(*self, target as int),
            r matches Some(h) ==> {
                &&& h.wf()
                &&& h.batch@.len() == 0
                &&& h.target == target
                &&& node_output(self.graph, target as int) matches StreamLayout::SetOf(kl)
                    && h.key_layout == kl && h.row_layout.cols@
                    == self.graph.cache.layouts@[kl as int].cols@ && crate::layout::native_equiv(
                    h.native,
                    self.graph.cache.natives@[kl as int],
                ) && (crate::demands::assoc_first(self.json_demands@, kl) matches Some(cfg)
                    && crate::json::jmap_view(h.mapping.mappings@) == crate::json::jmap_view(
                    cfg.mappings@,
                ))
            },
    {
        let kidx = match self.find_input(target) {
            Some(k) => k,
            None => {
                proof {
                    assert(exists|kk: int|
                        0 <= kk < self.inputs@.len() && (#[trigger] self.inputs@[kk]).0
                            == target);
                    assert(false);
                }
                return None;
            },
        };
        proof {
            lemma_unique_input_index(*self, target as int, kidx as int);
        }
        if !self.inputs[kidx].1.live {
            return None;
        }
        let kl = match self.inputs[kidx].1.layout {
            StreamLayout::SetOf(x) => x,
            StreamLayout::MapOf(..) => {
                proof {
                    assert(false);
                }
                return None;
            },
        };
        let mapping = match crate::demands::assoc_find(&self.json_demands, kl) {
            Some(m) => m,
            None => {
                proof {
                    assert(false);
                }
                return None;
            },
        };
        proof {
            assert(node_wf(self.graph, target as int));
        }
        let cloned = clone_json_config(mapping);
        proof {
            assert(crate::json::jmap_view(cloned.mappings@) =~= crate::json::jmap_view(
                mapping.mappings@,
            ));
        }
        Some(
            JsonSetHandle {
                target,
                key_layout: kl,
                row_layout: crate::layout::clone_layout(self.graph.cache.layout_of(kl)),
                native: crate::layout::clone_native(self.graph.cache.native_of(kl)),
                mapping: cloned,
                batch: Vec::new(),
            },
        )
    }

    /// Hands a producer handle's buffered batch to its source.  A dead
    /// endpoint absorbs nothing.
    pub fn absorb_json_set_handle(&mut self, handle: JsonSetHandle)
        requires
            old(self).wf(),
            handle.wf(),
            is_source(old(self).graph, handle.target as int),
            node_output(old(self).graph, handle.target as int) matches StreamLayout::SetOf(kl)
                && handle.row_layout.cols@ == old(self).graph.cache.layouts@[kl as int].cols@
                && crate::layout::native_equiv(
                handle.native,
                old(self).graph.cache.natives@[kl as int],
            ),
        ensures
            final(self).wf(),
            final(self).graph == old(self).graph,
            final(self).tick == old(self).tick,
            final(self).outputs@ == old(self).outputs@,
            final(self).inputs@.len() == old(self).inputs@.len(),
            forall|k: int|
                0 <= k < old(self).inputs@.len() ==> (#[trigger] final(self).inputs@[k]).0 == old(
                    self,
                ).inputs@[k].0,
            forall|k: int|
                0 <= k < old(self).inputs@.len() && (#[trigger] old(self).inputs@[k]).0
                    != handle.target ==> final(self).inputs@[k] == old(self).inputs@[k],
            forall|k: int|
                0 <= k < old(self).inputs@.len() && (#[trigger] old(self).inputs@[k]).0
                    == handle.target ==> {
                    let st0 = old(self).inputs@[k].1;
                    let st1 = final(self).inputs@[k].1;
                    &&& st1.live == st0.live
                    &&& st1.layout == st0.layout
                    &&& (!st0.live ==> st1 == st0)
                    &&& (st0.live ==> st1.set_pending_view(final(self).graph)
                        == st0.set_pending_view(old(self).graph) + handle.batch_view())
                },
    {
        let target = handle.target;
        let kidx = match self.find_input(target) {
            Some(k) => k,
            None => {
                proof {
                    assert(exists|kk: int|
                        0 <= kk < self.inputs@.len() && (#[trigger] self.inputs@[kk]).0
                            == target);
                    assert(false);
                }
                return ;
            },
        };
        if !self.inputs[kidx].1.live {
            return ;
        }
        let ghost pre = *self;
        let (id, mut st) = self.inputs.remove(kidx);
        let ghost st0 = st;
        let ghost tv = st.set_pending@;
        let mut batch = handle.batch;
        let ghost bv = batch@;
        st.set_pending.append(&mut batch);
        proof {
            assert(st.set_pending@ == tv + bv);
            let kl = st.layout->SetOf_0;
            let cols = self.graph.cache.layouts@[kl as int].cols@;
            let cn = self.graph.cache.natives@[kl as int];
            assert(node_wf(self.graph, target as int));
            assert(st.layout == node_output(self.graph, target as int));
            assert(cols == handle.row_layout.cols@);
            assert forall|j: int| 0 <= j < bv.len() implies (#[trigger] bv[j]).0.view_as(cols, cn)
                == bv[j].0.view_as(handle.row_layout.cols@, handle.native) && bv[j].0.wf(
                cols,
                cn,
            ) by {
                crate::row::lemma_view_as_equiv(bv[j].0, cols, cn, handle.native);
            }
            assert(st.set_pending_view(self.graph) =~= st0.set_pending_view(self.graph)
                + handle.batch_view());
            assert(st.wf(self.graph)) by {
                assert forall|j: int|
                    0 <= j < st.set_pending@.len() implies (#[trigger] st.set_pending@[j]).0.wf(
                    cols,
                    cn,
                ) by {
                    if j < tv.len() {
                        assert(st.set_pending@[j] == tv[j]);
                    } else {
                        assert(st.set_pending@[j] == bv[j - tv.len()]);
                    }
                }
            }
        }
        self.inputs.insert(kidx, (id, st));
        proof {
            assert(self.inputs@ =~= pre.inputs@.update(kidx as int, (id, st)));
            assert forall|k: int|
                0 <= k < self.inputs@.len() implies {
                let (id2, st2) = #[trigger] self.inputs@[k];
                &&& is_source(self.graph, id2 as int)
                &&& st2.layout == node_output(self.graph, id2 as int)
                &&& st2.wf(self.graph)
            } by {
                if k != kidx {
                    assert(self.inputs@[k] == pre.inputs@[k]);
                }
            }
            assert forall|k1: int, k2: int|
                0 <= k1 < k2 < self.inputs@.len() implies self.inputs@[k1].0
                < self.inputs@[k2].0 by {
                assert(self.inputs@[k1].0 == pre.inputs@[k1].0);
                assert(self.inputs@[k2].0 == pre.inputs@[k2].0);
            }
            assert forall|i2: int|
                is_source(self.graph, i2) implies exists|k: int|
                    0 <= k < self.inputs@.len() && (#[trigger] self.inputs@[k]).0 == i2 by {
                let k = choose|k: int|
                    0 <= k < pre.inputs@.len() && (#[trigger] pre.inputs@[k]).0 == i2;
                assert(self.inputs@[k].0 == pre.inputs@[k].0);
            }
        }
    }
}

/// An exact copy of a JSON demand.
pub fn clone_json_config(c: &JsonDeserConfig) -> (r: JsonDeserConfig)
    ensures
        r.layout == c.layout,
        r.mappings@.len() == c.mappings@.len(),
        forall|k: int|
            0 <= k < c.mappings@.len() ==> (#[trigger] r.mappings@[k]).0 == c.mappings@[k].0
                && r.mappings@[k].1@ == c.mappings@[k].1@,
{
    let n = c.mappings.len();
    let mut mappings: Vec<(usize, String)> = Vec::new();
    let mut i: usize = 0;
    while i < n
        invariant
            i <= n,
            n == c.mappings@.len(),
            mappings@.len() == i,
            forall|k: int|
                0 <= k < i ==> (#[trigger] mappings@[k]).0 == c.mappings@[k].0 && mappings@[k].1@
                    == c.mappings@[k].1@,
        decreases n - i,
    {
        mappings.push((c.mappings[i].0, c.mappings[i].1.clone()));
        i = i + 1;
    }
    JsonDeserConfig { layout: c.layout, mappings }
}

} // verus!

verus! {

/// Entry `p` of the batch holds the marshalled form of record `p`.
pub open spec fn batch_matches_records(
    batch: Seq<(Row, Weight)>,
    records: Seq<Vec<String>>,
    ms: Seq<(usize, usize, Option<String>)>,
    cols: Seq<(crate::layout::ColumnType, bool)>,
    native: NativeLayout,
) -> bool {
    forall|p: int|
        0 <= p < batch.len() ==> crate::csvdata::csv_literal_spec(
            crate::csvdata::records_view(records)[p],
            ms,
            cols,
            cols.len() as int,
        ) == Ok::<Seq<NullableConstantV>, IngestError>(
            (#[trigger] batch[p]).0.view_as(cols, native),
        )
}

/// Does the circuit hold a CSV demand for this layout?
pub open spec fn has_csv_demand(c: DbspCircuit, kl: crate::layout::LayoutId) -> bool {
    crate::demands::assoc_contains(c.csv_demands@, kl)
}

impl DbspCircuit {
    /// Splits header-less CSV text into records and appends one row of
    /// weight one per record to a set-typed source.  A malformed record
    /// fails the whole call before anything is ingested; a record that
    /// does not fit the layout fails after the preceding records were
    /// ingested.  An absent endpoint ingests nothing.
    #[verifier::loop_isolation(false)]
    pub fn append_csv_input(&mut self, target: NodeId, data: &[u8]) -> (r: Result<
        usize,
        IngestError,
    >)
        requires
            old(self).wf(),
            is_source(old(self).graph, target as int),
            node_output(old(self).graph, target as int) matches StreamLayout::SetOf(kl)
                ==> has_csv_demand(*old(self), kl),
        ensures
            final(self).wf(),
            final(self).graph == old(self).graph,
            final(self).tick == old(self).tick,
            final(self).outputs@ == old(self).outputs@,
            node_output(old(self).graph, target as int) is MapOf ==> r == Err::<usize, IngestError>(
                IngestError::NotImplemented,
            ),
            (node_output(old(self).graph, target as int) is SetOf && endpoint_live(
                *old(self),
                target as int,
            )) ==> {
                &&& ((r == Err::<usize, IngestError>(IngestError::Parse))
                    == (crate::csvdata::csv_records_of(data@) is None))
                &&& (r matches Ok(n) ==> crate::csvdata::csv_records_of(data@) matches Some(rs)
                    && n == rs.len())
            },
            node_output(old(self).graph, target as int) matches StreamLayout::SetOf(kl)
                ==> endpoint_live(*old(self), target as int) ==> (r matches Ok(n) ==> (
            crate::csvdata::csv_records_of(data@) matches Some(rs)
                && crate::demands::assoc_first(old(self).csv_demands@, kl) matches Some(ms) && (
            forall|k: int|
                0 <= k < old(self).inputs@.len() && (#[trigger] old(self).inputs@[k]).0 == target
                    ==> {
                    let v0 = old(self).inputs@[k].1.set_pending_view(old(self).graph);
                    let v1 = final(self).inputs@[k].1.set_pending_view(final(self).graph);
                    forall|j: int|
                        0 <= j < n ==> crate::csvdata::csv_literal_spec(
                            rs[j],
                            ms@,
                            old(self).graph.cache.layouts@[kl as int].cols@,
                            old(self).graph.cache.layouts@[kl as int].cols@.len() as int,
                        ) == Ok::<Seq<NullableConstantV>, IngestError>(
                            (#[trigger] v1[v0.len() + j]).0,
                        )
                }))),
            (node_output(old(self).graph, target as int) is SetOf && !endpoint_live(
                *old(self),
                target as int,
            )) ==> (r == Ok::<usize, IngestError>(0) && final(self).inputs@ == old(self).inputs@),
            (node_output(old(self).graph, target as int) is SetOf && endpoint_live(
                *old(self),
                target as int,
            )) ==> (r matches Err(e) ==> (e == IngestError::Parse || e == IngestError::MissingField
                || e == IngestError::BadValue)),
            node_output(old(self).graph, target as int) matches StreamLayout::SetOf(kl)
                ==> endpoint_live(*old(self), target as int) ==> (
            crate::csvdata::csv_records_of(data@) matches Some(rs)
                && crate::demands::assoc_first(old(self).csv_demands@, kl) matches Some(ms) && (
            forall|j: int|
                0 <= j < rs.len() ==> crate::csvdata::csv_literal_spec(
                    rs[j],
                    ms@,
                    old(self).graph.cache.layouts@[kl as int].cols@,
                    old(self).graph.cache.layouts@[kl as int].cols@.len() as int,
                ) is Ok) ==> r is Ok),
            r is Err ==> final(self).inputs@ == old(self).inputs@,
            final(self).inputs@.len() == old(self).inputs@.len(),
            forall|k: int|
                0 <= k < old(self).inputs@.len() ==> (#[trigger] final(self).inputs@[k]).0 == old(
                    self,
                ).inputs@[k].0,
            forall|k: int|
                0 <= k < old(self).inputs@.len() && (#[trigger] old(self).inputs@[k]).0 != target
                    ==> final(self).inputs@[k] == old(self).inputs@[k],
            r matches Ok(n) ==> forall|k: int|
                0 <= k < old(self).inputs@.len() && (#[trigger] old(self).inputs@[k]).0 == target
                    ==> {
                    let st0 = old(self).inputs@[k].1;
                    let st1 = final(self).inputs@[k].1;
                    let v0 = st0.set_pending_view(old(self).graph);
                    let v1 = st1.set_pending_view(final(self).graph);
                    &&& st1.live == st0.live
                    &&& st1.layout == st0.layout
                    &&& (!st0.live ==> st1 == st0 && n == 0)
                    &&& (st0.live ==> {
                        &&& v1.len() == v0.len() + n
                        &&& v1.subrange(0, v0.len() as int) == v0
                        &&& st0.layout matches StreamLayout::SetOf(kl) ==> forall|j: int|
                            v0.len() <= j < v1.len() ==> (#[trigger] v1[j]).1 == 1
                                && literal_wf(
                                v1[j].0,
                                old(self).graph.cache.layouts@[kl as int].cols@,
                            )
                    })
                },
    {
        let kidx = match self.find_input(target) {
            Some(k) => k,
            None => {
                proof {
                    assert(exists|kk: int|
                        0 <= kk < self.inputs@.len() && (#[trigger] self.inputs@[kk]).0
                            == target);
                    assert(false);
                }
                return Err(IngestError::Parse);
            },
        };
        let kl = match self.inputs[kidx].1.layout {
            StreamLayout::SetOf(x) => x,
            StreamLayout::MapOf(..) => {
                proof {
                    assert(self.inputs@[kidx as int].1.layout == node_output(
                        self.graph,
                        target as int,
                    ));
                }
                return Err(IngestError::NotImplemented);
            },
        };
        proof {
            assert(self.inputs@[kidx as int].1.layout == node_output(self.graph, target as int));
            assert(node_output(self.graph, target as int) is SetOf);
            lemma_unique_input_index(*self, target as int, kidx as int);
        }
        if !self.inputs[kidx].1.live {
            return Ok(0);
        }
        let records = match crate::csvdata::csv_parse_records(data) {
            Some(r) => r,
            None => {
                return Err(IngestError::Parse);
            },
        };
        let mapping = match crate::demands::assoc_find(&self.csv_demands, kl) {
            Some(m) => m,
            None => {
                proof {
                    assert(false);
                }
                return Err(IngestError::Parse);
            },
        };
        proof {
            assert(node_wf(self.graph, target as int));
        }
        // Marshal every record before touching the source.
        let layout = self.graph.cache.layout_of(kl);
        let native = self.graph.cache.native_of(kl);
        let n = records.len();
        let mut batch: Vec<(Row, Weight)> = Vec::new();
        let mut i: usize = 0;
        while i < n
            invariant
                i <= n,
                n == records@.len(),
                batch@.len() == i,
                graph_wf(self.graph),
                self.graph.cache.contains(kl),
                layout == &self.graph.cache.layouts@[kl as int],
                native == &self.graph.cache.natives@[kl as int],
                native.wf(layout.cols@),
                !has_ptr(layout.cols@),
                forall|p: int|
                    0 <= p < batch@.len() ==> (#[trigger] batch@[p]).0.wf(layout.cols@, *native)
                        && batch@[p].1 == 1i64 && literal_wf(
                        batch@[p].0.view_as(layout.cols@, *native),
                        layout.cols@,
                    ),
                batch_matches_records(batch@, records@, mapping@, layout.cols@, *native),
            decreases n - i,
        {
            let lit = match crate::csvdata::literal_from_csv(&records[i], mapping, layout) {
                Ok(l) => l,
                Err(e) => {
                    proof {
                        assert(crate::csvdata::records_view(records@)[i as int]
                            == crate::csvdata::fields_view(records@[i as int]@));
                        assert(crate::csvdata::csv_literal_spec(
                            crate::csvdata::records_view(records@)[i as int],
                            mapping@,
                            layout.cols@,
                            layout.cols@.len() as int,
                        ) == Err::<Seq<NullableConstantV>, IngestError>(e));
                    }
                    return Err(e);
                },
            };
            proof {
                assert(crate::csvdata::records_view(records@)[i as int]
                    == crate::csvdata::fields_view(records@[i as int]@));
                assert(crate::csvdata::csv_literal_spec(
                    crate::csvdata::fields_view(records@[i as int]@),
                    mapping@,
                    layout.cols@,
                    layout.cols@.len() as int,
                ) == Ok::<Seq<NullableConstantV>, IngestError>(lit@));
            }
            match row_from_literal(&lit, layout, native) {
                Ok(row) => {
                    let ghost pre_batch = batch@;
                    batch.push((row, 1));
                    proof {
                        assert(batch@[pre_batch.len() as int].0.view_as(layout.cols@, *native)
                            == lit@);
                        assert forall|p: int|
                            0 <= p < batch@.len() implies crate::csvdata::csv_literal_spec(
                            crate::csvdata::records_view(records@)[p],
                            mapping@,
                            layout.cols@,
                            layout.cols@.len() as int,
                        ) == Ok::<Seq<NullableConstantV>, IngestError>(
                            (#[trigger] batch@[p]).0.view_as(layout.cols@, *native),
                        ) by {
                            if p < pre_batch.len() {
                                assert(batch@[p] == pre_batch[p]);
                            } else {
                                assert(batch@[p].0.view_as(layout.cols@, *native) == lit@);
                            }
                        }
                    }
                },
                Err(_) => {
                    proof {
                        assert(false);
                    }
                },
            }
            i = i + 1;
        }
        proof {
            assert(node_output(self.graph, target as int) == StreamLayout::SetOf(kl));
        }
        let ingested = batch.len();
        let ghost pre = *self;
        let (id, mut st) = self.inputs.remove(kidx);
        let ghost st0 = st;
        let ghost tv = st.set_pending@;
        let mut b = batch;
        let ghost bv = b@;
        st.set_pending.append(&mut b);
        self.inputs.insert(kidx, (id, st));
        proof {
            assert(self.inputs@ =~= pre.inputs@.update(kidx as int, (id, st)));
            let v0 = st0.set_pending_view(pre.graph);
            let v1 = st.set_pending_view(self.graph);
            assert(st.set_pending@ == tv + bv);
            assert(v1.len() == v0.len() + ingested);
            assert(v1.subrange(0, v0.len() as int) =~= v0);
            assert forall|j: int|
                v0.len() <= j < v1.len() implies (#[trigger] v1[j]).1 == 1 && literal_wf(
                v1[j].0,
                self.graph.cache.layouts@[kl as int].cols@,
            ) && crate::csvdata::csv_literal_spec(
                crate::csvdata::records_view(records@)[j - v0.len()],
                mapping@,
                self.graph.cache.layouts@[kl as int].cols@,
                self.graph.cache.layouts@[kl as int].cols@.len() as int,
            ) == Ok::<Seq<NullableConstantV>, IngestError>(v1[j].0) by {
                assert(st.set_pending@[j] == bv[j - tv.len()]);
                assert(v1[j].0 == bv[j - tv.len()].0.view_as(
                    self.graph.cache.layouts@[kl as int].cols@,
                    self.graph.cache.natives@[kl as int],
                ));
            }
            assert forall|k: int|
                0 <= k < self.inputs@.len() implies {
                let (id2, st2) = #[trigger] self.inputs@[k];
                &&& is_source(self.graph, id2 as int)
                &&& st2.layout == node_output(self.graph, id2 as int)
                &&& st2.wf(self.graph)
            } by {
                if k != kidx {
                    assert(self.inputs@[k] == pre.inputs@[k]);
                } else {
                    assert forall|j: int|
                        0 <= j < st.set_pending@.len() implies (
                    #[trigger] st.set_pending@[j]).0.wf(
                        self.graph.cache.layouts@[kl as int].cols@,
                        self.graph.cache.natives@[kl as int],
                    ) by {
                        if j < pre.inputs@[kidx as int].1.set_pending@.len() {
                            assert(st.set_pending@[j] == pre.inputs@[kidx as int].1.set_pending@[j]);
                        }
                    }
                }
            }
            assert forall|k1: int, k2: int|
                0 <= k1 < k2 < self.inputs@.len() implies self.inputs@[k1].0
                < self.inputs@[k2].0 by {
                assert(self.inputs@[k1].0 == pre.inputs@[k1].0);
                assert(self.inputs@[k2].0 == pre.inputs@[k2].0);
            }
            assert forall|i2: int|
                is_source(self.graph, i2) implies exists|k: int|
                    0 <= k < self.inputs@.len() && (#[trigger] self.inputs@[k]).0 == i2 by {
                let k = choose|k: int|
                    0 <= k < pre.inputs@.len() && (#[trigger] pre.inputs@[k]).0 == i2;
                assert(self.inputs@[k].0 == pre.inputs@[k].0);
            }
            // Assemble the per-record content clause.
            let cols = pre.graph.cache.layouts@[kl as int].cols@;
            let cn = pre.graph.cache.natives@[kl as int];
            assert(cols == layout.cols@);
            assert(cn == *native);
            assert(batch_matches_records(bv, records@, mapping@, cols, cn));
            assert(crate::csvdata::csv_records_of(data@) == Some(
                crate::csvdata::records_view(records@),
            ));
            assert(crate::demands::assoc_first(pre.csv_demands@, kl) == Some(*mapping));
            assert forall|k: int|
                0 <= k < pre.inputs@.len() && (#[trigger] pre.inputs@[k]).0 == target implies {
                let v0x = pre.inputs@[k].1.set_pending_view(pre.graph);
                let v1x = self.inputs@[k].1.set_pending_view(self.graph);
                forall|j: int|
                    0 <= j < ingested ==> crate::csvdata::csv_literal_spec(
                        crate::csvdata::records_view(records@)[j],
                        mapping@,
                        cols,
                        cols.len() as int,
                    ) == Ok::<Seq<NullableConstantV>, IngestError>(
                        (#[trigger] v1x[v0x.len() + j]).0,
                    )
            } by {
                assert(k == kidx);
                let v0x = pre.inputs@[k].1.set_pending_view(pre.graph);
                let v1x = self.inputs@[k].1.set_pending_view(self.graph);
                assert(v0x == st0.set_pending_view(pre.graph));
                assert forall|j: int|
                    0 <= j < ingested implies crate::csvdata::csv_literal_spec(
                    crate::csvdata::records_view(records@)[j],
                    mapping@,
                    cols,
                    cols.len() as int,
                ) == Ok::<Seq<NullableConstantV>, IngestError>(
                    (#[trigger] v1x[v0x.len() + j]).0,
                ) by {
                    assert(st.set_pending@[v0x.len() + j] == bv[j]);
                    assert(v1x[v0x.len() + j].0 == bv[j].0.view_as(cols, cn));
                    assert(crate::csvdata::csv_literal_spec(
                        crate::csvdata::records_view(records@)[j],
                        mapping@,
                        cols,
                        cols.len() as int,
                    ) == Ok::<Seq<NullableConstantV>, IngestError>(bv[j].0.view_as(cols, cn)));
                }
            }
        }
        Ok(ingested)
    }
}

} // verus!
