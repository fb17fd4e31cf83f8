//! The dataflow graph a circuit runs: sources, constant streams,
//! equi-joins and sinks over weighted row multisets.
//!
//! A graph is consumed frozen: the circuit snapshots its sources and sinks
//! and validates it before compiling.  Validity pins each node's stream
//! layout, keeps edges pointing at earlier nodes (the graph is acyclic by
//! construction), keeps every layout inside the cache and free of `Ptr`
//! columns, and requires constant streams to carry well-formed literals.

use vstd::prelude::*;

use crate::layout::{ColumnType, LayoutCache, LayoutId, RowLayout};
use crate::literal::{
    check_literal, literal_wf, RowLiteral, StreamCollection, StreamLayout, Weight,
};
use crate::row::has_ptr;

verus! {

/// Identifier of a node inside one graph.
pub type NodeId = usize;

/// One dataflow node.
pub enum Node {
    /// An input relation fed from outside.
    Source(StreamLayout),
    /// A relation that emits a fixed batch at the first tick.
    ConstantStream { layout: StreamLayout, value: StreamCollection },
    /// An equi-join of two set streams on one column of each side; the
    /// output row is the left row followed by the right row.
    Join { left: NodeId, right: NodeId, left_key: usize, right_key: usize, output: LayoutId },
    /// An output relation observed from outside.
    Sink { input: NodeId, layout: StreamLayout },
}

/// A frozen dataflow graph plus its layout cache.
pub struct Graph {
    pub cache: LayoutCache,
    pub nodes: Vec<Node>,
}

/// Is the stream layout resolvable and free of `Ptr` columns?
pub open spec fn stream_layout_ok(cache: LayoutCache, sl: StreamLayout) -> bool {
    match sl {
        StreamLayout::SetOf(k) => cache.contains(k) && !has_ptr(cache.layouts@[k as int].cols@),
        StreamLayout::MapOf(k, v) => cache.contains(k) && cache.contains(v) && !has_ptr(
            cache.layouts@[k as int].cols@,
        ) && !has_ptr(cache.layouts@[v as int].cols@),
    }
}

/// The stream layout a node emits.
pub open spec fn node_output(g: Graph, i: int) -> StreamLayout {
    match g.nodes@[i] {
        Node::Source(sl) => sl,
        Node::ConstantStream { layout, .. } => layout,
        Node::Join { output, .. } => StreamLayout::SetOf(output),
        Node::Sink { layout, .. } => layout,
    }
}

/// A constant batch is well-formed for its declared stream layout.
pub open spec fn constant_value_wf(cache: LayoutCache, layout: StreamLayout, value: StreamCollection) -> bool {
    match (layout, value) {
        (StreamLayout::SetOf(k), StreamCollection::SetRows(rows)) => forall|j: int|
            0 <= j < rows@.len() ==> literal_wf(
                (#[trigger] rows@[j]).0@,
                cache.layouts@[k as int].cols@,
            ),
        (StreamLayout::MapOf(k, v), StreamCollection::MapRows(rows)) => forall|j: int|
            0 <= j < rows@.len() ==> literal_wf(
                (#[trigger] rows@[j]).0@,
                cache.layouts@[k as int].cols@,
            ) && literal_wf(rows@[j].1@, cache.layouts@[v as int].cols@),
        _ => false,
    }
}

/// Validity of one node.
pub open spec fn node_wf(g: Graph, i: int) -> bool {
    match g.nodes@[i] {
        Node::Source(sl) => stream_layout_ok(g.cache, sl),
        Node::ConstantStream { layout, value } => stream_layout_ok(g.cache, layout)
            && constant_value_wf(g.cache, layout, value),
        Node::Join { left, right, left_key, right_key, output } => {
            &&& left < i
            &&& right < i
            &&& node_output(g, left as int) matches StreamLayout::SetOf(ll) && left_key
                < g.cache.layouts@[ll as int].cols@.len()
            &&& node_output(g, right as int) matches StreamLayout::SetOf(lr) && right_key
                < g.cache.layouts@[lr as int].cols@.len()
            &&& stream_layout_ok(g.cache, node_output(g, left as int))
            &&& stream_layout_ok(g.cache, node_output(g, right as int))
            &&& g.cache.contains(output)
            &&& (node_output(g, left as int) matches StreamLayout::SetOf(ll) && node_output(
                g,
                right as int,
            ) matches StreamLayout::SetOf(lr) ==> g.cache.layouts@[output as int].cols@
                == g.cache.layouts@[ll as int].cols@ + g.cache.layouts@[lr as int].cols@)
            &&& !has_ptr(g.cache.layouts@[output as int].cols@)
        },
        Node::Sink { input, layout } => {
            &&& input < i
            &&& layout == node_output(g, input as int)
            &&& stream_layout_ok(g.cache, layout)
        },
    }
}

/// Validity of the whole graph.
pub open spec fn graph_wf(g: Graph) -> bool {
    &&& g.cache.wf()
    &&& forall|i: int| 0 <= i < g.nodes@.len() ==> node_wf(g, i)
}

/// Does the optimizer keep node `i` alive?  Constant streams with empty
/// batches are pruned, and everything strictly downstream of a pruned node
/// dies with it.
pub open spec fn live_node(g: Graph, i: int) -> bool
    decreases i,
{
    if 0 <= i < g.nodes@.len() {
        match g.nodes@[i] {
            Node::Source(_) => true,
            Node::ConstantStream { value, .. } => !collection_empty(value),
            Node::Join { left, right, .. } => left < i && right < i && live_node(g, left as int)
                && live_node(g, right as int),
            Node::Sink { input, .. } => input < i && live_node(g, input as int),
        }
    } else {
        false
    }
}

/// Is a batch empty?
pub open spec fn collection_empty(c: StreamCollection) -> bool {
    match c {
        StreamCollection::SetRows(v) => v@.len() == 0,
        StreamCollection::MapRows(v) => v@.len() == 0,
    }
}

/// Does data from source `s` reach node `i` through live operators only?
pub open spec fn feeds(g: Graph, i: int, s: int) -> bool
    decreases i,
{
    if 0 <= i < g.nodes@.len() {
        match g.nodes@[i] {
            Node::Source(_) => i == s,
            Node::ConstantStream { .. } => false,
            Node::Join { left, right, .. } => left < i && right < i && live_node(g, left as int)
                && live_node(g, right as int) && (feeds(g, left as int, s) || feeds(
                g,
                right as int,
                s,
            )),
            Node::Sink { input, .. } => input < i && feeds(g, input as int, s),
        }
    } else {
        false
    }
}

/// Does some sink observe data from source `s`?  A source no sink observes
/// is dropped by the optimizer.
pub open spec fn source_used(g: Graph, s: int) -> bool {
    exists|k: int|
        0 <= k < g.nodes@.len() && ((#[trigger] g.nodes@[k]) matches Node::Sink { .. } && feeds(
            g,
            k,
            s,
        ))
}

/// The builder-level success condition of an equi-join: both inputs are
/// earlier set-typed nodes, the key columns are in range, and the combined
/// schema fits the machine.
pub open spec fn join_inputs_ok(g: Graph, left: int, right: int, lk: int, rk: int) -> bool {
    &&& 0 <= left < g.nodes@.len()
    &&& 0 <= right < g.nodes@.len()
    &&& node_output(g, left) matches StreamLayout::SetOf(ll) && g.cache.contains(ll) && lk
        < g.cache.layouts@[ll as int].cols@.len()
    &&& node_output(g, right) matches StreamLayout::SetOf(lr) && g.cache.contains(lr) && rk
        < g.cache.layouts@[lr as int].cols@.len()
    &&& (node_output(g, left) matches StreamLayout::SetOf(ll) && node_output(
        g,
        right,
    ) matches StreamLayout::SetOf(lr) ==> {
        let combined = g.cache.layouts@[ll as int].cols@ + g.cache.layouts@[lr as int].cols@;
        &&& g.cache.layouts@[ll as int].cols@.len() + g.cache.layouts@[lr as int].cols@.len()
            <= usize::MAX
        &&& crate::layout::layout_fits(combined)
    })
}

impl Graph {
    pub fn new() -> (r: Graph)
        ensures
            r.cache.wf(),
            r.cache.layouts@.len() == 0,
            r.nodes@.len() == 0,
            graph_wf(r),
    {
        Graph { cache: LayoutCache::new(), nodes: Vec::new() }
    }

    /// Registers a row schema; `None` exactly on a schema too large for
    /// the machine.
    pub fn add_layout(&mut self, layout: RowLayout) -> (r: Option<LayoutId>)
        requires
            old(self).cache.wf(),
        ensures
            final(self).cache.wf(),
            (r is Some) == crate::layout::layout_fits(layout.cols@),
            final(self).nodes@ == old(self).nodes@,
            r matches Some(id) ==> final(self).cache.contains(id)
                && final(self).cache.layouts@[id as int].cols@ == layout.cols@
                && final(self).cache.layouts@ == old(self).cache.layouts@.push(layout),
            r is None ==> final(self).cache == old(self).cache,
    {
        self.cache.add(layout)
    }

    /// Declares a source node.
    pub fn source(&mut self, layout: StreamLayout) -> (r: NodeId)
        requires
            old(self).nodes@.len() < usize::MAX,
        ensures
            final(self).nodes@ == old(self).nodes@.push(Node::Source(layout)),
            final(self).cache == old(self).cache,
            r == old(self).nodes@.len(),
    {
        let id = self.nodes.len();
        self.nodes.push(Node::Source(layout));
        id
    }

    /// Declares a constant stream node.
    pub fn constant_stream(&mut self, layout: StreamLayout, value: StreamCollection) -> (r: NodeId)
        requires
            old(self).nodes@.len() < usize::MAX,
        ensures
            final(self).nodes@ == old(self).nodes@.push(
                Node::ConstantStream { layout, value },
            ),
            final(self).cache == old(self).cache,
            r == old(self).nodes@.len(),
    {
        let id = self.nodes.len();
        self.nodes.push(Node::ConstantStream { layout, value });
        id
    }

    /// Declares an equi-join node; the output layout is registered in the
    /// cache as the left schema followed by the right schema.  Returns
    /// `Some` exactly when both inputs are earlier set-typed nodes with
    /// in-range key columns and the combined schema fits the machine.
    pub fn join(
        &mut self,
        left: NodeId,
        right: NodeId,
        left_key: usize,
        right_key: usize,
    ) -> (r: Option<NodeId>)
        requires
            old(self).cache.wf(),
            old(self).nodes@.len() < usize::MAX,
        ensures
            final(self).cache.wf(),
            (r is Some) == join_inputs_ok(*old(self), left as int, right as int, left_key as int, right_key as int),
            r matches Some(id) ==> id == old(self).nodes@.len()
                && final(self).nodes@.len() == old(self).nodes@.len() + 1,
            r is None ==> *final(self) == *old(self),
    {
        if left >= self.nodes.len() || right >= self.nodes.len() {
            return None;
        }
        let ll = match self.output_of(left) {
            StreamLayout::SetOf(k) => k,
            StreamLayout::MapOf(..) => {
                return None;
            },
        };
        let lr = match self.output_of(right) {
            StreamLayout::SetOf(k) => k,
            StreamLayout::MapOf(..) => {
                return None;
            },
        };
        if ll >= self.cache.len() || lr >= self.cache.len() {
            return None;
        }
        let nl = self.cache.layout_of(ll).len();
        let nr = self.cache.layout_of(lr).len();
        if left_key >= nl || right_key >= nr {
            return None;
        }
        if nl > usize::MAX - nr {
            return None;
        }
        // The output schema: left columns, then right columns.
        let mut cols: Vec<(ColumnType, bool)> = Vec::new();
        let mut i: usize = 0;
        while i < nl
            invariant
                i <= nl,
                ll < self.cache.layouts@.len(),
                nl == self.cache.layouts@[ll as int].cols@.len(),
                cols@ == self.cache.layouts@[ll as int].cols@.subrange(0, i as int),
            decreases nl - i,
        {
            let c = self.cache.layout_of(ll).cols[i];
            cols.push(c);
            proof {
                assert(cols@ =~= self.cache.layouts@[ll as int].cols@.subrange(0, i as int + 1));
            }
            i = i + 1;
        }
        let mut j: usize = 0;
        while j < nr
            invariant
                j <= nr,
                ll < self.cache.layouts@.len(),
                lr < self.cache.layouts@.len(),
                nr == self.cache.layouts@[lr as int].cols@.len(),
                cols@ == self.cache.layouts@[ll as int].cols@ + self.cache.layouts@[
                    lr as int
                ].cols@.subrange(0, j as int),
            decreases nr - j,
        {
            let c = self.cache.layout_of(lr).cols[j];
            cols.push(c);
            proof {
                assert(cols@ =~= self.cache.layouts@[ll as int].cols@ + self.cache.layouts@[
                    lr as int
                ].cols@.subrange(0, j as int + 1));
            }
            j = j + 1;
        }
        proof {
            assert(self.cache.layouts@[ll as int].cols@ =~= self.cache.layouts@[
                ll as int
            ].cols@.subrange(0, nl as int));
            assert(self.cache.layouts@[lr as int].cols@ =~= self.cache.layouts@[
                lr as int
            ].cols@.subrange(0, nr as int));
        }
        let output = match self.cache.add(RowLayout { cols }) {
            Some(id) => id,
            None => {
                return None;
            },
        };
        let id = self.nodes.len();
        self.nodes.push(Node::Join { left, right, left_key, right_key, output });
        Some(id)
    }

    /// Declares a sink observing `input`.
    pub fn sink(&mut self, input: NodeId) -> (r: Option<NodeId>)
        requires
            old(self).nodes@.len() < usize::MAX,
        ensures
            final(self).cache == old(self).cache,
            (r is Some) == (input < old(self).nodes@.len()),
            r matches Some(id) ==> id == old(self).nodes@.len()
                && final(self).nodes@ == old(self).nodes@.push(
                Node::Sink { input, layout: node_output(*old(self), input as int) },
            ),
            r is None ==> *final(self) == *old(self),
    {
        if input >= self.nodes.len() {
            return None;
        }
        let layout = self.output_of(input);
        let id = self.nodes.len();
        self.nodes.push(Node::Sink { input, layout });
        Some(id)
    }

    /// The stream layout node `i` emits.
    pub fn output_of(&self, i: NodeId) -> (r: StreamLayout)
        requires
            i < self.nodes@.len(),
        ensures
            r == node_output(*self, i as int),
    {
        match &self.nodes[i] {
            Node::Source(sl) => *sl,
            Node::ConstantStream { layout, .. } => *layout,
            Node::Join { output, .. } => StreamLayout::SetOf(*output),
            Node::Sink { layout, .. } => *layout,
        }
    }

    /// The external validator: checks the whole graph against
    /// [`graph_wf`].
    pub fn validate(&self) -> (r: bool)
        ensures
            r == graph_wf(*self),
    {
        if !crate::layout::check_cache_wf(&self.cache) {
            return false;
        }
        let n = self.nodes.len();
        let mut i: usize = 0;
        while i < n
            invariant
                i <= n,
                n == self.nodes@.len(),
                self.cache.wf(),
                forall|k: int| 0 <= k < i ==> node_wf(*self, k),
            decreases n - i,
        {
            if !self.check_node(i) {
                return false;
            }
            i = i + 1;
        }
        true
    }

    /// Checks one stream layout against the cache.
    fn check_stream_layout(&self, sl: StreamLayout) -> (r: bool)
        ensures
            r == stream_layout_ok(self.cache, sl),
    {
        match sl {
            StreamLayout::SetOf(k) => k < self.cache.len() && !crate::row::layout_has_ptr(
                self.cache.layout_of(k),
            ),
            StreamLayout::MapOf(k, v) => k < self.cache.len() && v < self.cache.len()
                && !crate::row::layout_has_ptr(self.cache.layout_of(k))
                && !crate::row::layout_has_ptr(self.cache.layout_of(v)),
        }
    }

    #[verifier::loop_isolation(false)]
    fn check_node(&self, i: usize) -> (r: bool)
        requires
            self.cache.wf(),
            i < self.nodes@.len(),
        ensures
            r == node_wf(*self, i as int),
    {
        match &self.nodes[i] {
            Node::Source(sl) => self.check_stream_layout(*sl),
            Node::ConstantStream { layout, value } => {
                if !self.check_stream_layout(*layout) {
                    return false;
                }
                match (layout, value) {
                    (StreamLayout::SetOf(k), StreamCollection::SetRows(rows)) => {
                        let rl = self.cache.layout_of(*k);
                        let m = rows.len();
                        let mut j: usize = 0;
                        while j < m
                            invariant
                                j <= m,
                                m == rows@.len(),
                                k < self.cache.layouts@.len(),
                                rl == &self.cache.layouts@[k as int],
                                forall|p: int|
                                    0 <= p < j ==> literal_wf(
                                        (#[trigger] rows@[p]).0@,
                                        self.cache.layouts@[k as int].cols@,
                                    ),
                            decreases m - j,
                        {
                            if !check_literal(&rows[j].0, rl) {
                                return false;
                            }
                            j = j + 1;
                        }
                        true
                    },
                    (StreamLayout::MapOf(k, v), StreamCollection::MapRows(rows)) => {
                        let rk = self.cache.layout_of(*k);
                        let rv = self.cache.layout_of(*v);
                        let m = rows.len();
                        let mut j: usize = 0;
                        while j < m
                            invariant
                                j <= m,
                                m == rows@.len(),
                                k < self.cache.layouts@.len(),
                                v < self.cache.layouts@.len(),
                                rk == &self.cache.layouts@[k as int],
                                rv == &self.cache.layouts@[v as int],
                                forall|p: int|
                                    0 <= p < j ==> literal_wf(
                                        (#[trigger] rows@[p]).0@,
                                        self.cache.layouts@[k as int].cols@,
                                    ) && literal_wf(
                                        rows@[p].1@,
                                        self.cache.layouts@[v as int].cols@,
                                    ),
                            decreases m - j,
                        {
                            if !check_literal(&rows[j].0, rk) || !check_literal(&rows[j].1, rv) {
                                return false;
                            }
                            j = j + 1;
                        }
                        true
                    },
                    _ => false,
                }
            },
            Node::Join { left, right, left_key, right_key, output } => {
                if *left >= i || *right >= i {
                    return false;
                }
                let ll = match self.output_of(*left) {
                    StreamLayout::SetOf(k) => k,
                    StreamLayout::MapOf(..) => {
                        return false;
                    },
                };
                let lr = match self.output_of(*right) {
                    StreamLayout::SetOf(k) => k,
                    StreamLayout::MapOf(..) => {
                        return false;
                    },
                };
                if !self.check_stream_layout(StreamLayout::SetOf(ll))
                    || !self.check_stream_layout(StreamLayout::SetOf(lr)) {
                    return false;
                }
                if *left_key >= self.cache.layout_of(ll).len() || *right_key
                    >= self.cache.layout_of(lr).len() {
                    return false;
                }
                if *output >= self.cache.len() {
                    return false;
                }
                if crate::row::layout_has_ptr(self.cache.layout_of(*output)) {
                    return false;
                }
                // The output schema is the left schema followed by the
                // right schema.
                let co = self.cache.layout_of(*output);
                let cl = self.cache.layout_of(ll);
                let cr = self.cache.layout_of(lr);
                let nl = cl.len();
                let nr = cr.len();
                let nco = co.len();
                if nl > usize::MAX - nr {
                    // The combined schema cannot fit in one vector, so the
                    // stored output schema cannot equal it.
                    return false;
                }
                if nco != nl + nr {
                    return false;
                }
                let ghost target = self.cache.layouts@[ll as int].cols@ + self.cache.layouts@[
                    lr as int
                ].cols@;
                let mut p: usize = 0;
                while p < nl + nr
                    invariant
                        p <= nl + nr,
                        nl + nr <= usize::MAX,
                        ll < self.cache.layouts@.len(),
                        lr < self.cache.layouts@.len(),
                        output < self.cache.layouts@.len(),
                        co == &self.cache.layouts@[output as int],
                        cl == &self.cache.layouts@[ll as int],
                        cr == &self.cache.layouts@[lr as int],
                        nl == self.cache.layouts@[ll as int].cols@.len(),
                        nr == self.cache.layouts@[lr as int].cols@.len(),
                        co.cols@.len() == nl + nr,
                        target == self.cache.layouts@[ll as int].cols@ + self.cache.layouts@[
                            lr as int
                        ].cols@,
                        forall|q: int| 0 <= q < p ==> #[trigger] co.cols@[q] == target[q],
                    decreases nl + nr - p,
                {
                    let want = if p < nl {
                        cl.cols[p]
                    } else {
                        cr.cols[p - nl]
                    };
                    let got = co.cols[p];
                    if got.0 != want.0 || got.1 != want.1 {
                        proof {
                            assert(co.cols@[p as int] != target[p as int]);
                        }
                        return false;
                    }
                    p = p + 1;
                }
                proof {
                    assert(co.cols@ =~= target);
                }
                true
            },
            Node::Sink { input, layout } => {
                if *input >= i {
                    return false;
                }
                let expect = self.output_of(*input);
                *layout == expect && self.check_stream_layout(*layout)
            },
        }
    }
}

} // verus!
