//! A maximum-flow solver over a star graph.
//!
//! The solver augments along residual paths until none is left, then holds
//! the result against the flow laws before reporting it: a reported flow is
//! bounded by the arc capacities, conserved at every node but the source
//! and the sink, and its total is the source's net outflow.

use vstd::prelude::*;

use super::ebert_graph::ArcIndex;
use super::ebert_graph::FlowQuantity;
use super::ebert_graph::NodeIndex;
use super::ebert_graph::StarGraph;
use super::ebert_graph::StarGraphV;
use super::ebert_graph::graph_wf;

verus! {

/// Outcome of a maximum-flow solve.
#[derive(Clone, Copy, Debug, PartialEq, Eq, Structural, Hash)]
pub enum MaxFlowStatus {
    /// The problem was not solved, or its data were edited.
    NotSolved,
    /// A solve completed with a flow satisfying the flow laws, certified
    /// maximal: no augmenting path remains in its residual graph.
    Optimal,
    /// A total flow left the 64-bit range.
    IntOverflow,
    /// The input is inconsistent.
    BadInput,
    /// The solver produced a result failing the flow laws or the
    /// optimality certificate.
    BadResult,
}

/// Whether every arc's flow lies within `[0, capacity]`.
pub open spec fn flow_bounded(caps: Seq<i64>, flows: Seq<i64>) -> bool {
    forall|a: int| 0 <= a < flows.len() ==> 0 <= #[trigger] flows[a] && flows[a] <= caps[a]
}

/// Net outflow of node `n` over the arcs below `k`: flow leaving on arcs
/// tailed at `n` minus flow arriving on arcs headed at `n`.
pub open spec fn net_prefix(g: StarGraphV, flows: Seq<i64>, n: int, k: int) -> int
    decreases k,
{
    if k <= 0 {
        0
    } else {
        net_prefix(g, flows, n, k - 1) + (if g.tails[k - 1] as int == n {
            flows[k - 1] as int
        } else {
            0
        }) - (if g.heads[k - 1] as int == n {
            flows[k - 1] as int
        } else {
            0
        })
    }
}

/// Net outflow of node `n` over the whole graph.
pub open spec fn net_outflow(g: StarGraphV, flows: Seq<i64>, n: int) -> int {
    net_prefix(g, flows, n, flows.len() as int)
}

/// Whether the flow is conserved at every node but `source` and `sink`.
pub open spec fn flow_conserved(g: StarGraphV, flows: Seq<i64>, source: int, sink: int) -> bool {
    forall|n: int|
        0 <= n < g.max_num_nodes && n != source && n != sink ==> #[trigger] net_outflow(
            g,
            flows,
            n,
        ) == 0
}


/// Whether arc `a` gives a residual step from `x` to `y` under `flows`: a
/// forward arc with spare capacity, or a backward arc carrying flow.
pub open spec fn residual_edge_via(
    g: StarGraphV,
    caps: Seq<i64>,
    flows: Seq<i64>,
    a: int,
    x: int,
    y: int,
) -> bool {
    &&& 0 <= a < flows.len()
    &&& ((g.tails[a] as int == x && g.heads[a] as int == y && flows[a] < caps[a]) || (
    g.heads[a] as int == x && g.tails[a] as int == y && flows[a] > 0))
}

/// Whether the residual graph of `flows` has a step from `x` to `y`.
pub open spec fn residual_edge(
    g: StarGraphV,
    caps: Seq<i64>,
    flows: Seq<i64>,
    x: int,
    y: int,
) -> bool {
    exists|a: int| #[trigger] residual_edge_via(g, caps, flows, a, x, y)
}

/// Whether `x` is reachable from `src` in the residual graph of `flows`
/// within `k` steps.
pub open spec fn residual_reach(
    g: StarGraphV,
    caps: Seq<i64>,
    flows: Seq<i64>,
    src: int,
    x: int,
    k: nat,
) -> bool
    decreases k,
{
    if x == src {
        true
    } else if k == 0 {
        false
    } else {
        exists|y: int|
            residual_reach(g, caps, flows, src, y, (k - 1) as nat) && #[trigger] residual_edge(
                g,
                caps,
                flows,
                y,
                x,
            )
    }
}

/// Whether the residual graph of `flows` still has an augmenting path from
/// `src` to `sink`; a flow without one is a maximum flow.
pub open spec fn has_augmenting_path(
    g: StarGraphV,
    caps: Seq<i64>,
    flows: Seq<i64>,
    src: int,
    sink: int,
) -> bool {
    exists|k: int|
        0 <= k <= g.max_num_nodes && #[trigger] residual_reach(
            g,
            caps,
            flows,
            src,
            sink,
            k as nat,
        )
}

/// Residual reachability within `k` steps implies reachability within
/// `k + 1` steps.
proof fn lemma_reach_monotone(
    g: StarGraphV,
    caps: Seq<i64>,
    flows: Seq<i64>,
    src: int,
    x: int,
    k: nat,
)
    requires
        residual_reach(g, caps, flows, src, x, k),
    ensures
        residual_reach(g, caps, flows, src, x, (k + 1) as nat),
    decreases k,
{
    if x != src && k > 0 {
        let y = choose|y: int|
            residual_reach(g, caps, flows, src, y, (k - 1) as nat) && #[trigger] residual_edge(
                g,
                caps,
                flows,
                y,
                x,
            );
        lemma_reach_monotone(g, caps, flows, src, y, (k - 1) as nat);
        assert(residual_reach(g, caps, flows, src, y, k) && residual_edge(g, caps, flows, y, x));
    }
}

/// How many entries of a table are set.
spec fn count_true(s: Seq<bool>) -> int
    decreases s.len(),
{
    if s.len() == 0 {
        0
    } else {
        count_true(s.drop_last()) + if s.last() {
            1int
        } else {
            0int
        }
    }
}

/// Setting an unset entry raises the count by one.
proof fn lemma_count_true_update(s: Seq<bool>, i: int)
    requires
        0 <= i < s.len(),
        !s[i],
    ensures
        count_true(s.update(i, true)) == count_true(s) + 1,
    decreases s.len(),
{
    let u = s.update(i, true);
    if i == s.len() - 1 {
        assert(u.drop_last() =~= s.drop_last());
    } else {
        assert(u.drop_last() =~= s.drop_last().update(i, true));
        lemma_count_true_update(s.drop_last(), i);
    }
}

/// The count never exceeds the table's length.
proof fn lemma_count_true_bound(s: Seq<bool>)
    ensures
        0 <= count_true(s) <= s.len(),
    decreases s.len(),
{
    if s.len() > 0 {
        lemma_count_true_bound(s.drop_last());
    }
}

/// A full count means every entry is set.
proof fn lemma_count_true_full(s: Seq<bool>, i: int)
    requires
        count_true(s) == s.len(),
        0 <= i < s.len(),
    ensures
        s[i],
    decreases s.len(),
{
    lemma_count_true_bound(s.drop_last());
    if i < s.len() - 1 {
        lemma_count_true_full(s.drop_last(), i);
    }
}


/// Net outflow over the arcs below `k`, summed over the marked nodes below
/// `nn`.
spec fn masked_net_prefix(g: StarGraphV, flows: Seq<i64>, r: Seq<bool>, k: int, nn: int) -> int
    decreases nn,
{
    if nn <= 0 {
        0
    } else {
        masked_net_prefix(g, flows, r, k, nn - 1) + if r[nn - 1] {
            net_prefix(g, flows, nn - 1, k)
        } else {
            0
        }
    }
}

/// Contribution of arc `a` to the flow across the marked set's boundary.
spec fn cut_term(g: StarGraphV, flows: Seq<i64>, r: Seq<bool>, a: int) -> int {
    (if r[g.tails[a] as int] {
        flows[a] as int
    } else {
        0
    }) - (if r[g.heads[a] as int] {
        flows[a] as int
    } else {
        0
    })
}

/// Flow across the marked set's boundary, over the arcs below `k`.
spec fn cut_prefix(g: StarGraphV, flows: Seq<i64>, r: Seq<bool>, k: int) -> int
    decreases k,
{
    if k <= 0 {
        0
    } else {
        cut_prefix(g, flows, r, k - 1) + cut_term(g, flows, r, k - 1)
    }
}

/// Extending the masked node sums by one arc adds that arc's cut term.
proof fn lemma_masked_net_prefix_step(
    g: StarGraphV,
    flows: Seq<i64>,
    r: Seq<bool>,
    k: int,
    nn: int,
)
    requires
        1 <= k <= flows.len(),
        flows.len() <= g.tails.len(),
        g.tails.len() == g.heads.len(),
    ensures
        masked_net_prefix(g, flows, r, k, nn) == masked_net_prefix(g, flows, r, k - 1, nn) + (if 0
            <= (g.tails[k - 1] as int) && (g.tails[k - 1] as int) < nn && r[g.tails[k - 1] as int] {
            flows[k - 1] as int
        } else {
            0
        }) - (if 0 <= (g.heads[k - 1] as int) && (g.heads[k - 1] as int) < nn && r[g.heads[k
            - 1] as int] {
            flows[k - 1] as int
        } else {
            0
        }),
    decreases nn,
{
    if nn > 0 {
        lemma_masked_net_prefix_step(g, flows, r, k, nn - 1);
    }
}

/// With no arcs taken, the masked node sums vanish.
proof fn lemma_masked_net_prefix_empty(g: StarGraphV, flows: Seq<i64>, r: Seq<bool>, nn: int)
    ensures
        masked_net_prefix(g, flows, r, 0, nn) == 0,
    decreases nn,
{
    if nn > 0 {
        lemma_masked_net_prefix_empty(g, flows, r, nn - 1);
    }
}

/// The marked nodes' net outflows sum to the flow across the marked set's
/// boundary.
proof fn lemma_masked_net_is_cut(g: StarGraphV, flows: Seq<i64>, r: Seq<bool>, k: int)
    requires
        graph_wf(g),
        0 <= k <= flows.len(),
        flows.len() <= g.tails.len(),
    ensures
        masked_net_prefix(g, flows, r, k, g.max_num_nodes) == cut_prefix(g, flows, r, k),
    decreases k,
{
    if k <= 0 {
        lemma_masked_net_prefix_empty(g, flows, r, g.max_num_nodes);
    } else {
        lemma_masked_net_is_cut(g, flows, r, k - 1);
        lemma_masked_net_prefix_step(g, flows, r, k, g.max_num_nodes);
    }
}

/// For a flow conserved everywhere but at the source and the sink, the
/// marked nodes' net outflows reduce to the source's, when the source is
/// marked and the sink is not.
proof fn lemma_masked_net_is_source_net(
    g: StarGraphV,
    flows: Seq<i64>,
    r: Seq<bool>,
    source: int,
    sink: int,
    nn: int,
)
    requires
        0 <= source < g.max_num_nodes,
        r[source],
        !r[sink],
        nn <= g.max_num_nodes,
        flow_conserved(g, flows, source, sink),
    ensures
        masked_net_prefix(g, flows, r, flows.len() as int, nn) == if source < nn {
            net_outflow(g, flows, source)
        } else {
            0
        },
    decreases nn,
{
    if nn > 0 {
        lemma_masked_net_is_source_net(g, flows, r, source, sink, nn - 1);
        if nn - 1 != source && r[nn - 1] {
            assert(net_outflow(g, flows, nn - 1) == 0);
        }
    }
}

/// Across a residually closed marked set, no bounded conserved flow moves
/// more than the certified flow: every outgoing boundary arc of the
/// certified flow is saturated and every incoming one is empty.
proof fn lemma_cut_dominates(
    g: StarGraphV,
    caps: Seq<i64>,
    flows: Seq<i64>,
    other: Seq<i64>,
    r: Seq<bool>,
    k: int,
)
    requires
        graph_wf(g),
        flows.len() == caps.len(),
        other.len() == caps.len(),
        caps.len() == g.tails.len(),
        r.len() == g.max_num_nodes,
        flow_bounded(caps, flows),
        flow_bounded(caps, other),
        forall|x: int, y: int|
            0 <= x < r.len() && 0 <= y < r.len() && r[x] && #[trigger] residual_edge(
                g,
                caps,
                flows,
                x,
                y,
            ) ==> r[y],
        0 <= k <= caps.len(),
    ensures
        cut_prefix(g, other, r, k) <= cut_prefix(g, flows, r, k),
    decreases k,
{
    if k > 0 {
        lemma_cut_dominates(g, caps, flows, other, r, k - 1);
        let a = k - 1;
        let t = g.tails[a] as int;
        let h = g.heads[a] as int;
        if r[t] && !r[h] {
            if flows[a] < caps[a] {
                assert(residual_edge_via(g, caps, flows, a, t, h));
                assert(residual_edge(g, caps, flows, t, h));
            }
            assert(flows[a] == caps[a]);
        }
        if !r[t] && r[h] {
            if flows[a] > 0 {
                assert(residual_edge_via(g, caps, flows, a, h, t));
                assert(residual_edge(g, caps, flows, h, t));
            }
            assert(flows[a] == 0);
        }
    }
}

/// A feasible flow whose residual graph is closed over a marked set
/// holding the source but not the sink is a maximum flow: no bounded
/// conserved flow has a larger source net outflow.
proof fn lemma_certified_flow_is_maximum(
    g: StarGraphV,
    caps: Seq<i64>,
    flows: Seq<i64>,
    other: Seq<i64>,
    r: Seq<bool>,
    source: int,
    sink: int,
)
    requires
        graph_wf(g),
        flows.len() == caps.len(),
        other.len() == caps.len(),
        caps.len() == g.tails.len(),
        r.len() == g.max_num_nodes,
        0 <= source < g.max_num_nodes,
        r[source],
        !r[sink],
        flow_bounded(caps, flows),
        flow_conserved(g, flows, source, sink),
        flow_bounded(caps, other),
        flow_conserved(g, other, source, sink),
        forall|x: int, y: int|
            0 <= x < r.len() && 0 <= y < r.len() && r[x] && #[trigger] residual_edge(
                g,
                caps,
                flows,
                x,
                y,
            ) ==> r[y],
    ensures
        net_outflow(g, other, source) <= net_outflow(g, flows, source),
{
    lemma_masked_net_is_source_net(g, flows, r, source, sink, g.max_num_nodes);
    lemma_masked_net_is_cut(g, flows, r, flows.len() as int);
    lemma_masked_net_is_source_net(g, other, r, source, sink, g.max_num_nodes);
    lemma_masked_net_is_cut(g, other, r, other.len() as int);
    lemma_cut_dominates(g, caps, flows, other, r, caps.len() as int);
}

/// A maximum-flow problem over a star graph, between a source and a sink.
pub struct MaxFlow {
    graph: StarGraph,
    source: NodeIndex,
    sink: NodeIndex,
    capacities: Vec<i64>,
    flows: Vec<i64>,
    status: MaxFlowStatus,
}

/// The mathematical content of a maximum-flow problem.
pub struct MaxFlowV {
    /// The graph the flow lives on.
    pub graph: StarGraphV,
    /// The node the flow leaves from.
    pub source: int,
    /// The node the flow arrives at.
    pub sink: int,
    /// Per-arc capacity.
    pub capacities: Seq<i64>,
    /// Per-arc flow of the last solve.
    pub flows: Seq<i64>,
    /// Outcome of the last solve.
    pub status: MaxFlowStatus,
}

impl View for MaxFlow {
    type V = MaxFlowV;

    closed spec fn view(&self) -> MaxFlowV {
        MaxFlowV {
            graph: self.graph@,
            source: self.source as int,
            sink: self.sink as int,
            capacities: self.capacities@,
            flows: self.flows@,
            status: self.status,
        }
    }
}

/// Well-formedness of a maximum-flow problem: a well-formed graph, one
/// capacity and one flow per arc, and non-negative capacities.
pub open spec fn max_flow_wf(m: MaxFlowV) -> bool {
    &&& graph_wf(m.graph)
    &&& m.capacities.len() == m.graph.tails.len()
    &&& m.flows.len() == m.graph.tails.len()
    &&& forall|a: int| 0 <= a < m.capacities.len() ==> #[trigger] m.capacities[a] >= 0
}

/// The result of a successful maximum-flow solve.
pub struct MaxFlowOutput {
    status: MaxFlowStatus,
    optimal_flow: i64,
    capacities: Vec<i64>,
    flows: Vec<i64>,
}

/// The mathematical content of a maximum-flow result.
pub struct MaxFlowOutputV {
    /// Outcome of the solve.
    pub status: MaxFlowStatus,
    /// Total flow from the source to the sink.
    pub optimal_flow: i64,
    /// Per-arc capacity at solve time.
    pub capacities: Seq<i64>,
    /// Per-arc flow found by the solve.
    pub flows: Seq<i64>,
}

impl View for MaxFlowOutput {
    type V = MaxFlowOutputV;

    closed spec fn view(&self) -> MaxFlowOutputV {
        MaxFlowOutputV {
            status: self.status,
            optimal_flow: self.optimal_flow,
            capacities: self.capacities@,
            flows: self.flows@,
        }
    }
}

impl MaxFlowOutput {
    /// Returns the total flow found by the algorithm.
    pub fn get_optimal_flow(&self) -> (r: FlowQuantity)
        ensures
            r == self@.optimal_flow,
    {
        self.optimal_flow
    }

    /// Returns the flow on the given arc, or `None` for an arc outside the
    /// graph.
    pub fn flow(&self, arc: ArcIndex) -> (r: Option<FlowQuantity>)
        ensures
            r is Some <==> (arc as int) < self@.flows.len(),
            r matches Some(f) ==> f == self@.flows[arc as int],
    {
        if (arc as usize) < self.flows.len() {
            Some(self.flows[arc as usize])
        } else {
            None
        }
    }

    /// Returns the capacity of the given arc, or `None` for an arc outside
    /// the graph.
    pub fn capacity(&self, arc: ArcIndex) -> (r: Option<FlowQuantity>)
        ensures
            r is Some <==> (arc as int) < self@.capacities.len(),
            r matches Some(c) ==> c == self@.capacities[arc as int],
    {
        if (arc as usize) < self.capacities.len() {
            Some(self.capacities[arc as usize])
        } else {
            None
        }
    }

    /// Returns the status of the solve that produced this output.
    pub fn status(&self) -> (r: MaxFlowStatus)
        ensures
            r == self@.status,
    {
        self.status
    }
}

impl MaxFlow {
    /// Creates a maximum-flow problem from `source` to `target` over a copy
    /// of `graph`, with all capacities zero.
    pub fn new(graph: &StarGraph, source: NodeIndex, target: NodeIndex) -> (r: MaxFlow)
        requires
            graph_wf(graph@),
        ensures
            max_flow_wf(r@),
            r@.graph == graph@,
            r@.source == source as int,
            r@.sink == target as int,
            r@.status == MaxFlowStatus::NotSolved,
            forall|a: int| 0 <= a < r@.capacities.len() ==> #[trigger] r@.capacities[a] == 0,
    {
        let g = graph.clone();
        let m = g.num_arcs() as usize;
        let mut capacities: Vec<i64> = Vec::new();
        let mut flows: Vec<i64> = Vec::new();
        let mut k: usize = 0;
        while k < m
            invariant
                capacities@.len() == k,
                flows@.len() == k,
                k <= m,
                forall|a: int| 0 <= a < k ==> #[trigger] capacities@[a] == 0,
            decreases m - k,
        {
            capacities.push(0);
            flows.push(0);
            k += 1;
        }
        MaxFlow { graph: g, source, sink: target, capacities, flows, status: MaxFlowStatus::NotSolved }
    }

    /// Change the capacity of an arc; ignored for an arc outside the graph
    /// or a negative capacity. Any previous solve result is invalidated.
    pub fn set_arc_capacity(&mut self, arc: ArcIndex, capacity: FlowQuantity)
        requires
            max_flow_wf(old(self)@),
        ensures
            max_flow_wf(final(self)@),
            ((arc as int) < old(self)@.capacities.len() && capacity >= 0) ==> final(self)@ == (
            MaxFlowV {
                capacities: old(self)@.capacities.update(arc as int, capacity),
                status: MaxFlowStatus::NotSolved,
                ..old(self)@
            }),
            !((arc as int) < old(self)@.capacities.len() && capacity >= 0) ==> final(self)@ == old(
                self,
            )@,
    {
        if (arc as usize) < self.capacities.len() && capacity >= 0 {
            self.capacities.set(arc as usize, capacity);
            self.status = MaxFlowStatus::NotSolved;
        }
    }

    /// Sets the flow for an arc, as a warm start for the next solve;
    /// ignored for an arc outside the graph or a negative flow. Any
    /// previous solve result is invalidated.
    pub fn set_arc_flow(&mut self, arc: ArcIndex, flow: FlowQuantity)
        requires
            max_flow_wf(old(self)@),
        ensures
            max_flow_wf(final(self)@),
            ((arc as int) < old(self)@.flows.len() && flow >= 0) ==> final(self)@ == (MaxFlowV {
                flows: old(self)@.flows.update(arc as int, flow),
                status: MaxFlowStatus::NotSolved,
                ..old(self)@
            }),
            !((arc as int) < old(self)@.flows.len() && flow >= 0) ==> final(self)@ == old(self)@,
    {
        if (arc as usize) < self.flows.len() && flow >= 0 {
            self.flows.set(arc as usize, flow);
            self.status = MaxFlowStatus::NotSolved;
        }
    }

    /// Decides whether `flows` satisfies the flow laws of this problem with
    /// total `total`: every arc within capacity, conservation everywhere
    /// but at the source and the sink, and `total` the source's net
    /// outflow.
    pub fn is_feasible_flow(&self, flows: &Vec<i64>, total: i64) -> (r: bool)
        requires
            max_flow_wf(self@),
            flows@.len() == self@.flows.len(),
        ensures
            r == (flow_bounded(self@.capacities, flows@) && flow_conserved(
                self@.graph,
                flows@,
                self@.source,
                self@.sink,
            ) && total as int == net_outflow(self@.graph, flows@, self@.source)),
    {
        let m = self.capacities.len();
        let n = self.graph.num_nodes() as usize;
        let mut a: usize = 0;
        while a < m
            invariant
                max_flow_wf(self@),
                flows@.len() == self@.flows.len(),
                m == self@.capacities.len(),
                a <= m,
                forall|a2: int| 0 <= a2 < a ==> 0 <= #[trigger] flows@[a2] && flows@[a2]
                    <= self@.capacities[a2],
            decreases m - a,
        {
            if flows[a] < 0 || flows[a] > self.capacities[a] {
                return false;
            }
            a += 1;
        }
        let mut node: usize = 0;
        while node < n
            invariant
                max_flow_wf(self@),
                flows@.len() == self@.flows.len(),
                m == self@.capacities.len(),
                n == self@.graph.max_num_nodes,
                flow_bounded(self@.capacities, flows@),
                node <= n,
                forall|n2: int|
                    0 <= n2 < node && n2 != self@.source && n2 != self@.sink ==> #[trigger] net_outflow(
                        self@.graph,
                        flows@,
                        n2,
                    ) == 0,
                self@.source < node ==> total as int == net_outflow(
                    self@.graph,
                    flows@,
                    self@.source,
                ),
            decreases n - node,
        {
            let net = self.net_outflow_at(flows, node as u32);
            if node as u32 == self.source {
                if net != total as i128 {
                    return false;
                }
            } else if node as u32 != self.sink {
                if net != 0 {
                    return false;
                }
            }
            node += 1;
        }
        if self.source as usize >= n {
            // A source outside the node range moves no flow.
            proof {
                lemma_net_prefix_out_of_range(
                    self@.graph,
                    flows@,
                    self@.source,
                    flows@.len() as int,
                );
            }
            if total != 0 {
                return false;
            }
        }
        true
    }

    /// Computes the net outflow of one node under a candidate flow.
    fn net_outflow_at(&self, flows: &Vec<i64>, node: u32) -> (r: i128)
        requires
            max_flow_wf(self@),
            flows@.len() == self@.flows.len(),
        ensures
            r as int == net_outflow(self@.graph, flows@, node as int),
    {
        let m = self.capacities.len();
        let mut acc: i128 = 0;
        let mut a: usize = 0;
        while a < m
            invariant
                max_flow_wf(self@),
                flows@.len() == self@.flows.len(),
                m == self@.capacities.len(),
                a <= m,
                acc as int == net_prefix(self@.graph, flows@, node as int, a as int),
                -(a as int) * 0x1_0000_0000_0000_0000 <= acc as int,
                acc as int <= (a as int) * 0x1_0000_0000_0000_0000,
            decreases m - a,
        {
            let t = self.graph.tail(a as u32).unwrap();
            let h = self.graph.head(a as u32).unwrap();
            if t == node {
                acc = acc + flows[a] as i128;
            }
            if h == node {
                acc = acc - flows[a] as i128;
            }
            a += 1;
        }
        acc
    }


    /// Searches the residual graph of `flows` from the source, marking
    /// exactly the nodes reachable within the node count and recording one
    /// predecessor arc per marked node: `2 * arc` forward, `2 * arc + 1`
    /// backward, `-1` at the source, `-2` elsewhere.
    fn residual_search(&self, flows: &Vec<i64>) -> (r: (Vec<bool>, Vec<i64>))
        requires
            max_flow_wf(self@),
            flows@.len() == self@.flows.len(),
            self@.source < self@.graph.max_num_nodes,
        ensures
            r.0@.len() == self@.graph.max_num_nodes,
            r.1@.len() == self@.graph.max_num_nodes,
            forall|x: int|
                0 <= x < r.0@.len() ==> ((#[trigger] r.0@[x]) <==> exists|k: int|
                    0 <= k <= self@.graph.max_num_nodes && #[trigger] residual_reach(
                        self@.graph,
                        self@.capacities,
                        flows@,
                        self@.source,
                        x,
                        k as nat,
                    )),
            r.0@[self@.source as int],
            forall|x: int, y: int|
                0 <= x < r.0@.len() && 0 <= y < r.0@.len() && r.0@[x] && #[trigger] residual_edge(
                    self@.graph,
                    self@.capacities,
                    flows@,
                    x,
                    y,
                ) ==> r.0@[y],
    {
        let ghost g = self@.graph;
        let ghost caps = self@.capacities;
        let ghost src = self@.source;
        let n = self.graph.num_nodes() as usize;
        let m = self.capacities.len();
        let mut marked: Vec<bool> = Vec::new();
        let mut pred: Vec<i64> = Vec::new();
        let mut k: usize = 0;
        while k < n
            invariant
                marked@.len() == k,
                pred@.len() == k,
                k <= n,
                count_true(marked@) == 0,
                forall|x: int| 0 <= x < k ==> !(#[trigger] marked@[x]),
            decreases n - k,
        {
            let ghost pre = marked@;
            marked.push(false);
            pred.push(-2);
            proof {
                assert(marked@.drop_last() =~= pre);
            }
            k += 1;
        }
        let ghost pre = marked@;
        marked.set(self.source as usize, true);
        pred.set(self.source as usize, -1);
        let mut count: usize = 1;
        proof {
            lemma_count_true_update(pre, src as int);
        }
        let mut round: usize = 0;
        while round < n
            invariant
                max_flow_wf(self@),
                flows@.len() == self@.flows.len(),
                g == self@.graph,
                caps == self@.capacities,
                src == self@.source,
                n == g.max_num_nodes,
                m == self@.capacities.len(),
                marked@.len() == n,
                pred@.len() == n,
                src < n,
                marked@[src as int],
                round <= n,
                1 <= count,
                count as int == count_true(marked@),
                forall|x: int|
                    0 <= x < n && #[trigger] marked@[x] ==> residual_reach(
                        g,
                        caps,
                        flows@,
                        src,
                        x,
                        count as nat,
                    ),
                forall|x: int, k2: int|
                    0 <= x < n && 0 <= k2 <= round && #[trigger] residual_reach(
                        g,
                        caps,
                        flows@,
                        src,
                        x,
                        k2 as nat,
                    ) ==> marked@[x],
            decreases n - round,
        {
            let ghost start = marked@;
            let mut a: usize = 0;
            while a < m
                invariant
                    max_flow_wf(self@),
                    flows@.len() == self@.flows.len(),
                    g == self@.graph,
                    caps == self@.capacities,
                    src == self@.source,
                    n == g.max_num_nodes,
                    m == self@.capacities.len(),
                    marked@.len() == n,
                    pred@.len() == n,
                    start.len() == n,
                    src < n,
                    marked@[src as int],
                    round < n,
                    a <= m,
                    1 <= count,
                    count as int == count_true(marked@),
                    forall|x: int| 0 <= x < n && #[trigger] start[x] ==> marked@[x],
                    forall|x: int|
                        0 <= x < n && #[trigger] marked@[x] ==> residual_reach(
                            g,
                            caps,
                            flows@,
                            src,
                            x,
                            count as nat,
                        ),
                    forall|x: int, k2: int|
                        0 <= x < n && 0 <= k2 <= round && #[trigger] residual_reach(
                            g,
                            caps,
                            flows@,
                            src,
                            x,
                            k2 as nat,
                        ) ==> start[x],
                    forall|x: int, y: int, a2: int|
                        0 <= x < n && 0 <= y < n && 0 <= a2 < a && start[y]
                            && #[trigger] residual_edge_via(g, caps, flows@, a2, y, x)
                            ==> marked@[x],
                decreases m - a,
            {
                let t = self.graph.tail(a as u32).unwrap() as usize;
                let h = self.graph.head(a as u32).unwrap() as usize;
                if marked[t] && !marked[h] && flows[a] < self.capacities[a] {
                    let ghost pre2 = marked@;
                    marked.set(h, true);
                    pred.set(h, 2 * (a as i64));
                    proof {
                        lemma_count_true_update(pre2, h as int);
                        lemma_count_true_bound(marked@);
                        assert(residual_edge_via(g, caps, flows@, a as int, t as int, h as int));
                        assert(residual_edge(g, caps, flows@, t as int, h as int));
                        assert(((t as int) < n) && pre2[t as int]);
                        assert(residual_reach(g, caps, flows@, src, t as int, count as nat));
                        assert(h as int != src as int);
                        assert(residual_reach(
                            g,
                            caps,
                            flows@,
                            src,
                            h as int,
                            (count + 1) as nat,
                        ));
                        assert forall|x: int| 0 <= x < n && #[trigger] marked@[x] implies residual_reach(
                            g,
                            caps,
                            flows@,
                            src,
                            x,
                            (count + 1) as nat,
                        ) by {
                            if x != h as int {
                                assert(pre2[x]);
                                lemma_reach_monotone(g, caps, flows@, src, x, count as nat);
                            }
                        }
                    }
                    count = count + 1;
                }
                let t2 = self.graph.tail(a as u32).unwrap() as usize;
                let h2 = self.graph.head(a as u32).unwrap() as usize;
                if marked[h2] && !marked[t2] && flows[a] > 0 {
                    let ghost pre2 = marked@;
                    marked.set(t2, true);
                    pred.set(t2, 2 * (a as i64) + 1);
                    proof {
                        lemma_count_true_update(pre2, t2 as int);
                        lemma_count_true_bound(marked@);
                        assert(residual_edge_via(g, caps, flows@, a as int, h2 as int, t2 as int));
                        assert(residual_edge(g, caps, flows@, h2 as int, t2 as int));
                        assert(((h2 as int) < n) && pre2[h2 as int]);
                        assert(residual_reach(g, caps, flows@, src, h2 as int, count as nat));
                        assert(t2 as int != src as int);
                        assert(residual_reach(
                            g,
                            caps,
                            flows@,
                            src,
                            t2 as int,
                            (count + 1) as nat,
                        ));
                        assert forall|x: int| 0 <= x < n && #[trigger] marked@[x] implies residual_reach(
                            g,
                            caps,
                            flows@,
                            src,
                            x,
                            (count + 1) as nat,
                        ) by {
                            if x != t2 as int {
                                assert(pre2[x]);
                                lemma_reach_monotone(g, caps, flows@, src, x, count as nat);
                            }
                        }
                    }
                    count = count + 1;
                }
                a += 1;
            }
            proof {
                assert forall|x: int, k2: int|
                    0 <= x < n && 0 <= k2 <= round + 1 && #[trigger] residual_reach(
                        g,
                        caps,
                        flows@,
                        src,
                        x,
                        k2 as nat,
                    ) implies marked@[x] by {
                    if x == src as int {
                    } else if k2 == 0 {
                    } else if k2 <= round {
                        assert(start[x]);
                    } else {
                        let y = choose|y: int|
                            residual_reach(g, caps, flows@, src, y, (k2 - 1) as nat)
                                && #[trigger] residual_edge(g, caps, flows@, y, x);
                        let a2 = choose|a2: int| #[trigger] residual_edge_via(
                            g,
                            caps,
                            flows@,
                            a2,
                            y,
                            x,
                        );
                        assert(0 <= y < n);
                        assert(start[y]);
                        assert(residual_edge_via(g, caps, flows@, a2, y, x));
                    }
                }
            }
            round += 1;
        }
        proof {
            lemma_count_true_bound(marked@);
            assert forall|x: int| 0 <= x < n implies ((#[trigger] marked@[x]) <==> exists|k2: int|
                0 <= k2 <= n && #[trigger] residual_reach(
                    g,
                    caps,
                    flows@,
                    src,
                    x,
                    k2 as nat,
                )) by {
                if marked@[x] {
                    let ck = count as int;
                    assert(0 <= ck <= n);
                    assert(residual_reach(g, caps, flows@, src, x, ck as nat));
                }
                if exists|k2: int|
                    0 <= k2 <= n && #[trigger] residual_reach(g, caps, flows@, src, x, k2 as nat) {
                    let k2 = choose|k2: int|
                        0 <= k2 <= n && #[trigger] residual_reach(g, caps, flows@, src, x, k2 as nat);
                    assert(residual_reach(g, caps, flows@, src, x, k2 as nat));
                    assert(marked@[x]);
                }
            }
            // The marked set is closed under residual steps: either some
            // node is unmarked and the reach bound has room, or every node
            // is marked.
            assert forall|x: int, y: int|
                0 <= x < n && 0 <= y < n && marked@[x] && #[trigger] residual_edge(
                    g,
                    caps,
                    flows@,
                    x,
                    y,
                ) implies marked@[y] by {
                if (count as int) < n {
                    assert(residual_reach(g, caps, flows@, src, x, count as nat));
                    assert(residual_reach(g, caps, flows@, src, y, (count + 1) as nat));
                    let kk = count as int + 1;
                    assert(0 <= kk <= n);
                    assert(residual_reach(g, caps, flows@, src, y, kk as nat));
                } else {
                    lemma_count_true_full(marked@, y);
                }
            }
        }
        (marked, pred)
    }

    /// Solves the problem: finds a flow from the source to the sink by
    /// residual-path augmentation, and returns its result only after both
    /// the flow laws and the optimality criterion have been checked: a
    /// returned flow is feasible and leaves no augmenting path in its
    /// residual graph. Returns `None` on inconsistent input (source or
    /// sink outside the graph, or equal), on a total flow leaving the
    /// 64-bit range, or when the search produced no certified flow; the
    /// status records which.
    pub fn solve(&mut self) -> (r: Option<MaxFlowOutput>)
        requires
            max_flow_wf(old(self)@),
        ensures
            max_flow_wf(final(self)@),
            final(self)@.graph == old(self)@.graph,
            final(self)@.capacities == old(self)@.capacities,
            final(self)@.source == old(self)@.source,
            final(self)@.sink == old(self)@.sink,
            r matches Some(out) ==> {
                &&& out@.status == MaxFlowStatus::Optimal
                &&& final(self)@.status == MaxFlowStatus::Optimal
                &&& out@.capacities == old(self)@.capacities
                &&& out@.flows == final(self)@.flows
                &&& out@.flows.len() == old(self)@.capacities.len()
                &&& flow_bounded(old(self)@.capacities, out@.flows)
                &&& flow_conserved(old(self)@.graph, out@.flows, old(self)@.source, old(self)@.sink)
                &&& out@.optimal_flow as int == net_outflow(
                    old(self)@.graph,
                    out@.flows,
                    old(self)@.source,
                )
                &&& !has_augmenting_path(
                    old(self)@.graph,
                    old(self)@.capacities,
                    out@.flows,
                    old(self)@.source,
                    old(self)@.sink,
                )
                &&& forall|other: Seq<i64>|
                    other.len() == old(self)@.capacities.len() && flow_bounded(
                        old(self)@.capacities,
                        other,
                    ) && #[trigger] flow_conserved(
                        old(self)@.graph,
                        other,
                        old(self)@.source,
                        old(self)@.sink,
                    ) ==> net_outflow(old(self)@.graph, other, old(self)@.source)
                        <= out@.optimal_flow as int
            },
            final(self)@.status == MaxFlowStatus::BadInput <==> (old(self)@.source >= old(
                self,
            )@.graph.max_num_nodes || old(self)@.sink >= old(self)@.graph.max_num_nodes || old(
                self,
            )@.source == old(self)@.sink),
            r is None ==> final(self)@.status == MaxFlowStatus::BadInput || final(self)@.status
                == MaxFlowStatus::IntOverflow || final(self)@.status == MaxFlowStatus::BadResult,
    {
        let n = self.graph.num_nodes() as usize;
        let m = self.capacities.len();
        if self.source >= self.graph.num_nodes() || self.sink >= self.graph.num_nodes()
            || self.source == self.sink {
            self.status = MaxFlowStatus::BadInput;
            return None;
        }
        // Start from the zero flow.
        let mut flows: Vec<i64> = Vec::new();
        let mut k: usize = 0;
        while k < m
            invariant
                flows@.len() == k,
                k <= m,
            decreases m - k,
        {
            flows.push(0);
            k += 1;
        }
        // Each augmentation moves at least one unit, so the total capacity
        // leaving the source bounds the number of augmentations.
        let mut fuel: u64 = 1;
        let mut a: usize = 0;
        while a < m
            invariant
                max_flow_wf(self@),
                m == self@.capacities.len(),
                a <= m,
            decreases m - a,
        {
            let t = self.graph.tail(a as u32).unwrap();
            if t == self.source && self.capacities[a] > 0 {
                fuel = fuel.saturating_add(self.capacities[a] as u64);
            }
            a += 1;
        }
        while fuel > 0
            invariant
                max_flow_wf(self@),
                n == self@.graph.max_num_nodes,
                m == self@.capacities.len(),
                flows@.len() == m,
                self@.source < n,
                self@.sink < n,
            decreases fuel,
        {
            fuel = fuel - 1;
            let search = self.residual_search(&flows);
            let reachable = search.0;
            let pred = search.1;
            if !reachable[self.sink as usize] {
                break ;
            }
            // Bottleneck along the predecessor chain from the sink back to
            // the source.
            let n64 = n as u64;
            let mut bottleneck: i64 = i64::MAX;
            let mut cur: usize = self.sink as usize;
            let mut steps: u64 = 0;
            let mut reached = false;
            while steps <= n64 && !reached
                invariant
                    max_flow_wf(self@),
                    n == self@.graph.max_num_nodes,
                    m == self@.capacities.len(),
                    flows@.len() == m,
                    pred@.len() == n,
                    cur < n,
                    n64 == n,
                    steps <= n64 + 1,
                    n <= u32::MAX as usize,
                    m <= u32::MAX as usize,
                decreases n64 + 1 - steps,
            {
                if cur == self.source as usize {
                    reached = true;
                } else {
                    let p = pred[cur];
                    if p < 0 {
                        break ;
                    }
                    let arc_wide = p / 2;
                    if arc_wide >= m as i64 {
                        break ;
                    }
                    let arc = arc_wide as usize;
                    let residual: i64 = if p % 2 == 0 {
                        match self.capacities[arc].checked_sub(flows[arc]) {
                            Some(x) => if x >= 0 {
                                x
                            } else {
                                0
                            },
                            None => 0,
                        }
                    } else {
                        flows[arc]
                    };
                    if residual < bottleneck {
                        bottleneck = residual;
                    }
                    let nxt = if p % 2 == 0 {
                        self.graph.tail(arc as u32).unwrap() as usize
                    } else {
                        self.graph.head(arc as u32).unwrap() as usize
                    };
                    cur = nxt;
                }
                steps += 1;
            }
            if !reached || bottleneck <= 0 {
                break ;
            }
            // Apply the augmentation along the same chain.
            let mut cur: usize = self.sink as usize;
            let mut steps: u64 = 0;
            while steps <= n64 && cur != self.source as usize
                invariant
                    max_flow_wf(self@),
                    n == self@.graph.max_num_nodes,
                    m == self@.capacities.len(),
                    flows@.len() == m,
                    pred@.len() == n,
                    cur < n,
                    n64 == n,
                    steps <= n64 + 1,
                    bottleneck > 0,
                    n <= u32::MAX as usize,
                    m <= u32::MAX as usize,
                decreases n64 + 1 - steps,
            {
                let p = pred[cur];
                if p < 0 {
                    break ;
                }
                let arc_wide = p / 2;
                if arc_wide >= m as i64 {
                    break ;
                }
                let arc = arc_wide as usize;
                if p % 2 == 0 {
                    let updated = match flows[arc].checked_add(bottleneck) {
                        Some(x) => x,
                        None => i64::MAX,
                    };
                    flows.set(arc, updated);
                    cur = self.graph.tail(arc as u32).unwrap() as usize;
                } else {
                    let updated = match flows[arc].checked_sub(bottleneck) {
                        Some(x) => x,
                        None => 0,
                    };
                    flows.set(arc, updated);
                    cur = self.graph.head(arc as u32).unwrap() as usize;
                }
                steps += 1;
            }
        }
        // Total flow out of the source.
        let total_wide = self.net_outflow_at(&flows, self.source);
        if total_wide < 0 || total_wide > i64::MAX as i128 {
            self.status = MaxFlowStatus::IntOverflow;
            return None;
        }
        let total = total_wide as i64;
        if !self.is_feasible_flow(&flows, total) {
            self.status = MaxFlowStatus::BadResult;
            return None;
        }
        // Certify that no augmenting path remains: the textbook criterion
        // for a maximum flow.
        let certificate = self.residual_search(&flows);
        if certificate.0[self.sink as usize] {
            self.status = MaxFlowStatus::BadResult;
            return None;
        }
        proof {
            assert(!has_augmenting_path(
                self@.graph,
                self@.capacities,
                flows@,
                self@.source,
                self@.sink,
            ));
            assert forall|other: Seq<i64>|
                other.len() == self@.capacities.len() && flow_bounded(self@.capacities, other)
                    && #[trigger] flow_conserved(
                    self@.graph,
                    other,
                    self@.source,
                    self@.sink,
                ) implies net_outflow(self@.graph, other, self@.source) <= total as int by {
                lemma_certified_flow_is_maximum(
                    self@.graph,
                    self@.capacities,
                    flows@,
                    other,
                    certificate.0@,
                    self@.source,
                    self@.sink,
                );
            }
        }
        let capacities_copy = clone_flow_vec(&self.capacities);
        let flows_copy = clone_flow_vec(&flows);
        self.flows = flows;
        self.status = MaxFlowStatus::Optimal;
        Some(
            MaxFlowOutput {
                status: MaxFlowStatus::Optimal,
                optimal_flow: total,
                capacities: capacities_copy,
                flows: flows_copy,
            },
        )
    }
}

/// Copies a table of flow quantities.
fn clone_flow_vec(v: &Vec<i64>) -> (r: Vec<i64>)
    ensures
        r@ == v@,
{
    let r = v.clone();
    proof {
        assert forall|i: int| 0 <= i < v@.len() implies r@[i] == v@[i] by {
            assert(cloned::<i64>(v@[i], r@[i]));
        }
        assert(r@ =~= v@);
    }
    r
}

/// A node outside the graph's node range touches no arc, so its net
/// outflow vanishes.
proof fn lemma_net_prefix_out_of_range(g: StarGraphV, flows: Seq<i64>, n: int, k: int)
    requires
        graph_wf(g),
        flows.len() <= g.tails.len(),
        n >= g.max_num_nodes,
        k <= flows.len(),
    ensures
        net_prefix(g, flows, n, k) == 0,
    decreases k,
{
    if k > 0 {
        lemma_net_prefix_out_of_range(g, flows, n, k - 1);
    }
}

} // verus!
