//! A minimum-cost-flow solver over a star graph.
//!
//! Nodes carry supplies (a demand is a negative supply); the solver sends
//! flow from supply nodes to demand nodes along cheapest residual paths,
//! then holds the result against the flow laws before reporting it: a
//! reported flow is bounded by the arc capacities and meets every node's
//! supply exactly.

use vstd::prelude::*;

use super::ebert_graph::ArcIndex;
use super::ebert_graph::CostValue;
use super::ebert_graph::FlowQuantity;
use super::ebert_graph::NodeIndex;
use super::ebert_graph::StarGraph;
use super::ebert_graph::StarGraphV;
use super::ebert_graph::graph_wf;
use super::max_flow::flow_bounded;
use super::max_flow::net_outflow;
use super::max_flow::net_prefix;

verus! {

/// Outcome of a minimum-cost-flow solve.
#[derive(Clone, Copy, Debug, PartialEq, Eq, Structural, Hash)]
pub enum MinCostFlowStatus {
    /// The problem was not solved, or its data were edited.
    NotSolved,
    /// A solve completed with a flow meeting every supply within the arc
    /// capacities, at certified minimum cost.
    Optimal,
    /// A solve found a flow meeting every supply within the arc
    /// capacities, without a minimality certificate.
    Feasible,
    /// No flow within the arc capacities meets every supply.
    Infeasible,
    /// The supplies and demands do not cancel out.
    Unbalanced,
    /// An arc cost is too large for the solver's arithmetic.
    BadCostRange,
    /// The solver produced a result that fails the flow laws.
    BadResult,
}

/// Sum of the node supplies below `k`.
pub open spec fn supply_prefix(supplies: Seq<i64>, k: int) -> int
    decreases k,
{
    if k <= 0 {
        0
    } else {
        supply_prefix(supplies, k - 1) + supplies[k - 1] as int
    }
}

/// Sum of all node supplies.
pub open spec fn supply_sum(supplies: Seq<i64>) -> int {
    supply_prefix(supplies, supplies.len() as int)
}

/// Whether the flow meets every node's supply exactly: each node's net
/// outflow equals its supply.
pub open spec fn flow_meets_supplies(g: StarGraphV, flows: Seq<i64>, supplies: Seq<i64>) -> bool {
    forall|n: int|
        0 <= n < g.max_num_nodes ==> #[trigger] net_outflow(g, flows, n) == supplies[n] as int
}

/// Clamps a mathematical integer into the 64-bit range.
pub open spec fn sat64(v: int) -> int {
    if v > i64::MAX {
        i64::MAX as int
    } else if v < i64::MIN {
        i64::MIN as int
    } else {
        v
    }
}

/// Total cost of the flow on the arcs below `k`, each product and each
/// partial sum clamped into the 64-bit range rather than wrapped.
pub open spec fn cost_prefix(flows: Seq<i64>, costs: Seq<i64>, k: int) -> int
    decreases k,
{
    if k <= 0 {
        0
    } else {
        sat64(cost_prefix(flows, costs, k - 1) + sat64(flows[k - 1] as int * costs[k - 1] as int))
    }
}


/// Summed over the nodes below `nn`: the net outflows over the arcs below
/// `k`.
spec fn total_net_prefix(g: StarGraphV, flows: Seq<i64>, k: int, nn: int) -> int
    decreases nn,
{
    if nn <= 0 {
        0
    } else {
        total_net_prefix(g, flows, k, nn - 1) + net_prefix(g, flows, nn - 1, k)
    }
}

/// Extending every node's net outflow by one arc changes the node total by
/// that arc's flow out of its tail minus its flow into its head.
proof fn lemma_total_net_prefix_step(g: StarGraphV, flows: Seq<i64>, k: int, nn: int)
    requires
        1 <= k <= flows.len(),
        flows.len() <= g.tails.len(),
        g.tails.len() == g.heads.len(),
    ensures
        total_net_prefix(g, flows, k, nn) == total_net_prefix(g, flows, k - 1, nn) + (if 0 <= (
        g.tails[k - 1] as int) && (g.tails[k - 1] as int) < nn {
            flows[k - 1] as int
        } else {
            0
        }) - (if 0 <= (g.heads[k - 1] as int) && (g.heads[k - 1] as int) < nn {
            flows[k - 1] as int
        } else {
            0
        }),
    decreases nn,
{
    if nn > 0 {
        lemma_total_net_prefix_step(g, flows, k, nn - 1);
    }
}

/// With every arc endpoint below `nn`, the nodes' net outflows cancel out.
proof fn lemma_total_net_zero(g: StarGraphV, flows: Seq<i64>, k: int, nn: int)
    requires
        0 <= k <= flows.len(),
        flows.len() <= g.tails.len(),
        g.tails.len() == g.heads.len(),
        forall|a: int| 0 <= a < g.tails.len() ==> 0 <= ((#[trigger] g.tails[a]) as int)
            && ((g.tails[a]) as int) < nn,
        forall|a: int| 0 <= a < g.heads.len() ==> 0 <= ((#[trigger] g.heads[a]) as int)
            && ((g.heads[a]) as int) < nn,
    ensures
        total_net_prefix(g, flows, k, nn) == 0,
    decreases k,
{
    if k <= 0 {
        lemma_total_net_prefix_empty(g, flows, nn);
    } else {
        lemma_total_net_zero(g, flows, k - 1, nn);
        lemma_total_net_prefix_step(g, flows, k, nn);
    }
}

/// With no arcs taken, every node's net outflow vanishes.
proof fn lemma_total_net_prefix_empty(g: StarGraphV, flows: Seq<i64>, nn: int)
    ensures
        total_net_prefix(g, flows, 0, nn) == 0,
    decreases nn,
{
    if nn > 0 {
        lemma_total_net_prefix_empty(g, flows, nn - 1);
    }
}

/// When every node's net outflow equals its supply, the supplies sum to
/// the node total of the net outflows.
proof fn lemma_supplies_sum_to_total_net(
    g: StarGraphV,
    flows: Seq<i64>,
    supplies: Seq<i64>,
    nn: int,
)
    requires
        0 <= nn <= supplies.len(),
        forall|n: int|
            0 <= n < supplies.len() ==> #[trigger] net_outflow(g, flows, n) == supplies[n] as int,
    ensures
        supply_prefix(supplies, nn) == total_net_prefix(g, flows, flows.len() as int, nn),
    decreases nn,
{
    if nn > 0 {
        lemma_supplies_sum_to_total_net(g, flows, supplies, nn - 1);
        assert(net_outflow(g, flows, nn - 1) == supplies[nn - 1] as int);
    }
}

/// A flow meeting every supply forces the supplies to cancel out.
proof fn lemma_feasible_implies_balanced(
    g: StarGraphV,
    flows: Seq<i64>,
    supplies: Seq<i64>,
)
    requires
        flows.len() <= g.tails.len(),
        g.tails.len() == g.heads.len(),
        supplies.len() == g.max_num_nodes,
        forall|a: int| 0 <= a < g.tails.len() ==> 0 <= ((#[trigger] g.tails[a]) as int)
            && ((g.tails[a]) as int) < g.max_num_nodes,
        forall|a: int| 0 <= a < g.heads.len() ==> 0 <= ((#[trigger] g.heads[a]) as int)
            && ((g.heads[a]) as int) < g.max_num_nodes,
        flow_meets_supplies(g, flows, supplies),
    ensures
        supply_sum(supplies) == 0,
{
    lemma_supplies_sum_to_total_net(g, flows, supplies, supplies.len() as int);
    lemma_total_net_zero(g, flows, flows.len() as int, g.max_num_nodes);
}


/// The exact cost of a flow over the arcs below `k`: flow times unit cost,
/// as a mathematical integer.
pub open spec fn exact_cost_prefix(flows: Seq<i64>, costs: Seq<i64>, k: int) -> int
    decreases k,
{
    if k <= 0 {
        0
    } else {
        exact_cost_prefix(flows, costs, k - 1) + flows[k - 1] as int * costs[k - 1] as int
    }
}

/// Whether the node potentials certify the flow's optimality: every
/// residual step has non-negative reduced cost. A flow certified this way
/// has minimum cost among the flows meeting the same supplies.
pub open spec fn potentials_certify(
    g: StarGraphV,
    caps: Seq<i64>,
    costs: Seq<i64>,
    flows: Seq<i64>,
    pi: Seq<i64>,
) -> bool {
    forall|a: int|
        0 <= a < flows.len() ==> ((#[trigger] flows[a]) < caps[a] ==> costs[a] as int - pi[(
        g.tails[a]) as int] as int + pi[(g.heads[a]) as int] as int >= 0) && (flows[a] > 0
            ==> pi[(g.tails[a]) as int] as int - pi[(g.heads[a]) as int] as int - costs[a] as int
            >= 0)
}

/// The potential-weighted net outflows of the nodes below `nn`, over the
/// arcs below `k`.
spec fn weighted_net_prefix(g: StarGraphV, flows: Seq<i64>, pi: Seq<i64>, k: int, nn: int) -> int
    decreases nn,
{
    if nn <= 0 {
        0
    } else {
        weighted_net_prefix(g, flows, pi, k, nn - 1) + pi[nn - 1] as int * net_prefix(
            g,
            flows,
            nn - 1,
            k,
        )
    }
}

/// The flow weighted by the potential drop along each arc below `k`.
spec fn potential_drop_prefix(g: StarGraphV, flows: Seq<i64>, pi: Seq<i64>, k: int) -> int
    decreases k,
{
    if k <= 0 {
        0
    } else {
        potential_drop_prefix(g, flows, pi, k - 1) + flows[k - 1] as int * (pi[(g.tails[k
            - 1]) as int] as int - pi[(g.heads[k - 1]) as int] as int)
    }
}

/// Extending the weighted node sums by one arc adds that arc's potential
/// drop times its flow.
proof fn lemma_weighted_net_prefix_step(
    g: StarGraphV,
    flows: Seq<i64>,
    pi: Seq<i64>,
    k: int,
    nn: int,
)
    requires
        1 <= k <= flows.len(),
        flows.len() <= g.tails.len(),
        g.tails.len() == g.heads.len(),
        forall|a: int| 0 <= a < g.tails.len() ==> 0 <= ((#[trigger] g.tails[a]) as int)
            && ((g.tails[a]) as int) < nn,
        forall|a: int| 0 <= a < g.heads.len() ==> 0 <= ((#[trigger] g.heads[a]) as int)
            && ((g.heads[a]) as int) < nn,
    ensures
        weighted_net_prefix(g, flows, pi, k, nn) == weighted_net_prefix(g, flows, pi, k - 1, nn)
            + flows[k - 1] as int * (pi[(g.tails[k - 1]) as int] as int - pi[(g.heads[k
            - 1]) as int] as int),
{
    lemma_weighted_net_step_inner(g, flows, pi, k, nn);
    let f = flows[k - 1] as int;
    let pt = pi[(g.tails[k - 1]) as int] as int;
    let ph = pi[(g.heads[k - 1]) as int] as int;
    assert(f * (pt - ph) == pt * f - ph * f) by (nonlinear_arith);
}

/// Helper induction for the weighted step: over the node bound, without
/// the endpoint-range requirement.
proof fn lemma_weighted_net_step_inner(
    g: StarGraphV,
    flows: Seq<i64>,
    pi: Seq<i64>,
    k: int,
    nn: int,
)
    requires
        1 <= k <= flows.len(),
        flows.len() <= g.tails.len(),
        g.tails.len() == g.heads.len(),
    ensures
        weighted_net_prefix(g, flows, pi, k, nn) == weighted_net_prefix(g, flows, pi, k - 1, nn)
            + (if 0 <= ((g.tails[k - 1]) as int) && ((g.tails[k - 1]) as int) < nn {
            pi[(g.tails[k - 1]) as int] as int * flows[k - 1] as int
        } else {
            0
        }) - (if 0 <= ((g.heads[k - 1]) as int) && ((g.heads[k - 1]) as int) < nn {
            pi[(g.heads[k - 1]) as int] as int * flows[k - 1] as int
        } else {
            0
        }),
    decreases nn,
{
    if nn > 0 {
        lemma_weighted_net_step_inner(g, flows, pi, k, nn - 1);
        let n0 = nn - 1;
        let f = flows[k - 1] as int;
        let dt: int = if (g.tails[k - 1]) as int == n0 {
            f
        } else {
            0
        };
        let dh: int = if (g.heads[k - 1]) as int == n0 {
            f
        } else {
            0
        };
        assert(net_prefix(g, flows, n0, k) == net_prefix(g, flows, n0, k - 1) + dt - dh);
        lemma_mul_distributes(pi[n0] as int, net_prefix(g, flows, n0, k - 1), dt - dh);
        assert(pi[n0] as int * (dt - dh) == pi[n0] as int * dt - pi[n0] as int * dh)
            by (nonlinear_arith);
        assert(pi[n0] as int * dt == (if (g.tails[k - 1]) as int == n0 {
            pi[n0] as int * f
        } else {
            0
        }));
        assert(pi[n0] as int * dh == (if (g.heads[k - 1]) as int == n0 {
            pi[n0] as int * f
        } else {
            0
        }));
    }
}

/// Multiplication distributes over addition.
proof fn lemma_mul_distributes(x: int, y: int, z: int)
    ensures
        x * (y + z) == x * y + x * z,
{
    assert(x * (y + z) == x * y + x * z) by (nonlinear_arith);
}

/// With no arcs taken, the weighted node sums vanish.
proof fn lemma_weighted_net_prefix_empty(g: StarGraphV, flows: Seq<i64>, pi: Seq<i64>, nn: int)
    ensures
        weighted_net_prefix(g, flows, pi, 0, nn) == 0,
    decreases nn,
{
    if nn > 0 {
        lemma_weighted_net_prefix_empty(g, flows, pi, nn - 1);
    }
}

/// The weighted node sums equal the flow-weighted potential drops.
proof fn lemma_weighted_net_is_potential_drop(
    g: StarGraphV,
    flows: Seq<i64>,
    pi: Seq<i64>,
    k: int,
    nn: int,
)
    requires
        0 <= k <= flows.len(),
        flows.len() <= g.tails.len(),
        g.tails.len() == g.heads.len(),
        forall|a: int| 0 <= a < g.tails.len() ==> 0 <= ((#[trigger] g.tails[a]) as int)
            && ((g.tails[a]) as int) < nn,
        forall|a: int| 0 <= a < g.heads.len() ==> 0 <= ((#[trigger] g.heads[a]) as int)
            && ((g.heads[a]) as int) < nn,
    ensures
        weighted_net_prefix(g, flows, pi, k, nn) == potential_drop_prefix(g, flows, pi, k),
    decreases k,
{
    if k <= 0 {
        lemma_weighted_net_prefix_empty(g, flows, pi, nn);
    } else {
        lemma_weighted_net_is_potential_drop(g, flows, pi, k - 1, nn);
        lemma_weighted_net_prefix_step(g, flows, pi, k, nn);
    }
}

/// For a flow meeting the supplies, the weighted node sums depend only on
/// the supplies and the potentials.
proof fn lemma_weighted_net_from_supplies(
    g: StarGraphV,
    flows: Seq<i64>,
    supplies: Seq<i64>,
    pi: Seq<i64>,
    nn: int,
)
    requires
        0 <= nn <= supplies.len(),
        forall|n: int|
            0 <= n < supplies.len() ==> #[trigger] net_outflow(g, flows, n) == supplies[n] as int,
    ensures
        weighted_net_prefix(g, flows, pi, flows.len() as int, nn) == weighted_supply_prefix(
            supplies,
            pi,
            nn,
        ),
    decreases nn,
{
    if nn > 0 {
        lemma_weighted_net_from_supplies(g, flows, supplies, pi, nn - 1);
        assert(net_outflow(g, flows, nn - 1) == supplies[nn - 1] as int);
    }
}

/// The potential-weighted supplies of the nodes below `nn`.
spec fn weighted_supply_prefix(supplies: Seq<i64>, pi: Seq<i64>, nn: int) -> int
    decreases nn,
{
    if nn <= 0 {
        0
    } else {
        weighted_supply_prefix(supplies, pi, nn - 1) + pi[nn - 1] as int * supplies[nn - 1] as int
    }
}

/// Against certified potentials, every flow meeting the same supplies
/// costs at least as much, arc prefix by arc prefix, once the potential
/// drops are subtracted.
proof fn lemma_reduced_cost_dominates(
    g: StarGraphV,
    caps: Seq<i64>,
    costs: Seq<i64>,
    flows: Seq<i64>,
    other: Seq<i64>,
    pi: Seq<i64>,
    k: int,
)
    requires
        flows.len() == caps.len(),
        other.len() == caps.len(),
        costs.len() == caps.len(),
        flow_bounded(caps, flows),
        flow_bounded(caps, other),
        potentials_certify(g, caps, costs, flows, pi),
        0 <= k <= caps.len(),
    ensures
        exact_cost_prefix(other, costs, k) - potential_drop_prefix(g, other, pi, k)
            >= exact_cost_prefix(flows, costs, k) - potential_drop_prefix(g, flows, pi, k),
    decreases k,
{
    if k > 0 {
        lemma_reduced_cost_dominates(g, caps, costs, flows, other, pi, k - 1);
        let a = k - 1;
        let t = (g.tails[a]) as int;
        let h = (g.heads[a]) as int;
        let oc = other[a] as int;
        let fc = flows[a] as int;
        let c = costs[a] as int;
        let pt = pi[t] as int;
        let ph = pi[h] as int;
        let rc = c - pt + ph;
        let d = oc - fc;
        if d > 0 {
            assert(flows[a] < caps[a]);
            assert(rc >= 0);
        } else if d < 0 {
            assert(flows[a] > 0);
            assert(rc <= 0);
        }
        assert(d * rc >= 0) by (nonlinear_arith)
            requires
                (d > 0 ==> rc >= 0) && (d < 0 ==> rc <= 0),
        ;
        assert(oc * c - oc * (pt - ph) - (fc * c - fc * (pt - ph)) == d * rc) by (nonlinear_arith)
            requires
                rc == c - pt + ph,
                d == oc - fc,
        ;
        assert(exact_cost_prefix(other, costs, k) == exact_cost_prefix(other, costs, k - 1) + oc
            * c);
        assert(potential_drop_prefix(g, other, pi, k) == potential_drop_prefix(g, other, pi, k - 1)
            + oc * (pt - ph));
        assert(exact_cost_prefix(flows, costs, k) == exact_cost_prefix(flows, costs, k - 1) + fc
            * c);
        assert(potential_drop_prefix(g, flows, pi, k) == potential_drop_prefix(g, flows, pi, k - 1)
            + fc * (pt - ph));
    }
}

/// A flow meeting the supplies within the capacities, with potentials
/// certifying every residual step, has minimum exact cost among all such
/// flows.
proof fn lemma_certified_flow_is_minimum(
    g: StarGraphV,
    caps: Seq<i64>,
    costs: Seq<i64>,
    supplies: Seq<i64>,
    flows: Seq<i64>,
    other: Seq<i64>,
    pi: Seq<i64>,
)
    requires
        graph_wf(g),
        flows.len() == caps.len(),
        other.len() == caps.len(),
        costs.len() == caps.len(),
        caps.len() == g.tails.len(),
        supplies.len() == g.max_num_nodes,
        flow_bounded(caps, flows),
        flow_meets_supplies(g, flows, supplies),
        flow_bounded(caps, other),
        flow_meets_supplies(g, other, supplies),
        potentials_certify(g, caps, costs, flows, pi),
    ensures
        exact_cost_prefix(flows, costs, caps.len() as int) <= exact_cost_prefix(
            other,
            costs,
            caps.len() as int,
        ),
{
    let nn = g.max_num_nodes;
    lemma_weighted_net_is_potential_drop(g, flows, pi, flows.len() as int, nn);
    lemma_weighted_net_from_supplies(g, flows, supplies, pi, nn);
    lemma_weighted_net_is_potential_drop(g, other, pi, other.len() as int, nn);
    lemma_weighted_net_from_supplies(g, other, supplies, pi, nn);
    lemma_reduced_cost_dominates(g, caps, costs, flows, other, pi, caps.len() as int);
}

/// A minimum-cost-flow problem over a star graph.
pub struct MinCostFlow {
    graph: StarGraph,
    supplies: Vec<i64>,
    unit_costs: Vec<i64>,
    capacities: Vec<i64>,
    flows: Vec<i64>,
    status: MinCostFlowStatus,
}

/// The mathematical content of a minimum-cost-flow problem.
pub struct MinCostFlowV {
    /// The graph the flow lives on.
    pub graph: StarGraphV,
    /// Per-node supply; a demand is a negative supply.
    pub supplies: Seq<i64>,
    /// Per-arc cost of one unit of flow.
    pub unit_costs: Seq<i64>,
    /// Per-arc capacity.
    pub capacities: Seq<i64>,
    /// Per-arc flow of the last solve.
    pub flows: Seq<i64>,
    /// Outcome of the last solve.
    pub status: MinCostFlowStatus,
}

impl View for MinCostFlow {
    type V = MinCostFlowV;

    closed spec fn view(&self) -> MinCostFlowV {
        MinCostFlowV {
            graph: self.graph@,
            supplies: self.supplies@,
            unit_costs: self.unit_costs@,
            capacities: self.capacities@,
            flows: self.flows@,
            status: self.status,
        }
    }
}

/// Well-formedness of a minimum-cost-flow problem: a well-formed graph, one
/// supply per node, one cost, capacity and flow per arc, and non-negative
/// capacities.
pub open spec fn min_cost_flow_wf(m: MinCostFlowV) -> bool {
    &&& graph_wf(m.graph)
    &&& m.supplies.len() == m.graph.max_num_nodes
    &&& m.unit_costs.len() == m.graph.tails.len()
    &&& m.capacities.len() == m.graph.tails.len()
    &&& m.flows.len() == m.graph.tails.len()
    &&& forall|a: int| 0 <= a < m.capacities.len() ==> #[trigger] m.capacities[a] >= 0
}

/// The result of a successful minimum-cost-flow solve.
pub struct MinCostFlowOutput {
    status: MinCostFlowStatus,
    flows: Vec<i64>,
    capacities: Vec<i64>,
    unit_costs: Vec<i64>,
    initial_supplies: Vec<i64>,
}

/// The mathematical content of a minimum-cost-flow result.
pub struct MinCostFlowOutputV {
    /// Outcome of the solve.
    pub status: MinCostFlowStatus,
    /// Per-arc flow found by the solve.
    pub flows: Seq<i64>,
    /// Per-arc capacity at solve time.
    pub capacities: Seq<i64>,
    /// Per-arc unit cost at solve time.
    pub unit_costs: Seq<i64>,
    /// Per-node supply the solve started from.
    pub initial_supplies: Seq<i64>,
}

impl View for MinCostFlowOutput {
    type V = MinCostFlowOutputV;

    closed spec fn view(&self) -> MinCostFlowOutputV {
        MinCostFlowOutputV {
            status: self.status,
            flows: self.flows@,
            capacities: self.capacities@,
            unit_costs: self.unit_costs@,
            initial_supplies: self.initial_supplies@,
        }
    }
}

impl MinCostFlowOutput {
    /// Returns the cost of the flow found by the algorithm: the sum over
    /// the arcs of flow times unit cost, clamped into the 64-bit range
    /// rather than wrapped.
    pub fn get_optimal_cost(&mut self) -> (r: CostValue)
        ensures
            final(self)@ == old(self)@,
            r as int == cost_prefix(
                old(self)@.flows,
                old(self)@.unit_costs,
                if old(self)@.flows.len() <= old(self)@.unit_costs.len() {
                    old(self)@.flows.len() as int
                } else {
                    old(self)@.unit_costs.len() as int
                },
            ),
    {
        let m = if self.flows.len() <= self.unit_costs.len() {
            self.flows.len()
        } else {
            self.unit_costs.len()
        };
        let mut acc: i64 = 0;
        let mut a: usize = 0;
        while a < m
            invariant
                m <= self.flows@.len(),
                m <= self.unit_costs@.len(),
                a <= m,
                acc as int == cost_prefix(self@.flows, self@.unit_costs, a as int),
            decreases m - a,
        {
            let f: i128 = self.flows[a] as i128;
            let c: i128 = self.unit_costs[a] as i128;
            proof {
                assert(f * c <= 0x4000_0000_0000_0000_0000_0000_0000_0000i128 && f * c
                    >= -0x4000_0000_0000_0000_0000_0000_0000_0000i128) by (nonlinear_arith)
                    requires
                        -0x8000_0000_0000_0000i128 <= f,
                        f <= 0x8000_0000_0000_0000i128,
                        -0x8000_0000_0000_0000i128 <= c,
                        c <= 0x8000_0000_0000_0000i128,
                ;
            }
            let product: i128 = f * c;
            let term: i64 = if product > i64::MAX as i128 {
                i64::MAX
            } else if product < i64::MIN as i128 {
                i64::MIN
            } else {
                product as i64
            };
            let sum: i128 = acc as i128 + term as i128;
            acc = if sum > i64::MAX as i128 {
                i64::MAX
            } else if sum < i64::MIN as i128 {
                i64::MIN
            } else {
                sum as i64
            };
            a += 1;
        }
        acc
    }

    /// Returns the flow on the given arc, or `None` for an arc outside the
    /// graph.
    pub fn flow(&self, arc: ArcIndex) -> (r: Option<FlowQuantity>)
        ensures
            r is Some <==> (arc as int) < self@.flows.len(),
            r matches Some(f) ==> f == self@.flows[arc as int],
    {
        if (arc as usize) < self.flows.len() {
            Some(self.flows[arc as usize])
        } else {
            None
        }
    }

    /// Returns the capacity of the given arc, or `None` for an arc outside
    /// the graph.
    pub fn capacity(&self, arc: ArcIndex) -> (r: Option<FlowQuantity>)
        ensures
            r is Some <==> (arc as int) < self@.capacities.len(),
            r matches Some(c) ==> c == self@.capacities[arc as int],
    {
        if (arc as usize) < self.capacities.len() {
            Some(self.capacities[arc as usize])
        } else {
            None
        }
    }

    /// Returns the unit cost of the given arc, or `None` for an arc outside
    /// the graph.
    pub fn unit_cost(&self, arc: ArcIndex) -> (r: Option<CostValue>)
        ensures
            r is Some <==> (arc as int) < self@.unit_costs.len(),
            r matches Some(c) ==> c == self@.unit_costs[arc as int],
    {
        if (arc as usize) < self.unit_costs.len() {
            Some(self.unit_costs[arc as usize])
        } else {
            None
        }
    }

    /// Returns the remaining supply at a node, or `None` for a node outside
    /// the graph. A successful solve meets every supply, leaving zero
    /// everywhere.
    pub fn supply(&self, node: NodeIndex) -> (r: Option<FlowQuantity>)
        ensures
            r is Some <==> (node as int) < self@.initial_supplies.len(),
            r matches Some(x) ==> x == 0,
    {
        if (node as usize) < self.initial_supplies.len() {
            Some(0)
        } else {
            None
        }
    }

    /// Returns the initial supply at a node, or `None` for a node outside
    /// the graph.
    pub fn initial_supply(&self, node: NodeIndex) -> (r: Option<FlowQuantity>)
        ensures
            r is Some <==> (node as int) < self@.initial_supplies.len(),
            r matches Some(x) ==> x == self@.initial_supplies[node as int],
    {
        if (node as usize) < self.initial_supplies.len() {
            Some(self.initial_supplies[node as usize])
        } else {
            None
        }
    }

    /// Returns the supply a node actually moved, or `None` for a node
    /// outside the graph. A successful solve meets every supply in full.
    pub fn feasible_supply(&self, node: NodeIndex) -> (r: Option<FlowQuantity>)
        ensures
            r is Some <==> (node as int) < self@.initial_supplies.len(),
            r matches Some(x) ==> x == self@.initial_supplies[node as int],
    {
        if (node as usize) < self.initial_supplies.len() {
            Some(self.initial_supplies[node as usize])
        } else {
            None
        }
    }

    /// Returns the status of the solve that produced this output.
    pub fn status(&self) -> (r: MinCostFlowStatus)
        ensures
            r == self@.status,
    {
        self.status
    }
}

impl MinCostFlow {
    /// Creates a minimum-cost-flow problem over a copy of `graph`, with all
    /// supplies, costs and capacities zero.
    pub fn new(graph: &StarGraph) -> (r: MinCostFlow)
        requires
            graph_wf(graph@),
        ensures
            min_cost_flow_wf(r@),
            r@.graph == graph@,
            r@.status == MinCostFlowStatus::NotSolved,
            forall|n: int| 0 <= n < r@.supplies.len() ==> #[trigger] r@.supplies[n] == 0,
            forall|a: int| 0 <= a < r@.capacities.len() ==> #[trigger] r@.capacities[a] == 0,
            forall|a: int| 0 <= a < r@.unit_costs.len() ==> #[trigger] r@.unit_costs[a] == 0,
    {
        let g = graph.clone();
        let n = g.num_nodes() as usize;
        let m = g.num_arcs() as usize;
        let mut supplies: Vec<i64> = Vec::new();
        let mut k: usize = 0;
        while k < n
            invariant
                supplies@.len() == k,
                k <= n,
                forall|j: int| 0 <= j < k ==> #[trigger] supplies@[j] == 0,
            decreases n - k,
        {
            supplies.push(0);
            k += 1;
        }
        let mut unit_costs: Vec<i64> = Vec::new();
        let mut capacities: Vec<i64> = Vec::new();
        let mut flows: Vec<i64> = Vec::new();
        let mut k: usize = 0;
        while k < m
            invariant
                unit_costs@.len() == k,
                capacities@.len() == k,
                flows@.len() == k,
                k <= m,
                forall|j: int| 0 <= j < k ==> #[trigger] capacities@[j] == 0,
                forall|j: int| 0 <= j < k ==> #[trigger] unit_costs@[j] == 0,
            decreases m - k,
        {
            unit_costs.push(0);
            capacities.push(0);
            flows.push(0);
            k += 1;
        }
        MinCostFlow {
            graph: g,
            supplies,
            unit_costs,
            capacities,
            flows,
            status: MinCostFlowStatus::NotSolved,
        }
    }

    /// Returns the graph associated to the current object.
    pub fn graph(&self) -> (r: &StarGraph)
        ensures
            r@ == self@.graph,
    {
        &self.graph
    }

    /// Sets the supply corresponding to a node; a demand is modeled as a
    /// negative supply. Ignored for a node outside the graph. Any previous
    /// solve result is invalidated.
    pub fn set_node_supply(&mut self, node: NodeIndex, supply: FlowQuantity)
        requires
            min_cost_flow_wf(old(self)@),
        ensures
            min_cost_flow_wf(final(self)@),
            (node as int) < old(self)@.supplies.len() ==> final(self)@ == (MinCostFlowV {
                supplies: old(self)@.supplies.update(node as int, supply),
                status: MinCostFlowStatus::NotSolved,
                ..old(self)@
            }),
            (node as int) >= old(self)@.supplies.len() ==> final(self)@ == old(self)@,
    {
        if (node as usize) < self.supplies.len() {
            self.supplies.set(node as usize, supply);
            self.status = MinCostFlowStatus::NotSolved;
        }
    }

    /// Sets the unit cost for the given arc; ignored for an arc outside the
    /// graph. Any previous solve result is invalidated.
    pub fn set_arc_unit_cost(&mut self, arc: ArcIndex, unit_cost: CostValue)
        requires
            min_cost_flow_wf(old(self)@),
        ensures
            min_cost_flow_wf(final(self)@),
            (arc as int) < old(self)@.unit_costs.len() ==> final(self)@ == (MinCostFlowV {
                unit_costs: old(self)@.unit_costs.update(arc as int, unit_cost),
                status: MinCostFlowStatus::NotSolved,
                ..old(self)@
            }),
            (arc as int) >= old(self)@.unit_costs.len() ==> final(self)@ == old(self)@,
    {
        if (arc as usize) < self.unit_costs.len() {
            self.unit_costs.set(arc as usize, unit_cost);
            self.status = MinCostFlowStatus::NotSolved;
        }
    }

    /// Sets the capacity for the given arc; ignored for an arc outside the
    /// graph or a negative capacity. Any previous solve result is
    /// invalidated.
    pub fn set_arc_capacity(&mut self, arc: ArcIndex, new_capacity: FlowQuantity)
        requires
            min_cost_flow_wf(old(self)@),
        ensures
            min_cost_flow_wf(final(self)@),
            ((arc as int) < old(self)@.capacities.len() && new_capacity >= 0) ==> final(self)@ == (
            MinCostFlowV {
                capacities: old(self)@.capacities.update(arc as int, new_capacity),
                status: MinCostFlowStatus::NotSolved,
                ..old(self)@
            }),
            !((arc as int) < old(self)@.capacities.len() && new_capacity >= 0) ==> final(self)@
                == old(self)@,
    {
        if (arc as usize) < self.capacities.len() && new_capacity >= 0 {
            self.capacities.set(arc as usize, new_capacity);
            self.status = MinCostFlowStatus::NotSolved;
        }
    }

    /// Sets the flow for the given arc, as a warm start for the next solve;
    /// ignored for an arc outside the graph or a flow outside
    /// `[0, capacity]`. Any previous solve result is invalidated.
    pub fn set_arc_flow(&mut self, arc: ArcIndex, new_flow: FlowQuantity)
        requires
            min_cost_flow_wf(old(self)@),
        ensures
            min_cost_flow_wf(final(self)@),
            ((arc as int) < old(self)@.flows.len() && 0 <= new_flow && new_flow <= old(
                self,
            )@.capacities[arc as int]) ==> final(self)@ == (MinCostFlowV {
                flows: old(self)@.flows.update(arc as int, new_flow),
                status: MinCostFlowStatus::NotSolved,
                ..old(self)@
            }),
            !((arc as int) < old(self)@.flows.len() && 0 <= new_flow && new_flow <= old(
                self,
            )@.capacities[arc as int]) ==> final(self)@ == old(self)@,
    {
        if (arc as usize) < self.flows.len() && new_flow >= 0 && new_flow
            <= self.capacities[arc as usize] {
            self.flows.set(arc as usize, new_flow);
            self.status = MinCostFlowStatus::NotSolved;
        }
    }

    /// Decides whether `flows` satisfies the flow laws of this problem:
    /// every arc within capacity and every node's net outflow equal to its
    /// supply.
    pub fn is_feasible_flow(&self, flows: &Vec<i64>) -> (r: bool)
        requires
            min_cost_flow_wf(self@),
            flows@.len() == self@.flows.len(),
        ensures
            r == (flow_bounded(self@.capacities, flows@) && flow_meets_supplies(
                self@.graph,
                flows@,
                self@.supplies,
            )),
    {
        let m = self.capacities.len();
        let n = self.graph.num_nodes() as usize;
        let mut a: usize = 0;
        while a < m
            invariant
                min_cost_flow_wf(self@),
                flows@.len() == self@.flows.len(),
                m == self@.capacities.len(),
                a <= m,
                forall|a2: int| 0 <= a2 < a ==> 0 <= #[trigger] flows@[a2] && flows@[a2]
                    <= self@.capacities[a2],
            decreases m - a,
        {
            if flows[a] < 0 || flows[a] > self.capacities[a] {
                return false;
            }
            a += 1;
        }
        let mut node: usize = 0;
        while node < n
            invariant
                min_cost_flow_wf(self@),
                flows@.len() == self@.flows.len(),
                m == self@.capacities.len(),
                n == self@.graph.max_num_nodes,
                flow_bounded(self@.capacities, flows@),
                node <= n,
                forall|n2: int|
                    0 <= n2 < node ==> #[trigger] net_outflow(self@.graph, flows@, n2)
                        == self@.supplies[n2] as int,
            decreases n - node,
        {
            let net = self.net_outflow_at(flows, node as u32);
            if net != self.supplies[node] as i128 {
                return false;
            }
            node += 1;
        }
        true
    }

    /// Computes the net outflow of one node under a candidate flow.
    fn net_outflow_at(&self, flows: &Vec<i64>, node: u32) -> (r: i128)
        requires
            min_cost_flow_wf(self@),
            flows@.len() == self@.flows.len(),
        ensures
            r as int == net_outflow(self@.graph, flows@, node as int),
    {
        let m = self.capacities.len();
        let mut acc: i128 = 0;
        let mut a: usize = 0;
        while a < m
            invariant
                min_cost_flow_wf(self@),
                flows@.len() == self@.flows.len(),
                m == self@.capacities.len(),
                a <= m,
                acc as int == super::max_flow::net_prefix(self@.graph, flows@, node as int, a as int),
                -(a as int) * 0x1_0000_0000_0000_0000 <= acc as int,
                acc as int <= (a as int) * 0x1_0000_0000_0000_0000,
            decreases m - a,
        {
            let t = self.graph.tail(a as u32).unwrap();
            let h = self.graph.head(a as u32).unwrap();
            if t == node {
                acc = acc + flows[a] as i128;
            }
            if h == node {
                acc = acc - flows[a] as i128;
            }
            a += 1;
        }
        acc
    }

    /// Sums the node supplies.
    fn total_supply(&self) -> (r: i128)
        requires
            min_cost_flow_wf(self@),
        ensures
            r as int == supply_sum(self@.supplies),
    {
        let n = self.supplies.len();
        let mut acc: i128 = 0;
        let mut k: usize = 0;
        while k < n
            invariant
                min_cost_flow_wf(self@),
                n == self@.supplies.len(),
                k <= n,
                acc as int == supply_prefix(self@.supplies, k as int),
                -(k as int) * 0x1_0000_0000_0000_0000 <= acc as int,
                acc as int <= (k as int) * 0x1_0000_0000_0000_0000,
            decreases n - k,
        {
            acc = acc + self.supplies[k] as i128;
            k += 1;
        }
        acc
    }


    /// Computes node potentials for the residual graph of `flows` by
    /// relaxation. Only whether they certify matters; the relaxation's
    /// quality is judged by the certificate check alone.
    fn residual_potentials(&self, flows: &Vec<i64>) -> (r: Vec<i64>)
        requires
            min_cost_flow_wf(self@),
            flows@.len() == self@.flows.len(),
        ensures
            r@.len() == self@.graph.max_num_nodes,
    {
        let n = self.graph.num_nodes() as usize;
        let m = self.capacities.len();
        let mut pi: Vec<i64> = Vec::new();
        let mut k: usize = 0;
        while k < n
            invariant
                pi@.len() == k,
                k <= n,
            decreases n - k,
        {
            pi.push(0);
            k += 1;
        }
        let mut round: usize = 0;
        while round < n
            invariant
                min_cost_flow_wf(self@),
                flows@.len() == self@.flows.len(),
                n == self@.graph.max_num_nodes,
                m == self@.capacities.len(),
                pi@.len() == n,
                round <= n,
            decreases n - round,
        {
            let mut a: usize = 0;
            while a < m
                invariant
                    min_cost_flow_wf(self@),
                    flows@.len() == self@.flows.len(),
                    n == self@.graph.max_num_nodes,
                    m == self@.capacities.len(),
                    pi@.len() == n,
                    a <= m,
                decreases m - a,
            {
                let t = self.graph.tail(a as u32).unwrap() as usize;
                let h = self.graph.head(a as u32).unwrap() as usize;
                let c = self.unit_costs[a];
                if flows[a] < self.capacities[a] {
                    match pi[h].checked_add(c) {
                        Some(bound) => {
                            if pi[t] > bound {
                                pi.set(t, bound);
                            }
                        },
                        None => {},
                    }
                }
                if flows[a] > 0 {
                    match pi[t].checked_sub(c) {
                        Some(bound) => {
                            if pi[h] > bound {
                                pi.set(h, bound);
                            }
                        },
                        None => {},
                    }
                }
                a += 1;
            }
            round += 1;
        }
        pi
    }

    /// Decides whether the potentials certify the flow's optimality: every
    /// residual step must have non-negative reduced cost.
    fn check_potentials(&self, flows: &Vec<i64>, pi: &Vec<i64>) -> (r: bool)
        requires
            min_cost_flow_wf(self@),
            flows@.len() == self@.flows.len(),
            pi@.len() == self@.graph.max_num_nodes,
        ensures
            r == potentials_certify(self@.graph, self@.capacities, self@.unit_costs, flows@, pi@),
    {
        let m = self.capacities.len();
        let mut a: usize = 0;
        while a < m
            invariant
                min_cost_flow_wf(self@),
                flows@.len() == self@.flows.len(),
                pi@.len() == self@.graph.max_num_nodes,
                m == self@.capacities.len(),
                a <= m,
                forall|a2: int|
                    0 <= a2 < a ==> ((#[trigger] flows@[a2]) < self@.capacities[a2]
                        ==> self@.unit_costs[a2] as int - pi@[(self@.graph.tails[a2]) as int] as int
                        + pi@[(self@.graph.heads[a2]) as int] as int >= 0) && (flows@[a2] > 0
                        ==> pi@[(self@.graph.tails[a2]) as int] as int - pi@[(
                    self@.graph.heads[a2]) as int] as int - self@.unit_costs[a2] as int >= 0),
            decreases m - a,
        {
            let t = self.graph.tail(a as u32).unwrap() as usize;
            let h = self.graph.head(a as u32).unwrap() as usize;
            let c = self.unit_costs[a] as i128;
            let pt = pi[t] as i128;
            let ph = pi[h] as i128;
            if flows[a] < self.capacities[a] && c - pt + ph < 0 {
                return false;
            }
            if flows[a] > 0 && pt - ph - c < 0 {
                return false;
            }
            a += 1;
        }
        true
    }

    /// Solves the problem: sends flow from supply nodes to demand nodes
    /// along cheapest residual paths, and returns its result only after
    /// the flow laws have been checked; the result reports `Optimal` when
    /// node potentials additionally certify its minimum cost, and
    /// `Feasible` otherwise. Success is owed whenever the flows the model
    /// already carries satisfy the laws, as a warm start does. Returns
    /// `None` when the supplies do not cancel out, or when no law-abiding
    /// flow was found; the status records which.
    pub fn solve(&mut self) -> (r: Option<MinCostFlowOutput>)
        requires
            min_cost_flow_wf(old(self)@),
        ensures
            min_cost_flow_wf(final(self)@),
            final(self)@.graph == old(self)@.graph,
            final(self)@.supplies == old(self)@.supplies,
            final(self)@.unit_costs == old(self)@.unit_costs,
            final(self)@.capacities == old(self)@.capacities,
            r is Some <==> (final(self)@.status == MinCostFlowStatus::Optimal
                || final(self)@.status == MinCostFlowStatus::Feasible),
            final(self)@.status == MinCostFlowStatus::Unbalanced <==> supply_sum(
                old(self)@.supplies,
            ) != 0,
            r matches Some(out) ==> {
                &&& out@.status == final(self)@.status
                &&& out@.flows == final(self)@.flows
                &&& out@.flows.len() == old(self)@.capacities.len()
                &&& out@.capacities == old(self)@.capacities
                &&& out@.unit_costs == old(self)@.unit_costs
                &&& out@.initial_supplies == old(self)@.supplies
                &&& flow_bounded(old(self)@.capacities, out@.flows)
                &&& flow_meets_supplies(old(self)@.graph, out@.flows, old(self)@.supplies)
            },
            (flow_bounded(old(self)@.capacities, old(self)@.flows) && flow_meets_supplies(
                old(self)@.graph,
                old(self)@.flows,
                old(self)@.supplies,
            )) ==> r is Some,
            (r is Some && final(self)@.status == MinCostFlowStatus::Optimal) ==> forall|
                other: Seq<i64>,
            |
                other.len() == old(self)@.capacities.len() && flow_bounded(
                    old(self)@.capacities,
                    other,
                ) && #[trigger] flow_meets_supplies(old(self)@.graph, other, old(self)@.supplies)
                    ==> exact_cost_prefix(
                    final(self)@.flows,
                    old(self)@.unit_costs,
                    old(self)@.capacities.len() as int,
                ) <= exact_cost_prefix(
                    other,
                    old(self)@.unit_costs,
                    old(self)@.capacities.len() as int,
                ),
    {
        let n = self.graph.num_nodes() as usize;
        let m = self.capacities.len();
        // The flows the model already carries may themselves satisfy the
        // flow laws, as a warm start does; then success is owed.
        let stored_ok = self.is_feasible_flow(&self.flows);
        let balance = self.total_supply();
        if balance != 0 {
            proof {
                if flow_meets_supplies(self@.graph, self@.flows, self@.supplies) {
                    lemma_feasible_implies_balanced(self@.graph, self@.flows, self@.supplies);
                }
            }
            self.status = MinCostFlowStatus::Unbalanced;
            return None;
        }
        // Start from the zero flow and the full supplies.
        let mut flows: Vec<i64> = Vec::new();
        let mut k: usize = 0;
        while k < m
            invariant
                flows@.len() == k,
                k <= m,
            decreases m - k,
        {
            flows.push(0);
            k += 1;
        }
        let mut remaining: Vec<i64> = Vec::new();
        let mut k: usize = 0;
        while k < n
            invariant
                min_cost_flow_wf(self@),
                n == self@.supplies.len(),
                remaining@.len() == k,
                k <= n,
            decreases n - k,
        {
            remaining.push(self.supplies[k]);
            k += 1;
        }
        // Each augmentation satisfies at least one unit of supply, so the
        // total positive supply bounds the number of augmentations.
        let mut fuel: u64 = 1;
        let mut k: usize = 0;
        while k < n
            invariant
                min_cost_flow_wf(self@),
                n == self@.supplies.len(),
                k <= n,
            decreases n - k,
        {
            if self.supplies[k] > 0 {
                fuel = fuel.saturating_add(self.supplies[k] as u64);
            }
            k += 1;
        }
        while fuel > 0
            invariant
                min_cost_flow_wf(self@),
                n == self@.graph.max_num_nodes,
                n == self@.supplies.len(),
                m == self@.capacities.len(),
                flows@.len() == m,
                remaining@.len() == n,
                n <= u32::MAX as usize,
                m <= u32::MAX as usize,
            decreases fuel,
        {
            fuel = fuel - 1;
            // A node with unmet positive supply.
            let mut src: usize = n;
            let mut k: usize = 0;
            while k < n
                invariant
                    remaining@.len() == n,
                    k <= n,
                    src <= n,
                decreases n - k,
            {
                if remaining[k] > 0 && src == n {
                    src = k;
                }
                k += 1;
            }
            if src == n {
                break ;
            }
            // Cheapest residual paths from that node, with one predecessor
            // arc per reached node: `2 * arc` forward, `2 * arc + 1`
            // backward.
            let mut dist: Vec<i128> = Vec::new();
            let mut pred: Vec<i64> = Vec::new();
            let mut k: usize = 0;
            while k < n
                invariant
                    dist@.len() == k,
                    pred@.len() == k,
                    k <= n,
                decreases n - k,
            {
                dist.push(i128::MAX);
                pred.push(-2);
                k += 1;
            }
            dist.set(src, 0);
            pred.set(src, -1);
            let mut round: usize = 0;
            while round < n
                invariant
                    min_cost_flow_wf(self@),
                    n == self@.graph.max_num_nodes,
                    m == self@.capacities.len(),
                    flows@.len() == m,
                    dist@.len() == n,
                    pred@.len() == n,
                    round <= n,
                decreases n - round,
            {
                let mut a: usize = 0;
                while a < m
                    invariant
                        min_cost_flow_wf(self@),
                        n == self@.graph.max_num_nodes,
                        m == self@.capacities.len(),
                        flows@.len() == m,
                        dist@.len() == n,
                        pred@.len() == n,
                        a <= m,
                    decreases m - a,
                {
                    let t = self.graph.tail(a as u32).unwrap() as usize;
                    let h = self.graph.head(a as u32).unwrap() as usize;
                    let c = self.unit_costs[a] as i128;
                    if flows[a] < self.capacities[a] && dist[t] != i128::MAX {
                        match dist[t].checked_add(c) {
                            Some(nd) => {
                                if nd < dist[h] {
                                    dist.set(h, nd);
                                    pred.set(h, 2 * (a as i64));
                                }
                            },
                            None => {},
                        }
                    }
                    if flows[a] > 0 && dist[h] != i128::MAX {
                        match dist[h].checked_sub(c) {
                            Some(nd) => {
                                if nd < dist[t] {
                                    dist.set(t, nd);
                                    pred.set(t, 2 * (a as i64) + 1);
                                }
                            },
                            None => {},
                        }
                    }
                    a += 1;
                }
                round += 1;
            }
            // The cheapest reachable node with unmet demand.
            let mut sink: usize = n;
            let mut k: usize = 0;
            while k < n
                invariant
                    remaining@.len() == n,
                    dist@.len() == n,
                    k <= n,
                    sink <= n,
                decreases n - k,
            {
                if remaining[k] < 0 && dist[k] != i128::MAX {
                    if sink == n || dist[k] < dist[sink] {
                        sink = k;
                    }
                }
                k += 1;
            }
            if sink == n {
                break ;
            }
            // Bottleneck along the predecessor chain.
            let n64 = n as u64;
            let mut bottleneck: i64 = remaining[src];
            if remaining[sink] != i64::MIN && -remaining[sink] < bottleneck {
                bottleneck = -remaining[sink];
            }
            let mut cur: usize = sink;
            let mut steps: u64 = 0;
            let mut reached = false;
            while steps <= n64 && !reached
                invariant
                    min_cost_flow_wf(self@),
                    n == self@.graph.max_num_nodes,
                    m == self@.capacities.len(),
                    flows@.len() == m,
                    pred@.len() == n,
                    cur < n,
                    src < n,
                    n64 == n,
                    steps <= n64 + 1,
                    n <= u32::MAX as usize,
                    m <= u32::MAX as usize,
                decreases n64 + 1 - steps,
            {
                if cur == src {
                    reached = true;
                } else {
                    let p = pred[cur];
                    if p < 0 {
                        break ;
                    }
                    let arc_wide = p / 2;
                    if arc_wide >= m as i64 {
                        break ;
                    }
                    let arc = arc_wide as usize;
                    let residual: i64 = if p % 2 == 0 {
                        match self.capacities[arc].checked_sub(flows[arc]) {
                            Some(x) => if x >= 0 {
                                x
                            } else {
                                0
                            },
                            None => 0,
                        }
                    } else {
                        flows[arc]
                    };
                    if residual < bottleneck {
                        bottleneck = residual;
                    }
                    cur = if p % 2 == 0 {
                        self.graph.tail(arc as u32).unwrap() as usize
                    } else {
                        self.graph.head(arc as u32).unwrap() as usize
                    };
                }
                steps += 1;
            }
            if !reached || bottleneck <= 0 {
                break ;
            }
            // Apply the augmentation along the same chain.
            let mut cur: usize = sink;
            let mut steps: u64 = 0;
            while steps <= n64 && cur != src
                invariant
                    min_cost_flow_wf(self@),
                    n == self@.graph.max_num_nodes,
                    m == self@.capacities.len(),
                    flows@.len() == m,
                    pred@.len() == n,
                    cur < n,
                    src < n,
                    n64 == n,
                    steps <= n64 + 1,
                    n <= u32::MAX as usize,
                    m <= u32::MAX as usize,
                decreases n64 + 1 - steps,
            {
                let p = pred[cur];
                if p < 0 {
                    break ;
                }
                let arc_wide = p / 2;
                if arc_wide >= m as i64 {
                    break ;
                }
                let arc = arc_wide as usize;
                if p % 2 == 0 {
                    let updated = match flows[arc].checked_add(bottleneck) {
                        Some(x) => x,
                        None => i64::MAX,
                    };
                    flows.set(arc, updated);
                    cur = self.graph.tail(arc as u32).unwrap() as usize;
                } else {
                    let updated = match flows[arc].checked_sub(bottleneck) {
                        Some(x) => x,
                        None => 0,
                    };
                    flows.set(arc, updated);
                    cur = self.graph.head(arc as u32).unwrap() as usize;
                }
                steps += 1;
            }
            let updated_src = match remaining[src].checked_sub(bottleneck) {
                Some(x) => x,
                None => i64::MIN,
            };
            remaining.set(src, updated_src);
            let updated_sink = match remaining[sink].checked_add(bottleneck) {
                Some(x) => x,
                None => i64::MAX,
            };
            remaining.set(sink, updated_sink);
        }
        if !self.is_feasible_flow(&flows) {
            if stored_ok {
                // Fall back to the law-abiding flows the model carried.
                let flows_copy = clone_quantity_vec(&self.flows);
                let pi = self.residual_potentials(&flows_copy);
                let status = if self.check_potentials(&flows_copy, &pi) {
                    proof {
                        assert forall|other: Seq<i64>|
                            other.len() == self@.capacities.len() && flow_bounded(
                                self@.capacities,
                                other,
                            ) && #[trigger] flow_meets_supplies(
                                self@.graph,
                                other,
                                self@.supplies,
                            ) implies exact_cost_prefix(
                            flows_copy@,
                            self@.unit_costs,
                            self@.capacities.len() as int,
                        ) <= exact_cost_prefix(
                            other,
                            self@.unit_costs,
                            self@.capacities.len() as int,
                        ) by {
                            lemma_certified_flow_is_minimum(
                                self@.graph,
                                self@.capacities,
                                self@.unit_costs,
                                self@.supplies,
                                flows_copy@,
                                other,
                                pi@,
                            );
                        }
                    }
                    MinCostFlowStatus::Optimal
                } else {
                    MinCostFlowStatus::Feasible
                };
                let capacities_copy = clone_quantity_vec(&self.capacities);
                let unit_costs_copy = clone_quantity_vec(&self.unit_costs);
                let supplies_copy = clone_quantity_vec(&self.supplies);
                self.status = status;
                return Some(
                    MinCostFlowOutput {
                        status,
                        flows: flows_copy,
                        capacities: capacities_copy,
                        unit_costs: unit_costs_copy,
                        initial_supplies: supplies_copy,
                    },
                );
            }
            self.status = MinCostFlowStatus::Infeasible;
            return None;
        }
        let pi = self.residual_potentials(&flows);
        let status = if self.check_potentials(&flows, &pi) {
            proof {
                assert forall|other: Seq<i64>|
                    other.len() == self@.capacities.len() && flow_bounded(self@.capacities, other)
                        && #[trigger] flow_meets_supplies(
                        self@.graph,
                        other,
                        self@.supplies,
                    ) implies exact_cost_prefix(
                    flows@,
                    self@.unit_costs,
                    self@.capacities.len() as int,
                ) <= exact_cost_prefix(
                    other,
                    self@.unit_costs,
                    self@.capacities.len() as int,
                ) by {
                    lemma_certified_flow_is_minimum(
                        self@.graph,
                        self@.capacities,
                        self@.unit_costs,
                        self@.supplies,
                        flows@,
                        other,
                        pi@,
                    );
                }
            }
            MinCostFlowStatus::Optimal
        } else {
            MinCostFlowStatus::Feasible
        };
        let flows_copy = clone_quantity_vec(&flows);
        let capacities_copy = clone_quantity_vec(&self.capacities);
        let unit_costs_copy = clone_quantity_vec(&self.unit_costs);
        let supplies_copy = clone_quantity_vec(&self.supplies);
        self.flows = flows;
        self.status = status;
        Some(
            MinCostFlowOutput {
                status,
                flows: flows_copy,
                capacities: capacities_copy,
                unit_costs: unit_costs_copy,
                initial_supplies: supplies_copy,
            },
        )
    }
}

/// Copies a table of flow quantities.
fn clone_quantity_vec(v: &Vec<i64>) -> (r: Vec<i64>)
    ensures
        r@ == v@,
{
    let r = v.clone();
    proof {
        assert forall|i: int| 0 <= i < v@.len() implies r@[i] == v@[i] by {
            assert(cloned::<i64>(v@[i], r@[i]));
        }
        assert(r@ =~= v@);
    }
    r
}

} // verus!
