//! Manager for any node <-> variable index conversion.
//!
//! The routing solver uses variable indices internally and through its API.
//! These variable indices are tricky to manage directly because one node can
//! correspond to a multitude of variables, depending on the number of times
//! it appears in the model, and if it is used as a start and/or end point.
//! This manager computes the mapping once, at construction, and is the single
//! source of truth for it afterwards: indices range between `0` and `n - 1`,
//! where `n = number of vehicles * 2 (for start and end nodes) + number of
//! non-start, non-end nodes`.
//!
//! The concrete layout places the non-depot nodes first, then one start
//! index per vehicle, then one end index per vehicle.

use vstd::prelude::*;

verus! {

/// The sentinel index standing for "no index assigned to this node".
pub const UNASSIGNED_INDEX: i64 = -1;

/// A problem-level node identifier.
#[derive(Clone, Copy, Debug, PartialEq, Eq, Structural, Hash)]
pub struct RoutingNodeIndex {
    /// The numeric identifier of the node.
    pub value: i32,
}

impl RoutingNodeIndex {
    /// Wraps a numeric node identifier.
    pub fn new(value: i32) -> (r: RoutingNodeIndex)
        ensures
            r.value == value,
    {
        RoutingNodeIndex { value }
    }

    /// The numeric identifier of the node.
    pub fn value(&self) -> (r: i32)
        ensures
            r == self.value,
    {
        self.value
    }
}

/// A growable list of node identifiers.
pub struct RoutingNodeIndexVector {
    items: Vec<RoutingNodeIndex>,
}

impl View for RoutingNodeIndexVector {
    type V = Seq<i32>;

    closed spec fn view(&self) -> Seq<i32> {
        self.items@.map_values(|x: RoutingNodeIndex| x.value)
    }
}

impl RoutingNodeIndexVector {
    /// An empty list.
    pub fn new() -> (r: RoutingNodeIndexVector)
        ensures
            r@ == Seq::<i32>::empty(),
    {
        let items: Vec<RoutingNodeIndex> = Vec::new();
        assert(items@.map_values(|x: RoutingNodeIndex| x.value) =~= Seq::<i32>::empty());
        RoutingNodeIndexVector { items }
    }

    /// How many nodes the list holds.
    pub fn len(&self) -> (r: usize)
        ensures
            r == self@.len(),
    {
        self.items.len()
    }

    /// Appends a node at the back.
    pub fn push(&mut self, value: RoutingNodeIndex)
        ensures
            final(self)@ == old(self)@.push(value.value),
    {
        self.items.push(value);
        assert(self.items@.map_values(|x: RoutingNodeIndex| x.value) =~= old(
            self,
        ).items@.map_values(|x: RoutingNodeIndex| x.value).push(value.value));
    }

    /// The node at position `k`, if there is one.
    pub fn get(&self, k: usize) -> (r: Option<RoutingNodeIndex>)
        ensures
            k < self@.len() ==> (r matches Some(x) && x.value == self@[k as int]),
            k >= self@.len() ==> r is None,
    {
        if k < self.items.len() {
            Some(self.items[k])
        } else {
            None
        }
    }
}

/// A growable list of (start, end) node pairs.
pub struct RoutingNodeIndexPairVector {
    items: Vec<(RoutingNodeIndex, RoutingNodeIndex)>,
}

impl View for RoutingNodeIndexPairVector {
    type V = Seq<(i32, i32)>;

    closed spec fn view(&self) -> Seq<(i32, i32)> {
        self.items@.map_values(|x: (RoutingNodeIndex, RoutingNodeIndex)| (x.0.value, x.1.value))
    }
}

impl RoutingNodeIndexPairVector {
    /// An empty list.
    pub fn new() -> (r: RoutingNodeIndexPairVector)
        ensures
            r@ == Seq::<(i32, i32)>::empty(),
    {
        let items: Vec<(RoutingNodeIndex, RoutingNodeIndex)> = Vec::new();
        assert(items@.map_values(|x: (RoutingNodeIndex, RoutingNodeIndex)| (x.0.value, x.1.value))
            =~= Seq::<(i32, i32)>::empty());
        RoutingNodeIndexPairVector { items }
    }

    /// How many pairs the list holds.
    pub fn len(&self) -> (r: usize)
        ensures
            r == self@.len(),
    {
        self.items.len()
    }

    /// Appends a (start, end) pair at the back.
    pub fn push(&mut self, start: RoutingNodeIndex, end: RoutingNodeIndex)
        ensures
            final(self)@ == old(self)@.push((start.value, end.value)),
    {
        self.items.push((start, end));
        assert(self.items@.map_values(
            |x: (RoutingNodeIndex, RoutingNodeIndex)| (x.0.value, x.1.value),
        ) =~= old(self).items@.map_values(
            |x: (RoutingNodeIndex, RoutingNodeIndex)| (x.0.value, x.1.value),
        ).push((start.value, end.value)));
    }

    /// The pair at position `k`, if there is one.
    pub fn get(&self, k: usize) -> (r: Option<(RoutingNodeIndex, RoutingNodeIndex)>)
        ensures
            k < self@.len() ==> (r matches Some(x) && x.0.value == self@[k as int].0 && x.1.value
                == self@[k as int].1),
            k >= self@.len() ==> r is None,
    {
        if k < self.items.len() {
            Some(self.items[k])
        } else {
            None
        }
    }
}

/// How the vehicles' start and end nodes are given to the manager.
pub enum RoutingIndexManagerVehiclePlan {
    /// All vehicles start and end at this single depot node.
    Depot(RoutingNodeIndex),
    /// Per-vehicle start nodes and end nodes, as two parallel lists.
    Lists {
        /// Start node of each vehicle.
        starts: RoutingNodeIndexVector,
        /// End node of each vehicle.
        ends: RoutingNodeIndexVector,
    },
    /// Per-vehicle (start, end) node pairs.
    Pair(RoutingNodeIndexPairVector),
}

/// The mathematical content of a manager: problem sizes, the per-vehicle
/// start and end nodes, and the two mapping tables.
pub struct RoutingIndexManagerV {
    /// Number of problem nodes.
    pub num_nodes: i32,
    /// Number of vehicles.
    pub num_vehicles: i32,
    /// Start node of each vehicle.
    pub starts: Seq<i32>,
    /// End node of each vehicle.
    pub ends: Seq<i32>,
    /// Node of each variable index; total over the index range.
    pub index_to_node: Seq<i32>,
    /// Index of each node, or `UNASSIGNED_INDEX`; partial by design.
    pub node_to_index: Seq<i64>,
    /// Number of distinct nodes used as a start or an end.
    pub num_unique_depots: i32,
}

impl RoutingIndexManagerV {
    /// Number of variable indices.
    pub open spec fn num_indices(self) -> int {
        self.index_to_node.len() as int
    }

    /// Number of variable indices that belong to no vehicle start or end.
    pub open spec fn base(self) -> int {
        self.num_indices() - 2 * (self.num_vehicles as int)
    }

    /// Start index of vehicle `v`.
    pub open spec fn start_index(self, v: int) -> int {
        self.base() + v
    }

    /// End index of vehicle `v`.
    pub open spec fn end_index(self, v: int) -> int {
        self.base() + (self.num_vehicles as int) + v
    }
}

/// Whether node `k` is the start node of some vehicle.
pub open spec fn is_start_node(m: RoutingIndexManagerV, k: int) -> bool {
    exists|v: int| 0 <= v < m.starts.len() && (#[trigger] m.starts[v]) as int == k
}

/// Whether node `k` is the end node of some vehicle.
pub open spec fn is_end_node(m: RoutingIndexManagerV, k: int) -> bool {
    exists|v: int| 0 <= v < m.ends.len() && (#[trigger] m.ends[v]) as int == k
}

/// Whether node `k` is used as a start or an end by some vehicle.
pub open spec fn is_depot_node(m: RoutingIndexManagerV, k: int) -> bool {
    is_start_node(m, k) || is_end_node(m, k)
}

/// For a node `k` that starts some vehicle: its index is the start index of
/// the first vehicle, in registration order, whose start is `k`.
pub open spec fn first_start_props(m: RoutingIndexManagerV, k: int) -> bool {
    let w = m.node_to_index[k] - m.base();
    &&& 0 <= w < m.num_vehicles as int
    &&& m.starts[w] as int == k
    &&& forall|u: int| 0 <= u < w ==> (#[trigger] m.starts[u]) as int != k
}

/// Well-formedness of a manager: the documented shape of the index space and
/// of the two mapping tables.
pub open spec fn manager_wf(m: RoutingIndexManagerV) -> bool {
    let nn = m.num_nodes as int;
    let nv = m.num_vehicles as int;
    let b = m.base();
    &&& 1 <= nv
    &&& 0 <= nn
    &&& nn + 2 * nv <= i32::MAX as int
    &&& m.starts.len() == nv
    &&& m.ends.len() == nv
    &&& forall|v: int| 0 <= v < nv ==> 0 <= (#[trigger] m.starts[v]) as int && ((m.starts[v]) as int) < nn
    &&& forall|v: int| 0 <= v < nv ==> 0 <= (#[trigger] m.ends[v]) as int && ((m.ends[v]) as int) < nn
    &&& m.node_to_index.len() == nn
    &&& 0 <= b <= nn
    &&& m.num_indices() == nn - (m.num_unique_depots as int) + 2 * nv
    &&& forall|i: int|
        0 <= i < b ==> 0 <= (#[trigger] m.index_to_node[i]) as int && ((m.index_to_node[i]) as int) < nn && !is_depot_node(
            m,
            m.index_to_node[i] as int,
        ) && m.node_to_index[m.index_to_node[i] as int] == i
    &&& forall|v: int| 0 <= v < nv ==> (#[trigger] m.index_to_node[b + v]) == m.starts[v]
    &&& forall|v: int| 0 <= v < nv ==> (#[trigger] m.index_to_node[b + nv + v]) == m.ends[v]
    &&& forall|k: int|
        0 <= k < nn && !is_depot_node(m, k) ==> 0 <= (#[trigger] m.node_to_index[k]) < b
            && m.index_to_node[m.node_to_index[k] as int] as int == k
    &&& forall|k: int| 0 <= k < nn && #[trigger] is_start_node(m, k) ==> first_start_props(m, k)
    &&& forall|k: int|
        0 <= k < nn && is_depot_node(m, k) && !is_start_node(m, k) ==> (
        #[trigger] m.node_to_index[k]) == UNASSIGNED_INDEX as int
}

/// The per-vehicle start nodes that a plan describes, for `nv` vehicles.
pub open spec fn plan_starts(plan: RoutingIndexManagerVehiclePlan, nv: int) -> Seq<i32> {
    match plan {
        RoutingIndexManagerVehiclePlan::Depot(d) => Seq::new(nv as nat, |i: int| d.value),
        RoutingIndexManagerVehiclePlan::Lists { starts, ends } => starts@,
        RoutingIndexManagerVehiclePlan::Pair(pairs) => pairs@.map_values(|x: (i32, i32)| x.0),
    }
}

/// The per-vehicle end nodes that a plan describes, for `nv` vehicles.
pub open spec fn plan_ends(plan: RoutingIndexManagerVehiclePlan, nv: int) -> Seq<i32> {
    match plan {
        RoutingIndexManagerVehiclePlan::Depot(d) => Seq::new(nv as nat, |i: int| d.value),
        RoutingIndexManagerVehiclePlan::Lists { starts, ends } => ends@,
        RoutingIndexManagerVehiclePlan::Pair(pairs) => pairs@.map_values(|x: (i32, i32)| x.1),
    }
}

/// Whether a plan is acceptable for `nn` nodes and `nv` vehicles: at least
/// one vehicle, index space within machine range, per-vehicle lists of the
/// right length, and every start or end node within `[0, nn)`.
pub open spec fn plan_ok(nn: i32, nv: i32, plan: RoutingIndexManagerVehiclePlan) -> bool {
    &&& 1 <= nv as int
    &&& 0 <= nn as int
    &&& nn as int + 2 * (nv as int) <= i32::MAX as int
    &&& plan_starts(plan, nv as int).len() == nv as int
    &&& plan_ends(plan, nv as int).len() == nv as int
    &&& forall|v: int|
        0 <= v < nv as int ==> 0 <= (#[trigger] plan_starts(plan, nv as int)[v]) as int && ((plan_starts(plan, nv as int)[v]) as int) < nn as int
    &&& forall|v: int|
        0 <= v < nv as int ==> 0 <= (#[trigger] plan_ends(plan, nv as int)[v]) as int && ((plan_ends(plan, nv as int)[v]) as int) < nn as int
}

/// Bidirectional mapping between problem nodes and the solver's variable
/// index space, including the per-vehicle start/end duplication.
///
/// The mapping is computed once, at construction, and never changes.
pub struct RoutingIndexManager {
    num_nodes: i32,
    num_vehicles: i32,
    starts: Vec<i32>,
    ends: Vec<i32>,
    index_to_node_table: Vec<i32>,
    node_to_index_table: Vec<i64>,
    unique_depots: i32,
}

impl View for RoutingIndexManager {
    type V = RoutingIndexManagerV;

    closed spec fn view(&self) -> RoutingIndexManagerV {
        RoutingIndexManagerV {
            num_nodes: self.num_nodes,
            num_vehicles: self.num_vehicles,
            starts: self.starts@,
            ends: self.ends@,
            index_to_node: self.index_to_node_table@,
            node_to_index: self.node_to_index_table@,
            num_unique_depots: self.unique_depots,
        }
    }
}

/// Copies a table of node identifiers.
fn clone_i32_vec(v: &Vec<i32>) -> (r: Vec<i32>)
    ensures
        r@ == v@,
{
    let r = v.clone();
    proof {
        assert forall|i: int| 0 <= i < v@.len() implies r@[i] == v@[i] by {
            assert(cloned::<i32>(v@[i], r@[i]));
        }
        assert(r@ =~= v@);
    }
    r
}

/// Copies a table of variable indices.
fn clone_i64_vec(v: &Vec<i64>) -> (r: Vec<i64>)
    ensures
        r@ == v@,
{
    let r = v.clone();
    proof {
        assert forall|i: int| 0 <= i < v@.len() implies r@[i] == v@[i] by {
            assert(cloned::<i64>(v@[i], r@[i]));
        }
        assert(r@ =~= v@);
    }
    r
}

impl Clone for RoutingIndexManager {
    /// The clone carries the very same mapping.
    fn clone(&self) -> (r: Self)
        ensures
            r@ == self@,
    {
        RoutingIndexManager {
            num_nodes: self.num_nodes,
            num_vehicles: self.num_vehicles,
            starts: clone_i32_vec(&self.starts),
            ends: clone_i32_vec(&self.ends),
            index_to_node_table: clone_i32_vec(&self.index_to_node_table),
            node_to_index_table: clone_i64_vec(&self.node_to_index_table),
            unique_depots: self.unique_depots,
        }
    }
}

impl RoutingIndexManager {
    /// Creates a node-to-variable-index mapping for a problem containing
    /// `num_nodes` nodes and `num_vehicles` vehicles with the given start and
    /// end plan. Returns `None`, constructing nothing, when the plan does not
    /// fit the problem: a start/end list whose length differs from
    /// `num_vehicles`, or a start/end node outside `[0, num_nodes)`.
    pub fn new(num_nodes: i32, num_vehicles: i32, plan: RoutingIndexManagerVehiclePlan) -> (r:
        Option<RoutingIndexManager>)
        ensures
            r is Some <==> plan_ok(num_nodes, num_vehicles, plan),
            r matches Some(m) ==> manager_wf(m@) && m@.num_nodes == num_nodes && m@.num_vehicles
                == num_vehicles && m@.starts == plan_starts(plan, num_vehicles as int) && m@.ends
                == plan_ends(plan, num_vehicles as int),
    {
        if num_vehicles < 1 || num_nodes < 0 {
            return None;
        }
        if (num_nodes as i64) + 2 * (num_vehicles as i64) > i32::MAX as i64 {
            return None;
        }
        let nv = num_vehicles as usize;
        let mut starts: Vec<i32> = Vec::new();
        let mut ends: Vec<i32> = Vec::new();
        match &plan {
            RoutingIndexManagerVehiclePlan::Depot(d) => {
                if d.value < 0 || d.value >= num_nodes {
                    proof {
                        assert(plan_starts(plan, num_vehicles as int)[0] == d.value);
                    }
                    return None;
                }
                let depot = d.value;
                let mut v: usize = 0;
                while v < nv
                    invariant
                        v <= nv,
                        starts@ =~= Seq::new(v as nat, |i: int| depot),
                        ends@ =~= Seq::new(v as nat, |i: int| depot),
                        0 <= depot < num_nodes,
                    decreases nv - v,
                {
                    starts.push(depot);
                    ends.push(depot);
                    v += 1;
                }
                proof {
                    assert(starts@ =~= plan_starts(plan, num_vehicles as int));
                    assert(ends@ =~= plan_ends(plan, num_vehicles as int));
                }
            },
            RoutingIndexManagerVehiclePlan::Lists { starts: s, ends: e } => {
                proof {
                    assert(plan_starts(plan, num_vehicles as int) == s@);
                    assert(plan_ends(plan, num_vehicles as int) == e@);
                }
                if s.len() != nv || e.len() != nv {
                    return None;
                }
                let mut v: usize = 0;
                while v < nv
                    invariant
                        v <= nv,
                        s@.len() == nv,
                        e@.len() == nv,
                        plan_starts(plan, num_vehicles as int) == s@,
                        plan_ends(plan, num_vehicles as int) == e@,
                        starts@ =~= s@.subrange(0, v as int),
                        ends@ =~= e@.subrange(0, v as int),
                        forall|u: int| 0 <= u < v ==> 0 <= (#[trigger] s@[u]) as int && ((s@[u]) as int) < num_nodes as int,
                        forall|u: int| 0 <= u < v ==> 0 <= (#[trigger] e@[u]) as int && ((e@[u]) as int) < num_nodes as int,
                    decreases nv - v,
                {
                    let sv = s.get(v).unwrap();
                    let ev = e.get(v).unwrap();
                    if sv.value < 0 || sv.value >= num_nodes || ev.value < 0 || ev.value
                        >= num_nodes {
                        proof {
                            assert(plan_starts(plan, num_vehicles as int)[v as int] == sv.value);
                            assert(plan_ends(plan, num_vehicles as int)[v as int] == ev.value);
                        }
                        return None;
                    }
                    starts.push(sv.value);
                    ends.push(ev.value);
                    v += 1;
                }
                proof {
                    assert(starts@ =~= plan_starts(plan, num_vehicles as int));
                    assert(ends@ =~= plan_ends(plan, num_vehicles as int));
                }
            },
            RoutingIndexManagerVehiclePlan::Pair(pairs) => {
                proof {
                    assert(plan_starts(plan, num_vehicles as int) == pairs@.map_values(
                        |x: (i32, i32)| x.0,
                    ));
                    assert(plan_ends(plan, num_vehicles as int) == pairs@.map_values(
                        |x: (i32, i32)| x.1,
                    ));
                }
                if pairs.len() != nv {
                    return None;
                }
                let mut v: usize = 0;
                while v < nv
                    invariant
                        v <= nv,
                        pairs@.len() == nv,
                        plan_starts(plan, num_vehicles as int) == pairs@.map_values(
                            |x: (i32, i32)| x.0,
                        ),
                        plan_ends(plan, num_vehicles as int) == pairs@.map_values(
                            |x: (i32, i32)| x.1,
                        ),
                        starts@ =~= pairs@.subrange(0, v as int).map_values(|x: (i32, i32)| x.0),
                        ends@ =~= pairs@.subrange(0, v as int).map_values(|x: (i32, i32)| x.1),
                        forall|u: int|
                            0 <= u < v ==> 0 <= (#[trigger] pairs@[u]).0 as int && (((pairs@[u]).0) as int) < num_nodes as int
                                && 0 <= pairs@[u].1 as int && (((pairs@[u]).1) as int) < num_nodes as int,
                    decreases nv - v,
                {
                    let p = pairs.get(v).unwrap();
                    if p.0.value < 0 || p.0.value >= num_nodes || p.1.value < 0 || p.1.value
                        >= num_nodes {
                        proof {
                            assert(plan_starts(plan, num_vehicles as int)[v as int] == pairs@[v as int].0);
                            assert(plan_ends(plan, num_vehicles as int)[v as int] == pairs@[v as int].1);
                        }
                        return None;
                    }
                    starts.push(p.0.value);
                    ends.push(p.1.value);
                    v += 1;
                }
                proof {
                    assert(pairs@.subrange(0, nv as int) =~= pairs@);
                    assert(starts@ =~= plan_starts(plan, num_vehicles as int));
                    assert(ends@ =~= plan_ends(plan, num_vehicles as int));
                }
            },
        }
        Some(Self::build(num_nodes, num_vehicles, starts, ends))
    }

    /// Computes the mapping tables from validated per-vehicle start and end
    /// node lists.
    fn build(num_nodes: i32, num_vehicles: i32, starts: Vec<i32>, ends: Vec<i32>) -> (r:
        RoutingIndexManager)
        requires
            1 <= num_vehicles as int,
            0 <= num_nodes as int,
            num_nodes as int + 2 * (num_vehicles as int) <= i32::MAX as int,
            starts@.len() == num_vehicles as int,
            ends@.len() == num_vehicles as int,
            forall|v: int| 0 <= v < starts@.len() ==> 0 <= (#[trigger] starts@[v]) as int && ((starts@[v]) as int) < num_nodes as int,
            forall|v: int| 0 <= v < ends@.len() ==> 0 <= (#[trigger] ends@[v]) as int && ((ends@[v]) as int) < num_nodes as int,
        ensures
            manager_wf(r@),
            r@.num_nodes == num_nodes,
            r@.num_vehicles == num_vehicles,
            r@.starts == starts@,
            r@.ends == ends@,
    {
        let n = num_nodes as usize;
        let nv = num_vehicles as usize;
        let ghost gm = RoutingIndexManagerV {
            num_nodes,
            num_vehicles,
            starts: starts@,
            ends: ends@,
            index_to_node: Seq::empty(),
            node_to_index: Seq::empty(),
            num_unique_depots: 0,
        };

        // Mark the nodes used as a start or an end by some vehicle.
        let mut is_depot: Vec<bool> = Vec::new();
        let mut k: usize = 0;
        while k < n
            invariant
                k <= n,
                is_depot@.len() == k,
                forall|j: int| 0 <= j < k ==> !(#[trigger] is_depot@[j]),
            decreases n - k,
        {
            is_depot.push(false);
            k += 1;
        }
        let mut v: usize = 0;
        while v < nv
            invariant
                v <= nv,
                is_depot@.len() == n,
                gm.starts == starts@,
                gm.ends == ends@,
                starts@.len() == nv,
                ends@.len() == nv,
                n == num_nodes as int,
                forall|u: int| 0 <= u < starts@.len() ==> 0 <= (#[trigger] starts@[u]) as int && ((starts@[u]) as int) < n,
                forall|u: int| 0 <= u < ends@.len() ==> 0 <= (#[trigger] ends@[u]) as int && ((ends@[u]) as int) < n,
                forall|j: int| 0 <= j < n && #[trigger] is_depot@[j] ==> is_depot_node(gm, j),
                forall|u: int| 0 <= u < v ==> is_depot@[(#[trigger] starts@[u]) as int],
                forall|u: int| 0 <= u < v ==> is_depot@[(#[trigger] ends@[u]) as int],
            decreases nv - v,
        {
            let s = starts[v];
            let e = ends[v];
            is_depot.set(s as usize, true);
            is_depot.set(e as usize, true);
            proof {
                assert(is_start_node(gm, s as int));
                assert(is_end_node(gm, e as int));
            }
            v += 1;
        }
        proof {
            assert forall|j: int| 0 <= j < n implies (is_depot@[j] <==> is_depot_node(gm, j)) by {
                if is_depot_node(gm, j) {
                    if is_start_node(gm, j) {
                        let u = choose|u: int|
                            0 <= u < gm.starts.len() && (#[trigger] gm.starts[u]) as int == j;
                        assert(is_depot@[(starts@[u]) as int]);
                    } else {
                        let u = choose|u: int|
                            0 <= u < gm.ends.len() && (#[trigger] gm.ends[u]) as int == j;
                        assert(is_depot@[(ends@[u]) as int]);
                    }
                }
            }
        }

        // Assign contiguous indices to the non-depot nodes.
        let mut index_to_node_table: Vec<i32> = Vec::new();
        let mut node_to_index_table: Vec<i64> = Vec::new();
        let mut k: usize = 0;
        while k < n
            invariant
                k <= n,
                node_to_index_table@.len() == k,
                forall|j: int| 0 <= j < k ==> #[trigger] node_to_index_table@[j] == -1,
            decreases n - k,
        {
            node_to_index_table.push(-1);
            k += 1;
        }
        let mut node: usize = 0;
        while node < n
            invariant
                node <= n,
                n == num_nodes as int,
                is_depot@.len() == n,
                forall|j: int| 0 <= j < n ==> (#[trigger] is_depot@[j] <==> is_depot_node(gm, j)),
                node_to_index_table@.len() == n,
                index_to_node_table@.len() <= node,
                forall|i: int|
                    0 <= i < index_to_node_table@.len() ==> 0 <= (
                    #[trigger] index_to_node_table@[i]) as int && ((
                    index_to_node_table@[i]) as int) < node && !is_depot_node(
                        gm,
                        index_to_node_table@[i] as int,
                    ) && node_to_index_table@[index_to_node_table@[i] as int] == i,
                forall|j: int|
                    0 <= j < node && !is_depot_node(gm, j) ==> 0 <= (
                    #[trigger] node_to_index_table@[j]) < index_to_node_table@.len()
                        && index_to_node_table@[node_to_index_table@[j] as int] as int == j,
                forall|j: int|
                    0 <= j < n && (j >= node || is_depot_node(gm, j)) ==> (
                    #[trigger] node_to_index_table@[j]) == -1,
            decreases n - node,
        {
            if !is_depot[node] {
                let idx = index_to_node_table.len();
                node_to_index_table.set(node, idx as i64);
                index_to_node_table.push(node as i32);
            }
            node += 1;
        }
        let b = index_to_node_table.len();
        proof {
            assert(b <= n);
        }

        // One start index per vehicle; a start node resolves to the start
        // index of the first vehicle using it.
        let ghost base_node_to_index = node_to_index_table@;
        let mut v: usize = 0;
        while v < nv
            invariant
                v <= nv,
                n == num_nodes as int,
                nv == num_vehicles as int,
                b <= n,
                gm.starts == starts@,
                starts@.len() == nv,
                forall|u: int| 0 <= u < starts@.len() ==> 0 <= (#[trigger] starts@[u]) as int && ((starts@[u]) as int) < n,
                index_to_node_table@.len() == b + v,
                node_to_index_table@.len() == n,
                base_node_to_index.len() == n,
                forall|i: int|
                    0 <= i < b ==> 0 <= (#[trigger] index_to_node_table@[i]) as int && ((index_to_node_table@[i]) as int) < n
                        && !is_depot_node(gm, index_to_node_table@[i] as int)
                        && node_to_index_table@[index_to_node_table@[i] as int] == i,
                forall|u: int|
                    0 <= u < v ==> (#[trigger] index_to_node_table@[b + u]) == starts@[u],
                forall|j: int|
                    0 <= j < n && !is_depot_node(gm, j) ==> (#[trigger] node_to_index_table@[j])
                        == base_node_to_index[j] && 0 <= node_to_index_table@[j] < b
                        && index_to_node_table@[node_to_index_table@[j] as int] as int == j,
                forall|j: int|
                    0 <= j < n && is_depot_node(gm, j) && !(exists|u: int|
                        0 <= u < v && (#[trigger] starts@[u]) as int == j) ==> (
                    #[trigger] node_to_index_table@[j]) == -1,
                forall|j: int|
                    0 <= j < n && (exists|u: int| 0 <= u < v && (#[trigger] starts@[u]) as int == j)
                        ==> {
                        let w = (#[trigger] node_to_index_table@[j]) - b;
                        &&& 0 <= w < v
                        &&& starts@[w] as int == j
                        &&& forall|u: int| 0 <= u < w ==> (#[trigger] starts@[u]) as int != j
                    },
            decreases nv - v,
        {
            let s = starts[v];
            if node_to_index_table[s as usize] == -1 {
                let idx = index_to_node_table.len();
                node_to_index_table.set(s as usize, idx as i64);
            }
            index_to_node_table.push(s);
            proof {
                assert(starts@[v as int] as int == s as int);
            }
            v += 1;
        }

        // One end index per vehicle; end indices are not reachable from a
        // node lookup.
        let ghost mid_table = index_to_node_table@;
        let mut v: usize = 0;
        while v < nv
            invariant
                v <= nv,
                nv == num_vehicles as int,
                gm.ends == ends@,
                ends@.len() == nv,
                mid_table.len() == b + nv,
                index_to_node_table@.len() == b + nv + v,
                forall|i: int|
                    0 <= i < b + nv ==> (#[trigger] index_to_node_table@[i]) == mid_table[i],
                forall|u: int|
                    0 <= u < v ==> (#[trigger] index_to_node_table@[b + nv + u]) == ends@[u],
            decreases nv - v,
        {
            index_to_node_table.push(ends[v]);
            v += 1;
        }

        let unique_depots = (n - b) as i32;
        let r = RoutingIndexManager {
            num_nodes,
            num_vehicles,
            starts,
            ends,
            index_to_node_table,
            node_to_index_table,
            unique_depots,
        };
        proof {
            let m = r@;
            assert(m.base() == b);
            assert forall|k2: int| true implies #[trigger] is_depot_node(m, k2) == is_depot_node(
                gm,
                k2,
            ) && is_start_node(m, k2) == is_start_node(gm, k2) by {
                lemma_same_depots(gm, m, k2);
            }
            assert forall|i: int| 0 <= i < b implies 0 <= (#[trigger] m.index_to_node[i]) as int
                && ((m.index_to_node[i]) as int) < m.num_nodes as int && !is_depot_node(
                m,
                m.index_to_node[i] as int,
            ) && m.node_to_index[m.index_to_node[i] as int] == i by {
                assert(m.index_to_node[i] == mid_table[i]);
            }
            assert forall|vv: int| 0 <= vv < nv implies (#[trigger] m.index_to_node[b + vv])
                == m.starts[vv] by {
                assert(m.index_to_node[b + vv] == mid_table[b + vv]);
            }
            assert forall|k2: int|
                0 <= k2 < m.num_nodes as int && !is_depot_node(m, k2) implies 0 <= (
            #[trigger] m.node_to_index[k2]) < b && m.index_to_node[m.node_to_index[k2] as int] as int
                == k2 by {
                assert(!is_depot_node(gm, k2));
                assert(m.index_to_node[m.node_to_index[k2] as int] == mid_table[m.node_to_index[k2] as int]);
            }
            assert forall|k2: int|
                0 <= k2 < m.num_nodes as int && #[trigger] is_start_node(m, k2) implies first_start_props(
                m,
                k2,
            ) by {
                assert(is_start_node(gm, k2));
                let u = choose|u: int|
                    0 <= u < gm.starts.len() && (#[trigger] gm.starts[u]) as int == k2;
                assert(exists|u2: int| 0 <= u2 < nv && (#[trigger] starts@[u2]) as int == k2);
            }
            assert forall|k2: int|
                0 <= k2 < m.num_nodes as int && is_depot_node(m, k2) && !is_start_node(m, k2) implies (
            #[trigger] m.node_to_index[k2]) == UNASSIGNED_INDEX as int by {
                assert(is_depot_node(gm, k2));
                assert(!(exists|u: int| 0 <= u < nv && (#[trigger] starts@[u]) as int == k2));
            }
            assert(manager_wf(m));
        }
        r
    }

    /// Returns the number of nodes in the manager.
    pub fn num_nodes(&self) -> (r: i32)
        ensures
            r == self@.num_nodes,
    {
        self.num_nodes
    }

    /// Returns the number of vehicles in the manager.
    pub fn num_vehicles(&self) -> (r: i32)
        ensures
            r == self@.num_vehicles,
    {
        self.num_vehicles
    }

    /// Returns the number of variable indices mapped to nodes.
    pub fn num_indices(&self) -> (r: i32)
        requires
            manager_wf(self@),
        ensures
            r as int == self@.num_indices(),
    {
        self.index_to_node_table.len() as i32
    }

    /// Returns the start index of the given vehicle, or `None` for an
    /// out-of-range vehicle.
    pub fn get_start_index(&self, vehicle: i32) -> (r: Option<i64>)
        requires
            manager_wf(self@),
        ensures
            r is Some <==> 0 <= vehicle as int && (vehicle as int) < self@.num_vehicles as int,
            r matches Some(s) ==> s as int == self@.start_index(vehicle as int),
    {
        if vehicle < 0 || vehicle >= self.num_vehicles {
            return None;
        }
        let b = self.index_to_node_table.len() - 2 * (self.num_vehicles as usize);
        Some((b + vehicle as usize) as i64)
    }

    /// Returns the end index of the given vehicle, or `None` for an
    /// out-of-range vehicle.
    pub fn get_end_index(&self, vehicle: i32) -> (r: Option<i64>)
        requires
            manager_wf(self@),
        ensures
            r is Some <==> 0 <= vehicle as int && (vehicle as int) < self@.num_vehicles as int,
            r matches Some(s) ==> s as int == self@.end_index(vehicle as int),
    {
        if vehicle < 0 || vehicle >= self.num_vehicles {
            return None;
        }
        let b = self.index_to_node_table.len() - 2 * (self.num_vehicles as usize);
        Some((b + self.num_vehicles as usize + vehicle as usize) as i64)
    }

    /// Returns the index of a node, or `None` for a node outside the
    /// problem. A node can correspond to multiple indices if it is a start
    /// or end node; `UNASSIGNED_INDEX` is returned for all pure end nodes,
    /// and a node appearing more than once as a start resolves to the start
    /// index of the first vehicle using it.
    pub fn node_to_index(&self, node: &RoutingNodeIndex) -> (r: Option<i64>)
        requires
            manager_wf(self@),
        ensures
            r is Some <==> 0 <= node.value as int && (node.value as int) < self@.num_nodes as int,
            r matches Some(i) ==> i == self@.node_to_index[node.value as int],
    {
        if node.value < 0 || node.value >= self.num_nodes {
            return None;
        }
        Some(self.node_to_index_table[node.value as usize])
    }

    /// Returns the node corresponding to an index, or `None` for an index
    /// outside the valid range. A node may appear more than once, as the
    /// start or the end of multiple vehicles.
    pub fn index_to_node(&self, index: i64) -> (r: Option<RoutingNodeIndex>)
        requires
            manager_wf(self@),
        ensures
            r is Some <==> 0 <= index as int && (index as int) < self@.num_indices(),
            r matches Some(x) ==> x.value == self@.index_to_node[index as int],
    {
        if index < 0 || index >= self.index_to_node_table.len() as i64 {
            return None;
        }
        Some(RoutingNodeIndex { value: self.index_to_node_table[index as usize] })
    }

    /// Returns the number of distinct nodes used as a vehicle start or end.
    pub fn num_unique_depots(&self) -> (r: i32)
        ensures
            r == self@.num_unique_depots,
    {
        self.unique_depots
    }
}

/// Two manager views with the same start and end lists agree on which nodes
/// are starts, ends and depots.
proof fn lemma_same_depots(a: RoutingIndexManagerV, c: RoutingIndexManagerV, k: int)
    requires
        a.starts == c.starts,
        a.ends == c.ends,
    ensures
        is_start_node(a, k) == is_start_node(c, k),
        is_end_node(a, k) == is_end_node(c, k),
        is_depot_node(a, k) == is_depot_node(c, k),
{
    if is_start_node(a, k) {
        let v = choose|v: int| 0 <= v < a.starts.len() && (#[trigger] a.starts[v]) as int == k;
        assert(0 <= v < c.starts.len() && c.starts[v] as int == k);
    }
    if is_start_node(c, k) {
        let v = choose|v: int| 0 <= v < c.starts.len() && (#[trigger] c.starts[v]) as int == k;
        assert(0 <= v < a.starts.len() && a.starts[v] as int == k);
    }
    if is_end_node(a, k) {
        let v = choose|v: int| 0 <= v < a.ends.len() && (#[trigger] a.ends[v]) as int == k;
        assert(0 <= v < c.ends.len() && c.ends[v] as int == k);
    }
    if is_end_node(c, k) {
        let v = choose|v: int| 0 <= v < c.ends.len() && (#[trigger] c.ends[v]) as int == k;
        assert(0 <= v < a.ends.len() && a.ends[v] as int == k);
    }
}

/// The start indices recoverable through the manager are self-consistent:
/// for a vehicle whose start node no earlier vehicle shares, looking the
/// start index's node back up returns that same start index.
pub proof fn lemma_start_index_round_trip(m: RoutingIndexManagerV, v: int)
    requires
        manager_wf(m),
        0 <= v < m.num_vehicles as int,
        forall|u: int| 0 <= u < v ==> (#[trigger] m.starts[u]) != m.starts[v],
    ensures
        m.index_to_node[m.start_index(v)] == m.starts[v],
        m.node_to_index[m.starts[v] as int] == m.start_index(v),
{
    let b = m.base();
    let k = m.starts[v] as int;
    assert(m.index_to_node[b + v] == m.starts[v]);
    assert(is_start_node(m, k));
    assert(first_start_props(m, k));
    let w = m.node_to_index[k] - b;
    if w < v {
        assert(m.starts[w] as int == k);
        assert(false);
    }
    if w > v {
        assert((m.starts[v]) as int != k);
        assert(false);
    }
}

} // verus!
