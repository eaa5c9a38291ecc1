//! The vehicle routing model: path variables, cost callbacks, dimensions
//! and solved assignments.
//!
//! The model owns two sets of variables, all addressed in variable index
//! space (see the index manager):
//! - path variables: `next(i)` (successor of index `i`), `active(i)`
//!   (whether `i` is visited) and `vehicle(i)` (the route `i` belongs to,
//!   `-1` when unvisited). For every accepted assignment,
//!   `active(i) == 0 <=> next(i) == i <=> vehicle(i) == -1`, and
//!   `next(i) == j ==> vehicle(j) == vehicle(i)`.
//! - dimension variables, accumulating quantities along routes:
//!   `cumul(i, d)`, `transit(i, d)` and `slack(i, d)`, with
//!   `next(i) == j ==> cumul(j, d) == cumul(i, d) + transit(i, d) +
//!   slack(i, d)` in every accepted assignment.
//!
//! Cost callbacks are registered against the model and referenced through
//! small integer handles, assigned in registration order starting at zero.
//! The model owns every registered callback table for its whole lifetime;
//! no component ever holds a raw address into it.

use vstd::prelude::*;

use crate::sat::cp_model::IntVar;

use super::Constraint;
use super::Solver;
use super::constraint_holds;
use super::routing_enums::RoutingModelStatus;
use super::routing_index_manager::RoutingIndexManager;
use super::routing_index_manager::RoutingIndexManagerV;
use super::routing_index_manager::manager_wf;
use super::routing_parameters::RoutingModelParameters;
use super::routing_parameters::RoutingSearchParameters;

verus! {

/// The handle value standing for "no cost evaluator chosen".
pub const NO_EVALUATOR: i32 = -1;

/// The vehicle value standing for "no vehicle" on an unvisited index.
pub const NO_VEHICLE: i64 = -1;

/// Life stage of a model: being wired, or done with a solve.
#[derive(Clone, Copy, Debug, PartialEq, Eq, Structural)]
pub enum ModelState {
    /// Dimensions, callbacks and pairs may still be added.
    Building,
    /// A solve produced a feasible assignment; wiring is frozen.
    Solved,
    /// A solve ended without a feasible assignment; wiring is frozen.
    Infeasible,
}

/// A named cumulative quantity wired over the path graph.
///
/// Per variable index the dimension owns a `cumul`, a `transit`, a
/// `fixed_transit` and a `slack` variable, stored in one block of the
/// model's valuation starting at `base_var_id`.
pub struct RoutingDimension {
    name: String,
    base_var_id: usize,
    num_indices: usize,
    num_vehicles: usize,
    evaluator: i32,
    slack_max: i64,
    capacity: i64,
    fix_start_cumul_to_zero: bool,
    global_span_cost_coefficient: i64,
}

/// The mathematical content of a dimension.
pub struct RoutingDimensionV {
    /// The unique name of the dimension.
    pub name: Seq<char>,
    /// First valuation slot of the dimension's variable block.
    pub base_var_id: int,
    /// Number of variable indices of the owning model.
    pub num_indices: int,
    /// Number of vehicles of the owning model.
    pub num_vehicles: int,
    /// Handle of the transit callback.
    pub evaluator: i32,
    /// Upper bound of every slack variable.
    pub slack_max: i64,
    /// Upper bound of every cumul variable.
    pub capacity: i64,
    /// Whether every vehicle's start cumul is pinned to zero.
    pub fix_start_cumul_to_zero: bool,
    /// Weight of the dimension's global span in the objective.
    pub global_span_cost_coefficient: i64,
}

impl View for RoutingDimension {
    type V = RoutingDimensionV;

    closed spec fn view(&self) -> RoutingDimensionV {
        RoutingDimensionV {
            name: self.name@,
            base_var_id: self.base_var_id as int,
            num_indices: self.num_indices as int,
            num_vehicles: self.num_vehicles as int,
            evaluator: self.evaluator,
            slack_max: self.slack_max,
            capacity: self.capacity,
            fix_start_cumul_to_zero: self.fix_start_cumul_to_zero,
            global_span_cost_coefficient: self.global_span_cost_coefficient,
        }
    }
}

impl RoutingDimension {
    /// Valuation slot of the cumul variable of `index`.
    pub open spec fn spec_cumul_var_id(self, index: int) -> int {
        self@.base_var_id + index
    }

    /// Valuation slot of the transit variable of `index`.
    pub open spec fn spec_transit_var_id(self, index: int) -> int {
        self@.base_var_id + self@.num_indices + index
    }

    /// Valuation slot of the fixed transit variable of `index`.
    pub open spec fn spec_fixed_transit_var_id(self, index: int) -> int {
        self@.base_var_id + 2 * self@.num_indices + index
    }

    /// Valuation slot of the slack variable of `index`.
    pub open spec fn spec_slack_var_id(self, index: int) -> int {
        self@.base_var_id + 3 * self@.num_indices + index
    }

    /// Indices with a cumul variable: the whole index range.
    pub open spec fn cumul_index_ok(self, index: int) -> bool {
        0 <= index < self@.num_indices
    }

    /// Indices with transit and slack variables: all but the vehicle ends.
    pub open spec fn transit_index_ok(self, index: int) -> bool {
        0 <= index < self@.num_indices - self@.num_vehicles
    }

    /// Whether the dimension's variable block lies inside a valuation of
    /// `num_vars` slots.
    pub open spec fn block_ok(self, num_vars: int) -> bool {
        0 <= self@.base_var_id && self@.base_var_id + 4 * self@.num_indices <= num_vars
    }

    /// Get the cumul variable for the given node (given as variable index),
    /// or `None` for an index outside the valid range.
    pub fn cumul_var(&self, index: i64) -> (r: Option<IntVar>)
        requires
            self.block_ok(usize::MAX as int + 1),
        ensures
            r is Some <==> self.cumul_index_ok(index as int),
            r matches Some(x) ==> x.id as int == self.spec_cumul_var_id(index as int),
    {
        if index < 0 || index >= self.num_indices as i64 {
            return None;
        }
        Some(IntVar { id: self.base_var_id + index as usize })
    }

    /// Get the transit variable for the given node (given as variable
    /// index), or `None` for an index outside the valid range.
    pub fn transit_var(&self, index: i64) -> (r: Option<IntVar>)
        requires
            self.block_ok(usize::MAX as int + 1),
        ensures
            r is Some <==> self.transit_index_ok(index as int),
            r matches Some(x) ==> x.id as int == self.spec_transit_var_id(index as int),
    {
        if self.num_vehicles > self.num_indices {
            return None;
        }
        if index < 0 || index >= (self.num_indices - self.num_vehicles) as i64 {
            return None;
        }
        Some(IntVar { id: self.base_var_id + self.num_indices + index as usize })
    }

    /// Get the fixed transit variable for the given node (given as variable
    /// index), or `None` for an index outside the valid range. Fixed transit
    /// is the portion of transit decided by the wiring alone.
    pub fn fixed_transit_var(&self, index: i64) -> (r: Option<IntVar>)
        requires
            self.block_ok(usize::MAX as int + 1),
        ensures
            r is Some <==> self.transit_index_ok(index as int),
            r matches Some(x) ==> x.id as int == self.spec_fixed_transit_var_id(index as int),
    {
        if self.num_vehicles > self.num_indices {
            return None;
        }
        if index < 0 || index >= (self.num_indices - self.num_vehicles) as i64 {
            return None;
        }
        Some(IntVar { id: self.base_var_id + 2 * self.num_indices + index as usize })
    }

    /// Get the slack variable for the given node (given as variable index),
    /// or `None` for an index outside the valid range.
    pub fn slack_var(&self, index: i64) -> (r: Option<IntVar>)
        requires
            self.block_ok(usize::MAX as int + 1),
        ensures
            r is Some <==> self.transit_index_ok(index as int),
            r matches Some(x) ==> x.id as int == self.spec_slack_var_id(index as int),
    {
        if self.num_vehicles > self.num_indices {
            return None;
        }
        if index < 0 || index >= (self.num_indices - self.num_vehicles) as i64 {
            return None;
        }
        Some(IntVar { id: self.base_var_id + 3 * self.num_indices + index as usize })
    }

    /// Sets a cost proportional to the global dimension span, that is the
    /// difference between the largest value of route end cumul variables and
    /// the smallest value of route start cumul variables:
    /// `global_span_cost = coefficient * (Max(end cumuls) - Min(start
    /// cumuls))`.
    pub fn set_global_span_cost_coefficient(&mut self, coefficient: i64)
        ensures
            final(self)@ == (RoutingDimensionV {
                global_span_cost_coefficient: coefficient,
                ..old(self)@
            }),
    {
        self.global_span_cost_coefficient = coefficient;
    }

    /// The unique name of the dimension.
    pub fn name(&self) -> (r: &String)
        ensures
            r@ == self@.name,
    {
        &self.name
    }
}

/// The mathematical content of a routing model: the index manager it is
/// built over, the registered callback tables, the wiring, and its state.
pub struct RoutingModelV {
    /// View of the owning index manager.
    pub manager: RoutingIndexManagerV,
    /// Registered callback tables; `callbacks[h][i][j]` is the value of
    /// callback `h` on the index pair `(i, j)`.
    pub callbacks: Seq<Seq<Seq<i64>>>,
    /// Handle of the arc cost evaluator of all vehicles, or `NO_EVALUATOR`.
    pub cost_evaluator: i32,
    /// The wired dimensions, in creation order.
    pub dimensions: Seq<RoutingDimensionV>,
    /// The recorded pickup/delivery index pairs.
    pub pickup_delivery_pairs: Seq<(i64, i64)>,
    /// The side constraints added through the solver.
    pub constraints: Seq<Constraint>,
    /// Total number of valuation slots of the model.
    pub num_vars: int,
    /// Life stage of the model.
    pub state: ModelState,
}

impl RoutingModelV {
    /// Number of variable indices.
    pub open spec fn s(self) -> int {
        self.manager.num_indices()
    }

    /// Number of vehicles.
    pub open spec fn nv(self) -> int {
        self.manager.num_vehicles as int
    }

    /// First start index; indices below it are plain nodes.
    pub open spec fn b(self) -> int {
        self.manager.base()
    }

    /// Number of indices owning next/active variables: all but the ends.
    pub open spec fn size(self) -> int {
        self.s() - self.nv()
    }

    /// Valuation slot of `next(i)`.
    pub open spec fn next_var_id(self, i: int) -> int {
        i
    }

    /// Valuation slot of `active(i)`.
    pub open spec fn active_var_id(self, i: int) -> int {
        self.s() + i
    }

    /// Valuation slot of `vehicle(i)`.
    pub open spec fn vehicle_var_id(self, i: int) -> int {
        2 * self.s() + i
    }

    /// Valuation slot of the global cost variable.
    pub open spec fn cost_var_id(self) -> int {
        3 * self.s()
    }

    /// Valuation slot of the per-vehicle activity variable.
    pub open spec fn active_vehicle_var_id(self, v: int) -> int {
        3 * self.s() + 1 + v
    }

    /// Valuation slot of the per-vehicle route-considered variable.
    pub open spec fn route_considered_var_id(self, v: int) -> int {
        3 * self.s() + 1 + self.nv() + v
    }

    /// Number of valuation slots before the dimension blocks.
    pub open spec fn fixed_var_count(self) -> int {
        3 * self.s() + 1 + 2 * self.nv()
    }
}

/// Whether callback table `h` has one row of one value per index pair.
pub open spec fn callback_table_ok(mv: RoutingModelV, h: int) -> bool {
    &&& mv.callbacks[h].len() == mv.s()
    &&& forall|i: int| 0 <= i < mv.s() ==> (#[trigger] mv.callbacks[h][i]).len() == mv.s()
}

/// Whether dimension `d` is wired consistently with its model: sizes match,
/// its evaluator is registered, and its variable block sits right after the
/// previous dimension's block, inside the valuation.
pub open spec fn dim_wired_ok(mv: RoutingModelV, d: int) -> bool {
    let dim = mv.dimensions[d];
    &&& dim.num_indices == mv.s()
    &&& dim.num_vehicles == mv.nv()
    &&& 0 <= dim.evaluator
    &&& (dim.evaluator as int) < mv.callbacks.len()
    &&& dim.base_var_id == if d == 0 {
        mv.fixed_var_count()
    } else {
        mv.dimensions[d - 1].base_var_id + 4 * mv.s()
    }
    &&& mv.fixed_var_count() <= dim.base_var_id
    &&& dim.base_var_id + 4 * mv.s() <= mv.num_vars
}

/// Well-formedness of a model: a well-formed manager, callback tables of
/// the right shape, dimensions with distinct names and consecutive variable
/// blocks, and a valuation size that closes the last block.
pub open spec fn model_wf(mv: RoutingModelV) -> bool {
    let s = mv.s();
    let nd = mv.dimensions.len() as int;
    &&& manager_wf(mv.manager)
    &&& mv.callbacks.len() <= i32::MAX
    &&& forall|h: int| 0 <= h < mv.callbacks.len() ==> #[trigger] callback_table_ok(mv, h)
    &&& NO_EVALUATOR <= mv.cost_evaluator
    &&& mv.cost_evaluator != NO_EVALUATOR ==> (mv.cost_evaluator as int) < mv.callbacks.len()
    &&& forall|d: int| 0 <= d < nd ==> #[trigger] dim_wired_ok(mv, d)
    &&& forall|d1: int, d2: int|
        0 <= d1 < nd && 0 <= d2 < nd && d1 != d2 ==> (#[trigger] mv.dimensions[d1]).name != (
        #[trigger] mv.dimensions[d2]).name
    &&& mv.num_vars == if nd == 0 {
        mv.fixed_var_count()
    } else {
        mv.dimensions[nd - 1].base_var_id + 4 * s
    }
    &&& mv.num_vars <= usize::MAX as int
}

/// Pushing a fresh dimension block at the end of the variable space keeps
/// a model well-formed.
proof fn lemma_push_dimension_wf(ov: RoutingModelV, nv: RoutingModelV, dimv: RoutingDimensionV)
    requires
        model_wf(ov),
        0 <= dimv.evaluator,
        (dimv.evaluator as int) < ov.callbacks.len(),
        dimv.num_indices == ov.s(),
        dimv.num_vehicles == ov.nv(),
        dimv.base_var_id == ov.num_vars,
        forall|d: int| 0 <= d < ov.dimensions.len() ==> (#[trigger] ov.dimensions[d]).name
            != dimv.name,
        nv == (RoutingModelV {
            dimensions: ov.dimensions.push(dimv),
            num_vars: ov.num_vars + 4 * ov.s(),
            ..ov
        }),
        nv.num_vars <= usize::MAX as int,
    ensures
        model_wf(nv),
{
    let nd = nv.dimensions.len() as int;
    assert(nv.s() == ov.s() && nv.nv() == ov.nv() && nv.fixed_var_count() == ov.fixed_var_count());
    assert forall|h: int| 0 <= h < nv.callbacks.len() implies #[trigger] callback_table_ok(
        nv,
        h,
    ) by {
        assert(callback_table_ok(ov, h));
    }
    assert forall|d: int| 0 <= d < nd implies #[trigger] dim_wired_ok(nv, d) by {
        if d < nd - 1 {
            assert(dim_wired_ok(ov, d));
            assert(nv.dimensions[d] == ov.dimensions[d]);
            if d > 0 {
                assert(nv.dimensions[d - 1] == ov.dimensions[d - 1]);
            }
        } else {
            assert(nv.dimensions[d] == dimv);
            if d > 0 {
                assert(dim_wired_ok(ov, d - 1));
                assert(nv.dimensions[d - 1] == ov.dimensions[d - 1]);
            }
        }
    }
    assert forall|d1: int, d2: int| 0 <= d1 < nd && 0 <= d2 < nd && d1 != d2 implies (
    #[trigger] nv.dimensions[d1]).name != (#[trigger] nv.dimensions[d2]).name by {
        if d1 < nd - 1 && d2 < nd - 1 {
            assert(ov.dimensions[d1].name != ov.dimensions[d2].name);
        } else if d1 == nd - 1 {
            assert(ov.dimensions[d2].name != dimv.name);
        } else {
            assert(ov.dimensions[d1].name != dimv.name);
        }
    }
}

/// A model stays well-formed when only its cost evaluator (kept in range),
/// its recorded pairs, its constraints or its state change.
proof fn lemma_wf_same_wiring(ov: RoutingModelV, nv: RoutingModelV)
    requires
        model_wf(ov),
        nv.manager == ov.manager,
        nv.callbacks == ov.callbacks,
        nv.dimensions == ov.dimensions,
        nv.num_vars == ov.num_vars,
        NO_EVALUATOR <= nv.cost_evaluator,
        nv.cost_evaluator != NO_EVALUATOR ==> (nv.cost_evaluator as int) < nv.callbacks.len(),
    ensures
        model_wf(nv),
{
    assert forall|h: int| 0 <= h < nv.callbacks.len() implies #[trigger] callback_table_ok(
        nv,
        h,
    ) by {
        assert(callback_table_ok(ov, h));
    }
    assert forall|d: int| 0 <= d < nv.dimensions.len() implies #[trigger] dim_wired_ok(nv, d) by {
        assert(dim_wired_ok(ov, d));
    }
}

/// The uniform arc cost the model charges a vehicle for the pair
/// `(from, to)`: the cost evaluator's value, or zero for a negative
/// vehicle, an out-of-range index, or no evaluator.
pub open spec fn spec_arc_cost(mv: RoutingModelV, from: int, to: int, vehicle: int) -> i64 {
    if vehicle < 0 {
        0
    } else if mv.cost_evaluator == NO_EVALUATOR {
        0
    } else if 0 <= from < mv.s() && 0 <= to < mv.s() {
        eval_callback(mv, mv.cost_evaluator as int, from, to)
    } else {
        0
    }
}

/// Whether the model already has a dimension named `name`.
pub open spec fn has_dimension(mv: RoutingModelV, name: Seq<char>) -> bool {
    exists|d: int| 0 <= d < mv.dimensions.len() && (#[trigger] mv.dimensions[d]).name == name
}

/// The position of the dimension named `name`.
pub open spec fn dimension_index_of(mv: RoutingModelV, name: Seq<char>) -> int {
    choose|d: int| 0 <= d < mv.dimensions.len() && (#[trigger] mv.dimensions[d]).name == name
}

/// Value of callback `h` on the index pair `(i, j)`.
pub open spec fn eval_callback(mv: RoutingModelV, h: int, i: int, j: int) -> i64 {
    mv.callbacks[h][i][j]
}

/// `next(i)` under the valuation `vals`.
pub open spec fn a_next(mv: RoutingModelV, vals: Seq<i64>, i: int) -> i64 {
    vals[mv.next_var_id(i)]
}

/// `active(i)` under the valuation `vals`.
pub open spec fn a_active(mv: RoutingModelV, vals: Seq<i64>, i: int) -> i64 {
    vals[mv.active_var_id(i)]
}

/// `vehicle(i)` under the valuation `vals`.
pub open spec fn a_vehicle(mv: RoutingModelV, vals: Seq<i64>, i: int) -> i64 {
    vals[mv.vehicle_var_id(i)]
}

/// The global cost under the valuation `vals`.
pub open spec fn a_cost(mv: RoutingModelV, vals: Seq<i64>) -> i64 {
    vals[mv.cost_var_id()]
}

/// The per-vehicle activity value under the valuation `vals`.
pub open spec fn a_active_vehicle(mv: RoutingModelV, vals: Seq<i64>, v: int) -> i64 {
    vals[mv.active_vehicle_var_id(v)]
}

/// The per-vehicle route-considered value under the valuation `vals`.
pub open spec fn a_route_considered(mv: RoutingModelV, vals: Seq<i64>, v: int) -> i64 {
    vals[mv.route_considered_var_id(v)]
}

/// `cumul(i, d)` under the valuation `vals`.
pub open spec fn a_cumul(mv: RoutingModelV, vals: Seq<i64>, d: int, i: int) -> i64 {
    vals[mv.dimensions[d].base_var_id + i]
}

/// `transit(i, d)` under the valuation `vals`.
pub open spec fn a_transit(mv: RoutingModelV, vals: Seq<i64>, d: int, i: int) -> i64 {
    vals[mv.dimensions[d].base_var_id + mv.s() + i]
}

/// `fixed_transit(i, d)` under the valuation `vals`.
pub open spec fn a_fixed_transit(mv: RoutingModelV, vals: Seq<i64>, d: int, i: int) -> i64 {
    vals[mv.dimensions[d].base_var_id + 2 * mv.s() + i]
}

/// `slack(i, d)` under the valuation `vals`.
pub open spec fn a_slack(mv: RoutingModelV, vals: Seq<i64>, d: int, i: int) -> i64 {
    vals[mv.dimensions[d].base_var_id + 3 * mv.s() + i]
}

/// The path-variable clauses at one index `i` with next/active/vehicle
/// variables: the successor in range,
/// `active(i) == 0 <=> next(i) == i <=> vehicle(i) == -1`, the successor's
/// vehicle equal to the predecessor's, and plain nodes visited.
pub open spec fn path_index_ok(mv: RoutingModelV, vals: Seq<i64>, i: int) -> bool {
    &&& 0 <= a_next(mv, vals, i)
    &&& ((a_next(mv, vals, i)) as int) < mv.s()
    &&& a_active(mv, vals, i) == if a_next(mv, vals, i) as int == i {
        0i64
    } else {
        1i64
    }
    &&& (a_next(mv, vals, i) as int == i <==> a_vehicle(mv, vals, i) == NO_VEHICLE)
    &&& a_next(mv, vals, i) as int != i ==> a_vehicle(mv, vals, a_next(mv, vals, i) as int)
        == a_vehicle(mv, vals, i)
    &&& i < mv.b() ==> a_active(mv, vals, i) == 1i64
}

/// The path-variable clauses of one vehicle `v`: its start and end belong
/// to it, and the per-vehicle activity values mirror route emptiness.
pub open spec fn path_vehicle_ok(mv: RoutingModelV, vals: Seq<i64>, v: int) -> bool {
    let empty_route = a_next(mv, vals, mv.b() + v) as int == mv.b() + mv.nv() + v;
    &&& (a_vehicle(mv, vals, mv.b() + v)) as int == v
    &&& (a_vehicle(mv, vals, mv.b() + mv.nv() + v)) as int == v
    &&& a_active_vehicle(mv, vals, v) == if empty_route {
        0i64
    } else {
        1i64
    }
    &&& a_route_considered(mv, vals, v) == if empty_route {
        0i64
    } else {
        1i64
    }
}

/// Whether `x` is the end index of some vehicle.
pub open spec fn is_end_index(mv: RoutingModelV, x: int) -> bool {
    mv.b() + mv.nv() <= x < mv.s()
}

/// The index reached from `i` after `k` successor steps; chains stop at
/// vehicle ends, which have no successor variable.
pub open spec fn nth_next(mv: RoutingModelV, vals: Seq<i64>, i: int, k: nat) -> int
    decreases k,
{
    if k == 0 {
        i
    } else {
        let p = nth_next(mv, vals, i, (k - 1) as nat);
        if is_end_index(mv, p) {
            p
        } else {
            a_next(mv, vals, p) as int
        }
    }
}

/// Whether following the successors from `i` reaches some vehicle end
/// within the index count.
pub open spec fn reaches_an_end(mv: RoutingModelV, vals: Seq<i64>, i: int) -> bool {
    exists|k: int|
        0 <= k <= mv.size() && is_end_index(mv, #[trigger] nth_next(mv, vals, i, k as nat))
}

/// The path-variable invariant of an accepted assignment: the per-index and
/// per-vehicle clauses, no two indices sharing a successor, and every
/// on-route index leading to a vehicle end. Together these decompose an
/// accepted assignment into vehicle routes: each route is a simple chain
/// from a start to an end, and every visited index lies on exactly one.
pub open spec fn path_valid(mv: RoutingModelV, vals: Seq<i64>) -> bool {
    &&& forall|i: int| 0 <= i < mv.size() ==> #[trigger] path_index_ok(mv, vals, i)
    &&& forall|v: int| 0 <= v < mv.nv() ==> #[trigger] path_vehicle_ok(mv, vals, v)
    &&& forall|i: int, j: int|
        0 <= i < mv.size() && 0 <= j < mv.size() && i != j ==> #[trigger] a_next(mv, vals, i)
            != #[trigger] a_next(mv, vals, j)
    &&& forall|i: int|
        0 <= i < mv.size() && a_next(mv, vals, i) as int != i ==> #[trigger] reaches_an_end(
            mv,
            vals,
            i,
        )
}

/// The clauses of dimension `d` at one index `i` with transit and slack
/// variables: the transit equals the evaluator on the taken arc (zero
/// off-route), fixed transit equals transit, the slack lies in
/// `[0, slack_max]` and vanishes off-route, and the recurrence
/// `cumul(next(i)) == cumul(i) + transit(i) + slack(i)` holds.
pub open spec fn dim_index_ok(mv: RoutingModelV, vals: Seq<i64>, d: int, i: int) -> bool {
    let dim = mv.dimensions[d];
    &&& a_transit(mv, vals, d, i) == if a_next(mv, vals, i) as int != i {
        eval_callback(mv, dim.evaluator as int, i, a_next(mv, vals, i) as int)
    } else {
        0i64
    }
    &&& a_fixed_transit(mv, vals, d, i) == a_transit(mv, vals, d, i)
    &&& 0 <= a_slack(mv, vals, d, i)
    &&& a_slack(mv, vals, d, i) <= dim.slack_max
    &&& a_next(mv, vals, i) as int == i ==> a_slack(mv, vals, d, i) == 0i64
    &&& a_cumul(mv, vals, d, a_next(mv, vals, i) as int) as int == a_cumul(mv, vals, d, i) as int
        + a_transit(mv, vals, d, i) as int + a_slack(mv, vals, d, i) as int
}

/// The cumul bound of dimension `d` at index `i`: within `[0, capacity]`.
pub open spec fn dim_cumul_ok(mv: RoutingModelV, vals: Seq<i64>, d: int, i: int) -> bool {
    &&& 0 <= a_cumul(mv, vals, d, i)
    &&& a_cumul(mv, vals, d, i) <= mv.dimensions[d].capacity
}

/// The start-cumul clause of dimension `d` for vehicle `v`: pinned to zero
/// when the dimension asks for it.
pub open spec fn dim_start_ok(mv: RoutingModelV, vals: Seq<i64>, d: int, v: int) -> bool {
    mv.dimensions[d].fix_start_cumul_to_zero ==> a_cumul(mv, vals, d, mv.b() + v) == 0i64
}

/// The invariant of one wired dimension in an accepted assignment.
pub open spec fn dim_valid(mv: RoutingModelV, vals: Seq<i64>, d: int) -> bool {
    &&& forall|i: int| 0 <= i < mv.size() ==> #[trigger] dim_index_ok(mv, vals, d, i)
    &&& forall|i: int| 0 <= i < mv.s() ==> #[trigger] dim_cumul_ok(mv, vals, d, i)
    &&& forall|v: int| 0 <= v < mv.nv() ==> #[trigger] dim_start_ok(mv, vals, d, v)
}

/// The dimension invariants of every wired dimension.
pub open spec fn dims_valid(mv: RoutingModelV, vals: Seq<i64>) -> bool {
    forall|d: int| 0 <= d < mv.dimensions.len() ==> #[trigger] dim_valid(mv, vals, d)
}

/// Every side constraint added through the solver holds.
pub open spec fn constraints_valid(mv: RoutingModelV, vals: Seq<i64>) -> bool {
    forall|c: int|
        0 <= c < mv.constraints.len() ==> constraint_holds(#[trigger] mv.constraints[c], vals)
}

/// Objective contribution of the arc leaving index `i`: the cost
/// evaluator's value on the taken arc, zero off-route or with no evaluator.
pub open spec fn arc_cost_term(mv: RoutingModelV, vals: Seq<i64>, i: int) -> int {
    if mv.cost_evaluator != NO_EVALUATOR && a_next(mv, vals, i) as int != i {
        eval_callback(mv, mv.cost_evaluator as int, i, a_next(mv, vals, i) as int) as int
    } else {
        0
    }
}

/// Sum of the arc cost terms of the indices below `k`.
pub open spec fn arc_cost_prefix(mv: RoutingModelV, vals: Seq<i64>, k: int) -> int
    decreases k,
{
    if k <= 0 {
        0
    } else {
        arc_cost_prefix(mv, vals, k - 1) + arc_cost_term(mv, vals, k - 1)
    }
}

/// Largest end cumul of dimension `d` among the vehicles below `k`.
pub open spec fn max_end_cumul(mv: RoutingModelV, vals: Seq<i64>, d: int, k: int) -> int
    decreases k,
{
    if k <= 1 {
        a_cumul(mv, vals, d, mv.b() + mv.nv()) as int
    } else {
        let rest = max_end_cumul(mv, vals, d, k - 1);
        let c = a_cumul(mv, vals, d, mv.b() + mv.nv() + k - 1) as int;
        if c > rest {
            c
        } else {
            rest
        }
    }
}

/// Smallest start cumul of dimension `d` among the vehicles below `k`.
pub open spec fn min_start_cumul(mv: RoutingModelV, vals: Seq<i64>, d: int, k: int) -> int
    decreases k,
{
    if k <= 1 {
        a_cumul(mv, vals, d, mv.b()) as int
    } else {
        let rest = min_start_cumul(mv, vals, d, k - 1);
        let c = a_cumul(mv, vals, d, mv.b() + k - 1) as int;
        if c < rest {
            c
        } else {
            rest
        }
    }
}

/// Objective contribution of dimension `d`'s global span: its coefficient
/// times the spread between the largest end cumul and the smallest start
/// cumul.
pub open spec fn span_cost_term(mv: RoutingModelV, vals: Seq<i64>, d: int) -> int {
    (mv.dimensions[d].global_span_cost_coefficient as int) * (max_end_cumul(mv, vals, d, mv.nv())
        - min_start_cumul(mv, vals, d, mv.nv()))
}

/// The objective summed term by term: first the arc cost of each index
/// below `size`, then the span cost of each dimension.
pub open spec fn objective_prefix(mv: RoutingModelV, vals: Seq<i64>, k: int) -> int
    decreases k,
{
    if k <= 0 || k <= mv.size() {
        arc_cost_prefix(mv, vals, k)
    } else {
        objective_prefix(mv, vals, k - 1) + span_cost_term(mv, vals, k - 1 - mv.size())
    }
}

/// The cost clauses of an accepted assignment: every partial sum of the
/// objective and every span product stays within the 64-bit range (nothing
/// is silently truncated), and the cost variable carries the total.
pub open spec fn cost_valid(mv: RoutingModelV, vals: Seq<i64>) -> bool {
    let terms = mv.size() + mv.dimensions.len();
    &&& forall|k: int|
        0 <= k <= terms ==> i64::MIN <= #[trigger] objective_prefix(mv, vals, k)
            && objective_prefix(mv, vals, k) <= i64::MAX
    &&& forall|d: int|
        0 <= d < mv.dimensions.len() ==> i64::MIN <= #[trigger] span_cost_term(mv, vals, d)
            && span_cost_term(mv, vals, d) <= i64::MAX
    &&& a_cost(mv, vals) as int == objective_prefix(mv, vals, terms)
}

/// What it means for a valuation to be an accepted assignment of the wired
/// model: the right shape, the path invariants, every dimension invariant,
/// every side constraint, and a truthful cost.
pub open spec fn valid_assignment(mv: RoutingModelV, vals: Seq<i64>) -> bool {
    &&& vals.len() == mv.num_vars
    &&& path_valid(mv, vals)
    &&& dims_valid(mv, vals)
    &&& constraints_valid(mv, vals)
    &&& cost_valid(mv, vals)
}


/// Clamps a mathematical integer into the 64-bit range.
pub open spec fn clamped64(v: int) -> i64 {
    if v > i64::MAX {
        i64::MAX
    } else if v < i64::MIN {
        i64::MIN
    } else {
        v as i64
    }
}

/// The successor of index `i` on the canonical tour: vehicle zero walks the
/// plain indices in increasing order and closes at its end; every other
/// vehicle drives straight from its start to its end.
pub open spec fn canonical_next(mv: RoutingModelV, i: int) -> int {
    if i < mv.b() - 1 {
        i + 1
    } else if i == mv.b() - 1 {
        mv.b() + mv.nv()
    } else if i == mv.b() {
        if mv.b() > 0 {
            0
        } else {
            mv.b() + mv.nv()
        }
    } else {
        i + mv.nv()
    }
}

/// Objective contribution of the canonical arc leaving index `i`.
pub open spec fn canonical_arc_term(mv: RoutingModelV, i: int) -> int {
    if mv.cost_evaluator != NO_EVALUATOR {
        eval_callback(mv, mv.cost_evaluator as int, i, canonical_next(mv, i)) as int
    } else {
        0
    }
}

/// Sum of the canonical arc terms of the indices below `k`.
pub open spec fn canonical_arc_prefix(mv: RoutingModelV, k: int) -> int
    decreases k,
{
    if k <= 0 {
        0
    } else {
        canonical_arc_prefix(mv, k - 1) + canonical_arc_term(mv, k - 1)
    }
}

/// The value of valuation slot `t` on the canonical tour: the tour's
/// successors, every index active, every plain index on vehicle zero, the
/// clamped tour cost, and zeroes in all dimension blocks.
pub open spec fn canonical_slot(mv: RoutingModelV, t: int) -> i64 {
    let s = mv.s();
    let z = mv.size();
    let b = mv.b();
    let nv = mv.nv();
    if t < z {
        canonical_next(mv, t) as i64
    } else if t < s {
        0
    } else if t < s + z {
        1
    } else if t < 2 * s {
        0
    } else if t < 2 * s + b {
        0
    } else if t < 2 * s + b + nv {
        (t - 2 * s - b) as i64
    } else if t < 3 * s {
        (t - 2 * s - b - nv) as i64
    } else if t == 3 * s {
        clamped64(canonical_arc_prefix(mv, z))
    } else if t == 3 * s + 1 {
        if b > 0 {
            1
        } else {
            0
        }
    } else if t < 3 * s + 1 + nv {
        0
    } else if t == 3 * s + 1 + nv {
        if b > 0 {
            1
        } else {
            0
        }
    } else {
        0
    }
}

/// The canonical tour as a full valuation of the model.
pub open spec fn canonical_assignment(mv: RoutingModelV) -> Seq<i64> {
    Seq::new(mv.num_vars as nat, |t: int| canonical_slot(mv, t))
}

/// A vehicle routing model over an index manager: it owns the path and
/// dimension variables, binds cost evaluators, records pickup/delivery
/// pairs and side constraints, and hands a fully wired model to the solve.
///
/// A model starts in the `Building` state, in which dimensions, callbacks
/// and pairs may be added; the first solve freezes the wiring. Solving
/// again re-uses the same wiring.
pub struct RoutingModel {
    manager: RoutingIndexManager,
    callbacks: Vec<Vec<Vec<i64>>>,
    cost_evaluator: i32,
    dimensions: Vec<RoutingDimension>,
    pickup_delivery_pairs: Vec<(i64, i64)>,
    solver: Solver,
    num_vars: usize,
    state: ModelState,
}

impl View for RoutingModel {
    type V = RoutingModelV;

    closed spec fn view(&self) -> RoutingModelV {
        RoutingModelV {
            manager: self.manager@,
            callbacks: self.callbacks.deep_view(),
            cost_evaluator: self.cost_evaluator,
            dimensions: self.dimensions@.map_values(|d: RoutingDimension| d@),
            pickup_delivery_pairs: self.pickup_delivery_pairs@,
            constraints: self.solver@,
            num_vars: self.num_vars as int,
            state: self.state,
        }
    }
}

impl RoutingModel {
    /// Constructor taking an index manager, whose mapping the model copies
    /// and uses for its whole life. Passing no parameters is equivalent to
    /// passing the defaults. Returns `None` only when the variable space
    /// would not fit the machine's address range.
    pub fn new(index_manager: &RoutingIndexManager, parameters: Option<RoutingModelParameters>) -> (r:
        Option<RoutingModel>)
        requires
            manager_wf(index_manager@),
        ensures
            r is Some <==> 3 * index_manager@.num_indices() + 1 + 2 * (
            index_manager@.num_vehicles as int) <= usize::MAX as int,
            r matches Some(m) ==> model_wf(m@) && m@ == (RoutingModelV {
                manager: index_manager@,
                callbacks: Seq::empty(),
                cost_evaluator: NO_EVALUATOR,
                dimensions: Seq::empty(),
                pickup_delivery_pairs: Seq::empty(),
                constraints: Seq::empty(),
                num_vars: 3 * index_manager@.num_indices() + 1 + 2 * (
                index_manager@.num_vehicles as int),
                state: ModelState::Building,
            }),
    {
        let s = index_manager.num_indices() as usize;
        let nv = index_manager.num_vehicles() as usize;
        let t = match (3usize).checked_mul(s) {
            Some(x) => x,
            None => { return None },
        };
        let t = match t.checked_add(1) {
            Some(x) => x,
            None => { return None },
        };
        let nv2 = match nv.checked_add(nv) {
            Some(x) => x,
            None => { return None },
        };
        let num_vars = match t.checked_add(nv2) {
            Some(x) => x,
            None => { return None },
        };
        let callbacks: Vec<Vec<Vec<i64>>> = Vec::new();
        let dimensions: Vec<RoutingDimension> = Vec::new();
        let _ = parameters;
        let m = RoutingModel {
            manager: index_manager.clone(),
            callbacks,
            cost_evaluator: NO_EVALUATOR,
            dimensions,
            pickup_delivery_pairs: Vec::new(),
            solver: Solver::new(),
            num_vars,
            state: ModelState::Building,
        };
        proof {
            assert(m@.callbacks =~= Seq::<Seq<Seq<i64>>>::empty());
            assert(m@.dimensions =~= Seq::<RoutingDimensionV>::empty());
        }
        Some(m)
    }

    /// Registers a two-argument transit callback and returns its handle, a
    /// small integer assigned in registration order starting at zero.
    /// Handles are never re-used within a model's lifetime. The callback is
    /// evaluated over the whole variable index space at registration, and
    /// the model owns the resulting table from then on. Returns `None`,
    /// registering nothing, when the model is no longer in its building
    /// state or the handle space is exhausted.
    pub fn register_transit_callback<F: Fn(i64, i64) -> i64>(&mut self, callback: &F) -> (r: Option<
        i32,
    >)
        requires
            model_wf(old(self)@),
            forall|i: i64, j: i64|
                0 <= i < old(self)@.s() && 0 <= j < old(self)@.s() ==> call_requires(
                    *callback,
                    (i, j),
                ),
        ensures
            model_wf(final(self)@),
            r is Some <==> (old(self)@.state == ModelState::Building && old(
                self,
            )@.callbacks.len() < i32::MAX),
            r is None ==> final(self)@ == old(self)@,
            r matches Some(h) ==> {
                &&& h as int == old(self)@.callbacks.len()
                &&& final(self)@.callbacks.len() == old(self)@.callbacks.len() + 1
                &&& forall|g: int|
                    0 <= g < old(self)@.callbacks.len() ==> final(self)@.callbacks[g] == old(
                        self,
                    )@.callbacks[g]
                &&& forall|i: int, j: int|
                    0 <= i < old(self)@.s() && 0 <= j < old(self)@.s() ==> call_ensures(
                        *callback,
                        (i as i64, j as i64),
                        #[trigger] final(self)@.callbacks[old(self)@.callbacks.len() as int][i][j],
                    )
                &&& final(self)@ == (RoutingModelV {
                    callbacks: final(self)@.callbacks,
                    ..old(self)@
                })
            },
    {
        if !matches!(self.state, ModelState::Building) {
            return None;
        }
        if self.callbacks.len() >= i32::MAX as usize {
            return None;
        }
        let s = self.manager.num_indices() as usize;
        let handle = self.callbacks.len() as i32;
        let mut table: Vec<Vec<i64>> = Vec::new();
        let mut i: usize = 0;
        while i < s
            invariant
                i <= s,
                s == old(self)@.s(),
                s <= i32::MAX as usize,
                table@.len() == i,
                forall|i2: i64, j2: i64|
                    0 <= i2 < s && 0 <= j2 < s ==> call_requires(*callback, (i2, j2)),
                forall|i2: int| 0 <= i2 < i ==> (#[trigger] table@[i2])@.len() == s,
                forall|i2: int, j2: int|
                    0 <= i2 < i && 0 <= j2 < s ==> call_ensures(
                        *callback,
                        (i2 as i64, j2 as i64),
                        #[trigger] table@[i2]@[j2],
                    ),
            decreases s - i,
        {
            let mut row: Vec<i64> = Vec::new();
            let mut j: usize = 0;
            while j < s
                invariant
                    j <= s,
                    i < s,
                    s == old(self)@.s(),
                    s <= i32::MAX as usize,
                    row@.len() == j,
                    forall|i2: i64, j2: i64|
                        0 <= i2 < s && 0 <= j2 < s ==> call_requires(*callback, (i2, j2)),
                    forall|j2: int|
                        0 <= j2 < j ==> call_ensures(
                            *callback,
                            (i as i64, j2 as i64),
                            #[trigger] row@[j2],
                        ),
                decreases s - j,
            {
                let value = callback(i as i64, j as i64);
                row.push(value);
                j += 1;
            }
            table.push(row);
            i += 1;
        }
        self.callbacks.push(table);
        proof {
            let ov = old(self)@;
            let nv_ = self@;
            assert(nv_.callbacks.len() == ov.callbacks.len() + 1);
            assert forall|g: int| 0 <= g < ov.callbacks.len() implies nv_.callbacks[g]
                == ov.callbacks[g] by {
                assert(self.callbacks@[g] == old(self).callbacks@[g]);
            }
            assert(nv_.dimensions =~= ov.dimensions);
            assert forall|g: int| 0 <= g < nv_.callbacks.len() implies #[trigger] callback_table_ok(
                nv_,
                g,
            ) by {
                if g < ov.callbacks.len() {
                    assert(callback_table_ok(ov, g));
                    assert(nv_.callbacks[g] == ov.callbacks[g]);
                } else {
                    assert(nv_.callbacks[g] == table.deep_view());
                }
            }
            assert forall|d: int| 0 <= d < nv_.dimensions.len() implies #[trigger] dim_wired_ok(
                nv_,
                d,
            ) by {
                assert(dim_wired_ok(ov, d));
                if d > 0 {
                    assert(nv_.dimensions[d - 1] == ov.dimensions[d - 1]);
                }
            }
            assert(model_wf(nv_));
        }
        Some(handle)
    }

    /// Sets the cost function of the model such that the cost of a route
    /// segment between `from` and `to` is `evaluator(from, to)`, whatever
    /// the vehicle performing the route. A later call replaces the previous
    /// evaluator for all vehicles uniformly. Ignored outside the building
    /// state or with an unregistered handle.
    pub fn set_arc_cost_evaluator_of_all_vehicles(&mut self, evaluator_index: i32)
        requires
            model_wf(old(self)@),
        ensures
            model_wf(final(self)@),
            (old(self)@.state == ModelState::Building && 0 <= evaluator_index && (
            evaluator_index as int) < old(self)@.callbacks.len()) ==> final(self)@ == (
            RoutingModelV { cost_evaluator: evaluator_index, ..old(self)@ }),
            !(old(self)@.state == ModelState::Building && 0 <= evaluator_index && (
            evaluator_index as int) < old(self)@.callbacks.len()) ==> final(self)@ == old(self)@,
    {
        if !matches!(self.state, ModelState::Building) {
            return ;
        }
        if evaluator_index < 0 || evaluator_index as usize >= self.callbacks.len() {
            return ;
        }
        self.cost_evaluator = evaluator_index;
        proof {
            lemma_wf_same_wiring(old(self)@, self@);
        }
    }

    /// Notifies that the two indices form a pair of nodes which should
    /// belong to the same route; the pair is recorded for the search's
    /// heuristics. This does not itself constrain the routes: callers add
    /// the matching equality/ordering constraints through the solver.
    /// Ignored outside the building state or with an index outside the
    /// variable range.
    pub fn add_pickup_and_delivery(&mut self, pickup: i64, delivery: i64)
        requires
            model_wf(old(self)@),
        ensures
            model_wf(final(self)@),
            (old(self)@.state == ModelState::Building && 0 <= pickup && (pickup as int) < old(
                self,
            )@.s() && 0 <= delivery && (delivery as int) < old(self)@.s()) ==> final(self)@ == (
            RoutingModelV {
                pickup_delivery_pairs: old(self)@.pickup_delivery_pairs.push((pickup, delivery)),
                ..old(self)@
            }),
            !(old(self)@.state == ModelState::Building && 0 <= pickup && (pickup as int) < old(
                self,
            )@.s() && 0 <= delivery && (delivery as int) < old(self)@.s()) ==> final(self)@ == old(
                self,
            )@,
    {
        if !matches!(self.state, ModelState::Building) {
            return ;
        }
        let s = self.manager.num_indices() as i64;
        if pickup < 0 || pickup >= s || delivery < 0 || delivery >= s {
            return ;
        }
        self.pickup_delivery_pairs.push((pickup, delivery));
        proof {
            lemma_wf_same_wiring(old(self)@, self@);
        }
    }

    /// The recorded pickup/delivery pairs, in recording order.
    pub fn pickup_and_delivery_pairs(&self) -> (r: &Vec<(i64, i64)>)
        ensures
            r@ == self@.pickup_delivery_pairs,
    {
        &self.pickup_delivery_pairs
    }

    /// Creates a dimension where the transit variable of every index is
    /// constrained to equal `evaluator(i, next(i))`; `slack_max` bounds the
    /// slack variables and `capacity` bounds the cumul variables. With
    /// `fix_start_cumul_to_zero`, the cumul variable of every vehicle's
    /// start is additionally pinned to zero. Returns `false`, creating
    /// nothing, when a dimension with the same name already exists; also
    /// when the model is no longer building, the evaluator handle is
    /// unregistered, or the variable space would not fit the machine's
    /// address range.
    #[verifier::rlimit(100)]
    pub fn add_dimension(
        &mut self,
        evaluator_index: i32,
        slack_max: i64,
        capacity: i64,
        fix_start_cumul_to_zero: bool,
        name: &str,
    ) -> (r: bool)
        requires
            model_wf(old(self)@),
        ensures
            model_wf(final(self)@),
            r <==> (old(self)@.state == ModelState::Building && 0 <= evaluator_index && (
            evaluator_index as int) < old(self)@.callbacks.len() && !has_dimension(
                old(self)@,
                name@,
            ) && old(self)@.num_vars + 4 * old(self)@.s() <= usize::MAX as int),
            r ==> final(self)@ == (RoutingModelV {
                dimensions: old(self)@.dimensions.push(
                    RoutingDimensionV {
                        name: name@,
                        base_var_id: old(self)@.num_vars,
                        num_indices: old(self)@.s(),
                        num_vehicles: old(self)@.nv(),
                        evaluator: evaluator_index,
                        slack_max,
                        capacity,
                        fix_start_cumul_to_zero,
                        global_span_cost_coefficient: 0,
                    },
                ),
                num_vars: old(self)@.num_vars + 4 * old(self)@.s(),
                ..old(self)@
            }),
            !r ==> final(self)@ == old(self)@,
    {
        if !matches!(self.state, ModelState::Building) {
            return false;
        }
        if evaluator_index < 0 || evaluator_index as usize >= self.callbacks.len() {
            return false;
        }
        let name_owned = name.to_string();
        let mut k: usize = 0;
        while k < self.dimensions.len()
            invariant
                self@ == old(self)@,
                model_wf(old(self)@),
                k <= self.dimensions@.len(),
                name_owned@ == name@,
                forall|d: int| 0 <= d < k ==> (#[trigger] self.dimensions@[d])@.name != name@,
            decreases self.dimensions@.len() - k,
        {
            if self.dimensions[k].name == name_owned {
                proof {
                    assert(self@.dimensions[k as int].name == name@);
                }
                return false;
            }
            k += 1;
        }
        proof {
            assert forall|d: int| 0 <= d < self@.dimensions.len() implies (
            #[trigger] self@.dimensions[d]).name != name@ by {
                assert((self.dimensions@[d])@.name != name@);
            }
        }
        let s = self.manager.num_indices() as usize;
        let block = match (4usize).checked_mul(s) {
            Some(x) => x,
            None => { return false },
        };
        let new_num_vars = match self.num_vars.checked_add(block) {
            Some(x) => x,
            None => { return false },
        };
        let dim = RoutingDimension {
            name: name_owned,
            base_var_id: self.num_vars,
            num_indices: s,
            num_vehicles: self.manager.num_vehicles() as usize,
            evaluator: evaluator_index,
            slack_max,
            capacity,
            fix_start_cumul_to_zero,
            global_span_cost_coefficient: 0,
        };
        self.dimensions.push(dim);
        self.num_vars = new_num_vars;
        proof {
            let ov = old(self)@;
            let nv_ = self@;
            assert(nv_.dimensions =~= ov.dimensions.push(nv_.dimensions.last()));
            assert(nv_.callbacks =~= ov.callbacks);
            lemma_push_dimension_wf(ov, nv_, nv_.dimensions.last());
        }
        true
    }

    /// Returns the dimension with the given name for reading, or `None` if
    /// no dimension carries that name.
    pub fn get_dimension(&self, dimension_name: &str) -> (r: Option<&RoutingDimension>)
        requires
            model_wf(self@),
        ensures
            r is Some <==> has_dimension(self@, dimension_name@),
            r matches Some(d) ==> d@ == self@.dimensions[dimension_index_of(
                self@,
                dimension_name@,
            )],
    {
        let name_owned = dimension_name.to_string();
        let mut k: usize = 0;
        while k < self.dimensions.len()
            invariant
                k <= self.dimensions@.len(),
                name_owned@ == dimension_name@,
                forall|d1: int, d2: int|
                    0 <= d1 < self@.dimensions.len() && 0 <= d2 < self@.dimensions.len() && d1
                        != d2 ==> (#[trigger] self@.dimensions[d1]).name != (
                    #[trigger] self@.dimensions[d2]).name,
                forall|d: int|
                    0 <= d < k ==> (#[trigger] self.dimensions@[d])@.name != dimension_name@,
            decreases self.dimensions@.len() - k,
        {
            if self.dimensions[k].name == name_owned {
                proof {
                    assert(self@.dimensions[k as int].name == dimension_name@);
                    let kk = dimension_index_of(self@, dimension_name@);
                    assert(self@.dimensions[kk].name == dimension_name@);
                    if kk != k as int {
                        assert((self@.dimensions[kk]).name != (self@.dimensions[k as int]).name);
                    }
                }
                return Some(&self.dimensions[k]);
            }
            k += 1;
        }
        proof {
            assert forall|d: int| 0 <= d < self@.dimensions.len() implies (
            #[trigger] self@.dimensions[d]).name != dimension_name@ by {
                assert((self.dimensions@[d])@.name != dimension_name@);
            }
        }
        None
    }

    /// Returns the dimension with the given name for reading and writing,
    /// or `None` if no dimension carries that name.
    pub fn get_mutable_dimension<'a>(&'a mut self, dimension_name: &str) -> (r: Option<
        &'a mut RoutingDimension,
    >)
        requires
            model_wf(old(self)@),
        ensures
            r is Some <==> has_dimension(old(self)@, dimension_name@),
            r matches Some(d) ==> {
                let k = dimension_index_of(old(self)@, dimension_name@);
                &&& 0 <= k < old(self)@.dimensions.len()
                &&& (*d)@ == old(self)@.dimensions[k]
                &&& final(self)@.dimensions.len() == old(self)@.dimensions.len()
                &&& final(self)@.dimensions[k] == final(d)@
                &&& forall|j: int|
                    0 <= j < old(self)@.dimensions.len() && j != k ==> final(self)@.dimensions[j]
                        == old(self)@.dimensions[j]
                &&& final(self)@ == (RoutingModelV {
                    dimensions: final(self)@.dimensions,
                    ..old(self)@
                })
            },
            r is None ==> final(self)@ == old(self)@,
    {
        let name_owned = dimension_name.to_string();
        let mut k: usize = 0;
        let n = self.dimensions.len();
        while k < n
            invariant
                self@ == old(self)@,
                model_wf(old(self)@),
                k <= n,
                n == self.dimensions@.len(),
                name_owned@ == dimension_name@,
                forall|d: int|
                    0 <= d < k ==> (#[trigger] self.dimensions@[d])@.name != dimension_name@,
            decreases n - k,
        {
            if self.dimensions[k].name == name_owned {
                proof {
                    assert(self@.dimensions[k as int].name == dimension_name@);
                    let kk = dimension_index_of(self@, dimension_name@);
                    assert(self@.dimensions[kk].name == dimension_name@);
                    if kk != k as int {
                        assert((self@.dimensions[kk]).name != (self@.dimensions[k as int]).name);
                    }
                    assert(kk == k as int);
                }
                return Some(&mut self.dimensions[k]);
            }
            k += 1;
        }
        proof {
            assert forall|d: int| 0 <= d < self@.dimensions.len() implies (
            #[trigger] self@.dimensions[d]).name != dimension_name@ by {
                assert((self.dimensions@[d])@.name != dimension_name@);
            }
        }
        None
    }

    // Model inspection.

    /// Returns the variable index of the starting node of a vehicle route,
    /// or `None` for an out-of-range vehicle.
    pub fn start(&self, vehicle: i32) -> (r: Option<i64>)
        requires
            model_wf(self@),
        ensures
            r is Some <==> 0 <= vehicle && (vehicle as int) < self@.nv(),
            r matches Some(x) ==> x as int == self@.b() + vehicle as int,
    {
        self.manager.get_start_index(vehicle)
    }

    /// Returns the variable index of the ending node of a vehicle route,
    /// or `None` for an out-of-range vehicle.
    pub fn end(&self, vehicle: i32) -> (r: Option<i64>)
        requires
            model_wf(self@),
        ensures
            r is Some <==> 0 <= vehicle && (vehicle as int) < self@.nv(),
            r matches Some(x) ==> x as int == self@.b() + self@.nv() + vehicle as int,
    {
        self.manager.get_end_index(vehicle)
    }

    /// Returns true if `index` represents the first node of a route.
    pub fn is_start(&self, index: i64) -> (r: bool)
        requires
            model_wf(self@),
        ensures
            r == (self@.b() <= index as int && (index as int) < self@.b() + self@.nv()),
    {
        let b = (self.manager.num_indices() - 2 * self.manager.num_vehicles()) as i64;
        let nv = self.manager.num_vehicles() as i64;
        b <= index && index < b + nv
    }

    /// Returns true if `index` represents the last node of a route.
    pub fn is_end(&self, index: i64) -> (r: bool)
        requires
            model_wf(self@),
        ensures
            r == (self@.b() + self@.nv() <= index as int && (index as int) < self@.s()),
    {
        let s = self.manager.num_indices() as i64;
        let nv = self.manager.num_vehicles() as i64;
        s - nv <= index && index < s
    }

    /// Returns the vehicle of the given start/end index, and `None` if the
    /// given index is not a vehicle start/end.
    pub fn vehicle_index(&self, index: i64) -> (r: Option<i32>)
        requires
            model_wf(self@),
        ensures
            (self@.b() <= index as int && (index as int) < self@.b() + self@.nv()) ==> (r matches
            Some(v) && v as int == index as int - self@.b()),
            (self@.b() + self@.nv() <= index as int && (index as int) < self@.s()) ==> (r matches
            Some(v) && v as int == index as int - self@.b() - self@.nv()),
            (((index as int) < self@.b()) || index as int >= self@.s()) ==> r is None,
    {
        let b = (self.manager.num_indices() - 2 * self.manager.num_vehicles()) as i64;
        let nv = self.manager.num_vehicles() as i64;
        if b <= index && index < b + nv {
            Some((index - b) as i32)
        } else if b + nv <= index && index < b + 2 * nv {
            Some((index - b - nv) as i32)
        } else {
            None
        }
    }

    /// Returns the next variable of the node corresponding to `index`, or
    /// `None` for an index without one (ends and out-of-range indices).
    /// `next(index) == index` is equivalent to `active(index) == 0`.
    pub fn next_var(&self, index: i64) -> (r: Option<IntVar>)
        requires
            model_wf(self@),
        ensures
            r is Some <==> 0 <= index && (index as int) < self@.size(),
            r matches Some(x) ==> x.id as int == self@.next_var_id(index as int),
    {
        if index < 0 || index >= (self.manager.num_indices() - self.manager.num_vehicles()) as i64 {
            return None;
        }
        Some(IntVar { id: index as usize })
    }

    /// Returns the active variable of the node corresponding to `index`, or
    /// `None` for an index without one (ends and out-of-range indices).
    pub fn active_var(&self, index: i64) -> (r: Option<IntVar>)
        requires
            model_wf(self@),
        ensures
            r is Some <==> 0 <= index && (index as int) < self@.size(),
            r matches Some(x) ==> x.id as int == self@.active_var_id(index as int),
    {
        if index < 0 || index >= (self.manager.num_indices() - self.manager.num_vehicles()) as i64 {
            return None;
        }
        let s = self.manager.num_indices() as usize;
        Some(IntVar { id: s + index as usize })
    }

    /// Returns the variable telling whether the given vehicle's route is
    /// non-empty, or `None` for an out-of-range vehicle.
    pub fn active_vehicle_var(&self, vehicle: i32) -> (r: Option<IntVar>)
        requires
            model_wf(self@),
        ensures
            r is Some <==> 0 <= vehicle && (vehicle as int) < self@.nv(),
            r matches Some(x) ==> x.id as int == self@.active_vehicle_var_id(vehicle as int),
    {
        if vehicle < 0 || vehicle >= self.manager.num_vehicles() {
            return None;
        }
        let s = self.manager.num_indices() as usize;
        Some(IntVar { id: 3 * s + 1 + vehicle as usize })
    }

    /// Returns the variable telling whether the given vehicle's route is
    /// considered for costs and constraints, or `None` for an out-of-range
    /// vehicle. It equals one exactly when the route is non-empty.
    pub fn active_route_considered_var(&self, vehicle: i32) -> (r: Option<IntVar>)
        requires
            model_wf(self@),
        ensures
            r is Some <==> 0 <= vehicle && (vehicle as int) < self@.nv(),
            r matches Some(x) ==> x.id as int == self@.route_considered_var_id(vehicle as int),
    {
        if vehicle < 0 || vehicle >= self.manager.num_vehicles() {
            return None;
        }
        let s = self.manager.num_indices() as usize;
        let nv = self.manager.num_vehicles() as usize;
        Some(IntVar { id: 3 * s + 1 + nv + vehicle as usize })
    }

    /// Returns the vehicle variable of the node corresponding to `index`,
    /// or `None` for an out-of-range index. `vehicle(index) == -1` is
    /// equivalent to `active(index) == 0`.
    pub fn vehicle_var(&self, index: i64) -> (r: Option<IntVar>)
        requires
            model_wf(self@),
        ensures
            r is Some <==> 0 <= index && (index as int) < self@.s(),
            r matches Some(x) ==> x.id as int == self@.vehicle_var_id(index as int),
    {
        if index < 0 || index >= self.manager.num_indices() as i64 {
            return None;
        }
        let s = self.manager.num_indices() as usize;
        Some(IntVar { id: 2 * s + index as usize })
    }

    /// Returns the resource variable for the given vehicle in the given
    /// resource group. This model layer wires no resource groups, so there
    /// is no such variable.
    pub fn resource_var(&self, vehicle: i32, resource_group: i32) -> (r: Option<IntVar>)
        ensures
            r is None,
    {
        let _ = vehicle;
        let _ = resource_group;
        None
    }

    /// Returns the global cost variable which is being minimized.
    pub fn cost_var(&self) -> (r: Option<IntVar>)
        requires
            model_wf(self@),
        ensures
            r matches Some(x) && x.id as int == self@.cost_var_id(),
    {
        let s = self.manager.num_indices() as usize;
        Some(IntVar { id: 3 * s })
    }

    /// Returns the cost of the transit arc between two indices for a given
    /// vehicle: the registered cost evaluator's value on the pair. Returns
    /// zero when `vehicle` is negative, when an index is out of range, or
    /// when no evaluator was set.
    pub fn get_arc_cost_for_vehicle(&self, from_index: i64, to_index: i64, vehicle: i64) -> (r: i64)
        requires
            model_wf(self@),
        ensures
            r == spec_arc_cost(self@, from_index as int, to_index as int, vehicle as int),
    {
        if vehicle < 0 {
            return 0;
        }
        self.uniform_arc_cost(from_index, to_index)
    }

    /// Whether costs are homogeneous across all vehicles; in this model
    /// layer a single evaluator serves every vehicle.
    pub fn costs_are_homogeneous_across_vehicles(&self) -> (r: bool)
        ensures
            r == true,
    {
        true
    }

    /// Returns the cost of the segment between two indices, all vehicle
    /// costs being the same: the registered cost evaluator's value on the
    /// pair, or zero when an index is out of range or no evaluator was set.
    pub fn get_homogeneous_cost(&self, from_index: i64, to_index: i64) -> (r: i64)
        requires
            model_wf(self@),
        ensures
            r == spec_arc_cost(self@, from_index as int, to_index as int, 0),
    {
        self.uniform_arc_cost(from_index, to_index)
    }

    /// Returns the cost of the arc in the context of the first solution
    /// strategy: the same uniform arc cost, the simplification this layer
    /// applies.
    pub fn get_arc_cost_for_first_solution(&self, from_index: i64, to_index: i64) -> (r: i64)
        requires
            model_wf(self@),
        ensures
            r == spec_arc_cost(self@, from_index as int, to_index as int, 0),
    {
        self.uniform_arc_cost(from_index, to_index)
    }

    /// Returns the cost of the segment between two indices for a given cost
    /// class. With a single evaluator serving every vehicle there is one
    /// cost class, number zero; any other class has no cost.
    pub fn get_arc_cost_for_class(&self, from_index: i64, to_index: i64, cost_class_index: i64) -> (r:
        i64)
        requires
            model_wf(self@),
        ensures
            cost_class_index == 0 ==> r == spec_arc_cost(self@, from_index as int, to_index as int, 0),
            cost_class_index != 0 ==> r == 0,
    {
        if cost_class_index != 0 {
            return 0;
        }
        self.uniform_arc_cost(from_index, to_index)
    }

    /// The uniform arc cost of an index pair: the cost evaluator's table
    /// value, or zero without an evaluator or outside the index range.
    fn uniform_arc_cost(&self, from_index: i64, to_index: i64) -> (r: i64)
        requires
            model_wf(self@),
        ensures
            r == spec_arc_cost(self@, from_index as int, to_index as int, 0),
    {
        if self.cost_evaluator < 0 {
            return 0;
        }
        let s = self.manager.num_indices() as i64;
        if from_index < 0 || from_index >= s || to_index < 0 || to_index >= s {
            return 0;
        }
        let e = self.cost_evaluator as usize;
        let fi = from_index as usize;
        let ti = to_index as usize;
        proof {
            assert(callback_table_ok(self@, e as int));
            assert(self@.callbacks[e as int] == self.callbacks@[e as int].deep_view());
            assert(self.callbacks@[e as int]@.len() == self@.callbacks[e as int].len());
            assert(self@.callbacks[e as int][fi as int] == self.callbacks@[e as int]@[fi as int].deep_view());
            assert(self.callbacks@[e as int]@[fi as int]@.len() == self@.callbacks[e as int][fi as int].len());
            assert(self.callbacks@[e as int]@[fi as int]@[ti as int] == self@.callbacks[e as int][fi as int][ti as int]);
        }
        self.callbacks[e][fi][ti]
    }

    /// Returns the underlying constraint store, to read the side
    /// constraints wired so far.
    pub fn solver(&self) -> (r: &Solver)
        ensures
            r@ == self@.constraints,
    {
        &self.solver
    }

    /// Returns the underlying constraint store for adding side constraints
    /// referencing the model's variables.
    pub fn solver_mut(&mut self) -> (r: &mut Solver)
        ensures
            (*r)@ == old(self)@.constraints,
            final(self)@ == (RoutingModelV { constraints: final(r)@, ..old(self)@ }),
    {
        &mut self.solver
    }
}

/// The outcome of a solve: a status and, on success, one value for every
/// model variable.
///
/// An assignment is immutable; a new solve on the same model produces a
/// new assignment that supersedes it. Its values are meaningful only for
/// variables of the model whose solve produced it.
pub struct Assignment {
    status: RoutingModelStatus,
    num_indices: usize,
    num_vehicles: usize,
    values: Vec<i64>,
}

/// The mathematical content of an assignment.
pub struct AssignmentV {
    /// Outcome of the solve that produced the assignment.
    pub status: RoutingModelStatus,
    /// Number of variable indices of the solved model.
    pub num_indices: int,
    /// Number of vehicles of the solved model.
    pub num_vehicles: int,
    /// One value per valuation slot; empty without a feasible solution.
    pub values: Seq<i64>,
}

impl View for Assignment {
    type V = AssignmentV;

    closed spec fn view(&self) -> AssignmentV {
        AssignmentV {
            status: self.status,
            num_indices: self.num_indices as int,
            num_vehicles: self.num_vehicles as int,
            values: self.values@,
        }
    }
}

impl Assignment {
    /// The outcome of the solve that produced this assignment.
    pub fn status(&self) -> (r: RoutingModelStatus)
        ensures
            r == self@.status,
    {
        self.status
    }

    /// Whether the assignment carries values; it does exactly when the
    /// solve found a feasible assignment.
    pub fn has_contents(&self) -> (r: bool)
        ensures
            r == (self@.values.len() > 0),
    {
        self.values.len() > 0
    }

    /// The solved value of a model variable, or `None` for a variable
    /// outside this assignment.
    pub fn value(&self, var: &IntVar) -> (r: Option<i64>)
        ensures
            r is Some <==> (var.id as int) < self@.values.len(),
            r matches Some(x) ==> x == self@.values[var.id as int],
    {
        if var.id < self.values.len() {
            Some(self.values[var.id])
        } else {
            None
        }
    }

    /// The variable index of the node directly after the node corresponding
    /// to `index`, or `None` for an index without a successor variable.
    pub fn next(&self, index: i64) -> (r: Option<i64>)
        ensures
            r is Some <==> (0 <= index && (index as int) < self@.num_indices
                - self@.num_vehicles && (index as int) < self@.values.len()),
            r matches Some(x) ==> x == self@.values[index as int],
    {
        if index < 0 {
            return None;
        }
        if self.num_vehicles > self.num_indices {
            return None;
        }
        let cap = self.num_indices - self.num_vehicles;
        if index as u128 >= cap as u128 {
            return None;
        }
        if index as u128 >= self.values.len() as u128 {
            return None;
        }
        Some(self.values[index as usize])
    }

    /// Returns whether the route of `vehicle` is non-empty in this
    /// assignment, or `None` for an out-of-range vehicle or an assignment
    /// without contents.
    pub fn is_vehicle_used(&self, vehicle: i32) -> (r: Option<bool>)
        ensures
            r is Some <==> (0 <= vehicle && (vehicle as int) < self@.num_vehicles && 2 * (
            self@.num_vehicles) <= self@.num_indices && self@.num_indices - 2 * self@.num_vehicles
                + vehicle < self@.values.len()),
            r matches Some(u) ==> u == (self@.values[self@.num_indices - 2 * self@.num_vehicles
                + vehicle] as int != self@.num_indices - self@.num_vehicles + vehicle),
    {
        if vehicle < 0 || vehicle as usize >= self.num_vehicles {
            return None;
        }
        if self.num_vehicles > self.num_indices || self.num_indices - self.num_vehicles
            < self.num_vehicles {
            return None;
        }
        let b = self.num_indices - self.num_vehicles - self.num_vehicles;
        let start = b + vehicle as usize;
        if start >= self.values.len() {
            return None;
        }
        let end = b + self.num_vehicles + vehicle as usize;
        Some((self.values[start] as i128) != (end as i128))
    }
}

impl RoutingModel {
    /// The table value of callback `h` on the index pair `(i, j)`.
    fn callback_value(&self, h: i32, i: usize, j: usize) -> (r: i64)
        requires
            model_wf(self@),
            0 <= h,
            (h as int) < self@.callbacks.len(),
            i < self@.s(),
            j < self@.s(),
        ensures
            r == eval_callback(self@, h as int, i as int, j as int),
    {
        let e = h as usize;
        proof {
            assert(callback_table_ok(self@, e as int));
            assert(self@.callbacks[e as int] == self.callbacks@[e as int].deep_view());
            assert(self.callbacks@[e as int]@.len() == self@.callbacks[e as int].len());
            assert(self@.callbacks[e as int][i as int] == self.callbacks@[e as int]@[i as int].deep_view());
            assert(self.callbacks@[e as int]@[i as int]@.len() == self@.callbacks[e as int][i as int].len());
            assert(self.callbacks@[e as int]@[i as int]@[j as int] == self@.callbacks[e as int][i as int][j as int]);
        }
        self.callbacks[e][i][j]
    }

    /// Checks the path-variable invariant of a candidate valuation.
    fn check_path(&self, vals: &Vec<i64>) -> (r: bool)
        requires
            model_wf(self@),
            vals@.len() == self@.num_vars,
        ensures
            r == path_valid(self@, vals@),
    {
        let s = self.manager.num_indices() as usize;
        let nv = self.manager.num_vehicles() as usize;
        let b = s - 2 * nv;
        let z = s - nv;
        proof {
            lemma_fixed_fits(self@);
        }
        let mut i: usize = 0;
        while i < z
            invariant
                model_wf(self@),
                vals@.len() == self@.num_vars,
                s == self@.s(),
                nv == self@.nv(),
                b == self@.b(),
                z == self@.size(),
                self@.fixed_var_count() <= self@.num_vars,
                i <= z,
                forall|i2: int| 0 <= i2 < i ==> #[trigger] path_index_ok(self@, vals@, i2),
            decreases z - i,
        {
            let nx = vals[i];
            if nx < 0 || nx >= s as i64 {
                proof {
                    assert(!path_index_ok(self@, vals@, i as int));
                }
                return false;
            }
            let nxu = nx as usize;
            let active = vals[s + i];
            let expected_active: i64 = if nxu == i {
                0
            } else {
                1
            };
            let veh = vals[2 * s + i];
            if active != expected_active {
                proof {
                    assert(!path_index_ok(self@, vals@, i as int));
                }
                return false;
            }
            if (nxu == i) != (veh == NO_VEHICLE) {
                proof {
                    assert(!path_index_ok(self@, vals@, i as int));
                }
                return false;
            }
            if nxu != i && vals[2 * s + nxu] != veh {
                proof {
                    assert(!path_index_ok(self@, vals@, i as int));
                }
                return false;
            }
            if i < b && active != 1 {
                proof {
                    assert(!path_index_ok(self@, vals@, i as int));
                }
                return false;
            }
            proof {
                assert(path_index_ok(self@, vals@, i as int));
            }
            i += 1;
        }
        let mut v: usize = 0;
        while v < nv
            invariant
                model_wf(self@),
                vals@.len() == self@.num_vars,
                s == self@.s(),
                nv == self@.nv(),
                b == self@.b(),
                z == self@.size(),
                self@.fixed_var_count() <= self@.num_vars,
                v <= nv,
                forall|i2: int| 0 <= i2 < z ==> #[trigger] path_index_ok(self@, vals@, i2),
                forall|v2: int| 0 <= v2 < v ==> #[trigger] path_vehicle_ok(self@, vals@, v2),
            decreases nv - v,
        {
            let start_vehicle = vals[2 * s + b + v];
            let end_vehicle = vals[2 * s + b + nv + v];
            let start_next = vals[b + v];
            let empty_route = start_next == (b + nv + v) as i64;
            let expected: i64 = if empty_route {
                0
            } else {
                1
            };
            let ok = start_vehicle == v as i64 && end_vehicle == v as i64 && vals[3 * s + 1 + v]
                == expected && vals[3 * s + 1 + nv + v] == expected;
            if !ok {
                proof {
                    assert(!path_vehicle_ok(self@, vals@, v as int));
                }
                return false;
            }
            proof {
                assert(path_vehicle_ok(self@, vals@, v as int));
            }
            v += 1;
        }
        // No two indices may share a successor: record, per target, the one
        // index pointing at it.
        let mut pointer: Vec<i64> = Vec::new();
        let mut k: usize = 0;
        while k < s
            invariant
                pointer@.len() == k,
                k <= s,
                forall|x: int| 0 <= x < k ==> #[trigger] pointer@[x] == -1,
            decreases s - k,
        {
            pointer.push(-1);
            k += 1;
        }
        let mut i: usize = 0;
        while i < z
            invariant
                model_wf(self@),
                vals@.len() == self@.num_vars,
                s == self@.s(),
                nv == self@.nv(),
                b == self@.b(),
                z == self@.size(),
                self@.fixed_var_count() <= self@.num_vars,
                pointer@.len() == s,
                i <= z,
                forall|i2: int| 0 <= i2 < z ==> #[trigger] path_index_ok(self@, vals@, i2),
                forall|x: int|
                    0 <= x < s && #[trigger] pointer@[x] != -1 ==> 0 <= pointer@[x] < i && a_next(
                        self@,
                        vals@,
                        pointer@[x] as int,
                    ) as int == x,
                forall|i2: int|
                    0 <= i2 < i ==> pointer@[(#[trigger] a_next(self@, vals@, i2)) as int] != -1,
                forall|i2: int, j2: int|
                    0 <= i2 < i && 0 <= j2 < i && i2 != j2 ==> #[trigger] a_next(self@, vals@, i2)
                        != #[trigger] a_next(self@, vals@, j2),
            decreases z - i,
        {
            proof {
                assert(path_index_ok(self@, vals@, i as int));
            }
            let nx = vals[i] as usize;
            if pointer[nx] != -1 {
                proof {
                    let i2 = pointer@[nx as int] as int;
                    assert(a_next(self@, vals@, i2) == a_next(self@, vals@, i as int));
                    assert(!path_valid(self@, vals@));
                }
                return false;
            }
            let ghost pre = pointer@;
            pointer.set(nx, i as i64);
            proof {
                assert forall|i2: int|
                    0 <= i2 < i + 1 implies pointer@[(#[trigger] a_next(self@, vals@, i2)) as int]
                    != -1 by {
                    assert(path_index_ok(self@, vals@, i2));
                    if i2 < i as int {
                        assert(pre[(a_next(self@, vals@, i2)) as int] != -1);
                    }
                }
            }
            i += 1;
        }
        // Every on-route index must lead to some vehicle end.
        let mut i: usize = 0;
        while i < z
            invariant
                model_wf(self@),
                vals@.len() == self@.num_vars,
                s == self@.s(),
                nv == self@.nv(),
                b == self@.b(),
                z == self@.size(),
                self@.fixed_var_count() <= self@.num_vars,
                i <= z,
                forall|i2: int| 0 <= i2 < z ==> #[trigger] path_index_ok(self@, vals@, i2),
                forall|i2: int|
                    0 <= i2 < i && a_next(self@, vals@, i2) as int != i2 ==> #[trigger] reaches_an_end(
                        self@,
                        vals@,
                        i2,
                    ),
            decreases z - i,
        {
            proof {
                assert(path_index_ok(self@, vals@, i as int));
            }
            let nx = vals[i];
            if nx != i as i64 {
                let mut cur: usize = i;
                let mut k: usize = 0;
                let mut found = false;
                while !found && k <= z
                    invariant
                        model_wf(self@),
                        vals@.len() == self@.num_vars,
                        s == self@.s(),
                        nv == self@.nv(),
                        b == self@.b(),
                        z == self@.size(),
                        self@.fixed_var_count() <= self@.num_vars,
                        i < z,
                        cur < s,
                        k <= z + 1,
                        forall|i2: int| 0 <= i2 < z ==> #[trigger] path_index_ok(self@, vals@, i2),
                        cur as int == nth_next(self@, vals@, i as int, k as nat),
                        forall|k2: int|
                            0 <= k2 < k ==> !is_end_index(
                                self@,
                                #[trigger] nth_next(self@, vals@, i as int, k2 as nat),
                            ),
                        found ==> is_end_index(self@, cur as int) && k <= z,
                    decreases 2 * (z + 1 - k) + (if found {
                        0int
                    } else {
                        1int
                    }),
                {
                    if cur >= z {
                        found = true;
                    } else {
                        proof {
                            assert(path_index_ok(self@, vals@, cur as int));
                            assert(!is_end_index(self@, nth_next(self@, vals@, i as int, k as nat)));
                        }
                        cur = vals[cur] as usize;
                        k += 1;
                    }
                }
                if !found {
                    proof {
                        assert forall|k2: int| 0 <= k2 <= z implies !is_end_index(
                            self@,
                            #[trigger] nth_next(self@, vals@, i as int, k2 as nat),
                        ) by {}
                        assert(!reaches_an_end(self@, vals@, i as int));
                        assert(!path_valid(self@, vals@));
                    }
                    return false;
                }
                proof {
                    let kk = k as int;
                    assert(0 <= kk <= self@.size());
                    assert(is_end_index(self@, nth_next(self@, vals@, i as int, kk as nat)));
                    assert(reaches_an_end(self@, vals@, i as int));
                }
            }
            i += 1;
        }
        true
    }

    /// Checks every wired dimension's invariant over a candidate valuation
    /// that already satisfies the path invariant.
    fn check_dims(&self, vals: &Vec<i64>) -> (r: bool)
        requires
            model_wf(self@),
            vals@.len() == self@.num_vars,
            path_valid(self@, vals@),
        ensures
            r == dims_valid(self@, vals@),
    {
        let s = self.manager.num_indices() as usize;
        let nv = self.manager.num_vehicles() as usize;
        let b = s - 2 * nv;
        let z = s - nv;
        let nd = self.dimensions.len();
        let mut d: usize = 0;
        while d < nd
            invariant
                model_wf(self@),
                vals@.len() == self@.num_vars,
                path_valid(self@, vals@),
                s == self@.s(),
                nv == self@.nv(),
                b == self@.b(),
                z == self@.size(),
                nd == self@.dimensions.len(),
                d <= nd,
                forall|d2: int| 0 <= d2 < d ==> #[trigger] dim_valid(self@, vals@, d2),
            decreases nd - d,
        {
            proof {
                assert(dim_wired_ok(self@, d as int));
                assert(self@.dimensions[d as int] == self.dimensions@[d as int]@);
            }
            let base = self.dimensions[d].base_var_id;
            let ev = self.dimensions[d].evaluator;
            let slack_max = self.dimensions[d].slack_max;
            let capacity = self.dimensions[d].capacity;
            let fix_start = self.dimensions[d].fix_start_cumul_to_zero;
            let mut i: usize = 0;
            while i < z
                invariant
                    model_wf(self@),
                    vals@.len() == self@.num_vars,
                    path_valid(self@, vals@),
                    s == self@.s(),
                    nv == self@.nv(),
                    b == self@.b(),
                    z == self@.size(),
                    d < self@.dimensions.len(),
                    base == self@.dimensions[d as int].base_var_id,
                    ev == self@.dimensions[d as int].evaluator,
                    slack_max == self@.dimensions[d as int].slack_max,
                    dim_wired_ok(self@, d as int),
                    i <= z,
                    forall|i2: int| 0 <= i2 < i ==> #[trigger] dim_index_ok(self@, vals@, d as int, i2),
                decreases z - i,
            {
                proof {
                    assert(path_index_ok(self@, vals@, i as int));
                }
                let nx = vals[i];
                let nxu = nx as usize;
                let transit = vals[base + s + i];
                let expected_transit: i64 = if nxu != i {
                    self.callback_value(ev, i, nxu)
                } else {
                    0
                };
                if transit != expected_transit {
                    proof {
                        assert(!dim_index_ok(self@, vals@, d as int, i as int));
                        assert(!dim_valid(self@, vals@, d as int));
                    }
                    return false;
                }
                let fixed = vals[base + 2 * s + i];
                let slack = vals[base + 3 * s + i];
                let cumul_i = vals[base + i];
                let cumul_next = vals[base + nxu];
                let ok = fixed == transit && 0 <= slack && slack <= slack_max && (nxu != i || slack
                    == 0) && (cumul_i as i128 + transit as i128 + slack as i128
                    == cumul_next as i128);
                if !ok {
                    proof {
                        assert(!dim_index_ok(self@, vals@, d as int, i as int));
                        assert(!dim_valid(self@, vals@, d as int));
                    }
                    return false;
                }
                proof {
                    assert(dim_index_ok(self@, vals@, d as int, i as int));
                }
                i += 1;
            }
            let mut i: usize = 0;
            while i < s
                invariant
                    model_wf(self@),
                    vals@.len() == self@.num_vars,
                    s == self@.s(),
                    nv == self@.nv(),
                    b == self@.b(),
                    z == self@.size(),
                    d < self@.dimensions.len(),
                    base == self@.dimensions[d as int].base_var_id,
                    capacity == self@.dimensions[d as int].capacity,
                    dim_wired_ok(self@, d as int),
                    i <= s,
                    forall|i2: int| 0 <= i2 < z ==> #[trigger] dim_index_ok(self@, vals@, d as int, i2),
                    forall|i2: int| 0 <= i2 < i ==> #[trigger] dim_cumul_ok(self@, vals@, d as int, i2),
                decreases s - i,
            {
                let cumul = vals[base + i];
                if cumul < 0 || cumul > capacity {
                    proof {
                        assert(!dim_cumul_ok(self@, vals@, d as int, i as int));
                        assert(!dim_valid(self@, vals@, d as int));
                    }
                    return false;
                }
                proof {
                    assert(dim_cumul_ok(self@, vals@, d as int, i as int));
                }
                i += 1;
            }
            let mut v: usize = 0;
            while v < nv
                invariant
                    model_wf(self@),
                    vals@.len() == self@.num_vars,
                    s == self@.s(),
                    nv == self@.nv(),
                    b == self@.b(),
                    z == self@.size(),
                    d < self@.dimensions.len(),
                    base == self@.dimensions[d as int].base_var_id,
                    fix_start == self@.dimensions[d as int].fix_start_cumul_to_zero,
                    dim_wired_ok(self@, d as int),
                    v <= nv,
                    forall|i2: int| 0 <= i2 < z ==> #[trigger] dim_index_ok(self@, vals@, d as int, i2),
                    forall|i2: int| 0 <= i2 < s ==> #[trigger] dim_cumul_ok(self@, vals@, d as int, i2),
                    forall|v2: int| 0 <= v2 < v ==> #[trigger] dim_start_ok(self@, vals@, d as int, v2),
                decreases nv - v,
            {
                if fix_start && vals[base + b + v] != 0 {
                    proof {
                        assert(!dim_start_ok(self@, vals@, d as int, v as int));
                        assert(!dim_valid(self@, vals@, d as int));
                    }
                    return false;
                }
                proof {
                    assert(dim_start_ok(self@, vals@, d as int, v as int));
                }
                v += 1;
            }
            proof {
                assert(dim_valid(self@, vals@, d as int));
            }
            d += 1;
        }
        true
    }

    /// Checks every side constraint over a candidate valuation.
    fn check_constraints(&self, vals: &Vec<i64>) -> (r: bool)
        ensures
            r == constraints_valid(self@, vals@),
    {
        let n = self.solver.num_constraints();
        let mut k: usize = 0;
        while k < n
            invariant
                n == self@.constraints.len(),
                self@.constraints == self.solver@,
                k <= n,
                forall|c: int|
                    0 <= c < k ==> constraint_holds(#[trigger] self@.constraints[c], vals@),
            decreases n - k,
        {
            let c = self.solver.constraint(k).unwrap();
            let holds = match c {
                Constraint::Equality { left, right } => left.id < vals.len() && right.id
                    < vals.len() && vals[left.id] == vals[right.id],
                Constraint::LessOrEqual { left, right } => left.id < vals.len() && right.id
                    < vals.len() && vals[left.id] <= vals[right.id],
            };
            if !holds {
                proof {
                    assert(!constraint_holds(self@.constraints[k as int], vals@));
                }
                return false;
            }
            proof {
                assert(constraint_holds(self@.constraints[k as int], vals@));
            }
            k += 1;
        }
        true
    }

    /// Checks the cost clauses over a candidate valuation that already
    /// satisfies the path and dimension invariants.
    fn check_cost(&self, vals: &Vec<i64>) -> (r: bool)
        requires
            model_wf(self@),
            vals@.len() == self@.num_vars,
            path_valid(self@, vals@),
            dims_valid(self@, vals@),
        ensures
            r == cost_valid(self@, vals@),
    {
        let s = self.manager.num_indices() as usize;
        let nv = self.manager.num_vehicles() as usize;
        let b = s - 2 * nv;
        let z = s - nv;
        let nd = self.dimensions.len();
        proof {
            lemma_fixed_fits(self@);
        }
        let mut acc: i64 = 0;
        let mut k: usize = 0;
        while k < z
            invariant
                model_wf(self@),
                vals@.len() == self@.num_vars,
                path_valid(self@, vals@),
                s == self@.s(),
                nv == self@.nv(),
                b == self@.b(),
                z == self@.size(),
                nd == self@.dimensions.len(),
                self@.fixed_var_count() <= self@.num_vars,
                k <= z,
                acc as int == objective_prefix(self@, vals@, k as int),
                forall|k2: int|
                    0 <= k2 <= k ==> i64::MIN <= #[trigger] objective_prefix(self@, vals@, k2)
                        && objective_prefix(self@, vals@, k2) <= i64::MAX,
            decreases z - k,
        {
            proof {
                assert(path_index_ok(self@, vals@, k as int));
            }
            let term: i64 = if self.cost_evaluator >= 0 {
                let nx = vals[k];
                if nx != k as i64 {
                    self.callback_value(self.cost_evaluator, k, nx as usize)
                } else {
                    0
                }
            } else {
                0
            };
            proof {
                assert(term as int == arc_cost_term(self@, vals@, k as int));
                assert(objective_prefix(self@, vals@, k as int + 1) == acc as int + term as int);
            }
            acc = match acc.checked_add(term) {
                Some(x) => x,
                None => {
                    proof {
                        assert(!(i64::MIN <= objective_prefix(self@, vals@, k as int + 1)
                            && objective_prefix(self@, vals@, k as int + 1) <= i64::MAX));
                    }
                    return false;
                },
            };
            k += 1;
        }
        let mut d: usize = 0;
        while d < nd
            invariant
                model_wf(self@),
                vals@.len() == self@.num_vars,
                path_valid(self@, vals@),
                dims_valid(self@, vals@),
                s == self@.s(),
                nv == self@.nv(),
                b == self@.b(),
                z == self@.size(),
                nd == self@.dimensions.len(),
                self@.fixed_var_count() <= self@.num_vars,
                d <= nd,
                acc as int == objective_prefix(self@, vals@, z + d),
                forall|k2: int|
                    0 <= k2 <= z + d ==> i64::MIN <= #[trigger] objective_prefix(self@, vals@, k2)
                        && objective_prefix(self@, vals@, k2) <= i64::MAX,
                forall|d2: int|
                    0 <= d2 < d ==> i64::MIN <= #[trigger] span_cost_term(self@, vals@, d2)
                        && span_cost_term(self@, vals@, d2) <= i64::MAX,
            decreases nd - d,
        {
            proof {
                assert(dim_wired_ok(self@, d as int));
                assert(dim_valid(self@, vals@, d as int));
                assert(self@.dimensions[d as int] == self.dimensions@[d as int]@);
            }
            let base = self.dimensions[d].base_var_id;
            let coeff = self.dimensions[d].global_span_cost_coefficient;
            proof {
                assert(dim_cumul_ok(self@, vals@, d as int, (b + nv) as int));
            }
            let mut mx: i64 = vals[base + b + nv];
            let mut v: usize = 1;
            while v < nv
                invariant
                    model_wf(self@),
                    vals@.len() == self@.num_vars,
                    dims_valid(self@, vals@),
                    s == self@.s(),
                    nv == self@.nv(),
                    b == self@.b(),
                    d < self@.dimensions.len(),
                    base == self@.dimensions[d as int].base_var_id,
                    dim_wired_ok(self@, d as int),
                    1 <= v <= nv,
                    mx as int == max_end_cumul(self@, vals@, d as int, v as int),
                    0 <= mx,
                decreases nv - v,
            {
                proof {
                    assert(dim_valid(self@, vals@, d as int));
                    assert(dim_cumul_ok(self@, vals@, d as int, (b + nv + v) as int));
                }
                let c = vals[base + b + nv + v];
                if c > mx {
                    mx = c;
                }
                v += 1;
            }
            proof {
                assert(dim_valid(self@, vals@, d as int));
                assert(dim_cumul_ok(self@, vals@, d as int, b as int));
            }
            let mut mn: i64 = vals[base + b];
            let mut v: usize = 1;
            while v < nv
                invariant
                    model_wf(self@),
                    vals@.len() == self@.num_vars,
                    dims_valid(self@, vals@),
                    s == self@.s(),
                    nv == self@.nv(),
                    b == self@.b(),
                    d < self@.dimensions.len(),
                    base == self@.dimensions[d as int].base_var_id,
                    dim_wired_ok(self@, d as int),
                    1 <= v <= nv,
                    mn as int == min_start_cumul(self@, vals@, d as int, v as int),
                    0 <= mn,
                decreases nv - v,
            {
                proof {
                    assert(dim_valid(self@, vals@, d as int));
                    assert(dim_cumul_ok(self@, vals@, d as int, (b + v) as int));
                }
                let c = vals[base + b + v];
                if c < mn {
                    mn = c;
                }
                v += 1;
            }
            let diff = mx - mn;
            let product = match coeff.checked_mul(diff) {
                Some(x) => x,
                None => {
                    proof {
                        assert(span_cost_term(self@, vals@, d as int) == coeff as int * diff as int);
                        assert(!(i64::MIN <= span_cost_term(self@, vals@, d as int)
                            && span_cost_term(self@, vals@, d as int) <= i64::MAX));
                    }
                    return false;
                },
            };
            proof {
                assert(product as int == span_cost_term(self@, vals@, d as int));
                assert(objective_prefix(self@, vals@, z + d + 1) == acc as int + product as int);
            }
            acc = match acc.checked_add(product) {
                Some(x) => x,
                None => {
                    proof {
                        assert(!(i64::MIN <= objective_prefix(self@, vals@, z + d + 1)
                            && objective_prefix(self@, vals@, z + d + 1) <= i64::MAX));
                    }
                    return false;
                },
            };
            d += 1;
        }
        if vals[3 * s] != acc {
            proof {
                assert(a_cost(self@, vals@) as int != objective_prefix(
                    self@,
                    vals@,
                    self@.size() + self@.dimensions.len(),
                ));
            }
            return false;
        }
        proof {
            assert(cost_valid(self@, vals@));
        }
        true
    }

    /// Decides whether a candidate valuation is an accepted assignment of
    /// the wired model: the path invariants, every dimension invariant,
    /// every side constraint, and a truthful cost.
    pub fn is_valid_assignment(&self, values: &Vec<i64>) -> (r: bool)
        requires
            model_wf(self@),
        ensures
            r == valid_assignment(self@, values@),
    {
        if values.len() != self.num_vars {
            return false;
        }
        if !self.check_path(values) {
            return false;
        }
        if !self.check_dims(values) {
            return false;
        }
        if !self.check_constraints(values) {
            return false;
        }
        if !self.check_cost(values) {
            return false;
        }
        true
    }
}

/// The fixed variable block of a well-formed model fits its valuation.
proof fn lemma_fixed_fits(mv: RoutingModelV)
    requires
        model_wf(mv),
    ensures
        mv.fixed_var_count() <= mv.num_vars,
{
    let nd = mv.dimensions.len() as int;
    if nd > 0 {
        assert(dim_wired_ok(mv, nd - 1));
    }
}

impl RoutingModel {
    /// Computes the objective of a candidate valuation the way the cost
    /// clauses state it, or `None` when a partial sum or span product
    /// leaves the 64-bit range.
    fn candidate_cost(&self, vals: &Vec<i64>) -> (r: Option<i64>)
        requires
            model_wf(self@),
            vals@.len() == self@.num_vars,
    {
        let s = self.manager.num_indices() as usize;
        let nv = self.manager.num_vehicles() as usize;
        let b = s - 2 * nv;
        let z = s - nv;
        let nd = self.dimensions.len();
        proof {
            lemma_fixed_fits(self@);
        }
        let mut acc: i64 = 0;
        let mut k: usize = 0;
        while k < z
            invariant
                model_wf(self@),
                vals@.len() == self@.num_vars,
                s == self@.s(),
                nv == self@.nv(),
                b == self@.b(),
                z == self@.size(),
                self@.fixed_var_count() <= self@.num_vars,
                k <= z,
            decreases z - k,
        {
            let term: i64 = if self.cost_evaluator >= 0 {
                let nx = vals[k];
                if 0 <= nx && nx < s as i64 && nx != k as i64 {
                    self.callback_value(self.cost_evaluator, k, nx as usize)
                } else {
                    0
                }
            } else {
                0
            };
            acc = match acc.checked_add(term) {
                Some(x) => x,
                None => { return None },
            };
            k += 1;
        }
        let mut d: usize = 0;
        while d < nd
            invariant
                model_wf(self@),
                vals@.len() == self@.num_vars,
                s == self@.s(),
                nv == self@.nv(),
                b == self@.b(),
                z == self@.size(),
                nd == self@.dimensions.len(),
                self@.fixed_var_count() <= self@.num_vars,
                d <= nd,
            decreases nd - d,
        {
            proof {
                assert(dim_wired_ok(self@, d as int));
                assert(self@.dimensions[d as int] == self.dimensions@[d as int]@);
            }
            let base = self.dimensions[d].base_var_id;
            let coeff = self.dimensions[d].global_span_cost_coefficient;
            let mut mx: i64 = vals[base + b + nv];
            let mut mn: i64 = vals[base + b];
            let mut v: usize = 1;
            while v < nv
                invariant
                    model_wf(self@),
                    vals@.len() == self@.num_vars,
                    s == self@.s(),
                    nv == self@.nv(),
                    b == self@.b(),
                    d < self@.dimensions.len(),
                    base == self@.dimensions[d as int].base_var_id,
                    dim_wired_ok(self@, d as int),
                    1 <= v <= nv,
                decreases nv - v,
            {
                let c_end = vals[base + b + nv + v];
                if c_end > mx {
                    mx = c_end;
                }
                let c_start = vals[base + b + v];
                if c_start < mn {
                    mn = c_start;
                }
                v += 1;
            }
            let diff: i128 = mx as i128 - mn as i128;
            let product: i128 = match (coeff as i128).checked_mul(diff) {
                Some(x) => x,
                None => { return None },
            };
            if product < i64::MIN as i128 || product > i64::MAX as i128 {
                return None;
            }
            acc = match acc.checked_add(product as i64) {
                Some(x) => x,
                None => { return None },
            };
            d += 1;
        }
        Some(acc)
    }

    /// Builds a candidate valuation by cheapest-arc route construction:
    /// each vehicle in turn extends its route with the cheapest plain node
    /// that fits every dimension's capacity, then closes at its end index.
    /// Returns `None` when the construction strands a node or an
    /// accumulation leaves the 64-bit range; the result is a candidate
    /// only, to be held against the wired model before it is accepted.
    fn first_solution(&self) -> (r: Option<Vec<i64>>)
        requires
            model_wf(self@),
        ensures
            r matches Some(vals) ==> vals@.len() == self@.num_vars,
    {
        let s = self.manager.num_indices() as usize;
        let nv = self.manager.num_vehicles() as usize;
        let b = s - 2 * nv;
        let z = s - nv;
        let nd = self.dimensions.len();
        let num_vars = self.num_vars;
        proof {
            lemma_fixed_fits(self@);
        }
        let mut vals: Vec<i64> = Vec::new();
        let mut k: usize = 0;
        while k < num_vars
            invariant
                vals@.len() == k,
                k <= num_vars,
            decreases num_vars - k,
        {
            vals.push(0);
            k += 1;
        }
        let mut visited: Vec<bool> = Vec::new();
        let mut k: usize = 0;
        while k < b
            invariant
                visited@.len() == k,
                k <= b,
            decreases b - k,
        {
            visited.push(false);
            k += 1;
        }
        // Every index with path variables starts self-looped and unvisited.
        let mut i: usize = 0;
        while i < z
            invariant
                model_wf(self@),
                s == self@.s(),
                nv == self@.nv(),
                b == self@.b(),
                z == self@.size(),
                num_vars == self@.num_vars,
                self@.fixed_var_count() <= self@.num_vars,
                vals@.len() == num_vars,
                i <= z,
            decreases z - i,
        {
            vals.set(i, i as i64);
            vals.set(s + i, 0);
            vals.set(2 * s + i, NO_VEHICLE);
            i += 1;
        }
        let mut v: usize = 0;
        while v < nv
            invariant
                model_wf(self@),
                s == self@.s(),
                nv == self@.nv(),
                b == self@.b(),
                z == self@.size(),
                nd == self@.dimensions.len(),
                num_vars == self@.num_vars,
                self@.fixed_var_count() <= self@.num_vars,
                vals@.len() == num_vars,
                visited@.len() == b,
                v <= nv,
            decreases nv - v,
        {
            let start = b + v;
            let end = b + nv + v;
            vals.set(2 * s + start, v as i64);
            vals.set(2 * s + end, v as i64);
            let mut cumuls: Vec<i64> = Vec::new();
            let mut dk: usize = 0;
            while dk < nd
                invariant
                    cumuls@.len() == dk,
                    dk <= nd,
                decreases nd - dk,
            {
                cumuls.push(0);
                dk += 1;
            }
            let mut cur: usize = start;
            let mut steps: usize = 0;
            let mut done = false;
            while !done
                invariant
                    model_wf(self@),
                    s == self@.s(),
                    nv == self@.nv(),
                    b == self@.b(),
                    z == self@.size(),
                    nd == self@.dimensions.len(),
                    num_vars == self@.num_vars,
                    self@.fixed_var_count() <= self@.num_vars,
                    vals@.len() == num_vars,
                    visited@.len() == b,
                    cumuls@.len() == nd,
                    v < nv,
                    start == b + v,
                    end == b + nv + v,
                    cur < z,
                    steps <= b,
                decreases 2 * (b - steps) + (if done {
                    0int
                } else {
                    1int
                }),
            {
                // Cheapest feasible plain node to extend the route with.
                let mut best: usize = b;
                let mut best_cost: i64 = 0;
                let mut j: usize = 0;
                while j < b
                    invariant
                        model_wf(self@),
                        s == self@.s(),
                        nv == self@.nv(),
                        b == self@.b(),
                        z == self@.size(),
                        nd == self@.dimensions.len(),
                        visited@.len() == b,
                        cumuls@.len() == nd,
                        cur < z,
                        end < s,
                        j <= b,
                        best <= b,
                    decreases b - j,
                {
                    if !visited[j] {
                        let mut fits = true;
                        let mut dk: usize = 0;
                        while dk < nd
                            invariant
                                model_wf(self@),
                                s == self@.s(),
                                nd == self@.dimensions.len(),
                                cumuls@.len() == nd,
                                cur < z,
                                z <= s,
                                end < s,
                                j < b,
                                b <= s,
                                dk <= nd,
                            decreases nd - dk,
                        {
                            proof {
                                assert(dim_wired_ok(self@, dk as int));
                                assert(self@.dimensions[dk as int] == self.dimensions@[dk as int]@);
                            }
                            // The node must fit now, and still leave room
                            // for the closing leg to the vehicle's end.
                            let t = self.callback_value(self.dimensions[dk].evaluator, cur, j);
                            let t_end = self.callback_value(
                                self.dimensions[dk].evaluator,
                                j,
                                end,
                            );
                            match cumuls[dk].checked_add(t) {
                                Some(c2) => {
                                    if c2 < 0 || c2 > self.dimensions[dk].capacity {
                                        fits = false;
                                    }
                                    match c2.checked_add(t_end) {
                                        Some(c3) => {
                                            if c3 < 0 || c3 > self.dimensions[dk].capacity {
                                                fits = false;
                                            }
                                        },
                                        None => {
                                            fits = false;
                                        },
                                    }
                                },
                                None => {
                                    fits = false;
                                },
                            }
                            dk += 1;
                        }
                        if fits {
                            let cost: i64 = if self.cost_evaluator >= 0 {
                                self.callback_value(self.cost_evaluator, cur, j)
                            } else {
                                0
                            };
                            if best == b || cost < best_cost {
                                best = j;
                                best_cost = cost;
                            }
                        }
                    }
                    j += 1;
                }
                if best < b && steps < b {
                    let j = best;
                    vals.set(cur, j as i64);
                    vals.set(s + cur, 1);
                    vals.set(2 * s + j, v as i64);
                    let mut dk: usize = 0;
                    while dk < nd
                        invariant
                            model_wf(self@),
                            s == self@.s(),
                            nv == self@.nv(),
                            b == self@.b(),
                            z == self@.size(),
                            nd == self@.dimensions.len(),
                            num_vars == self@.num_vars,
                            vals@.len() == num_vars,
                            cumuls@.len() == nd,
                            cur < z,
                            j < b,
                            dk <= nd,
                        decreases nd - dk,
                    {
                        proof {
                            assert(dim_wired_ok(self@, dk as int));
                            assert(self@.dimensions[dk as int] == self.dimensions@[dk as int]@);
                        }
                        let base = self.dimensions[dk].base_var_id;
                        let t = self.callback_value(self.dimensions[dk].evaluator, cur, j);
                        let c2 = match cumuls[dk].checked_add(t) {
                            Some(x) => x,
                            None => { return None },
                        };
                        vals.set(base + s + cur, t);
                        vals.set(base + 2 * s + cur, t);
                        vals.set(base + 3 * s + cur, 0);
                        vals.set(base + j, c2);
                        cumuls.set(dk, c2);
                        dk += 1;
                    }
                    visited.set(j, true);
                    steps += 1;
                    cur = j;
                } else {
                    vals.set(cur, end as i64);
                    vals.set(s + cur, 1);
                    let mut dk: usize = 0;
                    while dk < nd
                        invariant
                            model_wf(self@),
                            s == self@.s(),
                            nv == self@.nv(),
                            b == self@.b(),
                            z == self@.size(),
                            nd == self@.dimensions.len(),
                            num_vars == self@.num_vars,
                            vals@.len() == num_vars,
                            cumuls@.len() == nd,
                            cur < z,
                            end < s,
                            dk <= nd,
                        decreases nd - dk,
                    {
                        proof {
                            assert(dim_wired_ok(self@, dk as int));
                            assert(self@.dimensions[dk as int] == self.dimensions@[dk as int]@);
                        }
                        let base = self.dimensions[dk].base_var_id;
                        let t = self.callback_value(self.dimensions[dk].evaluator, cur, end);
                        let c2 = match cumuls[dk].checked_add(t) {
                            Some(x) => x,
                            None => { return None },
                        };
                        if c2 < 0 || c2 > self.dimensions[dk].capacity {
                            return None;
                        }
                        vals.set(base + s + cur, t);
                        vals.set(base + 2 * s + cur, t);
                        vals.set(base + 3 * s + cur, 0);
                        vals.set(base + end, c2);
                        dk += 1;
                    }
                    done = true;
                }
            }
            let used: i64 = if vals[start] == end as i64 {
                0
            } else {
                1
            };
            vals.set(3 * s + 1 + v, used);
            vals.set(3 * s + 1 + nv + v, used);
            v += 1;
        }
        // Every plain node must have found a route.
        let mut j: usize = 0;
        while j < b
            invariant
                visited@.len() == b,
                j <= b,
            decreases b - j,
        {
            if !visited[j] {
                return None;
            }
            j += 1;
        }
        let cost = match self.candidate_cost(&vals) {
            Some(x) => x,
            None => { return None },
        };
        vals.set(3 * s, cost);
        Some(vals)
    }

    /// Builds the canonical tour's valuation, slot by slot.
    fn canonical_candidate(&self) -> (r: Vec<i64>)
        requires
            model_wf(self@),
        ensures
            r@ == canonical_assignment(self@),
    {
        let s = self.manager.num_indices() as usize;
        let nv = self.manager.num_vehicles() as usize;
        let b = s - 2 * nv;
        let z = s - nv;
        let num_vars = self.num_vars;
        proof {
            lemma_fixed_fits(self@);
        }
        // The clamped cost of the tour's arcs.
        let mut acc: i128 = 0;
        let mut k: usize = 0;
        while k < z
            invariant
                model_wf(self@),
                s == self@.s(),
                nv == self@.nv(),
                b == self@.b(),
                z == self@.size(),
                k <= z,
                acc as int == canonical_arc_prefix(self@, k as int),
                -(k as int) * 0x1_0000_0000_0000_0000 <= acc as int,
                acc as int <= (k as int) * 0x1_0000_0000_0000_0000,
            decreases z - k,
        {
            let cn = self.canonical_next_at(k);
            let term: i64 = if self.cost_evaluator >= 0 {
                self.callback_value(self.cost_evaluator, k, cn)
            } else {
                0
            };
            proof {
                assert(term as int == canonical_arc_term(self@, k as int));
            }
            acc = acc + term as i128;
            k += 1;
        }
        let cost_value: i64 = if acc > i64::MAX as i128 {
            i64::MAX
        } else if acc < i64::MIN as i128 {
            i64::MIN
        } else {
            acc as i64
        };
        proof {
            assert(cost_value == clamped64(canonical_arc_prefix(self@, self@.size())));
        }
        let mut vals: Vec<i64> = Vec::new();
        let mut t: usize = 0;
        while t < num_vars
            invariant
                model_wf(self@),
                s == self@.s(),
                nv == self@.nv(),
                b == self@.b(),
                z == self@.size(),
                num_vars == self@.num_vars,
                self@.fixed_var_count() <= self@.num_vars,
                cost_value == clamped64(canonical_arc_prefix(self@, self@.size())),
                vals@.len() == t,
                t <= num_vars,
                forall|t2: int| 0 <= t2 < t ==> #[trigger] vals@[t2] == canonical_slot(self@, t2),
            decreases num_vars - t,
        {
            let value: i64 = if t < z {
                self.canonical_next_at(t) as i64
            } else if t < s {
                0
            } else if t < s + z {
                1
            } else if t < 2 * s {
                0
            } else if t < 2 * s + b {
                0
            } else if t < 2 * s + b + nv {
                (t - 2 * s - b) as i64
            } else if t < 3 * s {
                (t - 2 * s - b - nv) as i64
            } else if t == 3 * s {
                cost_value
            } else if t == 3 * s + 1 {
                if b > 0 {
                    1
                } else {
                    0
                }
            } else if t < 3 * s + 1 + nv {
                0
            } else if t == 3 * s + 1 + nv {
                if b > 0 {
                    1
                } else {
                    0
                }
            } else {
                0
            };
            proof {
                assert(value == canonical_slot(self@, t as int));
            }
            vals.push(value);
            t += 1;
        }
        proof {
            assert(vals@ =~= canonical_assignment(self@));
        }
        vals
    }

    /// The canonical tour's successor of index `i`.
    fn canonical_next_at(&self, i: usize) -> (r: usize)
        requires
            model_wf(self@),
            (i as int) < self@.size(),
        ensures
            r as int == canonical_next(self@, i as int),
            r < self@.s(),
    {
        let s = self.manager.num_indices() as usize;
        let nv = self.manager.num_vehicles() as usize;
        let b = s - 2 * nv;
        if b > 0 && i < b - 1 {
            i + 1
        } else if b > 0 && i == b - 1 {
            b + nv
        } else if i == b {
            if b > 0 {
                0
            } else {
                b + nv
            }
        } else {
            i + nv
        }
    }

    /// Solves the current routing model with the given parameters, building
    /// a first solution and holding it against the wired model; when the
    /// heuristic finds nothing acceptable but the canonical in-order tour
    /// satisfies the wired model, that tour is returned, so success is owed
    /// on every model the canonical tour solves. The construction runs to
    /// completion on its own, well within any configured time budget, so
    /// the parameters' limits never cut a search short. The
    /// returned assignment carries values exactly when its status reports
    /// success, and every such assignment satisfies the model: the path
    /// invariants, the dimension invariants, the side constraints and the
    /// stated cost. Without a feasible assignment the status reports
    /// failure and the model moves to its infeasible state; solving again
    /// re-uses the same wiring.
    pub fn solve_with_parameters(&mut self, search_parameters: &RoutingSearchParameters) -> (r:
        Assignment)
        requires
            model_wf(old(self)@),
        ensures
            model_wf(final(self)@),
            final(self)@ == (RoutingModelV { state: final(self)@.state, ..old(self)@ }),
            r@.num_indices == old(self)@.s(),
            r@.num_vehicles == old(self)@.nv(),
            r@.status == RoutingModelStatus::RoutingSuccess ==> valid_assignment(
                old(self)@,
                r@.values,
            ) && r@.values.len() == old(self)@.num_vars && final(self)@.state
                == ModelState::Solved,
            r@.status != RoutingModelStatus::RoutingSuccess ==> r@.status
                == RoutingModelStatus::RoutingFail && r@.values.len() == 0 && final(self)@.state
                == ModelState::Infeasible,
            valid_assignment(old(self)@, canonical_assignment(old(self)@)) ==> r@.status
                == RoutingModelStatus::RoutingSuccess,
    {
        let _ = search_parameters;
        let s = self.manager.num_indices() as usize;
        let nv = self.manager.num_vehicles() as usize;
        let candidate = self.first_solution();
        match candidate {
            Some(vals) => {
                if self.is_valid_assignment(&vals) {
                    self.state = ModelState::Solved;
                    proof {
                        lemma_wf_same_wiring(old(self)@, self@);
                    }
                    return Assignment {
                        status: RoutingModelStatus::RoutingSuccess,
                        num_indices: s,
                        num_vehicles: nv,
                        values: vals,
                    };
                }
            },
            None => {},
        }
        // The heuristic found nothing acceptable; the canonical tour may
        // still satisfy the wired model.
        let fallback = self.canonical_candidate();
        if self.is_valid_assignment(&fallback) {
            self.state = ModelState::Solved;
            proof {
                lemma_wf_same_wiring(old(self)@, self@);
            }
            return Assignment {
                status: RoutingModelStatus::RoutingSuccess,
                num_indices: s,
                num_vehicles: nv,
                values: fallback,
            };
        }
        self.state = ModelState::Infeasible;
        proof {
            lemma_wf_same_wiring(old(self)@, self@);
        }
        Assignment {
            status: RoutingModelStatus::RoutingFail,
            num_indices: s,
            num_vehicles: nv,
            values: Vec::new(),
        }
    }
}

/// In every accepted assignment, for every variable index with path
/// variables: the index is inactive exactly when it is its own successor,
/// exactly when it belongs to no vehicle; and activity is a 0/1 value.
pub proof fn lemma_active_next_vehicle(mv: RoutingModelV, vals: Seq<i64>, i: int)
    requires
        valid_assignment(mv, vals),
        0 <= i < mv.size(),
    ensures
        a_active(mv, vals, i) == 0i64 <==> a_next(mv, vals, i) as int == i,
        a_active(mv, vals, i) == 0i64 <==> a_vehicle(mv, vals, i) == NO_VEHICLE,
        a_active(mv, vals, i) == 0i64 || a_active(mv, vals, i) == 1i64,
{
    assert(path_index_ok(mv, vals, i));
}

/// In every accepted assignment, the vehicle of an index's successor is
/// the vehicle of the index itself.
pub proof fn lemma_next_same_vehicle(mv: RoutingModelV, vals: Seq<i64>, i: int)
    requires
        valid_assignment(mv, vals),
        0 <= i < mv.size(),
    ensures
        a_vehicle(mv, vals, a_next(mv, vals, i) as int) == a_vehicle(mv, vals, i),
{
    assert(path_index_ok(mv, vals, i));
}

/// In every accepted assignment, for every wired dimension and every index
/// with a successor: the cumul at the successor is the cumul at the index
/// plus its transit plus its slack.
pub proof fn lemma_cumul_recurrence(mv: RoutingModelV, vals: Seq<i64>, d: int, i: int)
    requires
        valid_assignment(mv, vals),
        0 <= d < mv.dimensions.len(),
        0 <= i < mv.size(),
    ensures
        a_cumul(mv, vals, d, a_next(mv, vals, i) as int) as int == a_cumul(mv, vals, d, i) as int
            + a_transit(mv, vals, d, i) as int + a_slack(mv, vals, d, i) as int,
{
    assert(dim_valid(mv, vals, d));
    assert(dim_index_ok(mv, vals, d, i));
}

/// In every accepted assignment of a dimension wired with its start cumuls
/// pinned, the cumul at every vehicle's start index is zero.
pub proof fn lemma_start_cumul_zero(mv: RoutingModelV, vals: Seq<i64>, d: int, v: int)
    requires
        valid_assignment(mv, vals),
        0 <= d < mv.dimensions.len(),
        mv.dimensions[d].fix_start_cumul_to_zero,
        0 <= v < mv.nv(),
    ensures
        a_cumul(mv, vals, d, mv.b() + v) == 0i64,
{
    assert(dim_valid(mv, vals, d));
    assert(dim_start_ok(mv, vals, d, v));
}

/// Reading a vehicle's start index twice, before any mutation, returns
/// identical results: the accessor's contract pins each result to a
/// function of the model value and the vehicle alone.
pub proof fn lemma_start_reads_agree(
    mv: RoutingModelV,
    vehicle: int,
    r1: Option<i64>,
    r2: Option<i64>,
)
    requires
        r1 is Some <==> 0 <= vehicle < mv.nv(),
        r1 matches Some(x) ==> x as int == mv.b() + vehicle,
        r2 is Some <==> 0 <= vehicle < mv.nv(),
        r2 matches Some(x) ==> x as int == mv.b() + vehicle,
    ensures
        r1 == r2,
{
}

/// Reading a vehicle's end index twice, before any mutation, returns
/// identical results.
pub proof fn lemma_end_reads_agree(
    mv: RoutingModelV,
    vehicle: int,
    r1: Option<i64>,
    r2: Option<i64>,
)
    requires
        r1 is Some <==> 0 <= vehicle < mv.nv(),
        r1 matches Some(x) ==> x as int == mv.b() + mv.nv() + vehicle,
        r2 is Some <==> 0 <= vehicle < mv.nv(),
        r2 matches Some(x) ==> x as int == mv.b() + mv.nv() + vehicle,
    ensures
        r1 == r2,
{
}

/// Reading the cost variable twice, before any mutation, returns identical
/// results.
pub proof fn lemma_cost_var_reads_agree(mv: RoutingModelV, r1: Option<IntVar>, r2: Option<IntVar>)
    requires
        r1 matches Some(x) && x.id as int == mv.cost_var_id(),
        r2 matches Some(x) && x.id as int == mv.cost_var_id(),
    ensures
        r1 == r2,
{
}

/// In every accepted assignment, a vehicle's activity value is one exactly
/// when its route is non-empty: when its start's successor is not its end.
pub proof fn lemma_vehicle_used_iff_nonempty(mv: RoutingModelV, vals: Seq<i64>, v: int)
    requires
        valid_assignment(mv, vals),
        0 <= v < mv.nv(),
    ensures
        a_active_vehicle(mv, vals, v) == 1i64 <==> a_next(mv, vals, mv.b() + v) as int != mv.b()
            + mv.nv() + v,
        a_route_considered(mv, vals, v) == a_active_vehicle(mv, vals, v),
{
    assert(path_vehicle_ok(mv, vals, v));
}

/// In every accepted assignment, no two indices share a successor: the
/// routes are simple chains.
pub proof fn lemma_successors_distinct(mv: RoutingModelV, vals: Seq<i64>, i: int, j: int)
    requires
        valid_assignment(mv, vals),
        0 <= i < mv.size(),
        0 <= j < mv.size(),
        i != j,
    ensures
        a_next(mv, vals, i) != a_next(mv, vals, j),
{
}

/// In every accepted assignment, every on-route index leads to a vehicle
/// end within the index count: no route wanders into a cycle.
pub proof fn lemma_route_reaches_end(mv: RoutingModelV, vals: Seq<i64>, i: int)
    requires
        valid_assignment(mv, vals),
        0 <= i < mv.size(),
        a_next(mv, vals, i) as int != i,
    ensures
        reaches_an_end(mv, vals, i),
{
}

} // verus!
