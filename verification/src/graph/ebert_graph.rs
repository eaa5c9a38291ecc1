//! A directed multigraph stored as parallel tail and head tables.

use vstd::prelude::*;

verus! {

/// Identifier of a graph node.
pub type NodeIndex = u32;

/// Identifier of a graph arc.
pub type ArcIndex = u32;

/// Amount of flow on an arc or supply at a node.
pub type FlowQuantity = i64;

/// Cost of moving one unit of flow along an arc.
pub type CostValue = i64;

/// The arc index returned when an arc could not be added.
pub const NIL_ARC: ArcIndex = u32::MAX;

/// A directed multigraph with a fixed capacity of nodes and arcs.
///
/// For a given pair `(tail, head)`, adding an arc does not overwrite an
/// already-existing arc between tail and head: another arc is created
/// instead. This makes it possible to handle multigraphs.
pub struct StarGraph {
    max_num_nodes: u32,
    max_num_arcs: u32,
    tails: Vec<u32>,
    heads: Vec<u32>,
}

/// The mathematical content of a graph: its capacities and its arcs as
/// (tail, head) pairs.
pub struct StarGraphV {
    /// Capacity of nodes; every node identifier lies below it.
    pub max_num_nodes: int,
    /// Capacity of arcs.
    pub max_num_arcs: int,
    /// Tail node of each arc.
    pub tails: Seq<u32>,
    /// Head node of each arc.
    pub heads: Seq<u32>,
}

impl View for StarGraph {
    type V = StarGraphV;

    closed spec fn view(&self) -> StarGraphV {
        StarGraphV {
            max_num_nodes: self.max_num_nodes as int,
            max_num_arcs: self.max_num_arcs as int,
            tails: self.tails@,
            heads: self.heads@,
        }
    }
}

/// Well-formedness of a graph: tail and head tables of equal length within
/// the arc capacity, every endpoint within the node capacity.
pub open spec fn graph_wf(g: StarGraphV) -> bool {
    &&& g.tails.len() == g.heads.len()
    &&& g.tails.len() <= g.max_num_arcs
    &&& g.max_num_nodes <= u32::MAX as int
    &&& g.max_num_arcs < u32::MAX as int
    &&& forall|a: int| 0 <= a < g.tails.len() ==> ((#[trigger] g.tails[a]) as int) < g.max_num_nodes
    &&& forall|a: int| 0 <= a < g.heads.len() ==> ((#[trigger] g.heads[a]) as int) < g.max_num_nodes
}

/// Copies a table of node identifiers.
fn clone_u32_vec(v: &Vec<u32>) -> (r: Vec<u32>)
    ensures
        r@ == v@,
{
    let r = v.clone();
    proof {
        assert forall|i: int| 0 <= i < v@.len() implies r@[i] == v@[i] by {
            assert(cloned::<u32>(v@[i], r@[i]));
        }
        assert(r@ =~= v@);
    }
    r
}

impl Clone for StarGraph {
    /// The clone holds the very same arcs and capacities.
    fn clone(&self) -> (r: Self)
        ensures
            r@ == self@,
    {
        StarGraph {
            max_num_nodes: self.max_num_nodes,
            max_num_arcs: self.max_num_arcs,
            tails: clone_u32_vec(&self.tails),
            heads: clone_u32_vec(&self.heads),
        }
    }
}

impl StarGraph {
    /// Creates an empty graph able to hold `max_num_nodes` nodes and
    /// `max_num_arcs` arcs.
    pub fn new(max_num_nodes: NodeIndex, max_num_arcs: ArcIndex) -> (r: StarGraph)
        requires
            max_num_arcs < u32::MAX,
        ensures
            graph_wf(r@),
            r@.max_num_nodes == max_num_nodes as int,
            r@.max_num_arcs == max_num_arcs as int,
            r@.tails.len() == 0,
    {
        StarGraph { max_num_nodes, max_num_arcs, tails: Vec::new(), heads: Vec::new() }
    }

    /// Adds an arc to the graph and returns its index; returns `NIL_ARC`,
    /// adding nothing, when an endpoint is out of range or the arc capacity
    /// is full.
    pub fn add_arc(&mut self, tail: NodeIndex, head: NodeIndex) -> (r: ArcIndex)
        requires
            graph_wf(old(self)@),
        ensures
            graph_wf(final(self)@),
            final(self)@.max_num_nodes == old(self)@.max_num_nodes,
            final(self)@.max_num_arcs == old(self)@.max_num_arcs,
            (r != NIL_ARC) <==> ((tail as int) < old(self)@.max_num_nodes && (head as int) < old(
                self,
            )@.max_num_nodes && old(self)@.tails.len() < old(self)@.max_num_arcs),
            r != NIL_ARC ==> r as int == old(self)@.tails.len() && final(self)@.tails == old(
                self,
            )@.tails.push(tail) && final(self)@.heads == old(self)@.heads.push(head),
            r == NIL_ARC ==> final(self)@ == old(self)@,
    {
        if tail >= self.max_num_nodes || head >= self.max_num_nodes {
            return NIL_ARC;
        }
        if self.tails.len() >= self.max_num_arcs as usize {
            return NIL_ARC;
        }
        let arc = self.tails.len() as u32;
        self.tails.push(tail);
        self.heads.push(head);
        arc
    }

    /// Returns the head node of the given arc, or `None` for an arc outside
    /// the graph.
    pub fn head(&self, arc: ArcIndex) -> (r: Option<NodeIndex>)
        ensures
            r is Some <==> (arc as int) < self@.heads.len(),
            r matches Some(h) ==> h == self@.heads[arc as int],
    {
        if (arc as usize) < self.heads.len() {
            Some(self.heads[arc as usize])
        } else {
            None
        }
    }

    /// Returns the tail node of the given arc, or `None` for an arc outside
    /// the graph.
    pub fn tail(&self, arc: ArcIndex) -> (r: Option<NodeIndex>)
        ensures
            r is Some <==> (arc as int) < self@.tails.len(),
            r matches Some(t) ==> t == self@.tails[arc as int],
    {
        if (arc as usize) < self.tails.len() {
            Some(self.tails[arc as usize])
        } else {
            None
        }
    }

    /// Returns the number of nodes the graph can hold.
    pub fn num_nodes(&self) -> (r: NodeIndex)
        ensures
            r as int == self@.max_num_nodes,
    {
        self.max_num_nodes
    }

    /// Returns the number of arcs in the graph.
    pub fn num_arcs(&self) -> (r: ArcIndex)
        requires
            graph_wf(self@),
        ensures
            r as int == self@.tails.len(),
    {
        self.tails.len() as u32
    }
}

} // verus!
