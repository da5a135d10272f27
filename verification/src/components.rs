//! The morphology graph: vertices wrapping compartments, parent/child
//! adjacency derived from the compartment store, and one-level
//! `ShortTree` projections used for edge emission.

use vstd::prelude::*;

use crate::swc_parser::contains_id;
use crate::swc_parser::ids_ascending;
use crate::swc_parser::SWCCompartment;
use crate::swc_parser::SWCCompartmentKind;
use crate::swc_parser::SWCNeuron;

verus! {

/// The state of a [`Vertex`] as seen by specifications.
pub ghost struct VertexModel {
    /// The wrapped compartment.
    pub data: SWCCompartment,
    /// The identifiers of the children discovered so far, in the order
    /// they were linked.
    pub children: Seq<usize>,
}

/// A compartment together with the identifiers of its children. Children
/// are referenced by identifier (a lookup key into the graph), never by
/// direct structural linkage.
pub struct Vertex {
    data: SWCCompartment,
    children: Vec<usize>,
}

impl View for Vertex {
    type V = VertexModel;

    closed spec fn view(&self) -> VertexModel {
        VertexModel { data: self.data, children: self.children@ }
    }
}

impl Vertex {
    /// The identifier of the wrapped compartment.
    pub fn get_id(&self) -> (r: usize)
        ensures
            r == self@.data.id,
    {
        self.data.id
    }

    /// The parent identifier of the wrapped compartment, if any.
    pub fn get_parent_id(&self) -> (r: Option<usize>)
        ensures
            r == self@.data.parent_id,
    {
        self.data.parent_id
    }

    /// The identifiers of this vertex's children, in linking order.
    pub fn get_child_ids(&self) -> (r: &Vec<usize>)
        ensures
            r@ == self@.children,
    {
        &self.children
    }

    /// The kind of the wrapped compartment.
    pub fn get_kind(&self) -> (r: SWCCompartmentKind)
        ensures
            r == self@.data.kind,
    {
        self.data.kind
    }

    /// Wrap a compartment in a vertex with no children yet.
    pub fn from(compartment: SWCCompartment) -> (r: Vertex)
        ensures
            r@.data == compartment,
            r@.children == Seq::<usize>::empty(),
    {
        Vertex { data: compartment, children: Vec::new() }
    }

    /// Record `child` as a child of this vertex.
    fn add_child(&mut self, child: &Vertex)
        ensures
            final(self)@.data == old(self)@.data,
            final(self)@.children == old(self)@.children.push(child@.data.id),
    {
        self.children.push(child.data.id);
    }
}

/// The identifiers of the compartments of `s` whose parent is `p`, in
/// store order (ascending identifier order).
pub open spec fn children_of(s: Seq<SWCCompartment>, p: usize) -> Seq<usize>
    decreases s.len(),
{
    if s.len() == 0 {
        Seq::empty()
    } else {
        let rest = children_of(s.drop_last(), p);
        if s.last().parent_id == Some(p) {
            rest.push(s.last().id)
        } else {
            rest
        }
    }
}

/// Whether every compartment's parent reference can be linked: the
/// parent is strictly below the compartment's own identifier and exists
/// in the store.
pub open spec fn parents_linkable(s: Seq<SWCCompartment>) -> bool {
    forall|i: int|
        0 <= i < s.len() ==> (match (#[trigger] s[i]).parent_id {
            Some(p) => p < s[i].id && contains_id(s, p as int),
            None => true,
        })
}

/// Whether the vertex models' identifiers are strictly ascending.
pub open spec fn vertices_ascending(vs: Seq<VertexModel>) -> bool {
    forall|i: int, j: int| 0 <= i < j < vs.len() ==> vs[i].data.id < vs[j].data.id
}

proof fn lemma_children_of_step(s: Seq<SWCCompartment>, k: int, q: usize)
    requires
        0 <= k < s.len(),
    ensures
        children_of(s.take(k + 1), q) == if s[k].parent_id == Some(q) {
            children_of(s.take(k), q).push(s[k].id)
        } else {
            children_of(s.take(k), q)
        },
{
    assert(s.take(k + 1).drop_last() =~= s.take(k));
    assert(s.take(k + 1).last() == s[k]);
}

proof fn lemma_no_children_yet(s: Seq<SWCCompartment>, k: int, m: int)
    requires
        ids_ascending(s),
        forall|i: int|
            0 <= i < s.len() ==> ((#[trigger] s[i]).parent_id matches Some(p) ==> p < s[i].id),
        0 <= k < s.len(),
        0 <= m <= k + 1,
    ensures
        children_of(s.take(m), s[k].id).len() == 0,
    decreases m,
{
    if m > 0 {
        lemma_no_children_yet(s, k, m - 1);
        assert(s.take(m).drop_last() =~= s.take(m - 1));
        assert(s.take(m).last() == s[m - 1]);
        if s[m - 1].parent_id == Some(s[k].id) {
            assert(s[k].id < s[m - 1].id);
            if m - 1 < k {
                assert(s[m - 1].id < s[k].id);
            }
        }
    }
}

/// The morphology graph: every compartment as a vertex, keyed and
/// ordered by identifier, with parent-to-child adjacency.
pub struct Graph {
    vertices: Vec<Vertex>,
}

impl View for Graph {
    type V = Seq<VertexModel>;

    closed spec fn view(&self) -> Seq<VertexModel> {
        self.vertices@.map_values(|v: Vertex| v@)
    }
}

impl Graph {
    /// Whether the graph's order invariant holds: vertex identifiers
    /// strictly ascending.
    pub open spec fn wf(&self) -> bool {
        vertices_ascending(self@)
    }

    /// The number of vertices.
    pub fn len(&self) -> (r: usize)
        ensures
            r == self@.len(),
    {
        self.vertices.len()
    }

    /// The vertex at position `i` in identifier order.
    pub fn get_vertex(&self, i: usize) -> (r: &Vertex)
        requires
            i < self@.len(),
        ensures
            r@ == self@[i as int],
    {
        &self.vertices[i]
    }

    /// Build a graph from a compartment store whose parent references
    /// all resolve. Every compartment becomes a vertex, and each
    /// vertex's children are exactly the compartments that name it as
    /// parent, linked in ascending identifier order.
    pub fn from(neuron: SWCNeuron) -> (r: Graph)
        requires
            neuron.wf(),
            parents_linkable(neuron@),
        ensures
            r.wf(),
            r@.len() == neuron@.len(),
            forall|i: int|
                0 <= i < neuron@.len() ==> (#[trigger] r@[i]).data == neuron@[i] && r@[i].children
                    == children_of(neuron@, neuron@[i].id),
    {
        let ghost all = neuron@;
        let mut comps = neuron.into_compartments();
        let mut vertices: Vec<Vertex> = Vec::new();
        while comps.len() > 0
            invariant
                ids_ascending(all),
                parents_linkable(all),
                vertices@.len() + comps@.len() == all.len(),
                comps@ == all.skip(vertices@.len() as int),
                forall|t: int|
                    0 <= t < vertices@.len() ==> (#[trigger] vertices@[t]@).data == all[t],
                forall|t: int|
                    0 <= t < vertices@.len() ==> (#[trigger] vertices@[t]@).children
                        == children_of(all.take(vertices@.len() as int), all[t].id),
            decreases comps@.len(),
        {
            let ghost k = vertices@.len() as int;
            let compartment = comps.remove(0);
            proof {
                assert(compartment == all[k]);
                assert(comps@ =~= all.skip(k + 1));
            }
            let vertex = Vertex::from(compartment);
            match vertex.get_parent_id() {
                Some(parent_id) => {
                    // The parent always precedes this vertex: its
                    // identifier is smaller and it exists in the store.
                    let ghost m = choose|m: int|
                        0 <= m < all.len() && all[m].id == parent_id as int;
                    proof {
                        assert(parent_id < all[k].id);
                        if m >= k {
                            assert(all[k].id <= all[m].id);
                        }
                        assert(0 <= m < k);
                    }
                    let mut j: usize = 0;
                    while j < vertices.len() && vertices[j].get_id() != parent_id
                        invariant
                            0 <= j <= m,
                            0 <= m < vertices@.len(),
                            vertices@[m]@.data.id == parent_id,
                            forall|t: int|
                                0 <= t < vertices@.len() ==> (#[trigger] vertices@[t]@).data
                                    == all[t],
                        decreases m - j,
                    {
                        proof {
                            assert(j < m) by {
                                assert(vertices@[j as int]@.data.id != parent_id);
                            }
                        }
                        j = j + 1;
                    }
                    proof {
                        assert(j <= m);
                        assert(vertices@[j as int]@.data.id == parent_id);
                    }
                    let ghost before = vertices@;
                    vertices[j].add_child(&vertex);
                    proof {
                        assert(vertices@ =~= before.update(j as int, vertices@[j as int]));
                        assert forall|t: int| 0 <= t < vertices@.len() implies (
                        #[trigger] vertices@[t]@).children == children_of(
                            all.take(k + 1),
                            all[t].id,
                        ) by {
                            lemma_children_of_step(all, k, all[t].id);
                            if t != j {
                                assert(vertices@[t] == before[t]);
                                // Identifiers are unique, so only the
                                // found parent gains a child.
                                if all[k].parent_id == Some(all[t].id) {
                                    assert(all[t].id == parent_id);
                                    if t < j {
                                    } else {
                                        assert(before[j as int]@.data.id == parent_id);
                                    }
                                    assert(false);
                                }
                            } else {
                                assert(all[k].parent_id == Some(all[j as int].id));
                            }
                        }
                    }
                },
                None => {
                    proof {
                        assert forall|t: int| 0 <= t < vertices@.len() implies (
                        #[trigger] vertices@[t]@).children == children_of(
                            all.take(k + 1),
                            all[t].id,
                        ) by {
                            lemma_children_of_step(all, k, all[t].id);
                        }
                    }
                },
            }
            vertices.push(vertex);
            proof {
                lemma_no_children_yet(all, k, k + 1);
                assert(vertices@[k]@.children =~= children_of(all.take(k + 1), all[k].id));
            }
        }
        proof {
            assert(all.take(all.len() as int) =~= all);
        }
        let graph = Graph { vertices };
        proof {
            assert forall|i: int| 0 <= i < all.len() implies (#[trigger] graph@[i]).data == all[i]
                && graph@[i].children == children_of(all, all[i].id) by {
                assert(graph@[i] == graph.vertices@[i]@);
            }
        }
        graph
    }
}

/// The state of a [`ShortTree`] as seen by specifications.
pub ghost struct ShortTreeModel {
    /// The identifier of the root vertex.
    pub root_id: usize,
    /// The identifiers of the root's children, in linking order.
    pub child_ids: Seq<usize>,
}

/// A tree of height 1: one vertex and its direct children, captured as a
/// snapshot for edge emission.
///
/// In DOT language, a tree of height 1 can be declared in one line.
pub struct ShortTree {
    root_id: usize,
    child_ids: Vec<usize>,
}

impl View for ShortTree {
    type V = ShortTreeModel;

    closed spec fn view(&self) -> ShortTreeModel {
        ShortTreeModel { root_id: self.root_id, child_ids: self.child_ids@ }
    }
}

/// The identifiers of `v`, copied into a fresh vector.
fn copy_ids(v: &Vec<usize>) -> (r: Vec<usize>)
    ensures
        r@ == v@,
{
    let mut r: Vec<usize> = Vec::new();
    let mut i: usize = 0;
    while i < v.len()
        invariant
            0 <= i <= v@.len(),
            r@ =~= v@.take(i as int),
        decreases v@.len() - i,
    {
        r.push(v[i]);
        i = i + 1;
        proof {
            assert(r@ =~= v@.take(i as int));
        }
    }
    proof {
        assert(v@.take(v@.len() as int) =~= v@);
    }
    r
}

impl ShortTree {
    /// The identifier of the root vertex.
    pub fn get_root_id(&self) -> (r: usize)
        ensures
            r == self@.root_id,
    {
        self.root_id
    }

    /// The identifiers of the root's children.
    pub fn get_child_ids(&self) -> (r: &Vec<usize>)
        ensures
            r@ == self@.child_ids,
    {
        &self.child_ids
    }

    /// Project a vertex to a short tree: a verbatim, order-preserving
    /// snapshot of the vertex's identifier and current child list.
    pub fn from(vertex: &Vertex) -> (r: ShortTree)
        ensures
            r@.root_id == vertex@.data.id,
            r@.child_ids == vertex@.children,
    {
        ShortTree { root_id: vertex.get_id(), child_ids: copy_ids(vertex.get_child_ids()) }
    }
}

/// Iterator over the short-tree projections of a graph's vertices, in
/// ascending identifier order.
pub struct ShortTreeIter {
    pub trees: Vec<ShortTree>,
    pub ptr: usize,
}

impl ShortTreeIter {
    /// Wrap a sequence of short trees for iteration.
    pub fn new(trees: Vec<ShortTree>) -> (r: ShortTreeIter)
        ensures
            r.trees == trees,
            r.ptr == 0,
    {
        ShortTreeIter { trees, ptr: 0 }
    }

    /// Get the next short tree, or `None` once all have been returned.
    pub fn next(&mut self) -> (r: Option<ShortTree>)
        ensures
            final(self).trees == old(self).trees,
            old(self).ptr < old(self).trees@.len() ==> ({
                &&& r matches Some(t) && t@ == old(self).trees@[old(self).ptr as int]@
                &&& final(self).ptr == old(self).ptr + 1
            }),
            old(self).ptr >= old(self).trees@.len() ==> r is None && final(self).ptr == old(
                self,
            ).ptr,
    {
        if self.ptr < self.trees.len() {
            let tree = ShortTree {
                root_id: self.trees[self.ptr].root_id,
                child_ids: copy_ids(&self.trees[self.ptr].child_ids),
            };
            self.ptr = self.ptr + 1;
            Some(tree)
        } else {
            None
        }
    }
}

impl Graph {
    /// Iterate over the short-tree projections of all vertices, in
    /// ascending identifier order.
    pub fn iter_short_trees(&self) -> (r: ShortTreeIter)
        ensures
            r.ptr == 0,
            r.trees@.len() == self@.len(),
            forall|t: int|
                0 <= t < self@.len() ==> (#[trigger] r.trees@[t]@).root_id == self@[t].data.id
                    && r.trees@[t]@.child_ids == self@[t].children,
    {
        let mut short_trees: Vec<ShortTree> = Vec::new();
        let mut i: usize = 0;
        while i < self.vertices.len()
            invariant
                0 <= i <= self@.len(),
                self@.len() == self.vertices@.len(),
                short_trees@.len() == i,
                forall|t: int|
                    0 <= t < i ==> (#[trigger] short_trees@[t]@).root_id == self@[t].data.id
                        && short_trees@[t]@.child_ids == self@[t].children,
            decreases self@.len() - i,
        {
            proof {
                assert(self@[i as int] == self.vertices@[i as int]@);
            }
            short_trees.push(ShortTree::from(&self.vertices[i]));
            i = i + 1;
        }
        ShortTreeIter::new(short_trees)
    }
}

/// Every listed child identifier comes from a compartment of the store
/// that names `p` as its parent.
pub proof fn lemma_children_of_source(s: Seq<SWCCompartment>, p: usize, a: int)
    requires
        0 <= a < children_of(s, p).len(),
    ensures
        exists|i: int|
            0 <= i < s.len() && (#[trigger] s[i]).parent_id == Some(p) && s[i].id == children_of(
                s,
                p,
            )[a],
    decreases s.len(),
{
    let pre = s.drop_last();
    if s.last().parent_id == Some(p) && a == children_of(s, p).len() - 1 {
        assert(s[s.len() - 1].parent_id == Some(p) && s[s.len() - 1].id == children_of(s, p)[a]);
    } else {
        lemma_children_of_source(pre, p, a);
        let i = choose|i: int|
            0 <= i < pre.len() && (#[trigger] pre[i]).parent_id == Some(p) && pre[i].id
                == children_of(pre, p)[a];
        assert(s[i].parent_id == Some(p) && s[i].id == children_of(s, p)[a]);
    }
}

/// The children of any vertex are linked in strictly ascending
/// identifier order, and every compartment naming `p` as parent is among
/// them: for a store with ascending identifiers, `children_of(s, p)` is
/// the ascending sequence of identifiers of exactly the compartments
/// whose parent is `p` (see also [`lemma_children_of_source`]).
pub proof fn lemma_children_of_ascending(s: Seq<SWCCompartment>, p: usize)
    requires
        ids_ascending(s),
    ensures
        forall|a: int, b: int|
            0 <= a < b < children_of(s, p).len() ==> #[trigger] children_of(s, p)[a]
                < #[trigger] children_of(s, p)[b],
        forall|i: int|
            0 <= i < s.len() && (#[trigger] s[i]).parent_id == Some(p) ==> children_of(
                s,
                p,
            ).contains(s[i].id),
    decreases s.len(),
{
    if s.len() > 0 {
        let pre = s.drop_last();
        assert(ids_ascending(pre)) by {
            assert(forall|i: int, j: int|
                0 <= i < j < pre.len() ==> pre[i] == s[i] && pre[j] == s[j]);
        }
        lemma_children_of_ascending(pre, p);
        assert forall|a: int| 0 <= a < children_of(pre, p).len() implies #[trigger] children_of(
            pre,
            p,
        )[a] < s.last().id by {
            lemma_children_of_source(pre, p, a);
            let i = choose|i: int|
                0 <= i < pre.len() && (#[trigger] pre[i]).parent_id == Some(p) && pre[i].id
                    == children_of(pre, p)[a];
            assert(s[i].id < s.last().id);
        }
        assert forall|a: int, b: int| 0 <= a < b < children_of(s, p).len() implies
            #[trigger] children_of(s, p)[a] < #[trigger] children_of(s, p)[b] by {
            if s.last().parent_id == Some(p) {
                if b < children_of(pre, p).len() {
                    assert(children_of(pre, p)[a] < children_of(pre, p)[b]);
                } else {
                    assert(children_of(s, p)[b] == s.last().id);
                    assert(children_of(s, p)[a] == children_of(pre, p)[a]);
                }
            } else {
                assert(children_of(pre, p)[a] < children_of(pre, p)[b]);
            }
        }
        assert forall|i: int|
            0 <= i < s.len() && (#[trigger] s[i]).parent_id == Some(p) implies children_of(
            s,
            p,
        ).contains(s[i].id) by {
            if i < s.len() - 1 {
                assert(pre[i] == s[i]);
                let a = choose|a: int|
                    0 <= a < children_of(pre, p).len() && children_of(pre, p)[a] == s[i].id;
                assert(children_of(s, p)[a] == s[i].id);
            } else {
                assert(children_of(s, p)[children_of(s, p).len() - 1] == s.last().id);
            }
        }
    }
}

} // verus!
