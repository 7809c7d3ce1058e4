//! The schema graph, kept in a `petgraph::Graph`.
use vstd::prelude::*;
use crate::schema::Field;
use crate::text::string_of;

verus! {

/// Directed graph with `String` node weights, placeholder edge labels and
/// `usize` indices (so that adding nodes or edges never hits an index limit).
pub type SchemaStore = petgraph::Graph<String, &'static str, petgraph::Directed, usize>;

/// `petgraph::Graph`, carried as an opaque value.
#[verifier::external_type_specification]
#[verifier::external_body]
#[verifier::reject_recursive_types(N)]
#[verifier::reject_recursive_types(E)]
#[verifier::reject_recursive_types(Ty)]
#[verifier::reject_recursive_types(Ix)]
pub struct ExGraph<N, E, Ty, Ix>(petgraph::Graph<N, E, Ty, Ix>);

/// `petgraph::Directed`, the marker of directed graphs.
#[verifier::external_type_specification]
#[verifier::external_body]
pub struct ExDirected(petgraph::Directed);

/// The node weights of a graph, by node index.
pub uninterp spec fn store_nodes(g: SchemaStore) -> Seq<Seq<char>>;

/// The edges of a graph as (source, target) pairs, in insertion order.
pub uninterp spec fn store_edges(g: SchemaStore) -> Seq<(nat, nat)>;

/// Relies on `petgraph::Graph::with_capacity`: a graph with no nodes and no edges.
#[verifier::external_body]
fn store_new() -> (g: SchemaStore)
    ensures
        store_nodes(g) == Seq::<Seq<char>>::empty(),
        store_edges(g) == Seq::<(nat, nat)>::empty(),
{
    petgraph::Graph::with_capacity(0, 0)
}

/// Relies on `petgraph::Graph::add_node`: the node is appended and its index
/// is the former node count.
#[verifier::external_body]
fn store_add_node(g: &mut SchemaStore, weight: String) -> (r: usize)
    ensures
        r == store_nodes(*old(g)).len(),
        store_nodes(*final(g)) == store_nodes(*old(g)).push(weight@),
        store_edges(*final(g)) == store_edges(*old(g)),
{
    g.add_node(weight).index()
}

/// Relies on `petgraph::Graph::add_edge`: the edge is appended; it panics
/// unless both endpoints exist.
#[verifier::external_body]
fn store_add_edge(g: &mut SchemaStore, a: usize, b: usize)
    requires
        a < store_nodes(*old(g)).len(),
        b < store_nodes(*old(g)).len(),
    ensures
        store_nodes(*final(g)) == store_nodes(*old(g)),
        store_edges(*final(g)) == store_edges(*old(g)).push((a as nat, b as nat)),
{
    g.add_edge(petgraph::graph::NodeIndex::new(a), petgraph::graph::NodeIndex::new(b), "0");
}

/// A class of the schema: its name and its (name, wire type) fields.
pub type ClassModel = (Seq<char>, Seq<(Seq<char>, Seq<char>)>);

/// The label of the root node.
pub open spec fn entry_label() -> Seq<char> {
    seq!['e', 'n', 't', 'r', 'y']
}

/// The nodes of a class's fields: name, then wire type, field by field.
pub open spec fn field_nodes(fs: Seq<(Seq<char>, Seq<char>)>) -> Seq<Seq<char>>
    decreases fs.len(),
{
    if fs.len() == 0 {
        seq![]
    } else {
        field_nodes(fs.drop_last()).push(fs.last().0).push(fs.last().1)
    }
}

/// The edges from class node `c` to its field nodes, which follow it.
pub open spec fn field_edges(c: nat, fs: Seq<(Seq<char>, Seq<char>)>) -> Seq<(nat, nat)>
    decreases fs.len(),
{
    if fs.len() == 0 {
        seq![]
    } else {
        let k = (fs.len() - 1) as nat;
        field_edges(c, fs.drop_last()).push((c, c + 1 + 2 * k)).push((c, c + 2 + 2 * k))
    }
}

/// The nodes of the graph of a schema: the root, then each class node
/// followed by its field nodes.
pub open spec fn layout_nodes(cls: Seq<ClassModel>) -> Seq<Seq<char>>
    decreases cls.len(),
{
    if cls.len() == 0 {
        seq![entry_label()]
    } else {
        layout_nodes(cls.drop_last()).push(cls.last().0) + field_nodes(cls.last().1)
    }
}

/// The edges of the graph of a schema: for each class, the edge from the
/// root to its node, then those from its node to its field nodes.
pub open spec fn layout_edges(cls: Seq<ClassModel>) -> Seq<(nat, nat)>
    decreases cls.len(),
{
    if cls.len() == 0 {
        seq![]
    } else {
        let c = layout_nodes(cls.drop_last()).len();
        layout_edges(cls.drop_last()).push((0nat, c)) + field_edges(c, cls.last().1)
    }
}

/// Each field contributes two nodes.
pub proof fn lemma_field_nodes_len(fs: Seq<(Seq<char>, Seq<char>)>)
    ensures
        field_nodes(fs).len() == 2 * fs.len(),
    decreases fs.len(),
{
    if fs.len() > 0 {
        lemma_field_nodes_len(fs.drop_last());
    }
}

/// The schema graph: a root node with one child per class, in document
/// order; each class node has two children per field, its name then its
/// wire type, in declaration order.
pub struct SchemaGraph {
    pub graph: SchemaStore,
    pub entry: usize,
}

impl SchemaGraph {
    pub open spec fn nodes(&self) -> Seq<Seq<char>> {
        store_nodes(self.graph)
    }

    pub open spec fn edges(&self) -> Seq<(nat, nat)> {
        store_edges(self.graph)
    }

    /// A graph that holds the root node alone.
    pub fn new() -> (r: SchemaGraph)
        ensures
            r.entry == 0,
            r.nodes() == seq![entry_label()],
            r.edges() == Seq::<(nat, nat)>::empty(),
    {
        let mut graph = store_new();
        let label = vec!['e', 'n', 't', 'r', 'y'];
        let entry = store_add_node(&mut graph, string_of(label.as_slice()));
        assert(store_nodes(graph) =~= seq![entry_label()]);
        SchemaGraph { graph, entry }
    }

    /// Adds a class node and the edge from the root to it; returns the node.
    pub fn class_as_node(&mut self, name: String) -> (r: usize)
        requires
            old(self).entry < old(self).nodes().len(),
        ensures
            r == old(self).nodes().len(),
            final(self).entry == old(self).entry,
            final(self).nodes() == old(self).nodes().push(name@),
            final(self).edges() == old(self).edges().push((old(self).entry as nat, r as nat)),
    {
        let node = store_add_node(&mut self.graph, name);
        store_add_edge(&mut self.graph, self.entry, node);
        node
    }

    /// Adds a field of a class: a node for its name, then one for its wire
    /// type, each with an edge from the class node.
    pub fn add_field(&mut self, class_node: usize, field: &Field)
        requires
            class_node < old(self).nodes().len(),
        ensures
            final(self).entry == old(self).entry,
            final(self).nodes() == old(self).nodes().push(field.name@).push(field.wire_type@),
            final(self).edges() == old(self).edges().push(
                (class_node as nat, old(self).nodes().len()),
            ).push((class_node as nat, old(self).nodes().len() + 1)),
    {
        let name_node = store_add_node(&mut self.graph, field.name.clone());
        store_add_edge(&mut self.graph, class_node, name_node);
        let type_node = store_add_node(&mut self.graph, field.wire_type.clone());
        store_add_edge(&mut self.graph, class_node, type_node);
    }
}

} // verus!
