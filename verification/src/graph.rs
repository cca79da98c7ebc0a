//! The graph that a program builds.

use vstd::prelude::*;

use crate::identifier::Identifier;
use crate::table::Table;
use crate::values::GraphNodeRef;
use crate::values::SyntaxNodeModel;
use crate::values::SyntaxNodeRef;
use crate::values::Value;
use crate::values::ValueModel;

verus! {

/// The attributes of a graph node or an edge.
pub struct Attributes {
    pub values: Table<Identifier, Value>,
}

impl View for Attributes {
    type V = Map<Seq<char>, ValueModel>;

    open spec fn view(&self) -> Map<Seq<char>, ValueModel> {
        self.values@
    }
}

impl Attributes {
    pub fn new() -> (r: Attributes)
        ensures
            r@ == Map::<Seq<char>, ValueModel>::empty(),
    {
        Attributes { values: Table::new() }
    }

    /// The value of an attribute, if it is set.
    pub fn get(&self, name: &Identifier) -> (r: Option<&Value>)
        ensures
            r is Some <==> self@.contains_key(name@),
            r matches Some(value) ==> value@ == self@[name@],
    {
        self.values.get(name)
    }

    /// Sets an attribute. Tells by an error that it was set before, with its value then.
    pub fn add(&mut self, name: Identifier, value: Value) -> (r: Result<(), Value>)
        ensures
            final(self)@ == old(self)@.insert(name@, value@),
            r is Err <==> old(self)@.contains_key(name@),
            r matches Err(previous) ==> previous@ == old(self)@[name@],
    {
        match self.values.insert(name, value) {
            Some(previous) => Err(previous),
            None => Ok(()),
        }
    }
}

/// A node of the graph, with the edges that leave it.
pub struct GraphNode {
    pub outgoing_edges: Table<usize, Attributes>,
    pub attributes: Attributes,
}

/// The model of a `GraphNode`: the attributes of the edge to each sink, and of the node.
#[verifier::ext_equal]
pub struct GraphNodeModel {
    pub outgoing_edges: Map<usize, Map<Seq<char>, ValueModel>>,
    pub attributes: Map<Seq<char>, ValueModel>,
}

impl View for GraphNode {
    type V = GraphNodeModel;

    open spec fn view(&self) -> GraphNodeModel {
        GraphNodeModel { outgoing_edges: self.outgoing_edges@, attributes: self.attributes@ }
    }
}

impl GraphNodeModel {
    /// A node without edges and attributes.
    pub open spec fn blank() -> GraphNodeModel {
        GraphNodeModel { outgoing_edges: Map::empty(), attributes: Map::empty() }
    }
}

impl GraphNode {
    pub fn new() -> (r: GraphNode)
        ensures
            r@ == GraphNodeModel::blank(),
    {
        GraphNode { outgoing_edges: Table::new(), attributes: Attributes::new() }
    }

    /// The attributes of the edge to `sink`, if there is one.
    pub fn get_edge(&self, sink: GraphNodeRef) -> (r: Option<&Attributes>)
        ensures
            r is Some <==> self@.outgoing_edges.contains_key(sink.index),
            r matches Some(edge) ==> edge@ == self@.outgoing_edges[sink.index],
    {
        self.outgoing_edges.get(&sink.index)
    }

    /// Adds an edge to `sink`. Tells whether the edge is new; an edge that was there is kept.
    pub fn add_edge(&mut self, sink: GraphNodeRef) -> (r: bool)
        ensures
            r == !old(self)@.outgoing_edges.contains_key(sink.index),
            r ==> final(self)@ == (GraphNodeModel {
                outgoing_edges: old(self)@.outgoing_edges.insert(sink.index, Map::empty()),
                ..old(self)@
            }),
            !r ==> final(self)@ == old(self)@,
    {
        if self.outgoing_edges.get(&sink.index).is_some() {
            false
        } else {
            self.outgoing_edges.insert(sink.index, Attributes::new());
            true
        }
    }

    /// Sets an attribute of the edge to `sink`. Tells whether it was not set before.
    pub fn add_edge_attribute(&mut self, sink: GraphNodeRef, name: Identifier, value: Value) -> (r:
        bool)
        requires
            old(self)@.outgoing_edges.contains_key(sink.index),
        ensures
            r == !old(self)@.outgoing_edges[sink.index].contains_key(name@),
            final(self)@ == (GraphNodeModel {
                outgoing_edges: old(self)@.outgoing_edges.insert(
                    sink.index,
                    old(self)@.outgoing_edges[sink.index].insert(name@, value@),
                ),
                ..old(self)@
            }),
    {
        let taken = self.outgoing_edges.insert(sink.index, Attributes::new());
        let mut edge = taken.unwrap();
        let is_new = edge.add(name, value).is_ok();
        self.outgoing_edges.insert(sink.index, edge);
        assert(self@.outgoing_edges =~= old(self)@.outgoing_edges.insert(
            sink.index,
            old(self)@.outgoing_edges[sink.index].insert(name@, value@),
        ));
        is_new
    }
}

/// A graph, and the syntax nodes that its values mention.
pub struct Graph {
    pub syntax_nodes: Table<usize, SyntaxNodeRef>,
    pub graph_nodes: Vec<GraphNode>,
}

/// The model of a `Graph`.
#[verifier::ext_equal]
pub struct GraphModel {
    pub syntax_nodes: Map<usize, SyntaxNodeModel>,
    pub graph_nodes: Seq<GraphNodeModel>,
}

impl View for Graph {
    type V = GraphModel;

    open spec fn view(&self) -> GraphModel {
        GraphModel {
            syntax_nodes: self.syntax_nodes@,
            graph_nodes: Seq::new(self.graph_nodes@.len(), |i: int| self.graph_nodes@[i]@),
        }
    }
}

impl GraphModel {
    /// The graph without nodes.
    pub open spec fn blank() -> GraphModel {
        GraphModel { syntax_nodes: Map::empty(), graph_nodes: Seq::empty() }
    }

    /// The graph in which `node` is known: the first node with a number stays known under it.
    pub open spec fn with_syntax_node(self, node: SyntaxNodeModel) -> GraphModel {
        if self.syntax_nodes.contains_key(node.index) {
            self
        } else {
            GraphModel { syntax_nodes: self.syntax_nodes.insert(node.index, node), ..self }
        }
    }

    /// The graph with one more node, which is blank.
    pub open spec fn with_graph_node(self) -> GraphModel {
        GraphModel { graph_nodes: self.graph_nodes.push(GraphNodeModel::blank()), ..self }
    }

    /// Whether `node` is a node of this graph.
    pub open spec fn has(self, node: GraphNodeRef) -> bool {
        node.index < self.graph_nodes.len()
    }

    /// The node that `node` refers to.
    pub open spec fn at(self, node: GraphNodeRef) -> GraphNodeModel {
        self.graph_nodes[node.index as int]
    }

    /// The graph in which `node` has become `changed`.
    pub open spec fn with(self, node: GraphNodeRef, changed: GraphNodeModel) -> GraphModel {
        GraphModel { graph_nodes: self.graph_nodes.update(node.index as int, changed), ..self }
    }
}

impl Graph {
    pub fn new() -> (r: Graph)
        ensures
            r@ == GraphModel::blank(),
    {
        let r = Graph { syntax_nodes: Table::new(), graph_nodes: Vec::new() };
        assert(r@.graph_nodes =~= Seq::<GraphNodeModel>::empty());
        r
    }

    /// Makes a syntax node known to the graph.
    pub fn add_syntax_node(&mut self, node: &SyntaxNodeRef)
        ensures
            final(self)@ == old(self)@.with_syntax_node(node@),
    {
        if self.syntax_nodes.get(&node.index).is_none() {
            self.syntax_nodes.insert(node.index, node.clone());
        }
    }

    /// Adds a blank node.
    pub fn add_graph_node(&mut self) -> (r: GraphNodeRef)
        ensures
            r.index == old(self)@.graph_nodes.len(),
            final(self)@ == old(self)@.with_graph_node(),
    {
        let r = GraphNodeRef { index: self.graph_nodes.len() };
        self.graph_nodes.push(GraphNode::new());
        assert(self@.graph_nodes =~= old(self)@.with_graph_node().graph_nodes);
        r
    }

    pub fn has(&self, node: GraphNodeRef) -> (r: bool)
        ensures
            r == self@.has(node),
    {
        node.index < self.graph_nodes.len()
    }

    /// The attribute `name` of `node`, if it is set.
    pub fn attribute(&self, node: GraphNodeRef, name: &Identifier) -> (r: Option<&Value>)
        requires
            self@.has(node),
        ensures
            r is Some <==> self@.at(node).attributes.contains_key(name@),
            r matches Some(value) ==> value@ == self@.at(node).attributes[name@],
    {
        self.graph_nodes[node.index].attributes.get(name)
    }

    /// Sets an attribute of `node`. Tells whether it was not set before.
    pub fn add_attribute(&mut self, node: GraphNodeRef, name: Identifier, value: Value) -> (r: bool)
        requires
            old(self)@.has(node),
        ensures
            r == !old(self)@.at(node).attributes.contains_key(name@),
            final(self)@ == old(self)@.with(
                node,
                GraphNodeModel {
                    attributes: old(self)@.at(node).attributes.insert(name@, value@),
                    ..old(self)@.at(node)
                },
            ),
    {
        let ghost before = self@;
        let is_new = self.graph_nodes[node.index].attributes.add(name, value).is_ok();
        assert(self@ =~= before.with(
            node,
            GraphNodeModel {
                attributes: before.at(node).attributes.insert(name@, value@),
                ..before.at(node)
            },
        ));
        is_new
    }

    /// Whether there is an edge from `source` to `sink`.
    pub fn has_edge(&self, source: GraphNodeRef, sink: GraphNodeRef) -> (r: bool)
        requires
            self@.has(source),
        ensures
            r == self@.at(source).outgoing_edges.contains_key(sink.index),
    {
        self.graph_nodes[source.index].get_edge(sink).is_some()
    }

    /// Adds an edge from `source` to `sink`. Tells whether the edge is new; an edge that was there
    /// is kept.
    pub fn add_edge(&mut self, source: GraphNodeRef, sink: GraphNodeRef) -> (r: bool)
        requires
            old(self)@.has(source),
        ensures
            r == !old(self)@.at(source).outgoing_edges.contains_key(sink.index),
            r ==> final(self)@ == old(self)@.with(
                source,
                GraphNodeModel {
                    outgoing_edges: old(self)@.at(source).outgoing_edges.insert(
                        sink.index,
                        Map::empty(),
                    ),
                    ..old(self)@.at(source)
                },
            ),
            !r ==> final(self)@ == old(self)@,
    {
        let ghost before = self@;
        let is_new = self.graph_nodes[source.index].add_edge(sink);
        proof {
            if is_new {
                assert(self@ =~= before.with(
                    source,
                    GraphNodeModel {
                        outgoing_edges: before.at(source).outgoing_edges.insert(
                            sink.index,
                            Map::empty(),
                        ),
                        ..before.at(source)
                    },
                ));
            } else {
                assert(self@ =~= before);
            }
        }
        is_new
    }

    /// Sets an attribute of the edge from `source` to `sink`. Tells whether it was not set before.
    pub fn add_edge_attribute(
        &mut self,
        source: GraphNodeRef,
        sink: GraphNodeRef,
        name: Identifier,
        value: Value,
    ) -> (r: bool)
        requires
            old(self)@.has(source),
            old(self)@.at(source).outgoing_edges.contains_key(sink.index),
        ensures
            r == !old(self)@.at(source).outgoing_edges[sink.index].contains_key(name@),
            final(self)@ == old(self)@.with(
                source,
                GraphNodeModel {
                    outgoing_edges: old(self)@.at(source).outgoing_edges.insert(
                        sink.index,
                        old(self)@.at(source).outgoing_edges[sink.index].insert(name@, value@),
                    ),
                    ..old(self)@.at(source)
                },
            ),
    {
        let ghost before = self@;
        let is_new = self.graph_nodes[source.index].add_edge_attribute(sink, name, value);
        assert(self@ =~= before.with(
            source,
            GraphNodeModel {
                outgoing_edges: before.at(source).outgoing_edges.insert(
                    sink.index,
                    before.at(source).outgoing_edges[sink.index].insert(name@, value@),
                ),
                ..before.at(source)
            },
        ));
        is_new
    }
}

} // verus!
