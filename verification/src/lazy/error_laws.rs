//! Laws of what goes wrong, and of how an error tells it.

use vstd::prelude::*;

use crate::ast::CreateGraphNode;
use crate::ast::Statement;
use crate::error::ErrorModel;
use crate::lazy::evaluation::ElementKeyModel;
use crate::lazy::evaluation::EvaluationState;
use crate::lazy::execution::ExecutionState;
use crate::lazy::execution::Surroundings;
use crate::lazy::statements::AttributeModel;
use crate::lazy::statements::LazyStatementModel;
use crate::lazy::statements::PrintModel;
use crate::lazy::store::ScopedDefinition;
use crate::lazy::store::ScopedModel;
use crate::lazy::values::LazyModel;
use crate::location::Location;
use crate::values::GraphNodeRef;
use crate::values::SyntaxNodeModel;
use crate::values::ValueModel;

verus! {

/// The error if something that must be a graph node comes to `result`, if that is one.
pub open spec fn no_graph_node(result: Result<ValueModel, ErrorModel>) -> Option<ErrorModel> {
    match result {
        Ok(ValueModel::GraphNode(_)) => None,
        Ok(value) => Some(ErrorModel::ExpectedGraphNode("got "@ + value.shown())),
        Err(e) => Some(e),
    }
}

impl EvaluationState {
    /// The places that an error about an element of the graph tells: where it was created before,
    /// if that is known, and where it is created again.
    pub open spec fn both_places(self, key: ElementKeyModel, place: Location) -> Seq<char> {
        if self.prev_element_debug_info.contains_key(key) {
            self.prev_element_debug_info[key].shown() + " and "@ + place.shown()
        } else {
            place.shown()
        }
    }

    /// How an edge statement ends: with an error in its source or its sink, with one that tells
    /// that they are no graph nodes, that the source is not in the graph or that the edge is there
    /// already, and else well.
    pub proof fn lemma_edge_outcome(self, source: LazyModel, sink: LazyModel, place: Location)
        requires
            self.cancellation_flag.next("evaluating statement"@) is None,
        ensures
            ({
                let (result, end) = self.evaluate_statement(
                    (LazyStatementModel::CreateEdge { source, sink, debug_info: place }),
                );
                let (first, middle) = self.check("evaluating statement"@).1.evaluate(source);
                let (second, ready) = middle.evaluate(sink);
                let from = first->Ok_0->GraphNode_0;
                let to = second->Ok_0->GraphNode_0;
                if no_graph_node(first) is Some {
                    result == Err::<(), ErrorModel>(no_graph_node(first)->Some_0) && end == middle
                } else if no_graph_node(second) is Some {
                    result == Err::<(), ErrorModel>(no_graph_node(second)->Some_0) && end == ready
                } else if from.index >= ready.graph.graph_nodes.len() {
                    result == Err::<(), ErrorModel>(ErrorModel::UndefinedGraphNode(from.shown()))
                        && end == ready
                } else if ready.graph.graph_nodes[from.index as int].outgoing_edges.contains_key(
                    to.index,
                ) {
                    result == Err::<(), ErrorModel>(
                        ErrorModel::DuplicateEdge(
                            "("@ + from.shown() + " -> "@ + to.shown() + ")"@ + " at "@
                                + ready.both_places(ElementKeyModel::Edge(from, to), place),
                        ),
                    ) && end.graph == ready.graph && end.prev_element_debug_info
                        == ready.prev_element_debug_info.insert(
                        ElementKeyModel::Edge(from, to),
                        place,
                    )
                } else {
                    result is Ok && end.prev_element_debug_info
                        == ready.prev_element_debug_info.insert(
                        ElementKeyModel::Edge(from, to),
                        place,
                    )
                }
            }),
    {
    }

    /// Setting an attribute of a node that is not in the graph, or one that is set already, is an
    /// error that tells so. Of an attribute that was set before, the new value stays.
    pub proof fn lemma_set_attribute_outcome(
        self,
        node: GraphNodeRef,
        name: Seq<char>,
        value: ValueModel,
        place: Location,
    )
        ensures
            ({
                let (result, end) = self.set_attribute(node, name, value, place);
                let key = ElementKeyModel::NodeAttribute(node, name);
                if node.index >= self.graph.graph_nodes.len() {
                    result == Err::<(), ErrorModel>(ErrorModel::UndefinedGraphNode(node.shown()))
                        && end == self
                } else {
                    &&& self.graph.graph_nodes[node.index as int].attributes.contains_key(name)
                        ==> result == Err::<(), ErrorModel>(
                        ErrorModel::DuplicateAttribute(
                            name + " on "@ + node.shown() + " at "@ + self.both_places(
                                key,
                                place,
                            ),
                        ),
                    )
                    &&& end.prev_element_debug_info == self.prev_element_debug_info.insert(
                        key,
                        place,
                    )
                    &&& end.graph.graph_nodes[node.index as int].attributes.contains_key(name)
                    &&& end.graph.graph_nodes[node.index as int].attributes[name] == value
                }
            }),
    {
    }

    /// Setting an attribute of an edge that is not in the graph, or one that is set already, is an
    /// error that tells so.
    pub proof fn lemma_set_edge_attribute_outcome(
        self,
        source: GraphNodeRef,
        sink: GraphNodeRef,
        name: Seq<char>,
        value: ValueModel,
        place: Location,
    )
        ensures
            ({
                let (result, end) = self.set_edge_attribute(source, sink, name, value, place);
                let key = ElementKeyModel::EdgeAttribute(source, sink, name);
                let edges = self.graph.graph_nodes[source.index as int].outgoing_edges;
                let edge = "("@ + source.shown() + " -> "@ + sink.shown() + ")"@;
                if source.index >= self.graph.graph_nodes.len() {
                    result == Err::<(), ErrorModel>(ErrorModel::UndefinedGraphNode(source.shown()))
                        && end == self
                } else if !edges.contains_key(sink.index) {
                    result == Err::<(), ErrorModel>(
                        ErrorModel::UndefinedEdge(edge + " at "@ + place.shown()),
                    ) && end == self
                } else {
                    &&& edges[sink.index].contains_key(name) ==> result == Err::<(), ErrorModel>(
                        ErrorModel::DuplicateAttribute(
                            name + " on edge "@ + edge + " at "@ + self.both_places(key, place),
                        ),
                    )
                    &&& end.prev_element_debug_info == self.prev_element_debug_info.insert(
                        key,
                        place,
                    )
                }
            }),
    {
    }

    /// What the attribute at position `k` is set with, if those before it have been set.
    pub open spec fn attribute_set(
        self,
        node: GraphNodeRef,
        attributes: Seq<AttributeModel>,
        k: int,
        place: Location,
    ) -> Result<(), ErrorModel> {
        let (value, evaluated) = self.after_attributes(node, attributes, k, place).evaluate(
            attributes[k].value,
        );
        match value {
            Ok(value) => evaluated.set_attribute(node, attributes[k].name, value, place).0,
            Err(e) => Err(e),
        }
    }

    /// What the attribute of an edge at position `k` is set with.
    pub open spec fn edge_attribute_set(
        self,
        source: GraphNodeRef,
        sink: GraphNodeRef,
        attributes: Seq<AttributeModel>,
        k: int,
        place: Location,
    ) -> Result<(), ErrorModel> {
        let (value, evaluated) = self.after_edge_attributes(
            source,
            sink,
            attributes,
            k,
            place,
        ).evaluate(attributes[k].value);
        match value {
            Ok(value) => evaluated.set_edge_attribute(
                source,
                sink,
                attributes[k].name,
                value,
                place,
            ).0,
            Err(e) => Err(e),
        }
    }

    proof fn lemma_attributes_outcome(
        self,
        node: GraphNodeRef,
        attributes: Seq<AttributeModel>,
        n: int,
        place: Location,
    )
        requires
            0 <= n <= attributes.len(),
            forall|k: int|
                0 <= k < n ==> (#[trigger] self.attribute_set(node, attributes, k, place)) is Ok,
        ensures
            match self.after_attributes(node, attributes, n, place).set_attributes(
                node,
                attributes,
                n,
                place,
            ).0 {
                Ok(_) => forall|k: int|
                    0 <= k < attributes.len() ==> (#[trigger] self.attribute_set(
                        node,
                        attributes,
                        k,
                        place,
                    )) is Ok,
                Err(e) => self.attributes_fail_with(
                    node,
                    attributes,
                    place,
                    e,
                    self.after_attributes(node, attributes, n, place).set_attributes(
                        node,
                        attributes,
                        n,
                        place,
                    ).1,
                ),
            },
        decreases attributes.len() - n,
    {
        if n < attributes.len() {
            let before = self.after_attributes(node, attributes, n, place);
            let (value, evaluated) = before.evaluate(attributes[n].value);
            let set = self.attribute_set(node, attributes, n, place);
            assert(self.after_attributes(node, attributes, n + 1, place)
                == evaluated.set_attribute(node, attributes[n].name, value->Ok_0, place).1);
            if set is Ok {
                self.lemma_attributes_outcome(node, attributes, n + 1, place);
            }
        }
    }

    proof fn lemma_edge_attributes_outcome(
        self,
        source: GraphNodeRef,
        sink: GraphNodeRef,
        attributes: Seq<AttributeModel>,
        n: int,
        place: Location,
    )
        requires
            0 <= n <= attributes.len(),
            forall|k: int|
                0 <= k < n ==> (#[trigger] self.edge_attribute_set(
                    source,
                    sink,
                    attributes,
                    k,
                    place,
                )) is Ok,
        ensures
            match self.after_edge_attributes(
                source,
                sink,
                attributes,
                n,
                place,
            ).set_edge_attributes(source, sink, attributes, n, place).0 {
                Ok(_) => forall|k: int|
                    0 <= k < attributes.len() ==> (#[trigger] self.edge_attribute_set(
                        source,
                        sink,
                        attributes,
                        k,
                        place,
                    )) is Ok,
                Err(e) => self.edge_attributes_fail_with(
                    source,
                    sink,
                    attributes,
                    place,
                    e,
                    self.after_edge_attributes(
                        source,
                        sink,
                        attributes,
                        n,
                        place,
                    ).set_edge_attributes(source, sink, attributes, n, place).1,
                ),
            },
        decreases attributes.len() - n,
    {
        if n < attributes.len() {
            let before = self.after_edge_attributes(source, sink, attributes, n, place);
            let (value, evaluated) = before.evaluate(attributes[n].value);
            let set = self.edge_attribute_set(source, sink, attributes, n, place);
            assert(self.after_edge_attributes(source, sink, attributes, n + 1, place)
                == evaluated.set_edge_attribute(
                source,
                sink,
                attributes[n].name,
                value->Ok_0,
                place,
            ).1);
            if set is Ok {
                self.lemma_edge_attributes_outcome(source, sink, attributes, n + 1, place);
            }
        }
    }

    /// Whether `error` is the first with which an attribute of a node cannot be set, and `end` is
    /// the state in which it comes: that after its value has been evaluated, or set.
    pub open spec fn attributes_fail_with(
        self,
        node: GraphNodeRef,
        attributes: Seq<AttributeModel>,
        place: Location,
        error: ErrorModel,
        end: EvaluationState,
    ) -> bool {
        exists|k: int|
            {
                &&& 0 <= k < attributes.len()
                &&& #[trigger] self.attribute_set(node, attributes, k, place) == Err::<
                    (),
                    ErrorModel,
                >(error)
                &&& forall|j: int|
                    0 <= j < k ==> (#[trigger] self.attribute_set(
                        node,
                        attributes,
                        j,
                        place,
                    )) is Ok
                &&& ({
                    let before = self.after_attributes(node, attributes, k, place);
                    let (value, evaluated) = before.evaluate(attributes[k].value);
                    end == if value is Ok {
                        self.after_attributes(node, attributes, k + 1, place)
                    } else {
                        evaluated
                    }
                })
            }
    }

    /// Whether `error` is the first with which an attribute of an edge cannot be set, and `end` is
    /// the state in which it comes.
    pub open spec fn edge_attributes_fail_with(
        self,
        source: GraphNodeRef,
        sink: GraphNodeRef,
        attributes: Seq<AttributeModel>,
        place: Location,
        error: ErrorModel,
        end: EvaluationState,
    ) -> bool {
        exists|k: int|
            {
                &&& 0 <= k < attributes.len()
                &&& #[trigger] self.edge_attribute_set(
                    source,
                    sink,
                    attributes,
                    k,
                    place,
                ) == Err::<(), ErrorModel>(error)
                &&& forall|j: int|
                    0 <= j < k ==> (#[trigger] self.edge_attribute_set(
                        source,
                        sink,
                        attributes,
                        j,
                        place,
                    )) is Ok
                &&& ({
                    let before = self.after_edge_attributes(source, sink, attributes, k, place);
                    let (value, evaluated) = before.evaluate(attributes[k].value);
                    end == if value is Ok {
                        self.after_edge_attributes(source, sink, attributes, k + 1, place)
                    } else {
                        evaluated
                    }
                })
            }
    }

    /// How an attr statement on a node ends: with an error in its node, with one that tells that
    /// this is no graph node, with the first error with which an attribute cannot be set, and else
    /// well.
    pub proof fn lemma_attr_outcome(
        self,
        node: LazyModel,
        attributes: Seq<AttributeModel>,
        place: Location,
    )
        requires
            self.cancellation_flag.next("evaluating statement"@) is None,
        ensures
            ({
                let (result, end) = self.evaluate_statement(
                    (LazyStatementModel::AddGraphNodeAttribute {
                        node,
                        attributes,
                        debug_info: place,
                    }),
                );
                let (first, ready) = self.check("evaluating statement"@).1.evaluate(node);
                let node = first->Ok_0->GraphNode_0;
                match result {
                    Ok(_) => no_graph_node(first) is None && forall|k: int|
                        0 <= k < attributes.len() ==> (#[trigger] ready.attribute_set(
                            node,
                            attributes,
                            k,
                            place,
                        )) is Ok,
                    Err(e) => no_graph_node(first) == Some(e) || no_graph_node(first) is None
                        && ready.attributes_fail_with(node, attributes, place, e, end),
                }
            }),
    {
        let (first, ready) = self.check("evaluating statement"@).1.evaluate(node);
        if no_graph_node(first) is None {
            let node = first->Ok_0->GraphNode_0;
            ready.lemma_attributes_outcome(node, attributes, 0, place);
        }
    }

    /// An attr statement on an edge ends in the same way, with its source and then its sink.
    pub proof fn lemma_edge_attr_outcome(
        self,
        source: LazyModel,
        sink: LazyModel,
        attributes: Seq<AttributeModel>,
        place: Location,
    )
        requires
            self.cancellation_flag.next("evaluating statement"@) is None,
        ensures
            ({
                let (result, end) = self.evaluate_statement(
                    (LazyStatementModel::AddEdgeAttribute {
                        source,
                        sink,
                        attributes,
                        debug_info: place,
                    }),
                );
                let (first, middle) = self.check("evaluating statement"@).1.evaluate(source);
                let (second, ready) = middle.evaluate(sink);
                let from = first->Ok_0->GraphNode_0;
                let to = second->Ok_0->GraphNode_0;
                match result {
                    Ok(_) => no_graph_node(first) is None && no_graph_node(second) is None
                        && forall|k: int|
                        0 <= k < attributes.len() ==> (#[trigger] ready.edge_attribute_set(
                            from,
                            to,
                            attributes,
                            k,
                            place,
                        )) is Ok,
                    Err(e) => {
                        ||| no_graph_node(first) == Some(e)
                        ||| no_graph_node(first) is None && no_graph_node(second) == Some(e)
                        ||| no_graph_node(first) is None && no_graph_node(second) is None
                            && ready.edge_attributes_fail_with(from, to, attributes, place, e, end)
                    },
                }
            }),
    {
        let (first, middle) = self.check("evaluating statement"@).1.evaluate(source);
        let (second, ready) = middle.evaluate(sink);
        if no_graph_node(first) is None && no_graph_node(second) is None {
            let from = first->Ok_0->GraphNode_0;
            let to = second->Ok_0->GraphNode_0;
            ready.lemma_edge_attributes_outcome(from, to, attributes, 0, place);
        }
    }

    /// The error in the argument at position `k` of a print statement, if there is one.
    pub open spec fn print_error(self, arguments: Seq<PrintModel>, k: int) -> Option<ErrorModel> {
        match arguments[k] {
            PrintModel::Text(_) => None,
            PrintModel::Value(value) => match self.after_prints(arguments, k).evaluate(value).0 {
                Ok(_) => None,
                Err(e) => Some(e),
            },
        }
    }

    proof fn lemma_prints_outcome(self, arguments: Seq<PrintModel>, n: int)
        requires
            0 <= n <= arguments.len(),
            forall|k: int| 0 <= k < n ==> (#[trigger] self.print_error(arguments, k)) is None,
        ensures
            match self.after_prints(arguments, n).print_all(arguments, n).0 {
                Ok(_) => self.after_prints(arguments, n).print_all(arguments, n).1
                    == self.after_prints(arguments, arguments.len() as int).print("\n"@)
                    && forall|k: int|
                    0 <= k < arguments.len() ==> (#[trigger] self.print_error(
                        arguments,
                        k,
                    )) is None,
                Err(e) => exists|k: int|
                    {
                        &&& 0 <= k < arguments.len()
                        &&& #[trigger] self.print_error(arguments, k) == Some(e)
                        &&& forall|j: int|
                            0 <= j < k ==> (#[trigger] self.print_error(arguments, j)) is None
                        &&& self.after_prints(arguments, n).print_all(arguments, n).1
                            == self.after_prints(arguments, k).evaluate(arguments[k]->Value_0).1
                    },
            },
        decreases arguments.len() - n,
    {
        if n < arguments.len() {
            let before = self.after_prints(arguments, n);
            let error = self.print_error(arguments, n);
            if error is None {
                let after = self.after_prints(arguments, n + 1);
                match arguments[n] {
                    PrintModel::Text(text) => {
                        assert(after == before.print(text));
                    },
                    PrintModel::Value(value) => {
                        let (result, evaluated) = before.evaluate(value);
                        assert(after == evaluated.print(result->Ok_0.shown()));
                    },
                }
                self.lemma_prints_outcome(arguments, n + 1);
            }
        }
    }

    /// A print statement ends with the first error in its arguments, and else well. What comes
    /// before the error has been printed then.
    pub proof fn lemma_print_outcome(self, arguments: Seq<PrintModel>, place: Location)
        requires
            self.cancellation_flag.next("evaluating statement"@) is None,
        ensures
            ({
                let (result, end) = self.evaluate_statement(
                    (LazyStatementModel::Print { arguments, debug_info: place }),
                );
                let start = self.check("evaluating statement"@).1;
                match result {
                    Ok(_) => forall|k: int|
                        0 <= k < arguments.len() ==> (#[trigger] start.print_error(
                            arguments,
                            k,
                        )) is None,
                    Err(e) => exists|k: int|
                        {
                            &&& 0 <= k < arguments.len()
                            &&& #[trigger] start.print_error(arguments, k) == Some(e)
                            &&& forall|j: int|
                                0 <= j < k ==> (#[trigger] start.print_error(
                                    arguments,
                                    j,
                                )) is None
                            &&& end == start.after_prints(arguments, k).evaluate(
                                arguments[k]->Value_0,
                            ).1
                        },
                }
            }),
    {
        let start = self.check("evaluating statement"@).1;
        start.lemma_prints_outcome(arguments, 0);
    }

    /// A variable of a syntax node of which none is defined, or whose definitions are just being
    /// looked at, is an error that tells the variable and the node.
    pub proof fn lemma_scoped_error(self, scope: SyntaxNodeModel, name: Seq<char>)
        ensures
            !self.scoped_store.contains_key(name) ==> self.evaluate_scoped(scope, name) == (
                Err::<LazyModel, ErrorModel>(
                    ErrorModel::UndefinedScopedVariable(scope.shown() + "."@ + name),
                ),
                self,
            ),
            self.scoped_store.contains_key(name) && self.scoped_store[name] is Forcing
                ==> self.evaluate_scoped(scope, name) == (
                Err::<LazyModel, ErrorModel>(
                    ErrorModel::RecursivelyDefinedScopedVariable(
                        "_."@ + name + " requested on "@ + scope.shown(),
                    ),
                ),
                self,
            ),
    {
    }

    /// If a variable of some name cannot be found for a syntax node, no variable of this name can
    /// be found any more, for any syntax node.
    pub proof fn lemma_scoped_lost(
        self,
        scope: SyntaxNodeModel,
        name: Seq<char>,
        other: SyntaxNodeModel,
    )
        requires
            self.valid(),
            self.scoped_store.contains_key(name),
            self.evaluate_scoped(scope, name).0 is Err,
        ensures
            self.evaluate_scoped(scope, name).1.evaluate_scoped(other, name).0 == Err::<
                LazyModel,
                ErrorModel,
            >(
                ErrorModel::RecursivelyDefinedScopedVariable(
                    "_."@ + name + " requested on "@ + other.shown(),
                ),
            ),
    {
        self.lemma_pending_scoped(name, ScopedModel::Forcing);
        let forcing = self.with_scoped(name, ScopedModel::Forcing);
        if let ScopedModel::Unforced(definitions) = self.scoped_store[name] {
            assert(self.scoped_store[name].valid(self.store.len()));
            forcing.lemma_force_scopes_progress(
                name,
                definitions,
                0,
                Map::empty(),
                Map::empty(),
            );
        }
        let after = self.evaluate_scoped(scope, name).1;
        assert(after.scoped_store.contains_key(name));
        assert(after.scoped_store[name] is Forcing);
    }
}

/// A variable of a syntax node cannot be defined once the variables of the name have been asked
/// for, and the error tells whether this is over.
pub proof fn lemma_closed_definitions(
    variables: Map<Seq<char>, ScopedModel>,
    name: Seq<char>,
    definition: ScopedDefinition,
)
    requires
        variables.contains_key(name),
        !(variables[name] is Unforced),
    ensures
        crate::lazy::store::with_definition(variables, name, definition) == (
            Err::<(), ErrorModel>(
                if variables[name] is Forced {
                    ErrorModel::VariableScopesAlreadyForced(name)
                } else {
                    ErrorModel::RecursivelyDefinedScopedVariable(name)
                },
            ),
            variables,
        ),
{
}

impl ExecutionState {
    /// If the attributes for the variable and for the place of a node have the same name, a node
    /// statement fails, and the error tells the name.
    pub proof fn lemma_node_attributes_clash(
        self,
        cx: Surroundings,
        s: CreateGraphNode,
        name: Seq<char>,
    )
        requires
            cx.variable_name_attr == Some(name),
            cx.location_attr == Some(name),
        ensures
            self.perform(cx, Statement::CreateGraphNode(s)).0 == Err::<(), ErrorModel>(
                ErrorModel::DuplicateAttribute(name),
            ),
            self.perform(cx, Statement::CreateGraphNode(s)).1.eval.graph.graph_nodes.len()
                == self.eval.graph.graph_nodes.len() + 1,
    {
    }
}

} // verus!
