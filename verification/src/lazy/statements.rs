//! Lazy statements: what is left to be done to the graph.

use vstd::prelude::*;
use vstd::string::*;

use crate::cancellation::CancellationFlag;
use crate::error::ErrorModel;
use crate::error::ExecutionError;
use crate::functions::Functions;
use crate::graph::GraphModel;
use crate::graph::GraphNodeModel;
use crate::identifier::Identifier;
use crate::lazy::evaluation::ElementKeyModel;
use crate::lazy::evaluation::EvaluationState;
use crate::lazy::store::DebugInfo;
use crate::lazy::values::LazyModel;
use crate::lazy::values::LazyValue;
use crate::lazy::EvaluationContext;
use crate::lazy::GraphElementKey;
use crate::location::Location;
use crate::values::GraphNodeRef;
use crate::values::ValueModel;

verus! {

/// An attribute with a lazy value.
pub struct LazyAttribute {
    pub name: Identifier,
    pub value: LazyValue,
}

/// The model of a `LazyAttribute`.
#[verifier::ext_equal]
pub struct AttributeModel {
    pub name: Seq<char>,
    pub value: LazyModel,
}

impl View for LazyAttribute {
    type V = AttributeModel;

    open spec fn view(&self) -> AttributeModel {
        AttributeModel { name: self.name@, value: self.value@ }
    }
}

/// Something to print.
pub enum LazyPrintArgument {
    Text(String),
    Value(LazyValue),
}

/// The model of a `LazyPrintArgument`.
#[verifier::ext_equal]
pub enum PrintModel {
    Text(Seq<char>),
    Value(LazyModel),
}

impl View for LazyPrintArgument {
    type V = PrintModel;

    open spec fn view(&self) -> PrintModel {
        match self {
            LazyPrintArgument::Text(text) => PrintModel::Text(text@),
            LazyPrintArgument::Value(value) => PrintModel::Value(value@),
        }
    }
}

/// Sets attributes of a graph node.
pub struct LazyAddGraphNodeAttribute {
    pub node: LazyValue,
    pub attributes: Vec<LazyAttribute>,
    pub debug_info: DebugInfo,
}

/// Adds an edge.
pub struct LazyCreateEdge {
    pub source: LazyValue,
    pub sink: LazyValue,
    pub debug_info: DebugInfo,
}

/// Sets attributes of an edge.
pub struct LazyAddEdgeAttribute {
    pub source: LazyValue,
    pub sink: LazyValue,
    pub attributes: Vec<LazyAttribute>,
    pub debug_info: DebugInfo,
}

/// Prints a line.
pub struct LazyPrint {
    pub arguments: Vec<LazyPrintArgument>,
    pub debug_info: DebugInfo,
}

/// A statement of the lazy graph.
pub enum LazyStatement {
    AddGraphNodeAttribute(LazyAddGraphNodeAttribute),
    CreateEdge(LazyCreateEdge),
    AddEdgeAttribute(LazyAddEdgeAttribute),
    Print(LazyPrint),
}

/// The model of a `LazyStatement`.
#[verifier::ext_equal]
pub enum LazyStatementModel {
    AddGraphNodeAttribute {
        node: LazyModel,
        attributes: Seq<AttributeModel>,
        debug_info: Location,
    },
    CreateEdge { source: LazyModel, sink: LazyModel, debug_info: Location },
    AddEdgeAttribute {
        source: LazyModel,
        sink: LazyModel,
        attributes: Seq<AttributeModel>,
        debug_info: Location,
    },
    Print { arguments: Seq<PrintModel>, debug_info: Location },
}

/// The models of a sequence of attributes.
pub open spec fn attributes_model(attributes: Seq<LazyAttribute>) -> Seq<AttributeModel> {
    Seq::new(attributes.len(), |i: int| attributes[i]@)
}

/// The models of a sequence of things to print.
pub open spec fn prints_model(arguments: Seq<LazyPrintArgument>) -> Seq<PrintModel> {
    Seq::new(arguments.len(), |i: int| arguments[i]@)
}

impl View for LazyStatement {
    type V = LazyStatementModel;

    open spec fn view(&self) -> LazyStatementModel {
        match self {
            LazyStatement::AddGraphNodeAttribute(s) => LazyStatementModel::AddGraphNodeAttribute {
                node: s.node@,
                attributes: attributes_model(s.attributes@),
                debug_info: s.debug_info@,
            },
            LazyStatement::CreateEdge(s) => LazyStatementModel::CreateEdge {
                source: s.source@,
                sink: s.sink@,
                debug_info: s.debug_info@,
            },
            LazyStatement::AddEdgeAttribute(s) => LazyStatementModel::AddEdgeAttribute {
                source: s.source@,
                sink: s.sink@,
                attributes: attributes_model(s.attributes@),
                debug_info: s.debug_info@,
            },
            LazyStatement::Print(s) => LazyStatementModel::Print {
                arguments: prints_model(s.arguments@),
                debug_info: s.debug_info@,
            },
        }
    }
}

/// Whether the values of the attributes stay below location `n` of the store.
pub open spec fn attributes_below(attributes: Seq<AttributeModel>, n: nat) -> bool {
    forall|i: int| 0 <= i < attributes.len() ==> (#[trigger] attributes[i]).value.below(n)
}

/// Whether the values to print stay below location `n` of the store.
pub open spec fn prints_below(arguments: Seq<PrintModel>, n: nat) -> bool {
    forall|i: int|
        0 <= i < arguments.len() ==> (#[trigger] arguments[i] matches PrintModel::Value(value)
            ==> value.below(n))
}

impl LazyStatementModel {
    /// Whether every variable in this statement lies below location `n` of the store.
    pub open spec fn below(self, n: nat) -> bool {
        match self {
            LazyStatementModel::AddGraphNodeAttribute { node, attributes, .. } => {
                node.below(n) && attributes_below(attributes, n)
            },
            LazyStatementModel::CreateEdge { source, sink, .. } => {
                source.below(n) && sink.below(n)
            },
            LazyStatementModel::AddEdgeAttribute { source, sink, attributes, .. } => {
                source.below(n) && sink.below(n) && attributes_below(attributes, n)
            },
            LazyStatementModel::Print { arguments, .. } => prints_below(arguments, n),
        }
    }

    /// What lies below a location lies below every later one.
    pub broadcast proof fn lemma_below_monotone(self, n: nat, m: nat)
        requires
            #[trigger] self.below(n),
            n <= m,
        ensures
            #[trigger] self.below(m),
    {
        broadcast use LazyModel::lemma_below_monotone;

    }
}

/// The two places at which an element was created, if the first is known, else the second.
pub open spec fn places_shown(previous: Option<Location>, place: Location) -> Seq<char> {
    match previous {
        Some(previous) => previous.shown() + " and "@ + place.shown(),
        None => place.shown(),
    }
}

/// How an edge is shown.
pub open spec fn edge_shown(source: GraphNodeRef, sink: GraphNodeRef) -> Seq<char> {
    "("@ + source.shown() + " -> "@ + sink.shown() + ")"@
}

impl EvaluationState {
    /// Notes where an element of the graph is created. The result tells where it was before.
    pub open spec fn note(self, key: ElementKeyModel, place: Location) -> (
        Option<Location>,
        EvaluationState,
    ) {
        (
            if self.prev_element_debug_info.contains_key(key) {
                Some(self.prev_element_debug_info[key])
            } else {
                None
            },
            EvaluationState {
                prev_element_debug_info: self.prev_element_debug_info.insert(key, place),
                ..self
            },
        )
    }

    /// The state with another graph.
    pub open spec fn with_graph(self, graph: GraphModel) -> EvaluationState {
        EvaluationState { graph, ..self }
    }

    /// Sets an attribute of a graph node, which may not be set already.
    pub open spec fn set_attribute(
        self,
        node: GraphNodeRef,
        name: Seq<char>,
        value: ValueModel,
        place: Location,
    ) -> (Result<(), ErrorModel>, EvaluationState) {
        if !self.graph.has(node) {
            (Err(ErrorModel::UndefinedGraphNode(node.shown())), self)
        } else {
            let attributes = self.graph.at(node).attributes;
            let (previous, noted) = self.note(ElementKeyModel::NodeAttribute(node, name), place);
            (
                if attributes.contains_key(name) {
                    Err(
                        ErrorModel::DuplicateAttribute(
                            name + " on "@ + node.shown() + " at "@ + places_shown(previous, place),
                        ),
                    )
                } else {
                    Ok(())
                },
                noted.with_graph(
                    self.graph.with(
                        node,
                        GraphNodeModel {
                            attributes: attributes.insert(name, value),
                            ..self.graph.at(node)
                        },
                    ),
                ),
            )
        }
    }

    /// Adds an edge, which may not be there already.
    pub open spec fn add_edge(self, source: GraphNodeRef, sink: GraphNodeRef, place: Location) -> (
        Result<(), ErrorModel>,
        EvaluationState,
    ) {
        if !self.graph.has(source) {
            (Err(ErrorModel::UndefinedGraphNode(source.shown())), self)
        } else {
            let edges = self.graph.at(source).outgoing_edges;
            let (previous, noted) = self.note(ElementKeyModel::Edge(source, sink), place);
            if edges.contains_key(sink.index) {
                (
                    Err(
                        ErrorModel::DuplicateEdge(
                            edge_shown(source, sink) + " at "@ + places_shown(previous, place),
                        ),
                    ),
                    noted,
                )
            } else {
                (
                    Ok(()),
                    noted.with_graph(
                        self.graph.with(
                            source,
                            GraphNodeModel {
                                outgoing_edges: edges.insert(sink.index, Map::empty()),
                                ..self.graph.at(source)
                            },
                        ),
                    ),
                )
            }
        }
    }

    /// Sets an attribute of an edge, which must be there. The attribute may not be set already.
    pub open spec fn set_edge_attribute(
        self,
        source: GraphNodeRef,
        sink: GraphNodeRef,
        name: Seq<char>,
        value: ValueModel,
        place: Location,
    ) -> (Result<(), ErrorModel>, EvaluationState) {
        if !self.graph.has(source) {
            (Err(ErrorModel::UndefinedGraphNode(source.shown())), self)
        } else if !self.graph.at(source).outgoing_edges.contains_key(sink.index) {
            (
                Err(ErrorModel::UndefinedEdge(edge_shown(source, sink) + " at "@ + place.shown())),
                self,
            )
        } else {
            let edges = self.graph.at(source).outgoing_edges;
            let (previous, noted) = self.note(
                ElementKeyModel::EdgeAttribute(source, sink, name),
                place,
            );
            (
                if edges[sink.index].contains_key(name) {
                    Err(
                        ErrorModel::DuplicateAttribute(
                            name + " on edge "@ + edge_shown(source, sink) + " at "@ + places_shown(
                                previous,
                                place,
                            ),
                        ),
                    )
                } else {
                    Ok(())
                },
                noted.with_graph(
                    self.graph.with(
                        source,
                        GraphNodeModel {
                            outgoing_edges: edges.insert(
                                sink.index,
                                edges[sink.index].insert(name, value),
                            ),
                            ..self.graph.at(source)
                        },
                    ),
                ),
            )
        }
    }

    /// Evaluates the `attributes` from position `i` on and sets them for `node`, one after the
    /// other, up to the first error.
    pub open spec fn set_attributes(
        self,
        node: GraphNodeRef,
        attributes: Seq<AttributeModel>,
        i: int,
        place: Location,
    ) -> (Result<(), ErrorModel>, EvaluationState)
        decreases attributes.len() - i,
    {
        if i < 0 || i >= attributes.len() {
            (Ok(()), self)
        } else {
            let (value, evaluated) = self.evaluate(attributes[i].value);
            match value {
                Err(e) => (Err(e), evaluated),
                Ok(value) => {
                    let (done, after) = evaluated.set_attribute(
                        node,
                        attributes[i].name,
                        value,
                        place,
                    );
                    match done {
                        Err(e) => (Err(e), after),
                        Ok(_) => after.set_attributes(node, attributes, i + 1, place),
                    }
                },
            }
        }
    }

    /// Evaluates the `attributes` from position `i` on and sets them for the edge from `source` to
    /// `sink`, one after the other, up to the first error.
    pub open spec fn set_edge_attributes(
        self,
        source: GraphNodeRef,
        sink: GraphNodeRef,
        attributes: Seq<AttributeModel>,
        i: int,
        place: Location,
    ) -> (Result<(), ErrorModel>, EvaluationState)
        decreases attributes.len() - i,
    {
        if i < 0 || i >= attributes.len() {
            (Ok(()), self)
        } else {
            let (value, evaluated) = self.evaluate(attributes[i].value);
            match value {
                Err(e) => (Err(e), evaluated),
                Ok(value) => {
                    let (done, after) = evaluated.set_edge_attribute(
                        source,
                        sink,
                        attributes[i].name,
                        value,
                        place,
                    );
                    match done {
                        Err(e) => (Err(e), after),
                        Ok(_) => after.set_edge_attributes(source, sink, attributes, i + 1, place),
                    }
                },
            }
        }
    }

    /// The state after `text` has been printed.
    pub open spec fn print(self, text: Seq<char>) -> EvaluationState {
        EvaluationState { printed: self.printed + text, ..self }
    }

    /// Prints the `arguments` from position `i` on, up to the first error, and ends the line.
    pub open spec fn print_all(self, arguments: Seq<PrintModel>, i: int) -> (
        Result<(), ErrorModel>,
        EvaluationState,
    )
        decreases arguments.len() - i,
    {
        if i < 0 || i >= arguments.len() {
            (Ok(()), self.print("\n"@))
        } else {
            match arguments[i] {
                PrintModel::Text(text) => self.print(text).print_all(arguments, i + 1),
                PrintModel::Value(value) => {
                    let (result, after) = self.evaluate(value);
                    match result {
                        Err(e) => (Err(e), after),
                        Ok(value) => after.print(value.shown()).print_all(arguments, i + 1),
                    }
                },
            }
        }
    }

    /// Evaluates the two ends of an edge.
    pub open spec fn evaluate_ends(self, source: LazyModel, sink: LazyModel) -> (
        Result<(GraphNodeRef, GraphNodeRef), ErrorModel>,
        EvaluationState,
    ) {
        let (first, after_first) = self.evaluate(source);
        match crate::lazy::evaluation::as_graph_node(first) {
            Err(e) => (Err(e), after_first),
            Ok(source) => {
                let (second, after_second) = after_first.evaluate(sink);
                match crate::lazy::evaluation::as_graph_node(second) {
                    Err(e) => (Err(e), after_second),
                    Ok(sink) => (Ok((source, sink)), after_second),
                }
            },
        }
    }

    /// Evaluates a statement of the lazy graph.
    pub open spec fn evaluate_statement(self, statement: LazyStatementModel) -> (
        Result<(), ErrorModel>,
        EvaluationState,
    ) {
        let (checked, state) = self.check("evaluating statement"@);
        match checked {
            Err(e) => (Err(e), state),
            Ok(_) => match statement {
                LazyStatementModel::AddGraphNodeAttribute { node, attributes, debug_info } => {
                    let (result, after) = state.evaluate(node);
                    match crate::lazy::evaluation::as_graph_node(result) {
                        Err(e) => (Err(e), after),
                        Ok(node) => after.set_attributes(node, attributes, 0, debug_info),
                    }
                },
                LazyStatementModel::CreateEdge { source, sink, debug_info } => {
                    let (ends, after) = state.evaluate_ends(source, sink);
                    match ends {
                        Err(e) => (Err(e), after),
                        Ok((source, sink)) => after.add_edge(source, sink, debug_info),
                    }
                },
                LazyStatementModel::AddEdgeAttribute { source, sink, attributes, debug_info } => {
                    let (ends, after) = state.evaluate_ends(source, sink);
                    match ends {
                        Err(e) => (Err(e), after),
                        Ok((source, sink)) => after.set_edge_attributes(
                            source,
                            sink,
                            attributes,
                            0,
                            debug_info,
                        ),
                    }
                },
                LazyStatementModel::Print { arguments, .. } => state.print_all(arguments, 0),
            },
        }
    }
}

fn places_text(previous: Option<DebugInfo>, place: DebugInfo) -> (r: String)
    ensures
        r@ == places_shown(
            match previous {
                Some(previous) => Some(previous@),
                None => None,
            },
            place@,
        ),
{
    match previous {
        Some(previous) => {
            let mut r = previous.text();
            r.append(" and ");
            r.append(place.text().as_str());
            r
        },
        None => place.text(),
    }
}

fn edge_text(source: GraphNodeRef, sink: GraphNodeRef) -> (r: String)
    ensures
        r@ == edge_shown(source, sink),
{
    let mut r = "(".to_owned();
    r.append(source.text().as_str());
    r.append(" -> ");
    r.append(sink.text().as_str());
    r.append(")");
    r
}

impl LazyAddGraphNodeAttribute {
    /// Sets the attributes.
    pub fn evaluate<C: CancellationFlag, F: Functions>(
        &self,
        exec: &mut EvaluationContext<C, F>,
    ) -> (r: Result<(), ExecutionError>)
        requires
            old(exec)@.valid(),
            self.node@.below(old(exec)@.store.len()),
            attributes_below(attributes_model(self.attributes@), old(exec)@.store.len()),
        ensures
            ({
                let (result, after) = old(exec)@.evaluate(self.node@);
                (crate::error::unit_model(r), final(exec)@)
                    == match crate::lazy::evaluation::as_graph_node(result) {
                    Err(e) => (Err(e), after),
                    Ok(node) => after.set_attributes(
                        node,
                        attributes_model(self.attributes@),
                        0,
                        self.debug_info@,
                    ),
                }
            }),
            old(exec)@.leads_to(final(exec)@),
            *final(final(exec).functions) == *final(old(exec).functions),
            *final(final(exec).cancellation_flag) == *final(old(exec).cancellation_flag),
    {
        let node = match self.node.evaluate_as_graph_node(exec) {
            Err(e) => {
                return Err(e);
            },
            Ok(node) => node,
        };
        let ghost start = exec@;
        let ghost models = attributes_model(self.attributes@);
        let ghost place = self.debug_info@;
        let mut i: usize = 0;
        while i < self.attributes.len()
            invariant
                *final(exec.functions) == *final(old(exec).functions),
                *final(exec.cancellation_flag) == *final(old(exec).cancellation_flag),
                i <= self.attributes.len(),
                models == attributes_model(self.attributes@),
                place == self.debug_info@,
                attributes_below(models, start.store.len()),
                old(exec)@.leads_to(start),
                start.leads_to(exec@),
                crate::lazy::evaluation::as_graph_node(old(exec)@.evaluate(self.node@).0) == Ok::<
                    GraphNodeRef,
                    ErrorModel,
                >(node),
                start == old(exec)@.evaluate(self.node@).1,
                start.set_attributes(node, models, 0, place) == exec@.set_attributes(
                    node,
                    models,
                    i as int,
                    place,
                ),
            decreases self.attributes.len() - i,
        {
            let attribute = &self.attributes[i];
            assert(models[i as int] == attribute@);
            let value = match attribute.value.evaluate(exec) {
                Err(e) => {
                    return Err(e);
                },
                Ok(value) => value,
            };
            if !exec.graph.has(node) {
                return Err(ExecutionError::UndefinedGraphNode(node.text()));
            }
            let previous = exec.prev_element_debug_info.insert(
                GraphElementKey::NodeAttribute(node, attribute.name.clone()),
                self.debug_info,
            );
            if !exec.graph.add_attribute(node, attribute.name.clone(), value) {
                let mut text = attribute.name.name.clone();
                text.append(" on ");
                text.append(node.text().as_str());
                text.append(" at ");
                text.append(places_text(previous, self.debug_info).as_str());
                return Err(ExecutionError::DuplicateAttribute(text));
            }
            i += 1;
        }
        Ok(())
    }
}

/// Evaluates the two ends of an edge.
fn evaluate_ends<C: CancellationFlag, F: Functions>(
    source: &LazyValue,
    sink: &LazyValue,
    exec: &mut EvaluationContext<C, F>,
) -> (r: Result<(GraphNodeRef, GraphNodeRef), ExecutionError>)
    requires
        old(exec)@.valid(),
        source@.below(old(exec)@.store.len()),
        sink@.below(old(exec)@.store.len()),
    ensures
        ((match r {
            Ok(ends) => Ok(ends),
            Err(e) => Err(e@),
        }), final(exec)@) == old(exec)@.evaluate_ends(source@, sink@),
        old(exec)@.leads_to(final(exec)@),
        *final(final(exec).functions) == *final(old(exec).functions),
        *final(final(exec).cancellation_flag) == *final(old(exec).cancellation_flag),
{
    let first = match source.evaluate_as_graph_node(exec) {
        Err(e) => {
            return Err(e);
        },
        Ok(node) => node,
    };
    match sink.evaluate_as_graph_node(exec) {
        Err(e) => Err(e),
        Ok(second) => Ok((first, second)),
    }
}

impl LazyCreateEdge {
    /// Adds the edge.
    pub fn evaluate<C: CancellationFlag, F: Functions>(
        &self,
        exec: &mut EvaluationContext<C, F>,
    ) -> (r: Result<(), ExecutionError>)
        requires
            old(exec)@.valid(),
            self.source@.below(old(exec)@.store.len()),
            self.sink@.below(old(exec)@.store.len()),
        ensures
            ({
                let (ends, after) = old(exec)@.evaluate_ends(self.source@, self.sink@);
                (crate::error::unit_model(r), final(exec)@) == match ends {
                    Err(e) => (Err(e), after),
                    Ok((source, sink)) => after.add_edge(source, sink, self.debug_info@),
                }
            }),
            old(exec)@.leads_to(final(exec)@),
            *final(final(exec).functions) == *final(old(exec).functions),
            *final(final(exec).cancellation_flag) == *final(old(exec).cancellation_flag),
    {
        let (source, sink) = match evaluate_ends(&self.source, &self.sink, exec) {
            Err(e) => {
                return Err(e);
            },
            Ok(ends) => ends,
        };
        if !exec.graph.has(source) {
            return Err(ExecutionError::UndefinedGraphNode(source.text()));
        }
        let previous = exec.prev_element_debug_info.insert(
            GraphElementKey::Edge(source, sink),
            self.debug_info,
        );
        if !exec.graph.add_edge(source, sink) {
            let mut text = edge_text(source, sink);
            text.append(" at ");
            text.append(places_text(previous, self.debug_info).as_str());
            return Err(ExecutionError::DuplicateEdge(text));
        }
        Ok(())
    }
}

impl LazyAddEdgeAttribute {
    /// Sets the attributes.
    pub fn evaluate<C: CancellationFlag, F: Functions>(
        &self,
        exec: &mut EvaluationContext<C, F>,
    ) -> (r: Result<(), ExecutionError>)
        requires
            old(exec)@.valid(),
            self.source@.below(old(exec)@.store.len()),
            self.sink@.below(old(exec)@.store.len()),
            attributes_below(attributes_model(self.attributes@), old(exec)@.store.len()),
        ensures
            ({
                let (ends, after) = old(exec)@.evaluate_ends(self.source@, self.sink@);
                (crate::error::unit_model(r), final(exec)@) == match ends {
                    Err(e) => (Err(e), after),
                    Ok((source, sink)) => after.set_edge_attributes(
                        source,
                        sink,
                        attributes_model(self.attributes@),
                        0,
                        self.debug_info@,
                    ),
                }
            }),
            old(exec)@.leads_to(final(exec)@),
            *final(final(exec).functions) == *final(old(exec).functions),
            *final(final(exec).cancellation_flag) == *final(old(exec).cancellation_flag),
    {
        let (source, sink) = match evaluate_ends(&self.source, &self.sink, exec) {
            Err(e) => {
                return Err(e);
            },
            Ok(ends) => ends,
        };
        let ghost start = exec@;
        let ghost models = attributes_model(self.attributes@);
        let ghost place = self.debug_info@;
        let mut i: usize = 0;
        while i < self.attributes.len()
            invariant
                *final(exec.functions) == *final(old(exec).functions),
                *final(exec.cancellation_flag) == *final(old(exec).cancellation_flag),
                i <= self.attributes.len(),
                models == attributes_model(self.attributes@),
                place == self.debug_info@,
                attributes_below(models, start.store.len()),
                old(exec)@.leads_to(start),
                start.leads_to(exec@),
                old(exec)@.evaluate_ends(self.source@, self.sink@) == (
                    Ok::<(GraphNodeRef, GraphNodeRef), ErrorModel>((source, sink)),
                    start,
                ),
                start.set_edge_attributes(source, sink, models, 0, place)
                    == exec@.set_edge_attributes(source, sink, models, i as int, place),
            decreases self.attributes.len() - i,
        {
            let attribute = &self.attributes[i];
            assert(models[i as int] == attribute@);
            let value = match attribute.value.evaluate(exec) {
                Err(e) => {
                    return Err(e);
                },
                Ok(value) => value,
            };
            if !exec.graph.has(source) {
                return Err(ExecutionError::UndefinedGraphNode(source.text()));
            }
            if !exec.graph.has_edge(source, sink) {
                let mut text = edge_text(source, sink);
                text.append(" at ");
                text.append(self.debug_info.text().as_str());
                return Err(ExecutionError::UndefinedEdge(text));
            }
            let previous = exec.prev_element_debug_info.insert(
                GraphElementKey::EdgeAttribute(source, sink, attribute.name.clone()),
                self.debug_info,
            );
            if !exec.graph.add_edge_attribute(source, sink, attribute.name.clone(), value) {
                let mut text = attribute.name.name.clone();
                text.append(" on edge ");
                text.append(edge_text(source, sink).as_str());
                text.append(" at ");
                text.append(places_text(previous, self.debug_info).as_str());
                return Err(ExecutionError::DuplicateAttribute(text));
            }
            i += 1;
        }
        Ok(())
    }
}

impl LazyPrint {
    /// Prints the line.
    pub fn evaluate<C: CancellationFlag, F: Functions>(
        &self,
        exec: &mut EvaluationContext<C, F>,
    ) -> (r: Result<(), ExecutionError>)
        requires
            old(exec)@.valid(),
            prints_below(prints_model(self.arguments@), old(exec)@.store.len()),
        ensures
            (crate::error::unit_model(r), final(exec)@) == old(exec)@.print_all(
                prints_model(self.arguments@),
                0,
            ),
            old(exec)@.leads_to(final(exec)@),
            *final(final(exec).functions) == *final(old(exec).functions),
            *final(final(exec).cancellation_flag) == *final(old(exec).cancellation_flag),
    {
        let ghost before = exec@;
        let ghost models = prints_model(self.arguments@);
        let mut i: usize = 0;
        while i < self.arguments.len()
            invariant
                *final(exec.functions) == *final(old(exec).functions),
                *final(exec.cancellation_flag) == *final(old(exec).cancellation_flag),
                i <= self.arguments.len(),
                before == old(exec)@,
                models == prints_model(self.arguments@),
                before.leads_to(exec@),
                prints_below(models, before.store.len()),
                before.print_all(models, 0) == exec@.print_all(models, i as int),
            decreases self.arguments.len() - i,
        {
            assert(models[i as int] == self.arguments@[i as int]@);
            match &self.arguments[i] {
                LazyPrintArgument::Text(text) => {
                    exec.printed.append(text.as_str());
                },
                LazyPrintArgument::Value(value) => {
                    let value = match value.evaluate(exec) {
                        Err(e) => {
                            return Err(e);
                        },
                        Ok(value) => value,
                    };
                    exec.printed.append(value.text().as_str());
                },
            }
            i += 1;
        }
        exec.printed.append("\n");
        Ok(())
    }
}

impl LazyStatement {
    /// Evaluates this statement.
    pub fn evaluate<C: CancellationFlag, F: Functions>(
        &self,
        exec: &mut EvaluationContext<C, F>,
    ) -> (r: Result<(), ExecutionError>)
        requires
            old(exec)@.valid(),
            self@.below(old(exec)@.store.len()),
        ensures
            (crate::error::unit_model(r), final(exec)@) == old(exec)@.evaluate_statement(self@),
            old(exec)@.leads_to(final(exec)@),
            *final(final(exec).functions) == *final(old(exec).functions),
            *final(final(exec).cancellation_flag) == *final(old(exec).cancellation_flag),
    {
        if let Err(e) = exec.check("evaluating statement") {
            return Err(e);
        }
        match self {
            LazyStatement::AddGraphNodeAttribute(statement) => statement.evaluate(exec),
            LazyStatement::CreateEdge(statement) => statement.evaluate(exec),
            LazyStatement::AddEdgeAttribute(statement) => statement.evaluate(exec),
            LazyStatement::Print(statement) => statement.evaluate(exec),
        }
    }
}

impl LazyStatementModel {
    /// `start`, and after it the first `n` of the attributes, each after a space.
    pub open spec fn attributes_shown(
        start: Seq<char>,
        attributes: Seq<AttributeModel>,
        n: int,
    ) -> Seq<char>
        decreases n,
    {
        if n <= 0 {
            start
        } else {
            LazyStatementModel::attributes_shown(start, attributes, n - 1) + " "@ + attributes[n
                - 1].name + " = "@ + attributes[n - 1].value.shown()
        }
    }

    /// The first `n` of the things to print, each after a space and before a comma.
    pub open spec fn prints_shown(arguments: Seq<PrintModel>, n: int) -> Seq<char>
        decreases n,
    {
        if n <= 0 {
            "print"@
        } else {
            LazyStatementModel::prints_shown(arguments, n - 1) + " "@ + (match arguments[n - 1] {
                PrintModel::Text(text) => "\""@ + text + "\""@,
                PrintModel::Value(value) => value.shown(),
            }) + ","@
        }
    }

    /// A statement is shown with the values in it, and with its location.
    pub open spec fn shown(self) -> Seq<char> {
        match self {
            LazyStatementModel::AddGraphNodeAttribute { node, attributes, debug_info } => {
                LazyStatementModel::attributes_shown(
                    "attr ("@ + node.shown() + ")"@,
                    attributes,
                    attributes.len() as int,
                ) + " at "@ + debug_info.shown()
            },
            LazyStatementModel::CreateEdge { source, sink, debug_info } => {
                "edge "@ + source.shown() + " -> "@ + sink.shown() + " at "@ + debug_info.shown()
            },
            LazyStatementModel::AddEdgeAttribute { source, sink, attributes, debug_info } => {
                LazyStatementModel::attributes_shown(
                    "attr ("@ + source.shown() + " -> "@ + sink.shown() + ")"@,
                    attributes,
                    attributes.len() as int,
                ) + " at "@ + debug_info.shown()
            },
            LazyStatementModel::Print { arguments, debug_info } => {
                LazyStatementModel::prints_shown(arguments, arguments.len() as int) + " at "@
                    + debug_info.shown()
            },
        }
    }
}

fn attributes_text(start: String, attributes: &Vec<LazyAttribute>) -> (r: String)
    ensures
        r@ == LazyStatementModel::attributes_shown(
            start@,
            attributes_model(attributes@),
            attributes.len() as int,
        ),
{
    let ghost models = attributes_model(attributes@);
    let mut r = start;
    let mut i: usize = 0;
    while i < attributes.len()
        invariant
            i <= attributes.len(),
            models == attributes_model(attributes@),
            r@ == LazyStatementModel::attributes_shown(start@, models, i as int),
        decreases attributes.len() - i,
    {
        assert(models[i as int] == attributes@[i as int]@);
        r.append(" ");
        r.append(attributes[i].name.as_str());
        r.append(" = ");
        r.append(attributes[i].value.text().as_str());
        i += 1;
    }
    r
}

fn prints_text(arguments: &Vec<LazyPrintArgument>) -> (r: String)
    ensures
        r@ == LazyStatementModel::prints_shown(prints_model(arguments@), arguments.len() as int),
{
    let ghost models = prints_model(arguments@);
    let mut r = "print".to_owned();
    let mut i: usize = 0;
    while i < arguments.len()
        invariant
            i <= arguments.len(),
            models == prints_model(arguments@),
            r@ == LazyStatementModel::prints_shown(models, i as int),
        decreases arguments.len() - i,
    {
        assert(models[i as int] == arguments@[i as int]@);
        r.append(" ");
        match &arguments[i] {
            LazyPrintArgument::Text(text) => {
                let mut shown = "\"".to_owned();
                shown.append(text.as_str());
                shown.append("\"");
                r.append(shown.as_str());
            },
            LazyPrintArgument::Value(value) => {
                r.append(value.text().as_str());
            },
        }
        r.append(",");
        i += 1;
    }
    r
}

impl LazyStatement {
    pub fn text(&self) -> (r: String)
        ensures
            r@ == self@.shown(),
    {
        match self {
            LazyStatement::AddGraphNodeAttribute(s) => {
                let mut start = "attr (".to_owned();
                start.append(s.node.text().as_str());
                start.append(")");
                let mut r = attributes_text(start, &s.attributes);
                r.append(" at ");
                r.append(s.debug_info.text().as_str());
                r
            },
            LazyStatement::CreateEdge(s) => {
                let mut r = "edge ".to_owned();
                r.append(s.source.text().as_str());
                r.append(" -> ");
                r.append(s.sink.text().as_str());
                r.append(" at ");
                r.append(s.debug_info.text().as_str());
                r
            },
            LazyStatement::AddEdgeAttribute(s) => {
                let mut start = "attr (".to_owned();
                start.append(s.source.text().as_str());
                start.append(" -> ");
                start.append(s.sink.text().as_str());
                start.append(")");
                let mut r = attributes_text(start, &s.attributes);
                r.append(" at ");
                r.append(s.debug_info.text().as_str());
                r
            },
            LazyStatement::Print(s) => {
                let mut r = prints_text(&s.arguments);
                r.append(" at ");
                r.append(s.debug_info.text().as_str());
                r
            },
        }
    }
}

} // verus!
