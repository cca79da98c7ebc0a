//! Laws of what is built.

use vstd::prelude::*;

use crate::ast::File;
use crate::cancellation::Answers;
use crate::error::ErrorModel;
use crate::functions::Outcomes;
use crate::graph::GraphModel;
use crate::graph::GraphNodeModel;
use crate::lazy::evaluation::EvaluationState;
use crate::lazy::execution::Ending;
use crate::lazy::execution::ExecutionState;
use crate::lazy::execution::Surroundings;
use crate::lazy::statements::AttributeModel;
use crate::lazy::statements::LazyStatementModel;
use crate::lazy::statements::PrintModel;
use crate::lazy::values::LazyModel;
use crate::location::Location;
use crate::matching::MatchModel;
use crate::values::GraphNodeRef;
use crate::values::ValueModel;

verus! {

impl GraphNodeModel {
    /// Whether `after` has all the attributes and edges of this node, with their values.
    pub open spec fn within(self, after: GraphNodeModel) -> bool {
        &&& self.attributes.submap_of(after.attributes)
        &&& forall|sink: usize| #[trigger]
            self.outgoing_edges.contains_key(sink) ==> after.outgoing_edges.contains_key(sink)
                && self.outgoing_edges[sink].submap_of(after.outgoing_edges[sink])
    }
}

impl GraphNodeModel {
    /// Whether `after` has all the edges of this node, and attributes with all the names.
    pub open spec fn stays_in(self, after: GraphNodeModel) -> bool {
        &&& self.attributes.dom().subset_of(after.attributes.dom())
        &&& forall|sink: usize| #[trigger]
            self.outgoing_edges.contains_key(sink) ==> after.outgoing_edges.contains_key(sink)
                && self.outgoing_edges[sink].dom().subset_of(after.outgoing_edges[sink].dom())
    }
}

impl GraphModel {
    /// Whether `after` has all the nodes of this graph, with all their edges.
    pub open spec fn elements_in(self, after: GraphModel) -> bool {
        &&& self.graph_nodes.len() <= after.graph_nodes.len()
        &&& forall|i: int, sink: usize|
            0 <= i < self.graph_nodes.len()
                && #[trigger] self.graph_nodes[i].outgoing_edges.contains_key(sink)
                ==> after.graph_nodes[i].outgoing_edges.contains_key(sink)
    }

    pub proof fn lemma_elements_transitive(self, middle: GraphModel, after: GraphModel)
        requires
            self.elements_in(middle),
            middle.elements_in(after),
        ensures
            self.elements_in(after),
    {
        assert forall|i: int, sink: usize|
            0 <= i < self.graph_nodes.len()
                && #[trigger] self.graph_nodes[i].outgoing_edges.contains_key(
                sink,
            ) implies after.graph_nodes[i].outgoing_edges.contains_key(sink) by {
            assert(middle.graph_nodes[i].outgoing_edges.contains_key(sink));
        }
    }

    /// Whether `after` has all the nodes of this graph, with all their edges, and with attributes
    /// of the same names.
    pub open spec fn stays_in(self, after: GraphModel) -> bool {
        &&& self.graph_nodes.len() <= after.graph_nodes.len()
        &&& forall|i: int|
            0 <= i < self.graph_nodes.len() ==> (#[trigger] self.graph_nodes[i]).stays_in(
                after.graph_nodes[i],
            )
        &&& self.syntax_nodes.submap_of(after.syntax_nodes)
    }

    proof fn lemma_stays_transitive(self, middle: GraphModel, after: GraphModel)
        requires
            self.stays_in(middle),
            middle.stays_in(after),
        ensures
            self.stays_in(after),
    {
        assert forall|i: int| 0 <= i < self.graph_nodes.len() implies (
        #[trigger] self.graph_nodes[i]).stays_in(after.graph_nodes[i]) by {
            assert(middle.graph_nodes[i].stays_in(after.graph_nodes[i]));
            let a = self.graph_nodes[i];
            let b = middle.graph_nodes[i];
            let c = after.graph_nodes[i];
            assert forall|sink: usize| #[trigger]
                a.outgoing_edges.contains_key(sink) implies c.outgoing_edges.contains_key(sink)
                && a.outgoing_edges[sink].dom().subset_of(c.outgoing_edges[sink].dom()) by {
                assert(b.outgoing_edges.contains_key(sink));
            }
        }
        vstd::map_lib::lemma_submap_of_trans(
            self.syntax_nodes,
            middle.syntax_nodes,
            after.syntax_nodes,
        );
    }

    proof fn lemma_within_stays(self, after: GraphModel)
        requires
            self.within(after),
        ensures
            self.stays_in(after),
    {
        assert forall|i: int| 0 <= i < self.graph_nodes.len() implies (
        #[trigger] self.graph_nodes[i]).stays_in(after.graph_nodes[i]) by {
            assert(self.graph_nodes[i].within(after.graph_nodes[i]));
        }
    }

    /// Whether `after` has all the nodes of this graph, with all their attributes and edges.
    pub open spec fn within(self, after: GraphModel) -> bool {
        &&& self.graph_nodes.len() <= after.graph_nodes.len()
        &&& forall|i: int|
            0 <= i < self.graph_nodes.len() ==> (#[trigger] self.graph_nodes[i]).within(
                after.graph_nodes[i],
            )
        &&& self.syntax_nodes.submap_of(after.syntax_nodes)
    }

    pub proof fn lemma_within_transitive(self, middle: GraphModel, after: GraphModel)
        requires
            self.within(middle),
            middle.within(after),
        ensures
            self.within(after),
    {
        assert forall|i: int| 0 <= i < self.graph_nodes.len() implies (
        #[trigger] self.graph_nodes[i]).within(after.graph_nodes[i]) by {
            assert(middle.graph_nodes[i].within(after.graph_nodes[i]));
            let a = self.graph_nodes[i];
            let b = middle.graph_nodes[i];
            let c = after.graph_nodes[i];
            vstd::map_lib::lemma_submap_of_trans(a.attributes, b.attributes, c.attributes);
            assert forall|sink: usize| #[trigger]
                a.outgoing_edges.contains_key(sink) implies c.outgoing_edges.contains_key(sink)
                && a.outgoing_edges[sink].submap_of(c.outgoing_edges[sink]) by {
                assert(b.outgoing_edges.contains_key(sink));
                vstd::map_lib::lemma_submap_of_trans(
                    a.outgoing_edges[sink],
                    b.outgoing_edges[sink],
                    c.outgoing_edges[sink],
                );
            }
        }
        vstd::map_lib::lemma_submap_of_trans(
            self.syntax_nodes,
            middle.syntax_nodes,
            after.syntax_nodes,
        );
    }

    proof fn lemma_gains_within(self, after: GraphModel)
        requires
            self.gains_nodes_to(after),
        ensures
            self.within(after),
    {
    }
}

impl EvaluationState {
    /// What evaluating statements of the lazy graph keeps: what has been printed stays, and thunks
    /// that have been forced keep their values. If the functions leave the graph alone, no node is
    /// added. If they take no node or edge out of the graph, all nodes and edges stay. If they only
    /// add to the graph, all attributes stay too; and, unless there is an error, they keep their
    /// values.
    pub open spec fn builds(self, result: Result<(), ErrorModel>, after: EvaluationState) -> bool {
        &&& self.leads_to(after)
        &&& after.source == self.source
        &&& self.printed.is_prefix_of(after.printed)
        &&& forall|i: int|
            0 <= i < self.store.len() ==> (#[trigger] self.store[i]).state.becomes(
                after.store[i].state,
            ) && after.store[i].debug_info == self.store[i].debug_info
        &&& self.cancellation_flag.advance_to(after.cancellation_flag)
        &&& self.functions.advance_to(after.functions)
        &&& self.functions.quiet() ==> {
            &&& after.graph.graph_nodes.len() == self.graph.graph_nodes.len()
            &&& after.graph.syntax_nodes == self.graph.syntax_nodes
        }
        &&& self.functions.lasting() ==> self.graph.elements_in(after.graph)
        &&& self.functions.additive() ==> {
            &&& self.graph.stays_in(after.graph)
            &&& result is Ok ==> self.graph.within(after.graph)
        }
    }

    pub proof fn lemma_builds_transitive(
        self,
        middle: EvaluationState,
        result: Result<(), ErrorModel>,
        after: EvaluationState,
    )
        requires
            self.builds(Ok(()), middle),
            middle.builds(result, after),
        ensures
            self.builds(result, after),
    {
        assert forall|i: int| 0 <= i < self.store.len() implies (
        #[trigger] self.store[i]).state.becomes(after.store[i].state) && after.store[i].debug_info
            == self.store[i].debug_info by {
            assert(middle.store[i].state.becomes(after.store[i].state));
        }
        if self.functions.lasting() {
            self.graph.lemma_elements_transitive(middle.graph, after.graph);
        }
        if self.functions.additive() {
            self.graph.lemma_stays_transitive(middle.graph, after.graph);
            if result is Ok {
                self.graph.lemma_within_transitive(middle.graph, after.graph);
            }
        }
    }

    pub proof fn lemma_progress_builds(self, after: EvaluationState)
        requires
            self.progresses_to(after),
        ensures
            self.builds(Ok(()), after),
    {
        if self.functions.additive() {
            self.graph.lemma_within_stays(after.graph);
        }
    }

    pub proof fn lemma_set_attribute_builds(
        self,
        node: GraphNodeRef,
        name: Seq<char>,
        value: ValueModel,
        place: Location,
    )
        requires
            self.valid(),
        ensures
            self.builds(
                self.set_attribute(node, name, value, place).0,
                self.set_attribute(node, name, value, place).1,
            ),
    {
    }

    proof fn lemma_add_edge_builds(
        self,
        source: GraphNodeRef,
        sink: GraphNodeRef,
        place: Location,
    )
        requires
            self.valid(),
        ensures
            self.builds(
                self.add_edge(source, sink, place).0,
                self.add_edge(source, sink, place).1,
            ),
    {
    }

    pub proof fn lemma_set_edge_attribute_builds(
        self,
        source: GraphNodeRef,
        sink: GraphNodeRef,
        name: Seq<char>,
        value: ValueModel,
        place: Location,
    )
        requires
            self.valid(),
        ensures
            self.builds(
                self.set_edge_attribute(source, sink, name, value, place).0,
                self.set_edge_attribute(source, sink, name, value, place).1,
            ),
    {
    }

    pub proof fn lemma_set_attributes_builds(
        self,
        node: GraphNodeRef,
        attributes: Seq<AttributeModel>,
        i: int,
        place: Location,
    )
        requires
            self.valid(),
            crate::lazy::statements::attributes_below(attributes, self.store.len()),
        ensures
            self.builds(
                self.set_attributes(node, attributes, i, place).0,
                self.set_attributes(node, attributes, i, place).1,
            ),
        decreases attributes.len() - i,
    {
        if 0 <= i < attributes.len() {
            self.lemma_evaluate_progress(attributes[i].value);
            let (value, evaluated) = self.evaluate(attributes[i].value);
            self.lemma_progress_builds(evaluated);
            if let Ok(value) = value {
                evaluated.lemma_set_attribute_builds(node, attributes[i].name, value, place);
                let (done, after) = evaluated.set_attribute(
                    node,
                    attributes[i].name,
                    value,
                    place,
                );
                self.lemma_builds_transitive(evaluated, done, after);
                if done is Ok {
                    after.lemma_set_attributes_builds(node, attributes, i + 1, place);
                    let (result, end) = after.set_attributes(node, attributes, i + 1, place);
                    self.lemma_builds_transitive(after, result, end);
                }
            }
        }
    }

    pub proof fn lemma_set_edge_attributes_builds(
        self,
        source: GraphNodeRef,
        sink: GraphNodeRef,
        attributes: Seq<AttributeModel>,
        i: int,
        place: Location,
    )
        requires
            self.valid(),
            crate::lazy::statements::attributes_below(attributes, self.store.len()),
        ensures
            self.builds(
                self.set_edge_attributes(source, sink, attributes, i, place).0,
                self.set_edge_attributes(source, sink, attributes, i, place).1,
            ),
        decreases attributes.len() - i,
    {
        if 0 <= i < attributes.len() {
            self.lemma_evaluate_progress(attributes[i].value);
            let (value, evaluated) = self.evaluate(attributes[i].value);
            self.lemma_progress_builds(evaluated);
            if let Ok(value) = value {
                let name = attributes[i].name;
                evaluated.lemma_set_edge_attribute_builds(source, sink, name, value, place);
                let (done, after) = evaluated.set_edge_attribute(source, sink, name, value, place);
                self.lemma_builds_transitive(evaluated, done, after);
                if done is Ok {
                    after.lemma_set_edge_attributes_builds(source, sink, attributes, i + 1, place);
                    let (result, end) = after.set_edge_attributes(
                        source,
                        sink,
                        attributes,
                        i + 1,
                        place,
                    );
                    self.lemma_builds_transitive(after, result, end);
                }
            }
        }
    }

    proof fn lemma_print_builds(self, text: Seq<char>)
        requires
            self.valid(),
        ensures
            self.builds(Ok(()), self.print(text)),
    {
    }

    proof fn lemma_print_all_builds(self, arguments: Seq<PrintModel>, i: int)
        requires
            self.valid(),
            crate::lazy::statements::prints_below(arguments, self.store.len()),
        ensures
            self.builds(self.print_all(arguments, i).0, self.print_all(arguments, i).1),
        decreases arguments.len() - i,
    {
        if 0 <= i < arguments.len() {
            match arguments[i] {
                PrintModel::Text(text) => {
                    let printed = self.print(text);
                    self.lemma_print_builds(text);
                    printed.lemma_print_all_builds(arguments, i + 1);
                    let (result, end) = printed.print_all(arguments, i + 1);
                    self.lemma_builds_transitive(printed, result, end);
                },
                PrintModel::Value(value) => {
                    self.lemma_evaluate_progress(value);
                    let (result, after) = self.evaluate(value);
                    self.lemma_progress_builds(after);
                    if let Ok(value) = result {
                        let printed = after.print(value.shown());
                        after.lemma_print_builds(value.shown());
                        self.lemma_builds_transitive(after, Ok(()), printed);
                        printed.lemma_print_all_builds(arguments, i + 1);
                        let (result, end) = printed.print_all(arguments, i + 1);
                        self.lemma_builds_transitive(printed, result, end);
                    }
                },
            }
        } else {
            self.lemma_print_builds("\n"@);
        }
    }

    proof fn lemma_evaluate_ends_builds(self, source: LazyModel, sink: LazyModel)
        requires
            self.valid(),
            source.below(self.store.len()),
            sink.below(self.store.len()),
        ensures
            self.builds(Ok(()), self.evaluate_ends(source, sink).1),
    {
        self.lemma_evaluate_progress(source);
        let (first, after) = self.evaluate(source);
        self.lemma_progress_builds(after);
        if crate::lazy::evaluation::as_graph_node(first) is Ok {
            after.lemma_evaluate_progress(sink);
            let end = after.evaluate(sink).1;
            after.lemma_progress_builds(end);
            self.lemma_builds_transitive(after, Ok(()), end);
        }
    }

    /// Evaluating a statement of the lazy graph keeps what `builds` names.
    pub proof fn lemma_statement_builds(self, statement: LazyStatementModel)
        requires
            self.valid(),
            statement.below(self.store.len()),
        ensures
            self.builds(
                self.evaluate_statement(statement).0,
                self.evaluate_statement(statement).1,
            ),
    {
        let at = "evaluating statement"@;
        let (checked, state) = self.check(at);
        self.lemma_check_progress(at);
        self.lemma_progress_builds(state);
        if checked is Ok {
            match statement {
                LazyStatementModel::AddGraphNodeAttribute { node, attributes, debug_info } => {
                    state.lemma_evaluate_progress(node);
                    let (result, after) = state.evaluate(node);
                    state.lemma_progress_builds(after);
                    self.lemma_builds_transitive(state, Ok(()), after);
                    if let Ok(node) = crate::lazy::evaluation::as_graph_node(result) {
                        after.lemma_set_attributes_builds(node, attributes, 0, debug_info);
                        let (result, end) = after.set_attributes(node, attributes, 0, debug_info);
                        self.lemma_builds_transitive(after, result, end);
                    }
                },
                LazyStatementModel::CreateEdge { source, sink, debug_info } => {
                    state.lemma_evaluate_ends_builds(source, sink);
                    let (ends, after) = state.evaluate_ends(source, sink);
                    self.lemma_builds_transitive(state, Ok(()), after);
                    if let Ok((source, sink)) = ends {
                        after.lemma_add_edge_builds(source, sink, debug_info);
                        let (result, end) = after.add_edge(source, sink, debug_info);
                        self.lemma_builds_transitive(after, result, end);
                    }
                },
                LazyStatementModel::AddEdgeAttribute { source, sink, attributes, debug_info } => {
                    state.lemma_evaluate_ends_builds(source, sink);
                    let (ends, after) = state.evaluate_ends(source, sink);
                    self.lemma_builds_transitive(state, Ok(()), after);
                    if let Ok((source, sink)) = ends {
                        after.lemma_set_edge_attributes_builds(
                            source,
                            sink,
                            attributes,
                            0,
                            debug_info,
                        );
                        let (result, end) = after.set_edge_attributes(
                            source,
                            sink,
                            attributes,
                            0,
                            debug_info,
                        );
                        self.lemma_builds_transitive(after, result, end);
                    }
                },
                LazyStatementModel::Print { arguments, .. } => {
                    state.lemma_print_all_builds(arguments, 0);
                    let (result, end) = state.print_all(arguments, 0);
                    self.lemma_builds_transitive(state, result, end);
                },
            }
        }
    }

    /// Evaluating the lazy graph keeps what `builds` names.
    pub proof fn lemma_graph_builds(self, statements: Seq<LazyStatementModel>, i: int)
        requires
            self.valid(),
            crate::lazy::execution::lazy_graph_below(statements, self.store.len()),
        ensures
            self.builds(self.evaluate_graph(statements, i).0, self.evaluate_graph(statements, i).1),
        decreases statements.len() - i,
    {
        if 0 <= i < statements.len() {
            self.lemma_statement_builds(statements[i]);
            let (result, after) = self.evaluate_statement(statements[i]);
            if result is Ok {
                after.lemma_graph_builds(statements, i + 1);
                let (result, end) = after.evaluate_graph(statements, i + 1);
                self.lemma_builds_transitive(after, result, end);
            }
        }
    }
}

impl File {
    /// A program adds to the graph that it is given: whether there is an error or not, all nodes
    /// and edges of that graph are still there, under the same numbers, as long as the functions
    /// take none out. If the functions only add to the graph, all attributes are still there too,
    /// and, unless there is an error, have the same values. What was printed before stays.
    pub proof fn lemma_run_extends_graph(
        self,
        globals: Map<Seq<char>, ValueModel>,
        location_attr: Option<Seq<char>>,
        variable_name_attr: Option<Seq<char>>,
        matches: Seq<MatchModel>,
        source: Seq<char>,
        graph: GraphModel,
        functions: Outcomes,
        printed: Seq<char>,
        cancellation_flag: Answers,
    )
        ensures
            ({
                let eval = crate::lazy::execution::initial_state(
                    source,
                    graph,
                    functions,
                    printed,
                    cancellation_flag,
                );
                let ending = self.ending(
                    globals,
                    location_attr,
                    variable_name_attr,
                    matches,
                    eval,
                );
                &&& printed.is_prefix_of(ending.printed)
                &&& functions.lasting() ==> graph.elements_in(ending.graph)
                &&& functions.additive() ==> graph.stays_in(ending.graph)
                &&& functions.additive() && ending.result is Ok ==> graph.within(ending.graph)
            }),
    {
        let eval = crate::lazy::execution::initial_state(
            source,
            graph,
            functions,
            printed,
            cancellation_flag,
        );
        graph.lemma_gains_within(graph);
        graph.lemma_within_stays(graph);
        if let Ok(globals) = crate::lazy::execution::checked_globals(self.globals@, 0, globals) {
            let cx = Surroundings {
                globals,
                location_attr,
                variable_name_attr,
                mat: crate::lazy::execution::no_match(),
                current_regex_captures: Seq::empty(),
                shorthands: self.shorthands.list@,
                open_shorthands: 0,
            };
            let start = ExecutionState {
                eval,
                locals: seq![Map::empty()],
                lazy_graph: Seq::empty(),
            };
            assert(start.valid());
            start.lemma_matches_keep(cx, self.stanzas@, matches, 0);
            let (result, executed) = start.execute_matches(cx, self.stanzas@, matches, 0);
            if functions.additive() {
                graph.lemma_within_stays(executed.eval.graph);
            }
            if result is Ok {
                executed.eval.lemma_graph_builds(executed.lazy_graph, 0);
                let (ended, after) = executed.eval.evaluate_graph(executed.lazy_graph, 0);
                if functions.lasting() {
                    graph.lemma_elements_transitive(executed.eval.graph, after.graph);
                }
                if functions.additive() {
                    graph.lemma_stays_transitive(executed.eval.graph, after.graph);
                    if ended is Ok {
                        graph.lemma_within_transitive(executed.eval.graph, after.graph);
                    }
                }
            }
        }
    }

    /// While the stanzas are executed nothing is built but new nodes: an error in a stanza leaves
    /// the graph that was given as it was, but for new nodes and newly known syntax nodes, as long
    /// as the functions leave the graph alone, and nothing has been printed.
    pub proof fn lemma_failed_stanza(
        self,
        cx: Surroundings,
        matches: Seq<MatchModel>,
        eval: EvaluationState,
    )
        requires
            eval.valid(),
        ensures
            ({
                let start = ExecutionState {
                    eval,
                    locals: seq![Map::empty()],
                    lazy_graph: Seq::empty(),
                };
                let executed = start.execute_matches(cx, self.stanzas@, matches, 0).1;
                &&& executed.eval.printed == eval.printed
                &&& eval.functions.quiet() ==> eval.graph.gains_nodes_to(executed.eval.graph)
            }),
    {
        let start = ExecutionState { eval, locals: seq![Map::empty()], lazy_graph: Seq::empty() };
        assert(start.valid());
        start.lemma_matches_keep(cx, self.stanzas@, matches, 0);
    }

    /// If a global variable is missing or is not a list where it should be, nothing is done:
    /// nothing is built or printed, no function is called, and the cancellation flag is not
    /// checked.
    pub proof fn lemma_bad_globals(
        self,
        globals: Map<Seq<char>, ValueModel>,
        location_attr: Option<Seq<char>>,
        variable_name_attr: Option<Seq<char>>,
        matches: Seq<MatchModel>,
        eval: EvaluationState,
    )
        requires
            crate::lazy::execution::checked_globals(self.globals@, 0, globals) is Err,
        ensures
            self.ending(globals, location_attr, variable_name_attr, matches, eval) == Ending::of(
                Err(crate::lazy::execution::checked_globals(self.globals@, 0, globals)->Err_0),
                eval,
            ),
    {
    }

    /// Without matches nothing is done: nothing is built or printed, no function is called, and the
    /// cancellation flag is not checked.
    pub proof fn lemma_no_matches(
        self,
        globals: Map<Seq<char>, ValueModel>,
        location_attr: Option<Seq<char>>,
        variable_name_attr: Option<Seq<char>>,
        eval: EvaluationState,
    )
        requires
            crate::lazy::execution::checked_globals(self.globals@, 0, globals) is Ok,
        ensures
            self.ending(globals, location_attr, variable_name_attr, Seq::empty(), eval)
                == Ending::of(Ok(()), eval),
    {
    }

    /// If the flag says to stop before the first match, that is the result; the flag has been
    /// checked once, and nothing else has been done.
    pub proof fn lemma_cancelled_match(
        self,
        globals: Map<Seq<char>, ValueModel>,
        location_attr: Option<Seq<char>>,
        variable_name_attr: Option<Seq<char>>,
        matches: Seq<MatchModel>,
        eval: EvaluationState,
        place: Seq<char>,
    )
        requires
            crate::lazy::execution::checked_globals(self.globals@, 0, globals) is Ok,
            matches.len() > 0,
            eval.cancellation_flag.next("processing matches"@) == Some(place),
        ensures
            self.ending(globals, location_attr, variable_name_attr, matches, eval) == Ending::of(
                Err(ErrorModel::Cancelled(place)),
                EvaluationState { cancellation_flag: eval.cancellation_flag.rest(), ..eval },
            ),
    {
    }
}

impl File {
    /// If the query matches nowhere in the tree, nothing is done: nothing is built or printed, no
    /// function is called, and the cancellation flag is not checked.
    pub proof fn lemma_no_match_in_tree(
        self,
        globals: Map<Seq<char>, ValueModel>,
        location_attr: Option<Seq<char>>,
        variable_name_attr: Option<Seq<char>>,
        tree: tree_sitter::Tree,
        eval: EvaluationState,
        ending: Ending,
    )
        requires
            self.searches(globals),
            self.ends_with(globals, location_attr, variable_name_attr, tree, eval, ending),
            crate::matching::query_shapes(self.query->Some_0, tree, eval.source).len() == 0,
        ensures
            ending == Ending::of(Ok(()), eval),
    {
    }

    /// If the query matches somewhere in the tree, and the flag says to stop before the first
    /// match, that is the result; the flag has been checked once, and nothing else has been done.
    pub proof fn lemma_cancelled_in_tree(
        self,
        globals: Map<Seq<char>, ValueModel>,
        location_attr: Option<Seq<char>>,
        variable_name_attr: Option<Seq<char>>,
        tree: tree_sitter::Tree,
        eval: EvaluationState,
        ending: Ending,
        place: Seq<char>,
    )
        requires
            self.searches(globals),
            self.ends_with(globals, location_attr, variable_name_attr, tree, eval, ending),
            crate::matching::query_shapes(self.query->Some_0, tree, eval.source).len() > 0,
            eval.cancellation_flag.next("processing matches"@) == Some(place),
        ensures
            ending == Ending::of(
                Err(ErrorModel::Cancelled(place)),
                EvaluationState { cancellation_flag: eval.cancellation_flag.rest(), ..eval },
            ),
    {
    }

    /// A program that is executed against a tree adds to the graph that it is given, as it does for
    /// matches that are given: whatever the result is, all nodes and edges of that graph are still
    /// there, under the same numbers, as long as the functions take none out.
    pub proof fn lemma_tree_extends_graph(
        self,
        globals: Map<Seq<char>, ValueModel>,
        location_attr: Option<Seq<char>>,
        variable_name_attr: Option<Seq<char>>,
        tree: tree_sitter::Tree,
        source: Seq<char>,
        graph: GraphModel,
        functions: Outcomes,
        printed: Seq<char>,
        cancellation_flag: Answers,
        ending: Ending,
    )
        requires
            self.ends_with(
                globals,
                location_attr,
                variable_name_attr,
                tree,
                crate::lazy::execution::initial_state(
                    source,
                    graph,
                    functions,
                    printed,
                    cancellation_flag,
                ),
                ending,
            ),
        ensures
            printed.is_prefix_of(ending.printed),
            functions.lasting() ==> graph.elements_in(ending.graph),
            functions.additive() ==> graph.stays_in(ending.graph),
            functions.additive() && ending.result is Ok ==> graph.within(ending.graph),
    {
        let eval = crate::lazy::execution::initial_state(
            source,
            graph,
            functions,
            printed,
            cancellation_flag,
        );
        graph.lemma_gains_within(graph);
        graph.lemma_within_stays(graph);
        if self.searches(globals) {
            let query = self.query->Some_0;
            let matches = choose|matches: Seq<MatchModel>|
                {
                    &&& #[trigger] crate::matching::shapes(matches)
                        == crate::matching::query_shapes(query, tree, eval.source)
                    &&& crate::matching::same_nodes(
                        matches,
                        crate::matching::query_nodes(query, tree, eval.source),
                    )
                    &&& ending == self.ending(
                        globals,
                        location_attr,
                        variable_name_attr,
                        matches,
                        eval,
                    )
                };
            self.lemma_run_extends_graph(
                globals,
                location_attr,
                variable_name_attr,
                matches,
                source,
                graph,
                functions,
                printed,
                cancellation_flag,
            );
        }
    }
}

impl EvaluationState {
    /// An edge that has been added is there, and adding it again is an error that tells both places
    /// and leaves the graph as it is.
    pub proof fn lemma_edge_twice(
        self,
        source: GraphNodeRef,
        sink: GraphNodeRef,
        first: Location,
        second: Location,
    )
        requires
            self.add_edge(source, sink, first).0 is Ok,
        ensures
            ({
                let after = self.add_edge(source, sink, first).1;
                let (again, end) = after.add_edge(source, sink, second);
                &&& after.graph.at(source).outgoing_edges.contains_key(sink.index)
                &&& again == Err::<(), ErrorModel>(
                    ErrorModel::DuplicateEdge(
                        crate::lazy::statements::edge_shown(source, sink) + " at "@
                            + crate::lazy::statements::places_shown(Some(first), second),
                    ),
                )
                &&& end.graph == after.graph
            }),
    {
    }

    /// An attribute that has been set has its value, and setting it again is an error that tells
    /// both places.
    pub proof fn lemma_attribute_twice(
        self,
        node: GraphNodeRef,
        name: Seq<char>,
        value: ValueModel,
        other: ValueModel,
        first: Location,
        second: Location,
    )
        requires
            self.set_attribute(node, name, value, first).0 is Ok,
        ensures
            ({
                let after = self.set_attribute(node, name, value, first).1;
                let (again, _) = after.set_attribute(node, name, other, second);
                &&& after.graph.at(node).attributes.contains_key(name)
                &&& after.graph.at(node).attributes[name] == value
                &&& again == Err::<(), ErrorModel>(
                    ErrorModel::DuplicateAttribute(
                        name + " on "@ + node.shown() + " at "@
                            + crate::lazy::statements::places_shown(Some(first), second),
                    ),
                )
            }),
    {
    }
}

impl EvaluationState {
    /// The same holds of the attributes of an edge.
    pub proof fn lemma_edge_attribute_twice(
        self,
        source: GraphNodeRef,
        sink: GraphNodeRef,
        name: Seq<char>,
        value: ValueModel,
        other: ValueModel,
        first: Location,
        second: Location,
    )
        requires
            self.set_edge_attribute(source, sink, name, value, first).0 is Ok,
        ensures
            ({
                let after = self.set_edge_attribute(source, sink, name, value, first).1;
                let (again, _) = after.set_edge_attribute(source, sink, name, other, second);
                let edges = after.graph.at(source).outgoing_edges;
                &&& edges.contains_key(sink.index)
                &&& edges[sink.index].contains_key(name)
                &&& edges[sink.index][name] == value
                &&& again == Err::<(), ErrorModel>(
                    ErrorModel::DuplicateAttribute(
                        name + " on edge "@ + crate::lazy::statements::edge_shown(source, sink)
                            + " at "@ + crate::lazy::statements::places_shown(
                            Some(first),
                            second,
                        ),
                    ),
                )
            }),
    {
    }
}

/// An edge is shown by its source and then its sink, and two places by the first and then the
/// second. If nothing is known of the first, only the second is shown.
pub proof fn lemma_edge_and_places_shown(
    source: GraphNodeRef,
    sink: GraphNodeRef,
    first: Location,
    second: Location,
)
    ensures
        crate::lazy::statements::edge_shown(source, sink) == "("@ + source.shown() + " -> "@
            + sink.shown() + ")"@,
        crate::lazy::statements::places_shown(Some(first), second) == first.shown() + " and "@
            + second.shown(),
        crate::lazy::statements::places_shown(None, second) == second.shown(),
{
}

} // verus!
