//! Laws of what lazy values and the statements of the lazy graph come to.

use vstd::prelude::*;

use crate::cancellation::Answers;
use crate::error::ErrorModel;
use crate::functions::Request;
use crate::lazy::evaluation::EvaluationState;
use crate::lazy::statements::AttributeModel;
use crate::lazy::statements::LazyStatementModel;
use crate::lazy::statements::PrintModel;
use crate::lazy::values::LazyModel;
use crate::location::Location;
use crate::values::GraphNodeRef;
use crate::values::SyntaxNodeModel;
use crate::values::ValueModel;

verus! {

impl Answers {
    /// Whether the execution is never stopped.
    pub open spec fn never_stops(self) -> bool {
        forall|n: nat, at: Seq<char>| (#[trigger] (self.of)(n, at)) is None
    }
}

/// The texts, one after the other.
pub open spec fn joined(texts: Seq<Seq<char>>) -> Seq<char>
    decreases texts.len(),
{
    if texts.len() == 0 {
        Seq::empty()
    } else {
        joined(texts.drop_last()) + texts.last()
    }
}

impl EvaluationState {
    /// A value is itself, and evaluating it changes nothing but that the flag has been checked.
    pub proof fn lemma_value_result(self, value: ValueModel)
        requires
            self.cancellation_flag.next("evaluating value"@) is None,
        ensures
            self.evaluate(LazyModel::Value(value)).0 == Ok::<ValueModel, ErrorModel>(value),
            self.evaluate(LazyModel::Value(value)).1 == (EvaluationState {
                cancellation_flag: self.cancellation_flag.rest(),
                ..self
            }),
    {
    }

    /// The state after the first `k` of the values have been evaluated, one after the other.
    pub open spec fn after_values(self, values: Seq<LazyModel>, k: int) -> EvaluationState
        decreases k,
    {
        if k <= 0 {
            self
        } else {
            self.after_values(values, k - 1).evaluate(values[k - 1]).1
        }
    }

    /// What the value at position `k` evaluates to, when the values are evaluated one after the
    /// other.
    pub open spec fn value_at(self, values: Seq<LazyModel>, k: int) -> Result<
        ValueModel,
        ErrorModel,
    > {
        self.after_values(values, k).evaluate(values[k]).0
    }

    /// Evaluating values one after the other leads to valid states.
    proof fn lemma_after_values(self, values: Seq<LazyModel>, k: int)
        requires
            self.valid(),
            forall|j: int| 0 <= j < values.len() ==> (#[trigger] values[j]).below(self.store.len()),
            k <= values.len(),
        ensures
            self.progresses_to(self.after_values(values, k)),
        decreases k,
    {
        if k > 0 {
            self.lemma_after_values(values, k - 1);
            let before = self.after_values(values, k - 1);
            before.lemma_evaluate_progress(values[k - 1]);
            self.lemma_progress_transitive(before, self.after_values(values, k));
        }
    }

    /// As long as values can be evaluated, evaluation goes on.
    proof fn lemma_evaluate_all_from(
        self,
        values: Seq<LazyModel>,
        done: Seq<ValueModel>,
    )
        requires
            self.valid(),
            forall|j: int| 0 <= j < values.len() ==> (#[trigger] values[j]).below(self.store.len()),
            done.len() <= values.len(),
            forall|j: int|
                0 <= j < done.len() ==> #[trigger] self.value_at(values, j) == Ok::<
                    ValueModel,
                    ErrorModel,
                >(done[j]),
        ensures
            ({
                let n = done.len() as int;
                let (result, end) = self.after_values(values, n).evaluate_all(values, n, done);
                match result {
                    Ok(all) => {
                        &&& all.len() == values.len()
                        &&& forall|j: int|
                            0 <= j < values.len() ==> #[trigger] self.value_at(values, j) == Ok::<
                                ValueModel,
                                ErrorModel,
                            >(all[j])
                        &&& end == self.after_values(values, values.len() as int)
                    },
                    Err(e) => exists|k: int|
                        {
                            &&& n <= k < values.len()
                            &&& #[trigger] self.value_at(values, k) == Err::<
                                ValueModel,
                                ErrorModel,
                            >(e)
                            &&& forall|j: int|
                                0 <= j < k ==> (#[trigger] self.value_at(values, j)) is Ok
                            &&& end == self.after_values(values, k + 1)
                        },
                }
            }),
        decreases values.len() - done.len(),
    {
        let n = done.len() as int;
        let before = self.after_values(values, n);
        if n < values.len() {
            self.lemma_after_values(values, n);
            before.lemma_evaluate_progress(values[n]);
            let (result, after) = before.evaluate(values[n]);
            assert(self.value_at(values, n) == result);
            assert(after == self.after_values(values, n + 1));
            if let Ok(value) = result {
                let more = done.push(value);
                assert forall|j: int| 0 <= j < more.len() implies #[trigger] self.value_at(
                    values,
                    j,
                ) == Ok::<ValueModel, ErrorModel>(more[j]) by {
                    if j < n {
                        assert(more[j] == done[j]);
                    }
                }
                self.lemma_evaluate_all_from(values, more);
            }
        }
    }

    /// Whether `results` are what the values evaluate to, in order, and `end` is the state after
    /// that.
    pub open spec fn values_come_to(
        self,
        values: Seq<LazyModel>,
        results: Seq<ValueModel>,
        end: EvaluationState,
    ) -> bool {
        &&& results.len() == values.len()
        &&& forall|j: int|
            0 <= j < values.len() ==> #[trigger] self.value_at(values, j) == Ok::<
                ValueModel,
                ErrorModel,
            >(results[j])
        &&& end == self.after_values(values, values.len() as int)
    }

    /// Whether `error` is the error in the first of the values that cannot be evaluated, and `end`
    /// is the state after that.
    pub open spec fn values_fail_with(
        self,
        values: Seq<LazyModel>,
        error: ErrorModel,
        end: EvaluationState,
    ) -> bool {
        exists|k: int|
            {
                &&& 0 <= k < values.len()
                &&& #[trigger] self.value_at(values, k) == Err::<ValueModel, ErrorModel>(error)
                &&& forall|j: int| 0 <= j < k ==> (#[trigger] self.value_at(values, j)) is Ok
                &&& end == self.after_values(values, k + 1)
            }
    }

    /// A list comes to the list of what its elements come to, each at its own place, evaluated one
    /// after the other; or to the first error.
    pub proof fn lemma_list_result(self, values: Seq<LazyModel>)
        requires
            self.valid(),
            LazyModel::List(values).below(self.store.len()),
            self.cancellation_flag.next("evaluating value"@) is None,
        ensures
            ({
                let start = self.check("evaluating value"@).1;
                let (result, end) = self.evaluate(LazyModel::List(values));
                match result {
                    Ok(value) => value is List && start.values_come_to(
                        values,
                        value->List_0,
                        end,
                    ),
                    Err(e) => start.values_fail_with(values, e, end),
                }
            }),
    {
        let start = self.check("evaluating value"@).1;
        self.lemma_check_progress("evaluating value"@);
        start.lemma_evaluate_all_from(values, Seq::empty());
    }

    /// A set comes to the set of what its elements come to: each of these is in it, nothing else
    /// is, and they are in ascending order; or to the first error.
    pub proof fn lemma_set_result(self, values: Seq<LazyModel>)
        requires
            self.valid(),
            LazyModel::LazySet(values).below(self.store.len()),
            self.cancellation_flag.next("evaluating value"@) is None,
        ensures
            ({
                let start = self.check("evaluating value"@).1;
                let (result, end) = self.evaluate(LazyModel::LazySet(values));
                match result {
                    Ok(value) => {
                        &&& value is ValueSet
                        &&& ValueModel::ascending(value->ValueSet_0)
                        &&& end == start.after_values(values, values.len() as int)
                        &&& forall|k: int|
                            0 <= k < values.len() ==> (#[trigger] start.value_at(
                                values,
                                k,
                            ) matches Ok(element) && value->ValueSet_0.contains(element))
                        &&& forall|element: ValueModel| #[trigger]
                            value->ValueSet_0.contains(element) ==> exists|k: int|
                                0 <= k < values.len() && #[trigger] start.value_at(values, k)
                                    == Ok::<ValueModel, ErrorModel>(element)
                    },
                    Err(e) => start.values_fail_with(values, e, end),
                }
            }),
    {
        let start = self.check("evaluating value"@).1;
        self.lemma_check_progress("evaluating value"@);
        start.lemma_evaluate_all_from(values, Seq::empty());
        let (results, end) = start.evaluate_all(values, 0, Seq::empty());
        if let Ok(all) = results {
            ValueModel::lemma_set_of(all, all.len() as int);
            assert(all.take(all.len() as int) =~= all);
            let set = ValueModel::set_of(all, all.len() as int);
            assert forall|k: int| 0 <= k < values.len() implies (#[trigger] start.value_at(
                values,
                k,
            ) matches Ok(element) && set.contains(element)) by {
                assert(all.contains(all[k]));
            }
            assert forall|element: ValueModel| #[trigger] set.contains(element) implies exists|
                k: int,
            |
                0 <= k < values.len() && #[trigger] start.value_at(values, k) == Ok::<
                    ValueModel,
                    ErrorModel,
                >(element) by {
                let k = all.index_of(element);
                assert(all.contains(element));
                assert(start.value_at(values, k) == Ok::<ValueModel, ErrorModel>(all[k]));
            }
        }
    }

    /// A call hands the function what its arguments come to, in order, with the source text and the
    /// graph as the arguments left it. It comes to what the function returns, and the graph to what
    /// the function makes of it. If an argument cannot be evaluated, nothing is called.
    pub proof fn lemma_call_result(self, function: Seq<char>, arguments: Seq<LazyModel>)
        requires
            self.valid(),
            LazyModel::Call(function, arguments).below(self.store.len()),
            self.cancellation_flag.next("evaluating value"@) is None,
        ensures
            ({
                let start = self.check("evaluating value"@).1;
                let (result, end) = self.evaluate(LazyModel::Call(function, arguments));
                let ready = start.after_values(arguments, arguments.len() as int);
                ||| exists|results: Seq<ValueModel>|
                    {
                        &&& #[trigger] start.values_come_to(arguments, results, ready)
                        &&& ({
                            let request = Request {
                                function,
                                arguments: results,
                                source: self.source,
                                graph: ready.graph,
                            };
                            &&& result == (ready.functions.of)(ready.functions.called, request).0
                            &&& end.graph == (ready.functions.of)(
                                ready.functions.called,
                                request,
                            ).1
                            &&& end.functions.called == ready.functions.called + 1
                            &&& end == (EvaluationState {
                                graph: end.graph,
                                functions: end.functions,
                                ..ready
                            })
                        })
                    }
                ||| result matches Err(e) && start.values_fail_with(arguments, e, end)
            }),
    {
        let start = self.check("evaluating value"@).1;
        self.lemma_check_progress("evaluating value"@);
        start.lemma_evaluate_all_from(arguments, Seq::empty());
        let (results, ready) = start.evaluate_all(arguments, 0, Seq::empty());
        if let Ok(all) = results {
            start.lemma_after_values(arguments, arguments.len() as int);
            assert(start.values_come_to(arguments, all, ready));
        }
    }

    /// What plain values come to, one after the other.
    proof fn lemma_plain_values(self, values: Seq<ValueModel>, k: int)
        requires
            self.cancellation_flag.never_stops(),
            k <= values.len(),
        ensures
            ({
                let plain = Seq::new(values.len(), |i: int| LazyModel::Value(values[i]));
                let after = self.after_values(plain, k);
                &&& after.cancellation_flag.never_stops()
                &&& after == (EvaluationState {
                    cancellation_flag: after.cancellation_flag,
                    ..self
                })
            }),
        decreases k,
    {
        if k > 0 {
            self.lemma_plain_values(values, k - 1);
        }
    }

    /// A list of plain values comes to just these, in their order.
    pub proof fn lemma_plain_list(self, values: Seq<ValueModel>)
        requires
            self.valid(),
            self.cancellation_flag.never_stops(),
        ensures
            self.evaluate(
                LazyModel::List(Seq::new(values.len(), |i: int| LazyModel::Value(values[i]))),
            ).0 == Ok::<ValueModel, ErrorModel>(ValueModel::List(values)),
    {
        let plain = Seq::new(values.len(), |i: int| LazyModel::Value(values[i]));
        let start = self.check("evaluating value"@).1;
        assert forall|k: int| 0 <= k < plain.len() implies (#[trigger] plain[k]).below(
            self.store.len(),
        ) by {
            assert(plain[k] == LazyModel::Value(values[k]));
        }
        assert(LazyModel::List(plain).below(self.store.len()));
        self.lemma_list_result(plain);
        assert forall|k: int| 0 <= k < values.len() implies #[trigger] start.value_at(plain, k)
            == Ok::<ValueModel, ErrorModel>(values[k]) by {
            start.lemma_plain_values(values, k);
            assert(plain[k] == LazyModel::Value(values[k]));
        }
        let result = self.evaluate(LazyModel::List(plain)).0;
        if let Ok(value) = result {
            let found = value->List_0;
            assert forall|k: int| 0 <= k < values.len() implies found[k] == values[k] by {
                assert(start.value_at(plain, k) == Ok::<ValueModel, ErrorModel>(values[k]));
            }
            assert(found =~= values);
        } else {
            let error = result->Err_0;
            let k = choose|k: int|
                0 <= k < plain.len() && #[trigger] start.value_at(plain, k) == Err::<
                    ValueModel,
                    ErrorModel,
                >(error);
            assert(start.value_at(plain, k) is Ok);
        }
    }

    /// A variable of a syntax node comes to what the value that is found for it comes to. What its
    /// scope comes to must be a syntax node.
    pub proof fn lemma_scoped_variable_result(
        self,
        scope: LazyModel,
        name: Seq<char>,
        node: SyntaxNodeModel,
    )
        requires
            self.valid(),
            scope.below(self.store.len()),
            self.cancellation_flag.next("evaluating value"@) is None,
        ensures
            ({
                let start = self.check("evaluating value"@).1;
                let (at, ready) = start.evaluate(scope);
                let (result, end) = self.evaluate(
                    LazyModel::ScopedVariable(Box::new(scope), name),
                );
                &&& at == Ok::<ValueModel, ErrorModel>(ValueModel::SyntaxNode(node)) ==> {
                    let (found, after) = ready.evaluate_scoped(node, name);
                    match found {
                        Ok(value) => (result, end) == after.evaluate(value),
                        Err(e) => result == Err::<ValueModel, ErrorModel>(e) && end == after,
                    }
                }
                &&& at matches Ok(value) ==> (!(value is SyntaxNode) ==> result == Err::<
                    ValueModel,
                    ErrorModel,
                >(ErrorModel::ExpectedSyntaxNode("got "@ + value.shown())) && end == ready)
                &&& at matches Err(e) ==> result == Err::<ValueModel, ErrorModel>(e) && end == ready
            }),
    {
        let start = self.check("evaluating value"@).1;
        self.lemma_check_progress("evaluating value"@);
        start.lemma_evaluate_progress(scope);
        let ready = start.evaluate(scope).1;
        ready.lemma_scoped_progress(node, name);
    }
}

impl EvaluationState {
    /// An edge statement that succeeds adds one edge: from the node that its source comes to, to
    /// the one that its sink comes to. The edge has no attributes yet, was not there before, and
    /// nothing else in the graph changes.
    pub proof fn lemma_edge_result(self, source: LazyModel, sink: LazyModel, place: Location)
        requires
            self.valid(),
            source.below(self.store.len()),
            sink.below(self.store.len()),
            self.evaluate_statement(
                LazyStatementModel::CreateEdge { source, sink, debug_info: place },
            ).0 is Ok,
        ensures
            ({
                let start = self.check("evaluating statement"@).1;
                let end = self.evaluate_statement(
                    LazyStatementModel::CreateEdge { source, sink, debug_info: place },
                ).1;
                let (first, middle) = start.evaluate(source);
                let (second, ready) = middle.evaluate(sink);
                &&& first matches Ok(ValueModel::GraphNode(from))
                &&& second matches Ok(ValueModel::GraphNode(to))
                &&& from.index < ready.graph.graph_nodes.len()
                &&& !ready.graph.graph_nodes[from.index as int].outgoing_edges.contains_key(
                    to.index,
                )
                &&& end.graph.graph_nodes.len() == ready.graph.graph_nodes.len()
                &&& forall|i: int, k: usize|
                    0 <= i < ready.graph.graph_nodes.len() ==> (
                    #[trigger] end.graph.graph_nodes[i].outgoing_edges.contains_key(k) <==> (
                    ready.graph.graph_nodes[i].outgoing_edges.contains_key(k) || (i == from.index
                        && k == to.index)))
                &&& end.graph.graph_nodes[from.index as int].outgoing_edges[to.index] == Map::<
                    Seq<char>,
                    ValueModel,
                >::empty()
                &&& forall|i: int, k: usize|
                    0 <= i < ready.graph.graph_nodes.len() && !(i == from.index && k == to.index)
                        ==> #[trigger] end.graph.graph_nodes[i].outgoing_edges[k]
                        == ready.graph.graph_nodes[i].outgoing_edges[k]
                &&& forall|i: int|
                    0 <= i < ready.graph.graph_nodes.len() ==> (
                    #[trigger] end.graph.graph_nodes[i]).attributes
                        == ready.graph.graph_nodes[i].attributes
                &&& end.graph.syntax_nodes == ready.graph.syntax_nodes
                &&& end.printed == self.printed
            }),
    {
        let start = self.check("evaluating statement"@).1;
        self.lemma_check_progress("evaluating statement"@);
        start.lemma_evaluate_progress(source);
        let middle = start.evaluate(source).1;
        middle.lemma_evaluate_progress(sink);
    }

    /// An edge between two nodes can be added if and only if the source is there and the edge is
    /// not there yet.
    pub proof fn lemma_edge_succeeds(self, from: GraphNodeRef, to: GraphNodeRef, place: Location)
        requires
            self.valid(),
            self.cancellation_flag.never_stops(),
        ensures
            self.evaluate_statement(
                LazyStatementModel::CreateEdge {
                    source: LazyModel::Value(ValueModel::GraphNode(from)),
                    sink: LazyModel::Value(ValueModel::GraphNode(to)),
                    debug_info: place,
                },
            ).0 is Ok <==> from.index < self.graph.graph_nodes.len()
                && !self.graph.graph_nodes[from.index as int].outgoing_edges.contains_key(to.index),
    {
    }

    /// The state after the first `k` of the attributes have been set for a node.
    pub open spec fn after_attributes(
        self,
        node: GraphNodeRef,
        attributes: Seq<AttributeModel>,
        k: int,
        place: Location,
    ) -> EvaluationState
        decreases k,
    {
        if k <= 0 {
            self
        } else {
            let before = self.after_attributes(node, attributes, k - 1, place);
            let (value, evaluated) = before.evaluate(attributes[k - 1].value);
            evaluated.set_attribute(node, attributes[k - 1].name, value->Ok_0, place).1
        }
    }

    /// The state after the first `k` of the attributes have been set for an edge.
    pub open spec fn after_edge_attributes(
        self,
        source: GraphNodeRef,
        sink: GraphNodeRef,
        attributes: Seq<AttributeModel>,
        k: int,
        place: Location,
    ) -> EvaluationState
        decreases k,
    {
        if k <= 0 {
            self
        } else {
            let before = self.after_edge_attributes(source, sink, attributes, k - 1, place);
            let (value, evaluated) = before.evaluate(attributes[k - 1].value);
            evaluated.set_edge_attribute(
                source,
                sink,
                attributes[k - 1].name,
                value->Ok_0,
                place,
            ).1
        }
    }

    /// Setting an attribute of a node succeeds if and only if the node is there and has no such
    /// attribute. Then the node has it, with the value, and nothing else in the graph changes.
    pub proof fn lemma_set_attribute_result(
        self,
        node: GraphNodeRef,
        name: Seq<char>,
        value: ValueModel,
        place: Location,
    )
        ensures
            self.set_attribute(node, name, value, place).0 is Ok <==> node.index
                < self.graph.graph_nodes.len()
                && !self.graph.graph_nodes[node.index as int].attributes.contains_key(name),
            self.set_attribute(node, name, value, place).0 is Ok ==> {
                let end = self.set_attribute(node, name, value, place).1;
                let before = self.graph.graph_nodes[node.index as int];
                let after = end.graph.graph_nodes[node.index as int];
                &&& after.attributes.contains_key(name)
                &&& after.attributes[name] == value
                &&& forall|other: Seq<char>|
                    other != name ==> (#[trigger] after.attributes.contains_key(other)
                        <==> before.attributes.contains_key(other)) && (
                    before.attributes.contains_key(other) ==> after.attributes[other]
                        == before.attributes[other])
                &&& after.outgoing_edges == before.outgoing_edges
                &&& end.graph.graph_nodes.len() == self.graph.graph_nodes.len()
                &&& forall|i: int|
                    0 <= i < self.graph.graph_nodes.len() && i != node.index ==> (
                    #[trigger] end.graph.graph_nodes[i]) == self.graph.graph_nodes[i]
                &&& end.graph.syntax_nodes == self.graph.syntax_nodes
                &&& end.store == self.store
                &&& end.scoped_store == self.scoped_store
                &&& end.printed == self.printed
            },
    {
    }

    /// Setting an attribute of an edge succeeds if and only if the edge is there and has no such
    /// attribute. Then the edge has it, with the value, and nothing else in the graph changes.
    pub proof fn lemma_set_edge_attribute_result(
        self,
        source: GraphNodeRef,
        sink: GraphNodeRef,
        name: Seq<char>,
        value: ValueModel,
        place: Location,
    )
        ensures
            self.set_edge_attribute(source, sink, name, value, place).0 is Ok <==> {
                let edges = self.graph.graph_nodes[source.index as int].outgoing_edges;
                &&& source.index < self.graph.graph_nodes.len()
                &&& edges.contains_key(sink.index)
                &&& !edges[sink.index].contains_key(name)
            },
            self.set_edge_attribute(source, sink, name, value, place).0 is Ok ==> {
                let end = self.set_edge_attribute(source, sink, name, value, place).1;
                let before = self.graph.graph_nodes[source.index as int];
                let after = end.graph.graph_nodes[source.index as int];
                &&& after.outgoing_edges.dom() == before.outgoing_edges.dom()
                &&& after.outgoing_edges[sink.index].contains_key(name)
                &&& after.outgoing_edges[sink.index][name] == value
                &&& forall|other: Seq<char>|
                    other != name ==> (
                    #[trigger] after.outgoing_edges[sink.index].contains_key(other)
                        <==> before.outgoing_edges[sink.index].contains_key(other)) && (
                    before.outgoing_edges[sink.index].contains_key(other)
                        ==> after.outgoing_edges[sink.index][other]
                        == before.outgoing_edges[sink.index][other])
                &&& forall|k: usize|
                    k != sink.index ==> #[trigger] after.outgoing_edges[k]
                        == before.outgoing_edges[k]
                &&& after.attributes == before.attributes
                &&& end.graph.graph_nodes.len() == self.graph.graph_nodes.len()
                &&& forall|i: int|
                    0 <= i < self.graph.graph_nodes.len() && i != source.index ==> (
                    #[trigger] end.graph.graph_nodes[i]) == self.graph.graph_nodes[i]
                &&& end.graph.syntax_nodes == self.graph.syntax_nodes
                &&& end.store == self.store
                &&& end.scoped_store == self.scoped_store
                &&& end.printed == self.printed
            },
    {
        if self.set_edge_attribute(source, sink, name, value, place).0 is Ok {
            let end = self.set_edge_attribute(source, sink, name, value, place).1;
            assert(end.graph.graph_nodes[source.index as int].outgoing_edges.dom()
                =~= self.graph.graph_nodes[source.index as int].outgoing_edges.dom());
        }
    }

    /// Setting attributes of a node that succeeds goes through the states one by one.
    proof fn lemma_attributes_from(
        self,
        node: GraphNodeRef,
        attributes: Seq<AttributeModel>,
        n: int,
        place: Location,
    )
        requires
            self.valid(),
            crate::lazy::statements::attributes_below(attributes, self.store.len()),
            0 <= n <= attributes.len(),
            self.builds(Ok(()), self.after_attributes(node, attributes, n, place)),
            self.after_attributes(node, attributes, n, place).set_attributes(
                node,
                attributes,
                n,
                place,
            ).0 is Ok,
        ensures
            self.after_attributes(node, attributes, n, place).set_attributes(
                node,
                attributes,
                n,
                place,
            ).1 == self.after_attributes(node, attributes, attributes.len() as int, place),
            forall|k: int|
                n <= k < attributes.len() ==> {
                    let before = #[trigger] self.after_attributes(node, attributes, k, place);
                    let end = self.after_attributes(
                        node,
                        attributes,
                        attributes.len() as int,
                        place,
                    );
                    let (value, evaluated) = before.evaluate(attributes[k].value);
                    let after = self.after_attributes(node, attributes, k + 1, place);
                    &&& self.builds(Ok(()), before)
                    &&& value is Ok
                    &&& node.index < evaluated.graph.graph_nodes.len()
                    &&& after.graph.graph_nodes[node.index as int].attributes.contains_key(
                        attributes[k].name,
                    )
                    &&& after.graph.graph_nodes[node.index as int].attributes[attributes[k].name]
                        == value->Ok_0
                    &&& after.builds(Ok(()), end)
                    &&& node.index < after.graph.graph_nodes.len()
                },
            self.builds(
                Ok(()),
                self.after_attributes(node, attributes, attributes.len() as int, place),
            ),
        decreases attributes.len() - n,
    {
        if n < attributes.len() {
            let before = self.after_attributes(node, attributes, n, place);
            before.lemma_evaluate_progress(attributes[n].value);
            let (value, evaluated) = before.evaluate(attributes[n].value);
            before.lemma_progress_builds(evaluated);
            let name = attributes[n].name;
            evaluated.lemma_set_attribute_builds(node, name, value->Ok_0, place);
            let after = self.after_attributes(node, attributes, n + 1, place);
            assert(after == evaluated.set_attribute(node, name, value->Ok_0, place).1);
            before.lemma_builds_transitive(evaluated, Ok(()), after);
            self.lemma_builds_transitive(before, Ok(()), after);
            self.lemma_attributes_from(node, attributes, n + 1, place);
            after.lemma_set_attributes_builds(node, attributes, n + 1, place);
        } else {
            let end = self.after_attributes(node, attributes, n, place);
            assert(end.graph.stays_in(end.graph) && end.graph.within(end.graph));
        }
    }

    /// An attr statement on a node that succeeds sets each of its attributes to what its own value
    /// comes to, evaluated one after the other. They all stay set if the functions only add to the
    /// graph.
    pub proof fn lemma_node_attributes_result(
        self,
        node: LazyModel,
        attributes: Seq<AttributeModel>,
        place: Location,
        k: int,
    )
        requires
            self.valid(),
            node.below(self.store.len()),
            crate::lazy::statements::attributes_below(attributes, self.store.len()),
            0 <= k < attributes.len(),
            self.functions.additive(),
            self.evaluate_statement(
                LazyStatementModel::AddGraphNodeAttribute { node, attributes, debug_info: place },
            ).0 is Ok,
        ensures
            ({
                let end = self.evaluate_statement(
                    LazyStatementModel::AddGraphNodeAttribute {
                        node,
                        attributes,
                        debug_info: place,
                    },
                ).1;
                let (at, start) = self.check("evaluating statement"@).1.evaluate(node);
                &&& at matches Ok(ValueModel::GraphNode(a))
                &&& a.index < end.graph.graph_nodes.len()
                &&& end.graph.graph_nodes[a.index as int].attributes.contains_key(
                    attributes[k].name,
                )
                &&& Ok::<ValueModel, ErrorModel>(
                    end.graph.graph_nodes[a.index as int].attributes[attributes[k].name],
                ) == start.after_attributes(a, attributes, k, place).evaluate(
                    attributes[k].value,
                ).0
            }),
    {
        let checked = self.check("evaluating statement"@).1;
        self.lemma_check_progress("evaluating statement"@);
        checked.lemma_evaluate_progress(node);
        let (at, start) = checked.evaluate(node);
        checked.lemma_progress_builds(start);
        let a = at->Ok_0->GraphNode_0;
        assert(start.graph.stays_in(start.graph) && start.graph.within(start.graph));
        assert(start.builds(Ok(()), start.after_attributes(a, attributes, 0, place)));
        start.lemma_attributes_from(a, attributes, 0, place);
        let before = start.after_attributes(a, attributes, k, place);
        let after = start.after_attributes(a, attributes, k + 1, place);
        let end = start.after_attributes(a, attributes, attributes.len() as int, place);
        assert(after.builds(Ok(()), end));
        assert(after.functions.additive());
        assert(after.graph.graph_nodes[a.index as int].within(end.graph.graph_nodes[a.index as int]));
    }

    /// Setting attributes of an edge that succeeds goes through the states one by one.
    proof fn lemma_edge_attributes_from(
        self,
        source: GraphNodeRef,
        sink: GraphNodeRef,
        attributes: Seq<AttributeModel>,
        n: int,
        place: Location,
    )
        requires
            self.valid(),
            crate::lazy::statements::attributes_below(attributes, self.store.len()),
            0 <= n <= attributes.len(),
            self.builds(Ok(()), self.after_edge_attributes(source, sink, attributes, n, place)),
            self.after_edge_attributes(source, sink, attributes, n, place).set_edge_attributes(
                source,
                sink,
                attributes,
                n,
                place,
            ).0 is Ok,
        ensures
            self.after_edge_attributes(source, sink, attributes, n, place).set_edge_attributes(
                source,
                sink,
                attributes,
                n,
                place,
            ).1 == self.after_edge_attributes(
                source,
                sink,
                attributes,
                attributes.len() as int,
                place,
            ),
            forall|k: int|
                n <= k < attributes.len() ==> {
                    let before = #[trigger] self.after_edge_attributes(
                        source,
                        sink,
                        attributes,
                        k,
                        place,
                    );
                    let end = self.after_edge_attributes(
                        source,
                        sink,
                        attributes,
                        attributes.len() as int,
                        place,
                    );
                    let (value, evaluated) = before.evaluate(attributes[k].value);
                    let after = self.after_edge_attributes(
                        source,
                        sink,
                        attributes,
                        k + 1,
                        place,
                    );
                    let edges = after.graph.graph_nodes[source.index as int].outgoing_edges;
                    &&& self.builds(Ok(()), before)
                    &&& value is Ok
                    &&& edges.contains_key(sink.index)
                    &&& edges[sink.index].contains_key(attributes[k].name)
                    &&& edges[sink.index][attributes[k].name] == value->Ok_0
                    &&& after.builds(Ok(()), end)
                    &&& source.index < after.graph.graph_nodes.len()
                },
            self.builds(
                Ok(()),
                self.after_edge_attributes(
                    source,
                    sink,
                    attributes,
                    attributes.len() as int,
                    place,
                ),
            ),
        decreases attributes.len() - n,
    {
        if n < attributes.len() {
            let before = self.after_edge_attributes(source, sink, attributes, n, place);
            before.lemma_evaluate_progress(attributes[n].value);
            let (value, evaluated) = before.evaluate(attributes[n].value);
            before.lemma_progress_builds(evaluated);
            let name = attributes[n].name;
            evaluated.lemma_set_edge_attribute_builds(source, sink, name, value->Ok_0, place);
            let after = self.after_edge_attributes(source, sink, attributes, n + 1, place);
            assert(after == evaluated.set_edge_attribute(
                source,
                sink,
                name,
                value->Ok_0,
                place,
            ).1);
            before.lemma_builds_transitive(evaluated, Ok(()), after);
            self.lemma_builds_transitive(before, Ok(()), after);
            self.lemma_edge_attributes_from(source, sink, attributes, n + 1, place);
            after.lemma_set_edge_attributes_builds(source, sink, attributes, n + 1, place);
        } else {
            let end = self.after_edge_attributes(source, sink, attributes, n, place);
            assert(end.graph.stays_in(end.graph) && end.graph.within(end.graph));
        }
    }

    /// An attr statement on an edge that succeeds sets each of its attributes to what its own value
    /// comes to, evaluated one after the other. They all stay set if the functions only add to the
    /// graph.
    pub proof fn lemma_edge_attributes_result(
        self,
        source: LazyModel,
        sink: LazyModel,
        attributes: Seq<AttributeModel>,
        place: Location,
        k: int,
    )
        requires
            self.valid(),
            source.below(self.store.len()),
            sink.below(self.store.len()),
            crate::lazy::statements::attributes_below(attributes, self.store.len()),
            0 <= k < attributes.len(),
            self.functions.additive(),
            self.evaluate_statement(
                LazyStatementModel::AddEdgeAttribute {
                    source,
                    sink,
                    attributes,
                    debug_info: place,
                },
            ).0 is Ok,
        ensures
            ({
                let end = self.evaluate_statement(
                    LazyStatementModel::AddEdgeAttribute {
                        source,
                        sink,
                        attributes,
                        debug_info: place,
                    },
                ).1;
                let (first, middle) = self.check("evaluating statement"@).1.evaluate(source);
                let (second, start) = middle.evaluate(sink);
                &&& first matches Ok(ValueModel::GraphNode(from))
                &&& second matches Ok(ValueModel::GraphNode(to))
                &&& from.index < end.graph.graph_nodes.len()
                &&& end.graph.graph_nodes[from.index as int].outgoing_edges.contains_key(to.index)
                &&& end.graph.graph_nodes[from.index as int].outgoing_edges[to.index].contains_key(
                    attributes[k].name,
                )
                &&& Ok::<ValueModel, ErrorModel>(
                    end.graph.graph_nodes[from.index as int].outgoing_edges[to.index][attributes[k].name],
                ) == start.after_edge_attributes(from, to, attributes, k, place).evaluate(
                    attributes[k].value,
                ).0
            }),
    {
        let checked = self.check("evaluating statement"@).1;
        self.lemma_check_progress("evaluating statement"@);
        checked.lemma_evaluate_progress(source);
        let (first, middle) = checked.evaluate(source);
        middle.lemma_evaluate_progress(sink);
        let (second, start) = middle.evaluate(sink);
        checked.lemma_progress_transitive(middle, start);
        checked.lemma_progress_builds(start);
        let from = first->Ok_0->GraphNode_0;
        let to = second->Ok_0->GraphNode_0;
        assert(start.graph.stays_in(start.graph) && start.graph.within(start.graph));
        assert(start.builds(Ok(()), start.after_edge_attributes(from, to, attributes, 0, place)));
        start.lemma_edge_attributes_from(from, to, attributes, 0, place);
        let before = start.after_edge_attributes(from, to, attributes, k, place);
        let after = start.after_edge_attributes(from, to, attributes, k + 1, place);
        let end = start.after_edge_attributes(
            from,
            to,
            attributes,
            attributes.len() as int,
            place,
        );
        assert(after.builds(Ok(()), end));
        assert(after.functions.additive());
        let a = after.graph.graph_nodes[from.index as int];
        let b = end.graph.graph_nodes[from.index as int];
        assert(a.within(b));
        assert(a.outgoing_edges.contains_key(to.index));
        assert(a.outgoing_edges[to.index].contains_key(attributes[k].name));
    }

    /// Setting attributes of a node to plain values gives each the value that is written for it;
    /// all other attributes stay, and so does everything else in the graph.
    pub proof fn lemma_plain_attributes(
        self,
        node: GraphNodeRef,
        attributes: Seq<AttributeModel>,
        i: int,
        place: Location,
    )
        requires
            0 <= i <= attributes.len(),
            node.index < self.graph.graph_nodes.len(),
            forall|k: int| i <= k < attributes.len() ==> (#[trigger] attributes[k]).value is Value,
            self.set_attributes(node, attributes, i, place).0 is Ok,
        ensures
            ({
                let end = self.set_attributes(node, attributes, i, place).1;
                let before = self.graph.graph_nodes[node.index as int];
                let after = end.graph.graph_nodes[node.index as int];
                &&& end.graph.graph_nodes.len() == self.graph.graph_nodes.len()
                &&& before.attributes.submap_of(after.attributes)
                &&& forall|k: int|
                    i <= k < attributes.len() ==> after.attributes.contains_key(
                        (#[trigger] attributes[k]).name,
                    ) && after.attributes[attributes[k].name] == attributes[k].value->Value_0
                &&& forall|name: Seq<char>| #[trigger]
                    after.attributes.contains_key(name) ==> before.attributes.contains_key(name)
                        || exists|k: int|
                        i <= k < attributes.len() && (#[trigger] attributes[k]).name == name
                &&& after.outgoing_edges == before.outgoing_edges
                &&& forall|j: int|
                    0 <= j < self.graph.graph_nodes.len() && j != node.index ==> (
                    #[trigger] end.graph.graph_nodes[j]) == self.graph.graph_nodes[j]
            }),
        decreases attributes.len() - i,
    {
        if i < attributes.len() {
            let value = attributes[i].value->Value_0;
            assert(attributes[i].value == LazyModel::Value(value));
            let evaluated = self.evaluate(attributes[i].value).1;
            let next = evaluated.set_attribute(node, attributes[i].name, value, place).1;
            evaluated.lemma_set_attribute_result(node, attributes[i].name, value, place);
            next.lemma_plain_attributes(node, attributes, i + 1, place);
            let end = next.set_attributes(node, attributes, i + 1, place).1;
            let before = self.graph.graph_nodes[node.index as int].attributes;
            let middle = next.graph.graph_nodes[node.index as int].attributes;
            let after = end.graph.graph_nodes[node.index as int].attributes;
            assert(before.submap_of(middle)) by {
                assert forall|name: Seq<char>| #[trigger] before.contains_key(name) implies {
                    &&& middle.contains_key(name)
                    &&& middle[name] == before[name]
                } by {
                    assert(middle.contains_key(name));
                }
            }
            vstd::map_lib::lemma_submap_of_trans(before, middle, after);
            assert forall|k: int| i <= k < attributes.len() implies after.contains_key(
                (#[trigger] attributes[k]).name,
            ) && after[attributes[k].name] == attributes[k].value->Value_0 by {
                if k == i {
                    assert(middle.contains_key(attributes[i].name));
                }
            }
            assert forall|name: Seq<char>| #[trigger] after.contains_key(
                name,
            ) implies before.contains_key(name) || exists|k: int|
                i <= k < attributes.len() && (#[trigger] attributes[k]).name == name by {
                if name == attributes[i].name {
                    assert(attributes[i].name == name);
                } else if middle.contains_key(name) {
                    assert(before.contains_key(name));
                }
            }
        }
    }

    /// Setting attributes of an edge to plain values gives each the value that is written for it;
    /// all other attributes stay, and so does everything else in the graph.
    pub proof fn lemma_plain_edge_attributes(
        self,
        source: GraphNodeRef,
        sink: GraphNodeRef,
        attributes: Seq<AttributeModel>,
        i: int,
        place: Location,
    )
        requires
            0 <= i <= attributes.len(),
            source.index < self.graph.graph_nodes.len(),
            self.graph.graph_nodes[source.index as int].outgoing_edges.contains_key(sink.index),
            forall|k: int| i <= k < attributes.len() ==> (#[trigger] attributes[k]).value is Value,
            self.set_edge_attributes(source, sink, attributes, i, place).0 is Ok,
        ensures
            ({
                let end = self.set_edge_attributes(source, sink, attributes, i, place).1;
                let before = self.graph.graph_nodes[source.index as int];
                let after = end.graph.graph_nodes[source.index as int];
                &&& end.graph.graph_nodes.len() == self.graph.graph_nodes.len()
                &&& after.outgoing_edges.dom() == before.outgoing_edges.dom()
                &&& before.outgoing_edges[sink.index].submap_of(after.outgoing_edges[sink.index])
                &&& forall|k: int|
                    i <= k < attributes.len() ==> after.outgoing_edges[sink.index].contains_key(
                        (#[trigger] attributes[k]).name,
                    ) && after.outgoing_edges[sink.index][attributes[k].name]
                        == attributes[k].value->Value_0
                &&& forall|name: Seq<char>| #[trigger]
                    after.outgoing_edges[sink.index].contains_key(name)
                        ==> before.outgoing_edges[sink.index].contains_key(name) || exists|k: int|
                        i <= k < attributes.len() && (#[trigger] attributes[k]).name == name
                &&& forall|other: usize|
                    other != sink.index ==> #[trigger] after.outgoing_edges[other]
                        == before.outgoing_edges[other]
                &&& after.attributes == before.attributes
                &&& forall|j: int|
                    0 <= j < self.graph.graph_nodes.len() && j != source.index ==> (
                    #[trigger] end.graph.graph_nodes[j]) == self.graph.graph_nodes[j]
            }),
        decreases attributes.len() - i,
    {
        if i < attributes.len() {
            let value = attributes[i].value->Value_0;
            assert(attributes[i].value == LazyModel::Value(value));
            let evaluated = self.evaluate(attributes[i].value).1;
            let next = evaluated.set_edge_attribute(
                source,
                sink,
                attributes[i].name,
                value,
                place,
            ).1;
            evaluated.lemma_set_edge_attribute_result(
                source,
                sink,
                attributes[i].name,
                value,
                place,
            );
            assert(next.graph.graph_nodes[source.index as int].outgoing_edges.dom().contains(
                sink.index,
            ));
            next.lemma_plain_edge_attributes(source, sink, attributes, i + 1, place);
            let end = next.set_edge_attributes(source, sink, attributes, i + 1, place).1;
            let before = self.graph.graph_nodes[source.index as int].outgoing_edges[sink.index];
            let middle = next.graph.graph_nodes[source.index as int].outgoing_edges[sink.index];
            let after = end.graph.graph_nodes[source.index as int].outgoing_edges[sink.index];
            assert(before.submap_of(middle)) by {
                assert forall|name: Seq<char>| #[trigger] before.contains_key(name) implies {
                    &&& middle.contains_key(name)
                    &&& middle[name] == before[name]
                } by {
                    assert(middle.contains_key(name));
                }
            }
            vstd::map_lib::lemma_submap_of_trans(before, middle, after);
            assert forall|k: int| i <= k < attributes.len() implies after.contains_key(
                (#[trigger] attributes[k]).name,
            ) && after[attributes[k].name] == attributes[k].value->Value_0 by {
                if k == i {
                    assert(middle.contains_key(attributes[i].name));
                }
            }
            assert forall|name: Seq<char>| #[trigger] after.contains_key(
                name,
            ) implies before.contains_key(name) || exists|k: int|
                i <= k < attributes.len() && (#[trigger] attributes[k]).name == name by {
                if name == attributes[i].name {
                    assert(attributes[i].name == name);
                } else if middle.contains_key(name) {
                    assert(before.contains_key(name));
                }
            }
        }
    }

    /// The state after the first `k` of the arguments have been printed.
    pub open spec fn after_prints(self, arguments: Seq<PrintModel>, k: int) -> EvaluationState
        decreases k,
    {
        if k <= 0 {
            self
        } else {
            let before = self.after_prints(arguments, k - 1);
            match arguments[k - 1] {
                PrintModel::Text(text) => before.print(text),
                PrintModel::Value(value) => {
                    let (result, after) = before.evaluate(value);
                    after.print(result->Ok_0.shown())
                },
            }
        }
    }

    /// Whether `text` is what the argument at position `k` is printed as: a text as it is, and a
    /// value as it is shown, if it can be evaluated.
    pub open spec fn printed_as(
        self,
        arguments: Seq<PrintModel>,
        k: int,
        text: Seq<char>,
    ) -> bool {
        match arguments[k] {
            PrintModel::Text(written) => text == written,
            PrintModel::Value(value) => self.after_prints(arguments, k).evaluate(
                value,
            ).0 matches Ok(result) && text == result.shown(),
        }
    }

    /// Printing that succeeds goes through the arguments one by one.
    proof fn lemma_prints_from(
        self,
        arguments: Seq<PrintModel>,
        n: int,
        texts: Seq<Seq<char>>,
    ) -> (all: Seq<Seq<char>>)
        requires
            self.valid(),
            crate::lazy::statements::prints_below(arguments, self.store.len()),
            0 <= n <= arguments.len(),
            texts.len() == n,
            forall|k: int| 0 <= k < n ==> self.printed_as(arguments, k, #[trigger] texts[k]),
            self.leads_to(self.after_prints(arguments, n)),
            self.after_prints(arguments, n).printed == self.printed + joined(texts),
            self.after_prints(arguments, n).print_all(arguments, n).0 is Ok,
        ensures
            all.len() == arguments.len(),
            forall|k: int|
                0 <= k < arguments.len() ==> self.printed_as(arguments, k, #[trigger] all[k]),
            self.after_prints(arguments, n).print_all(arguments, n).1.printed == self.printed
                + joined(all) + "\n"@,
            self.after_prints(arguments, n).print_all(arguments, n).1.graph == self.after_prints(
                arguments,
                arguments.len() as int,
            ).graph,
        decreases arguments.len() - n,
    {
        if n < arguments.len() {
            let before = self.after_prints(arguments, n);
            let text = match arguments[n] {
                PrintModel::Text(text) => text,
                PrintModel::Value(value) => {
                    before.lemma_evaluate_progress(value);
                    before.evaluate(value).0->Ok_0.shown()
                },
            };
            let more = texts.push(text);
            assert(more.drop_last() =~= texts);
            assert(joined(more) == joined(texts) + text);
            let after = self.after_prints(arguments, n + 1);
            assert(after.printed =~= self.printed + joined(more));
            assert forall|k: int| 0 <= k < n + 1 implies self.printed_as(
                arguments,
                k,
                #[trigger] more[k],
            ) by {
                if k < n {
                    assert(more[k] == texts[k]);
                }
            }
            self.lemma_prints_from(arguments, n + 1, more)
        } else {
            texts
        }
    }

    /// A print statement that succeeds prints one line: what its arguments are printed as, one
    /// after the other in their order, and the end of the line.
    pub proof fn lemma_print_result(self, arguments: Seq<PrintModel>, place: Location)
        requires
            self.valid(),
            crate::lazy::statements::prints_below(arguments, self.store.len()),
            self.evaluate_statement(
                LazyStatementModel::Print { arguments, debug_info: place },
            ).0 is Ok,
        ensures
            ({
                let start = self.check("evaluating statement"@).1;
                let end = self.evaluate_statement(
                    LazyStatementModel::Print { arguments, debug_info: place },
                ).1;
                exists|texts: Seq<Seq<char>>|
                    {
                        &&& texts.len() == arguments.len()
                        &&& end.printed == self.printed + (#[trigger] joined(texts)) + "\n"@
                        &&& forall|k: int|
                            0 <= k < arguments.len() ==> start.printed_as(
                                arguments,
                                k,
                                #[trigger] texts[k],
                            )
                    }
            }),
    {
        let start = self.check("evaluating statement"@).1;
        self.lemma_check_progress("evaluating statement"@);
        assert(start.printed =~= self.printed + joined(Seq::empty()));
        let texts = start.lemma_prints_from(arguments, 0, Seq::empty());
    }

    /// The lazy graph is evaluated from its beginning to its end: what comes first is evaluated
    /// first, and the rest after that, unless there was an error.
    pub proof fn lemma_graph_in_order(
        self,
        first: Seq<LazyStatementModel>,
        second: Seq<LazyStatementModel>,
    )
        ensures
            ({
                let (result, after) = self.evaluate_graph(first, 0);
                self.evaluate_graph(first + second, 0) == match result {
                    Ok(_) => after.evaluate_graph(second, 0),
                    Err(e) => (Err(e), after),
                }
            }),
    {
        self.lemma_graph_split(first, second, 0);
    }

    proof fn lemma_graph_split(
        self,
        first: Seq<LazyStatementModel>,
        second: Seq<LazyStatementModel>,
        i: int,
    )
        requires
            0 <= i <= first.len(),
        ensures
            ({
                let (result, after) = self.evaluate_graph(first, i);
                self.evaluate_graph(first + second, i) == match result {
                    Ok(_) => after.evaluate_graph(second, 0),
                    Err(e) => (Err(e), after),
                }
            }),
        decreases first.len() - i,
    {
        if i < first.len() {
            assert((first + second)[i] == first[i]);
            let (result, after) = self.evaluate_statement(first[i]);
            if result is Ok {
                after.lemma_graph_split(first, second, i + 1);
            }
        } else {
            self.lemma_graph_shift(first, second, 0);
        }
    }

    proof fn lemma_graph_shift(
        self,
        first: Seq<LazyStatementModel>,
        second: Seq<LazyStatementModel>,
        i: int,
    )
        requires
            0 <= i <= second.len(),
        ensures
            self.evaluate_graph(first + second, first.len() + i) == self.evaluate_graph(second, i),
        decreases second.len() - i,
    {
        if i < second.len() {
            assert((first + second)[first.len() + i] == second[i]);
            let (result, after) = self.evaluate_statement(second[i]);
            if result is Ok {
                after.lemma_graph_shift(first, second, i + 1);
            }
        }
    }

    /// A lazy graph of one statement does what the statement does; an error in it gets a note that
    /// shows the statement. Without statements nothing is done.
    pub proof fn lemma_graph_of_one(self, statement: LazyStatementModel)
        ensures
            self.evaluate_graph(Seq::empty(), 0) == (Ok::<(), ErrorModel>(()), self),
            self.evaluate_graph(seq![statement], 0).1 == self.evaluate_statement(statement).1,
            self.evaluate_graph(seq![statement], 0).0 is Ok <==> self.evaluate_statement(
                statement,
            ).0 is Ok,
            self.evaluate_statement(statement).0 matches Err(e) ==> self.evaluate_graph(
                seq![statement],
                0,
            ).0 == Err::<(), ErrorModel>(
                e.within(
                    crate::error::ContextModel::Other("Executing "@ + statement.shown()),
                ),
            ),
    {
        let after = self.evaluate_statement(statement).1;
        assert(seq![statement][0] == statement);
        assert(after.evaluate_graph(seq![statement], 1) == (Ok::<(), ErrorModel>(()), after));
    }
}

} // verus!
