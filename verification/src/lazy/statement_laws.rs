//! Laws of what statements do.

use vstd::prelude::*;

use crate::ast::AddEdgeAttribute;
use crate::ast::AddGraphNodeAttribute;
use crate::ast::Assign;
use crate::ast::Attribute;
use crate::ast::AttributeShorthand;
use crate::ast::AttributeShorthands;
use crate::ast::CreateEdge;
use crate::ast::CreateGraphNode;
use crate::ast::DeclareImmutable;
use crate::ast::DeclareMutable;
use crate::ast::Expression;
use crate::ast::Print;
use crate::ast::ScopedVariable;
use crate::ast::Statement;
use crate::ast::UnscopedVariable;
use crate::ast::Variable;
use crate::error::ErrorModel;
use crate::graph::GraphNodeModel;
use crate::lazy::evaluation::EvaluationState;
use crate::lazy::execution::ExecutionState;
use crate::lazy::execution::Surroundings;
use crate::lazy::statements::AttributeModel;
use crate::lazy::statements::LazyStatementModel;
use crate::lazy::statements::PrintModel;
use crate::lazy::store::ScopedDefinition;
use crate::lazy::store::ScopedModel;
use crate::lazy::store::ThunkModel;
use crate::lazy::store::ThunkStateModel;
use crate::lazy::values::LazyModel;
use crate::values::GraphNodeRef;
use crate::values::SyntaxNodeModel;
use crate::values::ValueModel;

verus! {

impl ExecutionState {
    /// Executing a statement is checking the flag and then doing what the statement says, in the
    /// same surroundings.
    pub proof fn lemma_execute(self, cx: Surroundings, statement: Statement)
        requires
            self.eval.cancellation_flag.next("executing statement"@) is None,
        ensures
            self.execute(cx, statement) == self.after_asking(1).perform(cx, statement),
    {
        assert(self.check("executing statement"@).1 == self.after_asking(1));
    }

    /// Whether a local variable has been declared, as the last thing that happened after `before`:
    /// it stands for a new thunk that holds the value, it can be assigned if and only if it is
    /// mutable, and all other names stand for what they stood for.
    pub open spec fn declared_after(
        self,
        before: ExecutionState,
        cx: Surroundings,
        variable: UnscopedVariable,
        value: LazyModel,
        mutable: bool,
    ) -> bool {
        &&& self.just_declared(cx, variable, value)
        &&& self.eval.store.drop_last() == before.eval.store
        &&& self.eval == (EvaluationState { store: self.eval.store, ..before.eval })
        &&& self.lazy_graph == before.lazy_graph
        &&& self.locals.len() == before.locals.len()
        &&& self.locals.drop_last() == before.locals.drop_last()
        &&& self.locals.last().contains_key(variable.name@)
        &&& self.locals.last()[variable.name@].mutable == mutable
        &&& !before.locals.last().contains_key(variable.name@)
        &&& forall|name: Seq<char>|
            name != variable.name@ ==> (#[trigger] self.locals.last().contains_key(name)
                <==> before.locals.last().contains_key(name)) && (
            before.locals.last().contains_key(name) ==> self.locals.last()[name]
                == before.locals.last()[name])
    }

    /// A let statement that succeeds declares a variable for what its value stands for. It succeeds
    /// if and only if that can be taken, and neither a global variable nor one of the same block
    /// has the name.
    pub proof fn lemma_let(self, cx: Surroundings, s: DeclareImmutable, x: UnscopedVariable)
        requires
            self.locals.len() > 0,
            s.variable == Variable::Unscoped(x),
        ensures
            ({
                let (value, before) = self.evaluate_lazy(cx, s.value);
                let (result, end) = self.perform(cx, Statement::DeclareImmutable(s));
                &&& result is Ok <==> value is Ok && !cx.globals.contains_key(x.name@)
                    && !self.locals.last().contains_key(x.name@)
                &&& value matches Err(e) ==> result == Err::<(), ErrorModel>(e)
                &&& result is Ok ==> end.declared_after(before, cx, x, value->Ok_0, false)
            }),
    {
        self.lemma_locals_left_alone(cx, s.value);
        let (value, before) = self.evaluate_lazy(cx, s.value);
        let end = self.perform(cx, Statement::DeclareImmutable(s)).1;
        if value is Ok {
            assert(before.add_thunk(value->Ok_0, x.location).eval.store.drop_last()
                =~= before.eval.store);
            if !cx.globals.contains_key(x.name@) && !self.locals.last().contains_key(x.name@) {
                assert(end.locals.drop_last() =~= before.locals.drop_last());
            }
        }
    }

    /// A var statement does the same, but its variable can be assigned.
    pub proof fn lemma_var(self, cx: Surroundings, s: DeclareMutable, x: UnscopedVariable)
        requires
            self.locals.len() > 0,
            s.variable == Variable::Unscoped(x),
        ensures
            ({
                let (value, before) = self.evaluate_lazy(cx, s.value);
                let (result, end) = self.perform(cx, Statement::DeclareMutable(s));
                &&& result is Ok <==> value is Ok && !cx.globals.contains_key(x.name@)
                    && !self.locals.last().contains_key(x.name@)
                &&& value matches Err(e) ==> result == Err::<(), ErrorModel>(e)
                &&& result is Ok ==> end.declared_after(before, cx, x, value->Ok_0, true)
            }),
    {
        self.lemma_locals_left_alone(cx, s.value);
        let (value, before) = self.evaluate_lazy(cx, s.value);
        let end = self.perform(cx, Statement::DeclareMutable(s)).1;
        if value is Ok {
            assert(before.add_thunk(value->Ok_0, x.location).eval.store.drop_last()
                =~= before.eval.store);
            if !cx.globals.contains_key(x.name@) && !self.locals.last().contains_key(x.name@) {
                assert(end.locals.drop_last() =~= before.locals.drop_last());
            }
        }
    }

    /// A set statement that succeeds makes the variable stand for a new thunk, which holds what the
    /// value of the statement stands for. It succeeds if and only if that can be taken, the name is
    /// not global, and the innermost variable of this name is mutable. It stays mutable.
    pub proof fn lemma_set(self, cx: Surroundings, s: Assign, x: UnscopedVariable)
        requires
            self.locals.len() > 0,
            s.variable == Variable::Unscoped(x),
        ensures
            ({
                let (value, before) = self.evaluate_lazy(cx, s.value);
                let (result, end) = self.perform(cx, Statement::Assign(s));
                &&& result is Ok <==> value is Ok && !cx.globals.contains_key(x.name@) && (
                crate::variables::lookup(self.locals, x.name@) matches Some(local)
                    && local.mutable)
                &&& value matches Err(e) ==> result == Err::<(), ErrorModel>(e)
                &&& result is Ok ==> {
                    &&& end.just_declared(cx, x, value->Ok_0)
                    &&& end.eval.store.drop_last() == before.eval.store
                    &&& crate::variables::lookup(end.locals, x.name@) matches Some(local)
                    &&& local.mutable
                    &&& end.lazy_graph == before.lazy_graph
                    &&& forall|name: Seq<char>|
                        name != x.name@ ==> #[trigger] crate::variables::lookup(end.locals, name)
                            == crate::variables::lookup(self.locals, name)
                }
            }),
    {
        self.lemma_locals_left_alone(cx, s.value);
        let (value, before) = self.evaluate_lazy(cx, s.value);
        crate::variables::lemma_block_of(self.locals, x.name@, self.locals.len() as int);
        if value is Ok {
            assert(before.add_thunk(value->Ok_0, x.location).eval.store.drop_last()
                =~= before.eval.store);
            let (result, end) = self.perform(cx, Statement::Assign(s));
            if result is Ok {
                let n = self.locals.len() as int;
                before.lemma_assign_read(cx, x, value->Ok_0);
                crate::lazy::program_laws::lemma_block_of_same(
                    self.locals,
                    end.locals,
                    x.name@,
                    n,
                );
                assert forall|name: Seq<char>| name != x.name@ implies
                    #[trigger] crate::variables::lookup(end.locals, name)
                    == crate::variables::lookup(self.locals, name) by {
                    crate::variables::lemma_block_of(self.locals, name, n);
                    crate::lazy::program_laws::lemma_block_of_same(
                        self.locals,
                        end.locals,
                        name,
                        n,
                    );
                }
            }
        }
    }

    /// A variable of a syntax node cannot be assigned, nor declared as mutable, and trying does not
    /// define it.
    pub proof fn lemma_scoped_not_mutable(
        self,
        cx: Surroundings,
        s: Assign,
        d: DeclareMutable,
        x: ScopedVariable,
    )
        requires
            s.variable == Variable::Scoped(x),
            d.variable == Variable::Scoped(x),
        ensures
            ({
                let (value, after) = self.evaluate_lazy(cx, s.value);
                self.perform(cx, Statement::Assign(s)) == (
                    Err::<(), ErrorModel>(
                        match value {
                            Ok(_) => ErrorModel::CannotAssignScopedVariable(
                                x.scope.shown() + "."@ + x.name@,
                            ),
                            Err(e) => e,
                        },
                    ),
                    after,
                )
            }),
            ({
                let (value, after) = self.evaluate_lazy(cx, d.value);
                self.perform(cx, Statement::DeclareMutable(d)) == (
                    Err::<(), ErrorModel>(
                        match value {
                            Ok(_) => ErrorModel::CannotDefineMutableScopedVariable(
                                x.scope.shown() + "."@ + x.name@,
                            ),
                            Err(e) => e,
                        },
                    ),
                    after,
                )
            }),
    {
    }

    /// Whether a variable of a syntax node has been defined, as the last thing that happened after
    /// `before`: the last definition of its name has the scope, and stands for a new thunk that
    /// holds the value. What was defined before stays, and so do all other names.
    pub open spec fn defined_after(
        self,
        before: ExecutionState,
        variable: ScopedVariable,
        scope: LazyModel,
        value: LazyModel,
    ) -> bool {
        let name = variable.name@;
        &&& self.eval.store == before.eval.store.push(
            ThunkModel {
                state: ThunkStateModel::Unforced(value),
                debug_info: variable.location,
            },
        )
        &&& self.eval.scoped_store.contains_key(name)
        &&& self.eval.scoped_store[name] matches ScopedModel::Unforced(definitions)
        &&& definitions.len() > 0
        &&& definitions.last() == (ScopedDefinition {
            scope,
            value: LazyModel::Variable(before.eval.store.len() as usize),
            debug_info: variable.location,
        })
        &&& if before.eval.scoped_store.contains_key(name) {
            before.eval.scoped_store[name] == ScopedModel::Unforced(definitions.drop_last())
        } else {
            definitions.len() == 1
        }
        &&& forall|other: Seq<char>|
            other != name ==> (#[trigger] self.eval.scoped_store.contains_key(other)
                <==> before.eval.scoped_store.contains_key(other)) && (
            before.eval.scoped_store.contains_key(other) ==> self.eval.scoped_store[other]
                == before.eval.scoped_store[other])
        &&& self.eval.graph == before.eval.graph
        &&& self.locals == before.locals
        &&& self.lazy_graph == before.lazy_graph
    }

    proof fn lemma_define(
        self,
        cx: Surroundings,
        variable: ScopedVariable,
        value: LazyModel,
    )
        ensures
            ({
                let (scope, before) = self.evaluate_lazy(cx, *variable.scope);
                let (result, end) = self.define(cx, variable, value, false);
                &&& result is Ok <==> scope is Ok && (before.eval.scoped_store.contains_key(
                    variable.name@,
                ) ==> before.eval.scoped_store[variable.name@] is Unforced)
                &&& scope matches Err(e) ==> result == Err::<(), ErrorModel>(e)
                &&& result is Ok ==> end.defined_after(before, variable, scope->Ok_0, value)
            }),
    {
        let (scope, before) = self.evaluate_lazy(cx, *variable.scope);
        let name = variable.name@;
        if scope is Ok && before.eval.scoped_store.contains_key(name) {
            if let ScopedModel::Unforced(definitions) = before.eval.scoped_store[name] {
                let definition = ScopedDefinition {
                    scope: scope->Ok_0,
                    value: before.next_variable(),
                    debug_info: variable.location,
                };
                assert(definitions.push(definition).drop_last() =~= definitions);
            }
        }
    }

    /// A let statement for a variable of a syntax node defines it: for what its scope stands for,
    /// with what its value stands for. It succeeds if and only if these can be taken, and no
    /// variable of the name has been asked for.
    pub proof fn lemma_let_scoped(self, cx: Surroundings, s: DeclareImmutable, x: ScopedVariable)
        requires
            s.variable == Variable::Scoped(x),
        ensures
            ({
                let (value, valued) = self.evaluate_lazy(cx, s.value);
                let (scope, before) = valued.evaluate_lazy(cx, *x.scope);
                let (result, end) = self.perform(cx, Statement::DeclareImmutable(s));
                &&& result is Ok <==> value is Ok && scope is Ok && (
                before.eval.scoped_store.contains_key(x.name@)
                    ==> before.eval.scoped_store[x.name@] is Unforced)
                &&& value matches Err(e) ==> result == Err::<(), ErrorModel>(e)
                &&& value is Ok ==> (scope matches Err(e) ==> result == Err::<(), ErrorModel>(e))
                &&& result is Ok ==> end.defined_after(before, x, scope->Ok_0, value->Ok_0)
            }),
    {
        let (value, valued) = self.evaluate_lazy(cx, s.value);
        if let Ok(value) = value {
            valued.lemma_define(cx, x, value);
        }
    }

    /// What is declared can be read: after `let x = value`, with a constant value, `x` is that
    /// value.
    pub proof fn lemma_let_then_read(
        self,
        cx: Surroundings,
        s: DeclareImmutable,
        x: UnscopedVariable,
    )
        requires
            self.locals.len() > 0,
            self.eval.cancellation_flag.never_stops(),
            self.eval.store.len() < usize::MAX,
            s.variable == Variable::Unscoped(x),
            s.value.constant() is Some,
            self.perform(cx, Statement::DeclareImmutable(s)).0 is Ok,
        ensures
            self.perform(cx, Statement::DeclareImmutable(s)).1.evaluate_eager(
                cx,
                Expression::Variable(Variable::Unscoped(x)),
            ).0 == Ok::<ValueModel, ErrorModel>(s.value.constant()->Some_0),
    {
        self.lemma_let(cx, s, x);
        self.lemma_constant(cx, s.value);
        let end = self.perform(cx, Statement::DeclareImmutable(s)).1;
        end.eval.lemma_plain_variable(
            self.eval.store.len() as usize,
            s.value.constant()->Some_0,
        );
    }

    /// What is defined for a syntax node can be read by way of this node: after
    /// `let @node.name = value`, with a constant value, `@node.name` is that value, if this is the
    /// only variable of the name.
    pub proof fn lemma_defined_then_read(
        self,
        before: ExecutionState,
        x: ScopedVariable,
        node: SyntaxNodeModel,
        value: ValueModel,
    )
        requires
            self.valid(),
            self.eval.cancellation_flag.never_stops(),
            before.eval.store.len() < usize::MAX,
            !before.eval.scoped_store.contains_key(x.name@),
            self.defined_after(
                before,
                x,
                LazyModel::Value(ValueModel::SyntaxNode(node)),
                LazyModel::Value(value),
            ),
        ensures
            self.eval.evaluate(
                LazyModel::ScopedVariable(
                    Box::new(LazyModel::Value(ValueModel::SyntaxNode(node))),
                    x.name@,
                ),
            ).0 == Ok::<ValueModel, ErrorModel>(value),
    {
        let name = x.name@;
        let scope = LazyModel::Value(ValueModel::SyntaxNode(node));
        let at = "evaluating value"@;
        let start = self.eval.check(at).1;
        self.eval.lemma_check_progress(at);
        self.eval.lemma_scoped_variable_result(scope, name, node);
        let ready = start.evaluate(scope).1;
        start.lemma_evaluate_progress(scope);
        let definitions = ready.scoped_store[name]->Unforced_0;
        let forcing = ready.with_scoped(name, ScopedModel::Forcing);
        assert(definitions[0] == definitions.last());
        assert(forcing.after_scopes(definitions, 0) == forcing);
        assert(forcing.scope_node(definitions, 0) == Ok::<SyntaxNodeModel, ErrorModel>(node));
        assert(forcing.scopes_differ(definitions, 1));
        ready.lemma_scoped_read_after_write(name, definitions, node);
        let after = ready.evaluate_scoped(node, name).1;
        ready.lemma_scoped_progress(node, name);
        let location = before.eval.store.len() as usize;
        assert(forcing.force_scopes(name, definitions, 0, Map::empty(), Map::empty()).1
            == forcing.check(at).1) by {
            let next = forcing.check(at).1;
            forcing.lemma_check_progress(at);
            assert(forcing.evaluate(definitions[0].scope) == (
                Ok::<ValueModel, ErrorModel>(ValueModel::SyntaxNode(node)),
                next,
            ));
            let map = Map::empty().insert(node, definitions[0].value);
            let infos = Map::empty().insert(node, definitions[0].debug_info);
            assert(next.force_scopes(name, definitions, 1, map, infos).1 == next);
        }
        ready.lemma_pending_scoped(name, ScopedModel::Forcing);
        assert(after.store == self.eval.store);
        assert(after.cancellation_flag.never_stops());
        after.lemma_plain_variable(location, value);
    }

    /// A node statement that succeeds adds one node to the graph, and its variable stands for just
    /// this node: for a new thunk that holds the node whose number is the number of nodes before.
    /// The node has no edges, and no attributes but those that the configuration asks for: the
    /// variable that it was created as, and where.
    pub proof fn lemma_node_statement(self, cx: Surroundings, s: CreateGraphNode)
        requires
            self.valid(),
            self.perform(cx, Statement::CreateGraphNode(s)).0 is Ok,
        ensures
            ({
                let n = self.eval.graph.graph_nodes.len();
                let value = LazyModel::Value(
                    ValueModel::GraphNode(GraphNodeRef { index: n as usize }),
                );
                let end = self.perform(cx, Statement::CreateGraphNode(s)).1;
                let nodes = end.eval.graph.graph_nodes;
                &&& end.eval.store.len() > 0
                &&& end.eval.store.last().state == ThunkStateModel::Unforced(value)
                &&& match s.node {
                    Variable::Unscoped(x) => {
                        &&& end.just_declared(cx, x, value)
                        &&& end.locals.last().contains_key(x.name@)
                        &&& !end.locals.last()[x.name@].mutable
                        &&& end.eval.store.drop_last() == self.eval.store
                        &&& nodes.len() == n + 1
                    },
                    Variable::Scoped(x) => exists|created: ExecutionState|
                        {
                            let (scope, before) = created.evaluate_lazy(cx, *x.scope);
                            &&& #[trigger] self.followed_by_node(created)
                            &&& scope is Ok
                            &&& end.defined_after(before, x, scope->Ok_0, value)
                        },
                }
                &&& (s.node is Unscoped || self.eval.functions.quiet()) ==> {
                    &&& nodes.len() > n
                    &&& self.eval.graph.graph_nodes.is_prefix_of(nodes)
                    &&& nodes[n as int].outgoing_edges == Map::<
                        usize,
                        Map<Seq<char>, ValueModel>,
                    >::empty()
                    &&& nodes[n as int].created_as(cx, s.node)
                }
                &&& end.lazy_graph == self.lazy_graph
            }),
    {
        let n = self.eval.graph.graph_nodes.len();
        let node = GraphNodeRef { index: n as usize };
        let value = LazyModel::Value(ValueModel::GraphNode(node));
        let (result, attributes) = crate::lazy::execution::debug_attributes(
            Map::empty(),
            cx.variable_name_attr,
            cx.location_attr,
            s.node,
        );
        let created = GraphNodeModel { attributes, ..GraphNodeModel::blank() };
        let graph = crate::graph::GraphModel {
            graph_nodes: self.eval.graph.graph_nodes.push(created),
            ..self.eval.graph
        };
        let state = self.with_eval(self.eval.with_graph(graph));
        assert(created.created_as(cx, s.node));
        assert(state.valid());
        let end = self.perform(cx, Statement::CreateGraphNode(s)).1;
        match s.node {
            Variable::Unscoped(x) => {
                assert(end == state.declare(cx, x, value, false).1);
                assert(end.eval.store.drop_last() =~= self.eval.store);
            },
            Variable::Scoped(x) => {
                assert(end == state.define(cx, x, value, false).1);
                state.lemma_define(cx, x, value);
                state.lemma_evaluate_lazy_keeps(cx, *x.scope);
                let (scope, before) = state.evaluate_lazy(cx, *x.scope);
                assert(end.defined_after(before, x, scope->Ok_0, value));
                assert(graph.graph_nodes.drop_last() =~= self.eval.graph.graph_nodes);
                assert(self.followed_by_node(state));
                if self.eval.functions.quiet() {
                    assert(state.eval.graph.gains_nodes_to(before.eval.graph));
                    assert(end.eval.graph.graph_nodes[n as int]
                        == state.eval.graph.graph_nodes[n as int]);
                }
            },
        }
    }

    /// A node statement fails only if both configured attributes have the same name, or its
    /// variable cannot be defined. For a local variable that is one of the name of a global
    /// variable or of another variable of the same block.
    pub proof fn lemma_node_succeeds(self, cx: Surroundings, s: CreateGraphNode)
        requires
            cx.variable_name_attr is None || cx.variable_name_attr != cx.location_attr,
        ensures
            ({
                let result = self.perform(cx, Statement::CreateGraphNode(s)).0;
                match s.node {
                    Variable::Unscoped(x) => {
                        result is Ok <==> !cx.globals.contains_key(x.name@)
                            && !self.locals.last().contains_key(x.name@)
                    },
                    Variable::Scoped(x) => exists|created: ExecutionState|
                        {
                            let (scope, before) = created.evaluate_lazy(cx, *x.scope);
                            let nodes = created.eval.graph.graph_nodes;
                            &&& #[trigger] self.followed_by_node(created)
                            &&& nodes.last().created_as(cx, s.node)
                            &&& result is Ok <==> scope is Ok && (
                            before.eval.scoped_store.contains_key(x.name@)
                                ==> before.eval.scoped_store[x.name@] is Unforced)
                            &&& scope matches Err(e) ==> result == Err::<(), ErrorModel>(e)
                        },
                }
            }),
    {
        let n = self.eval.graph.graph_nodes.len();
        let value = LazyModel::Value(ValueModel::GraphNode(GraphNodeRef { index: n as usize }));
        let (result, attributes) = crate::lazy::execution::debug_attributes(
            Map::empty(),
            cx.variable_name_attr,
            cx.location_attr,
            s.node,
        );
        assert(result is Ok);
        let node = GraphNodeModel { attributes, ..GraphNodeModel::blank() };
        let graph = crate::graph::GraphModel {
            graph_nodes: self.eval.graph.graph_nodes.push(node),
            ..self.eval.graph
        };
        let created = self.with_eval(self.eval.with_graph(graph));
        assert(graph.graph_nodes.drop_last() =~= self.eval.graph.graph_nodes);
        assert(node.created_as(cx, s.node));
        if let Variable::Scoped(x) = s.node {
            created.lemma_define(cx, x, value);
            assert(self.followed_by_node(created));
        }
    }

    /// Whether `created` is this state, but with one more node, which has no edges.
    pub open spec fn followed_by_node(self, created: ExecutionState) -> bool {
        let nodes = created.eval.graph.graph_nodes;
        &&& nodes.len() > 0
        &&& nodes.drop_last() == self.eval.graph.graph_nodes
        &&& nodes.last().outgoing_edges == Map::<usize, Map<Seq<char>, ValueModel>>::empty()
        &&& created == (ExecutionState {
            eval: EvaluationState {
                graph: crate::graph::GraphModel { graph_nodes: nodes, ..self.eval.graph },
                ..self.eval
            },
            ..self
        })
    }

    /// Two node statements, one after the other, create two different nodes.
    pub proof fn lemma_nodes_differ(
        self,
        cx: Surroundings,
        s: CreateGraphNode,
        t: CreateGraphNode,
    )
        requires
            self.valid(),
            self.eval.functions.quiet(),
            self.perform(cx, Statement::CreateGraphNode(s)).0 is Ok,
            self.perform(cx, Statement::CreateGraphNode(s)).1.perform(
                cx,
                Statement::CreateGraphNode(t),
            ).0 is Ok,
            self.perform(cx, Statement::CreateGraphNode(s)).1.eval.graph.graph_nodes.len()
                <= usize::MAX,
        ensures
            ({
                let first = self.perform(cx, Statement::CreateGraphNode(s)).1;
                let second = first.perform(cx, Statement::CreateGraphNode(t)).1;
                first.eval.store.last().state != second.eval.store.last().state
            }),
    {
        self.lemma_node_statement(cx, s);
        self.lemma_perform_keeps(cx, Statement::CreateGraphNode(s));
        let first = self.perform(cx, Statement::CreateGraphNode(s)).1;
        first.lemma_node_statement(cx, t);
    }
}

impl GraphNodeModel {
    /// Whether this node has just the attributes that the configuration asks for: one with the
    /// variable that it was created as, and one with the place of this.
    pub open spec fn created_as(self, cx: Surroundings, variable: Variable) -> bool {
        &&& forall|name: Seq<char>| #[trigger]
            self.attributes.contains_key(name) <==> cx.variable_name_attr == Some(name)
                || cx.location_attr == Some(name)
        &&& cx.variable_name_attr matches Some(name) ==> self.attributes[name]
            == ValueModel::String(variable.shown())
        &&& cx.location_attr matches Some(name) ==> self.attributes[name] == ValueModel::String(
            "line "@ + crate::text::decimal_text((variable.at().row + 1) as nat) + " column "@
                + crate::text::decimal_text((variable.at().column + 1) as nat),
        )
    }
}

impl ExecutionState {
    /// An edge statement that succeeds adds one statement to the lazy graph: an edge from what its
    /// source stands for to what its sink stands for. It fails only if one of these does.
    pub proof fn lemma_edge_statement(self, cx: Surroundings, s: CreateEdge)
        requires
            self.valid(),
        ensures
            ({
                let (source, middle) = self.evaluate_lazy(cx, s.source);
                let (sink, after) = middle.evaluate_lazy(cx, s.sink);
                let (result, end) = self.perform(cx, Statement::CreateEdge(s));
                &&& result is Ok <==> source is Ok && sink is Ok
                &&& source matches Err(e) ==> result == Err::<(), ErrorModel>(e)
                &&& source is Ok ==> (sink matches Err(e) ==> result == Err::<(), ErrorModel>(e))
                &&& result is Ok ==> {
                    &&& end.eval == after.eval
                    &&& end.locals == self.locals
                    &&& end.lazy_graph == self.lazy_graph.push(
                        LazyStatementModel::CreateEdge {
                            source: source->Ok_0,
                            sink: sink->Ok_0,
                            debug_info: s.location,
                        },
                    )
                }
            }),
    {
        self.lemma_evaluate_lazy_keeps(cx, s.source);
        self.lemma_locals_left_alone(cx, s.source);
        let middle = self.evaluate_lazy(cx, s.source).1;
        middle.lemma_evaluate_lazy_keeps(cx, s.sink);
        middle.lemma_locals_left_alone(cx, s.sink);
    }

    proof fn lemma_arguments_from(
        self,
        cx: Surroundings,
        values: Seq<Expression>,
        n: int,
        done: Seq<PrintModel>,
    )
        requires
            0 <= n <= values.len(),
            done.len() == n,
            forall|k: int| 0 <= k < n ==> self.argument_for(cx, values, k, #[trigger] done[k]),
            self.after_expressions(cx, values, n).print_arguments(cx, values, n, done).0 is Ok,
        ensures
            ({
                let (result, end) = self.after_expressions(cx, values, n).print_arguments(
                    cx,
                    values,
                    n,
                    done,
                );
                let arguments = result->Ok_0;
                &&& arguments.len() == values.len()
                &&& forall|k: int|
                    0 <= k < values.len() ==> self.argument_for(
                        cx,
                        values,
                        k,
                        #[trigger] arguments[k],
                    )
                &&& end == self.after_expressions(cx, values, values.len() as int)
            }),
        decreases values.len() - n,
    {
        if n < values.len() {
            let before = self.after_expressions(cx, values, n);
            let argument = if values[n] is StringConstant {
                PrintModel::Text(values[n]->StringConstant_0.value@)
            } else {
                PrintModel::Value(before.evaluate_lazy(cx, values[n]).0->Ok_0)
            };
            assert(self.after_expressions(cx, values, n + 1) == before.evaluate_lazy(
                cx,
                values[n],
            ).1);
            let more = done.push(argument);
            assert forall|k: int| 0 <= k < n + 1 implies self.argument_for(
                cx,
                values,
                k,
                #[trigger] more[k],
            ) by {
                if k < n {
                    assert(more[k] == done[k]);
                }
            }
            self.lemma_arguments_from(cx, values, n + 1, more);
        }
    }

    /// Whether `argument` is what the value at position `k` of a print statement is printed by: a
    /// string constant by its text, and anything else by what it stands for.
    pub open spec fn argument_for(
        self,
        cx: Surroundings,
        values: Seq<Expression>,
        k: int,
        argument: PrintModel,
    ) -> bool {
        match values[k] {
            Expression::StringConstant(s) => argument == PrintModel::Text(s.value@),
            _ => argument matches PrintModel::Value(value) && self.expression_at(cx, values, k)
                == Ok::<LazyModel, ErrorModel>(value),
        }
    }

    proof fn lemma_arguments_fail(
        self,
        cx: Surroundings,
        values: Seq<Expression>,
        n: int,
        done: Seq<PrintModel>,
    )
        requires
            0 <= n <= values.len(),
            forall|k: int| 0 <= k < n ==> (#[trigger] self.expression_at(cx, values, k)) is Ok,
        ensures
            ({
                let (result, end) = self.after_expressions(cx, values, n).print_arguments(
                    cx,
                    values,
                    n,
                    done,
                );
                match result {
                    Ok(_) => forall|k: int|
                        0 <= k < values.len() ==> (#[trigger] self.expression_at(
                            cx,
                            values,
                            k,
                        )) is Ok,
                    Err(e) => self.expressions_fail_with(cx, values, e, end),
                }
            }),
        decreases values.len() - n,
    {
        if n < values.len() {
            let before = self.after_expressions(cx, values, n);
            let (value, after) = before.evaluate_lazy(cx, values[n]);
            assert(self.expression_at(cx, values, n) == value);
            assert(self.after_expressions(cx, values, n + 1) == after);
            if value is Ok {
                let argument = if values[n] is StringConstant {
                    PrintModel::Text(values[n]->StringConstant_0.value@)
                } else {
                    PrintModel::Value(value->Ok_0)
                };
                self.lemma_arguments_fail(cx, values, n + 1, done.push(argument));
            }
        }
    }

    /// A print statement succeeds if what its values stand for can be taken, and fails with the
    /// first error in this.
    pub proof fn lemma_print_succeeds(self, cx: Surroundings, s: Print)
        ensures
            match self.perform(cx, Statement::Print(s)).0 {
                Ok(_) => forall|k: int|
                    0 <= k < s.values@.len() ==> (#[trigger] self.expression_at(
                        cx,
                        s.values@,
                        k,
                    )) is Ok,
                Err(e) => self.expressions_fail_with(
                    cx,
                    s.values@,
                    e,
                    self.perform(cx, Statement::Print(s)).1,
                ),
            },
    {
        self.lemma_arguments_fail(cx, s.values@, 0, Seq::empty());
    }

    /// A print statement that succeeds adds one statement to the lazy graph, which prints its
    /// values, each at its own place.
    pub proof fn lemma_print_statement(self, cx: Surroundings, s: Print)
        requires
            self.perform(cx, Statement::Print(s)).0 is Ok,
        ensures
            ({
                let end = self.perform(cx, Statement::Print(s)).1;
                let after = self.after_expressions(cx, s.values@, s.values@.len() as int);
                exists|arguments: Seq<PrintModel>|
                    {
                        &&& arguments.len() == s.values@.len()
                        &&& end == (ExecutionState {
                            lazy_graph: after.lazy_graph.push(
                                LazyStatementModel::Print { arguments, debug_info: s.location },
                            ),
                            ..after
                        })
                        &&& forall|k: int|
                            0 <= k < s.values@.len() ==> self.argument_for(
                                cx,
                                s.values@,
                                k,
                                #[trigger] arguments[k],
                            )
                    }
            }),
    {
        self.lemma_arguments_from(cx, s.values@, 0, Seq::empty());
        let arguments = self.print_arguments(cx, s.values@, 0, Seq::empty()).0->Ok_0;
        assert(arguments.len() == s.values@.len());
    }
}

/// Whether none of the attributes is the use of a shorthand.
pub open spec fn no_shorthands(cx: Surroundings, attributes: Seq<Attribute>) -> bool {
    forall|k: int, j: int|
        #![trigger attributes[k], cx.shorthands[j]]
        0 <= k < attributes.len() && 0 <= j < cx.shorthands.len() ==> cx.shorthands[j].name@
            != attributes[k].name@
}

proof fn lemma_not_found(list: Seq<AttributeShorthand>, name: Seq<char>, n: int)
    requires
        0 <= n <= list.len(),
        forall|j: int| 0 <= j < n ==> (#[trigger] list[j]).name@ != name,
    ensures
        AttributeShorthands::find(list, name, n) == -1,
    decreases n,
{
    if n > 0 {
        lemma_not_found(list, name, n - 1);
    }
}

/// Of several shorthands with the same name the last counts.
pub proof fn lemma_last_shorthand(list: Seq<AttributeShorthand>, name: Seq<char>, p: int)
    requires
        0 <= p < list.len(),
        list[p].name@ == name,
        forall|j: int| p < j < list.len() ==> (#[trigger] list[j]).name@ != name,
    ensures
        AttributeShorthands::position(list, name) == p,
{
    lemma_last_found(list, name, p, list.len() as int);
}

proof fn lemma_last_found(list: Seq<AttributeShorthand>, name: Seq<char>, p: int, n: int)
    requires
        0 <= p < n <= list.len(),
        list[p].name@ == name,
        forall|j: int| p < j < n ==> (#[trigger] list[j]).name@ != name,
    ensures
        AttributeShorthands::find(list, name, n) == p,
    decreases n,
{
    if p < n - 1 {
        assert(list[n - 1].name@ != name);
        lemma_last_found(list, name, p, n - 1);
    }
}

impl ExecutionState {
    /// The state after the values of the first `k` attributes have been taken, if none is the use
    /// of a shorthand. Before each the flag is checked, `checks` times.
    pub open spec fn after_plain(
        self,
        cx: Surroundings,
        attributes: Seq<Attribute>,
        k: int,
        checks: nat,
    ) -> ExecutionState
        decreases k,
    {
        if k <= 0 {
            self
        } else {
            self.after_plain(cx, attributes, k - 1, checks).after_asking(checks).evaluate_lazy(
                cx,
                attributes[k - 1].value,
            ).1
        }
    }

    /// What the value of the attribute at position `k` stands for.
    pub open spec fn plain_at(
        self,
        cx: Surroundings,
        attributes: Seq<Attribute>,
        k: int,
        checks: nat,
    ) -> Result<LazyModel, ErrorModel> {
        self.after_plain(cx, attributes, k, checks).after_asking(checks).evaluate_lazy(
            cx,
            attributes[k].value,
        ).0
    }

    /// Whether `collected` are the attributes themselves, in their order, each with what its own
    /// value stands for.
    pub open spec fn collects(
        self,
        cx: Surroundings,
        attributes: Seq<Attribute>,
        checks: nat,
        collected: Seq<AttributeModel>,
    ) -> bool {
        &&& collected.len() == attributes.len()
        &&& forall|k: int|
            0 <= k < attributes.len() ==> {
                &&& (#[trigger] collected[k]).name == attributes[k].name@
                &&& self.plain_at(cx, attributes, k, checks) == Ok::<LazyModel, ErrorModel>(
                    collected[k].value,
                )
            }
    }

    proof fn lemma_expand_plain(
        self,
        cx: Surroundings,
        attribute: Attribute,
        done: Seq<AttributeModel>,
    )
        requires
            self.eval.cancellation_flag.next("executing shorthand attributes"@) is None,
            forall|j: int|
                0 <= j < cx.shorthands.len() ==> (#[trigger] cx.shorthands[j]).name@
                    != attribute.name@,
        ensures
            ({
                let (value, after) = self.after_asking(1).evaluate_lazy(cx, attribute.value);
                self.expand(cx, attribute, done) == match value {
                    Ok(value) => (
                        Ok::<(), ErrorModel>(()),
                        done.push(AttributeModel { name: attribute.name@, value }),
                        after,
                    ),
                    Err(e) => (Err(e), done, after),
                }
            }),
    {
        lemma_not_found(cx.shorthands, attribute.name@, cx.shorthands.len() as int);
        assert(self.check("executing shorthand attributes"@).1 == self.after_asking(1));
    }

    proof fn lemma_flag_kept(self, cx: Surroundings, expression: Expression)
        requires
            self.valid(),
            self.eval.cancellation_flag.never_stops(),
        ensures
            self.evaluate_lazy(cx, expression).1.valid(),
            self.evaluate_lazy(cx, expression).1.eval.cancellation_flag.never_stops(),
    {
        self.lemma_evaluate_lazy_keeps(cx, expression);
    }

    proof fn lemma_node_attributes_from(
        self,
        cx: Surroundings,
        attributes: Seq<Attribute>,
        n: int,
        done: Seq<AttributeModel>,
    )
        requires
            self.after_plain(cx, attributes, n, 2).valid(),
            self.after_plain(cx, attributes, n, 2).eval.cancellation_flag.never_stops(),
            no_shorthands(cx, attributes),
            0 <= n <= attributes.len(),
            done.len() == n,
            forall|k: int|
                0 <= k < n ==> {
                    &&& (#[trigger] done[k]).name == attributes[k].name@
                    &&& self.plain_at(cx, attributes, k, 2) == Ok::<LazyModel, ErrorModel>(
                        done[k].value,
                    )
                },
            self.after_plain(cx, attributes, n, 2).node_attributes(
                cx,
                attributes,
                n,
                done,
            ).0 is Ok,
        ensures
            ({
                let (result, end) = self.after_plain(cx, attributes, n, 2).node_attributes(
                    cx,
                    attributes,
                    n,
                    done,
                );
                &&& self.collects(cx, attributes, 2, result->Ok_0)
                &&& end == self.after_plain(cx, attributes, attributes.len() as int, 2)
            }),
        decreases attributes.len() - n,
    {
        if n < attributes.len() {
            let before = self.after_plain(cx, attributes, n, 2);
            let state = before.check("executing graph node attributes"@).1;
            assert(state == before.after_asking(1));
            assert(state.after_asking(1) == before.after_asking(2));
            assert forall|j: int| 0 <= j < cx.shorthands.len() implies (
            #[trigger] cx.shorthands[j]).name@ != attributes[n].name@ by {
                let _ = attributes[n];
            }
            state.lemma_expand_plain(cx, attributes[n], done);
            let (value, after) = before.after_asking(2).evaluate_lazy(cx, attributes[n].value);
            assert(self.plain_at(cx, attributes, n, 2) == value);
            assert(after == self.after_plain(cx, attributes, n + 1, 2));
            before.after_asking(2).lemma_flag_kept(cx, attributes[n].value);
            let more = done.push(AttributeModel { name: attributes[n].name@, value: value->Ok_0 });
            assert forall|k: int| 0 <= k < n + 1 implies {
                &&& (#[trigger] more[k]).name == attributes[k].name@
                &&& self.plain_at(cx, attributes, k, 2) == Ok::<LazyModel, ErrorModel>(
                    more[k].value,
                )
            } by {
                if k < n {
                    assert(more[k] == done[k]);
                }
            }
            self.lemma_node_attributes_from(cx, attributes, n + 1, more);
        }
    }

    proof fn lemma_expand_all_from(
        self,
        cx: Surroundings,
        attributes: Seq<Attribute>,
        n: int,
        done: Seq<AttributeModel>,
    )
        requires
            self.after_plain(cx, attributes, n, 1).valid(),
            self.after_plain(cx, attributes, n, 1).eval.cancellation_flag.never_stops(),
            no_shorthands(cx, attributes),
            0 <= n <= attributes.len(),
            done.len() == n,
            forall|k: int|
                0 <= k < n ==> {
                    &&& (#[trigger] done[k]).name == attributes[k].name@
                    &&& self.plain_at(cx, attributes, k, 1) == Ok::<LazyModel, ErrorModel>(
                        done[k].value,
                    )
                },
            self.after_plain(cx, attributes, n, 1).expand_all(cx, attributes, n, done).0 is Ok,
        ensures
            ({
                let (result, all, end) = self.after_plain(cx, attributes, n, 1).expand_all(
                    cx,
                    attributes,
                    n,
                    done,
                );
                &&& self.collects(cx, attributes, 1, all)
                &&& end == self.after_plain(cx, attributes, attributes.len() as int, 1)
            }),
        decreases attributes.len() - n,
    {
        if n < attributes.len() {
            let before = self.after_plain(cx, attributes, n, 1);
            assert forall|j: int| 0 <= j < cx.shorthands.len() implies (
            #[trigger] cx.shorthands[j]).name@ != attributes[n].name@ by {
                let _ = attributes[n];
            }
            before.lemma_expand_plain(cx, attributes[n], done);
            let (value, after) = before.after_asking(1).evaluate_lazy(cx, attributes[n].value);
            assert(self.plain_at(cx, attributes, n, 1) == value);
            assert(after == self.after_plain(cx, attributes, n + 1, 1));
            before.after_asking(1).lemma_flag_kept(cx, attributes[n].value);
            let more = done.push(AttributeModel { name: attributes[n].name@, value: value->Ok_0 });
            assert forall|k: int| 0 <= k < n + 1 implies {
                &&& (#[trigger] more[k]).name == attributes[k].name@
                &&& self.plain_at(cx, attributes, k, 1) == Ok::<LazyModel, ErrorModel>(
                    more[k].value,
                )
            } by {
                if k < n {
                    assert(more[k] == done[k]);
                }
            }
            self.lemma_expand_all_from(cx, attributes, n + 1, more);
        }
    }

    /// Whether `error` is the error in the first of the values of the attributes that has one.
    pub open spec fn plain_fails_with(
        self,
        cx: Surroundings,
        attributes: Seq<Attribute>,
        checks: nat,
        error: ErrorModel,
    ) -> bool {
        exists|k: int|
            {
                &&& 0 <= k < attributes.len()
                &&& #[trigger] self.plain_at(cx, attributes, k, checks) == Err::<
                    LazyModel,
                    ErrorModel,
                >(error)
                &&& forall|j: int|
                    0 <= j < k ==> (#[trigger] self.plain_at(cx, attributes, j, checks)) is Ok
            }
    }

    proof fn lemma_node_attributes_fail(
        self,
        cx: Surroundings,
        attributes: Seq<Attribute>,
        n: int,
        done: Seq<AttributeModel>,
    )
        requires
            self.after_plain(cx, attributes, n, 2).valid(),
            self.after_plain(cx, attributes, n, 2).eval.cancellation_flag.never_stops(),
            no_shorthands(cx, attributes),
            0 <= n <= attributes.len(),
            forall|k: int| 0 <= k < n ==> (#[trigger] self.plain_at(cx, attributes, k, 2)) is Ok,
        ensures
            self.after_plain(cx, attributes, n, 2).node_attributes(
                cx,
                attributes,
                n,
                done,
            ).0 matches Err(e) ==> self.plain_fails_with(cx, attributes, 2, e),
        decreases attributes.len() - n,
    {
        if n < attributes.len() {
            let before = self.after_plain(cx, attributes, n, 2);
            let state = before.check("executing graph node attributes"@).1;
            assert(state == before.after_asking(1));
            assert(state.after_asking(1) == before.after_asking(2));
            assert forall|j: int| 0 <= j < cx.shorthands.len() implies (
            #[trigger] cx.shorthands[j]).name@ != attributes[n].name@ by {
                let _ = attributes[n];
            }
            state.lemma_expand_plain(cx, attributes[n], done);
            let (value, after) = before.after_asking(2).evaluate_lazy(cx, attributes[n].value);
            assert(self.plain_at(cx, attributes, n, 2) == value);
            assert(after == self.after_plain(cx, attributes, n + 1, 2));
            before.after_asking(2).lemma_flag_kept(cx, attributes[n].value);
            if let Ok(value) = value {
                let more = done.push(AttributeModel { name: attributes[n].name@, value });
                self.lemma_node_attributes_fail(cx, attributes, n + 1, more);
            }
        }
    }

    proof fn lemma_expand_all_fail(
        self,
        cx: Surroundings,
        attributes: Seq<Attribute>,
        n: int,
        done: Seq<AttributeModel>,
    )
        requires
            self.after_plain(cx, attributes, n, 1).valid(),
            self.after_plain(cx, attributes, n, 1).eval.cancellation_flag.never_stops(),
            no_shorthands(cx, attributes),
            0 <= n <= attributes.len(),
            forall|k: int| 0 <= k < n ==> (#[trigger] self.plain_at(cx, attributes, k, 1)) is Ok,
        ensures
            self.after_plain(cx, attributes, n, 1).expand_all(
                cx,
                attributes,
                n,
                done,
            ).0 matches Err(e) ==> self.plain_fails_with(cx, attributes, 1, e),
        decreases attributes.len() - n,
    {
        if n < attributes.len() {
            let before = self.after_plain(cx, attributes, n, 1);
            assert forall|j: int| 0 <= j < cx.shorthands.len() implies (
            #[trigger] cx.shorthands[j]).name@ != attributes[n].name@ by {
                let _ = attributes[n];
            }
            before.lemma_expand_plain(cx, attributes[n], done);
            let (value, after) = before.after_asking(1).evaluate_lazy(cx, attributes[n].value);
            assert(self.plain_at(cx, attributes, n, 1) == value);
            assert(after == self.after_plain(cx, attributes, n + 1, 1));
            before.after_asking(1).lemma_flag_kept(cx, attributes[n].value);
            if let Ok(value) = value {
                let more = done.push(AttributeModel { name: attributes[n].name@, value });
                self.lemma_expand_all_fail(cx, attributes, n + 1, more);
            }
        }
    }

    /// An attr statement on a node without shorthands fails only with an error in its node, or with
    /// the first error in the values of its attributes.
    pub proof fn lemma_attr_succeeds(self, cx: Surroundings, s: AddGraphNodeAttribute)
        requires
            self.valid(),
            self.eval.cancellation_flag.never_stops(),
            no_shorthands(cx, s.attributes@),
        ensures
            ({
                let (node, before) = self.evaluate_lazy(cx, s.node);
                self.perform(cx, Statement::AddGraphNodeAttribute(s)).0 matches Err(e) ==> {
                    ||| node == Err::<LazyModel, ErrorModel>(e)
                    ||| node is Ok && before.plain_fails_with(cx, s.attributes@, 2, e)
                }
            }),
    {
        self.lemma_flag_kept(cx, s.node);
        let before = self.evaluate_lazy(cx, s.node).1;
        before.lemma_node_attributes_fail(cx, s.attributes@, 0, Seq::empty());
    }

    /// An attr statement on an edge without shorthands fails only with an error in its ends, or
    /// with the first error in the values of its attributes.
    pub proof fn lemma_edge_attr_succeeds(self, cx: Surroundings, s: AddEdgeAttribute)
        requires
            self.valid(),
            self.eval.cancellation_flag.never_stops(),
            no_shorthands(cx, s.attributes@),
        ensures
            ({
                let (source, middle) = self.evaluate_lazy(cx, s.source);
                let (sink, before) = middle.evaluate_lazy(cx, s.sink);
                self.perform(cx, Statement::AddEdgeAttribute(s)).0 matches Err(e) ==> {
                    ||| source == Err::<LazyModel, ErrorModel>(e)
                    ||| source is Ok && sink == Err::<LazyModel, ErrorModel>(e)
                    ||| source is Ok && sink is Ok && before.plain_fails_with(
                        cx,
                        s.attributes@,
                        1,
                        e,
                    )
                }
            }),
    {
        self.lemma_flag_kept(cx, s.source);
        let middle = self.evaluate_lazy(cx, s.source).1;
        middle.lemma_flag_kept(cx, s.sink);
        let before = middle.evaluate_lazy(cx, s.sink).1;
        before.lemma_expand_all_fail(cx, s.attributes@, 0, Seq::empty());
    }

    /// An attr statement on a node that succeeds adds one statement to the lazy graph, for what its
    /// node stands for. Attributes that are no shorthands are in it as they are, in their order,
    /// each with what its own value stands for.
    pub proof fn lemma_attr_statement(self, cx: Surroundings, s: AddGraphNodeAttribute)
        requires
            self.valid(),
            self.eval.cancellation_flag.never_stops(),
            no_shorthands(cx, s.attributes@),
            self.perform(cx, Statement::AddGraphNodeAttribute(s)).0 is Ok,
        ensures
            ({
                let (node, before) = self.evaluate_lazy(cx, s.node);
                let after = before.after_plain(cx, s.attributes@, s.attributes@.len() as int, 2);
                let end = self.perform(cx, Statement::AddGraphNodeAttribute(s)).1;
                &&& node is Ok
                &&& exists|attributes: Seq<AttributeModel>|
                    {
                        &&& #[trigger] before.collects(cx, s.attributes@, 2, attributes)
                        &&& end == (ExecutionState {
                            lazy_graph: after.lazy_graph.push(
                                LazyStatementModel::AddGraphNodeAttribute {
                                    node: node->Ok_0,
                                    attributes,
                                    debug_info: s.location,
                                },
                            ),
                            ..after
                        })
                    }
            }),
    {
        self.lemma_flag_kept(cx, s.node);
        let before = self.evaluate_lazy(cx, s.node).1;
        before.lemma_node_attributes_from(cx, s.attributes@, 0, Seq::empty());
    }

    /// An attr statement on an edge that succeeds adds one statement to the lazy graph, for what
    /// the ends of the edge stand for. Attributes that are no shorthands are in it as they are, in
    /// their order, each with what its own value stands for.
    pub proof fn lemma_edge_attr_statement(self, cx: Surroundings, s: AddEdgeAttribute)
        requires
            self.valid(),
            self.eval.cancellation_flag.never_stops(),
            no_shorthands(cx, s.attributes@),
            self.perform(cx, Statement::AddEdgeAttribute(s)).0 is Ok,
        ensures
            ({
                let (source, middle) = self.evaluate_lazy(cx, s.source);
                let (sink, before) = middle.evaluate_lazy(cx, s.sink);
                let after = before.after_plain(cx, s.attributes@, s.attributes@.len() as int, 1);
                let end = self.perform(cx, Statement::AddEdgeAttribute(s)).1;
                &&& source is Ok
                &&& sink is Ok
                &&& exists|attributes: Seq<AttributeModel>|
                    {
                        &&& #[trigger] before.collects(cx, s.attributes@, 1, attributes)
                        &&& end == (ExecutionState {
                            lazy_graph: after.lazy_graph.push(
                                LazyStatementModel::AddEdgeAttribute {
                                    source: source->Ok_0,
                                    sink: sink->Ok_0,
                                    attributes,
                                    debug_info: s.location,
                                },
                            ),
                            ..after
                        })
                    }
            }),
    {
        self.lemma_flag_kept(cx, s.source);
        let middle = self.evaluate_lazy(cx, s.source).1;
        middle.lemma_flag_kept(cx, s.sink);
        let before = middle.evaluate_lazy(cx, s.sink).1;
        before.lemma_expand_all_from(cx, s.attributes@, 0, Seq::empty());
    }

    /// Attributes are expanded in their order: first those at the beginning, and then, unless there
    /// was an error, the others.
    pub proof fn lemma_attributes_in_order(
        self,
        cx: Surroundings,
        first: Seq<Attribute>,
        second: Seq<Attribute>,
        done: Seq<AttributeModel>,
    )
        ensures
            ({
                let (result, more, after) = self.expand_all(cx, first, 0, done);
                self.expand_all(cx, first + second, 0, done) == match result {
                    Ok(_) => after.expand_all(cx, second, 0, more),
                    Err(e) => (Err(e), more, after),
                }
            }),
    {
        self.lemma_attributes_split(cx, first, second, 0, done);
    }

    proof fn lemma_attributes_split(
        self,
        cx: Surroundings,
        first: Seq<Attribute>,
        second: Seq<Attribute>,
        i: int,
        done: Seq<AttributeModel>,
    )
        requires
            0 <= i <= first.len(),
        ensures
            ({
                let (result, more, after) = self.expand_all(cx, first, i, done);
                self.expand_all(cx, first + second, i, done) == match result {
                    Ok(_) => after.expand_all(cx, second, 0, more),
                    Err(e) => (Err(e), more, after),
                }
            }),
        decreases first.len() - i,
    {
        if i < first.len() {
            assert((first + second)[i] == first[i]);
            let (result, more, after) = self.expand(cx, first[i], done);
            if result is Ok {
                after.lemma_attributes_split(cx, first, second, i + 1, more);
            }
        } else {
            self.lemma_attributes_shift(cx, first, second, 0, done);
        }
    }

    proof fn lemma_attributes_shift(
        self,
        cx: Surroundings,
        first: Seq<Attribute>,
        second: Seq<Attribute>,
        i: int,
        done: Seq<AttributeModel>,
    )
        requires
            0 <= i <= second.len(),
        ensures
            self.expand_all(cx, first + second, first.len() + i, done) == self.expand_all(
                cx,
                second,
                i,
                done,
            ),
        decreases second.len() - i,
    {
        if i < second.len() {
            assert((first + second)[first.len() + i] == second[i]);
            let (result, more, after) = self.expand(cx, second[i], done);
            if result is Ok {
                after.lemma_attributes_shift(cx, first, second, i + 1, more);
            }
        }
    }

    /// One attribute of an edge is just expanded.
    pub proof fn lemma_attribute_of_one(
        self,
        cx: Surroundings,
        attribute: Attribute,
        done: Seq<AttributeModel>,
    )
        ensures
            self.expand_all(cx, seq![attribute], 0, done) == self.expand(cx, attribute, done),
    {
        let one = seq![attribute];
        let (result, more, after) = self.expand(cx, one[0], done);
        assert(after.expand_all(cx, one, 1, more) == (Ok::<(), ErrorModel>(()), more, after));
        if let Ok(unit) = result {
            assert(unit == ());
        }
    }

    /// The attributes of a node are expanded in their order, too.
    pub proof fn lemma_node_attributes_in_order(
        self,
        cx: Surroundings,
        first: Seq<Attribute>,
        second: Seq<Attribute>,
    )
        ensures
            ({
                let (result, after) = self.node_attributes(cx, first, 0, Seq::empty());
                self.node_attributes(cx, first + second, 0, Seq::empty()) == match result {
                    Ok(more) => after.node_attributes(cx, second, 0, more),
                    Err(e) => (Err(e), after),
                }
            }),
    {
        self.lemma_node_attributes_split(cx, first, second, 0, Seq::empty());
    }

    proof fn lemma_node_attributes_split(
        self,
        cx: Surroundings,
        first: Seq<Attribute>,
        second: Seq<Attribute>,
        i: int,
        done: Seq<AttributeModel>,
    )
        requires
            0 <= i <= first.len(),
        ensures
            ({
                let (result, after) = self.node_attributes(cx, first, i, done);
                self.node_attributes(cx, first + second, i, done) == match result {
                    Ok(more) => after.node_attributes(cx, second, 0, more),
                    Err(e) => (Err(e), after),
                }
            }),
        decreases first.len() - i,
    {
        if i < first.len() {
            assert((first + second)[i] == first[i]);
            let (checked, state) = self.check("executing graph node attributes"@);
            if checked is Ok {
                let (result, more, after) = state.expand(cx, first[i], done);
                if result is Ok {
                    after.lemma_node_attributes_split(cx, first, second, i + 1, more);
                }
            }
        } else {
            self.lemma_node_attributes_shift(cx, first, second, 0, done);
        }
    }

    proof fn lemma_node_attributes_shift(
        self,
        cx: Surroundings,
        first: Seq<Attribute>,
        second: Seq<Attribute>,
        i: int,
        done: Seq<AttributeModel>,
    )
        requires
            0 <= i <= second.len(),
        ensures
            self.node_attributes(cx, first + second, first.len() + i, done)
                == self.node_attributes(cx, second, i, done),
        decreases second.len() - i,
    {
        if i < second.len() {
            assert((first + second)[first.len() + i] == second[i]);
            let (checked, state) = self.check("executing graph node attributes"@);
            if checked is Ok {
                let (result, more, after) = state.expand(cx, second[i], done);
                if result is Ok {
                    after.lemma_node_attributes_shift(cx, first, second, i + 1, more);
                }
            }
        }
    }

    /// One attribute of a node is expanded like one of an edge, after the flag has been checked.
    pub proof fn lemma_node_attribute_of_one(
        self,
        cx: Surroundings,
        attribute: Attribute,
        done: Seq<AttributeModel>,
    )
        requires
            self.eval.cancellation_flag.next("executing graph node attributes"@) is None,
        ensures
            ({
                let (result, more, after) = self.after_asking(1).expand(cx, attribute, done);
                self.node_attributes(cx, seq![attribute], 0, done) == match result {
                    Ok(_) => (Ok::<Seq<AttributeModel>, ErrorModel>(more), after),
                    Err(e) => (Err(e), after),
                }
            }),
    {
        assert(self.check("executing graph node attributes"@).1 == self.after_asking(1));
        let (result, more, after) = self.after_asking(1).expand(cx, attribute, done);
        assert(after.node_attributes(cx, seq![attribute], 1, more) == (
            Ok::<Seq<AttributeModel>, ErrorModel>(more),
            after,
        ));
    }

    /// What an attribute is expanded to comes after what is there, and does not depend on it.
    pub proof fn lemma_expand_appends(
        self,
        cx: Surroundings,
        attribute: Attribute,
        done: Seq<AttributeModel>,
    )
        ensures
            ({
                let (result, more, after) = self.expand(cx, attribute, Seq::empty());
                self.expand(cx, attribute, done) == (result, done + more, after)
            }),
        decreases usize::MAX - cx.open_shorthands, 1int, 0int,
    {
        let none = Seq::<AttributeModel>::empty();
        assert(done + none =~= done);
        let (checked, state) = self.check("executing shorthand attributes"@);
        let (value, after) = state.evaluate_lazy(cx, attribute.value);
        if checked is Ok && value is Ok {
            let value = value->Ok_0;
            let added = AttributeModel { name: attribute.name@, value };
            assert(done.push(added) =~= done + none.push(added));
            let position = AttributeShorthands::position(cx.shorthands, attribute.name@);
            if position >= 0 && cx.open_shorthands < usize::MAX {
                let shorthand = cx.shorthands[position];
                let inside = Surroundings { open_shorthands: cx.open_shorthands + 1, ..cx };
                let fresh = ExecutionState { locals: seq![Map::empty()], ..after };
                let block = fresh.declare(cx, shorthand.variable, value, false).1;
                block.lemma_expand_all_appends(inside, shorthand.attributes@, 0, none, done);
            }
        }
    }

    proof fn lemma_expand_all_appends(
        self,
        cx: Surroundings,
        attributes: Seq<Attribute>,
        i: int,
        done: Seq<AttributeModel>,
        before: Seq<AttributeModel>,
    )
        requires
            0 <= i <= attributes.len(),
        ensures
            ({
                let (result, more, after) = self.expand_all(cx, attributes, i, done);
                self.expand_all(cx, attributes, i, before + done) == (
                    result,
                    before + more,
                    after,
                )
            }),
        decreases usize::MAX - cx.open_shorthands, 2int, attributes.len() - i,
    {
        if i < attributes.len() {
            self.lemma_expand_appends(cx, attributes[i], done);
            self.lemma_expand_appends(cx, attributes[i], before + done);
            let (result, more, after) = self.expand(cx, attributes[i], Seq::empty());
            assert(before + done + more =~= before + (done + more));
            if result is Ok {
                after.lemma_expand_all_appends(cx, attributes, i + 1, done + more, before);
            }
        }
    }

    /// The use of a shorthand whose variable has the name of a global variable is an error, and so
    /// is one inside of so many others that they cannot be counted. Nothing is added then, and the
    /// local variables stay as they are.
    pub proof fn lemma_shorthand_fails(
        self,
        cx: Surroundings,
        attribute: Attribute,
        p: int,
        done: Seq<AttributeModel>,
    )
        requires
            self.eval.cancellation_flag.next("executing shorthand attributes"@) is None,
            0 <= p < cx.shorthands.len(),
            cx.shorthands[p].name@ == attribute.name@,
            forall|j: int|
                p < j < cx.shorthands.len() ==> (#[trigger] cx.shorthands[j]).name@
                    != attribute.name@,
            cx.globals.contains_key(cx.shorthands[p].variable.name@) || cx.open_shorthands
                >= usize::MAX,
        ensures
            ({
                let shorthand = cx.shorthands[p];
                let (value, before) = self.after_asking(1).evaluate_lazy(cx, attribute.value);
                self.expand(cx, attribute, done) == (
                    Err::<(), ErrorModel>(
                        match value {
                            Err(e) => e,
                            Ok(_) => if cx.open_shorthands >= usize::MAX {
                                ErrorModel::RecursivelyDefinedShorthand(shorthand.name@)
                            } else {
                                ErrorModel::DuplicateVariable(
                                    " global "@ + shorthand.variable.name@,
                                )
                            },
                        },
                    ),
                    done,
                    before,
                )
            }),
    {
        lemma_last_shorthand(cx.shorthands, attribute.name@, p);
        assert(self.check("executing shorthand attributes"@).1 == self.after_asking(1));
    }

    /// The use of a shorthand stands for the attributes of the shorthand, in the same surroundings:
    /// with the same groups, match and global variables. They see one local variable, that of the
    /// shorthand, which stands for the value that the shorthand is used with. After that the local
    /// variables are as they were.
    pub proof fn lemma_shorthand_used(
        self,
        cx: Surroundings,
        attribute: Attribute,
        p: int,
        done: Seq<AttributeModel>,
    )
        requires
            self.eval.cancellation_flag.next("executing shorthand attributes"@) is None,
            0 <= p < cx.shorthands.len(),
            cx.shorthands[p].name@ == attribute.name@,
            forall|j: int|
                p < j < cx.shorthands.len() ==> (#[trigger] cx.shorthands[j]).name@
                    != attribute.name@,
            !cx.globals.contains_key(cx.shorthands[p].variable.name@),
            cx.open_shorthands < usize::MAX,
            self.after_asking(1).evaluate_lazy(cx, attribute.value).0 is Ok,
        ensures
            ({
                let shorthand = cx.shorthands[p];
                let (value, before) = self.after_asking(1).evaluate_lazy(cx, attribute.value);
                exists|block: ExecutionState|
                    {
                        &&& #[trigger] block.just_declared(cx, shorthand.variable, value->Ok_0)
                        &&& block.locals.len() == 1
                        &&& forall|name: Seq<char>| #[trigger]
                            block.locals.last().contains_key(name) <==> name
                                == shorthand.variable.name@
                        &&& !block.locals.last()[shorthand.variable.name@].mutable
                        &&& block.eval.store.drop_last() == before.eval.store
                        &&& block.eval == (EvaluationState {
                            store: block.eval.store,
                            ..before.eval
                        })
                        &&& block.lazy_graph == before.lazy_graph
                        &&& ({
                            let (result, all, after) = block.expand_all(
                                Surroundings { open_shorthands: cx.open_shorthands + 1, ..cx },
                                shorthand.attributes@,
                                0,
                                done,
                            );
                            self.expand(cx, attribute, done) == (
                                result,
                                all,
                                ExecutionState { locals: self.locals, ..after },
                            )
                        })
                    }
            }),
    {
        let shorthand = cx.shorthands[p];
        lemma_last_shorthand(cx.shorthands, attribute.name@, p);
        assert(self.check("executing shorthand attributes"@).1 == self.after_asking(1));
        self.after_asking(1).lemma_locals_left_alone(cx, attribute.value);
        let (value, before) = self.after_asking(1).evaluate_lazy(cx, attribute.value);
        let fresh = ExecutionState { locals: seq![Map::empty()], ..before };
        let block = fresh.declare(cx, shorthand.variable, value->Ok_0, false).1;
        assert(fresh.locals.last() == Map::<
            Seq<char>,
            crate::variables::LocalModel,
        >::empty());
        assert(block.locals.last().contains_key(shorthand.variable.name@));
        assert(block.eval.store.drop_last() =~= before.eval.store);
        assert(block.just_declared(cx, shorthand.variable, value->Ok_0));
    }
}

} // verus!
