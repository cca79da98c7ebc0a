//! Laws of what expressions stand for.

use vstd::prelude::*;

use crate::ast::Call;
use crate::ast::Capture;
use crate::ast::CaptureQuantifier;
use crate::ast::Expression;
use crate::ast::ListComprehension;
use crate::ast::ListLiteral;
use crate::ast::RegexCapture;
use crate::ast::ScopedVariable;
use crate::ast::SetComprehension;
use crate::ast::SetLiteral;
use crate::ast::UnscopedVariable;
use crate::ast::Variable;
use crate::error::ErrorModel;
use crate::graph::GraphModel;
use crate::lazy::evaluation::EvaluationState;
use crate::lazy::execution::ExecutionState;
use crate::lazy::execution::Surroundings;
use crate::lazy::store::ThunkStateModel;
use crate::lazy::values::LazyModel;
use crate::matching::CaptureModel;
use crate::values::SyntaxNodeModel;
use crate::values::ValueModel;

verus! {

impl Expression {
    /// The value that is written down, if the expression is a literal or a constant.
    pub open spec fn constant(self) -> Option<ValueModel> {
        match self {
            Expression::FalseLiteral => Some(ValueModel::Boolean(false)),
            Expression::TrueLiteral => Some(ValueModel::Boolean(true)),
            Expression::NullLiteral => Some(ValueModel::Null),
            Expression::IntegerConstant(e) => Some(ValueModel::Integer(e.value)),
            Expression::StringConstant(e) => Some(ValueModel::String(e.value@)),
            _ => None,
        }
    }
}

impl ExecutionState {
    /// A literal or a constant stands for what is written down, and changes nothing. Evaluated at
    /// once it is just that.
    pub proof fn lemma_constant(self, cx: Surroundings, expression: Expression)
        requires
            expression.constant() is Some,
        ensures
            self.evaluate_lazy(cx, expression) == (
                Ok::<LazyModel, ErrorModel>(LazyModel::Value(expression.constant()->Some_0)),
                self,
            ),
            self.eval.cancellation_flag.next("evaluating value"@) is None ==> self.evaluate_eager(
                cx,
                expression,
            ).0 == Ok::<ValueModel, ErrorModel>(expression.constant()->Some_0),
            self.evaluate_eager(cx, expression).1 == self.check("evaluating value"@).1,
    {
    }

    /// Evaluating an expression at once gives what the value that it stands for comes to.
    pub proof fn lemma_eager(self, cx: Surroundings, expression: Expression)
        ensures
            ({
                let (lazy, state) = self.evaluate_lazy(cx, expression);
                let (eager, end) = self.evaluate_eager(cx, expression);
                match lazy {
                    Ok(value) => {
                        &&& eager == state.eval.evaluate(value).0
                        &&& end.eval == state.eval.evaluate(value).1
                        &&& end.locals == state.locals
                        &&& end.lazy_graph == state.lazy_graph
                    },
                    Err(e) => eager == Err::<ValueModel, ErrorModel>(e) && end == state,
                }
            }),
    {
    }

    /// The state after the first `k` of the expressions have been turned into lazy values, one
    /// after the other.
    pub open spec fn after_expressions(
        self,
        cx: Surroundings,
        expressions: Seq<Expression>,
        k: int,
    ) -> ExecutionState
        decreases k,
    {
        if k <= 0 {
            self
        } else {
            self.after_expressions(cx, expressions, k - 1).evaluate_lazy(cx, expressions[k - 1]).1
        }
    }

    /// What the expression at position `k` stands for, when they are taken one after the other.
    pub open spec fn expression_at(
        self,
        cx: Surroundings,
        expressions: Seq<Expression>,
        k: int,
    ) -> Result<LazyModel, ErrorModel> {
        self.after_expressions(cx, expressions, k).evaluate_lazy(cx, expressions[k]).0
    }

    /// Whether `values` is what the expressions stand for, in order, and `end` is the state after
    /// that.
    pub open spec fn expressions_stand_for(
        self,
        cx: Surroundings,
        expressions: Seq<Expression>,
        values: Seq<LazyModel>,
        end: ExecutionState,
    ) -> bool {
        &&& values.len() == expressions.len()
        &&& forall|k: int|
            0 <= k < expressions.len() ==> #[trigger] self.expression_at(cx, expressions, k)
                == Ok::<LazyModel, ErrorModel>(values[k])
        &&& end == self.after_expressions(cx, expressions, expressions.len() as int)
    }

    /// Whether `error` is the error in the first of the expressions that has one, and `end` is the
    /// state after that.
    pub open spec fn expressions_fail_with(
        self,
        cx: Surroundings,
        expressions: Seq<Expression>,
        error: ErrorModel,
        end: ExecutionState,
    ) -> bool {
        exists|k: int|
            {
                &&& 0 <= k < expressions.len()
                &&& #[trigger] self.expression_at(cx, expressions, k) == Err::<
                    LazyModel,
                    ErrorModel,
                >(error)
                &&& forall|j: int|
                    0 <= j < k ==> (#[trigger] self.expression_at(cx, expressions, j)) is Ok
                &&& end == self.after_expressions(cx, expressions, k + 1)
            }
    }

    proof fn lemma_expressions_from(
        self,
        cx: Surroundings,
        expressions: Seq<Expression>,
        done: Seq<LazyModel>,
    )
        requires
            done.len() <= expressions.len(),
            forall|j: int|
                0 <= j < done.len() ==> #[trigger] self.expression_at(cx, expressions, j) == Ok::<
                    LazyModel,
                    ErrorModel,
                >(done[j]),
        ensures
            ({
                let n = done.len() as int;
                let (result, end) = self.after_expressions(cx, expressions, n).evaluate_lazy_all(
                    cx,
                    expressions,
                    n,
                    done,
                );
                match result {
                    Ok(values) => self.expressions_stand_for(cx, expressions, values, end),
                    Err(e) => self.expressions_fail_with(cx, expressions, e, end),
                }
            }),
        decreases expressions.len() - done.len(),
    {
        let n = done.len() as int;
        if n < expressions.len() {
            let before = self.after_expressions(cx, expressions, n);
            let (result, after) = before.evaluate_lazy(cx, expressions[n]);
            assert(self.expression_at(cx, expressions, n) == result);
            assert(after == self.after_expressions(cx, expressions, n + 1));
            if let Ok(value) = result {
                let more = done.push(value);
                assert forall|j: int| 0 <= j < more.len() implies #[trigger] self.expression_at(
                    cx,
                    expressions,
                    j,
                ) == Ok::<LazyModel, ErrorModel>(more[j]) by {
                    if j < n {
                        assert(more[j] == done[j]);
                    }
                }
                self.lemma_expressions_from(cx, expressions, more);
            }
        }
    }

    /// A list literal stands for the list of what its elements stand for, each at its own place.
    pub proof fn lemma_list_literal(self, cx: Surroundings, list: ListLiteral)
        ensures
            ({
                let (result, end) = self.evaluate_lazy(cx, Expression::ListLiteral(list));
                match result {
                    Ok(value) => value is List && self.expressions_stand_for(
                        cx,
                        list.elements@,
                        value->List_0,
                        end,
                    ),
                    Err(e) => self.expressions_fail_with(cx, list.elements@, e, end),
                }
            }),
    {
        self.lemma_expressions_from(cx, list.elements@, Seq::empty());
    }

    /// A set literal stands for the set of what its elements stand for.
    pub proof fn lemma_set_literal(self, cx: Surroundings, set: SetLiteral)
        ensures
            ({
                let (result, end) = self.evaluate_lazy(cx, Expression::SetLiteral(set));
                match result {
                    Ok(value) => value is LazySet && self.expressions_stand_for(
                        cx,
                        set.elements@,
                        value->LazySet_0,
                        end,
                    ),
                    Err(e) => self.expressions_fail_with(cx, set.elements@, e, end),
                }
            }),
    {
        self.lemma_expressions_from(cx, set.elements@, Seq::empty());
    }

    /// A call stands for the call of the function that it names with what its parameters stand for,
    /// in their order. Nothing is called yet.
    pub proof fn lemma_call(self, cx: Surroundings, call: Call)
        ensures
            ({
                let (result, end) = self.evaluate_lazy(cx, Expression::Call(call));
                match result {
                    Ok(value) => value is Call && value->Call_0 == call.function@
                        && self.expressions_stand_for(cx, call.parameters@, value->Call_1, end),
                    Err(e) => self.expressions_fail_with(cx, call.parameters@, e, end),
                }
            }),
    {
        self.lemma_expressions_from(cx, call.parameters@, Seq::empty());
    }

    proof fn lemma_constants(self, cx: Surroundings, expressions: Seq<Expression>, k: int)
        requires
            k <= expressions.len(),
            forall|j: int|
                0 <= j < expressions.len() ==> (#[trigger] expressions[j]).constant() is Some,
        ensures
            self.after_expressions(cx, expressions, k) == self,
        decreases k,
    {
        if k > 0 {
            self.lemma_constants(cx, expressions, k - 1);
            assert(expressions[k - 1].constant() is Some);
        }
    }

    /// A list of constants, evaluated at once, is the list of these, in their order.
    pub proof fn lemma_constant_list(self, cx: Surroundings, list: ListLiteral)
        requires
            self.valid(),
            self.eval.cancellation_flag.never_stops(),
            forall|j: int|
                0 <= j < list.elements@.len() ==> (
                #[trigger] list.elements@[j]).constant() is Some,
        ensures
            self.evaluate_eager(cx, Expression::ListLiteral(list)).0 == Ok::<
                ValueModel,
                ErrorModel,
            >(
                ValueModel::List(
                    Seq::new(
                        list.elements@.len(),
                        |i: int| list.elements@[i].constant()->Some_0,
                    ),
                ),
            ),
    {
        let constants = Seq::new(
            list.elements@.len(),
            |i: int| list.elements@[i].constant()->Some_0,
        );
        let plain = Seq::new(constants.len(), |i: int| LazyModel::Value(constants[i]));
        self.lemma_list_literal(cx, list);
        let (result, end) = self.evaluate_lazy(cx, Expression::ListLiteral(list));
        assert forall|k: int| 0 <= k < plain.len() implies #[trigger] self.expression_at(
            cx,
            list.elements@,
            k,
        ) == Ok::<LazyModel, ErrorModel>(plain[k]) by {
            self.lemma_constants(cx, list.elements@, k);
            assert(list.elements@[k].constant() is Some);
        }
        self.lemma_constants(cx, list.elements@, plain.len() as int);
        if let Ok(value) = result {
            let found = value->List_0;
            assert forall|k: int| 0 <= k < plain.len() implies found[k] == plain[k] by {
                assert(self.expression_at(cx, list.elements@, k) == Ok::<LazyModel, ErrorModel>(
                    plain[k],
                ));
            }
            assert(found =~= plain);
            self.eval.lemma_plain_list(constants);
        } else {
            let error = result->Err_0;
            let k = choose|k: int|
                0 <= k < list.elements@.len() && #[trigger] self.expression_at(
                    cx,
                    list.elements@,
                    k,
                ) == Err::<LazyModel, ErrorModel>(error);
            assert(self.expression_at(cx, list.elements@, k) is Ok);
        }
    }

    /// A group of a regular expression stands for what it matched in the scan arm that is being
    /// executed, as a string. There must be such a group.
    pub proof fn lemma_group(self, cx: Surroundings, group: RegexCapture)
        ensures
            group.match_index < cx.current_regex_captures.len() ==> self.evaluate_lazy(
                cx,
                Expression::RegexCapture(group),
            ) == (
                Ok::<LazyModel, ErrorModel>(
                    LazyModel::Value(
                        ValueModel::String(cx.current_regex_captures[group.match_index as int]),
                    ),
                ),
                self,
            ),
            group.match_index >= cx.current_regex_captures.len() ==> self.evaluate_lazy(
                cx,
                Expression::RegexCapture(group),
            ).0 is Err,
    {
    }

    /// A variable that is not scoped stands for the value of the global variable of its name, and
    /// if there is none, for that of the local variable in the innermost of the blocks that declare
    /// one. If no block does, that is an error. Nothing is changed.
    pub proof fn lemma_variable(self, cx: Surroundings, variable: UnscopedVariable, i: int)
        ensures
            ({
                let name = variable.name@;
                let (result, end) = self.evaluate_lazy(
                    cx,
                    Expression::Variable(Variable::Unscoped(variable)),
                );
                &&& end == self
                &&& cx.globals.contains_key(name) ==> result == Ok::<LazyModel, ErrorModel>(
                    LazyModel::Value(cx.globals[name]),
                )
                &&& !cx.globals.contains_key(name) && 0 <= i < self.locals.len()
                    && self.locals[i].contains_key(name) && (forall|j: int|
                    i < j < self.locals.len() ==> !(#[trigger] self.locals[j]).contains_key(name))
                    ==> result == Ok::<LazyModel, ErrorModel>(self.locals[i][name].value)
                &&& !cx.globals.contains_key(name) && (forall|j: int|
                    0 <= j < self.locals.len() ==> !(#[trigger] self.locals[j]).contains_key(name))
                    ==> result == Err::<LazyModel, ErrorModel>(
                    ErrorModel::UndefinedVariable(name),
                )
            }),
    {
        lemma_innermost(self.locals, variable.name@, i, self.locals.len() as int);
    }

    /// A variable of a syntax node stands for the variable of this name of what its scope stands
    /// for. It is not looked up yet.
    pub proof fn lemma_scoped_expression(self, cx: Surroundings, variable: ScopedVariable)
        ensures
            ({
                let (scope, after) = self.evaluate_lazy(cx, *variable.scope);
                self.evaluate_lazy(cx, Expression::Variable(Variable::Scoped(variable))) == (
                    match scope {
                        Ok(scope) => Ok::<LazyModel, ErrorModel>(
                            LazyModel::ScopedVariable(Box::new(scope), variable.name@),
                        ),
                        Err(e) => Err(e),
                    },
                    after,
                )
            }),
    {
    }
}

proof fn lemma_innermost(
    blocks: Seq<Map<Seq<char>, crate::variables::LocalModel>>,
    name: Seq<char>,
    i: int,
    n: int,
)
    requires
        0 <= n <= blocks.len(),
    ensures
        0 <= i < n && blocks[i].contains_key(name) && (forall|j: int|
            i < j < n ==> !(#[trigger] blocks[j]).contains_key(name))
            ==> crate::variables::block_of(blocks, name, n) == i,
        (forall|j: int| 0 <= j < n ==> !(#[trigger] blocks[j]).contains_key(name))
            ==> crate::variables::block_of(blocks, name, n) == -1,
    decreases n,
{
    if n > 0 {
        lemma_innermost(blocks, name, i, n - 1);
    }
}

/// The nodes that were captured under `index`, in the order of the captures.
pub open spec fn nodes_captured(captures: Seq<CaptureModel>, index: usize) -> Seq<SyntaxNodeModel> {
    captures.filter(|capture: CaptureModel| capture.index == index).map_values(
        |capture: CaptureModel| capture.node,
    )
}

/// Nodes are captured in the order of the captures.
pub proof fn lemma_nodes_captured(captures: Seq<CaptureModel>, index: usize, n: int)
    requires
        0 <= n <= captures.len(),
    ensures
        crate::lazy::execution::captured(captures, index, n) == nodes_captured(
            captures.take(n),
            index,
        ),
    decreases n,
{
    let chosen = |capture: CaptureModel| capture.index == index;
    let node = |capture: CaptureModel| capture.node;
    reveal(Seq::filter);
    if n > 0 {
        lemma_nodes_captured(captures, index, n - 1);
        let part = captures.take(n);
        assert(part.drop_last() =~= captures.take(n - 1));
        assert(part.last() == captures[n - 1]);
        let before = captures.take(n - 1).filter(chosen);
        if captures[n - 1].index == index {
            assert(part.filter(chosen) == before.push(captures[n - 1]));
            assert(before.push(captures[n - 1]).map_values(node) =~= before.map_values(node).push(
                captures[n - 1].node,
            ));
        }
    } else {
        assert(captures.take(0).filter(chosen).map_values(node) =~= Seq::empty());
    }
}

proof fn lemma_known(graph: GraphModel, nodes: Seq<SyntaxNodeModel>, n: int)
    requires
        0 <= n <= nodes.len(),
    ensures
        ({
            let after = crate::lazy::execution::with_syntax_nodes(graph, nodes, n);
            &&& after.graph_nodes == graph.graph_nodes
            &&& graph.syntax_nodes.submap_of(after.syntax_nodes)
            &&& forall|k: int|
                0 <= k < n ==> after.syntax_nodes.contains_key((#[trigger] nodes[k]).index)
        }),
    decreases n,
{
    if n > 0 {
        lemma_known(graph, nodes, n - 1);
        let before = crate::lazy::execution::with_syntax_nodes(graph, nodes, n - 1);
        let after = crate::lazy::execution::with_syntax_nodes(graph, nodes, n);
        assert(before.syntax_nodes.submap_of(after.syntax_nodes));
        vstd::map_lib::lemma_submap_of_trans(
            graph.syntax_nodes,
            before.syntax_nodes,
            after.syntax_nodes,
        );
        assert forall|k: int| 0 <= k < n implies after.syntax_nodes.contains_key(
            (#[trigger] nodes[k]).index,
        ) by {
            if k < n - 1 {
                assert(before.syntax_nodes.contains_key(nodes[k].index));
            }
        }
    }
}

impl ExecutionState {
    /// A capture stands for the first node that the match captured under its index, if it occurs at
    /// most once; for null, if it may be missing and is; and for the list of all these nodes, in
    /// order, if it may occur several times. A capture that must be there and is not is an error.
    /// The nodes become known to the graph, and nothing else changes.
    pub proof fn lemma_capture(self, cx: Surroundings, capture: Capture)
        ensures
            ({
                let nodes = nodes_captured(cx.mat.captures, capture.file_capture_index);
                let (result, end) = self.evaluate_lazy(cx, Expression::Capture(capture));
                &&& match capture.quantifier {
                    CaptureQuantifier::Zero => result is Err,
                    CaptureQuantifier::One => if nodes.len() > 0 {
                        result == Ok::<LazyModel, ErrorModel>(
                            LazyModel::Value(ValueModel::SyntaxNode(nodes[0])),
                        )
                    } else {
                        result is Err
                    },
                    CaptureQuantifier::ZeroOrOne => if nodes.len() > 0 {
                        result == Ok::<LazyModel, ErrorModel>(
                            LazyModel::Value(ValueModel::SyntaxNode(nodes[0])),
                        )
                    } else {
                        result == Ok::<LazyModel, ErrorModel>(LazyModel::Value(ValueModel::Null))
                    },
                    _ => {
                        &&& result matches Ok(LazyModel::Value(ValueModel::List(list)))
                        &&& list.len() == nodes.len()
                        &&& forall|k: int|
                            0 <= k < nodes.len() ==> (#[trigger] list[k]) == ValueModel::SyntaxNode(
                                nodes[k],
                            )
                    },
                }
                &&& end.locals == self.locals
                &&& end.lazy_graph == self.lazy_graph
                &&& end.eval == (EvaluationState { graph: end.eval.graph, ..self.eval })
                &&& end.eval.graph.graph_nodes == self.eval.graph.graph_nodes
                &&& self.eval.graph.syntax_nodes.submap_of(end.eval.graph.syntax_nodes)
                &&& result matches Ok(LazyModel::Value(ValueModel::SyntaxNode(node)))
                    ==> end.eval.graph.syntax_nodes.contains_key(node.index)
                &&& result matches Ok(LazyModel::Value(ValueModel::List(_))) ==> forall|k: int|
                    0 <= k < nodes.len() ==> end.eval.graph.syntax_nodes.contains_key(
                        (#[trigger] nodes[k]).index,
                    )
            }),
    {
        let captures = cx.mat.captures;
        lemma_nodes_captured(captures, capture.file_capture_index, captures.len() as int);
        assert(captures.take(captures.len() as int) =~= captures);
        let nodes = nodes_captured(captures, capture.file_capture_index);
        lemma_known(self.eval.graph, nodes, nodes.len() as int);
    }

    /// Expressions leave all local variables as they are.
    pub proof fn lemma_locals_left_alone(self, cx: Surroundings, expression: Expression)
        ensures
            self.evaluate_lazy(cx, expression).1.locals == self.locals,
        decreases expression, 0int,
    {
        match expression {
            Expression::ListLiteral(e) => {
                self.lemma_all_locals(cx, e.elements@, 0, Seq::empty());
            },
            Expression::SetLiteral(e) => {
                self.lemma_all_locals(cx, e.elements@, 0, Seq::empty());
            },
            Expression::Call(e) => {
                self.lemma_all_locals(cx, e.parameters@, 0, Seq::empty());
            },
            Expression::ListComprehension(e) => {
                self.lemma_locals_left_alone(cx, *e.value);
                let (list, before) = self.evaluate_list(cx, *e.value);
                if let Ok(list) = list {
                    before.enter().lemma_comprehend_locals(
                        cx,
                        "executing list comprehension values"@,
                        e.variable,
                        *e.element,
                        list,
                        0,
                        Seq::empty(),
                    );
                    assert(before.enter().locals.drop_last() =~= before.locals);
                }
            },
            Expression::SetComprehension(e) => {
                self.lemma_locals_left_alone(cx, *e.value);
                let (list, before) = self.evaluate_list(cx, *e.value);
                if let Ok(list) = list {
                    before.enter().lemma_comprehend_locals(
                        cx,
                        "executing set comprehension values"@,
                        e.variable,
                        *e.element,
                        list,
                        0,
                        Seq::empty(),
                    );
                    assert(before.enter().locals.drop_last() =~= before.locals);
                }
            },
            Expression::Variable(Variable::Scoped(e)) => {
                self.lemma_locals_left_alone(cx, *e.scope);
            },
            _ => {},
        }
    }

    proof fn lemma_all_locals(
        self,
        cx: Surroundings,
        expressions: Seq<Expression>,
        i: int,
        done: Seq<LazyModel>,
    )
        ensures
            self.evaluate_lazy_all(cx, expressions, i, done).1.locals == self.locals,
        decreases expressions, expressions.len() - i,
    {
        if 0 <= i < expressions.len() {
            self.lemma_locals_left_alone(cx, expressions[i]);
            let (result, after) = self.evaluate_lazy(cx, expressions[i]);
            if let Ok(value) = result {
                after.lemma_all_locals(cx, expressions, i + 1, done.push(value));
            }
        }
    }

    proof fn lemma_comprehend_locals(
        self,
        cx: Surroundings,
        at: Seq<char>,
        variable: UnscopedVariable,
        element: Expression,
        values: Seq<ValueModel>,
        i: int,
        done: Seq<LazyModel>,
    )
        requires
            self.locals.len() > 0,
        ensures
            self.comprehend(cx, at, variable, element, values, i, done).1.locals.drop_last()
                == self.locals.drop_last(),
            self.comprehend(cx, at, variable, element, values, i, done).1.locals.len()
                == self.locals.len(),
        decreases element, values.len() - i + 1,
    {
        if 0 <= i < values.len() {
            let (checked, state) = self.check(at);
            let cleared = state.clear();
            assert(cleared.locals.drop_last() =~= self.locals.drop_last());
            let (declared, block) = cleared.declare(
                cx,
                variable,
                LazyModel::Value(values[i]),
                false,
            );
            assert(block.locals.drop_last() =~= self.locals.drop_last());
            if checked is Ok && declared is Ok {
                block.lemma_locals_left_alone(cx, element);
                let (result, after) = block.evaluate_lazy(cx, element);
                if let Ok(value) = result {
                    after.lemma_comprehend_locals(
                        cx,
                        at,
                        variable,
                        element,
                        values,
                        i + 1,
                        done.push(value),
                    );
                }
            }
        }
    }

    /// Whether the variable has just been declared for `value`: it stands for the last thunk of the
    /// store, which holds the value and tells where the variable stands.
    pub open spec fn just_declared(
        self,
        cx: Surroundings,
        variable: UnscopedVariable,
        value: LazyModel,
    ) -> bool {
        &&& self.eval.store.len() > 0
        &&& self.eval.store.last().state == ThunkStateModel::Unforced(value)
        &&& self.eval.store.last().debug_info == variable.location
        &&& self.read(cx, variable) == Ok::<LazyModel, ErrorModel>(
            LazyModel::Variable((self.eval.store.len() - 1) as usize),
        )
    }

    /// Whether this is a block inside of those of `outside`, in which nothing is declared but the
    /// variable, for `value`.
    pub open spec fn inside(
        self,
        outside: ExecutionState,
        cx: Surroundings,
        variable: UnscopedVariable,
        value: LazyModel,
    ) -> bool {
        &&& self.just_declared(cx, variable, value)
        &&& self.locals.len() == outside.locals.len() + 1
        &&& self.locals.drop_last() == outside.locals
        &&& forall|name: Seq<char>| #[trigger]
            self.locals.last().contains_key(name) <==> name == variable.name@
    }

    proof fn lemma_elements_from(
        self,
        outside: ExecutionState,
        cx: Surroundings,
        at: Seq<char>,
        variable: UnscopedVariable,
        element: Expression,
        values: Seq<ValueModel>,
        i: int,
        done: Seq<LazyModel>,
    ) -> (blocks: Seq<ExecutionState>)
        requires
            self.locals.len() == outside.locals.len() + 1,
            self.locals.drop_last() == outside.locals,
            0 <= i <= values.len(),
            done.len() == i,
            self.comprehend(cx, at, variable, element, values, i, done).0 is Ok,
        ensures
            blocks.len() == values.len() - i,
            ({
                let elements = self.comprehend(
                    cx,
                    at,
                    variable,
                    element,
                    values,
                    i,
                    done,
                ).0->Ok_0;
                &&& elements.len() == values.len()
                &&& forall|k: int| 0 <= k < i ==> (#[trigger] elements[k]) == done[k]
                &&& forall|k: int|
                    i <= k < values.len() ==> {
                        &&& (#[trigger] blocks[k - i]).inside(
                            outside,
                            cx,
                            variable,
                            LazyModel::Value(values[k]),
                        )
                        &&& blocks[k - i].evaluate_lazy(cx, element).0 == Ok::<
                            LazyModel,
                            ErrorModel,
                        >(elements[k])
                    }
            }),
        decreases values.len() - i,
    {
        if i < values.len() {
            let state = self.check(at).1;
            let cleared = state.clear();
            assert(cleared.locals.drop_last() =~= self.locals.drop_last());
            let block = cleared.declare(cx, variable, LazyModel::Value(values[i]), false).1;
            assert(block.locals.drop_last() =~= self.locals.drop_last());
            block.lemma_locals_left_alone(cx, element);
            let (result, after) = block.evaluate_lazy(cx, element);
            let rest = after.lemma_elements_from(
                outside,
                cx,
                at,
                variable,
                element,
                values,
                i + 1,
                done.push(result->Ok_0),
            );
            let blocks = seq![block] + rest;
            let elements = self.comprehend(cx, at, variable, element, values, i, done).0->Ok_0;
            assert(elements[i] == done.push(result->Ok_0)[i]);
            assert forall|k: int| 0 <= k < i implies (#[trigger] elements[k]) == done[k] by {
                assert(elements[k] == done.push(result->Ok_0)[k]);
            }
            assert forall|k: int| i <= k < values.len() implies {
                &&& (#[trigger] blocks[k - i]).inside(
                    outside,
                    cx,
                    variable,
                    LazyModel::Value(values[k]),
                )
                &&& blocks[k - i].evaluate_lazy(cx, element).0 == Ok::<LazyModel, ErrorModel>(
                    elements[k],
                )
            } by {
                if k > i {
                    assert(blocks[k - i] == rest[k - (i + 1)]);
                }
            }
            blocks
        } else {
            Seq::empty()
        }
    }

    /// A comprehension goes through the list that its value comes to, in a block of its own. That
    /// must be a list.
    pub proof fn lemma_comprehension_goes_through(
        self,
        cx: Surroundings,
        e: ListComprehension,
        f: SetComprehension,
    )
        requires
            f.value == e.value,
            f.variable == e.variable,
            f.element == e.element,
        ensures
            ({
                let (through, before) = self.evaluate_eager(cx, *e.value);
                let inside = ExecutionState { locals: before.locals.push(Map::empty()), ..before };
                let (list, list_end) = self.evaluate_lazy(cx, Expression::ListComprehension(e));
                let (set, set_end) = self.evaluate_lazy(cx, Expression::SetComprehension(f));
                match through {
                    Ok(ValueModel::List(values)) => {
                        let (listed, after_list) = inside.comprehend(
                            cx,
                            "executing list comprehension values"@,
                            e.variable,
                            *e.element,
                            values,
                            0,
                            Seq::empty(),
                        );
                        let (put, after_set) = inside.comprehend(
                            cx,
                            "executing set comprehension values"@,
                            e.variable,
                            *e.element,
                            values,
                            0,
                            Seq::empty(),
                        );
                        &&& listed matches Ok(elements) ==> list == Ok::<LazyModel, ErrorModel>(
                            LazyModel::List(elements),
                        )
                        &&& listed matches Err(error) ==> list == Err::<LazyModel, ErrorModel>(
                            error,
                        )
                        &&& list_end == ExecutionState {
                            locals: after_list.locals.drop_last(),
                            ..after_list
                        }
                        &&& put matches Ok(elements) ==> set == Ok::<LazyModel, ErrorModel>(
                            LazyModel::LazySet(elements),
                        )
                        &&& put matches Err(error) ==> set == Err::<LazyModel, ErrorModel>(error)
                        &&& set_end == ExecutionState {
                            locals: after_set.locals.drop_last(),
                            ..after_set
                        }
                    },
                    Ok(v) => {
                        let error = ErrorModel::ExpectedList("got "@ + v.shown());
                        &&& list == Err::<LazyModel, ErrorModel>(error)
                        &&& list_end == before
                        &&& set == Err::<LazyModel, ErrorModel>(error)
                        &&& set_end == before
                    },
                    Err(error) => {
                        &&& list == Err::<LazyModel, ErrorModel>(error)
                        &&& list_end == before
                        &&& set == Err::<LazyModel, ErrorModel>(error)
                        &&& set_end == before
                    },
                }
            }),
    {
        let (through, before) = self.evaluate_eager(cx, *e.value);
        assert(self.evaluate_list(cx, *e.value).1 == before);
    }

    /// Going through a list in a comprehension is taking the element for its first value, and then,
    /// unless there was an error, going through the rest of the list. For each value the flag is
    /// checked.
    pub proof fn lemma_comprehension_first_and_rest(
        self,
        cx: Surroundings,
        at: Seq<char>,
        variable: UnscopedVariable,
        element: Expression,
        first: ValueModel,
        rest: Seq<ValueModel>,
        done: Seq<LazyModel>,
    )
        requires
            self.locals.len() > 0,
            self.eval.cancellation_flag.next(at) is None,
            !cx.globals.contains_key(variable.name@),
        ensures
            self.comprehend(cx, at, variable, element, Seq::empty(), 0, done) == (
                Ok::<Seq<LazyModel>, ErrorModel>(done),
                self,
            ),
            exists|block: ExecutionState|
                {
                    &&& #[trigger] block.just_declared(cx, variable, LazyModel::Value(first))
                    &&& block.locals.drop_last() == self.locals.drop_last()
                    &&& block.locals.len() == self.locals.len()
                    &&& forall|name: Seq<char>| #[trigger]
                        block.locals.last().contains_key(name) <==> name == variable.name@
                    &&& !block.locals.last()[variable.name@].mutable
                    &&& block.lazy_graph == self.lazy_graph
                    &&& block.eval.store.drop_last() == self.eval.store
                    &&& block.eval == (EvaluationState {
                        store: block.eval.store,
                        cancellation_flag: self.eval.cancellation_flag.rest(),
                        ..self.eval
                    })
                    &&& ({
                        let (result, after) = block.evaluate_lazy(cx, element);
                        self.comprehend(
                            cx,
                            at,
                            variable,
                            element,
                            seq![first] + rest,
                            0,
                            done,
                        ) == match result {
                            Ok(value) => after.comprehend(
                                cx,
                                at,
                                variable,
                                element,
                                rest,
                                0,
                                done.push(value),
                            ),
                            Err(e) => (Err(e), after),
                        }
                    })
                },
    {
        let values = seq![first] + rest;
        let state = self.check(at).1;
        let block = state.clear().declare(cx, variable, LazyModel::Value(first), false).1;
        assert(values[0] == first);
        assert(block.locals.drop_last() =~= self.locals.drop_last());
        assert(block.eval.store.drop_last() =~= self.eval.store);
        assert(block.locals.last().contains_key(variable.name@));
        assert(block.just_declared(cx, variable, LazyModel::Value(first)));
        let (result, after) = block.evaluate_lazy(cx, element);
        if let Ok(value) = result {
            after.lemma_comprehend_shift(
                cx,
                at,
                variable,
                element,
                first,
                rest,
                0,
                done.push(value),
            );
        }
    }

    proof fn lemma_comprehend_shift(
        self,
        cx: Surroundings,
        at: Seq<char>,
        variable: UnscopedVariable,
        element: Expression,
        first: ValueModel,
        rest: Seq<ValueModel>,
        i: int,
        done: Seq<LazyModel>,
    )
        requires
            0 <= i <= rest.len(),
        ensures
            self.comprehend(cx, at, variable, element, seq![first] + rest, i + 1, done)
                == self.comprehend(cx, at, variable, element, rest, i, done),
        decreases rest.len() - i,
    {
        if i < rest.len() {
            assert((seq![first] + rest)[i + 1] == rest[i]);
            let (checked, state) = self.check(at);
            let (declared, block) = state.clear().declare(
                cx,
                variable,
                LazyModel::Value(rest[i]),
                false,
            );
            let (result, after) = block.evaluate_lazy(cx, element);
            if checked is Ok && declared is Ok && result is Ok {
                after.lemma_comprehend_shift(
                    cx,
                    at,
                    variable,
                    element,
                    first,
                    rest,
                    i + 1,
                    done.push(result->Ok_0),
                );
            }
        }
    }

    /// Whether `elements` is what `element` stands for, for each of the values, in their order: for
    /// each it is taken in the same surroundings, in a block of its own inside of the blocks of
    /// this state, in which the variable stands for the value.
    pub open spec fn elements_for(
        self,
        cx: Surroundings,
        variable: UnscopedVariable,
        element: Expression,
        values: Seq<ValueModel>,
        elements: Seq<LazyModel>,
    ) -> bool {
        exists|blocks: Seq<ExecutionState>|
            {
                &&& #[trigger] blocks.len() == values.len()
                &&& elements.len() == values.len()
                &&& forall|k: int|
                    0 <= k < values.len() ==> {
                        &&& (#[trigger] blocks[k]).inside(
                            self,
                            cx,
                            variable,
                            LazyModel::Value(values[k]),
                        )
                        &&& blocks[k].evaluate_lazy(cx, element).0 == Ok::<LazyModel, ErrorModel>(
                            elements[k],
                        )
                    }
            }
    }

    /// A list comprehension stands for the list of what its element stands for, for each element of
    /// the list that it goes through, in the order of that list.
    pub proof fn lemma_list_comprehension(self, cx: Surroundings, e: ListComprehension)
        requires
            self.evaluate_lazy(cx, Expression::ListComprehension(e)).0 is Ok,
        ensures
            ({
                let (through, before) = self.evaluate_eager(cx, *e.value);
                let result = self.evaluate_lazy(cx, Expression::ListComprehension(e)).0->Ok_0;
                &&& through matches Ok(ValueModel::List(values))
                &&& result matches LazyModel::List(elements)
                &&& before.locals == self.locals
                &&& before.elements_for(cx, e.variable, *e.element, values, elements)
            }),
    {
        self.lemma_locals_left_alone(cx, *e.value);
        let (through, before) = self.evaluate_eager(cx, *e.value);
        let at = "executing list comprehension values"@;
        assert(self.evaluate_list(cx, *e.value).1 == before);
        assert(self.evaluate_list(cx, *e.value).0 is Ok);
        let values = through->Ok_0->List_0;
        assert(before.enter().locals.drop_last() =~= before.locals);
        let blocks = before.enter().lemma_elements_from(
            before,
            cx,
            at,
            e.variable,
            *e.element,
            values,
            0,
            Seq::empty(),
        );
        let elements = before.enter().comprehend(
            cx,
            at,
            e.variable,
            *e.element,
            values,
            0,
            Seq::empty(),
        ).0->Ok_0;
        assert(blocks.len() == values.len());
        assert forall|k: int| 0 <= k < values.len() implies {
            &&& (#[trigger] blocks[k]).inside(before, cx, e.variable, LazyModel::Value(values[k]))
            &&& blocks[k].evaluate_lazy(cx, *e.element).0 == Ok::<LazyModel, ErrorModel>(
                elements[k],
            )
        } by {
            assert(blocks[k - 0] == blocks[k]);
        }
        assert(before.elements_for(cx, e.variable, *e.element, values, elements));
        assert(before.locals == self.locals);
    }

    /// A set comprehension stands for the set of what its element stands for, for each element of
    /// the list that it goes through.
    pub proof fn lemma_set_comprehension(self, cx: Surroundings, e: SetComprehension)
        requires
            self.evaluate_lazy(cx, Expression::SetComprehension(e)).0 is Ok,
        ensures
            ({
                let (through, before) = self.evaluate_eager(cx, *e.value);
                let result = self.evaluate_lazy(cx, Expression::SetComprehension(e)).0->Ok_0;
                &&& through matches Ok(ValueModel::List(values))
                &&& result matches LazyModel::LazySet(elements)
                &&& before.locals == self.locals
                &&& before.elements_for(cx, e.variable, *e.element, values, elements)
            }),
    {
        self.lemma_locals_left_alone(cx, *e.value);
        let (through, before) = self.evaluate_eager(cx, *e.value);
        let at = "executing set comprehension values"@;
        assert(self.evaluate_list(cx, *e.value).1 == before);
        assert(self.evaluate_list(cx, *e.value).0 is Ok);
        let values = through->Ok_0->List_0;
        assert(before.enter().locals.drop_last() =~= before.locals);
        let blocks = before.enter().lemma_elements_from(
            before,
            cx,
            at,
            e.variable,
            *e.element,
            values,
            0,
            Seq::empty(),
        );
        let elements = before.enter().comprehend(
            cx,
            at,
            e.variable,
            *e.element,
            values,
            0,
            Seq::empty(),
        ).0->Ok_0;
        assert(blocks.len() == values.len());
        assert forall|k: int| 0 <= k < values.len() implies {
            &&& (#[trigger] blocks[k]).inside(before, cx, e.variable, LazyModel::Value(values[k]))
            &&& blocks[k].evaluate_lazy(cx, *e.element).0 == Ok::<LazyModel, ErrorModel>(
                elements[k],
            )
        } by {
            assert(blocks[k - 0] == blocks[k]);
        }
        assert(before.elements_for(cx, e.variable, *e.element, values, elements));
        assert(before.locals == self.locals);
    }
}

/// The variables at the `n` locations of the store from `start` on.
pub open spec fn variables_from(start: nat, n: nat) -> Seq<LazyModel> {
    Seq::new(n, |k: int| LazyModel::Variable((start + k) as usize))
}

impl EvaluationState {
    /// Whether the thunks from `start` on hold the values, and have not been asked for.
    pub open spec fn holds_from(self, start: nat, values: Seq<ValueModel>, i: int) -> bool {
        &&& start + values.len() <= self.store.len() <= usize::MAX
        &&& forall|k: int|
            i <= k < values.len() ==> (#[trigger] self.store[start + k]).state
                == ThunkStateModel::Unforced(LazyModel::Value(values[k]))
    }

    proof fn lemma_variables_in_turn(self, start: nat, values: Seq<ValueModel>, i: int)
        requires
            self.cancellation_flag.never_stops(),
            self.holds_from(start, values, 0),
            0 <= i <= values.len(),
        ensures
            ({
                let after = self.after_values(variables_from(start, values.len()), i);
                &&& after.cancellation_flag.never_stops()
                &&& after.holds_from(start, values, i)
            }),
        decreases i,
    {
        if i > 0 {
            let variables = variables_from(start, values.len());
            self.lemma_variables_in_turn(start, values, i - 1);
            let before = self.after_values(variables, i - 1);
            assert(variables[i - 1] == LazyModel::Variable((start + i - 1) as usize));
            before.lemma_plain_variable((start + i - 1) as usize, values[i - 1]);
            let after = self.after_values(variables, i);
            assert forall|k: int| i <= k < values.len() implies (
            #[trigger] after.store[start + k]).state == ThunkStateModel::Unforced(
                LazyModel::Value(values[k]),
            ) by {
                assert(before.store[start + k].state == ThunkStateModel::Unforced(
                    LazyModel::Value(values[k]),
                ));
            }
        }
    }

    /// A variable that holds a plain value comes to that value, and nothing else is forced.
    pub proof fn lemma_plain_variable(self, location: usize, value: ValueModel)
        requires
            self.cancellation_flag.never_stops(),
            location < self.store.len(),
            self.store[location as int].state == ThunkStateModel::Unforced(
                LazyModel::Value(value),
            ),
        ensures
            ({
                let (result, after) = self.evaluate(LazyModel::Variable(location));
                &&& result == Ok::<ValueModel, ErrorModel>(value)
                &&& after.cancellation_flag.never_stops()
                &&& after.store.len() == self.store.len()
                &&& after.store[location as int].state == ThunkStateModel::Forced(value)
                &&& forall|i: int|
                    0 <= i < self.store.len() && i != location ==> (#[trigger] after.store[i])
                        == self.store[i]
                &&& after == (EvaluationState {
                    store: after.store,
                    cancellation_flag: after.cancellation_flag,
                    ..self
                })
            }),
    {
        let state = self.check("evaluating value"@).1;
        let forcing = state.with_thunk(location, ThunkStateModel::Forcing);
        state.lemma_pending_thunk(location, ThunkStateModel::Forcing);
        let (result, after) = forcing.evaluate(LazyModel::Value(value));
        assert(result == Ok::<ValueModel, ErrorModel>(value));
        assert(state.force(location) == (
            Ok::<ValueModel, ErrorModel>(value),
            after.with_thunk(location, ThunkStateModel::Forced(value)),
        ));
        assert(state.evaluate_variable(location) == state.force(location));
        assert(self.evaluate(LazyModel::Variable(location)) == state.evaluate_variable(location));
    }

    proof fn lemma_variable_values(self, start: nat, values: Seq<ValueModel>)
        requires
            self.cancellation_flag.never_stops(),
            self.holds_from(start, values, 0),
        ensures
            forall|k: int|
                0 <= k < values.len() ==> #[trigger] self.value_at(
                    variables_from(start, values.len()),
                    k,
                ) == Ok::<ValueModel, ErrorModel>(values[k]),
    {
        let variables = variables_from(start, values.len());
        assert forall|k: int| 0 <= k < values.len() implies #[trigger] self.value_at(variables, k)
            == Ok::<ValueModel, ErrorModel>(values[k]) by {
            self.lemma_variables_in_turn(start, values, k);
            let before = self.after_values(variables, k);
            assert(before.store[start + k].state == ThunkStateModel::Unforced(
                LazyModel::Value(values[k]),
            ));
            before.lemma_plain_variable((start + k) as usize, values[k]);
            assert(variables[k] == LazyModel::Variable((start + k) as usize));
        }
    }
}

impl ExecutionState {
    proof fn lemma_each_itself(
        self,
        cx: Surroundings,
        at: Seq<char>,
        variable: UnscopedVariable,
        element: Expression,
        values: Seq<ValueModel>,
        i: int,
        done: Seq<LazyModel>,
    )
        requires
            self.locals.len() > 0,
            self.eval.cancellation_flag.never_stops(),
            element matches Expression::Variable(Variable::Unscoped(v)) && v.name@
                == variable.name@,
            0 <= i <= values.len(),
            !cx.globals.contains_key(variable.name@),
            done.len() == i,
        ensures
            ({
                let (result, end) = self.comprehend(
                    cx,
                    at,
                    variable,
                    element,
                    values,
                    i,
                    done,
                );
                let n = self.eval.store.len();
                &&& result matches Ok(elements)
                &&& elements == done + variables_from(n, (values.len() - i) as nat)
                &&& end.eval.store.len() == n + values.len() - i
                &&& self.eval.store.is_prefix_of(end.eval.store)
                &&& forall|k: int|
                    i <= k < values.len() ==> (#[trigger] end.eval.store[n + k - i]).state
                        == ThunkStateModel::Unforced(LazyModel::Value(values[k]))
                &&& end.eval.cancellation_flag.never_stops()
            }),
        decreases values.len() - i,
    {
        let n = self.eval.store.len();
        if i < values.len() {
            let state = self.check(at).1;
            let cleared = state.clear();
            let block = cleared.declare(cx, variable, LazyModel::Value(values[i]), false).1;
            let value = LazyModel::Variable(n as usize);
            assert(block.locals.last().contains_key(variable.name@));
            assert(block.read(cx, variable) == Ok::<LazyModel, ErrorModel>(value));
            assert(block.evaluate_lazy(cx, element) == (Ok::<LazyModel, ErrorModel>(value), block));
            block.lemma_each_itself(
                cx,
                at,
                variable,
                element,
                values,
                i + 1,
                done.push(value),
            );
            assert(done.push(value) + variables_from(n + 1, (values.len() - i - 1) as nat)
                =~= done + variables_from(n, (values.len() - i) as nat));
            let end = self.comprehend(cx, at, variable, element, values, i, done).1;
            assert forall|k: int| i <= k < values.len() implies (
            #[trigger] end.eval.store[n + k - i]).state == ThunkStateModel::Unforced(
                LazyModel::Value(values[k]),
            ) by {
                if k == i {
                    assert(end.eval.store[n as int] == block.eval.store[n as int]);
                } else {
                    assert(end.eval.store[n + 1 + k - (i + 1)].state == ThunkStateModel::Unforced(
                        LazyModel::Value(values[k]),
                    ));
                }
            }
        } else {
            assert(done + variables_from(n, 0) =~= done);
        }
    }

    /// Going through a list and taking each element as it is gives the same list, in the same
    /// order: `[ x for x in list ]` is `list`.
    pub proof fn lemma_each_of_a_list(self, cx: Surroundings, e: ListComprehension)
        requires
            self.valid(),
            self.eval.cancellation_flag.never_stops(),
            !cx.globals.contains_key(e.variable.name@),
            *e.element matches Expression::Variable(Variable::Unscoped(v)) && v.name@
                == e.variable.name@,
            self.evaluate_eager(cx, *e.value).0 is Ok,
            self.evaluate_eager(cx, *e.value).0->Ok_0 is List,
            self.evaluate_eager(cx, *e.value).1.eval.store.len() + self.evaluate_eager(
                cx,
                *e.value,
            ).0->Ok_0->List_0.len() <= usize::MAX,
        ensures
            self.evaluate_eager(cx, Expression::ListComprehension(e)).0 == self.evaluate_eager(
                cx,
                *e.value,
            ).0,
    {
        let (through, before) = self.evaluate_eager(cx, *e.value);
        self.lemma_evaluate_eager_keeps(cx, *e.value);
        assert(self.evaluate_list(cx, *e.value).1 == before);
        let values = through->Ok_0->List_0;
        let at = "executing list comprehension values"@;
        before.enter().lemma_each_itself(
            cx,
            at,
            e.variable,
            *e.element,
            values,
            0,
            Seq::empty(),
        );
        let n = before.eval.store.len();
        let variables = variables_from(n, values.len());
        assert(Seq::empty() + variables =~= variables);
        let (result, state) = self.evaluate_lazy(cx, Expression::ListComprehension(e));
        self.lemma_evaluate_lazy_keeps(cx, Expression::ListComprehension(e));
        assert(result == Ok::<LazyModel, ErrorModel>(LazyModel::List(variables)));
        let start = state.eval.check("evaluating value"@).1;
        assert(start.holds_from(n, values, 0)) by {
            assert forall|k: int| 0 <= k < values.len() implies (
            #[trigger] start.store[n + k]).state == ThunkStateModel::Unforced(
                LazyModel::Value(values[k]),
            ) by {
                assert(start.store[n + k - 0].state == ThunkStateModel::Unforced(
                    LazyModel::Value(values[k]),
                ));
            }
        }
        start.lemma_variable_values(n, values);
        state.eval.lemma_list_result(variables);
        let eager = state.eval.evaluate(LazyModel::List(variables)).0;
        if let Ok(value) = eager {
            let found = value->List_0;
            assert forall|k: int| 0 <= k < values.len() implies found[k] == values[k] by {
                assert(start.value_at(variables, k) == Ok::<ValueModel, ErrorModel>(values[k]));
            }
            assert(found =~= values);
        } else {
            let error = eager->Err_0;
            let k = choose|k: int|
                0 <= k < variables.len() && #[trigger] start.value_at(variables, k) == Err::<
                    ValueModel,
                    ErrorModel,
                >(error);
            assert(start.value_at(variables, k) is Ok);
        }
    }

    /// Going through a list and taking each element as it is gives the set of the elements:
    /// `{ x for x in list }` holds just what is in `list`.
    pub proof fn lemma_each_of_a_set(self, cx: Surroundings, e: SetComprehension)
        requires
            self.valid(),
            self.eval.cancellation_flag.never_stops(),
            !cx.globals.contains_key(e.variable.name@),
            *e.element matches Expression::Variable(Variable::Unscoped(v)) && v.name@
                == e.variable.name@,
            self.evaluate_eager(cx, *e.value).0 is Ok,
            self.evaluate_eager(cx, *e.value).0->Ok_0 is List,
            self.evaluate_eager(cx, *e.value).1.eval.store.len() + self.evaluate_eager(
                cx,
                *e.value,
            ).0->Ok_0->List_0.len() <= usize::MAX,
        ensures
            ({
                let values = self.evaluate_eager(cx, *e.value).0->Ok_0->List_0;
                let result = self.evaluate_eager(cx, Expression::SetComprehension(e)).0;
                &&& result matches Ok(ValueModel::ValueSet(elements))
                &&& ValueModel::ascending(elements)
                &&& forall|v: ValueModel| #[trigger] elements.contains(v) <==> values.contains(v)
            }),
    {
        let (through, before) = self.evaluate_eager(cx, *e.value);
        self.lemma_evaluate_eager_keeps(cx, *e.value);
        assert(self.evaluate_list(cx, *e.value).1 == before);
        let values = through->Ok_0->List_0;
        let at = "executing set comprehension values"@;
        before.enter().lemma_each_itself(
            cx,
            at,
            e.variable,
            *e.element,
            values,
            0,
            Seq::empty(),
        );
        let n = before.eval.store.len();
        let variables = variables_from(n, values.len());
        assert(Seq::empty() + variables =~= variables);
        let (result, state) = self.evaluate_lazy(cx, Expression::SetComprehension(e));
        self.lemma_evaluate_lazy_keeps(cx, Expression::SetComprehension(e));
        assert(result == Ok::<LazyModel, ErrorModel>(LazyModel::LazySet(variables)));
        let start = state.eval.check("evaluating value"@).1;
        assert(start.holds_from(n, values, 0)) by {
            assert forall|k: int| 0 <= k < values.len() implies (
            #[trigger] start.store[n + k]).state == ThunkStateModel::Unforced(
                LazyModel::Value(values[k]),
            ) by {
                assert(start.store[n + k - 0].state == ThunkStateModel::Unforced(
                    LazyModel::Value(values[k]),
                ));
            }
        }
        start.lemma_variable_values(n, values);
        state.eval.lemma_set_result(variables);
        let eager = state.eval.evaluate(LazyModel::LazySet(variables)).0;
        if let Ok(value) = eager {
            let elements = value->ValueSet_0;
            assert forall|v: ValueModel| #[trigger] elements.contains(v) <==> values.contains(
                v,
            ) by {
                if values.contains(v) {
                    let k = values.index_of(v);
                    assert(start.value_at(variables, k) == Ok::<ValueModel, ErrorModel>(values[k]));
                }
                if elements.contains(v) {
                    let k = choose|k: int|
                        0 <= k < variables.len() && #[trigger] start.value_at(variables, k)
                            == Ok::<ValueModel, ErrorModel>(v);
                    assert(values[k] == v);
                }
            }
        } else {
            let error = eager->Err_0;
            let k = choose|k: int|
                0 <= k < variables.len() && #[trigger] start.value_at(variables, k) == Err::<
                    ValueModel,
                    ErrorModel,
                >(error);
            assert(start.value_at(variables, k) is Ok);
        }
    }
}

} // verus!
