//! Laws of execution.

use vstd::prelude::*;

use crate::ast::Attribute;
use crate::ast::AttributeShorthand;
use crate::ast::AttributeShorthands;
use crate::ast::Condition;
use crate::ast::Expression;
use crate::ast::IfArm;
use crate::ast::ScanArm;
use crate::ast::ScopedVariable;
use crate::ast::Stanza;
use crate::ast::Statement;
use crate::ast::UnscopedVariable;
use crate::ast::Variable;
use crate::graph::GraphModel;
use crate::graph::GraphNodeModel;
use crate::lazy::evaluation::EvaluationState;
use crate::lazy::execution::ArmModel;
use crate::lazy::execution::ExecutionState;
use crate::lazy::execution::NotesModel;
use crate::lazy::execution::Surroundings;
use crate::lazy::statements::AttributeModel;
use crate::lazy::statements::LazyStatementModel;
use crate::lazy::statements::PrintModel;
use crate::lazy::store::ScopedModel;
use crate::lazy::values::LazyModel;
use crate::location::Location;
use crate::matching::MatchModel;
use crate::values::GraphNodeRef;
use crate::values::SyntaxNodeModel;
use crate::values::ValueModel;
use crate::variables::LocalModel;

verus! {

impl ScopedModel {
    /// Whether execution can turn the values of a scoped variable from these into `after`:
    /// definitions can be added as long as none has been asked for.
    pub open spec fn grows_to(self, after: ScopedModel) -> bool {
        match self {
            ScopedModel::Unforced(definitions) => after matches ScopedModel::Unforced(more)
                ==> definitions.is_prefix_of(more),
            ScopedModel::Forcing => after is Forcing,
            ScopedModel::Forced(_) => after is Forcing || after == self,
        }
    }
}

impl GraphModel {
    /// Whether `after` is this graph with new nodes and newly known syntax nodes, and nothing else.
    pub open spec fn gains_nodes_to(self, after: GraphModel) -> bool {
        &&& self.graph_nodes.is_prefix_of(after.graph_nodes)
        &&& self.syntax_nodes.submap_of(after.syntax_nodes)
    }
}

impl EvaluationState {
    /// What execution keeps of the state that values are evaluated in: nothing is printed and no
    /// edge or attribute is noted, thunks and definitions are only added, each thunk and each name
    /// only goes on from unforced over being forced to forced. If the functions leave the graph
    /// alone, nothing happens to it but that nodes are added; if they only add to it, nothing is
    /// lost; and if they take no node or edge out of it, all nodes and edges stay.
    pub open spec fn grows_to(self, after: EvaluationState) -> bool {
        &&& after.source == self.source
        &&& after.printed == self.printed
        &&& after.prev_element_debug_info == self.prev_element_debug_info
        &&& self.store.len() <= after.store.len()
        &&& forall|i: int|
            0 <= i < self.store.len() ==> (#[trigger] self.store[i]).state.becomes(
                after.store[i].state,
            ) && after.store[i].debug_info == self.store[i].debug_info
        &&& forall|name: Seq<char>| #[trigger]
            self.scoped_store.contains_key(name) ==> after.scoped_store.contains_key(name)
                && self.scoped_store[name].grows_to(after.scoped_store[name])
        &&& self.cancellation_flag.advance_to(after.cancellation_flag)
        &&& self.functions.advance_to(after.functions)
        &&& self.functions.quiet() ==> self.graph.gains_nodes_to(after.graph)
        &&& self.functions.additive() ==> self.graph.within(after.graph)
        &&& self.functions.lasting() ==> self.graph.elements_in(after.graph)
    }

    proof fn lemma_grows_transitive(self, middle: EvaluationState, after: EvaluationState)
        requires
            self.grows_to(middle),
            middle.grows_to(after),
        ensures
            self.grows_to(after),
    {
        if self.functions.additive() {
            self.graph.lemma_within_transitive(middle.graph, after.graph);
        }
        if self.functions.lasting() {
            self.graph.lemma_elements_transitive(middle.graph, after.graph);
        }
        if self.functions.quiet() {
            vstd::map_lib::lemma_submap_of_trans(
                self.graph.syntax_nodes,
                middle.graph.syntax_nodes,
                after.graph.syntax_nodes,
            );
        }
        assert forall|i: int| 0 <= i < self.store.len() implies (
        #[trigger] self.store[i]).state.becomes(after.store[i].state) && after.store[i].debug_info
            == self.store[i].debug_info by {
            assert(middle.store[i].state.becomes(after.store[i].state));
        }
        assert forall|name: Seq<char>| #[trigger]
            self.scoped_store.contains_key(name) implies after.scoped_store.contains_key(name)
            && self.scoped_store[name].grows_to(after.scoped_store[name]) by {
            assert(middle.scoped_store.contains_key(name));
        }
    }

    /// Evaluation keeps all that execution keeps.
    proof fn lemma_evolves_grows(self, after: EvaluationState)
        requires
            self.evolves_to(after),
        ensures
            self.grows_to(after),
    {
        assert forall|name: Seq<char>| #[trigger]
            self.scoped_store.contains_key(name) implies after.scoped_store.contains_key(name)
            && self.scoped_store[name].grows_to(after.scoped_store[name]) by {
            assert(self.scoped_store.dom().contains(name));
        }
    }
}

/// Whether all variables of a block stay declared, and those that are not mutable keep their
/// values.
pub open spec fn block_kept(
    block: Map<Seq<char>, LocalModel>,
    after: Map<Seq<char>, LocalModel>,
) -> bool {
    forall|name: Seq<char>| #[trigger]
        block.contains_key(name) ==> {
            &&& after.contains_key(name)
            &&& after[name].mutable == block[name].mutable
            &&& !block[name].mutable ==> after[name] == block[name]
        }
}

/// Whether the same variables are declared in all blocks, and those that are not mutable keep their
/// values.
pub open spec fn names_kept(
    locals: Seq<Map<Seq<char>, LocalModel>>,
    after: Seq<Map<Seq<char>, LocalModel>>,
) -> bool {
    &&& after.len() == locals.len()
    &&& forall|i: int|
        0 <= i < locals.len() ==> (#[trigger] after[i]).dom() == locals[i].dom() && block_kept(
            locals[i],
            after[i],
        )
}

proof fn lemma_block_transitive(
    block: Map<Seq<char>, LocalModel>,
    middle: Map<Seq<char>, LocalModel>,
    after: Map<Seq<char>, LocalModel>,
)
    requires
        block_kept(block, middle),
        block_kept(middle, after),
    ensures
        block_kept(block, after),
{
    assert forall|name: Seq<char>| #[trigger] block.contains_key(name) implies {
        &&& after.contains_key(name)
        &&& after[name].mutable == block[name].mutable
        &&& !block[name].mutable ==> after[name] == block[name]
    } by {
        assert(middle.contains_key(name));
    }
}

proof fn lemma_names_transitive(
    locals: Seq<Map<Seq<char>, LocalModel>>,
    middle: Seq<Map<Seq<char>, LocalModel>>,
    after: Seq<Map<Seq<char>, LocalModel>>,
)
    requires
        names_kept(locals, middle),
        names_kept(middle, after),
    ensures
        names_kept(locals, after),
{
    assert forall|i: int| 0 <= i < locals.len() implies (#[trigger] after[i]).dom()
        == locals[i].dom() && block_kept(locals[i], after[i]) by {
        assert(middle[i].dom() == locals[i].dom());
        lemma_block_transitive(locals[i], middle[i], after[i]);
    }
}

impl ExecutionState {
    /// Whether `after` is a valid state with more thunks and more of the lazy graph, in which
    /// everything else is kept that `EvaluationState::grows_to` names.
    pub open spec fn grows_to(self, after: ExecutionState) -> bool {
        &&& self.leads_to(after)
        &&& self.eval.grows_to(after.eval)
        &&& self.lazy_graph.is_prefix_of(after.lazy_graph)
    }

    /// What is kept outside of the innermost block: besides what `grows_to` names, the same
    /// variables are declared there, and those that are not mutable keep their values.
    pub open spec fn keeps_outside(self, after: ExecutionState) -> bool {
        self.grows_to(after) && names_kept(self.locals.drop_last(), after.locals.drop_last())
    }

    /// What execution keeps: what is kept outside, and in the innermost block, to which variables
    /// can be added, all variables stay declared, and those that are not mutable keep their values.
    pub open spec fn keeps(self, after: ExecutionState) -> bool {
        self.keeps_outside(after) && block_kept(self.locals.last(), after.locals.last())
    }

    /// What is kept by what declares no variable: the same variables are declared in all blocks,
    /// and those that are not mutable keep their values.
    pub open spec fn keeps_names(self, after: ExecutionState) -> bool {
        self.grows_to(after) && names_kept(self.locals, after.locals)
    }

    proof fn lemma_grows_transitive(self, middle: ExecutionState, after: ExecutionState)
        requires
            self.grows_to(middle),
            middle.grows_to(after),
        ensures
            self.grows_to(after),
    {
        self.eval.lemma_grows_transitive(middle.eval, after.eval);
    }

    proof fn lemma_keeps_transitive(self, middle: ExecutionState, after: ExecutionState)
        requires
            self.keeps(middle),
            middle.keeps(after),
        ensures
            self.keeps(after),
    {
        self.lemma_keeps_outside_transitive(middle, after);
        lemma_block_transitive(self.locals.last(), middle.locals.last(), after.locals.last());
    }

    proof fn lemma_keeps_names_transitive(self, middle: ExecutionState, after: ExecutionState)
        requires
            self.keeps_names(middle),
            middle.keeps_names(after),
        ensures
            self.keeps_names(after),
    {
        self.lemma_grows_transitive(middle, after);
        lemma_names_transitive(self.locals, middle.locals, after.locals);
    }

    proof fn lemma_keeps_outside_transitive(self, middle: ExecutionState, after: ExecutionState)
        requires
            self.keeps_outside(middle),
            middle.keeps_outside(after),
        ensures
            self.keeps_outside(after),
    {
        self.lemma_grows_transitive(middle, after);
        lemma_names_transitive(
            self.locals.drop_last(),
            middle.locals.drop_last(),
            after.locals.drop_last(),
        );
    }

    /// What declares no variable keeps what execution keeps.
    proof fn lemma_keeps_inside(self, after: ExecutionState)
        requires
            self.keeps_names(after),
            self.locals.len() > 0,
        ensures
            self.keeps(after),
            self.keeps_outside(after),
    {
        assert(after.locals[after.locals.len() - 1].dom() == self.locals.last().dom());
        assert forall|i: int| 0 <= i < self.locals.drop_last().len() implies (
        #[trigger] after.locals.drop_last()[i]).dom() == self.locals.drop_last()[i].dom()
            && block_kept(self.locals.drop_last()[i], after.locals.drop_last()[i]) by {
            assert(after.locals[i].dom() == self.locals[i].dom());
        }
    }

    /// What is kept outside of a block is kept when the block has been left.
    proof fn lemma_leave(self, after: ExecutionState)
        requires
            self.valid(),
            self.enter().keeps_outside(after),
        ensures
            self.keeps_names(after.leave()),
    {
        assert(self.enter().locals.drop_last() =~= self.locals);
        assert forall|i: int, name: Seq<char>|
            0 <= i < after.leave().locals.len() && #[trigger] after.leave().locals[i].contains_key(
                name,
            ) implies after.leave().locals[i][name].value.below(after.eval.store.len()) by {
            assert(after.locals[i].contains_key(name));
        }
    }

    proof fn lemma_enter(self)
        requires
            self.valid(),
        ensures
            self.enter().valid(),
    {
    }

    proof fn lemma_clear(self)
        requires
            self.valid(),
        ensures
            self.keeps_outside(self.clear()),
    {
        assert(self.clear().locals.drop_last() =~= self.locals.drop_last());
    }

    proof fn lemma_check_keeps(self, at: Seq<char>)
        requires
            self.valid(),
        ensures
            self.keeps_names(self.check(at).1),
    {
        assert(self.eval.evolves_to(self.check(at).1.eval));
        self.eval.lemma_evolves_grows(self.check(at).1.eval);
    }

    proof fn lemma_add_thunk_keeps(self, value: LazyModel, place: Location)
        requires
            self.valid(),
            value.below(self.eval.store.len()),
        ensures
            self.keeps_names(self.add_thunk(value, place)),
    {
        broadcast use LazyModel::lemma_below_monotone;
        broadcast use LazyStatementModel::lemma_below_monotone;

        let after = self.add_thunk(value, place);
        assert(after.eval.store.len() == self.eval.store.len() + 1);
        assert(after.eval.valid());
        assert(after.valid());
        assert(self.eval.grows_to(after.eval));
    }

    proof fn lemma_declare_keeps(
        self,
        cx: Surroundings,
        variable: UnscopedVariable,
        value: LazyModel,
        mutable: bool,
    )
        requires
            self.valid(),
            value.below(self.eval.store.len()),
        ensures
            self.keeps(self.declare(cx, variable, value, mutable).1),
            self.declare(cx, variable, value, mutable).1.lazy_graph == self.lazy_graph,
    {
        self.lemma_add_thunk_keeps(value, variable.location);
        let added = self.add_thunk(value, variable.location);
        self.lemma_keeps_inside(added);
        let after = self.declare(cx, variable, value, mutable).1;
        assert(after.locals.drop_last() =~= self.locals.drop_last());
    }

    proof fn lemma_assign_keeps(
        self,
        cx: Surroundings,
        variable: UnscopedVariable,
        value: LazyModel,
    )
        requires
            self.valid(),
            value.below(self.eval.store.len()),
        ensures
            self.keeps_names(self.assign(cx, variable, value).1),
    {
        self.lemma_add_thunk_keeps(value, variable.location);
        crate::variables::lemma_block_of(self.locals, variable.name@, self.locals.len() as int);
        let after = self.assign(cx, variable, value).1;
        assert forall|i: int| 0 <= i < self.locals.len() implies (
        #[trigger] after.locals[i]).dom() == self.locals[i].dom() && block_kept(
            self.locals[i],
            after.locals[i],
        ) by {
            assert(after.locals[i].dom() =~= self.locals[i].dom());
        }
    }

    proof fn lemma_read_below(self, cx: Surroundings, variable: UnscopedVariable)
        requires
            self.valid(),
        ensures
            self.read(cx, variable) matches Ok(value) ==> value.below(self.eval.store.len()),
    {
        crate::variables::lemma_block_of(self.locals, variable.name@, self.locals.len() as int);
    }
}

/// The nodes of a capture only become known.
proof fn lemma_nodes_known(graph: GraphModel, nodes: Seq<SyntaxNodeModel>, n: int)
    ensures
        graph.gains_nodes_to(crate::lazy::execution::with_syntax_nodes(graph, nodes, n)),
    decreases n,
{
    if n > 0 {
        lemma_nodes_known(graph, nodes, n - 1);
    }
}

/// Whether the values stay below location `n` of the store.
spec fn models_below(values: Seq<LazyModel>, n: nat) -> bool {
    forall|i: int| 0 <= i < values.len() ==> (#[trigger] values[i]).below(n)
}

proof fn lemma_models_push(values: Seq<LazyModel>, value: LazyModel, n: nat, m: nat)
    requires
        models_below(values, n),
        n <= m,
        value.below(m),
    ensures
        models_below(values.push(value), m),
{
    assert forall|i: int| 0 <= i < values.push(value).len() implies (#[trigger] values.push(
        value,
    )[i]).below(m) by {
        if i < values.len() {
            values[i].lemma_below_monotone(n, m);
        }
    }
}

impl ExecutionState {
    /// Turning an expression into a lazy value keeps what execution keeps and the lazy graph, and
    /// the value stays in the store.
    pub proof fn lemma_evaluate_lazy_keeps(self, cx: Surroundings, expression: Expression)
        requires
            self.valid(),
        ensures
            self.keeps_names(self.evaluate_lazy(cx, expression).1),
            self.evaluate_lazy(cx, expression).1.lazy_graph == self.lazy_graph,
            self.evaluate_lazy(cx, expression).0 matches Ok(value) ==> value.below(
                self.evaluate_lazy(cx, expression).1.eval.store.len(),
            ),
        decreases expression, 0int,
    {
        match expression {
            Expression::ListLiteral(e) => {
                self.lemma_evaluate_lazy_all_keeps(cx, e.elements@, 0, Seq::empty());
            },
            Expression::SetLiteral(e) => {
                self.lemma_evaluate_lazy_all_keeps(cx, e.elements@, 0, Seq::empty());
            },
            Expression::Call(e) => {
                self.lemma_evaluate_lazy_all_keeps(cx, e.parameters@, 0, Seq::empty());
            },
            Expression::ListComprehension(e) => {
                self.lemma_evaluate_list_keeps(cx, *e.value);
                let (list, before) = self.evaluate_list(cx, *e.value);
                if let Ok(list) = list {
                    before.lemma_enter();
                    before.enter().lemma_comprehend_keeps(
                        cx,
                        "executing list comprehension values"@,
                        e.variable,
                        *e.element,
                        list,
                        0,
                        Seq::empty(),
                    );
                    let after = before.enter().comprehend(
                        cx,
                        "executing list comprehension values"@,
                        e.variable,
                        *e.element,
                        list,
                        0,
                        Seq::empty(),
                    ).1;
                    before.lemma_leave(after);
                    self.lemma_keeps_names_transitive(before, after.leave());
                }
            },
            Expression::SetComprehension(e) => {
                self.lemma_evaluate_list_keeps(cx, *e.value);
                let (list, before) = self.evaluate_list(cx, *e.value);
                if let Ok(list) = list {
                    before.lemma_enter();
                    before.enter().lemma_comprehend_keeps(
                        cx,
                        "executing set comprehension values"@,
                        e.variable,
                        *e.element,
                        list,
                        0,
                        Seq::empty(),
                    );
                    let after = before.enter().comprehend(
                        cx,
                        "executing set comprehension values"@,
                        e.variable,
                        *e.element,
                        list,
                        0,
                        Seq::empty(),
                    ).1;
                    before.lemma_leave(after);
                    self.lemma_keeps_names_transitive(before, after.leave());
                }
            },
            Expression::Capture(e) => {
                let nodes = crate::lazy::execution::captured(
                    cx.mat.captures,
                    e.file_capture_index,
                    cx.mat.captures.len() as int,
                );
                lemma_nodes_known(self.eval.graph, nodes, nodes.len() as int);
            },
            Expression::Variable(Variable::Scoped(e)) => {
                self.lemma_evaluate_lazy_keeps(cx, *e.scope);
            },
            Expression::Variable(Variable::Unscoped(e)) => {
                self.lemma_read_below(cx, e);
            },
            _ => {},
        }
    }

    proof fn lemma_evaluate_lazy_all_keeps(
        self,
        cx: Surroundings,
        expressions: Seq<Expression>,
        i: int,
        done: Seq<LazyModel>,
    )
        requires
            self.valid(),
            models_below(done, self.eval.store.len()),
        ensures
            self.keeps_names(self.evaluate_lazy_all(cx, expressions, i, done).1),
            self.evaluate_lazy_all(cx, expressions, i, done).1.lazy_graph == self.lazy_graph,
            self.evaluate_lazy_all(cx, expressions, i, done).0 matches Ok(values) ==> models_below(
                values,
                self.evaluate_lazy_all(cx, expressions, i, done).1.eval.store.len(),
            ),
        decreases expressions, expressions.len() - i,
    {
        if 0 <= i < expressions.len() {
            self.lemma_evaluate_lazy_keeps(cx, expressions[i]);
            let (result, after) = self.evaluate_lazy(cx, expressions[i]);
            if let Ok(value) = result {
                lemma_models_push(done, value, self.eval.store.len(), after.eval.store.len());
                after.lemma_evaluate_lazy_all_keeps(cx, expressions, i + 1, done.push(value));
                self.lemma_keeps_names_transitive(
                    after,
                    after.evaluate_lazy_all(cx, expressions, i + 1, done.push(value)).1,
                );
            }
        }
    }

    proof fn lemma_comprehend_keeps(
        self,
        cx: Surroundings,
        at: Seq<char>,
        variable: UnscopedVariable,
        element: Expression,
        values: Seq<ValueModel>,
        i: int,
        done: Seq<LazyModel>,
    )
        requires
            self.valid(),
            models_below(done, self.eval.store.len()),
        ensures
            self.keeps_outside(
                self.comprehend(cx, at, variable, element, values, i, done).1,
            ),
            self.comprehend(cx, at, variable, element, values, i, done).1.lazy_graph
                == self.lazy_graph,
            self.comprehend(cx, at, variable, element, values, i, done).0 matches Ok(elements)
                ==> models_below(
                elements,
                self.comprehend(cx, at, variable, element, values, i, done).1.eval.store.len(),
            ),
        decreases element, values.len() - i + 1,
    {
        if 0 <= i < values.len() {
            let (checked, state) = self.check(at);
            self.lemma_check_keeps(at);
            self.lemma_keeps_inside(state);
            if checked is Ok {
                state.lemma_clear();
                let cleared = state.clear();
                self.lemma_keeps_outside_transitive(state, cleared);
                let (declared, block) = cleared.declare(
                    cx,
                    variable,
                    LazyModel::Value(values[i]),
                    false,
                );
                cleared.lemma_declare_keeps(cx, variable, LazyModel::Value(values[i]), false);
                self.lemma_keeps_outside_transitive(cleared, block);
                if declared is Ok {
                    block.lemma_evaluate_lazy_keeps(cx, element);
                    let (result, after) = block.evaluate_lazy(cx, element);
                    block.lemma_keeps_inside(after);
                    self.lemma_keeps_outside_transitive(block, after);
                    if let Ok(value) = result {
                        lemma_models_push(
                            done,
                            value,
                            self.eval.store.len(),
                            after.eval.store.len(),
                        );
                        after.lemma_comprehend_keeps(
                            cx,
                            at,
                            variable,
                            element,
                            values,
                            i + 1,
                            done.push(value),
                        );
                        self.lemma_keeps_outside_transitive(
                            after,
                            after.comprehend(
                                cx,
                                at,
                                variable,
                                element,
                                values,
                                i + 1,
                                done.push(value),
                            ).1,
                        );
                    }
                }
            }
        } else {
            assert(self.keeps_outside(self));
        }
    }

    /// Evaluating an expression at once keeps what execution keeps and the lazy graph.
    pub proof fn lemma_evaluate_eager_keeps(self, cx: Surroundings, expression: Expression)
        requires
            self.valid(),
        ensures
            self.keeps_names(self.evaluate_eager(cx, expression).1),
            self.evaluate_eager(cx, expression).1.lazy_graph == self.lazy_graph,
        decreases expression, 1int,
    {
        self.lemma_evaluate_lazy_keeps(cx, expression);
        let (result, state) = self.evaluate_lazy(cx, expression);
        if let Ok(value) = result {
            state.eval.lemma_evaluate_progress(value);
            let (_, eval) = state.eval.evaluate(value);
            state.eval.lemma_evolves_grows(eval);
            assert(state.keeps_names(state.with_eval(eval)));
            self.lemma_keeps_names_transitive(state, state.with_eval(eval));
        }
    }

    proof fn lemma_evaluate_list_keeps(self, cx: Surroundings, expression: Expression)
        requires
            self.valid(),
        ensures
            self.keeps_names(self.evaluate_list(cx, expression).1),
            self.evaluate_list(cx, expression).1.lazy_graph == self.lazy_graph,
        decreases expression, 2int,
    {
        self.lemma_evaluate_eager_keeps(cx, expression);
    }
}

impl ExecutionState {
    proof fn lemma_define_keeps(
        self,
        cx: Surroundings,
        variable: ScopedVariable,
        value: LazyModel,
        mutable: bool,
    )
        requires
            self.valid(),
            value.below(self.eval.store.len()),
        ensures
            self.keeps_names(self.define(cx, variable, value, mutable).1),
    {
        broadcast use LazyModel::lemma_below_monotone;

        if !mutable {
            self.lemma_evaluate_lazy_keeps(cx, *variable.scope);
            let (scope, state) = self.evaluate_lazy(cx, *variable.scope);
            if let Ok(scope) = scope {
                state.lemma_add_thunk_keeps(value, variable.location);
                let after = state.add_thunk(value, variable.location);
                self.lemma_keeps_names_transitive(state, after);
                let defined = self.define(cx, variable, value, mutable).1;
                assert(after.keeps_names(defined));
                self.lemma_keeps_names_transitive(after, defined);
            }
        }
    }

    proof fn lemma_add_variable_keeps(
        self,
        cx: Surroundings,
        variable: Variable,
        value: LazyModel,
        mutable: bool,
    )
        requires
            self.valid(),
            value.below(self.eval.store.len()),
        ensures
            self.keeps(self.add_variable(cx, variable, value, mutable).1),
    {
        match variable {
            Variable::Scoped(v) => {
                self.lemma_define_keeps(cx, v, value, mutable);
                self.lemma_keeps_inside(self.define(cx, v, value, mutable).1);
            },
            Variable::Unscoped(v) => self.lemma_declare_keeps(cx, v, value, mutable),
        }
    }

    proof fn lemma_set_variable_keeps(
        self,
        cx: Surroundings,
        variable: Variable,
        value: LazyModel,
    )
        requires
            self.valid(),
            value.below(self.eval.store.len()),
        ensures
            self.keeps_names(self.set_variable(cx, variable, value).1),
    {
        match variable {
            Variable::Scoped(_) => {},
            Variable::Unscoped(v) => self.lemma_assign_keeps(cx, v, value),
        }
    }

    /// Expanding an attribute keeps what execution keeps and the lazy graph, and the attributes
    /// that were collected before stay, even if it fails.
    pub proof fn lemma_expand_keeps(
        self,
        cx: Surroundings,
        attribute: Attribute,
        done: Seq<AttributeModel>,
    )
        requires
            self.valid(),
            crate::lazy::statements::attributes_below(done, self.eval.store.len()),
        ensures
            self.keeps_names(self.expand(cx, attribute, done).2),
            self.expand(cx, attribute, done).2.lazy_graph == self.lazy_graph,
            crate::lazy::statements::attributes_below(
                self.expand(cx, attribute, done).1,
                self.expand(cx, attribute, done).2.eval.store.len(),
            ),
            done.is_prefix_of(self.expand(cx, attribute, done).1),
        decreases usize::MAX - cx.open_shorthands, 1int, 0int,
    {
        let at = "executing shorthand attributes"@;
        let (checked, state) = self.check(at);
        self.lemma_check_keeps(at);
        if checked is Ok {
            state.lemma_evaluate_lazy_keeps(cx, attribute.value);
            let (value, after) = state.evaluate_lazy(cx, attribute.value);
            self.lemma_keeps_names_transitive(state, after);
            lemma_attributes_later(done, self.eval.store.len(), after.eval.store.len());
            if let Ok(value) = value {
                let position = AttributeShorthands::position(cx.shorthands, attribute.name@);
                if position >= 0 {
                    let shorthand = cx.shorthands[position];
                    after.lemma_expand_shorthand_keeps(cx, shorthand, value, done);
                    self.lemma_keeps_names_transitive(
                        after,
                        after.expand_shorthand(cx, shorthand, value, done).2,
                    );
                }
            }
        }
    }

    /// Expanding a shorthand keeps what execution keeps, all local variables and the lazy graph,
    /// and the attributes that were collected before stay, even if it fails.
    pub proof fn lemma_expand_shorthand_keeps(
        self,
        cx: Surroundings,
        shorthand: AttributeShorthand,
        value: LazyModel,
        done: Seq<AttributeModel>,
    )
        requires
            self.valid(),
            value.below(self.eval.store.len()),
            crate::lazy::statements::attributes_below(done, self.eval.store.len()),
        ensures
            self.keeps_names(self.expand_shorthand(cx, shorthand, value, done).2),
            self.expand_shorthand(cx, shorthand, value, done).2.locals == self.locals,
            self.expand_shorthand(cx, shorthand, value, done).2.lazy_graph == self.lazy_graph,
            crate::lazy::statements::attributes_below(
                self.expand_shorthand(cx, shorthand, value, done).1,
                self.expand_shorthand(cx, shorthand, value, done).2.eval.store.len(),
            ),
            done.is_prefix_of(self.expand_shorthand(cx, shorthand, value, done).1),
        decreases usize::MAX - cx.open_shorthands, 0int, 0int,
    {
        if cx.open_shorthands < usize::MAX {
            let fresh = ExecutionState { locals: seq![Map::empty()], ..self };
            assert(fresh.valid());
            fresh.lemma_declare_keeps(cx, shorthand.variable, value, false);
            let (declared, state) = fresh.declare(cx, shorthand.variable, value, false);
            lemma_attributes_later(done, self.eval.store.len(), state.eval.store.len());
            let after = if declared is Ok {
                let inner = Surroundings { open_shorthands: cx.open_shorthands + 1, ..cx };
                state.lemma_expand_all_keeps(inner, shorthand.attributes@, 0, done);
                let after = state.expand_all(inner, shorthand.attributes@, 0, done).2;
                fresh.lemma_grows_transitive(state, after);
                after
            } else {
                state
            };
            let end = ExecutionState { locals: self.locals, ..after };
            assert forall|i: int, name: Seq<char>|
                0 <= i < end.locals.len() && #[trigger] end.locals[i].contains_key(
                    name,
                ) implies end.locals[i][name].value.below(end.eval.store.len()) by {
                end.locals[i][name].value.lemma_below_monotone(
                    self.eval.store.len(),
                    end.eval.store.len(),
                );
            }
        }
    }

    proof fn lemma_expand_all_keeps(
        self,
        cx: Surroundings,
        attributes: Seq<Attribute>,
        i: int,
        done: Seq<AttributeModel>,
    )
        requires
            self.valid(),
            crate::lazy::statements::attributes_below(done, self.eval.store.len()),
        ensures
            self.keeps_names(self.expand_all(cx, attributes, i, done).2),
            self.expand_all(cx, attributes, i, done).2.lazy_graph == self.lazy_graph,
            crate::lazy::statements::attributes_below(
                self.expand_all(cx, attributes, i, done).1,
                self.expand_all(cx, attributes, i, done).2.eval.store.len(),
            ),
            done.is_prefix_of(self.expand_all(cx, attributes, i, done).1),
        decreases usize::MAX - cx.open_shorthands, 2int, attributes.len() - i,
    {
        if 0 <= i < attributes.len() {
            self.lemma_expand_keeps(cx, attributes[i], done);
            let (result, more, after) = self.expand(cx, attributes[i], done);
            if result is Ok {
                after.lemma_expand_all_keeps(cx, attributes, i + 1, more);
                self.lemma_keeps_names_transitive(
                    after,
                    after.expand_all(cx, attributes, i + 1, more).2,
                );
            }
        }
    }

    proof fn lemma_node_attributes_keeps(
        self,
        cx: Surroundings,
        attributes: Seq<Attribute>,
        i: int,
        done: Seq<AttributeModel>,
    )
        requires
            self.valid(),
            crate::lazy::statements::attributes_below(done, self.eval.store.len()),
        ensures
            self.keeps_names(self.node_attributes(cx, attributes, i, done).1),
            self.node_attributes(cx, attributes, i, done).0 matches Ok(all)
                ==> crate::lazy::statements::attributes_below(
                all,
                self.node_attributes(cx, attributes, i, done).1.eval.store.len(),
            ),
        decreases attributes.len() - i,
    {
        if 0 <= i < attributes.len() {
            let at = "executing graph node attributes"@;
            let (checked, state) = self.check(at);
            self.lemma_check_keeps(at);
            if checked is Ok {
                state.lemma_expand_keeps(cx, attributes[i], done);
                let (result, more, after) = state.expand(cx, attributes[i], done);
                self.lemma_keeps_names_transitive(state, after);
                if result is Ok {
                    after.lemma_node_attributes_keeps(cx, attributes, i + 1, more);
                    self.lemma_keeps_names_transitive(
                        after,
                        after.node_attributes(cx, attributes, i + 1, more).1,
                    );
                }
            }
        }
    }

    proof fn lemma_print_arguments_keeps(
        self,
        cx: Surroundings,
        values: Seq<Expression>,
        i: int,
        done: Seq<PrintModel>,
    )
        requires
            self.valid(),
            crate::lazy::statements::prints_below(done, self.eval.store.len()),
        ensures
            self.keeps_names(self.print_arguments(cx, values, i, done).1),
            self.print_arguments(cx, values, i, done).0 matches Ok(arguments)
                ==> crate::lazy::statements::prints_below(
                arguments,
                self.print_arguments(cx, values, i, done).1.eval.store.len(),
            ),
        decreases values.len() - i,
    {
        if 0 <= i < values.len() {
            if values[i] is StringConstant {
                let text = PrintModel::Text(values[i]->StringConstant_0.value@);
                self.lemma_print_arguments_keeps(cx, values, i + 1, done.push(text));
            } else {
                self.lemma_evaluate_lazy_keeps(cx, values[i]);
                let (result, after) = self.evaluate_lazy(cx, values[i]);
                if let Ok(value) = result {
                    let more = done.push(PrintModel::Value(value));
                    let n = self.eval.store.len();
                    let m = after.eval.store.len();
                    assert forall|k: int| 0 <= k < more.len() implies (
                    #[trigger] more[k] matches PrintModel::Value(value) ==> value.below(m)) by {
                        if k < done.len() {
                            if let PrintModel::Value(value) = done[k] {
                                value.lemma_below_monotone(n, m);
                            }
                        }
                    }
                    after.lemma_print_arguments_keeps(cx, values, i + 1, more);
                    self.lemma_keeps_names_transitive(
                        after,
                        after.print_arguments(cx, values, i + 1, more).1,
                    );
                }
            }
        }
    }

    proof fn lemma_test_keeps(self, cx: Surroundings, condition: Condition)
        requires
            self.valid(),
        ensures
            self.keeps_names(self.test(cx, condition).1),
    {
        match condition {
            Condition::IsSome { value, .. } => self.lemma_evaluate_eager_keeps(cx, value),
            Condition::IsNone { value, .. } => self.lemma_evaluate_eager_keeps(cx, value),
            Condition::Bool { value, .. } => self.lemma_evaluate_eager_keeps(cx, value),
        }
    }

    proof fn lemma_test_all_keeps(
        self,
        cx: Surroundings,
        conditions: Seq<Condition>,
        i: int,
        so_far: bool,
    )
        requires
            self.valid(),
        ensures
            self.keeps_names(self.test_all(cx, conditions, i, so_far).1),
        decreases conditions.len() - i,
    {
        if 0 <= i < conditions.len() {
            self.lemma_test_keeps(cx, conditions[i]);
            let (result, after) = self.test(cx, conditions[i]);
            if let Ok(holds) = result {
                after.lemma_test_all_keeps(cx, conditions, i + 1, so_far && holds);
                self.lemma_keeps_names_transitive(
                    after,
                    after.test_all(cx, conditions, i + 1, so_far && holds).1,
                );
            }
        }
    }

    proof fn lemma_find_arm_keeps(
        self,
        arms: Seq<ScanArm>,
        text: Seq<char>,
        i: int,
        best: Option<ArmModel>,
    )
        requires
            self.valid(),
        ensures
            self.keeps_names(self.find_arm(arms, text, i, best).1),
        decreases arms.len() - i,
    {
        if 0 <= i < arms.len() {
            let at = "processing scan matches"@;
            let (checked, state) = self.check(at);
            self.lemma_check_keeps(at);
            if checked is Ok {
                let better = crate::lazy::execution::better_arm(
                    best,
                    i,
                    crate::regexes::regex_pattern(arms[i].regex),
                    crate::regexes::regex_captures(arms[i].regex, text),
                );
                if let Ok(better) = better {
                    state.lemma_find_arm_keeps(arms, text, i + 1, better);
                    self.lemma_keeps_names_transitive(
                        state,
                        state.find_arm(arms, text, i + 1, better).1,
                    );
                }
            }
        }
    }

    proof fn lemma_ends_keeps(self, cx: Surroundings, source: Expression, sink: Expression)
        requires
            self.valid(),
        ensures
            self.keeps_names(self.evaluate_ends(cx, source, sink).1),
            self.evaluate_ends(cx, source, sink).0 matches Ok(ends) ==> ends.0.below(
                self.evaluate_ends(cx, source, sink).1.eval.store.len(),
            ) && ends.1.below(self.evaluate_ends(cx, source, sink).1.eval.store.len()),
    {
        self.lemma_evaluate_lazy_keeps(cx, source);
        let (first, state) = self.evaluate_lazy(cx, source);
        if let Ok(first) = first {
            state.lemma_evaluate_lazy_keeps(cx, sink);
            let (_, after) = state.evaluate_lazy(cx, sink);
            first.lemma_below_monotone(state.eval.store.len(), after.eval.store.len());
            self.lemma_keeps_names_transitive(state, after);
        }
    }

    proof fn lemma_create_node_keeps(self, cx: Surroundings, variable: Variable)
        requires
            self.valid(),
        ensures
            self.keeps(self.create_node(cx, variable).1),
    {
        let node = GraphNodeRef { index: self.eval.graph.graph_nodes.len() as usize };
        let (result, attributes) = crate::lazy::execution::debug_attributes(
            Map::empty(),
            cx.variable_name_attr,
            cx.location_attr,
            variable,
        );
        let created = GraphNodeModel { attributes, ..GraphNodeModel::blank() };
        let graph = GraphModel {
            graph_nodes: self.eval.graph.graph_nodes.push(created),
            ..self.eval.graph
        };
        let state = self.with_eval(self.eval.with_graph(graph));
        assert(self.keeps_names(state));
        self.lemma_keeps_inside(state);
        if result is Ok {
            let value = LazyModel::Value(ValueModel::GraphNode(node));
            state.lemma_add_variable_keeps(cx, variable, value, false);
            self.lemma_keeps_transitive(state, self.create_node(cx, variable).1);
        }
    }
}

proof fn lemma_attributes_later(attributes: Seq<AttributeModel>, n: nat, m: nat)
    requires
        crate::lazy::statements::attributes_below(attributes, n),
        n <= m,
    ensures
        crate::lazy::statements::attributes_below(attributes, m),
{
    assert forall|i: int| 0 <= i < attributes.len() implies (
    #[trigger] attributes[i]).value.below(m) by {
        attributes[i].value.lemma_below_monotone(n, m);
    }
}

/// Whether a statement declares a variable in the block that it stands in.
pub open spec fn declares(statement: Statement) -> bool {
    match statement {
        Statement::DeclareImmutable(_) => true,
        Statement::DeclareMutable(_) => true,
        Statement::CreateGraphNode(_) => true,
        _ => false,
    }
}

impl ExecutionState {
    /// Executing a statement keeps what `keeps` names: the lazy graph is only added to, nothing is
    /// printed yet, no edge is added and no attribute is set on a node that was there, all
    /// variables stay declared, and those that are not mutable keep their values. Only the
    /// statements that declare a variable add one, and only to the innermost block. This also holds
    /// if the statement fails.
    pub proof fn lemma_execute_keeps(self, cx: Surroundings, statement: Statement)
        requires
            self.valid(),
        ensures
            self.keeps(self.execute(cx, statement).1),
            !declares(statement) ==> self.keeps_names(self.execute(cx, statement).1),
        decreases statement, 1int, 0int,
    {
        let at = "executing statement"@;
        let (checked, state) = self.check(at);
        self.lemma_check_keeps(at);
        self.lemma_keeps_inside(state);
        if checked is Ok {
            state.lemma_perform_keeps(cx, statement);
            let after = state.perform(cx, statement).1;
            self.lemma_keeps_transitive(state, after);
            if !declares(statement) {
                self.lemma_keeps_names_transitive(state, after);
            }
        }
    }

    /// What executing a statement keeps after the cancellation flag has been checked. A scan, an
    /// `if` and a `for` leave the same variables in every block, whatever they declare inside.
    pub proof fn lemma_perform_keeps(self, cx: Surroundings, statement: Statement)
        requires
            self.valid(),
        ensures
            self.keeps(self.perform(cx, statement).1),
            !declares(statement) ==> self.keeps_names(self.perform(cx, statement).1),
            statement is Scan || statement is If || statement is ForIn ==> self.keeps_names(
                self.perform(cx, statement).1,
            ),
        decreases statement, 0int, 0int,
    {
        match statement {
            Statement::DeclareImmutable(s) => {
                self.lemma_evaluate_lazy_keeps(cx, s.value);
                let (value, after) = self.evaluate_lazy(cx, s.value);
                self.lemma_keeps_inside(after);
                if let Ok(value) = value {
                    after.lemma_add_variable_keeps(cx, s.variable, value, false);
                    self.lemma_keeps_transitive(
                        after,
                        after.add_variable(cx, s.variable, value, false).1,
                    );
                }
            },
            Statement::DeclareMutable(s) => {
                self.lemma_evaluate_lazy_keeps(cx, s.value);
                let (value, after) = self.evaluate_lazy(cx, s.value);
                self.lemma_keeps_inside(after);
                if let Ok(value) = value {
                    after.lemma_add_variable_keeps(cx, s.variable, value, true);
                    self.lemma_keeps_transitive(
                        after,
                        after.add_variable(cx, s.variable, value, true).1,
                    );
                }
            },
            Statement::Assign(s) => {
                self.lemma_evaluate_lazy_keeps(cx, s.value);
                let (value, after) = self.evaluate_lazy(cx, s.value);
                if let Ok(value) = value {
                    after.lemma_set_variable_keeps(cx, s.variable, value);
                    self.lemma_keeps_names_transitive(
                        after,
                        after.set_variable(cx, s.variable, value).1,
                    );
                }
            },
            Statement::CreateGraphNode(s) => {
                self.lemma_create_node_keeps(cx, s.node);
            },
            Statement::AddGraphNodeAttribute(s) => {
                self.lemma_evaluate_lazy_keeps(cx, s.node);
                let (node, state) = self.evaluate_lazy(cx, s.node);
                if let Ok(node) = node {
                    state.lemma_node_attributes_keeps(cx, s.attributes@, 0, Seq::empty());
                    let (attributes, after) = state.node_attributes(
                        cx,
                        s.attributes@,
                        0,
                        Seq::empty(),
                    );
                    self.lemma_keeps_names_transitive(state, after);
                    node.lemma_below_monotone(state.eval.store.len(), after.eval.store.len());
                    if let Ok(attributes) = attributes {
                        let added = LazyStatementModel::AddGraphNodeAttribute {
                            node,
                            attributes,
                            debug_info: s.location,
                        };
                        after.lemma_add_statement_keeps(added);
                        self.lemma_keeps_names_transitive(after, after.add_statement(added));
                    }
                }
            },
            Statement::CreateEdge(s) => {
                self.lemma_ends_keeps(cx, s.source, s.sink);
                let (ends, after) = self.evaluate_ends(cx, s.source, s.sink);
                if let Ok((source, sink)) = ends {
                    let added = LazyStatementModel::CreateEdge {
                        source,
                        sink,
                        debug_info: s.location,
                    };
                    after.lemma_add_statement_keeps(added);
                    self.lemma_keeps_names_transitive(after, after.add_statement(added));
                }
            },
            Statement::AddEdgeAttribute(s) => {
                self.lemma_ends_keeps(cx, s.source, s.sink);
                let (ends, state) = self.evaluate_ends(cx, s.source, s.sink);
                if let Ok((source, sink)) = ends {
                    state.lemma_expand_all_keeps(cx, s.attributes@, 0, Seq::empty());
                    let (result, attributes, after) = state.expand_all(
                        cx,
                        s.attributes@,
                        0,
                        Seq::empty(),
                    );
                    self.lemma_keeps_names_transitive(state, after);
                    source.lemma_below_monotone(state.eval.store.len(), after.eval.store.len());
                    sink.lemma_below_monotone(state.eval.store.len(), after.eval.store.len());
                    if result is Ok {
                        let added = LazyStatementModel::AddEdgeAttribute {
                            source,
                            sink,
                            attributes,
                            debug_info: s.location,
                        };
                        after.lemma_add_statement_keeps(added);
                        self.lemma_keeps_names_transitive(after, after.add_statement(added));
                    }
                }
            },
            Statement::Scan(s) => {
                self.lemma_evaluate_eager_keeps(cx, s.value);
                let (value, after) = self.evaluate_eager(cx, s.value);
                if let Ok(value) = value {
                    if let Ok(text) = value.into_string() {
                        after.lemma_scan_keeps(cx, s.arms@, text, text);
                        self.lemma_keeps_names_transitive(
                            after,
                            after.scan(cx, s.arms@, text, text).1,
                        );
                    }
                }
            },
            Statement::Print(s) => {
                self.lemma_print_arguments_keeps(cx, s.values@, 0, Seq::empty());
                let (arguments, after) = self.print_arguments(cx, s.values@, 0, Seq::empty());
                if let Ok(arguments) = arguments {
                    let added = LazyStatementModel::Print { arguments, debug_info: s.location };
                    after.lemma_add_statement_keeps(added);
                    self.lemma_keeps_names_transitive(after, after.add_statement(added));
                }
            },
            Statement::If(s) => {
                self.lemma_choose_arm_keeps(cx, s.arms@, 0);
            },
            Statement::ForIn(s) => {
                self.lemma_evaluate_list_keeps(cx, s.value);
                let (values, after) = self.evaluate_list(cx, s.value);
                if let Ok(values) = values {
                    after.lemma_enter();
                    after.enter().lemma_repeat_keeps(cx, s.variable, s.statements@, values, 0);
                    let end = after.enter().repeat(cx, s.variable, s.statements@, values, 0).1;
                    after.lemma_leave(end);
                    self.lemma_keeps_names_transitive(after, end.leave());
                }
            },
        }
        if !declares(statement) {
            self.lemma_keeps_inside(self.perform(cx, statement).1);
        }
    }

    proof fn lemma_add_statement_keeps(self, statement: LazyStatementModel)
        requires
            self.valid(),
            statement.below(self.eval.store.len()),
        ensures
            self.keeps_names(self.add_statement(statement)),
    {
    }

    /// Executing a block keeps what executing a statement keeps.
    pub proof fn lemma_block_keeps(
        self,
        cx: Surroundings,
        statements: Seq<Statement>,
        i: int,
        at: Seq<char>,
        notes: NotesModel,
    )
        requires
            self.valid(),
        ensures
            self.keeps(self.block(cx, statements, i, at, notes).1),
        decreases statements, 0int, statements.len() - i,
    {
        if 0 <= i < statements.len() {
            let (checked, state) = self.check(at);
            self.lemma_check_keeps(at);
            self.lemma_keeps_inside(state);
            if checked is Ok {
                state.lemma_execute_keeps(cx, statements[i]);
                let (result, after) = state.execute(cx, statements[i]);
                self.lemma_keeps_transitive(state, after);
                if result is Ok {
                    after.lemma_block_keeps(cx, statements, i + 1, at, notes);
                    self.lemma_keeps_transitive(
                        after,
                        after.block(cx, statements, i + 1, at, notes).1,
                    );
                }
            }
        }
    }

    proof fn lemma_choose_arm_keeps(self, cx: Surroundings, arms: Seq<IfArm>, i: int)
        requires
            self.valid(),
        ensures
            self.keeps_names(self.choose_arm(cx, arms, i).1),
        decreases arms, 0int, arms.len() - i,
    {
        if 0 <= i < arms.len() {
            self.lemma_test_all_keeps(cx, arms[i].conditions@, 0, true);
            let (tested, state) = self.test_all(cx, arms[i].conditions@, 0, true);
            if let Ok(holds) = tested {
                if holds {
                    let at = "executing if statements"@;
                    state.lemma_enter();
                    state.enter().lemma_block_keeps(
                        cx,
                        arms[i].statements@,
                        0,
                        at,
                        NotesModel::Nothing,
                    );
                    let after = state.enter().block(
                        cx,
                        arms[i].statements@,
                        0,
                        at,
                        NotesModel::Nothing,
                    ).1;
                    state.lemma_leave(after);
                    self.lemma_keeps_names_transitive(state, after.leave());
                } else {
                    state.lemma_choose_arm_keeps(cx, arms, i + 1);
                    self.lemma_keeps_names_transitive(state, state.choose_arm(cx, arms, i + 1).1);
                }
            }
        }
    }

    proof fn lemma_repeat_keeps(
        self,
        cx: Surroundings,
        variable: UnscopedVariable,
        statements: Seq<Statement>,
        values: Seq<ValueModel>,
        i: int,
    )
        requires
            self.valid(),
        ensures
            self.keeps_outside(self.repeat(cx, variable, statements, values, i).1),
        decreases statements, 1int, values.len() - i,
    {
        if 0 <= i < values.len() {
            self.lemma_clear();
            let cleared = self.clear();
            let value = LazyModel::Value(values[i]);
            cleared.lemma_declare_keeps(cx, variable, value, false);
            let (declared, state) = cleared.declare(cx, variable, value, false);
            self.lemma_keeps_outside_transitive(cleared, state);
            if declared is Ok {
                let at = "executing for statements"@;
                state.lemma_block_keeps(cx, statements, 0, at, NotesModel::Nothing);
                let (result, after) = state.block(cx, statements, 0, at, NotesModel::Nothing);
                self.lemma_keeps_outside_transitive(state, after);
                if result is Ok {
                    after.lemma_repeat_keeps(cx, variable, statements, values, i + 1);
                    self.lemma_keeps_outside_transitive(
                        after,
                        after.repeat(cx, variable, statements, values, i + 1).1,
                    );
                }
            }
        } else {
            assert(self.keeps_outside(self));
        }
    }

    proof fn lemma_scan_keeps(
        self,
        cx: Surroundings,
        arms: Seq<ScanArm>,
        text: Seq<char>,
        rest: Seq<char>,
    )
        requires
            self.valid(),
        ensures
            self.keeps_names(self.scan(cx, arms, text, rest).1),
        decreases arms, 1int, vstd::utf8::encode_utf8(rest).len() as int,
    {
        if rest.len() > 0 {
            self.lemma_find_arm_keeps(arms, rest, 0, None);
            let (found, state) = self.find_arm(arms, rest, 0, None);
            if let Ok(Some(arm)) = found {
                if 0 <= arm.index < arms.len() {
                    let inner = Surroundings {
                        current_regex_captures: crate::lazy::execution::group_texts(arm.groups),
                        ..cx
                    };
                    let at = "executing scan statements"@;
                    let statements = arms[arm.index].statements@;
                    let notes = NotesModel::Scan {
                        text,
                        pattern: crate::regexes::regex_pattern(arms[arm.index].regex),
                    };
                    state.lemma_enter();
                    state.enter().lemma_block_keeps(inner, statements, 0, at, notes);
                    let (result, after) = state.enter().block(inner, statements, 0, at, notes);
                    state.lemma_leave(after);
                    self.lemma_keeps_names_transitive(state, after.leave());
                    if result is Ok {
                        let next = crate::lazy::execution::rest_of(rest, arm.whole().end);
                        if vstd::utf8::encode_utf8(next).len() < vstd::utf8::encode_utf8(
                            rest,
                        ).len() {
                            after.leave().lemma_scan_keeps(cx, arms, text, next);
                            self.lemma_keeps_names_transitive(
                                after.leave(),
                                after.leave().scan(cx, arms, text, next).1,
                            );
                        }
                    }
                }
            }
        }
    }

    /// Executing a stanza keeps what executing a statement keeps, but for local variables: each
    /// stanza starts without any.
    pub proof fn lemma_stanza_keeps(self, cx: Surroundings, stanza: Stanza)
        requires
            self.valid(),
        ensures
            self.keeps_outside(self.execute_stanza(cx, stanza).1),
    {
        self.lemma_clear();
        let cleared = self.clear();
        let index = stanza.full_match_file_capture_index;
        let nodes = crate::lazy::execution::captured(
            cx.mat.captures,
            index,
            cx.mat.captures.len() as int,
        );
        if nodes.len() > 0 {
            let state = cleared.with_eval(
                self.eval.with_graph(self.eval.graph.with_syntax_node(nodes[0])),
            );
            assert(cleared.keeps_names(state));
            cleared.lemma_keeps_inside(state);
            self.lemma_keeps_outside_transitive(cleared, state);
            let inner = Surroundings { current_regex_captures: Seq::empty(), ..cx };
            let at = "executing stanza statements"@;
            let notes = NotesModel::Stanza {
                stanza_location: stanza.location,
                source_location: nodes[0].position,
                node_kind: nodes[0].kind,
            };
            state.lemma_block_keeps(inner, stanza.statements@, 0, at, notes);
            let after = state.block(inner, stanza.statements@, 0, at, notes).1;
            self.lemma_keeps_outside_transitive(state, after);
        }
    }

    /// Executing the stanzas for all matches keeps what executing one keeps.
    pub proof fn lemma_matches_keep(
        self,
        cx: Surroundings,
        stanzas: Seq<Stanza>,
        matches: Seq<MatchModel>,
        i: int,
    )
        requires
            self.valid(),
        ensures
            self.keeps_outside(self.execute_matches(cx, stanzas, matches, i).1),
        decreases matches.len() - i,
    {
        if 0 <= i < matches.len() {
            let at = "processing matches"@;
            let (checked, state) = self.check(at);
            self.lemma_check_keeps(at);
            self.lemma_keeps_inside(state);
            if checked is Ok && matches[i].pattern_index < stanzas.len() {
                let inner = Surroundings { mat: matches[i], ..cx };
                let stanza = stanzas[matches[i].pattern_index as int];
                state.lemma_stanza_keeps(inner, stanza);
                let (result, after) = state.execute_stanza(inner, stanza);
                self.lemma_keeps_outside_transitive(state, after);
                if result is Ok {
                    after.lemma_matches_keep(cx, stanzas, matches, i + 1);
                    self.lemma_keeps_outside_transitive(
                        after,
                        after.execute_matches(cx, stanzas, matches, i + 1).1,
                    );
                }
            }
        } else {
            assert(self.keeps_outside(self));
        }
    }
}

} // verus!
