//! Execution of expressions: turning them into lazy values.

use vstd::prelude::*;
use vstd::string::*;

use crate::ast::Call;
use crate::ast::Capture;
use crate::ast::CaptureQuantifier;
use crate::ast::Expression;
use crate::ast::IntegerConstant;
use crate::ast::ListComprehension;
use crate::ast::ListLiteral;
use crate::ast::RegexCapture;
use crate::ast::ScopedVariable;
use crate::ast::SetComprehension;
use crate::ast::SetLiteral;
use crate::ast::StringConstant;
use crate::ast::UnscopedVariable;
use crate::ast::Variable;
use crate::cancellation::CancellationFlag;
use crate::error::ExecutionError;
use crate::functions::Functions;
use crate::graph::Graph;
use crate::lazy::values::LazyCall;
use crate::lazy::values::LazyList;
use crate::lazy::values::LazyModel;
use crate::lazy::values::LazyScopedVariable;
use crate::lazy::values::LazySet;
use crate::lazy::values::LazyValue;
use crate::lazy::ExecutionContext;
use crate::matching::QueryMatch;
use crate::text::decimal;
use crate::values::SyntaxNodeModel;
use crate::values::Value;
use crate::values::ValueModel;

verus! {

/// The value of a capture. Its nodes are added to the graph.
pub fn query_capture_value(
    index: usize,
    quantifier: CaptureQuantifier,
    mat: &QueryMatch,
    graph: &mut Graph,
) -> (r: Result<Value, ExecutionError>)
    ensures
        (crate::error::result_model(r), final(graph)@) == crate::lazy::execution::capture_value(
            index,
            quantifier,
            mat@,
            old(graph)@,
        ),
{
    broadcast use Value::lemma_list_view;

    let ghost captures = mat@.captures;
    let ghost all = crate::lazy::execution::captured(captures, index, captures.len() as int);
    match quantifier {
        CaptureQuantifier::Zero => Err(ExecutionError::UndefinedCapture(decimal(index as u128))),
        CaptureQuantifier::One => match first_captured(index, mat) {
            None => Err(ExecutionError::UndefinedCapture(decimal(index as u128))),
            Some(i) => {
                graph.add_syntax_node(&mat.captures[i].node);
                Ok(Value::SyntaxNode(mat.captures[i].node.clone()))
            },
        },
        CaptureQuantifier::ZeroOrOne => match first_captured(index, mat) {
            None => Ok(Value::Null),
            Some(i) => {
                graph.add_syntax_node(&mat.captures[i].node);
                Ok(Value::SyntaxNode(mat.captures[i].node.clone()))
            },
        },
        _ => {
            let mut nodes: Vec<Value> = Vec::new();
            let mut i: usize = 0;
            let ghost mut known: Seq<SyntaxNodeModel> = Seq::empty();
            while i < mat.captures.len()
                invariant
                    i <= mat.captures.len(),
                    captures == mat@.captures,
                    known == crate::lazy::execution::captured(captures, index, i as int),
                    nodes.len() == known.len(),
                    forall|k: int|
                        0 <= k < known.len() ==> (#[trigger] nodes@[k])@
                            == ValueModel::SyntaxNode(known[k]),
                    graph@ == crate::lazy::execution::with_syntax_nodes(
                        old(graph)@,
                        known,
                        known.len() as int,
                    ),
                decreases mat.captures.len() - i,
            {
                if mat.captures[i].index == index {
                    let ghost node = mat.captures@[i as int].node@;
                    graph.add_syntax_node(&mat.captures[i].node);
                    nodes.push(Value::SyntaxNode(mat.captures[i].node.clone()));
                    proof {
                        lemma_with_syntax_nodes(
                            old(graph)@,
                            known,
                            known.push(node),
                            known.len() as int,
                        );
                        known = known.push(node);
                    }
                }
                i += 1;
            }
            assert(crate::values::values_model(nodes@) =~= Seq::new(
                all.len(),
                |k: int| ValueModel::SyntaxNode(all[k]),
            ));
            Ok(Value::List(nodes))
        },
    }
}

/// Only the first `n` of the nodes count.
proof fn lemma_with_syntax_nodes(
    graph: crate::graph::GraphModel,
    nodes: Seq<SyntaxNodeModel>,
    more: Seq<SyntaxNodeModel>,
    n: int,
)
    requires
        n <= nodes.len(),
        n <= more.len(),
        forall|i: int| 0 <= i < n ==> nodes[i] == more[i],
    ensures
        crate::lazy::execution::with_syntax_nodes(graph, nodes, n)
            == crate::lazy::execution::with_syntax_nodes(graph, more, n),
    decreases n,
{
    if n > 0 {
        lemma_with_syntax_nodes(graph, nodes, more, n - 1);
    }
}

/// The nodes of the first captures come first.
proof fn lemma_captured_prefix(
    captures: Seq<crate::matching::CaptureModel>,
    index: usize,
    n: int,
    m: int,
)
    requires
        n <= m,
    ensures
        crate::lazy::execution::captured(captures, index, n).is_prefix_of(
            crate::lazy::execution::captured(captures, index, m),
        ),
    decreases m - n,
{
    if n < m {
        lemma_captured_prefix(captures, index, n, m - 1);
    }
}

/// The position of the first capture with the index `index`.
fn first_captured(index: usize, mat: &QueryMatch) -> (r: Option<usize>)
    ensures
        ({
            let nodes = crate::lazy::execution::captured(
                mat@.captures,
                index,
                mat@.captures.len() as int,
            );
            &&& r is None <==> nodes.len() == 0
            &&& r matches Some(i) ==> i < mat.captures.len() && mat.captures@[i as int].node@
                == nodes[0]
        }),
{
    let mut i: usize = 0;
    let ghost captures = mat@.captures;
    while i < mat.captures.len()
        invariant
            i <= mat.captures.len(),
            captures == mat@.captures,
            crate::lazy::execution::captured(captures, index, i as int).len() == 0,
        decreases mat.captures.len() - i,
    {
        if mat.captures[i].index == index {
            proof {
                lemma_captured_prefix(captures, index, i + 1, captures.len() as int);
            }
            assert(crate::lazy::execution::captured(captures, index, i + 1)[0]
                == captures[i as int].node);
            return Some(i);
        }
        i += 1;
    }
    None
}

impl UnscopedVariable {
    /// The value of a global or local variable.
    pub fn evaluate_lazy<C: CancellationFlag, F: Functions>(
        &self,
        exec: &ExecutionContext<C, F>,
    ) -> (r: Result<LazyValue, ExecutionError>)
        requires
            exec@.valid(),
        ensures
            crate::error::result_model(r) == exec@.read(exec.cx(), *self),
            r matches Ok(value) ==> value@.below(exec@.eval.store.len()),
    {
        match exec.config.globals.get(&self.name) {
            Some(value) => Ok(LazyValue::Value(value.clone())),
            None => {
                proof {
                    crate::variables::lemma_block_of(
                        exec@.locals,
                        self.name@,
                        exec@.locals.len() as int,
                    );
                }
                match exec.locals.get(&self.name) {
                    Some(value) => Ok(value.clone()),
                    None => Err(ExecutionError::UndefinedVariable(self.name.name.clone())),
                }
            },
        }
    }

    /// Declares this variable in the innermost block.
    pub fn add_lazy<C: CancellationFlag, F: Functions>(
        &self,
        exec: &mut ExecutionContext<C, F>,
        value: LazyValue,
        mutable: bool,
    ) -> (r: Result<(), ExecutionError>)
        requires
            old(exec)@.valid(),
            value@.below(old(exec)@.eval.store.len()),
        ensures
            (crate::error::unit_model(r), final(exec)@) == old(exec)@.declare(
                old(exec).cx(),
                *self,
                value@,
                mutable,
            ),
            final(exec).cx() == old(exec).cx(),
            old(exec)@.leads_to(final(exec)@),
            *final(final(exec).eval.functions) == *final(old(exec).eval.functions),
            *final(final(exec).eval.cancellation_flag) == *final(old(exec).eval.cancellation_flag),
    {
        if exec.config.globals.get(&self.name).is_some() {
            let mut text = " global ".to_owned();
            text.append(self.name.as_str());
            return Err(ExecutionError::DuplicateVariable(text));
        }
        let variable = exec.add_thunk(value, self.location);
        match exec.locals.add(self.name.clone(), variable, mutable) {
            Ok(()) => Ok(()),
            Err(()) => {
                let mut text = " local ".to_owned();
                text.append(self.name.as_str());
                Err(ExecutionError::DuplicateVariable(text))
            },
        }
    }

    /// Assigns this variable.
    pub fn set_lazy<C: CancellationFlag, F: Functions>(
        &self,
        exec: &mut ExecutionContext<C, F>,
        value: LazyValue,
    ) -> (r: Result<(), ExecutionError>)
        requires
            old(exec)@.valid(),
            value@.below(old(exec)@.eval.store.len()),
        ensures
            (crate::error::unit_model(r), final(exec)@) == old(exec)@.assign(
                old(exec).cx(),
                *self,
                value@,
            ),
            final(exec).cx() == old(exec).cx(),
            old(exec)@.leads_to(final(exec)@),
            *final(final(exec).eval.functions) == *final(old(exec).eval.functions),
            *final(final(exec).eval.cancellation_flag) == *final(old(exec).eval.cancellation_flag),
    {
        if exec.config.globals.get(&self.name).is_some() {
            let mut text = " global ".to_owned();
            text.append(self.name.as_str());
            return Err(ExecutionError::CannotAssignImmutableVariable(text));
        }
        let variable = exec.add_thunk(value, self.location);
        proof {
            crate::variables::lemma_block_of(
                exec@.locals,
                self.name@,
                exec@.locals.len() as int,
            );
        }
        match exec.locals.set(self.name.clone(), variable) {
            Ok(()) => Ok(()),
            Err(_) => {
                if exec.locals.get(&self.name).is_some() {
                    Err(ExecutionError::CannotAssignImmutableVariable(self.name.name.clone()))
                } else {
                    Err(ExecutionError::UndefinedVariable(self.name.name.clone()))
                }
            },
        }
    }
}

impl Expression {
    /// Turns this expression into a lazy value.
    pub fn evaluate_lazy<C: CancellationFlag, F: Functions>(
        &self,
        exec: &mut ExecutionContext<C, F>,
    ) -> (r: Result<LazyValue, ExecutionError>)
        requires
            old(exec)@.valid(),
        ensures
            (crate::error::result_model(r), final(exec)@) == old(exec)@.evaluate_lazy(
                old(exec).cx(),
                *self,
            ),
            final(exec).cx() == old(exec).cx(),
            old(exec)@.leads_to(final(exec)@),
            r matches Ok(value) ==> value@.below(final(exec)@.eval.store.len()),
            *final(final(exec).eval.functions) == *final(old(exec).eval.functions),
            *final(final(exec).eval.cancellation_flag) == *final(old(exec).eval.cancellation_flag),
        decreases self, 0int,
    {
        match self {
            Expression::FalseLiteral => Ok(LazyValue::Value(Value::Boolean(false))),
            Expression::NullLiteral => Ok(LazyValue::Value(Value::Null)),
            Expression::TrueLiteral => Ok(LazyValue::Value(Value::Boolean(true))),
            Expression::IntegerConstant(expr) => expr.evaluate_lazy(),
            Expression::StringConstant(expr) => expr.evaluate_lazy(),
            Expression::ListLiteral(expr) => expr.evaluate_lazy(exec),
            Expression::SetLiteral(expr) => expr.evaluate_lazy(exec),
            Expression::ListComprehension(expr) => expr.evaluate_lazy(exec),
            Expression::SetComprehension(expr) => expr.evaluate_lazy(exec),
            Expression::Capture(expr) => expr.evaluate_lazy(exec),
            Expression::Variable(expr) => expr.evaluate_lazy(exec),
            Expression::Call(expr) => expr.evaluate_lazy(exec),
            Expression::RegexCapture(expr) => expr.evaluate_lazy(exec),
        }
    }
}

impl IntegerConstant {
    /// The integer.
    pub fn evaluate_lazy(&self) -> (r: Result<LazyValue, ExecutionError>)
        ensures
            r matches Ok(value) && value@ == LazyModel::Value(ValueModel::Integer(self.value)),
    {
        Ok(LazyValue::Value(Value::Integer(self.value)))
    }
}

impl StringConstant {
    /// The string.
    pub fn evaluate_lazy(&self) -> (r: Result<LazyValue, ExecutionError>)
        ensures
            r matches Ok(value) && value@ == LazyModel::Value(ValueModel::String(self.value@)),
    {
        Ok(LazyValue::Value(Value::String(self.value.clone())))
    }
}

impl Expression {
    /// Evaluates this expression at once.
    pub fn evaluate_eager<C: CancellationFlag, F: Functions>(
        &self,
        exec: &mut ExecutionContext<C, F>,
    ) -> (r: Result<Value, ExecutionError>)
        requires
            old(exec)@.valid(),
        ensures
            (crate::error::result_model(r), final(exec)@) == old(exec)@.evaluate_eager(
                old(exec).cx(),
                *self,
            ),
            final(exec).cx() == old(exec).cx(),
            old(exec)@.leads_to(final(exec)@),
            *final(final(exec).eval.functions) == *final(old(exec).eval.functions),
            *final(final(exec).eval.cancellation_flag) == *final(old(exec).eval.cancellation_flag),
        decreases self, 1int,
    {
        match self.evaluate_lazy(exec) {
            Err(e) => Err(e),
            Ok(value) => value.evaluate(&mut exec.eval),
        }
    }

    /// Evaluates this expression, which must be a list, at once.
    pub fn evaluate_list<C: CancellationFlag, F: Functions>(
        &self,
        exec: &mut ExecutionContext<C, F>,
    ) -> (r: Result<Vec<Value>, ExecutionError>)
        requires
            old(exec)@.valid(),
        ensures
            ((match r {
                Ok(values) => Ok(crate::values::values_model(values@)),
                Err(e) => Err(e@),
            }), final(exec)@) == old(exec)@.evaluate_list(old(exec).cx(), *self),
            final(exec).cx() == old(exec).cx(),
            old(exec)@.leads_to(final(exec)@),
            *final(final(exec).eval.functions) == *final(old(exec).eval.functions),
            *final(final(exec).eval.cancellation_flag) == *final(old(exec).eval.cancellation_flag),
        decreases self, 2int,
    {
        match self.evaluate_eager(exec) {
            Err(e) => Err(e),
            Ok(value) => value.into_list(),
        }
    }

    /// Turns the expressions into lazy values, one after the other, up to the first error.
    pub fn evaluate_lazy_all<C: CancellationFlag, F: Functions>(
        expressions: &Vec<Expression>,
        exec: &mut ExecutionContext<C, F>,
    ) -> (r: Result<Vec<LazyValue>, ExecutionError>)
        requires
            old(exec)@.valid(),
        ensures
            (models_result(r), final(exec)@) == old(exec)@.evaluate_lazy_all(
                old(exec).cx(),
                expressions@,
                0,
                Seq::empty(),
            ),
            final(exec).cx() == old(exec).cx(),
            old(exec)@.leads_to(final(exec)@),
            r matches Ok(values) ==> values_below(values@, final(exec)@.eval.store.len()),
            *final(final(exec).eval.functions) == *final(old(exec).eval.functions),
            *final(final(exec).eval.cancellation_flag) == *final(old(exec).eval.cancellation_flag),
        decreases expressions@, 0int,
    {
        let ghost before = exec@;
        let ghost cx = exec.cx();
        let mut values: Vec<LazyValue> = Vec::new();
        let mut i: usize = 0;
        assert(crate::lazy::values::lazy_models(values@) =~= Seq::<LazyModel>::empty());
        while i < expressions.len()
            invariant
                *final(exec.eval.functions) == *final(old(exec).eval.functions),
                *final(exec.eval.cancellation_flag) == *final(old(exec).eval.cancellation_flag),
                i <= expressions.len(),
                before == old(exec)@,
                cx == old(exec).cx(),
                exec.cx() == cx,
                before.leads_to(exec@),
                values_below(values@, exec@.eval.store.len()),
                before.evaluate_lazy_all(cx, expressions@, 0, Seq::empty())
                    == exec@.evaluate_lazy_all(
                    cx,
                    expressions@,
                    i as int,
                    crate::lazy::values::lazy_models(values@),
                ),
            decreases expressions.len() - i,
        {
            let ghost done = crate::lazy::values::lazy_models(values@);
            let ghost known = exec@.eval.store.len();
            match expressions[i].evaluate_lazy(exec) {
                Err(e) => {
                    return Err(e);
                },
                Ok(value) => {
                    let ghost added = value@;
                    proof {
                        lemma_values_below(values@, value, known, exec@.eval.store.len());
                    }
                    values.push(value);
                    assert(crate::lazy::values::lazy_models(values@) =~= done.push(added));
                },
            }
            i += 1;
        }
        Ok(values)
    }

    /// Turns `element` into a lazy value for each of the `values`, with the variable declared as
    /// that value in a block of its own, which must have been entered.
    fn comprehend<C: CancellationFlag, F: Functions>(
        at: &str,
        variable: &UnscopedVariable,
        element: &Expression,
        values: &Vec<Value>,
        exec: &mut ExecutionContext<C, F>,
    ) -> (r: Result<Vec<LazyValue>, ExecutionError>)
        requires
            old(exec)@.valid(),
        ensures
            (models_result(r), final(exec)@) == old(exec)@.comprehend(
                old(exec).cx(),
                at@,
                *variable,
                *element,
                crate::values::values_model(values@),
                0,
                Seq::empty(),
            ),
            final(exec).cx() == old(exec).cx(),
            old(exec)@.leads_to(final(exec)@),
            r matches Ok(values) ==> values_below(values@, final(exec)@.eval.store.len()),
            *final(final(exec).eval.functions) == *final(old(exec).eval.functions),
            *final(final(exec).eval.cancellation_flag) == *final(old(exec).eval.cancellation_flag),
        decreases element, 1int,
    {
        let ghost before = exec@;
        let ghost cx = exec.cx();
        let ghost models = crate::values::values_model(values@);
        let mut elements: Vec<LazyValue> = Vec::new();
        let mut i: usize = 0;
        assert(crate::lazy::values::lazy_models(elements@) =~= Seq::<LazyModel>::empty());
        while i < values.len()
            invariant
                *final(exec.eval.functions) == *final(old(exec).eval.functions),
                *final(exec.eval.cancellation_flag) == *final(old(exec).eval.cancellation_flag),
                i <= values.len(),
                before == old(exec)@,
                cx == old(exec).cx(),
                exec.cx() == cx,
                before.leads_to(exec@),
                models == crate::values::values_model(values@),
                values_below(elements@, exec@.eval.store.len()),
                before.comprehend(cx, at@, *variable, *element, models, 0, Seq::empty())
                    == exec@.comprehend(
                    cx,
                    at@,
                    *variable,
                    *element,
                    models,
                    i as int,
                    crate::lazy::values::lazy_models(elements@),
                ),
            decreases values.len() - i,
        {
            let ghost done = crate::lazy::values::lazy_models(elements@);
            let ghost known = exec@.eval.store.len();
            match exec.check(at) {
                Err(e) => {
                    return Err(e);
                },
                Ok(()) => {},
            }
            exec.clear();
            let value = LazyValue::Value(values[i].clone());
            assert(value@ == LazyModel::Value(models[i as int]));
            match variable.add_lazy(exec, value, false) {
                Err(e) => {
                    return Err(e);
                },
                Ok(()) => {},
            }
            match element.evaluate_lazy(exec) {
                Err(e) => {
                    return Err(e);
                },
                Ok(value) => {
                    let ghost added = value@;
                    proof {
                        lemma_values_below(elements@, value, known, exec@.eval.store.len());
                    }
                    elements.push(value);
                    assert(crate::lazy::values::lazy_models(elements@) =~= done.push(added));
                },
            }
            i += 1;
        }
        Ok(elements)
    }
}

/// The model of a fallible sequence of lazy values.
pub open spec fn models_result(r: Result<Vec<LazyValue>, ExecutionError>) -> Result<
    Seq<LazyModel>,
    crate::error::ErrorModel,
> {
    match r {
        Ok(values) => Ok(crate::lazy::values::lazy_models(values@)),
        Err(e) => Err(e@),
    }
}

/// Whether the values stay below location `n` of the store.
pub open spec fn values_below(values: Seq<LazyValue>, n: nat) -> bool {
    forall|i: int| 0 <= i < values.len() ==> (#[trigger] values[i])@.below(n)
}

/// What stays below a location still does with one value more, and below a later location.
proof fn lemma_values_below(values: Seq<LazyValue>, value: LazyValue, n: nat, m: nat)
    requires
        values_below(values, n),
        n <= m,
        value@.below(m),
    ensures
        values_below(values.push(value), m),
{
    assert forall|i: int| 0 <= i < values.push(value).len() implies (#[trigger] values.push(
        value,
    )[i])@.below(m) by {
        if i < values.len() {
            values[i]@.lemma_below_monotone(n, m);
        }
    }
}

impl ListLiteral {
    /// Turns this list into a list of lazy values.
    pub fn evaluate_lazy<C: CancellationFlag, F: Functions>(
        &self,
        exec: &mut ExecutionContext<C, F>,
    ) -> (r: Result<LazyValue, ExecutionError>)
        requires
            old(exec)@.valid(),
        ensures
            (crate::error::result_model(r), final(exec)@) == old(exec)@.evaluate_lazy(
                old(exec).cx(),
                Expression::ListLiteral(*self),
            ),
            final(exec).cx() == old(exec).cx(),
            old(exec)@.leads_to(final(exec)@),
            r matches Ok(value) ==> value@.below(final(exec)@.eval.store.len()),
            *final(final(exec).eval.functions) == *final(old(exec).eval.functions),
            *final(final(exec).eval.cancellation_flag) == *final(old(exec).eval.cancellation_flag),
        decreases self, 0int,
    {
        broadcast use crate::lazy::values::group_lazy_views;

        match Expression::evaluate_lazy_all(&self.elements, exec) {
            Err(e) => Err(e),
            Ok(elements) => Ok(LazyValue::List(LazyList { elements })),
        }
    }
}

impl SetLiteral {
    /// Turns this set into a set of lazy values.
    pub fn evaluate_lazy<C: CancellationFlag, F: Functions>(
        &self,
        exec: &mut ExecutionContext<C, F>,
    ) -> (r: Result<LazyValue, ExecutionError>)
        requires
            old(exec)@.valid(),
        ensures
            (crate::error::result_model(r), final(exec)@) == old(exec)@.evaluate_lazy(
                old(exec).cx(),
                Expression::SetLiteral(*self),
            ),
            final(exec).cx() == old(exec).cx(),
            old(exec)@.leads_to(final(exec)@),
            r matches Ok(value) ==> value@.below(final(exec)@.eval.store.len()),
            *final(final(exec).eval.functions) == *final(old(exec).eval.functions),
            *final(final(exec).eval.cancellation_flag) == *final(old(exec).eval.cancellation_flag),
        decreases self, 0int,
    {
        broadcast use crate::lazy::values::group_lazy_views;

        match Expression::evaluate_lazy_all(&self.elements, exec) {
            Err(e) => Err(e),
            Ok(elements) => Ok(LazyValue::LazySet(LazySet { elements })),
        }
    }
}

impl ListComprehension {
    /// Turns this into a list of lazy values, one for each element of a list.
    pub fn evaluate_lazy<C: CancellationFlag, F: Functions>(
        &self,
        exec: &mut ExecutionContext<C, F>,
    ) -> (r: Result<LazyValue, ExecutionError>)
        requires
            old(exec)@.valid(),
        ensures
            (crate::error::result_model(r), final(exec)@) == old(exec)@.evaluate_lazy(
                old(exec).cx(),
                Expression::ListComprehension(*self),
            ),
            final(exec).cx() == old(exec).cx(),
            old(exec)@.leads_to(final(exec)@),
            r matches Ok(value) ==> value@.below(final(exec)@.eval.store.len()),
            *final(final(exec).eval.functions) == *final(old(exec).eval.functions),
            *final(final(exec).eval.cancellation_flag) == *final(old(exec).eval.cancellation_flag),
        decreases self, 0int,
    {
        broadcast use crate::lazy::values::group_lazy_views;

        let values = match (*self.value).evaluate_list(exec) {
            Err(e) => {
                return Err(e);
            },
            Ok(values) => values,
        };
        exec.enter();
        let result = Expression::comprehend(
            "executing list comprehension values",
            &self.variable,
            &*self.element,
            &values,
            exec,
        );
        exec.leave();
        match result {
            Err(e) => Err(e),
            Ok(elements) => Ok(LazyValue::List(LazyList { elements })),
        }
    }
}

impl SetComprehension {
    /// Turns this into a set of lazy values, one for each element of a list.
    pub fn evaluate_lazy<C: CancellationFlag, F: Functions>(
        &self,
        exec: &mut ExecutionContext<C, F>,
    ) -> (r: Result<LazyValue, ExecutionError>)
        requires
            old(exec)@.valid(),
        ensures
            (crate::error::result_model(r), final(exec)@) == old(exec)@.evaluate_lazy(
                old(exec).cx(),
                Expression::SetComprehension(*self),
            ),
            final(exec).cx() == old(exec).cx(),
            old(exec)@.leads_to(final(exec)@),
            r matches Ok(value) ==> value@.below(final(exec)@.eval.store.len()),
            *final(final(exec).eval.functions) == *final(old(exec).eval.functions),
            *final(final(exec).eval.cancellation_flag) == *final(old(exec).eval.cancellation_flag),
        decreases self, 0int,
    {
        broadcast use crate::lazy::values::group_lazy_views;

        let values = match (*self.value).evaluate_list(exec) {
            Err(e) => {
                return Err(e);
            },
            Ok(values) => values,
        };
        exec.enter();
        let result = Expression::comprehend(
            "executing set comprehension values",
            &self.variable,
            &*self.element,
            &values,
            exec,
        );
        exec.leave();
        match result {
            Err(e) => Err(e),
            Ok(elements) => Ok(LazyValue::LazySet(LazySet { elements })),
        }
    }
}

impl Capture {
    /// The nodes that this capture holds.
    pub fn evaluate_lazy<C: CancellationFlag, F: Functions>(
        &self,
        exec: &mut ExecutionContext<C, F>,
    ) -> (r: Result<LazyValue, ExecutionError>)
        requires
            old(exec)@.valid(),
        ensures
            (crate::error::result_model(r), final(exec)@) == old(exec)@.evaluate_lazy(
                old(exec).cx(),
                Expression::Capture(*self),
            ),
            final(exec).cx() == old(exec).cx(),
            old(exec)@.leads_to(final(exec)@),
            r matches Ok(value) ==> value@.below(final(exec)@.eval.store.len()),
            *final(final(exec).eval.functions) == *final(old(exec).eval.functions),
            *final(final(exec).eval.cancellation_flag) == *final(old(exec).eval.cancellation_flag),
    {
        match query_capture_value(
            self.file_capture_index,
            self.quantifier,
            exec.mat,
            &mut exec.eval.graph,
        ) {
            Err(e) => Err(e),
            Ok(value) => Ok(LazyValue::Value(value)),
        }
    }
}

impl Call {
    /// Turns this call into a lazy call.
    pub fn evaluate_lazy<C: CancellationFlag, F: Functions>(
        &self,
        exec: &mut ExecutionContext<C, F>,
    ) -> (r: Result<LazyValue, ExecutionError>)
        requires
            old(exec)@.valid(),
        ensures
            (crate::error::result_model(r), final(exec)@) == old(exec)@.evaluate_lazy(
                old(exec).cx(),
                Expression::Call(*self),
            ),
            final(exec).cx() == old(exec).cx(),
            old(exec)@.leads_to(final(exec)@),
            r matches Ok(value) ==> value@.below(final(exec)@.eval.store.len()),
            *final(final(exec).eval.functions) == *final(old(exec).eval.functions),
            *final(final(exec).eval.cancellation_flag) == *final(old(exec).eval.cancellation_flag),
        decreases self, 0int,
    {
        broadcast use crate::lazy::values::group_lazy_views;

        match Expression::evaluate_lazy_all(&self.parameters, exec) {
            Err(e) => Err(e),
            Ok(arguments) => Ok(
                LazyValue::Call(LazyCall { function: self.function.clone(), arguments }),
            ),
        }
    }
}

impl RegexCapture {
    /// What this group matched.
    pub fn evaluate_lazy<C: CancellationFlag, F: Functions>(
        &self,
        exec: &mut ExecutionContext<C, F>,
    ) -> (r: Result<LazyValue, ExecutionError>)
        requires
            old(exec)@.valid(),
        ensures
            (crate::error::result_model(r), final(exec)@) == old(exec)@.evaluate_lazy(
                old(exec).cx(),
                Expression::RegexCapture(*self),
            ),
            final(exec).cx() == old(exec).cx(),
            old(exec)@.leads_to(final(exec)@),
            r matches Ok(value) ==> value@.below(final(exec)@.eval.store.len()),
            *final(final(exec).eval.functions) == *final(old(exec).eval.functions),
            *final(final(exec).eval.cancellation_flag) == *final(old(exec).eval.cancellation_flag),
    {
        if self.match_index >= exec.current_regex_captures.len() {
            let mut text = "$".to_owned();
            text.append(decimal(self.match_index as u128).as_str());
            return Err(ExecutionError::UndefinedRegexCapture(text));
        }
        let value = exec.current_regex_captures[self.match_index].clone();
        assert(exec.cx().current_regex_captures[self.match_index as int] == value@);
        Ok(LazyValue::Value(Value::String(value)))
    }
}

impl Variable {
    /// The value of this variable.
    pub fn evaluate_lazy<C: CancellationFlag, F: Functions>(
        &self,
        exec: &mut ExecutionContext<C, F>,
    ) -> (r: Result<LazyValue, ExecutionError>)
        requires
            old(exec)@.valid(),
        ensures
            (crate::error::result_model(r), final(exec)@) == old(exec)@.evaluate_lazy(
                old(exec).cx(),
                Expression::Variable(*self),
            ),
            final(exec).cx() == old(exec).cx(),
            old(exec)@.leads_to(final(exec)@),
            r matches Ok(value) ==> value@.below(final(exec)@.eval.store.len()),
            *final(final(exec).eval.functions) == *final(old(exec).eval.functions),
            *final(final(exec).eval.cancellation_flag) == *final(old(exec).eval.cancellation_flag),
        decreases self, 0int,
    {
        match self {
            Variable::Scoped(variable) => variable.evaluate_lazy(exec),
            Variable::Unscoped(variable) => variable.evaluate_lazy(exec),
        }
    }
}

impl ScopedVariable {
    /// Turns this into a lazy variable of a lazy scope.
    pub fn evaluate_lazy<C: CancellationFlag, F: Functions>(
        &self,
        exec: &mut ExecutionContext<C, F>,
    ) -> (r: Result<LazyValue, ExecutionError>)
        requires
            old(exec)@.valid(),
        ensures
            (crate::error::result_model(r), final(exec)@) == old(exec)@.evaluate_lazy(
                old(exec).cx(),
                Expression::Variable(Variable::Scoped(*self)),
            ),
            final(exec).cx() == old(exec).cx(),
            old(exec)@.leads_to(final(exec)@),
            r matches Ok(value) ==> value@.below(final(exec)@.eval.store.len()),
            *final(final(exec).eval.functions) == *final(old(exec).eval.functions),
            *final(final(exec).eval.cancellation_flag) == *final(old(exec).eval.cancellation_flag),
        decreases self, 0int,
    {
        match (*self.scope).evaluate_lazy(exec) {
            Err(e) => Err(e),
            Ok(scope) => Ok(
                LazyValue::ScopedVariable(
                    LazyScopedVariable { scope: Box::new(scope), name: self.name.clone() },
                ),
            ),
        }
    }
}

} // verus!
