//! Lazy values: what is left to be computed.

use vstd::prelude::*;
use vstd::string::*;

use crate::cancellation::CancellationFlag;
use crate::error::ExecutionError;
use crate::functions::Functions;
use crate::identifier::Identifier;
use crate::lazy::EvaluationContext;
use crate::lazy::store::LazyScopedVariables;
use crate::lazy::store::LazyVariable;
use crate::values::GraphNodeRef;
use crate::values::SyntaxNodeRef;
use crate::values::Value;
use crate::values::ValueModel;
use crate::values::ValueSet;

verus! {

/// A value, or how to compute it.
pub enum LazyValue {
    Value(Value),
    List(LazyList),
    LazySet(LazySet),
    Variable(LazyVariable),
    ScopedVariable(LazyScopedVariable),
    Call(LazyCall),
}

/// A list of lazy values.
pub struct LazyList {
    pub elements: Vec<LazyValue>,
}

/// A set of lazy values.
pub struct LazySet {
    pub elements: Vec<LazyValue>,
}

/// The variable `name` of the syntax node that `scope` evaluates to.
pub struct LazyScopedVariable {
    pub scope: Box<LazyValue>,
    pub name: Identifier,
}

/// A function call.
pub struct LazyCall {
    pub function: Identifier,
    pub arguments: Vec<LazyValue>,
}

/// The model of a `LazyValue`. A variable is modelled by its location in the store.
#[verifier::ext_equal]
pub enum LazyModel {
    Value(ValueModel),
    List(Seq<LazyModel>),
    LazySet(Seq<LazyModel>),
    Variable(usize),
    ScopedVariable(Box<LazyModel>, Seq<char>),
    Call(Seq<char>, Seq<LazyModel>),
}

impl LazyValue {
    /// What this value is modelled by.
    pub open spec fn model(self) -> LazyModel
        decreases self,
    {
        match self {
            LazyValue::Value(value) => LazyModel::Value(value@),
            LazyValue::List(list) => LazyModel::List(
                Seq::new(
                    list.elements@.len(),
                    |i: int|
                        if 0 <= i < list.elements@.len() {
                            list.elements@[i].model()
                        } else {
                            arbitrary()
                        },
                ),
            ),
            LazyValue::LazySet(set) => LazyModel::LazySet(
                Seq::new(
                    set.elements@.len(),
                    |i: int|
                        if 0 <= i < set.elements@.len() {
                            set.elements@[i].model()
                        } else {
                            arbitrary()
                        },
                ),
            ),
            LazyValue::Variable(variable) => LazyModel::Variable(variable.store_location),
            LazyValue::ScopedVariable(variable) => LazyModel::ScopedVariable(
                Box::new((*variable.scope).model()),
                variable.name@,
            ),
            LazyValue::Call(call) => LazyModel::Call(
                call.function@,
                Seq::new(
                    call.arguments@.len(),
                    |i: int|
                        if 0 <= i < call.arguments@.len() {
                            call.arguments@[i].model()
                        } else {
                            arbitrary()
                        },
                ),
            ),
        }
    }
}

impl View for LazyValue {
    type V = LazyModel;

    open spec fn view(&self) -> LazyModel {
        self.model()
    }
}

/// The models of a sequence of lazy values.
pub open spec fn lazy_models(values: Seq<LazyValue>) -> Seq<LazyModel> {
    Seq::new(values.len(), |i: int| values[i]@)
}

impl LazyValue {
    /// A list is modelled by the models of its elements.
    pub broadcast proof fn lemma_list_view(list: LazyList)
        ensures
            #[trigger] LazyValue::List(list)@ == LazyModel::List(lazy_models(list.elements@)),
    {
        assert(LazyValue::List(list)@->List_0 =~= lazy_models(list.elements@));
    }

    /// A set is modelled by the models of its elements.
    pub broadcast proof fn lemma_set_view(set: LazySet)
        ensures
            #[trigger] LazyValue::LazySet(set)@ == LazyModel::LazySet(lazy_models(set.elements@)),
    {
        assert(LazyValue::LazySet(set)@->LazySet_0 =~= lazy_models(set.elements@));
    }

    /// A call is modelled by its function and the models of its arguments.
    pub broadcast proof fn lemma_call_view(call: LazyCall)
        ensures
            #[trigger] LazyValue::Call(call)@ == LazyModel::Call(
                call.function@,
                lazy_models(call.arguments@),
            ),
    {
        assert(LazyValue::Call(call)@->Call_1 =~= lazy_models(call.arguments@));
    }
}

pub broadcast group group_lazy_views {
    LazyValue::lemma_list_view,
    LazyValue::lemma_set_view,
    LazyValue::lemma_call_view,
}

/// A copy of `values`.
pub fn clone_lazy_values(values: &Vec<LazyValue>) -> (r: Vec<LazyValue>)
    ensures
        lazy_models(r@) == lazy_models(values@),
    decreases values@,
{
    let mut r: Vec<LazyValue> = Vec::new();
    let mut i: usize = 0;
    while i < values.len()
        invariant
            i <= values.len(),
            r.len() == i,
            forall|j: int| 0 <= j < i ==> (#[trigger] r@[j])@ == values@[j]@,
        decreases values.len() - i,
    {
        r.push(values[i].clone());
        i += 1;
    }
    assert(lazy_models(r@) =~= lazy_models(values@));
    r
}

impl Clone for LazyValue {
    fn clone(&self) -> (r: LazyValue)
        ensures
            r@ == self@,
        decreases self,
    {
        broadcast use group_lazy_views;

        match self {
            LazyValue::Value(value) => LazyValue::Value(value.clone()),
            LazyValue::List(list) => LazyValue::List(
                LazyList { elements: clone_lazy_values(&list.elements) },
            ),
            LazyValue::LazySet(set) => LazyValue::LazySet(
                LazySet { elements: clone_lazy_values(&set.elements) },
            ),
            LazyValue::Variable(variable) => LazyValue::Variable(*variable),
            LazyValue::ScopedVariable(variable) => LazyValue::ScopedVariable(
                LazyScopedVariable {
                    scope: Box::new((*variable.scope).clone()),
                    name: variable.name.clone(),
                },
            ),
            LazyValue::Call(call) => LazyValue::Call(
                LazyCall {
                    function: call.function.clone(),
                    arguments: clone_lazy_values(&call.arguments),
                },
            ),
        }
    }
}

impl LazyModel {
    /// Whether every variable in this value lies below location `n` of the store.
    pub open spec fn below(self, n: nat) -> bool
        decreases self,
    {
        match self {
            LazyModel::Value(_) => true,
            LazyModel::List(s) => forall|i: int| 0 <= i < s.len() ==> (#[trigger] s[i]).below(n),
            LazyModel::LazySet(s) => forall|i: int| 0 <= i < s.len() ==> (#[trigger] s[i]).below(n),
            LazyModel::Variable(location) => location < n,
            LazyModel::ScopedVariable(scope, _) => scope.below(n),
            LazyModel::Call(_, s) => forall|i: int| 0 <= i < s.len() ==> (#[trigger] s[i]).below(n),
        }
    }

    /// Whether no scoped variable occurs in this value.
    pub open spec fn direct(self) -> bool
        decreases self,
    {
        match self {
            LazyModel::Value(_) => true,
            LazyModel::List(s) => forall|i: int| 0 <= i < s.len() ==> (#[trigger] s[i]).direct(),
            LazyModel::LazySet(s) => forall|i: int| 0 <= i < s.len() ==> (#[trigger] s[i]).direct(),
            LazyModel::Variable(_) => true,
            LazyModel::ScopedVariable(_, _) => false,
            LazyModel::Call(_, s) => forall|i: int| 0 <= i < s.len() ==> (#[trigger] s[i]).direct(),
        }
    }

    /// How many lazy values occur inside this one.
    pub open spec fn size(self) -> nat
        decreases self, 0int,
    {
        match self {
            LazyModel::Value(_) => 0,
            LazyModel::List(s) => 1 + LazyModel::size_of(s, s.len() as int),
            LazyModel::LazySet(s) => 1 + LazyModel::size_of(s, s.len() as int),
            LazyModel::Variable(_) => 0,
            LazyModel::ScopedVariable(scope, _) => 1 + scope.size(),
            LazyModel::Call(_, s) => 1 + LazyModel::size_of(s, s.len() as int),
        }
    }

    /// How many lazy values the first `n` of `s` are, with those inside them.
    pub open spec fn size_of(s: Seq<LazyModel>, n: int) -> nat
        decreases s, n,
    {
        if n <= 0 || n > s.len() {
            0
        } else {
            LazyModel::size_of(s, n - 1) + 1 + s[n - 1].size()
        }
    }

    pub proof fn lemma_size_element(s: Seq<LazyModel>, n: int, i: int)
        requires
            0 <= i < n <= s.len(),
        ensures
            s[i].size() < LazyModel::size_of(s, n),
        decreases n,
    {
        if i < n - 1 {
            LazyModel::lemma_size_element(s, n - 1, i);
        }
    }

    /// What lies below a location lies below every later one.
    pub broadcast proof fn lemma_below_monotone(self, n: nat, m: nat)
        requires
            #[trigger] self.below(n),
            n <= m,
        ensures
            #[trigger] self.below(m),
        decreases self,
    {
        match self {
            LazyModel::List(s) => {
                assert forall|i: int| 0 <= i < s.len() implies (#[trigger] s[i]).below(m) by {
                    s[i].lemma_below_monotone(n, m);
                }
            },
            LazyModel::LazySet(s) => {
                assert forall|i: int| 0 <= i < s.len() implies (#[trigger] s[i]).below(m) by {
                    s[i].lemma_below_monotone(n, m);
                }
            },
            LazyModel::ScopedVariable(scope, _) => {
                scope.lemma_below_monotone(n, m);
            },
            LazyModel::Call(_, s) => {
                assert forall|i: int| 0 <= i < s.len() implies (#[trigger] s[i]).below(m) by {
                    s[i].lemma_below_monotone(n, m);
                }
            },
            _ => {},
        }
    }

    /// Lists, sets, variables and calls are shown as terms in round brackets.
    pub open spec fn shown(self) -> Seq<char>
        decreases self, 0int,
    {
        match self {
            LazyModel::Value(value) => value.shown(),
            LazyModel::List(s) => LazyModel::terms_shown("(list"@, s, s.len() as int) + ")"@,
            LazyModel::LazySet(s) => LazyModel::terms_shown("(set"@, s, s.len() as int) + ")"@,
            LazyModel::Variable(location) => "(load "@ + crate::text::decimal_text(location as nat)
                + ")"@,
            LazyModel::ScopedVariable(scope, name) => "(scoped "@ + scope.shown() + " '"@ + name
                + ")"@,
            LazyModel::Call(function, s) => LazyModel::terms_shown(
                "(call '"@ + function,
                s,
                s.len() as int,
            ) + ")"@,
        }
    }

    /// `start`, and after it the first `n` of the values of `s`, each after a space.
    pub open spec fn terms_shown(start: Seq<char>, s: Seq<LazyModel>, n: int) -> Seq<char>
        decreases s, n,
    {
        if n <= 0 || n > s.len() {
            start
        } else {
            LazyModel::terms_shown(start, s, n - 1) + " "@ + s[n - 1].shown()
        }
    }
}

fn terms_text(start: String, values: &Vec<LazyValue>) -> (r: String)
    ensures
        r@ == LazyModel::terms_shown(start@, lazy_models(values@), values.len() as int),
    decreases values@,
{
    let mut r = start;
    let mut i: usize = 0;
    let ghost models = lazy_models(values@);
    while i < values.len()
        invariant
            i <= values.len(),
            models == lazy_models(values@),
            r@ == LazyModel::terms_shown(start@, models, i as int),
        decreases values.len() - i,
    {
        r.append(" ");
        r.append(values[i].text().as_str());
        assert(models[i as int] == values@[i as int]@);
        i += 1;
    }
    r
}

impl LazyValue {
    pub fn text(&self) -> (r: String)
        ensures
            r@ == self@.shown(),
        decreases self,
    {
        broadcast use group_lazy_views;

        match self {
            LazyValue::Value(value) => value.text(),
            LazyValue::List(list) => {
                let mut r = terms_text("(list".to_owned(), &list.elements);
                r.append(")");
                r
            },
            LazyValue::LazySet(set) => {
                let mut r = terms_text("(set".to_owned(), &set.elements);
                r.append(")");
                r
            },
            LazyValue::Variable(variable) => variable.text(),
            LazyValue::ScopedVariable(variable) => {
                let mut r = "(scoped ".to_owned();
                r.append((*variable.scope).text().as_str());
                r.append(" '");
                r.append(variable.name.as_str());
                r.append(")");
                r
            },
            LazyValue::Call(call) => {
                let mut start = "(call '".to_owned();
                start.append(call.function.as_str());
                let mut r = terms_text(start, &call.arguments);
                r.append(")");
                r
            },
        }
    }
}

impl LazyValue {
    /// Evaluates this value.
    pub fn evaluate<C: CancellationFlag, F: Functions>(
        &self,
        exec: &mut EvaluationContext<C, F>,
    ) -> (r: Result<Value, ExecutionError>)
        requires
            old(exec)@.valid(),
            self@.below(old(exec)@.store.len()),
        ensures
            (crate::error::result_model(r), final(exec)@) == old(exec)@.evaluate(self@),
            old(exec)@.leads_to(final(exec)@),
            *final(final(exec).functions) == *final(old(exec).functions),
            *final(final(exec).cancellation_flag) == *final(old(exec).cancellation_flag),
        decreases
                old(exec)@.pending(),
                if self@.direct() {
                    0int
                } else {
                    1
                },
                self@.size() + 2,
                0int,
    {
        broadcast use {group_lazy_views, Value::lemma_list_view, Value::lemma_set_view};

        if let Err(e) = exec.check("evaluating value") {
            return Err(e);
        }
        match self {
            LazyValue::Value(value) => Ok(value.clone()),
            LazyValue::List(list) => {
                match evaluate_elements(&list.elements, exec) {
                    Err(e) => Err(e),
                    Ok(values) => Ok(Value::List(values)),
                }
            },
            LazyValue::LazySet(set) => {
                match evaluate_elements(&set.elements, exec) {
                    Err(e) => Err(e),
                    Ok(values) => Ok(Value::ValueSet(ValueSet::of(values))),
                }
            },
            LazyValue::Variable(variable) => variable.evaluate(exec),
            LazyValue::ScopedVariable(variable) => {
                let scope = match (*variable.scope).evaluate_as_syntax_node(exec) {
                    Err(e) => {
                        return Err(e);
                    },
                    Ok(scope) => scope,
                };
                match LazyScopedVariables::evaluate(&scope, &variable.name, exec) {
                    Err(e) => Err(e),
                    Ok(value) => value.evaluate(exec),
                }
            },
            LazyValue::Call(call) => {
                match evaluate_elements(&call.arguments, exec) {
                    Err(e) => Err(e),
                    Ok(arguments) => exec.functions.call(
                        &call.function,
                        &mut exec.graph,
                        exec.source,
                        arguments,
                    ),
                }
            },
        }
    }

    /// Evaluates this value, which must be a syntax node.
    pub fn evaluate_as_syntax_node<C: CancellationFlag, F: Functions>(
        &self,
        exec: &mut EvaluationContext<C, F>,
    ) -> (r: Result<SyntaxNodeRef, ExecutionError>)
        requires
            old(exec)@.valid(),
            self@.below(old(exec)@.store.len()),
        ensures
            crate::error::result_model(r) == crate::lazy::evaluation::as_syntax_node(
                old(exec)@.evaluate(self@).0,
            ),
            final(exec)@ == old(exec)@.evaluate(self@).1,
            old(exec)@.leads_to(final(exec)@),
            *final(final(exec).functions) == *final(old(exec).functions),
            *final(final(exec).cancellation_flag) == *final(old(exec).cancellation_flag),
        decreases
                old(exec)@.pending(),
                if self@.direct() {
                    0int
                } else {
                    1
                },
                self@.size() + 2,
                1int,
    {
        match self.evaluate(exec) {
            Err(e) => Err(e),
            Ok(value) => value.into_syntax_node(),
        }
    }

    /// Evaluates this value, which must be a graph node.
    pub fn evaluate_as_graph_node<C: CancellationFlag, F: Functions>(
        &self,
        exec: &mut EvaluationContext<C, F>,
    ) -> (r: Result<GraphNodeRef, ExecutionError>)
        requires
            old(exec)@.valid(),
            self@.below(old(exec)@.store.len()),
        ensures
            (match r {
                Ok(node) => Ok(node),
                Err(e) => Err(e@),
            }) == crate::lazy::evaluation::as_graph_node(old(exec)@.evaluate(self@).0),
            final(exec)@ == old(exec)@.evaluate(self@).1,
            old(exec)@.leads_to(final(exec)@),
            *final(final(exec).functions) == *final(old(exec).functions),
            *final(final(exec).cancellation_flag) == *final(old(exec).cancellation_flag),
    {
        match self.evaluate(exec) {
            Err(e) => Err(e),
            Ok(value) => value.into_graph_node(),
        }
    }
}

/// Evaluates `values` one after the other, up to the first error.
fn evaluate_elements<C: CancellationFlag, F: Functions>(
    values: &Vec<LazyValue>,
    exec: &mut EvaluationContext<C, F>,
) -> (r: Result<Vec<Value>, ExecutionError>)
    requires
        old(exec)@.valid(),
        forall|i: int|
            0 <= i < values.len() ==> (#[trigger] lazy_models(values@)[i]).below(
                old(exec)@.store.len(),
            ),
    ensures
        (match r {
            Ok(results) => Ok(crate::values::values_model(results@)),
            Err(e) => Err(e@),
        }) == old(exec)@.evaluate_all(lazy_models(values@), 0, Seq::empty()).0,
        final(exec)@ == old(exec)@.evaluate_all(lazy_models(values@), 0, Seq::empty()).1,
        old(exec)@.leads_to(final(exec)@),
        *final(final(exec).functions) == *final(old(exec).functions),
        *final(final(exec).cancellation_flag) == *final(old(exec).cancellation_flag),
    decreases
            old(exec)@.pending(),
            if forall|k: int|
                0 <= k < values.len() ==> (#[trigger] lazy_models(values@)[k]).direct() {
                0int
            } else {
                1
            },
            LazyModel::size_of(lazy_models(values@), values.len() as int) + 2,
            2int,
{
    let ghost before = exec@;
    let ghost models = lazy_models(values@);
    let mut results: Vec<Value> = Vec::new();
    let mut i: usize = 0;
    assert(crate::values::values_model(results@) =~= Seq::<ValueModel>::empty());
    while i < values.len()
        invariant
            *final(exec.functions) == *final(old(exec).functions),
            *final(exec.cancellation_flag) == *final(old(exec).cancellation_flag),
            i <= values.len(),
            before == old(exec)@,
            models == lazy_models(values@),
            before.leads_to(exec@),
            forall|k: int|
                0 <= k < values.len() ==> (#[trigger] models[k]).below(before.store.len()),
            before.evaluate_all(models, 0, Seq::empty()) == exec@.evaluate_all(
                models,
                i as int,
                crate::values::values_model(results@),
            ),
        decreases values.len() - i,
    {
        let ghost done = crate::values::values_model(results@);
        proof {
            LazyModel::lemma_size_element(models, models.len() as int, i as int);
            assert(models[i as int] == values@[i as int]@);
        }
        match values[i].evaluate(exec) {
            Err(e) => {
                return Err(e);
            },
            Ok(value) => {
                results.push(value);
                assert(crate::values::values_model(results@) =~= done.push(value@));
            },
        }
        i += 1;
    }
    Ok(results)
}

} // verus!
