//! What evaluation means: the state that it works on, and what it makes of it.

use vstd::prelude::*;

use crate::cancellation::Answers;
use crate::error::ContextModel;
use crate::error::ErrorModel;
use crate::functions::Outcomes;
use crate::functions::Request;
use crate::graph::GraphModel;
use crate::lazy::store::ScopedDefinition;
use crate::lazy::store::ScopedModel;
use crate::lazy::store::ThunkModel;
use crate::lazy::store::ThunkStateModel;
use crate::lazy::values::LazyModel;
use crate::location::Location;
use crate::values::GraphNodeRef;
use crate::values::SyntaxNodeModel;
use crate::values::ValueModel;

verus! {

/// What the debug info of an element of the graph is kept under.
#[verifier::ext_equal]
pub enum ElementKeyModel {
    NodeAttribute(GraphNodeRef, Seq<char>),
    Edge(GraphNodeRef, GraphNodeRef),
    EdgeAttribute(GraphNodeRef, GraphNodeRef, Seq<char>),
}

/// The state that lazy values are evaluated in.
#[verifier::ext_equal]
pub struct EvaluationState {
    /// The text of the source file.
    pub source: Seq<char>,
    pub graph: GraphModel,
    /// The outcomes of the function calls that are still to come.
    pub functions: Outcomes,
    pub store: Seq<ThunkModel>,
    pub scoped_store: Map<Seq<char>, ScopedModel>,
    pub prev_element_debug_info: Map<ElementKeyModel, Location>,
    /// What has been printed.
    pub printed: Seq<char>,
    /// The answers of the cancellation checks that are still to come.
    pub cancellation_flag: Answers,
}

/// How many of the first `n` thunks have not been forced.
pub open spec fn unforced_thunks(store: Seq<ThunkModel>, n: int) -> nat
    decreases n,
{
    if n <= 0 {
        0
    } else {
        unforced_thunks(store, n - 1) + (if store[n - 1].state is Unforced {
            1nat
        } else {
            0nat
        })
    }
}

/// The names whose scopes have not been forced.
pub open spec fn unforced_names(scoped_store: Map<Seq<char>, ScopedModel>) -> Set<Seq<char>> {
    scoped_store.dom().filter(|name: Seq<char>| scoped_store[name] is Unforced)
}

/// Whether the definitions stay below location `n` of the store, with values in which no scoped
/// variable occurs.
pub open spec fn definitions_valid(definitions: Seq<ScopedDefinition>, n: nat) -> bool {
    forall|i: int|
        0 <= i < definitions.len() ==> {
            &&& (#[trigger] definitions[i]).scope.below(n)
            &&& definitions[i].value.below(n)
            &&& definitions[i].value.direct()
        }
}

/// Whether the values stay below location `n` of the store, and no scoped variable occurs in them.
pub open spec fn scopes_valid(map: Map<SyntaxNodeModel, LazyModel>, n: nat) -> bool {
    forall|node: SyntaxNodeModel| #[trigger]
        map.contains_key(node) ==> map[node].below(n) && map[node].direct()
}

impl ScopedModel {
    pub open spec fn valid(self, n: nat) -> bool {
        match self {
            ScopedModel::Unforced(definitions) => definitions_valid(definitions, n),
            ScopedModel::Forcing => true,
            ScopedModel::Forced(map) => scopes_valid(map, n),
        }
    }
}

impl EvaluationState {
    /// Every variable that occurs in the state points into the store, and the values of scoped
    /// variables do not refer to scoped variables themselves, other than by way of the store.
    pub open spec fn valid(self) -> bool {
        &&& forall|i: int|
            0 <= i < self.store.len() ==> (#[trigger] self.store[i].state matches ThunkStateModel::Unforced(value)
                ==> value.below(self.store.len()))
        &&& self.scoped_store.dom().finite()
        &&& forall|name: Seq<char>| #[trigger]
            self.scoped_store.contains_key(name) ==> self.scoped_store[name].valid(
                self.store.len(),
            )
    }

    /// Whether `after` is a valid state that evaluation can lead to from this one: no thunk or name
    /// is added or removed, and no more is left to be forced.
    pub open spec fn leads_to(self, after: EvaluationState) -> bool {
        &&& after.valid()
        &&& after.store.len() == self.store.len()
        &&& after.scoped_store.dom() == self.scoped_store.dom()
        &&& after.pending() <= self.pending()
    }

    /// How many thunks and names are still to be forced.
    pub open spec fn pending(self) -> nat {
        unforced_thunks(self.store, self.store.len() as int) + unforced_names(
            self.scoped_store,
        ).len()
    }

    /// The state in which the thunk at `location` is in another state.
    pub open spec fn with_thunk(self, location: usize, state: ThunkStateModel) -> EvaluationState {
        EvaluationState {
            store: self.store.update(
                location as int,
                ThunkModel { state, ..self.store[location as int] },
            ),
            ..self
        }
    }

    /// The state in which the variables called `name` have other values.
    pub open spec fn with_scoped(self, name: Seq<char>, values: ScopedModel) -> EvaluationState {
        EvaluationState { scoped_store: self.scoped_store.insert(name, values), ..self }
    }

    /// Checks the cancellation flag.
    pub open spec fn check(self, at: Seq<char>) -> (Result<(), ErrorModel>, EvaluationState) {
        (
            match self.cancellation_flag.next(at) {
                None => Ok(()),
                Some(place) => Err(ErrorModel::Cancelled(place)),
            },
            EvaluationState { cancellation_flag: self.cancellation_flag.rest(), ..self },
        )
    }

    /// Calls a function.
    pub open spec fn call(self, function: Seq<char>, arguments: Seq<ValueModel>) -> (
        Result<ValueModel, ErrorModel>,
        EvaluationState,
    ) {
        let (result, graph) = self.functions.next(
            Request { function, arguments, source: self.source, graph: self.graph },
        );
        (result, EvaluationState { graph, functions: self.functions.rest(), ..self })
    }
}

/// Forcing a thunk leaves less to be forced.
proof fn lemma_unforced_update(store: Seq<ThunkModel>, n: int, i: int, thunk: ThunkModel)
    requires
        0 <= i < store.len(),
        n <= store.len(),
        !(thunk.state is Unforced),
    ensures
        unforced_thunks(store.update(i, thunk), n) == unforced_thunks(store, n) - (if i < n
            && store[i].state is Unforced {
            1int
        } else {
            0
        }),
    decreases n,
{
    if n > 0 {
        lemma_unforced_update(store, n - 1, i, thunk);
    }
}

impl EvaluationState {
    /// What putting a thunk into a state other than `Unforced` does to what is pending.
    pub proof fn lemma_pending_thunk(self, location: usize, state: ThunkStateModel)
        requires
            location < self.store.len(),
            !(state is Unforced),
        ensures
            self.with_thunk(location, state).pending() == self.pending() - (
            if self.store[location as int].state is Unforced {
                1int
            } else {
                0
            }),
    {
        lemma_unforced_update(
            self.store,
            self.store.len() as int,
            location as int,
            ThunkModel { state, ..self.store[location as int] },
        );
    }

    /// What giving a name other than unforced values does to what is pending.
    pub proof fn lemma_pending_scoped(self, name: Seq<char>, values: ScopedModel)
        requires
            self.scoped_store.dom().finite(),
            self.scoped_store.contains_key(name),
            !(values is Unforced),
        ensures
            self.with_scoped(name, values).pending() == self.pending() - (
            if self.scoped_store[name] is Unforced {
                1int
            } else {
                0
            }),
            self.with_scoped(name, values).scoped_store.dom() == self.scoped_store.dom(),
    {
        let changed = self.with_scoped(name, values).scoped_store;
        let names = unforced_names(self.scoped_store);
        assert(names.finite());
        if self.scoped_store[name] is Unforced {
            assert(unforced_names(changed) =~= names.remove(name));
        } else {
            assert(unforced_names(changed) =~= names);
        }
        assert(changed.dom() =~= self.scoped_store.dom());
    }
}

/// The syntax node that an evaluation results in, if it does in one.
pub open spec fn as_syntax_node(result: Result<ValueModel, ErrorModel>) -> Result<
    SyntaxNodeModel,
    ErrorModel,
> {
    match result {
        Err(e) => Err(e),
        Ok(value) => value.into_syntax_node(),
    }
}

/// The graph node that an evaluation results in, if it does in one.
pub open spec fn as_graph_node(result: Result<ValueModel, ErrorModel>) -> Result<
    GraphNodeRef,
    ErrorModel,
> {
    match result {
        Err(e) => Err(e),
        Ok(value) => value.into_graph_node(),
    }
}

impl EvaluationState {
    /// Evaluates a lazy value.
    ///
    /// Evaluation never adds to what is pending, and the value of a scoped variable holds no
    /// scoped variables (see `lemma_evaluate_progress`): the tests for this below only show that
    /// evaluation ends.
    pub open spec fn evaluate(self, value: LazyModel) -> (
        Result<ValueModel, ErrorModel>,
        EvaluationState,
    )
        decreases
                self.pending(),
                if value.direct() {
                    0int
                } else {
                    1
                },
                value.size() + 2,
                0int,
    {
        let (checked, state) = self.check("evaluating value"@);
        match checked {
            Err(e) => (Err(e), state),
            Ok(_) => match value {
                LazyModel::Value(result) => (Ok(result), state),
                LazyModel::List(elements) => {
                    let (results, after) = state.evaluate_all(elements, 0, Seq::empty());
                    (
                        match results {
                            Err(e) => Err(e),
                            Ok(values) => Ok(ValueModel::List(values)),
                        },
                        after,
                    )
                },
                LazyModel::LazySet(elements) => {
                    let (results, after) = state.evaluate_all(elements, 0, Seq::empty());
                    (
                        match results {
                            Err(e) => Err(e),
                            Ok(values) => Ok(
                                ValueModel::ValueSet(
                                    ValueModel::set_of(values, values.len() as int),
                                ),
                            ),
                        },
                        after,
                    )
                },
                LazyModel::Variable(location) => state.evaluate_variable(location),
                LazyModel::ScopedVariable(scope, name) => {
                    let (node, after_scope) = state.evaluate(*scope);
                    match as_syntax_node(node) {
                        Err(e) => (Err(e), after_scope),
                        Ok(node) => if after_scope.pending() <= self.pending() {
                            let (resolved, after) = after_scope.evaluate_scoped(node, name);
                            match resolved {
                                Err(e) => (Err(e), after),
                                Ok(resolved) => if after.pending() <= self.pending()
                                    && resolved.direct() {
                                    after.evaluate(resolved)
                                } else {
                                    arbitrary()
                                },
                            }
                        } else {
                            arbitrary()
                        },
                    }
                },
                LazyModel::Call(function, arguments) => {
                    let (results, after) = state.evaluate_all(arguments, 0, Seq::empty());
                    match results {
                        Err(e) => (Err(e), after),
                        Ok(values) => after.call(function, values),
                    }
                },
            },
        }
    }

    /// Evaluates the `values` from position `i` on, one after the other, up to the first error.
    /// The results come after those in `done`.
    pub open spec fn evaluate_all(
        self,
        values: Seq<LazyModel>,
        i: int,
        done: Seq<ValueModel>,
    ) -> (Result<Seq<ValueModel>, ErrorModel>, EvaluationState)
        decreases
                self.pending(),
                if forall|k: int| 0 <= k < values.len() ==> (#[trigger] values[k]).direct() {
                    0int
                } else {
                    1
                },
                LazyModel::size_of(values, values.len() as int) + 2,
                values.len() - i,
    {
        if i < 0 || i >= values.len() {
            (Ok(done), self)
        } else {
            proof {
                LazyModel::lemma_size_element(values, values.len() as int, i);
            }
            let (result, after) = self.evaluate(values[i]);
            match result {
                Err(e) => (Err(e), after),
                Ok(result) => if after.pending() <= self.pending() {
                    after.evaluate_all(values, i + 1, done.push(result))
                } else {
                    arbitrary()
                },
            }
        }
    }

    /// Evaluates the variable at `location` of the store. An error notes the variable.
    pub open spec fn evaluate_variable(self, location: usize) -> (
        Result<ValueModel, ErrorModel>,
        EvaluationState,
    )
        decreases self.pending(), 0int, 1int, 0int,
    {
        let (result, after) = self.force(location);
        (
            match result {
                Ok(value) => Ok(value),
                Err(e) => Err(
                    e.within(
                        ContextModel::Other(
                            "via "@ + after.store[location as int].state.shown() + " at "@
                                + self.store[location as int].debug_info.shown(),
                        ),
                    ),
                ),
            },
            after,
        )
    }

    /// Forces the thunk at `location` of the store. What was forced is not evaluated again. A thunk
    /// that is being forced cannot be forced: its value would depend on itself. After an error the
    /// thunk stays as it is while it is being forced.
    pub open spec fn force(self, location: usize) -> (
        Result<ValueModel, ErrorModel>,
        EvaluationState,
    )
        decreases self.pending(), 0int, 0int, 0int,
    {
        if location >= self.store.len() {
            arbitrary()
        } else {
            match self.store[location as int].state {
                ThunkStateModel::Unforced(value) => {
                    let forcing = self.with_thunk(location, ThunkStateModel::Forcing);
                    proof {
                        self.lemma_pending_thunk(location, ThunkStateModel::Forcing);
                    }
                    let (result, after) = forcing.evaluate(value);
                    match result {
                        Err(e) => (Err(e), after),
                        Ok(value) => (
                            Ok(value),
                            after.with_thunk(location, ThunkStateModel::Forced(value)),
                        ),
                    }
                },
                ThunkStateModel::Forcing => (
                    Err(
                        ErrorModel::RecursivelyDefinedVariable(
                            self.store[location as int].debug_info.shown(),
                        ),
                    ),
                    self,
                ),
                ThunkStateModel::Forced(value) => (Ok(value), self),
            }
        }
    }

    /// The value of the variable `name` of the syntax node `scope`. If this is the first time that
    /// a variable called `name` is asked for, the scopes of all its definitions are evaluated.
    pub open spec fn evaluate_scoped(self, scope: SyntaxNodeModel, name: Seq<char>) -> (
        Result<LazyModel, ErrorModel>,
        EvaluationState,
    )
        decreases self.pending(), 0int, 0int, 0int,
    {
        let undefined = Err(ErrorModel::UndefinedScopedVariable(scope.shown() + "."@ + name));
        if !self.scoped_store.contains_key(name) {
            (undefined, self)
        } else {
            let forcing = self.with_scoped(name, ScopedModel::Forcing);
            match self.scoped_store[name] {
                ScopedModel::Unforced(definitions) => if forcing.pending() < self.pending() {
                    let (forced, after) = forcing.force_scopes(
                        name,
                        definitions,
                        0,
                        Map::empty(),
                        Map::empty(),
                    );
                    match forced {
                        Err(e) => (Err(e), after),
                        Ok(map) => if map.contains_key(scope) {
                            (Ok(map[scope]), after.with_scoped(name, ScopedModel::Forced(map)))
                        } else {
                            (undefined, after)
                        },
                    }
                } else {
                    arbitrary()
                },
                ScopedModel::Forcing => (
                    Err(
                        ErrorModel::RecursivelyDefinedScopedVariable(
                            "_."@ + name + " requested on "@ + scope.shown(),
                        ),
                    ),
                    self,
                ),
                ScopedModel::Forced(map) => if map.contains_key(scope) {
                    (Ok(map[scope]), self)
                } else {
                    (undefined, forcing)
                },
            }
        }
    }

    /// Evaluates the scopes of the `definitions` of `name` from position `i` on, and adds what they
    /// define to `map`. No two definitions may have the same scope; `infos` tells where the scopes
    /// in `map` come from.
    pub open spec fn force_scopes(
        self,
        name: Seq<char>,
        definitions: Seq<ScopedDefinition>,
        i: int,
        map: Map<SyntaxNodeModel, LazyModel>,
        infos: Map<SyntaxNodeModel, Location>,
    ) -> (Result<Map<SyntaxNodeModel, LazyModel>, ErrorModel>, EvaluationState)
        decreases self.pending(), 2int, 0int, definitions.len() - i,
    {
        if i < 0 || i >= definitions.len() {
            (Ok(map), self)
        } else {
            let definition = definitions[i];
            let (result, after) = self.evaluate(definition.scope);
            match as_syntax_node(result) {
                Err(e) => (
                    Err(
                        e.within(
                            ContextModel::Other(
                                "Evaluating scope of variable _."@ + name + " set at "@
                                    + definition.debug_info.shown(),
                            ),
                        ),
                    ),
                    after,
                ),
                Ok(node) => if map.contains_key(node) {
                    (
                        Err(
                            ErrorModel::DuplicateVariable(
                                node.shown() + "."@ + name + " set at "@ + infos[node].shown()
                                    + " and "@ + definition.debug_info.shown(),
                            ),
                        ),
                        after,
                    )
                } else if after.pending() <= self.pending() {
                    after.force_scopes(
                        name,
                        definitions,
                        i + 1,
                        map.insert(node, definition.value),
                        infos.insert(node, definition.debug_info),
                    )
                } else {
                    arbitrary()
                },
            }
        }
    }
}

} // verus!
