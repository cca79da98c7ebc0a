//! Laws of evaluation.

use vstd::prelude::*;

use crate::cancellation::Answers;
use crate::error::ContextModel;
use crate::error::ErrorModel;
use crate::functions::Outcomes;
use crate::functions::Request;
use crate::lazy::evaluation::EvaluationState;
use crate::lazy::store::ScopedDefinition;
use crate::lazy::store::ScopedModel;
use crate::lazy::store::ThunkStateModel;
use crate::lazy::values::LazyModel;
use crate::location::Location;
use crate::values::SyntaxNodeModel;
use crate::values::ValueModel;

verus! {

impl Answers {
    /// Whether `after` is what is left of these answers after some checks.
    pub open spec fn advance_to(self, after: Answers) -> bool {
        after.of == self.of && self.asked <= after.asked
    }
}

impl Outcomes {
    /// Whether `after` is what is left of these outcomes after some calls.
    pub open spec fn advance_to(self, after: Outcomes) -> bool {
        after.of == self.of && self.called <= after.called
    }

    /// Whether no call that is still to come takes a node or an edge out of the graph.
    pub open spec fn lasting(self) -> bool {
        forall|n: nat, request: Request|
            self.called <= n ==> request.graph.elements_in((#[trigger] (self.of)(n, request)).1)
    }

    /// Whether no call that is still to come removes or changes something in the graph.
    pub open spec fn additive(self) -> bool {
        forall|n: nat, request: Request|
            self.called <= n ==> request.graph.within((#[trigger] (self.of)(n, request)).1)
    }

    /// Whether no call that is still to come changes the graph.
    pub open spec fn quiet(self) -> bool {
        forall|n: nat, request: Request|
            self.called <= n ==> (#[trigger] (self.of)(n, request)).1 == request.graph
    }
}

impl ThunkStateModel {
    /// Whether evaluation can put a thunk from this state into the state `after`: a thunk that has
    /// been forced keeps its value, and one that is being forced stays so for whatever it asks for.
    pub open spec fn becomes(self, after: ThunkStateModel) -> bool {
        match self {
            ThunkStateModel::Unforced(value) => after is Unforced ==> after == self,
            ThunkStateModel::Forcing => after is Forcing,
            ThunkStateModel::Forced(value) => after == self,
        }
    }
}

impl ScopedModel {
    /// Whether evaluation can turn the values of a scoped variable from these into `after`.
    pub open spec fn becomes(self, after: ScopedModel) -> bool {
        match self {
            ScopedModel::Unforced(_) => after is Unforced ==> after == self,
            ScopedModel::Forcing => after is Forcing,
            ScopedModel::Forced(_) => after is Forcing || after == self,
        }
    }
}

impl EvaluationState {
    /// What evaluation of a value keeps: nothing is printed and no element of the graph is noted,
    /// the store keeps its thunks, and each thunk and each name only goes on from unforced over
    /// being forced to forced. If the functions leave the graph alone, so does the evaluation; if
    /// they only add to it, nothing is lost; and if they take no node or edge out of it, all nodes
    /// and edges stay.
    pub open spec fn evolves_to(self, after: EvaluationState) -> bool {
        &&& after.source == self.source
        &&& after.printed == self.printed
        &&& after.prev_element_debug_info == self.prev_element_debug_info
        &&& after.store.len() == self.store.len()
        &&& forall|i: int|
            0 <= i < self.store.len() ==> (#[trigger] self.store[i]).state.becomes(
                after.store[i].state,
            ) && after.store[i].debug_info == self.store[i].debug_info
        &&& after.scoped_store.dom() == self.scoped_store.dom()
        &&& forall|name: Seq<char>| #[trigger]
            self.scoped_store.contains_key(name) ==> self.scoped_store[name].becomes(
                after.scoped_store[name],
            )
        &&& self.cancellation_flag.advance_to(after.cancellation_flag)
        &&& self.functions.advance_to(after.functions)
        &&& self.functions.quiet() ==> after.graph == self.graph
        &&& self.functions.additive() ==> self.graph.within(after.graph)
        &&& self.functions.lasting() ==> self.graph.elements_in(after.graph)
    }

    /// Whether `after` is a valid state that evaluation can lead to, with all that it keeps.
    pub open spec fn progresses_to(self, after: EvaluationState) -> bool {
        self.leads_to(after) && self.evolves_to(after)
    }

    /// What two evaluations keep one after the other, they keep together.
    pub proof fn lemma_progress_transitive(self, middle: EvaluationState, after: EvaluationState)
        requires
            self.progresses_to(middle),
            middle.progresses_to(after),
        ensures
            self.progresses_to(after),
    {
        if self.functions.additive() {
            self.graph.lemma_within_transitive(middle.graph, after.graph);
        }
        if self.functions.lasting() {
            self.graph.lemma_elements_transitive(middle.graph, after.graph);
        }
        assert forall|i: int| 0 <= i < self.store.len() implies (
        #[trigger] self.store[i]).state.becomes(after.store[i].state) && after.store[i].debug_info
            == self.store[i].debug_info by {
            assert(middle.store[i].state.becomes(after.store[i].state));
        }
        assert forall|name: Seq<char>| #[trigger]
            self.scoped_store.contains_key(name) implies self.scoped_store[name].becomes(
            after.scoped_store[name],
        ) by {
            assert(middle.scoped_store.contains_key(name));
        }
    }

    /// A check of the cancellation flag changes nothing else.
    pub proof fn lemma_check_progress(self, at: Seq<char>)
        requires
            self.valid(),
        ensures
            self.progresses_to(self.check(at).1),
            self.check(at).1.pending() == self.pending(),
    {
    }

    /// Evaluation never adds to what is pending and keeps the state valid, and it keeps what
    /// `evolves_to` says. So it is defined for every valid state and every value in it.
    pub proof fn lemma_evaluate_progress(self, value: LazyModel)
        requires
            self.valid(),
            value.below(self.store.len()),
        ensures
            self.progresses_to(self.evaluate(value).1),
        decreases
                self.pending(),
                if value.direct() {
                    0int
                } else {
                    1
                },
                value.size() + 2,
                0int,
    {
        let (checked, state) = self.check("evaluating value"@);
        self.lemma_check_progress("evaluating value"@);
        if checked is Ok {
            match value {
                LazyModel::Value(_) => {},
                LazyModel::List(elements) => {
                    state.lemma_evaluate_all_progress(elements, 0, Seq::empty());
                    self.lemma_progress_transitive(
                        state,
                        state.evaluate_all(elements, 0, Seq::empty()).1,
                    );
                },
                LazyModel::LazySet(elements) => {
                    state.lemma_evaluate_all_progress(elements, 0, Seq::empty());
                    self.lemma_progress_transitive(
                        state,
                        state.evaluate_all(elements, 0, Seq::empty()).1,
                    );
                },
                LazyModel::Variable(location) => {
                    state.lemma_force_progress(location);
                    self.lemma_progress_transitive(state, state.force(location).1);
                    assert(state.evaluate_variable(location).1 == state.force(location).1);
                },
                LazyModel::ScopedVariable(scope, name) => {
                    state.lemma_evaluate_progress(*scope);
                    let (node, after_scope) = state.evaluate(*scope);
                    self.lemma_progress_transitive(state, after_scope);
                    if let Ok(node) = crate::lazy::evaluation::as_syntax_node(node) {
                        after_scope.lemma_scoped_progress(node, name);
                        let (resolved, after) = after_scope.evaluate_scoped(node, name);
                        self.lemma_progress_transitive(after_scope, after);
                        if let Ok(resolved) = resolved {
                            after.lemma_evaluate_progress(resolved);
                            self.lemma_progress_transitive(after, after.evaluate(resolved).1);
                        }
                    }
                },
                LazyModel::Call(function, arguments) => {
                    state.lemma_evaluate_all_progress(arguments, 0, Seq::empty());
                    let (results, after) = state.evaluate_all(arguments, 0, Seq::empty());
                    self.lemma_progress_transitive(state, after);
                    if let Ok(values) = results {
                        assert(after.progresses_to(after.call(function, values).1));
                        self.lemma_progress_transitive(after, after.call(function, values).1);
                    }
                },
            }
        }
    }

    /// What evaluation keeps, evaluation of several values keeps too.
    pub proof fn lemma_evaluate_all_progress(
        self,
        values: Seq<LazyModel>,
        i: int,
        done: Seq<ValueModel>,
    )
        requires
            self.valid(),
            forall|k: int| 0 <= k < values.len() ==> (#[trigger] values[k]).below(self.store.len()),
        ensures
            self.progresses_to(self.evaluate_all(values, i, done).1),
        decreases
                self.pending(),
                if forall|k: int| 0 <= k < values.len() ==> (#[trigger] values[k]).direct() {
                    0int
                } else {
                    1
                },
                LazyModel::size_of(values, values.len() as int) + 2,
                values.len() - i,
    {
        if 0 <= i < values.len() {
            LazyModel::lemma_size_element(values, values.len() as int, i);
            self.lemma_evaluate_progress(values[i]);
            let (result, after) = self.evaluate(values[i]);
            if let Ok(result) = result {
                after.lemma_evaluate_all_progress(values, i + 1, done.push(result));
                self.lemma_progress_transitive(
                    after,
                    after.evaluate_all(values, i + 1, done.push(result)).1,
                );
            }
        }
    }

    /// What evaluation keeps, forcing a thunk keeps too.
    pub proof fn lemma_force_progress(self, location: usize)
        requires
            self.valid(),
            location < self.store.len(),
        ensures
            self.progresses_to(self.force(location).1),
            self.force(location).0 is Ok ==> self.force(location).1.store[location as int].state
                == ThunkStateModel::Forced(self.force(location).0->Ok_0),
            self.force(location).0 is Err
                ==> self.force(location).1.store[location as int].state is Forcing,
        decreases self.pending(), 0int, 0int, 0int,
    {
        if let ThunkStateModel::Unforced(value) = self.store[location as int].state {
            let forcing = self.with_thunk(location, ThunkStateModel::Forcing);
            self.lemma_pending_thunk(location, ThunkStateModel::Forcing);
            forcing.lemma_evaluate_progress(value);
            let (result, after) = forcing.evaluate(value);
            assert(forcing.store[location as int].state.becomes(
                after.store[location as int].state,
            ));
            assert forall|i: int| 0 <= i < self.store.len() implies (
            #[trigger] self.store[i]).state.becomes(after.store[i].state)
                && after.store[i].debug_info == self.store[i].debug_info by {
                assert(forcing.store[i].state.becomes(after.store[i].state));
            }
            assert(self.progresses_to(after));
            if let Ok(value) = result {
                after.lemma_pending_thunk(location, ThunkStateModel::Forced(value));
                let forced = after.with_thunk(location, ThunkStateModel::Forced(value));
                assert forall|i: int| 0 <= i < self.store.len() implies (
                #[trigger] self.store[i]).state.becomes(forced.store[i].state)
                    && forced.store[i].debug_info == self.store[i].debug_info by {
                    assert(forcing.store[i].state.becomes(after.store[i].state));
                }
                assert(self.progresses_to(forced));
            }
        }
    }

    /// What evaluation keeps, asking for a scoped variable keeps too. Its value stays in the store
    /// and is free of scoped variables.
    pub proof fn lemma_scoped_progress(self, scope: SyntaxNodeModel, name: Seq<char>)
        requires
            self.valid(),
        ensures
            self.progresses_to(self.evaluate_scoped(scope, name).1),
            self.evaluate_scoped(scope, name).0 matches Ok(value) ==> value.direct() && value.below(
                self.store.len(),
            ),
            self.scoped_store.contains_key(name) ==> !(self.evaluate_scoped(
                scope,
                name,
            ).1.scoped_store[name] is Unforced),
        decreases self.pending(), 0int, 0int, 0int,
    {
        if self.scoped_store.contains_key(name) {
            let forcing = self.with_scoped(name, ScopedModel::Forcing);
            self.lemma_pending_scoped(name, ScopedModel::Forcing);
            match self.scoped_store[name] {
                ScopedModel::Unforced(definitions) => {
                    forcing.lemma_force_scopes_progress(
                        name,
                        definitions,
                        0,
                        Map::empty(),
                        Map::empty(),
                    );
                    let (forced, after) = forcing.force_scopes(
                        name,
                        definitions,
                        0,
                        Map::empty(),
                        Map::empty(),
                    );
                    assert(forcing.scoped_store.contains_key(name));
                    assert(after.scoped_store[name] is Forcing);
                    assert forall|other: Seq<char>| #[trigger]
                        self.scoped_store.contains_key(
                        other,
                    ) implies self.scoped_store[other].becomes(after.scoped_store[other]) by {
                        assert(forcing.scoped_store.contains_key(other));
                    }
                    assert forall|i: int| 0 <= i < self.store.len() implies (
                    #[trigger] self.store[i]).state.becomes(after.store[i].state)
                        && after.store[i].debug_info == self.store[i].debug_info by {
                        assert(forcing.store[i].state.becomes(after.store[i].state));
                    }
                    assert(self.progresses_to(after));
                    if let Ok(map) = forced {
                        after.lemma_pending_scoped(name, ScopedModel::Forced(map));
                        assert(self.progresses_to(
                            after.with_scoped(name, ScopedModel::Forced(map)),
                        ));
                    }
                },
                ScopedModel::Forcing => {},
                ScopedModel::Forced(map) => {
                    assert(self.scoped_store[name].valid(self.store.len()));
                    assert(self.progresses_to(forcing));
                },
            }
        }
    }

    /// What evaluation keeps, forcing the scopes of definitions keeps too.
    pub proof fn lemma_force_scopes_progress(
        self,
        name: Seq<char>,
        definitions: Seq<ScopedDefinition>,
        i: int,
        map: Map<SyntaxNodeModel, LazyModel>,
        infos: Map<SyntaxNodeModel, Location>,
    )
        requires
            self.valid(),
            crate::lazy::evaluation::definitions_valid(definitions, self.store.len()),
            crate::lazy::evaluation::scopes_valid(map, self.store.len()),
        ensures
            self.progresses_to(self.force_scopes(name, definitions, i, map, infos).1),
            self.force_scopes(name, definitions, i, map, infos).0 matches Ok(forced)
                ==> crate::lazy::evaluation::scopes_valid(forced, self.store.len()),
        decreases self.pending(), 2int, 0int, definitions.len() - i,
    {
        if 0 <= i < definitions.len() {
            let definition = definitions[i];
            self.lemma_evaluate_progress(definition.scope);
            let (result, after) = self.evaluate(definition.scope);
            if let Ok(node) = crate::lazy::evaluation::as_syntax_node(result) {
                if !map.contains_key(node) {
                    let more = map.insert(node, definition.value);
                    let noted = infos.insert(node, definition.debug_info);
                    after.lemma_force_scopes_progress(name, definitions, i + 1, more, noted);
                    self.lemma_progress_transitive(
                        after,
                        after.force_scopes(name, definitions, i + 1, more, noted).1,
                    );
                }
            }
        }
    }
}

impl EvaluationState {
    /// Whether `later` can be a later state as far as the thunk at `location` is concerned: that
    /// holds after any evaluation (`evolves_to`), execution (`grows_to`) and evaluation of the lazy
    /// graph (`builds`).
    pub open spec fn keeps_thunk(self, location: usize, later: EvaluationState) -> bool {
        &&& location < later.store.len()
        &&& self.store[location as int].state.becomes(later.store[location as int].state)
        &&& later.store[location as int].debug_info == self.store[location as int].debug_info
    }

    /// What goes wrong when the variable at `location` is asked for while it is being evaluated.
    pub open spec fn recursion_error(self, location: usize) -> ErrorModel {
        let place = self.store[location as int].debug_info.shown();
        ErrorModel::RecursivelyDefinedVariable(place).within(
            ContextModel::Other("via "@ + "~{?}"@ + " at "@ + place),
        )
    }

    /// A variable that is asked for while it is being evaluated is defined by itself. That is an
    /// error, and changes nothing.
    pub proof fn lemma_recursive_variable(self, location: usize)
        requires
            location < self.store.len(),
            self.store[location as int].state is Forcing,
        ensures
            self.evaluate_variable(location) == (
                Err::<ValueModel, ErrorModel>(self.recursion_error(location)),
                self,
            ),
    {
    }

    /// A variable is evaluated once: after that it has the same value in every later state, and
    /// asking for it again changes nothing.
    pub proof fn lemma_variable_keeps_value(self, location: usize, later: EvaluationState)
        requires
            self.valid(),
            location < self.store.len(),
            self.evaluate_variable(location).0 is Ok,
            self.evaluate_variable(location).1.keeps_thunk(location, later),
        ensures
            later.evaluate_variable(location) == (self.evaluate_variable(location).0, later),
    {
        self.lemma_force_progress(location);
    }

    /// A variable whose evaluation failed, for whatever reason, counts as being evaluated from then
    /// on: in every later state it is an error to ask for it.
    pub proof fn lemma_failed_variable(self, location: usize, later: EvaluationState)
        requires
            self.valid(),
            location < self.store.len(),
            self.evaluate_variable(location).0 is Err,
            self.evaluate_variable(location).1.keeps_thunk(location, later),
        ensures
            later.evaluate_variable(location) == (
                Err::<ValueModel, ErrorModel>(self.recursion_error(location)),
                later,
            ),
    {
        self.lemma_force_progress(location);
        let after = self.evaluate_variable(location).1;
        assert(self.store[location as int].state.becomes(after.store[location as int].state));
    }

    /// The note on an error in the evaluation of a variable always shows it as being evaluated.
    pub proof fn lemma_variable_note(self, location: usize)
        requires
            self.valid(),
            location < self.store.len(),
            self.force(location).0 is Err,
        ensures
            self.evaluate_variable(location).0 == Err::<ValueModel, ErrorModel>(
                self.force(location).0->Err_0.within(
                    ContextModel::Other(
                        "via "@ + "~{?}"@ + " at "@
                            + self.store[location as int].debug_info.shown(),
                    ),
                ),
            ),
    {
        self.lemma_force_progress(location);
    }

    /// The value of a scoped variable stays the same, and asking for it again changes nothing.
    pub proof fn lemma_scoped_keeps_value(self, scope: SyntaxNodeModel, name: Seq<char>)
        requires
            self.valid(),
            self.evaluate_scoped(scope, name).0 is Ok,
        ensures
            self.evaluate_scoped(scope, name).1.evaluate_scoped(scope, name)
                == self.evaluate_scoped(scope, name),
    {
        self.lemma_pending_scoped(name, ScopedModel::Forcing);
    }

    /// The value of a scoped variable stays the same as long as nothing is asked for that is not
    /// defined: in every later state in which the name is still forced, be it after evaluation or
    /// after execution.
    pub proof fn lemma_scoped_keeps_value_later(
        self,
        scope: SyntaxNodeModel,
        name: Seq<char>,
        later: EvaluationState,
    )
        requires
            self.valid(),
            self.evaluate_scoped(scope, name).0 is Ok,
            later.scoped_store.contains_key(name),
            self.evaluate_scoped(scope, name).1.scoped_store[name].grows_to(
                later.scoped_store[name],
            ),
            later.scoped_store[name] is Forced,
        ensures
            later.evaluate_scoped(scope, name) == (self.evaluate_scoped(scope, name).0, later),
    {
        self.lemma_pending_scoped(name, ScopedModel::Forcing);
    }

    /// Once a variable of some name has been asked for, no variable of this name can be defined any
    /// more, on any syntax node.
    pub proof fn lemma_definitions_closed(
        self,
        scope: SyntaxNodeModel,
        name: Seq<char>,
        later: EvaluationState,
        definition: ScopedDefinition,
    )
        requires
            self.valid(),
            self.scoped_store.contains_key(name),
            later.scoped_store.contains_key(name),
            self.evaluate_scoped(scope, name).1.scoped_store[name].grows_to(
                later.scoped_store[name],
            ),
        ensures
            crate::lazy::store::with_definition(later.scoped_store, name, definition).0 is Err,
            crate::lazy::store::with_definition(later.scoped_store, name, definition).1
                == later.scoped_store,
    {
        self.lemma_scoped_progress(scope, name);
    }

    /// What is forced for a name comes from its definitions.
    proof fn lemma_forced_from_definitions(
        self,
        name: Seq<char>,
        definitions: Seq<ScopedDefinition>,
        i: int,
        map: Map<SyntaxNodeModel, LazyModel>,
        infos: Map<SyntaxNodeModel, Location>,
        node: SyntaxNodeModel,
    )
        requires
            self.valid(),
            crate::lazy::evaluation::definitions_valid(definitions, self.store.len()),
            0 <= i,
            self.force_scopes(name, definitions, i, map, infos).0 matches Ok(forced)
                && forced.contains_key(node),
        ensures
            ({
                let forced = self.force_scopes(name, definitions, i, map, infos).0->Ok_0;
                ||| map.contains_key(node) && forced[node] == map[node]
                ||| exists|k: int|
                    0 <= k < definitions.len() && forced[node] == (
                    #[trigger] definitions[k]).value
            }),
        decreases definitions.len() - i,
    {
        if i < definitions.len() {
            let definition = definitions[i];
            self.lemma_evaluate_progress(definition.scope);
            let (result, after) = self.evaluate(definition.scope);
            let found = crate::lazy::evaluation::as_syntax_node(result)->Ok_0;
            after.lemma_forced_from_definitions(
                name,
                definitions,
                i + 1,
                map.insert(found, definition.value),
                infos.insert(found, definition.debug_info),
                node,
            );
        }
    }

    /// The value of a scoped variable is that of one of the definitions of its name.
    pub proof fn lemma_scoped_value_is_defined(
        self,
        scope: SyntaxNodeModel,
        name: Seq<char>,
        definitions: Seq<ScopedDefinition>,
    )
        requires
            self.valid(),
            self.scoped_store.contains_key(name),
            self.scoped_store[name] == ScopedModel::Unforced(definitions),
            self.evaluate_scoped(scope, name).0 is Ok,
        ensures
            exists|k: int|
                0 <= k < definitions.len() && self.evaluate_scoped(scope, name).0 == Ok::<
                    LazyModel,
                    ErrorModel,
                >((#[trigger] definitions[k]).value),
    {
        let forcing = self.with_scoped(name, ScopedModel::Forcing);
        self.lemma_pending_scoped(name, ScopedModel::Forcing);
        forcing.lemma_forced_from_definitions(
            name,
            definitions,
            0,
            Map::empty(),
            Map::empty(),
            scope,
        );
    }

    /// The state after the scopes of the first `k` definitions have been evaluated.
    pub open spec fn after_scopes(
        self,
        definitions: Seq<ScopedDefinition>,
        k: int,
    ) -> EvaluationState
        decreases k,
    {
        if k <= 0 {
            self
        } else {
            self.after_scopes(definitions, k - 1).evaluate(definitions[k - 1].scope).1
        }
    }

    /// The syntax node that the scope of definition `k` evaluates to, when the scopes are evaluated
    /// one after the other.
    pub open spec fn scope_node(self, definitions: Seq<ScopedDefinition>, k: int) -> Result<
        SyntaxNodeModel,
        ErrorModel,
    > {
        crate::lazy::evaluation::as_syntax_node(
            self.after_scopes(definitions, k).evaluate(definitions[k].scope).0,
        )
    }

    /// Whether the scopes of the first `n` definitions evaluate to syntax nodes that differ from
    /// each other.
    pub open spec fn scopes_differ(self, definitions: Seq<ScopedDefinition>, n: int) -> bool {
        &&& forall|k: int| 0 <= k < n ==> (#[trigger] self.scope_node(definitions, k)) is Ok
        &&& forall|j: int, k: int|
            0 <= j < k < n ==> (#[trigger] self.scope_node(definitions, j)) != (
            #[trigger] self.scope_node(definitions, k))
    }

    /// What the first `n` definitions define.
    spec fn defined(self, definitions: Seq<ScopedDefinition>, n: int) -> Map<
        SyntaxNodeModel,
        LazyModel,
    >
        decreases n,
    {
        if n <= 0 {
            Map::empty()
        } else {
            self.defined(definitions, n - 1).insert(
                self.scope_node(definitions, n - 1)->Ok_0,
                definitions[n - 1].value,
            )
        }
    }

    /// Where the first `n` definitions are.
    spec fn defined_at(self, definitions: Seq<ScopedDefinition>, n: int) -> Map<
        SyntaxNodeModel,
        Location,
    >
        decreases n,
    {
        if n <= 0 {
            Map::empty()
        } else {
            self.defined_at(definitions, n - 1).insert(
                self.scope_node(definitions, n - 1)->Ok_0,
                definitions[n - 1].debug_info,
            )
        }
    }

    /// What is defined is just what the definitions say.
    proof fn lemma_defined(self, definitions: Seq<ScopedDefinition>, n: int)
        requires
            self.scopes_differ(definitions, n),
        ensures
            forall|k: int|
                0 <= k < n ==> {
                    let node = (#[trigger] self.scope_node(definitions, k))->Ok_0;
                    &&& self.defined(definitions, n).contains_key(node)
                    &&& self.defined(definitions, n)[node] == definitions[k].value
                    &&& self.defined_at(definitions, n)[node] == definitions[k].debug_info
                },
            forall|node: SyntaxNodeModel| #[trigger]
                self.defined(definitions, n).contains_key(node) ==> exists|k: int|
                    0 <= k < n && #[trigger] self.scope_node(definitions, k) == Ok::<
                        SyntaxNodeModel,
                        ErrorModel,
                    >(node),
        decreases n,
    {
        if n > 0 {
            self.lemma_defined(definitions, n - 1);
            let last = self.scope_node(definitions, n - 1);
            assert forall|k: int| 0 <= k < n implies {
                let node = (#[trigger] self.scope_node(definitions, k))->Ok_0;
                &&& self.defined(definitions, n).contains_key(node)
                &&& self.defined(definitions, n)[node] == definitions[k].value
                &&& self.defined_at(definitions, n)[node] == definitions[k].debug_info
            } by {
                if k < n - 1 {
                    assert(self.scope_node(definitions, k) != last);
                }
            }
            assert forall|node: SyntaxNodeModel| #[trigger]
                self.defined(definitions, n).contains_key(node) implies exists|k: int|
                0 <= k < n && #[trigger] self.scope_node(definitions, k) == Ok::<
                    SyntaxNodeModel,
                    ErrorModel,
                >(node) by {
                if node == last->Ok_0 {
                    assert(self.scope_node(definitions, n - 1) == Ok::<
                        SyntaxNodeModel,
                        ErrorModel,
                    >(node));
                } else {
                    assert(self.defined(definitions, n - 1).contains_key(node));
                }
            }
        }
    }

    /// Evaluating scopes one after the other leads to valid states.
    proof fn lemma_after_scopes(self, definitions: Seq<ScopedDefinition>, n: int)
        requires
            self.valid(),
            crate::lazy::evaluation::definitions_valid(definitions, self.store.len()),
            n <= definitions.len(),
        ensures
            self.progresses_to(self.after_scopes(definitions, n)),
        decreases n,
    {
        if n > 0 {
            self.lemma_after_scopes(definitions, n - 1);
            let before = self.after_scopes(definitions, n - 1);
            before.lemma_evaluate_progress(definitions[n - 1].scope);
            self.lemma_progress_transitive(before, self.after_scopes(definitions, n));
        }
    }

    /// As long as the scopes evaluate to different nodes, forcing goes on.
    proof fn lemma_forcing(self, name: Seq<char>, definitions: Seq<ScopedDefinition>, n: int)
        requires
            self.valid(),
            crate::lazy::evaluation::definitions_valid(definitions, self.store.len()),
            0 <= n <= definitions.len(),
            self.scopes_differ(definitions, n),
        ensures
            self.force_scopes(name, definitions, 0, Map::empty(), Map::empty())
                == self.after_scopes(definitions, n).force_scopes(
                name,
                definitions,
                n,
                self.defined(definitions, n),
                self.defined_at(definitions, n),
            ),
        decreases n,
    {
        if n > 0 {
            self.lemma_forcing(name, definitions, n - 1);
            self.lemma_defined(definitions, n - 1);
            self.lemma_after_scopes(definitions, n - 1);
            let before = self.after_scopes(definitions, n - 1);
            before.lemma_evaluate_progress(definitions[n - 1].scope);
            let node = self.scope_node(definitions, n - 1)->Ok_0;
            if self.defined(definitions, n - 1).contains_key(node) {
                let k = choose|k: int|
                    0 <= k < n - 1 && #[trigger] self.scope_node(definitions, k) == Ok::<
                        SyntaxNodeModel,
                        ErrorModel,
                    >(node);
                assert(self.scope_node(definitions, k) != self.scope_node(definitions, n - 1));
            }
        }
    }

    /// What is defined can be read: if the scopes of all definitions of a name evaluate to syntax
    /// nodes that differ from each other, the variable of each of these nodes has the value that
    /// was defined for it, and other nodes have no such variable.
    pub proof fn lemma_scoped_read_after_write(
        self,
        name: Seq<char>,
        definitions: Seq<ScopedDefinition>,
        scope: SyntaxNodeModel,
    )
        requires
            self.valid(),
            self.scoped_store.contains_key(name),
            self.scoped_store[name] == ScopedModel::Unforced(definitions),
            self.with_scoped(name, ScopedModel::Forcing).scopes_differ(
                definitions,
                definitions.len() as int,
            ),
        ensures
            ({
                let forcing = self.with_scoped(name, ScopedModel::Forcing);
                let (result, _) = self.evaluate_scoped(scope, name);
                &&& forall|k: int|
                    0 <= k < definitions.len() && #[trigger] forcing.scope_node(definitions, k)
                        == Ok::<SyntaxNodeModel, ErrorModel>(scope) ==> result == Ok::<
                        LazyModel,
                        ErrorModel,
                    >(definitions[k].value)
                &&& (forall|k: int|
                    0 <= k < definitions.len() ==> #[trigger] forcing.scope_node(definitions, k)
                        != Ok::<SyntaxNodeModel, ErrorModel>(scope)) ==> result == Err::<
                    LazyModel,
                    ErrorModel,
                >(ErrorModel::UndefinedScopedVariable(scope.shown() + "."@ + name))
            }),
    {
        let forcing = self.with_scoped(name, ScopedModel::Forcing);
        let n = definitions.len() as int;
        self.lemma_pending_scoped(name, ScopedModel::Forcing);
        assert(self.scoped_store[name].valid(self.store.len()));
        forcing.lemma_forcing(name, definitions, n);
        forcing.lemma_defined(definitions, n);
    }

    /// A variable that is defined twice for a syntax node is an error, which tells both places. The
    /// scopes of later definitions are not evaluated.
    pub proof fn lemma_scoped_twice(
        self,
        name: Seq<char>,
        definitions: Seq<ScopedDefinition>,
        scope: SyntaxNodeModel,
        first: int,
        second: int,
    )
        requires
            self.valid(),
            self.scoped_store.contains_key(name),
            self.scoped_store[name] == ScopedModel::Unforced(definitions),
            0 <= first < second < definitions.len(),
            self.with_scoped(name, ScopedModel::Forcing).scopes_differ(definitions, second),
            self.with_scoped(name, ScopedModel::Forcing).scope_node(definitions, second) is Ok,
            self.with_scoped(name, ScopedModel::Forcing).scope_node(definitions, first)
                == self.with_scoped(name, ScopedModel::Forcing).scope_node(definitions, second),
        ensures
            self.evaluate_scoped(scope, name).0 == Err::<LazyModel, ErrorModel>(
                ErrorModel::DuplicateVariable(
                    self.with_scoped(name, ScopedModel::Forcing).scope_node(
                        definitions,
                        second,
                    )->Ok_0.shown() + "."@ + name + " set at "@
                        + definitions[first].debug_info.shown() + " and "@
                        + definitions[second].debug_info.shown(),
                ),
            ),
            self.evaluate_scoped(scope, name).1 == self.with_scoped(
                name,
                ScopedModel::Forcing,
            ).after_scopes(definitions, second + 1),
    {
        let forcing = self.with_scoped(name, ScopedModel::Forcing);
        self.lemma_pending_scoped(name, ScopedModel::Forcing);
        assert(self.scoped_store[name].valid(self.store.len()));
        forcing.lemma_forcing(name, definitions, second);
        forcing.lemma_defined(definitions, second);
        let node = forcing.scope_node(definitions, first)->Ok_0;
        assert(forcing.defined(definitions, second).contains_key(node));
    }

    /// If a scope of a definition cannot be evaluated to a syntax node, that is the error, whatever
    /// node is asked for, with a note that tells where the definition is. The scopes of later
    /// definitions are not evaluated.
    pub proof fn lemma_scoped_without_node(
        self,
        name: Seq<char>,
        definitions: Seq<ScopedDefinition>,
        scope: SyntaxNodeModel,
        k: int,
    )
        requires
            self.valid(),
            self.scoped_store.contains_key(name),
            self.scoped_store[name] == ScopedModel::Unforced(definitions),
            0 <= k < definitions.len(),
            self.with_scoped(name, ScopedModel::Forcing).scopes_differ(definitions, k),
            self.with_scoped(name, ScopedModel::Forcing).scope_node(definitions, k) is Err,
        ensures
            self.evaluate_scoped(scope, name).0 == Err::<LazyModel, ErrorModel>(
                self.with_scoped(name, ScopedModel::Forcing).scope_node(
                    definitions,
                    k,
                )->Err_0.within(
                    ContextModel::Other(
                        "Evaluating scope of variable _."@ + name + " set at "@
                            + definitions[k].debug_info.shown(),
                    ),
                ),
            ),
            self.evaluate_scoped(scope, name).1 == self.with_scoped(
                name,
                ScopedModel::Forcing,
            ).after_scopes(definitions, k + 1),
    {
        let forcing = self.with_scoped(name, ScopedModel::Forcing);
        self.lemma_pending_scoped(name, ScopedModel::Forcing);
        assert(self.scoped_store[name].valid(self.store.len()));
        forcing.lemma_forcing(name, definitions, k);
    }

    /// If the flag says to stop when a value is to be evaluated, that is the result, and nothing is
    /// done.
    pub proof fn lemma_cancelled_evaluation(self, value: LazyModel, place: Seq<char>)
        requires
            self.cancellation_flag.next("evaluating value"@) == Some(place),
        ensures
            self.evaluate(value) == (
                Err::<ValueModel, ErrorModel>(ErrorModel::Cancelled(place)),
                EvaluationState { cancellation_flag: self.cancellation_flag.rest(), ..self },
            ),
    {
    }
}

} // verus!
