//! Laws of what variables stand for.

use vstd::prelude::*;

use crate::error::ErrorModel;
use crate::lazy::evaluation::EvaluationState;
use crate::lazy::store::ScopedDefinition;
use crate::lazy::store::ScopedModel;
use crate::lazy::store::ThunkModel;
use crate::lazy::store::ThunkStateModel;
use crate::lazy::values::LazyModel;
use crate::location::Location;
use crate::values::SyntaxNodeModel;
use crate::values::ValueModel;

verus! {

impl EvaluationState {
    /// Whether the thunk at `location` has not been asked for by what led from this state to
    /// `after`, without an error if `ok`. One that is being forced cannot be asked for without an
    /// error.
    spec fn leaves_alone(self, location: usize, ok: bool, after: EvaluationState) -> bool {
        match self.store[location as int].state {
            ThunkStateModel::Unforced(_) => after.store[location as int].state is Unforced,
            ThunkStateModel::Forcing => ok,
            ThunkStateModel::Forced(_) => false,
        }
    }

    /// What is left alone as a whole is left alone by its parts.
    proof fn lemma_leaves_parts(
        self,
        location: usize,
        middle: EvaluationState,
        ok: bool,
        after: EvaluationState,
    )
        requires
            location < self.store.len(),
            self.progresses_to(middle),
            middle.progresses_to(after),
            self.leaves_alone(location, ok, after),
        ensures
            self.leaves_alone(location, true, middle),
            middle.leaves_alone(location, ok, after),
    {
        assert(self.store[location as int].state.becomes(middle.store[location as int].state));
        assert(middle.store[location as int].state.becomes(after.store[location as int].state));
    }

    /// Later states are valid too with the thunk in the other state.
    proof fn lemma_thunk_valid(
        self,
        location: usize,
        state: ThunkStateModel,
        after: EvaluationState,
    )
        requires
            location < self.store.len(),
            self.with_thunk(location, state).valid(),
            after.valid(),
            after.store.len() == self.store.len(),
        ensures
            after.with_thunk(location, state).valid(),
    {
        let changed = self.with_thunk(location, state);
        let later = after.with_thunk(location, state);
        assert(changed.store[location as int].state == state);
        assert forall|i: int| 0 <= i < later.store.len() implies (
        #[trigger] later.store[i].state matches ThunkStateModel::Unforced(value) ==> value.below(
            later.store.len(),
        )) by {
            if i != location {
                assert(later.store[i] == after.store[i]);
            }
        }
    }

    /// The states of two thunks can be changed in either order.
    proof fn lemma_with_thunk_swap(
        self,
        location: usize,
        state: ThunkStateModel,
        other: usize,
        other_state: ThunkStateModel,
    )
        requires
            location < self.store.len(),
            other < self.store.len(),
            location != other,
        ensures
            self.with_thunk(location, state).with_thunk(other, other_state) == self.with_thunk(
                other,
                other_state,
            ).with_thunk(location, state),
    {
        assert(self.with_thunk(location, state).with_thunk(other, other_state).store
            =~= self.with_thunk(other, other_state).with_thunk(location, state).store);
    }

    /// What a value evaluates to does not depend on a thunk that is not asked for.
    proof fn lemma_evaluate_without(
        self,
        value: LazyModel,
        location: usize,
        state: ThunkStateModel,
    )
        requires
            self.valid(),
            location < self.store.len(),
            self.with_thunk(location, state).valid(),
            value.below(self.store.len()),
            self.leaves_alone(location, self.evaluate(value).0 is Ok, self.evaluate(value).1),
        ensures
            self.with_thunk(location, state).evaluate(value) == (
                self.evaluate(value).0,
                self.evaluate(value).1.with_thunk(location, state),
            ),
        decreases
                self.pending(),
                if value.direct() {
                    0int
                } else {
                    1
                },
                value.size() + 2,
                0int,
    {
        let changed = self.with_thunk(location, state);
        let at = "evaluating value"@;
        let (checked, start) = self.check(at);
        let changed_start = changed.check(at).1;
        let ok = self.evaluate(value).0 is Ok;
        let end = self.evaluate(value).1;
        self.lemma_check_progress(at);
        changed.lemma_check_progress(at);
        assert(changed_start == start.with_thunk(location, state));
        if checked is Ok {
            match value {
                LazyModel::Value(_) => {},
                LazyModel::List(s) => {
                    start.lemma_evaluate_all_without(s, 0, Seq::empty(), location, state);
                },
                LazyModel::LazySet(s) => {
                    start.lemma_evaluate_all_without(s, 0, Seq::empty(), location, state);
                },
                LazyModel::Variable(other) => {
                    start.lemma_force_progress(other);
                    changed_start.lemma_force_progress(other);
                    assert(start.evaluate_variable(other).1 == start.force(other).1);
                    start.lemma_force_without(other, location, state);
                    assert(changed_start.store[other as int] == start.store[other as int]);
                    assert(changed_start.force(other).1.store[other as int] == start.force(
                        other,
                    ).1.store[other as int]);
                    assert(changed_start.evaluate_variable(other).0 == start.evaluate_variable(
                        other,
                    ).0);
                    assert(changed_start.evaluate_variable(other).1 == changed_start.force(
                        other,
                    ).1);
                },
                LazyModel::ScopedVariable(scope, name) => {
                    start.lemma_evaluate_progress(*scope);
                    changed_start.lemma_evaluate_progress(*scope);
                    let (node, after_scope) = start.evaluate(*scope);
                    start.lemma_thunk_valid(location, state, after_scope);
                    if let Ok(node) = crate::lazy::evaluation::as_syntax_node(node) {
                        let (resolved, after) = after_scope.evaluate_scoped(node, name);
                        let changed_scope = after_scope.with_thunk(location, state);
                        after_scope.lemma_scoped_progress(node, name);
                        changed_scope.lemma_scoped_progress(node, name);
                        start.lemma_thunk_valid(location, state, after);
                        if let Ok(resolved) = resolved {
                            after.lemma_evaluate_progress(resolved);
                            after_scope.lemma_progress_transitive(after, end);
                            start.lemma_leaves_parts(location, after_scope, ok, end);
                            after_scope.lemma_leaves_parts(location, after, ok, end);
                            start.lemma_evaluate_without(*scope, location, state);
                            after_scope.lemma_scoped_without(node, name, location, state);
                            after.lemma_evaluate_without(resolved, location, state);
                        } else {
                            start.lemma_leaves_parts(location, after_scope, ok, end);
                            start.lemma_evaluate_without(*scope, location, state);
                            after_scope.lemma_scoped_without(node, name, location, state);
                        }
                    } else {
                        start.lemma_evaluate_without(*scope, location, state);
                    }
                },
                LazyModel::Call(function, s) => {
                    start.lemma_evaluate_all_progress(s, 0, Seq::empty());
                    start.lemma_evaluate_all_without(s, 0, Seq::empty(), location, state);
                },
            }
        }
    }

    proof fn lemma_evaluate_all_without(
        self,
        s: Seq<LazyModel>,
        i: int,
        done: Seq<ValueModel>,
        location: usize,
        state: ThunkStateModel,
    )
        requires
            self.valid(),
            location < self.store.len(),
            self.with_thunk(location, state).valid(),
            forall|k: int| 0 <= k < s.len() ==> (#[trigger] s[k]).below(self.store.len()),
            self.leaves_alone(
                location,
                self.evaluate_all(s, i, done).0 is Ok,
                self.evaluate_all(s, i, done).1,
            ),
        ensures
            self.with_thunk(location, state).evaluate_all(s, i, done) == (
                self.evaluate_all(s, i, done).0,
                self.evaluate_all(s, i, done).1.with_thunk(location, state),
            ),
        decreases
                self.pending(),
                if forall|k: int| 0 <= k < s.len() ==> (#[trigger] s[k]).direct() {
                    0int
                } else {
                    1
                },
                LazyModel::size_of(s, s.len() as int) + 2,
                s.len() - i,
    {
        if 0 <= i < s.len() {
            LazyModel::lemma_size_element(s, s.len() as int, i);
            self.lemma_evaluate_progress(s[i]);
            self.with_thunk(location, state).lemma_evaluate_progress(s[i]);
            let (result, after) = self.evaluate(s[i]);
            if let Ok(result) = result {
                let more = done.push(result);
                let (all, end) = after.evaluate_all(s, i + 1, more);
                after.lemma_evaluate_all_progress(s, i + 1, more);
                self.lemma_leaves_parts(location, after, all is Ok, end);
                self.lemma_thunk_valid(location, state, after);
                self.lemma_evaluate_without(s[i], location, state);
                after.lemma_evaluate_all_without(s, i + 1, more, location, state);
            } else {
                self.lemma_evaluate_without(s[i], location, state);
            }
        }
    }

    proof fn lemma_force_without(self, other: usize, location: usize, state: ThunkStateModel)
        requires
            self.valid(),
            other < self.store.len(),
            location < self.store.len(),
            self.with_thunk(location, state).valid(),
            self.leaves_alone(location, self.force(other).0 is Ok, self.force(other).1),
        ensures
            other != location,
            self.with_thunk(location, state).force(other) == (
                self.force(other).0,
                self.force(other).1.with_thunk(location, state),
            ),
        decreases self.pending(), 0int, 0int, 0int,
    {
        self.lemma_force_progress(other);
        if other != location {
            if let ThunkStateModel::Unforced(value) = self.store[other as int].state {
                let forcing = self.with_thunk(other, ThunkStateModel::Forcing);
                self.lemma_pending_thunk(other, ThunkStateModel::Forcing);
                self.lemma_with_thunk_swap(location, state, other, ThunkStateModel::Forcing);
                self.lemma_thunk_valid(location, state, forcing);
                forcing.lemma_evaluate_progress(value);
                let (result, after) = forcing.evaluate(value);
                forcing.lemma_evaluate_without(value, location, state);
                if let Ok(value) = result {
                    after.lemma_with_thunk_swap(
                        location,
                        state,
                        other,
                        ThunkStateModel::Forced(value),
                    );
                }
            }
        }
    }

    proof fn lemma_scoped_without(
        self,
        scope: SyntaxNodeModel,
        name: Seq<char>,
        location: usize,
        state: ThunkStateModel,
    )
        requires
            self.valid(),
            location < self.store.len(),
            self.with_thunk(location, state).valid(),
            self.leaves_alone(
                location,
                self.evaluate_scoped(scope, name).0 is Ok,
                self.evaluate_scoped(scope, name).1,
            ),
        ensures
            self.with_thunk(location, state).evaluate_scoped(scope, name) == (
                self.evaluate_scoped(scope, name).0,
                self.evaluate_scoped(scope, name).1.with_thunk(location, state),
            ),
        decreases self.pending(), 0int, 0int, 0int,
    {
        let changed = self.with_thunk(location, state);
        if self.scoped_store.contains_key(name) {
            let forcing = self.with_scoped(name, ScopedModel::Forcing);
            self.lemma_pending_scoped(name, ScopedModel::Forcing);
            changed.lemma_pending_scoped(name, ScopedModel::Forcing);
            if let ScopedModel::Unforced(definitions) = self.scoped_store[name] {
                self.lemma_thunk_valid(location, state, forcing);
                assert(changed.with_scoped(name, ScopedModel::Forcing) == forcing.with_thunk(
                    location,
                    state,
                ));
                forcing.lemma_force_scopes_without(
                    name,
                    definitions,
                    0,
                    Map::empty(),
                    Map::empty(),
                    location,
                    state,
                );
            }
        }
    }

    proof fn lemma_force_scopes_without(
        self,
        name: Seq<char>,
        definitions: Seq<ScopedDefinition>,
        i: int,
        map: Map<SyntaxNodeModel, LazyModel>,
        infos: Map<SyntaxNodeModel, Location>,
        location: usize,
        state: ThunkStateModel,
    )
        requires
            self.valid(),
            location < self.store.len(),
            self.with_thunk(location, state).valid(),
            crate::lazy::evaluation::definitions_valid(definitions, self.store.len()),
            crate::lazy::evaluation::scopes_valid(map, self.store.len()),
            self.leaves_alone(
                location,
                self.force_scopes(name, definitions, i, map, infos).0 is Ok,
                self.force_scopes(name, definitions, i, map, infos).1,
            ),
        ensures
            self.with_thunk(location, state).force_scopes(name, definitions, i, map, infos) == (
                self.force_scopes(name, definitions, i, map, infos).0,
                self.force_scopes(name, definitions, i, map, infos).1.with_thunk(location, state),
            ),
        decreases self.pending(), 2int, 0int, definitions.len() - i,
    {
        if 0 <= i < definitions.len() {
            let definition = definitions[i];
            self.lemma_evaluate_progress(definition.scope);
            self.with_thunk(location, state).lemma_evaluate_progress(definition.scope);
            let (result, after) = self.evaluate(definition.scope);
            self.lemma_thunk_valid(location, state, after);
            if let Ok(node) = crate::lazy::evaluation::as_syntax_node(result) {
                if !map.contains_key(node) {
                    let more = map.insert(node, definition.value);
                    let noted = infos.insert(node, definition.debug_info);
                    let (all, end) = after.force_scopes(name, definitions, i + 1, more, noted);
                    after.lemma_force_scopes_progress(name, definitions, i + 1, more, noted);
                    self.lemma_leaves_parts(location, after, all is Ok, end);
                    self.lemma_evaluate_without(definition.scope, location, state);
                    after.lemma_force_scopes_without(
                        name,
                        definitions,
                        i + 1,
                        more,
                        noted,
                        location,
                        state,
                    );
                } else {
                    self.lemma_evaluate_without(definition.scope, location, state);
                }
            } else {
                self.lemma_evaluate_without(definition.scope, location, state);
            }
        }
    }

    /// A variable stands for the value that was stored for it. If forcing it gives a result, so
    /// does evaluating that value in its place, and it is the same. And if evaluating the value
    /// does not ask for the variable itself, which is then still unforced, forcing the variable
    /// gives the same result or the same error. The states after that differ in the variable only.
    pub proof fn lemma_variable_stands_for_value(self, location: usize, value: LazyModel)
        requires
            self.valid(),
            location < self.store.len(),
            self.store[location as int].state == ThunkStateModel::Unforced(value),
        ensures
            ({
                let (result, after) = self.evaluate(value);
                let (forced, end) = self.force(location);
                let unforced = after.store[location as int].state is Unforced;
                &&& forced is Ok ==> result == forced && unforced
                &&& unforced ==> forced == result
                &&& unforced ==> end == after.with_thunk(
                    location,
                    match result {
                        Ok(x) => ThunkStateModel::Forced(x),
                        Err(_) => ThunkStateModel::Forcing,
                    },
                )
            }),
    {
        let forcing = self.with_thunk(location, ThunkStateModel::Forcing);
        let state = ThunkStateModel::Unforced(value);
        self.lemma_pending_thunk(location, ThunkStateModel::Forcing);
        self.lemma_evaluate_progress(value);
        assert(forcing.valid());
        assert(forcing.with_thunk(location, state).store =~= self.store);
        assert(forcing.with_thunk(location, state) == self);
        let (result, after) = self.evaluate(value);
        if after.store[location as int].state is Unforced {
            self.lemma_evaluate_without(value, location, ThunkStateModel::Forcing);
            if let Ok(x) = result {
                let forced = ThunkStateModel::Forced(x);
                assert(after.with_thunk(location, ThunkStateModel::Forcing).with_thunk(
                    location,
                    forced,
                ).store =~= after.with_thunk(location, forced).store);
            }
        }
        if forcing.evaluate(value).0 is Ok {
            forcing.lemma_evaluate_progress(value);
            forcing.lemma_evaluate_without(value, location, state);
        }
    }

    /// However many variables are added later, the variable that was added for a value stands for
    /// it: if nothing has asked for the variable yet, asking for it gives a result if and only if
    /// evaluating the value gives it without asking for the variable.
    pub proof fn lemma_added_variable(
        self,
        before: Seq<ThunkModel>,
        value: LazyModel,
        debug_info: Location,
        location: usize,
        x: ValueModel,
    )
        requires
            self.valid(),
            before.push(
                ThunkModel { state: ThunkStateModel::Unforced(value), debug_info },
            ).is_prefix_of(self.store),
            location == before.len(),
        ensures
            self.evaluate_variable(location).0 == Ok::<ValueModel, ErrorModel>(x)
                <==> self.evaluate(value).0 == Ok::<ValueModel, ErrorModel>(x)
                && self.evaluate(value).1.store[location as int].state is Unforced,
    {
        let thunk = ThunkModel { state: ThunkStateModel::Unforced(value), debug_info };
        assert(self.store[location as int] == before.push(thunk)[location as int]);
        self.lemma_variable_stands_for_value(location, value);
    }

    /// A variable whose value does not lead back to it stands for its value: asking for the
    /// variable gives what evaluating the value gives, be it a result or an error, on which there
    /// is a note then.
    pub proof fn lemma_variable_apart_from_itself(
        self,
        location: usize,
        value: LazyModel,
        locations: Set<usize>,
        names: Set<Seq<char>>,
        x: ValueModel,
    )
        requires
            self.valid(),
            location < self.store.len(),
            self.store[location as int].state == ThunkStateModel::Unforced(value),
            value.reads_only(locations, names),
            self.closed_under(locations, names),
            !locations.contains(location),
        ensures
            self.force(location).0 == self.evaluate(value).0,
            self.evaluate_variable(location).0 == Ok::<ValueModel, ErrorModel>(x)
                <==> self.evaluate(value).0 == Ok::<ValueModel, ErrorModel>(x),
    {
        self.lemma_evaluate_reach(value, locations, names);
        self.lemma_variable_stands_for_value(location, value);
    }
}

} // verus!
