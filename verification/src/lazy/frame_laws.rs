//! Laws of what evaluation does not depend on.

use vstd::prelude::*;

use crate::lazy::evaluation::EvaluationState;
use crate::lazy::store::ScopedDefinition;
use crate::lazy::store::ScopedModel;
use crate::lazy::store::ThunkStateModel;
use crate::lazy::values::LazyModel;
use crate::location::Location;
use crate::values::SyntaxNodeModel;
use crate::values::ValueModel;

verus! {

impl LazyModel {
    /// Whether this value asks for no variables but those at the given locations of the store, and
    /// for no scoped variables but those with the given names.
    pub open spec fn reads_only(self, locations: Set<usize>, names: Set<Seq<char>>) -> bool
        decreases self,
    {
        match self {
            LazyModel::Value(_) => true,
            LazyModel::List(s) => forall|i: int|
                0 <= i < s.len() ==> (#[trigger] s[i]).reads_only(locations, names),
            LazyModel::LazySet(s) => forall|i: int|
                0 <= i < s.len() ==> (#[trigger] s[i]).reads_only(locations, names),
            LazyModel::Variable(location) => locations.contains(location),
            LazyModel::ScopedVariable(scope, name) => scope.reads_only(locations, names)
                && names.contains(name),
            LazyModel::Call(_, s) => forall|i: int|
                0 <= i < s.len() ==> (#[trigger] s[i]).reads_only(locations, names),
        }
    }
}

/// Whether the scopes of the definitions ask for nothing but the given variables.
pub open spec fn scopes_read_only(
    definitions: Seq<ScopedDefinition>,
    locations: Set<usize>,
    names: Set<Seq<char>>,
) -> bool {
    forall|i: int|
        0 <= i < definitions.len() ==> (#[trigger] definitions[i]).scope.reads_only(
            locations,
            names,
        )
}

/// Whether the values of the definitions ask for nothing but the given variables.
pub open spec fn definitions_read_only(
    definitions: Seq<ScopedDefinition>,
    locations: Set<usize>,
    names: Set<Seq<char>>,
) -> bool {
    forall|i: int|
        0 <= i < definitions.len() ==> (#[trigger] definitions[i]).value.reads_only(
            locations,
            names,
        )
}

/// Whether the values of syntax nodes ask for nothing but the given variables.
pub open spec fn values_read_only(
    map: Map<SyntaxNodeModel, LazyModel>,
    locations: Set<usize>,
    names: Set<Seq<char>>,
) -> bool {
    forall|node: SyntaxNodeModel| #[trigger]
        map.contains_key(node) ==> map[node].reads_only(locations, names)
}

impl ScopedModel {
    /// Whether the scopes, as far as they are still to be evaluated, and the values ask for nothing
    /// but the given variables.
    pub open spec fn reads_only(self, locations: Set<usize>, names: Set<Seq<char>>) -> bool {
        match self {
            ScopedModel::Unforced(definitions) => scopes_read_only(definitions, locations, names)
                && definitions_read_only(definitions, locations, names),
            ScopedModel::Forcing => true,
            ScopedModel::Forced(map) => values_read_only(map, locations, names),
        }
    }
}

impl EvaluationState {
    /// Whether the given variables and scoped variables ask for nothing but each other.
    pub open spec fn closed_under(self, locations: Set<usize>, names: Set<Seq<char>>) -> bool {
        &&& forall|i: int|
            0 <= i < self.store.len() && locations.contains(i as usize) ==> (
            #[trigger] self.store[i].state matches ThunkStateModel::Unforced(value)
                ==> value.reads_only(locations, names))
        &&& forall|name: Seq<char>| #[trigger]
            self.scoped_store.contains_key(name) && names.contains(name)
                ==> self.scoped_store[name].reads_only(locations, names)
    }

    /// Whether the thunks and the values of scoped variables are the same in `after` as in this
    /// state, but for those at the given locations and with the given names.
    pub open spec fn same_outside(
        self,
        locations: Set<usize>,
        names: Set<Seq<char>>,
        after: EvaluationState,
    ) -> bool {
        &&& after.store.len() == self.store.len()
        &&& forall|i: int|
            0 <= i < self.store.len() && !locations.contains(i as usize) ==> (
            #[trigger] after.store[i]) == self.store[i]
        &&& after.scoped_store.dom() == self.scoped_store.dom()
        &&& forall|name: Seq<char>|
            self.scoped_store.contains_key(name) && !names.contains(name)
                ==> #[trigger] after.scoped_store[name] == self.scoped_store[name]
    }

    /// Evaluation forces nothing but what the value asks for, and what that asks for.
    pub proof fn lemma_evaluate_reach(
        self,
        value: LazyModel,
        locations: Set<usize>,
        names: Set<Seq<char>>,
    )
        requires
            self.valid(),
            value.below(self.store.len()),
            value.reads_only(locations, names),
            self.closed_under(locations, names),
        ensures
            self.same_outside(locations, names, self.evaluate(value).1),
            self.evaluate(value).1.closed_under(locations, names),
        decreases
                self.pending(),
                if value.direct() {
                    0int
                } else {
                    1
                },
                value.size() + 2,
                0int,
    {
        let at = "evaluating value"@;
        let (checked, state) = self.check(at);
        self.lemma_check_progress(at);
        if checked is Ok {
            match value {
                LazyModel::Value(_) => {},
                LazyModel::List(s) => {
                    state.lemma_evaluate_all_reach(s, 0, Seq::empty(), locations, names);
                },
                LazyModel::LazySet(s) => {
                    state.lemma_evaluate_all_reach(s, 0, Seq::empty(), locations, names);
                },
                LazyModel::Variable(location) => {
                    state.lemma_force_reach(location, locations, names);
                    assert(state.evaluate_variable(location).1 == state.force(location).1);
                },
                LazyModel::ScopedVariable(scope, name) => {
                    state.lemma_evaluate_progress(*scope);
                    state.lemma_evaluate_reach(*scope, locations, names);
                    let (node, after_scope) = state.evaluate(*scope);
                    if let Ok(node) = crate::lazy::evaluation::as_syntax_node(node) {
                        after_scope.lemma_scoped_progress(node, name);
                        after_scope.lemma_scoped_reach(node, name, locations, names);
                        let (resolved, after) = after_scope.evaluate_scoped(node, name);
                        if let Ok(resolved) = resolved {
                            after.lemma_evaluate_reach(resolved, locations, names);
                        }
                    }
                },
                LazyModel::Call(function, s) => {
                    state.lemma_evaluate_all_reach(s, 0, Seq::empty(), locations, names);
                },
            }
        }
    }

    proof fn lemma_evaluate_all_reach(
        self,
        s: Seq<LazyModel>,
        i: int,
        done: Seq<ValueModel>,
        locations: Set<usize>,
        names: Set<Seq<char>>,
    )
        requires
            self.valid(),
            forall|k: int| 0 <= k < s.len() ==> (#[trigger] s[k]).below(self.store.len()),
            forall|k: int| 0 <= k < s.len() ==> (#[trigger] s[k]).reads_only(locations, names),
            self.closed_under(locations, names),
        ensures
            self.same_outside(locations, names, self.evaluate_all(s, i, done).1),
            self.evaluate_all(s, i, done).1.closed_under(locations, names),
        decreases
                self.pending(),
                if forall|k: int| 0 <= k < s.len() ==> (#[trigger] s[k]).direct() {
                    0int
                } else {
                    1
                },
                LazyModel::size_of(s, s.len() as int) + 2,
                s.len() - i,
    {
        if 0 <= i < s.len() {
            LazyModel::lemma_size_element(s, s.len() as int, i);
            self.lemma_evaluate_progress(s[i]);
            self.lemma_evaluate_reach(s[i], locations, names);
            let (result, after) = self.evaluate(s[i]);
            if let Ok(result) = result {
                after.lemma_evaluate_all_reach(s, i + 1, done.push(result), locations, names);
            }
        }
    }

    proof fn lemma_force_reach(
        self,
        location: usize,
        locations: Set<usize>,
        names: Set<Seq<char>>,
    )
        requires
            self.valid(),
            location < self.store.len(),
            locations.contains(location),
            self.closed_under(locations, names),
        ensures
            self.same_outside(locations, names, self.force(location).1),
            self.force(location).1.closed_under(locations, names),
        decreases self.pending(), 0int, 0int, 0int,
    {
        if let ThunkStateModel::Unforced(value) = self.store[location as int].state {
            let forcing = self.with_thunk(location, ThunkStateModel::Forcing);
            self.lemma_pending_thunk(location, ThunkStateModel::Forcing);
            forcing.lemma_evaluate_reach(value, locations, names);
        }
    }

    proof fn lemma_scoped_reach(
        self,
        scope: SyntaxNodeModel,
        name: Seq<char>,
        locations: Set<usize>,
        names: Set<Seq<char>>,
    )
        requires
            self.valid(),
            names.contains(name),
            self.closed_under(locations, names),
        ensures
            self.same_outside(locations, names, self.evaluate_scoped(scope, name).1),
            self.evaluate_scoped(scope, name).1.closed_under(locations, names),
            self.evaluate_scoped(scope, name).0 matches Ok(value) ==> value.reads_only(
                locations,
                names,
            ),
        decreases self.pending(), 0int, 0int, 0int,
    {
        if self.scoped_store.contains_key(name) {
            let forcing = self.with_scoped(name, ScopedModel::Forcing);
            self.lemma_pending_scoped(name, ScopedModel::Forcing);
            self.lemma_scoped_progress(scope, name);
            if let ScopedModel::Unforced(definitions) = self.scoped_store[name] {
                forcing.lemma_force_scopes_reach(
                    name,
                    definitions,
                    0,
                    Map::empty(),
                    Map::empty(),
                    locations,
                    names,
                );
            }
        }
    }

    proof fn lemma_force_scopes_reach(
        self,
        name: Seq<char>,
        definitions: Seq<ScopedDefinition>,
        i: int,
        map: Map<SyntaxNodeModel, LazyModel>,
        infos: Map<SyntaxNodeModel, Location>,
        locations: Set<usize>,
        names: Set<Seq<char>>,
    )
        requires
            self.valid(),
            crate::lazy::evaluation::definitions_valid(definitions, self.store.len()),
            scopes_read_only(definitions, locations, names),
            definitions_read_only(definitions, locations, names),
            values_read_only(map, locations, names),
            self.closed_under(locations, names),
        ensures
            self.same_outside(
                locations,
                names,
                self.force_scopes(name, definitions, i, map, infos).1,
            ),
            self.force_scopes(name, definitions, i, map, infos).1.closed_under(locations, names),
            self.force_scopes(name, definitions, i, map, infos).0 matches Ok(forced)
                ==> values_read_only(forced, locations, names),
        decreases self.pending(), 2int, 0int, definitions.len() - i,
    {
        if 0 <= i < definitions.len() {
            let definition = definitions[i];
            self.lemma_evaluate_progress(definition.scope);
            self.lemma_evaluate_reach(definition.scope, locations, names);
            let (result, after) = self.evaluate(definition.scope);
            if let Ok(node) = crate::lazy::evaluation::as_syntax_node(result) {
                if !map.contains_key(node) {
                    after.lemma_force_scopes_reach(
                        name,
                        definitions,
                        i + 1,
                        map.insert(node, definition.value),
                        infos.insert(node, definition.debug_info),
                        locations,
                        names,
                    );
                }
            }
        }
    }

    /// Changing the values of one name commutes with changing those of another.
    proof fn lemma_with_scoped_swap(
        self,
        name: Seq<char>,
        values: ScopedModel,
        other: Seq<char>,
        other_values: ScopedModel,
    )
        requires
            name != other,
        ensures
            self.with_scoped(name, values).with_scoped(other, other_values) == self.with_scoped(
                other,
                other_values,
            ).with_scoped(name, values),
    {
        assert(self.scoped_store.insert(name, values).insert(other, other_values)
            =~= self.scoped_store.insert(other, other_values).insert(name, values));
    }

    /// What a value evaluates to does not depend on scoped variables that are not asked for.
    pub proof fn lemma_evaluate_apart(
        self,
        value: LazyModel,
        locations: Set<usize>,
        names: Set<Seq<char>>,
        name: Seq<char>,
        values: ScopedModel,
    )
        requires
            self.valid(),
            self.with_scoped(name, values).valid(),
            value.below(self.store.len()),
            value.reads_only(locations, names),
            !names.contains(name),
            self.closed_under(locations, names),
        ensures
            self.with_scoped(name, values).evaluate(value) == (
                self.evaluate(value).0,
                self.evaluate(value).1.with_scoped(name, values),
            ),
            self.evaluate(value).1.closed_under(locations, names),
        decreases
                self.pending(),
                if value.direct() {
                    0int
                } else {
                    1
                },
                value.size() + 2,
                0int,
    {
        let changed = self.with_scoped(name, values);
        let at = "evaluating value"@;
        let (checked, state) = self.check(at);
        let changed_state = changed.check(at).1;
        self.lemma_check_progress(at);
        changed.lemma_check_progress(at);
        assert(changed_state == state.with_scoped(name, values));
        if checked is Ok {
            match value {
                LazyModel::Value(_) => {},
                LazyModel::List(s) => {
                    state.lemma_evaluate_all_apart(
                        s,
                        0,
                        Seq::empty(),
                        locations,
                        names,
                        name,
                        values,
                    );
                },
                LazyModel::LazySet(s) => {
                    state.lemma_evaluate_all_apart(
                        s,
                        0,
                        Seq::empty(),
                        locations,
                        names,
                        name,
                        values,
                    );
                },
                LazyModel::Variable(location) => {
                    state.lemma_force_apart(location, locations, names, name, values);
                    state.lemma_force_progress(location);
                    changed_state.lemma_force_progress(location);
                    assert(state.evaluate_variable(location).1 == state.force(location).1);
                    assert(changed_state.evaluate_variable(location).1 == changed_state.force(
                        location,
                    ).1);
                    assert(changed_state.evaluate_variable(location).0 == state.evaluate_variable(
                        location,
                    ).0);
                },
                LazyModel::ScopedVariable(scope, other) => {
                    state.lemma_evaluate_progress(*scope);
                    changed_state.lemma_evaluate_progress(*scope);
                    state.lemma_evaluate_apart(*scope, locations, names, name, values);
                    let (node, after_scope) = state.evaluate(*scope);
                    if let Ok(node) = crate::lazy::evaluation::as_syntax_node(node) {
                        let changed_after = after_scope.with_scoped(name, values);
                        after_scope.lemma_scoped_progress(node, other);
                        changed_after.lemma_scoped_progress(node, other);
                        after_scope.lemma_scoped_apart(
                            node,
                            other,
                            locations,
                            names,
                            name,
                            values,
                        );
                        let (resolved, after) = after_scope.evaluate_scoped(node, other);
                        if let Ok(resolved) = resolved {
                            after.lemma_evaluate_apart(resolved, locations, names, name, values);
                        }
                    }
                },
                LazyModel::Call(function, s) => {
                    state.lemma_evaluate_all_apart(
                        s,
                        0,
                        Seq::empty(),
                        locations,
                        names,
                        name,
                        values,
                    );
                },
            }
        }
    }

    proof fn lemma_evaluate_all_apart(
        self,
        s: Seq<LazyModel>,
        i: int,
        done: Seq<ValueModel>,
        locations: Set<usize>,
        names: Set<Seq<char>>,
        name: Seq<char>,
        values: ScopedModel,
    )
        requires
            self.valid(),
            self.with_scoped(name, values).valid(),
            forall|k: int| 0 <= k < s.len() ==> (#[trigger] s[k]).below(self.store.len()),
            forall|k: int| 0 <= k < s.len() ==> (#[trigger] s[k]).reads_only(locations, names),
            !names.contains(name),
            self.closed_under(locations, names),
        ensures
            self.with_scoped(name, values).evaluate_all(s, i, done) == (
                self.evaluate_all(s, i, done).0,
                self.evaluate_all(s, i, done).1.with_scoped(name, values),
            ),
            self.evaluate_all(s, i, done).1.closed_under(locations, names),
        decreases
                self.pending(),
                if forall|k: int| 0 <= k < s.len() ==> (#[trigger] s[k]).direct() {
                    0int
                } else {
                    1
                },
                LazyModel::size_of(s, s.len() as int) + 2,
                s.len() - i,
    {
        if 0 <= i < s.len() {
            LazyModel::lemma_size_element(s, s.len() as int, i);
            self.lemma_evaluate_progress(s[i]);
            self.with_scoped(name, values).lemma_evaluate_progress(s[i]);
            self.lemma_evaluate_apart(s[i], locations, names, name, values);
            let (result, after) = self.evaluate(s[i]);
            if let Ok(result) = result {
                after.lemma_evaluate_all_apart(
                    s,
                    i + 1,
                    done.push(result),
                    locations,
                    names,
                    name,
                    values,
                );
            }
        }
    }

    proof fn lemma_force_apart(
        self,
        location: usize,
        locations: Set<usize>,
        names: Set<Seq<char>>,
        name: Seq<char>,
        values: ScopedModel,
    )
        requires
            self.valid(),
            self.with_scoped(name, values).valid(),
            location < self.store.len(),
            locations.contains(location),
            !names.contains(name),
            self.closed_under(locations, names),
        ensures
            self.with_scoped(name, values).force(location) == (
                self.force(location).0,
                self.force(location).1.with_scoped(name, values),
            ),
            self.force(location).1.closed_under(locations, names),
        decreases self.pending(), 0int, 0int, 0int,
    {
        if let ThunkStateModel::Unforced(value) = self.store[location as int].state {
            let changed = self.with_scoped(name, values);
            let forcing = self.with_thunk(location, ThunkStateModel::Forcing);
            self.lemma_pending_thunk(location, ThunkStateModel::Forcing);
            assert(forcing.with_scoped(name, values) == changed.with_thunk(
                location,
                ThunkStateModel::Forcing,
            ));
            forcing.lemma_evaluate_apart(value, locations, names, name, values);
            forcing.lemma_evaluate_progress(value);
            let (result, after) = forcing.evaluate(value);
            if let Ok(value) = result {
                let forced = ThunkStateModel::Forced(value);
                assert(after.with_thunk(location, forced).with_scoped(name, values)
                    == after.with_scoped(name, values).with_thunk(location, forced));
            }
        }
    }

    /// Whether the scopes in which variables called `name` are defined, as far as they are still to
    /// be evaluated, ask for nothing but the given variables.
    pub open spec fn finds_within(
        self,
        name: Seq<char>,
        locations: Set<usize>,
        names: Set<Seq<char>>,
    ) -> bool {
        self.scoped_store.contains_key(name) ==> (
        self.scoped_store[name] matches ScopedModel::Unforced(definitions) ==> scopes_read_only(
            definitions,
            locations,
            names,
        ))
    }

    /// What a scoped variable is does not depend on other names that are not asked for.
    pub proof fn lemma_scoped_apart(
        self,
        scope: SyntaxNodeModel,
        other: Seq<char>,
        locations: Set<usize>,
        names: Set<Seq<char>>,
        name: Seq<char>,
        values: ScopedModel,
    )
        requires
            self.valid(),
            self.with_scoped(name, values).valid(),
            other != name,
            self.finds_within(other, locations, names),
            !names.contains(name),
            self.closed_under(locations, names),
        ensures
            self.with_scoped(name, values).evaluate_scoped(scope, other) == (
                self.evaluate_scoped(scope, other).0,
                self.evaluate_scoped(scope, other).1.with_scoped(name, values),
            ),
            self.evaluate_scoped(scope, other).1.closed_under(locations, names),
            self.evaluate_scoped(scope, other).0 matches Ok(value) ==> (names.contains(other)
                ==> value.reads_only(locations, names)),
        decreases self.pending(), 0int, 0int, 0int,
    {
        let changed = self.with_scoped(name, values);
        if self.scoped_store.contains_key(other) {
            let forcing = self.with_scoped(other, ScopedModel::Forcing);
            self.lemma_pending_scoped(other, ScopedModel::Forcing);
            changed.lemma_pending_scoped(other, ScopedModel::Forcing);
            self.lemma_with_scoped_swap(name, values, other, ScopedModel::Forcing);
            match self.scoped_store[other] {
                ScopedModel::Unforced(definitions) => {
                    forcing.lemma_force_scopes_apart(
                        other,
                        definitions,
                        0,
                        Map::empty(),
                        Map::empty(),
                        locations,
                        names,
                        name,
                        values,
                    );
                    let (forced, after) = forcing.force_scopes(
                        other,
                        definitions,
                        0,
                        Map::empty(),
                        Map::empty(),
                    );
                    if let Ok(map) = forced {
                        after.lemma_with_scoped_swap(
                            name,
                            values,
                            other,
                            ScopedModel::Forced(map),
                        );
                    }
                },
                ScopedModel::Forcing => {},
                ScopedModel::Forced(_) => {},
            }
        }
    }

    proof fn lemma_force_scopes_apart(
        self,
        other: Seq<char>,
        definitions: Seq<ScopedDefinition>,
        i: int,
        map: Map<SyntaxNodeModel, LazyModel>,
        infos: Map<SyntaxNodeModel, Location>,
        locations: Set<usize>,
        names: Set<Seq<char>>,
        name: Seq<char>,
        values: ScopedModel,
    )
        requires
            self.valid(),
            self.with_scoped(name, values).valid(),
            crate::lazy::evaluation::definitions_valid(definitions, self.store.len()),
            scopes_read_only(definitions, locations, names),
            !names.contains(name),
            self.closed_under(locations, names),
        ensures
            self.with_scoped(name, values).force_scopes(other, definitions, i, map, infos) == (
                self.force_scopes(other, definitions, i, map, infos).0,
                self.force_scopes(other, definitions, i, map, infos).1.with_scoped(name, values),
            ),
            self.force_scopes(other, definitions, i, map, infos).1.closed_under(locations, names),
            self.force_scopes(other, definitions, i, map, infos).0 matches Ok(forced) ==> (
            definitions_read_only(definitions, locations, names) && values_read_only(
                map,
                locations,
                names,
            ) ==> values_read_only(forced, locations, names)),
        decreases self.pending(), 2int, 0int, definitions.len() - i,
    {
        if 0 <= i < definitions.len() {
            let definition = definitions[i];
            self.lemma_evaluate_progress(definition.scope);
            self.with_scoped(name, values).lemma_evaluate_progress(definition.scope);
            self.lemma_evaluate_apart(definition.scope, locations, names, name, values);
            let (result, after) = self.evaluate(definition.scope);
            if let Ok(node) = crate::lazy::evaluation::as_syntax_node(result) {
                if !map.contains_key(node) {
                    after.lemma_force_scopes_apart(
                        other,
                        definitions,
                        i + 1,
                        map.insert(node, definition.value),
                        infos.insert(node, definition.debug_info),
                        locations,
                        names,
                        name,
                        values,
                    );
                }
            }
        }
    }

    /// Adding a definition of a name leaves variables of another name alone, if the scopes in which
    /// these are defined ask for no variable of the first name, neither themselves nor by way of
    /// what they ask for: the same is found as without the definition, and nothing else is
    /// different afterwards either. Whether the definition could be added makes no difference.
    pub proof fn lemma_definition_of_another_name(
        self,
        name: Seq<char>,
        definition: ScopedDefinition,
        other: Seq<char>,
        scope: SyntaxNodeModel,
        locations: Set<usize>,
        names: Set<Seq<char>>,
    )
        requires
            self.valid(),
            definition.scope.below(self.store.len()),
            definition.value.below(self.store.len()),
            definition.value.direct(),
            other != name,
            self.finds_within(other, locations, names),
            !names.contains(name),
            self.closed_under(locations, names),
        ensures
            ({
                let (added, scoped_store) = crate::lazy::store::with_definition(
                    self.scoped_store,
                    name,
                    definition,
                );
                let defined = EvaluationState { scoped_store, ..self };
                let (result, after) = self.evaluate_scoped(scope, other);
                let (defined_result, defined_after) = defined.evaluate_scoped(scope, other);
                &&& defined_result == result
                &&& added is Ok ==> defined_after == after.with_scoped(name, scoped_store[name])
                &&& added is Err ==> defined_after == after
            }),
    {
        let (added, scoped_store) = crate::lazy::store::with_definition(
            self.scoped_store,
            name,
            definition,
        );
        let defined = EvaluationState { scoped_store, ..self };
        if added is Ok {
            let values = scoped_store[name];
            assert(defined == self.with_scoped(name, values));
            assert(self.scoped_store.contains_key(name) ==> self.scoped_store[name].valid(
                self.store.len(),
            ));
            assert(defined.valid());
            self.lemma_scoped_apart(scope, other, locations, names, name, values);
        }
    }
}

} // verus!
