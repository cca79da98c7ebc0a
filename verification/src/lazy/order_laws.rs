//! Laws of the order in which variables of syntax nodes are defined.

use vstd::prelude::*;

use crate::error::ErrorModel;
use crate::lazy::evaluation::EvaluationState;
use crate::lazy::store::ScopedDefinition;
use crate::lazy::store::ScopedModel;
use crate::lazy::values::LazyModel;
use crate::values::SyntaxNodeModel;

verus! {

/// The definitions of variables called `name`, in order.
pub open spec fn definitions_of(
    all: Seq<(Seq<char>, ScopedDefinition)>,
    name: Seq<char>,
) -> Seq<ScopedDefinition>
    decreases all.len(),
{
    if all.len() == 0 {
        Seq::empty()
    } else {
        let before = definitions_of(all.drop_last(), name);
        if all.last().0 == name {
            before.push(all.last().1)
        } else {
            before
        }
    }
}

/// The scoped variables after all these definitions, each with its name, have been added, and no
/// others.
pub open spec fn defined_by(all: Seq<(Seq<char>, ScopedDefinition)>) -> Map<Seq<char>, ScopedModel>
    decreases all.len(),
{
    if all.len() == 0 {
        Map::empty()
    } else {
        crate::lazy::store::with_definition(
            defined_by(all.drop_last()),
            all.last().0,
            all.last().1,
        ).1
    }
}

/// What is defined for a name are its definitions.
pub proof fn lemma_defined_by(all: Seq<(Seq<char>, ScopedDefinition)>)
    ensures
        defined_by(all).dom().finite(),
        forall|name: Seq<char>|
            #![trigger defined_by(all).contains_key(name)]
            #![trigger definitions_of(all, name)]
            defined_by(all).contains_key(name) <==> definitions_of(all, name).len() > 0,
        forall|name: Seq<char>| #[trigger]
            defined_by(all).contains_key(name) ==> defined_by(all)[name] == ScopedModel::Unforced(
                definitions_of(all, name),
            ),
    decreases all.len(),
{
    if all.len() > 0 {
        lemma_defined_by(all.drop_last());
        let before = defined_by(all.drop_last());
        let last = all.last().0;
        assert(definitions_of(all.drop_last(), last).len() >= 0);
        if !before.contains_key(last) {
            assert(definitions_of(all, last) =~= seq![all.last().1]);
        }
        assert forall|name: Seq<char>| name != last implies #[trigger] definitions_of(all, name)
            == definitions_of(all.drop_last(), name) by {}
    }
}

/// A definition is there as often for its name as it was added.
proof fn lemma_definitions_count(
    all: Seq<(Seq<char>, ScopedDefinition)>,
    name: Seq<char>,
    definition: ScopedDefinition,
)
    ensures
        definitions_of(all, name).to_multiset().count(definition) == all.to_multiset().count(
            (name, definition),
        ),
    decreases all.len(),
{
    broadcast use vstd::seq_lib::group_to_multiset_ensures;

    if all.len() > 0 {
        lemma_definitions_count(all.drop_last(), name, definition);
        assert(all =~= all.drop_last().push(all.last()));
    } else {
        assert(all =~= Seq::empty());
        assert(definitions_of(all, name) =~= Seq::empty());
    }
}

impl EvaluationState {
    /// If a variable of some name is found, the scopes of the definitions evaluate to syntax nodes
    /// that differ from each other.
    proof fn lemma_found_scopes_differ(
        self,
        name: Seq<char>,
        definitions: Seq<ScopedDefinition>,
        scope: SyntaxNodeModel,
        n: int,
    )
        requires
            self.valid(),
            self.scoped_store.contains_key(name),
            self.scoped_store[name] == ScopedModel::Unforced(definitions),
            self.evaluate_scoped(scope, name).0 is Ok,
            0 <= n <= definitions.len(),
        ensures
            self.with_scoped(name, ScopedModel::Forcing).scopes_differ(definitions, n),
        decreases n,
    {
        if n > 0 {
            let forcing = self.with_scoped(name, ScopedModel::Forcing);
            self.lemma_found_scopes_differ(name, definitions, scope, n - 1);
            let last = forcing.scope_node(definitions, n - 1);
            if last is Err {
                self.lemma_scoped_without_node(name, definitions, scope, n - 1);
            }
            assert forall|j: int| 0 <= j < n - 1 implies (
            #[trigger] forcing.scope_node(definitions, j)) != last by {
                if forcing.scope_node(definitions, j) == last {
                    self.lemma_scoped_twice(name, definitions, scope, j, n - 1);
                }
            }
        }
    }

    /// The state after `n` checks of the cancellation flag.
    spec fn after_checks(self, n: int) -> EvaluationState
        decreases n,
    {
        if n <= 0 {
            self
        } else {
            self.after_checks(n - 1).check("evaluating value"@).1
        }
    }

    /// Plain scopes need one check each.
    proof fn lemma_plain_scopes(self, definitions: Seq<ScopedDefinition>, n: int)
        requires
            n <= definitions.len(),
            forall|k: int|
                0 <= k < definitions.len() ==> (#[trigger] definitions[k]).scope is Value,
        ensures
            self.after_scopes(definitions, n) == self.after_checks(n),
        decreases n,
    {
        if n > 0 {
            self.lemma_plain_scopes(definitions, n - 1);
            assert(definitions[n - 1].scope is Value);
        }
    }

    /// How often the flag has been checked does not depend on anything but the flag.
    proof fn lemma_after_checks(self, other: EvaluationState, n: int)
        requires
            self.cancellation_flag == other.cancellation_flag,
        ensures
            self.after_checks(n).cancellation_flag == other.after_checks(n).cancellation_flag,
        decreases n,
    {
        if n > 0 {
            self.lemma_after_checks(other, n - 1);
        }
    }

    proof fn lemma_same_found(
        self,
        turned: EvaluationState,
        name: Seq<char>,
        definitions: Seq<ScopedDefinition>,
        others: Seq<ScopedDefinition>,
        scope: SyntaxNodeModel,
    )
        requires
            self.valid(),
            self.scoped_store.contains_key(name),
            self.scoped_store[name] == ScopedModel::Unforced(definitions),
            turned.valid(),
            turned.scoped_store.contains_key(name),
            turned.scoped_store[name] == ScopedModel::Unforced(others),
            turned.cancellation_flag == self.cancellation_flag,
            definitions.to_multiset() == others.to_multiset(),
            forall|k: int|
                0 <= k < definitions.len() ==> (#[trigger] definitions[k]).scope is Value,
            forall|k: int| 0 <= k < others.len() ==> (#[trigger] others[k]).scope is Value,
            self.evaluate_scoped(scope, name).0 is Ok,
        ensures
            turned.evaluate_scoped(scope, name).0 == self.evaluate_scoped(scope, name).0,
    {
        broadcast use vstd::seq_lib::group_to_multiset_ensures;

        let forcing = self.with_scoped(name, ScopedModel::Forcing);
        let turned_forcing = turned.with_scoped(name, ScopedModel::Forcing);
        let n = definitions.len() as int;
        definitions.to_multiset_ensures();
        others.to_multiset_ensures();
        assert(others.len() == n);
        self.lemma_found_scopes_differ(name, definitions, scope, n);
        assert forall|k: int| 0 <= k < n implies #[trigger] forcing.scope_node(definitions, k)
            == definitions[k].scope->Value_0.into_syntax_node() && forcing.after_checks(
            k,
        ).check("evaluating value"@).0 is Ok by {
            forcing.lemma_plain_scopes(definitions, k);
            assert(definitions[k].scope is Value);
            assert(forcing.scope_node(definitions, k) is Ok);
        }
        assert forall|k: int| 0 <= k < n implies #[trigger] turned_forcing.scope_node(others, k)
            == others[k].scope->Value_0.into_syntax_node() by {
            turned_forcing.lemma_plain_scopes(others, k);
            forcing.lemma_after_checks(turned_forcing, k);
            assert(others[k].scope is Value);
            assert(forcing.scope_node(definitions, k) is Ok);
        }
        assert(definitions.no_duplicates()) by {
            assert forall|j: int, k: int| 0 <= j < n && 0 <= k < n && j != k implies definitions[j]
                != definitions[k] by {
                assert(forcing.scope_node(definitions, j) != forcing.scope_node(definitions, k));
            }
        }
        definitions.lemma_multiset_has_no_duplicates();
        others.lemma_multiset_has_no_duplicates_conv();
        assert forall|k: int| 0 <= k < n implies definitions.contains(#[trigger] others[k]) by {
            assert(others.contains(others[k]));
            assert(definitions.to_multiset().count(others[k]) > 0);
        }
        assert(turned_forcing.scopes_differ(others, n)) by {
            assert forall|k: int| 0 <= k < n implies (
            #[trigger] turned_forcing.scope_node(others, k)) is Ok by {
                assert(definitions.contains(others[k]));
                let j = definitions.index_of(others[k]);
                assert(forcing.scope_node(definitions, j) is Ok);
            }
            assert forall|j: int, k: int| 0 <= j < k < n implies (
            #[trigger] turned_forcing.scope_node(others, j)) != (
            #[trigger] turned_forcing.scope_node(others, k)) by {
                assert(definitions.contains(others[j]) && definitions.contains(others[k]));
                let x = definitions.index_of(others[j]);
                let y = definitions.index_of(others[k]);
                assert(others[j] != others[k]);
                assert(forcing.scope_node(definitions, x) != forcing.scope_node(definitions, y));
            }
        }
        self.lemma_scoped_read_after_write(name, definitions, scope);
        turned.lemma_scoped_read_after_write(name, others, scope);
        let k = choose|k: int|
            0 <= k < n && #[trigger] forcing.scope_node(definitions, k) == Ok::<
                SyntaxNodeModel,
                ErrorModel,
            >(scope);
        assert(definitions.contains(definitions[k]));
        assert(others.to_multiset().count(definitions[k]) > 0);
        assert(others.contains(definitions[k]));
        let j = others.index_of(definitions[k]);
        assert(turned_forcing.scope_node(others, j) == Ok::<SyntaxNodeModel, ErrorModel>(scope));
    }

    /// What is found in one order is found in every order. The other state is valid too.
    proof fn lemma_found_in_other_order(
        self,
        all: Seq<(Seq<char>, ScopedDefinition)>,
        others: Seq<(Seq<char>, ScopedDefinition)>,
        name: Seq<char>,
        scope: SyntaxNodeModel,
    )
        requires
            self.valid(),
            self.scoped_store == defined_by(all),
            all.to_multiset() == others.to_multiset(),
            forall|k: int| 0 <= k < all.len() ==> (#[trigger] all[k]).1.scope is Value,
        ensures
            ({
                let turned = EvaluationState { scoped_store: defined_by(others), ..self };
                &&& turned.valid()
                &&& forall|k: int| 0 <= k < others.len() ==> (#[trigger] others[k]).1.scope is Value
                &&& self.evaluate_scoped(scope, name).0 is Ok ==> turned.evaluate_scoped(
                    scope,
                    name,
                ).0 == self.evaluate_scoped(scope, name).0
            }),
    {
        broadcast use vstd::seq_lib::group_to_multiset_ensures;

        let turned = EvaluationState { scoped_store: defined_by(others), ..self };
        lemma_defined_by(all);
        lemma_defined_by(others);
        assert forall|k: int| 0 <= k < others.len() implies (
        #[trigger] others[k]).1.scope is Value by {
            assert(others.contains(others[k]));
            assert(all.to_multiset().count(others[k]) > 0);
            assert(all.contains(others[k]));
            let j = all.index_of(others[k]);
            assert(all[j] == others[k]);
        }
        assert forall|other: Seq<char>, definition: ScopedDefinition|
            definitions_of(others, other).contains(definition) implies #[trigger] definitions_of(
            all,
            other,
        ).contains(definition) && all.contains((other, definition)) by {
            lemma_definitions_count(all, other, definition);
            lemma_definitions_count(others, other, definition);
        }
        assert forall|other: Seq<char>, definition: ScopedDefinition|
            definitions_of(all, other).contains(definition) implies #[trigger] definitions_of(
            others,
            other,
        ).contains(definition) && all.contains((other, definition)) by {
            lemma_definitions_count(all, other, definition);
            lemma_definitions_count(others, other, definition);
        }
        assert forall|other: Seq<char>| #[trigger]
            turned.scoped_store.contains_key(other) implies turned.scoped_store[other].valid(
            self.store.len(),
        ) by {
            let definitions = definitions_of(others, other);
            assert(definitions.contains(definitions[0]));
            assert(definitions_of(all, other).contains(definitions[0]));
            assert(self.scoped_store.contains_key(other));
            assert forall|k: int| 0 <= k < definitions.len() implies {
                &&& (#[trigger] definitions[k]).scope.below(self.store.len())
                &&& definitions[k].value.below(self.store.len())
                &&& definitions[k].value.direct()
            } by {
                assert(definitions.contains(definitions[k]));
                assert(definitions_of(all, other).contains(definitions[k]));
                let j = definitions_of(all, other).index_of(definitions[k]);
                assert(definitions_of(all, other)[j] == definitions[k]);
            }
        }
        if self.evaluate_scoped(scope, name).0 is Ok {
            let mine = definitions_of(all, name);
            let theirs = definitions_of(others, name);
            assert(mine.to_multiset() =~= theirs.to_multiset()) by {
                assert forall|definition: ScopedDefinition| #[trigger]
                    mine.to_multiset().count(definition) == theirs.to_multiset().count(
                        definition,
                    ) by {
                    lemma_definitions_count(all, name, definition);
                    lemma_definitions_count(others, name, definition);
                }
            }
            assert(self.scoped_store.contains_key(name));
            assert(mine.contains(mine[0]));
            assert(theirs.contains(mine[0]));
            assert forall|k: int| 0 <= k < mine.len() implies (
            #[trigger] mine[k]).scope is Value by {
                assert(mine.contains(mine[k]));
                assert(theirs.contains(mine[k]));
                let j = all.index_of((name, mine[k]));
                assert(all[j].1 == mine[k]);
            }
            assert forall|k: int| 0 <= k < theirs.len() implies (
            #[trigger] theirs[k]).scope is Value by {
                assert(theirs.contains(theirs[k]));
                assert(mine.contains(theirs[k]));
                let j = all.index_of((name, theirs[k]));
                assert(all[j].1 == theirs[k]);
            }
            self.lemma_same_found(turned, name, mine, theirs, scope);
        }
    }

    /// The order in which variables are defined makes no difference to what is found, if the scopes
    /// are plain values: in whatever order the same definitions are added, the same value is found,
    /// or none is.
    pub proof fn lemma_order_of_definitions(
        self,
        all: Seq<(Seq<char>, ScopedDefinition)>,
        others: Seq<(Seq<char>, ScopedDefinition)>,
        name: Seq<char>,
        scope: SyntaxNodeModel,
        value: LazyModel,
    )
        requires
            self.valid(),
            self.scoped_store == defined_by(all),
            all.to_multiset() == others.to_multiset(),
            forall|k: int| 0 <= k < all.len() ==> (#[trigger] all[k]).1.scope is Value,
        ensures
            ({
                let turned = EvaluationState { scoped_store: defined_by(others), ..self };
                self.evaluate_scoped(scope, name).0 == Ok::<LazyModel, ErrorModel>(value)
                    <==> turned.evaluate_scoped(scope, name).0 == Ok::<LazyModel, ErrorModel>(value)
            }),
    {
        let turned = EvaluationState { scoped_store: defined_by(others), ..self };
        self.lemma_found_in_other_order(all, others, name, scope);
        assert(EvaluationState { scoped_store: defined_by(all), ..turned } == self);
        turned.lemma_found_in_other_order(others, all, name, scope);
    }
}

} // verus!
