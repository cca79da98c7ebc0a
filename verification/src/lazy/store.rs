//! The store of thunks, and the variables of syntax nodes.

use vstd::prelude::*;
use vstd::string::*;

use crate::cancellation::CancellationFlag;
use crate::error::Context;
use crate::error::ErrorModel;
use crate::error::ExecutionError;
use crate::functions::Functions;
use crate::identifier::Identifier;
use crate::lazy::EvaluationContext;
use crate::lazy::values::LazyModel;
use crate::lazy::values::LazyValue;
use crate::location::Location;
use crate::table::Table;
use crate::text::decimal;
use crate::values::SyntaxNodeModel;
use crate::values::SyntaxNodeRef;
use crate::values::Value;
use crate::values::ValueModel;

verus! {

/// Where a value comes from.
#[derive(Clone, Copy, Debug, PartialEq, Eq, Structural)]
pub struct DebugInfo(pub Location);

impl View for DebugInfo {
    type V = Location;

    open spec fn view(&self) -> Location {
        self.0
    }
}

impl From<Location> for DebugInfo {
    fn from(value: Location) -> (r: DebugInfo) {
        DebugInfo(value)
    }
}

impl vstd::std_specs::convert::FromSpecImpl<Location> for DebugInfo {
    open spec fn obeys_from_spec() -> bool {
        true
    }

    open spec fn from_spec(value: Location) -> DebugInfo {
        DebugInfo(value)
    }
}

impl DebugInfo {
    pub fn text(&self) -> (r: String)
        ensures
            r@ == self@.shown(),
    {
        self.0.text()
    }
}

/// A variable, which points to a thunk in the store.
#[derive(Clone, Copy, Debug, PartialEq, Eq, Structural)]
pub struct LazyVariable {
    pub store_location: usize,
}

impl LazyVariable {
    pub fn new(store_location: usize) -> (r: LazyVariable)
        ensures
            r.store_location == store_location,
    {
        LazyVariable { store_location }
    }

    pub fn text(&self) -> (r: String)
        ensures
            r@ == LazyModel::Variable(self.store_location).shown(),
    {
        let mut r = "(load ".to_owned();
        r.append(decimal(self.store_location as u128).as_str());
        r.append(")");
        r
    }
}

/// How far a thunk has been evaluated.
pub enum ThunkState {
    Unforced(LazyValue),
    Forcing,
    Forced(Value),
}

/// The model of a `ThunkState`.
#[verifier::ext_equal]
pub enum ThunkStateModel {
    Unforced(LazyModel),
    Forcing,
    Forced(ValueModel),
}

impl View for ThunkState {
    type V = ThunkStateModel;

    open spec fn view(&self) -> ThunkStateModel {
        match self {
            ThunkState::Unforced(value) => ThunkStateModel::Unforced(value@),
            ThunkState::Forcing => ThunkStateModel::Forcing,
            ThunkState::Forced(value) => ThunkStateModel::Forced(value@),
        }
    }
}

impl ThunkStateModel {
    /// A thunk is shown by its state and, outside of its evaluation, what it holds.
    pub open spec fn shown(self) -> Seq<char> {
        match self {
            ThunkStateModel::Unforced(value) => "?{"@ + value.shown() + "}"@,
            ThunkStateModel::Forcing => "~{?}"@,
            ThunkStateModel::Forced(value) => "!{"@ + value.shown() + "}"@,
        }
    }
}

impl ThunkState {
    pub fn text(&self) -> (r: String)
        ensures
            r@ == self@.shown(),
    {
        match self {
            ThunkState::Unforced(value) => {
                let mut r = "?{".to_owned();
                r.append(value.text().as_str());
                r.append("}");
                r
            },
            ThunkState::Forcing => "~{?}".to_owned(),
            ThunkState::Forced(value) => {
                let mut r = "!{".to_owned();
                r.append(value.text().as_str());
                r.append("}");
                r
            },
        }
    }
}

/// A value that is computed when it is first asked for.
pub struct Thunk {
    pub state: ThunkState,
    pub debug_info: DebugInfo,
}

/// The model of a `Thunk`.
#[verifier::ext_equal]
pub struct ThunkModel {
    pub state: ThunkStateModel,
    pub debug_info: Location,
}

impl View for Thunk {
    type V = ThunkModel;

    open spec fn view(&self) -> ThunkModel {
        ThunkModel { state: self.state@, debug_info: self.debug_info@ }
    }
}

impl Thunk {
    pub fn new(value: LazyValue, debug_info: DebugInfo) -> (r: Thunk)
        ensures
            r@ == (ThunkModel {
                state: ThunkStateModel::Unforced(value@),
                debug_info: debug_info@,
            }),
    {
        Thunk { state: ThunkState::Unforced(value), debug_info }
    }
}

/// Holds the thunks of lazy values.
pub struct LazyStore {
    pub elements: Vec<Thunk>,
}

impl View for LazyStore {
    type V = Seq<ThunkModel>;

    open spec fn view(&self) -> Seq<ThunkModel> {
        Seq::new(self.elements@.len(), |i: int| self.elements@[i]@)
    }
}

impl LazyStore {
    pub fn new() -> (r: LazyStore)
        ensures
            r@ == Seq::<ThunkModel>::empty(),
    {
        let r = LazyStore { elements: Vec::new() };
        assert(r@ =~= Seq::<ThunkModel>::empty());
        r
    }

    /// Adds a thunk, and returns the variable that points to it.
    pub fn add(&mut self, value: LazyValue, debug_info: DebugInfo) -> (r: LazyVariable)
        ensures
            r.store_location == old(self)@.len(),
            final(self)@ == old(self)@.push(
                ThunkModel {
                    state: ThunkStateModel::Unforced(value@),
                    debug_info: debug_info@,
                },
            ),
    {
        let store_location = self.elements.len();
        let variable = LazyVariable::new(store_location);
        let thunk = Thunk::new(value, debug_info);
        let ghost added = thunk@;
        self.elements.push(thunk);
        assert(self@ =~= old(self)@.push(added));
        variable
    }
}

/// The values of the variables of one name, per scope.
pub enum ScopedValues {
    Unforced(Vec<(LazyValue, LazyValue, DebugInfo)>),
    Forcing,
    Forced(Table<SyntaxNodeRef, LazyValue>),
}

/// A definition of a scoped variable: the lazy scope and value, and where it was made.
#[verifier::ext_equal]
pub struct ScopedDefinition {
    pub scope: LazyModel,
    pub value: LazyModel,
    pub debug_info: Location,
}

/// The model of `ScopedValues`.
#[verifier::ext_equal]
pub enum ScopedModel {
    Unforced(Seq<ScopedDefinition>),
    Forcing,
    Forced(Map<SyntaxNodeModel, LazyModel>),
}

/// The models of a sequence of definitions.
pub open spec fn definitions_model(pairs: Seq<(LazyValue, LazyValue, DebugInfo)>) -> Seq<
    ScopedDefinition,
> {
    Seq::new(
        pairs.len(),
        |i: int|
            ScopedDefinition { scope: pairs[i].0@, value: pairs[i].1@, debug_info: pairs[i].2@ },
    )
}

impl View for ScopedValues {
    type V = ScopedModel;

    open spec fn view(&self) -> ScopedModel {
        match self {
            ScopedValues::Unforced(pairs) => ScopedModel::Unforced(definitions_model(pairs@)),
            ScopedValues::Forcing => ScopedModel::Forcing,
            ScopedValues::Forced(map) => ScopedModel::Forced(map@),
        }
    }
}

impl ScopedValues {
    /// The values of a variable without definitions.
    pub fn new() -> (r: ScopedValues)
        ensures
            r@ == ScopedModel::Unforced(Seq::empty()),
    {
        let r = ScopedValues::Unforced(Vec::new());
        assert(r@->Unforced_0 =~= Seq::<ScopedDefinition>::empty());
        r
    }
}

/// Holds the scoped variables, with lazy scopes and values.
pub struct LazyScopedVariables {
    pub variables: Table<Identifier, ScopedValues>,
}

impl View for LazyScopedVariables {
    type V = Map<Seq<char>, ScopedModel>;

    open spec fn view(&self) -> Map<Seq<char>, ScopedModel> {
        self.variables@
    }
}

impl LazyVariable {
    /// Evaluates the thunk that this variable points to.
    pub fn evaluate<C: CancellationFlag, F: Functions>(
        &self,
        exec: &mut EvaluationContext<C, F>,
    ) -> (r: Result<Value, ExecutionError>)
        requires
            old(exec)@.valid(),
            self.store_location < old(exec)@.store.len(),
        ensures
            (crate::error::result_model(r), final(exec)@) == old(exec)@.evaluate_variable(
                self.store_location,
            ),
            old(exec)@.leads_to(final(exec)@),
            *final(final(exec).functions) == *final(old(exec).functions),
            *final(final(exec).cancellation_flag) == *final(old(exec).cancellation_flag),
        decreases old(exec)@.pending(), 0int, 1int, 1int,
    {
        LazyStore::evaluate(self, exec)
    }
}

impl LazyStore {
    /// Evaluates the thunk that `variable` points to. An error notes the variable.
    pub fn evaluate<C: CancellationFlag, F: Functions>(
        variable: &LazyVariable,
        exec: &mut EvaluationContext<C, F>,
    ) -> (r: Result<Value, ExecutionError>)
        requires
            old(exec)@.valid(),
            variable.store_location < old(exec)@.store.len(),
        ensures
            (crate::error::result_model(r), final(exec)@) == old(exec)@.evaluate_variable(
                variable.store_location,
            ),
            old(exec)@.leads_to(final(exec)@),
            *final(final(exec).functions) == *final(old(exec).functions),
            *final(final(exec).cancellation_flag) == *final(old(exec).cancellation_flag),
        decreases old(exec)@.pending(), 0int, 1int, 0int,
    {
        let location = variable.store_location;
        let debug_info = exec.store.elements[location].debug_info;
        match Thunk::force(location, exec) {
            Ok(value) => Ok(value),
            Err(e) => {
                let mut note = "via ".to_owned();
                note.append(exec.store.elements[location].state.text().as_str());
                note.append(" at ");
                note.append(debug_info.text().as_str());
                Err(e.with_context(Context::Other(note)))
            },
        }
    }
}

impl Thunk {
    /// Forces the thunk at `location` of the store. What was forced is not evaluated again.
    pub fn force<C: CancellationFlag, F: Functions>(
        location: usize,
        exec: &mut EvaluationContext<C, F>,
    ) -> (r: Result<Value, ExecutionError>)
        requires
            old(exec)@.valid(),
            location < old(exec)@.store.len(),
        ensures
            (crate::error::result_model(r), final(exec)@) == old(exec)@.force(location),
            old(exec)@.leads_to(final(exec)@),
            *final(final(exec).functions) == *final(old(exec).functions),
            *final(final(exec).cancellation_flag) == *final(old(exec).cancellation_flag),
        decreases old(exec)@.pending(), 0int, 0int, 0int,
    {
        let ghost before = exec@;
        let mut state = ThunkState::Forcing;
        std::mem::swap(&mut exec.store.elements[location].state, &mut state);
        assert(exec@ =~= before.with_thunk(location, ThunkStateModel::Forcing));
        proof {
            before.lemma_pending_thunk(location, ThunkStateModel::Forcing);
        }
        let value = match state {
            ThunkState::Unforced(value) => {
                match value.evaluate(exec) {
                    Err(e) => {
                        return Err(e);
                    },
                    Ok(value) => value,
                }
            },
            ThunkState::Forced(value) => value,
            ThunkState::Forcing => {
                assert(exec@ =~= before);
                return Err(
                    ExecutionError::RecursivelyDefinedVariable(
                        exec.store.elements[location].debug_info.text(),
                    ),
                );
            },
        };
        let ghost evaluated = exec@;
        exec.store.elements[location].state = ThunkState::Forced(value.clone());
        proof {
            evaluated.lemma_pending_thunk(location, ThunkStateModel::Forced(value@));
            assert(exec@ =~= evaluated.with_thunk(location, ThunkStateModel::Forced(value@)));
        }
        Ok(value)
    }
}

/// What the scoped variables become when a definition of `name` is added. Definitions can only be
/// added as long as no variable called `name` has been asked for.
pub open spec fn with_definition(
    variables: Map<Seq<char>, ScopedModel>,
    name: Seq<char>,
    definition: ScopedDefinition,
) -> (Result<(), ErrorModel>, Map<Seq<char>, ScopedModel>) {
    if !variables.contains_key(name) {
        (Ok(()), variables.insert(name, ScopedModel::Unforced(seq![definition])))
    } else {
        match variables[name] {
            ScopedModel::Unforced(definitions) => (
                Ok(()),
                variables.insert(name, ScopedModel::Unforced(definitions.push(definition))),
            ),
            ScopedModel::Forcing => (
                Err(ErrorModel::RecursivelyDefinedScopedVariable(name)),
                variables,
            ),
            ScopedModel::Forced(_) => (
                Err(ErrorModel::VariableScopesAlreadyForced(name)),
                variables,
            ),
        }
    }
}

impl LazyScopedVariables {
    pub fn new() -> (r: LazyScopedVariables)
        ensures
            r@ == Map::<Seq<char>, ScopedModel>::empty(),
    {
        LazyScopedVariables { variables: Table::new() }
    }

    /// Adds a definition of `name`, unless a variable of this name has been asked for.
    pub fn add(
        &mut self,
        scope: LazyValue,
        name: Identifier,
        value: LazyValue,
        debug_info: DebugInfo,
    ) -> (r: Result<(), ExecutionError>)
        ensures
            (crate::error::unit_model(r), final(self)@) == with_definition(
                old(self)@,
                name@,
                ScopedDefinition { scope: scope@, value: value@, debug_info: debug_info@ },
            ),
    {
        let ghost before = self@;
        let ghost definition = ScopedDefinition {
            scope: scope@,
            value: value@,
            debug_info: debug_info@,
        };
        let values = match self.variables.insert(name.clone(), ScopedValues::Forcing) {
            Some(values) => values,
            None => ScopedValues::new(),
        };
        match values {
            ScopedValues::Unforced(pairs) => {
                let ghost definitions = definitions_model(pairs@);
                let mut pairs = pairs;
                pairs.push((scope, value, debug_info));
                assert(definitions_model(pairs@) =~= definitions.push(definition));
                proof {
                    if !before.contains_key(name@) {
                        assert(definitions.push(definition) =~= seq![definition]);
                    }
                }
                self.variables.insert(name, ScopedValues::Unforced(pairs));
                assert(self@ =~= before.insert(
                    name@,
                    ScopedModel::Unforced(definitions.push(definition)),
                ));
                Ok(())
            },
            ScopedValues::Forcing => {
                assert(self@ =~= before);
                Err(ExecutionError::RecursivelyDefinedScopedVariable(name.name))
            },
            ScopedValues::Forced(map) => {
                self.variables.insert(name.clone(), ScopedValues::Forced(map));
                assert(self@ =~= before);
                Err(ExecutionError::VariableScopesAlreadyForced(name.name))
            },
        }
    }

    fn undefined(scope: &SyntaxNodeRef, name: &Identifier) -> (r: ExecutionError)
        ensures
            r@ == ErrorModel::UndefinedScopedVariable(scope@.shown() + "."@ + name@),
    {
        let mut text = scope.text();
        text.append(".");
        text.append(name.as_str());
        ExecutionError::UndefinedScopedVariable(text)
    }

    /// The value of the variable `name` of the syntax node `scope`. If this is the first time that
    /// a variable called `name` is asked for, the scopes of all its definitions are evaluated.
    pub fn evaluate<C: CancellationFlag, F: Functions>(
        scope: &SyntaxNodeRef,
        name: &Identifier,
        exec: &mut EvaluationContext<C, F>,
    ) -> (r: Result<LazyValue, ExecutionError>)
        requires
            old(exec)@.valid(),
        ensures
            (crate::error::result_model(r), final(exec)@) == old(exec)@.evaluate_scoped(
                scope@,
                name@,
            ),
            old(exec)@.leads_to(final(exec)@),
            r matches Ok(value) ==> value@.direct() && value@.below(old(exec)@.store.len()),
            *final(final(exec).functions) == *final(old(exec).functions),
            *final(final(exec).cancellation_flag) == *final(old(exec).cancellation_flag),
        decreases old(exec)@.pending(), 0int, 0int, 0int,
    {
        let ghost before = exec@;
        if exec.scoped_store.variables.get(name).is_none() {
            return Err(LazyScopedVariables::undefined(scope, name));
        }
        let taken = exec.scoped_store.variables.insert(name.clone(), ScopedValues::Forcing);
        let values = taken.unwrap();
        let ghost forcing = exec@;
        proof {
            assert(forcing =~= before.with_scoped(name@, ScopedModel::Forcing));
            before.lemma_pending_scoped(name@, ScopedModel::Forcing);
            assert(values@ == before.scoped_store[name@]);
            assert(values@.valid(before.store.len()));
            assert(before.leads_to(forcing));
        }
        match values {
            ScopedValues::Unforced(pairs) => {
                let map = match LazyScopedVariables::force_scopes(name, &pairs, exec) {
                    Err(e) => {
                        return Err(e);
                    },
                    Ok(map) => map,
                };
                let ghost after = exec@;
                let result = match map.get(scope) {
                    None => {
                        return Err(LazyScopedVariables::undefined(scope, name));
                    },
                    Some(value) => value.clone(),
                };
                let ghost forced = map@;
                exec.scoped_store.variables.insert(name.clone(), ScopedValues::Forced(map));
                proof {
                    assert(exec@ =~= after.with_scoped(name@, ScopedModel::Forced(forced)));
                    after.lemma_pending_scoped(name@, ScopedModel::Forced(forced));
                }
                Ok(result)
            },
            ScopedValues::Forcing => {
                assert(exec@.scoped_store =~= before.scoped_store);
                let mut text = "_.".to_owned();
                text.append(name.as_str());
                text.append(" requested on ");
                text.append(scope.text().as_str());
                Err(ExecutionError::RecursivelyDefinedScopedVariable(text))
            },
            ScopedValues::Forced(map) => {
                let result = match map.get(scope) {
                    None => {
                        return Err(LazyScopedVariables::undefined(scope, name));
                    },
                    Some(value) => value.clone(),
                };
                exec.scoped_store.variables.insert(name.clone(), ScopedValues::Forced(map));
                assert(exec@.scoped_store =~= before.scoped_store);
                Ok(result)
            },
        }
    }

    /// Evaluates the scopes of definitions of `name`. No two of them may be the same.
    fn force_scopes<C: CancellationFlag, F: Functions>(
        name: &Identifier,
        pairs: &Vec<(LazyValue, LazyValue, DebugInfo)>,
        exec: &mut EvaluationContext<C, F>,
    ) -> (r: Result<Table<SyntaxNodeRef, LazyValue>, ExecutionError>)
        requires
            old(exec)@.valid(),
            crate::lazy::evaluation::definitions_valid(
                definitions_model(pairs@),
                old(exec)@.store.len(),
            ),
        ensures
            (crate::error::result_model(r), final(exec)@) == old(exec)@.force_scopes(
                name@,
                definitions_model(pairs@),
                0,
                Map::empty(),
                Map::empty(),
            ),
            old(exec)@.leads_to(final(exec)@),
            r matches Ok(map) ==> crate::lazy::evaluation::scopes_valid(
                map@,
                old(exec)@.store.len(),
            ),
            *final(final(exec).functions) == *final(old(exec).functions),
            *final(final(exec).cancellation_flag) == *final(old(exec).cancellation_flag),
        decreases old(exec)@.pending(), 2int, 0int, 0int,
    {
        let ghost before = exec@;
        let ghost definitions = definitions_model(pairs@);
        let mut map: Table<SyntaxNodeRef, LazyValue> = Table::new();
        let mut debug_infos: Table<SyntaxNodeRef, DebugInfo> = Table::new();
        let mut i: usize = 0;
        while i < pairs.len()
            invariant
                *final(exec.functions) == *final(old(exec).functions),
                *final(exec.cancellation_flag) == *final(old(exec).cancellation_flag),
                i <= pairs.len(),
                before == old(exec)@,
                definitions == definitions_model(pairs@),
                crate::lazy::evaluation::definitions_valid(definitions, before.store.len()),
                before.leads_to(exec@),
                crate::lazy::evaluation::scopes_valid(map@, before.store.len()),
                map@.dom() == debug_infos@.dom(),
                before.force_scopes(name@, definitions, 0, Map::empty(), Map::empty())
                    == exec@.force_scopes(name@, definitions, i as int, map@, debug_infos@),
            decreases pairs.len() - i,
        {
            let ghost definition = definitions[i as int];
            assert(definition.scope == pairs@[i as int].0@ && definition.value
                == pairs@[i as int].1@ && definition.debug_info == pairs@[i as int].2@);
            let debug_info = pairs[i].2;
            let node = match pairs[i].0.evaluate_as_syntax_node(exec) {
                Err(e) => {
                    let mut note = "Evaluating scope of variable _.".to_owned();
                    note.append(name.as_str());
                    note.append(" set at ");
                    note.append(debug_info.text().as_str());
                    return Err(e.with_context(Context::Other(note)));
                },
                Ok(node) => node,
            };
            let ghost infos = debug_infos@;
            let prev_debug_info = debug_infos.insert(node.clone(), debug_info);
            if map.get(&node).is_some() {
                assert(infos.contains_key(node@));
                let mut text = node.text();
                text.append(".");
                text.append(name.as_str());
                text.append(" set at ");
                text.append(prev_debug_info.unwrap().text().as_str());
                text.append(" and ");
                text.append(debug_info.text().as_str());
                return Err(ExecutionError::DuplicateVariable(text));
            }
            map.insert(node, pairs[i].1.clone());
            assert(map@.dom() =~= debug_infos@.dom());
            i += 1;
        }
        Ok(map)
    }
}

} // verus!
