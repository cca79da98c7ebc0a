//! Execution of definitions of variables, and of attributes.

use vstd::prelude::*;
use vstd::string::*;

use crate::ast::Attribute;
use crate::ast::AttributeShorthand;
use crate::ast::AttributeShorthands;
use crate::ast::ScopedVariable;
use crate::ast::Variable;
use crate::cancellation::CancellationFlag;
use crate::error::ErrorModel;
use crate::error::ExecutionError;
use crate::functions::Functions;
use crate::graph::Attributes;
use crate::identifier::Identifier;
use crate::lazy::statements::LazyAttribute;
use crate::lazy::store::DebugInfo;
use crate::lazy::values::LazyModel;
use crate::lazy::values::LazyValue;
use crate::lazy::ExecutionConfig;
use crate::lazy::ExecutionContext;
use crate::location::Location;
use crate::text::decimal;
use crate::values::Value;
use crate::variables::VariableMap;

verus! {

impl ScopedVariable {
    /// Defines this variable, which cannot be mutable.
    pub fn add_lazy<C: CancellationFlag, F: Functions>(
        &self,
        exec: &mut ExecutionContext<C, F>,
        value: LazyValue,
        mutable: bool,
    ) -> (r: Result<(), ExecutionError>)
        requires
            old(exec)@.valid(),
            value@.below(old(exec)@.eval.store.len()),
        ensures
            (crate::error::unit_model(r), final(exec)@) == old(exec)@.define(
                old(exec).cx(),
                *self,
                value@,
                mutable,
            ),
            final(exec).cx() == old(exec).cx(),
            old(exec)@.leads_to(final(exec)@),
            *final(final(exec).eval.functions) == *final(old(exec).eval.functions),
            *final(final(exec).eval.cancellation_flag) == *final(old(exec).eval.cancellation_flag),
    {
        broadcast use LazyModel::lemma_below_monotone;

        if mutable {
            return Err(ExecutionError::CannotDefineMutableScopedVariable(self.text()));
        }
        let scope = match (*self.scope).evaluate_lazy(exec) {
            Err(e) => {
                return Err(e);
            },
            Ok(scope) => scope,
        };
        let variable = exec.add_thunk(value, self.location);
        exec.eval.scoped_store.add(
            scope,
            self.name.clone(),
            variable,
            DebugInfo::from(self.location),
        )
    }

    /// A variable of a syntax node cannot be assigned.
    pub fn set_lazy<C: CancellationFlag, F: Functions>(
        &self,
        _exec: &mut ExecutionContext<C, F>,
        _value: LazyValue,
    ) -> (r: Result<(), ExecutionError>)
        ensures
            crate::error::unit_model(r) == Err::<(), _>(
                ErrorModel::CannotAssignScopedVariable(self.shown()),
            ),
            *final(_exec) == *old(_exec),
    {
        Err(ExecutionError::CannotAssignScopedVariable(self.text()))
    }
}

impl Variable {
    /// Declares this variable.
    pub fn add_lazy<C: CancellationFlag, F: Functions>(
        &self,
        exec: &mut ExecutionContext<C, F>,
        value: LazyValue,
        mutable: bool,
    ) -> (r: Result<(), ExecutionError>)
        requires
            old(exec)@.valid(),
            value@.below(old(exec)@.eval.store.len()),
        ensures
            (crate::error::unit_model(r), final(exec)@) == old(exec)@.add_variable(
                old(exec).cx(),
                *self,
                value@,
                mutable,
            ),
            final(exec).cx() == old(exec).cx(),
            old(exec)@.leads_to(final(exec)@),
            *final(final(exec).eval.functions) == *final(old(exec).eval.functions),
            *final(final(exec).eval.cancellation_flag) == *final(old(exec).eval.cancellation_flag),
    {
        match self {
            Variable::Scoped(variable) => variable.add_lazy(exec, value, mutable),
            Variable::Unscoped(variable) => variable.add_lazy(exec, value, mutable),
        }
    }

    /// Assigns this variable.
    pub fn set_lazy<C: CancellationFlag, F: Functions>(
        &self,
        exec: &mut ExecutionContext<C, F>,
        value: LazyValue,
    ) -> (r: Result<(), ExecutionError>)
        requires
            old(exec)@.valid(),
            value@.below(old(exec)@.eval.store.len()),
        ensures
            (crate::error::unit_model(r), final(exec)@) == old(exec)@.set_variable(
                old(exec).cx(),
                *self,
                value@,
            ),
            final(exec).cx() == old(exec).cx(),
            old(exec)@.leads_to(final(exec)@),
            *final(final(exec).eval.functions) == *final(old(exec).eval.functions),
            *final(final(exec).eval.cancellation_flag) == *final(old(exec).eval.cancellation_flag),
    {
        match self {
            Variable::Scoped(variable) => variable.set_lazy(exec, value),
            Variable::Unscoped(variable) => variable.set_lazy(exec, value),
        }
    }

    /// Adds to the attributes of a graph node that is created as this variable the variable itself
    /// and where it stands, as far as there are attributes for them.
    pub fn add_debug_attrs(&self, attributes: &mut Attributes, config: &ExecutionConfig) -> (r:
        Result<(), ExecutionError>)
        ensures
            (crate::error::unit_model(r), final(attributes)@)
                == crate::lazy::execution::debug_attributes(
                old(attributes)@,
                crate::lazy::name_model(config.variable_name_attr),
                crate::lazy::name_model(config.location_attr),
                *self,
            ),
    {
        match add_debug_attribute(attributes, &config.variable_name_attr, self.text()) {
            Err(e) => Err(e),
            Ok(()) => add_debug_attribute(
                attributes,
                &config.location_attr,
                location_text(self.location()),
            ),
        }
    }
}

fn add_debug_attribute(attributes: &mut Attributes, attr: &Option<Identifier>, text: String) -> (r:
    Result<(), ExecutionError>)
    ensures
        (crate::error::unit_model(r), final(attributes)@)
            == crate::lazy::execution::with_debug_attribute(
            old(attributes)@,
            crate::lazy::name_model(*attr),
            text@,
        ),
{
    match attr {
        None => Ok(()),
        Some(attr) => match attributes.add(attr.clone(), Value::String(text)) {
            Ok(()) => Ok(()),
            Err(_) => Err(ExecutionError::DuplicateAttribute(attr.name.clone())),
        },
    }
}

/// How a location is written in an attribute of a graph node.
fn location_text(location: Location) -> (r: String)
    ensures
        r@ == crate::lazy::execution::location_shown(location),
{
    let mut r = "line ".to_owned();
    r.append(decimal(location.row as u128 + 1).as_str());
    r.append(" column ");
    r.append(decimal(location.column as u128 + 1).as_str());
    r
}

/// Whether the values of the attributes stay below location `n` of the store.
pub open spec fn collected_below(attributes: Seq<LazyAttribute>, n: nat) -> bool {
    crate::lazy::statements::attributes_below(
        crate::lazy::statements::attributes_model(attributes),
        n,
    )
}

/// What stays below a location stays below every later one.
pub proof fn lemma_collected_below(attributes: Seq<LazyAttribute>, n: nat, m: nat)
    requires
        collected_below(attributes, n),
        n <= m,
    ensures
        collected_below(attributes, m),
{
    let models = crate::lazy::statements::attributes_model(attributes);
    assert forall|i: int| 0 <= i < models.len() implies (#[trigger] models[i]).value.below(m) by {
        models[i].value.lemma_below_monotone(n, m);
    }
}

impl Attribute {
    /// Adds what this attribute stands for to `attributes`. If there is an error, what was added
    /// before stays.
    pub fn execute_lazy<C: CancellationFlag, F: Functions>(
        &self,
        exec: &mut ExecutionContext<C, F>,
        attributes: &mut Vec<LazyAttribute>,
    ) -> (r: Result<(), ExecutionError>)
        requires
            old(exec)@.valid(),
            collected_below(old(attributes)@, old(exec)@.eval.store.len()),
        ensures
            (
                crate::error::unit_model(r),
                crate::lazy::statements::attributes_model(final(attributes)@),
                final(exec)@,
            ) == old(exec)@.expand(
                old(exec).cx(),
                *self,
                crate::lazy::statements::attributes_model(old(attributes)@),
            ),
            final(exec).cx() == old(exec).cx(),
            old(exec)@.leads_to(final(exec)@),
            collected_below(final(attributes)@, final(exec)@.eval.store.len()),
            *final(final(exec).eval.functions) == *final(old(exec).eval.functions),
            *final(final(exec).eval.cancellation_flag) == *final(old(exec).eval.cancellation_flag),
        decreases usize::MAX - old(exec).cx().open_shorthands, 1int,
    {
        match exec.check("executing shorthand attributes") {
            Err(e) => {
                return Err(e);
            },
            Ok(()) => {},
        }
        let result = self.value.evaluate_lazy(exec);
        proof {
            AttributeShorthands::lemma_find(
                exec.shorthands.list@,
                self.name@,
                exec.shorthands.list@.len() as int,
            );
            lemma_collected_below(
                attributes@,
                old(exec)@.eval.store.len(),
                exec@.eval.store.len(),
            );
        }
        let value = match result {
            Err(e) => {
                return Err(e);
            },
            Ok(value) => value,
        };
        match exec.shorthands.get(&self.name) {
            Some(shorthand) => shorthand.execute_lazy(exec, attributes, value),
            None => {
                let attribute = LazyAttribute { name: self.name.clone(), value };
                let ghost done = crate::lazy::statements::attributes_model(attributes@);
                let ghost added = attribute@;
                attributes.push(attribute);
                assert(crate::lazy::statements::attributes_model(attributes@) =~= done.push(added));
                Ok(())
            },
        }
    }

    /// Adds what the attributes stand for to `collected`, up to the first error.
    pub fn execute_all<C: CancellationFlag, F: Functions>(
        attributes: &Vec<Attribute>,
        exec: &mut ExecutionContext<C, F>,
        collected: &mut Vec<LazyAttribute>,
    ) -> (r: Result<(), ExecutionError>)
        requires
            old(exec)@.valid(),
            collected_below(old(collected)@, old(exec)@.eval.store.len()),
        ensures
            (
                crate::error::unit_model(r),
                crate::lazy::statements::attributes_model(final(collected)@),
                final(exec)@,
            ) == old(exec)@.expand_all(
                old(exec).cx(),
                attributes@,
                0,
                crate::lazy::statements::attributes_model(old(collected)@),
            ),
            final(exec).cx() == old(exec).cx(),
            old(exec)@.leads_to(final(exec)@),
            collected_below(final(collected)@, final(exec)@.eval.store.len()),
            *final(final(exec).eval.functions) == *final(old(exec).eval.functions),
            *final(final(exec).eval.cancellation_flag) == *final(old(exec).eval.cancellation_flag),
        decreases usize::MAX - old(exec).cx().open_shorthands, 2int,
    {
        let ghost before = exec@;
        let ghost cx = exec.cx();
        let ghost done = crate::lazy::statements::attributes_model(collected@);
        let mut i: usize = 0;
        while i < attributes.len()
            invariant
                *final(exec.eval.functions) == *final(old(exec).eval.functions),
                *final(exec.eval.cancellation_flag) == *final(old(exec).eval.cancellation_flag),
                i <= attributes.len(),
                before == old(exec)@,
                cx == old(exec).cx(),
                done == crate::lazy::statements::attributes_model(old(collected)@),
                exec.cx() == cx,
                before.leads_to(exec@),
                collected_below(collected@, exec@.eval.store.len()),
                before.expand_all(cx, attributes@, 0, done) == exec@.expand_all(
                    cx,
                    attributes@,
                    i as int,
                    crate::lazy::statements::attributes_model(collected@),
                ),
            decreases attributes.len() - i,
        {
            match attributes[i].execute_lazy(exec, collected) {
                Err(e) => {
                    return Err(e);
                },
                Ok(()) => {},
            }
            i += 1;
        }
        Ok(())
    }
}

impl AttributeShorthand {
    /// Adds what this shorthand stands for with the value `value` to `attributes`. If there is an
    /// error, what was added before stays. One that is used inside of itself is expanded again and
    /// again, until there is an error or the cancellation flag says to stop.
    pub fn execute_lazy<C: CancellationFlag, F: Functions>(
        &self,
        exec: &mut ExecutionContext<C, F>,
        attributes: &mut Vec<LazyAttribute>,
        value: LazyValue,
    ) -> (r: Result<(), ExecutionError>)
        requires
            old(exec)@.valid(),
            value@.below(old(exec)@.eval.store.len()),
            collected_below(old(attributes)@, old(exec)@.eval.store.len()),
        ensures
            (
                crate::error::unit_model(r),
                crate::lazy::statements::attributes_model(final(attributes)@),
                final(exec)@,
            ) == old(exec)@.expand_shorthand(
                old(exec).cx(),
                *self,
                value@,
                crate::lazy::statements::attributes_model(old(attributes)@),
            ),
            final(exec).cx() == old(exec).cx(),
            old(exec)@.leads_to(final(exec)@),
            collected_below(final(attributes)@, final(exec)@.eval.store.len()),
            *final(final(exec).eval.functions) == *final(old(exec).eval.functions),
            *final(final(exec).eval.cancellation_flag) == *final(old(exec).eval.cancellation_flag),
        decreases usize::MAX - old(exec).cx().open_shorthands, 0int,
    {
        let open_shorthands = exec.open_shorthands;
        if open_shorthands == usize::MAX {
            return Err(ExecutionError::RecursivelyDefinedShorthand(self.name.name.clone()));
        }
        let ghost cx = exec.cx();
        let mut locals = VariableMap::new();
        std::mem::swap(&mut exec.locals, &mut locals);
        let declared = self.variable.add_lazy(exec, value, false);
        proof {
            lemma_collected_below(
                attributes@,
                old(exec)@.eval.store.len(),
                exec@.eval.store.len(),
            );
        }
        let result = match declared {
            Err(e) => Err(e),
            Ok(()) => {
                exec.open_shorthands = open_shorthands + 1;
                assert(exec.cx() == (crate::lazy::execution::Surroundings {
                    open_shorthands: cx.open_shorthands + 1,
                    ..cx
                }));
                let result = Attribute::execute_all(&self.attributes, exec, attributes);
                exec.open_shorthands = open_shorthands;
                result
            },
        };
        std::mem::swap(&mut exec.locals, &mut locals);
        proof {
            let n = old(exec)@.eval.store.len();
            let m = exec@.eval.store.len();
            assert forall|i: int, name: Seq<char>|
                0 <= i < exec@.locals.len() && #[trigger] exec@.locals[i].contains_key(
                    name,
                ) implies exec@.locals[i][name].value.below(m) by {
                exec@.locals[i][name].value.lemma_below_monotone(n, m);
            }
        }
        result
    }
}

} // verus!
