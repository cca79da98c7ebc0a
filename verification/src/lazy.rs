//! Lazy evaluation of programs.

use vstd::prelude::*;

use crate::ast::AttributeShorthands;
use crate::cancellation::CancellationFlag;
use crate::error::ExecutionError;
use crate::functions::Functions;
use crate::graph::Graph;
use crate::identifier::Identifier;
use crate::lazy::evaluation::ElementKeyModel;
use crate::lazy::evaluation::EvaluationState;
use crate::lazy::execution::ExecutionState;
use crate::lazy::execution::Surroundings;
use crate::lazy::statements::LazyStatement;
use crate::lazy::statements::LazyStatementModel;
use crate::lazy::store::DebugInfo;
use crate::lazy::store::LazyScopedVariables;
use crate::lazy::store::LazyStore;
use crate::lazy::values::LazyModel;
use crate::lazy::values::LazyValue;
use crate::location::Location;
use crate::matching::QueryMatch;
use crate::table::Key;
use crate::table::Table;
use crate::values::GraphNodeRef;
use crate::variables::Globals;
use crate::variables::VariableMap;

pub mod attributes;
pub mod blocks;
pub mod control_laws;
pub mod error_laws;
pub mod evaluation;
pub mod evaluation_laws;
pub mod execution;
pub mod execution_laws;
pub mod expression_laws;
pub mod expressions;
pub mod files;
pub mod frame_laws;
pub mod graph_laws;
pub mod order_laws;
pub mod program_laws;
pub mod result_laws;
pub mod run_laws;
pub mod statement_laws;
pub mod statements;
pub mod store;
pub mod values;
pub mod variable_laws;

verus! {

/// An element of the graph that is created at most once.
#[derive(Debug, PartialEq, Eq)]
pub enum GraphElementKey {
    NodeAttribute(GraphNodeRef, Identifier),
    Edge(GraphNodeRef, GraphNodeRef),
    EdgeAttribute(GraphNodeRef, GraphNodeRef, Identifier),
}

impl View for GraphElementKey {
    type V = ElementKeyModel;

    open spec fn view(&self) -> ElementKeyModel {
        match self {
            GraphElementKey::NodeAttribute(node, name) => {
                ElementKeyModel::NodeAttribute(*node, name@)
            },
            GraphElementKey::Edge(source, sink) => ElementKeyModel::Edge(*source, *sink),
            GraphElementKey::EdgeAttribute(source, sink, name) => {
                ElementKeyModel::EdgeAttribute(*source, *sink, name@)
            },
        }
    }
}

impl Key for GraphElementKey {
    fn same(&self, other: &Self) -> (r: bool) {
        match (self, other) {
            (GraphElementKey::NodeAttribute(a, x), GraphElementKey::NodeAttribute(b, y)) => {
                a.index == b.index && x.same(y)
            },
            (GraphElementKey::Edge(a, s), GraphElementKey::Edge(b, t)) => {
                a.index == b.index && s.index == t.index
            },
            (
                GraphElementKey::EdgeAttribute(a, s, x),
                GraphElementKey::EdgeAttribute(b, t, y),
            ) => { a.index == b.index && s.index == t.index && x.same(y) },
            _ => false,
        }
    }
}

/// The context of evaluation, which evaluates lazy values and the lazy graph.
pub struct EvaluationContext<'a, C, F> {
    pub source: &'a str,
    pub graph: Graph,
    pub functions: &'a mut F,
    pub store: LazyStore,
    pub scoped_store: LazyScopedVariables,
    pub prev_element_debug_info: Table<GraphElementKey, DebugInfo>,
    pub printed: String,
    pub cancellation_flag: &'a mut C,
}

impl<'a, C: CancellationFlag, F: Functions> View for EvaluationContext<'a, C, F> {
    type V = EvaluationState;

    open spec fn view(&self) -> EvaluationState {
        EvaluationState {
            source: self.source@,
            graph: self.graph@,
            functions: self.functions.outcomes(),
            store: self.store@,
            scoped_store: self.scoped_store@,
            prev_element_debug_info: self.prev_element_debug_info@,
            printed: self.printed@,
            cancellation_flag: self.cancellation_flag.answers(),
        }
    }
}

impl<'a, C: CancellationFlag, F: Functions> EvaluationContext<'a, C, F> {
    /// Checks the cancellation flag.
    pub fn check(&mut self, at: &str) -> (r: Result<(), ExecutionError>)
        ensures
            (crate::error::unit_model(r), final(self)@) == old(self)@.check(at@),
            *final(final(self).functions) == *final(old(self).functions),
            *final(final(self).cancellation_flag) == *final(old(self).cancellation_flag),
    {
        match self.cancellation_flag.check(at) {
            Ok(()) => Ok(()),
            Err(e) => Err(ExecutionError::Cancelled(e)),
        }
    }
}

/// What an execution is configured by.
pub struct ExecutionConfig<'a> {
    pub globals: &'a Globals<'a>,
    /// The attribute of a graph node that tells where it was created.
    pub location_attr: Option<Identifier>,
    /// The attribute of a graph node that tells the variable it was created as.
    pub variable_name_attr: Option<Identifier>,
}

/// The context of execution, which executes stanzas to build the lazy graph.
pub struct ExecutionContext<'a, C, F> {
    pub eval: EvaluationContext<'a, C, F>,
    pub config: &'a ExecutionConfig<'a>,
    pub locals: VariableMap,
    pub current_regex_captures: Vec<String>,
    pub mat: &'a QueryMatch,
    pub lazy_graph: Vec<LazyStatement>,
    pub shorthands: &'a AttributeShorthands,
    /// How many shorthands are being expanded, one inside of the other.
    pub open_shorthands: usize,
}

/// The models of a sequence of lazy statements.
pub open spec fn lazy_graph_model(statements: Seq<LazyStatement>) -> Seq<LazyStatementModel> {
    Seq::new(statements.len(), |i: int| statements[i]@)
}

/// The models of a sequence of strings.
pub open spec fn strings_model(strings: Seq<String>) -> Seq<Seq<char>> {
    Seq::new(strings.len(), |i: int| strings[i]@)
}

/// The name of an attribute, if there is one.
pub open spec fn name_model(name: Option<Identifier>) -> Option<Seq<char>> {
    match name {
        Some(name) => Some(name@),
        None => None,
    }
}

impl<'a, C: CancellationFlag, F: Functions> View for ExecutionContext<'a, C, F> {
    type V = ExecutionState;

    open spec fn view(&self) -> ExecutionState {
        ExecutionState {
            eval: self.eval@,
            locals: self.locals@,
            lazy_graph: lazy_graph_model(self.lazy_graph@),
        }
    }
}

impl<'a, C: CancellationFlag, F: Functions> ExecutionContext<'a, C, F> {
    /// What stays the same while a statement is executed.
    pub open spec fn cx(self) -> Surroundings {
        Surroundings {
            globals: self.config.globals.model(),
            location_attr: name_model(self.config.location_attr),
            variable_name_attr: name_model(self.config.variable_name_attr),
            mat: self.mat@,
            current_regex_captures: strings_model(self.current_regex_captures@),
            shorthands: self.shorthands.list@,
            open_shorthands: self.open_shorthands as nat,
        }
    }

    /// Checks the cancellation flag.
    pub fn check(&mut self, at: &str) -> (r: Result<(), ExecutionError>)
        ensures
            (crate::error::unit_model(r), final(self)@) == old(self)@.check(at@),
            final(self).cx() == old(self).cx(),
            old(self)@.valid() ==> old(self)@.leads_to(final(self)@),
            final(self)@.eval.store == old(self)@.eval.store,
            *final(final(self).eval.functions) == *final(old(self).eval.functions),
            *final(final(self).eval.cancellation_flag) == *final(old(self).eval.cancellation_flag),
    {
        self.eval.check(at)
    }

    /// Adds a thunk to the store, and returns the variable that points to it.
    pub fn add_thunk(&mut self, value: LazyValue, location: Location) -> (r: LazyValue)
        requires
            old(self)@.valid(),
            value@.below(old(self)@.eval.store.len()),
        ensures
            r@ == old(self)@.next_variable(),
            r@.below(final(self)@.eval.store.len()),
            r@.direct(),
            final(self)@ == old(self)@.add_thunk(value@, location),
            final(self).cx() == old(self).cx(),
            old(self)@.leads_to(final(self)@),
            *final(final(self).eval.functions) == *final(old(self).eval.functions),
            *final(final(self).eval.cancellation_flag) == *final(old(self).eval.cancellation_flag),
    {
        broadcast use LazyModel::lemma_below_monotone;
        broadcast use LazyStatementModel::lemma_below_monotone;

        let variable = self.eval.store.add(value, DebugInfo::from(location));
        LazyValue::Variable(variable)
    }

    /// Adds a statement to the lazy graph.
    pub fn add_statement(&mut self, statement: LazyStatement)
        requires
            old(self)@.valid(),
            statement@.below(old(self)@.eval.store.len()),
        ensures
            final(self)@ == old(self)@.add_statement(statement@),
            final(self).cx() == old(self).cx(),
            old(self)@.leads_to(final(self)@),
            *final(final(self).eval.functions) == *final(old(self).eval.functions),
            *final(final(self).eval.cancellation_flag) == *final(old(self).eval.cancellation_flag),
    {
        let ghost added = statement@;
        self.lazy_graph.push(statement);
        assert(lazy_graph_model(self.lazy_graph@) =~= lazy_graph_model(old(self).lazy_graph@).push(
            added,
        ));
    }

    /// Enters a block.
    pub fn enter(&mut self)
        requires
            old(self)@.valid(),
        ensures
            final(self)@ == old(self)@.enter(),
            final(self).cx() == old(self).cx(),
            final(self)@.valid(),
            *final(final(self).eval.functions) == *final(old(self).eval.functions),
            *final(final(self).eval.cancellation_flag) == *final(old(self).eval.cancellation_flag),
    {
        self.locals.enter();
    }

    /// Leaves the innermost block.
    pub fn leave(&mut self)
        requires
            old(self)@.valid(),
            old(self)@.locals.len() > 1,
        ensures
            final(self)@ == old(self)@.leave(),
            final(self).cx() == old(self).cx(),
            final(self)@.valid(),
            *final(final(self).eval.functions) == *final(old(self).eval.functions),
            *final(final(self).eval.cancellation_flag) == *final(old(self).eval.cancellation_flag),
    {
        self.locals.leave();
    }

    /// Forgets the local variables of the innermost block.
    pub fn clear(&mut self)
        requires
            old(self)@.valid(),
        ensures
            final(self)@ == old(self)@.clear(),
            final(self).cx() == old(self).cx(),
            old(self)@.leads_to(final(self)@),
            *final(final(self).eval.functions) == *final(old(self).eval.functions),
            *final(final(self).eval.cancellation_flag) == *final(old(self).eval.cancellation_flag),
    {
        self.locals.clear();
    }
}

} // verus!
