//! Execution of statements: building the lazy graph.

use vstd::prelude::*;
use vstd::string::*;

use crate::ast::AddEdgeAttribute;
use crate::ast::AddGraphNodeAttribute;
use crate::ast::Assign;
use crate::ast::Attribute;
use crate::ast::CaptureQuantifier;
use crate::ast::Condition;
use crate::ast::CreateEdge;
use crate::ast::CreateGraphNode;
use crate::ast::DeclareImmutable;
use crate::ast::DeclareMutable;
use crate::ast::Expression;
use crate::ast::ForIn;
use crate::ast::If;
use crate::ast::Print;
use crate::ast::Scan;
use crate::ast::Stanza;
use crate::ast::Statement;
use crate::cancellation::CancellationFlag;
use crate::error::Context;
use crate::error::ExecutionError;
use crate::functions::Functions;
use crate::lazy::execution::ArmModel;
use crate::lazy::execution::NotesModel;
use crate::lazy::execution::Surroundings;
use crate::lazy::expressions::query_capture_value;
use crate::lazy::statements::AttributeModel;
use crate::lazy::statements::LazyAddEdgeAttribute;
use crate::lazy::statements::LazyAddGraphNodeAttribute;
use crate::lazy::statements::LazyAttribute;
use crate::lazy::statements::LazyCreateEdge;
use crate::lazy::statements::LazyPrint;
use crate::lazy::statements::LazyPrintArgument;
use crate::lazy::statements::LazyStatement;
use crate::lazy::statements::PrintModel;
use crate::lazy::store::DebugInfo;
use crate::lazy::values::LazyModel;
use crate::lazy::values::LazyValue;
use crate::lazy::ExecutionContext;
use crate::location::Location;
use crate::regexes::captures;
use crate::regexes::pattern;
use crate::regexes::Span;
use crate::values::Value;
use crate::values::ValueModel;

verus! {

impl DeclareImmutable {
    /// Declares the variable.
    pub fn execute_lazy<C: CancellationFlag, F: Functions>(
        &self,
        exec: &mut ExecutionContext<C, F>,
    ) -> (r: Result<(), ExecutionError>)
        requires
            old(exec)@.valid(),
        ensures
            (crate::error::unit_model(r), final(exec)@) == old(exec)@.perform(
                old(exec).cx(),
                Statement::DeclareImmutable(*self),
            ),
            final(exec).cx() == old(exec).cx(),
            old(exec)@.leads_to(final(exec)@),
            *final(final(exec).eval.functions) == *final(old(exec).eval.functions),
            *final(final(exec).eval.cancellation_flag) == *final(old(exec).eval.cancellation_flag),
    {
        match self.value.evaluate_lazy(exec) {
            Err(e) => Err(e),
            Ok(value) => self.variable.add_lazy(exec, value, false),
        }
    }
}

impl DeclareMutable {
    /// Declares the variable.
    pub fn execute_lazy<C: CancellationFlag, F: Functions>(
        &self,
        exec: &mut ExecutionContext<C, F>,
    ) -> (r: Result<(), ExecutionError>)
        requires
            old(exec)@.valid(),
        ensures
            (crate::error::unit_model(r), final(exec)@) == old(exec)@.perform(
                old(exec).cx(),
                Statement::DeclareMutable(*self),
            ),
            final(exec).cx() == old(exec).cx(),
            old(exec)@.leads_to(final(exec)@),
            *final(final(exec).eval.functions) == *final(old(exec).eval.functions),
            *final(final(exec).eval.cancellation_flag) == *final(old(exec).eval.cancellation_flag),
    {
        match self.value.evaluate_lazy(exec) {
            Err(e) => Err(e),
            Ok(value) => self.variable.add_lazy(exec, value, true),
        }
    }
}

impl Assign {
    /// Assigns the variable.
    pub fn execute_lazy<C: CancellationFlag, F: Functions>(
        &self,
        exec: &mut ExecutionContext<C, F>,
    ) -> (r: Result<(), ExecutionError>)
        requires
            old(exec)@.valid(),
        ensures
            (crate::error::unit_model(r), final(exec)@) == old(exec)@.perform(
                old(exec).cx(),
                Statement::Assign(*self),
            ),
            final(exec).cx() == old(exec).cx(),
            old(exec)@.leads_to(final(exec)@),
            *final(final(exec).eval.functions) == *final(old(exec).eval.functions),
            *final(final(exec).eval.cancellation_flag) == *final(old(exec).eval.cancellation_flag),
    {
        match self.value.evaluate_lazy(exec) {
            Err(e) => Err(e),
            Ok(value) => self.variable.set_lazy(exec, value),
        }
    }
}

impl CreateGraphNode {
    /// Creates the graph node at once, and declares the variable for it.
    pub fn execute_lazy<C: CancellationFlag, F: Functions>(
        &self,
        exec: &mut ExecutionContext<C, F>,
    ) -> (r: Result<(), ExecutionError>)
        requires
            old(exec)@.valid(),
        ensures
            (crate::error::unit_model(r), final(exec)@) == old(exec)@.perform(
                old(exec).cx(),
                Statement::CreateGraphNode(*self),
            ),
            final(exec).cx() == old(exec).cx(),
            old(exec)@.leads_to(final(exec)@),
            *final(final(exec).eval.functions) == *final(old(exec).eval.functions),
            *final(final(exec).eval.cancellation_flag) == *final(old(exec).eval.cancellation_flag),
    {
        let graph_node = exec.eval.graph.add_graph_node();
        let ghost blank = exec.eval.graph@;
        let ghost nodes = exec.eval.graph.graph_nodes@;
        assert(blank.graph_nodes.len() == nodes.len());
        assert(nodes[graph_node.index as int]@ == blank.graph_nodes[graph_node.index as int]);
        let result = self.node.add_debug_attrs(
            &mut exec.eval.graph.graph_nodes[graph_node.index].attributes,
            exec.config,
        );
        proof {
            let attributes = crate::lazy::execution::debug_attributes(
                Map::empty(),
                exec.cx().variable_name_attr,
                exec.cx().location_attr,
                self.node,
            ).1;
            let node = exec.eval.graph.graph_nodes@[graph_node.index as int];
            assert(node@.attributes == attributes);
            assert(node@.outgoing_edges == Map::<usize, Map<Seq<char>, ValueModel>>::empty());
            let before = old(exec)@.eval.graph.graph_nodes;
            assert forall|i: int| 0 <= i < before.len() implies (
            #[trigger] exec.eval.graph@.graph_nodes[i]) == before[i] by {
                assert(nodes[i]@ == blank.graph_nodes[i]);
            }
            assert(exec.eval.graph@.graph_nodes =~= before.push(
                crate::graph::GraphNodeModel {
                    attributes,
                    ..crate::graph::GraphNodeModel::blank()
                },
            ));
        }
        match result {
            Err(e) => Err(e),
            Ok(()) => self.node.add_lazy(
                exec,
                LazyValue::Value(Value::GraphNode(graph_node)),
                false,
            ),
        }
    }
}

impl AddGraphNodeAttribute {
    fn execute_attributes<C: CancellationFlag, F: Functions>(
        &self,
        exec: &mut ExecutionContext<C, F>,
    ) -> (r: Result<Vec<LazyAttribute>, ExecutionError>)
        requires
            old(exec)@.valid(),
        ensures
            ((match r {
                Ok(attributes) => Ok(crate::lazy::statements::attributes_model(attributes@)),
                Err(e) => Err(e@),
            }), final(exec)@) == old(exec)@.node_attributes(
                old(exec).cx(),
                self.attributes@,
                0,
                Seq::empty(),
            ),
            final(exec).cx() == old(exec).cx(),
            old(exec)@.leads_to(final(exec)@),
            r matches Ok(attributes) ==> crate::lazy::attributes::collected_below(
                attributes@,
                final(exec)@.eval.store.len(),
            ),
            *final(final(exec).eval.functions) == *final(old(exec).eval.functions),
            *final(final(exec).eval.cancellation_flag) == *final(old(exec).eval.cancellation_flag),
    {
        let ghost before = exec@;
        let ghost cx = exec.cx();
        let mut attributes: Vec<LazyAttribute> = Vec::new();
        let mut i: usize = 0;
        assert(crate::lazy::statements::attributes_model(attributes@)
            =~= Seq::<AttributeModel>::empty());
        while i < self.attributes.len()
            invariant
                *final(exec.eval.functions) == *final(old(exec).eval.functions),
                *final(exec.eval.cancellation_flag) == *final(old(exec).eval.cancellation_flag),
                i <= self.attributes.len(),
                before == old(exec)@,
                cx == old(exec).cx(),
                exec.cx() == cx,
                before.leads_to(exec@),
                crate::lazy::attributes::collected_below(attributes@, exec@.eval.store.len()),
                before.node_attributes(cx, self.attributes@, 0, Seq::empty())
                    == exec@.node_attributes(
                    cx,
                    self.attributes@,
                    i as int,
                    crate::lazy::statements::attributes_model(attributes@),
                ),
            decreases self.attributes.len() - i,
        {
            match exec.check("executing graph node attributes") {
                Err(e) => {
                    return Err(e);
                },
                Ok(()) => {},
            }
            match self.attributes[i].execute_lazy(exec, &mut attributes) {
                Err(e) => {
                    return Err(e);
                },
                Ok(()) => {},
            }
            i += 1;
        }
        Ok(attributes)
    }
}

impl AddGraphNodeAttribute {
    /// Adds the attributes to the lazy graph.
    pub fn execute_lazy<C: CancellationFlag, F: Functions>(
        &self,
        exec: &mut ExecutionContext<C, F>,
    ) -> (r: Result<(), ExecutionError>)
        requires
            old(exec)@.valid(),
        ensures
            (crate::error::unit_model(r), final(exec)@) == old(exec)@.perform(
                old(exec).cx(),
                Statement::AddGraphNodeAttribute(*self),
            ),
            final(exec).cx() == old(exec).cx(),
            old(exec)@.leads_to(final(exec)@),
            *final(final(exec).eval.functions) == *final(old(exec).eval.functions),
            *final(final(exec).eval.cancellation_flag) == *final(old(exec).eval.cancellation_flag),
    {
        let node = match self.node.evaluate_lazy(exec) {
            Err(e) => {
                return Err(e);
            },
            Ok(node) => node,
        };
        let ghost n = exec@.eval.store.len();
        let attributes = match self.execute_attributes(exec) {
            Err(e) => {
                return Err(e);
            },
            Ok(attributes) => attributes,
        };
        proof {
            node@.lemma_below_monotone(n, exec@.eval.store.len());
        }
        let statement = LazyAddGraphNodeAttribute {
            node,
            attributes,
            debug_info: DebugInfo::from(self.location),
        };
        exec.add_statement(LazyStatement::AddGraphNodeAttribute(statement));
        Ok(())
    }
}

impl CreateEdge {
    /// Adds the edge to the lazy graph.
    pub fn execute_lazy<C: CancellationFlag, F: Functions>(
        &self,
        exec: &mut ExecutionContext<C, F>,
    ) -> (r: Result<(), ExecutionError>)
        requires
            old(exec)@.valid(),
        ensures
            (crate::error::unit_model(r), final(exec)@) == old(exec)@.perform(
                old(exec).cx(),
                Statement::CreateEdge(*self),
            ),
            final(exec).cx() == old(exec).cx(),
            old(exec)@.leads_to(final(exec)@),
            *final(final(exec).eval.functions) == *final(old(exec).eval.functions),
            *final(final(exec).eval.cancellation_flag) == *final(old(exec).eval.cancellation_flag),
    {
        let source = match self.source.evaluate_lazy(exec) {
            Err(e) => {
                return Err(e);
            },
            Ok(source) => source,
        };
        let ghost n = exec@.eval.store.len();
        let sink = match self.sink.evaluate_lazy(exec) {
            Err(e) => {
                return Err(e);
            },
            Ok(sink) => sink,
        };
        proof {
            source@.lemma_below_monotone(n, exec@.eval.store.len());
        }
        let statement = LazyCreateEdge { source, sink, debug_info: DebugInfo::from(self.location) };
        exec.add_statement(LazyStatement::CreateEdge(statement));
        Ok(())
    }
}

impl AddEdgeAttribute {
    /// Adds the attributes to the lazy graph.
    pub fn execute_lazy<C: CancellationFlag, F: Functions>(
        &self,
        exec: &mut ExecutionContext<C, F>,
    ) -> (r: Result<(), ExecutionError>)
        requires
            old(exec)@.valid(),
        ensures
            (crate::error::unit_model(r), final(exec)@) == old(exec)@.perform(
                old(exec).cx(),
                Statement::AddEdgeAttribute(*self),
            ),
            final(exec).cx() == old(exec).cx(),
            old(exec)@.leads_to(final(exec)@),
            *final(final(exec).eval.functions) == *final(old(exec).eval.functions),
            *final(final(exec).eval.cancellation_flag) == *final(old(exec).eval.cancellation_flag),
    {
        let source = match self.source.evaluate_lazy(exec) {
            Err(e) => {
                return Err(e);
            },
            Ok(source) => source,
        };
        let ghost n = exec@.eval.store.len();
        let sink = match self.sink.evaluate_lazy(exec) {
            Err(e) => {
                return Err(e);
            },
            Ok(sink) => sink,
        };
        let ghost m = exec@.eval.store.len();
        let mut attributes: Vec<LazyAttribute> = Vec::new();
        assert(crate::lazy::statements::attributes_model(attributes@)
            =~= Seq::<AttributeModel>::empty());
        match Attribute::execute_all(&self.attributes, exec, &mut attributes) {
            Err(e) => {
                return Err(e);
            },
            Ok(()) => {},
        }
        proof {
            source@.lemma_below_monotone(n, exec@.eval.store.len());
            sink@.lemma_below_monotone(m, exec@.eval.store.len());
        }
        let statement = LazyAddEdgeAttribute {
            source,
            sink,
            attributes,
            debug_info: DebugInfo::from(self.location),
        };
        exec.add_statement(LazyStatement::AddEdgeAttribute(statement));
        Ok(())
    }
}

impl Print {
    /// Adds the printing to the lazy graph.
    pub fn execute_lazy<C: CancellationFlag, F: Functions>(
        &self,
        exec: &mut ExecutionContext<C, F>,
    ) -> (r: Result<(), ExecutionError>)
        requires
            old(exec)@.valid(),
        ensures
            (crate::error::unit_model(r), final(exec)@) == old(exec)@.perform(
                old(exec).cx(),
                Statement::Print(*self),
            ),
            final(exec).cx() == old(exec).cx(),
            old(exec)@.leads_to(final(exec)@),
            *final(final(exec).eval.functions) == *final(old(exec).eval.functions),
            *final(final(exec).eval.cancellation_flag) == *final(old(exec).eval.cancellation_flag),
    {
        let ghost before = exec@;
        let ghost cx = exec.cx();
        let mut arguments: Vec<LazyPrintArgument> = Vec::new();
        let mut i: usize = 0;
        assert(crate::lazy::statements::prints_model(arguments@) =~= Seq::<PrintModel>::empty());
        while i < self.values.len()
            invariant
                *final(exec.eval.functions) == *final(old(exec).eval.functions),
                *final(exec.eval.cancellation_flag) == *final(old(exec).eval.cancellation_flag),
                i <= self.values.len(),
                before == old(exec)@,
                cx == old(exec).cx(),
                exec.cx() == cx,
                before.leads_to(exec@),
                crate::lazy::statements::prints_below(
                    crate::lazy::statements::prints_model(arguments@),
                    exec@.eval.store.len(),
                ),
                before.print_arguments(cx, self.values@, 0, Seq::empty()) == exec@.print_arguments(
                    cx,
                    self.values@,
                    i as int,
                    crate::lazy::statements::prints_model(arguments@),
                ),
            decreases self.values.len() - i,
        {
            let ghost done = crate::lazy::statements::prints_model(arguments@);
            let ghost n = exec@.eval.store.len();
            let argument = match &self.values[i] {
                Expression::StringConstant(expr) => LazyPrintArgument::Text(expr.value.clone()),
                value => match value.evaluate_lazy(exec) {
                    Err(e) => {
                        return Err(e);
                    },
                    Ok(value) => LazyPrintArgument::Value(value),
                },
            };
            let ghost added = argument@;
            arguments.push(argument);
            proof {
                let m = exec@.eval.store.len();
                assert(crate::lazy::statements::prints_model(arguments@) =~= done.push(added));
                assert forall|k: int| 0 <= k < done.push(added).len() implies (
                #[trigger] done.push(added)[k] matches PrintModel::Value(value) ==> value.below(
                    m,
                )) by {
                    if k < done.len() {
                        if let PrintModel::Value(value) = done[k] {
                            value.lemma_below_monotone(n, m);
                        }
                    }
                }
            }
            i += 1;
        }
        let statement = LazyPrint { arguments, debug_info: DebugInfo::from(self.location) };
        exec.add_statement(LazyStatement::Print(statement));
        Ok(())
    }
}

impl Condition {
    /// Whether this condition holds. Its value is evaluated at once.
    pub fn test_eager<C: CancellationFlag, F: Functions>(
        &self,
        exec: &mut ExecutionContext<C, F>,
    ) -> (r: Result<bool, ExecutionError>)
        requires
            old(exec)@.valid(),
        ensures
            ((match r {
                Ok(holds) => Ok(holds),
                Err(e) => Err(e@),
            }), final(exec)@) == old(exec)@.test(old(exec).cx(), *self),
            final(exec).cx() == old(exec).cx(),
            old(exec)@.leads_to(final(exec)@),
            *final(final(exec).eval.functions) == *final(old(exec).eval.functions),
            *final(final(exec).eval.cancellation_flag) == *final(old(exec).eval.cancellation_flag),
    {
        match self {
            Condition::IsSome { value, .. } => match value.evaluate_eager(exec) {
                Err(e) => Err(e),
                Ok(value) => Ok(!value.is_null()),
            },
            Condition::IsNone { value, .. } => match value.evaluate_eager(exec) {
                Err(e) => Err(e),
                Ok(value) => Ok(value.is_null()),
            },
            Condition::Bool { value, .. } => match value.evaluate_eager(exec) {
                Err(e) => Err(e),
                Ok(value) => value.into_boolean(),
            },
        }
    }

    /// Whether all the conditions hold. All are evaluated, up to the first error.
    fn test_all<C: CancellationFlag, F: Functions>(
        conditions: &Vec<Condition>,
        exec: &mut ExecutionContext<C, F>,
    ) -> (r: Result<bool, ExecutionError>)
        requires
            old(exec)@.valid(),
        ensures
            ((match r {
                Ok(holds) => Ok(holds),
                Err(e) => Err(e@),
            }), final(exec)@) == old(exec)@.test_all(old(exec).cx(), conditions@, 0, true),
            final(exec).cx() == old(exec).cx(),
            old(exec)@.leads_to(final(exec)@),
            *final(final(exec).eval.functions) == *final(old(exec).eval.functions),
            *final(final(exec).eval.cancellation_flag) == *final(old(exec).eval.cancellation_flag),
    {
        let ghost before = exec@;
        let ghost cx = exec.cx();
        let mut result = true;
        let mut i: usize = 0;
        while i < conditions.len()
            invariant
                *final(exec.eval.functions) == *final(old(exec).eval.functions),
                *final(exec.eval.cancellation_flag) == *final(old(exec).eval.cancellation_flag),
                i <= conditions.len(),
                before == old(exec)@,
                cx == old(exec).cx(),
                exec.cx() == cx,
                before.leads_to(exec@),
                before.test_all(cx, conditions@, 0, true) == exec@.test_all(
                    cx,
                    conditions@,
                    i as int,
                    result,
                ),
            decreases conditions.len() - i,
        {
            match conditions[i].test_eager(exec) {
                Err(e) => {
                    return Err(e);
                },
                Ok(holds) => {
                    result = result && holds;
                },
            }
            i += 1;
        }
        Ok(result)
    }
}

/// What is noted on an error in a statement of a block.
pub enum BlockNotes {
    Nothing,
    Stanza { stanza_location: Location, source_location: Location, node_kind: String },
    Scan { text: String, pattern: String },
}

impl View for BlockNotes {
    type V = NotesModel;

    open spec fn view(&self) -> NotesModel {
        match self {
            BlockNotes::Nothing => NotesModel::Nothing,
            BlockNotes::Stanza { stanza_location, source_location, node_kind } => {
                NotesModel::Stanza {
                    stanza_location: *stanza_location,
                    source_location: *source_location,
                    node_kind: node_kind@,
                }
            },
            BlockNotes::Scan { text, pattern } => NotesModel::Scan {
                text: text@,
                pattern: pattern@,
            },
        }
    }
}

impl BlockNotes {
    fn note(&self, statement: &Statement, error: ExecutionError) -> (r: ExecutionError)
        ensures
            r@ == self@.noted(*statement, error@),
    {
        match self {
            BlockNotes::Nothing => error,
            BlockNotes::Stanza { stanza_location, source_location, node_kind } => {
                error.with_context(
                    Context::Statement {
                        statement: statement.text(),
                        statement_location: statement.location(),
                        stanza_location: *stanza_location,
                        source_location: *source_location,
                        node_kind: node_kind.clone(),
                    },
                )
            },
            BlockNotes::Scan { text, pattern } => {
                let mut executing = "Executing ".to_owned();
                executing.append(statement.text().as_str());
                let mut matching = "Matching ".to_owned();
                matching.append(text.as_str());
                matching.append(" with arm \"");
                matching.append(pattern.as_str());
                matching.append("\" { ... }");
                error.with_context(Context::Other(executing)).with_context(
                    Context::Other(matching),
                )
            },
        }
    }
}

impl Statement {
    /// Executes this statement, unless the execution is cancelled.
    pub fn execute_lazy<C: CancellationFlag, F: Functions>(
        &self,
        exec: &mut ExecutionContext<C, F>,
    ) -> (r: Result<(), ExecutionError>)
        requires
            old(exec)@.valid(),
        ensures
            (crate::error::unit_model(r), final(exec)@) == old(exec)@.execute(
                old(exec).cx(),
                *self,
            ),
            final(exec).cx() == old(exec).cx(),
            old(exec)@.leads_to(final(exec)@),
            *final(final(exec).eval.functions) == *final(old(exec).eval.functions),
            *final(final(exec).eval.cancellation_flag) == *final(old(exec).eval.cancellation_flag),
        decreases self, 0int,
    {
        match exec.check("executing statement") {
            Err(e) => {
                return Err(e);
            },
            Ok(()) => {},
        }
        match self {
            Statement::DeclareImmutable(statement) => statement.execute_lazy(exec),
            Statement::DeclareMutable(statement) => statement.execute_lazy(exec),
            Statement::Assign(statement) => statement.execute_lazy(exec),
            Statement::CreateGraphNode(statement) => statement.execute_lazy(exec),
            Statement::AddGraphNodeAttribute(statement) => statement.execute_lazy(exec),
            Statement::CreateEdge(statement) => statement.execute_lazy(exec),
            Statement::AddEdgeAttribute(statement) => statement.execute_lazy(exec),
            Statement::Scan(statement) => statement.execute_lazy(exec),
            Statement::Print(statement) => statement.execute_lazy(exec),
            Statement::If(statement) => statement.execute_lazy(exec),
            Statement::ForIn(statement) => statement.execute_lazy(exec),
        }
    }

    /// Executes the statements of a block, up to the first error.
    pub fn execute_block<C: CancellationFlag, F: Functions>(
        statements: &Vec<Statement>,
        at: &str,
        notes: &BlockNotes,
        exec: &mut ExecutionContext<C, F>,
    ) -> (r: Result<(), ExecutionError>)
        requires
            old(exec)@.valid(),
        ensures
            (crate::error::unit_model(r), final(exec)@) == old(exec)@.block(
                old(exec).cx(),
                statements@,
                0,
                at@,
                notes@,
            ),
            final(exec).cx() == old(exec).cx(),
            old(exec)@.leads_to(final(exec)@),
            *final(final(exec).eval.functions) == *final(old(exec).eval.functions),
            *final(final(exec).eval.cancellation_flag) == *final(old(exec).eval.cancellation_flag),
        decreases statements@, 0int,
    {
        let ghost before = exec@;
        let ghost cx = exec.cx();
        let mut i: usize = 0;
        while i < statements.len()
            invariant
                *final(exec.eval.functions) == *final(old(exec).eval.functions),
                *final(exec.eval.cancellation_flag) == *final(old(exec).eval.cancellation_flag),
                i <= statements.len(),
                before == old(exec)@,
                cx == old(exec).cx(),
                exec.cx() == cx,
                before.leads_to(exec@),
                before.block(cx, statements@, 0, at@, notes@) == exec@.block(
                    cx,
                    statements@,
                    i as int,
                    at@,
                    notes@,
                ),
            decreases statements.len() - i,
        {
            match exec.check(at) {
                Err(e) => {
                    return Err(e);
                },
                Ok(()) => {},
            }
            match statements[i].execute_lazy(exec) {
                Err(e) => {
                    return Err(notes.note(&statements[i], e));
                },
                Ok(()) => {},
            }
            i += 1;
        }
        Ok(())
    }
}

impl If {
    /// Executes the first arm whose conditions all hold.
    pub fn execute_lazy<C: CancellationFlag, F: Functions>(
        &self,
        exec: &mut ExecutionContext<C, F>,
    ) -> (r: Result<(), ExecutionError>)
        requires
            old(exec)@.valid(),
        ensures
            (crate::error::unit_model(r), final(exec)@) == old(exec)@.perform(
                old(exec).cx(),
                Statement::If(*self),
            ),
            final(exec).cx() == old(exec).cx(),
            old(exec)@.leads_to(final(exec)@),
            *final(final(exec).eval.functions) == *final(old(exec).eval.functions),
            *final(final(exec).eval.cancellation_flag) == *final(old(exec).eval.cancellation_flag),
        decreases self, 0int,
    {
        let ghost before = exec@;
        let ghost cx = exec.cx();
        let mut i: usize = 0;
        while i < self.arms.len()
            invariant
                *final(exec.eval.functions) == *final(old(exec).eval.functions),
                *final(exec.eval.cancellation_flag) == *final(old(exec).eval.cancellation_flag),
                i <= self.arms.len(),
                before == old(exec)@,
                cx == old(exec).cx(),
                exec.cx() == cx,
                before.leads_to(exec@),
                before.choose_arm(cx, self.arms@, 0) == exec@.choose_arm(cx, self.arms@, i as int),
            decreases self.arms.len() - i,
        {
            let ghost arm = self.arms@[i as int];
            let holds = match Condition::test_all(&self.arms[i].conditions, exec) {
                Err(e) => {
                    return Err(e);
                },
                Ok(holds) => holds,
            };
            if holds {
                exec.enter();
                assert(decreases_to!(self => self.arms));
                assert(decreases_to!(self.arms => self.arms@));
                assert(decreases_to!(self.arms@ => arm));
                assert(decreases_to!(arm => arm.statements));
                assert(decreases_to!(arm.statements => arm.statements@));
                let result = Statement::execute_block(
                    &self.arms[i].statements,
                    "executing if statements",
                    &BlockNotes::Nothing,
                    exec,
                );
                exec.leave();
                return result;
            }
            i += 1;
        }
        Ok(())
    }
}

impl ForIn {
    /// Executes the statements for each element of the list.
    pub fn execute_lazy<C: CancellationFlag, F: Functions>(
        &self,
        exec: &mut ExecutionContext<C, F>,
    ) -> (r: Result<(), ExecutionError>)
        requires
            old(exec)@.valid(),
        ensures
            (crate::error::unit_model(r), final(exec)@) == old(exec)@.perform(
                old(exec).cx(),
                Statement::ForIn(*self),
            ),
            final(exec).cx() == old(exec).cx(),
            old(exec)@.leads_to(final(exec)@),
            *final(final(exec).eval.functions) == *final(old(exec).eval.functions),
            *final(final(exec).eval.cancellation_flag) == *final(old(exec).eval.cancellation_flag),
        decreases self, 1int,
    {
        let values = match self.value.evaluate_list(exec) {
            Err(e) => {
                return Err(e);
            },
            Ok(values) => values,
        };
        exec.enter();
        let result = self.repeat(&values, exec);
        exec.leave();
        result
    }
}

impl ForIn {
    fn repeat<C: CancellationFlag, F: Functions>(
        &self,
        values: &Vec<Value>,
        exec: &mut ExecutionContext<C, F>,
    ) -> (r: Result<(), ExecutionError>)
        requires
            old(exec)@.valid(),
        ensures
            (crate::error::unit_model(r), final(exec)@) == old(exec)@.repeat(
                old(exec).cx(),
                self.variable,
                self.statements@,
                crate::values::values_model(values@),
                0,
            ),
            final(exec).cx() == old(exec).cx(),
            old(exec)@.leads_to(final(exec)@),
            *final(final(exec).eval.functions) == *final(old(exec).eval.functions),
            *final(final(exec).eval.cancellation_flag) == *final(old(exec).eval.cancellation_flag),
        decreases self, 0int,
    {
        let ghost before = exec@;
        let ghost cx = exec.cx();
        let ghost models = crate::values::values_model(values@);
        let mut i: usize = 0;
        while i < values.len()
            invariant
                *final(exec.eval.functions) == *final(old(exec).eval.functions),
                *final(exec.eval.cancellation_flag) == *final(old(exec).eval.cancellation_flag),
                i <= values.len(),
                before == old(exec)@,
                cx == old(exec).cx(),
                exec.cx() == cx,
                before.leads_to(exec@),
                models == crate::values::values_model(values@),
                before.repeat(cx, self.variable, self.statements@, models, 0) == exec@.repeat(
                    cx,
                    self.variable,
                    self.statements@,
                    models,
                    i as int,
                ),
            decreases values.len() - i,
        {
            exec.clear();
            let value = LazyValue::Value(values[i].clone());
            assert(value@ == LazyModel::Value(models[i as int]));
            match self.variable.add_lazy(exec, value, false) {
                Err(e) => {
                    return Err(e);
                },
                Ok(()) => {},
            }
            assert(decreases_to!(self => self.statements));
            assert(decreases_to!(self.statements => self.statements@));
            match Statement::execute_block(
                &self.statements,
                "executing for statements",
                &BlockNotes::Nothing,
                exec,
            ) {
                Err(e) => {
                    return Err(e);
                },
                Ok(()) => {},
            }
            i += 1;
        }
        Ok(())
    }
}

/// An arm of a scan, and what the groups of its regular expression match.
#[derive(Debug, PartialEq, Eq)]
pub struct ArmMatch {
    pub index: usize,
    pub groups: Vec<Option<Span>>,
}

impl View for ArmMatch {
    type V = ArmModel;

    open spec fn view(&self) -> ArmModel {
        ArmModel {
            index: self.index as int,
            groups: crate::regexes::groups_model(self.groups@),
        }
    }
}

/// The model of an arm that matches, if there is one.
pub open spec fn arm_model(arm: Option<ArmMatch>) -> Option<ArmModel> {
    match arm {
        Some(arm) => Some(arm@),
        None => None,
    }
}

/// Whether there is something that the groups match as a whole.
pub open spec fn matches_whole(groups: Seq<Option<Span>>) -> bool {
    groups.len() > 0 && groups[0] is Some
}

impl ArmMatch {
    /// The better of `best`, if there is one, and the arm at position `index`, whose regular
    /// expression has the pattern `pattern` and matches `groups`, if it does match. What comes
    /// first in the text is better, and what was there before is better than what matches at the
    /// same place. No match may be empty.
    pub fn better(
        best: Option<ArmMatch>,
        index: usize,
        pattern: &str,
        groups: Option<Vec<Option<Span>>>,
    ) -> (r: Result<Option<ArmMatch>, ExecutionError>)
        requires
            best matches Some(arm) ==> matches_whole(arm.groups@),
            groups matches Some(groups) ==> matches_whole(groups@),
        ensures
            (match r {
                Ok(arm) => Ok(arm_model(arm)),
                Err(e) => Err(e@),
            }) == crate::lazy::execution::better_arm(
                arm_model(best),
                index as int,
                pattern@,
                match groups {
                    Some(groups) => Some(crate::regexes::groups_model(groups@)),
                    None => None,
                },
            ),
            r matches Ok(Some(arm)) ==> Some(arm) == best || groups == Some(arm.groups)
                && arm.index == index && arm.groups@[0]->Some_0.start
                != arm.groups@[0]->Some_0.end,
    {
        match groups {
            None => Ok(best),
            Some(groups) => {
                let start = groups[0].as_ref().unwrap().start;
                let end = groups[0].as_ref().unwrap().end;
                let arm = ArmMatch { index, groups };
                assert(arm@.whole() == groups@[0]->Some_0@);
                if start == end {
                    let mut note = "for regular expression /".to_owned();
                    note.append(pattern);
                    note.append("/");
                    return Err(ExecutionError::EmptyRegexCapture(note));
                }
                match best {
                    None => Ok(Some(arm)),
                    Some(other) => {
                        assert(other@.whole() == other.groups@[0]->Some_0@);
                        if start < other.groups[0].as_ref().unwrap().start {
                            Ok(Some(arm))
                        } else {
                            Ok(Some(other))
                        }
                    },
                }
            },
        }
    }
}

/// Whether what `arm` holds is a match in `text` that is not empty, of one of `n` arms.
pub open spec fn matched(arm: ArmMatch, text: Seq<char>, n: nat) -> bool {
    &&& arm.index < n
    &&& matches_whole(arm.groups@)
    &&& arm.groups@[0]->Some_0.start < arm.groups@[0]->Some_0.end
    &&& crate::regexes::span_of(arm.groups@[0]->Some_0@, text)
}

impl Scan {
    /// The arm whose regular expression matches first in `text`, with what its groups match.
    fn find_arm<C: CancellationFlag, F: Functions>(
        &self,
        text: &str,
        exec: &mut ExecutionContext<C, F>,
    ) -> (r: Result<Option<ArmMatch>, ExecutionError>)
        requires
            old(exec)@.valid(),
        ensures
            ((match r {
                Ok(arm) => Ok(arm_model(arm)),
                Err(e) => Err(e@),
            }), final(exec)@) == old(exec)@.find_arm(self.arms@, text@, 0, None),
            final(exec).cx() == old(exec).cx(),
            old(exec)@.leads_to(final(exec)@),
            r matches Ok(Some(arm)) ==> matched(arm, text@, self.arms@.len()),
            *final(final(exec).eval.functions) == *final(old(exec).eval.functions),
            *final(final(exec).eval.cancellation_flag) == *final(old(exec).eval.cancellation_flag),
    {
        let ghost before = exec@;
        let mut best: Option<ArmMatch> = None;
        let mut i: usize = 0;
        while i < self.arms.len()
            invariant
                *final(exec.eval.functions) == *final(old(exec).eval.functions),
                *final(exec.eval.cancellation_flag) == *final(old(exec).eval.cancellation_flag),
                i <= self.arms.len(),
                before == old(exec)@,
                exec.cx() == old(exec).cx(),
                before.leads_to(exec@),
                best matches Some(arm) ==> matched(arm, text@, self.arms@.len()),
                before.find_arm(self.arms@, text@, 0, None) == exec@.find_arm(
                    self.arms@,
                    text@,
                    i as int,
                    arm_model(best),
                ),
            decreases self.arms.len() - i,
        {
            match exec.check("processing scan matches") {
                Err(e) => {
                    return Err(e);
                },
                Ok(()) => {},
            }
            let groups = captures(&self.arms[i].regex, text);
            match ArmMatch::better(best, i, pattern(&self.arms[i].regex).as_str(), groups) {
                Err(e) => {
                    return Err(e);
                },
                Ok(better) => {
                    best = better;
                },
            }
            i += 1;
        }
        Ok(best)
    }
}

/// What the groups of a match hold: nothing for those that took no part in it.
pub fn group_strings(groups: &Vec<Option<Span>>) -> (r: Vec<String>)
    ensures
        crate::lazy::strings_model(r@) == crate::lazy::execution::group_texts(
            crate::regexes::groups_model(groups@),
        ),
{
    let mut r: Vec<String> = Vec::new();
    let mut i: usize = 0;
    let ghost models = crate::regexes::groups_model(groups@);
    while i < groups.len()
        invariant
            i <= groups.len(),
            r.len() == i,
            models == crate::regexes::groups_model(groups@),
            forall|k: int|
                0 <= k < i ==> (#[trigger] r@[k])@ == crate::lazy::execution::group_texts(
                    models,
                )[k],
        decreases groups.len() - i,
    {
        match &groups[i] {
            Some(span) => r.push(span.text.clone()),
            None => r.push("".to_owned()),
        }
        i += 1;
    }
    assert(crate::lazy::strings_model(r@) =~= crate::lazy::execution::group_texts(models));
    r
}

impl Scan {
    /// Goes through the string from match to match of the arms.
    pub fn execute_lazy<C: CancellationFlag, F: Functions>(
        &self,
        exec: &mut ExecutionContext<C, F>,
    ) -> (r: Result<(), ExecutionError>)
        requires
            old(exec)@.valid(),
        ensures
            (crate::error::unit_model(r), final(exec)@) == old(exec)@.perform(
                old(exec).cx(),
                Statement::Scan(*self),
            ),
            final(exec).cx() == old(exec).cx(),
            old(exec)@.leads_to(final(exec)@),
            *final(final(exec).eval.functions) == *final(old(exec).eval.functions),
            *final(final(exec).eval.cancellation_flag) == *final(old(exec).eval.cancellation_flag),
        decreases self, 1int,
    {
        let match_string = match self.value.evaluate_eager(exec) {
            Err(e) => {
                return Err(e);
            },
            Ok(value) => match value.into_string() {
                Err(e) => {
                    return Err(e);
                },
                Ok(match_string) => match_string,
            },
        };
        self.scan(match_string.as_str(), exec)
    }
}

impl Scan {
    fn scan<C: CancellationFlag, F: Functions>(
        &self,
        match_string: &str,
        exec: &mut ExecutionContext<C, F>,
    ) -> (r: Result<(), ExecutionError>)
        requires
            old(exec)@.valid(),
        ensures
            (crate::error::unit_model(r), final(exec)@) == old(exec)@.scan(
                old(exec).cx(),
                self.arms@,
                match_string@,
                match_string@,
            ),
            final(exec).cx() == old(exec).cx(),
            old(exec)@.leads_to(final(exec)@),
            *final(final(exec).eval.functions) == *final(old(exec).eval.functions),
            *final(final(exec).eval.cancellation_flag) == *final(old(exec).eval.cancellation_flag),
        decreases self, 0int,
    {
        let ghost before = exec@;
        let ghost cx = exec.cx();
        let mut rest = match_string;
        while !rest.is_empty()
            invariant
                *final(exec.eval.functions) == *final(old(exec).eval.functions),
                *final(exec.eval.cancellation_flag) == *final(old(exec).eval.cancellation_flag),
                before == old(exec)@,
                cx == old(exec).cx(),
                exec.cx() == cx,
                before.leads_to(exec@),
                before.scan(cx, self.arms@, match_string@, match_string@) == exec@.scan(
                    cx,
                    self.arms@,
                    match_string@,
                    rest@,
                ),
            decreases vstd::utf8::encode_utf8(rest@).len(),
        {
            let arm_match = match self.find_arm(rest, exec) {
                Err(e) => {
                    return Err(e);
                },
                Ok(None) => {
                    return Ok(());
                },
                Ok(Some(arm_match)) => arm_match,
            };
            let k = arm_match.index;
            let groups = arm_match.groups;
            let ghost arm = self.arms@[k as int];
            let end = groups[0].as_ref().unwrap().end;
            let mut current_regex_captures = group_strings(&groups);
            std::mem::swap(&mut exec.current_regex_captures, &mut current_regex_captures);
            exec.enter();
            assert(exec.cx() == Surroundings {
                current_regex_captures: crate::lazy::execution::group_texts(
                    crate::regexes::groups_model(groups@),
                ),
                ..cx
            });
            assert(decreases_to!(self => self.arms));
            assert(decreases_to!(self.arms => self.arms@));
            assert(decreases_to!(self.arms@ => arm));
            assert(decreases_to!(arm => arm.statements));
            assert(decreases_to!(arm.statements => arm.statements@));
            let notes = BlockNotes::Scan {
                text: match_string.to_owned(),
                pattern: pattern(&self.arms[k].regex),
            };
            let result = Statement::execute_block(
                &self.arms[k].statements,
                "executing scan statements",
                &notes,
                exec,
            );
            exec.leave();
            std::mem::swap(&mut exec.current_regex_captures, &mut current_regex_captures);
            match result {
                Err(e) => {
                    return Err(e);
                },
                Ok(()) => {},
            }
            let ghost scanned = rest@;
            rest = rest.split_at(end).1;
            proof {
                broadcast use vstd::utf8::encode_utf8_decode_utf8;

                assert(arm_match@.whole() == groups@[0]->Some_0@);
                assert(rest@ == crate::lazy::execution::rest_of(scanned, end as nat));
            }
        }
        Ok(())
    }
}

impl Stanza {
    /// Executes this stanza for the match of the context.
    pub fn execute_lazy<C: CancellationFlag, F: Functions>(
        &self,
        exec: &mut ExecutionContext<C, F>,
    ) -> (r: Result<(), ExecutionError>)
        requires
            old(exec)@.valid(),
        ensures
            (crate::error::unit_model(r), final(exec)@) == old(exec)@.execute_stanza(
                old(exec).cx(),
                *self,
            ),
            final(exec).cx() == old(exec).cx(),
            old(exec)@.leads_to(final(exec)@),
            *final(final(exec).eval.functions) == *final(old(exec).eval.functions),
            *final(final(exec).eval.cancellation_flag) == *final(old(exec).eval.cancellation_flag),
    {
        let ghost cx = exec.cx();
        exec.clear();
        let node = match query_capture_value(
            self.full_match_file_capture_index,
            CaptureQuantifier::One,
            exec.mat,
            &mut exec.eval.graph,
        ) {
            Err(e) => {
                return Err(e);
            },
            Ok(value) => match value.into_syntax_node() {
                Err(e) => {
                    return Err(e);
                },
                Ok(node) => node,
            },
        };
        let mut current_regex_captures: Vec<String> = Vec::new();
        std::mem::swap(&mut exec.current_regex_captures, &mut current_regex_captures);
        assert(exec.cx() == Surroundings { current_regex_captures: Seq::empty(), ..cx });
        let notes = BlockNotes::Stanza {
            stanza_location: self.location,
            source_location: node.position,
            node_kind: node.kind,
        };
        let result = Statement::execute_block(
            &self.statements,
            "executing stanza statements",
            &notes,
            exec,
        );
        std::mem::swap(&mut exec.current_regex_captures, &mut current_regex_captures);
        result
    }
}

} // verus!
