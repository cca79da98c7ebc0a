//! What execution means: the state that it works on, and what it makes of it.

use vstd::prelude::*;

use crate::ast::Attribute;
use crate::ast::AttributeShorthand;
use crate::ast::AttributeShorthands;
use crate::ast::CaptureQuantifier;
use crate::ast::Condition;
use crate::ast::Expression;
use crate::ast::File;
use crate::ast::Global;
use crate::ast::IfArm;
use crate::ast::ScanArm;
use crate::ast::ScopedVariable;
use crate::ast::Stanza;
use crate::ast::Statement;
use crate::ast::UnscopedVariable;
use crate::ast::Variable;
use crate::cancellation::Answers;
use crate::error::ContextModel;
use crate::error::ErrorModel;
use crate::functions::Outcomes;
use crate::graph::GraphModel;
use crate::graph::GraphNodeModel;
use crate::lazy::evaluation::EvaluationState;
use crate::lazy::statements::AttributeModel;
use crate::lazy::statements::LazyStatementModel;
use crate::lazy::statements::PrintModel;
use crate::lazy::store::ScopedDefinition;
use crate::lazy::store::ThunkModel;
use crate::lazy::store::ThunkStateModel;
use crate::lazy::values::LazyModel;
use crate::location::Location;
use crate::matching::CaptureModel;
use crate::matching::MatchModel;
use crate::regexes::SpanModel;
use crate::values::GraphNodeRef;
use crate::values::SyntaxNodeModel;
use crate::values::ValueModel;
use crate::variables::LocalModel;

verus! {

/// What stays the same while a statement is executed.
#[verifier::ext_equal]
pub struct Surroundings {
    pub globals: Map<Seq<char>, ValueModel>,
    pub location_attr: Option<Seq<char>>,
    pub variable_name_attr: Option<Seq<char>>,
    pub mat: MatchModel,
    pub current_regex_captures: Seq<Seq<char>>,
    pub shorthands: Seq<AttributeShorthand>,
    /// How many shorthands are being expanded, one inside of the other.
    pub open_shorthands: nat,
}

/// The state that programs are executed in.
#[verifier::ext_equal]
pub struct ExecutionState {
    pub eval: EvaluationState,
    pub locals: Seq<Map<Seq<char>, LocalModel>>,
    pub lazy_graph: Seq<LazyStatementModel>,
}

/// Whether the values of local variables stay below location `n` of the store.
pub open spec fn locals_below(locals: Seq<Map<Seq<char>, LocalModel>>, n: nat) -> bool {
    forall|i: int, name: Seq<char>|
        0 <= i < locals.len() && #[trigger] locals[i].contains_key(name)
            ==> locals[i][name].value.below(n)
}

/// Whether the values in a lazy graph stay below location `n` of the store.
pub open spec fn lazy_graph_below(lazy_graph: Seq<LazyStatementModel>, n: nat) -> bool {
    forall|i: int| 0 <= i < lazy_graph.len() ==> (#[trigger] lazy_graph[i]).below(n)
}

impl ExecutionState {
    /// Every variable that occurs in the state points into the store, and there is a block to
    /// declare variables in.
    pub open spec fn valid(self) -> bool {
        &&& self.eval.valid()
        &&& self.locals.len() > 0
        &&& locals_below(self.locals, self.eval.store.len())
        &&& lazy_graph_below(self.lazy_graph, self.eval.store.len())
    }

    /// Whether `after` is a valid state that execution can lead to from this one: no thunk is
    /// removed, and the blocks are the same.
    pub open spec fn leads_to(self, after: ExecutionState) -> bool {
        &&& after.valid()
        &&& self.eval.store.len() <= after.eval.store.len()
        &&& after.locals.len() == self.locals.len()
    }
}

/// The nodes of the first `n` captures that have the index `index`.
pub open spec fn captured(captures: Seq<CaptureModel>, index: usize, n: int) -> Seq<SyntaxNodeModel>
    decreases n,
{
    if n <= 0 {
        Seq::empty()
    } else if captures[n - 1].index == index {
        captured(captures, index, n - 1).push(captures[n - 1].node)
    } else {
        captured(captures, index, n - 1)
    }
}

/// The graph in which the first `n` of the `nodes` are known.
pub open spec fn with_syntax_nodes(
    graph: GraphModel,
    nodes: Seq<SyntaxNodeModel>,
    n: int,
) -> GraphModel
    decreases n,
{
    if n <= 0 {
        graph
    } else {
        with_syntax_nodes(graph, nodes, n - 1).with_syntax_node(nodes[n - 1])
    }
}

/// The value of a capture, and the graph in which its nodes are known. A capture that occurs at
/// most once is a node or null, and otherwise a list of nodes.
pub open spec fn capture_value(
    index: usize,
    quantifier: CaptureQuantifier,
    mat: MatchModel,
    graph: GraphModel,
) -> (Result<ValueModel, ErrorModel>, GraphModel) {
    let nodes = captured(mat.captures, index, mat.captures.len() as int);
    let undefined = Err(ErrorModel::UndefinedCapture(crate::text::decimal_text(index as nat)));
    match quantifier {
        CaptureQuantifier::Zero => (undefined, graph),
        CaptureQuantifier::One => if nodes.len() == 0 {
            (undefined, graph)
        } else {
            (Ok(ValueModel::SyntaxNode(nodes[0])), graph.with_syntax_node(nodes[0]))
        },
        CaptureQuantifier::ZeroOrOne => if nodes.len() == 0 {
            (Ok(ValueModel::Null), graph)
        } else {
            (Ok(ValueModel::SyntaxNode(nodes[0])), graph.with_syntax_node(nodes[0]))
        },
        _ => (
            Ok(
                ValueModel::List(
                    Seq::new(nodes.len(), |i: int| ValueModel::SyntaxNode(nodes[i])),
                ),
            ),
            with_syntax_nodes(graph, nodes, nodes.len() as int),
        ),
    }
}

impl ExecutionState {
    /// The state with another state of evaluation.
    pub open spec fn with_eval(self, eval: EvaluationState) -> ExecutionState {
        ExecutionState { eval, ..self }
    }

    /// Checks the cancellation flag.
    pub open spec fn check(self, at: Seq<char>) -> (Result<(), ErrorModel>, ExecutionState) {
        let (result, eval) = self.eval.check(at);
        (result, self.with_eval(eval))
    }

    /// Enters a block.
    pub open spec fn enter(self) -> ExecutionState {
        ExecutionState { locals: self.locals.push(Map::empty()), ..self }
    }

    /// Leaves the innermost block.
    pub open spec fn leave(self) -> ExecutionState {
        ExecutionState { locals: self.locals.drop_last(), ..self }
    }

    /// Forgets the local variables of the innermost block.
    pub open spec fn clear(self) -> ExecutionState {
        ExecutionState { locals: self.locals.drop_last().push(Map::empty()), ..self }
    }

    /// Adds a statement to the lazy graph.
    pub open spec fn add_statement(self, statement: LazyStatementModel) -> ExecutionState {
        ExecutionState { lazy_graph: self.lazy_graph.push(statement), ..self }
    }

    /// Adds a thunk to the store.
    pub open spec fn add_thunk(self, value: LazyModel, debug_info: Location) -> ExecutionState {
        self.with_eval(
            EvaluationState {
                store: self.eval.store.push(
                    ThunkModel { state: ThunkStateModel::Unforced(value), debug_info },
                ),
                ..self.eval
            },
        )
    }

    /// The variable that points to the next thunk.
    pub open spec fn next_variable(self) -> LazyModel {
        LazyModel::Variable(self.eval.store.len() as usize)
    }

    /// Declares a variable of the innermost block. It may not have the name of a global variable or
    /// of another variable of the block. Its value is put into the store.
    pub open spec fn declare(
        self,
        cx: Surroundings,
        variable: UnscopedVariable,
        value: LazyModel,
        mutable: bool,
    ) -> (Result<(), ErrorModel>, ExecutionState) {
        let name = variable.name@;
        if cx.globals.contains_key(name) {
            (Err(ErrorModel::DuplicateVariable(" global "@ + name)), self)
        } else {
            let after = self.add_thunk(value, variable.location);
            if self.locals.last().contains_key(name) {
                (Err(ErrorModel::DuplicateVariable(" local "@ + name)), after)
            } else {
                let local = LocalModel { value: self.next_variable(), mutable };
                (
                    Ok(()),
                    ExecutionState {
                        locals: self.locals.drop_last().push(
                            self.locals.last().insert(name, local),
                        ),
                        ..after
                    },
                )
            }
        }
    }

    /// Assigns the innermost variable of a name, which must be declared as mutable. The value is
    /// put into the store.
    pub open spec fn assign(
        self,
        cx: Surroundings,
        variable: UnscopedVariable,
        value: LazyModel,
    ) -> (Result<(), ErrorModel>, ExecutionState) {
        let name = variable.name@;
        if cx.globals.contains_key(name) {
            (Err(ErrorModel::CannotAssignImmutableVariable(" global "@ + name)), self)
        } else {
            let after = self.add_thunk(value, variable.location);
            match crate::variables::assigned(self.locals, name, self.next_variable()) {
                Ok(locals) => (Ok(()), ExecutionState { locals, ..after }),
                Err(_) => (
                    Err(
                        if crate::variables::lookup(self.locals, name) is Some {
                            ErrorModel::CannotAssignImmutableVariable(name)
                        } else {
                            ErrorModel::UndefinedVariable(name)
                        },
                    ),
                    after,
                ),
            }
        }
    }

    /// The value of a variable that is not scoped: that of the global variable, if there is one,
    /// and else that of the innermost local variable.
    pub open spec fn read(self, cx: Surroundings, variable: UnscopedVariable) -> Result<
        LazyModel,
        ErrorModel,
    > {
        let name = variable.name@;
        if cx.globals.contains_key(name) {
            Ok(LazyModel::Value(cx.globals[name]))
        } else {
            match crate::variables::lookup(self.locals, name) {
                Some(local) => Ok(local.value),
                None => Err(ErrorModel::UndefinedVariable(name)),
            }
        }
    }

    /// Turns an expression into a lazy value.
    pub open spec fn evaluate_lazy(self, cx: Surroundings, expression: Expression) -> (
        Result<LazyModel, ErrorModel>,
        ExecutionState,
    )
        decreases expression, 0int,
    {
        match expression {
            Expression::FalseLiteral => (
                Ok(LazyModel::Value(ValueModel::Boolean(false))),
                self,
            ),
            Expression::NullLiteral => (Ok(LazyModel::Value(ValueModel::Null)), self),
            Expression::TrueLiteral => (Ok(LazyModel::Value(ValueModel::Boolean(true))), self),
            Expression::IntegerConstant(e) => (
                Ok(LazyModel::Value(ValueModel::Integer(e.value))),
                self,
            ),
            Expression::StringConstant(e) => (
                Ok(LazyModel::Value(ValueModel::String(e.value@))),
                self,
            ),
            Expression::ListLiteral(e) => {
                let (result, after) = self.evaluate_lazy_all(
                    cx,
                    e.elements@,
                    0,
                    Seq::empty(),
                );
                (
                    match result {
                        Err(e) => Err(e),
                        Ok(values) => Ok(LazyModel::List(values)),
                    },
                    after,
                )
            },
            Expression::SetLiteral(e) => {
                let (result, after) = self.evaluate_lazy_all(
                    cx,
                    e.elements@,
                    0,
                    Seq::empty(),
                );
                (
                    match result {
                        Err(e) => Err(e),
                        Ok(values) => Ok(LazyModel::LazySet(values)),
                    },
                    after,
                )
            },
            Expression::ListComprehension(e) => {
                let (list, before) = self.evaluate_list(cx, *e.value);
                match list {
                    Err(e) => (Err(e), before),
                    Ok(list) => {
                        let (result, after) = before.enter().comprehend(
                            cx,
                            "executing list comprehension values"@,
                            e.variable,
                            *e.element,
                            list,
                            0,
                            Seq::empty(),
                        );
                        (
                            match result {
                                Err(e) => Err(e),
                                Ok(values) => Ok(LazyModel::List(values)),
                            },
                            after.leave(),
                        )
                    },
                }
            },
            Expression::SetComprehension(e) => {
                let (list, before) = self.evaluate_list(cx, *e.value);
                match list {
                    Err(e) => (Err(e), before),
                    Ok(list) => {
                        let (result, after) = before.enter().comprehend(
                            cx,
                            "executing set comprehension values"@,
                            e.variable,
                            *e.element,
                            list,
                            0,
                            Seq::empty(),
                        );
                        (
                            match result {
                                Err(e) => Err(e),
                                Ok(values) => Ok(LazyModel::LazySet(values)),
                            },
                            after.leave(),
                        )
                    },
                }
            },
            Expression::Capture(e) => {
                let (result, graph) = capture_value(
                    e.file_capture_index,
                    e.quantifier,
                    cx.mat,
                    self.eval.graph,
                );
                (
                    match result {
                        Err(e) => Err(e),
                        Ok(value) => Ok(LazyModel::Value(value)),
                    },
                    self.with_eval(EvaluationState { graph, ..self.eval }),
                )
            },
            Expression::Variable(Variable::Scoped(e)) => {
                let (scope, after) = self.evaluate_lazy(cx, *e.scope);
                (
                    match scope {
                        Err(e) => Err(e),
                        Ok(scope) => Ok(LazyModel::ScopedVariable(Box::new(scope), e.name@)),
                    },
                    after,
                )
            },
            Expression::Variable(Variable::Unscoped(e)) => (self.read(cx, e), self),
            Expression::Call(e) => {
                let (result, after) = self.evaluate_lazy_all(
                    cx,
                    e.parameters@,
                    0,
                    Seq::empty(),
                );
                (
                    match result {
                        Err(e) => Err(e),
                        Ok(values) => Ok(LazyModel::Call(e.function@, values)),
                    },
                    after,
                )
            },
            Expression::RegexCapture(e) => (
                if e.match_index < cx.current_regex_captures.len() {
                    Ok(
                        LazyModel::Value(
                            ValueModel::String(cx.current_regex_captures[e.match_index as int]),
                        ),
                    )
                } else {
                    Err(
                        ErrorModel::UndefinedRegexCapture(
                            "$"@ + crate::text::decimal_text(e.match_index as nat),
                        ),
                    )
                },
                self,
            ),
        }
    }

    /// Turns the `expressions` from position `i` on into lazy values, one after the other, up to
    /// the first error. The results come after those in `done`.
    pub open spec fn evaluate_lazy_all(
        self,
        cx: Surroundings,
        expressions: Seq<Expression>,
        i: int,
        done: Seq<LazyModel>,
    ) -> (Result<Seq<LazyModel>, ErrorModel>, ExecutionState)
        decreases expressions, expressions.len() - i,
    {
        if i < 0 || i >= expressions.len() {
            (Ok(done), self)
        } else {
            let (result, after) = self.evaluate_lazy(cx, expressions[i]);
            match result {
                Err(e) => (Err(e), after),
                Ok(value) => after.evaluate_lazy_all(cx, expressions, i + 1, done.push(value)),
            }
        }
    }

    /// Turns `element` into a lazy value for each of the `values` from position `i` on, with the
    /// variable declared as that value in a block of its own.
    pub open spec fn comprehend(
        self,
        cx: Surroundings,
        at: Seq<char>,
        variable: UnscopedVariable,
        element: Expression,
        values: Seq<ValueModel>,
        i: int,
        done: Seq<LazyModel>,
    ) -> (Result<Seq<LazyModel>, ErrorModel>, ExecutionState)
        decreases element, values.len() - i + 1,
    {
        if i < 0 || i >= values.len() {
            (Ok(done), self)
        } else {
            let (checked, state) = self.check(at);
            match checked {
                Err(e) => (Err(e), state),
                Ok(_) => {
                    let (declared, block) = state.clear().declare(
                        cx,
                        variable,
                        LazyModel::Value(values[i]),
                        false,
                    );
                    match declared {
                        Err(e) => (Err(e), block),
                        Ok(_) => {
                            let (result, after) = block.evaluate_lazy(cx, element);
                            match result {
                                Err(e) => (Err(e), after),
                                Ok(value) => after.comprehend(
                                    cx,
                                    at,
                                    variable,
                                    element,
                                    values,
                                    i + 1,
                                    done.push(value),
                                ),
                            }
                        },
                    }
                },
            }
        }
    }

    /// Evaluates an expression at once.
    pub open spec fn evaluate_eager(self, cx: Surroundings, expression: Expression) -> (
        Result<ValueModel, ErrorModel>,
        ExecutionState,
    )
        decreases expression, 1int,
    {
        let (result, state) = self.evaluate_lazy(cx, expression);
        match result {
            Err(e) => (Err(e), state),
            Ok(value) => {
                let (result, eval) = state.eval.evaluate(value);
                (result, state.with_eval(eval))
            },
        }
    }

    /// Evaluates an expression at once, which must be a list.
    pub open spec fn evaluate_list(self, cx: Surroundings, expression: Expression) -> (
        Result<Seq<ValueModel>, ErrorModel>,
        ExecutionState,
    )
        decreases expression, 2int,
    {
        let (result, after) = self.evaluate_eager(cx, expression);
        (
            match result {
                Err(e) => Err(e),
                Ok(value) => value.into_list(),
            },
            after,
        )
    }

    /// Defines a variable of a syntax node, which cannot be mutable. Its value is put into the
    /// store.
    pub open spec fn define(
        self,
        cx: Surroundings,
        variable: ScopedVariable,
        value: LazyModel,
        mutable: bool,
    ) -> (Result<(), ErrorModel>, ExecutionState) {
        if mutable {
            (Err(ErrorModel::CannotDefineMutableScopedVariable(variable.shown())), self)
        } else {
            let (scope, state) = self.evaluate_lazy(cx, *variable.scope);
            match scope {
                Err(e) => (Err(e), state),
                Ok(scope) => {
                    let after = state.add_thunk(value, variable.location);
                    let (result, scoped_store) = crate::lazy::store::with_definition(
                        after.eval.scoped_store,
                        variable.name@,
                        ScopedDefinition {
                            scope,
                            value: state.next_variable(),
                            debug_info: variable.location,
                        },
                    );
                    (
                        result,
                        after.with_eval(EvaluationState { scoped_store, ..after.eval }),
                    )
                },
            }
        }
    }

    /// Declares a variable.
    pub open spec fn add_variable(
        self,
        cx: Surroundings,
        variable: Variable,
        value: LazyModel,
        mutable: bool,
    ) -> (Result<(), ErrorModel>, ExecutionState) {
        match variable {
            Variable::Scoped(v) => self.define(cx, v, value, mutable),
            Variable::Unscoped(v) => self.declare(cx, v, value, mutable),
        }
    }

    /// Assigns a variable, which cannot be scoped.
    pub open spec fn set_variable(
        self,
        cx: Surroundings,
        variable: Variable,
        value: LazyModel,
    ) -> (Result<(), ErrorModel>, ExecutionState) {
        match variable {
            Variable::Scoped(v) => (Err(ErrorModel::CannotAssignScopedVariable(v.shown())), self),
            Variable::Unscoped(v) => self.assign(cx, v, value),
        }
    }
}

/// What is noted on an error in a statement of a block.
#[verifier::ext_equal]
pub enum NotesModel {
    Nothing,
    /// The statement and where it stands, and the node that the stanza matched.
    Stanza { stanza_location: Location, source_location: Location, node_kind: Seq<char> },
    /// The statement, and what was scanned with which regular expression.
    Scan { text: Seq<char>, pattern: Seq<char> },
}

impl NotesModel {
    /// An error in a statement, with the notes.
    pub open spec fn noted(self, statement: Statement, error: ErrorModel) -> ErrorModel {
        match self {
            NotesModel::Nothing => error,
            NotesModel::Stanza { stanza_location, source_location, node_kind } => error.within(
                ContextModel::Statement {
                    statement: statement.shown(),
                    statement_location: statement.at(),
                    stanza_location,
                    source_location,
                    node_kind,
                },
            ),
            NotesModel::Scan { text, pattern } => error.within(
                ContextModel::Other("Executing "@ + statement.shown()),
            ).within(
                ContextModel::Other(
                    "Matching "@ + text + " with arm \""@ + pattern + "\" { ... }"@,
                ),
            ),
        }
    }
}

/// What is left of `text` after the first `end` bytes.
pub open spec fn rest_of(text: Seq<char>, end: nat) -> Seq<char> {
    let bytes = vstd::utf8::encode_utf8(text);
    vstd::utf8::decode_utf8(bytes.subrange(end as int, bytes.len() as int))
}

/// An arm of a scan, and what the groups of its regular expression match.
#[verifier::ext_equal]
pub struct ArmModel {
    pub index: int,
    pub groups: Seq<Option<SpanModel>>,
}

impl ArmModel {
    /// What is matched as a whole.
    pub open spec fn whole(self) -> SpanModel {
        self.groups[0]->Some_0
    }
}

/// The better of `best`, if there is one, and the arm at position `index`, whose regular expression
/// has the pattern `pattern` and matches `groups`, if it does match. What comes first in the text
/// is better, and what was there before is better than what matches at the same place. No match may
/// be empty.
pub open spec fn better_arm(
    best: Option<ArmModel>,
    index: int,
    pattern: Seq<char>,
    groups: Option<Seq<Option<SpanModel>>>,
) -> Result<Option<ArmModel>, ErrorModel> {
    match groups {
        None => Ok(best),
        Some(groups) => {
            let arm = ArmModel { index, groups };
            if arm.whole().start == arm.whole().end {
                Err(
                    ErrorModel::EmptyRegexCapture("for regular expression /"@ + pattern + "/"@),
                )
            } else {
                match best {
                    None => Ok(Some(arm)),
                    Some(other) => if arm.whole().start < other.whole().start {
                        Ok(Some(arm))
                    } else {
                        Ok(Some(other))
                    },
                }
            }
        },
    }
}

/// What the groups of a match hold: nothing for those that took no part in it.
pub open spec fn group_texts(groups: Seq<Option<SpanModel>>) -> Seq<Seq<char>> {
    Seq::new(
        groups.len(),
        |i: int|
            match groups[i] {
                Some(span) => span.text,
                None => ""@,
            },
    )
}

/// How a location is written in an attribute of a graph node.
pub open spec fn location_shown(location: Location) -> Seq<char> {
    "line "@ + crate::text::decimal_text((location.row + 1) as nat) + " column "@
        + crate::text::decimal_text((location.column + 1) as nat)
}

/// What the attributes of a graph node become when a string is added under `attr`, if there is
/// such an attribute. Tells by an error that it was set before.
pub open spec fn with_debug_attribute(
    attributes: Map<Seq<char>, ValueModel>,
    attr: Option<Seq<char>>,
    text: Seq<char>,
) -> (Result<(), ErrorModel>, Map<Seq<char>, ValueModel>) {
    match attr {
        None => (Ok(()), attributes),
        Some(attr) => (
            if attributes.contains_key(attr) {
                Err(ErrorModel::DuplicateAttribute(attr))
            } else {
                Ok(())
            },
            attributes.insert(attr, ValueModel::String(text)),
        ),
    }
}

/// What the attributes of a graph node become when the variable that it is created as is added,
/// and then where that stands.
pub open spec fn debug_attributes(
    attributes: Map<Seq<char>, ValueModel>,
    variable_name_attr: Option<Seq<char>>,
    location_attr: Option<Seq<char>>,
    variable: Variable,
) -> (Result<(), ErrorModel>, Map<Seq<char>, ValueModel>) {
    let (result, named) = with_debug_attribute(attributes, variable_name_attr, variable.shown());
    match result {
        Err(e) => (Err(e), named),
        Ok(_) => with_debug_attribute(named, location_attr, location_shown(variable.at())),
    }
}

impl ExecutionState {
    /// What an attribute stands for, itself or what its shorthand stands for, is added to `done`.
    /// If there is an error, what was added before stays.
    pub open spec fn expand(
        self,
        cx: Surroundings,
        attribute: Attribute,
        done: Seq<AttributeModel>,
    ) -> (Result<(), ErrorModel>, Seq<AttributeModel>, ExecutionState)
        decreases usize::MAX - cx.open_shorthands, 1int, 0int,
    {
        let name = attribute.name@;
        let (checked, state) = self.check("executing shorthand attributes"@);
        match checked {
            Err(e) => (Err(e), done, state),
            Ok(_) => {
                let (value, after) = state.evaluate_lazy(cx, attribute.value);
                match value {
                    Err(e) => (Err(e), done, after),
                    Ok(value) => {
                        let position = AttributeShorthands::position(cx.shorthands, name);
                        if position < 0 {
                            (Ok(()), done.push(AttributeModel { name, value }), after)
                        } else {
                            after.expand_shorthand(cx, cx.shorthands[position], value, done)
                        }
                    },
                }
            },
        }
    }

    /// What a shorthand stands for if it has the value `value` is added to `done`. Its attributes
    /// see no local variables but that of the shorthand. A shorthand that is used inside of itself
    /// is expanded again and again, up to the first error, such as that the cancellation flag says
    /// to stop. If so many are open that they cannot be counted any more, that is an error too.
    pub open spec fn expand_shorthand(
        self,
        cx: Surroundings,
        shorthand: AttributeShorthand,
        value: LazyModel,
        done: Seq<AttributeModel>,
    ) -> (Result<(), ErrorModel>, Seq<AttributeModel>, ExecutionState)
        decreases usize::MAX - cx.open_shorthands, 0int, 0int,
    {
        if cx.open_shorthands >= usize::MAX {
            (Err(ErrorModel::RecursivelyDefinedShorthand(shorthand.name@)), done, self)
        } else {
            let fresh = ExecutionState { locals: seq![Map::empty()], ..self };
            let (declared, state) = fresh.declare(cx, shorthand.variable, value, false);
            let (result, all, after) = match declared {
                Err(e) => (Err(e), done, state),
                Ok(_) => state.expand_all(
                    Surroundings { open_shorthands: cx.open_shorthands + 1, ..cx },
                    shorthand.attributes@,
                    0,
                    done,
                ),
            };
            (result, all, ExecutionState { locals: self.locals, ..after })
        }
    }

    /// What the attributes from position `i` on stand for is added to `done`, up to the first
    /// error.
    pub open spec fn expand_all(
        self,
        cx: Surroundings,
        attributes: Seq<Attribute>,
        i: int,
        done: Seq<AttributeModel>,
    ) -> (Result<(), ErrorModel>, Seq<AttributeModel>, ExecutionState)
        decreases usize::MAX - cx.open_shorthands, 2int, attributes.len() - i,
    {
        if i < 0 || i >= attributes.len() {
            (Ok(()), done, self)
        } else {
            let (result, more, after) = self.expand(cx, attributes[i], done);
            match result {
                Err(e) => (Err(e), more, after),
                Ok(_) => after.expand_all(cx, attributes, i + 1, more),
            }
        }
    }

    /// What the attributes of a graph node from position `i` on stand for.
    pub open spec fn node_attributes(
        self,
        cx: Surroundings,
        attributes: Seq<Attribute>,
        i: int,
        done: Seq<AttributeModel>,
    ) -> (Result<Seq<AttributeModel>, ErrorModel>, ExecutionState)
        decreases attributes.len() - i,
    {
        if i < 0 || i >= attributes.len() {
            (Ok(done), self)
        } else {
            let (checked, state) = self.check("executing graph node attributes"@);
            match checked {
                Err(e) => (Err(e), state),
                Ok(_) => {
                    let (result, more, after) = state.expand(cx, attributes[i], done);
                    match result {
                        Err(e) => (Err(e), after),
                        Ok(_) => after.node_attributes(cx, attributes, i + 1, more),
                    }
                },
            }
        }
    }

    /// What a print statement prints for its arguments from position `i` on. A string is printed
    /// as it is.
    pub open spec fn print_arguments(
        self,
        cx: Surroundings,
        values: Seq<Expression>,
        i: int,
        done: Seq<PrintModel>,
    ) -> (Result<Seq<PrintModel>, ErrorModel>, ExecutionState)
        decreases values.len() - i,
    {
        if i < 0 || i >= values.len() {
            (Ok(done), self)
        } else if values[i] is StringConstant {
            self.print_arguments(
                cx,
                values,
                i + 1,
                done.push(PrintModel::Text(values[i]->StringConstant_0.value@)),
            )
        } else {
            let (result, after) = self.evaluate_lazy(cx, values[i]);
            match result {
                Err(e) => (Err(e), after),
                Ok(value) => after.print_arguments(
                    cx,
                    values,
                    i + 1,
                    done.push(PrintModel::Value(value)),
                ),
            }
        }
    }

    /// Whether a condition holds. Its value is evaluated at once.
    pub open spec fn test(self, cx: Surroundings, condition: Condition) -> (
        Result<bool, ErrorModel>,
        ExecutionState,
    ) {
        match condition {
            Condition::IsSome { value, .. } => {
                let (result, after) = self.evaluate_eager(cx, value);
                (
                    match result {
                        Err(e) => Err(e),
                        Ok(value) => Ok(!(value is Null)),
                    },
                    after,
                )
            },
            Condition::IsNone { value, .. } => {
                let (result, after) = self.evaluate_eager(cx, value);
                (
                    match result {
                        Err(e) => Err(e),
                        Ok(value) => Ok(value is Null),
                    },
                    after,
                )
            },
            Condition::Bool { value, .. } => {
                let (result, after) = self.evaluate_eager(cx, value);
                (
                    match result {
                        Err(e) => Err(e),
                        Ok(value) => value.into_boolean(),
                    },
                    after,
                )
            },
        }
    }

    /// Whether `so_far` is true and the conditions from position `i` on hold. All are evaluated, up
    /// to the first error.
    pub open spec fn test_all(
        self,
        cx: Surroundings,
        conditions: Seq<Condition>,
        i: int,
        so_far: bool,
    ) -> (Result<bool, ErrorModel>, ExecutionState)
        decreases conditions.len() - i,
    {
        if i < 0 || i >= conditions.len() {
            (Ok(so_far), self)
        } else {
            let (result, after) = self.test(cx, conditions[i]);
            match result {
                Err(e) => (Err(e), after),
                Ok(holds) => after.test_all(cx, conditions, i + 1, so_far && holds),
            }
        }
    }

    /// The arm whose regular expression matches first in `text`, of those from position `i` on and
    /// `best`. No match may be empty.
    pub open spec fn find_arm(
        self,
        arms: Seq<ScanArm>,
        text: Seq<char>,
        i: int,
        best: Option<ArmModel>,
    ) -> (Result<Option<ArmModel>, ErrorModel>, ExecutionState)
        decreases arms.len() - i,
    {
        if i < 0 || i >= arms.len() {
            (Ok(best), self)
        } else {
            let (checked, state) = self.check("processing scan matches"@);
            match checked {
                Err(e) => (Err(e), state),
                Ok(_) => match better_arm(
                    best,
                    i,
                    crate::regexes::regex_pattern(arms[i].regex),
                    crate::regexes::regex_captures(arms[i].regex, text),
                ) {
                    Err(e) => (Err(e), state),
                    Ok(better) => state.find_arm(arms, text, i + 1, better),
                },
            }
        }
    }

    /// Executes a statement, unless the execution is cancelled.
    pub open spec fn execute(self, cx: Surroundings, statement: Statement) -> (
        Result<(), ErrorModel>,
        ExecutionState,
    )
        decreases statement, 1int, 0int,
    {
        let (checked, state) = self.check("executing statement"@);
        match checked {
            Err(e) => (Err(e), state),
            Ok(_) => state.perform(cx, statement),
        }
    }

    /// Executes a statement.
    pub open spec fn perform(self, cx: Surroundings, statement: Statement) -> (
        Result<(), ErrorModel>,
        ExecutionState,
    )
        decreases statement, 0int, 0int,
    {
        match statement {
            Statement::DeclareImmutable(s) => {
                let (value, after) = self.evaluate_lazy(cx, s.value);
                match value {
                    Err(e) => (Err(e), after),
                    Ok(value) => after.add_variable(cx, s.variable, value, false),
                }
            },
            Statement::DeclareMutable(s) => {
                let (value, after) = self.evaluate_lazy(cx, s.value);
                match value {
                    Err(e) => (Err(e), after),
                    Ok(value) => after.add_variable(cx, s.variable, value, true),
                }
            },
            Statement::Assign(s) => {
                let (value, after) = self.evaluate_lazy(cx, s.value);
                match value {
                    Err(e) => (Err(e), after),
                    Ok(value) => after.set_variable(cx, s.variable, value),
                }
            },
            Statement::CreateGraphNode(s) => self.create_node(cx, s.node),
            Statement::AddGraphNodeAttribute(s) => {
                let (node, after_node) = self.evaluate_lazy(cx, s.node);
                match node {
                    Err(e) => (Err(e), after_node),
                    Ok(node) => {
                        let (attributes, after) = after_node.node_attributes(
                            cx,
                            s.attributes@,
                            0,
                            Seq::empty(),
                        );
                        match attributes {
                            Err(e) => (Err(e), after),
                            Ok(attributes) => (
                                Ok(()),
                                after.add_statement(
                                    LazyStatementModel::AddGraphNodeAttribute {
                                        node,
                                        attributes,
                                        debug_info: s.location,
                                    },
                                ),
                            ),
                        }
                    },
                }
            },
            Statement::CreateEdge(s) => {
                let (ends, after) = self.evaluate_ends(cx, s.source, s.sink);
                match ends {
                    Err(e) => (Err(e), after),
                    Ok((source, sink)) => (
                        Ok(()),
                        after.add_statement(
                            LazyStatementModel::CreateEdge {
                                source,
                                sink,
                                debug_info: s.location,
                            },
                        ),
                    ),
                }
            },
            Statement::AddEdgeAttribute(s) => {
                let (ends, after_ends) = self.evaluate_ends(cx, s.source, s.sink);
                match ends {
                    Err(e) => (Err(e), after_ends),
                    Ok((source, sink)) => {
                        let (result, attributes, after) = after_ends.expand_all(
                            cx,
                            s.attributes@,
                            0,
                            Seq::empty(),
                        );
                        match result {
                            Err(e) => (Err(e), after),
                            Ok(_) => (
                                Ok(()),
                                after.add_statement(
                                    LazyStatementModel::AddEdgeAttribute {
                                        source,
                                        sink,
                                        attributes,
                                        debug_info: s.location,
                                    },
                                ),
                            ),
                        }
                    },
                }
            },
            Statement::Scan(s) => {
                let (value, after) = self.evaluate_eager(cx, s.value);
                match value {
                    Err(e) => (Err(e), after),
                    Ok(value) => match value.into_string() {
                        Err(e) => (Err(e), after),
                        Ok(text) => after.scan(cx, s.arms@, text, text),
                    },
                }
            },
            Statement::Print(s) => {
                let (arguments, after) = self.print_arguments(
                    cx,
                    s.values@,
                    0,
                    Seq::empty(),
                );
                match arguments {
                    Err(e) => (Err(e), after),
                    Ok(arguments) => (
                        Ok(()),
                        after.add_statement(
                            LazyStatementModel::Print { arguments, debug_info: s.location },
                        ),
                    ),
                }
            },
            Statement::If(s) => self.choose_arm(cx, s.arms@, 0),
            Statement::ForIn(s) => {
                let (values, after) = self.evaluate_list(cx, s.value);
                match values {
                    Err(e) => (Err(e), after),
                    Ok(values) => {
                        let (result, end) = after.enter().repeat(
                            cx,
                            s.variable,
                            s.statements@,
                            values,
                            0,
                        );
                        (result, end.leave())
                    },
                }
            },
        }
    }

    /// Creates a graph node, and declares a variable for it.
    pub open spec fn create_node(self, cx: Surroundings, variable: Variable) -> (
        Result<(), ErrorModel>,
        ExecutionState,
    ) {
        let node = GraphNodeRef { index: self.eval.graph.graph_nodes.len() as usize };
        let (result, attributes) = debug_attributes(
            Map::empty(),
            cx.variable_name_attr,
            cx.location_attr,
            variable,
        );
        let created = GraphNodeModel { attributes, ..GraphNodeModel::blank() };
        let graph = GraphModel {
            graph_nodes: self.eval.graph.graph_nodes.push(created),
            ..self.eval.graph
        };
        let state = self.with_eval(self.eval.with_graph(graph));
        match result {
            Err(e) => (Err(e), state),
            Ok(_) => state.add_variable(
                cx,
                variable,
                LazyModel::Value(ValueModel::GraphNode(node)),
                false,
            ),
        }
    }

    /// Turns the source and the sink of an edge into lazy values.
    pub open spec fn evaluate_ends(
        self,
        cx: Surroundings,
        source: Expression,
        sink: Expression,
    ) -> (Result<(LazyModel, LazyModel), ErrorModel>, ExecutionState) {
        let (first, state) = self.evaluate_lazy(cx, source);
        match first {
            Err(e) => (Err(e), state),
            Ok(source) => {
                let (second, after) = state.evaluate_lazy(cx, sink);
                (
                    match second {
                        Err(e) => Err(e),
                        Ok(sink) => Ok((source, sink)),
                    },
                    after,
                )
            },
        }
    }

    /// Executes the statements of a block from position `i` on, up to the first error.
    pub open spec fn block(
        self,
        cx: Surroundings,
        statements: Seq<Statement>,
        i: int,
        at: Seq<char>,
        notes: NotesModel,
    ) -> (Result<(), ErrorModel>, ExecutionState)
        decreases statements, 0int, statements.len() - i,
    {
        if i < 0 || i >= statements.len() {
            (Ok(()), self)
        } else {
            let (checked, state) = self.check(at);
            match checked {
                Err(e) => (Err(e), state),
                Ok(_) => {
                    let (result, after) = state.execute(cx, statements[i]);
                    match result {
                        Err(e) => (Err(notes.noted(statements[i], e)), after),
                        Ok(_) => after.block(cx, statements, i + 1, at, notes),
                    }
                },
            }
        }
    }

    /// Executes the first of the arms from position `i` on whose conditions all hold.
    pub open spec fn choose_arm(self, cx: Surroundings, arms: Seq<IfArm>, i: int) -> (
        Result<(), ErrorModel>,
        ExecutionState,
    )
        decreases arms, 0int, arms.len() - i,
    {
        if i < 0 || i >= arms.len() {
            (Ok(()), self)
        } else {
            let (tested, state) = self.test_all(cx, arms[i].conditions@, 0, true);
            match tested {
                Err(e) => (Err(e), state),
                Ok(holds) => if holds {
                    let (result, after) = state.enter().block(
                        cx,
                        arms[i].statements@,
                        0,
                        "executing if statements"@,
                        NotesModel::Nothing,
                    );
                    (result, after.leave())
                } else {
                    state.choose_arm(cx, arms, i + 1)
                },
            }
        }
    }

    /// Executes the statements for each of the `values` from position `i` on, with the variable
    /// declared as that value in a block of its own.
    pub open spec fn repeat(
        self,
        cx: Surroundings,
        variable: UnscopedVariable,
        statements: Seq<Statement>,
        values: Seq<ValueModel>,
        i: int,
    ) -> (Result<(), ErrorModel>, ExecutionState)
        decreases statements, 1int, values.len() - i,
    {
        if i < 0 || i >= values.len() {
            (Ok(()), self)
        } else {
            let (declared, state) = self.clear().declare(
                cx,
                variable,
                LazyModel::Value(values[i]),
                false,
            );
            match declared {
                Err(e) => (Err(e), state),
                Ok(_) => {
                    let (result, after) = state.block(
                        cx,
                        statements,
                        0,
                        "executing for statements"@,
                        NotesModel::Nothing,
                    );
                    match result {
                        Err(e) => (Err(e), after),
                        Ok(_) => after.repeat(cx, variable, statements, values, i + 1),
                    }
                },
            }
        }
    }

    /// Goes through `rest`, which is what is left of `text`, from match to match of the arms, and
    /// executes the statements of each arm that matches first. What is found is one of the arms,
    /// and a match is not empty, so less is left after it: the tests for this only show that
    /// scanning ends.
    pub open spec fn scan(
        self,
        cx: Surroundings,
        arms: Seq<ScanArm>,
        text: Seq<char>,
        rest: Seq<char>,
    ) -> (Result<(), ErrorModel>, ExecutionState)
        decreases arms, 1int, vstd::utf8::encode_utf8(rest).len() as int,
    {
        if rest.len() == 0 {
            (Ok(()), self)
        } else {
            let (found, state) = self.find_arm(arms, rest, 0, None);
            match found {
                Err(e) => (Err(e), state),
                Ok(None) => (Ok(()), state),
                Ok(Some(arm)) => if arm.index < 0 || arm.index >= arms.len() {
                    (Ok(()), state)
                } else {
                    let (result, after) = state.enter().block(
                        Surroundings { current_regex_captures: group_texts(arm.groups), ..cx },
                        arms[arm.index].statements@,
                        0,
                        "executing scan statements"@,
                        NotesModel::Scan {
                            text,
                            pattern: crate::regexes::regex_pattern(arms[arm.index].regex),
                        },
                    );
                    match result {
                        Err(e) => (Err(e), after.leave()),
                        Ok(_) => {
                            let next = rest_of(rest, arm.whole().end);
                            if vstd::utf8::encode_utf8(next).len() < vstd::utf8::encode_utf8(
                                rest,
                            ).len() {
                                after.leave().scan(cx, arms, text, next)
                            } else {
                                (Ok(()), after.leave())
                            }
                        },
                    }
                },
            }
        }
    }
}

impl ExecutionState {
    /// Executes a stanza for a match. The node that the stanza matched becomes known to the graph.
    pub open spec fn execute_stanza(self, cx: Surroundings, stanza: Stanza) -> (
        Result<(), ErrorModel>,
        ExecutionState,
    ) {
        let index = stanza.full_match_file_capture_index;
        let nodes = captured(cx.mat.captures, index, cx.mat.captures.len() as int);
        let cleared = self.clear();
        if nodes.len() == 0 {
            (Err(ErrorModel::UndefinedCapture(crate::text::decimal_text(index as nat))), cleared)
        } else {
            cleared.with_eval(
                self.eval.with_graph(self.eval.graph.with_syntax_node(nodes[0])),
            ).block(
                Surroundings { current_regex_captures: Seq::empty(), ..cx },
                stanza.statements@,
                0,
                "executing stanza statements"@,
                NotesModel::Stanza {
                    stanza_location: stanza.location,
                    source_location: nodes[0].position,
                    node_kind: nodes[0].kind,
                },
            )
        }
    }

    /// Executes the stanzas for the `matches` from position `i` on, up to the first error.
    pub open spec fn execute_matches(
        self,
        cx: Surroundings,
        stanzas: Seq<Stanza>,
        matches: Seq<MatchModel>,
        i: int,
    ) -> (Result<(), ErrorModel>, ExecutionState)
        decreases matches.len() - i,
    {
        if i < 0 || i >= matches.len() {
            (Ok(()), self)
        } else {
            let (checked, state) = self.check("processing matches"@);
            match checked {
                Err(e) => (Err(e), state),
                Ok(_) => if matches[i].pattern_index >= stanzas.len() {
                    (
                        Err(
                            ErrorModel::UndefinedStanza(
                                crate::text::decimal_text(matches[i].pattern_index as nat),
                            ),
                        ),
                        state,
                    )
                } else {
                    let (result, after) = state.execute_stanza(
                        Surroundings { mat: matches[i], ..cx },
                        stanzas[matches[i].pattern_index as int],
                    );
                    match result {
                        Err(e) => (Err(e), after),
                        Ok(_) => after.execute_matches(cx, stanzas, matches, i + 1),
                    }
                },
            }
        }
    }
}

impl EvaluationState {
    /// Evaluates the statements of a lazy graph from position `i` on, up to the first error, on
    /// which the statement is noted.
    pub open spec fn evaluate_graph(self, statements: Seq<LazyStatementModel>, i: int) -> (
        Result<(), ErrorModel>,
        EvaluationState,
    )
        decreases statements.len() - i,
    {
        if i < 0 || i >= statements.len() {
            (Ok(()), self)
        } else {
            let (result, after) = self.evaluate_statement(statements[i]);
            match result {
                Err(e) => (
                    Err(e.within(ContextModel::Other("Executing "@ + statements[i].shown()))),
                    after,
                ),
                Ok(_) => after.evaluate_graph(statements, i + 1),
            }
        }
    }
}

/// The global variables that a program runs with: those given, and the defaults of the declared
/// ones from position `i` on that are not given. One without a default must be given, and one that
/// stands for several things must be a list.
pub open spec fn checked_globals(
    declared: Seq<Global>,
    i: int,
    globals: Map<Seq<char>, ValueModel>,
) -> Result<Map<Seq<char>, ValueModel>, ErrorModel>
    decreases declared.len() - i,
{
    if i < 0 || i >= declared.len() {
        Ok(globals)
    } else {
        let name = declared[i].name@;
        if !globals.contains_key(name) {
            match declared[i].default {
                None => Err(ErrorModel::MissingGlobalVariable(name)),
                Some(default) => checked_globals(
                    declared,
                    i + 1,
                    globals.insert(name, ValueModel::String(default@)),
                ),
            }
        } else if (declared[i].quantifier is ZeroOrMore || declared[i].quantifier is OneOrMore)
            && !(globals[name] is List) {
            Err(ErrorModel::ExpectedList(name))
        } else {
            checked_globals(declared, i + 1, globals)
        }
    }
}

/// The state of evaluation in which an execution begins.
pub open spec fn initial_state(
    source: Seq<char>,
    graph: GraphModel,
    functions: Outcomes,
    printed: Seq<char>,
    cancellation_flag: Answers,
) -> EvaluationState {
    EvaluationState {
        source,
        graph,
        functions,
        store: Seq::empty(),
        scoped_store: Map::empty(),
        prev_element_debug_info: Map::empty(),
        printed,
        cancellation_flag,
    }
}

/// A match of nothing.
pub open spec fn no_match() -> MatchModel {
    MatchModel { pattern_index: 0, captures: Seq::empty() }
}

/// What is there when an execution has ended, as far as it can be seen from outside.
#[verifier::ext_equal]
pub struct Ending {
    pub result: Result<(), ErrorModel>,
    pub graph: GraphModel,
    pub printed: Seq<char>,
    pub functions: Outcomes,
    pub cancellation_flag: Answers,
}

impl Ending {
    /// The end with `result` in the state `eval`.
    pub open spec fn of(result: Result<(), ErrorModel>, eval: EvaluationState) -> Ending {
        Ending {
            result,
            graph: eval.graph,
            printed: eval.printed,
            functions: eval.functions,
            cancellation_flag: eval.cancellation_flag,
        }
    }
}

impl File {
    /// What the program does for the given matches, once its global variables are known: it
    /// executes the stanzas, which builds the lazy graph, and then evaluates that.
    pub open spec fn run_matches(
        self,
        globals: Map<Seq<char>, ValueModel>,
        location_attr: Option<Seq<char>>,
        variable_name_attr: Option<Seq<char>>,
        matches: Seq<MatchModel>,
        eval: EvaluationState,
    ) -> (Result<(), ErrorModel>, EvaluationState) {
        let cx = Surroundings {
            globals,
            location_attr,
            variable_name_attr,
            mat: no_match(),
            current_regex_captures: Seq::empty(),
            shorthands: self.shorthands.list@,
            open_shorthands: 0,
        };
        let start = ExecutionState { eval, locals: seq![Map::empty()], lazy_graph: Seq::empty() };
        let (result, executed) = start.execute_matches(cx, self.stanzas@, matches, 0);
        match result {
            Err(e) => (Err(e), executed.eval),
            Ok(_) => executed.eval.evaluate_graph(executed.lazy_graph, 0),
        }
    }

    /// What the program does for the given matches. If there is something wrong with the global
    /// variables, it does nothing.
    pub open spec fn run(
        self,
        globals: Map<Seq<char>, ValueModel>,
        location_attr: Option<Seq<char>>,
        variable_name_attr: Option<Seq<char>>,
        matches: Seq<MatchModel>,
        eval: EvaluationState,
    ) -> (Result<(), ErrorModel>, EvaluationState) {
        match checked_globals(self.globals@, 0, globals) {
            Err(e) => (Err(e), eval),
            Ok(globals) => self.run_matches(
                globals,
                location_attr,
                variable_name_attr,
                matches,
                eval,
            ),
        }
    }

    /// What is there after the program has been run for the given matches.
    pub open spec fn ending(
        self,
        globals: Map<Seq<char>, ValueModel>,
        location_attr: Option<Seq<char>>,
        variable_name_attr: Option<Seq<char>>,
        matches: Seq<MatchModel>,
        eval: EvaluationState,
    ) -> Ending {
        let (result, after) = self.run(
            globals,
            location_attr,
            variable_name_attr,
            matches,
            eval,
        );
        Ending::of(result, after)
    }

    /// Whether the query is searched for: there is one, and nothing is wrong with the global
    /// variables.
    pub open spec fn searches(self, globals: Map<Seq<char>, ValueModel>) -> bool {
        self.query is Some && checked_globals(self.globals@, 0, globals) is Ok
    }

    /// Whether `ending` can be there after the program has been run for the matches of its query in
    /// a tree: it is for some matches that look like those, and in which the same nodes are
    /// captured in the same places. Without a query nothing is done, and that is an error.
    pub open spec fn ends_with(
        self,
        globals: Map<Seq<char>, ValueModel>,
        location_attr: Option<Seq<char>>,
        variable_name_attr: Option<Seq<char>>,
        tree: tree_sitter::Tree,
        eval: EvaluationState,
        ending: Ending,
    ) -> bool {
        match checked_globals(self.globals@, 0, globals) {
            Err(e) => ending == Ending::of(Err(e), eval),
            Ok(_) => match self.query {
                None => ending == Ending::of(Err(ErrorModel::MissingQuery), eval),
                Some(query) => exists|matches: Seq<MatchModel>|
                    {
                        &&& #[trigger] crate::matching::shapes(matches)
                            == crate::matching::query_shapes(query, tree, eval.source)
                        &&& crate::matching::same_nodes(
                            matches,
                            crate::matching::query_nodes(query, tree, eval.source),
                        )
                        &&& ending == self.ending(
                            globals,
                            location_attr,
                            variable_name_attr,
                            matches,
                            eval,
                        )
                    },
            },
        }
    }
}

} // verus!
