use tree_sitter_graph::cancellation::Answers;
use tree_sitter_graph::cancellation::CancellationFlag;
use tree_sitter_graph::cancellation::NoCancellation;
use tree_sitter_graph::error::CancellationError;
use tree_sitter_graph::error::Context;
use tree_sitter_graph::error::ExecutionError;
use tree_sitter_graph::functions::Functions;
use tree_sitter_graph::functions::NoFunctions;
use tree_sitter_graph::functions::Outcomes;
use tree_sitter_graph::graph::Graph;
use tree_sitter_graph::identifier::Identifier;
use tree_sitter_graph::lazy::store::DebugInfo;
use tree_sitter_graph::lazy::store::LazyScopedVariables;
use tree_sitter_graph::lazy::store::LazyStore;
use tree_sitter_graph::lazy::store::LazyVariable;
use tree_sitter_graph::lazy::store::ScopedValues;
use tree_sitter_graph::lazy::store::Thunk;
use tree_sitter_graph::lazy::store::ThunkState;
use tree_sitter_graph::lazy::values::LazyCall;
use tree_sitter_graph::lazy::values::LazyList;
use tree_sitter_graph::lazy::values::LazyScopedVariable;
use tree_sitter_graph::lazy::values::LazySet;
use tree_sitter_graph::lazy::values::LazyValue;
use tree_sitter_graph::lazy::EvaluationContext;
use tree_sitter_graph::location::Location;
use tree_sitter_graph::table::Table;
use tree_sitter_graph::values::GraphNodeRef;
use tree_sitter_graph::values::SyntaxNodeRef;
use tree_sitter_graph::values::Value;

/// Stops at the given check, counted from zero.
struct StopAt {
    checks: usize,
}

impl CancellationFlag for StopAt {
    fn answers(&self) -> Answers {
        unreachable!()
    }

    fn check(&mut self, at: &str) -> Result<(), CancellationError> {
        if self.checks == 0 {
            return Err(CancellationError(at.to_string()));
        }
        self.checks -= 1;
        Ok(())
    }
}

/// One function, `count`, which returns how often it has been called.
struct Counting {
    calls: u32,
}

impl Functions for Counting {
    fn outcomes(&self) -> Outcomes {
        unreachable!()
    }

    fn call(
        &mut self,
        function: &Identifier,
        graph: &mut Graph,
        source: &str,
        arguments: Vec<Value>,
    ) -> Result<Value, ExecutionError> {
        match function.name.as_str() {
            "count" => {
                self.calls += 1;
                Ok(Value::Integer(self.calls))
            }
            "node" => Ok(Value::GraphNode(graph.add_graph_node())),
            "source" => Ok(Value::String(source.to_string())),
            "list" => Ok(Value::List(arguments)),
            other => Err(ExecutionError::UndefinedFunction(other.to_string())),
        }
    }
}

fn place(row: usize, column: usize) -> Location {
    Location { row, column }
}

fn info(row: usize, column: usize) -> DebugInfo {
    DebugInfo::from(place(row, column))
}

fn id(name: &str) -> Identifier {
    Identifier { name: name.to_string() }
}

fn node(index: usize, kind: &str) -> SyntaxNodeRef {
    SyntaxNodeRef { index, kind: kind.to_string(), position: place(0, index) }
}

fn integer(n: u32) -> LazyValue {
    LazyValue::Value(Value::Integer(n))
}

fn syntax(node: &SyntaxNodeRef) -> LazyValue {
    LazyValue::Value(Value::SyntaxNode(node.clone()))
}

fn call(function: &str, arguments: Vec<LazyValue>) -> LazyValue {
    LazyValue::Call(LazyCall { function: id(function), arguments })
}

fn scoped(scope: LazyValue, name: &str) -> LazyValue {
    LazyValue::ScopedVariable(LazyScopedVariable { scope: Box::new(scope), name: id(name) })
}

fn context_with<C: 'static, F: 'static>(
    cancellation_flag: C,
    functions: F,
) -> EvaluationContext<'static, C, F> {
    EvaluationContext {
        source: "the source",
        graph: Graph::new(),
        functions: Box::leak(Box::new(functions)),
        store: LazyStore::new(),
        scoped_store: LazyScopedVariables::new(),
        prev_element_debug_info: Table::new(),
        printed: String::new(),
        cancellation_flag: Box::leak(Box::new(cancellation_flag)),
    }
}

fn context() -> EvaluationContext<'static, NoCancellation, Counting> {
    context_with(NoCancellation::new(), Counting { calls: 0 })
}

fn other(text: &str, error: ExecutionError) -> ExecutionError {
    ExecutionError::InContext(Context::Other(text.to_string()), Box::new(error))
}

#[test]
fn a_value_is_itself() {
    let mut exec = context();
    assert_eq!(integer(7).evaluate(&mut exec), Ok(Value::Integer(7)));
    assert_eq!(LazyValue::Value(Value::Null).evaluate(&mut exec), Ok(Value::Null));
}

#[test]
fn lists_keep_their_order_and_sets_do_not() {
    let mut exec = context();
    let list = LazyValue::List(LazyList { elements: vec![integer(2), integer(1), integer(2)] });
    let value = list.evaluate(&mut exec).unwrap();
    assert_eq!(value.text(), "[2, 1, 2]");
    let set = LazyValue::LazySet(LazySet { elements: vec![integer(2), integer(1), integer(2)] });
    let value = set.evaluate(&mut exec).unwrap();
    assert_eq!(value.text(), "{1, 2}");
}

#[test]
fn sets_order_values_by_kind_and_content() {
    let mut exec = context();
    let elements = vec![
        LazyValue::Value(Value::GraphNode(GraphNodeRef { index: 0 })),
        syntax(&node(3, "b")),
        syntax(&node(3, "a")),
        LazyValue::Value(Value::List(vec![Value::Integer(1), Value::Integer(0)])),
        LazyValue::Value(Value::List(vec![Value::Integer(1)])),
        LazyValue::Value(Value::String("b".to_string())),
        LazyValue::Value(Value::String("ab".to_string())),
        integer(10),
        integer(9),
        LazyValue::Value(Value::Boolean(true)),
        LazyValue::Value(Value::Boolean(false)),
        LazyValue::Value(Value::Null),
    ];
    let value = LazyValue::LazySet(LazySet { elements }).evaluate(&mut exec).unwrap();
    assert_eq!(
        value.text(),
        "{#null, #false, #true, 9, 10, \"ab\", \"b\", [1], [1, 0], \
         [syntax node a (1, 4)], [syntax node b (1, 4)], [graph node 0]}"
    );
}

#[test]
fn a_variable_is_evaluated_once() {
    let mut exec = context();
    let variable = exec.store.add(call("count", vec![]), info(0, 0));
    assert_eq!(variable.store_location, 0);
    let value = LazyValue::Variable(variable);
    assert_eq!(value.evaluate(&mut exec), Ok(Value::Integer(1)));
    assert_eq!(value.evaluate(&mut exec), Ok(Value::Integer(1)));
    assert_eq!(variable.evaluate(&mut exec), Ok(Value::Integer(1)));
    assert_eq!(exec.functions.calls, 1);
    assert_eq!(exec.store.elements[0].state.text(), "!{1}");
}

#[test]
fn a_variable_is_not_evaluated_before_it_is_asked_for() {
    let mut exec = context();
    exec.store.add(call("count", vec![]), info(0, 0));
    let second = exec.store.add(integer(5), info(0, 1));
    assert_eq!(second.store_location, 1);
    assert_eq!(second.evaluate(&mut exec), Ok(Value::Integer(5)));
    assert_eq!(exec.functions.calls, 0);
    assert_eq!(exec.store.elements[0].state.text(), "?{(call 'count)}");
}

#[test]
fn a_variable_cannot_be_defined_by_itself() {
    let mut exec = context();
    let variable = exec.store.add(LazyValue::Variable(LazyVariable::new(0)), info(2, 3));
    let note = "via ~{?} at (3, 4)";
    let expected = other(
        note,
        other(note, ExecutionError::RecursivelyDefinedVariable("(3, 4)".to_string())),
    );
    assert_eq!(LazyStore::evaluate(&variable, &mut exec), Err(expected));
    assert_eq!(exec.store.elements[0].state.text(), "~{?}");
}

#[test]
fn forcing_has_no_note() {
    let mut exec = context();
    exec.store.elements.push(Thunk { state: ThunkState::Forcing, debug_info: info(0, 0) });
    assert_eq!(
        Thunk::force(0, &mut exec),
        Err(ExecutionError::RecursivelyDefinedVariable("(1, 1)".to_string()))
    );
    exec.store.elements.push(Thunk::new(integer(4), info(0, 0)));
    assert_eq!(Thunk::force(1, &mut exec), Ok(Value::Integer(4)));
    assert_eq!(Thunk::force(1, &mut exec), Ok(Value::Integer(4)));
}

#[test]
fn a_failed_variable_stays_failed() {
    let mut exec = context();
    let variable = exec.store.add(call("nope", vec![]), info(0, 0));
    let note = "via ~{?} at (1, 1)";
    assert_eq!(
        variable.evaluate(&mut exec),
        Err(other(note, ExecutionError::UndefinedFunction("nope".to_string())))
    );
    assert_eq!(
        variable.evaluate(&mut exec),
        Err(other(note, ExecutionError::RecursivelyDefinedVariable("(1, 1)".to_string())))
    );
}

#[test]
fn a_call_gets_its_arguments_the_source_and_the_graph() {
    let mut exec = context();
    let value = call("list", vec![integer(1), call("source", vec![]), call("node", vec![])]);
    let value = value.evaluate(&mut exec).unwrap();
    assert_eq!(value.text(), "[1, \"the source\", [graph node 0]]");
    assert_eq!(exec.graph.graph_nodes.len(), 1);
}

#[test]
fn without_functions_every_call_fails() {
    let mut exec = context_with(NoCancellation::new(), NoFunctions::new());
    assert_eq!(
        call("f", vec![]).evaluate(&mut exec),
        Err(ExecutionError::UndefinedFunction("f".to_string()))
    );
}

#[test]
fn evaluation_stops_when_it_is_cancelled() {
    for checks in 0..3 {
        let mut exec = context_with(StopAt { checks }, Counting { calls: 0 });
        let variable = exec.store.add(call("count", vec![integer(1)]), info(0, 0));
        let expected = ExecutionError::Cancelled(CancellationError("evaluating value".to_string()));
        assert_eq!(LazyValue::Variable(variable).evaluate(&mut exec), Err(expected));
        assert_eq!(exec.functions.calls, 0);
    }
    let mut exec = context_with(StopAt { checks: 3 }, Counting { calls: 0 });
    let variable = exec.store.add(call("count", vec![integer(1)]), info(0, 0));
    assert_eq!(LazyValue::Variable(variable).evaluate(&mut exec), Ok(Value::Integer(1)));
}

#[test]
fn values_must_be_of_the_kind_that_is_asked_for() {
    let mut exec = context();
    assert_eq!(
        integer(1).evaluate_as_syntax_node(&mut exec),
        Err(ExecutionError::ExpectedSyntaxNode("got 1".to_string()))
    );
    assert_eq!(
        LazyValue::Value(Value::String("a\"b".to_string())).evaluate_as_graph_node(&mut exec),
        Err(ExecutionError::ExpectedGraphNode("got \"a\\\"b\"".to_string()))
    );
    assert_eq!(syntax(&node(1, "x")).evaluate_as_syntax_node(&mut exec), Ok(node(1, "x")));
    assert_eq!(
        LazyValue::Value(Value::GraphNode(GraphNodeRef { index: 3 }))
            .evaluate_as_graph_node(&mut exec),
        Ok(GraphNodeRef { index: 3 })
    );
}

#[test]
fn what_is_defined_for_a_node_can_be_read() {
    let mut exec = context();
    let (a, b) = (node(1, "a"), node(2, "b"));
    let first = exec.store.add(integer(10), info(0, 0));
    let second = exec.store.add(integer(20), info(1, 0));
    exec.scoped_store
        .add(syntax(&a), id("v"), LazyValue::Variable(first), info(0, 0))
        .unwrap();
    exec.scoped_store
        .add(syntax(&b), id("v"), LazyValue::Variable(second), info(1, 0))
        .unwrap();
    assert_eq!(scoped(syntax(&b), "v").evaluate(&mut exec), Ok(Value::Integer(20)));
    assert_eq!(scoped(syntax(&a), "v").evaluate(&mut exec), Ok(Value::Integer(10)));
    assert_eq!(scoped(syntax(&a), "v").evaluate(&mut exec), Ok(Value::Integer(10)));
}

#[test]
fn a_scoped_variable_must_be_defined() {
    let mut exec = context();
    let a = node(1, "a");
    assert_eq!(
        scoped(syntax(&a), "v").evaluate(&mut exec),
        Err(ExecutionError::UndefinedScopedVariable("[syntax node a (1, 2)].v".to_string()))
    );
    exec.scoped_store.add(syntax(&a), id("v"), integer(1), info(0, 0)).unwrap();
    let b = node(2, "b");
    assert_eq!(
        scoped(syntax(&b), "v").evaluate(&mut exec),
        Err(ExecutionError::UndefinedScopedVariable("[syntax node b (1, 3)].v".to_string()))
    );
    assert_eq!(
        scoped(syntax(&a), "v").evaluate(&mut exec),
        Err(ExecutionError::RecursivelyDefinedScopedVariable(
            "_.v requested on [syntax node a (1, 2)]".to_string()
        ))
    );
}

#[test]
fn a_forced_name_forgets_its_values_when_an_undefined_scope_is_asked_for() {
    let mut exec = context();
    let (a, b) = (node(1, "a"), node(2, "b"));
    exec.scoped_store.add(syntax(&a), id("v"), integer(1), info(0, 0)).unwrap();
    let value = LazyScopedVariables::evaluate(&a, &id("v"), &mut exec).unwrap();
    assert_eq!(value.text(), "1");
    assert_eq!(
        LazyScopedVariables::evaluate(&b, &id("v"), &mut exec).err(),
        Some(ExecutionError::UndefinedScopedVariable("[syntax node b (1, 3)].v".to_string()))
    );
    assert_eq!(
        LazyScopedVariables::evaluate(&a, &id("v"), &mut exec).err(),
        Some(ExecutionError::RecursivelyDefinedScopedVariable(
            "_.v requested on [syntax node a (1, 2)]".to_string()
        ))
    );
}

#[test]
fn nothing_can_be_defined_once_a_name_has_been_asked_for() {
    let mut exec = context();
    let (a, b) = (node(1, "a"), node(2, "b"));
    exec.scoped_store.add(syntax(&a), id("v"), integer(1), info(0, 0)).unwrap();
    assert_eq!(scoped(syntax(&a), "v").evaluate(&mut exec), Ok(Value::Integer(1)));
    assert_eq!(
        exec.scoped_store.add(syntax(&b), id("v"), integer(2), info(1, 0)),
        Err(ExecutionError::VariableScopesAlreadyForced("v".to_string()))
    );
    assert_eq!(scoped(syntax(&a), "v").evaluate(&mut exec), Ok(Value::Integer(1)));
    assert_eq!(exec.scoped_store.add(syntax(&b), id("w"), integer(2), info(1, 0)), Ok(()));
}

#[test]
fn nothing_can_be_defined_while_a_name_is_being_forced() {
    let mut variables = LazyScopedVariables::new();
    variables.variables.insert(id("v"), ScopedValues::Forcing);
    assert_eq!(
        variables.add(syntax(&node(1, "a")), id("v"), integer(1), info(0, 0)),
        Err(ExecutionError::RecursivelyDefinedScopedVariable("v".to_string()))
    );
    variables.variables.insert(id("w"), ScopedValues::new());
    assert_eq!(variables.add(syntax(&node(1, "a")), id("w"), integer(1), info(0, 0)), Ok(()));
}

#[test]
fn a_scoped_variable_cannot_be_defined_twice() {
    let mut exec = context();
    let a = node(1, "a");
    exec.scoped_store.add(syntax(&a), id("v"), integer(1), info(0, 0)).unwrap();
    exec.scoped_store.add(syntax(&a), id("v"), integer(2), info(4, 6)).unwrap();
    assert_eq!(
        scoped(syntax(&a), "v").evaluate(&mut exec),
        Err(ExecutionError::DuplicateVariable(
            "[syntax node a (1, 2)].v set at (1, 1) and (5, 7)".to_string()
        ))
    );
}

#[test]
fn a_failed_scope_is_the_last_that_is_evaluated() {
    let a = node(1, "a");
    for failing in [integer(3), syntax(&a)] {
        let mut exec = context();
        exec.scoped_store.add(syntax(&a), id("v"), integer(1), info(0, 0)).unwrap();
        exec.scoped_store.add(failing, id("v"), integer(2), info(1, 0)).unwrap();
        exec.scoped_store.add(call("count", vec![]), id("v"), integer(3), info(2, 0)).unwrap();
        assert!(scoped(syntax(&a), "v").evaluate(&mut exec).is_err());
        assert_eq!(exec.functions.calls, 0);
    }
}

#[test]
fn a_variable_stands_for_its_value() {
    let values = || {
        vec![
            integer(7),
            call("list", vec![integer(1), call("count", vec![])]),
            call("list", vec![LazyValue::Variable(LazyVariable::new(0)), integer(2)]),
            LazyValue::ScopedVariable(LazyScopedVariable {
                scope: Box::new(syntax(&node(1, "a"))),
                name: id("v"),
            }),
        ]
    };
    for i in 0..values().len() {
        let prepared = || {
            let mut exec = context();
            exec.store.add(call("count", vec![]), info(0, 0));
            let value = LazyValue::Variable(LazyVariable::new(0));
            exec.scoped_store.add(syntax(&node(1, "a")), id("v"), value, info(0, 0)).unwrap();
            let variable = exec.store.add(values().swap_remove(i), info(0, 0));
            exec.store.add(integer(99), info(0, 0));
            exec.store.add(call("nope", vec![]), info(0, 0));
            (exec, variable)
        };
        let (mut exec, variable) = prepared();
        let asked = LazyStore::evaluate(&variable, &mut exec);
        let (mut exec, _) = prepared();
        let evaluated = values().swap_remove(i).evaluate(&mut exec);
        assert!(asked.is_ok());
        assert_eq!(asked, evaluated);
        assert!(matches!(exec.store.elements[1].state, ThunkState::Unforced(_)));
    }
}

#[test]
fn the_order_of_definitions_does_not_matter() {
    let nodes = [node(1, "a"), node(2, "b"), node(3, "c")];
    for order in [[0, 1, 2], [2, 1, 0], [1, 2, 0]] {
        let mut exec = context();
        for i in order {
            let value = integer(10 + i as u32);
            exec.scoped_store.add(syntax(&nodes[i]), id("v"), value, info(i, 0)).unwrap();
        }
        for i in 0..3 {
            let value = scoped(syntax(&nodes[i]), "v").evaluate(&mut exec);
            assert_eq!(value, Ok(Value::Integer(10 + i as u32)));
        }
    }
    for order in [[0, 1], [1, 0]] {
        let mut exec = context();
        for i in order {
            exec.scoped_store.add(syntax(&nodes[0]), id("v"), integer(1), info(i, 0)).unwrap();
        }
        assert!(scoped(syntax(&nodes[0]), "v").evaluate(&mut exec).is_err());
    }
}

#[test]
fn a_definition_of_another_name_changes_nothing() {
    let (a, b) = (node(1, "a"), node(2, "b"));
    for defined in [false, true] {
        let mut exec = context();
        exec.scoped_store.add(syntax(&a), id("v"), integer(1), info(0, 0)).unwrap();
        let value = LazyValue::Variable(exec.store.add(scoped(syntax(&a), "v"), info(0, 0)));
        exec.scoped_store.add(scoped(syntax(&a), "u"), id("w"), value, info(0, 0)).unwrap();
        exec.scoped_store.add(syntax(&a), id("u"), syntax(&b), info(0, 0)).unwrap();
        if defined {
            exec.scoped_store.add(integer(0), id("x"), integer(2), info(0, 0)).unwrap();
        }
        assert_eq!(scoped(syntax(&b), "w").evaluate(&mut exec), Ok(Value::Integer(1)));
        assert!(scoped(syntax(&b), "x").evaluate(&mut exec).is_err());
    }
    let mut exec = context();
    exec.scoped_store.add(scoped(syntax(&a), "x"), id("v"), integer(1), info(0, 0)).unwrap();
    assert!(scoped(syntax(&b), "v").evaluate(&mut exec).is_err());
    let mut exec = context();
    exec.scoped_store.add(scoped(syntax(&a), "x"), id("v"), integer(1), info(0, 0)).unwrap();
    exec.scoped_store.add(syntax(&a), id("x"), syntax(&b), info(0, 0)).unwrap();
    assert_eq!(scoped(syntax(&b), "v").evaluate(&mut exec), Ok(Value::Integer(1)));
}

#[test]
fn an_error_in_a_scope_tells_where_it_was_set() {
    let mut exec = context();
    exec.scoped_store.add(integer(3), id("v"), integer(1), info(1, 1)).unwrap();
    assert_eq!(
        scoped(syntax(&node(1, "a")), "v").evaluate(&mut exec),
        Err(other(
            "Evaluating scope of variable _.v set at (2, 2)",
            ExecutionError::ExpectedSyntaxNode("got 3".to_string())
        ))
    );
}

#[test]
fn the_scopes_of_a_name_cannot_depend_on_the_name() {
    let mut exec = context();
    let a = node(1, "a");
    exec.scoped_store.add(scoped(syntax(&a), "v"), id("v"), integer(1), info(0, 0)).unwrap();
    assert_eq!(
        scoped(syntax(&a), "v").evaluate(&mut exec),
        Err(other(
            "Evaluating scope of variable _.v set at (1, 1)",
            ExecutionError::RecursivelyDefinedScopedVariable(
                "_.v requested on [syntax node a (1, 2)]".to_string()
            )
        ))
    );
}

#[test]
fn lazy_values_are_shown_as_terms() {
    let value = LazyValue::List(LazyList {
        elements: vec![
            integer(1),
            LazyValue::LazySet(LazySet { elements: vec![] }),
            LazyValue::Variable(LazyVariable::new(12)),
            scoped(syntax(&node(1, "a")), "v"),
            call("f", vec![LazyValue::Value(Value::String("x".to_string()))]),
        ],
    });
    assert_eq!(
        value.text(),
        "(list 1 (set) (load 12) (scoped [syntax node a (1, 2)] 'v) (call 'f \"x\"))"
    );
    assert_eq!(value.clone().text(), value.text());
    assert_eq!(LazyVariable::new(3).text(), "(load 3)");
    assert_eq!(info(9, 99).text(), "(10, 100)");
}
