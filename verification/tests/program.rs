use tree_sitter_graph::ast::AddEdgeAttribute;
use tree_sitter_graph::ast::AddGraphNodeAttribute;
use tree_sitter_graph::ast::Assign;
use tree_sitter_graph::ast::Attribute;
use tree_sitter_graph::ast::AttributeShorthand;
use tree_sitter_graph::ast::AttributeShorthands;
use tree_sitter_graph::ast::Call;
use tree_sitter_graph::ast::Capture;
use tree_sitter_graph::ast::CaptureQuantifier;
use tree_sitter_graph::ast::Condition;
use tree_sitter_graph::ast::CreateEdge;
use tree_sitter_graph::ast::CreateGraphNode;
use tree_sitter_graph::ast::DeclareImmutable;
use tree_sitter_graph::ast::DeclareMutable;
use tree_sitter_graph::ast::Expression;
use tree_sitter_graph::ast::File;
use tree_sitter_graph::ast::ForIn;
use tree_sitter_graph::ast::Global;
use tree_sitter_graph::ast::If;
use tree_sitter_graph::ast::IfArm;
use tree_sitter_graph::ast::IntegerConstant;
use tree_sitter_graph::ast::ListComprehension;
use tree_sitter_graph::ast::ListLiteral;
use tree_sitter_graph::ast::Print;
use tree_sitter_graph::ast::RegexCapture;
use tree_sitter_graph::ast::Scan;
use tree_sitter_graph::ast::ScanArm;
use tree_sitter_graph::ast::ScopedVariable;
use tree_sitter_graph::ast::SetComprehension;
use tree_sitter_graph::ast::SetLiteral;
use tree_sitter_graph::ast::Stanza;
use tree_sitter_graph::ast::Statement;
use tree_sitter_graph::ast::StringConstant;
use tree_sitter_graph::ast::UnscopedVariable;
use tree_sitter_graph::ast::Variable;
use tree_sitter_graph::cancellation::Answers;
use tree_sitter_graph::cancellation::CancellationFlag;
use tree_sitter_graph::cancellation::NoCancellation;
use tree_sitter_graph::error::CancellationError;
use tree_sitter_graph::error::Context;
use tree_sitter_graph::error::ExecutionError;
use tree_sitter_graph::functions::Functions;
use tree_sitter_graph::functions::NoFunctions;
use tree_sitter_graph::functions::Outcomes;
use tree_sitter_graph::graph::Graph;
use tree_sitter_graph::identifier::Identifier;
use tree_sitter_graph::lazy::blocks::group_strings;
use tree_sitter_graph::lazy::blocks::ArmMatch;
use tree_sitter_graph::lazy::statements::LazyAttribute;
use tree_sitter_graph::lazy::store::LazyScopedVariables;
use tree_sitter_graph::lazy::store::LazyStore;
use tree_sitter_graph::lazy::values::LazyValue;
use tree_sitter_graph::lazy::EvaluationContext;
use tree_sitter_graph::lazy::ExecutionConfig;
use tree_sitter_graph::lazy::ExecutionContext;
use tree_sitter_graph::location::Location;
use tree_sitter_graph::matching::QueryCapture;
use tree_sitter_graph::matching::QueryMatch;
use tree_sitter_graph::regexes::Span;
use tree_sitter_graph::table::Table;
use tree_sitter_graph::values::GraphNodeRef;
use tree_sitter_graph::values::SyntaxNodeRef;
use tree_sitter_graph::values::Value;
use tree_sitter_graph::variables::Globals;
use tree_sitter_graph::variables::VariableMap;

/// Writes down where it is checked, and stops when it has been checked often enough.
struct Recorder {
    checks: Vec<String>,
    limit: usize,
}

impl CancellationFlag for Recorder {
    fn answers(&self) -> Answers {
        unreachable!()
    }

    fn check(&mut self, at: &str) -> Result<(), CancellationError> {
        self.checks.push(at.to_string());
        if self.checks.len() > self.limit {
            return Err(CancellationError(at.to_string()));
        }
        Ok(())
    }
}

/// One function, `plus`.
struct Arithmetic;

impl Functions for Arithmetic {
    fn outcomes(&self) -> Outcomes {
        unreachable!()
    }

    fn call(
        &mut self,
        function: &Identifier,
        _graph: &mut Graph,
        _source: &str,
        arguments: Vec<Value>,
    ) -> Result<Value, ExecutionError> {
        if function.name != "plus" {
            return Err(ExecutionError::UndefinedFunction(function.name.clone()));
        }
        let mut sum = 0;
        for argument in arguments {
            match argument {
                Value::Integer(n) => sum += n,
                other => return Err(ExecutionError::FunctionFailed(other.text())),
            }
        }
        Ok(Value::Integer(sum))
    }
}

fn at(row: usize, column: usize) -> Location {
    Location { row, column }
}

fn id(name: &str) -> Identifier {
    Identifier { name: name.to_string() }
}

fn unscoped(name: &str) -> UnscopedVariable {
    UnscopedVariable { name: id(name), location: at(1, 1) }
}

fn local(name: &str) -> Variable {
    Variable::Unscoped(unscoped(name))
}

fn scoped(scope: Expression, name: &str) -> Variable {
    Variable::Scoped(ScopedVariable { scope: Box::new(scope), name: id(name), location: at(2, 2) })
}

fn get(name: &str) -> Expression {
    Expression::Variable(local(name))
}

fn integer(value: u32) -> Expression {
    Expression::IntegerConstant(IntegerConstant { value })
}

fn string(value: &str) -> Expression {
    Expression::StringConstant(StringConstant { value: value.to_string() })
}

fn list(elements: Vec<Expression>) -> Expression {
    Expression::ListLiteral(ListLiteral { elements })
}

fn group(match_index: usize) -> Expression {
    Expression::RegexCapture(RegexCapture { match_index })
}

fn capture(index: usize, quantifier: CaptureQuantifier) -> Expression {
    Expression::Capture(Capture {
        name: id("c"),
        quantifier,
        file_capture_index: index,
        location: at(3, 3),
    })
}

fn plus(parameters: Vec<Expression>) -> Expression {
    Expression::Call(Call { function: id("plus"), parameters })
}

fn let_(variable: Variable, value: Expression) -> Statement {
    Statement::DeclareImmutable(DeclareImmutable { variable, value, location: at(4, 4) })
}

fn var(variable: Variable, value: Expression) -> Statement {
    Statement::DeclareMutable(DeclareMutable { variable, value, location: at(4, 4) })
}

fn set(variable: Variable, value: Expression) -> Statement {
    Statement::Assign(Assign { variable, value, location: at(4, 4) })
}

fn node(name: &str) -> Statement {
    Statement::CreateGraphNode(CreateGraphNode { node: local(name), location: at(4, 4) })
}

fn attribute(name: &str, value: Expression) -> Attribute {
    Attribute { name: id(name), value }
}

fn attr(node: Expression, name: &str, value: Expression) -> Statement {
    Statement::AddGraphNodeAttribute(AddGraphNodeAttribute {
        node,
        attributes: vec![attribute(name, value)],
        location: at(5, 5),
    })
}

fn edge(source: Expression, sink: Expression) -> Statement {
    Statement::CreateEdge(CreateEdge { source, sink, location: at(6, 6) })
}

fn edge_attr(source: Expression, sink: Expression, name: &str, value: Expression) -> Statement {
    Statement::AddEdgeAttribute(AddEdgeAttribute {
        source,
        sink,
        attributes: vec![attribute(name, value)],
        location: at(7, 7),
    })
}

fn print(values: Vec<Expression>) -> Statement {
    Statement::Print(Print { values, location: at(8, 8) })
}

fn scan(value: Expression, arms: Vec<(&str, Vec<Statement>)>) -> Statement {
    let arms = arms
        .into_iter()
        .map(|(pattern, statements)| ScanArm {
            regex: regex::Regex::new(pattern).unwrap(),
            statements,
            location: at(9, 9),
        })
        .collect();
    Statement::Scan(Scan { value, arms, location: at(9, 9) })
}

fn if_(arms: Vec<(Vec<Condition>, Vec<Statement>)>) -> Statement {
    let arms = arms
        .into_iter()
        .map(|(conditions, statements)| IfArm { conditions, statements, location: at(10, 10) })
        .collect();
    Statement::If(If { arms, location: at(10, 10) })
}

fn holds(value: Expression) -> Condition {
    Condition::Bool { value, location: at(10, 10) }
}

fn for_(name: &str, value: Expression, statements: Vec<Statement>) -> Statement {
    Statement::ForIn(ForIn { variable: unscoped(name), value, statements, location: at(11, 11) })
}

fn syntax(index: usize, kind: &str) -> SyntaxNodeRef {
    SyntaxNodeRef { index, kind: kind.to_string(), position: at(0, index) }
}

fn matched(pattern_index: usize, captures: Vec<(usize, SyntaxNodeRef)>) -> QueryMatch {
    QueryMatch {
        pattern_index,
        captures: captures
            .into_iter()
            .map(|(index, node)| QueryCapture { index, node })
            .collect(),
    }
}

fn file(stanzas: Vec<Vec<Statement>>) -> File {
    File {
        globals: vec![],
        query: None,
        stanzas: stanzas
            .into_iter()
            .map(|statements| Stanza {
                statements,
                full_match_file_capture_index: 0,
                location: at(20, 0),
            })
            .collect(),
        shorthands: AttributeShorthands { list: vec![] },
    }
}

fn run_with(
    file: &File,
    graph: &mut Graph,
    globals: &Globals,
    matches: &Vec<QueryMatch>,
    limit: usize,
) -> (Result<(), ExecutionError>, String, Vec<String>) {
    let config = ExecutionConfig { globals, location_attr: None, variable_name_attr: None };
    let mut recorder = Recorder { checks: Vec::new(), limit };
    let mut printed = String::new();
    let result = file.execute_matches(
        graph,
        matches,
        "source",
        &config,
        &mut Arithmetic,
        &mut recorder,
        &mut printed,
    );
    (result, printed, recorder.checks)
}

fn run_file(file: &File, matches: Vec<QueryMatch>) -> (Result<(), ExecutionError>, Graph, String) {
    let mut graph = Graph::new();
    let globals = Globals::new();
    let (result, printed, _) = run_with(file, &mut graph, &globals, &matches, usize::MAX);
    (result, graph, printed)
}

/// Runs one stanza for one match.
fn run(statements: Vec<Statement>) -> (Result<(), ExecutionError>, Graph, String) {
    run_file(&file(vec![statements]), vec![matched(0, vec![(0, syntax(0, "module"))])])
}

/// The error that one stanza ends with, without the note on the statement.
fn error_of(statements: Vec<Statement>) -> ExecutionError {
    match run(statements).0 {
        Err(ExecutionError::InContext(Context::Statement { .. }, error)) => *error,
        other => panic!("{:?}", other),
    }
}

fn attribute_of(graph: &Graph, node: usize, name: &str) -> Option<String> {
    graph.attribute(GraphNodeRef { index: node }, &id(name)).map(|value| value.text())
}

#[test]
fn nodes_edges_and_attributes_are_built() {
    let (result, graph, printed) = run(vec![
        node("a"),
        node("b"),
        edge(get("a"), get("b")),
        edge_attr(get("a"), get("b"), "weight", integer(3)),
        attr(get("b"), "name", string("second")),
    ]);
    assert_eq!(result, Ok(()));
    assert_eq!(printed, "");
    assert_eq!(graph.graph_nodes.len(), 2);
    assert_eq!(attribute_of(&graph, 0, "name"), None);
    assert_eq!(attribute_of(&graph, 1, "name"), Some("\"second\"".to_string()));
    assert!(graph.has_edge(GraphNodeRef { index: 0 }, GraphNodeRef { index: 1 }));
    assert!(!graph.has_edge(GraphNodeRef { index: 1 }, GraphNodeRef { index: 0 }));
    let edge = graph.graph_nodes[0].get_edge(GraphNodeRef { index: 1 }).unwrap();
    assert_eq!(edge.get(&id("weight")), Some(&Value::Integer(3)));
}

#[test]
fn a_given_graph_is_added_to() {
    let mut graph = Graph::new();
    let old = graph.add_graph_node();
    graph.add_attribute(old, id("kept"), Value::Integer(1));
    let globals = Globals::new();
    let file = file(vec![vec![node("a"), attr(get("a"), "x", integer(2))]]);
    let matches = vec![matched(0, vec![(0, syntax(0, "module"))])];
    let (result, _, _) = run_with(&file, &mut graph, &globals, &matches, usize::MAX);
    assert_eq!(result, Ok(()));
    assert_eq!(graph.graph_nodes.len(), 2);
    assert_eq!(attribute_of(&graph, 0, "kept"), Some("1".to_string()));
    assert_eq!(attribute_of(&graph, 1, "x"), Some("2".to_string()));
}

#[test]
fn without_matches_nothing_happens() {
    let (result, graph, printed) = run_file(&file(vec![vec![node("a")]]), vec![]);
    assert_eq!(result, Ok(()));
    assert_eq!(graph.graph_nodes.len(), 0);
    assert_eq!(printed, "");
}

#[test]
fn the_graph_is_built_after_all_stanzas() {
    let first = vec![
        let_(scoped(capture(0, CaptureQuantifier::One), "node"), integer(1)),
        print(vec![Expression::Variable(scoped(
            capture(0, CaptureQuantifier::One),
            "later",
        ))]),
    ];
    let second = vec![let_(scoped(capture(0, CaptureQuantifier::One), "later"), integer(5))];
    let matches = vec![
        matched(0, vec![(0, syntax(0, "module"))]),
        matched(1, vec![(0, syntax(0, "module"))]),
    ];
    let (result, _, printed) = run_file(&file(vec![first, second]), matches);
    assert_eq!(result, Ok(()));
    assert_eq!(printed, "5\n");
}

#[test]
fn an_error_in_a_stanza_leaves_no_edges_and_prints_nothing() {
    let (result, graph, printed) = run(vec![
        node("a"),
        edge(get("a"), get("a")),
        attr(get("a"), "x", integer(1)),
        print(vec![string("hello")]),
        set(local("nope"), integer(1)),
    ]);
    assert!(result.is_err());
    assert_eq!(graph.graph_nodes.len(), 1);
    assert_eq!(attribute_of(&graph, 0, "x"), None);
    assert!(!graph.has_edge(GraphNodeRef { index: 0 }, GraphNodeRef { index: 0 }));
    assert_eq!(printed, "");
}

#[test]
fn errors_tell_the_statement_and_the_node() {
    let (result, _, _) = run_file(
        &file(vec![vec![set(local("x"), integer(1))]]),
        vec![matched(0, vec![(7, syntax(3, "other")), (0, syntax(2, "module"))])],
    );
    assert_eq!(
        result,
        Err(ExecutionError::InContext(
            Context::Statement {
                statement: "set x = 1 at (5, 5)".to_string(),
                statement_location: at(4, 4),
                stanza_location: at(20, 0),
                source_location: at(0, 2),
                node_kind: "module".to_string(),
            },
            Box::new(ExecutionError::UndefinedVariable("x".to_string())),
        ))
    );
}

#[test]
fn the_whole_match_must_be_captured() {
    let (result, _, _) =
        run_file(&file(vec![vec![]]), vec![matched(0, vec![(1, syntax(0, "module"))])]);
    assert_eq!(result, Err(ExecutionError::UndefinedCapture("0".to_string())));
}

#[test]
fn local_variables_do_not_outlive_their_stanza() {
    let first = vec![let_(local("x"), integer(1))];
    let second = vec![let_(local("x"), integer(2)), print(vec![get("x")])];
    let matches = vec![
        matched(0, vec![(0, syntax(0, "module"))]),
        matched(1, vec![(0, syntax(0, "module"))]),
    ];
    let (result, _, printed) = run_file(&file(vec![first, second]), matches);
    assert_eq!(result, Ok(()));
    assert_eq!(printed, "2\n");
}

#[test]
fn what_was_read_before_an_assignment_stays() {
    let (result, _, printed) = run(vec![
        var(local("x"), integer(1)),
        let_(local("y"), get("x")),
        print(vec![get("x")]),
        set(local("x"), plus(vec![get("x"), integer(10)])),
        print(vec![get("x"), string(" "), get("y")]),
    ]);
    assert_eq!(result, Ok(()));
    assert_eq!(printed, "1\n11 1\n");
}

#[test]
fn variables_must_be_declared_once_and_before_use() {
    assert_eq!(
        error_of(vec![let_(local("x"), integer(1)), let_(local("x"), integer(2))]),
        ExecutionError::DuplicateVariable(" local x".to_string())
    );
    assert_eq!(
        error_of(vec![print(vec![get("x")])]),
        ExecutionError::UndefinedVariable("x".to_string())
    );
    assert_eq!(
        error_of(vec![set(local("x"), integer(2))]),
        ExecutionError::UndefinedVariable("x".to_string())
    );
    assert_eq!(
        error_of(vec![let_(local("x"), integer(1)), set(local("x"), integer(2))]),
        ExecutionError::CannotAssignImmutableVariable("x".to_string())
    );
}

#[test]
fn scoped_variables_are_neither_mutable_nor_assigned() {
    let this = || capture(0, CaptureQuantifier::One);
    assert_eq!(
        error_of(vec![var(scoped(this(), "v"), integer(1))]),
        ExecutionError::CannotDefineMutableScopedVariable("@c.v".to_string())
    );
    assert_eq!(
        error_of(vec![set(scoped(this(), "v"), integer(1))]),
        ExecutionError::CannotAssignScopedVariable("@c.v".to_string())
    );
}

#[test]
fn scoped_variables_cannot_be_defined_after_they_were_read() {
    let this = || capture(0, CaptureQuantifier::One);
    assert_eq!(
        error_of(vec![
            let_(scoped(this(), "v"), list(vec![])),
            for_("x", Expression::Variable(scoped(this(), "v")), vec![]),
            let_(scoped(this(), "v"), integer(1)),
        ]),
        ExecutionError::VariableScopesAlreadyForced("v".to_string())
    );
}

#[test]
fn globals_come_first_and_cannot_be_changed() {
    let mut globals = Globals::new();
    globals.add(id("g"), Value::Integer(9)).unwrap();
    let matches = vec![matched(0, vec![(0, syntax(0, "module"))])];
    let mut graph = Graph::new();
    let program = file(vec![vec![print(vec![get("g")])]]);
    let (result, printed, _) = run_with(&program, &mut graph, &globals, &matches, usize::MAX);
    assert_eq!(result, Ok(()));
    assert_eq!(printed, "9\n");

    let program = file(vec![vec![let_(local("g"), integer(1))]]);
    let (result, _, _) = run_with(&program, &mut graph, &globals, &matches, usize::MAX);
    assert!(matches!(
        result,
        Err(ExecutionError::InContext(_, e))
            if *e == ExecutionError::DuplicateVariable(" global g".to_string())
    ));

    let program = file(vec![vec![set(local("g"), integer(1))]]);
    let (result, _, _) = run_with(&program, &mut graph, &globals, &matches, usize::MAX);
    assert!(matches!(
        result,
        Err(ExecutionError::InContext(_, e))
            if *e == ExecutionError::CannotAssignImmutableVariable(" global g".to_string())
    ));
}

#[test]
fn declared_globals_are_checked() {
    let global = |name: &str, quantifier, default: Option<&str>| Global {
        name: id(name),
        quantifier,
        default: default.map(|d| d.to_string()),
        location: at(0, 0),
    };
    let matches = vec![matched(0, vec![(0, syntax(0, "module"))])];
    let mut program = file(vec![vec![print(vec![get("d"), get("g")])]]);
    program.globals = vec![
        global("d", CaptureQuantifier::One, Some("default")),
        global("g", CaptureQuantifier::ZeroOrMore, None),
    ];

    let mut graph = Graph::new();
    let none = Globals::new();
    let (result, _, _) = run_with(&program, &mut graph, &none, &matches, usize::MAX);
    assert_eq!(result, Err(ExecutionError::MissingGlobalVariable("g".to_string())));

    let mut wrong = Globals::new();
    wrong.add(id("g"), Value::Integer(1)).unwrap();
    let (result, _, _) = run_with(&program, &mut graph, &wrong, &matches, usize::MAX);
    assert_eq!(result, Err(ExecutionError::ExpectedList("g".to_string())));

    let mut right = Globals::new();
    right.add(id("g"), Value::List(vec![Value::Integer(1)])).unwrap();
    assert_eq!(right.add(id("g"), Value::Null), Err(()));
    let nested = Globals::nested(&right);
    let (result, printed, _) = run_with(&program, &mut graph, &nested, &matches, usize::MAX);
    assert_eq!(result, Ok(()));
    assert_eq!(printed, "\"default\"[1]\n");
    assert!(right.get(&id("d")).is_none());
}

#[test]
fn captures_are_nodes_null_or_lists() {
    let mut captures = vec![(0, syntax(0, "module"))];
    captures.push((1, syntax(1, "a")));
    captures.push((1, syntax(2, "b")));
    let program = |index, quantifier| file(vec![vec![print(vec![capture(index, quantifier)])]]);
    let shown = |index, quantifier| {
        let mut captures: Vec<(usize, SyntaxNodeRef)> =
            captures.iter().map(|(i, n)| (*i, n.clone())).collect();
        captures.truncate(3);
        run_file(&program(index, quantifier), vec![matched(0, captures)])
    };
    let (_, graph, printed) = shown(1, CaptureQuantifier::ZeroOrMore);
    assert_eq!(printed, "[[syntax node a (1, 2)], [syntax node b (1, 3)]]\n");
    assert!(graph.syntax_nodes.get(&0).is_some());
    assert!(graph.syntax_nodes.get(&1).is_some());
    assert!(graph.syntax_nodes.get(&2).is_some());
    assert_eq!(
        shown(1, CaptureQuantifier::OneOrMore).2,
        "[[syntax node a (1, 2)], [syntax node b (1, 3)]]\n"
    );
    assert_eq!(shown(1, CaptureQuantifier::One).2, "[syntax node a (1, 2)]\n");
    assert_eq!(shown(1, CaptureQuantifier::ZeroOrOne).2, "[syntax node a (1, 2)]\n");
    assert_eq!(shown(2, CaptureQuantifier::ZeroOrOne).2, "#null\n");
    assert_eq!(shown(2, CaptureQuantifier::ZeroOrMore).2, "[]\n");
    for quantifier in [CaptureQuantifier::One, CaptureQuantifier::Zero] {
        assert!(matches!(
            shown(2, quantifier).0,
            Err(ExecutionError::InContext(_, e))
                if *e == ExecutionError::UndefinedCapture("2".to_string())
        ));
    }
}

#[test]
fn comprehensions_go_through_a_list() {
    let values = || list(vec![integer(3), integer(1), integer(3)]);
    let body = || plus(vec![get("x"), integer(1)]);
    let (result, _, printed) = run(vec![
        print(vec![Expression::ListComprehension(ListComprehension {
            element: Box::new(body()),
            variable: unscoped("x"),
            value: Box::new(values()),
            location: at(0, 0),
        })]),
        print(vec![Expression::SetComprehension(SetComprehension {
            element: Box::new(body()),
            variable: unscoped("x"),
            value: Box::new(values()),
            location: at(0, 0),
        })]),
        print(vec![Expression::SetLiteral(SetLiteral { elements: vec![integer(2), integer(2)] })]),
    ]);
    assert_eq!(result, Ok(()));
    assert_eq!(printed, "[4, 2, 4]\n{2, 4}\n{2}\n");
    assert_eq!(
        error_of(vec![print(vec![Expression::ListComprehension(ListComprehension {
            element: Box::new(get("x")),
            variable: unscoped("x"),
            value: Box::new(integer(1)),
            location: at(0, 0),
        })])]),
        ExecutionError::ExpectedList("got 1".to_string())
    );
}

#[test]
fn the_variable_of_a_comprehension_is_gone_after_it() {
    assert_eq!(
        error_of(vec![
            print(vec![Expression::ListComprehension(ListComprehension {
                element: Box::new(get("x")),
                variable: unscoped("x"),
                value: Box::new(list(vec![integer(1)])),
                location: at(0, 0),
            })]),
            print(vec![get("x")]),
        ]),
        ExecutionError::UndefinedVariable("x".to_string())
    );
}

#[test]
fn for_loops_have_a_block_per_element() {
    let (result, _, printed) = run(vec![
        var(local("sum"), integer(0)),
        let_(local("y"), integer(100)),
        for_(
            "x",
            list(vec![integer(1), integer(2), integer(3)]),
            vec![let_(local("y"), get("x")), set(local("sum"), plus(vec![get("sum"), get("y")]))],
        ),
        print(vec![get("sum"), string(" "), get("y")]),
    ]);
    assert_eq!(result, Ok(()));
    assert_eq!(printed, "6 100\n");
    assert_eq!(
        error_of(vec![for_("x", string("s"), vec![])]),
        ExecutionError::ExpectedList("got \"s\"".to_string())
    );
}

#[test]
fn the_first_arm_that_holds_is_executed() {
    let some = |value| Condition::IsSome { value, location: at(0, 0) };
    let none = |value| Condition::IsNone { value, location: at(0, 0) };
    let null = || Expression::NullLiteral;
    let (result, _, printed) = run(vec![
        if_(vec![
            (vec![some(null())], vec![print(vec![string("one")])]),
            (vec![none(null()), holds(Expression::TrueLiteral)], vec![print(vec![string("two")])]),
            (vec![], vec![print(vec![string("three")])]),
        ]),
        if_(vec![
            (vec![holds(Expression::FalseLiteral)], vec![print(vec![string("four")])]),
            (vec![], vec![let_(local("z"), integer(1)), print(vec![string("five")])]),
        ]),
        if_(vec![(vec![none(integer(1))], vec![print(vec![string("six")])])]),
        let_(local("z"), integer(2)),
    ]);
    assert_eq!(result, Ok(()));
    assert_eq!(printed, "two\nfive\n");
}

#[test]
fn all_conditions_of_an_arm_are_evaluated() {
    assert_eq!(
        error_of(vec![if_(vec![(
            vec![holds(Expression::FalseLiteral), holds(integer(3))],
            vec![],
        )])]),
        ExecutionError::ExpectedBoolean("got 3".to_string())
    );
}

#[test]
fn a_scan_goes_from_match_to_match() {
    let (result, _, printed) = run(vec![scan(
        string("ab12-cd3"),
        vec![
            ("([a-z])([a-z])", vec![print(vec![string("letters "), group(0), group(1), group(2)])]),
            ("[0-9]+", vec![print(vec![string("digits "), group(0)])]),
        ],
    )]);
    assert_eq!(result, Ok(()));
    assert_eq!(
        printed,
        "letters \"ab\"\"a\"\"b\"\ndigits \"12\"\nletters \"cd\"\"c\"\"d\"\ndigits \"3\"\n"
    );
}

#[test]
fn of_two_arms_that_match_at_the_same_place_the_first_counts() {
    let (_, _, printed) = run(vec![scan(
        string("xab"),
        vec![
            ("b", vec![print(vec![string("b")])]),
            ("ab", vec![print(vec![string("ab")])]),
            ("a", vec![print(vec![string("a")])]),
        ],
    )]);
    assert_eq!(printed, "ab\n");
}

#[test]
fn a_group_without_a_match_is_empty() {
    let (_, _, printed) = run(vec![scan(
        string("ac"),
        vec![("a(b)?(c)", vec![print(vec![group(1), group(2)])])],
    )]);
    assert_eq!(printed, "\"\"\"c\"\n");
}

#[test]
fn a_scan_counts_bytes_and_not_characters() {
    let (result, _, printed) = run(vec![scan(
        string("\u{e4}\u{20ac}x\u{e4}"),
        vec![("\u{20ac}", vec![print(vec![group(0)])]), ("\u{e4}$", vec![print(vec![group(0)])])],
    )]);
    assert_eq!(result, Ok(()));
    assert_eq!(printed, "\"\u{20ac}\"\n\"\u{e4}\"\n");
}

#[test]
fn the_rest_of_a_scan_starts_anew() {
    let (_, _, printed) = run(vec![scan(
        string("aab"),
        vec![("^a", vec![print(vec![string("start")])])],
    )]);
    assert_eq!(printed, "start\nstart\n");
}

#[test]
fn a_scan_ends_if_nothing_matches() {
    let (result, _, printed) =
        run(vec![scan(string("a-"), vec![("[a-z]", vec![print(vec![group(0)])])])]);
    assert_eq!(result, Ok(()));
    assert_eq!(printed, "\"a\"\n");
    let (result, _, printed) = run(vec![scan(string(""), vec![("x*", vec![])])]);
    assert_eq!(result, Ok(()));
    assert_eq!(printed, "");
}

#[test]
fn a_scan_cannot_match_nothing() {
    assert_eq!(
        error_of(vec![scan(string("abc"), vec![("a", vec![]), ("x*", vec![])])]),
        ExecutionError::EmptyRegexCapture("for regular expression /x*/".to_string())
    );
}

#[test]
fn scans_are_of_strings() {
    assert_eq!(
        error_of(vec![scan(integer(1), vec![])]),
        ExecutionError::ExpectedString("got 1".to_string())
    );
}

#[test]
fn errors_in_a_scan_tell_the_match() {
    let other = |text: &str, e| {
        ExecutionError::InContext(Context::Other(text.to_string()), Box::new(e))
    };
    assert_eq!(
        error_of(vec![scan(string("abc"), vec![("b+", vec![print(vec![get("x")])])])]),
        other(
            "Matching abc with arm \"b+\" { ... }",
            other(
                "Executing print x, at (9, 9)",
                ExecutionError::UndefinedVariable("x".to_string()),
            ),
        )
    );
}

#[test]
fn scans_can_be_nested() {
    let (_, _, printed) = run(vec![scan(
        string("a1 b2"),
        vec![(
            "([a-z])([0-9])",
            vec![
                scan(group(0), vec![("[0-9]", vec![print(vec![string("inner "), group(0)])])]),
                print(vec![string("outer "), group(1)]),
            ],
        )],
    )]);
    assert_eq!(printed, "inner \"1\"\nouter \"a\"\ninner \"2\"\nouter \"b\"\n");
}

fn shorthand(name: &str, variable: &str, attributes: Vec<Attribute>) -> AttributeShorthand {
    let variable = unscoped(variable);
    AttributeShorthand { name: id(name), variable, attributes, location: at(0, 0) }
}

#[test]
fn shorthands_stand_for_attributes() {
    let mut program = file(vec![vec![
        node("n"),
        let_(local("v"), integer(1)),
        attr(get("n"), "both", get("v")),
    ]]);
    program.shorthands.list = vec![
        shorthand(
            "both",
            "x",
            vec![attribute("first", get("x")), attribute("more", plus(vec![get("x"), integer(1)]))],
        ),
        shorthand("more", "y", vec![attribute("second", get("y")), attribute("plain", integer(0))]),
    ];
    let (result, graph, _) = run_file(&program, vec![matched(0, vec![(0, syntax(0, "m"))])]);
    assert_eq!(result, Ok(()));
    assert_eq!(attribute_of(&graph, 0, "first"), Some("1".to_string()));
    assert_eq!(attribute_of(&graph, 0, "second"), Some("2".to_string()));
    assert_eq!(attribute_of(&graph, 0, "plain"), Some("0".to_string()));
    assert_eq!(attribute_of(&graph, 0, "both"), None);
    assert_eq!(attribute_of(&graph, 0, "more"), None);
}

#[test]
fn shorthands_see_no_other_locals() {
    let mut program = file(vec![vec![
        node("n"),
        let_(local("v"), integer(1)),
        attr(get("n"), "s", integer(2)),
    ]]);
    program.shorthands.list = vec![shorthand("s", "x", vec![attribute("a", get("v"))])];
    let (result, _, _) = run_file(&program, vec![matched(0, vec![(0, syntax(0, "m"))])]);
    assert!(matches!(
        result,
        Err(ExecutionError::InContext(_, e))
            if *e == ExecutionError::UndefinedVariable("v".to_string())
    ));
}

#[test]
fn shorthands_work_on_edges_and_the_last_of_a_name_counts() {
    let mut program = file(vec![vec![
        node("n"),
        edge(get("n"), get("n")),
        edge_attr(get("n"), get("n"), "s", integer(2)),
    ]]);
    program.shorthands.list = vec![
        shorthand("s", "x", vec![attribute("s", get("x"))]),
        shorthand("s", "x", vec![attribute("t", get("x"))]),
    ];
    let (result, graph, _) = run_file(&program, vec![matched(0, vec![(0, syntax(0, "m"))])]);
    assert_eq!(result, Ok(()));
    let edge = graph.graph_nodes[0].get_edge(GraphNodeRef { index: 0 }).unwrap();
    assert_eq!(edge.get(&id("t")), Some(&Value::Integer(2)));
    assert_eq!(edge.get(&id("s")), None);
}

/// The error without the notes on it.
fn bare(error: ExecutionError) -> ExecutionError {
    match error {
        ExecutionError::InContext(_, error) => bare(*error),
        error => error,
    }
}

#[test]
fn a_shorthand_inside_of_itself_is_expanded_until_there_is_an_error() {
    let cycle = || {
        vec![
            shorthand("a", "x", vec![attribute("b", get("x"))]),
            shorthand("b", "x", vec![attribute("kept", get("x")), attribute("a", get("x"))]),
        ]
    };
    let globals = Globals::new();
    let matches = vec![matched(0, vec![(0, syntax(0, "m"))])];
    let mut program = file(vec![vec![node("n"), attr(get("n"), "a", integer(1))]]);
    program.shorthands.list = cycle();
    let mut graph = Graph::new();
    let (result, _, checks) = run_with(&program, &mut graph, &globals, &matches, 300);
    let at = "executing shorthand attributes".to_string();
    assert_eq!(result, Err(ExecutionError::Cancelled(CancellationError(at.clone()))));
    assert_eq!(checks.len(), 301);
    assert!(checks[6..].iter().all(|check| *check == at));
    assert_eq!(attribute_of(&graph, 0, "kept"), None);

    let mut program = file(vec![vec![node("n"), attr(get("n"), "c", integer(1))]]);
    program.shorthands.list = cycle();
    let (result, graph, _) = run_file(&program, vec![matched(0, vec![(0, syntax(0, "m"))])]);
    assert_eq!(result, Ok(()));
    assert_eq!(attribute_of(&graph, 0, "c"), Some("1".to_string()));

    let next = Expression::ListComprehension(ListComprehension {
        element: Box::new(plus(vec![list(vec![get("y")])])),
        variable: unscoped("y"),
        value: Box::new(get("x")),
        location: Location { row: 0, column: 0 },
    });
    let mut program = file(vec![vec![node("n"), attr(get("n"), "s", list(vec![integer(1)]))]]);
    program.shorthands.list = vec![shorthand("s", "x", vec![attribute("s", next)])];
    let (result, _, _) = run_file(&program, vec![matched(0, vec![(0, syntax(0, "m"))])]);
    assert_eq!(
        result.map_err(bare),
        Err(ExecutionError::FunctionFailed("[1]".to_string()))
    );
}

#[test]
fn shorthands_can_be_nested() {
    let mut program = file(vec![vec![node("n"), attr(get("n"), "a", integer(1))]]);
    program.shorthands.list = vec![
        shorthand("a", "x", vec![attribute("b", get("x"))]),
        shorthand("b", "x", vec![attribute("c", get("x"))]),
        shorthand("c", "x", vec![attribute("kept", get("x")), attribute("d", get("x"))]),
    ];
    let (result, graph, _) = run_file(&program, vec![matched(0, vec![(0, syntax(0, "m"))])]);
    assert_eq!(result, Ok(()));
    assert_eq!(attribute_of(&graph, 0, "kept"), Some("1".to_string()));
    assert_eq!(attribute_of(&graph, 0, "d"), Some("1".to_string()));
}

#[test]
fn shorthands_can_be_used_again_after_they_were_expanded() {
    let mut program = file(vec![vec![
        node("n"),
        node("m"),
        attr(get("n"), "s", integer(1)),
        attr(get("m"), "s", integer(2)),
        attr(get("m"), "t", integer(3)),
    ]]);
    program.shorthands.list = vec![
        shorthand("s", "x", vec![attribute("plain", get("x"))]),
        shorthand("t", "x", vec![attribute("u", get("x")), attribute("v", get("x"))]),
        shorthand("u", "x", vec![attribute("first", get("x"))]),
        shorthand("v", "x", vec![attribute("second", get("x"))]),
    ];
    let (result, graph, _) = run_file(&program, vec![matched(0, vec![(0, syntax(0, "m"))])]);
    assert_eq!(result, Ok(()));
    assert_eq!(attribute_of(&graph, 0, "plain"), Some("1".to_string()));
    assert_eq!(attribute_of(&graph, 1, "plain"), Some("2".to_string()));
    assert_eq!(attribute_of(&graph, 1, "first"), Some("3".to_string()));
    assert_eq!(attribute_of(&graph, 1, "second"), Some("3".to_string()));
}

#[test]
fn groups_can_only_be_asked_for_where_they_are() {
    let missing = |name: &str| ExecutionError::UndefinedRegexCapture(name.to_string());
    assert_eq!(error_of(vec![print(vec![group(0)])]), missing("$0"));
    assert_eq!(error_of(vec![for_("x", list(vec![group(12)]), vec![])]), missing("$12"));
    assert_eq!(error_of(vec![if_(vec![(vec![holds(group(0))], vec![])])]), missing("$0"));
    assert_eq!(error_of(vec![let_(scoped(group(0), "v"), integer(1))]), missing("$0"));
    assert_eq!(error_of(vec![attr(integer(1), "a", plus(vec![group(1)]))]), missing("$1"));
    let (result, _, printed) =
        run(vec![scan(string("a"), vec![("(a)", vec![print(vec![group(1)])])])]);
    assert_eq!(result, Ok(()));
    assert_eq!(printed, "\"a\"\n");
    let (result, _, _) = run(vec![scan(string("a"), vec![("(a)", vec![print(vec![group(2)])])])]);
    assert!(result.is_err());
}

#[test]
fn groups_that_are_not_asked_for_need_not_be_there() {
    let (result, _, printed) = run(vec![
        if_(vec![(vec![holds(Expression::FalseLiteral)], vec![print(vec![group(0)])])]),
        for_("x", list(vec![]), vec![print(vec![group(0)])]),
        scan(string("b"), vec![("a", vec![print(vec![group(7)])])]),
        print(vec![string("done")]),
    ]);
    assert_eq!(result, Ok(()));
    assert_eq!(printed, "done\n");
}

#[test]
fn shorthands_see_the_groups_of_the_scan() {
    let mut program = file(vec![vec![
        node("n"),
        scan(string("ab"), vec![("a(b)", vec![attr(get("n"), "inside", integer(1))])]),
        attr(get("n"), "outside", integer(2)),
    ]]);
    program.shorthands.list = vec![
        shorthand("inside", "x", vec![attribute("group", group(1))]),
        shorthand("outside", "x", vec![attribute("value", get("x"))]),
    ];
    let (result, graph, _) = run_file(&program, vec![matched(0, vec![(0, syntax(0, "m"))])]);
    assert_eq!(result, Ok(()));
    assert_eq!(attribute_of(&graph, 0, "group"), Some("\"b\"".to_string()));
    assert_eq!(attribute_of(&graph, 0, "value"), Some("2".to_string()));
}

#[test]
fn there_must_be_a_stanza_for_each_match() {
    let program = file(vec![vec![node("n")]]);
    let module = || vec![(0, syntax(0, "m"))];
    let (result, graph, _) =
        run_file(&program, vec![matched(0, module()), matched(0, module())]);
    assert_eq!(result, Ok(()));
    assert_eq!(graph.graph_nodes.len(), 2);
    let (result, graph, _) =
        run_file(&program, vec![matched(0, module()), matched(13, module())]);
    assert_eq!(result, Err(ExecutionError::UndefinedStanza("13".to_string())));
    assert_eq!(graph.graph_nodes.len(), 1);
}

#[test]
fn attributes_before_a_failing_one_stay() {
    let config_globals = Globals::new();
    let config = ExecutionConfig {
        globals: &config_globals,
        location_attr: None,
        variable_name_attr: None,
    };
    let shorthands = AttributeShorthands {
        list: vec![shorthand(
            "s",
            "x",
            vec![attribute("two", get("x")), attribute("nope", get("y"))],
        )],
    };
    let mat = matched(0, vec![]);
    let mut exec = ExecutionContext {
        eval: EvaluationContext {
            source: "",
            graph: Graph::new(),
            functions: &mut NoFunctions::new(),
            store: LazyStore::new(),
            scoped_store: LazyScopedVariables::new(),
            prev_element_debug_info: Table::new(),
            printed: String::new(),
            cancellation_flag: &mut NoCancellation::new(),
        },
        config: &config,
        locals: VariableMap::new(),
        current_regex_captures: vec![],
        mat: &mat,
        lazy_graph: vec![],
        shorthands: &shorthands,
        open_shorthands: 0,
    };
    let names = |collected: &Vec<LazyAttribute>| -> Vec<String> {
        collected.iter().map(|attribute| attribute.name.name.clone()).collect()
    };
    let undefined = Err(ExecutionError::UndefinedVariable("y".to_string()));

    let mut collected = vec![];
    let attributes = vec![
        attribute("one", integer(1)),
        attribute("s", integer(2)),
        attribute("three", integer(3)),
    ];
    assert_eq!(Attribute::execute_all(&attributes, &mut exec, &mut collected), undefined);
    assert_eq!(names(&collected), vec!["one", "two"]);

    let mut collected = vec![];
    assert_eq!(attributes[1].execute_lazy(&mut exec, &mut collected), undefined);
    assert_eq!(names(&collected), vec!["two"]);

    let mut collected = vec![];
    let value = LazyValue::Value(Value::Integer(2));
    assert_eq!(shorthands.list[0].execute_lazy(&mut exec, &mut collected, value), undefined);
    assert_eq!(names(&collected), vec!["two"]);
    assert_eq!(exec.lazy_graph.len(), 0);

    exec.open_shorthands = usize::MAX;
    let value = LazyValue::Value(Value::Integer(2));
    assert_eq!(
        shorthands.list[0].execute_lazy(&mut exec, &mut collected, value),
        Err(ExecutionError::RecursivelyDefinedShorthand("s".to_string()))
    );
    assert_eq!(names(&collected), vec!["two"]);
}

fn span(start: usize, text: &str) -> Option<Span> {
    Some(Span { start, end: start + text.len(), text: text.to_string() })
}

#[test]
fn the_better_arm_comes_first() {
    let arm = |index, groups| Some(ArmMatch { index, groups });
    let found = |best, index, groups| ArmMatch::better(best, index, "p", groups);
    assert_eq!(found(None, 0, None), Ok(None));
    assert_eq!(found(None, 3, Some(vec![span(5, "x")])), Ok(arm(3, vec![span(5, "x")])));
    let best = || arm(1, vec![span(5, "x"), None]);
    assert_eq!(found(best(), 2, None), Ok(best()));
    assert_eq!(found(best(), 2, Some(vec![span(5, "xy")])), Ok(best()));
    assert_eq!(found(best(), 2, Some(vec![span(6, "y")])), Ok(best()));
    assert_eq!(found(best(), 2, Some(vec![span(4, "w")])), Ok(arm(2, vec![span(4, "w")])));
    for start in [0, 5, 9] {
        assert_eq!(
            found(best(), 2, Some(vec![span(start, "")])),
            Err(ExecutionError::EmptyRegexCapture("for regular expression /p/".to_string()))
        );
    }
}

#[test]
fn groups_are_given_as_strings() {
    assert_eq!(
        group_strings(&vec![span(2, "ab"), None, span(3, "b"), span(4, "")]),
        vec!["ab", "", "b", ""]
    );
    assert_eq!(group_strings(&vec![]), Vec::<String>::new());
}

#[test]
fn a_given_graph_stays_when_the_execution_fails() {
    let given = || {
        let mut graph = Graph::new();
        let (a, b) = (graph.add_graph_node(), graph.add_graph_node());
        graph.add_attribute(a, id("kept"), Value::Integer(1));
        graph.add_edge(a, b);
        graph
    };
    let matches = vec![matched(0, vec![(0, syntax(0, "module"))])];
    let globals = Globals::new();
    for last in [set(local("nope"), integer(1)), edge(integer(1), get("n"))] {
        let program = file(vec![vec![
            node("n"),
            edge(get("n"), get("n")),
            attr(get("n"), "x", integer(2)),
            last,
        ]]);
        let mut graph = given();
        let (result, _, _) = run_with(&program, &mut graph, &globals, &matches, usize::MAX);
        assert!(result.is_err());
        assert_eq!(graph.graph_nodes.len(), 3);
        assert_eq!(attribute_of(&graph, 0, "kept"), Some("1".to_string()));
        assert!(graph.has_edge(GraphNodeRef { index: 0 }, GraphNodeRef { index: 1 }));
        assert!(!graph.has_edge(GraphNodeRef { index: 1 }, GraphNodeRef { index: 0 }));
    }
}

/// One function, which gives an attribute of the first node another value.
struct Overwriting;

impl Functions for Overwriting {
    fn outcomes(&self) -> Outcomes {
        unreachable!()
    }

    fn call(
        &mut self,
        _function: &Identifier,
        graph: &mut Graph,
        _source: &str,
        _arguments: Vec<Value>,
    ) -> Result<Value, ExecutionError> {
        graph.add_attribute(GraphNodeRef { index: 0 }, id("value"), Value::Integer(2));
        Ok(Value::Null)
    }
}

#[test]
fn nodes_and_edges_stay_even_if_a_function_changes_attributes() {
    let mut graph = Graph::new();
    let (a, b) = (graph.add_graph_node(), graph.add_graph_node());
    graph.add_attribute(a, id("value"), Value::Integer(1));
    graph.add_edge(a, b);
    let globals = Globals::new();
    let config =
        ExecutionConfig { globals: &globals, location_attr: None, variable_name_attr: None };
    let program = file(vec![vec![print(vec![plus(vec![])]), edge(integer(1), integer(2))]]);
    let result = program.execute_matches(
        &mut graph,
        &vec![matched(0, vec![(0, syntax(0, "m"))])],
        "",
        &config,
        &mut Overwriting,
        &mut NoCancellation::new(),
        &mut String::new(),
    );
    assert!(result.is_err());
    assert_eq!(graph.graph_nodes.len(), 2);
    assert!(graph.has_edge(a, b));
    assert_eq!(attribute_of(&graph, 0, "value"), Some("2".to_string()));
}

#[test]
fn the_flag_is_only_checked_where_there_is_something_to_do() {
    let globals = Globals::new();
    let mut graph = Graph::new();
    let mut program = file(vec![vec![node("n")]]);
    let (result, _, checks) = run_with(&program, &mut graph, &globals, &vec![], 0);
    assert_eq!(result, Ok(()));
    assert_eq!(checks, Vec::<String>::new());

    let matches =
        vec![matched(0, vec![(0, syntax(0, "m"))]), matched(0, vec![(0, syntax(0, "m"))])];
    let (result, _, checks) = run_with(&program, &mut graph, &globals, &matches, 0);
    let stopped = CancellationError("processing matches".to_string());
    assert_eq!(result, Err(ExecutionError::Cancelled(stopped)));
    assert_eq!(checks, vec!["processing matches"]);

    program.globals = vec![Global {
        name: id("g"),
        quantifier: CaptureQuantifier::One,
        default: None,
        location: at(0, 0),
    }];
    let (result, _, checks) = run_with(&program, &mut graph, &globals, &matches, 0);
    assert_eq!(result, Err(ExecutionError::MissingGlobalVariable("g".to_string())));
    assert_eq!(checks, Vec::<String>::new());
    assert_eq!(graph.graph_nodes.len(), 0);
}

fn run_debug(
    location: Option<&str>,
    variable: Option<&str>,
) -> (Result<(), ExecutionError>, Graph) {
    let globals = Globals::new();
    let config = ExecutionConfig {
        globals: &globals,
        location_attr: location.map(id),
        variable_name_attr: variable.map(id),
    };
    let mut graph = Graph::new();
    let program = file(vec![vec![node("n")]]);
    let result = program.execute_matches(
        &mut graph,
        &vec![matched(0, vec![(0, syntax(0, "m"))])],
        "",
        &config,
        &mut NoFunctions::new(),
        &mut NoCancellation::new(),
        &mut String::new(),
    );
    (result, graph)
}

#[test]
fn new_nodes_can_tell_where_they_come_from() {
    let (result, graph) = run_debug(Some("place"), Some("name"));
    assert_eq!(result, Ok(()));
    assert_eq!(attribute_of(&graph, 0, "place"), Some("\"line 2 column 2\"".to_string()));
    assert_eq!(attribute_of(&graph, 0, "name"), Some("\"n\"".to_string()));
    let (result, _) = run_debug(Some("same"), Some("same"));
    assert!(matches!(
        result,
        Err(ExecutionError::InContext(_, e))
            if *e == ExecutionError::DuplicateAttribute("same".to_string())
    ));
}

fn graph_error(statements: Vec<Statement>) -> (String, ExecutionError) {
    match run(statements).0 {
        Err(ExecutionError::InContext(Context::Other(text), error)) => (text, *error),
        other => panic!("{:?}", other),
    }
}

#[test]
fn edges_and_attributes_are_added_once() {
    assert_eq!(
        graph_error(vec![node("n"), edge(get("n"), get("n")), edge(get("n"), get("n"))]),
        (
            "Executing edge (load 0) -> (load 0) at (7, 7)".to_string(),
            ExecutionError::DuplicateEdge(
                "([graph node 0] -> [graph node 0]) at (7, 7) and (7, 7)".to_string()
            )
        )
    );
    assert_eq!(
        graph_error(vec![
            node("n"),
            attr(get("n"), "a", integer(1)),
            attr(get("n"), "a", integer(2)),
        ]),
        (
            "Executing attr ((load 0)) a = 2 at (6, 6)".to_string(),
            ExecutionError::DuplicateAttribute(
                "a on [graph node 0] at (6, 6) and (6, 6)".to_string()
            )
        )
    );
    assert_eq!(
        graph_error(vec![
            node("n"),
            edge(get("n"), get("n")),
            edge_attr(get("n"), get("n"), "a", integer(1)),
            edge_attr(get("n"), get("n"), "a", integer(2)),
        ])
        .1,
        ExecutionError::DuplicateAttribute(
            "a on edge ([graph node 0] -> [graph node 0]) at (8, 8) and (8, 8)".to_string()
        )
    );
    assert_eq!(
        graph_error(vec![node("n"), edge_attr(get("n"), get("n"), "a", integer(1))]).1,
        ExecutionError::UndefinedEdge(
            "([graph node 0] -> [graph node 0]) at (8, 8)".to_string()
        )
    );
}

#[test]
fn attributes_are_set_on_graph_nodes() {
    assert_eq!(
        graph_error(vec![attr(integer(1), "a", integer(1))]).1,
        ExecutionError::ExpectedGraphNode("got 1".to_string())
    );
    let mut globals = Globals::new();
    globals.add(id("g"), Value::GraphNode(GraphNodeRef { index: 5 })).unwrap();
    let mut graph = Graph::new();
    let matches = vec![matched(0, vec![(0, syntax(0, "m"))])];
    let program = file(vec![vec![attr(get("g"), "a", integer(1))]]);
    let (result, _, _) = run_with(&program, &mut graph, &globals, &matches, usize::MAX);
    assert!(matches!(
        result,
        Err(ExecutionError::InContext(_, e))
            if *e == ExecutionError::UndefinedGraphNode("[graph node 5]".to_string())
    ));
}

#[test]
fn print_shows_values_and_writes_strings() {
    let (_, _, printed) = run(vec![
        print(vec![string("a \"b\" "), list(vec![string("c"), Expression::TrueLiteral])]),
        print(vec![]),
    ]);
    assert_eq!(printed, "a \"b\" [\"c\", #true]\n\n");
}

#[test]
fn functions_that_fail_stop_the_execution() {
    let (text, error) = graph_error(vec![print(vec![plus(vec![integer(1), string("x")])])]);
    assert_eq!(text, "Executing print (call 'plus 1 \"x\"), at (9, 9)");
    assert_eq!(error, ExecutionError::FunctionFailed("\"x\"".to_string()));
}

fn checks(statements: Vec<Statement>) -> Vec<String> {
    let mut graph = Graph::new();
    let globals = Globals::new();
    let matches = vec![matched(0, vec![(0, syntax(0, "m"))])];
    let (result, _, checks) =
        run_with(&file(vec![statements]), &mut graph, &globals, &matches, usize::MAX);
    assert_eq!(result, Ok(()));
    checks
}

#[test]
fn the_flag_is_checked_all_along() {
    assert_eq!(
        checks(vec![node("n"), attr(get("n"), "a", integer(1))]),
        vec![
            "processing matches",
            "executing stanza statements",
            "executing statement",
            "executing stanza statements",
            "executing statement",
            "executing graph node attributes",
            "executing shorthand attributes",
            "evaluating statement",
            "evaluating value",
            "evaluating value",
            "evaluating value",
        ]
    );
    assert_eq!(
        checks(vec![scan(string("a"), vec![("a", vec![let_(local("x"), integer(1))])])]),
        vec![
            "processing matches",
            "executing stanza statements",
            "executing statement",
            "evaluating value",
            "processing scan matches",
            "executing scan statements",
            "executing statement",
        ]
    );
    assert_eq!(
        checks(vec![for_(
            "x",
            list(vec![integer(1)]),
            vec![if_(vec![(vec![], vec![let_(local("y"), integer(1))])])],
        )]),
        vec![
            "processing matches",
            "executing stanza statements",
            "executing statement",
            "evaluating value",
            "evaluating value",
            "executing for statements",
            "executing statement",
            "executing if statements",
            "executing statement",
        ]
    );
    let comprehension = Expression::SetComprehension(SetComprehension {
        element: Box::new(get("x")),
        variable: unscoped("x"),
        value: Box::new(list(vec![integer(1)])),
        location: at(0, 0),
    });
    assert_eq!(
        checks(vec![let_(local("y"), comprehension)]),
        vec![
            "processing matches",
            "executing stanza statements",
            "executing statement",
            "evaluating value",
            "evaluating value",
            "executing set comprehension values",
        ]
    );
}

#[test]
fn a_cancelled_execution_stops_without_notes() {
    let statements = || {
        vec![
            node("n"),
            scan(string("a"), vec![("a", vec![attr(get("n"), "a", group(0))])]),
            edge(get("n"), get("n")),
        ]
    };
    let matches = vec![matched(0, vec![(0, syntax(0, "m"))])];
    let globals = Globals::new();
    let mut graph = Graph::new();
    let (result, _, all) =
        run_with(&file(vec![statements()]), &mut graph, &globals, &matches, usize::MAX);
    assert_eq!(result, Ok(()));
    for limit in 0..all.len() {
        let mut graph = Graph::new();
        let (result, _, checks) =
            run_with(&file(vec![statements()]), &mut graph, &globals, &matches, limit);
        assert_eq!(
            result,
            Err(ExecutionError::Cancelled(CancellationError(all[limit].clone())))
        );
        assert_eq!(checks, all[..limit + 1].to_vec());
    }
}

#[test]
fn statements_are_shown_as_they_are_written() {
    assert_eq!(node("n").text(), "node n at (5, 5)");
    assert_eq!(
        attr(get("n"), "a", list(vec![integer(1), integer(2)])).text(),
        "attr (n) a = [1, 2] at (6, 6)"
    );
    assert_eq!(
        edge_attr(get("n"), get("m"), "a", Expression::NullLiteral).text(),
        "attr (n -> m) a = #null at (8, 8)"
    );
    assert_eq!(scan(group(1), vec![]).text(), "scan $1 { ... } at (10, 10)");
    assert_eq!(
        for_("x", Expression::SetLiteral(SetLiteral { elements: vec![] }), vec![]).text(),
        "for x in {} { ... } at (12, 12)"
    );
    assert_eq!(
        if_(vec![
            (
                vec![holds(get("a")), Condition::IsSome { value: get("b"), location: at(0, 0) }],
                vec![],
            ),
            (vec![Condition::IsNone { value: get("c"), location: at(0, 0) }], vec![]),
            (vec![], vec![]),
        ])
        .text(),
        "if a, some b { ... } elif none c { ... } else { ... } at (11, 11)"
    );
    assert_eq!(
        let_(scoped(plus(vec![integer(1)]), "v"), Expression::FalseLiteral).text(),
        "let (plus 1).v = #false at (5, 5)"
    );
    assert_eq!(var(local("x"), string("s")).text(), "var x = \"s\" at (5, 5)");
}
