use tree_sitter_graph::ast::AttributeShorthands;
use tree_sitter_graph::ast::Capture;
use tree_sitter_graph::ast::CaptureQuantifier;
use tree_sitter_graph::ast::DeclareImmutable;
use tree_sitter_graph::ast::Expression;
use tree_sitter_graph::ast::File;
use tree_sitter_graph::ast::Global;
use tree_sitter_graph::ast::Print;
use tree_sitter_graph::ast::RegexCapture;
use tree_sitter_graph::ast::ScopedVariable;
use tree_sitter_graph::ast::Stanza;
use tree_sitter_graph::ast::Statement;
use tree_sitter_graph::ast::Variable;
use tree_sitter_graph::cancellation::Answers;
use tree_sitter_graph::cancellation::CancellationFlag;
use tree_sitter_graph::cancellation::NoCancellation;
use tree_sitter_graph::error::CancellationError;
use tree_sitter_graph::error::ExecutionError;
use tree_sitter_graph::functions::NoFunctions;
use tree_sitter_graph::graph::Graph;
use tree_sitter_graph::identifier::Identifier;
use tree_sitter_graph::lazy::ExecutionConfig;
use tree_sitter_graph::location::Location;
use tree_sitter_graph::variables::Globals;

fn parse(source: &str) -> tree_sitter::Tree {
    let mut parser = tree_sitter::Parser::new();
    parser.set_language(tree_sitter_python::language()).unwrap();
    parser.parse(source, None).unwrap()
}

fn query(patterns: &str) -> tree_sitter::Query {
    tree_sitter::Query::new(tree_sitter_python::language(), patterns).unwrap()
}

const PLACE: Location = Location { row: 0, column: 0 };

fn id(name: &str) -> Identifier {
    Identifier { name: name.to_string() }
}

fn capture(index: usize, quantifier: CaptureQuantifier) -> Expression {
    Expression::Capture(Capture {
        name: id("c"),
        quantifier,
        file_capture_index: index,
        location: PLACE,
    })
}

fn stanza(full: usize, statements: Vec<Statement>) -> Stanza {
    Stanza { statements, full_match_file_capture_index: full, location: PLACE }
}

fn print(value: Expression) -> Statement {
    Statement::Print(Print { values: vec![value], location: PLACE })
}

fn printing(index: usize, quantifier: CaptureQuantifier, full: usize) -> Stanza {
    stanza(full, vec![print(capture(index, quantifier))])
}

fn scoped(index: usize, name: &str) -> Variable {
    let scope = Box::new(capture(index, CaptureQuantifier::One));
    Variable::Scoped(ScopedVariable { scope, name: id(name), location: PLACE })
}

fn file(query: Option<tree_sitter::Query>, stanzas: Vec<Stanza>) -> File {
    File { globals: vec![], query, stanzas, shorthands: AttributeShorthands { list: vec![] } }
}

/// Counts how often it is checked, and always stops.
struct Stop {
    checks: usize,
}

impl CancellationFlag for Stop {
    fn answers(&self) -> Answers {
        unreachable!()
    }

    fn check(&mut self, at: &str) -> Result<(), CancellationError> {
        self.checks += 1;
        Err(CancellationError(at.to_string()))
    }
}

fn run(
    file: &File,
    tree: &tree_sitter::Tree,
    source: &str,
) -> (Option<Result<(), ExecutionError>>, String) {
    let globals = Globals::new();
    let config =
        ExecutionConfig { globals: &globals, location_attr: None, variable_name_attr: None };
    let mut printed = "".to_string();
    let result = file.try_execute_lazy_into(
        &mut Graph::new(),
        tree,
        source,
        &config,
        &mut NoFunctions::new(),
        &mut NoCancellation::new(),
        &mut printed,
    );
    (result, printed)
}

#[test]
fn a_program_is_executed_for_the_matches_of_its_query() {
    let source = "pass\nx = 1\npass\n";
    let tree = parse(source);
    let program = file(
        Some(query("(pass_statement) @stmt (assignment left: (identifier) @name) @full")),
        vec![
            printing(0, CaptureQuantifier::One, 0),
            printing(1, CaptureQuantifier::ZeroOrMore, 2),
        ],
    );
    let (result, printed) = run(&program, &tree, source);
    assert_eq!(result, Some(Ok(())));
    assert_eq!(
        printed,
        "[syntax node pass_statement (1, 1)]\n\
         [[syntax node identifier (2, 1)]]\n\
         [syntax node pass_statement (3, 1)]\n"
    );
}

#[test]
fn predicates_of_the_query_see_the_source() {
    let source = "x = 1\ny = 2\n";
    let tree = parse(source);
    let program = file(
        Some(query("((identifier) @name (#eq? @name \"y\"))")),
        vec![printing(0, CaptureQuantifier::One, 0)],
    );
    let (result, printed) = run(&program, &tree, source);
    assert_eq!(result, Some(Ok(())));
    assert_eq!(printed, "[syntax node identifier (2, 1)]\n");
}

#[test]
fn the_unchecked_execution_does_the_same() {
    let source = "pass\n";
    let tree = parse(source);
    let program = file(
        Some(query("(pass_statement) @stmt")),
        vec![printing(0, CaptureQuantifier::One, 0)],
    );
    let globals = Globals::new();
    let config =
        ExecutionConfig { globals: &globals, location_attr: None, variable_name_attr: None };
    let mut printed = "before ".to_string();
    let mut graph = Graph::new();
    let result = program.execute_lazy_into(
        &mut graph,
        &tree,
        source,
        &config,
        &mut NoFunctions::new(),
        &mut NoCancellation::new(),
        &mut printed,
    );
    assert_eq!(result, Ok(()));
    assert_eq!(printed, "before [syntax node pass_statement (1, 1)]\n");
}

#[test]
fn a_variable_of_a_node_can_be_read_by_another_stanza() {
    let source = "x = 1\ny = 2\n";
    let tree = parse(source);
    let defining = || {
        let variable = scoped(0, "whole");
        let value = capture(1, CaptureQuantifier::One);
        let statement = DeclareImmutable { variable, value, location: PLACE };
        stanza(1, vec![Statement::DeclareImmutable(statement)])
    };
    let reading = |index| {
        stanza(index, vec![print(Expression::Variable(scoped(index, "whole")))])
    };
    let shown = "[syntax node assignment (1, 1)]\n[syntax node assignment (2, 1)]\n";

    let program = file(
        Some(query("(assignment left: (identifier) @name) @full (identifier) @id")),
        vec![defining(), reading(2)],
    );
    let (result, printed) = run(&program, &tree, source);
    assert_eq!(result, Some(Ok(())));
    assert_eq!(printed, shown);

    let program = file(
        Some(query("(assignment left: (identifier) @name) @full (integer) @number")),
        vec![defining(), reading(2)],
    );
    let (result, printed) = run(&program, &tree, source);
    assert!(matches!(result, Some(Err(_))));
    assert_eq!(printed, "");
}

#[test]
fn a_program_needs_a_query_and_its_stanzas() {
    let source = "pass\n";
    let tree = parse(source);
    let program = file(None, vec![]);
    assert_eq!(run(&program, &tree, source).0, Some(Err(ExecutionError::MissingQuery)));
    let program = file(Some(query("(pass_statement) @stmt")), vec![]);
    let expected = ExecutionError::UndefinedStanza("0".to_string());
    assert_eq!(run(&program, &tree, source).0, Some(Err(expected)));
    let program = file(Some(query("(assignment) @stmt")), vec![]);
    assert_eq!(run(&program, &tree, source).0, Some(Ok(())));
}

#[test]
fn the_tree_must_end_within_the_source() {
    let source = "pass\n";
    let tree = parse(source);
    let mut program = file(
        Some(query("(pass_statement) @stmt")),
        vec![printing(0, CaptureQuantifier::One, 0)],
    );
    assert_eq!(run(&program, &tree, "pas").0, None);
    assert_eq!(run(&program, &tree, "pass\n\n").0, Some(Ok(())));
    program.globals = vec![global("g")];
    let missing = ExecutionError::MissingGlobalVariable("g".to_string());
    assert_eq!(run(&program, &tree, "pas").0, Some(Err(missing)));
    let program = file(None, vec![]);
    assert_eq!(run(&program, &tree, "pas").0, Some(Err(ExecutionError::MissingQuery)));
}

fn global(name: &str) -> Global {
    Global { name: id(name), quantifier: CaptureQuantifier::One, default: None, location: PLACE }
}

#[test]
fn groups_that_are_not_there_cannot_be_shown() {
    let source = "pass\n";
    let tree = parse(source);
    let group = Expression::RegexCapture(RegexCapture { match_index: 0 });
    let program =
        file(Some(query("(pass_statement) @stmt")), vec![stanza(0, vec![print(group)])]);
    match run(&program, &tree, source).0 {
        Some(Err(ExecutionError::InContext(_, e))) => {
            assert_eq!(*e, ExecutionError::UndefinedRegexCapture("$0".to_string()));
        }
        other => panic!("{:?}", other),
    }
}

#[test]
fn the_flag_is_checked_once_it_stops() {
    let source = "pass\npass\n";
    let tree = parse(source);
    let stopped = |program: &File| {
        let globals = Globals::new();
        let config =
            ExecutionConfig { globals: &globals, location_attr: None, variable_name_attr: None };
        let mut flag = Stop { checks: 0 };
        let result = program.try_execute_lazy_into(
            &mut Graph::new(),
            &tree,
            source,
            &config,
            &mut NoFunctions::new(),
            &mut flag,
            &mut String::new(),
        );
        (result.unwrap(), flag.checks)
    };
    let shown = || vec![printing(0, CaptureQuantifier::One, 0)];
    let mut program = file(Some(query("(pass_statement) @stmt")), shown());
    let cancelled = CancellationError("processing matches".to_string());
    assert_eq!(stopped(&program), (Err(ExecutionError::Cancelled(cancelled)), 1));

    program.globals = vec![global("g")];
    let missing = || ExecutionError::MissingGlobalVariable("g".to_string());
    assert_eq!(stopped(&program), (Err(missing()), 0));
    program.query = None;
    assert_eq!(stopped(&program), (Err(missing()), 0));
    program.globals = vec![];
    assert_eq!(stopped(&program), (Err(ExecutionError::MissingQuery), 0));

    let program = file(Some(query("(assignment) @stmt")), shown());
    assert_eq!(stopped(&program), (Ok(()), 0));
}
