//! Execution of programs.

use vstd::prelude::*;
use vstd::string::*;

use crate::ast::CaptureQuantifier;
use crate::ast::File;
use crate::cancellation::CancellationFlag;
use crate::error::Context;
use crate::error::ExecutionError;
use crate::functions::Functions;
use crate::graph::Graph;
use crate::identifier::Identifier;
use crate::lazy::execution::Ending;
use crate::lazy::statements::LazyStatement;
use crate::lazy::statements::LazyStatementModel;
use crate::lazy::store::LazyScopedVariables;
use crate::lazy::store::LazyStore;
use crate::lazy::EvaluationContext;
use crate::lazy::ExecutionConfig;
use crate::lazy::ExecutionContext;
use crate::matching::end_of_tree;
use crate::matching::find_matches;
use crate::matching::QueryMatch;
use crate::table::Table;
use crate::text::decimal;
use crate::values::Value;
use crate::variables::Globals;
use crate::variables::VariableMap;

verus! {

impl File {
    /// Adds the defaults of the global variables that are not given. One without a default must be
    /// given, and one that stands for several things must be a list.
    pub fn check_globals(&self, globals: &mut Globals) -> (r: Result<(), ExecutionError>)
        ensures
            (match r {
                Ok(()) => Ok(final(globals).model()),
                Err(e) => Err(e@),
            }) == crate::lazy::execution::checked_globals(
                self.globals@,
                0,
                old(globals).model(),
            ),
    {
        let ghost before = globals.model();
        let mut i: usize = 0;
        while i < self.globals.len()
            invariant
                i <= self.globals.len(),
                before == old(globals).model(),
                crate::lazy::execution::checked_globals(self.globals@, 0, before)
                    == crate::lazy::execution::checked_globals(
                    self.globals@,
                    i as int,
                    globals.model(),
                ),
            decreases self.globals.len() - i,
        {
            let global = &self.globals[i];
            let ghost known = globals.model();
            match globals.get(&global.name) {
                None => match &global.default {
                    None => {
                        return Err(
                            ExecutionError::MissingGlobalVariable(global.name.name.clone()),
                        );
                    },
                    Some(default) => {
                        let added = globals.add(
                            global.name.clone(),
                            Value::String(default.clone()),
                        );
                        assert(added is Ok);
                    },
                },
                Some(value) => {
                    let several = match global.quantifier {
                        CaptureQuantifier::ZeroOrMore => true,
                        CaptureQuantifier::OneOrMore => true,
                        _ => false,
                    };
                    let is_list = match value {
                        Value::List(_) => true,
                        _ => false,
                    };
                    if several && !is_list {
                        return Err(ExecutionError::ExpectedList(global.name.name.clone()));
                    }
                },
            }
            i += 1;
        }
        Ok(())
    }

    /// Executes the stanzas for the matches, up to the first error.
    fn execute_stanzas<'a, C: CancellationFlag, F: Functions>(
        &self,
        matches: &'a Vec<QueryMatch>,
        exec: &mut ExecutionContext<'a, C, F>,
    ) -> (r: Result<(), ExecutionError>)
        requires
            old(exec)@.valid(),
        ensures
            (crate::error::unit_model(r), final(exec)@) == old(exec)@.execute_matches(
                old(exec).cx(),
                self.stanzas@,
                crate::matching::matches_model(matches@),
                0,
            ),
            old(exec)@.leads_to(final(exec)@),
            *final(final(exec).eval.functions) == *final(old(exec).eval.functions),
            *final(final(exec).eval.cancellation_flag) == *final(old(exec).eval.cancellation_flag),
    {
        let ghost before = exec@;
        let ghost cx = exec.cx();
        let ghost models = crate::matching::matches_model(matches@);
        let mut i: usize = 0;
        while i < matches.len()
            invariant
                *final(exec.eval.functions) == *final(old(exec).eval.functions),
                *final(exec.eval.cancellation_flag) == *final(old(exec).eval.cancellation_flag),
                i <= matches.len(),
                before == old(exec)@,
                cx == old(exec).cx(),
                models == crate::matching::matches_model(matches@),
                exec.cx() == (crate::lazy::execution::Surroundings { mat: exec.cx().mat, ..cx }),
                before.leads_to(exec@),
                before.execute_matches(cx, self.stanzas@, models, 0) == exec@.execute_matches(
                    cx,
                    self.stanzas@,
                    models,
                    i as int,
                ),
            decreases matches.len() - i,
        {
            match exec.check("processing matches") {
                Err(e) => {
                    return Err(e);
                },
                Ok(()) => {},
            }
            exec.mat = &matches[i];
            assert(exec.mat@ == models[i as int]);
            let pattern_index = matches[i].pattern_index;
            if pattern_index >= self.stanzas.len() {
                return Err(ExecutionError::UndefinedStanza(decimal(pattern_index as u128)));
            }
            match self.stanzas[pattern_index].execute_lazy(exec) {
                Err(e) => {
                    return Err(e);
                },
                Ok(()) => {},
            }
            i += 1;
        }
        Ok(())
    }

    /// Evaluates the lazy graph, up to the first error.
    fn evaluate_graph<C: CancellationFlag, F: Functions>(
        lazy_graph: &Vec<LazyStatement>,
        exec: &mut EvaluationContext<C, F>,
    ) -> (r: Result<(), ExecutionError>)
        requires
            old(exec)@.valid(),
            crate::lazy::execution::lazy_graph_below(
                crate::lazy::lazy_graph_model(lazy_graph@),
                old(exec)@.store.len(),
            ),
        ensures
            (crate::error::unit_model(r), final(exec)@) == old(exec)@.evaluate_graph(
                crate::lazy::lazy_graph_model(lazy_graph@),
                0,
            ),
            *final(final(exec).functions) == *final(old(exec).functions),
            *final(final(exec).cancellation_flag) == *final(old(exec).cancellation_flag),
    {
        let ghost before = exec@;
        let ghost models = crate::lazy::lazy_graph_model(lazy_graph@);
        let mut i: usize = 0;
        while i < lazy_graph.len()
            invariant
                *final(exec.functions) == *final(old(exec).functions),
                *final(exec.cancellation_flag) == *final(old(exec).cancellation_flag),
                i <= lazy_graph.len(),
                before == old(exec)@,
                models == crate::lazy::lazy_graph_model(lazy_graph@),
                exec@.valid(),
                crate::lazy::execution::lazy_graph_below(models, exec@.store.len()),
                before.evaluate_graph(models, 0) == exec@.evaluate_graph(models, i as int),
            decreases lazy_graph.len() - i,
        {
            assert(models[i as int] == lazy_graph@[i as int]@);
            match lazy_graph[i].evaluate(exec) {
                Err(e) => {
                    let mut note = "Executing ".to_owned();
                    note.append(lazy_graph[i].text().as_str());
                    return Err(e.with_context(Context::Other(note)));
                },
                Ok(()) => {},
            }
            i += 1;
        }
        Ok(())
    }

    /// Executes this program for the given matches of its query, with the global variables that
    /// `config` holds.
    fn execute_checked<C: CancellationFlag, F: Functions>(
        &self,
        graph: &mut Graph,
        matches: &Vec<QueryMatch>,
        source: &str,
        config: &ExecutionConfig,
        functions: &mut F,
        cancellation_flag: &mut C,
        printed: &mut String,
    ) -> (r: Result<(), ExecutionError>)
        ensures
            ({
                let (result, after) = self.run_matches(
                    config.globals.model(),
                    crate::lazy::name_model(config.location_attr),
                    crate::lazy::name_model(config.variable_name_attr),
                    crate::matching::matches_model(matches@),
                    crate::lazy::execution::initial_state(
                        source@,
                        old(graph)@,
                        old(functions).outcomes(),
                        old(printed)@,
                        old(cancellation_flag).answers(),
                    ),
                );
                (Ending {
                    result: crate::error::unit_model(r),
                    graph: final(graph)@,
                    printed: final(printed)@,
                    functions: final(functions).outcomes(),
                    cancellation_flag: final(cancellation_flag).answers(),
                }) == Ending::of(result, after)
            }),
    {
        let mut own_graph = Graph::new();
        std::mem::swap(graph, &mut own_graph);
        let mut own_printed = String::new();
        std::mem::swap(printed, &mut own_printed);
        let eval = EvaluationContext {
            source,
            graph: own_graph,
            functions,
            store: LazyStore::new(),
            scoped_store: LazyScopedVariables::new(),
            prev_element_debug_info: Table::new(),
            printed: own_printed,
            cancellation_flag,
        };
        let mat = QueryMatch { pattern_index: 0, captures: Vec::new() };
        assert(mat@.captures =~= crate::lazy::execution::no_match().captures);
        let mut exec = ExecutionContext {
            eval,
            config,
            locals: VariableMap::new(),
            current_regex_captures: Vec::new(),
            mat: &mat,
            lazy_graph: Vec::new(),
            shorthands: &self.shorthands,
            open_shorthands: 0,
        };
        assert(crate::lazy::strings_model(exec.current_regex_captures@)
            =~= Seq::<Seq<char>>::empty());
        assert(crate::lazy::lazy_graph_model(exec.lazy_graph@)
            =~= Seq::<LazyStatementModel>::empty());
        let result = match self.execute_stanzas(matches, &mut exec) {
            Err(e) => Err(e),
            Ok(()) => File::evaluate_graph(&exec.lazy_graph, &mut exec.eval),
        };
        std::mem::swap(graph, &mut exec.eval.graph);
        std::mem::swap(printed, &mut exec.eval.printed);
        result
    }

    /// Executes this program for the given matches of its query. What is built is added to `graph`,
    /// and what is printed to `printed`.
    pub fn execute_matches<C: CancellationFlag, F: Functions>(
        &self,
        graph: &mut Graph,
        matches: &Vec<QueryMatch>,
        source: &str,
        config: &ExecutionConfig,
        functions: &mut F,
        cancellation_flag: &mut C,
        printed: &mut String,
    ) -> (r: Result<(), ExecutionError>)
        ensures
            (Ending {
                result: crate::error::unit_model(r),
                graph: final(graph)@,
                printed: final(printed)@,
                functions: final(functions).outcomes(),
                cancellation_flag: final(cancellation_flag).answers(),
            }) == self.ending(
                config.globals.model(),
                crate::lazy::name_model(config.location_attr),
                crate::lazy::name_model(config.variable_name_attr),
                crate::matching::matches_model(matches@),
                crate::lazy::execution::initial_state(
                    source@,
                    old(graph)@,
                    old(functions).outcomes(),
                    old(printed)@,
                    old(cancellation_flag).answers(),
                ),
            ),
    {
        let mut globals = Globals::nested(config.globals);
        match self.check_globals(&mut globals) {
            Err(e) => {
                return Err(e);
            },
            Ok(()) => {},
        }
        let config = config_with(config, &globals);
        self.execute_checked(
            graph,
            matches,
            source,
            &config,
            functions,
            cancellation_flag,
            printed,
        )
    }

    /// Executes this program against a source text, and adds what it builds to an existing graph.
    /// `tree` is the syntax tree that was parsed from `source`. What is printed is added to
    /// `printed`.
    ///
    /// Which numbers the syntax nodes in the matches have is not determined by the tree; nothing is
    /// said of them, other than that the same node has the same number.
    pub fn execute_lazy_into<C: CancellationFlag, F: Functions>(
        &self,
        graph: &mut Graph,
        tree: &tree_sitter::Tree,
        source: &str,
        config: &ExecutionConfig,
        functions: &mut F,
        cancellation_flag: &mut C,
        printed: &mut String,
    ) -> (r: Result<(), ExecutionError>)
        requires
            self.searches(config.globals.model()) ==> crate::matching::tree_end(*tree)
                <= vstd::utf8::encode_utf8(source@).len(),
        ensures
            self.ends_with(
                config.globals.model(),
                crate::lazy::name_model(config.location_attr),
                crate::lazy::name_model(config.variable_name_attr),
                *tree,
                crate::lazy::execution::initial_state(
                    source@,
                    old(graph)@,
                    old(functions).outcomes(),
                    old(printed)@,
                    old(cancellation_flag).answers(),
                ),
                (Ending {
                    result: crate::error::unit_model(r),
                    graph: final(graph)@,
                    printed: final(printed)@,
                    functions: final(functions).outcomes(),
                    cancellation_flag: final(cancellation_flag).answers(),
                }),
            ),
    {
        let mut globals = Globals::nested(config.globals);
        match self.check_globals(&mut globals) {
            Err(e) => {
                return Err(e);
            },
            Ok(()) => {},
        }
        match &self.query {
            None => Err(ExecutionError::MissingQuery),
            Some(query) => {
                let matches = find_matches(query, tree, source);
                let config = config_with(config, &globals);
                self.execute_checked(
                    graph,
                    &matches,
                    source,
                    &config,
                    functions,
                    cancellation_flag,
                    printed,
                )
            },
        }
    }

    /// Executes this program as `execute_lazy_into` does, unless its query would be searched for in
    /// a tree that goes on after the end of the source text. Then nothing is done.
    pub fn try_execute_lazy_into<C: CancellationFlag, F: Functions>(
        &self,
        graph: &mut Graph,
        tree: &tree_sitter::Tree,
        source: &str,
        config: &ExecutionConfig,
        functions: &mut F,
        cancellation_flag: &mut C,
        printed: &mut String,
    ) -> (r: Option<Result<(), ExecutionError>>)
        ensures
            r is None <==> self.searches(config.globals.model()) && crate::matching::tree_end(*tree)
                > vstd::utf8::encode_utf8(source@).len(),
            r is None ==> *final(graph) == *old(graph) && *final(functions) == *old(functions)
                && *final(cancellation_flag) == *old(cancellation_flag) && *final(printed)
                == *old(printed),
            r matches Some(result) ==> self.ends_with(
                config.globals.model(),
                crate::lazy::name_model(config.location_attr),
                crate::lazy::name_model(config.variable_name_attr),
                *tree,
                crate::lazy::execution::initial_state(
                    source@,
                    old(graph)@,
                    old(functions).outcomes(),
                    old(printed)@,
                    old(cancellation_flag).answers(),
                ),
                (Ending {
                    result: crate::error::unit_model(result),
                    graph: final(graph)@,
                    printed: final(printed)@,
                    functions: final(functions).outcomes(),
                    cancellation_flag: final(cancellation_flag).answers(),
                }),
            ),
    {
        if self.query.is_some() && end_of_tree(tree) > source.as_bytes().len() {
            let mut globals = Globals::nested(config.globals);
            if self.check_globals(&mut globals).is_ok() {
                return None;
            }
        }
        Some(
            self.execute_lazy_into(
                graph,
                tree,
                source,
                config,
                functions,
                cancellation_flag,
                printed,
            ),
        )
    }
}

/// The configuration with other global variables.
fn config_with<'a>(config: &ExecutionConfig, globals: &'a Globals<'a>) -> (r: ExecutionConfig<'a>)
    ensures
        r.globals == globals,
        crate::lazy::name_model(r.location_attr) == crate::lazy::name_model(config.location_attr),
        crate::lazy::name_model(r.variable_name_attr) == crate::lazy::name_model(
            config.variable_name_attr,
        ),
{
    ExecutionConfig {
        globals,
        location_attr: clone_name(&config.location_attr),
        variable_name_attr: clone_name(&config.variable_name_attr),
    }
}

/// A copy of the name of an attribute.
fn clone_name(name: &Option<Identifier>) -> (r: Option<Identifier>)
    ensures
        crate::lazy::name_model(r) == crate::lazy::name_model(*name),
{
    match name {
        Some(name) => Some(name.clone()),
        None => None,
    }
}

} // verus!
