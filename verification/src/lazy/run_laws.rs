//! Laws of how programs are run.

use vstd::prelude::*;

use crate::ast::CaptureQuantifier;
use crate::ast::File;
use crate::ast::Global;
use crate::ast::Stanza;
use crate::error::ErrorModel;
use crate::lazy::evaluation::EvaluationState;
use crate::lazy::execution::Ending;
use crate::lazy::execution::ExecutionState;
use crate::lazy::execution::NotesModel;
use crate::lazy::execution::Surroundings;
use crate::matching::MatchModel;
use crate::values::ValueModel;
use crate::variables::LocalModel;

verus! {

impl ExecutionState {
    /// Whether a stanza begins here, after `before`, for a match whose whole is `node`: nothing is
    /// declared in the innermost block any more, the node is known to the graph, unless another
    /// node has its number, and nothing else has changed.
    pub open spec fn begins_stanza(
        self,
        before: ExecutionState,
        node: crate::values::SyntaxNodeModel,
    ) -> bool {
        let known = before.eval.graph.syntax_nodes;
        &&& self.locals.len() == before.locals.len()
        &&& self.locals.drop_last() == before.locals.drop_last()
        &&& self.locals.last() == Map::<Seq<char>, LocalModel>::empty()
        &&& self.lazy_graph == before.lazy_graph
        &&& self.eval.graph.graph_nodes == before.eval.graph.graph_nodes
        &&& self.eval.graph.syntax_nodes.contains_key(node.index)
        &&& self.eval.graph.syntax_nodes[node.index] == if known.contains_key(node.index) {
            known[node.index]
        } else {
            node
        }
        &&& self.eval.graph.syntax_nodes.remove(node.index) == known.remove(node.index)
        &&& self.eval == (EvaluationState { graph: self.eval.graph, ..before.eval })
    }

    /// A stanza executes its statements for a match, whose first node under the capture of the
    /// whole is noted. Its statements see the match and the global variables, but no local
    /// variables of another match, and no groups. If no node is captured as a whole, nothing is
    /// executed.
    pub proof fn lemma_stanza(self, cx: Surroundings, stanza: Stanza)
        requires
            self.locals.len() > 0,
        ensures
            ({
                let nodes = crate::lazy::expression_laws::nodes_captured(
                    cx.mat.captures,
                    stanza.full_match_file_capture_index,
                );
                let (result, end) = self.execute_stanza(cx, stanza);
                if nodes.len() == 0 {
                    result == Err::<(), ErrorModel>(
                        ErrorModel::UndefinedCapture(
                            crate::text::decimal_text(
                                stanza.full_match_file_capture_index as nat,
                            ),
                        ),
                    ) && end.eval == self.eval && end.lazy_graph == self.lazy_graph
                } else {
                    exists|start: ExecutionState|
                        {
                            &&& #[trigger] start.begins_stanza(self, nodes[0])
                            &&& (result, end) == start.block(
                                Surroundings { current_regex_captures: Seq::empty(), ..cx },
                                stanza.statements@,
                                0,
                                "executing stanza statements"@,
                                NotesModel::Stanza {
                                    stanza_location: stanza.location,
                                    source_location: nodes[0].position,
                                    node_kind: nodes[0].kind,
                                },
                            )
                        }
                }
            }),
    {
        let captures = cx.mat.captures;
        let index = stanza.full_match_file_capture_index;
        assert(captures.take(captures.len() as int) =~= captures);
        crate::lazy::expression_laws::lemma_nodes_captured(
            captures,
            index,
            captures.len() as int,
        );
        let nodes = crate::lazy::expression_laws::nodes_captured(captures, index);
        if nodes.len() > 0 {
            let graph = self.eval.graph.with_syntax_node(nodes[0]);
            let start = self.clear().with_eval(self.eval.with_graph(graph));
            assert(start.locals.drop_last() =~= self.locals.drop_last());
            assert(graph.syntax_nodes.remove(nodes[0].index)
                =~= self.eval.graph.syntax_nodes.remove(nodes[0].index));
            assert(start.begins_stanza(self, nodes[0]));
        }
    }

    /// Matches are processed in their order: first those at the beginning, and then, unless there
    /// was an error, the others.
    pub proof fn lemma_matches_in_order(
        self,
        cx: Surroundings,
        stanzas: Seq<Stanza>,
        first: Seq<MatchModel>,
        second: Seq<MatchModel>,
    )
        ensures
            ({
                let (result, after) = self.execute_matches(cx, stanzas, first, 0);
                self.execute_matches(cx, stanzas, first + second, 0) == match result {
                    Ok(_) => after.execute_matches(cx, stanzas, second, 0),
                    Err(e) => (Err(e), after),
                }
            }),
    {
        self.lemma_matches_split(cx, stanzas, first, second, 0);
    }

    proof fn lemma_matches_split(
        self,
        cx: Surroundings,
        stanzas: Seq<Stanza>,
        first: Seq<MatchModel>,
        second: Seq<MatchModel>,
        i: int,
    )
        requires
            0 <= i <= first.len(),
        ensures
            ({
                let (result, after) = self.execute_matches(cx, stanzas, first, i);
                self.execute_matches(cx, stanzas, first + second, i) == match result {
                    Ok(_) => after.execute_matches(cx, stanzas, second, 0),
                    Err(e) => (Err(e), after),
                }
            }),
        decreases first.len() - i,
    {
        if i < first.len() {
            assert((first + second)[i] == first[i]);
            let (checked, state) = self.check("processing matches"@);
            if checked is Ok && first[i].pattern_index < stanzas.len() {
                let (result, after) = state.execute_stanza(
                    Surroundings { mat: first[i], ..cx },
                    stanzas[first[i].pattern_index as int],
                );
                if result is Ok {
                    after.lemma_matches_split(cx, stanzas, first, second, i + 1);
                }
            }
        } else {
            self.lemma_matches_shift(cx, stanzas, first, second, 0);
        }
    }

    proof fn lemma_matches_shift(
        self,
        cx: Surroundings,
        stanzas: Seq<Stanza>,
        first: Seq<MatchModel>,
        second: Seq<MatchModel>,
        i: int,
    )
        requires
            0 <= i <= second.len(),
        ensures
            self.execute_matches(cx, stanzas, first + second, first.len() + i)
                == self.execute_matches(cx, stanzas, second, i),
        decreases second.len() - i,
    {
        if i < second.len() {
            assert((first + second)[first.len() + i] == second[i]);
            let (checked, state) = self.check("processing matches"@);
            if checked is Ok && second[i].pattern_index < stanzas.len() {
                let (result, after) = state.execute_stanza(
                    Surroundings { mat: second[i], ..cx },
                    stanzas[second[i].pattern_index as int],
                );
                if result is Ok {
                    after.lemma_matches_shift(cx, stanzas, first, second, i + 1);
                }
            }
        }
    }

    /// One match is processed by the stanza with the number of the pattern that it matched. It is
    /// this match that the stanza sees. If there is no such stanza, that is an error.
    pub proof fn lemma_match_of_one(
        self,
        cx: Surroundings,
        stanzas: Seq<Stanza>,
        mat: MatchModel,
    )
        requires
            self.eval.cancellation_flag.next("processing matches"@) is None,
        ensures
            self.execute_matches(cx, stanzas, seq![mat], 0) == if mat.pattern_index
                < stanzas.len() {
                self.after_asking(1).execute_stanza(
                    Surroundings { mat, ..cx },
                    stanzas[mat.pattern_index as int],
                )
            } else {
                (
                    Err::<(), ErrorModel>(
                        ErrorModel::UndefinedStanza(
                            crate::text::decimal_text(mat.pattern_index as nat),
                        ),
                    ),
                    self.after_asking(1),
                )
            },
    {
        let one = seq![mat];
        let start = self.after_asking(1);
        assert(self.check("processing matches"@).1 == start);
        if mat.pattern_index < stanzas.len() {
            let (result, after) = start.execute_stanza(
                Surroundings { mat: one[0], ..cx },
                stanzas[mat.pattern_index as int],
            );
            assert(after.execute_matches(cx, stanzas, one, 1) == (
                Ok::<(), ErrorModel>(()),
                after,
            ));
            if let Ok(unit) = result {
                assert(unit == ());
            }
        }
    }
}

impl File {
    /// A program is run in two steps. First its stanzas are executed for all the matches, with the
    /// global variables, the configured attributes and the shorthands of the program, without local
    /// variables and groups, and in no shorthand. Then, unless there was an error, the statements
    /// that this has added are evaluated.
    pub proof fn lemma_run(
        self,
        globals: Map<Seq<char>, ValueModel>,
        location_attr: Option<Seq<char>>,
        variable_name_attr: Option<Seq<char>>,
        matches: Seq<MatchModel>,
        eval: EvaluationState,
        cx: Surroundings,
        start: ExecutionState,
    )
        requires
            crate::lazy::execution::checked_globals(self.globals@, 0, globals) == Ok::<
                Map<Seq<char>, ValueModel>,
                ErrorModel,
            >(cx.globals),
            cx.location_attr == location_attr,
            cx.variable_name_attr == variable_name_attr,
            cx.shorthands == self.shorthands.list@,
            cx.current_regex_captures.len() == 0,
            cx.open_shorthands == 0,
            start.eval == eval,
            start.locals.len() == 1,
            start.locals[0] == Map::<Seq<char>, LocalModel>::empty(),
            start.lazy_graph.len() == 0,
        ensures
            ({
                let (executed, built) = start.execute_matches(cx, self.stanzas@, matches, 0);
                let (evaluated, after) = built.eval.evaluate_graph(built.lazy_graph, 0);
                let ending = self.ending(
                    globals,
                    location_attr,
                    variable_name_attr,
                    matches,
                    eval,
                );
                match executed {
                    Ok(_) => {
                        &&& ending.result == evaluated
                        &&& ending.graph == after.graph
                        &&& ending.printed == after.printed
                        &&& ending.functions == after.functions
                        &&& ending.cancellation_flag == after.cancellation_flag
                    },
                    Err(e) => {
                        &&& ending.result == Err::<(), ErrorModel>(e)
                        &&& ending.graph == built.eval.graph
                        &&& ending.printed == built.eval.printed
                        &&& ending.functions == built.eval.functions
                        &&& ending.cancellation_flag == built.eval.cancellation_flag
                    },
                }
            }),
    {
        let none = crate::lazy::execution::no_match();
        let there = Surroundings {
            globals: cx.globals,
            location_attr,
            variable_name_attr,
            mat: none,
            current_regex_captures: Seq::empty(),
            shorthands: self.shorthands.list@,
            open_shorthands: 0,
        };
        assert(cx.current_regex_captures =~= Seq::empty());
        assert(there == (Surroundings { mat: none, ..cx }));
        assert(start.locals =~= seq![Map::empty()]);
        assert(start.lazy_graph =~= Seq::empty());
        assert(start == (ExecutionState {
            eval,
            locals: seq![Map::empty()],
            lazy_graph: Seq::empty(),
        }));
        start.lemma_match_of_surroundings(cx, none, self.stanzas@, matches, 0);
    }

    /// Without a query a program does nothing, and that is an error. So it is if there is something
    /// wrong with the global variables, even without a query. Else the program is run for matches
    /// that look like those of the query and capture the same nodes.
    pub proof fn lemma_ends_with(
        self,
        globals: Map<Seq<char>, ValueModel>,
        location_attr: Option<Seq<char>>,
        variable_name_attr: Option<Seq<char>>,
        tree: tree_sitter::Tree,
        eval: EvaluationState,
        ending: Ending,
    )
        requires
            self.ends_with(globals, location_attr, variable_name_attr, tree, eval, ending),
        ensures
            match crate::lazy::execution::checked_globals(self.globals@, 0, globals) {
                Err(e) => ending.result == Err::<(), ErrorModel>(e) && ending.left(eval),
                Ok(_) => match self.query {
                    None => ending.result == Err::<(), ErrorModel>(ErrorModel::MissingQuery)
                        && ending.left(eval),
                    Some(query) => exists|matches: Seq<MatchModel>|
                        {
                            &&& #[trigger] crate::matching::shapes(matches)
                                == crate::matching::query_shapes(query, tree, eval.source)
                            &&& crate::matching::same_nodes(
                                matches,
                                crate::matching::query_nodes(query, tree, eval.source),
                            )
                            &&& ending == self.ending(
                                globals,
                                location_attr,
                                variable_name_attr,
                                matches,
                                eval,
                            )
                        },
                },
            },
    {
    }
}

impl Ending {
    /// Whether all is left as it was in `eval`.
    pub open spec fn left(self, eval: EvaluationState) -> bool {
        &&& self.graph == eval.graph
        &&& self.printed == eval.printed
        &&& self.functions == eval.functions
        &&& self.cancellation_flag == eval.cancellation_flag
    }
}

impl ExecutionState {
    /// The match of the surroundings does not matter when matches are processed.
    proof fn lemma_match_of_surroundings(
        self,
        cx: Surroundings,
        mat: MatchModel,
        stanzas: Seq<Stanza>,
        matches: Seq<MatchModel>,
        i: int,
    )
        requires
            0 <= i <= matches.len(),
        ensures
            self.execute_matches(Surroundings { mat, ..cx }, stanzas, matches, i)
                == self.execute_matches(cx, stanzas, matches, i),
        decreases matches.len() - i,
    {
        if i < matches.len() {
            let (checked, state) = self.check("processing matches"@);
            if checked is Ok && matches[i].pattern_index < stanzas.len() {
                let (result, after) = state.execute_stanza(
                    Surroundings { mat: matches[i], ..cx },
                    stanzas[matches[i].pattern_index as int],
                );
                if result is Ok {
                    after.lemma_match_of_surroundings(cx, mat, stanzas, matches, i + 1);
                }
            }
        }
    }
}

impl Global {
    /// Whether there is something wrong with this global variable if it is given as in `globals`,
    /// or not given: it needs a default then, and a variable that stands for several things must be
    /// a list.
    pub open spec fn wrong(self, globals: Map<Seq<char>, ValueModel>) -> Option<ErrorModel> {
        let name = self.name@;
        if globals.contains_key(name) {
            if self.quantifier == CaptureQuantifier::ZeroOrMore || self.quantifier
                == CaptureQuantifier::OneOrMore {
                match globals[name] {
                    ValueModel::List(_) => None,
                    _ => Some(ErrorModel::ExpectedList(name)),
                }
            } else {
                None
            }
        } else if self.default is None {
            Some(ErrorModel::MissingGlobalVariable(name))
        } else {
            None
        }
    }
}

/// Whether no two of the global variables have the same name.
pub open spec fn names_differ(declared: Seq<Global>) -> bool {
    forall|i: int, j: int|
        0 <= i < j < declared.len() ==> (#[trigger] declared[i]).name@ != (
        #[trigger] declared[j]).name@
}

/// A program whose global variables have different names can be run with the variables that are
/// given if nothing is wrong with any of those that it declares, and else the first that something
/// is wrong with is the error. Those that are given are as they are given, a declared one that is
/// not given is the string that is its default, and there are no others.
pub proof fn lemma_globals(declared: Seq<Global>, globals: Map<Seq<char>, ValueModel>)
    requires
        names_differ(declared),
    ensures
        match crate::lazy::execution::checked_globals(declared, 0, globals) {
            Ok(all) => {
                &&& forall|k: int|
                    0 <= k < declared.len() ==> (#[trigger] declared[k]).wrong(globals) is None
                &&& forall|name: Seq<char>| #[trigger]
                    globals.contains_key(name) ==> all.contains_key(name) && all[name]
                        == globals[name]
                &&& forall|k: int|
                    0 <= k < declared.len() && !globals.contains_key(
                        (#[trigger] declared[k]).name@,
                    ) ==> declared[k].default is Some && all.contains_key(declared[k].name@)
                        && all[declared[k].name@] == ValueModel::String(
                        declared[k].default->Some_0@,
                    )
                &&& forall|name: Seq<char>| #[trigger]
                    all.contains_key(name) ==> globals.contains_key(name) || exists|k: int|
                        0 <= k < declared.len() && (#[trigger] declared[k]).name@ == name
            },
            Err(e) => exists|k: int|
                {
                    &&& 0 <= k < declared.len()
                    &&& (#[trigger] declared[k]).wrong(globals) == Some(e)
                    &&& forall|j: int|
                        0 <= j < k ==> (#[trigger] declared[j]).wrong(globals) is None
                },
        },
{
    lemma_globals_from(declared, globals, 0, globals);
}

/// Whether `all` are the variables that are given and the defaults of the first `n` declared ones.
spec fn known_globals(
    declared: Seq<Global>,
    globals: Map<Seq<char>, ValueModel>,
    n: int,
    all: Map<Seq<char>, ValueModel>,
) -> bool {
    &&& forall|k: int| 0 <= k < n ==> (#[trigger] declared[k]).wrong(globals) is None
    &&& forall|name: Seq<char>| #[trigger]
        globals.contains_key(name) ==> all.contains_key(name) && all[name] == globals[name]
    &&& forall|k: int|
        0 <= k < n && !globals.contains_key((#[trigger] declared[k]).name@) ==> declared[
            k
        ].default is Some && all.contains_key(declared[k].name@) && all[declared[k].name@]
            == ValueModel::String(declared[k].default->Some_0@)
    &&& forall|name: Seq<char>| #[trigger]
        all.contains_key(name) ==> globals.contains_key(name) || exists|k: int|
            0 <= k < n && (#[trigger] declared[k]).name@ == name
}

proof fn lemma_globals_from(
    declared: Seq<Global>,
    globals: Map<Seq<char>, ValueModel>,
    n: int,
    known: Map<Seq<char>, ValueModel>,
)
    requires
        names_differ(declared),
        0 <= n <= declared.len(),
        known_globals(declared, globals, n, known),
    ensures
        match crate::lazy::execution::checked_globals(declared, n, known) {
            Ok(all) => known_globals(declared, globals, declared.len() as int, all),
            Err(e) => exists|k: int|
                {
                    &&& 0 <= k < declared.len()
                    &&& (#[trigger] declared[k]).wrong(globals) == Some(e)
                    &&& forall|j: int|
                        0 <= j < k ==> (#[trigger] declared[j]).wrong(globals) is None
                },
        },
    decreases declared.len() - n,
{
    if n < declared.len() {
        let global = declared[n];
        let name = global.name@;
        assert(known.contains_key(name) == globals.contains_key(name));
        if global.wrong(globals) is None {
            let more = if known.contains_key(name) {
                known
            } else {
                known.insert(name, ValueModel::String(global.default->Some_0@))
            };
            assert(known_globals(declared, globals, n + 1, more)) by {
                assert forall|other: Seq<char>| #[trigger] more.contains_key(other) implies
                    globals.contains_key(other) || exists|k: int|
                    0 <= k < n + 1 && (#[trigger] declared[k]).name@ == other by {
                    if other == name {
                        assert(declared[n].name@ == other);
                    } else {
                        assert(known.contains_key(other));
                    }
                }
            }
            lemma_globals_from(declared, globals, n + 1, more);
        }
    }
}

} // verus!
