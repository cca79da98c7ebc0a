//! Laws of blocks, conditions, loops and scans.

use vstd::prelude::*;

use crate::ast::Condition;
use crate::ast::Expression;
use crate::ast::ForIn;
use crate::ast::If;
use crate::ast::IfArm;
use crate::ast::Print;
use crate::ast::RegexCapture;
use crate::ast::Scan;
use crate::ast::ScanArm;
use crate::ast::Statement;
use crate::ast::UnscopedVariable;
use crate::ast::Variable;
use crate::cancellation::Answers;
use crate::error::ErrorModel;
use crate::lazy::evaluation::EvaluationState;
use crate::lazy::execution::ArmModel;
use crate::lazy::execution::ExecutionState;
use crate::lazy::execution::NotesModel;
use crate::lazy::execution::Surroundings;
use crate::lazy::statements::LazyStatementModel;
use crate::lazy::statements::PrintModel;
use crate::lazy::store::ThunkStateModel;
use crate::lazy::values::LazyModel;
use crate::location::Location;
use crate::values::ValueModel;

verus! {

impl ExecutionState {
    /// The statements of a block are executed in their order: first those at the beginning, and
    /// then, unless there was an error, the others, in the same surroundings.
    pub proof fn lemma_block_in_order(
        self,
        cx: Surroundings,
        first: Seq<Statement>,
        second: Seq<Statement>,
        at: Seq<char>,
        notes: NotesModel,
    )
        ensures
            ({
                let (result, after) = self.block(cx, first, 0, at, notes);
                self.block(cx, first + second, 0, at, notes) == match result {
                    Ok(_) => after.block(cx, second, 0, at, notes),
                    Err(e) => (Err(e), after),
                }
            }),
    {
        self.lemma_block_split(cx, first, second, 0, at, notes);
    }

    proof fn lemma_block_split(
        self,
        cx: Surroundings,
        first: Seq<Statement>,
        second: Seq<Statement>,
        i: int,
        at: Seq<char>,
        notes: NotesModel,
    )
        requires
            0 <= i <= first.len(),
        ensures
            ({
                let (result, after) = self.block(cx, first, i, at, notes);
                self.block(cx, first + second, i, at, notes) == match result {
                    Ok(_) => after.block(cx, second, 0, at, notes),
                    Err(e) => (Err(e), after),
                }
            }),
        decreases first.len() - i,
    {
        if i < first.len() {
            assert((first + second)[i] == first[i]);
            let (checked, state) = self.check(at);
            let (result, after) = state.execute(cx, first[i]);
            if checked is Ok && result is Ok {
                after.lemma_block_split(cx, first, second, i + 1, at, notes);
            }
        } else {
            self.lemma_block_shift(cx, first, second, 0, at, notes);
        }
    }

    proof fn lemma_block_shift(
        self,
        cx: Surroundings,
        first: Seq<Statement>,
        second: Seq<Statement>,
        i: int,
        at: Seq<char>,
        notes: NotesModel,
    )
        requires
            0 <= i <= second.len(),
        ensures
            self.block(cx, first + second, first.len() + i, at, notes) == self.block(
                cx,
                second,
                i,
                at,
                notes,
            ),
        decreases second.len() - i,
    {
        if i < second.len() {
            assert((first + second)[first.len() + i] == second[i]);
            let (checked, state) = self.check(at);
            let (result, after) = state.execute(cx, second[i]);
            if checked is Ok && result is Ok {
                after.lemma_block_shift(cx, first, second, i + 1, at, notes);
            }
        }
    }

    /// A block of one statement does what the statement does, in the same surroundings. An error in
    /// it gets the notes of the block. A block without statements does nothing.
    pub proof fn lemma_block_of_one(
        self,
        cx: Surroundings,
        statement: Statement,
        at: Seq<char>,
        notes: NotesModel,
    )
        requires
            self.eval.cancellation_flag.next(at) is None,
        ensures
            self.block(cx, Seq::empty(), 0, at, notes) == (Ok::<(), ErrorModel>(()), self),
            ({
                let (result, after) = self.check(at).1.execute(cx, statement);
                self.block(cx, seq![statement], 0, at, notes) == (
                    match result {
                        Ok(_) => Ok::<(), ErrorModel>(()),
                        Err(e) => Err(notes.noted(statement, e)),
                    },
                    after,
                )
            }),
    {
        assert(seq![statement][0] == statement);
        let after = self.check(at).1.execute(cx, statement).1;
        assert(after.block(cx, seq![statement], 1, at, notes) == (Ok::<(), ErrorModel>(()), after));
    }

    /// If the expression comes to a value, `some` holds if and only if this is not null, and `none`
    /// if and only if it is. An error in the expression is passed on.
    pub proof fn lemma_some_or_none(
        self,
        cx: Surroundings,
        value: Expression,
        location: Location,
        other_location: Location,
    )
        ensures
            ({
                let (result, after) = self.evaluate_eager(cx, value);
                let (some, after_some) = self.test(cx, Condition::IsSome { value, location });
                let (none, after_none) = self.test(
                    cx,
                    Condition::IsNone { value, location: other_location },
                );
                &&& after_some == after
                &&& after_none == after
                &&& match result {
                    Ok(v) => {
                        &&& some == Ok::<bool, ErrorModel>(v != ValueModel::Null)
                        &&& none == Ok::<bool, ErrorModel>(v == ValueModel::Null)
                    },
                    Err(e) => {
                        &&& some == Err::<bool, ErrorModel>(e)
                        &&& none == Err::<bool, ErrorModel>(e)
                    },
                }
            }),
    {
    }

    /// A condition that is just an expression holds if and only if that comes to true. It must come
    /// to a boolean.
    pub proof fn lemma_boolean_condition(
        self,
        cx: Surroundings,
        value: Expression,
        location: Location,
    )
        ensures
            ({
                let (result, after) = self.evaluate_eager(cx, value);
                let (holds, end) = self.test(cx, Condition::Bool { value, location });
                &&& end == after
                &&& match result {
                    Ok(ValueModel::Boolean(b)) => holds == Ok::<bool, ErrorModel>(b),
                    Ok(v) => holds == Err::<bool, ErrorModel>(
                        ErrorModel::ExpectedBoolean("got "@ + v.shown()),
                    ),
                    Err(e) => holds == Err::<bool, ErrorModel>(e),
                }
            }),
    {
    }

    /// The state after the first `k` of the conditions have been tested.
    pub open spec fn after_tests(
        self,
        cx: Surroundings,
        conditions: Seq<Condition>,
        k: int,
    ) -> ExecutionState
        decreases k,
    {
        if k <= 0 {
            self
        } else {
            self.after_tests(cx, conditions, k - 1).test(cx, conditions[k - 1]).1
        }
    }

    /// Whether the condition at position `k` holds, when they are tested one after the other.
    pub open spec fn tested(self, cx: Surroundings, conditions: Seq<Condition>, k: int) -> Result<
        bool,
        ErrorModel,
    > {
        self.after_tests(cx, conditions, k).test(cx, conditions[k]).0
    }

    proof fn lemma_tests_from(
        self,
        cx: Surroundings,
        conditions: Seq<Condition>,
        n: int,
        so_far: bool,
    )
        requires
            0 <= n <= conditions.len(),
            forall|k: int| 0 <= k < n ==> (#[trigger] self.tested(cx, conditions, k)) is Ok,
            so_far <==> forall|k: int|
                0 <= k < n ==> #[trigger] self.tested(cx, conditions, k) == Ok::<bool, ErrorModel>(
                    true,
                ),
        ensures
            ({
                let (result, end) = self.after_tests(cx, conditions, n).test_all(
                    cx,
                    conditions,
                    n,
                    so_far,
                );
                match result {
                    Ok(holds) => self.conditions_tested(cx, conditions, holds, end),
                    Err(e) => self.conditions_fail_with(cx, conditions, e, end),
                }
            }),
        decreases conditions.len() - n,
    {
        if n < conditions.len() {
            let before = self.after_tests(cx, conditions, n);
            let (result, after) = before.test(cx, conditions[n]);
            assert(self.tested(cx, conditions, n) == result);
            assert(after == self.after_tests(cx, conditions, n + 1));
            if let Ok(holds) = result {
                if so_far && holds {
                    assert forall|k: int| 0 <= k < n + 1 implies #[trigger] self.tested(
                        cx,
                        conditions,
                        k,
                    ) == Ok::<bool, ErrorModel>(true) by {}
                }
                self.lemma_tests_from(cx, conditions, n + 1, so_far && holds);
            }
        }
    }

    /// Whether all conditions have been tested, one after the other, and `holds` tells whether they
    /// all hold.
    pub open spec fn conditions_tested(
        self,
        cx: Surroundings,
        conditions: Seq<Condition>,
        holds: bool,
        end: ExecutionState,
    ) -> bool {
        &&& forall|k: int|
            0 <= k < conditions.len() ==> (#[trigger] self.tested(cx, conditions, k)) is Ok
        &&& holds <==> forall|k: int|
            0 <= k < conditions.len() ==> #[trigger] self.tested(cx, conditions, k) == Ok::<
                bool,
                ErrorModel,
            >(true)
        &&& end == self.after_tests(cx, conditions, conditions.len() as int)
    }

    /// Whether `error` is the error in the first of the conditions that has one.
    pub open spec fn conditions_fail_with(
        self,
        cx: Surroundings,
        conditions: Seq<Condition>,
        error: ErrorModel,
        end: ExecutionState,
    ) -> bool {
        exists|k: int|
            {
                &&& 0 <= k < conditions.len()
                &&& #[trigger] self.tested(cx, conditions, k) == Err::<bool, ErrorModel>(error)
                &&& forall|j: int|
                    0 <= j < k ==> (#[trigger] self.tested(cx, conditions, j)) is Ok
                &&& end == self.after_tests(cx, conditions, k + 1)
            }
    }

    /// Conditions hold together if and only if each of them holds. All are tested, even if one does
    /// not hold, up to the first error.
    pub proof fn lemma_conditions(self, cx: Surroundings, conditions: Seq<Condition>)
        ensures
            ({
                let (result, end) = self.test_all(cx, conditions, 0, true);
                match result {
                    Ok(holds) => self.conditions_tested(cx, conditions, holds, end),
                    Err(e) => self.conditions_fail_with(cx, conditions, e, end),
                }
            }),
    {
        self.lemma_tests_from(cx, conditions, 0, true);
    }

    /// The state after the conditions of the first `k` arms have been tested.
    pub open spec fn after_arms(
        self,
        cx: Surroundings,
        arms: Seq<IfArm>,
        k: int,
    ) -> ExecutionState
        decreases k,
    {
        if k <= 0 {
            self
        } else {
            self.after_arms(cx, arms, k - 1).test_all(cx, arms[k - 1].conditions@, 0, true).1
        }
    }

    /// Whether the conditions of the arm at position `k` hold, when the arms are tested one after
    /// the other.
    pub open spec fn arm_holds(self, cx: Surroundings, arms: Seq<IfArm>, k: int) -> Result<
        bool,
        ErrorModel,
    > {
        self.after_arms(cx, arms, k).test_all(cx, arms[k].conditions@, 0, true).0
    }

    proof fn lemma_arms_passed(self, cx: Surroundings, arms: Seq<IfArm>, k: int)
        requires
            0 <= k <= arms.len(),
            forall|j: int|
                0 <= j < k ==> #[trigger] self.arm_holds(cx, arms, j) == Ok::<bool, ErrorModel>(
                    false,
                ),
        ensures
            self.choose_arm(cx, arms, 0) == self.after_arms(cx, arms, k).choose_arm(cx, arms, k),
        decreases k,
    {
        if k > 0 {
            self.lemma_arms_passed(cx, arms, k - 1);
            assert(self.arm_holds(cx, arms, k - 1) == Ok::<bool, ErrorModel>(false));
        }
    }

    /// An if statement does what the first arm says whose conditions hold, in a block of its own,
    /// and in the same surroundings as the statement itself: with the same groups, the same match,
    /// and the same global variables. No other arm is executed, nor are the conditions of later
    /// ones tested.
    pub proof fn lemma_chosen_arm(self, cx: Surroundings, s: If, k: int)
        requires
            0 <= k < s.arms@.len(),
            forall|j: int|
                0 <= j < k ==> #[trigger] self.arm_holds(cx, s.arms@, j) == Ok::<bool, ErrorModel>(
                    false,
                ),
            self.arm_holds(cx, s.arms@, k) == Ok::<bool, ErrorModel>(true),
        ensures
            ({
                let state = self.after_arms(cx, s.arms@, k + 1);
                let inside = ExecutionState { locals: state.locals.push(Map::empty()), ..state };
                let (result, after) = inside.block(
                    cx,
                    s.arms@[k].statements@,
                    0,
                    "executing if statements"@,
                    NotesModel::Nothing,
                );
                self.perform(cx, Statement::If(s)) == (
                    result,
                    ExecutionState { locals: after.locals.drop_last(), ..after },
                )
            }),
    {
        self.lemma_arms_passed(cx, s.arms@, k);
    }

    /// If no arm holds, an if statement does nothing but test the conditions; an error in one of
    /// these is passed on.
    pub proof fn lemma_no_arm(self, cx: Surroundings, s: If, k: int)
        requires
            0 <= k <= s.arms@.len(),
            forall|j: int|
                0 <= j < k ==> #[trigger] self.arm_holds(cx, s.arms@, j) == Ok::<bool, ErrorModel>(
                    false,
                ),
        ensures
            k == s.arms@.len() ==> self.perform(cx, Statement::If(s)) == (
                Ok::<(), ErrorModel>(()),
                self.after_arms(cx, s.arms@, k),
            ),
            k < s.arms@.len() ==> (self.arm_holds(cx, s.arms@, k) matches Err(e)
                ==> self.perform(cx, Statement::If(s)) == (
                Err::<(), ErrorModel>(e),
                self.after_arms(cx, s.arms@, k + 1),
            )),
    {
        self.lemma_arms_passed(cx, s.arms@, k);
    }

    /// A block that only prints one expression adds just that to the lazy graph.
    proof fn lemma_one_printed(
        self,
        cx: Surroundings,
        p: Print,
        expression: Expression,
        value: LazyModel,
        at: Seq<char>,
        notes: NotesModel,
    )
        requires
            self.eval.cancellation_flag.never_stops(),
            p.values@ == seq![expression],
            !(expression is StringConstant),
            self.after_asking(2).evaluate_lazy(cx, expression) == (
                Ok::<LazyModel, ErrorModel>(value),
                self.after_asking(2),
            ),
        ensures
            self.block(cx, seq![Statement::Print(p)], 0, at, notes) == (
                Ok::<(), ErrorModel>(()),
                self.after_asking(2).add_statement(
                    LazyStatementModel::Print {
                        arguments: seq![PrintModel::Value(value)],
                        debug_info: p.location,
                    },
                ),
            ),
    {
        self.lemma_block_of_one(cx, Statement::Print(p), at, notes);
        let state = self.check(at).1.check("executing statement"@).1;
        assert(state == self.after_asking(2));
        let done = Seq::<PrintModel>::empty().push(PrintModel::Value(value));
        assert(p.values@[0] == expression);
        assert(state.print_arguments(cx, p.values@, 1, done) == (
            Ok::<Seq<PrintModel>, ErrorModel>(done),
            state,
        ));
        assert(state.print_arguments(cx, p.values@, 0, Seq::empty()) == (
            Ok::<Seq<PrintModel>, ErrorModel>(done),
            state,
        ));
        assert(done =~= seq![PrintModel::Value(value)]);
    }

    /// The statements of the arm of an if statement see the groups of the scan that the statement
    /// stands in: `$n` is what the group matched there.
    pub proof fn lemma_groups_in_arm(
        self,
        cx: Surroundings,
        s: If,
        k: int,
        p: Print,
        g: RegexCapture,
    )
        requires
            0 <= k < s.arms@.len(),
            forall|j: int|
                0 <= j < k ==> #[trigger] self.arm_holds(cx, s.arms@, j) == Ok::<bool, ErrorModel>(
                    false,
                ),
            self.arm_holds(cx, s.arms@, k) == Ok::<bool, ErrorModel>(true),
            self.after_arms(cx, s.arms@, k + 1).eval.cancellation_flag.never_stops(),
            s.arms@[k].statements@ == seq![Statement::Print(p)],
            p.values@ == seq![Expression::RegexCapture(g)],
            g.match_index < cx.current_regex_captures.len(),
        ensures
            self.perform(cx, Statement::If(s)).0 is Ok,
            self.perform(cx, Statement::If(s)).1.lazy_graph == self.after_arms(
                cx,
                s.arms@,
                k + 1,
            ).lazy_graph.push(
                LazyStatementModel::Print {
                    arguments: seq![
                        PrintModel::Value(
                            LazyModel::Value(
                                ValueModel::String(
                                    cx.current_regex_captures[g.match_index as int],
                                ),
                            ),
                        ),
                    ],
                    debug_info: p.location,
                },
            ),
    {
        self.lemma_chosen_arm(cx, s, k);
        let state = self.after_arms(cx, s.arms@, k + 1);
        let value = LazyModel::Value(
            ValueModel::String(cx.current_regex_captures[g.match_index as int]),
        );
        state.enter().lemma_one_printed(
            cx,
            p,
            Expression::RegexCapture(g),
            value,
            "executing if statements"@,
            NotesModel::Nothing,
        );
    }
}

impl ExecutionState {
    /// A for statement goes through the list that its value comes to. That must be a list.
    pub proof fn lemma_for_statement(self, cx: Surroundings, s: ForIn)
        ensures
            ({
                let (through, before) = self.evaluate_eager(cx, s.value);
                let inside = ExecutionState { locals: before.locals.push(Map::empty()), ..before };
                let (result, end) = self.perform(cx, Statement::ForIn(s));
                match through {
                    Ok(ValueModel::List(values)) => {
                        let (done, after) = inside.repeat(
                            cx,
                            s.variable,
                            s.statements@,
                            values,
                            0,
                        );
                        &&& result == done
                        &&& end == ExecutionState { locals: after.locals.drop_last(), ..after }
                    },
                    Ok(v) => {
                        &&& result == Err::<(), ErrorModel>(
                            ErrorModel::ExpectedList("got "@ + v.shown()),
                        )
                        &&& end == before
                    },
                    Err(e) => result == Err::<(), ErrorModel>(e) && end == before,
                }
            }),
    {
    }

    /// Going through a list is executing the statements for its first element, and then, unless
    /// there was an error, going through the rest of the list.
    pub proof fn lemma_for_first_and_rest(
        self,
        cx: Surroundings,
        variable: UnscopedVariable,
        statements: Seq<Statement>,
        first: ValueModel,
        rest: Seq<ValueModel>,
    )
        requires
            self.locals.len() > 0,
            !cx.globals.contains_key(variable.name@),
        ensures
            self.repeat(cx, variable, statements, Seq::empty(), 0) == (
                Ok::<(), ErrorModel>(()),
                self,
            ),
            exists|block: ExecutionState|
                {
                    &&& #[trigger] block.just_declared(cx, variable, LazyModel::Value(first))
                    &&& block.locals.drop_last() == self.locals.drop_last()
                    &&& block.locals.len() == self.locals.len()
                    &&& forall|name: Seq<char>| #[trigger]
                        block.locals.last().contains_key(name) <==> name == variable.name@
                    &&& !block.locals.last()[variable.name@].mutable
                    &&& block.lazy_graph == self.lazy_graph
                    &&& block.eval.store.drop_last() == self.eval.store
                    &&& block.eval == (EvaluationState {
                        store: block.eval.store,
                        ..self.eval
                    })
                    &&& ({
                        let (result, after) = block.block(
                            cx,
                            statements,
                            0,
                            "executing for statements"@,
                            NotesModel::Nothing,
                        );
                        self.repeat(cx, variable, statements, seq![first] + rest, 0)
                            == match result {
                            Ok(_) => after.repeat(cx, variable, statements, rest, 0),
                            Err(e) => (Err(e), after),
                        }
                    })
                },
    {
        let values = seq![first] + rest;
        let block = self.clear().declare(cx, variable, LazyModel::Value(first), false).1;
        assert(values[0] == first);
        assert(block.locals.drop_last() =~= self.locals.drop_last());
        assert(block.eval.store.drop_last() =~= self.eval.store);
        assert(block.locals.last().contains_key(variable.name@));
        assert(block.just_declared(cx, variable, LazyModel::Value(first)));
        let (result, after) = block.block(
            cx,
            statements,
            0,
            "executing for statements"@,
            NotesModel::Nothing,
        );
        if result is Ok {
            after.lemma_repeat_shift(cx, variable, statements, first, rest, 0);
        }
    }

    proof fn lemma_repeat_shift(
        self,
        cx: Surroundings,
        variable: UnscopedVariable,
        statements: Seq<Statement>,
        first: ValueModel,
        rest: Seq<ValueModel>,
        i: int,
    )
        requires
            0 <= i <= rest.len(),
        ensures
            self.repeat(cx, variable, statements, seq![first] + rest, i + 1) == self.repeat(
                cx,
                variable,
                statements,
                rest,
                i,
            ),
        decreases rest.len() - i,
    {
        if i < rest.len() {
            assert((seq![first] + rest)[i + 1] == rest[i]);
            let (declared, state) = self.clear().declare(
                cx,
                variable,
                LazyModel::Value(rest[i]),
                false,
            );
            let (result, after) = state.block(
                cx,
                statements,
                0,
                "executing for statements"@,
                NotesModel::Nothing,
            );
            if declared is Ok && result is Ok {
                after.lemma_repeat_shift(cx, variable, statements, first, rest, i + 1);
            }
        }
    }
}

/// Statements that print the variables at the `n` locations of the store from `start` on.
pub open spec fn prints_from(start: nat, n: nat, place: Location) -> Seq<LazyStatementModel> {
    Seq::new(
        n,
        |k: int|
            LazyStatementModel::Print {
                arguments: seq![PrintModel::Value(LazyModel::Variable((start + k) as usize))],
                debug_info: place,
            },
    )
}

/// The values as they are shown, each on a line of its own.
pub open spec fn lines(values: Seq<ValueModel>) -> Seq<Seq<char>> {
    Seq::new(values.len(), |k: int| values[k].shown() + "\n"@)
}

/// Texts joined with one before them.
pub proof fn lemma_joined_first(first: Seq<char>, rest: Seq<Seq<char>>)
    ensures
        crate::lazy::result_laws::joined(seq![first] + rest) == first
            + crate::lazy::result_laws::joined(rest),
    decreases rest.len(),
{
    let all = seq![first] + rest;
    if rest.len() > 0 {
        lemma_joined_first(first, rest.drop_last());
        assert(all.drop_last() =~= seq![first] + rest.drop_last());
        assert(all.last() == rest.last());
        assert(crate::lazy::result_laws::joined(all) =~= first
            + crate::lazy::result_laws::joined(rest));
    } else {
        assert(all.drop_last() =~= Seq::empty());
        assert(crate::lazy::result_laws::joined(all.drop_last()) =~= Seq::<char>::empty());
        assert(crate::lazy::result_laws::joined(all) =~= first
            + crate::lazy::result_laws::joined(rest));
    }
}

impl EvaluationState {
    proof fn lemma_line(self, location: usize, value: ValueModel, place: Location)
        requires
            self.cancellation_flag.never_stops(),
            location < self.store.len(),
            self.store[location as int].state == ThunkStateModel::Unforced(
                LazyModel::Value(value),
            ),
        ensures
            ({
                let statement = LazyStatementModel::Print {
                    arguments: seq![PrintModel::Value(LazyModel::Variable(location))],
                    debug_info: place,
                };
                let (result, after) = self.evaluate_statement(statement);
                &&& result is Ok
                &&& after.printed == self.printed + (value.shown() + "\n"@)
                &&& after.cancellation_flag.never_stops()
                &&& after.store.len() == self.store.len()
                &&& forall|i: int|
                    0 <= i < self.store.len() && i != location ==> (#[trigger] after.store[i])
                        == self.store[i]
            }),
    {
        let variable = LazyModel::Variable(location);
        let arguments = seq![PrintModel::Value(variable)];
        let state = self.check("evaluating statement"@).1;
        state.lemma_plain_variable(location, value);
        let evaluated = state.evaluate(variable).1;
        let shown = evaluated.print(value.shown());
        let after = shown.print("\n"@);
        assert(arguments[0] == PrintModel::Value(variable));
        assert(shown.print_all(arguments, 1) == (Ok::<(), ErrorModel>(()), after));
        assert(state.print_all(arguments, 0) == (Ok::<(), ErrorModel>(()), after));
        assert(after.printed =~= self.printed + (value.shown() + "\n"@));
    }

    proof fn lemma_lines_from(
        self,
        start: nat,
        values: Seq<ValueModel>,
        place: Location,
        i: int,
    )
        requires
            self.cancellation_flag.never_stops(),
            self.holds_from(start, values, i),
            0 <= i <= values.len(),
        ensures
            ({
                let (result, end) = self.evaluate_graph(
                    prints_from(start, values.len(), place),
                    i,
                );
                &&& result is Ok
                &&& end.printed == self.printed + crate::lazy::result_laws::joined(
                    lines(values).skip(i),
                )
            }),
        decreases values.len() - i,
    {
        let prints = prints_from(start, values.len(), place);
        let all = lines(values);
        if i < values.len() {
            let location = (start + i) as usize;
            assert(prints[i] == LazyStatementModel::Print {
                arguments: seq![PrintModel::Value(LazyModel::Variable(location))],
                debug_info: place,
            });
            assert(self.store[start + i].state == ThunkStateModel::Unforced(
                LazyModel::Value(values[i]),
            ));
            self.lemma_line(location, values[i], place);
            let after = self.evaluate_statement(prints[i]).1;
            assert(after.holds_from(start, values, i + 1)) by {
                assert forall|k: int| i + 1 <= k < values.len() implies (
                #[trigger] after.store[start + k]).state == ThunkStateModel::Unforced(
                    LazyModel::Value(values[k]),
                ) by {
                    assert(self.store[start + k].state == ThunkStateModel::Unforced(
                        LazyModel::Value(values[k]),
                    ));
                }
            }
            after.lemma_lines_from(start, values, place, i + 1);
            assert(all.skip(i) =~= seq![all[i]] + all.skip(i + 1));
            lemma_joined_first(all[i], all.skip(i + 1));
            let end = self.evaluate_graph(prints, i).1;
            assert(end.printed =~= self.printed + crate::lazy::result_laws::joined(all.skip(i)));
        } else {
            assert(all.skip(i) =~= Seq::empty());
            assert(self.printed =~= self.printed + crate::lazy::result_laws::joined(all.skip(i)));
        }
    }
}

impl ExecutionState {
    proof fn lemma_repeat_prints(
        self,
        cx: Surroundings,
        variable: UnscopedVariable,
        statements: Seq<Statement>,
        p: Print,
        v: UnscopedVariable,
        values: Seq<ValueModel>,
        i: int,
    )
        requires
            self.locals.len() > 0,
            self.eval.cancellation_flag.never_stops(),
            !cx.globals.contains_key(variable.name@),
            statements == seq![Statement::Print(p)],
            p.values@ == seq![Expression::Variable(Variable::Unscoped(v))],
            v.name@ == variable.name@,
            0 <= i <= values.len(),
        ensures
            ({
                let (result, end) = self.repeat(cx, variable, statements, values, i);
                let n = self.eval.store.len();
                &&& result is Ok
                &&& end.lazy_graph == self.lazy_graph + prints_from(
                    n,
                    (values.len() - i) as nat,
                    p.location,
                )
                &&& end.eval.store.len() == n + values.len() - i
                &&& self.eval.store.is_prefix_of(end.eval.store)
                &&& forall|k: int|
                    i <= k < values.len() ==> (#[trigger] end.eval.store[n + k - i]).state
                        == ThunkStateModel::Unforced(LazyModel::Value(values[k]))
                &&& end.eval.cancellation_flag.never_stops()
                &&& end.eval.printed == self.eval.printed
            }),
        decreases values.len() - i,
    {
        let n = self.eval.store.len();
        if i < values.len() {
            let at = "executing for statements"@;
            let block = self.clear().declare(cx, variable, LazyModel::Value(values[i]), false).1;
            let value = LazyModel::Variable(n as usize);
            assert(block.locals.last().contains_key(variable.name@));
            assert(block.read(cx, variable) == Ok::<LazyModel, ErrorModel>(value));
            let expression = Expression::Variable(Variable::Unscoped(v));
            assert(block.after_asking(2).read(cx, v) == block.read(cx, variable));
            block.lemma_one_printed(cx, p, expression, value, at, NotesModel::Nothing);
            let added = LazyStatementModel::Print {
                arguments: seq![PrintModel::Value(value)],
                debug_info: p.location,
            };
            let after = block.after_asking(2).add_statement(added);
            assert(block.block(cx, statements, 0, at, NotesModel::Nothing) == (
                Ok::<(), ErrorModel>(()),
                after,
            ));
            assert(self.repeat(cx, variable, statements, values, i) == after.repeat(
                cx,
                variable,
                statements,
                values,
                i + 1,
            ));
            after.lemma_repeat_prints(cx, variable, statements, p, v, values, i + 1);
            let end = self.repeat(cx, variable, statements, values, i).1;
            assert(prints_from(n, (values.len() - i) as nat, p.location) =~= seq![added]
                + prints_from(n + 1, (values.len() - i - 1) as nat, p.location));
            assert(end.lazy_graph =~= self.lazy_graph + prints_from(
                n,
                (values.len() - i) as nat,
                p.location,
            ));
            assert forall|k: int| i <= k < values.len() implies (
            #[trigger] end.eval.store[n + k - i]).state == ThunkStateModel::Unforced(
                LazyModel::Value(values[k]),
            ) by {
                if k == i {
                    assert(end.eval.store[n as int] == after.eval.store[n as int]);
                } else {
                    assert(end.eval.store[n + 1 + k - (i + 1)].state == ThunkStateModel::Unforced(
                        LazyModel::Value(values[k]),
                    ));
                }
            }
        } else {
            assert(self.lazy_graph + prints_from(n, 0, p.location) =~= self.lazy_graph);
        }
    }

    /// Printing each element of a list prints them in the order of the list: what
    /// `for x in list { print x }` adds to the lazy graph prints each element on a line of its own,
    /// from the first to the last.
    pub proof fn lemma_for_prints_in_order(
        self,
        cx: Surroundings,
        s: ForIn,
        p: Print,
        v: UnscopedVariable,
    )
        requires
            self.valid(),
            self.eval.cancellation_flag.never_stops(),
            !cx.globals.contains_key(s.variable.name@),
            s.statements@ == seq![Statement::Print(p)],
            p.values@ == seq![Expression::Variable(Variable::Unscoped(v))],
            v.name@ == s.variable.name@,
            self.evaluate_eager(cx, s.value).0 is Ok,
            self.evaluate_eager(cx, s.value).0->Ok_0 is List,
            self.evaluate_eager(cx, s.value).1.eval.store.len() + self.evaluate_eager(
                cx,
                s.value,
            ).0->Ok_0->List_0.len() <= usize::MAX,
        ensures
            ({
                let values = self.evaluate_eager(cx, s.value).0->Ok_0->List_0;
                let (result, end) = self.perform(cx, Statement::ForIn(s));
                let added = end.lazy_graph.skip(self.lazy_graph.len() as int);
                let (evaluated, after) = end.eval.evaluate_graph(added, 0);
                &&& result is Ok
                &&& self.lazy_graph.is_prefix_of(end.lazy_graph)
                &&& evaluated is Ok
                &&& end.eval.printed == self.eval.printed
                &&& after.printed == self.eval.printed + crate::lazy::result_laws::joined(
                    lines(values),
                )
            }),
    {
        let (through, before) = self.evaluate_eager(cx, s.value);
        self.lemma_evaluate_eager_keeps(cx, s.value);
        let values = through->Ok_0->List_0;
        let n = before.eval.store.len();
        before.enter().lemma_repeat_prints(cx, s.variable, s.statements@, p, v, values, 0);
        self.lemma_for_statement(cx, s);
        let end = self.perform(cx, Statement::ForIn(s)).1;
        let prints = prints_from(n, values.len(), p.location);
        assert(end.lazy_graph.skip(self.lazy_graph.len() as int) =~= prints);
        assert(end.eval.holds_from(n, values, 0)) by {
            assert forall|k: int| 0 <= k < values.len() implies (
            #[trigger] end.eval.store[n + k]).state == ThunkStateModel::Unforced(
                LazyModel::Value(values[k]),
            ) by {
                assert(end.eval.store[n + k - 0].state == ThunkStateModel::Unforced(
                    LazyModel::Value(values[k]),
                ));
            }
        }
        end.eval.lemma_lines_from(n, values, p.location, 0);
        let after = end.eval.evaluate_graph(prints, 0).1;
        assert(lines(values).skip(0) =~= lines(values));
    }
}

/// The bytes of two texts, one after the other.
proof fn lemma_encode_both(first: Seq<char>, second: Seq<char>)
    ensures
        vstd::utf8::encode_utf8(first + second) == vstd::utf8::encode_utf8(first)
            + vstd::utf8::encode_utf8(second),
    decreases first.len(),
{
    if first.len() > 0 {
        lemma_encode_both(first.drop_first(), second);
        assert((first + second).drop_first() =~= first.drop_first() + second);
        assert((first + second)[0] == first[0]);
        assert(vstd::utf8::encode_utf8(first + second) =~= vstd::utf8::encode_utf8(first)
            + vstd::utf8::encode_utf8(second));
    } else {
        assert(first + second =~= second);
        assert(vstd::utf8::encode_utf8(first) + vstd::utf8::encode_utf8(second)
            =~= vstd::utf8::encode_utf8(second));
    }
}

/// What is left of a text after its beginning is the rest of it.
pub proof fn lemma_rest_of(head: Seq<char>, next: Seq<char>)
    ensures
        crate::lazy::execution::rest_of(head + next, vstd::utf8::encode_utf8(head).len()) == next,
{
    broadcast use vstd::utf8::encode_utf8_decode_utf8;

    lemma_encode_both(head, next);
    let bytes = vstd::utf8::encode_utf8(head + next);
    let end = vstd::utf8::encode_utf8(head).len();
    assert(bytes.subrange(end as int, bytes.len() as int) =~= vstd::utf8::encode_utf8(next));
}

/// Whether no arm matches an empty part of the text.
pub open spec fn no_empty_match(arms: Seq<ScanArm>, text: Seq<char>, n: int) -> bool {
    forall|j: int|
        0 <= j < n ==> (#[trigger] crate::lazy::program_laws::arm_match(
            arms,
            text,
            j,
        ) matches Some(arm) ==> arm.whole().start != arm.whole().end)
}

/// Whether the texts are what the groups matched: nothing for those that took no part in the match.
pub open spec fn texts_of_groups(arm: ArmModel, texts: Seq<Seq<char>>) -> bool {
    &&& texts.len() == arm.groups.len()
    &&& forall|j: int|
        0 <= j < arm.groups.len() ==> (#[trigger] texts[j]) == match arm.groups[j] {
            Some(span) => span.text,
            None => Seq::empty(),
        }
}

impl ExecutionState {
    /// The state after the flag has been checked `n` times.
    pub open spec fn after_asking(self, n: nat) -> ExecutionState {
        ExecutionState {
            eval: EvaluationState {
                cancellation_flag: Answers {
                    asked: self.eval.cancellation_flag.asked + n,
                    ..self.eval.cancellation_flag
                },
                ..self.eval
            },
            ..self
        }
    }

    proof fn lemma_arms_asked(
        self,
        arms: Seq<ScanArm>,
        text: Seq<char>,
        i: int,
        best: Option<ArmModel>,
    )
        requires
            0 <= i <= arms.len(),
            self.eval.cancellation_flag.never_stops(),
            no_empty_match(arms, text, arms.len() as int),
        ensures
            self.find_arm(arms, text, i, best).0 is Ok,
            self.find_arm(arms, text, i, best).1 == self.after_asking((arms.len() - i) as nat),
        decreases arms.len() - i,
    {
        if i < arms.len() {
            let state = self.check("processing scan matches"@).1;
            let captures = crate::regexes::regex_captures(arms[i].regex, text);
            let better = crate::lazy::execution::better_arm(
                best,
                i,
                crate::regexes::regex_pattern(arms[i].regex),
                captures,
            );
            assert(crate::lazy::program_laws::arm_match(arms, text, i) == match captures {
                None => None,
                Some(groups) => Some(ArmModel { index: i, groups }),
            });
            assert(better is Ok);
            state.lemma_arms_asked(arms, text, i + 1, better->Ok_0);
        }
    }

    /// A scan goes through the string that its value comes to. That must be a string.
    pub proof fn lemma_scan_statement(self, cx: Surroundings, s: Scan)
        ensures
            ({
                let (value, after) = self.evaluate_eager(cx, s.value);
                match value {
                    Ok(ValueModel::String(text)) => self.perform(cx, Statement::Scan(s))
                        == after.scan(cx, s.arms@, text, text),
                    Ok(v) => self.perform(cx, Statement::Scan(s)) == (
                        Err::<(), ErrorModel>(ErrorModel::ExpectedString("got "@ + v.shown())),
                        after,
                    ),
                    Err(e) => self.perform(cx, Statement::Scan(s)) == (
                        Err::<(), ErrorModel>(e),
                        after,
                    ),
                }
            }),
    {
    }

    /// Where the best arm matches in what is left of the text, its statements are executed in a
    /// block of their own, with what its groups matched there, and with everything else around them
    /// as it is around the scan. After that the scan goes on, with the same arms, where the match
    /// ends. An error in the statements gets a note of the whole text.
    pub proof fn lemma_scan_goes_on(
        self,
        cx: Surroundings,
        arms: Seq<ScanArm>,
        text: Seq<char>,
        head: Seq<char>,
        next: Seq<char>,
        arm: ArmModel,
        groups: Seq<Seq<char>>,
    )
        requires
            self.eval.cancellation_flag.never_stops(),
            head.len() > 0,
            no_empty_match(arms, head + next, arms.len() as int),
            crate::lazy::program_laws::best_arm(
                arms,
                head + next,
                arms.len() as int,
                Some(arm),
            ),
            arm.whole().end == vstd::utf8::encode_utf8(head).len(),
            texts_of_groups(arm, groups),
        ensures
            ({
                let state = self.after_asking(arms.len());
                let inside = ExecutionState { locals: state.locals.push(Map::empty()), ..state };
                let (result, after) = inside.block(
                    Surroundings { current_regex_captures: groups, ..cx },
                    arms[arm.index].statements@,
                    0,
                    "executing scan statements"@,
                    NotesModel::Scan {
                        text,
                        pattern: crate::regexes::regex_pattern(arms[arm.index].regex),
                    },
                );
                let left = ExecutionState { locals: after.locals.drop_last(), ..after };
                self.scan(cx, arms, text, head + next) == match result {
                    Ok(_) => left.scan(cx, arms, text, next),
                    Err(e) => (Err(e), left),
                }
            }),
    {
        let rest = head + next;
        self.lemma_arms_asked(arms, rest, 0, None);
        self.lemma_best_arm(arms, rest);
        let found = self.find_arm(arms, rest, 0, None).0->Ok_0;
        if found is None {
            assert(crate::lazy::program_laws::arm_match(arms, rest, arm.index) is None);
        } else {
            let other = found->Some_0;
            assert(crate::lazy::program_laws::arm_match(arms, rest, other.index) == Some(other));
            assert(crate::lazy::program_laws::arm_match(arms, rest, arm.index) == Some(arm));
            assert(other == arm);
        }
        assert(groups =~= crate::lazy::execution::group_texts(arm.groups)) by {
            reveal_strlit("");
            assert(""@ =~= Seq::empty());
            assert forall|j: int| 0 <= j < groups.len() implies groups[j]
                == crate::lazy::execution::group_texts(arm.groups)[j] by {}
        }
        lemma_rest_of(head, next);
        lemma_encode_both(head, next);
        assert(vstd::utf8::encode_utf8(head).len() > 0) by {
            if vstd::utf8::encode_utf8(head).len() == 0 {
                broadcast use vstd::utf8::encode_utf8_decode_utf8;

                assert(vstd::utf8::encode_utf8(head) =~= vstd::utf8::encode_utf8(Seq::empty()));
                assert(head == Seq::<char>::empty());
            }
        }
    }

    /// A scan ends when nothing is left of the text, or when no arm matches in what is left.
    pub proof fn lemma_scan_ends(
        self,
        cx: Surroundings,
        arms: Seq<ScanArm>,
        text: Seq<char>,
        rest: Seq<char>,
    )
        requires
            self.eval.cancellation_flag.never_stops(),
            crate::lazy::program_laws::best_arm(arms, rest, arms.len() as int, None),
        ensures
            self.scan(cx, arms, text, Seq::empty()) == (Ok::<(), ErrorModel>(()), self),
            rest.len() > 0 ==> self.scan(cx, arms, text, rest) == (
                Ok::<(), ErrorModel>(()),
                self.after_asking(arms.len()),
            ),
    {
        assert(no_empty_match(arms, rest, arms.len() as int));
        self.lemma_arms_asked(arms, rest, 0, None);
        self.lemma_best_arm(arms, rest);
        let found = self.find_arm(arms, rest, 0, None).0->Ok_0;
        if let Some(arm) = found {
            assert(crate::lazy::program_laws::arm_match(arms, rest, arm.index) is None);
        }
    }

    /// A scan fails at the first arm that matches an empty part of what is left of the text,
    /// whatever the other arms match. Nothing is executed then.
    pub proof fn lemma_scan_empty_match(
        self,
        cx: Surroundings,
        arms: Seq<ScanArm>,
        text: Seq<char>,
        rest: Seq<char>,
        k: int,
    )
        requires
            self.eval.cancellation_flag.never_stops(),
            rest.len() > 0,
            0 <= k < arms.len(),
            no_empty_match(arms, rest, k),
            crate::lazy::program_laws::arm_match(arms, rest, k) matches Some(arm)
                && arm.whole().start == arm.whole().end,
        ensures
            self.scan(cx, arms, text, rest) == (
                Err::<(), ErrorModel>(
                    ErrorModel::EmptyRegexCapture(
                        "for regular expression /"@ + crate::regexes::regex_pattern(arms[k].regex)
                            + "/"@,
                    ),
                ),
                self.after_asking((k + 1) as nat),
            ),
    {
        self.lemma_empty_from(arms, rest, 0, None, k);
    }

    proof fn lemma_empty_from(
        self,
        arms: Seq<ScanArm>,
        text: Seq<char>,
        i: int,
        best: Option<ArmModel>,
        k: int,
    )
        requires
            0 <= i <= k < arms.len(),
            self.eval.cancellation_flag.never_stops(),
            no_empty_match(arms, text, k),
            crate::lazy::program_laws::arm_match(arms, text, k) matches Some(arm)
                && arm.whole().start == arm.whole().end,
        ensures
            self.find_arm(arms, text, i, best) == (
                Err::<Option<ArmModel>, ErrorModel>(
                    ErrorModel::EmptyRegexCapture(
                        "for regular expression /"@ + crate::regexes::regex_pattern(arms[k].regex)
                            + "/"@,
                    ),
                ),
                self.after_asking((k - i + 1) as nat),
            ),
        decreases k - i,
    {
        let state = self.check("processing scan matches"@).1;
        let captures = crate::regexes::regex_captures(arms[i].regex, text);
        let better = crate::lazy::execution::better_arm(
            best,
            i,
            crate::regexes::regex_pattern(arms[i].regex),
            captures,
        );
        assert(crate::lazy::program_laws::arm_match(arms, text, i) == match captures {
            None => None,
            Some(groups) => Some(ArmModel { index: i, groups }),
        });
        if i < k {
            assert(better is Ok);
            state.lemma_empty_from(arms, text, i + 1, better->Ok_0, k);
        }
    }
}

} // verus!
