//! Laws of programs: variables, blocks, scans and cancellation.

use vstd::prelude::*;

use crate::ast::Global;
use crate::ast::IfArm;
use crate::ast::ScanArm;
use crate::ast::Statement;
use crate::ast::UnscopedVariable;
use crate::error::ContextModel;
use crate::error::ErrorModel;
use crate::lazy::execution::ArmModel;
use crate::lazy::execution::ExecutionState;
use crate::lazy::execution::NotesModel;
use crate::lazy::execution::Surroundings;
use crate::lazy::store::ThunkModel;
use crate::lazy::store::ThunkStateModel;
use crate::lazy::values::LazyModel;
use crate::location::Location;
use crate::values::ValueModel;
use crate::variables::Globals;
use crate::variables::LocalModel;

verus! {

/// Blocks that agree on a name agree on where its innermost variable is.
pub proof fn lemma_block_of_same(
    blocks: Seq<Map<Seq<char>, LocalModel>>,
    others: Seq<Map<Seq<char>, LocalModel>>,
    name: Seq<char>,
    n: int,
)
    requires
        n <= blocks.len(),
        n <= others.len(),
        forall|i: int|
            0 <= i < n ==> (#[trigger] blocks[i]).contains_key(name) == others[i].contains_key(
                name,
            ),
    ensures
        crate::variables::block_of(blocks, name, n) == crate::variables::block_of(others, name, n),
    decreases n,
{
    if n > 0 {
        lemma_block_of_same(blocks, others, name, n - 1);
    }
}

impl ExecutionState {
    /// A variable that has been declared can be read: it stands for a new thunk, which holds the
    /// value.
    pub proof fn lemma_declare_read(
        self,
        cx: Surroundings,
        variable: UnscopedVariable,
        value: LazyModel,
        mutable: bool,
    )
        requires
            self.locals.len() > 0,
            self.declare(cx, variable, value, mutable).0 is Ok,
        ensures
            self.declare(cx, variable, value, mutable).1.read(cx, variable) == Ok::<
                LazyModel,
                ErrorModel,
            >(self.next_variable()),
            self.declare(cx, variable, value, mutable).1.eval.store == self.eval.store.push(
                ThunkModel {
                    state: ThunkStateModel::Unforced(value),
                    debug_info: variable.location,
                },
            ),
    {
    }

    /// Declaring a variable leaves those with other names alone.
    pub proof fn lemma_declare_others(
        self,
        cx: Surroundings,
        variable: UnscopedVariable,
        value: LazyModel,
        mutable: bool,
        other: UnscopedVariable,
    )
        requires
            self.locals.len() > 0,
            other.name@ != variable.name@,
        ensures
            self.declare(cx, variable, value, mutable).1.read(cx, other) == self.read(cx, other),
    {
        let after = self.declare(cx, variable, value, mutable).1;
        lemma_block_of_same(
            self.locals,
            after.locals,
            other.name@,
            self.locals.len() as int,
        );
        crate::variables::lemma_block_of(self.locals, other.name@, self.locals.len() as int);
    }

    /// A variable cannot be declared twice in a block.
    pub proof fn lemma_declare_twice(
        self,
        cx: Surroundings,
        variable: UnscopedVariable,
        value: LazyModel,
        mutable: bool,
        again: UnscopedVariable,
        other: LazyModel,
        other_mutable: bool,
    )
        requires
            self.declare(cx, variable, value, mutable).0 is Ok,
            again.name@ == variable.name@,
        ensures
            self.declare(cx, variable, value, mutable).1.declare(
                cx,
                again,
                other,
                other_mutable,
            ).0 == Err::<(), ErrorModel>(
                ErrorModel::DuplicateVariable(" local "@ + variable.name@),
            ),
    {
    }

    /// A variable with the name of a global variable can be neither declared nor assigned, and the
    /// state stays as it is.
    pub proof fn lemma_global_fixed(
        self,
        cx: Surroundings,
        variable: UnscopedVariable,
        value: LazyModel,
        mutable: bool,
    )
        requires
            cx.globals.contains_key(variable.name@),
        ensures
            self.declare(cx, variable, value, mutable) == (
                Err::<(), ErrorModel>(
                    ErrorModel::DuplicateVariable(" global "@ + variable.name@),
                ),
                self,
            ),
            self.assign(cx, variable, value) == (
                Err::<(), ErrorModel>(
                    ErrorModel::CannotAssignImmutableVariable(" global "@ + variable.name@),
                ),
                self,
            ),
            self.read(cx, variable) == Ok::<LazyModel, ErrorModel>(
                LazyModel::Value(cx.globals[variable.name@]),
            ),
    {
    }

    /// A variable that was declared as not mutable cannot be assigned, and keeps its value.
    pub proof fn lemma_immutable_fixed(
        self,
        cx: Surroundings,
        variable: UnscopedVariable,
        value: LazyModel,
        other: LazyModel,
    )
        requires
            self.locals.len() > 0,
            self.declare(cx, variable, value, false).0 is Ok,
        ensures
            ({
                let declared = self.declare(cx, variable, value, false).1;
                let (result, after) = declared.assign(cx, variable, other);
                &&& result == Err::<(), ErrorModel>(
                    ErrorModel::CannotAssignImmutableVariable(variable.name@),
                )
                &&& after.read(cx, variable) == declared.read(cx, variable)
            }),
    {
    }

    /// A variable that was declared as mutable can be assigned. It then stands for another thunk;
    /// the one that it stood for before, which may have been read, is left alone.
    pub proof fn lemma_assign_read(
        self,
        cx: Surroundings,
        variable: UnscopedVariable,
        value: LazyModel,
    )
        requires
            !cx.globals.contains_key(variable.name@),
            crate::variables::lookup(self.locals, variable.name@) matches Some(local)
                && local.mutable,
        ensures
            self.assign(cx, variable, value).0 is Ok,
            self.assign(cx, variable, value).1.read(cx, variable) == Ok::<LazyModel, ErrorModel>(
                self.next_variable(),
            ),
            self.assign(cx, variable, value).1.eval.store == self.eval.store.push(
                ThunkModel {
                    state: ThunkStateModel::Unforced(value),
                    debug_info: variable.location,
                },
            ),
    {
        let after = self.assign(cx, variable, value).1;
        let n = self.locals.len() as int;
        crate::variables::lemma_block_of(self.locals, variable.name@, n);
        lemma_block_of_same(self.locals, after.locals, variable.name@, n);
    }

    /// A variable that is not declared can be neither read nor assigned.
    pub proof fn lemma_undeclared(
        self,
        cx: Surroundings,
        variable: UnscopedVariable,
        value: LazyModel,
    )
        requires
            !cx.globals.contains_key(variable.name@),
            crate::variables::lookup(self.locals, variable.name@) is None,
        ensures
            self.read(cx, variable) == Err::<LazyModel, ErrorModel>(
                ErrorModel::UndefinedVariable(variable.name@),
            ),
            self.assign(cx, variable, value).0 == Err::<(), ErrorModel>(
                ErrorModel::UndefinedVariable(variable.name@),
            ),
    {
    }

    /// In a new block every name can be declared that is not global, whatever is declared outside,
    /// and when the block is left, the variables outside are as they were.
    pub proof fn lemma_shadowing(
        self,
        cx: Surroundings,
        variable: UnscopedVariable,
        value: LazyModel,
        mutable: bool,
    )
        requires
            !cx.globals.contains_key(variable.name@),
        ensures
            self.enter().declare(cx, variable, value, mutable).0 is Ok,
            self.enter().declare(cx, variable, value, mutable).1.leave().locals == self.locals,
    {
        let after = self.enter().declare(cx, variable, value, mutable).1;
        assert(after.leave().locals =~= self.locals);
    }

    /// Of the arms of an if statement only the first counts whose conditions hold: whatever comes
    /// after it makes no difference.
    pub proof fn lemma_first_arm(
        self,
        cx: Surroundings,
        arms: Seq<IfArm>,
        others: Seq<IfArm>,
        i: int,
    )
        requires
            0 <= i < arms.len(),
            i < others.len(),
            others[i] == arms[i],
            self.test_all(cx, arms[i].conditions@, 0, true).0 == Ok::<bool, ErrorModel>(true),
        ensures
            self.choose_arm(cx, arms, i) == self.choose_arm(cx, others, i),
    {
    }
}

/// What the regular expression of an arm first matches in `text`, if it does match.
pub open spec fn arm_match(arms: Seq<ScanArm>, text: Seq<char>, k: int) -> Option<ArmModel> {
    match crate::regexes::regex_captures(arms[k].regex, text) {
        None => None,
        Some(groups) => Some(ArmModel { index: k, groups }),
    }
}

/// Whether `best` is the best of the first `n` arms: it is what that arm matches, that is not
/// empty, and it comes before what all the others match, and is the first of those that match at
/// the same place; or there is none, and no arm matches.
pub open spec fn best_arm(
    arms: Seq<ScanArm>,
    text: Seq<char>,
    n: int,
    best: Option<ArmModel>,
) -> bool {
    match best {
        None => forall|j: int| 0 <= j < n ==> (#[trigger] arm_match(arms, text, j)) is None,
        Some(arm) => {
            &&& 0 <= arm.index < n
            &&& arm_match(arms, text, arm.index) == Some(arm)
            &&& arm.whole().start != arm.whole().end
            &&& forall|j: int|
                0 <= j < n ==> (#[trigger] arm_match(arms, text, j) matches Some(other)
                    ==> arm.whole().start <= other.whole().start && (j < arm.index
                    ==> arm.whole().start < other.whole().start))
        },
    }
}

impl ExecutionState {
    proof fn lemma_find_arm_from(
        self,
        arms: Seq<ScanArm>,
        text: Seq<char>,
        i: int,
        best: Option<ArmModel>,
    )
        requires
            0 <= i <= arms.len(),
            best_arm(arms, text, i, best),
        ensures
            self.find_arm(arms, text, i, best).0 matches Ok(found) ==> best_arm(
                arms,
                text,
                arms.len() as int,
                found,
            ),
        decreases arms.len() - i,
    {
        if i < arms.len() {
            let state = self.check("processing scan matches"@).1;
            let better = crate::lazy::execution::better_arm(
                best,
                i,
                crate::regexes::regex_pattern(arms[i].regex),
                crate::regexes::regex_captures(arms[i].regex, text),
            );
            if let Ok(better) = better {
                assert(arm_match(arms, text, i) == match crate::regexes::regex_captures(
                    arms[i].regex,
                    text,
                ) {
                    None => None,
                    Some(groups) => Some(ArmModel { index: i, groups }),
                });
                assert(best_arm(arms, text, i + 1, better));
                state.lemma_find_arm_from(arms, text, i + 1, better);
            }
        }
    }

    /// A scan goes on with the arm that matches first in the text, and of several that match at the
    /// same place with the first; it ends if no arm matches.
    pub proof fn lemma_best_arm(self, arms: Seq<ScanArm>, text: Seq<char>)
        ensures
            self.find_arm(arms, text, 0, None).0 matches Ok(found) ==> best_arm(
                arms,
                text,
                arms.len() as int,
                found,
            ),
    {
        self.lemma_find_arm_from(arms, text, 0, None);
    }
}

/// A program runs with all the global variables that it is given, as they are, and with all that it
/// declares, from position `i` on.
pub proof fn lemma_checked_globals(
    declared: Seq<Global>,
    i: int,
    globals: Map<Seq<char>, ValueModel>,
)
    requires
        0 <= i,
    ensures
        crate::lazy::execution::checked_globals(declared, i, globals) matches Ok(all)
            ==> globals.submap_of(all) && forall|k: int|
            i <= k < declared.len() ==> all.contains_key((#[trigger] declared[k]).name@),
    decreases declared.len() - i,
{
    if i < declared.len() {
        let name = declared[i].name@;
        if !globals.contains_key(name) {
            if let Some(default) = declared[i].default {
                let more = globals.insert(name, ValueModel::String(default@));
                lemma_checked_globals(declared, i + 1, more);
                if let Ok(all) = crate::lazy::execution::checked_globals(declared, i + 1, more) {
                    assert(globals.submap_of(more));
                    vstd::map_lib::lemma_submap_of_trans(globals, more, all);
                    assert(more.submap_of(all));
                    assert(more.contains_key(name));
                    assert(all.contains_key(name));
                }
            }
        } else {
            lemma_checked_globals(declared, i + 1, globals);
            if let Ok(all) = crate::lazy::execution::checked_globals(declared, i + 1, globals) {
                assert(globals.dom().contains(name) && all.dom().contains(name));
            }
        }
    }
}

impl ErrorModel {
    /// A cancellation is passed on as it is: it never gets a note.
    pub proof fn lemma_cancelled_without_note(
        place: Seq<char>,
        context: ContextModel,
        notes: NotesModel,
        statement: Statement,
    )
        ensures
            ErrorModel::Cancelled(place).within(context) == ErrorModel::Cancelled(place),
            notes.noted(statement, ErrorModel::Cancelled(place)) == ErrorModel::Cancelled(place),
    {
    }
}

impl ErrorModel {
    /// Any other error gets the note: it tells what went wrong, inside of what was done.
    pub proof fn lemma_within(self, context: ContextModel)
        requires
            !(self is Cancelled),
        ensures
            self.within(context) == ErrorModel::InContext(context, Box::new(self)),
    {
    }

    /// An error in a statement of a stanza gets a note of the statement and where it stands, of the
    /// stanza, and of the node that was matched. One in an arm of a scan gets two: of the
    /// statement, and around it of the text and the pattern. Elsewhere it gets none.
    pub proof fn lemma_noted(
        self,
        statement: Statement,
        stanza: Location,
        source: Location,
        kind: Seq<char>,
        text: Seq<char>,
        pattern: Seq<char>,
    )
        requires
            !(self is Cancelled),
        ensures
            NotesModel::Nothing.noted(statement, self) == self,
            (NotesModel::Stanza {
                stanza_location: stanza,
                source_location: source,
                node_kind: kind,
            }).noted(statement, self) == ErrorModel::InContext(
                (ContextModel::Statement {
                    statement: statement.shown(),
                    statement_location: statement.place(),
                    stanza_location: stanza,
                    source_location: source,
                    node_kind: kind,
                }),
                Box::new(self),
            ),
            (NotesModel::Scan { text, pattern }).noted(statement, self) == ErrorModel::InContext(
                ContextModel::Other(
                    "Matching "@ + text + " with arm \""@ + pattern + "\" { ... }"@,
                ),
                Box::new(
                    ErrorModel::InContext(
                        ContextModel::Other("Executing "@ + statement.shown()),
                        Box::new(self),
                    ),
                ),
            ),
    {
        statement.lemma_shown();
    }
}

impl<'a> Globals<'a> {
    /// A global variable is that of its own, if there is one, and else that of the context.
    pub proof fn lemma_hidden(self, context: &'a Globals<'a>, name: Seq<char>)
        requires
            self.context == Some(context),
        ensures
            self.model().contains_key(name) <==> self.values@.contains_key(name)
                || context.model().contains_key(name),
            self.values@.contains_key(name) ==> self.model()[name] == self.values@[name],
            !self.values@.contains_key(name) && context.model().contains_key(name)
                ==> self.model()[name] == context.model()[name],
    {
    }
}

impl ExecutionState {
    /// If the flag says to stop when a statement is to be executed, that is the result, and nothing
    /// is done.
    pub proof fn lemma_cancelled_statement(
        self,
        cx: Surroundings,
        statement: Statement,
        place: Seq<char>,
    )
        requires
            self.eval.cancellation_flag.next("executing statement"@) == Some(place),
        ensures
            self.execute(cx, statement) == (
                Err::<(), ErrorModel>(ErrorModel::Cancelled(place)),
                self.check("executing statement"@).1,
            ),
    {
    }
}

} // verus!
