//! The functions that programs can call.

use vstd::prelude::*;

use crate::error::ErrorModel;
use crate::error::ExecutionError;
use crate::graph::Graph;
use crate::graph::GraphModel;
use crate::identifier::Identifier;
use crate::values::Value;
use crate::values::ValueModel;

verus! {

/// What is handed to a function.
#[verifier::ext_equal]
pub struct Request {
    pub function: Seq<char>,
    pub arguments: Seq<ValueModel>,
    pub source: Seq<char>,
    pub graph: GraphModel,
}

/// The outcomes of function calls. `of(n, request)` is the outcome of the `n`-th call, made with
/// `request`: what the function returns, and what it makes of the graph.
pub struct Outcomes {
    pub called: nat,
    pub of: spec_fn(nat, Request) -> (Result<ValueModel, ErrorModel>, GraphModel),
}

impl Outcomes {
    /// The outcome of the next call, if it is made with `request`.
    pub open spec fn next(self, request: Request) -> (Result<ValueModel, ErrorModel>, GraphModel) {
        (self.of)(self.called, request)
    }

    /// What is left after the next call.
    pub open spec fn rest(self) -> Outcomes {
        Outcomes { called: self.called + 1, ..self }
    }
}

/// The functions that a program can call by name.
///
/// Nothing is assumed of what a function returns, or of what it does to the graph. The outcomes
/// are only given names, so that contracts can tell what happens for each of them.
pub trait Functions: Sized {
    /// The outcomes of the calls that are still to come.
    spec fn outcomes(&self) -> Outcomes;

    fn call(
        &mut self,
        function: &Identifier,
        graph: &mut Graph,
        source: &str,
        arguments: Vec<Value>,
    ) -> (r: Result<Value, ExecutionError>)
        ensures
            final(self).outcomes() == old(self).outcomes().rest(),
            (crate::error::result_model(r), final(graph)@) == old(self).outcomes().next(
                Request {
                    function: function@,
                    arguments: crate::values::values_model(arguments@),
                    source: source@,
                    graph: old(graph)@,
                },
            ),
    ;
}

/// No functions at all: every call fails.
pub struct NoFunctions {
    called: Ghost<nat>,
}

impl NoFunctions {
    pub fn new() -> (r: NoFunctions)
        ensures
            r.outcomes().called == 0,
            forall|n: nat, request: Request|
                (#[trigger] (r.outcomes().of)(n, request)) == (
                    Err::<ValueModel, ErrorModel>(ErrorModel::UndefinedFunction(request.function)),
                    request.graph,
                ),
    {
        NoFunctions { called: Ghost(0) }
    }
}

impl Functions for NoFunctions {
    closed spec fn outcomes(&self) -> Outcomes {
        Outcomes {
            called: self.called@,
            of: |n: nat, request: Request|
                (Err(ErrorModel::UndefinedFunction(request.function)), request.graph),
        }
    }

    fn call(
        &mut self,
        function: &Identifier,
        graph: &mut Graph,
        source: &str,
        arguments: Vec<Value>,
    ) -> (r: Result<Value, ExecutionError>) {
        self.called = Ghost((self.called@ + 1) as nat);
        assert(self.outcomes().of =~= old(self).outcomes().of);
        Err(ExecutionError::UndefinedFunction(function.name.clone()))
    }
}

} // verus!
