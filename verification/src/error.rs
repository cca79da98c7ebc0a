//! What can go wrong during execution.

use vstd::prelude::*;

use crate::location::Location;

verus! {

/// Tells that a check of the cancellation flag asked to stop, and where.
#[derive(Debug, PartialEq, Eq)]
pub struct CancellationError(pub String);

/// Why an execution failed.
#[derive(Debug, PartialEq, Eq)]
pub enum ExecutionError {
    Cancelled(CancellationError),
    CannotAssignImmutableVariable(String),
    CannotAssignScopedVariable(String),
    CannotDefineMutableScopedVariable(String),
    DuplicateAttribute(String),
    DuplicateEdge(String),
    DuplicateVariable(String),
    EmptyRegexCapture(String),
    ExpectedBoolean(String),
    ExpectedGraphNode(String),
    ExpectedList(String),
    ExpectedString(String),
    ExpectedSyntaxNode(String),
    FunctionFailed(String),
    MissingGlobalVariable(String),
    MissingQuery,
    RecursivelyDefinedScopedVariable(String),
    RecursivelyDefinedShorthand(String),
    RecursivelyDefinedVariable(String),
    UndefinedCapture(String),
    UndefinedEdge(String),
    UndefinedFunction(String),
    UndefinedGraphNode(String),
    UndefinedRegexCapture(String),
    UndefinedScopedVariable(String),
    UndefinedStanza(String),
    UndefinedVariable(String),
    VariableScopesAlreadyForced(String),
    InContext(Context, Box<ExecutionError>),
}

/// What was being done when an error occurred.
#[derive(Debug, PartialEq, Eq)]
pub enum Context {
    Statement {
        statement: String,
        statement_location: Location,
        stanza_location: Location,
        source_location: Location,
        node_kind: String,
    },
    Other(String),
}

/// The model of an `ExecutionError`.
#[verifier::ext_equal]
pub enum ErrorModel {
    Cancelled(Seq<char>),
    CannotAssignImmutableVariable(Seq<char>),
    CannotAssignScopedVariable(Seq<char>),
    CannotDefineMutableScopedVariable(Seq<char>),
    DuplicateAttribute(Seq<char>),
    DuplicateEdge(Seq<char>),
    DuplicateVariable(Seq<char>),
    EmptyRegexCapture(Seq<char>),
    ExpectedBoolean(Seq<char>),
    ExpectedGraphNode(Seq<char>),
    ExpectedList(Seq<char>),
    ExpectedString(Seq<char>),
    ExpectedSyntaxNode(Seq<char>),
    FunctionFailed(Seq<char>),
    MissingGlobalVariable(Seq<char>),
    MissingQuery,
    RecursivelyDefinedScopedVariable(Seq<char>),
    RecursivelyDefinedShorthand(Seq<char>),
    RecursivelyDefinedVariable(Seq<char>),
    UndefinedCapture(Seq<char>),
    UndefinedEdge(Seq<char>),
    UndefinedFunction(Seq<char>),
    UndefinedGraphNode(Seq<char>),
    UndefinedRegexCapture(Seq<char>),
    UndefinedScopedVariable(Seq<char>),
    UndefinedStanza(Seq<char>),
    UndefinedVariable(Seq<char>),
    VariableScopesAlreadyForced(Seq<char>),
    InContext(ContextModel, Box<ErrorModel>),
}

/// The model of a `Context`.
#[verifier::ext_equal]
pub enum ContextModel {
    Statement {
        statement: Seq<char>,
        statement_location: Location,
        stanza_location: Location,
        source_location: Location,
        node_kind: Seq<char>,
    },
    Other(Seq<char>),
}

impl View for Context {
    type V = ContextModel;

    open spec fn view(&self) -> ContextModel {
        match self {
            Context::Statement {
                statement,
                statement_location,
                stanza_location,
                source_location,
                node_kind,
            } => ContextModel::Statement {
                statement: statement@,
                statement_location: *statement_location,
                stanza_location: *stanza_location,
                source_location: *source_location,
                node_kind: node_kind@,
            },
            Context::Other(text) => ContextModel::Other(text@),
        }
    }
}

impl View for ExecutionError {
    type V = ErrorModel;

    open spec fn view(&self) -> ErrorModel
        decreases self,
    {
        match self {
            ExecutionError::Cancelled(e) => ErrorModel::Cancelled(e.0@),
            ExecutionError::CannotAssignImmutableVariable(s) => {
                ErrorModel::CannotAssignImmutableVariable(s@)
            },
            ExecutionError::CannotAssignScopedVariable(s) => {
                ErrorModel::CannotAssignScopedVariable(s@)
            },
            ExecutionError::CannotDefineMutableScopedVariable(s) => {
                ErrorModel::CannotDefineMutableScopedVariable(s@)
            },
            ExecutionError::DuplicateAttribute(s) => ErrorModel::DuplicateAttribute(s@),
            ExecutionError::DuplicateEdge(s) => ErrorModel::DuplicateEdge(s@),
            ExecutionError::DuplicateVariable(s) => ErrorModel::DuplicateVariable(s@),
            ExecutionError::EmptyRegexCapture(s) => ErrorModel::EmptyRegexCapture(s@),
            ExecutionError::ExpectedBoolean(s) => ErrorModel::ExpectedBoolean(s@),
            ExecutionError::ExpectedGraphNode(s) => ErrorModel::ExpectedGraphNode(s@),
            ExecutionError::ExpectedList(s) => ErrorModel::ExpectedList(s@),
            ExecutionError::ExpectedString(s) => ErrorModel::ExpectedString(s@),
            ExecutionError::ExpectedSyntaxNode(s) => ErrorModel::ExpectedSyntaxNode(s@),
            ExecutionError::FunctionFailed(s) => ErrorModel::FunctionFailed(s@),
            ExecutionError::MissingGlobalVariable(s) => ErrorModel::MissingGlobalVariable(s@),
            ExecutionError::MissingQuery => ErrorModel::MissingQuery,
            ExecutionError::RecursivelyDefinedScopedVariable(s) => {
                ErrorModel::RecursivelyDefinedScopedVariable(s@)
            },
            ExecutionError::RecursivelyDefinedShorthand(s) => {
                ErrorModel::RecursivelyDefinedShorthand(s@)
            },
            ExecutionError::RecursivelyDefinedVariable(s) => {
                ErrorModel::RecursivelyDefinedVariable(s@)
            },
            ExecutionError::UndefinedCapture(s) => ErrorModel::UndefinedCapture(s@),
            ExecutionError::UndefinedEdge(s) => ErrorModel::UndefinedEdge(s@),
            ExecutionError::UndefinedFunction(s) => ErrorModel::UndefinedFunction(s@),
            ExecutionError::UndefinedGraphNode(s) => ErrorModel::UndefinedGraphNode(s@),
            ExecutionError::UndefinedRegexCapture(s) => ErrorModel::UndefinedRegexCapture(s@),
            ExecutionError::UndefinedScopedVariable(s) => ErrorModel::UndefinedScopedVariable(s@),
            ExecutionError::UndefinedStanza(s) => ErrorModel::UndefinedStanza(s@),
            ExecutionError::UndefinedVariable(s) => ErrorModel::UndefinedVariable(s@),
            ExecutionError::VariableScopesAlreadyForced(s) => {
                ErrorModel::VariableScopesAlreadyForced(s@)
            },
            ExecutionError::InContext(c, e) => ErrorModel::InContext(c@, Box::new((**e)@)),
        }
    }
}

impl ErrorModel {
    /// The error with a note of what was being done. A cancellation gets no note.
    pub open spec fn within(self, context: ContextModel) -> ErrorModel {
        if self is Cancelled {
            self
        } else {
            ErrorModel::InContext(context, Box::new(self))
        }
    }
}

impl ExecutionError {
    /// Adds a note of what was being done to the error, unless it is a cancellation.
    pub fn with_context(self, context: Context) -> (r: ExecutionError)
        ensures
            r@ == self@.within(context@),
    {
        match self {
            ExecutionError::Cancelled(e) => ExecutionError::Cancelled(e),
            other => ExecutionError::InContext(context, Box::new(other)),
        }
    }
}

/// The model of a fallible result without a value.
pub open spec fn unit_model(r: Result<(), ExecutionError>) -> Result<(), ErrorModel> {
    match r {
        Ok(()) => Ok(()),
        Err(e) => Err(e@),
    }
}

/// The model of a fallible result.
pub open spec fn result_model<T: View>(r: Result<T, ExecutionError>) -> Result<T::V, ErrorModel> {
    match r {
        Ok(v) => Ok(v@),
        Err(e) => Err(e@),
    }
}

} // verus!
