use vstd::prelude::*;

verus! {

/// The dispatcher's classification of an execution error: an error of the
/// runtime itself, carrying a runtime-level code, or a business error
/// raised by a service, carrying a stable service code the caller can
/// branch on.
#[derive(Clone, Copy, Debug, PartialEq, Eq, Structural)]
pub enum ErrorKind {
    Runtime { code: u8 },
    Service { code: u8 },
}

/// A structured execution error as the dispatcher expects it: a kind and
/// an optional human-readable description. Produced only by the exception
/// translator and by local validation.
#[derive(Debug)]
pub struct ExecutionError {
    pub kind: ErrorKind,
    pub description: Option<String>,
}

/// The mathematical content of an execution error.
pub struct ExecutionErrorView {
    pub kind: ErrorKind,
    pub description: Option<Seq<char>>,
}

impl View for ExecutionError {
    type V = ExecutionErrorView;

    open spec fn view(&self) -> ExecutionErrorView {
        ExecutionErrorView {
            kind: self.kind,
            description: match self.description {
                Some(d) => Some(d@),
                None => None,
            },
        }
    }
}

/// Local failures of the adapter itself, surfaced to the dispatcher as
/// runtime errors with a fixed code each.
#[derive(Clone, Copy, Debug, PartialEq, Eq, Structural)]
pub enum RuntimeError {
    /// The artifact does not belong to this runtime.
    IncorrectArtifactId,
    /// A foreign exception crossed the boundary.
    JavaException,
    /// The boundary call itself failed (attachment, signature resolution).
    OtherJniError,
    /// The requested operation is not supported by this runtime.
    NotSupportedOperation,
}

impl RuntimeError {
    /// The stable numeric code of this error in the dispatcher's model.
    pub open spec fn spec_code(&self) -> u8 {
        match self {
            RuntimeError::IncorrectArtifactId => 0,
            RuntimeError::JavaException => 1,
            RuntimeError::OtherJniError => 2,
            RuntimeError::NotSupportedOperation => 3,
        }
    }

    #[verifier::when_used_as_spec(spec_code)]
    pub fn code(&self) -> (c: u8)
        ensures
            c == self.spec_code(),
    {
        match self {
            RuntimeError::IncorrectArtifactId => 0,
            RuntimeError::JavaException => 1,
            RuntimeError::OtherJniError => 2,
            RuntimeError::NotSupportedOperation => 3,
        }
    }

    /// The error as the dispatcher sees it: a runtime-kind execution error
    /// with this error's code and no description.
    pub open spec fn spec_to_execution_error(&self) -> ExecutionError {
        ExecutionError {
            kind: ErrorKind::Runtime { code: self.spec_code() },
            description: None,
        }
    }

    #[verifier::when_used_as_spec(spec_to_execution_error)]
    pub fn to_execution_error(&self) -> (e: ExecutionError)
        ensures
            e == self.spec_to_execution_error(),
    {
        ExecutionError {
            kind: ErrorKind::Runtime { code: self.code() },
            description: None,
        }
    }

    /// The error as an execution error that carries a description.
    pub fn with_description(&self, description: String) -> (e: ExecutionError)
        ensures
            e.kind == (ErrorKind::Runtime { code: self.spec_code() }),
            e.description == Some(description),
    {
        ExecutionError {
            kind: ErrorKind::Runtime { code: self.code() },
            description: Some(description),
        }
    }
}

/// A failure after which the calling thread must not continue: state
/// hashing and the commit hooks are consensus-critical, so their
/// failures are not recoverable errors but reasons to stop.
#[derive(Debug)]
pub struct FatalError {
    pub description: String,
}

} // verus!
