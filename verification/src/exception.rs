use vstd::prelude::*;
use vstd::string::*;
use crate::calls::JniError;
use crate::calls::JniErrorKind;
use crate::calls::ReturnValue;
use crate::errors::ErrorKind;
use crate::errors::ExecutionError;
use crate::errors::ExecutionErrorView;
use crate::errors::RuntimeError;

verus! {

/// The closed set of foreign exception classes the translator
/// distinguishes. They are classification keys only: the invocation layer
/// resolves each to a foreign class reference at startup.
#[derive(Clone, Copy, Debug, PartialEq, Eq, Structural)]
pub enum ExceptionClass {
    /// A service signalled a business failure of a transaction.
    TransactionExecutionException,
    /// Loading of an artifact or service failed on the foreign side.
    ServiceLoadingException,
}

/// The translator's handlers, a closed set: one per registered exception
/// class, plus the fallback used when no registered class matches.
#[derive(Clone, Copy, Debug, PartialEq, Eq, Structural)]
pub enum ExceptionHandler {
    /// Yields a service error with the code the exception carries.
    TxExecution,
    /// Wraps the message in a loading diagnostic, as a generic runtime error.
    ServiceLoading,
    /// Classifies as a generic foreign-runtime error with a description.
    Default,
}

/// The data of a foreign exception that was pending after a call, as the
/// invocation layer extracts it when it clears the exception: the
/// registered classes the exception is an instance of (covariantly, so an
/// instance of a subclass is an instance of the class), its message, its
/// full string form, and the service error code its class exposes, when it
/// exposes one.
#[derive(Debug)]
pub struct PendingException {
    /// Registered classes this exception is an instance of.
    pub instance_of: Vec<ExceptionClass>,
    /// The exception's own message, when it has one.
    pub message: Option<String>,
    /// The exception's full string form, always present.
    pub string_form: String,
    /// The service error code reported by the exception; meaningful only
    /// for transaction execution exceptions, which always expose one.
    pub error_code: u8,
}

/// The mathematical content of a pending exception.
pub struct PendingExceptionView {
    pub instance_of: Seq<ExceptionClass>,
    pub message: Option<Seq<char>>,
    pub string_form: Seq<char>,
    pub error_code: u8,
}

impl View for PendingException {
    type V = PendingExceptionView;

    open spec fn view(&self) -> PendingExceptionView {
        PendingExceptionView {
            instance_of: self.instance_of@,
            message: match self.message {
                Some(m) => Some(m@),
                None => None,
            },
            string_form: self.string_form@,
            error_code: self.error_code,
        }
    }
}

impl PendingExceptionView {
    /// Whether the exception is an instance of the given registered class.
    pub open spec fn is_instance_of(&self, class: ExceptionClass) -> bool {
        exists|i: int| 0 <= i < self.instance_of.len() && self.instance_of[i] == class
    }

    /// The description the default handler extracts: the exception's
    /// message, or its full string form when it has no message.
    pub open spec fn describe(&self) -> Seq<char> {
        match self.message {
            Some(m) => m,
            None => self.string_form,
        }
    }
}

impl PendingException {
    /// Whether this exception is an instance of the given registered class.
    pub fn is_instance_of(&self, class: ExceptionClass) -> (r: bool)
        ensures
            r == self@.is_instance_of(class),
    {
        let n = self.instance_of.len();
        for i in 0..n
            invariant
                n == self.instance_of@.len(),
                forall|j: int| 0 <= j < i ==> self.instance_of@[j] != class,
        {
            if self.instance_of[i] == class {
                proof {
                    assert(self@.instance_of[i as int] == class);
                }
                return true;
            }
        }
        false
    }

    /// Extracts the default handler's description.
    pub fn describe(&self) -> (d: String)
        ensures
            d@ == self@.describe(),
    {
        match &self.message {
            Some(m) => m.clone(),
            None => self.string_form.clone(),
        }
    }
}

/// An ordered dispatch table: `(foreign class, handler)` pairs, searched in
/// order, first match wins. Static for the process; consulted, never
/// mutated, during translation.
pub type DispatchTable = Vec<(ExceptionClass, ExceptionHandler)>;

/// The diagnostic string the loading handler wraps a message in.
pub open spec fn spec_loading_diagnostic(message: Option<Seq<char>>) -> Seq<char> {
    match message {
        Some(m) => "ServiceLoadingException(message: "@ + m + ")"@,
        None => "ServiceLoadingException(message: none)"@,
    }
}

/// What a given handler makes of a given exception.
pub open spec fn spec_apply_handler(handler: ExceptionHandler, exception: PendingExceptionView) -> ExecutionErrorView {
    match handler {
        ExceptionHandler::TxExecution => ExecutionErrorView {
            kind: ErrorKind::Service { code: exception.error_code },
            description: Some(match exception.message {
                Some(m) => m,
                None => Seq::<char>::empty(),
            }),
        },
        ExceptionHandler::ServiceLoading => ExecutionErrorView {
            kind: ErrorKind::Runtime { code: RuntimeError::JavaException.spec_code() },
            description: Some(spec_loading_diagnostic(exception.message)),
        },
        ExceptionHandler::Default => ExecutionErrorView {
            kind: ErrorKind::Runtime { code: RuntimeError::JavaException.spec_code() },
            description: Some(exception.describe()),
        },
    }
}

/// The handler the table selects for an exception: the first entry whose
/// class the exception is an instance of, or the default handler when no
/// entry matches.
pub open spec fn spec_first_match(table: Seq<(ExceptionClass, ExceptionHandler)>, exception: PendingExceptionView) -> ExceptionHandler
    decreases table.len(),
{
    if table.len() == 0 {
        ExceptionHandler::Default
    } else if exception.is_instance_of(table[0].0) {
        table[0].1
    } else {
        spec_first_match(table.drop_first(), exception)
    }
}

/// What the translator yields for an exception under a table.
pub open spec fn spec_translate(table: Seq<(ExceptionClass, ExceptionHandler)>, exception: PendingExceptionView) -> ExecutionErrorView {
    spec_apply_handler(spec_first_match(table, exception), exception)
}

/// Applies one handler to an exception.
pub fn apply_handler(handler: ExceptionHandler, exception: &PendingException) -> (e: ExecutionError)
    ensures
        e@ == spec_apply_handler(handler, exception@),
{
    match handler {
        ExceptionHandler::TxExecution => {
            let description = match &exception.message {
                Some(m) => m.clone(),
                None => String::new(),
            };
            ExecutionError {
                kind: ErrorKind::Service { code: exception.error_code },
                description: Some(description),
            }
        },
        ExceptionHandler::ServiceLoading => {
            let mut description = String::from_str("ServiceLoadingException(message: ");
            match &exception.message {
                Some(m) => {
                    description.append(m.as_str());
                    description.append(")");
                },
                None => {
                    description = String::from_str("ServiceLoadingException(message: none)");
                },
            }
            proof {
                assert(description@ == spec_loading_diagnostic(exception@.message));
            }
            ExecutionError {
                kind: ErrorKind::Runtime { code: RuntimeError::JavaException.code() },
                description: Some(description),
            }
        },
        ExceptionHandler::Default => {
            ExecutionError {
                kind: ErrorKind::Runtime { code: RuntimeError::JavaException.code() },
                description: Some(exception.describe()),
            }
        },
    }
}

/// Translates a pending foreign exception into the dispatcher's error
/// model. Walks the table in order; the first entry whose class matches
/// wins; no match falls back to the default handler. The exception was
/// already cleared by the invocation layer when it extracted the data.
pub fn translate(table: &DispatchTable, exception: &PendingException) -> (e: ExecutionError)
    ensures
        e@ == spec_translate(table@, exception@),
{
    let n = table.len();
    proof {
        assert(table@.skip(0) =~= table@);
    }
    for i in 0..n
        invariant
            n == table@.len(),
            spec_first_match(table@.skip(i as int), exception@) == spec_first_match(table@, exception@),
        decreases n - i,
    {
        if exception.is_instance_of(table[i].0) {
            proof {
                assert(table@.skip(i as int)[0] == table@[i as int]);
            }
            return apply_handler(table[i].1, exception);
        }
        proof {
            assert(table@.skip(i as int).drop_first() =~= table@.skip(i as int + 1));
        }
    }
    proof {
        assert(table@.skip(n as int).len() == 0);
    }
    apply_handler(ExceptionHandler::Default, exception)
}

/// First-match dispatch, stated as a law: an exception that is an
/// instance of some registered class is classified by the earliest
/// matching entry's handler, however many later entries also match.
pub proof fn lemma_translate_first_match(table: Seq<(ExceptionClass, ExceptionHandler)>, exception: PendingExceptionView, i: int)
    requires
        0 <= i < table.len(),
        exception.is_instance_of(table[i].0),
        forall|j: int| 0 <= j < i ==> !exception.is_instance_of((#[trigger] table[j]).0),
    ensures
        spec_translate(table, exception) == spec_apply_handler(table[i].1, exception),
    decreases i,
{
    if i > 0 {
        let rest = table.drop_first();
        assert(forall|j: int| 0 <= j < rest.len() ==> rest[j] == table[j + 1]);
        assert(forall|j: int| 0 <= j < i - 1 ==> !exception.is_instance_of(
            (#[trigger] rest[j]).0,
        ));
        lemma_translate_first_match(rest, exception, i - 1);
    }
}

/// Default dispatch, stated as a law: an exception that is an instance
/// of no registered class is classified by the default handler.
pub proof fn lemma_translate_unregistered(table: Seq<(ExceptionClass, ExceptionHandler)>, exception: PendingExceptionView)
    requires
        forall|j: int| 0 <= j < table.len() ==> !exception.is_instance_of(
            (#[trigger] table[j]).0,
        ),
    ensures
        spec_translate(table, exception) == spec_apply_handler(ExceptionHandler::Default, exception),
    decreases table.len(),
{
    if table.len() > 0 {
        let rest = table.drop_first();
        assert(forall|j: int| 0 <= j < rest.len() ==> rest[j] == table[j + 1]);
        lemma_translate_unregistered(rest, exception);
    }
}

/// The outcome of one foreign invocation, as the invocation layer hands
/// it back: the call returned a value; a foreign exception was pending
/// (the invocation layer cleared it and extracted its data); or the call
/// failed at the boundary itself.
pub enum CallOutcome {
    Returned(ReturnValue),
    Exception(PendingException),
    Failure(JniError),
}

/// What a boundary-level failure converts to in the dispatcher's error
/// model: a pending-exception failure carries the generic foreign
/// exception code, any other boundary failure the boundary-defect code;
/// both keep the failure's description.
pub open spec fn spec_convert_jni(err: crate::calls::JniErrorView) -> ExecutionErrorView {
    ExecutionErrorView {
        kind: ErrorKind::Runtime {
            code: match err.kind {
                JniErrorKind::JavaException => RuntimeError::JavaException.spec_code(),
                JniErrorKind::Other => RuntimeError::OtherJniError.spec_code(),
            },
        },
        description: Some(err.description),
    }
}

/// Converts a boundary-level failure into an execution error.
pub fn convert_jni(err: JniError) -> (e: ExecutionError)
    ensures
        e@ == spec_convert_jni(err@),
{
    let code = match err.kind {
        JniErrorKind::JavaException => RuntimeError::JavaException.code(),
        JniErrorKind::Other => RuntimeError::OtherJniError.code(),
    };
    ExecutionError {
        kind: ErrorKind::Runtime { code },
        description: Some(err.description),
    }
}

/// What handling an outcome yields: the returned value on success; on a
/// pending exception, the translation under the table; on any other
/// boundary failure, its conversion.
pub open spec fn spec_handle_exception(outcome: CallOutcome, table: Seq<(ExceptionClass, ExceptionHandler)>) -> Result<ReturnValue, ExecutionErrorView> {
    match outcome {
        CallOutcome::Returned(v) => Ok(v),
        CallOutcome::Exception(exc) => Err(spec_translate(table, exc@)),
        CallOutcome::Failure(err) => Err(spec_convert_jni(err@)),
    }
}

/// Handles the outcome of one foreign call: passes a returned value
/// through, translates a pending foreign exception by the table, and
/// converts any other boundary failure.
pub fn handle_exception(outcome: CallOutcome, table: &DispatchTable) -> (r: Result<ReturnValue, ExecutionError>)
    ensures
        match spec_handle_exception(outcome, table@) {
            Ok(v) => r matches Ok(rv) && rv == v,
            Err(e) => r matches Err(re) && re@ == e,
        },
{
    match outcome {
        CallOutcome::Returned(v) => Ok(v),
        CallOutcome::Exception(exc) => Err(translate(table, &exc)),
        CallOutcome::Failure(err) => Err(convert_jni(err)),
    }
}

} // verus!
