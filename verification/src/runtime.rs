use vstd::prelude::*;
use crate::artifact::ArtifactId;
use crate::artifact::parse_artifact;
use crate::artifact::JAVA_RUNTIME_ID;
use crate::calls::ForeignArg;
use crate::calls::ForeignArgView;
use crate::calls::ForeignCall;
use crate::calls::ForeignCallView;
use crate::calls::ForeignMethod;
use crate::calls::ReturnValue;
use crate::errors::ExecutionError;
use crate::errors::FatalError;
use crate::errors::RuntimeError;
use crate::exception::CallOutcome;
use crate::exception::DispatchTable;
use crate::exception::ExceptionClass;
use crate::exception::ExceptionHandler;
use crate::exception::handle_exception;
use crate::exception::spec_handle_exception;
use crate::handles::HandleRegistry;
use crate::handles::ViewKind;

verus! {

/// Identifies one running service instance to the dispatcher.
pub struct InstanceSpec {
    pub id: u32,
    pub name: String,
    pub artifact: ArtifactId,
}

/// References one running service instance on later calls.
pub struct InstanceDescriptor {
    pub id: u32,
    pub name: String,
}

/// The routing key of one execution request: which instance, which of its
/// transaction methods.
pub struct CallInfo {
    pub instance_id: u32,
    pub method_id: u32,
}

/// The identity on whose behalf an execution runs: a transaction, with
/// its hash and its author's public key, or the blockchain itself, which
/// has no transaction identity.
pub enum Caller {
    Transaction { hash: Vec<u8>, author: Vec<u8> },
    Blockchain,
}

/// What one execution request may read and write, and on whose behalf it
/// runs. Borrowed for the duration of one `execute` call only.
pub struct ExecutionContext {
    /// Handle of the mutable view backing this execution.
    pub view_handle: i64,
    /// The caller's identity.
    pub caller: Caller,
}

/// A change of the dispatcher's API surface, reported to the runtime.
pub enum ApiChange {
    InstanceAdded(u32),
    InstanceRemoved(u32),
}

/// The dispatch table used while deploying artifacts: loading failures
/// have their own handler; everything else falls back to the default.
pub open spec fn spec_deploy_dispatch_table() -> Seq<(ExceptionClass, ExceptionHandler)> {
    seq![(ExceptionClass::ServiceLoadingException, ExceptionHandler::ServiceLoading)]
}

fn deploy_dispatch_table() -> (t: DispatchTable)
    ensures
        t@ == spec_deploy_dispatch_table(),
{
    let t: DispatchTable = vec![(ExceptionClass::ServiceLoadingException, ExceptionHandler::ServiceLoading)];
    proof {
        assert(t@ =~= spec_deploy_dispatch_table());
    }
    t
}

/// The dispatch table used while executing transactions: a service's own
/// business failure has its own handler; everything else falls back to
/// the default.
pub open spec fn spec_execute_dispatch_table() -> Seq<(ExceptionClass, ExceptionHandler)> {
    seq![(ExceptionClass::TransactionExecutionException, ExceptionHandler::TxExecution)]
}

fn execute_dispatch_table() -> (t: DispatchTable)
    ensures
        t@ == spec_execute_dispatch_table(),
{
    let t: DispatchTable = vec![(ExceptionClass::TransactionExecutionException, ExceptionHandler::TxExecution)];
    proof {
        assert(t@ =~= spec_execute_dispatch_table());
    }
    t
}

/// The empty dispatch table: every foreign exception falls back to the
/// default handler.
fn empty_dispatch_table() -> (t: DispatchTable)
    ensures
        t@ == Seq::<(ExceptionClass, ExceptionHandler)>::empty(),
{
    let t: DispatchTable = Vec::new();
    t
}

/// Builds the foreign call that deploys an artifact, after validating
/// that the artifact belongs to this runtime. A foreign artifact is
/// rejected locally: no foreign call is produced for it.
pub fn deploy_artifact_request(artifact: &ArtifactId, deploy_spec: &Vec<u8>) -> (r: Result<ForeignCall, ExecutionError>)
    ensures
        r is Ok <==> artifact.runtime_id == JAVA_RUNTIME_ID,
        r matches Ok(call) ==> call@ == (ForeignCallView {
            method: ForeignMethod::DeployArtifact,
            args: seq![
                ForeignArgView::Str(artifact.name@),
                ForeignArgView::Bytes(deploy_spec@),
            ],
        }),
        r matches Err(e) ==> e == RuntimeError::IncorrectArtifactId.to_execution_error(),
{
    let id = parse_artifact(artifact)?;
    let call = ForeignCall {
        method: ForeignMethod::DeployArtifact,
        args: vec![
            ForeignArg::Str(id.into_string()),
            ForeignArg::Bytes(clone_bytes(deploy_spec)),
        ],
    };
    proof {
        assert(call@.args =~= seq![
            ForeignArgView::Str(artifact.name@),
            ForeignArgView::Bytes(deploy_spec@),
        ]);
    }
    Ok(call)
}

/// Interprets the outcome of the deploy call: success and failure are
/// both terminal for that call; a loading exception is translated by its
/// dedicated handler.
pub fn deploy_artifact_response(outcome: CallOutcome) -> (r: Result<(), ExecutionError>)
    ensures
        match spec_handle_exception(outcome, spec_deploy_dispatch_table()) {
            Ok(_) => r is Ok,
            Err(e) => r matches Err(re) && re@ == e,
        },
{
    let table = deploy_dispatch_table();
    match handle_exception(outcome, &table) {
        Ok(_) => Ok(()),
        Err(e) => Err(e),
    }
}

/// Builds the foreign call that answers whether an artifact is deployed.
/// A foreign artifact yields no call: the query degrades to `false`
/// without crossing the boundary.
pub fn is_artifact_deployed_request(id: &ArtifactId) -> (r: Option<ForeignCall>)
    ensures
        r is Some <==> id.runtime_id == JAVA_RUNTIME_ID,
        r matches Some(call) ==> call@ == (ForeignCallView {
            method: ForeignMethod::IsArtifactDeployed,
            args: seq![ForeignArgView::Str(id.name@)],
        }),
{
    match parse_artifact(id) {
        Ok(artifact) => {
            let call = ForeignCall {
                method: ForeignMethod::IsArtifactDeployed,
                args: vec![ForeignArg::Str(artifact.into_string())],
            };
            proof {
                assert(call@.args =~= seq![ForeignArgView::Str(id.name@)]);
            }
            Some(call)
        },
        Err(_) => None,
    }
}

/// Interprets the outcome of the deployment query. Querying deployment
/// status is never fatal: only a call that returned `true` counts as
/// deployed, and every failure degrades to `false`.
pub fn is_artifact_deployed_response(outcome: &CallOutcome) -> (r: bool)
    ensures
        r == (outcome matches CallOutcome::Returned(ReturnValue::Bool(true))),
{
    match outcome {
        CallOutcome::Returned(ReturnValue::Bool(b)) => *b,
        _ => false,
    }
}

/// Builds the foreign call that starts a service instance, after
/// validating the instance's artifact.
pub fn start_service_request(instance_spec: &InstanceSpec) -> (r: Result<ForeignCall, ExecutionError>)
    ensures
        r is Ok <==> instance_spec.artifact.runtime_id == JAVA_RUNTIME_ID,
        r matches Ok(call) ==> call@ == (ForeignCallView {
            method: ForeignMethod::CreateService,
            args: seq![
                ForeignArgView::Str(instance_spec.name@),
                ForeignArgView::Int(instance_spec.id as i32),
                ForeignArgView::Str(instance_spec.artifact.name@),
            ],
        }),
        r matches Err(e) ==> e == RuntimeError::IncorrectArtifactId.to_execution_error(),
{
    let artifact = parse_artifact(&instance_spec.artifact)?;
    let call = ForeignCall {
        method: ForeignMethod::CreateService,
        args: vec![
            ForeignArg::Str(clone_string(&instance_spec.name)),
            ForeignArg::Int(instance_spec.id as i32),
            ForeignArg::Str(artifact.into_string()),
        ],
    };
    proof {
        assert(call@.args =~= seq![
            ForeignArgView::Str(instance_spec.name@),
            ForeignArgView::Int(instance_spec.id as i32),
            ForeignArgView::Str(instance_spec.artifact.name@),
        ]);
    }
    Ok(call)
}

/// Interprets the outcome of the start call: no dedicated handlers, every
/// foreign exception falls back to the default classification.
pub fn start_service_response(outcome: CallOutcome) -> (r: Result<(), ExecutionError>)
    ensures
        match spec_handle_exception(outcome, Seq::<(ExceptionClass, ExceptionHandler)>::empty()) {
            Ok(_) => r is Ok,
            Err(e) => r matches Err(re) && re@ == e,
        },
{
    let table = empty_dispatch_table();
    match handle_exception(outcome, &table) {
        Ok(_) => Ok(()),
        Err(e) => Err(e),
    }
}

/// Builds the foreign call that initializes a service instance with its
/// configuration parameters. Initialization writes state, so the view
/// must be mutable.
pub fn initialize_service_request(
    registry: &HandleRegistry,
    view_handle: i64,
    descriptor: &InstanceDescriptor,
    parameters: &Vec<u8>,
) -> (call: ForeignCall)
    requires
        registry@.dom().contains(view_handle),
        registry@[view_handle] == ViewKind::Mutable,
    ensures
        call@ == (ForeignCallView {
            method: ForeignMethod::InitializeService,
            args: seq![
                ForeignArgView::Int(descriptor.id as i32),
                ForeignArgView::Long(view_handle),
                ForeignArgView::Bytes(parameters@),
            ],
        }),
{
    let call = ForeignCall {
        method: ForeignMethod::InitializeService,
        args: vec![
            ForeignArg::Int(descriptor.id as i32),
            ForeignArg::Long(view_handle),
            ForeignArg::Bytes(clone_bytes(parameters)),
        ],
    };
    proof {
        assert(call@.args =~= seq![
            ForeignArgView::Int(descriptor.id as i32),
            ForeignArgView::Long(view_handle),
            ForeignArgView::Bytes(parameters@),
        ]);
    }
    call
}

/// Interprets the outcome of the initialize call; like starting, it has
/// no dedicated handlers.
pub fn initialize_service_response(outcome: CallOutcome) -> (r: Result<(), ExecutionError>)
    ensures
        match spec_handle_exception(outcome, Seq::<(ExceptionClass, ExceptionHandler)>::empty()) {
            Ok(_) => r is Ok,
            Err(e) => r matches Err(re) && re@ == e,
        },
{
    let table = empty_dispatch_table();
    match handle_exception(outcome, &table) {
        Ok(_) => Ok(()),
        Err(e) => Err(e),
    }
}

/// Builds the foreign call that stops a service instance. Whether
/// stopping twice is tolerated is the foreign side's affair; this layer
/// only routes the request.
pub fn stop_service_request(descriptor: &InstanceDescriptor) -> (call: ForeignCall)
    ensures
        call@ == (ForeignCallView {
            method: ForeignMethod::StopService,
            args: seq![ForeignArgView::Int(descriptor.id as i32)],
        }),
{
    let call = ForeignCall {
        method: ForeignMethod::StopService,
        args: vec![ForeignArg::Int(descriptor.id as i32)],
    };
    proof {
        assert(call@.args =~= seq![ForeignArgView::Int(descriptor.id as i32)]);
    }
    call
}

/// Interprets the outcome of the stop call; no dedicated handlers.
pub fn stop_service_response(outcome: CallOutcome) -> (r: Result<(), ExecutionError>)
    ensures
        match spec_handle_exception(outcome, Seq::<(ExceptionClass, ExceptionHandler)>::empty()) {
            Ok(_) => r is Ok,
            Err(e) => r matches Err(re) && re@ == e,
        },
{
    let table = empty_dispatch_table();
    match handle_exception(outcome, &table) {
        Ok(_) => Ok(()),
        Err(e) => Err(e),
    }
}

/// Builds the foreign call that executes one transaction. Only a caller
/// with a transaction identity is supported: for the blockchain itself
/// the request fails locally with the distinguished "not supported"
/// error, deterministically, whatever the call info holds, and no foreign
/// call is produced.
pub fn execute_request(
    registry: &HandleRegistry,
    context: &ExecutionContext,
    call_info: &CallInfo,
    arguments: &Vec<u8>,
) -> (r: Result<ForeignCall, ExecutionError>)
    requires
        registry@.dom().contains(context.view_handle),
        registry@[context.view_handle] == ViewKind::Mutable,
    ensures
        r is Ok <==> context.caller is Transaction,
        context.caller matches Caller::Transaction { hash, author } ==> r matches Ok(call)
            && call@ == (ForeignCallView {
                method: ForeignMethod::ExecuteTransaction,
                args: seq![
                    ForeignArgView::Int(call_info.instance_id as i32),
                    ForeignArgView::Int(call_info.method_id as i32),
                    ForeignArgView::Bytes(arguments@),
                    ForeignArgView::Long(context.view_handle),
                    ForeignArgView::Bytes(hash@),
                    ForeignArgView::Bytes(author@),
                ],
            }),
        r matches Err(e) ==> e == RuntimeError::NotSupportedOperation.to_execution_error(),
{
    match &context.caller {
        Caller::Transaction { hash, author } => {
            let call = ForeignCall {
                method: ForeignMethod::ExecuteTransaction,
                args: vec![
                    ForeignArg::Int(call_info.instance_id as i32),
                    ForeignArg::Int(call_info.method_id as i32),
                    ForeignArg::Bytes(clone_bytes(arguments)),
                    ForeignArg::Long(context.view_handle),
                    ForeignArg::Bytes(clone_bytes(hash)),
                    ForeignArg::Bytes(clone_bytes(author)),
                ],
            };
            proof {
                assert(call@.args =~= seq![
                    ForeignArgView::Int(call_info.instance_id as i32),
                    ForeignArgView::Int(call_info.method_id as i32),
                    ForeignArgView::Bytes(arguments@),
                    ForeignArgView::Long(context.view_handle),
                    ForeignArgView::Bytes(hash@),
                    ForeignArgView::Bytes(author@),
                ]);
            }
            Ok(call)
        },
        Caller::Blockchain => Err(RuntimeError::NotSupportedOperation.to_execution_error()),
    }
}

/// Interprets the outcome of the execute call: a service's business
/// exception is translated to a service error with its code and message.
pub fn execute_response(outcome: CallOutcome) -> (r: Result<(), ExecutionError>)
    ensures
        match spec_handle_exception(outcome, spec_execute_dispatch_table()) {
            Ok(_) => r is Ok,
            Err(e) => r matches Err(re) && re@ == e,
        },
{
    let table = execute_dispatch_table();
    match handle_exception(outcome, &table) {
        Ok(_) => Ok(()),
        Err(e) => Err(e),
    }
}

/// The index of the first validator whose service key equals the given
/// key, if any validator's does.
pub open spec fn spec_validator_id(validator_keys: Seq<Seq<u8>>, key: Seq<u8>) -> Option<int>
    decreases validator_keys.len(),
{
    if validator_keys.len() == 0 {
        None
    } else if validator_keys[0] == key {
        Some(0)
    } else {
        match spec_validator_id(validator_keys.drop_first(), key) {
            Some(i) => Some(i + 1),
            None => None,
        }
    }
}

/// What the first-match index means: the key stands at that index and at
/// no earlier one; `None` means it stands nowhere.
pub proof fn lemma_validator_id_meaning(validator_keys: Seq<Seq<u8>>, key: Seq<u8>)
    ensures
        match spec_validator_id(validator_keys, key) {
            Some(i) => 0 <= i < validator_keys.len() && validator_keys[i] == key
                && forall|j: int| 0 <= j < i ==> validator_keys[j] != key,
            None => forall|j: int| 0 <= j < validator_keys.len() ==> validator_keys[j] != key,
        },
    decreases validator_keys.len(),
{
    if validator_keys.len() > 0 {
        let rest = validator_keys.drop_first();
        lemma_validator_id_meaning(rest, key);
        if validator_keys[0] != key {
            match spec_validator_id(rest, key) {
                Some(i) => {
                    assert(spec_validator_id(validator_keys, key) == Some(i + 1));
                    assert(validator_keys[i + 1] == rest[i]);
                    assert forall|j: int| 0 <= j < i + 1 implies validator_keys[j] != key by {
                        if j > 0 {
                            assert(rest[j - 1] == validator_keys[j]);
                        }
                    }
                },
                None => {
                    assert forall|j: int| 0 <= j < validator_keys.len() implies validator_keys[j] != key by {
                        if j > 0 {
                            assert(rest[j - 1] == validator_keys[j]);
                        }
                    }
                },
            }
        }
    }
}

/// If the current node is a validator, returns its position in the
/// current validator set; for other nodes returns `None`. The caller
/// reads the validator set out of the consensus configuration in the
/// snapshot and hands over the validators' service keys, in order.
pub fn validator_id(validator_keys: &Vec<Vec<u8>>, pub_key: &Vec<u8>) -> (r: Option<usize>)
    ensures
        match r {
            Some(i) => spec_validator_id(validator_keys.deep_view(), pub_key@) == Some(i as int),
            None => spec_validator_id(validator_keys.deep_view(), pub_key@) is None,
        },
{
    let ghost keys = validator_keys.deep_view();
    proof {
        lemma_validator_id_meaning(keys, pub_key@);
    }
    let n = validator_keys.len();
    for i in 0..n
        invariant
            n == validator_keys@.len(),
            keys == validator_keys.deep_view(),
            forall|j: int| 0 <= j < i ==> keys[j] != pub_key@,
            match spec_validator_id(keys, pub_key@) {
                Some(k) => 0 <= k < keys.len() && keys[k] == pub_key@
                    && forall|j: int| 0 <= j < k ==> keys[j] != pub_key@,
                None => forall|j: int| 0 <= j < keys.len() ==> keys[j] != pub_key@,
            },
    {
        if bytes_equal(&validator_keys[i], pub_key) {
            proof {
                assert(keys[i as int] == pub_key@);
            }
            return Some(i);
        }
        proof {
            assert(keys[i as int] == validator_keys@[i as int]@);
        }
    }
    None
}

/// The validator position collapsed to a plain integer: the first-match
/// index, or `default` when the key is not a validator's.
pub open spec fn spec_validator_ordinal(validator_keys: Seq<Seq<u8>>, key: Seq<u8>, default: i32) -> i32 {
    match spec_validator_id(validator_keys, key) {
        Some(i) => i as i32,
        None => default,
    }
}

/// Like `validator_id`, but collapsed to the plain integer the foreign
/// side expects: the validator's position, or `default` when the node is
/// not a validator. Positions beyond the integer's range cannot arise:
/// a validator set is bounded by the handed-over vector's length.
pub fn validator_id_or(validator_keys: &Vec<Vec<u8>>, pub_key: &Vec<u8>, default: i32) -> (r: i32)
    requires
        validator_keys@.len() <= i32::MAX,
    ensures
        r == spec_validator_ordinal(validator_keys.deep_view(), pub_key@, default),
{
    proof {
        lemma_validator_id_meaning(validator_keys.deep_view(), pub_key@);
    }
    match validator_id(validator_keys, pub_key) {
        Some(i) => i as i32,
        None => default,
    }
}

/// Builds the foreign call for the pre-commit hook. The hook may write,
/// so the view must be mutable.
pub fn before_commit_request(registry: &HandleRegistry, view_handle: i64) -> (call: ForeignCall)
    requires
        registry@.dom().contains(view_handle),
        registry@[view_handle] == ViewKind::Mutable,
    ensures
        call@ == (ForeignCallView {
            method: ForeignMethod::BeforeCommit,
            args: seq![ForeignArgView::Long(view_handle)],
        }),
{
    let call = ForeignCall {
        method: ForeignMethod::BeforeCommit,
        args: vec![ForeignArg::Long(view_handle)],
    };
    proof {
        assert(call@.args =~= seq![ForeignArgView::Long(view_handle)]);
    }
    call
}

/// Builds the foreign call for the post-commit hook: a read-only view of
/// the committed state, this node's validator position (or `default`,
/// conventionally `-1`, when the node is not a validator), and the chain
/// height, both as plain integers.
pub fn after_commit_request(
    registry: &HandleRegistry,
    view_handle: i64,
    validator_keys: &Vec<Vec<u8>>,
    service_key: &Vec<u8>,
    height: u64,
) -> (call: ForeignCall)
    requires
        registry@.dom().contains(view_handle),
        registry@[view_handle] == ViewKind::ReadOnly,
        validator_keys@.len() <= i32::MAX,
        height <= i64::MAX,
    ensures
        call@ == (ForeignCallView {
            method: ForeignMethod::AfterCommit,
            args: seq![
                ForeignArgView::Long(view_handle),
                ForeignArgView::Int(spec_validator_ordinal(validator_keys.deep_view(), service_key@, -1i32)),
                ForeignArgView::Long(height as i64),
            ],
        }),
{
    proof {
        lemma_validator_id_meaning(validator_keys.deep_view(), service_key@);
    }
    let ordinal = validator_id_or(validator_keys, service_key, -1);
    let call = ForeignCall {
        method: ForeignMethod::AfterCommit,
        args: vec![
            ForeignArg::Long(view_handle),
            ForeignArg::Int(ordinal),
            ForeignArg::Long(height as i64),
        ],
    };
    proof {
        assert(call@.args =~= seq![
            ForeignArgView::Long(view_handle),
            ForeignArgView::Int(ordinal),
            ForeignArgView::Long(height as i64),
        ]);
    }
    call
}

/// Builds the foreign call that collects state hashes: one read-only
/// view handle. The returned buffer is decoded by the state hash codec.
pub fn state_hashes_request(registry: &HandleRegistry, view_handle: i64) -> (call: ForeignCall)
    requires
        registry@.dom().contains(view_handle),
        registry@[view_handle] == ViewKind::ReadOnly,
    ensures
        call@ == (ForeignCallView {
            method: ForeignMethod::StateHashes,
            args: seq![ForeignArgView::Long(view_handle)],
        }),
{
    let call = ForeignCall {
        method: ForeignMethod::StateHashes,
        args: vec![ForeignArg::Long(view_handle)],
    };
    proof {
        assert(call@.args =~= seq![ForeignArgView::Long(view_handle)]);
    }
    call
}

/// The instance ids of the "instance added" events in a change set, in
/// order, as the foreign side takes them.
pub open spec fn spec_added_instance_ids(changes: Seq<ApiChange>) -> Seq<i32>
    decreases changes.len(),
{
    if changes.len() == 0 {
        Seq::empty()
    } else {
        spec_added_instance_ids(changes.drop_last()) + match changes.last() {
            ApiChange::InstanceAdded(id) => seq![id as i32],
            ApiChange::InstanceRemoved(_) => Seq::empty(),
        }
    }
}

/// Filters a change set down to the added instances' ids.
pub fn added_instance_ids(changes: &Vec<ApiChange>) -> (ids: Vec<i32>)
    ensures
        ids@ == spec_added_instance_ids(changes@),
{
    let mut ids: Vec<i32> = Vec::new();
    let n = changes.len();
    for i in 0..n
        invariant
            n == changes@.len(),
            ids@ == spec_added_instance_ids(changes@.take(i as int)),
    {
        match changes[i] {
            ApiChange::InstanceAdded(id) => ids.push(id as i32),
            ApiChange::InstanceRemoved(_) => {},
        }
        proof {
            assert(changes@.take(i + 1).drop_last() =~= changes@.take(i as int));
            assert(changes@.take(i + 1).last() == changes@[i as int]);
        }
    }
    proof {
        assert(changes@.take(n as int) =~= changes@);
    }
    ids
}

/// Builds the foreign call that connects the APIs of newly added
/// instances, or nothing when the change set adds none: then the whole
/// notification is a no-op and nothing crosses the boundary. The node
/// context handle is built per call and not reused.
pub fn notify_api_changes_request(changes: &Vec<ApiChange>, node_handle: i64) -> (r: Option<ForeignCall>)
    ensures
        r is Some <==> spec_added_instance_ids(changes@).len() > 0,
        r matches Some(call) ==> call@ == (ForeignCallView {
            method: ForeignMethod::ConnectApis,
            args: seq![
                ForeignArgView::IntArray(spec_added_instance_ids(changes@)),
                ForeignArgView::Long(node_handle),
            ],
        }),
{
    let ids = added_instance_ids(changes);
    if ids.is_empty() {
        return None;
    }
    let ghost ids_view = ids@;
    let call = ForeignCall {
        method: ForeignMethod::ConnectApis,
        args: vec![ForeignArg::IntArray(ids), ForeignArg::Long(node_handle)],
    };
    proof {
        assert(call@.args =~= seq![
            ForeignArgView::IntArray(ids_view),
            ForeignArgView::Long(node_handle),
        ]);
    }
    Some(call)
}

/// Lets only a returned value pass; a foreign exception or a boundary
/// failure on a consensus-critical call is fatal, with its description.
pub fn fatal_on_failure(outcome: CallOutcome) -> (r: Result<ReturnValue, FatalError>)
    ensures
        match outcome {
            CallOutcome::Returned(v) => r matches Ok(rv) && rv == v,
            CallOutcome::Exception(exc) => r matches Err(f) && f.description@ == exc@.describe(),
            CallOutcome::Failure(err) => r matches Err(f) && f.description@ == err.description@,
        },
{
    match outcome {
        CallOutcome::Returned(v) => Ok(v),
        CallOutcome::Exception(exc) => Err(
            FatalError { description: exc.describe() },
        ),
        CallOutcome::Failure(err) => Err(FatalError { description: err.description }),
    }
}

/// Interprets the outcome of the state hashes call: only a returned
/// buffer that decodes to an aggregate of well-sized hashes passes, in
/// the dispatcher's structured form; everything else — an exception, a
/// boundary failure, a wrong return kind, a malformed buffer — is
/// fatal.
pub fn state_hashes_response(outcome: CallOutcome) -> (r: Result<crate::codec::StateHashAggregator, FatalError>)
    ensures
        match outcome {
            CallOutcome::Returned(ReturnValue::Bytes(b)) => {
                match crate::codec::spec_decode_state_hashes(b@) {
                    Some(v) => if crate::codec::spec_hashes_well_sized(v) {
                        r matches Ok(a) && a@ == crate::codec::spec_aggregate_of(v)
                    } else {
                        r is Err
                    },
                    None => r is Err,
                }
            },
            _ => r is Err,
        },
{
    match fatal_on_failure(outcome) {
        Ok(ReturnValue::Bytes(bytes)) => {
            match crate::codec::decode_state_hashes(&bytes) {
                Ok(decoded) => {
                    if crate::codec::hashes_well_sized(&decoded) {
                        Ok(decoded.into_aggregator())
                    } else {
                        Err(FatalError {
                            description: String::from_str("state hash of unexpected width"),
                        })
                    }
                },
                Err(_) => Err(FatalError {
                    description: String::from_str("malformed state hashes buffer"),
                }),
            }
        },
        Ok(_) => Err(FatalError {
            description: String::from_str("state hashes call returned no buffer"),
        }),
        Err(f) => Err(f),
    }
}

fn bytes_equal(a: &Vec<u8>, b: &Vec<u8>) -> (r: bool)
    ensures
        r == (a@ == b@),
{
    if a.len() != b.len() {
        proof {
            assert(a@ != b@);
        }
        return false;
    }
    let n = a.len();
    for i in 0..n
        invariant
            n == a@.len(),
            n == b@.len(),
            forall|j: int| 0 <= j < i ==> a@[j] == b@[j],
    {
        if a[i] != b[i] {
            return false;
        }
    }
    proof {
        assert(a@ =~= b@);
    }
    true
}

fn clone_bytes(v: &Vec<u8>) -> (r: Vec<u8>)
    ensures
        r@ == v@,
{
    let r = v.clone();
    proof {
        assert(r@ =~= v@);
    }
    r
}

fn clone_string(s: &String) -> (r: String)
    ensures
        r@ == s@,
{
    s.clone()
}

} // verus!
