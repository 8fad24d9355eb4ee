use java_bindings::ArtifactId;
use java_bindings::JAVA_RUNTIME_ID;
use java_bindings::parse_artifact;
use java_bindings::calls::ForeignArg;
use java_bindings::calls::ForeignMethod;
use java_bindings::calls::JniError;
use java_bindings::calls::JniErrorKind;
use java_bindings::calls::ReturnValue;
use java_bindings::errors::ErrorKind;
use java_bindings::exception::CallOutcome;
use java_bindings::exception::DispatchTable;
use java_bindings::exception::ExceptionClass;
use java_bindings::exception::ExceptionHandler;
use java_bindings::exception::PendingException;
use java_bindings::exception::translate;
use java_bindings::handles::HandleRegistry;
use java_bindings::handles::ViewKind;
use java_bindings::runtime::added_instance_ids;
use java_bindings::runtime::after_commit_request;
use java_bindings::runtime::deploy_artifact_request;
use java_bindings::runtime::deploy_artifact_response;
use java_bindings::runtime::execute_request;
use java_bindings::runtime::execute_response;
use java_bindings::runtime::fatal_on_failure;
use java_bindings::runtime::is_artifact_deployed_request;
use java_bindings::runtime::is_artifact_deployed_response;
use java_bindings::runtime::notify_api_changes_request;
use java_bindings::runtime::start_service_request;
use java_bindings::runtime::stop_service_request;
use java_bindings::runtime::validator_id;
use java_bindings::runtime::validator_id_or;
use java_bindings::runtime::ApiChange;
use java_bindings::runtime::CallInfo;
use java_bindings::runtime::Caller;
use java_bindings::runtime::ExecutionContext;
use java_bindings::runtime::InstanceDescriptor;
use java_bindings::runtime::InstanceSpec;

fn java_artifact(name: &str) -> ArtifactId {
    ArtifactId { runtime_id: JAVA_RUNTIME_ID, name: name.to_string() }
}

fn foreign_artifact(name: &str) -> ArtifactId {
    ArtifactId { runtime_id: 0, name: name.to_string() }
}

#[test]
fn parse_artifact_accepts_own_runtime() {
    let id = parse_artifact(&java_artifact("com.foo:1.0")).unwrap();
    assert_eq!(id.as_str(), "com.foo:1.0");
}

#[test]
fn parse_artifact_rejects_foreign_runtime() {
    let e = parse_artifact(&foreign_artifact("com.foo:1.0")).unwrap_err();
    assert!(matches!(e.kind, ErrorKind::Runtime { code: 0 }));
    assert!(e.description.is_none());
}

#[test]
fn lifecycle_requests_reject_foreign_artifact_locally() {
    let spec_bytes: Vec<u8> = vec![];
    assert!(deploy_artifact_request(&foreign_artifact("a"), &spec_bytes).is_err());
    assert!(is_artifact_deployed_request(&foreign_artifact("a")).is_none());
    let spec = InstanceSpec { id: 3, name: "svc".to_string(), artifact: foreign_artifact("a") };
    assert!(start_service_request(&spec).is_err());
}

#[test]
fn deploy_artifact_builds_the_expected_call() {
    let artifact = java_artifact("com.foo:1.0");
    let spec_bytes: Vec<u8> = vec![];
    let call = deploy_artifact_request(&artifact, &spec_bytes).unwrap();
    assert!(matches!(call.method, ForeignMethod::DeployArtifact));
    assert_eq!(call.args.len(), 2);
    assert!(matches!(&call.args[0], ForeignArg::Str(s) if s == "com.foo:1.0"));
    assert!(matches!(&call.args[1], ForeignArg::Bytes(b) if b.is_empty()));
    assert!(deploy_artifact_response(CallOutcome::Returned(ReturnValue::Void)).is_ok());

    let query = is_artifact_deployed_request(&artifact).unwrap();
    assert!(matches!(query.method, ForeignMethod::IsArtifactDeployed));
    assert!(is_artifact_deployed_response(&CallOutcome::Returned(ReturnValue::Bool(true))));
}

#[test]
fn deploy_loading_failure_is_a_runtime_error() {
    let exc = PendingException {
        instance_of: vec![ExceptionClass::ServiceLoadingException],
        message: Some("no such artifact".to_string()),
        string_form: "ServiceLoadingException: no such artifact".to_string(),
        error_code: 0,
    };
    let e = deploy_artifact_response(CallOutcome::Exception(exc)).unwrap_err();
    assert!(matches!(e.kind, ErrorKind::Runtime { code: 1 }));
    assert_eq!(
        e.description.as_deref(),
        Some("ServiceLoadingException(message: no such artifact)")
    );
}

#[test]
fn is_artifact_deployed_degrades_every_failure_to_false() {
    let exc = PendingException {
        instance_of: vec![],
        message: None,
        string_form: "boom".to_string(),
        error_code: 0,
    };
    assert!(!is_artifact_deployed_response(&CallOutcome::Exception(exc)));
    assert!(!is_artifact_deployed_response(&CallOutcome::Failure(JniError {
        kind: JniErrorKind::Other,
        description: "attach failed".to_string(),
    })));
    assert!(!is_artifact_deployed_response(&CallOutcome::Returned(ReturnValue::Bool(false))));
    assert!(!is_artifact_deployed_response(&CallOutcome::Returned(ReturnValue::Void)));
}

#[test]
fn execute_without_transaction_identity_is_unsupported() {
    let mut registry = HandleRegistry::new();
    let handle = registry.to_handle(ViewKind::Mutable);
    let context = ExecutionContext { view_handle: handle, caller: Caller::Blockchain };
    let call_info = CallInfo { instance_id: 7, method_id: 9 };
    let arguments: Vec<u8> = vec![1, 2, 3];
    let e = execute_request(&registry, &context, &call_info, &arguments).unwrap_err();
    assert!(matches!(e.kind, ErrorKind::Runtime { code: 3 }));

    let other_info = CallInfo { instance_id: 1000, method_id: 0 };
    let e2 = execute_request(&registry, &context, &other_info, &arguments).unwrap_err();
    assert!(matches!(e2.kind, ErrorKind::Runtime { code: 3 }));
}

#[test]
fn execute_builds_the_expected_call() {
    let mut registry = HandleRegistry::new();
    let handle = registry.to_handle(ViewKind::Mutable);
    let context = ExecutionContext {
        view_handle: handle,
        caller: Caller::Transaction { hash: vec![0xaa; 32], author: vec![0xbb; 32] },
    };
    let call_info = CallInfo { instance_id: 7, method_id: 9 };
    let arguments: Vec<u8> = vec![1, 2, 3];
    let call = execute_request(&registry, &context, &call_info, &arguments).unwrap();
    assert!(matches!(call.method, ForeignMethod::ExecuteTransaction));
    assert_eq!(call.args.len(), 6);
    assert!(matches!(&call.args[0], ForeignArg::Int(7)));
    assert!(matches!(&call.args[1], ForeignArg::Int(9)));
    assert!(matches!(&call.args[2], ForeignArg::Bytes(b) if b == &vec![1u8, 2, 3]));
    assert!(matches!(&call.args[3], ForeignArg::Long(h) if *h == handle));
    assert!(matches!(&call.args[4], ForeignArg::Bytes(b) if b == &vec![0xaa_u8; 32]));
    assert!(matches!(&call.args[5], ForeignArg::Bytes(b) if b == &vec![0xbb_u8; 32]));
}

#[test]
fn execute_business_exception_keeps_code_and_message() {
    let exc = PendingException {
        instance_of: vec![ExceptionClass::TransactionExecutionException],
        message: Some("bad input".to_string()),
        string_form: "TransactionExecutionException: bad input".to_string(),
        error_code: 5,
    };
    let e = execute_response(CallOutcome::Exception(exc)).unwrap_err();
    assert!(matches!(e.kind, ErrorKind::Service { code: 5 }));
    assert!(e.description.as_deref().unwrap().starts_with("bad input"));
    assert_eq!(e.description.as_deref(), Some("bad input"));
}

#[test]
fn execute_business_exception_without_message_has_empty_description() {
    let exc = PendingException {
        instance_of: vec![ExceptionClass::TransactionExecutionException],
        message: None,
        string_form: "TransactionExecutionException".to_string(),
        error_code: 2,
    };
    let e = execute_response(CallOutcome::Exception(exc)).unwrap_err();
    assert!(matches!(e.kind, ErrorKind::Service { code: 2 }));
    assert_eq!(e.description.as_deref(), Some(""));
}

#[test]
fn unregistered_exception_falls_back_to_default() {
    let table: DispatchTable =
        vec![(ExceptionClass::TransactionExecutionException, ExceptionHandler::TxExecution)];
    let exc = PendingException {
        instance_of: vec![ExceptionClass::ServiceLoadingException],
        message: None,
        string_form: "IllegalStateException: oops".to_string(),
        error_code: 0,
    };
    let e = translate(&table, &exc);
    assert!(matches!(e.kind, ErrorKind::Runtime { code: 1 }));
    assert_eq!(e.description.as_deref(), Some("IllegalStateException: oops"));
}

#[test]
fn registered_exception_uses_first_matching_handler() {
    let table: DispatchTable = vec![
        (ExceptionClass::ServiceLoadingException, ExceptionHandler::ServiceLoading),
        (ExceptionClass::ServiceLoadingException, ExceptionHandler::TxExecution),
    ];
    let exc = PendingException {
        instance_of: vec![ExceptionClass::ServiceLoadingException],
        message: Some("m".to_string()),
        string_form: "x".to_string(),
        error_code: 9,
    };
    let e = translate(&table, &exc);
    assert!(matches!(e.kind, ErrorKind::Runtime { code: 1 }));
    assert_eq!(e.description.as_deref(), Some("ServiceLoadingException(message: m)"));
}

#[test]
fn boundary_failure_converts_to_jni_error_codes() {
    let e = execute_response(CallOutcome::Failure(JniError {
        kind: JniErrorKind::Other,
        description: "method not resolved".to_string(),
    }))
    .unwrap_err();
    assert!(matches!(e.kind, ErrorKind::Runtime { code: 2 }));
    assert_eq!(e.description.as_deref(), Some("method not resolved"));

    let e2 = execute_response(CallOutcome::Failure(JniError {
        kind: JniErrorKind::JavaException,
        description: "pending exception".to_string(),
    }))
    .unwrap_err();
    assert!(matches!(e2.kind, ErrorKind::Runtime { code: 1 }));
}

#[test]
fn stop_service_routes_the_instance_id() {
    let descriptor = InstanceDescriptor { id: 12, name: "svc".to_string() };
    let call = stop_service_request(&descriptor);
    assert!(matches!(call.method, ForeignMethod::StopService));
    assert!(matches!(&call.args[0], ForeignArg::Int(12)));
}

#[test]
fn validator_scan_finds_first_match() {
    let keys: Vec<Vec<u8>> = vec![vec![1; 32], vec![2; 32], vec![3; 32], vec![2; 32]];
    assert_eq!(validator_id(&keys, &vec![2; 32]), Some(1));
    assert_eq!(validator_id(&keys, &vec![9; 32]), None);
    assert_eq!(validator_id_or(&keys, &vec![3; 32], -1), 2);
    assert_eq!(validator_id_or(&keys, &vec![9; 32], -1), -1);
}

#[test]
fn after_commit_passes_ordinal_and_height() {
    let mut registry = HandleRegistry::new();
    let handle = registry.to_handle(ViewKind::ReadOnly);
    let keys: Vec<Vec<u8>> = vec![vec![1; 32], vec![2; 32]];
    let call = after_commit_request(&registry, handle, &keys, &vec![2; 32], 41);
    assert!(matches!(call.method, ForeignMethod::AfterCommit));
    assert!(matches!(&call.args[0], ForeignArg::Long(h) if *h == handle));
    assert!(matches!(&call.args[1], ForeignArg::Int(1)));
    assert!(matches!(&call.args[2], ForeignArg::Long(41)));
}

#[test]
fn api_changes_filter_to_added_instances() {
    let changes = vec![
        ApiChange::InstanceAdded(4),
        ApiChange::InstanceRemoved(5),
        ApiChange::InstanceAdded(6),
    ];
    assert_eq!(added_instance_ids(&changes), vec![4, 6]);
    let call = notify_api_changes_request(&changes, 77).unwrap();
    assert!(matches!(call.method, ForeignMethod::ConnectApis));
    assert!(matches!(&call.args[0], ForeignArg::IntArray(ids) if ids == &vec![4, 6]));
    assert!(matches!(&call.args[1], ForeignArg::Long(77)));

    let removals_only = vec![ApiChange::InstanceRemoved(5)];
    assert!(notify_api_changes_request(&removals_only, 77).is_none());
}

#[test]
fn fatal_on_failure_stops_on_exceptions() {
    assert!(fatal_on_failure(CallOutcome::Returned(ReturnValue::Void)).is_ok());
    let exc = PendingException {
        instance_of: vec![],
        message: Some("broken".to_string()),
        string_form: "x".to_string(),
        error_code: 0,
    };
    let f = fatal_on_failure(CallOutcome::Exception(exc)).unwrap_err();
    assert_eq!(f.description, "broken");
}

#[test]
fn handle_registry_tracks_view_kinds() {
    let mut registry = HandleRegistry::new();
    let fork = registry.to_handle(ViewKind::Mutable);
    let snapshot = registry.to_handle(ViewKind::ReadOnly);
    assert_ne!(fork, snapshot);
    assert_eq!(registry.kind_of(fork), Some(ViewKind::Mutable));
    assert_eq!(registry.kind_of(snapshot), Some(ViewKind::ReadOnly));
    registry.remove(fork);
    assert_eq!(registry.kind_of(fork), None);
    assert_eq!(registry.kind_of(snapshot), Some(ViewKind::ReadOnly));
    assert_eq!(registry.kind_of(-1), None);
    let third = registry.to_handle(ViewKind::Mutable);
    assert_ne!(third, fork);
}
