use java_bindings::config::validate_and_convert;
use java_bindings::config::check_not_forbidden;
use java_bindings::config::ForbiddenParameterError;

#[test]
fn not_forbidden_debug() {
    let validation_result = validate_and_convert("Xdebug");
    assert_eq!(validation_result, Ok("-Xdebug".to_string()));
}

#[test]
fn not_forbidden_user_parameter() {
    let validation_result = validate_and_convert("Duser.parameter=Djava.library.path");
    assert_eq!(
        validation_result,
        Ok("-Duser.parameter=Djava.library.path".to_string())
    );
}

#[test]
fn library_path_rejected() {
    let validation_result = validate_and_convert("Djava.library.path=.");
    assert_eq!(
        validation_result,
        Err(ForbiddenParameterError("Djava.library.path=.".to_string()))
    );
}

#[test]
fn class_path_rejected() {
    let validation_result = validate_and_convert("Djava.class.path=target");
    assert!(validation_result.is_err());
}

#[test]
fn log_config_rejected() {
    let validation_result = validate_and_convert("Dlog4j.configurationFile=logfile");
    assert!(validation_result.is_err());
}

#[test]
fn check_not_forbidden_passes_plain_parameters() {
    assert!(check_not_forbidden("Xmx1024m").is_ok());
    assert!(check_not_forbidden("Djava.io.tmpdir=/tmp").is_ok());
}

#[test]
fn forbidden_parameter_message_names_the_parameter() {
    let e = check_not_forbidden("Djava.class.path=x").unwrap_err();
    assert_eq!(
        e.message(),
        "Trying to specify JVM parameter [Djava.class.path=x] that is set by EJB internally. \
         Use EJB parameters instead."
    );
}
