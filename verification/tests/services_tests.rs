use java_bindings::services::load_services_definition;
use java_bindings::services::is_service_enabled_in_config_file;
use java_bindings::services::service_enabled_in_config;

#[test]
fn no_config() {
    let res = load_services_definition("nonexistent");
    assert!(res.is_err());
}

#[test]
fn missed_enabled_services_section() {
    let cfg =
        "[user_services]\nservice_name1 = '/path/to/artifact1'\nservice_name2 = '/path/to/artifact2'";
    let res = load_services_definition(cfg);
    assert!(res.is_ok());
}

#[test]
fn missed_user_services_section_rejected() {
    let cfg = "enabled_services = [\"configuration\", \"btc-anchoring\", \"time\"]";
    let res = load_services_definition(cfg);
    assert!(res.is_err());
}

#[test]
fn all_services() {
    let cfg = "enabled_services = [\"configuration\", \"btc-anchoring\", \"time\"]\n\
               [user_services]\nservice_name1 = '/path/to/artifact1'\nservice_name2 = '/path/to/artifact2'";
    let res = load_services_definition(cfg);
    assert!(res.is_ok());

    let services = res.unwrap();
    let services_to_enable = services.enabled_services.unwrap();
    let user_services = services.user_services;

    assert_eq!(services_to_enable.len(), 3);
    assert!(services_to_enable.iter().any(|s| s == "configuration"));
    assert!(services_to_enable.iter().any(|s| s == "btc-anchoring"));
    assert!(services_to_enable.iter().any(|s| s == "time"));

    assert_eq!(user_services.len(), 2);
    assert_eq!(
        user_services
            .iter()
            .find(|(name, _)| name == "service_name1")
            .map(|(_, artifact)| artifact.as_str()),
        Some("/path/to/artifact1")
    );
    assert_eq!(
        user_services
            .iter()
            .find(|(name, _)| name == "service_name2")
            .map(|(_, artifact)| artifact.as_str()),
        Some("/path/to/artifact2")
    );
}

#[test]
fn empty_list() {
    let cfg = "enabled_services = []\n[user_services]";
    let res = load_services_definition(cfg);
    assert!(res.is_ok());
    let services = res.unwrap();
    assert_eq!(services.enabled_services.unwrap().len(), 0);
    assert_eq!(services.user_services.len(), 0);
}

#[test]
fn check_service_enabled() {
    let cfg = "enabled_services = [\"time\"]\n[user_services]\nservice_name1 = '/path/to/artifact1.jar'";

    assert!(!is_service_enabled_in_config_file("configuration", cfg));
    assert!(!is_service_enabled_in_config_file("btc-anchoring", cfg));
    assert!(is_service_enabled_in_config_file("time", cfg));
}

#[test]
fn enabled_services_are_deduplicated() {
    let cfg = "enabled_services = [\"time\", \"time\", \"configuration\"]\n[user_services]";
    let services = load_services_definition(cfg).unwrap();
    let enabled = services.enabled_services.unwrap();
    assert_eq!(enabled, vec!["time".to_string(), "configuration".to_string()]);
}

#[test]
fn non_string_enabled_service_rejected() {
    let cfg = "enabled_services = [\"time\", 3]\n[user_services]";
    assert!(load_services_definition(cfg).is_err());
}

#[test]
fn non_string_user_service_rejected() {
    let cfg = "[user_services]\nservice_name1 = 17";
    assert!(load_services_definition(cfg).is_err());
}

#[test]
fn non_table_user_services_rejected() {
    let cfg = "user_services = [\"a\"]";
    assert!(load_services_definition(cfg).is_err());
}

#[test]
fn service_enabled_in_malformed_config_is_nothing() {
    assert_eq!(service_enabled_in_config("time", "= = ="), None);
    assert_eq!(service_enabled_in_config("time", "enabled_services = [\"time\"]\n[user_services]"), Some(true));
    assert_eq!(service_enabled_in_config("other", "enabled_services = [\"time\"]\n[user_services]"), Some(false));
    assert_eq!(service_enabled_in_config("time", "[user_services]"), Some(false));
}
