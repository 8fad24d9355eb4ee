use java_bindings::vm::get_fake_service_artifact_path;
use java_bindings::vm::get_fakes_classpath;
use java_bindings::vm::get_fakes_classpath_option;
use java_bindings::vm::get_libpath;
use java_bindings::vm::get_libpath_option;
use java_bindings::vm::target_path;
use java_bindings::vm::vm_init_options;
use java_bindings::vm::get_memory_limit_option;

#[test]
fn options_carry_their_paths() {
    assert_eq!(get_libpath_option("/opt/lib"), "-Djava.library.path=/opt/lib");
    assert_eq!(get_fakes_classpath_option("a.jar:b.jar"), "-Djava.class.path=a.jar:b.jar");
    assert_eq!(get_fakes_classpath("a.jar", "/classes/"), "a.jar:/classes/");
}

#[test]
fn libpath_follows_the_build_profile() {
    assert_eq!(target_path(true), "target/debug");
    assert_eq!(target_path(false), "target/release");
    assert_eq!(get_libpath("/proj/rust", true), "/proj/rust/target/debug");
    assert_eq!(get_libpath("/proj/rust", false), "/proj/rust/target/release");
}

#[test]
fn fake_service_artifact_lives_under_the_project_root() {
    assert_eq!(
        get_fake_service_artifact_path("/proj"),
        "/proj/fake-service/target/fake-service-artifact.jar"
    );
}

#[test]
fn vm_options_depend_on_debug_and_fakes() {
    assert_eq!(
        vm_init_options("/lib", None, false),
        vec!["-Djava.library.path=/lib".to_string()]
    );
    assert_eq!(
        vm_init_options("/lib", Some("cp"), true),
        vec![
            "-Djava.library.path=/lib".to_string(),
            "-Djava.class.path=cp".to_string(),
            "-Xcheck:jni".to_string(),
        ]
    );
    assert_eq!(
        vm_init_options("/lib", None, true),
        vec!["-Djava.library.path=/lib".to_string(), "-Xcheck:jni".to_string()]
    );
}

#[test]
fn memory_limit_option_is_decimal() {
    assert_eq!(get_memory_limit_option(0), "-Xmx0m");
    assert_eq!(get_memory_limit_option(256), "-Xmx256m");
    assert_eq!(get_memory_limit_option(1024), "-Xmx1024m");
    assert_eq!(get_memory_limit_option(10), "-Xmx10m");
    assert_eq!(get_memory_limit_option(u64::MAX), "-Xmx18446744073709551615m");
}
