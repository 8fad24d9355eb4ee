use vstd::prelude::*;
use vstd::string::*;

verus! {

/// JVM-specific configuration parameters, provided by the user when a
/// node is set up. They can be unique for every node.
pub struct JvmConfig {
    /// Additional JVM parameters prepended to the rest. Parameters must
    /// not have a dash at the beginning; some are forbidden entirely.
    pub args_prepend: Vec<String>,
    /// Additional JVM parameters appended to the rest.
    pub args_append: Vec<String>,
    /// Socket address for JVM debugging, when debugging is wanted.
    pub jvm_debug_socket: Option<String>,
}

/// Runtime-specific configuration parameters, provided by the user when
/// a node is set up.
pub struct RuntimeConfig {
    /// Path to the directory containing service artifacts.
    pub artifacts_path: String,
    /// Path to the logging configuration file.
    pub log_config_path: String,
    /// A port of the HTTP server for hosted services; must be distinct
    /// from the ports the dispatcher uses.
    pub port: i32,
    /// Overridden path to the native library, if specified.
    pub override_system_lib_path: Option<String>,
}

/// Internal configuration, not visible to the user: the system paths the
/// runtime itself is loaded with.
pub struct InternalConfig {
    /// System class path.
    pub system_class_path: String,
    /// System library path.
    pub system_lib_path: String,
}

/// Error returned while validating user-specified additional JVM
/// parameters: the parameter is one that is set internally and may not
/// be overridden by the user.
#[derive(Debug)]
pub struct ForbiddenParameterError(pub String);

impl PartialEq for ForbiddenParameterError {
    fn eq(&self, other: &ForbiddenParameterError) -> (r: bool) {
        self.0 == other.0
    }
}

impl vstd::std_specs::cmp::PartialEqSpecImpl for ForbiddenParameterError {
    open spec fn obeys_eq_spec() -> bool {
        true
    }

    open spec fn eq_spec(&self, other: &ForbiddenParameterError) -> bool {
        self.0@ == other.0@
    }
}

impl ForbiddenParameterError {
    /// The diagnostic text of this error, naming the rejected parameter.
    pub fn message(&self) -> (m: String)
        ensures
            m@ == "Trying to specify JVM parameter ["@ + self.0@
                + "] that is set by EJB internally. Use EJB parameters instead."@,
    {
        let mut m = String::from_str("Trying to specify JVM parameter [");
        m.append(self.0.as_str());
        m.append("] that is set by EJB internally. Use EJB parameters instead.");
        m
    }
}

/// Whether a string begins with the given prefix.
pub open spec fn spec_starts_with(s: Seq<char>, prefix: Seq<char>) -> bool {
    prefix.len() <= s.len() && s.subrange(0, prefix.len() as int) == prefix
}

fn str_starts_with(s: &str, prefix: &str) -> (r: bool)
    ensures
        r == spec_starts_with(s@, prefix@),
{
    let prefix_len = prefix.unicode_len();
    let s_len = s.unicode_len();
    if prefix_len > s_len {
        proof {
            assert(!spec_starts_with(s@, prefix@));
        }
        return false;
    }
    for i in 0..prefix_len
        invariant
            prefix_len == prefix@.len(),
            s_len == s@.len(),
            prefix_len <= s_len,
            forall|j: int| 0 <= j < i ==> s@[j] == prefix@[j],
    {
        if s.get_char(i) != prefix.get_char(i) {
            proof {
                assert(s@.subrange(0, prefix@.len() as int)[i as int] != prefix@[i as int]);
            }
            return false;
        }
    }
    proof {
        assert(s@.subrange(0, prefix@.len() as int) =~= prefix@);
    }
    true
}

/// Whether a user parameter names one of the settings the runtime fixes
/// internally: the class path, the library path, or the logging
/// configuration file.
pub open spec fn spec_is_forbidden(parameter: Seq<char>) -> bool {
    ||| spec_starts_with(parameter, "Djava.class.path"@)
    ||| spec_starts_with(parameter, "Djava.library.path"@)
    ||| spec_starts_with(parameter, "Dlog4j.configurationFile"@)
}

/// Rejects a user parameter that would override an internally fixed
/// setting.
pub fn check_not_forbidden(user_parameter: &str) -> (r: Result<(), ForbiddenParameterError>)
    ensures
        r is Ok <==> !spec_is_forbidden(user_parameter@),
        r matches Err(e) ==> e.0@ == user_parameter@,
{
    if str_starts_with(user_parameter, "Djava.class.path")
        || str_starts_with(user_parameter, "Djava.library.path")
        || str_starts_with(user_parameter, "Dlog4j.configurationFile")
    {
        Err(ForbiddenParameterError(user_parameter.to_owned()))
    } else {
        Ok(())
    }
}

/// Checks that a user parameter is not forbidden and adds the dash at
/// the beginning that the JVM expects.
pub fn validate_and_convert(user_parameter: &str) -> (r: Result<String, ForbiddenParameterError>)
    ensures
        r is Ok <==> !spec_is_forbidden(user_parameter@),
        r matches Ok(converted) ==> converted@ == "-"@ + user_parameter@,
        r matches Err(e) ==> e.0@ == user_parameter@,
{
    check_not_forbidden(user_parameter)?;
    let mut converted = String::from_str("-");
    converted.append(user_parameter);
    Ok(converted)
}

} // verus!
