use vstd::prelude::*;
use vstd::string::*;

verus! {

/// The library-path option handed to the JVM for a given library path.
pub fn get_libpath_option(libpath: &str) -> (r: String)
    ensures
        r@ == "-Djava.library.path="@ + libpath@,
{
    let mut r = String::from_str("-Djava.library.path=");
    r.append(libpath);
    r
}

/// The class-path option handed to the JVM for a given class path.
pub fn get_fakes_classpath_option(classpath: &str) -> (r: String)
    ensures
        r@ == "-Djava.class.path="@ + classpath@,
{
    let mut r = String::from_str("-Djava.class.path=");
    r.append(classpath);
    r
}

/// The class path used for testing with fake classes: the recorded class
/// path joined with the directory of the fake classes. The caller reads
/// the recorded class path from the build's classpath file.
pub fn get_fakes_classpath(class_path: &str, fakes_classes: &str) -> (r: String)
    ensures
        r@ == class_path@ + ":"@ + fakes_classes@,
{
    let mut r = String::from_str(class_path);
    r.append(":");
    r.append(fakes_classes);
    r
}

/// The build-profile directory the native library is found under.
pub fn target_path(debug: bool) -> (r: &'static str)
    ensures
        debug ==> r@ == "target/debug"@,
        !debug ==> r@ == "target/release"@,
{
    if debug {
        "target/debug"
    } else {
        "target/release"
    }
}

/// The directory the dynamically loaded native library is expected in,
/// under the project root, for the given build profile. The caller
/// resolves the returned path against the file system.
pub fn get_libpath(rust_project_root: &str, debug: bool) -> (r: String)
    ensures
        debug ==> r@ == rust_project_root@ + "/"@ + "target/debug"@,
        !debug ==> r@ == rust_project_root@ + "/"@ + "target/release"@,
{
    let mut r = String::from_str(rust_project_root);
    r.append("/");
    r.append(target_path(debug));
    r
}

/// Where the fake service artifact is found under the project root.
pub fn get_fake_service_artifact_path(project_root: &str) -> (r: String)
    ensures
        r@ == project_root@ + "/"@ + "fake-service/target/fake-service-artifact.jar"@,
{
    let mut r = String::from_str(project_root);
    r.append("/");
    r.append("fake-service/target/fake-service-artifact.jar");
    r
}

/// The JVM options a testing VM is created with: the library path option
/// always; the fakes class path option when testing with fakes; the
/// strict boundary checking option when debugging.
pub open spec fn spec_vm_init_options(libpath: Seq<char>, fakes_classpath: Option<Seq<char>>, debug: bool) -> Seq<Seq<char>> {
    seq!["-Djava.library.path="@ + libpath]
        + (match fakes_classpath {
            Some(cp) => seq!["-Djava.class.path="@ + cp],
            None => Seq::<Seq<char>>::empty(),
        })
        + (if debug {
            seq!["-Xcheck:jni"@]
        } else {
            Seq::<Seq<char>>::empty()
        })
}

/// Assembles the JVM options a testing VM is created with.
pub fn vm_init_options(libpath: &str, fakes_classpath: Option<&str>, debug: bool) -> (r: Vec<String>)
    ensures
        r.deep_view() == spec_vm_init_options(libpath@, match fakes_classpath {
            Some(cp) => Some(cp@),
            None => None,
        }, debug),
{
    let mut r: Vec<String> = Vec::new();
    r.push(get_libpath_option(libpath));
    match fakes_classpath {
        Some(cp) => {
            r.push(get_fakes_classpath_option(cp));
        },
        None => {},
    }
    if debug {
        r.push(String::from_str("-Xcheck:jni"));
    }
    proof {
        assert(r.deep_view() =~~= spec_vm_init_options(libpath@, match fakes_classpath {
            Some(cp) => Some(cp@),
            None => None,
        }, debug));
    }
    r
}


/// The decimal digits of a number, most significant first.
pub open spec fn spec_decimal_digits(n: nat) -> Seq<char>
    decreases n,
{
    if n < 10 {
        seq![spec_digit_char(n)]
    } else {
        spec_decimal_digits(n / 10).push(spec_digit_char(n % 10))
    }
}

/// The character of one decimal digit.
pub open spec fn spec_digit_char(d: nat) -> char {
    if d == 0 {
        '0'
    } else if d == 1 {
        '1'
    } else if d == 2 {
        '2'
    } else if d == 3 {
        '3'
    } else if d == 4 {
        '4'
    } else if d == 5 {
        '5'
    } else if d == 6 {
        '6'
    } else if d == 7 {
        '7'
    } else if d == 8 {
        '8'
    } else {
        '9'
    }
}

fn push_digit(d: u64, out: &mut String)
    requires
        d < 10,
    ensures
        final(out)@ == old(out)@ + seq![spec_digit_char(d as nat)],
{
    proof {
        reveal_strlit("0");
        reveal_strlit("1");
        reveal_strlit("2");
        reveal_strlit("3");
        reveal_strlit("4");
        reveal_strlit("5");
        reveal_strlit("6");
        reveal_strlit("7");
        reveal_strlit("8");
        reveal_strlit("9");
    }
    if d == 0 {
        out.append("0");
    } else if d == 1 {
        out.append("1");
    } else if d == 2 {
        out.append("2");
    } else if d == 3 {
        out.append("3");
    } else if d == 4 {
        out.append("4");
    } else if d == 5 {
        out.append("5");
    } else if d == 6 {
        out.append("6");
    } else if d == 7 {
        out.append("7");
    } else if d == 8 {
        out.append("8");
    } else {
        out.append("9");
    }
    proof {
        assert(out@ =~= old(out)@ + seq![spec_digit_char(d as nat)]);
    }
}

fn push_decimal(n: u64, out: &mut String)
    ensures
        final(out)@ == old(out)@ + spec_decimal_digits(n as nat),
    decreases n,
{
    if n >= 10 {
        push_decimal(n / 10, out);
    }
    push_digit(n % 10, out);
    proof {
        assert(out@ =~= old(out)@ + spec_decimal_digits(n as nat));
    }
}

/// The heap limit option a VM with a bounded heap is created with, for
/// a limit in mebibytes.
pub fn get_memory_limit_option(memory_limit_mib: u64) -> (r: String)
    ensures
        r@ == "-Xmx"@ + spec_decimal_digits(memory_limit_mib as nat) + "m"@,
{
    let mut r = String::from_str("-Xmx");
    push_decimal(memory_limit_mib, &mut r);
    r.append("m");
    r
}

} // verus!
