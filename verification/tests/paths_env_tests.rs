use lapce_plugin::environment::EnvError;
use lapce_plugin::environment::VoltEnvironment;
use lapce_plugin::paths::is_safe_entry_path;

#[test]
fn entry_escaping_the_destination_is_rejected() {
    assert!(!is_safe_entry_path("../evil"));
    assert!(!is_safe_entry_path(".."));
    assert!(!is_safe_entry_path("a/../../b"));
    assert!(!is_safe_entry_path("a/.."));
    assert!(!is_safe_entry_path("a/../b"));
}

#[test]
fn absolute_and_drive_like_entries_are_rejected() {
    assert!(!is_safe_entry_path("/etc/passwd"));
    assert!(!is_safe_entry_path("C:evil"));
    assert!(!is_safe_entry_path("a\\b"));
    assert!(!is_safe_entry_path(""));
}

#[test]
fn ordinary_relative_entries_are_accepted() {
    assert!(is_safe_entry_path("a/b.txt"));
    assert!(is_safe_entry_path("bin/server"));
    assert!(is_safe_entry_path("dir/"));
    assert!(is_safe_entry_path("..name/still.fine"));
    assert!(is_safe_entry_path("a/..b/c"));
    assert!(is_safe_entry_path("./x"));
}

#[test]
fn environment_accessors_answer_from_the_model() {
    let env = VoltEnvironment::new(
        Some(String::from("file:///plugins/demo")),
        Some(String::from("linux")),
        Some(String::from("x86_64")),
        Some(String::from("glibc")),
    );
    assert_eq!(env.uri().unwrap(), "file:///plugins/demo");
    assert_eq!(env.operating_system().unwrap(), "linux");
    assert_eq!(env.architecture().unwrap(), "x86_64");
    assert_eq!(env.libc().unwrap(), "glibc");
}

#[test]
fn absent_environment_values_fail_as_not_present() {
    let env = VoltEnvironment::new(None, None, None, None);
    assert_eq!(env.uri(), Err(EnvError::NotPresent));
    assert_eq!(env.operating_system(), Err(EnvError::NotPresent));
    assert_eq!(env.architecture(), Err(EnvError::NotPresent));
    assert_eq!(env.libc(), Err(EnvError::NotPresent));
}
