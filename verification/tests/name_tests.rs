use scaffold::name::{is_valid_package_name, resolve_project_name, NameError};

#[test]
fn accepts_simple_name() {
    assert!(is_valid_package_name(b"my-app"));
}

#[test]
fn accepts_allowed_variants() {
    assert!(is_valid_package_name(b"a"));
    assert!(is_valid_package_name(b"abc_123"));
    assert!(is_valid_package_name(b"a-b_c9"));
    assert!(is_valid_package_name(b"_abc"));
    assert!(is_valid_package_name(b"abc_"));
    assert!(is_valid_package_name(b"9lives"));
}

#[test]
fn rejects_uppercase() {
    assert!(!is_valid_package_name(b"My-App"));
    assert!(!is_valid_package_name(b"ABC"));
}

#[test]
fn rejects_space() {
    assert!(!is_valid_package_name(b"my app"));
}

#[test]
fn rejects_other_symbols() {
    assert!(!is_valid_package_name(b"my.app"));
    assert!(!is_valid_package_name(b"my!app"));
    assert!(!is_valid_package_name(b"my/app"));
}

#[test]
fn rejects_hyphen_at_either_end() {
    assert!(!is_valid_package_name(b"-abc"));
    assert!(!is_valid_package_name(b"abc-"));
    assert!(is_valid_package_name(b"a-b"));
}

#[test]
fn rejects_empty_name() {
    assert!(!is_valid_package_name(b""));
}

#[test]
fn empty_input_takes_the_empty_path() {
    assert_eq!(resolve_project_name(b""), Err(NameError::Empty));
}

#[test]
fn whitespace_only_input_takes_the_empty_path() {
    assert_eq!(resolve_project_name(b"  \t\r\n "), Err(NameError::Empty));
}

#[test]
fn bad_characters_take_the_invalid_path() {
    assert_eq!(resolve_project_name(b"My App!"), Err(NameError::Invalid));
    assert_ne!(
        resolve_project_name(b"My App!"),
        resolve_project_name(b"   ")
    );
}

#[test]
fn resolver_trims_surrounding_whitespace() {
    assert_eq!(resolve_project_name(b"  my-app\n"), Ok(b"my-app".to_vec()));
}
