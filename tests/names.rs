use orbit::{
    admin_users_url, author_line, email_shape_ok, extract_repo_name, is_valid_email, namespace_of, OrbitError,
};

#[test]
fn test_extract_repo_name() {
    assert_eq!(extract_repo_name("https://github.com/user/repo.git").unwrap(), "repo");
    assert_eq!(extract_repo_name("https://github.com/user/repo").unwrap(), "repo");
    assert_eq!(extract_repo_name("git@github.com:user/repo.git").unwrap(), "repo");
}

#[test]
fn repo_name_strips_trailing_slashes_and_repeated_suffix() {
    assert_eq!(extract_repo_name("https://host/a/proj//").unwrap(), "proj");
    assert_eq!(extract_repo_name("plain").unwrap(), "plain");
    assert_eq!(extract_repo_name("https://host/x.git.git").unwrap(), "x");
}

#[test]
fn repo_name_empty_is_refused() {
    assert_eq!(extract_repo_name("https://host/.git"), Err(OrbitError::Precondition));
    assert_eq!(extract_repo_name("///"), Err(OrbitError::Precondition));
    assert_eq!(extract_repo_name(""), Err(OrbitError::Precondition));
}

#[test]
fn email_shapes() {
    assert!(is_valid_email("alice@company.com"));
    assert!(is_valid_email("a_b-c.d@e.f"));
    assert!(!is_valid_email("alicecompany.com"));
    assert!(!is_valid_email("a@b"));
    assert!(!is_valid_email("@alice.com"));
    assert!(!is_valid_email("alice.com@"));
    assert!(!is_valid_email("al ice@company.com"));
    assert!(!is_valid_email("alice+x@company.com"));
    // Unicode letters count as alphanumeric.
    assert!(is_valid_email("jos\u{e9}@example.org"));
}

#[test]
fn email_namespace_and_endpoint() {
    assert_eq!(namespace_of("alice@company.com"), "alice");
    assert_eq!(namespace_of("nobody"), "nobody");
    assert_eq!(admin_users_url("orbit.example.com"), "http://orbit.example.com:8081/admin/users");
}

#[test]
fn imported_author_line() {
    assert_eq!(author_line(Some("Ann"), Some("ann@x.org")), "Ann <ann@x.org>");
    assert_eq!(author_line(None, None), "Unknown <unknown@example.com>");
}

#[test]
fn email_shape_with_given_character_classes() {
    let flags = |s: &str, f: &dyn Fn(char) -> bool| s.chars().map(|c| f(c)).collect::<Vec<bool>>();
    let ascii = |c: char| c.is_ascii_alphanumeric();
    assert!(email_shape_ok("ab@c.d", &flags("ab@c.d", &ascii)));
    assert!(!email_shape_ok("a b@c.d", &flags("a b@c.d", &ascii)));
    // The decision follows the classes it is given.
    assert!(email_shape_ok("a b@c.d", &flags("a b@c.d", &|_| true)));
    assert!(!email_shape_ok("ab@cd", &flags("ab@cd", &|_| false)));
    assert!(!email_shape_ok("abc", &flags("abc", &ascii)));
}
