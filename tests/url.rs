use orbit::{requires_tls, OrbitUrl, UrlError};

#[test]
fn orbits_url_with_port_and_repository() {
    let u = OrbitUrl::parse("orbits://h:443/r").unwrap();
    assert!(u.use_tls);
    assert_eq!(u.port, 443);
    assert_eq!(u.host, "h");
    assert_eq!(u.server_name, "h");
    assert_eq!(u.repository.as_deref(), Some("r"));
}

#[test]
fn bare_host_and_port_is_plain_tcp() {
    let u = OrbitUrl::parse("h:8080").unwrap();
    assert!(!u.use_tls);
    assert_eq!(u.port, 8080);
    assert_eq!(u.host, "h");
    assert_eq!(u.repository, None);
}

#[test]
fn default_ports() {
    let u = OrbitUrl::parse("orbit://example.com/team/project").unwrap();
    assert!(!u.use_tls);
    assert_eq!(u.port, 8080);
    assert_eq!(u.host, "example.com");
    assert_eq!(u.repository.as_deref(), Some("team/project"));
    let t = OrbitUrl::parse("https://example.com").unwrap();
    assert!(t.use_tls);
    assert_eq!(t.port, 443);
    assert_eq!(t.repository, None);
}

#[test]
fn tls_by_port() {
    assert!(requires_tls("host:8443/x"));
    assert!(requires_tls("host:443"));
    assert!(!requires_tls("host:8080"));
    assert!(!requires_tls("http://host"));
    let u = OrbitUrl::parse("host:8443/alice@x.com/proj").unwrap();
    assert!(u.use_tls);
    assert_eq!(u.port, 8443);
    assert_eq!(u.repository.as_deref(), Some("alice@x.com/proj"));
}

#[test]
fn bad_ports_are_refused() {
    assert!(matches!(OrbitUrl::parse("host:abc"), Err(UrlError::InvalidPort)));
    assert!(matches!(OrbitUrl::parse("host:70000/r"), Err(UrlError::InvalidPort)));
    assert!(matches!(OrbitUrl::parse("host:/r"), Err(UrlError::InvalidPort)));
    assert_eq!(OrbitUrl::parse("host:+81").unwrap().port, 81);
    assert_eq!(OrbitUrl::parse("host:65535").unwrap().port, 65535);
}

#[test]
fn tls_only_from_scheme_or_explicit_port() {
    assert!(!requires_tls("h:4430"));
    assert!(!requires_tls("h:84430/r"));
    assert!(requires_tls("http://h:443"));
    assert!(requires_tls("orbit://h:8443/r"));
    assert!(requires_tls("orbits://h:8080"));
    let u = OrbitUrl::parse("h:4430/r").unwrap();
    assert!(!u.use_tls);
    assert_eq!(u.port, 4430);
}
