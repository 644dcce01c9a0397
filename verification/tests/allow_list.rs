use glass::outbound_http::HttpCtx;
use glass::EngineError;

#[test]
fn allow_list_permits_listed_host_only() {
    let ctx = HttpCtx::new(Some(vec!["example.com".to_string()]), None);
    assert!(ctx.guard_request("https://example.com/index.html").is_ok());
    assert_eq!(
        ctx.guard_request("https://evil.com/steal"),
        Err(EngineError::HostNotAllowed)
    );
    assert_eq!(ctx.guard_request("http://evil.com"), Err(EngineError::HostNotAllowed));
}

#[test]
fn missing_allow_list_permits_all_hosts() {
    let ctx = HttpCtx::new(None, None);
    assert!(ctx.guard_request("https://anything.at.all/x").is_ok());
}

#[test]
fn host_extraction_stops_at_port_path_and_query() {
    let ctx = HttpCtx::new(Some(vec!["h.example".to_string()]), None);
    assert!(ctx.is_allowed("https://h.example:8080/deep/path"));
    assert!(ctx.is_allowed("https://h.example?q=1"));
    assert!(ctx.is_allowed("https://h.example"));
    assert!(!ctx.is_allowed("https://h.example.org/"));
}

#[test]
fn url_without_scheme_has_no_host() {
    let ctx = HttpCtx::new(Some(vec!["example.com".to_string()]), None);
    assert_eq!(ctx.guard_request("example.com/path"), Err(EngineError::HostNotAllowed));
}
