use sshgate::proxy::{error_response, head_status, not_found_detail, parse_host, HeadStatus, MAX_HEADER_BYTES};

#[test]
fn extracts_nested_localhost_domain() {
    let request = b"GET / HTTP/1.1\r\nHost: jupyter.gpu.localhost\r\nConnection: close\r\n\r\n";
    assert_eq!(
        parse_host(request).as_deref(),
        Some("jupyter.gpu.localhost")
    );
}

#[test]
fn removes_explicit_local_port() {
    let request = b"GET / HTTP/1.1\r\nhost: grafana.server-a.localhost:8080\r\n\r\n";
    assert_eq!(
        parse_host(request).as_deref(),
        Some("grafana.server-a.localhost")
    );
}

#[test]
fn host_is_lowercased_and_trimmed() {
    let request = b"GET / HTTP/1.1\r\nAccept: */*\r\nHOST:   Jupyter.GPU.Localhost  \r\n\r\n";
    assert_eq!(parse_host(request).as_deref(), Some("jupyter.gpu.localhost"));
}

#[test]
fn incomplete_head_has_no_host() {
    let request = b"GET / HTTP/1.1\r\nHost: a.localhost\r\n";
    assert_eq!(parse_host(request), None);
}

#[test]
fn head_without_host_header() {
    let request = b"GET / HTTP/1.1\r\nAccept: */*\r\n\r\n";
    assert_eq!(parse_host(request), None);
}

#[test]
fn request_line_is_not_a_header() {
    let request = b"Host: first.localhost\r\nAccept: */*\r\n\r\n";
    assert_eq!(parse_host(request), None);
}

#[test]
fn first_host_header_wins() {
    let request = b"GET / HTTP/1.1\r\nHost: one.localhost\r\nHost: two.localhost\r\n\r\n";
    assert_eq!(parse_host(request).as_deref(), Some("one.localhost"));
}

#[test]
fn invalid_utf8_head_has_no_host() {
    let request = b"GET / HTTP/1.1\r\nHost: a\xff.localhost\r\n\r\n";
    assert_eq!(parse_host(request), None);
}

#[test]
fn only_bytes_up_to_the_blank_line_count() {
    let request = b"GET / HTTP/1.1\r\nX: y\r\n\r\nHost: body.localhost\r\n\r\n";
    assert_eq!(parse_host(request), None);
}

#[test]
fn head_status_decisions() {
    assert_eq!(head_status(b"GET / HTTP/1.1\r\n\r\n"), HeadStatus::Complete);
    assert_eq!(head_status(b"GET / HTTP/1.1\r\n"), HeadStatus::Incomplete);
    let big = vec![b'a'; MAX_HEADER_BYTES];
    assert_eq!(head_status(&big), HeadStatus::TooLarge);
    let mut done = vec![b'a'; MAX_HEADER_BYTES];
    done.extend_from_slice(b"\r\n\r\n");
    assert_eq!(head_status(&done), HeadStatus::Complete);
}

#[test]
fn error_page_escapes_detail_and_counts_bytes() {
    let response = error_response(404, "Not Found", "a<b>&c");
    let (head, body) = response.split_once("\r\n\r\n").unwrap();
    assert!(head.starts_with("HTTP/1.1 404 Not Found\r\n"));
    assert!(head.contains(&format!("Content-Length: {}", body.len())));
    assert!(head.contains("Connection: close"));
    assert!(body.contains("<title>SSHGate 404</title>"));
    assert!(body.contains("<h1>SSHGate · Not Found</h1>"));
    assert!(body.contains("<code>a&lt;b&gt;&amp;c</code>"));
}

#[test]
fn not_found_names_the_host() {
    assert_eq!(
        not_found_detail("x.localhost"),
        "No running SSHGate application matches x.localhost"
    );
}
