use simaai_sentinel::runs::RunError;
use simaai_sentinel::api::{
    bad_request, conflict, find_bytes, header_end, internal, not_found, parse_request_head,
    payload_too_large, percent_decode, query_values, reason_phrase, response_bytes,
    response_head, route, run_error_status, run_refusal, Endpoint, RunRequest, ReadStep, RequestReader, MAX_REQUEST_BYTES,
};

#[test]
fn error_constructors_carry_status_and_message() {
    assert_eq!(bad_request("x").status, 400);
    assert_eq!(conflict("busy").status, 409);
    assert_eq!(not_found("gone").message, "gone");
    assert_eq!(internal("boom").status, 500);
    let large = payload_too_large();
    assert_eq!((large.status, large.message.as_str()), (413, "request exceeds 64 KiB"));
}

#[test]
fn finds_the_first_window() {
    assert_eq!(find_bytes(b"abcabc", b"bc"), Some(1));
    assert_eq!(find_bytes(b"abc", b"abcd"), None);
    assert_eq!(header_end(b"GET / HTTP/1.1\r\n\r\nbody"), Some(18));
    assert_eq!(header_end(b"GET / HTTP/1.1\r\n"), None);
}

#[test]
fn percent_decoding() {
    assert_eq!(percent_decode("a%20b+c").unwrap(), "a b c");
    assert_eq!(percent_decode("%C3%A9").unwrap(), "é");
    assert_eq!(percent_decode("100%").unwrap(), "100%");
    assert_eq!(percent_decode("héllo/wörld-1").unwrap(), "héllo/wörld-1");
    assert_eq!(percent_decode("%4").unwrap(), "%4");
    let bad = percent_decode("%zz1").unwrap_err();
    assert_eq!((bad.status, bad.message.as_str()), (400, "invalid URL encoding"));
    let not_utf8 = percent_decode("%ff%fe").unwrap_err();
    assert_eq!(not_utf8.message, "URL is not UTF-8");
}

#[test]
fn query_values_split_and_decode() {
    assert_eq!(
        query_values("runs=a,b&raw=1&runs=c%2Cd,,&other=x", "runs"),
        vec!["a", "b", "c", "d"]
    );
    assert_eq!(query_values("raw=1", "raw"), vec!["1"]);
    assert!(query_values("runs", "runs").is_empty());
    assert!(query_values("runs=%zz", "runs").is_empty());
}

#[test]
fn request_head_parsing() {
    let head = parse_request_head(
        b"POST /v1/traces?x=1 HTTP/1.1\r\nHost: a\r\ncontent-LENGTH:  12 \r\n\r\n",
    )
    .unwrap();
    assert_eq!(head.method, "POST");
    assert_eq!(head.path, "/v1/traces");
    assert_eq!(head.query, "x=1");
    assert_eq!(head.content_length, 12);
    let plain = parse_request_head(b"GET /v1/health HTTP/1.1\r\n\r\n").unwrap();
    assert_eq!((plain.query.as_str(), plain.content_length), ("", 0));
    assert_eq!(
        parse_request_head(b"GET\r\n\r\n").unwrap_err().message,
        "invalid request line"
    );
    assert_eq!(
        parse_request_head(b"GET / HTTP/1.1\r\nContent-Length: x\r\n\r\n")
            .unwrap_err()
            .message,
        "invalid Content-Length"
    );
    assert_eq!(
        parse_request_head(b"GET / \xff\r\n\r\n").unwrap_err().message,
        "invalid HTTP header"
    );
}

#[test]
fn routes_endpoints() {
    assert!(matches!(route("GET", "/v1/health", ""), Ok(Endpoint::Health)));
    assert!(matches!(route("GET", "/v1/cache", ""), Ok(Endpoint::Cache)));
    assert!(matches!(route("GET", "/v1/metrics", ""), Ok(Endpoint::Metrics)));
    assert!(matches!(route("GET", "/v1/samples/latest", ""), Ok(Endpoint::LatestSample)));
    assert!(matches!(route("GET", "/v1/traces/active", ""), Ok(Endpoint::ActiveTrace)));
    assert!(matches!(route("POST", "/v1/traces", ""), Ok(Endpoint::StartTrace)));
    assert!(matches!(route("POST", "/v1/traces/stop", ""), Ok(Endpoint::StopTrace)));
    assert!(matches!(route("GET", "/v1/runs", ""), Ok(Endpoint::Runs)));
    match route("GET", "/v1/runs/my%20run", "") {
        Ok(Endpoint::Run { selector }) => assert_eq!(selector, "my run"),
        other => panic!("unexpected {other:?}"),
    }
    match route("GET", "/v1/compare", "runs=agent-test,agent-test-2&raw=1") {
        Ok(Endpoint::Compare { selectors, include_raw }) => {
            assert_eq!(selectors, vec!["agent-test", "agent-test-2"]);
            assert!(include_raw);
        }
        other => panic!("unexpected {other:?}"),
    }
    match route("GET", "/v1/compare", "runs=agent-test,agent-test-2") {
        Ok(Endpoint::Compare { include_raw, .. }) => assert!(!include_raw),
        other => panic!("unexpected {other:?}"),
    }
    let few = route("GET", "/v1/compare", "runs=a").unwrap_err();
    assert_eq!(
        (few.status, few.message.as_str()),
        (400, "compare requires at least two runs parameters")
    );
    let unknown = route("DELETE", "/v1/runs", "").unwrap_err();
    assert_eq!(
        (unknown.status, unknown.message.as_str()),
        (404, "unknown Sentinel API endpoint")
    );
    assert_eq!(route("GET", "/v1/runs/%zz", "").unwrap_err().status, 400);
}

#[test]
fn reader_assembles_head_and_body_across_chunks() {
    let mut reader = RequestReader::new();
    assert!(matches!(reader.receive(b"POST /v1/traces HTTP/1.1\r\nContent-"), ReadStep::More));
    assert!(matches!(reader.receive(b"Length: 4\r\n\r\nab"), ReadStep::More));
    assert_eq!(reader.closed().message, "request body is incomplete");
    match reader.receive(b"cdEXTRA") {
        ReadStep::Done(request) => {
            assert_eq!(request.method, "POST");
            assert_eq!(request.path, "/v1/traces");
            assert_eq!(request.body, b"abcd".to_vec());
        }
        other => panic!("unexpected {other:?}"),
    }
}

#[test]
fn reader_refuses_oversized_requests() {
    let mut reader = RequestReader::new();
    assert_eq!(
        reader.closed().message,
        "connection closed before request was complete"
    );
    let chunk = vec![b'a'; MAX_REQUEST_BYTES + 1];
    match reader.receive(&chunk) {
        ReadStep::Failed(error) => assert_eq!(error.status, 413),
        other => panic!("unexpected {other:?}"),
    }
    let mut body_too_large = RequestReader::new();
    match body_too_large.receive(b"POST / HTTP/1.1\r\nContent-Length: 65536\r\n\r\n") {
        ReadStep::Failed(error) => assert_eq!(error.status, 413),
        other => panic!("unexpected {other:?}"),
    }
    let mut bad = RequestReader::new();
    match bad.receive(b" \r\n\r\n") {
        ReadStep::Failed(error) => assert_eq!(error.message, "invalid request line"),
        other => panic!("unexpected {other:?}"),
    }
}

#[test]
fn responses_are_framed() {
    assert_eq!(reason_phrase(200), "OK");
    assert_eq!(reason_phrase(413), "Payload Too Large");
    assert_eq!(reason_phrase(418), "Internal Server Error");
    assert_eq!(
        response_head(404, 7),
        "HTTP/1.1 404 Not Found\r\nContent-Type: application/json\r\nContent-Length: 7\r\nConnection: close\r\n\r\n"
    );
    let bytes = response_bytes(200, b"{}");
    assert!(bytes.starts_with(b"HTTP/1.1 200 OK\r\n"));
    assert!(bytes.ends_with(b"Content-Length: 2\r\nConnection: close\r\n\r\n{}"));
}

#[test]
fn run_refusals_map_to_statuses() {
    for request in [RunRequest::Lifecycle, RunRequest::Lookup] {
        assert_eq!(run_error_status(&RunError::EmptyName, request), 400);
        assert_eq!(run_error_status(&RunError::NameTooLong, request), 400);
        assert_eq!(run_error_status(&RunError::NameControl, request), 400);
    }
    assert_eq!(run_error_status(&RunError::Ambiguous("x".into()), RunRequest::Lifecycle), 409);
    assert_eq!(run_error_status(&RunError::UnknownCompleted("x".into()), RunRequest::Lifecycle), 409);
    assert_eq!(run_error_status(&RunError::AlreadyRecording("x".into()), RunRequest::Lifecycle), 409);
    assert_eq!(run_error_status(&RunError::AlreadyExists("x".into()), RunRequest::Lifecycle), 409);
    assert_eq!(run_error_status(&RunError::NotRecording, RunRequest::Lifecycle), 409);
    assert_eq!(run_error_status(&RunError::SampleLimit("x".into(), 3), RunRequest::Lifecycle), 409);
    assert_eq!(run_error_status(&RunError::Unknown("x".into()), RunRequest::Lookup), 404);
    assert_eq!(run_error_status(&RunError::Ambiguous("x".into()), RunRequest::Lookup), 404);
    let refusal = run_refusal(&RunError::EmptyName, RunRequest::Lifecycle);
    assert_eq!(refusal.status, 400);
    assert_eq!(refusal.message, "checkpoint name must not be empty");
    let refusal = run_refusal(&RunError::Ambiguous("base".into()), RunRequest::Lifecycle);
    assert_eq!(refusal.status, 409);
    assert_eq!(refusal.message, "run name 'base' is ambiguous; use a run ID");
    let refusal = run_refusal(&RunError::Unknown("old".into()), RunRequest::Lookup);
    assert_eq!(refusal.status, 404);
    assert_eq!(refusal.message, "unknown run 'old'");
}
