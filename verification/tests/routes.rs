use std::io::Read;

use http_server::http::{parse_request, Headers, HttpMethod, HttpRequest};
use http_server::server::{
    file_get_gate, file_get_response, file_post_response, Args, FileGate, FileReadOutcome,
    RouteResult, Server,
};

fn lines(raw: &[&str]) -> Vec<String> {
    raw.iter().map(|s| s.to_string()).collect()
}

fn request(raw: &[&str], payload: &[u8]) -> HttpRequest {
    parse_request(&lines(raw), &payload.to_vec()).unwrap()
}

fn no_dir() -> Args {
    Args { directory: None }
}

fn with_dir() -> Args {
    Args {
        directory: Some("/srv/files".to_string()),
    }
}

fn segs(raw: &[&str]) -> Vec<String> {
    raw.iter().map(|s| s.to_string()).collect()
}

fn done(r: RouteResult) -> http_server::response::HttpResponse {
    match r {
        RouteResult::Done(resp) => resp,
        _ => panic!("expected a finished response"),
    }
}

fn gunzip(bytes: &[u8]) -> Vec<u8> {
    let mut out = Vec::new();
    flate2::read::GzDecoder::new(bytes)
        .read_to_end(&mut out)
        .unwrap();
    out
}

#[test]
fn root_get_is_bare_200() {
    let req = request(&["GET / HTTP/1.1"], b"");
    let resp = done(Server::handle_request(&req, &no_dir()));
    assert_eq!(resp.to_bytes(), b"HTTP/1.1 200 OK\r\n\r\n".to_vec());
}

#[test]
fn echo_returns_the_segment_verbatim() {
    let req = request(&["GET /echo/hello HTTP/1.1"], b"");
    let resp = done(Server::handle_request(&req, &no_dir()));
    assert_eq!(
        resp.to_bytes(),
        b"HTTP/1.1 200 OK\r\nContent-Type: text/plain\r\nContent-Length: 5\r\n\r\nhello".to_vec()
    );
}

#[test]
fn user_agent_is_reflected() {
    let req = request(
        &["GET /user-agent HTTP/1.1", "User-Agent: test-client/1"],
        b"",
    );
    let resp = done(Server::handle_request(&req, &no_dir()));
    assert_eq!(resp.status, 200);
    assert_eq!(resp.body, b"test-client/1".to_vec());
    assert_eq!(
        resp.to_bytes(),
        b"HTTP/1.1 200 OK\r\nContent-Type: text/plain\r\nContent-Length: 13\r\n\r\ntest-client/1"
            .to_vec()
    );
}

#[test]
fn missing_user_agent_is_400() {
    let req = request(&["GET /user-agent HTTP/1.1"], b"");
    let resp = done(Server::handle_request(&req, &no_dir()));
    assert_eq!(resp.to_bytes(), b"HTTP/1.1 400 Bad Request\r\n\r\n".to_vec());
}

#[test]
fn unmatched_routes_are_404() {
    let req = request(&["GET /nonexistent HTTP/1.1"], b"");
    let resp = done(Server::handle_request(&req, &no_dir()));
    assert_eq!(resp.to_bytes(), b"HTTP/1.1 404 Not Found\r\n\r\n".to_vec());

    // a known target under the wrong method falls through too
    let req = request(&["DELETE /echo/x HTTP/1.1"], b"");
    let resp = done(Server::handle_request(&req, &no_dir()));
    assert_eq!(resp.status, 404);
}

#[test]
fn file_routes_need_a_directory() {
    let get = request(&["GET /file/a.txt HTTP/1.1"], b"");
    let resp = done(Server::handle_request(&get, &no_dir()));
    assert_eq!(
        resp.to_bytes(),
        b"HTTP/1.1 503 Service Unavailable\r\n\r\n".to_vec()
    );

    let post = request(
        &["POST /file/a.txt HTTP/1.1", "Content-Length: 2"],
        b"ab",
    );
    let resp = done(Server::handle_request(&post, &no_dir()));
    assert_eq!(resp.status, 503);
}

#[test]
fn file_post_without_body_is_400() {
    let req = request(&["POST /file/a.txt HTTP/1.1"], b"");
    let resp = done(Server::handle_request(&req, &with_dir()));
    assert_eq!(resp.status, 400);
}

#[test]
fn file_post_hands_back_name_and_contents() {
    let req = request(
        &["POST /file/doc.txt HTTP/1.1", "Content-Length: 11"],
        b"hello world",
    );
    match Server::handle_request(&req, &with_dir()) {
        RouteResult::FileWrite { name, contents } => {
            assert_eq!(name, "doc.txt");
            assert_eq!(contents, b"hello world".to_vec());
        }
        _ => panic!("expected a file write"),
    }
}

#[test]
fn file_get_hands_back_name_and_negotiation() {
    let req = request(
        &["GET /file/doc.txt HTTP/1.1", "Accept-Encoding: gzip"],
        b"",
    );
    match Server::handle_request(&req, &with_dir()) {
        RouteResult::FileRead { name, gz } => {
            assert_eq!(name, "doc.txt");
            assert!(gz);
        }
        _ => panic!("expected a file read"),
    }
}

#[test]
fn post_then_get_round_trips_the_body() {
    let post = request(
        &["POST /file/doc.txt HTTP/1.1", "Content-Length: 11"],
        b"hello world",
    );
    let stored = match Server::handle_request(&post, &with_dir()) {
        RouteResult::FileWrite { name, contents } => {
            assert_eq!(name, "doc.txt");
            contents
        }
        _ => panic!("expected a file write"),
    };

    let get = request(&["GET /file/doc.txt HTTP/1.1"], b"");
    match Server::handle_request(&get, &with_dir()) {
        RouteResult::FileRead { name, gz } => {
            assert_eq!(name, "doc.txt");
            assert!(!gz);
            let read_back = String::from_utf8(stored).unwrap();
            let resp = file_get_response(FileReadOutcome::Contents(read_back), gz);
            assert_eq!(resp.status, 200);
            assert_eq!(resp.body, b"hello world".to_vec());
        }
        _ => panic!("expected a file read"),
    }
}

#[test]
fn traversal_outside_the_base_directory_is_denied() {
    // `/file/../secret.txt` canonicalizes beside, not under, the base
    let base = segs(&["", "srv", "files"]);
    let path = segs(&["", "srv", "secret.txt"]);
    match file_get_gate(Some((base, path))) {
        FileGate::Deny(resp) => {
            assert_eq!(resp.status, 400);
            assert!(resp.body.is_empty());
        }
        FileGate::Allow => panic!("a path outside the base directory must be denied"),
    }
}

#[test]
fn unresolvable_paths_are_404() {
    match file_get_gate(None) {
        FileGate::Deny(resp) => assert_eq!(resp.status, 404),
        FileGate::Allow => panic!("an unresolvable path must be denied"),
    }
}

#[test]
fn contained_paths_are_allowed() {
    let base = segs(&["", "srv", "files"]);
    let path = segs(&["", "srv", "files", "doc.txt"]);
    assert!(matches!(file_get_gate(Some((base, path))), FileGate::Allow));
}

#[test]
fn missing_file_is_404_and_failed_read_is_500() {
    let resp = file_get_response(FileReadOutcome::Missing, false);
    assert_eq!(resp.to_bytes(), b"HTTP/1.1 404 Not Found\r\n\r\n".to_vec());
    let resp = file_get_response(FileReadOutcome::Failed, true);
    assert_eq!(
        resp.to_bytes(),
        b"HTTP/1.1 500 Internal Server Error\r\n\r\n".to_vec()
    );
}

#[test]
fn file_write_outcome_maps_to_201_or_500() {
    assert_eq!(
        file_post_response(true).to_bytes(),
        b"HTTP/1.1 201 Created\r\n\r\n".to_vec()
    );
    assert_eq!(file_post_response(false).status, 500);
}

#[test]
fn gzip_negotiation_compresses_and_round_trips() {
    let req = request(
        &["GET /echo/hello HTTP/1.1", "Accept-Encoding: deflate, gzip, br"],
        b"",
    );
    let resp = done(Server::handle_request(&req, &no_dir()));
    assert_eq!(resp.status, 200);
    assert!(resp.gzip);
    // a real gzip stream, not the input handed back
    assert_eq!(&resp.body[0..2], &[0x1f, 0x8b]);
    assert_ne!(resp.body, b"hello".to_vec());
    assert_eq!(gunzip(&resp.body), b"hello".to_vec());

    // the advertised length is the compressed one
    let head = format!(
        "HTTP/1.1 200 OK\r\nContent-Type: text/plain\r\nContent-Encoding: gzip\r\nContent-Length: {}\r\n\r\n",
        resp.body.len()
    );
    let mut expected = head.into_bytes();
    expected.extend_from_slice(&resp.body);
    assert_eq!(resp.to_bytes(), expected);
}

#[test]
fn gzip_applies_to_file_contents_too() {
    let resp = file_get_response(
        FileReadOutcome::Contents("file data".to_string()),
        true,
    );
    assert_eq!(resp.status, 200);
    assert!(resp.gzip);
    assert_eq!(gunzip(&resp.body), b"file data".to_vec());
    let rendered = resp.to_bytes();
    let head = String::from_utf8_lossy(&rendered[0..rendered.len() - resp.body.len()]).to_string();
    assert!(head.contains("Content-Type: application/octet-stream\r\n"));
    assert!(head.contains("Content-Encoding: gzip\r\n"));
    assert!(head.contains(&format!("Content-Length: {}\r\n", resp.body.len())));
}

#[test]
fn accept_encoding_without_gzip_stays_identity() {
    let req = request(
        &["GET /echo/plain HTTP/1.1", "Accept-Encoding: deflate"],
        b"",
    );
    let resp = done(Server::handle_request(&req, &no_dir()));
    assert!(!resp.gzip);
    assert_eq!(resp.body, b"plain".to_vec());
}

#[test]
fn echo_takes_the_last_segment() {
    let req = request(&["GET /echo/a/b/c HTTP/1.1"], b"");
    let resp = done(Server::handle_request(&req, &no_dir()));
    assert_eq!(resp.body, b"c".to_vec());

    // a trailing slash leaves an empty segment
    let req = request(&["GET /echo/ HTTP/1.1"], b"");
    let resp = done(Server::handle_request(&req, &no_dir()));
    assert_eq!(
        resp.to_bytes(),
        b"HTTP/1.1 200 OK\r\nContent-Type: text/plain\r\nContent-Length: 0\r\n\r\n".to_vec()
    );
}

#[test]
fn prefix_matching_is_literal() {
    // `/filesystem` matches the `/file` family, as the routing is by prefix
    let req = request(&["GET /filesystem HTTP/1.1"], b"");
    match Server::handle_request(&req, &with_dir()) {
        RouteResult::FileRead { name, .. } => assert_eq!(name, "filesystem"),
        _ => panic!("prefix routing should have matched the file family"),
    }
}

#[test]
fn headers_overwrite_is_observable_through_routing() {
    let mut headers = Headers::new();
    headers.insert("User-Agent".to_string(), "first".to_string());
    headers.insert("user-agent".to_string(), "second".to_string());
    let req = HttpRequest {
        target: "/user-agent".to_string(),
        method: HttpMethod::GET,
        headers,
        body: None,
    };
    let resp = done(Server::handle_request(&req, &no_dir()));
    assert_eq!(resp.body, b"second".to_vec());
}
