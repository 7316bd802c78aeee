use http_server::errors::Error;
use http_server::http::{parse_head, parse_request, HttpMethod};
use http_server::text::parse_usize;

fn lines(raw: &[&str]) -> Vec<String> {
    raw.iter().map(|s| s.to_string()).collect()
}

#[test]
fn parses_request_line_and_headers() {
    let input = lines(&["GET /echo/abc HTTP/1.1", "Host: localhost:4221", ""]);
    let req = parse_request(&input, &Vec::new()).unwrap();
    assert_eq!(req.method, HttpMethod::GET);
    assert_eq!(req.target, "/echo/abc");
    assert_eq!(req.headers.get("host").unwrap().as_str(), "localhost:4221");
    assert!(req.body.is_none());
}

#[test]
fn reads_exactly_the_declared_body_length() {
    let input = lines(&["POST /file/doc HTTP/1.1", "Content-Length: 5"]);
    let payload: Vec<u8> = b"helloEXTRA".to_vec();
    let req = parse_request(&input, &payload).unwrap();
    // exactly five bytes: never fewer, never more
    assert_eq!(req.body.unwrap(), b"hello".to_vec());
}

#[test]
fn short_payload_is_an_error() {
    let input = lines(&["POST /file/doc HTTP/1.1", "Content-Length: 10"]);
    let payload: Vec<u8> = b"hello".to_vec();
    assert!(matches!(
        parse_request(&input, &payload),
        Err(Error::Io)
    ));
}

#[test]
fn zero_content_length_means_no_body() {
    let input = lines(&["POST /file/doc HTTP/1.1", "Content-Length: 0"]);
    let payload: Vec<u8> = b"leftover".to_vec();
    let req = parse_request(&input, &payload).unwrap();
    assert!(req.body.is_none());
}

#[test]
fn missing_content_length_reads_no_body() {
    let input = lines(&["POST /file/doc HTTP/1.1", "Host: x"]);
    let payload: Vec<u8> = b"ignored".to_vec();
    let req = parse_request(&input, &payload).unwrap();
    assert!(req.body.is_none());
}

#[test]
fn unknown_method_is_invalid_method() {
    let input = lines(&["FETCH / HTTP/1.1"]);
    assert!(matches!(
        parse_request(&input, &Vec::new()),
        Err(Error::InvalidMethod)
    ));
}

#[test]
fn empty_input_is_invalid_request() {
    let input: Vec<String> = Vec::new();
    assert!(matches!(
        parse_request(&input, &Vec::new()),
        Err(Error::InvalidRequest)
    ));
}

#[test]
fn missing_target_is_invalid_request() {
    let input = lines(&["GET"]);
    assert!(matches!(
        parse_request(&input, &Vec::new()),
        Err(Error::InvalidRequest)
    ));
}

#[test]
fn header_line_without_colon_is_invalid_request() {
    let input = lines(&["GET / HTTP/1.1", "not-a-header"]);
    assert!(matches!(
        parse_request(&input, &Vec::new()),
        Err(Error::InvalidRequest)
    ));
}

#[test]
fn unparseable_content_length_is_invalid_request() {
    let input = lines(&["POST / HTTP/1.1", "Content-Length: abc"]);
    assert!(matches!(
        parse_request(&input, &Vec::new()),
        Err(Error::InvalidRequest)
    ));
}

#[test]
fn header_keys_fold_to_lowercase() {
    let input = lines(&["GET /user-agent HTTP/1.1", "User-Agent: test-client/1"]);
    let req = parse_request(&input, &Vec::new()).unwrap();
    assert_eq!(req.headers.get("user-agent").unwrap().as_str(), "test-client/1");
}

#[test]
fn duplicate_header_keys_overwrite() {
    let input = lines(&["GET / HTTP/1.1", "X-Tag: first", "x-tag: second"]);
    let req = parse_request(&input, &Vec::new()).unwrap();
    assert_eq!(req.headers.get("x-tag").unwrap().as_str(), "second");
}

#[test]
fn header_values_are_trimmed() {
    let input = lines(&["GET / HTTP/1.1", "Host:   spaced.example   "]);
    let req = parse_request(&input, &Vec::new()).unwrap();
    assert_eq!(req.headers.get("host").unwrap().as_str(), "spaced.example");
}

#[test]
fn blank_line_ends_the_header_section() {
    let input = lines(&["GET / HTTP/1.1", "Host: a", "", "Ignored: b"]);
    let req = parse_request(&input, &Vec::new()).unwrap();
    assert!(req.headers.get("ignored").is_none());
    assert_eq!(req.headers.get("host").unwrap().as_str(), "a");
}

#[test]
fn parse_head_accepts_every_method() {
    let cases = [
        ("GET", HttpMethod::GET),
        ("DELETE", HttpMethod::DELETE),
        ("POST", HttpMethod::POST),
        ("PUT", HttpMethod::PUT),
        ("HEAD", HttpMethod::HEAD),
        ("CONNECT", HttpMethod::CONNECT),
        ("OPTIONS", HttpMethod::OPTIONS),
        ("TRACE", HttpMethod::TRACE),
        ("PATCH", HttpMethod::PATCH),
    ];
    for (tok, expected) in cases {
        let input = lines(&[&format!("{} / HTTP/1.1", tok)]);
        let (m, target, _) = parse_head(&input).unwrap();
        assert_eq!(m, expected);
        assert_eq!(target, "/");
    }
}

#[test]
fn from_str_rejects_lowercase_method() {
    assert!(matches!(
        HttpMethod::from_str("get"),
        Err(Error::InvalidMethod)
    ));
}

#[test]
fn parse_usize_matches_std_parsing() {
    assert_eq!(parse_usize("0"), Some(0));
    assert_eq!(parse_usize("42"), Some(42));
    assert_eq!(parse_usize("+7"), Some(7));
    assert_eq!(parse_usize("007"), Some(7));
    assert_eq!(parse_usize(""), None);
    assert_eq!(parse_usize("+"), None);
    assert_eq!(parse_usize("1 2"), None);
    assert_eq!(parse_usize("-1"), None);
    assert_eq!(parse_usize("12a"), None);
    assert_eq!(parse_usize("99999999999999999999999999"), None);
}

#[test]
fn error_message_names_the_kind() {
    assert_eq!(Error::InvalidMethod.message(), "InvalidMethod");
    assert_eq!(Error::InvalidRequest.message(), "InvalidRequest");
    assert_eq!(Error::InvalidEncoding.message(), "InvalidEncoding");
    assert_eq!(Error::InvalidProtocol.message(), "InvalidProtocol");
    assert_eq!(Error::Io.message(), "Io");
}
