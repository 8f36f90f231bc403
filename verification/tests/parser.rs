use bifrost::http_parse_error::HttpParseError;
use bifrost::http_request::{
    parse_header, parse_headers, parse_http_packet, request_with_target, version_from_token,
    Request, Version,
};

fn packet(lines: &[&str]) -> Vec<String> {
    lines.iter().map(|line| line.to_string()).collect()
}

fn parse(lines: &[&str]) -> Result<Request, HttpParseError> {
    parse_http_packet(packet(lines))
}

fn is_parse_error(r: &Result<Request, HttpParseError>) -> bool {
    matches!(r, Err(HttpParseError::ParseError))
}

fn other_error(r: Result<Request, HttpParseError>) -> String {
    match r {
        Err(HttpParseError::OtherError(text)) => text,
        Err(HttpParseError::ParseError) => panic!("ParseError"),
        Ok(_) => panic!("parsed"),
    }
}

#[test]
fn request_line_parses() {
    let request = parse(&["GET /index.html HTTP/1.1"]).unwrap();
    assert_eq!(request.method, "GET");
    assert_eq!(request.path, "/index.html");
    assert_eq!(request.query, None);
    assert_eq!(request.version, Version::Http11);
    assert!(request.headers.is_empty());
}

#[test]
fn no_line_fails() {
    assert!(is_parse_error(&parse(&[])));
}

#[test]
fn two_tokens_fail() {
    assert!(is_parse_error(&parse(&["GET /index.html"])));
    assert!(is_parse_error(&parse(&["GET /index.html", "Host: a"])));
}

#[test]
fn one_token_fails() {
    assert!(is_parse_error(&parse(&["GET"])));
    assert!(is_parse_error(&parse(&[""])));
}

#[test]
fn too_few_tokens_fail_before_the_method_is_looked_at() {
    assert!(is_parse_error(&parse(&["G@T /"])));
}

#[test]
fn unsupported_version_fails() {
    assert!(is_parse_error(&parse(&["GET /index.html HTTP/9.9"])));
    assert!(is_parse_error(&parse(&["GET /index.html HTTP/1.2"])));
    assert!(is_parse_error(&parse(&["GET /index.html http/1.1"])));
    assert!(is_parse_error(&parse(&["GET /index.html HTTP/2"])));
    assert!(is_parse_error(&parse(&["GET /index.html "])));
    assert!(is_parse_error(&parse(&["POST /a?b=c HTTP/9.9", "Host: a"])));
}

#[test]
fn each_version_is_known() {
    assert_eq!(parse(&["GET / HTTP/0.9"]).unwrap().version, Version::Http09);
    assert_eq!(parse(&["GET / HTTP/1.0"]).unwrap().version, Version::Http10);
    assert_eq!(parse(&["GET / HTTP/1.1"]).unwrap().version, Version::Http11);
    assert_eq!(parse(&["GET / HTTP/2.0"]).unwrap().version, Version::Http2);
    assert_eq!(parse(&["GET / HTTP/3.0"]).unwrap().version, Version::Http3);
}

#[test]
fn version_tokens() {
    let chars = |text: &str| text.chars().collect::<Vec<char>>();
    assert_eq!(version_from_token(&chars("HTTP/1.1")), Some(Version::Http11));
    assert_eq!(version_from_token(&chars("HTTP/1.1 ")), None);
    assert_eq!(version_from_token(&chars("")), None);
}

#[test]
fn invalid_method_fails_with_the_message_of_http() {
    assert_eq!(other_error(parse(&["G@T / HTTP/1.1"])), "invalid HTTP method");
    assert_eq!(other_error(parse(&[" / HTTP/1.1"])), "invalid HTTP method");
    assert_eq!(other_error(parse(&["G\u{e9}T / HTTP/1.1"])), "invalid HTTP method");
}

#[test]
fn invalid_method_is_found_before_an_unsupported_version() {
    assert_eq!(other_error(parse(&["G(T / HTTP/9.9"])), "invalid HTTP method");
}

#[test]
fn extension_method_is_kept_as_written() {
    let request = parse(&["wOw!! / HTTP/1.1"]).unwrap();
    assert_eq!(request.method, "wOw!!");
    let long = "This_is_a_very_long_method.It_is_valid_but_unlikely.";
    let line = format!("{} / HTTP/1.0", long);
    assert_eq!(parse(&[line.as_str()]).unwrap().method, long);
}

#[test]
fn every_method_character_is_accepted() {
    let valid = "!#$%&'*+-.^_`|~0123456789ABCDEFGHIJKLMNOPQRSTUVWXYZabcdefghijklmnopqrstuvwxyz";
    let line = format!("{} / HTTP/1.1", valid);
    assert_eq!(parse(&[line.as_str()]).unwrap().method, valid);
    for c in "\"(),/:;<=>?@[\\]{}\u{7f}\t".chars() {
        let line = format!("A{}B / HTTP/1.1", c);
        assert_eq!(other_error(parse(&[line.as_str()])), "invalid HTTP method");
    }
}

#[test]
fn target_with_query() {
    let request = parse(&["GET /hello/world?key=value&foo=bar HTTP/1.1"]).unwrap();
    assert_eq!(request.path, "/hello/world");
    assert_eq!(request.query, Some("key=value&foo=bar".to_string()));
}

#[test]
fn absolute_target_gives_its_path() {
    let request = parse(&["GET http://example.org/hello/world?a=b HTTP/1.1"]).unwrap();
    assert_eq!(request.path, "/hello/world");
    assert_eq!(request.query, Some("a=b".to_string()));
}

#[test]
fn star_target() {
    let request = parse(&["OPTIONS * HTTP/1.1"]).unwrap();
    assert_eq!(request.method, "OPTIONS");
    assert_eq!(request.path, "*");
}

#[test]
fn empty_target_fails_with_the_message_of_http() {
    // Two spaces in a row leave an empty token between them.
    assert_eq!(other_error(parse(&["GET  HTTP/1.1"])), "empty string");
}

#[test]
fn malformed_target_fails_with_the_message_of_http() {
    assert_eq!(other_error(parse(&["GET /a\u{7f}b HTTP/1.1"])), "invalid uri character");
    assert_eq!(other_error(parse(&["GET http:// HTTP/1.1"])), "empty string");
}

#[test]
fn unsupported_version_is_found_before_a_malformed_target() {
    assert!(is_parse_error(&parse(&["GET /a\u{7f}b HTTP/9.9"])));
}

#[test]
fn tokens_after_the_third_are_ignored() {
    let request = parse(&["GET /a HTTP/1.1 extra tokens"]).unwrap();
    assert_eq!(request.method, "GET");
    assert_eq!(request.path, "/a");
    assert_eq!(request.version, Version::Http11);
}

#[test]
fn headers_keep_their_order() {
    let request = parse(&[
        "GET / HTTP/1.1",
        "Host: example.org",
        "Accept: text/html",
        "Host: other.example",
    ])
    .unwrap();
    assert_eq!(
        request.headers,
        vec![
            ("Host".to_string(), "example.org".to_string()),
            ("Accept".to_string(), "text/html".to_string()),
            ("Host".to_string(), "other.example".to_string()),
        ]
    );
}

#[test]
fn header_is_split_once() {
    assert_eq!(parse_header("Host: a: b"), ("Host".to_string(), "a: b".to_string()));
    assert_eq!(parse_header(": value"), ("".to_string(), "value".to_string()));
    assert_eq!(parse_header("Name: "), ("Name".to_string(), "".to_string()));
}

#[test]
fn header_without_separator_is_name_and_value() {
    let twice = |line: &str| (line.to_string(), line.to_string());
    assert_eq!(parse_header("no separator"), twice("no separator"));
    assert_eq!(parse_header("Host:example.org"), twice("Host:example.org"));
    assert_eq!(parse_header(""), ("".to_string(), "".to_string()));
    let request = parse(&["GET / HTTP/1.1", "garbage"]).unwrap();
    assert_eq!(request.headers, vec![("garbage".to_string(), "garbage".to_string())]);
}

#[test]
fn error_messages() {
    assert_eq!(HttpParseError::ParseError.message(), "Error: Error parsing http packet!");
    let error = HttpParseError::OtherError("invalid format".to_string());
    assert_eq!(error.message(), "Error: invalid format");
}

#[test]
fn request_from_what_http_made_of_the_target() {
    let lines = packet(&["ignored", "A: b", "C: d"]);
    let request = request_with_target(
        "PUT".to_string(),
        Version::Http2,
        Ok(("/x".to_string(), Some("y=z".to_string()))),
        &lines,
    )
    .unwrap();
    assert_eq!(request.method, "PUT");
    assert_eq!(request.path, "/x");
    assert_eq!(request.query, Some("y=z".to_string()));
    assert_eq!(request.version, Version::Http2);
    assert_eq!(
        request.headers,
        vec![("A".to_string(), "b".to_string()), ("C".to_string(), "d".to_string())]
    );
}

#[test]
fn refused_target_gives_its_message() {
    let lines = packet(&["ignored", "A: b"]);
    let r = request_with_target(
        "GET".to_string(),
        Version::Http11,
        Err("invalid uri character".to_string()),
        &lines,
    );
    assert_eq!(other_error(r), "invalid uri character");
}

#[test]
fn headers_of_a_head() {
    assert_eq!(parse_headers(&packet(&[])), vec![]);
    assert_eq!(parse_headers(&packet(&["GET / HTTP/1.1"])), vec![]);
    assert_eq!(
        parse_headers(&packet(&["first line is no header", "A: b", "c"])),
        vec![("A".to_string(), "b".to_string()), ("c".to_string(), "c".to_string())]
    );
}
