use bifrost::http_parse_error::HttpParseError;
use bifrost::http_resource::{FileMetadata, HttpResource};
use bifrost::mime::build_mimetype_table;
use bifrost::route_table::{build_route_table, FileEntry, RouteTable};
use bifrost::http_request::{Request, Version};
use bifrost::server::{
    build_not_found, build_res, handle_connection, handle_request, respond, ConnectionError,
};

fn table() -> RouteTable {
    let mime = build_mimetype_table("text/html html\ntext/css css\n");
    let entries = vec![
        FileEntry {
            path: "/srv/index.html".to_string(),
            parent: "/srv".to_string(),
            extension: Some("html".to_string()),
            metadata: FileMetadata { size: 5, modified: None },
            data: b"hello".to_vec(),
        },
        FileEntry {
            path: "/srv/style.css".to_string(),
            parent: "/srv".to_string(),
            extension: Some("css".to_string()),
            metadata: FileMetadata { size: 2, modified: None },
            data: b"{}".to_vec(),
        },
    ];
    build_route_table(entries, "/srv", &mime).ok().unwrap()
}

fn packet(lines: &[&str]) -> Vec<String> {
    lines.iter().map(|line| line.to_string()).collect()
}

#[test]
fn registered_path_is_served() {
    let data = handle_request(packet(&["GET / HTTP/1.1", "Host: a"]), &table()).unwrap();
    assert_eq!(
        data,
        b"HTTP/1.1 200 OK\r\nContent-Type: text/html\r\nContent-Length: 5\r\n\r\nhello".to_vec()
    );
    let data = handle_request(packet(&["GET /style.css?v=2 HTTP/1.0"]), &table()).unwrap();
    assert_eq!(
        data,
        b"HTTP/1.1 200 OK\r\nContent-Type: text/css\r\nContent-Length: 2\r\n\r\n{}".to_vec()
    );
}

#[test]
fn unregistered_path_gets_404() {
    let data = handle_request(packet(&["GET /missing HTTP/1.1"]), &table()).unwrap();
    assert_eq!(data, b"HTTP/1.1 404 Not Found\r\nContent-Length: 0\r\n\r\n".to_vec());
    assert_eq!(build_not_found(), data);
}

#[test]
fn head_that_is_no_request_gets_no_answer() {
    assert!(matches!(
        handle_request(packet(&["GET /"]), &table()),
        Err(HttpParseError::ParseError)
    ));
    assert!(matches!(
        handle_request(packet(&["GET / HTTP/9.9"]), &table()),
        Err(HttpParseError::ParseError)
    ));
    assert!(matches!(
        handle_request(packet(&["G<T / HTTP/1.1"]), &table()),
        Err(HttpParseError::OtherError(_))
    ));
}

#[test]
fn connection_from_bytes_to_bytes() {
    let data = handle_connection(b"GET /style.css HTTP/1.1\r\nHost: a\r\n\r\n", &table()).unwrap();
    assert_eq!(
        data,
        b"HTTP/1.1 200 OK\r\nContent-Type: text/css\r\nContent-Length: 2\r\n\r\n{}".to_vec()
    );
    let data = handle_connection(b"GET /nothing HTTP/1.1\r\n\r\n", &table()).unwrap();
    assert_eq!(data, b"HTTP/1.1 404 Not Found\r\nContent-Length: 0\r\n\r\n".to_vec());
}

#[test]
fn connection_that_ends_early_gets_no_answer() {
    assert!(matches!(
        handle_connection(b"GET / HTTP/1.1\r\nHost: a\r\n", &table()),
        Err(ConnectionError::FramingFailure)
    ));
    assert!(matches!(handle_connection(b"", &table()), Err(ConnectionError::FramingFailure)));
}

#[test]
fn connection_with_a_malformed_head_gets_no_answer() {
    assert!(matches!(
        handle_connection(b"\r\n", &table()),
        Err(ConnectionError::ParseFailure(HttpParseError::ParseError))
    ));
    assert!(matches!(
        handle_connection(b"GET / HTTP/1.5\r\n\r\n", &table()),
        Err(ConnectionError::ParseFailure(HttpParseError::ParseError))
    ));
    match handle_connection(b"GE T / HTTP/1.1\r\n\r\n", &table()) {
        Err(ConnectionError::ParseFailure(HttpParseError::ParseError)) => {}
        _ => panic!("expected a parse error"),
    }
    match handle_connection(b"G\"T / HTTP/1.1\r\n\r\n", &table()) {
        Err(ConnectionError::ParseFailure(HttpParseError::OtherError(text))) => {
            assert_eq!(text, "invalid HTTP method")
        }
        _ => panic!("expected an invalid method"),
    }
}

#[test]
fn response_that_carries_a_resource() {
    let resource = HttpResource::new(
        vec![1, 2, 3],
        FileMetadata { size: 3, modified: None },
        "bin",
        "application/octet-stream",
    );
    let data = build_res(&resource, "image/png".to_string(), 203);
    let mut expected = b"HTTP/1.1 203 Non Authoritative Information\r\n".to_vec();
    expected.extend_from_slice(b"Content-Type: image/png\r\nContent-Length: 3\r\n\r\n");
    expected.extend_from_slice(&[1, 2, 3]);
    assert_eq!(data, expected);
}

#[test]
fn answer_to_a_parsed_request() {
    let request = |path: &str| Request {
        method: "GET".to_string(),
        path: path.to_string(),
        query: None,
        version: Version::Http11,
        headers: vec![],
    };
    assert_eq!(
        respond(&request("/style.css"), &table()),
        b"HTTP/1.1 200 OK\r\nContent-Type: text/css\r\nContent-Length: 2\r\n\r\n{}".to_vec()
    );
    assert_eq!(
        respond(&request("/style.CSS"), &table()),
        b"HTTP/1.1 404 Not Found\r\nContent-Length: 0\r\n\r\n".to_vec()
    );
    assert_eq!(
        respond(&request(""), &table()),
        b"HTTP/1.1 404 Not Found\r\nContent-Length: 0\r\n\r\n".to_vec()
    );
}
