use bifrost::http_resource::{FileMetadata, HttpResource};
use bifrost::http_response::{decimal_string, status_line, HttpResponse};

fn resource(data: &[u8], extension: &str, mime_type: &str) -> HttpResource {
    HttpResource::new(
        data.to_vec(),
        FileMetadata { size: data.len() as u64, modified: Some(1_700_000_000) },
        extension,
        mime_type,
    )
}

#[test]
fn response_on_the_wire() {
    let mut response = HttpResponse::new();
    response.set_status(200);
    response.add_header("Content-Type", "text/html");
    response.add_header("Content-Length", "5");
    response.body = b"hello".to_vec();
    assert_eq!(
        response.to_bytes(),
        b"HTTP/1.1 200 OK\r\nContent-Type: text/html\r\nContent-Length: 5\r\n\r\nhello".to_vec()
    );
}

#[test]
fn new_response_is_empty() {
    let response = HttpResponse::new();
    assert_eq!(response.status_code, "");
    assert!(response.headers.is_empty());
    assert!(response.body.is_empty());
    assert_eq!(response.to_bytes(), b"\r\n\r\n".to_vec());
    let response = HttpResponse::default();
    assert_eq!(response.to_bytes(), b"\r\n\r\n".to_vec());
}

#[test]
fn status_lines() {
    let mut response = HttpResponse::new();
    response.set_status(200);
    assert_eq!(response.status_code, "HTTP/1.1 200 OK");
    response.set_status(404);
    assert_eq!(response.status_code, "HTTP/1.1 404 Not Found");
    response.set_status(100);
    assert_eq!(response.status_code, "HTTP/1.1 100 Continue");
    response.set_status(500);
    assert_eq!(response.status_code, "HTTP/1.1 500 Internal Server Error");
}

#[test]
fn status_without_reason_phrase() {
    let mut response = HttpResponse::new();
    response.set_status(999);
    assert_eq!(response.status_code, "HTTP/1.1 999 ");
    response.set_status(299);
    assert_eq!(response.status_code, "HTTP/1.1 299 ");
}

#[test]
fn status_line_from_its_parts() {
    assert_eq!(status_line("200", Some("OK".to_string())), "HTTP/1.1 200 OK");
    assert_eq!(status_line("718", None), "HTTP/1.1 718 ");
}

#[test]
fn set_status_leaves_headers_and_body() {
    let mut response = HttpResponse::new();
    response.add_header("A", "b");
    response.body = vec![1, 2, 3];
    response.set_status(204);
    assert_eq!(response.headers, vec![("A".to_string(), "b".to_string())]);
    assert_eq!(response.body, vec![1, 2, 3]);
    assert_eq!(response.status_code, "HTTP/1.1 204 No Content");
}

#[test]
fn headers_stand_in_the_order_added() {
    let mut response = HttpResponse::new();
    response.add_header("B", "1");
    response.add_header("A", "2");
    response.add_header("C", "3");
    assert_eq!(response.headers_to_string(), "\r\nB: 1\r\nA: 2\r\nC: 3\r\n\r\n");
}

#[test]
fn last_value_of_a_header_wins() {
    let mut response = HttpResponse::new();
    response.add_header("A", "1");
    response.add_header("B", "2");
    response.add_header("A", "3");
    assert_eq!(
        response.headers,
        vec![("A".to_string(), "3".to_string()), ("B".to_string(), "2".to_string())]
    );
}

#[test]
fn header_names_are_told_apart_by_case() {
    let mut response = HttpResponse::new();
    response.add_header("a", "1");
    response.add_header("A", "2");
    assert_eq!(response.headers.len(), 2);
}

#[test]
fn body_goes_out_unchanged() {
    let mut response = HttpResponse::new();
    response.set_status(200);
    response.body = vec![0, 255, 13, 10, 128];
    let mut expected = b"HTTP/1.1 200 OK\r\n\r\n".to_vec();
    expected.extend_from_slice(&[0, 255, 13, 10, 128]);
    assert_eq!(response.to_bytes(), expected);
}

#[test]
fn head_is_written_in_utf8() {
    let mut response = HttpResponse::new();
    response.add_header("X-Name", "caf\u{e9}");
    assert_eq!(response.to_bytes(), "\r\nX-Name: caf\u{e9}\r\n\r\n".as_bytes().to_vec());
}

#[test]
fn decimal_digits() {
    assert_eq!(decimal_string(0), "0");
    assert_eq!(decimal_string(5), "5");
    assert_eq!(decimal_string(10), "10");
    assert_eq!(decimal_string(1234567890), "1234567890");
    assert_eq!(decimal_string(usize::MAX), usize::MAX.to_string());
}

#[test]
fn response_for_a_resource_at_a_date() {
    let resource = resource(b"<p>hi</p>", "html", "text/html");
    let response = HttpResponse::from_resource_at(&resource, "Tue, 1 Jul 2003 10:52:37 +0000");
    assert_eq!(response.status_code, "HTTP/1.1 200 OK");
    assert_eq!(
        response.headers,
        vec![
            ("Content-Type".to_string(), "text/html".to_string()),
            ("Content-Length".to_string(), "9".to_string()),
            ("Server".to_string(), "Bifrost".to_string()),
            ("Date".to_string(), "Tue, 1 Jul 2003 10:52:37 +0000".to_string()),
        ]
    );
    assert_eq!(response.body, b"<p>hi</p>".to_vec());
}

#[test]
fn response_for_a_resource_now() {
    let resource = resource(b"body", "txt", "text/plain");
    let response = HttpResponse::from_resource(&resource);
    assert_eq!(response.status_code, "HTTP/1.1 200 OK");
    assert_eq!(response.headers.len(), 4);
    assert_eq!(response.headers[0], ("Content-Type".to_string(), "text/plain".to_string()));
    assert_eq!(response.headers[1], ("Content-Length".to_string(), "4".to_string()));
    assert_eq!(response.headers[2], ("Server".to_string(), "Bifrost".to_string()));
    assert_eq!(response.headers[3].0, "Date");
    let date = chrono::DateTime::parse_from_rfc2822(&response.headers[3].1).unwrap();
    let now = chrono::Utc::now();
    assert!((now.timestamp() - date.timestamp()).abs() < 60);
    assert_eq!(response.body, b"body".to_vec());
}

#[test]
fn resource_knows_whether_it_is_utf8() {
    assert!(resource(b"plain text", "txt", "text/plain").is_utf8());
    assert!(resource("caf\u{e9}".as_bytes(), "txt", "text/plain").is_utf8());
    assert!(resource(b"", "txt", "text/plain").is_utf8());
    assert!(!resource(&[0xff, 0xfe], "bin", "application/octet-stream").is_utf8());
    assert!(!resource(&[b'a', 0xc3], "bin", "application/octet-stream").is_utf8());
}

#[test]
fn resource_holds_what_it_was_given() {
    let r = resource(b"abc", "css", "text/css");
    assert_eq!(r.mime_type, "text/css");
    assert_eq!(r.file_ext, "css");
    assert_eq!(r.metadata.size, 3);
    assert_eq!(r.metadata.modified, Some(1_700_000_000));
    assert_eq!(r.file_data, b"abc".to_vec());
}
