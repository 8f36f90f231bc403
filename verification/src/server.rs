//! What the server answers to one connection.

use crate::framer::{framed_text, read_stream};
use crate::http_parse_error::{HttpParseError, ParseFailure};
use crate::http_request::{parse_http_packet, parse_request, Request, RequestView};
use crate::http_resource::{HttpResource, HttpResourceView};
use crate::http_response::{
    decimal, decimal_string, empty_response, put_header, status_line_of, wire_bytes, HttpResponse,
    HttpResponseView,
};
use crate::route_table::RouteTable;
use crate::text::string_views;
use vstd::prelude::*;
use vstd::string::*;

verus! {

/// Why a connection got no answer.
#[derive(Debug, Clone)]
pub enum ConnectionError {
    /// The connection ended before the empty line that ends a request's head.
    FramingFailure,
    /// The head is not a request.
    ParseFailure(HttpParseError),
}

/// What a `ConnectionError` holds, as mathematical values.
pub enum ConnectionFailure {
    FramingFailure,
    ParseFailure(ParseFailure),
}

impl View for ConnectionError {
    type V = ConnectionFailure;

    open spec fn view(&self) -> ConnectionFailure {
        match self {
            ConnectionError::FramingFailure => ConnectionFailure::FramingFailure,
            ConnectionError::ParseFailure(error) => ConnectionFailure::ParseFailure(error@),
        }
    }
}

/// The response that carries a resource: the status line of `status_code`,
/// the headers `Content-Type` and `Content-Length`, and the content.
pub open spec fn resource_reply(
    resource: HttpResourceView,
    mimetype: Seq<char>,
    status_code: u16,
) -> HttpResponseView {
    HttpResponseView {
        status_code: status_line_of(status_code),
        headers: put_header(
            put_header(Seq::empty(), "Content-Type"@, mimetype),
            "Content-Length"@,
            decimal(resource.file_data.len()),
        ),
        body: resource.file_data,
    }
}

/// The response to a request for a path that has no route: status 404 and
/// an empty body.
pub open spec fn not_found_reply() -> HttpResponseView {
    HttpResponseView {
        status_code: status_line_of(404),
        headers: put_header(Seq::empty(), "Content-Length"@, decimal(0)),
        body: Seq::empty(),
    }
}

/// The bytes that answer a request: the resource at the request's path with
/// status 200, or the 404 response where the path has no route.
pub open spec fn reply_to(request: RequestView, routes: Map<Seq<char>, HttpResourceView>) -> Seq<
    u8,
> {
    if routes.contains_key(request.path) {
        wire_bytes(resource_reply(routes[request.path], routes[request.path].mime_type, 200))
    } else {
        wire_bytes(not_found_reply())
    }
}

/// The bytes that answer the head `lines`, or why it is no request.
pub open spec fn reply_to_lines(
    lines: Seq<Seq<char>>,
    routes: Map<Seq<char>, HttpResourceView>,
) -> Result<Seq<u8>, ParseFailure> {
    match parse_request(lines) {
        Ok(request) => Ok(reply_to(request, routes)),
        Err(failure) => Err(failure),
    }
}

/// The bytes that answer what a connection sent, or why it gets no answer.
pub open spec fn reply_to_stream(
    stream: Seq<u8>,
    routes: Map<Seq<char>, HttpResourceView>,
) -> Result<Seq<u8>, ConnectionFailure> {
    match framed_text(stream) {
        None => Err(ConnectionFailure::FramingFailure),
        Some(lines) => match reply_to_lines(lines, routes) {
            Ok(data) => Ok(data),
            Err(failure) => Err(ConnectionFailure::ParseFailure(failure)),
        },
    }
}

/// The bytes of the response that carries a resource.
pub fn build_res(http_resource: &HttpResource, mimetype: String, status_code: u16) -> (data: Vec<
    u8,
>)
    requires
        100 <= status_code <= 999,
    ensures
        data@ == wire_bytes(resource_reply(http_resource@, mimetype@, status_code)),
{
    let mut res = HttpResponse::new();
    res.set_status(status_code);
    res.add_header("Content-Type", mimetype.as_str());
    res.add_header("Content-Length", decimal_string(http_resource.file_data.len()).as_str());
    res.body = http_resource.file_data.clone();
    res.to_bytes()
}

/// The bytes of the response to a request for a path that has no route.
pub fn build_not_found() -> (data: Vec<u8>)
    ensures
        data@ == wire_bytes(not_found_reply()),
{
    let mut res = HttpResponse::new();
    res.set_status(404);
    res.add_header("Content-Length", decimal_string(0).as_str());
    res.to_bytes()
}

/// The bytes that answer a request.
pub fn respond(request: &Request, routing_table: &RouteTable) -> (data: Vec<u8>)
    ensures
        data@ == reply_to(request@, routing_table@),
{
    match routing_table.get(request.path.as_str()) {
        Some(resource) => build_res(resource, resource.mime_type.clone(), 200),
        None => build_not_found(),
    }
}

/// The bytes that answer the head of a request, given as its lines, or the
/// reason for which the head is no request.
pub fn handle_request(http_request: Vec<String>, routing_table: &RouteTable) -> (r: Result<
    Vec<u8>,
    HttpParseError,
>)
    ensures
        match r {
            Ok(data) => reply_to_lines(string_views(http_request@), routing_table@) == Ok::<
                Seq<u8>,
                ParseFailure,
            >(data@),
            Err(error) => reply_to_lines(string_views(http_request@), routing_table@) == Err::<
                Seq<u8>,
                ParseFailure,
            >(error@),
        },
{
    match parse_http_packet(http_request) {
        Ok(request) => Ok(respond(&request, routing_table)),
        Err(error) => Err(error),
    }
}

/// The bytes that answer what a connection sent, or the reason for which the
/// connection gets no answer.
pub fn handle_connection(stream: &[u8], routing_table: &RouteTable) -> (r: Result<
    Vec<u8>,
    ConnectionError,
>)
    ensures
        match r {
            Ok(data) => reply_to_stream(stream@, routing_table@) == Ok::<
                Seq<u8>,
                ConnectionFailure,
            >(data@),
            Err(error) => reply_to_stream(stream@, routing_table@) == Err::<
                Seq<u8>,
                ConnectionFailure,
            >(error@),
        },
{
    match read_stream(stream) {
        None => Err(ConnectionError::FramingFailure),
        Some(lines) => match handle_request(lines, routing_table) {
            Ok(data) => Ok(data),
            Err(error) => Err(ConnectionError::ParseFailure(error)),
        },
    }
}

} // verus!
