//! The request parser: from the lines of a request's head to a `Request`.

use crate::http_parse_error::{HttpParseError, ParseFailure};
use crate::text::{
    chars_to_string, find, find_chars, lemma_find_from, option_view, pair_views, same_chars, split,
    split_chars, string_views, to_chars, views,
};
use vstd::prelude::*;
use vstd::string::*;

verus! {

/// The HTTP versions that a request line may name.
#[derive(Debug, Clone, Copy, PartialEq, Eq, Structural)]
pub enum Version {
    Http09,
    Http10,
    Http11,
    Http2,
    Http3,
}

/// A parsed request.
#[derive(Debug, Clone)]
pub struct Request {
    /// The method token, as it stood in the request line.
    pub method: String,
    /// The path of the target.
    pub path: String,
    /// The query of the target, without the question mark, if it has one.
    pub query: Option<String>,
    pub version: Version,
    /// Name and value of each header line, in the order of the lines.
    pub headers: Vec<(String, String)>,
}

/// What a `Request` holds, as mathematical values.
pub struct RequestView {
    pub method: Seq<char>,
    pub path: Seq<char>,
    pub query: Option<Seq<char>>,
    pub version: Version,
    pub headers: Seq<(Seq<char>, Seq<char>)>,
}

impl View for Request {
    type V = RequestView;

    open spec fn view(&self) -> RequestView {
        RequestView {
            method: self.method@,
            path: self.path@,
            query: option_view(self.query),
            version: self.version,
            headers: pair_views(self.headers@),
        }
    }
}

/// The outcome of parsing, as mathematical values.
pub open spec fn outcome_view(r: Result<Request, HttpParseError>) -> Result<
    RequestView,
    ParseFailure,
> {
    match r {
        Ok(request) => Ok(request@),
        Err(error) => Err(error@),
    }
}

/// The characters of which a method token is made: letters, digits and
/// ``! # $ % & ' * + - . ^ _ ` | ~``.
pub open spec fn is_method_char(c: char) -> bool {
    ||| 'a' <= c <= 'z'
    ||| 'A' <= c <= 'Z'
    ||| '0' <= c <= '9'
    ||| c == '!'
    ||| c == '#'
    ||| c == '$'
    ||| c == '%'
    ||| c == '&'
    ||| c == '\''
    ||| c == '*'
    ||| c == '+'
    ||| c == '-'
    ||| c == '.'
    ||| c == '^'
    ||| c == '_'
    ||| c == '`'
    ||| c == '|'
    ||| c == '~'
}

/// A method token is one or more method characters.
pub open spec fn is_method_token(token: Seq<char>) -> bool {
    &&& token.len() > 0
    &&& forall|i: int| 0 <= i < token.len() ==> is_method_char(#[trigger] token[i])
}

/// The version that a version token names, if it names one.
pub open spec fn version_of(token: Seq<char>) -> Option<Version> {
    if token == "HTTP/0.9"@ {
        Some(Version::Http09)
    } else if token == "HTTP/1.0"@ {
        Some(Version::Http10)
    } else if token == "HTTP/1.1"@ {
        Some(Version::Http11)
    } else if token == "HTTP/2.0"@ {
        Some(Version::Http2)
    } else if token == "HTTP/3.0"@ {
        Some(Version::Http3)
    } else {
        None
    }
}

/// What `http::Uri` makes of a target: its path and its query, or the text of
/// the error with which it refuses the target.
pub uninterp spec fn uri_parts(target: Seq<char>) -> Result<
    (Seq<char>, Option<Seq<char>>),
    Seq<char>,
>;

/// The two characters that part a header's name from its value.
pub open spec fn header_separator() -> Seq<char> {
    seq![':', ' ']
}

/// Name and value of a header line: what stands before and after the first
/// `": "`. A line without it is both the name and the value.
pub open spec fn header_of(line: Seq<char>) -> (Seq<char>, Seq<char>) {
    match find(line, header_separator()) {
        Some(i) => (line.take(i), line.skip(i + 2)),
        None => (line, line),
    }
}

/// The headers of a request whose head is `lines`: one for each line after
/// the first, in the same order.
pub open spec fn headers_of(lines: Seq<Seq<char>>) -> Seq<(Seq<char>, Seq<char>)> {
    if lines.len() == 0 {
        Seq::empty()
    } else {
        lines.skip(1).map_values(|line: Seq<char>| header_of(line))
    }
}

/// The tokens of a request line: its pieces between single spaces.
pub open spec fn request_tokens(line: Seq<char>) -> Seq<Seq<char>> {
    split(line, seq![' '])
}

/// The request with the given method and version, once `http::Uri` has given
/// `target` for the target token.
pub open spec fn request_with(
    method: Seq<char>,
    version: Version,
    target: Result<(Seq<char>, Option<Seq<char>>), Seq<char>>,
    lines: Seq<Seq<char>>,
) -> Result<RequestView, ParseFailure> {
    match target {
        Ok(parts) => Ok(
            RequestView {
                method: method,
                path: parts.0,
                query: parts.1,
                version: version,
                headers: headers_of(lines),
            },
        ),
        Err(text) => Err(ParseFailure::OtherError(text)),
    }
}

/// What parsing the head `lines` gives.
///
/// The first line is the request line. It is split at each single space, and
/// must have at least three tokens: method, target and version, of which the
/// method is checked first, then the version, then the target. Tokens after
/// the third are ignored. Each further line is one header.
pub open spec fn parse_request(lines: Seq<Seq<char>>) -> Result<RequestView, ParseFailure> {
    if lines.len() == 0 {
        Err(ParseFailure::ParseError)
    } else {
        let tokens = request_tokens(lines[0]);
        if tokens.len() < 3 {
            Err(ParseFailure::ParseError)
        } else if !is_method_token(tokens[0]) {
            Err(ParseFailure::OtherError(invalid_method_message()))
        } else {
            match version_of(tokens[2]) {
                None => Err(ParseFailure::ParseError),
                Some(version) => request_with(tokens[0], version, uri_parts(tokens[1]), lines),
            }
        }
    }
}

/// What `http::Uri` made of a target, as mathematical values.
pub open spec fn target_view(target: Result<(String, Option<String>), String>) -> Result<
    (Seq<char>, Option<Seq<char>>),
    Seq<char>,
> {
    match target {
        Ok(parts) => Ok((parts.0@, option_view(parts.1))),
        Err(text) => Err(text@),
    }
}

/// The message of `http` for a method token that it refuses.
pub open spec fn invalid_method_message() -> Seq<char> {
    "invalid HTTP method"@
}

/// `http::Method::from_bytes` accepts exactly the non-empty texts made of
/// method characters, and `as_str` of the method it returns is the text given.
/// `Display` of its error writes one fixed message.
#[verifier::external_body]
fn method_from_token(token: &str) -> (r: Result<String, String>)
    ensures
        r is Ok <==> is_method_token(token@),
        r matches Ok(method) ==> method@ == token@,
        r matches Err(message) ==> message@ == invalid_method_message(),
{
    match http::Method::from_bytes(token.as_bytes()) {
        Ok(method) => Ok(method.as_str().to_string()),
        Err(error) => Err(error.to_string()),
    }
}

/// `http::Uri::from_str`, with `path` and `query` of the `Uri` it returns, or
/// with what `Display` writes for its error. All of it depends on the target
/// alone, and `uri_parts` is the name of it.
#[verifier::external_body]
fn parse_target(target: &str) -> (r: Result<(String, Option<String>), String>)
    ensures
        target_view(r) == uri_parts(target@),
{
    match target.parse::<http::Uri>() {
        Ok(uri) => Ok((uri.path().to_string(), uri.query().map(|q| q.to_string()))),
        Err(error) => Err(error.to_string()),
    }
}

/// The version that a version token names, if it names one.
pub fn version_from_token(token: &Vec<char>) -> (r: Option<Version>)
    ensures
        r == version_of(token@),
{
    if same_chars(token, &to_chars("HTTP/0.9")) {
        Some(Version::Http09)
    } else if same_chars(token, &to_chars("HTTP/1.0")) {
        Some(Version::Http10)
    } else if same_chars(token, &to_chars("HTTP/1.1")) {
        Some(Version::Http11)
    } else if same_chars(token, &to_chars("HTTP/2.0")) {
        Some(Version::Http2)
    } else if same_chars(token, &to_chars("HTTP/3.0")) {
        Some(Version::Http3)
    } else {
        None
    }
}

/// Name and value of one header line.
pub fn parse_header(line: &str) -> (r: (String, String))
    ensures
        (r.0@, r.1@) == header_of(line@),
{
    let chars = to_chars(line);
    let separator: Vec<char> = vec![':', ' '];
    assert(separator@ =~= header_separator());
    proof {
        lemma_find_from(chars@, separator@, 0);
    }
    match find_chars(&chars, &separator, 0) {
        Some(i) => {
            let name = chars_to_string(&chars, 0, i);
            let value = chars_to_string(&chars, i + 2, chars.len());
            (name, value)
        },
        None => {
            let name = chars_to_string(&chars, 0, chars.len());
            let value = chars_to_string(&chars, 0, chars.len());
            assert(chars@.subrange(0, chars@.len() as int) =~= chars@);
            (name, value)
        },
    }
}

/// The headers of a request whose head is `http_packet`.
pub fn parse_headers(http_packet: &Vec<String>) -> (headers: Vec<(String, String)>)
    ensures
        pair_views(headers@) == headers_of(string_views(http_packet@)),
{
    let mut headers: Vec<(String, String)> = Vec::new();
    let ghost lines = string_views(http_packet@);
    let mut i: usize = 1;
    while i < http_packet.len()
        invariant
            1 <= i,
            http_packet.len() >= 1 ==> i <= http_packet.len(),
            lines == string_views(http_packet@),
            i <= http_packet.len() ==> pair_views(headers@) == headers_of(lines).take(i - 1),
            i > http_packet.len() ==> headers@.len() == 0,
        decreases http_packet.len() - i,
    {
        let header = parse_header(http_packet[i].as_str());
        let ghost before = pair_views(headers@);
        headers.push(header);
        assert(pair_views(headers@) =~= before.push((header.0@, header.1@)));
        assert(headers_of(lines).take(i as int) =~= headers_of(lines).take(i - 1).push(
            header_of(lines[i as int]),
        ));
        i += 1;
    }
    assert(pair_views(headers@) =~= headers_of(lines));
    headers
}

/// The request with the given method and version, once the target has been
/// handed to `http::Uri`: the error if it refused the target, else the request
/// with the target's path and query and the headers of `http_packet`.
pub fn request_with_target(
    method: String,
    version: Version,
    target: Result<(String, Option<String>), String>,
    http_packet: &Vec<String>,
) -> (r: Result<Request, HttpParseError>)
    ensures
        outcome_view(r) == request_with(
            method@,
            version,
            target_view(target),
            string_views(http_packet@),
        ),
{
    match target {
        Ok(parts) => {
            let headers = parse_headers(http_packet);
            Ok(
                Request {
                    method: method,
                    path: parts.0,
                    query: parts.1,
                    version: version,
                    headers: headers,
                },
            )
        },
        Err(message) => Err(HttpParseError::OtherError(message)),
    }
}

/// Parses the head of a request, given as its lines without their line ends.
pub fn parse_http_packet(http_packet: Vec<String>) -> (r: Result<Request, HttpParseError>)
    ensures
        outcome_view(r) == parse_request(string_views(http_packet@)),
{
    if http_packet.len() == 0 {
        return Err(HttpParseError::ParseError);
    }
    let ghost lines = string_views(http_packet@);
    let first_line = to_chars(http_packet[0].as_str());
    let space: Vec<char> = vec![' '];
    assert(space@ =~= seq![' ']);
    let tokens = split_chars(&first_line, &space);
    assert(views(tokens@) == request_tokens(lines[0]));
    if tokens.len() < 3 {
        return Err(HttpParseError::ParseError);
    }
    assert(views(tokens@)[0] == tokens@[0]@);
    assert(views(tokens@)[1] == tokens@[1]@);
    assert(views(tokens@)[2] == tokens@[2]@);
    let method_token = chars_to_string(&tokens[0], 0, tokens[0].len());
    assert(method_token@ =~= tokens@[0]@);
    let method = match method_from_token(method_token.as_str()) {
        Ok(method) => method,
        Err(message) => {
            return Err(HttpParseError::OtherError(message));
        },
    };
    let version = match version_from_token(&tokens[2]) {
        Some(version) => version,
        None => {
            return Err(HttpParseError::ParseError);
        },
    };
    let target_token = chars_to_string(&tokens[1], 0, tokens[1].len());
    assert(target_token@ =~= tokens@[1]@);
    let target = parse_target(target_token.as_str());
    request_with_target(method, version, target, &http_packet)
}

/// A head whose request line has fewer than three tokens is refused as
/// malformed, and so is a head without any line.
pub proof fn lemma_few_tokens_fail(lines: Seq<Seq<char>>)
    requires
        lines.len() == 0 || request_tokens(lines[0]).len() < 3,
    ensures
        parse_request(lines) == Err::<RequestView, ParseFailure>(ParseFailure::ParseError),
{
}

/// A head whose request line names no supported version is refused,
/// whatever its method, its target and its headers are.
pub proof fn lemma_unsupported_version_fails(lines: Seq<Seq<char>>)
    requires
        lines.len() > 0,
        request_tokens(lines[0]).len() >= 3,
        version_of(request_tokens(lines[0])[2]) is None,
    ensures
        parse_request(lines) is Err,
{
}

/// A head is accepted exactly when it has a request line of three tokens or
/// more, of which the first is a method token, the third names a supported
/// version, and the second is a target that `http::Uri` accepts.
pub proof fn lemma_accepted(lines: Seq<Seq<char>>)
    ensures
        parse_request(lines) is Ok <==> {
            &&& lines.len() > 0
            &&& request_tokens(lines[0]).len() >= 3
            &&& is_method_token(request_tokens(lines[0])[0])
            &&& version_of(request_tokens(lines[0])[2]) is Some
            &&& uri_parts(request_tokens(lines[0])[1]) is Ok
        },
{
}

} // verus!
