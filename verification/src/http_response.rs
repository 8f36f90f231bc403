//! The response builder: status line, headers and body, and the bytes that
//! go on the wire.

use crate::http_resource::{HttpResource, HttpResourceView};
use crate::text::{option_view, pair_views, same_chars, to_chars};
use vstd::prelude::*;
use vstd::string::*;
use vstd::utf8::encode_utf8;

verus! {

/// A response. `status_code` holds the whole status line without its line
/// end. `headers` holds name and value of each header in the order in which
/// the names were first added.
pub struct HttpResponse {
    pub status_code: String,
    pub headers: Vec<(String, String)>,
    pub body: Vec<u8>,
}

/// What an `HttpResponse` holds, as mathematical values.
pub struct HttpResponseView {
    pub status_code: Seq<char>,
    pub headers: Seq<(Seq<char>, Seq<char>)>,
    pub body: Seq<u8>,
}

impl View for HttpResponse {
    type V = HttpResponseView;

    open spec fn view(&self) -> HttpResponseView {
        HttpResponseView {
            status_code: self.status_code@,
            headers: pair_views(self.headers@),
            body: self.body@,
        }
    }
}

/// The response with no status line, no header and no body.
pub open spec fn empty_response() -> HttpResponseView {
    HttpResponseView { status_code: Seq::empty(), headers: Seq::empty(), body: Seq::empty() }
}

/// The index of the first header at or after `from` whose name is `key`.
pub open spec fn header_index_from(
    headers: Seq<(Seq<char>, Seq<char>)>,
    key: Seq<char>,
    from: int,
) -> Option<int>
    decreases headers.len() - from,
{
    if from < 0 || from >= headers.len() {
        None
    } else if headers[from].0 == key {
        Some(from)
    } else {
        header_index_from(headers, key, from + 1)
    }
}

/// The headers after `key` has been given `value`: the header named `key`
/// has the new value in its old place, or, if there was none, a new header
/// stands at the end.
pub open spec fn put_header(
    headers: Seq<(Seq<char>, Seq<char>)>,
    key: Seq<char>,
    value: Seq<char>,
) -> Seq<(Seq<char>, Seq<char>)> {
    match header_index_from(headers, key, 0) {
        Some(i) => headers.update(i, (key, value)),
        None => headers.push((key, value)),
    }
}

/// Whether no two headers have the same name.
pub open spec fn distinct_names(headers: Seq<(Seq<char>, Seq<char>)>) -> bool {
    forall|i: int, j: int|
        0 <= i < headers.len() && 0 <= j < headers.len() && i != j ==> (#[trigger] headers[i]).0
            != (#[trigger] headers[j]).0
}

/// The digit `d` as a character.
pub open spec fn digit_char(d: int) -> char {
    if d == 0 {
        '0'
    } else if d == 1 {
        '1'
    } else if d == 2 {
        '2'
    } else if d == 3 {
        '3'
    } else if d == 4 {
        '4'
    } else if d == 5 {
        '5'
    } else if d == 6 {
        '6'
    } else if d == 7 {
        '7'
    } else if d == 8 {
        '8'
    } else {
        '9'
    }
}

/// The decimal digits of `n`, without leading zeros.
pub open spec fn decimal(n: nat) -> Seq<char>
    decreases n,
{
    if n < 10 {
        seq![digit_char(n as int)]
    } else {
        decimal(n / 10).push(digit_char((n % 10) as int))
    }
}

/// The reason phrase that `http::StatusCode::canonical_reason` gives for a
/// status code, if it knows one.
pub uninterp spec fn canonical_reason(code: u16) -> Option<Seq<char>>;

/// The status line, without its line end, for a code written as `digits`
/// and a reason phrase, which is left empty where there is none.
pub open spec fn status_line_with(digits: Seq<char>, reason: Option<Seq<char>>) -> Seq<char> {
    "HTTP/1.1 "@ + digits + " "@ + match reason {
        Some(phrase) => phrase,
        None => Seq::empty(),
    }
}

/// The reason phrase of a status code: `OK` for 200, `Not Found` for 404,
/// and for every other code what `http` gives for it.
pub open spec fn reason_phrase(code: u16) -> Option<Seq<char>> {
    if code == 200 {
        Some("OK"@)
    } else if code == 404 {
        Some("Not Found"@)
    } else {
        canonical_reason(code)
    }
}

/// The status line, without its line end, of a status code.
pub open spec fn status_line_of(code: u16) -> Seq<char> {
    status_line_with(decimal(code as nat), reason_phrase(code))
}

/// The header lines, each with its line end.
pub open spec fn header_lines(headers: Seq<(Seq<char>, Seq<char>)>) -> Seq<char>
    decreases headers.len(),
{
    if headers.len() == 0 {
        Seq::empty()
    } else {
        header_lines(headers.drop_last()) + headers.last().0 + ": "@ + headers.last().1 + "\r\n"@
    }
}

/// The head of a response: status line, header lines and the empty line.
pub open spec fn head_text(response: HttpResponseView) -> Seq<char> {
    response.status_code + "\r\n"@ + header_lines(response.headers) + "\r\n"@
}

/// The bytes of a response on the wire: the head in UTF-8, then the body as
/// it is.
pub open spec fn wire_bytes(response: HttpResponseView) -> Seq<u8> {
    encode_utf8(head_text(response)) + response.body
}

/// The headers of the response that serves a resource.
pub open spec fn resource_headers(resource: HttpResourceView, date: Seq<char>) -> Seq<
    (Seq<char>, Seq<char>),
> {
    put_header(
        put_header(
            put_header(
                put_header(Seq::empty(), "Content-Type"@, resource.mime_type),
                "Content-Length"@,
                decimal(resource.file_data.len()),
            ),
            "Server"@,
            "Bifrost"@,
        ),
        "Date"@,
        date,
    )
}

/// The response that serves a resource at the time written as `date`.
pub open spec fn resource_response(
    resource: HttpResourceView,
    date: Seq<char>,
) -> HttpResponseView {
    HttpResponseView {
        status_code: status_line_of(200),
        headers: resource_headers(resource, date),
        body: resource.file_data,
    }
}

/// `http::StatusCode::from_u16` accepts the codes from 100 to 999. Of the
/// status it returns, `as_str` gives the three decimal digits of the code, and
/// `canonical_reason` the reason phrase, if it knows one for the code: the
/// phrase depends on the code alone, and `canonical_reason` is its name here.
/// Its table has `OK` for 200 and `Not Found` for 404.
#[verifier::external_body]
fn status_text(code: u16) -> (text: (String, Option<String>))
    requires
        100 <= code <= 999,
    ensures
        text.0@ == decimal(code as nat),
        option_view(text.1) == canonical_reason(code),
        code == 200 ==> option_view(text.1) == Some("OK"@),
        code == 404 ==> option_view(text.1) == Some("Not Found"@),
{
    match http::StatusCode::from_u16(code) {
        Ok(status) => (
            status.as_str().to_string(),
            status.canonical_reason().map(|phrase| phrase.to_string()),
        ),
        Err(_) => (String::new(), None),
    }
}

/// `chrono::Utc::now` reads the system clock and `to_rfc2822` writes the time
/// as a date of RFC 2822. The text changes from call to call, so nothing is
/// said of it. Both expect a clock between the years 1970 and 9999.
#[verifier::external_body]
fn current_date() -> (date: String) {
    chrono::Utc::now().to_rfc2822()
}

/// The digit `d` as a character.
fn digit(d: usize) -> (c: char)
    requires
        d < 10,
    ensures
        c == digit_char(d as int),
{
    if d == 0 {
        '0'
    } else if d == 1 {
        '1'
    } else if d == 2 {
        '2'
    } else if d == 3 {
        '3'
    } else if d == 4 {
        '4'
    } else if d == 5 {
        '5'
    } else if d == 6 {
        '6'
    } else if d == 7 {
        '7'
    } else if d == 8 {
        '8'
    } else {
        '9'
    }
}

/// The decimal digits of `n`.
pub fn decimal_string(n: usize) -> (text: String)
    ensures
        text@ == decimal(n as nat),
    decreases n,
{
    if n < 10 {
        let mut text = String::new();
        text.push(digit(n));
        assert(text@ =~= seq![digit_char(n as int)]);
        text
    } else {
        let mut text = decimal_string(n / 10);
        text.push(digit(n % 10));
        text
    }
}

/// The status line, without its line end, for a code written as `digits` and
/// the reason phrase that goes with it.
pub fn status_line(digits: &str, reason: Option<String>) -> (line: String)
    ensures
        line@ == status_line_with(digits@, option_view(reason)),
{
    let mut line = String::new();
    line.append("HTTP/1.1 ");
    line.append(digits);
    line.append(" ");
    let ghost before = line@;
    match reason {
        Some(phrase) => {
            line.append(phrase.as_str());
        },
        None => {
            assert(line@ =~= before + Seq::<char>::empty());
        },
    }
    assert(line@ =~= status_line_with(digits@, option_view(reason)));
    line
}

impl HttpResponse {
    /// The response with no status line, no header and no body.
    pub fn new() -> (response: HttpResponse)
        ensures
            response@ == empty_response(),
            distinct_names(response@.headers),
    {
        let response = HttpResponse {
            status_code: String::new(),
            headers: Vec::new(),
            body: Vec::new(),
        };
        assert(response@.headers =~= Seq::empty());
        response
    }

    /// The response that serves a resource now: status 200, the headers
    /// `Content-Type`, `Content-Length`, `Server` and `Date`, and the
    /// resource's content as the body. The date is that of the system clock.
    pub fn from_resource(resource: &HttpResource) -> (response: HttpResponse)
        ensures
            exists|date: Seq<char>| response@ == resource_response(resource@, date),
            distinct_names(response@.headers),
    {
        let date = current_date();
        HttpResponse::from_resource_at(resource, date.as_str())
    }

    /// The response that serves a resource at the time written as `date`.
    pub fn from_resource_at(resource: &HttpResource, date: &str) -> (response: HttpResponse)
        ensures
            response@ == resource_response(resource@, date@),
            distinct_names(response@.headers),
    {
        let mut response = HttpResponse::new();
        response.add_header("Content-Type", resource.mime_type.as_str());
        response.add_header("Content-Length", decimal_string(resource.file_data.len()).as_str());
        response.add_header("Server", "Bifrost");
        response.add_header("Date", date);
        response.body = resource.file_data.clone();
        response.set_status(200);
        response
    }

    /// Gives the header named `key` the value `value`. A header of that name
    /// keeps its place and loses its old value; a new name goes to the end.
    pub fn add_header(&mut self, key: &str, value: &str)
        ensures
            final(self)@ == (HttpResponseView {
                headers: put_header(old(self)@.headers, key@, value@),
                ..old(self)@
            }),
            distinct_names(old(self)@.headers) ==> distinct_names(final(self)@.headers),
    {
        let ghost headers = self@.headers;
        let key_chars = to_chars(key);
        let mut i: usize = 0;
        while i < self.headers.len()
            invariant
                i <= self.headers.len(),
                key_chars@ == key@,
                *self == *old(self),
                headers == self@.headers,
                header_index_from(headers, key@, 0) == header_index_from(headers, key@, i as int),
            decreases self.headers.len() - i,
        {
            assert(headers[i as int].0 == self.headers@[i as int].0@);
            if same_chars(&to_chars(self.headers[i].0.as_str()), &key_chars) {
                self.headers.set(i, (String::from_str(key), String::from_str(value)));
                assert(self@.headers =~= headers.update(i as int, (key@, value@)));
                proof {
                    lemma_put_header_distinct(headers, key@, value@);
                }
                return;
            }
            i += 1;
        }
        self.headers.push((String::from_str(key), String::from_str(value)));
        assert(self@.headers =~= headers.push((key@, value@)));
        proof {
            lemma_put_header_distinct(headers, key@, value@);
        }
    }

    /// Sets the status line to that of a status code: `HTTP/1.1`, the code
    /// and its reason phrase.
    pub fn set_status(&mut self, code: u16)
        requires
            100 <= code <= 999,
        ensures
            final(self)@ == (HttpResponseView { status_code: status_line_of(code), ..old(self)@ }),
    {
        let text = status_text(code);
        self.status_code = status_line(text.0.as_str(), text.1);
    }

    /// The bytes of the response on the wire.
    pub fn to_bytes(&self) -> (data: Vec<u8>)
        ensures
            data@ == wire_bytes(self@),
    {
        let head = self.headers_to_string();
        let mut data = head.as_str().as_bytes_vec();
        let ghost head_bytes = data@;
        let mut i: usize = 0;
        while i < self.body.len()
            invariant
                i <= self.body.len(),
                data@ == head_bytes + self.body@.take(i as int),
            decreases self.body.len() - i,
        {
            data.push(self.body[i]);
            assert(self.body@.take(i + 1) =~= self.body@.take(i as int).push(self.body@[i as int]));
            i += 1;
        }
        assert(self.body@.take(self.body@.len() as int) =~= self.body@);
        data
    }

    /// The head of the response: the status line, each header as its name,
    /// `": "` and its value, and the empty line, each with its line end.
    pub fn headers_to_string(&self) -> (text: String)
        ensures
            text@ == head_text(self@),
    {
        let mut text = String::new();
        text.append(self.status_code.as_str());
        text.append("\r\n");
        let ghost start = text@;
        let ghost headers = self@.headers;
        let mut i: usize = 0;
        while i < self.headers.len()
            invariant
                i <= self.headers.len(),
                headers == self@.headers,
                text@ == start + header_lines(headers.take(i as int)),
            decreases self.headers.len() - i,
        {
            text.append(self.headers[i].0.as_str());
            text.append(": ");
            text.append(self.headers[i].1.as_str());
            text.append("\r\n");
            assert(headers.take(i + 1).drop_last() =~= headers.take(i as int));
            assert(headers.take(i + 1).last() == headers[i as int]);
            assert(headers[i as int] == (self.headers@[i as int].0@, self.headers@[i as int].1@));
            assert(text@ =~= start + header_lines(headers.take(i + 1)));
            i += 1;
        }
        assert(headers.take(headers.len() as int) =~= headers);
        text.append("\r\n");
        assert(text@ =~= head_text(self@));
        text
    }
}

impl Default for HttpResponse {
    fn default() -> (response: HttpResponse)
        ensures
            response@ == empty_response(),
            distinct_names(response@.headers),
    {
        HttpResponse::new()
    }
}

/// `header_index_from` returns the index of a header named `key`, and `None`
/// exactly when no header at or after `from` has that name.
pub proof fn lemma_header_index(headers: Seq<(Seq<char>, Seq<char>)>, key: Seq<char>, from: int)
    requires
        0 <= from,
    ensures
        match header_index_from(headers, key, from) {
            Some(i) => from <= i < headers.len() && headers[i].0 == key,
            None => forall|j: int| from <= j < headers.len() ==> headers[j].0 != key,
        },
    decreases headers.len() - from,
{
    if from < headers.len() && headers[from].0 != key {
        lemma_header_index(headers, key, from + 1);
    }
}

/// Headers with distinct names have distinct names after `put_header`.
pub proof fn lemma_put_header_distinct(
    headers: Seq<(Seq<char>, Seq<char>)>,
    key: Seq<char>,
    value: Seq<char>,
)
    ensures
        distinct_names(headers) ==> distinct_names(put_header(headers, key, value)),
{
    lemma_header_index(headers, key, 0);
}

/// The value of the header named `key`, if there is one.
pub open spec fn header_value(headers: Seq<(Seq<char>, Seq<char>)>, key: Seq<char>) -> Option<
    Seq<char>,
> {
    match header_index_from(headers, key, 0) {
        Some(i) => Some(headers[i].1),
        None => None,
    }
}

/// Headers with the same names in the same places have a name in the same
/// place.
proof fn lemma_index_same_names(
    a: Seq<(Seq<char>, Seq<char>)>,
    b: Seq<(Seq<char>, Seq<char>)>,
    key: Seq<char>,
    from: int,
)
    requires
        a.len() == b.len(),
        forall|j: int| 0 <= j < a.len() ==> a[j].0 == b[j].0,
    ensures
        header_index_from(a, key, from) == header_index_from(b, key, from),
    decreases a.len() - from,
{
    if 0 <= from < a.len() && a[from].0 != key {
        lemma_index_same_names(a, b, key, from + 1);
    }
}

/// A header put at the end is found where no header before it has its name.
proof fn lemma_index_push(
    headers: Seq<(Seq<char>, Seq<char>)>,
    header: (Seq<char>, Seq<char>),
    key: Seq<char>,
    from: int,
)
    requires
        0 <= from <= headers.len(),
    ensures
        header_index_from(headers.push(header), key, from) == match header_index_from(
            headers,
            key,
            from,
        ) {
            Some(i) => Some(i),
            None => if header.0 == key {
                Some(headers.len() as int)
            } else {
                None
            },
        },
    decreases headers.len() - from,
{
    let pushed = headers.push(header);
    if from < headers.len() {
        assert(pushed[from] == headers[from]);
        if headers[from].0 != key {
            lemma_index_push(headers, header, key, from + 1);
        }
    } else {
        assert(pushed[from] == header);
        assert(header_index_from(pushed, key, from + 1) is None);
    }
}

/// The headers are a mapping: after `put_header` the header named `key` has
/// the value `value`, and every other name has the value it had or, as
/// before, none.
pub proof fn lemma_put_header(
    headers: Seq<(Seq<char>, Seq<char>)>,
    key: Seq<char>,
    value: Seq<char>,
    other: Seq<char>,
)
    ensures
        header_value(put_header(headers, key, value), key) == Some(value),
        other != key ==> header_value(put_header(headers, key, value), other) == header_value(
            headers,
            other,
        ),
{
    let after = put_header(headers, key, value);
    lemma_header_index(headers, key, 0);
    lemma_header_index(headers, other, 0);
    match header_index_from(headers, key, 0) {
        Some(i) => {
            lemma_index_same_names(headers, after, key, 0);
            lemma_index_same_names(headers, after, other, 0);
        },
        None => {
            lemma_index_push(headers, (key, value), key, 0);
            lemma_index_push(headers, (key, value), other, 0);
        },
    }
}

} // verus!
