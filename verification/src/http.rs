//! Blocking HTTP GET through `reqwest`, with browser-like request headers and
//! a hard cap on how much of a response body is read into memory.

use vstd::prelude::*;
use std::time::Duration;
use crate::text::{chars_of, chars_eq_ignore_ascii_case, eq_ignore_ascii_case};

verus! {

/// `reqwest::blocking::ClientBuilder`, carried opaquely.
#[verifier::external_type_specification]
#[verifier::external_body]
pub struct ExClientBuilder(reqwest::blocking::ClientBuilder);

/// `reqwest::blocking::Client`, carried opaquely.
#[verifier::external_type_specification]
#[verifier::external_body]
pub struct ExClient(reqwest::blocking::Client);

/// `reqwest::blocking::RequestBuilder`, carried opaquely.
#[verifier::external_type_specification]
#[verifier::external_body]
pub struct ExRequestBuilder(reqwest::blocking::RequestBuilder);

/// `reqwest::blocking::Response`, carried opaquely.
#[verifier::external_type_specification]
#[verifier::external_body]
pub struct ExResponse(reqwest::blocking::Response);

/// `reqwest::Error`, carried opaquely.
#[verifier::external_type_specification]
#[verifier::external_body]
pub struct ExReqwestError(reqwest::Error);

/// `std::io::Error`, carried opaquely.
#[verifier::external_type_specification]
#[verifier::external_body]
pub struct ExIoError(std::io::Error);

/// How many redirects a request follows before giving up.
pub const MAX_REDIRECTS: usize = 10;

/// The `User-Agent` sent by [`RequestHeaders::browser`].
pub open spec fn browser_user_agent() -> Seq<char> {
    "Mozilla/5.0 (X11; Linux x86_64) AppleWebKit/537.36 Chrome/120 Safari/537.36"@
}

/// The `Accept` sent by [`RequestHeaders::browser`].
pub open spec fn browser_accept() -> Seq<char> {
    "text/html,application/xhtml+xml,application/xml;q=0.9,image/*,*/*;q=0.8"@
}

/// The two identity headers sent with every request.
#[derive(Debug)]
pub struct RequestHeaders {
    user_agent: String,
    accept: String,
}

impl RequestHeaders {
    pub closed spec fn user_agent_view(&self) -> Seq<char> {
        self.user_agent@
    }

    pub closed spec fn accept_view(&self) -> Seq<char> {
        self.accept@
    }

    /// Headers that look like a desktop Chromium, so that sites serve their
    /// regular page rather than a bot or mobile variant.
    pub fn browser() -> (h: Self)
        ensures
            h.user_agent_view() == browser_user_agent(),
            h.accept_view() == browser_accept(),
    {
        RequestHeaders {
            user_agent: "Mozilla/5.0 (X11; Linux x86_64) AppleWebKit/537.36 Chrome/120 Safari/537.36".to_string(),
            accept: "text/html,application/xhtml+xml,application/xml;q=0.9,image/*,*/*;q=0.8".to_string(),
        }
    }

    pub fn user_agent(&self) -> (r: &str)
        ensures
            r@ == self.user_agent_view(),
    {
        self.user_agent.as_str()
    }

    pub fn accept(&self) -> (r: &str)
        ensures
            r@ == self.accept_view(),
    {
        self.accept.as_str()
    }
}

impl Clone for RequestHeaders {
    fn clone(&self) -> (r: Self)
        ensures
            r.user_agent_view() == self.user_agent_view(),
            r.accept_view() == self.accept_view(),
    {
        RequestHeaders { user_agent: self.user_agent.clone(), accept: self.accept.clone() }
    }
}

/// A fully read response.
#[derive(Debug)]
pub struct ByteResponse {
    pub status: u16,
    pub final_url: String,
    pub content_type: Option<String>,
    pub bytes: Vec<u8>,
}

/// The outcome of a request whose body is not read.
#[derive(Debug)]
pub struct StreamResponse {
    pub status: u16,
    pub final_url: String,
}

/// Why a request failed.
#[derive(Debug)]
pub enum HttpError {
    /// The HTTP client could not be set up (TLS backend, resolver).
    Client(String),
    /// The request to `url` could not be built or sent, or no response came.
    Transport { url: String, detail: String },
    /// Reading the response body failed part way.
    Body(String),
    /// The body is longer than the given number of bytes.
    TooLarge(u64),
    /// The header of this name has an invalid name or value; nothing was sent.
    InvalidHeader(String),
}

// ---------------------------------------------------------------------------
// Header validity

/// A token character, which a header name is made of: an ASCII letter or
/// digit, or one of ``!#$%&'*+-.^_`|~``.
pub open spec fn header_name_char(c: char) -> bool {
    ||| 'a' <= c <= 'z'
    ||| 'A' <= c <= 'Z'
    ||| '0' <= c <= '9'
    ||| c == '!' || c == '#' || c == '$' || c == '%' || c == '&' || c == '\''
    ||| c == '*' || c == '+' || c == '-' || c == '.' || c == '^' || c == '_'
    ||| c == '`' || c == '|' || c == '~'
}

/// A name `HeaderName::from_bytes` accepts: 1 to 65535 token characters
/// (all ASCII, so as many bytes).
pub open spec fn header_name_valid(name: Seq<char>) -> bool {
    &&& 1 <= name.len() <= 65535
    &&& forall|i: int| 0 <= i < name.len() ==> header_name_char(#[trigger] name[i])
}

/// A value `HeaderValue::from_str` accepts: no control character but tab,
/// and no DEL.
pub open spec fn header_value_ok(value: Seq<char>) -> bool {
    forall|i: int|
        0 <= i < value.len() ==> #[trigger] value[i] == '\t' || (32 <= (value[i] as int) && (value[i]
            as int) != 127)
}

/// A header with a valid name and value.
pub open spec fn header_pair_ok(pair: (Seq<char>, Seq<char>)) -> bool {
    header_name_valid(pair.0) && header_value_ok(pair.1)
}

/// Every extra header has a valid name and value.
pub open spec fn extra_headers_ok(extra: Seq<(Seq<char>, Seq<char>)>) -> bool {
    forall|i: int| 0 <= i < extra.len() ==> header_pair_ok(#[trigger] extra[i])
}

/// Every header a request would carry is valid: the two identity values and
/// each extra header.
pub open spec fn request_headers_ok(
    user_agent: Seq<char>,
    accept: Seq<char>,
    extra: Seq<(Seq<char>, Seq<char>)>,
) -> bool {
    header_value_ok(user_agent) && header_value_ok(accept) && extra_headers_ok(extra)
}

/// `reqwest::header::HeaderName::from_bytes(name.as_bytes()).is_ok()`.
/// `from_bytes` rejects an empty name, one longer than 65535 bytes, and one
/// holding a byte that its `HEADER_CHARS` table maps to 0: every byte but
/// the token characters, all bytes of 128 or more among them.
#[verifier::external_body]
fn valid_header_name(name: &str) -> (b: bool)
    ensures
        b == header_name_valid(name@),
{
    reqwest::header::HeaderName::from_bytes(name.as_bytes()).is_ok()
}

/// `reqwest::header::HeaderValue::from_str(value).is_ok()`. `from_str`
/// rejects a byte below 32 other than tab, and 127; the UTF-8 bytes of a
/// character outside ASCII are all 128 or more, so this is a condition on
/// the characters.
#[verifier::external_body]
fn valid_header_value(value: &str) -> (b: bool)
    ensures
        b == header_value_ok(value@),
{
    reqwest::header::HeaderValue::from_str(value).is_ok()
}

/// Checks the headers a request would carry before anything is sent: the
/// `User-Agent` and `Accept` values, then each extra name and value in
/// order. The error names the first invalid header.
pub fn check_request_headers(headers: &RequestHeaders, extra_headers: &[(&str, &str)]) -> (r: Result<(), HttpError>)
    ensures
        r is Ok <==> request_headers_ok(headers.user_agent_view(), headers.accept_view(), pair_views(extra_headers@)),
        r matches Err(e) ==> e is InvalidHeader,
{
    if !valid_header_value(headers.user_agent.as_str()) {
        return Err(HttpError::InvalidHeader("user-agent".to_string()));
    }
    if !valid_header_value(headers.accept.as_str()) {
        return Err(HttpError::InvalidHeader("accept".to_string()));
    }
    let ghost e = pair_views(extra_headers@);
    let mut k: usize = 0;
    while k < extra_headers.len()
        invariant
            0 <= k <= extra_headers.len(),
            e == pair_views(extra_headers@),
            e.len() == extra_headers@.len(),
            header_value_ok(headers.user_agent_view()) && header_value_ok(headers.accept_view()),
            forall|i: int| 0 <= i < k ==> header_pair_ok(#[trigger] e[i]),
        decreases extra_headers.len() - k,
    {
        let (name, value) = extra_headers[k];
        if !valid_header_name(name) || !valid_header_value(value) {
            proof {
                assert(e[k as int] == (name@, value@));
                assert(!header_pair_ok(e[k as int]));
            }
            return Err(HttpError::InvalidHeader(name.to_string()));
        }
        assert(header_pair_ok(e[k as int]));
        k = k + 1;
    }
    Ok(())
}

// ---------------------------------------------------------------------------
// Header list

/// Header names compare without regard to ASCII case.
pub open spec fn same_header_name(a: Seq<char>, b: Seq<char>) -> bool {
    eq_ignore_ascii_case(a, b)
}

/// Sets `(name, value)` in a header list: replaces the value of the first
/// entry with the same name, or appends the pair.
pub open spec fn set_header(
    list: Seq<(Seq<char>, Seq<char>)>,
    name: Seq<char>,
    value: Seq<char>,
) -> Seq<(Seq<char>, Seq<char>)> {
    if exists|i: int| 0 <= i < list.len() && same_header_name(#[trigger] list[i].0, name) {
        let i = choose|i: int| 0 <= i < list.len() && same_header_name(#[trigger] list[i].0, name)
            && forall|j: int| 0 <= j < i ==> !same_header_name(#[trigger] list[j].0, name);
        list.update(i, (list[i].0, value))
    } else {
        list.push((name, value))
    }
}

/// `extra[0..n]` set in turn on top of `base`.
pub open spec fn set_headers(
    base: Seq<(Seq<char>, Seq<char>)>,
    extra: Seq<(Seq<char>, Seq<char>)>,
) -> Seq<(Seq<char>, Seq<char>)>
    decreases extra.len(),
{
    if extra.len() == 0 {
        base
    } else {
        let last = extra.last();
        set_header(set_headers(base, extra.drop_last()), last.0, last.1)
    }
}

/// The headers a request carries: `User-Agent` and `Accept` from `headers`,
/// then each extra header, a later one replacing an earlier one of the same
/// name.
pub open spec fn request_header_list(
    user_agent: Seq<char>,
    accept: Seq<char>,
    extra: Seq<(Seq<char>, Seq<char>)>,
) -> Seq<(Seq<char>, Seq<char>)> {
    set_headers(seq![("user-agent"@, user_agent), ("accept"@, accept)], extra)
}

pub open spec fn pair_views(v: Seq<(&str, &str)>) -> Seq<(Seq<char>, Seq<char>)> {
    v.map_values(|p: (&str, &str)| (p.0@, p.1@))
}

pub open spec fn string_pair_views(v: Seq<(String, String)>) -> Seq<(Seq<char>, Seq<char>)> {
    v.map_values(|p: (String, String)| (p.0@, p.1@))
}

fn set_header_in(list: &mut Vec<(String, String)>, name: &str, value: &str)
    ensures
        string_pair_views(final(list)@) == set_header(string_pair_views(old(list)@), name@, value@),
{
    let ghost before = string_pair_views(list@);
    let mut i: usize = 0;
    while i < list.len()
        invariant
            0 <= i <= list.len(),
            list@ == old(list)@,
            before == string_pair_views(list@),
            forall|j: int| 0 <= j < i ==> !same_header_name(#[trigger] before[j].0, name@),
        decreases list.len() - i,
    {
        if chars_eq_ignore_ascii_case(&chars_of(list[i].0.as_str()), &chars_of(name)) {
            proof {
                assert(same_header_name(before[i as int].0, name@));
                let k = choose|k: int| 0 <= k < before.len() && same_header_name(#[trigger] before[k].0, name@)
                    && forall|j: int| 0 <= j < k ==> !same_header_name(#[trigger] before[j].0, name@);
                assert(k == i as int) by {
                    if k < i as int {
                    } else if k > i as int {
                        assert(!same_header_name(before[i as int].0, name@));
                    }
                }
            }
            let key = list[i].0.clone();
            list.set(i, (key, value.to_string()));
            proof {
                assert(string_pair_views(list@) =~= before.update(i as int, (before[i as int].0, value@)));
            }
            return;
        }
        i = i + 1;
    }
    list.push((name.to_string(), value.to_string()));
    proof {
        assert(string_pair_views(list@) =~= before.push((name@, value@)));
    }
}

/// The header list of a request with `headers` and `extra_headers`.
pub fn request_header_pairs(headers: &RequestHeaders, extra_headers: &[(&str, &str)]) -> (r: Vec<(String, String)>)
    ensures
        string_pair_views(r@) == request_header_list(
            headers.user_agent_view(),
            headers.accept_view(),
            pair_views(extra_headers@),
        ),
{
    let mut list: Vec<(String, String)> = Vec::new();
    list.push(("user-agent".to_string(), headers.user_agent().to_string()));
    list.push(("accept".to_string(), headers.accept().to_string()));
    let ghost base = seq![("user-agent"@, headers.user_agent_view()), ("accept"@, headers.accept_view())];
    assert(string_pair_views(list@) =~= base);
    let mut k: usize = 0;
    while k < extra_headers.len()
        invariant
            0 <= k <= extra_headers.len(),
            string_pair_views(list@) == set_headers(base, pair_views(extra_headers@).take(k as int)),
        decreases extra_headers.len() - k,
    {
        let (name, value) = extra_headers[k];
        set_header_in(&mut list, name, value);
        proof {
            let e = pair_views(extra_headers@);
            assert(e.take(k as int + 1).drop_last() =~= e.take(k as int));
        }
        k = k + 1;
    }
    proof {
        assert(pair_views(extra_headers@).take(extra_headers@.len() as int) =~= pair_views(extra_headers@));
    }
    list
}

// ---------------------------------------------------------------------------
// reqwest

/// `reqwest::blocking::Client::builder()`.
#[verifier::external_body]
fn client_builder() -> reqwest::blocking::ClientBuilder {
    reqwest::blocking::Client::builder()
}

/// `ClientBuilder::timeout`: the whole request, connect to last body byte,
/// must finish within `timeout`.
#[verifier::external_body]
fn with_timeout(builder: reqwest::blocking::ClientBuilder, timeout: Duration) -> reqwest::blocking::ClientBuilder {
    builder.timeout(timeout)
}

/// `ClientBuilder::redirect(Policy::limited(max))`.
#[verifier::external_body]
fn with_redirect_limit(builder: reqwest::blocking::ClientBuilder, max: usize) -> reqwest::blocking::ClientBuilder {
    builder.redirect(reqwest::redirect::Policy::limited(max))
}

/// `ClientBuilder::build`. It fails when the TLS backend or the resolver
/// cannot be set up, and panics inside an async runtime, where this library
/// never calls it.
#[verifier::external_body]
fn build_client(builder: reqwest::blocking::ClientBuilder) -> Result<reqwest::blocking::Client, reqwest::Error> {
    builder.build()
}

/// `Client::get(url)`. An unparsable URL is reported by `send`.
#[verifier::external_body]
fn get_request(client: &reqwest::blocking::Client, url: &str) -> reqwest::blocking::RequestBuilder {
    client.get(url)
}

/// `RequestBuilder::header(name, value)`. An invalid name or value is
/// reported by `send`.
#[verifier::external_body]
fn with_header(builder: reqwest::blocking::RequestBuilder, name: &str, value: &str) -> reqwest::blocking::RequestBuilder {
    builder.header(name, value)
}

/// `RequestBuilder::send`: performs the request, following redirects, and
/// returns once the response head has arrived. Its outcome depends on the
/// network; nothing is stated of it.
#[verifier::external_body]
fn send_request(builder: reqwest::blocking::RequestBuilder) -> Result<reqwest::blocking::Response, reqwest::Error> {
    builder.send()
}

/// `Response::status().as_u16()`; `http::StatusCode` only holds codes from
/// 100 to 999.
#[verifier::external_body]
fn response_status(response: &reqwest::blocking::Response) -> (r: u16)
    ensures
        100 <= r <= 999,
{
    response.status().as_u16()
}

/// `Response::url()`, serialized: the URL after any redirects.
#[verifier::external_body]
fn response_url(response: &reqwest::blocking::Response) -> String {
    response.url().to_string()
}

/// The `Content-Type` header of the response, when it is present and is
/// visible ASCII (`HeaderValue::to_str`).
#[verifier::external_body]
fn response_content_type(response: &reqwest::blocking::Response) -> Option<String> {
    response.headers().get(reqwest::header::CONTENT_TYPE).and_then(|value| value.to_str().ok()).map(|value| value.to_string())
}

/// Reads the response body through `std::io::Read::take(limit)` and
/// `read_to_end`: at most `limit` bytes come back.
#[verifier::external_body]
fn read_body_upto(response: &mut reqwest::blocking::Response, limit: u64) -> (r: Result<Vec<u8>, std::io::Error>)
    ensures
        r matches Ok(bytes) ==> bytes.len() <= limit,
{
    let mut bytes = Vec::new();
    std::io::Read::read_to_end(&mut std::io::Read::take(response, limit), &mut bytes).map(|_| bytes)
}

/// The `Display` text of a `reqwest::Error`.
#[verifier::external_body]
fn reqwest_error_text(error: &reqwest::Error) -> String {
    format!("{error}")
}

/// The `Display` text of a `std::io::Error`.
#[verifier::external_body]
fn io_error_text(error: &std::io::Error) -> String {
    format!("{error}")
}

fn client(timeout: Duration) -> (r: Result<reqwest::blocking::Client, HttpError>)
    ensures
        r matches Err(e) ==> e is Client,
{
    let builder = with_redirect_limit(with_timeout(client_builder(), timeout), MAX_REDIRECTS);
    match build_client(builder) {
        Ok(client) => Ok(client),
        Err(error) => Err(HttpError::Client(reqwest_error_text(&error))),
    }
}

/// Sends a GET of `url` carrying `pairs` as headers.
fn send_get(url: &str, pairs: &Vec<(String, String)>, timeout: Duration) -> (r: Result<
    reqwest::blocking::Response,
    HttpError,
>)
    ensures
        r matches Err(e) ==> (e is Client || (e matches HttpError::Transport { url: u, .. } && u@
            == url@)),
{
    let client = match client(timeout) {
        Ok(client) => client,
        Err(error) => return Err(error),
    };
    let mut request = get_request(&client, url);
    let mut k: usize = 0;
    while k < pairs.len()
        invariant
            0 <= k <= pairs.len(),
        decreases pairs.len() - k,
    {
        request = with_header(request, pairs[k].0.as_str(), pairs[k].1.as_str());
        k = k + 1;
    }
    match send_request(request) {
        Ok(response) => Ok(response),
        Err(error) => Err(HttpError::Transport { url: url.to_string(), detail: reqwest_error_text(&error) }),
    }
}

/// What a capped read makes of a response: the response itself when the
/// body read holds at most `max_bytes` bytes, else `TooLarge`.
pub fn finish_capped(
    status: u16,
    final_url: String,
    content_type: Option<String>,
    bytes: Vec<u8>,
    max_bytes: u64,
) -> (r: Result<ByteResponse, HttpError>)
    ensures
        bytes.len() <= max_bytes <==> r is Ok,
        r matches Ok(resp) ==> resp.status == status && resp.final_url == final_url
            && resp.content_type == content_type && resp.bytes@ == bytes@,
        r matches Err(e) ==> e == HttpError::TooLarge(max_bytes),
{
    if bytes.len() as u64 > max_bytes {
        return Err(HttpError::TooLarge(max_bytes));
    }
    Ok(ByteResponse { status, final_url, content_type, bytes })
}

/// GETs `url` with `headers` and reads at most `max_bytes` of the body.
///
/// At most `max_bytes + 1` bytes are read; a body longer than `max_bytes`
/// gives `TooLarge` rather than a truncated response. An invalid header value
/// fails the call before any request is sent.
pub fn http_get_bytes_capped(url: &str, headers: &RequestHeaders, max_bytes: u64, timeout: Duration) -> (r:
    Result<ByteResponse, HttpError>)
    ensures
        r matches Ok(resp) ==> resp.bytes.len() <= max_bytes && 100 <= resp.status <= 999,
        r matches Err(HttpError::TooLarge(m)) ==> m == max_bytes,
        r matches Err(HttpError::Transport { url: u, .. }) ==> u@ == url@,
        (r matches Err(HttpError::InvalidHeader(_))) <==> !(header_value_ok(headers.user_agent_view())
            && header_value_ok(headers.accept_view())),
{
    let no_extra: [(&str, &str); 0] = [];
    match check_request_headers(headers, &no_extra) {
        Ok(()) => {},
        Err(e) => return Err(e),
    }
    let pairs = request_header_pairs(headers, &[]);
    let mut response = match send_get(url, &pairs, timeout) {
        Ok(response) => response,
        Err(error) => return Err(error),
    };
    let status = response_status(&response);
    let final_url = response_url(&response);
    let content_type = response_content_type(&response);
    let bytes = match read_body_upto(&mut response, max_bytes.saturating_add(1)) {
        Ok(bytes) => bytes,
        Err(error) => return Err(HttpError::Body(io_error_text(&error))),
    };
    finish_capped(status, final_url, content_type, bytes, max_bytes)
}

/// GETs `url` with `headers` plus `extra_headers` (a later header replaces
/// an earlier one of the same name) and reports where the request ended up,
/// without reading the body. An invalid header name or value fails the call
/// before any request is sent.
pub fn http_get_stream_with_extra_headers(
    url: &str,
    headers: &RequestHeaders,
    extra_headers: &[(&str, &str)],
    timeout: Duration,
) -> (r: Result<StreamResponse, HttpError>)
    ensures
        r matches Ok(resp) ==> 100 <= resp.status <= 999,
        r matches Err(e) ==> (e is Client || e is InvalidHeader || (e matches HttpError::Transport {
            url: u,
            ..
        } && u@ == url@)),
        (r matches Err(HttpError::InvalidHeader(_))) <==> !request_headers_ok(
            headers.user_agent_view(),
            headers.accept_view(),
            pair_views(extra_headers@),
        ),
{
    match check_request_headers(headers, extra_headers) {
        Ok(()) => {},
        Err(e) => return Err(e),
    }
    let pairs = request_header_pairs(headers, extra_headers);
    let response = match send_get(url, &pairs, timeout) {
        Ok(response) => response,
        Err(error) => return Err(error),
    };
    Ok(StreamResponse { status: response_status(&response), final_url: response_url(&response) })
}

} // verus!
