//! The client facade: request frames, raw response parsing, and the
//! validated per-operation pipeline.
//!
//! Each operation is split into a request builder, which validates its
//! input and yields the complete frame to write to the server, and a
//! response reader, which turns the raw response text into the operation's
//! result.  The surrounding asynchronous wrapper only opens the connection,
//! writes the frame, reads until the peer closes, and hands the bytes back.

use vstd::prelude::*;
use vstd::string::StringExecFns;
use crate::config::Config;
use crate::config::ConfigBuilder;
use crate::error::TlqError;
use crate::text::chars_to_string;
use crate::text::contains_chars;
use crate::text::skip_spaces;
use crate::text::skip_spaces_in;
use crate::text::skip_token;
use crate::text::skip_token_in;
use crate::text::spec_contains;
use crate::text::spec_dec;
use crate::text::spec_parse_u16;
use crate::text::str_to_chars;
use crate::text::subrange_chars;
use crate::text::subrange_string;
use crate::text::parse_u16_range;
use crate::text::u64_to_string;
use crate::codec::spec_encode_add;
use crate::codec::spec_encode_get;
use crate::codec::spec_encode_ids;
use crate::codec::encode_add_request;
use crate::codec::encode_get_request;
use crate::codec::encode_delete_request;
use crate::codec::encode_retry_request;
use crate::codec::spec_parse_message;
use crate::codec::spec_parse_messages;
use crate::codec::spec_parse_json_string;
use crate::codec::decode_message;
use crate::codec::decode_messages;
use crate::codec::decode_json_string;
use crate::message::AddMessageRequest;
use crate::message::DeleteMessagesRequest;
use crate::message::GetMessagesRequest;
use crate::message::Message;
use crate::message::RetryMessagesRequest;
use vstd::string::StringSliceAdditionalSpecFns;
use vstd::utf8::encode_utf8;

verus! {

/// The largest message body the server accepts, in bytes.
pub const MAX_MESSAGE_SIZE: usize = 65536;

/// A client of one queue server: the settings and the `host:port` text
/// the request frames carry.
#[derive(Debug, Clone)]
pub struct TlqClient {
    /// The settings the client was built with.
    pub config: Config,
    /// The server address as `host:port`.
    pub base_url: String,
}

/// The `host:port` text for a host and a port.
pub open spec fn spec_base_url(host: Seq<char>, port: u16) -> Seq<char> {
    host + ":"@ + spec_dec(port as int)
}

/// The request frame of an operation: the method line for `endpoint`, a
/// `Host` header, the content headers for a body of `content_length` bytes,
/// and the blank-line terminator.
pub open spec fn spec_post_frame(
    endpoint: Seq<char>,
    base_url: Seq<char>,
    content_length: int,
) -> Seq<char> {
    "POST "@ + endpoint + " HTTP/1.1\r\nHost: "@ + base_url
        + "\r\nContent-Type: application/json\r\nContent-Length: "@ + spec_dec(content_length)
        + "\r\nConnection: close\r\n\r\n"@
}

/// The request frame of the health probe: a bodiless `GET` of `/hello`.
pub open spec fn spec_health_frame(base_url: Seq<char>) -> Seq<char> {
    "GET /hello HTTP/1.1\r\nHost: "@ + base_url + "\r\nConnection: close\r\n\r\n"@
}

/// Whether the blank-line separator between headers and body starts at `i`.
pub open spec fn is_sep_at(s: Seq<char>, i: int) -> bool {
    &&& 0 <= i
    &&& i + 4 <= s.len()
    &&& s[i] == '\r'
    &&& s[i + 1] == '\n'
    &&& s[i + 2] == '\r'
    &&& s[i + 3] == '\n'
}

/// The first index at or after `from` where the blank-line separator
/// starts, or -1 when there is none.
pub open spec fn spec_find_sep(s: Seq<char>, from: int) -> int
    decreases s.len() - from,
{
    if from < 0 || from + 4 > s.len() {
        -1
    } else if is_sep_at(s, from) {
        from
    } else {
        spec_find_sep(s, from + 1)
    }
}

/// The first index at or after `from` holding a line feed, or the length.
pub open spec fn spec_first_nl(s: Seq<char>, from: int) -> int
    decreases s.len() - from,
{
    if from < 0 || from >= s.len() {
        s.len() as int
    } else if s[from] == '\n' {
        from
    } else {
        spec_first_nl(s, from + 1)
    }
}

/// The first line of the headers: up to the first line feed with the
/// carriage return before it removed, or, without any line feed, the whole
/// text as it stands.
pub open spec fn spec_status_line(headers: Seq<char>) -> Seq<char> {
    let e = spec_first_nl(headers, 0);
    if e == headers.len() {
        headers
    } else {
        let line = headers.take(e);
        if line.len() > 0 && line.last() == '\r' {
            line.drop_last()
        } else {
            line
        }
    }
}

/// The second whitespace-delimited token of `s`; empty when `s` holds
/// fewer than two tokens.
pub open spec fn spec_second_token(s: Seq<char>) -> Seq<char> {
    let a = skip_spaces(s, 0);
    let b = skip_token(s, a);
    let c = skip_spaces(s, b);
    let d = skip_token(s, c);
    s.subrange(c, d)
}

/// The status code of a response's headers: the second whitespace-delimited
/// token of the first line, read as a decimal number; `None` when the line
/// is malformed (which is tolerated, not an error).
pub open spec fn spec_status_code(headers: Seq<char>) -> Option<u16> {
    spec_parse_u16(spec_second_token(spec_status_line(headers)))
}

/// The first separator position, as [`spec_find_sep`] from the start.
#[verifier::loop_isolation(false)]
fn find_sep(v: &Vec<char>) -> (r: Option<usize>)
    ensures
        match r {
            Some(i) => spec_find_sep(v@, 0) == i && i + 4 <= v.len(),
            None => spec_find_sep(v@, 0) == -1,
        },
{
    if v.len() < 4 {
        return None;
    }
    let mut i: usize = 0;
    while i <= v.len() - 4
        invariant
            i <= v.len() - 3,
            spec_find_sep(v@, 0) == spec_find_sep(v@, i as int),
        decreases v.len() - i,
    {
        if v[i] == '\r' && v[i + 1] == '\n' && v[i + 2] == '\r' && v[i + 3] == '\n' {
            return Some(i);
        }
        i = i + 1;
    }
    None
}

/// The first line-feed position below `end`, as [`spec_first_nl`] over the
/// prefix of length `end`.
#[verifier::loop_isolation(false)]
fn first_nl(v: &Vec<char>, end: usize) -> (r: usize)
    requires
        end <= v.len(),
    ensures
        r == spec_first_nl(v@.take(end as int), 0),
        r <= end,
{
    let ghost h = v@.take(end as int);
    let mut i: usize = 0;
    while i < end
        invariant
            i <= end,
            spec_first_nl(h, 0) == spec_first_nl(h, i as int),
        decreases end - i,
    {
        assert(h[i as int] == v@[i as int]);
        if v[i] == '\n' {
            return i;
        }
        i = i + 1;
    }
    end
}

impl TlqClient {
    /// A client of the server at `host:port`, with the default settings
    /// (30 second timeout, 3 retries, 100 millisecond base delay).  Always
    /// succeeds; the `Result` is kept for the callers' sake.
    pub fn new(host: &str, port: u16) -> (r: Result<TlqClient, TlqError>)
        ensures
            r matches Ok(c) && c.config.host@ == host@ && c.config.port == port
                && c.config.timeout_ms == 30000 && c.config.max_retries == 3
                && c.config.retry_delay_ms == 100 && c.base_url@ == spec_base_url(host@, port),
    {
        let config = ConfigBuilder::new().host(host).port(port).build();
        Ok(TlqClient::with_config(config))
    }

    /// A client with the given settings.
    pub fn with_config(config: Config) -> (c: TlqClient)
        ensures
            c.config == config,
            c.base_url@ == spec_base_url(config.host@, config.port),
    {
        let mut base_url = config.host.clone();
        base_url.append(":");
        let port_digits = u64_to_string(config.port as u64);
        base_url.append(port_digits.as_str());
        TlqClient { config, base_url }
    }

    /// A builder for custom settings, starting from the defaults.
    pub fn builder() -> (b: ConfigBuilder)
        ensures
            b.config.is_default(),
    {
        ConfigBuilder::new()
    }

    /// Splits a raw response into headers and body at the first blank line
    /// and classifies it: no separator is a connection-level failure, a
    /// status code of 400 or more is a server failure carrying the body,
    /// and anything else (a malformed status line included) hands the body
    /// on.
    pub fn parse_http_response(response: &str) -> (r: Result<String, TlqError>)
        ensures
            ({
                let s = response@;
                let sep = spec_find_sep(s, 0);
                match r {
                    Ok(body) => sep >= 0 && body@ == s.skip(sep + 4) && (spec_status_code(
                        s.take(sep),
                    ) is None || spec_status_code(s.take(sep)).unwrap() < 400),
                    Err(TlqError::Connection(m)) => sep == -1 && m@ == "Invalid HTTP response"@,
                    Err(TlqError::Server { status, message }) => sep >= 0 && spec_status_code(
                        s.take(sep),
                    ) == Some(status) && status >= 400 && message@ == s.skip(sep + 4),
                    Err(_) => false,
                }
            }),
    {
        let v = str_to_chars(response);
        let sep_opt = find_sep(&v);
        match sep_opt {
            None => Err(TlqError::Connection(String::from_str("Invalid HTTP response"))),
            Some(sep) => {
                let ghost headers = v@.take(sep as int);
                let body = subrange_string(&v, sep + 4, v.len());
                proof {
                    assert(body@ =~= v@.skip(sep + 4));
                }
                let nl = first_nl(&v, sep);
                let line_end: usize = if nl == sep {
                    sep
                } else if nl > 0 && v[nl - 1] == '\r' {
                    nl - 1
                } else {
                    nl
                };
                let line = subrange_chars(&v, 0, line_end);
                proof {
                    if spec_first_nl(headers, 0) == headers.len() {
                        assert(line@ =~= spec_status_line(headers));
                    } else {
                        let e = spec_first_nl(headers, 0);
                        assert(headers.take(e) =~= v@.subrange(0, e));
                        if e > 0 && headers.take(e).last() == '\r' {
                            assert(line@ =~= spec_status_line(headers));
                        } else {
                            assert(line@ =~= spec_status_line(headers));
                        }
                    }
                }
                let a = skip_spaces_in(&line, 0);
                let b = skip_token_in(&line, a);
                let c = skip_spaces_in(&line, b);
                let d = skip_token_in(&line, c);
                let code_opt = parse_u16_range(&line, c, d);
                proof {
                    assert(line@.subrange(c as int, d as int) == spec_second_token(line@));
                }
                match code_opt {
                    Some(code) => {
                        if code >= 400 {
                            Err(TlqError::Server { status: code, message: body })
                        } else {
                            Ok(body)
                        }
                    },
                    None => Ok(body),
                }
            },
        }
    }

    /// Whether a raw health-probe response reports success: its status
    /// line, the first line of the response, holds the text `200 OK`.
    /// Text anywhere later in the response does not count.
    pub fn health_from_response(response: &str) -> (r: bool)
        ensures
            r == spec_contains(spec_status_line(response@), "200 OK"@),
    {
        let v = str_to_chars(response);
        proof {
            assert(v@.take(v@.len() as int) =~= v@);
        }
        let nl = first_nl(&v, v.len());
        let line_end: usize = if nl == v.len() {
            v.len()
        } else if nl > 0 && v[nl - 1] == '\r' {
            nl - 1
        } else {
            nl
        };
        let line = subrange_chars(&v, 0, line_end);
        proof {
            if spec_first_nl(v@, 0) == v@.len() {
                assert(line@ =~= spec_status_line(v@));
            } else {
                let e = spec_first_nl(v@, 0);
                assert(v@.take(e) =~= v@.subrange(0, e));
                if e > 0 && v@.take(e).last() == '\r' {
                    assert(line@ =~= spec_status_line(v@));
                } else {
                    assert(line@ =~= spec_status_line(v@));
                }
            }
        }
        let probe = str_to_chars("200 OK");
        contains_chars(&line, &probe)
    }
}


/// The byte length of text, as the machine reports it.
pub open spec fn spec_byte_len(s: Seq<char>) -> int {
    (encode_utf8(s).len() as usize) as int
}

/// The body of a response: everything after the blank-line separator.
pub open spec fn spec_body_of(s: Seq<char>) -> Seq<char> {
    s.skip(spec_find_sep(s, 0) + 4)
}

/// Whether a response's status line does not name a failure: its code is
/// below 400, or there is no code to read.
pub open spec fn spec_status_ok(s: Seq<char>) -> bool {
    spec_status_code(s.take(spec_find_sep(s, 0))) is None || spec_status_code(
        s.take(spec_find_sep(s, 0)),
    ).unwrap() < 400
}

/// The complete wire text of one `POST` operation: the frame whose content
/// length is the byte length of `payload` as the machine reports it, then
/// `payload` itself.
pub open spec fn spec_post_wire(
    endpoint: Seq<char>,
    base_url: Seq<char>,
    payload: Seq<char>,
) -> Seq<char> {
    spec_post_frame(endpoint, base_url, (encode_utf8(payload).len() as usize) as int) + payload
}

/// A fresh copy of the identifiers.
fn clone_ids(ids: &Vec<u128>) -> (out: Vec<u128>)
    ensures
        out@ == ids@,
{
    let mut out: Vec<u128> = Vec::new();
    let mut i: usize = 0;
    while i < ids.len()
        invariant
            i <= ids.len(),
            out@ == ids@.take(i as int),
        decreases ids.len() - i,
    {
        out.push(ids[i]);
        proof {
            assert(ids@.take(i + 1 as int) =~= ids@.take(i as int).push(ids@[i as int]));
        }
        i = i + 1;
    }
    proof {
        assert(ids@.take(ids@.len() as int) =~= ids@);
    }
    out
}

fn post_frame(endpoint: &str, base_url: &str, content_length: usize) -> (s: String)
    ensures
        s@ == spec_post_frame(endpoint@, base_url@, content_length as int),
{
    let mut s = String::from_str("POST ");
    s.append(endpoint);
    s.append(" HTTP/1.1\r\nHost: ");
    s.append(base_url);
    s.append("\r\nContent-Type: application/json\r\nContent-Length: ");
    let digits = u64_to_string(content_length as u64);
    s.append(digits.as_str());
    s.append("\r\nConnection: close\r\n\r\n");
    assert(s@ =~= spec_post_frame(endpoint@, base_url@, content_length as int));
    s
}

impl TlqClient {
    fn post_wire(&self, endpoint: &str, payload: String) -> (s: String)
        ensures
            s@ == spec_post_wire(endpoint@, self.base_url@, payload@),
    {
        let frame = post_frame(endpoint, self.base_url.as_str(), payload.as_str().len());
        let whole = frame.concat(payload.as_str());
        whole
    }

    /// The wire text of an add operation, when `body` is within the size
    /// bound; a body over [`MAX_MESSAGE_SIZE`] bytes is rejected with
    /// `MessageTooLarge` before any network activity, and a body of
    /// exactly that size passes.
    pub fn add_message_request(&self, body: &str) -> (r: Result<String, TlqError>)
        ensures
            spec_byte_len(body@) > MAX_MESSAGE_SIZE ==> (r matches Err(
                TlqError::MessageTooLarge { size },
            ) && size == spec_byte_len(body@)),
            spec_byte_len(body@) <= MAX_MESSAGE_SIZE ==> (r matches Ok(w) && w@
                == spec_post_wire("/add"@, self.base_url@, spec_encode_add(body@))),
    {
        if body.len() > MAX_MESSAGE_SIZE {
            return Err(TlqError::MessageTooLarge { size: body.len() });
        }
        let request = AddMessageRequest { body: String::from_str(body) };
        let payload = encode_add_request(&request);
        Ok(self.post_wire("/add", payload))
    }

    /// The wire text of a get operation for up to `count` messages; a zero
    /// count is rejected with a `Validation` error before any network
    /// activity.
    pub fn get_messages_request(&self, count: u32) -> (r: Result<String, TlqError>)
        ensures
            count == 0 ==> (r matches Err(TlqError::Validation(m)) && m@
                == "Count must be greater than 0"@),
            count >= 1 ==> (r matches Ok(w) && w@ == spec_post_wire(
                "/get"@,
                self.base_url@,
                spec_encode_get(count),
            )),
    {
        if count == 0 {
            return Err(TlqError::Validation(String::from_str("Count must be greater than 0")));
        }
        let request = GetMessagesRequest { count };
        let payload = encode_get_request(&request);
        Ok(self.post_wire("/get", payload))
    }

    /// The wire text of a get operation for one message.
    pub fn get_message_request(&self) -> (r: String)
        ensures
            r@ == spec_post_wire("/get"@, self.base_url@, spec_encode_get(1)),
    {
        let request = GetMessagesRequest { count: 1 };
        let payload = encode_get_request(&request);
        self.post_wire("/get", payload)
    }

    /// The wire text of a delete operation; an empty identifier list is
    /// rejected with a `Validation` error before any network activity.
    pub fn delete_messages_request(&self, ids: &Vec<u128>) -> (r: Result<String, TlqError>)
        ensures
            ids@.len() == 0 ==> (r matches Err(TlqError::Validation(m)) && m@
                == "No message IDs provided"@),
            ids@.len() > 0 ==> (r matches Ok(w) && w@ == spec_post_wire(
                "/delete"@,
                self.base_url@,
                spec_encode_ids(ids@),
            )),
    {
        if ids.len() == 0 {
            return Err(TlqError::Validation(String::from_str("No message IDs provided")));
        }
        let request = DeleteMessagesRequest { ids: clone_ids(ids) };
        let payload = encode_delete_request(&request);
        Ok(self.post_wire("/delete", payload))
    }

    /// The wire text of a delete operation for one message.
    pub fn delete_message_request(&self, id: u128) -> (r: String)
        ensures
            r@ == spec_post_wire("/delete"@, self.base_url@, spec_encode_ids(seq![id])),
    {
        let mut ids: Vec<u128> = Vec::new();
        ids.push(id);
        assert(ids@ =~= seq![id]);
        let request = DeleteMessagesRequest { ids };
        let payload = encode_delete_request(&request);
        self.post_wire("/delete", payload)
    }

    /// The wire text of a retry operation; an empty identifier list is
    /// rejected with a `Validation` error before any network activity.
    pub fn retry_messages_request(&self, ids: &Vec<u128>) -> (r: Result<String, TlqError>)
        ensures
            ids@.len() == 0 ==> (r matches Err(TlqError::Validation(m)) && m@
                == "No message IDs provided"@),
            ids@.len() > 0 ==> (r matches Ok(w) && w@ == spec_post_wire(
                "/retry"@,
                self.base_url@,
                spec_encode_ids(ids@),
            )),
    {
        if ids.len() == 0 {
            return Err(TlqError::Validation(String::from_str("No message IDs provided")));
        }
        let request = RetryMessagesRequest { ids: clone_ids(ids) };
        let payload = encode_retry_request(&request);
        Ok(self.post_wire("/retry", payload))
    }

    /// The wire text of a retry operation for one message.
    pub fn retry_message_request(&self, id: u128) -> (r: String)
        ensures
            r@ == spec_post_wire("/retry"@, self.base_url@, spec_encode_ids(seq![id])),
    {
        let mut ids: Vec<u128> = Vec::new();
        ids.push(id);
        assert(ids@ =~= seq![id]);
        let request = RetryMessagesRequest { ids };
        let payload = encode_retry_request(&request);
        self.post_wire("/retry", payload)
    }

    /// The wire text of a purge operation; there is nothing to validate.
    pub fn purge_queue_request(&self) -> (r: String)
        ensures
            r@ == spec_post_wire("/purge"@, self.base_url@, "{}"@),
    {
        let payload = String::from_str("{}");
        self.post_wire("/purge", payload)
    }

    /// The wire text of the health probe.
    pub fn health_check_request(&self) -> (s: String)
        ensures
            s@ == spec_health_frame(self.base_url@),
    {
        let mut s = String::from_str("GET /hello HTTP/1.1\r\nHost: ");
        s.append(self.base_url.as_str());
        s.append("\r\nConnection: close\r\n\r\n");
        assert(s@ =~= spec_health_frame(self.base_url@));
        s
    }

    /// Reads an add response: the raw text is split and classified as
    /// [`TlqClient::parse_http_response`] says, and a passing body is
    /// decoded as one message record; a body that is no such record is a
    /// `Serialization` failure.
    pub fn message_from_response(response: &str) -> (r: Result<Message, TlqError>)
        ensures
            ({
                let s = response@;
                let sep = spec_find_sep(s, 0);
                match r {
                    Ok(m) => sep >= 0 && spec_status_ok(s) && spec_parse_message(spec_body_of(s))
                        == Some(m@),
                    Err(TlqError::Serialization(msg)) => sep >= 0 && spec_status_ok(s)
                        && spec_parse_message(spec_body_of(s)) is None && msg@
                        == "invalid message record in response"@,
                    Err(TlqError::Connection(m)) => sep == -1 && m@ == "Invalid HTTP response"@,
                    Err(TlqError::Server { status, message }) => sep >= 0 && spec_status_code(
                        s.take(sep),
                    ) == Some(status) && status >= 400 && message@ == spec_body_of(s),
                    Err(_) => false,
                }
            }),
    {
        let body = match Self::parse_http_response(response) {
            Ok(b) => b,
            Err(e) => {
                return Err(e);
            },
        };
        match decode_message(body.as_str()) {
            Some(m) => Ok(m),
            None => Err(
                TlqError::Serialization(String::from_str("invalid message record in response")),
            ),
        }
    }

    /// Reads a get response: a passing body is decoded as a list of
    /// message records; a body that is no such list is a `Serialization`
    /// failure.
    pub fn messages_from_response(response: &str) -> (r: Result<Vec<Message>, TlqError>)
        ensures
            ({
                let s = response@;
                let sep = spec_find_sep(s, 0);
                match r {
                    Ok(ms) => sep >= 0 && spec_status_ok(s) && (spec_parse_messages(
                        spec_body_of(s),
                    ) matches Some(vs) && ms@.len() == vs.len() && (forall|k: int|
                        0 <= k < vs.len() ==> #[trigger] ms@[k]@ == vs[k])),
                    Err(TlqError::Serialization(msg)) => sep >= 0 && spec_status_ok(s)
                        && spec_parse_messages(spec_body_of(s)) is None && msg@
                        == "invalid message list in response"@,
                    Err(TlqError::Connection(m)) => sep == -1 && m@ == "Invalid HTTP response"@,
                    Err(TlqError::Server { status, message }) => sep >= 0 && spec_status_code(
                        s.take(sep),
                    ) == Some(status) && status >= 400 && message@ == spec_body_of(s),
                    Err(_) => false,
                }
            }),
    {
        let body = match Self::parse_http_response(response) {
            Ok(b) => b,
            Err(e) => {
                return Err(e);
            },
        };
        match decode_messages(body.as_str()) {
            Some(ms) => Ok(ms),
            None => Err(
                TlqError::Serialization(String::from_str("invalid message list in response")),
            ),
        }
    }

    /// Reads a delete, retry or purge response: a passing body is decoded
    /// as one status string; a body that is no string is a `Serialization`
    /// failure.
    pub fn status_from_response(response: &str) -> (r: Result<String, TlqError>)
        ensures
            ({
                let s = response@;
                let sep = spec_find_sep(s, 0);
                match r {
                    Ok(t) => sep >= 0 && spec_status_ok(s) && spec_parse_json_string(
                        spec_body_of(s),
                    ) == Some(t@),
                    Err(TlqError::Serialization(msg)) => sep >= 0 && spec_status_ok(s)
                        && spec_parse_json_string(spec_body_of(s)) is None && msg@
                        == "invalid status text in response"@,
                    Err(TlqError::Connection(m)) => sep == -1 && m@ == "Invalid HTTP response"@,
                    Err(TlqError::Server { status, message }) => sep >= 0 && spec_status_code(
                        s.take(sep),
                    ) == Some(status) && status >= 400 && message@ == spec_body_of(s),
                    Err(_) => false,
                }
            }),
    {
        let body = match Self::parse_http_response(response) {
            Ok(b) => b,
            Err(e) => {
                return Err(e);
            },
        };
        match decode_json_string(body.as_str()) {
            Some(t) => Ok(t),
            None => Err(
                TlqError::Serialization(String::from_str("invalid status text in response")),
            ),
        }
    }

    /// The first of the fetched messages, if any came back.
    pub fn first_message(messages: Vec<Message>) -> (r: Option<Message>)
        ensures
            messages@.len() == 0 ==> r is None,
            messages@.len() > 0 ==> (r matches Some(m) && m == messages@[0]),
    {
        let mut messages = messages;
        if messages.len() == 0 {
            None
        } else {
            Some(messages.remove(0))
        }
    }
}

} // verus!
