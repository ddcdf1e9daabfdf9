//! HTTP/1.1 framing for the network HAL: URL parsing, request building and
//! response parsing. Sockets live outside the library; the functions here
//! turn URLs and headers into request bytes and raw response bytes into
//! status, headers and body.

use vstd::prelude::*;

use crate::web::{utrim, utrim_bytes};
use crate::text::{
    all_digits, ascii_bytes, dec, digits_value, eq_ignore_ascii_case, find, find_byte, find_sub,
    find_sub_from, has_prefix, is_utf8, lemma_find_from, lemma_find_sub_from, lines, lit, lower_seq,
    parse_digits, push_all, push_dec, split_first_line, starts_with, to_vec,
};

verus! {

/// Network errors.
#[derive(Debug, Clone, Copy, PartialEq, Eq, Structural)]
pub enum NetError {
    NoInterface,
    DnsError,
    ConnectFailed,
    Timeout,
    ParseError,
    HttpError(u16),
    InvalidHeader,
    ResponseTooLarge,
    IoError,
}

/// Human readable description of each network error.
pub open spec fn net_error_text(e: NetError) -> Seq<char> {
    match e {
        NetError::NoInterface => "no network interface"@,
        NetError::DnsError => "DNS resolution failed"@,
        NetError::ConnectFailed => "TCP connection failed"@,
        NetError::Timeout => "request timed out"@,
        NetError::ParseError => "HTTP parse error"@,
        NetError::HttpError(_) => "HTTP error"@,
        NetError::InvalidHeader => "invalid HTTP header"@,
        NetError::ResponseTooLarge => "HTTP response too large"@,
        NetError::IoError => "I/O error"@,
    }
}

/// The description of a network error as bytes.
pub open spec fn net_error_bytes(e: NetError) -> Seq<u8> {
    match e {
        NetError::NoInterface => lit("no network interface"),
        NetError::DnsError => lit("DNS resolution failed"),
        NetError::ConnectFailed => lit("TCP connection failed"),
        NetError::Timeout => lit("request timed out"),
        NetError::ParseError => lit("HTTP parse error"),
        NetError::HttpError(_) => lit("HTTP error"),
        NetError::InvalidHeader => lit("invalid HTTP header"),
        NetError::ResponseTooLarge => lit("HTTP response too large"),
        NetError::IoError => lit("I/O error"),
    }
}

impl NetError {
    /// The description as bytes.
    pub fn message(&self) -> (r: Vec<u8>)
        ensures
            r@ == net_error_bytes(*self),
    {
        proof {
            reveal_strlit("no network interface");
            reveal_strlit("DNS resolution failed");
            reveal_strlit("TCP connection failed");
            reveal_strlit("request timed out");
            reveal_strlit("HTTP parse error");
            reveal_strlit("HTTP error");
            reveal_strlit("invalid HTTP header");
            reveal_strlit("HTTP response too large");
            reveal_strlit("I/O error");
        }
        crate::text::ascii_bytes(self.as_str())
    }

    pub fn as_str(&self) -> (r: &'static str)
        ensures
            r@ == net_error_text(*self),
    {
        match self {
            NetError::NoInterface => "no network interface",
            NetError::DnsError => "DNS resolution failed",
            NetError::ConnectFailed => "TCP connection failed",
            NetError::Timeout => "request timed out",
            NetError::ParseError => "HTTP parse error",
            NetError::HttpError(_) => "HTTP error",
            NetError::InvalidHeader => "invalid HTTP header",
            NetError::ResponseTooLarge => "HTTP response too large",
            NetError::IoError => "I/O error",
        }
    }
}

/// Host, port and path of a URL.
#[derive(Debug, Clone, PartialEq, Eq)]
pub struct ParsedUrl {
    pub host: Vec<u8>,
    pub port: u16,
    pub path: Vec<u8>,
}

/// Value of a port number: empty text reads as 0, and any non-digit or a
/// value above 65535 is rejected.
pub open spec fn spec_parse_u16(s: Seq<u8>) -> Option<u16> {
    if all_digits(s) && digits_value(s) <= 65535 {
        Some(digits_value(s) as u16)
    } else {
        None
    }
}

/// Parses a decimal port number.
pub fn parse_u16(s: &[u8]) -> (r: Option<u16>)
    ensures
        r == spec_parse_u16(s@),
{
    if s.len() == 0 {
        return Some(0);
    }
    match parse_digits(s, 65535) {
        Some(v) => Some(v as u16),
        None => None,
    }
}

/// Splits `host[:port][/path]` into its parts.
pub open spec fn spec_url_parts(rest: Seq<u8>, default_port: u16) -> Result<
    (Seq<u8>, u16, Seq<u8>),
    NetError,
> {
    let (host_port, path) = match find(rest, 47) {
        Some(i) => (rest.subrange(0, i), rest.subrange(i, rest.len() as int)),
        None => (rest, seq![47u8]),
    };
    let hp = match find(host_port, 58) {
        Some(i) => match spec_parse_u16(host_port.subrange(i + 1, host_port.len() as int)) {
            Some(p) => Ok((host_port.subrange(0, i), p)),
            None => Err(NetError::ParseError),
        },
        None => Ok((host_port, default_port)),
    };
    match hp {
        Ok((host, port)) => if host.len() == 0 {
            Err(NetError::ParseError)
        } else {
            Ok((host, port, path))
        },
        Err(e) => Err(e),
    }
}

pub open spec fn url_view(r: Result<ParsedUrl, NetError>) -> Result<
    (Seq<u8>, u16, Seq<u8>),
    NetError,
> {
    match r {
        Ok(u) => Ok((u.host@, u.port, u.path@)),
        Err(e) => Err(e),
    }
}

fn url_parts(rest: &[u8], default_port: u16) -> (r: Result<ParsedUrl, NetError>)
    ensures
        url_view(r) == spec_url_parts(rest@, default_port),
{
    proof {
        lemma_find_from(rest@, 47, 0);
    }
    let (host_port, path): (&[u8], Vec<u8>) = match find_byte(rest, 47) {
        Some(i) => (vstd::slice::slice_subrange(rest, 0, i), to_vec(vstd::slice::slice_subrange(rest, i, rest.len()))),
        None => {
            let mut p: Vec<u8> = Vec::new();
            p.push(47);
            assert(p@ =~= seq![47u8]);
            (rest, p)
        },
    };
    proof {
        lemma_find_from(host_port@, 58, 0);
    }
    let (host, port): (&[u8], u16) = match find_byte(host_port, 58) {
        Some(i) => {
            let hl = host_port.len();
            assert(i < hl);
            match parse_u16(vstd::slice::slice_subrange(host_port, i + 1, hl)) {
                Some(p) => (vstd::slice::slice_subrange(host_port, 0, i), p),
                None => return Err(NetError::ParseError),
            }
        },
        None => (host_port, default_port),
    };
    if host.len() == 0 {
        return Err(NetError::ParseError);
    }
    Ok(ParsedUrl { host: to_vec(host), port, path })
}

/// A plain `http://` URL.
pub open spec fn spec_parse_url(url: Seq<u8>) -> Result<(Seq<u8>, u16, Seq<u8>), NetError> {
    if has_prefix(url, lit("http://")) {
        spec_url_parts(url.subrange(7, url.len() as int), 80)
    } else {
        Err(NetError::ParseError)
    }
}

/// Parses a simple `http://host[:port][/path]` URL.
pub fn parse_url(url: &[u8]) -> (r: Result<ParsedUrl, NetError>)
    ensures
        url_view(r) == spec_parse_url(url@),
{
    proof {
        reveal_strlit("http://");
    }
    let prefix = ascii_bytes("http://");
    if !starts_with(url, prefix.as_slice()) {
        return Err(NetError::ParseError);
    }
    url_parts(vstd::slice::slice_subrange(url, 7, url.len()), 80)
}

/// An `https://` URL (port 443 by default) or an `http://` URL (port 80).
pub open spec fn spec_parse_url_either(url: Seq<u8>) -> Result<
    (Seq<u8>, u16, Seq<u8>),
    NetError,
> {
    if has_prefix(url, lit("https://")) {
        spec_url_parts(url.subrange(8, url.len() as int), 443)
    } else if has_prefix(url, lit("http://")) {
        spec_url_parts(url.subrange(7, url.len() as int), 80)
    } else {
        Err(NetError::ParseError)
    }
}

/// Parses a URL that may be `http://` or `https://`.
pub fn parse_url_either(url: &[u8]) -> (r: Result<ParsedUrl, NetError>)
    ensures
        url_view(r) == spec_parse_url_either(url@),
{
    proof {
        reveal_strlit("http://");
        reveal_strlit("https://");
    }
    let https = ascii_bytes("https://");
    if starts_with(url, https.as_slice()) {
        return url_parts(vstd::slice::slice_subrange(url, 8, url.len()), 443);
    }
    let http = ascii_bytes("http://");
    if starts_with(url, http.as_slice()) {
        return url_parts(vstd::slice::slice_subrange(url, 7, url.len()), 80);
    }
    Err(NetError::ParseError)
}

/// The bytes of an HTTP/1.1 GET request for `path` on `host`.
pub open spec fn spec_get_request(host: Seq<u8>, path: Seq<u8>) -> Seq<u8> {
    lit("GET ") + path + lit(" HTTP/1.1\r\nHost: ") + host + lit(
        "\r\nConnection: close\r\nUser-Agent: genos/0.1\r\n\r\n",
    )
}

/// Builds an HTTP/1.1 GET request.
pub fn build_get_request(host: &[u8], path: &[u8]) -> (r: Vec<u8>)
    ensures
        r@ == spec_get_request(host@, path@),
{
    proof {
        reveal_strlit("GET ");
        reveal_strlit(" HTTP/1.1\r\nHost: ");
        reveal_strlit("\r\nConnection: close\r\nUser-Agent: genos/0.1\r\n\r\n");
    }
    let mut out = ascii_bytes("GET ");
    push_all(&mut out, path);
    let mid = ascii_bytes(" HTTP/1.1\r\nHost: ");
    push_all(&mut out, mid.as_slice());
    push_all(&mut out, host);
    let tail = ascii_bytes("\r\nConnection: close\r\nUser-Agent: genos/0.1\r\n\r\n");
    push_all(&mut out, tail.as_slice());
    out
}

/// The blank line that ends an HTTP header block.
pub open spec fn crlf2() -> Seq<u8> {
    seq![13u8, 10u8, 13u8, 10u8]
}

/// Offset of the `\r\n\r\n` that ends the header block.
pub fn find_header_end(data: &[u8]) -> (r: Option<usize>)
    ensures
        match r {
            Some(i) => find_sub_from(data@, crlf2(), 0) == Some(i as int),
            None => find_sub_from(data@, crlf2(), 0) is None,
        },
{
    let mut pat: Vec<u8> = Vec::new();
    pat.push(13);
    pat.push(10);
    pat.push(13);
    pat.push(10);
    assert(pat@ =~= crlf2());
    find_sub(data, pat.as_slice(), 0)
}

/// The status code of a status line: the second space-separated field.
pub open spec fn spec_status_code(line: Seq<u8>) -> Result<u16, NetError> {
    match find(line, 32) {
        None => Err(NetError::ParseError),
        Some(i) => {
            let rest = line.subrange(i + 1, line.len() as int);
            let code = match find(rest, 32) {
                Some(j) => rest.subrange(0, j),
                None => rest,
            };
            match spec_parse_u16(code) {
                Some(c) => Ok(c),
                None => Err(NetError::ParseError),
            }
        },
    }
}

/// Parses the status code out of an HTTP status line.
pub fn parse_status_code(line: &[u8]) -> (r: Result<u16, NetError>)
    ensures
        r == spec_status_code(line@),
{
    proof {
        lemma_find_from(line@, 32, 0);
    }
    match find_byte(line, 32) {
        None => Err(NetError::ParseError),
        Some(i) => {
            let ll = line.len();
            assert(i < ll);
            let rest = vstd::slice::slice_subrange(line, i + 1, ll);
            proof {
                lemma_find_from(rest@, 32, 0);
            }
            let code = match find_byte(rest, 32) {
                Some(j) => vstd::slice::slice_subrange(rest, 0, j),
                None => rest,
            };
            match parse_u16(code) {
                Some(c) => Ok(c),
                None => Err(NetError::ParseError),
            }
        },
    }
}

/// Status and body of a raw HTTP response.
pub open spec fn spec_parse_response(data: Seq<u8>) -> Result<(u16, Seq<u8>), NetError> {
    match find_sub_from(data, crlf2(), 0) {
        None => Err(NetError::ParseError),
        Some(e) => {
            let head = data.subrange(0, e);
            if !vstd::utf8::valid_utf8(head) || lines(head).len() == 0 {
                Err(NetError::ParseError)
            } else {
                match spec_status_code(lines(head)[0]) {
                    Ok(code) => Ok((code, data.subrange(e + 4, data.len() as int))),
                    Err(x) => Err(x),
                }
            }
        },
    }
}

/// Parses an HTTP response into status code and body.
pub fn parse_response(data: &[u8]) -> (r: Result<(u16, Vec<u8>), NetError>)
    ensures
        match r {
            Ok((c, b)) => spec_parse_response(data@) == Ok::<(u16, Seq<u8>), NetError>((c, b@)),
            Err(e) => spec_parse_response(data@) == Err::<(u16, Seq<u8>), NetError>(e),
        },
{
    let e = match find_header_end(data) {
        Some(e) => e,
        None => return Err(NetError::ParseError),
    };
    proof {
        lemma_find_sub_from(data@, crlf2(), 0);
    }
    let head = vstd::slice::slice_subrange(data, 0, e);
    if !is_utf8(head) || head.len() == 0 {
        return Err(NetError::ParseError);
    }
    let (first, _) = split_first_line(head);
    let code = match parse_status_code(first) {
        Ok(c) => c,
        Err(x) => return Err(x),
    };
    let dl = data.len();
    assert(e + 4 <= dl);
    let body = to_vec(vstd::slice::slice_subrange(data, e + 4, dl));
    Ok((code, body))
}

/// Fetches a URL with an HTTP GET.
///
/// The bare-metal network stack has no TCP driver, so after validating the
/// URL and framing the request this reports `NoInterface`.
pub fn fetch(url: &[u8]) -> (r: Result<Vec<u8>, NetError>)
    ensures
        match spec_parse_url(url@) {
            Ok(_) => r == Err::<Vec<u8>, NetError>(NetError::NoInterface),
            Err(e) => r == Err::<Vec<u8>, NetError>(e),
        },
{
    let parsed = match parse_url(url) {
        Ok(p) => p,
        Err(e) => return Err(e),
    };
    let _request = build_get_request(parsed.host.as_slice(), parsed.path.as_slice());
    Err(NetError::NoInterface)
}

/// An owned HTTP header for transport-neutral callers such as MCP.
#[derive(Debug, Clone, PartialEq, Eq)]
pub struct HttpHeader {
    pub name: Vec<u8>,
    pub value: Vec<u8>,
}

impl HttpHeader {
    pub fn new(name: &[u8], value: &[u8]) -> (r: Self)
        ensures
            r.name@ == name@,
            r.value@ == value@,
    {
        HttpHeader { name: to_vec(name), value: to_vec(value) }
    }
}

/// Full HTTP response used when status and headers are protocol-significant.
#[derive(Debug, Clone, PartialEq, Eq)]
pub struct HttpResponse {
    pub status: u16,
    pub headers: Vec<HttpHeader>,
    pub body: Vec<u8>,
}

/// Header names are non-empty and use letters, digits, `-` and `_` only.
pub open spec fn spec_valid_header_name(name: Seq<u8>) -> bool {
    name.len() > 0 && forall|i: int|
        0 <= i < name.len() ==> is_token_byte(#[trigger] name[i])
}

pub open spec fn is_token_byte(b: u8) -> bool {
    (48 <= b && b <= 57) || (65 <= b && b <= 90) || (97 <= b && b <= 122) || b == 45 || b == 95
}

/// Whether `s` contains a carriage return or line feed.
pub open spec fn has_line_break(s: Seq<u8>) -> bool {
    exists|i: int| 0 <= i < s.len() && (s[i] == 13 || s[i] == 10)
}

pub fn valid_header_name(name: &[u8]) -> (r: bool)
    ensures
        r == spec_valid_header_name(name@),
{
    if name.len() == 0 {
        return false;
    }
    let mut i: usize = 0;
    while i < name.len()
        invariant
            0 <= i <= name@.len(),
            forall|k: int| 0 <= k < i ==> is_token_byte(#[trigger] name@[k]),
        decreases name.len() - i,
    {
        let b = name[i];
        if !((48 <= b && b <= 57) || (65 <= b && b <= 90) || (97 <= b && b <= 122) || b == 45
            || b == 95) {
            assert(!is_token_byte(name@[i as int]));
            return false;
        }
        i = i + 1;
    }
    true
}

/// Whether a byte string contains `\r` or `\n`.
pub fn contains_line_break(s: &[u8]) -> (r: bool)
    ensures
        r == has_line_break(s@),
{
    let mut i: usize = 0;
    while i < s.len()
        invariant
            0 <= i <= s@.len(),
            forall|k: int| 0 <= k < i ==> s@[k] != 13 && s@[k] != 10,
        decreases s.len() - i,
    {
        if s[i] == 13 || s[i] == 10 {
            return true;
        }
        i = i + 1;
    }
    false
}

/// Methods are non-empty upper-case ASCII letters and dashes.
pub open spec fn spec_valid_method(m: Seq<u8>) -> bool {
    m.len() > 0 && forall|i: int| 0 <= i < m.len() ==> is_method_byte(#[trigger] m[i])
}

pub open spec fn is_method_byte(b: u8) -> bool {
    (65 <= b && b <= 90) || b == 45
}

fn valid_method(m: &[u8]) -> (r: bool)
    ensures
        r == spec_valid_method(m@),
{
    if m.len() == 0 {
        return false;
    }
    let mut i: usize = 0;
    while i < m.len()
        invariant
            0 <= i <= m@.len(),
            forall|k: int| 0 <= k < i ==> is_method_byte(#[trigger] m@[k]),
        decreases m.len() - i,
    {
        if !((65 <= m[i] && m[i] <= 90) || m[i] == 45) {
            assert(!is_method_byte(m@[i as int]));
            return false;
        }
        i = i + 1;
    }
    true
}

/// The header lines `name: value\r\n` of all headers, in order.
pub open spec fn header_lines(hs: Seq<HttpHeader>) -> Seq<u8>
    decreases hs.len(),
{
    if hs.len() == 0 {
        seq![]
    } else {
        header_lines(hs.drop_last()) + hs.last().name@ + lit(": ") + hs.last().value@ + seq![
            13u8,
            10u8,
        ]
    }
}

/// Every header has a valid name and a value without line breaks.
pub open spec fn headers_ok(hs: Seq<HttpHeader>) -> bool {
    forall|i: int|
        0 <= i < hs.len() ==> spec_valid_header_name(#[trigger] hs[i].name@) && !has_line_break(
            hs[i].value@,
        )
}

/// Some header is `Content-Length`, in any letter case.
pub open spec fn has_content_length(hs: Seq<HttpHeader>) -> bool {
    exists|i: int| 0 <= i < hs.len() && lower_seq(#[trigger] hs[i].name@) == lower_seq(lit("Content-Length"))
}

/// The bytes of a request with the given method, target, headers and body.
pub open spec fn spec_http_request(
    method: Seq<u8>,
    host: Seq<u8>,
    path: Seq<u8>,
    hs: Seq<HttpHeader>,
    body: Seq<u8>,
) -> Result<Seq<u8>, NetError> {
    if !spec_valid_method(method) {
        Err(NetError::ParseError)
    } else if !headers_ok(hs) {
        Err(NetError::InvalidHeader)
    } else {
        let start = method + lit(" ") + path + lit(" HTTP/1.1\r\nHost: ") + host + lit(
            "\r\nConnection: close\r\nUser-Agent: genos/0.1\r\n",
        );
        let length = if has_content_length(hs) {
            seq![]
        } else {
            lit("Content-Length: ") + dec(body.len()) + seq![13u8, 10u8]
        };
        Ok(start + header_lines(hs) + length + seq![13u8, 10u8] + body)
    }
}

/// Frames an HTTP/1.1 request with caller-provided headers.
pub fn build_http_request(
    method: &[u8],
    host: &[u8],
    path: &[u8],
    headers: &[HttpHeader],
    body: &[u8],
) -> (r: Result<Vec<u8>, NetError>)
    ensures
        match r {
            Ok(v) => spec_http_request(method@, host@, path@, headers@, body@) == Ok::<
                Seq<u8>,
                NetError,
            >(v@),
            Err(e) => spec_http_request(method@, host@, path@, headers@, body@) == Err::<
                Seq<u8>,
                NetError,
            >(e),
        },
{
    proof {
        reveal_strlit(" ");
        reveal_strlit(": ");
        reveal_strlit(" HTTP/1.1\r\nHost: ");
        reveal_strlit("\r\nConnection: close\r\nUser-Agent: genos/0.1\r\n");
        reveal_strlit("Content-Length");
        reveal_strlit("Content-Length: ");
    }
    if !valid_method(method) {
        return Err(NetError::ParseError);
    }
    let mut request: Vec<u8> = to_vec(method);
    let sp = ascii_bytes(" ");
    push_all(&mut request, sp.as_slice());
    push_all(&mut request, path);
    let mid = ascii_bytes(" HTTP/1.1\r\nHost: ");
    push_all(&mut request, mid.as_slice());
    push_all(&mut request, host);
    let tail = ascii_bytes("\r\nConnection: close\r\nUser-Agent: genos/0.1\r\n");
    push_all(&mut request, tail.as_slice());
    let ghost start = request@;
    let colon = ascii_bytes(": ");
    let cl = ascii_bytes("Content-Length");
    let mut has_cl = false;
    let mut i: usize = 0;
    while i < headers.len()
        invariant
            0 <= i <= headers@.len(),
            spec_valid_method(method@),
            colon@ == lit(": "),
            cl@ == lit("Content-Length"),
            headers_ok(headers@.subrange(0, i as int)),
            has_cl == has_content_length(headers@.subrange(0, i as int)),
            request@ == start + header_lines(headers@.subrange(0, i as int)),
        decreases headers.len() - i,
    {
        let h = &headers[i];
        let ok_name = valid_header_name(h.name.as_slice());
        let bad_value = contains_line_break(h.value.as_slice());
        if !ok_name || bad_value {
            assert(headers@[i as int] == *h);
            assert(!(spec_valid_header_name(headers@[i as int].name@) && !has_line_break(
                headers@[i as int].value@,
            )));
            assert(!headers_ok(headers@));
            return Err(NetError::InvalidHeader);
        }
        if eq_ignore_ascii_case(h.name.as_slice(), cl.as_slice()) {
            has_cl = true;
        }
        push_all(&mut request, h.name.as_slice());
        push_all(&mut request, colon.as_slice());
        push_all(&mut request, h.value.as_slice());
        request.push(13);
        request.push(10);
        let ghost prev = headers@.subrange(0, i as int);
        i = i + 1;
        assert(headers@.subrange(0, i as int).drop_last() =~= prev);
        assert(headers@.subrange(0, i as int) =~= prev.push(headers@[i - 1]));
        assert(request@ =~= start + header_lines(headers@.subrange(0, i as int)));
        assert(has_cl == has_content_length(headers@.subrange(0, i as int))) by {
            if has_content_length(prev) {
                let k = choose|k: int| 0 <= k < prev.len() && lower_seq(#[trigger] prev[k].name@)
                    == lower_seq(lit("Content-Length"));
                assert(headers@.subrange(0, i as int)[k] == prev[k]);
            }
            if has_content_length(headers@.subrange(0, i as int)) {
                let k = choose|k: int|
                    0 <= k < headers@.subrange(0, i as int).len() && lower_seq(
                        #[trigger] headers@.subrange(0, i as int)[k].name@,
                    ) == lower_seq(lit("Content-Length"));
                if k < i - 1 {
                    assert(prev[k] == headers@.subrange(0, i as int)[k]);
                }
            }
        }
    }
    assert(headers@.subrange(0, headers@.len() as int) =~= headers@);
    let ghost before_length = request@;
    if !has_cl {
        let cl_prefix = ascii_bytes("Content-Length: ");
        push_all(&mut request, cl_prefix.as_slice());
        push_dec(&mut request, body.len() as u64);
        request.push(13);
        request.push(10);
    }
    request.push(13);
    request.push(10);
    push_all(&mut request, body);
    proof {
        let length = if has_content_length(headers@) {
            seq![]
        } else {
            lit("Content-Length: ") + dec(body@.len()) + seq![13u8, 10u8]
        };
        assert(request@ =~= start + header_lines(headers@) + length + seq![13u8, 10u8] + body@);
    }
    Ok(request)
}

/// Performs an HTTP request with caller-provided headers.
///
/// The bare-metal network stack has no TCP driver: the URL and the framing
/// are validated, then `NoInterface` is reported.
pub fn request(
    method: &[u8],
    url: &[u8],
    headers: &[HttpHeader],
    body: &[u8],
    timeout_ms: u64,
    max_response_bytes: usize,
) -> (r: Result<HttpResponse, NetError>)
    ensures
        r is Err,
        match spec_parse_url_either(url@) {
            Err(e) => r == Err::<HttpResponse, NetError>(e),
            Ok((host, port, path)) => match spec_http_request(method@, host, path, headers@, body@) {
                Err(e) => r == Err::<HttpResponse, NetError>(e),
                Ok(_) => r == Err::<HttpResponse, NetError>(NetError::NoInterface),
            },
        },
{
    let parsed = match parse_url_either(url) {
        Ok(p) => p,
        Err(e) => return Err(e),
    };
    match build_http_request(method, parsed.host.as_slice(), parsed.path.as_slice(), headers, body) {
        Ok(_) => Err(NetError::NoInterface),
        Err(e) => Err(e),
    }
}


/// The line ending of HTTP framing.
pub open spec fn crlf() -> Seq<u8> {
    seq![13u8, 10u8]
}

/// Position of the first `\r\n` at or after `start`.
pub fn find_crlf(data: &[u8], start: usize) -> (r: Option<usize>)
    ensures
        match r {
            Some(j) => find_sub_from(data@, crlf(), start as int) == Some(j as int),
            None => find_sub_from(data@, crlf(), start as int) is None,
        },
{
    let mut pat: Vec<u8> = Vec::new();
    pat.push(13);
    pat.push(10);
    assert(pat@ =~= crlf());
    find_sub(data, pat.as_slice(), start)
}

/// Whether `b` is a hexadecimal digit.
pub open spec fn is_hex_digit(b: u8) -> bool {
    (48 <= b && b <= 57) || (65 <= b && b <= 70) || (97 <= b && b <= 102)
}

/// Value of one hexadecimal digit.
pub open spec fn hex_digit_value(b: u8) -> nat {
    if 48 <= b && b <= 57 {
        (b - 48) as nat
    } else if 65 <= b && b <= 70 {
        (b - 55) as nat
    } else {
        (b - 87) as nat
    }
}

/// Value of a string of hexadecimal digits.
pub open spec fn hex_value(s: Seq<u8>) -> nat
    decreases s.len(),
{
    if s.len() == 0 {
        0
    } else {
        hex_value(s.drop_last()) * 16 + hex_digit_value(s.last())
    }
}

/// Whether every byte of `s` is a hexadecimal digit.
pub open spec fn all_hex(s: Seq<u8>) -> bool {
    forall|i: int| 0 <= i < s.len() ==> is_hex_digit(#[trigger] s[i])
}

/// A hexadecimal `usize` as read by `usize::from_str_radix(_, 16)`: an
/// optional `+`, then at least one hex digit, with a value that fits.
pub open spec fn spec_parse_hex(s: Seq<u8>) -> Option<nat> {
    let d = if s.len() > 0 && s[0] == 43 {
        s.drop_first()
    } else {
        s
    };
    if d.len() > 0 && all_hex(d) && hex_value(d) <= usize::MAX {
        Some(hex_value(d))
    } else {
        None
    }
}

proof fn lemma_hex_monotone(s: Seq<u8>, k: int)
    requires
        0 <= k <= s.len(),
    ensures
        hex_value(s.subrange(0, k)) <= hex_value(s),
    decreases s.len() - k,
{
    if k < s.len() {
        assert(s.subrange(0, k + 1).drop_last() =~= s.subrange(0, k));
        lemma_hex_monotone(s, k + 1);
    } else {
        assert(s.subrange(0, k) =~= s);
    }
}

/// Parses a chunk size.
pub fn parse_hex_usize(s: &[u8]) -> (r: Option<usize>)
    ensures
        match r {
            Some(v) => spec_parse_hex(s@) == Some(v as nat),
            None => spec_parse_hex(s@) is None,
        },
{
    let d: &[u8] = if s.len() > 0 && s[0] == 43 {
        vstd::slice::slice_subrange(s, 1, s.len())
    } else {
        s
    };
    assert(s@.len() > 0 && s@[0] == 43 ==> d@ =~= s@.drop_first());
    if d.len() == 0 {
        return None;
    }
    let mut acc: u128 = 0;
    let mut i: usize = 0;
    while i < d.len()
        invariant
            0 <= i <= d@.len(),
            d@ == (if s@.len() > 0 && s@[0] == 43 {
                s@.drop_first()
            } else {
                s@
            }),
            forall|k: int| 0 <= k < i ==> is_hex_digit(#[trigger] d@[k]),
            acc == hex_value(d@.subrange(0, i as int)),
            acc <= usize::MAX,
        decreases d.len() - i,
    {
        let b = d[i];
        assert(d@.subrange(0, i + 1).drop_last() =~= d@.subrange(0, i as int));
        let v: u128 = if 48 <= b && b <= 57 {
            (b - 48) as u128
        } else if 65 <= b && b <= 70 {
            (b - 55) as u128
        } else if 97 <= b && b <= 102 {
            (b - 87) as u128
        } else {
            assert(!is_hex_digit(d@[i as int]));
            assert(!all_hex(d@));
            return None;
        };
        assert(v == hex_digit_value(b));
        let next = acc * 16 + v;
        assert(next == hex_value(d@.subrange(0, i + 1)));
        if next > usize::MAX as u128 {
            proof {
                lemma_hex_monotone(d@, i + 1);
            }
            return None;
        }
        acc = next;
        i = i + 1;
    }
    assert(d@.subrange(0, d@.len() as int) =~= d@);
    Some(acc as usize)
}

/// The part of `s` before its first `;`.
pub open spec fn before_semicolon(s: Seq<u8>) -> Seq<u8> {
    match find(s, 59) {
        Some(i) => s.subrange(0, i),
        None => s,
    }
}

/// `a + b`, saturating at `usize::MAX`.
pub open spec fn saturating_sum(a: nat, b: nat) -> nat {
    if a + b > usize::MAX {
        usize::MAX as nat
    } else {
        a + b
    }
}

/// Decodes a chunked transfer encoding from `pos`, with `acc` already
/// decoded: each chunk is a hex size line (extensions after `;` ignored),
/// the data, and a line ending; a zero size ends the body.
pub open spec fn spec_chunked_from(data: Seq<u8>, pos: nat, acc: Seq<u8>, max: nat) -> Result<
    Seq<u8>,
    NetError,
>
    decreases data.len() - pos,
{
    match find_sub_from(data, crlf(), pos as int) {
        None => Err(NetError::ParseError),
        Some(le) => {
            let text = data.subrange(pos as int, le);
            if !vstd::utf8::valid_utf8(text) {
                Err(NetError::ParseError)
            } else {
                match spec_parse_hex(utrim(before_semicolon(text))) {
                    None => Err(NetError::ParseError),
                    Some(size) => {
                        let start = le + 2;
                        let end = start + size;
                        if size == 0 {
                            Ok(acc)
                        } else if saturating_sum(acc.len(), size) > max {
                            Err(NetError::ResponseTooLarge)
                        } else if end > usize::MAX || end > data.len() {
                            Err(NetError::ParseError)
                        } else if end + 2 > data.len() || data.subrange(end, end + 2) != crlf() {
                            Err(NetError::ParseError)
                        } else {
                            proof {
                                lemma_find_sub_from(data, crlf(), pos as int);
                            }
                            spec_chunked_from(
                                data,
                                (end + 2) as nat,
                                acc + data.subrange(start, end),
                                max,
                            )
                        }
                    },
                }
            }
        },
    }
}

/// A chunked body decoded from the start of `data`.
pub open spec fn spec_decode_chunked(data: Seq<u8>, max: nat) -> Result<Seq<u8>, NetError> {
    spec_chunked_from(data, 0, seq![], max)
}

/// Decodes a `Transfer-Encoding: chunked` body of at most `max_body_bytes`.
pub fn decode_chunked(data: &[u8], max_body_bytes: usize) -> (r: Result<Vec<u8>, NetError>)
    ensures
        match r {
            Ok(v) => spec_decode_chunked(data@, max_body_bytes as nat) == Ok::<Seq<u8>, NetError>(
                v@,
            ),
            Err(e) => spec_decode_chunked(data@, max_body_bytes as nat) == Err::<
                Seq<u8>,
                NetError,
            >(e),
        },
{
    let mut position: usize = 0;
    let mut output: Vec<u8> = Vec::new();
    loop
        invariant
            position <= data@.len(),
            spec_decode_chunked(data@, max_body_bytes as nat) == spec_chunked_from(
                data@,
                position as nat,
                output@,
                max_body_bytes as nat,
            ),
        decreases data@.len() - position,
    {
        let ghost pos0 = position;
        let ghost out0 = output@;
        proof {
            lemma_find_sub_from(data@, crlf(), position as int);
        }
        let line_end = match find_crlf(data, position) {
            Some(e) => e,
            None => return Err(NetError::ParseError),
        };
        let text = vstd::slice::slice_subrange(data, position, line_end);
        if !is_utf8(text) {
            return Err(NetError::ParseError);
        }
        proof {
            lemma_find_from(text@, 59, 0);
        }
        let before: &[u8] = match find_byte(text, 59) {
            Some(i) => vstd::slice::slice_subrange(text, 0, i),
            None => text,
        };
        let size = match parse_hex_usize(utrim_bytes(before)) {
            Some(v) => v,
            None => return Err(NetError::ParseError),
        };
        let dl = data.len();
        assert(line_end + 2 <= dl);
        let start = line_end + 2;
        if size == 0 {
            return Ok(output);
        }
        let total: usize = if size > usize::MAX - output.len() {
            usize::MAX
        } else {
            output.len() + size
        };
        if total > max_body_bytes {
            return Err(NetError::ResponseTooLarge);
        }
        if size > usize::MAX - start {
            return Err(NetError::ParseError);
        }
        let end = start + size;
        if end > data.len() {
            return Err(NetError::ParseError);
        }
        if data.len() - end < 2 || data[end] != 13 || data[end + 1] != 10 {
            proof {
                if end + 2 <= data@.len() {
                    assert(data@.subrange(end as int, end + 2)[0] == data@[end as int]);
                    assert(data@.subrange(end as int, end + 2)[1] == data@[end + 1]);
                }
            }
            return Err(NetError::ParseError);
        }
        assert(data@.subrange(end as int, end + 2) =~= crlf());
        push_all(&mut output, vstd::slice::slice_subrange(data, start, end));
        position = end + 2;
        assert(spec_chunked_from(data@, pos0 as nat, out0, max_body_bytes as nat)
            == spec_chunked_from(data@, position as nat, output@, max_body_bytes as nat));
    }
}


/// Name and value of a header line `name: value`, both trimmed.
pub open spec fn header_of_line(line: Seq<u8>) -> (Seq<u8>, Seq<u8>) {
    let i = find(line, 58).unwrap();
    (utrim(line.subrange(0, i)), utrim(line.subrange(i + 1, line.len() as int)))
}

/// Whether a header line announces `Transfer-Encoding: chunked` (the name
/// is compared as written, the value once trimmed, both ignoring case).
pub open spec fn is_chunked_line(line: Seq<u8>) -> bool {
    match find(line, 58) {
        Some(i) => lower_seq(line.subrange(0, i)) == lower_seq(lit("Transfer-Encoding"))
            && lower_seq(utrim(line.subrange(i + 1, line.len() as int))) == lower_seq(
            lit("chunked"),
        ),
        None => false,
    }
}

/// Every header line holds a `:`.
pub open spec fn all_have_colon(ls: Seq<Seq<u8>>) -> bool {
    forall|k: int| 0 <= k < ls.len() ==> (find(#[trigger] ls[k], 58) is Some)
}

/// Some header line announces a chunked body.
pub open spec fn any_chunked(ls: Seq<Seq<u8>>) -> bool {
    exists|k: int| 0 <= k < ls.len() && is_chunked_line(#[trigger] ls[k])
}

/// Name and value of each header, in order.
pub open spec fn headers_view(hs: Seq<HttpHeader>) -> Seq<(Seq<u8>, Seq<u8>)> {
    hs.map_values(|h: HttpHeader| (h.name@, h.value@))
}

/// Status, headers and body of a response.
pub open spec fn response_view(r: HttpResponse) -> (u16, Seq<(Seq<u8>, Seq<u8>)>, Seq<u8>) {
    (r.status, headers_view(r.headers@), r.body@)
}

/// Status, headers and body of a raw response with a body of at most `max`
/// bytes after any chunked decoding.
pub open spec fn spec_parse_full_response(data: Seq<u8>, max: nat) -> Result<
    (u16, Seq<(Seq<u8>, Seq<u8>)>, Seq<u8>),
    NetError,
> {
    match find_sub_from(data, crlf2(), 0) {
        None => Err(NetError::ParseError),
        Some(e) => {
            let head = data.subrange(0, e);
            let ls = lines(head);
            if !vstd::utf8::valid_utf8(head) || ls.len() == 0 {
                Err(NetError::ParseError)
            } else {
                match spec_status_code(ls[0]) {
                    Err(x) => Err(x),
                    Ok(status) => {
                        let hl = ls.drop_first();
                        if !all_have_colon(hl) {
                            Err(NetError::ParseError)
                        } else {
                            let headers = hl.map_values(|l: Seq<u8>| header_of_line(l));
                            let wire = data.subrange(e + 4, data.len() as int);
                            if any_chunked(hl) {
                                match spec_decode_chunked(wire, max) {
                                    Ok(b) => Ok((status, headers, b)),
                                    Err(x) => Err(x),
                                }
                            } else if wire.len() > max {
                                Err(NetError::ResponseTooLarge)
                            } else {
                                Ok((status, headers, wire))
                            }
                        }
                    },
                }
            }
        },
    }
}

/// Parses status, headers and a bounded body out of a raw response.
pub fn parse_full_response(data: &[u8], max_body_bytes: usize) -> (r: Result<
    HttpResponse,
    NetError,
>)
    ensures
        match r {
            Ok(resp) => spec_parse_full_response(data@, max_body_bytes as nat) == Ok::<
                (u16, Seq<(Seq<u8>, Seq<u8>)>, Seq<u8>),
                NetError,
            >(response_view(resp)),
            Err(e) => spec_parse_full_response(data@, max_body_bytes as nat) == Err::<
                (u16, Seq<(Seq<u8>, Seq<u8>)>, Seq<u8>),
                NetError,
            >(e),
        },
{
    proof {
        reveal_strlit("Transfer-Encoding");
        reveal_strlit("chunked");
    }
    let e = match find_header_end(data) {
        Some(e) => e,
        None => return Err(NetError::ParseError),
    };
    proof {
        lemma_find_sub_from(data@, crlf2(), 0);
    }
    let head = vstd::slice::slice_subrange(data, 0, e);
    if !is_utf8(head) || head.len() == 0 {
        return Err(NetError::ParseError);
    }
    let ghost ls = lines(head@);
    let (first, rest0) = split_first_line(head);
    let status = match parse_status_code(first) {
        Ok(c) => c,
        Err(x) => return Err(x),
    };
    let ghost hl = ls.drop_first();
    assert(hl =~= lines(rest0@));
    let te = ascii_bytes("Transfer-Encoding");
    let ch = ascii_bytes("chunked");
    let mut headers: Vec<HttpHeader> = Vec::new();
    let mut chunked = false;
    let mut rest = rest0;
    let ghost mut done: Seq<Seq<u8>> = seq![];
    while rest.len() > 0
        invariant
            te@ == lit("Transfer-Encoding"),
            ch@ == lit("chunked"),
            find_sub_from(data@, crlf2(), 0) == Some(e as int),
            head@ == data@.subrange(0, e as int),
            vstd::utf8::valid_utf8(head@),
            ls == lines(head@),
            ls.len() > 0,
            spec_status_code(ls[0]) == Ok::<u16, NetError>(status),
            hl == ls.drop_first(),
            hl == done + lines(rest@),
            all_have_colon(done),
            headers_view(headers@) == done.map_values(|l: Seq<u8>| header_of_line(l)),
            chunked == any_chunked(done),
        decreases rest@.len(),
    {
        let (line, next) = split_first_line(rest);
        proof {
            lemma_find_from(line@, 58, 0);
        }
        let i = match find_byte(line, 58) {
            Some(i) => i,
            None => {
                assert(hl[done.len() as int] == line@);
                assert(!all_have_colon(hl));
                return Err(NetError::ParseError);
            },
        };
        let ll = line.len();
        assert(i < ll);
        let name = vstd::slice::slice_subrange(line, 0, i);
        let value = utrim_bytes(vstd::slice::slice_subrange(line, i + 1, ll));
        let is_ch = eq_ignore_ascii_case(name, te.as_slice()) && eq_ignore_ascii_case(
            value,
            ch.as_slice(),
        );
        assert(is_ch == is_chunked_line(line@));
        if is_ch {
            chunked = true;
        }
        let hdr = HttpHeader::new(utrim_bytes(name), value);
        assert(header_of_line(line@) == (hdr.name@, hdr.value@));
        let ghost h0 = headers@;
        headers.push(hdr);
        let ghost done0 = done;
        proof {
            done = done.push(line@);
            assert(done.drop_last() =~= done0);
            assert(hl =~= done + lines(next@));
            assert(headers@ =~= h0.push(hdr));
            assert(h0.len() == done0.len()) by {
                assert(headers_view(h0).len() == h0.len());
                assert(done0.map_values(|l: Seq<u8>| header_of_line(l)).len() == done0.len());
            }
            assert forall|k: int| 0 <= k < done.len() implies #[trigger] headers_view(headers@)[k]
                == header_of_line(done[k]) by {
                if k < done0.len() {
                    assert(headers@[k] == h0[k]);
                    assert(done[k] == done0[k]);
                    assert(headers_view(h0)[k] == done0.map_values(
                        |l: Seq<u8>| header_of_line(l),
                    )[k]);
                }
            }
            assert(headers_view(headers@) =~= done.map_values(|l: Seq<u8>| header_of_line(l)));
            assert(chunked == any_chunked(done)) by {
                if any_chunked(done0) {
                    let k = choose|k: int| 0 <= k < done0.len() && is_chunked_line(#[trigger] done0[k]);
                    assert(done[k] == done0[k]);
                }
                if any_chunked(done) {
                    let k = choose|k: int| 0 <= k < done.len() && is_chunked_line(#[trigger] done[k]);
                    if k < done0.len() {
                        assert(done0[k] == done[k]);
                    }
                }
            }
            assert forall|k: int| 0 <= k < done.len() implies (find(#[trigger] done[k], 58) is Some) by {
                if k < done0.len() {
                    assert(done0[k] == done[k]);
                }
            }
        }
        rest = next;
    }
    assert(lines(rest@) =~= seq![]);
    assert(hl =~= done);
    let dl = data.len();
    assert(e + 4 <= dl);
    let wire = vstd::slice::slice_subrange(data, e + 4, dl);
    let body = if chunked {
        match decode_chunked(wire, max_body_bytes) {
            Ok(b) => b,
            Err(x) => return Err(x),
        }
    } else {
        if wire.len() > max_body_bytes {
            return Err(NetError::ResponseTooLarge);
        }
        to_vec(wire)
    };
    Ok(HttpResponse { status, headers, body })
}


/// Whether a header line is a `Location:` header, in any letter case.
pub open spec fn is_location_line(l: Seq<u8>) -> bool {
    l.len() >= 9 && lower_seq(l.subrange(0, 9)) == lit("location:")
}

/// The trimmed value of the first `Location:` line.
pub open spec fn first_location(ls: Seq<Seq<u8>>) -> Option<Seq<u8>>
    decreases ls.len(),
{
    if ls.len() == 0 {
        None
    } else if is_location_line(ls[0]) {
        Some(utrim(ls[0].subrange(9, ls[0].len() as int)))
    } else {
        first_location(ls.drop_first())
    }
}

/// The redirect target named by a raw response, if any.
pub open spec fn spec_location(data: Seq<u8>) -> Option<Seq<u8>> {
    match find_sub_from(data, crlf2(), 0) {
        None => None,
        Some(e) => {
            let head = data.subrange(0, e);
            if !vstd::utf8::valid_utf8(head) {
                None
            } else {
                first_location(lines(head))
            }
        },
    }
}

/// Extracts the `Location` header from a raw HTTP response.
pub fn extract_location_header(response: &[u8]) -> (r: Option<Vec<u8>>)
    ensures
        match r {
            Some(v) => spec_location(response@) == Some(v@),
            None => spec_location(response@) is None,
        },
{
    proof {
        reveal_strlit("location:");
    }
    let e = match find_header_end(response) {
        Some(e) => e,
        None => return None,
    };
    proof {
        lemma_find_sub_from(response@, crlf2(), 0);
    }
    let head = vstd::slice::slice_subrange(response, 0, e);
    if !is_utf8(head) {
        return None;
    }
    let key = ascii_bytes("location:");
    assert(key@ =~= seq![108u8, 111u8, 99u8, 97u8, 116u8, 105u8, 111u8, 110u8, 58u8]);
    assert(lower_seq(key@) =~= key@);
    let mut rest = head;
    while rest.len() > 0
        invariant
            key@ == lit("location:"),
            lower_seq(key@) == key@,
            spec_location(response@) == first_location(lines(rest@)),
        decreases rest@.len(),
    {
        let (line, next) = split_first_line(rest);
        assert(lines(rest@)[0] == line@);
        assert(lines(rest@).drop_first() =~= lines(next@));
        if line.len() >= 9 {
            let ll = line.len();
            if eq_ignore_ascii_case(vstd::slice::slice_subrange(line, 0, 9), key.as_slice()) {
                return Some(to_vec(utrim_bytes(vstd::slice::slice_subrange(line, 9, ll))));
            }
        }
        rest = next;
    }
    None
}

/// What a hosted fetch does with a response it has read.
#[derive(Debug, Clone, PartialEq, Eq)]
pub enum FetchStep {
    /// Follow a redirect to this URL.
    Redirect(Vec<u8>),
    /// The response body.
    Body(Vec<u8>),
}

/// The most redirects a fetch follows.
pub const MAX_REDIRECTS: u8 = 5;

/// The target of a fetch after `depth` redirects: too deep a chain, or a
/// URL that is neither `http://` nor `https://`, is a parse error.
pub fn check_fetch_target(url: &[u8], depth: u8) -> (r: Result<ParsedUrl, NetError>)
    ensures
        depth > MAX_REDIRECTS ==> r == Err::<ParsedUrl, NetError>(NetError::ParseError),
        depth <= MAX_REDIRECTS ==> url_view(r) == spec_parse_url_either(url@),
{
    if depth > MAX_REDIRECTS {
        return Err(NetError::ParseError);
    }
    parse_url_either(url)
}

/// Decides what to do with a raw response: follow a 3xx redirect that
/// names a location, fail on a 4xx/5xx status, or hand back the body.
pub fn fetch_step(response: &[u8]) -> (r: Result<FetchStep, NetError>)
    ensures
        match spec_parse_response(response@) {
            Err(e) => r == Err::<FetchStep, NetError>(e),
            Ok((status, body)) => if 300 <= status < 400 && spec_location(response@) is Some {
                r matches Ok(FetchStep::Redirect(l)) && l@ == spec_location(response@).unwrap()
            } else if status >= 400 {
                r == Err::<FetchStep, NetError>(NetError::HttpError(status))
            } else {
                r matches Ok(FetchStep::Body(b)) && b@ == body
            },
        },
{
    let (status, body) = match parse_response(response) {
        Ok(p) => p,
        Err(e) => return Err(e),
    };
    if status >= 300 && status < 400 {
        match extract_location_header(response) {
            Some(l) => return Ok(FetchStep::Redirect(l)),
            None => {},
        }
    }
    if status >= 400 {
        return Err(NetError::HttpError(status));
    }
    Ok(FetchStep::Body(body))
}

/// The body of a fetch that must be text: a body that is not UTF-8 is a
/// parse error, and a failed fetch keeps its error.
pub fn text_body(fetched: Result<Vec<u8>, NetError>) -> (r: Result<Vec<u8>, NetError>)
    ensures
        match fetched {
            Ok(b) => if vstd::utf8::valid_utf8(b@) {
                r matches Ok(t) && t@ == b@
            } else {
                r == Err::<Vec<u8>, NetError>(NetError::ParseError)
            },
            Err(e) => r == Err::<Vec<u8>, NetError>(e),
        },
{
    match fetched {
        Ok(b) => if is_utf8(b.as_slice()) {
            Ok(b)
        } else {
            Err(NetError::ParseError)
        },
        Err(e) => Err(e),
    }
}

} // verus!
