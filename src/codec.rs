use vstd::prelude::*;
use vstd::string::*;
use vstd::utf8::*;
use crate::error::{MioError, MioResult};
use crate::request::{find_last, form_pairs, lookup, method_named, pairs_view, query_of, Method, Request};
use crate::response::{reason_of, Response};
use crate::stream_data::{PeerAddr, StreamData};

verus! {

/// A request head as the parser hands it over: method, path, header names
/// with their raw values, and how many bytes of the buffer the head takes.
pub struct RawHead {
    pub method: String,
    pub path: String,
    pub headers: Vec<(String, Vec<u8>)>,
    pub len: usize,
}

pub type HeadView = (Seq<char>, Seq<char>, Seq<(Seq<char>, Seq<u8>)>, nat);

pub open spec fn raw_head_view(h: RawHead) -> HeadView {
    (h.method@, h.path@, h.headers@.map_values(|p: (String, Vec<u8>)| (p.0@, p.1@)), h.len as nat)
}

/// A parse outcome as plain values: `None` for a malformed head, `Some(None)`
/// for a head that is not complete yet, else the head.
pub open spec fn parsed_view(p: Result<Option<RawHead>, httparse::Error>) -> Option<Option<HeadView>> {
    match p {
        Err(_) => None,
        Ok(None) => Some(None),
        Ok(Some(h)) => Some(Some(raw_head_view(h))),
    }
}

/// What the HTTP/1.1 request parser makes of a buffer, with room for 24 headers.
pub uninterp spec fn parsed_head(b: Seq<u8>) -> Option<Option<HeadView>>;

/// Relies on httparse::Request::parse, with room for 24 headers: an error for a
/// malformed head, `Partial` for an unfinished one, else the method, path,
/// headers and the offset of the body, which lies within the buffer.
#[verifier::external_body]
fn parse_head(b: &[u8]) -> (r: Result<Option<RawHead>, httparse::Error>)
    ensures
        parsed_view(r) == parsed_head(b@),
        r matches Ok(Some(h)) ==> h.len <= b@.len(),
{
    let mut headers = [httparse::EMPTY_HEADER; 24];
    let mut req = httparse::Request::new(&mut headers);
    match req.parse(b) {
        Ok(httparse::Status::Complete(len)) => Ok(Some(RawHead {
            method: req.method.unwrap().to_owned(),
            path: req.path.unwrap().to_owned(),
            headers: req.headers.iter().map(|h| (h.name.to_owned(), h.value.to_vec())).collect(),
            len,
        })),
        Ok(httparse::Status::Partial) => Ok(None),
        Err(e) => Err(e),
    }
}

pub open spec fn is_ascii_bytes(b: Seq<u8>) -> bool {
    forall|i: int| 0 <= i < b.len() ==> b[i] < 128
}

/// The text that bytes decode to, with invalid UTF-8 replaced.
pub uninterp spec fn lossy_text(b: Seq<u8>) -> Seq<char>;

/// Relies on String::from_utf8_lossy: the text of the bytes, with ASCII bytes
/// (valid UTF-8) turned each into the character of the same code.
#[verifier::external_body]
fn lossy(b: &[u8]) -> (r: String)
    ensures
        r@ == lossy_text(b@),
        is_ascii_bytes(b@) ==> r@.len() == b@.len() && forall|i: int| 0 <= i < b@.len() ==> r@[i] as u32 == b@[i] as u32,
{
    String::from_utf8_lossy(b).into_owned()
}

pub open spec fn text_headers(raw: Seq<(Seq<char>, Seq<u8>)>) -> Seq<(Seq<char>, Seq<char>)> {
    raw.map_values(|p: (Seq<char>, Seq<u8>)| (p.0, lossy_text(p.1)))
}

/// The headers with their values read as text.
pub fn header_texts(raw: &Vec<(String, Vec<u8>)>) -> (r: Vec<(String, String)>)
    ensures
        pairs_view(r@) == text_headers(raw@.map_values(|p: (String, Vec<u8>)| (p.0@, p.1@))),
        r@.len() == raw@.len(),
        forall|i: int|
            0 <= i < raw@.len() && is_ascii_bytes(#[trigger] raw@[i].1@) ==> r@[i].1@.len() == raw@[i].1@.len()
                && forall|j: int| 0 <= j < raw@[i].1@.len() ==> r@[i].1@[j] as u32 == raw@[i].1@[j] as u32,
{
    let ghost rv = raw@.map_values(|p: (String, Vec<u8>)| (p.0@, p.1@));
    let mut out: Vec<(String, String)> = Vec::new();
    let mut i: usize = 0;
    while i < raw.len()
        invariant
            i <= raw@.len(),
            rv == raw@.map_values(|p: (String, Vec<u8>)| (p.0@, p.1@)),
            pairs_view(out@) == text_headers(rv.subrange(0, i as int)),
            out@.len() == i,
            forall|k: int|
                0 <= k < i && is_ascii_bytes(#[trigger] raw@[k].1@) ==> out@[k].1@.len() == raw@[k].1@.len()
                    && forall|j: int| 0 <= j < raw@[k].1@.len() ==> out@[k].1@[j] as u32 == raw@[k].1@[j] as u32,
        decreases raw@.len() - i,
    {
        let name = raw[i].0.clone();
        let value = lossy(raw[i].1.as_slice());
        let ghost before = out@;
        out.push((name, value));
        assert(text_headers(rv.subrange(0, i + 1)) =~= text_headers(rv.subrange(0, i as int)).push((rv[i as int].0, lossy_text(rv[i as int].1))));
        assert(out@.drop_last() =~= before);
        assert(pairs_view(out@) =~= pairs_view(before).push((out@.last().0@, out@.last().1@)));
        i = i + 1;
    }
    assert(rv.subrange(0, raw@.len() as int) =~= rv);
    out
}

pub open spec fn is_digit(c: char) -> bool {
    '0' <= c && c <= '9'
}

/// The number that a string of decimal digits denotes.
pub open spec fn digits_value(s: Seq<char>) -> nat
    decreases s.len(),
{
    if s.len() == 0 {
        0
    } else {
        digits_value(s.drop_last()) * 10 + ((s.last() as u32) - 48) as nat
    }
}

pub open spec fn all_digits(d: Seq<char>) -> bool {
    forall|i: int| 0 <= i < d.len() ==> is_digit(#[trigger] d[i])
}

/// `s` without one leading `+`.
pub open spec fn unsigned_part(s: Seq<char>) -> Seq<char> {
    if s.len() > 0 && s[0] == '+' { s.drop_first() } else { s }
}

/// The number written as `s`: decimal digits after an optional `+`, at least one.
pub open spec fn decimal_value(s: Seq<char>) -> Option<nat> {
    let d = unsigned_part(s);
    if d.len() > 0 && all_digits(d) {
        Some(digits_value(d))
    } else {
        None
    }
}

proof fn lemma_digits_prefix(s: Seq<char>, k: int)
    requires
        0 <= k <= s.len(),
        forall|i: int| 0 <= i < s.len() ==> is_digit(#[trigger] s[i]),
    ensures
        digits_value(s.subrange(0, k)) <= digits_value(s),
    decreases s.len() - k,
{
    if k < s.len() {
        assert(s.drop_last().subrange(0, k) == s.subrange(0, k));
        lemma_digits_prefix(s.drop_last(), k);
    } else {
        assert(s.subrange(0, k) == s);
    }
}

/// Reads a decimal number that fits in `usize`.
pub fn parse_usize(s: &str) -> (r: Option<usize>)
    ensures
        r is Some <==> (decimal_value(s@) is Some && decimal_value(s@).unwrap() <= usize::MAX),
        r matches Some(v) ==> decimal_value(s@) == Some(v as nat),
{
    let n = s.unicode_len();
    let mut start: usize = 0;
    if n > 0 && s.get_char(0) == '+' {
        start = 1;
    }
    let ghost d = unsigned_part(s@);
    assert(d == s@.subrange(start as int, n as int));
    if start == n {
        assert(d.len() == 0);
        return None;
    }
    let mut i: usize = start;
    while i < n
        invariant
            start <= i <= n,
            n == s@.len(),
            d == s@.subrange(start as int, n as int),
            d == unsigned_part(s@),
            forall|j: int| 0 <= j < i - start ==> is_digit(#[trigger] d[j]),
        decreases n - i,
    {
        let c = s.get_char(i);
        if !('0' <= c && c <= '9') {
            assert(!is_digit(d[i - start]));
            assert(!all_digits(d));
            return None;
        }
        i = i + 1;
    }
    let mut v: usize = 0;
    i = start;
    while i < n
        invariant
            start <= i <= n,
            n == s@.len(),
            d == s@.subrange(start as int, n as int),
            d == unsigned_part(s@),
            forall|j: int| 0 <= j < d.len() ==> is_digit(#[trigger] d[j]),
            v as nat == digits_value(d.subrange(0, i - start)),
        decreases n - i,
    {
        let c = s.get_char(i);
        assert(c == d[i - start]);
        assert(is_digit(d[i - start]));
        let digit: usize = (c as u32 - 48) as usize;
        assert(d.subrange(0, i + 1 - start).drop_last() == d.subrange(0, i - start));
        assert(d.subrange(0, i + 1 - start).last() == c);
        assert(digits_value(d.subrange(0, i + 1 - start)) == v as nat * 10 + digit as nat);
        match v.checked_mul(10) {
            Some(t) => match t.checked_add(digit) {
                Some(u) => {
                    v = u;
                },
                None => {
                    proof {
                        lemma_digits_prefix(d, i + 1 - start);
                        assert(all_digits(d));
                    }
                    return None;
                },
            },
            None => {
                proof {
                    lemma_digits_prefix(d, i + 1 - start);
                    assert(all_digits(d));
                }
                return None;
            },
        }
        i = i + 1;
    }
    assert(d.subrange(0, n - start) == d);
    assert(all_digits(d));
    Some(v)
}

/// What decoding makes of a buffer.
pub enum Decoded {
    /// The head is malformed.
    Malformed,
    /// The head is not complete.
    Partial,
    /// The method is not one the server knows.
    UnknownMethod,
    /// `Content-Length` is not a number that fits in `usize`.
    BadLength,
    /// Fewer body bytes are buffered than `Content-Length` declares.
    Incomplete,
    /// A whole request: method, path, headers and body.
    Done(Method, Seq<char>, Seq<(Seq<char>, Seq<char>)>, Seq<u8>),
}

/// How much of the bytes after a head is its body.
pub enum Extent {
    /// `Content-Length` is not a number that fits in `usize`.
    BadLength,
    /// `Content-Length` declares more bytes than there are.
    Incomplete,
    /// The body is this many bytes.
    Take(nat),
}

/// The body's extent for headers `hs`, with `avail` bytes after the head:
/// what `Content-Length` declares, or all of them when it is absent.
pub open spec fn body_extent(hs: Seq<(Seq<char>, Seq<char>)>, avail: nat) -> Extent {
    match lookup(hs, "Content-Length"@) {
        None => Extent::Take(avail),
        Some(v) => match decimal_value(v) {
            None => Extent::BadLength,
            Some(n) => if n > usize::MAX {
                Extent::BadLength
            } else if n > avail {
                Extent::Incomplete
            } else {
                Extent::Take(n)
            },
        },
    }
}

/// The body length for `headers` when `avail` bytes follow the head: an error
/// for a malformed `Content-Length`, `None` while the body is not all there.
pub fn body_length(headers: &Vec<(String, String)>, avail: usize) -> (r: MioResult<Option<usize>>)
    ensures
        match body_extent(pairs_view(headers@), avail as nat) {
            Extent::BadLength => r matches Err(MioError::ParseIntError),
            Extent::Incomplete => r matches Ok(None),
            Extent::Take(n) => r matches Ok(Some(k)) && k == n,
        },
{
    match find_last(headers, "Content-Length") {
        Some(v) => match parse_usize(v.as_str()) {
            Some(n) => {
                if n > avail {
                    Ok(None)
                } else {
                    Ok(Some(n))
                }
            },
            None => Err(MioError::ParseIntError),
        },
        None => Ok(Some(avail)),
    }
}

/// Decoding of the buffer `reader`, whose head parses as `head`.
pub open spec fn decoded(reader: Seq<u8>, head: Option<Option<HeadView>>) -> Decoded {
    match head {
        None => Decoded::Malformed,
        Some(None) => Decoded::Partial,
        Some(Some((m, p, raw, len))) => if len > reader.len() {
            Decoded::Partial
        } else {
            match method_named(m) {
                None => Decoded::UnknownMethod,
                Some(meth) => {
                    let hs = text_headers(raw);
                    let rest = reader.subrange(len as int, reader.len() as int);
                    match body_extent(hs, rest.len()) {
                        Extent::BadLength => Decoded::BadLength,
                        Extent::Incomplete => Decoded::Incomplete,
                        Extent::Take(n) => Decoded::Done(meth, p, hs, rest.subrange(0, n as int)),
                    }
                },
            }
        },
    }
}

/// `r` is what decoding returns when it comes to `d`, for a peer at `addr`.
pub open spec fn decode_returns(r: MioResult<Option<Request>>, d: Decoded, addr: PeerAddr) -> bool {
    match d {
        Decoded::Malformed => r matches Err(MioError::HttpParseError(_)),
        Decoded::Partial => r matches Err(MioError::Error(_)),
        Decoded::UnknownMethod => r matches Err(MioError::Error(_)),
        Decoded::BadLength => r matches Err(MioError::ParseIntError),
        Decoded::Incomplete => r matches Ok(None),
        Decoded::Done(m, p, hs, body) => r matches Ok(Some(q)) && q.method == m && q.path@ == p
            && pairs_view(q.headers@) == hs && q.data@ == body && q.params@.len() == 0
            && pairs_view(q.querys@) == form_pairs(query_of(p)) && (query_of(p).len() == 0 ==> q.querys@.len() == 0)
            && q.remote_addr.ip@ == addr.ip@
            && q.remote_addr.port == addr.port,
    }
}

/// The buffer after decoding: emptied once a whole request is taken, else kept.
pub open spec fn reader_after(reader: Seq<u8>, d: Decoded) -> Seq<u8> {
    match d {
        Decoded::Done(..) => Seq::empty(),
        _ => reader,
    }
}

/// The decimal digits of `n`, as ASCII bytes.
pub open spec fn decimal_bytes(n: nat) -> Seq<u8>
    decreases n,
{
    if n < 10 {
        seq![(48 + n) as u8]
    } else {
        decimal_bytes(n / 10).push((48 + n % 10) as u8)
    }
}

/// `name: value` lines, one per header, in order.
pub open spec fn header_lines(hs: Seq<(Seq<char>, Seq<char>)>) -> Seq<u8>
    decreases hs.len(),
{
    if hs.len() == 0 {
        Seq::empty()
    } else {
        header_lines(hs.drop_last()) + encode_utf8(hs.last().0) + encode_utf8(": "@) + encode_utf8(hs.last().1)
            + encode_utf8("\r\n"@)
    }
}

/// The `Content-Length` line, when a length is declared.
pub open spec fn length_line(length: Option<usize>) -> Seq<u8> {
    match length {
        Some(n) => encode_utf8("Content-Length: "@) + decimal_bytes(n as nat) + encode_utf8("\r\n"@),
        None => Seq::empty(),
    }
}

/// The bytes of a response dated `date`: status line, `Date`, `Server`, the
/// declared length, the response's headers, a blank line and the body.
pub open spec fn response_bytes(r: Response, date: Seq<char>) -> Seq<u8> {
    encode_utf8("HTTP/1.1 "@) + decimal_bytes(r.status_code.0 as nat) + encode_utf8(" "@) + encode_utf8(
        reason_of(r.status_code.0),
    ) + encode_utf8("\r\n"@) + encode_utf8("Date: "@) + encode_utf8(date) + encode_utf8("\r\n"@) + encode_utf8(
        "Server: Webserver\r\n"@,
    ) + length_line(r.data_length) + header_lines(pairs_view(r.headers@)) + encode_utf8("\r\n"@) + r.data@
}

fn push_bytes(out: &mut Vec<u8>, b: &[u8])
    ensures
        final(out)@ == old(out)@ + b@,
{
    let mut i: usize = 0;
    while i < b.len()
        invariant
            i <= b@.len(),
            out@ == old(out)@ + b@.subrange(0, i as int),
        decreases b@.len() - i,
    {
        out.push(b[i]);
        assert(b@.subrange(0, i + 1) == b@.subrange(0, i as int).push(b@[i as int]));
        i = i + 1;
    }
    assert(b@.subrange(0, b@.len() as int) == b@);
}

fn push_text(out: &mut Vec<u8>, s: &str)
    ensures
        final(out)@ == old(out)@ + encode_utf8(s@),
{
    push_bytes(out, s.as_bytes());
}

fn push_decimal(out: &mut Vec<u8>, n: usize)
    ensures
        final(out)@ == old(out)@ + decimal_bytes(n as nat),
    decreases n,
{
    if n >= 10 {
        push_decimal(out, n / 10);
    }
    let digit: u8 = (n % 10) as u8;
    out.push(48u8 + digit);
    proof {
        if n >= 10 {
            assert(decimal_bytes(n as nat) == decimal_bytes((n / 10) as nat).push((48 + n % 10) as u8));
        }
    }
    assert(out@ =~= old(out)@ + decimal_bytes(n as nat));
}

/// Text that can stand in a header line: ASCII, without CR or LF.
pub open spec fn header_safe(s: Seq<char>) -> bool {
    forall|i: int| 0 <= i < s.len() ==> (s[i] as u32) < 128 && s[i] != '\r' && s[i] != '\n'
}

/// Relies on std's SystemTime::elapsed from the Unix epoch: the whole seconds
/// since then, or `None` for a clock set before it.
#[verifier::external_body]
fn unix_seconds_now() -> (r: Option<u64>) {
    std::time::UNIX_EPOCH.elapsed().ok().map(|d| d.as_secs())
}

/// Relies on chrono's DateTime::from_timestamp and its formatting with
/// `%a, %d %b %Y %H:%M:%S GMT`: English names, digits and punctuation only;
/// `None` for a time outside chrono's range.
#[verifier::external_body]
fn http_date_of(secs: i64) -> (r: Option<String>)
    ensures
        r matches Some(d) ==> header_safe(d@),
{
    chrono::DateTime::from_timestamp(secs, 0).map(|t| t.format("%a, %d %b %Y %H:%M:%S GMT").to_string())
}

/// Turns the bytes of one connection into requests and responses into bytes.
pub struct Http {
    pub stream_data: StreamData,
}

impl Http {
    pub fn new(stream_data: StreamData) -> (r: Http)
        ensures
            r.stream_data == stream_data,
    {
        Http { stream_data }
    }

    pub fn into_inner(self) -> (r: StreamData)
        ensures
            r == self.stream_data,
    {
        self.stream_data
    }

    /// Decodes the read buffer into a request.
    pub fn decode(&mut self) -> (r: MioResult<Option<Request>>)
        ensures
            decode_returns(r, decoded(old(self).stream_data.reader@, parsed_head(old(self).stream_data.reader@)), old(self).stream_data.remote_addr),
            final(self).stream_data.reader@ == reader_after(old(self).stream_data.reader@, decoded(old(self).stream_data.reader@, parsed_head(old(self).stream_data.reader@))),
            final(self).stream_data.writer@ == old(self).stream_data.writer@,
            final(self).stream_data.remote_addr == old(self).stream_data.remote_addr,
    {
        let parsed = parse_head(self.stream_data.reader.as_slice());
        self.decode_head(parsed)
    }

    /// Decodes the read buffer, given what the parser made of it.
    pub fn decode_head(&mut self, parsed: Result<Option<RawHead>, httparse::Error>) -> (r: MioResult<Option<Request>>)
        ensures
            decode_returns(r, decoded(old(self).stream_data.reader@, parsed_view(parsed)), old(self).stream_data.remote_addr),
            parsed matches Err(e) ==> r matches Err(MioError::HttpParseError(e2)) && e2 == e,
            final(self).stream_data.reader@ == reader_after(old(self).stream_data.reader@, decoded(old(self).stream_data.reader@, parsed_view(parsed))),
            final(self).stream_data.writer@ == old(self).stream_data.writer@,
            final(self).stream_data.remote_addr == old(self).stream_data.remote_addr,
    {
        let head = match parsed {
            Err(e) => {
                return Err(MioError::HttpParseError(e));
            },
            Ok(None) => {
                return Err(MioError::Error("incomplete request head".to_string()));
            },
            Ok(Some(h)) => h,
        };
        let ghost hv = raw_head_view(head);
        if head.len > self.stream_data.reader.len() {
            return Err(MioError::Error("request head longer than the buffer".to_string()));
        }
        let method = match Method::from_name(head.method.as_str()) {
            Some(m) => m,
            None => {
                return Err(MioError::Error("unknown request method".to_string()));
            },
        };
        let headers = header_texts(&head.headers);
        let avail: usize = self.stream_data.reader.len() - head.len;
        let take: usize = match body_length(&headers, avail) {
            Ok(Some(k)) => k,
            Ok(None) => {
                return Ok(None);
            },
            Err(e) => {
                return Err(e);
            },
        };
        let ghost old_reader = self.stream_data.reader@;
        let mut data = self.stream_data.reader.split_off(head.len);
        data.truncate(take);
        self.stream_data.reader.clear();
        assert(data@ =~= old_reader.subrange(head.len as int, old_reader.len() as int).subrange(0, take as int));
        let remote_addr = self.stream_data.remote_addr();
        let request = Request::new(method, head.path, headers, remote_addr, data);
        proof {
            assert(self.stream_data.reader@ =~= Seq::<u8>::empty());
            if take == avail {
                assert(old_reader.subrange(head.len as int, old_reader.len() as int).subrange(0, take as int)
                    =~= old_reader.subrange(head.len as int, old_reader.len() as int));
            }
        }
        Ok(Some(request))
    }
}


/// The status line and the fixed `Date` and `Server` lines.
pub open spec fn status_block(code: u16, date: Seq<char>) -> Seq<u8> {
    encode_utf8("HTTP/1.1 "@) + decimal_bytes(code as nat) + encode_utf8(" "@) + encode_utf8(reason_of(code))
        + encode_utf8("\r\n"@) + encode_utf8("Date: "@) + encode_utf8(date) + encode_utf8("\r\n"@) + encode_utf8(
        "Server: Webserver\r\n"@,
    )
}

fn push_status_block(out: &mut Vec<u8>, code: u16, date: &str)
    ensures
        final(out)@ == old(out)@ + status_block(code, date@),
{
    let ghost s0 = out@;
    push_text(out, "HTTP/1.1 ");
    push_decimal(out, code as usize);
    push_text(out, " ");
    push_text(out, crate::response::StatusCode(code).default_reason_phrase());
    push_text(out, "\r\n");
    let ghost s1 = out@;
    assert(s1 =~= s0 + (encode_utf8("HTTP/1.1 "@) + decimal_bytes(code as nat) + encode_utf8(" "@) + encode_utf8(
        reason_of(code),
    ) + encode_utf8("\r\n"@)));
    push_text(out, "Date: ");
    push_text(out, date);
    push_text(out, "\r\n");
    push_text(out, "Server: Webserver\r\n");
    assert(out@ =~= s0 + status_block(code, date@));
}

fn push_length_line(out: &mut Vec<u8>, length: Option<usize>)
    ensures
        final(out)@ == old(out)@ + length_line(length),
{
    match length {
        Some(n) => {
            push_text(out, "Content-Length: ");
            push_decimal(out, n);
            push_text(out, "\r\n");
        },
        None => {},
    }
    assert(out@ =~= old(out)@ + length_line(length));
}

fn push_header_lines(out: &mut Vec<u8>, headers: &Vec<(String, String)>)
    ensures
        final(out)@ == old(out)@ + header_lines(pairs_view(headers@)),
{
    let ghost hv = pairs_view(headers@);
    let mut i: usize = 0;
    while i < headers.len()
        invariant
            i <= headers@.len(),
            hv == pairs_view(headers@),
            out@ == old(out)@ + header_lines(hv.subrange(0, i as int)),
        decreases headers@.len() - i,
    {
        let ghost before = out@;
        push_text(out, headers[i].0.as_str());
        push_text(out, ": ");
        push_text(out, headers[i].1.as_str());
        push_text(out, "\r\n");
        assert(hv.subrange(0, i + 1).drop_last() =~= hv.subrange(0, i as int));
        assert(out@ =~= before + (encode_utf8(hv[i as int].0) + encode_utf8(": "@) + encode_utf8(hv[i as int].1)
            + encode_utf8("\r\n"@)));
        i = i + 1;
    }
    assert(hv.subrange(0, headers@.len() as int) =~= hv);
}

impl Http {
    /// Appends the encoded response, dated `date`, to the write buffer.
    pub fn encode_with_date(&mut self, response: &Response, date: &str)
        ensures
            final(self).stream_data.writer@ == old(self).stream_data.writer@ + response_bytes(*response, date@),
            final(self).stream_data.reader@ == old(self).stream_data.reader@,
            final(self).stream_data.remote_addr == old(self).stream_data.remote_addr,
    {
        let ghost start = self.stream_data.writer@;
        let out = &mut self.stream_data.writer;
        push_status_block(out, response.status_code.0, date);
        push_length_line(out, response.data_length);
        push_header_lines(out, &response.headers);
        push_text(out, "\r\n");
        push_bytes(out, response.data.as_slice());
        assert(out@ =~= start + (status_block(response.status_code.0, date@) + length_line(response.data_length)
            + header_lines(pairs_view(response.headers@)) + encode_utf8("\r\n"@) + response.data@));
        assert(response_bytes(*response, date@) =~= status_block(response.status_code.0, date@) + length_line(
            response.data_length,
        ) + header_lines(pairs_view(response.headers@)) + encode_utf8("\r\n"@) + response.data@);
    }

    /// Appends the encoded response, dated now, to the write buffer. When the
    /// clock cannot be read as a date, the date is left empty.
    pub fn encode(&mut self, response: Response)
        ensures
            exists|date: Seq<char>|
                header_safe(date) && final(self).stream_data.writer@ == old(self).stream_data.writer@ + response_bytes(
                    response,
                    date,
                ),
            final(self).stream_data.reader@ == old(self).stream_data.reader@,
            final(self).stream_data.remote_addr == old(self).stream_data.remote_addr,
    {
        let date: String = match unix_seconds_now() {
            Some(secs) => {
                if secs <= i64::MAX as u64 {
                    match http_date_of(secs as i64) {
                        Some(d) => d,
                        None => String::new(),
                    }
                } else {
                    String::new()
                }
            },
            None => String::new(),
        };
        self.encode_with_date(&response, date.as_str());
        assert(header_safe(date@));
    }
}

/// A request whose `Content-Length` matches the bytes that follow its head
/// decodes to exactly those bytes as its body, and a response that echoes
/// that body ends, once encoded, with the same bytes.
pub proof fn lemma_echo_round_trip(reader: Seq<u8>, head: HeadView, resp: Response, date: Seq<char>)
    requires
        reader.len() <= usize::MAX,
        head.3 <= reader.len(),
        method_named(head.0) is Some,
        lookup(text_headers(head.2), "Content-Length"@) matches Some(v) && decimal_value(v) == Some(
            (reader.len() - head.3) as nat,
        ),
        resp.data@ == reader.subrange(head.3 as int, reader.len() as int),
    ensures
        decoded(reader, Some(Some(head))) matches Decoded::Done(_, _, _, body) && body == resp.data@,
        response_bytes(resp, date).subrange(
            response_bytes(resp, date).len() - resp.data@.len(),
            response_bytes(resp, date).len() as int,
        ) == reader.subrange(head.3 as int, reader.len() as int),
{
    let rest = reader.subrange(head.3 as int, reader.len() as int);
    assert(rest.subrange(0, rest.len() as int) == rest);
    let b = response_bytes(resp, date);
    let pre = status_block(resp.status_code.0, date) + length_line(resp.data_length) + header_lines(
        pairs_view(resp.headers@),
    ) + encode_utf8("\r\n"@);
    assert(b =~= pre + resp.data@);
    assert(b.subrange(b.len() - resp.data@.len(), b.len() as int) =~= resp.data@);
}

/// A head that declares more body bytes than the buffer holds after it
/// decodes to `Incomplete`: no request is handed on.
pub proof fn lemma_incomplete_body_held_back(reader: Seq<u8>, head: HeadView, n: nat)
    requires
        head.3 <= reader.len(),
        method_named(head.0) is Some,
        lookup(text_headers(head.2), "Content-Length"@) matches Some(v) && decimal_value(v) == Some(n),
        n <= usize::MAX,
        n > reader.len() - head.3,
    ensures
        decoded(reader, Some(Some(head))) == Decoded::Incomplete,
{
}

} // verus!
