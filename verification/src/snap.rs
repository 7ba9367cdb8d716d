//! The Snap Store, through snapd's REST API on its unix socket.
//!
//! The API is HTTP/1.1 over a socket, and rather than pull in a crate for
//! that a minimal client lives here: one request line, four headers, a
//! status line, headers, and a body by content-length or chunked. The
//! socket itself is the application's; the reading of the bytes is here.

use vstd::prelude::*;
use crate::text;
use crate::model::{Error, SourceKind, PackageKind, Package, PackageRef, Picture, PictureView, Screenshot, Op, Step, Command, SourceStatus, Update};
use vstd::string::StringSliceAdditionalSpecFns;

verus! {

/// Where snapd listens on every distribution that ships it.
pub const SOCKET_PATH: &'static str = "/run/snapd.socket";

/// How BAP Store names itself to the services it asks.
pub const USER_AGENT: &'static str = "bap-store/0.1.0 (+https://github.com/Spillebulle/BAP-Store)";

/// What of snapd is on this machine, as far as the status line needs.
#[derive(Clone, Copy, Debug, PartialEq, Eq, Structural)]
pub enum Presence {
    /// The socket exists: snapd is installed and listening.
    Socket,
    /// `snap` is on `PATH` but the socket is not: installed and not started.
    ProgramOnly,
    /// Neither. snapd is not installed.
    Absent,
}

/// One HTTP answer from snapd, whatever its status.
#[derive(Clone, Debug, PartialEq, Eq)]
pub struct Response {
    pub status: u16,
    pub body: Vec<u8>,
}

/// How the snap source reaches snapd: the application's socket, or canned
/// answers in a test.
pub trait Transport {
    fn presence(&self) -> Presence;

    /// GET an API path such as `/v2/snaps`. Any HTTP status is an `Ok`
    /// response; `Err` means snapd could not be reached at all.
    fn get(&self, path: &str) -> Result<Response, Error>;
}

/// The request for one API path: a closed HTTP/1.1 GET for localhost.
pub open spec fn request_spec(path: Seq<char>) -> Seq<char> {
    "GET "@ + path
        + " HTTP/1.1\r\nHost: localhost\r\nUser-Agent: bap-store/0.1.0 (+https://github.com/Spillebulle/BAP-Store)\r\nAccept: application/json\r\nConnection: close\r\n\r\n"@
}

/// The request for one API path. `Connection: close` so the body ends at
/// end of input; `Host` because snapd's server answers 400 without one.
pub fn request(path: &str) -> (r: String)
    ensures
        r@ == request_spec(path@),
{
    let mut s = text::string_from("GET ");
    text::push_str(&mut s, path);
    text::push_str(
        &mut s,
        " HTTP/1.1\r\nHost: localhost\r\nUser-Agent: bap-store/0.1.0 (+https://github.com/Spillebulle/BAP-Store)\r\nAccept: application/json\r\nConnection: close\r\n\r\n",
    );
    s
}

// ---------------------------------------------------------------------------
// Reading an answer
// ---------------------------------------------------------------------------

/// Why an answer could not be read.
pub enum HttpFault {
    Closed,
    NotText,
    NotHttp(Seq<char>),
    BadLength(Seq<char>),
    BadChunk(Seq<char>),
}

pub open spec fn fault_text(f: HttpFault) -> Seq<char> {
    match f {
        HttpFault::Closed => "snapd closed the connection before its answer was complete. Try again."@,
        HttpFault::NotText => "snapd sent a header that is not text."@,
        HttpFault::NotHttp(l) => "snapd answered with something that is not HTTP: "@ + text::debug_quoted(l) + "."@,
        HttpFault::BadLength(v) => "snapd sent a Content-Length that is not a number: "@ + text::debug_quoted(v) + "."@,
        HttpFault::BadChunk(s) => "snapd sent a chunk size that is not a number: "@ + text::debug_quoted(s) + "."@,
    }
}

/// Where the line that starts at `pos` ends: after its newline, or at the
/// end of the input.
pub open spec fn line_end(b: Seq<u8>, pos: int) -> int
    decreases b.len() - pos,
{
    if pos >= b.len() {
        b.len() as int
    } else if b[pos] == 10 {
        pos + 1
    } else {
        line_end(b, pos + 1)
    }
}

pub proof fn lemma_line_end(b: Seq<u8>, pos: int)
    requires
        0 <= pos,
    ensures
        pos < b.len() ==> pos < line_end(b, pos) <= b.len(),
        pos >= b.len() ==> line_end(b, pos) == b.len(),
    decreases b.len() - pos,
{
    if pos < b.len() && b[pos] != 10 {
        lemma_line_end(b, pos + 1);
    }
}

/// `BufRead::read_line`: the next line with its newline, as text, and
/// where the input continues; at the end of the input, or for a line that
/// is not UTF-8, the fault.
pub open spec fn read_line_spec(b: Seq<u8>, pos: int) -> Result<(Seq<char>, int), HttpFault> {
    if pos >= b.len() {
        Err(HttpFault::Closed)
    } else {
        let e = line_end(b, pos);
        let raw = b.subrange(pos, e);
        if vstd::utf8::valid_utf8(raw) {
            Ok((vstd::utf8::decode_utf8(raw), e))
        } else {
            Err(HttpFault::NotText)
        }
    }
}

/// `str::trim_end_matches(['\r', '\n'])`.
pub open spec fn strip_crlf(s: Seq<char>) -> Seq<char>
    decreases s.len(),
{
    if s.len() > 0 && (s.last() == '\r' || s.last() == '\n') {
        strip_crlf(s.drop_last())
    } else {
        s
    }
}

/// The status of a status line: its first word starts with `HTTP/` and
/// its second is a number that fits a `u16`.
pub open spec fn status_of(line: Seq<char>) -> Option<u16> {
    let ws = text::words(line);
    if ws.len() >= 2 && "HTTP/"@.is_prefix_of(ws[0]) {
        match text::parse_unsigned(ws[1], u16::MAX as nat) {
            Some(n) => Some(n as u16),
            None => None,
        }
    } else {
        None
    }
}

pub struct Headers {
    pub end: int,
    pub length: Option<nat>,
    pub chunked: bool,
}

/// The header lines from `pos` to the blank line: `Content-Length` (a
/// number, or the fault) and `Transfer-Encoding` (chunked when it says so),
/// names in any case; other lines and lines without a colon are passed
/// over.
pub open spec fn headers_spec(b: Seq<u8>, pos: int, length: Option<nat>, chunked: bool) -> Result<
    Headers,
    HttpFault,
>
    decreases b.len() - pos,
{
    if pos < 0 {
        Err(HttpFault::Closed)
    } else {
        match read_line_spec(b, pos) {
            Err(f) => Err(f),
            Ok((line, next)) => {
                proof {
                    lemma_line_end(b, pos);
                }
                let l = strip_crlf(line);
                if l.len() == 0 {
                    Ok(Headers { end: next, length, chunked })
                } else {
                    match text::split_once(l, ':') {
                        None => headers_spec(b, next, length, chunked),
                        Some((n, v)) => {
                            let name = text::lower_all(text::trim(n));
                            if name == "content-length"@ {
                                match text::parse_unsigned(text::trim(v), usize::MAX as nat) {
                                    None => Err(HttpFault::BadLength(text::trim(v))),
                                    Some(x) => headers_spec(b, next, Some(x), chunked),
                                }
                            } else if name == "transfer-encoding"@ {
                                headers_spec(
                                    b,
                                    next,
                                    length,
                                    text::contains_seq(text::lower_all(v), "chunked"@),
                                )
                            } else {
                                headers_spec(b, next, length, chunked)
                            }
                        },
                    }
                }
            },
        }
    }
}

pub open spec fn is_hex(c: char) -> bool {
    ('0' <= c && c <= '9') || ('a' <= c && c <= 'f') || ('A' <= c && c <= 'F')
}

pub open spec fn hex_digit(c: char) -> nat {
    if '0' <= c && c <= '9' {
        ((c as u32) - ('0' as u32)) as nat
    } else if 'a' <= c && c <= 'f' {
        ((c as u32) - ('a' as u32) + 10) as nat
    } else {
        ((c as u32) - ('A' as u32) + 10) as nat
    }
}

pub open spec fn hex_digits_value(s: Seq<char>) -> nat
    decreases s.len(),
{
    if s.len() == 0 {
        0
    } else {
        hex_digits_value(s.drop_last()) * 16 + hex_digit(s.last())
    }
}

/// `usize::from_str_radix(s, 16)`: an optional `+`, then one or more hex
/// digits whose value fits.
pub open spec fn hex_value(s: Seq<char>) -> Option<nat> {
    let b = text::unsigned_body(s);
    if b.len() > 0 && (forall|i: int| 0 <= i < b.len() ==> is_hex(#[trigger] b[i])) && hex_digits_value(b)
        <= usize::MAX {
        Some(hex_digits_value(b))
    } else {
        None
    }
}

/// After the last chunk: trailer lines up to a blank line or the end of
/// the input, all passed over; one that is not text ends the answer early.
pub open spec fn trailers_spec(b: Seq<u8>, pos: int) -> Result<(), HttpFault>
    decreases b.len() - pos,
{
    if pos < 0 || pos >= b.len() {
        Ok(())
    } else {
        let e = line_end(b, pos);
        let raw = b.subrange(pos, e);
        proof {
            lemma_line_end(b, pos);
        }
        if !vstd::utf8::valid_utf8(raw) {
            Err(HttpFault::Closed)
        } else if strip_crlf(vstd::utf8::decode_utf8(raw)).len() == 0 {
            Ok(())
        } else {
            trailers_spec(b, e)
        }
    }
}

/// A chunked body from `pos`: a hex size (extensions after `;` ignored),
/// that many bytes, a line end, until a size of zero and its trailers.
pub open spec fn chunks_spec(b: Seq<u8>, pos: int, body: Seq<u8>) -> Result<Seq<u8>, HttpFault>
    decreases b.len() - pos,
{
    if pos < 0 {
        Err(HttpFault::Closed)
    } else {
        match read_line_spec(b, pos) {
            Err(f) => Err(f),
            Ok((line, next)) => {
                proof {
                    lemma_line_end(b, pos);
                }
                let size_text = text::trim(text::split(text::trim(line), ';')[0]);
                match hex_value(size_text) {
                    None => Err(HttpFault::BadChunk(size_text)),
                    Some(size) => {
                        if size == 0 {
                            match trailers_spec(b, next) {
                                Ok(()) => Ok(body),
                                Err(f) => Err(f),
                            }
                        } else if next + size > b.len() {
                            Err(HttpFault::Closed)
                        } else {
                            match read_line_spec(b, next + size) {
                                Err(f) => Err(f),
                                Ok((_, after)) => {
                                    proof {
                                        lemma_line_end(b, next + size);
                                    }
                                    chunks_spec(b, after, body + b.subrange(next, next + size))
                                },
                            }
                        }
                    },
                }
            },
        }
    }
}

/// What an HTTP/1.1 answer held in memory reads as: its status and its
/// body, by `Content-Length`, by chunks, or to the end when neither is
/// given.
pub open spec fn response_spec(b: Seq<u8>) -> Result<(u16, Seq<u8>), HttpFault> {
    match read_line_spec(b, 0) {
        Err(f) => Err(f),
        Ok((line, p1)) => match status_of(line) {
            None => Err(HttpFault::NotHttp(text::trim_end(line))),
            Some(code) => match headers_spec(b, p1, None, false) {
                Err(f) => Err(f),
                Ok(h) => {
                    if h.chunked {
                        match chunks_spec(b, h.end, Seq::empty()) {
                            Ok(body) => Ok((code, body)),
                            Err(f) => Err(f),
                        }
                    } else {
                        match h.length {
                            Some(n) => if h.end + n > b.len() {
                                Err(HttpFault::Closed)
                            } else {
                                Ok((code, b.subrange(h.end, h.end + n)))
                            },
                            None => Ok((code, b.subrange(h.end, b.len() as int))),
                        }
                    }
                },
            },
        },
    }
}

pub open spec fn fault_is(e: Error, f: HttpFault) -> bool {
    e.message@ == fault_text(f) && e.source_kind == Some(SourceKind::Snap)
}

fn snap_error(message: String) -> (e: Error)
    ensures
        e.message@ == message@,
        e.source_kind == Some(SourceKind::Snap),
{
    Error::from_source(SourceKind::Snap, message)
}

fn closed_early() -> (e: Error)
    ensures
        fault_is(e, HttpFault::Closed),
{
    snap_error(
        text::string_from("snapd closed the connection before its answer was complete. Try again."),
    )
}

fn quoted_fault(before: &str, value: &[char]) -> (e: Error)
    ensures
        e.message@ == before@ + text::debug_quoted(value@) + "."@,
        e.source_kind == Some(SourceKind::Snap),
{
    let v = text::string_of(value);
    let q = text::debug_text(v.as_str());
    let mut s = text::string_from(before);
    text::push_str(&mut s, q.as_str());
    text::push_str(&mut s, ".");
    snap_error(s)
}

fn find_line_end(b: &[u8], pos: usize) -> (e: usize)
    requires
        pos < b@.len(),
    ensures
        e as int == line_end(b@, pos as int),
        pos < e <= b@.len(),
{
    let mut i = pos;
    proof {
        lemma_line_end(b@, pos as int);
    }
    while i < b.len() && b[i] != 10
        invariant
            pos <= i <= b@.len(),
            line_end(b@, i as int) == line_end(b@, pos as int),
        decreases b@.len() - i,
    {
        i = i + 1;
    }
    if i < b.len() {
        i + 1
    } else {
        i
    }
}

fn bytes_between(b: &[u8], from: usize, to: usize) -> (r: Vec<u8>)
    requires
        from <= to <= b@.len(),
    ensures
        r@ == b@.subrange(from as int, to as int),
{
    let mut r: Vec<u8> = Vec::new();
    let mut i = from;
    while i < to
        invariant
            from <= i <= to <= b@.len(),
            r@ == b@.subrange(from as int, i as int),
        decreases to - i,
    {
        r.push(b[i]);
        assert(r@ =~= b@.subrange(from as int, i + 1));
        i = i + 1;
    }
    r
}

/// `BufRead::read_line` over bytes in memory.
fn read_line(b: &[u8], pos: usize) -> (r: Result<(Vec<char>, usize), Error>)
    ensures
        match read_line_spec(b@, pos as int) {
            Ok((l, e)) => r matches Ok((lv, ev)) && lv@ == l && ev as int == e,
            Err(f) => r matches Err(x) && fault_is(x, f),
        },
{
    if pos >= b.len() {
        return Err(closed_early());
    }
    let e = find_line_end(b, pos);
    let raw = bytes_between(b, pos, e);
    match text::utf8_text(raw.as_slice()) {
        Some(t) => Ok((text::chars(t.as_str()), e)),
        None => Err(snap_error(text::string_from("snapd sent a header that is not text."))),
    }
}

fn strip_crlf_chars(s: &[char]) -> (r: Vec<char>)
    ensures
        r@ == strip_crlf(s@),
{
    let mut n: usize = s.len();
    assert(s@.take(s@.len() as int) =~= s@);
    while n > 0 && (s[n - 1] == '\r' || s[n - 1] == '\n')
        invariant
            n <= s@.len(),
            strip_crlf(s@.take(n as int)) == strip_crlf(s@),
        decreases n,
    {
        assert(s@.take(n as int).drop_last() =~= s@.take(n - 1));
        n = n - 1;
    }
    let r = text::slice_chars(s, 0, n);
    assert(r@ =~= s@.take(n as int));
    r
}

fn parse_status_line(line: &[char]) -> (r: Result<u16, Error>)
    ensures
        match status_of(line@) {
            Some(c) => r == Ok::<u16, Error>(c),
            None => r matches Err(x) && fault_is(x, HttpFault::NotHttp(text::trim_end(line@))),
        },
{
    let ws = text::words_chars(line);
    assert(text::views(ws@).len() == ws@.len());
    if ws.len() >= 2 {
        assert(text::views(ws@)[0] == ws@[0]@ && text::views(ws@)[1] == ws@[1]@);
        if text::starts_with_str(ws[0].as_slice(), "HTTP/") {
            match text::parse_unsigned_chars(ws[1].as_slice(), 65535) {
                Some(n) => {
                    return Ok(n as u16);
                },
                None => {},
            }
        }
    }
    let t = text::trim_end_chars(line);
    Err(quoted_fault("snapd answered with something that is not HTTP: ", t.as_slice()))
}

fn hex_value_chars(s: &[char]) -> (r: Option<usize>)
    ensures
        match r {
            Some(n) => hex_value(s@) == Some(n as nat),
            None => hex_value(s@) is None,
        },
{
    let body = if s.len() > 0 && s[0] == '+' {
        text::slice_chars(s, 1, s.len())
    } else {
        text::copy_chars(s)
    };
    assert(body@ =~= text::unsigned_body(s@));
    if body.len() == 0 {
        return None;
    }
    let mut acc: usize = 0;
    let mut i: usize = 0;
    while i < body.len()
        invariant
            body@ == text::unsigned_body(s@),
            i <= body@.len(),
            forall|j: int| 0 <= j < i ==> is_hex(#[trigger] body@[j]),
            acc as nat == hex_digits_value(body@.take(i as int)),
        decreases body@.len() - i,
    {
        let c = body[i];
        let d: usize = if '0' <= c && c <= '9' {
            ((c as u32) - ('0' as u32)) as usize
        } else if 'a' <= c && c <= 'f' {
            ((c as u32) - ('a' as u32) + 10) as usize
        } else if 'A' <= c && c <= 'F' {
            ((c as u32) - ('A' as u32) + 10) as usize
        } else {
            assert(!is_hex(body@[i as int]));
            return None;
        };
        assert(body@.take(i + 1).drop_last() =~= body@.take(i as int));
        if acc > (usize::MAX - d) / 16 {
            proof {
                assert(acc * 16 + d > usize::MAX) by (nonlinear_arith)
                    requires
                        acc > (usize::MAX - d) / 16,
                        d <= 15,
                ;
                lemma_hex_monotone(body@, i + 1);
            }
            return None;
        }
        assert(acc * 16 + d <= usize::MAX) by (nonlinear_arith)
            requires
                acc <= (usize::MAX - d) / 16,
                d <= 15,
        ;
        acc = acc * 16 + d;
        i = i + 1;
    }
    assert(body@.take(body@.len() as int) =~= body@);
    Some(acc)
}

proof fn lemma_hex_monotone(s: Seq<char>, i: int)
    requires
        0 <= i <= s.len(),
        forall|j: int| 0 <= j < i ==> is_hex(#[trigger] s[j]),
    ensures
        hex_value(s) is Some ==> hex_digits_value(s.take(i)) <= usize::MAX,
    decreases s.len() - i,
{
    if hex_value(s) is Some {
        lemma_hex_prefix(text::unsigned_body(s), i);
    }
}

proof fn lemma_hex_prefix(s: Seq<char>, i: int)
    requires
        0 <= i <= s.len(),
    ensures
        (forall|j: int| 0 <= j < s.len() ==> is_hex(#[trigger] s[j])) ==> hex_digits_value(s.take(i)) <= hex_digits_value(s),
    decreases s.len() - i,
{
    if i < s.len() {
        lemma_hex_prefix(s, i + 1);
        assert(s.take(i + 1).drop_last() =~= s.take(i));
    } else {
        assert(s.take(i) =~= s);
    }
}

fn read_headers(b: &[u8], start: usize) -> (r: Result<(usize, Option<usize>, bool), Error>)
    ensures
        match headers_spec(b@, start as int, None, false) {
            Ok(h) => r matches Ok((e, l, c)) && e as int == h.end && c == h.chunked && match l {
                Some(n) => h.length == Some(n as nat),
                None => h.length is None,
            },
            Err(f) => r matches Err(x) && fault_is(x, f),
        },
{
    let mut pos = start;
    let mut length: Option<usize> = None;
    let mut chunked = false;
    loop
        invariant
            headers_spec(
                b@,
                pos as int,
                match length {
                    Some(n) => Some(n as nat),
                    None => None,
                },
                chunked,
            ) == headers_spec(b@, start as int, None, false),
        decreases b@.len() - pos,
    {
        let ghost len_view = match length {
            Some(n) => Some(n as nat),
            None => None::<nat>,
        };
        let (line, next) = match read_line(b, pos) {
            Ok(found) => found,
            Err(e) => return Err(e),
        };
        proof {
            lemma_line_end(b@, pos as int);
        }
        let l = strip_crlf_chars(line.as_slice());
        if l.len() == 0 {
            return Ok((next, length, chunked));
        }
        match text::split_once_char(l.as_slice(), ':') {
            None => {},
            Some((n, v)) => {
                let tn = text::trim_chars(n.as_slice());
                let name = text::lower_chars(tn.as_slice());
                if text::eq_str(name.as_slice(), "content-length") {
                    let tv = text::trim_chars(v.as_slice());
                    match text::parse_unsigned_chars(tv.as_slice(), usize::MAX as u64) {
                        None => {
                            return Err(
                                quoted_fault(
                                    "snapd sent a Content-Length that is not a number: ",
                                    tv.as_slice(),
                                ),
                            );
                        },
                        Some(x) => {
                            length = Some(x as usize);
                        },
                    }
                } else if text::eq_str(name.as_slice(), "transfer-encoding") {
                    let lv = text::lower_chars(v.as_slice());
                    chunked = text::contains_str(lv.as_slice(), "chunked");
                }
            },
        }
        pos = next;
    }
}

fn check_trailers(b: &[u8], start: usize) -> (r: Result<(), Error>)
    ensures
        match trailers_spec(b@, start as int) {
            Ok(()) => r is Ok,
            Err(f) => r matches Err(x) && fault_is(x, f),
        },
{
    let mut pos = start;
    while pos < b.len()
        invariant
            trailers_spec(b@, pos as int) == trailers_spec(b@, start as int),
        decreases b@.len() - pos,
    {
        let e = find_line_end(b, pos);
        let raw = bytes_between(b, pos, e);
        match text::utf8_text(raw.as_slice()) {
            None => {
                return Err(closed_early());
            },
            Some(t) => {
                let c = text::chars(t.as_str());
                let l = strip_crlf_chars(c.as_slice());
                if l.len() == 0 {
                    return Ok(());
                }
            },
        }
        pos = e;
    }
    Ok(())
}

fn read_chunked(b: &[u8], start: usize) -> (r: Result<Vec<u8>, Error>)
    ensures
        match chunks_spec(b@, start as int, Seq::empty()) {
            Ok(body) => r matches Ok(v) && v@ == body,
            Err(f) => r matches Err(x) && fault_is(x, f),
        },
{
    let mut pos = start;
    let mut body: Vec<u8> = Vec::new();
    loop
        invariant
            chunks_spec(b@, pos as int, body@) == chunks_spec(b@, start as int, Seq::empty()),
        decreases b@.len() - pos,
    {
        let (line, next) = match read_line(b, pos) {
            Ok(found) => found,
            Err(e) => return Err(e),
        };
        proof {
            lemma_line_end(b@, pos as int);
        }
        let t = text::trim_chars(line.as_slice());
        let pieces = text::split_char(t.as_slice(), ';');
        assert(text::views(pieces@).len() > 0) by {
            reveal_with_fuel(text::split, 1);
        }
        assert(text::views(pieces@)[0] == pieces@[0]@);
        let size_text = text::trim_chars(pieces[0].as_slice());
        let size = match hex_value_chars(size_text.as_slice()) {
            Some(n) => n,
            None => {
                return Err(
                    quoted_fault("snapd sent a chunk size that is not a number: ", size_text.as_slice()),
                );
            },
        };
        if size == 0 {
            return match check_trailers(b, next) {
                Ok(()) => Ok(body),
                Err(e) => Err(e),
            };
        }
        if size > b.len() - next {
            return Err(closed_early());
        }
        let ghost before = body@;
        let chunk = bytes_between(b, next, next + size);
        let mut chunk = chunk;
        body.append(&mut chunk);
        assert(body@ =~= before + b@.subrange(next as int, next + size));
        let (_, after) = match read_line(b, next + size) {
            Ok(found) => found,
            Err(e) => return Err(e),
        };
        proof {
            lemma_line_end(b@, next + size);
        }
        pos = after;
    }
}

/// Parse one HTTP/1.1 response held entirely in memory: the status line,
/// the headers, then the body by `Content-Length`, by chunked transfer
/// encoding, or to the end when neither is given.
pub fn parse_response(bytes: &[u8]) -> (r: Result<Response, Error>)
    ensures
        match response_spec(bytes@) {
            Ok((status, body)) => r matches Ok(x) && x.status == status && x.body@ == body,
            Err(f) => r matches Err(x) && fault_is(x, f),
        },
{
    let (line, p1) = match read_line(bytes, 0) {
        Ok(found) => found,
        Err(e) => return Err(e),
    };
    let status = match parse_status_line(line.as_slice()) {
        Ok(s) => s,
        Err(e) => return Err(e),
    };
    let (end, length, chunked) = match read_headers(bytes, p1) {
        Ok(h) => h,
        Err(e) => return Err(e),
    };
    if chunked {
        return match read_chunked(bytes, end) {
            Ok(body) => Ok(Response { status, body }),
            Err(e) => Err(e),
        };
    }
    proof {
        assert(end <= bytes@.len()) by {
            assert(headers_spec(bytes@, p1 as int, None, false) is Ok);
            lemma_headers_end(bytes@, p1 as int, None, false);
        }
    }
    match length {
        Some(n) => {
            if n > bytes.len() - end {
                return Err(closed_early());
            }
            Ok(Response { status, body: bytes_between(bytes, end, end + n) })
        },
        None => Ok(Response { status, body: bytes_between(bytes, end, bytes.len()) }),
    }
}

proof fn lemma_headers_end(b: Seq<u8>, pos: int, length: Option<nat>, chunked: bool)
    ensures
        headers_spec(b, pos, length, chunked) matches Ok(h) ==> 0 <= h.end <= b.len(),
    decreases b.len() - pos,
{
    if pos >= 0 {
        match read_line_spec(b, pos) {
            Ok((line, next)) => {
                lemma_line_end(b, pos);
                let l = strip_crlf(line);
                if l.len() != 0 {
                    match text::split_once(l, ':') {
                        None => lemma_headers_end(b, next, length, chunked),
                        Some((n, v)) => {
                            let name = text::lower_all(text::trim(n));
                            if name == "content-length"@ {
                                match text::parse_unsigned(text::trim(v), usize::MAX as nat) {
                                    Some(x) => lemma_headers_end(b, next, Some(x), chunked),
                                    None => {},
                                }
                            } else if name == "transfer-encoding"@ {
                                lemma_headers_end(
                                    b,
                                    next,
                                    length,
                                    text::contains_seq(text::lower_all(v), "chunked"@),
                                );
                            } else {
                                lemma_headers_end(b, next, length, chunked);
                            }
                        },
                    }
                }
            },
            Err(_) => {},
        }
    }
}

// ---------------------------------------------------------------------------
// Percent-encoding
// ---------------------------------------------------------------------------

pub open spec fn unreserved(b: u8) -> bool {
    (65 <= b <= 90) || (97 <= b <= 122) || (48 <= b <= 57) || b == 45 || b == 46 || b == 95 || b == 126
}

pub open spec fn hex_upper(d: u8) -> char {
    if d < 10 {
        ((d + 48) as u8) as char
    } else {
        ((d + 55) as u8) as char
    }
}

/// Every byte as itself when it is unreserved, else `%` and two upper-case
/// hex digits.
pub open spec fn percent(bytes: Seq<u8>) -> Seq<char>
    decreases bytes.len(),
{
    if bytes.len() == 0 {
        Seq::empty()
    } else {
        let b = bytes.last();
        percent(bytes.drop_last()) + if unreserved(b) {
            seq![b as char]
        } else {
            seq!['%', hex_upper(b / 16), hex_upper(b % 16)]
        }
    }
}

fn hex_upper_exec(d: u8) -> (c: char)
    requires
        d < 16,
    ensures
        c == hex_upper(d),
{
    if d < 10 {
        (d + 48) as char
    } else {
        (d + 55) as char
    }
}

/// Why the socket could not be reached, by the kind of the I/O error, with
/// the error's own text for any other kind.
#[derive(Clone, Debug, PartialEq, Eq)]
pub enum ConnectProblem {
    Refused,
    NotFound,
    PermissionDenied,
    Other(String),
}

pub open spec fn connect_failure_spec(socket: Seq<char>, p: ConnectProblem) -> Seq<char> {
    match p {
        ConnectProblem::Refused => "snapd is not running. Start it with systemctl enable --now snapd.socket."@,
        ConnectProblem::NotFound => "snapd's socket "@ + socket
            + " is missing. Install snapd and start it with systemctl enable --now snapd.socket."@,
        ConnectProblem::PermissionDenied => "snapd's socket "@ + socket
            + " does not allow this user to connect. Check its permissions."@,
        ConnectProblem::Other(e) => "Could not connect to snapd at "@ + socket + ": "@ + e@ + "."@,
    }
}

/// The sentence for a socket that could not be reached: what to do about
/// each kind of failure.
pub fn connect_failure(socket: &str, problem: ConnectProblem) -> (r: String)
    ensures
        r@ == connect_failure_spec(socket@, problem),
{
    match problem {
        ConnectProblem::Refused => text::string_from(
            "snapd is not running. Start it with systemctl enable --now snapd.socket.",
        ),
        ConnectProblem::NotFound => {
            let mut s = text::string_from("snapd's socket ");
            text::push_str(&mut s, socket);
            text::push_str(
                &mut s,
                " is missing. Install snapd and start it with systemctl enable --now snapd.socket.",
            );
            s
        },
        ConnectProblem::PermissionDenied => {
            let mut s = text::string_from("snapd's socket ");
            text::push_str(&mut s, socket);
            text::push_str(&mut s, " does not allow this user to connect. Check its permissions.");
            s
        },
        ConnectProblem::Other(e) => {
            let mut s = text::string_from("Could not connect to snapd at ");
            text::push_str(&mut s, socket);
            text::push_str(&mut s, ": ");
            text::push_str(&mut s, e.as_str());
            text::push_str(&mut s, ".");
            s
        },
    }
}

/// The path a search asks snapd for: the query text trimmed and
/// percent-encoded; nothing to ask where the text is blank.
pub fn find_path(query_text: &str) -> (r: Option<String>)
    ensures
        r is None <==> text::trim(query_text@).len() == 0,
        r matches Some(p) ==> p@ == "/v2/find?q="@ + percent(vstd::utf8::encode_utf8(text::trim(query_text@))),
{
    let all = text::chars(query_text);
    let trimmed = text::trim_chars(all.as_slice());
    if trimmed.len() == 0 {
        return None;
    }
    let term = text::string_of(trimmed.as_slice());
    let encoded = encode(term.as_str());
    let mut path = text::string_from("/v2/find?q=");
    text::push_str(&mut path, encoded.as_str());
    proof {
        reveal_strlit("/v2/find?q=");
    }
    Some(path)
}

/// Percent-encode a query value or a path segment, byte by byte.
pub fn encode(s: &str) -> (r: String)
    ensures
        r@ == percent(s.spec_bytes()),
{
    let bytes = s.as_bytes();
    let mut out: Vec<char> = Vec::new();
    let mut i: usize = 0;
    while i < bytes.len()
        invariant
            bytes@ == s.spec_bytes(),
            i <= bytes@.len(),
            out@ == percent(bytes@.take(i as int)),
        decreases bytes@.len() - i,
    {
        let b = bytes[i];
        assert(bytes@.take(i + 1).drop_last() =~= bytes@.take(i as int));
        assert(bytes@.take(i + 1).last() == b);
        if (65 <= b && b <= 90) || (97 <= b && b <= 122) || (48 <= b && b <= 57) || b == 45 || b == 46
            || b == 95 || b == 126 {
            out.push(b as char);
        } else {
            out.push('%');
            out.push(hex_upper_exec(b / 16));
            out.push(hex_upper_exec(b % 16));
        }
        assert(out@ =~= percent(bytes@.take(i + 1)));
        i = i + 1;
    }
    assert(bytes@.take(bytes@.len() as int) =~= bytes@);
    text::string_of(out.as_slice())
}

// ---------------------------------------------------------------------------
// Dates
// ---------------------------------------------------------------------------

pub open spec fn ascii_chars(b: Seq<u8>) -> Seq<char> {
    b.map_values(|x: u8| x as char)
}

/// The number written in bytes `a..z`: the bytes exist, are ASCII, and
/// read as an `i64`.
pub open spec fn num_at(b: Seq<u8>, a: int, z: int) -> Option<int> {
    if 0 <= a <= z <= b.len() && (forall|i: int| a <= i < z ==> #[trigger] b[i] < 128) {
        text::parse_signed(ascii_chars(b.subrange(a, z)))
    } else {
        None
    }
}

/// Past a run of ASCII digits from `i`.
pub open spec fn skip_digits(b: Seq<u8>, i: int) -> int
    decreases b.len() - i,
{
    if 0 <= i < b.len() && 48 <= b[i] <= 57 {
        skip_digits(b, i + 1)
    } else {
        i
    }
}

/// The zone of an RFC 3339 stamp as seconds east of UTC: nothing, `Z` or
/// `z` for UTC, else a sign, two digits, a colon and two digits.
pub open spec fn zone_offset(z: Seq<u8>) -> Option<int> {
    if z.len() == 0 || z == seq![90u8] || z == seq![122u8] {
        Some(0)
    } else if z[0] != 43 && z[0] != 45 {
        None
    } else {
        match (num_at(z, 1, 3), num_at(z, 4, 6)) {
            (Some(hh), Some(mm)) => if z[3] == 58 && z.len() == 6 {
                Some(if z[0] == 43 {
                    hh * 3600 + mm * 60
                } else {
                    -(hh * 3600 + mm * 60)
                })
            } else {
                None
            },
            _ => None,
        }
    }
}

/// RFC 3339 (`2026-08-30T14:22:07.517389211+02:00`) as Unix seconds, read
/// from the bytes of the trimmed text: a date and time at fixed places, a
/// fraction that is skipped, and a zone; `None` for anything else.
pub open spec fn rfc3339_spec(b: Seq<u8>) -> Option<int> {
    if b.len() < 19 {
        None
    } else {
        match (num_at(b, 0, 4), num_at(b, 5, 7), num_at(b, 8, 10), num_at(b, 11, 13), num_at(b, 14, 16), num_at(b, 17, 19)) {
            (Some(year), Some(month), Some(day), Some(hour), Some(minute), Some(second)) => {
                let separators = b[4] == 45 && b[7] == 45 && (b[10] == 84 || b[10] == 116 || b[10] == 32)
                    && b[13] == 58 && b[16] == 58;
                if !separators || !(1 <= month <= 12) || !(1 <= day <= 31) || hour > 23 || minute > 59
                    || second > 60 {
                    None
                } else {
                    let i = if b.len() > 19 && b[19] == 46 {
                        skip_digits(b, 20)
                    } else {
                        19
                    };
                    match zone_offset(b.subrange(i, b.len() as int)) {
                        Some(offset) => Some(
                            crate::release::days_from_civil(year, month, day) * 86400 + hour * 3600
                                + minute * 60 + second - offset,
                        ),
                        None => None,
                    }
                }
            },
            _ => None,
        }
    }
}

fn num_at_exec(b: &[u8], a: usize, z: usize) -> (r: Option<i64>)
    ensures
        match r {
            Some(n) => num_at(b@, a as int, z as int) == Some(n as int),
            None => num_at(b@, a as int, z as int) is None,
        },
        r matches Some(n) ==> -10000 < n < 10000 || z > a + 4,
{
    if !(a <= z && z <= b.len()) {
        return None;
    }
    let mut cs: Vec<char> = Vec::new();
    let mut i = a;
    while i < z
        invariant
            a <= i <= z <= b@.len(),
            forall|j: int| a <= j < i ==> #[trigger] b@[j] < 128,
            cs@ == ascii_chars(b@.subrange(a as int, i as int)),
        decreases z - i,
    {
        if b[i] >= 128 {
            return None;
        }
        cs.push(b[i] as char);
        assert(cs@ =~= ascii_chars(b@.subrange(a as int, i + 1)));
        i = i + 1;
    }
    let r = text::parse_i64_chars(cs.as_slice());
    proof {
        if z <= a + 4 {
            if let Some(n) = r {
                lemma_small_number(cs@);
            }
        }
    }
    r
}

pub open spec fn pow10(n: nat) -> nat
    decreases n,
{
    if n == 0 {
        1
    } else {
        10 * pow10((n - 1) as nat)
    }
}

proof fn lemma_digits_bound(s: Seq<char>)
    ensures
        text::all_digits(s) ==> text::digits_value(s) < pow10(s.len()),
    decreases s.len(),
{
    if s.len() > 0 && text::all_digits(s) {
        let t = s.drop_last();
        assert(text::all_digits(t));
        lemma_digits_bound(t);
        let v = text::digits_value(t);
        let d = text::digit_value(s.last());
        let p = pow10(t.len());
        assert(d <= 9);
        assert(v * 10 + d < p * 10) by (nonlinear_arith)
            requires
                v < p,
                d <= 9,
        ;
    }
}

proof fn lemma_pow10_small(n: nat)
    requires
        n <= 4,
    ensures
        pow10(n) <= 10000,
{
    reveal_with_fuel(pow10, 5);
}

/// A number of at most four characters is less than ten thousand either way.
proof fn lemma_small_number(s: Seq<char>)
    requires
        s.len() <= 4,
    ensures
        text::parse_signed(s) matches Some(n) ==> -10000 < n < 10000,
{
    if s.len() > 0 && s[0] == '-' {
        lemma_digits_bound(s.drop_first());
        lemma_pow10_small(s.drop_first().len());
    } else {
        lemma_digits_bound(text::unsigned_body(s));
        lemma_pow10_small(text::unsigned_body(s).len());
    }
}


fn skip_digits_exec(b: &[u8], from: usize) -> (r: usize)
    requires
        from <= b@.len(),
    ensures
        r as int == skip_digits(b@, from as int),
        from <= r <= b@.len(),
{
    let mut i = from;
    while i < b.len() && 48 <= b[i] && b[i] <= 57
        invariant
            from <= i <= b@.len(),
            skip_digits(b@, i as int) == skip_digits(b@, from as int),
        decreases b@.len() - i,
    {
        i = i + 1;
    }
    i
}

fn zone_offset_exec(z: &[u8]) -> (r: Option<i64>)
    ensures
        match r {
            Some(n) => zone_offset(z@) == Some(n as int),
            None => zone_offset(z@) is None,
        },
        r matches Some(n) ==> -100_000_000 < n < 100_000_000,
{
    if z.len() == 0 || (z.len() == 1 && (z[0] == 90 || z[0] == 122)) {
        proof {
            if z.len() == 1 {
                if z[0] == 90 {
                    assert(z@ =~= seq![90u8]);
                } else {
                    assert(z@ =~= seq![122u8]);
                }
            }
        }
        return Some(0);
    }
    assert(z@ != seq![90u8] && z@ != seq![122u8]) by {
        if z@ == seq![90u8] || z@ == seq![122u8] {
            assert(z@.len() == 1);
        }
    }
    if z[0] != 43 && z[0] != 45 {
        return None;
    }
    let hh = num_at_exec(z, 1, 3);
    let mm = num_at_exec(z, 4, 6);
    match (hh, mm) {
        (Some(hh), Some(mm)) => {
            if z[3] == 58 && z.len() == 6 {
                let v: i64 = hh * 3600 + mm * 60;
                if z[0] == 43 {
                    Some(v)
                } else {
                    Some(-v)
                }
            } else {
                None
            }
        },
        _ => None,
    }
}

/// A day number for a year of at most four characters is far inside an `i64`.
proof fn lemma_days_small(year: int, month: int, day: int)
    requires
        -10000 < year < 10000,
        1 <= month <= 12,
        1 <= day <= 31,
    ensures
        -100_000_000 < crate::release::days_from_civil(year, month, day) < 100_000_000,
{
    let y = if month <= 2 {
        year - 1
    } else {
        year
    };
    let era = y / 400;
    assert(-26 <= era <= 25) by (nonlinear_arith)
        requires
            -10001 <= y <= 9999,
            era == y / 400,
    ;
    let yoe = y - era * 400;
    assert(0 <= yoe < 400) by (nonlinear_arith)
        requires
            era == y / 400,
            yoe == y - era * 400,
    ;
    let mp = (month + 9) % 12;
    let doy = (153 * mp + 2) / 5 + day - 1;
    assert(0 <= doy < 400) by (nonlinear_arith)
        requires
            0 <= mp < 12,
            1 <= day <= 31,
            doy == (153 * mp + 2) / 5 + day - 1,
    ;
    let doe = yoe * 365 + yoe / 4 - yoe / 100 + doy;
    assert(0 <= doe < 150000) by (nonlinear_arith)
        requires
            0 <= yoe < 400,
            0 <= doy < 400,
            doe == yoe * 365 + yoe / 4 - yoe / 100 + doy,
    ;
}

fn rfc3339_bytes(b: &[u8]) -> (r: Option<i64>)
    ensures
        match r {
            Some(n) => rfc3339_spec(b@) == Some(n as int),
            None => rfc3339_spec(b@) is None,
        },
{
    if b.len() < 19 {
        return None;
    }
    let year = match num_at_exec(b, 0, 4) {
        Some(n) => n,
        None => return None,
    };
    let month = match num_at_exec(b, 5, 7) {
        Some(n) => n,
        None => return None,
    };
    let day = match num_at_exec(b, 8, 10) {
        Some(n) => n,
        None => return None,
    };
    let hour = match num_at_exec(b, 11, 13) {
        Some(n) => n,
        None => return None,
    };
    let minute = match num_at_exec(b, 14, 16) {
        Some(n) => n,
        None => return None,
    };
    let second = match num_at_exec(b, 17, 19) {
        Some(n) => n,
        None => return None,
    };
    let separators = b[4] == 45 && b[7] == 45 && (b[10] == 84 || b[10] == 116 || b[10] == 32)
        && b[13] == 58 && b[16] == 58;
    if !separators || !(1 <= month && month <= 12) || !(1 <= day && day <= 31) || hour > 23
        || minute > 59 || second > 60 {
        return None;
    }
    let i: usize = if b.len() > 19 && b[19] == 46 {
        skip_digits_exec(b, 20)
    } else {
        19
    };
    let z = bytes_between(b, i, b.len());
    let offset = match zone_offset_exec(z.as_slice()) {
        Some(o) => o,
        None => return None,
    };
    let days = crate::release::days_from_civil_exec(year, month as u32, day as u32);
    proof {
        lemma_days_small(year as int, month as int, day as int);
    }
    let n: i128 = days * 86400 + (hour as i128) * 3600 + (minute as i128) * 60 + (second as i128)
        - (offset as i128);
    Some(n as i64)
}

/// RFC 3339 (`2026-08-30T14:22:07.517389211+02:00`) to Unix seconds, from
/// the trimmed text. snapd writes nanoseconds and a numeric offset or `Z`;
/// nothing else is accepted, and a date that does not parse is unknown.
pub fn rfc3339_to_unix(s: &str) -> (r: Option<i64>)
    ensures
        match r {
            Some(n) => rfc3339_spec(vstd::utf8::encode_utf8(text::trim(s@))) == Some(n as int),
            None => rfc3339_spec(vstd::utf8::encode_utf8(text::trim(s@))) is None,
        },
{
    let all = text::chars(s);
    let t = text::trim_chars(all.as_slice());
    let ts = text::string_of(t.as_slice());
    let b = ts.as_str().as_bytes();
    rfc3339_bytes(b)
}


// ---------------------------------------------------------------------------
// What snapd says of a snap
// ---------------------------------------------------------------------------

/// `GET /v2/system-info`, the two fields the source reads.
#[derive(Clone, Debug)]
pub struct SnapdInfo {
    pub version: String,
    pub locations: Locations,
}

#[derive(Clone, Debug)]
pub struct Locations {
    pub snap_mount_dir: String,
}

/// A snap's publisher.
#[derive(Clone, Debug)]
pub struct Publisher {
    pub id: String,
    pub username: String,
    pub display_name: String,
    /// `verified`, `starred` or `unproven`.
    pub validation: String,
}

/// One of a snap's commands or services.
#[derive(Clone, Debug)]
pub struct AppInfo {
    pub name: String,
    pub desktop_file: String,
    pub common_id: String,
    pub daemon: String,
}

impl Default for AppInfo {
    fn default() -> (a: AppInfo)
        ensures
            a.name@.len() == 0 && a.desktop_file@.len() == 0 && a.common_id@.len() == 0
                && a.daemon@.len() == 0,
    {
        AppInfo {
            name: String::new(),
            desktop_file: String::new(),
            common_id: String::new(),
            daemon: String::new(),
        }
    }
}

/// A picture or video the store holds for a snap.
#[derive(Clone, Debug)]
pub struct Media {
    /// `icon`, `screenshot`, `banner` or `video`.
    pub kind: String,
    pub url: String,
    pub width: Option<u32>,
    pub height: Option<u32>,
}

impl Default for Media {
    fn default() -> (m: Media)
        ensures
            m.kind@.len() == 0 && m.url@.len() == 0 && m.width is None && m.height is None,
    {
        Media { kind: String::new(), url: String::new(), width: None, height: None }
    }
}

#[derive(Clone, Debug)]
pub struct Category {
    pub name: String,
    pub featured: bool,
}

/// One snap as snapd describes it, installed or in the store. Fields snapd
/// omits are empty rather than absent; `text_of` turns empty into `None`.
#[derive(Clone, Debug)]
pub struct SnapInfo {
    pub id: String,
    pub name: String,
    pub title: String,
    pub summary: String,
    pub description: String,
    pub version: String,
    /// A revision as text: `6338`, or `x1` for a sideload.
    pub revision: String,
    pub channel: String,
    pub tracking_channel: String,
    pub publisher: Option<Publisher>,
    pub developer: String,
    pub icon: String,
    pub install_date: String,
    pub installed_size: i64,
    pub download_size: i64,
    pub confinement: String,
    /// `app`, `base`, `os`, `snapd`, `kernel` or `gadget`.
    pub kind: String,
    pub base: String,
    pub apps: Vec<AppInfo>,
    pub common_ids: Vec<String>,
    pub license: String,
    pub store_url: String,
    pub website: String,
    pub media: Vec<Media>,
    pub categories: Vec<Category>,
}

impl Default for SnapInfo {
    fn default() -> (s: SnapInfo)
        ensures
            s.name@.len() == 0 && s.title@.len() == 0 && s.kind@.len() == 0 && s.icon@.len() == 0,
            s.apps@.len() == 0 && s.media@.len() == 0 && s.common_ids@.len() == 0,
            s.publisher is None && s.installed_size == 0 && s.download_size == 0,
    {
        SnapInfo {
            id: String::new(),
            name: String::new(),
            title: String::new(),
            summary: String::new(),
            description: String::new(),
            version: String::new(),
            revision: String::new(),
            channel: String::new(),
            tracking_channel: String::new(),
            publisher: None,
            developer: String::new(),
            icon: String::new(),
            install_date: String::new(),
            installed_size: 0,
            download_size: 0,
            confinement: String::new(),
            kind: String::new(),
            base: String::new(),
            apps: Vec::new(),
            common_ids: Vec::new(),
            license: String::new(),
            store_url: String::new(),
            website: String::new(),
            media: Vec::new(),
            categories: Vec::new(),
        }
    }
}

pub open spec fn opt_info(o: Option<&SnapInfo>) -> Option<SnapInfo> {
    match o {
        Some(s) => Some(*s),
        None => None,
    }
}

/// Trimmed text, or nothing when that is empty.
pub open spec fn text_spec(s: Seq<char>) -> Option<Seq<char>> {
    if text::trim(s).len() == 0 {
        None
    } else {
        Some(text::trim(s))
    }
}

/// The first of two that is there.
pub open spec fn prefer<T>(a: Option<T>, b: Option<T>) -> Option<T> {
    if a is Some {
        a
    } else {
        b
    }
}

/// A text field of the installed record, where there is one.
pub open spec fn local_text(local: Option<SnapInfo>, field: spec_fn(SnapInfo) -> Seq<char>) -> Option<Seq<char>> {
    match local {
        Some(l) => text_spec(field(l)),
        None => None,
    }
}

/// A text field of the store's record, else of the installed one.
pub open spec fn either_text(info: SnapInfo, local: Option<SnapInfo>, field: spec_fn(SnapInfo) -> Seq<char>) -> Option<Seq<char>> {
    prefer(text_spec(field(info)), local_text(local, field))
}

pub fn text_of(s: &String) -> (r: Option<String>)
    ensures
        crate::model::opt_view(r) == text_spec(s@),
{
    let all = text::chars(s.as_str());
    let t = text::trim_chars(all.as_slice());
    if t.len() == 0 {
        None
    } else {
        Some(text::string_of(t.as_slice()))
    }
}

fn prefer_text(a: Option<String>, b: Option<String>) -> (r: Option<String>)
    ensures
        crate::model::opt_view(r) == prefer(crate::model::opt_view(a), crate::model::opt_view(b)),
{
    match a {
        Some(x) => Some(x),
        None => b,
    }
}

pub open spec fn size_spec(n: i64) -> Option<u64> {
    if n > 0 {
        Some(n as u64)
    } else {
        None
    }
}

/// A size snapd reports, where it is one.
pub fn size(n: i64) -> (r: Option<u64>)
    ensures
        r == size_spec(n),
{
    if n > 0 {
        Some(n as u64)
    } else {
        None
    }
}

/// A channel as the store writes it, `track/risk`: a risk alone is on the
/// `latest` track.
pub open spec fn full_channel_spec(c: Seq<char>) -> Option<Seq<char>> {
    let t = text::trim(c);
    if t.len() == 0 {
        None
    } else if t.contains('/') {
        Some(t)
    } else {
        Some("latest/"@ + t)
    }
}

/// A channel as the store writes it, `track/risk`. Find results name the
/// risk alone (`stable`) while installed snaps carry the full form; one
/// spelling keeps the badge and the Channel fact consistent.
pub fn full_channel(channel: &str) -> (r: Option<String>)
    ensures
        crate::model::opt_view(r) == full_channel_spec(channel@),
{
    let all = text::chars(channel);
    let t = text::trim_chars(all.as_slice());
    if t.len() == 0 {
        return None;
    }
    if text::has_char(t.as_slice(), '/') {
        Some(text::string_of(t.as_slice()))
    } else {
        let mut s = text::string_from("latest/");
        text::push_chars(&mut s, t.as_slice());
        Some(s)
    }
}

pub open spec fn icon_media(m: Media) -> bool {
    m.kind@ == "icon"@ && m.url@.len() > 0
}

pub open spec fn has_icon_spec(s: SnapInfo) -> bool {
    s.icon@.len() > 0 || exists|i: int| 0 <= i < s.media@.len() && icon_media(#[trigger] s.media@[i])
}

pub open spec fn has_desktop_file(s: SnapInfo) -> bool {
    exists|i: int| 0 <= i < s.apps@.len() && (#[trigger] s.apps@[i]).desktop_file@.len() > 0
}

/// An application is a snap of type `app` with a picture or a desktop
/// file, here or in the installed record; a command-line tool has neither.
/// Bases, `core` and snapd itself are runtimes; kernels and gadgets are
/// packages.
pub open spec fn kind_of_spec(info: SnapInfo, local: Option<SnapInfo>) -> PackageKind {
    if info.kind@ == "app"@ {
        let desktop = has_desktop_file(info) || (local matches Some(l) && has_desktop_file(l));
        let icon = has_icon_spec(info) || (local matches Some(l) && has_icon_spec(l));
        if desktop || icon {
            PackageKind::App
        } else {
            PackageKind::Package
        }
    } else if info.kind@ == "base"@ || info.kind@ == "os"@ || info.kind@ == "snapd"@ {
        PackageKind::Runtime
    } else {
        PackageKind::Package
    }
}

fn is_icon_media(m: &Media) -> (r: bool)
    ensures
        r == icon_media(*m),
{
    let k = text::chars(m.kind.as_str());
    text::eq_str(k.as_slice(), "icon") && !m.url.as_str().is_empty()
}

fn has_icon(s: &SnapInfo) -> (r: bool)
    ensures
        r == has_icon_spec(*s),
{
    if !s.icon.as_str().is_empty() {
        return true;
    }
    let mut i: usize = 0;
    while i < s.media.len()
        invariant
            i <= s.media@.len(),
            s.icon@.len() == 0,
            forall|j: int| 0 <= j < i ==> !icon_media(#[trigger] s.media@[j]),
        decreases s.media@.len() - i,
    {
        if is_icon_media(&s.media[i]) {
            return true;
        }
        i = i + 1;
    }
    false
}

fn has_desktop(s: &SnapInfo) -> (r: bool)
    ensures
        r == has_desktop_file(*s),
{
    let mut i: usize = 0;
    while i < s.apps.len()
        invariant
            i <= s.apps@.len(),
            forall|j: int| 0 <= j < i ==> (#[trigger] s.apps@[j]).desktop_file@.len() == 0,
        decreases s.apps@.len() - i,
    {
        if !s.apps[i].desktop_file.as_str().is_empty() {
            return true;
        }
        i = i + 1;
    }
    false
}

/// What kind of package a snap is. Treating any snap with a command as an
/// application was rejected: every snap that ships a command has one, so
/// `hello` would be drawn as an application with a letter for an icon.
pub fn kind_of(info: &SnapInfo, local: Option<&SnapInfo>) -> (k: PackageKind)
    ensures
        k == kind_of_spec(*info, opt_info(local)),
{
    let kind = text::chars(info.kind.as_str());
    if text::eq_str(kind.as_slice(), "app") {
        let desktop = has_desktop(info) || match local {
            Some(l) => has_desktop(l),
            None => false,
        };
        let icon = has_icon(info) || match local {
            Some(l) => has_icon(l),
            None => false,
        };
        if desktop || icon {
            PackageKind::App
        } else {
            PackageKind::Package
        }
    } else if text::eq_str(kind.as_slice(), "base") || text::eq_str(kind.as_slice(), "os")
        || text::eq_str(kind.as_slice(), "snapd") {
        PackageKind::Runtime
    } else {
        PackageKind::Package
    }
}


// ---------------------------------------------------------------------------
// From a snap to the model's package
// ---------------------------------------------------------------------------

/// The address of the first icon among a snap's pictures.
pub open spec fn media_icon(ms: Seq<Media>) -> Option<Seq<char>>
    decreases ms.len(),
{
    if ms.len() == 0 {
        None
    } else if icon_media(ms[0]) {
        Some(ms[0].url@)
    } else {
        media_icon(ms.drop_first())
    }
}

/// The icon a snap's `icon` field names: an address as it is, snapd's own
/// `/v2/icons/` path as the icon file found under the mount directory.
pub open spec fn field_icon(s: SnapInfo, file: Option<Seq<char>>) -> Option<PictureView> {
    if "http://"@.is_prefix_of(s.icon@) || "https://"@.is_prefix_of(s.icon@) {
        Some(PictureView::Url(s.icon@))
    } else if "/v2/icons/"@.is_prefix_of(s.icon@) {
        match file {
            Some(f) => Some(PictureView::File(f)),
            None => None,
        }
    } else {
        None
    }
}

/// The icon: the store's picture where snapd knows it, here or in the
/// installed record, else what the `icon` fields name.
pub open spec fn icon_spec(info: SnapInfo, local: Option<SnapInfo>, file: Option<Seq<char>>) -> Option<
    PictureView,
> {
    let local_media = match local {
        Some(l) => media_icon(l.media@),
        None => None,
    };
    match prefer(media_icon(info.media@), local_media) {
        Some(u) => Some(PictureView::Url(u)),
        None => prefer(
            field_icon(info, file),
            match local {
                Some(l) => field_icon(l, file),
                None => None,
            },
        ),
    }
}

pub open spec fn icon_exts() -> Seq<Seq<char>> {
    seq!["png"@, "svg"@, "jpg"@]
}

/// Where an installed snap's own icon file may be, in the order to look:
/// each mount directory in turn, and in each a PNG, an SVG, then a JPEG.
pub open spec fn icon_candidates_spec(name: Seq<char>, dirs: Seq<Seq<char>>) -> Seq<Seq<char>> {
    Seq::new(
        dirs.len() * 3,
        |i: int|
            text::path_join(
                text::path_join(dirs[i / 3], name),
                "current/meta/gui/icon."@ + icon_exts()[i % 3],
            ),
    )
}

/// The files an installed snap's icon may be, for the application to look
/// for; snapd's `/v2/icons/` path serves the first that exists.
pub fn icon_candidates(name: &str, mount_dirs: &Vec<String>) -> (r: Vec<String>)
    ensures
        crate::model::strings_view(r@) == icon_candidates_spec(name@, crate::model::strings_view(mount_dirs@)),
{
    let n = text::chars(name);
    let mut r: Vec<String> = Vec::new();
    let mut i: usize = 0;
    let ghost dirs = crate::model::strings_view(mount_dirs@);
    let ghost want = icon_candidates_spec(name@, dirs);
    while i < mount_dirs.len()
        invariant
            i <= mount_dirs@.len(),
            n@ == name@,
            dirs == crate::model::strings_view(mount_dirs@),
            want == icon_candidates_spec(name@, dirs),
            crate::model::strings_view(r@) == want.take(3 * i),
        decreases mount_dirs@.len() - i,
    {
        let d = text::chars(mount_dirs[i].as_str());
        let base = text::path_join_chars(d.as_slice(), n.as_slice());
        let png = text::path_join_chars(base.as_slice(), text::chars("current/meta/gui/icon.png").as_slice());
        let svg = text::path_join_chars(base.as_slice(), text::chars("current/meta/gui/icon.svg").as_slice());
        let jpg = text::path_join_chars(base.as_slice(), text::chars("current/meta/gui/icon.jpg").as_slice());
        proof {
            reveal_strlit("current/meta/gui/icon.png");
            reveal_strlit("current/meta/gui/icon.svg");
            reveal_strlit("current/meta/gui/icon.jpg");
            reveal_strlit("current/meta/gui/icon.");
            reveal_strlit("png");
            reveal_strlit("svg");
            reveal_strlit("jpg");
            assert("current/meta/gui/icon."@ + "png"@ =~= "current/meta/gui/icon.png"@);
            assert("current/meta/gui/icon."@ + "svg"@ =~= "current/meta/gui/icon.svg"@);
            assert("current/meta/gui/icon."@ + "jpg"@ =~= "current/meta/gui/icon.jpg"@);
            assert(want[3 * i] == png@);
            assert(want[3 * i + 1] == svg@);
            assert(want[3 * i + 2] == jpg@);
        }
        let sp = text::string_of(png.as_slice());
        let ss = text::string_of(svg.as_slice());
        let sj = text::string_of(jpg.as_slice());
        let ghost before = r@;
        assert(dirs.len() == mount_dirs@.len());
        assert(want.len() == dirs.len() * 3);
        assert(crate::model::strings_view(before).len() == before.len());
        assert(before.len() == 3 * i);
        r.push(sp);
        r.push(ss);
        r.push(sj);
        assert(r@ == before.push(sp).push(ss).push(sj));
        assert forall|j: int| 0 <= j < 3 * i + 3 implies #[trigger] crate::model::strings_view(r@)[j]
            == want.take(3 * i + 3)[j] by {
            if j < 3 * i {
                assert(r@[j] == before[j]);
                assert(crate::model::strings_view(before)[j] == want.take(3 * i as int)[j]);
            }
        }
        assert(crate::model::strings_view(r@) =~= want.take(3 * i + 3));
        i = i + 1;
    }
    assert(want.take(3 * mount_dirs@.len() as int) =~= want);
    r
}

fn media_icon_of(ms: &Vec<Media>) -> (r: Option<String>)
    ensures
        crate::model::opt_view(r) == media_icon(ms@),
{
    let mut i: usize = 0;
    assert(ms@.subrange(0, ms@.len() as int) =~= ms@);
    while i < ms.len()
        invariant
            i <= ms@.len(),
            media_icon(ms@.subrange(i as int, ms@.len() as int)) == media_icon(ms@),
        decreases ms@.len() - i,
    {
        assert(ms@.subrange(i as int, ms@.len() as int).drop_first() =~= ms@.subrange(
            i + 1,
            ms@.len() as int,
        ));
        if is_icon_media(&ms[i]) {
            return Some(ms[i].url.clone());
        }
        i = i + 1;
    }
    None
}

fn field_icon_of(s: &SnapInfo, file: &Option<String>) -> (r: Option<Picture>)
    ensures
        crate::model::opt_picture(r) == field_icon(*s, crate::model::opt_view(*file)),
{
    let icon = text::chars(s.icon.as_str());
    if text::starts_with_str(icon.as_slice(), "http://") || text::starts_with_str(
        icon.as_slice(),
        "https://",
    ) {
        Some(Picture::Url(s.icon.clone()))
    } else if text::starts_with_str(icon.as_slice(), "/v2/icons/") {
        match file {
            Some(f) => Some(Picture::File(f.clone())),
            None => None,
        }
    } else {
        None
    }
}

fn icon_of(info: &SnapInfo, local: Option<&SnapInfo>, file: &Option<String>) -> (r: Option<Picture>)
    ensures
        crate::model::opt_picture(r) == icon_spec(*info, opt_info(local), crate::model::opt_view(*file)),
{
    let from_media = match media_icon_of(&info.media) {
        Some(u) => Some(u),
        None => match local {
            Some(l) => media_icon_of(&l.media),
            None => None,
        },
    };
    match from_media {
        Some(u) => Some(Picture::Url(u)),
        None => match field_icon_of(info, file) {
            Some(p) => Some(p),
            None => match local {
                Some(l) => field_icon_of(l, file),
                None => None,
            },
        },
    }
}

/// The pictures of one kind that have an address, in order.
pub open spec fn media_of_kind(ms: Seq<Media>, kind: Seq<char>) -> Seq<Media>
    decreases ms.len(),
{
    if ms.len() == 0 {
        Seq::empty()
    } else {
        let rest = media_of_kind(ms.drop_last(), kind);
        if ms.last().kind@ == kind && ms.last().url@.len() > 0 {
            rest.push(ms.last())
        } else {
            rest
        }
    }
}

/// The banner leads the rail, as the store's own hero picture, then the
/// screenshots.
pub open spec fn gallery(s: SnapInfo) -> Seq<Media> {
    media_of_kind(s.media@, "banner"@) + media_of_kind(s.media@, "screenshot"@)
}

pub open spec fn positive(o: Option<u32>) -> Option<u32> {
    match o {
        Some(w) => if w > 0 {
            Some(w)
        } else {
            None
        },
        None => None,
    }
}

/// A screenshot drawn from one picture: its address, and a width and
/// height only where they are positive.
pub open spec fn shot_from(s: Screenshot, m: Media) -> bool {
    &&& s.image@ == PictureView::Url(m.url@)
    &&& s.thumbnail is None
    &&& s.caption is None
    &&& s.width == positive(m.width)
    &&& s.height == positive(m.height)
}

pub open spec fn shots_are(r: Seq<Screenshot>, ms: Seq<Media>) -> bool {
    r.len() == ms.len() && forall|i: int| 0 <= i < r.len() ==> shot_from(#[trigger] r[i], ms[i])
}

fn positive_of(o: Option<u32>) -> (r: Option<u32>)
    ensures
        r == positive(o),
{
    match o {
        Some(w) => if w > 0 {
            Some(w)
        } else {
            None
        },
        None => None,
    }
}

fn shots_of_kind(ms: &Vec<Media>, kind: &str) -> (r: Vec<Screenshot>)
    ensures
        shots_are(r@, media_of_kind(ms@, kind@)),
{
    let k = text::chars(kind);
    let mut r: Vec<Screenshot> = Vec::new();
    let mut i: usize = 0;
    while i < ms.len()
        invariant
            i <= ms@.len(),
            k@ == kind@,
            shots_are(r@, media_of_kind(ms@.take(i as int), kind@)),
        decreases ms@.len() - i,
    {
        let m = &ms[i];
        assert(ms@.take(i + 1).drop_last() =~= ms@.take(i as int));
        let mk = text::chars(m.kind.as_str());
        if text::eq(mk.as_slice(), k.as_slice()) && !m.url.as_str().is_empty() {
            let shot = Screenshot {
                image: Picture::Url(m.url.clone()),
                thumbnail: None,
                caption: None,
                width: positive_of(m.width),
                height: positive_of(m.height),
            };
            r.push(shot);
        }
        i = i + 1;
    }
    assert(ms@.take(ms@.len() as int) =~= ms@);
    r
}

/// The snap's gallery as screenshots.
pub fn screenshots_of(info: &SnapInfo) -> (r: Vec<Screenshot>)
    ensures
        shots_are(r@, gallery(*info)),
{
    let mut r = shots_of_kind(&info.media, "banner");
    let mut shots = shots_of_kind(&info.media, "screenshot");
    let ghost a = r@;
    let ghost b = shots@;
    r.append(&mut shots);
    assert(r@ =~= a + b);
    assert forall|i: int| 0 <= i < r@.len() implies shot_from(#[trigger] r@[i], gallery(*info)[i]) by {
        if i < a.len() {
            assert(r@[i] == a[i]);
        } else {
            assert(r@[i] == b[i - a.len()]);
        }
    }
    r
}


/// The named categories, trimmed.
pub open spec fn category_texts(cs: Seq<Category>) -> Seq<Seq<char>>
    decreases cs.len(),
{
    if cs.len() == 0 {
        Seq::empty()
    } else {
        let rest = category_texts(cs.drop_last());
        match text_spec(cs.last().name@) {
            Some(t) => rest.push(t),
            None => rest,
        }
    }
}

/// Where an AppStream id may be written: the snap's common ids, then the
/// installed record's, then its commands'.
pub open spec fn id_candidates(info: SnapInfo, local: Option<SnapInfo>) -> Seq<Seq<char>> {
    crate::model::strings_view(info.common_ids@) + match local {
        Some(l) => crate::model::strings_view(l.common_ids@) + l.apps@.map_values(
            |a: AppInfo| a.common_id@,
        ),
        None => Seq::empty(),
    }
}

/// The first of some texts that is not blank, trimmed.
pub open spec fn first_text(ss: Seq<Seq<char>>) -> Option<Seq<char>>
    decreases ss.len(),
{
    if ss.len() == 0 {
        None
    } else {
        match text_spec(ss[0]) {
            Some(t) => Some(t),
            None => first_text(ss.drop_first()),
        }
    }
}

pub open spec fn publisher_spec(info: SnapInfo, local: Option<SnapInfo>) -> Option<Publisher> {
    prefer(
        info.publisher,
        match local {
            Some(l) => l.publisher,
            None => None,
        },
    )
}

/// A publisher's display name, else its user name.
pub open spec fn publisher_name(p: Option<Publisher>) -> Option<Seq<char>> {
    match p {
        Some(pb) => prefer(text_spec(pb.display_name@), text_spec(pb.username@)),
        None => None,
    }
}

pub open spec fn developer_spec(info: SnapInfo, local: Option<SnapInfo>) -> Option<Seq<char>> {
    prefer(publisher_name(publisher_spec(info, local)), text_spec(info.developer@))
}

/// The channel the snap follows: the installed record's where there is
/// one, its tracking channel before the one it came from.
pub open spec fn channel_spec(info: SnapInfo, local: Option<SnapInfo>) -> Option<Seq<char>> {
    let src = match local {
        Some(l) => l,
        None => info,
    };
    prefer(full_channel_spec(src.tracking_channel@), full_channel_spec(src.channel@))
}

pub open spec fn revision_spec(info: SnapInfo, local: Option<SnapInfo>) -> Option<Seq<char>> {
    prefer(local_text(local, |s: SnapInfo| s.revision@), text_spec(info.revision@))
}

pub open spec fn confinement_spec(info: SnapInfo, local: Option<SnapInfo>) -> Option<Seq<char>> {
    either_text(info, local, |s: SnapInfo| s.confinement@)
}

/// Who publishes the snap, with a mark when the store has verified them.
pub open spec fn publisher_fact(p: Option<Publisher>) -> Option<Seq<char>> {
    match p {
        Some(pb) => match publisher_name(Some(pb)) {
            Some(w) => Some(
                if pb.validation@ == "verified"@ {
                    w + " (verified)"@
                } else {
                    w
                },
            ),
            None => None,
        },
        None => None,
    }
}

pub open spec fn fact(name: Seq<char>, value: Option<Seq<char>>) -> Seq<(Seq<char>, Seq<char>)> {
    match value {
        Some(v) => seq![(name, v)],
        None => Seq::empty(),
    }
}

pub open spec fn facts_view(f: Seq<(String, String)>) -> Seq<(Seq<char>, Seq<char>)> {
    f.map_values(|p: (String, String)| (p.0@, p.1@))
}

/// The detail page's facts, in order, each where it is known.
pub open spec fn facts_spec(info: SnapInfo, local: Option<SnapInfo>) -> Seq<(Seq<char>, Seq<char>)> {
    fact("Publisher"@, publisher_fact(publisher_spec(info, local))) + fact(
        "Channel"@,
        channel_spec(info, local),
    ) + fact("Revision"@, revision_spec(info, local)) + fact(
        "Confinement"@,
        confinement_spec(info, local),
    ) + fact("Store page"@, either_text(info, local, |s: SnapInfo| s.store_url@))
}

pub open spec fn updated_spec(local: Option<SnapInfo>) -> Option<int> {
    match local {
        Some(l) => rfc3339_spec(vstd::utf8::encode_utf8(text::trim(l.install_date@))),
        None => None,
    }
}

/// The package a snap is, from what snapd said: `info` is the record the
/// metadata comes from (the store's where it is known, else the installed
/// one), `local` the installed record where there is one, and `icon_file`
/// the icon file found for the snap under the mount directories.
pub open spec fn snap_package(p: Package, info: SnapInfo, local: Option<SnapInfo>, icon_file: Option<Seq<char>>) -> bool {
    &&& p.source == SourceKind::Snap
    &&& p.id@ == info.name@
    &&& p.name@ == match either_text(info, local, |s: SnapInfo| s.title@) {
        Some(t) => t,
        None => info.name@,
    }
    &&& p.kind == kind_of_spec(info, local)
    &&& crate::model::opt_view(p.summary) == either_text(info, local, |s: SnapInfo| s.summary@)
    &&& crate::model::opt_view(p.description) == either_text(info, local, |s: SnapInfo| s.description@)
    &&& crate::model::opt_view(p.version) == text_spec(info.version@)
    &&& p.installed == local is Some
    &&& crate::model::opt_view(p.installed_version) == local_text(local, |s: SnapInfo| s.version@)
    &&& crate::model::opt_view(p.repo) == channel_spec(info, local)
    &&& crate::model::opt_view(p.licence) == either_text(info, local, |s: SnapInfo| s.license@)
    &&& crate::model::opt_view(p.homepage) == either_text(info, local, |s: SnapInfo| s.store_url@)
    &&& crate::model::opt_view(p.developer) == developer_spec(info, local)
    &&& match p.updated {
        Some(n) => updated_spec(local) == Some(n as int),
        None => updated_spec(local) is None,
    }
    &&& p.download_size == size_spec(info.download_size)
    &&& p.installed_size == prefer(
        match local {
            Some(l) => size_spec(l.installed_size),
            None => None,
        },
        size_spec(info.installed_size),
    )
    &&& crate::model::opt_picture(p.icon) == icon_spec(info, local, icon_file)
    &&& shots_are(
        p.screenshots@,
        if info.media@.len() == 0 {
            match local {
                Some(l) => gallery(l),
                None => Seq::empty(),
            }
        } else {
            gallery(info)
        },
    )
    &&& crate::model::strings_view(p.categories@) == category_texts(info.categories@)
    &&& crate::model::opt_view(p.appstream_id) == first_text(id_candidates(info, local))
    &&& p.sandboxed == (confinement_spec(info, local) != Some("classic"@))
    &&& facts_view(p.facts@) == facts_spec(info, local)
}

fn category_names(cs: &Vec<Category>) -> (r: Vec<String>)
    ensures
        crate::model::strings_view(r@) == category_texts(cs@),
{
    let mut r: Vec<String> = Vec::new();
    let mut i: usize = 0;
    while i < cs.len()
        invariant
            i <= cs@.len(),
            crate::model::strings_view(r@) == category_texts(cs@.take(i as int)),
        decreases cs@.len() - i,
    {
        assert(cs@.take(i + 1).drop_last() =~= cs@.take(i as int));
        let ghost before = r@;
        match text_of(&cs[i].name) {
            Some(t) => {
                r.push(t);
                assert(crate::model::strings_view(r@) =~= crate::model::strings_view(before).push(t@));
            },
            None => {},
        }
        i = i + 1;
    }
    assert(cs@.take(cs@.len() as int) =~= cs@);
    r
}

fn first_text_of(ss: &Vec<Vec<char>>) -> (r: Option<String>)
    ensures
        crate::model::opt_view(r) == first_text(text::views(ss@)),
{
    let ghost all = text::views(ss@);
    let mut i: usize = 0;
    assert(all.subrange(0, all.len() as int) =~= all);
    while i < ss.len()
        invariant
            i <= ss@.len(),
            all == text::views(ss@),
            all.len() == ss@.len(),
            first_text(all.subrange(i as int, all.len() as int)) == first_text(all),
        decreases ss@.len() - i,
    {
        assert(all.subrange(i as int, all.len() as int).drop_first() =~= all.subrange(
            i + 1,
            all.len() as int,
        ));
        assert(all[i as int] == ss@[i as int]@);
        let t = text::trim_chars(ss[i].as_slice());
        if t.len() > 0 {
            return Some(text::string_of(t.as_slice()));
        }
        i = i + 1;
    }
    None
}

fn appstream_id_of(info: &SnapInfo, local: Option<&SnapInfo>) -> (r: Option<String>)
    ensures
        crate::model::opt_view(r) == first_text(id_candidates(*info, opt_info(local))),
{
    let mut all = crate::model::strings_chars(&info.common_ids);
    let ghost first = text::views(all@);
    match local {
        Some(l) => {
            let mut more = crate::model::strings_chars(&l.common_ids);
            let ghost second = text::views(more@);
            let mut apps: Vec<Vec<char>> = Vec::new();
            let mut i: usize = 0;
            while i < l.apps.len()
                invariant
                    i <= l.apps@.len(),
                    text::views(apps@) == l.apps@.take(i as int).map_values(|a: AppInfo| a.common_id@),
                decreases l.apps@.len() - i,
            {
                let ghost before = apps@;
                let c = text::chars(l.apps[i].common_id.as_str());
                apps.push(c);
                assert(text::views(apps@) =~= text::views(before).push(c@));
                assert(l.apps@.take(i + 1).map_values(|a: AppInfo| a.common_id@) =~= l.apps@.take(
                    i as int,
                ).map_values(|a: AppInfo| a.common_id@).push(l.apps@[i as int].common_id@));
                i = i + 1;
            }
            assert(l.apps@.take(l.apps@.len() as int) =~= l.apps@);
            let ghost third = text::views(apps@);
            let ghost a0 = all@;
            let ghost m0 = more@;
            all.append(&mut more);
            assert(text::views(all@) =~= first + second);
            let ghost a1 = all@;
            all.append(&mut apps);
            assert(text::views(all@) =~= first + second + third);
            assert(first + second + third =~= first + (second + third));
        },
        None => {
            assert(text::views(all@) =~= first + Seq::<Seq<char>>::empty());
        },
    }
    first_text_of(&all)
}

fn developer_of(info: &SnapInfo, local: Option<&SnapInfo>) -> (r: Option<String>)
    ensures
        crate::model::opt_view(r) == developer_spec(*info, opt_info(local)),
{
    let publisher = match &info.publisher {
        Some(pb) => Some(pb),
        None => match local {
            Some(l) => match &l.publisher {
                Some(pb) => Some(pb),
                None => None,
            },
            None => None,
        },
    };
    let named = match publisher {
        Some(pb) => prefer_text(text_of(&pb.display_name), text_of(&pb.username)),
        None => None,
    };
    prefer_text(named, text_of(&info.developer))
}

fn publisher_fact_of(info: &SnapInfo, local: Option<&SnapInfo>) -> (r: Option<String>)
    ensures
        crate::model::opt_view(r) == publisher_fact(publisher_spec(*info, opt_info(local))),
{
    let publisher = match &info.publisher {
        Some(pb) => Some(pb),
        None => match local {
            Some(l) => match &l.publisher {
                Some(pb) => Some(pb),
                None => None,
            },
            None => None,
        },
    };
    match publisher {
        Some(pb) => match prefer_text(text_of(&pb.display_name), text_of(&pb.username)) {
            Some(who) => {
                let v = text::chars(pb.validation.as_str());
                if text::eq_str(v.as_slice(), "verified") {
                    let mut w = who;
                    text::push_str(&mut w, " (verified)");
                    Some(w)
                } else {
                    Some(who)
                }
            },
            None => None,
        },
        None => None,
    }
}

fn channel_of(info: &SnapInfo, local: Option<&SnapInfo>) -> (r: Option<String>)
    ensures
        crate::model::opt_view(r) == channel_spec(*info, opt_info(local)),
{
    let src = match local {
        Some(l) => l,
        None => info,
    };
    prefer_text(full_channel(src.tracking_channel.as_str()), full_channel(src.channel.as_str()))
}

fn either_of(a: &String, local: Option<&String>) -> (r: Option<String>)
    ensures
        crate::model::opt_view(r) == prefer(
            text_spec(a@),
            match local {
                Some(l) => text_spec(l@),
                None => None,
            },
        ),
{
    prefer_text(
        text_of(a),
        match local {
            Some(l) => text_of(l),
            None => None,
        },
    )
}

fn push_fact(facts: &mut Vec<(String, String)>, name: &str, value: Option<String>)
    ensures
        facts_view(final(facts)@) == facts_view(old(facts)@) + fact(name@, crate::model::opt_view(value)),
{
    let ghost before = facts@;
    match value {
        Some(v) => {
            facts.push((text::string_from(name), v));
            assert(facts_view(facts@) =~= facts_view(before) + fact(name@, crate::model::opt_view(value)));
        },
        None => {
            assert(facts_view(facts@) =~= facts_view(before) + fact(name@, crate::model::opt_view(value)));
        },
    }
}

/// Build the model's package from what snapd said. A classic snap has no
/// sandbox at all: calling it sandboxed because it is a snap was rejected,
/// as the badge would then say the opposite of the Confinement fact.
pub fn to_package(info: &SnapInfo, local: Option<&SnapInfo>, icon_file: Option<String>) -> (p: Package)
    ensures
        snap_package(p, *info, opt_info(local), crate::model::opt_view(icon_file)),
{
    let name = match either_of(
        &info.title,
        match local {
            Some(l) => Some(&l.title),
            None => None,
        },
    ) {
        Some(t) => t,
        None => info.name.clone(),
    };
    let mut p = Package::new(SourceKind::Snap, info.name.clone(), name);
    p.kind = kind_of(info, local);
    p.summary = either_of(
        &info.summary,
        match local {
            Some(l) => Some(&l.summary),
            None => None,
        },
    );
    p.description = either_of(
        &info.description,
        match local {
            Some(l) => Some(&l.description),
            None => None,
        },
    );
    p.version = text_of(&info.version);
    p.installed = local.is_some();
    p.installed_version = match local {
        Some(l) => text_of(&l.version),
        None => None,
    };
    let channel = channel_of(info, local);
    p.repo = channel.clone();
    p.licence = either_of(
        &info.license,
        match local {
            Some(l) => Some(&l.license),
            None => None,
        },
    );
    p.homepage = either_of(
        &info.store_url,
        match local {
            Some(l) => Some(&l.store_url),
            None => None,
        },
    );
    p.developer = developer_of(info, local);
    p.updated = match local {
        Some(l) => rfc3339_to_unix(l.install_date.as_str()),
        None => None,
    };
    p.download_size = size(info.download_size);
    p.installed_size = match local {
        Some(l) => match size(l.installed_size) {
            Some(n) => Some(n),
            None => size(info.installed_size),
        },
        None => size(info.installed_size),
    };
    p.icon = icon_of(info, local, &icon_file);
    p.screenshots = if info.media.len() == 0 {
        match local {
            Some(l) => screenshots_of(l),
            None => Vec::new(),
        }
    } else {
        screenshots_of(info)
    };
    p.categories = category_names(&info.categories);
    p.appstream_id = appstream_id_of(info, local);
    let confinement = either_of(
        &info.confinement,
        match local {
            Some(l) => Some(&l.confinement),
            None => None,
        },
    );
    p.sandboxed = match &confinement {
        Some(c) => {
            let cv = text::chars(c.as_str());
            !text::eq_str(cv.as_slice(), "classic")
        },
        None => true,
    };
    let revision = prefer_text(
        match local {
            Some(l) => text_of(&l.revision),
            None => None,
        },
        text_of(&info.revision),
    );
    let store = p.homepage.clone();
    let mut facts: Vec<(String, String)> = Vec::new();
    assert(facts_view(facts@) =~= Seq::<(Seq<char>, Seq<char>)>::empty());
    push_fact(&mut facts, "Publisher", publisher_fact_of(info, local));
    push_fact(&mut facts, "Channel", channel);
    push_fact(&mut facts, "Revision", revision);
    push_fact(&mut facts, "Confinement", confinement);
    push_fact(&mut facts, "Store page", store);
    p.facts = facts;
    p
}


// ---------------------------------------------------------------------------
// snapd's answers and the source's decisions
// ---------------------------------------------------------------------------

/// The body of an error answer from snapd.
#[derive(Clone, Debug)]
pub struct ApiError {
    pub message: String,
    pub kind: String,
}

/// The sentence an error answer from snapd becomes.
pub open spec fn api_sentence_spec(message: Seq<char>, kind: Seq<char>, status: u16) -> Seq<char> {
    if kind == "network-timeout"@ {
        "The Snap Store did not answer in time. Try again."@
    } else if kind == "dns-failure"@ {
        "The Snap Store could not be found on the network. Check the connection."@
    } else if kind == "bad-query"@ {
        "The Snap Store did not accept that search: "@ + text::trim_char_end(message, '.') + "."@
    } else if message.len() == 0 {
        "snapd answered "@ + text::decimal(status as nat) + " with no explanation."@
    } else {
        "snapd answered: "@ + text::trim_char_end(message, '.') + "."@
    }
}

pub fn api_sentence(err: &ApiError, status: u16) -> (r: String)
    ensures
        r@ == api_sentence_spec(err.message@, err.kind@, status),
{
    let kind = text::chars(err.kind.as_str());
    if text::eq_str(kind.as_slice(), "network-timeout") {
        return text::string_from("The Snap Store did not answer in time. Try again.");
    }
    if text::eq_str(kind.as_slice(), "dns-failure") {
        return text::string_from(
            "The Snap Store could not be found on the network. Check the connection.",
        );
    }
    let message = text::chars(err.message.as_str());
    let trimmed = text::trim_char_end_chars(message.as_slice(), '.');
    if text::eq_str(kind.as_slice(), "bad-query") {
        let mut s = text::string_from("The Snap Store did not accept that search: ");
        text::push_chars(&mut s, trimmed.as_slice());
        text::push_str(&mut s, ".");
        return s;
    }
    if err.message.as_str().is_empty() {
        let mut s = text::string_from("snapd answered ");
        text::push_decimal(&mut s, status as u64);
        text::push_str(&mut s, " with no explanation.");
        return s;
    }
    let mut s = text::string_from("snapd answered: ");
    text::push_chars(&mut s, trimmed.as_slice());
    text::push_str(&mut s, ".");
    s
}

/// What an answer's envelope says of failure: an error answer, or a status
/// of 400 or more, is the error its body describes.
pub fn envelope_error(kind: &str, status_code: u16, err: &ApiError) -> (r: Option<Error>)
    ensures
        (kind@ == "error"@ || status_code >= 400) <==> r is Some,
        r matches Some(e) ==> e.message@ == api_sentence_spec(err.message@, err.kind@, status_code)
            && e.source_kind == Some(SourceKind::Snap),
{
    let k = text::chars(kind);
    if text::eq_str(k.as_slice(), "error") || status_code >= 400 {
        Some(snap_error(api_sentence(err, status_code)))
    } else {
        None
    }
}

/// The text of a package's source label.
pub open spec fn not_a_snap(id: Seq<char>, source: SourceKind) -> Seq<char> {
    id + " is a "@ + crate::model::kind_label(source) + " package, not a snap."@
}

/// The snap a package names, where it is one.
pub fn own(package: &PackageRef) -> (r: Result<&str, Error>)
    ensures
        package.source == SourceKind::Snap ==> (r matches Ok(n) && n@ == package.id@),
        package.source != SourceKind::Snap ==> (r matches Err(e) && e.message@ == not_a_snap(
            package.id@,
            package.source,
        ) && e.source_kind == Some(SourceKind::Snap)),
{
    if package.source == SourceKind::Snap {
        Ok(package.id.as_str())
    } else {
        let mut s = package.id.clone();
        text::push_str(&mut s, " is a ");
        text::push_str(&mut s, package.source.label());
        text::push_str(&mut s, " package, not a snap.");
        Err(snap_error(s))
    }
}

/// A step that runs `snap` as root with these arguments.
pub open spec fn snap_step(s: Step, title: Seq<char>, args: Seq<Seq<char>>, weight: u32) -> bool {
    &&& s.source == SourceKind::Snap
    &&& s.title@ == title
    &&& s.command.program@ == "snap"@
    &&& crate::model::strings_view(s.command.args@) == args
    &&& s.command.env@.len() == 0
    &&& s.command.cwd is None
    &&& s.needs_root
    &&& s.weight == weight
}

fn step(title: String, args: Vec<String>, weight: u32) -> (s: Step)
    ensures
        snap_step(s, title@, crate::model::strings_view(args@), weight),
{
    Step {
        source: SourceKind::Snap,
        title,
        command: Command {
            program: text::string_from("snap"),
            args,
            env: Vec::new(),
            cwd: None,
        },
        needs_root: true,
        weight,
    }
}

/// The steps of one operation on snaps: `snap install` (with `--classic`
/// for a snap without a sandbox), `snap remove`, `snap refresh` of one or
/// of all; a refresh of the catalogue is nothing, as snapd keeps its own.
pub open spec fn plan_spec(op: Op, classic: bool, r: Result<Vec<Step>, Error>) -> bool {
    match op {
        Op::Install { package } => if package.source != SourceKind::Snap {
            r matches Err(e) && e.message@ == not_a_snap(package.id@, package.source)
        } else {
            r matches Ok(v) && v@.len() == 1 && snap_step(
                v@[0],
                "Installing "@ + package.id@ + " from the Snap Store"@,
                if classic {
                    seq!["install"@, package.id@, "--classic"@]
                } else {
                    seq!["install"@, package.id@]
                },
                6,
            )
        },
        Op::Remove { package } => if package.source != SourceKind::Snap {
            r matches Err(e) && e.message@ == not_a_snap(package.id@, package.source)
        } else {
            r matches Ok(v) && v@.len() == 1 && snap_step(
                v@[0],
                "Removing "@ + package.id@,
                seq!["remove"@, package.id@],
                2,
            )
        },
        Op::Update { package } => if package.source != SourceKind::Snap {
            r matches Err(e) && e.message@ == not_a_snap(package.id@, package.source)
        } else {
            r matches Ok(v) && v@.len() == 1 && snap_step(
                v@[0],
                "Updating "@ + package.id@ + " from the Snap Store"@,
                seq!["refresh"@, package.id@],
                6,
            )
        },
        Op::UpdateAll { source } => if source == SourceKind::Snap {
            r matches Ok(v) && v@.len() == 1 && snap_step(
                v@[0],
                "Updating every snap"@,
                seq!["refresh"@],
                8,
            )
        } else {
            r matches Err(e) && e.message@ == "Updating every "@ + crate::model::kind_label(source)
                + " package is not a Snap operation."@
        },
        Op::Refresh { .. } => r matches Ok(v) && v@.len() == 0,
    }
}

/// What each snap operation runs: `snap install <name>` (with `--classic`
/// exactly for a snap without a sandbox), `snap remove <name>`, `snap refresh
/// <name>` to update one installed snap, and `snap refresh` alone to update
/// them all; each a single step run as root. The verbs are distinct: an
/// update never installs or removes, and an install never refreshes.
pub proof fn lemma_snap_operations_use_their_own_verb(op: Op, classic: bool, r: Result<Vec<Step>, Error>)
    requires
        plan_spec(op, classic, r),
    ensures
        match op {
            Op::Update { package } => package.source == SourceKind::Snap ==> (r matches Ok(v) && v@.len() == 1
                && v@[0].command.program@ == "snap"@ && v@[0].needs_root && crate::model::strings_view(
                v@[0].command.args@,
            ) == seq!["refresh"@, package.id@]),
            Op::Install { package } => package.source == SourceKind::Snap ==> (r matches Ok(v) && v@.len() == 1
                && v@[0].command.program@ == "snap"@ && v@[0].needs_root && crate::model::strings_view(
                v@[0].command.args@,
            ) == if classic {
                seq!["install"@, package.id@, "--classic"@]
            } else {
                seq!["install"@, package.id@]
            }),
            Op::Remove { package } => package.source == SourceKind::Snap ==> (r matches Ok(v) && v@.len() == 1
                && v@[0].command.program@ == "snap"@ && v@[0].needs_root && crate::model::strings_view(
                v@[0].command.args@,
            ) == seq!["remove"@, package.id@]),
            Op::UpdateAll { source } => source == SourceKind::Snap ==> (r matches Ok(v) && v@.len() == 1
                && v@[0].command.program@ == "snap"@ && crate::model::strings_view(v@[0].command.args@)
                == seq!["refresh"@]),
            Op::Refresh { .. } => r matches Ok(v) && v@.len() == 0,
        },
        "refresh"@ != "install"@ && "refresh"@ != "remove"@ && "install"@ != "remove"@,
{
    reveal_strlit("refresh");
    reveal_strlit("install");
    reveal_strlit("remove");
    reveal_strlit("snap");
    assert("refresh"@[0] != "install"@[0]);
    assert("install"@[0] != "remove"@[0]);
    assert("refresh"@.len() != "remove"@.len());
}

fn words_of(a: &str, b: Option<&str>, c: Option<&str>) -> (r: Vec<String>)
    ensures
        crate::model::strings_view(r@) == seq![a@] + match b {
            Some(x) => seq![x@],
            None => Seq::empty(),
        } + match c {
            Some(x) => seq![x@],
            None => Seq::empty(),
        },
{
    let mut r: Vec<String> = Vec::new();
    r.push(text::string_from(a));
    match b {
        Some(x) => r.push(text::string_from(x)),
        None => {},
    }
    match c {
        Some(x) => r.push(text::string_from(x)),
        None => {},
    }
    assert(crate::model::strings_view(r@) =~= seq![a@] + match b {
        Some(x) => seq![x@],
        None => Seq::empty(),
    } + match c {
        Some(x) => seq![x@],
        None => Seq::empty(),
    });
    r
}

/// The steps of one operation; `classic` says whether the snap to install
/// runs without a sandbox, as far as the source knows.
pub fn plan_for(op: &Op, classic: bool) -> (r: Result<Vec<Step>, Error>)
    ensures
        plan_spec(*op, classic, r),
        r matches Err(e) ==> e.source_kind == Some(SourceKind::Snap),
{
    match op {
        Op::Install { package } => {
            let name = match own(package) {
                Ok(n) => n,
                Err(e) => return Err(e),
            };
            let mut title = text::string_from("Installing ");
            text::push_str(&mut title, name);
            text::push_str(&mut title, " from the Snap Store");
            let args = words_of(
                "install",
                Some(name),
                if classic {
                    Some("--classic")
                } else {
                    None
                },
            );
            proof {
                if classic {
                    assert(seq!["install"@, name@] + seq!["--classic"@] =~= seq!["install"@, name@, "--classic"@]);
                }
                assert(seq!["install"@] + seq![name@] =~= seq!["install"@, name@]);
                assert(seq!["install"@, name@] + Seq::<Seq<char>>::empty() =~= seq!["install"@, name@]);
            }
            let mut v: Vec<Step> = Vec::new();
            v.push(step(title, args, 6));
            Ok(v)
        },
        Op::Remove { package } => {
            let name = match own(package) {
                Ok(n) => n,
                Err(e) => return Err(e),
            };
            let mut title = text::string_from("Removing ");
            text::push_str(&mut title, name);
            let mut v: Vec<Step> = Vec::new();
            let args = words_of("remove", Some(name), None);
            assert(seq!["remove"@] + seq![name@] + Seq::<Seq<char>>::empty() =~= seq!["remove"@, name@]);
            v.push(step(title, args, 2));
            Ok(v)
        },
        Op::Update { package } => {
            let name = match own(package) {
                Ok(n) => n,
                Err(e) => return Err(e),
            };
            let mut title = text::string_from("Updating ");
            text::push_str(&mut title, name);
            text::push_str(&mut title, " from the Snap Store");
            let mut v: Vec<Step> = Vec::new();
            let args = words_of("refresh", Some(name), None);
            assert(seq!["refresh"@] + seq![name@] + Seq::<Seq<char>>::empty() =~= seq!["refresh"@, name@]);
            v.push(step(title, args, 6));
            Ok(v)
        },
        Op::UpdateAll { source } => {
            if *source == SourceKind::Snap {
                let mut v: Vec<Step> = Vec::new();
                let args = words_of("refresh", None, None);
                assert(seq!["refresh"@] + Seq::<Seq<char>>::empty() + Seq::<Seq<char>>::empty() =~= seq!["refresh"@]);
                v.push(step(text::string_from("Updating every snap"), args, 8));
                Ok(v)
            } else {
                let mut s = text::string_from("Updating every ");
                text::push_str(&mut s, source.label());
                text::push_str(&mut s, " package is not a Snap operation.");
                Err(snap_error(s))
            }
        },
        Op::Refresh { .. } => Ok(Vec::new()),
    }
}

/// Why the source cannot be used without asking snapd: not installed
/// (with where to get it on Arch), or installed and not started. Nothing
/// when the socket is there.
pub open spec fn unavailable_spec(presence: Presence, arch_like: bool) -> Option<Seq<char>> {
    match presence {
        Presence::Absent => Some(
            "snapd is not installed. Install the snapd package to search the Snap Store."@ + if arch_like {
                " On Arch it is the snapd package in the AUR."@
            } else {
                Seq::empty()
            },
        ),
        Presence::ProgramOnly => Some(
            "snapd is installed but not running. Start it with systemctl enable --now snapd.socket."@,
        ),
        Presence::Socket => None,
    }
}

pub fn unavailable_reason(presence: Presence, arch_like: bool) -> (r: Option<String>)
    ensures
        crate::model::opt_view(r) == unavailable_spec(presence, arch_like),
{
    match presence {
        Presence::Absent => {
            let mut s = text::string_from(
                "snapd is not installed. Install the snapd package to search the Snap Store.",
            );
            if arch_like {
                text::push_str(&mut s, " On Arch it is the snapd package in the AUR.");
            } else {
                assert(s@ =~= s@ + Seq::<char>::empty());
            }
            Some(s)
        },
        Presence::ProgramOnly => Some(
            text::string_from(
                "snapd is installed but not running. Start it with systemctl enable --now snapd.socket.",
            ),
        ),
        Presence::Socket => None,
    }
}

/// The source's status line: unavailable for the reason above, or for the
/// error snapd's system information came back as; else available, with
/// snapd's version where it gave one.
pub fn status_for(presence: Presence, arch_like: bool, info: Option<&Result<SnapdInfo, Error>>) -> (r: SourceStatus)
    requires
        presence == Presence::Socket <==> info is Some,
    ensures
        r.kind == SourceKind::Snap,
        match unavailable_spec(presence, arch_like) {
            Some(reason) => !r.available && crate::model::opt_view(r.reason) == Some(reason) && r.detail is None,
            None => match info {
                Some(Ok(i)) => r.available && r.reason is None && crate::model::opt_view(r.detail)
                    == match text_spec(i.version@) {
                    Some(v) => Some("snapd "@ + v),
                    None => None,
                },
                Some(Err(e)) => !r.available && crate::model::opt_view(r.reason) == Some(e.message@)
                    && r.detail is None,
                None => false,
            },
        },
{
    match unavailable_reason(presence, arch_like) {
        Some(reason) => SourceStatus {
            kind: SourceKind::Snap,
            available: false,
            reason: Some(reason),
            detail: None,
        },
        None => match info {
            Some(Ok(i)) => {
                let detail = match text_of(&i.version) {
                    Some(v) => {
                        let mut s = text::string_from("snapd ");
                        text::push_str(&mut s, v.as_str());
                        Some(s)
                    },
                    None => None,
                };
                SourceStatus { kind: SourceKind::Snap, available: true, reason: None, detail }
            },
            Some(Err(e)) => SourceStatus {
                kind: SourceKind::Snap,
                available: false,
                reason: Some(e.message.clone()),
                detail: None,
            },
            None => SourceStatus {
                kind: SourceKind::Snap,
                available: false,
                reason: None,
                detail: None,
            },
        },
    }
}

/// Where snaps are mounted: `/snap` on Ubuntu and Debian, the second on
/// Arch and Fedora, which do not put a directory in `/`.
pub fn default_mount_dirs() -> (r: Vec<String>)
    ensures
        crate::model::strings_view(r@) == seq!["/snap"@, "/var/lib/snapd/snap"@],
{
    let mut r: Vec<String> = Vec::new();
    r.push(text::string_from("/snap"));
    r.push(text::string_from("/var/lib/snapd/snap"));
    assert(crate::model::strings_view(r@) =~= seq!["/snap"@, "/var/lib/snapd/snap"@]);
    r
}

pub open spec fn other_than(d: Seq<char>) -> spec_fn(Seq<char>) -> bool {
    |x: Seq<char>| x != d
}

/// snapd's own mount directory first, once, where it names one.
pub open spec fn with_mount_dir_spec(dirs: Seq<Seq<char>>, dir: Seq<char>) -> Seq<Seq<char>> {
    match text_spec(dir) {
        Some(d) => seq![d] + dirs.filter(other_than(d)),
        None => dirs,
    }
}

pub fn put_mount_dir_first(dirs: &mut Vec<String>, dir: &str)
    ensures
        crate::model::strings_view(final(dirs)@) == with_mount_dir_spec(
            crate::model::strings_view(old(dirs)@),
            dir@,
        ),
{
    let all = text::chars(dir);
    let t = text::trim_chars(all.as_slice());
    if t.len() == 0 {
        return;
    }
    let d = text::string_of(t.as_slice());
    let ghost dv = d@;
    let ghost f = other_than(dv);
    let ghost old_view = crate::model::strings_view(dirs@);
    let mut kept: Vec<String> = Vec::new();
    kept.push(d);
    let mut i: usize = 0;
    proof {
        reveal(Seq::filter);
    }
    while i < dirs.len()
        invariant
            i <= dirs@.len(),
            old_view == crate::model::strings_view(dirs@),
            f == other_than(dv),
            dv == t@,
            crate::model::strings_view(kept@) == seq![dv] + old_view.take(i as int).filter(f),
        decreases dirs@.len() - i,
    {
        let c = text::chars(dirs[i].as_str());
        let ghost before = kept@;
        assert(old_view.take(i + 1) =~= old_view.take(i as int).push(old_view[i as int]));
        proof {
            old_view.take(i as int).lemma_filter_push(old_view[i as int], f);
        }
        assert(old_view[i as int] == dirs@[i as int]@);
        assert(f(old_view[i as int]) == (old_view[i as int] != dv));
        if !text::eq(c.as_slice(), t.as_slice()) {
            kept.push(dirs[i].clone());
            assert(crate::model::strings_view(kept@) =~= crate::model::strings_view(before).push(
                dirs@[i as int]@,
            ));
        }
        i = i + 1;
    }
    assert(old_view.take(dirs@.len() as int) =~= old_view);
    *dirs = kept;
}

/// Which records a detail page is drawn from.
pub enum Details {
    /// The store's record, with the installed one where there is one.
    Store { remote: SnapInfo, installed: Option<SnapInfo> },
    /// The installed record alone.
    Installed { local: SnapInfo },
}

/// The store's record where the store knows the snap, else the installed
/// one; an installed snap is shown even when the store cannot be reached,
/// as its extra pictures can wait for a better connection.
pub fn details_from(id: &str, local: Option<SnapInfo>, remote: Result<Option<SnapInfo>, Error>) -> (r: Result<Details, Error>)
    ensures
        match remote {
            Ok(Some(rm)) => r matches Ok(Details::Store { remote: x, installed: y }) && x == rm && y == local,
            Ok(None) => match local {
                Some(l) => r matches Ok(Details::Installed { local: x }) && x == l,
                None => r matches Err(e) && e.message@ == id@
                    + " is not in the Snap Store and is not installed."@ && e.source_kind == Some(
                    SourceKind::Snap,
                ),
            },
            Err(e) => match local {
                Some(l) => r matches Ok(Details::Installed { local: x }) && x == l,
                None => r matches Err(x) && x == e,
            },
        },
{
    match (local, remote) {
        (local, Ok(Some(rm))) => Ok(Details::Store { remote: rm, installed: local }),
        (Some(l), Ok(None)) => Ok(Details::Installed { local: l }),
        (Some(l), Err(_)) => Ok(Details::Installed { local: l }),
        (None, Ok(None)) => {
            let mut s = text::string_from(id);
            text::push_str(&mut s, " is not in the Snap Store and is not installed.");
            Err(snap_error(s))
        },
        (None, Err(e)) => Err(e),
    }
}

/// The detail page's package.
pub fn details_package(d: &Details, icon_file: Option<String>) -> (p: Package)
    ensures
        match d {
            Details::Store { remote, installed } => snap_package(
                p,
                *remote,
                *installed,
                crate::model::opt_view(icon_file),
            ),
            Details::Installed { local } => snap_package(
                p,
                *local,
                Some(*local),
                crate::model::opt_view(icon_file),
            ),
        },
{
    match d {
        Details::Store { remote, installed } => to_package(
            remote,
            match installed {
                Some(l) => Some(l),
                None => None,
            },
            icon_file,
        ),
        Details::Installed { local } => to_package(local, Some(local), icon_file),
    }
}

/// The update a refreshable snap is: its package's name, kind, summary and
/// icon; from the installed version, if any, to the store's.
pub open spec fn update_spec(u: Update, info: SnapInfo, local: Option<SnapInfo>, icon_file: Option<Seq<char>>) -> bool {
    exists|p: Package|
        #![trigger snap_package(p, info, local, icon_file)]
        snap_package(p, info, local, icon_file) && u.package.source == SourceKind::Snap && u.package.id@ == p.id@
            && u.name@ == p.name@ && u.kind == p.kind && crate::model::opt_view(u.summary) == crate::model::opt_view(
            p.summary,
        ) && crate::model::opt_picture(u.icon) == crate::model::opt_picture(p.icon) && crate::model::opt_view(u.from)
            == local_text(local, |s: SnapInfo| s.version@) && u.to@ == info.version@ && u.download_size
            == size_spec(info.download_size) && u.published is None && !u.is_self
}

/// One refreshable snap as an update.
pub fn update_of(info: &SnapInfo, local: Option<&SnapInfo>, icon_file: Option<String>) -> (u: Update)
    ensures
        update_spec(u, *info, opt_info(local), crate::model::opt_view(icon_file)),
{
    let p = to_package(info, local, icon_file);
    let ghost gp = p;
    let from = match local {
        Some(l) => text_of(&l.version),
        None => None,
    };
    let u = Update {
        package: PackageRef { source: SourceKind::Snap, id: p.id },
        name: p.name,
        kind: p.kind,
        summary: p.summary,
        icon: p.icon,
        from,
        to: info.version.clone(),
        download_size: size(info.download_size),
        published: None,
        is_self: false,
    };
    assert(snap_package(gp, *info, opt_info(local), crate::model::opt_view(icon_file)));
    u
}

} // verus!
