//! Settings portal: the HTTP decisions. The caller owns the sockets; it hands
//! in the bytes it read and sends the bytes and pages these functions give back.

use vstd::prelude::*;
use vstd::utf8::{decode_utf8, valid_utf8};

use crate::config::PORTAL_IP;
use crate::portal::html::{decimal, push_decimal};
use crate::text::{parse_unsigned, same_text, str_from_utf8, trim_bounds, trimmed, unsigned_value};
use crate::wire::{byte_from, find_byte, lemma_byte_from_bounds};

verus! {

/// Whether `needle` occurs in `haystack` at `i`.
pub open spec fn occurs_at(haystack: Seq<u8>, needle: Seq<u8>, i: int) -> bool {
    0 <= i && i + needle.len() <= haystack.len() && haystack.subrange(i, i + needle.len())
        == needle
}

/// Position of the first occurrence of `needle` in `haystack`
pub fn find(haystack: &[u8], needle: &[u8]) -> (r: Option<usize>)
    requires
        needle@.len() > 0,
    ensures
        r matches Some(i) ==> occurs_at(haystack@, needle@, i as int) && forall|j: int|
            0 <= j < i ==> !occurs_at(haystack@, needle@, j),
        r is None ==> forall|j: int| 0 <= j ==> !occurs_at(haystack@, needle@, j),
{
    let n: usize = haystack.len();
    let m: usize = needle.len();
    if m > n {
        return None;
    }
    let mut i: usize = 0;
    while i <= n - m
        invariant
            n == haystack@.len(),
            m == needle@.len(),
            m > 0,
            m <= n,
            i <= n - m + 1,
            forall|j: int| 0 <= j < i ==> !occurs_at(haystack@, needle@, j),
        decreases n - i,
    {
        let mut k: usize = 0;
        let mut same: bool = true;
        while k < m
            invariant
                n == haystack@.len(),
                m == needle@.len(),
                i + m <= n,
                k <= m,
                same == (forall|t: int| 0 <= t < k ==> haystack@[i + t] == needle@[t]),
            decreases m - k,
        {
            if haystack[i + k] != needle[k] {
                same = false;
            }
            k = k + 1;
        }
        if same {
            assert(haystack@.subrange(i as int, i + m) =~= needle@);
            return Some(i);
        }
        assert(!occurs_at(haystack@, needle@, i as int)) by {
            if occurs_at(haystack@, needle@, i as int) {
                assert forall|t: int| 0 <= t < m implies haystack@[i + t] == needle@[t] by {
                    assert(haystack@.subrange(i as int, i + m)[t] == haystack@[i + t]);
                }
            }
        }
        i = i + 1;
    }
    None
}

/// A line without the '\r' of a "\r\n" ending.
pub open spec fn strip_cr(l: Seq<u8>) -> Seq<u8> {
    if l.len() > 0 && l.last() == 13 {
        l.drop_last()
    } else {
        l
    }
}

/// `str::lines` on bytes: split at '\n'; a "\r\n" ending loses its '\r'; a
/// final line ending is optional.
pub open spec fn lines_of(h: Seq<u8>) -> Seq<Seq<u8>>
    decreases h.len(),
{
    if h.len() == 0 {
        Seq::empty()
    } else {
        match byte_from(h, 10, 0) {
            None => seq![h],
            Some(i) => if 0 <= i < h.len() {
                seq![strip_cr(h.subrange(0, i))] + lines_of(h.subrange(i + 1, h.len() as int))
            } else {
                seq![h]
            },
        }
    }
}

/// ASCII lower case of a byte.
pub open spec fn ascii_lower(b: u8) -> u8 {
    if 65 <= b <= 90 {
        (b + 32) as u8
    } else {
        b
    }
}

/// `eq_ignore_ascii_case` with "content-length".
pub open spec fn is_content_length(name: Seq<u8>) -> bool {
    let target = seq![99u8, 111, 110, 116, 101, 110, 116, 45, 108, 101, 110, 103, 116, 104];
    name.len() == 14 && forall|i: int| 0 <= i < 14 ==> ascii_lower(#[trigger] name[i]) == target[i]
}

/// The body length a header line declares: a "content-length" name (any
/// case) before the first ':', and after it a number (surrounding whitespace
/// ignored) that fits a `usize`.
pub open spec fn declared_length(line: Seq<u8>) -> Option<int> {
    match byte_from(line, 58, 0) {
        None => None,
        Some(c) => {
            let value = line.subrange(c + 1, line.len() as int);
            if is_content_length(line.subrange(0, c)) && valid_utf8(value) {
                unsigned_value(trimmed(decode_utf8(value)), usize::MAX as int)
            } else {
                None
            }
        },
    }
}

/// The first length that one of `lines` declares.
pub open spec fn first_declared_length(lines: Seq<Seq<u8>>) -> Option<int>
    decreases lines.len(),
{
    if lines.len() == 0 {
        None
    } else {
        match declared_length(lines[0]) {
            Some(v) => Some(v),
            None => first_declared_length(lines.drop_first()),
        }
    }
}

/// Method and path of a request line: the first two ' '-separated parts.
pub open spec fn method_and_path(line: Seq<u8>) -> Option<(Seq<u8>, Seq<u8>)> {
    match byte_from(line, 32, 0) {
        None => None,
        Some(i) => {
            let rest = line.subrange(i + 1, line.len() as int);
            let path = match byte_from(rest, 32, 0) {
                Some(j) => rest.subrange(0, j),
                None => rest,
            };
            Some((line.subrange(0, i), path))
        },
    }
}

/// Where the method, path and body of a request lie.
#[derive(Debug, Clone, Copy, PartialEq, Eq, Structural)]
pub struct RequestHead {
    /// Method: bytes `0..method_len`
    pub method_len: usize,
    /// Path: bytes `method_len + 1..method_len + 1 + path_len`
    pub path_len: usize,
    /// Body length declared by Content-Length (0 when none is)
    pub content_length: usize,
}

/// The request that a head (request line and headers, up to and including the
/// blank line) describes, or why it is refused.
pub open spec fn request_head(h: Seq<u8>) -> Result<RequestHead, &'static str> {
    if !valid_utf8(h) {
        Err("headers not UTF-8")
    } else if lines_of(h).len() == 0 {
        Err("empty request")
    } else {
        match method_and_path(lines_of(h)[0]) {
            None => Err("no path"),
            Some((m, p)) => Ok(
                RequestHead {
                    method_len: m.len() as usize,
                    path_len: p.len() as usize,
                    content_length: match first_declared_length(lines_of(h)) {
                        Some(v) => v as usize,
                        None => 0,
                    },
                },
            ),
        }
    }
}

proof fn lemma_lines_step(h: Seq<u8>)
    requires
        h.len() > 0,
    ensures
        ({
            let nl = byte_from(h, 10, 0);
            let line = match nl {
                Some(i) => strip_cr(h.subrange(0, i)),
                None => h,
            };
            &&& lines_of(h).len() > 0
            &&& lines_of(h)[0] == line
            &&& lines_of(h).drop_first() == match nl {
                Some(i) => lines_of(h.subrange(i + 1, h.len() as int)),
                None => Seq::<Seq<u8>>::empty(),
            }
        }),
{
    lemma_byte_from_bounds(h, 10, 0);
    match byte_from(h, 10, 0) {
        Some(i) => {
            let rest = lines_of(h.subrange(i + 1, h.len() as int));
            assert((seq![strip_cr(h.subrange(0, i))] + rest).drop_first() =~= rest);
        },
        None => {
            assert(seq![h].drop_first() =~= Seq::<Seq<u8>>::empty());
        },
    }
}

/// The line of `d` that starts at `from`, ending before the '\n' at `nl` (or at the end).
fn line_end(d: &[u8], from: usize, nl: usize) -> (r: usize)
    requires
        from <= nl <= d@.len(),
    ensures
        from <= r <= nl,
        d@.subrange(from as int, r as int) == if nl < d@.len() {
            strip_cr(d@.subrange(from as int, nl as int))
        } else {
            d@.subrange(from as int, nl as int)
        },
{
    if nl < d.len() && nl > from && d[nl - 1] == 13 {
        assert(d@.subrange(from as int, nl as int).drop_last() =~= d@.subrange(
            from as int,
            nl - 1,
        ));
        nl - 1
    } else {
        nl
    }
}

/// The length that the line `d[from..to]` declares, if any.
fn line_length(d: &[u8], from: usize, to: usize) -> (r: Option<usize>)
    requires
        from <= to <= d@.len(),
    ensures
        r is Some <==> declared_length(d@.subrange(from as int, to as int)) is Some,
        r matches Some(v) ==> v == declared_length(d@.subrange(from as int, to as int))->0,
{
    let ghost line = d@.subrange(from as int, to as int);
    let colon: usize = find_byte(d, 58u8 /* ':' */, from, to);
    if colon == to {
        return None;
    }
    let ghost c = colon - from;
    assert(line.subrange(0, c) =~= d@.subrange(from as int, colon as int));
    assert(line.subrange(c + 1, line.len() as int) =~= d@.subrange(colon + 1, to as int));
    let name_len: usize = colon - from;
    if name_len != 14 {
        return None;
    }
    let target: [u8; 14] = [99, 111, 110, 116, 101, 110, 116, 45, 108, 101, 110, 103, 116, 104];
    let mut i: usize = 0;
    while i < 14
        invariant
            i <= 14,
            from + 14 == colon,
            colon < to,
            to <= d@.len(),
            line == d@.subrange(from as int, to as int),
            target@ == seq![99u8, 111, 110, 116, 101, 110, 116, 45, 108, 101, 110, 103, 116, 104],
            forall|k: int| 0 <= k < i ==> ascii_lower(#[trigger] line[k]) == target@[k],
            byte_from(line, 58, 0) == Some(14int),
        decreases 14 - i,
    {
        let b: u8 = d[from + i];
        let lower: u8 = if 65 <= b && b <= 90 {
            b + 32
        } else {
            b
        };
        assert(line[i as int] == b);
        if lower != target[i] {
            assert(line.subrange(0, 14)[i as int] == b);
            assert(!is_content_length(line.subrange(0, 14)));
            return None;
        }
        i = i + 1;
    }
    assert(is_content_length(line.subrange(0, 14)));
    let value_bytes: &[u8] = vstd::slice::slice_subrange(d, colon + 1, to);
    let value: &str = str_from_utf8(value_bytes)?;
    let n: usize = value.unicode_len();
    assert(value@.subrange(0, n as int) =~= value@);
    let (lo, hi) = trim_bounds(value, 0, n);
    match parse_unsigned(value, lo, hi, usize::MAX as u64) {
        Some(v) => Some(v as usize),
        None => None,
    }
}

/// Where the method, path and body of a request lie, from its head: the
/// request line and headers up to and including the blank line.
pub fn parse_request_head(head: &[u8]) -> (r: Result<RequestHead, &'static str>)
    ensures
        r == request_head(head@),
{
    if str_from_utf8(head).is_none() {
        return Err("headers not UTF-8");
    }
    let n: usize = head.len();
    if n == 0 {
        return Err("empty request");
    }
    proof {
        lemma_lines_step(head@);
        lemma_byte_from_bounds(head@, 10, 0);
    }
    assert(head@.subrange(0, n as int) =~= head@);
    let nl: usize = find_byte(head, 10u8 /* '\n' */, 0, n);
    let first_end: usize = line_end(head, 0, nl);
    let ghost first = head@.subrange(0, first_end as int);
    assert(first == lines_of(head@)[0]);
    let sp: usize = find_byte(head, 32u8 /* ' ' */, 0, first_end);
    if sp == first_end {
        return Err("no path");
    }
    proof {
        lemma_byte_from_bounds(first, 32, 0);
    }
    let ghost rest = first.subrange(sp + 1, first.len() as int);
    assert(rest =~= head@.subrange(sp + 1, first_end as int));
    let sp2: usize = find_byte(head, 32u8 /* ' ' */, sp + 1, first_end);
    proof {
        lemma_byte_from_bounds(rest, 32, 0);
    }
    if sp2 < first_end {
        assert(rest.subrange(0, sp2 - sp - 1) =~= head@.subrange(sp + 1, sp2 as int));
    }
    assert(first.subrange(0, sp as int) =~= head@.subrange(0, sp as int));
    let method_len: usize = sp;
    let path_len: usize = sp2 - sp - 1;

    // the first line that declares a Content-Length
    let mut pos: usize = 0;
    let mut content_length: usize = 0;
    loop
        invariant_except_break
            content_length == 0,
        invariant
            pos <= n,
            n == head@.len(),
            first_declared_length(lines_of(head@)) == first_declared_length(
                lines_of(head@.subrange(pos as int, n as int)),
            ),
        ensures
            content_length == match first_declared_length(lines_of(head@)) {
                Some(v) => v as usize,
                None => 0,
            },
        decreases n - pos,
    {
        let ghost h = head@.subrange(pos as int, n as int);
        if pos == n {
            assert(h.len() == 0);
            assert(lines_of(h) =~= Seq::<Seq<u8>>::empty());
            break;
        }
        proof {
            lemma_lines_step(h);
            lemma_byte_from_bounds(h, 10, 0);
        }
        let nl: usize = find_byte(head, 10u8 /* '\n' */, pos, n);
        let end: usize = line_end(head, pos, nl);
        assert(head@.subrange(pos as int, end as int) == lines_of(h)[0]) by {
            if nl < n {
                assert(h.subrange(0, nl - pos) =~= head@.subrange(pos as int, nl as int));
            } else {
                assert(h =~= head@.subrange(pos as int, nl as int));
            }
        }
        if let Some(v) = line_length(head, pos, end) {
            content_length = v;
            break;
        }
        if nl == n {
            assert(lines_of(h).drop_first() =~= Seq::<Seq<u8>>::empty());
            assert(first_declared_length(lines_of(h).drop_first()) is None);
            break;
        }
        assert(h.subrange(nl - pos + 1, h.len() as int) =~= head@.subrange(nl + 1, n as int));
        pos = nl + 1;
    }
    Ok(RequestHead { method_len, path_len, content_length })
}

/// Where the body of a request ends in a buffer of `capacity` bytes whose head
/// ends at `header_end`, or why it cannot be held.
pub fn body_end(head: &RequestHead, header_end: usize, capacity: usize) -> (r: Result<
    usize,
    &'static str,
>)
    ensures
        header_end + head.content_length <= capacity ==> r == Ok::<usize, &'static str>(
            (header_end + head.content_length) as usize,
        ),
        header_end + head.content_length > capacity ==> r == Err::<usize, &'static str>(
            "request body too large",
        ),
{
    if header_end > capacity || head.content_length > capacity - header_end {
        Err("request body too large")
    } else {
        Ok(header_end + head.content_length)
    }
}

/// What the portal does with a request.
#[derive(Debug, Clone, Copy, PartialEq, Eq, Structural)]
pub enum Route {
    /// GET /: the settings form
    ShowForm,
    /// POST /save: apply the form, save, and reboot
    Save,
    /// Any other GET: redirect to the portal (captive portal detection)
    Redirect,
    /// Anything else: 405
    MethodNotAllowed,
}

pub open spec fn route_of(method: Seq<char>, path: Seq<char>) -> Route {
    if method == "GET"@ && path == "/"@ {
        Route::ShowForm
    } else if method == "POST"@ && path == "/save"@ {
        Route::Save
    } else if method == "GET"@ {
        Route::Redirect
    } else {
        Route::MethodNotAllowed
    }
}

pub fn route(method: &str, path: &str) -> (r: Route)
    ensures
        r == route_of(method@, path@),
{
    let get: bool = same_text(method, "GET");
    if get && same_text(path, "/") {
        Route::ShowForm
    } else if same_text(method, "POST") && same_text(path, "/save") {
        Route::Save
    } else if get {
        Route::Redirect
    } else {
        Route::MethodNotAllowed
    }
}

/// What the portal does next while handling a form submission.
#[derive(Debug, Clone, Copy, PartialEq, Eq)]
pub enum SaveDecision {
    /// Write the new settings to flash, then decide again with the result
    Store,
    /// Answer with the reboot page and restart into bridge mode
    Reboot,
    /// Answer with the form and this error in its banner; do not restart
    ShowError(&'static str),
}

/// The decision after the form was applied (`applied`) and, once stored,
/// the result of the store (`stored`, `None` before any store).
pub open spec fn save_decision_of(
    applied: Result<(), &'static str>,
    stored: Option<Result<(), &'static str>>,
) -> SaveDecision {
    match applied {
        Err(e) => SaveDecision::ShowError(e),
        Ok(()) => match stored {
            None => SaveDecision::Store,
            Some(Ok(())) => SaveDecision::Reboot,
            Some(Err(e)) => SaveDecision::ShowError(e),
        },
    }
}

pub fn save_decision(applied: Result<(), &'static str>, stored: Option<Result<(), &'static str>>) -> (r:
    SaveDecision)
    ensures
        r == save_decision_of(applied, stored),
{
    match applied {
        Err(e) => SaveDecision::ShowError(e),
        Ok(()) => match stored {
            None => SaveDecision::Store,
            Some(Ok(())) => SaveDecision::Reboot,
            Some(Err(e)) => SaveDecision::ShowError(e),
        },
    }
}

/// Settings reach the flash only from a form that was accepted, and the
/// portal restarts only after they were stored; every refusal is answered
/// with its reason.
pub proof fn lemma_save_only_accepted(
    applied: Result<(), &'static str>,
    stored: Option<Result<(), &'static str>>,
)
    ensures
        save_decision_of(applied, stored) == SaveDecision::Store ==> applied is Ok && stored
            is None,
        save_decision_of(applied, stored) == SaveDecision::Reboot ==> applied is Ok && stored
            matches Some(Ok(_)),
        applied matches Err(e) ==> save_decision_of(applied, stored) == SaveDecision::ShowError(e),
        applied is Ok ==> (stored matches Some(Err(e)) ==> save_decision_of(applied, stored)
            == SaveDecision::ShowError(e)),
{
}

/// The status line and headers of an HTML response with a body of `body_len` bytes.
pub open spec fn response_header_text(status: Seq<char>, body_len: nat) -> Seq<char> {
    "HTTP/1.1 "@ + status + "\r\nContent-Type: text/html\r\nContent-Length: "@ + decimal(body_len)
        + "\r\nConnection: close\r\n\r\n"@
}

pub fn response_header(status: &str, body_len: usize) -> (r: String)
    ensures
        r@ == response_header_text(status@, body_len as nat),
{
    let mut out = String::new();
    out.append("HTTP/1.1 ");
    out.append(status);
    out.append("\r\nContent-Type: text/html\r\nContent-Length: ");
    push_decimal(&mut out, body_len as u64);
    out.append("\r\nConnection: close\r\n\r\n");
    out
}

/// The redirect to the portal's front page.
pub open spec fn redirect_text() -> Seq<char> {
    "HTTP/1.1 302 Found\r\nLocation: http://"@ + decimal(PORTAL_IP[0] as nat) + "."@ + decimal(
        PORTAL_IP[1] as nat,
    ) + "."@ + decimal(PORTAL_IP[2] as nat) + "."@ + decimal(PORTAL_IP[3] as nat)
        + "/\r\nContent-Length: 0\r\nConnection: close\r\n\r\n"@
}

pub fn redirect_response() -> (r: String)
    ensures
        r@ == redirect_text(),
{
    let mut out = String::new();
    out.append("HTTP/1.1 302 Found\r\nLocation: http://");
    push_decimal(&mut out, PORTAL_IP[0] as u64);
    out.append(".");
    push_decimal(&mut out, PORTAL_IP[1] as u64);
    out.append(".");
    push_decimal(&mut out, PORTAL_IP[2] as u64);
    out.append(".");
    push_decimal(&mut out, PORTAL_IP[3] as u64);
    out.append("/\r\nContent-Length: 0\r\nConnection: close\r\n\r\n");
    out
}

} // verus!
