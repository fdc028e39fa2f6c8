use vstd::prelude::*;
use vstd::utf8::{decode_utf8, valid_utf8};

use crate::codec::{gzip_decompress, gzip_inflated, utf8_text, zlib_decompress, zlib_inflated};
use crate::json::{Json, JsonModel, get};
use crate::protocol::{is_login_command, login_command};
use crate::text::{
    chars_eq, chars_of, ends_with, is_whitespace, is_whitespace_char, lines, push_str, split_lines,
    string_from_chars, trim, trim_chars,
};

verus! {

broadcast use vstd::std_specs::vec::group_vec_axioms;

/// The game's servers: `qpyou.cn` and its subdomains.
pub open spec fn game_host(host: Seq<char>) -> bool {
    host == "qpyou.cn"@ || (".qpyou.cn"@.len() <= host.len() && host.subrange(
        host.len() - ".qpyou.cn"@.len(),
        host.len() as int,
    ) == ".qpyou.cn"@)
}

/// Whether a connection to `host` is intercepted: only the game's servers are.
pub fn is_game_host(host: &str) -> (r: bool)
    ensures
        r == game_host(host@),
{
    let h = chars_of(host);
    let apex = chars_of("qpyou.cn");
    let suffix = chars_of(".qpyou.cn");
    chars_eq(&h, &apex) || ends_with(&h, &suffix)
}

/// What the proxy does with a request.
#[derive(Debug, Clone, Copy, PartialEq, Eq)]
pub enum RequestRoute {
    /// Answer with the configuration profile of the certificate.
    CertificateProfile,
    /// Answer with the certificate in DER form.
    CertificateDer,
    /// Forward to the server; `profile_request` says whether the response
    /// may carry the login profile.
    Forward { profile_request: bool },
}

pub open spec fn request_route(is_get: bool, path: Seq<char>) -> RequestRoute {
    if is_get && (path == "/SwagEx.mobileconfig"@ || path == "/certificate"@) {
        RequestRoute::CertificateProfile
    } else if is_get && path == "/SwagEx-CA.cer"@ {
        RequestRoute::CertificateDer
    } else {
        RequestRoute::Forward { profile_request: path == "/api/gateway_c2.php"@ }
    }
}

/// How the proxy handles a request with the given method and path: the
/// certificate is served on its own paths, everything else is forwarded.
pub fn route_request(is_get: bool, path: &str) -> (r: RequestRoute)
    ensures
        r == request_route(is_get, path@),
{
    let p = chars_of(path);
    if is_get && (chars_eq(&p, &chars_of("/SwagEx.mobileconfig")) || chars_eq(&p, &chars_of("/certificate"))) {
        return RequestRoute::CertificateProfile;
    }
    if is_get && chars_eq(&p, &chars_of("/SwagEx-CA.cer")) {
        return RequestRoute::CertificateDer;
    }
    RequestRoute::Forward { profile_request: chars_eq(&p, &chars_of("/api/gateway_c2.php")) }
}

/// `c` in lower case where it is an ASCII capital letter.
pub open spec fn ascii_lower(c: char) -> char {
    if 'A' <= c <= 'Z' {
        ((c as u32) + 32) as char
    } else {
        c
    }
}

/// A `Content-Encoding` value as compared: trimmed, ASCII lower case.
pub open spec fn encoding_name(value: Seq<char>) -> Seq<char> {
    trim(value).map_values(|c: char| ascii_lower(c))
}

/// The body as sent before its `Content-Encoding` was applied; `None` for an
/// unknown encoding, a missing header or a body that does not decompress.
pub open spec fn decoded_body(content_encoding: Option<Seq<char>>, body: Seq<u8>) -> Option<Seq<u8>> {
    match content_encoding {
        None => None,
        Some(value) => {
            let e = encoding_name(value);
            if e == "gzip"@ || e == "x-gzip"@ {
                gzip_inflated(body)
            } else if e == "deflate"@ {
                zlib_inflated(body)
            } else if e == "identity"@ {
                Some(body)
            } else {
                None
            }
        },
    }
}

fn copy_bytes(body: &[u8]) -> (r: Vec<u8>)
    ensures
        r@ == body@,
{
    let mut r: Vec<u8> = Vec::new();
    let mut i: usize = 0;
    while i < body.len()
        invariant
            i <= body.len(),
            r@ == body@.subrange(0, i as int),
        decreases body.len() - i,
    {
        r.push(body[i]);
        i += 1;
        assert(r@ =~= body@.subrange(0, i as int));
    }
    assert(body@.subrange(0, body.len() as int) =~= body@);
    r
}

/// Undoes the `Content-Encoding` of a response body.
pub fn decode_http_body(content_encoding: Option<&str>, body: &[u8]) -> (r: Option<Vec<u8>>)
    ensures
        match r {
            Some(v) => decoded_body(
                match content_encoding {
                    Some(e) => Some(e@),
                    None => None,
                },
                body@,
            ) == Some(v@),
            None => decoded_body(
                match content_encoding {
                    Some(e) => Some(e@),
                    None => None,
                },
                body@,
            ) is None,
        },
{
    let value = match content_encoding {
        Some(v) => v,
        None => return None,
    };
    let trimmed = trim_chars(&chars_of(value));
    let mut lower: Vec<char> = Vec::new();
    let mut i: usize = 0;
    while i < trimmed.len()
        invariant
            i <= trimmed.len(),
            lower@ == trimmed@.take(i as int).map_values(|c: char| ascii_lower(c)),
        decreases trimmed.len() - i,
    {
        let c = trimmed[i];
        let l = if 'A' <= c && c <= 'Z' {
            let code: u8 = ((c as u32) + 32) as u8;
            code as char
        } else {
            c
        };
        assert(l == ascii_lower(c)) by {
            if 'A' <= c <= 'Z' {
                assert(((c as u32) + 32) <= 0x7F);
            }
        }
        lower.push(l);
        i += 1;
        assert(lower@ =~= trimmed@.take(i as int).map_values(|c: char| ascii_lower(c)));
    }
    assert(trimmed@.take(trimmed.len() as int) =~= trimmed@);
    if chars_eq(&lower, &chars_of("gzip")) || chars_eq(&lower, &chars_of("x-gzip")) {
        gzip_decompress(body)
    } else if chars_eq(&lower, &chars_of("deflate")) {
        zlib_decompress(body)
    } else if chars_eq(&lower, &chars_of("identity")) {
        Some(copy_bytes(body))
    } else {
        None
    }
}

/// The bytes handed to the profile decoder: the body with its encoding
/// undone, or as received where that fails.
pub fn capture_body(content_encoding: Option<&str>, body: &[u8]) -> (r: Vec<u8>)
    ensures
        r@ == match decoded_body(
            match content_encoding {
                Some(e) => Some(e@),
                None => None,
            },
            body@,
        ) {
            Some(d) => d,
            None => body@,
        },
{
    match decode_http_body(content_encoding, body) {
        Some(d) => d,
        None => copy_bytes(body),
    }
}

/// A response is inspected only while capturing and only for the profile
/// request.
pub fn should_capture_response(capture_enabled: bool, profile_request: bool) -> (r: bool)
    ensures
        r == (capture_enabled && profile_request),
{
    capture_enabled && profile_request
}

/// The decoded response answers a login.
pub open spec fn is_login_response(response: JsonModel) -> bool {
    get(response, "command"@) matches Some(JsonModel::Str(c)) && is_login_command(c)
}

/// Whether a decoded response answers a login, and so is to be exported.
pub fn login_response(response: &Json) -> (r: bool)
    ensures
        r == is_login_response(response@),
{
    match response.get("command") {
        Some(v) => match v.as_str() {
            Some(c) => login_command(c),
            None => false,
        },
        None => false,
    }
}

/// The request that opens a tunnel to `hostname` on port 443 through the proxy.
pub open spec fn connect_request_text(hostname: Seq<char>) -> Seq<char> {
    "CONNECT "@ + hostname + ":443 HTTP/1.1\r\nHost: "@ + hostname + ":443\r\n\r\n"@
}

/// The request that opens a tunnel to `hostname` on port 443 through the proxy.
pub fn connect_request(hostname: &str) -> (r: String)
    ensures
        r@ == connect_request_text(hostname@),
{
    let mut t = chars_of("CONNECT ");
    push_str(&mut t, hostname);
    push_str(&mut t, ":443 HTTP/1.1\r\nHost: ");
    push_str(&mut t, hostname);
    push_str(&mut t, ":443\r\n\r\n");
    string_from_chars(&t)
}

/// The reply to a tunnel request has ended: its last bytes are CR LF CR LF.
pub open spec fn reply_ended(reply: Seq<u8>) -> bool {
    reply.len() >= 4 && reply.subrange(reply.len() - 4, reply.len() as int) == seq![13u8, 10u8, 13u8, 10u8]
}

/// Whether the reply read so far has ended.
pub fn connect_reply_ended(reply: &Vec<u8>) -> (r: bool)
    ensures
        r == reply_ended(reply@),
{
    let n = reply.len();
    if n < 4 {
        return false;
    }
    let r = reply[n - 4] == 13 && reply[n - 3] == 10 && reply[n - 2] == 13 && reply[n - 1] == 10;
    if r {
        assert(reply@.subrange(n - 4, n as int) =~= seq![13u8, 10u8, 13u8, 10u8]);
    } else {
        assert(reply@.subrange(n - 4, n as int)[0] == reply@[n - 4]);
        assert(reply@.subrange(n - 4, n as int)[1] == reply@[n - 3]);
        assert(reply@.subrange(n - 4, n as int)[2] == reply@[n - 2]);
        assert(reply@.subrange(n - 4, n as int)[3] == reply@[n - 1]);
    }
    r
}

/// The words of `s`: its maximal runs of non-whitespace (`str::split_whitespace`).
pub open spec fn words(s: Seq<char>) -> Seq<Seq<char>>
    decreases s.len(),
{
    if s.len() == 0 {
        Seq::empty()
    } else {
        let w = words(s.drop_last());
        let c = s.last();
        if is_whitespace(c) {
            w
        } else if s.len() > 1 && !is_whitespace(s[s.len() - 2]) {
            w.update(w.len() - 1, w.last().push(c))
        } else {
            w.push(seq![c])
        }
    }
}

proof fn lemma_words_nonempty(s: Seq<char>)
    ensures
        s.len() > 0 && !is_whitespace(s.last()) ==> words(s).len() > 0,
        s.len() > 0 && !is_whitespace(s.last()) ==> words(s).last().len() > 0,
    decreases s.len(),
{
    if s.len() > 1 {
        lemma_words_nonempty(s.drop_last());
    }
}

/// The value of a string of ASCII digits.
pub open spec fn digits_value(ds: Seq<char>) -> int
    decreases ds.len(),
{
    if ds.len() == 0 {
        0
    } else {
        digits_value(ds.drop_last()) * 10 + ((ds.last() as u32) - 48)
    }
}

pub open spec fn all_digits(ds: Seq<char>) -> bool {
    forall|i: int| 0 <= i < ds.len() ==> '0' <= #[trigger] ds[i] <= '9'
}

/// `u16::from_str`: an optional `+`, then one or more ASCII digits whose
/// value fits in `u16`.
pub open spec fn parsed_u16(t: Seq<char>) -> Option<u16> {
    let ds = if t.len() > 0 && t[0] == '+' {
        t.drop_first()
    } else {
        t
    };
    if ds.len() > 0 && all_digits(ds) && digits_value(ds) <= 65535 {
        Some(digits_value(ds) as u16)
    } else {
        None
    }
}

/// The status code of a reply's status line: its second word as a `u16`, or 0.
pub open spec fn status_code(status_line: Seq<char>) -> u16 {
    let ws = words(status_line);
    if ws.len() > 1 {
        match parsed_u16(ws[1]) {
            Some(code) => code,
            None => 0,
        }
    } else {
        0
    }
}

/// The first line of a reply, or nothing.
pub open spec fn first_line(text: Seq<char>) -> Seq<char> {
    if lines(text).len() > 0 {
        lines(text)[0]
    } else {
        Seq::empty()
    }
}

/// Why the proxy did not open a tunnel.
#[derive(Debug, PartialEq, Eq)]
pub enum ConnectRefusal {
    /// The reply did not end before the size limit.
    Incomplete,
    /// The reply is not UTF-8 text.
    NotText,
    /// The reply's status is not a success; the status line is kept.
    Refused(String),
}

/// The verdict on a tunnel reply: it must have ended, be text, and carry a
/// 2xx status.
pub open spec fn reply_accepted(reply: Seq<u8>) -> bool {
    reply_ended(reply) && valid_utf8(reply) && 200 <= status_code(first_line(decode_utf8(reply))) < 300
}

fn words_of(s: &Vec<char>) -> (r: Vec<Vec<char>>)
    ensures
        crate::text::char_lines(r@) == words(s@),
{
    let mut out: Vec<Vec<char>> = Vec::new();
    let mut i: usize = 0;
    assert(s@.subrange(0, 0) =~= Seq::<char>::empty());
    while i < s.len()
        invariant
            i <= s.len(),
            crate::text::char_lines(out@) == words(s@.subrange(0, i as int)),
        decreases s.len() - i,
    {
        let ghost prefix = s@.subrange(0, i as int);
        let ghost next = s@.subrange(0, i + 1);
        assert(next.drop_last() =~= prefix);
        let c = s[i];
        if is_whitespace_char(c) {
        } else if i > 0 && !is_whitespace_char(s[i - 1]) {
            proof {
                lemma_words_nonempty(prefix);
                assert(prefix.last() == s@[i - 1]);
            }
            let ghost before = crate::text::char_lines(out@);
            let last = out.len() - 1;
            let mut w = out.remove(last);
            w.push(c);
            out.push(w);
            proof {
                assert(crate::text::char_lines(out@) =~= before.update(before.len() - 1, before.last().push(c)));
            }
        } else {
            let ghost before = crate::text::char_lines(out@);
            let mut w: Vec<char> = Vec::new();
            w.push(c);
            out.push(w);
            proof {
                assert(crate::text::char_lines(out@) =~= before.push(seq![c]));
            }
        }
        i += 1;
    }
    assert(s@.subrange(0, s.len() as int) =~= s@);
    out
}

fn parse_u16(t: &Vec<char>) -> (r: Option<u16>)
    ensures
        r == parsed_u16(t@),
{
    let start: usize = if t.len() > 0 && t[0] == '+' { 1 } else { 0 };
    let ghost ds = if t@.len() > 0 && t@[0] == '+' { t@.drop_first() } else { t@ };
    assert(ds =~= t@.subrange(start as int, t@.len() as int));
    if start >= t.len() {
        return None;
    }
    let mut value: u32 = 0;
    let mut i = start;
    while i < t.len()
        invariant
            start <= i <= t.len(),
            ds == t@.subrange(start as int, t@.len() as int),
            ds == (if t@.len() > 0 && t@[0] == '+' { t@.drop_first() } else { t@ }),
            all_digits(t@.subrange(start as int, i as int)),
            value as int == digits_value(t@.subrange(start as int, i as int)),
            value <= 65535,
        decreases t.len() - i,
    {
        let c = t[i];
        let ghost seg = t@.subrange(start as int, i + 1);
        assert(seg.drop_last() =~= t@.subrange(start as int, i as int));
        if !('0' <= c && c <= '9') {
            assert(!all_digits(ds)) by {
                assert(ds[i - start] == c);
                assert(!('0' <= ds[i - start] <= '9'));
            }
            return None;
        }
        assert(all_digits(seg)) by {
            assert forall|j: int| 0 <= j < seg.len() implies '0' <= #[trigger] seg[j] <= '9' by {
                if j < seg.len() - 1 {
                    assert(seg[j] == t@.subrange(start as int, i as int)[j]);
                }
            }
        }
        let d = (c as u32) - 48;
        let next: u32 = value * 10 + d;
        if next > 65535 {
            proof {
                assert(digits_value(seg) == next as int);
                if all_digits(ds) {
                    lemma_digits_value_grows(ds, (i + 1 - start) as int);
                    assert(ds.take((i + 1 - start) as int) =~= seg);
                }
            }
            return None;
        }
        value = next;
        i += 1;
    }
    assert(t@.subrange(start as int, i as int) =~= ds);
    Some(value as u16)
}

proof fn lemma_digits_value_nonnegative(ds: Seq<char>)
    requires
        all_digits(ds),
    ensures
        digits_value(ds) >= 0,
    decreases ds.len(),
{
    if ds.len() > 0 {
        assert(all_digits(ds.drop_last()));
        lemma_digits_value_nonnegative(ds.drop_last());
        assert('0' <= ds.last() <= '9');
    }
}

proof fn lemma_digits_value_grows(ds: Seq<char>, k: int)
    requires
        0 <= k <= ds.len(),
        all_digits(ds),
    ensures
        digits_value(ds) >= digits_value(ds.take(k)),
    decreases ds.len() - k,
{
    if k == ds.len() {
        assert(ds.take(k) =~= ds);
    } else {
        lemma_digits_value_grows(ds, k + 1);
        let t = ds.take(k + 1);
        assert(t.drop_last() =~= ds.take(k));
        assert(all_digits(ds.take(k)));
        lemma_digits_value_nonnegative(ds.take(k));
        assert('0' <= t.last() <= '9');
    }
}

/// Checks the proxy's reply to a tunnel request.
pub fn connect_reply_verdict(reply: &Vec<u8>) -> (r: Result<(), ConnectRefusal>)
    ensures
        r is Ok <==> reply_accepted(reply@),
        r matches Err(ConnectRefusal::Incomplete) <==> !reply_ended(reply@),
        r matches Err(ConnectRefusal::NotText) <==> reply_ended(reply@) && !valid_utf8(reply@),
        r matches Err(ConnectRefusal::Refused(line)) ==> line@ == first_line(decode_utf8(reply@)),
{
    if !connect_reply_ended(reply) {
        return Err(ConnectRefusal::Incomplete);
    }
    let text = match utf8_text(reply.as_slice()) {
        Some(t) => t,
        None => return Err(ConnectRefusal::NotText),
    };
    let ls = split_lines(&chars_of(text.as_str()));
    let line: Vec<char> = if ls.len() > 0 {
        crate::text::sub_chars(&ls[0], 0, ls[0].len())
    } else {
        Vec::new()
    };
    proof {
        if ls@.len() > 0 {
            assert(ls@[0]@.subrange(0, ls@[0]@.len() as int) =~= ls@[0]@);
            assert(crate::text::char_lines(ls@)[0] == ls@[0]@);
        }
    }
    assert(line@ == first_line(text@));
    let ws = words_of(&line);
    let code: u16 = if ws.len() > 1 {
        assert(crate::text::char_lines(ws@)[1] == ws@[1]@);
        match parse_u16(&ws[1]) {
            Some(c) => c,
            None => 0,
        }
    } else {
        0
    };
    if 200 <= code && code < 300 {
        Ok(())
    } else {
        Err(ConnectRefusal::Refused(string_from_chars(&line)))
    }
}

} // verus!
