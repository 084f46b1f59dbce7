//! The HTTP side of the local reverse proxy: when a request head is
//! complete, which host it asks for, and the error pages it is answered with.
use vstd::prelude::*;
use vstd::utf8::{decode_utf8, encode_utf8, valid_utf8};

use crate::text::{
    append_chars, append_vec, ascii_lower, chars_of, chars_eq_ignore_case, decimal, decimal_chars,
    eq_ignore_ascii_case, lemma_split_prefix_parts, lower_chars, split_on,
    string_of, sub_chars, trim, trim_chars,
};

verus! {

/// Request heads longer than this are refused.
pub const MAX_HEADER_BYTES: usize = 65536;

// ---------------------------------------------------------------------------
// Finding the end of the request head
// ---------------------------------------------------------------------------

/// `\r\n\r\n` starts at `p`.
#[verifier::opaque]
pub open spec fn blank_line_at(b: Seq<u8>, p: int) -> bool {
    &&& 0 <= p
    &&& p + 4 <= b.len()
    &&& b[p] == 13u8
    &&& b[p + 1] == 10u8
    &&& b[p + 2] == 13u8
    &&& b[p + 3] == 10u8
}

pub open spec fn has_blank_line(b: Seq<u8>) -> bool {
    exists|p: int| blank_line_at(b, p)
}

/// Where the first `\r\n\r\n` starts.
pub open spec fn first_blank_line(b: Seq<u8>) -> int {
    choose|p: int| blank_line_at(b, p) && forall|q: int| 0 <= q < p ==> !blank_line_at(b, q)
}

/// What the connection handler does with the bytes read so far.
#[derive(Debug, Clone, Copy, PartialEq, Eq, Structural)]
pub enum HeadStatus {
    /// The head is complete: it holds `\r\n\r\n`.
    Complete,
    /// No end of head within the limit: answer 431.
    TooLarge,
    /// Read more.
    Incomplete,
}

fn find_blank_line(b: &[u8]) -> (r: Option<usize>)
    ensures
        r is Some <==> has_blank_line(b@),
        r matches Some(p) ==> p as int == first_blank_line(b@) && blank_line_at(b@, p as int) && p
            + 4 <= b@.len(),
{
    reveal(blank_line_at);
    if b.len() < 4 {
        assert(!has_blank_line(b@)) by {
            if has_blank_line(b@) {
                let q = choose|q: int| blank_line_at(b@, q);
            }
        }
        return None;
    }
    let mut p: usize = 0;
    while p <= b.len() - 4
        invariant
            b.len() >= 4,
            forall|q: int| 0 <= q < p ==> !blank_line_at(b@, q),
        decreases b.len() - p,
    {
        if b[p] == 13 && b[p + 1] == 10 && b[p + 2] == 13 && b[p + 3] == 10 {
            proof {
                reveal(blank_line_at);
                let c = first_blank_line(b@);
                assert(blank_line_at(b@, p as int) && forall|q: int|
                    0 <= q < p ==> !blank_line_at(b@, q));
                assert(blank_line_at(b@, c));
                if c < p {
                } else if c > p {
                    assert(!blank_line_at(b@, p as int));
                }
            }
            return Some(p);
        }
        proof {
            reveal(blank_line_at);
        }
        p = p + 1;
    }
    assert(!has_blank_line(b@)) by {
        if has_blank_line(b@) {
            let q = choose|q: int| blank_line_at(b@, q);
            assert(q < p);
        }
    }
    None
}

/// Whether the bytes read so far end the request head, overrun the limit,
/// or need more reading.
pub fn head_status(initial: &[u8]) -> (r: HeadStatus)
    ensures
        r == if has_blank_line(initial@) {
            HeadStatus::Complete
        } else if initial@.len() >= MAX_HEADER_BYTES {
            HeadStatus::TooLarge
        } else {
            HeadStatus::Incomplete
        },
{
    if find_blank_line(initial).is_some() {
        HeadStatus::Complete
    } else if initial.len() >= MAX_HEADER_BYTES {
        HeadStatus::TooLarge
    } else {
        HeadStatus::Incomplete
    }
}

// ---------------------------------------------------------------------------
// The Host header
// ---------------------------------------------------------------------------

/// A line without its trailing carriage return.
pub open spec fn strip_cr(l: Seq<char>) -> Seq<char> {
    if l.len() > 0 && l.last() == '\r' {
        l.drop_last()
    } else {
        l
    }
}

pub open spec fn first_colon(l: Seq<char>) -> int {
    choose|k: int| 0 <= k < l.len() && l[k] == ':' && forall|j: int| 0 <= j < k ==> l[j] != ':'
}

pub open spec fn last_colon(l: Seq<char>) -> int {
    choose|k: int| 0 <= k < l.len() && l[k] == ':' && forall|j: int| k < j < l.len() ==> l[j] != ':'
}

#[verifier::opaque]
/// The host named by one header line, if it is a `Host` line: the value,
/// trimmed and lowercased, without anything from its last `:` on.
pub open spec fn host_of_line(l: Seq<char>) -> Option<Seq<char>> {
    if !l.contains(':') {
        None
    } else if !eq_ignore_ascii_case(l.take(first_colon(l)), "host"@) {
        None
    } else {
        let value = ascii_lower(trim(l.skip(first_colon(l) + 1)));
        if value.contains(':') {
            Some(value.take(last_colon(value)))
        } else {
            Some(value)
        }
    }
}

/// The host of the first `Host` line among `lines`.
pub open spec fn first_host(lines: Seq<Seq<char>>) -> Option<Seq<char>>
    decreases lines.len(),
{
    if lines.len() == 0 {
        None
    } else {
        match host_of_line(strip_cr(lines[0])) {
            Some(h) => Some(h),
            None => first_host(lines.drop_first()),
        }
    }
}

/// The host named by a complete request head: it must be UTF-8, and its
/// request line is skipped.
#[verifier::opaque]
pub open spec fn head_host(head: Seq<u8>) -> Option<Seq<char>> {
    if !valid_utf8(head) {
        None
    } else {
        first_host(split_on(decode_utf8(head), '\n').drop_first())
    }
}

/// `parse_host`: the host that a request head asks for. The head is taken
/// up to and including the first blank line.
pub open spec fn request_host(b: Seq<u8>) -> Option<Seq<char>> {
    if !has_blank_line(b) {
        None
    } else {
        head_host(b.take(first_blank_line(b) + 4))
    }
}

proof fn lemma_first_host_at(lines: Seq<Seq<char>>, k: int)
    requires
        0 <= k < lines.len(),
        forall|j: int| 0 <= j < k ==> host_of_line(strip_cr(#[trigger] lines[j])) is None,
        host_of_line(strip_cr(lines[k])) is Some,
    ensures
        first_host(lines) == host_of_line(strip_cr(lines[k])),
    decreases k,
{
    if k > 0 {
        assert(host_of_line(strip_cr(lines[0])) is None);
        let rest = lines.drop_first();
        assert forall|j: int| 0 <= j < k - 1 implies host_of_line(strip_cr(#[trigger] rest[j])) is None by {
            assert(rest[j] == lines[j + 1]);
        }
        lemma_first_host_at(rest, k - 1);
    }
}

proof fn lemma_first_host_none(lines: Seq<Seq<char>>)
    requires
        forall|j: int| 0 <= j < lines.len() ==> host_of_line(strip_cr(#[trigger] lines[j])) is None,
    ensures
        first_host(lines) is None,
    decreases lines.len(),
{
    if lines.len() > 0 {
        let rest = lines.drop_first();
        assert forall|j: int| 0 <= j < rest.len() implies host_of_line(strip_cr(#[trigger] rest[j])) is None by {
            assert(rest[j] == lines[j + 1]);
        }
        lemma_first_host_none(rest);
    }
}

/// A `Host` line found among the complete lines of a prefix of the head is
/// the first one of the whole head.
proof fn lemma_found_in_prefix(text: Seq<char>, n: int, idx: int)
    requires
        0 <= n <= text.len(),
        1 <= idx < split_on(text.take(n), '\n').len() - 1,
        forall|k: int|
            1 <= k < idx ==> host_of_line(strip_cr(#[trigger] split_on(text.take(n), '\n')[k]))
                is None,
        host_of_line(strip_cr(split_on(text.take(n), '\n')[idx])) is Some,
    ensures
        first_host(split_on(text, '\n').drop_first()) == host_of_line(
            strip_cr(split_on(text.take(n), '\n')[idx]),
        ),
{
    let parts = split_on(text.take(n), '\n');
    let all = split_on(text, '\n');
    lemma_split_prefix_parts(text, n, '\n');
    let lines = all.drop_first();
    assert(lines[idx - 1] == parts[idx]);
    assert forall|j: int| 0 <= j < idx - 1 implies host_of_line(strip_cr(#[trigger] lines[j])) is None by {
        assert(lines[j] == all[j + 1]);
        assert(all[j + 1] == parts[j + 1]);
    }
    lemma_first_host_at(lines, idx - 1);
}

/// `std::str::from_utf8`: the text of `b` where it is valid UTF-8.
#[verifier::external_body]
fn utf8_text(b: &[u8]) -> (r: Option<&str>)
    ensures
        r is Some <==> valid_utf8(b@),
        r matches Some(s) ==> s@ == decode_utf8(b@),
{
    std::str::from_utf8(b).ok()
}

fn host_in_line(l: &Vec<char>) -> (r: Option<Vec<char>>)
    ensures
        r is Some <==> host_of_line(l@) is Some,
        r matches Some(h) ==> host_of_line(l@) == Some(h@),
{
    reveal(host_of_line);
    let mut k: usize = 0;
    while k < l.len() && l[k] != ':'
        invariant
            k <= l.len(),
            forall|j: int| 0 <= j < k ==> l@[j] != ':',
        decreases l.len() - k,
    {
        k = k + 1;
    }
    if k == l.len() {
        assert(!l@.contains(':'));
        return None;
    }
    proof {
        let c = first_colon(l@);
        assert(0 <= k < l@.len() && l@[k as int] == ':' && forall|j: int|
            0 <= j < k ==> l@[j] != ':');
        if c < k {
        } else if c > k {
        }
        assert(c == k);
    }
    let name = sub_chars(l, 0, k);
    let host_word = chars_of("host");
    if !chars_eq_ignore_case(&name, &host_word) {
        return None;
    }
    let rest = sub_chars(l, k + 1, l.len());
    assert(rest@ =~= l@.skip(k + 1));
    let t = trim_chars(&rest);
    let value = lower_chars(&t);
    let mut m: usize = value.len();
    while m > 0 && value[m - 1] != ':'
        invariant
            m <= value.len(),
            forall|j: int| m <= j < value.len() ==> value@[j] != ':',
        decreases m,
    {
        m = m - 1;
    }
    if m == 0 {
        assert(!value@.contains(':'));
        Some(value)
    } else {
        proof {
            let c = last_colon(value@);
            let m1 = m - 1;
            assert(0 <= m1 < value@.len() && value@[m1 as int] == ':' && forall|j: int|
                m1 < j < value@.len() ==> value@[j] != ':');
            if c < m1 {
            } else if c > m1 {
            }
            assert(c == m1);
        }
        Some(sub_chars(&value, 0, m - 1))
    }
}

fn line_host(cur: &Vec<char>) -> (r: Option<Vec<char>>)
    ensures
        r is Some <==> host_of_line(strip_cr(cur@)) is Some,
        r matches Some(h) ==> host_of_line(strip_cr(cur@)) == Some(h@),
{
    let line = if cur.len() > 0 && cur[cur.len() - 1] == '\r' {
        sub_chars(cur, 0, cur.len() - 1)
    } else {
        sub_chars(cur, 0, cur.len())
    };
    assert(line@ =~= strip_cr(cur@));
    host_in_line(&line)
}

/// The host of the first `Host` line of `text`, its first line skipped.
fn first_host_in(chars: &Vec<char>) -> (r: Option<Vec<char>>)
    ensures
        r is Some <==> first_host(split_on(chars@, '\n').drop_first()) is Some,
        r matches Some(h) ==> first_host(split_on(chars@, '\n').drop_first()) == Some(h@),
{
    let ghost all = split_on(chars@, '\n');
    let mut cur: Vec<char> = Vec::new();
    let mut i: usize = 0;
    let mut line_no: usize = 0;
    assert(chars@.take(0) =~= Seq::<char>::empty());
    while i < chars.len()
        invariant
            i <= chars.len(),
            line_no <= i,
            line_no + 1 == split_on(chars@.take(i as int), '\n').len(),
            all == split_on(chars@, '\n'),
            forall|k: int|
                1 <= k < split_on(chars@.take(i as int), '\n').len() - 1 ==> host_of_line(
                    strip_cr(#[trigger] split_on(chars@.take(i as int), '\n')[k]),
                ) is None,
            cur@ == split_on(chars@.take(i as int), '\n').last(),
        decreases chars.len() - i,
    {
        let ghost parts = split_on(chars@.take(i as int), '\n');
        let c = chars[i];
        assert(chars@.take(i + 1).drop_last() =~= chars@.take(i as int));
        assert(chars@.take(i + 1).last() == c);
        if c == '\n' {
            let ghost np = split_on(chars@.take(i + 1), '\n');
            assert(np == parts.push(Seq::<char>::empty()));
            assert(np[parts.len() - 1] == cur@);
            assert forall|k: int| 1 <= k < parts.len() - 1 implies host_of_line(
                strip_cr(#[trigger] np[k]),
            ) is None by {
                assert(np[k] == parts[k]);
            }
            if line_no >= 1 {
                match line_host(&cur) {
                    Some(h) => {
                        proof {
                            lemma_found_in_prefix(chars@, i + 1, parts.len() - 1);
                        }
                        return Some(h);
                    },
                    None => {},
                }
            }
            cur = Vec::new();
            line_no = line_no + 1;
        } else {
            cur.push(c);
            proof {
                let np = split_on(chars@.take(i + 1), '\n');
                assert forall|k: int| 1 <= k < np.len() - 1 implies host_of_line(
                    strip_cr(#[trigger] np[k]),
                ) is None by {
                    assert(np[k] == parts[k]);
                }
            }
        }
        i = i + 1;
    }
    assert(chars@.take(chars.len() as int) =~= chars@);
    let found = if line_no >= 1 {
        line_host(&cur)
    } else {
        None
    };
    proof {
        let lines = all.drop_first();
        if all.len() >= 2 {
            assert(lines[lines.len() - 1] == cur@);
            assert forall|j: int| 0 <= j < lines.len() - 1 implies host_of_line(
                strip_cr(#[trigger] lines[j]),
            ) is None by {
                assert(lines[j] == all[j + 1]);
            }
            if found is Some {
                lemma_first_host_at(lines, lines.len() - 1);
            } else {
                lemma_first_host_none(lines);
            }
        } else {
            assert(lines.len() == 0);
        }
    }
    found
}

/// The host a request head asks for: the value of its first `Host` header,
/// lowercased, without a port. `None` where the head is incomplete, is not
/// UTF-8, or has no `Host` header.

pub fn parse_host(bytes: &[u8]) -> (r: Option<String>)
    ensures
        r is Some <==> request_host(bytes@) is Some,
        r matches Some(h) ==> request_host(bytes@) == Some(h@),
{
    let p = match find_blank_line(bytes) {
        Some(p) => p,
        None => {
            return None;
        },
    };
    let n = bytes.len();
    assert(p + 4 <= n);
    let head = &bytes[0..p + 4];
    assert(head@ =~= bytes@.take(p + 4));
    match host_in_head(head) {
        Some(h) => Some(string_of(&h)),
        None => None,
    }
}

/// The host named by a complete request head.
fn host_in_head(head: &[u8]) -> (r: Option<Vec<char>>)
    ensures
        r is Some <==> head_host(head@) is Some,
        r matches Some(h) ==> head_host(head@) == Some(h@),
{
    reveal(head_host);
    let text = match utf8_text(head) {
        Some(t) => t,
        None => {
            return None;
        },
    };
    let chars = chars_of(text);
    first_host_in(&chars)
}

// ---------------------------------------------------------------------------
// Error pages
// ---------------------------------------------------------------------------

pub open spec fn escape_char(c: char) -> Seq<char> {
    if c == '&' {
        "&amp;"@
    } else if c == '<' {
        "&lt;"@
    } else if c == '>' {
        "&gt;"@
    } else {
        seq![c]
    }
}

/// `&`, `<` and `>` replaced by their HTML entities.
pub open spec fn escape_html(s: Seq<char>) -> Seq<char>
    decreases s.len(),
{
    if s.len() == 0 {
        Seq::<char>::empty()
    } else {
        escape_html(s.drop_last()) + escape_char(s.last())
    }
}

/// The HTML body of an error page.
pub open spec fn error_body(code: u16, reason: Seq<char>, detail: Seq<char>) -> Seq<char> {
    "<!doctype html><meta charset=utf-8><title>SSHGate "@ + decimal(code as nat)
        + "</title><style>body{font:16px system-ui;max-width:680px;margin:12vh auto;padding:24px;background:#0d1217;color:#dce5e9}code{color:#70e1b2}</style><h1>SSHGate · "@
        + reason + "</h1><p><code>"@ + escape_html(detail) + "</code></p>"@
}

/// The complete HTTP response of an error page; `Content-Length` counts the
/// UTF-8 bytes of the body.
pub open spec fn error_response_text(code: u16, reason: Seq<char>, detail: Seq<char>) -> Seq<
    char,
> {
    "HTTP/1.1 "@ + decimal(code as nat) + " "@ + reason
        + "\r\nContent-Type: text/html; charset=utf-8\r\nContent-Length: "@ + decimal(
        utf8_len(error_body(code, reason, detail)),
    ) + "\r\nConnection: close\r\nCache-Control: no-store\r\n\r\n"@ + error_body(
        code,
        reason,
        detail,
    )
}

/// The number of UTF-8 bytes of a text, as `str::len` reports it.
pub open spec fn utf8_len(s: Seq<char>) -> nat {
    (encode_utf8(s).len() as usize) as nat
}

fn escape_detail(detail: &str) -> (r: Vec<char>)
    ensures
        r@ == escape_html(detail@),
{
    let d = chars_of(detail);
    let mut out: Vec<char> = Vec::new();
    let mut i: usize = 0;
    while i < d.len()
        invariant
            i <= d.len(),
            out@ == escape_html(d@.take(i as int)),
        decreases d.len() - i,
    {
        let c = d[i];
        assert(d@.take(i + 1).drop_last() =~= d@.take(i as int));
        if c == '&' {
            append_chars(&mut out, "&amp;");
        } else if c == '<' {
            append_chars(&mut out, "&lt;");
        } else if c == '>' {
            append_chars(&mut out, "&gt;");
        } else {
            out.push(c);
            assert(escape_char(c) =~= seq![c]);
        }
        i = i + 1;
    }
    assert(d@.take(d.len() as int) =~= d@);
    out
}

/// The HTTP response that tells the browser what went wrong.
pub fn error_response(code: u16, reason: &str, detail: &str) -> (r: String)
    ensures
        r@ == error_response_text(code, reason@, detail@),
{
    let code_text = decimal_chars(code as u64);
    let mut body = chars_of("<!doctype html><meta charset=utf-8><title>SSHGate ");
    append_vec(&mut body, &code_text);
    append_chars(
        &mut body,
        "</title><style>body{font:16px system-ui;max-width:680px;margin:12vh auto;padding:24px;background:#0d1217;color:#dce5e9}code{color:#70e1b2}</style><h1>SSHGate · ",
    );
    append_chars(&mut body, reason);
    append_chars(&mut body, "</h1><p><code>");
    let escaped = escape_detail(detail);
    append_vec(&mut body, &escaped);
    append_chars(&mut body, "</code></p>");
    assert(body@ =~= error_body(code, reason@, detail@));
    let body_text = string_of(&body);
    let body_len = body_text.as_str().len();
    assert(body_len as nat == utf8_len(error_body(code, reason@, detail@)));
    let length_text = decimal_chars(body_len as u64);
    assert(length_text@ == decimal(utf8_len(error_body(code, reason@, detail@))));
    let mut out = chars_of("HTTP/1.1 ");
    append_vec(&mut out, &code_text);
    append_chars(&mut out, " ");
    append_chars(&mut out, reason);
    append_chars(&mut out, "\r\nContent-Type: text/html; charset=utf-8\r\nContent-Length: ");
    append_vec(&mut out, &length_text);
    append_chars(&mut out, "\r\nConnection: close\r\nCache-Control: no-store\r\n\r\n");
    assert(out@ == "HTTP/1.1 "@ + decimal(code as nat) + " "@ + reason@
        + "\r\nContent-Type: text/html; charset=utf-8\r\nContent-Length: "@ + length_text@ + "\r\nConnection: close\r\nCache-Control: no-store\r\n\r\n"@);
    append_vec(&mut out, &body);
    assert(out@ == error_response_text(code, reason@, detail@));
    string_of(&out)
}

/// The detail of the 404 page for a host that no running service serves.
pub fn not_found_detail(host: &str) -> (r: String)
    ensures
        r@ == "No running SSHGate application matches "@ + host@,
{
    let mut v = chars_of("No running SSHGate application matches ");
    append_chars(&mut v, host);
    string_of(&v)
}

} // verus!
