//! Reading concrete host entries out of an OpenSSH client configuration.
use vstd::prelude::*;

use crate::ids::{is_uuid_v4_text, new_id};
use crate::model::{AuthType, SshServer};
use crate::text::{
    ascii_lower, chars_eq, chars_of, contains_char, is_ascii_digit, is_whitespace, is_ws,
    lower_chars, split_on, string_of, sub_chars, trim, trim_chars,
};

verus! {

/// What one `Host` block has said so far.
pub struct HostBlock {
    pub alias: Seq<char>,
    pub hostname: Option<Seq<char>>,
    pub port: Option<u16>,
    pub user: Option<Seq<char>>,
    pub identity: Option<Seq<char>>,
}

/// A server taken from the configuration.
pub struct HostSpec {
    pub name: Seq<char>,
    pub host: Seq<char>,
    pub port: u16,
    pub username: Seq<char>,
    pub key_path: Seq<char>,
}

pub open spec fn empty_block() -> HostBlock {
    HostBlock { alias: Seq::empty(), hostname: None, port: None, user: None, identity: None }
}

/// The number of whitespace-separated words (`split_whitespace().count()`).
pub open spec fn word_count(s: Seq<char>) -> nat
    decreases s.len(),
{
    if s.len() == 0 {
        0
    } else {
        word_count(s.drop_last()) + if !is_whitespace(s.last()) && (s.len() == 1 || is_whitespace(
            s[s.len() - 2],
        )) {
            1nat
        } else {
            0nat
        }
    }
}

/// A block names one concrete host: one word, without wildcards or negation.
pub open spec fn concrete_alias(alias: Seq<char>) -> bool {
    &&& alias.len() > 0
    &&& !alias.contains('*')
    &&& !alias.contains('?')
    &&& !alias.contains('!')
    &&& word_count(alias) == 1
}

pub open spec fn unwrap_or(o: Option<Seq<char>>, d: Seq<char>) -> Seq<char> {
    match o {
        Some(v) => v,
        None => d,
    }
}

/// The server a finished block stands for.
pub open spec fn block_host(b: HostBlock) -> HostSpec {
    HostSpec {
        name: b.alias,
        host: unwrap_or(b.hostname, b.alias),
        port: match b.port {
            Some(p) => p,
            None => 22,
        },
        username: unwrap_or(b.user, Seq::empty()),
        key_path: unwrap_or(b.identity, "~/.ssh/id_ed25519"@),
    }
}

/// Closing a block keeps its server if the alias is concrete and a user is known.
pub open spec fn finish_block(out: Seq<HostSpec>, b: HostBlock) -> Seq<HostSpec> {
    if concrete_alias(b.alias) && unwrap_or(b.user, Seq::empty()).len() > 0 {
        out.push(block_host(b))
    } else {
        out
    }
}

pub open spec fn strip_leading(s: Seq<char>, c: char) -> Seq<char>
    decreases s.len(),
{
    if s.len() > 0 && s[0] == c {
        strip_leading(s.drop_first(), c)
    } else {
        s
    }
}

pub open spec fn strip_trailing(s: Seq<char>, c: char) -> Seq<char>
    decreases s.len(),
{
    if s.len() > 0 && s.last() == c {
        strip_trailing(s.drop_last(), c)
    } else {
        s
    }
}

/// `trim_matches('"')`.
pub open spec fn trim_quotes(s: Seq<char>) -> Seq<char> {
    strip_trailing(strip_leading(s, '"'), '"')
}

pub open spec fn is_key_sep(c: char) -> bool {
    is_whitespace(c) || c == '='
}

pub open spec fn has_key_sep(t: Seq<char>) -> bool {
    exists|k: int| 0 <= k < t.len() && is_key_sep(#[trigger] t[k])
}

pub open spec fn key_sep(t: Seq<char>) -> int {
    choose|k: int|
        0 <= k < t.len() && is_key_sep(#[trigger] t[k]) && forall|j: int|
            0 <= j < k ==> !is_key_sep(#[trigger] t[j])
}

/// The keyword of a trimmed line: up to the first whitespace or `=`, lowercased.
pub open spec fn line_key(t: Seq<char>) -> Seq<char> {
    if has_key_sep(t) {
        ascii_lower(trim(t.take(key_sep(t))))
    } else {
        ascii_lower(trim(t))
    }
}

/// The value of a trimmed line: after the first separator, trimmed, without quotes.
pub open spec fn line_value(t: Seq<char>) -> Seq<char> {
    if has_key_sep(t) {
        trim_quotes(trim(t.skip(key_sep(t) + 1)))
    } else {
        Seq::empty()
    }
}

pub open spec fn digits_value(d: Seq<char>) -> nat
    decreases d.len(),
{
    if d.len() == 0 {
        0
    } else {
        digits_value(d.drop_last()) * 10 + ((d.last() as u32) - ('0' as u32)) as nat
    }
}

/// The digits of a `u16` literal: without its optional leading `+`.
pub open spec fn u16_digits(s: Seq<char>) -> Seq<char> {
    if s.len() > 0 && s[0] == '+' {
        s.drop_first()
    } else {
        s
    }
}

pub open spec fn all_digits(d: Seq<char>) -> bool {
    forall|i: int| 0 <= i < d.len() ==> is_ascii_digit(#[trigger] d[i])
}

/// `str::parse::<u16>`: an optional `+` and at least one digit, within range.
pub open spec fn parse_u16(s: Seq<char>) -> Option<u16> {
    if u16_digits(s).len() > 0 && all_digits(u16_digits(s)) && digits_value(u16_digits(s))
        <= 65535 {
        Some(digits_value(u16_digits(s)) as u16)
    } else {
        None
    }
}

/// What one line does to the servers found and the open block.
pub open spec fn apply_line(st: (Seq<HostSpec>, HostBlock), line: Seq<char>) -> (
    Seq<HostSpec>,
    HostBlock,
) {
    let t = trim(line);
    if t.len() == 0 || t[0] == '#' {
        st
    } else {
        let key = line_key(t);
        let value = line_value(t);
        let b = st.1;
        if key == "host"@ {
            (finish_block(st.0, b), HostBlock { alias: value, ..empty_block() })
        } else if key == "hostname"@ {
            (st.0, HostBlock { hostname: Some(value), ..b })
        } else if key == "port"@ {
            (st.0, HostBlock { port: parse_u16(value), ..b })
        } else if key == "user"@ {
            (st.0, HostBlock { user: Some(value), ..b })
        } else if key == "identityfile"@ {
            (st.0, HostBlock { identity: Some(value), ..b })
        } else {
            st
        }
    }
}

pub open spec fn config_state(lines: Seq<Seq<char>>) -> (Seq<HostSpec>, HostBlock)
    decreases lines.len(),
{
    if lines.len() == 0 {
        (Seq::empty(), empty_block())
    } else {
        apply_line(config_state(lines.drop_last()), lines.last())
    }
}

/// `parse_ssh_config`: the concrete hosts of a configuration, in order.
pub open spec fn config_hosts(raw: Seq<char>) -> Seq<HostSpec> {
    let st = config_state(split_on(raw, '\n'));
    finish_block(st.0, st.1)
}

/// A server read from the configuration, with a fresh identifier.
pub open spec fn server_from_host(s: SshServer, h: HostSpec) -> bool {
    &&& is_uuid_v4_text(s.id@)
    &&& s.name@ == h.name
    &&& s.host@ == h.host
    &&& s.port == h.port
    &&& s.username@ == h.username
    &&& s.auth_type == AuthType::Key
    &&& s.private_key_path@ == h.key_path
    &&& !s.remember_secret
    &&& s.host_key_fingerprint is None
}

pub open spec fn servers_from_hosts(out: Seq<SshServer>, hs: Seq<HostSpec>) -> bool {
    out.len() == hs.len() && forall|i: int|
        0 <= i < out.len() ==> server_from_host(#[trigger] out[i], hs[i])
}

// ---------------------------------------------------------------------------
// Executable
// ---------------------------------------------------------------------------

struct Block {
    alias: Vec<char>,
    hostname: Option<Vec<char>>,
    port: Option<u16>,
    user: Option<Vec<char>>,
    identity: Option<Vec<char>>,
}

spec fn opt_view(o: Option<Vec<char>>) -> Option<Seq<char>> {
    match o {
        Some(v) => Some(v@),
        None => None,
    }
}

spec fn block_view(b: Block) -> HostBlock {
    HostBlock {
        alias: b.alias@,
        hostname: opt_view(b.hostname),
        port: b.port,
        user: opt_view(b.user),
        identity: opt_view(b.identity),
    }
}

fn new_block(alias: Vec<char>) -> (b: Block)
    ensures
        block_view(b) == (HostBlock { alias: alias@, ..empty_block() }),
{
    Block { alias, hostname: None, port: None, user: None, identity: None }
}

fn word_count_of(s: &Vec<char>) -> (n: usize)
    ensures
        n == word_count(s@),
{
    let mut n: usize = 0;
    let mut i: usize = 0;
    while i < s.len()
        invariant
            i <= s.len(),
            n <= i,
            n == word_count(s@.take(i as int)),
        decreases s.len() - i,
    {
        assert(s@.take(i + 1).drop_last() =~= s@.take(i as int));
        if !is_ws(s[i]) && (i == 0 || is_ws(s[i - 1])) {
            n = n + 1;
        }
        i = i + 1;
    }
    assert(s@.take(s.len() as int) =~= s@);
    n
}

fn is_concrete(alias: &Vec<char>) -> (r: bool)
    ensures
        r == concrete_alias(alias@),
{
    alias.len() > 0 && !contains_char(alias, '*') && !contains_char(alias, '?') && !contains_char(
        alias,
        '!',
    ) && word_count_of(alias) == 1
}

fn or_chars(o: &Option<Vec<char>>, d: &Vec<char>) -> (r: Vec<char>)
    ensures
        r@ == unwrap_or(opt_view(*o), d@),
{
    match o {
        Some(v) => sub_chars(v, 0, v.len()),
        None => sub_chars(d, 0, d.len()),
    }
}

fn finish(b: &Block, out: &mut Vec<SshServer>, Ghost(hs): Ghost<Seq<HostSpec>>) -> (r: Ghost<
    Seq<HostSpec>,
>)
    requires
        servers_from_hosts(old(out)@, hs),
    ensures
        r@ == finish_block(hs, block_view(*b)),
        servers_from_hosts(final(out)@, r@),
{
    let empty: Vec<char> = Vec::new();
    let user = or_chars(&b.user, &empty);
    if !is_concrete(&b.alias) || user.len() == 0 {
        return Ghost(hs);
    }
    let host = or_chars(&b.hostname, &b.alias);
    let default_key = chars_of("~/.ssh/id_ed25519");
    let key = or_chars(&b.identity, &default_key);
    let server = SshServer {
        id: new_id(),
        name: string_of(&b.alias),
        host: string_of(&host),
        port: match b.port {
            Some(p) => p,
            None => 22,
        },
        username: string_of(&user),
        auth_type: AuthType::Key,
        private_key_path: string_of(&key),
        remember_secret: false,
        host_key_fingerprint: None,
    };
    let ghost h = block_host(block_view(*b));
    out.push(server);
    proof {
        let o = out@;
        assert forall|i: int| 0 <= i < o.len() implies server_from_host(#[trigger] o[i], hs.push(h)[i]) by {
            if i < hs.len() {
                assert(o[i] == old(out)@[i]);
            }
        }
    }
    Ghost(hs.push(h))
}

fn strip_quotes(v: &Vec<char>) -> (r: Vec<char>)
    ensures
        r@ == trim_quotes(v@),
{
    let mut start: usize = 0;
    assert(v@.skip(0) =~= v@);
    while start < v.len() && v[start] == '"'
        invariant
            start <= v.len(),
            strip_leading(v@, '"') == strip_leading(v@.skip(start as int), '"'),
        decreases v.len() - start,
    {
        assert(v@.skip(start as int).drop_first() =~= v@.skip(start + 1));
        start = start + 1;
    }
    let mut end: usize = v.len();
    assert(v@.skip(start as int).take((end - start) as int) =~= v@.skip(start as int));
    while end > start && v[end - 1] == '"'
        invariant
            start <= end <= v.len(),
            strip_trailing(v@.skip(start as int), '"') == strip_trailing(
                v@.skip(start as int).take((end - start) as int),
                '"',
            ),
        decreases end,
    {
        assert(v@.skip(start as int).take((end - start) as int).drop_last() =~= v@.skip(
            start as int,
        ).take((end - 1 - start) as int));
        end = end - 1;
    }
    assert(v@.skip(0) =~= v@);
    let r = sub_chars(v, start, end);
    assert(r@ =~= v@.skip(start as int).take((end - start) as int));
    r
}

fn parse_port(v: &Vec<char>) -> (r: Option<u16>)
    ensures
        r == parse_u16(v@),
{
    let start: usize = if v.len() > 0 && v[0] == '+' {
        1
    } else {
        0
    };
    let ghost d = v@.skip(start as int);
    assert(d =~= u16_digits(v@));
    if start == v.len() {
        return None;
    }
    let mut value: u32 = 0;
    let mut i: usize = start;
    while i < v.len()
        invariant
            start <= i <= v.len(),
            d == v@.skip(start as int),
            d == u16_digits(v@),
            forall|j: int| 0 <= j < i - start ==> is_ascii_digit(#[trigger] d[j]),
            value as nat == digits_value(d.take(i - start)),
            value <= 65535,
        decreases v.len() - i,
    {
        let c = v[i];
        assert(d[i - start] == c);
        if !('0' <= c && c <= '9') {
            assert(!all_digits(d)) by {
                assert(!is_ascii_digit(d[i - start]));
            }
            return None;
        }
        assert(d.take(i + 1 - start).drop_last() =~= d.take(i - start));
        assert(d.take(i + 1 - start).last() == c);
        let digit = (c as u32) - ('0' as u32);
        let next = value * 10 + digit;
        if next > 65535 {
            proof {
                assert(digits_value(d.take(i + 1 - start)) == value * 10 + digit);
                if all_digits(d) {
                    lemma_digits_value_grows(d, i + 1 - start);
                }
            }
            return None;
        }
        value = next;
        i = i + 1;
    }
    assert(d.take(v.len() - start) =~= d);
    Some(value as u16)
}

proof fn lemma_digits_value_grows(d: Seq<char>, n: int)
    requires
        0 <= n <= d.len(),
        forall|j: int| 0 <= j < d.len() ==> is_ascii_digit(#[trigger] d[j]),
    ensures
        digits_value(d.take(n)) <= digits_value(d),
    decreases d.len() - n,
{
    if n < d.len() {
        lemma_digits_value_grows(d, n + 1);
        assert(d.take(n + 1).drop_last() =~= d.take(n));
    } else {
        assert(d.take(n) =~= d);
    }
}

/// What a line does: returns the servers found so far.
fn process_line(
    line: &Vec<char>,
    block: &mut Block,
    out: &mut Vec<SshServer>,
    Ghost(hs): Ghost<Seq<HostSpec>>,
) -> (r: Ghost<Seq<HostSpec>>)
    requires
        servers_from_hosts(old(out)@, hs),
    ensures
        (r@, block_view(*final(block))) == apply_line((hs, block_view(*old(block))), line@),
        servers_from_hosts(final(out)@, r@),
{
    let t = trim_chars(line);
    if t.len() == 0 || t[0] == '#' {
        return Ghost(hs);
    }
    let mut k: usize = 0;
    while k < t.len() && !(is_ws(t[k]) || t[k] == '=')
        invariant
            k <= t.len(),
            forall|j: int| 0 <= j < k ==> !is_key_sep(#[trigger] t@[j]),
        decreases t.len() - k,
    {
        k = k + 1;
    }
    let (key_raw, rest) = if k < t.len() {
        proof {
            let c = key_sep(t@);
            assert(0 <= k < t@.len() && is_key_sep(t@[k as int]) && forall|j: int|
                0 <= j < k ==> !is_key_sep(#[trigger] t@[j]));
            if c < k {
            } else if c > k {
            }
            assert(c == k);
        }
        (sub_chars(&t, 0, k), sub_chars(&t, k + 1, t.len()))
    } else {
        assert(!has_key_sep(t@));
        (sub_chars(&t, 0, t.len()), Vec::new())
    };
    let key_t = trim_chars(&key_raw);
    let key = lower_chars(&key_t);
    let value_t = trim_chars(&rest);
    let value = strip_quotes(&value_t);
    proof {
        assert(t@.take(t@.len() as int) =~= t@);
        if k < t.len() {
            assert(rest@ =~= t@.skip(k + 1));
        }
        assert(key@ == line_key(t@));
        assert(value@ == line_value(t@));
    }
    let host_word = chars_of("host");
    let hostname_word = chars_of("hostname");
    let port_word = chars_of("port");
    let user_word = chars_of("user");
    let identity_word = chars_of("identityfile");
    if chars_eq(&key, &host_word) {
        let r = finish(block, out, Ghost(hs));
        *block = new_block(value);
        r
    } else if chars_eq(&key, &hostname_word) {
        block.hostname = Some(value);
        Ghost(hs)
    } else if chars_eq(&key, &port_word) {
        block.port = parse_port(&value);
        Ghost(hs)
    } else if chars_eq(&key, &user_word) {
        block.user = Some(value);
        Ghost(hs)
    } else if chars_eq(&key, &identity_word) {
        block.identity = Some(value);
        Ghost(hs)
    } else {
        Ghost(hs)
    }
}

/// The concrete hosts of an OpenSSH client configuration: one server per
/// `Host` block whose alias is a single word without `*`, `?` or `!` and that
/// names a `User`; `HostName`, `Port` and `IdentityFile` fill in the rest, with
/// the alias, port 22 and `~/.ssh/id_ed25519` where they are missing. Each
/// server gets a fresh identifier and key authentication.
pub fn parse_ssh_config(raw: &str) -> (r: Vec<SshServer>)
    ensures
        servers_from_hosts(r@, config_hosts(raw@)),
{
    let chars = chars_of(raw);
    let mut out: Vec<SshServer> = Vec::new();
    let mut block = new_block(Vec::new());
    let mut cur: Vec<char> = Vec::new();
    let ghost mut hs: Seq<HostSpec> = Seq::empty();
    let mut i: usize = 0;
    assert(chars@.take(0) =~= Seq::<char>::empty());
    while i < chars.len()
        invariant
            i <= chars.len(),
            chars@ == raw@,
            split_on(chars@.take(i as int), '\n').len() >= 1,
            (hs, block_view(block)) == config_state(
                split_on(chars@.take(i as int), '\n').drop_last(),
            ),
            servers_from_hosts(out@, hs),
            cur@ == split_on(chars@.take(i as int), '\n').last(),
        decreases chars.len() - i,
    {
        let ghost parts = split_on(chars@.take(i as int), '\n');
        let c = chars[i];
        assert(chars@.take(i + 1).drop_last() =~= chars@.take(i as int));
        assert(chars@.take(i + 1).last() == c);
        if c == '\n' {
            let g = process_line(&cur, &mut block, &mut out, Ghost(hs));
            proof {
                hs = g@;
                let np = split_on(chars@.take(i + 1), '\n');
                assert(np == parts.push(Seq::<char>::empty()));
                assert(np.drop_last() =~= parts);
                assert(parts =~= parts.drop_last().push(parts.last()));
            }
            cur = Vec::new();
        } else {
            cur.push(c);
            proof {
                let np = split_on(chars@.take(i + 1), '\n');
                assert(np.drop_last() =~= parts.drop_last());
            }
        }
        i = i + 1;
    }
    assert(chars@.take(chars.len() as int) =~= chars@);
    let ghost parts = split_on(chars@, '\n');
    let g = process_line(&cur, &mut block, &mut out, Ghost(hs));
    proof {
        hs = g@;
        assert(parts =~= parts.drop_last().push(parts.last()));
    }
    let g2 = finish(&block, &mut out, Ghost(hs));
    out
}

} // verus!
