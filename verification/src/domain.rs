//! `.localhost` domain names: normalising what the user typed, deriving a
//! default from service and server names, and the shape a valid domain has.
use vstd::prelude::*;

use crate::text::{
    append_chars, append_vec, ascii_lower, chars_of, has_prefix, has_suffix, is_alnum,
    is_ascii_alnum, is_ascii_digit, is_ascii_lower_letter, is_ascii_upper, lemma_ascii_lower_char_props,
    lemma_split_on_concat, lemma_split_on_no_sep, lower_chars, split_on, starts_with, ends_with,
    string_of, sub_chars, trim, trim_chars, trimmed, is_whitespace,
};

verus! {

broadcast use vstd::string::group_string_axioms;

// ---------------------------------------------------------------------------
// Labels
// ---------------------------------------------------------------------------

/// One step of label normalisation: letters and digits are kept, any run of
/// other characters becomes a single `-`, and none is written at the start.
pub open spec fn label_step(st: (Seq<char>, bool), c: char) -> (Seq<char>, bool) {
    if is_ascii_alnum(c) {
        (st.0.push(c), false)
    } else if !st.1 && st.0.len() > 0 {
        (st.0.push('-'), true)
    } else {
        st
    }
}

pub open spec fn label_scan(s: Seq<char>) -> (Seq<char>, bool)
    decreases s.len(),
{
    if s.len() == 0 {
        (Seq::<char>::empty(), false)
    } else {
        label_step(label_scan(s.drop_last()), s.last())
    }
}

pub open spec fn strip_trailing_dashes(s: Seq<char>) -> Seq<char>
    decreases s.len(),
{
    if s.len() > 0 && s.last() == '-' {
        strip_trailing_dashes(s.drop_last())
    } else {
        s
    }
}

/// The label made of `value`: trimmed, lowercased, runs of other characters
/// turned into `-`, with no `-` at either end. It may be empty.
pub open spec fn label_of(value: Seq<char>) -> Seq<char> {
    strip_trailing_dashes(label_scan(ascii_lower(trim(value))).0)
}

/// `normalize_domain_label`: the label of `value`, or `fallback` where that is empty.
pub open spec fn normalized_label(value: Seq<char>, fallback: Seq<char>) -> Seq<char> {
    if label_of(value).len() == 0 {
        fallback
    } else {
        label_of(value)
    }
}

/// A character that a normalised label may hold.
pub open spec fn is_label_char(c: char) -> bool {
    is_ascii_digit(c) || is_ascii_lower_letter(c) || c == '-'
}

/// The shape of a normalised label: lowercase letters, digits and single
/// dashes, starting and ending with a letter or digit.
pub open spec fn is_clean_label(l: Seq<char>) -> bool {
    &&& l.len() > 0
    &&& forall|i: int| 0 <= i < l.len() ==> is_label_char(#[trigger] l[i])
    &&& l[0] != '-'
    &&& l.last() != '-'
    &&& forall|i: int| 0 <= i < l.len() - 1 ==> !(#[trigger] l[i] == '-' && l[i + 1] == '-')
}

// ---------------------------------------------------------------------------
// Domains
// ---------------------------------------------------------------------------

pub open spec fn strip_scheme(s: Seq<char>) -> Seq<char> {
    if has_prefix(s, "http://"@) {
        s.skip("http://"@.len() as int)
    } else if has_prefix(s, "https://"@) {
        s.skip("https://"@.len() as int)
    } else {
        s
    }
}

/// `trim_end_matches(|ch| ch == '/' || ch == '.')`.
pub open spec fn trim_end_slash_dot(s: Seq<char>) -> Seq<char>
    decreases s.len(),
{
    if s.len() > 0 && (s.last() == '/' || s.last() == '.') {
        trim_end_slash_dot(s.drop_last())
    } else {
        s
    }
}

pub open spec fn strip_localhost(s: Seq<char>) -> Seq<char> {
    if has_suffix(s, ".localhost"@) {
        s.take(s.len() - ".localhost"@.len())
    } else {
        s
    }
}

/// The non-empty labels of `parts`, each normalised, joined with `.`.
pub open spec fn join_labels(parts: Seq<Seq<char>>) -> Seq<char>
    decreases parts.len(),
{
    if parts.len() == 0 {
        Seq::<char>::empty()
    } else {
        let j = join_labels(parts.drop_last());
        let l = label_of(parts.last());
        if l.len() == 0 {
            j
        } else if j.len() == 0 {
            l
        } else {
            j + seq!['.'] + l
        }
    }
}

/// The labels part of `normalize_domain(d)`, before `.localhost`.
pub open spec fn domain_prefix(d: Seq<char>) -> Seq<char> {
    join_labels(
        split_on(strip_localhost(trim_end_slash_dot(strip_scheme(ascii_lower(trim(d))))), '.'),
    )
}

/// `normalize_domain(d)`.
pub open spec fn normalized_domain(d: Seq<char>) -> Seq<char> {
    domain_prefix(d) + ".localhost"@
}

/// `default_service_domain(service, server)`.
pub open spec fn default_domain(service: Seq<char>, server: Seq<char>) -> Seq<char> {
    normalized_label(service, "service"@) + seq!['.'] + normalized_label(server, "server"@)
        + ".localhost"@
}

/// A label that a service domain may hold: not empty, letters, digits and
/// dashes only, and no dash at either end.
pub open spec fn label_ok(l: Seq<char>) -> bool {
    &&& l.len() > 0
    &&& l[0] != '-'
    &&& l.last() != '-'
    &&& forall|i: int| 0 <= i < l.len() ==> (is_ascii_alnum(#[trigger] l[i]) || l[i] == '-')
}

/// The outer shape of a service domain: ends in `.localhost` and holds no
/// `:`, `/` or space.
pub open spec fn domain_shape_ok(d: Seq<char>) -> bool {
    &&& has_suffix(d, ".localhost"@)
    &&& !d.contains(':')
    &&& !d.contains('/')
    &&& !d.contains(' ')
}

/// Every `.`-separated label of `d` is valid.
pub open spec fn domain_labels_ok(d: Seq<char>) -> bool {
    forall|i: int| 0 <= i < split_on(d, '.').len() ==> label_ok(#[trigger] split_on(d, '.')[i])
}

/// A domain that service validation accepts.
pub open spec fn domain_ok(d: Seq<char>) -> bool {
    domain_shape_ok(d) && domain_labels_ok(d)
}

// ---------------------------------------------------------------------------
// Lemmas
// ---------------------------------------------------------------------------

pub open spec fn no_upper(s: Seq<char>) -> bool {
    forall|i: int| 0 <= i < s.len() ==> !is_ascii_upper(#[trigger] s[i])
}

pub open spec fn scan_shape(r: Seq<char>, last_sep: bool) -> bool {
    &&& forall|i: int| 0 <= i < r.len() ==> is_label_char(#[trigger] r[i])
    &&& r.len() > 0 ==> r[0] != '-'
    &&& forall|i: int| 0 <= i < r.len() - 1 ==> !(#[trigger] r[i] == '-' && r[i + 1] == '-')
    &&& last_sep <==> (r.len() > 0 && r.last() == '-')
}

proof fn lemma_scan_shape(s: Seq<char>)
    requires
        no_upper(s),
    ensures
        scan_shape(label_scan(s).0, label_scan(s).1),
    decreases s.len(),
{
    if s.len() > 0 {
        assert(no_upper(s.drop_last()));
        lemma_scan_shape(s.drop_last());
        let st = label_scan(s.drop_last());
        let c = s.last();
        assert(!is_ascii_upper(s[s.len() - 1]));
        let r2 = label_step(st, c).0;
        if is_ascii_alnum(c) {
            assert forall|i: int| 0 <= i < r2.len() - 1 implies !(#[trigger] r2[i] == '-' && r2[i
                + 1] == '-') by {
                if i < st.0.len() - 1 {
                    assert(r2[i] == st.0[i] && r2[i + 1] == st.0[i + 1]);
                }
            }
        } else if !st.1 && st.0.len() > 0 {
            assert forall|i: int| 0 <= i < r2.len() - 1 implies !(#[trigger] r2[i] == '-' && r2[i
                + 1] == '-') by {
                if i < st.0.len() - 1 {
                    assert(r2[i] == st.0[i] && r2[i + 1] == st.0[i + 1]);
                }
            }
        }
    }
}

proof fn lemma_strip_shape(r: Seq<char>, last_sep: bool)
    requires
        scan_shape(r, last_sep),
    ensures
        strip_trailing_dashes(r).len() > 0 ==> is_clean_label(strip_trailing_dashes(r)),
        strip_trailing_dashes(r).len() <= r.len(),
    decreases r.len(),
{
    if r.len() > 0 && r.last() == '-' {
        let d = r.drop_last();
        let d_last_sep = d.len() > 0 && d.last() == '-';
        assert(scan_shape(d, d_last_sep)) by {
            assert forall|i: int| 0 <= i < d.len() - 1 implies !(#[trigger] d[i] == '-' && d[i + 1]
                == '-') by {
                assert(d[i] == r[i] && d[i + 1] == r[i + 1]);
            }
        }
        lemma_strip_shape(d, d_last_sep);
    }
}

/// A normalised label is a clean label whenever it is not empty.
pub proof fn lemma_label_of_clean(value: Seq<char>)
    ensures
        label_of(value).len() > 0 ==> is_clean_label(label_of(value)),
{
    let s = ascii_lower(trim(value));
    assert forall|i: int| 0 <= i < s.len() implies !is_ascii_upper(#[trigger] s[i]) by {
        lemma_ascii_lower_char_props(trim(value)[i]);
    }
    lemma_scan_shape(s);
    lemma_strip_shape(label_scan(s).0, label_scan(s).1);
}

pub proof fn lemma_clean_label_ok(l: Seq<char>)
    requires
        is_clean_label(l),
    ensures
        label_ok(l),
        !l.contains('.'),
        !l.contains(':'),
        !l.contains('/'),
        !l.contains(' '),
{
    assert forall|i: int| 0 <= i < l.len() implies (is_ascii_alnum(#[trigger] l[i]) || l[i] == '-')
        by {
        assert(is_label_char(l[i]));
    }
    assert(!l.contains('.')) by {
        if l.contains('.') {
            let i = choose|i: int| 0 <= i < l.len() && l[i] == '.';
            assert(is_label_char(l[i]));
        }
    }
    assert(!l.contains(':')) by {
        if l.contains(':') {
            let i = choose|i: int| 0 <= i < l.len() && l[i] == ':';
            assert(is_label_char(l[i]));
        }
    }
    assert(!l.contains('/')) by {
        if l.contains('/') {
            let i = choose|i: int| 0 <= i < l.len() && l[i] == '/';
            assert(is_label_char(l[i]));
        }
    }
    assert(!l.contains(' ')) by {
        if l.contains(' ') {
            let i = choose|i: int| 0 <= i < l.len() && l[i] == ' ';
            assert(is_label_char(l[i]));
        }
    }
}

/// `normalized_label` is a clean label when its fallback is one.
pub proof fn lemma_normalized_label_clean(value: Seq<char>, fallback: Seq<char>)
    requires
        is_clean_label(fallback),
    ensures
        is_clean_label(normalized_label(value, fallback)),
{
    lemma_label_of_clean(value);
}

/// What splitting a joined list of labels gives back.
pub open spec fn joined_shape(j: Seq<char>) -> bool {
    &&& forall|i: int| 0 <= i < split_on(j, '.').len() ==> is_clean_label(#[trigger] split_on(j, '.')[i])
    &&& !j.contains(':')
    &&& !j.contains('/')
    &&& !j.contains(' ')
}

proof fn lemma_join_labels_shape(parts: Seq<Seq<char>>)
    ensures
        join_labels(parts).len() > 0 ==> joined_shape(join_labels(parts)),
    decreases parts.len(),
{
    if parts.len() > 0 {
        lemma_join_labels_shape(parts.drop_last());
        let j = join_labels(parts.drop_last());
        let l = label_of(parts.last());
        lemma_label_of_clean(parts.last());
        if l.len() > 0 {
            lemma_clean_label_ok(l);
            lemma_split_on_no_sep(l, '.');
            if j.len() == 0 {
                assert(split_on(l, '.') =~= seq![l]);
            } else {
                lemma_split_on_concat(j, l, '.');
                let r = j + seq!['.'] + l;
                assert(split_on(r, '.') == split_on(j, '.') + seq![l]);
                assert forall|i: int| 0 <= i < split_on(r, '.').len() implies is_clean_label(
                    #[trigger] split_on(r, '.')[i],
                ) by {
                    if i < split_on(j, '.').len() {
                        assert(split_on(r, '.')[i] == split_on(j, '.')[i]);
                    }
                }
                assert(!r.contains(':')) by {
                    if r.contains(':') {
                        let i = choose|i: int| 0 <= i < r.len() && r[i] == ':';
                        if i < j.len() {
                            assert(j[i] == ':');
                        } else if i > j.len() {
                            assert(l[i - j.len() - 1] == ':');
                        }
                    }
                }
                assert(!r.contains('/')) by {
                    if r.contains('/') {
                        let i = choose|i: int| 0 <= i < r.len() && r[i] == '/';
                        if i < j.len() {
                            assert(j[i] == '/');
                        } else if i > j.len() {
                            assert(l[i - j.len() - 1] == '/');
                        }
                    }
                }
                assert(!r.contains(' ')) by {
                    if r.contains(' ') {
                        let i = choose|i: int| 0 <= i < r.len() && r[i] == ' ';
                        if i < j.len() {
                            assert(j[i] == ' ');
                        } else if i > j.len() {
                            assert(l[i - j.len() - 1] == ' ');
                        }
                    }
                }
            }
        }
    }
}

proof fn lemma_localhost_facts()
    ensures
        ".localhost"@ == seq!['.'] + "localhost"@,
        is_clean_label("localhost"@),
        !"localhost"@.contains('.'),
        !".localhost"@.contains(':'),
        !".localhost"@.contains('/'),
        !".localhost"@.contains(' '),
{
    reveal_strlit(".localhost");
    reveal_strlit("localhost");
    assert(".localhost"@ =~= seq!['.'] + "localhost"@);
    let l = "localhost"@;
    assert(is_clean_label(l));
    lemma_clean_label_ok(l);
    let d = ".localhost"@;
    assert(!d.contains(':')) by {
        if d.contains(':') {
            let i = choose|i: int| 0 <= i < d.len() && d[i] == ':';
        }
    }
    assert(!d.contains('/')) by {
        if d.contains('/') {
            let i = choose|i: int| 0 <= i < d.len() && d[i] == '/';
        }
    }
    assert(!d.contains(' ')) by {
        if d.contains(' ') {
            let i = choose|i: int| 0 <= i < d.len() && d[i] == ' ';
        }
    }
}

/// A text of joined clean labels followed by `.localhost` is a valid domain.
proof fn lemma_joined_localhost_ok(j: Seq<char>)
    requires
        j.len() > 0,
        joined_shape(j),
    ensures
        domain_ok(j + ".localhost"@),
{
    lemma_localhost_facts();
    let l = "localhost"@;
    let d = j + ".localhost"@;
    assert(d =~= j + seq!['.'] + l);
    lemma_split_on_concat(j, l, '.');
    lemma_split_on_no_sep(l, '.');
    assert(split_on(d, '.') == split_on(j, '.') + seq![l]);
    assert forall|i: int| 0 <= i < split_on(d, '.').len() implies label_ok(
        #[trigger] split_on(d, '.')[i],
    ) by {
        if i < split_on(j, '.').len() {
            assert(split_on(d, '.')[i] == split_on(j, '.')[i]);
            lemma_clean_label_ok(split_on(j, '.')[i]);
        } else {
            lemma_clean_label_ok(l);
        }
    }
    assert(d.skip(d.len() - ".localhost"@.len()) =~= ".localhost"@);
    assert(!d.contains(':')) by {
        if d.contains(':') {
            let i = choose|i: int| 0 <= i < d.len() && d[i] == ':';
            if i < j.len() {
                assert(j[i] == ':');
            } else {
                assert(".localhost"@[i - j.len()] == ':');
            }
        }
    }
    assert(!d.contains('/')) by {
        if d.contains('/') {
            let i = choose|i: int| 0 <= i < d.len() && d[i] == '/';
            if i < j.len() {
                assert(j[i] == '/');
            } else {
                assert(".localhost"@[i - j.len()] == '/');
            }
        }
    }
    assert(!d.contains(' ')) by {
        if d.contains(' ') {
            let i = choose|i: int| 0 <= i < d.len() && d[i] == ' ';
            if i < j.len() {
                assert(j[i] == ' ');
            } else {
                assert(".localhost"@[i - j.len()] == ' ');
            }
        }
    }
}

/// The domain derived from a service and a server name is always one that
/// service validation accepts.
pub proof fn lemma_default_domain_ok(service: Seq<char>, server: Seq<char>)
    ensures
        domain_ok(default_domain(service, server)),
{
    reveal_strlit("service");
    reveal_strlit("server");
    assert(is_clean_label("service"@));
    assert(is_clean_label("server"@));
    let a = normalized_label(service, "service"@);
    let b = normalized_label(server, "server"@);
    lemma_normalized_label_clean(service, "service"@);
    lemma_normalized_label_clean(server, "server"@);
    lemma_clean_label_ok(a);
    lemma_clean_label_ok(b);
    let j = a + seq!['.'] + b;
    lemma_split_on_concat(a, b, '.');
    lemma_split_on_no_sep(a, '.');
    lemma_split_on_no_sep(b, '.');
    assert(split_on(j, '.') =~= seq![a, b]);
    assert(joined_shape(j)) by {
        assert(!j.contains(':')) by {
            if j.contains(':') {
                let i = choose|i: int| 0 <= i < j.len() && j[i] == ':';
                if i < a.len() {
                    assert(a[i] == ':');
                } else if i > a.len() {
                    assert(b[i - a.len() - 1] == ':');
                }
            }
        }
        assert(!j.contains('/')) by {
            if j.contains('/') {
                let i = choose|i: int| 0 <= i < j.len() && j[i] == '/';
                if i < a.len() {
                    assert(a[i] == '/');
                } else if i > a.len() {
                    assert(b[i - a.len() - 1] == '/');
                }
            }
        }
        assert(!j.contains(' ')) by {
            if j.contains(' ') {
                let i = choose|i: int| 0 <= i < j.len() && j[i] == ' ';
                if i < a.len() {
                    assert(a[i] == ' ');
                } else if i > a.len() {
                    assert(b[i - a.len() - 1] == ' ');
                }
            }
        }
    }
    lemma_joined_localhost_ok(j);
    assert(default_domain(service, server) =~= j + ".localhost"@);
}

/// A normalised domain is valid exactly when at least one label survived
/// normalisation; otherwise it is the bare `.localhost`.
pub proof fn lemma_normalized_domain_ok(d: Seq<char>)
    ensures
        domain_prefix(d).len() > 0 ==> domain_ok(normalized_domain(d)),
        domain_prefix(d).len() == 0 ==> normalized_domain(d) == ".localhost"@,
{
    let parts = split_on(
        strip_localhost(trim_end_slash_dot(strip_scheme(ascii_lower(trim(d))))),
        '.',
    );
    lemma_join_labels_shape(parts);
    if domain_prefix(d).len() > 0 {
        lemma_joined_localhost_ok(domain_prefix(d));
    } else {
        assert(normalized_domain(d) =~= ".localhost"@);
    }
}

/// A character that a normalised domain prefix may hold.
pub open spec fn is_prefix_char(c: char) -> bool {
    is_label_char(c) || c == '.'
}

/// A text whose first and last characters are not whitespace is its own trim.
proof fn lemma_trim_unchanged(s: Seq<char>)
    requires
        s.len() > 0 ==> !is_whitespace(s[0]) && !is_whitespace(s.last()),
    ensures
        trim(s) == s,
{
}

/// A text without ASCII capitals is its own lowercase form.
proof fn lemma_ascii_lower_unchanged(s: Seq<char>)
    requires
        no_upper(s),
    ensures
        ascii_lower(s) == s,
{
    assert(ascii_lower(s) =~= s);
}

/// Scanning a text that is already shaped like a label gives it back.
proof fn lemma_scan_unchanged(l: Seq<char>)
    requires
        forall|i: int| 0 <= i < l.len() ==> is_label_char(#[trigger] l[i]),
        l.len() > 0 ==> l[0] != '-',
        forall|i: int| 0 <= i < l.len() - 1 ==> !(#[trigger] l[i] == '-' && l[i + 1] == '-'),
    ensures
        label_scan(l).0 == l,
        label_scan(l).1 == (l.len() > 0 && l.last() == '-'),
    decreases l.len(),
{
    if l.len() > 0 {
        let d = l.drop_last();
        assert forall|i: int| 0 <= i < d.len() - 1 implies !(#[trigger] d[i] == '-' && d[i + 1] == '-') by {
            assert(d[i] == l[i] && d[i + 1] == l[i + 1]);
        }
        assert forall|i: int| 0 <= i < d.len() implies is_label_char(#[trigger] d[i]) by {
            assert(d[i] == l[i]);
        }
        lemma_scan_unchanged(d);
        let c = l.last();
        assert(is_label_char(l[l.len() - 1]));
        if c != '-' {
            assert(d.push(c) =~= l);
        } else {
            assert(l.len() >= 2);
            assert(!(l[l.len() - 2] == '-' && l[l.len() - 1] == '-'));
            assert(d.push(c) =~= l);
        }
    }
}

/// A clean label is its own label.
pub proof fn lemma_label_of_clean_unchanged(l: Seq<char>)
    requires
        is_clean_label(l),
    ensures
        label_of(l) == l,
{
    assert(is_label_char(l[0]));
    assert(is_label_char(l[l.len() - 1]));
    lemma_trim_unchanged(l);
    assert forall|i: int| 0 <= i < l.len() implies !is_ascii_upper(#[trigger] l[i]) by {
        assert(is_label_char(l[i]));
    }
    lemma_ascii_lower_unchanged(l);
    lemma_scan_unchanged(l);
}

/// Every character of a joined list of labels is a label character or a dot.
proof fn lemma_join_labels_chars(parts: Seq<Seq<char>>)
    ensures
        forall|i: int|
            0 <= i < join_labels(parts).len() ==> is_prefix_char(#[trigger] join_labels(parts)[i]),
    decreases parts.len(),
{
    if parts.len() > 0 {
        lemma_join_labels_chars(parts.drop_last());
        let j = join_labels(parts.drop_last());
        let l = label_of(parts.last());
        lemma_label_of_clean(parts.last());
        let r = join_labels(parts);
        if l.len() > 0 && j.len() > 0 {
            assert forall|i: int| 0 <= i < r.len() implies is_prefix_char(#[trigger] r[i]) by {
                if i < j.len() {
                    assert(r[i] == j[i]);
                } else if i > j.len() {
                    assert(r[i] == l[i - j.len() - 1]);
                }
            }
        }
    }
}

/// Joining the pieces of a joined list of labels gives it back.
proof fn lemma_join_labels_resplit(parts: Seq<Seq<char>>)
    ensures
        join_labels(split_on(join_labels(parts), '.')) == join_labels(parts),
    decreases parts.len(),
{
    let e = Seq::<char>::empty();
    if parts.len() == 0 {
        // The empty text splits into one empty piece, whose label is empty.
        assert(split_on(e, '.') == seq![e]);
        assert(seq![e].drop_last() =~= Seq::<Seq<char>>::empty());
        assert(seq![e].last() == e);
        assert(ascii_lower(e) =~= e);
        assert(label_of(e).len() == 0);
        assert(join_labels(seq![e]) == join_labels(seq![e].drop_last()));
    } else {
        lemma_join_labels_resplit(parts.drop_last());
        let j = join_labels(parts.drop_last());
        let l = label_of(parts.last());
        lemma_label_of_clean(parts.last());
        if l.len() > 0 {
            lemma_clean_label_ok(l);
            lemma_split_on_no_sep(l, '.');
            lemma_label_of_clean_unchanged(l);
            if j.len() == 0 {
                assert(seq![l].drop_last() =~= Seq::<Seq<char>>::empty());
                assert(join_labels(seq![l].drop_last()) == e);
                assert(seq![l].last() == l);
            } else {
                lemma_split_on_concat(j, l, '.');
                let sp = split_on(j, '.') + seq![l];
                assert(sp.drop_last() =~= split_on(j, '.'));
                assert(sp.last() == l);
            }
        }
    }
}

/// The facts about `.localhost` that re-normalising relies on.
proof fn lemma_localhost_tail()
    ensures
        ".localhost"@.len() == 10,
        ".localhost"@[0] == '.',
        ".localhost"@.last() == 't',
        forall|i: int| 0 <= i < ".localhost"@.len() ==> #[trigger] ".localhost"@[i] != ':'
            && !is_ascii_upper(".localhost"@[i]) && !is_whitespace(".localhost"@[i]),
        "http://"@.len() == 7,
        "http://"@[4] == ':',
        "https://"@.len() == 8,
        "https://"@[5] == ':',
{
    reveal_strlit(".localhost");
    reveal_strlit("http://");
    reveal_strlit("https://");
}

/// Normalising a domain that normalisation produced changes nothing.
pub proof fn lemma_normalized_domain_idempotent(d: Seq<char>)
    ensures
        normalized_domain(normalized_domain(d)) == normalized_domain(d),
{
    let parts = split_on(
        strip_localhost(trim_end_slash_dot(strip_scheme(ascii_lower(trim(d))))),
        '.',
    );
    let j = domain_prefix(d);
    let n = normalized_domain(d);
    let tail = ".localhost"@;
    lemma_join_labels_chars(parts);
    lemma_localhost_tail();
    assert(n == j + tail);
    assert forall|i: int| 0 <= i < n.len() implies #[trigger] n[i] != ':' && !is_ascii_upper(n[i])
        && !is_whitespace(n[i]) by {
        if i < j.len() {
            assert(n[i] == j[i]);
            assert(is_prefix_char(j[i]));
        } else {
            assert(n[i] == tail[i - j.len()]);
        }
    }
    assert(n.last() == tail.last());
    assert(!is_whitespace(n[0]));
    lemma_trim_unchanged(n);
    lemma_ascii_lower_unchanged(n);
    assert(strip_scheme(n) == n) by {
        if has_prefix(n, "http://"@) {
            assert(n.take(7)[4] == n[4]);
        }
        if has_prefix(n, "https://"@) {
            assert(n.take(8)[5] == n[5]);
        }
    }
    assert(trim_end_slash_dot(n) == n);
    assert(n.skip(n.len() - tail.len()) =~= tail);
    assert(n.take(n.len() - tail.len()) =~= j);
    assert(strip_localhost(n) == j);
    lemma_join_labels_resplit(parts);
}

// ---------------------------------------------------------------------------
// Executable functions
// ---------------------------------------------------------------------------

/// The label of an already split piece of text, possibly empty.
fn label_chars(value: &Vec<char>) -> (r: Vec<char>)
    ensures
        r@ == label_of(value@),
{
    let t = trim_chars(value);
    let s = lower_chars(&t);
    let mut result: Vec<char> = Vec::new();
    let mut last_was_separator = false;
    let mut i: usize = 0;
    while i < s.len()
        invariant
            i <= s.len(),
            (result@, last_was_separator) == label_scan(s@.take(i as int)),
        decreases s.len() - i,
    {
        let ch = s[i];
        assert(s@.take(i + 1).drop_last() =~= s@.take(i as int));
        if is_alnum(ch) {
            result.push(ch);
            last_was_separator = false;
        } else if !last_was_separator && result.len() > 0 {
            result.push('-');
            last_was_separator = true;
        }
        i = i + 1;
    }
    assert(s@.take(s.len() as int) =~= s@);
    let ghost scanned = result@;
    while result.len() > 0 && result[result.len() - 1] == '-'
        invariant
            strip_trailing_dashes(scanned) == strip_trailing_dashes(result@),
        decreases result.len(),
    {
        result.pop();
    }
    result
}

/// Normalises one domain label: lowercase letters and digits, with every run
/// of other characters turned into a single `-` and no `-` at either end.
/// Returns `fallback` where nothing is left.
pub fn normalize_domain_label(value: &str, fallback: &str) -> (r: String)
    ensures
        r@ == normalized_label(value@, fallback@),
{
    let v = chars_of(value);
    let l = label_chars(&v);
    if l.len() == 0 {
        fallback.to_owned()
    } else {
        string_of(&l)
    }
}

/// Normalises what the user typed as a domain: lowercased, without scheme,
/// trailing `/` or `.`, each label normalised, and `.localhost` appended.
#[verifier::rlimit(30)]
pub fn normalize_domain(domain: &str) -> (r: String)
    ensures
        r@ == normalized_domain(domain@),
{
    let t = trimmed(domain);
    let lower = lower_chars(&t);
    let http = chars_of("http://");
    let https = chars_of("https://");
    let without_scheme = if starts_with(&lower, &http) {
        sub_chars(&lower, http.len(), lower.len())
    } else if starts_with(&lower, &https) {
        sub_chars(&lower, https.len(), lower.len())
    } else {
        lower
    };
    assert(without_scheme@ == strip_scheme(ascii_lower(trim(domain@))));
    let mut end: usize = without_scheme.len();
    assert(without_scheme@.take(end as int) =~= without_scheme@);
    while end > 0 && (without_scheme[end - 1] == '/' || without_scheme[end - 1] == '.')
        invariant
            end <= without_scheme.len(),
            trim_end_slash_dot(without_scheme@) == trim_end_slash_dot(
                without_scheme@.take(end as int),
            ),
        decreases end,
    {
        assert(without_scheme@.take(end as int).drop_last() =~= without_scheme@.take(end - 1));
        end = end - 1;
    }
    let without_trailing = sub_chars(&without_scheme, 0, end);
    assert(without_trailing@ =~= without_scheme@.take(end as int));
    let suffix = chars_of(".localhost");
    let prefix = if ends_with(&without_trailing, &suffix) {
        sub_chars(&without_trailing, 0, without_trailing.len() - suffix.len())
    } else {
        without_trailing
    };
    assert(prefix@ =~= strip_localhost(trim_end_slash_dot(without_scheme@)));
    let mut out: Vec<char> = Vec::new();
    let mut cur: Vec<char> = Vec::new();
    let mut i: usize = 0;
    assert(prefix@.take(0) =~= Seq::<char>::empty());
    while i < prefix.len()
        invariant
            i <= prefix.len(),
            split_on(prefix@.take(i as int), '.').len() >= 1,
            out@ == join_labels(split_on(prefix@.take(i as int), '.').drop_last()),
            cur@ == split_on(prefix@.take(i as int), '.').last(),
        decreases prefix.len() - i,
    {
        let ghost parts = split_on(prefix@.take(i as int), '.');
        let c = prefix[i];
        assert(prefix@.take(i + 1).drop_last() =~= prefix@.take(i as int));
        assert(prefix@.take(i + 1).last() == c);
        if c == '.' {
            let l = label_chars(&cur);
            if l.len() > 0 {
                if out.len() > 0 {
                    out.push('.');
                }
                append_vec(&mut out, &l);
            }
            proof {
                let np = split_on(prefix@.take(i + 1), '.');
                assert(np == parts.push(Seq::<char>::empty()));
                assert(np.drop_last() =~= parts);
            }
            assert(out@ =~= join_labels(parts));
            cur = Vec::new();
        } else {
            cur.push(c);
            proof {
                let np = split_on(prefix@.take(i + 1), '.');
                assert(np.drop_last() =~= parts.drop_last());
            }
        }
        i = i + 1;
    }
    assert(prefix@.take(prefix.len() as int) =~= prefix@);
    let l = label_chars(&cur);
    let ghost parts = split_on(prefix@, '.');
    let ghost before = out@;
    if l.len() > 0 {
        if out.len() > 0 {
            out.push('.');
        }
        append_vec(&mut out, &l);
    }
    assert(parts =~= parts.drop_last().push(parts.last()));
    assert(out@ =~= join_labels(parts));
    append_chars(&mut out, ".localhost");
    string_of(&out)
}

/// The domain a service gets when none was given:
/// `<service label>.<server label>.localhost`.
pub fn default_service_domain(service_name: &str, server_name: &str) -> (r: String)
    ensures
        r@ == default_domain(service_name@, server_name@),
        domain_ok(r@),
{
    let a = normalize_domain_label(service_name, "service");
    let b = normalize_domain_label(server_name, "server");
    let mut out = chars_of(a.as_str());
    out.push('.');
    append_chars(&mut out, b.as_str());
    append_chars(&mut out, ".localhost");
    proof {
        lemma_default_domain_ok(service_name@, server_name@);
        assert(out@ =~= default_domain(service_name@, server_name@));
    }
    string_of(&out)
}

} // verus!
