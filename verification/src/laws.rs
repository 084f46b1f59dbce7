//! Properties that hold across the operations of the gateway.
use vstd::prelude::*;

use crate::model::{SshServer, WebService};
use crate::proxy::{first_host, host_of_line, request_host, strip_cr, head_host};
use crate::seqs::{find_first, lemma_find_first, lemma_find_first_at, lemma_find_first_none};
use crate::ssh::host_key_accepted;
use crate::state::{
    domain_taken, existing_server, has_wanted_service, record_fingerprint, import_fold, name_in, name_taken, serves_host,
    server_has_id, server_other_than, service_has_id, service_not_of, service_other_than, upsert_server, upsert_service, wanted_service_of,
    with_desired,
};
use crate::text::{ascii_lower, eq_ignore_ascii_case, is_ascii_upper, trim};
use crate::model::{AuthType, ConnectionStatus, RuntimeState, ServiceStatus};
use crate::error::GateError;
use crate::validate::{server_check, service_fields_check};
use crate::domain::domain_ok;
use crate::ssh_config::{
    apply_line, block_host, config_hosts, config_state, finish_block, is_key_sep, key_sep,
    line_key, line_value, parse_u16, trim_quotes, word_count, HostBlock, HostSpec,
};
use crate::text::{is_whitespace, lemma_split_on_concat, lemma_split_on_no_sep, split_on};
use crate::state::{
    normalized_service, restore_fold, service_store_outcome, session_loss_outcome, wanted_servers,
    AppState, SessionLoss,
};

verus! {

pub open spec fn server_ids_unique(s: Seq<SshServer>) -> bool {
    forall|i: int, j: int| 0 <= i < s.len() && 0 <= j < s.len() && i != j ==> #[trigger] s[i].id@ != #[trigger] s[j].id@
}

pub open spec fn server_names_unique(s: Seq<SshServer>) -> bool {
    forall|i: int, j: int|
        0 <= i < s.len() && 0 <= j < s.len() && i != j ==> !eq_ignore_ascii_case(
            #[trigger] s[i].name@,
            #[trigger] s[j].name@,
        )
}

pub open spec fn service_ids_unique(s: Seq<WebService>) -> bool {
    forall|i: int, j: int| 0 <= i < s.len() && 0 <= j < s.len() && i != j ==> #[trigger] s[i].id@ != #[trigger] s[j].id@
}

pub open spec fn service_domains_unique(s: Seq<WebService>) -> bool {
    forall|i: int, j: int|
        0 <= i < s.len() && 0 <= j < s.len() && i != j ==> !eq_ignore_ascii_case(
            #[trigger] s[i].domain@,
            #[trigger] s[j].domain@,
        )
}

/// Storing a server whose name no other server has (which `prepare_server`
/// and `commit_server` check) keeps server identifiers and names (ignoring
/// ASCII case) unique.
pub proof fn lemma_save_server_keeps_servers_unique(servers: Seq<SshServer>, server: SshServer)
    requires
        server_ids_unique(servers),
        server_names_unique(servers),
        !name_taken(servers, server),
    ensures
        server_ids_unique(upsert_server(servers, server)),
        server_names_unique(upsert_server(servers, server)),
{
    lemma_find_first(servers, server_has_id(server.id@));
    let r = upsert_server(servers, server);
    match find_first(servers, server_has_id(server.id@)) {
        Some(k) => {
            assert forall|i: int, j: int|
                0 <= i < r.len() && 0 <= j < r.len() && i != j implies #[trigger] r[i].id@
                != #[trigger] r[j].id@ && !eq_ignore_ascii_case(r[i].name@, r[j].name@) by {
                if i == k {
                    assert(servers[j].id@ != servers[k].id@);
                    assert(!(eq_ignore_ascii_case(servers[j].name@, server.name@)
                        && servers[j].id@ != server.id@));
                } else if j == k {
                    assert(servers[i].id@ != servers[k].id@);
                    assert(!(eq_ignore_ascii_case(servers[i].name@, server.name@)
                        && servers[i].id@ != server.id@));
                } else {
                    assert(servers[i].id@ != servers[j].id@);
                    assert(!eq_ignore_ascii_case(servers[i].name@, servers[j].name@));
                }
            }
        },
        None => {
            let n = servers.len() as int;
            assert forall|i: int, j: int|
                0 <= i < r.len() && 0 <= j < r.len() && i != j implies #[trigger] r[i].id@
                != #[trigger] r[j].id@ && !eq_ignore_ascii_case(r[i].name@, r[j].name@) by {
                if i == n {
                    assert(!server_has_id(server.id@)(servers[j]));
                    assert(!(eq_ignore_ascii_case(servers[j].name@, server.name@)
                        && servers[j].id@ != server.id@));
                } else if j == n {
                    assert(!server_has_id(server.id@)(servers[i]));
                    assert(!(eq_ignore_ascii_case(servers[i].name@, server.name@)
                        && servers[i].id@ != server.id@));
                } else {
                    assert(servers[i].id@ != servers[j].id@);
                    assert(!eq_ignore_ascii_case(servers[i].name@, servers[j].name@));
                }
            }
        },
    }
}

/// Saving a service that no other service's domain clashes with (which
/// `save_service` checks) keeps service identifiers and domains (ignoring
/// ASCII case) unique.
pub proof fn lemma_save_service_keeps_domains_unique(services: Seq<WebService>, saved: WebService)
    requires
        service_ids_unique(services),
        service_domains_unique(services),
        !domain_taken(services, saved.id@, saved.domain@),
    ensures
        service_ids_unique(upsert_service(services, saved)),
        service_domains_unique(upsert_service(services, saved)),
{
    lemma_find_first(services, service_has_id(saved.id@));
    let r = upsert_service(services, saved);
    match find_first(services, service_has_id(saved.id@)) {
        Some(k) => {
            assert forall|i: int, j: int|
                0 <= i < r.len() && 0 <= j < r.len() && i != j implies #[trigger] r[i].id@
                != #[trigger] r[j].id@ && !eq_ignore_ascii_case(r[i].domain@, r[j].domain@) by {
                if i == k {
                    assert(services[j].id@ != services[k].id@);
                    assert(!(eq_ignore_ascii_case(services[j].domain@, saved.domain@)
                        && services[j].id@ != saved.id@));
                } else if j == k {
                    assert(services[i].id@ != services[k].id@);
                    assert(!(eq_ignore_ascii_case(services[i].domain@, saved.domain@)
                        && services[i].id@ != saved.id@));
                } else {
                    assert(services[i].id@ != services[j].id@);
                    assert(!eq_ignore_ascii_case(services[i].domain@, services[j].domain@));
                }
            }
        },
        None => {
            let n = services.len() as int;
            assert forall|i: int, j: int|
                0 <= i < r.len() && 0 <= j < r.len() && i != j implies #[trigger] r[i].id@
                != #[trigger] r[j].id@ && !eq_ignore_ascii_case(r[i].domain@, r[j].domain@) by {
                if i == n {
                    assert(!service_has_id(saved.id@)(services[j]));
                    assert(!(eq_ignore_ascii_case(services[j].domain@, saved.domain@)
                        && services[j].id@ != saved.id@));
                } else if j == n {
                    assert(!service_has_id(saved.id@)(services[i]));
                    assert(!(eq_ignore_ascii_case(services[i].domain@, saved.domain@)
                        && services[i].id@ != saved.id@));
                } else {
                    assert(services[i].id@ != services[j].id@);
                    assert(!eq_ignore_ascii_case(services[i].domain@, services[j].domain@));
                }
            }
        },
    }
}

/// A saved server is what is found under its identifier afterwards.
pub proof fn lemma_saved_server_is_found(servers: Seq<SshServer>, server: SshServer)
    ensures
        existing_server(upsert_server(servers, server), server.id@) == Some(server),
{
    let p = server_has_id(server.id@);
    lemma_find_first(servers, p);
    let r = upsert_server(servers, server);
    match find_first(servers, p) {
        Some(i) => {
            assert forall|j: int| 0 <= j < i implies !p(#[trigger] r[j]) by {
                assert(r[j] == servers[j]);
            }
            lemma_find_first_at(r, p, i);
        },
        None => {
            assert forall|j: int| 0 <= j < servers.len() implies !p(#[trigger] r[j]) by {
                assert(r[j] == servers[j]);
            }
            lemma_find_first_at(r, p, servers.len() as int);
        },
    }
}

/// A saved service is what is found under its identifier afterwards, but
/// for whether it should run, which an existing service keeps.
pub proof fn lemma_saved_service_is_found(services: Seq<WebService>, saved: WebService)
    ensures
        match find_first(upsert_service(services, saved), service_has_id(saved.id@)) {
            Some(i) => upsert_service(services, saved)[i] == (match find_first(
                services,
                service_has_id(saved.id@),
            ) {
                Some(k) => WebService { desired_running: services[k].desired_running, ..saved },
                None => saved,
            }),
            None => false,
        },
{
    let p = service_has_id(saved.id@);
    lemma_find_first(services, p);
    let r = upsert_service(services, saved);
    match find_first(services, p) {
        Some(i) => {
            assert forall|j: int| 0 <= j < i implies !p(#[trigger] r[j]) by {
                assert(r[j] == services[j]);
            }
            lemma_find_first_at(r, p, i);
        },
        None => {
            assert forall|j: int| 0 <= j < services.len() implies !p(#[trigger] r[j]) by {
                assert(r[j] == services[j]);
            }
            lemma_find_first_at(r, p, services.len() as int);
        },
    }
}

/// After a server is removed, no server is found under its identifier.
pub proof fn lemma_removed_server_is_gone(servers: Seq<SshServer>, server_id: Seq<char>)
    ensures
        existing_server(servers.filter(server_other_than(server_id)), server_id) is None,
{
    broadcast use vstd::seq_lib::group_filter_ensures;

    let f = servers.filter(server_other_than(server_id));
    assert forall|j: int| 0 <= j < f.len() implies !server_has_id(server_id)(#[trigger] f[j]) by {
        assert(server_other_than(server_id)(f[j]));
    }
    lemma_find_first_none(f, server_has_id(server_id));
}

/// After a service is removed, no service is found under its identifier.
pub proof fn lemma_removed_service_is_gone(services: Seq<WebService>, service_id: Seq<char>)
    ensures
        find_first(services.filter(service_other_than(service_id)), service_has_id(service_id)) is None,
{
    broadcast use vstd::seq_lib::group_filter_ensures;

    let f = services.filter(service_other_than(service_id));
    assert forall|j: int| 0 <= j < f.len() implies !service_has_id(service_id)(#[trigger] f[j]) by {
        assert(service_other_than(service_id)(f[j]));
    }
    lemma_find_first_none(f, service_has_id(service_id));
}

/// Importing servers never adds a name (ignoring ASCII case) that is
/// already there, so names stay unique.
pub proof fn lemma_import_keeps_names_unique(servers: Seq<SshServer>, imported: Seq<SshServer>)
    requires
        server_names_unique(servers),
    ensures
        server_names_unique(import_fold(servers, imported).0),
    decreases imported.len(),
{
    if imported.len() > 0 {
        lemma_import_keeps_names_unique(servers, imported.drop_last());
        let prev = import_fold(servers, imported.drop_last()).0;
        let s = imported.last();
        if !name_in(prev, s.name@) {
            let r = prev.push(s);
            let n = prev.len() as int;
            assert forall|i: int, j: int|
                0 <= i < r.len() && 0 <= j < r.len() && i != j implies !eq_ignore_ascii_case(
                #[trigger] r[i].name@,
                #[trigger] r[j].name@,
            ) by {
                if i == n {
                    assert(!eq_ignore_ascii_case(prev[j].name@, s.name@));
                } else if j == n {
                    assert(!eq_ignore_ascii_case(prev[i].name@, s.name@));
                } else {
                    assert(!eq_ignore_ascii_case(prev[i].name@, prev[j].name@));
                }
            }
        }
    }
}

/// Trust on first use: a server without a recorded host key accepts any
/// key; once a connection to it has been established with the key `f` seen
/// (`connection_established`), the server as it is then looked up
/// (`connect_target`) has `f` recorded, and a handler built from it accepts
/// exactly the key `f`.
pub proof fn lemma_host_key_pinned(
    servers: Seq<SshServer>,
    server: SshServer,
    f: String,
    other: Seq<char>,
)
    requires
        server.host_key_fingerprint is None,
        existing_server(servers, server.id@) is Some,
    ensures
        host_key_accepted(server.host_key_fingerprint, other),
        existing_server(record_fingerprint(servers, server, Some(f)), server.id@) matches Some(s)
            && s.host_key_fingerprint == Some(f) && (host_key_accepted(s.host_key_fingerprint, other)
            <==> other == f@),
{
    let p = server_has_id(server.id@);
    lemma_find_first(servers, p);
    let i = find_first(servers, p)->0;
    let r = record_fingerprint(servers, server, Some(f));
    assert(r == servers.update(i, SshServer { host_key_fingerprint: Some(f), ..servers[i] }));
    assert forall|j: int| 0 <= j < i implies !p(#[trigger] r[j]) by {
        assert(r[j] == servers[j]);
    }
    lemma_find_first_at(r, p, i);
}

/// After the user disconnects a server, none of its services should run, so
/// only an open terminal keeps its session.
pub proof fn lemma_disconnect_leaves_nothing_wanted(services: Seq<WebService>, server_id: Seq<char>)
    ensures
        !has_wanted_service(with_desired(services, server_id, false), server_id),
{
    let r = with_desired(services, server_id, false);
    assert forall|j: int| 0 <= j < r.len() implies !wanted_service_of(server_id)(#[trigger] r[j]) by {
    }
}

/// After a server is removed, no remaining service goes through it.
pub proof fn lemma_remove_server_leaves_no_service(services: Seq<WebService>, server_id: Seq<char>)
    ensures
        forall|j: int|
            0 <= j < services.filter(service_not_of(server_id)).len() ==> (#[trigger] services.filter(
                service_not_of(server_id),
            )[j]).server_id@ != server_id,
{
    let f = services.filter(service_not_of(server_id));
    broadcast use vstd::seq_lib::group_filter_ensures;

    assert forall|j: int| 0 <= j < f.len() implies (#[trigger] f[j]).server_id@ != server_id by {
        assert(service_not_of(server_id)(f[j]));
    }
}

/// Routing ignores the ASCII case of the requested host: two hosts that are
/// equal but for case reach the same service.
pub proof fn lemma_routing_ignores_case(services: Seq<WebService>, h1: Seq<char>, h2: Seq<char>)
    requires
        eq_ignore_ascii_case(h1, h2),
    ensures
        find_first(services, serves_host(h1)) == find_first(services, serves_host(h2)),
{
    assert(serves_host(h1) =~= serves_host(h2));
}

proof fn lemma_ascii_lower_no_upper(s: Seq<char>)
    ensures
        forall|i: int| 0 <= i < ascii_lower(s).len() ==> !is_ascii_upper(#[trigger] ascii_lower(s)[i]),
{
}

proof fn lemma_last_colon_exists(v: Seq<char>)
    requires
        v.contains(':'),
    ensures
        exists|k: int| 0 <= k < v.len() && v[k] == ':' && forall|j: int| k < j < v.len() ==> v[j] != ':',
    decreases v.len(),
{
    if v.last() == ':' {
        assert(0 <= v.len() - 1 < v.len() && v[v.len() - 1] == ':');
    } else {
        let j0 = choose|j: int| 0 <= j < v.len() && v[j] == ':';
        assert(v.drop_last()[j0] == ':');
        lemma_last_colon_exists(v.drop_last());
        let k = choose|k: int|
            0 <= k < v.drop_last().len() && v.drop_last()[k] == ':' && forall|j: int|
                k < j < v.drop_last().len() ==> v.drop_last()[j] != ':';
        assert(0 <= k < v.len() && v[k] == ':' && forall|j: int| k < j < v.len() ==> v[j] != ':') by {
            assert forall|j: int| k < j < v.len() implies v[j] != ':' by {
                if j < v.len() - 1 {
                    assert(v[j] == v.drop_last()[j]);
                }
            }
        }
    }
}

proof fn lemma_host_of_line_lower(l: Seq<char>)
    ensures
        host_of_line(l) matches Some(h) ==> forall|i: int| 0 <= i < h.len() ==> !is_ascii_upper(#[trigger] h[i]),
{
    reveal(host_of_line);
    let value = ascii_lower(crate::text::trim(l.skip(crate::proxy::first_colon(l) + 1)));
    lemma_ascii_lower_no_upper(crate::text::trim(l.skip(crate::proxy::first_colon(l) + 1)));
    if value.contains(':') {
        lemma_last_colon_exists(value);
        let k = crate::proxy::last_colon(value);
        assert(0 <= k < value.len());
        let h = value.take(k);
        assert forall|i: int| 0 <= i < h.len() implies !is_ascii_upper(#[trigger] h[i]) by {
            assert(h[i] == value[i]);
        }
    }
}

proof fn lemma_first_host_lower(lines: Seq<Seq<char>>)
    ensures
        first_host(lines) matches Some(h) ==> forall|i: int| 0 <= i < h.len() ==> !is_ascii_upper(#[trigger] h[i]),
    decreases lines.len(),
{
    if lines.len() > 0 {
        lemma_host_of_line_lower(strip_cr(lines[0]));
        lemma_first_host_lower(lines.drop_first());
    }
}

/// The host a request is routed by never holds an ASCII uppercase letter.
pub proof fn lemma_request_host_lowercase(b: Seq<u8>)
    ensures
        request_host(b) matches Some(h) ==> forall|i: int| 0 <= i < h.len() ==> !is_ascii_upper(#[trigger] h[i]),
{
    reveal(head_host);
    if crate::proxy::has_blank_line(b) {
        let head = b.take(crate::proxy::first_blank_line(b) + 4);
        if vstd::utf8::valid_utf8(head) {
            lemma_first_host_lower(
                crate::text::split_on(vstd::utf8::decode_utf8(head), '\n').drop_first(),
            );
        }
    }
}


// ---------------------------------------------------------------------------
// What validation refuses
// ---------------------------------------------------------------------------

/// A server is refused as incomplete exactly when its name, host or user
/// name is blank (after trimming); a key server is further refused without a
/// key path. Whatever passes has all of these.
pub proof fn lemma_server_needs_fields(server: SshServer)
    ensures
        (trim(server.name@).len() == 0 || trim(server.host@).len() == 0 || trim(
            server.username@,
        ).len() == 0) <==> server_check(server) == Err::<(), GateError>(
            GateError::ServerFieldsMissing,
        ),
        server_check(server) is Ok ==> trim(server.name@).len() > 0 && trim(server.host@).len() > 0
            && trim(server.username@).len() > 0 && (server.auth_type == AuthType::Key ==> trim(
            server.private_key_path@,
        ).len() > 0),
{
}

/// A service is refused as incomplete exactly when its name, remote host or
/// domain is empty; whatever passes has all three and a valid domain.
pub proof fn lemma_service_needs_fields(name: Seq<char>, remote_host: Seq<char>, domain: Seq<char>)
    ensures
        (name.len() == 0 || remote_host.len() == 0 || domain.len() == 0) <==> service_fields_check(
            name,
            remote_host,
            domain,
        ) == Err::<(), GateError>(GateError::ServiceFieldsMissing),
        service_fields_check(name, remote_host, domain) is Ok ==> name.len() > 0 && remote_host.len()
            > 0 && domain_ok(domain),
{
}

/// Saving a service whose name or remote host is blank (after trimming)
/// fails and changes neither the configuration nor the service states.
pub proof fn lemma_save_service_refuses_blank(
    before: AppState,
    after: AppState,
    raw: WebService,
    r: Result<(), GateError>,
)
    requires
        exists|n: WebService|
            normalized_service(n, raw) && service_store_outcome(before, after, n, r),
        trim(raw.name@).len() == 0 || trim(raw.remote_host@).len() == 0,
    ensures
        r is Err,
        after.config == before.config,
        after.service_states == before.service_states,
{
    let n = choose|n: WebService| normalized_service(n, raw) && service_store_outcome(before, after, n, r);
    assert(n.name@.len() == 0 || n.remote_host@.len() == 0);
}

// ---------------------------------------------------------------------------
// Losing a session, restoring at start-up
// ---------------------------------------------------------------------------

/// After its session is lost, a server with a service that should run is
/// reconnected on its own when it authenticates with a key or keeps its
/// secret in the credential store (the result is `Reconnect` and no state
/// changes); a password server without a kept password needs the user
/// (`PasswordNeeded`, the server in error); a server none of whose services
/// should run is stopped.
pub proof fn lemma_session_loss_decision(
    before: AppState,
    after: AppState,
    server_id: Seq<char>,
    r: SessionLoss,
)
    requires
        session_loss_outcome(before, after, server_id, r),
    ensures
        !(exists|j: int|
            0 <= j < before.config.services@.len() && (#[trigger] before.config.services@[j]).server_id@
                == server_id && before.config.services@[j].desired_running) ==> r
            == SessionLoss::Stopped && after.server_states@[server_id].status
            == ConnectionStatus::Stopped,
        (exists|j: int|
            0 <= j < before.config.services@.len() && (#[trigger] before.config.services@[j]).server_id@
                == server_id && before.config.services@[j].desired_running) ==> match existing_server(
            before.config.servers@,
            server_id,
        ) {
            None => r == SessionLoss::ServerGone,
            Some(s) => if s.auth_type == AuthType::Key || s.remember_secret {
                r == SessionLoss::Reconnect && after.server_states == before.server_states
                    && after.service_states == before.service_states
            } else {
                r == SessionLoss::PasswordNeeded && after.server_states@[server_id].status
                    == ConnectionStatus::Error
            },
        },
{
    if exists|j: int|
        0 <= j < before.config.services@.len() && (#[trigger] before.config.services@[j]).server_id@
            == server_id && before.config.services@[j].desired_running {
        let j = choose|j: int|
            0 <= j < before.config.services@.len() && (#[trigger] before.config.services@[j]).server_id@
                == server_id && before.config.services@[j].desired_running;
        assert(wanted_service_of(server_id)(before.config.services@[j]));
    } else {
        assert forall|j: int| 0 <= j < before.config.services@.len() implies !wanted_service_of(
            server_id,
        )(#[trigger] before.config.services@[j]) by {}
    }
}

/// The servers restoring walks are exactly those with a service that
/// should run.
pub proof fn lemma_wanted_servers_contains(services: Seq<WebService>, id: Seq<char>)
    ensures
        wanted_servers(services).contains(id) <==> exists|j: int|
            0 <= j < services.len() && (#[trigger] services[j]).server_id@ == id
                && services[j].desired_running,
    decreases services.len(),
{
    if services.len() > 0 {
        let init = services.drop_last();
        lemma_wanted_servers_contains(init, id);
        let acc = wanted_servers(init);
        let s = services.last();
        if exists|j: int|
            0 <= j < services.len() && (#[trigger] services[j]).server_id@ == id
                && services[j].desired_running {
            let j = choose|j: int|
                0 <= j < services.len() && (#[trigger] services[j]).server_id@ == id
                    && services[j].desired_running;
            if j < services.len() - 1 {
                assert(init[j] == services[j]);
                assert(acc.contains(id));
                if s.desired_running && !acc.contains(s.server_id@) {
                    let k = choose|k: int| 0 <= k < acc.len() && acc[k] == id;
                    assert(acc.push(s.server_id@)[k] == id);
                }
            } else {
                if acc.contains(id) {
                    let k = choose|k: int| 0 <= k < acc.len() && acc[k] == id;
                    if s.desired_running && !acc.contains(s.server_id@) {
                        assert(acc.push(s.server_id@)[k] == id);
                    }
                } else {
                    assert(acc.push(s.server_id@)[acc.len() as int] == id);
                }
            }
        }
        if wanted_servers(services).contains(id) {
            let k = choose|k: int| 0 <= k < wanted_servers(services).len() && wanted_servers(services)[k] == id;
            if s.desired_running && !acc.contains(s.server_id@) && k == acc.len() {
                assert(services[services.len() - 1] == s);
            } else {
                if s.desired_running && !acc.contains(s.server_id@) {
                    assert(acc.push(s.server_id@)[k] == acc[k]);
                }
                assert(acc.contains(id));
                let j = choose|j: int|
                    0 <= j < init.len() && (#[trigger] init[j]).server_id@ == id && init[j].desired_running;
                assert(services[j] == init[j]);
            }
        }
    }
}

/// The server with this identifier exists and authenticates with a key or
/// keeps its secret in the credential store.
pub open spec fn key_or_kept_secret(servers: Seq<SshServer>, id: Seq<char>) -> bool {
    match existing_server(servers, id) {
        Some(s) => s.auth_type == AuthType::Key || s.remember_secret,
        None => false,
    }
}

/// Restoring connects a server exactly when it is among `ids`, exists, and
/// authenticates with a key or keeps its secret in the credential store.
pub proof fn lemma_restore_fold_contains(
    servers: Seq<SshServer>,
    services: Seq<WebService>,
    states: Map<Seq<char>, RuntimeState<ServiceStatus>>,
    ids: Seq<Seq<char>>,
    message: String,
    id: Seq<char>,
)
    ensures
        restore_fold(servers, services, states, ids, message).1.contains(id) <==> (ids.contains(id)
            && key_or_kept_secret(servers, id)),
    decreases ids.len(),
{
    if ids.len() > 0 {
        let init = ids.drop_last();
        lemma_restore_fold_contains(servers, services, states, init, message, id);
        let st = restore_fold(servers, services, states, init, message);
        let last = ids.last();
        let res = restore_fold(servers, services, states, ids, message).1;
        if ids.contains(id) {
            let k = choose|k: int| 0 <= k < ids.len() && ids[k] == id;
            if k < ids.len() - 1 {
                assert(init[k] == id);
            }
        }
        if init.contains(id) {
            let k = choose|k: int| 0 <= k < init.len() && init[k] == id;
            assert(ids[k] == id);
        }
        if st.1.contains(id) {
            let k = choose|k: int| 0 <= k < st.1.len() && st.1[k] == id;
            assert(st.1.push(last)[k] == id);
        }
        if res.contains(id) && !st.1.contains(id) {
            let k = choose|k: int| 0 <= k < res.len() && res[k] == id;
            assert(res.len() == st.1.len() + 1);
            assert(k == st.1.len());
        }
        if id == last {
            assert(ids[ids.len() - 1] == id);
            if key_or_kept_secret(servers, id) {
                assert(st.1.push(last)[st.1.len() as int] == id);
            }
        }
    }
}

/// At start-up (with automatic start on) the servers connected are exactly
/// those that have a service that should run, exist, and authenticate with
/// a key or keep their secret in the credential store.
pub proof fn lemma_restore_connects_exactly(
    servers: Seq<SshServer>,
    services: Seq<WebService>,
    states: Map<Seq<char>, RuntimeState<ServiceStatus>>,
    message: String,
    id: Seq<char>,
)
    ensures
        restore_fold(servers, services, states, wanted_servers(services), message).1.contains(id)
            <==> ((exists|j: int|
            0 <= j < services.len() && (#[trigger] services[j]).server_id@ == id
                && services[j].desired_running) && key_or_kept_secret(servers, id)),
{
    lemma_wanted_servers_contains(services, id);
    lemma_restore_fold_contains(servers, services, states, wanted_servers(services), message, id);
}

// ---------------------------------------------------------------------------
// Importing ~/.ssh/config
// ---------------------------------------------------------------------------

/// A configuration line made of a keyword of letters, one space and a
/// value.
pub open spec fn keyword_line(keyword: Seq<char>, value: Seq<char>) -> Seq<char> {
    keyword + seq![' '] + value
}

pub open spec fn is_ascii_letter(c: char) -> bool {
    ('a' <= c && c <= 'z') || ('A' <= c && c <= 'Z')
}

/// Appending such a line to a configuration applies it to the state the
/// configuration reached; its keyword is the lowercased keyword and its
/// value the value without surrounding quotes.
proof fn lemma_append_keyword_line(raw: Seq<char>, keyword: Seq<char>, value: Seq<char>)
    requires
        keyword.len() > 0,
        forall|i: int| 0 <= i < keyword.len() ==> is_ascii_letter(#[trigger] keyword[i]),
        value.len() > 0,
        !is_whitespace(value[0]),
        !is_whitespace(value.last()),
        !value.contains('\n'),
    ensures
        ({
            let line = keyword_line(keyword, value);
            &&& config_state(split_on(raw + seq!['\n'] + line, '\n')) == apply_line(
                config_state(split_on(raw, '\n')),
                line,
            )
            &&& trim(line) == line
            &&& line.len() > 0 && line[0] != '#'
            &&& line_key(line) == ascii_lower(keyword)
            &&& line_value(line) == trim_quotes(value)
        }),
{
    let n = keyword.len() as int;
    let line = keyword_line(keyword, value);
    assert(line.len() == n + 1 + value.len());
    assert forall|j: int| 0 <= j < n implies #[trigger] line[j] == keyword[j] by {}
    assert(line[n] == ' ');
    assert forall|j: int| 0 <= j < value.len() implies #[trigger] line[n + 1 + j] == value[j] by {}
    assert(!line.contains('\n')) by {
        if line.contains('\n') {
            let k = choose|k: int| 0 <= k < line.len() && line[k] == '\n';
            if k < n {
                assert(is_ascii_letter(keyword[k]));
            } else if k > n {
                assert(line[n + 1 + (k - n - 1)] == value[k - n - 1]);
            }
        }
    }
    lemma_split_on_concat(raw, line, '\n');
    lemma_split_on_no_sep(line, '\n');
    let lines = split_on(raw + seq!['\n'] + line, '\n');
    assert(lines.drop_last() =~= split_on(raw, '\n'));
    assert(lines.last() == line);
    assert(is_ascii_letter(keyword[0]));
    assert(line[0] == keyword[0]);
    assert(line.last() == value.last()) by {
        assert(line[n + 1 + (value.len() - 1)] == value[value.len() - 1]);
    }
    assert(trim(line) == line);
    assert(is_key_sep(line[n]));
    assert forall|j: int| 0 <= j < n implies !is_key_sep(#[trigger] line[j]) by {
        assert(is_ascii_letter(keyword[j]));
    }
    let k = key_sep(line);
    assert(k == n) by {
        if k < n {
            assert(!is_key_sep(line[k]));
        } else if k > n {
            assert(!is_key_sep(line[n]));
        }
    }
    assert(line.take(n) =~= keyword);
    assert(!is_whitespace(keyword[0]));
    assert(!is_whitespace(keyword.last())) by {
        assert(is_ascii_letter(keyword[n - 1]));
    }
    assert(trim(keyword) == keyword);
    assert(line.skip(n + 1) =~= value);
    assert(trim(value) == value);
}

/// What a trimmed, non-comment line with a known keyword does to the
/// parsing state.
proof fn lemma_apply_known_line(st: (Seq<HostSpec>, HostBlock), line: Seq<char>)
    requires
        trim(line) == line,
        line.len() > 0,
        line[0] != '#',
    ensures
        line_key(line) == "host"@ ==> apply_line(st, line) == (
            finish_block(st.0, st.1),
            HostBlock {
                alias: line_value(line),
                hostname: None,
                port: None,
                user: None,
                identity: None,
            },
        ),
        line_key(line) == "hostname"@ ==> apply_line(st, line) == (
            st.0,
            HostBlock { hostname: Some(line_value(line)), ..st.1 },
        ),
        line_key(line) == "port"@ ==> apply_line(st, line) == (
            st.0,
            HostBlock { port: parse_u16(line_value(line)), ..st.1 },
        ),
        line_key(line) == "user"@ ==> apply_line(st, line) == (
            st.0,
            HostBlock { user: Some(line_value(line)), ..st.1 },
        ),
        line_key(line) == "identityfile"@ ==> apply_line(st, line) == (
            st.0,
            HostBlock { identity: Some(line_value(line)), ..st.1 },
        ),
{
    reveal_strlit("host");
    reveal_strlit("hostname");
    reveal_strlit("port");
    reveal_strlit("user");
    reveal_strlit("identityfile");
    // The keywords differ from one another.
    assert("hostname"@.len() != "host"@.len());
    assert("port"@[0] != "host"@[0] && "port"@[0] != "hostname"@[0]);
    assert("user"@[0] != "host"@[0] && "user"@[0] != "hostname"@[0] && "user"@[0] != "port"@[0]);
    assert("identityfile"@[0] != "host"@[0] && "identityfile"@[0] != "hostname"@[0]
        && "identityfile"@[0] != "port"@[0] && "identityfile"@[0] != "user"@[0]);
}

/// An `IdentityFile` line gives the host block it stands in its key path:
/// appending `IdentityFile <path>` to any configuration leaves the hosts
/// already finished as they were, sets the open block's key file to `path`
/// (without surrounding quotes) and changes nothing else in that block; the
/// default key `~/.ssh/id_ed25519` is taken only by a block without one.
pub proof fn lemma_identity_file_sets_key_path(raw: Seq<char>, path: Seq<char>)
    requires
        path.len() > 0,
        !is_whitespace(path[0]),
        !is_whitespace(path.last()),
        !path.contains('\n'),
    ensures
        ({
            let line = keyword_line("IdentityFile"@, path);
            let before = config_state(split_on(raw, '\n'));
            let after = config_state(split_on(raw + seq!['\n'] + line, '\n'));
            &&& after.0 == before.0
            &&& after.1 == HostBlock { identity: Some(trim_quotes(path)), ..before.1 }
            &&& block_host(after.1).key_path == trim_quotes(path)
            &&& config_hosts(raw + seq!['\n'] + line) == finish_block(before.0, after.1)
        }),
        forall|b: HostBlock| #[trigger] block_host(b).key_path == (match b.identity {
            Some(v) => v,
            None => "~/.ssh/id_ed25519"@,
        }),
{
    let kw = "IdentityFile"@;
    assert(kw.len() > 0 && forall|i: int| 0 <= i < kw.len() ==> is_ascii_letter(#[trigger] kw[i]))
        by {
        reveal_strlit("IdentityFile");
    }
    assert(ascii_lower(kw) == "identityfile"@) by {
        reveal_strlit("IdentityFile");
        reveal_strlit("identityfile");
        assert(ascii_lower(kw) =~= "identityfile"@);
    }
    lemma_append_keyword_line(raw, kw, path);
    lemma_apply_known_line(config_state(split_on(raw, '\n')), keyword_line(kw, path));
}

/// A `HostName` line gives the open block the host to connect to; a block
/// without one connects to its alias.
pub proof fn lemma_host_name_sets_host(raw: Seq<char>, name: Seq<char>)
    requires
        name.len() > 0,
        !is_whitespace(name[0]),
        !is_whitespace(name.last()),
        !name.contains('\n'),
    ensures
        ({
            let line = keyword_line("HostName"@, name);
            let before = config_state(split_on(raw, '\n'));
            let after = config_state(split_on(raw + seq!['\n'] + line, '\n'));
            &&& after.0 == before.0
            &&& after.1 == HostBlock { hostname: Some(trim_quotes(name)), ..before.1 }
            &&& block_host(after.1).host == trim_quotes(name)
        }),
        forall|b: HostBlock| #[trigger] block_host(b).host == (match b.hostname {
            Some(v) => v,
            None => b.alias,
        }),
{
    let kw = "HostName"@;
    assert(kw.len() > 0 && forall|i: int| 0 <= i < kw.len() ==> is_ascii_letter(#[trigger] kw[i]))
        by {
        reveal_strlit("HostName");
    }
    assert(ascii_lower(kw) == "hostname"@) by {
        reveal_strlit("HostName");
        reveal_strlit("hostname");
        assert(ascii_lower(kw) =~= "hostname"@);
    }
    lemma_append_keyword_line(raw, kw, name);
    lemma_apply_known_line(config_state(split_on(raw, '\n')), keyword_line(kw, name));
}

/// A `User` line gives the open block its user name.
pub proof fn lemma_user_sets_user(raw: Seq<char>, user: Seq<char>)
    requires
        user.len() > 0,
        !is_whitespace(user[0]),
        !is_whitespace(user.last()),
        !user.contains('\n'),
    ensures
        ({
            let line = keyword_line("User"@, user);
            let before = config_state(split_on(raw, '\n'));
            let after = config_state(split_on(raw + seq!['\n'] + line, '\n'));
            &&& after.0 == before.0
            &&& after.1 == HostBlock { user: Some(trim_quotes(user)), ..before.1 }
            &&& block_host(after.1).username == trim_quotes(user)
        }),
{
    let kw = "User"@;
    assert(kw.len() > 0 && forall|i: int| 0 <= i < kw.len() ==> is_ascii_letter(#[trigger] kw[i]))
        by {
        reveal_strlit("User");
    }
    assert(ascii_lower(kw) == "user"@) by {
        reveal_strlit("User");
        reveal_strlit("user");
        assert(ascii_lower(kw) =~= "user"@);
    }
    lemma_append_keyword_line(raw, kw, user);
    lemma_apply_known_line(config_state(split_on(raw, '\n')), keyword_line(kw, user));
}

/// A `Port` line gives the open block the port it names, when that is a
/// number up to 65535; a block without a valid port connects to port 22.
pub proof fn lemma_port_sets_port(raw: Seq<char>, port: Seq<char>)
    requires
        port.len() > 0,
        !is_whitespace(port[0]),
        !is_whitespace(port.last()),
        !port.contains('\n'),
    ensures
        ({
            let line = keyword_line("Port"@, port);
            let before = config_state(split_on(raw, '\n'));
            let after = config_state(split_on(raw + seq!['\n'] + line, '\n'));
            &&& after.0 == before.0
            &&& after.1 == HostBlock { port: parse_u16(trim_quotes(port)), ..before.1 }
        }),
        forall|b: HostBlock| #[trigger] block_host(b).port == (match b.port {
            Some(p) => p,
            None => 22u16,
        }),
{
    let kw = "Port"@;
    assert(kw.len() > 0 && forall|i: int| 0 <= i < kw.len() ==> is_ascii_letter(#[trigger] kw[i]))
        by {
        reveal_strlit("Port");
    }
    assert(ascii_lower(kw) == "port"@) by {
        reveal_strlit("Port");
        reveal_strlit("port");
        assert(ascii_lower(kw) =~= "port"@);
    }
    lemma_append_keyword_line(raw, kw, port);
    lemma_apply_known_line(config_state(split_on(raw, '\n')), keyword_line(kw, port));
}

/// A `Host` line closes the open block, which becomes a server exactly when
/// its alias is one concrete word (no `*`, `?` or `!`) and it has a user,
/// and opens a new block for the alias it names, with nothing else known.
pub proof fn lemma_host_line_starts_block(raw: Seq<char>, alias: Seq<char>)
    requires
        alias.len() > 0,
        !is_whitespace(alias[0]),
        !is_whitespace(alias.last()),
        !alias.contains('\n'),
    ensures
        ({
            let line = keyword_line("Host"@, alias);
            let before = config_state(split_on(raw, '\n'));
            let after = config_state(split_on(raw + seq!['\n'] + line, '\n'));
            let b = before.1;
            let kept = b.alias.len() > 0 && !b.alias.contains('*') && !b.alias.contains('?')
                && !b.alias.contains('!') && word_count(b.alias) == 1 && (b.user matches Some(u)
                && u.len() > 0);
            &&& after.0 == (if kept {
                before.0.push(block_host(b))
            } else {
                before.0
            })
            &&& after.1 == HostBlock {
                alias: trim_quotes(alias),
                hostname: None,
                port: None,
                user: None,
                identity: None,
            }
        }),
{
    let kw = "Host"@;
    assert(kw.len() > 0 && forall|i: int| 0 <= i < kw.len() ==> is_ascii_letter(#[trigger] kw[i]))
        by {
        reveal_strlit("Host");
    }
    assert(ascii_lower(kw) == "host"@) by {
        reveal_strlit("Host");
        reveal_strlit("host");
        assert(ascii_lower(kw) =~= "host"@);
    }
    lemma_append_keyword_line(raw, kw, alias);
    lemma_apply_known_line(config_state(split_on(raw, '\n')), keyword_line(kw, alias));
}

} // verus!
