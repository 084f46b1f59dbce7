//! The gateway's state: the configuration and the runtime state of every
//! server and service, with the rules by which each request changes them.
use vstd::prelude::*;

use crate::domain::{default_domain, normalized_domain};
use crate::error::GateError;
use crate::model::{
    clone_opt_string, AppConfig, AuthType, ConnectionStatus, RuntimeSnapshot, RuntimeState,
    ServiceStatus, Settings, SshServer, WebService,
};
use crate::seqs::{find_first, lemma_find_first, lemma_find_first_at, lemma_find_first_none};
use crate::table::StateTable;
use crate::text::{eq_ignore_ascii_case, str_eq, trim};

verus! {

// ---------------------------------------------------------------------------
// Predicates on records
// ---------------------------------------------------------------------------

pub open spec fn server_has_id(id: Seq<char>) -> spec_fn(SshServer) -> bool {
    |s: SshServer| s.id@ == id
}

pub open spec fn service_has_id(id: Seq<char>) -> spec_fn(WebService) -> bool {
    |s: WebService| s.id@ == id
}

pub open spec fn server_other_than(id: Seq<char>) -> spec_fn(SshServer) -> bool {
    |s: SshServer| s.id@ != id
}

pub open spec fn service_not_of(server_id: Seq<char>) -> spec_fn(WebService) -> bool {
    |s: WebService| s.server_id@ != server_id
}

pub open spec fn service_other_than(id: Seq<char>) -> spec_fn(WebService) -> bool {
    |s: WebService| s.id@ != id
}

pub open spec fn service_of(server_id: Seq<char>) -> spec_fn(WebService) -> bool {
    |s: WebService| s.server_id@ == server_id
}

/// A service of the server that should be running.
pub open spec fn wanted_service_of(server_id: Seq<char>) -> spec_fn(WebService) -> bool {
    |s: WebService| s.server_id@ == server_id && s.desired_running
}

pub open spec fn has_wanted_service(services: Seq<WebService>, server_id: Seq<char>) -> bool {
    exists|j: int| 0 <= j < services.len() && wanted_service_of(server_id)(#[trigger] services[j])
}

/// `services` with `desired_running` set to `value` on every service of the server.
pub open spec fn with_desired(services: Seq<WebService>, server_id: Seq<char>, value: bool) -> Seq<
    WebService,
> {
    services.map_values(
        |s: WebService|
            if s.server_id@ == server_id {
                WebService { desired_running: value, ..s }
            } else {
                s
            },
    )
}

/// The identifiers of the services that satisfy `p`, in order.
pub open spec fn ids_where(services: Seq<WebService>, p: spec_fn(WebService) -> bool) -> Seq<
    Seq<char>,
> {
    services.filter(p).map_values(|s: WebService| s.id@)
}

/// `m` with `state` given to every key in `ids`.
pub open spec fn set_all<T>(m: Map<Seq<char>, RuntimeState<T>>, ids: Seq<Seq<char>>, state: RuntimeState<T>) -> Map<
    Seq<char>,
    RuntimeState<T>,
>
    decreases ids.len(),
{
    if ids.len() == 0 {
        m
    } else {
        set_all(m, ids.drop_last(), state).insert(ids.last(), state)
    }
}

pub open spec fn views(v: Seq<String>) -> Seq<Seq<char>> {
    v.map_values(|s: String| s@)
}

/// Whether `ids` holds `id`.
fn holds_id(ids: &Vec<String>, id: &str) -> (r: bool)
    ensures
        r == views(ids@).contains(id@),
{
    let mut i: usize = 0;
    while i < ids.len()
        invariant
            i <= ids@.len(),
            forall|j: int| 0 <= j < i ==> #[trigger] ids@[j]@ != id@,
        decreases ids@.len() - i,
    {
        if str_eq(ids[i].as_str(), id) {
            assert(views(ids@)[i as int] == id@);
            return true;
        }
        i = i + 1;
    }
    assert forall|j: int| 0 <= j < views(ids@).len() implies views(ids@)[j] != id@ by {
        assert(views(ids@)[j] == ids@[j]@);
    }
    false
}

// ---------------------------------------------------------------------------
// The state
// ---------------------------------------------------------------------------

/// The configuration together with the runtime state of every server and
/// service and the error of the local proxy, if any.
pub struct AppState {
    pub config: AppConfig,
    pub server_states: StateTable<ConnectionStatus>,
    pub service_states: StateTable<ServiceStatus>,
    pub proxy_error: Option<String>,
}

/// What the runtime states look like right after loading `config`: every
/// configured server and service is stopped.
pub open spec fn initial_server_states(servers: Seq<SshServer>) -> Map<
    Seq<char>,
    RuntimeState<ConnectionStatus>,
> {
    Map::new(
        |k: Seq<char>| exists|i: int| 0 <= i < servers.len() && #[trigger] servers[i].id@ == k,
        |k: Seq<char>| RuntimeState { status: ConnectionStatus::Stopped, error: None },
    )
}

pub open spec fn initial_service_states(services: Seq<WebService>) -> Map<
    Seq<char>,
    RuntimeState<ServiceStatus>,
> {
    Map::new(
        |k: Seq<char>| exists|i: int| 0 <= i < services.len() && #[trigger] services[i].id@ == k,
        |k: Seq<char>| RuntimeState { status: ServiceStatus::Stopped, error: None },
    )
}

impl AppState {
    pub open spec fn wf(&self) -> bool {
        self.server_states.wf() && self.service_states.wf()
    }

    /// Every configured server and service has a runtime state.
    pub open spec fn states_cover_config(&self) -> bool {
        &&& forall|i: int|
            0 <= i < self.config.servers@.len() ==> self.server_states@.contains_key(
                #[trigger] self.config.servers@[i].id@,
            )
        &&& forall|i: int|
            0 <= i < self.config.services@.len() ==> self.service_states@.contains_key(
                #[trigger] self.config.services@[i].id@,
            )
    }

    /// The state right after the configuration has been read: every server
    /// and service stopped, no proxy error.
    pub fn load(config: AppConfig) -> (r: AppState)
        ensures
            r.wf(),
            r.config == config,
            r.proxy_error is None,
            r.server_states@ == initial_server_states(config.servers@),
            r.service_states@ == initial_service_states(config.services@),
            r.states_cover_config(),
    {
        let mut server_states: StateTable<ConnectionStatus> = StateTable::new();
        let mut i: usize = 0;
        while i < config.servers.len()
            invariant
                i <= config.servers@.len(),
                server_states.wf(),
                server_states@ == initial_server_states(config.servers@.take(i as int)),
            decreases config.servers@.len() - i,
        {
            server_states.insert(
                config.servers[i].id.clone(),
                RuntimeState::new(ConnectionStatus::Stopped),
            );
            proof {
                let a = config.servers@.take(i as int);
                let b = config.servers@.take(i + 1);
                assert forall|k: Seq<char>| #[trigger]
                    initial_server_states(b).contains_key(k) == initial_server_states(
                        a,
                    ).insert(config.servers@[i as int].id@, RuntimeState { status: ConnectionStatus::Stopped, error: None }).contains_key(k) by {
                    if exists|j: int| 0 <= j < b.len() && #[trigger] b[j].id@ == k {
                        let j = choose|j: int| 0 <= j < b.len() && #[trigger] b[j].id@ == k;
                        if j < i {
                            assert(a[j].id@ == k);
                        }
                    }
                    if exists|j: int| 0 <= j < a.len() && #[trigger] a[j].id@ == k {
                        let j = choose|j: int| 0 <= j < a.len() && #[trigger] a[j].id@ == k;
                        assert(b[j].id@ == k);
                    }
                    assert(b[i as int].id@ == config.servers@[i as int].id@);
                }
                assert(server_states@ =~= initial_server_states(b));
            }
            i = i + 1;
        }
        assert(config.servers@.take(config.servers@.len() as int) =~= config.servers@);
        let mut service_states: StateTable<ServiceStatus> = StateTable::new();
        let mut i: usize = 0;
        while i < config.services.len()
            invariant
                i <= config.services@.len(),
                service_states.wf(),
                service_states@ == initial_service_states(config.services@.take(i as int)),
            decreases config.services@.len() - i,
        {
            service_states.insert(
                config.services[i].id.clone(),
                RuntimeState::new(ServiceStatus::Stopped),
            );
            proof {
                let a = config.services@.take(i as int);
                let b = config.services@.take(i + 1);
                assert forall|k: Seq<char>| #[trigger]
                    initial_service_states(b).contains_key(k) == initial_service_states(
                        a,
                    ).insert(config.services@[i as int].id@, RuntimeState { status: ServiceStatus::Stopped, error: None }).contains_key(k) by {
                    if exists|j: int| 0 <= j < b.len() && #[trigger] b[j].id@ == k {
                        let j = choose|j: int| 0 <= j < b.len() && #[trigger] b[j].id@ == k;
                        if j < i {
                            assert(a[j].id@ == k);
                        }
                    }
                    if exists|j: int| 0 <= j < a.len() && #[trigger] a[j].id@ == k {
                        let j = choose|j: int| 0 <= j < a.len() && #[trigger] a[j].id@ == k;
                        assert(b[j].id@ == k);
                    }
                    assert(b[i as int].id@ == config.services@[i as int].id@);
                }
                assert(initial_service_states(b).dom() =~= initial_service_states(a).insert(
                    config.services@[i as int].id@,
                    RuntimeState { status: ServiceStatus::Stopped, error: None },
                ).dom());
                assert(service_states@ =~= initial_service_states(b));
            }
            i = i + 1;
        }
        assert(config.services@.take(config.services@.len() as int) =~= config.services@);
        let r = AppState { config, server_states, service_states, proxy_error: None };
        assert forall|i: int| 0 <= i < r.config.servers@.len() implies r.server_states@.contains_key(
            #[trigger] r.config.servers@[i].id@,
        ) by {
            assert(r.config.servers@[i].id@ == r.config.servers@[i].id@);
        }
        assert forall|i: int| 0 <= i < r.config.services@.len() implies r.service_states@.contains_key(
            #[trigger] r.config.services@[i].id@,
        ) by {
            assert(r.config.services@[i].id@ == r.config.services@[i].id@);
        }
        r
    }

    /// A copy of everything the user interface shows.
    pub fn snapshot(&self) -> (r: RuntimeSnapshot)
        ensures
            r.config.servers@ == self.config.servers@,
            r.config.services@ == self.config.services@,
            r.config.settings == self.config.settings,
            r.server_states@ == self.server_states@,
            r.service_states@ == self.service_states@,
            r.server_states.wf() == self.server_states.wf(),
            r.service_states.wf() == self.service_states.wf(),
            r.proxy_error == self.proxy_error,
    {
        RuntimeSnapshot {
            config: self.config.clone(),
            server_states: self.server_states.clone(),
            service_states: self.service_states.clone(),
            proxy_error: clone_opt_string(&self.proxy_error),
        }
    }

    /// Records whether the local proxy could listen.
    pub fn set_proxy_error(&mut self, error: Option<String>)
        ensures
            final(self).proxy_error == error,
            final(self).config == old(self).config,
            final(self).server_states == old(self).server_states,
            final(self).service_states == old(self).service_states,
    {
        self.proxy_error = error;
    }

    // -----------------------------------------------------------------------
    // Lookups
    // -----------------------------------------------------------------------

    /// The position of the first server with identifier `id`.
    pub fn server_index(&self, id: &str) -> (r: Option<usize>)
        ensures
            r is None <==> find_first(self.config.servers@, server_has_id(id@)) is None,
            r matches Some(i) ==> find_first(self.config.servers@, server_has_id(id@)) == Some(
                i as int,
            ) && i < self.config.servers@.len() && self.config.servers@[i as int].id@ == id@,
    {
        let mut i: usize = 0;
        while i < self.config.servers.len()
            invariant
                i <= self.config.servers@.len(),
                forall|j: int| 0 <= j < i ==> !server_has_id(id@)(#[trigger] self.config.servers@[j]),
            decreases self.config.servers@.len() - i,
        {
            if str_eq(self.config.servers[i].id.as_str(), id) {
                proof {
                    lemma_find_first_at(self.config.servers@, server_has_id(id@), i as int);
                }
                return Some(i);
            }
            i = i + 1;
        }
        proof {
            lemma_find_first_none(self.config.servers@, server_has_id(id@));
        }
        None
    }

    /// The position of the first service with identifier `id`.
    pub fn service_index(&self, id: &str) -> (r: Option<usize>)
        ensures
            r is None <==> find_first(self.config.services@, service_has_id(id@)) is None,
            r matches Some(i) ==> find_first(self.config.services@, service_has_id(id@)) == Some(
                i as int,
            ) && i < self.config.services@.len() && self.config.services@[i as int].id@ == id@,
    {
        let mut i: usize = 0;
        while i < self.config.services.len()
            invariant
                i <= self.config.services@.len(),
                forall|j: int| 0 <= j < i ==> !service_has_id(id@)(#[trigger] self.config.services@[j]),
            decreases self.config.services@.len() - i,
        {
            if str_eq(self.config.services[i].id.as_str(), id) {
                proof {
                    lemma_find_first_at(self.config.services@, service_has_id(id@), i as int);
                }
                return Some(i);
            }
            i = i + 1;
        }
        proof {
            lemma_find_first_none(self.config.services@, service_has_id(id@));
        }
        None
    }

    /// Whether a service of the server is meant to be running.
    pub fn has_running_app(&self, server_id: &str) -> (r: bool)
        ensures
            r == has_wanted_service(self.config.services@, server_id@),
    {
        let mut i: usize = 0;
        while i < self.config.services.len()
            invariant
                i <= self.config.services@.len(),
                forall|j: int|
                    0 <= j < i ==> !wanted_service_of(server_id@)(#[trigger] self.config.services@[j]),
            decreases self.config.services@.len() - i,
        {
            let s = &self.config.services[i];
            if s.desired_running && str_eq(s.server_id.as_str(), server_id) {
                assert(wanted_service_of(server_id@)(self.config.services@[i as int]));
                return true;
            }
            i = i + 1;
        }
        false
    }

    /// The identifiers of the services that should run on the server.
    fn wanted_service_ids(&self, server_id: &str) -> (r: Vec<String>)
        ensures
            views(r@) == ids_where(self.config.services@, wanted_service_of(server_id@)),
    {
        let ghost p = wanted_service_of(server_id@);
        let ghost s = self.config.services@;
        let mut r: Vec<String> = Vec::new();
        let mut i: usize = 0;
        while i < self.config.services.len()
            invariant
                i <= s.len(),
                s == self.config.services@,
                p == wanted_service_of(server_id@),
                views(r@) == ids_where(s.take(i as int), p),
            decreases s.len() - i,
        {
            let svc = &self.config.services[i];
            let wanted = svc.desired_running && str_eq(svc.server_id.as_str(), server_id);
            proof {
                assert(s.take(i + 1) =~= s.take(i as int).push(s[i as int]));
                s.take(i as int).lemma_filter_push(s[i as int], p);
            }
            if wanted {
                let ghost before = r@;
                r.push(svc.id.clone());
                proof {
                    assert(p(s[i as int]));
                    let f = s.take(i as int).filter(p);
                    assert(s.take(i + 1).filter(p) == f.push(s[i as int]));
                    assert(views(r@) =~= views(before).push(s[i as int].id@));
                    assert(f.push(s[i as int]).map_values(|x: WebService| x.id@) =~= f.map_values(
                        |x: WebService| x.id@,
                    ).push(s[i as int].id@));
                }
                assert(views(r@) =~= ids_where(s.take(i + 1), p));
            } else {
                assert(views(r@) =~= ids_where(s.take(i + 1), p));
            }
            i = i + 1;
        }
        assert(s.take(s.len() as int) =~= s);
        r
    }

    /// Gives the same service state to each listed service.
    pub fn set_services_state(&mut self, ids: &Vec<String>, status: ServiceStatus, error: Option<String>)
        requires
            old(self).wf(),
        ensures
            final(self).wf(),
            final(self).config == old(self).config,
            final(self).server_states == old(self).server_states,
            final(self).proxy_error == old(self).proxy_error,
            final(self).service_states@ == set_all(
                old(self).service_states@,
                views(ids@),
                RuntimeState { status, error },
            ),
    {
        let ghost start = self.service_states@;
        let mut i: usize = 0;
        while i < ids.len()
            invariant
                i <= ids@.len(),
                self.wf(),
                self.config == old(self).config,
                self.server_states == old(self).server_states,
                self.proxy_error == old(self).proxy_error,
                start == old(self).service_states@,
                self.service_states@ == set_all(
                    start,
                    views(ids@.take(i as int)),
                    RuntimeState { status, error },
                ),
            decreases ids@.len() - i,
        {
            self.service_states.insert(
                ids[i].clone(),
                RuntimeState { status, error: clone_opt_string(&error) },
            );
            assert(views(ids@.take(i + 1)).drop_last() =~= views(ids@.take(i as int)));
            i = i + 1;
        }
        assert(ids@.take(ids@.len() as int) =~= ids@);
    }

    /// Gives every service of the server that should be running the same state.
    pub fn set_server_services_state(
        &mut self,
        server_id: &str,
        status: ServiceStatus,
        error: Option<String>,
    )
        requires
            old(self).wf(),
        ensures
            final(self).wf(),
            final(self).config == old(self).config,
            final(self).server_states == old(self).server_states,
            final(self).proxy_error == old(self).proxy_error,
            final(self).service_states@ == set_all(
                old(self).service_states@,
                ids_where(old(self).config.services@, wanted_service_of(server_id@)),
                RuntimeState { status, error },
            ),
    {
        let ids = self.wanted_service_ids(server_id);
        self.set_services_state(&ids, status, error);
    }

    // -----------------------------------------------------------------------
    // Connections
    // -----------------------------------------------------------------------

    /// A connection attempt begins: the server is connecting (or reconnecting)
    /// and its wanted services are starting (or reconnecting).
    pub fn begin_connect(&mut self, server_id: &str, reconnecting: bool)
        requires
            old(self).wf(),
        ensures
            final(self).wf(),
            final(self).config == old(self).config,
            final(self).proxy_error == old(self).proxy_error,
            final(self).server_states@ == old(self).server_states@.insert(
                server_id@,
                RuntimeState {
                    status: if reconnecting {
                        ConnectionStatus::Reconnecting
                    } else {
                        ConnectionStatus::Connecting
                    },
                    error: None,
                },
            ),
            final(self).service_states@ == set_all(
                old(self).service_states@,
                ids_where(old(self).config.services@, wanted_service_of(server_id@)),
                RuntimeState {
                    status: if reconnecting {
                        ServiceStatus::Reconnecting
                    } else {
                        ServiceStatus::Starting
                    },
                    error: None,
                },
            ),
    {
        let status = if reconnecting {
            ConnectionStatus::Reconnecting
        } else {
            ConnectionStatus::Connecting
        };
        self.server_states.insert(server_id.to_owned(), RuntimeState::new(status));
        let service_status = if reconnecting {
            ServiceStatus::Reconnecting
        } else {
            ServiceStatus::Starting
        };
        self.set_server_services_state(server_id, service_status, None);
    }

    /// A connection attempt failed: the server is in error (or still
    /// reconnecting) with `message`, and so are its wanted services.
    pub fn connection_failed(&mut self, server_id: &str, reconnecting: bool, message: String)
        requires
            old(self).wf(),
        ensures
            final(self).wf(),
            final(self).config == old(self).config,
            final(self).proxy_error == old(self).proxy_error,
            final(self).server_states@ == old(self).server_states@.insert(
                server_id@,
                RuntimeState {
                    status: if reconnecting {
                        ConnectionStatus::Reconnecting
                    } else {
                        ConnectionStatus::Error
                    },
                    error: Some(message),
                },
            ),
            final(self).service_states@ == set_all(
                old(self).service_states@,
                ids_where(old(self).config.services@, wanted_service_of(server_id@)),
                RuntimeState {
                    status: if reconnecting {
                        ServiceStatus::Reconnecting
                    } else {
                        ServiceStatus::Error
                    },
                    error: Some(message),
                },
            ),
    {
        let status = if reconnecting {
            ConnectionStatus::Reconnecting
        } else {
            ConnectionStatus::Error
        };
        self.server_states.insert(server_id.to_owned(), RuntimeState::error(status, message.clone()));
        let service_status = if reconnecting {
            ServiceStatus::Reconnecting
        } else {
            ServiceStatus::Error
        };
        self.set_server_services_state(server_id, service_status, Some(message));
    }
}


// ---------------------------------------------------------------------------
// Saving and removing servers
// ---------------------------------------------------------------------------

/// What must happen in the system credential store before a server is saved.
#[derive(Debug)]
pub enum CredentialAction {
    /// Store this secret for the server.
    Store(String),
    /// Keep the stored secret; the save fails if none is stored.
    RequireStored,
    /// Delete the stored secret.
    Delete,
    /// Nothing to do.
    Keep,
}

/// `server` as it is saved: name, host, user and key path trimmed, and a
/// fresh identifier where the given one is blank.
pub open spec fn normalized_server(n: SshServer, s: SshServer) -> bool {
    &&& n.name@ == trim(s.name@)
    &&& n.host@ == trim(s.host@)
    &&& n.username@ == trim(s.username@)
    &&& n.private_key_path@ == trim(s.private_key_path@)
    &&& n.port == s.port
    &&& n.auth_type == s.auth_type
    &&& n.remember_secret == s.remember_secret
    &&& n.host_key_fingerprint == s.host_key_fingerprint
    &&& if trim(s.id@).len() == 0 {
        crate::ids::is_uuid_v4_text(n.id@)
    } else {
        n.id == s.id
    }
}

/// Checks a server and puts it in the form in which it is saved.
pub fn normalize_server(server: SshServer) -> (r: Result<SshServer, GateError>)
    ensures
        crate::validate::server_check(server) is Err ==> r is Err && r->Err_0 == crate::validate::server_check(server)->Err_0,
        crate::validate::server_check(server) is Ok ==> r is Ok && normalized_server(r->Ok_0, server),
{
    match crate::validate::validate_server(&server) {
        Err(e) => {
            return Err(e);
        },
        Ok(()) => {},
    }
    let id = if crate::text::is_blank(server.id.as_str()) {
        crate::ids::new_id()
    } else {
        server.id
    };
    Ok(
        SshServer {
            id,
            name: crate::text::trimmed_string(server.name.as_str()),
            host: crate::text::trimmed_string(server.host.as_str()),
            port: server.port,
            username: crate::text::trimmed_string(server.username.as_str()),
            auth_type: server.auth_type,
            private_key_path: crate::text::trimmed_string(server.private_key_path.as_str()),
            remember_secret: server.remember_secret,
            host_key_fingerprint: server.host_key_fingerprint,
        },
    )
}

/// Another server already has this name, ignoring ASCII case.
pub open spec fn name_taken(servers: Seq<SshServer>, server: SshServer) -> bool {
    exists|j: int|
        0 <= j < servers.len() && eq_ignore_ascii_case(#[trigger] servers[j].name@, server.name@)
            && servers[j].id@ != server.id@
}

pub open spec fn existing_server(servers: Seq<SshServer>, id: Seq<char>) -> Option<SshServer> {
    match find_first(servers, server_has_id(id)) {
        Some(i) => Some(servers[i]),
        None => None,
    }
}

/// The secret given with a save, where it is not empty.
pub open spec fn given_secret(secret: Option<String>) -> Option<String> {
    match secret {
        Some(s) => if s@.len() > 0 {
            Some(s)
        } else {
            None
        },
        None => None,
    }
}

/// What a save does with the credential store.
pub open spec fn credential_plan(
    existing: Option<SshServer>,
    server: SshServer,
    secret: Option<String>,
) -> Result<CredentialAction, GateError> {
    if server.remember_secret {
        match given_secret(secret) {
            Some(s) => Ok(CredentialAction::Store(s)),
            None => {
                if existing matches Some(e) && e.remember_secret && e.auth_type == server.auth_type {
                    Ok(CredentialAction::RequireStored)
                } else {
                    Err(GateError::SecretRequired(server.auth_type))
                }
            },
        }
    } else if existing matches Some(e) && e.remember_secret {
        Ok(CredentialAction::Delete)
    } else {
        Ok(CredentialAction::Keep)
    }
}

/// `servers` with `server` replacing the first one of the same identifier,
/// or added at the end.
pub open spec fn upsert_server(servers: Seq<SshServer>, server: SshServer) -> Seq<SshServer> {
    match find_first(servers, server_has_id(server.id@)) {
        Some(i) => servers.update(i, server),
        None => servers.push(server),
    }
}

/// The identifiers of the given services.
pub open spec fn service_ids(services: Seq<WebService>) -> Set<Seq<char>> {
    Set::new(|k: Seq<char>| exists|j: int| 0 <= j < services.len() && #[trigger] services[j].id@ == k)
}

impl AppState {
    /// Whether another server already has the name of `server`, ignoring
    /// ASCII case.
    fn name_clash(&self, server: &SshServer) -> (r: bool)
        ensures
            r == name_taken(self.config.servers@, *server),
    {
        let mut i: usize = 0;
        while i < self.config.servers.len()
            invariant
                i <= self.config.servers@.len(),
                forall|j: int|
                    0 <= j < i ==> !(eq_ignore_ascii_case(
                        #[trigger] self.config.servers@[j].name@,
                        server.name@,
                    ) && self.config.servers@[j].id@ != server.id@),
            decreases self.config.servers@.len() - i,
        {
            let item = &self.config.servers[i];
            if crate::text::str_eq_ignore_case(item.name.as_str(), server.name.as_str()) && !str_eq(
                item.id.as_str(),
                server.id.as_str(),
            ) {
                assert(eq_ignore_ascii_case(self.config.servers@[i as int].name@, server.name@)
                    && self.config.servers@[i as int].id@ != server.id@);
                return true;
            }
            i = i + 1;
        }
        false
    }

    /// What a save of the normalised `server` needs from the credential
    /// store, or why it is refused.
    fn plan_credentials(&self, server: &SshServer, secret: Option<String>) -> (r: Result<
        CredentialAction,
        GateError,
    >)
        ensures
            name_taken(self.config.servers@, *server) ==> r == Err::<CredentialAction, GateError>(
                GateError::ServerNameExists,
            ),
            !name_taken(self.config.servers@, *server) ==> r == credential_plan(
                existing_server(self.config.servers@, server.id@),
                *server,
                secret,
            ),
    {
        if self.name_clash(server) {
            return Err(GateError::ServerNameExists);
        }
        let existing = self.server_index(server.id.as_str());
        proof {
            lemma_find_first(self.config.servers@, server_has_id(server.id@));
        }
        let secret = match secret {
            Some(s) => if s.as_str().is_empty() {
                None
            } else {
                Some(s)
            },
            None => None,
        };
        if server.remember_secret {
            match secret {
                Some(s) => Ok(CredentialAction::Store(s)),
                None => {
                    let can_keep = match existing {
                        Some(k) => self.config.servers[k].remember_secret
                            && self.config.servers[k].auth_type == server.auth_type,
                        None => false,
                    };
                    if can_keep {
                        Ok(CredentialAction::RequireStored)
                    } else {
                        Err(GateError::SecretRequired(server.auth_type))
                    }
                },
            }
        } else {
            let remembered = match existing {
                Some(k) => self.config.servers[k].remember_secret,
                None => false,
            };
            if remembered {
                Ok(CredentialAction::Delete)
            } else {
                Ok(CredentialAction::Keep)
            }
        }
    }

    /// The first half of saving a server, everything before the credential
    /// store is touched: checks the server, trims its name, host, user and
    /// key path, gives it an identifier if it has none, refuses a name that
    /// another server has (ignoring ASCII case), and decides what the
    /// credential store must do. Returns the server as it is to be saved.
    pub fn prepare_server(&self, server: SshServer, secret: Option<String>) -> (r: Result<
        (SshServer, CredentialAction),
        GateError,
    >)
        ensures
            crate::validate::server_check(server) is Err ==> r == Err::<
                (SshServer, CredentialAction),
                GateError,
            >(crate::validate::server_check(server)->Err_0),
            r matches Ok((n, a)) ==> normalized_server(n, server) && !name_taken(
                self.config.servers@,
                n,
            ) && credential_plan(existing_server(self.config.servers@, n.id@), n, secret) == Ok::<
                CredentialAction,
                GateError,
            >(a),
            crate::validate::server_check(server) is Ok && r is Err ==> exists|n: SshServer|
                normalized_server(n, server) && if name_taken(self.config.servers@, n) {
                    r->Err_0 == GateError::ServerNameExists
                } else {
                    credential_plan(existing_server(self.config.servers@, n.id@), n, secret) == Err::<
                        CredentialAction,
                        GateError,
                    >(r->Err_0)
                },
    {
        let ghost raw = server;
        let n = match normalize_server(server) {
            Err(e) => {
                return Err(e);
            },
            Ok(n) => n,
        };
        match self.plan_credentials(&n, secret) {
            Ok(a) => Ok((n, a)),
            Err(e) => {
                assert(normalized_server(n, raw));
                Err(e)
            },
        }
    }

    /// The second half of saving a server, once the credential store has
    /// done its part: stores the server (replacing the one with its
    /// identifier, or added at the end) and gives it a stopped runtime state
    /// if it has none. A server that fails the checks, or whose name another
    /// server has taken meanwhile, is refused and nothing changes.
    pub fn commit_server(&mut self, server: SshServer) -> (r: Result<(), GateError>)
        requires
            old(self).wf(),
        ensures
            final(self).wf(),
            crate::laws::server_ids_unique(old(self).config.servers@)
                && crate::laws::server_names_unique(old(self).config.servers@)
                ==> crate::laws::server_ids_unique(final(self).config.servers@)
                && crate::laws::server_names_unique(final(self).config.servers@),
            crate::validate::server_check(server) is Err ==> r == Err::<(), GateError>(
                crate::validate::server_check(server)->Err_0,
            ) && *final(self) == *old(self),
            crate::validate::server_check(server) is Ok && name_taken(old(self).config.servers@, server)
                ==> r == Err::<(), GateError>(GateError::ServerNameExists) && *final(self) == *old(self),
            crate::validate::server_check(server) is Ok && !name_taken(old(self).config.servers@, server)
                ==> {
                &&& r is Ok
                &&& old(self).states_cover_config() ==> final(self).states_cover_config()
                &&& final(self).config.servers@ == upsert_server(old(self).config.servers@, server)
                &&& final(self).config.services@ == old(self).config.services@
                &&& final(self).config.settings == old(self).config.settings
                &&& final(self).server_states@ == if old(self).server_states@.contains_key(server.id@) {
                    old(self).server_states@
                } else {
                    old(self).server_states@.insert(
                        server.id@,
                        RuntimeState { status: ConnectionStatus::Stopped, error: None },
                    )
                }
                &&& final(self).service_states == old(self).service_states
                &&& final(self).proxy_error == old(self).proxy_error
            },
    {
        match crate::validate::validate_server(&server) {
            Err(e) => {
                return Err(e);
            },
            Ok(()) => {},
        }
        if self.name_clash(&server) {
            return Err(GateError::ServerNameExists);
        }
        proof {
            if crate::laws::server_ids_unique(self.config.servers@)
                && crate::laws::server_names_unique(self.config.servers@) {
                crate::laws::lemma_save_server_keeps_servers_unique(self.config.servers@, server);
            }
        }
        let id = server.id.clone();
        match self.server_index(server.id.as_str()) {
            Some(i) => {
                self.config.servers.set(i, server);
            },
            None => {
                self.config.servers.push(server);
            },
        }
        self.server_states.insert_if_absent(id, RuntimeState::new(ConnectionStatus::Stopped));
        Ok(())
    }

    /// Whether the server keeps a secret in the credential store.
    pub fn secret_remembered(&self, server_id: &str) -> (r: bool)
        ensures
            r == (existing_server(self.config.servers@, server_id@) matches Some(s)
                && s.remember_secret),
    {
        match self.server_index(server_id) {
            Some(i) => self.config.servers[i].remember_secret,
            None => false,
        }
    }

    /// Removes a server, every service that goes through it, and their
    /// runtime states.
    pub fn remove_server(&mut self, server_id: &str)
        requires
            old(self).wf(),
        ensures
            final(self).wf(),
            final(self).config.servers@ == old(self).config.servers@.filter(
                server_other_than(server_id@),
            ),
            final(self).config.services@ == old(self).config.services@.filter(
                service_not_of(server_id@),
            ),
            final(self).config.settings == old(self).config.settings,
            final(self).server_states@ == old(self).server_states@.remove(server_id@),
            final(self).service_states@ == old(self).service_states@.remove_keys(
                service_ids(old(self).config.services@.filter(service_of(server_id@))),
            ),
            final(self).proxy_error == old(self).proxy_error,
    {
        let ghost keep_server = server_other_than(server_id@);
        let ghost keep_service = service_not_of(server_id@);
        let ghost gone = service_of(server_id@);
        let ghost old_servers = self.config.servers@;
        let ghost old_services = self.config.services@;
        let mut servers: Vec<SshServer> = Vec::new();
        let mut i: usize = 0;
        while i < self.config.servers.len()
            invariant
                i <= old_servers.len(),
                old_servers == self.config.servers@,
                keep_server == server_other_than(server_id@),
                servers@ == old_servers.take(i as int).filter(keep_server),
            decreases old_servers.len() - i,
        {
            let keep = !str_eq(self.config.servers[i].id.as_str(), server_id);
            assert(keep == keep_server(old_servers[i as int]));
            proof {
                assert(old_servers.take(i + 1) =~= old_servers.take(i as int).push(old_servers[i as int]));
                old_servers.take(i as int).lemma_filter_push(old_servers[i as int], keep_server);
            }
            if keep {
                servers.push(self.config.servers[i].clone());
            }
            i = i + 1;
        }
        assert(old_servers.take(old_servers.len() as int) =~= old_servers);
        let mut services: Vec<WebService> = Vec::new();
        let mut removed: Vec<String> = Vec::new();
        let mut i: usize = 0;
        while i < self.config.services.len()
            invariant
                i <= old_services.len(),
                old_services == self.config.services@,
                keep_service == service_not_of(server_id@),
                gone == service_of(server_id@),
                services@ == old_services.take(i as int).filter(keep_service),
                views(removed@) == ids_where(old_services.take(i as int), gone),
            decreases old_services.len() - i,
        {
            let svc = &self.config.services[i];
            let keep = !str_eq(svc.server_id.as_str(), server_id);
            assert(keep == keep_service(old_services[i as int]));
            assert(keep == !gone(old_services[i as int]));
            proof {
                assert(old_services.take(i + 1) =~= old_services.take(i as int).push(old_services[i as int]));
                old_services.take(i as int).lemma_filter_push(old_services[i as int], keep_service);
                old_services.take(i as int).lemma_filter_push(old_services[i as int], gone);
            }
            if keep {
                services.push(svc.clone());
                assert(views(removed@) =~= ids_where(old_services.take(i + 1), gone));
            } else {
                let ghost before = removed@;
                removed.push(svc.id.clone());
                proof {
                    let f = old_services.take(i as int).filter(gone);
                    assert(views(removed@) =~= views(before).push(old_services[i as int].id@));
                    assert(f.push(old_services[i as int]).map_values(|x: WebService| x.id@) =~= f.map_values(
                        |x: WebService| x.id@,
                    ).push(old_services[i as int].id@));
                }
                assert(views(removed@) =~= ids_where(old_services.take(i + 1), gone));
            }
            i = i + 1;
        }
        assert(old_services.take(old_services.len() as int) =~= old_services);
        self.config.servers = servers;
        self.config.services = services;
        self.server_states.remove(server_id);
        let ghost start = self.service_states@;
        let ghost mid_servers = self.config.servers@;
        let ghost mid_services = self.config.services@;
        let ghost mid_server_states = self.server_states;
        let mut k: usize = 0;
        while k < removed.len()
            invariant
                k <= removed@.len(),
                self.service_states.wf(),
                self.config.servers@ == mid_servers,
                self.config.services@ == mid_services,
                self.config.settings == old(self).config.settings,
                self.server_states == mid_server_states,
                self.proxy_error == old(self).proxy_error,
                self.service_states@ == start.remove_keys(views(removed@.take(k as int)).to_set()),
            decreases removed@.len() - k,
        {
            self.service_states.remove(removed[k].as_str());
            proof {
                let a = views(removed@.take(k as int)).to_set();
                let b = views(removed@.take(k + 1)).to_set();
                assert(views(removed@.take(k + 1)) =~= views(removed@.take(k as int)).push(removed@[k as int]@));
                views(removed@.take(k as int)).lemma_push_to_set_commute(removed@[k as int]@);
                assert(b =~= a.insert(removed@[k as int]@));
                assert(self.service_states@ =~= start.remove_keys(b));
            }
            k = k + 1;
        }
        proof {
            assert(removed@.take(removed@.len() as int) =~= removed@);
            let ids = views(removed@).to_set();
            let f = old_services.filter(gone);
            assert(ids =~= service_ids(f)) by {
                assert forall|key: Seq<char>| ids.contains(key) implies service_ids(f).contains(key) by {
                    let j = choose|j: int| 0 <= j < views(removed@).len() && views(removed@)[j] == key;
                    assert(f.map_values(|x: WebService| x.id@)[j] == key);
                    assert(f[j].id@ == key);
                }
                assert forall|key: Seq<char>| service_ids(f).contains(key) implies ids.contains(key) by {
                    let j = choose|j: int| 0 <= j < f.len() && #[trigger] f[j].id@ == key;
                    assert(views(removed@)[j] == f.map_values(|x: WebService| x.id@)[j]);
                    assert(views(removed@).contains(key));
                }
            }
        }
    }
}


// ---------------------------------------------------------------------------
// Services
// ---------------------------------------------------------------------------

/// `service` as it is saved: name and remote host trimmed, and a fresh
/// identifier where the given one is blank.
pub open spec fn normalized_service(n: WebService, s: WebService) -> bool {
    &&& n.name@ == trim(s.name@)
    &&& n.remote_host@ == trim(s.remote_host@)
    &&& n.server_id == s.server_id
    &&& n.remote_port == s.remote_port
    &&& n.domain == s.domain
    &&& n.desired_running == s.desired_running
    &&& if trim(s.id@).len() == 0 {
        crate::ids::is_uuid_v4_text(n.id@)
    } else {
        n.id == s.id
    }
}

/// Trims a service's name and remote host and gives it an identifier if it has none.
pub fn normalize_service(service: WebService) -> (r: WebService)
    ensures
        normalized_service(r, service),
{
    let id = if crate::text::is_blank(service.id.as_str()) {
        crate::ids::new_id()
    } else {
        service.id
    };
    WebService {
        id,
        server_id: service.server_id,
        name: crate::text::trimmed_string(service.name.as_str()),
        remote_host: crate::text::trimmed_string(service.remote_host.as_str()),
        remote_port: service.remote_port,
        domain: service.domain,
        desired_running: service.desired_running,
    }
}

/// The domain a service is saved under: derived from its and its server's
/// names where none was given, else the given one normalised.
pub open spec fn service_domain(service: WebService, server_name: Seq<char>) -> Seq<char> {
    if trim(service.domain@).len() == 0 {
        default_domain(service.name@, server_name)
    } else {
        normalized_domain(service.domain@)
    }
}

/// Another service already uses the domain, ignoring ASCII case.
pub open spec fn domain_taken(services: Seq<WebService>, id: Seq<char>, domain: Seq<char>) -> bool {
    exists|j: int|
        0 <= j < services.len() && eq_ignore_ascii_case(#[trigger] services[j].domain@, domain)
            && services[j].id@ != id
}

/// `services` with `service` replacing the first one of the same identifier
/// (keeping whether that one should run), or added at the end.
pub open spec fn upsert_service(services: Seq<WebService>, service: WebService) -> Seq<WebService> {
    match find_first(services, service_has_id(service.id@)) {
        Some(i) => services.update(
            i,
            WebService { desired_running: services[i].desired_running, ..service },
        ),
        None => services.push(service),
    }
}

/// `saved` is `service` under the domain `domain`.
pub open spec fn with_domain(saved: WebService, service: WebService, domain: Seq<char>) -> bool {
    &&& saved.id == service.id
    &&& saved.server_id == service.server_id
    &&& saved.name == service.name
    &&& saved.remote_host == service.remote_host
    &&& saved.remote_port == service.remote_port
    &&& saved.desired_running == service.desired_running
    &&& saved.domain@ == domain
}

/// What storing the (already trimmed) `service` does, from the state `before`
/// to the state `after` with the result `r`: the server must exist; the domain
/// is derived or normalised, must be valid and must not be used by another
/// service; an existing service with the same identifier is replaced and
/// keeps whether it should run; a new one gets a stopped runtime state.
pub open spec fn service_store_outcome(
    before: AppState,
    after: AppState,
    service: WebService,
    r: Result<(), GateError>,
) -> bool {
    match existing_server(before.config.servers@, service.server_id@) {
        None => r == Err::<(), GateError>(GateError::SelectedServerNotFound)
            && after.config == before.config && after.service_states
            == before.service_states,
        Some(server) => {
            let d = service_domain(service, server.name@);
            let check = crate::validate::service_fields_check(
                service.name@,
                service.remote_host@,
                d,
            );
            if check is Err {
                r == check && after.config == before.config
                    && after.service_states == before.service_states
            } else if domain_taken(before.config.services@, service.id@, d) {
                r is Err && r->Err_0 is DomainTaken && r->Err_0->DomainTaken_0@ == d
                    && after.config == before.config
                    && after.service_states == before.service_states
            } else {
                &&& r is Ok
                &&& crate::domain::domain_ok(d)
                &&& exists|saved: WebService|
                    with_domain(saved, service, d) && after.config.services@
                        == upsert_service(before.config.services@, saved)
                &&& after.service_states@ == if before.service_states@.contains_key(service.id@) {
                    before.service_states@
                } else {
                    before.service_states@.insert(
                        service.id@,
                        RuntimeState { status: ServiceStatus::Stopped, error: None },
                    )
                }
            }
        },
    }
}

impl AppState {
    /// Stores a service whose name and remote host are already trimmed and
    /// which has an identifier (see `service_store_outcome`).
    fn store_service(&mut self, service: WebService) -> (r: Result<(), GateError>)
        requires
            old(self).wf(),
        ensures
            final(self).wf(),
            old(self).states_cover_config() ==> final(self).states_cover_config(),
            final(self).proxy_error == old(self).proxy_error,
            final(self).config.servers@ == old(self).config.servers@,
            final(self).config.settings == old(self).config.settings,
            final(self).server_states == old(self).server_states,
            crate::laws::service_ids_unique(old(self).config.services@)
                && crate::laws::service_domains_unique(old(self).config.services@)
                ==> crate::laws::service_ids_unique(final(self).config.services@)
                && crate::laws::service_domains_unique(final(self).config.services@),
            service_store_outcome(*old(self), *final(self), service, r),
    {
        let pos = match self.server_index(service.server_id.as_str()) {
            Some(p) => p,
            None => {
                return Err(GateError::SelectedServerNotFound);
            },
        };
        let domain = if crate::text::is_blank(service.domain.as_str()) {
            crate::domain::default_service_domain(
                service.name.as_str(),
                self.config.servers[pos].name.as_str(),
            )
        } else {
            crate::domain::normalize_domain(service.domain.as_str())
        };
        let mut candidate = WebService {
            id: service.id,
            server_id: service.server_id,
            name: service.name,
            remote_host: service.remote_host,
            remote_port: service.remote_port,
            domain,
            desired_running: service.desired_running,
        };
        match crate::validate::validate_service(&candidate) {
            Err(e) => {
                return Err(e);
            },
            Ok(()) => {},
        }
        let mut i: usize = 0;
        #[verifier::loop_isolation(false)]
        while i < self.config.services.len()
            invariant
                i <= self.config.services@.len(),
                forall|j: int|
                    0 <= j < i ==> !(eq_ignore_ascii_case(
                        #[trigger] self.config.services@[j].domain@,
                        candidate.domain@,
                    ) && self.config.services@[j].id@ != candidate.id@),
            decreases self.config.services@.len() - i,
        {
            let item = &self.config.services[i];
            if crate::text::str_eq_ignore_case(item.domain.as_str(), candidate.domain.as_str())
                && !str_eq(item.id.as_str(), candidate.id.as_str()) {
                return Err(GateError::DomainTaken(candidate.domain.clone()));
            }
            i = i + 1;
        }
        let id = candidate.id.clone();
        let ghost saved = candidate;
        proof {
            if crate::laws::service_ids_unique(self.config.services@)
                && crate::laws::service_domains_unique(self.config.services@) {
                crate::laws::lemma_save_service_keeps_domains_unique(self.config.services@, saved);
            }
        }
        match self.service_index(candidate.id.as_str()) {
            Some(k) => {
                candidate.desired_running = self.config.services[k].desired_running;
                self.config.services.set(k, candidate);
            },
            None => {
                self.config.services.push(candidate);
            },
        }
        self.service_states.insert_if_absent(id, RuntimeState::new(ServiceStatus::Stopped));
        assert(with_domain(saved, service, saved.domain@));
        Ok(())
    }

    /// Saves a service: trims its name and remote host, gives it an
    /// identifier if it has none, then stores it as `service_store_outcome`
    /// says. Its server must exist; its domain is derived from the trimmed
    /// name and the server's name where none is given, else the given one is
    /// normalised; the trimmed fields and the domain must be valid; no other
    /// service may use the domain.
    pub fn save_service(&mut self, service: WebService) -> (r: Result<(), GateError>)
        requires
            old(self).wf(),
        ensures
            final(self).wf(),
            old(self).states_cover_config() ==> final(self).states_cover_config(),
            final(self).proxy_error == old(self).proxy_error,
            final(self).config.servers@ == old(self).config.servers@,
            final(self).config.settings == old(self).config.settings,
            final(self).server_states == old(self).server_states,
            crate::laws::service_ids_unique(old(self).config.services@)
                && crate::laws::service_domains_unique(old(self).config.services@)
                ==> crate::laws::service_ids_unique(final(self).config.services@)
                && crate::laws::service_domains_unique(final(self).config.services@),
            exists|n: WebService|
                normalized_service(n, service) && service_store_outcome(
                    *old(self),
                    *final(self),
                    n,
                    r,
                ),
    {
        let ghost raw = service;
        let n = normalize_service(service);
        let ghost trimmed = n;
        let r = self.store_service(n);
        assert(normalized_service(trimmed, raw));
        r
    }

    /// Removes a service and its runtime state; returns the server it went
    /// through, if it existed.
    fn drop_service(&mut self, service_id: &str) -> (r: Option<String>)
        requires
            old(self).wf(),
        ensures
            final(self).wf(),
            old(self).states_cover_config() ==> final(self).states_cover_config(),
            final(self).config.servers@ == old(self).config.servers@,
            final(self).config.services@ == old(self).config.services@.filter(
                service_other_than(service_id@),
            ),
            final(self).config.settings == old(self).config.settings,
            final(self).server_states == old(self).server_states,
            final(self).service_states@ == old(self).service_states@.remove(service_id@),
            final(self).proxy_error == old(self).proxy_error,
            match find_first(old(self).config.services@, service_has_id(service_id@)) {
                Some(i) => r == Some(old(self).config.services@[i].server_id),
                None => r is None,
            },
    {
        let server_id = match self.service_index(service_id) {
            Some(i) => Some(self.config.services[i].server_id.clone()),
            None => None,
        };
        let ghost keep = service_other_than(service_id@);
        let ghost old_services = self.config.services@;
        let mut services: Vec<WebService> = Vec::new();
        let mut i: usize = 0;
        while i < self.config.services.len()
            invariant
                i <= old_services.len(),
                old_services == self.config.services@,
                keep == service_other_than(service_id@),
                services@ == old_services.take(i as int).filter(keep),
            decreases old_services.len() - i,
        {
            let k = !str_eq(self.config.services[i].id.as_str(), service_id);
            assert(k == keep(old_services[i as int]));
            proof {
                assert(old_services.take(i + 1) =~= old_services.take(i as int).push(old_services[i as int]));
                old_services.take(i as int).lemma_filter_push(old_services[i as int], keep);
            }
            if k {
                services.push(self.config.services[i].clone());
            }
            i = i + 1;
        }
        assert(old_services.take(old_services.len() as int) =~= old_services);
        self.config.services = services;
        self.service_states.remove(service_id);
        proof {
            if old(self).states_cover_config() {
                let f = self.config.services@;
                assert(f == old_services.filter(keep));
                assert forall|i: int| 0 <= i < f.len() implies self.service_states@.contains_key(
                    #[trigger] f[i].id@,
                ) by {
                    assert(f.contains(f[i]));
                    old_services.lemma_filter_contains_rev(keep, f[i]);
                    old_services.lemma_filter_pred(keep, i);
                    assert(keep(f[i]));
                    let j = choose|j: int| 0 <= j < old_services.len() && old_services[j] == f[i];
                    assert(old(self).service_states@.contains_key(old_services[j].id@));
                }
                assert forall|i: int| 0 <= i < self.config.servers@.len() implies self.server_states@.contains_key(
                    #[trigger] self.config.servers@[i].id@,
                ) by {
                    assert(old(self).config.servers@[i] == self.config.servers@[i]);
                }
            }
        }
        server_id
    }

    /// Removes a service and its runtime state. Then, where no other service
    /// of its server should run and no terminal is open on it
    /// (`terminal_servers` lists the servers with an open terminal), the
    /// server is stopped. Returns the server the service went through, if it
    /// existed, and whether its session is to be closed.
    pub fn remove_service(&mut self, service_id: &str, terminal_servers: &Vec<String>) -> (r:
        Option<(String, bool)>)
        requires
            old(self).wf(),
        ensures
            final(self).wf(),
            old(self).states_cover_config() ==> final(self).states_cover_config(),
            final(self).config.servers@ == old(self).config.servers@,
            final(self).config.services@ == old(self).config.services@.filter(
                service_other_than(service_id@),
            ),
            final(self).config.settings == old(self).config.settings,
            final(self).service_states@ == old(self).service_states@.remove(service_id@),
            final(self).proxy_error == old(self).proxy_error,
            match find_first(old(self).config.services@, service_has_id(service_id@)) {
                Some(i) => {
                    let server_id = old(self).config.services@[i].server_id;
                    let close = !has_wanted_service(final(self).config.services@, server_id@)
                        && !views(terminal_servers@).contains(server_id@);
                    &&& r == Some((server_id, close))
                    &&& final(self).server_states@ == if close {
                        old(self).server_states@.insert(
                            server_id@,
                            RuntimeState { status: ConnectionStatus::Stopped, error: None },
                        )
                    } else {
                        old(self).server_states@
                    }
                },
                None => r is None && final(self).server_states == old(self).server_states,
            },
    {
        match self.drop_service(service_id) {
            Some(server_id) => {
                let has_terminal = holds_id(terminal_servers, server_id.as_str());
                let close = self.close_session_if_unused(server_id.as_str(), has_terminal);
                Some((server_id, close))
            },
            None => None,
        }
    }

    /// Saves the settings, which need a listen address and a reconnect delay.
    pub fn save_settings(&mut self, settings: Settings) -> (r: Result<(), GateError>)
        ensures
            (trim(settings.listen_address@).len() == 0 || settings.reconnect_delay_seconds == 0)
                ==> r == Err::<(), GateError>(GateError::InvalidSettings) && *final(self) == *old(self),
            !(trim(settings.listen_address@).len() == 0 || settings.reconnect_delay_seconds == 0)
                ==> r is Ok && final(self).config.settings == settings && final(self).config.servers
                == old(self).config.servers && final(self).config.services == old(self).config.services && final(self).server_states == old(self).server_states
                && final(self).service_states == old(self).service_states
                && final(self).proxy_error == old(self).proxy_error,
    {
        if crate::text::is_blank(settings.listen_address.as_str()) || settings.reconnect_delay_seconds
            == 0 {
            return Err(GateError::InvalidSettings);
        }
        self.config.settings = settings;
        Ok(())
    }

    /// Sets `desired_running` on the first service with the identifier;
    /// returns that service.
    fn set_service_desired(&mut self, service_id: &str, value: bool) -> (r: Option<WebService>)
        requires
            old(self).wf(),
        ensures
            final(self).wf(),
            final(self).config.servers@ == old(self).config.servers@,
            final(self).config.settings == old(self).config.settings,
            final(self).server_states == old(self).server_states,
            final(self).service_states == old(self).service_states,
            final(self).proxy_error == old(self).proxy_error,
            match find_first(old(self).config.services@, service_has_id(service_id@)) {
                Some(i) => r == Some(WebService { desired_running: value, ..old(self).config.services@[i] })
                    && final(self).config.services@ == old(self).config.services@.update(i, r->0),
                None => r is None && final(self).config.services@ == old(self).config.services@,
            },
    {
        match self.service_index(service_id) {
            Some(i) => {
                let mut svc = self.config.services[i].clone();
                svc.desired_running = value;
                let out = svc.clone();
                self.config.services.set(i, svc);
                Some(out)
            },
            None => None,
        }
    }

    /// A service is asked to start: it should run from now on and is starting.
    /// Returns the service, whose server is then connected.
    pub fn start_service(&mut self, service_id: &str) -> (r: Result<WebService, GateError>)
        requires
            old(self).wf(),
        ensures
            final(self).wf(),
            final(self).config.servers@ == old(self).config.servers@,
            final(self).config.settings == old(self).config.settings,
            final(self).server_states == old(self).server_states,
            final(self).proxy_error == old(self).proxy_error,
            match find_first(old(self).config.services@, service_has_id(service_id@)) {
                Some(i) => r == Ok::<WebService, GateError>(
                    WebService { desired_running: true, ..old(self).config.services@[i] },
                ) && final(self).config.services@ == old(self).config.services@.update(i, r->Ok_0)
                    && final(self).service_states@ == old(self).service_states@.insert(
                    service_id@,
                    RuntimeState { status: ServiceStatus::Starting, error: None },
                ),
                None => r == Err::<WebService, GateError>(GateError::ServiceNotFound) && final(self).config.services@ == old(self).config.services@ && final(self).service_states
                    == old(self).service_states,
            },
    {
        match self.set_service_desired(service_id, true) {
            Some(svc) => {
                self.service_states.insert(
                    service_id.to_owned(),
                    RuntimeState::new(ServiceStatus::Starting),
                );
                Ok(svc)
            },
            None => Err(GateError::ServiceNotFound),
        }
    }

    /// The connection that started the listed services has been attempted:
    /// on success each runs, on failure each is in error with the message.
    pub fn services_started(&mut self, ids: &Vec<String>, outcome: Result<(), String>)
        requires
            old(self).wf(),
        ensures
            final(self).wf(),
            final(self).config == old(self).config,
            final(self).server_states == old(self).server_states,
            final(self).proxy_error == old(self).proxy_error,
            final(self).service_states@ == set_all(
                old(self).service_states@,
                views(ids@),
                match outcome {
                    Ok(()) => RuntimeState { status: ServiceStatus::Running, error: None },
                    Err(m) => RuntimeState { status: ServiceStatus::Error, error: Some(m) },
                },
            ),
    {
        match outcome {
            Ok(()) => self.set_services_state(ids, ServiceStatus::Running, None),
            Err(m) => self.set_services_state(ids, ServiceStatus::Error, Some(m)),
        }
    }

    /// A service could not be reached: its state is an error with `message`.
    pub fn service_channel_failed(&mut self, service_id: &str, message: String)
        requires
            old(self).wf(),
        ensures
            final(self).wf(),
            final(self).config == old(self).config,
            final(self).server_states == old(self).server_states,
            final(self).proxy_error == old(self).proxy_error,
            final(self).service_states@ == old(self).service_states@.insert(
                service_id@,
                RuntimeState { status: ServiceStatus::Error, error: Some(message) },
            ),
    {
        self.service_states.insert(
            service_id.to_owned(),
            RuntimeState::error(ServiceStatus::Error, message),
        );
    }

    /// Sets `desired_running` on every service of the server; returns their
    /// identifiers in order.
    fn set_server_desired(&mut self, server_id: &str, value: bool) -> (r: Vec<String>)
        requires
            old(self).wf(),
        ensures
            final(self).wf(),
            final(self).config.servers@ == old(self).config.servers@,
            final(self).config.settings == old(self).config.settings,
            final(self).server_states == old(self).server_states,
            final(self).service_states == old(self).service_states,
            final(self).proxy_error == old(self).proxy_error,
            final(self).config.services@ == with_desired(old(self).config.services@, server_id@, value),
            views(r@) == ids_where(old(self).config.services@, service_of(server_id@)),
    {
        let ghost p = service_of(server_id@);
        let ghost s = self.config.services@;
        let mut r: Vec<String> = Vec::new();
        let mut i: usize = 0;
        while i < self.config.services.len()
            invariant
                i <= s.len(),
                self.wf(),
                self.config.services@.len() == s.len(),
                self.config.servers@ == old(self).config.servers@,
                self.config.settings == old(self).config.settings,
                self.server_states == old(self).server_states,
                self.service_states == old(self).service_states,
                self.proxy_error == old(self).proxy_error,
                s == old(self).config.services@,
                p == service_of(server_id@),
                forall|j: int| i <= j < s.len() ==> #[trigger] self.config.services@[j] == s[j],
                forall|j: int| 0 <= j < i ==> #[trigger] self.config.services@[j] == with_desired(s, server_id@, value)[j],
                views(r@) == ids_where(s.take(i as int), p),
            decreases s.len() - i,
        {
            let matches = str_eq(self.config.services[i].server_id.as_str(), server_id);
            assert(matches == p(s[i as int]));
            proof {
                assert(s.take(i + 1) =~= s.take(i as int).push(s[i as int]));
                s.take(i as int).lemma_filter_push(s[i as int], p);
            }
            if matches {
                let mut svc = self.config.services[i].clone();
                svc.desired_running = value;
                let ghost before = r@;
                r.push(svc.id.clone());
                self.config.services.set(i, svc);
                proof {
                    let f = s.take(i as int).filter(p);
                    assert(views(r@) =~= views(before).push(s[i as int].id@));
                    assert(f.push(s[i as int]).map_values(|x: WebService| x.id@) =~= f.map_values(
                        |x: WebService| x.id@,
                    ).push(s[i as int].id@));
                }
            }
            assert(views(r@) =~= ids_where(s.take(i + 1), p));
            i = i + 1;
        }
        assert(s.take(s.len() as int) =~= s);
        assert(self.config.services@ =~= with_desired(s, server_id@, value));
        r
    }

    /// Whether a server with the identifier exists.
    pub fn has_server(&self, server_id: &str) -> (r: bool)
        ensures
            r == (find_first(self.config.servers@, server_has_id(server_id@)) is Some),
    {
        self.server_index(server_id).is_some()
    }

    /// Every service of the server is asked to start: each should run and is
    /// starting. Returns their identifiers, whose server is then connected.
    pub fn start_server_services(&mut self, server_id: &str) -> (r: Result<Vec<String>, GateError>)
        requires
            old(self).wf(),
        ensures
            final(self).wf(),
            final(self).config.servers@ == old(self).config.servers@,
            final(self).config.settings == old(self).config.settings,
            final(self).server_states == old(self).server_states,
            final(self).proxy_error == old(self).proxy_error,
            find_first(old(self).config.servers@, server_has_id(server_id@)) is None ==> r
                == Err::<Vec<String>, GateError>(GateError::ServerNotFound) && final(self).config.services@ == old(self).config.services@ && final(self).service_states
                == old(self).service_states,
            find_first(old(self).config.servers@, server_has_id(server_id@)) is Some && ids_where(
                old(self).config.services@,
                service_of(server_id@),
            ).len() == 0 ==> r == Err::<Vec<String>, GateError>(GateError::NoServices) && final(self).config.services@ == old(self).config.services@ && final(self).service_states
                == old(self).service_states,
            find_first(old(self).config.servers@, server_has_id(server_id@)) is Some && ids_where(
                old(self).config.services@,
                service_of(server_id@),
            ).len() > 0 ==> r is Ok && views(r->Ok_0@) == ids_where(
                old(self).config.services@,
                service_of(server_id@),
            ) && final(self).config.services@ == with_desired(
                old(self).config.services@,
                server_id@,
                true,
            ) && final(self).service_states@ == set_all(
                old(self).service_states@,
                views(r->Ok_0@),
                RuntimeState { status: ServiceStatus::Starting, error: None },
            ),
    {
        if !self.has_server(server_id) {
            return Err(GateError::ServerNotFound);
        }
        let ids = self.set_server_desired(server_id, true);
        if ids.len() == 0 {
            proof {
                lemma_with_desired_no_match(old(self).config.services@, server_id@, true);
            }
            return Err(GateError::NoServices);
        }
        self.set_services_state(&ids, ServiceStatus::Starting, None);
        Ok(ids)
    }

    /// A service is asked to stop: it should no longer run and is stopped.
    /// Then, where no other service of its server should run and no terminal
    /// is open on it (`terminal_servers` lists the servers with an open
    /// terminal), the server is stopped. Returns the server and whether its
    /// session is to be closed.
    pub fn stop_service(&mut self, service_id: &str, terminal_servers: &Vec<String>) -> (r: Result<
        (String, bool),
        GateError,
    >)
        requires
            old(self).wf(),
        ensures
            final(self).wf(),
            final(self).config.servers@ == old(self).config.servers@,
            final(self).config.settings == old(self).config.settings,
            final(self).proxy_error == old(self).proxy_error,
            match find_first(old(self).config.services@, service_has_id(service_id@)) {
                Some(i) => {
                    let server_id = old(self).config.services@[i].server_id;
                    let services = old(self).config.services@.update(
                        i,
                        WebService { desired_running: false, ..old(self).config.services@[i] },
                    );
                    let close = !has_wanted_service(services, server_id@) && !views(
                        terminal_servers@,
                    ).contains(server_id@);
                    &&& r == Ok::<(String, bool), GateError>((server_id, close))
                    &&& final(self).config.services@ == services
                    &&& final(self).service_states@ == old(self).service_states@.insert(
                        service_id@,
                        RuntimeState { status: ServiceStatus::Stopped, error: None },
                    )
                    &&& final(self).server_states@ == if close {
                        old(self).server_states@.insert(
                            server_id@,
                            RuntimeState { status: ConnectionStatus::Stopped, error: None },
                        )
                    } else {
                        old(self).server_states@
                    }
                },
                None => r == Err::<(String, bool), GateError>(GateError::ServiceNotFound)
                    && final(self).config.services@ == old(self).config.services@
                    && final(self).service_states == old(self).service_states
                    && final(self).server_states == old(self).server_states,
            },
    {
        match self.set_service_desired(service_id, false) {
            Some(svc) => {
                self.service_states.insert(
                    service_id.to_owned(),
                    RuntimeState::new(ServiceStatus::Stopped),
                );
                let has_terminal = holds_id(terminal_servers, svc.server_id.as_str());
                let close = self.close_session_if_unused(svc.server_id.as_str(), has_terminal);
                Ok((svc.server_id, close))
            },
            None => Err(GateError::ServiceNotFound),
        }
    }

    /// Every service of the server is asked to stop: none should run and
    /// each is stopped. Then, where no terminal is open on the server
    /// (`terminal_servers` lists the servers with an open terminal), the
    /// server is stopped too. The result says whether its session is to be
    /// closed.
    pub fn stop_server_services(&mut self, server_id: &str, terminal_servers: &Vec<String>) -> (r:
        Result<bool, GateError>)
        requires
            old(self).wf(),
        ensures
            final(self).wf(),
            final(self).config.servers@ == old(self).config.servers@,
            final(self).config.settings == old(self).config.settings,
            final(self).proxy_error == old(self).proxy_error,
            find_first(old(self).config.servers@, server_has_id(server_id@)) is None ==> r
                == Err::<bool, GateError>(GateError::ServerNotFound) && final(self).config.services@ == old(self).config.services@ && final(self).service_states
                == old(self).service_states && final(self).server_states == old(self).server_states,
            find_first(old(self).config.servers@, server_has_id(server_id@)) is Some && ids_where(
                old(self).config.services@,
                service_of(server_id@),
            ).len() == 0 ==> r == Err::<bool, GateError>(GateError::NoServices) && final(self).config.services@ == old(self).config.services@ && final(self).service_states
                == old(self).service_states && final(self).server_states == old(self).server_states,
            find_first(old(self).config.servers@, server_has_id(server_id@)) is Some && ids_where(
                old(self).config.services@,
                service_of(server_id@),
            ).len() > 0 ==> r == Ok::<bool, GateError>(!views(terminal_servers@).contains(server_id@))
                && final(self).config.services@ == with_desired(
                old(self).config.services@,
                server_id@,
                false,
            ) && final(self).service_states@ == set_all(
                old(self).service_states@,
                ids_where(old(self).config.services@, service_of(server_id@)),
                RuntimeState { status: ServiceStatus::Stopped, error: None },
            ) && final(self).server_states@ == if r->Ok_0 {
                old(self).server_states@.insert(
                    server_id@,
                    RuntimeState { status: ConnectionStatus::Stopped, error: None },
                )
            } else {
                old(self).server_states@
            },
    {
        if !self.has_server(server_id) {
            return Err(GateError::ServerNotFound);
        }
        let ids = self.set_server_desired(server_id, false);
        if ids.len() == 0 {
            proof {
                lemma_with_desired_no_match(old(self).config.services@, server_id@, false);
            }
            return Err(GateError::NoServices);
        }
        self.set_services_state(&ids, ServiceStatus::Stopped, None);
        proof {
            crate::laws::lemma_disconnect_leaves_nothing_wanted(old(self).config.services@, server_id@);
        }
        let has_terminal = holds_id(terminal_servers, server_id);
        let close = self.close_session_if_unused(server_id, has_terminal);
        Ok(close)
    }

    /// The user disconnects a server: none of its services should run any
    /// longer, and the server is stopped.
    pub fn disconnect_server(&mut self, server_id: &str)
        requires
            old(self).wf(),
        ensures
            final(self).wf(),
            final(self).config.servers@ == old(self).config.servers@,
            final(self).config.settings == old(self).config.settings,
            final(self).config.services@ == with_desired(old(self).config.services@, server_id@, false),
            final(self).server_states@ == old(self).server_states@.insert(
                server_id@,
                RuntimeState { status: ConnectionStatus::Stopped, error: None },
            ),
            final(self).service_states@ == set_all(
                old(self).service_states@,
                ids_where(
                    with_desired(old(self).config.services@, server_id@, false),
                    wanted_service_of(server_id@),
                ),
                RuntimeState { status: ServiceStatus::Stopped, error: None },
            ),
            final(self).proxy_error == old(self).proxy_error,
    {
        let _ = self.set_server_desired(server_id, false);
        self.server_states.insert(server_id.to_owned(), RuntimeState::new(ConnectionStatus::Stopped));
        self.set_server_services_state(server_id, ServiceStatus::Stopped, None);
    }
}

/// Where a server has no services, setting `desired_running` on them changes nothing.
proof fn lemma_with_desired_no_match(services: Seq<WebService>, server_id: Seq<char>, value: bool)
    requires
        ids_where(services, service_of(server_id)).len() == 0,
    ensures
        with_desired(services, server_id, value) == services,
{
    let p = service_of(server_id);
    assert forall|j: int| 0 <= j < services.len() implies !p(#[trigger] services[j]) by {
        if p(services[j]) {
            services.lemma_filter_contains(p, j);
        }
    }
    assert(with_desired(services, server_id, value) =~= services);
}


// ---------------------------------------------------------------------------
// Sessions
// ---------------------------------------------------------------------------

/// What follows when the SSH session of a server has been lost.
#[derive(Debug, Clone, Copy, PartialEq, Eq, Structural)]
pub enum SessionLoss {
    /// No service of the server should run: the server is stopped.
    Stopped,
    /// The server no longer exists: nothing to do.
    ServerGone,
    /// The password is not remembered: the server is in error and the user
    /// must reconnect.
    PasswordNeeded,
    /// Reconnect after the configured delay.
    Reconnect,
}

pub open spec fn lost_password_message() -> Seq<char> {
    "SSH 已断开；密码未保存，请手动重新连接"@
}

pub open spec fn restore_password_message() -> Seq<char> {
    "未保存 SSH 密码，请手动重新连接"@
}

/// A service that should run and is published under `host`.
pub open spec fn serves_host(host: Seq<char>) -> spec_fn(WebService) -> bool {
    |s: WebService| s.desired_running && eq_ignore_ascii_case(s.domain@, host)
}

/// Whether a server is reconnected on its own: key servers always, password
/// servers only with a remembered password.
pub open spec fn reconnects_alone(server: SshServer) -> bool {
    server.auth_type == AuthType::Key || server.remember_secret
}

/// The servers after a connection to `server` saw the host key `observed`:
/// where no key was known for it, the one seen is recorded.
pub open spec fn record_fingerprint(
    servers: Seq<SshServer>,
    server: SshServer,
    observed: Option<String>,
) -> Seq<SshServer> {
    if server.host_key_fingerprint is None && observed is Some {
        match find_first(servers, server_has_id(server.id@)) {
            Some(i) => servers.update(i, SshServer { host_key_fingerprint: observed, ..servers[i] }),
            None => servers,
        }
    } else {
        servers
    }
}

/// What the loss of the session of `server_id` does, from the state
/// `before` to the state `after` with the result `r`.
pub open spec fn session_loss_outcome(
    before: AppState,
    after: AppState,
    server_id: Seq<char>,
    r: SessionLoss,
) -> bool {
    &&& !has_wanted_service(before.config.services@, server_id) ==> r == SessionLoss::Stopped
        && after.server_states@ == before.server_states@.insert(
        server_id,
        RuntimeState { status: ConnectionStatus::Stopped, error: None },
    ) && after.service_states == before.service_states
    &&& has_wanted_service(before.config.services@, server_id) ==> match existing_server(
        before.config.servers@,
        server_id,
    ) {
        None => r == SessionLoss::ServerGone && after.server_states
            == before.server_states && after.service_states
            == before.service_states,
        Some(s) => if reconnects_alone(s) {
            r == SessionLoss::Reconnect && after.server_states
                == before.server_states && after.service_states
                == before.service_states
        } else {
            &&& r == SessionLoss::PasswordNeeded
            &&& exists|m: String|
                m@ == lost_password_message() && after.server_states@ == before.server_states@.insert(
                    server_id,
                    RuntimeState { status: ConnectionStatus::Error, error: Some(m) },
                ) && after.service_states@ == set_all(
                    before.service_states@,
                    ids_where(before.config.services@, wanted_service_of(server_id)),
                    RuntimeState { status: ServiceStatus::Error, error: Some(m) },
                )
        },
    }
}

impl AppState {
    /// The server to connect to.
    pub fn connect_target(&self, server_id: &str) -> (r: Result<SshServer, GateError>)
        ensures
            match existing_server(self.config.servers@, server_id@) {
                Some(s) => r == Ok::<SshServer, GateError>(s),
                None => r == Err::<SshServer, GateError>(GateError::ServerNotFound),
            },
    {
        match self.server_index(server_id) {
            Some(i) => Ok(self.config.servers[i].clone()),
            None => Err(GateError::ServerNotFound),
        }
    }

    /// A connection is up and authenticated. On a server that had no known
    /// host key, the key seen on this connection is recorded (the result says
    /// whether it was). The server is connected and its wanted services run.
    pub fn connection_established(&mut self, server: &SshServer, observed: Option<String>) -> (r: bool)
        requires
            old(self).wf(),
        ensures
            final(self).wf(),
            r == (server.host_key_fingerprint is None && observed is Some),
            final(self).config.services@ == old(self).config.services@,
            final(self).config.settings == old(self).config.settings,
            final(self).config.servers@ == record_fingerprint(
                old(self).config.servers@,
                *server,
                observed,
            ),
            final(self).server_states@ == old(self).server_states@.insert(
                server.id@,
                RuntimeState { status: ConnectionStatus::Connected, error: None },
            ),
            final(self).service_states@ == set_all(
                old(self).service_states@,
                ids_where(old(self).config.services@, wanted_service_of(server.id@)),
                RuntimeState { status: ServiceStatus::Running, error: None },
            ),
            final(self).proxy_error == old(self).proxy_error,
    {
        let record = server.host_key_fingerprint.is_none() && observed.is_some();
        if record {
            match self.server_index(server.id.as_str()) {
                Some(i) => {
                    let mut saved = self.config.servers[i].clone();
                    saved.host_key_fingerprint = observed;
                    self.config.servers.set(i, saved);
                },
                None => {},
            }
        }
        self.server_states.insert(
            server.id.clone(),
            RuntimeState::new(ConnectionStatus::Connected),
        );
        self.set_server_services_state(server.id.as_str(), ServiceStatus::Running, None);
        record
    }

    /// Decides what follows the loss of a server's session, and records it.
    pub fn after_session_lost(&mut self, server_id: &str) -> (r: SessionLoss)
        requires
            old(self).wf(),
        ensures
            final(self).wf(),
            final(self).config == old(self).config,
            final(self).proxy_error == old(self).proxy_error,
            session_loss_outcome(*old(self), *final(self), server_id@, r),
    {
        if !self.has_running_app(server_id) {
            self.server_states.insert(
                server_id.to_owned(),
                RuntimeState::new(ConnectionStatus::Stopped),
            );
            return SessionLoss::Stopped;
        }
        let i = match self.server_index(server_id) {
            Some(i) => i,
            None => {
                return SessionLoss::ServerGone;
            },
        };
        let server = &self.config.servers[i];
        if server.auth_type == AuthType::Password && !server.remember_secret {
            let message = String::from_str("SSH 已断开；密码未保存，请手动重新连接");
            self.connection_failed(server_id, false, message);
            return SessionLoss::PasswordNeeded;
        }
        SessionLoss::Reconnect
    }

    /// The delay before each reconnection attempt, in seconds.
    pub fn reconnect_delay(&self) -> (r: u64)
        ensures
            r == self.config.settings.reconnect_delay_seconds,
    {
        self.config.settings.reconnect_delay_seconds
    }

    /// Closes the server's session where nothing needs it: no service of the
    /// server should run and no terminal is open on it. The result says
    /// whether the session is to be closed; then the server is stopped.
    pub fn close_session_if_unused(&mut self, server_id: &str, has_terminal: bool) -> (r: bool)
        requires
            old(self).wf(),
        ensures
            final(self).wf(),
            r == (!has_wanted_service(old(self).config.services@, server_id@) && !has_terminal),
            final(self).config == old(self).config,
            final(self).service_states == old(self).service_states,
            final(self).proxy_error == old(self).proxy_error,
            final(self).server_states@ == if r {
                old(self).server_states@.insert(
                    server_id@,
                    RuntimeState { status: ConnectionStatus::Stopped, error: None },
                )
            } else {
                old(self).server_states@
            },
    {
        if self.has_running_app(server_id) || has_terminal {
            return false;
        }
        self.server_states.insert(server_id.to_owned(), RuntimeState::new(ConnectionStatus::Stopped));
        true
    }

    /// The first service that should run and is published under `host`
    /// (ignoring ASCII case).
    pub fn find_running_service(&self, host: &str) -> (r: Option<WebService>)
        ensures
            match find_first(self.config.services@, serves_host(host@)) {
                Some(i) => r == Some(self.config.services@[i]),
                None => r is None,
            },
    {
        let mut i: usize = 0;
        while i < self.config.services.len()
            invariant
                i <= self.config.services@.len(),
                forall|j: int| 0 <= j < i ==> !serves_host(host@)(#[trigger] self.config.services@[j]),
            decreases self.config.services@.len() - i,
        {
            let s = &self.config.services[i];
            if s.desired_running && crate::text::str_eq_ignore_case(s.domain.as_str(), host) {
                proof {
                    lemma_find_first_at(self.config.services@, serves_host(host@), i as int);
                }
                return Some(s.clone());
            }
            i = i + 1;
        }
        proof {
            lemma_find_first_none(self.config.services@, serves_host(host@));
        }
        None
    }

    /// A channel to a service has opened: the service runs. The result says
    /// whether its state changed.
    pub fn channel_opened(&mut self, service_id: &str) -> (r: bool)
        requires
            old(self).wf(),
        ensures
            final(self).wf(),
            r == !(old(self).service_states@.contains_key(service_id@) && old(self).service_states@[service_id@].status == ServiceStatus::Running),
            final(self).config == old(self).config,
            final(self).server_states == old(self).server_states,
            final(self).proxy_error == old(self).proxy_error,
            final(self).service_states@ == if r {
                old(self).service_states@.insert(
                    service_id@,
                    RuntimeState { status: ServiceStatus::Running, error: None },
                )
            } else {
                old(self).service_states@
            },
    {
        let should_emit = match self.service_states.get(service_id) {
            Some(state) => state.status != ServiceStatus::Running,
            None => true,
        };
        if should_emit {
            self.service_states.insert(service_id.to_owned(), RuntimeState::new(ServiceStatus::Running));
        }
        should_emit
    }

    /// Whether a lost session may be reopened without the user: only for a
    /// key server.
    pub fn session_policy(&self, server_id: &str) -> (r: Result<(), GateError>)
        ensures
            match existing_server(self.config.servers@, server_id@) {
                None => r == Err::<(), GateError>(GateError::ServerNotFound),
                Some(s) => if s.auth_type == AuthType::Password {
                    r == Err::<(), GateError>(GateError::SessionNeedsPassword)
                } else {
                    r is Ok
                },
            },
    {
        match self.server_index(server_id) {
            None => Err(GateError::ServerNotFound),
            Some(i) => if self.config.servers[i].auth_type == AuthType::Password {
                Err(GateError::SessionNeedsPassword)
            } else {
                Ok(())
            },
        }
    }

    /// Forgets the recorded host key of a server, so that the next
    /// connection records the key it sees.
    pub fn clear_server_fingerprint(&mut self, server_id: &str) -> (r: Result<(), GateError>)
        requires
            old(self).wf(),
        ensures
            final(self).wf(),
            final(self).config.services@ == old(self).config.services@,
            final(self).config.settings == old(self).config.settings,
            final(self).server_states == old(self).server_states,
            final(self).service_states == old(self).service_states,
            final(self).proxy_error == old(self).proxy_error,
            match find_first(old(self).config.servers@, server_has_id(server_id@)) {
                Some(i) => r is Ok && final(self).config.servers@ == old(self).config.servers@.update(
                    i,
                    SshServer { host_key_fingerprint: None, ..old(self).config.servers@[i] },
                ),
                None => r == Err::<(), GateError>(GateError::ServerNotFound) && final(self).config.servers@
                    == old(self).config.servers@,
            },
    {
        match self.server_index(server_id) {
            Some(i) => {
                let mut saved = self.config.servers[i].clone();
                saved.host_key_fingerprint = None;
                self.config.servers.set(i, saved);
                Ok(())
            },
            None => Err(GateError::ServerNotFound),
        }
    }
}


// ---------------------------------------------------------------------------
// Importing and restoring
// ---------------------------------------------------------------------------

pub open spec fn name_in(servers: Seq<SshServer>, name: Seq<char>) -> bool {
    exists|j: int| 0 <= j < servers.len() && eq_ignore_ascii_case(#[trigger] servers[j].name@, name)
}

/// One imported server is added unless a server of that name (ignoring
/// ASCII case) is already there.
pub open spec fn import_step(st: (Seq<SshServer>, Seq<SshServer>), s: SshServer) -> (
    Seq<SshServer>,
    Seq<SshServer>,
) {
    if name_in(st.0, s.name@) {
        st
    } else {
        (st.0.push(s), st.1.push(s))
    }
}

/// The servers after importing `imported`, and those that were added.
pub open spec fn import_fold(servers: Seq<SshServer>, imported: Seq<SshServer>) -> (
    Seq<SshServer>,
    Seq<SshServer>,
)
    decreases imported.len(),
{
    if imported.len() == 0 {
        (servers, Seq::empty())
    } else {
        import_step(import_fold(servers, imported.drop_last()), imported.last())
    }
}

pub open spec fn server_ids(servers: Seq<SshServer>) -> Seq<Seq<char>> {
    servers.map_values(|s: SshServer| s.id@)
}

/// The servers that have a service that should run, each once, in the order
/// of their first such service.
pub open spec fn wanted_servers(services: Seq<WebService>) -> Seq<Seq<char>>
    decreases services.len(),
{
    if services.len() == 0 {
        Seq::empty()
    } else {
        let acc = wanted_servers(services.drop_last());
        let s = services.last();
        if s.desired_running && !acc.contains(s.server_id@) {
            acc.push(s.server_id@)
        } else {
            acc
        }
    }
}

/// Restoring walks the servers in `ids`: those that reconnect alone are to
/// be connected; the services of the others are put in error with `message`.
pub open spec fn restore_fold(
    servers: Seq<SshServer>,
    services: Seq<WebService>,
    states: Map<Seq<char>, RuntimeState<ServiceStatus>>,
    ids: Seq<Seq<char>>,
    message: String,
) -> (Map<Seq<char>, RuntimeState<ServiceStatus>>, Seq<Seq<char>>)
    decreases ids.len(),
{
    if ids.len() == 0 {
        (states, Seq::empty())
    } else {
        let st = restore_fold(servers, services, states, ids.drop_last(), message);
        let id = ids.last();
        match existing_server(servers, id) {
            None => st,
            Some(s) => if reconnects_alone(s) {
                (st.0, st.1.push(id))
            } else {
                (
                    set_all(
                        st.0,
                        ids_where(services, wanted_service_of(id)),
                        RuntimeState { status: ServiceStatus::Error, error: Some(message) },
                    ),
                    st.1,
                )
            },
        }
    }
}

/// What `set_all` holds: the old keys and the listed ones.
pub proof fn lemma_set_all_keys<T>(
    m: Map<Seq<char>, RuntimeState<T>>,
    ids: Seq<Seq<char>>,
    state: RuntimeState<T>,
    k: Seq<char>,
)
    ensures
        set_all(m, ids, state).contains_key(k) <==> (m.contains_key(k) || ids.contains(k)),
    decreases ids.len(),
{
    if ids.len() > 0 {
        lemma_set_all_keys(m, ids.drop_last(), state, k);
        if ids.drop_last().contains(k) {
            let j = choose|j: int| 0 <= j < ids.drop_last().len() && ids.drop_last()[j] == k;
            assert(ids[j] == k);
        }
        if ids.contains(k) && k != ids.last() {
            let j = choose|j: int| 0 <= j < ids.len() && ids[j] == k;
            assert(ids.drop_last()[j] == k);
        }
        if k == ids.last() {
            assert(ids[ids.len() - 1] == k);
        }
    }
}

/// The servers after an import are the old ones followed by those added.
pub proof fn lemma_import_fold_parts(servers: Seq<SshServer>, imported: Seq<SshServer>)
    ensures
        import_fold(servers, imported).0 == servers + import_fold(servers, imported).1,
    decreases imported.len(),
{
    if imported.len() > 0 {
        lemma_import_fold_parts(servers, imported.drop_last());
        let st = import_fold(servers, imported.drop_last());
        if !name_in(st.0, imported.last().name@) {
            assert(st.0.push(imported.last()) =~= servers + st.1.push(imported.last()));
        }
    } else {
        assert(servers + Seq::<SshServer>::empty() =~= servers);
    }
}

impl AppState {
    /// Adds the imported servers whose names (ignoring ASCII case) are new,
    /// each with a stopped state; returns those that were added.
    pub fn import_servers(&mut self, imported: Vec<SshServer>) -> (r: Vec<SshServer>)
        requires
            old(self).wf(),
        ensures
            final(self).wf(),
            old(self).states_cover_config() ==> final(self).states_cover_config(),
            final(self).config.servers@ == import_fold(old(self).config.servers@, imported@).0,
            r@ == import_fold(old(self).config.servers@, imported@).1,
            final(self).config.services@ == old(self).config.services@,
            final(self).config.settings == old(self).config.settings,
            final(self).server_states@ == set_all(
                old(self).server_states@,
                server_ids(r@),
                RuntimeState { status: ConnectionStatus::Stopped, error: None },
            ),
            final(self).service_states == old(self).service_states,
            final(self).proxy_error == old(self).proxy_error,
    {
        let mut added: Vec<SshServer> = Vec::new();
        let mut i: usize = 0;
        while i < imported.len()
            invariant
                i <= imported@.len(),
                self.wf(),
                self.config.services@ == old(self).config.services@,
                self.config.settings == old(self).config.settings,
                self.server_states == old(self).server_states,
                self.service_states == old(self).service_states,
                self.proxy_error == old(self).proxy_error,
                (self.config.servers@, added@) == import_fold(
                    old(self).config.servers@,
                    imported@.take(i as int),
                ),
            decreases imported@.len() - i,
        {
            let candidate = &imported[i];
            let mut exists = false;
            let mut j: usize = 0;
            while j < self.config.servers.len()
                invariant
                    j <= self.config.servers@.len(),
                    !exists ==> forall|k: int|
                        0 <= k < j ==> !eq_ignore_ascii_case(
                            #[trigger] self.config.servers@[k].name@,
                            candidate.name@,
                        ),
                    exists ==> name_in(self.config.servers@, candidate.name@),
                decreases self.config.servers@.len() - j,
            {
                if crate::text::str_eq_ignore_case(
                    self.config.servers[j].name.as_str(),
                    candidate.name.as_str(),
                ) {
                    exists = true;
                }
                j = j + 1;
            }
            assert(imported@.take(i + 1).drop_last() =~= imported@.take(i as int));
            assert(imported@.take(i + 1).last() == imported@[i as int]);
            if !exists {
                self.config.servers.push(candidate.clone());
                added.push(candidate.clone());
            }
            i = i + 1;
        }
        assert(imported@.take(imported@.len() as int) =~= imported@);
        let ghost start = self.server_states@;
        let mut k: usize = 0;
        while k < added.len()
            invariant
                k <= added@.len(),
                self.wf(),
                self.config.servers@ == import_fold(old(self).config.servers@, imported@).0,
                added@ == import_fold(old(self).config.servers@, imported@).1,
                self.config.services@ == old(self).config.services@,
                self.config.settings == old(self).config.settings,
                self.service_states == old(self).service_states,
                self.proxy_error == old(self).proxy_error,
                start == old(self).server_states@,
                self.server_states@ == set_all(
                    start,
                    server_ids(added@.take(k as int)),
                    RuntimeState { status: ConnectionStatus::Stopped, error: None },
                ),
            decreases added@.len() - k,
        {
            self.server_states.insert(added[k].id.clone(), RuntimeState::new(ConnectionStatus::Stopped));
            assert(server_ids(added@.take(k + 1)).drop_last() =~= server_ids(added@.take(k as int)));
            k = k + 1;
        }
        assert(added@.take(added@.len() as int) =~= added@);
        proof {
            if old(self).states_cover_config() {
                lemma_import_fold_parts(old(self).config.servers@, imported@);
                let n = old(self).config.servers@.len();
                let all = self.config.servers@;
                assert forall|i: int| 0 <= i < all.len() implies self.server_states@.contains_key(
                    #[trigger] all[i].id@,
                ) by {
                    lemma_set_all_keys(
                        old(self).server_states@,
                        server_ids(added@),
                        RuntimeState { status: ConnectionStatus::Stopped, error: None },
                        all[i].id@,
                    );
                    if i < n {
                        assert(all[i] == old(self).config.servers@[i]);
                    } else {
                        assert(all[i] == added@[i - n]);
                        assert(server_ids(added@)[i - n] == all[i].id@);
                    }
                }
            }
        }
        added
    }

    /// The servers that have a service that should run, each once.
    fn wanted_server_list(&self) -> (r: Vec<String>)
        ensures
            views(r@) == wanted_servers(self.config.services@),
    {
        let ghost s = self.config.services@;
        let mut r: Vec<String> = Vec::new();
        let mut i: usize = 0;
        while i < self.config.services.len()
            invariant
                i <= s.len(),
                s == self.config.services@,
                views(r@) == wanted_servers(s.take(i as int)),
            decreases s.len() - i,
        {
            let svc = &self.config.services[i];
            assert(s.take(i + 1).drop_last() =~= s.take(i as int));
            assert(s.take(i + 1).last() == s[i as int]);
            if svc.desired_running {
                let mut seen = false;
                let mut k: usize = 0;
                while k < r.len()
                    invariant
                        k <= r@.len(),
                        seen <==> exists|m: int| 0 <= m < k && #[trigger] views(r@)[m] == svc.server_id@,
                    decreases r@.len() - k,
                {
                    assert(views(r@)[k as int] == r@[k as int]@);
                    if str_eq(r[k].as_str(), svc.server_id.as_str()) {
                        seen = true;
                    }
                    k = k + 1;
                }
                if !seen {
                    let ghost before = r@;
                    r.push(svc.server_id.clone());
                    assert(views(r@) =~= views(before).push(svc.server_id@));
                }
            }
            i = i + 1;
        }
        assert(s.take(s.len() as int) =~= s);
        r
    }

    /// Restores what should run after start-up, when that is enabled: the
    /// servers to be connected are returned; the services of password servers
    /// whose password is not remembered are put in error.
    pub fn restore_plan(&mut self) -> (r: Vec<String>)
        requires
            old(self).wf(),
        ensures
            final(self).wf(),
            final(self).config == old(self).config,
            final(self).server_states == old(self).server_states,
            final(self).proxy_error == old(self).proxy_error,
            !old(self).config.settings.auto_start_services ==> r@.len() == 0 && final(self).service_states
                == old(self).service_states,
            old(self).config.settings.auto_start_services ==> exists|m: String|
                m@ == restore_password_message() && views(r@) == restore_fold(
                    old(self).config.servers@,
                    old(self).config.services@,
                    old(self).service_states@,
                    wanted_servers(old(self).config.services@),
                    m,
                ).1 && final(self).service_states@ == restore_fold(
                    old(self).config.servers@,
                    old(self).config.services@,
                    old(self).service_states@,
                    wanted_servers(old(self).config.services@),
                    m,
                ).0,
    {
        if !self.config.settings.auto_start_services {
            return Vec::new();
        }
        let ids = self.wanted_server_list();
        let message = String::from_str("未保存 SSH 密码，请手动重新连接");
        let ghost start = self.service_states@;
        let mut connect: Vec<String> = Vec::new();
        let mut i: usize = 0;
        while i < ids.len()
            invariant
                i <= ids@.len(),
                self.wf(),
                self.config == old(self).config,
                self.server_states == old(self).server_states,
                self.proxy_error == old(self).proxy_error,
                start == old(self).service_states@,
                views(ids@) == wanted_servers(old(self).config.services@),
                (self.service_states@, views(connect@)) == restore_fold(
                    old(self).config.servers@,
                    old(self).config.services@,
                    start,
                    views(ids@.take(i as int)),
                    message,
                ),
            decreases ids@.len() - i,
        {
            let id = &ids[i];
            assert(views(ids@.take(i + 1)).drop_last() =~= views(ids@.take(i as int)));
            assert(views(ids@.take(i + 1)).last() == id@);
            match self.server_index(id.as_str()) {
                None => {},
                Some(k) => {
                    let server = &self.config.servers[k];
                    if server.auth_type == AuthType::Key || server.remember_secret {
                        let ghost before = connect@;
                        connect.push(id.clone());
                        assert(views(connect@) =~= views(before).push(id@));
                    } else {
                        self.set_server_services_state(
                            id.as_str(),
                            ServiceStatus::Error,
                            Some(message.clone()),
                        );
                    }
                },
            }
            i = i + 1;
        }
        assert(ids@.take(ids@.len() as int) =~= ids@);
        connect
    }
}

} // verus!
