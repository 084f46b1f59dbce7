use sshgate::ssh::ClientHandler;
use std::sync::{Arc, Mutex};
use sshgate::error::GateError;
use sshgate::model::{
    AppConfig, AuthType, ConnectionStatus, ServiceStatus, Settings, SshServer, WebService,
};
use sshgate::state::{normalize_server, normalize_service, AppState, CredentialAction, SessionLoss};

fn server(id: &str, name: &str, auth_type: AuthType, remember: bool) -> SshServer {
    SshServer {
        id: id.into(),
        name: name.into(),
        host: "10.0.0.8".into(),
        port: 22,
        username: "root".into(),
        auth_type,
        private_key_path: "~/.ssh/id".into(),
        remember_secret: remember,
        host_key_fingerprint: None,
    }
}

fn service(id: &str, server_id: &str, name: &str, domain: &str) -> WebService {
    WebService {
        id: id.into(),
        server_id: server_id.into(),
        name: name.into(),
        remote_host: "127.0.0.1".into(),
        remote_port: 8888,
        domain: domain.into(),
        desired_running: false,
    }
}

fn state_with(servers: Vec<SshServer>, services: Vec<WebService>) -> AppState {
    AppState::load(AppConfig { servers, services, settings: Settings::default() })
}

fn service_status(state: &AppState, id: &str) -> Option<ServiceStatus> {
    state.service_states.get(id).map(|s| s.status)
}

fn server_status(state: &AppState, id: &str) -> Option<ConnectionStatus> {
    state.server_states.get(id).map(|s| s.status)
}

#[test]
fn load_stops_everything() {
    let state = state_with(
        vec![server("a", "A", AuthType::Key, false)],
        vec![service("s", "a", "web", "web.a.localhost")],
    );
    assert_eq!(server_status(&state, "a"), Some(ConnectionStatus::Stopped));
    assert_eq!(service_status(&state, "s"), Some(ServiceStatus::Stopped));
    assert!(state.proxy_error.is_none());
    let d = Settings::default();
    assert_eq!(d.listen_address, "127.0.0.1");
    assert_eq!(d.listen_port, 80);
    assert_eq!(d.reconnect_delay_seconds, 3);
    assert!(d.auto_start_services);
}

#[test]
fn server_names_are_unique_ignoring_case() {
    let mut state = state_with(vec![server("a", "GPU", AuthType::Key, false)], vec![]);
    let other = normalize_server(server("", "  gpu ", AuthType::Key, false)).unwrap();
    assert_eq!(other.name, "gpu");
    assert_eq!(other.id.len(), 36);
    assert!(matches!(
        state.prepare_server(server("", "  gpu ", AuthType::Key, false), None),
        Err(GateError::ServerNameExists)
    ));
    assert!(matches!(state.commit_server(other), Err(GateError::ServerNameExists)));
    assert_eq!(state.config.servers.len(), 1);
    let (renamed, action) = state.prepare_server(server("a", " gpu ", AuthType::Key, false), None).unwrap();
    assert!(matches!(action, CredentialAction::Keep));
    assert_eq!(renamed.name, "gpu");
    state.commit_server(renamed).unwrap();
    assert_eq!(state.config.servers.len(), 1);
    assert_eq!(state.config.servers[0].name, "gpu");
}

#[test]
fn server_validation() {
    assert!(matches!(
        normalize_server(server("a", "  ", AuthType::Key, false)),
        Err(GateError::ServerFieldsMissing)
    ));
    let mut s = server("a", "x", AuthType::Key, false);
    s.private_key_path = " ".into();
    assert!(matches!(normalize_server(s), Err(GateError::KeyPathMissing)));
    let mut p = server("a", "x", AuthType::Password, false);
    p.private_key_path = String::new();
    assert!(normalize_server(p).is_ok());
    let mut state = state_with(vec![], vec![]);
    assert!(matches!(
        state.prepare_server(server("a", "  ", AuthType::Key, false), None),
        Err(GateError::ServerFieldsMissing)
    ));
    assert!(matches!(
        state.commit_server(server("a", "  ", AuthType::Key, false)),
        Err(GateError::ServerFieldsMissing)
    ));
    assert!(state.config.servers.is_empty());
    let (fresh, _) = state.prepare_server(server(" ", " web ", AuthType::Key, false), None).unwrap();
    assert_eq!(fresh.id.len(), 36);
    assert_eq!(fresh.name, "web");
    state.commit_server(fresh).unwrap();
    assert_eq!(state.config.servers[0].name, "web");
}

#[test]
fn credential_plans() {
    let state = state_with(vec![server("a", "A", AuthType::Password, true)], vec![]);
    let keep = server("a", "A", AuthType::Password, true);
    assert!(matches!(state.prepare_server(keep.clone(), None), Ok((_, CredentialAction::RequireStored))));
    assert!(matches!(state.prepare_server(keep.clone(), Some("pw".into())), Ok((_, CredentialAction::Store(s))) if s == "pw"));
    let switched = server("a", "A", AuthType::Key, true);
    assert!(matches!(state.prepare_server(switched.clone(), Some(String::new())), Err(GateError::SecretRequired(AuthType::Key))));
    let forget = server("a", "A", AuthType::Password, false);
    assert!(matches!(state.prepare_server(forget.clone(), None), Ok((_, CredentialAction::Delete))));
    let fresh = server("b", "B", AuthType::Password, true);
    assert!(matches!(state.prepare_server(fresh.clone(), None), Err(GateError::SecretRequired(AuthType::Password))));
}

#[test]
fn saving_services_derives_and_guards_domains() {
    let mut state = state_with(vec![server("a", "GPU Box", AuthType::Key, false)], vec![]);
    state.save_service(service("", "a", " My Jupyter ", "")).unwrap();
    let id = state.config.services[0].id.clone();
    assert_eq!(id.len(), 36);
    assert_eq!(state.config.services[0].domain, "my-jupyter.gpu-box.localhost");
    assert_eq!(state.config.services[0].name, "My Jupyter");
    assert_eq!(service_status(&state, &id), Some(ServiceStatus::Stopped));
    let clash = service("", "a", "other", "MY-JUPYTER.GPU-BOX.localhost");
    match state.save_service(clash) {
        Err(GateError::DomainTaken(d)) => assert_eq!(d, "my-jupyter.gpu-box.localhost"),
        other => panic!("unexpected {:?}", other),
    }
    assert!(matches!(
        state.save_service(service("x", "missing", "n", "")),
        Err(GateError::SelectedServerNotFound)
    ));
    assert!(matches!(
        state.save_service(service("x", "a", "n", "http://")),
        Err(GateError::DomainInvalidCharacters)
    ));
    assert!(matches!(
        state.save_service(service("x", "a", "   ", "x.a.localhost")),
        Err(GateError::ServiceFieldsMissing)
    ));
    assert_eq!(state.config.services.len(), 1);
    assert_eq!(normalize_service(service(" ", "a", " n ", "")).name, "n");
}

#[test]
fn resaving_keeps_desired_running() {
    let mut state = state_with(
        vec![server("a", "A", AuthType::Key, false)],
        vec![service("s", "a", "web", "web.a.localhost")],
    );
    state.start_service("s").unwrap();
    state.save_service(service("s", "a", "web2", "web.a.localhost")).unwrap();
    assert!(state.config.services[0].desired_running);
    assert_eq!(state.config.services[0].name, "web2");
}

#[test]
fn start_and_stop_services() {
    let mut state = state_with(
        vec![server("a", "A", AuthType::Key, false)],
        vec![service("s1", "a", "one", "one.a.localhost"), service("s2", "a", "two", "two.a.localhost")],
    );
    let svc = state.start_service("s1").unwrap();
    assert!(svc.desired_running);
    assert_eq!(service_status(&state, "s1"), Some(ServiceStatus::Starting));
    assert!(matches!(state.start_service("nope"), Err(GateError::ServiceNotFound)));
    let ids = state.start_server_services("a").unwrap();
    assert_eq!(ids, vec!["s1".to_string(), "s2".to_string()]);
    assert!(state.config.services.iter().all(|s| s.desired_running));
    assert_eq!(service_status(&state, "s2"), Some(ServiceStatus::Starting));
    assert_eq!(state.stop_service("s1", &vec![]).unwrap(), ("a".to_string(), false));
    assert!(!state.config.services[0].desired_running);
    assert_eq!(service_status(&state, "s1"), Some(ServiceStatus::Stopped));
    assert!(state.stop_server_services("a", &vec!["a".to_string()]).unwrap() == false);
    assert!(state.config.services.iter().all(|s| !s.desired_running));
    assert!(matches!(state.start_server_services("zzz"), Err(GateError::ServerNotFound)));
    let mut empty = state_with(vec![server("b", "B", AuthType::Key, false)], vec![]);
    assert!(matches!(empty.start_server_services("b"), Err(GateError::NoServices)));
    assert!(matches!(empty.stop_server_services("b", &vec![]), Err(GateError::NoServices)));
}

#[test]
fn connection_lifecycle() {
    let mut state = state_with(
        vec![server("a", "A", AuthType::Key, false)],
        vec![service("s1", "a", "one", "one.a.localhost")],
    );
    state.start_service("s1").unwrap();
    state.begin_connect("a", false);
    assert_eq!(server_status(&state, "a"), Some(ConnectionStatus::Connecting));
    assert_eq!(service_status(&state, "s1"), Some(ServiceStatus::Starting));
    state.connection_failed("a", false, "boom".into());
    assert_eq!(server_status(&state, "a"), Some(ConnectionStatus::Error));
    assert_eq!(state.service_states.get("s1").unwrap().error.as_deref(), Some("boom"));
    let target = state.connect_target("a").unwrap();
    assert!(state.connection_established(&target, Some("SHA256:x".into())));
    assert_eq!(state.config.servers[0].host_key_fingerprint.as_deref(), Some("SHA256:x"));
    assert_eq!(server_status(&state, "a"), Some(ConnectionStatus::Connected));
    assert_eq!(service_status(&state, "s1"), Some(ServiceStatus::Running));
    let again = state.connect_target("a").unwrap();
    assert!(!state.connection_established(&again, Some("SHA256:y".into())));
    assert_eq!(state.config.servers[0].host_key_fingerprint.as_deref(), Some("SHA256:x"));
    state.clear_server_fingerprint("a").unwrap();
    assert!(state.config.servers[0].host_key_fingerprint.is_none());
    assert!(matches!(state.connect_target("b"), Err(GateError::ServerNotFound)));
}

#[test]
fn session_loss_decisions() {
    let mut state = state_with(
        vec![server("k", "K", AuthType::Key, false), server("p", "P", AuthType::Password, false)],
        vec![service("s1", "k", "one", "one.k.localhost"), service("s2", "p", "two", "two.p.localhost")],
    );
    assert_eq!(state.after_session_lost("k"), SessionLoss::Stopped);
    state.start_service("s1").unwrap();
    state.start_service("s2").unwrap();
    assert_eq!(state.after_session_lost("k"), SessionLoss::Reconnect);
    assert_eq!(state.after_session_lost("p"), SessionLoss::PasswordNeeded);
    assert_eq!(server_status(&state, "p"), Some(ConnectionStatus::Error));
    assert_eq!(
        state.server_states.get("p").unwrap().error.as_deref(),
        Some("SSH 已断开；密码未保存，请手动重新连接")
    );
    assert!(state.session_policy("k").is_ok());
    assert!(matches!(state.session_policy("p"), Err(GateError::SessionNeedsPassword)));
}

#[test]
fn disconnect_frees_the_session() {
    let mut state = state_with(
        vec![server("a", "A", AuthType::Key, false)],
        vec![service("s1", "a", "one", "one.a.localhost")],
    );
    state.start_service("s1").unwrap();
    assert!(!state.close_session_if_unused("a", false));
    state.disconnect_server("a");
    assert_eq!(server_status(&state, "a"), Some(ConnectionStatus::Stopped));
    assert!(!state.close_session_if_unused("a", true));
    assert!(state.close_session_if_unused("a", false));
}

#[test]
fn routing_by_host() {
    let mut state = state_with(
        vec![server("a", "A", AuthType::Key, false)],
        vec![service("s1", "a", "one", "one.a.localhost")],
    );
    assert!(state.find_running_service("one.a.localhost").is_none());
    state.start_service("s1").unwrap();
    assert_eq!(state.find_running_service("ONE.A.localhost").unwrap().id, "s1");
    assert!(state.channel_opened("s1"));
    assert!(!state.channel_opened("s1"));
    state.service_channel_failed("s1", "gone".into());
    assert_eq!(service_status(&state, "s1"), Some(ServiceStatus::Error));
}

#[test]
fn removing_a_server_removes_its_services() {
    let mut state = state_with(
        vec![server("a", "A", AuthType::Key, true), server("b", "B", AuthType::Key, false)],
        vec![service("s1", "a", "one", "one.a.localhost"), service("s2", "b", "two", "two.b.localhost")],
    );
    assert!(state.secret_remembered("a"));
    assert!(!state.secret_remembered("b"));
    state.remove_server("a");
    assert_eq!(state.config.servers.len(), 1);
    assert_eq!(state.config.services.len(), 1);
    assert_eq!(state.config.services[0].id, "s2");
    assert!(state.server_states.get("a").is_none());
    assert!(state.service_states.get("s1").is_none());
    assert_eq!(state.remove_service("s2", &vec![]), Some(("b".to_string(), true)));
    assert_eq!(server_status(&state, "b"), Some(ConnectionStatus::Stopped));
    assert!(state.config.services.is_empty());
    assert_eq!(state.remove_service("s2", &vec![]), None);
}

#[test]
fn settings_need_address_and_delay() {
    let mut state = state_with(vec![], vec![]);
    let mut bad = Settings::default();
    bad.listen_address = "  ".into();
    assert!(matches!(state.save_settings(bad), Err(GateError::InvalidSettings)));
    let mut zero = Settings::default();
    zero.reconnect_delay_seconds = 0;
    assert!(matches!(state.save_settings(zero), Err(GateError::InvalidSettings)));
    let mut good = Settings::default();
    good.listen_port = 8080;
    state.save_settings(good).unwrap();
    assert_eq!(state.config.settings.listen_port, 8080);
    assert_eq!(state.reconnect_delay(), 3);
}

#[test]
fn import_skips_known_names() {
    let mut state = state_with(vec![server("a", "GPU", AuthType::Key, false)], vec![]);
    let added = state.import_servers(vec![
        server("x", "gpu", AuthType::Key, false),
        server("y", "web", AuthType::Key, false),
        server("z", "WEB", AuthType::Key, false),
    ]);
    assert_eq!(added.len(), 1);
    assert_eq!(added[0].id, "y");
    assert_eq!(state.config.servers.len(), 2);
    assert_eq!(server_status(&state, "y"), Some(ConnectionStatus::Stopped));
}

#[test]
fn restore_connects_what_can_reconnect() {
    let mut services = vec![
        service("s1", "k", "one", "one.k.localhost"),
        service("s2", "p", "two", "two.p.localhost"),
        service("s3", "k", "three", "three.k.localhost"),
    ];
    for s in services.iter_mut() {
        s.desired_running = true;
    }
    let mut state = state_with(
        vec![server("k", "K", AuthType::Key, false), server("p", "P", AuthType::Password, false)],
        services,
    );
    let connect = state.restore_plan();
    assert_eq!(connect, vec!["k".to_string()]);
    assert_eq!(service_status(&state, "s2"), Some(ServiceStatus::Error));
    assert_eq!(
        state.service_states.get("s2").unwrap().error.as_deref(),
        Some("未保存 SSH 密码，请手动重新连接")
    );
    assert_eq!(service_status(&state, "s1"), Some(ServiceStatus::Stopped));
    let mut off = Settings::default();
    off.auto_start_services = false;
    state.save_settings(off).unwrap();
    assert!(state.restore_plan().is_empty());
}

#[test]
fn snapshot_copies_everything() {
    let mut state = state_with(vec![server("a", "A", AuthType::Key, false)], vec![]);
    state.set_proxy_error(Some("busy".into()));
    let snap = state.snapshot();
    assert_eq!(snap.config.servers.len(), 1);
    assert_eq!(snap.proxy_error.as_deref(), Some("busy"));
    assert_eq!(snap.server_states.len(), 1);
}

#[test]
fn first_seen_host_key_is_pinned() {
    let mut state = state_with(vec![server("a", "A", AuthType::Key, false)], vec![]);
    let target = state.connect_target("a").unwrap();
    let first = ClientHandler::new(target.host_key_fingerprint.clone(), Arc::new(Mutex::new(None)));
    assert!(first.check_server_key("SHA256:any".into()));
    assert!(state.connection_established(&target, Some("SHA256:seen".into())));
    let saved = state.connect_target("a").unwrap();
    let pinned = ClientHandler::new(saved.host_key_fingerprint.clone(), Arc::new(Mutex::new(None)));
    assert!(pinned.check_server_key("SHA256:seen".into()));
    assert!(!pinned.check_server_key("SHA256:other".into()));
}

#[test]
fn saved_domains_stay_unique() {
    let mut state = state_with(vec![server("a", "A", AuthType::Key, false)], vec![]);
    state.save_service(service("s1", "a", "one", "One.A.localhost")).unwrap();
    state.save_service(service("s2", "a", "two", "two.a.localhost")).unwrap();
    assert!(state.save_service(service("s2", "a", "two", "ONE.a.localhost")).is_err());
    state.save_service(service("s1", "a", "one", "one.a.localhost")).unwrap();
    let domains: Vec<String> = state.config.services.iter().map(|s| s.domain.to_ascii_lowercase()).collect();
    assert_eq!(domains, vec!["one.a.localhost".to_string(), "two.a.localhost".to_string()]);
}

#[test]
fn saved_server_is_found_and_removed_is_gone() {
    let mut state = state_with(vec![server("a", "A", AuthType::Key, false)], vec![]);
    let mut edited = server("a", "A2", AuthType::Password, false);
    edited.port = 2200;
    state.commit_server(edited).unwrap();
    let found = state.connect_target("a").unwrap();
    assert_eq!(found.name, "A2");
    assert_eq!(found.port, 2200);
    assert_eq!(state.config.servers.len(), 1);
    state.remove_server("a");
    assert!(matches!(state.connect_target("a"), Err(GateError::ServerNotFound)));
}

#[test]
fn started_services_follow_the_connection() {
    let mut state = state_with(
        vec![server("a", "A", AuthType::Key, false)],
        vec![service("s1", "a", "one", "one.a.localhost"), service("s2", "a", "two", "two.a.localhost")],
    );
    let ids = state.start_server_services("a").unwrap();
    state.services_started(&ids, Err("down".to_string()));
    assert_eq!(service_status(&state, "s1"), Some(ServiceStatus::Error));
    assert_eq!(state.service_states.get("s2").unwrap().error.as_deref(), Some("down"));
    state.services_started(&ids, Ok(()));
    assert_eq!(service_status(&state, "s1"), Some(ServiceStatus::Running));
    assert!(state.service_states.get("s2").unwrap().error.is_none());
}

#[test]
fn stopping_frees_an_unused_session() {
    let mut state = state_with(
        vec![server("a", "A", AuthType::Key, false)],
        vec![service("s1", "a", "one", "one.a.localhost"), service("s2", "a", "two", "two.a.localhost")],
    );
    state.start_server_services("a").unwrap();
    assert_eq!(state.stop_service("s1", &vec![]).unwrap(), ("a".to_string(), false));
    assert_eq!(server_status(&state, "a"), Some(ConnectionStatus::Stopped));
    state.begin_connect("a", false);
    assert_eq!(state.stop_service("s2", &vec!["a".to_string()]).unwrap(), ("a".to_string(), false));
    assert_eq!(server_status(&state, "a"), Some(ConnectionStatus::Connecting));
    assert_eq!(state.stop_service("s2", &vec![]).unwrap(), ("a".to_string(), true));
    assert_eq!(server_status(&state, "a"), Some(ConnectionStatus::Stopped));
    state.start_server_services("a").unwrap();
    state.begin_connect("a", false);
    assert!(state.stop_server_services("a", &vec![]).unwrap());
    assert_eq!(server_status(&state, "a"), Some(ConnectionStatus::Stopped));
}
