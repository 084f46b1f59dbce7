use std::sync::{Arc, Mutex};

use sshgate::error::GateError;
use sshgate::model::{AuthType, SshServer};
use sshgate::ssh::{
    auth_failure_message, auth_plan, choose_secret, expand_home, friendly_ssh_error, proxy_bind_error,
    AuthPlan, ClientHandler, KeyPath, SecretSource,
};

#[test]
fn first_key_is_accepted_and_recorded() {
    let observed = Arc::new(Mutex::new(None));
    let handler = ClientHandler::new(None, observed.clone());
    assert!(handler.check_server_key("SHA256:abc".into()));
    assert_eq!(observed.lock().unwrap().as_deref(), Some("SHA256:abc"));
}

#[test]
fn known_key_must_match() {
    let observed = Arc::new(Mutex::new(None));
    let handler = ClientHandler::new(Some("SHA256:abc".into()), observed.clone());
    assert!(handler.check_server_key("SHA256:abc".into()));
    assert!(!handler.check_server_key("SHA256:other".into()));
    assert_eq!(observed.lock().unwrap().as_deref(), Some("SHA256:other"));
}

#[test]
fn secrets_are_chosen_in_order() {
    assert!(matches!(choose_secret(Some("pw".into()), true), SecretSource::Provided(p) if p == "pw"));
    assert!(matches!(choose_secret(Some(String::new()), true), SecretSource::Stored));
    assert!(matches!(choose_secret(None, false), SecretSource::Absent));
}

#[test]
fn home_is_expanded() {
    assert!(matches!(expand_home("~", true), KeyPath::Home));
    assert!(matches!(expand_home("~", false), KeyPath::Plain(p) if p == "~"));
    assert!(matches!(expand_home("~/.ssh/id", true),
        KeyPath::InHome { relative } if relative == ".ssh/id"));
    assert!(matches!(expand_home("~\\key", true),
        KeyPath::InHome { relative } if relative == "key"));
    assert!(matches!(expand_home("~/.ssh/id", false), KeyPath::Plain(p) if p == "~/.ssh/id"));
    assert!(matches!(expand_home("/etc/key", true), KeyPath::Plain(p) if p == "/etc/key"));
    assert!(matches!(expand_home("~user/key", true), KeyPath::Plain(p) if p == "~user/key"));
}

fn server(auth_type: AuthType) -> SshServer {
    SshServer {
        id: "1".into(),
        name: "gpu".into(),
        host: "10.0.0.8".into(),
        port: 2222,
        username: "root".into(),
        auth_type,
        private_key_path: "~/.ssh/gpu".into(),
        remember_secret: false,
        host_key_fingerprint: None,
    }
}

#[test]
fn authentication_plans() {
    assert!(matches!(auth_plan(&server(AuthType::Password), None, true), Err(GateError::PasswordRequired)));
    assert!(matches!(auth_plan(&server(AuthType::Password), Some(String::new()), true), Err(GateError::PasswordRequired)));
    assert!(matches!(auth_plan(&server(AuthType::Password), Some("pw".into()), false), Ok(AuthPlan::Password(p)) if p == "pw"));
    match auth_plan(&server(AuthType::Key), None, false) {
        Ok(AuthPlan::Key { path: KeyPath::Plain(p), passphrase }) => {
            assert_eq!(p, "~/.ssh/gpu");
            assert!(passphrase.is_none());
        }
        _ => panic!("expected a key plan"),
    }
    match auth_plan(&server(AuthType::Key), Some("phrase".into()), true) {
        Ok(AuthPlan::Key { path: KeyPath::InHome { relative }, passphrase }) => {
            assert_eq!(relative, ".ssh/gpu");
            assert_eq!(passphrase.as_deref(), Some("phrase"));
        }
        _ => panic!("expected a key plan"),
    }
}

#[test]
fn messages() {
    assert_eq!(friendly_ssh_error(&server(AuthType::Key), "refused"), "无法连接 10.0.0.8:2222：refused");
    assert_eq!(auth_failure_message("bad"), "SSH 身份验证失败：bad");
    assert_eq!(proxy_bind_error("127.0.0.1", 80, "in use"), "无法监听 127.0.0.1:80：in use");
    assert_eq!(GateError::DomainTaken("a.localhost".into()).message(), "域名 a.localhost 已被其他应用使用");
    assert_eq!(GateError::SecretRequired(AuthType::Password).message(), "请输入要保存到系统凭据库的SSH 密码");
}
