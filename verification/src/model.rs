//! The configuration and runtime records the gateway keeps.
use vstd::prelude::*;

use crate::table::StateTable;

verus! {

/// An SSH server that web services and terminals are reached through.
#[derive(Debug)]
pub struct SshServer {
    pub id: String,
    pub name: String,
    pub host: String,
    pub port: u16,
    pub username: String,
    pub auth_type: AuthType,
    pub private_key_path: String,
    /// Whether the password or key passphrase is kept in the system credential store.
    pub remember_secret: bool,
    pub host_key_fingerprint: Option<String>,
}

impl Clone for SshServer {
    fn clone(&self) -> (r: Self)
        ensures
            r == *self,
    {
        SshServer {
            id: self.id.clone(),
            name: self.name.clone(),
            host: self.host.clone(),
            port: self.port,
            username: self.username.clone(),
            auth_type: self.auth_type,
            private_key_path: self.private_key_path.clone(),
            remember_secret: self.remember_secret,
            host_key_fingerprint: clone_opt_string(&self.host_key_fingerprint),
        }
    }
}

/// How the gateway authenticates to an SSH server.
#[derive(Debug, Clone, Copy, PartialEq, Eq, Structural)]
pub enum AuthType {
    Key,
    Password,
}

/// A web service on a remote host, published under a `.localhost` domain.
#[derive(Debug)]
pub struct WebService {
    pub id: String,
    pub server_id: String,
    pub name: String,
    pub remote_host: String,
    pub remote_port: u16,
    pub domain: String,
    pub desired_running: bool,
}

impl Clone for WebService {
    fn clone(&self) -> (r: Self)
        ensures
            r == *self,
    {
        WebService {
            id: self.id.clone(),
            server_id: self.server_id.clone(),
            name: self.name.clone(),
            remote_host: self.remote_host.clone(),
            remote_port: self.remote_port,
            domain: self.domain.clone(),
            desired_running: self.desired_running,
        }
    }
}

/// Where the local proxy listens, and how it reconnects.
#[derive(Debug)]
pub struct Settings {
    pub listen_address: String,
    pub listen_port: u16,
    pub reconnect_delay_seconds: u64,
    pub auto_start_services: bool,
}

impl Clone for Settings {
    fn clone(&self) -> (r: Self)
        ensures
            r == *self,
    {
        Settings {
            listen_address: self.listen_address.clone(),
            listen_port: self.listen_port,
            reconnect_delay_seconds: self.reconnect_delay_seconds,
            auto_start_services: self.auto_start_services,
        }
    }
}

impl Default for Settings {
    fn default() -> (r: Self)
        ensures
            r.listen_address@ == "127.0.0.1"@,
            r.listen_port == 80,
            r.reconnect_delay_seconds == 3,
            r.auto_start_services,
    {
        Settings {
            listen_address: String::from_str("127.0.0.1"),
            listen_port: 80,
            reconnect_delay_seconds: 3,
            auto_start_services: true,
        }
    }
}

/// Everything that is kept on disk.
#[derive(Debug)]
pub struct AppConfig {
    pub servers: Vec<SshServer>,
    pub services: Vec<WebService>,
    pub settings: Settings,
}

impl Clone for AppConfig {
    fn clone(&self) -> (r: Self)
        ensures
            r.servers@ == self.servers@,
            r.services@ == self.services@,
            r.settings == self.settings,
    {
        let servers = self.servers.clone();
        assert(servers@ =~= self.servers@);
        let services = self.services.clone();
        assert(services@ =~= self.services@);
        AppConfig { servers, services, settings: self.settings.clone() }
    }
}

impl Default for AppConfig {
    fn default() -> (r: Self)
        ensures
            r.servers@.len() == 0,
            r.services@.len() == 0,
            r.settings.listen_address@ == "127.0.0.1"@,
            r.settings.listen_port == 80,
            r.settings.reconnect_delay_seconds == 3,
            r.settings.auto_start_services,
    {
        AppConfig { servers: Vec::new(), services: Vec::new(), settings: Settings::default() }
    }
}

/// The state of the SSH connection to a server.
#[derive(Debug, Clone, Copy, PartialEq, Eq, Structural)]
pub enum ConnectionStatus {
    Stopped,
    Connecting,
    Connected,
    Error,
    Reconnecting,
}

/// The state of a published web service.
#[derive(Debug, Clone, Copy, PartialEq, Eq, Structural)]
pub enum ServiceStatus {
    Stopped,
    Starting,
    Running,
    Error,
    Reconnecting,
}

/// A status together with the error that explains it, if any.
#[derive(Debug)]
pub struct RuntimeState<T> {
    pub status: T,
    pub error: Option<String>,
}

impl<T: Copy> Clone for RuntimeState<T> {
    fn clone(&self) -> (r: Self)
        ensures
            r == *self,
    {
        RuntimeState { status: self.status, error: clone_opt_string(&self.error) }
    }
}

impl<T> RuntimeState<T> {
    /// A state without an error.
    pub fn new(status: T) -> (r: Self)
        ensures
            r.status == status,
            r.error is None,
    {
        RuntimeState { status, error: None }
    }

    /// A state that carries an error message.
    pub fn error(status: T, error: String) -> (r: Self)
        ensures
            r.status == status,
            r.error == Some(error),
    {
        RuntimeState { status, error: Some(error) }
    }
}

/// What the user interface is shown: the configuration and every runtime state.
#[derive(Debug)]
pub struct RuntimeSnapshot {
    pub config: AppConfig,
    pub server_states: StateTable<ConnectionStatus>,
    pub service_states: StateTable<ServiceStatus>,
    pub proxy_error: Option<String>,
}

/// An event of an interactive terminal, sent to the user interface.
#[derive(Debug)]
pub struct TerminalEvent {
    pub terminal_id: String,
    pub data: Option<String>,
    pub message: Option<String>,
    pub exit_status: Option<u32>,
}

/// A copy of an optional string.
pub fn clone_opt_string(s: &Option<String>) -> (r: Option<String>)
    ensures
        r == *s,
{
    match s {
        Some(v) => Some(v.clone()),
        None => None,
    }
}

} // verus!
