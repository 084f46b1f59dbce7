//! The SSH side: accepting a server's host key, choosing how to
//! authenticate, and the messages shown when a connection fails.
use vstd::prelude::*;

use std::sync::{Arc, Mutex};

use crate::error::GateError;
use crate::model::{AuthType, SshServer};
use crate::text::{
    append_chars, append_vec, chars_of, decimal, decimal_chars, has_prefix, starts_with, str_eq,
    string_of, sub_chars,
};

verus! {

/// `std::sync::Mutex`, declared so that a handler can hold the shared cell
/// in which it leaves the fingerprint it saw. Verus sees nothing inside it.
#[verifier::external_type_specification]
#[verifier::external_body]
#[verifier::reject_recursive_types(T)]
pub struct ExMutex<T: ?Sized>(Mutex<T>);

/// Whether a host key with this fingerprint is accepted: always where none
/// is known yet, else only the known one.
pub open spec fn host_key_accepted(expected: Option<String>, fingerprint: Seq<char>) -> bool {
    match expected {
        None => true,
        Some(e) => e@ == fingerprint,
    }
}

/// Checks a server's host key against the fingerprint recorded for it, and
/// passes on the fingerprint it saw.
#[derive(Clone)]
pub struct ClientHandler {
    expected_fingerprint: Option<String>,
    observed_fingerprint: Arc<Mutex<Option<String>>>,
}

/// Puts the fingerprint that was seen where the connecting code reads it
/// (`Mutex::lock`; a poisoned lock is left alone). Nothing is stated: the
/// cell is shared state that Verus does not see into.
#[verifier::external_body]
fn record_observed(cell: &Arc<Mutex<Option<String>>>, fingerprint: String) {
    if let Ok(mut observed) = cell.lock() {
        *observed = Some(fingerprint);
    }
}

impl ClientHandler {
    pub closed spec fn expected(&self) -> Option<String> {
        self.expected_fingerprint
    }

    /// The shared cell in which the handler leaves the fingerprint it sees.
    pub closed spec fn observed(&self) -> Arc<Mutex<Option<String>>> {
        self.observed_fingerprint
    }

    pub fn new(
        expected_fingerprint: Option<String>,
        observed_fingerprint: Arc<Mutex<Option<String>>>,
    ) -> (r: Self)
        ensures
            r.expected() == expected_fingerprint,
            r.observed() == observed_fingerprint,
    {
        ClientHandler { expected_fingerprint, observed_fingerprint }
    }

    /// Records the fingerprint of the server's host key and says whether the
    /// key is accepted.
    pub fn check_server_key(&self, fingerprint: String) -> (r: bool)
        ensures
            r == host_key_accepted(self.expected(), fingerprint@),
    {
        let accepted = match &self.expected_fingerprint {
            Some(expected) => str_eq(expected.as_str(), fingerprint.as_str()),
            None => true,
        };
        record_observed(&self.observed_fingerprint, fingerprint);
        accepted
    }
}

/// Where the secret used for a connection comes from.
#[derive(Debug)]
pub enum SecretSource {
    /// The one given with the request.
    Provided(String),
    /// The one in the credential store.
    Stored,
    /// None.
    Absent,
}

/// A secret given with a request is used where it is not empty; otherwise
/// the stored one where the server remembers it.
pub fn choose_secret(provided: Option<String>, remembered: bool) -> (r: SecretSource)
    ensures
        crate::state::given_secret(provided) matches Some(p) ==> r == SecretSource::Provided(p),
        crate::state::given_secret(provided) is None && remembered ==> r == SecretSource::Stored,
        crate::state::given_secret(provided) is None && !remembered ==> r == SecretSource::Absent,
{
    match provided {
        Some(p) => if p.as_str().is_empty() {
            if remembered {
                SecretSource::Stored
            } else {
                SecretSource::Absent
            }
        } else {
            SecretSource::Provided(p)
        },
        None => if remembered {
            SecretSource::Stored
        } else {
            SecretSource::Absent
        },
    }
}

/// A key path, with a leading `~` resolved against the home directory.
#[derive(Debug)]
pub enum KeyPath {
    /// This path, as it is.
    Plain(String),
    /// The home directory itself.
    Home,
    /// `relative` inside the home directory.
    InHome { relative: String },
}

/// The path starts with `~/` or `~\`.
pub open spec fn in_home_prefix(value: Seq<char>) -> bool {
    has_prefix(value, "~/"@) || has_prefix(value, "~\\"@)
}

/// What `value` resolves to, where `has_home` says whether the home
/// directory is known: `~` is the home directory, `~/…` and `~\…` lie
/// inside it; without a home directory, and for any other path, the path is
/// kept as it is.
pub open spec fn key_path_for(value: Seq<char>, has_home: bool, r: KeyPath) -> bool {
    if has_home && value == "~"@ {
        r is Home
    } else if has_home && in_home_prefix(value) {
        r matches KeyPath::InHome { relative } && relative@ == value.skip(2)
    } else {
        r matches KeyPath::Plain(p) && p@ == value
    }
}

/// Resolves `~`, `~/…` and `~\…` against the home directory, where one is
/// known (`has_home`).
pub fn expand_home(value: &str, has_home: bool) -> (r: KeyPath)
    ensures
        key_path_for(value@, has_home, r),
{
    proof {
        reveal_strlit("~");
        reveal_strlit("~/");
        reveal_strlit("~\\");
    }
    if !has_home {
        return KeyPath::Plain(value.to_owned());
    }
    if str_eq(value, "~") {
        return KeyPath::Home;
    }
    let v = chars_of(value);
    let slash = chars_of("~/");
    let backslash = chars_of("~\\");
    if starts_with(&v, &slash) || starts_with(&v, &backslash) {
        assert(value@ != "~"@) by {
            if value@ == "~"@ {
                assert(value@.len() == 1);
            }
        }
        let relative = sub_chars(&v, 2, v.len());
        assert(relative@ =~= value@.skip(2));
        KeyPath::InHome { relative: string_of(&relative) }
    } else {
        KeyPath::Plain(value.to_owned())
    }
}

/// How to authenticate to a server.
#[derive(Debug)]
pub enum AuthPlan {
    /// With the private key at `path`, unlocked with `passphrase` if any.
    Key { path: KeyPath, passphrase: Option<String> },
    /// With this password.
    Password(String),
}

/// Chooses the authentication for a server: its key (the key path resolved
/// against the home directory where one is known, the secret as the
/// passphrase), or its password, which must then be given.
pub fn auth_plan(server: &SshServer, secret: Option<String>, has_home: bool) -> (r: Result<
    AuthPlan,
    GateError,
>)
    ensures
        server.auth_type == AuthType::Key ==> (r matches Ok(AuthPlan::Key { path, passphrase })
            && passphrase == secret && key_path_for(server.private_key_path@, has_home, path)),
        server.auth_type == AuthType::Password ==> match secret {
            Some(p) => if p@.len() > 0 {
                r == Ok::<AuthPlan, GateError>(AuthPlan::Password(p))
            } else {
                r == Err::<AuthPlan, GateError>(GateError::PasswordRequired)
            },
            None => r == Err::<AuthPlan, GateError>(GateError::PasswordRequired),
        },
{
    match server.auth_type {
        AuthType::Key => Ok(
            AuthPlan::Key {
                path: expand_home(server.private_key_path.as_str(), has_home),
                passphrase: secret,
            },
        ),
        AuthType::Password => match secret {
            Some(p) => if p.as_str().is_empty() {
                Err(GateError::PasswordRequired)
            } else {
                Ok(AuthPlan::Password(p))
            },
            None => Err(GateError::PasswordRequired),
        },
    }
}

/// `无法连接 <host>:<port>：<error>`.
pub fn friendly_ssh_error(server: &SshServer, error: &str) -> (r: String)
    ensures
        r@ == "无法连接 "@ + server.host@ + ":"@ + decimal(server.port as nat) + "："@ + error@,
{
    let mut v = chars_of("无法连接 ");
    append_chars(&mut v, server.host.as_str());
    append_chars(&mut v, ":");
    let port = decimal_chars(server.port as u64);
    append_vec(&mut v, &port);
    append_chars(&mut v, "：");
    append_chars(&mut v, error);
    string_of(&v)
}

/// `SSH 身份验证失败：<detail>`.
pub fn auth_failure_message(detail: &str) -> (r: String)
    ensures
        r@ == "SSH 身份验证失败："@ + detail@,
{
    let mut v = chars_of("SSH 身份验证失败：");
    append_chars(&mut v, detail);
    string_of(&v)
}

/// The message for credentials that the server did not accept.
pub fn auth_rejected_message() -> (r: String)
    ensures
        r@ == "SSH 身份验证失败，请检查用户名和认证信息"@,
{
    String::from_str("SSH 身份验证失败，请检查用户名和认证信息")
}

/// `无法读取已保存的 SSH 凭据：<detail>`.
pub fn stored_secret_error_message(detail: &str) -> (r: String)
    ensures
        r@ == "无法读取已保存的 SSH 凭据："@ + detail@,
{
    let mut v = chars_of("无法读取已保存的 SSH 凭据：");
    append_chars(&mut v, detail);
    string_of(&v)
}

/// The message for a private key that could not be read.
pub fn key_load_error_message(path: &str) -> (r: String)
    ensures
        r@ == "无法读取私钥 "@ + path@ + "。请检查私钥路径或输入正确的私钥口令"@,
{
    let mut v = chars_of("无法读取私钥 ");
    append_chars(&mut v, path);
    append_chars(&mut v, "。请检查私钥路径或输入正确的私钥口令");
    string_of(&v)
}

/// `无法监听 <address>:<port>：<error>`.
pub fn proxy_bind_error(address: &str, port: u16, error: &str) -> (r: String)
    ensures
        r@ == "无法监听 "@ + address@ + ":"@ + decimal(port as nat) + "："@ + error@,
{
    let mut v = chars_of("无法监听 ");
    append_chars(&mut v, address);
    append_chars(&mut v, ":");
    let p = decimal_chars(port as u64);
    append_vec(&mut v, &p);
    append_chars(&mut v, "：");
    append_chars(&mut v, error);
    string_of(&v)
}

} // verus!
