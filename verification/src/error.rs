//! The errors the gateway reports to the user.
use vstd::prelude::*;

use crate::model::AuthType;
use crate::text::{append_chars, chars_of, string_of};

verus! {

/// Why a request to the gateway was refused.
#[derive(Debug, Clone)]
pub enum GateError {
    /// A server needs a name, a host and a user name.
    ServerFieldsMissing,
    /// Key authentication needs the path of a private key.
    KeyPathMissing,
    /// Another server already has this name (ignoring ASCII case).
    ServerNameExists,
    /// A remembered secret is needed but none was given or stored.
    SecretRequired(AuthType),
    /// No server has the given identifier.
    ServerNotFound,
    /// The server chosen for a service does not exist.
    SelectedServerNotFound,
    /// A service needs a name, a remote host and a domain.
    ServiceFieldsMissing,
    /// The domain does not end in `.localhost` or holds `:`, `/` or a space.
    DomainNotLocalhost,
    /// A label of the domain is empty, starts or ends with `-`, or holds
    /// a character other than a letter, a digit or `-`.
    DomainInvalidCharacters,
    /// Another service already uses this domain.
    DomainTaken(String),
    /// The listen address is blank or the reconnect delay is zero.
    InvalidSettings,
    /// No service has the given identifier.
    ServiceNotFound,
    /// The server has no services.
    NoServices,
    /// Password authentication was chosen but no password was given.
    PasswordRequired,
    /// The session of a password server is gone and cannot be reopened alone.
    SessionNeedsPassword,
    /// The terminal has been closed.
    TerminalClosed,
}

/// The text shown for an error.
pub open spec fn error_text(e: GateError) -> Seq<char> {
    match e {
        GateError::ServerFieldsMissing => "名称、主机和用户名不能为空"@,
        GateError::KeyPathMissing => "私钥认证需要填写私钥路径"@,
        GateError::ServerNameExists => "服务器名称已存在"@,
        GateError::SecretRequired(AuthType::Password) => "请输入要保存到系统凭据库的SSH 密码"@,
        GateError::SecretRequired(AuthType::Key) => "请输入要保存到系统凭据库的私钥口令"@,
        GateError::ServerNotFound => "SSH 服务器不存在"@,
        GateError::SelectedServerNotFound => "所选 SSH 服务器不存在"@,
        GateError::ServiceFieldsMissing => "名称、远端主机和域名不能为空"@,
        GateError::DomainNotLocalhost => "域名必须是有效的 .localhost 域名，例如 jupyter.gpu.localhost"@,
        GateError::DomainInvalidCharacters => "域名包含无效字符"@,
        GateError::DomainTaken(d) => "域名 "@ + d@ + " 已被其他应用使用"@,
        GateError::InvalidSettings => "监听地址不能为空，重连间隔必须大于 0"@,
        GateError::ServiceNotFound => "应用不存在"@,
        GateError::NoServices => "该服务器还没有应用"@,
        GateError::PasswordRequired => "请输入 SSH 密码"@,
        GateError::SessionNeedsPassword => "SSH 会话已断开，请回到服务器页重新输入密码"@,
        GateError::TerminalClosed => "终端已关闭"@,
    }
}

impl GateError {
    /// The text shown to the user.
    pub fn message(&self) -> (r: String)
        ensures
            r@ == error_text(*self),
    {
        match self {
            GateError::ServerFieldsMissing => String::from_str("名称、主机和用户名不能为空"),
            GateError::KeyPathMissing => String::from_str("私钥认证需要填写私钥路径"),
            GateError::ServerNameExists => String::from_str("服务器名称已存在"),
            GateError::SecretRequired(AuthType::Password) => String::from_str(
                "请输入要保存到系统凭据库的SSH 密码",
            ),
            GateError::SecretRequired(AuthType::Key) => String::from_str(
                "请输入要保存到系统凭据库的私钥口令",
            ),
            GateError::ServerNotFound => String::from_str("SSH 服务器不存在"),
            GateError::SelectedServerNotFound => String::from_str("所选 SSH 服务器不存在"),
            GateError::ServiceFieldsMissing => String::from_str("名称、远端主机和域名不能为空"),
            GateError::DomainNotLocalhost => String::from_str(
                "域名必须是有效的 .localhost 域名，例如 jupyter.gpu.localhost",
            ),
            GateError::DomainInvalidCharacters => String::from_str("域名包含无效字符"),
            GateError::DomainTaken(d) => {
                let mut v = chars_of("域名 ");
                append_chars(&mut v, d.as_str());
                append_chars(&mut v, " 已被其他应用使用");
                string_of(&v)
            },
            GateError::InvalidSettings => String::from_str("监听地址不能为空，重连间隔必须大于 0"),
            GateError::ServiceNotFound => String::from_str("应用不存在"),
            GateError::NoServices => String::from_str("该服务器还没有应用"),
            GateError::PasswordRequired => String::from_str("请输入 SSH 密码"),
            GateError::SessionNeedsPassword => String::from_str(
                "SSH 会话已断开，请回到服务器页重新输入密码",
            ),
            GateError::TerminalClosed => String::from_str("终端已关闭"),
        }
    }
}

} // verus!
