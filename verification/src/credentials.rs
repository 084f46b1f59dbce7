//! Where the secret of a server is kept in the system credential store.
use vstd::prelude::*;

use crate::text::{append_chars, chars_of, string_of};

verus! {

/// The service name under which secrets are stored.
pub const SERVICE: &'static str = "SSHGate";

/// The account under which the secret of a server is stored.
pub open spec fn account_name(server_id: Seq<char>) -> Seq<char> {
    "server:"@ + server_id + ":ssh-secret"@
}

/// `server:<id>:ssh-secret`.
pub fn account(server_id: &str) -> (r: String)
    ensures
        r@ == account_name(server_id@),
{
    let mut v = chars_of("server:");
    append_chars(&mut v, server_id);
    append_chars(&mut v, ":ssh-secret");
    string_of(&v)
}

} // verus!
