use sshgate::credentials::{account, SERVICE};

#[test]
fn account_names_the_server() {
    assert_eq!(account("abc"), "server:abc:ssh-secret");
    assert_eq!(SERVICE, "SSHGate");
}
