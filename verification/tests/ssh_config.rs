use sshgate::model::AuthType;
use sshgate::ssh_config::parse_ssh_config;

#[test]
fn imports_concrete_ssh_hosts_only() {
    let config = "Host *\n  ServerAliveInterval 30\nHost gpu\n HostName 10.0.0.8\n User root\n Port 2222\n IdentityFile ~/.ssh/gpu\n";
    let result = parse_ssh_config(config);
    assert_eq!(result.len(), 1);
    assert_eq!(result[0].name, "gpu");
    assert_eq!(result[0].port, 2222);
}

#[test]
fn fills_in_defaults_and_fresh_ids() {
    let config = "# comment\nHost web\n  User deploy\n\nHost db\n  user=admin\n  hostname \"db.internal\"\n  PORT 99999\nHost nouser\n  HostName x\n";
    let result = parse_ssh_config(config);
    assert_eq!(result.len(), 2);
    assert_eq!(result[0].name, "web");
    assert_eq!(result[0].host, "web");
    assert_eq!(result[0].port, 22);
    assert_eq!(result[0].username, "deploy");
    assert_eq!(result[0].private_key_path, "~/.ssh/id_ed25519");
    assert_eq!(result[0].auth_type, AuthType::Key);
    assert!(!result[0].remember_secret);
    assert!(result[0].host_key_fingerprint.is_none());
    assert_eq!(result[1].name, "db");
    assert_eq!(result[1].host, "db.internal");
    assert_eq!(result[1].port, 22);
    assert_eq!(result[1].username, "admin");
    assert_eq!(result[0].id.len(), 36);
    assert_ne!(result[0].id, result[1].id);
}

#[test]
fn skips_patterns_and_multi_word_aliases() {
    let config = "Host a b\n User u\nHost !x\n User u\nHost q?\n User u\nHost ok\n User u\n Port +2200\n";
    let result = parse_ssh_config(config);
    assert_eq!(result.len(), 1);
    assert_eq!(result[0].name, "ok");
    assert_eq!(result[0].port, 2200);
}
