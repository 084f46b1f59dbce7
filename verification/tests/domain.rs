use sshgate::domain::{default_service_domain, normalize_domain, normalize_domain_label};
use sshgate::error::GateError;
use sshgate::model::WebService;
use sshgate::validate::validate_service;

#[test]
fn normalizes_domain() {
    assert_eq!(
        normalize_domain(" Jupyter.GPU.localhost. "),
        "jupyter.gpu.localhost"
    );
    assert_eq!(
        normalize_domain("HTTP://My App.GPU_Server.localhost/"),
        "my-app.gpu-server.localhost"
    );
}

#[test]
fn creates_default_service_domain() {
    assert_eq!(
        default_service_domain("My Jupyter!", "GPU_Server A"),
        "my-jupyter.gpu-server-a.localhost"
    );
    assert_eq!(
        default_service_domain("中文应用", "服务器"),
        "service.server.localhost"
    );
}

#[test]
fn label_runs_collapse_and_ends_are_cut() {
    assert_eq!(normalize_domain_label("  --Hello,,  World--  ", "x"), "hello-world");
    assert_eq!(normalize_domain_label("***", "fallback"), "fallback");
    assert_eq!(normalize_domain_label("", ""), "");
}

#[test]
fn normalize_is_idempotent_on_examples() {
    for d in ["a.b.localhost", "x", "https://Grafana..Prod//", "localhost", ""] {
        let once = normalize_domain(d);
        assert_eq!(normalize_domain(&once), once);
    }
    assert_eq!(normalize_domain("https://Grafana..Prod//"), "grafana.prod.localhost");
    assert_eq!(normalize_domain("localhost"), "localhost.localhost");
    assert_eq!(normalize_domain(""), ".localhost");
}

fn service(name: &str, host: &str, domain: &str) -> WebService {
    WebService {
        id: "s1".into(),
        server_id: "srv".into(),
        name: name.into(),
        remote_host: host.into(),
        remote_port: 8888,
        domain: domain.into(),
        desired_running: false,
    }
}

#[test]
fn service_validation_errors() {
    assert!(validate_service(&service("n", "127.0.0.1", "a.b.localhost")).is_ok());
    assert!(matches!(
        validate_service(&service("", "127.0.0.1", "a.localhost")),
        Err(GateError::ServiceFieldsMissing)
    ));
    assert!(matches!(
        validate_service(&service("n", "h", "a.example.com")),
        Err(GateError::DomainNotLocalhost)
    ));
    assert!(matches!(
        validate_service(&service("n", "h", "a:1.localhost")),
        Err(GateError::DomainNotLocalhost)
    ));
    assert!(matches!(
        validate_service(&service("n", "h", "-a.localhost")),
        Err(GateError::DomainInvalidCharacters)
    ));
    assert!(matches!(
        validate_service(&service("n", "h", "a..localhost")),
        Err(GateError::DomainInvalidCharacters)
    ));
    assert!(matches!(
        validate_service(&service("n", "h", ".localhost")),
        Err(GateError::DomainInvalidCharacters)
    ));
    assert!(matches!(
        validate_service(&service("n", "h", "a_b.localhost")),
        Err(GateError::DomainInvalidCharacters)
    ));
}

#[test]
fn default_domains_pass_validation() {
    for (a, b) in [("My Jupyter!", "GPU_Server A"), ("", ""), ("--", "中文"), ("x", "y")] {
        let d = default_service_domain(a, b);
        assert!(validate_service(&service("n", "h", &d)).is_ok(), "{}", d);
    }
}
