use dynamic_preauth::config::{default_port, Config, RailwayConfig};
use dynamic_preauth::error::AppError;

fn railway() -> RailwayConfig {
    RailwayConfig {
        railway_token: Some("SECRET-REDACTED".to_string()),
        railway_project_id: Some("project-a".to_string()),
        railway_service_id: Some("service-b".to_string()),
        railway_environment_id: Some("env-c".to_string()),
        railway_deployment_id: None,
        railway_public_domain: Some("example.up.railway.app".to_string()),
    }
}

#[test]
fn railway_flags() {
    let c = railway();
    assert!(c.is_railway());
    assert!(c.has_token());
    let none = RailwayConfig {
        railway_token: None,
        railway_project_id: None,
        railway_service_id: None,
        railway_environment_id: None,
        railway_deployment_id: None,
        railway_public_domain: None,
    };
    assert!(!none.is_railway());
    assert!(!none.has_token());
    assert_eq!(none.build_logs_url(), None);
    assert_eq!(none.cors_origin(), "*");
}

#[test]
fn build_logs_url_defaults_to_latest() {
    let mut c = railway();
    assert_eq!(
        c.build_logs_url().unwrap(),
        "https://railway.com/project/project-a/service/service-b?environmentId=env-c&id=latest#build"
    );
    c.railway_deployment_id = Some("deploy-d".to_string());
    assert_eq!(
        c.build_logs_url().unwrap(),
        "https://railway.com/project/project-a/service/service-b?environmentId=env-c&id=deploy-d#build"
    );
    c.railway_service_id = None;
    assert_eq!(c.build_logs_url(), None);
}

#[test]
fn cors_origin_uses_public_domain() {
    assert_eq!(railway().cors_origin(), "https://example.up.railway.app");
}

#[test]
fn bind_addr_and_default_port() {
    assert_eq!(default_port(), 5800);
    let c = Config { port: default_port(), railway: railway() };
    assert_eq!(c.bind_addr(), "0.0.0.0:5800");
    let c = Config { port: 65535, railway: railway() };
    assert_eq!(c.bind_addr(), "0.0.0.0:65535");
}

#[test]
fn status_codes() {
    assert_eq!(AppError::SessionNotFound { id: 1 }.status_code(), 400);
    assert_eq!(AppError::MalformedCorrelationKey.status_code(), 400);
    assert_eq!(AppError::TokenNotFound { token: 1 }.status_code(), 401);
    assert_eq!(AppError::ArtifactNotFound { artifact: "x".to_string() }.status_code(), 404);
    assert_eq!(AppError::ChannelUnavailable { session: 1 }.status_code(), 304);
    assert_eq!(AppError::ChannelsExhausted.status_code(), 500);
    assert_eq!(AppError::ValueTooLong { length: 2, capacity: 1 }.status_code(), 500);
    assert_eq!(AppError::ExecutableNotFound { path: "p".to_string() }.status_code(), 500);
    assert_eq!(AppError::KeyPatternNotFound { name: "n".to_string() }.status_code(), 500);
    assert_eq!(AppError::MissingEnvVar { name: "n".to_string() }.status_code(), 500);
    assert_eq!(AppError::Config { message: "m".to_string() }.status_code(), 500);
}
