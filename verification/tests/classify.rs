//! Tests of SMTP outcome classification and session planning decisions.

use mailstrom::config::{
    Config,
    DeliveryConfig,
    RelayConfig,
    RemoteDeliveryConfig,
    ResolverSetup,
};
use mailstrom::delivery_result::DeliveryResult;
use mailstrom::smtp::{
    classify_outcome,
    session_port,
    session_security,
    IoKind,
    SecurityMode,
    SmtpOutcome,
    SmtpSeverity,
};

fn relay_config(use_tls: bool, require_tls: bool, port: Option<u16>) -> Config {
    Config {
        helo_name: "helo.test".to_string(),
        smtp_timeout_secs: 60,
        base_resend_delay_secs: 60,
        require_tls,
        delivery: DeliveryConfig::Relay(RelayConfig {
            domain_name: "smtp.example.net".to_string(),
            port,
            use_tls,
            auth: None,
        }),
    }
}

fn remote_config(require_tls: bool) -> Config {
    Config {
        helo_name: "helo.test".to_string(),
        smtp_timeout_secs: 60,
        base_resend_delay_secs: 60,
        require_tls,
        delivery: DeliveryConfig::Remote(RemoteDeliveryConfig {
            resolver_setup: ResolverSetup::SystemConf,
        }),
    }
}

#[test]
fn positive_reply_delivers() {
    let r = classify_outcome(SmtpOutcome::Reply(
        SmtpSeverity::PositiveCompletion,
        "250 ok".to_string(),
    ));
    assert!(matches!(r, DeliveryResult::Delivered(ref m) if m == "250 ok"));
}

#[test]
fn transient_reply_defers() {
    let r = classify_outcome(SmtpOutcome::Reply(
        SmtpSeverity::TransientNegativeCompletion,
        "421 busy".to_string(),
    ));
    assert!(matches!(r, DeliveryResult::Deferred(1, ref m) if m == "421 busy"));
}

#[test]
fn permanent_reply_fails() {
    let r = classify_outcome(SmtpOutcome::Reply(
        SmtpSeverity::PermanentNegativeCompletion,
        "550 no such user".to_string(),
    ));
    assert!(matches!(r, DeliveryResult::Failed(ref m) if m.contains("550")));
}

#[test]
fn resolution_failure_defers() {
    let r = classify_outcome(SmtpOutcome::Resolution);
    assert!(matches!(r, DeliveryResult::Deferred(1, ref m) if m == "DNS resolution failed"));
}

#[test]
fn transient_io_defers_other_io_fails() {
    let transient = [
        IoKind::ConnectionRefused,
        IoKind::ConnectionReset,
        IoKind::ConnectionAborted,
        IoKind::AddrInUse,
        IoKind::BrokenPipe,
        IoKind::TimedOut,
        IoKind::Interrupted,
        IoKind::HostUnreachable,
        IoKind::NetworkUnreachable,
        IoKind::NetworkDown,
        IoKind::ResourceBusy,
    ];
    for kind in transient {
        let r = classify_outcome(SmtpOutcome::Io(kind, "I/O error".to_string()));
        assert!(matches!(r, DeliveryResult::Deferred(1, _)));
    }
    let r = classify_outcome(SmtpOutcome::Io(IoKind::Other, "I/O error".to_string()));
    assert!(matches!(r, DeliveryResult::Failed(_)));
}

#[test]
fn non_io_errors_fail() {
    assert!(matches!(
        classify_outcome(SmtpOutcome::Tls("bad cert".to_string())),
        DeliveryResult::Failed(_)
    ));
    assert!(matches!(
        classify_outcome(SmtpOutcome::ResponseParsing("garbled".to_string())),
        DeliveryResult::Failed(_)
    ));
    assert!(matches!(
        classify_outcome(SmtpOutcome::ChallengeParsing("garbled".to_string())),
        DeliveryResult::Failed(_)
    ));
    assert!(matches!(
        classify_outcome(SmtpOutcome::Utf8Parsing("garbled".to_string())),
        DeliveryResult::Failed(_)
    ));
    assert!(matches!(
        classify_outcome(SmtpOutcome::Client("oops".to_string())),
        DeliveryResult::Failed(_)
    ));
    assert!(matches!(
        classify_outcome(SmtpOutcome::Parsing("oops".to_string())),
        DeliveryResult::Failed(_)
    ));
    assert!(matches!(
        classify_outcome(SmtpOutcome::Setup("no socket address".to_string())),
        DeliveryResult::Failed(_)
    ));
    assert!(matches!(
        classify_outcome(SmtpOutcome::Permanent("bad".to_string())),
        DeliveryResult::Failed(_)
    ));
    assert!(matches!(
        classify_outcome(SmtpOutcome::Transient("busy".to_string())),
        DeliveryResult::Deferred(1, _)
    ));
}

#[test]
fn security_mode_from_config() {
    assert_eq!(session_security(&relay_config(false, false, None)), SecurityMode::NoTls);
    assert_eq!(session_security(&relay_config(false, true, None)), SecurityMode::NoTls);
    assert_eq!(
        session_security(&relay_config(true, false, None)),
        SecurityMode::Opportunistic
    );
    assert_eq!(session_security(&relay_config(true, true, None)), SecurityMode::Required);
    assert_eq!(session_security(&remote_config(false)), SecurityMode::Opportunistic);
    assert_eq!(session_security(&remote_config(true)), SecurityMode::Required);
}

#[test]
fn port_from_config() {
    assert_eq!(session_port(&relay_config(true, false, Some(587))), 587);
    assert_eq!(session_port(&relay_config(true, false, None)), 25);
    assert_eq!(session_port(&remote_config(false)), 25);
}

#[test]
fn default_configuration() {
    let config = Config::default();
    assert_eq!(config.helo_name, "localhost");
    assert_eq!(config.smtp_timeout_secs, 60);
    assert_eq!(config.base_resend_delay_secs, 60);
    assert!(!config.require_tls);
    assert!(matches!(
        config.delivery,
        DeliveryConfig::Remote(ref rdc) if matches!(rdc.resolver_setup, ResolverSetup::SystemConf)
    ));
    assert_eq!(session_port(&config), 25);
    assert_eq!(session_security(&config), SecurityMode::Opportunistic);
}
