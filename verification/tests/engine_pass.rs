//! Tests of the worker pass: planning, outcome application, attempt and
//! backoff bookkeeping, and the concrete delivery scenarios.

use mailstrom::config::{
    Config,
    DeliveryConfig,
    RelayConfig,
    RemoteDeliveryConfig,
    ResolverSetup,
};
use mailstrom::delivery::{
    apply_step_outcome,
    fail_exhausted_recipients,
    finish_pass,
    plan_mx_deliveries,
    step_recipient_addrs,
};
use mailstrom::delivery_result::DeliveryResult;
use mailstrom::message_status::InternalMessageStatus;
use mailstrom::recipient_status::InternalRecipientStatus;
use mailstrom::task::TaskType;

fn recipient(addr: &str, domain: &str) -> InternalRecipientStatus {
    InternalRecipientStatus {
        email_addr: addr.to_string(),
        smtp_email_addr: addr.to_string(),
        domain: domain.to_string(),
        mx_servers: None,
        current_mx: 0,
        result: DeliveryResult::Queued,
    }
}

fn status_of(recipients: Vec<InternalRecipientStatus>) -> InternalMessageStatus {
    InternalMessageStatus {
        message_id: "mid@test.example".to_string(),
        recipients,
        attempts_remaining: 3,
    }
}

fn relay_config() -> Config {
    Config {
        helo_name: "helo.test".to_string(),
        smtp_timeout_secs: 60,
        base_resend_delay_secs: 60,
        require_tls: false,
        delivery: DeliveryConfig::Relay(RelayConfig {
            domain_name: "smtp.example.net".to_string(),
            port: None,
            use_tls: true,
            auth: None,
        }),
    }
}

fn remote_config() -> Config {
    Config {
        helo_name: "helo.test".to_string(),
        smtp_timeout_secs: 60,
        base_resend_delay_secs: 60,
        require_tls: false,
        delivery: DeliveryConfig::Remote(RemoteDeliveryConfig {
            resolver_setup: ResolverSetup::SystemConf,
        }),
    }
}

#[test]
fn relay_happy_path() {
    // One recipient through a relay: one session to the relay's host,
    // delivered, no attempts left, no retry task.
    let config = relay_config();
    let mut status = status_of(vec![recipient("a@x.test", "x.test")]);

    fail_exhausted_recipients(&mut status);
    let plan = plan_mx_deliveries(&mut status, &config);
    assert_eq!(plan.len(), 1);
    assert_eq!(plan[0].mx_server, "smtp.example.net");
    assert_eq!(plan[0].recipients, vec![0usize]);
    assert_eq!(mailstrom::smtp::session_port(&config), 25);

    let to = step_recipient_addrs(&status, &plan[0]);
    assert_eq!(to, vec!["a@x.test".to_string()]);

    let outcome = DeliveryResult::Delivered("250 ok".to_string());
    let deferred = apply_step_outcome(&mut status, &plan[0], &outcome);
    assert!(!deferred);
    assert!(matches!(status.recipients[0].result, DeliveryResult::Delivered(ref m) if m.contains("250")));

    let task = finish_pass(&mut status, deferred, 1000, 60);
    assert_eq!(status.attempts_remaining, 0);
    assert!(task.is_none());
}

#[test]
fn direct_two_recipients_one_mx() {
    // Two recipients of one domain share the one exchange: one session,
    // both addresses in its RCPT TO set, both delivered.
    let config = remote_config();
    let mut a = recipient("a@ex.test", "ex.test");
    a.mx_servers = Some(vec!["mx1.ex.test".to_string()]);
    let mut b = recipient("b@ex.test", "ex.test");
    b.mx_servers = Some(vec!["mx1.ex.test".to_string()]);
    let mut status = status_of(vec![a, b]);

    let plan = plan_mx_deliveries(&mut status, &config);
    assert_eq!(plan.len(), 1);
    assert_eq!(plan[0].mx_server, "mx1.ex.test");
    assert_eq!(plan[0].recipients, vec![0usize, 1usize]);

    let to = step_recipient_addrs(&status, &plan[0]);
    assert_eq!(to, vec!["a@ex.test".to_string(), "b@ex.test".to_string()]);

    let outcome = DeliveryResult::Delivered("250 ok".to_string());
    let deferred = apply_step_outcome(&mut status, &plan[0], &outcome);
    assert!(!deferred);
    assert!(matches!(status.recipients[0].result, DeliveryResult::Delivered(_)));
    assert!(matches!(status.recipients[1].result, DeliveryResult::Delivered(_)));
}

#[test]
fn transient_then_success() {
    // First pass 421, second pass 250: attempts go 3 -> 2 -> 0, and the
    // retry is scheduled a multiple of the base delay later.
    let config = remote_config();
    let mut r = recipient("a@ex.test", "ex.test");
    r.mx_servers = Some(vec!["mx1.ex.test".to_string()]);
    let mut status = status_of(vec![r]);
    assert_eq!(status.attempts_remaining, 3);

    // Pass 1.
    fail_exhausted_recipients(&mut status);
    let plan = plan_mx_deliveries(&mut status, &config);
    let outcome = DeliveryResult::Deferred(1, "421 busy".to_string());
    let deferred = apply_step_outcome(&mut status, &plan[0], &outcome);
    assert!(deferred);
    assert!(matches!(status.recipients[0].result, DeliveryResult::Deferred(1, _)));
    let task = finish_pass(&mut status, deferred, 100, 60).unwrap();
    assert_eq!(status.attempts_remaining, 2);
    assert_eq!(task.tasktype, TaskType::Resend);
    assert_eq!(task.message_id, "mid@test.example");
    // 3^(3-2) * 60 = 180 seconds after "now", which is at least the base.
    assert_eq!(task.time, 100 + 180);

    // Pass 2.
    fail_exhausted_recipients(&mut status);
    let plan = plan_mx_deliveries(&mut status, &config);
    let outcome = DeliveryResult::Delivered("250 ok".to_string());
    let deferred = apply_step_outcome(&mut status, &plan[0], &outcome);
    assert!(!deferred);
    let task = finish_pass(&mut status, deferred, 400, 60);
    assert_eq!(status.attempts_remaining, 0);
    assert!(task.is_none());
    assert!(matches!(status.recipients[0].result, DeliveryResult::Delivered(_)));
}

#[test]
fn permanent_failure_stops_retries() {
    // A 550 fails the recipient on the first pass; nothing is rescheduled.
    let config = remote_config();
    let mut r = recipient("a@ex.test", "ex.test");
    r.mx_servers = Some(vec!["mx1.ex.test".to_string()]);
    let mut status = status_of(vec![r]);

    let plan = plan_mx_deliveries(&mut status, &config);
    let outcome = DeliveryResult::Failed("550 no such user".to_string());
    let deferred = apply_step_outcome(&mut status, &plan[0], &outcome);
    assert!(!deferred);
    let task = finish_pass(&mut status, deferred, 0, 60);
    assert_eq!(status.attempts_remaining, 0);
    assert!(task.is_none());
    assert!(matches!(status.recipients[0].result, DeliveryResult::Failed(ref m) if m.contains("550")));
}

#[test]
fn exhaustion_rewrite() {
    // Three transient passes in a row: Deferred(1), Deferred(2), then the
    // exhaustion rewrite turns the third deferral into a failure.
    let config = remote_config();
    let mut r = recipient("a@ex.test", "ex.test");
    r.mx_servers = Some(vec!["mx1.ex.test".to_string()]);
    let mut status = status_of(vec![r]);

    let mut now = 0u64;
    for pass in 0..3u64 {
        fail_exhausted_recipients(&mut status);
        let plan = plan_mx_deliveries(&mut status, &config);
        let outcome = DeliveryResult::Deferred(1, "421 try later".to_string());
        let deferred = apply_step_outcome(&mut status, &plan[0], &outcome);
        assert!(deferred);
        if pass < 2 {
            assert!(matches!(status.recipients[0].result,
                DeliveryResult::Deferred(a, _) if a == pass as u8 + 1));
        }
        let task = finish_pass(&mut status, deferred, now, 60);
        if pass < 2 {
            now = task.unwrap().time;
        } else {
            assert!(task.is_none());
        }
    }
    assert_eq!(status.attempts_remaining, 0);
    match &status.recipients[0].result {
        DeliveryResult::Failed(m) => {
            assert_eq!(m, "Too many attempts (3): 421 try later");
        },
        other => panic!("expected a failure, got {:?}", other),
    }
}

#[test]
fn five_deferrals_fail_at_planning() {
    let config = remote_config();
    let mut r = recipient("a@ex.test", "ex.test");
    r.mx_servers = Some(vec!["mx1.ex.test".to_string()]);
    r.result = DeliveryResult::Deferred(5, "421 still busy".to_string());
    let mut status = status_of(vec![r]);

    let plan = plan_mx_deliveries(&mut status, &config);
    assert_eq!(plan.len(), 0);
    match &status.recipients[0].result {
        DeliveryResult::Failed(m) => {
            assert_eq!(m, "Failed after 5 attempts: 421 still busy");
        },
        other => panic!("expected a failure, got {:?}", other),
    }
}

#[test]
fn missing_mx_fails_at_planning() {
    let config = remote_config();
    let mut with_empty = recipient("a@ex.test", "ex.test");
    with_empty.mx_servers = Some(Vec::new());
    let with_none = recipient("b@other.test", "other.test");
    let mut status = status_of(vec![with_empty, with_none]);

    let plan = plan_mx_deliveries(&mut status, &config);
    assert_eq!(plan.len(), 0);
    for r in &status.recipients {
        match &r.result {
            DeliveryResult::Failed(m) => {
                assert_eq!(m, "MX records found but none are valid");
            },
            other => panic!("expected a failure, got {:?}", other),
        }
    }
}

#[test]
fn plan_groups_by_exchange() {
    // One recipient with two exchanges, one sharing the second: one step
    // per distinct exchange, recipients grouped.
    let config = remote_config();
    let mut a = recipient("a@ex.test", "ex.test");
    a.mx_servers = Some(vec!["mx1.ex.test".to_string(), "mx2.ex.test".to_string()]);
    let mut b = recipient("b@other.test", "other.test");
    b.mx_servers = Some(vec!["mx2.ex.test".to_string()]);
    let mut status = status_of(vec![a, b]);

    let plan = plan_mx_deliveries(&mut status, &config);
    assert_eq!(plan.len(), 2);
    assert_eq!(plan[0].mx_server, "mx1.ex.test");
    assert_eq!(plan[0].recipients, vec![0usize]);
    assert_eq!(plan[1].mx_server, "mx2.ex.test");
    assert_eq!(plan[1].recipients, vec![0usize, 1usize]);
}

#[test]
fn plan_respects_current_mx() {
    let config = remote_config();
    let mut a = recipient("a@ex.test", "ex.test");
    a.mx_servers = Some(vec!["mx1.ex.test".to_string(), "mx2.ex.test".to_string()]);
    a.current_mx = 1;
    let mut status = status_of(vec![a]);

    let plan = plan_mx_deliveries(&mut status, &config);
    assert_eq!(plan.len(), 1);
    assert_eq!(plan[0].mx_server, "mx2.ex.test");
}

#[test]
fn completed_recipients_left_alone() {
    // Terminal stickiness: a delivered recipient is skipped by planning,
    // left out of the RCPT TO list, and untouched by new outcomes.
    let config = remote_config();
    let mut done = recipient("done@ex.test", "ex.test");
    done.mx_servers = Some(vec!["mx1.ex.test".to_string()]);
    done.result = DeliveryResult::Delivered("250 earlier".to_string());
    let mut pending = recipient("pending@ex.test", "ex.test");
    pending.mx_servers = Some(vec!["mx1.ex.test".to_string()]);
    let mut status = status_of(vec![done, pending]);

    let plan = plan_mx_deliveries(&mut status, &config);
    assert_eq!(plan.len(), 1);
    assert_eq!(plan[0].recipients, vec![1usize]);

    let to = step_recipient_addrs(&status, &plan[0]);
    assert_eq!(to, vec!["pending@ex.test".to_string()]);

    let outcome = DeliveryResult::Failed("550 rejected".to_string());
    apply_step_outcome(&mut status, &plan[0], &outcome);
    assert!(matches!(status.recipients[0].result,
        DeliveryResult::Delivered(ref m) if m == "250 earlier"));
    assert!(matches!(status.recipients[1].result, DeliveryResult::Failed(_)));
}

#[test]
fn deferred_outcome_bumps_recipient_counter() {
    let config = remote_config();
    let mut r = recipient("a@ex.test", "ex.test");
    r.mx_servers = Some(vec!["mx1.ex.test".to_string()]);
    r.result = DeliveryResult::Deferred(2, "421 old reason".to_string());
    let mut status = status_of(vec![r]);

    let plan = plan_mx_deliveries(&mut status, &config);
    let outcome = DeliveryResult::Deferred(1, "421 new reason".to_string());
    apply_step_outcome(&mut status, &plan[0], &outcome);
    match &status.recipients[0].result {
        DeliveryResult::Deferred(a, m) => {
            assert_eq!(*a, 3);
            assert_eq!(m, "421 new reason");
        },
        other => panic!("expected a deferral, got {:?}", other),
    }
}
