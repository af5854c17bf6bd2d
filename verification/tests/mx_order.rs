//! Tests of MX-record ordering: preference sort, the IP-literal demotion,
//! the RFC 5321 fallback, and root-dot stripping.

use mailstrom::mx::{is_ip, is_ip_literal, order_mx_records, strip_dots};

#[test]
fn mx_reordering_ip_literal_last() {
    let records = vec![
        (10u16, "[192.0.2.1]".to_string()),
        (10u16, "mx.ex.test".to_string()),
    ];
    let ordered = order_mx_records("ex.test", records);
    assert_eq!(ordered, vec!["mx.ex.test".to_string(), "[192.0.2.1]".to_string()]);
}

#[test]
fn rfc5321_fallback_on_empty() {
    let ordered = order_mx_records("tiny.test", Vec::new());
    assert_eq!(ordered, vec!["tiny.test".to_string()]);
}

#[test]
fn preference_sort_is_stable() {
    let records = vec![
        (20u16, "b.test.".to_string()),
        (10u16, "a.test.".to_string()),
        (10u16, "c.test.".to_string()),
    ];
    let ordered = order_mx_records("x.test", records);
    assert_eq!(ordered, vec![
        "a.test".to_string(),
        "c.test".to_string(),
        "b.test".to_string(),
    ]);
}

#[test]
fn bare_ip_demoted_despite_preference() {
    let records = vec![
        (5u16, "192.0.2.7".to_string()),
        (10u16, "mx.a.test".to_string()),
    ];
    let ordered = order_mx_records("a.test", records);
    assert_eq!(ordered, vec!["mx.a.test".to_string(), "192.0.2.7".to_string()]);
}

#[test]
fn dotted_ip_form_demoted() {
    // Fully-qualified forms carry a root dot, which the IP check ignores.
    let records = vec![
        (10u16, "198.51.100.9.".to_string()),
        (10u16, "mx.b.test.".to_string()),
    ];
    let ordered = order_mx_records("b.test", records);
    assert_eq!(ordered, vec!["mx.b.test".to_string(), "198.51.100.9".to_string()]);
}

#[test]
fn is_ip_checks_last_character() {
    assert!(is_ip("192.0.2.7"));
    assert!(is_ip("mx1"));
    assert!(!is_ip("mx.ex.test"));
    assert!(!is_ip("[192.0.2.1]"));
    assert!(!is_ip(""));
}

#[test]
fn ip_literal_forms() {
    assert!(is_ip_literal("192.0.2.7"));
    assert!(is_ip_literal("[192.0.2.1]"));
    assert!(is_ip_literal("192.0.2.7."));
    assert!(!is_ip_literal("mx.ex.test"));
    assert!(!is_ip_literal("mx.ex.test."));
    assert!(!is_ip_literal(""));
}

#[test]
fn strip_dots_removes_root_dot() {
    assert_eq!(strip_dots("mx.ex.test."), "mx.ex.test".to_string());
    assert_eq!(strip_dots("mx.ex.test"), "mx.ex.test".to_string());
    assert_eq!(strip_dots("..."), "".to_string());
    assert_eq!(strip_dots(""), "".to_string());
}
