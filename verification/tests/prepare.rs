//! Tests of message preparation: recipient collection, Bcc blinding,
//! message identifiers, and address validation.

use email_format::Email;
use email_format::rfc5322::Parsable;
use mailstrom::delivery_result::DeliveryResult;
use mailstrom::error::Error;
use mailstrom::prepared_email::{message_has_bcc_header, prepare_email};

fn base_email() -> Email {
    Email::new("myself@mydomain.com", "Wed, 05 Jan 2015 15:13:05 +1300").unwrap()
}

#[test]
fn bcc_blinding() {
    let mut email = base_email();
    email.set_to("You <you@yourdomain.com>").unwrap();
    email.set_bcc("hidden@secretdomain.com").unwrap();
    email.set_subject("Hello").unwrap();
    email.set_body("Hi.\r\n").unwrap();

    let (prepared, status) = prepare_email(email, "my.host.test").unwrap();

    // The envelope sender is the rendered From header value.
    assert_eq!(prepared.from, "myself@mydomain.com");
    // The Bcc recipient is in the envelope but nowhere in the bytes.
    assert!(prepared.to.contains(&"hidden@secretdomain.com".to_string()));
    let text = String::from_utf8(prepared.message.clone()).unwrap();
    assert!(!text.contains("Bcc:"));
    assert!(!text.contains("secretdomain"));
    assert!(text.contains("To:"));

    // The byte image still parses as an RFC 5322 message.
    let (reparsed, rem) = Email::parse(&prepared.message).unwrap();
    assert_eq!(rem.len(), 0);
    assert!(reparsed.get_bcc().is_none());

    assert_eq!(status.recipients.len(), 2);
    assert_eq!(status.attempts_remaining, 3);
    for r in &status.recipients {
        assert!(matches!(r.result, DeliveryResult::Queued));
        assert!(r.mx_servers.is_none());
        assert_eq!(r.current_mx, 0);
    }
}

#[test]
fn message_id_from_header() {
    let mut email = base_email();
    email.set_to("you@yourdomain.com").unwrap();
    email.set_message_id("<left.part@right.example>").unwrap();
    email.set_body("Hello.\r\n").unwrap();

    let (prepared, status) = prepare_email(email, "helo.test").unwrap();
    assert_eq!(status.message_id, "left.part@right.example");
    assert_eq!(prepared.message_id, status.message_id);

    // The header value matches the tracked identifier.
    let (reparsed, _) = Email::parse(&prepared.message).unwrap();
    let mid = reparsed.get_message_id().unwrap();
    let joined = format!("{}@{}", mid.0.id_left, mid.0.id_right);
    assert_eq!(joined, status.message_id);
}

#[test]
fn message_id_generated() {
    let mut email = base_email();
    email.set_to("you@yourdomain.com").unwrap();
    email.set_body("Hello.\r\n").unwrap();

    let (prepared, status) = prepare_email(email, "my.host.test").unwrap();
    // 36 characters of unique part, an @, and the helo name.
    assert_eq!(status.message_id.len(), 36 + 1 + "my.host.test".len());
    assert!(status.message_id.ends_with("@my.host.test"));

    // The generated identifier was set on the message itself.
    let (reparsed, _) = Email::parse(&prepared.message).unwrap();
    let mid = reparsed.get_message_id().unwrap();
    let joined = format!("{}@{}", mid.0.id_left, mid.0.id_right);
    assert_eq!(joined, status.message_id);
}

#[test]
fn duplicate_submission_distinct_ids() {
    let mut email = base_email();
    email.set_to("you@yourdomain.com").unwrap();
    let email2 = email.clone();

    let (_, status1) = prepare_email(email, "helo.test").unwrap();
    let (_, status2) = prepare_email(email2, "helo.test").unwrap();
    // Without a caller-supplied Message-ID the identifiers are fresh.
    assert_ne!(status1.message_id, status2.message_id);

    // With an identical caller-supplied Message-ID they coincide.
    let mut email3 = base_email();
    email3.set_to("you@yourdomain.com").unwrap();
    email3.set_message_id("<fixed@id.example>").unwrap();
    let email4 = email3.clone();
    let (_, status3) = prepare_email(email3, "helo.test").unwrap();
    let (_, status4) = prepare_email(email4, "helo.test").unwrap();
    assert_eq!(status3.message_id, status4.message_id);
}

#[test]
fn recipients_deduplicated() {
    let mut email = base_email();
    email.set_to("One <same@dup.example>, two@other.example").unwrap();
    email.set_cc("same@dup.example").unwrap();
    email.set_bcc("two@other.example, three@third.example").unwrap();

    let (prepared, status) = prepare_email(email, "helo.test").unwrap();
    assert_eq!(status.recipients.len(), 3);
    assert_eq!(prepared.to, vec![
        "same@dup.example".to_string(),
        "two@other.example".to_string(),
        "three@third.example".to_string(),
    ]);
    // First occurrence wins: the display form keeps the display name.
    assert_eq!(status.recipients[0].email_addr, "One <same@dup.example>");
    assert_eq!(status.recipients[0].smtp_email_addr, "same@dup.example");
    assert_eq!(status.recipients[0].domain, "dup.example");
}

#[test]
fn group_recipients_flattened() {
    let mut email = base_email();
    email.set_to("Friends:a@group.example,b@group.example;").unwrap();

    let (prepared, status) = prepare_email(email, "helo.test").unwrap();
    assert_eq!(status.recipients.len(), 2);
    assert_eq!(prepared.to, vec![
        "a@group.example".to_string(),
        "b@group.example".to_string(),
    ]);
}

#[test]
fn empty_group_dropped() {
    let mut email = base_email();
    email.set_to("Undisclosed:;, real@somewhere.example").unwrap();

    let (_, status) = prepare_email(email, "helo.test").unwrap();
    assert_eq!(status.recipients.len(), 1);
    assert_eq!(status.recipients[0].smtp_email_addr, "real@somewhere.example");
}

#[test]
fn invalid_address_rejected() {
    // "user@nodot" parses as RFC 5322 but fails the SMTP library's check
    // (the domain has no period and is not localhost).
    let mut email = base_email();
    email.set_to("user@nodot").unwrap();

    match prepare_email(email, "helo.test") {
        Err(e) => {
            assert!(matches!(e, Error::LettreEmailAddress(_)));
            assert!(e
                .description_string()
                .starts_with("Lettre crate Email Address error:"));
        },
        Ok(_) => panic!("expected an address-syntax error"),
    }
}

#[test]
fn localhost_address_allowed() {
    let mut email = base_email();
    email.set_to("user@localhost").unwrap();
    assert!(prepare_email(email, "helo.test").is_ok());
}

#[test]
fn missing_from_rejected() {
    // A parsed message need not carry a From field; preparation rejects it
    // instead of panicking inside the header accessor.
    let input = b"Date: Wed, 05 Jan 2015 15:13:05 +1300\r\n\
                  To: you@yourdomain.com\r\n\
                  \r\n\
                  Hi.\r\n" as &[u8];
    let (email, rem) = Email::parse(input).unwrap();
    assert_eq!(rem.len(), 0);
    match prepare_email(email, "helo.test") {
        Err(Error::EmailParser(_)) => {},
        other => panic!("expected a parse error, got {:?}", other.is_ok()),
    }
}

#[test]
fn malformed_bcc_line_rejected() {
    // A "Bcc:" line whose value fits neither an address list nor comments
    // parses as an unrecognised field, survives the Bcc clearing, and would
    // leak into the byte image; preparation detects and rejects it.
    let input = b"Date: Wed, 05 Jan 2015 15:13:05 +1300\r\n\
                  From: myself@mydomain.com\r\n\
                  To: you@yourdomain.com\r\n\
                  Bcc: ???\r\n\
                  \r\n\
                  Hi.\r\n" as &[u8];
    let (email, rem) = Email::parse(input).unwrap();
    assert_eq!(rem.len(), 0);
    match prepare_email(email, "helo.test") {
        Err(Error::EmailParser(_)) => {},
        other => panic!("expected a parse error, got {:?}", other.is_ok()),
    }
}

#[test]
fn bcc_header_scan_is_case_insensitive() {
    let with_bcc = b"From: a@b.test\r\nBcc: x@y.test\r\n\r\nHi.\r\n".to_vec();
    assert!(message_has_bcc_header(&with_bcc));
    let with_upper = b"From: a@b.test\r\nBCC: x@y.test\r\n\r\nHi.\r\n".to_vec();
    assert!(message_has_bcc_header(&with_upper));
    let with_lower = b"From: a@b.test\r\nbcc: x@y.test\r\n\r\nHi.\r\n".to_vec();
    assert!(message_has_bcc_header(&with_lower));
    // A "Bcc:" in the body is not a header line.
    let in_body = b"From: a@b.test\r\n\r\nBcc: x@y.test\r\n".to_vec();
    assert!(!message_has_bcc_header(&in_body));
    // A folded value continues with whitespace, not a new header name.
    let folded = b"From: a@b.test\r\nSubject: hi\r\n there\r\n\r\nHi.\r\n".to_vec();
    assert!(!message_has_bcc_header(&folded));
    let clean = b"From: a@b.test\r\nTo: c@d.test\r\n\r\nHi.\r\n".to_vec();
    assert!(!message_has_bcc_header(&clean));
}
