//! SMTP session planning and outcome classification.
//!
//! The network session itself (sockets, STARTTLS, the SMTP dialogue) is run
//! by the embedding shell; the decisions around it live here: which security
//! mode and port a session uses, and how the session's outcome maps onto a
//! recipient's `DeliveryResult`.

use vstd::prelude::*;
use vstd::string::StringExecFns;
use crate::config::{Config, DeliveryConfig};
use crate::delivery_result::{DeliveryResult, DeliveryResultView};

verus! {

/// The TLS policy of one SMTP session.
#[derive(Debug, Clone, Copy, PartialEq, Eq, Structural)]
pub enum SecurityMode {
    /// No TLS at all.
    NoTls,
    /// STARTTLS if the peer offers it.
    Opportunistic,
    /// STARTTLS must succeed.
    Required,
}

/// The severity class of an SMTP reply.
#[derive(Debug, Clone, Copy, PartialEq, Eq, Structural)]
pub enum SmtpSeverity {
    PositiveCompletion,
    PositiveIntermediate,
    TransientNegativeCompletion,
    PermanentNegativeCompletion,
}

/// The kind of an I/O error observed while talking to an SMTP server.
/// `Other` stands for every kind not named here.
#[derive(Debug, Clone, Copy, PartialEq, Eq, Structural)]
pub enum IoKind {
    ConnectionRefused,
    ConnectionReset,
    ConnectionAborted,
    AddrInUse,
    BrokenPipe,
    TimedOut,
    Interrupted,
    HostUnreachable,
    NetworkUnreachable,
    NetworkDown,
    ResourceBusy,
    Other,
}

/// What one SMTP session ended with.  String payloads carry the rendered
/// reply or error description that ends up in the recipient's result.
#[derive(Debug)]
pub enum SmtpOutcome {
    /// The server answered the final command; the reply's severity and its
    /// rendered form.
    Reply(SmtpSeverity, String),
    /// The SMTP library classified the error as transient.
    Transient(String),
    /// The SMTP library classified the error as permanent.
    Permanent(String),
    /// DNS resolution of the exchange failed while dialing.
    Resolution,
    /// The server's response could not be parsed.
    ResponseParsing(String),
    /// An authentication challenge could not be parsed.
    ChallengeParsing(String),
    /// A response was not valid UTF-8.
    Utf8Parsing(String),
    /// An internal error of the SMTP client.
    Client(String),
    /// An I/O error, with its kind and rendered form.
    Io(IoKind, String),
    /// A TLS error.
    Tls(String),
    /// A protocol parsing error.
    Parsing(String),
    /// The session could not even be set up (socket address resolution, TLS
    /// context construction, transport construction, or an invalid address).
    Setup(String),
}

/// The mathematical model of an `SmtpOutcome`.
pub enum SmtpOutcomeView {
    Reply(SmtpSeverity, Seq<char>),
    Transient(Seq<char>),
    Permanent(Seq<char>),
    Resolution,
    ResponseParsing(Seq<char>),
    ChallengeParsing(Seq<char>),
    Utf8Parsing(Seq<char>),
    Client(Seq<char>),
    Io(IoKind, Seq<char>),
    Tls(Seq<char>),
    Parsing(Seq<char>),
    Setup(Seq<char>),
}

impl View for SmtpOutcome {
    type V = SmtpOutcomeView;

    open spec fn view(&self) -> SmtpOutcomeView {
        match self {
            SmtpOutcome::Reply(sev, m) => SmtpOutcomeView::Reply(*sev, m@),
            SmtpOutcome::Transient(m) => SmtpOutcomeView::Transient(m@),
            SmtpOutcome::Permanent(m) => SmtpOutcomeView::Permanent(m@),
            SmtpOutcome::Resolution => SmtpOutcomeView::Resolution,
            SmtpOutcome::ResponseParsing(m) => SmtpOutcomeView::ResponseParsing(m@),
            SmtpOutcome::ChallengeParsing(m) => SmtpOutcomeView::ChallengeParsing(m@),
            SmtpOutcome::Utf8Parsing(m) => SmtpOutcomeView::Utf8Parsing(m@),
            SmtpOutcome::Client(m) => SmtpOutcomeView::Client(m@),
            SmtpOutcome::Io(k, m) => SmtpOutcomeView::Io(*k, m@),
            SmtpOutcome::Tls(m) => SmtpOutcomeView::Tls(m@),
            SmtpOutcome::Parsing(m) => SmtpOutcomeView::Parsing(m@),
            SmtpOutcome::Setup(m) => SmtpOutcomeView::Setup(m@),
        }
    }
}

/// Whether an I/O error kind is treated as transient.
pub open spec fn spec_transient_io(k: IoKind) -> bool {
    match k {
        IoKind::ConnectionRefused => true,
        IoKind::ConnectionReset => true,
        IoKind::ConnectionAborted => true,
        IoKind::AddrInUse => true,
        IoKind::BrokenPipe => true,
        IoKind::TimedOut => true,
        IoKind::Interrupted => true,
        IoKind::HostUnreachable => true,
        IoKind::NetworkUnreachable => true,
        IoKind::NetworkDown => true,
        IoKind::ResourceBusy => true,
        IoKind::Other => false,
    }
}

/// The attempt count placed in a `Deferred` result by classification; a
/// placeholder, overwritten per recipient by the worker.
pub open spec fn placeholder_attempt() -> u8 {
    1
}

/// How a session outcome maps onto a recipient's result.  A positive reply
/// delivers; transient conditions (4xx replies, transient library errors,
/// DNS resolution failures while dialing, transient I/O error kinds) defer;
/// everything else fails.
pub open spec fn spec_classify(o: SmtpOutcomeView) -> DeliveryResultView {
    match o {
        SmtpOutcomeView::Reply(sev, m) => match sev {
            SmtpSeverity::PositiveCompletion => DeliveryResultView::Delivered(m),
            SmtpSeverity::PositiveIntermediate => DeliveryResultView::Delivered(m),
            SmtpSeverity::TransientNegativeCompletion => DeliveryResultView::Deferred(
                placeholder_attempt(),
                m,
            ),
            SmtpSeverity::PermanentNegativeCompletion => DeliveryResultView::Failed(m),
        },
        SmtpOutcomeView::Transient(m) => DeliveryResultView::Deferred(placeholder_attempt(), m),
        SmtpOutcomeView::Permanent(m) => DeliveryResultView::Failed(m),
        SmtpOutcomeView::Resolution => DeliveryResultView::Deferred(
            placeholder_attempt(),
            "DNS resolution failed"@,
        ),
        SmtpOutcomeView::ResponseParsing(m) => DeliveryResultView::Failed(m),
        SmtpOutcomeView::ChallengeParsing(m) => DeliveryResultView::Failed(m),
        SmtpOutcomeView::Utf8Parsing(m) => DeliveryResultView::Failed(m),
        SmtpOutcomeView::Client(m) => DeliveryResultView::Failed(m),
        SmtpOutcomeView::Io(k, m) => if spec_transient_io(k) {
            DeliveryResultView::Deferred(placeholder_attempt(), m)
        } else {
            DeliveryResultView::Failed(m)
        },
        SmtpOutcomeView::Tls(m) => DeliveryResultView::Failed(m),
        SmtpOutcomeView::Parsing(m) => DeliveryResultView::Failed(m),
        SmtpOutcomeView::Setup(m) => DeliveryResultView::Failed(m),
    }
}

/// Maps a session's outcome onto a recipient result, per `spec_classify`.
pub fn classify_outcome(outcome: SmtpOutcome) -> (r: DeliveryResult)
    ensures
        r@ == spec_classify(outcome@),
        !(r@ is Queued),
{
    match outcome {
        SmtpOutcome::Reply(sev, m) => match sev {
            SmtpSeverity::PositiveCompletion | SmtpSeverity::PositiveIntermediate => {
                DeliveryResult::Delivered(m)
            },
            SmtpSeverity::TransientNegativeCompletion => DeliveryResult::Deferred(1, m),
            SmtpSeverity::PermanentNegativeCompletion => DeliveryResult::Failed(m),
        },
        SmtpOutcome::Transient(m) => DeliveryResult::Deferred(1, m),
        SmtpOutcome::Permanent(m) => DeliveryResult::Failed(m),
        SmtpOutcome::Resolution => DeliveryResult::Deferred(
            1,
            String::from_str("DNS resolution failed"),
        ),
        SmtpOutcome::ResponseParsing(m) => DeliveryResult::Failed(m),
        SmtpOutcome::ChallengeParsing(m) => DeliveryResult::Failed(m),
        SmtpOutcome::Utf8Parsing(m) => DeliveryResult::Failed(m),
        SmtpOutcome::Client(m) => DeliveryResult::Failed(m),
        SmtpOutcome::Io(k, m) => {
            let transient: bool = match k {
                IoKind::Other => false,
                _ => true,
            };
            if transient {
                DeliveryResult::Deferred(1, m)
            } else {
                DeliveryResult::Failed(m)
            }
        },
        SmtpOutcome::Tls(m) => DeliveryResult::Failed(m),
        SmtpOutcome::Parsing(m) => DeliveryResult::Failed(m),
        SmtpOutcome::Setup(m) => DeliveryResult::Failed(m),
    }
}

/// The TLS policy a session uses, derived from the configuration:
/// a relay with `use_tls` false gets no TLS; otherwise STARTTLS is required
/// when `require_tls` is set and opportunistic when it is not.
pub open spec fn spec_session_security(c: Config) -> SecurityMode {
    match c.delivery {
        DeliveryConfig::Relay(rc) => if !rc.use_tls {
            SecurityMode::NoTls
        } else if c.require_tls {
            SecurityMode::Required
        } else {
            SecurityMode::Opportunistic
        },
        DeliveryConfig::Remote(_) => if c.require_tls {
            SecurityMode::Required
        } else {
            SecurityMode::Opportunistic
        },
    }
}

/// Derives the session's TLS policy from the configuration.
pub fn session_security(config: &Config) -> (r: SecurityMode)
    ensures
        r == spec_session_security(*config),
{
    match &config.delivery {
        DeliveryConfig::Relay(rc) => {
            if !rc.use_tls {
                SecurityMode::NoTls
            } else if config.require_tls {
                SecurityMode::Required
            } else {
                SecurityMode::Opportunistic
            }
        },
        DeliveryConfig::Remote(_) => {
            if config.require_tls {
                SecurityMode::Required
            } else {
                SecurityMode::Opportunistic
            }
        },
    }
}

/// The port a session dials: the relay's configured port, or 25.
pub open spec fn spec_session_port(c: Config) -> u16 {
    match c.delivery {
        DeliveryConfig::Relay(rc) => match rc.port {
            Option::Some(p) => p,
            Option::None => 25,
        },
        DeliveryConfig::Remote(_) => 25,
    }
}

/// Derives the session's port from the configuration.
pub fn session_port(config: &Config) -> (r: u16)
    ensures
        r == spec_session_port(*config),
{
    match &config.delivery {
        DeliveryConfig::Relay(rc) => match rc.port {
            Option::Some(p) => p,
            Option::None => 25,
        },
        DeliveryConfig::Remote(_) => 25,
    }
}

} // verus!
