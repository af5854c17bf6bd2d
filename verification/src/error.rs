//! Errors surfaced to the embedder.

use vstd::prelude::*;
use vstd::string::StringExecFns;

verus! {

/// An error surfaced by the embedding surface or during message preparation.
/// Payloads carry human-readable descriptions.
#[derive(Debug)]
pub enum Error {
    /// The control message could not be sent to the worker.
    Send(String),
    /// The message, or a header value, does not parse.
    EmailParser(String),
    /// A general error.
    General(String),
    /// Email state data could not be stored or retrieved.
    Storage(String),
    /// DNS is unavailable.
    DnsUnavailable,
    /// A lock was poisoned.
    Lock,
    /// An I/O error.
    Io(String),
    /// An email address failed the SMTP library's syntax check.
    LettreEmailAddress(String),
}

/// The description of each error: a fixed phrase, with the payload where
/// one exists.
pub open spec fn spec_error_description(e: Error) -> Seq<char> {
    match e {
        Error::Send(s) => "Unable to send message to worker: "@ + s@,
        Error::EmailParser(s) => "Email does not parse: "@ + s@,
        Error::General(s) => "General error: "@ + s@,
        Error::Storage(s) => "Could not store or retrieve email state data: "@ + s@,
        Error::DnsUnavailable => "DNS unavailable"@,
        Error::Lock => "Lock poisoned"@,
        Error::Io(s) => "I/O Error: "@ + s@,
        Error::LettreEmailAddress(s) => "Lettre crate Email Address error: "@ + s@,
    }
}

impl Error {
    /// A short description of the error, with its payload where one exists.
    pub fn description_string(&self) -> (r: String)
        ensures
            r@ == spec_error_description(*self),
    {
        match self {
            Error::Send(e) => {
                let mut t = String::from_str("Unable to send message to worker: ");
                t.append(e.as_str());
                proof {
                    assert(t@ =~= spec_error_description(*self));
                }
                t
            },
            Error::EmailParser(e) => {
                let mut t = String::from_str("Email does not parse: ");
                t.append(e.as_str());
                proof {
                    assert(t@ =~= spec_error_description(*self));
                }
                t
            },
            Error::General(e) => {
                let mut t = String::from_str("General error: ");
                t.append(e.as_str());
                proof {
                    assert(t@ =~= spec_error_description(*self));
                }
                t
            },
            Error::Storage(e) => {
                let mut t = String::from_str("Could not store or retrieve email state data: ");
                t.append(e.as_str());
                proof {
                    assert(t@ =~= spec_error_description(*self));
                }
                t
            },
            Error::DnsUnavailable => String::from_str("DNS unavailable"),
            Error::Lock => String::from_str("Lock poisoned"),
            Error::Io(e) => {
                let mut t = String::from_str("I/O Error: ");
                t.append(e.as_str());
                proof {
                    assert(t@ =~= spec_error_description(*self));
                }
                t
            },
            Error::LettreEmailAddress(e) => {
                let mut t = String::from_str("Lettre crate Email Address error: ");
                t.append(e.as_str());
                proof {
                    assert(t@ =~= spec_error_description(*self));
                }
                t
            },
        }
    }
}

} // verus!
