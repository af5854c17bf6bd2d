//! Per-recipient delivery information.

use vstd::prelude::*;
use crate::delivery_result::{DeliveryResult, DeliveryResultView};

verus! {

/// Per-recipient delivery information, as tracked by the engine.
#[derive(Debug)]
pub struct InternalRecipientStatus {
    /// The recipient's email address (for display).
    pub email_addr: String,
    /// The recipient's email address (addr-spec only, for SMTP).
    pub smtp_email_addr: String,
    /// The domain parsed off of the recipient's email address.
    pub domain: String,
    /// The MX servers for the domain (as host names), in order of delivery
    /// preference.  `None` until resolution has run.
    pub mx_servers: Option<Vec<String>>,
    /// The index into `mx_servers` from which the next attempt starts.
    pub current_mx: usize,
    /// The delivery result (so far) for this recipient.
    pub result: DeliveryResult,
}

/// The mathematical model of an `InternalRecipientStatus`.
pub struct RecipientStatusModel {
    pub email_addr: Seq<char>,
    pub smtp_email_addr: Seq<char>,
    pub domain: Seq<char>,
    pub mx_servers: Option<Seq<Seq<char>>>,
    pub current_mx: int,
    pub result: DeliveryResultView,
}

impl View for InternalRecipientStatus {
    type V = RecipientStatusModel;

    open spec fn view(&self) -> RecipientStatusModel {
        RecipientStatusModel {
            email_addr: self.email_addr@,
            smtp_email_addr: self.smtp_email_addr@,
            domain: self.domain@,
            mx_servers: match self.mx_servers {
                Option::None => Option::None,
                Option::Some(v) => Option::Some(v@.map_values(|s: String| s@)),
            },
            current_mx: self.current_mx as int,
            result: self.result@,
        }
    }
}

impl InternalRecipientStatus {
    /// The externally visible status for this recipient.
    pub fn as_recipient_status(&self) -> (r: RecipientStatus)
        ensures
            r@.recipient == self@.email_addr,
            r@.result == self@.result,
    {
        RecipientStatus { recipient: self.email_addr.clone(), result: self.result.clone() }
    }
}

impl Clone for InternalRecipientStatus {
    fn clone(&self) -> (r: Self)
        ensures
            r@ == self@,
    {
        let mx_servers: Option<Vec<String>> = match &self.mx_servers {
            Option::None => Option::None,
            Option::Some(v) => Option::Some(clone_string_vec(v)),
        };
        let r = InternalRecipientStatus {
            email_addr: self.email_addr.clone(),
            smtp_email_addr: self.smtp_email_addr.clone(),
            domain: self.domain.clone(),
            mx_servers,
            current_mx: self.current_mx,
            result: self.result.clone(),
        };
        proof {
            assert(r@.mx_servers == self@.mx_servers) by {
                match self.mx_servers {
                    Option::None => {},
                    Option::Some(v) => {
                        assert(r.mx_servers->Some_0@.map_values(|s: String| s@) =~= v@.map_values(
                            |s: String| s@,
                        ));
                    },
                }
            }
            assert(r@ =~= self@);
        }
        r
    }
}

/// Clones a vector of strings, keeping every element's characters.
pub fn clone_string_vec(v: &Vec<String>) -> (r: Vec<String>)
    ensures
        r@.map_values(|s: String| s@) == v@.map_values(|s: String| s@),
        r@.len() == v@.len(),
{
    let mut r: Vec<String> = Vec::new();
    let mut i: usize = 0;
    while i < v.len()
        invariant
            i <= v.len(),
            r@.len() == i,
            forall|j: int| 0 <= j < i ==> r@[j]@ == v@[j]@,
        decreases v.len() - i,
    {
        r.push(v[i].clone());
        i = i + 1;
    }
    proof {
        assert(r@.map_values(|s: String| s@) =~= v@.map_values(|s: String| s@));
    }
    r
}

/// Per-recipient delivery information, as reported to the embedder.
#[derive(Debug)]
pub struct RecipientStatus {
    /// The recipient's email address (for display).
    pub recipient: String,
    /// The delivery result (so far) for this recipient.
    pub result: DeliveryResult,
}

/// The mathematical model of a `RecipientStatus`.
pub struct RecipientStatusReportModel {
    pub recipient: Seq<char>,
    pub result: DeliveryResultView,
}

impl View for RecipientStatus {
    type V = RecipientStatusReportModel;

    open spec fn view(&self) -> RecipientStatusReportModel {
        RecipientStatusReportModel { recipient: self.recipient@, result: self.result@ }
    }
}

} // verus!
