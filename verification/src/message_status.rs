//! Per-message delivery information.

use vstd::prelude::*;
use crate::delivery_result::{DeliveryResultView, spec_completed};
use crate::recipient_status::{
    InternalRecipientStatus,
    RecipientStatus,
    RecipientStatusModel,
    RecipientStatusReportModel,
};

verus! {

/// An email to be sent (internal format).  This is exposed publicly for
/// implementers of `MailstromStorage` but otherwise should not be needed by
/// users of this library.
#[derive(Debug)]
pub struct InternalMessageStatus {
    /// The parsed-out (or generated) message ID.
    pub message_id: String,
    /// The parsed-out list of recipients, and the state each is in.
    pub recipients: Vec<InternalRecipientStatus>,
    /// Attempts remaining.  This counts backwards to zero.  If all deliveries
    /// are complete (permanent success or failure), it is set to zero.
    ///
    /// Per-recipient deferred attempt numbers count upwards, and may get more
    /// attempts because a single worker pass may try a recipient on multiple
    /// MX servers.
    pub attempts_remaining: u8,
}

/// The mathematical model of an `InternalMessageStatus`.
pub struct MessageStatusModel {
    pub message_id: Seq<char>,
    pub recipients: Seq<RecipientStatusModel>,
    pub attempts_remaining: u8,
}

impl View for InternalMessageStatus {
    type V = MessageStatusModel;

    open spec fn view(&self) -> MessageStatusModel {
        MessageStatusModel {
            message_id: self.message_id@,
            recipients: self.recipients@.map_values(|r: InternalRecipientStatus| r@),
            attempts_remaining: self.attempts_remaining,
        }
    }
}

impl InternalMessageStatus {
    /// The externally visible status of this message.
    pub fn as_message_status(&self) -> (r: MessageStatus)
        ensures
            r@.message_id == self@.message_id,
            r@.recipient_status.len() == self@.recipients.len(),
            forall|i: int|
                0 <= i < self@.recipients.len() ==> {
                    &&& r@.recipient_status[i].recipient == self@.recipients[i].email_addr
                    &&& r@.recipient_status[i].result == self@.recipients[i].result
                },
    {
        let mut recipient_status: Vec<RecipientStatus> = Vec::new();
        let mut i: usize = 0;
        while i < self.recipients.len()
            invariant
                i <= self.recipients.len(),
                recipient_status@.len() == i,
                forall|j: int|
                    0 <= j < i ==> {
                        &&& recipient_status@[j]@.recipient == self@.recipients[j].email_addr
                        &&& recipient_status@[j]@.result == self@.recipients[j].result
                    },
            decreases self.recipients.len() - i,
        {
            recipient_status.push(self.recipients[i].as_recipient_status());
            i = i + 1;
        }
        MessageStatus { message_id: self.message_id.clone(), recipient_status }
    }
}

impl Clone for InternalMessageStatus {
    fn clone(&self) -> (r: Self)
        ensures
            r@ == self@,
    {
        let mut recipients: Vec<InternalRecipientStatus> = Vec::new();
        let mut i: usize = 0;
        while i < self.recipients.len()
            invariant
                i <= self.recipients.len(),
                recipients@.len() == i,
                forall|j: int| 0 <= j < i ==> recipients@[j]@ == self@.recipients[j],
            decreases self.recipients.len() - i,
        {
            recipients.push(self.recipients[i].clone());
            i = i + 1;
        }
        let r = InternalMessageStatus {
            message_id: self.message_id.clone(),
            recipients,
            attempts_remaining: self.attempts_remaining,
        };
        proof {
            assert(r@.recipients =~= self@.recipients);
            assert(r@ =~= self@);
        }
        r
    }
}

/// The status of a message, as reported to the embedder.
#[derive(Debug)]
pub struct MessageStatus {
    /// The parsed-out (or generated) message ID.
    pub message_id: String,
    /// The status of each recipient.
    pub recipient_status: Vec<RecipientStatus>,
}

/// The mathematical model of a `MessageStatus`.
pub struct MessageStatusReportModel {
    pub message_id: Seq<char>,
    pub recipient_status: Seq<RecipientStatusReportModel>,
}

impl View for MessageStatus {
    type V = MessageStatusReportModel;

    open spec fn view(&self) -> MessageStatusReportModel {
        MessageStatusReportModel {
            message_id: self.message_id@,
            recipient_status: self.recipient_status@.map_values(|r: RecipientStatus| r@),
        }
    }
}

/// Whether every recipient of the message has been delivered to.
pub open spec fn spec_succeeded(m: MessageStatusReportModel) -> bool {
    forall|i: int|
        0 <= i < m.recipient_status.len() ==> m.recipient_status[i].result is Delivered
}

/// Whether every recipient of the message has a terminal result.
pub open spec fn spec_all_completed(m: MessageStatusReportModel) -> bool {
    forall|i: int|
        0 <= i < m.recipient_status.len() ==> spec_completed(m.recipient_status[i].result)
}

impl MessageStatus {
    /// Whether the message was delivered to every recipient.
    pub fn succeeded(&self) -> (r: bool)
        ensures
            r == spec_succeeded(self@),
    {
        let mut i: usize = 0;
        while i < self.recipient_status.len()
            invariant
                i <= self.recipient_status.len(),
                forall|j: int| 0 <= j < i ==> self@.recipient_status[j].result is Delivered,
            decreases self.recipient_status.len() - i,
        {
            proof {
                assert(self@.recipient_status[i as int] == self.recipient_status@[i as int]@);
            }
            match self.recipient_status[i].result {
                crate::delivery_result::DeliveryResult::Delivered(_) => {},
                _ => {
                    return false;
                },
            }
            i = i + 1;
        }
        true
    }

    /// Whether every recipient of the message has a terminal result.
    pub fn completed(&self) -> (r: bool)
        ensures
            r == spec_all_completed(self@),
    {
        let mut i: usize = 0;
        while i < self.recipient_status.len()
            invariant
                i <= self.recipient_status.len(),
                forall|j: int| 0 <= j < i ==> spec_completed(self@.recipient_status[j].result),
            decreases self.recipient_status.len() - i,
        {
            proof {
                assert(self@.recipient_status[i as int] == self.recipient_status@[i as int]@);
            }
            if !self.recipient_status[i].result.completed() {
                return false;
            }
            i = i + 1;
        }
        true
    }
}

} // verus!
