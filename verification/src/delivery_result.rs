//! The per-recipient delivery outcome.

use vstd::prelude::*;

verus! {

/// The result (so far) of the sending of an email to a particular recipient.
#[derive(Debug)]
pub enum DeliveryResult {
    /// Mail is queued to be sent, but no attempt has yet been made to send.
    Queued,
    /// Mail sending has been deferred due to a transient error.  Number of
    /// attempts so far and the reason are included.
    Deferred(u8, String),
    /// Mail has been delivered.  The positive SMTP reply is included.
    Delivered(String),
    /// Mail sending has failed due to a permanent error.  The reason is
    /// included.  This state is terminal.
    Failed(String),
}

/// The mathematical model of a `DeliveryResult`: reasons and replies are
/// sequences of characters.
pub enum DeliveryResultView {
    Queued,
    Deferred(u8, Seq<char>),
    Delivered(Seq<char>),
    Failed(Seq<char>),
}

impl View for DeliveryResult {
    type V = DeliveryResultView;

    open spec fn view(&self) -> DeliveryResultView {
        match self {
            DeliveryResult::Queued => DeliveryResultView::Queued,
            DeliveryResult::Deferred(a, m) => DeliveryResultView::Deferred(*a, m@),
            DeliveryResult::Delivered(m) => DeliveryResultView::Delivered(m@),
            DeliveryResult::Failed(m) => DeliveryResultView::Failed(m@),
        }
    }
}

/// A result is completed when it is terminal: delivered or failed.
pub open spec fn spec_completed(r: DeliveryResultView) -> bool {
    match r {
        DeliveryResultView::Queued => false,
        DeliveryResultView::Deferred(_, _) => false,
        DeliveryResultView::Delivered(_) => true,
        DeliveryResultView::Failed(_) => true,
    }
}

impl DeliveryResult {
    /// Whether this result is terminal (`Delivered` or `Failed`).
    pub fn completed(&self) -> (r: bool)
        ensures
            r == spec_completed(self@),
    {
        match *self {
            DeliveryResult::Queued | DeliveryResult::Deferred(_, _) => false,
            _ => true,
        }
    }
}

impl Clone for DeliveryResult {
    fn clone(&self) -> (r: Self)
        ensures
            r@ == self@,
    {
        match self {
            DeliveryResult::Queued => DeliveryResult::Queued,
            DeliveryResult::Deferred(a, m) => DeliveryResult::Deferred(*a, m.clone()),
            DeliveryResult::Delivered(m) => DeliveryResult::Delivered(m.clone()),
            DeliveryResult::Failed(m) => DeliveryResult::Failed(m.clone()),
        }
    }
}

} // verus!
