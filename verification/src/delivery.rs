//! One worker pass over a message: the exhaustion rewrite, the per-MX
//! delivery plan, the per-step recipient list, the application of a
//! session's outcome, and the attempts/backoff bookkeeping.
//!
//! The embedding shell runs the SMTP sessions; everything decided around
//! them is here.

use vstd::prelude::*;
use crate::config::{Config, DeliveryConfig};
use crate::delivery_result::{DeliveryResult, DeliveryResultView, spec_completed};
use crate::message_status::InternalMessageStatus;
use crate::recipient_status::{InternalRecipientStatus, RecipientStatusModel, clone_string_vec};
use crate::task::{Task, TaskModel, TaskType};
use crate::text::{
    too_many_attempts_text,
    too_many_attempts_message,
    five_attempts_text,
    five_attempts_message,
    no_valid_mx_text,
    no_valid_mx_message,
};

verus! {

/// The same recipient with another result.
pub open spec fn with_result(
    r: RecipientStatusModel,
    res: DeliveryResultView,
) -> RecipientStatusModel {
    RecipientStatusModel {
        email_addr: r.email_addr,
        smtp_email_addr: r.smtp_email_addr,
        domain: r.domain,
        mx_servers: r.mx_servers,
        current_mx: r.current_mx,
        result: res,
    }
}

/// Clones a recipient, giving it another result.
fn clone_with_result(r: &InternalRecipientStatus, result: DeliveryResult) -> (o:
    InternalRecipientStatus)
    ensures
        o@ == with_result(r@, result@),
{
    let o = InternalRecipientStatus {
        email_addr: r.email_addr.clone(),
        smtp_email_addr: r.smtp_email_addr.clone(),
        domain: r.domain.clone(),
        mx_servers: match &r.mx_servers {
            Option::None => Option::None,
            Option::Some(v) => Option::Some(clone_string_vec(v)),
        },
        current_mx: r.current_mx,
        result,
    };
    proof {
        assert(o@.mx_servers == r@.mx_servers) by {
            match r.mx_servers {
                Option::None => {},
                Option::Some(v) => {
                    assert(o.mx_servers->Some_0@.map_values(|s: String| s@) =~= v@.map_values(
                        |s: String| s@,
                    ));
                },
            }
        }
        assert(o@ =~= with_result(r@, result@));
    }
    o
}

/// What the exhaustion rewrite does to one recipient: a recipient still
/// deferred is failed with "Too many attempts"; everyone else is untouched.
pub open spec fn spec_exhausted(r: RecipientStatusModel) -> RecipientStatusModel {
    match r.result {
        DeliveryResultView::Deferred(a, m) => with_result(
            r,
            DeliveryResultView::Failed(too_many_attempts_text(a, m)),
        ),
        _ => r,
    }
}

fn exhaust_recipient(r: &InternalRecipientStatus) -> (o: InternalRecipientStatus)
    ensures
        o@ == spec_exhausted(r@),
{
    match &r.result {
        DeliveryResult::Deferred(a, m) => clone_with_result(
            r,
            DeliveryResult::Failed(too_many_attempts_message(*a, m)),
        ),
        _ => r.clone(),
    }
}

/// Rewrites every recipient by the exhaustion rule.
fn exhaust_all(status: &mut InternalMessageStatus)
    ensures
        final(status)@.message_id == old(status)@.message_id,
        final(status)@.attempts_remaining == old(status)@.attempts_remaining,
        final(status)@.recipients == old(status)@.recipients.map_values(
            |r: RecipientStatusModel| spec_exhausted(r),
        ),
{
    let ghost pre = status@;
    let mut recipients: Vec<InternalRecipientStatus> = Vec::new();
    let mut i: usize = 0;
    while i < status.recipients.len()
        invariant
            status@ == pre,
            pre.recipients.len() == status.recipients@.len(),
            0 <= i <= status.recipients@.len(),
            recipients@.len() == i,
            forall|j: int| 0 <= j < i ==> recipients@[j]@ == spec_exhausted(pre.recipients[j]),
        decreases status.recipients.len() - i,
    {
        proof {
            assert(pre.recipients[i as int] == status.recipients@[i as int]@);
        }
        recipients.push(exhaust_recipient(&status.recipients[i]));
        i = i + 1;
    }
    status.recipients = recipients;
    proof {
        assert(final(status)@.recipients =~= pre.recipients.map_values(
            |r: RecipientStatusModel| spec_exhausted(r),
        ));
    }
}

/// The exhaustion conversion run at the start of a pass: with no attempts
/// remaining, every recipient still deferred is failed; with attempts
/// remaining nothing changes.
pub fn fail_exhausted_recipients(status: &mut InternalMessageStatus)
    ensures
        final(status)@.message_id == old(status)@.message_id,
        final(status)@.attempts_remaining == old(status)@.attempts_remaining,
        old(status)@.attempts_remaining == 0 ==> final(status)@.recipients == old(
            status,
        )@.recipients.map_values(|r: RecipientStatusModel| spec_exhausted(r)),
        old(status)@.attempts_remaining != 0 ==> final(status)@ == old(status)@,
{
    if status.attempts_remaining == 0 {
        exhaust_all(status);
    }
}

/// One planned SMTP session: an exchange host name and the indices (into
/// the message's recipient list) of the recipients to deliver to in that
/// session.
#[derive(Debug)]
pub struct MxDelivery {
    pub mx_server: String,
    pub recipients: Vec<usize>,
}

/// The mathematical model of an `MxDelivery`.
pub struct MxDeliveryModel {
    pub mx_server: Seq<char>,
    pub recipients: Seq<usize>,
}

impl View for MxDelivery {
    type V = MxDeliveryModel;

    open spec fn view(&self) -> MxDeliveryModel {
        MxDeliveryModel { mx_server: self.mx_server@, recipients: self.recipients@ }
    }
}

/// The model of a whole plan.
pub open spec fn plan_view(plan: Seq<MxDelivery>) -> Seq<MxDeliveryModel> {
    plan.map_values(|d: MxDelivery| d@)
}

/// Whether a recipient has no usable MX list: none resolved, or resolved
/// empty.
pub open spec fn mx_missing(r: RecipientStatusModel) -> bool {
    match r.mx_servers {
        Option::None => true,
        Option::Some(l) => l.len() == 0,
    }
}

/// The exchanges a recipient is still to be tried on: its MX list from
/// `current_mx` onward.
pub open spec fn tail_exchanges(r: RecipientStatusModel) -> Seq<Seq<char>> {
    match r.mx_servers {
        Option::None => Seq::empty(),
        Option::Some(l) => if 0 <= r.current_mx <= l.len() {
            l.skip(r.current_mx)
        } else {
            Seq::empty()
        },
    }
}

/// What planning does to one recipient: completed recipients are kept; a
/// recipient already deferred five times or more is failed; a recipient
/// without a usable MX list is failed; everyone else is kept and will be
/// part of the plan.
pub open spec fn spec_plan_rewrite(r: RecipientStatusModel) -> RecipientStatusModel {
    if spec_completed(r.result) {
        r
    } else {
        match r.result {
            DeliveryResultView::Deferred(a, m) => if a >= 5 {
                with_result(r, DeliveryResultView::Failed(five_attempts_text(m)))
            } else if mx_missing(r) {
                with_result(r, DeliveryResultView::Failed(no_valid_mx_text()))
            } else {
                r
            },
            _ => if mx_missing(r) {
                with_result(r, DeliveryResultView::Failed(no_valid_mx_text()))
            } else {
                r
            },
        }
    }
}

fn plan_rewrite_recipient(r: &InternalRecipientStatus) -> (o: InternalRecipientStatus)
    ensures
        o@ == spec_plan_rewrite(r@),
{
    let completed = r.result.completed();
    let deferred_attempts: Option<u8> = match &r.result {
        DeliveryResult::Deferred(a, _) => Option::Some(*a),
        _ => Option::None,
    };
    let over_cap: bool = match deferred_attempts {
        Option::Some(a) => a >= 5,
        Option::None => false,
    };
    let missing: bool = match &r.mx_servers {
        Option::None => true,
        Option::Some(l) => l.len() == 0,
    };
    if completed || (!over_cap && !missing) {
        let o = r.clone();
        proof {
            assert(o@ =~= spec_plan_rewrite(r@));
        }
        o
    } else {
        let result: DeliveryResult = if over_cap {
            match &r.result {
                DeliveryResult::Deferred(_, m) => DeliveryResult::Failed(five_attempts_message(m)),
                _ => DeliveryResult::Failed(no_valid_mx_message()),
            }
        } else {
            DeliveryResult::Failed(no_valid_mx_message())
        };
        let o = clone_with_result(r, result);
        proof {
            assert(o@ == spec_plan_rewrite(r@));
        }
        o
    }
}

/// The per-step well-formedness of a plan: every listed recipient index is
/// in bounds, names a recipient who is still pending, whose remaining
/// exchanges include this step's server; and the indices are strictly
/// ascending, so no recipient appears twice in one step.
pub open spec fn plan_entries_ok(step: MxDeliveryModel, rs: Seq<RecipientStatusModel>) -> bool {
    &&& forall|k: int|
        0 <= k < step.recipients.len() ==> {
            &&& (#[trigger] step.recipients[k] as int) < rs.len()
            &&& !spec_completed(rs[step.recipients[k] as int].result)
            &&& tail_exchanges(rs[step.recipients[k] as int]).contains(step.mx_server)
        }
    &&& forall|a: int, b: int|
        0 <= a < b < step.recipients.len() ==> step.recipients[a] < step.recipients[b]
}

/// Whether some step of the plan delivers to exchange `e` and includes
/// recipient `n`.
pub open spec fn step_has(plan: Seq<MxDeliveryModel>, e: Seq<char>, n: usize) -> bool {
    exists|i: int|
        0 <= i < plan.len() && (#[trigger] plan[i]).mx_server == e && plan[i].recipients.contains(
            n,
        )
}

/// A plan is right for a recipient list when its servers are distinct, its
/// steps are non-empty and well formed, and every remaining exchange of
/// every pending recipient has a step that includes that recipient.
pub open spec fn plan_ok(plan: Seq<MxDeliveryModel>, rs: Seq<RecipientStatusModel>) -> bool {
    &&& forall|i: int, j: int|
        0 <= i < j < plan.len() ==> (#[trigger] plan[i]).mx_server != (#[trigger] plan[j]).mx_server
    &&& forall|i: int| 0 <= i < plan.len() ==> (#[trigger] plan[i]).recipients.len() >= 1
    &&& forall|i: int| 0 <= i < plan.len() ==> plan_entries_ok(#[trigger] plan[i], rs)
    &&& forall|n: int, e: Seq<char>|
        0 <= n < rs.len() && !spec_completed(rs[n].result) && (#[trigger] tail_exchanges(
            rs[n],
        ).contains(e)) ==> step_has(plan, e, n as usize)
}

/// Plans the SMTP sessions of one pass.  With a relay, one session to the
/// relay covers every recipient and nothing changes.  With direct delivery,
/// recipients over the per-recipient attempt cap and recipients without a
/// usable MX list are failed, and the pending rest are grouped by exchange:
/// one step per distinct remaining exchange, holding each pending recipient
/// that lists it (at most once).
pub fn plan_mx_deliveries(status: &mut InternalMessageStatus, config: &Config) -> (plan: Vec<
    MxDelivery,
>)
    ensures
        final(status)@.message_id == old(status)@.message_id,
        final(status)@.attempts_remaining == old(status)@.attempts_remaining,
        config.delivery matches DeliveryConfig::Relay(rc) ==> {
            &&& final(status)@ == old(status)@
            &&& plan@.len() == 1
            &&& plan@[0]@.mx_server == rc.domain_name@
            &&& plan@[0]@.recipients.len() == old(status)@.recipients.len()
            &&& forall|k: int| 0 <= k < plan@[0]@.recipients.len() ==> plan@[0]@.recipients[k] == k
        },
        config.delivery is Remote ==> {
            &&& final(status)@.recipients == old(status)@.recipients.map_values(
                |r: RecipientStatusModel| spec_plan_rewrite(r),
            )
            &&& plan_ok(plan_view(plan@), final(status)@.recipients)
        },
{
    match &config.delivery {
        DeliveryConfig::Relay(rc) => {
            let mut indices: Vec<usize> = Vec::new();
            let mut k: usize = 0;
            while k < status.recipients.len()
                invariant
                    status@ == old(status)@,
                    0 <= k <= status.recipients@.len(),
                    indices@.len() == k,
                    forall|j: int| 0 <= j < k ==> indices@[j] == j,
                decreases status.recipients.len() - k,
            {
                indices.push(k);
                k = k + 1;
            }
            let mut plan: Vec<MxDelivery> = Vec::new();
            plan.push(MxDelivery { mx_server: rc.domain_name.clone(), recipients: indices });
            proof {
                assert(old(status)@.recipients.len() == old(status).recipients@.len());
            }
            plan
        },
        DeliveryConfig::Remote(_) => {
            let ghost pre = status@;
            let mut recipients: Vec<InternalRecipientStatus> = Vec::new();
            let mut k: usize = 0;
            while k < status.recipients.len()
                invariant
                    status@ == pre,
                    pre.recipients.len() == status.recipients@.len(),
                    0 <= k <= status.recipients@.len(),
                    recipients@.len() == k,
                    forall|j: int|
                        0 <= j < k ==> recipients@[j]@ == spec_plan_rewrite(pre.recipients[j]),
                decreases status.recipients.len() - k,
            {
                proof {
                    assert(pre.recipients[k as int] == status.recipients@[k as int]@);
                }
                recipients.push(plan_rewrite_recipient(&status.recipients[k]));
                k = k + 1;
            }
            status.recipients = recipients;
            proof {
                assert(status@.recipients =~= pre.recipients.map_values(
                    |r: RecipientStatusModel| spec_plan_rewrite(r),
                ));
            }
            group_by_exchange(status)
        },
    }
}

/// Groups the pending recipients of a message by remaining exchange: one
/// step per distinct exchange, each pending recipient listed once in every
/// step whose exchange it still has.
fn group_by_exchange(status: &InternalMessageStatus) -> (plan: Vec<MxDelivery>)
    ensures
        plan_ok(plan_view(plan@), status@.recipients),
{
    let ghost rs = status@.recipients;
    let mut plan: Vec<MxDelivery> = Vec::new();
    let mut k: usize = 0;
    while k < status.recipients.len()
        invariant
            rs == status@.recipients,
            rs.len() == status.recipients@.len(),
            0 <= k <= rs.len(),
            forall|i: int, j: int|
                0 <= i < j < plan_view(plan@).len() ==> (#[trigger] plan_view(plan@)[i]).mx_server
                    != (#[trigger] plan_view(plan@)[j]).mx_server,
            forall|i: int|
                0 <= i < plan_view(plan@).len() ==> (#[trigger] plan_view(
                    plan@,
                )[i]).recipients.len() >= 1,
            forall|i: int|
                0 <= i < plan_view(plan@).len() ==> plan_entries_ok(
                    #[trigger] plan_view(plan@)[i],
                    rs,
                ),
            forall|i: int, x: int|
                0 <= i < plan_view(plan@).len() && 0 <= x < plan_view(plan@)[i].recipients.len()
                    ==> (#[trigger] plan_view(plan@)[i].recipients[x] as int) < k,
            forall|n: int, e: Seq<char>|
                0 <= n < k && !spec_completed(rs[n].result) && (#[trigger] tail_exchanges(
                    rs[n],
                ).contains(e)) ==> step_has(plan_view(plan@), e, n as usize),
        decreases status.recipients.len() - k,
    {
        proof {
            assert(rs[k as int] == status.recipients@[k as int]@);
        }
        let rec = &status.recipients[k];
        if !rec.result.completed() {
            match &rec.mx_servers {
                Option::None => {
                    proof {
                        assert(tail_exchanges(rs[k as int]) =~= Seq::<Seq<char>>::empty());
                    }
                },
                Option::Some(list) => {
                    let start: usize = if rec.current_mx < list.len() {
                        rec.current_mx
                    } else {
                        list.len()
                    };
                    proof {
                        if rec.current_mx >= list.len() {
                            assert(tail_exchanges(rs[k as int]) =~= Seq::<Seq<char>>::empty());
                        } else {
                            assert(tail_exchanges(rs[k as int]) == list@.map_values(
                                |s: String| s@,
                            ).skip(start as int));
                        }
                    }
                    let ghost lview = list@.map_values(|s: String| s@);
                    let mut t: usize = start;
                    while t < list.len()
                        invariant
                            rs == status@.recipients,
                            rs.len() == status.recipients@.len(),
                            0 <= k < rs.len(),
                            !spec_completed(rs[k as int].result),
                            start <= t <= list@.len(),
                            lview == list@.map_values(|s: String| s@),
                            lview.len() == list@.len(),
                            rs[k as int].mx_servers == Option::Some(lview),
                            tail_exchanges(rs[k as int]) == if start < lview.len() {
                                lview.skip(start as int)
                            } else {
                                Seq::<Seq<char>>::empty()
                            },
                            forall|i: int, j: int|
                                0 <= i < j < plan_view(plan@).len() ==> (#[trigger] plan_view(
                                    plan@,
                                )[i]).mx_server != (#[trigger] plan_view(plan@)[j]).mx_server,
                            forall|i: int|
                                0 <= i < plan_view(plan@).len() ==> (#[trigger] plan_view(
                                    plan@,
                                )[i]).recipients.len() >= 1,
                            forall|i: int|
                                0 <= i < plan_view(plan@).len() ==> plan_entries_ok(
                                    #[trigger] plan_view(plan@)[i],
                                    rs,
                                ),
                            forall|i: int, x: int|
                                0 <= i < plan_view(plan@).len() && 0 <= x < plan_view(
                                    plan@,
                                )[i].recipients.len() ==> (#[trigger] plan_view(
                                    plan@,
                                )[i].recipients[x] as int) <= k,
                            forall|n: int, e: Seq<char>|
                                0 <= n < k && !spec_completed(rs[n].result) && (
                                #[trigger] tail_exchanges(rs[n]).contains(e)) ==> step_has(
                                    plan_view(plan@),
                                    e,
                                    n as usize,
                                ),
                            forall|u: int|
                                start <= u < t ==> step_has(
                                    plan_view(plan@),
                                    #[trigger] lview[u],
                                    k,
                                ),
                        decreases list.len() - t,
                    {
                        let ghost pre_plan = plan_view(plan@);
                        let exchange: &String = &list[t];
                        proof {
                            assert(lview[t as int] == exchange@);
                            assert(tail_exchanges(rs[k as int]).contains(exchange@)) by {
                                let tail = lview.skip(start as int);
                                assert(tail[t - start] == lview[t as int]);
                                assert(tail.contains(exchange@));
                            }
                        }
                        // find the step already keyed by this exchange
                        let mut found: Option<usize> = Option::None;
                        let mut i: usize = 0;
                        while i < plan.len()
                            invariant
                                plan_view(plan@) == pre_plan,
                                0 <= i <= pre_plan.len(),
                                pre_plan.len() == plan@.len(),
                                found matches Option::None ==> forall|j: int|
                                    0 <= j < i ==> (#[trigger] pre_plan[j]).mx_server
                                        != exchange@,
                                found matches Option::Some(fi) ==> 0 <= (fi as int) < pre_plan.len()
                                    && pre_plan[fi as int].mx_server == exchange@,
                            ensures
                                plan_view(plan@) == pre_plan,
                                found matches Option::None ==> forall|j: int|
                                    0 <= j < pre_plan.len() ==> (#[trigger] pre_plan[j]).mx_server
                                        != exchange@,
                                found matches Option::Some(fi) ==> 0 <= (fi as int) < pre_plan.len()
                                    && pre_plan[fi as int].mx_server == exchange@,
                            decreases plan.len() - i,
                        {
                            if plan[i].mx_server == *exchange {
                                proof {
                                    assert(pre_plan[i as int].mx_server == exchange@);
                                }
                                found = Option::Some(i);
                                break ;
                            }
                            i = i + 1;
                        }
                        match found {
                            Option::Some(fi) => {
                                let last = plan[fi].recipients.len() - 1;
                                let already = plan[fi].recipients[last] == k;
                                if !already {
                                    proof {
                                        let step = pre_plan[fi as int];
                                        assert forall|x: int|
                                            0 <= x < step.recipients.len()
                                                implies #[trigger] step.recipients[x] < k by {
                                            if x < step.recipients.len() - 1 {
                                                assert(step.recipients[x] < step.recipients[
                                                    step.recipients.len() - 1]);
                                                assert(step.recipients[x] as int <= k);
                                            } else {
                                                assert(step.recipients[x] as int <= k);
                                                assert(step.recipients[x] != k);
                                            }
                                        }
                                    }
                                    let step = &mut plan[fi];
                                    step.recipients.push(k);
                                    proof {
                                        assert forall|i: int|
                                            0 <= i < pre_plan.len() && i != fi implies plan_view(
                                            plan@,
                                        )[i] == #[trigger] pre_plan[i] by {}
                                        assert(plan_view(plan@)[fi as int].recipients
                                            =~= pre_plan[fi as int].recipients.push(k));
                                        lemma_plan_after_entry_push(pre_plan, fi as int, k, rs, plan_view(plan@), exchange@);
                                        assert forall|i: int, x: int|
                                            0 <= i < plan_view(plan@).len() && 0 <= x < plan_view(
                                            plan@,
                                        )[i].recipients.len() implies (#[trigger] plan_view(
                                            plan@,
                                        )[i].recipients[x] as int) <= k by {
                                            if i == fi {
                                                let step = plan_view(plan@)[i];
                                                if x < step.recipients.len() - 1 {
                                                    assert(step.recipients[x] == pre_plan[
                                                        i].recipients[x]);
                                                } else {
                                                    assert(step.recipients[x] == k);
                                                }
                                            } else {
                                                assert(plan_view(plan@)[i] == pre_plan[i]);
                                            }
                                        }
                                    }
                                }
                                proof {
                                    assert(plan_view(plan@)[fi as int].mx_server == exchange@);
                                    if already {
                                        assert(plan_view(plan@)[fi as int].recipients[last as int]
                                            == k);
                                    } else {
                                        let rlen = plan_view(plan@)[fi as int].recipients.len();
                                        assert(plan_view(plan@)[fi as int].recipients[rlen - 1]
                                            == k);
                                    }
                                    assert(plan_view(plan@)[fi as int].recipients.contains(k));
                                    assert(step_has(plan_view(plan@), exchange@, k));
                                }
                            },
                            Option::None => {
                                let mut only: Vec<usize> = Vec::new();
                                only.push(k);
                                let ghost onlyv = only@;
                                plan.push(
                                    MxDelivery { mx_server: exchange.clone(), recipients: only },
                                );
                                proof {
                                    assert(onlyv =~= seq![k]);
                                    assert forall|i: int|
                                        0 <= i < pre_plan.len() implies plan_view(plan@)[i]
                                        == #[trigger] pre_plan[i] by {}
                                    assert(plan_view(plan@)[pre_plan.len() as int].recipients
                                        == onlyv);
                                    lemma_plan_after_step_push(pre_plan, k, rs, plan_view(plan@), exchange@);
                                    assert(plan_view(plan@) =~= pre_plan.push(
                                        MxDeliveryModel {
                                            mx_server: exchange@,
                                            recipients: seq![k],
                                        },
                                    ));
                                    assert(step_has(plan_view(plan@), exchange@, k)) by {
                                        let last_step = plan_view(plan@)[pre_plan.len() as int];
                                        assert(last_step.mx_server == exchange@);
                                        assert(last_step.recipients[0] == k);
                                        assert(last_step.recipients.contains(k));
                                    }
                                    assert forall|i: int, x: int|
                                        0 <= i < plan_view(plan@).len() && 0 <= x < plan_view(
                                        plan@,
                                    )[i].recipients.len() implies (#[trigger] plan_view(
                                        plan@,
                                    )[i].recipients[x] as int) <= k by {
                                        if i < pre_plan.len() {
                                            assert(plan_view(plan@)[i] == pre_plan[i]);
                                        } else {
                                            assert(plan_view(plan@)[i].recipients[x] == k);
                                        }
                                    }
                                }
                            },
                        }
                        proof {
                            assert forall|u: int|
                                start <= u < t + 1 implies step_has(
                                plan_view(plan@),
                                #[trigger] lview[u],
                                k,
                            ) by {
                                if u < t {
                                    lemma_step_has_preserved(
                                        pre_plan,
                                        plan_view(plan@),
                                        lview[u],
                                        k,
                                    );
                                } else {
                                    assert(lview[u] == exchange@);
                                }
                            }
                            assert forall|n: int, e: Seq<char>|
                                0 <= n < k && !spec_completed(rs[n].result) && (
                                #[trigger] tail_exchanges(rs[n]).contains(e)) implies step_has(
                                plan_view(plan@),
                                e,
                                n as usize,
                            ) by {
                                lemma_step_has_preserved(pre_plan, plan_view(plan@), e, n as usize);
                            }
                        }
                        t = t + 1;
                    }
                    proof {
                        assert forall|e: Seq<char>|
                            #[trigger] tail_exchanges(rs[k as int]).contains(e) implies step_has(
                            plan_view(plan@),
                            e,
                            k,
                        ) by {
                            let lv = list@.map_values(|s: String| s@);
                            let tail = tail_exchanges(rs[k as int]);
                            let u = choose|u: int| 0 <= u < tail.len() && tail[u] == e;
                            assert(tail[u] == lv[start + u]);
                        }
                    }
                },
            }
        }
        k = k + 1;
    }
    plan
}

/// `step_has` survives any plan change that keeps old steps' servers and
/// only grows their recipient lists or appends new steps.
proof fn lemma_step_has_preserved(
    pre: Seq<MxDeliveryModel>,
    post: Seq<MxDeliveryModel>,
    e: Seq<char>,
    n: usize,
)
    requires
        step_has(pre, e, n),
        post.len() >= pre.len(),
        forall|i: int| 0 <= i < pre.len() ==> (#[trigger] post[i]).mx_server == pre[i].mx_server,
        forall|i: int|
            0 <= i < pre.len() ==> (#[trigger] post[i]).recipients.len()
                >= pre[i].recipients.len(),
        forall|i: int, x: int|
            0 <= i < pre.len() && 0 <= x < pre[i].recipients.len() ==> post[i].recipients[x]
                == (#[trigger] pre[i].recipients[x]),
    ensures
        step_has(post, e, n),
{
    let i = choose|i: int|
        0 <= i < pre.len() && (#[trigger] pre[i]).mx_server == e && pre[i].recipients.contains(n);
    let x = choose|x: int| 0 <= x < pre[i].recipients.len() && pre[i].recipients[x] == n;
    assert(post[i].recipients[x] == n);
    assert(post[i].mx_server == e && post[i].recipients.contains(n));
}

/// After appending recipient `n` to step `fi`, the plan invariants hold
/// again, provided `n` was in no step beyond the current bound, is pending,
/// and still has this step's exchange ahead of it.
proof fn lemma_plan_after_entry_push(
    pre: Seq<MxDeliveryModel>,
    fi: int,
    n: usize,
    rs: Seq<RecipientStatusModel>,
    post: Seq<MxDeliveryModel>,
    e: Seq<char>,
)
    requires
        0 <= fi < pre.len(),
        post.len() == pre.len(),
        forall|i: int| 0 <= i < pre.len() && i != fi ==> post[i] == #[trigger] pre[i],
        post[fi].mx_server == pre[fi].mx_server,
        post[fi].recipients == pre[fi].recipients.push(n),
        pre[fi].mx_server == e,
        forall|i: int, j: int|
            0 <= i < j < pre.len() ==> (#[trigger] pre[i]).mx_server != (#[trigger] pre[j]).mx_server,
        forall|i: int| 0 <= i < pre.len() ==> (#[trigger] pre[i]).recipients.len() >= 1,
        forall|i: int| 0 <= i < pre.len() ==> plan_entries_ok(#[trigger] pre[i], rs),
        forall|x: int|
            0 <= x < pre[fi].recipients.len() ==> #[trigger] pre[fi].recipients[x] < n,
        (n as int) < rs.len(),
        !spec_completed(rs[n as int].result),
        tail_exchanges(rs[n as int]).contains(e),
    ensures
        forall|i: int, j: int|
            0 <= i < j < post.len() ==> (#[trigger] post[i]).mx_server != (#[trigger] post[j]).mx_server,
        forall|i: int| 0 <= i < post.len() ==> (#[trigger] post[i]).recipients.len() >= 1,
        forall|i: int| 0 <= i < post.len() ==> plan_entries_ok(#[trigger] post[i], rs),
{
    assert forall|i: int, j: int|
        0 <= i < j < post.len() implies (#[trigger] post[i]).mx_server != (
    #[trigger] post[j]).mx_server by {
        assert(post[i].mx_server == pre[i].mx_server);
        assert(post[j].mx_server == pre[j].mx_server);
    }
    assert forall|i: int| 0 <= i < post.len() implies (#[trigger] post[i]).recipients.len()
        >= 1 by {
        if i == fi {
        } else {
            assert(post[i] == pre[i]);
        }
    }
    assert forall|i: int| 0 <= i < post.len() implies plan_entries_ok(#[trigger] post[i], rs) by {
        if i == fi {
            let step = post[fi];
            assert(plan_entries_ok(pre[fi], rs));
            assert forall|x: int| 0 <= x < step.recipients.len() implies {
                &&& (#[trigger] step.recipients[x] as int) < rs.len()
                &&& !spec_completed(rs[step.recipients[x] as int].result)
                &&& tail_exchanges(rs[step.recipients[x] as int]).contains(step.mx_server)
            } by {
                if x < step.recipients.len() - 1 {
                    assert(step.recipients[x] == pre[fi].recipients[x]);
                } else {
                    assert(step.recipients[x] == n);
                }
            }
            assert forall|a: int, b: int|
                0 <= a < b < step.recipients.len() implies step.recipients[a]
                < step.recipients[b] by {
                if b < step.recipients.len() - 1 {
                    assert(step.recipients[a] == pre[fi].recipients[a]);
                    assert(step.recipients[b] == pre[fi].recipients[b]);
                } else {
                    assert(step.recipients[a] == pre[fi].recipients[a]);
                    assert(step.recipients[b] == n);
                }
            }
        } else {
            assert(plan_entries_ok(pre[i], rs));
        }
    }
}

/// After appending a new single-recipient step for a fresh exchange, the
/// plan invariants hold again.
proof fn lemma_plan_after_step_push(
    pre: Seq<MxDeliveryModel>,
    n: usize,
    rs: Seq<RecipientStatusModel>,
    post: Seq<MxDeliveryModel>,
    e: Seq<char>,
)
    requires
        post.len() == pre.len() + 1,
        forall|i: int| 0 <= i < pre.len() ==> post[i] == #[trigger] pre[i],
        post[pre.len() as int].mx_server == e,
        post[pre.len() as int].recipients == seq![n],
        forall|j: int| 0 <= j < pre.len() ==> (#[trigger] pre[j]).mx_server != e,
        forall|i: int, j: int|
            0 <= i < j < pre.len() ==> (#[trigger] pre[i]).mx_server != (#[trigger] pre[j]).mx_server,
        forall|i: int| 0 <= i < pre.len() ==> (#[trigger] pre[i]).recipients.len() >= 1,
        forall|i: int| 0 <= i < pre.len() ==> plan_entries_ok(#[trigger] pre[i], rs),
        (n as int) < rs.len(),
        !spec_completed(rs[n as int].result),
        tail_exchanges(rs[n as int]).contains(e),
    ensures
        forall|i: int, j: int|
            0 <= i < j < post.len() ==> (#[trigger] post[i]).mx_server != (#[trigger] post[j]).mx_server,
        forall|i: int| 0 <= i < post.len() ==> (#[trigger] post[i]).recipients.len() >= 1,
        forall|i: int| 0 <= i < post.len() ==> plan_entries_ok(#[trigger] post[i], rs),
{
    assert forall|i: int, j: int|
        0 <= i < j < post.len() implies (#[trigger] post[i]).mx_server != (
    #[trigger] post[j]).mx_server by {
        if j < pre.len() {
            assert(post[i] == pre[i] && post[j] == pre[j]);
        } else {
            assert(post[i] == pre[i]);
            assert(post[j].mx_server == e);
        }
    }
    assert forall|i: int| 0 <= i < post.len() implies (#[trigger] post[i]).recipients.len()
        >= 1 by {
        if i < pre.len() {
            assert(post[i] == pre[i]);
        }
    }
    assert forall|i: int| 0 <= i < post.len() implies plan_entries_ok(#[trigger] post[i], rs) by {
        if i < pre.len() {
            assert(plan_entries_ok(pre[i], rs));
        } else {
            let step = post[i];
            assert(step.recipients[0] == n);
            assert forall|x: int| 0 <= x < step.recipients.len() implies {
                &&& (#[trigger] step.recipients[x] as int) < rs.len()
                &&& !spec_completed(rs[step.recipients[x] as int].result)
                &&& tail_exchanges(rs[step.recipients[x] as int]).contains(step.mx_server)
            } by {
                assert(step.recipients[x] == n);
            }
        }
    }
}

/// Powers of three.
pub open spec fn pow3(e: nat) -> nat
    decreases e,
{
    if e == 0 {
        1
    } else {
        3 * pow3((e - 1) as nat)
    }
}

/// The attempts remaining after a pass: zero if the pass completed every
/// recipient, one less (stopping at zero) if some recipient was deferred.
pub open spec fn spec_next_attempts(a: u8, any_deferred: bool) -> u8 {
    if !any_deferred {
        0
    } else if a == 0 {
        0
    } else {
        (a - 1) as u8
    }
}

/// When a retry is due: `now + base * 3^(3 - remaining)` seconds, saturated
/// at the end of the clock.
pub open spec fn spec_sched_time(now: u64, base: u64, remaining: u8) -> u64 {
    let t = now + base * pow3((3 - remaining) as nat);
    if t > u64::MAX {
        u64::MAX
    } else {
        t as u64
    }
}

/// Ends a worker pass: updates `attempts_remaining` from whether any
/// recipient was deferred, applies the exhaustion rewrite when the count
/// reaches zero, and returns the retry task to queue when it does not.
///
/// The requirement on `attempts_remaining` reflects that the engine never
/// stores a count above its initial value of 3.
pub fn finish_pass(
    status: &mut InternalMessageStatus,
    any_deferred: bool,
    now: u64,
    base_resend_delay_secs: u64,
) -> (task: Option<Task>)
    requires
        old(status)@.attempts_remaining <= 3,
    ensures
        final(status)@.message_id == old(status)@.message_id,
        final(status)@.attempts_remaining == spec_next_attempts(
            old(status)@.attempts_remaining,
            any_deferred,
        ),
        spec_next_attempts(old(status)@.attempts_remaining, any_deferred) == 0 ==> {
            &&& final(status)@.recipients == old(status)@.recipients.map_values(
                |r: RecipientStatusModel| spec_exhausted(r),
            )
            &&& task is None
        },
        spec_next_attempts(old(status)@.attempts_remaining, any_deferred) > 0 ==> {
            &&& final(status)@.recipients == old(status)@.recipients
            &&& task matches Some(t) && t@.tasktype == TaskType::Resend && t@.time
                == spec_sched_time(
                now,
                base_resend_delay_secs,
                spec_next_attempts(old(status)@.attempts_remaining, any_deferred),
            ) && t@.message_id == old(status)@.message_id
        },
{
    if any_deferred {
        if status.attempts_remaining > 0 {
            status.attempts_remaining = status.attempts_remaining - 1;
        }
    } else {
        status.attempts_remaining = 0;
    }
    if status.attempts_remaining == 0 {
        exhaust_all(status);
        Option::None
    } else {
        let exp: u8 = 3 - status.attempts_remaining;
        let pow: u64 = match exp {
            0 => 1,
            1 => 3,
            _ => 9,
        };
        proof {
            assert(pow3(0) == 1 && pow3(1) == 3 && pow3(2) == 9) by {
                reveal_with_fuel(pow3, 3);
            }
            assert(pow == pow3(exp as nat));
        }
        let delay: u64 = match base_resend_delay_secs.checked_mul(pow) {
            Option::Some(d) => d,
            Option::None => u64::MAX,
        };
        let time: u64 = match now.checked_add(delay) {
            Option::Some(t) => t,
            Option::None => u64::MAX,
        };
        proof {
            assert(time == spec_sched_time(
                now,
                base_resend_delay_secs,
                status.attempts_remaining,
            ));
        }
        Option::Some(
            Task { tasktype: TaskType::Resend, time, message_id: status.message_id.clone() },
        )
    }
}

/// The SMTP addresses of the step's recipients that are still pending, in
/// step order.
pub open spec fn pending_addrs(rs: Seq<RecipientStatusModel>, idxs: Seq<usize>) -> Seq<Seq<char>> {
    idxs.filter(
        |n: usize| (n as int) < rs.len() && !spec_completed(rs[n as int].result),
    ).map_values(|n: usize| rs[n as int].smtp_email_addr)
}

/// Rebuilds the RCPT TO list of one step: the SMTP addresses of exactly
/// those of the step's recipients whose result is not yet completed.  When
/// the list comes back empty an earlier step already delivered to everyone
/// in this one, and the session is skipped.
pub fn step_recipient_addrs(status: &InternalMessageStatus, step: &MxDelivery) -> (r: Vec<String>)
    ensures
        r@.map_values(|s: String| s@) == pending_addrs(status@.recipients, step@.recipients),
{
    let ghost rs = status@.recipients;
    let ghost idxs = step@.recipients;
    let ghost pending = |n: usize| (n as int) < rs.len() && !spec_completed(rs[n as int].result);
    let mut r: Vec<String> = Vec::new();
    let mut i: usize = 0;
    proof {
        assert(idxs.take(0) =~= Seq::<usize>::empty());
        reveal_with_fuel(Seq::filter, 1);
        assert(r@.map_values(|s: String| s@) =~= idxs.take(0).filter(pending).map_values(
            |n: usize| rs[n as int].smtp_email_addr,
        ));
    }
    while i < step.recipients.len()
        invariant
            rs == status@.recipients,
            rs.len() == status.recipients@.len(),
            idxs == step@.recipients,
            idxs.len() == step.recipients@.len(),
            0 <= i <= idxs.len(),
            pending == (|n: usize| (n as int) < rs.len() && !spec_completed(
                rs[n as int].result,
            )),
            r@.map_values(|s: String| s@) == idxs.take(i as int).filter(pending).map_values(
                |n: usize| rs[n as int].smtp_email_addr,
            ),
        decreases step.recipients.len() - i,
    {
        let ghost prefix = idxs.take(i as int);
        let n = step.recipients[i];
        proof {
            assert(idxs.take(i + 1) =~= prefix.push(n));
            prefix.lemma_filter_push(n, pending);
        }
        if n < status.recipients.len() && !status.recipients[n].result.completed() {
            proof {
                assert(rs[n as int] == status.recipients@[n as int]@);
            }
            r.push(status.recipients[n].smtp_email_addr.clone());
            proof {
                assert(r@.map_values(|s: String| s@) =~= prefix.filter(pending).map_values(
                    |x: usize| rs[x as int].smtp_email_addr,
                ).push(rs[n as int].smtp_email_addr));
                assert(prefix.push(n).filter(pending).map_values(
                    |x: usize| rs[x as int].smtp_email_addr,
                ) =~= prefix.filter(pending).map_values(
                    |x: usize| rs[x as int].smtp_email_addr,
                ).push(rs[n as int].smtp_email_addr));
            }
        } else {
            proof {
                if (n as int) < rs.len() {
                    assert(rs[n as int] == status.recipients@[n as int]@);
                }
                assert(!pending(n));
            }
        }
        i = i + 1;
    }
    proof {
        assert(idxs.take(idxs.len() as int) =~= idxs);
    }
    r
}

/// An attempt counter one higher, stopping at its greatest value.
pub open spec fn bump_attempts(a: u8) -> u8 {
    if a == 255 {
        255
    } else {
        (a + 1) as u8
    }
}

/// How a session's classified outcome lands on one recipient: a completed
/// recipient keeps its result; a deferred outcome on an already deferred
/// recipient bumps that recipient's own attempt counter and takes the new
/// reason; any other outcome is taken as is.
pub open spec fn spec_apply_outcome(
    r: RecipientStatusModel,
    o: DeliveryResultView,
) -> RecipientStatusModel {
    if spec_completed(r.result) {
        r
    } else {
        match o {
            DeliveryResultView::Deferred(_, m) => match r.result {
                DeliveryResultView::Deferred(a, _) => with_result(
                    r,
                    DeliveryResultView::Deferred(bump_attempts(a), m),
                ),
                _ => with_result(r, o),
            },
            _ => with_result(r, o),
        }
    }
}

fn apply_one(r: &InternalRecipientStatus, outcome: &DeliveryResult) -> (o: InternalRecipientStatus)
    ensures
        o@ == spec_apply_outcome(r@, outcome@),
{
    if r.result.completed() {
        return r.clone();
    }
    let result: DeliveryResult = match (outcome, &r.result) {
        (DeliveryResult::Deferred(_, m), DeliveryResult::Deferred(a, _)) => {
            let bumped: u8 = if *a == 255 {
                255
            } else {
                *a + 1
            };
            DeliveryResult::Deferred(bumped, m.clone())
        },
        _ => outcome.clone(),
    };
    let o = clone_with_result(r, result);
    proof {
        assert(o@ == spec_apply_outcome(r@, outcome@));
    }
    o
}

/// Whether a step lists this recipient index.
fn step_contains(step: &MxDelivery, n: usize) -> (r: bool)
    ensures
        r == step@.recipients.contains(n),
{
    let mut i: usize = 0;
    while i < step.recipients.len()
        invariant
            0 <= i <= step@.recipients.len(),
            step@.recipients.len() == step.recipients@.len(),
            forall|j: int| 0 <= j < i ==> step@.recipients[j] != n,
        decreases step.recipients.len() - i,
    {
        if step.recipients[i] == n {
            return true;
        }
        i = i + 1;
    }
    false
}

/// Maps a session's outcome back onto every recipient of the step, and says
/// whether any recipient of the step was (still) deferred by it.  A
/// recipient whose result was already terminal keeps it untouched.
pub fn apply_step_outcome(
    status: &mut InternalMessageStatus,
    step: &MxDelivery,
    outcome: &DeliveryResult,
) -> (deferred_some: bool)
    ensures
        final(status)@.message_id == old(status)@.message_id,
        final(status)@.attempts_remaining == old(status)@.attempts_remaining,
        final(status)@.recipients.len() == old(status)@.recipients.len(),
        forall|i: int|
            0 <= i < old(status)@.recipients.len() ==> final(status)@.recipients[i] == if step@.recipients.contains(i as usize) {
                spec_apply_outcome(old(status)@.recipients[i], outcome@)
            } else {
                old(status)@.recipients[i]
            },
        deferred_some == (outcome@ is Deferred && exists|j: int|
            0 <= j < old(status)@.recipients.len() && step@.recipients.contains(j as usize)
                && !spec_completed(old(status)@.recipients[j].result)),
{
    let ghost pre = status@;
    let mut recipients: Vec<InternalRecipientStatus> = Vec::new();
    let mut deferred_some = false;
    let is_deferred: bool = match outcome {
        DeliveryResult::Deferred(_, _) => true,
        _ => false,
    };
    let mut i: usize = 0;
    while i < status.recipients.len()
        invariant
            status@ == pre,
            pre.recipients.len() == status.recipients@.len(),
            0 <= i <= status.recipients@.len(),
            recipients@.len() == i,
            is_deferred == outcome@ is Deferred,
            forall|j: int|
                0 <= j < i ==> recipients@[j]@ == if step@.recipients.contains(j as usize) {
                    spec_apply_outcome(pre.recipients[j], outcome@)
                } else {
                    pre.recipients[j]
                },
            deferred_some == (outcome@ is Deferred && exists|j: int|
                0 <= j < i && step@.recipients.contains(j as usize) && !spec_completed(
                    pre.recipients[j].result,
                )),
        decreases status.recipients.len() - i,
    {
        proof {
            assert(pre.recipients[i as int] == status.recipients@[i as int]@);
        }
        let in_step = step_contains(step, i);
        if in_step {
            if is_deferred && !status.recipients[i].result.completed() {
                deferred_some = true;
            }
            recipients.push(apply_one(&status.recipients[i], outcome));
        } else {
            recipients.push(status.recipients[i].clone());
        }
        i = i + 1;
    }
    status.recipients = recipients;
    proof {
        assert(final(status)@.recipients.len() == pre.recipients.len());
        assert forall|i: int| 0 <= i < pre.recipients.len() implies final(status)@.recipients[i]
            == if step@.recipients.contains(i as usize) {
            spec_apply_outcome(pre.recipients[i], outcome@)
        } else {
            pre.recipients[i]
        } by {
            assert(final(status)@.recipients[i] == final(status).recipients@[i]@);
        }
    }
    deferred_some
}

} // verus!
