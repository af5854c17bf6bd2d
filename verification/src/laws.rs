//! The engine's cross-cutting laws, proved from the contracts of the pass
//! functions: terminal results never change, worker passes are bounded,
//! the backoff schedule is exact, and one pass opens one session per
//! distinct pending exchange.

use vstd::prelude::*;
use vstd::seq_lib::*;
use crate::delivery_result::DeliveryResultView;
use crate::delivery::{
    spec_exhausted,
    spec_plan_rewrite,
    spec_apply_outcome,
    spec_next_attempts,
    spec_sched_time,
    pow3,
    plan_ok,
    plan_entries_ok,
    step_has,
    tail_exchanges,
    MxDeliveryModel,
};
use crate::delivery_result::spec_completed;
use crate::recipient_status::RecipientStatusModel;
use crate::storage::{RecordModel, store_spec, has_id, index_of_id, lemma_index_of_id};
use crate::message_status::MessageStatusModel;
use crate::prepared_email::PreparedEmailModel;

verus! {

/// Terminal stickiness: once a recipient's result is `Delivered` or
/// `Failed`, none of the pass steps — the exhaustion rewrite, the plan
/// rewrite, the application of a session outcome — changes that recipient.
pub proof fn lemma_terminal_stickiness(r: RecipientStatusModel, o: DeliveryResultView)
    requires
        spec_completed(r.result),
    ensures
        spec_exhausted(r) == r,
        spec_plan_rewrite(r) == r,
        spec_apply_outcome(r, o) == r,
{
}

/// One recipient list preserves the terminal results of another: every
/// recipient completed before is untouched after.
pub open spec fn preserves_completed(
    pre: Seq<RecipientStatusModel>,
    post: Seq<RecipientStatusModel>,
) -> bool {
    &&& post.len() == pre.len()
    &&& forall|i: int| 0 <= i < pre.len() && spec_completed(pre[i].result) ==> post[i] == pre[i]
}

/// Stickiness composes across the steps of a pass (and across passes).
pub proof fn lemma_stickiness_composes(
    a: Seq<RecipientStatusModel>,
    b: Seq<RecipientStatusModel>,
    c: Seq<RecipientStatusModel>,
)
    requires
        preserves_completed(a, b),
        preserves_completed(b, c),
    ensures
        preserves_completed(a, c),
{
    assert forall|i: int|
        0 <= i < a.len() && spec_completed(a[i].result) implies c[i] == a[i] by {
        assert(b[i] == a[i]);
    }
}

/// The exhaustion rewrite and the plan rewrite preserve terminal results.
pub proof fn lemma_rewrites_preserve_completed(rs: Seq<RecipientStatusModel>)
    ensures
        preserves_completed(rs, rs.map_values(|r: RecipientStatusModel| spec_exhausted(r))),
        preserves_completed(rs, rs.map_values(|r: RecipientStatusModel| spec_plan_rewrite(r))),
{
    assert forall|i: int|
        0 <= i < rs.len() && spec_completed(rs[i].result) implies rs.map_values(
        |r: RecipientStatusModel| spec_exhausted(r),
    )[i] == rs[i] && rs.map_values(|r: RecipientStatusModel| spec_plan_rewrite(r))[i]
        == rs[i] by {
        assert(rs.map_values(|r: RecipientStatusModel| spec_exhausted(r))[i] == spec_exhausted(
            rs[i],
        ));
        assert(rs.map_values(|r: RecipientStatusModel| spec_plan_rewrite(r))[i]
            == spec_plan_rewrite(rs[i]));
    }
}

/// Applying a session's outcome to a step's recipients preserves terminal
/// results: a step leaves every recipient outside it alone, and a completed
/// recipient inside it keeps its result.
pub proof fn lemma_apply_step_preserves_completed(
    pre: Seq<RecipientStatusModel>,
    post: Seq<RecipientStatusModel>,
    idxs: Seq<usize>,
    o: DeliveryResultView,
)
    requires
        post.len() == pre.len(),
        forall|i: int|
            0 <= i < pre.len() ==> post[i] == if idxs.contains(i as usize) {
                spec_apply_outcome(pre[i], o)
            } else {
                pre[i]
            },
    ensures
        preserves_completed(pre, post),
{
}

/// Attempt bound: from its initial value of 3, `attempts_remaining` reaches
/// 0 within three worker passes, however each pass went.
pub proof fn lemma_attempt_bound(a0: u8, d1: bool, d2: bool, d3: bool)
    requires
        a0 <= 3,
    ensures
        spec_next_attempts(spec_next_attempts(spec_next_attempts(a0, d1), d2), d3) == 0,
{
}

/// When the attempt count reaches zero the pass rewrites every recipient
/// still deferred, so no recipient of the rewritten list is deferred.
pub proof fn lemma_exhaustion_leaves_no_deferred(rs: Seq<RecipientStatusModel>, i: int)
    requires
        0 <= i < rs.len(),
    ensures
        !(rs.map_values(|r: RecipientStatusModel| spec_exhausted(r))[i].result is Deferred),
{
    assert(rs.map_values(|r: RecipientStatusModel| spec_exhausted(r))[i] == spec_exhausted(rs[i]));
}

/// Once the attempt count hits zero, every recipient the pass attempted is
/// completed: a session outcome is never `Queued`, and the exhaustion
/// rewrite turns every deferral into a failure, so only a recipient that
/// was never attempted (one with no remaining exchange) can stay queued.
pub proof fn lemma_exhaustion_completes_attempted(rs: Seq<RecipientStatusModel>, i: int)
    requires
        0 <= i < rs.len(),
        !(rs[i].result is Queued),
    ensures
        spec_completed(
            rs.map_values(|r: RecipientStatusModel| spec_exhausted(r))[i].result,
        ),
{
    assert(rs.map_values(|r: RecipientStatusModel| spec_exhausted(r))[i] == spec_exhausted(rs[i]));
}

/// Backoff schedule: while retries remain, the task after the first
/// decrement (2 passes left) is due `3 * base` seconds from now, and the
/// task after the second (1 pass left) `9 * base` seconds from now.
pub proof fn lemma_backoff_schedule(now: u64, base: u64)
    requires
        now + 9 * base <= u64::MAX,
    ensures
        spec_sched_time(now, base, 2) == now + 3 * base,
        spec_sched_time(now, base, 1) == now + 9 * base,
{
    assert(pow3(1) == 3 && pow3(2) == 9) by {
        reveal_with_fuel(pow3, 3);
    }
    assert((3 - 2) as nat == 1nat && (3 - 1) as nat == 2nat);
    assert(base * pow3(1) == 3 * base);
    assert(base * pow3(2) == 9 * base);
    assert(now + base * pow3(1) <= u64::MAX);
    assert(now + base * pow3(2) <= u64::MAX);
}

/// The distinct exchanges still ahead of the pending recipients.
pub open spec fn pending_exchanges(rs: Seq<RecipientStatusModel>) -> Set<Seq<char>> {
    Set::new(
        |e: Seq<char>|
            exists|n: int|
                0 <= n < rs.len() && !spec_completed(rs[n].result) && (#[trigger] tail_exchanges(
                    rs[n],
                )).contains(e),
    )
}

/// The servers of a plan, in plan order.
pub open spec fn plan_servers(plan: Seq<MxDeliveryModel>) -> Seq<Seq<char>> {
    plan.map_values(|d: MxDeliveryModel| d.mx_server)
}

/// Per-MX batching: a well-formed plan opens exactly one session per
/// distinct exchange of the still-pending recipients — its servers are
/// pairwise distinct, they are exactly the pending exchanges, and the
/// number of steps equals the number of those exchanges.
pub proof fn lemma_per_mx_batching(plan: Seq<MxDeliveryModel>, rs: Seq<RecipientStatusModel>)
    requires
        plan_ok(plan, rs),
    ensures
        plan_servers(plan).no_duplicates(),
        plan_servers(plan).to_set() == pending_exchanges(rs),
        plan.len() == pending_exchanges(rs).len(),
{
    let servers = plan_servers(plan);
    assert(servers.no_duplicates()) by {
        assert forall|i: int, j: int|
            0 <= i < servers.len() && 0 <= j < servers.len() && i != j implies servers[i]
            != servers[j] by {
            if i < j {
                assert(plan[i].mx_server != plan[j].mx_server);
            } else {
                assert(plan[j].mx_server != plan[i].mx_server);
            }
        }
    }
    assert(servers.to_set() =~= pending_exchanges(rs)) by {
        assert forall|e: Seq<char>| servers.to_set().contains(e) implies pending_exchanges(
            rs,
        ).contains(e) by {
            let i = choose|i: int| 0 <= i < servers.len() && servers[i] == e;
            assert(plan_entries_ok(plan[i], rs));
            assert(plan[i].recipients.len() >= 1);
            let n = plan[i].recipients[0];
            assert((n as int) < rs.len() && !spec_completed(rs[n as int].result)
                && tail_exchanges(rs[n as int]).contains(e));
        }
        assert forall|e: Seq<char>| pending_exchanges(rs).contains(e) implies servers.to_set()
            .contains(e) by {
            let n = choose|n: int|
                0 <= n < rs.len() && !spec_completed(rs[n].result) && (#[trigger] tail_exchanges(
                    rs[n],
                )).contains(e);
            assert(step_has(plan, e, n as usize));
            let i = choose|i: int|
                0 <= i < plan.len() && (#[trigger] plan[i]).mx_server == e
                    && plan[i].recipients.contains(n as usize);
            assert(servers[i] == e);
        }
    }
    servers.unique_seq_to_set();
}

/// Storage overwrite: storing a pair whose message identifier is already
/// present replaces that record in place (same number of records, the
/// record under that identifier now the new pair, every other record
/// untouched); a fresh identifier appends.
pub proof fn lemma_store_overwrite(
    rs: Seq<RecordModel>,
    email: PreparedEmailModel,
    status: MessageStatusModel,
)
    ensures
        has_id(rs, status.message_id) ==> {
            &&& store_spec(rs, email, status).len() == rs.len()
            &&& store_spec(rs, email, status)[index_of_id(rs, status.message_id)] == (RecordModel {
                email,
                status,
                retrieved: false,
            })
            &&& forall|j: int|
                0 <= j < rs.len() && j != index_of_id(rs, status.message_id) ==> store_spec(
                    rs,
                    email,
                    status,
                )[j] == rs[j]
        },
        !has_id(rs, status.message_id) ==> store_spec(rs, email, status) == rs.push(
            RecordModel { email, status, retrieved: false },
        ),
{
    lemma_index_of_id(rs, status.message_id);
}

} // verus!
