//! What holds of every reservation.

use crate::ctx::{lemma_spent, CtxView};
use crate::deployment::{DeploymentView, RunErrorView};
use crate::laws::deploys::{
    deployed, law_events_of_a_deploy_are_published, law_ledger_says_where_a_deploy_is,
    law_lock_is_given_back, law_stored_before_published, lemma_kept, release_failed,
};
use crate::laws::evidence::happened;
use crate::laws::ledger::{ended_as, ready};
use crate::laws::story::{all_told, texts};
use crate::model::{DeployOutcomeView, DeployRowView, DeployStatus, Stage};
use crate::protocol::{ReplyView, RequestView, StoreCallView, StoreReplyView};
use crate::reservation::{refusal, ReserveErrorView};
use crate::run::{
    law_run_reserves_first, only_store, refused_row, reservation, reserved_row, DeployScene,
    Exchange,
};
use crate::spec::WorkloadSpecView;
use crate::store::{about, law_answer_keeps_attributed, LockView, StoreView};
use vstd::prelude::*;

verus! {

/// A lock that is held is a lock of its app.
pub proof fn lemma_held_is_locked(store: StoreView, name: Seq<char>, deploy_id: i64)
    requires
        store.holds(name, deploy_id),
    ensures
        store.locked(name),
{
    let i = choose|i: int|
        0 <= i < store.locks.len() && store.locks[i] == (LockView { app: name, deploy_id });
    assert(store.locks[i].app == name);
}

/// A reservation that is granted has a row of its own, new and in progress at
/// the first stage, and holds the lock of its app. Nothing else has changed.
pub proof fn law_granted_reservation_is_ready<Plan>(
    ctx: CtxView<Plan>,
    name: Seq<char>,
    deploy_id: i64,
)
    requires
        ctx.store.valid(),
        reservation(ctx, name).1 == Ok::<_, ReserveErrorView>(deploy_id),
    ensures
        ({
            let store = reservation(ctx, name).0.store;
            &&& ready(store, name, deploy_id)
            &&& !ctx.store.has(deploy_id)
            &&& !ctx.store.locked(name)
            &&& store.row(deploy_id).stage == Stage::Detect
            &&& store.rows == ctx.store.rows.push(reserved_row(ctx.store, name))
            &&& store.events == ctx.store.events
            &&& store.specs == ctx.store.specs
        }),
{
    let store = reservation(ctx, name).0.store;
    let lock = LockView { app: name, deploy_id };
    assert(store.locks == ctx.store.locks.push(lock));
    assert(store.locks[ctx.store.locks.len() as int] == lock);
    assert forall|i: int, j: int| 0 <= i < j < store.locks.len() implies (
    #[trigger] store.locks[i]).app != (#[trigger] store.locks[j]).app by {
        if j == ctx.store.locks.len() {
            assert(ctx.store.locks[i].app != name);
        }
    }
}

/// A reservation is refused as busy exactly where another deploy holds the lock
/// and the store does not fail. Its attempt is on record then, under the id
/// that the refusal carries, and has ended as failed; the lock stays with whom
/// it was with, and there is no event. A failure of the store is never taken
/// for a conflict.
pub proof fn law_busy_only_while_locked<Plan>(ctx: CtxView<Plan>, name: Seq<char>)
    requires
        ctx.store.valid(),
    ensures
        ({
            let (there, result) = reservation(ctx, name);
            let failing = ctx.fault(0) is Some || ctx.fault(1) is Some || ctx.store.locked(name)
                && ctx.fault(2) is Some || ctx.store.rows.len() >= i64::MAX;
            &&& result is Ok == (!failing && !ctx.store.locked(name))
            &&& (result is Err && result->Err_0 is Busy) == (!failing && ctx.store.locked(name))
            &&& (result is Err && result->Err_0 is Internal) == failing
            &&& result matches Err(ReserveErrorView::Busy { name: refused, deploy_id }) ==> {
                &&& refused == name
                &&& !ctx.store.has(deploy_id)
                &&& there.store.has(deploy_id)
                &&& there.store.row(deploy_id) == refused_row(ctx.store, name)
                &&& there.store.row(deploy_id).status == DeployStatus::Failed
                &&& there.store.row(deploy_id).detail == Some(refusal())
                &&& there.store.locks == ctx.store.locks
                &&& there.store.events == ctx.store.events
                &&& there.sink == ctx.sink
            }
        }),
{
}

/// At most one deploy of an app runs at a time: from the moment that it is
/// reserved until its end is stored, no other reservation of the app is
/// granted.
pub proof fn law_one_deploy_at_a_time<Plan>(
    ctx: CtxView<Plan>,
    spec: WorkloadSpecView,
    repo: Seq<u8>,
    deploy_id: i64,
    count: nat,
)
    requires
        ready(ctx.store, spec.name, deploy_id),
        deployed(ctx, spec, repo, deploy_id, count).ctx.store.in_progress(deploy_id),
        deployed(ctx, spec, repo, deploy_id, count).deploy.result() is None,
    ensures
        reservation(deployed(ctx, spec, repo, deploy_id, count).ctx, spec.name).1 is Err,
{
    law_ledger_says_where_a_deploy_is(ctx, spec, repo, deploy_id, count);
    let store = deployed(ctx, spec, repo, deploy_id, count).ctx.store;
    lemma_held_is_locked(store, spec.name, deploy_id);
}

/// A deploy that is reserved first and ends with an outcome has a new row that
/// carries the outcome, and has left the lock of its app free. What was stored
/// of it and what was published is the same, and tells the whole story.
pub proof fn law_run_settles_its_row<Plan>(
    ctx: CtxView<Plan>,
    spec: WorkloadSpecView,
    repo: Seq<u8>,
    outcome: DeployOutcomeView,
)
    requires
        ctx.store.valid(),
        spec.verdict() is Ok,
        DeployScene::start(DeploymentView::unreserved(spec, repo), ctx).end().deploy.result()
            == Some(Ok::<_, RunErrorView>(outcome)),
    ensures
        ({
            let end = DeployScene::start(DeploymentView::unreserved(spec, repo), ctx).end();
            let deploy_id = reserved_row(ctx.store, spec.name).id;
            let store = end.ctx.store;
            let news = store.events.skip(ctx.store.events.len() as int);
            &&& !ctx.store.has(deploy_id)
            &&& store.has(deploy_id)
            &&& store.row(deploy_id).app == spec.name
            &&& ended_as(store, deploy_id, outcome)
            &&& !store.locked(spec.name)
            &&& store.events == ctx.store.events + news
            &&& end.ctx.sink == ctx.sink + news
            &&& all_told(deploy_id, outcome, texts(news))
        }),
{
    let deploy_id = reserved_row(ctx.store, spec.name).id;
    let there = reservation(ctx, spec.name).0;
    law_run_reserves_first(ctx, spec, repo);
    law_granted_reservation_is_ready(ctx, spec.name, deploy_id);
    let count = DeploymentView::<Plan>::reserved(spec, repo, deploy_id).phase.left() as nat;
    law_ledger_says_where_a_deploy_is(there, spec, repo, deploy_id, count);
    lemma_kept(there, spec, repo, deploy_id, count);
}

/// Of two ways to go on from the same start, the ends are the same where the
/// whole is.
proof fn lemma_same_end<A>(start: Seq<A>, one: Seq<A>, other: Seq<A>)
    requires
        start + one == start + other,
    ensures
        one == other,
{
    assert((start + one).skip(start.len() as int) =~= one);
    assert((start + other).skip(start.len() as int) =~= other);
}

/// What a deploy stores of itself, where nothing was stored of it before, is what
/// was stored since.
proof fn lemma_stored_since<Plan>(
    ctx: CtxView<Plan>,
    spec: WorkloadSpecView,
    repo: Seq<u8>,
    deploy_id: i64,
    count: nat,
)
    requires
        ready(ctx.store, spec.name, deploy_id),
        forall|i: int|
            0 <= i < ctx.store.events.len() ==> (#[trigger] ctx.store.events[i]).event.deploy_id
                != deploy_id,
    ensures
        ({
            let now = deployed(ctx, spec, repo, deploy_id, count);
            now.ctx.store.events.filter(about(deploy_id)) == now.ctx.store.events.skip(
                ctx.store.events.len() as int,
            )
        }),
{
    let now = deployed(ctx, spec, repo, deploy_id, count).ctx;
    law_stored_before_published(ctx, spec, repo, deploy_id, count);
    law_events_of_a_deploy_are_published(ctx, spec, repo, deploy_id, count);
    lemma_same_end(
        ctx.sink,
        now.store.events.filter(about(deploy_id)),
        now.store.events.skip(ctx.store.events.len() as int),
    );
}

/// Every event goes on being of a deploy with a row.
proof fn lemma_attributed<Plan>(
    ctx: CtxView<Plan>,
    spec: WorkloadSpecView,
    repo: Seq<u8>,
    deploy_id: i64,
    count: nat,
)
    requires
        ready(ctx.store, spec.name, deploy_id),
        ctx.store.attributed(),
    ensures
        deployed(ctx, spec, repo, deploy_id, count).ctx.store.attributed(),
    decreases count,
{
    if count > 0 {
        let earlier = (count - 1) as nat;
        let scene = deployed(ctx, spec, repo, deploy_id, earlier);
        lemma_attributed(ctx, spec, repo, deploy_id, earlier);
        law_ledger_says_where_a_deploy_is(ctx, spec, repo, deploy_id, earlier);
        if !scene.stands() {
            if let RequestView::Store(call) = scene.deploy.request()->0 {
                law_answer_keeps_attributed(scene.ctx.store, call);
            }
        }
    }
}

/// Where every event was of a deploy with a row, a deploy that is reserved first
/// and ends with an outcome has published exactly what the ledger holds of it:
/// nothing that is not stored, and nothing less. It is not empty, and the ids
/// are positive and ascend. Every event still is of a deploy with a row.
pub proof fn law_run_publishes_what_is_stored<Plan>(
    ctx: CtxView<Plan>,
    spec: WorkloadSpecView,
    repo: Seq<u8>,
    outcome: DeployOutcomeView,
)
    requires
        ctx.store.valid(),
        ctx.store.attributed(),
        spec.verdict() is Ok,
        DeployScene::start(DeploymentView::unreserved(spec, repo), ctx).end().deploy.result()
            == Some(Ok::<_, RunErrorView>(outcome)),
    ensures
        ({
            let end = DeployScene::start(DeploymentView::unreserved(spec, repo), ctx).end();
            let deploy_id = reserved_row(ctx.store, spec.name).id;
            let stored = end.ctx.store.events.filter(about(deploy_id));
            &&& end.ctx.sink == ctx.sink + stored
            &&& stored.len() > 0
            &&& forall|i: int| 0 <= i < stored.len() ==> 0 < (#[trigger] stored[i]).id
            &&& forall|i: int, j: int|
                0 <= i < j < stored.len() ==> (#[trigger] stored[i]).id < (#[trigger] stored[j]).id
            &&& end.ctx.store.attributed()
        }),
{
    let deploy_id = reserved_row(ctx.store, spec.name).id;
    let there = reservation(ctx, spec.name).0;
    law_run_reserves_first(ctx, spec, repo);
    law_granted_reservation_is_ready(ctx, spec.name, deploy_id);
    law_run_settles_its_row(ctx, spec, repo, outcome);
    let count = DeploymentView::<Plan>::reserved(spec, repo, deploy_id).phase.left() as nat;
    assert forall|i: int| 0 <= i < there.store.events.len() implies (
    #[trigger] there.store.events[i]).event.deploy_id != deploy_id && there.store.has(
        there.store.events[i].event.deploy_id,
    ) by {
        assert(ctx.store.has(ctx.store.events[i].event.deploy_id));
    }
    lemma_stored_since(there, spec, repo, deploy_id, count);
    lemma_attributed(there, spec, repo, deploy_id, count);
    law_stored_before_published(there, spec, repo, deploy_id, count);
}

/// However a deploy that was reserved ends, another one of the app is not
/// refused as busy then, unless giving the lock back failed.
pub proof fn law_not_busy_afterwards<Plan>(
    ctx: CtxView<Plan>,
    spec: WorkloadSpecView,
    repo: Seq<u8>,
    deploy_id: i64,
    count: nat,
)
    requires
        ready(ctx.store, spec.name, deploy_id),
        deployed(ctx, spec, repo, deploy_id, count).deploy.result() is Some,
        !release_failed(deployed(ctx, spec, repo, deploy_id, count).log, spec.name),
    ensures
        reservation(deployed(ctx, spec, repo, deploy_id, count).ctx, spec.name).1 matches Err(error)
            ==> !(error is Busy),
{
    law_lock_is_given_back(ctx, spec, repo, deploy_id, count);
}

/// However a deploy that is reserved first ends, it has left the lock of its app
/// free, unless giving it back failed.
pub proof fn law_run_gives_its_lock_back<Plan>(
    ctx: CtxView<Plan>,
    spec: WorkloadSpecView,
    repo: Seq<u8>,
)
    requires
        ctx.store.valid(),
        spec.verdict() is Ok,
        reservation(ctx, spec.name).1 is Ok,
        DeployScene::start(
            DeploymentView::<Plan>::unreserved(spec, repo),
            ctx,
        ).end().deploy.result() is Some,
        !release_failed(
            DeployScene::start(DeploymentView::unreserved(spec, repo), ctx).end().log,
            spec.name,
        ),
    ensures
        !DeployScene::start(
            DeploymentView::unreserved(spec, repo),
            ctx,
        ).end().ctx.store.locked(spec.name),
{
    let (there, result) = reservation(ctx, spec.name);
    let deploy_id = result->Ok_0;
    law_run_reserves_first(ctx, spec, repo);
    law_granted_reservation_is_ready(ctx, spec.name, deploy_id);
    let end = DeployScene::start(DeploymentView::unreserved(spec, repo), ctx).end();
    let count = DeploymentView::<Plan>::reserved(spec, repo, deploy_id).phase.left() as nat;
    let reserved = deployed(there, spec, repo, deploy_id, count);
    if release_failed(reserved.log, spec.name) {
        let error = choose|error: Seq<Seq<char>>| #[trigger]
            happened(
                reserved.log,
                RequestView::Store(StoreCallView::ReleaseLock { name: spec.name }),
                ReplyView::Store(StoreReplyView::Failed(error)),
            );
        let one = Exchange {
            request: RequestView::<Plan>::Store(StoreCallView::ReleaseLock { name: spec.name }),
            reply: ReplyView::Store(StoreReplyView::Failed(error)),
        };
        let earlier = choose|log: Seq<Exchange<Plan>>|
            only_store(log) && end.log == log + reserved.log;
        let i = choose|i: int| 0 <= i < reserved.log.len() && reserved.log[i] == one;
        assert(end.log[earlier.len() + i] == one);
        assert(happened(end.log, one.request, one.reply));
    }
    law_lock_is_given_back(there, spec, repo, deploy_id, count);
}

/// A reservation writes a new row under the next id, in progress at the first
/// stage, and takes the lock of the app for it, where nobody holds that lock.
/// Where somebody does, the row has failed because of that, and the lock stays
/// as it was. Nothing else changes. A fault of the store ends it where it is: the
/// first before there is a row, the second before the lock is taken, and the
/// third before the row is finished.
pub proof fn law_what_a_reservation_writes<Plan>(ctx: CtxView<Plan>, name: Seq<char>)
    requires
        ctx.store.valid(),
    ensures
        ({
            let (there, result) = reservation(ctx, name);
            let id = (ctx.store.rows.len() + 1) as i64;
            let busy = exists|i: int|
                0 <= i < ctx.store.locks.len() && (#[trigger] ctx.store.locks[i]).app == name;
            let begun = ctx.store.rows.push(
                DeployRowView {
                    id,
                    app: name,
                    stage: Stage::Detect,
                    status: DeployStatus::InProgress,
                    detail: None,
                },
            );
            let failed = ctx.store.rows.push(
                DeployRowView {
                    id,
                    app: name,
                    stage: Stage::Detect,
                    status: DeployStatus::Failed,
                    detail: Some("another deploy is already in progress"@),
                },
            );
            let locked = ctx.store.locks.push(LockView { app: name, deploy_id: id });
            let full = ctx.store.rows.len() >= i64::MAX;
            &&& there.store.events == ctx.store.events
            &&& there.store.specs == ctx.store.specs
            &&& there.sink == ctx.sink
            &&& there.replies == ctx.replies
            &&& match (ctx.fault(0), full, ctx.fault(1), busy, ctx.fault(2)) {
                (Some(error), ..) => {
                    &&& result == Err::<i64, _>(ReserveErrorView::Internal(error))
                    &&& there.store == ctx.store
                },
                (None, true, ..) => {
                    &&& result == Err::<i64, _>(
                        ReserveErrorView::Internal(seq!["the store is full"@]),
                    )
                    &&& there.store == ctx.store
                },
                (None, false, Some(error), ..) => {
                    &&& result == Err::<i64, _>(ReserveErrorView::Internal(error))
                    &&& there.store.rows == begun
                    &&& there.store.locks == ctx.store.locks
                },
                (None, false, None, false, _) => {
                    &&& result == Ok::<_, ReserveErrorView>(id)
                    &&& there.store.rows == begun
                    &&& there.store.locks == locked
                },
                (None, false, None, true, Some(error)) => {
                    &&& result == Err::<i64, _>(ReserveErrorView::Internal(error))
                    &&& there.store.rows == begun
                    &&& there.store.locks == ctx.store.locks
                },
                (None, false, None, true, None) => {
                    &&& result == Err::<i64, _>(ReserveErrorView::Busy { name, deploy_id: id })
                    &&& there.store.rows == failed
                    &&& there.store.locks == ctx.store.locks
                },
            }
        }),
{
}

/// Of two reservations of the same app, one right after the other, the second is
/// refused as busy, under an id of its own, where the store does not fail. One of
/// another app is not refused because of the first.
pub proof fn law_reserving_twice<Plan>(ctx: CtxView<Plan>, name: Seq<char>, other: Seq<char>)
    requires
        ctx.store.valid(),
        ctx.faultless(),
        ctx.store.rows.len() + 2 <= i64::MAX,
        reservation(ctx, name).1 is Ok,
    ensures
        ({
            let (there, result) = reservation(ctx, name);
            let id = ctx.store.rows.len() + 1;
            &&& result == Ok::<_, ReserveErrorView>(id as i64)
            &&& reservation(there, name).1 == Err::<i64, _>(
                ReserveErrorView::Busy { name, deploy_id: (id + 1) as i64 },
            )
            &&& other != name ==> (reservation(there, other).1 is Ok) == (reservation(
                ctx,
                other,
            ).1 is Ok)
        }),
{
    let there = reservation(ctx, name).0;
    law_what_a_reservation_writes(ctx, name);
    assert(ctx.fault(0) is None && ctx.fault(1) is None && ctx.fault(2) is None);
    assert(there == CtxView { store: there.store, ..ctx.spent(2) });
    lemma_spent(ctx, 2, 0);
    lemma_spent(ctx, 2, 1);
    lemma_spent(ctx, 2, 2);
    assert(ctx.fault(2) is None && ctx.fault(3) is None && ctx.fault(4) is None);
    assert(there.fault(0) is None && there.fault(1) is None && there.fault(2) is None);
    let locks = there.store.locks;
    assert(locks[locks.len() - 1].app == name);
    assert(there.store.locked(name));
    if ctx.store.locked(other) {
        let i = choose|i: int|
            0 <= i < ctx.store.locks.len() && (#[trigger] ctx.store.locks[i]).app == other;
        assert(locks[i].app == other);
    }
    if there.store.locked(other) && other != name {
        let i = choose|i: int| 0 <= i < locks.len() && (#[trigger] locks[i]).app == other;
        assert(ctx.store.locks[i].app == other);
    }
}

} // verus!
