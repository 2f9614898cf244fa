//! What holds of every recovery, wherever the crash was.

use crate::ctx::{law_reply_is_admitted, lemma_spent, CtxView};
use crate::laws::deploys::{deployed, law_ledger_says_where_a_deploy_is};
use crate::laws::evidence::{explained, happened, lemma_happened};
use crate::laws::host::{all_worked, effects, Effect};
use crate::laws::ledger::ready;
use crate::laws::story::{lemma_one_more, texts};
use crate::model::{
    finished_event, DeployOutcomeView, DeployRowView, DeployStatus, EventView, StoredEventView,
};
use crate::protocol::{
    CodecCallView, CodecReplyView, HostCallView, HostReplyView, ReplyView, RequestView,
    StoreReplyView,
};
use crate::reconciliation::{
    crashed_at, freed, stuck, ReconciliationView, RecoveryPhaseView, RecoveryView,
};
use crate::run::{only_store, Exchange, RecoveryScene};
use crate::spec::{slug_of, WorkloadSpecView};
use crate::store::{
    law_answer_keeps_valid, lemma_filter_all_or_none, lemma_filter_within, not_held, not_of,
    unfinished, LockView, StoreView,
};
use crate::unwind::{compensation, first_unwind};
use vstd::prelude::*;

verus! {

/// The ids of the rows that are in progress ascend, and each is the row that
/// the ledger has under its id.
pub proof fn lemma_in_progress_rows(store: StoreView)
    requires
        store.valid(),
    ensures
        ({
            let rows = store.in_progress_rows();
            &&& forall|i: int|
                0 <= i < rows.len() ==> {
                    &&& store.in_progress((#[trigger] rows[i]).id)
                    &&& store.row(rows[i].id) == rows[i]
                }
            &&& forall|i: int, j: int|
                0 <= i < j < rows.len() ==> (#[trigger] rows[i]).id < (#[trigger] rows[j]).id
            &&& forall|id: i64| #[trigger]
                store.in_progress(id) ==> rows.contains(store.row(id))
        }),
{
    let rows = store.in_progress_rows();
    lemma_filter_ascends(store.rows);
    assert forall|i: int| 0 <= i < rows.len() implies {
        &&& store.in_progress((#[trigger] rows[i]).id)
        &&& store.row(rows[i].id) == rows[i]
    } by {
        assert(rows.contains(rows[i]));
        lemma_filter_within(store.rows, unfinished(), rows[i]);
        let j = choose|j: int| 0 <= j < store.rows.len() && store.rows[j] == rows[i];
        assert(store.rows[j].id == j + 1);
    }
    assert forall|id: i64| #[trigger] store.in_progress(id) implies rows.contains(
        store.row(id),
    ) by {
        assert(store.rows[id - 1] == store.row(id));
        assert(store.rows.contains(store.row(id)));
        lemma_filter_within(store.rows, unfinished(), store.row(id));
    }
}

/// Rows with ascending ids stay so when some are dropped.
proof fn lemma_filter_ascends(rows: Seq<DeployRowView>)
    requires
        forall|i: int, j: int|
            0 <= i < j < rows.len() ==> (#[trigger] rows[i]).id < (#[trigger] rows[j]).id,
    ensures
        forall|i: int, j: int|
            0 <= i < j < rows.filter(unfinished()).len() ==> (#[trigger] rows.filter(
                unfinished(),
            )[i]).id < (#[trigger] rows.filter(unfinished())[j]).id,
    decreases rows.len(),
{
    reveal(Seq::filter);
    if rows.len() > 0 {
        let rest = rows.drop_last();
        let left = rest.filter(unfinished());
        lemma_filter_ascends(rest);
        assert forall|i: int| 0 <= i < left.len() implies (#[trigger] left[i]).id
            < rows.last().id by {
            assert(left.contains(left[i]));
            lemma_filter_within(rest, unfinished(), left[i]);
            let j = choose|j: int| 0 <= j < rest.len() && rest[j] == left[i];
            assert(rows[j].id < rows[rows.len() - 1].id);
        }
    }
}

/// Whether a recovery ends a deploy that it found so with this outcome.
pub open spec fn judged(row: DeployRowView, outcome: DeployOutcomeView) -> bool {
    match outcome {
        DeployOutcomeView::Done { .. } => false,
        DeployOutcomeView::RolledBack { failed_at, cause } => {
            &&& failed_at == row.stage
            &&& cause == crashed_at(row.stage)
        },
        DeployOutcomeView::Failed { failed_at, cause } => {
            &&& failed_at == row.stage
            &&& first_unwind(row.stage) is Some
            &&& exists|error: Seq<Seq<char>>| cause == #[trigger] stuck(error)
        },
    }
}

/// The row of a deploy that was ended with this outcome.
pub open spec fn settled(row: DeployRowView, outcome: DeployOutcomeView) -> DeployRowView {
    DeployRowView { status: outcome.status(), detail: outcome.detail(), ..row }
}

/// The outcomes that are stored.
pub open spec fn stored_outcomes(recovery: ReconciliationView) -> Seq<DeployOutcomeView> {
    match recovery.phase {
        RecoveryPhaseView::Releasing { outcome, .. } => recovery.outcomes.push(outcome),
        RecoveryPhaseView::Ended { result: Ok(result) } => result.outcomes,
        _ => recovery.outcomes,
    }
}

/// The deploys whose end is not stored yet.
pub open spec fn pending(recovery: ReconciliationView) -> Seq<DeployRowView> {
    match recovery.phase {
        RecoveryPhaseView::Loading { row } => seq![row] + recovery.waiting,
        RecoveryPhaseView::Decoding { row, .. } => seq![row] + recovery.waiting,
        RecoveryPhaseView::Unwinding { row, .. } => seq![row] + recovery.waiting,
        RecoveryPhaseView::Finishing { row, .. } => seq![row] + recovery.waiting,
        _ => recovery.waiting,
    }
}

/// Whether a recovery is in order: of the deploys in progress that it found, the
/// first ones are ended as their outcomes say, and the others wait as they
/// were.
pub open spec fn in_order(before: StoreView, recovery: ReconciliationView, now: StoreView) -> bool {
    let rows = before.in_progress_rows();
    let outcomes = stored_outcomes(recovery);
    &&& outcomes.len() <= rows.len()
    &&& pending(recovery) == rows.skip(outcomes.len() as int)
    &&& forall|i: int|
        0 <= i < outcomes.len() ==> judged(#[trigger] rows[i], outcomes[i]) && now.row(rows[i].id)
            == settled(rows[i], outcomes[i])
    &&& forall|i: int|
        outcomes.len() <= i < rows.len() ==> now.row((#[trigger] rows[i]).id) == rows[i]
    &&& match recovery.phase {
        RecoveryPhaseView::Finishing { row, outcome } => judged(row, outcome),
        RecoveryPhaseView::Releasing { row, outcome } => row == rows[recovery.outcomes.len() as int],
        RecoveryPhaseView::Unwinding { row, step } => {
            &&& first_unwind(row.stage) is Some
            &&& step.left() <= first_unwind(row.stage)->0.left()
        },
        RecoveryPhaseView::Sweeping => recovery.waiting.len() == 0,
        RecoveryPhaseView::Ended { .. } => recovery.waiting.len() == 0,
        _ => true,
    }
}

/// Whether a recovery has found out what there is to recover, and was not given
/// up.
pub open spec fn under_way(recovery: ReconciliationView) -> bool {
    match recovery.phase {
        RecoveryPhaseView::Listing => false,
        RecoveryPhaseView::Ended { result } => result is Ok,
        _ => true,
    }
}

/// Whether nothing in the ledger has changed but rows that were in progress,
/// locks that were given back, and new events.
pub open spec fn only_recovered(before: StoreView, now: StoreView) -> bool {
    &&& now.valid()
    &&& now.rows.len() == before.rows.len()
    &&& forall|i: int|
        0 <= i < before.rows.len() && before.rows[i].status != DeployStatus::InProgress
            ==> #[trigger] now.rows[i] == before.rows[i]
    &&& now.specs == before.specs
    &&& before.events.is_prefix_of(now.events)
}

/// Whether a recovery is where it has to be.
pub open spec fn recovering<Plan>(before: StoreView, scene: RecoveryScene<Plan>) -> bool {
    &&& only_recovered(before, scene.ctx.store)
    &&& scene.recovery.phase is Listing ==> scene.recovery == ReconciliationView::start()
        && scene.ctx.store == before
    &&& under_way(scene.recovery) ==> in_order(before, scene.recovery, scene.ctx.store)
    &&& !(scene.recovery.phase is Ended) && pending(scene.recovery).len() > 0
        && !(scene.recovery.phase is Releasing) ==> scene.recovery.slug == slug_of(
        pending(scene.recovery)[0].app,
    )
}

/// The first row of what is left.
proof fn lemma_first_of(
    row: DeployRowView,
    rest: Seq<DeployRowView>,
    rows: Seq<DeployRowView>,
    k: int,
)
    requires
        0 <= k <= rows.len(),
        seq![row] + rest == rows.skip(k),
    ensures
        k < rows.len(),
        row == rows[k],
        rest == rows.skip(k + 1),
{
    let left = seq![row] + rest;
    assert(left.len() == 1 + rest.len());
    assert(left[0] == row);
    assert(left.skip(1) =~= rest);
    assert(rows.skip(k).skip(1) =~= rows.skip(k + 1));
}

/// A recovery goes on where it has to.
proof fn lemma_recovering<Plan>(before: StoreView, scene: RecoveryScene<Plan>)
    requires
        before.valid(),
        recovering(before, scene),
    ensures
        recovering(before, scene.next()),
{
    let rows = before.in_progress_rows();
    let recovery = scene.recovery;
    let now = scene.ctx.store;
    lemma_in_progress_rows(before);
    if !scene.stands() {
        let request = recovery.request::<Plan>()->0;
        let reply = scene.ctx.reply(request)->0;
        law_reply_is_admitted(scene.ctx, request);
        let next = scene.next();
        if let RequestView::Store(call) = request {
            law_answer_keeps_valid(now, call);
        }
        match recovery.phase {
            RecoveryPhaseView::Listing => {
                assert(rows.skip(0) =~= rows);
                if rows.len() > 0 {
                    assert(seq![rows[0]] + rows.drop_first() =~= rows);
                }
            },
            RecoveryPhaseView::Finishing { row, outcome } => {
                let k = recovery.outcomes.len() as int;
                lemma_first_of(row, recovery.waiting, rows, k);
                if reply is Store && reply->Store_0 is Event {
                    let then = next.ctx.store;
                    assert(then.rows == now.rows.update(row.id - 1, settled(row, outcome)));
                    assert(before.in_progress(rows[k].id));
                }
            },
            RecoveryPhaseView::Releasing { row, outcome } => {
                let k = recovery.outcomes.len() as int + 1;
                if recovery.waiting.len() > 0 {
                    assert(seq![recovery.waiting[0]] + recovery.waiting.drop_first()
                        =~= recovery.waiting);
                }
            },
            RecoveryPhaseView::Unwinding { row, step } => {
                if let ReplyView::Host(HostReplyView::Failed(error)) = reply {
                    assert(judged(row, next.recovery.phase->Finishing_outcome));
                }
            },
            _ => {},
        }
    }
}

/// The locks of every app but those of the rows.
pub open spec fn not_among(rows: Seq<DeployRowView>) -> spec_fn(LockView) -> bool {
    |lock: LockView| forall|i: int| 0 <= i < rows.len() ==> (#[trigger] rows[i]).app != lock.app
}

/// Filtering twice is filtering by both.
proof fn lemma_filter_twice<A>(
    s: Seq<A>,
    first: spec_fn(A) -> bool,
    then: spec_fn(A) -> bool,
    both: spec_fn(A) -> bool,
)
    requires
        forall|x: A| #[trigger] both(x) == (first(x) && then(x)),
    ensures
        s.filter(first).filter(then) == s.filter(both),
    decreases s.len(),
{
    reveal(Seq::filter);
    if s.len() > 0 {
        lemma_filter_twice(s.drop_last(), first, then, both);
        assert(both(s.last()) == (first(s.last()) && then(s.last())));
        if first(s.last()) {
            let left = s.drop_last().filter(first);
            assert(left.push(s.last()).drop_last() =~= left);
        }
    }
}

/// Whether the locks are what they have to be: those of the apps that are
/// recovered are given back, and in the end all are.
pub open spec fn locks_in_order(
    before: StoreView,
    recovery: ReconciliationView,
    now: StoreView,
) -> bool {
    let rows = before.in_progress_rows();
    let left = before.locks.filter(not_among(rows.take(recovery.outcomes.len() as int)));
    match recovery.phase {
        RecoveryPhaseView::Listing => now.locks == before.locks,
        RecoveryPhaseView::Releasing { row, .. } => now.locks == left.filter(
            not_held(row.app, row.id),
        ),
        RecoveryPhaseView::Ended { result: Ok(result) } => {
            &&& now.locks == Seq::<LockView>::empty()
            &&& result.notices == before.locks.filter(not_among(rows)).map_values(
                |lock: LockView| freed(lock.app),
            )
        },
        RecoveryPhaseView::Ended { result: Err(_) } => true,
        _ => now.locks == left,
    }
}

/// No deploy is in progress any more once each was ended.
proof fn lemma_none_in_progress(before: StoreView, recovery: ReconciliationView, now: StoreView)
    requires
        before.valid(),
        only_recovered(before, now),
        in_order(before, recovery, now),
        stored_outcomes(recovery).len() == before.in_progress_rows().len(),
    ensures
        forall|id: i64| !#[trigger] now.in_progress(id),
{
    let rows = before.in_progress_rows();
    lemma_in_progress_rows(before);
    assert forall|id: i64| !#[trigger] now.in_progress(id) by {
        if now.has(id) {
            assert(now.rows[id - 1] == now.row(id));
            if before.in_progress(id) {
                let i = choose|i: int| 0 <= i < rows.len() && rows[i] == before.row(id);
                assert(before.rows[id - 1].id == id);
                assert(rows[i].id == id);
            } else {
                assert(before.rows[id - 1] == before.row(id));
            }
        }
    }
}

/// The locks go on being what they have to be.
proof fn lemma_locks_in_order<Plan>(before: StoreView, scene: RecoveryScene<Plan>)
    requires
        before.valid(),
        recovering(before, scene),
        locks_in_order(before, scene.recovery, scene.ctx.store),
    ensures
        locks_in_order(before, scene.next().recovery, scene.next().ctx.store),
{
    let rows = before.in_progress_rows();
    let recovery = scene.recovery;
    let now = scene.ctx.store;
    let k = recovery.outcomes.len() as int;
    if !scene.stands() {
        let request = recovery.request::<Plan>()->0;
        let reply = scene.ctx.reply(request)->0;
        law_reply_is_admitted(scene.ctx, request);
        let next = scene.next();
        match recovery.phase {
            RecoveryPhaseView::Listing => {
                assert(forall|lock: LockView| #[trigger] not_among(rows.take(0))(lock));
                lemma_filter_all_or_none(before.locks, not_among(rows.take(0)));
            },
            RecoveryPhaseView::Finishing { row, .. } => {
                lemma_first_of(row, recovery.waiting, rows, k);
            },
            RecoveryPhaseView::Releasing { row, .. } => {
                let first = not_among(rows.take(k));
                let both = |lock: LockView| first(lock) && not_held(row.app, row.id)(lock);
                let all = not_among(rows.take(k + 1));
                assert forall|lock: LockView| #[trigger] all(lock) == (both(lock) && not_of(
                    row.app,
                )(lock)) by {
                    assert(rows.take(k + 1)[k] == row);
                    if all(lock) {
                        assert forall|i: int| 0 <= i < k implies (#[trigger] rows.take(k)[i]).app
                            != lock.app by {
                            assert(rows.take(k + 1)[i] == rows.take(k)[i]);
                        }
                    }
                    if first(lock) && row.app != lock.app {
                        assert forall|i: int| 0 <= i < k + 1 implies (#[trigger] rows.take(
                            k + 1,
                        )[i]).app != lock.app by {
                            if i < k {
                                assert(rows.take(k + 1)[i] == rows.take(k)[i]);
                            }
                        }
                    }
                }
                lemma_filter_twice(before.locks, first, not_held(row.app, row.id), both);
                lemma_filter_twice(before.locks, both, not_of(row.app), all);
            },
            RecoveryPhaseView::Sweeping => {
                assert(rows.skip(k).len() == rows.len() - k);
                assert(rows.take(k) =~= rows);
                lemma_none_in_progress(before, recovery, now);
                let orphaned = |lock: LockView| !now.in_progress(lock.deploy_id);
                lemma_filter_all_or_none(now.locks, orphaned);
                lemma_filter_all_or_none(now.locks, now.alive());
                if reply is Store && reply->Store_0 is Apps {
                    assert(next.recovery.phase->Ended_result->Ok_0.notices =~= now.locks.map_values(
                        |lock: LockView| freed(lock.app),
                    ));
                }
            },
            _ => {},
        }
    }
}

/// What is told of the deploys that were ended: of each its end, with the cause,
/// and nothing else.
pub open spec fn endings(rows: Seq<DeployRowView>, outcomes: Seq<DeployOutcomeView>) -> Seq<
    EventView,
> {
    Seq::new(
        outcomes.len(),
        |i: int| finished_event(rows[i].id, outcomes[i].status(), outcomes[i].detail()),
    )
}

/// Whether the events that were stored since `before` are what was published
/// since, in the same order and under the same ids, and tell how the deploys
/// ended.
pub open spec fn endings_told<Plan>(before: CtxView<Plan>, scene: RecoveryScene<Plan>) -> bool {
    let news = scene.ctx.store.events.skip(before.store.events.len() as int);
    &&& before.store.events.len() <= scene.ctx.store.events.len()
    &&& scene.ctx.store.events == before.store.events + news
    &&& scene.ctx.sink == before.sink + news
    &&& under_way(scene.recovery) ==> texts(news) == endings(
        before.store.in_progress_rows(),
        stored_outcomes(scene.recovery),
    )
    &&& scene.recovery.phase is Listing ==> news == Seq::<StoredEventView>::empty()
}

/// The ends go on being told.
proof fn lemma_endings_told<Plan>(before: CtxView<Plan>, scene: RecoveryScene<Plan>)
    requires
        before.store.valid(),
        recovering(before.store, scene),
        endings_told(before, scene),
    ensures
        endings_told(before, scene.next()),
{
    let rows = before.store.in_progress_rows();
    let recovery = scene.recovery;
    let now = scene.ctx.store;
    let earlier = before.store.events;
    let news = now.events.skip(earlier.len() as int);
    if !scene.stands() {
        let request = recovery.request::<Plan>()->0;
        let reply = scene.ctx.reply(request)->0;
        law_reply_is_admitted(scene.ctx, request);
        let next = scene.next();
        match reply {
            ReplyView::Store(StoreReplyView::Event(stored)) => {
                lemma_one_more(earlier, now.events, stored);
                assert(next.ctx.store.events == now.events.push(stored));
                assert(next.ctx.store.events =~= earlier + news.push(stored));
                assert(next.ctx.sink =~= before.sink + news.push(stored));
                if let RecoveryPhaseView::Finishing { row, outcome } = recovery.phase {
                    lemma_first_of(row, recovery.waiting, rows, recovery.outcomes.len() as int);
                    assert(texts(news.push(stored)) =~= endings(
                        rows,
                        recovery.outcomes.push(outcome),
                    ));
                }
            },
            _ => {
                assert(next.ctx.store.events == now.events);
                if recovery.phase is Listing {
                    assert(texts(news) =~= endings(rows, Seq::empty()));
                }
            },
        }
    }
}

/// Whether `done` is what a recovery did to the host for a deploy with this
/// outcome, where `previous` is the spec to go back to: everything that undoes
/// the stage that the deploy was at. Where that failed, it stopped at what
/// failed.
pub open spec fn undone<Plan>(
    row: DeployRowView,
    previous: Option<WorkloadSpecView>,
    outcome: DeployOutcomeView,
    done: Seq<Effect<Plan>>,
) -> bool {
    let undoing = compensation::<Plan>(row.app, slug_of(row.app), previous, row.stage);
    match outcome {
        DeployOutcomeView::Done { .. } => false,
        DeployOutcomeView::RolledBack { .. } => done == all_worked(undoing),
        DeployOutcomeView::Failed { .. } => exists|i: int|
            0 <= i < undoing.len() && done == all_worked(undoing.take(i)).push(
                Effect { call: #[trigger] undoing[i], worked: false },
            ),
    }
}

/// Whether the spec to go back to is what the codec made of the one that the
/// ledger held for the app, or none where it held none.
pub open spec fn recalled<Plan>(
    before: StoreView,
    log: Seq<Exchange<Plan>>,
    app: Seq<char>,
    previous: Option<WorkloadSpecView>,
) -> bool {
    match previous {
        None => !before.specs.contains_key(app),
        Some(spec) => before.specs.contains_key(app) && happened(
            log,
            RequestView::Codec(CodecCallView::Decode { json: before.specs[app].json }),
            ReplyView::Codec(CodecReplyView::Spec(spec)),
        ),
    }
}

/// Whether a deploy that could not be undone is blamed on what the host replied
/// to something that undoes it.
pub open spec fn stuck_on_a_reply<Plan>(
    log: Seq<Exchange<Plan>>,
    row: DeployRowView,
    previous: Option<WorkloadSpecView>,
    outcome: DeployOutcomeView,
) -> bool {
    match outcome {
        DeployOutcomeView::Failed { cause, .. } => exists|
            call: HostCallView<Plan>,
            error: Seq<Seq<char>>,
        |
            {
                &&& #[trigger] happened(
                    log,
                    RequestView::Host(call),
                    ReplyView::Host(HostReplyView::Failed(error)),
                )
                &&& compensation::<Plan>(
                    row.app,
                    slug_of(row.app),
                    previous,
                    row.stage,
                ).contains(call)
                &&& cause == stuck(error)
            },
        _ => true,
    }
}

/// Whether `done` is what a recovery did to the host for the first deploys that
/// it found in progress, which had these outcomes, one deploy after the other.
pub open spec fn all_undone<Plan>(
    before: StoreView,
    log: Seq<Exchange<Plan>>,
    outcomes: Seq<DeployOutcomeView>,
    done: Seq<Effect<Plan>>,
) -> bool
    decreases outcomes.len(),
{
    if outcomes.len() == 0 {
        done == Seq::<Effect<Plan>>::empty()
    } else {
        let row = before.in_progress_rows()[outcomes.len() - 1];
        exists|count: int, previous: Option<WorkloadSpecView>|
            {
                &&& 0 <= count <= done.len()
                &&& all_undone(before, log, outcomes.drop_last(), done.take(count))
                &&& recalled(before, log, row.app, previous)
                &&& stuck_on_a_reply(log, row, previous, outcomes.last())
                &&& #[trigger] undone(row, previous, outcomes.last(), done.skip(count))
            }
    }
}

/// Whether the host was touched as a recovery has to in its phase.
pub open spec fn host_in_order<Plan>(before: StoreView, scene: RecoveryScene<Plan>) -> bool {
    let recovery = scene.recovery;
    let log = scene.log;
    let done = effects(log);
    match recovery.phase {
        RecoveryPhaseView::Unwinding { row, step } => {
            let undoing = compensation::<Plan>(
                row.app,
                slug_of(row.app),
                recovery.previous,
                row.stage,
            );
            &&& recalled(before, log, row.app, recovery.previous)
            &&& exists|count: int|
                {
                    &&& 0 <= count <= done.len()
                    &&& #[trigger] all_undone(before, log, recovery.outcomes, done.take(count))
                    &&& done.skip(count) == all_worked(
                        undoing.take(undoing.len() - step.left()),
                    )
                }
        },
        RecoveryPhaseView::Loading { .. } => recovery.previous is None && all_undone(
            before,
            log,
            recovery.outcomes,
            done,
        ),
        RecoveryPhaseView::Decoding { row, json } => {
            &&& recovery.previous is None
            &&& before.specs.contains_key(row.app)
            &&& before.specs[row.app].json == json
            &&& all_undone(before, log, recovery.outcomes, done)
        },
        RecoveryPhaseView::Finishing { row, outcome } => all_undone(
            before,
            log,
            recovery.outcomes.push(outcome),
            done,
        ),
        RecoveryPhaseView::Ended { result: Err(_) } => true,
        _ => all_undone(before, log, stored_outcomes(recovery), done),
    }
}

/// What the ledger held stays known.
proof fn lemma_recalled<Plan>(
    before: StoreView,
    log: Seq<Exchange<Plan>>,
    one: Exchange<Plan>,
    app: Seq<char>,
    previous: Option<WorkloadSpecView>,
)
    requires
        recalled(before, log, app, previous),
    ensures
        recalled(before, log.push(one), app, previous),
{
    lemma_happened(log, one.request, one.reply);
}

/// What a deploy was blamed on stays known.
proof fn lemma_stuck_on_a_reply<Plan>(
    log: Seq<Exchange<Plan>>,
    one: Exchange<Plan>,
    row: DeployRowView,
    previous: Option<WorkloadSpecView>,
    outcome: DeployOutcomeView,
)
    requires
        stuck_on_a_reply(log, row, previous, outcome),
    ensures
        stuck_on_a_reply(log.push(one), row, previous, outcome),
{
    if let DeployOutcomeView::Failed { cause, .. } = outcome {
        let (call, error) = choose|call: HostCallView<Plan>, error: Seq<Seq<char>>|
            {
                &&& #[trigger] happened(
                    log,
                    RequestView::Host(call),
                    ReplyView::Host(HostReplyView::Failed(error)),
                )
                &&& compensation::<Plan>(
                    row.app,
                    slug_of(row.app),
                    previous,
                    row.stage,
                ).contains(call)
                &&& cause == stuck(error)
            };
        lemma_happened(log, one.request, one.reply);
        assert(happened(
            log.push(one),
            RequestView::Host(call),
            ReplyView::Host(HostReplyView::Failed(error)),
        ));
    }
}

/// What was undone stays undone.
proof fn lemma_stays_undone<Plan>(
    before: StoreView,
    log: Seq<Exchange<Plan>>,
    one: Exchange<Plan>,
    outcomes: Seq<DeployOutcomeView>,
    done: Seq<Effect<Plan>>,
)
    requires
        all_undone(before, log, outcomes, done),
    ensures
        all_undone(before, log.push(one), outcomes, done),
    decreases outcomes.len(),
{
    if outcomes.len() > 0 {
        let row = before.in_progress_rows()[outcomes.len() - 1];
        let (count, previous) = choose|count: int, previous: Option<WorkloadSpecView>|
            {
                &&& 0 <= count <= done.len()
                &&& all_undone(before, log, outcomes.drop_last(), done.take(count))
                &&& recalled(before, log, row.app, previous)
                &&& stuck_on_a_reply(log, row, previous, outcomes.last())
                &&& #[trigger] undone(row, previous, outcomes.last(), done.skip(count))
            };
        lemma_stays_undone(before, log, one, outcomes.drop_last(), done.take(count));
        lemma_recalled(before, log, one, row.app, previous);
        lemma_stuck_on_a_reply(log, one, row, previous, outcomes.last());
        assert(undone(row, previous, outcomes.last(), done.skip(count)));
    }
}

/// One more deploy is undone.
proof fn lemma_one_more_undone<Plan>(
    before: StoreView,
    log: Seq<Exchange<Plan>>,
    outcomes: Seq<DeployOutcomeView>,
    outcome: DeployOutcomeView,
    previous: Option<WorkloadSpecView>,
    done: Seq<Effect<Plan>>,
    count: int,
)
    requires
        0 <= count <= done.len(),
        all_undone(before, log, outcomes, done.take(count)),
        recalled(
            before,
            log,
            before.in_progress_rows()[outcomes.len() as int].app,
            previous,
        ),
        stuck_on_a_reply(
            log,
            before.in_progress_rows()[outcomes.len() as int],
            previous,
            outcome,
        ),
        undone(
            before.in_progress_rows()[outcomes.len() as int],
            previous,
            outcome,
            done.skip(count),
        ),
    ensures
        all_undone(before, log, outcomes.push(outcome), done),
{
    let all = outcomes.push(outcome);
    let row = before.in_progress_rows()[all.len() - 1];
    assert(all.drop_last() =~= outcomes);
    assert(undone(row, previous, all.last(), done.skip(count)));
}

/// The host is touched as it has to be when a step of undoing a deploy was
/// replied to.
proof fn lemma_unwinding_in_order<Plan>(before: StoreView, scene: RecoveryScene<Plan>)
    requires
        before.valid(),
        recovering(before, scene),
        host_in_order(before, scene),
        scene.recovery.phase is Unwinding,
    ensures
        host_in_order(before, scene.next()),
{
    let rows = before.in_progress_rows();
    let recovery = scene.recovery;
    let done = effects(scene.log);
    if !scene.stands() {
        let request = recovery.request::<Plan>()->0;
        let reply = scene.ctx.reply(request)->0;
        law_reply_is_admitted(scene.ctx, request);
        let next = scene.next();
        let then = effects(next.log);
        let one = Exchange { request, reply };
        assert(next.log.drop_last() =~= scene.log);
        let row = recovery.phase->Unwinding_row;
        let step = recovery.phase->Unwinding_step;
        lemma_first_of(row, recovery.waiting, rows, recovery.outcomes.len() as int);
        lemma_recalled(before, scene.log, one, row.app, recovery.previous);
        let undoing = compensation::<Plan>(
            row.app,
            slug_of(row.app),
            recovery.previous,
            row.stage,
        );
        let count = choose|count: int|
            {
                &&& 0 <= count <= done.len()
                &&& #[trigger] all_undone(before, scene.log, recovery.outcomes, done.take(count))
                &&& done.skip(count) == all_worked(undoing.take(undoing.len() - step.left()))
            };
        let i = undoing.len() - step.left();
        assert(undoing[i] == step.call::<Plan>(row.app, slug_of(row.app), recovery.previous));
        let effect = Effect { call: undoing[i], worked: !(reply->Host_0 is Failed) };
        assert(then == done.push(effect));
        assert(then.take(count) =~= done.take(count));
        lemma_stays_undone(before, scene.log, one, recovery.outcomes, done.take(count));
        assert(then.skip(count) =~= all_worked(undoing.take(i)).push(effect));
        assert(undoing.take(i + 1) =~= undoing.take(i).push(undoing[i]));
        assert(all_worked(undoing.take(i + 1)) =~= all_worked(undoing.take(i)).push(
            Effect { call: undoing[i], worked: true },
        ));
        assert(undoing.take(undoing.len() as int) =~= undoing);
        lemma_happened(scene.log, request, reply);
        if let ReplyView::Host(HostReplyView::Failed(error)) = reply {
            assert(happened(
                next.log,
                RequestView::Host(undoing[i]),
                ReplyView::Host(HostReplyView::Failed(error)),
            ));
        }
        if let RecoveryPhaseView::Finishing { outcome, .. } = next.recovery.phase {
            lemma_one_more_undone(
                before,
                next.log,
                recovery.outcomes,
                outcome,
                recovery.previous,
                then,
                count,
            );
        } else {
            let following = next.recovery.phase->Unwinding_step;
            assert(undoing.len() - following.left() == i + 1);
            assert(then.skip(count) == all_worked(undoing.take(i + 1)));
            assert(all_undone(before, next.log, next.recovery.outcomes, then.take(count)));
        }
    }
}

/// The host goes on being touched as it has to be.
proof fn lemma_host_in_order<Plan>(before: StoreView, scene: RecoveryScene<Plan>)
    requires
        before.valid(),
        recovering(before, scene),
        host_in_order(before, scene),
    ensures
        host_in_order(before, scene.next()),
{
    let rows = before.in_progress_rows();
    let recovery = scene.recovery;
    let done = effects(scene.log);
    if recovery.phase is Unwinding {
        lemma_unwinding_in_order(before, scene);
    } else if !scene.stands() {
        let request = recovery.request::<Plan>()->0;
        let reply = scene.ctx.reply(request)->0;
        law_reply_is_admitted(scene.ctx, request);
        let next = scene.next();
        let one = Exchange { request, reply };
        assert(next.log.drop_last() =~= scene.log);
        assert(effects(next.log) == done);
        let outcomes = match recovery.phase {
            RecoveryPhaseView::Finishing { outcome, .. } => recovery.outcomes.push(outcome),
            _ => stored_outcomes(recovery),
        };
        lemma_stays_undone(before, scene.log, one, outcomes, done);
        let current = match recovery.phase {
            RecoveryPhaseView::Loading { row } => Some(row),
            RecoveryPhaseView::Decoding { row, .. } => Some(row),
            _ => None,
        };
        if let Some(row) = current {
            lemma_first_of(row, recovery.waiting, rows, recovery.outcomes.len() as int);
            lemma_happened(scene.log, request, reply);
            let previous = next.recovery.previous;
            let undoing = compensation::<Plan>(row.app, slug_of(row.app), previous, row.stage);
            let count = done.len() as int;
            assert(done.take(count) =~= done);
            assert(done.skip(count) =~= Seq::empty());
            assert(all_worked(undoing.take(0)) =~= Seq::empty());
            assert(undoing.len() == 0 ==> all_worked(undoing) =~= Seq::empty());
            match next.recovery.phase {
                RecoveryPhaseView::Finishing { outcome, .. } => lemma_one_more_undone(
                    before,
                    next.log,
                    recovery.outcomes,
                    outcome,
                    previous,
                    done,
                    count,
                ),
                RecoveryPhaseView::Unwinding { step, .. } => {
                    assert(undoing.len() == step.left());
                    assert(all_undone(before, next.log, next.recovery.outcomes, done.take(count)));
                },
                _ => {},
            }
        }
    }
}

/// Whether a recovery that was given up says why.
pub open spec fn given_up_for_a_reason<Plan>(scene: RecoveryScene<Plan>) -> bool {
    match scene.recovery.phase {
        RecoveryPhaseView::Ended { result: Err(error) } => explained(scene.log, error),
        _ => true,
    }
}

/// A recovery is only given up for a reason.
proof fn lemma_given_up_for_a_reason<Plan>(scene: RecoveryScene<Plan>)
    requires
        given_up_for_a_reason(scene),
    ensures
        given_up_for_a_reason(scene.next()),
{
    if !scene.stands() {
        let request = scene.recovery.request::<Plan>()->0;
        let reply = scene.ctx.reply(request)->0;
        law_reply_is_admitted(scene.ctx, request);
        lemma_happened(scene.log, request, reply);
        let log = scene.next().log;
        match (request, reply) {
            (RequestView::Store(call), ReplyView::Store(StoreReplyView::Failed(error))) => {
                assert(happened(
                    log,
                    RequestView::Store(call),
                    ReplyView::Store(StoreReplyView::Failed(error)),
                ));
            },
            (RequestView::Codec(call), ReplyView::Codec(CodecReplyView::Failed(error))) => {
                assert(happened(
                    log,
                    RequestView::Codec(call),
                    ReplyView::Codec(CodecReplyView::Failed(error)),
                ));
            },
            _ => {},
        }
    }
}

/// Whether a recovery that ended these deploys, and no more, left the ledger
/// so: the first ones that it found in progress are ended as the outcomes say,
/// one event for each tells of it, and none of them holds its lock any more.
/// The others have the row that they had, and a lock is still held unless it is
/// of an app of which a deploy was ended.
pub open spec fn stopped_after(
    before: StoreView,
    now: StoreView,
    outcomes: Seq<DeployOutcomeView>,
) -> bool {
    let rows = before.in_progress_rows();
    &&& outcomes.len() <= rows.len()
    &&& forall|i: int|
        0 <= i < outcomes.len() ==> judged(#[trigger] rows[i], outcomes[i]) && now.row(rows[i].id)
            == settled(rows[i], outcomes[i]) && !now.holds(rows[i].app, rows[i].id)
    &&& forall|i: int|
        outcomes.len() <= i < rows.len() ==> now.row((#[trigger] rows[i]).id) == rows[i]
    &&& texts(now.events.skip(before.events.len() as int)) == endings(rows, outcomes)
    &&& forall|lock: LockView| #[trigger] now.locks.contains(lock) ==> before.locks.contains(lock)
    &&& forall|lock: LockView| #[trigger]
        before.locks.contains(lock) && not_among(rows.take(outcomes.len() as int))(lock)
            ==> now.locks.contains(lock)
}

/// Whether `done` is what a recovery did to the host that ended these deploys,
/// and no more: what undoes them, and nothing else or what undoes the next one,
/// whose end could not be stored.
pub open spec fn undone_until<Plan>(
    before: StoreView,
    log: Seq<Exchange<Plan>>,
    outcomes: Seq<DeployOutcomeView>,
    done: Seq<Effect<Plan>>,
) -> bool {
    ||| all_undone(before, log, outcomes, done)
    ||| outcomes.len() < before.in_progress_rows().len() && exists|next: DeployOutcomeView|
        #[trigger] all_undone(before, log, outcomes.push(next), done)
}

/// Whether a recovery that was given up was given up in the middle of its work,
/// with everything before done and everything after as it was.
pub open spec fn stopped_in_order<Plan>(before: StoreView, scene: RecoveryScene<Plan>) -> bool {
    scene.recovery.phase is Ended && scene.recovery.phase->Ended_result is Err ==> exists|
        outcomes: Seq<DeployOutcomeView>,
    |
        {
            &&& #[trigger] stopped_after(before, scene.ctx.store, outcomes)
            &&& undone_until(before, scene.log, outcomes, effects(scene.log))
        }
}

/// Whether the host was asked for nothing but changes.
pub open spec fn only_changes<Plan>(log: Seq<Exchange<Plan>>) -> bool {
    forall|i: int|
        0 <= i < log.len() ==> ((#[trigger] log[i]).request matches RequestView::Host(call)
            ==> call.changes_host())
}

/// A recovery asks the host for nothing but changes.
proof fn lemma_only_changes<Plan>(scene: RecoveryScene<Plan>)
    requires
        only_changes(scene.log),
    ensures
        only_changes(scene.next().log),
{
}

/// Where a recovery stands before it ends, the ledger is as if it were stopped.
proof fn lemma_could_stop_here<Plan>(before: CtxView<Plan>, scene: RecoveryScene<Plan>)
    requires
        before.store.valid(),
        recovering(before.store, scene),
        locks_in_order(before.store, scene.recovery, scene.ctx.store),
        endings_told(before, scene),
        !(scene.recovery.phase is Ended),
    ensures
        stopped_after(before.store, scene.ctx.store, stored_outcomes(scene.recovery)),
{
    let recovery = scene.recovery;
    let now = scene.ctx.store;
    let rows = before.store.in_progress_rows();
    let outcomes = stored_outcomes(recovery);
    let k = recovery.outcomes.len() as int;
    let first = not_among(rows.take(k));
    let left = before.store.locks.filter(first);
    lemma_in_progress_rows(before.store);
    if recovery.phase is Listing {
        assert(texts(now.events.skip(before.store.events.len() as int)) =~= endings(
            rows,
            outcomes,
        ));
        assert(forall|lock: LockView| #[trigger] first(lock));
        lemma_filter_all_or_none(before.store.locks, first);
    }
    assert forall|lock: LockView| #[trigger] now.locks.contains(lock) implies {
        &&& before.store.locks.contains(lock)
        &&& first(lock)
    } by {
        lemma_filter_within(before.store.locks, first, lock);
        if let RecoveryPhaseView::Releasing { row, .. } = recovery.phase {
            lemma_filter_within(left, not_held(row.app, row.id), lock);
        }
    }
    assert forall|lock: LockView| #[trigger]
        before.store.locks.contains(lock) && not_among(rows.take(outcomes.len() as int))(
            lock,
        ) implies now.locks.contains(lock) by {
        assert forall|i: int| 0 <= i < k implies (#[trigger] rows.take(k)[i]).app != lock.app by {
            assert(rows.take(outcomes.len() as int)[i] == rows.take(k)[i]);
        }
        lemma_filter_within(before.store.locks, first, lock);
        if let RecoveryPhaseView::Releasing { row, .. } = recovery.phase {
            assert(rows.take(k + 1)[k] == row);
            lemma_filter_within(left, not_held(row.app, row.id), lock);
        }
    }
    assert forall|i: int| 0 <= i < outcomes.len() implies !now.holds(
        (#[trigger] rows[i]).app,
        rows[i].id,
    ) by {
        let lock = LockView { app: rows[i].app, deploy_id: rows[i].id };
        if now.locks.contains(lock) {
            if i < k {
                assert(rows.take(k)[i] == rows[i]);
            } else if let RecoveryPhaseView::Releasing { row, .. } = recovery.phase {
                lemma_filter_within(left, not_held(row.app, row.id), lock);
            }
        }
    }
}

/// A recovery is only stopped in order.
proof fn lemma_stopped_in_order<Plan>(before: CtxView<Plan>, scene: RecoveryScene<Plan>)
    requires
        before.store.valid(),
        recovering(before.store, scene),
        locks_in_order(before.store, scene.recovery, scene.ctx.store),
        endings_told(before, scene),
        host_in_order(before.store, scene),
        stopped_in_order(before.store, scene),
    ensures
        stopped_in_order(before.store, scene.next()),
{
    if !scene.stands() {
        lemma_could_stop_here(before, scene);
        let request = scene.recovery.request::<Plan>()->0;
        law_reply_is_admitted(scene.ctx, request);
        let next = scene.next();
        if next.recovery.phase is Ended && next.recovery.phase->Ended_result is Err {
            let one = Exchange { request, reply: scene.ctx.reply(request)->0 };
            let outcomes = stored_outcomes(scene.recovery);
            let done = effects(scene.log);
            assert(next.ctx.store == scene.ctx.store);
            assert(next.log.drop_last() =~= scene.log);
            assert(effects(next.log) == done);
            match scene.recovery.phase {
                RecoveryPhaseView::Finishing { row, outcome } => {
                    lemma_first_of(
                        row,
                        scene.recovery.waiting,
                        before.store.in_progress_rows(),
                        outcomes.len() as int,
                    );
                    lemma_stays_undone(
                        before.store,
                        scene.log,
                        one,
                        outcomes.push(outcome),
                        done,
                    );
                },
                _ => lemma_stays_undone(before.store, scene.log, one, outcomes, done),
            }
            assert(undone_until(before.store, next.log, outcomes, effects(next.log)));
        }
    }
}

/// A recovery after `count` requests.
pub open spec fn recovered<Plan>(ctx: CtxView<Plan>, count: nat) -> RecoveryScene<Plan> {
    RecoveryScene::start(ctx).after(count)
}

/// Everything that is kept from request to request.
pub proof fn lemma_recovery_kept<Plan>(ctx: CtxView<Plan>, count: nat)
    requires
        ctx.store.valid(),
    ensures
        ({
            let now = recovered(ctx, count);
            &&& recovering(ctx.store, now)
            &&& locks_in_order(ctx.store, now.recovery, now.ctx.store)
            &&& endings_told(ctx, now)
            &&& host_in_order(ctx.store, now)
            &&& given_up_for_a_reason(now)
            &&& stopped_in_order(ctx.store, now)
            &&& only_changes(now.log)
        }),
    decreases count,
{
    if count > 0 {
        let earlier = (count - 1) as nat;
        lemma_recovery_kept(ctx, earlier);
        let scene = recovered(ctx, earlier);
        lemma_recovering(ctx.store, scene);
        lemma_locks_in_order(ctx.store, scene);
        lemma_endings_told(ctx, scene);
        lemma_host_in_order(ctx.store, scene);
        lemma_given_up_for_a_reason(scene);
        lemma_stopped_in_order(ctx, scene);
        lemma_only_changes(scene);
    } else {
        let events = ctx.store.events;
        assert(events.skip(events.len() as int) =~= Seq::empty());
        assert(events =~= events + Seq::empty());
        assert(ctx.sink =~= ctx.sink + Seq::empty());
    }
}

/// At any point, a recovery has changed nothing in the ledger but rows that
/// were in progress, locks, and new events, all of which were published after
/// they were stored. So it can be cut short anywhere and run again.
pub proof fn law_recovery_only_recovers<Plan>(ctx: CtxView<Plan>, count: nat)
    requires
        ctx.store.valid(),
    ensures
        ({
            let now = recovered(ctx, count);
            let news = now.ctx.store.events.skip(ctx.store.events.len() as int);
            &&& only_recovered(ctx.store, now.ctx.store)
            &&& now.ctx.store.events == ctx.store.events + news
            &&& now.ctx.sink == ctx.sink + news
        }),
{
    lemma_recovery_kept(ctx, count);
}

/// A recovery that succeeds has ended every deploy that it found in progress,
/// each with one outcome, in order: rolled back because of the restart, or
/// failed because it could not be undone. The rows say so, one event for each
/// tells of it, and the host was asked for exactly what undoes the stage that
/// each was at. Nothing is in progress any more and no lock is left; a line
/// tells of each lock that belonged to no deploy in progress.
pub proof fn law_recovery_settles_everything<Plan>(
    ctx: CtxView<Plan>,
    count: nat,
    recovery: RecoveryView,
)
    requires
        ctx.store.valid(),
        recovered(ctx, count).recovery.result() == Some(Ok::<_, Seq<Seq<char>>>(recovery)),
    ensures
        ({
            let now = recovered(ctx, count);
            let store = now.ctx.store;
            let rows = ctx.store.in_progress_rows();
            &&& recovery.outcomes.len() == rows.len()
            &&& forall|i: int|
                0 <= i < rows.len() ==> judged(#[trigger] rows[i], recovery.outcomes[i])
                    && store.row(rows[i].id) == settled(rows[i], recovery.outcomes[i])
            &&& store.in_progress_rows().len() == 0
            &&& store.locks == Seq::<LockView>::empty()
            &&& only_recovered(ctx.store, store)
            &&& texts(store.events.skip(ctx.store.events.len() as int)) == endings(
                rows,
                recovery.outcomes,
            )
            &&& all_undone(ctx.store, now.log, recovery.outcomes, effects(now.log))
            &&& only_changes(now.log)
            &&& recovery.notices == ctx.store.locks.filter(not_among(rows)).map_values(
                |lock: LockView| freed(lock.app),
            )
        }),
{
    lemma_recovery_kept(ctx, count);
    let now = recovered(ctx, count);
    let rows = ctx.store.in_progress_rows();
    assert(rows.skip(recovery.outcomes.len() as int).len() == rows.len() - recovery.outcomes.len());
    lemma_none_in_progress(ctx.store, now.recovery, now.ctx.store);
    lemma_in_progress_rows(now.ctx.store);
    let left = now.ctx.store.in_progress_rows();
    if left.len() > 0 {
        assert(now.ctx.store.in_progress(left[0].id));
    }
}

/// A recovery that is given up says why: the store failed, or the spec that ran
/// before could not be read. The deploys up to where it stopped are settled,
/// each with an outcome in its row and its lock given back; the later ones keep
/// their row, and their lock unless an earlier deploy of the same app was
/// settled. The host was asked for what undoes the deploys that are settled, one
/// after the other, and for nothing else; only where the end of the next one
/// could not be stored, also for what undoes that one. Another recovery goes on
/// from there.
pub proof fn law_recovery_is_given_up_in_order<Plan>(
    ctx: CtxView<Plan>,
    count: nat,
    error: Seq<Seq<char>>,
)
    requires
        ctx.store.valid(),
        recovered(ctx, count).recovery.result() == Some(Err::<RecoveryView, _>(error)),
    ensures
        explained(recovered(ctx, count).log, error),
        only_recovered(ctx.store, recovered(ctx, count).ctx.store),
        exists|outcomes: Seq<DeployOutcomeView>|
            {
                &&& #[trigger] stopped_after(ctx.store, recovered(ctx, count).ctx.store, outcomes)
                &&& undone_until(
                    ctx.store,
                    recovered(ctx, count).log,
                    outcomes,
                    effects(recovered(ctx, count).log),
                )
            },
        only_changes(recovered(ctx, count).log),
{
    lemma_recovery_kept(ctx, count);
}

/// Where no deploy is in progress, there is nothing to recover: no outcome, no
/// event, no request to the host. Only locks that are left over are freed.
pub proof fn law_nothing_to_recover<Plan>(ctx: CtxView<Plan>)
    requires
        ctx.store.in_progress_rows().len() == 0,
        ctx.fault(0) is None,
        ctx.fault(1) is None,
    ensures
        ({
            let end = RecoveryScene::start(ctx).end();
            &&& end.recovery.result() == Some(
                Ok::<_, Seq<Seq<char>>>(
                    RecoveryView {
                        outcomes: Seq::empty(),
                        notices: ctx.store.orphans().map_values(|app: Seq<char>| freed(app)),
                    },
                ),
            )
            &&& end.ctx.store == StoreView {
                locks: ctx.store.locks.filter(ctx.store.alive()),
                ..ctx.store
            }
            &&& end.ctx.sink == ctx.sink
            &&& only_store(end.log)
        }),
{
    let start = RecoveryScene::start(ctx);
    reveal_with_fuel(RecoveryScene::after, 3);
    lemma_spent(ctx, 1, 0);
    let listed = start.next();
    assert(listed.recovery.phase is Sweeping);
    assert(start.end() == listed.next());
    assert(only_store(listed.next().log));
}

/// Recovering twice is recovering once: after a recovery that succeeded, another
/// finds nothing to recover and changes nothing.
pub proof fn law_recovering_again_does_nothing<Plan>(
    ctx: CtxView<Plan>,
    count: nat,
    recovery: RecoveryView,
    again: CtxView<Plan>,
)
    requires
        ctx.store.valid(),
        recovered(ctx, count).recovery.result() == Some(Ok::<_, Seq<Seq<char>>>(recovery)),
        again.store == recovered(ctx, count).ctx.store,
        again.fault(0) is None,
        again.fault(1) is None,
    ensures
        ({
            let end = RecoveryScene::start(again).end();
            &&& end.recovery.result() == Some(
                Ok::<_, Seq<Seq<char>>>(
                    RecoveryView { outcomes: Seq::empty(), notices: Seq::empty() },
                ),
            )
            &&& end.ctx.store == again.store
            &&& end.ctx.sink == again.sink
        }),
{
    law_recovery_settles_everything(ctx, count, recovery);
    law_nothing_to_recover(again);
    let orphaned = |lock: LockView| !again.store.in_progress(lock.deploy_id);
    lemma_filter_all_or_none(again.store.locks, orphaned);
    lemma_filter_all_or_none(again.store.locks, again.store.alive());
    assert(again.store.orphans().map_values(|app: Seq<char>| freed(app)) =~= Seq::empty());
}

/// A deploy that is cut short anywhere is settled by the next recovery that
/// succeeds: its row has ended and the lock of its app is free. Where its end
/// was stored already, the row stays as it was; otherwise it is rolled back from
/// the stage that it was at, or failed because that could not be undone.
pub proof fn law_recovery_after_a_crash<Plan>(
    ctx: CtxView<Plan>,
    spec: WorkloadSpecView,
    repo: Seq<u8>,
    deploy_id: i64,
    cut: nat,
    restart: CtxView<Plan>,
    count: nat,
    recovery: RecoveryView,
)
    requires
        ready(ctx.store, spec.name, deploy_id),
        restart.store == deployed(ctx, spec, repo, deploy_id, cut).ctx.store,
        recovered(restart, count).recovery.result() == Some(Ok::<_, Seq<Seq<char>>>(recovery)),
    ensures
        ({
            let cut_short = restart.store.row(deploy_id);
            let store = recovered(restart, count).ctx.store;
            &&& !store.locked(spec.name)
            &&& !store.in_progress(deploy_id)
            &&& if cut_short.status == DeployStatus::InProgress {
                exists|outcome: DeployOutcomeView|
                    judged(cut_short, outcome) && store.row(deploy_id) == #[trigger] settled(
                        cut_short,
                        outcome,
                    )
            } else {
                store.row(deploy_id) == cut_short
            }
        }),
{
    law_ledger_says_where_a_deploy_is(ctx, spec, repo, deploy_id, cut);
    law_recovery_settles_everything(restart, count, recovery);
    lemma_in_progress_rows(restart.store);
    let store = recovered(restart, count).ctx.store;
    let rows = restart.store.in_progress_rows();
    let cut_short = restart.store.row(deploy_id);
    assert(restart.store.rows[deploy_id - 1].id == deploy_id);
    lemma_in_progress_rows(store);
    if restart.store.in_progress(deploy_id) {
        let i = choose|i: int| 0 <= i < rows.len() && rows[i] == cut_short;
        assert(store.row(deploy_id) == settled(cut_short, recovery.outcomes[i]));
    } else {
        assert(store.rows[deploy_id - 1] == restart.store.rows[deploy_id - 1]);
    }
    if store.in_progress(deploy_id) {
        assert(store.in_progress_rows().contains(store.row(deploy_id)));
    }
}

} // verus!
