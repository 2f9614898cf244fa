//! What holds of every deploy that was reserved: after any number of requests,
//! wherever it fails, and wherever it is cut short.

use crate::ctx::{law_reply_is_admitted, lemma_spent, CtxView};
use crate::deployment::{DeploymentView, PhaseView, RunErrorView};
use crate::laws::evidence::{
    accounted_for, asks, blamed, built, built_by, explained, handed_on, happened, justified,
    lemma_accounted_for, lemma_handed_on, lemma_happened, lemma_remembered, lemma_specs_kept,
    loaded, remembered, spec_stored, specs_kept,
};
use crate::laws::host::{
    all_asked, all_worked, asked_for, asked_in_order, asked_to_undo, changes, changes_until,
    effects, host_done, host_touched, lemma_asked_in_order, lemma_host_touched, lemma_no_image_yet,
    Effect,
};
use crate::laws::ledger::{
    agrees, coherent, isolated, lemma_agrees, lemma_coherent, lemma_isolated, lemma_lock_dropped,
    ready, same,
};
use crate::laws::story::{
    all_told, broken, lemma_row_and_events_agree, lemma_told, passed, row_and_events_agree, texts,
    told,
};
use crate::model::{
    finished_event, DeployOutcomeView, DeployStatus, EventView, Stage, StoredEventView,
};
use crate::protocol::{HostCallView, ReplyView, RequestView, StoreCallView, StoreReplyView};
use crate::run::{law_deploy_stands_at_its_end, DeployScene, Exchange};
use crate::spec::{slug_of, WorkloadSpecView};
use crate::store::{about, lemma_filter_all_or_none};
use crate::unwind::compensation;
use vstd::prelude::*;

verus! {

/// Whether a reply says that something failed.
pub open spec fn bad<Plan>(reply: ReplyView<Plan>) -> bool {
    match reply {
        ReplyView::Store(reply) => reply is Failed,
        ReplyView::Codec(reply) => reply is Failed,
        ReplyView::Host(reply) => reply is Failed || reply is TimedOut,
    }
}

/// Whether a reply says that the store failed.
pub open spec fn store_failed<Plan>(reply: ReplyView<Plan>) -> bool {
    reply is Store && reply->Store_0 is Failed
}

/// Whether nothing that was asked for failed.
pub open spec fn smooth<Plan>(log: Seq<Exchange<Plan>>) -> bool {
    forall|i: int| 0 <= i < log.len() ==> !bad((#[trigger] log[i]).reply)
}

/// Whether a deploy is on its way to being done, or is done.
pub open spec fn going_well<Plan>(phase: PhaseView<Plan>) -> bool {
    match phase {
        PhaseView::Failing { .. } => false,
        PhaseView::Unwinding { .. } => false,
        PhaseView::Finishing { outcome } => outcome is Done,
        PhaseView::Releasing { so_far } => so_far matches Ok(outcome) && outcome is Done,
        PhaseView::Ended { result } => result matches Ok(outcome) && outcome is Done,
        _ => true,
    }
}

/// A deploy that began well goes well exactly as long as nothing fails.
pub proof fn lemma_smooth<Plan>(scene: DeployScene<Plan>, began_well: bool)
    requires
        coherent(scene.deploy),
        going_well(scene.deploy.phase) == (began_well && smooth(scene.log)),
    ensures
        going_well(scene.next().deploy.phase) == (began_well && smooth(scene.next().log)),
{
    if !scene.stands() {
        let request = scene.deploy.request()->0;
        let reply = scene.ctx.reply(request)->0;
        law_reply_is_admitted(scene.ctx, request);
        let next = scene.next();
        assert(next.log.last() == next.log[scene.log.len() as int]);
        if smooth(next.log) {
            assert forall|i: int| 0 <= i < scene.log.len() implies !bad(
                (#[trigger] scene.log[i]).reply,
            ) by {
                assert(next.log[i] == scene.log[i]);
            }
        }
        assert(smooth(next.log) == (smooth(scene.log) && !bad(reply)));
    }
}

/// How many events are told when stages pass.
pub proof fn lemma_passed_len(deploy_id: i64, count: int)
    requires
        0 <= count,
    ensures
        passed(deploy_id, count).len() == 2 * count,
    decreases count,
{
    if count > 0 {
        lemma_passed_len(deploy_id, count - 1);
    }
}

/// Whether the store cannot fail a deploy that starts here: it does not fail by
/// itself, and it has room for every event that a deploy can have.
pub open spec fn roomy<Plan>(ctx: CtxView<Plan>) -> bool {
    ctx.faultless() && ctx.store.events.len() + 13 <= i64::MAX
}

/// A store that does not fail goes on not failing.
pub proof fn lemma_faultless<Plan>(scene: DeployScene<Plan>)
    requires
        scene.ctx.faultless(),
    ensures
        scene.next().ctx.faultless(),
        scene.ctx.fault(0) is None,
{
    assert(scene.ctx.fault(0) is None);
    if !scene.stands() {
        let request = scene.deploy.request()->0;
        assert forall|i: int| scene.next().ctx.fault(i) is None by {
            if request is Store && 0 <= i {
                lemma_spent(scene.ctx, 1, i);
                assert(scene.ctx.fault(1 + i) is None);
            }
            assert(scene.ctx.fault(i) is None);
        }
    }
}

/// A store that cannot fail a deploy does not.
pub proof fn lemma_no_store_failure<Plan>(before: CtxView<Plan>, scene: DeployScene<Plan>)
    requires
        roomy(before),
        coherent(scene.deploy),
        agrees(scene.ctx.store, scene.deploy),
        told(before, scene),
        scene.ctx.faultless(),
    ensures
        !scene.stands() ==> !store_failed(scene.ctx.reply(scene.deploy.request()->0)->0),
{
    if !scene.stands() {
        lemma_faultless(scene);
        let id = scene.deploy.deploy_id;
        let news = texts(scene.ctx.store.events.skip(before.store.events.len() as int));
        assert(news.len() == scene.ctx.store.events.len() - before.store.events.len());
        assert forall|count: int| 0 <= count <= 6 implies #[trigger] passed(id, count).len() == 2
            * count by {
            lemma_passed_len(id, count);
        }
    }
}

/// Whether the store failed to give the lock of an app back.
pub open spec fn release_failed<Plan>(log: Seq<Exchange<Plan>>, name: Seq<char>) -> bool {
    exists|error: Seq<Seq<char>>| #[trigger]
        happened(
            log,
            RequestView::Store(StoreCallView::ReleaseLock { name }),
            ReplyView::Store(StoreReplyView::Failed(error)),
        )
}

/// Whether the lock is free once the deploy has ended, unless the store failed
/// to give it back.
pub open spec fn given_back<Plan>(scene: DeployScene<Plan>) -> bool {
    let name = scene.deploy.spec.name;
    scene.deploy.phase is Ended ==> !scene.ctx.store.locked(name) || release_failed(scene.log, name)
}

/// The lock is given back.
pub proof fn lemma_given_back<Plan>(scene: DeployScene<Plan>)
    requires
        coherent(scene.deploy),
        agrees(scene.ctx.store, scene.deploy),
        given_back(scene),
    ensures
        given_back(scene.next()),
{
    if !scene.stands() && scene.deploy.phase is Releasing {
        let request = scene.deploy.request()->0;
        let reply = scene.ctx.reply(request)->0;
        lemma_happened(scene.log, request, reply);
        let name = scene.deploy.spec.name;
        let now = scene.ctx.store;
        match scene.ctx.fault(0) {
            Some(error) => {
                assert(happened(
                    scene.next().log,
                    RequestView::Store(StoreCallView::ReleaseLock { name }),
                    ReplyView::Store(StoreReplyView::Failed(error)),
                ));
            },
            None => {
                let then = now.answer(StoreCallView::ReleaseLock { name }).0;
                lemma_lock_dropped(now, then, name, scene.deploy.deploy_id);
            },
        }
    }
}

/// Whether a deploy is given up as refused only where the spec cannot be
/// deployed, for that reason.
pub open spec fn refused_rightly<Plan>(spec: WorkloadSpecView, phase: PhaseView<Plan>) -> bool {
    match phase {
        PhaseView::Releasing { so_far: Err(RunErrorView::Invalid(error)) } => spec.verdict() == Err::<
            (),
            _,
        >(error),
        PhaseView::Ended { result: Err(RunErrorView::Invalid(error)) } => spec.verdict() == Err::<
            (),
            _,
        >(error),
        _ => true,
    }
}

/// A deploy is refused only where the spec cannot be deployed.
pub proof fn lemma_refused_rightly<Plan>(spec: WorkloadSpecView, scene: DeployScene<Plan>)
    requires
        coherent(scene.deploy),
        refused_rightly(spec, scene.deploy.phase),
    ensures
        refused_rightly(spec, scene.next().deploy.phase),
{
    if !scene.stands() {
        law_reply_is_admitted(scene.ctx, scene.deploy.request()->0);
    }
}

/// A deploy that was reserved, after `count` requests.
pub open spec fn deployed<Plan>(
    ctx: CtxView<Plan>,
    spec: WorkloadSpecView,
    repo: Seq<u8>,
    deploy_id: i64,
    count: nat,
) -> DeployScene<Plan> {
    DeployScene::start(DeploymentView::reserved(spec, repo, deploy_id), ctx).after(count)
}

/// The events that were stored since `before`, without their ids.
pub open spec fn timeline<Plan>(before: CtxView<Plan>, now: DeployScene<Plan>) -> Seq<EventView> {
    texts(now.ctx.store.events.skip(before.store.events.len() as int))
}

/// Everything that is kept from request to request.
pub proof fn lemma_kept<Plan>(
    ctx: CtxView<Plan>,
    spec: WorkloadSpecView,
    repo: Seq<u8>,
    deploy_id: i64,
    count: nat,
)
    requires
        ready(ctx.store, spec.name, deploy_id),
    ensures
        ({
            let now = deployed(ctx, spec, repo, deploy_id, count);
            &&& same(DeploymentView::reserved(spec, repo, deploy_id), now.deploy)
            &&& coherent(now.deploy)
            &&& isolated(ctx.store, now.ctx.store, spec.name, deploy_id)
            &&& agrees(now.ctx.store, now.deploy)
            &&& told(ctx, now)
            &&& host_touched(now.deploy, effects(now.log))
            &&& asked_in_order(now)
            &&& handed_on(now)
            &&& specs_kept(ctx.store, now)
            &&& remembered(ctx.store, now)
            &&& accounted_for(now)
            &&& going_well(now.deploy.phase) == (spec.verdict() is Ok && smooth(now.log))
            &&& given_back(now)
            &&& refused_rightly(spec, now.deploy.phase)
            &&& ctx.store.row(deploy_id).status == DeployStatus::InProgress
            &&& row_and_events_agree(
                now.ctx.store.row(deploy_id),
                deploy_id,
                timeline(ctx, now),
            )
        }),
    decreases count,
{
    let now = deployed(ctx, spec, repo, deploy_id, count);
    if count > 0 {
        lemma_kept(ctx, spec, repo, deploy_id, (count - 1) as nat);
        let scene = deployed(ctx, spec, repo, deploy_id, (count - 1) as nat);
        lemma_coherent(scene);
        lemma_isolated(scene, ctx.store);
        lemma_agrees(scene);
        lemma_told(ctx, scene);
        lemma_host_touched(scene);
        lemma_asked_in_order(scene);
        lemma_handed_on(scene);
        lemma_specs_kept(ctx.store, scene);
        lemma_remembered(ctx.store, scene);
        lemma_accounted_for(scene);
        lemma_smooth(scene, spec.verdict() is Ok);
        lemma_given_back(scene);
        lemma_refused_rightly(spec, scene);
        lemma_row_and_events_agree(ctx, scene);
    } else {
        let events = ctx.store.events;
        assert(events.skip(events.len() as int) =~= Seq::empty());
        assert(texts(Seq::empty()) =~= Seq::empty());
        assert(events =~= events + Seq::empty());
        assert(ctx.sink =~= ctx.sink + Seq::empty());
    }
}

/// Everything that is kept where the store does not fail by itself.
pub proof fn lemma_kept_without_faults<Plan>(
    ctx: CtxView<Plan>,
    spec: WorkloadSpecView,
    repo: Seq<u8>,
    deploy_id: i64,
    count: nat,
)
    requires
        ready(ctx.store, spec.name, deploy_id),
        ctx.faultless(),
    ensures
        ({
            let now = deployed(ctx, spec, repo, deploy_id, count);
            &&& now.ctx.faultless()
            &&& roomy(ctx) ==> forall|i: int|
                0 <= i < now.log.len() ==> !store_failed((#[trigger] now.log[i]).reply)
        }),
    decreases count,
{
    if count > 0 {
        let earlier = (count - 1) as nat;
        lemma_kept_without_faults(ctx, spec, repo, deploy_id, earlier);
        lemma_kept(ctx, spec, repo, deploy_id, earlier);
        let scene = deployed(ctx, spec, repo, deploy_id, earlier);
        lemma_faultless(scene);
        if roomy(ctx) {
            lemma_no_store_failure(ctx, scene);
            let now = scene.next();
            assert forall|i: int| 0 <= i < now.log.len() implies !store_failed(
                (#[trigger] now.log[i]).reply,
            ) by {
                if i < scene.log.len() {
                    assert(now.log[i] == scene.log[i]);
                }
            }
        }
    }
}

/// Wherever a deploy is, the ledger says so: until its end is stored its row is
/// in progress, at the stage that runs, and it holds the lock of its app; from
/// then on its row carries the outcome and the lock is free. So a crash at any
/// point leaves either a row in progress with its lock, or a row that has ended
/// with no lock. A deploy that was given up gives the lock back and leaves its
/// row in progress, for a recovery to settle, unless its end was stored before.
pub proof fn law_ledger_says_where_a_deploy_is<Plan>(
    ctx: CtxView<Plan>,
    spec: WorkloadSpecView,
    repo: Seq<u8>,
    deploy_id: i64,
    count: nat,
)
    requires
        ready(ctx.store, spec.name, deploy_id),
    ensures
        ({
            let now = deployed(ctx, spec, repo, deploy_id, count);
            let store = now.ctx.store;
            &&& same(DeploymentView::reserved(spec, repo, deploy_id), now.deploy)
            &&& agrees(store, now.deploy)
            &&& now.deploy.result() is None ==> ready(store, spec.name, deploy_id) || {
                &&& store.row(deploy_id).status != DeployStatus::InProgress
                &&& !store.locked(spec.name)
            }
        }),
{
    lemma_kept(ctx, spec, repo, deploy_id, count);
}

/// The row of a deploy and its events never disagree: at any point, either the
/// row is in progress and no event says that the deploy has ended, or the last
/// event says so with the status and the detail of the row, and the lock of the
/// app is free.
pub proof fn law_row_and_last_event_agree<Plan>(
    ctx: CtxView<Plan>,
    spec: WorkloadSpecView,
    repo: Seq<u8>,
    deploy_id: i64,
    count: nat,
)
    requires
        ready(ctx.store, spec.name, deploy_id),
    ensures
        ({
            let now = deployed(ctx, spec, repo, deploy_id, count);
            let row = now.ctx.store.row(deploy_id);
            &&& row_and_events_agree(row, deploy_id, timeline(ctx, now))
            &&& row.status != DeployStatus::InProgress ==> !now.ctx.store.locked(spec.name)
        }),
{
    lemma_kept(ctx, spec, repo, deploy_id, count);
}

/// What a stage asks of the host, or what undoes it, is only asked while the
/// row of the deploy is in progress at that stage: a recovery knows what there
/// may be to undo.
pub proof fn law_stage_is_stored_before_the_host_is_asked<Plan>(
    ctx: CtxView<Plan>,
    spec: WorkloadSpecView,
    repo: Seq<u8>,
    deploy_id: i64,
    count: nat,
    call: HostCallView<Plan>,
)
    requires
        ready(ctx.store, spec.name, deploy_id),
        deployed(ctx, spec, repo, deploy_id, count).deploy.request() == Some(
            RequestView::Host(call),
        ),
    ensures
        ({
            let now = deployed(ctx, spec, repo, deploy_id, count);
            let stage = now.ctx.store.row(deploy_id).stage;
            &&& now.ctx.store.in_progress(deploy_id)
            &&& asks(now.deploy, stage, call) || compensation::<Plan>(
                spec.name,
                now.deploy.slug,
                now.deploy.previous,
                stage,
            ).contains(call)
        }),
{
    lemma_kept(ctx, spec, repo, deploy_id, count);
    let now = deployed(ctx, spec, repo, deploy_id, count);
    if let PhaseView::Unwinding { stage, step, .. } = now.deploy.phase {
        let undoing = compensation::<Plan>(spec.name, now.deploy.slug, now.deploy.previous, stage);
        assert(undoing[undoing.len() - step.left()] == call);
    }
}

/// A deploy changes nothing in the ledger that belongs to others: no other row,
/// no lock and no spec of another app, and no event that was there.
pub proof fn law_deploys_are_isolated<Plan>(
    ctx: CtxView<Plan>,
    spec: WorkloadSpecView,
    repo: Seq<u8>,
    deploy_id: i64,
    count: nat,
)
    requires
        ready(ctx.store, spec.name, deploy_id),
    ensures
        isolated(
            ctx.store,
            deployed(ctx, spec, repo, deploy_id, count).ctx.store,
            spec.name,
            deploy_id,
        ),
{
    lemma_kept(ctx, spec, repo, deploy_id, count);
}

/// Every event is durable before it is published: at any point what was
/// published is what was stored, in the same order and under the same ids, and
/// the ids are positive and ascend.
pub proof fn law_stored_before_published<Plan>(
    ctx: CtxView<Plan>,
    spec: WorkloadSpecView,
    repo: Seq<u8>,
    deploy_id: i64,
    count: nat,
)
    requires
        ready(ctx.store, spec.name, deploy_id),
    ensures
        ({
            let now = deployed(ctx, spec, repo, deploy_id, count);
            let news = now.ctx.store.events.skip(ctx.store.events.len() as int);
            &&& now.ctx.store.events == ctx.store.events + news
            &&& now.ctx.sink == ctx.sink + news
            &&& forall|i: int| 0 <= i < news.len() ==> 0 < (#[trigger] news[i]).id
            &&& forall|i: int, j: int|
                0 <= i < j < news.len() ==> (#[trigger] news[i]).id < (#[trigger] news[j]).id
        }),
{
    lemma_kept(ctx, spec, repo, deploy_id, count);
    let now = deployed(ctx, spec, repo, deploy_id, count);
    let earlier = ctx.store.events.len() as int;
    let news = now.ctx.store.events.skip(earlier);
    assert forall|i: int| 0 <= i < news.len() implies (#[trigger] news[i]).id == earlier + i + 1 by {
        assert(news[i] == now.ctx.store.events[earlier + i]);
    }
}

/// What the ledger holds of a deploy is what was published of it: where no event
/// of the deploy was there before, the events of the deploy are at any point
/// exactly those that were published since, under the same ids.
pub proof fn law_events_of_a_deploy_are_published<Plan>(
    ctx: CtxView<Plan>,
    spec: WorkloadSpecView,
    repo: Seq<u8>,
    deploy_id: i64,
    count: nat,
)
    requires
        ready(ctx.store, spec.name, deploy_id),
        forall|i: int|
            0 <= i < ctx.store.events.len() ==> (#[trigger] ctx.store.events[i]).event.deploy_id
                != deploy_id,
    ensures
        ({
            let now = deployed(ctx, spec, repo, deploy_id, count);
            now.ctx.sink == ctx.sink + now.ctx.store.events.filter(about(deploy_id))
        }),
{
    lemma_kept(ctx, spec, repo, deploy_id, count);
    let now = deployed(ctx, spec, repo, deploy_id, count);
    let earlier = ctx.store.events;
    let news = now.ctx.store.events.skip(earlier.len() as int);
    Seq::filter_distributes_over_add(earlier, news, about(deploy_id));
    lemma_filter_all_or_none(earlier, about(deploy_id));
    lemma_filter_all_or_none(news, about(deploy_id));
    assert(Seq::<StoredEventView>::empty() + news =~= news);
}

/// A deploy always comes to an end, unless the host or the codec owes it a reply
/// that never comes.
pub proof fn law_deploy_ends_unless_a_reply_is_missing<Plan>(
    ctx: CtxView<Plan>,
    spec: WorkloadSpecView,
    repo: Seq<u8>,
    deploy_id: i64,
)
    requires
        ready(ctx.store, spec.name, deploy_id),
    ensures
        ({
            let end = DeployScene::start(
                DeploymentView::reserved(spec, repo, deploy_id),
                ctx,
            ).end();
            end.deploy.result() is Some || {
                &&& end.deploy.request() is Some
                &&& !(end.deploy.request()->0 is Store)
                &&& end.ctx.reply(end.deploy.request()->0) is None
            }
        }),
{
    let start = DeployScene::start(DeploymentView::reserved(spec, repo, deploy_id), ctx);
    law_deploy_stands_at_its_end(start);
    lemma_kept(ctx, spec, repo, deploy_id, start.deploy.phase.left() as nat);
}

/// A deploy that is done has asked the host for the work of every stage, once
/// and in order, and has told of every stage in order, that it started and that
/// it succeeded, and of its end last. Its row says so, its lock is free,
/// the host was changed exactly as the spec asks (Caddy is left alone where it
/// asks for no route), and the spec with the image
/// that was built is stored as the one that runs.
pub proof fn law_done<Plan>(
    ctx: CtxView<Plan>,
    spec: WorkloadSpecView,
    repo: Seq<u8>,
    deploy_id: i64,
    count: nat,
    image: Seq<char>,
)
    requires
        ready(ctx.store, spec.name, deploy_id),
        deployed(ctx, spec, repo, deploy_id, count).deploy.result() == Some(
            Ok::<_, RunErrorView>(DeployOutcomeView::Done { image }),
        ),
    ensures
        ({
            let now = deployed(ctx, spec, repo, deploy_id, count);
            let row = now.ctx.store.row(deploy_id);
            &&& timeline(ctx, now) == passed(deploy_id, 6).push(
                finished_event(deploy_id, DeployStatus::Done, None),
            )
            &&& row.status == DeployStatus::Done
            &&& row.detail is None
            &&& row.stage == Stage::Healthcheck
            &&& !now.ctx.store.locked(spec.name)
            &&& now.deploy.spec == WorkloadSpecView { image, ..spec }
            &&& built(now.deploy, now.log)
            &&& spec_stored(ctx.store, now)
            &&& asked_for(now.deploy, now.log, 6)
            &&& effects(now.log) == all_worked(
                match spec.route {
                    None => seq![HostCallView::<Plan>::Apply { spec: now.deploy.spec }],
                    Some(route) => seq![
                        HostCallView::<Plan>::Apply { spec: now.deploy.spec },
                        HostCallView::ApplyRoute { slug: slug_of(spec.name), route },
                    ],
                },
            )
            &&& smooth(now.log)
        }),
{
    lemma_kept(ctx, spec, repo, deploy_id, count);
    let now = deployed(ctx, spec, repo, deploy_id, count);
    let told = timeline(ctx, now);
    assert(told =~= told.drop_last().push(told.last()));
    reveal_with_fuel(changes, 7);
    assert(effects(now.log) =~= all_worked(
        match spec.route {
            None => seq![HostCallView::<Plan>::Apply { spec: now.deploy.spec }],
            Some(route) => seq![
                HostCallView::<Plan>::Apply { spec: now.deploy.spec },
                HostCallView::ApplyRoute { slug: slug_of(spec.name), route },
            ],
        },
    ));
}

/// A deploy that was rolled back has told of every stage up to the one that
/// failed, that this one failed and why, and of its end last, with the same
/// cause. Its row says so, its lock is free, and the spec that ran before is
/// still the one that is stored. The host was asked for the work of the stages
/// in order, up to the one that failed, then for everything that undoes it, in
/// order, which was done, and for nothing else; a stage before Apply left the
/// host alone.
pub proof fn law_rolled_back<Plan>(
    ctx: CtxView<Plan>,
    spec: WorkloadSpecView,
    repo: Seq<u8>,
    deploy_id: i64,
    count: nat,
    failed_at: Stage,
    cause: Seq<char>,
)
    requires
        ready(ctx.store, spec.name, deploy_id),
        deployed(ctx, spec, repo, deploy_id, count).deploy.result() == Some(
            Ok::<_, RunErrorView>(DeployOutcomeView::RolledBack { failed_at, cause }),
        ),
    ensures
        ({
            let now = deployed(ctx, spec, repo, deploy_id, count);
            let row = now.ctx.store.row(deploy_id);
            &&& timeline(ctx, now) == broken(deploy_id, failed_at, cause).push(
                finished_event(deploy_id, DeployStatus::RolledBack, Some(cause)),
            )
            &&& row.status == DeployStatus::RolledBack
            &&& row.detail == Some(cause)
            &&& row.stage == failed_at
            &&& !now.ctx.store.locked(spec.name)
            &&& now.ctx.store.specs == ctx.store.specs
            &&& blamed(now.deploy, now.log, failed_at, cause)
            &&& loaded(ctx.store, now)
            &&& built_by(now.deploy, now.log, failed_at)
            &&& asked_to_undo(
                now.deploy,
                now.log,
                failed_at,
                compensation(spec.name, now.deploy.slug, now.deploy.previous, failed_at),
            )
            &&& effects(now.log) == changes_until::<Plan>(
                now.deploy.spec,
                now.deploy.slug,
                failed_at,
            ) + all_worked(
                compensation(spec.name, now.deploy.slug, now.deploy.previous, failed_at),
            )
            &&& failed_at.position() < Stage::Apply.position() ==> effects(now.log) == Seq::<
                Effect<Plan>,
            >::empty()
        }),
{
    lemma_kept(ctx, spec, repo, deploy_id, count);
    let now = deployed(ctx, spec, repo, deploy_id, count);
    let told = timeline(ctx, now);
    assert(told =~= told.drop_last().push(told.last()));
    if failed_at.position() < Stage::Apply.position() {
        lemma_no_image_yet::<Plan>(now.deploy.spec, now.deploy.slug, failed_at.position());
        assert(effects(now.log) =~= Seq::empty());
    }
}

/// A deploy that failed has told of every stage up to the one that failed, that
/// this one failed and why, and of its end last, with that cause and why
/// undoing it failed. Its row says so, its lock is free, and the spec that ran
/// before is still the one that is stored. The host was asked for the work of
/// the stages in order, up to the one that failed, then for what undoes it, in
/// order, up to what failed, and for nothing else. A stage before Apply has
/// nothing to undo, so no deploy fails there.
pub proof fn law_failed<Plan>(
    ctx: CtxView<Plan>,
    spec: WorkloadSpecView,
    repo: Seq<u8>,
    deploy_id: i64,
    count: nat,
    failed_at: Stage,
    cause: Seq<char>,
)
    requires
        ready(ctx.store, spec.name, deploy_id),
        deployed(ctx, spec, repo, deploy_id, count).deploy.result() == Some(
            Ok::<_, RunErrorView>(DeployOutcomeView::Failed { failed_at, cause }),
        ),
    ensures
        ({
            let now = deployed(ctx, spec, repo, deploy_id, count);
            let outcome = DeployOutcomeView::Failed { failed_at, cause };
            let row = now.ctx.store.row(deploy_id);
            &&& Stage::Apply.position() <= failed_at.position()
            &&& all_told(deploy_id, outcome, timeline(ctx, now))
            &&& row.status == DeployStatus::Failed
            &&& row.detail == Some(cause)
            &&& row.stage == failed_at
            &&& !now.ctx.store.locked(spec.name)
            &&& now.ctx.store.specs == ctx.store.specs
            &&& justified(now.deploy, now.log, outcome)
            &&& loaded(ctx.store, now)
            &&& built_by(now.deploy, now.log, failed_at)
            &&& all_asked(now.deploy, now.log, outcome)
            &&& host_done(now.deploy, outcome, effects(now.log))
        }),
{
    lemma_kept(ctx, spec, repo, deploy_id, count);
}

/// A deploy that ends without an outcome ends because its spec cannot be
/// deployed, or because the store or the codec failed, and says so. It is never
/// taken for a conflict with another deploy.
pub proof fn law_given_up<Plan>(
    ctx: CtxView<Plan>,
    spec: WorkloadSpecView,
    repo: Seq<u8>,
    deploy_id: i64,
    count: nat,
    error: RunErrorView,
)
    requires
        ready(ctx.store, spec.name, deploy_id),
        deployed(ctx, spec, repo, deploy_id, count).deploy.result() == Some(
            Err::<DeployOutcomeView, _>(error),
        ),
    ensures
        match error {
            RunErrorView::Invalid(refused) => spec.verdict() == Err::<(), _>(refused),
            RunErrorView::Internal(failure) => explained(
                deployed(ctx, spec, repo, deploy_id, count).log,
                failure,
            ),
            RunErrorView::Reserve(_) => false,
        },
{
    lemma_kept(ctx, spec, repo, deploy_id, count);
}

/// However a deploy ends, the lock of its app is free then: also where its spec
/// was refused, where the spec that ran before could not be read, and where the
/// store failed. Only where giving back the lock itself failed it may be held.
pub proof fn law_lock_is_given_back<Plan>(
    ctx: CtxView<Plan>,
    spec: WorkloadSpecView,
    repo: Seq<u8>,
    deploy_id: i64,
    count: nat,
)
    requires
        ready(ctx.store, spec.name, deploy_id),
        deployed(ctx, spec, repo, deploy_id, count).deploy.result() is Some,
        !release_failed(deployed(ctx, spec, repo, deploy_id, count).log, spec.name),
    ensures
        !deployed(ctx, spec, repo, deploy_id, count).ctx.store.locked(spec.name),
{
    lemma_kept(ctx, spec, repo, deploy_id, count);
}

/// Where the store does not fail, a deploy that has ended is done exactly if its
/// spec can be deployed and nothing that was asked of the host or the codec
/// failed; and it ends with an outcome unless the spec was refused or the codec
/// failed.
pub proof fn law_done_unless_something_failed<Plan>(
    ctx: CtxView<Plan>,
    spec: WorkloadSpecView,
    repo: Seq<u8>,
    deploy_id: i64,
    count: nat,
)
    requires
        ready(ctx.store, spec.name, deploy_id),
        roomy(ctx),
        deployed(ctx, spec, repo, deploy_id, count).deploy.result() is Some,
    ensures
        ({
            let now = deployed(ctx, spec, repo, deploy_id, count);
            let result = now.deploy.result()->0;
            &&& (result is Ok && result->Ok_0 is Done) == (spec.verdict() is Ok && smooth(now.log))
            &&& result is Err ==> spec.verdict() is Err || exists|i: int|
                0 <= i < now.log.len() && (#[trigger] now.log[i]).reply is Codec && bad(
                    now.log[i].reply,
                )
        }),
{
    lemma_kept(ctx, spec, repo, deploy_id, count);
    lemma_kept_without_faults(ctx, spec, repo, deploy_id, count);
    let now = deployed(ctx, spec, repo, deploy_id, count);
    if let Some(Err(RunErrorView::Internal(error))) = now.deploy.result() {
        if exists|call: StoreCallView| #[trigger]
            happened(
                now.log,
                RequestView::Store(call),
                ReplyView::Store(StoreReplyView::Failed(error)),
            ) {
            let call = choose|call: StoreCallView| #[trigger]
                happened(
                    now.log,
                    RequestView::Store(call),
                    ReplyView::Store(StoreReplyView::Failed(error)),
                );
            let i = choose|i: int|
                0 <= i < now.log.len() && now.log[i] == (Exchange {
                    request: RequestView::<Plan>::Store(call),
                    reply: ReplyView::Store(StoreReplyView::Failed(error)),
                });
            assert(store_failed(now.log[i].reply));
        }
    }
}

} // verus!
