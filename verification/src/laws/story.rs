//! What is told of a deploy, and that it is stored before it is published.

use crate::ctx::{law_reply_is_admitted, CtxView};
use crate::deployment::{both_causes, DeploymentView, PhaseView};
use crate::laws::ledger::{agrees, coherent};
use crate::model::{
    finished_event, stage_at, stage_event, DeployOutcomeView, DeployRowView, DeployStatus,
    EventStatus, EventView, Stage, StoredEventView,
};
use crate::protocol::{HostReplyView, ReplyView, StoreReplyView};
use crate::run::DeployScene;
use vstd::prelude::*;

verus! {

/// What is told of the first `count` stages when they pass.
pub open spec fn passed(deploy_id: i64, count: int) -> Seq<EventView>
    decreases count,
{
    if count <= 0 {
        Seq::empty()
    } else {
        let stage = stage_at(count - 1);
        passed(deploy_id, count - 1).push(
            stage_event(deploy_id, stage, EventStatus::Started, None),
        ).push(stage_event(deploy_id, stage, EventStatus::Succeeded, None))
    }
}

/// What is told of the stages when `stage` is begun.
pub open spec fn begun(deploy_id: i64, stage: Stage) -> Seq<EventView> {
    passed(deploy_id, stage.position()).push(
        stage_event(deploy_id, stage, EventStatus::Started, None),
    )
}

/// What is told of the stages when `stage` fails.
pub open spec fn broken(deploy_id: i64, stage: Stage, cause: Seq<char>) -> Seq<EventView> {
    begun(deploy_id, stage).push(stage_event(deploy_id, stage, EventStatus::Failed, Some(cause)))
}

/// Whether `told` is what is told of the stages of a deploy with this outcome.
/// The stage that failed is blamed with its own cause, also where undoing it
/// failed too.
pub open spec fn stages_told(
    deploy_id: i64,
    outcome: DeployOutcomeView,
    told: Seq<EventView>,
) -> bool {
    match outcome {
        DeployOutcomeView::Done { .. } => told == passed(deploy_id, 6),
        DeployOutcomeView::RolledBack { failed_at, cause } => told == broken(
            deploy_id,
            failed_at,
            cause,
        ),
        DeployOutcomeView::Failed { failed_at, cause } => exists|
            why: Seq<char>,
            undoing: Seq<Seq<char>>,
        |
            cause == #[trigger] both_causes(why, undoing) && told == broken(
                deploy_id,
                failed_at,
                why,
            ),
    }
}

/// Whether `told` is the whole timeline of a deploy with this outcome: its
/// stages, and then its end with the cause.
pub open spec fn all_told(
    deploy_id: i64,
    outcome: DeployOutcomeView,
    told: Seq<EventView>,
) -> bool {
    &&& told.len() > 0
    &&& stages_told(deploy_id, outcome, told.drop_last())
    &&& told.last() == finished_event(deploy_id, outcome.status(), outcome.detail())
}

/// Whether `told` is what is told of a deploy up to its phase.
pub open spec fn story<Plan>(deploy: DeploymentView<Plan>, told: Seq<EventView>) -> bool {
    let id = deploy.deploy_id;
    match deploy.phase {
        PhaseView::Loading => told == Seq::<EventView>::empty(),
        PhaseView::Decoding { .. } => told == Seq::<EventView>::empty(),
        PhaseView::Advancing { job } => told == passed(id, job.at().position()),
        PhaseView::Starting { job } => told == passed(id, job.at().position()),
        PhaseView::Working { job } => told == begun(id, job.at()),
        PhaseView::Passing { stage, .. } => told == begun(id, stage),
        PhaseView::Failing { stage, .. } => told == begun(id, stage),
        PhaseView::Unwinding { stage, cause, .. } => told == broken(id, stage, cause),
        PhaseView::Encoding => told == passed(id, 6),
        PhaseView::Storing { .. } => told == passed(id, 6),
        PhaseView::Finishing { outcome } => stages_told(id, outcome, told),
        PhaseView::Releasing { so_far: Ok(outcome) } => all_told(id, outcome, told),
        PhaseView::Ended { result: Ok(outcome) } => all_told(id, outcome, told),
        _ => true,
    }
}

/// The events without their ids.
pub open spec fn texts(events: Seq<StoredEventView>) -> Seq<EventView> {
    events.map_values(|stored: StoredEventView| stored.event)
}

/// Whether the events that were stored since `before` are what was published
/// since, in the same order and under the same ids, and tell the story of the
/// deploy and of no other.
pub open spec fn told<Plan>(before: CtxView<Plan>, scene: DeployScene<Plan>) -> bool {
    let news = scene.ctx.store.events.skip(before.store.events.len() as int);
    &&& before.store.events.len() <= scene.ctx.store.events.len()
    &&& scene.ctx.store.events == before.store.events + news
    &&& scene.ctx.sink == before.sink + news
    &&& story(scene.deploy, texts(news))
    &&& forall|i: int|
        0 <= i < news.len() ==> (#[trigger] news[i]).event.deploy_id == scene.deploy.deploy_id
}

/// One more event, stored and published.
pub proof fn lemma_one_more(
    earlier: Seq<StoredEventView>,
    events: Seq<StoredEventView>,
    stored: StoredEventView,
)
    requires
        earlier.len() <= events.len(),
    ensures
        events.push(stored).skip(earlier.len() as int) == events.skip(earlier.len() as int).push(
            stored,
        ),
        texts(events.skip(earlier.len() as int).push(stored)) == texts(
            events.skip(earlier.len() as int),
        ).push(stored.event),
{
    let news = events.skip(earlier.len() as int);
    assert(events.push(stored).skip(earlier.len() as int) =~= news.push(stored));
    assert(texts(news.push(stored)) =~= texts(news).push(stored.event));
}

/// The story goes on.
pub proof fn lemma_told<Plan>(before: CtxView<Plan>, scene: DeployScene<Plan>)
    requires
        coherent(scene.deploy),
        told(before, scene),
    ensures
        told(before, scene.next()),
{
    let now = scene.ctx.store;
    let earlier = before.store.events;
    let news = now.events.skip(earlier.len() as int);
    if !scene.stands() {
        let request = scene.deploy.request()->0;
        law_reply_is_admitted(scene.ctx, request);
        let next = scene.next();
        match scene.ctx.reply(request)->0 {
            ReplyView::Store(StoreReplyView::Event(stored)) => {
                lemma_one_more(earlier, now.events, stored);
                assert(next.ctx.store.events == now.events.push(stored));
                assert(next.ctx.store.events =~= earlier + news.push(stored));
                assert(next.ctx.sink =~= before.sink + news.push(stored));
                let told = texts(news.push(stored));
                assert(told.drop_last() =~= texts(news));
                match scene.deploy.phase {
                    PhaseView::Passing { stage, .. } => {
                        assert(told =~= passed(scene.deploy.deploy_id, stage.position() + 1));
                    },
                    _ => {},
                }
            },
            _ => {
                assert(next.ctx.store.events == now.events);
                if let PhaseView::Unwinding { stage, cause, .. } = scene.deploy.phase {
                    if let ReplyView::Host(HostReplyView::Failed(error)) = scene.ctx.reply(
                        request,
                    )->0 {
                        assert(stages_told(
                            scene.deploy.deploy_id,
                            next.deploy.phase->Finishing_outcome,
                            texts(news),
                        ));
                    }
                }
            },
        }
    }
}

/// Whether an event says that a deploy has ended.
pub open spec fn is_end(event: EventView) -> bool {
    event.kind is Finished
}

/// Whether the row of a deploy and its events agree: no event says that it has
/// ended while the row is in progress; otherwise the last one does, and only
/// that one, with the status and the detail of the row.
pub open spec fn row_and_events_agree(
    row: DeployRowView,
    deploy_id: i64,
    told: Seq<EventView>,
) -> bool {
    if row.status == DeployStatus::InProgress {
        forall|i: int| 0 <= i < told.len() ==> !is_end(#[trigger] told[i])
    } else {
        &&& told.len() > 0
        &&& told.last() == finished_event(deploy_id, row.status, row.detail)
        &&& forall|i: int| 0 <= i < told.len() - 1 ==> !is_end(#[trigger] told[i])
    }
}

/// The row and the events go on agreeing.
pub proof fn lemma_row_and_events_agree<Plan>(before: CtxView<Plan>, scene: DeployScene<Plan>)
    requires
        coherent(scene.deploy),
        agrees(scene.ctx.store, scene.deploy),
        told(before, scene),
        row_and_events_agree(
            scene.ctx.store.row(scene.deploy.deploy_id),
            scene.deploy.deploy_id,
            texts(scene.ctx.store.events.skip(before.store.events.len() as int)),
        ),
    ensures
        row_and_events_agree(
            scene.next().ctx.store.row(scene.deploy.deploy_id),
            scene.deploy.deploy_id,
            texts(scene.next().ctx.store.events.skip(before.store.events.len() as int)),
        ),
{
    let now = scene.ctx.store;
    let id = scene.deploy.deploy_id;
    let earlier = before.store.events;
    let news = now.events.skip(earlier.len() as int);
    if !scene.stands() {
        let request = scene.deploy.request()->0;
        law_reply_is_admitted(scene.ctx, request);
        let next = scene.next();
        match scene.ctx.reply(request)->0 {
            ReplyView::Store(StoreReplyView::Event(stored)) => {
                lemma_one_more(earlier, now.events, stored);
                assert(next.ctx.store.events == now.events.push(stored));
                let told = texts(news).push(stored.event);
                assert forall|i: int| 0 <= i < told.len() - 1 implies !is_end(
                    #[trigger] told[i],
                ) by {
                    assert(told[i] == texts(news)[i]);
                }
                assert(now.row(id).id == id);
            },
            _ => {
                assert(next.ctx.store.events == now.events);
                assert(now.row(id).id == id);
            },
        }
    }
}

} // verus!
