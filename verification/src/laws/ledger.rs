//! What the ledger says about a deploy while it runs, and what it leaves alone.

use crate::ctx::law_reply_is_admitted;
use crate::deployment::{DeploymentView, Job, PhaseView};
use crate::model::{DeployOutcomeView, Stage};
use crate::protocol::{RequestView, StoreCallView};
use crate::run::DeployScene;
use crate::spec::WorkloadSpecView;
use crate::store::{
    law_answer_keeps_valid, lemma_filter_within, not_held, not_of, LockView, StoreView,
};
use crate::unwind::first_unwind;
use vstd::prelude::*;

verus! {

/// Whether a deploy of the app under the id can run its stages: its row is in
/// progress and it holds the lock of the app. A reservation that is granted
/// leaves the ledger so.
pub open spec fn ready(store: StoreView, name: Seq<char>, deploy_id: i64) -> bool {
    &&& store.valid()
    &&& store.in_progress(deploy_id)
    &&& store.row(deploy_id).app == name
    &&& store.holds(name, deploy_id)
}

/// Whether a deploy can be in its phase: stages follow each other, a route is
/// only worked on where one is asked for, and only what was done is undone.
pub open spec fn coherent<Plan>(deploy: DeploymentView<Plan>) -> bool {
    match deploy.phase {
        PhaseView::Reserving { .. } => false,
        PhaseView::Working { job: Job::Route } => deploy.spec.route is Some,
        PhaseView::Passing { stage, next } => match next {
            Some(job) => job.at().position() == stage.position() + 1,
            None => stage == Stage::Healthcheck,
        },
        PhaseView::Failing { stage, .. } => stage == Stage::Route ==> deploy.spec.route is Some,
        PhaseView::Unwinding { stage, step, .. } => {
            &&& stage == Stage::Route ==> deploy.spec.route is Some
            &&& first_unwind(stage) is Some
            &&& step.left() <= first_unwind(stage)->0.left()
        },
        PhaseView::Finishing { outcome } => fits(deploy, outcome),
        PhaseView::Releasing { so_far: Ok(outcome) } => fits(deploy, outcome),
        PhaseView::Ended { result: Ok(outcome) } => fits(deploy, outcome),
        PhaseView::Releasing { so_far: Err(error) } => !(error is Reserve),
        PhaseView::Ended { result: Err(error) } => !(error is Reserve),
        _ => true,
    }
}

/// Whether a deploy can end so.
pub open spec fn fits<Plan>(deploy: DeploymentView<Plan>, outcome: DeployOutcomeView) -> bool {
    match outcome {
        DeployOutcomeView::Done { image } => image == deploy.spec.image,
        DeployOutcomeView::RolledBack { failed_at, .. } => failed_at == Stage::Route
            ==> deploy.spec.route is Some,
        DeployOutcomeView::Failed { failed_at, .. } => first_unwind(failed_at) is Some && (failed_at
            == Stage::Route ==> deploy.spec.route is Some),
    }
}

/// Whether two states are of the same deploy. Only the image that was built is
/// put in the place of the one that the spec came with.
pub open spec fn same<Plan>(before: DeploymentView<Plan>, now: DeploymentView<Plan>) -> bool {
    &&& now.deploy_id == before.deploy_id
    &&& now.repo == before.repo
    &&& now.slug == before.slug
    &&& now.spec == WorkloadSpecView { image: now.spec.image, ..before.spec }
}

/// A deploy stays the same and coherent.
pub proof fn lemma_coherent<Plan>(scene: DeployScene<Plan>)
    requires
        coherent(scene.deploy),
    ensures
        coherent(scene.next().deploy),
        same(scene.deploy, scene.next().deploy),
{
    if !scene.stands() {
        law_reply_is_admitted(scene.ctx, scene.deploy.request()->0);
    }
}

/// Whether a deploy touched nothing of the ledger but what is its own: its row
/// (though not the app in it), the lock of its app, the spec of its app, and
/// new events.
pub open spec fn isolated(
    before: StoreView,
    now: StoreView,
    name: Seq<char>,
    deploy_id: i64,
) -> bool {
    &&& now.valid()
    &&& now.rows.len() == before.rows.len()
    &&& now.row(deploy_id).app == before.row(deploy_id).app
    &&& forall|i: int|
        0 <= i < before.rows.len() && i != deploy_id - 1 ==> #[trigger] now.rows[i]
            == before.rows[i]
    &&& before.events.is_prefix_of(now.events)
    &&& now.specs.remove(name) == before.specs.remove(name)
    &&& forall|lock: LockView|
        lock.app != name ==> now.locks.contains(lock) == before.locks.contains(lock)
}

/// A request of a deploy leaves alone what belongs to others.
pub proof fn lemma_isolated<Plan>(scene: DeployScene<Plan>, before: StoreView)
    requires
        coherent(scene.deploy),
        isolated(before, scene.ctx.store, scene.deploy.spec.name, scene.deploy.deploy_id),
        before.has(scene.deploy.deploy_id),
        before.row(scene.deploy.deploy_id).app == scene.deploy.spec.name,
    ensures
        isolated(before, scene.next().ctx.store, scene.deploy.spec.name, scene.deploy.deploy_id),
{
    let now = scene.ctx.store;
    let name = scene.deploy.spec.name;
    let id = scene.deploy.deploy_id;
    if !scene.stands() {
        if let RequestView::Store(call) = scene.deploy.request()->0 {
            law_answer_keeps_valid(now, call);
            let then = now.answer(call).0;
            assert(before.events.is_prefix_of(then.events));
            assert(then.specs.remove(name) =~= before.specs.remove(name));
            assert forall|lock: LockView| lock.app != name implies then.locks.contains(lock)
                == before.locks.contains(lock) by {
                lemma_filter_within(now.locks, not_of(name), lock);
                lemma_filter_within(now.locks, not_held(name, id), lock);
            }
            assert(now.row(id).id == id);
        }
    }
}

/// The stage that the row of a deploy is at, once a stage was begun.
pub open spec fn reached<Plan>(phase: PhaseView<Plan>) -> Option<Stage> {
    match phase {
        PhaseView::Starting { job } => Some(job.at()),
        PhaseView::Working { job } => Some(job.at()),
        PhaseView::Passing { stage, .. } => Some(stage),
        PhaseView::Failing { stage, .. } => Some(stage),
        PhaseView::Unwinding { stage, .. } => Some(stage),
        PhaseView::Encoding => Some(Stage::Healthcheck),
        PhaseView::Storing { .. } => Some(Stage::Healthcheck),
        PhaseView::Finishing { outcome } => Some(last_stage(outcome)),
        PhaseView::Releasing { so_far: Ok(outcome) } => Some(last_stage(outcome)),
        PhaseView::Ended { result: Ok(outcome) } => Some(last_stage(outcome)),
        _ => None,
    }
}

/// The stage that a deploy with this outcome got to.
pub open spec fn last_stage(outcome: DeployOutcomeView) -> Stage {
    match outcome {
        DeployOutcomeView::Done { .. } => Stage::Healthcheck,
        DeployOutcomeView::RolledBack { failed_at, .. } => failed_at,
        DeployOutcomeView::Failed { failed_at, .. } => failed_at,
    }
}

/// Whether the row of a deploy says that it ended with this outcome.
pub open spec fn ended_as(store: StoreView, deploy_id: i64, outcome: DeployOutcomeView) -> bool {
    &&& store.row(deploy_id).status == outcome.status()
    &&& store.row(deploy_id).detail == outcome.detail()
}

/// Whether the ledger says where the deploy is. Until its end is stored, the
/// row is in progress and the lock is held; from then on the row carries the
/// outcome and the lock is free. The row is at the stage that runs.
pub open spec fn agrees<Plan>(store: StoreView, deploy: DeploymentView<Plan>) -> bool {
    let id = deploy.deploy_id;
    let name = deploy.spec.name;
    &&& store.valid()
    &&& store.has(id)
    &&& store.row(id).app == name
    &&& reached(deploy.phase) is Some ==> store.row(id).stage == reached(deploy.phase)->0
    &&& match deploy.phase {
        PhaseView::Releasing { so_far: Ok(outcome) } => ended_as(store, id, outcome)
            && !store.locked(name),
        PhaseView::Ended { result: Ok(outcome) } => ended_as(store, id, outcome) && !store.locked(
            name,
        ),
        PhaseView::Ended { result: Err(_) } => store.in_progress(id) || !store.locked(name),
        _ => ready(store, name, id),
    }
}

/// No lock of an app is left where the one that it had was dropped.
pub proof fn lemma_lock_dropped(store: StoreView, then: StoreView, name: Seq<char>, deploy_id: i64)
    requires
        store.valid(),
        then.locks == store.locks.filter(not_of(name)) || store.holds(name, deploy_id)
            && then.locks == store.locks.filter(not_held(name, deploy_id)),
    ensures
        !then.locked(name),
{
    if then.locked(name) {
        let i = choose|i: int|
            0 <= i < then.locks.len() && (#[trigger] then.locks[i]).app == name;
        let lock = then.locks[i];
        lemma_filter_within(store.locks, not_of(name), lock);
        lemma_filter_within(store.locks, not_held(name, deploy_id), lock);
        assert(then.locks.contains(lock));
        let j = choose|j: int| 0 <= j < store.locks.len() && store.locks[j] == lock;
        let k = choose|k: int|
            0 <= k < store.locks.len() && store.locks[k] == (LockView { app: name, deploy_id });
        assert(store.locks[j].app == store.locks[k].app);
    }
}

/// The ledger goes on saying where the deploy is.
pub proof fn lemma_agrees<Plan>(scene: DeployScene<Plan>)
    requires
        coherent(scene.deploy),
        agrees(scene.ctx.store, scene.deploy),
    ensures
        agrees(scene.next().ctx.store, scene.next().deploy),
{
    let now = scene.ctx.store;
    let name = scene.deploy.spec.name;
    let id = scene.deploy.deploy_id;
    if !scene.stands() {
        law_reply_is_admitted(scene.ctx, scene.deploy.request()->0);
        if let RequestView::Store(call) = scene.deploy.request()->0 {
            law_answer_keeps_valid(now, call);
            assert(now.row(id).id == id);
            let then = now.answer(call).0;
            match call {
                StoreCallView::ReleaseLock { .. } => lemma_lock_dropped(now, then, name, id),
                StoreCallView::FinishDeployWithEvent { .. } => {
                    if now.answer(call).1 is Event {
                        lemma_lock_dropped(now, then, name, id);
                    }
                },
                _ => {},
            }
        }
    }
}

} // verus!
