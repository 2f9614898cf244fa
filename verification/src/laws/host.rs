//! What a deploy does to the host, and what undoes it.

use crate::ctx::law_reply_is_admitted;
use crate::deployment::{DeploymentView, Job, PhaseView};
use crate::laws::ledger::coherent;
use crate::model::{stage_at, DeployOutcomeView, Stage};
use crate::protocol::{HostCallView, ReplyView, RequestView};
use crate::run::{DeployScene, Exchange};
use crate::spec::WorkloadSpecView;
use crate::unwind::compensation;
use vstd::prelude::*;

verus! {

/// A request to the host that changes it, and whether it was performed.
pub struct Effect<Plan> {
    pub call: HostCallView<Plan>,
    pub worked: bool,
}

/// The requests that change the host, in the order in which they were made.
pub open spec fn effects<Plan>(log: Seq<Exchange<Plan>>) -> Seq<Effect<Plan>>
    decreases log.len(),
{
    if log.len() == 0 {
        Seq::empty()
    } else {
        let earlier = effects(log.drop_last());
        match (log.last().request, log.last().reply) {
            (RequestView::Host(call), ReplyView::Host(reply)) => if call.changes_host() {
                earlier.push(Effect { call, worked: !(reply is Failed) })
            } else {
                earlier
            },
            _ => earlier,
        }
    }
}

/// The change that a stage makes to the host, if it makes one.
pub open spec fn change<Plan>(
    spec: WorkloadSpecView,
    slug: Seq<char>,
    stage: Stage,
) -> Option<HostCallView<Plan>> {
    match stage {
        Stage::Apply => Some(HostCallView::Apply { spec }),
        Stage::Route => match spec.route {
            Some(route) => Some(HostCallView::ApplyRoute { slug, route }),
            None => None,
        },
        _ => None,
    }
}

/// The changes that the first `count` stages make to the host when they pass.
pub open spec fn changes<Plan>(spec: WorkloadSpecView, slug: Seq<char>, count: int) -> Seq<
    Effect<Plan>,
>
    decreases count,
{
    if count <= 0 {
        Seq::empty()
    } else {
        let earlier = changes(spec, slug, count - 1);
        match change(spec, slug, stage_at(count - 1)) {
            Some(call) => earlier.push(Effect { call, worked: true }),
            None => earlier,
        }
    }
}

/// The changes to the host up to a stage that failed.
pub open spec fn changes_until<Plan>(
    spec: WorkloadSpecView,
    slug: Seq<char>,
    failed_at: Stage,
) -> Seq<Effect<Plan>> {
    let earlier = changes(spec, slug, failed_at.position());
    match change(spec, slug, failed_at) {
        Some(call) => earlier.push(Effect { call, worked: false }),
        None => earlier,
    }
}

/// The requests, all performed.
pub open spec fn all_worked<Plan>(calls: Seq<HostCallView<Plan>>) -> Seq<Effect<Plan>> {
    calls.map_values(|call: HostCallView<Plan>| Effect { call, worked: true })
}

/// Whether `done` is what a deploy with this outcome did to the host: the
/// changes of its stages, and everything that undoes them. Where that failed,
/// it stopped at what failed.
pub open spec fn host_done<Plan>(
    deploy: DeploymentView<Plan>,
    outcome: DeployOutcomeView,
    done: Seq<Effect<Plan>>,
) -> bool {
    let spec = deploy.spec;
    let slug = deploy.slug;
    match outcome {
        DeployOutcomeView::Done { .. } => done == changes::<Plan>(spec, slug, 6),
        DeployOutcomeView::RolledBack { failed_at, .. } => done == changes_until::<Plan>(
            spec,
            slug,
            failed_at,
        ) + all_worked(compensation(spec.name, slug, deploy.previous, failed_at)),
        DeployOutcomeView::Failed { failed_at, .. } => {
            let undoing = compensation::<Plan>(spec.name, slug, deploy.previous, failed_at);
            exists|i: int|
                0 <= i < undoing.len() && done == (changes_until::<Plan>(spec, slug, failed_at)
                    + all_worked(undoing.take(i))).push(
                    Effect { call: #[trigger] undoing[i], worked: false },
                )
        },
    }
}

/// Whether `done` is what a deploy did to the host up to its phase.
pub open spec fn host_touched<Plan>(
    deploy: DeploymentView<Plan>,
    done: Seq<Effect<Plan>>,
) -> bool {
    let spec = deploy.spec;
    let slug = deploy.slug;
    match deploy.phase {
        PhaseView::Loading => done == Seq::<Effect<Plan>>::empty(),
        PhaseView::Decoding { .. } => done == Seq::<Effect<Plan>>::empty(),
        PhaseView::Advancing { job } => done == changes::<Plan>(spec, slug, job.at().position()),
        PhaseView::Starting { job } => done == changes::<Plan>(spec, slug, job.at().position()),
        PhaseView::Working { job } => done == changes::<Plan>(spec, slug, job.at().position()),
        PhaseView::Passing { stage, .. } => done == changes::<Plan>(
            spec,
            slug,
            stage.position() + 1,
        ),
        PhaseView::Failing { stage, .. } => done == changes_until::<Plan>(spec, slug, stage),
        PhaseView::Unwinding { stage, step, .. } => {
            let undoing = compensation::<Plan>(spec.name, slug, deploy.previous, stage);
            done == changes_until::<Plan>(spec, slug, stage) + all_worked(
                undoing.take(undoing.len() - step.left()),
            )
        },
        PhaseView::Encoding => done == changes::<Plan>(spec, slug, 6),
        PhaseView::Storing { .. } => done == changes::<Plan>(spec, slug, 6),
        PhaseView::Finishing { outcome } => host_done(deploy, outcome, done),
        PhaseView::Releasing { so_far: Ok(outcome) } => host_done(deploy, outcome, done),
        PhaseView::Ended { result: Ok(outcome) } => host_done(deploy, outcome, done),
        _ => true,
    }
}

/// The first three stages do not change the host.
pub proof fn lemma_no_image_yet<Plan>(spec: WorkloadSpecView, slug: Seq<char>, count: int)
    requires
        count <= 3,
    ensures
        changes::<Plan>(spec, slug, count) == Seq::<Effect<Plan>>::empty(),
    decreases count,
{
    if count > 0 {
        lemma_no_image_yet::<Plan>(spec, slug, count - 1);
    }
}

/// The host is touched as the story tells.
pub proof fn lemma_host_touched<Plan>(scene: DeployScene<Plan>)
    requires
        coherent(scene.deploy),
        host_touched(scene.deploy, effects(scene.log)),
    ensures
        host_touched(scene.next().deploy, effects(scene.next().log)),
{
    if !scene.stands() {
        let request = scene.deploy.request()->0;
        law_reply_is_admitted(scene.ctx, request);
        let reply = scene.ctx.reply(request)->0;
        let next = scene.next();
        let done = effects(scene.log);
        let spec = scene.deploy.spec;
        let slug = scene.deploy.slug;
        assert(next.log.drop_last() =~= scene.log);
        match scene.deploy.phase {
            PhaseView::Working { job: Job::Build { .. } } => {
                lemma_no_image_yet::<Plan>(next.deploy.spec, slug, 2);
                lemma_no_image_yet::<Plan>(spec, slug, 1);
            },
            PhaseView::Failing { stage, .. } => {
                let undoing = compensation::<Plan>(spec.name, slug, scene.deploy.previous, stage);
                assert(undoing.take(0) =~= Seq::empty());
                assert(all_worked(undoing.take(0)) =~= Seq::empty());
                assert(all_worked::<Plan>(Seq::empty()) =~= Seq::empty());
                assert(done + Seq::empty() =~= done);
            },
            PhaseView::Unwinding { stage, step, .. } => {
                let undoing = compensation::<Plan>(spec.name, slug, scene.deploy.previous, stage);
                let i = undoing.len() - step.left();
                let base = changes_until::<Plan>(spec, slug, stage);
                assert(undoing[i] == step.call::<Plan>(spec.name, slug, scene.deploy.previous));
                assert(undoing.take(i + 1) =~= undoing.take(i).push(undoing[i]));
                assert(all_worked(undoing.take(i + 1)) =~= all_worked(undoing.take(i)).push(
                    Effect { call: undoing[i], worked: true },
                ));
                assert(base + all_worked(undoing.take(i + 1)) =~= (base + all_worked(
                    undoing.take(i),
                )).push(Effect { call: undoing[i], worked: true }));
                assert(undoing.take(undoing.len() as int) =~= undoing);
            },
            _ => {},
        }
    }
}

/// The requests that were made of the host, in order.
pub open spec fn host_calls<Plan>(log: Seq<Exchange<Plan>>) -> Seq<HostCallView<Plan>>
    decreases log.len(),
{
    if log.len() == 0 {
        Seq::empty()
    } else {
        let earlier = host_calls(log.drop_last());
        match log.last().request {
            RequestView::Host(call) => earlier.push(call),
            _ => earlier,
        }
    }
}

/// The work of the stage at a position of the run, where `plan` is what Detect
/// found out.
pub open spec fn job_at<Plan>(position: int, plan: Plan) -> Job<Plan> {
    match stage_at(position) {
        Stage::Detect => Job::Detect,
        Stage::Build => Job::Build { plan },
        Stage::Secrets => Job::Secrets,
        Stage::Apply => Job::Apply,
        Stage::Route => Job::Route,
        Stage::Healthcheck => Job::Healthcheck,
    }
}

/// What the first `count` stages ask of the host, each once and in order.
pub open spec fn stage_calls<Plan>(deploy: DeploymentView<Plan>, plan: Plan, count: int) -> Seq<
    HostCallView<Plan>,
>
    decreases count,
{
    if count <= 0 {
        Seq::empty()
    } else {
        let earlier = stage_calls(deploy, plan, count - 1);
        match deploy.work(job_at(count - 1, plan)) {
            Some(call) => earlier.push(call),
            None => earlier,
        }
    }
}

/// Whether the host was asked for what the first `count` stages ask, and for
/// nothing else.
pub open spec fn asked_for<Plan>(
    deploy: DeploymentView<Plan>,
    log: Seq<Exchange<Plan>>,
    count: int,
) -> bool {
    exists|plan: Plan| host_calls(log) == #[trigger] stage_calls(deploy, plan, count)
}

/// Whether the host was asked for what the stages ask up to the phase of a
/// deploy, as long as none has to be undone.
pub open spec fn asked_in_order<Plan>(scene: DeployScene<Plan>) -> bool {
    let deploy = scene.deploy;
    let log = scene.log;
    match deploy.phase {
        PhaseView::Loading => host_calls(log).len() == 0,
        PhaseView::Decoding { .. } => host_calls(log).len() == 0,
        PhaseView::Advancing { job } => asked_for_before(deploy, log, job),
        PhaseView::Starting { job } => asked_for_before(deploy, log, job),
        PhaseView::Working { job } => asked_for_before(deploy, log, job),
        PhaseView::Passing { stage, next: Some(job) } => asked_for_before(deploy, log, job),
        PhaseView::Passing { stage, next: None } => asked_for(deploy, log, 6),
        PhaseView::Failing { stage, .. } => asked_for(deploy, log, stage.position() + 1),
        PhaseView::Encoding => asked_for(deploy, log, 6),
        PhaseView::Storing { .. } => asked_for(deploy, log, 6),
        PhaseView::Unwinding { stage, step, .. } => {
            let undoing = compensation::<Plan>(
                deploy.spec.name,
                deploy.slug,
                deploy.previous,
                stage,
            );
            asked_to_undo(deploy, log, stage, undoing.take(undoing.len() - step.left()))
        },
        PhaseView::Finishing { outcome } => all_asked(deploy, log, outcome),
        PhaseView::Releasing { so_far: Ok(outcome) } => all_asked(deploy, log, outcome),
        PhaseView::Ended { result: Ok(outcome) } => all_asked(deploy, log, outcome),
        _ => true,
    }
}

/// Whether the host was asked for what the stages ask up to the one that failed,
/// and then for `undone`, and for nothing else.
pub open spec fn asked_to_undo<Plan>(
    deploy: DeploymentView<Plan>,
    log: Seq<Exchange<Plan>>,
    failed_at: Stage,
    undone: Seq<HostCallView<Plan>>,
) -> bool {
    exists|plan: Plan|
        host_calls(log) == (#[trigger] stage_calls(deploy, plan, failed_at.position() + 1)) + undone
}

/// Whether the host was asked for what a deploy with this outcome asks, and for
/// nothing else: the work of its stages, and what undoes the one that failed,
/// up to what failed too.
pub open spec fn all_asked<Plan>(
    deploy: DeploymentView<Plan>,
    log: Seq<Exchange<Plan>>,
    outcome: DeployOutcomeView,
) -> bool {
    match outcome {
        DeployOutcomeView::Done { .. } => asked_for(deploy, log, 6),
        DeployOutcomeView::RolledBack { failed_at, .. } => asked_to_undo(
            deploy,
            log,
            failed_at,
            compensation(deploy.spec.name, deploy.slug, deploy.previous, failed_at),
        ),
        DeployOutcomeView::Failed { failed_at, .. } => {
            let undoing = compensation::<Plan>(
                deploy.spec.name,
                deploy.slug,
                deploy.previous,
                failed_at,
            );
            exists|count: int|
                0 < count <= undoing.len() && #[trigger] asked_to_undo(
                    deploy,
                    log,
                    failed_at,
                    undoing.take(count),
                )
        },
    }
}

/// Whether the host was asked for what the stages before this work ask.
pub open spec fn asked_for_before<Plan>(
    deploy: DeploymentView<Plan>,
    log: Seq<Exchange<Plan>>,
    job: Job<Plan>,
) -> bool {
    asked_for(deploy, log, job.at().position())
}

/// What the first stages ask of the host does not depend on the image, nor on
/// what was planned before it is built.
proof fn lemma_first_calls<Plan>(
    deploy: DeploymentView<Plan>,
    other: DeploymentView<Plan>,
    plan: Plan,
    found: Plan,
)
    requires
        other.repo == deploy.repo,
        other.slug == deploy.slug,
    ensures
        stage_calls(deploy, plan, 1) == stage_calls(deploy, found, 1),
        stage_calls(deploy, plan, 2) == stage_calls(other, plan, 2),
{
    reveal_with_fuel(stage_calls, 4);
}

/// The calls of a deploy do not depend on its phase.
proof fn lemma_same_calls<Plan>(
    deploy: DeploymentView<Plan>,
    other: DeploymentView<Plan>,
    plan: Plan,
    count: int,
)
    requires
        other.repo == deploy.repo,
        other.slug == deploy.slug,
        other.spec == deploy.spec,
    ensures
        stage_calls(deploy, plan, count) == stage_calls(other, plan, count),
    decreases count,
{
    if count > 0 {
        lemma_same_calls(deploy, other, plan, count - 1);
    }
}

/// The host goes on being asked in order while a deploy is undone.
proof fn lemma_undoing_in_order<Plan>(scene: DeployScene<Plan>)
    requires
        coherent(scene.deploy),
        asked_in_order(scene),
        scene.deploy.phase is Failing || scene.deploy.phase is Unwinding,
    ensures
        asked_in_order(scene.next()),
{
    if !scene.stands() {
        let request = scene.deploy.request()->0;
        let reply = scene.ctx.reply(request)->0;
        law_reply_is_admitted(scene.ctx, request);
        let deploy = scene.deploy;
        let next = scene.next();
        assert(next.log.drop_last() =~= scene.log);
        let stage = match deploy.phase {
            PhaseView::Failing { stage, .. } => stage,
            PhaseView::Unwinding { stage, .. } => stage,
            _ => Stage::Detect,
        };
        let count = stage.position() + 1;
        let undoing = compensation::<Plan>(
            deploy.spec.name,
            deploy.slug,
            deploy.previous,
            stage,
        );
        assert(undoing.take(undoing.len() as int) =~= undoing);
        match deploy.phase {
            PhaseView::Unwinding { step, .. } => {
                let i = undoing.len() - step.left();
                let plan = choose|plan: Plan|
                    host_calls(scene.log) == (#[trigger] stage_calls(deploy, plan, count))
                        + undoing.take(i);
                lemma_same_calls(deploy, next.deploy, plan, count);
                assert(undoing[i] == step.call::<Plan>(
                    deploy.spec.name,
                    deploy.slug,
                    deploy.previous,
                ));
                assert(undoing.take(i + 1) =~= undoing.take(i).push(undoing[i]));
                assert(host_calls(next.log) =~= stage_calls(next.deploy, plan, count)
                    + undoing.take(i + 1));
                assert(asked_to_undo(next.deploy, next.log, stage, undoing.take(i + 1)));
            },
            _ => {
                let plan = choose|plan: Plan|
                    host_calls(scene.log) == #[trigger] stage_calls(deploy, plan, count);
                lemma_same_calls(deploy, next.deploy, plan, count);
                assert(host_calls(next.log) =~= stage_calls(next.deploy, plan, count)
                    + undoing.take(0));
                assert(asked_to_undo(next.deploy, next.log, stage, undoing.take(0)));
                assert(undoing.len() == 0 ==> undoing =~= undoing.take(0));
            },
        }
    }
}

/// The host goes on being asked in order once a deploy ends.
proof fn lemma_ending_in_order<Plan>(scene: DeployScene<Plan>)
    requires
        coherent(scene.deploy),
        asked_in_order(scene),
        scene.deploy.phase is Finishing || scene.deploy.phase is Releasing,
    ensures
        asked_in_order(scene.next()),
{
    if !scene.stands() {
        let request = scene.deploy.request()->0;
        law_reply_is_admitted(scene.ctx, request);
        let deploy = scene.deploy;
        let next = scene.next();
        assert(next.log.drop_last() =~= scene.log);
        assert forall|plan: Plan, count: int| stage_calls(deploy, plan, count)
            == #[trigger] stage_calls(next.deploy, plan, count) by {
            lemma_same_calls(deploy, next.deploy, plan, count);
        }
        assert forall|count: int| #[trigger] asked_for(deploy, scene.log, count) implies asked_for(
            next.deploy,
            next.log,
            count,
        ) by {
            let plan = choose|plan: Plan|
                host_calls(scene.log) == #[trigger] stage_calls(deploy, plan, count);
            assert(host_calls(next.log) == stage_calls(next.deploy, plan, count));
        }
        assert forall|stage: Stage, undone: Seq<HostCallView<Plan>>| #[trigger]
            asked_to_undo(deploy, scene.log, stage, undone) implies asked_to_undo(
            next.deploy,
            next.log,
            stage,
            undone,
        ) by {
            let plan = choose|plan: Plan|
                host_calls(scene.log) == (#[trigger] stage_calls(
                    deploy,
                    plan,
                    stage.position() + 1,
                )) + undone;
            assert(host_calls(next.log) == stage_calls(next.deploy, plan, stage.position() + 1)
                + undone);
        }
        let outcome = match deploy.phase {
            PhaseView::Finishing { outcome } => Some(outcome),
            PhaseView::Releasing { so_far: Ok(outcome) } => Some(outcome),
            _ => None,
        };
        if let Some(outcome) = outcome {
            if let DeployOutcomeView::Failed { failed_at, .. } = outcome {
                let undoing = compensation::<Plan>(
                    deploy.spec.name,
                    deploy.slug,
                    deploy.previous,
                    failed_at,
                );
                let count = choose|count: int|
                    0 < count <= undoing.len() && #[trigger] asked_to_undo(
                        deploy,
                        scene.log,
                        failed_at,
                        undoing.take(count),
                    );
                assert(asked_to_undo(next.deploy, next.log, failed_at, undoing.take(count)));
            }
            assert(all_asked(next.deploy, next.log, outcome));
        }
    }
}

/// The host goes on being asked in order.
pub proof fn lemma_asked_in_order<Plan>(scene: DeployScene<Plan>)
    requires
        coherent(scene.deploy),
        asked_in_order(scene),
    ensures
        asked_in_order(scene.next()),
{
    if !scene.stands() {
        let request = scene.deploy.request()->0;
        let reply = scene.ctx.reply(request)->0;
        law_reply_is_admitted(scene.ctx, request);
        let deploy = scene.deploy;
        let next = scene.next();
        assert(next.log.drop_last() =~= scene.log);
        let before: int = match deploy.phase {
            PhaseView::Advancing { job } => job.at().position(),
            PhaseView::Starting { job } => job.at().position(),
            PhaseView::Working { job } => job.at().position(),
            PhaseView::Passing { stage, next: Some(job) } => job.at().position(),
            _ => 6,
        };
        if deploy.phase is Failing || deploy.phase is Unwinding {
            lemma_undoing_in_order(scene);
        } else if deploy.phase is Finishing || deploy.phase is Releasing {
            lemma_ending_in_order(scene);
        } else if deploy.phase is Loading || deploy.phase is Decoding {
            let any: Plan = arbitrary();
            assert(host_calls(next.log) =~= stage_calls(next.deploy, any, 0));
        } else if asked_for(deploy, scene.log, before) {
            let plan = choose|plan: Plan|
                host_calls(scene.log) == #[trigger] stage_calls(deploy, plan, before);
            match deploy.phase {
                PhaseView::Working { job } => {
                    let found = match job {
                        Job::Build { plan } => plan,
                        _ => plan,
                    };
                    lemma_first_calls(deploy, next.deploy, plan, found);
                    lemma_first_calls(deploy, next.deploy, found, found);
                    assert(stage_calls(deploy, plan, before) == stage_calls(deploy, found, before));
                    assert(job_at(before, found) == job);
                    assert(host_calls(next.log) == stage_calls(deploy, found, before + 1));
                    if next.deploy.spec == deploy.spec {
                        lemma_same_calls(deploy, next.deploy, found, before + 1);
                    }
                    assert(host_calls(next.log) == stage_calls(next.deploy, found, before + 1));
                },
                _ => {
                    lemma_same_calls(deploy, next.deploy, plan, before);
                    lemma_same_calls(deploy, next.deploy, plan, before + 1);
                    if let PhaseView::Starting { job: Job::Route } = deploy.phase {
                        assert(deploy.spec.route is None ==> stage_calls(deploy, plan, 5)
                            == stage_calls(deploy, plan, 4));
                    }
                    assert(request is Host || host_calls(next.log) == stage_calls(
                        next.deploy,
                        plan,
                        before,
                    ));
                },
            }
        }
    }
}

} // verus!
