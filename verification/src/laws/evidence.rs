//! Where everything that a deploy works on, blames and reports comes from: the
//! replies that it got.

use crate::ctx::law_reply_is_admitted;
use crate::deployment::{both_causes, cap_exceeded, DeploymentView, Job, PhaseView, RunErrorView};
use crate::laws::ledger::{coherent, last_stage};
use crate::model::{DeployOutcomeView, Stage};
use crate::protocol::{
    CodecCallView, CodecReplyView, HostCallView, HostReplyView, ReplyView, RequestView,
    StoreCallView, StoreReplyView,
};
use crate::run::{DeployScene, Exchange};
use crate::store::{StoreView, StoredSpecView};
use crate::text::one_line;
use crate::unwind::compensation;
use vstd::prelude::*;

verus! {

/// Whether this was asked and replied.
pub open spec fn happened<Plan>(
    log: Seq<Exchange<Plan>>,
    request: RequestView<Plan>,
    reply: ReplyView<Plan>,
) -> bool {
    log.contains(Exchange { request, reply })
}

/// Whether the plan is what Detect found out about the repository.
pub open spec fn detected<Plan>(
    deploy: DeploymentView<Plan>,
    log: Seq<Exchange<Plan>>,
    plan: Plan,
) -> bool {
    happened(
        log,
        RequestView::Host(HostCallView::Detect { repo: deploy.repo }),
        ReplyView::Host(HostReplyView::Plan(plan)),
    )
}

/// Whether the image of the spec is what Build built from what Detect found out.
pub open spec fn built<Plan>(deploy: DeploymentView<Plan>, log: Seq<Exchange<Plan>>) -> bool {
    exists|plan: Plan|
        #![trigger detected(deploy, log, plan)]
        detected(deploy, log, plan) && happened(
            log,
            RequestView::Host(HostCallView::Build { plan, slug: deploy.slug }),
            ReplyView::Host(HostReplyView::Image(deploy.spec.image)),
        )
}

/// Whether the text is what the codec made of the spec.
pub open spec fn encoded<Plan>(
    deploy: DeploymentView<Plan>,
    log: Seq<Exchange<Plan>>,
    json: Seq<char>,
) -> bool {
    happened(
        log,
        RequestView::Codec(CodecCallView::Encode { spec: deploy.spec }),
        ReplyView::Codec(CodecReplyView::Json(json)),
    )
}

/// The specs after one more was stored.
pub open spec fn with_spec<Plan>(
    before: StoreView,
    deploy: DeploymentView<Plan>,
    json: Seq<char>,
) -> Map<Seq<char>, StoredSpecView> {
    before.specs.insert(
        deploy.spec.name,
        StoredSpecView { name: deploy.spec.name, slug: deploy.slug, json },
    )
}

/// Whether the spec that was deployed, with the image that was built, is the
/// only one that was stored.
pub open spec fn spec_stored<Plan>(before: StoreView, scene: DeployScene<Plan>) -> bool {
    exists|json: Seq<char>|
        #![trigger encoded(scene.deploy, scene.log, json)]
        encoded(scene.deploy, scene.log, json) && scene.ctx.store.specs == with_spec(
            before,
            scene.deploy,
            json,
        )
}

/// Whether the specs in the ledger are what they have to be in a phase: as they
/// were, until the deploy is about to be done.
pub open spec fn specs_kept<Plan>(before: StoreView, scene: DeployScene<Plan>) -> bool {
    let done = match scene.deploy.phase {
        PhaseView::Finishing { outcome } => outcome is Done,
        PhaseView::Releasing { so_far: Ok(outcome) } => outcome is Done,
        PhaseView::Ended { result: Ok(outcome) } => outcome is Done,
        _ => false,
    };
    let given_up = scene.deploy.phase is Releasing && scene.deploy.phase->so_far is Err
        || scene.deploy.phase is Ended && scene.deploy.phase->Ended_result is Err;
    if done {
        spec_stored(before, scene)
    } else if given_up {
        scene.ctx.store.specs == before.specs || spec_stored(before, scene)
    } else {
        scene.ctx.store.specs == before.specs
    }
}

/// Whether the image is built where a deploy got to this stage: from Secrets on
/// it is.
pub open spec fn built_by<Plan>(
    deploy: DeploymentView<Plan>,
    log: Seq<Exchange<Plan>>,
    stage: Stage,
) -> bool {
    Stage::Secrets.position() <= stage.position() ==> built(deploy, log)
}

/// Whether what the later stages work on came from the earlier ones.
pub open spec fn handed_on<Plan>(scene: DeployScene<Plan>) -> bool {
    let deploy = scene.deploy;
    let log = scene.log;
    match deploy.phase {
        PhaseView::Advancing { job: Job::Build { plan } } => detected(deploy, log, plan),
        PhaseView::Starting { job: Job::Build { plan } } => detected(deploy, log, plan),
        PhaseView::Working { job: Job::Build { plan } } => detected(deploy, log, plan),
        PhaseView::Passing { next: Some(Job::Build { plan }), .. } => detected(deploy, log, plan),
        PhaseView::Advancing { job } => job is Detect || built(deploy, log),
        PhaseView::Starting { job } => job is Detect || built(deploy, log),
        PhaseView::Working { job } => job is Detect || built(deploy, log),
        PhaseView::Passing { next: Some(Job::Detect), .. } => true,
        PhaseView::Passing { .. } => built(deploy, log),
        PhaseView::Encoding => built(deploy, log),
        PhaseView::Storing { json } => built(deploy, log) && encoded(deploy, log, json),
        PhaseView::Failing { stage, .. } => built_by(deploy, log, stage),
        PhaseView::Unwinding { stage, .. } => built_by(deploy, log, stage),
        PhaseView::Finishing { outcome } => built_by(deploy, log, last_stage(outcome)),
        PhaseView::Releasing { so_far: Ok(outcome) } => built_by(deploy, log, last_stage(outcome)),
        PhaseView::Ended { result: Ok(outcome) } => built_by(deploy, log, last_stage(outcome)),
        _ => true,
    }
}

/// What was asked and replied once stays so.
pub proof fn lemma_happened<Plan>(
    log: Seq<Exchange<Plan>>,
    request: RequestView<Plan>,
    reply: ReplyView<Plan>,
)
    ensures
        happened(log.push(Exchange { request, reply }), request, reply),
        forall|earlier: Exchange<Plan>| #[trigger]
            log.contains(earlier) ==> log.push(Exchange { request, reply }).contains(earlier),
{
    let longer = log.push(Exchange { request, reply });
    assert(longer.last() == Exchange { request, reply });
    assert(longer.contains(longer.last()));
    assert forall|earlier: Exchange<Plan>| #[trigger] log.contains(earlier) implies longer.contains(
        earlier,
    ) by {
        let i = choose|i: int| 0 <= i < log.len() && log[i] == earlier;
        assert(longer[i] == earlier);
    }
}

/// What the stages hand on is handed on.
pub proof fn lemma_handed_on<Plan>(scene: DeployScene<Plan>)
    requires
        coherent(scene.deploy),
        handed_on(scene),
    ensures
        handed_on(scene.next()),
{
    if !scene.stands() {
        let request = scene.deploy.request()->0;
        let reply = scene.ctx.reply(request)->0;
        law_reply_is_admitted(scene.ctx, request);
        lemma_happened(scene.log, request, reply);
        let next = scene.next();
        if built(scene.deploy, scene.log) && next.deploy.spec == scene.deploy.spec {
            let plan = choose|plan: Plan|
                #![trigger detected(scene.deploy, scene.log, plan)]
                detected(scene.deploy, scene.log, plan) && happened(
                    scene.log,
                    RequestView::Host(HostCallView::Build { plan, slug: scene.deploy.slug }),
                    ReplyView::Host(HostReplyView::Image(scene.deploy.spec.image)),
                );
            assert(detected(next.deploy, next.log, plan));
            assert(built(next.deploy, next.log));
        }
        if let PhaseView::Working { job: Job::Build { plan } } = scene.deploy.phase {
            assert(detected(next.deploy, next.log, plan));
        }
        if let PhaseView::Passing { next: Some(Job::Build { plan }), .. } = scene.deploy.phase {
            assert(detected(next.deploy, next.log, plan));
        }
        if let PhaseView::Advancing { job: Job::Build { plan } } = scene.deploy.phase {
            assert(detected(next.deploy, next.log, plan));
        }
        if let PhaseView::Starting { job: Job::Build { plan } } = scene.deploy.phase {
            assert(detected(next.deploy, next.log, plan));
        }
    }
}

/// The specs stay what they have to be.
pub proof fn lemma_specs_kept<Plan>(before: StoreView, scene: DeployScene<Plan>)
    requires
        coherent(scene.deploy),
        handed_on(scene),
        specs_kept(before, scene),
    ensures
        specs_kept(before, scene.next()),
{
    if !scene.stands() {
        let request = scene.deploy.request()->0;
        let reply = scene.ctx.reply(request)->0;
        law_reply_is_admitted(scene.ctx, request);
        lemma_happened(scene.log, request, reply);
        let next = scene.next();
        if spec_stored(before, scene) && next.deploy.spec == scene.deploy.spec
            && next.ctx.store.specs == scene.ctx.store.specs {
            let json = choose|json: Seq<char>|
                #![trigger encoded(scene.deploy, scene.log, json)]
                encoded(scene.deploy, scene.log, json) && scene.ctx.store.specs == with_spec(
                    before,
                    scene.deploy,
                    json,
                );
            assert(encoded(next.deploy, next.log, json));
            assert(spec_stored(before, next));
        }
        if let PhaseView::Storing { json } = scene.deploy.phase {
            assert(encoded(next.deploy, next.log, json));
        }
    }
}

/// Whether the spec to go back to is the one that the ledger held for the app.
pub open spec fn remembered<Plan>(before: StoreView, scene: DeployScene<Plan>) -> bool {
    let name = scene.deploy.spec.name;
    match scene.deploy.phase {
        PhaseView::Loading => scene.deploy.previous is None,
        PhaseView::Decoding { json } => {
            &&& scene.deploy.previous is None
            &&& before.specs.contains_key(name)
            &&& before.specs[name].json == json
        },
        PhaseView::Releasing { so_far: Err(_) } => true,
        PhaseView::Ended { result: Err(_) } => true,
        _ => loaded(before, scene),
    }
}

/// Whether the spec to go back to is what the codec made of the one that the
/// ledger held for the app, or none where it held none.
pub open spec fn loaded<Plan>(before: StoreView, scene: DeployScene<Plan>) -> bool {
    let name = scene.deploy.spec.name;
    match scene.deploy.previous {
        None => !before.specs.contains_key(name),
        Some(spec) => before.specs.contains_key(name) && happened(
            scene.log,
            RequestView::Codec(CodecCallView::Decode { json: before.specs[name].json }),
            ReplyView::Codec(CodecReplyView::Spec(spec)),
        ),
    }
}

/// The spec to go back to stays the one that the ledger held.
pub proof fn lemma_remembered<Plan>(before: StoreView, scene: DeployScene<Plan>)
    requires
        coherent(scene.deploy),
        specs_kept(before, scene),
        remembered(before, scene),
    ensures
        remembered(before, scene.next()),
{
    if !scene.stands() {
        let request = scene.deploy.request()->0;
        let reply = scene.ctx.reply(request)->0;
        law_reply_is_admitted(scene.ctx, request);
        lemma_happened(scene.log, request, reply);
    }
}

/// Why a stage failed, as the host replied.
pub open spec fn reason<Plan>(reply: HostReplyView<Plan>) -> Option<Seq<char>> {
    match reply {
        HostReplyView::Failed(error) => Some(one_line(error)),
        HostReplyView::TimedOut => Some(one_line(cap_exceeded())),
        _ => None,
    }
}

/// Whether a stage asks this of the host.
pub open spec fn asks<Plan>(
    deploy: DeploymentView<Plan>,
    stage: Stage,
    call: HostCallView<Plan>,
) -> bool {
    match stage {
        Stage::Build => call matches HostCallView::Build { slug, .. } && slug == deploy.slug,
        Stage::Detect => deploy.work(Job::Detect) == Some(call),
        Stage::Secrets => deploy.work(Job::Secrets) == Some(call),
        Stage::Apply => deploy.work(Job::Apply) == Some(call),
        Stage::Route => deploy.work(Job::Route) == Some(call),
        Stage::Healthcheck => deploy.work(Job::Healthcheck) == Some(call),
    }
}

/// Whether the host replied to what the stage asked that it failed, for this
/// reason.
pub open spec fn blamed<Plan>(
    deploy: DeploymentView<Plan>,
    log: Seq<Exchange<Plan>>,
    stage: Stage,
    cause: Seq<char>,
) -> bool {
    exists|call: HostCallView<Plan>, reply: HostReplyView<Plan>|
        {
            &&& #[trigger] happened(log, RequestView::Host(call), ReplyView::Host(reply))
            &&& asks(deploy, stage, call)
            &&& reason(reply) == Some(cause)
        }
}

/// Whether the host replied to something that undoes the stage that it failed,
/// for this reason.
pub open spec fn not_undone<Plan>(
    deploy: DeploymentView<Plan>,
    log: Seq<Exchange<Plan>>,
    stage: Stage,
    undoing: Seq<Seq<char>>,
) -> bool {
    exists|call: HostCallView<Plan>|
        {
            &&& #[trigger] happened(
                log,
                RequestView::Host(call),
                ReplyView::Host(HostReplyView::Failed(undoing)),
            )
            &&& compensation::<Plan>(
                deploy.spec.name,
                deploy.slug,
                deploy.previous,
                stage,
            ).contains(call)
        }
}

/// Whether the cause of an outcome is why the host failed.
pub open spec fn justified<Plan>(
    deploy: DeploymentView<Plan>,
    log: Seq<Exchange<Plan>>,
    outcome: DeployOutcomeView,
) -> bool {
    match outcome {
        DeployOutcomeView::Done { .. } => true,
        DeployOutcomeView::RolledBack { failed_at, cause } => blamed(
            deploy,
            log,
            failed_at,
            cause,
        ),
        DeployOutcomeView::Failed { failed_at, cause } => exists|
            why: Seq<char>,
            undoing: Seq<Seq<char>>,
        |
            {
                &&& cause == #[trigger] both_causes(why, undoing)
                &&& blamed(deploy, log, failed_at, why)
                &&& not_undone(deploy, log, failed_at, undoing)
            },
    }
}

/// Whether the error is the failure of a request to the store, or one of the
/// codec with what was being done.
pub open spec fn explained<Plan>(log: Seq<Exchange<Plan>>, error: Seq<Seq<char>>) -> bool {
    ||| exists|call: StoreCallView| #[trigger]
        happened(log, RequestView::Store(call), ReplyView::Store(StoreReplyView::Failed(error)))
    ||| exists|call: CodecCallView, inner: Seq<Seq<char>>|
        {
            &&& #[trigger] happened(
                log,
                RequestView::Codec(call),
                ReplyView::Codec(CodecReplyView::Failed(inner)),
            )
            &&& error == (if call is Decode {
                seq!["parsing the previously stored spec"@]
            } else {
                seq!["serializing the deployed spec"@]
            }) + inner
        }
}

/// Whether every cause and every error of a deploy goes back to a reply.
pub open spec fn accounted_for<Plan>(scene: DeployScene<Plan>) -> bool {
    let deploy = scene.deploy;
    let log = scene.log;
    match deploy.phase {
        PhaseView::Failing { stage, cause } => blamed(deploy, log, stage, cause),
        PhaseView::Unwinding { stage, cause, .. } => blamed(deploy, log, stage, cause),
        PhaseView::Finishing { outcome } => justified(deploy, log, outcome),
        PhaseView::Releasing { so_far: Ok(outcome) } => justified(deploy, log, outcome),
        PhaseView::Releasing { so_far: Err(RunErrorView::Internal(error)) } => explained(
            log,
            error,
        ),
        PhaseView::Ended { result: Ok(outcome) } => justified(deploy, log, outcome),
        PhaseView::Ended { result: Err(RunErrorView::Internal(error)) } => explained(log, error),
        _ => true,
    }
}

/// What was blamed stays blamed.
pub proof fn lemma_blamed<Plan>(
    scene: DeployScene<Plan>,
    next: DeployScene<Plan>,
    stage: Stage,
    cause: Seq<char>,
)
    requires
        blamed(scene.deploy, scene.log, stage, cause),
        next.deploy == scene.deploy.with(next.deploy.phase),
        next.log.len() == scene.log.len() + 1,
        next.log.drop_last() == scene.log,
    ensures
        blamed(next.deploy, next.log, stage, cause),
{
    let (call, reply) = choose|call: HostCallView<Plan>, reply: HostReplyView<Plan>|
        {
            &&& #[trigger] happened(scene.log, RequestView::Host(call), ReplyView::Host(reply))
            &&& asks(scene.deploy, stage, call)
            &&& reason(reply) == Some(cause)
        };
    assert(next.log =~= scene.log.push(next.log.last()));
    lemma_happened(scene.log, next.log.last().request, next.log.last().reply);
    assert(happened(next.log, RequestView::Host(call), ReplyView::Host(reply)));
}

/// What was not undone stays not undone.
pub proof fn lemma_not_undone<Plan>(
    scene: DeployScene<Plan>,
    next: DeployScene<Plan>,
    stage: Stage,
    undoing: Seq<Seq<char>>,
)
    requires
        not_undone(scene.deploy, scene.log, stage, undoing),
        next.deploy == scene.deploy.with(next.deploy.phase),
        next.log.len() == scene.log.len() + 1,
        next.log.drop_last() == scene.log,
    ensures
        not_undone(next.deploy, next.log, stage, undoing),
{
    let call = choose|call: HostCallView<Plan>|
        {
            &&& #[trigger] happened(
                scene.log,
                RequestView::Host(call),
                ReplyView::Host(HostReplyView::Failed(undoing)),
            )
            &&& compensation::<Plan>(
                scene.deploy.spec.name,
                scene.deploy.slug,
                scene.deploy.previous,
                stage,
            ).contains(call)
        };
    assert(next.log =~= scene.log.push(next.log.last()));
    lemma_happened(scene.log, next.log.last().request, next.log.last().reply);
    assert(happened(
        next.log,
        RequestView::Host(call),
        ReplyView::Host(HostReplyView::Failed(undoing)),
    ));
}

/// What was justified stays justified.
pub proof fn lemma_justified<Plan>(
    scene: DeployScene<Plan>,
    next: DeployScene<Plan>,
    outcome: DeployOutcomeView,
)
    requires
        justified(scene.deploy, scene.log, outcome),
        next.deploy == scene.deploy.with(next.deploy.phase),
        next.log.len() == scene.log.len() + 1,
        next.log.drop_last() == scene.log,
    ensures
        justified(next.deploy, next.log, outcome),
{
    match outcome {
        DeployOutcomeView::Done { .. } => {},
        DeployOutcomeView::RolledBack { failed_at, cause } => lemma_blamed(
            scene,
            next,
            failed_at,
            cause,
        ),
        DeployOutcomeView::Failed { failed_at, cause } => {
            let (why, undoing) = choose|why: Seq<char>, undoing: Seq<Seq<char>>|
                {
                    &&& cause == #[trigger] both_causes(why, undoing)
                    &&& blamed(scene.deploy, scene.log, failed_at, why)
                    &&& not_undone(scene.deploy, scene.log, failed_at, undoing)
                };
            lemma_blamed(scene, next, failed_at, why);
            lemma_not_undone(scene, next, failed_at, undoing);
        },
    }
}

/// What was explained stays explained.
pub proof fn lemma_explained<Plan>(
    log: Seq<Exchange<Plan>>,
    request: RequestView<Plan>,
    reply: ReplyView<Plan>,
    error: Seq<Seq<char>>,
)
    requires
        explained(log, error),
    ensures
        explained(log.push(Exchange { request, reply }), error),
{
    let longer = log.push(Exchange { request, reply });
    lemma_happened(log, request, reply);
    if exists|call: StoreCallView| #[trigger]
        happened(log, RequestView::Store(call), ReplyView::Store(StoreReplyView::Failed(error))) {
        let call = choose|call: StoreCallView| #[trigger]
            happened(
                log,
                RequestView::Store(call),
                ReplyView::Store(StoreReplyView::Failed(error)),
            );
        assert(happened(
            longer,
            RequestView::Store(call),
            ReplyView::Store(StoreReplyView::Failed(error)),
        ));
    } else {
        let (call, inner) = choose|call: CodecCallView, inner: Seq<Seq<char>>|
            {
                &&& #[trigger] happened(
                    log,
                    RequestView::Codec(call),
                    ReplyView::Codec(CodecReplyView::Failed(inner)),
                )
                &&& error == (if call is Decode {
                    seq!["parsing the previously stored spec"@]
                } else {
                    seq!["serializing the deployed spec"@]
                }) + inner
            };
        assert(happened(
            longer,
            RequestView::Codec(call),
            ReplyView::Codec(CodecReplyView::Failed(inner)),
        ));
    }
}

/// Every cause and every error goes on going back to a reply.
pub proof fn lemma_accounted_for<Plan>(scene: DeployScene<Plan>)
    requires
        coherent(scene.deploy),
        accounted_for(scene),
    ensures
        accounted_for(scene.next()),
{
    if !scene.stands() {
        let request = scene.deploy.request()->0;
        let reply = scene.ctx.reply(request)->0;
        law_reply_is_admitted(scene.ctx, request);
        lemma_happened(scene.log, request, reply);
        let next = scene.next();
        assert(next.log.drop_last() =~= scene.log);
        match scene.deploy.phase {
            PhaseView::Working { job } => {
                if let RequestView::Host(call) = request {
                    if let ReplyView::Host(reply) = reply {
                        assert(happened(next.log, RequestView::Host(call), ReplyView::Host(reply)));
                        assert(asks(scene.deploy, job.at(), call));
                    }
                }
            },
            PhaseView::Failing { stage, cause } => lemma_blamed(scene, next, stage, cause),
            PhaseView::Unwinding { stage, cause, step } => {
                lemma_blamed(scene, next, stage, cause);
                let undoing = compensation::<Plan>(
                    scene.deploy.spec.name,
                    scene.deploy.slug,
                    scene.deploy.previous,
                    stage,
                );
                assert(undoing[undoing.len() - step.left()] == step.call::<Plan>(
                    scene.deploy.spec.name,
                    scene.deploy.slug,
                    scene.deploy.previous,
                ));
                if let ReplyView::Host(HostReplyView::Failed(error)) = reply {
                    assert(not_undone(next.deploy, next.log, stage, error));
                    assert(justified(next.deploy, next.log, next.deploy.phase->Finishing_outcome));
                }
            },
            PhaseView::Finishing { outcome } => lemma_justified(scene, next, outcome),
            PhaseView::Releasing { so_far: Ok(outcome) } => lemma_justified(scene, next, outcome),
            PhaseView::Releasing { so_far: Err(RunErrorView::Internal(error)) } => lemma_explained(
                scene.log,
                request,
                reply,
                error,
            ),
            _ => {},
        }
    }
}

} // verus!
