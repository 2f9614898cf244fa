//! Everything that a deploy asks for, from the first request to the last.

use crate::ctx::{law_reply_is_admitted, CtxView};
use crate::deployment::{DeploymentView, Job, PhaseView, RunErrorView};
use crate::laws::deploys::{deployed, lemma_kept};
use crate::laws::evidence::specs_kept;
use crate::laws::ledger::{coherent, ready, same};
use crate::model::{DeployOutcomeView, DeployStatus, EventKind, EventStatus, EventView, Stage};
use crate::protocol::{
    CodecCallView, CodecReplyView, HostCallView, HostReplyView, ReplyView, RequestView,
    StoreCallView, StoreReplyView,
};
use crate::run::{DeployScene, Exchange};
use crate::spec::{slug_of, WorkloadSpecView};
use crate::store::StoreView;
use crate::text::one_line;
use vstd::prelude::*;

verus! {

/// Everything that was asked for, in order.
pub open spec fn asked<Plan>(log: Seq<Exchange<Plan>>) -> Seq<RequestView<Plan>> {
    log.map_values(|exchange: Exchange<Plan>| exchange.request)
}

/// What decides what a deploy asks for: what it was started with, what the
/// ledger held of its app, and what the host and the codec replied.
pub struct Course<Plan> {
    pub deploy_id: i64,
    pub repo: Seq<u8>,
    pub spec: WorkloadSpecView,
    /// The spec that the ledger held, as text.
    pub stored: Option<Seq<char>>,
    /// The spec that the ledger held, as the codec read it.
    pub previous: Option<WorkloadSpecView>,
    /// What Detect found out.
    pub plan: Plan,
    /// What Build built.
    pub image: Seq<char>,
}

/// The course of a deploy, as far as the replies in the log decide it: the
/// codec replies second, if the ledger held a spec, and the host replies to
/// Detect and to Build third and seventh after that.
pub open spec fn course<Plan>(
    before: StoreView,
    spec: WorkloadSpecView,
    repo: Seq<u8>,
    deploy_id: i64,
    log: Seq<Exchange<Plan>>,
) -> Course<Plan> {
    let held = before.specs.contains_key(spec.name);
    let first: int = if held {
        2
    } else {
        1
    };
    Course {
        deploy_id,
        repo,
        spec,
        stored: if held {
            Some(before.specs[spec.name].json)
        } else {
            None
        },
        previous: if held {
            Some(log[1].reply->Codec_0->Spec_0)
        } else {
            None
        },
        plan: log[first + 2].reply->Host_0->Plan_0,
        image: log[first + 6].reply->Host_0->Image_0,
    }
}

impl<Plan> Course<Plan> {
    /// The spec with the image that was built.
    pub open spec fn ran(self) -> WorkloadSpecView {
        WorkloadSpecView { image: self.image, ..self.spec }
    }

    /// The spec that the ledger holds is read first.
    pub open spec fn opens(self) -> Seq<RequestView<Plan>> {
        let reads = RequestView::Store(StoreCallView::CurrentSpec { name: self.spec.name });
        match self.stored {
            None => seq![reads],
            Some(json) => seq![reads, RequestView::Codec(CodecCallView::Decode { json })],
        }
    }

    /// That something happened to a stage is stored.
    pub open spec fn tells(
        self,
        stage: Stage,
        status: EventStatus,
        detail: Option<Seq<char>>,
    ) -> RequestView<Plan> {
        RequestView::Store(
            StoreCallView::AppendEvent {
                event: EventView {
                    deploy_id: self.deploy_id,
                    kind: EventKind::Stage { stage, status },
                    detail,
                },
            },
        )
    }

    /// The row is advanced to a stage, and that it started is stored.
    pub open spec fn enters(self, stage: Stage) -> Seq<RequestView<Plan>> {
        seq![
            RequestView::Store(StoreCallView::AdvanceStage { deploy_id: self.deploy_id, stage }),
            self.tells(stage, EventStatus::Started, None),
        ]
    }

    /// What a stage has the host do, if it has it do anything.
    pub open spec fn has_done(self, stage: Stage) -> Seq<HostCallView<Plan>> {
        match stage {
            Stage::Detect => seq![HostCallView::Detect { repo: self.repo }],
            Stage::Build => seq![
                HostCallView::Build { plan: self.plan, slug: slug_of(self.spec.name) },
            ],
            Stage::Secrets => seq![HostCallView::EnsureSecrets { names: self.spec.secrets }],
            Stage::Apply => seq![HostCallView::Apply { spec: self.ran() }],
            Stage::Route => match self.spec.route {
                Some(route) => seq![
                    HostCallView::ApplyRoute { slug: slug_of(self.spec.name), route },
                ],
                None => Seq::empty(),
            },
            Stage::Healthcheck => seq![HostCallView::Healthcheck { spec: self.ran(), cap: 90 }],
        }
    }

    /// A stage, up to the reply of the host.
    pub open spec fn tries(self, stage: Stage) -> Seq<RequestView<Plan>> {
        self.enters(stage) + of_host(self.has_done(stage))
    }

    /// A stage that passes.
    pub open spec fn passes(self, stage: Stage) -> Seq<RequestView<Plan>> {
        self.tries(stage).push(self.tells(stage, EventStatus::Succeeded, None))
    }

    /// Everything before a stage.
    pub open spec fn until(self, stage: Stage) -> Seq<RequestView<Plan>> {
        let detected = self.opens() + self.passes(Stage::Detect);
        let built = detected + self.passes(Stage::Build);
        let secured = built + self.passes(Stage::Secrets);
        let applied = secured + self.passes(Stage::Apply);
        let routed = applied + self.passes(Stage::Route);
        match stage {
            Stage::Detect => self.opens(),
            Stage::Build => detected,
            Stage::Secrets => built,
            Stage::Apply => secured,
            Stage::Route => applied,
            Stage::Healthcheck => routed,
        }
    }

    /// Everything up to a stage that fails, and that it failed.
    pub open spec fn fails(self, stage: Stage, cause: Seq<char>) -> Seq<RequestView<Plan>> {
        (self.until(stage) + self.tries(stage)).push(
            self.tells(stage, EventStatus::Failed, Some(cause)),
        )
    }

    /// What brings the unit back that ran before: the spec that the ledger held
    /// is applied, and where it held none, the unit is removed.
    pub open spec fn restores_unit(self) -> HostCallView<Plan> {
        match self.previous {
            Some(spec) => HostCallView::Apply { spec },
            None => HostCallView::Remove { name: self.spec.name },
        }
    }

    /// What brings the route back that was served before: the one of the spec
    /// that the ledger held is applied, and where it held none, or one without a
    /// route, the route is removed.
    pub open spec fn restores_route(self) -> HostCallView<Plan> {
        match self.previous {
            Some(WorkloadSpecView { route: Some(route), .. }) => HostCallView::ApplyRoute {
                slug: slug_of(self.spec.name),
                route,
            },
            _ => HostCallView::RemoveRoute { slug: slug_of(self.spec.name) },
        }
    }

    /// What undoes a stage that failed.
    pub open spec fn undoes(self, stage: Stage) -> Seq<HostCallView<Plan>> {
        match stage {
            Stage::Detect | Stage::Build | Stage::Secrets => Seq::empty(),
            Stage::Apply => seq![self.restores_unit()],
            Stage::Route | Stage::Healthcheck => seq![
                self.restores_route(),
                self.restores_unit(),
            ],
        }
    }

    /// Every stage, and then the spec is stored as the one that runs.
    pub open spec fn succeeds(self, json: Seq<char>) -> Seq<RequestView<Plan>> {
        (self.until(Stage::Healthcheck) + self.passes(Stage::Healthcheck)).push(
            RequestView::Codec(CodecCallView::Encode { spec: self.ran() }),
        ).push(
            RequestView::Store(
                StoreCallView::PutSpec {
                    name: self.spec.name,
                    slug: slug_of(self.spec.name),
                    json,
                },
            ),
        )
    }

    /// The end is stored.
    pub open spec fn ends(self, status: DeployStatus, detail: Option<Seq<char>>) -> RequestView<
        Plan,
    > {
        RequestView::Store(
            StoreCallView::FinishDeployWithEvent { deploy_id: self.deploy_id, status, detail },
        )
    }

    /// The lock is given back.
    pub open spec fn releases(self) -> RequestView<Plan> {
        RequestView::Store(StoreCallView::ReleaseLock { name: self.spec.name })
    }
}

/// The requests, made of the host.
pub open spec fn of_host<Plan>(calls: Seq<HostCallView<Plan>>) -> Seq<RequestView<Plan>> {
    calls.map_values(|call: HostCallView<Plan>| RequestView::Host(call))
}

/// Whether the host failed what was asked for at this point of the log, and why:
/// as it says itself, or because a health check exceeded its cap.
pub open spec fn failed_because<Plan>(
    log: Seq<Exchange<Plan>>,
    at: int,
    cause: Seq<char>,
) -> bool {
    match log[at].reply {
        ReplyView::Host(HostReplyView::Failed(error)) => cause == one_line(error),
        ReplyView::Host(HostReplyView::TimedOut) => cause
            == "healthcheck stage exceeded its 90s hard cap"@,
        _ => false,
    }
}

/// Whether `log` is a deploy up to a stage that failed for this reason, and then
/// `undone`, and nothing else.
pub open spec fn broke_off<Plan>(
    course: Course<Plan>,
    log: Seq<Exchange<Plan>>,
    stage: Stage,
    cause: Seq<char>,
    undone: Seq<HostCallView<Plan>>,
) -> bool {
    &&& asked(log) == course.fails(stage, cause) + of_host(undone)
    &&& failed_because(log, course.fails(stage, cause).len() - 2, cause)
}

/// Whether the host did what it was asked for from one point of the log to
/// another.
pub open spec fn all_done<Plan>(log: Seq<Exchange<Plan>>, from: int, to: int) -> bool {
    forall|i: int|
        from <= i < to && i < log.len() ==> (#[trigger] log[i]).reply == ReplyView::<Plan>::Host(
            HostReplyView::Done,
        )
}

/// Whether this is all that a deploy with an outcome asked for before its end was
/// stored.
pub open spec fn led_to<Plan>(
    course: Course<Plan>,
    log: Seq<Exchange<Plan>>,
    outcome: DeployOutcomeView,
) -> bool {
    match outcome {
        DeployOutcomeView::Done { image } => {
            &&& image == course.image
            &&& log.len() >= 2
            &&& asked(log) == course.succeeds(log[log.len() - 2].reply->Codec_0->Json_0)
        },
        DeployOutcomeView::RolledBack { failed_at, cause } => {
            &&& broke_off(course, log, failed_at, cause, course.undoes(failed_at))
            &&& all_done(log, course.fails(failed_at, cause).len() as int, log.len() as int)
        },
        DeployOutcomeView::Failed { failed_at, cause } => exists|why: Seq<char>, count: int|
            {
                &&& 0 < count <= course.undoes(failed_at).len()
                &&& #[trigger] broke_off(
                    course,
                    log,
                    failed_at,
                    why,
                    course.undoes(failed_at).take(count),
                )
                &&& all_done(log, course.fails(failed_at, why).len() as int, log.len() - 1)
                &&& log.last().reply matches ReplyView::Host(HostReplyView::Failed(error))
                &&& cause == why + "; compensation also failed: "@ + one_line(error)
            },
    }
}

/// How an outcome is stored.
pub open spec fn stored_as<Plan>(course: Course<Plan>, outcome: DeployOutcomeView) -> RequestView<
    Plan,
> {
    match outcome {
        DeployOutcomeView::Done { .. } => course.ends(DeployStatus::Done, None),
        DeployOutcomeView::RolledBack { cause, .. } => course.ends(
            DeployStatus::RolledBack,
            Some(cause),
        ),
        DeployOutcomeView::Failed { cause, .. } => course.ends(DeployStatus::Failed, Some(cause)),
    }
}

/// Whether a deploy has asked for what it has to have asked for in its phase.
pub open spec fn follows<Plan>(course: Course<Plan>, scene: DeployScene<Plan>) -> bool {
    let deploy = scene.deploy;
    let log = scene.log;
    match deploy.phase {
        PhaseView::Loading => log.len() == 0,
        PhaseView::Decoding { json } => {
            &&& course.stored == Some(json)
            &&& asked(log) == course.opens().take(1)
        },
        PhaseView::Advancing { job } => {
            &&& asked(log) == course.until(job.at())
            &&& handed(course, deploy, job)
        },
        PhaseView::Starting { job } => {
            &&& asked(log) == course.until(job.at()) + course.enters(job.at()).take(1)
            &&& handed(course, deploy, job)
        },
        PhaseView::Working { job } => {
            &&& asked(log) == course.until(job.at()) + course.enters(job.at())
            &&& handed(course, deploy, job)
        },
        PhaseView::Passing { stage, next } => {
            &&& asked(log) == course.until(stage) + course.tries(stage)
            &&& deploy.previous == course.previous
            &&& match next {
                Some(job) => handed(course, deploy, job),
                None => deploy.spec == course.ran(),
            }
        },
        PhaseView::Failing { stage, cause } => {
            let so_far = course.until(stage) + course.tries(stage);
            &&& asked(log) == so_far
            &&& deploy.previous == course.previous
            &&& failed_because(log, so_far.len() - 1, cause)
        },
        PhaseView::Unwinding { stage, cause, step } => {
            let undoing = course.undoes(stage);
            &&& broke_off(course, log, stage, cause, undoing.take(undoing.len() - step.left()))
            &&& all_done(log, course.fails(stage, cause).len() as int, log.len() as int)
            &&& deploy.previous == course.previous
        },
        PhaseView::Encoding => {
            &&& asked(log) == course.until(Stage::Healthcheck) + course.passes(Stage::Healthcheck)
            &&& deploy.spec == course.ran()
        },
        PhaseView::Storing { json } => {
            &&& asked(log) == course.succeeds(json).drop_last()
            &&& log.last().reply == ReplyView::<Plan>::Codec(CodecReplyView::Json(json))
            &&& deploy.spec == course.ran()
        },
        PhaseView::Finishing { outcome } => led_to(course, log, outcome),
        PhaseView::Releasing { so_far: Ok(outcome) } => {
            &&& log.len() > 0
            &&& led_to(course, log.drop_last(), outcome)
            &&& log.last().request == stored_as(course, outcome)
        },
        PhaseView::Ended { result: Ok(outcome) } => {
            &&& log.len() > 1
            &&& led_to(course, log.drop_last().drop_last(), outcome)
            &&& log[log.len() - 2].request == stored_as(course, outcome)
            &&& log.last().request == course.releases()
        },
        _ => true,
    }
}

/// Whether the work of a stage is handed what the course says.
pub open spec fn handed<Plan>(
    course: Course<Plan>,
    deploy: DeploymentView<Plan>,
    job: Job<Plan>,
) -> bool {
    &&& deploy.previous == course.previous
    &&& match job {
        Job::Detect => true,
        Job::Build { plan } => plan == course.plan,
        _ => deploy.spec == course.ran(),
    }
}

/// One more request.
proof fn lemma_asked<Plan>(log: Seq<Exchange<Plan>>, exchange: Exchange<Plan>)
    ensures
        asked(log.push(exchange)) == asked(log).push(exchange.request),
        asked(log).len() == log.len(),
{
    assert(asked(log.push(exchange)) =~= asked(log).push(exchange.request));
}

/// How many requests there are before the host is asked for the first time.
proof fn lemma_lengths<Plan>(course: Course<Plan>)
    ensures
        ({
            let first: int = if course.stored is Some {
                2
            } else {
                1
            };
            &&& course.opens().len() == first
            &&& course.until(Stage::Detect).len() == first
            &&& course.until(Stage::Build).len() == first + 4
            &&& course.until(Stage::Secrets).len() == first + 8
            &&& course.until(Stage::Apply).len() == first + 12
            &&& course.until(Stage::Route).len() == first + 16
            &&& course.until(Stage::Healthcheck).len() >= first + 19
        }),
        forall|stage: Stage| #[trigger] course.enters(stage).len() == 2,
{
}

/// What something starts with, it starts with when it goes on.
proof fn lemma_starts<A>(start: Seq<A>, so_far: Seq<A>, rest: Seq<A>, one: A)
    requires
        start.is_prefix_of(so_far),
    ensures
        start.is_prefix_of(so_far + rest),
        start.is_prefix_of(so_far.push(one)),
{
    assert(so_far.take(start.len() as int) =~= (so_far + rest).take(start.len() as int));
    assert(so_far.take(start.len() as int) =~= so_far.push(one).take(start.len() as int));
}

/// Everything starts with the spec that the ledger holds.
proof fn lemma_opened<Plan>(course: Course<Plan>, stage: Stage)
    ensures
        course.opens().is_prefix_of(course.until(stage)),
{
    let opens = course.opens();
    let detected = opens + course.passes(Stage::Detect);
    let built = detected + course.passes(Stage::Build);
    let secured = built + course.passes(Stage::Secrets);
    let applied = secured + course.passes(Stage::Apply);
    let one = course.releases();
    lemma_starts(opens, opens, course.passes(Stage::Detect), one);
    lemma_starts(opens, detected, course.passes(Stage::Build), one);
    lemma_starts(opens, built, course.passes(Stage::Secrets), one);
    lemma_starts(opens, secured, course.passes(Stage::Apply), one);
    lemma_starts(opens, applied, course.passes(Stage::Route), one);
}

/// Everything up to a stage that failed starts with the spec that the ledger
/// holds.
proof fn lemma_broken_opened<Plan>(
    course: Course<Plan>,
    stage: Stage,
    cause: Seq<char>,
    undone: Seq<HostCallView<Plan>>,
)
    ensures
        course.opens().is_prefix_of(course.fails(stage, cause) + of_host(undone)),
{
    let tells = course.tells(stage, EventStatus::Failed, Some(cause));
    lemma_opened(course, stage);
    lemma_starts(course.opens(), course.until(stage), course.tries(stage), tells);
    lemma_starts(course.opens(), course.until(stage) + course.tries(stage), Seq::empty(), tells);
    lemma_starts(course.opens(), course.fails(stage, cause), of_host(undone), tells);
}

/// Everything that led to an outcome starts with the spec that the ledger holds.
pub proof fn lemma_outcome_opened<Plan>(
    course: Course<Plan>,
    log: Seq<Exchange<Plan>>,
    outcome: DeployOutcomeView,
)
    requires
        led_to(course, log, outcome),
    ensures
        course.opens().is_prefix_of(asked(log)),
        asked(log).len() == log.len(),
{
    match outcome {
        DeployOutcomeView::Done { .. } => {
            let json = log[log.len() - 2].reply->Codec_0->Json_0;
            let whole = course.succeeds(json);
            let last = Stage::Healthcheck;
            let passed = course.until(last) + course.passes(last);
            let encodes = RequestView::Codec(CodecCallView::Encode { spec: course.ran() });
            lemma_opened(course, last);
            lemma_starts(course.opens(), course.until(last), course.passes(last), encodes);
            lemma_starts(course.opens(), passed, Seq::empty(), encodes);
            lemma_starts(course.opens(), passed.push(encodes), Seq::empty(), whole.last());
        },
        DeployOutcomeView::RolledBack { failed_at, cause } => {
            lemma_broken_opened(course, failed_at, cause, course.undoes(failed_at));
        },
        DeployOutcomeView::Failed { failed_at, cause } => {
            let undoes = course.undoes(failed_at);
            let (why, count) = choose|why: Seq<char>, count: int|
                {
                    &&& 0 < count <= undoes.len()
                    &&& #[trigger] broke_off(course, log, failed_at, why, undoes.take(count))
                };
            lemma_broken_opened(course, failed_at, why, undoes.take(count));
        },
    }
}

/// What a reply can change in the course: only what it decides.
proof fn lemma_course<Plan>(
    before: StoreView,
    spec: WorkloadSpecView,
    repo: Seq<u8>,
    deploy_id: i64,
    log: Seq<Exchange<Plan>>,
    exchange: Exchange<Plan>,
)
    ensures
        ({
            let now = course(before, spec, repo, deploy_id, log);
            let then = course(before, spec, repo, deploy_id, log.push(exchange));
            let first: int = if now.stored is Some {
                2
            } else {
                1
            };
            &&& then.stored == now.stored
            &&& then.opens() == now.opens()
            &&& then.until(Stage::Build) == now.until(Stage::Build)
            &&& then.tries(Stage::Detect) == now.tries(Stage::Detect)
            &&& forall|stage: Stage| #[trigger] then.enters(stage) == now.enters(stage)
            &&& log.len() >= first ==> then.previous == now.previous
            &&& log.len() > first + 2 ==> {
                &&& then.plan == now.plan
                &&& then.tries(Stage::Build) == now.tries(Stage::Build)
                &&& then.until(Stage::Secrets) == now.until(Stage::Secrets)
            }
            &&& log.len() > first + 6 ==> then == now
        }),
{
}

/// Whether a deploy is where it has to be, and has asked for what it has to.
spec fn on_course<Plan>(
    before: StoreView,
    spec: WorkloadSpecView,
    repo: Seq<u8>,
    deploy_id: i64,
    scene: DeployScene<Plan>,
) -> bool {
    &&& coherent(scene.deploy)
    &&& same(DeploymentView::reserved(spec, repo, deploy_id), scene.deploy)
    &&& specs_kept(before, scene)
    &&& follows(course(before, spec, repo, deploy_id, scene.log), scene)
}

/// A deploy goes on asking for what it has to ask for while it reads the spec
/// that the ledger holds.
proof fn lemma_opens<Plan>(
    before: StoreView,
    spec: WorkloadSpecView,
    repo: Seq<u8>,
    deploy_id: i64,
    scene: DeployScene<Plan>,
)
    requires
        on_course(before, spec, repo, deploy_id, scene),
        !scene.stands(),
        scene.deploy.phase is Loading || scene.deploy.phase is Decoding,
        scene.deploy.phase is Loading ==> scene.deploy.previous is None,
    ensures
        follows(course(before, spec, repo, deploy_id, scene.next().log), scene.next()),
{
    let request = scene.deploy.request()->0;
    let reply = scene.ctx.reply(request)->0;
    law_reply_is_admitted(scene.ctx, request);
    let next = scene.next();
    let then = course(before, spec, repo, deploy_id, next.log);
    lemma_asked(scene.log, Exchange { request, reply });
    lemma_lengths(then);
    lemma_course(before, spec, repo, deploy_id, scene.log, Exchange { request, reply });
    assert(asked(next.log).last() == request);
    if scene.deploy.phase is Loading {
        assert(asked(next.log) =~= then.opens().take(1));
        assert(then.stored is None ==> asked(next.log) =~= then.opens());
    } else {
        assert(asked(next.log) =~= then.opens());
        assert(next.log[1].reply == reply);
    }
}

/// A deploy goes on asking for what it has to ask for while it enters a stage.
proof fn lemma_enters<Plan>(
    before: StoreView,
    spec: WorkloadSpecView,
    repo: Seq<u8>,
    deploy_id: i64,
    scene: DeployScene<Plan>,
)
    requires
        on_course(before, spec, repo, deploy_id, scene),
        !scene.stands(),
        scene.deploy.phase is Advancing || scene.deploy.phase is Starting,
    ensures
        follows(course(before, spec, repo, deploy_id, scene.next().log), scene.next()),
{
    let request = scene.deploy.request()->0;
    let reply = scene.ctx.reply(request)->0;
    law_reply_is_admitted(scene.ctx, request);
    let now = course(before, spec, repo, deploy_id, scene.log);
    let next = scene.next();
    let then = course(before, spec, repo, deploy_id, next.log);
    lemma_asked(scene.log, Exchange { request, reply });
    lemma_lengths(now);
    lemma_course(before, spec, repo, deploy_id, scene.log, Exchange { request, reply });
    let job = match scene.deploy.phase {
        PhaseView::Advancing { job } => job,
        PhaseView::Starting { job } => job,
        _ => Job::Detect,
    };
    let stage = job.at();
    assert(then.until(stage) == now.until(stage));
    if scene.deploy.phase is Advancing {
        assert(asked(next.log) =~= then.until(stage) + then.enters(stage).take(1));
    } else {
        assert(asked(next.log) =~= then.until(stage) + then.enters(stage));
        if job is Route && spec.route is None {
            assert(then.enters(stage) =~= then.tries(stage));
        }
    }
}

/// A deploy goes on asking for what it has to ask for while a stage runs.
proof fn lemma_tries<Plan>(
    before: StoreView,
    spec: WorkloadSpecView,
    repo: Seq<u8>,
    deploy_id: i64,
    scene: DeployScene<Plan>,
)
    requires
        on_course(before, spec, repo, deploy_id, scene),
        !scene.stands(),
        scene.deploy.phase is Working,
    ensures
        follows(course(before, spec, repo, deploy_id, scene.next().log), scene.next()),
{
    let request = scene.deploy.request()->0;
    let reply = scene.ctx.reply(request)->0;
    law_reply_is_admitted(scene.ctx, request);
    let now = course(before, spec, repo, deploy_id, scene.log);
    let next = scene.next();
    let then = course(before, spec, repo, deploy_id, next.log);
    lemma_asked(scene.log, Exchange { request, reply });
    lemma_lengths(now);
    lemma_course(before, spec, repo, deploy_id, scene.log, Exchange { request, reply });
    let job = scene.deploy.phase->Working_job;
    let stage = job.at();
    assert(then.until(stage) == now.until(stage));
    assert(of_host(now.has_done(stage)) =~= seq![request]);
    assert(then.tries(stage) == now.tries(stage));
    assert(asked(next.log) =~= then.until(stage) + then.tries(stage));
    assert(next.log.last().reply == reply);
    assert(next.log[next.log.len() - 1].reply == reply);
    assert(one_line(crate::deployment::cap_exceeded())
        == "healthcheck stage exceeded its 90s hard cap"@) by {
        reveal_with_fuel(one_line, 2);
    }
}

/// A deploy goes on asking for what it has to ask for while a stage passes.
proof fn lemma_passes<Plan>(
    before: StoreView,
    spec: WorkloadSpecView,
    repo: Seq<u8>,
    deploy_id: i64,
    scene: DeployScene<Plan>,
)
    requires
        on_course(before, spec, repo, deploy_id, scene),
        !scene.stands(),
        scene.deploy.phase is Passing,
    ensures
        follows(course(before, spec, repo, deploy_id, scene.next().log), scene.next()),
{
    let request = scene.deploy.request()->0;
    let reply = scene.ctx.reply(request)->0;
    law_reply_is_admitted(scene.ctx, request);
    let now = course(before, spec, repo, deploy_id, scene.log);
    let next = scene.next();
    let then = course(before, spec, repo, deploy_id, next.log);
    lemma_asked(scene.log, Exchange { request, reply });
    lemma_lengths(now);
    lemma_course(before, spec, repo, deploy_id, scene.log, Exchange { request, reply });
    let stage = scene.deploy.phase->Passing_stage;
    assert(then.until(stage) == now.until(stage));
    assert(then.tries(stage) == now.tries(stage));
    assert(asked(next.log) =~= then.until(stage) + then.passes(stage));
}

/// A deploy goes on asking for what it has to ask for while it is undone.
proof fn lemma_undoes<Plan>(
    before: StoreView,
    spec: WorkloadSpecView,
    repo: Seq<u8>,
    deploy_id: i64,
    scene: DeployScene<Plan>,
)
    requires
        on_course(before, spec, repo, deploy_id, scene),
        !scene.stands(),
        scene.deploy.phase is Failing || scene.deploy.phase is Unwinding,
    ensures
        follows(course(before, spec, repo, deploy_id, scene.next().log), scene.next()),
{
    let request = scene.deploy.request()->0;
    let reply = scene.ctx.reply(request)->0;
    law_reply_is_admitted(scene.ctx, request);
    let now = course(before, spec, repo, deploy_id, scene.log);
    let next = scene.next();
    let then = course(before, spec, repo, deploy_id, next.log);
    lemma_asked(scene.log, Exchange { request, reply });
    lemma_lengths(now);
    lemma_course(before, spec, repo, deploy_id, scene.log, Exchange { request, reply });
    let (stage, cause) = match scene.deploy.phase {
        PhaseView::Failing { stage, cause } => (stage, cause),
        PhaseView::Unwinding { stage, cause, .. } => (stage, cause),
        _ => (Stage::Detect, Seq::empty()),
    };
    assert(then.previous == now.previous);
    assert(then.until(stage) == now.until(stage));
    assert(then.tries(stage) == now.tries(stage));
    assert(then.fails(stage, cause) == now.fails(stage, cause));
    let undoing = then.undoes(stage);
    assert(undoing == now.undoes(stage));
    let at = then.fails(stage, cause).len() - 2;
    assert(next.log[at] == scene.log[at]);
    assert(undoing.take(undoing.len() as int) =~= undoing);
    if let PhaseView::Unwinding { step, .. } = scene.deploy.phase {
        let i = undoing.len() - step.left();
        assert(request == RequestView::Host(undoing[i]));
        assert(of_host(undoing.take(i + 1)) =~= of_host(undoing.take(i)).push(request));
        assert(asked(next.log) =~= then.fails(stage, cause) + of_host(undoing.take(i + 1)));
        assert(broke_off(then, next.log, stage, cause, undoing.take(i + 1)));
        assert(next.log.last().reply == reply);
    } else {
        assert(asked(next.log) =~= then.fails(stage, cause) + of_host(undoing.take(0)));
        assert(broke_off(then, next.log, stage, cause, undoing.take(0)));
    }
}

/// A deploy goes on asking for what it has to ask for once every stage has
/// passed.
proof fn lemma_succeeds<Plan>(
    before: StoreView,
    spec: WorkloadSpecView,
    repo: Seq<u8>,
    deploy_id: i64,
    scene: DeployScene<Plan>,
)
    requires
        on_course(before, spec, repo, deploy_id, scene),
        !scene.stands(),
        scene.deploy.phase is Encoding || scene.deploy.phase is Storing,
    ensures
        follows(course(before, spec, repo, deploy_id, scene.next().log), scene.next()),
{
    let request = scene.deploy.request()->0;
    let reply = scene.ctx.reply(request)->0;
    law_reply_is_admitted(scene.ctx, request);
    let now = course(before, spec, repo, deploy_id, scene.log);
    let next = scene.next();
    let then = course(before, spec, repo, deploy_id, next.log);
    lemma_asked(scene.log, Exchange { request, reply });
    lemma_lengths(now);
    lemma_course(before, spec, repo, deploy_id, scene.log, Exchange { request, reply });
    assert(now == then);
    if let PhaseView::Storing { json } = scene.deploy.phase {
        assert(asked(next.log) =~= then.succeeds(json));
        assert(next.log[next.log.len() - 2] == scene.log.last());
    } else if let ReplyView::Codec(CodecReplyView::Json(json)) = reply {
        assert(asked(next.log) =~= then.succeeds(json).drop_last());
        assert(next.log.last().reply == reply);
    }
}

/// A deploy goes on asking for what it has to ask for while it ends.
proof fn lemma_ends<Plan>(
    before: StoreView,
    spec: WorkloadSpecView,
    repo: Seq<u8>,
    deploy_id: i64,
    scene: DeployScene<Plan>,
)
    requires
        on_course(before, spec, repo, deploy_id, scene),
        !scene.stands(),
        scene.deploy.phase is Finishing || scene.deploy.phase is Releasing,
    ensures
        follows(course(before, spec, repo, deploy_id, scene.next().log), scene.next()),
{
    let request = scene.deploy.request()->0;
    let reply = scene.ctx.reply(request)->0;
    law_reply_is_admitted(scene.ctx, request);
    let now = course(before, spec, repo, deploy_id, scene.log);
    let next = scene.next();
    let then = course(before, spec, repo, deploy_id, next.log);
    lemma_asked(scene.log, Exchange { request, reply });
    lemma_lengths(now);
    lemma_course(before, spec, repo, deploy_id, scene.log, Exchange { request, reply });
    assert(next.log.drop_last() =~= scene.log);
    assert(next.log.last().request == request);
    let (outcome, log) = match scene.deploy.phase {
        PhaseView::Finishing { outcome } => (Some(outcome), scene.log),
        PhaseView::Releasing { so_far: Ok(outcome) } => (Some(outcome), scene.log.drop_last()),
        _ => (None, scene.log),
    };
    if let Some(outcome) = outcome {
        lemma_asked(log, Exchange { request, reply });
        assert(led_to(then, log, outcome)) by {
            if let DeployOutcomeView::RolledBack { failed_at: Stage::Detect, cause } = outcome {
                assert(then.previous == now.previous);
                assert(then.fails(Stage::Detect, cause) == now.fails(Stage::Detect, cause));
            } else {
                assert(then == now);
            }
        }
        if next.deploy.phase matches PhaseView::Ended { result: Ok(_) } {
            assert(next.log[next.log.len() - 2] == scene.log.last());
        }
    }
}

/// A deploy asks for what it has to ask for.
proof fn lemma_follows<Plan>(
    ctx: CtxView<Plan>,
    spec: WorkloadSpecView,
    repo: Seq<u8>,
    deploy_id: i64,
    count: nat,
)
    requires
        ready(ctx.store, spec.name, deploy_id),
    ensures
        ({
            let now = deployed(ctx, spec, repo, deploy_id, count);
            follows(course(ctx.store, spec, repo, deploy_id, now.log), now)
        }),
    decreases count,
{
    if count > 0 {
        let earlier = (count - 1) as nat;
        lemma_follows(ctx, spec, repo, deploy_id, earlier);
        let scene = deployed(ctx, spec, repo, deploy_id, earlier);
        assert(on_course(ctx.store, spec, repo, deploy_id, scene) && (scene.deploy.phase is Loading
            ==> scene.deploy.previous is None)) by {
            lemma_kept(ctx, spec, repo, deploy_id, earlier);
        }
        if !scene.stands() {
            match scene.deploy.phase {
                PhaseView::Loading => lemma_opens(ctx.store, spec, repo, deploy_id, scene),
                PhaseView::Decoding { .. } => lemma_opens(ctx.store, spec, repo, deploy_id, scene),
                PhaseView::Advancing { .. } => lemma_enters(ctx.store, spec, repo, deploy_id, scene),
                PhaseView::Starting { .. } => lemma_enters(ctx.store, spec, repo, deploy_id, scene),
                PhaseView::Working { .. } => lemma_tries(ctx.store, spec, repo, deploy_id, scene),
                PhaseView::Passing { .. } => lemma_passes(ctx.store, spec, repo, deploy_id, scene),
                PhaseView::Failing { .. } => lemma_undoes(ctx.store, spec, repo, deploy_id, scene),
                PhaseView::Unwinding { .. } => lemma_undoes(ctx.store, spec, repo, deploy_id, scene),
                PhaseView::Encoding => lemma_succeeds(ctx.store, spec, repo, deploy_id, scene),
                PhaseView::Storing { .. } => lemma_succeeds(
                    ctx.store,
                    spec,
                    repo,
                    deploy_id,
                    scene,
                ),
                PhaseView::Finishing { .. } => lemma_ends(ctx.store, spec, repo, deploy_id, scene),
                PhaseView::Releasing { .. } => lemma_ends(ctx.store, spec, repo, deploy_id, scene),
                _ => {},
            }
        }
    }
}

/// The codec is asked to read a spec only once, right after the ledger was asked
/// for it.
pub proof fn lemma_read_once<Plan>(
    ctx: CtxView<Plan>,
    spec: WorkloadSpecView,
    repo: Seq<u8>,
    deploy_id: i64,
    count: nat,
)
    requires
        ready(ctx.store, spec.name, deploy_id),
    ensures
        ({
            let log = deployed(ctx, spec, repo, deploy_id, count).log;
            forall|i: int|
                0 <= i < log.len() && (#[trigger] log[i]).request is Codec
                    && log[i].request->Codec_0 is Decode ==> i == 1
        }),
    decreases count,
{
    if count > 0 {
        let earlier = (count - 1) as nat;
        lemma_read_once(ctx, spec, repo, deploy_id, earlier);
        lemma_follows(ctx, spec, repo, deploy_id, earlier);
        let scene = deployed(ctx, spec, repo, deploy_id, earlier);
        if let PhaseView::Decoding { .. } = scene.deploy.phase {
            assert(asked(scene.log).len() == 1);
        }
    }
}

/// All that a deploy with an outcome asks for, in order, is fixed by what it was
/// started with and by the replies. It reads the spec that the ledger holds of
/// its app, and has the codec read it, if there is one. It goes through the
/// stages: the row is advanced, that the stage started is stored, the host is
/// asked, and that the stage succeeded is stored. A deploy that is done stores
/// its spec, with the image that was built, as the codec wrote it. One that is
/// not stores that the stage failed, as the host says why, and undoes it: first
/// the route, and then the unit, from Route on; the unit from Apply on; and
/// nothing before. Then the end is stored, and the lock given back.
pub proof fn law_all_that_a_deploy_asks_for<Plan>(
    ctx: CtxView<Plan>,
    spec: WorkloadSpecView,
    repo: Seq<u8>,
    deploy_id: i64,
    count: nat,
    outcome: DeployOutcomeView,
)
    requires
        ready(ctx.store, spec.name, deploy_id),
        deployed(ctx, spec, repo, deploy_id, count).deploy.result() == Some(
            Ok::<_, RunErrorView>(outcome),
        ),
    ensures
        ({
            let log = deployed(ctx, spec, repo, deploy_id, count).log;
            let course = course(ctx.store, spec, repo, deploy_id, log);
            &&& log.len() > 1
            &&& led_to(course, log.drop_last().drop_last(), outcome)
            &&& log[log.len() - 2].request == stored_as(course, outcome)
            &&& log.last().request == course.releases()
        }),
{
    lemma_follows(ctx, spec, repo, deploy_id, count);
}

/// Whether the store or the codec failed.
pub open spec fn trouble<Plan>(reply: ReplyView<Plan>) -> bool {
    match reply {
        ReplyView::Store(StoreReplyView::Failed(_)) => true,
        ReplyView::Codec(CodecReplyView::Failed(_)) => true,
        _ => false,
    }
}

/// Whether neither the store nor the codec failed in the first `count` requests.
pub open spec fn untroubled<Plan>(log: Seq<Exchange<Plan>>, count: int) -> bool {
    forall|i: int| 0 <= i < count && i < log.len() ==> !trouble((#[trigger] log[i]).reply)
}

/// The error that a failure of the store or the codec is reported as.
pub open spec fn reported<Plan>(exchange: Exchange<Plan>) -> Seq<Seq<char>> {
    match (exchange.request, exchange.reply) {
        (_, ReplyView::Store(StoreReplyView::Failed(error))) => error,
        (
            RequestView::Codec(CodecCallView::Decode { .. }),
            ReplyView::Codec(CodecReplyView::Failed(error)),
        ) => seq!["parsing the previously stored spec"@] + error,
        (_, ReplyView::Codec(CodecReplyView::Failed(error))) => seq![
            "serializing the deployed spec"@,
        ] + error,
        _ => Seq::empty(),
    }
}

/// Whether a deploy is given up at the first failure of the store or the codec,
/// and only then.
pub open spec fn gives_up<Plan>(scene: DeployScene<Plan>) -> bool {
    let log = scene.log;
    let last = log.len() - 1;
    let releases = RequestView::<Plan>::Store(
        StoreCallView::ReleaseLock { name: scene.deploy.spec.name },
    );
    match scene.deploy.phase {
        PhaseView::Releasing { so_far: Err(RunErrorView::Invalid(_)) } => log.len() == 0,
        PhaseView::Releasing { so_far: Err(RunErrorView::Internal(error)) } => {
            &&& log.len() > 0
            &&& trouble(log[last].reply)
            &&& error == reported(log[last])
            &&& untroubled(log, last)
        },
        PhaseView::Ended { result: Err(RunErrorView::Invalid(_)) } => {
            &&& log.len() == 1
            &&& log[last].request == releases
            &&& log[last].reply == ReplyView::<Plan>::Store(StoreReplyView::Done)
        },
        PhaseView::Ended { result: Err(RunErrorView::Internal(error)) } => {
            &&& log.len() > 0
            &&& log[last].request == releases
            &&& untroubled(log, last - 1)
            &&& if trouble(log[last].reply) {
                error == reported(log[last])
            } else {
                &&& log.len() > 1
                &&& trouble(log[last - 1].reply)
                &&& error == reported(log[last - 1])
            }
        },
        PhaseView::Ended { result: Err(RunErrorView::Reserve(_)) } => false,
        _ => untroubled(log, log.len() as int),
    }
}

/// A deploy is given up at the first failure of the store or the codec.
proof fn lemma_gives_up<Plan>(
    ctx: CtxView<Plan>,
    spec: WorkloadSpecView,
    repo: Seq<u8>,
    deploy_id: i64,
    count: nat,
)
    requires
        ready(ctx.store, spec.name, deploy_id),
    ensures
        gives_up(deployed(ctx, spec, repo, deploy_id, count)),
    decreases count,
{
    if count > 0 {
        let earlier = (count - 1) as nat;
        lemma_gives_up(ctx, spec, repo, deploy_id, earlier);
        let scene = deployed(ctx, spec, repo, deploy_id, earlier);
        assert(coherent(scene.deploy)) by {
            lemma_kept(ctx, spec, repo, deploy_id, earlier);
        }
        if !scene.stands() {
            let request = scene.deploy.request()->0;
            let reply = scene.ctx.reply(request)->0;
            law_reply_is_admitted(scene.ctx, request);
            let next = scene.next();
            assert forall|i: int| 0 <= i < scene.log.len() implies #[trigger] next.log[i]
                == scene.log[i] by {}
            assert(next.log[scene.log.len() as int] == Exchange { request, reply });
        }
    }
}

/// A failure of the store or the codec ends a deploy: nothing is asked for after
/// it but that the lock is given back, and the deploy ends with that failure. A
/// deploy whose spec is refused asks for that alone. A deploy with an outcome
/// met no such failure.
pub proof fn law_given_up_at_once<Plan>(
    ctx: CtxView<Plan>,
    spec: WorkloadSpecView,
    repo: Seq<u8>,
    deploy_id: i64,
    count: nat,
    at: int,
)
    requires
        ready(ctx.store, spec.name, deploy_id),
    ensures
        ({
            let now = deployed(ctx, spec, repo, deploy_id, count);
            let log = now.log;
            let releases = RequestView::<Plan>::Store(
                StoreCallView::ReleaseLock { name: spec.name },
            );
            &&& 0 <= at < log.len() && trouble(log[at].reply) ==> {
                &&& at + 2 >= log.len()
                &&& at + 1 < log.len() ==> log[at + 1].request == releases
                &&& now.deploy.result() matches Some(result) ==> result is Err
            }
            &&& match now.deploy.result() {
                Some(Ok(_)) => untroubled(log, log.len() as int),
                Some(Err(RunErrorView::Invalid(_))) => {
                    &&& log == seq![
                        Exchange {
                            request: releases,
                            reply: ReplyView::<Plan>::Store(StoreReplyView::Done),
                        },
                    ]
                },
                Some(Err(RunErrorView::Internal(error))) => {
                    &&& log.len() > 0
                    &&& log.last().request == releases
                    &&& trouble(log.last().reply) ==> error == reported(log.last())
                    &&& !trouble(log.last().reply) ==> {
                        &&& log.len() > 1
                        &&& trouble(log[log.len() - 2].reply)
                        &&& error == reported(log[log.len() - 2])
                    }
                },
                Some(Err(RunErrorView::Reserve(_))) => false,
                None => true,
            }
        }),
{
    lemma_gives_up(ctx, spec, repo, deploy_id, count);
    let now = deployed(ctx, spec, repo, deploy_id, count);
    assert(now.deploy.spec.name == spec.name) by {
        lemma_kept(ctx, spec, repo, deploy_id, count);
    }
    if let Some(Err(RunErrorView::Invalid(_))) = now.deploy.result() {
        assert(now.log =~= seq![now.log[0]]);
    }
}

} // verus!
