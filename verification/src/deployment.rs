//! One deploy, from the reserved row to its end, as a machine that hands out
//! requests and takes replies.
//!
//! Detect, Build, Secrets, Apply, Route and Healthcheck run in this order.
//! The stage that a deploy has reached is durable before the stage runs, and
//! every event is durable before it is published. A stage that fails is undone
//! backward from where it failed.

use crate::model::{
    stage_event, DeployOutcome, DeployOutcomeView, DeployStatus, Event, EventStatus, Stage,
    StoredEvent, StoredEventView,
};
use crate::protocol::{
    CodecCall, CodecCallView, CodecReply, CodecReplyView, HostCall, HostCallView, HostReply,
    HostReplyView, Reply, ReplyView, Request, RequestView, StoreCall, StoreCallView, StoreReply,
    StoreReplyView, HEALTHCHECK_STAGE_CAP,
};
use crate::reservation::{
    Reservation, ReservationView, ReserveError, ReserveErrorView, ReservePhase, ReservePhaseView,
};
use crate::spec::{slug_of, SpecError, WorkloadSpec, WorkloadSpecView};
use crate::text::{joined, one_line, Failure};
use crate::unwind::{compensate, first_unwind, Unwind};
use vstd::prelude::*;
use vstd::string::*;

verus! {

/// Why a deploy ended without an outcome.
#[derive(Debug, PartialEq, Eq)]
pub enum RunError {
    /// The spec cannot be deployed.
    Invalid(SpecError),
    /// No row and lock could be had.
    Reserve(ReserveError),
    /// The store failed, or a spec could not be read or written.
    Internal(Failure),
}

pub enum RunErrorView {
    Invalid(SpecError),
    Reserve(ReserveErrorView),
    Internal(Seq<Seq<char>>),
}

impl View for RunError {
    type V = RunErrorView;

    open spec fn view(&self) -> RunErrorView {
        match self {
            RunError::Invalid(error) => RunErrorView::Invalid(*error),
            RunError::Reserve(error) => RunErrorView::Reserve(error@),
            RunError::Internal(failure) => RunErrorView::Internal(failure@),
        }
    }
}

impl RunErrorView {
    /// The error as a chain of messages.
    pub open spec fn chain(self) -> Seq<Seq<char>> {
        match self {
            RunErrorView::Invalid(error) => seq![error.text()],
            RunErrorView::Reserve(error) => error.chain(),
            RunErrorView::Internal(chain) => chain,
        }
    }
}

impl RunError {
    /// The error as a chain of messages.
    pub fn into_failure(self) -> (failure: Failure)
        ensures
            failure@ == self@.chain(),
    {
        match self {
            RunError::Invalid(error) => Failure::new(error.message().as_str()),
            RunError::Reserve(error) => error.into_failure(),
            RunError::Internal(failure) => failure,
        }
    }
}

/// The result of a deploy, seen as plain values.
pub open spec fn run_result(result: Result<DeployOutcome, RunError>) -> Result<
    DeployOutcomeView,
    RunErrorView,
> {
    match result {
        Ok(outcome) => Ok(outcome@),
        Err(error) => Err(error@),
    }
}

/// A stage with what it needs from the stages before it.
#[derive(Debug, PartialEq, Eq)]
pub enum Job<Plan> {
    Detect,
    Build { plan: Plan },
    Secrets,
    Apply,
    Route,
    Healthcheck,
}

impl<Plan> Job<Plan> {
    /// The stage that this is the work of.
    pub open spec fn at(self) -> Stage {
        match self {
            Job::Detect => Stage::Detect,
            Job::Build { .. } => Stage::Build,
            Job::Secrets => Stage::Secrets,
            Job::Apply => Stage::Apply,
            Job::Route => Stage::Route,
            Job::Healthcheck => Stage::Healthcheck,
        }
    }

    /// The stage that this is the work of.
    pub fn stage(&self) -> (stage: Stage)
        ensures
            stage == self.at(),
    {
        match self {
            Job::Detect => Stage::Detect,
            Job::Build { .. } => Stage::Build,
            Job::Secrets => Stage::Secrets,
            Job::Apply => Stage::Apply,
            Job::Route => Stage::Route,
            Job::Healthcheck => Stage::Healthcheck,
        }
    }
}

/// How far a deploy has come. Each phase but the last waits for one reply.
#[derive(Debug, PartialEq, Eq)]
pub enum Phase<Plan> {
    /// The deploy has no row and no lock yet.
    Reserving { reservation: Reservation },
    /// The spec of the last successful deploy is being read.
    Loading,
    /// It was there, and is being turned into a value.
    Decoding { json: String },
    /// The row is being advanced to a stage.
    Advancing { job: Job<Plan> },
    /// The event that the stage started is being stored.
    Starting { job: Job<Plan> },
    /// The stage runs on the host.
    Working { job: Job<Plan> },
    /// The event that the stage succeeded is being stored.
    Passing { stage: Stage, next: Option<Job<Plan>> },
    /// The event that the stage failed is being stored.
    Failing { stage: Stage, cause: String },
    /// What the deploy did to the host is being undone.
    Unwinding { stage: Stage, cause: String, step: Unwind },
    /// Every stage passed; the spec is being turned into text.
    Encoding,
    /// The spec is being stored as the one that runs.
    Storing { json: String },
    /// The end of the deploy is being stored.
    Finishing { outcome: DeployOutcome },
    /// The lock of the app is being given back.
    Releasing { so_far: Result<DeployOutcome, RunError> },
    Ended { result: Result<DeployOutcome, RunError> },
}

pub enum PhaseView<Plan> {
    Reserving { reservation: ReservationView },
    Loading,
    Decoding { json: Seq<char> },
    Advancing { job: Job<Plan> },
    Starting { job: Job<Plan> },
    Working { job: Job<Plan> },
    Passing { stage: Stage, next: Option<Job<Plan>> },
    Failing { stage: Stage, cause: Seq<char> },
    Unwinding { stage: Stage, cause: Seq<char>, step: Unwind },
    Encoding,
    Storing { json: Seq<char> },
    Finishing { outcome: DeployOutcomeView },
    Releasing { so_far: Result<DeployOutcomeView, RunErrorView> },
    Ended { result: Result<DeployOutcomeView, RunErrorView> },
}

impl<Plan> View for Phase<Plan> {
    type V = PhaseView<Plan>;

    open spec fn view(&self) -> PhaseView<Plan> {
        match self {
            Phase::Reserving { reservation } => PhaseView::Reserving { reservation: reservation@ },
            Phase::Loading => PhaseView::Loading,
            Phase::Decoding { json } => PhaseView::Decoding { json: json@ },
            Phase::Advancing { job } => PhaseView::Advancing { job: *job },
            Phase::Starting { job } => PhaseView::Starting { job: *job },
            Phase::Working { job } => PhaseView::Working { job: *job },
            Phase::Passing { stage, next } => PhaseView::Passing { stage: *stage, next: *next },
            Phase::Failing { stage, cause } => PhaseView::Failing { stage: *stage, cause: cause@ },
            Phase::Unwinding { stage, cause, step } => PhaseView::Unwinding {
                stage: *stage,
                cause: cause@,
                step: *step,
            },
            Phase::Encoding => PhaseView::Encoding,
            Phase::Storing { json } => PhaseView::Storing { json: json@ },
            Phase::Finishing { outcome } => PhaseView::Finishing { outcome: outcome@ },
            Phase::Releasing { so_far } => PhaseView::Releasing { so_far: run_result(*so_far) },
            Phase::Ended { result } => PhaseView::Ended { result: run_result(*result) },
        }
    }
}

impl<Plan> PhaseView<Plan> {
    /// How many replies can still come before the deploy has ended.
    pub open spec fn left(self) -> int {
        match self {
            PhaseView::Reserving { reservation } => 30 + reservation.left() as int,
            PhaseView::Loading => 30,
            PhaseView::Decoding { .. } => 29,
            PhaseView::Advancing { job } => 28 - 4 * job.at().position(),
            PhaseView::Starting { job } => 27 - 4 * job.at().position(),
            PhaseView::Working { job } => 26 - 4 * job.at().position(),
            PhaseView::Passing { next, .. } => match next {
                Some(job) => 29 - 4 * job.at().position(),
                None => 5,
            },
            PhaseView::Failing { .. } => 5,
            PhaseView::Unwinding { step, .. } => 2 + step.left() as int,
            PhaseView::Encoding => 4,
            PhaseView::Storing { .. } => 3,
            PhaseView::Finishing { .. } => 2,
            PhaseView::Releasing { .. } => 1,
            PhaseView::Ended { .. } => 0,
        }
    }
}

/// The error of a health check that did not resolve within its cap.
pub open spec fn cap_exceeded() -> Seq<Seq<char>> {
    seq!["healthcheck stage exceeded its 90s hard cap"@]
}

/// The cause of a deploy that could not be undone: why the stage failed, and
/// why undoing it failed.
pub open spec fn both_causes(cause: Seq<char>, undoing: Seq<Seq<char>>) -> Seq<char> {
    cause + "; compensation also failed: "@ + one_line(undoing)
}

/// A deploy of an app.
#[derive(Debug, PartialEq, Eq)]
pub struct Deployment<Plan> {
    /// The id of the row; zero until the row exists.
    pub deploy_id: i64,
    /// The path of the repository, as the bytes it was given in.
    pub repo: Vec<u8>,
    pub slug: String,
    pub spec: WorkloadSpec,
    /// The spec that the last successful deploy stored.
    pub previous: Option<WorkloadSpec>,
    pub phase: Phase<Plan>,
}

pub struct DeploymentView<Plan> {
    pub deploy_id: i64,
    pub repo: Seq<u8>,
    pub slug: Seq<char>,
    pub spec: WorkloadSpecView,
    pub previous: Option<WorkloadSpecView>,
    pub phase: PhaseView<Plan>,
}

impl<Plan> View for Deployment<Plan> {
    type V = DeploymentView<Plan>;

    open spec fn view(&self) -> DeploymentView<Plan> {
        DeploymentView {
            deploy_id: self.deploy_id,
            repo: self.repo@,
            slug: self.slug@,
            spec: self.spec@,
            previous: self.previous.deep_view(),
            phase: self.phase@,
        }
    }
}

impl<Plan> DeploymentView<Plan> {
    /// A deploy that has to be reserved first.
    pub open spec fn unreserved(spec: WorkloadSpecView, repo: Seq<u8>) -> DeploymentView<Plan> {
        DeploymentView {
            deploy_id: 0,
            repo,
            slug: slug_of(spec.name),
            spec,
            previous: None,
            phase: PhaseView::Reserving { reservation: ReservationView::start(spec.name) },
        }
    }

    /// A deploy that holds its row and its lock. Where the spec cannot be
    /// deployed, all that is left is to give the lock back.
    pub open spec fn reserved(
        spec: WorkloadSpecView,
        repo: Seq<u8>,
        deploy_id: i64,
    ) -> DeploymentView<Plan> {
        DeploymentView {
            deploy_id,
            repo,
            slug: slug_of(spec.name),
            spec,
            previous: None,
            phase: match spec.verdict() {
                Ok(()) => PhaseView::Loading,
                Err(error) => PhaseView::Releasing { so_far: Err(RunErrorView::Invalid(error)) },
            },
        }
    }

    /// What a stage asks of the host. Where no route is asked for, Route asks
    /// nothing.
    pub open spec fn work(self, job: Job<Plan>) -> Option<HostCallView<Plan>> {
        match job {
            Job::Detect => Some(HostCallView::Detect { repo: self.repo }),
            Job::Build { plan } => Some(HostCallView::Build { plan, slug: self.slug }),
            Job::Secrets => Some(HostCallView::EnsureSecrets { names: self.spec.secrets }),
            Job::Apply => Some(HostCallView::Apply { spec: self.spec }),
            Job::Route => match self.spec.route {
                Some(route) => Some(HostCallView::ApplyRoute { slug: self.slug, route }),
                None => None,
            },
            Job::Healthcheck => Some(
                HostCallView::Healthcheck { spec: self.spec, cap: HEALTHCHECK_STAGE_CAP },
            ),
        }
    }

    /// The store request that appends an event of a stage.
    pub open spec fn emission(
        self,
        stage: Stage,
        status: EventStatus,
        detail: Option<Seq<char>>,
    ) -> RequestView<Plan> {
        RequestView::Store(
            StoreCallView::AppendEvent { event: stage_event(self.deploy_id, stage, status, detail) },
        )
    }

    /// What the deploy waits for, until it has ended.
    pub open spec fn request(self) -> Option<RequestView<Plan>> {
        match self.phase {
            PhaseView::Reserving { reservation } => match reservation.request() {
                Some(call) => Some(RequestView::Store(call)),
                None => None,
            },
            PhaseView::Loading => Some(
                RequestView::Store(StoreCallView::CurrentSpec { name: self.spec.name }),
            ),
            PhaseView::Decoding { json } => Some(RequestView::Codec(CodecCallView::Decode { json })),
            PhaseView::Advancing { job } => Some(
                RequestView::Store(
                    StoreCallView::AdvanceStage { deploy_id: self.deploy_id, stage: job.at() },
                ),
            ),
            PhaseView::Starting { job } => Some(
                self.emission(job.at(), EventStatus::Started, None),
            ),
            PhaseView::Working { job } => match self.work(job) {
                Some(call) => Some(RequestView::Host(call)),
                None => None,
            },
            PhaseView::Passing { stage, .. } => Some(
                self.emission(stage, EventStatus::Succeeded, None),
            ),
            PhaseView::Failing { stage, cause } => Some(
                self.emission(stage, EventStatus::Failed, Some(cause)),
            ),
            PhaseView::Unwinding { step, .. } => Some(
                RequestView::Host(step.call(self.spec.name, self.slug, self.previous)),
            ),
            PhaseView::Encoding => Some(
                RequestView::Codec(CodecCallView::Encode { spec: self.spec }),
            ),
            PhaseView::Storing { json } => Some(
                RequestView::Store(
                    StoreCallView::PutSpec { name: self.spec.name, slug: self.slug, json },
                ),
            ),
            PhaseView::Finishing { outcome } => Some(
                RequestView::Store(
                    StoreCallView::FinishDeployWithEvent {
                        deploy_id: self.deploy_id,
                        status: outcome.status(),
                        detail: outcome.detail(),
                    },
                ),
            ),
            PhaseView::Releasing { .. } => Some(
                RequestView::Store(StoreCallView::ReleaseLock { name: self.spec.name }),
            ),
            PhaseView::Ended { .. } => None,
        }
    }

    /// Whether a reply is one that the deploy waits for.
    pub open spec fn awaits(self, reply: ReplyView<Plan>) -> bool {
        self.request() is Some && self.request()->0.admits(reply)
    }

    /// The deploy in another phase.
    pub open spec fn with(self, phase: PhaseView<Plan>) -> DeploymentView<Plan> {
        DeploymentView { phase, ..self }
    }

    /// The deploy given up because of an error that no stage can be blamed
    /// for: nothing is undone, but the lock is given back.
    pub open spec fn aborted(self, error: Seq<Seq<char>>) -> DeploymentView<Plan> {
        self.with(PhaseView::Releasing { so_far: Err(RunErrorView::Internal(error)) })
    }

    /// The deploy after a stage failed.
    pub open spec fn failed(self, stage: Stage, error: Seq<Seq<char>>) -> DeploymentView<Plan> {
        self.with(PhaseView::Failing { stage, cause: one_line(error) })
    }

    /// The deploy once everything up to a step of undoing it is undone.
    pub open spec fn unwound(
        self,
        stage: Stage,
        cause: Seq<char>,
        step: Option<Unwind>,
    ) -> DeploymentView<Plan> {
        match step {
            Some(step) => self.with(PhaseView::Unwinding { stage, cause, step }),
            None => self.with(
                PhaseView::Finishing {
                    outcome: DeployOutcomeView::RolledBack { failed_at: stage, cause },
                },
            ),
        }
    }

    /// The deploy after the host was done with a stage.
    pub open spec fn worked(self, job: Job<Plan>, reply: HostReplyView<Plan>) -> DeploymentView<
        Plan,
    > {
        match (job, reply) {
            (_, HostReplyView::Failed(error)) => self.failed(job.at(), error),
            (_, HostReplyView::TimedOut) => self.failed(job.at(), cap_exceeded()),
            (Job::Detect, HostReplyView::Plan(plan)) => self.with(
                PhaseView::Passing { stage: Stage::Detect, next: Some(Job::Build { plan }) },
            ),
            (Job::Build { .. }, HostReplyView::Image(image)) => DeploymentView {
                spec: WorkloadSpecView { image, ..self.spec },
                phase: PhaseView::Passing { stage: Stage::Build, next: Some(Job::Secrets) },
                ..self
            },
            (Job::Secrets, _) => self.with(
                PhaseView::Passing { stage: Stage::Secrets, next: Some(Job::Apply) },
            ),
            (Job::Apply, _) => self.with(
                PhaseView::Passing { stage: Stage::Apply, next: Some(Job::Route) },
            ),
            (Job::Route, _) => self.with(
                PhaseView::Passing { stage: Stage::Route, next: Some(Job::Healthcheck) },
            ),
            (Job::Healthcheck, _) => self.with(
                PhaseView::Passing { stage: Stage::Healthcheck, next: None },
            ),
            _ => self,
        }
    }

    /// The deploy after a reply that it waited for.
    pub open spec fn after(self, reply: ReplyView<Plan>) -> DeploymentView<Plan> {
        match (self.phase, reply) {
            (PhaseView::Reserving { reservation }, ReplyView::Store(reply)) => {
                let next = reservation.after(reply);
                match next.phase {
                    ReservePhaseView::Ended { result: Ok(deploy_id) } => DeploymentView {
                        deploy_id,
                        phase: PhaseView::Loading,
                        ..self
                    },
                    ReservePhaseView::Ended { result: Err(error) } => self.with(
                        PhaseView::Ended { result: Err(RunErrorView::Reserve(error)) },
                    ),
                    _ => self.with(PhaseView::Reserving { reservation: next }),
                }
            },
            (PhaseView::Loading, ReplyView::Store(StoreReplyView::Spec(None))) => self.with(
                PhaseView::Advancing { job: Job::Detect },
            ),
            (PhaseView::Loading, ReplyView::Store(StoreReplyView::Spec(Some(json)))) => self.with(
                PhaseView::Decoding { json },
            ),
            (PhaseView::Decoding { .. }, ReplyView::Codec(CodecReplyView::Failed(error))) =>
                self.aborted(seq!["parsing the previously stored spec"@] + error),
            (PhaseView::Decoding { .. }, ReplyView::Codec(CodecReplyView::Spec(spec))) =>
                DeploymentView {
                    previous: Some(spec),
                    phase: PhaseView::Advancing { job: Job::Detect },
                    ..self
                },
            (PhaseView::Releasing { .. }, ReplyView::Store(StoreReplyView::Failed(error))) =>
                self.with(PhaseView::Ended { result: Err(RunErrorView::Internal(error)) }),
            (PhaseView::Releasing { so_far }, _) => self.with(PhaseView::Ended { result: so_far }),
            (_, ReplyView::Store(StoreReplyView::Failed(error))) => self.aborted(error),
            (PhaseView::Advancing { job }, _) => self.with(PhaseView::Starting { job }),
            (PhaseView::Starting { job }, _) => if self.work(job) is Some {
                self.with(PhaseView::Working { job })
            } else {
                self.with(
                    PhaseView::Passing { stage: Stage::Route, next: Some(Job::Healthcheck) },
                )
            },
            (PhaseView::Working { job }, ReplyView::Host(reply)) => self.worked(job, reply),
            (PhaseView::Passing { next, .. }, _) => match next {
                Some(job) => self.with(PhaseView::Advancing { job }),
                None => self.with(PhaseView::Encoding),
            },
            (PhaseView::Failing { stage, cause }, _) => self.unwound(
                stage,
                cause,
                first_unwind(stage),
            ),
            (
                PhaseView::Unwinding { stage, cause, .. },
                ReplyView::Host(HostReplyView::Failed(error)),
            ) => self.with(
                PhaseView::Finishing {
                    outcome: DeployOutcomeView::Failed {
                        failed_at: stage,
                        cause: both_causes(cause, error),
                    },
                },
            ),
            (PhaseView::Unwinding { stage, cause, step }, _) => self.unwound(
                stage,
                cause,
                step.next(),
            ),
            (PhaseView::Encoding, ReplyView::Codec(CodecReplyView::Failed(error))) => self.aborted(
                seq!["serializing the deployed spec"@] + error,
            ),
            (PhaseView::Encoding, ReplyView::Codec(CodecReplyView::Json(json))) => self.with(
                PhaseView::Storing { json },
            ),
            (PhaseView::Storing { .. }, _) => self.with(
                PhaseView::Finishing { outcome: DeployOutcomeView::Done { image: self.spec.image } },
            ),
            (PhaseView::Finishing { outcome }, _) => self.with(
                PhaseView::Releasing { so_far: Ok(outcome) },
            ),
            _ => self,
        }
    }

    /// The result of the deploy, once it has ended.
    pub open spec fn result(self) -> Option<Result<DeployOutcomeView, RunErrorView>> {
        match self.phase {
            PhaseView::Ended { result } => Some(result),
            _ => None,
        }
    }
}

/// The event that a reply makes durable, and that is therefore published.
pub open spec fn made_durable<Plan>(reply: ReplyView<Plan>) -> Option<StoredEventView> {
    match reply {
        ReplyView::Store(StoreReplyView::Event(event)) => Some(event),
        _ => None,
    }
}

/// The request that stores an event of a stage.
///
/// It is published only once the store has replied: the store is what a
/// reconnecting subscriber reads for the backlog, so an event must be durable
/// before anyone can see it.
pub fn emit<'a>(
    deploy_id: i64,
    stage: Stage,
    status: EventStatus,
    detail: Option<String>,
) -> (call: StoreCall<'a>)
    ensures
        call@ == (StoreCallView::AppendEvent {
            event: stage_event(deploy_id, stage, status, detail.deep_view()),
        }),
{
    StoreCall::AppendEvent { event: Event::for_stage(deploy_id, stage, status, detail) }
}

/// The request that stores that a stage succeeded.
pub fn ok<'a>(deploy_id: i64, stage: Stage) -> (call: StoreCall<'a>)
    ensures
        call@ == (StoreCallView::AppendEvent {
            event: stage_event(deploy_id, stage, EventStatus::Succeeded, None),
        }),
{
    emit(deploy_id, stage, EventStatus::Succeeded, None)
}

/// The request that stores the end of a deploy: its status, the event that
/// says so and the release of its lock are one write, so that nobody reads a
/// row that is terminal without its last event.
pub fn finished<'a>(
    deploy_id: i64,
    status: DeployStatus,
    detail: Option<String>,
) -> (call: StoreCall<'a>)
    ensures
        call@ == (StoreCallView::FinishDeployWithEvent {
            deploy_id,
            status,
            detail: detail.deep_view(),
        }),
{
    StoreCall::FinishDeployWithEvent { deploy_id, status, detail }
}

/// The request that makes durable that a deploy has reached a stage. The event
/// that the stage started follows it.
pub fn begin<'a>(deploy_id: i64, stage: Stage) -> (call: StoreCall<'a>)
    ensures
        call@ == (StoreCallView::AdvanceStage { deploy_id, stage }),
{
    StoreCall::AdvanceStage { deploy_id, stage }
}

/// The phase of a deploy whose stage failed.
pub fn fail<Plan>(stage: Stage, error: Failure) -> (phase: Phase<Plan>)
    ensures
        phase@ == (PhaseView::<Plan>::Failing { stage, cause: one_line(error@) }),
{
    Phase::Failing { stage, cause: error.one_line() }
}

/// The phase of a deploy that is undone up to `step`.
fn unwind<Plan>(stage: Stage, cause: String, step: Option<Unwind>) -> (phase: Phase<Plan>)
    ensures
        phase@ == (match step {
            Some(step) => PhaseView::<Plan>::Unwinding { stage, cause: cause@, step },
            None => PhaseView::<Plan>::Finishing {
                outcome: DeployOutcomeView::RolledBack { failed_at: stage, cause: cause@ },
            },
        }),
{
    match step {
        Some(step) => Phase::Unwinding { stage, cause, step },
        None => Phase::Finishing {
            outcome: DeployOutcome::RolledBack { failed_at: stage, cause },
        },
    }
}

impl<Plan> Deployment<Plan> {
    /// A deploy of `spec` from the repository at `repo`, with no row and no
    /// lock yet. It is refused where the spec cannot be deployed.
    pub fn unreserved(spec: WorkloadSpec, repo: Vec<u8>) -> (deployment: Result<
        Deployment<Plan>,
        RunError,
    >)
        ensures
            match deployment {
                Ok(deployment) => spec@.verdict() is Ok && deployment@ == DeploymentView::<
                    Plan,
                >::unreserved(spec@, repo@),
                Err(error) => spec@.verdict() is Err && error@ == RunErrorView::Invalid(
                    spec@.verdict()->Err_0,
                ),
            },
    {
        match spec.validate() {
            Err(error) => Err(RunError::Invalid(error)),
            Ok(()) => {
                let slug = spec.slug();
                let reservation = Reservation::new(spec.name.as_str());
                Ok(
                    Deployment {
                        deploy_id: 0,
                        repo,
                        slug,
                        spec,
                        previous: None,
                        phase: Phase::Reserving { reservation },
                    },
                )
            },
        }
    }

    /// A deploy of `spec` from the repository at `repo`, under the row and the
    /// lock that were reserved for it. Where the spec cannot be deployed, the
    /// lock is given back and nothing else is done.
    pub fn reserved(spec: WorkloadSpec, repo: Vec<u8>, deploy_id: i64) -> (deployment: Deployment<
        Plan,
    >)
        ensures
            deployment@ == DeploymentView::<Plan>::reserved(spec@, repo@, deploy_id),
    {
        let slug = spec.slug();
        let phase = match spec.validate() {
            Ok(()) => Phase::Loading,
            Err(error) => Phase::Releasing { so_far: Err(RunError::Invalid(error)) },
        };
        Deployment { deploy_id, repo, slug, spec, previous: None, phase }
    }

    /// What a stage asks of the host, if it asks anything.
    fn work<'a>(&'a self, job: &'a Job<Plan>) -> (call: Option<HostCall<'a, Plan>>)
        ensures
            (match call {
                Some(call) => Some(call@),
                None => None,
            }) == self@.work(*job),
    {
        match job {
            Job::Detect => Some(HostCall::Detect { repo: &self.repo }),
            Job::Build { plan } => Some(HostCall::Build { plan, slug: self.slug.as_str() }),
            Job::Secrets => Some(HostCall::EnsureSecrets { names: &self.spec.secrets }),
            Job::Apply => Some(HostCall::Apply { spec: &self.spec }),
            Job::Route => match &self.spec.route {
                Some(route) => Some(HostCall::ApplyRoute { slug: self.slug.as_str(), route }),
                None => None,
            },
            Job::Healthcheck => Some(
                HostCall::Healthcheck { spec: &self.spec, cap: HEALTHCHECK_STAGE_CAP },
            ),
        }
    }

    /// What the deploy waits for, until it has ended.
    pub fn request(&self) -> (request: Option<Request<'_, Plan>>)
        ensures
            (match request {
                Some(request) => Some(request@),
                None => None,
            }) == self@.request(),
    {
        let id = self.deploy_id;
        let name = self.spec.name.as_str();
        let call = match &self.phase {
            Phase::Reserving { reservation } => match reservation.request() {
                Some(call) => call,
                None => return None,
            },
            Phase::Loading => StoreCall::CurrentSpec { name },
            Phase::Decoding { json } => {
                return Some(Request::Codec(CodecCall::Decode { json: json.as_str() }));
            },
            Phase::Advancing { job } => begin(id, job.stage()),
            Phase::Starting { job } => emit(id, job.stage(), EventStatus::Started, None),
            Phase::Working { job } => {
                return match self.work(job) {
                    Some(call) => Some(Request::Host(call)),
                    None => None,
                };
            },
            Phase::Passing { stage, .. } => ok(id, *stage),
            Phase::Failing { stage, cause } => emit(
                id,
                *stage,
                EventStatus::Failed,
                Some(cause.clone()),
            ),
            Phase::Unwinding { step, .. } => {
                return Some(
                    Request::Host(step.request(name, self.slug.as_str(), &self.previous)),
                );
            },
            Phase::Encoding => return Some(Request::Codec(CodecCall::Encode { spec: &self.spec })),
            Phase::Storing { json } => StoreCall::PutSpec {
                name,
                slug: self.slug.as_str(),
                json: json.as_str(),
            },
            Phase::Finishing { outcome } => finished(id, outcome.status(), outcome.detail()),
            Phase::Releasing { .. } => StoreCall::ReleaseLock { name },
            Phase::Ended { .. } => return None,
        };
        Some(Request::Store(call))
    }

    /// The result of the deploy, once it has ended; the deploy itself before.
    pub fn into_result(self) -> (result: Result<
        Result<DeployOutcome, RunError>,
        Deployment<Plan>,
    >)
        ensures
            match result {
                Ok(result) => self@.result() == Some(run_result(result)),
                Err(deployment) => self@.result() is None && deployment == self,
            },
    {
        match self.phase {
            Phase::Ended { result } => Ok(result),
            _ => Err(self),
        }
    }
}

impl<Plan> Deployment<Plan> {
    /// Takes the reply to the request. The event that the reply made durable,
    /// if it did, is handed back to be published before the next request is
    /// performed.
    pub fn resume(self, reply: Reply<Plan>) -> (next: (Deployment<Plan>, Option<StoredEvent>))
        requires
            self@.awaits(reply@),
        ensures
            next.0@ == self@.after(reply@),
            next.1.deep_view() == made_durable(reply@),
            0 <= next.0@.phase.left() < self@.phase.left(),
    {
        let Deployment { deploy_id, repo, slug, spec, previous, phase } = self;
        let mut deploy_id = deploy_id;
        let mut spec = spec;
        let mut previous = previous;
        let mut event: Option<StoredEvent> = None;
        let phase = match (phase, reply) {
            (Phase::Reserving { reservation }, Reply::Store(reply)) => {
                let mut reservation = reservation;
                reservation.resume(reply);
                match reservation.phase {
                    ReservePhase::Ended { result: Ok(id) } => {
                        deploy_id = id;
                        Phase::Loading
                    },
                    ReservePhase::Ended { result: Err(error) } => Phase::Ended {
                        result: Err(RunError::Reserve(error)),
                    },
                    phase => Phase::Reserving {
                        reservation: Reservation { name: reservation.name, phase },
                    },
                }
            },
            (Phase::Loading, Reply::Store(StoreReply::Spec(None))) => Phase::Advancing {
                job: Job::Detect,
            },
            (Phase::Loading, Reply::Store(StoreReply::Spec(Some(json)))) => Phase::Decoding { json },
            (Phase::Decoding { .. }, Reply::Codec(CodecReply::Failed(error))) => Phase::Releasing {
                so_far: Err(RunError::Internal(error.context("parsing the previously stored spec"))),
            },
            (Phase::Decoding { .. }, Reply::Codec(CodecReply::Spec(stored))) => {
                previous = Some(stored);
                Phase::Advancing { job: Job::Detect }
            },
            (Phase::Releasing { .. }, Reply::Store(StoreReply::Failed(error))) => Phase::Ended {
                result: Err(RunError::Internal(error)),
            },
            (Phase::Releasing { so_far }, _) => Phase::Ended { result: so_far },
            (_, Reply::Store(StoreReply::Failed(error))) => Phase::Releasing {
                so_far: Err(RunError::Internal(error)),
            },
            (Phase::Advancing { job }, _) => Phase::Starting { job },
            (Phase::Starting { job }, Reply::Store(StoreReply::Event(stored))) => {
                event = Some(stored);
                if matches!(job, Job::Route) && spec.route.is_none() {
                    Phase::Passing { stage: Stage::Route, next: Some(Job::Healthcheck) }
                } else {
                    Phase::Working { job }
                }
            },
            (Phase::Working { job }, Reply::Host(HostReply::Failed(error))) => fail(
                job.stage(),
                error,
            ),
            (Phase::Working { job }, Reply::Host(HostReply::TimedOut)) => fail(
                job.stage(),
                Failure::new("healthcheck stage exceeded its 90s hard cap"),
            ),
            (Phase::Working { job: Job::Detect }, Reply::Host(HostReply::Plan(plan))) =>
                Phase::Passing { stage: Stage::Detect, next: Some(Job::Build { plan }) },
            (Phase::Working { job: Job::Build { .. } }, Reply::Host(HostReply::Image(image))) => {
                spec = WorkloadSpec { image, ..spec };
                Phase::Passing { stage: Stage::Build, next: Some(Job::Secrets) }
            },
            (Phase::Working { job: Job::Secrets }, _) => Phase::Passing {
                stage: Stage::Secrets,
                next: Some(Job::Apply),
            },
            (Phase::Working { job: Job::Apply }, _) => Phase::Passing {
                stage: Stage::Apply,
                next: Some(Job::Route),
            },
            (Phase::Working { job: Job::Route }, _) => Phase::Passing {
                stage: Stage::Route,
                next: Some(Job::Healthcheck),
            },
            (Phase::Working { job: Job::Healthcheck }, _) => Phase::Passing {
                stage: Stage::Healthcheck,
                next: None,
            },
            (Phase::Passing { next, .. }, Reply::Store(StoreReply::Event(stored))) => {
                event = Some(stored);
                match next {
                    Some(job) => Phase::Advancing { job },
                    None => Phase::Encoding,
                }
            },
            (Phase::Failing { stage, cause }, Reply::Store(StoreReply::Event(stored))) => {
                event = Some(stored);
                unwind(stage, cause, compensate(stage))
            },
            (
                Phase::Unwinding { stage, cause, .. },
                Reply::Host(HostReply::Failed(error)),
            ) => {
                let both = joined(cause.as_str(), "; compensation also failed: ").concat(
                    error.one_line().as_str(),
                );
                Phase::Finishing {
                    outcome: DeployOutcome::Failed { failed_at: stage, cause: both },
                }
            },
            (Phase::Unwinding { stage, cause, step }, _) => unwind(stage, cause, step.following()),
            (Phase::Encoding, Reply::Codec(CodecReply::Failed(error))) => Phase::Releasing {
                so_far: Err(RunError::Internal(error.context("serializing the deployed spec"))),
            },
            (Phase::Encoding, Reply::Codec(CodecReply::Json(json))) => Phase::Storing { json },
            (Phase::Storing { .. }, _) => Phase::Finishing {
                outcome: DeployOutcome::Done { image: spec.image.clone() },
            },
            (Phase::Finishing { outcome }, Reply::Store(StoreReply::Event(stored))) => {
                event = Some(stored);
                Phase::Releasing { so_far: Ok(outcome) }
            },
            (phase, _) => phase,
        };
        (Deployment { deploy_id, repo, slug, spec, previous, phase }, event)
    }
}

} // verus!
