//! What a value of the library shows: all that it holds.

use crate::ctx::Ctx;
use crate::deployment::{run_result, Deployment, RunError, RunErrorView};
use crate::model::{DeployOutcome, DeployOutcomeView, DeployRow, Event, Stage, StoredEvent};
use crate::protocol::{
    CodecCall, CodecCallView, CodecReply, CodecReplyView, HostCall, HostCallView, HostReply,
    HostReplyView, Reply, ReplyView, Request, RequestView, StoreCall, StoreCallView, StoreReply,
    StoreReplyView,
};
use crate::reconciliation::{recovery_result, Reconciliation, Recovery};
use crate::reservation::{reserve_result, Reservation, ReserveError, ReserveErrorView};
use crate::run::seen;
use crate::spec::{Route, SpecError, Task, WorkloadSpec};
use crate::store::{Lock, StoredSpec};
use crate::text::Failure;
use vstd::prelude::*;

verus! {

/// A spec shows every field of it, word for word, and so do a route and a task.
pub proof fn law_what_a_spec_shows(spec: WorkloadSpec, route: Route, task: Task)
    ensures
        spec@.name == spec.name@,
        spec@.image == spec.image@,
        spec@.command is Some <==> spec.command is Some,
        spec.command is Some ==> shows(spec.command->0, spec@.command->0),
        spec@.env.len() == spec.env.len(),
        forall|i: int|
            0 <= i < spec.env.len() ==> (#[trigger] spec@.env[i]).0 == spec.env[i].0@
                && spec@.env[i].1 == spec.env[i].1@,
        shows(spec.ports, spec@.ports),
        shows(spec.volumes, spec@.volumes),
        shows(spec.secrets, spec@.secrets),
        spec@.memory_max == shown(spec.memory_max),
        spec@.health_cmd == shown(spec.health_cmd),
        spec@.restart_policy == spec.restart_policy,
        spec@.route is Some <==> spec.route is Some,
        spec.route is Some ==> spec@.route->0 == spec.route->0@,
        spec@.tasks.len() == spec.tasks.len(),
        forall|i: int|
            0 <= i < spec.tasks.len() ==> #[trigger] spec@.tasks[i] == spec.tasks[i]@,
        route@.domain == route.domain@,
        route@.port == route.port,
        task@.name == task.name@,
        task@.schedule == task.schedule@,
        shows(task.command, task@.command),
{
}

/// Whether the texts are seen one by one.
pub open spec fn shows(texts: Vec<String>, view: Seq<Seq<char>>) -> bool {
    &&& view.len() == texts.len()
    &&& forall|i: int| 0 <= i < texts.len() ==> #[trigger] view[i] == texts[i]@
}

/// A text that may be missing, as it is seen.
pub open spec fn shown(text: Option<String>) -> Option<Seq<char>> {
    match text {
        Some(text) => Some(text@),
        None => None,
    }
}

/// What the ledger holds is seen field by field.
pub proof fn law_what_the_ledger_shows(
    row: DeployRow,
    event: Event,
    stored: StoredEvent,
    lock: Lock,
    spec: StoredSpec,
)
    ensures
        row@.id == row.id,
        row@.app == row.app@,
        row@.stage == row.stage,
        row@.status == row.status,
        row@.detail == shown(row.detail),
        event@.deploy_id == event.deploy_id,
        event@.kind == event.kind,
        event@.detail == shown(event.detail),
        stored@.id == stored.id,
        stored@.event == stored.event@,
        lock@.app == lock.app@,
        lock@.deploy_id == lock.deploy_id,
        spec@.name == spec.name@,
        spec@.slug == spec.slug@,
        spec@.json == spec.json@,
{
}

/// How a deploy or a recovery ended is seen as it was: the outcome with its stage
/// and its cause, or the error with its messages.
pub proof fn law_what_a_result_shows(
    image: String,
    failed_at: Stage,
    cause: String,
    failure: Failure,
    id: i64,
    recovery: Recovery,
)
    ensures
        (DeployOutcome::Done { image })@ == (DeployOutcomeView::Done { image: image@ }),
        (DeployOutcome::RolledBack { failed_at, cause })@ == (DeployOutcomeView::RolledBack {
            failed_at,
            cause: cause@,
        }),
        (DeployOutcome::Failed { failed_at, cause })@ == (DeployOutcomeView::Failed {
            failed_at,
            cause: cause@,
        }),
        shows(failure.chain, failure@),
        (ReserveError::Busy { name: image, deploy_id: id })@ == (ReserveErrorView::Busy {
            name: image@,
            deploy_id: id,
        }),
        ReserveError::Internal(failure)@ == ReserveErrorView::Internal(failure@),
        RunError::Internal(failure)@ == RunErrorView::Internal(failure@),
        recovery@.outcomes.len() == recovery.outcomes.len(),
        forall|i: int|
            0 <= i < recovery.outcomes.len() ==> #[trigger] recovery@.outcomes[i]
                == recovery.outcomes[i]@,
        shows(recovery.notices, recovery@.notices),
        recovery_result(Ok(recovery)) == Ok::<_, Seq<Seq<char>>>(recovery@),
        recovery_result(Err(failure)) is Err,
        recovery_result(Err(failure))->Err_0 == failure@,
        reserve_result(Ok(id)) == Ok::<_, ReserveErrorView>(id),
{
}

/// The result of a deploy is seen as it is, and so is that there is none.
pub proof fn law_what_a_run_shows(
    outcome: DeployOutcome,
    error: RunError,
    refused: ReserveError,
    spec: SpecError,
)
    ensures
        run_result(Ok(outcome)) == Ok::<_, RunErrorView>(outcome@),
        run_result(Err(error)) == Err::<DeployOutcomeView, _>(error@),
        seen(Some(Ok(outcome))) == Some(Ok::<_, RunErrorView>(outcome@)),
        seen(Some(Err(error))) == Some(Err::<DeployOutcomeView, _>(error@)),
        seen(None) is None,
        reserve_result(Err(refused)) == Err::<i64, _>(refused@),
        RunError::Reserve(refused)@ == RunErrorView::Reserve(refused@),
        RunError::Invalid(spec)@ == RunErrorView::Invalid(spec),
{
}

/// A deploy, a recovery and a reservation show what they hold, and so does the
/// place where they run.
pub proof fn law_what_a_machine_shows<Plan>(
    deploy: Deployment<Plan>,
    recovery: Reconciliation,
    reservation: Reservation,
    ctx: Ctx<Plan>,
)
    ensures
        deploy@.deploy_id == deploy.deploy_id,
        deploy@.repo == deploy.repo@,
        deploy@.slug == deploy.slug@,
        deploy@.spec == deploy.spec@,
        deploy@.previous is Some <==> deploy.previous is Some,
        deploy.previous is Some ==> deploy@.previous->0 == deploy.previous->0@,
        deploy@.phase == deploy.phase@,
        recovery@.waiting.len() == recovery.waiting.len(),
        forall|i: int|
            0 <= i < recovery.waiting.len() ==> #[trigger] recovery@.waiting[i]
                == recovery.waiting[i]@,
        recovery@.slug == recovery.slug@,
        recovery@.phase == recovery.phase@,
        reservation@.name == reservation.name@,
        reservation@.phase == reservation.phase@,
        ctx@.store == ctx.store@,
        ctx@.sink.len() == ctx.sink.len(),
        forall|i: int| 0 <= i < ctx.sink.len() ==> #[trigger] ctx@.sink[i] == ctx.sink[i]@,
        ctx@.replies.len() == ctx.replies.len(),
        forall|i: int|
            0 <= i < ctx.replies.len() ==> #[trigger] ctx@.replies[i] == ctx.replies[i]@,
{
}

/// A request to the host shows all that it asks with.
pub proof fn law_what_the_host_is_shown<'a, Plan>(call: HostCall<'a, Plan>)
    ensures
        match call {
            HostCall::Detect { repo } => call@ == (HostCallView::<Plan>::Detect { repo: repo@ }),
            HostCall::Build { plan, slug } => call@ == (HostCallView::<Plan>::Build {
                plan: *plan,
                slug: slug@,
            }),
            HostCall::EnsureSecrets { names } => call@ is EnsureSecrets && shows(
                *names,
                call@->names,
            ),
            HostCall::Apply { spec } => call@ == (HostCallView::<Plan>::Apply { spec: spec@ }),
            HostCall::Remove { name } => call@ == (HostCallView::<Plan>::Remove { name: name@ }),
            HostCall::ApplyRoute { slug, route } => call@ == (HostCallView::<Plan>::ApplyRoute {
                slug: slug@,
                route: route@,
            }),
            HostCall::RemoveRoute { slug } => call@ == (HostCallView::<Plan>::RemoveRoute {
                slug: slug@,
            }),
            HostCall::Healthcheck { spec, cap } => call@ == (HostCallView::<Plan>::Healthcheck {
                spec: spec@,
                cap,
            }),
        },
{
}

/// A request to the store or to the codec shows all that it asks with.
pub proof fn law_what_the_store_is_shown<'a>(call: StoreCall<'a>, coding: CodecCall<'a>)
    ensures
        call@ == (match call {
            StoreCall::CreateDeploy { name } => StoreCallView::CreateDeploy { name: name@ },
            StoreCall::AcquireLock { name, deploy_id } => StoreCallView::AcquireLock {
                name: name@,
                deploy_id,
            },
            StoreCall::FinishDeploy { deploy_id, status, detail } => StoreCallView::FinishDeploy {
                deploy_id,
                status,
                detail: shown(detail),
            },
            StoreCall::ReleaseLock { name } => StoreCallView::ReleaseLock { name: name@ },
            StoreCall::CurrentSpec { name } => StoreCallView::CurrentSpec { name: name@ },
            StoreCall::AdvanceStage { deploy_id, stage } => StoreCallView::AdvanceStage {
                deploy_id,
                stage,
            },
            StoreCall::AppendEvent { event } => StoreCallView::AppendEvent { event: event@ },
            StoreCall::FinishDeployWithEvent { deploy_id, status, detail } =>
                StoreCallView::FinishDeployWithEvent { deploy_id, status, detail: shown(detail) },
            StoreCall::PutSpec { name, slug, json } => StoreCallView::PutSpec {
                name: name@,
                slug: slug@,
                json: json@,
            },
            StoreCall::InProgressDeploys => StoreCallView::InProgressDeploys,
            StoreCall::ReleaseOrphanedLocks => StoreCallView::ReleaseOrphanedLocks,
        }),
        coding@ == (match coding {
            CodecCall::Decode { json } => CodecCallView::Decode { json: json@ },
            CodecCall::Encode { spec } => CodecCallView::Encode { spec: spec@ },
        }),
{
}

/// A reply shows all that it says.
pub proof fn law_what_a_reply_shows<Plan>(
    stored: StoreReply,
    coded: CodecReply,
    done: HostReply<Plan>,
    reply: Reply<Plan>,
)
    ensures
        match stored {
            StoreReply::Done => stored@ is Done,
            StoreReply::Created(id) => stored@ == StoreReplyView::Created(id),
            StoreReply::Lock { granted } => stored@ == (StoreReplyView::Lock { granted }),
            StoreReply::Spec(json) => stored@ == StoreReplyView::Spec(shown(json)),
            StoreReply::Event(event) => stored@ == StoreReplyView::Event(event@),
            StoreReply::Rows(rows) => {
                &&& stored@ is Rows
                &&& stored@->Rows_0.len() == rows.len()
                &&& forall|i: int|
                    0 <= i < rows.len() ==> #[trigger] stored@->Rows_0[i] == rows[i]@
            },
            StoreReply::Apps(apps) => stored@ is Apps && shows(apps, stored@->Apps_0),
            StoreReply::Failed(failure) => stored@ == StoreReplyView::Failed(failure@),
        },
        coded@ == (match coded {
            CodecReply::Spec(spec) => CodecReplyView::Spec(spec@),
            CodecReply::Json(json) => CodecReplyView::Json(json@),
            CodecReply::Failed(failure) => CodecReplyView::Failed(failure@),
        }),
        done@ == (match done {
            HostReply::Done => HostReplyView::Done,
            HostReply::Plan(plan) => HostReplyView::Plan(plan),
            HostReply::Image(image) => HostReplyView::Image(image@),
            HostReply::TimedOut => HostReplyView::TimedOut,
            HostReply::Failed(failure) => HostReplyView::Failed(failure@),
        }),
        reply@ == (match reply {
            Reply::Store(reply) => ReplyView::Store(reply@),
            Reply::Codec(reply) => ReplyView::Codec(reply@),
            Reply::Host(reply) => ReplyView::Host(reply@),
        }),
{
}

/// A request shows what is asked and of whom.
pub proof fn law_what_a_request_shows<'a, Plan>(request: Request<'a, Plan>)
    ensures
        request@ == (match request {
            Request::Store(call) => RequestView::<Plan>::Store(call@),
            Request::Codec(call) => RequestView::<Plan>::Codec(call@),
            Request::Host(call) => RequestView::<Plan>::Host(call@),
        }),
{
}

} // verus!
