//! What holds of stages, events and outcomes, of requests and of the replies that
//! they can get.

use crate::cli::RouteError;
use crate::deployment::{made_durable, DeploymentView, Job};
use crate::model::{
    finished_event, stage_at, stage_event, DeployOutcomeView, DeployStatus, EventKind, EventStatus,
    Stage, StoredEventView,
};
use crate::protocol::{
    CodecCallView, CodecReplyView, HostCallView, HostReplyView, ReplyView, RequestView,
    StoreCallView, StoreReplyView, HEALTHCHECK_STAGE_CAP,
};
use crate::reconciliation::ReconciliationView;
use crate::reservation::ReservationView;
use vstd::prelude::*;

verus! {

/// The stages come in one order: Detect, Build, Secrets, Apply, Route and then
/// Healthcheck. The stage at the position of a stage is that stage.
pub proof fn law_order_of_stages(stage: Stage)
    ensures
        0 <= stage.position() <= 5,
        stage_at(stage.position()) == stage,
        stage_at(0) == Stage::Detect,
        stage_at(1) == Stage::Build,
        stage_at(2) == Stage::Secrets,
        stage_at(3) == Stage::Apply,
        stage_at(4) == Stage::Route,
        stage_at(5) == Stage::Healthcheck,
{
}

/// A stage is called by its name, and by no other.
pub proof fn law_names_of_stages<Plan>(stage: Stage, plan: Plan)
    ensures
        stage.label() == (match stage {
            Stage::Detect => "Detect"@,
            Stage::Build => "Build"@,
            Stage::Secrets => "Secrets"@,
            Stage::Apply => "Apply"@,
            Stage::Route => "Route"@,
            Stage::Healthcheck => "Healthcheck"@,
        }),
        Job::<Plan>::Detect.at() == Stage::Detect,
        (Job::<Plan>::Build { plan }).at() == Stage::Build,
        Job::<Plan>::Secrets.at() == Stage::Secrets,
        Job::<Plan>::Apply.at() == Stage::Apply,
        Job::<Plan>::Route.at() == Stage::Route,
        Job::<Plan>::Healthcheck.at() == Stage::Healthcheck,
{
}

/// An event says which deploy it is of, what happened, and the detail that it was
/// made with.
pub proof fn law_what_an_event_says(
    deploy_id: i64,
    stage: Stage,
    happened: EventStatus,
    status: DeployStatus,
    detail: Option<Seq<char>>,
)
    ensures
        ({
            let of_stage = stage_event(deploy_id, stage, happened, detail);
            let of_end = finished_event(deploy_id, status, detail);
            &&& of_stage.deploy_id == deploy_id
            &&& of_stage.kind == EventKind::Stage { stage, status: happened }
            &&& of_stage.detail == detail
            &&& of_end.deploy_id == deploy_id
            &&& of_end.kind == EventKind::Finished { status }
            &&& of_end.detail == detail
        }),
{
}

/// A deploy that is done has no detail. One that is not has its cause as detail,
/// and no outcome leaves a deploy in progress.
pub proof fn law_what_an_outcome_says(outcome: DeployOutcomeView)
    ensures
        outcome.status() != DeployStatus::InProgress,
        outcome.status() == DeployStatus::Done <==> outcome is Done,
        outcome.status() == DeployStatus::RolledBack <==> outcome is RolledBack,
        outcome.status() == DeployStatus::Failed <==> outcome is Failed,
        outcome.detail() == (match outcome {
            DeployOutcomeView::Done { .. } => None,
            DeployOutcomeView::RolledBack { cause, .. } => Some(cause),
            DeployOutcomeView::Failed { cause, .. } => Some(cause),
        }),
{
}

/// What a route that cannot be read says, for each reason.
pub proof fn law_words_of_a_bad_route(error: RouteError)
    ensures
        error.text() == (match error {
            RouteError::NoPort => "a route is domain:port"@,
            RouteError::NoDomain => "a route needs a domain before the port"@,
            RouteError::Scheme => "a route takes a bare domain, without a scheme"@,
            RouteError::BadPort => "a route needs a port from 1 to 65535"@,
        }),
{
}

/// A request to the store can get a failure, or the one kind of reply that says
/// what it asked for; and every reply but a failure fits these requests alone.
pub proof fn law_replies_of_the_store(call: StoreCallView, reply: StoreReplyView)
    ensures
        call.admits(reply) == (match reply {
            StoreReplyView::Failed(_) => true,
            StoreReplyView::Created(_) => call is CreateDeploy,
            StoreReplyView::Lock { .. } => call is AcquireLock,
            StoreReplyView::Spec(_) => call is CurrentSpec,
            StoreReplyView::Event(_) => call is AppendEvent || call is FinishDeployWithEvent,
            StoreReplyView::Rows(_) => call is InProgressDeploys,
            StoreReplyView::Apps(_) => call is ReleaseOrphanedLocks,
            StoreReplyView::Done => call is FinishDeploy || call is ReleaseLock
                || call is AdvanceStage || call is PutSpec,
        }),
{
}

/// A request to the codec or to the host can get a failure, or the one kind of
/// reply that says what it asked for. Only a health check can time out, and its
/// cap is ninety seconds.
pub proof fn law_replies_of_the_world<Plan>(
    coding: CodecCallView,
    coded: CodecReplyView,
    call: HostCallView<Plan>,
    reply: HostReplyView<Plan>,
)
    ensures
        coding.admits(coded) == (match coded {
            CodecReplyView::Failed(_) => true,
            CodecReplyView::Spec(_) => coding is Decode,
            CodecReplyView::Json(_) => coding is Encode,
        }),
        call.admits(reply) == (match reply {
            HostReplyView::Failed(_) => true,
            HostReplyView::Plan(_) => call is Detect,
            HostReplyView::Image(_) => call is Build,
            HostReplyView::TimedOut => call is Healthcheck,
            HostReplyView::Done => call is EnsureSecrets || call is Apply || call is Remove
                || call is ApplyRoute || call is RemoveRoute || call is Healthcheck,
        }),
        HEALTHCHECK_STAGE_CAP == 90,
{
}

/// A reply comes from where the request went.
pub proof fn law_replies_come_back<Plan>(
    stored: StoreCallView,
    coding: CodecCallView,
    call: HostCallView<Plan>,
    reply: ReplyView<Plan>,
)
    ensures
        RequestView::<Plan>::Store(stored).admits(reply) == (reply matches ReplyView::Store(reply)
            && stored.admits(reply)),
        RequestView::<Plan>::Codec(coding).admits(reply) == (reply matches ReplyView::Codec(reply)
            && coding.admits(reply)),
        RequestView::Host(call).admits(reply) == (reply matches ReplyView::Host(reply)
            && call.admits(reply)),
{
}

/// What changes the host is what applies or removes a unit or a route.
pub proof fn law_what_changes_the_host<Plan>(call: HostCallView<Plan>)
    ensures
        call.changes_host() == (match call {
            HostCallView::Apply { .. } => true,
            HostCallView::Remove { .. } => true,
            HostCallView::ApplyRoute { .. } => true,
            HostCallView::RemoveRoute { .. } => true,
            HostCallView::Detect { .. } => false,
            HostCallView::Build { .. } => false,
            HostCallView::EnsureSecrets { .. } => false,
            HostCallView::Healthcheck { .. } => false,
        }),
{
}

/// What is published is the event that the store has stored, as it has stored it,
/// and nothing else.
pub proof fn law_what_is_published<Plan>(reply: ReplyView<Plan>, event: StoredEventView)
    ensures
        made_durable(reply) == Some(event) <==> reply == ReplyView::<Plan>::Store(
            StoreReplyView::Event(event),
        ),
{
}

/// A deploy, a recovery and a reservation wait for exactly the replies that their
/// request can get, and for none once they have ended.
pub proof fn law_what_is_awaited<Plan>(
    deploy: DeploymentView<Plan>,
    recovery: ReconciliationView,
    reservation: ReservationView,
    reply: ReplyView<Plan>,
    stored: StoreReplyView,
)
    ensures
        deploy.awaits(reply) <==> deploy.request() is Some && deploy.request()->0.admits(reply),
        recovery.awaits(reply) <==> recovery.request::<Plan>() is Some && recovery.request::<
            Plan,
        >()->0.admits(reply),
        reservation.awaits(stored) <==> reservation.request() is Some
            && reservation.request()->0.admits(stored),
        deploy.result() is Some ==> deploy.request() is None && !deploy.awaits(reply),
        recovery.result() is Some <==> recovery.request::<Plan>() is None,
        reservation.request() is None <==> reservation.phase is Ended,
{
}

} // verus!
