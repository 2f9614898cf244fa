//! What a deploy asks of the world around it, and what it can be told in
//! reply. The engine never performs any of this itself: it hands out one
//! request at a time and waits for the reply.

use crate::model::{
    DeployRow, DeployRowView, DeployStatus, Event, EventView, Stage, StoredEvent, StoredEventView,
};
use crate::spec::{Route, RouteView, WorkloadSpec, WorkloadSpecView};
use crate::text::Failure;
use vstd::prelude::*;

verus! {

/// How long the whole Healthcheck stage may take, in seconds. It bounds the
/// stage from outside: a health command that never resolves fails the stage
/// and rolls the deploy back.
pub const HEALTHCHECK_STAGE_CAP: u64 = 90;

/// A request to the store.
#[derive(Debug, PartialEq, Eq)]
pub enum StoreCall<'a> {
    /// A new row for a deploy of the app, in progress at the first stage.
    CreateDeploy { name: &'a str },
    /// The lock of the app, for this deploy.
    AcquireLock { name: &'a str, deploy_id: i64 },
    /// A terminal status for the row, without an event.
    FinishDeploy { deploy_id: i64, status: DeployStatus, detail: Option<String> },
    /// The lock of the app given back, if it is held.
    ReleaseLock { name: &'a str },
    /// The spec that the last successful deploy of the app stored.
    CurrentSpec { name: &'a str },
    /// The stage that the row of the deploy has reached.
    AdvanceStage { deploy_id: i64, stage: Stage },
    /// A new event.
    AppendEvent { event: Event },
    /// In one transaction: a terminal status for the row, the event that says
    /// so, and the lock of the deploy given back.
    FinishDeployWithEvent { deploy_id: i64, status: DeployStatus, detail: Option<String> },
    /// The spec of an app that was deployed.
    PutSpec { name: &'a str, slug: &'a str, json: &'a str },
    /// Every row that is still in progress.
    InProgressDeploys,
    /// Every lock given back whose deploy is no longer in progress.
    ReleaseOrphanedLocks,
}

pub enum StoreCallView {
    CreateDeploy { name: Seq<char> },
    AcquireLock { name: Seq<char>, deploy_id: i64 },
    FinishDeploy { deploy_id: i64, status: DeployStatus, detail: Option<Seq<char>> },
    ReleaseLock { name: Seq<char> },
    CurrentSpec { name: Seq<char> },
    AdvanceStage { deploy_id: i64, stage: Stage },
    AppendEvent { event: EventView },
    FinishDeployWithEvent { deploy_id: i64, status: DeployStatus, detail: Option<Seq<char>> },
    PutSpec { name: Seq<char>, slug: Seq<char>, json: Seq<char> },
    InProgressDeploys,
    ReleaseOrphanedLocks,
}

impl<'a> View for StoreCall<'a> {
    type V = StoreCallView;

    open spec fn view(&self) -> StoreCallView {
        match self {
            StoreCall::CreateDeploy { name } => StoreCallView::CreateDeploy { name: name@ },
            StoreCall::AcquireLock { name, deploy_id } => StoreCallView::AcquireLock {
                name: name@,
                deploy_id: *deploy_id,
            },
            StoreCall::FinishDeploy { deploy_id, status, detail } => StoreCallView::FinishDeploy {
                deploy_id: *deploy_id,
                status: *status,
                detail: detail.deep_view(),
            },
            StoreCall::ReleaseLock { name } => StoreCallView::ReleaseLock { name: name@ },
            StoreCall::CurrentSpec { name } => StoreCallView::CurrentSpec { name: name@ },
            StoreCall::AdvanceStage { deploy_id, stage } => StoreCallView::AdvanceStage {
                deploy_id: *deploy_id,
                stage: *stage,
            },
            StoreCall::AppendEvent { event } => StoreCallView::AppendEvent { event: event@ },
            StoreCall::FinishDeployWithEvent { deploy_id, status, detail } =>
                StoreCallView::FinishDeployWithEvent {
                deploy_id: *deploy_id,
                status: *status,
                detail: detail.deep_view(),
            },
            StoreCall::PutSpec { name, slug, json } => StoreCallView::PutSpec {
                name: name@,
                slug: slug@,
                json: json@,
            },
            StoreCall::InProgressDeploys => StoreCallView::InProgressDeploys,
            StoreCall::ReleaseOrphanedLocks => StoreCallView::ReleaseOrphanedLocks,
        }
    }
}

/// A request to turn a stored spec into a value, or a value into text.
#[derive(Debug, PartialEq, Eq)]
pub enum CodecCall<'a> {
    Decode { json: &'a str },
    Encode { spec: &'a WorkloadSpec },
}

pub enum CodecCallView {
    Decode { json: Seq<char> },
    Encode { spec: WorkloadSpecView },
}

impl<'a> View for CodecCall<'a> {
    type V = CodecCallView;

    open spec fn view(&self) -> CodecCallView {
        match self {
            CodecCall::Decode { json } => CodecCallView::Decode { json: json@ },
            CodecCall::Encode { spec } => CodecCallView::Encode { spec: spec@ },
        }
    }
}

/// A request to the host. `Plan` is whatever the host found out about a
/// repository and needs again to build it.
#[derive(Debug, PartialEq, Eq)]
pub enum HostCall<'a, Plan> {
    /// Find out how the repository is built.
    Detect { repo: &'a Vec<u8> },
    /// Build the image.
    Build { plan: &'a Plan, slug: &'a str },
    /// Make sure that every named secret exists.
    EnsureSecrets { names: &'a Vec<String> },
    /// Write the unit of the spec and start it.
    Apply { spec: &'a WorkloadSpec },
    /// Stop the unit of the app and remove it.
    Remove { name: &'a str },
    /// Route public traffic to the app.
    ApplyRoute { slug: &'a str, route: &'a Route },
    /// Remove the route of the app, if there is one.
    RemoveRoute { slug: &'a str },
    /// Wait until the app is healthy, for `cap` seconds at most.
    Healthcheck { spec: &'a WorkloadSpec, cap: u64 },
}

pub enum HostCallView<Plan> {
    Detect { repo: Seq<u8> },
    Build { plan: Plan, slug: Seq<char> },
    EnsureSecrets { names: Seq<Seq<char>> },
    Apply { spec: WorkloadSpecView },
    Remove { name: Seq<char> },
    ApplyRoute { slug: Seq<char>, route: RouteView },
    RemoveRoute { slug: Seq<char> },
    Healthcheck { spec: WorkloadSpecView, cap: u64 },
}

impl<'a, Plan> View for HostCall<'a, Plan> {
    type V = HostCallView<Plan>;

    open spec fn view(&self) -> HostCallView<Plan> {
        match self {
            HostCall::Detect { repo } => HostCallView::Detect { repo: repo@ },
            HostCall::Build { plan, slug } => HostCallView::Build { plan: **plan, slug: slug@ },
            HostCall::EnsureSecrets { names } => HostCallView::EnsureSecrets {
                names: names.deep_view(),
            },
            HostCall::Apply { spec } => HostCallView::Apply { spec: spec@ },
            HostCall::Remove { name } => HostCallView::Remove { name: name@ },
            HostCall::ApplyRoute { slug, route } => HostCallView::ApplyRoute {
                slug: slug@,
                route: route@,
            },
            HostCall::RemoveRoute { slug } => HostCallView::RemoveRoute { slug: slug@ },
            HostCall::Healthcheck { spec, cap } => HostCallView::Healthcheck {
                spec: spec@,
                cap: *cap,
            },
        }
    }
}

impl<Plan> HostCallView<Plan> {
    /// Whether performing the request changes what runs on the host or what
    /// is routed to it.
    pub open spec fn changes_host(self) -> bool {
        ||| self is Apply
        ||| self is Remove
        ||| self is ApplyRoute
        ||| self is RemoveRoute
    }
}

/// What the engine waits for.
#[derive(Debug, PartialEq, Eq)]
pub enum Request<'a, Plan> {
    Store(StoreCall<'a>),
    Codec(CodecCall<'a>),
    Host(HostCall<'a, Plan>),
}

pub enum RequestView<Plan> {
    Store(StoreCallView),
    Codec(CodecCallView),
    Host(HostCallView<Plan>),
}

impl<'a, Plan> View for Request<'a, Plan> {
    type V = RequestView<Plan>;

    open spec fn view(&self) -> RequestView<Plan> {
        match self {
            Request::Store(call) => RequestView::Store(call@),
            Request::Codec(call) => RequestView::Codec(call@),
            Request::Host(call) => RequestView::Host(call@),
        }
    }
}

/// A reply of the store.
#[derive(Debug, PartialEq, Eq)]
pub enum StoreReply {
    Done,
    Created(i64),
    Lock { granted: bool },
    Spec(Option<String>),
    Event(StoredEvent),
    Rows(Vec<DeployRow>),
    Apps(Vec<String>),
    Failed(Failure),
}

pub enum StoreReplyView {
    Done,
    Created(i64),
    Lock { granted: bool },
    Spec(Option<Seq<char>>),
    Event(StoredEventView),
    Rows(Seq<DeployRowView>),
    Apps(Seq<Seq<char>>),
    Failed(Seq<Seq<char>>),
}

impl View for StoreReply {
    type V = StoreReplyView;

    open spec fn view(&self) -> StoreReplyView {
        match self {
            StoreReply::Done => StoreReplyView::Done,
            StoreReply::Created(id) => StoreReplyView::Created(*id),
            StoreReply::Lock { granted } => StoreReplyView::Lock { granted: *granted },
            StoreReply::Spec(json) => StoreReplyView::Spec(json.deep_view()),
            StoreReply::Event(event) => StoreReplyView::Event(event@),
            StoreReply::Rows(rows) => StoreReplyView::Rows(rows.deep_view()),
            StoreReply::Apps(apps) => StoreReplyView::Apps(apps.deep_view()),
            StoreReply::Failed(failure) => StoreReplyView::Failed(failure@),
        }
    }
}

/// A reply to a codec request.
#[derive(Debug, PartialEq, Eq)]
pub enum CodecReply {
    Spec(WorkloadSpec),
    Json(String),
    Failed(Failure),
}

pub enum CodecReplyView {
    Spec(WorkloadSpecView),
    Json(Seq<char>),
    Failed(Seq<Seq<char>>),
}

impl View for CodecReply {
    type V = CodecReplyView;

    open spec fn view(&self) -> CodecReplyView {
        match self {
            CodecReply::Spec(spec) => CodecReplyView::Spec(spec@),
            CodecReply::Json(json) => CodecReplyView::Json(json@),
            CodecReply::Failed(failure) => CodecReplyView::Failed(failure@),
        }
    }
}

/// A reply of the host.
#[derive(Debug, PartialEq, Eq)]
pub enum HostReply<Plan> {
    Done,
    Plan(Plan),
    Image(String),
    /// The health check did not resolve within its cap.
    TimedOut,
    Failed(Failure),
}

pub enum HostReplyView<Plan> {
    Done,
    Plan(Plan),
    Image(Seq<char>),
    TimedOut,
    Failed(Seq<Seq<char>>),
}

impl<Plan> View for HostReply<Plan> {
    type V = HostReplyView<Plan>;

    open spec fn view(&self) -> HostReplyView<Plan> {
        match self {
            HostReply::Done => HostReplyView::Done,
            HostReply::Plan(plan) => HostReplyView::Plan(*plan),
            HostReply::Image(image) => HostReplyView::Image(image@),
            HostReply::TimedOut => HostReplyView::TimedOut,
            HostReply::Failed(failure) => HostReplyView::Failed(failure@),
        }
    }
}

/// What the engine is told.
#[derive(Debug, PartialEq, Eq)]
pub enum Reply<Plan> {
    Store(StoreReply),
    Codec(CodecReply),
    Host(HostReply<Plan>),
}

pub enum ReplyView<Plan> {
    Store(StoreReplyView),
    Codec(CodecReplyView),
    Host(HostReplyView<Plan>),
}

impl<Plan> View for Reply<Plan> {
    type V = ReplyView<Plan>;

    open spec fn view(&self) -> ReplyView<Plan> {
        match self {
            Reply::Store(reply) => ReplyView::Store(reply@),
            Reply::Codec(reply) => ReplyView::Codec(reply@),
            Reply::Host(reply) => ReplyView::Host(reply@),
        }
    }
}

impl<Plan> DeepView for Reply<Plan> {
    type V = ReplyView<Plan>;

    open spec fn deep_view(&self) -> ReplyView<Plan> {
        self.view()
    }
}

impl StoreCallView {
    /// Whether a reply of the store is one that this request can get.
    pub open spec fn admits(self, reply: StoreReplyView) -> bool {
        ||| reply is Failed
        ||| match self {
            StoreCallView::CreateDeploy { .. } => reply is Created,
            StoreCallView::AcquireLock { .. } => reply is Lock,
            StoreCallView::FinishDeploy { .. } => reply is Done,
            StoreCallView::ReleaseLock { .. } => reply is Done,
            StoreCallView::CurrentSpec { .. } => reply is Spec,
            StoreCallView::AdvanceStage { .. } => reply is Done,
            StoreCallView::AppendEvent { .. } => reply is Event,
            StoreCallView::FinishDeployWithEvent { .. } => reply is Event,
            StoreCallView::PutSpec { .. } => reply is Done,
            StoreCallView::InProgressDeploys => reply is Rows,
            StoreCallView::ReleaseOrphanedLocks => reply is Apps,
        }
    }
}

impl CodecCallView {
    /// Whether a reply is one that this request can get.
    pub open spec fn admits(self, reply: CodecReplyView) -> bool {
        ||| reply is Failed
        ||| match self {
            CodecCallView::Decode { .. } => reply is Spec,
            CodecCallView::Encode { .. } => reply is Json,
        }
    }
}

impl<Plan> HostCallView<Plan> {
    /// Whether a reply of the host is one that this request can get.
    pub open spec fn admits(self, reply: HostReplyView<Plan>) -> bool {
        ||| reply is Failed
        ||| match self {
            HostCallView::Detect { .. } => reply is Plan,
            HostCallView::Build { .. } => reply is Image,
            HostCallView::Healthcheck { .. } => reply is Done || reply is TimedOut,
            _ => reply is Done,
        }
    }
}

impl<Plan> RequestView<Plan> {
    /// Whether a reply is one that this request can get.
    pub open spec fn admits(self, reply: ReplyView<Plan>) -> bool {
        match (self, reply) {
            (RequestView::Store(call), ReplyView::Store(reply)) => call.admits(reply),
            (RequestView::Codec(call), ReplyView::Codec(reply)) => call.admits(reply),
            (RequestView::Host(call), ReplyView::Host(reply)) => call.admits(reply),
            _ => false,
        }
    }
}

impl<'a> StoreCall<'a> {
    /// Whether a reply of the store is one that this request can get.
    pub fn admits(&self, reply: &StoreReply) -> (yes: bool)
        ensures
            yes == self@.admits(reply@),
    {
        match reply {
            StoreReply::Failed(_) => true,
            StoreReply::Created(_) => matches!(self, StoreCall::CreateDeploy { .. }),
            StoreReply::Lock { .. } => matches!(self, StoreCall::AcquireLock { .. }),
            StoreReply::Spec(_) => matches!(self, StoreCall::CurrentSpec { .. }),
            StoreReply::Event(_) => matches!(
                self,
                StoreCall::AppendEvent { .. } | StoreCall::FinishDeployWithEvent { .. }
            ),
            StoreReply::Rows(_) => matches!(self, StoreCall::InProgressDeploys),
            StoreReply::Apps(_) => matches!(self, StoreCall::ReleaseOrphanedLocks),
            StoreReply::Done => matches!(
                self,
                StoreCall::FinishDeploy { .. } | StoreCall::ReleaseLock { .. }
                | StoreCall::AdvanceStage { .. } | StoreCall::PutSpec { .. }
            ),
        }
    }
}

impl<'a> CodecCall<'a> {
    /// Whether a reply is one that this request can get.
    pub fn admits(&self, reply: &CodecReply) -> (yes: bool)
        ensures
            yes == self@.admits(reply@),
    {
        match reply {
            CodecReply::Failed(_) => true,
            CodecReply::Spec(_) => matches!(self, CodecCall::Decode { .. }),
            CodecReply::Json(_) => matches!(self, CodecCall::Encode { .. }),
        }
    }
}

impl<'a, Plan> HostCall<'a, Plan> {
    /// Whether a reply of the host is one that this request can get.
    pub fn admits(&self, reply: &HostReply<Plan>) -> (yes: bool)
        ensures
            yes == self@.admits(reply@),
    {
        match reply {
            HostReply::Failed(_) => true,
            HostReply::Plan(_) => matches!(self, HostCall::Detect { .. }),
            HostReply::Image(_) => matches!(self, HostCall::Build { .. }),
            HostReply::TimedOut => matches!(self, HostCall::Healthcheck { .. }),
            HostReply::Done => !matches!(self, HostCall::Detect { .. } | HostCall::Build { .. }),
        }
    }
}

impl<'a, Plan> Request<'a, Plan> {
    /// Whether a reply is one that this request can get.
    pub fn admits(&self, reply: &Reply<Plan>) -> (yes: bool)
        ensures
            yes == self@.admits(reply@),
    {
        match (self, reply) {
            (Request::Store(call), Reply::Store(reply)) => call.admits(reply),
            (Request::Codec(call), Reply::Codec(reply)) => call.admits(reply),
            (Request::Host(call), Reply::Host(reply)) => call.admits(reply),
            _ => false,
        }
    }
}

} // verus!
