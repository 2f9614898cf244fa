//! The vocabulary of a deploy: its stages, its rows and events, and how it can
//! end.

use crate::text::copied;
use vstd::prelude::*;
use vstd::string::*;

verus! {

/// The stages of a deploy, in the order in which they run.
#[derive(Debug, Clone, Copy, PartialEq, Eq, Structural)]
pub enum Stage {
    Detect,
    Build,
    Secrets,
    Apply,
    Route,
    Healthcheck,
}

/// What happened to a stage.
#[derive(Debug, Clone, Copy, PartialEq, Eq, Structural)]
pub enum EventStatus {
    Started,
    Succeeded,
    Failed,
}

/// Where a deploy stands as a whole.
#[derive(Debug, Clone, Copy, PartialEq, Eq, Structural)]
pub enum DeployStatus {
    InProgress,
    Done,
    RolledBack,
    Failed,
}

/// What an event reports: one stage of a deploy, or its end.
#[derive(Debug, Clone, Copy, PartialEq, Eq, Structural)]
pub enum EventKind {
    Stage { stage: Stage, status: EventStatus },
    Finished { status: DeployStatus },
}

impl Stage {
    /// The position of the stage in the run, counted from zero.
    pub open spec fn position(self) -> int {
        match self {
            Stage::Detect => 0,
            Stage::Build => 1,
            Stage::Secrets => 2,
            Stage::Apply => 3,
            Stage::Route => 4,
            Stage::Healthcheck => 5,
        }
    }

    /// The name of the stage as it appears in texts.
    pub open spec fn label(self) -> Seq<char> {
        match self {
            Stage::Detect => "Detect"@,
            Stage::Build => "Build"@,
            Stage::Secrets => "Secrets"@,
            Stage::Apply => "Apply"@,
            Stage::Route => "Route"@,
            Stage::Healthcheck => "Healthcheck"@,
        }
    }

    /// The name of the stage, for a message.
    pub fn name(self) -> (name: String)
        ensures
            name@ == self.label(),
    {
        match self {
            Stage::Detect => "Detect".to_string(),
            Stage::Build => "Build".to_string(),
            Stage::Secrets => "Secrets".to_string(),
            Stage::Apply => "Apply".to_string(),
            Stage::Route => "Route".to_string(),
            Stage::Healthcheck => "Healthcheck".to_string(),
        }
    }
}

/// The stage at a position of the run.
pub open spec fn stage_at(position: int) -> Stage {
    if position <= 0 {
        Stage::Detect
    } else if position == 1 {
        Stage::Build
    } else if position == 2 {
        Stage::Secrets
    } else if position == 3 {
        Stage::Apply
    } else if position == 4 {
        Stage::Route
    } else {
        Stage::Healthcheck
    }
}

/// One thing that happened to a deploy.
#[derive(Debug, PartialEq, Eq)]
pub struct Event {
    pub deploy_id: i64,
    pub kind: EventKind,
    pub detail: Option<String>,
}

pub struct EventView {
    pub deploy_id: i64,
    pub kind: EventKind,
    pub detail: Option<Seq<char>>,
}

impl View for Event {
    type V = EventView;

    open spec fn view(&self) -> EventView {
        EventView {
            deploy_id: self.deploy_id,
            kind: self.kind,
            detail: self.detail.deep_view(),
        }
    }
}

impl Clone for Event {
    fn clone(&self) -> (copy: Self)
        ensures
            copy@ == self@,
    {
        Event { deploy_id: self.deploy_id, kind: self.kind, detail: copied(&self.detail) }
    }
}

/// The event that says that `stage` of a deploy reached `status`.
pub open spec fn stage_event(
    deploy_id: i64,
    stage: Stage,
    status: EventStatus,
    detail: Option<Seq<char>>,
) -> EventView {
    EventView { deploy_id, kind: EventKind::Stage { stage, status }, detail }
}

/// The event that ends the timeline of a deploy.
pub open spec fn finished_event(
    deploy_id: i64,
    status: DeployStatus,
    detail: Option<Seq<char>>,
) -> EventView {
    EventView { deploy_id, kind: EventKind::Finished { status }, detail }
}

impl Event {
    /// The event that says that `stage` of a deploy reached `status`.
    pub fn for_stage(
        deploy_id: i64,
        stage: Stage,
        status: EventStatus,
        detail: Option<String>,
    ) -> (event: Event)
        ensures
            event@ == stage_event(deploy_id, stage, status, detail.deep_view()),
    {
        Event { deploy_id, kind: EventKind::Stage { stage, status }, detail }
    }
}

/// An event as the store holds it, under the id that the store gave it.
#[derive(Debug, PartialEq, Eq)]
pub struct StoredEvent {
    pub id: i64,
    pub event: Event,
}

pub struct StoredEventView {
    pub id: i64,
    pub event: EventView,
}

impl View for StoredEvent {
    type V = StoredEventView;

    open spec fn view(&self) -> StoredEventView {
        StoredEventView { id: self.id, event: self.event@ }
    }
}

impl DeepView for StoredEvent {
    type V = StoredEventView;

    open spec fn deep_view(&self) -> StoredEventView {
        self.view()
    }
}

impl Clone for StoredEvent {
    fn clone(&self) -> (copy: Self)
        ensures
            copy@ == self@,
    {
        StoredEvent { id: self.id, event: self.event.clone() }
    }
}

/// The durable record of one deploy.
#[derive(Debug, PartialEq, Eq)]
pub struct DeployRow {
    pub id: i64,
    pub app: String,
    pub stage: Stage,
    pub status: DeployStatus,
    pub detail: Option<String>,
}

pub struct DeployRowView {
    pub id: i64,
    pub app: Seq<char>,
    pub stage: Stage,
    pub status: DeployStatus,
    pub detail: Option<Seq<char>>,
}

impl View for DeployRow {
    type V = DeployRowView;

    open spec fn view(&self) -> DeployRowView {
        DeployRowView {
            id: self.id,
            app: self.app@,
            stage: self.stage,
            status: self.status,
            detail: self.detail.deep_view(),
        }
    }
}

impl DeepView for DeployRow {
    type V = DeployRowView;

    open spec fn deep_view(&self) -> DeployRowView {
        self.view()
    }
}

impl Clone for DeployRow {
    fn clone(&self) -> (copy: Self)
        ensures
            copy@ == self@,
    {
        DeployRow {
            id: self.id,
            app: self.app.clone(),
            stage: self.stage,
            status: self.status,
            detail: copied(&self.detail),
        }
    }
}

/// How a deploy ended.
#[derive(Debug, PartialEq, Eq)]
pub enum DeployOutcome {
    /// Every stage passed; the app runs `image`.
    Done { image: String },
    /// A stage failed and what it had changed was undone.
    RolledBack { failed_at: Stage, cause: String },
    /// A stage failed and so did undoing it: the state of the host is unknown.
    Failed { failed_at: Stage, cause: String },
}

pub enum DeployOutcomeView {
    Done { image: Seq<char> },
    RolledBack { failed_at: Stage, cause: Seq<char> },
    Failed { failed_at: Stage, cause: Seq<char> },
}

impl View for DeployOutcome {
    type V = DeployOutcomeView;

    open spec fn view(&self) -> DeployOutcomeView {
        match self {
            DeployOutcome::Done { image } => DeployOutcomeView::Done { image: image@ },
            DeployOutcome::RolledBack { failed_at, cause } => DeployOutcomeView::RolledBack {
                failed_at: *failed_at,
                cause: cause@,
            },
            DeployOutcome::Failed { failed_at, cause } => DeployOutcomeView::Failed {
                failed_at: *failed_at,
                cause: cause@,
            },
        }
    }
}

impl DeepView for DeployOutcome {
    type V = DeployOutcomeView;

    open spec fn deep_view(&self) -> DeployOutcomeView {
        self.view()
    }
}

impl DeployOutcomeView {
    /// The status that the row of a deploy with this outcome carries.
    pub open spec fn status(self) -> DeployStatus {
        match self {
            DeployOutcomeView::Done { .. } => DeployStatus::Done,
            DeployOutcomeView::RolledBack { .. } => DeployStatus::RolledBack,
            DeployOutcomeView::Failed { .. } => DeployStatus::Failed,
        }
    }

    /// What the row and the last event say about why the deploy did not reach
    /// `Done`.
    pub open spec fn detail(self) -> Option<Seq<char>> {
        match self {
            DeployOutcomeView::Done { .. } => None,
            DeployOutcomeView::RolledBack { cause, .. } => Some(cause),
            DeployOutcomeView::Failed { cause, .. } => Some(cause),
        }
    }
}

impl DeployOutcome {
    /// The status that belongs into the row of this deploy.
    pub fn status(&self) -> (status: DeployStatus)
        ensures
            status == self@.status(),
    {
        match self {
            DeployOutcome::Done { .. } => DeployStatus::Done,
            DeployOutcome::RolledBack { .. } => DeployStatus::RolledBack,
            DeployOutcome::Failed { .. } => DeployStatus::Failed,
        }
    }

    /// The cause that belongs into the row of this deploy, where it has one.
    pub fn detail(&self) -> (detail: Option<String>)
        ensures
            detail.deep_view() == self@.detail(),
    {
        match self {
            DeployOutcome::Done { .. } => None,
            DeployOutcome::RolledBack { cause, .. } => Some(cause.clone()),
            DeployOutcome::Failed { cause, .. } => Some(cause.clone()),
        }
    }
}

} // verus!
