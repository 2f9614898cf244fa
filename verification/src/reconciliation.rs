//! Recovering from a crash: every deploy that is still in progress is rolled
//! back to the last good state, the way a failed stage is, and its lock is
//! given back. Where nothing is in progress there is nothing to do, so it is
//! safe to run on every start.

use crate::deployment::{finished, made_durable};
use crate::model::{DeployOutcome, DeployOutcomeView, DeployRow, DeployRowView, Stage, StoredEvent};
use crate::protocol::{
    CodecCall, CodecCallView, CodecReply, CodecReplyView, HostReply, HostReplyView, Reply,
    ReplyView, Request, RequestView, StoreCall, StoreCallView, StoreReply, StoreReplyView,
};
use crate::spec::{slug, slug_of, WorkloadSpec, WorkloadSpecView};
use crate::text::{joined, one_line, Failure};
use crate::unwind::{compensate, first_unwind, Unwind};
use vstd::prelude::*;
use vstd::string::*;

verus! {

/// What a recovery did: how each deploy that it found in progress ended, and
/// a line for each lock that it freed besides.
#[derive(Debug, PartialEq, Eq)]
pub struct Recovery {
    pub outcomes: Vec<DeployOutcome>,
    pub notices: Vec<String>,
}

pub struct RecoveryView {
    pub outcomes: Seq<DeployOutcomeView>,
    pub notices: Seq<Seq<char>>,
}

impl View for Recovery {
    type V = RecoveryView;

    open spec fn view(&self) -> RecoveryView {
        RecoveryView { outcomes: self.outcomes.deep_view(), notices: self.notices.deep_view() }
    }
}

/// The result of a recovery, seen as plain values.
pub open spec fn recovery_result(result: Result<Recovery, Failure>) -> Result<
    RecoveryView,
    Seq<Seq<char>>,
> {
    match result {
        Ok(recovery) => Ok(recovery@),
        Err(failure) => Err(failure@),
    }
}

/// The cause of a deploy that was rolled back because of a crash.
pub open spec fn crashed_at(stage: Stage) -> Seq<char> {
    "reconciled after restart (was in progress at "@ + stage.label() + ")"@
}

/// The cause of a deploy that a crash left and that could not be undone.
pub open spec fn stuck(undoing: Seq<Seq<char>>) -> Seq<char> {
    "reconcile compensation failed: "@ + one_line(undoing)
}

/// The line that says that the lock of an app was freed.
pub open spec fn freed(app: Seq<char>) -> Seq<char> {
    "released orphaned lock: "@ + app
}

/// How far a recovery has come. Each phase but the last waits for one reply.
#[derive(Debug, PartialEq, Eq)]
pub enum RecoveryPhase {
    /// The deploys in progress are being read.
    Listing,
    /// The spec of the last successful deploy of the app is being read.
    Loading { row: DeployRow },
    /// It was there, and is being turned into a value.
    Decoding { row: DeployRow, json: String },
    /// What the deploy did to the host is being undone.
    Unwinding { row: DeployRow, step: Unwind },
    /// The end of the deploy is being stored.
    Finishing { row: DeployRow, outcome: DeployOutcome },
    /// The lock of the app is being given back.
    Releasing { row: DeployRow, outcome: DeployOutcome },
    /// The locks of deploys that had ended before are being given back.
    Sweeping,
    Ended { result: Result<Recovery, Failure> },
}

pub enum RecoveryPhaseView {
    Listing,
    Loading { row: DeployRowView },
    Decoding { row: DeployRowView, json: Seq<char> },
    Unwinding { row: DeployRowView, step: Unwind },
    Finishing { row: DeployRowView, outcome: DeployOutcomeView },
    Releasing { row: DeployRowView, outcome: DeployOutcomeView },
    Sweeping,
    Ended { result: Result<RecoveryView, Seq<Seq<char>>> },
}

impl View for RecoveryPhase {
    type V = RecoveryPhaseView;

    open spec fn view(&self) -> RecoveryPhaseView {
        match self {
            RecoveryPhase::Listing => RecoveryPhaseView::Listing,
            RecoveryPhase::Loading { row } => RecoveryPhaseView::Loading { row: row@ },
            RecoveryPhase::Decoding { row, json } => RecoveryPhaseView::Decoding {
                row: row@,
                json: json@,
            },
            RecoveryPhase::Unwinding { row, step } => RecoveryPhaseView::Unwinding {
                row: row@,
                step: *step,
            },
            RecoveryPhase::Finishing { row, outcome } => RecoveryPhaseView::Finishing {
                row: row@,
                outcome: outcome@,
            },
            RecoveryPhase::Releasing { row, outcome } => RecoveryPhaseView::Releasing {
                row: row@,
                outcome: outcome@,
            },
            RecoveryPhase::Sweeping => RecoveryPhaseView::Sweeping,
            RecoveryPhase::Ended { result } => RecoveryPhaseView::Ended {
                result: recovery_result(*result),
            },
        }
    }
}

impl RecoveryPhaseView {
    /// How many replies the phases of one deploy can still take.
    pub open spec fn left(self) -> int {
        match self {
            RecoveryPhaseView::Listing => 0,
            RecoveryPhaseView::Loading { .. } => 7,
            RecoveryPhaseView::Decoding { .. } => 6,
            RecoveryPhaseView::Unwinding { step, .. } => 3 + step.left() as int,
            RecoveryPhaseView::Finishing { .. } => 3,
            RecoveryPhaseView::Releasing { .. } => 2,
            RecoveryPhaseView::Sweeping => 1,
            RecoveryPhaseView::Ended { .. } => 0,
        }
    }
}

/// A recovery from a crash.
#[derive(Debug, PartialEq, Eq)]
pub struct Reconciliation {
    /// The deploys that are still to be rolled back.
    pub waiting: Vec<DeployRow>,
    /// How the deploys that were rolled back ended.
    pub outcomes: Vec<DeployOutcome>,
    /// The slug of the app whose deploy is being rolled back.
    pub slug: String,
    /// The spec that the last successful deploy of that app stored.
    pub previous: Option<WorkloadSpec>,
    pub phase: RecoveryPhase,
}

pub struct ReconciliationView {
    pub waiting: Seq<DeployRowView>,
    pub outcomes: Seq<DeployOutcomeView>,
    pub slug: Seq<char>,
    pub previous: Option<WorkloadSpecView>,
    pub phase: RecoveryPhaseView,
}

impl View for Reconciliation {
    type V = ReconciliationView;

    open spec fn view(&self) -> ReconciliationView {
        ReconciliationView {
            waiting: self.waiting.deep_view(),
            outcomes: self.outcomes.deep_view(),
            slug: self.slug@,
            previous: self.previous.deep_view(),
            phase: self.phase@,
        }
    }
}

impl ReconciliationView {
    /// A recovery before its first request.
    pub open spec fn start() -> ReconciliationView {
        ReconciliationView {
            waiting: Seq::empty(),
            outcomes: Seq::empty(),
            slug: Seq::empty(),
            previous: None,
            phase: RecoveryPhaseView::Listing,
        }
    }

    /// What the recovery waits for, until it has ended.
    pub open spec fn request<Plan>(self) -> Option<RequestView<Plan>> {
        match self.phase {
            RecoveryPhaseView::Listing => Some(
                RequestView::Store(StoreCallView::InProgressDeploys),
            ),
            RecoveryPhaseView::Loading { row } => Some(
                RequestView::Store(StoreCallView::CurrentSpec { name: row.app }),
            ),
            RecoveryPhaseView::Decoding { json, .. } => Some(
                RequestView::Codec(CodecCallView::Decode { json }),
            ),
            RecoveryPhaseView::Unwinding { row, step } => Some(
                RequestView::Host(step.call(row.app, self.slug, self.previous)),
            ),
            RecoveryPhaseView::Finishing { row, outcome } => Some(
                RequestView::Store(
                    StoreCallView::FinishDeployWithEvent {
                        deploy_id: row.id,
                        status: outcome.status(),
                        detail: outcome.detail(),
                    },
                ),
            ),
            RecoveryPhaseView::Releasing { row, .. } => Some(
                RequestView::Store(StoreCallView::ReleaseLock { name: row.app }),
            ),
            RecoveryPhaseView::Sweeping => Some(
                RequestView::Store(StoreCallView::ReleaseOrphanedLocks),
            ),
            RecoveryPhaseView::Ended { .. } => None,
        }
    }

    /// Whether a reply is one that the recovery waits for.
    pub open spec fn awaits<Plan>(self, reply: ReplyView<Plan>) -> bool {
        self.request::<Plan>() is Some && self.request::<Plan>()->0.admits(reply)
    }

    /// The recovery in another phase.
    pub open spec fn with(self, phase: RecoveryPhaseView) -> ReconciliationView {
        ReconciliationView { phase, ..self }
    }

    /// The recovery given up because of an error.
    pub open spec fn aborted(self, error: Seq<Seq<char>>) -> ReconciliationView {
        self.with(RecoveryPhaseView::Ended { result: Err(error) })
    }

    /// The recovery turned to the next deploy that waits, or to the locks that
    /// are left over.
    pub open spec fn turned(self) -> ReconciliationView {
        if self.waiting.len() == 0 {
            self.with(RecoveryPhaseView::Sweeping)
        } else {
            ReconciliationView {
                waiting: self.waiting.drop_first(),
                slug: slug_of(self.waiting[0].app),
                previous: None,
                phase: RecoveryPhaseView::Loading { row: self.waiting[0] },
                ..self
            }
        }
    }

    /// The recovery once everything up to a step of undoing the deploy is
    /// undone.
    pub open spec fn unwound(self, row: DeployRowView, step: Option<Unwind>) -> ReconciliationView {
        match step {
            Some(step) => self.with(RecoveryPhaseView::Unwinding { row, step }),
            None => self.with(
                RecoveryPhaseView::Finishing {
                    row,
                    outcome: DeployOutcomeView::RolledBack {
                        failed_at: row.stage,
                        cause: crashed_at(row.stage),
                    },
                },
            ),
        }
    }

    /// The recovery after a reply that it waited for.
    pub open spec fn after<Plan>(self, reply: ReplyView<Plan>) -> ReconciliationView {
        match (self.phase, reply) {
            (_, ReplyView::Store(StoreReplyView::Failed(error))) => self.aborted(error),
            (RecoveryPhaseView::Listing, ReplyView::Store(StoreReplyView::Rows(rows))) =>
                ReconciliationView { waiting: rows, ..self }.turned(),
            (RecoveryPhaseView::Loading { row }, ReplyView::Store(StoreReplyView::Spec(None))) =>
                self.unwound(row, first_unwind(row.stage)),
            (
                RecoveryPhaseView::Loading { row },
                ReplyView::Store(StoreReplyView::Spec(Some(json))),
            ) => self.with(RecoveryPhaseView::Decoding { row, json }),
            (
                RecoveryPhaseView::Decoding { .. },
                ReplyView::Codec(CodecReplyView::Failed(error)),
            ) => self.aborted(seq!["parsing the previously stored spec"@] + error),
            (
                RecoveryPhaseView::Decoding { row, .. },
                ReplyView::Codec(CodecReplyView::Spec(spec)),
            ) => ReconciliationView { previous: Some(spec), ..self }.unwound(
                row,
                first_unwind(row.stage),
            ),
            (
                RecoveryPhaseView::Unwinding { row, .. },
                ReplyView::Host(HostReplyView::Failed(error)),
            ) => self.with(
                RecoveryPhaseView::Finishing {
                    row,
                    outcome: DeployOutcomeView::Failed {
                        failed_at: row.stage,
                        cause: stuck(error),
                    },
                },
            ),
            (RecoveryPhaseView::Unwinding { row, step }, _) => self.unwound(row, step.next()),
            (RecoveryPhaseView::Finishing { row, outcome }, _) => self.with(
                RecoveryPhaseView::Releasing { row, outcome },
            ),
            (RecoveryPhaseView::Releasing { outcome, .. }, _) => ReconciliationView {
                outcomes: self.outcomes.push(outcome),
                ..self
            }.turned(),
            (RecoveryPhaseView::Sweeping, ReplyView::Store(StoreReplyView::Apps(apps))) =>
                ReconciliationView {
                    outcomes: Seq::empty(),
                    phase: RecoveryPhaseView::Ended {
                        result: Ok(
                            RecoveryView {
                                outcomes: self.outcomes,
                                notices: apps.map_values(|app: Seq<char>| freed(app)),
                            },
                        ),
                    },
                    ..self
                },
            _ => self,
        }
    }

    /// How many replies can still come before the recovery has ended, once the
    /// deploys in progress are known.
    pub open spec fn left(self) -> int {
        6 * self.waiting.len() + self.phase.left()
    }

    /// The result of the recovery, once it has ended.
    pub open spec fn result(self) -> Option<Result<RecoveryView, Seq<Seq<char>>>> {
        match self.phase {
            RecoveryPhaseView::Ended { result } => Some(result),
            _ => None,
        }
    }
}

/// The lines that say which locks were freed.
fn notices(apps: Vec<String>) -> (lines: Vec<String>)
    ensures
        lines.deep_view() == apps.deep_view().map_values(|app: Seq<char>| freed(app)),
{
    let mut lines: Vec<String> = Vec::new();
    for i in 0..apps.len()
        invariant
            lines.len() == i,
            forall|j: int| 0 <= j < i ==> lines[j]@ == freed(apps[j]@),
    {
        lines.push(joined("released orphaned lock: ", apps[i].as_str()));
    }
    assert(lines.deep_view() =~= apps.deep_view().map_values(|app: Seq<char>| freed(app)));
    lines
}

/// The phase of a recovery that has undone a deploy up to `step`.
fn unwind(row: DeployRow, step: Option<Unwind>) -> (phase: RecoveryPhase)
    ensures
        phase@ == (match step {
            Some(step) => RecoveryPhaseView::Unwinding { row: row@, step },
            None => RecoveryPhaseView::Finishing {
                row: row@,
                outcome: DeployOutcomeView::RolledBack {
                    failed_at: row.stage,
                    cause: crashed_at(row.stage),
                },
            },
        }),
{
    match step {
        Some(step) => RecoveryPhase::Unwinding { row, step },
        None => {
            let failed_at = row.stage;
            let cause = joined(
                "reconciled after restart (was in progress at ",
                failed_at.name().as_str(),
            ).concat(")");
            RecoveryPhase::Finishing {
                row,
                outcome: DeployOutcome::RolledBack { failed_at, cause },
            }
        },
    }
}

impl Reconciliation {
    /// A recovery before its first request.
    pub fn new() -> (reconciliation: Reconciliation)
        ensures
            reconciliation@ == ReconciliationView::start(),
    {
        let reconciliation = Reconciliation {
            waiting: Vec::new(),
            outcomes: Vec::new(),
            slug: String::new(),
            previous: None,
            phase: RecoveryPhase::Listing,
        };
        assert(reconciliation@.waiting =~= Seq::empty());
        assert(reconciliation@.outcomes =~= Seq::empty());
        reconciliation
    }

    /// What the recovery waits for, until it has ended.
    pub fn request<Plan>(&self) -> (request: Option<Request<'_, Plan>>)
        ensures
            (match request {
                Some(request) => Some(request@),
                None => None,
            }) == self@.request::<Plan>(),
    {
        let call = match &self.phase {
            RecoveryPhase::Listing => StoreCall::InProgressDeploys,
            RecoveryPhase::Loading { row } => StoreCall::CurrentSpec { name: row.app.as_str() },
            RecoveryPhase::Decoding { json, .. } => {
                return Some(Request::Codec(CodecCall::Decode { json: json.as_str() }));
            },
            RecoveryPhase::Unwinding { row, step } => {
                return Some(
                    Request::Host(
                        step.request(row.app.as_str(), self.slug.as_str(), &self.previous),
                    ),
                );
            },
            RecoveryPhase::Finishing { row, outcome } => finished(
                row.id,
                outcome.status(),
                outcome.detail(),
            ),
            RecoveryPhase::Releasing { row, .. } => StoreCall::ReleaseLock {
                name: row.app.as_str(),
            },
            RecoveryPhase::Sweeping => StoreCall::ReleaseOrphanedLocks,
            RecoveryPhase::Ended { .. } => return None,
        };
        Some(Request::Store(call))
    }

    /// The result of the recovery, once it has ended; the recovery itself
    /// before.
    pub fn into_result(self) -> (result: Result<Result<Recovery, Failure>, Reconciliation>)
        ensures
            match result {
                Ok(result) => self@.result() == Some(recovery_result(result)),
                Err(reconciliation) => self@.result() is None && reconciliation == self,
            },
    {
        match self.phase {
            RecoveryPhase::Ended { result } => Ok(result),
            _ => Err(self),
        }
    }

    /// Takes the reply to the request. The event that the reply made durable,
    /// if it did, is handed back to be published before the next request is
    /// performed.
    pub fn resume<Plan>(self, reply: Reply<Plan>) -> (next: (Reconciliation, Option<StoredEvent>))
        requires
            self@.awaits(reply@),
        ensures
            next.0@ == self@.after(reply@),
            next.1.deep_view() == made_durable(reply@),
            !(next.0@.phase is Listing),
            0 <= next.0@.left(),
            self@.phase is Listing || next.0@.left() < self@.left(),
    {
        let Reconciliation { waiting, outcomes, slug, previous, phase } = self;
        let mut waiting = waiting;
        let mut outcomes = outcomes;
        let mut slug = slug;
        let mut previous = previous;
        let mut event: Option<StoredEvent> = None;
        let mut turning = false;
        let mut phase = match (phase, reply) {
            (_, Reply::Store(StoreReply::Failed(error))) => RecoveryPhase::Ended {
                result: Err(error),
            },
            (RecoveryPhase::Listing, Reply::Store(StoreReply::Rows(rows))) => {
                waiting = rows;
                turning = true;
                RecoveryPhase::Sweeping
            },
            (RecoveryPhase::Loading { row }, Reply::Store(StoreReply::Spec(None))) => {
                let first = compensate(row.stage);
                unwind(row, first)
            },
            (RecoveryPhase::Loading { row }, Reply::Store(StoreReply::Spec(Some(json)))) =>
                RecoveryPhase::Decoding { row, json },
            (RecoveryPhase::Decoding { .. }, Reply::Codec(CodecReply::Failed(error))) =>
                RecoveryPhase::Ended {
                    result: Err(error.context("parsing the previously stored spec")),
                },
            (RecoveryPhase::Decoding { row, .. }, Reply::Codec(CodecReply::Spec(spec))) => {
                previous = Some(spec);
                let first = compensate(row.stage);
                unwind(row, first)
            },
            (RecoveryPhase::Unwinding { row, .. }, Reply::Host(HostReply::Failed(error))) => {
                let failed_at = row.stage;
                let cause = joined("reconcile compensation failed: ", error.one_line().as_str());
                RecoveryPhase::Finishing { row, outcome: DeployOutcome::Failed { failed_at, cause } }
            },
            (RecoveryPhase::Unwinding { row, step }, _) => unwind(row, step.following()),
            (
                RecoveryPhase::Finishing { row, outcome },
                Reply::Store(StoreReply::Event(stored)),
            ) => {
                event = Some(stored);
                RecoveryPhase::Releasing { row, outcome }
            },
            (RecoveryPhase::Releasing { outcome, .. }, _) => {
                let ghost so_far = outcomes.deep_view();
                outcomes.push(outcome);
                assert(outcomes.deep_view() =~= so_far.push(outcome@));
                turning = true;
                RecoveryPhase::Sweeping
            },
            (RecoveryPhase::Sweeping, Reply::Store(StoreReply::Apps(apps))) => {
                let notices = notices(apps);
                let done = outcomes;
                outcomes = Vec::new();
                assert(outcomes.deep_view() =~= Seq::empty());
                RecoveryPhase::Ended { result: Ok(Recovery { outcomes: done, notices }) }
            },
            (phase, _) => phase,
        };
        if turning && waiting.len() > 0 {
            let ghost rows = waiting.deep_view();
            let row = waiting.remove(0);
            assert(waiting.deep_view() =~= rows.drop_first());
            slug = crate::spec::slug(row.app.as_str());
            previous = None;
            phase = RecoveryPhase::Loading { row };
        }
        (Reconciliation { waiting, outcomes, slug, previous, phase }, event)
    }
}

} // verus!
