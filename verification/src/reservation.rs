//! Reserving a deploy: a row of its own and the lock of the app, before
//! anything runs.

use crate::model::DeployStatus;
use crate::protocol::{StoreCall, StoreCallView, StoreReply, StoreReplyView};
use crate::text::{joined, Failure};
use vstd::prelude::*;
use vstd::string::*;

verus! {

/// Why a deploy could not be reserved. Busy is a conflict that the caller can
/// see and carries the row of the attempt, which is already finished; what
/// went wrong in the store is internal, and is never taken for contention.
#[derive(Debug, PartialEq, Eq)]
pub enum ReserveError {
    Busy { name: String, deploy_id: i64 },
    Internal(Failure),
}

pub enum ReserveErrorView {
    Busy { name: Seq<char>, deploy_id: i64 },
    Internal(Seq<Seq<char>>),
}

impl View for ReserveError {
    type V = ReserveErrorView;

    open spec fn view(&self) -> ReserveErrorView {
        match self {
            ReserveError::Busy { name, deploy_id } => ReserveErrorView::Busy {
                name: name@,
                deploy_id: *deploy_id,
            },
            ReserveError::Internal(failure) => ReserveErrorView::Internal(failure@),
        }
    }
}

impl ReserveErrorView {
    /// The error as a chain of messages.
    pub open spec fn chain(self) -> Seq<Seq<char>> {
        match self {
            ReserveErrorView::Busy { name, .. } => seq![
                "another deploy of "@ + name + " is already in progress"@,
            ],
            ReserveErrorView::Internal(chain) => chain,
        }
    }
}

impl ReserveError {
    /// The error as a chain of messages.
    pub fn into_failure(self) -> (failure: Failure)
        ensures
            failure@ == self@.chain(),
    {
        match self {
            ReserveError::Busy { name, .. } => {
                let text = joined("another deploy of ", name.as_str()).concat(
                    " is already in progress",
                );
                Failure::new(text.as_str())
            },
            ReserveError::Internal(failure) => failure,
        }
    }
}

/// What the row of a refused attempt says.
pub open spec fn refusal() -> Seq<char> {
    "another deploy is already in progress"@
}

/// How far a reservation has come.
#[derive(Debug, PartialEq, Eq)]
pub enum ReservePhase {
    /// A row is being created.
    Creating,
    /// The lock is being taken for the row.
    Locking { deploy_id: i64 },
    /// The lock is held by another deploy; the row is being finished.
    Refusing { deploy_id: i64 },
    Ended { result: Result<i64, ReserveError> },
}

pub enum ReservePhaseView {
    Creating,
    Locking { deploy_id: i64 },
    Refusing { deploy_id: i64 },
    Ended { result: Result<i64, ReserveErrorView> },
}

/// The result of a reservation, seen as plain values.
pub open spec fn reserve_result(result: Result<i64, ReserveError>) -> Result<
    i64,
    ReserveErrorView,
> {
    match result {
        Ok(id) => Ok(id),
        Err(error) => Err(error@),
    }
}

impl View for ReservePhase {
    type V = ReservePhaseView;

    open spec fn view(&self) -> ReservePhaseView {
        match self {
            ReservePhase::Creating => ReservePhaseView::Creating,
            ReservePhase::Locking { deploy_id } => ReservePhaseView::Locking {
                deploy_id: *deploy_id,
            },
            ReservePhase::Refusing { deploy_id } => ReservePhaseView::Refusing {
                deploy_id: *deploy_id,
            },
            ReservePhase::Ended { result } => ReservePhaseView::Ended {
                result: reserve_result(*result),
            },
        }
    }
}

/// A deploy of an app on its way to a row and a lock.
///
/// The row is in progress from the moment it exists, so a crash between the
/// reservation and the first stage leaves what a crash in the middle of the
/// deploy leaves.
#[derive(Debug, PartialEq, Eq)]
pub struct Reservation {
    pub name: String,
    pub phase: ReservePhase,
}

pub struct ReservationView {
    pub name: Seq<char>,
    pub phase: ReservePhaseView,
}

impl View for Reservation {
    type V = ReservationView;

    open spec fn view(&self) -> ReservationView {
        ReservationView { name: self.name@, phase: self.phase@ }
    }
}

impl ReservationView {
    /// The reservation of a deploy of an app, before its first request.
    pub open spec fn start(name: Seq<char>) -> ReservationView {
        ReservationView { name, phase: ReservePhaseView::Creating }
    }

    /// What the reservation waits for, until it has ended.
    pub open spec fn request(self) -> Option<StoreCallView> {
        match self.phase {
            ReservePhaseView::Creating => Some(StoreCallView::CreateDeploy { name: self.name }),
            ReservePhaseView::Locking { deploy_id } => Some(
                StoreCallView::AcquireLock { name: self.name, deploy_id },
            ),
            ReservePhaseView::Refusing { deploy_id } => Some(
                StoreCallView::FinishDeploy {
                    deploy_id,
                    status: DeployStatus::Failed,
                    detail: Some(refusal()),
                },
            ),
            ReservePhaseView::Ended { .. } => None,
        }
    }

    /// Whether a reply of the store is one that the reservation waits for.
    pub open spec fn awaits(self, reply: StoreReplyView) -> bool {
        self.request() is Some && self.request()->0.admits(reply)
    }

    /// The reservation after a reply that it waited for.
    pub open spec fn after(self, reply: StoreReplyView) -> ReservationView {
        let phase = match (self.phase, reply) {
            (_, StoreReplyView::Failed(chain)) => ReservePhaseView::Ended {
                result: Err(ReserveErrorView::Internal(chain)),
            },
            (ReservePhaseView::Creating, StoreReplyView::Created(deploy_id)) =>
                ReservePhaseView::Locking { deploy_id },
            (ReservePhaseView::Locking { deploy_id }, StoreReplyView::Lock { granted }) =>
                if granted {
                    ReservePhaseView::Ended { result: Ok(deploy_id) }
                } else {
                    ReservePhaseView::Refusing { deploy_id }
                },
            (ReservePhaseView::Refusing { deploy_id }, StoreReplyView::Done) =>
                ReservePhaseView::Ended {
                    result: Err(ReserveErrorView::Busy { name: self.name, deploy_id }),
                },
            (phase, _) => phase,
        };
        ReservationView { phase, ..self }
    }

    /// How many replies can still come before the reservation has ended.
    pub open spec fn left(self) -> nat {
        match self.phase {
            ReservePhaseView::Creating => 3,
            ReservePhaseView::Locking { .. } => 2,
            ReservePhaseView::Refusing { .. } => 1,
            ReservePhaseView::Ended { .. } => 0,
        }
    }
}

impl Reservation {
    /// The reservation of a deploy of the app `name`.
    pub fn new(name: &str) -> (reservation: Reservation)
        ensures
            reservation@ == ReservationView::start(name@),
    {
        Reservation { name: name.to_string(), phase: ReservePhase::Creating }
    }

    /// What the reservation waits for, until it has ended.
    pub fn request(&self) -> (request: Option<StoreCall<'_>>)
        ensures
            (match request {
                Some(call) => Some(call@),
                None => None,
            }) == self@.request(),
    {
        match &self.phase {
            ReservePhase::Creating => Some(StoreCall::CreateDeploy { name: self.name.as_str() }),
            ReservePhase::Locking { deploy_id } => Some(
                StoreCall::AcquireLock { name: self.name.as_str(), deploy_id: *deploy_id },
            ),
            ReservePhase::Refusing { deploy_id } => Some(
                StoreCall::FinishDeploy {
                    deploy_id: *deploy_id,
                    status: DeployStatus::Failed,
                    detail: Some("another deploy is already in progress".to_string()),
                },
            ),
            ReservePhase::Ended { .. } => None,
        }
    }

    /// The result of the reservation, once it has ended; the reservation itself
    /// before.
    pub fn into_result(self) -> (result: Result<Result<i64, ReserveError>, Reservation>)
        ensures
            match result {
                Ok(result) => self@.phase == (ReservePhaseView::Ended {
                    result: reserve_result(result),
                }),
                Err(reservation) => !(self@.phase is Ended) && reservation == self,
            },
    {
        match self.phase {
            ReservePhase::Ended { result } => Ok(result),
            _ => Err(self),
        }
    }

    /// Takes the reply to the request.
    pub fn resume(&mut self, reply: StoreReply)
        requires
            old(self)@.awaits(reply@),
        ensures
            final(self)@ == old(self)@.after(reply@),
            final(self)@.left() < old(self)@.left(),
    {
        let deploy_id: i64 = match &self.phase {
            ReservePhase::Locking { deploy_id } => *deploy_id,
            ReservePhase::Refusing { deploy_id } => *deploy_id,
            _ => 0,
        };
        self.phase = match reply {
            StoreReply::Failed(failure) => ReservePhase::Ended {
                result: Err(ReserveError::Internal(failure)),
            },
            StoreReply::Created(id) => ReservePhase::Locking { deploy_id: id },
            StoreReply::Lock { granted: true } => ReservePhase::Ended { result: Ok(deploy_id) },
            StoreReply::Lock { granted: false } => ReservePhase::Refusing { deploy_id },
            _ => ReservePhase::Ended {
                result: Err(ReserveError::Busy { name: self.name.clone(), deploy_id }),
            },
        };
    }
}

} // verus!
