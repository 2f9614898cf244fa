//! Whole deploys and recoveries: the machines run against a ledger, a
//! subscriber and the replies of the world outside.

use crate::ctx::{law_reply_is_admitted, lemma_spent, Ctx, CtxView};
use crate::deployment::{run_result, Deployment, DeploymentView, PhaseView, RunError, RunErrorView};
use crate::model::{DeployOutcome, DeployOutcomeView, DeployRowView, DeployStatus, Stage};
use crate::protocol::{Reply, ReplyView, Request, RequestView, StoreCallView};
use crate::reconciliation::{recovery_result, Reconciliation, ReconciliationView, Recovery};
use crate::reservation::{
    refusal, reserve_result, Reservation, ReservationView, ReserveError, ReserveErrorView,
    ReservePhaseView,
};
use crate::spec::{WorkloadSpec, WorkloadSpecView};
use crate::store::{full, LockView, StoreView};
use crate::text::Failure;
use vstd::prelude::*;

verus! {

/// A request and the reply to it.
pub struct Exchange<Plan> {
    pub request: RequestView<Plan>,
    pub reply: ReplyView<Plan>,
}

/// A deploy, the place where it runs, and every request that was replied to.
pub struct DeployScene<Plan> {
    pub deploy: DeploymentView<Plan>,
    pub ctx: CtxView<Plan>,
    pub log: Seq<Exchange<Plan>>,
}

impl<Plan> DeployScene<Plan> {
    /// The scene before the first request.
    pub open spec fn start(deploy: DeploymentView<Plan>, ctx: CtxView<Plan>) -> DeployScene<Plan> {
        DeployScene { deploy, ctx, log: Seq::empty() }
    }

    /// Whether the deploy has ended, or waits for a reply that never comes.
    pub open spec fn stands(self) -> bool {
        self.deploy.request() is None || self.ctx.reply(self.deploy.request()->0) is None
    }

    /// The scene after the request that is due. A scene that stands stays as
    /// it is.
    pub open spec fn next(self) -> DeployScene<Plan> {
        if self.stands() {
            self
        } else {
            let request = self.deploy.request()->0;
            let reply = self.ctx.reply(request)->0;
            DeployScene {
                deploy: self.deploy.after(reply),
                ctx: self.ctx.replied(request).published(reply),
                log: self.log.push(Exchange { request, reply }),
            }
        }
    }

    /// The scene after `count` requests, or after fewer if it stands before.
    pub open spec fn after(self, count: nat) -> DeployScene<Plan>
        decreases count,
    {
        if count == 0 {
            self
        } else {
            self.after((count - 1) as nat).next()
        }
    }

    /// The scene in which the deploy comes to a stand.
    pub open spec fn end(self) -> DeployScene<Plan> {
        self.after(self.deploy.phase.left() as nat)
    }
}

/// A recovery, the place where it runs, and every request that was replied to.
pub struct RecoveryScene<Plan> {
    pub recovery: ReconciliationView,
    pub ctx: CtxView<Plan>,
    pub log: Seq<Exchange<Plan>>,
}

impl<Plan> RecoveryScene<Plan> {
    /// The scene before the first request.
    pub open spec fn start(ctx: CtxView<Plan>) -> RecoveryScene<Plan> {
        RecoveryScene { recovery: ReconciliationView::start(), ctx, log: Seq::empty() }
    }

    /// Whether the recovery has ended, or waits for a reply that never comes.
    pub open spec fn stands(self) -> bool {
        self.recovery.request::<Plan>() is None || self.ctx.reply(
            self.recovery.request::<Plan>()->0,
        ) is None
    }

    /// The scene after the request that is due. A scene that stands stays as
    /// it is.
    pub open spec fn next(self) -> RecoveryScene<Plan> {
        if self.stands() {
            self
        } else {
            let request = self.recovery.request::<Plan>()->0;
            let reply = self.ctx.reply(request)->0;
            RecoveryScene {
                recovery: self.recovery.after(reply),
                ctx: self.ctx.replied(request).published(reply),
                log: self.log.push(Exchange { request, reply }),
            }
        }
    }

    /// The scene after `count` requests, or after fewer if it stands before.
    pub open spec fn after(self, count: nat) -> RecoveryScene<Plan>
        decreases count,
    {
        if count == 0 {
            self
        } else {
            self.after((count - 1) as nat).next()
        }
    }

    /// The scene in which the recovery comes to a stand.
    pub open spec fn end(self) -> RecoveryScene<Plan> {
        self.after(recovery_bound(self.ctx.store))
    }
}

/// A request of a deploy that is replied to brings the deploy closer to its
/// end.
pub proof fn law_deploy_comes_closer<Plan>(scene: DeployScene<Plan>)
    ensures
        0 <= scene.deploy.phase.left(),
        !scene.stands() ==> scene.next().deploy.phase.left() < scene.deploy.phase.left(),
{
    if !scene.stands() {
        law_reply_is_admitted(scene.ctx, scene.deploy.request()->0);
    }
}

/// What stands is not changed by waiting longer.
proof fn lemma_deploy_stays<Plan>(scene: DeployScene<Plan>, count: nat, more: nat)
    requires
        scene.after(count).stands(),
        count <= more,
    ensures
        scene.after(more) == scene.after(count),
    decreases more,
{
    if count < more {
        lemma_deploy_stays(scene, count, (more - 1) as nat);
    }
}

/// Runs a deploy until it stands.
fn drive<Plan>(ctx: &mut Ctx<Plan>, deployment: Deployment<Plan>) -> (end: Deployment<Plan>)
    requires
        old(ctx)@.store.valid(),
    ensures
        ({
            let scene = DeployScene::start(deployment@, old(ctx)@).end();
            end@ == scene.deploy && final(ctx)@ == scene.ctx && scene.stands()
        }),
        final(ctx)@.store.valid(),
{
    let ghost start = DeployScene::start(deployment@, ctx@);
    let ghost mut count: nat = 0;
    let mut deployment = deployment;
    loop
        invariant
            ctx@.store.valid(),
            start == DeployScene::start(start.deploy, old(ctx)@),
            start.after(count).deploy == deployment@,
            start.after(count).ctx == ctx@,
            0 <= deployment@.phase.left(),
            count + deployment@.phase.left() <= start.deploy.phase.left(),
        ensures
            start.after(count).stands(),
        decreases deployment@.phase.left(),
    {
        proof {
            law_deploy_comes_closer(start.after(count));
        }
        let reply = match deployment.request() {
            None => {
                break;
            },
            Some(request) => match ctx.perform(request) {
                None => {
                    break;
                },
                Some(reply) => reply,
            },
        };
        let (next, event) = deployment.resume(reply);
        ctx.publish(event);
        deployment = next;
        proof {
            law_deploy_comes_closer(start.after(count).next());
            count = count + 1;
        }
    }
    proof {
        lemma_deploy_stays(start, count, start.deploy.phase.left() as nat);
    }
    deployment
}

/// The result of a deploy, if it has one, seen as plain values.
pub open spec fn seen(result: Option<Result<DeployOutcome, RunError>>) -> Option<
    Result<DeployOutcomeView, RunErrorView>,
> {
    match result {
        Some(result) => Some(run_result(result)),
        None => None,
    }
}

/// Deploys `spec` from the repository at `repo`. The result is an outcome
/// (`Done`, `RolledBack` or `Failed`) once the deploy has begun and its end was
/// stored, and an error otherwise. There is none where a reply never came.
pub fn run<Plan>(ctx: &mut Ctx<Plan>, spec: WorkloadSpec, repo: Vec<u8>) -> (result: Option<
    Result<DeployOutcome, RunError>,
>)
    requires
        old(ctx)@.store.valid(),
    ensures
        match spec@.verdict() {
            Err(error) => {
                &&& final(ctx)@ == old(ctx)@
                &&& result is Some
                &&& run_result(result->0) == Err::<DeployOutcomeView, _>(
                    RunErrorView::Invalid(error),
                )
            },
            Ok(()) => {
                let end = DeployScene::start(
                    DeploymentView::unreserved(spec@, repo@),
                    old(ctx)@,
                ).end();
                &&& final(ctx)@ == end.ctx
                &&& seen(result) == end.deploy.result()
            },
        },
        final(ctx)@.store.valid(),
{
    match Deployment::unreserved(spec, repo) {
        Err(error) => Some(Err(error)),
        Ok(deployment) => match drive(ctx, deployment).into_result() {
            Ok(result) => Some(result),
            Err(_) => None,
        },
    }
}

/// Runs the stages of a deploy that was reserved, and gives the lock of its app
/// back however it ends. Where the spec cannot be deployed that is all that is
/// done: the row stays in progress, for a recovery to settle.
pub fn run_reserved<Plan>(
    ctx: &mut Ctx<Plan>,
    spec: WorkloadSpec,
    repo: Vec<u8>,
    deploy_id: i64,
) -> (result: Option<Result<DeployOutcome, RunError>>)
    requires
        old(ctx)@.store.valid(),
    ensures
        ({
            let end = DeployScene::start(
                DeploymentView::reserved(spec@, repo@, deploy_id),
                old(ctx)@,
            ).end();
            &&& final(ctx)@ == end.ctx
            &&& seen(result) == end.deploy.result()
        }),
        spec@.verdict() matches Err(error) ==> {
            &&& final(ctx)@ == old(ctx)@.replied(
                RequestView::Store(StoreCallView::ReleaseLock { name: spec@.name }),
            )
            &&& seen(result) == Some(
                Err::<DeployOutcomeView, _>(
                    match old(ctx)@.fault(0) {
                        None => RunErrorView::Invalid(error),
                        Some(failure) => RunErrorView::Internal(failure),
                    },
                ),
            )
        },
        final(ctx)@.store.valid(),
{
    proof {
        reveal_with_fuel(DeployScene::after, 2);
    }
    match drive(ctx, Deployment::reserved(spec, repo, deploy_id)).into_result() {
        Ok(result) => Some(result),
        Err(_) => None,
    }
}

/// The row that a reservation creates.
pub open spec fn reserved_row(store: StoreView, name: Seq<char>) -> DeployRowView {
    DeployRowView {
        id: (store.rows.len() + 1) as i64,
        app: name,
        stage: Stage::Detect,
        status: DeployStatus::InProgress,
        detail: None,
    }
}

/// The row of a reservation that was refused.
pub open spec fn refused_row(store: StoreView, name: Seq<char>) -> DeployRowView {
    DeployRowView {
        status: DeployStatus::Failed,
        detail: Some(refusal()),
        ..reserved_row(store, name)
    }
}

/// What a reservation does, and what its result is. A failure of the store ends
/// it where it is.
pub open spec fn reservation<Plan>(ctx: CtxView<Plan>, name: Seq<char>) -> (
    CtxView<Plan>,
    Result<i64, ReserveErrorView>,
) {
    let store = ctx.store;
    let row = reserved_row(store, name);
    let created = StoreView { rows: store.rows.push(row), ..store };
    if let Some(error) = ctx.fault(0) {
        (ctx.spent(1), Err(ReserveErrorView::Internal(error)))
    } else if store.rows.len() >= i64::MAX {
        (ctx.spent(1), Err(ReserveErrorView::Internal(full())))
    } else if let Some(error) = ctx.fault(1) {
        (CtxView { store: created, ..ctx.spent(2) }, Err(ReserveErrorView::Internal(error)))
    } else if !store.locked(name) {
        (
            CtxView {
                store: StoreView {
                    locks: store.locks.push(LockView { app: name, deploy_id: row.id }),
                    ..created
                },
                ..ctx.spent(2)
            },
            Ok(row.id),
        )
    } else if let Some(error) = ctx.fault(2) {
        (CtxView { store: created, ..ctx.spent(3) }, Err(ReserveErrorView::Internal(error)))
    } else {
        (
            CtxView {
                store: StoreView { rows: store.rows.push(refused_row(store, name)), ..store },
                ..ctx.spent(3)
            },
            Err(ReserveErrorView::Busy { name, deploy_id: row.id }),
        )
    }
}

/// How far a reservation that began at `before` has come, and what it has done
/// so far.
spec fn reserving<Plan>(
    before: CtxView<Plan>,
    reservation: ReservationView,
    ctx: CtxView<Plan>,
) -> bool {
    let name = reservation.name;
    let store = before.store;
    let row = reserved_row(store, name);
    let created = StoreView { rows: store.rows.push(row), ..store };
    match reservation.phase {
        ReservePhaseView::Creating => ctx == before,
        ReservePhaseView::Locking { deploy_id } => {
            &&& before.fault(0) is None
            &&& store.rows.len() < i64::MAX
            &&& deploy_id == row.id
            &&& ctx == CtxView { store: created, ..before.spent(1) }
        },
        ReservePhaseView::Refusing { deploy_id } => {
            &&& before.fault(0) is None
            &&& before.fault(1) is None
            &&& store.rows.len() < i64::MAX
            &&& store.locked(name)
            &&& deploy_id == row.id
            &&& ctx == CtxView { store: created, ..before.spent(2) }
        },
        ReservePhaseView::Ended { result } => (ctx, result) == self::reservation(before, name),
    }
}

/// A request of a reservation, replied to.
proof fn lemma_reserving<Plan>(
    before: CtxView<Plan>,
    reservation: ReservationView,
    ctx: CtxView<Plan>,
)
    requires
        reserving(before, reservation, ctx),
        reservation.request() is Some,
    ensures
        ({
            let request = RequestView::Store(reservation.request()->0);
            &&& ctx.reply(request) is Some
            &&& ctx.reply(request)->0 is Store
            &&& reserving(
                before,
                reservation.after(ctx.reply(request)->0->Store_0),
                ctx.replied(request),
            )
        }),
{
    lemma_spent(before, 1, 0);
    lemma_spent(before, 1, 1);
    lemma_spent(before, 2, 0);
    lemma_spent(before, 2, 1);
    let created = StoreView {
        rows: before.store.rows.push(reserved_row(before.store, reservation.name)),
        ..before.store
    };
    assert(created.locked(reservation.name) == before.store.locked(reservation.name)) by {
        if before.store.locked(reservation.name) {
            let i = choose|i: int|
                0 <= i < before.store.locks.len() && (#[trigger] before.store.locks[i]).app
                    == reservation.name;
            assert(created.locks[i].app == reservation.name);
        }
    }
    if before.store.rows.len() < i64::MAX {
        let refused = refused_row(before.store, reservation.name);
        assert(created.with_row(refused).rows =~= before.store.rows.push(refused));
    }
}

/// Creates a row for a deploy of the app and takes the lock of the app for it,
/// without running anything. Where another deploy holds the lock, the row is
/// finished as failed and handed back with the refusal.
pub fn reserve<Plan>(ctx: &mut Ctx<Plan>, name: &str) -> (result: Result<i64, ReserveError>)
    requires
        old(ctx)@.store.valid(),
    ensures
        ({
            let before = old(ctx)@;
            let reserved = reservation(before, name@);
            final(ctx)@ == reserved.0 && reserve_result(result) == reserved.1
        }),
        final(ctx)@.store.valid(),
{
    let ghost before = ctx@;
    let mut reservation = Reservation::new(name);
    loop
        invariant
            ctx@.store.valid(),
            before == old(ctx)@,
            reservation@.name == name@,
            reserving(before, reservation@, ctx@),
        decreases reservation@.left(),
    {
        reservation = match reservation.into_result() {
            Ok(result) => return result,
            Err(reservation) => reservation,
        };
        proof {
            lemma_reserving(before, reservation@, ctx@);
        }
        if let Some(call) = reservation.request() {
            if let Some(Reply::Store(reply)) = ctx.perform(Request::Store(call)) {
                reservation.resume(reply);
            }
        }
    }
}

/// A deploy stands at its end: it has ended, or it waits for a reply that never
/// comes.
pub proof fn law_deploy_stands_at_its_end<Plan>(scene: DeployScene<Plan>)
    ensures
        scene.end().stands(),
{
    law_deploy_comes_closer(scene);
    lemma_deploy_stands(scene, scene.deploy.phase.left() as nat);
}

/// After as many requests as a deploy has left, it stands.
proof fn lemma_deploy_stands<Plan>(scene: DeployScene<Plan>, count: nat)
    ensures
        scene.after(count).stands() || scene.after(count).deploy.phase.left()
            <= scene.deploy.phase.left() - count,
        0 <= scene.after(count).deploy.phase.left(),
        count >= scene.deploy.phase.left() ==> scene.after(count).stands(),
    decreases count,
{
    law_deploy_comes_closer(scene.after(count));
    if count > 0 {
        lemma_deploy_stands(scene, (count - 1) as nat);
        law_deploy_comes_closer(scene.after((count - 1) as nat));
    }
    law_deploy_comes_closer(scene.after(count).next());
}

/// Requests one after the other.
proof fn lemma_deploy_goes_on<Plan>(scene: DeployScene<Plan>, first: nat, then: nat)
    ensures
        scene.after(first).after(then) == scene.after(first + then),
    decreases then,
{
    if then > 0 {
        lemma_deploy_goes_on(scene, first, (then - 1) as nat);
    }
}

/// A scene comes to the same stand, whichever of its requests it is seen from.
pub proof fn law_deploy_has_one_end<Plan>(scene: DeployScene<Plan>, count: nat)
    ensures
        scene.after(count).end() == scene.end(),
{
    let there = scene.after(count);
    let left = there.deploy.phase.left() as nat;
    let all = scene.deploy.phase.left() as nat;
    law_deploy_stands_at_its_end(scene);
    law_deploy_stands_at_its_end(there);
    lemma_deploy_goes_on(scene, count, left);
    if all <= count + left {
        lemma_deploy_stays(scene, all, count + left);
    } else {
        lemma_deploy_stays(scene, count + left, all);
    }
}

/// What went before does not change what comes.
proof fn lemma_deploy_forgets<Plan>(scene: DeployScene<Plan>, count: nat)
    ensures
        ({
            let fresh = DeployScene::start(scene.deploy, scene.ctx).after(count);
            &&& scene.after(count).deploy == fresh.deploy
            &&& scene.after(count).ctx == fresh.ctx
            &&& scene.after(count).log == scene.log + fresh.log
        }),
    decreases count,
{
    let fresh = DeployScene::start(scene.deploy, scene.ctx);
    if count > 0 {
        lemma_deploy_forgets(scene, (count - 1) as nat);
        assert(scene.after(count).log =~= scene.log + fresh.after(count).log);
    } else {
        assert(scene.log =~= scene.log + fresh.log);
    }
}

/// A deploy in the middle of its reservation ends as the reservation does, or
/// goes on as a deploy that was reserved.
proof fn lemma_reserving_first<Plan>(
    before: CtxView<Plan>,
    reservation: ReservationView,
    scene: DeployScene<Plan>,
    spec: WorkloadSpecView,
    repo: Seq<u8>,
)
    requires
        spec.verdict() is Ok,
        reservation.name == spec.name,
        reservation.request() is Some,
        reserving(before, reservation, scene.ctx),
        scene.deploy == DeploymentView::<Plan>::unreserved(spec, repo).with(
            PhaseView::Reserving { reservation },
        ),
        only_store(scene.log),
    ensures
        reserved_first(before, spec, repo, scene.end()),
    decreases reservation.left(),
{
    lemma_reserving(before, reservation, scene.ctx);
    let request = RequestView::<Plan>::Store(reservation.request()->0);
    let next = reservation.after(scene.ctx.reply(request)->0->Store_0);
    law_reply_is_admitted(scene.ctx, request);
    assert(scene.after(1) == scene.after(0).next());
    assert(scene.after(0) == scene);
    law_deploy_has_one_end(scene, 1);
    assert(scene.next().ctx == scene.ctx.replied(request));
    match next.phase {
        ReservePhaseView::Ended { result: Ok(deploy_id) } => {
            let there = scene.ctx.replied(request);
            let reserved = DeploymentView::reserved(spec, repo, deploy_id);
            assert(scene.next().deploy == reserved);
            lemma_deploy_forgets(scene.next(), reserved.phase.left() as nat);
            let end = DeployScene::start(reserved, there).end();
            assert(scene.end().log == scene.next().log + end.log);
            assert(only_store(scene.next().log));
        },
        ReservePhaseView::Ended { result: Err(error) } => {
            assert(scene.next().stands());
            assert(scene.next().end() == scene.next()) by {
                reveal_with_fuel(DeployScene::after, 1);
            }
        },
        _ => {
            lemma_reserving_first(before, next, scene.next(), spec, repo);
        },
    }
}

/// Whether every request went to the store.
pub open spec fn only_store<Plan>(log: Seq<Exchange<Plan>>) -> bool {
    forall|i: int| 0 <= i < log.len() ==> (#[trigger] log[i]).request is Store
}

/// Whether a deploy that was not reserved ends in `end`: reserved first exactly
/// as `reserve` does, and from there on exactly as `run_reserved` does. Where it
/// cannot be reserved, nothing runs.
pub open spec fn reserved_first<Plan>(
    ctx: CtxView<Plan>,
    spec: WorkloadSpecView,
    repo: Seq<u8>,
    end: DeployScene<Plan>,
) -> bool {
    let (there, result) = reservation(ctx, spec.name);
    match result {
        Ok(deploy_id) => {
            let reserved = DeployScene::start(
                DeploymentView::reserved(spec, repo, deploy_id),
                there,
            ).end();
            &&& end.deploy == reserved.deploy
            &&& end.ctx == reserved.ctx
            &&& exists|log: Seq<Exchange<Plan>>| only_store(log) && end.log == log + reserved.log
        },
        Err(error) => {
            &&& end.deploy.result() == Some(
                Err::<DeployOutcomeView, _>(RunErrorView::Reserve(error)),
            )
            &&& end.ctx == there
            &&& only_store(end.log)
        },
    }
}

/// A deploy of a spec that can be deployed, and that is not reserved yet, is
/// reserved first, exactly as `reserve` does, and goes on from there exactly as
/// `run_reserved` does. Where it cannot be reserved, nothing runs.
pub proof fn law_run_reserves_first<Plan>(
    ctx: CtxView<Plan>,
    spec: WorkloadSpecView,
    repo: Seq<u8>,
)
    requires
        spec.verdict() is Ok,
    ensures
        reserved_first(
            ctx,
            spec,
            repo,
            DeployScene::start(DeploymentView::unreserved(spec, repo), ctx).end(),
        ),
{
    lemma_reserving_first(
        ctx,
        ReservationView::start(spec.name),
        DeployScene::start(DeploymentView::unreserved(spec, repo), ctx),
        spec,
        repo,
    );
}

/// How many requests a recovery makes at most before it stands: the deploys in
/// progress are listed, each takes six requests at most, and the locks that
/// are left over take one more.
pub open spec fn recovery_bound(store: StoreView) -> nat {
    2 + 6 * store.in_progress_rows().len()
}

/// A request of a recovery that is replied to brings the recovery closer to its
/// end.
pub proof fn law_recovery_comes_closer<Plan>(scene: RecoveryScene<Plan>)
    ensures
        0 <= scene.recovery.left(),
        !scene.stands() ==> {
            &&& !(scene.next().recovery.phase is Listing)
            &&& scene.recovery.phase is Listing || scene.next().recovery.left()
                < scene.recovery.left()
            &&& scene.recovery == ReconciliationView::start() ==> scene.next().recovery.left() < (
            recovery_bound(scene.ctx.store))
        },
{
    if !scene.stands() {
        law_reply_is_admitted(scene.ctx, scene.recovery.request::<Plan>()->0);
    }
}

/// What stands is not changed by waiting longer.
proof fn lemma_recovery_stays<Plan>(scene: RecoveryScene<Plan>, count: nat, more: nat)
    requires
        scene.after(count).stands(),
        count <= more,
    ensures
        scene.after(more) == scene.after(count),
    decreases more,
{
    if count < more {
        lemma_recovery_stays(scene, count, (more - 1) as nat);
    }
}

/// Recovers from deploys that a crash left in progress: each is rolled back to
/// the last good state, its end is stored and its lock is given back. The
/// result holds one outcome for each, and a line for each lock that was freed
/// besides. There is none where a reply never came.
pub fn reconcile<Plan>(ctx: &mut Ctx<Plan>) -> (result: Option<Result<Recovery, Failure>>)
    requires
        old(ctx)@.store.valid(),
    ensures
        ({
            let end = RecoveryScene::start(old(ctx)@).end();
            &&& final(ctx)@ == end.ctx
            &&& end.stands()
            &&& (match result {
                Some(result) => Some(recovery_result(result)),
                None => None,
            }) == end.recovery.result()
        }),
        final(ctx)@.store.valid(),
{
    let ghost start = RecoveryScene::start(ctx@);
    let ghost bound = recovery_bound(ctx@.store);
    let ghost mut count: nat = 0;
    let mut reconciliation = Reconciliation::new();
    loop
        invariant
            ctx@.store.valid(),
            start == RecoveryScene::start(old(ctx)@),
            bound == recovery_bound(old(ctx)@.store),
            start.after(count).recovery == reconciliation@,
            start.after(count).ctx == ctx@,
            0 <= reconciliation@.left(),
            reconciliation@.phase is Listing ==> count == 0,
            !(reconciliation@.phase is Listing) ==> count + reconciliation@.left() <= bound,
            count <= bound,
        ensures
            start.after(count).stands(),
            count <= bound,
        decreases
                (if reconciliation@.phase is Listing {
                    1int
                } else {
                    0int
                }),
                reconciliation@.left(),
    {
        proof {
            law_recovery_comes_closer(start.after(count));
        }
        let reply = match reconciliation.request() {
            None => {
                break;
            },
            Some(request) => match ctx.perform(request) {
                None => {
                    break;
                },
                Some(reply) => reply,
            },
        };
        let (next, event) = reconciliation.resume(reply);
        ctx.publish(event);
        reconciliation = next;
        proof {
            count = count + 1;
        }
    }
    proof {
        lemma_recovery_stays(start, count, bound);
    }
    match reconciliation.into_result() {
        Ok(result) => Some(result),
        Err(_) => None,
    }
}

} // verus!
