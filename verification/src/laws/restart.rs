//! Everything that a recovery asks for, from the first request to the last.

use crate::ctx::{law_reply_is_admitted, CtxView};
use crate::laws::effects::{
    hosts, left_with, lemma_hosts_add, lemma_hosts_alone, lemma_hosts_of_a_log, lemma_hosts_push,
    lemma_left_with_one_more, undoing, Running,
};
use crate::laws::host::host_calls;
use crate::laws::recovery::{host_in_order, lemma_recovery_kept, recovered, recovering};
use crate::laws::script::{all_done, asked, of_host, reported, trouble, untroubled};
use crate::model::{DeployOutcomeView, DeployRowView, DeployStatus, Stage};
use crate::protocol::{
    CodecCallView, HostCallView, HostReplyView, ReplyView, RequestView, StoreCallView,
};
use crate::reconciliation::{RecoveryPhaseView, RecoveryView};
use crate::run::{Exchange, RecoveryScene};
use crate::spec::WorkloadSpecView;
use crate::store::StoreView;
use crate::text::one_line;
use vstd::prelude::*;

verus! {

/// The spec that the ledger holds of the app of a deploy is read first.
pub open spec fn looks_up<Plan>(before: StoreView, row: DeployRowView) -> Seq<RequestView<Plan>> {
    let reads = RequestView::Store(StoreCallView::CurrentSpec { name: row.app });
    if before.specs.contains_key(row.app) {
        seq![
            reads,
            RequestView::Codec(CodecCallView::Decode { json: before.specs[row.app].json }),
        ]
    } else {
        seq![reads]
    }
}

/// The spec that the ledger held, as the codec read it, or none where it held
/// none.
pub open spec fn looked_up<Plan>(
    before: StoreView,
    row: DeployRowView,
    log: Seq<Exchange<Plan>>,
) -> Option<WorkloadSpecView> {
    if before.specs.contains_key(row.app) {
        Some(log[1].reply->Codec_0->Spec_0)
    } else {
        None
    }
}

/// Whether a deploy was looked up, and this was done to undo it, all of it but
/// what was asked for from `failed` on.
pub open spec fn undid<Plan>(
    before: StoreView,
    row: DeployRowView,
    log: Seq<Exchange<Plan>>,
    undone: Seq<HostCallView<Plan>>,
    failed: int,
) -> bool {
    let looks_up = looks_up::<Plan>(before, row);
    &&& asked(log) == looks_up + of_host(undone)
    &&& all_done(log, looks_up.len() as int, failed)
}

/// How a stage is called.
pub open spec fn called(stage: Stage) -> Seq<char> {
    match stage {
        Stage::Detect => "Detect"@,
        Stage::Build => "Build"@,
        Stage::Secrets => "Secrets"@,
        Stage::Apply => "Apply"@,
        Stage::Route => "Route"@,
        Stage::Healthcheck => "Healthcheck"@,
    }
}

/// Whether this is all that was asked for to recover a deploy with this outcome,
/// before its end was stored. It is rolled back because of the restart once
/// everything is undone, and has failed where the host says why it could not be.
pub open spec fn settles<Plan>(
    before: StoreView,
    row: DeployRowView,
    log: Seq<Exchange<Plan>>,
    outcome: DeployOutcomeView,
) -> bool {
    let undoing = undoing::<Plan>(row.app, looked_up(before, row, log), row.stage);
    match outcome {
        DeployOutcomeView::Done { .. } => false,
        DeployOutcomeView::RolledBack { failed_at, cause } => {
            &&& undid(before, row, log, undoing, log.len() as int)
            &&& failed_at == row.stage
            &&& cause == "reconciled after restart (was in progress at "@ + called(row.stage) + ")"@
        },
        DeployOutcomeView::Failed { failed_at, cause } => {
            &&& exists|count: int|
                0 < count <= undoing.len() && undid(
                    before,
                    row,
                    log,
                    #[trigger] undoing.take(count),
                    log.len() - 1,
                )
            &&& failed_at == row.stage
            &&& log.len() > 0
            &&& log.last().reply matches ReplyView::Host(HostReplyView::Failed(error))
            &&& cause == "reconcile compensation failed: "@ + one_line(error)
        },
    }
}

/// Whether this stores the end of a deploy with this outcome.
pub open spec fn ends_as<Plan>(
    row: DeployRowView,
    outcome: DeployOutcomeView,
    request: RequestView<Plan>,
) -> bool {
    match outcome {
        DeployOutcomeView::Done { .. } => false,
        DeployOutcomeView::RolledBack { cause, .. } => request == RequestView::<Plan>::Store(
            StoreCallView::FinishDeployWithEvent {
                deploy_id: row.id,
                status: DeployStatus::RolledBack,
                detail: Some(cause),
            },
        ),
        DeployOutcomeView::Failed { cause, .. } => request == RequestView::<Plan>::Store(
            StoreCallView::FinishDeployWithEvent {
                deploy_id: row.id,
                status: DeployStatus::Failed,
                detail: Some(cause),
            },
        ),
    }
}

/// Whether this is all that was asked for to recover a deploy with this outcome:
/// it is undone, its end is stored, and the lock of its app is given back.
pub open spec fn recovers<Plan>(
    before: StoreView,
    row: DeployRowView,
    log: Seq<Exchange<Plan>>,
    outcome: DeployOutcomeView,
) -> bool {
    &&& log.len() > 1
    &&& settles(before, row, log.drop_last().drop_last(), outcome)
    &&& ends_as(row, outcome, log[log.len() - 2].request)
    &&& log.last().request == RequestView::<Plan>::Store(
        StoreCallView::ReleaseLock { name: row.app },
    )
}

/// Whether this is all that was asked for to find the deploys in progress and to
/// recover the first ones, with these outcomes, one after the other.
pub open spec fn recovers_all<Plan>(
    before: StoreView,
    log: Seq<Exchange<Plan>>,
    outcomes: Seq<DeployOutcomeView>,
) -> bool
    decreases outcomes.len(),
{
    if outcomes.len() == 0 {
        asked(log) == seq![RequestView::<Plan>::Store(StoreCallView::InProgressDeploys)]
    } else {
        exists|at: int|
            {
                &&& 0 <= at <= log.len()
                &&& recovers_all(before, #[trigger] log.take(at), outcomes.drop_last())
                &&& recovers(
                    before,
                    before.in_progress_rows()[outcomes.len() - 1],
                    log.skip(at),
                    outcomes.last(),
                )
            }
    }
}

/// Whether the requests from `at` on are those of the deploy that is being
/// recovered.
pub open spec fn recovering_at<Plan>(
    before: StoreView,
    scene: RecoveryScene<Plan>,
    at: int,
) -> bool {
    let recovery = scene.recovery;
    let log = scene.log.skip(at);
    &&& 0 <= at <= scene.log.len()
    &&& recovers_all(before, scene.log.take(at), recovery.outcomes)
    &&& match recovery.phase {
        RecoveryPhaseView::Loading { .. } => log.len() == 0 && recovery.previous is None,
        RecoveryPhaseView::Decoding { row, json } => {
            &&& before.specs.contains_key(row.app)
            &&& before.specs[row.app].json == json
            &&& asked(log) == looks_up::<Plan>(before, row).take(1)
        },
        RecoveryPhaseView::Unwinding { row, step } => {
            let undoing = undoing::<Plan>(row.app, looked_up(before, row, log), row.stage);
            &&& undid(
                before,
                row,
                log,
                undoing.take(undoing.len() - step.left()),
                log.len() as int,
            )
            &&& recovery.previous == looked_up(before, row, log)
        },
        RecoveryPhaseView::Finishing { row, outcome } => settles(before, row, log, outcome),
        RecoveryPhaseView::Releasing { row, outcome } => {
            &&& log.len() > 0
            &&& settles(before, row, log.drop_last(), outcome)
            &&& ends_as(row, outcome, log.last().request)
        },
        _ => false,
    }
}

/// Whether a recovery has asked for what it has to have asked for in its phase.
pub open spec fn resumes<Plan>(before: StoreView, scene: RecoveryScene<Plan>) -> bool {
    let log = scene.log;
    match scene.recovery.phase {
        RecoveryPhaseView::Listing => log.len() == 0,
        RecoveryPhaseView::Sweeping => {
            &&& recovers_all(before, log, scene.recovery.outcomes)
            &&& untroubled(log, log.len() as int)
        },
        RecoveryPhaseView::Ended { result: Ok(result) } => {
            &&& log.len() > 0
            &&& recovers_all(before, log.drop_last(), result.outcomes)
            &&& log.last().request == RequestView::<Plan>::Store(
                StoreCallView::ReleaseOrphanedLocks,
            )
            &&& untroubled(log, log.len() as int)
        },
        RecoveryPhaseView::Ended { result: Err(error) } => {
            &&& log.len() > 0
            &&& untroubled(log, log.len() - 1)
            &&& trouble(log.last().reply)
            &&& error == reported(log.last())
        },
        _ => {
            &&& untroubled(log, log.len() as int)
            &&& exists|at: int| #[trigger] recovering_at(before, scene, at)
        },
    }
}

/// One more request for the deploy that is being recovered.
proof fn lemma_one_more<Plan>(log: Seq<Exchange<Plan>>, exchange: Exchange<Plan>, at: int)
    requires
        0 <= at <= log.len(),
    ensures
        log.push(exchange).take(at) == log.take(at),
        log.push(exchange).skip(at) == log.skip(at).push(exchange),
        asked(log.push(exchange).skip(at)) == asked(log.skip(at)).push(exchange.request),
        asked(log.skip(at)).len() == log.len() - at,
{
    assert(log.push(exchange).take(at) =~= log.take(at));
    assert(log.push(exchange).skip(at) =~= log.skip(at).push(exchange));
    assert(asked(log.skip(at).push(exchange)) =~= asked(log.skip(at)).push(exchange.request));
}

/// What the first requests of a deploy say does not depend on later ones.
proof fn lemma_looked_up<Plan>(
    before: StoreView,
    row: DeployRowView,
    log: Seq<Exchange<Plan>>,
    exchange: Exchange<Plan>,
)
    ensures
        log.len() >= looks_up::<Plan>(before, row).len() ==> looked_up(
            before,
            row,
            log.push(exchange),
        ) == looked_up(before, row, log),
{
}

/// A recovery goes on asking for what it has to ask for while a deploy is undone.
proof fn lemma_undoes<Plan>(before: StoreView, scene: RecoveryScene<Plan>, at: int)
    requires
        recovering(before, scene),
        !scene.stands(),
        recovering_at(before, scene, at),
        scene.recovery.phase is Loading || scene.recovery.phase is Decoding
            || scene.recovery.phase is Unwinding,
        !trouble(scene.ctx.reply(scene.recovery.request::<Plan>()->0)->0),
    ensures
        recovering_at(before, scene.next(), at),
{
    let request = scene.recovery.request::<Plan>()->0;
    let reply = scene.ctx.reply(request)->0;
    law_reply_is_admitted(scene.ctx, request);
    let exchange = Exchange { request, reply };
    let next = scene.next();
    lemma_one_more(scene.log, exchange, at);
    let log = scene.log.skip(at);
    let then = next.log.skip(at);
    let row = match scene.recovery.phase {
        RecoveryPhaseView::Loading { row } => row,
        RecoveryPhaseView::Decoding { row, .. } => row,
        RecoveryPhaseView::Unwinding { row, .. } => row,
        _ => arbitrary(),
    };
    let looks_up = looks_up::<Plan>(before, row);
    lemma_looked_up(before, row, log, exchange);
    let undoing = undoing::<Plan>(row.app, looked_up(before, row, then), row.stage);
    assert(undoing.take(undoing.len() as int) =~= undoing);
    assert(of_host(undoing.take(0)) =~= Seq::empty());
    assert(then.last() == exchange);
    match scene.recovery.phase {
        RecoveryPhaseView::Unwinding { step, .. } => {
            let i = undoing.len() - step.left();
            assert(request == RequestView::Host(undoing[i]));
            assert(of_host(undoing.take(i + 1)) =~= of_host(undoing.take(i)).push(request));
            assert(asked(then) =~= looks_up + of_host(undoing.take(i + 1)));
            if let ReplyView::Host(HostReplyView::Failed(error)) = reply {
                assert(undid(before, row, then, undoing.take(i + 1), then.len() - 1));
            } else {
                assert(undid(before, row, then, undoing.take(i + 1), then.len() as int));
            }
        },
        RecoveryPhaseView::Decoding { .. } => {
            assert(asked(then) =~= looks_up + of_host(undoing.take(0)));
            assert(undid(before, row, then, undoing.take(0), then.len() as int));
        },
        _ => {
            assert(asked(then) =~= looks_up.take(1));
            if looks_up.len() == 1 {
                assert(asked(then) =~= looks_up + of_host(undoing.take(0)));
                assert(undid(before, row, then, undoing.take(0), then.len() as int));
            }
        },
    }
}

/// A recovery goes on asking for what it has to ask for while a deploy ends.
proof fn lemma_ends<Plan>(before: StoreView, scene: RecoveryScene<Plan>, at: int)
    requires
        before.valid(),
        recovering(before, scene),
        !scene.stands(),
        recovering_at(before, scene, at),
        scene.recovery.phase is Finishing || scene.recovery.phase is Releasing,
        !trouble(scene.ctx.reply(scene.recovery.request::<Plan>()->0)->0),
    ensures
        scene.recovery.phase is Finishing ==> recovering_at(before, scene.next(), at),
        scene.recovery.phase is Releasing ==> recovers_all(
            before,
            scene.next().log,
            scene.next().recovery.outcomes,
        ),
{
    let request = scene.recovery.request::<Plan>()->0;
    let reply = scene.ctx.reply(request)->0;
    law_reply_is_admitted(scene.ctx, request);
    let exchange = Exchange { request, reply };
    let next = scene.next();
    lemma_one_more(scene.log, exchange, at);
    let log = scene.log.skip(at);
    let then = next.log.skip(at);
    assert(then.drop_last() =~= log);
    assert(then.last() == exchange);
    if let RecoveryPhaseView::Releasing { row, outcome } = scene.recovery.phase {
        let outcomes = scene.recovery.outcomes.push(outcome);
        assert(outcomes.drop_last() =~= scene.recovery.outcomes);
        assert(next.recovery.outcomes == outcomes);
        assert(then[then.len() - 2] == log.last());
        assert(row == before.in_progress_rows()[outcomes.len() - 1]);
        assert(recovers(before, row, then, outcome));
        assert(recovers_all(before, next.log.take(at), outcomes.drop_last()));
    }
}

/// A recovery goes on asking for what it has to ask for.
proof fn lemma_resumes<Plan>(before: StoreView, scene: RecoveryScene<Plan>)
    requires
        before.valid(),
        recovering(before, scene),
        host_in_order(before, scene),
        resumes(before, scene),
    ensures
        resumes(before, scene.next()),
{
    if !scene.stands() {
        let request = scene.recovery.request::<Plan>()->0;
        let reply = scene.ctx.reply(request)->0;
        law_reply_is_admitted(scene.ctx, request);
        let exchange = Exchange { request, reply };
        let next = scene.next();
        assert(next.log.last() == exchange);
        assert(next.log.drop_last() =~= scene.log);
        assert(next.log.take(next.log.len() as int) =~= next.log);
        let last = next.log.len() as int;
        assert forall|i: int| 0 <= i < scene.log.len() implies #[trigger] next.log[i]
            == scene.log[i] by {}
        if !trouble(reply) {
            match scene.recovery.phase {
                RecoveryPhaseView::Listing => {
                    assert(asked(next.log) =~= seq![request]);
                    assert(recovers_all(before, next.log.take(last), next.recovery.outcomes));
                    assert(next.recovery.phase is Loading ==> recovering_at(before, next, last));
                },
                RecoveryPhaseView::Sweeping => {},
                RecoveryPhaseView::Ended { .. } => {},
                _ => {
                    let at = choose|at: int| #[trigger] recovering_at(before, scene, at);
                    if scene.recovery.phase is Finishing || scene.recovery.phase is Releasing {
                        lemma_ends(before, scene, at);
                        if scene.recovery.phase is Releasing {
                            assert(next.recovery.phase is Loading ==> recovering_at(
                                before,
                                next,
                                last,
                            ));
                        }
                    } else {
                        lemma_undoes(before, scene, at);
                    }
                },
            }
        }
    }
}

/// A recovery asks for what it has to ask for.
proof fn lemma_resumed<Plan>(ctx: CtxView<Plan>, count: nat)
    requires
        ctx.store.valid(),
    ensures
        resumes(ctx.store, recovered(ctx, count)),
    decreases count,
{
    if count > 0 {
        let earlier = (count - 1) as nat;
        lemma_resumed(ctx, earlier);
        let scene = recovered(ctx, earlier);
        assert(recovering(ctx.store, scene) && host_in_order(ctx.store, scene)) by {
            lemma_recovery_kept(ctx, earlier);
        }
        lemma_resumes(ctx.store, scene);
    }
}

/// All that a recovery asks for, in order, is fixed by what the ledger held and
/// by the replies. It asks for the deploys in progress and then, for each of
/// them, reads the spec that the ledger holds of the app, has the host undo the
/// stage that the deploy was at, stores its end, and gives the lock of the app
/// back. From Route on undoing starts with the route: the route of that spec is
/// applied, and the route is removed where that spec has none and where there is
/// no spec. From Apply on it ends with the unit: that spec is applied, whatever
/// it says, and the unit is removed only where there is no spec. The deploy is
/// rolled back where all of this was done; otherwise it failed, as the host says
/// why. In the end the locks that are left are given back.
pub proof fn law_all_that_a_recovery_asks_for<Plan>(
    ctx: CtxView<Plan>,
    count: nat,
    recovery: RecoveryView,
)
    requires
        ctx.store.valid(),
        recovered(ctx, count).recovery.result() == Some(Ok::<_, Seq<Seq<char>>>(recovery)),
    ensures
        ({
            let log = recovered(ctx, count).log;
            &&& log.len() > 0
            &&& recovers_all(ctx.store, log.drop_last(), recovery.outcomes)
            &&& log.last().request == RequestView::<Plan>::Store(
                StoreCallView::ReleaseOrphanedLocks,
            )
            &&& untroubled(log, log.len() as int)
        }),
{
    lemma_resumed(ctx, count);
}

/// A failure of the store or the codec ends a recovery: nothing is asked for
/// after it, and the recovery ends with that failure, and with no other.
pub proof fn law_recovery_given_up_at_once<Plan>(ctx: CtxView<Plan>, count: nat, at: int)
    requires
        ctx.store.valid(),
    ensures
        ({
            let now = recovered(ctx, count);
            let log = now.log;
            &&& 0 <= at < log.len() && trouble(log[at].reply) ==> {
                &&& at == log.len() - 1
                &&& now.recovery.result() == Some(Err::<RecoveryView, _>(reported(log[at])))
            }
            &&& now.recovery.result() matches Some(Err(error)) ==> {
                &&& log.len() > 0
                &&& trouble(log.last().reply)
                &&& error == reported(log.last())
            }
        }),
{
    lemma_resumed(ctx, count);
}

/// A deploy that a recovery rolled back leaves its app with the unit of the spec
/// that the ledger held, and, from Route on, with the route of that spec: with
/// none where the ledger held none. Before Apply it leaves all as it was. So where
/// the ledger held what the app had, the app has it again.
pub proof fn law_what_a_recovered_app_is_left_with<Plan>(
    before: StoreView,
    row: DeployRowView,
    log: Seq<Exchange<Plan>>,
    outcome: DeployOutcomeView,
    had: Running,
)
    requires
        recovers(before, row, log, outcome),
        outcome is RolledBack,
    ensures
        ({
            let has = left_with(host_calls(log), had);
            let previous = looked_up(before, row, log);
            let route = match previous {
                Some(previous) => previous.route,
                None => None,
            };
            &&& match row.stage {
                Stage::Detect | Stage::Build | Stage::Secrets => has == had,
                Stage::Apply => has.unit == previous && has.route == had.route,
                Stage::Route | Stage::Healthcheck => has.unit == previous && has.route == route,
            }
            &&& had == (Running { unit: previous, route }) ==> has == had
        }),
{
    let ran = log.drop_last().drop_last();
    let looks_up = looks_up::<Plan>(before, row);
    let previous = looked_up(before, row, ran);
    let undoing = undoing::<Plan>(row.app, previous, row.stage);
    assert(asked(ran).len() == ran.len());
    assert(looked_up(before, row, log) == previous);
    assert(host_calls(log) == undoing) by {
        lemma_hosts_of_a_log(ran);
        lemma_hosts_alone(undoing);
        lemma_hosts_add(looks_up, of_host(undoing));
        lemma_hosts_push(Seq::empty(), looks_up[0]);
        if looks_up.len() == 2 {
            lemma_hosts_push(Seq::empty().push(looks_up[0]), looks_up[1]);
            assert(looks_up =~= Seq::empty().push(looks_up[0]).push(looks_up[1]));
        } else {
            assert(looks_up =~= Seq::empty().push(looks_up[0]));
        }
        assert(hosts(looks_up) =~= Seq::empty());
        assert(hosts(looks_up) + undoing =~= undoing);
        assert(log.drop_last().last() == log[log.len() - 2]);
        assert(host_calls(log) == host_calls(log.drop_last()));
        assert(host_calls(log.drop_last()) == host_calls(ran));
    }
    let none = Seq::<HostCallView<Plan>>::empty();
    if undoing.len() == 1 {
        assert(undoing =~= none.push(undoing[0]));
        lemma_left_with_one_more(none, undoing[0], had);
    } else if undoing.len() == 2 {
        assert(undoing =~= none.push(undoing[0]).push(undoing[1]));
        lemma_left_with_one_more(none, undoing[0], had);
        lemma_left_with_one_more(none.push(undoing[0]), undoing[1], had);
    }
}

} // verus!
