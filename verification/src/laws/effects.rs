//! What the host is asked to do by deploys that are done, rolled back or stuck,
//! and what it is left with.

use crate::ctx::{law_reply_is_admitted, CtxView};
use crate::deployment::{DeploymentView, Job, PhaseView, RunErrorView};
use crate::laws::deploys::{bad, deployed, lemma_kept, smooth};
use crate::laws::evidence::{handed_on, happened, lemma_happened};
use crate::laws::host::host_calls;
use crate::laws::ledger::{agrees, coherent, ready, same};
use crate::laws::script::{
    all_done, asked, broke_off, course, law_all_that_a_deploy_asks_for, law_given_up_at_once,
    lemma_outcome_opened, lemma_read_once, of_host, trouble, Course,
};
use crate::model::{DeployOutcomeView, EventStatus, Stage};
use crate::protocol::{
    CodecCallView, CodecReplyView, HostCallView, HostReplyView, ReplyView, RequestView,
    StoreCallView,
};
use crate::run::{DeployScene, Exchange};
use crate::spec::{slug_of, RouteView, WorkloadSpecView};
use crate::store::StoreView;
use crate::text::one_line;
use vstd::prelude::*;

verus! {

/// The requests that are made of the host, among others.
pub open spec fn hosts<Plan>(requests: Seq<RequestView<Plan>>) -> Seq<HostCallView<Plan>>
    decreases requests.len(),
{
    if requests.len() == 0 {
        Seq::empty()
    } else {
        match requests.last() {
            RequestView::Host(call) => hosts(requests.drop_last()).push(call),
            _ => hosts(requests.drop_last()),
        }
    }
}

/// What is asked of the host is among what is asked.
pub proof fn lemma_hosts_of_a_log<Plan>(log: Seq<Exchange<Plan>>)
    ensures
        host_calls(log) == hosts(asked(log)),
    decreases log.len(),
{
    if log.len() > 0 {
        lemma_hosts_of_a_log(log.drop_last());
        assert(asked(log).drop_last() =~= asked(log.drop_last()));
    }
}

/// What is asked of the host first and then.
pub proof fn lemma_hosts_add<Plan>(first: Seq<RequestView<Plan>>, then: Seq<RequestView<Plan>>)
    ensures
        hosts(first + then) == hosts(first) + hosts(then),
    decreases then.len(),
{
    if then.len() > 0 {
        lemma_hosts_add(first, then.drop_last());
        assert((first + then).drop_last() =~= first + then.drop_last());
        assert((first + then).last() == then.last());
        assert(hosts(first + then) =~= hosts(first) + hosts(then));
    } else {
        assert(first + then =~= first);
        assert(hosts(first) + hosts(then) =~= hosts(first));
    }
}

/// One more request.
pub proof fn lemma_hosts_push<Plan>(requests: Seq<RequestView<Plan>>, request: RequestView<Plan>)
    ensures
        hosts(requests.push(request)) == (match request {
            RequestView::Host(call) => hosts(requests).push(call),
            _ => hosts(requests),
        }),
{
    assert(requests.push(request).drop_last() =~= requests);
}

/// What is asked of the host alone.
pub proof fn lemma_hosts_alone<Plan>(calls: Seq<HostCallView<Plan>>)
    ensures
        hosts(of_host(calls)) == calls,
    decreases calls.len(),
{
    if calls.len() > 0 {
        lemma_hosts_alone(calls.drop_last());
        assert(of_host(calls).drop_last() =~= of_host(calls.drop_last()));
        assert(of_host(calls).last() == RequestView::Host(calls.last()));
    }
}

/// What a stage has the host do.
proof fn lemma_hosts_of_a_stage<Plan>(course: Course<Plan>, stage: Stage)
    ensures
        hosts(course.tries(stage)) == course.has_done(stage),
        hosts(course.passes(stage)) == course.has_done(stage),
{
    let enters = course.enters(stage);
    assert(enters =~= Seq::empty().push(enters[0]).push(enters[1]));
    lemma_hosts_push(Seq::empty(), enters[0]);
    lemma_hosts_push(Seq::empty().push(enters[0]), enters[1]);
    lemma_hosts_alone(course.has_done(stage));
    lemma_hosts_add(enters, of_host(course.has_done(stage)));
    assert(hosts(course.tries(stage)) =~= course.has_done(stage));
    lemma_hosts_push(
        course.tries(stage),
        course.tells(stage, EventStatus::Succeeded, None),
    );
}

/// What the host is asked for up to a stage, this one included.
pub open spec fn work_through<Plan>(course: Course<Plan>, stage: Stage) -> Seq<HostCallView<Plan>> {
    let slug = slug_of(course.spec.name);
    let ran = WorkloadSpecView { image: course.image, ..course.spec };
    let detect = HostCallView::Detect { repo: course.repo };
    let build = HostCallView::Build { plan: course.plan, slug };
    let secrets = HostCallView::EnsureSecrets { names: course.spec.secrets };
    let apply = HostCallView::Apply { spec: ran };
    let check = HostCallView::Healthcheck { spec: ran, cap: 90 };
    match (stage, course.spec.route) {
        (Stage::Detect, _) => seq![detect],
        (Stage::Build, _) => seq![detect, build],
        (Stage::Secrets, _) => seq![detect, build, secrets],
        (Stage::Apply, _) => seq![detect, build, secrets, apply],
        (Stage::Route, None) => seq![detect, build, secrets, apply],
        (Stage::Route, Some(route)) => seq![
            detect,
            build,
            secrets,
            apply,
            HostCallView::ApplyRoute { slug, route },
        ],
        (Stage::Healthcheck, None) => seq![detect, build, secrets, apply, check],
        (Stage::Healthcheck, Some(route)) => seq![
            detect,
            build,
            secrets,
            apply,
            HostCallView::ApplyRoute { slug, route },
            check,
        ],
    }
}

/// What the host is asked for up to a stage.
proof fn lemma_hosts_through<Plan>(course: Course<Plan>, stage: Stage)
    ensures
        hosts(course.until(stage) + course.tries(stage)) == work_through(course, stage),
        hosts(course.until(stage) + course.passes(stage)) == work_through(course, stage),
{
    let opens = course.opens();
    lemma_hosts_push(Seq::empty(), opens[0]);
    if opens.len() == 2 {
        lemma_hosts_push(Seq::empty().push(opens[0]), opens[1]);
        assert(opens =~= Seq::empty().push(opens[0]).push(opens[1]));
    } else {
        assert(opens =~= Seq::empty().push(opens[0]));
    }
    assert(hosts(opens) =~= Seq::empty());
    lemma_hosts_of_a_stage(course, Stage::Detect);
    lemma_hosts_of_a_stage(course, Stage::Build);
    lemma_hosts_of_a_stage(course, Stage::Secrets);
    lemma_hosts_of_a_stage(course, Stage::Apply);
    lemma_hosts_of_a_stage(course, Stage::Route);
    lemma_hosts_of_a_stage(course, Stage::Healthcheck);
    let detected = opens + course.passes(Stage::Detect);
    let built = detected + course.passes(Stage::Build);
    let secured = built + course.passes(Stage::Secrets);
    let applied = secured + course.passes(Stage::Apply);
    lemma_hosts_add(opens, course.passes(Stage::Detect));
    lemma_hosts_add(detected, course.passes(Stage::Build));
    lemma_hosts_add(built, course.passes(Stage::Secrets));
    lemma_hosts_add(secured, course.passes(Stage::Apply));
    lemma_hosts_add(applied, course.passes(Stage::Route));
    lemma_hosts_add(course.until(stage), course.tries(stage));
    lemma_hosts_add(course.until(stage), course.passes(stage));
    assert(hosts(course.until(stage)) + course.has_done(stage) =~= work_through(course, stage));
}

/// Whether every reply is one that the request admits.
pub open spec fn answered<Plan>(log: Seq<Exchange<Plan>>) -> bool {
    forall|i: int| 0 <= i < log.len() ==> (#[trigger] log[i]).request.admits(log[i].reply)
}

/// Every reply is one that the request admits.
proof fn lemma_answered<Plan>(
    ctx: CtxView<Plan>,
    spec: WorkloadSpecView,
    repo: Seq<u8>,
    deploy_id: i64,
    count: nat,
)
    ensures
        answered(deployed(ctx, spec, repo, deploy_id, count).log),
    decreases count,
{
    if count > 0 {
        lemma_answered(ctx, spec, repo, deploy_id, (count - 1) as nat);
        let scene = deployed(ctx, spec, repo, deploy_id, (count - 1) as nat);
        if !scene.stands() {
            law_reply_is_admitted(scene.ctx, scene.deploy.request()->0);
        }
    }
}

/// What the host was asked for was replied to.
proof fn lemma_asked_of_host<Plan>(log: Seq<Exchange<Plan>>, call: HostCallView<Plan>) -> (at: int)
    requires
        host_calls(log).contains(call),
    ensures
        0 <= at < log.len(),
        log[at].request == RequestView::Host(call),
    decreases log.len(),
{
    let i = choose|i: int| 0 <= i < host_calls(log).len() && host_calls(log)[i] == call;
    let earlier = host_calls(log.drop_last());
    if log.last().request == RequestView::Host(call) {
        log.len() - 1
    } else {
        assert(earlier[i] == call);
        lemma_asked_of_host(log.drop_last(), call)
    }
}

/// Where nothing failed, what the host was asked for was done.
proof fn lemma_done_by_host<Plan>(log: Seq<Exchange<Plan>>, call: HostCallView<Plan>)
    requires
        host_calls(log).contains(call),
        answered(log),
        smooth(log),
        !(call is Detect),
        !(call is Build),
    ensures
        happened(log, RequestView::Host(call), ReplyView::Host(HostReplyView::Done)),
{
    let at = lemma_asked_of_host(log, call);
    assert(!bad(log[at].reply));
    assert(log[at] == Exchange {
        request: RequestView::Host(call),
        reply: ReplyView::<Plan>::Host(HostReplyView::Done),
    });
}

/// What the course says of the log of a deploy that is done.
proof fn lemma_course_of_done<Plan>(
    ctx: CtxView<Plan>,
    spec: WorkloadSpecView,
    repo: Seq<u8>,
    deploy_id: i64,
    count: nat,
    image: Seq<char>,
)
    requires
        ready(ctx.store, spec.name, deploy_id),
        deployed(ctx, spec, repo, deploy_id, count).deploy.result() == Some(
            Ok::<_, RunErrorView>(DeployOutcomeView::Done { image }),
        ),
    ensures
        ({
            let log = deployed(ctx, spec, repo, deploy_id, count).log;
            let course = course(ctx.store, spec, repo, deploy_id, log);
            &&& image == course.image
            &&& host_calls(log) == work_through(course, Stage::Healthcheck)
            &&& happened(
                log,
                RequestView::Host(HostCallView::Detect { repo }),
                ReplyView::Host(HostReplyView::Plan(course.plan)),
            )
            &&& happened(
                log,
                RequestView::Host(
                    HostCallView::Build { plan: course.plan, slug: slug_of(spec.name) },
                ),
                ReplyView::Host(HostReplyView::Image(image)),
            )
        }),
{
    let log = deployed(ctx, spec, repo, deploy_id, count).log;
    let course = course(ctx.store, spec, repo, deploy_id, log);
    law_all_that_a_deploy_asks_for(
        ctx,
        spec,
        repo,
        deploy_id,
        count,
        DeployOutcomeView::Done { image },
    );
    let ran = log.drop_last().drop_last();
    let json = ran[ran.len() - 2].reply->Codec_0->Json_0;
    let stages = course.until(Stage::Healthcheck) + course.passes(Stage::Healthcheck);
    assert(asked(log) =~= course.succeeds(json).push(log[log.len() - 2].request).push(
        log.last().request,
    )) by {
        assert(asked(ran) == course.succeeds(json));
        assert(asked(ran) =~= asked(log).drop_last().drop_last());
    }
    assert(host_calls(log) == work_through(course, Stage::Healthcheck)) by {
        lemma_hosts_of_a_log(log);
        lemma_hosts_through(course, Stage::Healthcheck);
        let encode = RequestView::<Plan>::Codec(CodecCallView::Encode { spec: course.ran() });
        let put = RequestView::<Plan>::Store(
            StoreCallView::PutSpec { name: spec.name, slug: slug_of(spec.name), json },
        );
        lemma_hosts_push(stages, encode);
        lemma_hosts_push(stages.push(encode), put);
        lemma_hosts_push(course.succeeds(json), log[log.len() - 2].request);
        lemma_hosts_push(
            course.succeeds(json).push(log[log.len() - 2].request),
            log.last().request,
        );
    }
    let first: int = if ctx.store.specs.contains_key(spec.name) {
        2
    } else {
        1
    };
    assert(stages[first + 2] == RequestView::<Plan>::Host(HostCallView::Detect { repo }));
    assert(stages[first + 6] == RequestView::<Plan>::Host(
        HostCallView::Build { plan: course.plan, slug: slug_of(spec.name) },
    ));
    assert(asked(log)[first + 2] == stages[first + 2]);
    assert(asked(log)[first + 6] == stages[first + 6]);
    lemma_answered(ctx, spec, repo, deploy_id, count);
    assert(smooth(log)) by {
        lemma_kept(ctx, spec, repo, deploy_id, count);
    }
    assert(log[first + 2].request == stages[first + 2] && !bad(log[first + 2].reply));
    assert(log[first + 6].request == stages[first + 6] && !bad(log[first + 6].reply));
    assert(log.contains(log[first + 2]));
    assert(log.contains(log[first + 6]));
}

/// A deploy that is done asked the host for this and for nothing else, in this
/// order: to detect what there is in the repository, to build what was detected,
/// to have the secrets of the spec, to apply the spec with the image that was
/// built, to serve its route, if it has one, and to check its health within
/// ninety seconds. All of it was done.
pub proof fn law_what_a_done_deploy_did<Plan>(
    ctx: CtxView<Plan>,
    spec: WorkloadSpecView,
    repo: Seq<u8>,
    deploy_id: i64,
    count: nat,
    image: Seq<char>,
)
    requires
        ready(ctx.store, spec.name, deploy_id),
        deployed(ctx, spec, repo, deploy_id, count).deploy.result() == Some(
            Ok::<_, RunErrorView>(DeployOutcomeView::Done { image }),
        ),
    ensures
        ({
            let log = deployed(ctx, spec, repo, deploy_id, count).log;
            let ran = WorkloadSpecView { image, ..spec };
            let slug = slug_of(spec.name);
            let done = ReplyView::<Plan>::Host(HostReplyView::Done);
            &&& exists|plan: Plan|
                {
                    &&& #[trigger] happened(
                        log,
                        RequestView::Host(HostCallView::Detect { repo }),
                        ReplyView::Host(HostReplyView::Plan(plan)),
                    )
                    &&& happened(
                        log,
                        RequestView::Host(HostCallView::Build { plan, slug }),
                        ReplyView::Host(HostReplyView::Image(image)),
                    )
                    &&& host_calls(log) == (match spec.route {
                        None => seq![
                            HostCallView::Detect { repo },
                            HostCallView::Build { plan, slug },
                            HostCallView::EnsureSecrets { names: spec.secrets },
                            HostCallView::Apply { spec: ran },
                            HostCallView::Healthcheck { spec: ran, cap: 90 },
                        ],
                        Some(route) => seq![
                            HostCallView::Detect { repo },
                            HostCallView::Build { plan, slug },
                            HostCallView::EnsureSecrets { names: spec.secrets },
                            HostCallView::Apply { spec: ran },
                            HostCallView::ApplyRoute { slug, route },
                            HostCallView::Healthcheck { spec: ran, cap: 90 },
                        ],
                    })
                }
            &&& happened(
                log,
                RequestView::Host(HostCallView::EnsureSecrets { names: spec.secrets }),
                done,
            )
            &&& happened(log, RequestView::Host(HostCallView::Apply { spec: ran }), done)
            &&& spec.route matches Some(route) ==> happened(
                log,
                RequestView::Host(HostCallView::ApplyRoute { slug, route }),
                done,
            )
            &&& happened(
                log,
                RequestView::Host(HostCallView::Healthcheck { spec: ran, cap: 90 }),
                done,
            )
        }),
{
    lemma_course_of_done(ctx, spec, repo, deploy_id, count, image);
    let log = deployed(ctx, spec, repo, deploy_id, count).log;
    let course = course(ctx.store, spec, repo, deploy_id, log);
    lemma_answered(ctx, spec, repo, deploy_id, count);
    assert(smooth(log)) by {
        lemma_kept(ctx, spec, repo, deploy_id, count);
    }
    let calls = host_calls(log);
    lemma_done_by_host(log, calls[2]);
    lemma_done_by_host(log, calls[3]);
    lemma_done_by_host(log, calls[4]);
    lemma_done_by_host(log, calls.last());
}

/// Whether this is the spec that the ledger held of an app, as the codec read it,
/// or none where it held none.
pub open spec fn read_back<Plan>(
    before: StoreView,
    log: Seq<Exchange<Plan>>,
    name: Seq<char>,
    previous: Option<WorkloadSpecView>,
) -> bool {
    match previous {
        None => !before.specs.contains_key(name),
        Some(spec) => before.specs.contains_key(name) && happened(
            log,
            RequestView::Codec(CodecCallView::Decode { json: before.specs[name].json }),
            ReplyView::Codec(CodecReplyView::Spec(spec)),
        ),
    }
}

/// What undoes a stage that failed. From Route on the route comes first: the one
/// that was served before is served again, and where there was none, none is.
/// From Apply on the unit comes last: the spec that ran before is applied again,
/// and where none did, the unit is removed. Before Apply there is nothing to undo.
pub open spec fn undoing<Plan>(
    name: Seq<char>,
    previous: Option<WorkloadSpecView>,
    failed_at: Stage,
) -> Seq<HostCallView<Plan>> {
    let unit = match previous {
        Some(spec) => HostCallView::Apply { spec },
        None => HostCallView::Remove { name },
    };
    let route = match previous {
        Some(WorkloadSpecView { route: Some(route), .. }) => HostCallView::ApplyRoute {
            slug: slug_of(name),
            route,
        },
        Some(WorkloadSpecView { route: None, .. }) => HostCallView::RemoveRoute {
            slug: slug_of(name),
        },
        None => HostCallView::RemoveRoute { slug: slug_of(name) },
    };
    match failed_at {
        Stage::Detect | Stage::Build | Stage::Secrets => Seq::empty(),
        Stage::Apply => seq![unit],
        Stage::Route | Stage::Healthcheck => seq![route, unit],
    }
}

/// A deploy with an outcome has exactly one spec to go back to, or none: the one
/// that the ledger held of its app, as the codec read it.
pub proof fn law_spec_to_go_back_to<Plan>(
    ctx: CtxView<Plan>,
    spec: WorkloadSpecView,
    repo: Seq<u8>,
    deploy_id: i64,
    count: nat,
    outcome: DeployOutcomeView,
)
    requires
        ready(ctx.store, spec.name, deploy_id),
        deployed(ctx, spec, repo, deploy_id, count).deploy.result() == Some(
            Ok::<_, RunErrorView>(outcome),
        ),
    ensures
        ({
            let log = deployed(ctx, spec, repo, deploy_id, count).log;
            let course = course(ctx.store, spec, repo, deploy_id, log);
            &&& read_back(ctx.store, log, spec.name, course.previous)
            &&& forall|previous: Option<WorkloadSpecView>| #[trigger]
                read_back(ctx.store, log, spec.name, previous) ==> previous == course.previous
        }),
{
    let log = deployed(ctx, spec, repo, deploy_id, count).log;
    let course = course(ctx.store, spec, repo, deploy_id, log);
    law_all_that_a_deploy_asks_for(ctx, spec, repo, deploy_id, count, outcome);
    law_given_up_at_once(ctx, spec, repo, deploy_id, count, 1);
    lemma_answered(ctx, spec, repo, deploy_id, count);
    lemma_read_once(ctx, spec, repo, deploy_id, count);
    if let Some(json) = course.stored {
        let ran = log.drop_last().drop_last();
        lemma_outcome_opened(course, ran, outcome);
        assert(asked(ran)[1] == course.opens()[1]);
        assert(log[1] == ran[1]);
        assert(log[1].request == asked(ran)[1]);
        assert(log[1].request.admits(log[1].reply));
        assert(!trouble(log[1].reply));
        assert(log.contains(log[1]));
        assert(log[1] == Exchange {
            request: RequestView::<Plan>::Codec(CodecCallView::Decode { json }),
            reply: ReplyView::Codec(CodecReplyView::Spec(course.previous->0)),
        });
        assert forall|previous: Option<WorkloadSpecView>| #[trigger]
            read_back(ctx.store, log, spec.name, previous) implies previous == course.previous by {
            let exchange = Exchange {
                request: RequestView::<Plan>::Codec(CodecCallView::Decode { json }),
                reply: ReplyView::Codec(CodecReplyView::Spec(previous->0)),
            };
            assert(log.contains(exchange));
            let i = choose|i: int| 0 <= i < log.len() && log[i] == exchange;
            assert(log[i].request is Codec);
        }
    }
}

/// What the host was asked for by a deploy that broke off.
proof fn lemma_hosts_of_broken<Plan>(
    course: Course<Plan>,
    log: Seq<Exchange<Plan>>,
    stage: Stage,
    cause: Seq<char>,
    undone: Seq<HostCallView<Plan>>,
)
    requires
        log.len() > 1,
        broke_off(course, log.drop_last().drop_last(), stage, cause, undone),
        !(log[log.len() - 2].request is Host),
        !(log.last().request is Host),
    ensures
        host_calls(log) == work_through(course, stage) + undone,
{
    let ran = log.drop_last().drop_last();
    lemma_hosts_of_a_log(ran);
    lemma_hosts_through(course, stage);
    lemma_hosts_push(
        course.until(stage) + course.tries(stage),
        course.tells(stage, EventStatus::Failed, Some(cause)),
    );
    lemma_hosts_alone(undone);
    lemma_hosts_add(course.fails(stage, cause), of_host(undone));
    assert(log.drop_last().last() == log[log.len() - 2]);
    assert(host_calls(log) == host_calls(log.drop_last()));
    assert(host_calls(log.drop_last()) == host_calls(ran));
}

/// A deploy that was rolled back asked the host for the work of the stages up to
/// the one that failed and then for what undoes it, and for nothing else. From
/// Route or Healthcheck the route comes first: the route of the spec that the
/// ledger held is applied, and the route is removed where that spec has none and
/// where the ledger held none. From Apply on the unit comes last: the spec that
/// the ledger held is applied, whatever it says, and the unit is removed only
/// where the ledger held none. All that undoes it was done.
pub proof fn law_what_a_rolled_back_deploy_did<Plan>(
    ctx: CtxView<Plan>,
    spec: WorkloadSpecView,
    repo: Seq<u8>,
    deploy_id: i64,
    count: nat,
    failed_at: Stage,
    cause: Seq<char>,
    previous: Option<WorkloadSpecView>,
)
    requires
        ready(ctx.store, spec.name, deploy_id),
        deployed(ctx, spec, repo, deploy_id, count).deploy.result() == Some(
            Ok::<_, RunErrorView>(DeployOutcomeView::RolledBack { failed_at, cause }),
        ),
        read_back(
            ctx.store,
            deployed(ctx, spec, repo, deploy_id, count).log,
            spec.name,
            previous,
        ),
    ensures
        ({
            let log = deployed(ctx, spec, repo, deploy_id, count).log;
            let course = course(ctx.store, spec, repo, deploy_id, log);
            let undoing = undoing::<Plan>(spec.name, previous, failed_at);
            let end = log.len() - 2;
            &&& host_calls(log) == work_through(course, failed_at) + undoing
            &&& undoing.len() <= end
            &&& forall|i: int|
                0 <= i < undoing.len() ==> #[trigger] log[end - undoing.len() + i] == (Exchange {
                    request: RequestView::Host(undoing[i]),
                    reply: ReplyView::<Plan>::Host(HostReplyView::Done),
                })
        }),
{
    let outcome = DeployOutcomeView::RolledBack { failed_at, cause };
    let log = deployed(ctx, spec, repo, deploy_id, count).log;
    let course = course(ctx.store, spec, repo, deploy_id, log);
    law_all_that_a_deploy_asks_for(ctx, spec, repo, deploy_id, count, outcome);
    law_spec_to_go_back_to(ctx, spec, repo, deploy_id, count, outcome);
    let undoing = undoing::<Plan>(spec.name, previous, failed_at);
    assert(undoing =~= course.undoes(failed_at));
    lemma_hosts_of_broken(course, log, failed_at, cause, undoing);
    let ran = log.drop_last().drop_last();
    let from = course.fails(failed_at, cause).len() as int;
    assert(asked(ran).len() == from + undoing.len());
    assert forall|i: int| 0 <= i < undoing.len() implies #[trigger] log[log.len() - 2
        - undoing.len() + i] == (Exchange {
        request: RequestView::Host(undoing[i]),
        reply: ReplyView::<Plan>::Host(HostReplyView::Done),
    }) by {
        assert(log[from + i] == ran[from + i]);
        assert(asked(ran)[from + i] == of_host(undoing)[i]);
        assert(ran[from + i].request == asked(ran)[from + i]);
    }
}

/// A deploy that failed asked the host for the work of the stages up to the one
/// that failed, and then for what undoes it, one after the other: all before the
/// last was done, and the last failed.
pub proof fn law_what_a_failed_deploy_did<Plan>(
    ctx: CtxView<Plan>,
    spec: WorkloadSpecView,
    repo: Seq<u8>,
    deploy_id: i64,
    count: nat,
    failed_at: Stage,
    cause: Seq<char>,
    previous: Option<WorkloadSpecView>,
)
    requires
        ready(ctx.store, spec.name, deploy_id),
        deployed(ctx, spec, repo, deploy_id, count).deploy.result() == Some(
            Ok::<_, RunErrorView>(DeployOutcomeView::Failed { failed_at, cause }),
        ),
        read_back(
            ctx.store,
            deployed(ctx, spec, repo, deploy_id, count).log,
            spec.name,
            previous,
        ),
    ensures
        ({
            let log = deployed(ctx, spec, repo, deploy_id, count).log;
            let course = course(ctx.store, spec, repo, deploy_id, log);
            let undoing = undoing::<Plan>(spec.name, previous, failed_at);
            &&& log.len() > 2
            &&& log[log.len() - 3].reply is Host
            &&& log[log.len() - 3].reply->Host_0 is Failed
            &&& {
                ||| undoing.len() > 0 && host_calls(log) == work_through(course, failed_at).push(
                    undoing[0],
                )
                ||| undoing.len() > 1 && host_calls(log) == work_through(course, failed_at).push(
                    undoing[0],
                ).push(undoing[1]) && log.len() > 3 && log[log.len() - 4] == (Exchange {
                    request: RequestView::Host(undoing[0]),
                    reply: ReplyView::<Plan>::Host(HostReplyView::Done),
                })
            }
        }),
{
    let outcome = DeployOutcomeView::Failed { failed_at, cause };
    let log = deployed(ctx, spec, repo, deploy_id, count).log;
    let course = course(ctx.store, spec, repo, deploy_id, log);
    law_all_that_a_deploy_asks_for(ctx, spec, repo, deploy_id, count, outcome);
    law_spec_to_go_back_to(ctx, spec, repo, deploy_id, count, outcome);
    let undoing = undoing::<Plan>(spec.name, previous, failed_at);
    assert(undoing =~= course.undoes(failed_at));
    let ran = log.drop_last().drop_last();
    let (why, done) = choose|why: Seq<char>, done: int|
        {
            &&& 0 < done <= undoing.len()
            &&& #[trigger] broke_off(course, ran, failed_at, why, undoing.take(done))
            &&& all_done(ran, course.fails(failed_at, why).len() as int, ran.len() - 1)
            &&& ran.last().reply matches ReplyView::Host(HostReplyView::Failed(error))
            &&& cause == why + "; compensation also failed: "@ + one_line(error)
        };
    lemma_hosts_of_broken(course, log, failed_at, why, undoing.take(done));
    let work = work_through(course, failed_at);
    assert(asked(ran).len() == course.fails(failed_at, why).len() + done);
    assert(log[log.len() - 3] == ran.last());
    if done == 1 {
        assert(work + undoing.take(done) =~= work.push(undoing[0]));
    } else {
        assert(work + undoing.take(done) =~= work.push(undoing[0]).push(undoing[1]));
        assert(log[log.len() - 4] == ran[ran.len() - 2]);
        assert(asked(ran)[ran.len() - 2] == of_host(undoing.take(done))[0]);
        assert(ran[ran.len() - 2].request == asked(ran)[ran.len() - 2]);
    }
}

/// What an app has on the host: the spec of its unit, and its route.
pub struct Running {
    pub unit: Option<WorkloadSpecView>,
    pub route: Option<RouteView>,
}

/// What an app has on the host once the host has done all of this.
pub open spec fn left_with<Plan>(calls: Seq<HostCallView<Plan>>, before: Running) -> Running
    decreases calls.len(),
{
    if calls.len() == 0 {
        before
    } else {
        let earlier = left_with(calls.drop_last(), before);
        match calls.last() {
            HostCallView::Apply { spec } => Running { unit: Some(spec), ..earlier },
            HostCallView::Remove { .. } => Running { unit: None, ..earlier },
            HostCallView::ApplyRoute { route, .. } => Running { route: Some(route), ..earlier },
            HostCallView::RemoveRoute { .. } => Running { route: None, ..earlier },
            _ => earlier,
        }
    }
}

/// One after the other.
pub proof fn lemma_left_with_one_more<Plan>(
    calls: Seq<HostCallView<Plan>>,
    call: HostCallView<Plan>,
    before: Running,
)
    ensures
        left_with(calls.push(call), before) == (match call {
            HostCallView::Apply { spec } => Running {
                unit: Some(spec),
                ..left_with(calls, before)
            },
            HostCallView::Remove { .. } => Running { unit: None, ..left_with(calls, before) },
            HostCallView::ApplyRoute { route, .. } => Running {
                route: Some(route),
                ..left_with(calls, before)
            },
            HostCallView::RemoveRoute { .. } => Running { route: None, ..left_with(calls, before) },
            _ => left_with(calls, before),
        }),
{
    assert(calls.push(call).drop_last() =~= calls);
}

/// One after the other, from a longer list.
proof fn lemma_left_with_next<Plan>(calls: Seq<HostCallView<Plan>>, i: int, before: Running)
    requires
        0 <= i < calls.len(),
    ensures
        ({
            let earlier = left_with(calls.take(i), before);
            left_with(calls.take(i + 1), before) == (match calls[i] {
                HostCallView::Apply { spec } => Running { unit: Some(spec), ..earlier },
                HostCallView::Remove { .. } => Running { unit: None, ..earlier },
                HostCallView::ApplyRoute { route, .. } => Running { route: Some(route), ..earlier },
                HostCallView::RemoveRoute { .. } => Running { route: None, ..earlier },
                _ => earlier,
            })
        }),
{
    assert(calls.take(i + 1) =~= calls.take(i).push(calls[i]));
    lemma_left_with_one_more(calls.take(i), calls[i], before);
}

/// What the work of the stages leaves on the host.
proof fn lemma_left_with_work<Plan>(course: Course<Plan>, stage: Stage, before: Running)
    ensures
        left_with(work_through(course, stage), before) == (match stage {
            Stage::Detect | Stage::Build | Stage::Secrets => before,
            Stage::Apply => Running { unit: Some(course.ran()), ..before },
            Stage::Route | Stage::Healthcheck => Running {
                unit: Some(course.ran()),
                route: if course.spec.route is Some {
                    course.spec.route
                } else {
                    before.route
                },
            },
        }),
{
    let work = work_through(course, Stage::Healthcheck);
    assert(work.take(0) =~= Seq::empty());
    lemma_left_with_next(work, 0, before);
    lemma_left_with_next(work, 1, before);
    lemma_left_with_next(work, 2, before);
    lemma_left_with_next(work, 3, before);
    lemma_left_with_next(work, 4, before);
    assert(work_through(course, Stage::Detect) =~= work.take(1));
    assert(work_through(course, Stage::Build) =~= work.take(2));
    assert(work_through(course, Stage::Secrets) =~= work.take(3));
    assert(work_through(course, Stage::Apply) =~= work.take(4));
    if course.spec.route is Some {
        lemma_left_with_next(work, 5, before);
        assert(work_through(course, Stage::Route) =~= work.take(5));
        assert(work =~= work.take(6));
    } else {
        assert(work_through(course, Stage::Route) =~= work.take(4));
        assert(work =~= work.take(5));
    }
}

/// A deploy that is done leaves the app with the spec and the image that was
/// built, and with the route of the spec, or the one that it had where the spec
/// asks for none. One that was rolled back leaves the app with the unit of the
/// spec that the ledger held, and, from Route on, with the route of that spec:
/// with none where the ledger held none. Before Apply it leaves all as it was.
/// So where the ledger held what the app had, the app has it again.
pub proof fn law_what_an_app_is_left_with<Plan>(
    ctx: CtxView<Plan>,
    spec: WorkloadSpecView,
    repo: Seq<u8>,
    deploy_id: i64,
    count: nat,
    before: Running,
    previous: Option<WorkloadSpecView>,
)
    requires
        ready(ctx.store, spec.name, deploy_id),
        read_back(
            ctx.store,
            deployed(ctx, spec, repo, deploy_id, count).log,
            spec.name,
            previous,
        ),
    ensures
        ({
            let now = deployed(ctx, spec, repo, deploy_id, count);
            let after = left_with(host_calls(now.log), before);
            let route = match previous {
                Some(previous) => previous.route,
                None => None,
            };
            match now.deploy.result() {
                Some(Ok(DeployOutcomeView::Done { image })) => {
                    &&& after.unit == Some(WorkloadSpecView { image, ..spec })
                    &&& after.route == (if spec.route is Some {
                        spec.route
                    } else {
                        before.route
                    })
                },
                Some(Ok(DeployOutcomeView::RolledBack { failed_at, .. })) => {
                    &&& match failed_at {
                        Stage::Detect | Stage::Build | Stage::Secrets => after == before,
                        Stage::Apply => after.unit == previous && after.route == before.route,
                        Stage::Route | Stage::Healthcheck => after.unit == previous && after.route
                            == route,
                    }
                    &&& before == (Running { unit: previous, route }) ==> after == before
                },
                _ => true,
            }
        }),
{
    let now = deployed(ctx, spec, repo, deploy_id, count);
    let course = course(ctx.store, spec, repo, deploy_id, now.log);
    match now.deploy.result() {
        Some(Ok(DeployOutcomeView::Done { image })) => {
            lemma_course_of_done(ctx, spec, repo, deploy_id, count, image);
            lemma_left_with_work(course, Stage::Healthcheck, before);
        },
        Some(Ok(DeployOutcomeView::RolledBack { failed_at, cause })) => {
            law_what_a_rolled_back_deploy_did(
                ctx,
                spec,
                repo,
                deploy_id,
                count,
                failed_at,
                cause,
                previous,
            );
            let work = work_through(course, failed_at);
            let undoing = undoing::<Plan>(spec.name, previous, failed_at);
            lemma_left_with_work(course, failed_at, before);
            if undoing.len() == 0 {
                assert(work + undoing =~= work);
            } else if undoing.len() == 1 {
                assert(work + undoing =~= work.push(undoing[0]));
                lemma_left_with_one_more(work, undoing[0], before);
            } else {
                assert(work + undoing =~= work.push(undoing[0]).push(undoing[1]));
                lemma_left_with_one_more(work, undoing[0], before);
                lemma_left_with_one_more(work.push(undoing[0]), undoing[1], before);
            }
        },
        _ => {},
    }
}

/// Whether the host has done everything that comes before a stage, for a deploy
/// that was started with `spec` and from `repo` and has this image by now.
pub open spec fn work_behind<Plan>(
    log: Seq<Exchange<Plan>>,
    spec: WorkloadSpecView,
    repo: Seq<u8>,
    image: Seq<char>,
    stage: Stage,
) -> bool {
    let ran = WorkloadSpecView { image, ..spec };
    let slug = slug_of(spec.name);
    let done = ReplyView::<Plan>::Host(HostReplyView::Done);
    &&& stage != Stage::Detect ==> exists|plan: Plan|
        {
            &&& #[trigger] happened(
                log,
                RequestView::Host(HostCallView::Detect { repo }),
                ReplyView::Host(HostReplyView::Plan(plan)),
            )
            &&& stage != Stage::Build ==> happened(
                log,
                RequestView::Host(HostCallView::Build { plan, slug }),
                ReplyView::Host(HostReplyView::Image(image)),
            )
        }
    &&& stage == Stage::Apply || stage == Stage::Route || stage == Stage::Healthcheck ==> happened(
        log,
        RequestView::Host(HostCallView::EnsureSecrets { names: spec.secrets }),
        done,
    )
    &&& stage == Stage::Route || stage == Stage::Healthcheck ==> happened(
        log,
        RequestView::Host(HostCallView::Apply { spec: ran }),
        done,
    )
    &&& stage == Stage::Healthcheck && spec.route is Some ==> happened(
        log,
        RequestView::Host(HostCallView::ApplyRoute { slug, route: spec.route->0 }),
        done,
    )
}

/// What was done stays done.
proof fn lemma_work_behind<Plan>(
    log: Seq<Exchange<Plan>>,
    exchange: Exchange<Plan>,
    spec: WorkloadSpecView,
    repo: Seq<u8>,
    image: Seq<char>,
    stage: Stage,
)
    requires
        work_behind(log, spec, repo, image, stage),
    ensures
        work_behind(log.push(exchange), spec, repo, image, stage),
        stage == Stage::Detect || stage == Stage::Build ==> forall|other: Seq<char>|
            work_behind(log.push(exchange), spec, repo, other, stage),
{
    lemma_happened(log, exchange.request, exchange.reply);
    if stage != Stage::Detect {
        let plan = choose|plan: Plan|
            {
                &&& #[trigger] happened(
                    log,
                    RequestView::Host(HostCallView::Detect { repo }),
                    ReplyView::Host(HostReplyView::Plan(plan)),
                )
                &&& stage != Stage::Build ==> happened(
                    log,
                    RequestView::Host(HostCallView::Build { plan, slug: slug_of(spec.name) }),
                    ReplyView::Host(HostReplyView::Image(image)),
                )
            };
        assert(happened(
            log.push(exchange),
            RequestView::Host(HostCallView::Detect { repo }),
            ReplyView::Host(HostReplyView::Plan(plan)),
        ));
    }
}

/// The stage whose work comes next, or is under way.
spec fn due<Plan>(phase: PhaseView<Plan>) -> Option<Stage> {
    match phase {
        PhaseView::Advancing { job } => Some(job.at()),
        PhaseView::Starting { job } => Some(job.at()),
        PhaseView::Working { job } => Some(job.at()),
        PhaseView::Passing { next: Some(job), .. } => Some(job.at()),
        _ => None,
    }
}

/// What came before the stage that is due, or that the row is at, was done.
proof fn lemma_stages_behind<Plan>(
    ctx: CtxView<Plan>,
    spec: WorkloadSpecView,
    repo: Seq<u8>,
    deploy_id: i64,
    count: nat,
)
    requires
        ready(ctx.store, spec.name, deploy_id),
        ctx.store.row(deploy_id).stage == Stage::Detect,
    ensures
        ({
            let now = deployed(ctx, spec, repo, deploy_id, count);
            let image = now.deploy.spec.image;
            &&& work_behind(now.log, spec, repo, image, now.ctx.store.row(deploy_id).stage)
            &&& due(now.deploy.phase) matches Some(stage) ==> work_behind(
                now.log,
                spec,
                repo,
                image,
                stage,
            )
        }),
    decreases count,
{
    if count > 0 {
        let earlier = (count - 1) as nat;
        lemma_stages_behind(ctx, spec, repo, deploy_id, earlier);
        let scene = deployed(ctx, spec, repo, deploy_id, earlier);
        assert({
            &&& coherent(scene.deploy)
            &&& same(DeploymentView::reserved(spec, repo, deploy_id), scene.deploy)
            &&& agrees(scene.ctx.store, scene.deploy)
            &&& handed_on(scene)
        }) by {
            lemma_kept(ctx, spec, repo, deploy_id, earlier);
        }
        if !scene.stands() {
            lemma_stages_behind_step(scene, spec, repo, deploy_id);
        }
    }
}

/// What came before was done, after one more request.
proof fn lemma_stages_behind_step<Plan>(
    scene: DeployScene<Plan>,
    spec: WorkloadSpecView,
    repo: Seq<u8>,
    deploy_id: i64,
)
    requires
        !scene.stands(),
        coherent(scene.deploy),
        same(DeploymentView::reserved(spec, repo, deploy_id), scene.deploy),
        agrees(scene.ctx.store, scene.deploy),
        handed_on(scene),
        work_behind(
            scene.log,
            spec,
            repo,
            scene.deploy.spec.image,
            scene.ctx.store.row(deploy_id).stage,
        ),
        due(scene.deploy.phase) matches Some(stage) ==> work_behind(
            scene.log,
            spec,
            repo,
            scene.deploy.spec.image,
            stage,
        ),
    ensures
        ({
            let next = scene.next();
            let image = next.deploy.spec.image;
            &&& work_behind(next.log, spec, repo, image, next.ctx.store.row(deploy_id).stage)
            &&& due(next.deploy.phase) matches Some(stage) ==> work_behind(
                next.log,
                spec,
                repo,
                image,
                stage,
            )
        }),
{
    let request = scene.deploy.request()->0;
    let reply = scene.ctx.reply(request)->0;
    law_reply_is_admitted(scene.ctx, request);
    lemma_happened(scene.log, request, reply);
    let next = scene.next();
    let exchange = Exchange { request, reply };
    let image = scene.deploy.spec.image;
    lemma_work_behind(
        scene.log,
        exchange,
        spec,
        repo,
        image,
        scene.ctx.store.row(deploy_id).stage,
    );
    if let Some(stage) = due(scene.deploy.phase) {
        lemma_work_behind(scene.log, exchange, spec, repo, image, stage);
    }
    match scene.deploy.phase {
        PhaseView::Working { job: Job::Detect } => {
            if let ReplyView::Host(HostReplyView::Plan(plan)) = reply {
                assert(happened(
                    next.log,
                    RequestView::Host(HostCallView::Detect { repo }),
                    ReplyView::Host(HostReplyView::Plan(plan)),
                ));
            }
        },
        PhaseView::Working { job: Job::Build { plan } } => {
            assert(happened(
                next.log,
                RequestView::Host(HostCallView::Detect { repo }),
                ReplyView::Host(HostReplyView::Plan(plan)),
            ));
        },
        _ => {},
    }
}

/// A deploy gets to a stage only once everything before it was done. One that
/// gets past Detect knows what there is in the repository; past Build it has an
/// image of that; past Secrets the host has the secrets of the spec that the
/// deploy was started with, whatever else is in the spec; past Apply it runs that
/// spec with the image; and past Route it serves the route, if there is one.
pub proof fn law_work_behind_a_stage<Plan>(
    ctx: CtxView<Plan>,
    spec: WorkloadSpecView,
    repo: Seq<u8>,
    deploy_id: i64,
    count: nat,
)
    requires
        ready(ctx.store, spec.name, deploy_id),
        ctx.store.row(deploy_id).stage == Stage::Detect,
    ensures
        ({
            let now = deployed(ctx, spec, repo, deploy_id, count);
            work_behind(
                now.log,
                spec,
                repo,
                now.deploy.spec.image,
                now.ctx.store.row(deploy_id).stage,
            )
        }),
{
    lemma_stages_behind(ctx, spec, repo, deploy_id, count);
}

} // verus!
