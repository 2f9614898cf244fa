use kuadrat_deploy::ctx::Ctx;
use kuadrat_deploy::deployment::RunError;
use kuadrat_deploy::model::{DeployOutcome, DeployStatus, EventKind, Stage};
use kuadrat_deploy::protocol::{CodecReply, HostReply, Reply};
use kuadrat_deploy::reservation::ReserveError;
use kuadrat_deploy::run::{reconcile, reserve, run, run_reserved};
use kuadrat_deploy::spec::{Route, SpecError, WorkloadSpec};
use kuadrat_deploy::store::Store;
use kuadrat_deploy::text::Failure;

fn web() -> WorkloadSpec {
    WorkloadSpec::new("web", "placeholder")
}

fn repo() -> Vec<u8> {
    b"/repo".to_vec()
}

fn ok() -> Reply<String> {
    Reply::Host(HostReply::Done)
}

fn broken(why: &str) -> Reply<String> {
    Reply::Host(HostReply::Failed(Failure::new(why)))
}

/// What the world replies to a first deploy where everything works.
fn clean() -> Vec<Reply<String>> {
    vec![
        Reply::Host(HostReply::Plan("abc123".to_string())),
        Reply::Host(HostReply::Image("localhost/kuadrat-web:abc123".to_string())),
        ok(),
        ok(),
        ok(),
        Reply::Codec(CodecReply::Json("{}".to_string())),
    ]
}

/// The clean replies up to one, which is replaced by a failure.
fn broken_at(index: usize, why: &str) -> Vec<Reply<String>> {
    let mut replies = clean();
    replies.truncate(index);
    replies.push(broken(why));
    replies
}

#[test]
fn a_clean_run_takes_every_reply_and_ends_done() {
    let mut ctx = Ctx::new(Store::new(), clean());
    let result = run(&mut ctx, web(), repo());
    assert_eq!(
        result,
        Some(Ok(DeployOutcome::Done { image: "localhost/kuadrat-web:abc123".to_string() }))
    );
    assert!(ctx.replies.is_empty());
    let row = ctx.store.deploy(1).expect("row");
    assert_eq!(row.status, DeployStatus::Done);
    assert_eq!(row.stage, Stage::Healthcheck);
    assert_eq!(row.detail, None);
    assert!(!ctx.store.is_locked("web"));
    assert_eq!(ctx.store.current_spec("web").as_deref(), Some("{}"));
    assert_eq!(ctx.sink, ctx.store.events_for(1));
    assert_eq!(ctx.sink.len(), 13);
}

#[test]
fn running_is_reserving_and_running_what_was_reserved() {
    let mut at_once = Ctx::new(Store::new(), clean());
    let outcome = run(&mut at_once, web(), repo());

    let mut in_two = Ctx::new(Store::new(), clean());
    let id = reserve(&mut in_two, "web").expect("reserved");
    assert_eq!(id, 1);
    assert!(in_two.store.is_locked("web"));
    assert_eq!(in_two.store.deploy(id).expect("row").status, DeployStatus::InProgress);
    assert_eq!(run_reserved(&mut in_two, web(), repo(), id), outcome);
    assert_eq!(in_two, at_once);
}

#[test]
fn a_second_reservation_is_busy_until_the_first_deploy_has_ended() {
    let mut ctx = Ctx::new(Store::new(), clean());
    let first = reserve(&mut ctx, "web").expect("reserved");
    assert_eq!(
        reserve(&mut ctx, "web"),
        Err(ReserveError::Busy { name: "web".to_string(), deploy_id: 2 })
    );
    assert_eq!(
        ctx.store.deploy(2).expect("row").detail.as_deref(),
        Some("another deploy is already in progress")
    );
    // Another app is no conflict.
    assert_eq!(reserve(&mut ctx, "api"), Ok(3));
    assert!(matches!(run_reserved(&mut ctx, web(), repo(), first), Some(Ok(_))));
    assert_eq!(reserve(&mut ctx, "web"), Ok(4));
    // A refusal leaves no event behind.
    assert!(ctx.store.events_for(2).is_empty());
}

#[test]
fn a_store_that_fails_is_never_taken_for_a_conflict() {
    for failing in 0..3 {
        let mut ctx: Ctx<String> = Ctx::new(Store::new(), Vec::new());
        let other = ctx.store.create_deploy("web").expect("row");
        assert!(ctx.store.acquire_lock("web", other));
        ctx.faults = vec![None, None, None];
        ctx.faults[failing] = Some(Failure::new("disk full"));
        assert_eq!(
            reserve(&mut ctx, "web"),
            Err(ReserveError::Internal(Failure::new("disk full")))
        );
        assert_eq!(ctx.faults.len(), 2 - failing);
    }
}

#[test]
fn an_invalid_spec_is_refused_before_anything_is_written() {
    let mut spec = web();
    spec.route = Some(Route { domain: "example.com".to_string(), port: 3000 });
    let mut ctx = Ctx::new(Store::new(), clean());
    let result = run(&mut ctx, spec, repo());
    assert_eq!(result, Some(Err(RunError::Invalid(SpecError::RouteWithoutHealthCheck))));
    assert_eq!(ctx, Ctx::new(Store::new(), clean()));
}

#[test]
fn a_refused_spec_gives_the_reserved_lock_back() {
    let mut ctx: Ctx<String> = Ctx::new(Store::new(), Vec::new());
    let id = reserve(&mut ctx, "web").expect("reserved");
    let mut spec = web();
    spec.route = Some(Route { domain: "example.com".to_string(), port: 3000 });
    let result = run_reserved(&mut ctx, spec, repo(), id);
    assert_eq!(result, Some(Err(RunError::Invalid(SpecError::RouteWithoutHealthCheck))));
    assert!(!ctx.store.is_locked("web"));
    assert!(ctx.sink.is_empty());
    assert_eq!(ctx.store.deploy(id).expect("row").status, DeployStatus::InProgress);
    // The app is not busy any more.
    assert_eq!(reserve(&mut ctx, "web"), Ok(2));
    // The row that was left is settled by the next recovery.
    let recovery = reconcile(&mut ctx).expect("a result").expect("recovered");
    assert_eq!(recovery.outcomes.len(), 2);
    assert_eq!(ctx.store.deploy(id).expect("row").status, DeployStatus::RolledBack);
}

#[test]
fn a_refused_spec_whose_lock_cannot_be_given_back_says_so() {
    let mut ctx: Ctx<String> = Ctx::new(Store::new(), Vec::new());
    let id = reserve(&mut ctx, "web").expect("reserved");
    ctx.faults.push(Some(Failure::new("disk full")));
    let result = run_reserved(&mut ctx, WorkloadSpec::new("we\nb", "x"), repo(), id);
    assert_eq!(result, Some(Err(RunError::Internal(Failure::new("disk full")))));
    assert!(ctx.store.is_locked("web"));
}

#[test]
fn every_stage_that_fails_is_blamed() {
    let cases = [
        (0, Stage::Detect),
        (1, Stage::Build),
        (2, Stage::Secrets),
        (3, Stage::Apply),
        (4, Stage::Healthcheck),
    ];
    for (index, stage) in cases {
        let mut replies = broken_at(index, "it broke");
        replies.push(ok());
        replies.push(ok());
        let mut ctx = Ctx::new(Store::new(), replies);
        let result = run(&mut ctx, web(), repo());
        assert_eq!(
            result,
            Some(Ok(DeployOutcome::RolledBack { failed_at: stage, cause: "it broke".to_string() }))
        );
        let row = ctx.store.deploy(1).expect("row");
        assert_eq!(row.status, DeployStatus::RolledBack);
        assert_eq!(row.stage, stage);
        assert_eq!(row.detail.as_deref(), Some("it broke"));
        assert!(!ctx.store.is_locked("web"));
        assert!(ctx.store.current_spec("web").is_none());
    }
}

#[test]
fn the_cause_is_the_whole_chain_on_one_line() {
    let mut replies = clean();
    replies.truncate(1);
    replies.push(Reply::Host(HostReply::Failed(Failure::new("exit status 1").context("building"))));
    let mut ctx = Ctx::new(Store::new(), replies);
    assert_eq!(
        run(&mut ctx, web(), repo()),
        Some(Ok(DeployOutcome::RolledBack {
            failed_at: Stage::Build,
            cause: "building: exit status 1".to_string()
        }))
    );
}

#[test]
fn undoing_stops_at_the_first_thing_that_fails() {
    let mut replies = broken_at(4, "unhealthy");
    replies.push(broken("caddy refused"));
    replies.push(ok());
    let mut ctx = Ctx::new(Store::new(), replies);
    assert_eq!(
        run(&mut ctx, web(), repo()),
        Some(Ok(DeployOutcome::Failed {
            failed_at: Stage::Healthcheck,
            cause: "unhealthy; compensation also failed: caddy refused".to_string()
        }))
    );
    // The unit was not asked for any more.
    assert_eq!(ctx.replies, vec![ok()]);
    assert_eq!(ctx.store.deploy(1).expect("row").status, DeployStatus::Failed);
}

#[test]
fn a_spec_that_cannot_be_serialized_gives_the_lock_back_without_an_end() {
    let mut replies = clean();
    replies.truncate(5);
    replies.push(Reply::Codec(CodecReply::Failed(Failure::new("key must be a string"))));
    let mut ctx = Ctx::new(Store::new(), replies);
    let result = run(&mut ctx, web(), repo());
    match result {
        Some(Err(RunError::Internal(error))) => {
            assert_eq!(error.one_line(), "serializing the deployed spec: key must be a string");
        }
        other => panic!("{other:?}"),
    }
    assert!(!ctx.store.is_locked("web"));
    assert_eq!(ctx.store.deploy(1).expect("row").status, DeployStatus::InProgress);
    assert!(!ctx.sink.iter().any(|e| matches!(e.event.kind, EventKind::Finished { .. })));
}

/// How many requests to the store a first deploy makes where everything works:
/// two to reserve, one to load, three for each stage, and three to end.
const STORE_REQUESTS: usize = 24;

#[test]
fn a_store_failure_anywhere_ends_the_deploy_with_that_failure() {
    for failing in 0..STORE_REQUESTS {
        let mut ctx = Ctx::new(Store::new(), clean());
        for i in 0..STORE_REQUESTS {
            ctx.faults.push(if i == failing { Some(Failure::new("disk full")) } else { None });
        }
        let result = run(&mut ctx, web(), repo());
        let failure = match result {
            Some(Err(error)) => error.into_failure(),
            other => panic!("request {failing}: {other:?}"),
        };
        assert_eq!(failure.one_line(), "disk full");
        // What was published is what was stored.
        assert_eq!(ctx.sink, ctx.store.events_for(1));
        let locked = ctx.store.is_locked("web");
        assert!(!locked, "request {failing}");
        if failing < 3 {
            // Not reserved, or given up before the first stage.
            assert!(ctx.sink.is_empty());
        }
        let finished = failing == STORE_REQUESTS - 1;
        if let Some(row) = ctx.store.deploy(1) {
            assert_eq!(row.status == DeployStatus::Done, finished);
            assert_eq!(row.status == DeployStatus::InProgress, !finished);
        }
    }
}

#[test]
fn the_clean_run_makes_no_other_store_requests() {
    let mut ctx = Ctx::new(Store::new(), clean());
    for _ in 0..STORE_REQUESTS {
        ctx.faults.push(None);
    }
    ctx.faults.push(Some(Failure::new("one too many")));
    assert!(matches!(run(&mut ctx, web(), repo()), Some(Ok(DeployOutcome::Done { .. }))));
    assert_eq!(ctx.faults.len(), 1);
}

#[test]
fn a_crash_anywhere_is_recovered_from() {
    let cases = [
        (0, Stage::Detect, 0),
        (1, Stage::Build, 0),
        (2, Stage::Secrets, 0),
        (3, Stage::Apply, 1),
        (4, Stage::Healthcheck, 2),
        (5, Stage::Healthcheck, 2),
    ];
    for (cut, stage, undoing) in cases {
        let mut replies = clean();
        replies.truncate(cut);
        let mut ctx = Ctx::new(Store::new(), replies);
        assert_eq!(run(&mut ctx, web(), repo()), None);
        let row = ctx.store.deploy(1).expect("row");
        assert_eq!(row.status, DeployStatus::InProgress);
        assert_eq!(row.stage, stage);
        assert!(ctx.store.is_locked("web"));

        for _ in 0..undoing {
            ctx.replies.push(ok());
        }
        let recovery = reconcile(&mut ctx).expect("a result").expect("recovered");
        assert_eq!(
            recovery.outcomes,
            vec![DeployOutcome::RolledBack {
                failed_at: stage,
                cause: format!("reconciled after restart (was in progress at {stage:?})"),
            }]
        );
        assert!(ctx.replies.is_empty());
        assert!(ctx.store.in_progress_deploys().is_empty());
        assert!(!ctx.store.is_locked("web"));
        assert_eq!(ctx.sink, ctx.store.events_for(1));
        let last = ctx.sink.last().expect("an end");
        assert_eq!(last.event.kind, EventKind::Finished { status: DeployStatus::RolledBack });

        let before = ctx.store.events_for(1);
        let again = reconcile(&mut ctx).expect("a result").expect("recovered");
        assert!(again.outcomes.is_empty());
        assert!(again.notices.is_empty());
        assert_eq!(ctx.store.events_for(1), before);
    }
}

#[test]
fn a_recovery_can_be_cut_short_and_run_again() {
    let mut ctx: Ctx<String> = Ctx::new(Store::new(), Vec::new());
    for app in ["web", "api"] {
        let id = reserve(&mut ctx, app).expect("reserved");
        ctx.store.advance_stage(id, Stage::Apply).expect("advanced");
    }
    // The first unit is removed, then the process dies.
    ctx.replies.push(ok());
    assert_eq!(reconcile(&mut ctx), None);
    assert_eq!(ctx.store.deploy(1).expect("row").status, DeployStatus::RolledBack);
    assert_eq!(ctx.store.deploy(2).expect("row").status, DeployStatus::InProgress);
    assert!(!ctx.store.is_locked("web"));
    assert!(ctx.store.is_locked("api"));

    ctx.replies.push(ok());
    let recovery = reconcile(&mut ctx).expect("a result").expect("recovered");
    assert_eq!(recovery.outcomes.len(), 1);
    assert!(!ctx.store.is_locked("api"));
}

#[test]
fn a_store_failure_stops_a_recovery() {
    // Listing, loading, finishing, releasing and sweeping.
    for failing in 0..5 {
        let mut ctx: Ctx<String> = Ctx::new(Store::new(), Vec::new());
        reserve(&mut ctx, "web").expect("reserved");
        for i in 0..5 {
            ctx.faults.push(if i == failing { Some(Failure::new("disk full")) } else { None });
        }
        assert_eq!(reconcile(&mut ctx), Some(Err(Failure::new("disk full"))));
        let row = ctx.store.deploy(1).expect("row");
        assert_eq!(row.status == DeployStatus::InProgress, failing < 3);
        assert_eq!(ctx.store.is_locked("web"), failing < 3);
    }
}

#[test]
fn a_recovery_that_stops_asks_nothing_for_the_later_deploys() {
    let mut ctx: Ctx<String> = Ctx::new(Store::new(), Vec::new());
    for app in ["web", "api", "worker"] {
        let id = reserve(&mut ctx, app).expect("reserved");
        ctx.store.advance_stage(id, Stage::Apply).expect("advanced");
    }
    ctx.replies = vec![ok(), ok(), ok()];
    // Listing; loading, finishing and releasing the first; loading the second.
    ctx.faults = vec![None, None, None, None, None, Some(Failure::new("disk full"))];
    assert_eq!(reconcile(&mut ctx), Some(Err(Failure::new("disk full"))));
    // The second was undone but not ended; nothing was asked for the third.
    assert_eq!(ctx.replies.len(), 1);
    assert_eq!(ctx.store.deploy(1).expect("row").status, DeployStatus::RolledBack);
    let left: Vec<i64> = ctx.store.in_progress_deploys().iter().map(|row| row.id).collect();
    assert_eq!(left, [2, 3]);
    assert!(!ctx.store.is_locked("web"));
    assert!(ctx.store.is_locked("api"));
    assert!(ctx.store.is_locked("worker"));
}

#[test]
fn what_is_published_is_all_that_is_stored_of_a_deploy() {
    let mut replies = clean();
    replies.extend(clean());
    let mut ctx = Ctx::new(Store::new(), replies);
    assert!(matches!(run(&mut ctx, WorkloadSpec::new("api", "x"), repo()), Some(Ok(_))));
    let earlier = ctx.sink.len();
    assert!(matches!(run(&mut ctx, web(), repo()), Some(Ok(_))));
    let stored = ctx.store.events_for(2);
    assert_eq!(stored.len(), 13);
    assert_eq!(ctx.sink[earlier..], stored[..]);
    assert!(stored.windows(2).all(|w| 0 < w[0].id && w[0].id < w[1].id));
}

#[test]
fn a_deploy_leaves_other_apps_alone() {
    let mut store = Store::new();
    let other = store.create_deploy("api").expect("row");
    assert!(store.acquire_lock("api", other));
    store.put_spec("api", "api", "{\"name\":\"api\"}");
    let before = store.deploy(other);
    let mut ctx = Ctx::new(store, clean());
    assert!(matches!(run(&mut ctx, web(), repo()), Some(Ok(_))));
    assert_eq!(ctx.store.deploy(other), before);
    assert!(ctx.store.is_locked("api"));
    assert_eq!(ctx.store.current_spec("api").as_deref(), Some("{\"name\":\"api\"}"));
}
