use std::collections::BTreeMap;

use kuadrat_deploy::deployment::{Deployment, RunError};
use kuadrat_deploy::model::{
    DeployOutcome, DeployStatus, EventKind, EventStatus, Stage, StoredEvent,
};
use kuadrat_deploy::protocol::{
    CodecCall, CodecReply, HostCall, HostReply, Reply, Request, StoreReply,
};
use kuadrat_deploy::reconciliation::{Reconciliation, Recovery};
use kuadrat_deploy::spec::{slug, Route, WorkloadSpec};
use kuadrat_deploy::store::Store;
use kuadrat_deploy::text::Failure;

/// A host that keeps its units and routes in maps, with one knob for each thing
/// that can go wrong on it.
struct Host {
    units: BTreeMap<String, String>,
    routes: BTreeMap<String, String>,
    calls: Vec<String>,
    start: Result<(), &'static str>,
    stop: Result<(), &'static str>,
    detect: Result<(), &'static str>,
    build: Result<(), &'static str>,
    secrets: Result<(), &'static str>,
    route: Result<(), &'static str>,
    health: Result<(), &'static str>,
    hangs: bool,
}

fn done(result: Result<(), &'static str>) -> HostReply<String> {
    match result {
        Ok(()) => HostReply::Done,
        Err(why) => HostReply::Failed(Failure::new(why)),
    }
}

impl Host {
    fn new() -> Host {
        Host {
            units: BTreeMap::new(),
            routes: BTreeMap::new(),
            calls: Vec::new(),
            start: Ok(()),
            stop: Ok(()),
            detect: Ok(()),
            build: Ok(()),
            secrets: Ok(()),
            route: Ok(()),
            health: Ok(()),
            hangs: false,
        }
    }

    fn perform(&mut self, call: &HostCall<'_, String>) -> HostReply<String> {
        match call {
            HostCall::Detect { repo } => {
                self.calls.push(format!("detect {}", String::from_utf8_lossy(repo)));
                match self.detect {
                    Ok(()) => HostReply::Plan("abc123".to_string()),
                    Err(why) => HostReply::Failed(Failure::new(why)),
                }
            }
            HostCall::Build { plan, slug } => {
                self.calls.push(format!("build {slug} {plan}"));
                match self.build {
                    Ok(()) => HostReply::Image(format!("localhost/kuadrat-{slug}:{plan}")),
                    Err(why) => HostReply::Failed(Failure::new(why)),
                }
            }
            HostCall::EnsureSecrets { names } => {
                self.calls.push(format!("secrets {}", names.join(",")));
                done(self.secrets)
            }
            HostCall::Apply { spec } => {
                self.calls.push(format!("apply {} {}", spec.name, spec.image));
                self.units.insert(slug(&spec.name), spec.image.clone());
                done(self.start)
            }
            HostCall::Remove { name } => {
                self.calls.push(format!("remove {name}"));
                if self.stop.is_ok() {
                    self.units.remove(&slug(name));
                }
                done(self.stop)
            }
            HostCall::ApplyRoute { slug, route } => {
                self.calls.push(format!("route {slug} {}:{}", route.domain, route.port));
                self.routes.insert(slug.to_string(), format!("{}:{}", route.domain, route.port));
                done(self.route)
            }
            HostCall::RemoveRoute { slug } => {
                self.calls.push(format!("unroute {slug}"));
                self.routes.remove(*slug);
                HostReply::Done
            }
            HostCall::Healthcheck { spec, cap } => {
                self.calls.push(format!("health {} {cap}", spec.name));
                if self.hangs {
                    HostReply::TimedOut
                } else {
                    done(self.health)
                }
            }
        }
    }
}

fn encode(spec: &WorkloadSpec) -> String {
    match &spec.route {
        Some(route) => format!("{}|{}|{}:{}", spec.name, spec.image, route.domain, route.port),
        None => format!("{}|{}|", spec.name, spec.image),
    }
}

fn decode(json: &str) -> CodecReply {
    let parts: Vec<&str> = json.split('|').collect();
    if parts.len() != 3 {
        return CodecReply::Failed(Failure::new("expected value at line 1 column 1"));
    }
    let mut spec = WorkloadSpec::new(parts[0], parts[1]);
    if let Some((domain, port)) = parts[2].split_once(':') {
        spec.health_cmd = Some("true".to_string());
        spec.route = Some(Route { domain: domain.to_string(), port: port.parse().unwrap() });
    }
    CodecReply::Spec(spec)
}

fn codec(call: &CodecCall<'_>) -> CodecReply {
    match call {
        CodecCall::Decode { json } => decode(json),
        CodecCall::Encode { spec } => CodecReply::Json(encode(spec)),
    }
}

/// Performs a request for real, and checks that it got a reply that fits.
fn perform(host: &mut Host, store: &mut Store, request: Request<'_, String>) -> Reply<String> {
    match request {
        Request::Store(call) => Reply::Store(store.answer(call)),
        Request::Codec(call) => {
            let reply = codec(&call);
            assert!(call.admits(&reply));
            Reply::Codec(reply)
        }
        Request::Host(call) => {
            let reply = host.perform(&call);
            assert!(call.admits(&reply));
            Reply::Host(reply)
        }
    }
}

struct Harness {
    host: Host,
    store: Store,
    sink: Vec<StoredEvent>,
}

impl Harness {
    fn new() -> Harness {
        Harness { host: Host::new(), store: Store::new(), sink: Vec::new() }
    }

    /// Publishes an event, and checks that it was durable before.
    fn publish(&mut self, event: Option<StoredEvent>) {
        if let Some(event) = event {
            let durable = self.store.events_for(event.event.deploy_id);
            assert!(
                durable.iter().any(|e| e.id == event.id),
                "event {} was published before it was durable",
                event.id
            );
            self.sink.push(event);
        }
    }

    fn drive(&mut self, deployment: Deployment<String>) -> Result<DeployOutcome, RunError> {
        let mut deployment = deployment;
        loop {
            let reply = match deployment.request() {
                Some(request) => perform(&mut self.host, &mut self.store, request),
                None => break,
            };
            let (next, event) = deployment.resume(reply);
            self.publish(event);
            deployment = next;
        }
        deployment.into_result().expect("ended")
    }

    fn run(&mut self, spec: WorkloadSpec) -> Result<DeployOutcome, RunError> {
        let deployment = Deployment::unreserved(spec, b"/repo".to_vec())?;
        self.drive(deployment)
    }

    fn reconcile(&mut self) -> Result<Recovery, Failure> {
        let mut reconciliation = Reconciliation::new();
        loop {
            let reply = match reconciliation.request() {
                Some(request) => perform(&mut self.host, &mut self.store, request),
                None => break,
            };
            let (next, event) = reconciliation.resume(reply);
            self.publish(event);
            reconciliation = next;
        }
        reconciliation.into_result().expect("ended")
    }

    /// The stage events that were published.
    fn timeline(&self) -> Vec<(Stage, EventStatus)> {
        self.sink
            .iter()
            .filter_map(|e| match e.event.kind {
                EventKind::Stage { stage, status } => Some((stage, status)),
                EventKind::Finished { .. } => None,
            })
            .collect()
    }

    /// The status of the terminal event that was published, if one was.
    fn terminal(&self) -> Option<DeployStatus> {
        self.sink.iter().find_map(|e| match e.event.kind {
            EventKind::Finished { status } => Some(status),
            EventKind::Stage { .. } => None,
        })
    }

    fn emitted_deploy_id(&self) -> i64 {
        self.sink.first().expect("at least one event").event.deploy_id
    }
}

/// Every stage succeeds; the deploy reaches Done.
fn harness_ok() -> Harness {
    Harness::new()
}

/// The unit does not start, so Apply fails and compensation removes it.
fn harness_apply_fails() -> Harness {
    let mut h = Harness::new();
    h.host.start = Err("boom");
    h
}

fn web() -> WorkloadSpec {
    WorkloadSpec::new("web", "placeholder")
}

fn routed(domain: &str, port: u16) -> WorkloadSpec {
    let mut spec = web();
    spec.health_cmd = Some("true".to_string());
    spec.route = Some(Route { domain: domain.to_string(), port });
    spec
}

#[test]
fn a_clean_deploy_runs_every_stage_and_returns_done() {
    let mut h = harness_ok();
    let outcome = h.run(web()).expect("deploy");

    assert_eq!(outcome, DeployOutcome::Done { image: "localhost/kuadrat-web:abc123".into() });
    // The lock was released: a fresh acquire succeeds.
    assert!(h.store.acquire_lock("web", 999));
    // The spec was stored.
    assert!(h.store.current_spec("web").is_some());
}

#[test]
fn a_first_deploy_failing_at_apply_rolls_back_by_removing_the_unit() {
    let mut h = harness_apply_fails();
    let outcome = h.run(web()).expect("terminal outcome");

    match outcome {
        DeployOutcome::RolledBack { failed_at, .. } => assert_eq!(failed_at, Stage::Apply),
        other => panic!("expected RolledBack at Apply, got {other:?}"),
    }
    // The half-written unit was removed by compensation.
    assert!(h.host.units.get("web").is_none(), "the unit should have been removed");
    assert!(h.store.acquire_lock("web", 999), "lock released");
}

#[test]
fn a_failure_at_healthcheck_unwinds_route_then_apply() {
    let mut h = harness_ok();
    h.host.health = Err("unit is failed");
    let outcome = h.run(web()).expect("terminal outcome");

    match outcome {
        DeployOutcome::RolledBack { failed_at, .. } => assert_eq!(failed_at, Stage::Healthcheck),
        other => panic!("expected RolledBack at Healthcheck, got {other:?}"),
    }
    let calls = &h.host.calls;
    assert_eq!(&calls[calls.len() - 2..], ["unroute web", "remove web"]);
}

#[test]
fn a_healthcheck_that_never_resolves_is_cut_by_the_stage_cap_and_rolls_back() {
    let mut h = harness_ok();
    h.host.hangs = true;
    let mut spec = web();
    spec.health_cmd = Some("true".into());
    let outcome = h.run(spec).expect("terminal outcome");

    match outcome {
        DeployOutcome::RolledBack { failed_at, cause } => {
            assert_eq!(failed_at, Stage::Healthcheck);
            assert_eq!(cause, "healthcheck stage exceeded its 90s hard cap");
        }
        other => panic!("expected RolledBack at Healthcheck, got {other:?}"),
    }
    assert!(h.host.calls.contains(&"health web 90".to_string()));
    assert!(h.store.acquire_lock("web", 999), "lock released");
}

#[test]
fn a_failed_rollback_reports_failed_not_rolled_back() {
    let mut h = harness_apply_fails();
    h.host.stop = Err("stop refused");
    let outcome = h.run(web()).expect("terminal outcome");

    match outcome {
        DeployOutcome::Failed { failed_at, cause } => {
            assert_eq!(failed_at, Stage::Apply);
            assert!(cause.contains("compensation also failed"), "cause: {cause}");
            assert_eq!(cause, "boom; compensation also failed: stop refused");
        }
        other => {
            panic!("expected Failed (not RolledBack) when compensation fails, got {other:?}")
        }
    }
    // Even here the lock is released.
    assert!(h.store.acquire_lock("web", 999));
}

#[test]
fn reconcile_is_a_noop_when_nothing_is_in_progress() {
    let mut h = harness_ok();
    let recovery = h.reconcile().unwrap();
    assert!(recovery.outcomes.is_empty());
    assert!(recovery.notices.is_empty());
    assert!(h.host.calls.is_empty());
    assert!(h.sink.is_empty());
}

#[test]
fn reconcile_rolls_back_a_crash_at_detect_with_no_host_changes() {
    let mut h = harness_ok();
    // A crash left an in_progress deploy stuck at Detect, lock held.
    let id = h.store.create_deploy("web").unwrap();
    h.store.advance_stage(id, Stage::Detect).unwrap();
    h.store.acquire_lock("web", id);

    let outcomes = h.reconcile().unwrap().outcomes;

    assert_eq!(outcomes.len(), 1);
    assert!(matches!(outcomes[0], DeployOutcome::RolledBack { failed_at: Stage::Detect, .. }));
    // Detect touched nothing, so no host calls.
    assert!(h.host.calls.is_empty());
    assert!(h.store.in_progress_deploys().is_empty(), "row finished");
    assert!(h.store.acquire_lock("web", 999), "lock released");
}

#[test]
fn reconcile_records_a_terminal_event_for_what_it_rolled_back() {
    let mut h = harness_ok();
    let id = h.store.create_deploy("web").unwrap();
    h.store.advance_stage(id, Stage::Detect).unwrap();
    h.store.acquire_lock("web", id);
    h.reconcile().unwrap();

    let stored = h.store.events_for(id);
    let last = stored.last().expect("a terminal event");
    assert_eq!(last.event.kind, EventKind::Finished { status: DeployStatus::RolledBack });
    assert!(
        last.event.detail.is_some(),
        "the cause reconcile wrote to the row belongs on the event too"
    );
    assert_eq!(
        last.event.detail.as_deref(),
        Some("reconciled after restart (was in progress at Detect)")
    );
    assert_eq!(h.store.deploy(id).unwrap().detail, last.event.detail);
}

#[test]
fn reconcile_restores_the_previous_spec_after_a_crash_at_apply() {
    let mut h = harness_ok();
    // A prior successful deploy stored a spec.
    let prev = WorkloadSpec::new("web", "old:1");
    h.store.put_spec("web", "web", &encode(&prev));
    // The next deploy crashed at Apply.
    let id = h.store.create_deploy("web").unwrap();
    h.store.advance_stage(id, Stage::Apply).unwrap();
    h.store.acquire_lock("web", id);

    let outcomes = h.reconcile().unwrap().outcomes;

    assert!(matches!(outcomes[0], DeployOutcome::RolledBack { failed_at: Stage::Apply, .. }));
    // The previous spec is applied again, and nothing else is asked.
    assert_eq!(h.host.calls, ["apply web old:1"]);
    assert!(h.store.in_progress_deploys().is_empty());
    assert!(h.store.acquire_lock("web", 999));
}

#[test]
fn reconcile_removes_a_partial_unit_from_a_crashed_first_deploy() {
    let mut h = harness_ok();
    // The crashed first deploy wrote a unit before dying at Apply.
    h.host.units.insert("web".to_string(), "x".to_string());
    let id = h.store.create_deploy("web").unwrap();
    h.store.advance_stage(id, Stage::Apply).unwrap();
    h.store.acquire_lock("web", id);

    let outcomes = h.reconcile().unwrap().outcomes;

    assert!(matches!(outcomes[0], DeployOutcome::RolledBack { .. }));
    assert!(h.host.units.get("web").is_none(), "partial unit removed");
    assert!(h.store.acquire_lock("web", 999));
}

#[test]
fn a_concurrent_deploy_is_rejected_while_the_lock_is_held() {
    let mut h = harness_ok();
    // Another deploy already holds the lock.
    let other = h.store.create_deploy("web").unwrap();
    h.store.acquire_lock("web", other);

    let err = h.run(web()).unwrap_err();
    let message = err.into_failure().one_line();
    assert!(message.contains("already in progress"), "message: {message}");
    assert_eq!(message, "another deploy of web is already in progress");
    // No stage runs.
    assert!(h.host.calls.is_empty());
}

#[test]
fn a_successful_deploy_emits_every_stage_in_order() {
    let mut h = harness_ok();
    let outcome = h.run(web()).expect("run");
    assert!(matches!(outcome, DeployOutcome::Done { .. }), "{outcome:?}");

    let started = EventStatus::Started;
    let succeeded = EventStatus::Succeeded;
    assert_eq!(
        h.timeline(),
        vec![
            (Stage::Detect, started),
            (Stage::Detect, succeeded),
            (Stage::Build, started),
            (Stage::Build, succeeded),
            (Stage::Secrets, started),
            (Stage::Secrets, succeeded),
            (Stage::Apply, started),
            (Stage::Apply, succeeded),
            (Stage::Route, started),
            (Stage::Route, succeeded),
            (Stage::Healthcheck, started),
            (Stage::Healthcheck, succeeded),
        ]
    );
}

#[test]
fn emitted_events_carry_ascending_store_ids() {
    let mut h = harness_ok();
    h.run(web()).expect("run");

    let ids: Vec<i64> = h.sink.iter().map(|e| e.id).collect();
    assert!(!ids.is_empty(), "no events emitted");
    assert!(ids.iter().all(|&i| i > 0), "ids must be real rowids: {ids:?}");
    assert!(ids.windows(2).all(|w| w[1] > w[0]), "ids must ascend: {ids:?}");
}

#[test]
fn a_failed_stage_emits_a_failed_event_naming_that_stage() {
    let mut h = harness_apply_fails();
    let outcome = h.run(web()).expect("terminal outcome");
    assert!(matches!(outcome, DeployOutcome::RolledBack { .. }), "{outcome:?}");

    let events = &h.sink;
    let last = events.get(events.len() - 2).cloned().expect("at least two events");
    assert_eq!(
        last.event.kind,
        EventKind::Stage { stage: Stage::Apply, status: EventStatus::Failed }
    );
    assert!(last.event.detail.is_some(), "a Failed event must carry its cause");
}

#[test]
fn every_emitted_event_is_also_durable_with_the_same_id() {
    let mut h = harness_ok();
    h.run(web()).expect("run");

    let emitted: Vec<i64> = h.sink.iter().map(|e| e.id).collect();
    let deploy_id = h.emitted_deploy_id();
    let stored: Vec<i64> = h.store.events_for(deploy_id).iter().map(|e| e.id).collect();
    assert_eq!(emitted, stored);
}

/// `Harness::publish` checks, before the next request is performed, that the
/// store already has the event.
#[test]
fn every_event_is_durable_at_the_moment_it_is_emitted() {
    let mut h = harness_ok();
    let outcome = h.run(web()).expect("run");
    assert!(matches!(outcome, DeployOutcome::Done { .. }), "{outcome:?}");
    assert_eq!(h.sink.len(), 13);
}

#[test]
fn a_successful_deploy_emits_a_terminal_done_event_last() {
    let mut h = harness_ok();
    h.run(web()).expect("deploy");

    assert_eq!(h.terminal(), Some(DeployStatus::Done));
    let last = h.sink.last().cloned().expect("events");
    assert_eq!(
        last.event.kind,
        EventKind::Finished { status: DeployStatus::Done },
        "the terminal event must be the last thing a watcher sees"
    );
}

#[test]
fn a_rolled_back_deploy_says_so_after_the_failed_stage_event() {
    let mut h = harness_apply_fails();
    h.run(web()).expect("deploy");

    let kinds: Vec<EventKind> = h.sink.iter().map(|e| e.event.kind).collect();
    let last_two = &kinds[kinds.len() - 2..];
    assert_eq!(
        last_two,
        [
            EventKind::Stage { stage: Stage::Apply, status: EventStatus::Failed },
            EventKind::Finished { status: DeployStatus::RolledBack },
        ]
    );
}

#[test]
fn the_terminal_event_is_stored_with_the_failure_cause() {
    let mut h = harness_apply_fails();
    h.run(web()).expect("deploy");

    let deploy_id = h.emitted_deploy_id();
    let stored = h.store.events_for(deploy_id);
    let last = stored.last().expect("at least one event");
    assert_eq!(last.event.kind, EventKind::Finished { status: DeployStatus::RolledBack });
    assert!(last.event.detail.is_some(), "the terminal event must carry the cause");
    assert_eq!(last.event.detail.as_deref(), Some("boom"));
}

#[test]
fn a_routed_deploy_asks_the_host_for_every_stage_in_order() {
    let mut h = harness_ok();
    let mut spec = routed("example.com", 3000);
    spec.secrets = vec!["api-token".to_string()];
    h.run(spec).expect("deploy");
    assert_eq!(
        h.host.calls,
        [
            "detect /repo",
            "build web abc123",
            "secrets api-token",
            "apply web localhost/kuadrat-web:abc123",
            "route web example.com:3000",
            "health web 90",
        ]
    );
    assert_eq!(
        h.store.current_spec("web").as_deref(),
        Some("web|localhost/kuadrat-web:abc123|example.com:3000")
    );
}

#[test]
fn a_failure_before_apply_leaves_the_host_alone() {
    for stage in [Stage::Detect, Stage::Build, Stage::Secrets] {
        let mut h = harness_ok();
        match stage {
            Stage::Detect => h.host.detect = Err("no Containerfile"),
            Stage::Build => h.host.build = Err("build broke"),
            _ => h.host.secrets = Err("missing secret: api-token"),
        }
        let outcome = h.run(web()).expect("terminal outcome");
        assert!(matches!(outcome, DeployOutcome::RolledBack { failed_at, .. } if failed_at == stage));
        assert!(h.host.units.is_empty());
        assert!(!h.host.calls.iter().any(|c| c.starts_with("apply") || c.starts_with("remove")));
        assert_eq!(h.store.deploy(1).unwrap().stage, stage);
        assert!(!h.store.is_locked("web"));
    }
}

#[test]
fn a_failed_redeploy_goes_back_to_what_ran_before() {
    let mut h = harness_ok();
    h.run(routed("old.example.com", 3000)).expect("first deploy");
    h.host.calls.clear();
    h.host.health = Err("unhealthy");
    let outcome = h.run(routed("new.example.com", 4000)).expect("second deploy");
    assert_eq!(
        outcome,
        DeployOutcome::RolledBack { failed_at: Stage::Healthcheck, cause: "unhealthy".into() }
    );
    let calls = &h.host.calls;
    assert_eq!(
        &calls[calls.len() - 2..],
        ["route web old.example.com:3000", "apply web localhost/kuadrat-web:abc123"]
    );
    assert_eq!(h.host.routes.get("web").map(String::as_str), Some("old.example.com:3000"));
    assert_eq!(
        h.store.current_spec("web").as_deref(),
        Some("web|localhost/kuadrat-web:abc123|old.example.com:3000")
    );
}

#[test]
fn a_failure_at_route_unwinds_the_route_before_the_unit() {
    let mut h = harness_ok();
    h.host.route = Err("caddy refused");
    let outcome = h.run(routed("example.com", 3000)).expect("terminal outcome");
    assert!(matches!(outcome, DeployOutcome::RolledBack { failed_at: Stage::Route, .. }));
    let calls = &h.host.calls;
    assert_eq!(
        &calls[calls.len() - 3..],
        ["route web example.com:3000", "unroute web", "remove web"]
    );
}

#[test]
fn a_spec_that_cannot_be_read_keeps_the_deploy_from_beginning() {
    let mut h = harness_ok();
    h.store.put_spec("web", "web", "not json");
    let err = h.run(web()).unwrap_err();
    assert_eq!(
        err.into_failure().one_line(),
        "parsing the previously stored spec: expected value at line 1 column 1"
    );
    // Nothing ran, the lock is given back, and the row is left for a recovery.
    assert!(h.host.calls.is_empty());
    assert!(h.sink.is_empty());
    assert!(!h.store.is_locked("web"));
    assert_eq!(h.store.in_progress_deploys().len(), 1);
}

#[test]
fn one_unreadable_spec_stops_the_whole_recovery() {
    let mut h = harness_ok();
    let first = h.store.create_deploy("web").unwrap();
    h.store.acquire_lock("web", first);
    h.store.put_spec("api", "api", "not json");
    let second = h.store.create_deploy("api").unwrap();
    h.store.acquire_lock("api", second);
    let third = h.store.create_deploy("worker").unwrap();
    h.store.acquire_lock("worker", third);

    let err = h.reconcile().unwrap_err();
    assert_eq!(
        err.one_line(),
        "parsing the previously stored spec: expected value at line 1 column 1"
    );
    assert_eq!(h.store.deploy(first).unwrap().status, DeployStatus::RolledBack);
    assert!(!h.store.is_locked("web"));
    // Nothing was at a stage that touches the host, so nothing was asked of it.
    assert!(h.host.calls.is_empty());
    let left: Vec<i64> = h.store.in_progress_deploys().iter().map(|row| row.id).collect();
    assert_eq!(left, [second, third]);
    assert!(h.store.is_locked("api"));
    assert!(h.store.is_locked("worker"));
}

#[test]
fn a_recovery_that_cannot_undo_a_deploy_reports_it_failed_and_goes_on() {
    let mut h = harness_ok();
    h.host.stop = Err("stop refused");
    let first = h.store.create_deploy("web").unwrap();
    h.store.advance_stage(first, Stage::Apply).unwrap();
    h.store.acquire_lock("web", first);
    let second = h.store.create_deploy("api").unwrap();
    h.store.acquire_lock("api", second);

    let recovery = h.reconcile().unwrap();
    assert_eq!(
        recovery.outcomes,
        [
            DeployOutcome::Failed {
                failed_at: Stage::Apply,
                cause: "reconcile compensation failed: stop refused".into()
            },
            DeployOutcome::RolledBack {
                failed_at: Stage::Detect,
                cause: "reconciled after restart (was in progress at Detect)".into()
            },
        ]
    );
    assert_eq!(h.store.deploy(first).unwrap().status, DeployStatus::Failed);
    assert!(!h.store.is_locked("web"));
    assert!(!h.store.is_locked("api"));
}

#[test]
fn a_recovery_frees_locks_that_nobody_uses() {
    let mut h = harness_ok();
    let id = h.store.create_deploy("h7servedemo").unwrap();
    h.store.acquire_lock("h7servedemo", id);
    h.store.finish_deploy(id, DeployStatus::Done, None).unwrap();
    let recovery = h.reconcile().unwrap();
    assert!(recovery.outcomes.is_empty());
    assert_eq!(recovery.notices, ["released orphaned lock: h7servedemo"]);
    assert!(!h.store.is_locked("h7servedemo"));
    assert_eq!(h.reconcile().unwrap().notices.len(), 0);
}

#[test]
fn a_store_reply_that_does_not_fit_is_told_apart() {
    let deployment: Deployment<String> = Deployment::reserved(web(), Vec::new(), 1);
    let request = deployment.request().expect("a request");
    assert!(request.admits(&Reply::Store(StoreReply::Spec(None))));
    assert!(request.admits(&Reply::Store(StoreReply::Failed(Failure::new("disk full")))));
    assert!(!request.admits(&Reply::Store(StoreReply::Done)));
    assert!(!request.admits(&Reply::Host(HostReply::Done)));
}
