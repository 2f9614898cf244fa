use kuadrat_deploy::cli::{
    after_handoff, handoff, names_an_app, parse_route, resolve_spec, succeeded, Handoff, Next, RouteError,
};
use kuadrat_deploy::model::{DeployOutcome, Stage};
use kuadrat_deploy::spec::{Route, WorkloadSpec};

fn route(domain: &str, port: u16) -> Route {
    Route { domain: domain.to_string(), port }
}

#[test]
fn the_spec_in_the_repository_comes_first() {
    let in_repo = WorkloadSpec::new("old-name", "repo");
    let stored = WorkloadSpec::new("web", "stored");
    let spec = resolve_spec("web", Some(in_repo), Some(stored), None).expect("a spec");
    assert_eq!(spec.image, "repo");
    assert_eq!(spec.name, "web");
}

#[test]
fn the_stored_spec_comes_second_and_then_there_is_none() {
    let stored = WorkloadSpec::new("web", "stored");
    assert_eq!(resolve_spec("web", None, Some(stored), None).expect("a spec").image, "stored");
    assert_eq!(resolve_spec("web", None, None, Some(route("example.com", 1))), None);
}

#[test]
fn a_route_that_was_asked_for_wins() {
    let mut in_repo = WorkloadSpec::new("web", "repo");
    in_repo.route = Some(route("old.example.com", 1));
    let spec = resolve_spec("web", Some(in_repo), None, Some(route("example.com", 3000)));
    assert_eq!(spec.expect("a spec").route, Some(route("example.com", 3000)));

    let mut in_repo = WorkloadSpec::new("web", "repo");
    in_repo.route = Some(route("old.example.com", 1));
    let spec = resolve_spec("web", Some(in_repo), None, None);
    assert_eq!(spec.expect("a spec").route, Some(route("old.example.com", 1)));
}

#[test]
fn a_route_is_a_domain_and_a_port() {
    assert_eq!(parse_route("example.com:3000"), Ok(route("example.com", 3000)));
    assert_eq!(parse_route("a:65535"), Ok(route("a", 65535)));
    assert_eq!(parse_route("a:0080"), Ok(route("a", 80)));
}

#[test]
fn what_would_serve_nothing_is_no_route() {
    assert_eq!(parse_route("example.com"), Err(RouteError::NoPort));
    assert_eq!(parse_route(""), Err(RouteError::NoPort));
    assert_eq!(parse_route(":3000"), Err(RouteError::NoDomain));
    assert_eq!(parse_route("https://example.com:3000"), Err(RouteError::Scheme));
    assert_eq!(parse_route("example.com:0"), Err(RouteError::BadPort));
    assert_eq!(parse_route("example.com:65536"), Err(RouteError::BadPort));
    assert_eq!(parse_route("example.com:99999999999999999999"), Err(RouteError::BadPort));
    assert_eq!(parse_route("example.com:"), Err(RouteError::BadPort));
    assert_eq!(parse_route("example.com:80x"), Err(RouteError::BadPort));
    assert_eq!(parse_route("example.com:-1"), Err(RouteError::BadPort));
}

#[test]
fn every_route_error_says_why() {
    assert_eq!(RouteError::NoPort.message(), "a route is domain:port");
    assert_eq!(RouteError::NoDomain.message(), "a route needs a domain before the port");
    assert_eq!(RouteError::Scheme.message(), "a route takes a bare domain, without a scheme");
    assert_eq!(RouteError::BadPort.message(), "a route needs a port from 1 to 65535");
}

#[test]
fn an_accepted_deploy_is_left_to_the_daemon() {
    let (next, lines) =
        after_handoff(Some(Handoff::Accepted { deploy_id: 17 }), "127.0.0.1:7457");
    assert_eq!(next, Next::Leave { success: true });
    assert_eq!(
        lines,
        ["queued as deploy 17 on the running daemon", "http://127.0.0.1:7457/deploy/17"]
    );
}

#[test]
fn a_refusal_is_an_answer() {
    let refused = Handoff::Refused {
        status: Some("409".to_string()),
        message: "another deploy of web is already in progress".to_string(),
    };
    let (next, lines) = after_handoff(Some(refused), "127.0.0.1:7457");
    assert_eq!(next, Next::Leave { success: false });
    assert_eq!(
        lines,
        ["daemon refused the deploy (409): another deploy of web is already in progress"]
    );
    let unknown = Handoff::Refused { status: None, message: "?".to_string() };
    let (next, lines) = after_handoff(Some(unknown), "127.0.0.1:7457");
    assert_eq!(next, Next::Leave { success: false });
    assert_eq!(lines, ["daemon refused the deploy (status unknown): ?"]);
}

#[test]
fn the_deploy_runs_here_where_no_daemon_answers_or_none_is_asked() {
    let (next, lines) = after_handoff(Some(Handoff::Unreachable), "127.0.0.1:7457");
    assert_eq!(next, Next::DeployHere);
    assert_eq!(lines, ["no daemon running; deploying locally"]);
    let (next, lines) = after_handoff(None, "127.0.0.1:7457");
    assert_eq!(next, Next::DeployHere);
    assert_eq!(
        lines,
        ["--root is set; deploying locally instead of handing off to a daemon"]
    );
}

#[test]
fn a_daemon_accepts_only_with_a_success_and_an_id() {
    let body = || "body".to_string();
    assert_eq!(handoff(None, Some(200), Some(1), body()), Handoff::Unreachable);
    assert_eq!(handoff(Some(7), Some(200), Some(1), body()), Handoff::Unreachable);
    assert_eq!(
        handoff(Some(28), None, None, body()),
        Handoff::Refused { status: None, message: body() }
    );
    assert_eq!(handoff(Some(0), Some(202), Some(7), body()), Handoff::Accepted { deploy_id: 7 });
    assert_eq!(
        handoff(Some(0), Some(409), Some(7), body()),
        Handoff::Refused { status: Some("409".to_string()), message: body() }
    );
    assert_eq!(
        handoff(Some(0), Some(200), None, body()),
        Handoff::Refused { status: Some("200".to_string()), message: body() }
    );
    assert_eq!(
        handoff(Some(0), None, None, body()),
        Handoff::Refused { status: None, message: body() }
    );
}

#[test]
fn a_name_without_a_slug_names_no_app() {
    assert!(names_an_app("My App"));
    assert!(!names_an_app("___"));
    assert!(!names_an_app(""));
}

#[test]
fn only_done_is_a_success() {
    assert!(succeeded(&DeployOutcome::Done { image: "x".to_string() }));
    let cause = "boom".to_string();
    assert!(!succeeded(&DeployOutcome::RolledBack { failed_at: Stage::Apply, cause }));
    let cause = "boom".to_string();
    assert!(!succeeded(&DeployOutcome::Failed { failed_at: Stage::Apply, cause }));
}
