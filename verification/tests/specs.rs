use kuadrat_deploy::model::Stage;
use kuadrat_deploy::spec::{slug, RestartPolicy, Route, SpecError, Task, WorkloadSpec};
use kuadrat_deploy::text::{decimal, Failure};
use kuadrat_deploy::unwind::{compensate, Unwind};

#[test]
fn different_names_can_share_a_slug() {
    assert_eq!(slug("My App"), "my-app");
    assert_eq!(slug("my_app"), "my-app");
    assert_eq!(slug("my-app"), "my-app");
}

#[test]
fn a_slug_holds_words_with_single_hyphens_between_them() {
    assert_eq!(slug("web"), "web");
    assert_eq!(slug("  Web -- 2! "), "web-2");
    assert_eq!(slug("h7servedemo"), "h7servedemo");
    assert_eq!(slug("Grüße"), "gr-e");
    assert_eq!(slug(""), "");
    assert_eq!(slug("___"), "");
}

#[test]
fn a_slug_is_its_own_slug() {
    for name in ["My App", "a--b", "-x-", "ÄÖÜ", "Z9"] {
        let once = slug(name);
        assert_eq!(slug(&once), once);
    }
}

#[test]
fn a_new_spec_asks_for_nothing_else() {
    let spec = WorkloadSpec::new("web", "placeholder");
    assert_eq!(spec.name, "web");
    assert_eq!(spec.image, "placeholder");
    assert_eq!(spec.command, None);
    assert!(spec.env.is_empty() && spec.ports.is_empty() && spec.volumes.is_empty());
    assert!(spec.secrets.is_empty() && spec.tasks.is_empty());
    assert_eq!(spec.memory_max, None);
    assert_eq!(spec.health_cmd, None);
    assert_eq!(spec.restart_policy, RestartPolicy::Always);
    assert_eq!(spec.route, None);
    assert_eq!(spec.validate(), Ok(()));
    assert_eq!(spec.slug(), "web");
}

#[test]
fn a_name_without_a_slug_is_refused() {
    assert_eq!(WorkloadSpec::new("!!!", "x").validate(), Err(SpecError::EmptySlug));
}

#[test]
fn a_route_needs_a_readiness_signal() {
    let mut spec = WorkloadSpec::new("web", "x");
    spec.route = Some(Route { domain: "example.com".to_string(), port: 3000 });
    assert_eq!(spec.validate(), Err(SpecError::RouteWithoutHealthCheck));
    spec.health_cmd = Some("curl -fsS http://localhost:3000/health".to_string());
    assert_eq!(spec.validate(), Ok(()));
}

#[test]
fn a_line_break_is_refused_in_every_field() {
    let break_of = |change: &dyn Fn(&mut WorkloadSpec)| {
        let mut spec = WorkloadSpec::new("web", "x");
        change(&mut spec);
        spec.validate()
    };
    let bad = "1\nUser=root".to_string();
    let refused = Err(SpecError::LineBreak);
    assert_eq!(break_of(&|s| s.name = "we\nb".to_string()), refused);
    assert_eq!(break_of(&|s| s.image = bad.clone()), refused);
    assert_eq!(break_of(&|s| s.command = Some(vec!["sh".to_string(), bad.clone()])), refused);
    assert_eq!(break_of(&|s| s.env = vec![("A".to_string(), bad.clone())]), refused);
    assert_eq!(break_of(&|s| s.env = vec![(bad.clone(), "b".to_string())]), refused);
    assert_eq!(break_of(&|s| s.ports = vec![bad.clone()]), refused);
    assert_eq!(break_of(&|s| s.volumes = vec![bad.clone()]), refused);
    assert_eq!(break_of(&|s| s.secrets = vec![bad.clone()]), refused);
    assert_eq!(break_of(&|s| s.memory_max = Some(bad.clone())), refused);
    assert_eq!(break_of(&|s| s.health_cmd = Some("true\r".to_string())), refused);
    let task = |name: &str, schedule: &str, argument: &str| Task {
        name: name.to_string(),
        schedule: schedule.to_string(),
        command: vec![argument.to_string()],
    };
    assert_eq!(break_of(&|s| s.tasks = vec![task("a\n", "daily", "x")]), refused);
    assert_eq!(break_of(&|s| s.tasks = vec![task("a", "daily\r", "x")]), refused);
    assert_eq!(break_of(&|s| s.tasks = vec![task("a", "daily", "\n")]), refused);
    assert_eq!(break_of(&|s| s.tasks = vec![task("a", "daily", "x")]), Ok(()));
    let routed = break_of(&|s| {
        s.health_cmd = Some("true".to_string());
        s.route = Some(Route { domain: "example.com\n".to_string(), port: 1 });
    });
    assert_eq!(routed, refused);
}

#[test]
fn every_refusal_says_why() {
    assert_eq!(SpecError::EmptySlug.message(), "the name has no letter and no digit");
    assert_eq!(SpecError::LineBreak.message(), "a field holds a line break");
    assert_eq!(SpecError::RouteWithoutHealthCheck.message(), "a route needs a health_cmd");
}

#[test]
fn undoing_starts_with_what_was_done_last() {
    assert_eq!(compensate(Stage::Detect), None);
    assert_eq!(compensate(Stage::Build), None);
    assert_eq!(compensate(Stage::Secrets), None);
    assert_eq!(compensate(Stage::Apply), Some(Unwind::Apply));
    assert_eq!(compensate(Stage::Route), Some(Unwind::Route));
    assert_eq!(compensate(Stage::Healthcheck), Some(Unwind::Route));
    assert_eq!(Unwind::Route.following(), Some(Unwind::Apply));
    assert_eq!(Unwind::Apply.following(), None);
}

#[test]
fn a_failure_reads_from_the_outside_in() {
    let failure = Failure::new("exit status 1").context("building").context("deploying web");
    assert_eq!(failure.chain, ["deploying web", "building", "exit status 1"]);
    assert_eq!(failure.one_line(), "deploying web: building: exit status 1");
    assert_eq!(Failure::new("alone").one_line(), "alone");
    assert_eq!(Failure { chain: Vec::new() }.one_line(), "");
}

#[test]
fn numbers_are_written_in_decimal() {
    assert_eq!(decimal(0), "0");
    assert_eq!(decimal(7), "7");
    assert_eq!(decimal(1024), "1024");
    assert_eq!(decimal(-30), "-30");
    assert_eq!(decimal(i64::MAX), "9223372036854775807");
    assert_eq!(decimal(i64::MIN), "-9223372036854775808");
}
