use kuadrat_deploy::model::{DeployStatus, Event, EventKind, EventStatus, Stage};
use kuadrat_deploy::protocol::{StoreCall, StoreReply};
use kuadrat_deploy::store::Store;
use kuadrat_deploy::text::Failure;

#[test]
fn rows_have_ascending_ids_from_one() {
    let mut store = Store::new();
    assert_eq!(store.create_deploy("web"), Ok(1));
    assert_eq!(store.create_deploy("api"), Ok(2));
    let row = store.deploy(2).expect("row");
    assert_eq!(row.app, "api");
    assert_eq!(row.stage, Stage::Detect);
    assert_eq!(row.status, DeployStatus::InProgress);
    assert_eq!(row.detail, None);
    assert!(store.deploy(0).is_none());
    assert!(store.deploy(3).is_none());
    assert!(store.deploy(-1).is_none());
}

#[test]
fn an_app_has_one_lock() {
    let mut store = Store::new();
    assert!(store.acquire_lock("web", 1));
    assert!(!store.acquire_lock("web", 1));
    assert!(!store.acquire_lock("web", 2));
    assert!(store.acquire_lock("api", 2));
    store.release_lock("web");
    assert!(!store.is_locked("web"));
    assert!(store.is_locked("api"));
    // Giving back what is not held is fine.
    store.release_lock("web");
    assert!(store.acquire_lock("web", 2));
}

#[test]
fn a_deploy_ends_in_one_write() {
    let mut store = Store::new();
    let id = store.create_deploy("web").expect("row");
    assert!(store.acquire_lock("web", id));
    let stored = store
        .finish_deploy_with_event(id, DeployStatus::RolledBack, Some("boom".to_string()))
        .expect("stored");
    assert_eq!(stored.id, 1);
    assert_eq!(stored.event.kind, EventKind::Finished { status: DeployStatus::RolledBack });
    assert_eq!(stored.event.detail.as_deref(), Some("boom"));
    let row = store.deploy(id).expect("row");
    assert_eq!(row.status, DeployStatus::RolledBack);
    assert_eq!(row.detail.as_deref(), Some("boom"));
    assert!(!store.is_locked("web"));
    assert_eq!(store.events_for(id), vec![stored]);
}

#[test]
fn ending_a_deploy_leaves_the_lock_of_another() {
    let mut store = Store::new();
    let first = store.create_deploy("web").expect("row");
    let second = store.create_deploy("web").expect("row");
    assert!(store.acquire_lock("web", first));
    store.finish_deploy_with_event(second, DeployStatus::Failed, None).expect("stored");
    assert!(store.is_locked("web"));
}

#[test]
fn what_does_not_exist_cannot_be_changed() {
    let mut store = Store::new();
    let missing = Failure::new("no such deploy");
    assert_eq!(store.advance_stage(1, Stage::Build), Err(missing.clone()));
    assert_eq!(store.finish_deploy(1, DeployStatus::Done, None), Err(missing.clone()));
    assert_eq!(store.finish_deploy_with_event(1, DeployStatus::Done, None), Err(missing));
    assert_eq!(store, Store::new());
}

#[test]
fn events_are_told_apart_by_deploy() {
    let mut store = Store::new();
    for (deploy_id, stage) in [(1, Stage::Detect), (2, Stage::Detect), (1, Stage::Build)] {
        let event = Event::for_stage(deploy_id, stage, EventStatus::Started, None);
        store.append_event(event).expect("stored");
    }
    let ids: Vec<i64> = store.events_for(1).iter().map(|e| e.id).collect();
    assert_eq!(ids, [1, 3]);
    assert_eq!(store.events_for(2).len(), 1);
    assert!(store.events_for(3).is_empty());
}

#[test]
fn the_last_spec_of_an_app_counts() {
    let mut store = Store::new();
    assert_eq!(store.current_spec("web"), None);
    store.put_spec("web", "web", "one");
    store.put_spec("api", "api", "two");
    store.put_spec("web", "web", "three");
    assert_eq!(store.current_spec("web").as_deref(), Some("three"));
    assert_eq!(store.current_spec("api").as_deref(), Some("two"));
}

#[test]
fn only_locks_without_a_running_deploy_are_orphaned() {
    let mut store = Store::new();
    let running = store.create_deploy("web").expect("row");
    let ended = store.create_deploy("api").expect("row");
    assert!(store.acquire_lock("web", running));
    assert!(store.acquire_lock("api", ended));
    assert!(store.acquire_lock("ghost", 77));
    store.finish_deploy(ended, DeployStatus::Done, None).expect("finished");
    assert_eq!(store.release_orphaned_locks(), ["api", "ghost"]);
    assert!(store.is_locked("web"));
    assert!(store.release_orphaned_locks().is_empty());
}

#[test]
fn requests_are_answered_as_the_methods_do() {
    let mut store = Store::new();
    assert_eq!(store.answer(StoreCall::CreateDeploy { name: "web" }), StoreReply::Created(1));
    assert_eq!(
        store.answer(StoreCall::AcquireLock { name: "web", deploy_id: 1 }),
        StoreReply::Lock { granted: true }
    );
    assert_eq!(
        store.answer(StoreCall::AcquireLock { name: "web", deploy_id: 2 }),
        StoreReply::Lock { granted: false }
    );
    assert_eq!(
        store.answer(StoreCall::AdvanceStage { deploy_id: 1, stage: Stage::Apply }),
        StoreReply::Done
    );
    match store.answer(StoreCall::InProgressDeploys) {
        StoreReply::Rows(rows) => {
            assert_eq!(rows.len(), 1);
            assert_eq!(rows[0].stage, Stage::Apply);
        }
        other => panic!("{other:?}"),
    }
    assert_eq!(store.answer(StoreCall::CurrentSpec { name: "web" }), StoreReply::Spec(None));
    assert_eq!(
        store.answer(StoreCall::AdvanceStage { deploy_id: 9, stage: Stage::Apply }),
        StoreReply::Failed(Failure::new("no such deploy"))
    );
}
