use kuadrat_deploy::ctx::Ctx;
use kuadrat_deploy::model::DeployStatus;
use kuadrat_deploy::reservation::ReserveError;
use kuadrat_deploy::run::reserve;
use kuadrat_deploy::store::Store;

#[test]
fn a_busy_reservation_reports_the_attempt_it_finished() {
    let mut store = Store::new();
    let first = store.create_deploy("web").expect("first row");
    assert!(store.acquire_lock("web", first));
    let mut ctx: Ctx<String> = Ctx::new(store, Vec::new());

    let err = reserve(&mut ctx, "web").expect_err("busy");
    let attempt_id = match err {
        ReserveError::Busy { name, deploy_id } => {
            assert_eq!(name, "web");
            deploy_id
        }
        ReserveError::Internal(err) => panic!("unexpected internal error: {err:?}"),
    };
    let attempt = ctx.store.deploy(attempt_id).expect("attempt row");
    assert_eq!(attempt.status, DeployStatus::Failed);
    assert!(attempt.detail.as_deref().unwrap_or("").contains("progress"));
}
