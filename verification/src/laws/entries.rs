//! What is written to the ledger, and what is read from it.

use crate::laws::recovery::lemma_in_progress_rows;
use crate::model::{DeployRowView, DeployStatus, EventKind, EventView, Stage, StoredEventView};
use crate::protocol::{StoreCallView, StoreReplyView};
use crate::store::{
    about, lemma_filter_within, not_held, not_of, unfinished, LockView, StoreView, StoredSpecView,
};
use vstd::prelude::*;

verus! {

/// Nothing is in a ledger that nothing was written to, and it is valid.
pub proof fn law_nothing_was_written(app: Seq<char>, deploy_id: i64)
    ensures
        StoreView::empty().rows.len() == 0,
        StoreView::empty().locks.len() == 0,
        StoreView::empty().events.len() == 0,
        !StoreView::empty().specs.contains_key(app),
        !StoreView::empty().has(deploy_id),
        !StoreView::empty().locked(app),
        StoreView::empty().valid(),
{
}

/// The row that is read under an id is the one that carries it. A deploy is in
/// progress where its row says so, and an app is locked where there is a lock of
/// it, whoever holds it.
pub proof fn law_what_is_read(store: StoreView, deploy_id: i64, app: Seq<char>)
    requires
        store.valid(),
    ensures
        store.has(deploy_id) <==> exists|i: int|
            0 <= i < store.rows.len() && (#[trigger] store.rows[i]).id == deploy_id,
        store.has(deploy_id) ==> {
            &&& store.rows.contains(store.row(deploy_id))
            &&& store.row(deploy_id).id == deploy_id
        },
        store.in_progress(deploy_id) <==> exists|i: int|
            {
                &&& 0 <= i < store.rows.len()
                &&& (#[trigger] store.rows[i]).id == deploy_id
                &&& store.rows[i].status == DeployStatus::InProgress
            },
        store.holds(app, deploy_id) <==> exists|i: int|
            {
                &&& 0 <= i < store.locks.len()
                &&& (#[trigger] store.locks[i]).app == app
                &&& store.locks[i].deploy_id == deploy_id
            },
        store.locked(app) <==> exists|holder: i64| #[trigger] store.holds(app, holder),
{
    if store.has(deploy_id) {
        assert(store.rows[deploy_id - 1].id == deploy_id);
    }
    if store.locked(app) {
        let i = choose|i: int| 0 <= i < store.locks.len() && (#[trigger] store.locks[i]).app == app;
        let holder = store.locks[i].deploy_id;
        assert(store.locks[i] == LockView { app, deploy_id: holder });
        assert(store.holds(app, holder));
    }
    if exists|holder: i64| #[trigger] store.holds(app, holder) {
        let holder = choose|holder: i64| #[trigger] store.holds(app, holder);
        let i = choose|i: int|
            0 <= i < store.locks.len() && store.locks[i] == LockView { app, deploy_id: holder };
        assert(store.locks[i].app == app);
    }
    if exists|i: int|
        {
            &&& 0 <= i < store.locks.len()
            &&& (#[trigger] store.locks[i]).app == app
            &&& store.locks[i].deploy_id == deploy_id
        } {
        let i = choose|i: int|
            {
                &&& 0 <= i < store.locks.len()
                &&& (#[trigger] store.locks[i]).app == app
                &&& store.locks[i].deploy_id == deploy_id
            };
        assert(store.locks[i] == LockView { app, deploy_id });
    }
}

/// A new deploy has the next id and a row that is in progress at the first stage,
/// and nothing else changes. Where the ids are used up, nothing changes at all.
pub proof fn law_new_deploy(store: StoreView, app: Seq<char>)
    requires
        store.valid(),
    ensures
        ({
            let (then, reply) = store.answer(StoreCallView::CreateDeploy { name: app });
            let id = store.rows.len() + 1;
            &&& id <= i64::MAX ==> {
                &&& reply == StoreReplyView::Created(id as i64)
                &&& then.rows == store.rows.push(
                    DeployRowView {
                        id: id as i64,
                        app,
                        stage: Stage::Detect,
                        status: DeployStatus::InProgress,
                        detail: None,
                    },
                )
                &&& !store.has(id as i64)
                &&& then.in_progress(id as i64)
            }
            &&& id > i64::MAX ==> {
                &&& reply == StoreReplyView::Failed(seq!["the store is full"@])
                &&& then.rows == store.rows
            }
            &&& then.locks == store.locks
            &&& then.specs == store.specs
            &&& then.events == store.events
        }),
{
}

/// The rows after the one with an id was replaced.
pub open spec fn rows_with(rows: Seq<DeployRowView>, id: i64, row: DeployRowView) -> Seq<
    DeployRowView,
> {
    Seq::new(
        rows.len(),
        |i: int|
            if rows[i].id == id {
                row
            } else {
                rows[i]
            },
    )
}

/// Advancing a deploy changes the stage of its row and nothing else. A deploy
/// that has no row is refused, and nothing changes.
pub proof fn law_advanced(store: StoreView, deploy_id: i64, stage: Stage)
    requires
        store.valid(),
    ensures
        ({
            let (then, reply) = store.answer(StoreCallView::AdvanceStage { deploy_id, stage });
            let row = store.row(deploy_id);
            &&& store.has(deploy_id) ==> {
                &&& reply == StoreReplyView::Done
                &&& then.rows == rows_with(
                    store.rows,
                    deploy_id,
                    DeployRowView {
                        id: deploy_id,
                        app: row.app,
                        stage,
                        status: row.status,
                        detail: row.detail,
                    },
                )
            }
            &&& !store.has(deploy_id) ==> {
                &&& reply == StoreReplyView::Failed(seq!["no such deploy"@])
                &&& then.rows == store.rows
            }
            &&& then.locks == store.locks
            &&& then.specs == store.specs
            &&& then.events == store.events
        }),
{
    let (then, reply) = store.answer(StoreCallView::AdvanceStage { deploy_id, stage });
    let row = store.row(deploy_id);
    if store.has(deploy_id) {
        assert(then.rows =~= rows_with(
            store.rows,
            deploy_id,
            DeployRowView {
                id: deploy_id,
                app: row.app,
                stage,
                status: row.status,
                detail: row.detail,
            },
        ));
    }
}

/// Finishing a deploy changes the status and the detail of its row and nothing
/// else. A deploy that has no row is refused, and nothing changes.
pub proof fn law_finished(
    store: StoreView,
    deploy_id: i64,
    status: DeployStatus,
    detail: Option<Seq<char>>,
)
    requires
        store.valid(),
    ensures
        ({
            let (then, reply) = store.answer(
                StoreCallView::FinishDeploy { deploy_id, status, detail },
            );
            let row = store.row(deploy_id);
            &&& store.has(deploy_id) ==> {
                &&& reply == StoreReplyView::Done
                &&& then.rows == rows_with(
                    store.rows,
                    deploy_id,
                    DeployRowView { id: deploy_id, app: row.app, stage: row.stage, status, detail },
                )
            }
            &&& !store.has(deploy_id) ==> {
                &&& reply == StoreReplyView::Failed(seq!["no such deploy"@])
                &&& then.rows == store.rows
            }
            &&& then.locks == store.locks
            &&& then.specs == store.specs
            &&& then.events == store.events
        }),
{
    let (then, reply) = store.answer(StoreCallView::FinishDeploy { deploy_id, status, detail });
    let row = store.row(deploy_id);
    if store.has(deploy_id) {
        assert(then.rows =~= rows_with(
            store.rows,
            deploy_id,
            DeployRowView { id: deploy_id, app: row.app, stage: row.stage, status, detail },
        ));
    }
}

/// Finishing a deploy with its event does three things at once or none: the
/// status and the detail of the row change, the event is appended under the next
/// id, and the lock of the app is given back, where this deploy holds it. The
/// lock of another deploy, or of another app, stays.
pub proof fn law_finished_with_event(
    store: StoreView,
    deploy_id: i64,
    status: DeployStatus,
    detail: Option<Seq<char>>,
    lock: LockView,
)
    requires
        store.valid(),
    ensures
        ({
            let (then, reply) = store.answer(
                StoreCallView::FinishDeployWithEvent { deploy_id, status, detail },
            );
            let row = store.row(deploy_id);
            let stored = StoredEventView {
                id: (store.events.len() + 1) as i64,
                event: EventView { deploy_id, kind: EventKind::Finished { status }, detail },
            };
            &&& store.has(deploy_id) && store.events.len() < i64::MAX ==> {
                &&& reply == StoreReplyView::Event(stored)
                &&& then.rows == rows_with(
                    store.rows,
                    deploy_id,
                    DeployRowView { id: deploy_id, app: row.app, stage: row.stage, status, detail },
                )
                &&& then.events == store.events.push(stored)
                &&& then.locks == store.locks.filter(
                    |lock: LockView| !(lock.app == row.app && lock.deploy_id == deploy_id),
                )
                &&& then.locks.contains(lock) == (store.locks.contains(lock) && !(lock.app
                    == row.app && lock.deploy_id == deploy_id))
            }
            &&& !store.has(deploy_id) ==> {
                &&& reply == StoreReplyView::Failed(seq!["no such deploy"@])
                &&& then == store
            }
            &&& store.has(deploy_id) && store.events.len() >= i64::MAX ==> {
                &&& reply == StoreReplyView::Failed(seq!["the store is full"@])
                &&& then == store
            }
            &&& then.specs == store.specs
        }),
{
    let (then, reply) = store.answer(
        StoreCallView::FinishDeployWithEvent { deploy_id, status, detail },
    );
    let row = store.row(deploy_id);
    if store.has(deploy_id) && store.events.len() < i64::MAX {
        assert(then.rows =~= rows_with(
            store.rows,
            deploy_id,
            DeployRowView { id: deploy_id, app: row.app, stage: row.stage, status, detail },
        ));
        lemma_filter_within(store.locks, not_held(row.app, deploy_id), lock);
        assert(not_held(row.app, deploy_id) =~= (|lock: LockView|
            !(lock.app == row.app && lock.deploy_id == deploy_id)));
    }
}

/// An event is appended under the next id, and nothing else changes. Where the
/// ids are used up, nothing changes at all.
pub proof fn law_appended(store: StoreView, event: EventView)
    requires
        store.valid(),
    ensures
        ({
            let (then, reply) = store.answer(StoreCallView::AppendEvent { event });
            let stored = StoredEventView { id: (store.events.len() + 1) as i64, event };
            &&& store.events.len() < i64::MAX ==> {
                &&& reply == StoreReplyView::Event(stored)
                &&& then.events == store.events.push(stored)
            }
            &&& store.events.len() >= i64::MAX ==> {
                &&& reply == StoreReplyView::Failed(seq!["the store is full"@])
                &&& then.events == store.events
            }
            &&& then.rows == store.rows
            &&& then.locks == store.locks
            &&& then.specs == store.specs
        }),
{
}

/// The events of a deploy are those that are about it, in the order in which they
/// were appended: one more is read last, if it is about the deploy.
pub proof fn law_events_are_read_in_order(
    store: StoreView,
    deploy_id: i64,
    event: EventView,
    stored: StoredEventView,
)
    requires
        store.valid(),
        store.events.len() < i64::MAX,
    ensures
        StoreView::empty().events.filter(about(deploy_id)) == Seq::<StoredEventView>::empty(),
        store.events.filter(about(deploy_id)).contains(stored) <==> {
            &&& store.events.contains(stored)
            &&& stored.event.deploy_id == deploy_id
        },
        store.answer(StoreCallView::AppendEvent { event }).0.events.filter(about(deploy_id)) == (
        if event.deploy_id == deploy_id {
            store.events.filter(about(deploy_id)).push(
                StoredEventView { id: (store.events.len() + 1) as i64, event },
            )
        } else {
            store.events.filter(about(deploy_id))
        }),
{
    reveal(Seq::filter);
    lemma_filter_within(store.events, about(deploy_id), stored);
    let next = StoredEventView { id: (store.events.len() + 1) as i64, event };
    assert(store.events.push(next).drop_last() =~= store.events);
}

/// An app is locked by one deploy at a time. The lock is granted exactly where
/// no deploy holds it; from then on the one that it was granted to holds it, and
/// nobody else gets it until it is released. Locks of other apps do not matter,
/// and do not change.
pub proof fn law_locked_by_one(
    store: StoreView,
    app: Seq<char>,
    deploy_id: i64,
    other: i64,
    lock: LockView,
)
    requires
        store.valid(),
    ensures
        ({
            let (then, reply) = store.answer(StoreCallView::AcquireLock { name: app, deploy_id });
            let again = then.answer(StoreCallView::AcquireLock { name: app, deploy_id: other });
            let free = then.answer(StoreCallView::ReleaseLock { name: app }).0;
            let later = free.answer(StoreCallView::AcquireLock { name: app, deploy_id: other });
            &&& reply == StoreReplyView::Lock {
                granted: !(exists|i: int|
                    0 <= i < store.locks.len() && (#[trigger] store.locks[i]).app == app),
            }
            &&& reply == (StoreReplyView::Lock { granted: false }) ==> then == store
            &&& reply == (StoreReplyView::Lock { granted: true }) ==> then == StoreView {
                locks: store.locks.push(LockView { app, deploy_id }),
                ..store
            }
            &&& again == (then, StoreReplyView::Lock { granted: false })
            &&& then.answer(StoreCallView::ReleaseLock { name: app }).1 == StoreReplyView::Done
            &&& free.locks == then.locks.filter(|lock: LockView| lock.app != app)
            &&& free.locks.contains(lock) == (then.locks.contains(lock) && lock.app != app)
            &&& free.rows == store.rows && free.specs == store.specs && free.events == store.events
            &&& later.1 == (StoreReplyView::Lock { granted: true })
            &&& later.0.holds(app, other)
        }),
{
    let (then, reply) = store.answer(StoreCallView::AcquireLock { name: app, deploy_id });
    let free = then.answer(StoreCallView::ReleaseLock { name: app }).0;
    let later = free.answer(StoreCallView::AcquireLock { name: app, deploy_id: other });
    assert(then.locked(app)) by {
        if !store.locked(app) {
            assert(then.locks.last() == LockView { app, deploy_id });
            assert(then.locks[then.locks.len() - 1].app == app);
        }
    }
    lemma_filter_within(then.locks, not_of(app), lock);
    assert(not_of(app) =~= (|lock: LockView| lock.app != app));
    assert(!free.locked(app)) by {
        if free.locked(app) {
            let i = choose|i: int|
                0 <= i < free.locks.len() && (#[trigger] free.locks[i]).app == app;
            assert(free.locks.contains(free.locks[i]));
            lemma_filter_within(then.locks, not_of(app), free.locks[i]);
        }
    }
    assert(later.0.locks.last() == LockView { app, deploy_id: other });
    assert(later.0.locks.contains(later.0.locks.last()));
}

/// A deploy that ends with its event sets its app free: where it held the lock,
/// the next deploy of the app gets it.
pub proof fn law_free_at_the_end(
    store: StoreView,
    deploy_id: i64,
    status: DeployStatus,
    detail: Option<Seq<char>>,
    other: i64,
)
    requires
        store.valid(),
        store.has(deploy_id),
        store.holds(store.row(deploy_id).app, deploy_id),
        store.events.len() < i64::MAX,
    ensures
        ({
            let app = store.row(deploy_id).app;
            let then = store.answer(
                StoreCallView::FinishDeployWithEvent { deploy_id, status, detail },
            ).0;
            &&& !then.locked(app)
            &&& then.answer(StoreCallView::AcquireLock { name: app, deploy_id: other }).1 == (
            StoreReplyView::Lock { granted: true })
        }),
{
    let app = store.row(deploy_id).app;
    let then = store.answer(StoreCallView::FinishDeployWithEvent { deploy_id, status, detail }).0;
    if then.locked(app) {
        let i = choose|i: int| 0 <= i < then.locks.len() && (#[trigger] then.locks[i]).app == app;
        assert(then.locks.contains(then.locks[i]));
        lemma_filter_within(store.locks, not_held(app, deploy_id), then.locks[i]);
        let j = choose|j: int| 0 <= j < store.locks.len() && store.locks[j] == then.locks[i];
        let k = choose|k: int|
            0 <= k < store.locks.len() && store.locks[k] == (LockView { app, deploy_id });
        assert(store.locks[j].app == store.locks[k].app);
    }
}

/// The spec that was put last for an app is the one that is read, under its own
/// name alone. Reading changes nothing.
pub proof fn law_spec_reads_back(
    store: StoreView,
    name: Seq<char>,
    slug: Seq<char>,
    json: Seq<char>,
    other: Seq<char>,
)
    ensures
        ({
            let (then, reply) = store.answer(StoreCallView::PutSpec { name, slug, json });
            let read = |store: StoreView, name: Seq<char>|
                store.answer(StoreCallView::CurrentSpec { name });
            &&& reply == StoreReplyView::Done
            &&& read(then, name) == (then, StoreReplyView::Spec(Some(json)))
            &&& other != name ==> read(then, other) == (then, read(store, other).1)
            &&& !store.specs.contains_key(other) ==> read(store, other) == (
                store,
                StoreReplyView::Spec(None),
            )
            &&& then.specs == store.specs.insert(name, StoredSpecView { name, slug, json })
            &&& then.rows == store.rows
            &&& then.locks == store.locks
            &&& then.events == store.events
        }),
{
}

/// The deploys that are listed as in progress are the rows that say so, all of
/// them, in the order of their ids. Listing them changes nothing.
pub proof fn law_listed_in_progress(store: StoreView, row: DeployRowView)
    requires
        store.valid(),
    ensures
        ({
            let (then, reply) = store.answer(StoreCallView::InProgressDeploys);
            let rows = store.in_progress_rows();
            &&& then == store
            &&& reply == StoreReplyView::Rows(rows)
            &&& rows == store.rows.filter(
                |row: DeployRowView| row.status == DeployStatus::InProgress,
            )
            &&& rows.contains(row) <==> {
                &&& store.rows.contains(row)
                &&& row.status == DeployStatus::InProgress
            }
            &&& forall|i: int, j: int|
                0 <= i < j < rows.len() ==> (#[trigger] rows[i]).id < (#[trigger] rows[j]).id
        }),
{
    lemma_in_progress_rows(store);
    lemma_filter_within(store.rows, unfinished(), row);
    assert(unfinished() =~= (|row: DeployRowView| row.status == DeployStatus::InProgress));
}

/// Of the locks, those whose deploy is in progress stay, and the apps of all
/// others are named. Nothing else changes.
pub proof fn law_orphans_are_freed(store: StoreView, lock: LockView, app: Seq<char>)
    requires
        store.valid(),
    ensures
        ({
            let (then, reply) = store.answer(StoreCallView::ReleaseOrphanedLocks);
            let alive = |lock: LockView|
                exists|i: int|
                    {
                        &&& 0 <= i < store.rows.len()
                        &&& (#[trigger] store.rows[i]).id == lock.deploy_id
                        &&& store.rows[i].status == DeployStatus::InProgress
                    };
            &&& reply is Apps
            &&& then.locks == store.locks.filter(
                |lock: LockView| store.in_progress(lock.deploy_id),
            )
            &&& then.locks.contains(lock) <==> store.locks.contains(lock) && alive(lock)
            &&& reply->Apps_0 == store.locks.filter(
                |lock: LockView| !store.in_progress(lock.deploy_id),
            ).map_values(|lock: LockView| lock.app)
            &&& reply->Apps_0.contains(app) <==> exists|i: int|
                0 <= i < store.locks.len() && (#[trigger] store.locks[i]).app == app && !alive(
                    store.locks[i],
                )
            &&& then.rows == store.rows
            &&& then.specs == store.specs
            &&& then.events == store.events
        }),
{
    let orphan = |lock: LockView| !store.in_progress(lock.deploy_id);
    let left = store.locks.filter(orphan);
    let apps = store.orphans();
    lemma_filter_within(store.locks, store.alive(), lock);
    assert forall|lock: LockView| #[trigger] store.in_progress(lock.deploy_id) == (exists|i: int|
        {
            &&& 0 <= i < store.rows.len()
            &&& (#[trigger] store.rows[i]).id == lock.deploy_id
            &&& store.rows[i].status == DeployStatus::InProgress
        }) by {
        law_what_is_read(store, lock.deploy_id, app);
    }
    assert(store.in_progress(lock.deploy_id) == (exists|i: int|
        {
            &&& 0 <= i < store.rows.len()
            &&& (#[trigger] store.rows[i]).id == lock.deploy_id
            &&& store.rows[i].status == DeployStatus::InProgress
        }));
    assert(apps == left.map_values(|lock: LockView| lock.app));
    assert(store.alive() =~= (|lock: LockView| store.in_progress(lock.deploy_id)));
    if apps.contains(app) {
        let i = choose|i: int| 0 <= i < apps.len() && apps[i] == app;
        assert(left.contains(left[i]));
        lemma_filter_within(store.locks, orphan, left[i]);
        let j = choose|j: int| 0 <= j < store.locks.len() && store.locks[j] == left[i];
        assert(!store.in_progress(store.locks[j].deploy_id));
    }
    assert forall|i: int|
        0 <= i < store.locks.len() && (#[trigger] store.locks[i]).app == app
            && !store.in_progress(store.locks[i].deploy_id) implies apps.contains(app) by {
        lemma_filter_within(store.locks, orphan, store.locks[i]);
        let j = choose|j: int| 0 <= j < left.len() && left[j] == store.locks[i];
        assert(apps[j] == app);
    }
}

} // verus!
