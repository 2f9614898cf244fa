//! The ledger of deploys: rows, locks, deployed specs and events.
//!
//! Every request of the engine to its store has one meaning, given here by
//! [`StoreView::answer`]. [`Store`] is the ledger held in memory.

use crate::model::{
    finished_event, DeployRow, DeployRowView, DeployStatus, Event, EventKind, EventView, Stage,
    StoredEvent, StoredEventView,
};
use crate::protocol::{StoreCall, StoreCallView, StoreReply, StoreReplyView};
use crate::text::{copied, Failure};
use vstd::prelude::*;
use vstd::string::*;

verus! {

/// The lock of an app, and the deploy that holds it.
#[derive(Debug, PartialEq, Eq)]
pub struct Lock {
    pub app: String,
    pub deploy_id: i64,
}

pub struct LockView {
    pub app: Seq<char>,
    pub deploy_id: i64,
}

impl View for Lock {
    type V = LockView;

    open spec fn view(&self) -> LockView {
        LockView { app: self.app@, deploy_id: self.deploy_id }
    }
}

impl DeepView for Lock {
    type V = LockView;

    open spec fn deep_view(&self) -> LockView {
        self.view()
    }
}

/// The spec that the last successful deploy of an app stored.
#[derive(Debug, PartialEq, Eq)]
pub struct StoredSpec {
    pub name: String,
    pub slug: String,
    pub json: String,
}

pub struct StoredSpecView {
    pub name: Seq<char>,
    pub slug: Seq<char>,
    pub json: Seq<char>,
}

impl View for StoredSpec {
    type V = StoredSpecView;

    open spec fn view(&self) -> StoredSpecView {
        StoredSpecView { name: self.name@, slug: self.slug@, json: self.json@ }
    }
}

impl DeepView for StoredSpec {
    type V = StoredSpecView;

    open spec fn deep_view(&self) -> StoredSpecView {
        self.view()
    }
}

/// The specs by app: of several for one app, the last counts.
pub open spec fn by_name(specs: Seq<StoredSpecView>) -> Map<Seq<char>, StoredSpecView>
    decreases specs.len(),
{
    if specs.len() == 0 {
        Map::empty()
    } else {
        by_name(specs.drop_last()).insert(specs.last().name, specs.last())
    }
}

#[verifier::ext_equal]
pub struct StoreView {
    /// The rows in the order of their ids, the first of which is one.
    pub rows: Seq<DeployRowView>,
    pub locks: Seq<LockView>,
    pub specs: Map<Seq<char>, StoredSpecView>,
    /// The events in the order of their ids, the first of which is one.
    pub events: Seq<StoredEventView>,
}

/// The rows of deploys that have not ended.
pub open spec fn unfinished() -> spec_fn(DeployRowView) -> bool {
    |row: DeployRowView| row.status == DeployStatus::InProgress
}

/// The locks of every app but one.
pub open spec fn not_of(app: Seq<char>) -> spec_fn(LockView) -> bool {
    |lock: LockView| lock.app != app
}

/// The locks but the one that a deploy holds on an app.
pub open spec fn not_held(app: Seq<char>, deploy_id: i64) -> spec_fn(LockView) -> bool {
    |lock: LockView| !(lock.app == app && lock.deploy_id == deploy_id)
}

/// The events of one deploy.
pub open spec fn about(deploy_id: i64) -> spec_fn(StoredEventView) -> bool {
    |stored: StoredEventView| stored.event.deploy_id == deploy_id
}

/// The error of a ledger whose ids are used up.
pub open spec fn full() -> Seq<Seq<char>> {
    seq!["the store is full"@]
}

/// The error of a request about a row that does not exist.
pub open spec fn missing() -> Seq<Seq<char>> {
    seq!["no such deploy"@]
}

impl StoreView {
    /// A ledger that nothing was written to.
    pub open spec fn empty() -> StoreView {
        StoreView {
            rows: Seq::empty(),
            locks: Seq::empty(),
            specs: Map::empty(),
            events: Seq::empty(),
        }
    }

    /// What every ledger keeps: rows and events carry ascending ids that start
    /// at one, and an app has one lock at most.
    pub open spec fn valid(self) -> bool {
        &&& self.rows.len() <= i64::MAX
        &&& forall|i: int| 0 <= i < self.rows.len() ==> (#[trigger] self.rows[i]).id == i + 1
        &&& self.events.len() <= i64::MAX
        &&& forall|i: int| 0 <= i < self.events.len() ==> (#[trigger] self.events[i]).id == i + 1
        &&& forall|i: int, j: int|
            0 <= i < j < self.locks.len() ==> (#[trigger] self.locks[i]).app != (
            #[trigger] self.locks[j]).app
        &&& forall|app: Seq<char>| #[trigger]
            self.specs.contains_key(app) ==> self.specs[app].name == app
    }

    /// Whether a row has the id.
    pub open spec fn has(self, deploy_id: i64) -> bool {
        1 <= deploy_id <= self.rows.len()
    }

    /// The row with the id.
    pub open spec fn row(self, deploy_id: i64) -> DeployRowView {
        self.rows[deploy_id - 1]
    }

    /// Whether every event is of a deploy that has a row.
    pub open spec fn attributed(self) -> bool {
        forall|i: int|
            0 <= i < self.events.len() ==> self.has((#[trigger] self.events[i]).event.deploy_id)
    }

    /// Whether the deploy has a row and has not ended.
    pub open spec fn in_progress(self, deploy_id: i64) -> bool {
        self.has(deploy_id) && self.row(deploy_id).status == DeployStatus::InProgress
    }

    /// The rows of the deploys that have not ended, in the order of their ids.
    pub open spec fn in_progress_rows(self) -> Seq<DeployRowView> {
        self.rows.filter(unfinished())
    }

    /// Whether a deploy holds the lock of the app.
    pub open spec fn locked(self, app: Seq<char>) -> bool {
        exists|i: int| 0 <= i < self.locks.len() && (#[trigger] self.locks[i]).app == app
    }

    /// Whether this deploy holds the lock of the app.
    pub open spec fn holds(self, app: Seq<char>, deploy_id: i64) -> bool {
        self.locks.contains(LockView { app, deploy_id })
    }

    /// The locks of deploys that have not ended.
    pub open spec fn alive(self) -> spec_fn(LockView) -> bool {
        |lock: LockView| self.in_progress(lock.deploy_id)
    }

    /// The apps whose lock belongs to a deploy that has ended, in the order in
    /// which the locks were taken.
    pub open spec fn orphans(self) -> Seq<Seq<char>> {
        self.locks.filter(|lock: LockView| !self.in_progress(lock.deploy_id)).map_values(
            |lock: LockView| lock.app,
        )
    }

    /// The ledger with another row in the place of the one with its id.
    pub open spec fn with_row(self, row: DeployRowView) -> StoreView {
        StoreView { rows: self.rows.update(row.id - 1, row), ..self }
    }

    /// The event as it is stored next.
    pub open spec fn next_event(self, event: EventView) -> StoredEventView {
        StoredEventView { id: (self.events.len() + 1) as i64, event }
    }

    pub open spec fn create_deploy(self, app: Seq<char>) -> (StoreView, StoreReplyView) {
        if self.rows.len() < i64::MAX {
            let row = DeployRowView {
                id: (self.rows.len() + 1) as i64,
                app,
                stage: Stage::Detect,
                status: DeployStatus::InProgress,
                detail: None,
            };
            (StoreView { rows: self.rows.push(row), ..self }, StoreReplyView::Created(row.id))
        } else {
            (self, StoreReplyView::Failed(full()))
        }
    }

    pub open spec fn acquire_lock(self, app: Seq<char>, deploy_id: i64) -> (
        StoreView,
        StoreReplyView,
    ) {
        if self.locked(app) {
            (self, StoreReplyView::Lock { granted: false })
        } else {
            (
                StoreView { locks: self.locks.push(LockView { app, deploy_id }), ..self },
                StoreReplyView::Lock { granted: true },
            )
        }
    }

    pub open spec fn finish_deploy(
        self,
        deploy_id: i64,
        status: DeployStatus,
        detail: Option<Seq<char>>,
    ) -> (StoreView, StoreReplyView) {
        if self.has(deploy_id) {
            (
                self.with_row(DeployRowView { status, detail, ..self.row(deploy_id) }),
                StoreReplyView::Done,
            )
        } else {
            (self, StoreReplyView::Failed(missing()))
        }
    }

    pub open spec fn advance_stage(self, deploy_id: i64, stage: Stage) -> (
        StoreView,
        StoreReplyView,
    ) {
        if self.has(deploy_id) {
            (
                self.with_row(DeployRowView { stage, ..self.row(deploy_id) }),
                StoreReplyView::Done,
            )
        } else {
            (self, StoreReplyView::Failed(missing()))
        }
    }

    pub open spec fn append_event(self, event: EventView) -> (StoreView, StoreReplyView) {
        if self.events.len() < i64::MAX {
            let stored = self.next_event(event);
            (
                StoreView { events: self.events.push(stored), ..self },
                StoreReplyView::Event(stored),
            )
        } else {
            (self, StoreReplyView::Failed(full()))
        }
    }

    /// All of it or nothing: the row, the event and the lock.
    pub open spec fn finish_deploy_with_event(
        self,
        deploy_id: i64,
        status: DeployStatus,
        detail: Option<Seq<char>>,
    ) -> (StoreView, StoreReplyView) {
        if !self.has(deploy_id) {
            (self, StoreReplyView::Failed(missing()))
        } else if self.events.len() >= i64::MAX {
            (self, StoreReplyView::Failed(full()))
        } else {
            let row = self.row(deploy_id);
            let stored = self.next_event(finished_event(deploy_id, status, detail));
            (
                StoreView {
                    locks: self.locks.filter(not_held(row.app, deploy_id)),
                    events: self.events.push(stored),
                    ..self.with_row(DeployRowView { status, detail, ..row })
                },
                StoreReplyView::Event(stored),
            )
        }
    }

    /// What a request does to the ledger, and what the reply to it is.
    pub open spec fn answer(self, call: StoreCallView) -> (StoreView, StoreReplyView) {
        match call {
            StoreCallView::CreateDeploy { name } => self.create_deploy(name),
            StoreCallView::AcquireLock { name, deploy_id } => self.acquire_lock(name, deploy_id),
            StoreCallView::FinishDeploy { deploy_id, status, detail } => self.finish_deploy(
                deploy_id,
                status,
                detail,
            ),
            StoreCallView::ReleaseLock { name } => (
                StoreView { locks: self.locks.filter(not_of(name)), ..self },
                StoreReplyView::Done,
            ),
            StoreCallView::CurrentSpec { name } => (
                self,
                StoreReplyView::Spec(
                    if self.specs.contains_key(name) {
                        Some(self.specs[name].json)
                    } else {
                        None
                    },
                ),
            ),
            StoreCallView::AdvanceStage { deploy_id, stage } => self.advance_stage(
                deploy_id,
                stage,
            ),
            StoreCallView::AppendEvent { event } => self.append_event(event),
            StoreCallView::FinishDeployWithEvent { deploy_id, status, detail } =>
                self.finish_deploy_with_event(deploy_id, status, detail),
            StoreCallView::PutSpec { name, slug, json } => (
                StoreView {
                    specs: self.specs.insert(name, StoredSpecView { name, slug, json }),
                    ..self
                },
                StoreReplyView::Done,
            ),
            StoreCallView::InProgressDeploys => (
                self,
                StoreReplyView::Rows(self.in_progress_rows()),
            ),
            StoreCallView::ReleaseOrphanedLocks => (
                StoreView { locks: self.locks.filter(self.alive()), ..self },
                StoreReplyView::Apps(self.orphans()),
            ),
        }
    }
}

/// Filtering a prefix that is one longer.
proof fn lemma_filter_step<A>(s: Seq<A>, i: int, pred: spec_fn(A) -> bool)
    requires
        0 <= i < s.len(),
    ensures
        s.take(i + 1).filter(pred) == (if pred(s[i]) {
            s.take(i).filter(pred).push(s[i])
        } else {
            s.take(i).filter(pred)
        }),
{
    reveal(Seq::filter);
    assert(s.take(i + 1).drop_last() =~= s.take(i));
}

/// What is left of a sequence that is filtered was in it.
pub proof fn lemma_filter_within<A>(s: Seq<A>, pred: spec_fn(A) -> bool, x: A)
    ensures
        s.filter(pred).contains(x) <==> s.contains(x) && pred(x),
{
    broadcast use vstd::seq_lib::group_filter_ensures;

    if s.contains(x) && pred(x) {
        let i = choose|i: int| 0 <= i < s.len() && s[i] == x;
        assert(s.filter(pred).contains(s[i]));
    }
    lemma_filter_from(s, pred);
}

/// Each item that is left of a sequence that is filtered was in it.
proof fn lemma_filter_from<A>(s: Seq<A>, pred: spec_fn(A) -> bool)
    ensures
        forall|i: int|
            0 <= i < s.filter(pred).len() ==> s.contains(#[trigger] s.filter(pred)[i]) && pred(
                s.filter(pred)[i],
            ),
    decreases s.len(),
{
    reveal(Seq::filter);
    if s.len() > 0 {
        lemma_filter_from(s.drop_last(), pred);
        assert forall|i: int| 0 <= i < s.filter(pred).len() implies s.contains(
            #[trigger] s.filter(pred)[i],
        ) && pred(s.filter(pred)[i]) by {
            let x = s.filter(pred)[i];
            if i < s.drop_last().filter(pred).len() {
                assert(s.drop_last().filter(pred)[i] == x);
                let j = choose|j: int| 0 <= j < s.drop_last().len() && s.drop_last()[j] == x;
                assert(s[j] == x);
            } else {
                assert(s[s.len() - 1] == x);
            }
        }
    }
}

/// Filtering by what always holds, or never.
pub proof fn lemma_filter_all_or_none<A>(s: Seq<A>, pred: spec_fn(A) -> bool)
    ensures
        (forall|i: int| 0 <= i < s.len() ==> pred(#[trigger] s[i])) ==> s.filter(pred) == s,
        (forall|i: int| 0 <= i < s.len() ==> !pred(#[trigger] s[i])) ==> s.filter(pred) == Seq::<
            A,
        >::empty(),
    decreases s.len(),
{
    reveal(Seq::filter);
    if s.len() > 0 {
        let rest = s.drop_last();
        lemma_filter_all_or_none(rest, pred);
        assert(s.last() == s[s.len() - 1]);
        if forall|i: int| 0 <= i < s.len() ==> pred(#[trigger] s[i]) {
            assert forall|i: int| 0 <= i < rest.len() implies pred(#[trigger] rest[i]) by {
                assert(rest[i] == s[i]);
            }
            assert(rest.push(s.last()) =~= s);
        }
        if forall|i: int| 0 <= i < s.len() ==> !pred(#[trigger] s[i]) {
            assert forall|i: int| 0 <= i < rest.len() implies !pred(#[trigger] rest[i]) by {
                assert(rest[i] == s[i]);
            }
        }
    } else {
        assert(s =~= Seq::<A>::empty());
    }
}

/// Locks of different apps stay locks of different apps when some are dropped.
proof fn lemma_filter_distinct(locks: Seq<LockView>, pred: spec_fn(LockView) -> bool)
    requires
        forall|i: int, j: int|
            0 <= i < j < locks.len() ==> (#[trigger] locks[i]).app != (#[trigger] locks[j]).app,
    ensures
        forall|i: int, j: int|
            0 <= i < j < locks.filter(pred).len() ==> (#[trigger] locks.filter(pred)[i]).app != (
            #[trigger] locks.filter(pred)[j]).app,
    decreases locks.len(),
{
    reveal(Seq::filter);
    if locks.len() > 0 {
        let rest = locks.drop_last();
        lemma_filter_distinct(rest, pred);
        lemma_filter_from(rest, pred);
        assert forall|i: int| 0 <= i < rest.filter(pred).len() implies (
        #[trigger] rest.filter(pred)[i]).app != locks.last().app by {
            let x = rest.filter(pred)[i];
            assert(rest.contains(x));
            let j = choose|j: int| 0 <= j < rest.len() && rest[j] == x;
            assert(locks[j].app != locks[locks.len() - 1].app);
        }
    }
}

/// Every request leaves the ledger valid.
pub proof fn law_answer_keeps_valid(store: StoreView, call: StoreCallView)
    requires
        store.valid(),
    ensures
        store.answer(call).0.valid(),
{
    match call {
        StoreCallView::ReleaseLock { name } => {
            lemma_filter_distinct(store.locks, not_of(name));
        },
        StoreCallView::FinishDeployWithEvent { deploy_id, .. } => {
            lemma_filter_distinct(store.locks, not_held(store.row(deploy_id).app, deploy_id));
        },
        StoreCallView::ReleaseOrphanedLocks => {
            lemma_filter_distinct(store.locks, store.alive());
        },
        _ => {},
    }
}

/// Every event goes on being of a deploy that has a row, as long as no event is
/// appended for a deploy that has none.
pub proof fn law_answer_keeps_attributed(store: StoreView, call: StoreCallView)
    requires
        store.valid(),
        store.attributed(),
        call matches StoreCallView::AppendEvent { event } ==> store.has(event.deploy_id),
    ensures
        store.answer(call).0.attributed(),
{
    let then = store.answer(call).0;
    assert forall|i: int| 0 <= i < then.events.len() implies then.has(
        (#[trigger] then.events[i]).event.deploy_id,
    ) by {
        if i < store.events.len() {
            assert(then.events[i] == store.events[i]);
            assert(store.has(store.events[i].event.deploy_id));
        }
    }
}

/// Every reply of the ledger is one that the request can get.
pub proof fn law_answer_is_admitted(store: StoreView, call: StoreCallView)
    ensures
        call.admits(store.answer(call).1),
{
}

/// The ledger held in memory.
#[derive(Debug, PartialEq, Eq)]
pub struct Store {
    rows: Vec<DeployRow>,
    locks: Vec<Lock>,
    specs: Vec<StoredSpec>,
    events: Vec<StoredEvent>,
}

impl View for Store {
    type V = StoreView;

    closed spec fn view(&self) -> StoreView {
        StoreView {
            rows: self.rows.deep_view(),
            locks: self.locks.deep_view(),
            specs: by_name(self.specs.deep_view()),
            events: self.events.deep_view(),
        }
    }
}

impl Store {
    /// A ledger that nothing was written to.
    pub fn new() -> (store: Store)
        ensures
            store@ == StoreView::empty(),
            store@.valid(),
    {
        let store = Store {
            rows: Vec::new(),
            locks: Vec::new(),
            specs: Vec::new(),
            events: Vec::new(),
        };
        assert(store@ =~= StoreView::empty());
        store
    }

    /// A new row for a deploy of the app, in progress at the first stage.
    pub fn create_deploy(&mut self, app: &str) -> (id: Result<i64, Failure>)
        requires
            old(self)@.valid(),
        ensures
            final(self)@ == old(self)@.create_deploy(app@).0,
            old(self)@.create_deploy(app@).1 == (match id {
                Ok(id) => StoreReplyView::Created(id),
                Err(failure) => StoreReplyView::Failed(failure@),
            }),
            final(self)@.valid(),
    {
        let count: u64 = self.rows.len() as u64;
        if count >= i64::MAX as u64 {
            return Err(Failure::new("the store is full"));
        }
        let id: i64 = (count + 1) as i64;
        let row = DeployRow {
            id,
            app: app.to_string(),
            stage: Stage::Detect,
            status: DeployStatus::InProgress,
            detail: None,
        };
        self.rows.push(row);
        assert(self@ =~= old(self)@.create_deploy(app@).0);
        Ok(id)
    }

    /// Whether a row has the id.
    fn has_row(&self, deploy_id: i64) -> (yes: bool)
        requires
            self@.valid(),
        ensures
            yes == self@.has(deploy_id),
            yes ==> deploy_id - 1 < self.rows.len(),
    {
        let count: u64 = self.rows.len() as u64;
        deploy_id >= 1 && ((deploy_id - 1) as u64) < count
    }

    /// The row with the id, if there is one.
    pub fn deploy(&self, deploy_id: i64) -> (row: Option<DeployRow>)
        requires
            self@.valid(),
        ensures
            row.deep_view() == (if self@.has(deploy_id) {
                Some(self@.row(deploy_id))
            } else {
                None
            }),
    {
        if self.has_row(deploy_id) {
            Some(self.rows[(deploy_id - 1) as usize].clone())
        } else {
            None
        }
    }

    /// The events of a deploy, in the order in which they were stored.
    pub fn events_for(&self, deploy_id: i64) -> (events: Vec<StoredEvent>)
        ensures
            events.deep_view() == self@.events.filter(about(deploy_id)),
    {
        let mut events: Vec<StoredEvent> = Vec::new();
        let ghost all = self@.events;
        let ghost pred = about(deploy_id);
        proof {
            reveal(Seq::filter);
            assert(events.deep_view() =~= all.take(0).filter(pred));
        }
        for i in 0..self.events.len()
            invariant
                all == self.events.deep_view(),
                pred == about(deploy_id),
                events.deep_view() == all.take(i as int).filter(pred),
        {
            proof {
                lemma_filter_step(all, i as int, pred);
            }
            let ghost before = events.deep_view();
            if self.events[i].event.deploy_id == deploy_id {
                events.push(self.events[i].clone());
                assert(events.deep_view() =~= before.push(all[i as int]));
            }
        }
        assert(all.take(self.events.len() as int) =~= all);
        events
    }

    /// Whether the deploy has a row and has not ended.
    fn is_in_progress(&self, deploy_id: i64) -> (yes: bool)
        requires
            self@.valid(),
        ensures
            yes == self@.in_progress(deploy_id),
    {
        self.has_row(deploy_id) && self.rows[(deploy_id - 1) as usize].status
            == DeployStatus::InProgress
    }

    /// Whether a deploy holds the lock of the app.
    pub fn is_locked(&self, app: &str) -> (yes: bool)
        ensures
            yes == self@.locked(app@),
    {
        let wanted = app.to_string();
        for i in 0..self.locks.len()
            invariant
                wanted@ == app@,
                forall|j: int| 0 <= j < i ==> (#[trigger] self@.locks[j]).app != app@,
        {
            let ghost lock = self@.locks[i as int];
            if self.locks[i].app == wanted {
                assert(lock.app == app@);
                return true;
            }
        }
        false
    }

    /// The lock of the app for this deploy, unless another deploy holds it.
    pub fn acquire_lock(&mut self, app: &str, deploy_id: i64) -> (granted: bool)
        requires
            old(self)@.valid(),
        ensures
            final(self)@ == old(self)@.acquire_lock(app@, deploy_id).0,
            granted == !old(self)@.locked(app@),
            final(self)@.valid(),
    {
        proof {
            law_answer_keeps_valid(
                self@,
                StoreCallView::AcquireLock { name: app@, deploy_id },
            );
        }
        if self.is_locked(app) {
            return false;
        }
        self.locks.push(Lock { app: app.to_string(), deploy_id });
        assert(self@ =~= old(self)@.acquire_lock(app@, deploy_id).0);
        true
    }

    /// Puts another row in the place of the one with its id.
    fn replace_row(&mut self, row: DeployRow)
        requires
            old(self)@.has(row.id),
            old(self)@.valid(),
        ensures
            final(self)@ == old(self)@.with_row(row@),
            final(self)@.valid(),
    {
        assert(row.id - 1 < self.rows.len());
        let index: usize = (row.id - 1) as usize;
        self.rows.set(index, row);
        assert(self@ =~= old(self)@.with_row(row@));
    }

    /// A status for the row, without an event.
    pub fn finish_deploy(
        &mut self,
        deploy_id: i64,
        status: DeployStatus,
        detail: Option<String>,
    ) -> (done: Result<(), Failure>)
        requires
            old(self)@.valid(),
        ensures
            final(self)@ == old(self)@.finish_deploy(deploy_id, status, detail.deep_view()).0,
            old(self)@.finish_deploy(deploy_id, status, detail.deep_view()).1 == (match done {
                Ok(()) => StoreReplyView::Done,
                Err(failure) => StoreReplyView::Failed(failure@),
            }),
            final(self)@.valid(),
    {
        match self.deploy(deploy_id) {
            None => Err(Failure::new("no such deploy")),
            Some(row) => {
                self.replace_row(DeployRow { status, detail, ..row });
                Ok(())
            },
        }
    }

    /// The stage that the row of the deploy has reached.
    pub fn advance_stage(&mut self, deploy_id: i64, stage: Stage) -> (done: Result<(), Failure>)
        requires
            old(self)@.valid(),
        ensures
            final(self)@ == old(self)@.advance_stage(deploy_id, stage).0,
            old(self)@.advance_stage(deploy_id, stage).1 == (match done {
                Ok(()) => StoreReplyView::Done,
                Err(failure) => StoreReplyView::Failed(failure@),
            }),
            final(self)@.valid(),
    {
        match self.deploy(deploy_id) {
            None => Err(Failure::new("no such deploy")),
            Some(row) => {
                self.replace_row(DeployRow { stage, ..row });
                Ok(())
            },
        }
    }

    /// A new event, under the next id.
    pub fn append_event(&mut self, event: Event) -> (stored: Result<StoredEvent, Failure>)
        requires
            old(self)@.valid(),
        ensures
            final(self)@ == old(self)@.append_event(event@).0,
            old(self)@.append_event(event@).1 == (match stored {
                Ok(stored) => StoreReplyView::Event(stored@),
                Err(failure) => StoreReplyView::Failed(failure@),
            }),
            final(self)@.valid(),
    {
        let count: u64 = self.events.len() as u64;
        if count >= i64::MAX as u64 {
            return Err(Failure::new("the store is full"));
        }
        let stored = StoredEvent { id: (count + 1) as i64, event };
        let copy = stored.clone();
        self.events.push(stored);
        assert(self@ =~= old(self)@.append_event(event@).0);
        Ok(copy)
    }

    /// Drops every lock that does not meet the rule.
    fn retain_locks(&mut self, rule: Rule<'_>)
        requires
            old(self)@.valid(),
        ensures
            final(self)@ == (StoreView {
                locks: old(self)@.locks.filter(rule.keeps(old(self)@)),
                ..old(self)@
            }),
    {
        let mut kept: Vec<Lock> = Vec::new();
        let ghost all = self@.locks;
        let ghost pred = rule.keeps(self@);
        proof {
            reveal(Seq::filter);
            assert(kept.deep_view() =~= all.take(0).filter(pred));
        }
        for i in 0..self.locks.len()
            invariant
                self@ == old(self)@,
                self@.valid(),
                all == self.locks.deep_view(),
                pred == rule.keeps(self@),
                kept.deep_view() == all.take(i as int).filter(pred),
        {
            proof {
                lemma_filter_step(all, i as int, pred);
            }
            let ghost before = kept.deep_view();
            let keep = match &rule {
                Rule::NotOf { app } => !(self.locks[i].app == **app),
                Rule::NotHeld { app, deploy_id } => !(self.locks[i].app == **app
                    && self.locks[i].deploy_id == *deploy_id),
                Rule::Alive => self.is_in_progress(self.locks[i].deploy_id),
            };
            assert(keep == pred(all[i as int]));
            if keep {
                let lock = &self.locks[i];
                kept.push(Lock { app: lock.app.clone(), deploy_id: lock.deploy_id });
                assert(kept.deep_view() =~= before.push(all[i as int]));
            }
        }
        assert(all.take(self.locks.len() as int) =~= all);
        self.locks = kept;
    }
}

impl Store {
    /// In one go: a status for the row, the event that says so, and the lock
    /// of the deploy given back. Nobody can see that a deploy has ended while
    /// its lock is still held.
    pub fn finish_deploy_with_event(
        &mut self,
        deploy_id: i64,
        status: DeployStatus,
        detail: Option<String>,
    ) -> (stored: Result<StoredEvent, Failure>)
        requires
            old(self)@.valid(),
        ensures
            final(self)@ == old(self)@.finish_deploy_with_event(
                deploy_id,
                status,
                detail.deep_view(),
            ).0,
            old(self)@.finish_deploy_with_event(deploy_id, status, detail.deep_view()).1 == (
            match stored {
                Ok(stored) => StoreReplyView::Event(stored@),
                Err(failure) => StoreReplyView::Failed(failure@),
            }),
            final(self)@.valid(),
    {
        proof {
            law_answer_keeps_valid(
                self@,
                StoreCallView::FinishDeployWithEvent {
                    deploy_id,
                    status,
                    detail: detail.deep_view(),
                },
            );
        }
        let row = match self.deploy(deploy_id) {
            None => return Err(Failure::new("no such deploy")),
            Some(row) => row,
        };
        let event = Event {
            deploy_id,
            kind: EventKind::Finished { status },
            detail: copied(&detail),
        };
        let stored = match self.append_event(event) {
            Err(failure) => return Err(failure),
            Ok(stored) => stored,
        };
        let app = row.app.clone();
        self.replace_row(DeployRow { status, detail, ..row });
        self.retain_locks(Rule::NotHeld { app: &app, deploy_id });
        Ok(stored)
    }

    /// The lock of the app given back, if it is held.
    pub fn release_lock(&mut self, app: &str)
        requires
            old(self)@.valid(),
        ensures
            final(self)@ == old(self)@.answer(StoreCallView::ReleaseLock { name: app@ }).0,
            final(self)@.valid(),
    {
        proof {
            law_answer_keeps_valid(self@, StoreCallView::ReleaseLock { name: app@ });
        }
        let app = app.to_string();
        self.retain_locks(Rule::NotOf { app: &app });
    }

    /// Every lock given back whose deploy is not in progress; the apps that
    /// they were of.
    pub fn release_orphaned_locks(&mut self) -> (apps: Vec<String>)
        requires
            old(self)@.valid(),
        ensures
            final(self)@ == old(self)@.answer(StoreCallView::ReleaseOrphanedLocks).0,
            apps.deep_view() == old(self)@.orphans(),
            final(self)@.valid(),
    {
        proof {
            law_answer_keeps_valid(self@, StoreCallView::ReleaseOrphanedLocks);
        }
        let mut apps: Vec<String> = Vec::new();
        let ghost all = self@.locks;
        let ghost pred = |lock: LockView| !self@.in_progress(lock.deploy_id);
        let ghost app_of = |lock: LockView| lock.app;
        proof {
            reveal(Seq::filter);
            assert(apps.deep_view() =~= all.take(0).filter(pred).map_values(app_of));
        }
        for i in 0..self.locks.len()
            invariant
                self@ == old(self)@,
                self@.valid(),
                all == self.locks.deep_view(),
                pred == (|lock: LockView| !self@.in_progress(lock.deploy_id)),
                app_of == (|lock: LockView| lock.app),
                apps.deep_view() == all.take(i as int).filter(pred).map_values(app_of),
        {
            proof {
                lemma_filter_step(all, i as int, pred);
            }
            let ghost before = apps.deep_view();
            if !self.is_in_progress(self.locks[i].deploy_id) {
                apps.push(self.locks[i].app.clone());
                assert(apps.deep_view() =~= before.push(all[i as int].app));
                assert(apps.deep_view() =~= all.take(i + 1).filter(pred).map_values(app_of));
            }
        }
        assert(all.take(self.locks.len() as int) =~= all);
        self.retain_locks(Rule::Alive);
        apps
    }

    /// The spec of an app that was deployed.
    pub fn put_spec(&mut self, name: &str, slug: &str, json: &str)
        requires
            old(self)@.valid(),
        ensures
            final(self)@ == old(self)@.answer(
                StoreCallView::PutSpec { name: name@, slug: slug@, json: json@ },
            ).0,
            final(self)@.valid(),
    {
        let ghost before = self.specs.deep_view();
        self.specs.push(
            StoredSpec { name: name.to_string(), slug: slug.to_string(), json: json.to_string() },
        );
        assert(self.specs.deep_view().drop_last() =~= before);
        assert(self@ =~= old(self)@.answer(
            StoreCallView::PutSpec { name: name@, slug: slug@, json: json@ },
        ).0);
    }

    /// The spec that the last successful deploy of the app stored.
    pub fn current_spec(&self, name: &str) -> (json: Option<String>)
        ensures
            json.deep_view() == (if self@.specs.contains_key(name@) {
                Some(self@.specs[name@].json)
            } else {
                None
            }),
    {
        let wanted = name.to_string();
        let ghost all = self.specs.deep_view();
        let mut i: usize = self.specs.len();
        assert(all.take(i as int) =~= all);
        while i > 0
            invariant
                wanted@ == name@,
                all == self.specs.deep_view(),
                i <= self.specs.len(),
                by_name(all).contains_key(name@) == by_name(all.take(i as int)).contains_key(name@),
                by_name(all).contains_key(name@) ==> by_name(all)[name@] == by_name(
                    all.take(i as int),
                )[name@],
            decreases i,
        {
            i = i - 1;
            assert(all.take(i + 1).drop_last() =~= all.take(i as int));
            if self.specs[i].name == wanted {
                return Some(self.specs[i].json.clone());
            }
        }
        None
    }

    /// Every row that is still in progress, in the order of the ids.
    pub fn in_progress_deploys(&self) -> (rows: Vec<DeployRow>)
        ensures
            rows.deep_view() == self@.in_progress_rows(),
    {
        let mut rows: Vec<DeployRow> = Vec::new();
        let ghost all = self@.rows;
        let ghost pred = unfinished();
        proof {
            reveal(Seq::filter);
            assert(rows.deep_view() =~= all.take(0).filter(pred));
        }
        for i in 0..self.rows.len()
            invariant
                all == self.rows.deep_view(),
                pred == unfinished(),
                rows.deep_view() == all.take(i as int).filter(pred),
        {
            proof {
                lemma_filter_step(all, i as int, pred);
            }
            let ghost before = rows.deep_view();
            if self.rows[i].status == DeployStatus::InProgress {
                rows.push(self.rows[i].clone());
                assert(rows.deep_view() =~= before.push(all[i as int]));
            }
        }
        assert(all.take(self.rows.len() as int) =~= all);
        rows
    }

    /// Performs a request of the engine.
    pub fn answer(&mut self, call: StoreCall<'_>) -> (reply: StoreReply)
        requires
            old(self)@.valid(),
        ensures
            final(self)@ == old(self)@.answer(call@).0,
            reply@ == old(self)@.answer(call@).1,
            final(self)@.valid(),
    {
        match call {
            StoreCall::CreateDeploy { name } => match self.create_deploy(name) {
                Ok(id) => StoreReply::Created(id),
                Err(failure) => StoreReply::Failed(failure),
            },
            StoreCall::AcquireLock { name, deploy_id } => StoreReply::Lock {
                granted: self.acquire_lock(name, deploy_id),
            },
            StoreCall::FinishDeploy { deploy_id, status, detail } => match self.finish_deploy(
                deploy_id,
                status,
                detail,
            ) {
                Ok(()) => StoreReply::Done,
                Err(failure) => StoreReply::Failed(failure),
            },
            StoreCall::ReleaseLock { name } => {
                self.release_lock(name);
                StoreReply::Done
            },
            StoreCall::CurrentSpec { name } => StoreReply::Spec(self.current_spec(name)),
            StoreCall::AdvanceStage { deploy_id, stage } => match self.advance_stage(
                deploy_id,
                stage,
            ) {
                Ok(()) => StoreReply::Done,
                Err(failure) => StoreReply::Failed(failure),
            },
            StoreCall::AppendEvent { event } => match self.append_event(event) {
                Ok(stored) => StoreReply::Event(stored),
                Err(failure) => StoreReply::Failed(failure),
            },
            StoreCall::FinishDeployWithEvent { deploy_id, status, detail } =>
                match self.finish_deploy_with_event(deploy_id, status, detail) {
                    Ok(stored) => StoreReply::Event(stored),
                    Err(failure) => StoreReply::Failed(failure),
                },
            StoreCall::PutSpec { name, slug, json } => {
                self.put_spec(name, slug, json);
                StoreReply::Done
            },
            StoreCall::InProgressDeploys => StoreReply::Rows(self.in_progress_deploys()),
            StoreCall::ReleaseOrphanedLocks => StoreReply::Apps(self.release_orphaned_locks()),
        }
    }
}

/// Which locks are kept.
enum Rule<'a> {
    NotOf { app: &'a String },
    NotHeld { app: &'a String, deploy_id: i64 },
    Alive,
}

impl<'a> Rule<'a> {
    closed spec fn keeps(self, store: StoreView) -> spec_fn(LockView) -> bool {
        match self {
            Rule::NotOf { app } => not_of(app@),
            Rule::NotHeld { app, deploy_id } => not_held(app@, deploy_id),
            Rule::Alive => store.alive(),
        }
    }
}

} // verus!
