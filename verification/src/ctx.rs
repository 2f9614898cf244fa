//! Where a deploy runs: the ledger, the subscriber that watches, and what the
//! world outside replies.

use crate::deployment::made_durable;
use crate::model::{StoredEvent, StoredEventView};
use crate::protocol::{Reply, ReplyView, Request, RequestView, StoreReply, StoreReplyView};
use crate::store::{law_answer_is_admitted, Store, StoreView};
use crate::text::Failure;
use vstd::prelude::*;

verus! {

/// A ledger, the events that were published, and the replies that are still to
/// come.
///
/// Requests to the host and to the codec take the replies one after the other.
/// Where the reply that is next does not fit, or none is left, no reply ever
/// comes: the process died there. Requests to the store take the faults one
/// after the other. Where the next is a failure, the request fails with it and
/// nothing is written; where it is none, or none is left, the ledger answers.
#[derive(Debug, PartialEq, Eq)]
pub struct Ctx<Plan> {
    pub store: Store,
    pub sink: Vec<StoredEvent>,
    pub faults: Vec<Option<Failure>>,
    pub replies: Vec<Reply<Plan>>,
}

pub struct CtxView<Plan> {
    pub store: StoreView,
    pub sink: Seq<StoredEventView>,
    pub faults: Seq<Option<Seq<Seq<char>>>>,
    pub replies: Seq<ReplyView<Plan>>,
}

impl<Plan> View for Ctx<Plan> {
    type V = CtxView<Plan>;

    open spec fn view(&self) -> CtxView<Plan> {
        CtxView {
            store: self.store@,
            sink: self.sink.deep_view(),
            faults: self.faults.deep_view(),
            replies: self.replies.deep_view(),
        }
    }
}

impl<Plan> CtxView<Plan> {
    /// The failure that a request to the store meets, if it meets one, after
    /// `earlier` other such requests.
    pub open spec fn fault(self, earlier: int) -> Option<Seq<Seq<char>>> {
        if 0 <= earlier < self.faults.len() {
            self.faults[earlier]
        } else {
            None
        }
    }

    /// Whether the store never fails but for what it holds.
    pub open spec fn faultless(self) -> bool {
        forall|i: int| self.fault(i) is None
    }

    /// The place after so many requests to the store, as far as faults go.
    pub open spec fn spent(self, count: int) -> CtxView<Plan> {
        CtxView {
            faults: if count <= self.faults.len() {
                self.faults.skip(count)
            } else {
                Seq::empty()
            },
            ..self
        }
    }

    /// The reply to a request, if one comes.
    pub open spec fn reply(self, request: RequestView<Plan>) -> Option<ReplyView<Plan>> {
        match request {
            RequestView::Store(call) => match self.fault(0) {
                Some(error) => Some(ReplyView::Store(StoreReplyView::Failed(error))),
                None => Some(ReplyView::Store(self.store.answer(call).1)),
            },
            _ => if self.replies.len() > 0 && request.admits(self.replies[0]) {
                Some(self.replies[0])
            } else {
                None
            },
        }
    }

    /// The place after a request was replied to.
    pub open spec fn replied(self, request: RequestView<Plan>) -> CtxView<Plan> {
        match request {
            RequestView::Store(call) => CtxView {
                store: if self.fault(0) is Some {
                    self.store
                } else {
                    self.store.answer(call).0
                },
                ..self.spent(1)
            },
            _ => CtxView { replies: self.replies.drop_first(), ..self },
        }
    }

    /// The place after the event that a reply made durable was published.
    pub open spec fn published(self, reply: ReplyView<Plan>) -> CtxView<Plan> {
        match made_durable(reply) {
            Some(event) => CtxView { sink: self.sink.push(event), ..self },
            None => self,
        }
    }
}

/// Faults are spent one after the other.
pub proof fn lemma_spent<Plan>(ctx: CtxView<Plan>, first: int, then: int)
    requires
        0 <= first,
        0 <= then,
    ensures
        ctx.spent(0) == ctx,
        ctx.spent(first).spent(then) == ctx.spent(first + then),
        ctx.spent(first).fault(then) == ctx.fault(first + then),
{
    assert(ctx.spent(0).faults =~= ctx.faults);
    assert(ctx.spent(first).spent(then).faults =~= ctx.spent(first + then).faults);
}

/// A reply that comes is one that the request can get.
pub proof fn law_reply_is_admitted<Plan>(ctx: CtxView<Plan>, request: RequestView<Plan>)
    ensures
        ctx.reply(request) is Some ==> request.admits(ctx.reply(request)->0),
{
    if let RequestView::Store(call) = request {
        law_answer_is_admitted(ctx.store, call);
    }
}

impl<Plan> Ctx<Plan> {
    /// A place with a ledger that does not fail and the replies to come, where
    /// nothing was published.
    pub fn new(store: Store, replies: Vec<Reply<Plan>>) -> (ctx: Ctx<Plan>)
        ensures
            ctx@ == (CtxView {
                store: store@,
                sink: Seq::empty(),
                faults: Seq::empty(),
                replies: replies.deep_view(),
            }),
    {
        let ctx = Ctx { store, sink: Vec::new(), faults: Vec::new(), replies };
        assert(ctx@.sink =~= Seq::empty());
        assert(ctx@.faults =~= Seq::empty());
        ctx
    }

    /// Has a request replied to, if a reply comes.
    pub fn perform(&mut self, request: Request<'_, Plan>) -> (reply: Option<Reply<Plan>>)
        requires
            old(self)@.store.valid(),
        ensures
            reply.deep_view() == old(self)@.reply(request@),
            final(self)@ == (if reply is Some {
                old(self)@.replied(request@)
            } else {
                old(self)@
            }),
            final(self)@.store.valid(),
            reply is Some ==> request@.admits(reply->0@),
    {
        proof {
            law_reply_is_admitted(self@, request@);
        }
        match request {
            Request::Store(call) => {
                let fault: Option<Failure> = if self.faults.len() > 0 {
                    self.faults.remove(0)
                } else {
                    None
                };
                assert(self@.faults =~= old(self)@.spent(1).faults);
                match fault {
                    Some(failure) => Some(Reply::Store(StoreReply::Failed(failure))),
                    None => Some(Reply::Store(self.store.answer(call))),
                }
            },
            request => {
                let ghost before = self@.replies;
                if self.replies.len() > 0 && request.admits(&self.replies[0]) {
                    let reply = self.replies.remove(0);
                    assert(self@.replies =~= before.drop_first());
                    Some(reply)
                } else {
                    None
                }
            },
        }
    }

    /// Publishes an event.
    pub fn publish(&mut self, event: Option<StoredEvent>)
        ensures
            final(self)@ == (CtxView {
                sink: match event.deep_view() {
                    Some(event) => old(self)@.sink.push(event),
                    None => old(self)@.sink,
                },
                ..old(self)@
            }),
    {
        let ghost before = self@.sink;
        if let Some(event) = event {
            self.sink.push(event);
            assert(self@.sink =~= before.push(event@));
        }
    }
}

} // verus!
