//! How the place where a deploy runs replies.

use crate::ctx::{lemma_spent, CtxView};
use crate::protocol::{ReplyView, RequestView, StoreCallView, StoreReplyView};
use vstd::prelude::*;

verus! {

/// A request to the store that meets a fault fails with it and changes nothing
/// but that the fault is spent. One that meets none is answered by the ledger.
/// Either way the other faults, the replies to come and what was published stay.
pub proof fn law_store_fails_or_answers<Plan>(ctx: CtxView<Plan>, call: StoreCallView, i: int)
    requires
        0 <= i,
    ensures
        ({
            let request = RequestView::<Plan>::Store(call);
            let then = ctx.replied(request);
            &&& match ctx.fault(0) {
                Some(error) => {
                    &&& ctx.reply(request) == Some(
                        ReplyView::<Plan>::Store(StoreReplyView::Failed(error)),
                    )
                    &&& then.store == ctx.store
                },
                None => {
                    &&& ctx.reply(request) == Some(
                        ReplyView::<Plan>::Store(ctx.store.answer(call).1),
                    )
                    &&& then.store == ctx.store.answer(call).0
                },
            }
            &&& then.fault(i) == ctx.fault(i + 1)
            &&& then.replies == ctx.replies
            &&& then.sink == ctx.sink
        }),
{
    lemma_spent(ctx, 1, i);
}

/// The faults come in the order in which they are listed, and after the last one
/// there are none.
pub proof fn law_faults_in_order<Plan>(ctx: CtxView<Plan>, i: int)
    ensures
        0 <= i < ctx.faults.len() ==> ctx.fault(i) == ctx.faults[i],
        ctx.faults.len() <= i ==> ctx.fault(i) is None,
        ctx.faults.len() == 0 ==> ctx.faultless(),
        ctx.faultless() && 0 <= i < ctx.faults.len() ==> ctx.faults[i] is None,
{
    if ctx.faultless() && 0 <= i < ctx.faults.len() {
        assert(ctx.fault(i) is None);
    }
}

/// A request to the host or to the codec gets the first of the replies to come,
/// if that is a reply that it can get, and none otherwise. The ledger and its
/// faults stay.
pub proof fn law_replies_in_order<Plan>(ctx: CtxView<Plan>, request: RequestView<Plan>)
    requires
        !(request is Store),
    ensures
        ctx.reply(request) is Some <==> ctx.replies.len() > 0 && request.admits(ctx.replies[0]),
        ctx.reply(request) is Some ==> {
            &&& ctx.reply(request) == Some(ctx.replies[0])
            &&& ctx.replied(request).replies == ctx.replies.skip(1)
        },
        ctx.replied(request).store == ctx.store,
        ctx.replied(request).faults == ctx.faults,
        ctx.replied(request).sink == ctx.sink,
{
    if ctx.replies.len() > 0 {
        assert(ctx.replies.drop_first() =~= ctx.replies.skip(1));
    }
}

/// An event that was stored is published after what was published before, and
/// nothing else is. Publishing changes neither the ledger nor what is to come.
pub proof fn law_published_in_order<Plan>(ctx: CtxView<Plan>, reply: ReplyView<Plan>)
    ensures
        ctx.published(reply).sink == (match reply {
            ReplyView::Store(StoreReplyView::Event(event)) => ctx.sink.push(event),
            _ => ctx.sink,
        }),
        ctx.published(reply).store == ctx.store,
        ctx.published(reply).faults == ctx.faults,
        ctx.published(reply).replies == ctx.replies,
{
}

} // verus!
