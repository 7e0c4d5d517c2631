//! The result channel: a FIFO handoff of completed records from request
//! tasks to the render loop.
//!
//! `send` appends and never waits on the consumer; `try_receive` pops the
//! oldest pending record and never waits on the producer — with nothing
//! pending it reports so at once. Records are delivered in send order and
//! none is dropped.

use crate::record::ResponseRecord;
use vstd::prelude::*;

verus! {

/// What `send` does to the pending queue: the record joins the back.
pub open spec fn send_model(q: Seq<ResponseRecord>, r: ResponseRecord) -> Seq<ResponseRecord> {
    q.push(r)
}

/// What `try_receive` returns and leaves behind: the oldest pending record
/// leaves the front, or nothing changes when nothing is pending.
pub open spec fn receive_model(q: Seq<ResponseRecord>) -> (Option<ResponseRecord>, Seq<
    ResponseRecord,
>) {
    if q.len() == 0 {
        (None, q)
    } else {
        (Some(q[0]), q.drop_first())
    }
}

/// The channel that carries completed records to the render loop.
pub struct ResultChannel {
    queue: Vec<ResponseRecord>,
}

impl View for ResultChannel {
    type V = Seq<ResponseRecord>;

    /// The records sent but not yet received, oldest first.
    closed spec fn view(&self) -> Seq<ResponseRecord> {
        self.queue@
    }
}

impl ResultChannel {
    /// Every pending record is well-formed.
    pub open spec fn wf(&self) -> bool {
        forall|i: int| 0 <= i < self@.len() ==> (#[trigger] self@[i]).wf()
    }

    /// A channel with nothing pending.
    pub fn new() -> (r: Self)
        ensures
            r@ == Seq::<ResponseRecord>::empty(),
            r.wf(),
    {
        ResultChannel { queue: Vec::new() }
    }

    /// How many records are pending.
    pub fn pending(&self) -> (n: usize)
        ensures
            n == self@.len(),
    {
        self.queue.len()
    }

    /// Hand a completed record over. The producer never waits: the record
    /// joins the back of the queue and every earlier record stays pending.
    pub fn send(&mut self, record: ResponseRecord)
        requires
            old(self).wf(),
            record.wf(),
        ensures
            final(self).wf(),
            final(self)@ == send_model(old(self)@, record),
    {
        self.queue.push(record);
    }

    /// Poll for the next record. With nothing pending this returns `None`
    /// at once and changes nothing; it never waits for a producer.
    pub fn try_receive(&mut self) -> (r: Option<ResponseRecord>)
        requires
            old(self).wf(),
        ensures
            final(self).wf(),
            r == receive_model(old(self)@).0,
            final(self)@ == receive_model(old(self)@).1,
            r is Some ==> r.unwrap().wf(),
    {
        if self.queue.len() == 0 {
            None
        } else {
            let record = self.queue.remove(0);
            proof {
                assert(old(self)@.remove(0) =~= old(self)@.drop_first());
                assert forall|i: int| 0 <= i < self@.len() implies (#[trigger] self@[i]).wf() by {
                    assert(self@[i] == old(self)@[i + 1]);
                }
            }
            Some(record)
        }
    }
}

/// A record sent and then polled comes back identical: on an idle channel
/// the next poll returns exactly the record that was sent, leaving the
/// channel idle again; on a busy channel the record waits its turn behind
/// the ones sent before it.
pub proof fn lemma_send_receive_round_trip(q: Seq<ResponseRecord>, r: ResponseRecord)
    ensures
        q.len() == 0 ==> receive_model(send_model(q, r)) == (
            Some(r),
            Seq::<ResponseRecord>::empty(),
        ),
        q.len() > 0 ==> receive_model(send_model(q, r)) == (
            Some(q[0]),
            q.drop_first().push(r),
        ),
{
    if q.len() == 0 {
        assert(send_model(q, r).drop_first() =~= Seq::<ResponseRecord>::empty());
    } else {
        assert(send_model(q, r).drop_first() =~= q.drop_first().push(r));
    }
}

/// Delivery keeps send order: the records pending after a send are the ones
/// that were pending, in order, followed by the one just sent, so no record
/// is dropped and none overtakes another.
pub proof fn lemma_send_keeps_order(q: Seq<ResponseRecord>, r: ResponseRecord)
    ensures
        send_model(q, r).len() == q.len() + 1,
        forall|i: int| 0 <= i < q.len() ==> send_model(q, r)[i] == q[i],
        send_model(q, r)[q.len() as int] == r,
{
}

} // verus!
