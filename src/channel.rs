use vstd::prelude::*;
use ringbuf::Rb;
use ringbuf::HeapRb;
use ringbuf::HeapProducer;
use ringbuf::HeapConsumer;
use crate::message::Message;

verus! {

/// Enqueuing `m` on a channel holding `q` with capacity `cap`: what it then
/// holds, and whether `m` was taken.
pub open spec fn enqueue_effect(q: Seq<Message>, cap: nat, m: Message) -> (Seq<Message>, bool) {
    if q.len() < cap {
        (q.push(m), true)
    } else {
        (q, false)
    }
}

/// Dequeuing from a channel holding `q`: what it then holds, and what came out.
pub open spec fn dequeue_effect(q: Seq<Message>) -> (Seq<Message>, Option<Message>) {
    if q.len() == 0 {
        (q, None)
    } else {
        (q.drop_first(), Some(q[0]))
    }
}

/// Enqueuing each of `ms` in turn: what the channel then holds, and for each
/// message whether it was taken.
pub open spec fn enqueue_all(q: Seq<Message>, cap: nat, ms: Seq<Message>) -> (Seq<Message>, Seq<bool>)
    decreases ms.len(),
{
    if ms.len() == 0 {
        (q, Seq::empty())
    } else {
        let (q1, oks) = enqueue_all(q, cap, ms.drop_last());
        let (q2, ok) = enqueue_effect(q1, cap, ms.last());
        (q2, oks.push(ok))
    }
}

/// Dequeuing `n` times: what the channel then holds, and what came out each time.
pub open spec fn dequeue_times(q: Seq<Message>, n: nat) -> (Seq<Message>, Seq<Option<Message>>)
    decreases n,
{
    if n == 0 {
        (q, Seq::empty())
    } else {
        let (q1, outs) = dequeue_times(q, (n - 1) as nat);
        let (q2, out) = dequeue_effect(q1);
        (q2, outs.push(out))
    }
}

proof fn lemma_enqueue_all_fits(q: Seq<Message>, cap: nat, ms: Seq<Message>)
    requires
        q.len() + ms.len() <= cap,
    ensures
        enqueue_all(q, cap, ms) == (q + ms, Seq::new(ms.len(), |i: int| true)),
    decreases ms.len(),
{
    if ms.len() > 0 {
        lemma_enqueue_all_fits(q, cap, ms.drop_last());
        assert(q + ms.drop_last() + seq![ms.last()] == q + ms);
        assert((q + ms.drop_last()).push(ms.last()) == q + ms);
        assert(Seq::new((ms.len() - 1) as nat, |i: int| true).push(true) == Seq::new(ms.len(), |i: int| true));
    }
}

proof fn lemma_enqueue_all_full(q: Seq<Message>, cap: nat, ms: Seq<Message>)
    requires
        q.len() >= cap,
    ensures
        enqueue_all(q, cap, ms) == (q, Seq::new(ms.len(), |i: int| false)),
    decreases ms.len(),
{
    if ms.len() > 0 {
        lemma_enqueue_all_full(q, cap, ms.drop_last());
        assert(Seq::new((ms.len() - 1) as nat, |i: int| false).push(false) == Seq::new(ms.len(), |i: int| false));
    }
}

proof fn lemma_dequeue_times(q: Seq<Message>, n: nat)
    requires
        n <= q.len(),
    ensures
        dequeue_times(q, n) == (q.skip(n as int), q.take(n as int).map_values(|m: Message| Some(m))),
    decreases n,
{
    if n > 0 {
        lemma_dequeue_times(q, (n - 1) as nat);
        assert(q.skip(n - 1).drop_first() == q.skip(n as int));
        assert(q.take(n as int).map_values(|m: Message| Some(m)) == q.take(n - 1).map_values(|m: Message| Some(m)).push(Some(q[n - 1])));
    }
}

/// A channel is first in, first out: when a channel holding `q` has room for
/// all of `ms`, each is taken, and dequeuing as many times as it then holds
/// yields `q` and then `ms`, in order, and leaves it empty. On a channel that
/// is full, every further enqueue is refused and what it holds stays as it was.
pub proof fn lemma_channel_fifo(q: Seq<Message>, cap: nat, ms: Seq<Message>)
    ensures
        q.len() + ms.len() <= cap ==> enqueue_all(q, cap, ms) == (q + ms, Seq::new(ms.len(), |i: int| true)),
        dequeue_times(q + ms, (q + ms).len()) == (Seq::<Message>::empty(), (q + ms).map_values(|m: Message| Some(m))),
        q.len() >= cap ==> enqueue_all(q, cap, ms) == (q, Seq::new(ms.len(), |i: int| false)),
{
    if q.len() + ms.len() <= cap {
        lemma_enqueue_all_fits(q, cap, ms);
    }
    if q.len() >= cap {
        lemma_enqueue_all_full(q, cap, ms);
    }
    lemma_dequeue_times(q + ms, (q + ms).len());
    assert((q + ms).skip((q + ms).len() as int) == Seq::<Message>::empty());
    assert((q + ms).take((q + ms).len() as int) == q + ms);
}

/// A bounded first-in first-out queue of route changes that never grows.
///
/// It holds a ringbuf `HeapRb`, which Verus sees only through the wrappers
/// below.
#[verifier::external_body]
pub struct ControlChannel {
    rb: HeapRb<Message>,
}

/// The messages waiting in a channel, oldest first.
pub uninterp spec fn queued(c: ControlChannel) -> Seq<Message>;

/// The fixed capacity a channel was made with.
pub uninterp spec fn channel_capacity(c: ControlChannel) -> nat;

impl View for ControlChannel {
    type V = Seq<Message>;

    open spec fn view(&self) -> Seq<Message> {
        queued(*self)
    }
}

impl ControlChannel {
    /// The number of messages the channel can hold.
    pub open spec fn capacity_spec(&self) -> nat {
        channel_capacity(*self)
    }

    /// An empty channel holding at most `capacity` messages.
    ///
    /// Relies on ringbuf's `HeapRb::new`: an empty buffer of the given
    /// capacity (it panics on zero).
    #[verifier::external_body]
    fn rb_new(capacity: usize) -> (r: ControlChannel)
        requires
            capacity > 0,
        ensures
            queued(r) == Seq::<Message>::empty(),
            channel_capacity(r) == capacity,
    {
        ControlChannel { rb: HeapRb::new(capacity) }
    }

    /// Appends `m` at the back, or hands it back when the channel is full.
    ///
    /// Relies on ringbuf's `Rb::push`: the item is appended unless the buffer
    /// is full, in which case it is returned and nothing changes.
    #[verifier::external_body]
    fn rb_push(&mut self, m: Message) -> (r: Result<(), Message>)
        ensures
            channel_capacity(*final(self)) == channel_capacity(*old(self)),
            queued(*old(self)).len() < channel_capacity(*old(self)) ==> r is Ok && queued(*final(self)) == queued(*old(self)).push(m),
            queued(*old(self)).len() >= channel_capacity(*old(self)) ==> r is Err && r->Err_0 == m && queued(*final(self)) == queued(*old(self)),
    {
        self.rb.push(m)
    }

    /// Removes and returns the oldest message, or `None` when the channel is empty.
    ///
    /// Relies on ringbuf's `Rb::pop`: the oldest item leaves, `None` when empty.
    #[verifier::external_body]
    fn rb_pop(&mut self) -> (r: Option<Message>)
        ensures
            channel_capacity(*final(self)) == channel_capacity(*old(self)),
            queued(*old(self)).len() == 0 ==> r is None && queued(*final(self)) == queued(*old(self)),
            queued(*old(self)).len() > 0 ==> r == Some(queued(*old(self))[0]) && queued(*final(self)) == queued(*old(self)).drop_first(),
    {
        self.rb.pop()
    }

    /// The number of messages waiting.
    ///
    /// Relies on ringbuf's `Rb::len`: the number of items held.
    #[verifier::external_body]
    fn rb_len(&self) -> (r: usize)
        ensures
            r == queued(*self).len(),
    {
        self.rb.len()
    }

    /// The number of messages the channel can hold.
    ///
    /// Relies on ringbuf's `Rb::capacity`: the capacity it was made with.
    #[verifier::external_body]
    fn rb_capacity(&self) -> (r: usize)
        ensures
            r == channel_capacity(*self),
    {
        self.rb.capacity()
    }

    /// Parts the channel into a sending end and a receiving end, one for each thread.
    ///
    /// Relies on ringbuf's `SharedRb::split`: both ends share the buffer.
    #[verifier::external_body]
    fn rb_split(self) -> (r: (CommandSender, CommandReceiver))
        ensures
            receiver_capacity(r.1) == channel_capacity(self),
    {
        let (tx, rx) = self.rb.split();
        (CommandSender { tx }, CommandReceiver { rx })
    }

    /// An empty channel holding at most `capacity` messages.
    pub fn new(capacity: usize) -> (r: ControlChannel)
        requires
            capacity > 0,
        ensures
            r@ == Seq::<Message>::empty(),
            r.capacity_spec() == capacity,
    {
        ControlChannel::rb_new(capacity)
    }

    /// Appends `m` at the back, or hands it back unchanged when the channel is
    /// full; a full channel keeps what it held.
    pub fn try_enqueue(&mut self, m: Message) -> (r: Result<(), Message>)
        ensures
            final(self).capacity_spec() == old(self).capacity_spec(),
            (final(self)@, r is Ok) == enqueue_effect(old(self)@, old(self).capacity_spec(), m),
            r is Err ==> r->Err_0 == m,
    {
        self.rb_push(m)
    }

    /// Removes and returns the oldest message, or `None` when the channel is empty.
    pub fn try_dequeue(&mut self) -> (r: Option<Message>)
        ensures
            final(self).capacity_spec() == old(self).capacity_spec(),
            (final(self)@, r) == dequeue_effect(old(self)@),
    {
        self.rb_pop()
    }

    /// The number of messages waiting.
    pub fn len(&self) -> (r: usize)
        ensures
            r == self@.len(),
    {
        self.rb_len()
    }

    /// The number of messages the channel can hold.
    pub fn capacity(&self) -> (r: usize)
        ensures
            r == self.capacity_spec(),
    {
        self.rb_capacity()
    }

    /// Parts the channel into a sending end and a receiving end, one for each
    /// thread; the receiving end keeps the capacity.
    pub fn split(self) -> (r: (CommandSender, CommandReceiver))
        ensures
            receiver_capacity(r.1) == self.capacity_spec(),
    {
        self.rb_split()
    }
}

/// The sending end of a parted channel. What it holds changes only as this
/// end and the receiving end act, each on its own thread.
#[verifier::external_body]
pub struct CommandSender {
    tx: HeapProducer<Message>,
}

/// The receiving end of a parted channel.
#[verifier::external_body]
pub struct CommandReceiver {
    rx: HeapConsumer<Message>,
}

/// The capacity of the channel a receiving end belongs to.
pub uninterp spec fn receiver_capacity(c: CommandReceiver) -> nat;

impl CommandSender {
    /// Appends `m` to the shared buffer, or hands it back when the buffer is full.
    ///
    /// Relies on ringbuf's `Producer::push`: on failure the item comes back.
    /// Whether it fails depends on the other thread.
    #[verifier::external_body]
    fn producer_push(&mut self, m: Message) -> (r: Result<(), Message>)
        ensures
            r is Err ==> r->Err_0 == m,
    {
        self.tx.push(m)
    }

    /// Appends `m` to the shared buffer, or hands it back when the buffer is
    /// full. Whether it is full depends on the receiving thread.
    pub fn try_enqueue(&mut self, m: Message) -> (r: Result<(), Message>)
        ensures
            r is Err ==> r->Err_0 == m,
    {
        self.producer_push(m)
    }
}

impl CommandReceiver {
    /// Removes and returns the oldest message, or `None` when none is waiting.
    ///
    /// Relies on ringbuf's `Consumer::pop`. What comes back depends on the
    /// other thread, so nothing is stated of it.
    #[verifier::external_body]
    fn consumer_pop(&mut self) -> (r: Option<Message>)
        ensures
            receiver_capacity(*final(self)) == receiver_capacity(*old(self)),
    {
        self.rx.pop()
    }

    /// The capacity of the channel this end belongs to.
    ///
    /// Relies on ringbuf's `Consumer::capacity`.
    #[verifier::external_body]
    fn consumer_capacity(&self) -> (r: usize)
        ensures
            r == receiver_capacity(*self),
    {
        self.rx.capacity()
    }

    /// Removes and returns the oldest message, or `None` when none is waiting.
    /// What comes back depends on the sending thread.
    pub fn try_dequeue(&mut self) -> (r: Option<Message>)
        ensures
            receiver_capacity(*final(self)) == receiver_capacity(*old(self)),
    {
        self.consumer_pop()
    }

    /// The capacity of the channel this end belongs to.
    pub fn capacity(&self) -> (r: usize)
        ensures
            r == receiver_capacity(*self),
    {
        self.consumer_capacity()
    }
}

} // verus!
