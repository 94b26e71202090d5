//! The message router: one ordered, unbounded queue of outbound messages for each
//! connection. Whoever holds a connection's `Channel` may put a message into its queue;
//! the connection's forwarding task takes the messages out, oldest first, and writes them
//! to the socket.

use crate::text::texts;
use std::collections::VecDeque;
use vstd::prelude::*;

verus! {

/// The handle of one connection's queue. Handles are plain numbers: one that the router
/// never gave out names no queue, and what is sent to it is dropped.
#[derive(Copy, Clone, Debug, PartialEq, Eq, Structural)]
pub struct Channel {
    pub id: usize,
}

/// One connection's queue.
#[derive(Debug)]
pub struct Queue {
    /// Whether the connection still takes messages.
    pub open: bool,
    /// The messages that wait to be written, oldest first.
    pub pending: VecDeque<String>,
}

/// A queue as contracts see it.
pub struct QueueView {
    pub open: bool,
    pub pending: Seq<Seq<char>>,
}

impl View for Queue {
    type V = QueueView;

    open spec fn view(&self) -> QueueView {
        QueueView { open: self.open, pending: texts(self.pending@) }
    }
}

/// All queues, each at the index that its channel names.
#[derive(Debug)]
pub struct Router {
    pub queues: Vec<Queue>,
}

impl View for Router {
    type V = Seq<QueueView>;

    open spec fn view(&self) -> Seq<QueueView> {
        Seq::new(self.queues@.len(), |i: int| self.queues@[i]@)
    }
}

/// What a forwarding task finds when it asks for the next message.
#[derive(Debug)]
pub enum Delivery {
    /// The oldest waiting message, now taken out of the queue.
    Message(String),
    /// Nothing waits, and the queue is open: more may come.
    Idle,
    /// Nothing waits, and nothing will come: the task is done.
    Closed,
}

/// A delivery as contracts see it.
pub enum DeliveryView {
    Message(Seq<char>),
    Idle,
    Closed,
}

impl View for Delivery {
    type V = DeliveryView;

    open spec fn view(&self) -> DeliveryView {
        match self {
            Delivery::Message(s) => DeliveryView::Message(s@),
            Delivery::Idle => DeliveryView::Idle,
            Delivery::Closed => DeliveryView::Closed,
        }
    }
}

/// Whether a message sent to `to` is queued rather than dropped.
pub open spec fn takes(r: Seq<QueueView>, to: Channel) -> bool {
    to.id < r.len() && r[to.id as int].open
}

/// The queues after a new one was opened.
pub open spec fn opened(r: Seq<QueueView>) -> Seq<QueueView> {
    r.push(QueueView { open: true, pending: Seq::empty() })
}

/// The queues after `text` was sent to `to`: it waits behind what waited there, or is
/// dropped where `to` names no open queue.
pub open spec fn sent(r: Seq<QueueView>, to: Channel, text: Seq<char>) -> Seq<QueueView> {
    if takes(r, to) {
        r.update(
            to.id as int,
            QueueView { open: true, pending: r[to.id as int].pending.push(text) },
        )
    } else {
        r
    }
}

/// A message on its way: to whom, and what.
pub struct Letter {
    pub to: Channel,
    pub text: Seq<char>,
}

/// The queues after each of `letters` was sent, the first one first.
pub open spec fn sent_each(r: Seq<QueueView>, letters: Seq<Letter>) -> Seq<QueueView>
    decreases letters.len(),
{
    if letters.len() == 0 {
        r
    } else {
        sent(sent_each(r, letters.drop_last()), letters.last().to, letters.last().text)
    }
}

/// The texts of those of `letters` that go to `to`, in their order.
pub open spec fn texts_for(letters: Seq<Letter>, to: Channel) -> Seq<Seq<char>>
    decreases letters.len(),
{
    if letters.len() == 0 {
        Seq::empty()
    } else if letters.last().to == to {
        texts_for(letters.drop_last(), to).push(letters.last().text)
    } else {
        texts_for(letters.drop_last(), to)
    }
}

/// What the task of `from` is handed next.
pub open spec fn next_delivery(r: Seq<QueueView>, from: Channel) -> DeliveryView {
    if from.id >= r.len() {
        DeliveryView::Closed
    } else if r[from.id as int].pending.len() > 0 {
        DeliveryView::Message(r[from.id as int].pending[0])
    } else if r[from.id as int].open {
        DeliveryView::Idle
    } else {
        DeliveryView::Closed
    }
}

/// The queues after the task of `from` was handed its next delivery.
pub open spec fn received(r: Seq<QueueView>, from: Channel) -> Seq<QueueView> {
    if from.id < r.len() && r[from.id as int].pending.len() > 0 {
        r.update(
            from.id as int,
            QueueView {
                open: r[from.id as int].open,
                pending: r[from.id as int].pending.drop_first(),
            },
        )
    } else {
        r
    }
}

/// The queues after the task of `from` was handed `n` deliveries.
pub open spec fn received_n(r: Seq<QueueView>, from: Channel, n: nat) -> Seq<QueueView>
    decreases n,
{
    if n == 0 {
        r
    } else {
        received(received_n(r, from, (n - 1) as nat), from)
    }
}

/// The queues after `of` was closed: what waits there stays, and nothing is added.
pub open spec fn closed(r: Seq<QueueView>, of: Channel) -> Seq<QueueView> {
    if of.id < r.len() {
        r.update(of.id as int, QueueView { open: false, pending: r[of.id as int].pending })
    } else {
        r
    }
}

impl Router {
    /// A router without queues.
    pub fn new() -> (r: Router)
        ensures
            r@ == Seq::<QueueView>::empty(),
    {
        Router { queues: Vec::new() }
    }

    /// Opens a queue for a new connection and returns its handle.
    pub fn open(&mut self) -> (c: Channel)
        ensures
            c.id == old(self)@.len(),
            final(self)@ == opened(old(self)@),
    {
        let id = self.queues.len();
        self.queues.push(Queue { open: true, pending: VecDeque::new() });
        assert(self@ =~= opened(old(self)@)) by {
            assert(self@[id as int].pending =~= Seq::<Seq<char>>::empty());
        }
        Channel { id }
    }

    /// Sends `message` to `to`. It is dropped where `to` names no open queue.
    pub fn send(&mut self, to: Channel, message: String)
        ensures
            final(self)@ == sent(old(self)@, to, message@),
    {
        if to.id < self.queues.len() && self.queues[to.id].open {
            self.queues[to.id].pending.push_back(message);
            assert(self@ =~= sent(old(self)@, to, message@)) by {
                assert(self@[to.id as int].pending =~= old(self)@[to.id as int].pending.push(
                    message@,
                ));
            }
        }
    }

    /// Hands the task of `from` its next delivery: the oldest waiting message, which
    /// leaves the queue, or the news that nothing waits.
    pub fn recv(&mut self, from: Channel) -> (d: Delivery)
        ensures
            d@ == next_delivery(old(self)@, from),
            final(self)@ == received(old(self)@, from),
    {
        if from.id >= self.queues.len() {
            return Delivery::Closed;
        }
        match self.queues[from.id].pending.pop_front() {
            Some(message) => {
                assert(self@ =~= received(old(self)@, from)) by {
                    let waited = old(self)@[from.id as int].pending;
                    assert(self@[from.id as int].pending =~= waited.drop_first());
                }
                Delivery::Message(message)
            },
            None => {
                assert(self@ =~= old(self)@);
                if self.queues[from.id].open {
                    Delivery::Idle
                } else {
                    Delivery::Closed
                }
            },
        }
    }

    /// Closes the queue of `of`: what is sent to it from now on is dropped.
    pub fn close(&mut self, of: Channel)
        ensures
            final(self)@ == closed(old(self)@, of),
    {
        if of.id < self.queues.len() {
            self.queues[of.id].open = false;
        }
    }

    /// Whether a message sent to `to` would be queued.
    pub fn is_open(&self, to: Channel) -> (b: bool)
        ensures
            b == takes(self@, to),
    {
        to.id < self.queues.len() && self.queues[to.id].open
    }

    /// How many messages wait in the queue of `of`.
    pub fn waiting(&self, of: Channel) -> (n: usize)
        ensures
            n == if of.id < self@.len() {
                self@[of.id as int].pending.len()
            } else {
                0
            },
    {
        if of.id < self.queues.len() {
            self.queues[of.id].pending.len()
        } else {
            0
        }
    }
}

/// Order is kept whatever else is sent: after any letters were sent, those for an open
/// channel wait in its queue in the order in which they were sent, behind what waited
/// there before, and the letters for other channels have put nothing in between.
pub proof fn lemma_order_is_kept(r: Seq<QueueView>, letters: Seq<Letter>, to: Channel)
    requires
        takes(r, to),
    ensures
        sent_each(r, letters).len() == r.len(),
        takes(sent_each(r, letters), to),
        sent_each(r, letters)[to.id as int].pending == r[to.id as int].pending + texts_for(
            letters,
            to,
        ),
    decreases letters.len(),
{
    if letters.len() > 0 {
        lemma_order_is_kept(r, letters.drop_last(), to);
    }
}

/// The task of a channel is handed the waiting messages oldest first: after `k`
/// deliveries the next one is the message that was at place `k`, and the later ones
/// still wait in their order.
pub proof fn lemma_received_in_order(r: Seq<QueueView>, from: Channel, k: nat)
    requires
        from.id < r.len(),
        k <= r[from.id as int].pending.len(),
    ensures
        received_n(r, from, k).len() == r.len(),
        received_n(r, from, k)[from.id as int].open == r[from.id as int].open,
        received_n(r, from, k)[from.id as int].pending == r[from.id as int].pending.skip(k as int),
        k < r[from.id as int].pending.len() ==> next_delivery(received_n(r, from, k), from)
            == DeliveryView::Message(r[from.id as int].pending[k as int]),
    decreases k,
{
    if k > 0 {
        lemma_received_in_order(r, from, (k - 1) as nat);
    }
}

/// First in, first out: of the letters sent to an open channel, among whatever other
/// letters, the one sent at place `i` is the one delivered at place `i` after those
/// that waited there before.
pub proof fn lemma_first_in_first_out(r: Seq<QueueView>, letters: Seq<Letter>, to: Channel, i: int)
    requires
        takes(r, to),
        0 <= i < texts_for(letters, to).len(),
    ensures
        next_delivery(
            received_n(sent_each(r, letters), to, (r[to.id as int].pending.len() + i) as nat),
            to,
        ) == DeliveryView::Message(texts_for(letters, to)[i]),
{
    lemma_order_is_kept(r, letters, to);
    lemma_received_in_order(sent_each(r, letters), to, (r[to.id as int].pending.len() + i) as nat);
}

} // verus!
