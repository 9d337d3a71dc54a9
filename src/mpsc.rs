use std::cell::Cell;
use std::collections::VecDeque;
use std::rc::Rc;
use vstd::prelude::*;

verus! {

/// Why a receive produced no value.
#[derive(Debug, Clone, Copy, PartialEq, Eq, Structural)]
pub enum ReceiveError {
    /// Nothing is queued right now, but more may still arrive.
    Empty,
    /// Nothing is queued and nothing ever will be.
    Closed,
}

/// A send on a closed channel: the value comes back to the caller.
#[derive(Debug)]
pub struct SendError<T> {
    pub value: T,
}

/// The abstract state of a channel.
pub ghost struct ChannelView<T> {
    pub queue: Seq<T>,
    pub senders: nat,
    pub closed: bool,
}

/// The queue, the number of live senders and the closed flag of one channel.
pub struct ChannelState<T> {
    queue: VecDeque<T>,
    senders: usize,
    closed: bool,
}

impl<T> View for ChannelState<T> {
    type V = ChannelView<T>;

    closed spec fn view(&self) -> ChannelView<T> {
        ChannelView { queue: self.queue@, senders: self.senders as nat, closed: self.closed }
    }
}

/// One operation on a channel, by any of its handles.
pub enum ChannelEvent<T> {
    Send(T),
    Recv,
    Close,
    AddSender,
    DropSender,
}

/// The most senders a channel counts; `Rc` cannot count past it either.
pub const MAX_SENDERS: usize = usize::MAX;

impl<T> ChannelView<T> {
    /// Without senders the channel is closed.
    pub open spec fn wf(self) -> bool {
        self.senders == 0 ==> self.closed
    }

    /// What `send(v)` hands back.
    pub open spec fn send_result(self, v: T) -> Result<(), SendError<T>> {
        if self.closed {
            Err(SendError { value: v })
        } else {
            Ok(())
        }
    }

    /// The state after `send(v)`: the value joins the tail unless the channel is closed.
    pub open spec fn send(self, v: T) -> ChannelView<T> {
        if self.closed {
            self
        } else {
            ChannelView { queue: self.queue.push(v), ..self }
        }
    }

    /// What `recv` hands back: the head if there is one, else `Closed` or `Empty`.
    pub open spec fn recv_result(self) -> Result<T, ReceiveError> {
        if self.queue.len() > 0 {
            Ok(self.queue[0])
        } else if self.closed {
            Err(ReceiveError::Closed)
        } else {
            Err(ReceiveError::Empty)
        }
    }

    /// The state after `recv`: the head, if any, is gone.
    pub open spec fn recv(self) -> ChannelView<T> {
        if self.queue.len() > 0 {
            ChannelView { queue: self.queue.drop_first(), ..self }
        } else {
            self
        }
    }

    pub open spec fn close(self) -> ChannelView<T> {
        ChannelView { closed: true, ..self }
    }

    pub open spec fn add_sender(self) -> ChannelView<T> {
        if self.senders < MAX_SENDERS {
            ChannelView { senders: self.senders + 1, ..self }
        } else {
            self
        }
    }

    /// The state after a sender goes away: the last one closes the channel.
    pub open spec fn drop_sender(self) -> ChannelView<T> {
        if self.senders <= 1 {
            ChannelView { senders: 0, closed: true, ..self }
        } else {
            ChannelView { senders: (self.senders - 1) as nat, ..self }
        }
    }

    pub open spec fn step(self, e: ChannelEvent<T>) -> ChannelView<T> {
        match e {
            ChannelEvent::Send(v) => self.send(v),
            ChannelEvent::Recv => self.recv(),
            ChannelEvent::Close => self.close(),
            ChannelEvent::AddSender => self.add_sender(),
            ChannelEvent::DropSender => self.drop_sender(),
        }
    }

    /// The state after the events, in order.
    pub open spec fn run(self, es: Seq<ChannelEvent<T>>) -> ChannelView<T>
        decreases es.len(),
    {
        if es.len() == 0 {
            self
        } else {
            self.step(es[0]).run(es.drop_first())
        }
    }

    /// The values that the sends among `es` put into the queue, in order.
    pub open spec fn accepted(self, es: Seq<ChannelEvent<T>>) -> Seq<T>
        decreases es.len(),
    {
        if es.len() == 0 {
            seq![]
        } else {
            let now = match es[0] {
                ChannelEvent::Send(v) => if self.closed {
                    seq![]
                } else {
                    seq![v]
                },
                _ => seq![],
            };
            now + self.step(es[0]).accepted(es.drop_first())
        }
    }

    /// The values that the receives among `es` hand out, in order.
    pub open spec fn delivered(self, es: Seq<ChannelEvent<T>>) -> Seq<T>
        decreases es.len(),
    {
        if es.len() == 0 {
            seq![]
        } else {
            let now = match es[0] {
                ChannelEvent::Recv => match self.recv_result() {
                    Ok(v) => seq![v],
                    Err(_) => seq![],
                },
                _ => seq![],
            };
            now + self.step(es[0]).delivered(es.drop_first())
        }
    }

    /// The state after sending each of `xs`, in order.
    pub open spec fn send_all(self, xs: Seq<T>) -> ChannelView<T>
        decreases xs.len(),
    {
        if xs.len() == 0 {
            self
        } else {
            self.send_all(xs.drop_last()).send(xs.last())
        }
    }

    /// The state after `k` senders went away.
    pub open spec fn drop_senders(self, k: nat) -> ChannelView<T>
        decreases k,
    {
        if k == 0 {
            self
        } else {
            self.drop_senders((k - 1) as nat).drop_sender()
        }
    }

    /// What `n` successive receives hand back.
    pub open spec fn drain(self, n: nat) -> Seq<Result<T, ReceiveError>>
        decreases n,
    {
        if n == 0 {
            seq![]
        } else {
            seq![self.recv_result()] + self.recv().drain((n - 1) as nat)
        }
    }
}

/// Each value as a successful receive.
pub open spec fn received<T>(q: Seq<T>) -> Seq<Result<T, ReceiveError>> {
    q.map_values(|v: T| Ok(v))
}

impl<T> ChannelState<T> {
    pub fn new() -> (s: Self)
        ensures
            s@ == (ChannelView::<T> { queue: seq![], senders: 1, closed: false }),
            s@.wf(),
    {
        ChannelState { queue: VecDeque::new(), senders: 1, closed: false }
    }

    pub fn send(&mut self, value: T) -> (r: Result<(), SendError<T>>)
        ensures
            final(self)@ == old(self)@.send(value),
            r == old(self)@.send_result(value),
    {
        if self.closed {
            Err(SendError { value })
        } else {
            self.queue.push_back(value);
            Ok(())
        }
    }

    pub fn recv(&mut self) -> (r: Result<T, ReceiveError>)
        ensures
            final(self)@ == old(self)@.recv(),
            r == old(self)@.recv_result(),
    {
        match self.queue.pop_front() {
            Some(v) => Ok(v),
            None => {
                if self.closed {
                    Err(ReceiveError::Closed)
                } else {
                    Err(ReceiveError::Empty)
                }
            },
        }
    }

    pub fn close(&mut self)
        ensures
            final(self)@ == old(self)@.close(),
        opens_invariants none
        no_unwind
    {
        self.closed = true;
    }

    pub fn is_closed(&self) -> (r: bool)
        ensures
            r == self@.closed,
    {
        self.closed
    }

    pub fn add_sender(&mut self)
        ensures
            final(self)@ == old(self)@.add_sender(),
    {
        if self.senders < MAX_SENDERS {
            self.senders = self.senders + 1;
        }
    }

    pub fn drop_sender(&mut self)
        ensures
            final(self)@ == old(self)@.drop_sender(),
        opens_invariants none
        no_unwind
    {
        if self.senders <= 1 {
            self.senders = 0;
            self.closed = true;
        } else {
            self.senders = self.senders - 1;
        }
    }
}

// Every handle of a channel holds an `Rc` of one cell, and the channel's state
// lives in that cell. An operation takes the state out, applies one of the
// `ChannelState` methods above, whose contracts are exact, and puts it back.
// Other handles may act between two calls on one handle, so a handle's own
// contract states only what holds whatever they did; the laws below state
// what holds of any sequence of operations.

/// `std::cell::Cell`, opaque to proofs.
#[verifier::external_type_specification]
#[verifier::external_body]
#[verifier::reject_recursive_types(T)]
pub struct ExCell<T: ?Sized>(std::cell::Cell<T>);

/// Relies on std::cell::Cell::replace: stores `s` in the cell and returns
/// what it held before.
#[verifier::external_body]
fn swap_state<T>(cell: &Cell<Option<ChannelState<T>>>, s: Option<ChannelState<T>>) -> (r: Option<
    ChannelState<T>,
>)
    opens_invariants none
    no_unwind
{
    cell.replace(s)
}

/// Relies on std::cell::Cell::new: a cell that holds `s`.
#[verifier::external_body]
fn new_cell<T>(s: Option<ChannelState<T>>) -> (r: Cell<Option<ChannelState<T>>>) {
    Cell::new(s)
}

/// Relies on std::rc::Rc::ptr_eq: whether two handles point to one allocation.
#[verifier::external_body]
fn same_allocation<T>(a: &Rc<T>, b: &Rc<T>) -> (r: bool) {
    Rc::ptr_eq(a, b)
}

/// A handle that puts values into a channel; it may be cloned freely.
#[verifier::reject_recursive_types(T)]
pub struct Sender<T> {
    shared: Rc<Cell<Option<ChannelState<T>>>>,
}

impl<T> Sender<T> {
    /// Appends `value` to the queue, or hands it back when the channel is closed.
    pub fn send(&self, value: T) -> (r: Result<(), SendError<T>>)
        ensures
            r is Err ==> r->Err_0.value == value,
    {
        match swap_state(&self.shared, None) {
            Some(mut st) => {
                let r = st.send(value);
                let _ = swap_state(&self.shared, Some(st));
                r
            },
            None => Err(SendError { value }),
        }
    }

    /// Whether the channel will never deliver another value.
    pub fn is_closed(&self) -> bool {
        match swap_state(&self.shared, None) {
            Some(st) => {
                let r = st.is_closed();
                let _ = swap_state(&self.shared, Some(st));
                r
            },
            None => true,
        }
    }

    /// Whether both senders belong to the same channel.
    pub fn same_channel(&self, other: &Self) -> bool {
        same_allocation(&self.shared, &other.shared)
    }
}

// The state leaves its cell only for the length of one of the calls below,
// so each of them finds it there; were it missing, the channel counts as closed.
impl<T> Clone for Sender<T> {
    fn clone(&self) -> Self {
        if let Some(mut st) = swap_state(&self.shared, None) {
            st.add_sender();
            let _ = swap_state(&self.shared, Some(st));
        }
        Sender { shared: self.shared.clone() }
    }
}

impl<T> Drop for Sender<T> {
    fn drop(&mut self)
        opens_invariants none
        no_unwind
    {
        if let Some(mut st) = swap_state(&self.shared, None) {
            st.drop_sender();
            let _ = swap_state(&self.shared, Some(st));
        }
    }
}

/// The one handle that takes values out of a channel.
#[verifier::reject_recursive_types(T)]
pub struct Receiver<T> {
    shared: Rc<Cell<Option<ChannelState<T>>>>,
    finished: bool,
    shut: bool,
}

impl<T> Receiver<T> {
    /// Whether a receive has already reported `Closed`.
    pub closed spec fn is_finished(&self) -> bool {
        self.finished
    }

    /// Whether this receiver has closed the channel.
    pub closed spec fn is_shut(&self) -> bool {
        self.shut
    }

    /// Takes the head of the queue; `Empty` when nothing is queued yet,
    /// `Closed` when nothing is queued and nothing can come.
    pub fn recv(&mut self) -> (r: Result<T, ReceiveError>)
        ensures
            old(self).is_finished() ==> r == Err::<T, ReceiveError>(ReceiveError::Closed),
            old(self).is_shut() ==> r != Err::<T, ReceiveError>(ReceiveError::Empty),
            final(self).is_finished() == (old(self).is_finished() || r == Err::<T, ReceiveError>(
                ReceiveError::Closed,
            )),
            final(self).is_shut() == old(self).is_shut(),
    {
        if self.finished {
            return Err(ReceiveError::Closed);
        }
        let r = match swap_state(&self.shared, None) {
            Some(mut st) => {
                if self.shut {
                    st.close();
                }
                let r = st.recv();
                let _ = swap_state(&self.shared, Some(st));
                r
            },
            None => Err(ReceiveError::Closed),
        };
        if let Err(ReceiveError::Closed) = r {
            self.finished = true;
        }
        r
    }

    /// Closes the channel; what is queued can still be received.
    pub fn close(&mut self)
        ensures
            final(self).is_shut(),
            final(self).is_finished() == old(self).is_finished(),
    {
        if let Some(mut st) = swap_state(&self.shared, None) {
            st.close();
            let _ = swap_state(&self.shared, Some(st));
        }
        self.shut = true;
    }
}

impl<T> Drop for Receiver<T> {
    fn drop(&mut self)
        opens_invariants none
        no_unwind
    {
        if let Some(mut st) = swap_state(&self.shared, None) {
            st.close();
            let _ = swap_state(&self.shared, Some(st));
        }
    }
}

/// A new channel with one sender and its receiver.
pub fn channel<T>() -> (r: (Sender<T>, Receiver<T>))
    ensures
        !r.1.is_finished(),
        !r.1.is_shut(),
{
    let cell = new_cell(Some(ChannelState::new()));
    let shared = Rc::new(cell);
    let sender = Sender { shared: shared.clone() };
    (sender, Receiver { shared, finished: false, shut: false })
}

/// Receiving `n` times from a state that holds at least `n` values hands out
/// its first `n` values in order, whether or not the channel is closed.
pub proof fn lemma_drain_prefix<T>(s: ChannelView<T>, n: nat)
    requires
        n <= s.queue.len(),
    ensures
        s.drain(n) == received(s.queue.take(n as int)),
    decreases n,
{
    if n > 0 {
        lemma_drain_prefix(s.recv(), (n - 1) as nat);
        assert(s.drain(n) =~= received(s.queue.take(n as int)));
    }
}

/// Receiving past everything queued in a closed channel hands out the queue in
/// order, then `Closed`.
pub proof fn lemma_drain_closed<T>(s: ChannelView<T>)
    requires
        s.closed,
    ensures
        s.drain(s.queue.len() + 1) == received(s.queue).push(Err(ReceiveError::Closed)),
    decreases s.queue.len(),
{
    if s.queue.len() > 0 {
        lemma_drain_closed(s.recv());
        assert(s.drain(s.queue.len() + 1) =~= received(s.queue).push(Err(ReceiveError::Closed)));
    } else {
        assert(s.recv().drain(0) =~= seq![]);
        assert(s.drain(1) =~= seq![s.recv_result()]);
        assert(received(s.queue) =~= seq![]);
    }
}

/// Sending to an open channel appends each value at the tail, in order.
pub proof fn lemma_send_all<T>(s: ChannelView<T>, xs: Seq<T>)
    requires
        !s.closed,
    ensures
        s.send_all(xs) == (ChannelView { queue: s.queue + xs, ..s }),
    decreases xs.len(),
{
    if xs.len() > 0 {
        lemma_send_all(s, xs.drop_last());
        assert((s.queue + xs.drop_last()).push(xs.last()) =~= s.queue + xs);
    } else {
        assert(s.queue + xs =~= s.queue);
    }
}

/// Global FIFO: whatever sender each value went through, successive receives
/// hand out the queued values and then the sent ones, in send order, with
/// nothing lost or repeated.
pub proof fn lemma_fifo<T>(s: ChannelView<T>, xs: Seq<T>)
    requires
        !s.closed,
    ensures
        s.send_all(xs).drain(s.queue.len() + xs.len()) == received(s.queue + xs),
{
    lemma_send_all(s, xs);
    let t = s.send_all(xs);
    lemma_drain_prefix(t, (s.queue.len() + xs.len()) as nat);
    assert(t.queue.take(t.queue.len() as int) =~= t.queue);
}

/// Global FIFO over any run of events by any handles: what was queued, then
/// what the sends put in, is exactly what the receives handed out followed by
/// what is still queued; nothing is lost, repeated or reordered.
pub proof fn lemma_fifo_events<T>(s: ChannelView<T>, es: Seq<ChannelEvent<T>>)
    ensures
        s.queue + s.accepted(es) == s.delivered(es) + s.run(es).queue,
    decreases es.len(),
{
    if es.len() == 0 {
        assert(s.queue + s.accepted(es) =~= s.delivered(es) + s.run(es).queue);
    } else {
        let t = s.step(es[0]);
        let rest = es.drop_first();
        lemma_fifo_events(t, rest);
        match es[0] {
            ChannelEvent::Send(v) => {
                assert(s.queue + s.accepted(es) =~= t.queue + t.accepted(rest));
                assert(s.delivered(es) =~= t.delivered(rest));
            },
            ChannelEvent::Recv => {
                if s.queue.len() > 0 {
                    assert(s.queue =~= seq![s.queue[0]] + t.queue);
                    assert(s.delivered(es) =~= seq![s.queue[0]] + t.delivered(rest));
                    assert(s.queue + s.accepted(es) =~= seq![s.queue[0]] + (t.queue + t.accepted(rest)));
                    assert(s.delivered(es) + s.run(es).queue =~= seq![s.queue[0]] + (t.delivered(rest)
                        + t.run(rest).queue));
                } else {
                    assert(s.delivered(es) =~= t.delivered(rest));
                    assert(s.queue + s.accepted(es) =~= t.queue + t.accepted(rest));
                }
            },
            _ => {
                assert(s.delivered(es) =~= t.delivered(rest));
                assert(s.queue + s.accepted(es) =~= t.queue + t.accepted(rest));
            },
        }
    }
}

/// A channel without senders is closed, and stays so whatever happens next.
pub proof fn lemma_wf_preserved<T>(s: ChannelView<T>, es: Seq<ChannelEvent<T>>)
    requires
        s.wf(),
    ensures
        s.run(es).wf(),
    decreases es.len(),
{
    if es.len() > 0 {
        lemma_wf_preserved(s.step(es[0]), es.drop_first());
    }
}

/// Once a receive reports `Closed`, every later receive does too, whatever
/// any handle does in between.
pub proof fn lemma_closed_is_final<T>(s: ChannelView<T>, es: Seq<ChannelEvent<T>>)
    requires
        s.recv_result() == Err::<T, ReceiveError>(ReceiveError::Closed),
    ensures
        s.run(es).recv_result() == Err::<T, ReceiveError>(ReceiveError::Closed),
    decreases es.len(),
{
    if es.len() > 0 {
        lemma_closed_is_final(s.step(es[0]), es.drop_first());
    }
}

/// A closed channel stays closed, whatever any handle does.
pub proof fn lemma_closed_stays<T>(s: ChannelView<T>, es: Seq<ChannelEvent<T>>)
    requires
        s.closed,
    ensures
        s.run(es).closed,
    decreases es.len(),
{
    if es.len() > 0 {
        lemma_closed_stays(s.step(es[0]), es.drop_first());
    }
}

/// What was queued before the channel closed, by the receiver or by its last
/// sender going away, is still received in order; then comes `Closed`.
pub proof fn lemma_drain_before_close<T>(s: ChannelView<T>, e: ChannelEvent<T>)
    requires
        e == ChannelEvent::<T>::Close || (e == ChannelEvent::<T>::DropSender && s.senders <= 1),
    ensures
        s.step(e).drain(s.queue.len() + 1) == received(s.queue).push(Err(ReceiveError::Closed)),
{
    lemma_drain_closed(s.step(e));
}

/// With `n` senders, the channel closes once all `n` are gone, and not before:
/// after fewer it is as closed as it was.
pub proof fn lemma_last_sender_closes<T>(s: ChannelView<T>, k: nat)
    requires
        s.senders >= 1,
        k <= s.senders,
    ensures
        s.drop_senders(k).closed == (s.closed || k == s.senders),
        s.drop_senders(k).queue == s.queue,
        s.drop_senders(k).senders == s.senders - k,
    decreases k,
{
    if k > 0 {
        lemma_last_sender_closes(s, (k - 1) as nat);
    }
}

/// Once all senders are gone, receiving past what is queued ends in `Closed`.
pub proof fn lemma_senders_gone<T>(s: ChannelView<T>)
    requires
        s.senders >= 1,
    ensures
        s.drop_senders(s.senders).drain(s.queue.len() + 1) == received(s.queue).push(
            Err(ReceiveError::Closed),
        ),
{
    lemma_last_sender_closes(s, s.senders);
    lemma_drain_closed(s.drop_senders(s.senders));
}

/// Once the receiver has closed the channel, or is gone, every send, now or
/// after any events, fails and hands its value back.
pub proof fn lemma_receiver_gone<T>(s: ChannelView<T>, es: Seq<ChannelEvent<T>>, v: T)
    ensures
        s.close().run(es).closed,
        s.close().run(es).send_result(v) == Err::<(), SendError<T>>(SendError { value: v }),
        s.close().run(es).send(v) == s.close().run(es),
{
    lemma_closed_stays(s.close(), es);
}

} // verus!
