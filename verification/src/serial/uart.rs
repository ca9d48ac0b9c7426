//! A 16550 UART, and the record of what it was asked.
//!
//! A [`Uart`] is reached through one function, which takes an operation and gives its reply.
//! Nothing else calls that function, so the record of a UART holds every operation in its order.
use vstd::prelude::*;

verus! {

/// The complete state of a UART.
#[derive(Debug, Default, Clone, PartialEq, Eq)]
pub struct UartState {
    pub baud_divisor_low: u8,
    pub baud_divisor_high: u8,
    pub interrupt_enable: u8,
    pub interrupt_identification: u8,
    pub line_control: u8,
    pub line_status: u8,
    pub modem_control: u8,
    pub modem_status: u8,
    pub scratch: u8,
    pub in_buffer: Vec<u8>,
}

/// What a [`UartState`] holds.
#[verifier::ext_equal]
pub struct UartStateView {
    pub baud_divisor_low: u8,
    pub baud_divisor_high: u8,
    pub interrupt_enable: u8,
    pub interrupt_identification: u8,
    pub line_control: u8,
    pub line_status: u8,
    pub modem_control: u8,
    pub modem_status: u8,
    pub scratch: u8,
    pub in_buffer: Seq<u8>,
}

impl View for UartState {
    type V = UartStateView;

    open spec fn view(&self) -> UartStateView {
        UartStateView {
            baud_divisor_low: self.baud_divisor_low,
            baud_divisor_high: self.baud_divisor_high,
            interrupt_enable: self.interrupt_enable,
            interrupt_identification: self.interrupt_identification,
            line_control: self.line_control,
            line_status: self.line_status,
            modem_control: self.modem_control,
            modem_status: self.modem_status,
            scratch: self.scratch,
            in_buffer: self.in_buffer@,
        }
    }
}

/// What a UART can be asked to do.
#[derive(Debug)]
pub enum UartOp {
    /// Read the register at an offset.
    Read(u8),
    /// Write a register.
    Write(u8, u8),
    /// Put input into the receive FIFO.
    Enqueue(Vec<u8>),
    /// Give the complete state.
    Capture,
    /// Take on a state, with its pending interrupts raised again.
    Rebuild(UartState),
}

/// How a UART answers.
#[derive(Debug)]
pub enum UartReply {
    /// The value that was read.
    Byte(u8),
    /// How many bytes of input went in.
    Accepted(usize),
    /// The complete state.
    State(UartState),
    /// It was done.
    Done,
    /// It could not be done; the text says why.
    Failed(String),
}

/// What a [`UartOp`] asks for.
pub enum UartOpView {
    Read(u8),
    Write(u8, u8),
    Enqueue(Seq<u8>),
    Capture,
    Rebuild(UartStateView),
}

impl View for UartOp {
    type V = UartOpView;

    open spec fn view(&self) -> UartOpView {
        match *self {
            UartOp::Read(offset) => UartOpView::Read(offset),
            UartOp::Write(offset, val) => UartOpView::Write(offset, val),
            UartOp::Enqueue(input) => UartOpView::Enqueue(input@),
            UartOp::Capture => UartOpView::Capture,
            UartOp::Rebuild(state) => UartOpView::Rebuild(state@),
        }
    }
}

/// What a [`UartReply`] says.
pub enum UartReplyView {
    Byte(u8),
    Accepted(usize),
    State(UartStateView),
    Done,
    Failed(Seq<char>),
}

impl View for UartReply {
    type V = UartReplyView;

    open spec fn view(&self) -> UartReplyView {
        match *self {
            UartReply::Byte(b) => UartReplyView::Byte(b),
            UartReply::Accepted(n) => UartReplyView::Accepted(n),
            UartReply::State(state) => UartReplyView::State(state@),
            UartReply::Done => UartReplyView::Done,
            UartReply::Failed(why) => UartReplyView::Failed(why@),
        }
    }
}

/// `uart` may reply so.
pub open spec fn may_reply<UART: Fn(UartOp) -> UartReply>(
    uart: UART,
    op: UartOpView,
    reply: UartReplyView,
) -> bool {
    exists|o: UartOp, r: UartReply|
        o@ == op && r@ == reply && #[trigger] call_ensures(uart, (o,), r)
}

/// An operation that the UART was asked to do, and its reply.
pub struct UartEvent {
    pub op: UartOpView,
    pub reply: UartReplyView,
}

/// From the record `then` to the record `now` the UART was asked to do `op`, and nothing else.
pub open spec fn asked(then: Seq<UartEvent>, now: Seq<UartEvent>, op: UartOpView) -> bool {
    now == then.push(now.last()) && now.last().op == op
}

/// From the record `then` to the record `now` the UART was asked to do `ops` in order, and nothing
/// else.
pub open spec fn asked_all(
    then: Seq<UartEvent>,
    now: Seq<UartEvent>,
    ops: Seq<UartOpView>,
) -> bool {
    &&& now.len() == then.len() + ops.len()
    &&& now.take(then.len() as int) == then
    &&& forall|j: int| 0 <= j < ops.len() ==> now[then.len() + j].op == #[trigger] ops[j]
}

/// A UART.
pub struct Uart<UART> {
    uart: UART,
    log: Ghost<Seq<UartEvent>>,
}

impl<UART> View for Uart<UART> {
    type V = Seq<UartEvent>;

    /// Everything that the UART was asked to do, oldest first.
    closed spec fn view(&self) -> Seq<UartEvent> {
        self.log@
    }
}

impl<UART> Uart<UART> {
    /// The function that reaches the UART.
    pub closed spec fn function(&self) -> UART {
        self.uart
    }
}

impl<UART: Fn(UartOp) -> UartReply> Uart<UART> {
    /// The UART takes every operation, and every reply on record is one that it gives.
    pub open spec fn wf(&self) -> bool {
        &&& forall|op: UartOp| call_requires(self.function(), (op,))
        &&& forall|i: int|
            0 <= i < self@.len() ==> may_reply(
                self.function(),
                (#[trigger] self@[i]).op,
                self@[i].reply,
            )
    }

    pub fn new(uart: UART) -> (u: Self)
        requires
            forall|op: UartOp| call_requires(uart, (op,)),
        ensures
            u.wf(),
            u.function() == uart,
            u@ == Seq::<UartEvent>::empty(),
    {
        Uart { uart, log: Ghost(Seq::empty()) }
    }

    /// Asks the UART to do `op`.
    pub fn ask(&mut self, op: UartOp) -> (r: UartReply)
        requires
            old(self).wf(),
        ensures
            final(self).wf(),
            final(self).function() == old(self).function(),
            final(self)@ == old(self)@.push(UartEvent { op: op@, reply: r@ }),
    {
        let ghost given = op;
        assert(call_requires(self.function(), (given,)));
        let r = (self.uart)(op);
        proof {
            assert(call_ensures(self.uart, (given,), r));
            assert(may_reply(self.uart, given@, r@));
            self.log = Ghost(self.log@.push(UartEvent { op: given@, reply: r@ }));
            assert forall|op: UartOp| call_requires(self.function(), (op,)) by {
                assert(call_requires(old(self).function(), (op,)));
            }
            assert forall|i: int| 0 <= i < self@.len() implies may_reply(
                self.function(),
                (#[trigger] self@[i]).op,
                self@[i].reply,
            ) by {
                if i < old(self)@.len() {
                    assert(may_reply(
                        old(self).function(),
                        old(self)@[i].op,
                        old(self)@[i].reply,
                    ));
                }
            }
        }
        r
    }
}

} // verus!
