//! 16550 serial console: what surrounds the UART itself.
//!
//! Here are the shadow of the guest's register programming, the capture of its output, and how
//! input is delivered and state is taken back.
use crate::bytes::{copy_range, push_all};
use crate::persist::{Persist, PersistError};
use vstd::prelude::*;

pub mod laws;
pub mod uart;

pub use uart::{Uart, UartOp, UartReply, UartState};

use uart::{UartEvent, UartOpView, UartReplyView, UartStateView};

verus! {

/// How many bytes of output are kept.
pub const MAX_OUTPUT: usize = 262144;

/// The divisor latch access bit of the line control register.
pub const LCR_DLAB: u8 = 0x80;

/// The last `n` bytes of `s`, or all where there are fewer.
pub open spec fn last_bytes(s: Seq<u8>, n: int) -> Seq<u8> {
    if s.len() <= n {
        s
    } else {
        s.skip(s.len() - n)
    }
}

/// The output of the guest, as much of it as is kept. The buffer has its full capacity from the
/// start, so that capturing never allocates.
pub struct SerialOut {
    pub buf: Vec<u8>,
}

impl View for SerialOut {
    type V = Seq<u8>;

    open spec fn view(&self) -> Seq<u8> {
        self.buf@
    }
}

impl SerialOut {
    /// No more is kept than may be.
    pub open spec fn wf(&self) -> bool {
        self@.len() <= MAX_OUTPUT
    }

    /// The buffer is one that `Vec::with_capacity` gave for as much as may be kept.
    pub open spec fn is_preallocated(&self) -> bool {
        call_ensures(Vec::<u8>::with_capacity, (MAX_OUTPUT,), self.buf)
    }

    pub fn new() -> (s: Self)
        ensures
            s@ == Seq::<u8>::empty(),
            s.wf(),
            s.is_preallocated(),
    {
        SerialOut { buf: Vec::with_capacity(MAX_OUTPUT) }
    }

    /// Captures output: the last bytes of all that came are kept.
    pub fn write(&mut self, bytes: &[u8])
        requires
            old(self).wf(),
        ensures
            final(self)@ == last_bytes(old(self)@ + bytes@, MAX_OUTPUT as int),
            final(self).wf(),
    {
        let ghost before = self.buf@;
        let from: usize = if bytes.len() > MAX_OUTPUT {
            bytes.len() - MAX_OUTPUT
        } else {
            0
        };
        let kept: usize = bytes.len() - from;
        let required: usize = self.buf.len() + kept;
        if required > MAX_OUTPUT {
            drop_front(&mut self.buf, required - MAX_OUTPUT);
        }
        let retained = vstd::slice::slice_subrange(bytes, from, bytes.len());
        push_all(&mut self.buf, retained);
        assert(self.buf@ =~= last_bytes(before + bytes@, MAX_OUTPUT as int));
    }

    /// Takes all output that was kept. What is left behind has its full capacity again.
    pub fn drain(&mut self) -> (out: Vec<u8>)
        ensures
            out@ == old(self)@,
            final(self)@ == Seq::<u8>::empty(),
            final(self).wf(),
            final(self).is_preallocated(),
    {
        let mut out: Vec<u8> = Vec::with_capacity(MAX_OUTPUT);
        std::mem::swap(&mut out, &mut self.buf);
        out
    }
}

/// Output in several pieces is kept as if it had come at once.
pub proof fn law_output_in_pieces(before: Seq<u8>, a: Seq<u8>, b: Seq<u8>)
    requires
        before.len() <= MAX_OUTPUT,
    ensures
        last_bytes(last_bytes(before + a, MAX_OUTPUT as int) + b, MAX_OUTPUT as int) == last_bytes(
            before + (a + b),
            MAX_OUTPUT as int,
        ),
{
    assert(last_bytes(last_bytes(before + a, MAX_OUTPUT as int) + b, MAX_OUTPUT as int)
        =~= last_bytes(before + (a + b), MAX_OUTPUT as int));
}

/// Takes the first `k` bytes out of `v`, in place.
fn drop_front(v: &mut Vec<u8>, k: usize)
    requires
        k <= old(v)@.len(),
    ensures
        final(v)@ == old(v)@.skip(k as int),
{
    let ghost before = v@;
    let n: usize = v.len();
    let mut i: usize = 0;
    while i < n - k
        invariant
            k <= n,
            i <= n - k,
            n == before.len(),
            v@.len() == n,
            forall|j: int| 0 <= j < i ==> v@[j] == before[j + k],
            forall|j: int| i <= j < n ==> v@[j] == before[j],
        decreases n - k - i,
    {
        let b: u8 = v[i + k];
        v.set(i, b);
        i += 1;
    }
    v.truncate(n - k);
    assert(v@ =~= before.skip(k as int));
}

/// Serial (16550 UART) register state that survives snapshot/restore: the registers that the
/// guest programmed.
#[derive(Debug, Default, Clone, Copy, PartialEq, Eq, Structural)]
pub struct SerialState {
    /// Interrupt Enable Register (offset 1, DLAB=0). Without bit 0 (RX-data-available) a restored
    /// UART never signals the guest that a byte arrived.
    pub ier: u8,
    /// FIFO Control Register (offset 2, write side).
    pub fcr: u8,
    /// Line Control Register (offset 3), including the DLAB bit.
    pub lcr: u8,
    /// Modem Control Register (offset 4).
    pub mcr: u8,
    /// Scratch register (offset 7).
    pub scr: u8,
    /// Divisor latch low byte (offset 0, DLAB=1).
    pub dll: u8,
    /// Divisor latch high byte (offset 1, DLAB=1).
    pub dlm: u8,
}

impl SerialState {
    pub open spec fn cleared() -> SerialState {
        SerialState { ier: 0, fcr: 0, lcr: 0, mcr: 0, scr: 0, dll: 0, dlm: 0 }
    }

    /// Offsets 0 and 1 are the divisor latch.
    pub open spec fn latched(self) -> bool {
        self.lcr & LCR_DLAB != 0
    }

    /// The registers after the guest wrote `val` at `offset`.
    pub open spec fn written(self, offset: u8, val: u8) -> SerialState {
        if offset == 0 && self.latched() {
            SerialState { dll: val, ..self }
        } else if offset == 1 && self.latched() {
            SerialState { dlm: val, ..self }
        } else if offset == 1 {
            SerialState { ier: val, ..self }
        } else if offset == 2 {
            SerialState { fcr: val, ..self }
        } else if offset == 3 {
            SerialState { lcr: val, ..self }
        } else if offset == 4 {
            SerialState { mcr: val, ..self }
        } else if offset == 7 {
            SerialState { scr: val, ..self }
        } else {
            self
        }
    }

    /// The registers after all of these writes.
    pub open spec fn written_all(self, writes: Seq<(u8, u8)>) -> SerialState
        decreases writes.len(),
    {
        if writes.len() == 0 {
            self
        } else {
            self.written(writes[0].0, writes[0].1).written_all(writes.skip(1))
        }
    }

    /// The writes that program these registers on a fresh UART.
    pub open spec fn replay(self) -> Seq<(u8, u8)> {
        let latch: Seq<(u8, u8)> = seq![
            (3u8, self.lcr | LCR_DLAB),
            (0u8, self.dll),
            (1u8, self.dlm),
            (3u8, self.lcr),
            (2u8, self.fcr),
            (4u8, self.mcr),
            (7u8, self.scr),
        ];
        if self.latched() {
            latch
        } else {
            latch.push((1u8, self.ier))
        }
    }

    /// Records a write of the guest.
    pub fn write(&mut self, offset: u8, val: u8)
        ensures
            *final(self) == old(self).written(offset, val),
    {
        let dlab = self.lcr & LCR_DLAB != 0;
        if offset == 0 && dlab {
            self.dll = val;
        } else if offset == 1 && dlab {
            self.dlm = val;
        } else if offset == 1 {
            self.ier = val;
        } else if offset == 2 {
            self.fcr = val;
        } else if offset == 3 {
            self.lcr = val;
        } else if offset == 4 {
            self.mcr = val;
        } else if offset == 7 {
            self.scr = val;
        }
    }

    /// The writes that program these registers on a fresh UART, in the order the guest would
    /// make them: the baud divisor under DLAB=1, then the real LCR, which sets the final DLAB,
    /// then the other registers.
    pub fn replay_writes(&self) -> (w: Vec<(u8, u8)>)
        ensures
            w@ == self.replay(),
    {
        let mut w: Vec<(u8, u8)> = vec![
            (3u8, self.lcr | LCR_DLAB),
            (0u8, self.dll),
            (1u8, self.dlm),
            (3u8, self.lcr),
            (2u8, self.fcr),
            (4u8, self.mcr),
            (7u8, self.scr),
        ];
        if self.lcr & LCR_DLAB == 0 {
            w.push((1u8, self.ier));
        }
        assert(w@ =~= self.replay());
        w
    }
}

/// Replaying saved registers programs each of them, whatever was there before. The interrupt
/// enable register cannot be reached while the divisor latch is open, and keeps its value then.
pub proof fn law_replay_programs_registers(start: SerialState, saved: SerialState)
    ensures
        start.written_all(saved.replay()) == (SerialState {
            ier: if saved.latched() {
                start.ier
            } else {
                saved.ier
            },
            ..saved
        }),
{
    let l = saved.lcr;
    assert((l | 0x80) & 0x80 != 0) by (bit_vector);
    let w = saved.replay();
    reveal_with_fuel(SerialState::written_all, 10);
    assert(w.skip(1).skip(1).skip(1).skip(1).skip(1).skip(1) =~= w.skip(6));
    assert(w.skip(1)[0] == w[1]);
    assert(w.skip(1).skip(1) =~= w.skip(2));
    assert(w.skip(2).skip(1) =~= w.skip(3));
    assert(w.skip(3).skip(1) =~= w.skip(4));
    assert(w.skip(4).skip(1) =~= w.skip(5));
    assert(w.skip(5).skip(1) =~= w.skip(6));
    assert(w.skip(6).skip(1) =~= w.skip(7));
    if !saved.latched() {
        assert(w.skip(7).skip(1) =~= w.skip(8));
    }
}

/// What a UART holds besides the registers that the guest programmed: pending interrupts, status
/// registers, and the receive FIFO.
#[derive(Debug, Default, Clone, PartialEq, Eq)]
pub struct SerialRuntimeState {
    pub interrupt_identification: u8,
    pub line_status: u8,
    pub modem_status: u8,
    pub in_buffer: Vec<u8>,
}

/// What a [`SerialRuntimeState`] holds.
#[verifier::ext_equal]
pub struct RuntimeView {
    pub interrupt_identification: u8,
    pub line_status: u8,
    pub modem_status: u8,
    pub in_buffer: Seq<u8>,
}

impl View for SerialRuntimeState {
    type V = RuntimeView;

    open spec fn view(&self) -> RuntimeView {
        RuntimeView {
            interrupt_identification: self.interrupt_identification,
            line_status: self.line_status,
            modem_status: self.modem_status,
            in_buffer: self.in_buffer@,
        }
    }
}

/// The state of a UART with these programmed registers and this runtime state.
pub open spec fn joined(state: SerialState, runtime: RuntimeView) -> UartStateView {
    UartStateView {
        baud_divisor_low: state.dll,
        baud_divisor_high: state.dlm,
        interrupt_enable: state.ier,
        interrupt_identification: runtime.interrupt_identification,
        line_control: state.lcr,
        line_status: runtime.line_status,
        modem_control: state.mcr,
        modem_status: runtime.modem_status,
        scratch: state.scr,
        in_buffer: runtime.in_buffer,
    }
}

/// The part of a UART's state that the guest did not program.
pub open spec fn runtime_of(u: UartStateView) -> RuntimeView {
    RuntimeView {
        interrupt_identification: u.interrupt_identification,
        line_status: u.line_status,
        modem_status: u.modem_status,
        in_buffer: u.in_buffer,
    }
}

/// A UART that was captured, and whose registers are those on record, is rebuilt as it was: no
/// received byte and no pending interrupt is lost.
pub proof fn law_snapshot_keeps_the_uart(u: UartStateView, shadow: SerialState)
    requires
        u.baud_divisor_low == shadow.dll,
        u.baud_divisor_high == shadow.dlm,
        u.interrupt_enable == shadow.ier,
        u.line_control == shadow.lcr,
        u.modem_control == shadow.mcr,
        u.scratch == shadow.scr,
    ensures
        joined(shadow, runtime_of(u)) == u,
{
}

impl UartState {
    /// Joins programmed registers and runtime state.
    pub fn join(state: &SerialState, runtime: &SerialRuntimeState) -> (u: Self)
        ensures
            u@ == joined(*state, runtime@),
    {
        let in_buffer = copy_range(runtime.in_buffer.as_slice(), 0, runtime.in_buffer.len());
        assert(in_buffer@ =~= runtime.in_buffer@);
        UartState {
            baud_divisor_low: state.dll,
            baud_divisor_high: state.dlm,
            interrupt_enable: state.ier,
            interrupt_identification: runtime.interrupt_identification,
            line_control: state.lcr,
            line_status: runtime.line_status,
            modem_control: state.mcr,
            modem_status: runtime.modem_status,
            scratch: state.scr,
            in_buffer,
        }
    }

    /// The runtime state alone.
    pub fn into_runtime(self) -> (r: SerialRuntimeState)
        ensures
            r@ == runtime_of(self@),
    {
        SerialRuntimeState {
            interrupt_identification: self.interrupt_identification,
            line_status: self.line_status,
            modem_status: self.modem_status,
            in_buffer: self.in_buffer,
        }
    }
}

/// Input that is on its way to the guest: a line, and how much of it the UART has taken.
pub struct SendLine {
    pub pending: Vec<u8>,
    pub off: usize,
}

/// How delivering a line stands.
#[derive(Debug, Copy, Clone, PartialEq, Eq, Structural)]
pub enum SendStep {
    /// All of it was taken.
    Sent,
    /// The guest did not take all of it in time; it may have part of the line.
    TimedOut,
    /// The guest is to be given time to drain the FIFO.
    Wait,
}

impl SendLine {
    pub open spec fn wf(&self) -> bool {
        self.off <= self.pending@.len()
    }

    /// What is still to be taken.
    pub open spec fn left(&self) -> Seq<u8> {
        self.pending@.skip(self.off as int)
    }

    /// A line made of `bytes` and a newline.
    pub fn new(bytes: &[u8]) -> (l: Self)
        ensures
            l.wf(),
            l.left() == bytes@.push(10u8),
    {
        let mut pending: Vec<u8> = Vec::new();
        push_all(&mut pending, bytes);
        pending.push(10u8);
        let l = SendLine { pending, off: 0 };
        assert(l.left() =~= bytes@.push(10u8));
        l
    }

    /// How delivery stands, where `expired` says that the time is up.
    pub fn outcome(&self, expired: bool) -> (s: SendStep)
        requires
            self.wf(),
        ensures
            s == (if self.left().len() == 0 {
                SendStep::Sent
            } else if expired {
                SendStep::TimedOut
            } else {
                SendStep::Wait
            }),
    {
        if self.off == self.pending.len() {
            SendStep::Sent
        } else if expired {
            SendStep::TimedOut
        } else {
            SendStep::Wait
        }
    }
}

/// What is left of input after the UART answered.
pub open spec fn left_after(left: Seq<u8>, reply: UartReplyView) -> Seq<u8> {
    match reply {
        UartReplyView::Accepted(n) => if n <= left.len() {
            left.skip(n as int)
        } else {
            left.skip(left.len() as int)
        },
        _ => left,
    }
}

/// What the UART took of input.
pub open spec fn taken_by(left: Seq<u8>, reply: UartReplyView) -> Seq<u8> {
    left.take(left.len() - left_after(left, reply).len())
}

/// What the UART took and what is handed to it next make up the line: no byte is lost between two
/// attempts, and none is handed over again.
pub proof fn law_line_is_delivered_in_order(left: Seq<u8>, reply: UartReplyView)
    ensures
        taken_by(left, reply) + left_after(left, reply) == left,
{
    assert(taken_by(left, reply) + left_after(left, reply) =~= left);
}

/// The operations that make these register writes.
pub open spec fn write_ops(writes: Seq<(u8, u8)>) -> Seq<UartOpView> {
    Seq::new(writes.len(), |j: int| UartOpView::Write(writes[j].0, writes[j].1))
}

/// A 16550 UART with a shadow of its writable registers, updated on every write, so that the
/// UART's configuration can be snapshotted and replayed.
pub struct Serial<UART> {
    pub uart: Uart<UART>,
    pub shadow: SerialState,
}

impl<UART: Fn(UartOp) -> UartReply> Serial<UART> {
    pub open spec fn wf(&self) -> bool {
        self.uart.wf()
    }

    /// The same UART, in a valid state.
    pub open spec fn same_uart(&self, other: &Self) -> bool {
        self.wf() && self.uart.function() == other.uart.function()
    }

    pub fn new(uart: UART) -> (s: Self)
        requires
            forall|op: UartOp| call_requires(uart, (op,)),
        ensures
            s.wf(),
            s.uart.function() == uart,
            s.uart@ == Seq::<UartEvent>::empty(),
            s.shadow == SerialState::cleared(),
    {
        Serial {
            uart: Uart::new(uart),
            shadow: SerialState { ier: 0, fcr: 0, lcr: 0, mcr: 0, scr: 0, dll: 0, dlm: 0 },
        }
    }

    /// Reads the register at `offset`.
    pub fn read(&mut self, offset: u8) -> (val: u8)
        requires
            old(self).wf(),
        ensures
            final(self).same_uart(old(self)),
            final(self).shadow == old(self).shadow,
            uart::asked(old(self).uart@, final(self).uart@, UartOpView::Read(offset)),
            val == (match final(self).uart@.last().reply {
                UartReplyView::Byte(b) => b,
                _ => 0,
            }),
    {
        match self.uart.ask(UartOp::Read(offset)) {
            UartReply::Byte(b) => b,
            _ => 0,
        }
    }

    /// Writes the register at `offset`, and records the programming so that it can be replayed
    /// on restore.
    pub fn write(&mut self, offset: u8, val: u8)
        requires
            old(self).wf(),
        ensures
            final(self).same_uart(old(self)),
            final(self).shadow == old(self).shadow.written(offset, val),
            uart::asked(old(self).uart@, final(self).uart@, UartOpView::Write(offset, val)),
    {
        self.shadow.write(offset, val);
        let _reply = self.uart.ask(UartOp::Write(offset, val));
    }

    /// Hands the UART what is left of a line, and counts what it took.
    pub fn send_attempt(&mut self, line: &mut SendLine)
        requires
            old(self).wf(),
            old(line).wf(),
        ensures
            final(self).same_uart(old(self)),
            final(self).shadow == old(self).shadow,
            final(line).wf(),
            uart::asked(
                old(self).uart@,
                final(self).uart@,
                UartOpView::Enqueue(old(line).left()),
            ),
            final(line).left() == left_after(old(line).left(), final(self).uart@.last().reply),
    {
        let ghost before = line.left();
        let input = copy_range(line.pending.as_slice(), line.off, line.pending.len());
        assert(input@ =~= before);
        let room: usize = line.pending.len() - line.off;
        let reply = self.uart.ask(UartOp::Enqueue(input));
        match &reply {
            UartReply::Accepted(n) => {
                if *n <= room {
                    line.off = line.off + *n;
                } else {
                    line.off = line.pending.len();
                }
            },
            _ => {},
        }
        assert(line.left() =~= left_after(before, reply@));
    }

    /// Hands the UART `bytes` and then a newline, as far as they fit at once.
    pub fn send(&mut self, bytes: &[u8])
        requires
            old(self).wf(),
        ensures
            final(self).same_uart(old(self)),
            final(self).shadow == old(self).shadow,
            uart::asked_all(
                old(self).uart@,
                final(self).uart@,
                seq![UartOpView::Enqueue(bytes@), UartOpView::Enqueue(seq![10u8])],
            ),
    {
        let input = copy_range(bytes, 0, bytes.len());
        assert(input@ =~= bytes@);
        let _first = self.uart.ask(UartOp::Enqueue(input));
        let newline: Vec<u8> = vec![10u8];
        assert(newline@ =~= seq![10u8]);
        let _second = self.uart.ask(UartOp::Enqueue(newline));
        assert(self.uart@.take(old(self).uart@.len() as int) =~= old(self).uart@);
    }

    /// The UART's state besides its programmed registers.
    pub fn runtime_state(&mut self) -> (r: Option<SerialRuntimeState>)
        requires
            old(self).wf(),
        ensures
            final(self).same_uart(old(self)),
            final(self).shadow == old(self).shadow,
            uart::asked(old(self).uart@, final(self).uart@, UartOpView::Capture),
            match final(self).uart@.last().reply {
                UartReplyView::State(u) => r matches Some(r) && r@ == runtime_of(u),
                _ => r is None,
            },
    {
        match self.uart.ask(UartOp::Capture) {
            UartReply::State(u) => Some(u.into_runtime()),
            _ => None,
        }
    }

    /// Takes back a snapshot. With the runtime state the UART takes on all of it; a snapshot
    /// without it has only the programmed registers, which are replayed.
    pub fn try_restore_snapshot(
        &mut self,
        state: SerialState,
        runtime: Option<&SerialRuntimeState>,
    ) -> (r: Result<(), PersistError>)
        requires
            old(self).wf(),
        ensures
            final(self).same_uart(old(self)),
            match runtime {
                None => {
                    &&& r is Ok
                    &&& final(self).shadow == state
                    &&& uart::asked_all(
                        old(self).uart@,
                        final(self).uart@,
                        write_ops(state.replay()),
                    )
                },
                Some(rt) => {
                    &&& uart::asked(
                        old(self).uart@,
                        final(self).uart@,
                        UartOpView::Rebuild(joined(state, rt@)),
                    )
                    &&& match final(self).uart@.last().reply {
                        UartReplyView::Failed(why) => {
                            &&& final(self).shadow == old(self).shadow
                            &&& r matches Err(PersistError::Unavailable(text))
                            &&& text@ == why
                        },
                        _ => r is Ok && final(self).shadow == state,
                    }
                },
            },
    {
        match runtime {
            Some(runtime) => {
                let u = UartState::join(&state, runtime);
                match self.uart.ask(UartOp::Rebuild(u)) {
                    UartReply::Failed(why) => {
                        return Err(PersistError::Unavailable(why));
                    },
                    _ => {},
                }
                self.shadow = state;
                Ok(())
            },
            None => {
                self.restore_legacy(state);
                Ok(())
            },
        }
    }

    /// Takes back programmed registers without runtime state.
    pub fn try_restore(&mut self, state: SerialState) -> (r: Result<(), PersistError>)
        requires
            old(self).wf(),
        ensures
            r is Ok,
            final(self).same_uart(old(self)),
            final(self).shadow == state,
            uart::asked_all(old(self).uart@, final(self).uart@, write_ops(state.replay())),
    {
        self.restore_legacy(state);
        Ok(())
    }

    /// Replays programmed registers onto a fresh UART.
    fn restore_legacy(&mut self, state: SerialState)
        requires
            old(self).wf(),
        ensures
            final(self).same_uart(old(self)),
            final(self).shadow == state,
            uart::asked_all(old(self).uart@, final(self).uart@, write_ops(state.replay())),
    {
        let writes = state.replay_writes();
        let ghost ops = write_ops(writes@);
        let ghost then = self.uart@;
        let mut i: usize = 0;
        assert(then.take(then.len() as int) =~= then);
        while i < writes.len()
            invariant
                i <= writes@.len(),
                self.same_uart(old(self)),
                then == old(self).uart@,
                ops == write_ops(writes@),
                self.uart@.len() == then.len() + i,
                self.uart@.take(then.len() as int) == then,
                forall|j: int|
                    0 <= j < i ==> self.uart@[then.len() + j].op == #[trigger] ops[j],
            decreases writes@.len() - i,
        {
            let (offset, val) = writes[i];
            let ghost now = self.uart@;
            let _reply = self.uart.ask(UartOp::Write(offset, val));
            assert(self.uart@.take(then.len() as int) =~= now.take(then.len() as int));
            assert(ops[i as int] == UartOpView::Write(offset, val));
            i += 1;
        }
        self.shadow = state;
    }
}

impl<UART: Fn(UartOp) -> UartReply> Persist for Serial<UART> {
    type State = SerialState;

    open spec fn can_restore(&self) -> bool {
        self.wf()
    }

    fn save(&self) -> (s: SerialState)
        ensures
            s == self.shadow,
    {
        self.shadow
    }

    fn restore(&mut self, state: SerialState)
        ensures
            final(self).same_uart(old(self)),
            final(self).shadow == state,
            uart::asked_all(old(self).uart@, final(self).uart@, write_ops(state.replay())),
    {
        self.restore_legacy(state);
    }
}

} // verus!
