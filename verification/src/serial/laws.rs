//! What the serial port keeps of what passes through it.
use crate::serial::uart::{self, UartEvent, UartOp, UartOpView, UartReply, UartReplyView};
use crate::serial::{self, RuntimeView, SendLine, Serial, SerialOut, SerialState};
use vstd::prelude::*;

verus! {

/// Of output that is too long its last bytes are kept, and they are the last ones: as many as may
/// be, or all there are.
pub proof fn law_last_output_is_kept(s: Seq<u8>, n: int)
    requires
        n >= 0,
    ensures
        serial::last_bytes(s, n).len() == (if s.len() <= n {
            s.len() as int
        } else {
            n
        }),
        forall|i: int|
            0 <= i < serial::last_bytes(s, n).len() ==> #[trigger] serial::last_bytes(s, n)[i]
                == s[s.len() - serial::last_bytes(s, n).len() + i],
        serial::MAX_OUTPUT == 262144,
{
}

/// A write programs exactly one register, the one at its offset: the divisor latch at 0 and 1 while
/// bit 7 of the line control register is set, the interrupt enable register at 1 while it is not,
/// and the FIFO, line and modem control and scratch registers at 2, 3, 4 and 7. Elsewhere, and at 0
/// without the latch, it programs none.
pub proof fn law_write_programs_its_register(s: SerialState, offset: u8, val: u8)
    ensures
        ({
            let t = s.written(offset, val);
            let latch = s.lcr & 0x80 != 0;
            &&& t.dll == (if offset == 0 && latch {
                val
            } else {
                s.dll
            })
            &&& t.dlm == (if offset == 1 && latch {
                val
            } else {
                s.dlm
            })
            &&& t.ier == (if offset == 1 && !latch {
                val
            } else {
                s.ier
            })
            &&& t.fcr == (if offset == 2 {
                val
            } else {
                s.fcr
            })
            &&& t.lcr == (if offset == 3 {
                val
            } else {
                s.lcr
            })
            &&& t.mcr == (if offset == 4 {
                val
            } else {
                s.mcr
            })
            &&& t.scr == (if offset == 7 {
                val
            } else {
                s.scr
            })
        }),
{
}

/// Of input that was handed over, as many bytes are done with as the UART says it took, and no more
/// than there were; where it says nothing of the kind, none are.
pub proof fn law_taken_input_is_done_with(left: Seq<u8>, reply: UartReplyView)
    ensures
        ({
            let rest = serial::left_after(left, reply);
            let n = match reply {
                UartReplyView::Accepted(n) => if n <= left.len() {
                    n as int
                } else {
                    left.len() as int
                },
                _ => 0,
            };
            &&& rest.len() == left.len() - n
            &&& forall|i: int| 0 <= i < rest.len() ==> #[trigger] rest[i] == left[n + i]
        }),
{
}

/// A snapshot keeps every part of a UART: what is joined from registers and runtime state has each
/// of them where it belongs, and the runtime state that is taken out again is the one put in.
pub proof fn law_joined_state_has_all_parts(state: SerialState, runtime: RuntimeView)
    ensures
        ({
            let u = serial::joined(state, runtime);
            &&& u.baud_divisor_low == state.dll
            &&& u.baud_divisor_high == state.dlm
            &&& u.interrupt_enable == state.ier
            &&& u.line_control == state.lcr
            &&& u.modem_control == state.mcr
            &&& u.scratch == state.scr
            &&& u.interrupt_identification == runtime.interrupt_identification
            &&& u.line_status == runtime.line_status
            &&& u.modem_status == runtime.modem_status
            &&& u.in_buffer == runtime.in_buffer
            &&& serial::runtime_of(u) == runtime
        }),
{
}

/// What is replayed is written register by register, in order, with nothing between and nothing
/// before: the record of the UART grows by exactly these writes.
pub proof fn law_replay_is_what_the_uart_sees(
    then: Seq<UartEvent>,
    now: Seq<UartEvent>,
    writes: Seq<(u8, u8)>,
)
    requires
        uart::asked_all(then, now, serial::write_ops(writes)),
    ensures
        now.len() == then.len() + writes.len(),
        forall|i: int| 0 <= i < then.len() ==> #[trigger] now[i] == then[i],
        forall|j: int|
            0 <= j < writes.len() ==> (#[trigger] now[then.len() + j]).op == UartOpView::Write(
                writes[j].0,
                writes[j].1,
            ),
{
    let ops = serial::write_ops(writes);
    assert forall|i: int| 0 <= i < then.len() implies #[trigger] now[i] == then[i] by {
        assert(now.take(then.len() as int)[i] == then[i]);
    }
    assert forall|j: int| 0 <= j < writes.len() implies (#[trigger] now[then.len() + j]).op
        == UartOpView::Write(writes[j].0, writes[j].1) by {
        assert(now[then.len() + j].op == ops[j]);
    }
}

/// One operation on the UART is one more entry on its record, and the last.
pub proof fn law_asked_once(then: Seq<UartEvent>, now: Seq<UartEvent>, op: UartOpView)
    requires
        uart::asked(then, now, op),
    ensures
        now.len() == then.len() + 1,
        now.last().op == op,
        forall|i: int| 0 <= i < then.len() ==> #[trigger] now[i] == then[i],
{
    assert(now.len() == then.push(now.last()).len());
    assert forall|i: int| 0 <= i < then.len() implies #[trigger] now[i] == then[i] by {
        assert(then.push(now.last())[i] == then[i]);
    }
}

/// Output that is written stands behind what was there, and of both together the last 262144 bytes
/// are kept. Draining gives all of it and leaves none.
pub proof fn law_output_is_kept_and_drained(bytes: &[u8], out: Vec<u8>)
    ensures
        forall|o: &mut SerialOut| #[trigger]
            call_ensures(SerialOut::write, (o, bytes), ()) ==> {
                let all = (*o)@ + bytes@;
                let kept = (*final(o))@;
                &&& kept.len() == (if all.len() <= 262144 {
                    all.len() as int
                } else {
                    262144
                })
                &&& forall|i: int|
                    0 <= i < kept.len() ==> #[trigger] kept[i] == all[all.len() - kept.len() + i]
            },
        forall|o: &mut SerialOut| #[trigger]
            call_ensures(SerialOut::drain, (o,), out) ==> {
                &&& out@.len() == (*o)@.len()
                &&& forall|i: int| 0 <= i < out@.len() ==> #[trigger] out@[i] == (*o)@[i]
                &&& (*final(o))@.len() == 0
            },
{
    assert forall|o: &mut SerialOut| #[trigger] call_ensures(SerialOut::write, (o, bytes), ()) implies {
        let all = (*o)@ + bytes@;
        let kept = (*final(o))@;
        &&& kept.len() == (if all.len() <= 262144 {
            all.len() as int
        } else {
            262144
        })
        &&& forall|i: int|
            0 <= i < kept.len() ==> #[trigger] kept[i] == all[all.len() - kept.len() + i]
    } by {
        law_last_output_is_kept((*o)@ + bytes@, 262144);
    }
}

/// `now` is `then` and one more operation, `op`.
pub open spec fn one_more(then: Seq<UartEvent>, now: Seq<UartEvent>, op: UartOpView) -> bool {
    &&& now.len() == then.len() + 1
    &&& now[now.len() - 1].op == op
    &&& forall|i: int| 0 <= i < then.len() ==> #[trigger] now[i] == then[i]
}

/// An access of the guest to a register is one operation of the UART, with the offset and the value
/// of the access. A read gives the byte that the UART gives and leaves the registers that are kept.
pub proof fn law_access_reaches_the_uart<UART: Fn(UartOp) -> UartReply>(
    offset: u8,
    val: u8,
)
    ensures
        forall|s: &mut Serial<UART>| #[trigger]
            call_ensures(Serial::<UART>::write, (s, offset, val), ()) ==> {
                &&& one_more((*s).uart@, (*final(s)).uart@, UartOpView::Write(offset, val))
                &&& (*final(s)).shadow == (*s).shadow.written(offset, val)
            },
        forall|s: &mut Serial<UART>| #[trigger]
            call_ensures(Serial::<UART>::read, (s, offset), val) ==> {
                let now = (*final(s)).uart@;
                &&& one_more((*s).uart@, now, UartOpView::Read(offset))
                &&& now[now.len() - 1].reply matches UartReplyView::Byte(b) ==> val == b
                &&& (*final(s)).shadow == (*s).shadow
            },
{
    assert forall|s: &mut Serial<UART>| #[trigger]
        call_ensures(Serial::<UART>::write, (s, offset, val), ()) implies {
        &&& one_more((*s).uart@, (*final(s)).uart@, UartOpView::Write(offset, val))
        &&& (*final(s)).shadow == (*s).shadow.written(offset, val)
    } by {
        law_asked_once((*s).uart@, (*final(s)).uart@, UartOpView::Write(offset, val));
    }
    assert forall|s: &mut Serial<UART>| #[trigger]
        call_ensures(Serial::<UART>::read, (s, offset), val) implies {
        let now = (*final(s)).uart@;
        &&& one_more((*s).uart@, now, UartOpView::Read(offset))
        &&& now[now.len() - 1].reply matches UartReplyView::Byte(b) ==> val == b
        &&& (*final(s)).shadow == (*s).shadow
    } by {
        law_asked_once((*s).uart@, (*final(s)).uart@, UartOpView::Read(offset));
    }
}

/// Input that is sent goes to the UART whole: the bytes, then a newline. An attempt at a line hands
/// over all that is left of it, and what the UART took is left no more.
pub proof fn law_input_is_handed_over_whole<UART: Fn(UartOp) -> UartReply>(bytes: &[u8])
    ensures
        forall|s: &mut Serial<UART>| #[trigger]
            call_ensures(Serial::<UART>::send, (s, bytes), ()) ==> {
                let (then, now) = ((*s).uart@, (*final(s)).uart@);
                &&& now.len() == then.len() + 2
                &&& now[then.len() as int].op == UartOpView::Enqueue(bytes@)
                &&& now[then.len() + 1int].op == UartOpView::Enqueue(seq![10u8])
                &&& (*final(s)).shadow == (*s).shadow
            },
        forall|s: &mut Serial<UART>, line: &mut SendLine| #[trigger]
            call_ensures(Serial::<UART>::send_attempt, (s, line), ()) ==> {
                let (then, now) = ((*s).uart@, (*final(s)).uart@);
                let (left, rest) = ((*line).left(), (*final(line)).left());
                &&& one_more(then, now, UartOpView::Enqueue(left))
                &&& now[then.len() as int].reply matches UartReplyView::Accepted(n) ==> rest.len()
                    == (if n <= left.len() {
                    left.len() - n
                } else {
                    0
                })
                &&& now[then.len() as int].reply !is Accepted ==> rest == left
                &&& rest.len() <= left.len()
                &&& forall|i: int|
                    0 <= i < rest.len() ==> #[trigger] rest[i] == left[left.len() - rest.len() + i]
            },
{
    assert forall|s: &mut Serial<UART>| #[trigger]
        call_ensures(Serial::<UART>::send, (s, bytes), ()) implies {
        let (then, now) = ((*s).uart@, (*final(s)).uart@);
        &&& now.len() == then.len() + 2
        &&& now[then.len() as int].op == UartOpView::Enqueue(bytes@)
        &&& now[then.len() + 1int].op == UartOpView::Enqueue(seq![10u8])
        &&& (*final(s)).shadow == (*s).shadow
    } by {
        let ops = seq![UartOpView::Enqueue(bytes@), UartOpView::Enqueue(seq![10u8])];
        assert((*final(s)).uart@[(*s).uart@.len() + 0int].op == ops[0]);
        assert((*final(s)).uart@[(*s).uart@.len() + 1int].op == ops[1]);
    }
    assert forall|s: &mut Serial<UART>, line: &mut SendLine| #[trigger]
        call_ensures(Serial::<UART>::send_attempt, (s, line), ()) implies {
        let (then, now) = ((*s).uart@, (*final(s)).uart@);
        let (left, rest) = ((*line).left(), (*final(line)).left());
        &&& one_more(then, now, UartOpView::Enqueue(left))
        &&& now[then.len() as int].reply matches UartReplyView::Accepted(n) ==> rest.len() == (
        if n <= left.len() {
            left.len() - n
        } else {
            0
        })
        &&& now[then.len() as int].reply !is Accepted ==> rest == left
        &&& rest.len() <= left.len()
        &&& forall|i: int|
            0 <= i < rest.len() ==> #[trigger] rest[i] == left[left.len() - rest.len() + i]
    } by {
        let (then, now) = ((*s).uart@, (*final(s)).uart@);
        law_asked_once(then, now, UartOpView::Enqueue((*line).left()));
        assert(now.last() == now[then.len() as int]);
        law_taken_input_is_done_with((*line).left(), now.last().reply);
    }
}

} // verus!
