use std::io::{self, Write};
use std::sync::{Arc, Mutex};
use vm_superio::serial::{NoEvents, Serial as VmSerial, SerialState as VmSerialState};
use vmm_devices::persist::{Persist, PersistError};
use vmm_devices::serial::{
    SendLine, SendStep, Serial, SerialOut, SerialRuntimeState, SerialState, UartOp, UartReply,
    UartState, MAX_OUTPUT,
};
use vmm_sys_util::eventfd::EventFd;

struct IrqLine(EventFd);

impl vm_superio::Trigger for IrqLine {
    type E = io::Error;

    fn trigger(&self) -> io::Result<()> {
        self.0.write(1)
    }
}

#[derive(Clone)]
struct Captured(Arc<Mutex<SerialOut>>);

impl Write for Captured {
    fn write(&mut self, bytes: &[u8]) -> io::Result<usize> {
        self.0.lock().unwrap().write(bytes);
        Ok(bytes.len())
    }

    fn flush(&mut self) -> io::Result<()> {
        Ok(())
    }
}

type Chip = VmSerial<IrqLine, NoEvents, Captured>;

fn chip_op(chip: &mut Chip, irq: &EventFd, out: &Captured, op: UartOp) -> UartReply {
    match op {
        UartOp::Read(offset) => UartReply::Byte(chip.read(offset)),
        UartOp::Write(offset, val) => {
            let _ = chip.write(offset, val);
            UartReply::Done
        }
        UartOp::Enqueue(bytes) => match chip.enqueue_raw_bytes(&bytes) {
            Ok(n) => UartReply::Accepted(n),
            Err(error) => UartReply::Failed(error.to_string()),
        },
        UartOp::Capture => {
            let s = chip.state();
            UartReply::State(UartState {
                baud_divisor_low: s.baud_divisor_low,
                baud_divisor_high: s.baud_divisor_high,
                interrupt_enable: s.interrupt_enable,
                interrupt_identification: s.interrupt_identification,
                line_control: s.line_control,
                line_status: s.line_status,
                modem_control: s.modem_control,
                modem_status: s.modem_status,
                scratch: s.scratch,
                in_buffer: s.in_buffer,
            })
        }
        UartOp::Rebuild(u) => {
            let state = VmSerialState {
                baud_divisor_low: u.baud_divisor_low,
                baud_divisor_high: u.baud_divisor_high,
                interrupt_enable: u.interrupt_enable,
                interrupt_identification: u.interrupt_identification,
                line_control: u.line_control,
                line_status: u.line_status,
                modem_control: u.modem_control,
                modem_status: u.modem_status,
                scratch: u.scratch,
                in_buffer: u.in_buffer,
            };
            let line = IrqLine(irq.try_clone().unwrap());
            match VmSerial::from_state(&state, line, NoEvents, out.clone()) {
                Ok(new) => {
                    *chip = new;
                    UartReply::Done
                }
                Err(error) => {
                    UartReply::Failed(format!("reconstruct UART runtime state: {error}"))
                }
            }
        }
    }
}

type Uart = Box<dyn Fn(UartOp) -> UartReply + Send + Sync>;

struct Console {
    serial: Serial<Uart>,
    out: Arc<Mutex<SerialOut>>,
}

fn console(irq: EventFd) -> Console {
    let out = Arc::new(Mutex::new(SerialOut::new()));
    let sink = Captured(out.clone());
    let chip = Mutex::new(VmSerial::new(
        IrqLine(irq.try_clone().unwrap()),
        sink.clone(),
    ));
    let uart: Uart =
        Box::new(move |op: UartOp| chip_op(&mut chip.lock().unwrap(), &irq, &sink, op));
    Console {
        serial: Serial::new(uart),
        out,
    }
}

impl Console {
    fn drain_output(&self) -> Vec<u8> {
        self.out.lock().unwrap().drain()
    }

    /// Sends a line, with the guest running whenever the line has to wait.
    fn send_within<G: FnMut(&mut Serial<Uart>)>(&mut self, bytes: &[u8], turns: u32, mut guest: G) -> bool {
        let mut line = SendLine::new(bytes);
        let mut left = turns;
        loop {
            self.serial.send_attempt(&mut line);
            match line.outcome(left == 0) {
                SendStep::Sent => return true,
                SendStep::TimedOut => return false,
                SendStep::Wait => {
                    left -= 1;
                    guest(&mut self.serial);
                }
            }
        }
    }
}

fn test_eventfd() -> EventFd {
    EventFd::new(libc::EFD_NONBLOCK).unwrap()
}

fn assert_send_sync<T: Send + Sync>() {}

#[test]
fn thr_write_is_captured() {
    let mut c = console(test_eventfd());

    c.serial.write(0, b'x');

    assert_eq!(c.drain_output(), b"x");
}

#[test]
fn draining_preserves_preallocated_vcpu_output_capacity() {
    let mut c = console(test_eventfd());
    c.serial.write(0, b'x');
    assert_eq!(c.drain_output(), b"x");
    assert!(c.out.lock().unwrap().buf.capacity() >= MAX_OUTPUT);
}

#[test]
fn enqueued_input_is_read_from_data_register() {
    let mut c = console(test_eventfd());

    c.serial.send(b"a");

    assert_eq!(c.serial.read(0), b'a');
}

#[test]
fn serial_persist_round_trip() {
    let mut c = console(test_eventfd());
    let state = c.serial.save();

    c.serial.restore(state);

    assert_eq!(c.serial.save(), state);
}

#[test]
fn restore_preserves_receive_fifo_and_reasserts_pending_irq() {
    let source_irq = test_eventfd();
    let mut c = console(source_irq.try_clone().unwrap());
    c.serial.write(1, 0x01); // RX-data-available interrupt.
    c.serial.send(b"pending");
    assert!(source_irq.read().is_ok(), "source RX interrupt missing");

    let state = c.serial.save();
    let runtime = c.serial.runtime_state().unwrap();
    assert_eq!(
        runtime.in_buffer, b"pending\n",
        "snapshot omitted pending UART input"
    );

    let restored_irq = test_eventfd();
    let mut restored = console(restored_irq.try_clone().unwrap());
    restored
        .serial
        .try_restore_snapshot(state, Some(&runtime))
        .expect("restore complete UART state");
    assert!(
        restored_irq.read().is_ok(),
        "restore did not reassert the pending RX interrupt"
    );
    let mut input = Vec::new();
    while restored.serial.read(5) & 1 != 0 {
        input.push(restored.serial.read(0));
    }
    assert_eq!(input, b"pending\n");
}

#[test]
fn restore_reasserts_pending_transmitter_interrupt() {
    let source_irq = test_eventfd();
    let mut c = console(source_irq.try_clone().unwrap());
    c.serial.write(1, 0x02); // Transmitter-holding-register-empty interrupt.
    c.serial.write(0, b'x');
    assert!(source_irq.read().is_ok(), "source TX interrupt missing");

    let restored_irq = test_eventfd();
    let mut restored = console(restored_irq.try_clone().unwrap());
    let runtime = c.serial.runtime_state().unwrap();
    restored
        .serial
        .try_restore_snapshot(c.serial.save(), Some(&runtime))
        .expect("restore complete UART state");
    assert!(
        restored_irq.read().is_ok(),
        "restore did not reassert the pending TX interrupt"
    );
    assert_ne!(
        restored.serial.read(2) & 0x02,
        0,
        "restored TX cause missing"
    );
}

#[test]
fn restore_rejects_an_oversized_receive_fifo() {
    let mut c = console(test_eventfd());
    let runtime = SerialRuntimeState {
        in_buffer: vec![0; 65],
        ..Default::default()
    };
    let error = c
        .serial
        .try_restore_snapshot(SerialState::default(), Some(&runtime))
        .expect_err("oversized UART FIFO must fail closed");
    let PersistError::Unavailable(text) = error;
    assert!(text.contains("FIFO"));
}

#[test]
fn send_within_delivers_past_the_64_byte_fifo() {
    // The receive FIFO holds 64 bytes, so the guest has to drain it in between.
    let mut c = console(test_eventfd());
    let payload = vec![b'a'; 200];
    let mut got = Vec::new();
    let ok = c.send_within(&payload, 50, |serial| {
        // LSR bit 0 = data ready.
        while serial.read(5) & 1 != 0 {
            got.push(serial.read(0));
        }
    });
    assert!(ok, "send_within should complete while the guest drains");
    while c.serial.read(5) & 1 != 0 {
        got.push(c.serial.read(0));
    }
    let mut expected = payload.clone();
    expected.push(b'\n');
    assert_eq!(got, expected);
}

#[test]
fn send_within_reports_a_stalled_guest() {
    let mut c = console(test_eventfd());
    let payload = vec![b'a'; 200];
    // Nothing drains the FIFO: only the first 64 bytes fit.
    let ok = c.send_within(&payload, 0, |_| {});
    assert!(!ok, "no reader: delivery must report failure");
    assert_eq!(c.serial.runtime_state().unwrap().in_buffer.len(), 64);
}

#[test]
fn ier_is_shadowed_and_replayed_to_rearm_rx_irq() {
    // Guest enables RX-data-available interrupts (IER bit 0).
    let mut c = console(test_eventfd());
    c.serial.write(1, 0x01); // IER, DLAB=0
    let state = c.serial.save();
    assert_eq!(state.ier, 0x01, "IER write must be shadowed");

    // A fresh UART has interrupts disabled, so an enqueue raises no IRQ.
    let irq = test_eventfd();
    let mut restored = console(irq.try_clone().unwrap());
    restored.serial.send(b"x");
    assert!(
        irq.read().is_err(),
        "fresh UART (IER=0) should not raise an RX IRQ"
    );
    // After restore: IER is re-armed, so enqueue triggers the IRQ.
    restored.serial.restore(state);
    restored.serial.send(b"y");
    assert!(
        irq.read().is_ok(),
        "restored UART should re-raise the RX IRQ"
    );
}

#[test]
fn divisor_latch_writes_are_shadowed_under_dlab() {
    let mut c = console(test_eventfd());
    c.serial.write(3, 0x80); // LCR: set DLAB
    c.serial.write(0, 0x0c); // DLL
    c.serial.write(1, 0x00); // DLM
    c.serial.write(3, 0x03); // LCR: clear DLAB, 8N1
    c.serial.write(1, 0x05); // IER (DLAB now clear)
    let s = c.serial.save();
    assert_eq!(s.dll, 0x0c);
    assert_eq!(s.dlm, 0x00);
    assert_eq!(s.lcr, 0x03);
    assert_eq!(s.ier, 0x05);
}

#[test]
fn serial_is_send_sync() {
    assert_send_sync::<Serial<Uart>>();
}

#[test]
fn the_last_output_is_kept() {
    let mut out = SerialOut::new();
    out.write(&vec![b'a'; MAX_OUTPUT]);
    out.write(b"tail");
    assert_eq!(out.buf.len(), MAX_OUTPUT);
    let kept = out.drain();
    assert_eq!(&kept[MAX_OUTPUT - 4..], b"tail");
    assert_eq!(kept[0], b'a');
    assert!(out.buf.is_empty());
    let mut long = vec![b'x'; MAX_OUTPUT + 10];
    long[10] = b'y';
    out.write(&long);
    assert_eq!(out.buf[0], b'y');
    assert_eq!(out.buf.len(), MAX_OUTPUT);
}

#[test]
fn output_in_pieces_is_kept_like_output_at_once() {
    let mut pieces = SerialOut::new();
    let mut whole = SerialOut::new();
    let bytes: Vec<u8> = (0..MAX_OUTPUT + 1000).map(|i| (i % 251) as u8).collect();
    for chunk in bytes.chunks(777) {
        pieces.write(chunk);
    }
    whole.write(&bytes);
    assert_eq!(pieces.drain(), whole.drain());
}

#[test]
fn replaying_programs_a_fresh_uart() {
    let state = SerialState {
        ier: 1,
        fcr: 0x07,
        lcr: 0x03,
        mcr: 0x08,
        scr: 0x5a,
        dll: 0x0c,
        dlm: 0x01,
    };
    assert_eq!(
        state.replay_writes(),
        vec![
            (3, 0x83),
            (0, 0x0c),
            (1, 0x01),
            (3, 0x03),
            (2, 0x07),
            (4, 0x08),
            (7, 0x5a),
            (1, 1)
        ]
    );
    let mut shadow = SerialState::default();
    for (offset, val) in state.replay_writes() {
        shadow.write(offset, val);
    }
    assert_eq!(shadow, state);
    let mut c = console(test_eventfd());
    c.serial.try_restore_snapshot(state, None).unwrap();
    assert_eq!(c.serial.read(7), 0x5a);
    assert_eq!(c.serial.read(3), 0x03);
}

#[test]
fn try_restore_programs_the_registers_again() {
    let mut c = console(test_eventfd());
    c.serial.write(4, 0x0b);
    c.serial.write(7, 0x5a);
    let state = c.serial.save();
    let mut fresh = console(test_eventfd());
    assert!(fresh.serial.try_restore(state).is_ok());
    assert_eq!(fresh.serial.save(), state);
    assert_eq!(fresh.serial.read(4), 0x0b);
    assert_eq!(fresh.serial.read(7), 0x5a);
}
