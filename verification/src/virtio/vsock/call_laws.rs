//! What calls of the vsock device's functions do.
use crate::bus::MmioError;
use crate::virtio::vsock::connections::{HostVsockListener, VsockConnectionState};
use crate::virtio::vsock::{self, VirtioVsockMmio, VsockConnectError, VsockView};
use vstd::prelude::*;

verus! {

/// Calls of the public functions are the passes that the laws speak of, and they count what was
/// done. A device that has failed refuses them all, and nothing changes.
pub proof fn law_vsock_calls_are_passes<L: HostVsockListener>(
    r: Result<usize, MmioError>,
    gone: &[VsockConnectionState],
    port: u32,
    stream: L::Stream,
    c: Result<u32, VsockConnectError>,
)
    ensures
        forall|d: &mut VirtioVsockMmio<L>| #[trigger]
            call_ensures(VirtioVsockMmio::<L>::process_rx_queue, (d,), r) ==> if needs_reset((*d)@) {
                r == Err::<usize, MmioError>(MmioError::Device) && (*final(d))@ == (*d)@
            } else {
                r matches Ok(n) && vsock::rx_processed((*d)@, (*final(d))@, n as nat)
            },
        forall|d: &mut VirtioVsockMmio<L>| #[trigger]
            call_ensures(VirtioVsockMmio::<L>::process_tx_queue, (d,), r) ==> if needs_reset((*d)@) {
                r == Err::<usize, MmioError>(MmioError::Device) && (*final(d))@ == (*d)@
            } else {
                r matches Ok(n) && vsock::tx_processed(
                    (*d).bridge.connector(),
                    (*d)@,
                    (*final(d))@,
                    n as nat,
                )
            },
        forall|d: &mut VirtioVsockMmio<L>| #[trigger]
            call_ensures(VirtioVsockMmio::<L>::pump_host_streams, (d,), r) ==> if needs_reset(
                (*d)@,
            ) {
                r == Err::<usize, MmioError>(MmioError::Device) && (*final(d))@ == (*d)@
            } else {
                r matches Ok(n) && vsock::streams_pumped((*d)@, (*final(d))@, n as nat)
            },
        forall|d: &mut VirtioVsockMmio<L>| #[trigger]
            call_ensures(
                VirtioVsockMmio::<L>::reset_restored_connections,
                (d, gone),
                r,
            ) ==> if needs_reset((*d)@) {
                r == Err::<usize, MmioError>(MmioError::Device) && (*final(d))@ == (*d)@
            } else {
                r == Ok::<usize, MmioError>(gone@.len() as usize) && vsock::connections_gone(
                    (*d)@,
                    gone@,
                    (*final(d))@,
                )
            },
        forall|d: &mut VirtioVsockMmio<L>| #[trigger]
            call_ensures(
                VirtioVsockMmio::<L>::connect_guest_stream,
                (d, port, stream),
                c,
            ) ==> if needs_reset((*d)@) {
                c == Err::<u32, VsockConnectError>(VsockConnectError::NeedsReset) && (*final(d))@
                    == (*d)@
            } else if (*d)@.bridge.connections.len() >= 1024 {
                c == Err::<u32, VsockConnectError>(VsockConnectError::CapReached) && (*final(d))@
                    == (*d)@
            } else {
                c matches Ok(host) && vsock::guest_connected(
                    (*d)@,
                    port,
                    stream,
                    host,
                    (*final(d))@,
                )
            },
{
    assert(64u32 | 128u32 == 192u32) by (bit_vector);
}

/// The device has failed, and the driver is told so by the status.
pub open spec fn needs_reset<S>(d: VsockView<S>) -> bool {
    d.regs.status & 192 != 0
}

} // verus!
