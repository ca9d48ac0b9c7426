//! The stream connections of a virtio-vsock device, and what each packet does to them.
use crate::virtio::vsock::dialer::Dialer;
use crate::virtio::vsock::op;
use crate::virtio::vsock::packet::{PacketView, VsockPacket, VsockPacketHeader};
use crate::virtio::vsock::packet_type;
use crate::virtio::vsock::shutdown_flags;
use std::collections::VecDeque;
use vstd::prelude::*;

verus! {

pub const VSOCK_HOST_CID: u64 = 2;

/// Cap on buffered host->guest packets. A guest can drive RST/RESPONSE replies while never
/// posting RX descriptors to drain them. When full, new packets are dropped: the peer's vsock
/// stack retransmits or tears down.
pub const MAX_PENDING_RX: usize = 4096;

/// Maximum active stream connections for this device. One vsock device maps to one guest, so
/// this bounds guest-controlled REQUEST fan-out.
pub const MAX_CONNECTIONS: usize = 1024;

pub const DEFAULT_BUF_ALLOC: u32 = 262144;

pub const HOST_READ_CHUNK: usize = 4096;

/// Why a host stream gave no bytes.
#[derive(Debug, Copy, Clone, PartialEq, Eq, Structural)]
pub enum HostReadError {
    /// There are none at the moment.
    WouldBlock,
    /// The call was interrupted.
    Interrupted,
    /// The stream is broken.
    Other,
}

/// What a read of a host stream gave, with the bytes as a sequence.
pub open spec fn bytes_read(r: Result<Vec<u8>, HostReadError>) -> Result<Seq<u8>, HostReadError> {
    match r {
        Ok(data) => Ok(data@),
        Err(e) => Err(e),
    }
}

/// The host's end of a stream connection.
pub trait HostVsockStream: Send + Sync + Sized {
    /// A read of at most `max` bytes may give `r` and leave the stream as `post`.
    open spec fn read_gives(
        &self,
        max: usize,
        r: Result<Seq<u8>, HostReadError>,
        post: Self,
    ) -> bool {
        true
    }

    /// A write may succeed or not and leave the stream as `post`.
    open spec fn write_gives(&self, data: Seq<u8>, ok: bool, post: Self) -> bool {
        true
    }

    /// Reads what is there, at most `max` bytes, without waiting. No bytes mean that the peer
    /// has closed the stream.
    fn read_chunk(&mut self, max: usize) -> (r: Result<Vec<u8>, HostReadError>)
        ensures
            old(self).read_gives(max, bytes_read(r), *final(self)),
            r matches Ok(data) ==> data@.len() <= max,
    ;

    /// Writes all of `data`; returns whether it could.
    fn write_all(&mut self, data: &[u8]) -> (ok: bool)
        ensures
            old(self).write_gives(data@, ok, *final(self)),
    ;
}

/// Where connections that the guest asks for end on the host.
pub trait HostVsockListener: Send + Sync + Sized {
    type Stream: HostVsockStream;

    /// A connection to `port` may give `r`.
    open spec fn connect_gives(&self, port: u32, r: Option<Self::Stream>) -> bool {
        true
    }

    /// Connects to `port`, if something answers there.
    fn connect(&self, port: u32) -> (r: Option<Self::Stream>)
        ensures
            self.connect_gives(port, r),
    ;
}

/// What tells connections apart.
#[derive(Debug, Clone, Copy, PartialEq, Eq, Structural)]
pub struct ConnectionKey {
    pub guest_cid: u64,
    pub guest_port: u32,
    pub host_port: u32,
}

/// What is saved of a connection.
#[derive(Debug, Default, Clone, Copy, PartialEq, Eq, Structural)]
pub struct VsockConnectionState {
    pub guest_cid: u64,
    pub guest_port: u32,
    pub host_port: u32,
    pub fwd_cnt: u32,
}

impl VsockConnectionState {
    pub open spec fn key_of(self) -> ConnectionKey {
        ConnectionKey {
            guest_cid: self.guest_cid,
            guest_port: self.guest_port,
            host_port: self.host_port,
        }
    }

    pub fn key(self) -> (k: ConnectionKey)
        ensures
            k == self.key_of(),
    {
        ConnectionKey {
            guest_cid: self.guest_cid,
            guest_port: self.guest_port,
            host_port: self.host_port,
        }
    }
}

/// A connection.
pub struct Connection<S> {
    pub key: ConnectionKey,
    pub stream: S,
    pub peer_buf_alloc: u32,
    pub peer_fwd_cnt: u32,
    /// How many bytes came from the guest, modulo 2^32.
    pub fwd_cnt: u32,
    pub established: bool,
}

impl<S> Connection<S> {
    /// What is saved of the connection.
    pub open spec fn saved(self) -> VsockConnectionState {
        VsockConnectionState {
            guest_cid: self.key.guest_cid,
            guest_port: self.key.guest_port,
            host_port: self.key.host_port,
            fwd_cnt: self.fwd_cnt,
        }
    }

    /// The connection with the credit that a packet announces.
    pub open spec fn credited(self, h: VsockPacketHeader) -> Connection<S> {
        Connection { peer_buf_alloc: h.buf_alloc, peer_fwd_cnt: h.fwd_cnt, ..self }
    }
}

/// There is a connection with that key.
pub open spec fn has_key<S>(c: Seq<Connection<S>>, key: ConnectionKey) -> bool {
    exists|i: int| 0 <= i < c.len() && (#[trigger] c[i]).key == key
}

/// The place of the connection with that key.
pub open spec fn slot<S>(c: Seq<Connection<S>>, key: ConnectionKey) -> int {
    choose|i: int| 0 <= i < c.len() && (#[trigger] c[i]).key == key
}

/// No two connections have the same key.
pub open spec fn keys_distinct<S>(c: Seq<Connection<S>>) -> bool {
    forall|i: int, j: int|
        0 <= i < j < c.len() ==> (#[trigger] c[i]).key != (#[trigger] c[j]).key
}

/// The connections without the one that has the key.
pub open spec fn removed<S>(c: Seq<Connection<S>>, key: ConnectionKey) -> Seq<Connection<S>> {
    if has_key(c, key) {
        c.remove(slot(c, key))
    } else {
        c
    }
}

/// The connections with one more, in place of the one that had its key.
pub open spec fn inserted<S>(c: Seq<Connection<S>>, conn: Connection<S>) -> Seq<Connection<S>> {
    if has_key(c, conn.key) {
        c.update(slot(c, conn.key), conn)
    } else {
        c.push(conn)
    }
}

/// A connection with that key would be one too many.
pub open spec fn exceeds_cap<S>(c: Seq<Connection<S>>, key: ConnectionKey) -> bool {
    c.len() >= MAX_CONNECTIONS && !has_key(c, key)
}

/// The key of the connection that a packet of the guest speaks of.
pub open spec fn guest_key(h: VsockPacketHeader) -> ConnectionKey {
    ConnectionKey { guest_cid: h.src_cid, guest_port: h.src_port, host_port: h.dst_port }
}

/// The answer to a packet of the guest.
pub open spec fn reply_to(h: VsockPacketHeader, op: u16, flags: u32, fwd_cnt: u32) -> PacketView {
    host_sends(guest_key(h), op, flags, Seq::empty(), fwd_cnt)
}

/// A packet from the host on a connection.
pub open spec fn host_sends(
    key: ConnectionKey,
    op: u16,
    flags: u32,
    data: Seq<u8>,
    fwd_cnt: u32,
) -> PacketView {
    PacketView::made(
        VsockPacketHeader {
            src_cid: VSOCK_HOST_CID,
            dst_cid: key.guest_cid,
            src_port: key.host_port,
            dst_port: key.guest_port,
            len: 0,
            type_: packet_type::STREAM,
            op,
            flags,
            buf_alloc: DEFAULT_BUF_ALLOC,
            fwd_cnt,
        },
        data,
    )
}

/// Packets with one more behind them; a full queue drops it.
pub open spec fn enqueued(q: Seq<PacketView>, p: PacketView) -> Seq<PacketView> {
    if q.len() >= MAX_PENDING_RX {
        q
    } else {
        q.push(p)
    }
}

/// Packets with all of `more` behind them, as far as the queue has room.
pub open spec fn enqueued_all(q: Seq<PacketView>, more: Seq<PacketView>) -> Seq<PacketView>
    decreases more.len(),
{
    if more.len() == 0 {
        q
    } else {
        enqueued(enqueued_all(q, more.drop_last()), more.last())
    }
}

/// The packets, by what they hold.
pub open spec fn packet_views(s: Seq<VsockPacket>) -> Seq<PacketView> {
    Seq::new(s.len(), |i: int| s[i]@)
}

/// The state of a [`VsockBridge`].
#[verifier::ext_equal]
pub struct BridgeView<S> {
    pub connections: Seq<Connection<S>>,
    pub pending: Seq<PacketView>,
    /// The ports of the listener that were dialed, oldest first.
    pub dialed: Seq<u32>,
}

impl<S> BridgeView<S> {
    /// No connection occurs twice, and neither the connections nor the waiting packets are more
    /// than their cap.
    pub open spec fn wf(self) -> bool {
        &&& keys_distinct(self.connections)
        &&& self.connections.len() <= MAX_CONNECTIONS
        &&& self.pending.len() <= MAX_PENDING_RX
    }

    pub open spec fn sent(self, p: PacketView) -> BridgeView<S> {
        BridgeView { pending: enqueued(self.pending, p), ..self }
    }

    /// The host was asked to connect to `port`.
    pub open spec fn dialing(self, port: u32) -> BridgeView<S> {
        BridgeView { dialed: self.dialed.push(port), ..self }
    }

    pub open spec fn refused(self, h: VsockPacketHeader) -> BridgeView<S> {
        self.sent(reply_to(h, op::RST, 0, 0))
    }

    pub open spec fn without(self, key: ConnectionKey) -> BridgeView<S> {
        BridgeView { connections: removed(self.connections, key), ..self }
    }

    /// The guest accepted the connection.
    pub open spec fn accepted(self, h: VsockPacketHeader) -> BridgeView<S> {
        let key = guest_key(h);
        if has_key(self.connections, key) {
            let i = slot(self.connections, key);
            BridgeView {
                connections: self.connections.update(
                    i,
                    Connection { established: true, ..self.connections[i].credited(h) },
                ),
                ..self
            }
        } else {
            self
        }
    }

    /// The guest announced its credit.
    pub open spec fn credited(self, h: VsockPacketHeader) -> BridgeView<S> {
        let key = guest_key(h);
        if has_key(self.connections, key) {
            let i = slot(self.connections, key);
            BridgeView {
                connections: self.connections.update(i, self.connections[i].credited(h)),
                ..self
            }
        } else {
            self
        }
    }

    /// How many bytes the host has taken from the guest on a connection.
    pub open spec fn forwarded(self, key: ConnectionKey) -> u32 {
        if has_key(self.connections, key) {
            self.connections[slot(self.connections, key)].fwd_cnt
        } else {
            0
        }
    }
}

/// A byte count modulo 2^32 after `n` more bytes.
pub open spec fn advanced(count: u32, n: int) -> u32 {
    ((count + n) % 0x1_0000_0000) as u32
}

/// How a REQUEST may be handled: it is refused unless it is for the host, there is a listener
/// and room for a connection, and something answers at the port. The port is dialed once, and only
/// where the rest is in order.
pub open spec fn request_handled<L: HostVsockListener>(
    listener: Option<L>,
    s: BridgeView<L::Stream>,
    h: VsockPacketHeader,
    t: BridgeView<L::Stream>,
) -> bool {
    if h.dst_cid != VSOCK_HOST_CID || listener is None || exceeds_cap(
        s.connections,
        guest_key(h),
    ) {
        t == s.refused(h)
    } else {
        ||| listener->0.connect_gives(h.dst_port, None) && t == s.dialing(h.dst_port).refused(h)
        ||| exists|stream: L::Stream|
            #[trigger] listener->0.connect_gives(h.dst_port, Some(stream)) && t == BridgeView {
                connections: inserted(
                    s.connections,
                    Connection {
                        key: guest_key(h),
                        stream,
                        peer_buf_alloc: h.buf_alloc,
                        peer_fwd_cnt: h.fwd_cnt,
                        fwd_cnt: 0,
                        established: true,
                    },
                ),
                ..s.dialing(h.dst_port)
            }.sent(reply_to(h, op::RESPONSE, 0, 0))
    }
}

/// How data from the guest may be handled: it goes to the host's end of the connection. Where
/// there is none, or it takes no data, the connection is reset.
pub open spec fn rw_handled<S: HostVsockStream>(
    s: BridgeView<S>,
    h: VsockPacketHeader,
    data: Seq<u8>,
    t: BridgeView<S>,
) -> bool {
    let key = guest_key(h);
    if !has_key(s.connections, key) {
        t == s.refused(h)
    } else {
        let i = slot(s.connections, key);
        let conn = s.connections[i];
        exists|ok: bool, stream: S|
            #[trigger] conn.stream.write_gives(data, ok, stream) && t == if ok {
                BridgeView {
                    connections: s.connections.update(
                        i,
                        Connection {
                            stream,
                            fwd_cnt: advanced(conn.fwd_cnt, data.len() as int),
                            ..conn.credited(h)
                        },
                    ),
                    ..s
                }
            } else {
                s.without(key).refused(h)
            }
    }
}

/// How a packet from the guest may be handled.
pub open spec fn tx_handled<L: HostVsockListener>(
    listener: Option<L>,
    s: BridgeView<L::Stream>,
    p: PacketView,
    t: BridgeView<L::Stream>,
) -> bool {
    let h = p.header;
    if h.type_ != packet_type::STREAM {
        t == s.refused(h)
    } else if h.op == op::REQUEST {
        request_handled(listener, s, h, t)
    } else if h.op == op::RESPONSE {
        t == s.accepted(h)
    } else if h.op == op::RW {
        rw_handled(s, h, p.data, t)
    } else if h.op == op::CREDIT_UPDATE {
        t == s.credited(h)
    } else if h.op == op::CREDIT_REQUEST {
        t == s.sent(reply_to(h, op::CREDIT_UPDATE, 0, s.forwarded(guest_key(h))))
    } else if h.op == op::SHUTDOWN {
        t == s.without(guest_key(h)).sent(reply_to(h, op::SHUTDOWN, h.flags, 0))
    } else if h.op == op::RST {
        t == s.without(guest_key(h))
    } else if h.op == op::INVALID {
        t == s
    } else {
        t == s.refused(h)
    }
}

/// How polling one connection may go: which connections are kept and which packets are to be
/// sent, after those before it left `kept0` and `packets0`.
pub open spec fn conn_pumped<S: HostVsockStream>(
    conn: Connection<S>,
    kept0: Seq<Connection<S>>,
    packets0: Seq<PacketView>,
    kept: Seq<Connection<S>>,
    packets: Seq<PacketView>,
) -> bool {
    if !conn.established {
        kept == kept0.push(conn) && packets == packets0
    } else {
        exists|r: Result<Seq<u8>, HostReadError>, stream: S|
            #[trigger] conn.stream.read_gives(HOST_READ_CHUNK, r, stream) && match r {
                Ok(data) => data.len() <= HOST_READ_CHUNK && if data.len() == 0 {
                    &&& kept == kept0
                    &&& packets == packets0.push(
                        host_sends(
                            conn.key,
                            op::SHUTDOWN,
                            shutdown_flags::RCV,
                            Seq::empty(),
                            conn.fwd_cnt,
                        ),
                    )
                } else {
                    &&& kept == kept0.push(Connection { stream, ..conn })
                    &&& packets == packets0.push(
                        host_sends(conn.key, op::RW, 0, data, conn.fwd_cnt),
                    )
                },
                Err(HostReadError::Other) => {
                    &&& kept == kept0
                    &&& packets == packets0.push(
                        host_sends(conn.key, op::RST, 0, Seq::empty(), conn.fwd_cnt),
                    )
                },
                Err(_) => {
                    &&& kept == kept0.push(Connection { stream, ..conn })
                    &&& packets == packets0
                },
            }
    }
}

/// How polling the connections one after another may go.
pub open spec fn pumped<S: HostVsockStream>(
    c: Seq<Connection<S>>,
    kept: Seq<Connection<S>>,
    packets: Seq<PacketView>,
) -> bool
    decreases c.len(),
{
    if c.len() == 0 {
        kept == Seq::<Connection<S>>::empty() && packets == Seq::<PacketView>::empty()
    } else {
        exists|kept0: Seq<Connection<S>>, packets0: Seq<PacketView>|
            pumped(c.drop_last(), kept0, packets0) && #[trigger] conn_pumped(
                c.last(),
                kept0,
                packets0,
                kept,
                packets,
            )
    }
}

/// The connections, the packets that wait for the guest, and where new connections go.
pub struct VsockBridge<L: HostVsockListener> {
    pub listener: Option<Dialer<L>>,
    pub connections: Vec<Connection<L::Stream>>,
    pub pending: VecDeque<VsockPacket>,
}

impl<L: HostVsockListener> View for VsockBridge<L> {
    type V = BridgeView<L::Stream>;

    open spec fn view(&self) -> BridgeView<L::Stream> {
        BridgeView {
            connections: self.connections@,
            pending: packet_views(self.pending@),
            dialed: match self.listener {
                Some(d) => d@,
                None => Seq::empty(),
            },
        }
    }
}

/// The place of a key is the place where it stands.
proof fn lemma_slot<S>(c: Seq<Connection<S>>, key: ConnectionKey, i: int)
    requires
        keys_distinct(c),
        0 <= i < c.len(),
        c[i].key == key,
    ensures
        has_key(c, key),
        slot(c, key) == i,
{
    let j = slot(c, key);
    assert(0 <= j < c.len() && c[j].key == key);
    if i < j {
        assert(c[i].key != c[j].key);
    }
    if j < i {
        assert(c[j].key != c[i].key);
    }
}

/// After data from the guest was taken, its connection stands where it stood, with the data
/// counted. After it was not, the connection is gone.
pub proof fn lemma_rw_keeps_slot<S: HostVsockStream>(
    s: BridgeView<S>,
    h: VsockPacketHeader,
    data: Seq<u8>,
    t: BridgeView<S>,
)
    requires
        s.wf(),
        rw_handled(s, h, data, t),
        has_key(t.connections, guest_key(h)),
    ensures
        has_key(s.connections, guest_key(h)),
        slot(t.connections, guest_key(h)) == slot(s.connections, guest_key(h)),
        t.forwarded(guest_key(h)) == advanced(s.forwarded(guest_key(h)), data.len() as int),
{
    let key = guest_key(h);
    let c = s.connections;
    let j = slot(t.connections, key);
    assert(t.connections[j].key == key);
    if has_key(c, key) {
        let i = slot(c, key);
        assert(c[i].key == key);
        let (ok, stream) = choose|ok: bool, stream: S|
            #[trigger] c[i].stream.write_gives(data, ok, stream) && t == if ok {
                BridgeView {
                    connections: c.update(
                        i,
                        Connection {
                            stream,
                            fwd_cnt: advanced(c[i].fwd_cnt, data.len() as int),
                            ..c[i].credited(h)
                        },
                    ),
                    ..s
                }
            } else {
                s.without(key).refused(h)
            };
        if ok {
            if j != i {
                assert(t.connections[j] == c[j]);
                lemma_slot(c, key, j);
            }
        } else {
            let j0 = if j < i {
                j
            } else {
                j + 1
            };
            assert(t.connections[j] == c[j0]);
            lemma_slot(c, key, j0);
        }
    }
}

/// A packet from the host on a connection.
pub fn host_packet(
    key: ConnectionKey,
    op: u16,
    flags: u32,
    data: Vec<u8>,
    fwd_cnt: u32,
) -> (p: VsockPacket)
    ensures
        p@ == host_sends(key, op, flags, data@, fwd_cnt),
{
    VsockPacket::new(
        VsockPacketHeader {
            src_cid: VSOCK_HOST_CID,
            dst_cid: key.guest_cid,
            src_port: key.host_port,
            dst_port: key.guest_port,
            len: 0,
            type_: packet_type::STREAM,
            op,
            flags,
            buf_alloc: DEFAULT_BUF_ALLOC,
            fwd_cnt,
        },
        data,
    )
}

/// The key of the connection that a packet of the guest speaks of.
pub fn key_from_guest(header: &VsockPacketHeader) -> (k: ConnectionKey)
    ensures
        k == guest_key(*header),
{
    ConnectionKey {
        guest_cid: header.src_cid,
        guest_port: header.src_port,
        host_port: header.dst_port,
    }
}

/// The answer to a packet of the guest.
fn reply_packet(header: &VsockPacketHeader, op: u16, flags: u32, fwd_cnt: u32) -> (p: VsockPacket)
    ensures
        p@ == reply_to(*header, op, flags, fwd_cnt),
{
    let data: Vec<u8> = Vec::new();
    assert(data@ =~= Seq::<u8>::empty());
    host_packet(key_from_guest(header), op, flags, data, fwd_cnt)
}

impl<L: HostVsockListener> VsockBridge<L> {
    /// The listener, if there is one.
    pub open spec fn connector(&self) -> Option<L> {
        match self.listener {
            Some(d) => Some(d.listener()),
            None => None,
        }
    }

    /// No connections, and nothing waiting.
    pub fn new() -> (b: Self)
        ensures
            b.connector() is None,
            b@ == (BridgeView::<L::Stream> {
                connections: Seq::empty(),
                pending: Seq::empty(),
                dialed: Seq::empty(),
            }),
            b@.wf(),
    {
        let b = VsockBridge { listener: None, connections: Vec::new(), pending: VecDeque::new() };
        assert(b@ =~= BridgeView::<L::Stream> {
            connections: Seq::empty(),
            pending: Seq::empty(),
            dialed: Seq::empty(),
        });
        b
    }

    /// The place of the connection with that key.
    pub fn find(&self, key: &ConnectionKey) -> (r: Option<usize>)
        requires
            self@.wf(),
        ensures
            r is Some == has_key(self@.connections, *key),
            r matches Some(i) ==> i < self@.connections.len() && i == slot(
                self@.connections,
                *key,
            ) && self@.connections[i as int].key == *key,
    {
        let mut i: usize = 0;
        while i < self.connections.len()
            invariant
                i <= self.connections@.len(),
                self@.wf(),
                forall|j: int| 0 <= j < i ==> (#[trigger] self.connections@[j]).key != *key,
            decreases self.connections@.len() - i,
        {
            if self.connections[i].key == *key {
                proof {
                    lemma_slot(self.connections@, *key, i as int);
                }
                return Some(i);
            }
            i += 1;
        }
        None
    }

    /// Puts a packet behind those that wait. When they are too many it is dropped rather than
    /// let the queue grow: the guest is not draining RX.
    pub fn enqueue_rx(&mut self, packet: VsockPacket)
        requires
            old(self)@.wf(),
        ensures
            final(self)@ == old(self)@.sent(packet@),
            final(self)@.wf(),
            final(self).connector() == old(self).connector(),
    {
        if self.pending.len() >= MAX_PENDING_RX {
            return ;
        }
        self.pending.push_back(packet);
        assert(self@.pending =~= old(self)@.pending.push(packet@));
    }

    fn refuse(&mut self, header: &VsockPacketHeader)
        requires
            old(self)@.wf(),
        ensures
            final(self)@ == old(self)@.refused(*header),
            final(self)@.wf(),
            final(self).connector() == old(self).connector(),
    {
        self.enqueue_rx(reply_packet(header, op::RST, 0, 0));
    }

    /// Drops the connection with that key.
    pub fn remove(&mut self, key: &ConnectionKey)
        requires
            old(self)@.wf(),
        ensures
            final(self)@ == old(self)@.without(*key),
            final(self)@.wf(),
            final(self).connector() == old(self).connector(),
    {
        match self.find(key) {
            Some(i) => {
                let ghost before = self.connections@;
                let _conn = self.connections.remove(i);
                proof {
                    let after = self.connections@;
                    assert(after =~= before.remove(i as int));
                    assert forall|a: int, b: int| 0 <= a < b < after.len() implies (#[trigger] after[a]).key != (
                    #[trigger] after[b]).key by {
                        let a0 = if a < i {
                            a
                        } else {
                            a + 1
                        };
                        let b0 = if b < i {
                            b
                        } else {
                            b + 1
                        };
                        assert(after[a] == before[a0]);
                        assert(after[b] == before[b0]);
                    }
                }
            },
            None => {},
        }
    }

    /// Puts in a connection, in place of the one that had its key.
    pub fn insert(&mut self, conn: Connection<L::Stream>)
        requires
            old(self)@.wf(),
            !exceeds_cap(old(self)@.connections, conn.key),
        ensures
            final(self)@ == (BridgeView {
                connections: inserted(old(self)@.connections, conn),
                ..old(self)@
            }),
            final(self)@.wf(),
            final(self).connector() == old(self).connector(),
    {
        let ghost before = self.connections@;
        match self.find(&conn.key) {
            Some(i) => {
                self.connections.set(i, conn);
                proof {
                    let after = self.connections@;
                    assert forall|a: int, b: int| 0 <= a < b < after.len() implies (#[trigger] after[a]).key != (
                    #[trigger] after[b]).key by {
                        assert(before[a].key != before[b].key);
                    }
                }
            },
            None => {
                self.connections.push(conn);
                proof {
                    let after = self.connections@;
                    assert forall|a: int, b: int| 0 <= a < b < after.len() implies (#[trigger] after[a]).key != (
                    #[trigger] after[b]).key by {
                        assert(after[a] == before[a]);
                        if b < before.len() {
                            assert(after[b] == before[b]);
                        }
                    }
                }
            },
        }
    }

    /// The guest asks for a connection to a port of the host.
    pub fn handle_request(&mut self, header: VsockPacketHeader)
        requires
            old(self)@.wf(),
        ensures
            request_handled(old(self).connector(), old(self)@, header, final(self)@),
            final(self)@.wf(),
            final(self).connector() == old(self).connector(),
    {
        if header.dst_cid != VSOCK_HOST_CID {
            self.refuse(&header);
            return ;
        }
        let key = key_from_guest(&header);
        let taken = self.find(&key).is_some();
        let full = self.connections.len() >= MAX_CONNECTIONS;
        let answer = match &mut self.listener {
            None => None,
            Some(dialer) => {
                if full && !taken {
                    None
                } else {
                    dialer.dial(header.dst_port)
                }
            },
        };
        match answer {
            Some(stream) => {
                self.insert(
                    Connection {
                        key,
                        stream,
                        peer_buf_alloc: header.buf_alloc,
                        peer_fwd_cnt: header.fwd_cnt,
                        fwd_cnt: 0,
                        established: true,
                    },
                );
                self.enqueue_rx(reply_packet(&header, op::RESPONSE, 0, 0));
            },
            None => {
                self.refuse(&header);
            },
        }
    }

    /// The guest accepts a connection that the host asked for.
    pub fn handle_response(&mut self, header: VsockPacketHeader)
        requires
            old(self)@.wf(),
        ensures
            final(self)@ == old(self)@.accepted(header),
            final(self)@.wf(),
            final(self).connector() == old(self).connector(),
    {
        let key = key_from_guest(&header);
        match self.find(&key) {
            Some(i) => {
                self.connections[i].established = true;
                self.connections[i].peer_buf_alloc = header.buf_alloc;
                self.connections[i].peer_fwd_cnt = header.fwd_cnt;
                assert(self@ =~= old(self)@.accepted(header));
            },
            None => {},
        }
    }

    /// The guest sends data.
    pub fn handle_rw(&mut self, header: VsockPacketHeader, data: &[u8])
        requires
            old(self)@.wf(),
        ensures
            rw_handled(old(self)@, header, data@, final(self)@),
            final(self)@.wf(),
            final(self).connector() == old(self).connector(),
    {
        let key = key_from_guest(&header);
        match self.find(&key) {
            Some(i) => {
                let ghost before = self.connections@;
                let ok = self.connections[i].stream.write_all(data);
                let ghost stream = self.connections@[i as int].stream;
                assert(before[i as int].stream.write_gives(data@, ok, stream));
                if ok {
                    // These bytes were forwarded from the guest to the host application; the
                    // count advances so that credit updates reflect the freed buffer space.
                    self.connections[i].fwd_cnt = advance(self.connections[i].fwd_cnt, data.len());
                    self.connections[i].peer_buf_alloc = header.buf_alloc;
                    self.connections[i].peer_fwd_cnt = header.fwd_cnt;
                    assert(self@ =~= BridgeView {
                        connections: before.update(
                            i as int,
                            Connection {
                                stream,
                                fwd_cnt: advanced(before[i as int].fwd_cnt, data@.len() as int),
                                ..before[i as int].credited(header)
                            },
                        ),
                        ..old(self)@
                    });
                } else {
                    assert(self.connections@.remove(i as int) =~= before.remove(i as int));
                    proof {
                        lemma_slot(self.connections@, key, i as int);
                    }
                    self.remove(&key);
                    assert(self@ =~= old(self)@.without(key));
                    self.refuse(&header);
                }
            },
            None => {
                self.refuse(&header);
            },
        }
    }

    /// The guest announces its credit.
    pub fn handle_credit_update(&mut self, header: VsockPacketHeader)
        requires
            old(self)@.wf(),
        ensures
            final(self)@ == old(self)@.credited(header),
            final(self)@.wf(),
            final(self).connector() == old(self).connector(),
    {
        let key = key_from_guest(&header);
        match self.find(&key) {
            Some(i) => {
                self.connections[i].peer_buf_alloc = header.buf_alloc;
                self.connections[i].peer_fwd_cnt = header.fwd_cnt;
                assert(self@ =~= old(self)@.credited(header));
            },
            None => {},
        }
    }

    /// The guest asks for the host's credit.
    pub fn handle_credit_request(&mut self, header: VsockPacketHeader)
        requires
            old(self)@.wf(),
        ensures
            final(self)@ == old(self)@.sent(
                reply_to(header, op::CREDIT_UPDATE, 0, old(self)@.forwarded(guest_key(header))),
            ),
            final(self)@.wf(),
            final(self).connector() == old(self).connector(),
    {
        let key = key_from_guest(&header);
        let fwd_cnt: u32 = match self.find(&key) {
            Some(i) => self.connections[i].fwd_cnt,
            None => 0,
        };
        self.enqueue_rx(reply_packet(&header, op::CREDIT_UPDATE, 0, fwd_cnt));
    }

    /// The guest closes a connection in order.
    pub fn handle_shutdown(&mut self, header: VsockPacketHeader)
        requires
            old(self)@.wf(),
        ensures
            final(self)@ == old(self)@.without(guest_key(header)).sent(
                reply_to(header, op::SHUTDOWN, header.flags, 0),
            ),
            final(self)@.wf(),
            final(self).connector() == old(self).connector(),
    {
        self.remove(&key_from_guest(&header));
        self.enqueue_rx(reply_packet(&header, op::SHUTDOWN, header.flags, 0));
    }

    /// The guest breaks a connection off.
    pub fn handle_rst(&mut self, header: VsockPacketHeader)
        requires
            old(self)@.wf(),
        ensures
            final(self)@ == old(self)@.without(guest_key(header)),
            final(self)@.wf(),
            final(self).connector() == old(self).connector(),
    {
        self.remove(&key_from_guest(&header));
    }

    /// Handles a packet from the guest.
    pub fn handle_tx_packet(&mut self, packet: VsockPacket)
        requires
            old(self)@.wf(),
        ensures
            tx_handled(old(self).connector(), old(self)@, packet@, final(self)@),
            final(self)@.wf(),
            final(self).connector() == old(self).connector(),
    {
        let header = packet.header;
        if header.type_ != packet_type::STREAM {
            self.refuse(&header);
        } else if header.op == op::REQUEST {
            self.handle_request(header);
        } else if header.op == op::RESPONSE {
            self.handle_response(header);
        } else if header.op == op::RW {
            self.handle_rw(header, packet.data.as_slice());
        } else if header.op == op::CREDIT_UPDATE {
            self.handle_credit_update(header);
        } else if header.op == op::CREDIT_REQUEST {
            self.handle_credit_request(header);
        } else if header.op == op::SHUTDOWN {
            self.handle_shutdown(header);
        } else if header.op == op::RST {
            self.handle_rst(header);
        } else if header.op != op::INVALID {
            self.refuse(&header);
        }
    }
}

fn advance(count: u32, n: usize) -> (r: u32)
    ensures
        r == advanced(count, n as int),
{
    let low: u32 = (n as u64 % 0x1_0000_0000) as u32;
    let sum: u64 = count as u64 + low as u64;
    (sum % 0x1_0000_0000) as u32
}

} // verus!
