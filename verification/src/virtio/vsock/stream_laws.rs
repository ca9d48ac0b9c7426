//! What packets do to connections, and which bytes pass between guest and host.
use crate::virtio::vsock::connections::{
    self, BridgeView, Connection, ConnectionKey, HostReadError, HostVsockListener, HostVsockStream,
    VsockBridge, VsockConnectionState,
};
use crate::virtio::vsock::packet::{PacketView, VsockPacket, VsockPacketHeader};
use crate::virtio::vsock::ports;
use crate::virtio::vsock::pump;
use crate::virtio::vsock::{self, VsockView};
use vstd::prelude::*;

verus! {

/// The connection that a packet of the guest speaks of: from the guest's port to the host's.
pub open spec fn names(h: VsockPacketHeader, key: ConnectionKey) -> bool {
    &&& key.guest_cid == h.src_cid
    &&& key.guest_port == h.src_port
    &&& key.host_port == h.dst_port
}

/// No connection has the key.
pub open spec fn unknown<S>(c: Seq<Connection<S>>, key: ConnectionKey) -> bool {
    forall|i: int| 0 <= i < c.len() ==> (#[trigger] c[i]).key != key
}

/// Connection `i` is the one that a packet speaks of.
pub open spec fn stands_at<S>(c: Seq<Connection<S>>, h: VsockPacketHeader, i: int) -> bool {
    0 <= i < c.len() && names(h, c[i].key)
}

/// `p` is a stream packet from the host to the guest on a connection, with this content.
pub open spec fn is_from_host(
    p: PacketView,
    key: ConnectionKey,
    op: int,
    flags: int,
    fwd_cnt: int,
    data: Seq<u8>,
) -> bool {
    &&& p.header.src_cid == 2
    &&& p.header.dst_cid == key.guest_cid
    &&& p.header.src_port == key.host_port
    &&& p.header.dst_port == key.guest_port
    &&& p.header.type_ == 1
    &&& p.header.op == op
    &&& p.header.flags == flags
    &&& p.header.buf_alloc == 262144
    &&& p.header.fwd_cnt == fwd_cnt
    &&& p.header.len == data.len() || data.len() > u32::MAX
    &&& p.data == data
}

/// One packet without data was put behind those that wait, unless 4096 of them do.
pub open spec fn answered(
    then: Seq<PacketView>,
    now: Seq<PacketView>,
    key: ConnectionKey,
    op: int,
    flags: int,
    fwd_cnt: int,
) -> bool {
    if then.len() >= 4096 {
        now == then
    } else {
        &&& now.len() == then.len() + 1
        &&& forall|i: int| 0 <= i < then.len() ==> #[trigger] now[i] == then[i]
        &&& is_from_host(now.last(), key, op, flags, fwd_cnt, Seq::empty())
    }
}

/// Only connection `i` differs.
pub open spec fn only_changed<S>(a: Seq<Connection<S>>, b: Seq<Connection<S>>, i: int) -> bool {
    &&& b.len() == a.len()
    &&& forall|j: int| 0 <= j < a.len() && j != i ==> #[trigger] b[j] == a[j]
}

/// Connection `i` is gone, and the others are as they were.
pub open spec fn only_gone<S>(a: Seq<Connection<S>>, b: Seq<Connection<S>>, i: int) -> bool {
    &&& b.len() == a.len() - 1
    &&& forall|j: int|
        0 <= j < b.len() ==> #[trigger] b[j] == a[if j < i {
            j
        } else {
            j + 1
        }]
}

proof fn lemma_place<S>(c: Seq<Connection<S>>, h: VsockPacketHeader, i: int)
    requires
        connections::keys_distinct(c),
        stands_at(c, h, i),
    ensures
        connections::has_key(c, connections::guest_key(h)),
        connections::slot(c, connections::guest_key(h)) == i,
        connections::guest_key(h) == c[i].key,
{
    let key = connections::guest_key(h);
    assert(c[i].key == key);
    let j = connections::slot(c, key);
    assert(0 <= j < c.len() && c[j].key == key);
    if i < j {
        assert(c[i].key != c[j].key);
    }
    if j < i {
        assert(c[j].key != c[i].key);
    }
}

proof fn lemma_no_place<S>(c: Seq<Connection<S>>, h: VsockPacketHeader)
    requires
        forall|i: int| !#[trigger] stands_at(c, h, i),
    ensures
        !connections::has_key(c, connections::guest_key(h)),
{
    let key = connections::guest_key(h);
    if connections::has_key(c, key) {
        let i = choose|i: int| 0 <= i < c.len() && (#[trigger] c[i]).key == key;
        assert(stands_at(c, h, i));
    }
}

/// What data on connection `i` comes to. Where the connection stays, its stream is one that a
/// successful write of exactly `data` left, and its count advanced by the length of `data`; where
/// the stream did not take it, the connection is gone and the guest is sent an RST.
pub open spec fn hands_over<S: HostVsockStream>(
    s: BridgeView<S>,
    h: VsockPacketHeader,
    data: Seq<u8>,
    t: BridgeView<S>,
    i: int,
) -> bool {
    let then = s.connections[i];
    let now = t.connections[i];
    if stands_at(t.connections, h, i) {
        &&& then.stream.write_gives(data, true, now.stream)
        &&& now.fwd_cnt == (then.fwd_cnt + data.len()) % 4294967296
        &&& now.peer_buf_alloc == h.buf_alloc
        &&& now.peer_fwd_cnt == h.fwd_cnt
        &&& now.established == then.established
        &&& now.key == then.key
        &&& only_changed(s.connections, t.connections, i)
        &&& t.pending == s.pending
    } else {
        &&& exists|stream: S| then.stream.write_gives(data, false, stream)
        &&& only_gone(s.connections, t.connections, i)
        &&& answered(s.pending, t.pending, then.key, 3, 0, 0)
        &&& unknown(t.connections, then.key)
    }

}

/// Data on a connection goes to the host's stream, all of it and nothing else. Where the
/// connection stays, its stream is one that a successful write of exactly the packet's data left,
/// and the bytes of that data are what its count advanced by. Where the stream does not take
/// them, the connection is gone and the guest is sent an RST. No other connection changes.
pub proof fn law_rw_hands_over_the_data<S: HostVsockStream>(
    s: BridgeView<S>,
    h: VsockPacketHeader,
    data: Seq<u8>,
    t: BridgeView<S>,
    i: int,
)
    requires
        s.wf(),
        connections::rw_handled(s, h, data, t),
        stands_at(s.connections, h, i),
    ensures
        hands_over(s, h, data, t, i),
        t.dialed == s.dialed,
{
    let key = connections::guest_key(h);
    let c = s.connections;
    lemma_place(c, h, i);
    let (ok, stream) = choose|ok: bool, stream: S|
        #[trigger] c[i].stream.write_gives(data, ok, stream) && t == if ok {
            BridgeView {
                connections: c.update(
                    i,
                    Connection {
                        stream,
                        fwd_cnt: connections::advanced(c[i].fwd_cnt, data.len() as int),
                        ..c[i].credited(h)
                    },
                ),
                ..s
            }
        } else {
            s.without(key).refused(h)
        };
    if !ok {
        lemma_gone(c, h, i);
        if stands_at(t.connections, h, i) {
            assert(t.connections[i].key == key);
        }
    }
}

proof fn lemma_gone<S>(c: Seq<Connection<S>>, h: VsockPacketHeader, i: int)
    requires
        connections::keys_distinct(c),
        stands_at(c, h, i),
    ensures
        only_gone(c, connections::removed(c, connections::guest_key(h)), i),
        unknown(connections::removed(c, connections::guest_key(h)), c[i].key),
{
    lemma_place(c, h, i);
    let r = connections::removed(c, connections::guest_key(h));
    assert forall|j: int| 0 <= j < r.len() implies (#[trigger] r[j]).key != c[i].key by {
        if j < i {
            assert(r[j] == c[j]);
            assert(c[j].key != c[i].key);
        } else {
            assert(r[j] == c[j + 1]);
            assert(c[i].key != c[j + 1].key);
        }
    }
}

/// The data of the first `n` packets, put together.
pub open spec fn put_together(data: Seq<Seq<u8>>, n: int) -> Seq<u8>
    decreases n,
{
    if n <= 0 {
        Seq::empty()
    } else {
        put_together(data, n - 1) + data[n - 1]
    }
}

/// The packets of a guest on one connection were handled one after the other, and the connection
/// has stayed in its place.
pub open spec fn handled_in_turn<S: HostVsockStream>(
    states: Seq<BridgeView<S>>,
    headers: Seq<VsockPacketHeader>,
    data: Seq<Seq<u8>>,
    key: ConnectionKey,
    i: int,
) -> bool {
    &&& states.len() == data.len() + 1
    &&& headers.len() == data.len()
    &&& forall|k: int|
        0 <= k < data.len() ==> connections::rw_handled(
            states[k],
            headers[k],
            #[trigger] data[k],
            states[k + 1],
        ) && names(headers[k], key)
    &&& forall|k: int|
        0 <= k < states.len() ==> (#[trigger] states[k]).wf() && 0 <= i
            < states[k].connections.len() && states[k].connections[i].key == key
}

/// The bytes that a stream has taken over several packets are the packets' data, put together:
/// whatever of a stream grows by exactly the data of each successful write has grown by them, and
/// the count of the connection has advanced by their number.
pub proof fn law_stream_takes_all_data<S: HostVsockStream>(
    states: Seq<BridgeView<S>>,
    headers: Seq<VsockPacketHeader>,
    data: Seq<Seq<u8>>,
    key: ConnectionKey,
    i: int,
    taken: spec_fn(S) -> Seq<u8>,
    n: int,
)
    requires
        handled_in_turn(states, headers, data, key, i),
        forall|a: S, d: Seq<u8>, b: S| #[trigger]
            a.write_gives(d, true, b) ==> taken(b) == taken(a) + d,
        0 <= n <= data.len(),
    ensures
        taken(states[n].connections[i].stream) == taken(states[0].connections[i].stream)
            + put_together(data, n),
        states[n].connections[i].fwd_cnt == (states[0].connections[i].fwd_cnt + put_together(
            data,
            n,
        ).len()) % 4294967296,
    decreases n,
{
    let first = taken(states[0].connections[i].stream);
    assert(states[0].wf());
    if n > 0 {
        law_stream_takes_all_data(states, headers, data, key, i, taken, n - 1);
        assert(states[n - 1].wf());
        assert(states[n].wf());
        assert(connections::rw_handled(
            states[n - 1],
            headers[n - 1],
            data[n - 1],
            states[n - 1 + 1],
        ));
        law_rw_hands_over_the_data(states[n - 1], headers[n - 1], data[n - 1], states[n], i);
        assert(first + put_together(data, n - 1) + data[n - 1] =~= first + put_together(data, n));
    } else {
        assert(first + put_together(data, 0) =~= first);
    }
}

/// What each stream packet of the guest does to a connection that there is. Operation 2 accepts
/// it; 6 announces credit; 7 asks for the host's and is sent it; 4 ends it and is answered in
/// kind; 3 ends it; 0 does nothing.
pub proof fn law_packet_does_its_operation<L: HostVsockListener>(
    listener: Option<L>,
    s: BridgeView<L::Stream>,
    p: PacketView,
    t: BridgeView<L::Stream>,
    i: int,
)
    requires
        s.wf(),
        connections::tx_handled(listener, s, p, t),
        p.header.type_ == 1,
        stands_at(s.connections, p.header, i),
    ensures
        ({
            let h = p.header;
            let key = s.connections[i].key;
            let then = s.connections[i];
            let now = t.connections[i];
            &&& h.op == 2 ==> only_changed(s.connections, t.connections, i) && now == Connection {
                established: true,
                peer_buf_alloc: h.buf_alloc,
                peer_fwd_cnt: h.fwd_cnt,
                ..then
            } && t.pending == s.pending
            &&& h.op == 6 ==> only_changed(s.connections, t.connections, i) && now == Connection {
                peer_buf_alloc: h.buf_alloc,
                peer_fwd_cnt: h.fwd_cnt,
                ..then
            } && t.pending == s.pending
            &&& h.op == 7 ==> t.connections == s.connections && answered(
                s.pending,
                t.pending,
                key,
                6,
                0,
                then.fwd_cnt as int,
            )
            &&& h.op == 4 ==> only_gone(s.connections, t.connections, i) && answered(
                s.pending,
                t.pending,
                key,
                4,
                h.flags as int,
                0,
            )
            &&& h.op == 3 ==> only_gone(s.connections, t.connections, i) && t.pending == s.pending
            &&& h.op == 0 ==> t == s
            &&& h.op != 1 ==> t.dialed == s.dialed
            &&& h.op == 5 ==> connections::rw_handled(s, h, p.data, t)
        }),
{
    lemma_place(s.connections, p.header, i);
    lemma_gone(s.connections, p.header, i);
    if p.header.op == 5 {
        law_rw_hands_over_the_data(s, p.header, p.data, t, i);
    }
}

/// What each stream packet of the guest does where there is no such connection. Data and unknown
/// operations are answered with an RST, a request for credit with none taken, the end of a
/// connection in kind; the others do nothing.
pub proof fn law_packet_without_connection<L: HostVsockListener>(
    listener: Option<L>,
    s: BridgeView<L::Stream>,
    p: PacketView,
    t: BridgeView<L::Stream>,
)
    requires
        s.wf(),
        connections::tx_handled(listener, s, p, t),
        p.header.type_ == 1,
        p.header.op != 1,
        forall|i: int| !#[trigger] stands_at(s.connections, p.header, i),
    ensures
        t.connections == s.connections,
        t.dialed == s.dialed,
        ({
            let h = p.header;
            let key = ConnectionKey {
                guest_cid: h.src_cid,
                guest_port: h.src_port,
                host_port: h.dst_port,
            };
            if h.op == 5 || h.op > 7 {
                answered(s.pending, t.pending, key, 3, 0, 0)
            } else if h.op == 7 {
                answered(s.pending, t.pending, key, 6, 0, 0)
            } else if h.op == 4 {
                answered(s.pending, t.pending, key, 4, h.flags as int, 0)
            } else {
                t.pending == s.pending
            }
        }),
{
    lemma_no_place(s.connections, p.header);
}

/// A request of the guest for a connection. Where it is for the host, there is a listener, and
/// either the connection is there already or fewer than 1024 are, the listener is asked for the
/// port once. What it gives becomes the stream of the connection, new or in place of the one there
/// was, with the credit that the guest announced, and the guest is sent a response; where it gives
/// nothing, the guest is sent an RST, as where the listener is not asked.
pub proof fn law_request_is_dialed<L: HostVsockListener>(
    listener: Option<L>,
    s: BridgeView<L::Stream>,
    p: PacketView,
    t: BridgeView<L::Stream>,
)
    requires
        s.wf(),
        connections::tx_handled(listener, s, p, t),
        p.header.type_ == 1,
        p.header.op == 1,
    ensures
        ({
            let h = p.header;
            let key = ConnectionKey {
                guest_cid: h.src_cid,
                guest_port: h.src_port,
                host_port: h.dst_port,
            };
            let known = exists|i: int| #[trigger] stands_at(s.connections, h, i);
            if h.dst_cid != 2 || listener is None || s.connections.len() >= 1024 && !known {
                &&& t.connections == s.connections
                &&& t.dialed == s.dialed
                &&& answered(s.pending, t.pending, key, 3, 0, 0)
            } else {
                &&& t.dialed == s.dialed.push(h.dst_port)
                &&& {
                    ||| {
                        &&& listener->0.connect_gives(h.dst_port, None)
                        &&& t.connections == s.connections
                        &&& answered(s.pending, t.pending, key, 3, 0, 0)
                    }
                    ||| exists|i: int|
                        {
                            let now = t.connections[i];
                            &&& #[trigger] stands_at(t.connections, h, i)
                            &&& listener->0.connect_gives(h.dst_port, Some(now.stream))
                            &&& now.fwd_cnt == 0
                            &&& now.peer_buf_alloc == h.buf_alloc
                            &&& now.peer_fwd_cnt == h.fwd_cnt
                            &&& now.established
                            &&& if known {
                                stands_at(s.connections, h, i) && only_changed(
                                    s.connections,
                                    t.connections,
                                    i,
                                )
                            } else {
                                &&& i == s.connections.len()
                                &&& t.connections.drop_last() == s.connections
                            }
                            &&& answered(s.pending, t.pending, key, 2, 0, 0)
                        }
                }
            }
        }),
{
    let h = p.header;
    let key = connections::guest_key(h);
    let c = s.connections;
    let known = exists|i: int| #[trigger] stands_at(c, h, i);
    if known {
        let i = choose|i: int| #[trigger] stands_at(c, h, i);
        lemma_place(c, h, i);
    } else {
        lemma_no_place(c, h);
    }
    if !(h.dst_cid != 2 || listener is None || c.len() >= 1024 && !known) {
        if !(listener->0.connect_gives(h.dst_port, None) && t == s.dialing(h.dst_port).refused(h)) {
            let stream = choose|stream: L::Stream|
                #[trigger] listener->0.connect_gives(h.dst_port, Some(stream)) && t == BridgeView {
                    connections: connections::inserted(
                        c,
                        Connection {
                            key,
                            stream,
                            peer_buf_alloc: h.buf_alloc,
                            peer_fwd_cnt: h.fwd_cnt,
                            fwd_cnt: 0,
                            established: true,
                        },
                    ),
                    ..s.dialing(h.dst_port)
                }.sent(connections::reply_to(h, 2, 0, 0));
            if known {
                let i = choose|i: int| #[trigger] stands_at(c, h, i);
                assert(stands_at(t.connections, h, i));
            } else {
                assert(t.connections.drop_last() =~= c);
                assert(stands_at(t.connections, h, c.len() as int));
            }
        }
    }
}

/// What a poll of one connection's stream gave: the result of the read, and the stream after it.
pub struct Polled<S> {
    pub r: Result<Seq<u8>, HostReadError>,
    pub stream: S,
}

/// The connection is still there after the poll: it was not polled, or bytes came, or none yet.
pub open spec fn is_kept<S>(conn: Connection<S>, polled: Polled<S>) -> bool {
    !conn.established || match polled.r {
        Ok(data) => data.len() > 0,
        Err(HostReadError::Other) => false,
        Err(_) => true,
    }
}

/// The guest is sent a packet after the poll: bytes came, or the stream has ended or is broken.
pub open spec fn is_told<S>(conn: Connection<S>, polled: Polled<S>) -> bool {
    conn.established && match polled.r {
        Ok(_) => true,
        Err(HostReadError::Other) => true,
        Err(_) => false,
    }
}

/// How many of the first `n` connections are kept.
pub open spec fn count_kept<S>(c: Seq<Connection<S>>, polled: Seq<Polled<S>>, n: int) -> int
    decreases n,
{
    if n <= 0 {
        0
    } else {
        count_kept(c, polled, n - 1) + (if is_kept(c[n - 1], polled[n - 1]) {
            1int
        } else {
            0
        })
    }
}

/// How many packets the first `n` connections make.
pub open spec fn count_told<S>(c: Seq<Connection<S>>, polled: Seq<Polled<S>>, n: int) -> int
    decreases n,
{
    if n <= 0 {
        0
    } else {
        count_told(c, polled, n - 1) + (if is_told(c[n - 1], polled[n - 1]) {
            1int
        } else {
            0
        })
    }
}

/// What polling connection `i` came to. An established connection was read once, for at most 4096
/// bytes. The bytes that came, all of them and nothing else, are the data of one packet with
/// operation 5; no bytes make a packet with operation 4 that the guest will receive no more, and a
/// broken stream one with operation 3. A connection that is kept is as it was but for the stream.
pub open spec fn polled_right<S: HostVsockStream>(
    c: Seq<Connection<S>>,
    polled: Seq<Polled<S>>,
    kept: Seq<Connection<S>>,
    packets: Seq<PacketView>,
    i: int,
) -> bool {
    let conn = c[i];
    let got = polled[i];
    let k = count_kept(c, polled, i);
    let j = count_told(c, polled, i);
    &&& conn.established ==> conn.stream.read_gives(4096, got.r, got.stream)
    &&& conn.established && got.r is Ok ==> got.r->Ok_0.len() <= 4096
    &&& is_kept(conn, got) ==> 0 <= k < kept.len() && kept[k] == Connection {
        stream: if conn.established {
            got.stream
        } else {
            conn.stream
        },
        ..conn
    }
    &&& is_told(conn, got) ==> 0 <= j < packets.len() && match got.r {
        Ok(data) => if data.len() > 0 {
            is_from_host(packets[j], conn.key, 5, 0, conn.fwd_cnt as int, data)
        } else {
            is_from_host(packets[j], conn.key, 4, 1, conn.fwd_cnt as int, Seq::empty())
        },
        Err(_) => is_from_host(packets[j], conn.key, 3, 0, conn.fwd_cnt as int, Seq::empty()),
    }
}

proof fn lemma_counts_same<S>(
    c: Seq<Connection<S>>,
    p: Seq<Polled<S>>,
    d: Seq<Connection<S>>,
    q: Seq<Polled<S>>,
    n: int,
)
    requires
        n <= c.len(),
        n <= p.len(),
        n <= d.len(),
        n <= q.len(),
        forall|i: int| 0 <= i < n ==> #[trigger] c[i] == d[i],
        forall|i: int| 0 <= i < n ==> #[trigger] p[i] == q[i],
    ensures
        count_kept(c, p, n) == count_kept(d, q, n),
        count_told(c, p, n) == count_told(d, q, n),
    decreases n,
{
    if n > 0 {
        lemma_counts_same(c, p, d, q, n - 1);
        assert(c[n - 1] == d[n - 1]);
        assert(p[n - 1] == q[n - 1]);
    }
}

proof fn lemma_counts_grow<S>(c: Seq<Connection<S>>, p: Seq<Polled<S>>, i: int, n: int)
    requires
        0 <= i <= n,
    ensures
        0 <= count_kept(c, p, i) <= count_kept(c, p, n),
        0 <= count_told(c, p, i) <= count_told(c, p, n),
    decreases n,
{
    if i < n {
        lemma_counts_grow(c, p, i, n - 1);
    } else if n > 0 {
        lemma_counts_grow(c, p, n - 1, n - 1);
    }
}

/// Polling goes through the connections in order, and what each stream gave goes to the guest
/// whole, as [`polled_right`] says; there are no other packets and no other connections.
pub proof fn law_polling_hands_over_the_data<S: HostVsockStream>(
    c: Seq<Connection<S>>,
    kept: Seq<Connection<S>>,
    packets: Seq<PacketView>,
) -> (polled: Seq<Polled<S>>)
    requires
        connections::pumped(c, kept, packets),
    ensures
        polled.len() == c.len(),
        kept.len() == count_kept(c, polled, c.len() as int),
        packets.len() == count_told(c, polled, c.len() as int),
        forall|i: int|
            0 <= i < c.len() ==> #[trigger] polled_right(c, polled, kept, packets, i),
    decreases c.len(),
{
    if c.len() == 0 {
        Seq::empty()
    } else {
        let (kept0, packets0) = choose|kept0: Seq<Connection<S>>, packets0: Seq<PacketView>|
            connections::pumped(c.drop_last(), kept0, packets0)
                && #[trigger] connections::conn_pumped(c.last(), kept0, packets0, kept, packets);
        let front = c.drop_last();
        let n = c.len() - 1;
        let conn = c[n];
        let before = law_polling_hands_over_the_data(front, kept0, packets0);
        let got = if conn.established {
            let (r, stream) = lemma_read(conn, kept0, packets0, kept, packets);
            Polled { r, stream }
        } else {
            Polled { r: Err(HostReadError::Other), stream: conn.stream }
        };
        let polled = before.push(got);
        lemma_counts_same(front, before, c, polled, n);
        lemma_counts_grow(c, polled, n, n);
        assert forall|i: int| 0 <= i < c.len() implies #[trigger] polled_right(
            c,
            polled,
            kept,
            packets,
            i,
        ) by {
            if i < n {
                assert(polled_right(front, before, kept0, packets0, i));
                lemma_counts_same(front, before, c, polled, i);
                lemma_counts_grow(c, polled, i, n);
                assert(front[i] == c[i]);
            }
        }
        polled
    }
}

proof fn lemma_read<S: HostVsockStream>(
    conn: Connection<S>,
    kept0: Seq<Connection<S>>,
    packets0: Seq<PacketView>,
    kept: Seq<Connection<S>>,
    packets: Seq<PacketView>,
) -> (x: (Result<Seq<u8>, HostReadError>, S))
    requires
        conn.established,
        connections::conn_pumped(conn, kept0, packets0, kept, packets),
    ensures
        conn.stream.read_gives(4096, x.0, x.1),
        x.0 matches Ok(data) ==> data.len() <= 4096,
        ({
            let got = Polled { r: x.0, stream: x.1 };
            &&& kept == (if is_kept(conn, got) {
                kept0.push(Connection { stream: x.1, ..conn })
            } else {
                kept0
            })
            &&& is_told(conn, got) ==> packets == packets0.push(packets.last()) && match x.0 {
                Ok(data) => if data.len() > 0 {
                    is_from_host(packets.last(), conn.key, 5, 0, conn.fwd_cnt as int, data)
                } else {
                    is_from_host(packets.last(), conn.key, 4, 1, conn.fwd_cnt as int, Seq::empty())
                },
                Err(_) => is_from_host(
                    packets.last(),
                    conn.key,
                    3,
                    0,
                    conn.fwd_cnt as int,
                    Seq::empty(),
                ),
            }
            &&& !is_told(conn, got) ==> packets == packets0
        }),
{
    choose|r: Result<Seq<u8>, HostReadError>, stream: S|
        #[trigger] conn.stream.read_gives(4096, r, stream) && match r {
            Ok(data) => data.len() <= 4096 && if data.len() == 0 {
                &&& kept == kept0
                &&& packets == packets0.push(
                    connections::host_sends(conn.key, 4, 1, Seq::empty(), conn.fwd_cnt),
                )
            } else {
                &&& kept == kept0.push(Connection { stream, ..conn })
                &&& packets == packets0.push(
                    connections::host_sends(conn.key, 5, 0, data, conn.fwd_cnt),
                )
            },
            Err(HostReadError::Other) => {
                &&& kept == kept0
                &&& packets == packets0.push(
                    connections::host_sends(conn.key, 3, 0, Seq::empty(), conn.fwd_cnt),
                )
            },
            Err(_) => {
                &&& kept == kept0.push(Connection { stream, ..conn })
                &&& packets == packets0
            },
        }
}

/// The packets of a poll wait behind those that were there, in their order, as far as there is
/// room for 4096 in all; the rest are dropped.
pub proof fn law_polled_packets_wait_in_order<S: HostVsockStream>(
    s: BridgeView<S>,
    t: BridgeView<S>,
    queued: nat,
) -> (r: (Seq<PacketView>, Seq<Polled<S>>))
    requires
        pump::bridge_pumped(s, t, queued),
        s.pending.len() <= 4096,
    ensures
        ({
            let (packets, polled) = r;
            let c = s.connections;
            let room = 4096 - s.pending.len();
            &&& queued == packets.len()
            &&& polled.len() == c.len()
            &&& t.connections.len() == count_kept(c, polled, c.len() as int)
            &&& packets.len() == count_told(c, polled, c.len() as int)
            &&& forall|i: int|
                0 <= i < c.len() ==> #[trigger] polled_right(c, polled, t.connections, packets, i)
            &&& t.pending == s.pending + packets.take(if packets.len() <= room {
                packets.len() as int
            } else {
                room
            })
            &&& t.dialed == s.dialed
        }),
{
    let (kept, packets) = choose|kept: Seq<Connection<S>>, packets: Seq<PacketView>|
        #[trigger] connections::pumped(s.connections, kept, packets) && queued == packets.len() && t
            == BridgeView {
            connections: kept,
            pending: connections::enqueued_all(s.pending, packets),
            ..s
        };
    let polled = law_polling_hands_over_the_data(s.connections, kept, packets);
    lemma_enqueued_all(s.pending, packets);
    (packets, polled)
}

proof fn lemma_enqueued_all(q: Seq<PacketView>, more: Seq<PacketView>)
    requires
        q.len() <= 4096,
    ensures
        connections::enqueued_all(q, more) == q + more.take(if more.len() <= 4096 - q.len() {
            more.len() as int
        } else {
            4096 - q.len()
        }),
    decreases more.len(),
{
    let room = 4096 - q.len();
    if more.len() == 0 {
        assert(q + more.take(0) =~= q);
    } else {
        let front = more.drop_last();
        lemma_enqueued_all(q, front);
        if more.len() <= room {
            assert(front.take(front.len() as int) =~= front);
            assert((q + front).push(more.last()) =~= q + more.take(more.len() as int));
        } else {
            assert(front.take(if front.len() <= room {
                front.len() as int
            } else {
                room
            }) =~= more.take(room));
        }
    }
}

/// Ports are tried one after the other and go round in the range from 49152 to 65535, and so does
/// the counter in 32 bits.
pub proof fn law_ports_go_round(next: u32, n: int)
    requires
        0 <= n,
    ensures
        ({
            let here = ports::port_of(ports::counter_after(next, n));
            let there = ports::port_of(ports::counter_after(next, n + 1));
            &&& 49152 <= here <= 65535
            &&& there == (if here == 65535 {
                49152
            } else {
                (here + 1) as u32
            })
            &&& ports::counter_after(next, n) == (next + n) % 4294967296
        }),
{
    let c = ports::counter_after(next, n);
    let d = ports::counter_after(next, n + 1);
    assert(c % 16384 == (next + n) % 16384);
    assert(d % 16384 == (next + n + 1) % 16384);
}

/// The port that is chosen is free for that port of the guest, and all that were tried before it
/// are in use.
pub proof fn law_chosen_port_is_free<S>(
    c: Seq<Connection<S>>,
    guest_cid: u64,
    guest_port: u32,
    next: u32,
    n: int,
)
    requires
        ports::first_free(c, guest_cid, guest_port, next, n),
    ensures
        unknown(
            c,
            (ConnectionKey {
                guest_cid,
                guest_port,
                host_port: ports::port_of(ports::counter_after(next, n)),
            }),
        ),
        forall|m: int|
            0 <= m < n ==> !unknown(
                c,
                (ConnectionKey {
                    guest_cid,
                    guest_port,
                    host_port: #[trigger] ports::port_of(ports::counter_after(next, m)),
                }),
            ),
{
    let key = ConnectionKey {
        guest_cid,
        guest_port,
        host_port: ports::port_of(ports::counter_after(next, n)),
    };
    assert(!connections::has_key(c, key));
    assert forall|m: int| 0 <= m < n implies !unknown(
        c,
        (ConnectionKey {
            guest_cid,
            guest_port,
            host_port: #[trigger] ports::port_of(ports::counter_after(next, m)),
        }),
    ) by {
        assert(ports::port_taken(c, guest_cid, guest_port, next, m));
    }
}

/// A connection that the host starts gets a free port of the range for such. It stands behind the
/// others, not established, with nothing counted yet and the default credit, and the guest is sent
/// a request for it, as far as there is room; what waits is then given to the guest.
pub proof fn law_host_connection_is_requested<S>(
    s: VsockView<S>,
    guest_port: u32,
    stream: S,
    port: u32,
    t: VsockView<S>,
) -> (mid: VsockView<S>)
    requires
        vsock::guest_connected(s, guest_port, stream, port, t),
    ensures
        ({
            let key = ConnectionKey { guest_cid: s.guest_cid, guest_port, host_port: port };
            let c = s.bridge.connections;
            &&& 49152 <= port <= 65535
            &&& unknown(c, key)
            &&& mid.bridge.connections == c.push(
                Connection {
                    key,
                    stream,
                    peer_buf_alloc: 262144,
                    peer_fwd_cnt: 0,
                    fwd_cnt: 0,
                    established: false,
                },
            )
            &&& answered(s.bridge.pending, mid.bridge.pending, key, 1, 0, 0)
            &&& mid.bridge.dialed == s.bridge.dialed
            &&& mid == VsockView {
                bridge: mid.bridge,
                next_host_port: mid.next_host_port,
                ..s
            }
            &&& ports::port_of(mid.next_host_port) == (if port == 65535 {
                49152
            } else {
                (port + 1) as u32
            })
            &&& exists|done: nat| vsock::rx_processed(mid, t, done)
        }),
{
    let n = choose|n: int|
        #[trigger] ports::first_free(
            s.bridge.connections,
            s.guest_cid,
            guest_port,
            s.next_host_port,
            n,
        ) && port == ports::port_of(ports::counter_after(s.next_host_port, n)) && vsock::delivered(
            vsock::requested(
                s,
                guest_port,
                stream,
                port,
                ports::counter_after(s.next_host_port, n + 1),
            ),
            t,
        );
    law_chosen_port_is_free(s.bridge.connections, s.guest_cid, guest_port, s.next_host_port, n);
    law_ports_go_round(s.next_host_port, n);
    vsock::requested(s, guest_port, stream, port, ports::counter_after(s.next_host_port, n + 1))
}

/// Connections of an earlier life that are reset are gone, whichever they are, and no other is: each
/// one that is left was there before and is not on the list.
pub proof fn law_reset_connections_are_gone<S>(
    c: Seq<Connection<S>>,
    list: Seq<VsockConnectionState>,
)
    requires
        connections::keys_distinct(c),
    ensures
        ({
            let left = pump::removed_all(c, list);
            &&& connections::keys_distinct(left)
            &&& forall|j: int|
                0 <= j < list.len() ==> unknown(left, (#[trigger] list[j]).key_of())
            &&& forall|i: int| 0 <= i < left.len() ==> c.contains(#[trigger] left[i])
            &&& forall|i: int|
                0 <= i < c.len() && !on_list(list, (#[trigger] c[i]).key) ==> left.contains(c[i])
        }),
    decreases list.len(),
{
    let left = pump::removed_all(c, list);
    if list.len() == 0 {
        assert forall|i: int| 0 <= i < left.len() implies c.contains(#[trigger] left[i]) by {
            assert(c[i] == left[i]);
        }
        assert forall|i: int|
            0 <= i < c.len() && !on_list(list, (#[trigger] c[i]).key) implies left.contains(
            c[i],
        ) by {
            assert(left[i] == c[i]);
        }
    } else {
        let front = list.drop_last();
        let key = list.last().key_of();
        let before = pump::removed_all(c, front);
        law_reset_connections_are_gone(c, front);
        lemma_removed(before, key);
        assert forall|j: int| 0 <= j < list.len() implies unknown(
            left,
            (#[trigger] list[j]).key_of(),
        ) by {
            if j < front.len() {
                assert(front[j] == list[j]);
                assert(unknown(before, front[j].key_of()));
                assert forall|i: int| 0 <= i < left.len() implies (#[trigger] left[i]).key
                    != list[j].key_of() by {
                    assert(before.contains(left[i]));
                    let k = choose|k: int| 0 <= k < before.len() && before[k] == left[i];
                    assert(before[k].key != front[j].key_of());
                }
            }
        }
        assert forall|i: int| 0 <= i < left.len() implies c.contains(#[trigger] left[i]) by {
            assert(before.contains(left[i]));
            let k = choose|k: int| 0 <= k < before.len() && before[k] == left[i];
            assert(c.contains(before[k]));
        }
        assert forall|i: int|
            0 <= i < c.len() && !on_list(list, (#[trigger] c[i]).key) implies left.contains(
            c[i],
        ) by {
            assert(list[list.len() - 1].key_of() != c[i].key);
            if on_list(front, c[i].key) {
                let j = choose|j: int|
                    0 <= j < front.len() && (#[trigger] front[j]).key_of() == c[i].key;
                assert(list[j].key_of() == c[i].key);
            }
            assert(before.contains(c[i]));
            let k = choose|k: int| 0 <= k < before.len() && before[k] == c[i];
            assert(before[k].key != key);
        }
    }
}

/// The key is that of a connection on the list.
pub open spec fn on_list(list: Seq<VsockConnectionState>, key: ConnectionKey) -> bool {
    exists|j: int| 0 <= j < list.len() && (#[trigger] list[j]).key_of() == key
}

proof fn lemma_removed<S>(c: Seq<Connection<S>>, key: ConnectionKey)
    requires
        connections::keys_distinct(c),
    ensures
        ({
            let left = connections::removed(c, key);
            &&& connections::keys_distinct(left)
            &&& unknown(left, key)
            &&& forall|i: int| 0 <= i < left.len() ==> c.contains(#[trigger] left[i])
            &&& forall|k: int|
                0 <= k < c.len() && (#[trigger] c[k]).key != key ==> left.contains(c[k])
        }),
{
    let left = connections::removed(c, key);
    if connections::has_key(c, key) {
        let at = connections::slot(c, key);
        assert(0 <= at < c.len() && c[at].key == key);
        assert forall|i: int, j: int| 0 <= i < j < left.len() implies (#[trigger] left[i]).key != (
        #[trigger] left[j]).key by {
            let a = if i < at {
                i
            } else {
                i + 1
            };
            let b = if j < at {
                j
            } else {
                j + 1
            };
            assert(left[i] == c[a] && left[j] == c[b]);
            assert(c[a].key != c[b].key);
        }
        assert forall|i: int| 0 <= i < left.len() implies (#[trigger] left[i]).key != key
            && c.contains(left[i]) by {
            if i < at {
                assert(left[i] == c[i]);
                assert(c[i].key != c[at].key);
            } else {
                assert(left[i] == c[i + 1]);
                assert(c[at].key != c[i + 1].key);
            }
        }
        assert forall|k: int| 0 <= k < c.len() && (#[trigger] c[k]).key != key implies left.contains(
            c[k],
        ) by {
            if k < at {
                assert(left[k] == c[k]);
            } else {
                assert(left[k - 1] == c[k]);
            }
        }
    } else {
        assert forall|i: int| 0 <= i < left.len() implies c.contains(#[trigger] left[i]) by {
            assert(c[i] == left[i]);
        }
        assert forall|k: int| 0 <= k < c.len() && (#[trigger] c[k]).key != key implies left.contains(
            c[k],
        ) by {
            assert(left[k] == c[k]);
        }
    }
}

/// For each connection on the list the guest is sent one RST with its credit, behind what waits and
/// in the order of the list, as far as there is room for 4096 in all.
pub proof fn law_reset_connections_are_told<S>(
    s: BridgeView<S>,
    list: Seq<VsockConnectionState>,
)
    requires
        s.pending.len() <= 4096,
    ensures
        ({
            let t = pump::connections_reset(s, list);
            let room = 4096 - s.pending.len();
            let n = if list.len() <= room {
                list.len() as int
            } else {
                room
            };
            &&& t.pending.len() == s.pending.len() + n
            &&& forall|i: int| 0 <= i < s.pending.len() ==> #[trigger] t.pending[i] == s.pending[i]
            &&& forall|j: int|
                0 <= j < n ==> is_from_host(
                    #[trigger] t.pending[s.pending.len() + j],
                    list[j].key_of(),
                    3,
                    0,
                    list[j].fwd_cnt as int,
                    Seq::empty(),
                )
            &&& t.connections == pump::removed_all(s.connections, list)
            &&& t.dialed == s.dialed
        }),
{
    let told = pump::resets(list);
    lemma_enqueued_all(s.pending, told);
}

/// What is saved of the connections is the key and the credit of each, in their order.
pub proof fn law_saved_connections_are_all<S>(c: Seq<Connection<S>>)
    ensures
        pump::saved_all(c).len() == c.len(),
        forall|i: int|
            0 <= i < c.len() ==> (#[trigger] pump::saved_all(c)[i]).key_of() == c[i].key
                && pump::saved_all(c)[i].fwd_cnt == c[i].fwd_cnt,
{
}

/// A call of [`VsockBridge::handle_rw`] asks the stream of the connection to write exactly the data
/// that it was called with, and advances the count of the connection by the length of that data.
pub proof fn law_handle_rw_hands_over_the_data<L: HostVsockListener>(
    h: VsockPacketHeader,
    data: &[u8],
    i: int,
)
    ensures
        forall|b: &mut VsockBridge<L>|
            #[trigger] call_ensures(VsockBridge::<L>::handle_rw, (b, h, data), ()) && (*b)@.wf()
                && stands_at((*b)@.connections, h, i) ==> hands_over(
                (*b)@,
                h,
                data@,
                (*final(b))@,
                i,
            ) && (*final(b))@.dialed == (*b)@.dialed,
{
    assert forall|b: &mut VsockBridge<L>|
        #[trigger] call_ensures(VsockBridge::<L>::handle_rw, (b, h, data), ()) && (*b)@.wf()
            && stands_at((*b)@.connections, h, i) implies hands_over(
        (*b)@,
        h,
        data@,
        (*final(b))@,
        i,
    ) && (*final(b))@.dialed == (*b)@.dialed by {
        law_rw_hands_over_the_data((*b)@, h, data@, (*final(b))@, i);
    }
}

/// A call of [`VsockBridge::handle_tx_packet`] with data on a connection does what
/// [`hands_over`] says with the data of the packet.
pub proof fn law_data_packet_is_handed_over<L: HostVsockListener>(p: VsockPacket, i: int)
    requires
        p.header.type_ == 1,
        p.header.op == 5,
    ensures
        forall|b: &mut VsockBridge<L>|
            #[trigger] call_ensures(VsockBridge::<L>::handle_tx_packet, (b, p), ()) && (*b)@.wf()
                && stands_at((*b)@.connections, p.header, i) ==> hands_over(
                (*b)@,
                p.header,
                p.data@,
                (*final(b))@,
                i,
            ),
{
    assert forall|b: &mut VsockBridge<L>|
        #[trigger] call_ensures(VsockBridge::<L>::handle_tx_packet, (b, p), ()) && (*b)@.wf()
            && stands_at((*b)@.connections, p.header, i) implies hands_over(
        (*b)@,
        p.header,
        p.data@,
        (*final(b))@,
        i,
    ) by {
        law_rw_hands_over_the_data((*b)@, p.header, p.data@, (*final(b))@, i);
    }
}

} // verus!
