//! The multiplexer's decision core. All structural changes to the
//! connection table pass through one control loop; this module is that
//! loop's state and transition logic, as plain data. The caller owns the
//! sockets and channels, performs the returned actions, and feeds events
//! back in; what is decided here — who is in the table, who receives a
//! write, what a peer task does next — is verified.
use crate::string_map::StringMap;
use crate::tcp_stream_message::TcpStreamMessage;
use vstd::prelude::*;

verus! {

#[derive(Debug, Clone, Copy, PartialEq, Eq, Structural)]
pub enum TurnipRuntimeError {
    NotIntializedError(),
}

/// What the control loop asks its caller to do after one message.
#[derive(Debug)]
pub enum RuntimeAction {
    /// Spawn the dedicated I/O task for a newly connected peer.
    SpawnPeerTask(String),
    /// Enqueue bytes on one peer's outbound channel.
    Deliver(String, Vec<u8>),
    /// Republish inbound bytes on the fan-out channel.
    Broadcast(Vec<u8>),
}

/// The table a control message leaves behind: connect inserts the peer
/// with an open channel, disconnect removes it, everything else changes
/// nothing.
pub open spec fn spec_table_after(
    m: Map<Seq<char>, bool>,
    msg: TcpStreamMessage,
) -> Map<Seq<char>, bool> {
    match msg {
        TcpStreamMessage::Connect(a) => m.insert(a@, true),
        TcpStreamMessage::Disconnect(a) => m.remove(a@),
        _ => m,
    }
}

/// Whether a write to this address is delivered: the peer is in the
/// table and its outbound channel is open. Anything else is dropped.
pub open spec fn spec_write_delivers(m: Map<Seq<char>, bool>, a: Seq<char>) -> bool {
    m.contains_key(a) && m[a] == true
}

/// The address an action concerns; a broadcast concerns no peer.
pub open spec fn spec_action_addr(a: RuntimeAction) -> Seq<char> {
    match a {
        RuntimeAction::SpawnPeerTask(s) => s@,
        RuntimeAction::Deliver(s, _) => s@,
        RuntimeAction::Broadcast(_) => Seq::empty(),
    }
}

/// Whether the action list delivers these bytes to this address.
pub open spec fn spec_delivers_to(actions: Seq<RuntimeAction>, k: Seq<char>, b: Seq<u8>) -> bool {
    exists|i: int|
        0 <= i < actions.len() && ((#[trigger] actions[i]) matches RuntimeAction::Deliver(pa, pb)
            && pa@ == k && pb@ == b)
}

/// An owned copy of a byte buffer.
fn clone_bytes(v: &Vec<u8>) -> (r: Vec<u8>)
    ensures
        r@ == v@,
{
    let n = v.len();
    let mut r: Vec<u8> = Vec::new();
    let mut i: usize = 0;
    while i < n
        invariant
            i <= n,
            n == v@.len(),
            r@ == v@.take(i as int),
        decreases n - i,
    {
        r.push(v[i]);
        proof {
            assert(v@.take(i as int).push(v@[i as int]) =~= v@.take(i as int + 1));
        }
        i = i + 1;
    }
    proof {
        assert(v@.take(n as int) =~= v@);
    }
    r
}

/// The connection table: address to channel state, owned by the control
/// loop alone. `true` means the peer's outbound channel is open.
pub struct ConnectionTable {
    peers: StringMap<bool>,
}

impl View for ConnectionTable {
    type V = Map<Seq<char>, bool>;

    closed spec fn view(&self) -> Map<Seq<char>, bool> {
        self.peers@
    }
}

impl ConnectionTable {
    pub fn new() -> (r: ConnectionTable)
        ensures
            r@ == Map::<Seq<char>, bool>::empty(),
    {
        ConnectionTable { peers: StringMap::new() }
    }

    /// Whether a peer is in the table.
    pub fn contains_peer(&self, addr: &String) -> (r: bool)
        ensures
            r == self@.contains_key(addr@),
    {
        match self.peers.get(addr) {
            Some(_) => true,
            None => false,
        }
    }

    /// Marks a peer's outbound channel as closed, as observed when an
    /// enqueue on it fails; an unknown address changes nothing.
    pub fn set_channel_closed(&mut self, addr: &String)
        ensures
            old(self)@.contains_key(addr@) ==> final(self)@ == old(self)@.insert(addr@, false),
            !old(self)@.contains_key(addr@) ==> final(self)@ == old(self)@,
    {
        let present = match self.peers.get(addr) {
            Some(_) => true,
            None => false,
        };
        if present {
            self.peers.set(addr.clone(), false);
        }
    }

    /// Consumes one control message: connect and disconnect change the
    /// table, a write is delivered to its peer exactly when the peer is
    /// known and open (and otherwise dropped, not queued), a broadcast
    /// write is delivered to every open peer independently, and a read
    /// is republished to the fan-out.
    pub fn step(&mut self, msg: TcpStreamMessage) -> (actions: Vec<RuntimeAction>)
        ensures
            final(self)@ == spec_table_after(old(self)@, msg),
            match msg {
                TcpStreamMessage::Connect(a) => actions@.len() == 1 && actions@[0]
                    == RuntimeAction::SpawnPeerTask(a),
                TcpStreamMessage::Disconnect(_) => actions@.len() == 0,
                TcpStreamMessage::Write(a, b) => if spec_write_delivers(old(self)@, a@) {
                    actions@.len() == 1 && actions@[0] == RuntimeAction::Deliver(a, b)
                } else {
                    actions@.len() == 0
                },
                TcpStreamMessage::Read(_, b) => actions@.len() == 1 && actions@[0]
                    == RuntimeAction::Broadcast(b),
                TcpStreamMessage::WriteAll(b) => {
                    &&& (forall|i: int|
                        0 <= i < actions@.len() ==> ((#[trigger] actions@[i]) matches
                            RuntimeAction::Deliver(pa, pb) && spec_write_delivers(old(self)@, pa@)
                            && pb@ == b@))
                    &&& (forall|k: Seq<char>|
                        #[trigger] spec_write_delivers(old(self)@, k) ==> spec_delivers_to(
                            actions@,
                            k,
                            b@,
                        ))
                    &&& (forall|x: int, y: int|
                        0 <= x < y < actions@.len() ==> spec_action_addr(#[trigger] actions@[x])
                            != spec_action_addr(#[trigger] actions@[y]))
                },
            },
    {
        match msg {
            TcpStreamMessage::Connect(a) => {
                self.peers.set(a.clone(), true);
                let mut v: Vec<RuntimeAction> = Vec::new();
                v.push(RuntimeAction::SpawnPeerTask(a));
                v
            },
            TcpStreamMessage::Disconnect(a) => {
                let _dropped = self.peers.remove_entry(&a);
                Vec::new()
            },
            TcpStreamMessage::Write(a, b) => {
                let open = match self.peers.get(&a) {
                    Some(flag) => *flag,
                    None => false,
                };
                if open {
                    let mut v: Vec<RuntimeAction> = Vec::new();
                    v.push(RuntimeAction::Deliver(a, b));
                    v
                } else {
                    Vec::new()
                }
            },
            TcpStreamMessage::Read(_a, b) => {
                let mut v: Vec<RuntimeAction> = Vec::new();
                v.push(RuntimeAction::Broadcast(b));
                v
            },
            TcpStreamMessage::WriteAll(b) => self.write_all_actions(b),
        }
    }

    /// One delivery per open peer; closed or unknown peers get none and
    /// block nobody.
    fn write_all_actions(&self, bytes: Vec<u8>) -> (actions: Vec<RuntimeAction>)
        ensures
            forall|i: int|
                0 <= i < actions@.len() ==> ((#[trigger] actions@[i]) matches
                    RuntimeAction::Deliver(pa, pb) && spec_write_delivers(self@, pa@) && pb@
                    == bytes@),
            forall|k: Seq<char>|
                #[trigger] spec_write_delivers(self@, k) ==> spec_delivers_to(
                    actions@,
                    k,
                    bytes@,
                ),
            forall|x: int, y: int|
                0 <= x < y < actions@.len() ==> spec_action_addr(#[trigger] actions@[x])
                    != spec_action_addr(#[trigger] actions@[y]),
    {
        let entries = self.peers.entry_list();
        let n = entries.len();
        let mut actions: Vec<RuntimeAction> = Vec::new();
        let mut j: usize = 0;
        while j < n
            invariant
                j <= n,
                n == entries@.len(),
                crate::string_map::distinct_keys(entries@),
                forall|x: int|
                    0 <= x < entries@.len() ==> self@.contains_key((#[trigger] entries@[x]).0@)
                        && self@[entries@[x].0@] == entries@[x].1,
                forall|i: int|
                    0 <= i < actions@.len() ==> ((#[trigger] actions@[i]) matches
                        RuntimeAction::Deliver(pa, pb) && spec_write_delivers(self@, pa@) && pb@
                        == bytes@),
                forall|x: int|
                    0 <= x < j && (#[trigger] entries@[x]).1 == true ==> spec_delivers_to(
                        actions@,
                        entries@[x].0@,
                        bytes@,
                    ),
                forall|x: int, y: int|
                    0 <= x < y < actions@.len() ==> spec_action_addr(#[trigger] actions@[x])
                        != spec_action_addr(#[trigger] actions@[y]),
                forall|o: int, x: int|
                    0 <= o < actions@.len() && j <= x < n ==> spec_action_addr(
                        #[trigger] actions@[o],
                    ) != (#[trigger] entries@[x]).0@,
            decreases n - j,
        {
            let ghost pre_actions = actions@;
            let entry = &entries[j];
            if *(&entry.1) {
                actions.push(RuntimeAction::Deliver(entry.0.clone(), clone_bytes(&bytes)));
                proof {
                    assert((actions@[pre_actions.len() as int] matches RuntimeAction::Deliver(
                        pa,
                        pb,
                    ) && pa@ == entries@[j as int].0@ && pb@ == bytes@));
                    assert(spec_delivers_to(actions@, entries@[j as int].0@, bytes@));
                }
            }
            proof {
                assert forall|x: int|
                    0 <= x < j + 1 && (#[trigger] entries@[x]).1 == true implies spec_delivers_to(
                    actions@,
                    entries@[x].0@,
                    bytes@,
                ) by {
                    if x < j {
                        let i0 = choose|i: int|
                            0 <= i < pre_actions.len() && ((#[trigger] pre_actions[i]) matches
                                RuntimeAction::Deliver(pa, pb) && pa@ == entries@[x].0@ && pb@
                                == bytes@);
                        assert(actions@[i0] == pre_actions[i0]);
                        assert(spec_delivers_to(actions@, entries@[x].0@, bytes@));
                    }
                }
            }
            j = j + 1;
        }
        proof {
            assert forall|k: Seq<char>| #[trigger] spec_write_delivers(self@, k) implies
                spec_delivers_to(actions@, k, bytes@) by {
                let x = choose|x: int|
                    0 <= x < entries@.len() && (#[trigger] entries@[x]).0@ == k;
                assert(entries@[x].1 == self@[k]);
            }
        }
        actions
    }
}

/// One peer task's lifecycle: entered as connecting, connected once the
/// socket is usable, closed on end of stream, on an I/O error, or when
/// its outbound channel is gone.
#[derive(Debug, Clone, Copy, PartialEq, Eq, Structural)]
pub enum PeerTaskState {
    Connecting,
    Connected,
    Closed,
}

/// What a peer task observes: its socket becoming usable, bytes read
/// (never empty), end of stream, a read error, bytes to send from its
/// outbound channel, or that channel closing.
#[derive(Debug)]
pub enum PeerEvent {
    SocketReady,
    DataRead(Vec<u8>),
    ReadEof,
    ReadError,
    OutboundData(Vec<u8>),
    OutboundClosed,
}

/// What a peer task does in response: forward inbound bytes as a `Read`
/// control message, forward its own removal as a `Disconnect`, or write
/// bytes out on the socket.
#[derive(Debug)]
pub enum PeerTaskAction {
    ForwardRead(String, Vec<u8>),
    ForwardDisconnect(String),
    WriteSocket(Vec<u8>),
}

/// The per-peer I/O task's state machine.
pub struct PeerIoTask {
    pub addr: String,
    pub state: PeerTaskState,
}

impl PeerIoTask {
    pub fn new(addr: String) -> (r: PeerIoTask)
        ensures
            r.addr == addr,
            r.state == PeerTaskState::Connecting,
    {
        PeerIoTask { addr, state: PeerTaskState::Connecting }
    }

    /// Consumes one event. Inbound data is forwarded as a read; end of
    /// stream and read errors forward a disconnect and close the task;
    /// outbound data goes to the socket; a closed outbound channel
    /// closes the task silently. A closed task does nothing more, and a
    /// connecting one acts only once its socket is ready.
    pub fn peer_step(&mut self, event: PeerEvent) -> (actions: Vec<PeerTaskAction>)
        ensures
            final(self).addr == old(self).addr,
            ({
                let a = old(self).addr;
                match old(self).state {
                    PeerTaskState::Connecting => match event {
                        PeerEvent::SocketReady => final(self).state == PeerTaskState::Connected
                            && actions@.len() == 0,
                        _ => final(self).state == PeerTaskState::Connecting && actions@.len() == 0,
                    },
                    PeerTaskState::Connected => match event {
                        PeerEvent::SocketReady => final(self).state == PeerTaskState::Connected
                            && actions@.len() == 0,
                        PeerEvent::DataRead(b) => final(self).state == PeerTaskState::Connected
                            && actions@.len() == 1 && (actions@[0] matches
                            PeerTaskAction::ForwardRead(pa, pb) && pa@ == a@ && pb == b),
                        PeerEvent::ReadEof => final(self).state == PeerTaskState::Closed
                            && actions@.len() == 1 && (actions@[0] matches
                            PeerTaskAction::ForwardDisconnect(pa) && pa@ == a@),
                        PeerEvent::ReadError => final(self).state == PeerTaskState::Closed
                            && actions@.len() == 1 && (actions@[0] matches
                            PeerTaskAction::ForwardDisconnect(pa) && pa@ == a@),
                        PeerEvent::OutboundData(b) => final(self).state
                            == PeerTaskState::Connected && actions@.len() == 1 && actions@[0]
                            == PeerTaskAction::WriteSocket(b),
                        PeerEvent::OutboundClosed => final(self).state == PeerTaskState::Closed
                            && actions@.len() == 0,
                    },
                    PeerTaskState::Closed => final(self).state == PeerTaskState::Closed
                        && actions@.len() == 0,
                }
            }),
    {
        match self.state {
            PeerTaskState::Connecting => {
                match event {
                    PeerEvent::SocketReady => {
                        self.state = PeerTaskState::Connected;
                    },
                    _ => {},
                }
                Vec::new()
            },
            PeerTaskState::Connected => {
                let mut actions: Vec<PeerTaskAction> = Vec::new();
                match event {
                    PeerEvent::SocketReady => {},
                    PeerEvent::DataRead(b) => {
                        actions.push(PeerTaskAction::ForwardRead(self.addr.clone(), b));
                    },
                    PeerEvent::ReadEof => {
                        self.state = PeerTaskState::Closed;
                        actions.push(PeerTaskAction::ForwardDisconnect(self.addr.clone()));
                    },
                    PeerEvent::ReadError => {
                        self.state = PeerTaskState::Closed;
                        actions.push(PeerTaskAction::ForwardDisconnect(self.addr.clone()));
                    },
                    PeerEvent::OutboundData(b) => {
                        actions.push(PeerTaskAction::WriteSocket(b));
                    },
                    PeerEvent::OutboundClosed => {
                        self.state = PeerTaskState::Closed;
                    },
                }
                actions
            },
            PeerTaskState::Closed => Vec::new(),
        }
    }
}

/// A disconnect takes effect at once: a write to that address handed to
/// the control loop next is dropped, not queued or retried.
pub proof fn lemma_disconnect_then_write_dropped(
    m: Map<Seq<char>, bool>,
    a1: String,
    a2: String,
)
    requires
        a1@ == a2@,
    ensures
        !spec_write_delivers(spec_table_after(m, TcpStreamMessage::Disconnect(a1)), a2@),
{
}

/// Broadcast delivery is independent per peer: whether a peer receives
/// a `WriteAll` depends only on that peer's own entry, never on another
/// peer's channel being closed.
pub proof fn lemma_write_all_per_peer(
    m1: Map<Seq<char>, bool>,
    m2: Map<Seq<char>, bool>,
    k: Seq<char>,
)
    requires
        m1.contains_key(k) == m2.contains_key(k),
        m1.contains_key(k) ==> m1[k] == m2[k],
    ensures
        spec_write_delivers(m1, k) == spec_write_delivers(m2, k),
{
}

} // verus!
