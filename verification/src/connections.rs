//! Tracking of the machine's TCP and UDP sockets between two scans: which
//! connections are new, which have closed, and what is remembered for the
//! next scan.

use vstd::prelude::*;
use crate::table::Table;
use crate::text::{decimal, push_char, push_decimal};

verus! {

/// How long a connection that has vanished is still considered possibly
/// alive: five minutes, in nanoseconds.
pub const CONNECTION_TIMEOUT_NANOS: u64 = 300_000_000_000;

/// A TCP socket, its addresses given as text.
#[derive(Debug)]
pub struct TcpSocketInfo {
    pub local_addr: String,
    pub local_port: u16,
    pub remote_addr: String,
    pub remote_port: u16,
    /// The connection state, as its `{:?}` text (e.g. `Established`).
    pub state: String,
}

/// A UDP socket, its address given as text.
#[derive(Debug)]
pub struct UdpSocketInfo {
    pub local_addr: String,
    pub local_port: u16,
}

/// The protocol-specific part of a socket.
#[derive(Debug)]
pub enum ProtocolSocketInfo {
    Tcp(TcpSocketInfo),
    Udp(UdpSocketInfo),
}

/// One socket of the machine and the processes that own it.
#[derive(Debug)]
pub struct SocketInfo {
    pub protocol_socket_info: ProtocolSocketInfo,
    pub associated_pids: Vec<u32>,
}

/// A connection as it is remembered between scans.
#[derive(Debug)]
pub struct NetworkConnection {
    pub local_addr: String,
    pub state: String,
    pub remote_addr: String,
    pub protocol: String,
    pub pid: Option<u32>,
    /// When it was last seen, in nanoseconds of a monotonic clock.
    pub last_seen: u64,
}

/// The mathematical content of a `NetworkConnection`.
pub struct ConnectionView {
    pub local_addr: Seq<char>,
    pub state: Seq<char>,
    pub remote_addr: Seq<char>,
    pub protocol: Seq<char>,
    pub pid: Option<u32>,
    pub last_seen: u64,
}

impl View for NetworkConnection {
    type V = ConnectionView;

    open spec fn view(&self) -> ConnectionView {
        ConnectionView {
            local_addr: self.local_addr@,
            state: self.state@,
            remote_addr: self.remote_addr@,
            protocol: self.protocol@,
            pid: self.pid,
            last_seen: self.last_seen,
        }
    }
}

impl NetworkConnection {
    /// A copy of the connection.
    pub fn duplicate(&self) -> (c: NetworkConnection)
        ensures
            c@ == self@,
    {
        NetworkConnection {
            local_addr: self.local_addr.clone(),
            state: self.state.clone(),
            remote_addr: self.remote_addr.clone(),
            protocol: self.protocol.clone(),
            pid: self.pid,
            last_seen: self.last_seen,
        }
    }
}

/// `address:port`.
pub open spec fn addr_port(addr: Seq<char>, port: u16) -> Seq<char> {
    addr + ":"@ + decimal(port as nat)
}

/// The first owning process, if any.
pub open spec fn first_pid(s: SocketInfo) -> Option<u32> {
    if s.associated_pids@.len() > 0 {
        Some(s.associated_pids@[0])
    } else {
        None
    }
}

/// A process id as text, `unknown` when there is none.
pub open spec fn pid_text(pid: Option<u32>) -> Seq<char> {
    match pid {
        Some(p) => decimal(p as nat),
        None => "unknown"@,
    }
}

/// The key under which a socket is remembered.
pub open spec fn socket_key(s: SocketInfo) -> Seq<char> {
    match s.protocol_socket_info {
        ProtocolSocketInfo::Tcp(t) => "TCP:"@ + t.local_addr@ + ":"@ + decimal(t.local_port as nat)
            + ":"@ + t.remote_addr@,
        ProtocolSocketInfo::Udp(u) => "UDP:"@ + u.local_addr@ + ":"@ + decimal(u.local_port as nat),
    }
}

/// What is remembered of a socket seen at time `now`.
pub open spec fn socket_connection(s: SocketInfo, now: u64) -> ConnectionView {
    match s.protocol_socket_info {
        ProtocolSocketInfo::Tcp(t) => ConnectionView {
            local_addr: addr_port(t.local_addr@, t.local_port),
            state: t.state@,
            remote_addr: addr_port(t.remote_addr@, t.remote_port),
            protocol: "TCP"@,
            pid: first_pid(s),
            last_seen: now,
        },
        ProtocolSocketInfo::Udp(u) => ConnectionView {
            local_addr: addr_port(u.local_addr@, u.local_port),
            state: "LISTEN"@,
            remote_addr: Seq::empty(),
            protocol: "UDP"@,
            pid: first_pid(s),
            last_seen: now,
        },
    }
}

/// The one-line description of a socket.
pub open spec fn socket_info_text(s: SocketInfo) -> Seq<char> {
    match s.protocol_socket_info {
        ProtocolSocketInfo::Tcp(t) => "TCP | "@ + addr_port(t.local_addr@, t.local_port) + " -> "@
            + addr_port(t.remote_addr@, t.remote_port) + " | PID: "@ + pid_text(first_pid(s))
            + " | State: "@ + t.state@,
        ProtocolSocketInfo::Udp(u) => "UDP | "@ + addr_port(u.local_addr@, u.local_port)
            + " | PID: "@ + pid_text(first_pid(s)),
    }
}

/// The protocol's name.
pub open spec fn socket_protocol(s: SocketInfo) -> Seq<char> {
    match s.protocol_socket_info {
        ProtocolSocketInfo::Tcp(_) => "TCP"@,
        ProtocolSocketInfo::Udp(_) => "UDP"@,
    }
}

/// The report of a connection not seen at the previous scan.
pub open spec fn new_connection_text(s: SocketInfo) -> Seq<char> {
    "NEW "@ + socket_protocol(s) + " CONNECTION | "@ + socket_info_text(s)
}

/// The report of a connection that has gone.
pub open spec fn closed_connection_text(c: ConnectionView) -> Seq<char> {
    "CONNECTION CLOSED | "@ + c.protocol + " | "@ + c.local_addr + " -> "@ + c.remote_addr
}

/// Time between `since` and `now`, zero when `since` is later.
pub open spec fn elapsed(now: u64, since: u64) -> int {
    if now >= since { now - since } else { 0 }
}

/// Whether a connection last seen at `last_seen` has outlived the timeout.
pub open spec fn timed_out(now: u64, last_seen: u64) -> bool {
    elapsed(now, last_seen) > CONNECTION_TIMEOUT_NANOS
}

/// The connections remembered after a scan that saw `sockets` at `now`:
/// each socket under its key, a later socket replacing an earlier one.
pub open spec fn connections_after(sockets: Seq<SocketInfo>, now: u64) -> Map<Seq<char>, ConnectionView>
    decreases sockets.len(),
{
    if sockets.len() == 0 {
        Map::empty()
    } else {
        connections_after(sockets.drop_last(), now).insert(
            socket_key(sockets.last()),
            socket_connection(sockets.last(), now),
        )
    }
}

/// The reports of new connections: one per socket, in order, whose key was
/// not known before the scan.
pub open spec fn new_connection_reports(sockets: Seq<SocketInfo>, known: Set<Seq<char>>) -> Seq<Seq<char>>
    decreases sockets.len(),
{
    if sockets.len() == 0 {
        Seq::empty()
    } else {
        let rest = new_connection_reports(sockets.drop_last(), known);
        if known.contains(socket_key(sockets.last())) {
            rest
        } else {
            rest.push(new_connection_text(sockets.last()))
        }
    }
}

/// The reports of closed connections: one per previously known connection,
/// in the order they were remembered, that the scan did not see and that has
/// outlived the timeout.
pub open spec fn closed_connection_reports(
    keys: Seq<Seq<char>>,
    conns: Seq<ConnectionView>,
    current: Set<Seq<char>>,
    now: u64,
) -> Seq<Seq<char>>
    decreases keys.len(),
{
    if keys.len() == 0 || conns.len() == 0 {
        Seq::empty()
    } else {
        let rest = closed_connection_reports(keys.drop_last(), conns.drop_last(), current, now);
        if !current.contains(keys.last()) && timed_out(now, conns.last().last_seen) {
            rest.push(closed_connection_text(conns.last()))
        } else {
            rest
        }
    }
}

/// The views of a sequence of strings.
pub open spec fn texts(v: Seq<String>) -> Seq<Seq<char>> {
    v.map_values(|s: String| s@)
}

/// The views of the remembered connections, in table order.
pub open spec fn connection_views(t: Table<NetworkConnection>) -> Seq<ConnectionView> {
    t.value_seq().map_values(|c: NetworkConnection| c@)
}

/// The remembered connections as a map to their views.
pub open spec fn connection_map(t: Table<NetworkConnection>) -> Map<Seq<char>, ConnectionView> {
    t.as_map().map_values(|c: NetworkConnection| c@)
}

/// `address:port` as a string.
fn addr_port_string(addr: &String, port: u16) -> (s: String)
    ensures
        s@ == addr_port(addr@, port),
{
    let mut s = addr.clone();
    push_char(&mut s, ':');
    push_decimal(&mut s, port as u64);
    proof {
        assert(seq![':'] =~= ":"@) by {
            reveal_strlit(":");
        }
        assert(s@ =~= addr@ + ":"@ + decimal(port as nat));
    }
    s
}

/// A process id as text.
fn pid_string(pid: Option<u32>) -> (s: String)
    ensures
        s@ == pid_text(pid),
{
    match pid {
        Some(p) => {
            let mut s = String::new();
            push_decimal(&mut s, p as u64);
            assert(s@ =~= decimal(p as nat));
            s
        },
        None => String::from_str("unknown"),
    }
}

/// The key, the remembered connection and the description of a socket.
fn describe_socket(socket: &SocketInfo, now: u64) -> (r: (String, NetworkConnection, String))
    ensures
        r.0@ == socket_key(*socket),
        r.1@ == socket_connection(*socket, now),
        r.2@ == socket_info_text(*socket),
{
    let pid: Option<u32> = if socket.associated_pids.len() > 0 {
        Some(socket.associated_pids[0])
    } else {
        None
    };
    match &socket.protocol_socket_info {
        ProtocolSocketInfo::Tcp(tcp) => {
            let mut key = String::from_str("TCP:");
            key.append(tcp.local_addr.as_str());
            key.append(":");
            push_decimal(&mut key, tcp.local_port as u64);
            key.append(":");
            key.append(tcp.remote_addr.as_str());
            let connection = NetworkConnection {
                local_addr: addr_port_string(&tcp.local_addr, tcp.local_port),
                remote_addr: addr_port_string(&tcp.remote_addr, tcp.remote_port),
                state: tcp.state.clone(),
                protocol: String::from_str("TCP"),
                pid: pid,
                last_seen: now,
            };
            let mut info = String::from_str("TCP | ");
            info.append(connection.local_addr.as_str());
            info.append(" -> ");
            info.append(connection.remote_addr.as_str());
            info.append(" | PID: ");
            let p = pid_string(pid);
            info.append(p.as_str());
            info.append(" | State: ");
            info.append(tcp.state.as_str());
            (key, connection, info)
        },
        ProtocolSocketInfo::Udp(udp) => {
            let mut key = String::from_str("UDP:");
            key.append(udp.local_addr.as_str());
            key.append(":");
            push_decimal(&mut key, udp.local_port as u64);
            let connection = NetworkConnection {
                local_addr: addr_port_string(&udp.local_addr, udp.local_port),
                remote_addr: String::new(),
                state: String::from_str("LISTEN"),
                protocol: String::from_str("UDP"),
                pid: pid,
                last_seen: now,
            };
            let mut info = String::from_str("UDP | ");
            info.append(connection.local_addr.as_str());
            info.append(" | PID: ");
            let p = pid_string(pid);
            info.append(p.as_str());
            (key, connection, info)
        },
    }
}

/// The report of a new connection.
fn new_connection_string(connection: &NetworkConnection, info: &String) -> (s: String)
    ensures
        s@ == "NEW "@ + connection.protocol@ + " CONNECTION | "@ + info@,
{
    let mut s = String::from_str("NEW ");
    s.append(connection.protocol.as_str());
    s.append(" CONNECTION | ");
    s.append(info.as_str());
    s
}

/// The report of a closed connection.
fn closed_connection_string(connection: &NetworkConnection) -> (s: String)
    ensures
        s@ == closed_connection_text(connection@),
{
    let mut s = String::from_str("CONNECTION CLOSED | ");
    s.append(connection.protocol.as_str());
    s.append(" | ");
    s.append(connection.local_addr.as_str());
    s.append(" -> ");
    s.append(connection.remote_addr.as_str());
    s
}

/// Records the sockets of one scan in a fresh table and reports those whose
/// key `previous` does not hold.
fn scan_sockets(sockets: &Vec<SocketInfo>, previous: &Table<NetworkConnection>, now: u64)
    -> (r: (Table<NetworkConnection>, Vec<String>))
    requires
        previous.wf(),
    ensures
        r.0.wf(),
        connection_map(r.0) == connections_after(sockets@, now),
        texts(r.1@) == new_connection_reports(sockets@, previous.as_map().dom()),
{
    let mut current: Table<NetworkConnection> = Table::new();
    let mut new_connections: Vec<String> = Vec::new();
    let n = sockets.len();
    let mut i: usize = 0;
    proof {
        assert(sockets@.take(0) =~= Seq::<SocketInfo>::empty());
        assert(connection_map(current) =~= Map::<Seq<char>, ConnectionView>::empty());
        assert(texts(new_connections@) =~= Seq::<Seq<char>>::empty());
    }
    while i < n
        invariant
            n == sockets@.len(),
            0 <= i <= n,
            previous.wf(),
            current.wf(),
            connection_map(current) == connections_after(sockets@.take(i as int), now),
            texts(new_connections@) == new_connection_reports(sockets@.take(i as int), previous.as_map().dom()),
        decreases n - i,
    {
        let socket = &sockets[i];
        let (key, connection, info) = describe_socket(socket, now);
        let ghost old_map = current.as_map();
        let ghost old_reports = texts(new_connections@);
        let is_known = previous.contains_key(&key);
        if !is_known {
            let report = new_connection_string(&connection, &info);
            new_connections.push(report);
        }
        let ghost k = key@;
        let ghost v = connection@;
        current.insert(key, connection);
        proof {
            let prefix = sockets@.take(i + 1);
            assert(prefix.drop_last() =~= sockets@.take(i as int));
            assert(prefix.last() == sockets@[i as int]);
            assert(connection_map(current) =~= connection_map_of(old_map).insert(k, v));
            if !is_known {
                assert(texts(new_connections@) =~= old_reports.push(new_connection_text(sockets@[i as int])));
            } else {
                assert(texts(new_connections@) =~= old_reports);
            }
        }
        i = i + 1;
    }
    proof {
        assert(sockets@.take(n as int) =~= sockets@);
    }
    (current, new_connections)
}

/// The views of a map of connections.
pub open spec fn connection_map_of(m: Map<Seq<char>, NetworkConnection>) -> Map<Seq<char>, ConnectionView> {
    m.map_values(|c: NetworkConnection| c@)
}

/// Reports, in the order `previous` remembers them, the connections that the
/// scan recorded in `current` did not see and that have outlived the timeout.
fn closed_reports(previous: &Table<NetworkConnection>, current: &Table<NetworkConnection>, now: u64)
    -> (closed: Vec<String>)
    requires
        previous.wf(),
        current.wf(),
    ensures
        texts(closed@) == closed_connection_reports(
            previous.key_seq(),
            connection_views(*previous),
            current.as_map().dom(),
            now,
        ),
{
    let mut closed: Vec<String> = Vec::new();
    let n = previous.len();
    let mut j: usize = 0;
    let ghost keys = previous.key_seq();
    let ghost conns = connection_views(*previous);
    proof {
        assert(keys.take(0) =~= Seq::<Seq<char>>::empty());
        assert(texts(closed@) =~= Seq::<Seq<char>>::empty());
    }
    while j < n
        invariant
            n == keys.len(),
            keys == previous.key_seq(),
            conns == connection_views(*previous),
            previous.wf(),
            current.wf(),
            0 <= j <= n,
            texts(closed@) == closed_connection_reports(
                keys.take(j as int),
                conns.take(j as int),
                current.as_map().dom(),
                now,
            ),
        decreases n - j,
    {
        let (key, connection) = previous.entry(j);
        let ghost old_closed = texts(closed@);
        let still_open = current.contains_key(key);
        let waited: u64 = if now >= connection.last_seen { now - connection.last_seen } else { 0 };
        if !still_open && waited > CONNECTION_TIMEOUT_NANOS {
            let report = closed_connection_string(connection);
            closed.push(report);
        }
        proof {
            assert(keys.take(j + 1).drop_last() =~= keys.take(j as int));
            assert(conns.take(j + 1).drop_last() =~= conns.take(j as int));
            assert(keys.take(j + 1).last() == key@);
            assert(conns.take(j + 1).last() == connection@);
            if !still_open && waited > CONNECTION_TIMEOUT_NANOS {
                assert(texts(closed@) =~= old_closed.push(closed_connection_text(connection@)));
            } else {
                assert(texts(closed@) =~= old_closed);
            }
        }
        j = j + 1;
    }
    proof {
        assert(keys.take(n as int) =~= keys);
        assert(conns.take(n as int) =~= conns);
    }
    closed
}

/// Compares the sockets of a scan made at `now` with the connections
/// remembered from the previous scan. Returns the reports of new connections
/// (in socket order) and of closed ones (in the order they were remembered),
/// and replaces the remembered connections by those of this scan.
pub fn process_socket_connections(
    sockets: &Vec<SocketInfo>,
    previous_connections: &mut Table<NetworkConnection>,
    now: u64,
) -> (reports: (Vec<String>, Vec<String>))
    requires
        old(previous_connections).wf(),
    ensures
        final(previous_connections).wf(),
        connection_map(*final(previous_connections)) == connections_after(sockets@, now),
        texts(reports.0@) == new_connection_reports(sockets@, old(previous_connections).as_map().dom()),
        texts(reports.1@) == closed_connection_reports(
            old(previous_connections).key_seq(),
            connection_views(*old(previous_connections)),
            connections_after(sockets@, now).dom(),
            now,
        ),
{
    let (current, new_connections) = scan_sockets(sockets, previous_connections, now);
    let closed_connections = closed_reports(previous_connections, &current, now);
    proof {
        assert(current.as_map().dom() =~= connection_map(current).dom());
    }
    *previous_connections = current;
    (new_connections, closed_connections)
}

/// After a scan, the remembered keys are exactly the keys of the scanned
/// sockets.
pub proof fn lemma_remembered_keys(sockets: Seq<SocketInfo>, now: u64)
    ensures
        forall|k: Seq<char>| connections_after(sockets, now).contains_key(k) <==>
            exists|i: int| 0 <= i < sockets.len() && #[trigger] socket_key(sockets[i]) == k,
    decreases sockets.len(),
{
    if sockets.len() > 0 {
        let rest = sockets.drop_last();
        lemma_remembered_keys(rest, now);
        assert(connections_after(sockets, now) == connections_after(rest, now).insert(
            socket_key(sockets.last()),
            socket_connection(sockets.last(), now),
        ));
        assert forall|k: Seq<char>| connections_after(sockets, now).contains_key(k) <==>
            exists|i: int| 0 <= i < sockets.len() && #[trigger] socket_key(sockets[i]) == k by {
            if connections_after(sockets, now).contains_key(k) {
                if k == socket_key(sockets.last()) {
                    assert(socket_key(sockets[sockets.len() - 1]) == k);
                } else {
                    assert(connections_after(rest, now).contains_key(k));
                    let i = choose|i: int| 0 <= i < rest.len() && #[trigger] socket_key(rest[i]) == k;
                    assert(socket_key(sockets[i]) == k);
                }
            }
            if exists|i: int| 0 <= i < sockets.len() && #[trigger] socket_key(sockets[i]) == k {
                let i = choose|i: int| 0 <= i < sockets.len() && #[trigger] socket_key(sockets[i]) == k;
                if i < rest.len() {
                    assert(socket_key(rest[i]) == k);
                }
            }
        }
    }
}

/// No socket whose key was already known is reported as new: when every
/// scanned key is known, there are no new-connection reports.
pub proof fn lemma_known_sockets_not_new(sockets: Seq<SocketInfo>, known: Set<Seq<char>>)
    requires
        forall|i: int| 0 <= i < sockets.len() ==> known.contains(#[trigger] socket_key(sockets[i])),
    ensures
        new_connection_reports(sockets, known) == Seq::<Seq<char>>::empty(),
    decreases sockets.len(),
{
    if sockets.len() > 0 {
        let rest = sockets.drop_last();
        assert forall|i: int| 0 <= i < rest.len() implies known.contains(#[trigger] socket_key(rest[i])) by {
            assert(socket_key(sockets[i]) == socket_key(rest[i]));
        }
        lemma_known_sockets_not_new(rest, known);
        assert(known.contains(socket_key(sockets[sockets.len() - 1])));
    }
}

/// Scanning the same sockets twice reports no new connection the second time.
pub proof fn lemma_rescan_reports_nothing_new(sockets: Seq<SocketInfo>, first: u64)
    ensures
        new_connection_reports(sockets, connections_after(sockets, first).dom()) == Seq::<Seq<char>>::empty(),
{
    lemma_remembered_keys(sockets, first);
    let known = connections_after(sockets, first).dom();
    assert forall|i: int| 0 <= i < sockets.len() implies known.contains(#[trigger] socket_key(sockets[i])) by {
        assert(socket_key(sockets[i]) == socket_key(sockets[i]));
    }
    lemma_known_sockets_not_new(sockets, known);
}

/// A connection that is seen again is never reported closed, nor is one that
/// has not outlived the timeout: when every remembered connection is either
/// seen again or recent, there are no closed-connection reports.
pub proof fn lemma_closed_only_when_gone_and_expired(
    keys: Seq<Seq<char>>,
    conns: Seq<ConnectionView>,
    current: Set<Seq<char>>,
    now: u64,
)
    requires
        keys.len() == conns.len(),
        forall|i: int| 0 <= i < keys.len() ==>
            current.contains(#[trigger] keys[i]) || !timed_out(now, conns[i].last_seen),
    ensures
        closed_connection_reports(keys, conns, current, now) == Seq::<Seq<char>>::empty(),
    decreases keys.len(),
{
    if keys.len() > 0 {
        let (ks, cs) = (keys.drop_last(), conns.drop_last());
        assert forall|i: int| 0 <= i < ks.len() implies
            current.contains(#[trigger] ks[i]) || !timed_out(now, cs[i].last_seen) by {
            assert(keys[i] == ks[i]);
        }
        lemma_closed_only_when_gone_and_expired(ks, cs, current, now);
        assert(current.contains(keys[keys.len() - 1]) || !timed_out(now, conns[conns.len() - 1].last_seen));
    }
}

/// Every closed-connection report is about a remembered connection: there
/// are never more closed reports than remembered connections.
pub proof fn lemma_closed_reports_bounded(
    keys: Seq<Seq<char>>,
    conns: Seq<ConnectionView>,
    current: Set<Seq<char>>,
    now: u64,
)
    ensures
        closed_connection_reports(keys, conns, current, now).len() <= keys.len(),
    decreases keys.len(),
{
    if keys.len() > 0 && conns.len() > 0 {
        lemma_closed_reports_bounded(keys.drop_last(), conns.drop_last(), current, now);
    }
}

/// The closed-connection reports of a scan are exactly the remembered
/// connections that the scan did not see and that were last seen more than
/// the timeout before `now`: one report per such connection, naming its
/// protocol and addresses, in the order they were remembered, and none for
/// any other. So there are as many reports as such connections.
pub proof fn lemma_closed_reports_are_the_expired_connections(
    keys: Seq<Seq<char>>,
    conns: Seq<ConnectionView>,
    current: Set<Seq<char>>,
    now: u64,
)
    requires
        keys.len() == conns.len(),
    ensures
        closed_connection_reports(keys, conns, current, now) == Seq::new(keys.len(), |i: int| (keys[i], conns[i])).filter_map(
            |e: (Seq<char>, ConnectionView)|
                if !current.contains(e.0) && now - e.1.last_seen > CONNECTION_TIMEOUT_NANOS {
                    Some("CONNECTION CLOSED | "@ + e.1.protocol + " | "@ + e.1.local_addr + " -> "@ + e.1.remote_addr)
                } else {
                    None
                },
        ),
        closed_connection_reports(keys, conns, current, now).len() == Seq::new(keys.len(), |i: int| (keys[i], conns[i])).filter(
            |e: (Seq<char>, ConnectionView)| !current.contains(e.0) && now - e.1.last_seen > CONNECTION_TIMEOUT_NANOS,
        ).len(),
    decreases keys.len(),
{
    let pairs = Seq::new(keys.len(), |i: int| (keys[i], conns[i]));
    reveal(Seq::filter);
    if keys.len() > 0 {
        let (ks, cs) = (keys.drop_last(), conns.drop_last());
        lemma_closed_reports_are_the_expired_connections(ks, cs, current, now);
        assert(pairs.drop_last() =~= Seq::new(ks.len(), |i: int| (ks[i], cs[i])));
        assert(pairs.last() == (keys.last(), conns.last()));
    } else {
        assert(pairs =~= Seq::<(Seq<char>, ConnectionView)>::empty());
    }
}

} // verus!
