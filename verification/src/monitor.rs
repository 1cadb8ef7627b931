//! The network watcher's decisions: which interface to capture on, whether
//! the machine can be watched at all, and what each periodic scan writes to
//! the log.

use vstd::prelude::*;
use crate::config::ConfigStruct;
use crate::connections::{
    closed_connection_reports, connection_map, connection_views, connections_after,
    new_connection_reports, process_socket_connections, texts, NetworkConnection, SocketInfo,
};
use crate::render::{current_timestamp, event_text, format_log_event, is_clock_text};
use crate::table::Table;
use crate::text::{decimal, join_lines, join_with_newlines, push_decimal, push_decimal_usize};
use crate::types::{EventType, LogEvent, LogFormat, LogLevel};

verus! {

/// Frames read from the capture channel at each scan, at most.
pub const MAX_BATCH_SIZE: usize = 10;

/// Log entries kept before they are written out.
pub const LOG_BUFFER_SIZE: usize = 5;

/// A network interface, as far as the watcher looks at it.
#[derive(Debug)]
pub struct InterfaceInfo {
    pub name: String,
    pub is_up: bool,
    pub is_loopback: bool,
    /// The interface's addresses, as text.
    pub ips: Vec<String>,
}

/// The mathematical content of an `InterfaceInfo`.
pub struct InterfaceView {
    pub name: Seq<char>,
    pub is_up: bool,
    pub is_loopback: bool,
    pub ips: Seq<Seq<char>>,
}

impl View for InterfaceInfo {
    type V = InterfaceView;

    open spec fn view(&self) -> InterfaceView {
        InterfaceView {
            name: self.name@,
            is_up: self.is_up,
            is_loopback: self.is_loopback,
            ips: texts(self.ips@),
        }
    }
}

impl InterfaceInfo {
    /// A copy of the interface.
    pub fn duplicate(&self) -> (c: InterfaceInfo)
        ensures
            c@ == self@,
    {
        let mut ips: Vec<String> = Vec::new();
        let n = self.ips.len();
        let mut i: usize = 0;
        while i < n
            invariant
                n == self.ips@.len(),
                0 <= i <= n,
                ips@.len() == i,
                texts(ips@) == texts(self.ips@).take(i as int),
            decreases n - i,
        {
            let c = self.ips[i].clone();
            let ghost before = ips@;
            ips.push(c);
            proof {
                assert(ips@ == before.push(self.ips@[i as int]));
                assert(texts(ips@).len() == i + 1);
                assert(forall|j: int| 0 <= j < i ==> texts(ips@)[j] == texts(before)[j]);
                assert(texts(ips@) =~= texts(self.ips@).take(i + 1));
            }
            i = i + 1;
        }
        proof {
            assert(texts(self.ips@).take(n as int) =~= texts(self.ips@));
        }
        InterfaceInfo { name: self.name.clone(), is_up: self.is_up, is_loopback: self.is_loopback, ips }
    }
}

/// An interface that is up and is not the loopback.
pub open spec fn is_active(i: InterfaceInfo) -> bool {
    i.is_up && !i.is_loopback
}

/// An active interface that has at least one address.
pub open spec fn is_candidate(i: InterfaceInfo) -> bool {
    is_active(i) && i.ips@.len() > 0
}

/// Whether the configured interface is among `ifaces`.
pub open spec fn configured_present(configured: Option<String>, ifaces: Seq<InterfaceInfo>) -> bool {
    configured matches Some(name) && exists|j: int| 0 <= j < ifaces.len() && #[trigger] ifaces[j].name@ == name@
}

/// Which interface is the one to capture on: the first one with the
/// configured name; failing that, the first candidate; failing that, none.
pub open spec fn is_best_interface(configured: Option<String>, ifaces: Seq<InterfaceInfo>, pick: Option<int>) -> bool {
    match pick {
        Some(i) => {
            &&& 0 <= i < ifaces.len()
            &&& if configured_present(configured, ifaces) {
                &&& configured matches Some(name) && ifaces[i].name@ == name@
                &&& forall|j: int| 0 <= j < i ==> #[trigger] ifaces[j].name@ != configured->0@
            } else {
                &&& is_candidate(ifaces[i])
                &&& forall|j: int| 0 <= j < i ==> !is_candidate(#[trigger] ifaces[j])
            }
        },
        None => {
            &&& !configured_present(configured, ifaces)
            &&& forall|j: int| 0 <= j < ifaces.len() ==> !is_candidate(#[trigger] ifaces[j])
        },
    }
}

/// Why the network watcher cannot run as intended.
#[derive(Clone, Copy, Debug, PartialEq, Eq, Structural)]
pub enum PrerequisiteError {
    NoInterfaces,
    NoActiveInterfaces,
}

impl PrerequisiteError {
    /// The message of the error.
    pub fn message(&self) -> (m: &'static str)
        ensures
            m@ == (match *self {
                PrerequisiteError::NoInterfaces => "No network interfaces found"@,
                PrerequisiteError::NoActiveInterfaces => "No active network interfaces found"@,
            }),
    {
        match self {
            PrerequisiteError::NoInterfaces => "No network interfaces found",
            PrerequisiteError::NoActiveInterfaces => "No active network interfaces found",
        }
    }
}

/// Checks that there is an interface to watch: fails when there is none at
/// all, or when none is up apart from the loopback.
pub fn check_prerequisites(interfaces: &Vec<InterfaceInfo>) -> (r: Result<(), PrerequisiteError>)
    ensures
        r == Err::<(), PrerequisiteError>(PrerequisiteError::NoInterfaces) <==> interfaces@.len() == 0,
        r == Err::<(), PrerequisiteError>(PrerequisiteError::NoActiveInterfaces) <==> (interfaces@.len() > 0
            && forall|j: int| 0 <= j < interfaces@.len() ==> !is_active(#[trigger] interfaces@[j])),
        r is Ok <==> exists|j: int| 0 <= j < interfaces@.len() && is_active(#[trigger] interfaces@[j]),
{
    let n = interfaces.len();
    if n == 0 {
        return Err(PrerequisiteError::NoInterfaces);
    }
    let mut i: usize = 0;
    while i < n
        invariant
            n == interfaces@.len(),
            0 <= i <= n,
            forall|j: int| 0 <= j < i ==> !is_active(#[trigger] interfaces@[j]),
        decreases n - i,
    {
        if interfaces[i].is_up && !interfaces[i].is_loopback {
            return Ok(());
        }
        i = i + 1;
    }
    Err(PrerequisiteError::NoActiveInterfaces)
}

/// The watcher's state between scans.
pub struct NetworkMonitor {
    pub config: ConfigStruct,
    /// The connections seen at the previous scan.
    pub previous_connections: Table<NetworkConnection>,
    /// Rendered entries not yet written out.
    pub log_buffer: Vec<String>,
    /// The interface to capture on, if any.
    pub interface: Option<InterfaceInfo>,
}

/// Each scan's summary line.
pub open spec fn status_text(count: nat, iteration: u64) -> Seq<char> {
    "Network Monitor Status | Active connections: "@ + decimal(count) + " | Iteration: "@ + decimal(iteration as nat)
}

/// The log entries of a list of details at one level, the `i`-th stamped
/// with `stamps[i]`.
pub open spec fn network_entries(format: LogFormat, level: LogLevel, stamps: Seq<Seq<char>>, details: Seq<Seq<char>>) -> Seq<Seq<char>> {
    Seq::new(details.len(), |i: int| event_text(format, level, EventType::NetworkWatch, stamps[i], details[i]))
}

/// Whether every stamp is a clock reading.
pub open spec fn all_clock_texts(stamps: Seq<Seq<char>>) -> bool {
    forall|i: int| 0 <= i < stamps.len() ==> is_clock_text(#[trigger] stamps[i])
}

/// Adds entries one by one, writing the buffer out each time it reaches
/// `LOG_BUFFER_SIZE` entries. Gives the buffer and the writes.
pub open spec fn append_flushing(buffer: Seq<Seq<char>>, writes: Seq<Seq<char>>, entries: Seq<Seq<char>>)
    -> (Seq<Seq<char>>, Seq<Seq<char>>)
    decreases entries.len(),
{
    if entries.len() == 0 {
        (buffer, writes)
    } else {
        let (b, w) = append_flushing(buffer, writes, entries.drop_last());
        let b2 = b.push(entries.last());
        if b2.len() >= LOG_BUFFER_SIZE {
            (Seq::empty(), w.push(join_lines(b2)))
        } else {
            (b2, w)
        }
    }
}

/// The write at the end of a scan: the whole buffer, on every fifth scan or
/// when it holds `LOG_BUFFER_SIZE` entries, unless it is empty.
pub open spec fn final_flush(buffer: Seq<Seq<char>>, writes: Seq<Seq<char>>, iteration: u64)
    -> (Seq<Seq<char>>, Seq<Seq<char>>)
{
    if (iteration % 5 == 0 || buffer.len() >= LOG_BUFFER_SIZE) && buffer.len() > 0 {
        (Seq::empty(), writes.push(join_lines(buffer)))
    } else {
        (buffer, writes)
    }
}

/// How many entries a successful scan adds: one per packet report, new
/// connection and closed connection, and the summary every tenth scan.
pub open spec fn scan_entry_count(packet_logs: Seq<Seq<char>>, new_reports: Seq<Seq<char>>, closed_reports: Seq<Seq<char>>, iteration: u64) -> nat {
    packet_logs.len() + new_reports.len() + closed_reports.len() + (if iteration % 10 == 0 { 1nat } else { 0nat })
}

/// The buffer and the writes of a scan whose socket listing succeeded:
/// packet reports at debug level, new connections (each possibly writing the
/// buffer out), closed connections, every tenth scan a summary, and the
/// final write. The entries are stamped, in order, with `stamps`.
pub open spec fn scan_outcome(
    format: LogFormat,
    stamps: Seq<Seq<char>>,
    buffer: Seq<Seq<char>>,
    packet_logs: Seq<Seq<char>>,
    new_reports: Seq<Seq<char>>,
    closed_reports: Seq<Seq<char>>,
    count: nat,
    iteration: u64,
) -> (Seq<Seq<char>>, Seq<Seq<char>>) {
    let n1 = packet_logs.len() as int;
    let n2 = n1 + new_reports.len();
    let n3 = n2 + closed_reports.len();
    let b1 = buffer + network_entries(format, LogLevel::DEBUG, stamps.subrange(0, n1), packet_logs);
    let (b2, w2) = append_flushing(
        b1,
        Seq::empty(),
        network_entries(format, LogLevel::INFO, stamps.subrange(n1, n2), new_reports),
    );
    let b3 = b2 + network_entries(format, LogLevel::INFO, stamps.subrange(n2, n3), closed_reports);
    let b4 = if iteration % 10 == 0 {
        b3.push(event_text(format, LogLevel::DEBUG, EventType::NetworkWatch, stamps[n3], status_text(count, iteration)))
    } else {
        b3
    };
    final_flush(b4, w2, iteration)
}

/// The buffer and the writes of a scan whose socket listing failed: packet
/// reports, the error at error level, and the final write. The entries are
/// stamped, in order, with `stamps`.
pub open spec fn failed_scan_outcome(
    format: LogFormat,
    stamps: Seq<Seq<char>>,
    buffer: Seq<Seq<char>>,
    packet_logs: Seq<Seq<char>>,
    error: Seq<char>,
    iteration: u64,
) -> (Seq<Seq<char>>, Seq<Seq<char>>) {
    let n1 = packet_logs.len() as int;
    let b1 = buffer + network_entries(format, LogLevel::DEBUG, stamps.subrange(0, n1), packet_logs);
    let b2 = b1.push(event_text(format, LogLevel::ERROR, EventType::NetworkWatch, stamps[n1],
        "Error getting socket info: "@ + error));
    final_flush(b2, Seq::empty(), iteration)
}

impl NetworkMonitor {
    /// The remembered connections are well formed.
    pub open spec fn wf(&self) -> bool {
        self.previous_connections.wf()
    }

    /// Chooses the interface to capture on, as `is_best_interface` says.
    pub fn get_best_interface(config: &ConfigStruct, interfaces: &Vec<InterfaceInfo>) -> (pick: Option<usize>)
        ensures
            is_best_interface(config.network_interface, interfaces@, match pick { Some(i) => Some(i as int), None => None }),
    {
        let n = interfaces.len();
        match &config.network_interface {
            Some(name) => {
                let mut i: usize = 0;
                while i < n
                    invariant
                        n == interfaces@.len(),
                        0 <= i <= n,
                        config.network_interface == Some(*name),
                        forall|j: int| 0 <= j < i ==> #[trigger] interfaces@[j].name@ != name@,
                    decreases n - i,
                {
                    if interfaces[i].name == *name {
                        return Some(i);
                    }
                    i = i + 1;
                }
            },
            None => {},
        }
        let mut i: usize = 0;
        while i < n
            invariant
                n == interfaces@.len(),
                0 <= i <= n,
                !configured_present(config.network_interface, interfaces@),
                forall|j: int| 0 <= j < i ==> !is_candidate(#[trigger] interfaces@[j]),
            decreases n - i,
        {
            if interfaces[i].is_up && !interfaces[i].is_loopback && interfaces[i].ips.len() > 0 {
                return Some(i);
            }
            i = i + 1;
        }
        None
    }

    /// A monitor with nothing remembered, capturing on the best interface.
    pub fn new(config: ConfigStruct, interfaces: &Vec<InterfaceInfo>) -> (m: NetworkMonitor)
        ensures
            m.wf(),
            m.config == config,
            connection_map(m.previous_connections) == Map::<Seq<char>, crate::connections::ConnectionView>::empty(),
            m.log_buffer@ == Seq::<String>::empty(),
            match m.interface {
                Some(x) => exists|i: int| is_best_interface(config.network_interface, interfaces@, Some(i)) && x@ == #[trigger] interfaces@[i]@,
                None => is_best_interface(config.network_interface, interfaces@, None),
            },
    {
        let pick = Self::get_best_interface(&config, interfaces);
        let interface = match pick {
            Some(i) => Some(interfaces[i].duplicate()),
            None => None,
        };
        let previous_connections: Table<NetworkConnection> = Table::new();
        proof {
            assert(connection_map(previous_connections) =~= Map::<Seq<char>, crate::connections::ConnectionView>::empty());
        }
        NetworkMonitor { config, previous_connections, log_buffer: Vec::new(), interface }
    }

    /// Keeps a rendered entry until the next write.
    pub fn add_to_log_buffer(&mut self, message: String)
        ensures
            final(self).log_buffer@ == old(self).log_buffer@.push(message),
            final(self).config == old(self).config,
            final(self).previous_connections == old(self).previous_connections,
            final(self).interface == old(self).interface,
    {
        self.log_buffer.push(message);
    }

    /// Takes the kept entries as one text, one entry per line, for writing;
    /// nothing when none is kept.
    pub fn flush_log_buffer(&mut self) -> (out: Option<String>)
        ensures
            old(self).log_buffer@.len() == 0 ==> out is None,
            old(self).log_buffer@.len() > 0 ==> (out matches Some(t) && t@ == join_lines(texts(old(self).log_buffer@))),
            final(self).log_buffer@ == Seq::<String>::empty(),
            final(self).config == old(self).config,
            final(self).previous_connections == old(self).previous_connections,
            final(self).interface == old(self).interface,
    {
        if self.log_buffer.len() > 0 {
            let combined = join_with_newlines(&self.log_buffer);
            self.log_buffer = Vec::new();
            Some(combined)
        } else {
            proof {
                assert(self.log_buffer@ =~= Seq::<String>::empty());
            }
            None
        }
    }

    /// Renders a network event, stamped with `timestamp`, in the configured
    /// format.
    fn create_log_event_at(&self, level: LogLevel, details: String, timestamp: String) -> (text: String)
        ensures
            text@ == event_text(self.config.log_format, level, EventType::NetworkWatch, timestamp@, details@),
    {
        let event = LogEvent { level, event_type: EventType::NetworkWatch, timestamp, details };
        format_log_event(&self.config, &event)
    }

    /// Renders a network event, stamped with the current time, in the
    /// configured format.
    pub fn create_log_event(&self, level: LogLevel, details: String) -> (text: String)
        ensures
            exists|t: Seq<char>| is_clock_text(t)
                && text@ == event_text(self.config.log_format, level, EventType::NetworkWatch, t, details@),
    {
        let timestamp = current_timestamp();
        let ghost t = timestamp@;
        let text = self.create_log_event_at(level, details, timestamp);
        assert(is_clock_text(t));
        text
    }

    /// Keeps the entry of a network event stamped with the current time, and
    /// gives the stamp.
    fn log_entry(&mut self, level: LogLevel, details: String) -> (stamp: Ghost<Seq<char>>)
        ensures
            is_clock_text(stamp@),
            texts(final(self).log_buffer@) == texts(old(self).log_buffer@).push(
                event_text(old(self).config.log_format, level, EventType::NetworkWatch, stamp@, details@),
            ),
            final(self).config == old(self).config,
            final(self).previous_connections == old(self).previous_connections,
            final(self).interface == old(self).interface,
    {
        let timestamp = current_timestamp();
        let ghost t = timestamp@;
        let text = self.create_log_event_at(level, details, timestamp);
        let ghost before = self.log_buffer@;
        self.add_to_log_buffer(text);
        proof {
            assert(texts(self.log_buffer@) =~= texts(before).push(text@));
        }
        Ghost(t)
    }

    /// Keeps the entries of several network events at one level, each stamped
    /// with the time it is made; gives the stamps in order.
    fn log_all(&mut self, details: &Vec<String>, level: LogLevel) -> (stamps: Ghost<Seq<Seq<char>>>)
        ensures
            stamps@.len() == details@.len(),
            all_clock_texts(stamps@),
            texts(final(self).log_buffer@) == texts(old(self).log_buffer@) + network_entries(
                old(self).config.log_format, level, stamps@, texts(details@),
            ),
            final(self).config == old(self).config,
            final(self).previous_connections == old(self).previous_connections,
            final(self).interface == old(self).interface,
    {
        let ghost format = self.config.log_format;
        let ghost ds = texts(details@);
        let ghost start = texts(self.log_buffer@);
        let ghost mut stamps: Seq<Seq<char>> = Seq::empty();
        let n = details.len();
        let mut i: usize = 0;
        proof {
            assert(start + network_entries(format, level, stamps, ds.take(0)) =~= start);
        }
        while i < n
            invariant
                n == details@.len(),
                ds == texts(details@),
                0 <= i <= n,
                format == old(self).config.log_format,
                start == texts(old(self).log_buffer@),
                self.config == old(self).config,
                self.previous_connections == old(self).previous_connections,
                self.interface == old(self).interface,
                stamps.len() == i,
                all_clock_texts(stamps),
                texts(self.log_buffer@) == start + network_entries(format, level, stamps, ds.take(i as int)),
            decreases n - i,
        {
            let d = details[i].clone();
            let st = self.log_entry(level, d);
            proof {
                let old_stamps = stamps;
                stamps = stamps.push(st@);
                assert(network_entries(format, level, stamps, ds.take(i + 1)) =~= network_entries(
                    format, level, old_stamps, ds.take(i as int),
                ).push(event_text(format, level, EventType::NetworkWatch, st@, ds[i as int])));
                assert(start + network_entries(format, level, stamps, ds.take(i + 1)) =~= (start
                    + network_entries(format, level, old_stamps, ds.take(i as int))).push(
                    event_text(format, level, EventType::NetworkWatch, st@, ds[i as int]),
                ));
            }
            i = i + 1;
        }
        proof {
            assert(ds.take(n as int) =~= ds);
        }
        Ghost(stamps)
    }

    /// Keeps the entries of several network events at one level, each stamped
    /// with the time it is made, writing the kept entries out each time they
    /// reach `LOG_BUFFER_SIZE`; gives the stamps in order.
    fn log_all_flushing(&mut self, details: &Vec<String>, level: LogLevel, writes: &mut Vec<String>)
        -> (stamps: Ghost<Seq<Seq<char>>>)
        ensures
            stamps@.len() == details@.len(),
            all_clock_texts(stamps@),
            (texts(final(self).log_buffer@), texts(final(writes)@)) == append_flushing(
                texts(old(self).log_buffer@),
                texts(old(writes)@),
                network_entries(old(self).config.log_format, level, stamps@, texts(details@)),
            ),
            final(self).config == old(self).config,
            final(self).previous_connections == old(self).previous_connections,
            final(self).interface == old(self).interface,
    {
        let ghost format = self.config.log_format;
        let ghost ds = texts(details@);
        let ghost start = (texts(self.log_buffer@), texts(writes@));
        let ghost mut stamps: Seq<Seq<char>> = Seq::empty();
        let n = details.len();
        let mut i: usize = 0;
        proof {
            assert(network_entries(format, level, stamps, ds.take(0)) =~= Seq::<Seq<char>>::empty());
        }
        while i < n
            invariant
                n == details@.len(),
                ds == texts(details@),
                0 <= i <= n,
                format == old(self).config.log_format,
                start == (texts(old(self).log_buffer@), texts(old(writes)@)),
                self.config == old(self).config,
                self.previous_connections == old(self).previous_connections,
                self.interface == old(self).interface,
                stamps.len() == i,
                all_clock_texts(stamps),
                (texts(self.log_buffer@), texts(writes@)) == append_flushing(
                    start.0,
                    start.1,
                    network_entries(format, level, stamps, ds.take(i as int)),
                ),
            decreases n - i,
        {
            let d = details[i].clone();
            let st = self.log_entry(level, d);
            let ghost pushed = texts(self.log_buffer@);
            let ghost w = texts(writes@);
            if self.log_buffer.len() >= LOG_BUFFER_SIZE {
                let out = self.flush_log_buffer();
                match out {
                    Some(t) => {
                        writes.push(t);
                        proof {
                            assert(texts(writes@) =~= w.push(join_lines(pushed)));
                            assert(texts(self.log_buffer@) =~= Seq::<Seq<char>>::empty());
                        }
                    },
                    None => {},
                }
            }
            proof {
                let old_stamps = stamps;
                stamps = stamps.push(st@);
                let entries = network_entries(format, level, stamps, ds.take(i + 1));
                assert(entries.drop_last() =~= network_entries(format, level, old_stamps, ds.take(i as int)));
                assert(entries.last() == event_text(format, level, EventType::NetworkWatch, st@, ds[i as int]));
            }
            i = i + 1;
        }
        proof {
            assert(ds.take(n as int) =~= ds);
        }
        Ghost(stamps)
    }

    /// One periodic scan: records the reports of the captured frames, compares
    /// the listed sockets with the previous scan (or records the listing's
    /// failure), adds a summary every tenth scan, and returns the texts to
    /// write to the log, in order, as `scan_outcome` and
    /// `failed_scan_outcome` say. Each entry is stamped with the clock when it
    /// is made. `iteration` counts the scans from one, and `now` is the time
    /// of the listing in nanoseconds.
    pub fn scan_step(
        &mut self,
        packet_logs: Vec<String>,
        sockets: Result<Vec<SocketInfo>, String>,
        iteration: u64,
        now: u64,
    ) -> (writes: Vec<String>)
        requires
            old(self).wf(),
        ensures
            final(self).wf(),
            final(self).config == old(self).config,
            final(self).interface == old(self).interface,
            match sockets {
                Ok(s) => {
                    &&& connection_map(final(self).previous_connections) == connections_after(s@, now)
                    &&& exists|stamps: Seq<Seq<char>>| {
                        &&& stamps.len() == scan_entry_count(
                            texts(packet_logs@),
                            new_connection_reports(s@, old(self).previous_connections.as_map().dom()),
                            closed_connection_reports(
                                old(self).previous_connections.key_seq(),
                                connection_views(old(self).previous_connections),
                                connections_after(s@, now).dom(),
                                now,
                            ),
                            iteration,
                        )
                        &&& all_clock_texts(stamps)
                        &&& (texts(final(self).log_buffer@), texts(writes@)) == scan_outcome(
                            old(self).config.log_format,
                            stamps,
                            texts(old(self).log_buffer@),
                            texts(packet_logs@),
                            new_connection_reports(s@, old(self).previous_connections.as_map().dom()),
                            closed_connection_reports(
                                old(self).previous_connections.key_seq(),
                                connection_views(old(self).previous_connections),
                                connections_after(s@, now).dom(),
                                now,
                            ),
                            connections_after(s@, now).dom().len(),
                            iteration,
                        )
                    }
                },
                Err(e) => {
                    &&& final(self).previous_connections == old(self).previous_connections
                    &&& exists|stamps: Seq<Seq<char>>| {
                        &&& stamps.len() == packet_logs@.len() + 1
                        &&& all_clock_texts(stamps)
                        &&& (texts(final(self).log_buffer@), texts(writes@)) == failed_scan_outcome(
                            old(self).config.log_format,
                            stamps,
                            texts(old(self).log_buffer@),
                            texts(packet_logs@),
                            e@,
                            iteration,
                        )
                    }
                },
            },
    {
        let ghost format = self.config.log_format;
        let ghost buffer0 = texts(self.log_buffer@);
        let ghost known = self.previous_connections.as_map().dom();
        let ghost keys = self.previous_connections.key_seq();
        let ghost conns = connection_views(self.previous_connections);
        let ghost plogs = texts(packet_logs@);
        let mut writes: Vec<String> = Vec::new();
        proof {
            assert(texts(writes@) =~= Seq::<Seq<char>>::empty());
        }
        let s1 = self.log_all(&packet_logs, LogLevel::DEBUG);
        let ghost b1 = texts(self.log_buffer@);
        let ghost mut stamps: Seq<Seq<char>> = s1@;
        match sockets {
            Ok(s) => {
                let (new_connections, closed_connections) = process_socket_connections(
                    &s,
                    &mut self.previous_connections,
                    now,
                );
                let s2 = self.log_all_flushing(&new_connections, LogLevel::INFO, &mut writes);
                let ghost b2 = texts(self.log_buffer@);
                let ghost w2 = texts(writes@);
                let s3 = self.log_all(&closed_connections, LogLevel::INFO);
                let ghost b3 = texts(self.log_buffer@);
                proof {
                    stamps = s1@ + s2@ + s3@;
                }
                let ghost new_r = texts(new_connections@);
                let ghost closed_r = texts(closed_connections@);
                let ghost n1 = plogs.len() as int;
                let ghost n2 = n1 + new_r.len();
                let ghost n3 = n2 + closed_r.len();
                if iteration % 10 == 0 {
                    let count = self.previous_connections.len();
                    let mut status = String::from_str("Network Monitor Status | Active connections: ");
                    push_decimal_usize(&mut status, count);
                    status.append(" | Iteration: ");
                    push_decimal(&mut status, iteration);
                    proof {
                        assert(self.previous_connections.as_map().dom() =~= connection_map(self.previous_connections).dom());
                    }
                    let s4 = self.log_entry(LogLevel::DEBUG, status);
                    proof {
                        stamps = stamps.push(s4@);
                        assert(stamps[n3] == s4@);
                    }
                }
                let ghost b4 = texts(self.log_buffer@);
                let ghost w = texts(writes@);
                if iteration % 5 == 0 || self.log_buffer.len() >= LOG_BUFFER_SIZE {
                    let out = self.flush_log_buffer();
                    match out {
                        Some(t) => {
                            writes.push(t);
                            proof {
                                assert(texts(writes@) =~= w.push(join_lines(b4)));
                                assert(texts(self.log_buffer@) =~= Seq::<Seq<char>>::empty());
                            }
                        },
                        None => {},
                    }
                }
                proof {
                    assert(stamps.subrange(0, n1) =~= s1@);
                    assert(stamps.subrange(n1, n2) =~= s2@);
                    assert(stamps.subrange(n2, n3) =~= s3@);
                    assert(all_clock_texts(stamps));
                    assert((texts(self.log_buffer@), texts(writes@)) == scan_outcome(
                        format, stamps, buffer0, plogs, new_r, closed_r,
                        connections_after(s@, now).dom().len(), iteration,
                    ));
                }
            },
            Err(e) => {
                let mut message = String::from_str("Error getting socket info: ");
                message.append(e.as_str());
                let s2 = self.log_entry(LogLevel::ERROR, message);
                proof {
                    stamps = s1@.push(s2@);
                    assert(stamps.subrange(0, plogs.len() as int) =~= s1@);
                    assert(all_clock_texts(stamps));
                }
                let ghost b2 = texts(self.log_buffer@);
                if iteration % 5 == 0 || self.log_buffer.len() >= LOG_BUFFER_SIZE {
                    let out = self.flush_log_buffer();
                    match out {
                        Some(t) => {
                            writes.push(t);
                            proof {
                                assert(texts(writes@) =~= Seq::<Seq<char>>::empty().push(join_lines(b2)));
                                assert(texts(self.log_buffer@) =~= Seq::<Seq<char>>::empty());
                            }
                        },
                        None => {},
                    }
                }
            },
        }
        writes
    }
}

/// The entries a successful scan adds, in order, stamped with `stamps`.
pub open spec fn scan_entries(
    format: LogFormat,
    stamps: Seq<Seq<char>>,
    packet_logs: Seq<Seq<char>>,
    new_reports: Seq<Seq<char>>,
    closed_reports: Seq<Seq<char>>,
    count: nat,
    iteration: u64,
) -> Seq<Seq<char>> {
    let n1 = packet_logs.len() as int;
    let n2 = n1 + new_reports.len();
    let n3 = n2 + closed_reports.len();
    let all = network_entries(format, LogLevel::DEBUG, stamps.subrange(0, n1), packet_logs)
        + network_entries(format, LogLevel::INFO, stamps.subrange(n1, n2), new_reports)
        + network_entries(format, LogLevel::INFO, stamps.subrange(n2, n3), closed_reports);
    if iteration % 10 == 0 {
        all.push(event_text(format, LogLevel::DEBUG, EventType::NetworkWatch, stamps[n3], status_text(count, iteration)))
    } else {
        all
    }
}

/// The texts written for groups of entries, one write per group.
pub open spec fn group_writes(groups: Seq<Seq<Seq<char>>>) -> Seq<Seq<char>> {
    groups.map_values(|g: Seq<Seq<char>>| join_lines(g))
}

/// Adding entries while writing the buffer out loses and reorders nothing:
/// the groups written, followed by what stays kept, are the kept entries
/// followed by the added ones.
pub proof fn lemma_append_flushing_keeps_every_entry(
    buffer: Seq<Seq<char>>,
    writes: Seq<Seq<char>>,
    entries: Seq<Seq<char>>,
) -> (groups: Seq<Seq<Seq<char>>>)
    ensures
        append_flushing(buffer, writes, entries).1 == writes + group_writes(groups),
        groups.flatten_alt() + append_flushing(buffer, writes, entries).0 == buffer + entries,
    decreases entries.len(),
{
    if entries.len() == 0 {
        let groups = Seq::<Seq<Seq<char>>>::empty();
        assert(group_writes(groups) =~= Seq::<Seq<char>>::empty());
        assert(writes + group_writes(groups) =~= writes);
        assert(buffer + entries =~= buffer);
        assert(groups.flatten_alt() + buffer =~= buffer);
        groups
    } else {
        let rest = entries.drop_last();
        let g0 = lemma_append_flushing_keeps_every_entry(buffer, writes, rest);
        let (b, w) = append_flushing(buffer, writes, rest);
        let b2 = b.push(entries.last());
        assert(buffer + entries =~= (buffer + rest).push(entries.last()));
        if b2.len() >= LOG_BUFFER_SIZE {
            let groups = g0.push(b2);
            assert(groups.drop_last() =~= g0);
            assert(group_writes(groups) =~= group_writes(g0).push(join_lines(b2)));
            assert(writes + group_writes(groups) =~= (writes + group_writes(g0)).push(join_lines(b2)));
            assert(groups.flatten_alt() == g0.flatten_alt() + b2);
            assert(groups.flatten_alt() + Seq::<Seq<char>>::empty() =~= (g0.flatten_alt() + b).push(entries.last()));
            groups
        } else {
            assert(g0.flatten_alt() + b2 =~= (g0.flatten_alt() + b).push(entries.last()));
            g0
        }
    }
}

/// A scan loses and reorders no entry: the groups it writes, followed by what
/// stays kept, are the entries kept before the scan followed by the entries
/// the scan adds.
pub proof fn lemma_scan_keeps_every_entry(
    format: LogFormat,
    stamps: Seq<Seq<char>>,
    buffer: Seq<Seq<char>>,
    packet_logs: Seq<Seq<char>>,
    new_reports: Seq<Seq<char>>,
    closed_reports: Seq<Seq<char>>,
    count: nat,
    iteration: u64,
) -> (groups: Seq<Seq<Seq<char>>>)
    ensures
        scan_outcome(format, stamps, buffer, packet_logs, new_reports, closed_reports, count, iteration).1
            == group_writes(groups),
        groups.flatten_alt() + scan_outcome(format, stamps, buffer, packet_logs, new_reports, closed_reports, count, iteration).0
            == buffer + scan_entries(format, stamps, packet_logs, new_reports, closed_reports, count, iteration),
{
    let n1 = packet_logs.len() as int;
    let n2 = n1 + new_reports.len();
    let n3 = n2 + closed_reports.len();
    let debug = network_entries(format, LogLevel::DEBUG, stamps.subrange(0, n1), packet_logs);
    let new_entries = network_entries(format, LogLevel::INFO, stamps.subrange(n1, n2), new_reports);
    let closed_entries = network_entries(format, LogLevel::INFO, stamps.subrange(n2, n3), closed_reports);
    let b1 = buffer + debug;
    let g0 = lemma_append_flushing_keeps_every_entry(b1, Seq::empty(), new_entries);
    let (b2, w2) = append_flushing(b1, Seq::empty(), new_entries);
    assert(Seq::<Seq<char>>::empty() + group_writes(g0) =~= group_writes(g0));
    let b3 = b2 + closed_entries;
    let status = event_text(format, LogLevel::DEBUG, EventType::NetworkWatch, stamps[n3], status_text(count, iteration));
    let b4 = if iteration % 10 == 0 { b3.push(status) } else { b3 };
    let all = buffer + scan_entries(format, stamps, packet_logs, new_reports, closed_reports, count, iteration);
    let f = g0.flatten_alt();
    assert(f + b2 == b1 + new_entries);
    assert(f + b3 =~= (f + b2) + closed_entries);
    assert(f + b3 =~= buffer + (debug + new_entries + closed_entries));
    if iteration % 10 == 0 {
        assert(f + b4 =~= (f + b3).push(status));
    }
    assert(f + b4 =~= all);
    if (iteration % 5 == 0 || b4.len() >= LOG_BUFFER_SIZE) && b4.len() > 0 {
        let groups = g0.push(b4);
        assert(groups.drop_last() =~= g0);
        assert(group_writes(groups) =~= group_writes(g0).push(join_lines(b4)));
        assert(groups.flatten_alt() == g0.flatten_alt() + b4);
        assert(groups.flatten_alt() + Seq::<Seq<char>>::empty() =~= all);
        groups
    } else {
        g0
    }
}

/// A scan whose socket listing fails loses and reorders no entry either: the
/// groups it writes, followed by what stays kept, are the entries kept
/// before the scan, then every packet report at debug level, then the error
/// at error level, each stamped in turn (one stamp per entry).
pub proof fn lemma_failed_scan_keeps_every_entry(
    format: LogFormat,
    stamps: Seq<Seq<char>>,
    buffer: Seq<Seq<char>>,
    packet_logs: Seq<Seq<char>>,
    error: Seq<char>,
    iteration: u64,
) -> (groups: Seq<Seq<Seq<char>>>)
    requires
        packet_logs.len() < stamps.len(),
    ensures
        failed_scan_outcome(format, stamps, buffer, packet_logs, error, iteration).1 == group_writes(groups),
        groups.flatten_alt() + failed_scan_outcome(format, stamps, buffer, packet_logs, error, iteration).0
            == buffer + Seq::new(
                packet_logs.len(),
                |i: int| event_text(format, LogLevel::DEBUG, EventType::NetworkWatch, stamps[i], packet_logs[i]),
            ).push(event_text(
                format,
                LogLevel::ERROR,
                EventType::NetworkWatch,
                stamps[packet_logs.len() as int],
                "Error getting socket info: "@ + error,
            )),
{
    let n1 = packet_logs.len() as int;
    let debug = network_entries(format, LogLevel::DEBUG, stamps.subrange(0, n1), packet_logs);
    let expected = Seq::new(
        packet_logs.len(),
        |i: int| event_text(format, LogLevel::DEBUG, EventType::NetworkWatch, stamps[i], packet_logs[i]),
    );
    assert(debug =~= expected);
    let err = event_text(format, LogLevel::ERROR, EventType::NetworkWatch, stamps[n1], "Error getting socket info: "@ + error);
    let b2 = (buffer + debug).push(err);
    assert(b2 =~= buffer + expected.push(err));
    if (iteration % 5 == 0 || b2.len() >= LOG_BUFFER_SIZE) && b2.len() > 0 {
        let groups = seq![b2];
        assert(group_writes(groups) =~= seq![join_lines(b2)]);
        assert(Seq::<Seq<char>>::empty().push(join_lines(b2)) =~= seq![join_lines(b2)]);
        assert(groups.drop_last() =~= Seq::<Seq<Seq<char>>>::empty());
        assert(groups.flatten_alt() == Seq::<Seq<Seq<char>>>::empty().flatten_alt() + b2);
        assert(groups.flatten_alt() + Seq::<Seq<char>>::empty() =~= b2);
        groups
    } else {
        let groups = Seq::<Seq<Seq<char>>>::empty();
        assert(group_writes(groups) =~= Seq::<Seq<char>>::empty());
        assert(groups.flatten_alt() + b2 =~= b2);
        groups
    }
}

/// After every scan fewer than `LOG_BUFFER_SIZE` entries stay kept, and none
/// after every fifth scan.
pub proof fn lemma_scan_leaves_short_buffer(buffer: Seq<Seq<char>>, writes: Seq<Seq<char>>, iteration: u64)
    ensures
        final_flush(buffer, writes, iteration).0.len() < LOG_BUFFER_SIZE,
        iteration % 5 == 0 ==> final_flush(buffer, writes, iteration).0.len() == 0,
{
}

/// The line announcing that the network watcher runs, stamped with
/// `timestamp`.
pub fn network_watcher_started_message(timestamp: &String) -> (msg: String)
    ensures
        msg@ == "["@ + timestamp@ + "] Network watcher started successfully"@,
{
    let mut s = String::from_str("[");
    s.append(timestamp.as_str());
    s.append("] Network watcher started successfully");
    s
}

/// The line announcing that the USB watcher runs, stamped with `timestamp`.
pub fn usb_watcher_started_message(timestamp: &String) -> (msg: String)
    ensures
        msg@ == "["@ + timestamp@ + "] USBwatcher started"@,
{
    let mut s = String::from_str("[");
    s.append(timestamp.as_str());
    s.append("] USBwatcher started");
    s
}

} // verus!
