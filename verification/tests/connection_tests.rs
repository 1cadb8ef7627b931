use loggerheads::connections::{
    process_socket_connections, NetworkConnection, ProtocolSocketInfo, SocketInfo, TcpSocketInfo,
    UdpSocketInfo, CONNECTION_TIMEOUT_NANOS,
};
use loggerheads::table::Table;

fn tcp(local: &str, lport: u16, remote: &str, rport: u16, state: &str, pids: Vec<u32>) -> SocketInfo {
    SocketInfo {
        protocol_socket_info: ProtocolSocketInfo::Tcp(TcpSocketInfo {
            local_addr: local.to_string(),
            local_port: lport,
            remote_addr: remote.to_string(),
            remote_port: rport,
            state: state.to_string(),
        }),
        associated_pids: pids,
    }
}

fn udp(local: &str, lport: u16, pids: Vec<u32>) -> SocketInfo {
    SocketInfo {
        protocol_socket_info: ProtocolSocketInfo::Udp(UdpSocketInfo { local_addr: local.to_string(), local_port: lport }),
        associated_pids: pids,
    }
}

fn remembered(table: &Table<NetworkConnection>) -> Vec<(String, String, String, String, Option<u32>, u64)> {
    (0..table.len())
        .map(|i| {
            let (k, c) = table.entry(i);
            (k.clone(), c.protocol.clone(), c.local_addr.clone(), c.remote_addr.clone(), c.pid, c.last_seen)
        })
        .collect()
}

#[test]
fn first_scan_reports_every_connection_as_new() {
    let mut previous = Table::new();
    let sockets = vec![
        tcp("192.168.1.5", 40000, "93.184.216.34", 443, "Established", vec![1234, 99]),
        udp("0.0.0.0", 53, vec![]),
    ];
    let (new, closed) = process_socket_connections(&sockets, &mut previous, 1_000);
    assert_eq!(
        new,
        vec![
            "NEW TCP CONNECTION | TCP | 192.168.1.5:40000 -> 93.184.216.34:443 | PID: 1234 | State: Established".to_string(),
            "NEW UDP CONNECTION | UDP | 0.0.0.0:53 | PID: unknown".to_string(),
        ]
    );
    assert!(closed.is_empty());
    assert_eq!(
        remembered(&previous),
        vec![
            ("TCP:192.168.1.5:40000:93.184.216.34".to_string(), "TCP".to_string(), "192.168.1.5:40000".to_string(), "93.184.216.34:443".to_string(), Some(1234), 1_000),
            ("UDP:0.0.0.0:53".to_string(), "UDP".to_string(), "0.0.0.0:53".to_string(), "".to_string(), None, 1_000),
        ]
    );
    let (_, udp_conn) = previous.entry(1);
    assert_eq!(udp_conn.state, "LISTEN");
}

#[test]
fn rescan_reports_nothing_new() {
    let mut previous = Table::new();
    let sockets = vec![tcp("10.0.0.1", 22, "10.0.0.9", 5555, "Established", vec![7]), udp("::1", 123, vec![8])];
    let _ = process_socket_connections(&sockets, &mut previous, 0);
    let (new, closed) = process_socket_connections(&sockets, &mut previous, 10);
    assert!(new.is_empty());
    assert!(closed.is_empty());
    assert_eq!(previous.len(), 2);
    assert_eq!(previous.entry(0).1.last_seen, 10);
}

#[test]
fn vanished_connection_closed_only_after_timeout() {
    let mut previous = Table::new();
    let sockets = vec![tcp("10.0.0.1", 22, "10.0.0.9", 5555, "Established", vec![7])];
    let _ = process_socket_connections(&sockets, &mut previous, 0);
    let mut early = Table::new();
    let _ = process_socket_connections(&sockets, &mut early, 0);
    let (new, closed) = process_socket_connections(&Vec::new(), &mut early, CONNECTION_TIMEOUT_NANOS);
    assert!(new.is_empty());
    assert!(closed.is_empty());
    assert_eq!(early.len(), 0);
    let (_, closed) = process_socket_connections(&Vec::new(), &mut previous, CONNECTION_TIMEOUT_NANOS + 1);
    assert_eq!(closed, vec!["CONNECTION CLOSED | TCP | 10.0.0.1:22 -> 10.0.0.9:5555".to_string()]);
    assert_eq!(previous.len(), 0);
}

#[test]
fn clock_going_back_closes_nothing() {
    let mut previous = Table::new();
    let _ = process_socket_connections(&vec![udp("0.0.0.0", 68, vec![])], &mut previous, 1_000_000_000_000);
    let (_, closed) = process_socket_connections(&Vec::new(), &mut previous, 5);
    assert!(closed.is_empty());
}

#[test]
fn tcp_key_ignores_remote_port() {
    let mut previous = Table::new();
    let sockets = vec![
        tcp("10.0.0.1", 5000, "10.0.0.2", 80, "SynSent", vec![]),
        tcp("10.0.0.1", 5000, "10.0.0.2", 81, "Established", vec![3]),
    ];
    let (new, _) = process_socket_connections(&sockets, &mut previous, 0);
    assert_eq!(new.len(), 2);
    assert_eq!(previous.len(), 1);
    let (key, conn) = previous.entry(0);
    assert_eq!(key, "TCP:10.0.0.1:5000:10.0.0.2");
    assert_eq!(conn.remote_addr, "10.0.0.2:81");
    assert_eq!(conn.state, "Established");
}

#[test]
fn new_and_closed_in_same_scan() {
    let mut previous = Table::new();
    let _ = process_socket_connections(&vec![udp("0.0.0.0", 1, vec![])], &mut previous, 0);
    let (new, closed) =
        process_socket_connections(&vec![udp("0.0.0.0", 2, vec![42])], &mut previous, CONNECTION_TIMEOUT_NANOS * 2);
    assert_eq!(new, vec!["NEW UDP CONNECTION | UDP | 0.0.0.0:2 | PID: 42".to_string()]);
    assert_eq!(closed, vec!["CONNECTION CLOSED | UDP | 0.0.0.0:1 -> ".to_string()]);
}

#[test]
fn table_insert_and_find() {
    let mut t: Table<String> = Table::new();
    t.insert("a".to_string(), "1".to_string());
    t.insert("b".to_string(), "2".to_string());
    t.insert("a".to_string(), "3".to_string());
    assert_eq!(t.len(), 2);
    assert_eq!(t.find(&"a".to_string()), Some(0));
    assert_eq!(t.find(&"c".to_string()), None);
    assert!(t.contains_key(&"b".to_string()));
    assert_eq!(t.entry(0).1, "3");
}
