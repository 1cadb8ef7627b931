use loggerheads::config::ConfigStruct;
use loggerheads::connections::{ProtocolSocketInfo, SocketInfo, UdpSocketInfo, CONNECTION_TIMEOUT_NANOS};
use loggerheads::monitor::{
    check_prerequisites, network_watcher_started_message, usb_watcher_started_message, InterfaceInfo,
    NetworkMonitor, PrerequisiteError,
};
use loggerheads::types::{LogFormat, LogLevel};

fn config(interface: Option<&str>) -> ConfigStruct {
    ConfigStruct {
        log_dir: "logs".to_string(),
        log_format: LogFormat::Plaintext,
        watcher_dir: ".".to_string(),
        interval: 1,
        cpu_threshold_bits: 0,
        network_interface: interface.map(|s| s.to_string()),
    }
}

fn iface(name: &str, up: bool, loopback: bool, ips: &[&str]) -> InterfaceInfo {
    InterfaceInfo {
        name: name.to_string(),
        is_up: up,
        is_loopback: loopback,
        ips: ips.iter().map(|s| s.to_string()).collect(),
    }
}

fn interfaces() -> Vec<InterfaceInfo> {
    vec![
        iface("lo", true, true, &["127.0.0.1"]),
        iface("docker0", false, false, &["172.17.0.1"]),
        iface("eth1", true, false, &[]),
        iface("eth0", true, false, &["192.168.1.2"]),
        iface("wlan0", true, false, &["10.0.0.5"]),
    ]
}

fn udp(port: u16) -> SocketInfo {
    SocketInfo {
        protocol_socket_info: ProtocolSocketInfo::Udp(UdpSocketInfo { local_addr: "0.0.0.0".to_string(), local_port: port }),
        associated_pids: vec![],
    }
}

/// Replaces each entry's timestamp by `T`, after checking that it is laid
/// out as a `YYYY-MM-DD HH:MM:SS` clock reading.
fn stamped(text: &str) -> String {
    text.split('\n')
        .map(|line| match line.strip_prefix("Time: ") {
            Some(ts) => {
                let layout_ok = ts.len() == 19
                    && ts.char_indices().all(|(i, c)| match i {
                        4 | 7 => c == '-',
                        10 => c == ' ',
                        13 | 16 => c == ':',
                        _ => c.is_ascii_digit(),
                    });
                assert!(layout_ok, "not a clock reading: {:?}", ts);
                "Time: T".to_string()
            }
            None => line.to_string(),
        })
        .collect::<Vec<_>>()
        .join("\n")
}

fn stamped_all(texts: &[String]) -> Vec<String> {
    texts.iter().map(|t| stamped(t)).collect()
}

fn entry(level: &str, details: &str) -> String {
    format!("Log: {}\nTime: T\nType: NetworkWatch\nDetails: {}\n", level, details)
}

#[test]
fn configured_interface_is_preferred() {
    assert_eq!(NetworkMonitor::get_best_interface(&config(Some("lo")), &interfaces()), Some(0));
    assert_eq!(NetworkMonitor::get_best_interface(&config(Some("docker0")), &interfaces()), Some(1));
}

#[test]
fn first_usable_interface_otherwise() {
    assert_eq!(NetworkMonitor::get_best_interface(&config(Some("eth9")), &interfaces()), Some(3));
    assert_eq!(NetworkMonitor::get_best_interface(&config(None), &interfaces()), Some(3));
    let only_loopback = vec![iface("lo", true, true, &["127.0.0.1"]), iface("eth1", true, false, &[])];
    assert_eq!(NetworkMonitor::get_best_interface(&config(None), &only_loopback), None);
}

#[test]
fn new_monitor_keeps_chosen_interface() {
    let m = NetworkMonitor::new(config(Some("wlan0")), &interfaces());
    assert_eq!(m.interface.as_ref().unwrap().name, "wlan0");
    assert_eq!(m.interface.as_ref().unwrap().ips, vec!["10.0.0.5".to_string()]);
    assert!(m.log_buffer.is_empty());
    assert_eq!(m.previous_connections.len(), 0);
    let none = NetworkMonitor::new(config(None), &Vec::new());
    assert!(none.interface.is_none());
}

#[test]
fn prerequisites_need_an_active_interface() {
    assert_eq!(check_prerequisites(&Vec::new()), Err(PrerequisiteError::NoInterfaces));
    assert_eq!(
        check_prerequisites(&vec![iface("lo", true, true, &[]), iface("eth0", false, false, &[])]),
        Err(PrerequisiteError::NoActiveInterfaces)
    );
    assert_eq!(check_prerequisites(&vec![iface("eth0", true, false, &[])]), Ok(()));
    assert_eq!(PrerequisiteError::NoInterfaces.message(), "No network interfaces found");
    assert_eq!(PrerequisiteError::NoActiveInterfaces.message(), "No active network interfaces found");
}

#[test]
fn buffer_is_flushed_as_lines() {
    let mut m = NetworkMonitor::new(config(None), &Vec::new());
    assert_eq!(m.flush_log_buffer(), None);
    m.add_to_log_buffer("one".to_string());
    m.add_to_log_buffer("two".to_string());
    assert_eq!(m.flush_log_buffer(), Some("one\ntwo".to_string()));
    assert!(m.log_buffer.is_empty());
    assert_eq!(m.flush_log_buffer(), None);
}

#[test]
fn log_event_is_rendered_for_the_network_watcher() {
    let m = NetworkMonitor::new(config(None), &Vec::new());
    assert_eq!(stamped(&m.create_log_event(LogLevel::INFO, "x".to_string())), entry("INFO", "x"));
}

#[test]
fn scan_writes_on_fifth_iteration() {
    let mut m = NetworkMonitor::new(config(None), &Vec::new());
    let writes = m.scan_step(vec!["pkt".to_string()], Ok(vec![udp(53)]), 1, 0);
    assert!(writes.is_empty());
    assert_eq!(stamped_all(&m.log_buffer), vec![entry("DEBUG", "pkt"), entry("INFO", "NEW UDP CONNECTION | UDP | 0.0.0.0:53 | PID: unknown")]);
    let writes = m.scan_step(Vec::new(), Ok(vec![udp(53)]), 5, 1);
    assert_eq!(
        stamped_all(&writes),
        vec![format!("{}\n{}", entry("DEBUG", "pkt"), entry("INFO", "NEW UDP CONNECTION | UDP | 0.0.0.0:53 | PID: unknown"))]
    );
    assert!(m.log_buffer.is_empty());
}

#[test]
fn scan_writes_when_buffer_fills_with_new_connections() {
    let mut m = NetworkMonitor::new(config(None), &Vec::new());
    let sockets: Vec<SocketInfo> = (1..=6).map(udp).collect();
    let writes = m.scan_step(Vec::new(), Ok(sockets), 3, 0);
    assert_eq!(writes.len(), 1);
    assert_eq!(writes[0].matches("NEW UDP CONNECTION").count(), 5);
    assert_eq!(m.log_buffer.len(), 1);
    assert!(m.log_buffer[0].contains("0.0.0.0:6"));
}

#[test]
fn tenth_scan_adds_a_summary() {
    let mut m = NetworkMonitor::new(config(None), &Vec::new());
    let _ = m.scan_step(Vec::new(), Ok(vec![udp(1), udp(2)]), 9, 0);
    let writes = m.scan_step(Vec::new(), Ok(vec![udp(1), udp(2)]), 10, 1);
    assert_eq!(writes.len(), 1);
    assert!(stamped(&writes[0]).ends_with(&entry("DEBUG", "Network Monitor Status | Active connections: 2 | Iteration: 10")));
}

#[test]
fn failed_listing_is_logged_as_error() {
    let mut m = NetworkMonitor::new(config(None), &Vec::new());
    let _ = m.scan_step(Vec::new(), Ok(vec![udp(7)]), 1, 0);
    let writes = m.scan_step(Vec::new(), Err("permission denied".to_string()), 5, CONNECTION_TIMEOUT_NANOS * 3);
    assert_eq!(writes.len(), 1);
    assert!(stamped(&writes[0]).ends_with(&entry("ERROR", "Error getting socket info: permission denied")));
    assert_eq!(m.previous_connections.len(), 1);
}

#[test]
fn closed_connection_is_logged() {
    let mut m = NetworkMonitor::new(config(None), &Vec::new());
    let _ = m.scan_step(Vec::new(), Ok(vec![udp(7)]), 5, 0);
    let writes = m.scan_step(Vec::new(), Ok(Vec::new()), 10, CONNECTION_TIMEOUT_NANOS + 1);
    assert_eq!(
        stamped_all(&writes),
        vec![format!(
            "{}\n{}",
            entry("INFO", "CONNECTION CLOSED | UDP | 0.0.0.0:7 -> "),
            entry("DEBUG", "Network Monitor Status | Active connections: 0 | Iteration: 10")
        )]
    );
}

#[test]
fn started_messages() {
    assert_eq!(network_watcher_started_message(&"T".to_string()), "[T] Network watcher started successfully");
    assert_eq!(usb_watcher_started_message(&"T".to_string()), "[T] USBwatcher started");
}
