use loggerheads::packets::{process_packet_batch, process_single_packet};
use loggerheads::table::Table;

const SRC_MAC: [u8; 6] = [0x11, 0x22, 0x33, 0x44, 0x55, 0x66];
const DST_MAC: [u8; 6] = [0xaa, 0xbb, 0xcc, 0xdd, 0xee, 0xff];

fn frame(src: [u8; 6], ethertype: u16, payload: &[u8]) -> Vec<u8> {
    let mut f = Vec::new();
    f.extend_from_slice(&DST_MAC);
    f.extend_from_slice(&src);
    f.extend_from_slice(&ethertype.to_be_bytes());
    f.extend_from_slice(payload);
    f
}

fn ipv4(protocol: u8, transport: &[u8]) -> Vec<u8> {
    let total = (20 + transport.len()) as u16;
    let mut ip = vec![0x45, 0, 0, 0, 0, 0, 0, 0, 64, protocol, 0, 0, 192, 168, 1, 2, 10, 0, 0, 1];
    ip[2..4].copy_from_slice(&total.to_be_bytes());
    ip.extend_from_slice(transport);
    ip
}

fn tcp_header(src: u16, dst: u16, flags: u8) -> Vec<u8> {
    let mut t = vec![0u8; 20];
    t[0..2].copy_from_slice(&src.to_be_bytes());
    t[2..4].copy_from_slice(&dst.to_be_bytes());
    t[12] = 0x50;
    t[13] = flags;
    t
}

fn single(f: &[u8], previous: &Table<String>) -> (Option<String>, Table<String>) {
    let mut current = Table::new();
    let r = process_single_packet(f, &mut current, previous);
    (r, current)
}

const ADDRS: &str = "Ethernet: 11:22:33:44:55:66 -> aa:bb:cc:dd:ee:ff\nIP: 192.168.1.2 -> 10.0.0.1\n";

#[test]
fn tcp_frame_reports_new_device() {
    let f = frame(SRC_MAC, 0x0800, &ipv4(6, &tcp_header(443, 51000, 0x12)));
    let (r, current) = single(&f, &Table::new());
    let info = format!("{}TCP: 192.168.1.2:443 -> 10.0.0.1:51000 (flags: 0x12)\nLength: 54 bytes", ADDRS);
    assert_eq!(r, Some(format!("NEW DEVICE DETECTED OVER TCP-PACKET | {}", info)));
    assert_eq!(current.len(), 1);
    let (k, v) = current.entry(0);
    assert_eq!(k, "Device: 11:22:33:44:55:66");
    assert_eq!(v, &info);
}

#[test]
fn udp_frame_reports_endpoints() {
    let mut udp = vec![0u8; 8];
    udp[0..2].copy_from_slice(&5353u16.to_be_bytes());
    udp[2..4].copy_from_slice(&53u16.to_be_bytes());
    let f = frame(SRC_MAC, 0x0800, &ipv4(17, &udp));
    let (r, _) = single(&f, &Table::new());
    assert_eq!(
        r.unwrap(),
        format!("NEW DEVICE DETECTED OVER UDP-PACKET | {}UDP: 192.168.1.2:5353 -> 10.0.0.1:53\nLength: 42 bytes", ADDRS)
    );
}

#[test]
fn icmp_frame_reports_type_and_code() {
    let f = frame(SRC_MAC, 0x0800, &ipv4(1, &[8, 0, 0xf7, 0xff]));
    let (r, _) = single(&f, &Table::new());
    assert_eq!(
        r.unwrap(),
        format!("NEW DEVICE DETECTED OVER ICMP-PACKET | {}ICMP: Type 8 Code 0\nLength: 38 bytes", ADDRS)
    );
}

#[test]
fn truncated_transport_headers_are_parse_errors() {
    let f = frame(SRC_MAC, 0x0800, &ipv4(6, &[0u8; 10]));
    let (r, _) = single(&f, &Table::new());
    assert_eq!(r.unwrap(), format!("NEW DEVICE DETECTED OVER TCP-PACKET | {}TCP: [Parse Error]\nLength: 44 bytes", ADDRS));
    let f = frame(SRC_MAC, 0x0800, &ipv4(17, &[0u8; 7]));
    let (r, _) = single(&f, &Table::new());
    assert!(r.unwrap().ends_with("UDP: [Parse Error]\nLength: 41 bytes"));
    let f = frame(SRC_MAC, 0x0800, &ipv4(1, &[0u8; 3]));
    let (r, _) = single(&f, &Table::new());
    assert!(r.unwrap().ends_with("ICMP: [Parse Error]\nLength: 37 bytes"));
}

#[test]
fn total_length_bounds_the_transport_bytes() {
    let mut ip = ipv4(6, &tcp_header(1, 2, 0x02));
    ip[2..4].copy_from_slice(&30u16.to_be_bytes());
    let f = frame(SRC_MAC, 0x0800, &ip);
    let (r, _) = single(&f, &Table::new());
    assert!(r.unwrap().contains("TCP: [Parse Error]"));
}

#[test]
fn ip_options_move_the_transport_bytes() {
    let mut ip = ipv4(17, &[]);
    ip[0] = 0x46;
    ip.extend_from_slice(&[1, 1, 1, 1]);
    let mut udp = vec![0u8; 8];
    udp[0..2].copy_from_slice(&1000u16.to_be_bytes());
    udp[2..4].copy_from_slice(&2000u16.to_be_bytes());
    ip.extend_from_slice(&udp);
    let total = ip.len() as u16;
    ip[2..4].copy_from_slice(&total.to_be_bytes());
    let f = frame(SRC_MAC, 0x0800, &ip);
    let (r, _) = single(&f, &Table::new());
    assert!(r.unwrap().contains("UDP: 192.168.1.2:1000 -> 10.0.0.1:2000\n"));
}

#[test]
fn other_protocols_are_named_by_number() {
    let f = frame(SRC_MAC, 0x0800, &ipv4(47, &[0u8; 4]));
    let (r, _) = single(&f, &Table::new());
    assert_eq!(
        r.unwrap(),
        format!("NEW DEVICE DETECTED OVER UNKNOWN-PACKET | {}Protocol: IpNextHeaderProtocol(47)\nLength: 38 bytes", ADDRS)
    );
}

#[test]
fn non_ipv4_frames_are_reported_as_such() {
    let f = frame(SRC_MAC, 0x0806, &[0u8; 28]);
    let (r, current) = single(&f, &Table::new());
    assert_eq!(
        r.unwrap(),
        "NON-IPv4 PACKET | Eth: 11:22:33:44:55:66 -> aa:bb:cc:dd:ee:ff | Type: EtherType(2054) | Length: 42"
    );
    assert_eq!(current.len(), 0);
}

#[test]
fn unreadable_frames_are_ignored() {
    let (r, current) = single(&[0u8; 13], &Table::new());
    assert_eq!(r, None);
    assert_eq!(current.len(), 0);
    let f = frame(SRC_MAC, 0x0800, &[0x45u8; 19]);
    let (r, current) = single(&f, &Table::new());
    assert_eq!(r, None);
    assert_eq!(current.len(), 0);
}

#[test]
fn known_device_is_not_reported_again() {
    let f = frame(SRC_MAC, 0x0800, &ipv4(6, &tcp_header(1, 2, 0)));
    let mut previous = Table::new();
    let first = process_packet_batch(&vec![f.clone()], &mut previous, 10);
    assert_eq!(first.len(), 1);
    assert!(first[0].starts_with("NEW DEVICE DETECTED OVER TCP-PACKET"));
    let second = process_packet_batch(&vec![f.clone(), f], &mut previous, 10);
    assert!(second.is_empty());
    assert_eq!(previous.len(), 1);
}

#[test]
fn device_missing_from_batch_has_left() {
    let other: [u8; 6] = [0, 1, 2, 3, 4, 5];
    let a = frame(SRC_MAC, 0x0800, &ipv4(1, &[0, 0, 0, 0]));
    let b = frame(other, 0x0800, &ipv4(1, &[0, 0, 0, 0]));
    let mut previous = Table::new();
    let _ = process_packet_batch(&vec![a], &mut previous, 10);
    let logs = process_packet_batch(&vec![b], &mut previous, 10);
    assert_eq!(logs.len(), 2);
    assert!(logs[0].starts_with("NEW DEVICE DETECTED OVER ICMP-PACKET | Ethernet: 00:01:02:03:04:05 -> "));
    assert_eq!(
        logs[1],
        format!("DEVICE LEFT THE NETWORK | {}ICMP: Type 0 Code 0\nLength: 38 bytes", ADDRS)
    );
    assert_eq!(previous.len(), 1);
    assert_eq!(previous.entry(0).0, "Device: 00:01:02:03:04:05");
}

#[test]
fn batch_size_limits_the_frames_read() {
    let arp = frame(SRC_MAC, 0x0806, &[0u8; 28]);
    let packets = vec![arp.clone(), arp.clone(), arp];
    let mut previous = Table::new();
    assert_eq!(process_packet_batch(&packets, &mut previous, 2).len(), 2);
    assert_eq!(process_packet_batch(&packets, &mut previous, 0).len(), 0);
}

#[test]
fn same_device_twice_in_a_new_batch_is_reported_twice() {
    let f = frame(SRC_MAC, 0x0800, &ipv4(1, &[3, 1, 0, 0]));
    let mut previous = Table::new();
    let logs = process_packet_batch(&vec![f.clone(), f], &mut previous, 10);
    assert_eq!(logs.len(), 2);
    assert_eq!(previous.len(), 1);
}
