//! Inspection of captured Ethernet frames: which device sent an IPv4 packet,
//! over which protocol, and which devices appeared or left between two
//! batches of packets.
//!
//! Frames are read with the layout that pnet's packet views use: an Ethernet
//! header of 14 bytes, an IPv4 header whose payload is bounded by its header
//! and total lengths, and the first bytes of ICMP, TCP and UDP headers.

use vstd::prelude::*;
use crate::connections::texts;
use crate::render::hex_digit_value;
use crate::table::Table;
use crate::text::{decimal, digit_char, hex2, push_char, push_decimal, push_decimal_usize, push_hex2};

verus! {

/// The EtherType of IPv4.
pub const ETHERTYPE_IPV4: u64 = 0x0800;

/// The IP protocol numbers of ICMP, TCP and UDP.
pub const PROTOCOL_ICMP: u8 = 1;
pub const PROTOCOL_TCP: u8 = 6;
pub const PROTOCOL_UDP: u8 = 17;

/// A big-endian 16-bit field at `i`.
pub open spec fn be16(p: Seq<u8>, i: int) -> nat {
    (p[i] as nat) * 256 + (p[i + 1] as nat)
}

/// The six bytes at `at` as a MAC address: lower-case hexadecimal pairs
/// separated by colons.
pub open spec fn mac_text(p: Seq<u8>, at: int) -> Seq<char> {
    hex2(p[at]) + ":"@ + hex2(p[at + 1]) + ":"@ + hex2(p[at + 2]) + ":"@ + hex2(p[at + 3]) + ":"@
        + hex2(p[at + 4]) + ":"@ + hex2(p[at + 5])
}

/// The four bytes at `at` as a dotted IPv4 address.
pub open spec fn ipv4_text(p: Seq<u8>, at: int) -> Seq<char> {
    decimal(p[at] as nat) + "."@ + decimal(p[at + 1] as nat) + "."@ + decimal(p[at + 2] as nat) + "."@
        + decimal(p[at + 3] as nat)
}

/// Whether a frame holds a whole Ethernet header.
pub open spec fn is_ethernet(p: Seq<u8>) -> bool {
    p.len() >= 14
}

/// The EtherType field of a frame.
pub open spec fn ethertype(p: Seq<u8>) -> nat {
    be16(p, 12)
}

/// What follows the Ethernet header.
pub open spec fn ethernet_payload(p: Seq<u8>) -> Seq<u8> {
    p.subrange(14, p.len() as int)
}

/// Whether a frame carries an IPv4 packet with a whole fixed header.
pub open spec fn is_ipv4_frame(p: Seq<u8>) -> bool {
    is_ethernet(p) && ethertype(p) == ETHERTYPE_IPV4 && ethernet_payload(p).len() >= 20
}

/// The IPv4 header length in bytes, from its header-length field.
pub open spec fn ipv4_header_bytes(ip: Seq<u8>) -> int {
    ((ip[0] % 16) as int) * 4
}

/// Where the IPv4 payload starts: after the header, and never inside the
/// fixed part of twenty bytes.
pub open spec fn ipv4_payload_start(ip: Seq<u8>) -> int {
    if ipv4_header_bytes(ip) > 20 { ipv4_header_bytes(ip) } else { 20 }
}

/// Where the IPv4 payload ends: the total length less the header, cut at the
/// end of the captured bytes.
pub open spec fn ipv4_payload_end(ip: Seq<u8>) -> int {
    let total = be16(ip, 2) as int;
    let length = if total >= ipv4_header_bytes(ip) { total - ipv4_header_bytes(ip) } else { 0 };
    if ipv4_payload_start(ip) + length < ip.len() { ipv4_payload_start(ip) + length } else { ip.len() as int }
}

/// The payload of an IPv4 packet.
pub open spec fn ipv4_payload(ip: Seq<u8>) -> Seq<u8> {
    if ip.len() <= ipv4_payload_start(ip) {
        Seq::empty()
    } else {
        ip.subrange(ipv4_payload_start(ip), ipv4_payload_end(ip))
    }
}

/// The protocol number of the IPv4 packet of a frame.
pub open spec fn ip_protocol(p: Seq<u8>) -> u8 {
    ethernet_payload(p)[9]
}

/// The transport bytes of a frame: the IPv4 payload.
pub open spec fn transport(p: Seq<u8>) -> Seq<u8> {
    ipv4_payload(ethernet_payload(p))
}

/// The lines naming the hardware and IP addresses of a frame.
pub open spec fn addresses_text(p: Seq<u8>) -> Seq<char> {
    "Ethernet: "@ + mac_text(p, 6) + " -> "@ + mac_text(p, 0) + "\nIP: "@
        + ipv4_text(ethernet_payload(p), 12) + " -> "@ + ipv4_text(ethernet_payload(p), 16)
}

/// The ICMP line: type and code, or a parse error when fewer than four
/// transport bytes are present.
pub open spec fn control_message_text(p: Seq<u8>) -> Seq<char> {
    let t = transport(p);
    if t.len() >= 4 {
        "ICMP: Type "@ + decimal(t[0] as nat) + " Code "@ + decimal(t[1] as nat)
    } else {
        "ICMP: [Parse Error]"@
    }
}

/// The TCP line: both endpoints and the flags byte, or a parse error when
/// fewer than twenty transport bytes are present.
pub open spec fn tcp_text(p: Seq<u8>) -> Seq<char> {
    let t = transport(p);
    let ip = ethernet_payload(p);
    if t.len() >= 20 {
        "TCP: "@ + ipv4_text(ip, 12) + ":"@ + decimal(be16(t, 0)) + " -> "@ + ipv4_text(ip, 16) + ":"@
            + decimal(be16(t, 2)) + " (flags: 0x"@ + hex2(t[13]) + ")"@
    } else {
        "TCP: [Parse Error]"@
    }
}

/// The UDP line: both endpoints, or a parse error when fewer than eight
/// transport bytes are present.
pub open spec fn udp_text(p: Seq<u8>) -> Seq<char> {
    let t = transport(p);
    let ip = ethernet_payload(p);
    if t.len() >= 8 {
        "UDP: "@ + ipv4_text(ip, 12) + ":"@ + decimal(be16(t, 0)) + " -> "@ + ipv4_text(ip, 16) + ":"@
            + decimal(be16(t, 2))
    } else {
        "UDP: [Parse Error]"@
    }
}

/// The line of any other protocol: its number.
pub open spec fn other_protocol_text(p: Seq<u8>) -> Seq<char> {
    "Protocol: IpNextHeaderProtocol("@ + decimal(ip_protocol(p) as nat) + ")"@
}

/// The line describing the transport header of an IPv4 frame.
pub open spec fn transport_text(p: Seq<u8>) -> Seq<char> {
    if ip_protocol(p) == PROTOCOL_ICMP {
        control_message_text(p)
    } else if ip_protocol(p) == PROTOCOL_TCP {
        tcp_text(p)
    } else if ip_protocol(p) == PROTOCOL_UDP {
        udp_text(p)
    } else {
        other_protocol_text(p)
    }
}

/// A frame's description around a given transport line.
pub open spec fn frame_text(p: Seq<u8>, line: Seq<char>) -> Seq<char> {
    addresses_text(p) + "\n"@ + line + "\nLength: "@ + decimal(p.len()) + " bytes"@
}

/// The description of an IPv4 frame.
pub open spec fn connection_info_text(p: Seq<u8>) -> Seq<char> {
    frame_text(p, transport_text(p))
}

/// The name of the transport protocol of an IPv4 frame.
pub open spec fn protocol_name(p: Seq<u8>) -> Seq<char> {
    if ip_protocol(p) == PROTOCOL_ICMP {
        "ICMP"@
    } else if ip_protocol(p) == PROTOCOL_TCP {
        "TCP"@
    } else if ip_protocol(p) == PROTOCOL_UDP {
        "UDP"@
    } else {
        "UNKNOWN"@
    }
}

/// The key under which the sender of a frame is remembered.
pub open spec fn device_key(p: Seq<u8>) -> Seq<char> {
    "Device: "@ + mac_text(p, 6)
}

/// The device that an IPv4 frame shows: its key and the frame's description.
pub open spec fn device_observation(p: Seq<u8>) -> Option<(Seq<char>, Seq<char>)> {
    if is_ipv4_frame(p) {
        Some((device_key(p), connection_info_text(p)))
    } else {
        None
    }
}

/// The report of a frame that carries no IPv4.
pub open spec fn non_ipv4_text(p: Seq<u8>) -> Seq<char> {
    "NON-IPv4 PACKET | Eth: "@ + mac_text(p, 6) + " -> "@ + mac_text(p, 0) + " | Type: EtherType("@
        + decimal(ethertype(p)) + ") | Length: "@ + decimal(p.len())
}

/// The report of a device not known before.
pub open spec fn new_device_text(p: Seq<u8>) -> Seq<char> {
    "NEW DEVICE DETECTED OVER "@ + protocol_name(p) + "-PACKET | "@ + connection_info_text(p)
}

/// What a frame is reported as, given the devices known before the batch:
/// nothing for a frame too short to read, the frame itself when it carries
/// no IPv4, and its sender when that device was not known.
pub open spec fn packet_report(p: Seq<u8>, known: Set<Seq<char>>) -> Option<Seq<char>> {
    if !is_ethernet(p) {
        None
    } else if ethertype(p) != ETHERTYPE_IPV4 {
        Some(non_ipv4_text(p))
    } else if ethernet_payload(p).len() < 20 {
        None
    } else if known.contains(device_key(p)) {
        None
    } else {
        Some(new_device_text(p))
    }
}

/// Appends a MAC address read at `at`.
fn push_mac(s: &mut String, p: &[u8], at: usize)
    requires
        at + 6 <= p@.len(),
    ensures
        final(s)@ == old(s)@ + mac_text(p@, at as int),
{
    push_hex2(s, p[at]);
    push_char(s, ':');
    push_hex2(s, p[at + 1]);
    push_char(s, ':');
    push_hex2(s, p[at + 2]);
    push_char(s, ':');
    push_hex2(s, p[at + 3]);
    push_char(s, ':');
    push_hex2(s, p[at + 4]);
    push_char(s, ':');
    push_hex2(s, p[at + 5]);
    proof {
        reveal_strlit(":");
        assert(s@ =~= old(s)@ + mac_text(p@, at as int));
    }
}

/// Appends an IPv4 address read at `at`.
fn push_ipv4(s: &mut String, p: &[u8], at: usize)
    requires
        at + 4 <= p@.len(),
    ensures
        final(s)@ == old(s)@ + ipv4_text(p@, at as int),
{
    push_decimal(s, p[at] as u64);
    push_char(s, '.');
    push_decimal(s, p[at + 1] as u64);
    push_char(s, '.');
    push_decimal(s, p[at + 2] as u64);
    push_char(s, '.');
    push_decimal(s, p[at + 3] as u64);
    proof {
        reveal_strlit(".");
        assert(s@ =~= old(s)@ + ipv4_text(p@, at as int));
    }
}

/// The IPv4 addresses of a frame read from the frame itself.
proof fn lemma_ipv4_text_in_frame(p: Seq<u8>, at: int)
    requires
        14 <= at,
        at + 4 <= p.len(),
    ensures
        ipv4_text(ethernet_payload(p), at - 14) == ipv4_text(p, at),
{
    let ip = ethernet_payload(p);
    assert(ip[at - 14] == p[at]);
    assert(ip[at - 13] == p[at + 1]);
    assert(ip[at - 12] == p[at + 2]);
    assert(ip[at - 11] == p[at + 3]);
}

/// A big-endian 16-bit field at `i`.
fn read_be16(p: &[u8], i: usize) -> (v: u64)
    requires
        i + 2 <= p@.len(),
    ensures
        v == be16(p@, i as int),
        v < 65536,
{
    (p[i] as u64) * 256 + (p[i + 1] as u64)
}

/// The bounds, within the frame, of the transport bytes of an IPv4 frame.
fn transport_bounds(p: &[u8]) -> (b: (usize, usize))
    requires
        is_ipv4_frame(p@),
    ensures
        14 <= b.0 <= b.1 <= p@.len(),
        p@.subrange(b.0 as int, b.1 as int) == transport(p@),
{
    let len = p.len();
    let ip_len: u64 = (len - 14) as u64;
    let header: u64 = ((p[14] % 16) as u64) * 4;
    let start: u64 = if header > 20 { header } else { 20 };
    let total = read_be16(p, 16);
    let length: u64 = if total >= header { total - header } else { 0 };
    let ghost ip = ethernet_payload(p@);
    proof {
        assert(ip[0] == p@[14]);
        assert(ip[2] == p@[16] && ip[3] == p@[17]);
        assert(ipv4_header_bytes(ip) == header);
        assert(ipv4_payload_start(ip) == start);
    }
    if ip_len <= start {
        proof {
            assert(p@.subrange(len as int, len as int) =~= transport(p@));
        }
        (len, len)
    } else {
        let end: u64 = if start + length < ip_len { start + length } else { ip_len };
        proof {
            assert(ipv4_payload_end(ip) == end);
            assert(p@.subrange(14 + start, 14 + end) =~= ip.subrange(start as int, end as int));
        }
        (14 + start as usize, 14 + end as usize)
    }
}

/// The address lines of a frame and the line break after them.
fn addresses_prefix(p: &[u8]) -> (s: String)
    requires
        is_ipv4_frame(p@),
    ensures
        s@ == addresses_text(p@) + "\n"@,
{
    let mut s = String::from_str("Ethernet: ");
    push_mac(&mut s, p, 6);
    s.append(" -> ");
    push_mac(&mut s, p, 0);
    s.append("\nIP: ");
    push_ipv4(&mut s, p, 26);
    s.append(" -> ");
    push_ipv4(&mut s, p, 30);
    s.append("\n");
    proof {
        lemma_ipv4_text_in_frame(p@, 26);
        lemma_ipv4_text_in_frame(p@, 30);
    }
    s
}

/// Appends the length line of a frame.
fn push_length(s: &mut String, len: usize)
    ensures
        final(s)@ == old(s)@ + "\nLength: "@ + decimal(len as nat) + " bytes"@,
{
    s.append("\nLength: ");
    push_decimal(s, len as u64);
    s.append(" bytes");
}

/// The ICMP line of an IPv4 frame whose transport bytes lie at `lo..hi`.
fn control_message_line(packet: &[u8], lo: usize, hi: usize) -> (line: String)
    requires
        is_ipv4_frame(packet@),
        lo <= hi <= packet@.len(),
        packet@.subrange(lo as int, hi as int) == transport(packet@),
    ensures
        line@ == control_message_text(packet@),
{
    if hi - lo >= 4 {
        let mut s = String::from_str("ICMP: Type ");
        push_decimal(&mut s, packet[lo] as u64);
        s.append(" Code ");
        push_decimal(&mut s, packet[lo + 1] as u64);
        s
    } else {
        String::from_str("ICMP: [Parse Error]")
    }
}

/// Describes an IPv4 frame read as ICMP.
fn format_icmp_packet(packet: &[u8]) -> (info: String)
    requires
        is_ipv4_frame(packet@),
    ensures
        info@ == frame_text(packet@, control_message_text(packet@)),
{
    let (lo, hi) = transport_bounds(packet);
    let mut s = addresses_prefix(packet);
    let line = control_message_line(packet, lo, hi);
    s.append(line.as_str());
    push_length(&mut s, packet.len());
    s
}

/// Appends `a.b.c.d:port` for the source or destination of a frame, the
/// address read at `at` and the port at `port_at`.
fn push_endpoint(s: &mut String, p: &[u8], at: usize, port_at: usize)
    requires
        at + 4 <= p@.len(),
        port_at + 2 <= p@.len(),
    ensures
        final(s)@ == old(s)@ + ipv4_text(p@, at as int) + ":"@ + decimal(be16(p@, port_at as int)),
{
    push_ipv4(s, p, at);
    s.append(":");
    let port = read_be16(p, port_at);
    push_decimal(s, port);
}

/// The TCP line of an IPv4 frame whose transport bytes lie at `lo..hi`.
fn tcp_line(packet: &[u8], lo: usize, hi: usize) -> (line: String)
    requires
        is_ipv4_frame(packet@),
        14 <= lo <= hi <= packet@.len(),
        packet@.subrange(lo as int, hi as int) == transport(packet@),
    ensures
        line@ == tcp_text(packet@),
{
    if hi - lo >= 20 {
        let ghost t = transport(packet@);
        let mut s = String::from_str("TCP: ");
        push_endpoint(&mut s, packet, 26, lo);
        s.append(" -> ");
        push_endpoint(&mut s, packet, 30, lo + 2);
        s.append(" (flags: 0x");
        push_hex2(&mut s, packet[lo + 13]);
        s.append(")");
        proof {
            lemma_ipv4_text_in_frame(packet@, 26);
            lemma_ipv4_text_in_frame(packet@, 30);
            assert(t[0] == packet@[lo as int] && t[1] == packet@[lo + 1]);
            assert(t[2] == packet@[lo + 2] && t[3] == packet@[lo + 3]);
            assert(t[13] == packet@[lo + 13]);
        }
        s
    } else {
        String::from_str("TCP: [Parse Error]")
    }
}

/// The UDP line of an IPv4 frame whose transport bytes lie at `lo..hi`.
fn udp_line(packet: &[u8], lo: usize, hi: usize) -> (line: String)
    requires
        is_ipv4_frame(packet@),
        14 <= lo <= hi <= packet@.len(),
        packet@.subrange(lo as int, hi as int) == transport(packet@),
    ensures
        line@ == udp_text(packet@),
{
    if hi - lo >= 8 {
        let ghost t = transport(packet@);
        let mut s = String::from_str("UDP: ");
        push_endpoint(&mut s, packet, 26, lo);
        s.append(" -> ");
        push_endpoint(&mut s, packet, 30, lo + 2);
        proof {
            lemma_ipv4_text_in_frame(packet@, 26);
            lemma_ipv4_text_in_frame(packet@, 30);
            assert(t[0] == packet@[lo as int] && t[1] == packet@[lo + 1]);
            assert(t[2] == packet@[lo + 2] && t[3] == packet@[lo + 3]);
        }
        s
    } else {
        String::from_str("UDP: [Parse Error]")
    }
}

/// Describes an IPv4 frame read as TCP.
fn format_tcp_packet(packet: &[u8]) -> (info: String)
    requires
        is_ipv4_frame(packet@),
    ensures
        info@ == frame_text(packet@, tcp_text(packet@)),
{
    let (lo, hi) = transport_bounds(packet);
    let mut s = addresses_prefix(packet);
    let line = tcp_line(packet, lo, hi);
    s.append(line.as_str());
    push_length(&mut s, packet.len());
    s
}

/// Describes an IPv4 frame read as UDP.
fn format_udp_packet(packet: &[u8]) -> (info: String)
    requires
        is_ipv4_frame(packet@),
    ensures
        info@ == frame_text(packet@, udp_text(packet@)),
{
    let (lo, hi) = transport_bounds(packet);
    let mut s = addresses_prefix(packet);
    let line = udp_line(packet, lo, hi);
    s.append(line.as_str());
    push_length(&mut s, packet.len());
    s
}

/// Describes an IPv4 frame of another protocol.
fn format_other_packet(packet: &[u8]) -> (info: String)
    requires
        is_ipv4_frame(packet@),
    ensures
        info@ == frame_text(packet@, other_protocol_text(packet@)),
{
    let mut s = addresses_prefix(packet);
    s.append("Protocol: IpNextHeaderProtocol(");
    push_decimal(&mut s, packet[23] as u64);
    s.append(")");
    push_length(&mut s, packet.len());
    proof {
        assert(ip_protocol(packet@) == packet@[23]);
    }
    s
}

/// The remembered devices as a map from key to description.
pub open spec fn text_map(t: Table<String>) -> Map<Seq<char>, Seq<char>> {
    t.as_map().map_values(|s: String| s@)
}

/// The remembered devices after recording what a frame shows.
pub open spec fn record_observation(devices: Map<Seq<char>, Seq<char>>, p: Seq<u8>) -> Map<Seq<char>, Seq<char>> {
    match device_observation(p) {
        Some((key, info)) => devices.insert(key, info),
        None => devices,
    }
}

/// Looks at one frame: records the device it shows in `current_devices`,
/// and reports it as `packet_report` does against the devices of the
/// previous batch.
pub fn process_single_packet(
    packet: &[u8],
    current_devices: &mut Table<String>,
    previous_devices: &Table<String>,
) -> (report: Option<String>)
    requires
        old(current_devices).wf(),
        previous_devices.wf(),
    ensures
        final(current_devices).wf(),
        text_map(*final(current_devices)) == record_observation(text_map(*old(current_devices)), packet@),
        match report {
            Some(r) => packet_report(packet@, previous_devices.as_map().dom()) == Some(r@),
            None => packet_report(packet@, previous_devices.as_map().dom()) is None,
        },
{
    let len = packet.len();
    if len < 14 {
        return None;
    }
    let ethertype = read_be16(packet, 12);
    if ethertype != ETHERTYPE_IPV4 {
        let mut s = String::from_str("NON-IPv4 PACKET | Eth: ");
        push_mac(&mut s, packet, 6);
        s.append(" -> ");
        push_mac(&mut s, packet, 0);
        s.append(" | Type: EtherType(");
        push_decimal(&mut s, ethertype);
        s.append(") | Length: ");
        push_decimal_usize(&mut s, len);
        return Some(s);
    }
    if len - 14 < 20 {
        return None;
    }
    let mut key = String::from_str("Device: ");
    push_mac(&mut key, packet, 6);
    let protocol = packet[23];
    proof {
        assert(ip_protocol(packet@) == protocol);
    }
    let info = if protocol == PROTOCOL_ICMP {
        format_icmp_packet(packet)
    } else if protocol == PROTOCOL_TCP {
        format_tcp_packet(packet)
    } else if protocol == PROTOCOL_UDP {
        format_udp_packet(packet)
    } else {
        format_other_packet(packet)
    };
    let name = if protocol == PROTOCOL_ICMP {
        "ICMP"
    } else if protocol == PROTOCOL_TCP {
        "TCP"
    } else if protocol == PROTOCOL_UDP {
        "UDP"
    } else {
        "UNKNOWN"
    };
    let ghost old_map = current_devices.as_map();
    let ghost (k, v) = (key@, info@);
    current_devices.insert(key.clone(), info.clone());
    proof {
        assert(text_map(*current_devices) =~= text_map(*old(current_devices)).insert(k, v));
    }
    if !previous_devices.contains_key(&key) {
        let mut s = String::from_str("NEW DEVICE DETECTED OVER ");
        s.append(name);
        s.append("-PACKET | ");
        s.append(info.as_str());
        Some(s)
    } else {
        None
    }
}

/// The frames of a batch: at most `batch_size` of the captured ones.
pub open spec fn batch_frames(packets: Seq<Vec<u8>>, batch_size: usize) -> Seq<Seq<u8>> {
    let n = if batch_size < packets.len() { batch_size as int } else { packets.len() as int };
    packets.take(n).map_values(|v: Vec<u8>| v@)
}

/// The reports of a batch's frames, in order.
pub open spec fn batch_reports(frames: Seq<Seq<u8>>, known: Set<Seq<char>>) -> Seq<Seq<char>>
    decreases frames.len(),
{
    if frames.len() == 0 {
        Seq::empty()
    } else {
        let rest = batch_reports(frames.drop_last(), known);
        match packet_report(frames.last(), known) {
            Some(r) => rest.push(r),
            None => rest,
        }
    }
}

/// The devices shown by a batch's frames, a later frame of a device
/// replacing an earlier one's description.
pub open spec fn devices_after(frames: Seq<Seq<u8>>) -> Map<Seq<char>, Seq<char>>
    decreases frames.len(),
{
    if frames.len() == 0 {
        Map::empty()
    } else {
        record_observation(devices_after(frames.drop_last()), frames.last())
    }
}

/// The reports of the devices of the previous batch, in the order they were
/// remembered, that the new batch did not show.
pub open spec fn left_device_reports(keys: Seq<Seq<char>>, infos: Seq<Seq<char>>, current: Set<Seq<char>>) -> Seq<Seq<char>>
    decreases keys.len(),
{
    if keys.len() == 0 || infos.len() == 0 {
        Seq::empty()
    } else {
        let rest = left_device_reports(keys.drop_last(), infos.drop_last(), current);
        if current.contains(keys.last()) {
            rest
        } else {
            rest.push("DEVICE LEFT THE NETWORK | "@ + infos.last())
        }
    }
}

/// Looks at up to `batch_size` captured frames: reports each as
/// `process_single_packet` does, then the devices of the previous batch that
/// this one did not show, and remembers this batch's devices in their place.
pub fn process_packet_batch(
    packets: &Vec<Vec<u8>>,
    previous_devices: &mut Table<String>,
    batch_size: usize,
) -> (logs: Vec<String>)
    requires
        old(previous_devices).wf(),
    ensures
        final(previous_devices).wf(),
        text_map(*final(previous_devices)) == devices_after(batch_frames(packets@, batch_size)),
        texts(logs@) == batch_reports(batch_frames(packets@, batch_size), old(previous_devices).as_map().dom())
            + left_device_reports(
                old(previous_devices).key_seq(),
                texts(old(previous_devices).value_seq()),
                devices_after(batch_frames(packets@, batch_size)).dom(),
            ),
{
    let mut logs: Vec<String> = Vec::new();
    let mut current: Table<String> = Table::new();
    let n: usize = if batch_size < packets.len() { batch_size } else { packets.len() };
    let ghost frames = batch_frames(packets@, batch_size);
    let ghost known = previous_devices.as_map().dom();
    let mut i: usize = 0;
    proof {
        assert(frames.take(0) =~= Seq::<Seq<u8>>::empty());
        assert(text_map(current) =~= Map::<Seq<char>, Seq<char>>::empty());
        assert(texts(logs@) =~= Seq::<Seq<char>>::empty());
    }
    while i < n
        invariant
            n == frames.len(),
            n <= packets@.len(),
            frames == batch_frames(packets@, batch_size),
            known == previous_devices.as_map().dom(),
            previous_devices.wf(),
            current.wf(),
            0 <= i <= n,
            text_map(current) == devices_after(frames.take(i as int)),
            texts(logs@) == batch_reports(frames.take(i as int), known),
        decreases n - i,
    {
        let ghost before = texts(logs@);
        let frame = packets[i].as_slice();
        let report = process_single_packet(frame, &mut current, previous_devices);
        proof {
            assert(frames[i as int] == frame@);
            assert(frames.take(i + 1).drop_last() =~= frames.take(i as int));
            assert(frames.take(i + 1).last() == frame@);
        }
        match report {
            Some(r) => {
                logs.push(r);
                proof {
                    assert(texts(logs@) =~= before.push(r@));
                }
            },
            None => {},
        }
        i = i + 1;
    }
    proof {
        assert(frames.take(n as int) =~= frames);
    }
    let ghost reports = texts(logs@);
    let ghost keys = previous_devices.key_seq();
    let ghost infos = texts(previous_devices.value_seq());
    let ghost current_keys = devices_after(frames).dom();
    let count = previous_devices.len();
    let mut j: usize = 0;
    proof {
        assert(keys.take(0) =~= Seq::<Seq<char>>::empty());
        assert(reports + Seq::<Seq<char>>::empty() =~= reports);
    }
    while j < count
        invariant
            count == keys.len(),
            keys == previous_devices.key_seq(),
            infos == texts(previous_devices.value_seq()),
            previous_devices.wf(),
            current.wf(),
            current_keys == current.as_map().dom(),
            0 <= j <= count,
            texts(logs@) == reports + left_device_reports(keys.take(j as int), infos.take(j as int), current_keys),
        decreases count - j,
    {
        let ghost before = texts(logs@);
        let (key, info) = previous_devices.entry(j);
        let seen = current.contains_key(key);
        if !seen {
            let mut s = String::from_str("DEVICE LEFT THE NETWORK | ");
            s.append(info.as_str());
            logs.push(s);
            proof {
                assert(texts(logs@) =~= before.push(s@));
            }
        }
        proof {
            assert(keys.take(j + 1).drop_last() =~= keys.take(j as int));
            assert(infos.take(j + 1).drop_last() =~= infos.take(j as int));
            assert(keys.take(j + 1).last() == key@);
            assert(infos.take(j + 1).last() == info@);
            let left = left_device_reports(keys.take(j as int), infos.take(j as int), current_keys);
            if !seen {
                assert(reports + left.push("DEVICE LEFT THE NETWORK | "@ + info@) =~= (reports + left).push(
                    "DEVICE LEFT THE NETWORK | "@ + info@,
                ));
            }
        }
        j = j + 1;
    }
    proof {
        assert(keys.take(count as int) =~= keys);
        assert(infos.take(count as int) =~= infos);
    }
    *previous_devices = current;
    logs
}

/// A device that is already known is not reported again: a frame whose
/// sender is known yields no report.
pub proof fn lemma_known_device_not_reported(p: Seq<u8>, known: Set<Seq<char>>)
    requires
        is_ipv4_frame(p),
        known.contains(device_key(p)),
    ensures
        packet_report(p, known) is None,
{
}

/// Every device shown by a frame of a batch is remembered after the batch.
pub proof fn lemma_batch_devices_remembered(frames: Seq<Seq<u8>>, i: int)
    requires
        0 <= i < frames.len(),
        is_ipv4_frame(frames[i]),
    ensures
        devices_after(frames).contains_key(device_key(frames[i])),
    decreases frames.len(),
{
    let rest = frames.drop_last();
    if i < frames.len() - 1 {
        assert(rest[i] == frames[i]);
        lemma_batch_devices_remembered(rest, i);
    }
}

/// When every IPv4 frame of a batch comes from a known device, the only
/// reports are those of frames that carry no IPv4.
pub proof fn lemma_known_batch_reports_only_non_ipv4(frames: Seq<Seq<u8>>, known: Set<Seq<char>>)
    requires
        forall|i: int| 0 <= i < frames.len() && is_ipv4_frame(#[trigger] frames[i]) ==> known.contains(device_key(frames[i])),
    ensures
        forall|j: int| 0 <= j < batch_reports(frames, known).len() ==>
            exists|i: int| 0 <= i < frames.len() && !is_ipv4_frame(frames[i])
                && #[trigger] batch_reports(frames, known)[j] == non_ipv4_text(frames[i]),
    decreases frames.len(),
{
    if frames.len() > 0 {
        let rest = frames.drop_last();
        assert forall|i: int| 0 <= i < rest.len() && is_ipv4_frame(#[trigger] rest[i]) implies
            known.contains(device_key(rest[i])) by {
            assert(frames[i] == rest[i]);
        }
        lemma_known_batch_reports_only_non_ipv4(rest, known);
        let r = batch_reports(frames, known);
        let rr = batch_reports(rest, known);
        let last = frames.last();
        assert(is_ipv4_frame(frames[frames.len() - 1]) ==> known.contains(device_key(last)));
        assert forall|j: int| 0 <= j < r.len() implies
            exists|i: int| 0 <= i < frames.len() && !is_ipv4_frame(frames[i])
                && #[trigger] r[j] == non_ipv4_text(frames[i]) by {
            if j < rr.len() {
                assert(r[j] == rr[j]);
                let i = choose|i: int| 0 <= i < rest.len() && !is_ipv4_frame(rest[i])
                    && #[trigger] rr[j] == non_ipv4_text(rest[i]);
                assert(frames[i] == rest[i]);
            } else {
                assert(r[j] == non_ipv4_text(last));
                assert(frames[frames.len() - 1] == last);
            }
        }
    }
}

/// Processing the same frames twice reports no new device the second time:
/// each report of the second pass is about a frame that carries no IPv4.
pub proof fn lemma_rescan_reports_no_new_device(frames: Seq<Seq<u8>>)
    ensures
        forall|j: int| 0 <= j < batch_reports(frames, devices_after(frames).dom()).len() ==>
            exists|i: int| 0 <= i < frames.len() && !is_ipv4_frame(frames[i])
                && #[trigger] batch_reports(frames, devices_after(frames).dom())[j] == non_ipv4_text(frames[i]),
{
    let known = devices_after(frames).dom();
    assert forall|i: int| 0 <= i < frames.len() && is_ipv4_frame(#[trigger] frames[i]) implies
        known.contains(device_key(frames[i])) by {
        lemma_batch_devices_remembered(frames, i);
    }
    lemma_known_batch_reports_only_non_ipv4(frames, known);
}

/// A device is reported as having left only if the new batch did not show
/// it: when every remembered device is shown again, nothing is reported.
pub proof fn lemma_no_device_left_when_all_seen(keys: Seq<Seq<char>>, infos: Seq<Seq<char>>, current: Set<Seq<char>>)
    requires
        forall|i: int| 0 <= i < keys.len() ==> current.contains(#[trigger] keys[i]),
    ensures
        left_device_reports(keys, infos, current) == Seq::<Seq<char>>::empty(),
    decreases keys.len(),
{
    if keys.len() > 0 && infos.len() > 0 {
        let ks = keys.drop_last();
        assert forall|i: int| 0 <= i < ks.len() implies current.contains(#[trigger] ks[i]) by {
            assert(keys[i] == ks[i]);
        }
        lemma_no_device_left_when_all_seen(ks, infos.drop_last(), current);
        assert(current.contains(keys[keys.len() - 1]));
    }
}

/// The departure reports of a batch are exactly the remembered devices that
/// the new batch did not show: one report per such device, carrying its
/// remembered description, in the order the devices were remembered, and
/// none for a device the batch shows again. So there are as many reports as
/// remembered keys missing from the batch.
pub proof fn lemma_left_reports_are_the_missing_devices(
    keys: Seq<Seq<char>>,
    infos: Seq<Seq<char>>,
    current: Set<Seq<char>>,
)
    requires
        keys.len() == infos.len(),
    ensures
        left_device_reports(keys, infos, current) == Seq::new(keys.len(), |i: int| (keys[i], infos[i])).filter_map(
            |e: (Seq<char>, Seq<char>)|
                if current.contains(e.0) { None } else { Some("DEVICE LEFT THE NETWORK | "@ + e.1) },
        ),
        left_device_reports(keys, infos, current).len() == keys.filter(|k: Seq<char>| !current.contains(k)).len(),
    decreases keys.len(),
{
    let pairs = Seq::new(keys.len(), |i: int| (keys[i], infos[i]));
    if keys.len() > 0 {
        let (ks, is) = (keys.drop_last(), infos.drop_last());
        lemma_left_reports_are_the_missing_devices(ks, is, current);
        assert(pairs.drop_last() =~= Seq::new(ks.len(), |i: int| (ks[i], is[i])));
        assert(pairs.last() == (keys.last(), infos.last()));
        let missing = |k: Seq<char>| !current.contains(k);
        reveal(Seq::filter);
        assert(keys.filter(missing).len() == ks.filter(missing).len() + (if missing(keys.last()) { 1int } else { 0int }));
    } else {
        assert(pairs =~= Seq::<(Seq<char>, Seq<char>)>::empty());
        reveal(Seq::filter);
    }
}

/// The TCP line shows the TCP header's flags byte itself: it ends with two
/// lower-case hexadecimal digits and a closing parenthesis, and those digits
/// read as a number give the flags byte (transport byte 13), whatever its
/// value.
pub proof fn lemma_tcp_line_shows_flags_byte(p: Seq<u8>)
    requires
        transport(p).len() >= 20,
    ensures
        ({
            let s = tcp_text(p);
            &&& s.len() >= 3
            &&& s[s.len() - 1] == ')'
            &&& ('0' <= s[s.len() - 3] <= '9' || 'a' <= s[s.len() - 3] <= 'f')
            &&& ('0' <= s[s.len() - 2] <= '9' || 'a' <= s[s.len() - 2] <= 'f')
            &&& hex_digit_value(s[s.len() - 3]) * 16 + hex_digit_value(s[s.len() - 2]) == transport(p)[13]
        }),
{
    let t = transport(p);
    let b = t[13];
    let s = tcp_text(p);
    reveal_strlit(")");
    let head = "TCP: "@ + ipv4_text(ethernet_payload(p), 12) + ":"@ + decimal(be16(t, 0)) + " -> "@
        + ipv4_text(ethernet_payload(p), 16) + ":"@ + decimal(be16(t, 2)) + " (flags: 0x"@;
    assert(s =~= head + hex2(b) + ")"@);
    assert(s[s.len() - 3] == digit_char((b / 16) as nat));
    assert(s[s.len() - 2] == digit_char((b % 16) as nat));
    assert(b / 16 < 16);
    assert(b % 16 < 16);
}

} // verus!
