use vmdhcp::codec::parse;
use vmdhcp::error::Error;
use vmdhcp::options::OptionTable;
use vmdhcp::records::Interface;
use vmdhcp::resolver::{parse_ipv4, resolve};
use vmdhcp::responder::{classify, respond, RequestState, ServerConfig};

fn request_with_options(option_bytes: &[u8]) -> Vec<u8> {
    let mut buf = vec![0u8; 236];
    buf[0] = 1;
    buf[1] = 1;
    buf[2] = 6;
    buf[4..8].copy_from_slice(&[0xca, 0xfe, 0xba, 0xbe]);
    buf[28..34].copy_from_slice(&[0x52, 0x54, 0x00, 0x01, 0x02, 0x03]);
    buf.extend_from_slice(&[0x63, 0x82, 0x53, 0x63]);
    buf.extend_from_slice(option_bytes);
    buf
}

fn known_interface() -> Interface {
    Interface {
        network: "net1".to_string(),
        ip: "10.0.0.5".to_string(),
        mac: "52:54:00:01:02:03".to_string(),
    }
}

#[test]
fn discover_for_known_mac_yields_offer() {
    let buf = request_with_options(&[53, 1, 1, 255]);
    let req = parse(&buf).unwrap();
    let iface = known_interface();
    let cfg = ServerConfig::default();
    let bytes = respond(&req, Some(&iface), &cfg).unwrap();
    let reply = parse(&bytes).unwrap();
    assert_eq!(reply.op, 2);
    assert_eq!(reply.yiaddr, vec![10, 0, 0, 5]);
    assert_eq!(reply.siaddr, vec![192, 168, 1, 253]);
    // Message type, mask, router and lease time in that relative order,
    // terminated by an END byte on the wire.
    assert_eq!(reply.options.len(), 4);
    assert_eq!(reply.options.position(53), Some(0));
    assert_eq!(reply.options.position(1), Some(1));
    assert_eq!(reply.options.position(3), Some(2));
    assert_eq!(reply.options.position(51), Some(3));
    assert_eq!(*bytes.last().unwrap(), 255);
    assert_eq!(reply.options.get(53).unwrap(), &vec![2u8]);
    assert_eq!(reply.options.get(1).unwrap(), &vec![255u8, 255, 255, 0]);
    assert_eq!(reply.options.get(3).unwrap(), &vec![192u8, 168, 1, 254]);
    // 86400 seconds, big-endian.
    assert_eq!(reply.options.get(51).unwrap(), &vec![0x00u8, 0x01, 0x51, 0x80]);
}

#[test]
fn unknown_mac_yields_nothing() {
    let buf = request_with_options(&[53, 1, 1, 255]);
    let req = parse(&buf).unwrap();
    let cfg = ServerConfig::default();
    assert!(respond(&req, None, &cfg).is_none());
}

#[test]
fn malformed_stored_ip_yields_nothing() {
    let buf = request_with_options(&[53, 1, 1, 255]);
    let req = parse(&buf).unwrap();
    let mut iface = known_interface();
    iface.ip = "10.0.0".to_string();
    let cfg = ServerConfig::default();
    assert!(respond(&req, Some(&iface), &cfg).is_none());
}

#[test]
fn request_for_known_mac_yields_ack() {
    let discover = request_with_options(&[53, 1, 1, 255]);
    let request = request_with_options(&[53, 1, 3, 255]);
    let iface = known_interface();
    let cfg = ServerConfig::default();
    let offer = parse(&respond(&parse(&discover).unwrap(), Some(&iface), &cfg).unwrap()).unwrap();
    let ack = parse(&respond(&parse(&request).unwrap(), Some(&iface), &cfg).unwrap()).unwrap();
    assert_eq!(ack.options.get(53).unwrap(), &vec![5u8]);
    // Identical address fields as the OFFER.
    assert_eq!(ack.yiaddr, offer.yiaddr);
    assert_eq!(ack.siaddr, offer.siaddr);
    assert_eq!(ack.ciaddr, offer.ciaddr);
    assert_eq!(ack.giaddr, offer.giaddr);
}

#[test]
fn reply_echoes_xid_and_chaddr() {
    let buf = request_with_options(&[53, 1, 1, 255]);
    let req = parse(&buf).unwrap();
    let iface = known_interface();
    let cfg = ServerConfig::default();
    let reply = parse(&respond(&req, Some(&iface), &cfg).unwrap()).unwrap();
    assert_eq!(reply.xid, req.xid);
    assert_eq!(reply.chaddr, req.chaddr);
}

#[test]
fn missing_message_type_is_dropped() {
    // No option 53 at all: dropped even for a known client.
    let buf = request_with_options(&[60, 1, 7, 255]);
    let req = parse(&buf).unwrap();
    let iface = known_interface();
    let cfg = ServerConfig::default();
    assert!(respond(&req, Some(&iface), &cfg).is_none());
    assert_eq!(classify(&req), RequestState::Unsupported);
}

#[test]
fn unsupported_message_type_is_dropped() {
    // Message type 8 (INFORM) is not served.
    let buf = request_with_options(&[53, 1, 8, 255]);
    let req = parse(&buf).unwrap();
    let iface = known_interface();
    let cfg = ServerConfig::default();
    assert!(respond(&req, Some(&iface), &cfg).is_none());
    // An empty message-type option is equally unsupported.
    let buf = request_with_options(&[53, 0, 255]);
    let req = parse(&buf).unwrap();
    assert_eq!(classify(&req), RequestState::Unsupported);
}

#[test]
fn classify_selects_state_by_message_type() {
    let discover = parse(&request_with_options(&[53, 1, 1, 255])).unwrap();
    let request = parse(&request_with_options(&[53, 1, 3, 255])).unwrap();
    assert_eq!(classify(&discover), RequestState::Discover);
    assert_eq!(classify(&request), RequestState::Request);
}

#[test]
fn parse_ipv4_accepts_dotted_quads() {
    assert_eq!(parse_ipv4("10.0.0.5"), Some(vec![10, 0, 0, 5]));
    assert_eq!(parse_ipv4("255.255.255.255"), Some(vec![255, 255, 255, 255]));
    assert_eq!(parse_ipv4("0.0.0.0"), Some(vec![0, 0, 0, 0]));
    assert_eq!(parse_ipv4("192.168.1.254"), Some(vec![192, 168, 1, 254]));
}

#[test]
fn parse_ipv4_rejects_malformed_strings() {
    assert_eq!(parse_ipv4(""), None);
    assert_eq!(parse_ipv4("10.0.0"), None);
    assert_eq!(parse_ipv4("10.0.0.5.6"), None);
    assert_eq!(parse_ipv4("256.0.0.1"), None);
    assert_eq!(parse_ipv4("1234.0.0.1"), None);
    assert_eq!(parse_ipv4("a.b.c.d"), None);
    assert_eq!(parse_ipv4("10..0.5"), None);
    assert_eq!(parse_ipv4("10.0.0.5 "), None);
}

#[test]
fn resolve_builds_lease_from_record() {
    let iface = known_interface();
    let lease = resolve(Some(&iface)).unwrap();
    assert_eq!(lease.ip, vec![10, 0, 0, 5]);
    assert_eq!(lease.network, "net1");
    assert!(resolve(None).is_none());
    let mut bad = known_interface();
    bad.ip = "10.0.0.999".to_string();
    assert!(resolve(Some(&bad)).is_none());
}

#[test]
fn option_table_setters_replace_in_place() {
    let mut t = OptionTable::new();
    t.set_u8(53, 1);
    t.set_ipv4(1, 255, 255, 255, 0);
    assert_eq!(t.len(), 2);
    // Setting an existing code keeps its position and replaces its data.
    t.set_u8(53, 3);
    assert_eq!(t.len(), 2);
    assert_eq!(t.position(53), Some(0));
    assert_eq!(t.get(53).unwrap(), &vec![3u8]);
    // Append keeps insertion order and allows the END marker.
    assert!(!t.contains_end());
    t.append(255, Vec::new());
    assert!(t.contains_end());
    assert_eq!(t.position(255), Some(2));
}

#[test]
fn option_table_u32_setter_is_big_endian() {
    let mut t = OptionTable::new();
    assert!(t.set_u32_be(51, 86400).is_ok());
    assert_eq!(t.get(51).unwrap(), &vec![0x00u8, 0x01, 0x51, 0x80]);
    assert!(t.set_u32_be(51, 0xdeadbeef).is_ok());
    assert_eq!(t.get(51).unwrap(), &vec![0xdeu8, 0xad, 0xbe, 0xef]);
}

#[test]
fn error_carries_message_as_json() {
    let e = Error::new("boom");
    assert_eq!(e.message(), "boom");
    assert_eq!(e.description_json(), "{\"error\": \"boom\"}");
}
