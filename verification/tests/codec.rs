use vmdhcp::codec::{encode, parse, ParseError};
use vmdhcp::frame::Frame;
use vmdhcp::options::{EncodeError, OptionTable};

/// A minimal valid request buffer: fixed header, magic cookie, the given
/// option bytes (caller includes any END terminator).
fn request_bytes(xid: [u8; 4], mac: [u8; 6], option_bytes: &[u8]) -> Vec<u8> {
    let mut buf = vec![0u8; 236];
    buf[0] = 1; // BOOTREQUEST
    buf[1] = 1; // Ethernet
    buf[2] = 6;
    buf[4..8].copy_from_slice(&xid);
    buf[28..34].copy_from_slice(&mac);
    buf.extend_from_slice(&[0x63, 0x82, 0x53, 0x63]);
    buf.extend_from_slice(option_bytes);
    buf
}

#[test]
fn parse_short_buffer_is_too_short() {
    assert!(matches!(parse(&[]), Err(ParseError::TooShort)));
    assert!(matches!(parse(&[0u8; 100]), Err(ParseError::TooShort)));
    assert!(matches!(parse(&vec![0u8; 235]), Err(ParseError::TooShort)));
}

#[test]
fn parse_header_without_cookie_is_bad_cookie() {
    // 236 bytes: the header fits but no cookie follows.
    assert!(matches!(parse(&vec![0u8; 236]), Err(ParseError::BadMagicCookie)));
    // 240 zero bytes: the four at offset 236 are not the cookie.
    assert!(matches!(parse(&vec![0u8; 240]), Err(ParseError::BadMagicCookie)));
    // One wrong cookie byte.
    let mut buf = request_bytes([0; 4], [0; 6], &[255]);
    buf[238] = 0x54;
    assert!(matches!(parse(&buf), Err(ParseError::BadMagicCookie)));
}

#[test]
fn parse_cut_option_data_is_truncated() {
    // Code 53 announces 5 data bytes but only one follows.
    let buf = request_bytes([0; 4], [0; 6], &[53, 5, 1]);
    assert!(matches!(parse(&buf), Err(ParseError::TruncatedOption)));
    // Code byte with no length byte at the very end.
    let buf = request_bytes([0; 4], [0; 6], &[53]);
    assert!(matches!(parse(&buf), Err(ParseError::TruncatedOption)));
}

#[test]
fn parse_reads_fixed_fields_and_options() {
    let buf = request_bytes(
        [0xde, 0xad, 0xbe, 0xef],
        [0x52, 0x54, 0x00, 0x12, 0x34, 0x56],
        &[0, 53, 1, 1, 0, 60, 3, 9, 9, 9, 255, 42],
    );
    let f = parse(&buf).unwrap();
    assert_eq!(f.op, 1);
    assert_eq!(f.htype, 1);
    assert_eq!(f.hlen, 6);
    assert_eq!(f.xid, vec![0xde, 0xad, 0xbe, 0xef]);
    assert_eq!(f.chaddr[..6], [0x52, 0x54, 0x00, 0x12, 0x34, 0x56]);
    // PADs are skipped, the END stops the scan, the trailing byte is gone.
    assert_eq!(f.options.len(), 2);
    let msg = f.options.get(53).unwrap();
    assert_eq!(msg, &vec![1u8]);
    let other = f.options.get(60).unwrap();
    assert_eq!(other, &vec![9u8, 9, 9]);
    assert!(f.options.get(42).is_none());
}

#[test]
fn parse_without_end_stops_at_buffer_end() {
    let buf = request_bytes([0; 4], [0; 6], &[53, 1, 3]);
    let f = parse(&buf).unwrap();
    assert_eq!(f.options.len(), 1);
    assert_eq!(f.options.get(53).unwrap(), &vec![3u8]);
}

#[test]
fn encode_then_parse_round_trips() {
    let buf = request_bytes(
        [1, 2, 3, 4],
        [10, 20, 30, 40, 50, 60],
        &[53, 1, 1, 61, 2, 7, 8, 255],
    );
    let f = parse(&buf).unwrap();
    let bytes = encode(&f).unwrap();
    let g = parse(&bytes).unwrap();
    assert_eq!(f.op, g.op);
    assert_eq!(f.htype, g.htype);
    assert_eq!(f.hlen, g.hlen);
    assert_eq!(f.hops, g.hops);
    assert_eq!(f.xid, g.xid);
    assert_eq!(f.secs, g.secs);
    assert_eq!(f.flags, g.flags);
    assert_eq!(f.ciaddr, g.ciaddr);
    assert_eq!(f.yiaddr, g.yiaddr);
    assert_eq!(f.siaddr, g.siaddr);
    assert_eq!(f.giaddr, g.giaddr);
    assert_eq!(f.chaddr, g.chaddr);
    assert_eq!(f.sname, g.sname);
    assert_eq!(f.file, g.file);
    assert_eq!(f.options.len(), g.options.len());
    for i in 0..f.options.len() {
        // Private entries are not reachable here; compare through lookups.
        let code = [53u8, 61u8][i];
        assert_eq!(f.options.get(code), g.options.get(code));
    }
}

#[test]
fn encode_parse_round_trip_is_byte_identical_without_pads() {
    // A buffer with no PADs and a single trailing END encodes back to
    // exactly the bytes it was parsed from.
    let buf = request_bytes([9, 8, 7, 6], [1, 1, 1, 1, 1, 1], &[53, 1, 1, 255]);
    let f = parse(&buf).unwrap();
    let bytes = encode(&f).unwrap();
    assert_eq!(bytes, buf);
}

#[test]
fn encode_appends_missing_end() {
    let mut f = Frame::new();
    let mut t = OptionTable::new();
    t.append(53, vec![1]);
    f.options = t;
    let bytes = encode(&f).unwrap();
    assert_eq!(bytes.len(), 236 + 4 + 3 + 1);
    assert_eq!(*bytes.last().unwrap(), 255);
}

#[test]
fn encode_rejects_oversize_option() {
    let mut f = Frame::new();
    let mut t = OptionTable::new();
    t.append(43, vec![7u8; 300]);
    f.options = t;
    assert!(matches!(encode(&f), Err(EncodeError::OptionTooLarge)));
}

#[test]
fn client_mac_takes_hlen_bytes() {
    let buf = request_bytes([0; 4], [0xaa, 0xbb, 0xcc, 0xdd, 0xee, 0xff], &[255]);
    let f = parse(&buf).unwrap();
    assert_eq!(f.client_mac(), vec![0xaa, 0xbb, 0xcc, 0xdd, 0xee, 0xff]);
}
