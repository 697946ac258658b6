use netprobe::arp::{prepare_request, reply_sender, request_frame};
use netprobe::dhcp::{discover_packet, prepare_discover, read_offer, write_options};
use netprobe::error::NetprobeError;
use netprobe::util::{Iface, IpAddr, IpNet};

const MAC: [u8; 6] = [0x02, 0x11, 0x22, 0x33, 0x44, 0x55];

fn lan(mac: Option<[u8; 6]>) -> Vec<Iface<()>> {
    vec![Iface {
        name: "eth0".to_string(),
        mac,
        ips: vec![IpNet::new(IpAddr::V4([192, 168, 1, 10]), 24).unwrap()],
        link: (),
    }]
}

fn arp_request_bytes() -> Vec<u8> {
    let mut f = vec![0xff; 6];
    f.extend_from_slice(&MAC);
    f.extend_from_slice(&[0x08, 0x06, 0x00, 0x01, 0x08, 0x00, 6, 4, 0x00, 0x01]);
    f.extend_from_slice(&MAC);
    f.extend_from_slice(&[192, 168, 1, 10]);
    f.extend_from_slice(&[0; 6]);
    f.extend_from_slice(&[192, 168, 1, 1]);
    f
}

#[test]
fn arp_request_frame_layout() {
    let f = request_frame(MAC, [192, 168, 1, 10], [192, 168, 1, 1]);
    assert_eq!(f.len(), 42);
    assert_eq!(f, arp_request_bytes());
}

#[test]
fn arp_reply_sender_reads_sender_hw_addr() {
    let mut reply = vec![0u8; 42];
    reply[12] = 0x08;
    reply[13] = 0x06;
    reply[22..28].copy_from_slice(&[0xaa, 0xbb, 0xcc, 0xdd, 0xee, 0xff]);
    assert_eq!(reply_sender(&reply).unwrap(), [0xaa, 0xbb, 0xcc, 0xdd, 0xee, 0xff]);
    reply.extend_from_slice(&[9; 18]);
    assert_eq!(reply_sender(&reply).unwrap(), [0xaa, 0xbb, 0xcc, 0xdd, 0xee, 0xff]);
}

#[test]
fn arp_reply_too_short_for_ethernet() {
    assert!(matches!(reply_sender(&[0u8; 13]), Err(NetprobeError::Packet("ethernet", "read"))));
    assert!(matches!(reply_sender(&[]), Err(NetprobeError::Packet("ethernet", "read"))));
}

#[test]
fn arp_reply_too_short_for_arp() {
    assert!(matches!(reply_sender(&[0u8; 14]), Err(NetprobeError::Packet("arp", "read"))));
    assert!(matches!(reply_sender(&[0u8; 41]), Err(NetprobeError::Packet("arp", "read"))));
}

#[test]
fn arp_request_reads_back_its_sender() {
    let f = request_frame(MAC, [10, 0, 0, 2], [10, 0, 0, 1]);
    assert_eq!(reply_sender(&f).unwrap(), MAC);
}

#[test]
fn arp_prepare_request_cases() {
    let (iface, frame) = prepare_request(lan(Some(MAC)), [192, 168, 1, 1]).unwrap();
    assert_eq!(iface.name, "eth0");
    assert_eq!(frame, arp_request_bytes());
    assert!(matches!(
        prepare_request(lan(Some(MAC)), [10, 0, 0, 1]),
        Err(NetprobeError::Unexpected("cannot find interface connected to this ip"))
    ));
    assert!(matches!(
        prepare_request(lan(None), [192, 168, 1, 1]),
        Err(NetprobeError::Unexpected("failed to obtain mac address of interface"))
    ));
}

const OPTIONS: [u8; 12] = [99, 130, 83, 99, 53, 1, 1, 55, 1, 6, 255, 0];

#[test]
fn write_options_exact_fit() {
    let mut buf = [7u8; 12];
    assert_eq!(write_options(&mut buf).unwrap(), 12);
    assert_eq!(buf, OPTIONS);
}

#[test]
fn write_options_leaves_rest_alone() {
    let mut buf = [7u8; 20];
    assert_eq!(write_options(&mut buf).unwrap(), 12);
    assert_eq!(buf[..12], OPTIONS);
    assert_eq!(buf[12..], [7u8; 8]);
}

#[test]
fn write_options_short_buffer_fails() {
    let mut buf = [7u8; 5];
    let r = write_options(&mut buf);
    assert!(r.is_err());
    assert_eq!(r.unwrap_err().kind(), std::io::ErrorKind::WriteZero);
    assert_eq!(buf, [99, 130, 83, 99, 53]);
    let mut empty: [u8; 0] = [];
    assert!(write_options(&mut empty).is_err());
    let mut eleven = [0u8; 11];
    assert!(write_options(&mut eleven).is_err());
    assert_eq!(eleven, OPTIONS[..11]);
}

fn discover_bytes() -> Vec<u8> {
    let mut p = vec![1, 1, 6, 0, 0, 0, 0, 0x42, 0, 0, 0x80, 0];
    p.extend_from_slice(&[0; 16]);
    p.extend_from_slice(&MAC);
    p.extend_from_slice(&[0; 10 + 64 + 128]);
    p.extend_from_slice(&OPTIONS);
    p
}

#[test]
fn dhcp_discover_layout() {
    let p = discover_packet(MAC).unwrap();
    assert_eq!(p.len(), 248);
    assert_eq!(p, discover_bytes());
}

#[test]
fn dhcp_read_offer() {
    let mut msg = vec![0u8; 300];
    msg[0] = 2;
    msg[16..20].copy_from_slice(&[192, 168, 1, 77]);
    assert_eq!(read_offer(&msg).unwrap(), [192, 168, 1, 77]);
    assert_eq!(read_offer(&msg[..34]).unwrap(), [192, 168, 1, 77]);
    assert!(matches!(read_offer(&msg[..33]), Err(NetprobeError::Packet("dhcp", "create"))));
    assert!(matches!(read_offer(&[]), Err(NetprobeError::Packet("dhcp", "create"))));
}

#[test]
fn dhcp_discover_offers_nothing() {
    let p = discover_packet(MAC).unwrap();
    assert_eq!(read_offer(&p).unwrap(), [0, 0, 0, 0]);
}

#[test]
fn dhcp_prepare_discover_cases() {
    assert_eq!(prepare_discover(lan(Some(MAC)), [192, 168, 1, 1]).unwrap(), discover_bytes());
    assert!(matches!(
        prepare_discover(lan(Some(MAC)), [10, 0, 0, 1]),
        Err(NetprobeError::Unexpected("cannot find interface connected to this ip"))
    ));
    assert!(matches!(
        prepare_discover(lan(None), [192, 168, 1, 1]),
        Err(NetprobeError::Unexpected("failed to obtain mac address of interface"))
    ));
}
