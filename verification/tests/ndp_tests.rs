use netprobe::error::NetprobeError;
use netprobe::ndp::{
    inspect_reply, merge_by_prefix, neighbor_solicit_ipv6, neighbor_solicit_mac, parse_ndp_options, prepare_request,
    solicit_frame, target_ll_addr, NdpOption,
};
use netprobe::util::{Iface, IpAddr, IpNet};

const SRC_MAC: [u8; 6] = [0x02, 0, 0, 0, 0, 0x01];
const SRC_IP: [u8; 16] = [0xfe, 0x80, 0, 0, 0, 0, 0, 0, 0, 0, 0, 0, 0, 0, 0, 0x01];
const TRG_IP: [u8; 16] = [0xfe, 0x80, 0, 0, 0, 0, 0, 0, 0x02, 0x11, 0x22, 0xff, 0xfe, 0xab, 0xcd, 0xef];

fn reference_checksum(msg: &[u8], src: &[u8; 16], dst: &[u8; 16]) -> u16 {
    let mut sum: u32 = 0;
    for c in src.chunks(2).chain(dst.chunks(2)) {
        sum += u16::from_be_bytes([c[0], c[1]]) as u32;
    }
    sum += 58;
    sum += msg.len() as u32;
    for (i, c) in msg.chunks(2).enumerate() {
        if i == 1 {
            continue;
        }
        let hi = c[0] as u32;
        let lo = if c.len() > 1 { c[1] as u32 } else { 0 };
        sum += (hi << 8) | lo;
    }
    while sum >> 16 != 0 {
        sum = (sum >> 16) + (sum & 0xffff);
    }
    !sum as u16
}

#[test]
fn merge_by_prefix_byte_aligned() {
    let a = [0xaa; 16];
    let b = [0x55; 16];
    let r = merge_by_prefix(a, b, 104);
    assert_eq!(r[..13], [0xaa; 13]);
    assert_eq!(r[13..], [0x55; 3]);
    assert_eq!(merge_by_prefix(a, b, 0), b);
    assert_eq!(merge_by_prefix(a, b, 128), a);
}

#[test]
fn merge_by_prefix_inside_a_byte() {
    let a = [0xff; 16];
    let b = [0x00; 16];
    let r = merge_by_prefix(a, b, 12);
    assert_eq!(r[0], 0xff);
    assert_eq!(r[1], 0xf0);
    assert_eq!(r[2..], [0; 14]);
    let r = merge_by_prefix(b, a, 3);
    assert_eq!(r[0], 0x1f);
    assert_eq!(r[1..], [0xff; 15]);
}

#[test]
fn solicited_node_address() {
    let r = neighbor_solicit_ipv6(TRG_IP);
    assert_eq!(r, [0xff, 0x02, 0, 0, 0, 0, 0, 0, 0, 0, 0, 0x01, 0xff, 0xab, 0xcd, 0xef]);
}

#[test]
fn solicited_multicast_mac() {
    assert_eq!(neighbor_solicit_mac(TRG_IP), [0x33, 0x33, 0xff, 0xab, 0xcd, 0xef]);
}

#[test]
fn solicited_mac_maps_solicited_node() {
    let node = neighbor_solicit_ipv6(TRG_IP);
    let mac = neighbor_solicit_mac(TRG_IP);
    assert_eq!(mac[..2], [0x33, 0x33]);
    assert_eq!(mac[2..], node[12..]);
}

fn solicit_bytes() -> Vec<u8> {
    let dst_ip = [0xff, 0x02, 0, 0, 0, 0, 0, 0, 0, 0, 0, 0x01, 0xff, 0xab, 0xcd, 0xef];
    let mut msg = vec![135, 0, 0, 0, 0, 0, 0, 0];
    msg.extend_from_slice(&TRG_IP);
    msg.extend_from_slice(&[1, 1]);
    msg.extend_from_slice(&SRC_MAC);
    let c = reference_checksum(&msg, &SRC_IP, &dst_ip);
    msg[2] = (c >> 8) as u8;
    msg[3] = c as u8;
    let mut f = vec![0x33, 0x33, 0xff, 0xab, 0xcd, 0xef];
    f.extend_from_slice(&SRC_MAC);
    f.extend_from_slice(&[0x86, 0xdd]);
    f.extend_from_slice(&[0x60, 0x0b, 0x8d, 0x66, 0, 32, 58, 255]);
    f.extend_from_slice(&SRC_IP);
    f.extend_from_slice(&dst_ip);
    f.extend_from_slice(&msg);
    f
}

#[test]
fn solicit_frame_layout_and_checksum() {
    let f = solicit_frame(SRC_MAC, SRC_IP, TRG_IP);
    assert_eq!(f.len(), 86);
    assert_eq!(f, solicit_bytes());
    assert_ne!(u16::from_be_bytes([f[56], f[57]]), 0);
}

#[test]
fn solicit_payload_length_matches_frame() {
    let f = solicit_frame(SRC_MAC, SRC_IP, TRG_IP);
    assert_eq!(f.len(), 14 + 40 + u16::from_be_bytes([f[18], f[19]]) as usize);
}

#[test]
fn prepare_request_cases() {
    let ifaces = || {
        vec![Iface {
            name: "eth0".to_string(),
            mac: Some(SRC_MAC),
            ips: vec![IpNet::new(IpAddr::V4([10, 0, 0, 2]), 8).unwrap(), IpNet::new(IpAddr::V6(SRC_IP), 64).unwrap()],
            link: 7u8,
        }]
    };
    let (iface, mac, frame) = prepare_request(ifaces(), TRG_IP).unwrap();
    assert_eq!(iface.link, 7);
    assert_eq!(mac, SRC_MAC);
    assert_eq!(frame, solicit_bytes());
    let mut far = TRG_IP;
    far[1] = 0x81;
    assert!(matches!(
        prepare_request(ifaces(), far),
        Err(NetprobeError::Unexpected("cannot find interface connected to this ip"))
    ));
    let mut no_mac = ifaces();
    no_mac[0].mac = None;
    assert!(matches!(
        prepare_request(no_mac, TRG_IP),
        Err(NetprobeError::Unexpected("failed to obtain mac address of interface"))
    ));
}

fn view(opts: &[NdpOption]) -> Vec<(u8, u8, Vec<u8>)> {
    opts.iter().map(|o| (o.option_type, o.length, o.data.clone())).collect()
}

#[test]
fn parse_options_walks_tlvs() {
    let bytes = [2, 1, 1, 2, 3, 4, 5, 6, 1, 1, 9, 9, 9, 9, 9, 9];
    let opts = parse_ndp_options(&bytes);
    assert_eq!(view(&opts), vec![(2, 1, vec![1, 2, 3, 4, 5, 6]), (1, 1, vec![9; 6])]);
}

#[test]
fn parse_options_edge_cases() {
    assert!(parse_ndp_options(&[]).is_empty());
    assert!(parse_ndp_options(&[2]).is_empty());
    // a zero length field still moves on by the two header bytes
    let opts = parse_ndp_options(&[5, 0, 2, 1, 7, 7, 7, 7, 7, 7]);
    assert_eq!(view(&opts), vec![(5, 0, vec![]), (2, 1, vec![7; 6])]);
    // data cut short by the end of the buffer
    let opts = parse_ndp_options(&[2, 2, 1, 2, 3]);
    assert_eq!(view(&opts), vec![(2, 2, vec![1, 2, 3])]);
    // a trailing single byte holds no option
    let opts = parse_ndp_options(&[3, 1, 0, 0, 0, 0, 0, 0, 4]);
    assert_eq!(view(&opts), vec![(3, 1, vec![0; 6])]);
    // a length field of 40 claims (320 - 2) mod 256 = 62 bytes
    let mut big = vec![9u8, 40];
    big.extend_from_slice(&[1; 62]);
    big.extend_from_slice(&[2, 1, 1, 2, 3, 4, 5, 6]);
    let opts = parse_ndp_options(&big);
    assert_eq!(opts.len(), 2);
    assert_eq!(opts[0].data.len(), 62);
    assert_eq!(opts[1].option_type, 2);
}

#[test]
fn parse_options_length_wraps_in_eight_bits() {
    // a length field of 33 claims (264 - 2) mod 256 = 6 bytes
    let bytes = [9, 33, 0, 0, 0, 0, 0, 0, 2, 1, 1, 2, 3, 4, 5, 6];
    let opts = parse_ndp_options(&bytes);
    assert_eq!(view(&opts), vec![(9, 33, vec![0; 6]), (2, 1, vec![1, 2, 3, 4, 5, 6])]);
    assert_eq!(target_ll_addr(&opts).unwrap().unwrap(), [1, 2, 3, 4, 5, 6]);
    // a length field of 32 claims (256 - 2) mod 256 = 254 bytes
    let mut long = vec![9u8, 32];
    long.extend_from_slice(&[7; 254]);
    long.extend_from_slice(&[2, 1, 6, 5, 4, 3, 2, 1]);
    let opts = parse_ndp_options(&long);
    assert_eq!(opts.len(), 2);
    assert_eq!(opts[0].data.len(), 254);
    assert_eq!(opts[1].data, vec![6, 5, 4, 3, 2, 1]);
}

#[test]
fn target_ll_addr_first_option_decides() {
    let o = |t: u8, d: Vec<u8>| NdpOption { option_type: t, length: 1, data: d };
    assert_eq!(target_ll_addr(&vec![]).map(|r| r.ok()), None);
    assert!(target_ll_addr(&vec![o(1, vec![1; 6]), o(3, vec![0; 6])]).is_none());
    let r = target_ll_addr(&vec![o(1, vec![1; 6]), o(2, vec![4, 5, 6, 7, 8, 9, 10]), o(2, vec![1; 6])]);
    assert_eq!(r.unwrap().unwrap(), [4, 5, 6, 7, 8, 9]);
    let r = target_ll_addr(&vec![o(2, vec![1, 2, 3]), o(2, vec![1; 6])]);
    assert!(matches!(r, Some(Err(NetprobeError::Unexpected("TLLA is too short")))));
}

const PEER_MAC: [u8; 6] = [0x02, 0xaa, 0xbb, 0xcc, 0xdd, 0xee];

fn advert(options: &[u8]) -> Vec<u8> {
    let mut msg = vec![136, 0, 0x12, 0x34, 0x60, 0, 0, 0];
    msg.extend_from_slice(&TRG_IP);
    msg.extend_from_slice(options);
    let mut f = SRC_MAC.to_vec();
    f.extend_from_slice(&PEER_MAC);
    f.extend_from_slice(&[0x86, 0xdd, 0x60, 0, 0, 0]);
    f.extend_from_slice(&(msg.len() as u16).to_be_bytes());
    f.extend_from_slice(&[58, 255]);
    f.extend_from_slice(&TRG_IP);
    f.extend_from_slice(&SRC_IP);
    f.extend_from_slice(&msg);
    f
}

#[test]
fn inspect_reply_finds_target_address() {
    let mut opt = vec![2, 1];
    opt.extend_from_slice(&PEER_MAC);
    let f = advert(&opt);
    assert_eq!(inspect_reply(&f, SRC_MAC).unwrap().unwrap(), PEER_MAC);
}

#[test]
fn inspect_reply_skips_other_traffic() {
    let mut opt = vec![2, 1];
    opt.extend_from_slice(&PEER_MAC);
    let f = advert(&opt);
    // addressed to someone else
    assert!(inspect_reply(&f, PEER_MAC).is_none());
    // not IPv6
    let mut g = f.clone();
    g[12] = 0x08;
    g[13] = 0x00;
    assert!(inspect_reply(&g, SRC_MAC).is_none());
    // not ICMPv6
    let mut g = f.clone();
    g[20] = 17;
    assert!(inspect_reply(&g, SRC_MAC).is_none());
    // not an advertisement
    let mut g = f.clone();
    g[54] = 128;
    assert!(inspect_reply(&g, SRC_MAC).is_none());
    // an advertisement without a target address option
    assert!(inspect_reply(&advert(&[1, 1, 0, 0, 0, 0, 0, 0]), SRC_MAC).is_none());
}

#[test]
fn inspect_reply_short_layers() {
    assert!(matches!(inspect_reply(&[0u8; 13], SRC_MAC), Some(Err(NetprobeError::Packet("ethernet", "read")))));
    let mut f = SRC_MAC.to_vec();
    f.extend_from_slice(&PEER_MAC);
    f.extend_from_slice(&[0x86, 0xdd]);
    f.extend_from_slice(&[0u8; 39]);
    assert!(matches!(inspect_reply(&f, SRC_MAC), Some(Err(NetprobeError::Packet("ipv6", "read")))));
    let mut opt = vec![2, 1];
    opt.extend_from_slice(&PEER_MAC);
    let full = advert(&opt);
    // payload length says 3: too short for an ICMPv6 header
    let mut g = full.clone();
    g[18] = 0;
    g[19] = 3;
    assert!(matches!(inspect_reply(&g, SRC_MAC), Some(Err(NetprobeError::Packet("icmpv6", "read")))));
    // frame cut inside the advertisement
    let g = full[..54 + 20].to_vec();
    assert!(matches!(inspect_reply(&g, SRC_MAC), Some(Err(NetprobeError::Packet("neighbor", "read")))));
    // target option too short
    let g = advert(&[2, 1, 1, 2, 3]);
    assert!(matches!(inspect_reply(&g, SRC_MAC), Some(Err(NetprobeError::Unexpected("TLLA is too short")))));
}

#[test]
fn inspect_reply_payload_length_bounds_options() {
    let mut opt = vec![2, 1];
    opt.extend_from_slice(&PEER_MAC);
    let mut f = advert(&opt);
    // announce only the 24 bytes before the options: the option is not read
    f[18] = 0;
    f[19] = 24;
    assert!(inspect_reply(&f, SRC_MAC).is_none());
}

#[test]
fn solicitation_is_not_an_answer() {
    let f = solicit_frame(SRC_MAC, SRC_IP, TRG_IP);
    assert!(inspect_reply(&f, SRC_MAC).is_none());
    assert!(inspect_reply(&f, [0x33, 0x33, 0xff, 0xab, 0xcd, 0xef]).is_none());
}
