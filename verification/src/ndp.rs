use vstd::prelude::*;

use crate::arp::ethernet_header;
use crate::bytes::{append_be16, append_bytes, append_zeros, be16, be16_value, copy_range, read6, zeros};
use crate::error::NetprobeError;
use crate::util::{find_iface_and_ipv6, is_first_match, mask_byte, no_match, prefix_bits, prefix_bits_in, Iface, IpAddr, ETHERTYPE_IPV6};

verus! {

/// The solicited-node multicast prefix ff02::1:ff00:0/104.
pub const NEIGHBOR_SOLICIT_IPV6: [u8; 16] = [0xFF, 0x02, 0, 0, 0, 0, 0, 0, 0, 0, 0, 0x01, 0xFF, 0, 0, 0];
/// The start of the multicast hardware address that goes with it.
pub const NEIGHBOR_SOLICIT_MAC: [u8; 6] = [0x33, 0x33, 0xFF, 0, 0, 0];

/// Bit `i` of a byte string, counting from the top bit of the first byte.
pub open spec fn bit_of(s: Seq<u8>, i: int) -> u8 {
    (s[i / 8] >> ((7 - i % 8) as u8)) & 1
}

proof fn lemma_merge_byte(x: u8, y: u8, bits: u16, j: u8)
    by (bit_vector)
    requires
        bits <= 8,
        j < 8,
    ensures
        ((((x & ((!(0xffu16 >> bits)) as u8)) | (y & !((!(0xffu16 >> bits)) as u8))) >> ((7 - j) as u8)) & 1) == (if (j as u16) < bits {
            (x >> ((7 - j) as u8)) & 1
        } else {
            (y >> ((7 - j) as u8)) & 1
        }),
        bits == 8 ==> ((x & ((!(0xffu16 >> bits)) as u8)) | (y & !((!(0xffu16 >> bits)) as u8))) == x,
        bits == 0 ==> ((x & ((!(0xffu16 >> bits)) as u8)) | (y & !((!(0xffu16 >> bits)) as u8))) == y,
{
}

/// The address whose first `prefix_len` bits are those of `prefix_src` and
/// whose other bits are those of `rest_src`.
pub fn merge_by_prefix(prefix_src: [u8; 16], rest_src: [u8; 16], prefix_len: u8) -> (r: [u8; 16])
    requires
        prefix_len <= 128,
    ensures
        forall|i: int| 0 <= i < 128 ==> #[trigger] bit_of(r@, i) == (if i < prefix_len {
            bit_of(prefix_src@, i)
        } else {
            bit_of(rest_src@, i)
        }),
        forall|k: int| 0 <= k < 16 && 8 * k + 8 <= prefix_len ==> #[trigger] r@[k] == prefix_src@[k],
        forall|k: int| 0 <= k < 16 && prefix_len <= 8 * k ==> #[trigger] r@[k] == rest_src@[k],
{
    let mut r: [u8; 16] = [0u8; 16];
    let mut k: usize = 0;
    while k < 16
        invariant
            k <= 16,
            prefix_len <= 128,
            forall|q: int| 0 <= q < k ==> #[trigger] r@[q] == ((prefix_src@[q] & mask_byte(prefix_len, q)) | (rest_src@[q] & !mask_byte(prefix_len, q))),
        decreases 16 - k,
    {
        let bits = prefix_bits(prefix_len, k);
        let m: u8 = (!(0xffu16 >> bits)) as u8;
        r[k] = (prefix_src[k] & m) | (rest_src[k] & !m);
        k = k + 1;
    }
    assert forall|i: int| 0 <= i < 128 implies #[trigger] bit_of(r@, i) == (if i < prefix_len {
        bit_of(prefix_src@, i)
    } else {
        bit_of(rest_src@, i)
    }) by {
        let q = i / 8;
        let j = (i % 8) as u8;
        let bits = prefix_bits_in(prefix_len, q);
        lemma_merge_byte(prefix_src@[q], rest_src@[q], bits, j);
        assert((7 - i % 8) as u8 == (7 - j) as u8);
    }
    assert forall|q: int| 0 <= q < 16 && 8 * q + 8 <= prefix_len implies #[trigger] r@[q] == prefix_src@[q] by {
        lemma_merge_byte(prefix_src@[q], rest_src@[q], 8, 0);
    }
    assert forall|q: int| 0 <= q < 16 && prefix_len <= 8 * q implies #[trigger] r@[q] == rest_src@[q] by {
        lemma_merge_byte(prefix_src@[q], rest_src@[q], 0, 0);
    }
    r
}

/// The solicited-node multicast address of `ip`: ff02::1:ff followed by the
/// last three bytes of `ip`.
pub open spec fn solicited_node_of(ip: Seq<u8>) -> Seq<u8> {
    seq![0xffu8, 0x02u8, 0u8, 0u8, 0u8, 0u8, 0u8, 0u8, 0u8, 0u8, 0u8, 0x01u8, 0xffu8] + ip.subrange(13, 16)
}

/// The multicast hardware address that the solicitation for `ip` goes to:
/// 33:33:ff followed by the last three bytes of `ip`.
pub open spec fn solicited_mac_of(ip: Seq<u8>) -> Seq<u8> {
    seq![0x33u8, 0x33u8, 0xffu8] + ip.subrange(13, 16)
}

/// `addr` is the solicited-node multicast address of `ip`: ff02::1:ff
/// followed by the last three bytes of `ip`.
pub open spec fn is_solicited_node(addr: Seq<u8>, ip: Seq<u8>) -> bool {
    &&& addr.len() == 16
    &&& addr[0] == 0xff && addr[1] == 0x02
    &&& forall|i: int| 2 <= i < 11 ==> #[trigger] addr[i] == 0
    &&& addr[11] == 0x01 && addr[12] == 0xff
    &&& addr.subrange(13, 16) == ip.subrange(13, 16)
}

/// `mac` is the multicast hardware address of the solicited-node address of
/// `ip`: 33:33:ff followed by the last three bytes of `ip`.
pub open spec fn is_solicited_mac(mac: Seq<u8>, ip: Seq<u8>) -> bool {
    &&& mac.len() == 6
    &&& mac[0] == 0x33 && mac[1] == 0x33 && mac[2] == 0xff
    &&& mac.subrange(3, 6) == ip.subrange(13, 16)
}

/// The solicited-node multicast address of `ip`.
pub fn neighbor_solicit_ipv6(ip: [u8; 16]) -> (r: [u8; 16])
    ensures
        r@ == solicited_node_of(ip@),
        is_solicited_node(r@, ip@),
{
    let r = merge_by_prefix(NEIGHBOR_SOLICIT_IPV6, ip, 104);
    assert(r@ =~= solicited_node_of(ip@)) by {
        assert forall|k: int| 0 <= k < 16 implies r@[k] == #[trigger] solicited_node_of(ip@)[k] by {
            if k < 13 {
                assert(8 * k + 8 <= 104);
            } else {
                assert(104 <= 8 * k);
            }
        }
    }
    assert(r@.subrange(13, 16) =~= ip@.subrange(13, 16));
    r
}

/// The multicast hardware address that the solicitation for `ip` goes to.
pub fn neighbor_solicit_mac(ip: [u8; 16]) -> (r: [u8; 6])
    ensures
        r@ == solicited_mac_of(ip@),
        is_solicited_mac(r@, ip@),
{
    let mut octets: [u8; 6] = [0; 6];
    octets[0] = NEIGHBOR_SOLICIT_MAC[0];
    octets[1] = NEIGHBOR_SOLICIT_MAC[1];
    octets[2] = NEIGHBOR_SOLICIT_MAC[2];
    octets[3] = ip[13];
    octets[4] = ip[14];
    octets[5] = ip[15];
    assert(octets@ =~= solicited_mac_of(ip@));
    assert(octets@.subrange(3, 6) =~= ip@.subrange(13, 16));
    octets
}

/// The hardware address that a solicitation goes to is the IPv6 multicast
/// mapping of the address it goes to: 33:33 followed by the last four bytes
/// of the solicited-node address.
pub proof fn lemma_solicited_mac_maps_node(ip: Seq<u8>)
    requires
        ip.len() == 16,
    ensures
        solicited_mac_of(ip) == seq![0x33u8, 0x33u8] + solicited_node_of(ip).subrange(12, 16),
{
    assert(solicited_mac_of(ip) =~= seq![0x33u8, 0x33u8] + solicited_node_of(ip).subrange(12, 16));
}

/// IP protocol number of ICMPv6.
pub const IP_PROTO_ICMPV6: u8 = 58;
/// ICMPv6 type of a neighbor solicitation.
pub const ICMPV6_NEIGHBOR_SOLICIT: u8 = 135;
/// ICMPv6 type of a neighbor advertisement.
pub const ICMPV6_NEIGHBOR_ADVERT: u8 = 136;
/// NDP option type: source link-layer address.
pub const NDP_OPT_SOURCE_LL_ADDR: u8 = 1;
/// NDP option type: target link-layer address.
pub const NDP_OPT_TARGET_LL_ADDR: u8 = 2;
/// Length of an IPv6 header.
pub const IPV6_HEADER_LEN: usize = 40;
/// Length of a neighbor solicitation with one link-layer address option.
pub const SOLICIT_MESSAGE_LEN: u16 = 32;
/// Length of a neighbor advertisement up to its options.
pub const NEIGHBOR_ADVERT_MIN_LEN: usize = 24;
/// Length of the whole solicitation frame.
pub const SOLICIT_FRAME_LEN: usize = 86;

/// The ICMPv6 checksum that `pnet::packet::icmpv6::checksum` computes for the
/// ICMPv6 message `message` sent from `source` to `destination`.
pub uninterp spec fn icmpv6_checksum(message: Seq<u8>, source: Seq<u8>, destination: Seq<u8>) -> u16;

/// `pnet::packet::icmpv6::checksum` over the message `message` between the
/// IPv6 addresses `source` and `destination`. Its result depends on these
/// three alone; the contract gives it a name and claims nothing else. The
/// message must hold the four bytes of an ICMPv6 header (else pnet cannot
/// lay its packet over it), and at most 65535 bytes, below which the 32-bit
/// sums in the source cannot overflow.
#[verifier::external_body]
fn checksum_of(message: &[u8], source: [u8; 16], destination: [u8; 16]) -> (r: u16)
    requires
        4 <= message@.len() <= 65535,
    ensures
        r == icmpv6_checksum(message@, source@, destination@),
{
    match pnet::packet::icmpv6::Icmpv6Packet::new(message) {
        Some(packet) => pnet::packet::icmpv6::checksum(&packet, &source.into(), &destination.into()),
        None => 0,
    }
}

/// A neighbor solicitation for `target` with checksum `checksum`, carrying
/// one source link-layer address option (length 1, eight bytes) with `src_mac`.
pub open spec fn solicit_message_of(checksum: u16, target: Seq<u8>, src_mac: Seq<u8>) -> Seq<u8> {
    seq![ICMPV6_NEIGHBOR_SOLICIT, 0u8] + be16(checksum) + zeros(4) + target
        + seq![NDP_OPT_SOURCE_LL_ADDR, 1u8] + src_mac
}

/// Traffic class of the solicitation.
pub const SOLICIT_TRAFFIC_CLASS: u8 = 0;
/// Flow label of the solicitation.
pub const SOLICIT_FLOW_LABEL: u32 = 0xb8d66;

/// The first four bytes of an IPv6 header: version 6 in the top four bits,
/// then the eight bits of the traffic class, then the twenty bits of the
/// flow label.
pub open spec fn ipv6_first_word(traffic_class: u8, flow_label: u32) -> Seq<u8> {
    seq![
        (0x60 + traffic_class / 16) as u8,
        ((traffic_class % 16) * 16 + flow_label / 0x1_0000 % 16) as u8,
        (flow_label / 256 % 256) as u8,
        (flow_label % 256) as u8,
    ]
}

/// An IPv6 header: version 6, traffic class, flow label, payload length,
/// next header, hop limit, source and destination.
pub open spec fn ipv6_header_of(
    traffic_class: u8,
    flow_label: u32,
    payload_len: u16,
    next_header: u8,
    hop_limit: u8,
    src: Seq<u8>,
    dst: Seq<u8>,
) -> Seq<u8> {
    ipv6_first_word(traffic_class, flow_label) + be16(payload_len) + seq![next_header, hop_limit] + src + dst
}

/// The frame that asks who holds `target_ip`: sent from `src_mac`/`src_ip`
/// to the solicited-node address of the target and its multicast hardware
/// address, traffic class 0, flow label 0xb8d66, hop limit 255, with the checksum of the message as it reads with
/// a zero checksum field.
pub open spec fn solicit_frame_of(src_mac: Seq<u8>, src_ip: Seq<u8>, target_ip: Seq<u8>) -> Seq<u8> {
    let dst_ip = solicited_node_of(target_ip);
    let dst_mac = solicited_mac_of(target_ip);
    let checksum = icmpv6_checksum(solicit_message_of(0, target_ip, src_mac), src_ip, dst_ip);
    ethernet_header(dst_mac, src_mac, ETHERTYPE_IPV6)
        + ipv6_header_of(SOLICIT_TRAFFIC_CLASS, SOLICIT_FLOW_LABEL, SOLICIT_MESSAGE_LEN, IP_PROTO_ICMPV6, 255, src_ip, dst_ip)
        + solicit_message_of(checksum, target_ip, src_mac)
}

/// `f` is a neighbor solicitation for `target_ip` from `src_mac`/`src_ip`,
/// field by field. Ethernet: to the solicited-node multicast hardware address
/// of the target, from `src_mac`, EtherType IPv6 (86 dd). IPv6: version 6,
/// traffic class 0, flow label 0xb8d66 (60 0b 8d 66), payload length 32,
/// next header ICMPv6 (58), hop limit 255, from `src_ip` to the solicited-node
/// address of the target. ICMPv6 from byte 54: type 135, code 0, the checksum
/// of the message (read with its checksum field zero) between the two IPv6
/// addresses, four reserved zero bytes, the target address, and one source
/// link-layer address option (type 1, length 1) carrying `src_mac`.
pub open spec fn is_solicitation(f: Seq<u8>, src_mac: Seq<u8>, src_ip: Seq<u8>, target_ip: Seq<u8>) -> bool {
    &&& f.len() == 86
    &&& is_solicited_mac(f.subrange(0, 6), target_ip)
    &&& f.subrange(6, 12) == src_mac
    &&& f[12] == 0x86 && f[13] == 0xdd
    &&& f[14] == 0x60 && f[15] == 0x0b && f[16] == 0x8d && f[17] == 0x66
    &&& f[18] == 0 && f[19] == 32
    &&& f[20] == 58 && f[21] == 255
    &&& f.subrange(22, 38) == src_ip
    &&& is_solicited_node(f.subrange(38, 54), target_ip)
    &&& f[54] == 135 && f[55] == 0
    &&& be16_value(f[56], f[57]) == icmpv6_checksum(
        f.subrange(54, 86).update(2, 0u8).update(3, 0u8),
        src_ip,
        f.subrange(38, 54),
    )
    &&& forall|i: int| 58 <= i < 62 ==> #[trigger] f[i] == 0
    &&& f.subrange(62, 78) == target_ip
    &&& f[78] == 1 && f[79] == 1
    &&& f.subrange(80, 86) == src_mac
}

/// The solicitation frame holds, at the places the Ethernet, IPv6 and NDP
/// formats give them, the addresses it is built from, the right checksum, and
/// the sender's hardware address in its source link-layer address option.
pub proof fn lemma_solicit_fields(src_mac: Seq<u8>, src_ip: Seq<u8>, target_ip: Seq<u8>)
    requires
        src_mac.len() == 6,
        src_ip.len() == 16,
        target_ip.len() == 16,
    ensures
        is_solicitation(solicit_frame_of(src_mac, src_ip, target_ip), src_mac, src_ip, target_ip),
{
    let f = solicit_frame_of(src_mac, src_ip, target_ip);
    let dst_ip = solicited_node_of(target_ip);
    let c = icmpv6_checksum(solicit_message_of(0, target_ip, src_mac), src_ip, dst_ip);
    assert(f.subrange(0, 6) =~= solicited_mac_of(target_ip));
    assert(f.subrange(0, 6).subrange(3, 6) =~= target_ip.subrange(13, 16));
    assert(f.subrange(6, 12) =~= src_mac);
    assert(f.subrange(22, 38) =~= src_ip);
    assert(f.subrange(38, 54) =~= dst_ip);
    assert(f.subrange(38, 54).subrange(13, 16) =~= target_ip.subrange(13, 16));
    assert(f.subrange(54, 86).update(2, 0u8).update(3, 0u8) =~= solicit_message_of(0, target_ip, src_mac));
    assert(f.subrange(62, 78) =~= target_ip);
    assert(f.subrange(80, 86) =~= src_mac);
    assert(be16_value(f[56], f[57]) == c);
}

/// Builds the neighbor solicitation message with the given checksum.
fn solicit_message(checksum: u16, target_ip: [u8; 16], src_mac: [u8; 6]) -> (r: Vec<u8>)
    ensures
        r@ == solicit_message_of(checksum, target_ip@, src_mac@),
{
    let mut m: Vec<u8> = Vec::new();
    m.push(ICMPV6_NEIGHBOR_SOLICIT);
    m.push(0u8);
    append_be16(&mut m, checksum);
    append_zeros(&mut m, 4);
    append_bytes(&mut m, &target_ip);
    m.push(NDP_OPT_SOURCE_LL_ADDR);
    m.push(1u8);
    append_bytes(&mut m, &src_mac);
    assert(m@ =~= solicit_message_of(checksum, target_ip@, src_mac@));
    m
}

/// Builds the neighbor solicitation frame for `target_ip`.
pub fn solicit_frame(src_mac: [u8; 6], src_ip: [u8; 16], target_ip: [u8; 16]) -> (r: Vec<u8>)
    ensures
        r@ == solicit_frame_of(src_mac@, src_ip@, target_ip@),
        r@.len() == SOLICIT_FRAME_LEN,
        is_solicitation(r@, src_mac@, src_ip@, target_ip@),
{
    let dst_ip = neighbor_solicit_ipv6(target_ip);
    let dst_mac = neighbor_solicit_mac(target_ip);
    let unsummed = solicit_message(0, target_ip, src_mac);
    let checksum = checksum_of(unsummed.as_slice(), src_ip, dst_ip);
    let message = solicit_message(checksum, target_ip, src_mac);
    let mut f: Vec<u8> = Vec::new();
    append_bytes(&mut f, &dst_mac);
    append_bytes(&mut f, &src_mac);
    append_be16(&mut f, ETHERTYPE_IPV6);
    f.push(0x60u8);
    f.push(0x0bu8);
    f.push(0x8du8);
    f.push(0x66u8);
    assert(ipv6_first_word(SOLICIT_TRAFFIC_CLASS, SOLICIT_FLOW_LABEL) =~= seq![0x60u8, 0x0bu8, 0x8du8, 0x66u8]);
    append_be16(&mut f, SOLICIT_MESSAGE_LEN);
    f.push(IP_PROTO_ICMPV6);
    f.push(255u8);
    append_bytes(&mut f, &src_ip);
    append_bytes(&mut f, &dst_ip);
    append_bytes(&mut f, message.as_slice());
    assert(f@ =~= solicit_frame_of(src_mac@, src_ip@, target_ip@));
    proof {
        lemma_solicit_fields(src_mac@, src_ip@, target_ip@);
    }
    f
}

/// The interface to send from, its hardware address and the frame to send,
/// for a neighbor solicitation for `target_ip`: the first interface with a
/// network holding `target_ip` sends it, from its hardware address and from
/// the address of that network.
pub fn prepare_request<L>(ifaces: Vec<Iface<L>>, target_ip: [u8; 16]) -> (r: Result<(Iface<L>, [u8; 6], Vec<u8>), NetprobeError>)
    ensures
        no_match(ifaces@, IpAddr::V6(target_ip)) ==> r == Err::<(Iface<L>, [u8; 6], Vec<u8>), NetprobeError>(
            NetprobeError::Unexpected("cannot find interface connected to this ip"),
        ),
        !no_match(ifaces@, IpAddr::V6(target_ip)) ==> exists|i: int, j: int, src_ip: [u8; 16]| {
            &&& is_first_match(ifaces@, IpAddr::V6(target_ip), i, j)
            &&& ifaces@[i].ips@[j].spec_ip() == IpAddr::V6(src_ip)
            &&& match ifaces@[i].mac {
                None => r == Err::<(Iface<L>, [u8; 6], Vec<u8>), NetprobeError>(
                    NetprobeError::Unexpected("failed to obtain mac address of interface"),
                ),
                Some(mac) => r matches Ok((f, m, frame)) && f == ifaces@[i] && m == mac
                    && frame@ == solicit_frame_of(mac@, src_ip@, target_ip@),
            }
        },
{
    let (iface, src_ip) = match find_iface_and_ipv6(ifaces, target_ip) {
        Some(found) => found,
        None => {
            return Err(NetprobeError::Unexpected("cannot find interface connected to this ip"));
        },
    };
    let src_mac = match iface.mac {
        Some(m) => m,
        None => {
            return Err(NetprobeError::Unexpected("failed to obtain mac address of interface"));
        },
    };
    let frame = solicit_frame(src_mac, src_ip, target_ip);
    Ok((iface, src_mac, frame))
}

/// An NDP option: its type, its length field (in units of eight bytes,
/// counting the two header bytes) and its data.
#[derive(Debug)]
pub struct NdpOption {
    pub option_type: u8,
    pub length: u8,
    pub data: Vec<u8>,
}

impl View for NdpOption {
    type V = (u8, u8, Seq<u8>);

    open spec fn view(&self) -> (u8, u8, Seq<u8>) {
        (self.option_type, self.length, self.data@)
    }
}

/// The number of data bytes that an option of length field `length` is
/// taken to claim: eight per unit less the two header bytes, computed in
/// eight-bit arithmetic that wraps around (so modulo 256); none for length 0.
/// A length field of 32 thus claims 254 bytes, one of 33 claims 6.
pub open spec fn option_data_len(length: u8) -> int {
    if length > 0 {
        ((8 * length) % 256 + 254) % 256
    } else {
        0
    }
}

/// The claim is the eight-bit result of eight times the length field less
/// two: the value that `(8 * length - 2)` wraps to in a `u8`.
pub proof fn lemma_option_data_len_wraps(length: u8)
    requires
        length > 0,
    ensures
        option_data_len(length) == ((8 * length - 2) as u8) as int,
{
    assert(((8 * length - 2) as u8) as int == ((8 * length) % 256 + 254) % 256) by (bit_vector)
        requires
            length >= 1,
    ;
}

/// Where the option at the start of `buf` ends: after its claimed data, or at
/// the end of `buf` where the data is cut short.
pub open spec fn option_end(buf: Seq<u8>) -> int {
    if 2 + option_data_len(buf[1]) <= buf.len() {
        2 + option_data_len(buf[1])
    } else {
        buf.len() as int
    }
}

/// The options that `buf` holds, one after the other, until fewer than the
/// two header bytes are left.
pub open spec fn ndp_options_of(buf: Seq<u8>) -> Seq<(u8, u8, Seq<u8>)>
    decreases buf.len(),
{
    if buf.len() < 2 {
        seq![]
    } else {
        let end = option_end(buf);
        seq![(buf[0], buf[1], buf.subrange(2, end))] + ndp_options_of(buf.subrange(end, buf.len() as int))
    }
}

/// The views of a list of options.
pub open spec fn options_view(opts: Seq<NdpOption>) -> Seq<(u8, u8, Seq<u8>)> {
    opts.map_values(|o: NdpOption| o@)
}

/// The options written back one after the other: for each its type, its
/// length field and its data.
pub open spec fn options_bytes(opts: Seq<(u8, u8, Seq<u8>)>) -> Seq<u8>
    decreases opts.len(),
{
    if opts.len() == 0 {
        seq![]
    } else {
        seq![opts[0].0, opts[0].1] + opts[0].2 + options_bytes(opts.subrange(1, opts.len() as int))
    }
}

/// The options read from `buf`, written back one after the other, are the
/// bytes of `buf` from its start, all of them but fewer than two; every
/// option but the last carries exactly the data its length field claims, and
/// the last at most that.
pub proof fn lemma_options_reassemble(buf: Seq<u8>)
    ensures
        ({
            let opts = ndp_options_of(buf);
            let n = options_bytes(opts).len();
            &&& n <= buf.len()
            &&& buf.len() - n < 2
            &&& options_bytes(opts) == buf.subrange(0, n as int)
            &&& forall|i: int| 0 <= i < opts.len() ==> (#[trigger] opts[i]).2.len() <= option_data_len(opts[i].1)
            &&& forall|i: int| 0 <= i < opts.len() - 1 ==> (#[trigger] opts[i]).2.len() == option_data_len(opts[i].1)
        }),
    decreases buf.len(),
{
    let opts = ndp_options_of(buf);
    if buf.len() < 2 {
        assert(options_bytes(opts) =~= buf.subrange(0, 0));
    } else {
        let end = option_end(buf);
        let tail = buf.subrange(end, buf.len() as int);
        lemma_options_reassemble(tail);
        let rest = ndp_options_of(tail);
        let first = (buf[0], buf[1], buf.subrange(2, end));
        assert(opts == seq![first] + rest);
        assert(opts.subrange(1, opts.len() as int) =~= rest);
        let m = options_bytes(rest).len();
        assert(options_bytes(opts) == seq![buf[0], buf[1]] + buf.subrange(2, end) + options_bytes(rest));
        assert(options_bytes(opts) =~= buf.subrange(0, end + m));
        assert forall|i: int| 0 <= i < opts.len() implies (#[trigger] opts[i]).2.len() <= option_data_len(opts[i].1) by {
            if i > 0 {
                assert(opts[i] == rest[i - 1]);
            }
        }
        assert forall|i: int| 0 <= i < opts.len() - 1 implies (#[trigger] opts[i]).2.len() == option_data_len(opts[i].1) by {
            if i > 0 {
                assert(opts[i] == rest[i - 1]);
            } else {
                assert(rest.len() > 0);
                assert(tail.len() >= 2);
            }
        }
    }
}

/// Reads the options out of the option part of an NDP message.
pub fn parse_ndp_options(buf: &[u8]) -> (r: Vec<NdpOption>)
    ensures
        options_view(r@) == ndp_options_of(buf@),
        ({
            let opts = options_view(r@);
            let n = options_bytes(opts).len();
            &&& n <= buf@.len()
            &&& buf@.len() - n < 2
            &&& options_bytes(opts) == buf@.subrange(0, n as int)
            &&& forall|i: int| 0 <= i < opts.len() ==> (#[trigger] opts[i]).2.len() <= option_data_len(opts[i].1)
            &&& forall|i: int| 0 <= i < opts.len() - 1 ==> (#[trigger] opts[i]).2.len() == option_data_len(opts[i].1)
        }),
{
    proof {
        lemma_options_reassemble(buf@);
    }
    let mut out: Vec<NdpOption> = Vec::new();
    let mut pos: usize = 0;
    assert(buf@.subrange(0, buf@.len() as int) =~= buf@);
    while pos < buf.len() && buf.len() - pos >= 2
        invariant
            pos <= buf@.len(),
            options_view(out@) + ndp_options_of(buf@.subrange(pos as int, buf@.len() as int)) == ndp_options_of(buf@),
        decreases buf@.len() - pos,
    {
        let ghost rest = buf@.subrange(pos as int, buf@.len() as int);
        let option_type = buf[pos];
        let length = buf[pos + 1];
        let data_len: usize = if length > 0 {
            (length as usize * 8 % 256 + 254) % 256
        } else {
            0
        };
        let left = buf.len() - pos;
        let end: usize = if data_len <= left - 2 {
            2 + data_len
        } else {
            left
        };
        assert(end == option_end(rest));
        let data = copy_range(buf, pos + 2, pos + end);
        assert(data@ =~= rest.subrange(2, end as int));
        let opt = NdpOption { option_type, length, data };
        let ghost before = out@;
        out.push(opt);
        assert(options_view(out@) =~= options_view(before) + seq![(rest[0], rest[1], rest.subrange(2, end as int))]);
        assert(rest.subrange(end as int, rest.len() as int) =~= buf@.subrange(pos + end, buf@.len() as int));
        pos = pos + end;
    }
    assert(options_view(out@) + Seq::<(u8, u8, Seq<u8>)>::empty() =~= options_view(out@));
    out
}

/// What the first target link-layer address option of `opts` says: the
/// address it carries, or that it is too short to carry one; nothing where
/// there is no such option.
pub open spec fn target_ll_of(opts: Seq<(u8, u8, Seq<u8>)>) -> Option<Result<Seq<u8>, NetprobeError>>
    decreases opts.len(),
{
    if opts.len() == 0 {
        None
    } else if opts[0].0 == NDP_OPT_TARGET_LL_ADDR {
        if opts[0].2.len() >= 6 {
            Some(Ok(opts[0].2.subrange(0, 6)))
        } else {
            Some(Err(NetprobeError::Unexpected("TLLA is too short")))
        }
    } else {
        target_ll_of(opts.subrange(1, opts.len() as int))
    }
}

/// `i` is the first target link-layer address option of `opts`.
pub open spec fn is_first_target_option(opts: Seq<(u8, u8, Seq<u8>)>, i: int) -> bool {
    &&& 0 <= i < opts.len()
    &&& opts[i].0 == NDP_OPT_TARGET_LL_ADDR
    &&& forall|k: int| 0 <= k < i ==> (#[trigger] opts[k]).0 != NDP_OPT_TARGET_LL_ADDR
}

/// Only the first target link-layer address option counts: with none there
/// is no answer; with one of at least six data bytes the answer is its first
/// six; with a shorter one the answer is that it is too short.
pub proof fn lemma_target_ll_is_first_option(opts: Seq<(u8, u8, Seq<u8>)>)
    ensures
        target_ll_of(opts) is None <==> forall|k: int| 0 <= k < opts.len() ==> (#[trigger] opts[k]).0 != NDP_OPT_TARGET_LL_ADDR,
        target_ll_of(opts) matches Some(Ok(m)) ==> exists|i: int|
            is_first_target_option(opts, i) && opts[i].2.len() >= 6 && m == opts[i].2.subrange(0, 6),
        target_ll_of(opts) matches Some(Err(e)) ==> exists|i: int|
            is_first_target_option(opts, i) && opts[i].2.len() < 6 && e == NetprobeError::Unexpected("TLLA is too short"),
    decreases opts.len(),
{
    if opts.len() == 0 {
    } else if opts[0].0 == NDP_OPT_TARGET_LL_ADDR {
        assert(is_first_target_option(opts, 0));
    } else {
        let rest = opts.subrange(1, opts.len() as int);
        lemma_target_ll_is_first_option(rest);
        assert forall|k: int| 0 <= k < rest.len() implies rest[k] == opts[k + 1] by {}
        if target_ll_of(rest) is None {
            assert forall|k: int| 0 <= k < opts.len() implies (#[trigger] opts[k]).0 != NDP_OPT_TARGET_LL_ADDR by {
                if k > 0 {
                    assert(opts[k] == rest[k - 1]);
                }
            }
        } else {
            let i = choose|i: int| is_first_target_option(rest, i);
            assert(is_first_target_option(rest, i));
            assert(is_first_target_option(opts, i + 1)) by {
                assert forall|k: int| 0 <= k < i + 1 implies (#[trigger] opts[k]).0 != NDP_OPT_TARGET_LL_ADDR by {
                    if k > 0 {
                        assert(opts[k] == rest[k - 1]);
                    }
                }
            }
            assert(opts[i + 1] == rest[i]);
        }
    }
}

/// Looks through `opts` for the first target link-layer address option.
fn scan_target_ll_addr(opts: &Vec<NdpOption>) -> (r: Option<Result<[u8; 6], NetprobeError>>)
    ensures
        match r {
            None => target_ll_of(options_view(opts@)) is None,
            Some(Ok(m)) => target_ll_of(options_view(opts@)) == Some(Ok::<Seq<u8>, NetprobeError>(m@)),
            Some(Err(e)) => target_ll_of(options_view(opts@)) == Some(Err::<Seq<u8>, NetprobeError>(e)),
        },
{
    let ghost all = options_view(opts@);
    let mut i: usize = 0;
    assert(all.subrange(0, all.len() as int) =~= all);
    while i < opts.len()
        invariant
            i <= opts@.len(),
            all == options_view(opts@),
            target_ll_of(all.subrange(i as int, all.len() as int)) == target_ll_of(all),
        decreases opts@.len() - i,
    {
        let ghost rest = all.subrange(i as int, all.len() as int);
        assert(rest[0] == opts@[i as int]@);
        if opts[i].option_type == NDP_OPT_TARGET_LL_ADDR {
            if opts[i].data.len() >= 6 {
                let m = read6(opts[i].data.as_slice(), 0);
                return Some(Ok(m));
            } else {
                return Some(Err(NetprobeError::Unexpected("TLLA is too short")));
            }
        }
        assert(rest.subrange(1, rest.len() as int) =~= all.subrange(i + 1, all.len() as int));
        i = i + 1;
    }
    None
}

/// The hardware address that the first target link-layer address option of
/// `opts` carries.
pub fn target_ll_addr(opts: &Vec<NdpOption>) -> (r: Option<Result<[u8; 6], NetprobeError>>)
    ensures
        match r {
            None => target_ll_of(options_view(opts@)) is None,
            Some(Ok(m)) => target_ll_of(options_view(opts@)) == Some(Ok::<Seq<u8>, NetprobeError>(m@)),
            Some(Err(e)) => target_ll_of(options_view(opts@)) == Some(Err::<Seq<u8>, NetprobeError>(e)),
        },
        r is None <==> forall|k: int| 0 <= k < opts@.len() ==> (#[trigger] opts@[k]).option_type != NDP_OPT_TARGET_LL_ADDR,
        r matches Some(Ok(m)) ==> exists|i: int|
            is_first_target_option(options_view(opts@), i) && opts@[i].data@.len() >= 6
                && m@ == opts@[i].data@.subrange(0, 6),
        r matches Some(Err(e)) ==> exists|i: int|
            is_first_target_option(options_view(opts@), i) && opts@[i].data@.len() < 6
                && e == NetprobeError::Unexpected("TLLA is too short"),
{
    let r = scan_target_ll_addr(opts);
    proof {
        lemma_target_ll_is_first_option(options_view(opts@));
        let v = options_view(opts@);
        assert forall|k: int| 0 <= k < opts@.len() implies #[trigger] v[k] == opts@[k]@ by {}
        if forall|k: int| 0 <= k < opts@.len() ==> (#[trigger] opts@[k]).option_type != NDP_OPT_TARGET_LL_ADDR {
            assert forall|k: int| 0 <= k < v.len() implies (#[trigger] v[k]).0 != NDP_OPT_TARGET_LL_ADDR by {
                assert(v[k] == opts@[k]@);
            }
        }
        if forall|k: int| 0 <= k < v.len() ==> (#[trigger] v[k]).0 != NDP_OPT_TARGET_LL_ADDR {
            assert forall|k: int| 0 <= k < opts@.len() implies (#[trigger] opts@[k]).option_type != NDP_OPT_TARGET_LL_ADDR by {
                assert(v[k] == opts@[k]@);
            }
        }
    }
    r
}

/// What the reply reader makes of a frame received after a solicitation
/// sent from `own_mac`: nothing where the frame is not an IPv6 frame to
/// `own_mac` carrying an ICMPv6 neighbor advertisement; otherwise what its
/// first target link-layer address option says; or the layer that does not
/// fit in the bytes.
pub open spec fn reply_of(frame: Seq<u8>, own_mac: Seq<u8>) -> Option<Result<Seq<u8>, NetprobeError>> {
    if frame.len() < 14 {
        Some(Err(NetprobeError::Packet("ethernet", "read")))
    } else if !(be16_value(frame[12], frame[13]) == ETHERTYPE_IPV6 && frame.subrange(0, 6) == own_mac) {
        None
    } else {
        let ip6 = frame.subrange(14, frame.len() as int);
        if ip6.len() < IPV6_HEADER_LEN {
            Some(Err(NetprobeError::Packet("ipv6", "read")))
        } else if ip6[6] != IP_PROTO_ICMPV6 {
            None
        } else {
            let end = if 40 + be16_value(ip6[4], ip6[5]) <= ip6.len() {
                40 + be16_value(ip6[4], ip6[5])
            } else {
                ip6.len() as int
            };
            let msg = ip6.subrange(40, end);
            if msg.len() < 4 {
                Some(Err(NetprobeError::Packet("icmpv6", "read")))
            } else if msg[0] != ICMPV6_NEIGHBOR_ADVERT {
                None
            } else if msg.len() < NEIGHBOR_ADVERT_MIN_LEN {
                Some(Err(NetprobeError::Packet("neighbor", "read")))
            } else {
                target_ll_of(ndp_options_of(msg.subrange(24, msg.len() as int)))
            }
        }
    }
}

/// Looks at one received frame after a solicitation sent from `own_mac`:
/// `None` to keep listening, or the outcome of the request.
pub fn inspect_reply(frame: &[u8], own_mac: [u8; 6]) -> (r: Option<Result<[u8; 6], NetprobeError>>)
    ensures
        match r {
            None => reply_of(frame@, own_mac@) is None,
            Some(Ok(m)) => reply_of(frame@, own_mac@) == Some(Ok::<Seq<u8>, NetprobeError>(m@)),
            Some(Err(e)) => reply_of(frame@, own_mac@) == Some(Err::<Seq<u8>, NetprobeError>(e)),
        },
{
    if frame.len() < 14 {
        return Some(Err(NetprobeError::Packet("ethernet", "read")));
    }
    let ethertype: u16 = frame[12] as u16 * 256 + frame[13] as u16;
    let dst = read6(frame, 0);
    let to_us = dst[0] == own_mac[0] && dst[1] == own_mac[1] && dst[2] == own_mac[2]
        && dst[3] == own_mac[3] && dst[4] == own_mac[4] && dst[5] == own_mac[5];
    assert(to_us <==> frame@.subrange(0, 6) == own_mac@) by {
        if to_us {
            assert(frame@.subrange(0, 6) =~= own_mac@);
        }
    }
    if !(ethertype == ETHERTYPE_IPV6 && to_us) {
        return None;
    }
    let ghost ip6 = frame@.subrange(14, frame@.len() as int);
    let ip6_len = frame.len() - 14;
    if ip6_len < IPV6_HEADER_LEN {
        return Some(Err(NetprobeError::Packet("ipv6", "read")));
    }
    if frame[14 + 6] != IP_PROTO_ICMPV6 {
        return None;
    }
    let payload_len: usize = frame[14 + 4] as usize * 256 + frame[14 + 5] as usize;
    let msg_len: usize = if payload_len <= ip6_len - 40 {
        payload_len
    } else {
        ip6_len - 40
    };
    let ghost msg = frame@.subrange(54, 54 + msg_len);
    assert(msg =~= ip6.subrange(40, 40 + msg_len));
    if msg_len < 4 {
        return Some(Err(NetprobeError::Packet("icmpv6", "read")));
    }
    if frame[54] != ICMPV6_NEIGHBOR_ADVERT {
        return None;
    }
    if msg_len < NEIGHBOR_ADVERT_MIN_LEN {
        return Some(Err(NetprobeError::Packet("neighbor", "read")));
    }
    let (_head, tail) = frame.split_at(54 + NEIGHBOR_ADVERT_MIN_LEN);
    let (option_bytes, _rest) = tail.split_at(msg_len - NEIGHBOR_ADVERT_MIN_LEN);
    assert(option_bytes@ =~= msg.subrange(24, msg.len() as int));
    let opts = parse_ndp_options(option_bytes);
    target_ll_addr(&opts)
}

/// The bytes of a received frame that the reply reader looks at: the
/// destination hardware address (0..6), the EtherType (12, 13), the IPv6
/// payload length (18, 19) and next header (20), the ICMPv6 type (54), and the
/// options of the advertisement (from 78 on). Flags, target address, source
/// address and the rest are not among them.
pub open spec fn is_read_byte(i: int) -> bool {
    i < 6 || i == 12 || i == 13 || i == 18 || i == 19 || i == 20 || i == 54 || i >= 78
}

/// The reply reader depends on nothing but the length of the frame and the
/// bytes it reads: two frames of one length that agree on those bytes are
/// read alike. In particular the advertisement's flags (Router, Solicited,
/// Override) and its target address change nothing.
pub proof fn lemma_reply_reads_only_its_fields(f: Seq<u8>, g: Seq<u8>, own_mac: Seq<u8>)
    requires
        f.len() == g.len(),
        forall|i: int| 0 <= i < f.len() && is_read_byte(i) ==> #[trigger] f[i] == g[i],
    ensures
        reply_of(f, own_mac) == reply_of(g, own_mac),
{
    if f.len() >= 14 {
        assert(f.subrange(0, 6) =~= g.subrange(0, 6));
        let fi = f.subrange(14, f.len() as int);
        let gi = g.subrange(14, g.len() as int);
        if fi.len() >= 40 {
            assert(fi[4] == f[18] && fi[5] == f[19] && fi[6] == f[20]);
            assert(gi[4] == g[18] && gi[5] == g[19] && gi[6] == g[20]);
            let end = if 40 + be16_value(fi[4], fi[5]) <= fi.len() {
                40 + be16_value(fi[4], fi[5])
            } else {
                fi.len() as int
            };
            let fm = fi.subrange(40, end);
            let gm = gi.subrange(40, end);
            if fm.len() >= 4 {
                assert(fm[0] == f[54] && gm[0] == g[54]);
                if fm.len() >= 24 {
                    assert(fm.subrange(24, fm.len() as int) =~= gm.subrange(24, gm.len() as int)) by {
                        assert forall|k: int| 0 <= k < fm.len() - 24 implies #[trigger] fm.subrange(24, fm.len() as int)[k]
                            == gm.subrange(24, gm.len() as int)[k] by {
                            assert(fm.subrange(24, fm.len() as int)[k] == f[78 + k]);
                            assert(gm.subrange(24, gm.len() as int)[k] == g[78 + k]);
                        }
                    }
                }
            }
        }
    }
}

/// Bytes past the IPv6 payload that the header announces (such as Ethernet
/// padding) change nothing: the frame is read as if it ended there.
pub proof fn lemma_reply_ignores_trailing_bytes(f: Seq<u8>, own_mac: Seq<u8>)
    requires
        f.len() >= 54,
        54 + be16_value(f[18], f[19]) <= f.len(),
    ensures
        reply_of(f, own_mac) == reply_of(f.subrange(0, 54 + be16_value(f[18], f[19])), own_mac),
{
    let plen = be16_value(f[18], f[19]);
    let g = f.subrange(0, 54 + plen);
    assert(g.subrange(0, 6) =~= f.subrange(0, 6));
    let fi = f.subrange(14, f.len() as int);
    let gi = g.subrange(14, g.len() as int);
    assert(fi[4] == f[18] && fi[5] == f[19] && fi[6] == f[20]);
    assert(gi[4] == f[18] && gi[5] == f[19] && gi[6] == f[20]);
    assert(fi.subrange(40, 40 + plen) =~= gi.subrange(40, 40 + plen));
}

/// The number of data bytes that an option with a nonzero length field
/// claims is at least six.
proof fn lemma_option_data_len_nonzero(length: u8)
    requires
        length > 0,
    ensures
        option_data_len(length) >= 6,
{
    let x = (8 * length) % 256;
    assert(x % 8 == 0) by (nonlinear_arith)
        requires
            x == (8 * length) % 256,
            length <= 255,
    ;
    assert(x == 0 || x >= 8);
}

/// A neighbor advertisement addressed to `own_mac`, of at least 32 bytes,
/// whose first option is a target link-layer address option, answers the
/// request with the six bytes that option carries (frame bytes 80..86),
/// whatever its flags and target address.
pub proof fn lemma_advert_answers_with_target_option(f: Seq<u8>, own_mac: Seq<u8>)
    requires
        f.len() >= 14,
        f.subrange(0, 6) == own_mac,
        f[12] == 0x86 && f[13] == 0xdd,
        f[20] == 58,
        32 <= be16_value(f[18], f[19]),
        54 + be16_value(f[18], f[19]) <= f.len(),
        f[54] == 136,
        f[78] == 2,
        f[79] != 0,
    ensures
        reply_of(f, own_mac) == Some(Ok::<Seq<u8>, NetprobeError>(f.subrange(80, 86))),
{
    let ip6 = f.subrange(14, f.len() as int);
    assert(ip6[4] == f[18] && ip6[5] == f[19] && ip6[6] == f[20]);
    let plen = be16_value(f[18], f[19]);
    let msg = ip6.subrange(40, 40 + plen);
    assert(msg[0] == f[54]);
    let opts = msg.subrange(24, msg.len() as int);
    assert(opts[0] == f[78] && opts[1] == f[79]);
    lemma_option_data_len_nonzero(opts[1]);
    let end = option_end(opts);
    assert(end >= 8);
    let first = opts.subrange(2, end);
    assert(ndp_options_of(opts)[0] == (opts[0], opts[1], first));
    assert(first.subrange(0, 6) =~= f.subrange(80, 86));
}

/// The solicitation itself, should it come back, is never taken for an
/// answer: whatever hardware address listens, the reader keeps waiting.
pub proof fn lemma_solicit_is_not_an_answer(src_mac: Seq<u8>, src_ip: Seq<u8>, target_ip: Seq<u8>, own_mac: Seq<u8>)
    requires
        src_mac.len() == 6,
        src_ip.len() == 16,
        target_ip.len() == 16,
    ensures
        reply_of(solicit_frame_of(src_mac, src_ip, target_ip), own_mac) is None,
{
    let f = solicit_frame_of(src_mac, src_ip, target_ip);
    assert(f.len() == 86);
    let ip6 = f.subrange(14, f.len() as int);
    assert(ip6[6] == IP_PROTO_ICMPV6);
    assert(ip6[4] == 0 && ip6[5] == 32);
    assert(ip6.subrange(40, 72)[0] == ICMPV6_NEIGHBOR_SOLICIT);
}

/// The payload length that the solicitation's IPv6 header announces is the
/// length of what follows that header in the frame.
pub proof fn lemma_solicit_length_matches(src_mac: Seq<u8>, src_ip: Seq<u8>, target_ip: Seq<u8>)
    requires
        src_mac.len() == 6,
        src_ip.len() == 16,
        target_ip.len() == 16,
    ensures
        ({
            let f = solicit_frame_of(src_mac, src_ip, target_ip);
            f.len() == 14 + IPV6_HEADER_LEN + be16_value(f[18], f[19])
        }),
{
    let f = solicit_frame_of(src_mac, src_ip, target_ip);
    assert(f[18] == 0 && f[19] == 32);
}

} // verus!
