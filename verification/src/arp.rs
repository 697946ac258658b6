use vstd::prelude::*;

use crate::bytes::{append_be16, append_bytes, append_zeros, be16, read6, zeros};
use crate::error::NetprobeError;
use crate::util::{find_iface_and_ipv4, is_first_match, no_match, Iface, IpAddr, ETHERTYPE_ARP, ETHERTYPE_IPV4};

verus! {

/// ARP hardware type of Ethernet.
pub const ARP_HW_ETHERNET: u16 = 1;
/// ARP operation code of a request.
pub const ARP_OP_REQUEST: u16 = 1;
/// Length of an Ethernet header.
pub const ETHERNET_HEADER_LEN: usize = 14;
/// Length of an ARP packet for IPv4 over Ethernet.
pub const ARP_PACKET_LEN: usize = 28;
/// Length of a whole ARP request frame.
pub const ARP_FRAME_LEN: usize = 42;

/// The Ethernet broadcast address.
pub open spec fn broadcast_mac() -> Seq<u8> {
    seq![0xffu8, 0xffu8, 0xffu8, 0xffu8, 0xffu8, 0xffu8]
}

/// An Ethernet header: destination, source, EtherType.
pub open spec fn ethernet_header(dst: Seq<u8>, src: Seq<u8>, ethertype: u16) -> Seq<u8> {
    dst + src + be16(ethertype)
}

/// The frame that asks everyone on the link who holds `target_ip`: an
/// Ethernet header from `sender_mac` to the broadcast address, then an ARP
/// request (hardware Ethernet, protocol IPv4, address lengths 6 and 4) whose
/// sender is `sender_mac`/`sender_ip` and whose target hardware address is zero.
pub open spec fn request_frame_of(sender_mac: Seq<u8>, sender_ip: Seq<u8>, target_ip: Seq<u8>) -> Seq<u8> {
    ethernet_header(broadcast_mac(), sender_mac, ETHERTYPE_ARP)
        + be16(ARP_HW_ETHERNET) + be16(ETHERTYPE_IPV4) + seq![6u8, 4u8] + be16(ARP_OP_REQUEST)
        + sender_mac + sender_ip + zeros(6) + target_ip
}

/// `frame` is an ARP request, field by field: to the broadcast address from
/// `sender_mac`, EtherType ARP (08 06); hardware type Ethernet (00 01),
/// protocol IPv4 (08 00), address lengths 6 and 4, operation request (00 01);
/// sender hardware and protocol addresses `sender_mac` and `sender_ip`, target
/// hardware address unknown (zero), target protocol address `target_ip`.
pub open spec fn is_arp_request(frame: Seq<u8>, sender_mac: Seq<u8>, sender_ip: Seq<u8>, target_ip: Seq<u8>) -> bool {
    &&& frame.len() == 42
    &&& forall|i: int| 0 <= i < 6 ==> #[trigger] frame[i] == 0xff
    &&& frame.subrange(6, 12) == sender_mac
    &&& frame[12] == 0x08 && frame[13] == 0x06
    &&& frame[14] == 0x00 && frame[15] == 0x01
    &&& frame[16] == 0x08 && frame[17] == 0x00
    &&& frame[18] == 6 && frame[19] == 4
    &&& frame[20] == 0x00 && frame[21] == 0x01
    &&& frame.subrange(22, 28) == sender_mac
    &&& frame.subrange(28, 32) == sender_ip
    &&& forall|i: int| 32 <= i < 38 ==> #[trigger] frame[i] == 0
    &&& frame.subrange(38, 42) == target_ip
}

/// What the reply reader makes of a received frame: the sender hardware
/// address of the ARP packet that the frame carries, or the layer that does
/// not fit in it.
pub open spec fn reply_sender_of(frame: Seq<u8>) -> Result<Seq<u8>, NetprobeError> {
    if frame.len() < ETHERNET_HEADER_LEN {
        Err(NetprobeError::Packet("ethernet", "read"))
    } else if frame.len() < ETHERNET_HEADER_LEN + ARP_PACKET_LEN {
        Err(NetprobeError::Packet("arp", "read"))
    } else {
        Ok(frame.subrange(22, 28))
    }
}

/// Builds the ARP request frame for `target_ip`.
pub fn request_frame(sender_mac: [u8; 6], sender_ip: [u8; 4], target_ip: [u8; 4]) -> (r: Vec<u8>)
    ensures
        r@ == request_frame_of(sender_mac@, sender_ip@, target_ip@),
        r@.len() == ARP_FRAME_LEN,
        is_arp_request(r@, sender_mac@, sender_ip@, target_ip@),
{
    let broadcast: [u8; 6] = [0xff, 0xff, 0xff, 0xff, 0xff, 0xff];
    let mut f: Vec<u8> = Vec::new();
    append_bytes(&mut f, &broadcast);
    append_bytes(&mut f, &sender_mac);
    append_be16(&mut f, ETHERTYPE_ARP);
    append_be16(&mut f, ARP_HW_ETHERNET);
    append_be16(&mut f, ETHERTYPE_IPV4);
    f.push(6u8);
    f.push(4u8);
    append_be16(&mut f, ARP_OP_REQUEST);
    append_bytes(&mut f, &sender_mac);
    append_bytes(&mut f, &sender_ip);
    append_zeros(&mut f, 6);
    append_bytes(&mut f, &target_ip);
    assert(f@ =~= request_frame_of(sender_mac@, sender_ip@, target_ip@));
    proof {
        lemma_request_frame_fields(sender_mac@, sender_ip@, target_ip@);
    }
    f
}

/// Reads the sender hardware address out of a received frame.
pub fn reply_sender(frame: &[u8]) -> (r: Result<[u8; 6], NetprobeError>)
    ensures
        match r {
            Ok(m) => reply_sender_of(frame@) == Ok::<Seq<u8>, NetprobeError>(m@),
            Err(e) => reply_sender_of(frame@) == Err::<Seq<u8>, NetprobeError>(e),
        },
        frame@.len() >= 42 ==> (r matches Ok(m) && m@ == frame@.subrange(22, 28)),
        frame@.len() < 42 ==> r is Err,
{
    if frame.len() < ETHERNET_HEADER_LEN {
        return Err(NetprobeError::Packet("ethernet", "read"));
    }
    if frame.len() - ETHERNET_HEADER_LEN < ARP_PACKET_LEN {
        return Err(NetprobeError::Packet("arp", "read"));
    }
    Ok(read6(frame, 22))
}

/// The interface to send from and the frame to send, for an ARP request for
/// `target_ip`: the first interface with a network holding `target_ip` sends
/// it, from its hardware address and from the address of that network.
pub fn prepare_request<L>(ifaces: Vec<Iface<L>>, target_ip: [u8; 4]) -> (r: Result<(Iface<L>, Vec<u8>), NetprobeError>)
    ensures
        no_match(ifaces@, IpAddr::V4(target_ip)) ==> r == Err::<(Iface<L>, Vec<u8>), NetprobeError>(
            NetprobeError::Unexpected("cannot find interface connected to this ip"),
        ),
        !no_match(ifaces@, IpAddr::V4(target_ip)) ==> exists|i: int, j: int, sender_ip: [u8; 4]| {
            &&& is_first_match(ifaces@, IpAddr::V4(target_ip), i, j)
            &&& ifaces@[i].ips@[j].spec_ip() == IpAddr::V4(sender_ip)
            &&& match ifaces@[i].mac {
                None => r == Err::<(Iface<L>, Vec<u8>), NetprobeError>(
                    NetprobeError::Unexpected("failed to obtain mac address of interface"),
                ),
                Some(mac) => r matches Ok((f, frame)) && f == ifaces@[i]
                    && frame@ == request_frame_of(mac@, sender_ip@, target_ip@),
            }
        },
{
    let (iface, sender_ip) = match find_iface_and_ipv4(ifaces, target_ip) {
        Some(found) => found,
        None => {
            return Err(NetprobeError::Unexpected("cannot find interface connected to this ip"));
        },
    };
    let mac = match iface.mac {
        Some(m) => m,
        None => {
            return Err(NetprobeError::Unexpected("failed to obtain mac address of interface"));
        },
    };
    let frame = request_frame(mac, sender_ip, target_ip);
    Ok((iface, frame))
}

/// The request frame holds, at the places the ARP format gives them, the
/// broadcast destination, the sender's addresses, the request operation and
/// the asked address.
pub proof fn lemma_request_frame_fields(sender_mac: Seq<u8>, sender_ip: Seq<u8>, target_ip: Seq<u8>)
    requires
        sender_mac.len() == 6,
        sender_ip.len() == 4,
        target_ip.len() == 4,
    ensures
        is_arp_request(request_frame_of(sender_mac, sender_ip, target_ip), sender_mac, sender_ip, target_ip),
{
    let f = request_frame_of(sender_mac, sender_ip, target_ip);
    assert(f.subrange(6, 12) =~= sender_mac);
    assert(f.subrange(22, 28) =~= sender_mac);
    assert(f.subrange(28, 32) =~= sender_ip);
    assert(f.subrange(38, 42) =~= target_ip);
}

/// The reader looks at nothing but the length of the frame and its sender
/// hardware address field: two frames of one length that agree on bytes
/// 22..28 are read alike, whatever their operation or other fields.
pub proof fn lemma_reply_reads_only_sender_field(f: Seq<u8>, g: Seq<u8>)
    requires
        f.len() == g.len(),
        f.len() >= 28 ==> f.subrange(22, 28) == g.subrange(22, 28),
    ensures
        reply_sender_of(f) == reply_sender_of(g),
{
}

/// A request frame, read back as a reply, names its own sender.
pub proof fn lemma_request_reads_back(sender_mac: Seq<u8>, sender_ip: Seq<u8>, target_ip: Seq<u8>)
    requires
        sender_mac.len() == 6,
        sender_ip.len() == 4,
        target_ip.len() == 4,
    ensures
        reply_sender_of(request_frame_of(sender_mac, sender_ip, target_ip)) == Ok::<Seq<u8>, NetprobeError>(sender_mac),
{
    let f = request_frame_of(sender_mac, sender_ip, target_ip);
    assert(f.len() == 42);
    assert(f.subrange(22, 28) =~= sender_mac);
}

} // verus!
