use vstd::prelude::*;

use byteorder::WriteBytesExt;

use crate::bytes::{append_be16, append_be32, append_bytes, append_zeros, be16, be32_bytes, read4, zeros};
use crate::error::NetprobeError;
use crate::util::{find_iface_and_ipv4, is_first_match, no_match, Iface, IpAddr};

verus! {

/// The options of a DHCP discover, byte by byte: the magic cookie
/// 99.130.83.99; option 53 (message type) of length 1, value 1 (discover);
/// option 55 (parameter request list) of length 1, asking for option 6 (DNS
/// servers); the end option 255; one byte of padding.
pub const DISCOVER_OPTIONS: [u8; 12] = [99, 130, 83, 99, 53, 1, 1, 55, 1, 6, 255, 0];

/// Length of the fixed part of a DHCP message, up to the options.
pub const DHCP_HEADER_LEN: usize = 236;
/// Shortest message that the reader accepts: the fields up to the client
/// hardware address.
pub const DHCP_MIN_LEN: usize = 34;
/// Size of the buffer that a DHCP message is built in.
pub const DHCP_BUFFER_LEN: usize = 1500;
/// Transaction id of the discover.
pub const DISCOVER_XID: u32 = 0x42;
/// Flags of the discover: ask the server to answer by broadcast.
pub const DISCOVER_FLAGS: u16 = 0x8000;

/// The option bytes of a discover.
pub open spec fn discover_options() -> Seq<u8> {
    seq![99u8, 130u8, 83u8, 99u8, 53u8, 1u8, 1u8, 55u8, 1u8, 6u8, 255u8, 0u8]
}

/// `opts` are the options of a discover, option by option: the magic cookie
/// 99.130.83.99; message type (53) of length 1 saying DHCPDISCOVER (1); a
/// parameter request list (55) of length 1 asking for the DNS servers (6);
/// the end option (255); one byte of padding.
pub open spec fn is_discover_options(opts: Seq<u8>) -> bool {
    &&& opts.len() == 12
    &&& opts[0] == 99 && opts[1] == 130 && opts[2] == 83 && opts[3] == 99
    &&& opts[4] == 53 && opts[5] == 1 && opts[6] == 1
    &&& opts[7] == 55 && opts[8] == 1 && opts[9] == 6
    &&& opts[10] == 255 && opts[11] == 0
}

/// `p` is a DHCP discover from the client `mac`, field by field: a boot
/// request (op 1) over Ethernet (htype 1, hlen 6) with no hops; transaction
/// id 0x42 in network order; no seconds; the broadcast flag (80 00); zero
/// client, your, server and gateway addresses; the whole client hardware
/// address `mac` at bytes 28..34; zero padding, server name and boot file up
/// to byte 236; then the options of a discover.
pub open spec fn is_discover(p: Seq<u8>, mac: Seq<u8>) -> bool {
    &&& p.len() == 248
    &&& p[0] == 1 && p[1] == 1 && p[2] == 6 && p[3] == 0
    &&& p[4] == 0 && p[5] == 0 && p[6] == 0 && p[7] == 0x42
    &&& p[8] == 0 && p[9] == 0
    &&& p[10] == 0x80 && p[11] == 0
    &&& forall|i: int| 12 <= i < 28 ==> #[trigger] p[i] == 0
    &&& p.subrange(28, 34) == mac
    &&& forall|i: int| 34 <= i < 236 ==> #[trigger] p[i] == 0
    &&& is_discover_options(p.subrange(236, 248))
}

/// `byteorder::WriteBytesExt::write_u8` on the part of `buf` from `pos` on,
/// taken as a writer over a byte slice. Its source is `self.write_all(&[n])`;
/// std documents that writing to a `&mut [u8]` copies into the slice and
/// that `write_all` fails (kind `WriteZero`) once no room is left. So with
/// room left, `n` lands at `pos`; without, the call fails and writes nothing.
#[verifier::external_body]
fn write_u8_at(buf: &mut [u8], pos: usize, n: u8) -> (r: Result<(), std::io::Error>)
    requires
        pos <= old(buf)@.len(),
    ensures
        pos < old(buf)@.len() ==> r is Ok && final(buf)@ == old(buf)@.update(pos as int, n),
        pos == old(buf)@.len() ==> r is Err && final(buf)@ == old(buf)@,
{
    let mut rest = &mut buf[pos..];
    rest.write_u8(n)
}

/// Writes the options of a discover at the start of `buf` and returns how
/// many bytes they took; where `buf` is too short, writes what fits and fails.
pub fn write_options(buf: &mut [u8]) -> (r: Result<usize, std::io::Error>)
    ensures
        final(buf)@.len() == old(buf)@.len(),
        old(buf)@.len() >= 12 ==> r is Ok && r->Ok_0 == 12
            && final(buf)@ == discover_options() + old(buf)@.subrange(12, old(buf)@.len() as int),
        old(buf)@.len() < 12 ==> r is Err && final(buf)@ == discover_options().subrange(0, old(buf)@.len() as int),
        old(buf)@.len() >= 12 ==> is_discover_options(final(buf)@.subrange(0, 12)),
{
    let ghost start = buf@;
    assert(DISCOVER_OPTIONS@ =~= discover_options());
    let mut k: usize = 0;
    while k < 12
        invariant
            k <= 12,
            k <= start.len(),
            start == old(buf)@,
            DISCOVER_OPTIONS@ == discover_options(),
            buf@ == discover_options().subrange(0, k as int) + start.subrange(k as int, start.len() as int),
        decreases 12 - k,
    {
        let w = write_u8_at(buf, k, DISCOVER_OPTIONS[k]);
        match w {
            Ok(()) => {},
            Err(e) => {
                assert(buf@ =~= discover_options().subrange(0, start.len() as int));
                return Err(e);
            },
        }
        k = k + 1;
        assert(buf@ =~= discover_options().subrange(0, k as int) + start.subrange(k as int, start.len() as int));
    }
    assert(discover_options().subrange(0, 12) =~= discover_options());
    assert(buf@.subrange(0, 12) =~= discover_options());
    proof {
        lemma_discover_options_fields();
    }
    Ok(12)
}

/// The fixed part of a discover from the client `mac`: a request (op 1) over
/// Ethernet (hardware type 1, address length 6), no hops, transaction id 0x42,
/// no seconds, the broadcast flag, all four addresses zero, the client
/// hardware address `mac` padded with 10 zero bytes, and empty server name
/// (64 bytes) and boot file (128 bytes).
pub open spec fn discover_header_of(mac: Seq<u8>) -> Seq<u8> {
    seq![1u8, 1u8, 6u8, 0u8] + be32_bytes(DISCOVER_XID) + be16(0) + be16(DISCOVER_FLAGS)
        + zeros(16) + mac + zeros(10) + zeros(64) + zeros(128)
}

/// The whole discover message from the client `mac`.
pub open spec fn discover_packet_of(mac: Seq<u8>) -> Seq<u8> {
    discover_header_of(mac) + discover_options()
}

/// What the offer reader makes of a received message: the "your address"
/// field, or the failure to lay a DHCP message over it.
pub open spec fn offer_addr_of(msg: Seq<u8>) -> Result<Seq<u8>, NetprobeError> {
    if msg.len() < DHCP_MIN_LEN {
        Err(NetprobeError::Packet("dhcp", "create"))
    } else {
        Ok(msg.subrange(16, 20))
    }
}

/// Builds the discover message from the client `mac`, as it goes on the wire.
pub fn discover_packet(mac: [u8; 6]) -> (r: Result<Vec<u8>, NetprobeError>)
    ensures
        r matches Ok(p) && p@ == discover_packet_of(mac@),
        r matches Ok(p) && is_discover(p@, mac@),
{
    let mut buf: Vec<u8> = Vec::new();
    buf.push(1u8);
    buf.push(1u8);
    buf.push(6u8);
    buf.push(0u8);
    append_be32(&mut buf, DISCOVER_XID);
    append_be16(&mut buf, 0);
    append_be16(&mut buf, DISCOVER_FLAGS);
    append_zeros(&mut buf, 16);
    append_bytes(&mut buf, &mac);
    append_zeros(&mut buf, 10);
    append_zeros(&mut buf, 64);
    append_zeros(&mut buf, 128);
    assert(buf@ =~= discover_header_of(mac@));
    let ghost header = buf@;
    append_zeros(&mut buf, DHCP_BUFFER_LEN - DHCP_HEADER_LEN);
    let opt_size = {
        let whole = buf.as_mut_slice();
        let (_head, payload) = whole.split_at_mut(DHCP_HEADER_LEN);
        match write_options(payload) {
            Ok(n) => n,
            Err(e) => {
                return Err(NetprobeError::Io(e));
            },
        }
    };
    assert(buf@.subrange(0, DHCP_HEADER_LEN as int) =~= header);
    buf.truncate(DHCP_HEADER_LEN + opt_size);
    assert(buf@ =~= discover_packet_of(mac@));
    proof {
        lemma_discover_fields(mac@);
    }
    Ok(buf)
}

/// Reads the offered address out of a received DHCP message.
pub fn read_offer(msg: &[u8]) -> (r: Result<[u8; 4], NetprobeError>)
    ensures
        match r {
            Ok(a) => offer_addr_of(msg@) == Ok::<Seq<u8>, NetprobeError>(a@),
            Err(e) => offer_addr_of(msg@) == Err::<Seq<u8>, NetprobeError>(e),
        },
        msg@.len() >= 34 ==> (r matches Ok(a) && a@ == msg@.subrange(16, 20)),
        msg@.len() < 34 ==> r is Err,
{
    if msg.len() < DHCP_MIN_LEN {
        return Err(NetprobeError::Packet("dhcp", "create"));
    }
    Ok(read4(msg, 16))
}

/// The discover to broadcast for the network of `target_ip`: sent with the
/// hardware address of the first interface that has a network holding it.
pub fn prepare_discover<L>(ifaces: Vec<Iface<L>>, target_ip: [u8; 4]) -> (r: Result<Vec<u8>, NetprobeError>)
    ensures
        no_match(ifaces@, IpAddr::V4(target_ip)) ==> r == Err::<Vec<u8>, NetprobeError>(
            NetprobeError::Unexpected("cannot find interface connected to this ip"),
        ),
        !no_match(ifaces@, IpAddr::V4(target_ip)) ==> exists|i: int, j: int| {
            &&& is_first_match(ifaces@, IpAddr::V4(target_ip), i, j)
            &&& match ifaces@[i].mac {
                None => r == Err::<Vec<u8>, NetprobeError>(
                    NetprobeError::Unexpected("failed to obtain mac address of interface"),
                ),
                Some(mac) => r matches Ok(p) && p@ == discover_packet_of(mac@),
            }
        },
{
    let (iface, _sender_ip) = match find_iface_and_ipv4(ifaces, target_ip) {
        Some(found) => found,
        None => {
            return Err(NetprobeError::Unexpected("cannot find interface connected to this ip"));
        },
    };
    let mac = match iface.mac {
        Some(m) => m,
        None => {
            return Err(NetprobeError::Unexpected("failed to obtain mac address of interface"));
        },
    };
    discover_packet(mac)
}

/// The option bytes of a discover are the options it should carry.
pub proof fn lemma_discover_options_fields()
    ensures
        is_discover_options(discover_options()),
{
}

/// The discover holds, at the places the DHCP format gives them, the fields
/// of a broadcast discover from `mac`, with the whole of `mac` as client
/// hardware address.
pub proof fn lemma_discover_fields(mac: Seq<u8>)
    requires
        mac.len() == 6,
    ensures
        is_discover(discover_packet_of(mac), mac),
{
    let p = discover_packet_of(mac);
    assert(p.subrange(28, 34) =~= mac);
    assert(p.subrange(236, 248) =~= discover_options());
    lemma_discover_options_fields();
}

/// The offer reader looks at nothing but the length of the message and its
/// "your address" field.
pub proof fn lemma_offer_reads_only_yiaddr(m: Seq<u8>, n: Seq<u8>)
    requires
        m.len() == n.len(),
        m.len() >= 20 ==> m.subrange(16, 20) == n.subrange(16, 20),
    ensures
        offer_addr_of(m) == offer_addr_of(n),
{
}

/// A discover, read back as an offer, offers no address: its "your address"
/// field is zero.
pub proof fn lemma_discover_offers_nothing(mac: Seq<u8>)
    requires
        mac.len() == 6,
    ensures
        offer_addr_of(discover_packet_of(mac)) == Ok::<Seq<u8>, NetprobeError>(seq![0u8, 0u8, 0u8, 0u8]),
{
    let p = discover_packet_of(mac);
    assert(p.len() == 248);
    assert(p.subrange(16, 20) =~= seq![0u8, 0u8, 0u8, 0u8]);
}

} // verus!
