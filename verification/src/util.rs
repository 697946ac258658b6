use vstd::prelude::*;

verus! {

/// An IP address, by its octets in network order.
#[derive(Clone, Copy, Debug, PartialEq, Eq)]
pub enum IpAddr {
    V4([u8; 4]),
    V6([u8; 16]),
}

/// EtherType of IPv4.
pub const ETHERTYPE_IPV4: u16 = 0x0800;
/// EtherType of ARP.
pub const ETHERTYPE_ARP: u16 = 0x0806;
/// EtherType of IPv6.
pub const ETHERTYPE_IPV6: u16 = 0x86DD;

/// The EtherType that carries an address of this family, and the length of
/// such an address in bytes.
pub fn get_proto_type_and_len(ip: IpAddr) -> (r: (u16, u8))
    ensures
        r == (match ip {
            IpAddr::V4(_) => (ETHERTYPE_IPV4, 4u8),
            IpAddr::V6(_) => (ETHERTYPE_IPV6, 16u8),
        }),
        ip is V4 ==> r.0 == 0x0800 && r.1 == 4,
        ip is V6 ==> r.0 == 0x86DD && r.1 == 16,
{
    match ip {
        IpAddr::V4(_) => (ETHERTYPE_IPV4, 4),
        IpAddr::V6(_) => (ETHERTYPE_IPV6, 16),
    }
}

/// The longest prefix that an address of this family can have: its length in bits.
pub open spec fn max_prefix(ip: IpAddr) -> int {
    match ip {
        IpAddr::V4(_) => 32,
        IpAddr::V6(_) => 128,
    }
}

/// Four octets read as a 32-bit number, the first octet highest.
pub open spec fn be32(o: Seq<u8>) -> u32 {
    (o[0] as int * 0x100_0000 + o[1] as int * 0x1_0000 + o[2] as int * 0x100 + o[3] as int) as u32
}

/// The 32-bit network mask of a prefix length of at most 32.
pub open spec fn mask32(prefix: u8) -> u32 {
    (!(0xffff_ffffu64 >> prefix)) as u32
}

/// How many bits of a prefix of length `prefix` fall in byte `k` of an address.
pub open spec fn prefix_bits_in(prefix: u8, k: int) -> u16 {
    if prefix as int >= 8 * k + 8 {
        8u16
    } else if prefix as int <= 8 * k {
        0u16
    } else {
        (prefix as int - 8 * k) as u16
    }
}

/// The mask that a prefix length puts on byte `k` of an IPv6 address: the
/// bits of the prefix that fall in that byte, from its top bit down.
pub open spec fn mask_byte(prefix: u8, k: int) -> u8 {
    (!(0xffu16 >> prefix_bits_in(prefix, k))) as u8
}

/// How many bits of a prefix of length `prefix` fall in byte `k`.
pub fn prefix_bits(prefix: u8, k: usize) -> (r: u16)
    requires
        k < 16,
    ensures
        r == prefix_bits_in(prefix, k as int),
        r <= 8,
{
    if prefix as usize >= 8 * k + 8 {
        8
    } else if prefix as usize <= 8 * k {
        0
    } else {
        (prefix as usize - 8 * k) as u16
    }
}

/// Whether the IPv4 address `ip` lies in the network `net`/`prefix`.
pub open spec fn v4_contains(net: Seq<u8>, prefix: u8, ip: Seq<u8>) -> bool {
    (be32(ip) & mask32(prefix)) == (be32(net) & mask32(prefix))
}

/// Whether the IPv6 address `ip` lies in the network `net`/`prefix`.
pub open spec fn v6_contains(net: Seq<u8>, prefix: u8, ip: Seq<u8>) -> bool {
    forall|k: int| 0 <= k < 16 ==> (#[trigger] ip[k] & mask_byte(prefix, k)) == (net[k] & mask_byte(prefix, k))
}

/// Whether `ip` lies in the network of address `net` and prefix length `prefix`;
/// an address of the other family never does.
pub open spec fn net_contains(net: IpAddr, prefix: u8, ip: IpAddr) -> bool {
    match (net, ip) {
        (IpAddr::V4(n), IpAddr::V4(a)) => v4_contains(n@, prefix, a@),
        (IpAddr::V6(n), IpAddr::V6(a)) => v6_contains(n@, prefix, a@),
        _ => false,
    }
}

/// `ipnetwork::Ipv4Network::contains` (reached through `pnet::ipnetwork`) on the
/// network `net`/`prefix`. Its source computes the mask as
/// `!(0xffff_ffff as u64 >> prefix) as u32` and returns whether
/// `u32::from(ip) & mask == u32::from(net) & mask`; that is what the contract says.
/// `Ipv4Network::new` refuses a prefix over 32, which `requires` leaves out.
#[verifier::external_body]
fn ipv4_network_contains(net: [u8; 4], prefix: u8, ip: [u8; 4]) -> (r: bool)
    requires
        prefix <= 32,
    ensures
        r == v4_contains(net@, prefix, ip@),
{
    match pnet::ipnetwork::Ipv4Network::new(net.into(), prefix) {
        Ok(n) => n.contains(ip.into()),
        Err(_) => false,
    }
}

/// `ipnetwork::Ipv6Network::contains` (reached through `pnet::ipnetwork`) on the
/// network `net`/`prefix`. Its source builds a mask of 16 bytes, byte `i` holding
/// `!(0xff >> min(prefix - 8 i, 8))` (the subtraction saturating at 0), and
/// returns whether both addresses agree under that mask; the contract states
/// this byte by byte. `Ipv6Network::new` refuses a prefix over 128, which
/// `requires` leaves out.
#[verifier::external_body]
fn ipv6_network_contains(net: [u8; 16], prefix: u8, ip: [u8; 16]) -> (r: bool)
    requires
        prefix <= 128,
    ensures
        r == v6_contains(net@, prefix, ip@),
{
    match pnet::ipnetwork::Ipv6Network::new(net.into(), prefix) {
        Ok(n) => n.contains(ip.into()),
        Err(_) => false,
    }
}

/// An IP network: an address and a prefix length that fits its family.
#[derive(Clone, Copy, Debug)]
pub struct IpNet {
    ip: IpAddr,
    prefix: u8,
}

impl IpNet {
    #[verifier::type_invariant]
    spec fn prefix_fits(self) -> bool {
        self.prefix as int <= max_prefix(self.ip)
    }

    /// The address that the network was made with.
    pub closed spec fn spec_ip(self) -> IpAddr {
        self.ip
    }

    /// The prefix length that the network was made with.
    pub closed spec fn spec_prefix(self) -> u8 {
        self.prefix
    }

    /// Whether `ip` lies in this network.
    pub open spec fn spec_contains(self, ip: IpAddr) -> bool {
        net_contains(self.spec_ip(), self.spec_prefix(), ip)
    }

    /// The network of `ip` and `prefix`, or `None` where the prefix is longer
    /// than the address.
    pub fn new(ip: IpAddr, prefix: u8) -> (r: Option<IpNet>)
        ensures
            r is Some <==> prefix as int <= max_prefix(ip),
            r matches Some(n) ==> n.spec_ip() == ip && n.spec_prefix() == prefix,
    {
        let fits = match ip {
            IpAddr::V4(_) => prefix <= 32,
            IpAddr::V6(_) => prefix <= 128,
        };
        if fits {
            Some(IpNet { ip, prefix })
        } else {
            None
        }
    }

    /// The address of the network, as it was given.
    pub fn ip(&self) -> (r: IpAddr)
        ensures
            r == self.spec_ip(),
    {
        self.ip
    }

    /// The prefix length of the network.
    pub fn prefix(&self) -> (r: u8)
        ensures
            r == self.spec_prefix(),
            r as int <= max_prefix(self.spec_ip()),
    {
        proof {
            use_type_invariant(self);
        }
        self.prefix
    }

    /// Whether `ip` lies in this network.
    pub fn contains(&self, ip: &IpAddr) -> (r: bool)
        ensures
            r == self.spec_contains(*ip),
    {
        proof {
            use_type_invariant(self);
        }
        match (self.ip, *ip) {
            (IpAddr::V4(n), IpAddr::V4(a)) => ipv4_network_contains(n, self.prefix, a),
            (IpAddr::V6(n), IpAddr::V6(a)) => ipv6_network_contains(n, self.prefix, a),
            _ => false,
        }
    }
}

/// A network interface of the host, as far as the probes read it, with
/// `link`: the caller's own handle on the interface, carried along unread.
#[derive(Debug)]
pub struct Iface<L> {
    /// The interface's name.
    pub name: String,
    /// Its hardware address, where it has one.
    pub mac: Option<[u8; 6]>,
    /// The networks assigned to it, in the order the system lists them.
    pub ips: Vec<IpNet>,
    /// The handle through which the caller reaches the interface.
    pub link: L,
}

/// `i` is the first interface of `ifaces` whose name is `name`.
pub open spec fn is_first_named<L>(ifaces: Seq<Iface<L>>, name: Seq<char>, i: int) -> bool {
    &&& 0 <= i < ifaces.len()
    &&& ifaces[i].name@ == name
    &&& forall|k: int| 0 <= k < i ==> #[trigger] ifaces[k].name@ != name
}

/// Wherever an interface bears the name `name`, the first one that does
/// comes no later, and there is only one first.
pub proof fn lemma_first_named_no_later<L>(ifaces: Seq<Iface<L>>, name: Seq<char>, k: int)
    requires
        0 <= k < ifaces.len(),
        ifaces[k].name@ == name,
    ensures
        exists|i: int| is_first_named(ifaces, name, i) && i <= k,
        forall|i: int, i2: int| is_first_named(ifaces, name, i) && is_first_named(ifaces, name, i2) ==> i == i2,
    decreases k,
{
    if exists|k2: int| 0 <= k2 < k && (#[trigger] ifaces[k2]).name@ == name {
        let k2 = choose|k2: int| 0 <= k2 < k && (#[trigger] ifaces[k2]).name@ == name;
        lemma_first_named_no_later(ifaces, name, k2);
    } else {
        assert(is_first_named(ifaces, name, k));
    }
    assert forall|i: int, i2: int| is_first_named(ifaces, name, i) && is_first_named(ifaces, name, i2) implies i == i2 by {
        if i < i2 {
            assert(ifaces[i].name@ == name);
        } else if i2 < i {
            assert(ifaces[i2].name@ == name);
        }
    }
}

/// The first interface that bears the name `name`.
pub fn find_iface<L>(ifaces: Vec<Iface<L>>, name: &String) -> (r: Option<Iface<L>>)
    ensures
        r is None <==> (forall|k: int| 0 <= k < ifaces@.len() ==> #[trigger] ifaces@[k].name@ != name@),
        r matches Some(f) ==> exists|i: int| is_first_named(ifaces@, name@, i) && f == ifaces@[i],
{
    let ghost orig = ifaces@;
    let mut list = ifaces;
    let mut i: usize = 0;
    while i < list.len()
        invariant
            list@ == orig,
            orig == ifaces@,
            i <= orig.len(),
            forall|k: int| 0 <= k < i ==> #[trigger] orig[k].name@ != name@,
        decreases orig.len() - i,
    {
        if list[i].name == *name {
            let f = list.remove(i);
            assert(is_first_named(orig, name@, i as int));
            return Some(f);
        }
        i = i + 1;
    }
    None
}

/// `(i, j)` picks the first interface that has a network holding `ip`, and
/// the first such network of it.
pub open spec fn is_first_match<L>(ifaces: Seq<Iface<L>>, ip: IpAddr, i: int, j: int) -> bool {
    &&& 0 <= i < ifaces.len()
    &&& 0 <= j < ifaces[i].ips@.len()
    &&& ifaces[i].ips@[j].spec_contains(ip)
    &&& forall|k: int, l: int|
        0 <= k < i && 0 <= l < ifaces[k].ips@.len() ==> !(#[trigger] ifaces[k].ips@[l]).spec_contains(ip)
    &&& forall|l: int| 0 <= l < j ==> !(#[trigger] ifaces[i].ips@[l]).spec_contains(ip)
}

/// No network of any interface holds `ip`.
pub open spec fn no_match<L>(ifaces: Seq<Iface<L>>, ip: IpAddr) -> bool {
    forall|k: int, l: int|
        0 <= k < ifaces.len() && 0 <= l < ifaces[k].ips@.len() ==> !(#[trigger] ifaces[k].ips@[l]).spec_contains(ip)
}

/// There is at most one first match.
pub proof fn lemma_first_match_unique<L>(ifaces: Seq<Iface<L>>, ip: IpAddr, i: int, j: int, i2: int, j2: int)
    requires
        is_first_match(ifaces, ip, i, j),
        is_first_match(ifaces, ip, i2, j2),
    ensures
        i == i2 && j == j2,
{
    if i < i2 {
        assert(!ifaces[i].ips@[j].spec_contains(ip));
    } else if i2 < i {
        assert(!ifaces[i2].ips@[j2].spec_contains(ip));
    } else if j < j2 {
        assert(!ifaces[i].ips@[j].spec_contains(ip));
    } else if j2 < j {
        assert(!ifaces[i].ips@[j2].spec_contains(ip));
    }
}

/// Wherever some network holds `ip`, there is a first match, and it comes no
/// later: on an earlier interface, or on the same one at an earlier or the
/// same network.
pub proof fn lemma_first_match_no_later<L>(ifaces: Seq<Iface<L>>, ip: IpAddr, k: int, l: int)
    requires
        0 <= k < ifaces.len(),
        0 <= l < ifaces[k].ips@.len(),
        ifaces[k].ips@[l].spec_contains(ip),
    ensures
        exists|i: int, j: int| is_first_match(ifaces, ip, i, j) && (i < k || (i == k && j <= l)),
    decreases k, l,
{
    if exists|k2: int, l2: int|
        0 <= k2 < k && 0 <= l2 < ifaces[k2].ips@.len() && (#[trigger] ifaces[k2].ips@[l2]).spec_contains(ip) {
        let (k2, l2) = choose|k2: int, l2: int|
            0 <= k2 < k && 0 <= l2 < ifaces[k2].ips@.len() && (#[trigger] ifaces[k2].ips@[l2]).spec_contains(ip);
        lemma_first_match_no_later(ifaces, ip, k2, l2);
    } else if exists|l2: int| 0 <= l2 < l && (#[trigger] ifaces[k].ips@[l2]).spec_contains(ip) {
        let l2 = choose|l2: int| 0 <= l2 < l && (#[trigger] ifaces[k].ips@[l2]).spec_contains(ip);
        lemma_first_match_no_later(ifaces, ip, k, l2);
    } else {
        assert(is_first_match(ifaces, ip, k, l));
    }
}

/// A network holds its own address, and a network of prefix length 0 holds
/// every address of its family.
pub proof fn lemma_net_holds_own_address(net: IpAddr, prefix: u8, ip: IpAddr)
    ensures
        net_contains(net, prefix, net),
        (net is V4 && ip is V4) || (net is V6 && ip is V6) ==> net_contains(net, 0, ip),
{
    assert(mask32(0) == 0) by (bit_vector);
    assert forall|k: int| 0 <= k < 16 implies mask_byte(0, k) == 0 by {
        assert(prefix_bits_in(0, k) == 0);
        assert((!(0xffu16 >> 0u16)) as u8 == 0) by (bit_vector);
    }
    match (net, ip) {
        (IpAddr::V4(n), IpAddr::V4(a)) => {
            let x = be32(a@);
            let y = be32(n@);
            assert(x & 0 == 0 && y & 0 == 0) by (bit_vector);
        },
        (IpAddr::V6(n), IpAddr::V6(a)) => {
            assert forall|k: int| 0 <= k < 16 implies (#[trigger] a@[k] & mask_byte(0, k)) == (n@[k] & mask_byte(0, k)) by {
                let x = a@[k];
                let y = n@[k];
                assert(x & 0 == 0 && y & 0 == 0) by (bit_vector);
            }
        },
        _ => {},
    }
}

/// A network of full prefix length (128) holds only its own address.
pub proof fn lemma_full_prefix_v6(net: [u8; 16], ip: [u8; 16])
    requires
        net_contains(IpAddr::V6(net), 128, IpAddr::V6(ip)),
    ensures
        ip == net,
{
    assert forall|k: int| 0 <= k < 16 implies ip@[k] == net@[k] by {
        assert(prefix_bits_in(128, k) == 8);
        assert((!(0xffu16 >> 8u16)) as u8 == 0xff) by (bit_vector);
        let x = ip@[k];
        let y = net@[k];
        assert(x & 0xff == x && y & 0xff == y) by (bit_vector);
        assert((#[trigger] ip@[k] & mask_byte(128, k)) == (net@[k] & mask_byte(128, k)));
    }
    assert(ip@ =~= net@);
}

/// The first network of `nets` that holds `ip`, by its index.
fn first_net_holding(nets: &Vec<IpNet>, ip: &IpAddr) -> (r: Option<usize>)
    ensures
        r is None <==> (forall|l: int| 0 <= l < nets@.len() ==> !(#[trigger] nets@[l]).spec_contains(*ip)),
        r matches Some(j) ==> j < nets@.len() && nets@[j as int].spec_contains(*ip)
            && forall|l: int| 0 <= l < j ==> !(#[trigger] nets@[l]).spec_contains(*ip),
{
    let mut j: usize = 0;
    while j < nets.len()
        invariant
            j <= nets@.len(),
            forall|l: int| 0 <= l < j ==> !(#[trigger] nets@[l]).spec_contains(*ip),
        decreases nets@.len() - j,
    {
        if nets[j].contains(ip) {
            return Some(j);
        }
        j = j + 1;
    }
    None
}

/// The first interface, in the order given, with a network that holds `ip`,
/// together with the address of the first such network of it.
pub fn find_iface_and_ip<L>(ifaces: Vec<Iface<L>>, ip: IpAddr) -> (r: Option<(Iface<L>, IpAddr)>)
    ensures
        r is None <==> no_match(ifaces@, ip),
        r matches Some((f, a)) ==> exists|i: int, j: int|
            is_first_match(ifaces@, ip, i, j) && f == ifaces@[i] && a == ifaces@[i].ips@[j].spec_ip(),
{
    let ghost orig = ifaces@;
    let mut list = ifaces;
    let mut i: usize = 0;
    while i < list.len()
        invariant
            list@ == orig,
            orig == ifaces@,
            i <= orig.len(),
            forall|k: int, l: int|
                0 <= k < i && 0 <= l < orig[k].ips@.len() ==> !(#[trigger] orig[k].ips@[l]).spec_contains(ip),
        decreases orig.len() - i,
    {
        match first_net_holding(&list[i].ips, &ip) {
            Some(j) => {
                let a = list[i].ips[j].ip();
                assert(is_first_match(orig, ip, i as int, j as int));
                assert(orig[i as int].ips@[j as int].spec_contains(ip));
                let f = list.remove(i);
                return Some((f, a));
            },
            None => {},
        }
        i = i + 1;
    }
    None
}

/// `find_iface_and_ip` for an IPv4 address, with the address of the network
/// that matched; `None` also where that network is not an IPv4 one, which
/// cannot happen since an IPv6 network holds no IPv4 address.
pub fn find_iface_and_ipv4<L>(ifaces: Vec<Iface<L>>, ip: [u8; 4]) -> (r: Option<(Iface<L>, [u8; 4])>)
    ensures
        r is None <==> no_match(ifaces@, IpAddr::V4(ip)),
        r matches Some((f, a)) ==> exists|i: int, j: int|
            is_first_match(ifaces@, IpAddr::V4(ip), i, j) && f == ifaces@[i]
                && ifaces@[i].ips@[j].spec_ip() == IpAddr::V4(a),
{
    match find_iface_and_ip(ifaces, IpAddr::V4(ip)) {
        Some((iface, IpAddr::V4(a))) => Some((iface, a)),
        Some((_, IpAddr::V6(_))) => {
            proof {
                let (i, j) = choose|i: int, j: int| is_first_match(ifaces@, IpAddr::V4(ip), i, j)
                    && ifaces@[i].ips@[j].spec_ip() is V6;
                assert(ifaces@[i].ips@[j].spec_contains(IpAddr::V4(ip)));
            }
            None
        },
        None => None,
    }
}

/// `find_iface_and_ip` for an IPv6 address, with the address of the network
/// that matched.
pub fn find_iface_and_ipv6<L>(ifaces: Vec<Iface<L>>, ip: [u8; 16]) -> (r: Option<(Iface<L>, [u8; 16])>)
    ensures
        r is None <==> no_match(ifaces@, IpAddr::V6(ip)),
        r matches Some((f, a)) ==> exists|i: int, j: int|
            is_first_match(ifaces@, IpAddr::V6(ip), i, j) && f == ifaces@[i]
                && ifaces@[i].ips@[j].spec_ip() == IpAddr::V6(a),
{
    match find_iface_and_ip(ifaces, IpAddr::V6(ip)) {
        Some((iface, IpAddr::V6(a))) => Some((iface, a)),
        Some((_, IpAddr::V4(_))) => {
            proof {
                let (i, j) = choose|i: int, j: int| is_first_match(ifaces@, IpAddr::V6(ip), i, j)
                    && ifaces@[i].ips@[j].spec_ip() is V4;
                assert(ifaces@[i].ips@[j].spec_contains(IpAddr::V6(ip)));
            }
            None
        },
        None => None,
    }
}

/// How the outcome of a probe is reported.
#[derive(Clone, Copy, Debug, PartialEq, Eq)]
pub enum LogLevel {
    Info,
    Error,
}

/// A report of a probe's outcome: its level and the label put before the value.
#[derive(Clone, Copy, Debug)]
pub struct LogLine {
    pub level: LogLevel,
    pub label: &'static str,
}

/// How an outcome is reported: a value at level info under "result", an
/// error at level error under "error".
pub fn log<T, E>(result: &Result<T, E>) -> (r: LogLine)
    ensures
        r == (match result {
            Ok(_) => LogLine { level: LogLevel::Info, label: "result" },
            Err(_) => LogLine { level: LogLevel::Error, label: "error" },
        }),
{
    match result {
        Ok(_) => LogLine { level: LogLevel::Info, label: "result" },
        Err(_) => LogLine { level: LogLevel::Error, label: "error" },
    }
}

} // verus!
