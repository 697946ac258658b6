use netprobe::error::NetprobeError;
use netprobe::util::{
    find_iface, find_iface_and_ip, find_iface_and_ipv4, find_iface_and_ipv6, get_proto_type_and_len, log, Iface,
    IpAddr, IpNet, LogLevel, ETHERTYPE_IPV4, ETHERTYPE_IPV6,
};

fn net(ip: IpAddr, prefix: u8) -> IpNet {
    IpNet::new(ip, prefix).unwrap()
}

fn iface(name: &str, mac: Option<[u8; 6]>, ips: Vec<IpNet>, link: u32) -> Iface<u32> {
    Iface { name: name.to_string(), mac, ips, link }
}

fn v6(last: u8) -> [u8; 16] {
    [0xfe, 0x80, 0, 0, 0, 0, 0, 0, 0, 0, 0, 0, 0, 0, 0, last]
}

#[test]
fn proto_type_and_len_per_family() {
    assert_eq!(get_proto_type_and_len(IpAddr::V4([1, 2, 3, 4])), (ETHERTYPE_IPV4, 4));
    assert_eq!(get_proto_type_and_len(IpAddr::V6(v6(1))), (ETHERTYPE_IPV6, 16));
    assert_eq!(ETHERTYPE_IPV4, 0x0800);
    assert_eq!(ETHERTYPE_IPV6, 0x86DD);
}

#[test]
fn ipnet_new_checks_prefix() {
    assert!(IpNet::new(IpAddr::V4([10, 0, 0, 1]), 32).is_some());
    assert!(IpNet::new(IpAddr::V4([10, 0, 0, 1]), 33).is_none());
    assert!(IpNet::new(IpAddr::V6(v6(1)), 128).is_some());
    assert!(IpNet::new(IpAddr::V6(v6(1)), 129).is_none());
    let n = net(IpAddr::V4([10, 0, 0, 1]), 8);
    assert_eq!(n.ip(), IpAddr::V4([10, 0, 0, 1]));
    assert_eq!(n.prefix(), 8);
}

#[test]
fn ipv4_network_membership() {
    let n = net(IpAddr::V4([10, 1, 2, 3]), 8);
    assert!(n.contains(&IpAddr::V4([10, 200, 0, 7])));
    assert!(!n.contains(&IpAddr::V4([11, 1, 2, 3])));
    let n = net(IpAddr::V4([192, 168, 1, 17]), 24);
    assert!(n.contains(&IpAddr::V4([192, 168, 1, 1])));
    assert!(!n.contains(&IpAddr::V4([192, 168, 2, 1])));
    let n = net(IpAddr::V4([192, 168, 1, 17]), 28);
    assert!(n.contains(&IpAddr::V4([192, 168, 1, 31])));
    assert!(!n.contains(&IpAddr::V4([192, 168, 1, 32])));
    let all = net(IpAddr::V4([1, 2, 3, 4]), 0);
    assert!(all.contains(&IpAddr::V4([200, 100, 50, 25])));
    let one = net(IpAddr::V4([1, 2, 3, 4]), 32);
    assert!(one.contains(&IpAddr::V4([1, 2, 3, 4])));
    assert!(!one.contains(&IpAddr::V4([1, 2, 3, 5])));
}

#[test]
fn ipv6_network_membership() {
    let n = net(IpAddr::V6(v6(1)), 64);
    assert!(n.contains(&IpAddr::V6(v6(0x99))));
    let mut other = v6(1);
    other[7] = 1;
    assert!(!n.contains(&IpAddr::V6(other)));
    let n = net(IpAddr::V6(v6(1)), 125);
    assert!(n.contains(&IpAddr::V6(v6(7))));
    assert!(!n.contains(&IpAddr::V6(v6(8))));
    let n = net(IpAddr::V6(v6(1)), 128);
    assert!(n.contains(&IpAddr::V6(v6(1))));
    assert!(!n.contains(&IpAddr::V6(v6(2))));
}

#[test]
fn families_never_mix() {
    let n4 = net(IpAddr::V4([0, 0, 0, 0]), 0);
    assert!(!n4.contains(&IpAddr::V6(v6(1))));
    let n6 = net(IpAddr::V6([0; 16]), 0);
    assert!(!n6.contains(&IpAddr::V4([1, 2, 3, 4])));
}

#[test]
fn find_iface_takes_first_with_name() {
    let list = vec![
        iface("lo", None, vec![], 1),
        iface("eth0", Some([1; 6]), vec![], 2),
        iface("eth0", Some([2; 6]), vec![], 3),
    ];
    let f = find_iface(list, &"eth0".to_string()).unwrap();
    assert_eq!(f.link, 2);
    assert_eq!(f.mac, Some([1; 6]));
    let list = vec![iface("lo", None, vec![], 1)];
    assert!(find_iface(list, &"wlan0".to_string()).is_none());
    let empty: Vec<Iface<u32>> = vec![];
    assert!(find_iface(empty, &"lo".to_string()).is_none());
}

fn sample_ifaces() -> Vec<Iface<u32>> {
    vec![
        iface("lo", None, vec![net(IpAddr::V4([127, 0, 0, 1]), 8), net(IpAddr::V6([0, 0, 0, 0, 0, 0, 0, 0, 0, 0, 0, 0, 0, 0, 0, 1]), 128)], 1),
        iface(
            "eth0",
            Some([0x02, 0, 0, 0, 0, 1]),
            vec![net(IpAddr::V6(v6(1)), 64), net(IpAddr::V4([192, 168, 1, 10]), 24), net(IpAddr::V4([192, 168, 0, 10]), 16)],
            2,
        ),
        iface("eth1", Some([0x02, 0, 0, 0, 0, 2]), vec![net(IpAddr::V4([192, 168, 1, 20]), 24)], 3),
    ]
}

#[test]
fn find_iface_and_ip_takes_first_interface_then_first_network() {
    let (f, a) = find_iface_and_ip(sample_ifaces(), IpAddr::V4([192, 168, 1, 99])).unwrap();
    assert_eq!(f.link, 2);
    assert_eq!(a, IpAddr::V4([192, 168, 1, 10]));
    let (f, a) = find_iface_and_ip(sample_ifaces(), IpAddr::V4([192, 168, 7, 1])).unwrap();
    assert_eq!(f.link, 2);
    assert_eq!(a, IpAddr::V4([192, 168, 0, 10]));
    let (f, a) = find_iface_and_ip(sample_ifaces(), IpAddr::V4([127, 3, 3, 3])).unwrap();
    assert_eq!(f.name, "lo");
    assert_eq!(a, IpAddr::V4([127, 0, 0, 1]));
    assert!(find_iface_and_ip(sample_ifaces(), IpAddr::V4([8, 8, 8, 8])).is_none());
}

#[test]
fn find_iface_and_ipv4_and_ipv6() {
    let (f, a) = find_iface_and_ipv4(sample_ifaces(), [192, 168, 1, 99]).unwrap();
    assert_eq!(f.link, 2);
    assert_eq!(a, [192, 168, 1, 10]);
    assert!(find_iface_and_ipv4(sample_ifaces(), [10, 0, 0, 1]).is_none());
    let (f, a) = find_iface_and_ipv6(sample_ifaces(), v6(0x42)).unwrap();
    assert_eq!(f.link, 2);
    assert_eq!(a, v6(1));
    let mut far = v6(1);
    far[0] = 0x20;
    assert!(find_iface_and_ipv6(sample_ifaces(), far).is_none());
}

#[test]
fn log_levels_and_labels() {
    let ok: Result<u8, NetprobeError> = Ok(1);
    let line = log(&ok);
    assert_eq!(line.level, LogLevel::Info);
    assert_eq!(line.label, "result");
    let err: Result<u8, NetprobeError> = Err(NetprobeError::Unexpected("x"));
    let line = log(&err);
    assert_eq!(line.level, LogLevel::Error);
    assert_eq!(line.label, "error");
}
