use ddns6::config::{AddressSource, IPAddressConf};
use ddns6::ip::IpAddress;
use ddns6::ipaddr_source::interface::InterfaceSource;
use ddns6::ipaddr_source::web_source::WebSource;
use ddns6::types::Ddns6Error;

fn v4(a: u8, b: u8, c: u8, d: u8) -> IpAddress {
    IpAddress::V4([a, b, c, d])
}

fn v6(groups: [u16; 8]) -> [u8; 16] {
    let mut o = [0u8; 16];
    for i in 0..8 {
        o[2 * i] = (groups[i] >> 8) as u8;
        o[2 * i + 1] = (groups[i] & 0xff) as u8;
    }
    o
}

fn iface(dev: &str) -> IPAddressConf {
    IPAddressConf::Interface(InterfaceSource { dev: dev.to_string() })
}

#[test]
fn static_v4_address_is_itself() {
    let conf = IPAddressConf::Static(v4(93, 184, 216, 34));
    assert_eq!(conf.get_ipv4_address(&vec![]).unwrap(), v4(93, 184, 216, 34));
}

#[test]
fn static_v6_address_is_refused_for_ipv4() {
    let conf = IPAddressConf::Static(IpAddress::V6(v6([0x2001, 0xdb8, 0, 0, 0, 0, 0, 1])));
    let err = conf.get_ipv4_address(&vec![]).unwrap_err();
    assert_eq!(err.0, "Error determining IP address: static address is not an IPv4 address");
}

#[test]
fn static_v4_address_is_refused_for_ipv6() {
    let conf = IPAddressConf::Static(v4(1, 2, 3, 4));
    let err = conf.get_ipv6_address(&vec![]).unwrap_err();
    assert_eq!(err.0, "Error determining IP address: static address is not an IPv6 address");
}

#[test]
fn netmask_keeps_masked_bits() {
    let conf = IPAddressConf::AddressWithNetmask {
        addr: Box::new(IPAddressConf::Static(v4(192, 0, 2, 77))),
        mask: v4(255, 255, 255, 0),
    };
    assert_eq!(conf.get_ipv4_address(&vec![]).unwrap(), v4(192, 0, 2, 0));
}

#[test]
fn netmask_of_other_family_cannot_be_used() {
    let conf = IPAddressConf::AddressWithNetmask {
        addr: Box::new(IPAddressConf::Static(v4(192, 0, 2, 77))),
        mask: IpAddress::V6([0xff; 16]),
    };
    assert!(conf.evaluate_ipv4(&vec![]).is_none());
}

#[test]
fn netmask_of_other_family_after_failure_is_the_failure() {
    let conf = IPAddressConf::AddressWithNetmask {
        addr: Box::new(iface("eth0")),
        mask: IpAddress::V6([0xff; 16]),
    };
    let answers = vec![Err(Ddns6Error("down".to_string()))];
    let r = conf.evaluate_ipv4(&answers).unwrap();
    assert_eq!(r.unwrap_err().0, "down");
}

#[test]
fn prefix_length_keeps_leading_bits() {
    let conf = IPAddressConf::AddressWithPrefixLength {
        addr: Box::new(IPAddressConf::Static(v4(203, 0, 113, 200))),
        len: 20,
    };
    assert_eq!(conf.get_ipv4_address(&vec![]).unwrap(), v4(203, 0, 112, 0));
}

#[test]
fn negative_prefix_length_keeps_trailing_bits() {
    let conf = IPAddressConf::AddressWithPrefixLength {
        addr: Box::new(IPAddressConf::Static(v4(203, 0, 113, 200))),
        len: -12,
    };
    assert_eq!(conf.get_ipv4_address(&vec![]).unwrap(), v4(0, 0, 1, 200));
}

#[test]
fn prefix_length_edges() {
    let a = IPAddressConf::Static(v4(203, 0, 113, 200));
    let full = IPAddressConf::AddressWithPrefixLength { addr: Box::new(a), len: 32 };
    assert_eq!(full.get_ipv4_address(&vec![]).unwrap(), v4(203, 0, 113, 200));
    let a = IPAddressConf::Static(v4(203, 0, 113, 200));
    let none = IPAddressConf::AddressWithPrefixLength { addr: Box::new(a), len: 0 };
    assert_eq!(none.get_ipv4_address(&vec![]).unwrap(), v4(0, 0, 0, 0));
    let a = IPAddressConf::Static(v4(203, 0, 113, 200));
    let all_low = IPAddressConf::AddressWithPrefixLength { addr: Box::new(a), len: -32 };
    assert_eq!(all_low.get_ipv4_address(&vec![]).unwrap(), v4(203, 0, 113, 200));
}

#[test]
fn prefix_length_out_of_range_cannot_be_used() {
    let conf = IPAddressConf::AddressWithPrefixLength {
        addr: Box::new(IPAddressConf::Static(v4(1, 2, 3, 4))),
        len: 33,
    };
    assert!(conf.evaluate_ipv4(&vec![]).is_none());
    let conf6 = IPAddressConf::AddressWithPrefixLength {
        addr: Box::new(IPAddressConf::Static(IpAddress::V6([1; 16]))),
        len: -129,
    };
    assert!(conf6.evaluate_ipv6(&vec![]).is_none());
}

#[test]
fn composite_of_interface_prefix_and_static_suffix() {
    // ipv6 = [{addr={dev="br0"}, len=64}, "::1"]
    let conf = IPAddressConf::Composite(vec![
        IPAddressConf::AddressWithPrefixLength { addr: Box::new(iface("br0")), len: 64 },
        IPAddressConf::Static(IpAddress::V6(v6([0, 0, 0, 0, 0, 0, 0, 1]))),
    ]);
    let sources = conf.sources();
    assert_eq!(sources.len(), 1);
    match &sources[0] {
        AddressSource::Interface(i) => assert_eq!(i.dev, "br0"),
        _ => panic!("wrong source"),
    }
    let answers = vec![Ok(v6([0x2001, 0xdb8, 0xaa, 0xbb, 0x1234, 0x5678, 0x9abc, 0xdef0]))];
    let addr = conf.get_ipv6_address(&answers).unwrap();
    assert_eq!(addr, IpAddress::V6(v6([0x2001, 0xdb8, 0xaa, 0xbb, 0, 0, 0, 1])));
}

#[test]
fn composite_ors_its_parts() {
    let conf = IPAddressConf::Composite(vec![
        IPAddressConf::Static(v4(10, 0, 0, 0)),
        IPAddressConf::Static(v4(0, 1, 0, 0)),
        IPAddressConf::Static(v4(0, 0, 0, 9)),
    ]);
    assert_eq!(conf.get_ipv4_address(&vec![]).unwrap(), v4(10, 1, 0, 9));
    let empty = IPAddressConf::Composite(vec![]);
    assert_eq!(empty.get_ipv4_address(&vec![]).unwrap(), v4(0, 0, 0, 0));
}

#[test]
fn composite_reports_first_failure() {
    let conf = IPAddressConf::Composite(vec![
        IPAddressConf::Web(WebSource::default()),
        iface("eth0"),
        iface("eth1"),
    ]);
    assert_eq!(conf.sources_len(), 3);
    let answers = vec![
        Ok([1, 2, 3, 4]),
        Err(Ddns6Error("first".to_string())),
        Err(Ddns6Error("second".to_string())),
    ];
    assert_eq!(conf.get_ipv4_address(&answers).unwrap_err().0, "first");
}

#[test]
fn answers_are_used_in_source_order() {
    let conf = IPAddressConf::Composite(vec![
        IPAddressConf::AddressWithPrefixLength { addr: Box::new(iface("a")), len: 16 },
        IPAddressConf::AddressWithPrefixLength { addr: Box::new(iface("b")), len: -16 },
    ]);
    let answers = vec![Ok([10, 20, 30, 40]), Ok([50, 60, 70, 80])];
    assert_eq!(conf.get_ipv4_address(&answers).unwrap(), v4(10, 20, 70, 80));
    let sources = conf.sources();
    let devs: Vec<String> = sources
        .iter()
        .map(|s| match s {
            AddressSource::Interface(i) => i.dev.clone(),
            AddressSource::Web(_) => String::new(),
        })
        .collect();
    assert_eq!(devs, vec!["a".to_string(), "b".to_string()]);
}

#[test]
fn web_answer_is_read_big_endian() {
    let conf = IPAddressConf::AddressWithNetmask {
        addr: Box::new(IPAddressConf::Web(WebSource::default())),
        mask: v4(255, 0, 255, 0),
    };
    let answers = vec![Ok([9, 8, 7, 6])];
    assert_eq!(conf.get_ipv4_address(&answers).unwrap(), v4(9, 0, 7, 0));
}

#[test]
fn ipv6_netmask() {
    let conf = IPAddressConf::AddressWithNetmask {
        addr: Box::new(IPAddressConf::Static(IpAddress::V6(v6([0x2001, 0xdb8, 1, 2, 3, 4, 5, 6])))),
        mask: IpAddress::V6(v6([0xffff, 0xffff, 0xffff, 0, 0, 0, 0, 0xffff])),
    };
    assert_eq!(conf.get_ipv6_address(&vec![]).unwrap(), IpAddress::V6(v6([0x2001, 0xdb8, 1, 0, 0, 0, 0, 6])));
}

#[test]
fn clone_keeps_the_configuration() {
    let conf = IPAddressConf::Composite(vec![
        IPAddressConf::AddressWithPrefixLength { addr: Box::new(iface("a")), len: 16 },
        IPAddressConf::AddressWithNetmask { addr: Box::new(IPAddressConf::Static(v4(1, 2, 3, 4))), mask: v4(255, 0, 0, 0) },
    ]);
    let copy = conf.clone();
    let answers = vec![Ok([10, 20, 30, 40])];
    assert_eq!(copy.get_ipv4_address(&answers).unwrap(), conf.get_ipv4_address(&answers).unwrap());
    assert_eq!(copy.get_ipv4_address(&answers).unwrap(), v4(11, 20, 0, 0));
}

#[test]
fn ipv6_prefix_length_edges() {
    let a = v6([0x2001, 0xdb8, 1, 2, 3, 4, 5, 6]);
    let with_len = |len: i32| IPAddressConf::AddressWithPrefixLength {
        addr: Box::new(IPAddressConf::Static(IpAddress::V6(a))),
        len,
    };
    assert_eq!(with_len(128).get_ipv6_address(&vec![]).unwrap(), IpAddress::V6(a));
    assert_eq!(with_len(-128).get_ipv6_address(&vec![]).unwrap(), IpAddress::V6(a));
    assert_eq!(with_len(0).get_ipv6_address(&vec![]).unwrap(), IpAddress::V6([0; 16]));
    assert_eq!(with_len(48).get_ipv6_address(&vec![]).unwrap(), IpAddress::V6(v6([0x2001, 0xdb8, 1, 0, 0, 0, 0, 0])));
    assert_eq!(with_len(-36).get_ipv6_address(&vec![]).unwrap(), IpAddress::V6(v6([0, 0, 0, 0, 0, 4, 5, 6])));
    assert!(with_len(129).evaluate_ipv6(&vec![]).is_none());
}

#[test]
fn composite_order_does_not_matter() {
    let parts = |order: [usize; 3]| {
        let all = [v4(10, 0, 0, 0), v4(0, 1, 0, 0), v4(0, 0, 3, 9)];
        IPAddressConf::Composite(order.iter().map(|&i| IPAddressConf::Static(all[i])).collect())
    };
    let first = parts([0, 1, 2]).get_ipv4_address(&vec![]).unwrap();
    assert_eq!(first, v4(10, 1, 3, 9));
    assert_eq!(parts([2, 0, 1]).get_ipv4_address(&vec![]).unwrap(), first);
    assert_eq!(parts([1, 2, 0]).get_ipv4_address(&vec![]).unwrap(), first);
    let prefix = IPAddressConf::AddressWithPrefixLength { addr: Box::new(iface("br0")), len: 64 };
    let suffix = IPAddressConf::Static(IpAddress::V6(v6([0, 0, 0, 0, 0, 0, 0, 0x42])));
    let answers = vec![Ok(v6([0x2001, 0xdb8, 7, 8, 9, 9, 9, 9]))];
    let a = IPAddressConf::Composite(vec![prefix.clone(), suffix.clone()]).get_ipv6_address(&answers).unwrap();
    let b = IPAddressConf::Composite(vec![suffix, prefix]).get_ipv6_address(&answers).unwrap();
    assert_eq!(a, b);
    assert_eq!(a, IpAddress::V6(v6([0x2001, 0xdb8, 7, 8, 0, 0, 0, 0x42])));
}

#[test]
fn ipv6_failures_pass_through() {
    let conf = IPAddressConf::Composite(vec![
        IPAddressConf::Static(IpAddress::V6(v6([0x2001, 0, 0, 0, 0, 0, 0, 0]))),
        IPAddressConf::AddressWithPrefixLength { addr: Box::new(iface("eth0")), len: 999 },
        IPAddressConf::Web(WebSource::default()),
    ]);
    assert_eq!(conf.sources_len(), 2);
    let answers = vec![Err(Ddns6Error("eth0 down".to_string())), Err(Ddns6Error("web down".to_string()))];
    assert_eq!(conf.get_ipv6_address(&answers).unwrap_err().0, "eth0 down");
    let answers = vec![Ok([0; 16]), Err(Ddns6Error("web down".to_string()))];
    assert!(conf.evaluate_ipv6(&answers).is_none());
}
