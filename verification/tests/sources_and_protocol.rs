use ddns6::config::DdnsEntry;
use ddns6::credential::Credential;
use ddns6::ip::IpAddress;
use ddns6::ipaddr_source::error::AddressDeterminationError;
use ddns6::ipaddr_source::interface::{consider, index_of, viable, InterfaceAddressIterator, InterfaceSource};
use ddns6::ipaddr_source::web_source::WebSource;
use ddns6::protocol::dyndns2::{DynDns2, UpdateFailure};
use ddns6::provider::factory::ProviderFactory;
use ddns6::provider::he_net::HeNetProvider;
use ddns6::types::Ddns6Error;
use ddns6::update::{finish_update, update_report};
use ddns6::ip::{decimal_text, utf8_error_message};

const IP_ADDR_OUTPUT: &str = "2: br0: <BROADCAST,MULTICAST,UP,LOWER_UP> mtu 1500 qdisc noqueue state UP group default qlen 1000\n    link/ether 52:54:00:12:34:56 brd ff:ff:ff:ff:ff:ff\n    inet 192.168.1.2/24 brd 192.168.1.255 scope global br0\n       valid_lft forever preferred_lft forever\n    inet 203.0.113.9/24 brd 203.0.113.255 scope global br0\n    inet6 2001:db8::abcd/64 scope global temporary dynamic\n    inet6 2001:db8::1/64 scope global dynamic mngtmpaddr\r\n    inet6 fe80::1/64 scope link\n";

#[test]
fn index_of_finds_first_occurrence_from_start() {
    assert_eq!(index_of("a/b/c", "/", 0), Some(1));
    assert_eq!(index_of("a/b/c", "/", 2), Some(3));
    assert_eq!(index_of("a/b/c", "/", 4), None);
    assert_eq!(index_of("abc", "", 2), Some(2));
    assert_eq!(index_of("abc", "abcd", 0), None);
    assert_eq!(index_of("ümlaut ü", "ü", 2), Some(8));
}

#[test]
fn ipv4_candidates_are_read_in_order() {
    let mut it = InterfaceAddressIterator::new(4, IP_ADDR_OUTPUT);
    assert_eq!(it.next_candidate().as_deref(), Some("192.168.1.2"));
    assert_eq!(it.next_candidate().as_deref(), Some("203.0.113.9"));
    assert_eq!(it.next_candidate(), None);
    assert_eq!(it.next_candidate(), None);
}

#[test]
fn ipv6_candidates_skip_temporary_addresses() {
    let mut it = InterfaceAddressIterator::new(6, IP_ADDR_OUTPUT);
    assert_eq!(it.next_candidate().as_deref(), Some("2001:db8::1"));
    assert_eq!(it.next_candidate().as_deref(), Some("fe80::1"));
    assert_eq!(it.next_candidate(), None);
}

#[test]
fn candidate_ends_at_space_or_line_end() {
    let mut it = InterfaceAddressIterator::new(4, "inet 198.51.100.7 peer 198.51.100.8\ninet 198.51.100.9");
    assert_eq!(it.next_candidate().as_deref(), Some("198.51.100.7"));
    assert_eq!(it.next_candidate().as_deref(), Some("198.51.100.9"));
    assert_eq!(it.next_candidate(), None);
}

#[test]
fn next_gives_first_reachable_address() {
    let mut it = InterfaceAddressIterator::new(4, IP_ADDR_OUTPUT);
    assert_eq!(it.next(), Some(IpAddress::V4([203, 0, 113, 9])));
    assert_eq!(it.next(), None);
    let mut it6 = InterfaceAddressIterator::new(6, IP_ADDR_OUTPUT);
    let mut expected = [0u8; 16];
    expected[0] = 0x20;
    expected[1] = 0x01;
    expected[2] = 0x0d;
    expected[3] = 0xb8;
    expected[15] = 1;
    assert_eq!(it6.next(), Some(IpAddress::V6(expected)));
    assert_eq!(it6.next(), None);
    let mut bad = InterfaceAddressIterator::new(4, "inet nonsense/24\ninet 10.0.0.1/8\ninet 198.51.100.1/24\n");
    assert_eq!(bad.next(), Some(IpAddress::V4([198, 51, 100, 1])));
    let mut none = InterfaceAddressIterator::new(7, IP_ADDR_OUTPUT);
    assert_eq!(none.next(), None);
}

#[test]
fn interface_answers_from_output() {
    let src = InterfaceSource { dev: "br0".to_string() };
    assert_eq!(src.ipv4_of_output(IP_ADDR_OUTPUT.as_bytes()).unwrap(), [203, 0, 113, 9]);
    assert_eq!(src.ipv4_of_output_checked(IP_ADDR_OUTPUT.as_bytes()).unwrap().unwrap(), [203, 0, 113, 9]);
    let private_only = "    inet 192.168.1.2/24 brd 192.168.1.255 scope global br0\n";
    assert_eq!(
        src.ipv4_of_output(private_only.as_bytes()).unwrap_err().0,
        "Error determining IP address: No viable IPv4 addresses configured on interface br0"
    );
    assert_eq!(src.ipv4_of_output(b"inet \xff").unwrap_err().0, "invalid utf-8 sequence of 1 bytes from index 5");
    assert_eq!(src.ipv4_of_output(b"\xff").unwrap_err().0, "invalid utf-8 sequence of 1 bytes from index 0");
    assert_eq!(
        src.ipv6_of_output(b"inet6 \xe2\x82").unwrap_err().0,
        "incomplete utf-8 byte sequence from index 6"
    );
    assert_eq!(
        src.ipv6_of_output_checked(b"\xf0\x28\x8c\x28").unwrap().unwrap_err().0,
        "invalid utf-8 sequence of 1 bytes from index 0"
    );
    assert!(src.ipv4_of_output_checked(b"inet 2001:db8::1/64\n").is_none());
    assert!(src.ipv6_of_output_checked(b"inet6 8.8.8.8/32\n").is_none());
    assert_eq!(
        src.ipv6_of_output_checked(private_only.as_bytes()).unwrap().unwrap_err().0,
        "Error determining IP address: No viable IPv6 addresses configured on interface br0"
    );
    let out6 = src.ipv6_of_output(IP_ADDR_OUTPUT.as_bytes()).unwrap();
    assert_eq!(out6[0..4], [0x20, 0x01, 0x0d, 0xb8]);
}

#[test]
fn unknown_ip_version_gives_nothing() {
    let mut it = InterfaceAddressIterator::new(5, IP_ADDR_OUTPUT);
    assert_eq!(it.next_candidate(), None);
}

#[test]
fn viability_of_addresses() {
    assert!(!viable(&IpAddress::V4([192, 168, 1, 2])));
    assert!(!viable(&IpAddress::V4([10, 0, 0, 1])));
    assert!(!viable(&IpAddress::V4([100, 64, 0, 1])));
    assert!(viable(&IpAddress::V4([100, 128, 0, 1])));
    assert!(!viable(&IpAddress::V4([172, 20, 0, 1])));
    assert!(viable(&IpAddress::V4([172, 32, 0, 1])));
    assert!(!viable(&IpAddress::V4([169, 254, 3, 3])));
    assert!(!viable(&IpAddress::V4([127, 0, 0, 1])));
    assert!(!viable(&IpAddress::V4([0, 1, 2, 3])));
    assert!(viable(&IpAddress::V4([203, 0, 113, 9])));
    let mut fe80 = [0u8; 16];
    fe80[0] = 0xfe;
    fe80[1] = 0x80;
    assert!(!viable(&IpAddress::V6(fe80)));
    let mut ula = [0u8; 16];
    ula[0] = 0xfd;
    assert!(!viable(&IpAddress::V6(ula)));
    let mut global = [0u8; 16];
    global[0] = 0x20;
    global[1] = 0x01;
    assert!(viable(&IpAddress::V6(global)));
    assert!(!viable(&IpAddress::V6([0u8; 16])));
}

#[test]
fn consider_keeps_only_viable_addresses() {
    assert_eq!(consider(None), None);
    assert_eq!(consider(Some(IpAddress::V4([192, 168, 0, 1]))), None);
    assert_eq!(consider(Some(IpAddress::V4([8, 8, 8, 8]))), Some(IpAddress::V4([8, 8, 8, 8])));
}

#[test]
fn interface_answers() {
    let src = InterfaceSource { dev: "br0".to_string() };
    assert_eq!(src.ipv4_from_first(Some(IpAddress::V4([8, 8, 4, 4]))).unwrap(), [8, 8, 4, 4]);
    let e = src.ipv4_from_first(None).unwrap_err();
    assert_eq!(e.0, "No viable IPv4 addresses configured on interface br0");
    let e6 = src.ipv6_from_first(None).unwrap_err();
    assert_eq!(e6.0, "No viable IPv6 addresses configured on interface br0");
    assert_eq!(src.ipv6_from_first(Some(IpAddress::V6([0x20; 16]))).unwrap(), [0x20; 16]);
}

#[test]
fn error_messages() {
    let e = AddressDeterminationError("no route".to_string());
    assert_eq!(e.message(), "Error determining IP address: no route");
    let d = Ddns6Error("update failed".to_string());
    assert_eq!(d.message(), "update failed");
}

#[test]
fn web_reply_is_trimmed_and_parsed() {
    assert_eq!(WebSource::ipv4_of_reply(b"  203.0.113.5\n").unwrap(), [203, 0, 113, 5]);
    assert_eq!(WebSource::ipv4_of_reply(b"\t203.0.113.5\r\n\x0b").unwrap(), [203, 0, 113, 5]);
    assert_eq!(WebSource::ipv4_of_reply(b"2001:db8::1").unwrap_err().0, "invalid IPv4 address syntax");
    assert_eq!(
        WebSource::ipv4_of_reply(b"\xff1.2.3.4").unwrap_err().0,
        "invalid utf-8 sequence of 1 bytes from index 0"
    );
    assert_eq!(
        WebSource::ipv6_of_reply(b"2001:db8::\xc3").unwrap_err().0,
        "incomplete utf-8 byte sequence from index 10"
    );
    let mut expected = [0u8; 16];
    expected[0] = 0x20;
    expected[1] = 0x01;
    expected[2] = 0x0d;
    expected[3] = 0xb8;
    expected[15] = 1;
    assert_eq!(WebSource::ipv6_of_reply("\u{3000}2001:db8::1 ".as_bytes()).unwrap(), expected);
    assert_eq!(WebSource::ipv6_of_reply(b"1.2.3.4").unwrap_err().0, "invalid IPv6 address syntax");
    assert_eq!(WebSource::default().web, "");
}

#[test]
fn dyndns2_update_url() {
    let p = DynDns2::new("https://dyn.example.net");
    assert_eq!(p.server_url(), "https://dyn.example.net");
    assert_eq!(
        p.update_url("host.example.com", "203.0.113.5"),
        "https://dyn.example.net/nic/update?hostname=host.example.com&myip=203.0.113.5"
    );
}

#[test]
fn dyndns2_authorization() {
    let cred = Credential { username: "user".to_string(), password: "pass".to_string() };
    assert_eq!(DynDns2::authorization(&cred), "Basic dXNlcjpwYXNz");
    let cred = Credential { username: "a".to_string(), password: "b".to_string() };
    assert_eq!(DynDns2::authorization(&cred), "Basic YTpi");
    let cred = Credential { username: "ab".to_string(), password: "".to_string() };
    assert_eq!(DynDns2::authorization(&cred), "Basic YWI6");
    let cred = Credential { username: "ab".to_string(), password: "c".to_string() };
    assert_eq!(DynDns2::authorization(&cred), "Basic YWI6Yw==");
}

#[test]
fn dyndns2_update_request_url() {
    let p = DynDns2::new("https://dyn.example.net");
    assert_eq!(
        p.update_request_url("host.example.com", "2001:db8::1").as_deref(),
        Some("https://dyn.example.net/nic/update?hostname=host.example.com&myip=2001:db8::1")
    );
    assert_eq!(p.update_request_url("bad host", "1.2.3.4"), None);
}

#[test]
fn dyndns2_replies() {
    assert_eq!(DynDns2::check_reply(200, b"good 203.0.113.5"), Ok(()));
    assert_eq!(DynDns2::check_reply(200, b"nochg 203.0.113.5"), Ok(()));
    assert_eq!(DynDns2::check_reply(401, b"badauth"), Err(UpdateFailure::Status(401)));
    assert_eq!(DynDns2::check_reply(200, b"badauth"), Err(UpdateFailure::Rejected("badauth".to_string())));
    assert_eq!(DynDns2::check_reply(200, b"good"), Err(UpdateFailure::Rejected("good".to_string())));
    assert_eq!(DynDns2::check_reply(299, b"good x"), Ok(()));
    assert_eq!(DynDns2::check_reply(300, b"good x"), Err(UpdateFailure::Status(300)));
    assert_eq!(DynDns2::check_reply(200, b"good \xff"), Err(UpdateFailure::NotText("invalid utf-8 sequence of 1 bytes from index 5".to_string())));
    assert_eq!(DynDns2::check_reply(500, b"\xff"), Err(UpdateFailure::Status(500)));
}

#[test]
fn he_net_provider_uses_he_net_server() {
    let p = HeNetProvider::new();
    assert_eq!(p.protocol().server_url(), "https://dyn.dns.he.net");
}

#[test]
fn factory_registers_a_name_once() {
    let mut f = ProviderFactory::new();
    assert_eq!(f.get("he.net").protocol().server_url(), "https://dyn.dns.he.net");
    assert_eq!(f.get("he.net").protocol().server_url(), "https://dyn.dns.he.net");
    assert_eq!(f.len(), 1);
    assert_eq!(f.get("other").protocol().server_url(), "https://dyn.dns.he.net");
    assert_eq!(f.len(), 2);
}

#[test]
fn entry_credential() {
    let e = DdnsEntry {
        hostname: "h".to_string(),
        provider: "he.net".to_string(),
        username: "u".to_string(),
        password: "p".to_string(),
        ipv4: None,
        ipv6: None,
    };
    let c = e.credential();
    assert_eq!(c.username, "u");
    assert_eq!(c.password, "p");
}

#[test]
fn utf8_error_texts() {
    assert_eq!(utf8_error_message(0, Some(1)), "invalid utf-8 sequence of 1 bytes from index 0");
    assert_eq!(utf8_error_message(1234, Some(3)), "invalid utf-8 sequence of 3 bytes from index 1234");
    assert_eq!(utf8_error_message(7, None), "incomplete utf-8 byte sequence from index 7");
    assert_eq!(decimal_text(0), "0");
    assert_eq!(decimal_text(10), "10");
    assert_eq!(decimal_text(9081726354), "9081726354");
}

#[test]
fn update_outcomes_and_reports() {
    let ok = finish_update("host.example.com", "203.0.113.5", Ok(()));
    assert_eq!(ok.clone().unwrap(), "203.0.113.5");
    assert_eq!(update_report("host.example.com", &ok), "Updated host.example.com -> 203.0.113.5");
    let failed = finish_update("host.example.com", "2001:db8::1", Err("badauth".to_string()));
    assert_eq!(failed.clone().unwrap_err().0, "Failed updating host.example.com -> 2001:db8::1: badauth");
    assert_eq!(
        update_report("host.example.com", &failed),
        "Error updating host.example.com: Failed updating host.example.com -> 2001:db8::1: badauth"
    );
    let lookup = Err(Ddns6Error("Error determining IP address: no route".to_string()));
    assert_eq!(update_report("h", &lookup), "Error updating h: Error determining IP address: no route");
}
