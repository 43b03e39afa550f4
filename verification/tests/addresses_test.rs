//! Addresses in what the system's tools print, and the texts beneath.

use crossbag::addresses::{
    choose_virtual_ip, find_peer_address, find_physical_ip_unix, find_physical_ip_windows,
    is_easytier_ip, is_lan_ip, parse_easytier_ip_unix, parse_easytier_ip_windows,
    parse_virtual_ip_from_cli,
};
use crossbag::ipv4::{ip_text, parse_ip, Ipv4};
use crossbag::numbers::{decimal_text, parse_u16};
use crossbag::text::{
    contains_text, lines_of, pad_text, split_at_char, trim_end_char, trim_text, words_of,
};

fn ip(a: u8, b: u8, c: u8, d: u8) -> Ipv4 {
    Ipv4 { a, b, c, d }
}

#[test]
fn addresses_as_text() {
    for s in [
        "", "1.2.3", "1.2.3.4.5", "1.2.3.256", "1.2.3.4 ", " 1.2.3.4", "01.2.3.4", "1.2.3.04",
        "1.2.3.+4", "1..3.4", "1.2.3.4000", "a.b.c.d", "1.2.3.-4", "1.2.3.٤", "1.2.3.00",
    ] {
        assert_eq!(parse_ip(s), None, "{:?}", s);
    }
    assert_eq!(parse_ip("0.0.0.0"), Some(ip(0, 0, 0, 0)));
    assert_eq!(parse_ip("255.255.255.255"), Some(ip(255, 255, 255, 255)));
    assert_eq!(parse_ip("10.20.3.100"), Some(ip(10, 20, 3, 100)));
    assert_eq!(ip_text(ip(192, 168, 0, 10)), "192.168.0.10");
    assert_eq!(parse_ip(&ip_text(ip(0, 9, 99, 255))), Some(ip(0, 9, 99, 255)));
}

#[test]
fn numbers_as_text() {
    for s in ["", "+", "-1", "0", "007", "65535", "65536", "+80", "8 0", "99999999999999999999"] {
        assert_eq!(parse_u16(s), s.parse::<u16>().ok(), "{:?}", s);
    }
    for n in [0u64, 9, 10, 101, u64::MAX] {
        assert_eq!(decimal_text(n), n.to_string());
    }
}

#[test]
fn texts_are_cut_as_std_cuts_them() {
    for s in [
        "", "a", "a\n", "a\n\n", "\n", "\r\n", "a\r\nb", "a\rb", " a  b ", "\u{2003}x\u{a0}y",
        "a:b:", ":", "x..", "...", "\u{85}\u{1680}", "ä b\tc",
    ] {
        assert_eq!(lines_of(s), s.lines().collect::<Vec<_>>(), "{:?}", s);
        assert_eq!(
            words_of(s),
            s.split_whitespace().collect::<Vec<_>>(),
            "{:?}",
            s
        );
        assert_eq!(
            split_at_char(s, ':'),
            s.split(':').collect::<Vec<_>>(),
            "{:?}",
            s
        );
        assert_eq!(split_at_char(s, ':').join(":"), s);
        assert_eq!(trim_text(s), s.trim(), "{:?}", s);
        assert_eq!(trim_end_char(s, '.'), s.trim_end_matches('.'), "{:?}", s);
        assert_eq!(pad_text(s, 5), format!("{:<5}", s), "{:?}", s);
        for part in ["", "a", "b", "..", " a", "\n\n", "xyz"] {
            assert_eq!(contains_text(s, part), s.contains(part), "{:?} {:?}", s, part);
        }
    }
}

#[test]
fn kinds_of_addresses() {
    assert!(is_easytier_ip(ip(10, 144, 0, 1)));
    assert!(!is_easytier_ip(ip(10, 143, 0, 1)));
    assert!(is_lan_ip(ip(192, 168, 1, 1)));
    assert!(is_lan_ip(ip(10, 0, 0, 1)));
    assert!(is_lan_ip(ip(172, 16, 0, 1)));
    assert!(is_lan_ip(ip(172, 31, 0, 1)));
    assert!(!is_lan_ip(ip(172, 32, 0, 1)));
    assert!(!is_lan_ip(ip(172, 15, 0, 1)));
    assert!(!is_lan_ip(ip(8, 8, 8, 8)));
    assert!(!is_lan_ip(ip(192, 169, 1, 1)));
}

const NODES: &str = "id  host     address\n1   laptop   x 11.1.1.1 10.144.144.1 tcp\r\n2   desk     10.144.144.2 udp\n3   far      10.0.0.9\n";

#[test]
fn addresses_in_the_list_of_nodes() {
    assert_eq!(parse_virtual_ip_from_cli(NODES), Some(ip(10, 144, 144, 1)));
    assert_eq!(parse_virtual_ip_from_cli("10.9.9.9\n10.0.0.9"), Some(ip(10, 0, 0, 9)));
    // The line is looked through, whatever named it.
    assert_eq!(
        parse_virtual_ip_from_cli("10.7.7.7 (10.144.x)"),
        Some(ip(10, 7, 7, 7))
    );
    assert_eq!(parse_virtual_ip_from_cli("no nodes"), None);

    assert_eq!(
        find_peer_address(NODES, Some(ip(10, 144, 144, 1))),
        Some(ip(10, 144, 144, 2))
    );
    assert_eq!(find_peer_address(NODES, None), Some(ip(10, 144, 144, 1)));
    assert_eq!(
        find_peer_address("1 10.1.1.1\n", Some(ip(10, 1, 1, 1))),
        None
    );

    assert_eq!(
        choose_virtual_ip(Some(ip(10, 0, 0, 1)), Some(ip(10, 0, 0, 2))),
        Some(ip(10, 0, 0, 1))
    );
    assert_eq!(
        choose_virtual_ip(None, Some(ip(10, 0, 0, 2))),
        Some(ip(10, 0, 0, 2))
    );
    assert_eq!(choose_virtual_ip(None, None), None);
}

const IP_ADDR: &str = "1: lo: <LOOPBACK>\n    inet 127.0.0.1/8 scope host lo\n2: eth0:\n    inet 8.8.4.4/24 brd x\n    inet6 fe80::1/64\n3: wlan0:\n    inet 192.168.1.20/24 brd y\n    inet 192.168.1.21/24 brd y\n4: tun0:\n    inet 10.144.144.7/24\n    inet nonsense\n    inet \n";

#[test]
fn addresses_of_interfaces() {
    assert_eq!(parse_easytier_ip_unix(IP_ADDR), Some(ip(10, 144, 144, 7)));
    assert_eq!(parse_easytier_ip_unix("inet 1.2.3.4/8"), None);
    assert_eq!(parse_easytier_ip_unix("inet 10.2.3.4"), Some(ip(10, 2, 3, 4)));
    // The last private one after the first.
    assert_eq!(find_physical_ip_unix(IP_ADDR), Some(ip(192, 168, 1, 21)));
    // A public one stays if only public ones follow.
    assert_eq!(
        find_physical_ip_unix("inet 8.8.4.4/24\ninet 9.9.9.9/24"),
        Some(ip(8, 8, 4, 4))
    );
    assert_eq!(find_physical_ip_unix("inet 127.0.0.2/8\ninet 10.144.0.1/8"), None);
}

const IPCONFIG: &str = "Windows IP\r\n\r\nETHERNET adapter A:\r\n   IPv4 Address. . . : 192.168.0.5\r\n\r\nUnknown adapter EasyTier:\r\n   IPv4 Address : 10.144.144.9.\r\n\r\nWireless LAN adapter Wi-Fi:\r\n   IPv4 Address. . . : 192.168.0.6 \r\n   IPv4 Address. . . : 127.0.0.1\r\n\r\nEthernet adapter MyVPN:\r\n   IPv4 Address : 172.16.0.1\r\n";

#[test]
fn addresses_in_ipconfig() {
    assert_eq!(parse_easytier_ip_windows(IPCONFIG), Some(ip(10, 144, 144, 9)));
    assert_eq!(parse_easytier_ip_windows("IPv4 : 10.0.0.1"), None);
    assert_eq!(
        parse_easytier_ip_windows("TUN0\nIPv4 without colon\nIPv4: bad\nIPv4 : 1.2.3.4 : x"),
        Some(ip(1, 2, 3, 4))
    );
    assert_eq!(find_physical_ip_windows(IPCONFIG), Some(ip(192, 168, 0, 6)));
    assert_eq!(
        find_physical_ip_windows("以太网适配器\nIPv4 地址: 192.168.3.4"),
        Some(ip(192, 168, 3, 4))
    );
    assert_eq!(find_physical_ip_windows("IPv4 : 192.168.3.4"), None);
}
