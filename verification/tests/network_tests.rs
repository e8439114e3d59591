use audeep::network::{
    accept_local_ipv4, arp_table_snapshot, assemble_discovery, discovery_targets, enrich_with_arp,
    hosts_in_subnet, ipv4_to_string, is_ip_addr, is_locally_administered, ping_answered, local_subnet_cidr, lookup_vendor, parse_ipv4, ping_args,
    ping_deadline_ms, AliveCheck, AliveStep, HostInfo, Ipv4, OuiDb,
};
use audeep::scanner::PortResult;
use audeep::vuln::VulnEntry;

fn ip(a: u8, b: u8, c: u8, d: u8) -> Ipv4 {
    Ipv4 { a, b, c, d }
}

fn host(ipt: &str, alive: bool) -> HostInfo {
    HostInfo {
        ip: ipt.to_string(),
        hostname: None,
        mac: None,
        vendor: None,
        is_alive: alive,
        open_ports: Vec::new(),
        latency_ms: None,
        vulnerabilities: Vec::new(),
        mdns_names: Vec::new(),
        ssdp_location: None,
    }
}

fn oui() -> OuiDb {
    OuiDb::from_json("{\"00:11:22\":\"Acme Corp\",\"aa:bb:cc\":\"Lower Inc\",\"24:A6:5E\":\"Tenda\"}")
}

#[test]
fn vendor_by_prefix_with_dashes_and_case() {
    let db = oui();
    assert_eq!(lookup_vendor("00-11-22-33-44-55", &db).as_deref(), Some("Acme Corp"));
    assert_eq!(lookup_vendor("24:a6:5e:00:00:01", &db).as_deref(), Some("Tenda"));
    // Keys stored in lower case are found through their upper-case form.
    assert_eq!(lookup_vendor("AA:BB:CC:DD:EE:FF", &db).as_deref(), Some("Lower Inc"));
    assert_eq!(lookup_vendor("12:34:56:78:9a:bc", &db).as_deref(), Some("MAC local (aleatoria)"));
    assert_eq!(lookup_vendor("10:34:56:78:9a:bc", &db), None);
}

#[test]
fn vendor_needs_an_eight_byte_prefix() {
    let db = oui();
    assert_eq!(lookup_vendor("0011.2233.4455", &db), None);
    assert_eq!(lookup_vendor("00:11", &db), None);
    assert_eq!(lookup_vendor("", &db), None);
    // Exactly three groups is enough.
    assert_eq!(lookup_vendor("00:11:22", &db).as_deref(), Some("Acme Corp"));
}

#[test]
fn oui_table_from_invalid_json_is_empty() {
    assert_eq!(OuiDb::from_json("not json").len(), 0);
    assert_eq!(OuiDb::from_json("[1,2]").len(), 0);
    assert_eq!(oui().len(), 3);
}

#[test]
fn local_address_filter() {
    assert_eq!(accept_local_ipv4(ip(192, 168, 1, 57)), Some(ip(192, 168, 1, 57)));
    assert_eq!(accept_local_ipv4(ip(0, 0, 0, 0)), None);
    assert_eq!(accept_local_ipv4(ip(127, 0, 0, 1)), None);
    assert_eq!(accept_local_ipv4(ip(127, 5, 6, 7)), None);
}

#[test]
fn subnet_cidr() {
    assert_eq!(local_subnet_cidr(Some(ip(192, 168, 1, 57))).as_deref(), Some("192.168.1.0/24"));
    assert_eq!(local_subnet_cidr(Some(ip(10, 0, 200, 3))).as_deref(), Some("10.0.200.0/24"));
    assert_eq!(local_subnet_cidr(None), None);
}

#[test]
fn subnet_hosts_are_1_to_254() {
    let hs = hosts_in_subnet(ip(192, 168, 1, 57), 24);
    assert_eq!(hs.len(), 254);
    assert_eq!(hs[0], ip(192, 168, 1, 1));
    assert_eq!(hs[253], ip(192, 168, 1, 254));
    // Other prefix lengths fall back to the /24.
    assert_eq!(hosts_in_subnet(ip(10, 1, 2, 3), 16), hosts_in_subnet(ip(10, 1, 2, 3), 24));
}

#[test]
fn discovery_skips_local_address() {
    let t = discovery_targets(ip(192, 168, 1, 57));
    assert_eq!(t.len(), 253);
    assert!(!t.contains(&ip(192, 168, 1, 57)));
    assert_eq!(t[56], ip(192, 168, 1, 58));
    assert_eq!(discovery_targets(ip(192, 168, 1, 255)).len(), 254);
}

#[test]
fn ipv4_text_roundtrip() {
    for a in [ip(0, 0, 0, 0), ip(192, 168, 1, 254), ip(255, 255, 255, 255), ip(10, 0, 9, 100)] {
        let s = ipv4_to_string(a);
        assert_eq!(parse_ipv4(&s), Some(a));
    }
    assert_eq!(ipv4_to_string(ip(192, 168, 1, 5)), "192.168.1.5");
}

#[test]
fn ipv4_parse_grammar() {
    assert_eq!(parse_ipv4("10.0.0.1"), Some(ip(10, 0, 0, 1)));
    assert_eq!(parse_ipv4("192.168.001.1"), None);
    assert_eq!(parse_ipv4("256.1.1.1"), None);
    assert_eq!(parse_ipv4("1.2.3"), None);
    assert_eq!(parse_ipv4("1.2.3.4.5"), None);
    assert_eq!(parse_ipv4("1.2.3.a"), None);
    assert_eq!(parse_ipv4(""), None);
    assert_eq!(parse_ipv4("1..2.3"), None);
    assert_eq!(parse_ipv4(" 1.2.3.4"), None);
}

const LINUX_ARP: &str = "IP address       HW type     Flags       HW address            Mask     Device\n\
192.168.1.1      0x1         0x2         24:a6:5e:01:02:03     *        wlan0\n\
192.168.1.20     0x1         0x0         00:00:00:00:00:00     *        wlan0\n\
192.168.1.30     0x1         0x2         00:11:22:aa:bb:cc     *        wlan0\n\
192.168.1.1      0x1         0x2         24:a6:5e:0f:0f:0f     *        wlan0\n";

#[test]
fn arp_linux_listing() {
    let t = arp_table_snapshot(LINUX_ARP, false);
    let got: Vec<(String, String)> = t.entries.clone();
    assert_eq!(
        got,
        vec![
            ("192.168.1.1".to_string(), "24:a6:5e:0f:0f:0f".to_string()),
            ("192.168.1.30".to_string(), "00:11:22:aa:bb:cc".to_string()),
        ]
    );
}

#[test]
fn arp_windows_listing() {
    let text = "\r\nInterface: 192.168.1.5 --- 0x4\r\n  Internet Address      Physical Address      Type\r\n  192.168.1.1           24-a6-5e-01-02-03     dynamic\r\n  224.0.0.22            01-00-5e-00-00-16     static\r\n  bogus                 aa-bb                 static\r\n  fe80::1               00:11:22:33:44:55     dynamic\r\n";
    let t = arp_table_snapshot(text, true);
    let ips: Vec<&str> = t.entries.iter().map(|e| e.0.as_str()).collect();
    assert_eq!(ips, vec!["192.168.1.1", "224.0.0.22", "fe80::1"]);
}

#[test]
fn arp_empty_listing() {
    assert!(arp_table_snapshot("", false).entries.is_empty());
    assert!(arp_table_snapshot("header only\n", false).entries.is_empty());
}

#[test]
fn enrich_adds_macs_vendors_and_silent_hosts() {
    let hosts = vec![host("192.168.1.30", true), host("192.168.1.100", true)];
    let listing = "header\n\
192.168.1.30 0x1 0x2 00:11:22:aa:bb:cc * eth0\n\
192.168.1.1 0x1 0x2 24:a6:5e:01:02:03 * eth0\n\
224.0.0.251 0x1 0x2 01:00:5e:00:00:fb * eth0\n\
192.168.1.255 0x1 0x2 ff:ff:ff:ff:ff:ff * eth0\n\
10.0.0.7 0x1 0x2 00:11:22:00:00:07 * eth1\n";
    let arp = arp_table_snapshot(listing, false);
    let out = enrich_with_arp(hosts, &arp, Some(ip(192, 168, 1, 57)), &oui());
    let ips: Vec<&str> = out.iter().map(|h| h.ip.as_str()).collect();
    assert_eq!(ips, vec!["192.168.1.1", "192.168.1.100", "192.168.1.30"]);
    assert_eq!(out[0].mac.as_deref(), Some("24:a6:5e:01:02:03"));
    assert_eq!(out[0].vendor.as_deref(), Some("Tenda"));
    assert!(out[0].is_alive);
    assert_eq!(out[1].mac, None);
    assert_eq!(out[2].vendor.as_deref(), Some("Acme Corp"));
    // Without a local address, hosts of other subnets are added too.
    let arp = arp_table_snapshot(listing, false);
    let out = enrich_with_arp(Vec::new(), &arp, None, &oui());
    let ips: Vec<&str> = out.iter().map(|h| h.ip.as_str()).collect();
    assert_eq!(ips, vec!["10.0.0.7", "192.168.1.1", "192.168.1.30"]);
}

#[test]
fn discovery_keeps_live_hosts_sorted_by_text() {
    let local = HostInfo::scanned_self("192.168.1.57".to_string(), Some("me".to_string()), Vec::new(), &[]);
    let probed = vec![host("192.168.1.100", true), host("192.168.1.2", false), host("192.168.1.9", true)];
    let out = assemble_discovery(local, probed);
    let ips: Vec<&str> = out.iter().map(|h| h.ip.as_str()).collect();
    assert_eq!(ips, vec!["192.168.1.100", "192.168.1.57", "192.168.1.9"]);
    assert_eq!(out[1].hostname.as_deref(), Some("me"));
    assert_eq!(out[1].latency_ms, Some(0));
}

#[test]
fn probed_hosts() {
    let db = vec![VulnEntry {
        cve: "CVE-2017-0144".to_string(),
        severity: "critica".to_string(),
        service: "SMB".to_string(),
        affected: "w".to_string(),
        description: "d".to_string(),
        match_banner_contains: Vec::new(),
        match_ports: vec![445],
        recommendation: "r".to_string(),
    }];
    let ports = vec![PortResult::from_probe(445, true, None)];
    let h = HostInfo::probed(ip(192, 168, 1, 8), true, Some(12), ports, &db);
    assert_eq!(h.ip, "192.168.1.8");
    assert!(h.is_alive);
    assert_eq!(h.latency_ms, Some(12));
    assert_eq!(h.open_ports.len(), 1);
    assert_eq!(h.vulnerabilities.len(), 1);
    let ports = vec![PortResult::from_probe(445, true, None)];
    let h = HostInfo::probed(ip(192, 168, 1, 9), false, None, ports, &db);
    assert!(!h.is_alive);
    assert!(h.open_ports.is_empty());
    assert!(h.vulnerabilities.is_empty());
}

#[test]
fn alive_check_order() {
    let (c, s) = AliveCheck::start();
    assert_eq!(s, AliveStep::Probe(80));
    let (c, s) = c.next(false);
    assert_eq!(s, AliveStep::Probe(445));
    let (c, s) = c.next(false);
    assert_eq!(s, AliveStep::Probe(22));
    let (c, s) = c.next(false);
    assert_eq!(s, AliveStep::Probe(53));
    let (c, s) = c.next(false);
    assert_eq!(s, AliveStep::Ping);
    let (_, s) = c.next(true);
    assert_eq!(s, AliveStep::Verdict(true));
    let (c, _) = AliveCheck::start();
    let (_, s) = c.next(true);
    assert_eq!(s, AliveStep::Verdict(true));
    let (mut c, _) = AliveCheck::start();
    let mut last = AliveStep::Ping;
    for _ in 0..5 {
        let r = c.next(false);
        c = r.0;
        last = r.1;
    }
    assert_eq!(last, AliveStep::Verdict(false));
}

#[test]
fn ping_arguments() {
    assert_eq!(ping_args("192.168.1.1", 400, true), vec!["-n", "1", "-w", "400", "192.168.1.1"]);
    assert_eq!(ping_args("192.168.1.1", 400, false), vec!["-c", "1", "-W", "1", "192.168.1.1"]);
    assert_eq!(ping_args("10.0.0.1", 2001, false), vec!["-c", "1", "-W", "3", "10.0.0.1"]);
    assert_eq!(ping_args("10.0.0.1", 0, false), vec!["-c", "1", "-W", "0", "10.0.0.1"]);
    assert_eq!(ping_deadline_ms(400), 900);
}

#[test]
fn ip_address_texts() {
    for ok in [
        "192.168.1.1", "::", "::1", "1::", "fe80::1", "1:2:3:4:5:6:7:8", "1:2:3:4:5:6:7::",
        "::ffff:1.2.3.4", "1:2:3:4:5:6:1.2.3.4", "1:2:3:4:5::1.2.3.4", "ABCD:ef01::", "0:0::0:0",
    ] {
        assert!(is_ip_addr(ok), "{}", ok);
    }
    for bad in [
        "", "bogus", "1::2::3", "12345::", "1:2:3:4:5:6:7:8:9", "1:2:3:4:5:6:7:8::", ":::",
        "1:::2", ":1::", "::1:", "1.2.3.4::", "1:2:3:4:5:6::1.2.3.4", "::1.2.3.4:5", "::01.2.3.4",
        "1:2:3:4:5:6:7", "g::1", "1.2.3", "256.1.1.1", "01.1.1.1", "1:2:3:4:5:6:7:1.2.3.4",
    ] {
        assert!(!is_ip_addr(bad), "{}", bad);
    }
}

#[test]
fn arp_windows_ipv6_entries() {
    let t = arp_table_snapshot("::1 a-b
::1x a-b
", true);
    assert_eq!(t.entries, vec![("::1".to_string(), "a-b".to_string())]);
}

#[test]
fn enrich_adds_ipv6_arp_hosts() {
    let arp = arp_table_snapshot("::1 a:b
", true);
    let out = enrich_with_arp(Vec::new(), &arp, Some(ip(192, 168, 1, 57)), &oui());
    assert_eq!(out.len(), 1);
    assert_eq!(out[0].ip, "::1");
    assert_eq!(out[0].mac.as_deref(), Some("a:b"));
    assert!(out[0].is_alive);
    assert!(out[0].open_ports.is_empty());
    let out = enrich_with_arp(Vec::new(), &arp, None, &oui());
    assert_eq!(out.len(), 1);
}

#[test]
fn locally_administered_macs() {
    for mac in ["02:00:00:00:00:01", "da-a1-19-00-00-01", "DA:A1:19:00:00:01", "0e:11:22:33:44:55", "fF:ff"] {
        assert!(is_locally_administered(mac), "{}", mac);
    }
    for mac in ["00:11:22:33:44:55", "01:00:5e:00:00:fb", "d8:a1:19:00:00:01", "2:00:00", "", "zz:00", "0211.2233.4455"] {
        assert!(!is_locally_administered(mac), "{}", mac);
    }
    let db = oui();
    // The OUI table comes first; the flag only fills what it does not know.
    assert_eq!(lookup_vendor("aa:bb:cc:00:00:01", &db).as_deref(), Some("Lower Inc"));
    assert_eq!(lookup_vendor("da:a1:19:00:00:01", &db).as_deref(), Some("MAC local (aleatoria)"));
    assert_eq!(lookup_vendor("d8:a1:19:00:00:01", &db), None);
}

#[test]
fn ping_replies_show_a_ttl() {
    let linux = b"PING 192.168.1.1 (192.168.1.1) 56(84) bytes of data.\n64 bytes from 192.168.1.1: icmp_seq=1 ttl=64 time=0.512 ms\n";
    let windows = b"Respuesta desde 192.168.1.1: bytes=32 tiempo<1m TTL=128\r\n";
    let unreachable = b"Respuesta desde 192.168.1.5: Host de destino inaccesible.\r\n";
    let lost = b"1 packets transmitted, 0 received, 100% packet loss, time 0ms\n";
    assert!(ping_answered(linux));
    assert!(ping_answered(windows));
    assert!(ping_answered(b"TtL="));
    assert!(!ping_answered(unreachable));
    assert!(!ping_answered(lost));
    assert!(!ping_answered(b""));
    assert!(!ping_answered(b"ttl 64"));
    assert!(!ping_answered(&[0xff, b't', b't', b'l']));
}

#[test]
fn vendor_ignores_case_separator_and_last_groups() {
    let db = oui();
    let a = lookup_vendor("24-a6-5e-01-02-03", &db);
    assert_eq!(a, lookup_vendor("24:A6:5E:ff:ee:dd", &db));
    assert_eq!(a.as_deref(), Some("Tenda"));
    assert_eq!(lookup_vendor("da-a1-19-00-00-01", &db), lookup_vendor("DA:A1:19:ff:ff:ff", &db));
    assert_eq!(lookup_vendor("d8-a1-19-00-00-01", &db), lookup_vendor("D8:a1:19:ff", &db));
}
