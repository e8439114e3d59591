use audeep::scanner::{banner_from_bytes, collect_open_ports, common_ports, service_hint, PortResult};

#[test]
fn service_names() {
    assert_eq!(service_hint(22).as_deref(), Some("SSH"));
    assert_eq!(service_hint(445).as_deref(), Some("SMB"));
    assert_eq!(service_hint(8080).as_deref(), Some("HTTP-Proxy"));
    assert_eq!(service_hint(8443).as_deref(), Some("HTTPS-Alt"));
    assert_eq!(service_hint(9999), None);
    for p in common_ports() {
        assert!(service_hint(p).is_some());
    }
}

#[test]
fn common_port_list() {
    let ports = common_ports();
    assert_eq!(ports.len(), 21);
    assert_eq!(ports[0], 21);
    assert_eq!(ports[20], 8443);
}

#[test]
fn probe_results() {
    let p = PortResult::from_probe(22, true, Some("SSH-2.0".to_string()));
    assert_eq!(p.state, "open");
    assert_eq!(p.banner.as_deref(), Some("SSH-2.0"));
    assert_eq!(p.service_hint.as_deref(), Some("SSH"));
    assert!(p.is_open());
    let p = PortResult::from_probe(54321, false, Some("ignored".to_string()));
    assert_eq!(p.state, "closed");
    assert_eq!(p.banner, None);
    assert_eq!(p.service_hint, None);
    assert!(!p.is_open());
}

#[test]
fn banners() {
    assert_eq!(banner_from_bytes(b"  SSH-2.0-OpenSSH_8.9\r\n").as_deref(), Some("SSH-2.0-OpenSSH_8.9"));
    assert_eq!(banner_from_bytes(b""), None);
    assert_eq!(banner_from_bytes(b" \r\n\t "), None);
    let long = vec![b'a'; 300];
    assert_eq!(banner_from_bytes(&long).map(|b| b.len()), Some(200));
    // Invalid UTF-8 becomes U+FFFD.
    assert_eq!(banner_from_bytes(&[b'o', b'k', 0xff]).as_deref(), Some("ok\u{FFFD}"));
}

#[test]
fn open_ports_collected_in_port_order() {
    let rs = vec![
        PortResult::from_probe(443, true, None),
        PortResult::from_probe(22, true, Some("x".to_string())),
        PortResult::from_probe(80, false, None),
        PortResult::from_probe(21, true, None),
    ];
    let out = collect_open_ports(rs);
    assert_eq!(out.iter().map(|p| p.port).collect::<Vec<_>>(), vec![21, 22, 443]);
    assert!(collect_open_ports(Vec::new()).is_empty());
}

#[test]
fn collected_common_ports_strictly_increase() {
    let ports = common_ports();
    let mut results = Vec::new();
    for (i, &p) in ports.iter().enumerate().rev() {
        results.push(PortResult::from_probe(p, i % 3 != 1, None));
    }
    let out = collect_open_ports(results);
    assert!(!out.is_empty());
    for w in out.windows(2) {
        assert!(w[0].port < w[1].port);
    }
    for r in &out {
        assert!(ports.contains(&r.port));
        assert!(r.service_hint.is_some());
        assert_eq!(r.state, "open");
    }
}
