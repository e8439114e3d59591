use audeep::scanner::PortResult;
use audeep::vuln::{check_host, check_port, cve_row, cve_rows, cve_rows_from_json, first_repeated_cve, CveRow, CveSource, looks_like_sqlite, query_fallback, severity_rank, Finding, VulnEntry};

fn entry(cve: &str, severity: &str, service: &str, banners: &[&str], ports: &[u16]) -> VulnEntry {
    VulnEntry {
        cve: cve.to_string(),
        severity: severity.to_string(),
        service: service.to_string(),
        affected: format!("{} afectado", service),
        description: format!("{} descripcion", cve),
        match_banner_contains: banners.iter().map(|s| s.to_string()).collect(),
        match_ports: ports.to_vec(),
        recommendation: "actualizar".to_string(),
    }
}

/// A hand-made database of entries of the kind the shipped one holds (the
/// shipped data files are not part of this repository).
fn fixture_db() -> Vec<VulnEntry> {
    vec![
        entry("CVE-2017-0144", "critica", "SMB", &[], &[445]),
        entry("CVE-2019-0708", "critica", "RDP", &[], &[3389]),
        entry("CVE-2014-0160", "alta", "HTTPS", &["OpenSSL/1.0.1"], &[]),
        entry("CVE-2018-15473", "media", "SSH", &["openssh_7.2", "OpenSSH_7.4"], &[]),
        entry("CVE-2016-6210", "media", "SSH", &["OpenSSH_7.2"], &[22]),
    ]
}

fn port(p: u16, state: &str, banner: Option<&str>, hint: Option<&str>) -> PortResult {
    PortResult {
        port: p,
        state: state.to_string(),
        banner: banner.map(|s| s.to_string()),
        service_hint: hint.map(|s| s.to_string()),
    }
}

#[test]
fn test_ssh_old_banner() {
    let port = PortResult {
        port: 22,
        state: "open".to_string(),
        banner: Some("SSH-2.0-OpenSSH_7.2p2".to_string()),
        service_hint: Some("SSH".to_string()),
    };
    let findings = check_port(&port, &fixture_db());
    assert!(findings.iter().any(|f| f.cve == "CVE-2018-15473"));
}

#[test]
fn test_smb_port() {
    let port = PortResult {
        port: 445,
        state: "open".to_string(),
        banner: None,
        service_hint: Some("SMB".to_string()),
    };
    let findings = check_port(&port, &fixture_db());
    assert!(findings.iter().any(|f| f.cve == "CVE-2017-0144"));
}

#[test]
fn check_port_keeps_database_order_and_fields() {
    let p = port(22, "open", Some("SSH-2.0-OpenSSH_7.2p2 Ubuntu"), Some("SSH"));
    let f = check_port(&p, &fixture_db());
    let cves: Vec<&str> = f.iter().map(|x| x.cve.as_str()).collect();
    assert_eq!(cves, vec!["CVE-2018-15473", "CVE-2016-6210"]);
    assert_eq!(f[0].port, 22);
    assert_eq!(f[0].severity, "media");
    assert_eq!(f[0].service, "SSH");
    assert_eq!(f[0].banner.as_deref(), Some("SSH-2.0-OpenSSH_7.2p2 Ubuntu"));
    assert_eq!(f[0].description, "CVE-2018-15473 descripcion");
    assert_eq!(f[0].recommendation, "actualizar");
}

#[test]
fn check_port_needs_both_port_and_banner_when_both_listed() {
    // CVE-2016-6210 lists port 22 and a banner: the banner alone is not enough.
    let p = port(2222, "open", Some("SSH-2.0-OpenSSH_7.2"), Some("SSH"));
    let f = check_port(&p, &fixture_db());
    let cves: Vec<&str> = f.iter().map(|x| x.cve.as_str()).collect();
    assert_eq!(cves, vec!["CVE-2018-15473"]);
}

#[test]
fn check_port_service_must_match_for_port_only_entries() {
    // Port 445 with another service name still matches SMB entries.
    let p = port(445, "open", None, Some("Other"));
    assert_eq!(check_port(&p, &fixture_db()).len(), 1);
    // An entry for port 8080 of service "WEB" does not apply to "HTTP-Proxy".
    let db = vec![entry("CVE-X", "baja", "WEB", &[], &[8080])];
    let p = port(8080, "open", None, Some("HTTP-Proxy"));
    assert!(check_port(&p, &db).is_empty());
    let db = vec![entry("CVE-Y", "baja", "HTTP-Proxy", &[], &[8080])];
    assert_eq!(check_port(&p, &db).len(), 1);
}

#[test]
fn check_port_entry_without_criteria_never_applies() {
    let db = vec![entry("CVE-Z", "alta", "ANY", &[], &[])];
    let p = port(80, "open", Some("anything"), Some("HTTP"));
    assert!(check_port(&p, &db).is_empty());
}

#[test]
fn check_port_rdp_special_case() {
    let p = port(3389, "open", None, None);
    let f = check_port(&p, &fixture_db());
    assert_eq!(f.len(), 1);
    assert_eq!(f[0].cve, "CVE-2019-0708");
}

#[test]
fn severity_ranks() {
    assert_eq!(severity_rank("critica"), 4);
    assert_eq!(severity_rank("alta"), 3);
    assert_eq!(severity_rank("media"), 2);
    assert_eq!(severity_rank("baja"), 1);
    assert_eq!(severity_rank("CRITICA"), 0);
    assert_eq!(severity_rank(""), 0);
}

#[test]
fn check_host_orders_dedups_and_skips_closed_ports() {
    let mut db = fixture_db();
    // A second entry with the same CVE: the finding on a port is kept once.
    db.push(entry("CVE-2018-15473", "media", "SSH", &["SSH-2.0"], &[]));
    let ports = vec![
        port(22, "open", Some("SSH-2.0-OpenSSH_7.2p2"), Some("SSH")),
        port(3389, "closed", None, Some("RDP")),
        port(445, "open", None, Some("SMB")),
        port(443, "open", Some("Apache OpenSSL/1.0.1e"), Some("HTTPS")),
    ];
    let f = check_host(&ports, &db);
    let got: Vec<(String, u16)> = f.iter().map(|x| (x.cve.clone(), x.port)).collect();
    assert_eq!(
        got,
        vec![
            ("CVE-2017-0144".to_string(), 445),
            ("CVE-2014-0160".to_string(), 443),
            ("CVE-2016-6210".to_string(), 22),
            ("CVE-2018-15473".to_string(), 22),
        ]
    );
}

#[test]
fn check_host_same_cve_on_two_ports_kept_in_port_order() {
    let db = vec![entry("CVE-A", "alta", "X", &["banner"], &[])];
    let ports = vec![port(80, "open", Some("banner"), None), port(21, "open", Some("banner"), None)];
    let f: Vec<Finding> = check_host(&ports, &db);
    assert_eq!(f.iter().map(|x| x.port).collect::<Vec<_>>(), vec![80, 21]);
}

#[test]
fn check_host_empty() {
    assert!(check_host(&[], &fixture_db()).is_empty());
}

#[test]
fn from_row_decodes_json_lists() {
    let e = VulnEntry::from_row(
        "CVE-1".to_string(),
        "alta".to_string(),
        "SSH".to_string(),
        "a".to_string(),
        "d".to_string(),
        "[\"OpenSSH_7\",\"dropbear\"]",
        "[22,2222]",
        "r".to_string(),
    );
    assert_eq!(e.match_banner_contains, vec!["OpenSSH_7".to_string(), "dropbear".to_string()]);
    assert_eq!(e.match_ports, vec![22, 2222]);
    assert_eq!(e.cve, "CVE-1");
    assert_eq!(e.recommendation, "r");
}

#[test]
fn from_row_invalid_json_gives_empty_lists() {
    let e = VulnEntry::from_row(
        "CVE-1".to_string(),
        "alta".to_string(),
        "SSH".to_string(),
        "a".to_string(),
        "d".to_string(),
        "not json",
        "[70000]",
        "r".to_string(),
    );
    assert!(e.match_banner_contains.is_empty());
    assert!(e.match_ports.is_empty());
}

#[test]
fn sqlite_header_check() {
    let mut bytes = b"SQLite format 3\0".to_vec();
    bytes.resize(100, 0);
    assert!(looks_like_sqlite(&bytes));
    assert!(!looks_like_sqlite(&bytes[..99]));
    let mut other = bytes.clone();
    other[0] = b'X';
    assert!(!looks_like_sqlite(&other));
}

#[test]
fn query_fallback_filters_on_quoted_term() {
    let r = query_fallback("SELECT * FROM vulnerabilities WHERE service='ssh'", fixture_db());
    assert_eq!(r.iter().map(|e| e.cve.as_str()).collect::<Vec<_>>(), vec!["CVE-2018-15473", "CVE-2016-6210"]);
    let r = query_fallback("select * from vulnerabilities where cve='2017'", fixture_db());
    assert_eq!(r.iter().map(|e| e.cve.as_str()).collect::<Vec<_>>(), vec!["CVE-2017-0144"]);
    let r = query_fallback("SELECT * FROM vulnerabilities", fixture_db());
    assert_eq!(r.len(), 5);
    // Without quotes the term is empty and every entry holds it.
    let r = query_fallback("SELECT * WHERE x", fixture_db());
    assert_eq!(r.len(), 5);
}

#[test]
fn check_host_ignores_ports_that_are_not_open() {
    let db = fixture_db();
    let ports = vec![
        port(445, "closed", None, Some("SMB")),
        port(22, "open", Some("SSH-2.0-OpenSSH_7.2p2"), Some("SSH")),
        port(3389, "filtered", None, Some("RDP")),
        port(445, "open", None, Some("SMB")),
    ];
    let open: Vec<PortResult> = ports.iter().filter(|p| p.state == "open").cloned().collect();
    let keys = |fs: Vec<Finding>| -> Vec<(String, u16, String)> {
        fs.into_iter().map(|f| (f.cve, f.port, f.severity)).collect()
    };
    let all = keys(check_host(&ports, &db));
    assert_eq!(all, keys(check_host(&open, &db)));
    assert_eq!(all.len(), 3);
    let closed = vec![port(445, "closed", None, Some("SMB")), port(3389, "timeout", None, Some("RDP"))];
    assert!(check_host(&closed, &db).is_empty());
}

#[test]
fn cve_rows_apply_defaults() {
    let text = r#"[
        {"cve": "CVE-1", "severity": "alta", "service": "SSH", "affected": "a", "description": "d",
         "match_banner_contains": ["OpenSSH_7.2", "x y"], "match_ports": [22, 2222], "recommendation": "r"},
        {"cve": "CVE-2", "severity": 3, "match_ports": null},
        "not an object",
        {}
    ]"#;
    let rows = cve_rows_from_json(text).unwrap();
    assert_eq!(rows.len(), 4);
    let r = &rows[0];
    assert_eq!(
        (r.cve.as_str(), r.severity.as_str(), r.service.as_str(), r.affected.as_str(), r.description.as_str()),
        ("CVE-1", "alta", "SSH", "a", "d")
    );
    assert_eq!(r.match_banner_contains, "[\"OpenSSH_7.2\",\"x y\"]");
    assert_eq!(r.match_ports, "[22,2222]");
    assert_eq!(r.recommendation, "r");
    assert_eq!(rows[1].cve, "CVE-2");
    assert_eq!(rows[1].severity, "");
    assert_eq!(rows[1].match_banner_contains, "[]");
    assert_eq!(rows[1].match_ports, "null");
    for r in &rows[2..] {
        assert_eq!(r.cve, "");
        assert_eq!(r.match_banner_contains, "[]");
        assert_eq!(r.match_ports, "[]");
    }
    assert!(cve_rows_from_json("{\"cve\": \"x\"}").is_none());
    assert!(cve_rows_from_json("not json").is_none());
    assert_eq!(cve_rows_from_json("[]").unwrap().len(), 0);
}

#[test]
fn cve_row_of_an_empty_source() {
    let e = CveSource {
        cve: None, severity: None, service: None, affected: None, description: None,
        recommendation: Some("rec".to_string()), banner_json: None, ports_json: Some("[1]".to_string()),
    };
    let r = cve_row(&e);
    assert_eq!(r.cve, "");
    assert_eq!(r.match_banner_contains, "[]");
    assert_eq!(r.match_ports, "[1]");
    assert_eq!(r.recommendation, "rec");
    assert_eq!(cve_rows(&vec![e]).len(), 1);
}

fn row(cve: &str) -> CveRow {
    cve_rows_from_json(&format!("[{{\"cve\": \"{}\"}}]", cve)).unwrap().remove(0)
}

#[test]
fn repeated_cve_ids() {
    assert_eq!(first_repeated_cve(&vec![]), None);
    assert_eq!(first_repeated_cve(&vec![row("A"), row("B"), row("C")]), None);
    assert_eq!(first_repeated_cve(&vec![row("A"), row("B"), row("C"), row("B"), row("A")]), Some(3));
    assert_eq!(first_repeated_cve(&vec![row(""), row("")]), Some(1));
}
