use audeep::hardware::NetInterface;
use audeep::network::HostInfo;
use audeep::report::{
    console_line, count_vulnerabilities, disks_html, host_row, html_escape, interfaces_html,
    render_report, sensors_html, tally_keys, top_keys, DiskRow, PageFacts, SensorRow,
};
use audeep::scanner::PortResult;
use audeep::vuln::Finding;

fn finding(cve: &str, sev: &str, port: u16) -> Finding {
    Finding {
        cve: cve.to_string(),
        severity: sev.to_string(),
        port,
        service: "SMB".to_string(),
        banner: None,
        description: "desc <x>".to_string(),
        recommendation: "r".to_string(),
    }
}

fn sample_host() -> HostInfo {
    HostInfo {
        ip: "192.168.1.10".to_string(),
        hostname: Some("NAS".to_string()),
        mac: Some("00:11:22:33:44:55".to_string()),
        vendor: Some("Acme & Co".to_string()),
        is_alive: true,
        open_ports: vec![
            PortResult::from_probe(22, true, Some("SSH-2.0<x>".to_string())),
            PortResult::from_probe(9999, true, None),
        ],
        latency_ms: Some(12),
        vulnerabilities: vec![finding("CVE-2017-0144", "critica", 445)],
        mdns_names: vec!["nas.local".to_string(), "a<b".to_string()],
        ssdp_location: Some("http://x/\"y\"".to_string()),
    }
}

fn bare_host(ip: &str, vendor: Option<&str>) -> HostInfo {
    HostInfo {
        ip: ip.to_string(),
        hostname: None,
        mac: None,
        vendor: vendor.map(|v| v.to_string()),
        is_alive: true,
        open_ports: Vec::new(),
        latency_ms: None,
        vulnerabilities: Vec::new(),
        mdns_names: Vec::new(),
        ssdp_location: None,
    }
}

#[test]
fn escaping() {
    assert_eq!(html_escape("<a href=\"x\">&</a>"), "&lt;a href=&quot;x&quot;&gt;&amp;&lt;/a&gt;");
    assert_eq!(html_escape("&lt;"), "&amp;lt;");
    assert_eq!(html_escape("plain"), "plain");
    assert_eq!(html_escape(""), "");
    let e = html_escape("<<>>\"\"&");
    assert!(!e.contains('<') && !e.contains('>') && !e.contains('"'));
}

#[test]
fn host_row_html() {
    let row = host_row(&sample_host());
    let expected = "<tr data-ip='192.168.1.10' data-hostname='nas' data-vendor='acme &amp; co' data-sev='critica'>\
<td>192.168.1.10</td><td>NAS</td><td>00:11:22:33:44:55</td><td>Acme &amp; Co</td><td>12 ms</td>\
<td><span class='tag'>22 (SSH) open<br><small>SSH-2.0&lt;x&gt;</small></span> <span class='tag'>9999 open</span></td>\
<td><span class='tag' style='border-color:#ef4444'><b>CVE-2017-0144</b> <span style='color:#ef4444'>critica</span> :445<br><small>desc &lt;x&gt;</small></span></td>\
<td>nas.local<br>a&lt;b</td><td>http://x/&quot;y&quot;</td></tr>";
    assert_eq!(row, expected);
}

#[test]
fn host_row_of_bare_host() {
    let row = host_row(&bare_host("10.0.0.1", None));
    assert_eq!(
        row,
        "<tr data-ip='10.0.0.1' data-hostname='' data-vendor='—' data-sev=''><td>10.0.0.1</td><td>—</td><td>—</td><td>—</td><td>—</td><td><span class='muted'>ninguno (o filtrado)</span></td><td><span class='muted'>—</span></td><td>—</td><td>—</td></tr>"
    );
}

#[test]
fn machine_tables() {
    let disks = vec![
        DiskRow {
            name: "sda1".to_string(),
            mount_point: "/".to_string(),
            file_system: "ext4".to_string(),
            available_gb: "10.5".to_string(),
            total_gb: "100.0".to_string(),
            is_removable: false,
        },
        DiskRow {
            name: "usb".to_string(),
            mount_point: "/media/u".to_string(),
            file_system: "vfat".to_string(),
            available_gb: "1.0".to_string(),
            total_gb: "8.0".to_string(),
            is_removable: true,
        },
    ];
    assert_eq!(
        disks_html(&disks),
        "<tr><td>sda1</td><td>/</td><td>ext4</td><td>10.5 / 100.0 GB</td><td>fijo</td></tr>\n<tr><td>usb</td><td>/media/u</td><td>vfat</td><td>1.0 / 8.0 GB</td><td>extraíble</td></tr>"
    );
    let ifaces = vec![NetInterface::new("eth0".to_string(), "00:11:22:33:44:55".to_string())];
    assert_eq!(interfaces_html(&ifaces), "<tr><td>eth0</td><td>00:11:22:33:44:55</td></tr>");
    assert_eq!(interfaces_html(&Vec::new()), "");
    assert_eq!(
        sensors_html(&Vec::new()),
        "<tr><td colspan='4' class='muted'>No se detectaron sensores (normal en Windows/VM)</td></tr>"
    );
    let sensors = vec![
        SensorRow { label: "cpu".to_string(), temperature_c: "45.0".to_string(), max_c: "50.5".to_string(), critical_c: Some("90.0".to_string()) },
        SensorRow { label: "gpu".to_string(), temperature_c: "40.0".to_string(), max_c: "41.0".to_string(), critical_c: None },
    ];
    assert_eq!(
        sensors_html(&sensors),
        "<tr><td>cpu</td><td>45.0°C</td><td>50.5°C</td><td>90.0°C</td></tr>\n<tr><td>gpu</td><td>40.0°C</td><td>41.0°C</td><td>—</td></tr>"
    );
}

fn keys(v: &[&str]) -> Vec<Vec<char>> {
    v.iter().map(|s| s.chars().collect()).collect()
}

fn text(v: &Vec<(Vec<char>, usize)>) -> Vec<(String, usize)> {
    v.iter().map(|(k, c)| (k.iter().collect(), *c)).collect()
}

#[test]
fn tallies() {
    let k = keys(&["b", "a", "b", "c", "a", "b"]);
    assert_eq!(text(&tally_keys(&k)), vec![("b".to_string(), 3), ("a".to_string(), 2), ("c".to_string(), 1)]);
    let k = keys(&["x", "y", "z", "y"]);
    assert_eq!(text(&top_keys(&k, 2)), vec![("y".to_string(), 2), ("x".to_string(), 1)]);
    assert_eq!(top_keys(&k, 0).len(), 0);
    assert!(tally_keys(&Vec::new()).is_empty());
}

#[test]
fn totals() {
    let hosts = vec![sample_host(), bare_host("10.0.0.2", None), sample_host()];
    assert_eq!(count_vulnerabilities(&hosts), 2);
    assert_eq!(count_vulnerabilities(&Vec::new()), 0);
}

#[test]
fn console_lines() {
    assert_eq!(
        console_line(&sample_host()),
        "  - 192.168.1.10 NAS | MAC 00:11:22:33:44:55 | vendor Acme & Co | 12 ms | puertos: 22(SSH), 9999 | vulns: CVE-2017-0144(critica) | mdns: nas.local,a<b | ssdp: http://x/\"y\""
    );
    assert_eq!(
        console_line(&bare_host("10.0.0.1", None)),
        "  - 10.0.0.1  | MAC - | vendor - | - ms | puertos: ninguno"
    );
}

fn facts(hosts_json: &str) -> PageFacts {
    PageFacts {
        generated_at: "2024-01-02 03:04:05 UTC".to_string(),
        local_subnet: None,
        total_hosts_alive: 3,
        total_vulnerabilities: 1,
        duration_secs: "12.3".to_string(),
        hostname: "me<".to_string(),
        os_name: "Linux".to_string(),
        os_version: "6".to_string(),
        kernel_version: "6.1".to_string(),
        cpu_brand: "CPU".to_string(),
        cpu_vendor: "Vendor".to_string(),
        cores_physical: None,
        cores_logical: 8,
        frequency_mhz: 3000,
        mem_used_gb: "1.0".to_string(),
        mem_total_gb: "2.0".to_string(),
        mem_available_gb: "1.0".to_string(),
        uptime_secs: 99,
        load_one: "0.10".to_string(),
        load_five: "0.20".to_string(),
        load_fifteen: "0.30".to_string(),
        disks: Vec::new(),
        interfaces: Vec::new(),
        sensors: Vec::new(),
        oui_count: 40,
        cve_count: 7,
        hosts_json: hosts_json.to_string(),
    }
}

#[test]
fn report_page() {
    let hosts = vec![sample_host(), bare_host("10.0.0.2", Some("Tenda")), bare_host("10.0.0.3", None)];
    let html = render_report(&facts("[{\"x\":\"</script>\"}]"), &hosts);
    assert!(html.starts_with("<!DOCTYPE html>"));
    assert!(html.contains("Generado: 2024-01-02 03:04:05 UTC · Subred: no detectada · Hosts: 3 · Vulns: 1 · Duración: 12.3s"));
    assert!(html.contains("<h2>// Hardware — me&lt;</h2>"));
    assert!(html.contains("0 núcleos físicos / 8 lógicos @ 3000 MHz"));
    assert!(html.contains("Puertos escaneados: 21, 22, 23, 25, 53, 80, 110, 135, 139, 143, 443, 445, 993, 995, 1723, 3306, 3389, 5432, 5900, 8080, 8443"));
    assert!(html.contains("const HOSTS=[{\"x\":\"<\\/script>\"}];"));
    assert!(html.contains("const VENDOR_LABELS=\"Acme &amp; Co|Tenda|Desconocido\""));
    assert!(html.contains("const VENDOR_VALS=\"1,1,1\""));
    assert!(html.contains("const PORT_LABELS=\"22,9999\""));
    assert!(html.contains("const SEV=[1,0,0,0];"));
    assert!(html.contains("<span class=\"badge bCrit\">Crítica 1</span>"));
    assert!(html.contains("OUI 40 · cve.db 7"));
    assert!(html.contains("<div class=\"num\" style=\"color:#a78bfa\">3</div>"));
    assert!(html.ends_with("</html>\n"));
    assert_eq!(html.matches("</script>").count(), 1);
}

fn unescape(t: &str) -> String {
    t.replace("&lt;", "<").replace("&gt;", ">").replace("&quot;", "\"").replace("&amp;", "&")
}

#[test]
fn unescaping_gives_the_text_back() {
    for s in ["", "plain", "<a href=\"x\">&</a>", "&lt;", "&amp;lt;&quot;", "&&<<>>\"\"", "x&gt;y", "é<ü>&"] {
        assert_eq!(unescape(&html_escape(s)), s);
    }
}

#[test]
fn script_placeholders_inside_host_data_are_filled_too() {
    // The chart values are put in place after the host data, so a placeholder
    // name inside the data is filled as well: with a vendor named "/script",
    // the data "<__VENDOR_LABELS__>" becomes a second closing script tag.
    let hosts = vec![bare_host("10.0.0.2", Some("/script"))];
    let html = render_report(&facts("[\"<__VENDOR_LABELS__>\"]"), &hosts);
    assert!(html.contains("const HOSTS=[\"</script>\"];"));
    assert_eq!(html.matches("</script>").count(), 2);
}
