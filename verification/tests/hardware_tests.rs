use audeep::hardware::{or_unknown, CoreReading, CpuInfo, NetInterface};
use audeep::text::{decimal_string, fill_template};

#[test]
fn unknown_values() {
    assert_eq!(or_unknown(None), "unknown");
    assert_eq!(or_unknown(Some("Linux".to_string())), "Linux");
}

#[test]
fn cpu_from_first_core() {
    let c = CpuInfo::from_cores(
        Some(CoreReading { brand: "Ryzen".to_string(), vendor_id: "AuthenticAMD".to_string(), frequency_mhz: 3600 }),
        Some(8),
        16,
    );
    assert_eq!(c.brand, "Ryzen");
    assert_eq!(c.vendor, "AuthenticAMD");
    assert_eq!(c.frequency_mhz, 3600);
    assert_eq!(c.cores_physical, Some(8));
    assert_eq!(c.cores_logical, 16);
    let c = CpuInfo::from_cores(None, None, 0);
    assert_eq!(c.brand, "unknown");
    assert_eq!(c.vendor, "unknown");
    assert_eq!(c.frequency_mhz, 0);
}

#[test]
fn interfaces_start_without_addresses() {
    let n = NetInterface::new("wlan0".to_string(), "aa:bb".to_string());
    assert_eq!(n.name, "wlan0");
    assert!(n.ips.is_empty());
}

#[test]
fn text_helpers() {
    assert_eq!(decimal_string(0), "0");
    assert_eq!(decimal_string(1234567890123), "1234567890123");
    assert_eq!(fill_template("a{}b{}c", &vec!["1".to_string(), "2".to_string()]), "a1b2c");
    assert_eq!(fill_template("{}{}", &vec!["x".to_string()]), "x");
    assert_eq!(fill_template("{ }", &vec!["x".to_string()]), "{ }");
}
