use qnap::info::{build_info, firmware_compat_note, info_pairs, parse_uptime, Uptime};

const SYSINFO: &str = r#"<QDocRoot version="1.0">
<modelName><![CDATA[TS-228A]]></modelName>
<hostname><![CDATA[NAS-TEST]]></hostname>
<serial_number><![CDATA[Q123456789]]></serial_number>
<version><![CDATA[5.2.4]]></version>
<build><![CDATA[20250326]]></build>
<uptime_day><![CDATA[12]]></uptime_day>
<uptime_hour><![CDATA[7]]></uptime_hour>
<uptime_min><![CDATA[45]]></uptime_min>
<uptime_sec><![CDATA[9]]></uptime_sec>
</QDocRoot>"#;

#[test]
fn test_firmware_compat_note_modern() {
    assert!(firmware_compat_note("5.2.6").is_none());
    assert!(firmware_compat_note("4.3.0").is_none());
    assert!(firmware_compat_note("4.5.0").is_none());
}

#[test]
fn test_firmware_compat_note_old() {
    assert!(firmware_compat_note("4.2.6").is_some());
    assert!(firmware_compat_note("3.8.0").is_some());
}

#[test]
fn test_firmware_compat_note_empty() {
    assert!(firmware_compat_note("").is_none());
}

#[test]
fn fixture_sysinfo_firmware_is_supported() {
    let info = build_info(SYSINFO);
    let version = info.firmware.unwrap_or_default();
    assert!(
        firmware_compat_note(&version).is_none(),
        "fixture firmware {} triggered compat warning",
        version
    );
}

#[test]
fn firmware_compat_note_text() {
    assert_eq!(
        firmware_compat_note("4.2").unwrap(),
        "firmware 4.2 is older than QTS 4.3 — some commands may not work correctly\n  Run `qnap dump ./debug/` and open a GitHub issue if you encounter problems."
    );
}

#[test]
fn firmware_compat_note_skips_unreadable_segments() {
    // "x" is skipped, so 4 becomes the major version and the minor is 0
    assert!(firmware_compat_note("x.4.9").is_some());
    assert!(firmware_compat_note("4").is_some());
    assert!(firmware_compat_note("0.1").is_none());
    assert!(firmware_compat_note("5").is_none());
    assert!(firmware_compat_note("4.3").is_none());
    // " 4" is not a number, so "2" becomes the major version
    assert!(firmware_compat_note(" 4.2").is_some());
}

#[test]
fn build_info_reads_fields() {
    let info = build_info(SYSINFO);
    assert_eq!(info.model.as_deref(), Some("TS-228A"));
    assert_eq!(info.serial.as_deref(), Some("Q123456789"));
    assert_eq!(info.timezone, None);
    let up = info.uptime.unwrap();
    assert_eq!(up, Uptime { days: 12, hours: 7, minutes: 45, seconds: 9 });
}

#[test]
fn uptime_display_and_total() {
    let up = parse_uptime(SYSINFO).unwrap();
    assert_eq!(up.display(), "12d 7h 45m");
    assert_eq!(up.total_seconds(), 12 * 86400 + 7 * 3600 + 45 * 60 + 9);
    let huge = Uptime { days: u64::MAX, hours: 0, minutes: 0, seconds: 0 };
    assert_eq!(huge.total_seconds(), u64::MAX);
}

#[test]
fn parse_uptime_needs_day() {
    assert_eq!(parse_uptime("<uptime_hour>3</uptime_hour>"), None);
    assert_eq!(
        parse_uptime("<uptime_day>1</uptime_day><uptime_min>x</uptime_min>"),
        Some(Uptime { days: 1, hours: 0, minutes: 0, seconds: 0 })
    );
}

#[test]
fn info_pairs_in_order() {
    let info = build_info(SYSINFO);
    let pairs = info_pairs(&info);
    let keys: Vec<&str> = pairs.iter().map(|(k, _)| k.as_str()).collect();
    assert_eq!(keys, vec!["model", "hostname", "serial", "firmware", "build", "uptime"]);
    assert_eq!(pairs[5].1, "12d 7h 45m");
}
