use dismount_iso_qemu::edit::{content_changed, digests_differ, is_listed, is_windows_path};
use dismount_iso_qemu::utils::{
    decimal_string, format_memory_kib, format_seconds_dhms, normalize_windows_path, parse_dominfo, parse_u64,
    resolve_local_path,
};

#[test]
fn backslashes_are_doubled() {
    assert_eq!(normalize_windows_path("C:\\nps.xml"), "C:\\\\nps.xml");
    assert_eq!(normalize_windows_path("/etc/hosts"), "/etc/hosts");
    assert_eq!(normalize_windows_path(""), "");
    assert_eq!(normalize_windows_path("\\\\"), "\\\\\\\\");
}

#[test]
fn durations() {
    assert_eq!(format_seconds_dhms(0), "0s");
    assert_eq!(format_seconds_dhms(59), "59s");
    assert_eq!(format_seconds_dhms(3601), "1h 1s");
    assert_eq!(format_seconds_dhms(93784), "1d 2h 3m 4s");
    assert_eq!(format_seconds_dhms(86400), "1d");
    assert_eq!(format_seconds_dhms(2208813), "25d 13h 33m 33s");
}

#[test]
fn decimals() {
    assert_eq!(decimal_string(0), "0");
    assert_eq!(decimal_string(1234567890), "1234567890");
    assert_eq!(decimal_string(u64::MAX), "18446744073709551615");
}

#[test]
fn u64_parsing() {
    assert_eq!(parse_u64("4194304"), Some(4194304));
    assert_eq!(parse_u64("+12"), Some(12));
    assert_eq!(parse_u64(""), None);
    assert_eq!(parse_u64("+"), None);
    assert_eq!(parse_u64("12a"), None);
    assert_eq!(parse_u64("-1"), None);
    assert_eq!(parse_u64("18446744073709551615"), Some(u64::MAX));
    assert_eq!(parse_u64("18446744073709551616"), None);
}

#[test]
fn dominfo_lines() {
    let text = "Id:             3\nName:           win11\nMax memory:     8388608 KiB\nUsed memory:    4194304 KiB\nCPU time:       613.4s\n";
    let d = parse_dominfo(text);
    assert_eq!(d.max_memory_mb, Some(8388608));
    assert_eq!(d.used_memory_mb, Some(4194304));
    assert_eq!(d.cpu_time.as_deref(), Some("613.4s"));
}

#[test]
fn dominfo_missing_and_unreadable() {
    let d = parse_dominfo("  Max memory: lots\r\nState: shut off\n");
    assert_eq!(d.max_memory_mb, None);
    assert_eq!(d.used_memory_mb, None);
    assert_eq!(d.cpu_time, None);
    let d = parse_dominfo("");
    assert_eq!(d.max_memory_mb, None);
}

#[test]
fn local_paths() {
    assert_eq!(resolve_local_path("  ", "/etc/nginx/nginx.conf"), "nginx.conf");
    assert_eq!(resolve_local_path("", "/"), "");
    assert_eq!(resolve_local_path("/tmp/x", "/etc/hosts"), "/tmp/x");
}

#[test]
fn change_detection() {
    assert!(!content_changed(b"same", b"same"));
    assert!(content_changed(b"before", b"after"));
    assert!(!digests_differ(&vec![1, 2], &vec![1, 2]));
    assert!(digests_differ(&vec![1, 2], &vec![1, 3]));
    assert!(digests_differ(&vec![1], &vec![1, 3]));
}

#[test]
fn local_path_checks() {
    assert!(is_windows_path("C:\\Users\\a"));
    assert!(!is_windows_path("/home/a"));
    assert!(!is_windows_path(""));
    let names = vec![String::from("vm1"), String::from("win11")];
    assert!(is_listed(&names, "win11"));
    assert!(!is_listed(&names, "win"));
}

/// The figure as computed in floating point.
fn memory_by_float(k: u64) -> String {
    let mut bytes = k.saturating_mul(1024u64);
    let units = ["B", "KiB", "MiB", "GiB", "TiB"];
    let mut unit = 0usize;
    while bytes >= 1024 && unit < units.len() - 1 {
        bytes /= 1024;
        unit += 1;
    }
    if unit >= 2 {
        let denom = 1024u64.pow(unit as u32);
        let value = (k as f64 * 1024.0) / (denom as f64);
        format!("{:.1} {}", value, units[unit])
    } else {
        format!("{} {}", bytes, units[unit])
    }
}

#[test]
fn memory_sizes() {
    assert_eq!(format_memory_kib(None), "(unknown)");
    assert_eq!(format_memory_kib(Some(0)), "0 B");
    assert_eq!(format_memory_kib(Some(512)), "512 KiB");
    assert_eq!(format_memory_kib(Some(1023)), "1023 KiB");
    assert_eq!(format_memory_kib(Some(1024)), "1.0 MiB");
    assert_eq!(format_memory_kib(Some(1536)), "1.5 MiB");
    assert_eq!(format_memory_kib(Some(8388608)), "8.0 GiB");
    assert_eq!(format_memory_kib(Some(4194304)), "4.0 GiB");
    assert_eq!(format_memory_kib(Some(1073741824)), "1.0 TiB");
    assert_eq!(format_memory_kib(Some(u64::MAX / 1024 + 1)), "16777216.0 TiB");
}

#[test]
fn memory_sizes_agree_with_float_formatting() {
    let mut k: u64 = 0;
    while k < 3_000_000 {
        assert_eq!(format_memory_kib(Some(k)), memory_by_float(k), "k = {}", k);
        k += 97;
    }
    for k in [1280u64, 1331, 1382, 1126, 1177, 2_621_440, 1_048_576 * 5 / 4, 123_456_789, 1u64 << 40, 1u64 << 52] {
        assert_eq!(format_memory_kib(Some(k)), memory_by_float(k), "k = {}", k);
    }
}
