use win_toolkit::operation::sfc_scannow;
use win_toolkit::sandbox::SandboxConfig;
use win_toolkit::{format_bytes, format_uptime, CommandSpec, DriveInfo, SystemInfo};
use win_toolkit::{Elevation, Risk, APP_SLUG, APP_TITLE};

#[test]
fn identity_constants_are_stable() {
    assert_eq!(APP_SLUG, "win-toolkit");
    assert_eq!(APP_TITLE, "Windows Toolkit");
}

#[test]
fn classification_enums_compare_by_value() {
    assert_eq!(Elevation::Administrator, Elevation::Administrator);
    assert_ne!(Risk::ReadOnly, Risk::High);
}

#[test]
fn sfc_is_an_elevated_uninterruptible_command() {
    let op = sfc_scannow();
    assert_eq!(op.elevation, Elevation::Administrator);
    assert!(!op.cancelable);
    assert_eq!(op.command, CommandSpec::new("sfc", &["/scannow"]));
}

#[test]
fn sfc_describes_itself() {
    let op = sfc_scannow();
    assert_eq!(op.id, "sfc-scannow");
    assert_eq!(op.risk, Risk::High);
    assert_eq!(op.duration_hint, "Usually 5-15 minutes");
    assert!(op.description.contains("cannot be safely interrupted"));
}

#[test]
fn renders_enable_disable_flags_and_memory() {
    let config = SandboxConfig {
        memory_mb: 8192,
        vgpu: true,
        networking: false,
    };
    let wsb = config.to_wsb();
    assert!(wsb.contains("<VGpu>Enable</VGpu>"));
    assert!(wsb.contains("<Networking>Disable</Networking>"));
    assert!(wsb.contains("<MemoryInMB>8192</MemoryInMB>"));
}

#[test]
fn default_sandbox_document_is_exact() {
    let config = SandboxConfig::default();
    assert_eq!(
        config.to_wsb(),
        "<Configuration>\n  <VGpu>Disable</VGpu>\n  <Networking>Enable</Networking>\n  \
         <MemoryInMB>4096</MemoryInMB>\n</Configuration>\n"
    );
}

#[test]
fn bytes_use_binary_units() {
    assert_eq!(format_bytes(512), "512 B");
    assert_eq!(format_bytes(1024), "1.0 KiB");
    assert_eq!(format_bytes(1536), "1.5 KiB");
    assert_eq!(format_bytes(16 * 1024 * 1024 * 1024), "16.0 GiB");
}

#[test]
fn bytes_edge_values() {
    assert_eq!(format_bytes(0), "0 B");
    assert_eq!(format_bytes(1023), "1023 B");
    assert_eq!(format_bytes(1280), "1.2 KiB");
    assert_eq!(format_bytes(3840), "3.8 KiB");
    assert_eq!(format_bytes(1024 * 1024 - 1), "1024.0 KiB");
    assert_eq!(format_bytes(1u64 << 40), "1.0 TiB");
    assert_eq!(format_bytes(u64::MAX), "16777216.0 TiB");
}

/// The same display computed with `f64` division and `{:.1}` formatting.
fn float_reference(bytes: u64) -> String {
    const UNITS: [&str; 5] = ["B", "KiB", "MiB", "GiB", "TiB"];
    let mut value = bytes as f64;
    let mut unit = 0;
    while value >= 1024.0 && unit < UNITS.len() - 1 {
        value /= 1024.0;
        unit += 1;
    }
    if unit == 0 {
        format!("{bytes} B")
    } else {
        format!("{value:.1} {}", UNITS[unit])
    }
}

#[test]
fn bytes_agree_with_floating_point_formatting() {
    let mut samples: Vec<u64> = Vec::new();
    for n in 0..5000u64 {
        samples.push(n);
        samples.push(n * 256);
        samples.push(n * 1024 * 1024 + 524_288);
        samples.push(n * 51 * 1024 * 1024 * 1024 + 123_456_789);
    }
    let mut x: u64 = 0x9E37_79B9_7F4A_7C15;
    for _ in 0..20000 {
        x ^= x << 13;
        x ^= x >> 7;
        x ^= x << 17;
        samples.push(x);
        samples.push(x >> 20);
        samples.push(x >> 40);
        samples.push((1u64 << 53) + (x >> 11));
    }
    for shift in 0..64 {
        let p = 1u64 << shift;
        samples.push(p);
        samples.push(p - 1);
        samples.push(p + 1);
        samples.push(p + (p >> 1));
        samples.push(p + (p >> 2));
        samples.push(p + 3 * (p >> 2));
    }
    samples.push(u64::MAX);
    samples.push(u64::MAX - 1024);
    for bytes in samples {
        assert_eq!(format_bytes(bytes), float_reference(bytes), "bytes = {bytes}");
    }
}

#[test]
fn uptime_drops_leading_zero_units() {
    assert_eq!(format_uptime(90), "1m");
    assert_eq!(format_uptime(3 * 3600 + 5 * 60), "3h 5m");
    assert_eq!(format_uptime(2 * 86_400 + 3600), "2d 1h 0m");
}

#[test]
fn uptime_edge_values() {
    assert_eq!(format_uptime(0), "0m");
    assert_eq!(format_uptime(59), "0m");
    assert_eq!(format_uptime(86_399), "23h 59m");
    assert_eq!(format_uptime(86_400), "1d 0h 0m");
    assert_eq!(format_uptime(u64::MAX), "213503982334601d 7h 0m");
}

#[test]
fn uptime_parts_add_back_up() {
    for seconds in [0u64, 59, 61, 3599, 3600, 90061, 1_000_000] {
        let days = seconds / 86_400;
        let hours = (seconds % 86_400) / 3_600;
        let minutes = (seconds % 3_600) / 60;
        assert_eq!(days * 86_400 + hours * 3_600 + minutes * 60 + seconds % 60, seconds);
        assert!(hours < 24 && minutes < 60);
    }
}

fn sample_info() -> SystemInfo {
    SystemInfo {
        os_name: "Windows 11 Pro".to_owned(),
        os_build: "26100.1".to_owned(),
        computer_name: "PC".to_owned(),
        system_model: "ACME Box".to_owned(),
        uptime: "1h 0m".to_owned(),
        cpu: "Test CPU".to_owned(),
        logical_cpus: 8,
        gpus: vec!["Test GPU".to_owned()],
        total_memory: 16 * 1024 * 1024 * 1024,
        available_memory: 8 * 1024 * 1024 * 1024,
        drives: vec![DriveInfo {
            name: r"C:\".to_owned(),
            total: 1024,
            free: 512,
        }],
    }
}

#[test]
fn report_lists_drives() {
    let info = sample_info();
    let report = info.to_report();
    assert!(report.contains("Windows 11 Pro (build 26100.1)"));
    assert!(report.contains("GPU:       Test GPU"));
    assert!(report.contains(r"C:\ 512 B free of 1.0 KiB"));
}

#[test]
fn report_is_exact() {
    let info = sample_info();
    assert_eq!(
        info.to_report(),
        "Windows Toolkit - system report\n\n\
         OS:        Windows 11 Pro (build 26100.1)\n\
         Machine:   PC\n\
         Model:     ACME Box\n\
         Uptime:    1h 0m\n\
         CPU:       Test CPU (8 logical processors)\n\
         GPU:       Test GPU\n\
         Memory:    8.0 GiB free of 16.0 GiB\n\
         Drives:\n  C:\\ 512 B free of 1.0 KiB\n"
    );
}

#[test]
fn report_omits_an_empty_model() {
    let report = SystemInfo::default().to_report();
    assert_eq!(
        report,
        "Windows Toolkit - system report\n\n\
         OS:         (build )\n\
         Machine:   \n\
         Uptime:    \n\
         CPU:        (0 logical processors)\n\
         Memory:    0 B free of 0 B\n\
         Drives:\n"
    );
}
