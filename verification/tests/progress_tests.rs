use mine_autobackup::progress::{
    archive_directory_entry, archive_entry_name, format_bytes, progress_label, upload_progress_label,
};

fn reference_format_bytes(bytes: u64) -> String {
    const UNITS: [&str; 4] = ["B", "KB", "MB", "GB"];
    let mut value = bytes as f64;
    let mut unit = 0;
    while value >= 1024.0 && unit < UNITS.len() - 1 {
        value /= 1024.0;
        unit += 1;
    }
    if unit == 0 || value >= 10.0 {
        format!("{value:.0} {}", UNITS[unit])
    } else {
        format!("{value:.1} {}", UNITS[unit])
    }
}

#[test]
fn format_bytes_examples() {
    assert_eq!(format_bytes(0), "0 B");
    assert_eq!(format_bytes(1023), "1023 B");
    assert_eq!(format_bytes(1024), "1.0 KB");
    assert_eq!(format_bytes(1536), "1.5 KB");
    assert_eq!(format_bytes(10 * 1024), "10 KB");
    assert_eq!(format_bytes(5 * 1024 * 1024 * 1024), "5.0 GB");
    assert_eq!(format_bytes(2048 * 1024 * 1024 * 1024), "2048 GB");
}

#[test]
fn format_bytes_whole_units() {
    assert_eq!(format_bytes(12 * 1024 * 1024), "12 MB");
    assert_eq!(format_bytes(1000 * 1024), "1000 KB");
}

#[test]
fn format_bytes_agrees_with_float_formatting() {
    let mut values: Vec<u64> = (0..20000).collect();
    for k in 0..64 {
        let p = 1u64 << k;
        values.extend([p.wrapping_sub(1), p, p.wrapping_add(1), p / 2 * 3]);
    }
    for u in [1u64, 1024, 1 << 20, 1 << 30] {
        for tenths in 0..200u64 {
            values.push(u * tenths / 10);
            values.push(u * tenths / 20);
            values.push(u * tenths / 40 + u / 80);
        }
    }
    let mut x: u64 = 0x9E3779B97F4A7C15;
    for _ in 0..20000 {
        x = x.wrapping_mul(6364136223846793005).wrapping_add(1442695040888963407);
        values.push(x);
        values.push(x >> (x % 64));
    }
    values.extend([u64::MAX, u64::MAX - 1, (1u64 << 53) + 1, (1u64 << 54) + 3, 9007199254740993 * 1024]);
    for v in values {
        assert_eq!(format_bytes(v), reference_format_bytes(v), "bytes {}", v);
    }
}

#[test]
fn progress_label_examples() {
    assert_eq!(progress_label("World/region/r.0.0.mca"), "Compactando World / r.0.0.mca");
    assert_eq!(progress_label("World\\db\\000003.log"), "Compactando World / 000003.log");
    assert_eq!(progress_label("level.dat"), "Compactando level.dat");
    assert_eq!(progress_label("World/"), "Compactando World");
    assert_eq!(progress_label("World/World"), "Compactando World");
    assert_eq!(progress_label(""), "Compactando ");
    assert_eq!(progress_label("/a"), "Compactando  / a");
}

#[test]
fn archive_entries() {
    assert_eq!(archive_entry_name("World\\region\\r.0.0.mca"), "World/region/r.0.0.mca");
    assert_eq!(archive_directory_entry("World/region"), Some("World/region/".to_string()));
    assert_eq!(archive_directory_entry(""), None);
}

#[test]
fn upload_label() {
    assert_eq!(upload_progress_label(1536, 10 * 1024 * 1024), "Enviando 1.5 KB de 10 MB");
}
