use bonk::size::human_size;

#[test]
fn test_human_size_bytes() {
    assert_eq!(human_size(0), "0.0 B");
    assert_eq!(human_size(512), "512.0 B");
    assert_eq!(human_size(1023), "1023.0 B");
}

#[test]
fn test_human_size_kilobytes() {
    assert_eq!(human_size(1024), "1.0 KB");
    assert_eq!(human_size(1536), "1.5 KB");
}

#[test]
fn test_human_size_megabytes() {
    assert_eq!(human_size(1024 * 1024), "1.0 MB");
    assert_eq!(human_size(1024 * 1024 * 2), "2.0 MB");
}

#[test]
fn test_human_size_gigabytes() {
    assert_eq!(human_size(1024 * 1024 * 1024), "1.0 GB");
}

/// The same computation done with floating point.
fn float_human_size(bytes: usize) -> String {
    let units = ["B", "KB", "MB", "GB", "TB"];
    let mut size = bytes as f64;
    let mut unit = units[0];
    for u in units.iter() {
        unit = u;
        if size < 1024.0 {
            break;
        }
        size /= 1024.0;
    }
    format!("{:.1} {}", size, unit)
}

#[test]
fn human_size_terabytes_and_beyond() {
    assert_eq!(human_size(1usize << 40), "1.0 TB");
    // at 1024 TB and above the walk over the units divides a fifth time
    // and still labels the value TB
    assert_eq!(human_size(1usize << 50), "1.0 TB");
    assert_eq!(human_size(1usize << 60), "1024.0 TB");
    assert_eq!(human_size(usize::MAX), float_human_size(usize::MAX));
}

#[test]
fn human_size_rounds_ties_to_even() {
    // 1280 bytes are exactly 1.25 KB
    assert_eq!(human_size(1280), float_human_size(1280));
    assert_eq!(human_size(1280), "1.2 KB");
    // 1.75 KB
    assert_eq!(human_size(1792), "1.8 KB");
}

#[test]
fn human_size_agrees_with_float_formatting() {
    let mut samples: Vec<usize> = Vec::new();
    for i in 0..5000usize {
        samples.push(i);
        samples.push(i * 97 + 1000);
        samples.push(i * 104_857 + 1_000_000);
        samples.push(i.wrapping_mul(1_099_511_627_777).wrapping_add(12345));
    }
    for shift in 0..64u32 {
        let base = 1usize << shift;
        for d in 0..40usize {
            samples.push(base.wrapping_add(d));
            samples.push(base.wrapping_sub(d));
            samples.push(base.wrapping_add(base / 2).wrapping_add(d));
            samples.push(base.wrapping_add(base / 20).wrapping_sub(d));
        }
    }
    // values exactly halfway between two tenths in each unit
    for k in 0..5u32 {
        let scale = 1usize << (10 * k);
        for t in 0..200usize {
            samples.push(((2 * t + 1) * scale) / 20);
        }
    }
    for b in samples {
        assert_eq!(human_size(b), float_human_size(b), "bytes: {b}");
    }
}
