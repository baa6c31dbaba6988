use matrix_fileshare::state::format_bytes;

fn float_formatted(bytes: u64) -> String {
    if bytes < 1024 {
        format!("{} B", bytes)
    } else if bytes < 1024 * 1024 {
        format!("{:.1} KB", bytes as f64 / 1024.0)
    } else if bytes < 1024 * 1024 * 1024 {
        format!("{:.1} MB", bytes as f64 / (1024.0 * 1024.0))
    } else {
        format!("{:.1} GB", bytes as f64 / (1024.0 * 1024.0 * 1024.0))
    }
}

#[test]
fn format_bytes_plain_bytes() {
    assert_eq!(format_bytes(0), "0 B");
    assert_eq!(format_bytes(1), "1 B");
    assert_eq!(format_bytes(1023), "1023 B");
}

#[test]
fn format_bytes_units() {
    assert_eq!(format_bytes(1024), "1.0 KB");
    assert_eq!(format_bytes(1536), "1.5 KB");
    assert_eq!(format_bytes(49152), "48.0 KB");
    assert_eq!(format_bytes(1048575), "1024.0 KB");
    assert_eq!(format_bytes(1048576), "1.0 MB");
    assert_eq!(format_bytes(5 * 1024 * 1024 + 512 * 1024), "5.5 MB");
    assert_eq!(format_bytes(1073741824), "1.0 GB");
    assert_eq!(format_bytes(u64::MAX), "17179869184.0 GB");
}

#[test]
fn format_bytes_rounds_ties_to_even() {
    // 1.25 KB and 1.75 KB are exact ties.
    assert_eq!(format_bytes(1280), "1.2 KB");
    assert_eq!(format_bytes(1792), "1.8 KB");
    assert_eq!(format_bytes(1280), float_formatted(1280));
    assert_eq!(format_bytes(1792), float_formatted(1792));
}

#[test]
fn format_bytes_matches_float_formatting_kb_range() {
    let mut b: u64 = 1000;
    while b < 1024 * 1024 + 100 {
        assert_eq!(format_bytes(b), float_formatted(b), "bytes {}", b);
        b += 7;
    }
}

#[test]
fn format_bytes_matches_float_formatting_mb_range() {
    let mut b: u64 = 1024 * 1024 - 5000;
    while b < 1024 * 1024 * 1024 + 5000 {
        assert_eq!(format_bytes(b), float_formatted(b), "bytes {}", b);
        b += 104_729;
    }
    for k in 0..2000u64 {
        let b = 1024 * 1024 * 1024 - 1000 + k;
        assert_eq!(format_bytes(b), float_formatted(b), "bytes {}", b);
    }
}

#[test]
fn format_bytes_matches_float_formatting_gb_range() {
    let samples: [u64; 12] = [
        1 << 30,
        (1 << 30) + 53_687_091,
        (1 << 30) + 53_687_092,
        3 * (1 << 30) / 2,
        (1 << 53) - 1,
        1 << 53,
        (1 << 53) + 1,
        (1 << 53) + 3,
        (1 << 60) + 12345,
        u64::MAX - 1,
        u64::MAX,
        0x8000_0000_0000_0400,
    ];
    for &b in samples.iter() {
        assert_eq!(format_bytes(b), float_formatted(b), "bytes {}", b);
    }
    let mut x: u64 = 0x9E37_79B9_7F4A_7C15;
    for _ in 0..5000 {
        x ^= x << 13;
        x ^= x >> 7;
        x ^= x << 17;
        let b = x | (1 << 30);
        assert_eq!(format_bytes(b), float_formatted(b), "bytes {}", b);
        let small = (x >> 20) | (1 << 30);
        assert_eq!(format_bytes(small), float_formatted(small), "bytes {}", small);
    }
}
