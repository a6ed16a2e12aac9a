use lanshare::base64::encode;
use lanshare::size::format_size;
use lanshare::text::{contains, decimal_string, starts_with, str_less, trim_end_matches};

fn float_format(size: u64) -> String {
    const UNITS: &[&str] = &["B", "KB", "MB", "GB", "TB"];
    let mut size = size as f64;
    let mut unit_index = 0;
    while size >= 1024.0 && unit_index < UNITS.len() - 1 {
        size /= 1024.0;
        unit_index += 1;
    }
    format!("{:.2} {}", size, UNITS[unit_index])
}

#[test]
fn base64_known_vectors() {
    assert_eq!(encode(b""), "");
    assert_eq!(encode(b"f"), "Zg==");
    assert_eq!(encode(b"fo"), "Zm8=");
    assert_eq!(encode(b"foo"), "Zm9v");
    assert_eq!(encode(b"foob"), "Zm9vYg==");
    assert_eq!(encode(b"fooba"), "Zm9vYmE=");
    assert_eq!(encode(b"foobar"), "Zm9vYmFy");
    assert_eq!(encode(b"Man"), "TWFu");
    assert_eq!(encode(&[0xff, 0xfe, 0xfd]), "//79");
    assert_eq!(encode(&[0xfb, 0xef]), "++8=");
}

#[test]
fn base64_length_is_four_per_started_group() {
    for n in 0..40usize {
        let data: Vec<u8> = (0..n).map(|i| (i * 37 % 256) as u8).collect();
        assert_eq!(encode(&data).len(), 4 * ((n + 2) / 3));
    }
}

#[test]
fn base64_concatenates_at_group_boundaries() {
    let a: Vec<u8> = (0..9u8).collect();
    let b: Vec<u8> = (100..107u8).collect();
    let mut ab = a.clone();
    ab.extend_from_slice(&b);
    assert_eq!(encode(&ab), format!("{}{}", encode(&a), encode(&b)));
}

#[test]
fn format_size_examples() {
    assert_eq!(format_size(0), "0.00 B");
    assert_eq!(format_size(1), "1.00 B");
    assert_eq!(format_size(1023), "1023.00 B");
    assert_eq!(format_size(1024), "1.00 KB");
    assert_eq!(format_size(1536), "1.50 KB");
    assert_eq!(format_size(1048576), "1.00 MB");
    assert_eq!(format_size(1073741824), "1.00 GB");
    assert_eq!(format_size(1099511627776), "1.00 TB");
    assert_eq!(format_size(1048575), "1024.00 KB");
}

#[test]
fn format_size_matches_floating_point_formatting() {
    let mut samples: Vec<u64> = vec![
        0, 1, 9, 10, 99, 100, 1000, 1023, 1024, 1025, 1029, 1152, 1160, 1167, 1168, 1500,
        10_000, 123_456, 1_048_575, 1_048_576, 5_000_000, 1_073_741_823, 1_073_741_824,
        1_099_511_627_775, 1_099_511_627_776, 9_007_199_254_740_991, 9_007_199_254_740_993,
        18_014_398_509_481_983, u64::MAX - 1, u64::MAX,
    ];
    let mut x: u64 = 0x9e37_79b9_7f4a_7c15;
    for _ in 0..20000 {
        x ^= x << 13;
        x ^= x >> 7;
        x ^= x << 17;
        samples.push(x);
        samples.push(x >> (x % 64));
    }
    for k in 1..5u32 {
        let scale = 1u64 << (10 * k);
        for m in 0..3000u64 {
            samples.push(m * scale / 200 + scale);
            samples.push((2 * m + 1) * scale / 200);
        }
    }
    for s in samples {
        assert_eq!(format_size(s), float_format(s), "size {}", s);
    }
}

#[test]
fn text_helpers() {
    assert_eq!(decimal_string(0), "0");
    assert_eq!(decimal_string(8080), "8080");
    assert_eq!(decimal_string(u64::MAX), u64::MAX.to_string());
    assert!(starts_with("127.0.0.1", "127."));
    assert!(!starts_with("12", "127."));
    assert!(contains("mozilla android mobile", "mobile"));
    assert!(!contains("mob", "mobile"));
    assert!(contains("abc", ""));
    assert_eq!(trim_end_matches("a/b///", '/'), "a/b");
    assert_eq!(trim_end_matches("///", '/'), "");
    assert!(str_less("a", "b"));
    assert!(str_less("ab", "abc"));
    assert!(!str_less("abc", "abc"));
    assert!(str_less("Z", "a"));
    assert!(str_less("é", "文"));
}

fn decode_for_test(s: &str) -> Vec<u8> {
    let value = |c: u8| -> u32 {
        match c {
            b'A'..=b'Z' => (c - b'A') as u32,
            b'a'..=b'z' => (c - b'a' + 26) as u32,
            b'0'..=b'9' => (c - b'0' + 52) as u32,
            b'+' => 62,
            b'/' => 63,
            _ => 0,
        }
    };
    let mut out = Vec::new();
    for g in s.as_bytes().chunks(4) {
        let w = (value(g[0]) << 18) | (value(g[1]) << 12) | (value(g[2]) << 6) | value(g[3]);
        out.push((w >> 16) as u8);
        if g[2] != b'=' {
            out.push((w >> 8) as u8);
        }
        if g[3] != b'=' {
            out.push(w as u8);
        }
    }
    out
}

#[test]
fn base64_round_trip_and_distinct_encodings() {
    let mut seen = std::collections::HashSet::new();
    for a in 0..=255u8 {
        for len in 0..4usize {
            let data: Vec<u8> = (0..len).map(|i| a.wrapping_add((i * 91) as u8)).collect();
            let e = encode(&data);
            assert_eq!(decode_for_test(&e), data);
            if seen.contains(&e) {
                assert!(len == 0);
            }
            seen.insert(e);
        }
    }
    let all_pairs: std::collections::HashSet<String> =
        (0..=255u8).flat_map(|x| (0..=255u8).map(move |y| encode(&[x, y]))).collect();
    assert_eq!(all_pairs.len(), 65536);
}
