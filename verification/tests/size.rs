use memcloud::size::format_bytes;
use memcloud::size::parse_size;
use memcloud::size::SizeError;

#[test]
fn test_parse_size() {
    assert_eq!(parse_size("100").unwrap(), 100);
    assert_eq!(parse_size("1b").unwrap(), 1);
    assert_eq!(parse_size("1kb").unwrap(), 1024);
    assert_eq!(parse_size("1 kb").unwrap(), 1024);
    assert_eq!(parse_size("1 MB").unwrap(), 1024 * 1024);
    assert_eq!(parse_size("1.5gb").is_err(), true);
    assert_eq!(parse_size("512MB").unwrap(), 512 * 1024 * 1024);
    assert_eq!(parse_size("0").unwrap(), 0);
}

#[test]
fn parse_size_units_are_powers_of_1024() {
    assert_eq!(parse_size("3k").unwrap(), 3 * 1024);
    assert_eq!(parse_size("3m").unwrap(), 3 * 1024 * 1024);
    assert_eq!(parse_size("2g").unwrap(), 2 * 1024 * 1024 * 1024);
    assert_eq!(parse_size("2gb").unwrap(), 2 * 1024 * 1024 * 1024);
    assert_eq!(parse_size("1t").unwrap(), 1024u64 * 1024 * 1024 * 1024);
    assert_eq!(parse_size("1TB").unwrap(), 1024u64 * 1024 * 1024 * 1024);
}

#[test]
fn parse_size_empty_text_is_zero() {
    assert_eq!(parse_size("").unwrap(), 0);
    assert_eq!(parse_size("   ").unwrap(), 0);
}

#[test]
fn parse_size_rejects_text_without_number() {
    assert!(matches!(parse_size("kb"), Err(SizeError::InvalidNumber)));
    assert!(matches!(parse_size("+5"), Err(SizeError::InvalidNumber)));
    assert!(matches!(parse_size("99999999999999999999"), Err(SizeError::InvalidNumber)));
}

#[test]
fn parse_size_rejects_unknown_unit() {
    match parse_size("12 parsecs") {
        Err(SizeError::InvalidSuffix { suffix }) => assert_eq!(suffix, " parsecs"),
        other => panic!("unexpected: {:?}", other),
    }
    assert!(matches!(parse_size("1.5gb"), Err(SizeError::InvalidSuffix { .. })));
}

#[test]
fn parse_size_reports_overflow() {
    assert!(matches!(parse_size("18446744073709551615kb"), Err(SizeError::Overflow)));
    assert_eq!(parse_size("18446744073709551615").unwrap(), u64::MAX);
    assert_eq!(parse_size("16777215tb").unwrap(), 16777215u64 * 1024 * 1024 * 1024 * 1024);
    assert!(matches!(parse_size("16777216tb"), Err(SizeError::Overflow)));
}

const MB: u64 = 1024 * 1024;
const GB: u64 = 1024 * MB;

fn in_floating_point(bytes: u64) -> String {
    if bytes >= GB {
        format!("{:.1} GB", bytes as f64 / GB as f64)
    } else if bytes >= MB {
        format!("{:.1} MB", bytes as f64 / MB as f64)
    } else {
        format!("{} B", bytes)
    }
}

#[test]
fn format_bytes_picks_the_unit() {
    assert_eq!(format_bytes(0), "0 B");
    assert_eq!(format_bytes(1023), "1023 B");
    assert_eq!(format_bytes(MB - 1), "1048575 B");
    assert_eq!(format_bytes(MB), "1.0 MB");
    assert_eq!(format_bytes(MB + MB / 2), "1.5 MB");
    assert_eq!(format_bytes(512 * MB), "512.0 MB");
    assert_eq!(format_bytes(GB - 1), "1024.0 MB");
    assert_eq!(format_bytes(GB), "1.0 GB");
    assert_eq!(format_bytes(10 * GB + GB / 10), "10.1 GB");
    assert_eq!(format_bytes(u64::MAX), "17179869184.0 GB");
}

#[test]
fn format_bytes_rounds_to_the_nearest_tenth_and_ties_to_even() {
    assert_eq!(format_bytes(MB + MB / 4), "1.2 MB");
    assert_eq!(format_bytes(MB + MB / 4 + 1), "1.3 MB");
    assert_eq!(format_bytes(MB + 3 * MB / 4), "1.8 MB");
    assert_eq!(format_bytes(MB + 3 * MB / 4 - 1), "1.7 MB");
    assert_eq!(format_bytes(GB + GB / 4), "1.2 GB");
    assert_eq!(format_bytes(GB + 3 * GB / 4), "1.8 GB");
    assert_eq!(format_bytes(2 * GB - 1), "2.0 GB");
    assert_eq!(format_bytes(9 * GB + 1020 * MB), "10.0 GB");
    for bytes in [MB + MB / 4, MB + 3 * MB / 4, GB + GB / 4, GB + 3 * GB / 4, 2 * GB - 1] {
        assert_eq!(format_bytes(bytes), in_floating_point(bytes));
    }
}

#[test]
fn format_bytes_agrees_with_floating_point_on_every_scale() {
    let mut seed: u64 = 0x9e37_79b9_7f4a_7c15;
    for round in 0..50_000u64 {
        seed = seed.wrapping_mul(6364136223846793005).wrapping_add(1442695040888963407);
        let bytes = seed >> (round % 64);
        assert_eq!(format_bytes(bytes), in_floating_point(bytes), "{}", bytes);
    }
}

#[test]
fn format_bytes_agrees_with_floating_point_around_every_power_of_two() {
    for bit in 0..64u32 {
        let power = 1u64 << bit;
        for near in 0..512u64 {
            for bytes in [power.wrapping_add(near), power.wrapping_sub(near)] {
                assert_eq!(format_bytes(bytes), in_floating_point(bytes), "{}", bytes);
            }
        }
    }
    for near in 0..4096u64 {
        let bytes = u64::MAX - near;
        assert_eq!(format_bytes(bytes), in_floating_point(bytes), "{}", bytes);
    }
}

#[test]
fn format_bytes_agrees_with_floating_point_where_tenths_change() {
    for tenths in 0..20_000u64 {
        for unit in [MB, GB, 4096 * GB, 1 << 53] {
            let edge = (2 * tenths + 1).wrapping_mul(unit) / 20;
            for bytes in [edge.wrapping_sub(1), edge, edge.wrapping_add(1)] {
                assert_eq!(format_bytes(bytes), in_floating_point(bytes), "{}", bytes);
            }
        }
    }
}
