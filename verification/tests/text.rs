//! Numbers, sizes and times as they are shown.

use shared_target_core::text::{ago, align_right, bytes, number, plural, trim};

/// The size as floating-point arithmetic gives it.
fn by_division(count: u64) -> String {
    let units = ["B", "KiB", "MiB", "GiB", "TiB"];
    let mut size = count as f64;
    let mut unit = 0;
    while size >= 1024.0 && unit < units.len() - 1 {
        size /= 1024.0;
        unit += 1;
    }
    if unit == 0 {
        format!("{count} B")
    } else {
        format!("{size:.1} {}", units[unit])
    }
}

#[test]
fn sizes_have_one_decimal_and_a_unit() {
    assert_eq!(bytes(0), "0 B");
    assert_eq!(bytes(1023), "1023 B");
    assert_eq!(bytes(1024), "1.0 KiB");
    assert_eq!(bytes(1536), "1.5 KiB");
    assert_eq!(bytes(1024 * 1024 - 1), "1024.0 KiB");
    assert_eq!(bytes(2 * 1024 * 1024), "2.0 MiB");
    assert_eq!(bytes(49392123904), "46.0 GiB");
    assert_eq!(bytes(1 << 40), "1.0 TiB");
    assert_eq!(bytes(u64::MAX), "16777216.0 TiB");
}

#[test]
fn sizes_are_what_floating_point_arithmetic_gives() {
    let mut samples: Vec<u64> = Vec::new();
    for shift in 0..64 {
        for offset in 0..40u64 {
            samples.push((1u64 << shift).wrapping_add(offset));
            samples.push((1u64 << shift).wrapping_sub(offset));
            samples.push((1u64 << shift).wrapping_add(offset.wrapping_mul(0x9e37_79b9_7f4a_7c15)));
        }
    }
    // Exactly between two decimals, where the even one is taken.
    for tenths in 0..200u64 {
        samples.push(1024 * tenths / 20);
        samples.push(1024 * 1024 * tenths / 20);
        samples.push(51 + 1024 * tenths);
        samples.push(256 + 512 * tenths);
        samples.push((1 << 30) * tenths / 4);
    }
    let mut state = 1u64;
    for _ in 0..20_000 {
        state = state.wrapping_mul(6364136223846793005).wrapping_add(1442695040888963407);
        samples.push(state);
        samples.push(state >> (state % 64));
    }
    for count in samples {
        assert_eq!(bytes(count), by_division(count), "{count}");
    }
}

#[test]
fn numbers_are_decimal() {
    assert_eq!(number(0), "0");
    assert_eq!(number(10), "10");
    assert_eq!(number(u64::MAX), "18446744073709551615");
}

#[test]
fn a_text_is_moved_to_the_right_edge() {
    assert_eq!(align_right("12", 5), "   12");
    assert_eq!(align_right("12345", 5), "12345");
    assert_eq!(align_right("123456", 5), "123456");
    assert_eq!(align_right("é", 3), "  é");
}

#[test]
fn a_time_is_told_roughly() {
    let now = 1_000_000;
    assert_eq!(ago(now, now + 1), "just now");
    assert_eq!(ago(now, now), "moments ago");
    assert_eq!(ago(now, now - 59), "moments ago");
    assert_eq!(ago(now, now - 60), "1 minutes ago");
    assert_eq!(ago(now, now - 3599), "59 minutes ago");
    assert_eq!(ago(now, now - 3600), "1 hours ago");
    assert_eq!(ago(now, now - 86399), "23 hours ago");
    assert_eq!(ago(now, now - 86400), "1 days ago");
    assert_eq!(ago(now, now - 5 * 86400), "5 days ago");
}

#[test]
fn one_is_not_many() {
    assert_eq!(plural(0, "tree"), "trees");
    assert_eq!(plural(1, "tree"), "tree");
    assert_eq!(plural(2, "tree"), "trees");
}

#[test]
fn white_space_at_either_end_is_taken_off() {
    for text in ["", " ", " a ", "\u{a0}a b\u{3000}\n", "a", "\u{200b}a", "\t\r\n x \u{85}"] {
        assert_eq!(trim(text), text.trim());
    }
    for code in 0..0x11_0000u32 {
        if let Some(c) = char::from_u32(code) {
            assert_eq!(trim(&format!("{c}")), format!("{c}").trim(), "{code:x}");
        }
    }
}
