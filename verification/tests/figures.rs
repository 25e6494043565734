use rustypac::figures::{
    align_right, center, count_tenths, format_bytes, format_duration, format_speed,
    format_transfer, percentage, progress_bar, write_quotient,
};
use rustypac::numbers::{parse_number, write_decimal};
use rustypac::progress::Duration;

fn samples() -> Vec<u64> {
    let mut all = vec![0, 1, 5, 9, 10, 999, 1_023, 1_024, 1_075, 1_076, 1_280, 1_331, 1_332];
    for shift in 0..64 {
        let power: u64 = 1 << shift;
        for offset in 0..6 {
            all.push(power.wrapping_add(offset));
            all.push(power.wrapping_sub(offset));
        }
        all.push(power + power / 4);
        all.push(power + power / 20);
    }
    let mut value: u64 = 88_172_645_463_325_252;
    for _ in 0..4_000 {
        value ^= value << 13;
        value ^= value >> 7;
        value ^= value << 17;
        all.push(value >> (value % 60));
    }
    all.push(u64::MAX);
    all
}

#[test]
fn quotients_are_rounded_as_with_double_precision() {
    for number in samples() {
        for divisor in [1u64, 1 << 10, 1 << 20, 1 << 30] {
            assert_eq!(
                write_quotient(number, divisor),
                format!("{:.1}", number as f64 / divisor as f64),
                "{number} / {divisor}"
            );
        }
    }
}

#[test]
fn ties_go_to_the_even_tenth() {
    assert_eq!(count_tenths(1_280, 1_024), 12);
    assert_eq!(count_tenths(1_792, 1_024), 18);
    assert_eq!(write_quotient(1_280, 1_024), "1.2");
    assert_eq!(write_quotient(1_792, 1_024), "1.8");
}

#[test]
fn sizes_have_their_units() {
    for (bytes, size, speed) in [
        (0, "0 B", "0B/s"),
        (1_023, "1023 B", "1023B/s"),
        (1_024, "1.0 KiB", "1.0KiB/s"),
        (1_048_575, "1024.0 KiB", "1024.0KiB/s"),
        (1_048_576, "1.0 MiB", "1.0MiB/s"),
        (10_800_333, "10.3 MiB", "10.3MiB/s"),
        (1_073_741_824, "1.0 GiB", "1.0GiB/s"),
    ] {
        assert_eq!(format_bytes(bytes), size);
        assert_eq!(format_speed(bytes), speed);
    }
    assert_eq!(format_transfer(5, 10), "5.0 / 10.0 B");
    assert_eq!(format_transfer(512, 2_048), "0.5 / 2.0 KiB");
    assert_eq!(format_transfer(2_048, 512), "2.0 / 0.5 KiB");
}

#[test]
fn spans_of_time_are_clocks() {
    for (seconds, expected) in [
        (0, "00:00"),
        (59, "00:59"),
        (61, "01:01"),
        (3_599, "59:59"),
        (3_600, "01:00:00"),
        (360_000, "100:00:00"),
    ] {
        assert_eq!(format_duration(Duration::from_secs(seconds)), expected);
    }
}

#[test]
fn shares_are_whole_percents() {
    assert_eq!(percentage(1, Some(3)), "33%");
    assert_eq!(percentage(u64::MAX, Some(u64::MAX)), "100%");
    assert_eq!(percentage(7, None), "N/A");
    assert_eq!(progress_bar(1, Some(2)), "██████████░░░░░░░░░░");
}

#[test]
fn fields_are_aligned_by_characters() {
    assert_eq!(align_right("ab", 4), "  ab");
    assert_eq!(align_right("abcde", 4), "abcde");
    assert_eq!(center("ab", 5), " ab  ");
    assert_eq!(center("ab", 1), "ab");
    assert_eq!(center("▐▐", 4), " ▐▐ ");
}

#[test]
fn numbers_are_read_as_they_are_written() {
    for value in samples() {
        assert_eq!(write_decimal(value), value.to_string());
        assert_eq!(parse_number(&value.to_string(), u64::MAX), Some(value));
    }
    for field in ["", "+", "-1", "1a", " 1", "18446744073709551616", "99999999999999999999999"] {
        assert_eq!(parse_number(field, u64::MAX), None, "{field:?}");
        assert_eq!(field.parse::<u64>().ok(), None);
    }
    assert_eq!(parse_number("+007", u64::MAX), Some(7));
    assert_eq!(parse_number("4294967296", u32::MAX as u64), None);
    assert_eq!(parse_number("4294967295", u32::MAX as u64), Some(4_294_967_295));
    assert_eq!(parse_number("5", 3), None);
}

#[test]
fn milliseconds_are_kept() {
    let span = Duration::from_millis(2_100);
    assert_eq!((span.secs, span.nanos), (2, 100_000_000));
    assert!(span.is_a_second_after(Duration::from_millis(1_100)));
    assert!(!span.is_a_second_after(Duration::from_millis(1_101)));
}
