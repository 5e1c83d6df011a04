use aivyx_kvcache::clock::{
    nanos_from_reading, nanos_to_secs, now_nanos, now_secs, secs_from_reading, to_signed,
    to_unsigned,
};
use aivyx_kvcache::json::body_for;
use aivyx_kvcache::order::positions_in_use_order;
use aivyx_kvcache::text::{push_column, push_decimal, push_hex, push_number_column};

#[test]
fn numbers_are_written_in_decimal_and_hexadecimal() {
    for n in [0, 7, 10, 1234, 90_009, u64::MAX as u128, u128::MAX] {
        let mut out = String::from("=");
        push_decimal(&mut out, n);
        assert_eq!(out, format!("={n}"));
    }
    for n in [0, 0xab, 0xcbf2_9ce4_8422_2325, u64::MAX] {
        let mut out = String::from("=");
        push_hex(&mut out, n, 16);
        assert_eq!(out, format!("={n:016x}"));
    }
}

#[test]
fn columns_are_filled_up_and_never_cut() {
    for text in ["", "qwen3.5", "日本", "exactly-fifteen", "longer than the column"] {
        let mut out = String::from("|");
        push_column(&mut out, text, 15);
        assert_eq!(out, format!("|{text:<15}"));
    }
    for n in [0, 99_999, 100_000, u64::MAX] {
        let mut out = String::new();
        push_number_column(&mut out, n, 5);
        assert_eq!(out, format!("{n:<5}"));
    }
}

#[test]
fn request_bodies_are_compact_json() {
    assert_eq!(body_for("p1.slot"), "{\"filename\":\"p1.slot\"}");
    assert_eq!(body_for(""), "{\"filename\":\"\"}");
}

#[test]
fn request_bodies_escape_what_json_has_to_escape() {
    assert_eq!(
        body_for("a\"b\\c/d\u{8}\t\n\u{c}\r\u{0}\u{1f}\u{7f}日"),
        "{\"filename\":\"a\\\"b\\\\c/d\\b\\t\\n\\f\\r\\u0000\\u001f\u{7f}日\"}"
    );
}

#[test]
fn request_bodies_read_back_as_the_filename() {
    let mut all = String::new();
    for code in 0..0x300 {
        all.push(char::from_u32(code).unwrap());
    }
    let body: serde_json::Value = serde_json::from_str(&body_for(&all)).unwrap();
    assert_eq!(body["filename"].as_str(), Some(all.as_str()));
    assert_eq!(body.as_object().unwrap().len(), 1);
}

#[test]
fn stored_integers_keep_their_bits() {
    for x in [0, 1, i64::MAX as u64, i64::MAX as u64 + 1, u64::MAX] {
        assert_eq!(to_signed(x), x as i64);
        assert_eq!(to_unsigned(to_signed(x)), x);
    }
    for y in [i64::MIN, -1, 0, i64::MAX] {
        assert_eq!(to_unsigned(y), y as u64);
        assert_eq!(to_signed(to_unsigned(y)), y);
    }
}

#[test]
fn clock_readings_become_timestamps() {
    assert_eq!(secs_from_reading(None), 0);
    assert_eq!(nanos_from_reading(None), 0);
    assert_eq!(secs_from_reading(Some(1_999_999_999)), 1);
    assert_eq!(nanos_from_reading(Some(1_999_999_999)), 1_999_999_999);
    assert_eq!(nanos_from_reading(Some(u64::MAX as u128)), -1);
    assert_eq!(nanos_from_reading(Some(1 << 64)), 0);
    assert_eq!(secs_from_reading(Some(u64::MAX as u128 * 1_000_000_000)), -1);
    assert_eq!(nanos_to_secs(1_999_999_999), 1);
    assert_eq!(nanos_to_secs(-1), 18_446_744_073);
}

#[test]
fn the_clock_is_read_in_seconds_and_nanoseconds() {
    // Some time in 2020 has passed, and both stamps are of the same present.
    let nanos = now_nanos();
    let secs = now_secs();
    assert!(secs > 1_577_836_800);
    assert!(nanos > 1_577_836_800_000_000_000);
    assert!(secs.abs_diff(nanos / 1_000_000_000) <= 60);
}

#[test]
fn uses_are_ordered_by_stamp_and_then_by_position() {
    assert_eq!(positions_in_use_order(&vec![]), Vec::<usize>::new());
    assert_eq!(positions_in_use_order(&vec![30, 10, 20]), vec![1, 2, 0]);
    assert_eq!(positions_in_use_order(&vec![5, 5, 1, 5, 1]), vec![2, 4, 0, 1, 3]);
    assert_eq!(positions_in_use_order(&vec![i64::MAX, -1, i64::MIN, 0]), vec![2, 1, 3, 0]);
}
