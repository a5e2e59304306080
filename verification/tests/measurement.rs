use influxdb::decimal::{append_signed, append_unsigned};
use influxdb::measurement::{
    append_integer, payload_of, Field, FieldValue, Measurement, Tag, Timestamp,
};
use influxdb::record::Scalar;
use influxdb::text::same_text;
use std::time::{Duration, SystemTime, UNIX_EPOCH};

fn field<T>(val: T) -> String
where
    T: FieldValue,
{
    let mut s = String::new();
    val.append(&mut s);
    s
}

fn timestamp(val: SystemTime) -> String {
    let mut s = String::new();
    Timestamp::new(&val)
        .expect("Timestamp must come after the UNIX epoch")
        .append(&mut s);
    s
}

#[test]
fn i8_fields_can_be_serialized() {
    assert_eq!(field(-42i8), "-42i");
}

#[test]
fn i16_fields_can_be_serialized() {
    assert_eq!(field(-42i16), "-42i");
}

#[test]
fn i32_fields_can_be_serialized() {
    assert_eq!(field(-42i32), "-42i");
}

#[test]
fn i64_fields_can_be_serialized() {
    assert_eq!(field(-42i64), "-42i");
}

#[test]
fn u8_fields_can_be_serialized() {
    assert_eq!(field(42u8), "42i");
}

#[test]
fn u16_fields_can_be_serialized() {
    assert_eq!(field(42u16), "42i");
}

#[test]
fn u32_fields_can_be_serialized() {
    assert_eq!(field(42u32), "42i");
}

#[test]
fn boolean_fields_can_be_serialized() {
    assert_eq!(field(true), "T");
    assert_eq!(field(false), "F");
}

#[test]
fn timestamps_can_be_serialized() {
    let s = timestamp(SystemTime::now());
    // We don't control the clock, so the best we can do is make
    // sure the timestamp looks to be in about the right format.
    assert!(s.starts_with("1"));
    assert_eq!(s.len(), 19);
}

#[test]
fn f32_fields_can_be_serialized() {
    assert_eq!(field(Scalar::Float(format!("{}", 3.4f32))), "3.4");
}

#[test]
fn f64_fields_can_be_serialized() {
    assert_eq!(field(Scalar::Float(format!("{}", 3.4f64))), "3.4");
}

#[test]
fn the_widest_integers_are_written_in_full() {
    assert_eq!(field(i64::MIN), "-9223372036854775808i");
    assert_eq!(field(i64::MAX), "9223372036854775807i");
    assert_eq!(field(u32::MAX), "4294967295i");
    assert_eq!(field(0u8), "0i");
    assert_eq!(field(-1i8), "-1i");
    assert_eq!(field(10i16), "10i");
    assert_eq!(field(-100i32), "-100i");
}

#[test]
fn decimal_text_is_appended_to_what_is_there() {
    let mut s = String::from("n=");
    append_unsigned(&mut s, 1234567890);
    assert_eq!(s, "n=1234567890");
    append_signed(&mut s, -7);
    assert_eq!(s, "n=1234567890-7");
    append_unsigned(&mut s, u64::MAX);
    assert_eq!(s, "n=1234567890-718446744073709551615");
    append_integer(&mut s, 0);
    assert_eq!(s, "n=1234567890-7184467440737095516150i");
}

#[test]
fn strings_are_quoted_and_not_escaped() {
    assert_eq!(field("plain"), "\"plain\"");
    assert_eq!(field(String::from("a \"b\" \\ c")), "\"a \"b\" \\ c\"");
    assert_eq!(field(""), "\"\"");
}

#[test]
fn references_and_boxes_write_what_they_hold() {
    assert_eq!(field(&42i32), "42i");
    assert_eq!(field(Box::new(true)), "T");
    assert_eq!(field(Scalar::Text(String::from("x"))), "\"x\"");
    assert_eq!(field(Scalar::Integer(-3)), "-3i");
    assert_eq!(field(Scalar::Boolean(false)), "F");
    assert_eq!(payload_of(Box::new("a b=1i")), "a b=1i");
    assert_eq!(payload_of(&String::from("a b=1i")), "a b=1i");
}

#[test]
fn unsigned_scalars_stop_at_32_bits() {
    assert!(matches!(Scalar::unsigned(0), Some(Scalar::Integer(0))));
    assert!(matches!(Scalar::unsigned(4294967295), Some(Scalar::Integer(4294967295))));
    assert!(Scalar::unsigned(4294967296).is_none());
    assert!(Scalar::unsigned(u64::MAX).is_none());
}

#[test]
fn tags_fields_and_timestamps_compose_a_line() {
    let mut v = String::new();
    v.push_str("cpu_load_short");
    v.push_str(",");
    Tag::new("host", "server 03").append(&mut v);
    v.push_str(",");
    Tag::new("region", "us-west").append(&mut v);
    v.push_str(" ");
    Field::new("region", &"us-west").append(&mut v);
    v.push_str(",");
    Field::new("value", &78u8).append(&mut v);
    v.push_str(" ");
    Timestamp::from_parts(1434055562, 1).unwrap().append(&mut v);
    assert_eq!(
        v,
        "cpu_load_short,host=server 03,region=us-west region=\"us-west\",value=78i 1434055562000000001"
    );
}

#[test]
fn timestamps_are_nanoseconds_that_fit_64_bits() {
    assert_eq!(Timestamp::from_parts(0, 0).unwrap().as_nanos(), 0);
    assert_eq!(Timestamp::from_parts(1, 999_999_999).unwrap().as_nanos(), 1_999_999_999);
    assert!(Timestamp::from_parts(0, 1_000_000_000).is_none());
    assert_eq!(
        Timestamp::from_parts(9_223_372_036, 854_775_807).unwrap().as_nanos(),
        i64::MAX
    );
    assert!(Timestamp::from_parts(9_223_372_036, 854_775_808).is_none());
    assert!(Timestamp::from_parts(u64::MAX, 0).is_none());
}

#[test]
fn a_timestamp_needs_a_time_since_the_epoch() {
    assert!(Timestamp::from_elapsed(None).is_none());
    assert_eq!(Timestamp::from_elapsed(Some((2, 3))).unwrap().as_nanos(), 2_000_000_003);
    assert!(Timestamp::from_elapsed(Some((0, 1_000_000_000))).is_none());
    assert!(Timestamp::from_elapsed(Some((9_223_372_037, 0))).is_none());
}

#[test]
fn an_instant_before_the_epoch_has_no_timestamp() {
    let before = UNIX_EPOCH - Duration::new(1, 0);
    assert!(Timestamp::new(&before).is_none());
    let at = Timestamp::new(&UNIX_EPOCH).unwrap();
    assert_eq!(at.as_nanos(), 0);
    let after = UNIX_EPOCH + Duration::new(5, 7);
    assert_eq!(timestamp(after), "5000000007");
}

#[test]
fn a_batch_of_texts_is_one_line_each() {
    let batch = vec!["a v=1i", "b v=2i", "c v=3i"];
    let mut s = String::from(">");
    batch.to_data(&mut s);
    assert_eq!(s, ">a v=1i\nb v=2i\nc v=3i\n");
    let none: Vec<String> = Vec::new();
    assert_eq!(payload_of(none), "");
    assert_eq!(payload_of(&batch[..1]), "a v=1i\n");
}

#[test]
fn texts_are_the_same_when_every_character_is() {
    assert!(same_text("", ""));
    assert!(same_text("tag", "tag"));
    assert!(!same_text("tag", "tags"));
    assert!(!same_text("tags", "tag"));
    assert!(!same_text("tag", "tap"));
    assert!(!same_text("", "a"));
    assert!(same_text("zeit\u{fc}", "zeit\u{fc}"));
    assert!(!same_text("zeit\u{fc}", "zeitu"));
}
