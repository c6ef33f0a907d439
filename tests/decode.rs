use hdd::attr::{bool_to_flag, parse_smart_values, DecodeError};
use hdd::drivedb::DriveDB;
use hdd::parser::parse_database;
use hdd::raw::{decode_raw, read, reorder, RawValue};
use hdd::vendor_attribute::parse;

fn put_slot(table: &mut Vec<u8>, slot: usize, bytes: [u8; 12]) {
    let o = 2 + 12 * slot;
    table[o..o + 12].copy_from_slice(&bytes);
}

fn sample_tables() -> (Vec<u8>, Vec<u8>) {
    let mut data = vec![0u8; 512];
    let mut thresh = vec![0u8; 512];
    // id 1: pre-fail, online; value 100, worst 99; raw 0x000000010203
    put_slot(&mut data, 0, [1, 0x03, 0x00, 100, 99, 0x03, 0x02, 0x01, 0, 0, 0, 0]);
    // unused slot in between
    put_slot(&mut data, 1, [0, 0xff, 0xff, 1, 2, 3, 4, 5, 6, 7, 8, 9]);
    // id 9: raw minutes 0x0000_0000_05a0 = 1440
    put_slot(&mut data, 2, [9, 0x32, 0x01, 97, 97, 0xa0, 0x05, 0, 0, 0, 0, 0]);
    // id 194: temperature 35, min 20, max 45
    put_slot(&mut data, 3, [194, 0x22, 0, 65, 50, 35, 0, 20, 0, 45, 0, 0]);
    put_slot(&mut thresh, 0, [1, 6, 0, 0, 0, 0, 0, 0, 0, 0, 0, 0]);
    put_slot(&mut thresh, 5, [194, 0, 0, 0, 0, 0, 0, 0, 0, 0, 0, 0]);
    (data, thresh)
}

#[test]
fn decode_wrong_lengths() {
    let (data, thresh) = sample_tables();
    let short = vec![0u8; 511];
    let long = vec![0u8; 513];
    assert_eq!(parse_smart_values(&short, &thresh, &None).unwrap_err(), DecodeError::InvalidLength);
    assert_eq!(parse_smart_values(&data, &short, &None).unwrap_err(), DecodeError::InvalidLength);
    assert_eq!(parse_smart_values(&long, &thresh, &None).unwrap_err(), DecodeError::InvalidLength);
    assert_eq!(parse_smart_values(&vec![], &vec![], &None).unwrap_err(), DecodeError::InvalidLength);
}

#[test]
fn decode_skips_unused_slots_generic() {
    let (data, thresh) = sample_tables();
    let attrs = parse_smart_values(&data, &thresh, &None).unwrap();
    assert_eq!(attrs.len(), 3);
    assert_eq!(attrs[0].id, 1);
    assert_eq!(attrs[1].id, 9);
    assert_eq!(attrs[2].id, 194);
    assert!(attrs.iter().all(|a| a.id != 0 && a.name.is_none()));
    assert_eq!(attrs[0].raw, RawValue::Int(0x010203));
    assert_eq!(attrs[1].raw, RawValue::Int(1440));
    assert_eq!(attrs[0].value, Some(100));
    assert_eq!(attrs[0].worst, Some(99));
}

#[test]
fn decode_flags() {
    let (data, thresh) = sample_tables();
    let attrs = parse_smart_values(&data, &thresh, &None).unwrap();
    let a = &attrs[0];
    assert!(a.pre_fail && a.online);
    assert!(!a.performance && !a.error_rate && !a.event_count && !a.self_preserving);
    assert_eq!(a.flags, 0);
    let b = &attrs[1];
    assert!(!b.pre_fail && b.online && b.event_count && b.self_preserving);
    assert_eq!(b.flags, 0x0100);
    assert_eq!(bool_to_flag(b.online, 'O'), 'O');
    assert_eq!(bool_to_flag(b.pre_fail, 'P'), '-');
}

#[test]
fn decode_thresholds_by_id() {
    let (data, thresh) = sample_tables();
    let attrs = parse_smart_values(&data, &thresh, &None).unwrap();
    assert_eq!(attrs[0].thresh, Some(6));
    assert_eq!(attrs[1].thresh, None);
    assert_eq!(attrs[2].thresh, Some(0));
}

#[test]
fn decode_with_resolved_rules() {
    let (data, thresh) = sample_tables();
    let db = DriveDB::new(
        parse_database(r#"{ "F", "M", "", "", "-v 9,min2hour,Power_On_Minutes -v 194,tempminmax,Temperature_Celsius" }"#)
            .unwrap(),
    );
    let meta = db.render_meta("M", "X", None, &vec![parse("1,raw64,Raw_Read_Error_Rate").unwrap()]);
    let attrs = parse_smart_values(&data, &thresh, &Some(meta)).unwrap();
    assert_eq!(attrs[0].name, Some("Raw_Read_Error_Rate".to_string()));
    // raw64 reads "543210wv": value and worst are part of the raw value
    assert_eq!(attrs[0].value, None);
    assert_eq!(attrs[0].worst, None);
    assert_eq!(attrs[0].raw, RawValue::Int(0x01_0203_6364));
    assert_eq!(attrs[1].raw, RawValue::Minutes(1440, 0));
    assert_eq!(attrs[1].value, Some(97));
    assert_eq!(attrs[2].raw, RawValue::TemperatureRange(35, 20, 45));
    assert_eq!(attrs[2].name, Some("Temperature_Celsius".to_string()));
}

#[test]
fn decode_value_in_byte_order() {
    let (data, thresh) = sample_tables();
    let db = DriveDB::empty();
    let meta = db.render_meta("M", "X", None, &vec![parse("9,raw48:v10").unwrap()]);
    let attrs = parse_smart_values(&data, &thresh, &Some(meta)).unwrap();
    assert_eq!(attrs[1].value, None);
    assert_eq!(attrs[1].worst, Some(97));
    assert_eq!(attrs[1].raw, RawValue::Int(0x6105a0));
}

#[test]
fn reorder_selects_bytes() {
    let slot = [7u8, 1, 2, 0x11, 0x22, 0xa0, 0xa1, 0xa2, 0xa3, 0xa4, 0xa5, 0xee];
    assert_eq!(reorder(&slot, "543210"), vec![0xa5, 0xa4, 0xa3, 0xa2, 0xa1, 0xa0]);
    assert_eq!(reorder(&slot, "wv_r"), vec![0x22, 0x11, 0, 0xee]);
    assert_eq!(reorder(&slot, ""), Vec::<u8>::new());
    assert_eq!(reorder(&slot, "r543210"), reorder(&slot, "r543210"));
}

#[test]
fn read_big_endian() {
    assert_eq!(read(&[1, 2, 3, 4], 32), 0x01020304);
    assert_eq!(read(&[1, 2, 3, 4], 16), 0x0102);
    assert_eq!(read(&[0xff; 8], 64), u64::MAX);
    assert_eq!(read(&[], 0), 0);
}

#[test]
fn raw_formats_exact() {
    let slot = [9u8, 0, 0, 0x11, 0x22, 0x01, 0x02, 0x03, 0x04, 0x05, 0x06, 0x07];
    let rule = |s: &str| Some(parse(s).unwrap());
    assert_eq!(decode_raw(&slot, &None), RawValue::Int(0x060504030201));
    assert_eq!(decode_raw(&slot, &rule("9,raw8")), RawValue::Bytes(6, 5, 4, 3, 2, 1));
    assert_eq!(decode_raw(&slot, &rule("9,raw16")), RawValue::Words(0x0605, 0x0403, 0x0201));
    assert_eq!(decode_raw(&slot, &rule("9,hex48")), RawValue::Hex(0x060504030201, 12));
    assert_eq!(decode_raw(&slot, &rule("9,raw56")), RawValue::Int(0x07060504030201));
    assert_eq!(decode_raw(&slot, &rule("9,hex64")), RawValue::Hex(0x0605040302012211, 16));
    assert_eq!(decode_raw(&slot, &rule("9,raw16(raw16)")), RawValue::WordExtra(0x0201, 0x0605, 0x0403));
    assert_eq!(decode_raw(&slot, &rule("9,raw16(avg16)")), RawValue::WordAverage(0x0201, 0x0403));
    assert_eq!(decode_raw(&slot, &rule("9,raw24(raw8)")), RawValue::Int24Extra(0x030201, 6, 5, 4));
    assert_eq!(decode_raw(&slot, &rule("9,raw24/raw24")), RawValue::Ratio(0x060504, 0x030201));
    assert_eq!(decode_raw(&slot, &rule("9,raw24/raw32")), RawValue::Ratio(0x070605, 0x04030201));
    assert_eq!(decode_raw(&slot, &rule("9,min2hour")), RawValue::Minutes(0x04030201, 0x0605));
    assert_eq!(decode_raw(&slot, &rule("9,sec2hour")), RawValue::Seconds(0x060504030201));
    assert_eq!(decode_raw(&slot, &rule("9,halfmin2hour")), RawValue::HalfMinutes(0x060504030201));
    assert_eq!(decode_raw(&slot, &rule("9,msec24hour32")), RawValue::MsecHours(0x04030201, 0x070605));
    assert_eq!(decode_raw(&slot, &rule("9,temp10x")), RawValue::Temp10x(0x0201));
    assert_eq!(decode_raw(&slot, &rule("9,tempminmax")), RawValue::TemperatureRange(1, 3, 5));
    assert_eq!(decode_raw(&slot, &rule("9,raw48:01")), RawValue::Int(0x0102));
}

#[test]
fn raw_temperature_without_range() {
    let slot = [194u8, 0, 0, 0, 0, 41, 0, 0, 0, 0, 0, 0];
    let rule = Some(parse("194,tempminmax").unwrap());
    assert_eq!(decode_raw(&slot, &rule), RawValue::Temperature(41));
}

#[test]
fn raw_unusable_byte_order_falls_back() {
    let slot = [9u8, 0, 0, 0x11, 0x22, 0x01, 0x02, 0x03, 0x04, 0x05, 0x06, 0x07];
    let mut a = parse("9,raw48").unwrap();
    a.byte_order = String::new();
    assert_eq!(decode_raw(&slot, &Some(a.clone())), RawValue::Int(0x060504030201));
    a.byte_order = "0123456789".to_string();
    // tokens 6 to 9 are pads; the leading eight bytes make the number
    assert_eq!(decode_raw(&slot, &Some(a)), RawValue::Int(0x0102030405060000));
}

#[test]
fn decode_long_byte_orders_follow_the_rule() {
    let (data, thresh) = sample_tables();
    let db = DriveDB::empty();
    let nine_v = db.render_meta("M", "X", None, &vec![parse("9,raw48:vvvvvvvvv").unwrap()]);
    let attrs = parse_smart_values(&data, &thresh, &Some(nine_v)).unwrap();
    assert_eq!(attrs[1].value, None);
    assert_eq!(attrs[1].worst, Some(97));
    assert_eq!(attrs[1].raw, RawValue::Int(0x6161_6161_6161_6161));
    let nine_w = db.render_meta("M", "X", None, &vec![parse("9,raw48:wwwwwwwww").unwrap()]);
    let attrs = parse_smart_values(&data, &thresh, &Some(nine_w)).unwrap();
    assert_eq!(attrs[1].value, Some(97));
    assert_eq!(attrs[1].worst, None);
    let zeros = db.render_meta("M", "X", None, &vec![parse("9,raw64:000000000").unwrap()]);
    let attrs = parse_smart_values(&data, &thresh, &Some(zeros)).unwrap();
    assert_eq!(attrs[1].value, Some(97));
    assert_eq!(attrs[1].worst, Some(97));
    assert_eq!(attrs[1].raw, RawValue::Int(0xa0a0_a0a0_a0a0_a0a0));
}

#[test]
fn read_wider_than_64_bits() {
    assert_eq!(read(&[0xff, 1, 2, 3, 4, 5, 6, 7, 8], 72), 0x0102030405060708);
    assert_eq!(read(&[1, 2, 3], 20), 0x0102);
}

#[test]
fn raw_text_per_format() {
    assert_eq!(RawValue::Int(0).text(), "0");
    assert_eq!(RawValue::Int(1234567).text(), "1234567");
    assert_eq!(RawValue::Int(u64::MAX).text(), "18446744073709551615");
    assert_eq!(RawValue::Bytes(0, 0, 3, 2, 1, 255).text(), "0 0 3 2 1 255");
    assert_eq!(RawValue::Words(1, 0, 65535).text(), "1 0 65535");
    assert_eq!(RawValue::Hex(0xabc, 12).text(), "0x000000000abc");
    assert_eq!(RawValue::Hex(0x0605040302012211, 16).text(), "0x0605040302012211");
    assert_eq!(RawValue::WordExtra(5, 0, 0).text(), "5");
    assert_eq!(RawValue::WordExtra(5, 1, 2).text(), "5 (1 2)");
    assert_eq!(RawValue::WordAverage(7, 0).text(), "7");
    assert_eq!(RawValue::WordAverage(7, 9).text(), "7 (Average 9)");
    assert_eq!(RawValue::Int24Extra(100, 0, 0, 0).text(), "100");
    assert_eq!(RawValue::Int24Extra(100, 1, 0, 3).text(), "100 (1 0 3)");
    assert_eq!(RawValue::Ratio(3, 40).text(), "3/40");
    assert_eq!(RawValue::Minutes(1441, 0).text(), "24h+01m");
    assert_eq!(RawValue::Minutes(59, 2).text(), "0h+59m (2)");
    assert_eq!(RawValue::Seconds(3725).text(), "1h+02m+05s");
    assert_eq!(RawValue::HalfMinutes(245).text(), "2h+02m");
    assert_eq!(RawValue::MsecHours(12, 61_005).text(), "12h+01m+01.005s");
    assert_eq!(RawValue::Temperature(41).text(), "41");
    assert_eq!(RawValue::TemperatureRange(35, 20, 45).text(), "35 (Min/Max 20/45)");
    assert_eq!(RawValue::Temp10x(357).text(), "35.7");
}

#[test]
fn raw_comparable_number() {
    assert_eq!(RawValue::Int(77).number(), Some(77));
    assert_eq!(RawValue::Minutes(1441, 3).number(), Some(1441));
    assert_eq!(RawValue::TemperatureRange(35, 20, 45).number(), Some(35));
    assert_eq!(RawValue::Ratio(3, 40).number(), None);
    assert_eq!(RawValue::Bytes(1, 2, 3, 4, 5, 6).number(), None);
}
