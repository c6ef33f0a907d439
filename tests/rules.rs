use hdd::vendor_attribute::{parse, Attribute, ParseError, RawFormat, Type};

#[test]
fn rule_with_order_and_name() {
    let a = parse("9,min2hour:543210,Power_On_Minutes").unwrap();
    assert_eq!(a.id, Some(9));
    assert_eq!(a.name, Some("Power_On_Minutes".to_string()));
    assert_eq!(a.format, RawFormat::Min2Hour);
    assert_eq!(a.byte_order, "543210".to_string());
    assert_eq!(a.drivetype, None);
}

#[test]
fn rule_default_byte_orders() {
    assert_eq!(parse("5,raw48").unwrap().byte_order, "543210");
    assert_eq!(parse("5,raw64").unwrap().byte_order, "543210wv");
    assert_eq!(parse("5,hex56").unwrap().byte_order, "r543210");
    assert_eq!(parse("240,msec24hour32").unwrap().byte_order, "r543210");
    assert_eq!(parse("190,tempminmax").unwrap().name, None);
}

#[test]
fn rule_with_drive_type() {
    let a = parse("170,raw48,Available_Reservd_Space,SSD").unwrap();
    assert_eq!(a.drivetype, Some(Type::SSD));
    assert_eq!(a.name, Some("Available_Reservd_Space".to_string()));
    let b = parse("3,raw16(avg16),Spin_Up_Time,HDD").unwrap();
    assert_eq!(b.drivetype, Some(Type::HDD));
    assert_eq!(b.format, RawFormat::Raw16OptAvg16);
}

#[test]
fn rule_empty_name_is_none() {
    let a = parse("1,raw24/raw32,").unwrap();
    assert_eq!(a.name, None);
    assert_eq!(a.format, RawFormat::Raw24DivRaw32);
}

#[test]
fn rule_largest_and_smallest_id() {
    assert_eq!(parse("255,raw8").unwrap().id, Some(255));
    assert_eq!(parse("0,raw8").unwrap().id, Some(0));
    assert_eq!(parse("007,raw8").unwrap().id, Some(7));
}

#[test]
fn rule_bad_id() {
    assert_eq!(parse("256,raw48"), Err(ParseError::BadId));
    assert_eq!(parse("x,raw48"), Err(ParseError::BadId));
    assert_eq!(parse(",raw48"), Err(ParseError::BadId));
    assert_eq!(parse("1000,raw48"), Err(ParseError::BadId));
    assert_eq!(parse(""), Err(ParseError::BadId));
}

#[test]
fn rule_bad_format() {
    assert_eq!(parse("9"), Err(ParseError::BadFormat));
    assert_eq!(parse("9,minutez"), Err(ParseError::BadFormat));
    assert_eq!(parse("8,minutes"), Err(ParseError::BadFormat));
    assert_eq!(parse("9,"), Err(ParseError::BadFormat));
    assert_eq!(parse("9,RAW48"), Err(ParseError::BadFormat));
}

#[test]
fn rule_bad_byte_order() {
    assert_eq!(parse("9,raw48:"), Err(ParseError::BadByteOrder));
    assert_eq!(parse("9,raw48:__"), Err(ParseError::BadByteOrder));
    assert_eq!(parse("9,raw48:xyz"), Err(ParseError::BadByteOrder));
    assert_eq!(parse("9,raw48:,Name"), Err(ParseError::BadByteOrder));
}

#[test]
fn rule_trailing_text() {
    assert_eq!(parse("9,raw48,Name,XYZ"), Err(ParseError::Trailing));
    assert_eq!(parse("9,raw48,Name,HDD,"), Err(ParseError::Trailing));
}

#[test]
fn rule_padded_byte_order() {
    let a = parse("188,raw48:__10,Command_Timeout").unwrap();
    assert_eq!(a.byte_order, "__10");
    assert_eq!(a.name, Some("Command_Timeout".to_string()));
}

#[test]
fn rule_copy_is_identical() {
    let a: Attribute = parse("9,sec2hour,Power_On_Seconds").unwrap();
    assert_eq!(a.duplicate(), a);
    assert_eq!(a.format.name(), "sec2hour");
}

#[test]
fn rule_legacy_shorthands() {
    let a = parse("9,minutes").unwrap();
    assert_eq!(a.id, Some(9));
    assert_eq!(a.name, Some("Power_On_Minutes".to_string()));
    assert_eq!(a.format, RawFormat::Min2Hour);
    assert_eq!(a.byte_order, "543210");
    assert_eq!(a.drivetype, None);
    let b = parse("194,10xCelsius").unwrap();
    assert_eq!(b.format, RawFormat::Temp10x);
    assert_eq!(b.name, Some("Temperature_Celsius_x10".to_string()));
    let c = parse("193,loadunload").unwrap();
    assert_eq!(c.format, RawFormat::Raw24DivRaw24);
    assert_eq!(c.name, None);
}

#[test]
fn rule_text_round_trip() {
    for text in [
        "9,min2hour:543210,Power_On_Minutes",
        "194,tempminmax:543210",
        "170,raw48:543210,Available_Reservd_Space,SSD",
        "3,raw16(avg16):__10,,HDD",
        "255,hex64:543210wv",
    ] {
        let a = parse(text).unwrap();
        assert_eq!(a.to_text(), text);
        assert_eq!(parse(&a.to_text()).unwrap(), a);
    }
    let short = parse("9,minutes").unwrap();
    assert_eq!(short.to_text(), "9,min2hour:543210,Power_On_Minutes");
    assert_eq!(parse(&short.to_text()).unwrap(), short);
}

#[test]
fn rule_byte_order_unknown_tokens_and_length() {
    assert_eq!(parse("9,raw48:54x").unwrap().byte_order, "54x");
    assert_eq!(parse("9,raw64:543210wvr").unwrap().byte_order, "543210wvr");
    assert_eq!(parse("9,raw48:vvvvvvvvv").unwrap().byte_order, "vvvvvvvvv");
    let a = parse("9,raw48:5:4,Name").unwrap();
    assert_eq!(a.byte_order, "5:4");
    assert_eq!(parse(&a.to_text()).unwrap(), a);
}
