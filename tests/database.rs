use hdd::drivedb::DriveDB;
use hdd::loader::Loader;
use hdd::parser::{parse_database, DbError};
use hdd::vendor_attribute::{parse, ParseError, RawFormat, Type};

const SEAGATE: &str = r#"/*
 * drive database excerpt
 */
{ "DEFAULT",
  "-", "-", // never matches a real model
  "",
  "-v 1,raw48,Raw_Read_Error_Rate "
  "-v 9,raw24(raw8),Power_On_Hours"
},
{ "Seagate Barracuda 7200.14 (AF)", // firmware notice below
  "ST(1000|1500|2000|2500|3000)DM00[0-3]-.*|"
  "ST3000DM001-9YN166",
  "CC24",
  "A firmware update for this drive may be available,\n"
  "see the vendor's web pages",
  "-v 9,min2hour,Power_On_Minutes -v 188,raw16 -F xerrorlba -v 240,msec24hour32"
},
"#;

#[test]
fn database_records_in_order() {
    let entries = parse_database(SEAGATE).unwrap();
    assert_eq!(entries.len(), 2);
    assert_eq!(entries[0].family, "DEFAULT");
    assert_eq!(entries[0].firmware, Some("-".to_string()));
    assert_eq!(entries[0].warning, None);
    assert_eq!(entries[0].rules.len(), 2);
    assert_eq!(entries[1].model, "ST(1000|1500|2000|2500|3000)DM00[0-3]-.*|ST3000DM001-9YN166");
    assert_eq!(
        entries[1].warning,
        Some("A firmware update for this drive may be available,\nsee the vendor's web pages".to_string())
    );
    assert_eq!(entries[1].rules.len(), 3);
    assert_eq!(entries[1].rules[2].format, RawFormat::Msec24Hour32);
}

#[test]
fn database_scenario_firmware_warning() {
    let db = DriveDB::new(parse_database(SEAGATE).unwrap());
    let meta = db.render_meta("ST3000DM001-9YN166", "CC24", Some(Type::HDD), &vec![]);
    assert!(meta.warning.is_some());
    assert!(meta.warning.as_ref().unwrap().starts_with("A firmware update for this drive may be available"));
    let attr = meta.render_attribute(9).unwrap();
    assert_eq!(attr.id, Some(9));
    assert_eq!(attr.name, Some("Power_On_Minutes".to_string()));
    assert_eq!(attr.format, RawFormat::Min2Hour);
    assert_eq!(attr.byte_order, "543210".to_string());
    assert_eq!(attr.drivetype, None);
    assert_eq!(meta.drivetype, Some(Type::HDD));
    assert!(meta.render_attribute(1).is_none());
}

#[test]
fn database_firmware_must_match() {
    let db = DriveDB::new(parse_database(SEAGATE).unwrap());
    let meta = db.render_meta("ST3000DM001-9YN166", "CC25", None, &vec![]);
    assert!(meta.warning.is_none());
    assert!(meta.render_attribute(9).is_none());
}

#[test]
fn database_pattern_matches_whole_model() {
    let db = DriveDB::new(parse_database(SEAGATE).unwrap());
    let meta = db.render_meta("ST2000DM001-1CH164", "CC24", None, &vec![]);
    assert!(meta.render_attribute(188).is_some());
    let longer = db.render_meta("XST3000DM001-9YN166", "CC24", None, &vec![]);
    assert!(longer.render_attribute(188).is_none());
}

#[test]
fn database_unmatched_model_scenario() {
    let db = DriveDB::new(parse_database(SEAGATE).unwrap());
    let meta = db.render_meta("WDC WD10EZEX-00BN5A0", "01.01A01", None, &vec![]);
    assert!(meta.warning.is_none());
    assert!(meta.rules.is_empty());
    for id in 0..=255u8 {
        assert!(meta.render_attribute(id).is_none());
    }
}

#[test]
fn database_user_rule_wins() {
    let db = DriveDB::new(parse_database(SEAGATE).unwrap());
    let user = vec![parse("9,sec2hour,Power_On_Seconds").unwrap()];
    let meta = db.render_meta("ST3000DM001-9YN166", "CC24", None, &user);
    let attr = meta.render_attribute(9).unwrap();
    assert_eq!(attr.format, RawFormat::Sec2Hour);
    assert_eq!(attr.name, Some("Power_On_Seconds".to_string()));
    assert_eq!(meta.render_attribute(188).unwrap().format, RawFormat::Raw16);
}

#[test]
fn database_later_record_overrides_earlier() {
    let text = r#"{ "Generic", "ST.*", "", "first", "-v 5,raw48,Generic_Name -v 7,raw8" },
{ "Specific", "ST1.*", "", "", "-v 5,hex48,Specific_Name" }"#;
    let db = DriveDB::new(parse_database(text).unwrap());
    let meta = db.render_meta("ST100", "X", None, &vec![]);
    assert_eq!(meta.render_attribute(5).unwrap().name, Some("Specific_Name".to_string()));
    assert_eq!(meta.render_attribute(7).unwrap().format, RawFormat::Raw8);
    assert_eq!(meta.warning, Some("first".to_string()));
}

#[test]
fn database_other_type_ranks_lower() {
    let text = r#"{ "Family", "M", "", "", "-v 5,raw48,Ssd_Name,SSD" },
{ "Older", "M", "", "", "-v 5,raw16,Any_Name" }"#;
    let db = DriveDB::new(parse_database(text).unwrap());
    let hdd = db.render_meta("M", "F", Some(Type::HDD), &vec![]);
    assert_eq!(hdd.render_attribute(5).unwrap().name, Some("Any_Name".to_string()));
    let text2 = r#"{ "Older", "M", "", "", "-v 5,raw16,Any_Name" },
{ "Family", "M", "", "", "-v 5,raw48,Ssd_Name,SSD" }"#;
    let db2 = DriveDB::new(parse_database(text2).unwrap());
    let hdd2 = db2.render_meta("M", "F", Some(Type::HDD), &vec![]);
    assert_eq!(hdd2.render_attribute(5).unwrap().name, Some("Any_Name".to_string()));
    let ssd2 = db2.render_meta("M", "F", Some(Type::SSD), &vec![]);
    assert_eq!(ssd2.render_attribute(5).unwrap().name, Some("Ssd_Name".to_string()));
    let unknown = db2.render_meta("M", "F", None, &vec![]);
    assert_eq!(unknown.render_attribute(5).unwrap().name, Some("Ssd_Name".to_string()));
}

#[test]
fn database_bad_regex_never_matches() {
    let text = r#"{ "Broken", "ST(", "", "", "-v 5,raw48" }"#;
    let db = DriveDB::new(parse_database(text).unwrap());
    let meta = db.render_meta("ST(", "X", None, &vec![]);
    assert!(meta.render_attribute(5).is_none());
}

#[test]
fn database_empty_inputs() {
    assert_eq!(parse_database("").unwrap().len(), 0);
    assert_eq!(parse_database("  // nothing\n/* here */ ,").unwrap().len(), 0);
    let meta = DriveDB::empty().render_meta("any", "any", None, &vec![]);
    assert!(meta.rules.is_empty());
}

#[test]
fn database_errors() {
    assert_eq!(parse_database(r#"{ "a", "b", "c", "d", "e""#).unwrap_err(), DbError::Unterminated);
    assert_eq!(parse_database("/* open").unwrap_err(), DbError::Unterminated);
    assert_eq!(parse_database("{ \"a\nb\", \"b\", \"c\", \"d\", \"e\" }").unwrap_err(), DbError::BadLiteral);
    assert_eq!(parse_database(r#"{ "a\q", "b", "c", "d", "e" }"#).unwrap_err(), DbError::BadLiteral);
    assert_eq!(parse_database(r#"{ "a", "b", "c", "d" }"#).unwrap_err(), DbError::BadRecord);
    assert_eq!(parse_database(r#"{ "a", , "c", "d", "e" }"#).unwrap_err(), DbError::BadRecord);
    assert_eq!(
        parse_database(r#"{ "a", "b", "c", "d", "-v 300,raw48" }"#).unwrap_err(),
        DbError::BadAttribute(ParseError::BadId)
    );
    assert_eq!(parse_database(r#"{ "a", "b", "c", "d", "-q 1" }"#).unwrap_err(), DbError::UnknownDirective);
    assert_eq!(parse_database(r#"{ "a", "b", "c", "d", "-v" }"#).unwrap_err(), DbError::UnknownDirective);
    assert_eq!(parse_database("const x = 1;").unwrap_err(), DbError::UnknownDirective);
}

#[test]
fn database_escapes_and_trailing_comma() {
    let text = r#"{ "Fam\"ily\\", "a\\.b", "", "line\tone", "", }"#;
    let entries = parse_database(text).unwrap();
    assert_eq!(entries[0].family, "Fam\"ily\\");
    assert_eq!(entries[0].model, "a\\.b");
    assert_eq!(entries[0].firmware, None);
    assert_eq!(entries[0].warning, Some("line\tone".to_string()));
    assert!(entries[0].rules.is_empty());
}

#[test]
fn merge_with_given_flags() {
    let text = r#"{ "A", "x", "", "warn A", "-v 5,raw48,From_A -v 6,raw8,Only_A" },
{ "B", "y", "", "", "-v 5,hex48,From_B" }"#;
    let db = DriveDB::new(parse_database(text).unwrap());
    let both = db.merge(&vec![true, true], None, &vec![]);
    assert_eq!(both.render_attribute(5).unwrap().name, Some("From_B".to_string()));
    assert_eq!(both.render_attribute(6).unwrap().name, Some("Only_A".to_string()));
    assert_eq!(both.warning, Some("warn A".to_string()));
    let second = db.merge(&vec![false, true], None, &vec![]);
    assert_eq!(second.render_attribute(5).unwrap().format, RawFormat::Hex48);
    assert!(second.render_attribute(6).is_none());
    assert!(second.warning.is_none());
    let missing = db.merge(&vec![true], None, &vec![]);
    assert_eq!(missing.render_attribute(5).unwrap().name, Some("From_A".to_string()));
    let none = db.merge(&vec![], Some(Type::SSD), &vec![parse("9,raw48,User").unwrap()]);
    assert_eq!(none.rules.len(), 1);
    assert_eq!(none.render_attribute(9).unwrap().name, Some("User".to_string()));
}

#[test]
fn loader_keeps_first_parsed_database() {
    let mut loader = Loader::new();
    assert_eq!(loader.load_text("{ broken"), Err(DbError::BadRecord));
    assert!(loader.load_text(SEAGATE).is_ok());
    assert_eq!(loader.load_text("/* open"), Err(DbError::Unterminated));
    let db = loader.db();
    assert_eq!(db.entries().len(), 2);
    assert_eq!(db.entries()[1].family, "Seagate Barracuda 7200.14 (AF)");
}

#[test]
fn loader_without_database_gives_empty_one() {
    let mut loader = Loader::new();
    assert!(loader.load_text("nonsense").is_err());
    let db = loader.db();
    assert!(db.entries().is_empty());
    let meta = db.render_meta("ST3000DM001-9YN166", "CC24", None, &vec![parse("9,minutes").unwrap()]);
    assert_eq!(meta.render_attribute(9).unwrap().format, RawFormat::Min2Hour);
    assert!(meta.warning.is_none());
}

#[test]
fn error_messages() {
    assert_eq!(DbError::BadLiteral.message(), "malformed string literal");
    assert_eq!(
        DbError::BadAttribute(ParseError::BadId).message(),
        "malformed attribute rule: attribute id is not a number from 0 to 255"
    );
    assert_eq!(ParseError::Trailing.message(), "drive type after the name is not HDD or SSD");
    assert_eq!(hdd::attr::DecodeError::InvalidLength.message(), "attribute or threshold table is not 512 bytes long");
}
