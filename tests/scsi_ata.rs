use hdd::ata::{is_set, read_string, ATADevice};
use hdd::pages::{page_name, ErrorCounter};

#[test]
fn page_names() {
    assert_eq!(page_name(0x00), "Supported Log Pages");
    assert_eq!(page_name(0x03), "Read Error Counter");
    assert_eq!(page_name(0x0d), "Temperature");
    assert_eq!(page_name(0x30), "(Vendor-Specific)");
    assert_eq!(page_name(0x3e), "(Vendor-Specific)");
    assert_eq!(page_name(0x3f), "(Reserved)");
    assert_eq!(page_name(0x01), "?");
    assert_eq!(page_name(0xff), "?");
}

#[test]
fn error_counter_codes() {
    assert_eq!(ErrorCounter::from_code(0), ErrorCounter::CorrectedNoDelay);
    assert_eq!(ErrorCounter::from_code(6), ErrorCounter::Uncorrected);
    assert_eq!(ErrorCounter::from_code(7), ErrorCounter::Reserved(7));
    assert_eq!(ErrorCounter::from_code(0x7fff), ErrorCounter::Reserved(0x7fff));
    assert_eq!(ErrorCounter::from_code(0x8000), ErrorCounter::VendorSpecific(0x8000));
    assert_eq!(ErrorCounter::from_code(0xffff), ErrorCounter::VendorSpecific(0xffff));
}

#[test]
fn ata_helpers() {
    assert!(is_set(0b1000, 3));
    assert!(!is_set(0b1000, 2));
    assert!(is_set(0x8000, 15));
    let dev = ATADevice::new(42u32);
    assert_eq!(*dev.device(), 42);
}

#[test]
fn identify_strings() {
    // "  ST3000DM001-9YN166  " packed two characters per word, high byte first
    let text = b"  ST3000DM001-9YN166  ";
    let words: Vec<u16> = text.chunks(2).map(|c| ((c[0] as u16) << 8) | c[1] as u16).collect();
    assert_eq!(read_string(&words, 0, words.len() - 1), "ST3000DM001-9YN166");
    assert_eq!(read_string(&words, 1, 2), "ST30");
    assert_eq!(read_string(&vec![0x2020, 0x2020], 0, 1), "");
    assert_eq!(read_string(&vec![0x4120, 0x0942], 0, 1), "A \tB");
    assert_eq!(read_string(&vec![0xa041], 0, 0), "A");
}
