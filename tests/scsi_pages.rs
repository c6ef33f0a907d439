use hdd::device_id::{self, Association, CodeSet, Identifier, Protocol};
use hdd::log_page::{self, Condition, Format};
use hdd::pages::{
    dates_and_cycle_counters, error_counters, informational_exceptions, non_medium_error_count,
    self_test_results, temperature, ErrorCounter, SelfTestResult,
};
use hdd::scsi::{
    parse_defect_data_10, parse_defect_data_12, read_defect_data_10_cmd, read_defect_data_12_cmd,
    AddrDescriptorFormat,
};
use hdd::sense_descriptor;
use hdd::sense_fixed::{self, FixedData};

fn page(code: u8, params: &[(u16, u8, &[u8])]) -> Vec<u8> {
    let mut body = vec![];
    for (c, control, value) in params {
        body.push((c >> 8) as u8);
        body.push((c & 0xff) as u8);
        body.push(*control);
        body.push(value.len() as u8);
        body.extend_from_slice(value);
    }
    let mut data = vec![code, 0, (body.len() >> 8) as u8, (body.len() & 0xff) as u8];
    data.extend(body);
    data
}

#[test]
fn log_page_header() {
    let data = page(0x03, &[(0, 0x02, &[0, 5])]);
    let p = log_page::parse(&data).unwrap();
    assert!(p.saved);
    assert_eq!(p.page, 0x03);
    assert_eq!(p.subpage, None);
    assert_eq!(p.data.len(), 6);
    assert!(log_page::parse(&data[..5]).is_none());
    assert!(log_page::parse(&[0x03, 0, 0]).is_none());
    assert!(log_page::parse(&[0x03, 1, 0, 0]).is_none());
    let sub = log_page::parse(&[0x43 | 0x80, 7, 0, 0]).unwrap();
    assert_eq!(sub.subpage, Some(7));
    assert!(!sub.saved);
}

#[test]
fn log_page_params() {
    let data = page(0x0d, &[(0, 0x13, &[0, 40]), (1, 0xb4, &[0, 65])]);
    let params = log_page::parse(&data).unwrap().parse_params().unwrap();
    assert_eq!(params.len(), 2);
    assert_eq!(params[0].code, 0);
    assert_eq!(params[0].threshold_comparison, Condition::Always);
    assert_eq!(params[0].format, Format::BinaryList);
    assert_eq!(params[1].code, 1);
    assert!(params[1].update_disabled && params[1].target_save);
    assert_eq!(params[1].threshold_comparison, Condition::Eq);
    assert_eq!(params[1].format, Format::BoundedCounter);
    assert_eq!(params[1].value, vec![0, 65]);
    let mut short = data.clone();
    short[3] -= 1;
    short.pop();
    assert!(log_page::parse(&short).unwrap().parse_params().is_none());
}

#[test]
fn error_counter_page() {
    let nine = [0u8, 0, 0, 0, 0, 0, 0, 0, 0x10];
    let wide = [1u8, 0, 0, 0, 0, 0, 0, 0, 0x10];
    let data = page(0x03, &[(0, 0, &[0, 5]), (6, 0, &[]), (0x8001, 0, &nine), (3, 0, &wide), (4, 0, &[1, 0, 0])]);
    let params = log_page::parse(&data).unwrap().parse_params().unwrap();
    let counters = error_counters(&params);
    assert_eq!(
        counters,
        vec![
            (ErrorCounter::CorrectedNoDelay, 5),
            (ErrorCounter::VendorSpecific(0x8001), 0x10),
            (ErrorCounter::CRCProcessed, 0x10000),
        ]
    );
    assert_eq!(non_medium_error_count(&params), Some(5));
    let twice = page(0x03, &[(0, 0, &[0, 5]), (6, 0, &[9]), (0, 0, &[0, 7])]);
    let params = log_page::parse(&twice).unwrap().parse_params().unwrap();
    assert_eq!(error_counters(&params), vec![(ErrorCounter::CorrectedNoDelay, 7), (ErrorCounter::Uncorrected, 9)]);
    assert_eq!(non_medium_error_count(&vec![]), None);
}

#[test]
fn temperature_page() {
    let data = page(0x0d, &[(0, 0, &[0, 38]), (1, 0, &[0, 0xff]), (2, 0, &[0, 1])]);
    let params = log_page::parse(&data).unwrap().parse_params().unwrap();
    assert_eq!(temperature(&params), (Some(38), None));
}

#[test]
fn cycle_counter_page() {
    let data = page(
        0x0e,
        &[(1, 0, b"201814"), (2, 0, b"    "), (3, 0, &[0, 0, 0xc3, 0x50]), (4, 0, &[0, 0, 0, 12]), (6, 0, &[0, 1, 0, 0])],
    );
    let params = log_page::parse(&data).unwrap().parse_params().unwrap();
    let r = dates_and_cycle_counters(&params);
    let made = r.manufacturing_date.unwrap();
    assert_eq!(made.year, "2018");
    assert_eq!(made.week, "14");
    assert!(r.accounting_date.is_none());
    assert_eq!(r.lifetime_start_stop_cycles, Some(50000));
    assert_eq!(r.start_stop_cycles, Some(12));
    assert_eq!(r.lifetime_load_unload_cycles, None);
    assert_eq!(r.load_unload_cycles, Some(0x10000));
}

#[test]
fn self_test_page() {
    let mut entry = [0u8; 16];
    entry[0] = 0b0010_0111;
    entry[1] = 3;
    entry[2] = 0x01;
    entry[3] = 0x02;
    entry[11] = 0x99;
    entry[12] = 0x13;
    entry[13] = 0x11;
    entry[14] = 0x04;
    entry[15] = 0xaa;
    let data = page(0x10, &[(1, 0, &entry), (2, 0, &[0u8; 16]), (0x15, 0, &entry), (3, 0, &entry[..15])]);
    let params = log_page::parse(&data).unwrap().parse_params().unwrap();
    let tests = self_test_results(&params);
    assert_eq!(tests.len(), 1);
    assert_eq!(tests[0].result, SelfTestResult::Failed);
    assert_eq!(tests[0].code, 1);
    assert_eq!(tests[0].number, 3);
    assert_eq!(tests[0].power_on_hours, 0x0102);
    assert_eq!(tests[0].first_failure_lba, 0x99);
    assert_eq!(tests[0].sense_key, 3);
    assert_eq!((tests[0].sense_asc, tests[0].sense_ascq, tests[0].vendor_specific), (0x11, 4, 0xaa));
}

#[test]
fn informational_exception_page() {
    let data = page(0x2f, &[(0, 0, &[0x5d, 0x10, 0xff, 7, 8]), (1, 0, &[1, 2, 3]), (0, 0, &[0, 0, 36])]);
    let params = log_page::parse(&data).unwrap().parse_params().unwrap();
    let ex = informational_exceptions(&params);
    assert_eq!(ex.len(), 2);
    assert_eq!((ex[0].asc, ex[0].ascq, ex[0].recent_temperature_reading), (0x5d, 0x10, None));
    assert_eq!(ex[0].vendor_specific, vec![7, 8]);
    assert_eq!(ex[1].recent_temperature_reading, Some(36));
    assert!(ex[1].vendor_specific.is_empty());
}

#[test]
fn fixed_sense() {
    let mut data = vec![0x70u8, 0, 0xe5, 1, 2, 3, 4, 12, 5, 6, 7, 8, 0x24, 0x01, 9, 0x80, 0, 0, 0xaa, 0xbb];
    match sense_fixed::parse(&data).unwrap() {
        FixedData::Valid { file_mark, eom, incorrect_length, key, info, cmd_info, asc, ascq, fruc, sks, more } => {
            assert!(file_mark && eom && incorrect_length);
            assert_eq!(key, 5);
            assert_eq!(info, [1, 2, 3, 4]);
            assert_eq!(cmd_info, [5, 6, 7, 8]);
            assert_eq!((asc, ascq, fruc), (0x24, 1, 9));
            assert_eq!(sks, [0x80, 0, 0]);
            assert_eq!(more, &[0xaa, 0xbb]);
        },
        FixedData::Invalid(_) => panic!("valid sense data read as invalid"),
    }
    assert!(sense_fixed::parse(&data[..17]).is_none());
    data[7] = 13;
    assert!(sense_fixed::parse(&data).is_none());
    data[7] = 2;
    assert!(sense_fixed::parse(&data).is_none());
    data[7] = 0;
    assert!(sense_fixed::parse(&data[..18]).is_none());
    data[7] = 10;
    match sense_fixed::parse(&data).unwrap() {
        FixedData::Valid { more, .. } => assert!(more.is_empty()),
        FixedData::Invalid(_) => panic!("valid sense data read as invalid"),
    }
    data[0] = 0xf0;
    assert!(matches!(sense_fixed::parse(&data), Some(FixedData::Invalid(d)) if d.len() == 20));
}

#[test]
fn descriptor_sense() {
    let data = [0x72u8, 0x05, 0x24, 0x00, 0, 0, 0, 6, 0x00, 2, 0xaa, 0xbb, 0x09, 0];
    let s = sense_descriptor::parse(&data).unwrap();
    assert_eq!((s.key, s.asc, s.ascq), (5, 0x24, 0));
    assert_eq!(s.descriptors.len(), 2);
    assert_eq!(s.descriptors[0].code, 0);
    assert_eq!(s.descriptors[0].data, &[0xaa, 0xbb]);
    assert_eq!(s.descriptors[1].code, 9);
    assert!(s.descriptors[1].data.is_empty());
    assert!(sense_descriptor::parse(&data[..7]).is_none());
    assert!(sense_descriptor::parse(&data[..13]).is_none());
    let overrun = [0x72u8, 0x05, 0x24, 0x00, 0, 0, 0, 3, 0x00, 5, 0xaa];
    assert!(sense_descriptor::parse(&overrun).is_none());
}

#[test]
fn device_identification() {
    let data = [
        0x61u8, 0x93, 0, 8, 0x50, 0, 0x0c, 0x50, 0x5a, 0x3b, 0xa1, 0x0e, // SAS port, FC name
        0x01, 0x94, 0, 4, 0, 0, 0, 1, // relative target port 1
        0x02, 0x01, 0, 12, b'A', b'T', b'A', b' ', b' ', b' ', b' ', b' ', b'S', b'N', b'0', b'1',
    ];
    let ds = device_id::parse(&data).unwrap();
    assert_eq!(ds.len(), 3);
    assert_eq!(ds[0].proto, Some(Protocol::SAS));
    assert_eq!(ds[0].codeset, CodeSet::Binary);
    assert_eq!(ds[0].assoc, Association::Port);
    assert!(matches!(ds[0].id, Identifier::FCNameIdentifier(b) if b.len() == 8));
    assert!(matches!(ds[1].id, Identifier::Port(1)));
    assert_eq!(ds[1].assoc, Association::Port);
    assert_eq!(ds[2].proto, None);
    assert_eq!(ds[2].codeset, CodeSet::ASCII);
    assert_eq!(ds[2].assoc, Association::Device);
    match &ds[2].id {
        Identifier::Generic { vendor_id, id } => {
            assert_eq!(*vendor_id, b"ATA     ");
            assert_eq!(*id, b"SN01");
        },
        _ => panic!("expected a T10 vendor identifier"),
    }
    assert!(device_id::parse(&[]).unwrap().is_empty());
    assert!(matches!(device_id::parse(&[0x02, 0x01, 0, 2, b'A', b'B']).unwrap()[0].id, Identifier::Invalid));
    let mut overrun = data.to_vec();
    overrun.extend_from_slice(&[0x01, 0x00, 0, 9]);
    assert!(device_id::parse(&overrun).is_none());
    assert!(device_id::parse(&data[..22]).is_none());
    assert!(device_id::parse(&[0x01, 0x00]).is_none());
}

#[test]
fn defect_data_commands() {
    let (cmd, alloc) = read_defect_data_10_cmd(1, 1, AddrDescriptorFormat::LongBlock);
    assert_eq!(cmd, vec![0x37, 0, 0x1b, 0, 0, 0, 0, 0, 4, 0]);
    assert_eq!(alloc, 4);
    let (cmd, alloc) = read_defect_data_12_cmd(0, 1, AddrDescriptorFormat::PhysicalSector);
    assert_eq!(cmd, vec![0xb7, 0x0d, 0, 0, 0, 0, 0, 0, 0, 8, 0, 0]);
    assert_eq!(alloc, 8);
    assert_eq!(parse_defect_data_10(&[0, 0x1d, 0x01, 0x02]), Some((5, true, true, 0x0102)));
    assert_eq!(parse_defect_data_10(&[0, 0x1d, 0x01]), None);
    assert_eq!(parse_defect_data_12(&[0, 0x0b, 0, 0, 0, 1, 0, 2]), Some((3, true, false, 0x10002)));
    assert_eq!(parse_defect_data_12(&[0, 0x0b, 0, 0, 0, 1, 0]), None);
}
