use ccsds::error::push_decimal;
use ccsds::timecode::{choose_decoder, DecoderChoice, TimecodeConfig};
use ccsds::timecode::cds::{decode_cds_fields, PField as CdsPField};
use ccsds::timecode::cuc::{decode_cuc_fields, PField as CucPField};
use ccsds::timecode::Error;

#[test]
fn cds_fields_of_a_time_code() {
    let buf = vec![0x5f, 0x5b, 0x00, 0x00, 0x06, 0x94, 0x02, 0x07];
    let (days, millis, nanos) = decode_cds_fields(&buf, 2, 2).unwrap();
    assert_eq!(days, 0x5f5b);
    assert_eq!(millis, 0x0694);
    assert_eq!(nanos, 0x0207 * 1000);
}

#[test]
fn cds_fields_errors() {
    assert!(matches!(decode_cds_fields(&[0u8; 5], 2, 0), Err(Error::NotEnoughData)));
    match decode_cds_fields(&[0u8; 8], 2, 1) {
        Err(Error::InvalidPField(m)) => {
            assert_eq!(m, "number of CDS sub-millisecond must be 0, 2, or 4; got 1")
        }
        _ => panic!("expected invalid p-field"),
    }
}

#[test]
fn cds_pfield() {
    // bit 3: three day bytes; bits 4-5: one sub-millisecond byte
    let p = CdsPField::decode(&[0b0001_1000]).unwrap();
    assert_eq!(p.len(), 3 + 1 + 4);
    assert!(matches!(CdsPField::decode(&[]), Err(Error::NotEnoughData)));
    match CdsPField::decode(&[0b0011_0000]) {
        Err(Error::InvalidPField(m)) => assert_eq!(m, "submillis must be 0, 1, 2; got 3"),
        _ => panic!("expected invalid p-field"),
    }
    match CdsPField::new(4, 0) {
        Err(Error::InvalidPField(m)) => assert_eq!(m, "cds num_day must be 2 or 3; got 4"),
        _ => panic!("expected invalid p-field"),
    }
}

#[test]
fn cuc_pfield_with_extension() {
    // first octet: extension flag, 2 basic octets (1 + 1), 2 fine octets
    // extension octet: 1 more basic octet (bits 5-6), 3 more fine octets (bits 2-4)
    let p = CucPField::decode(&[0b1000_0110, 0b0010_1100]).unwrap();
    assert_eq!(p.num_basic, 3);
    assert_eq!(p.num_fine, 5);
    assert_eq!(p.len(), 2);
    assert_eq!(p.time_len(), 8);
    let plain_extension = CucPField::decode(&[0b1000_0110, 0x00]).unwrap();
    assert_eq!((plain_extension.num_basic, plain_extension.num_fine, plain_extension.len), (2, 2, 2));
    let simple = CucPField::decode(&[0b0000_1110]).unwrap();
    assert_eq!((simple.num_basic, simple.num_fine, simple.len), (4, 2, 1));
    match CucPField::decode(&[0b1000_0001]) {
        Err(Error::InvalidPField(m)) => assert_eq!(m, "pfield missing required extention bytes"),
        _ => panic!("expected a missing extension"),
    }
    match CucPField::decode(&[0b1000_0001, 0b1000_0000]) {
        Err(Error::InvalidPField(m)) => assert_eq!(m, "pfield missing required extention bytes"),
        _ => panic!("expected a missing second extension"),
    }
}

#[test]
fn cuc_fields_of_a_time_code() {
    let buf = [0x00, 0x00, 0x01, 0x02, 0x80, 0x00, 0xff];
    let (coarse, fine) = decode_cuc_fields(&buf, 4, 2);
    assert_eq!(coarse, 0x0102);
    assert_eq!(fine, 0x8000);
}

#[test]
fn timecode_configs_choose_decoders() {
    let cds = TimecodeConfig::Cds { day_length: Some(2), submillis_length: None, self_identifying: None };
    assert_eq!(choose_decoder(&cds).unwrap(), DecoderChoice::Cds { num_day: 2, num_submillis: 0 });
    let cds_p = TimecodeConfig::Cds { day_length: Some(2), submillis_length: None, self_identifying: Some(true) };
    assert_eq!(choose_decoder(&cds_p).unwrap(), DecoderChoice::CdsPField);
    let cuc = TimecodeConfig::Cuc { basic_length: Some(4), fine_length: Some(2), fine_nanos: None, self_identifying: None };
    assert_eq!(choose_decoder(&cuc).unwrap(), DecoderChoice::Cuc { num_basic: 4, num_fine: 2, fine_nanos: 1 });
    let coarse = TimecodeConfig::Cuc { basic_length: Some(4), fine_length: None, fine_nanos: Some(9), self_identifying: None };
    assert_eq!(choose_decoder(&coarse).unwrap(), DecoderChoice::Cuc { num_basic: 4, num_fine: 0, fine_nanos: 0 });
    let empty = TimecodeConfig::Cuc { basic_length: None, fine_length: None, fine_nanos: None, self_identifying: Some(false) };
    match choose_decoder(&empty) {
        Err(ccsds::timecode::Error::Config(s)) => assert_eq!(s, "CUC timecode basic length must be >= 1"),
        other => panic!("expected a config error, got {other:?}"),
    }
}

#[test]
fn decimal_digits_of_a_number() {
    let mut s = String::from("n=");
    push_decimal(&mut s, 0);
    assert_eq!(s, "n=0");
    push_decimal(&mut s, 1020);
    assert_eq!(s, "n=01020");
    let mut t = String::new();
    push_decimal(&mut t, usize::MAX);
    assert_eq!(t, usize::MAX.to_string());
}
