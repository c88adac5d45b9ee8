use rust_ephem::epoch::{parse_ccsds_epoch, EpochError};
use rust_ephem::time::Timestamp;

fn at(seconds: i64, nanos: u32) -> Timestamp {
    Timestamp::new(seconds, nanos).unwrap()
}

#[test]
fn epoch_whole_seconds() {
    assert_eq!(parse_ccsds_epoch("2024-01-01T12:00:00Z"), Ok(at(1_704_110_400, 0)));
    assert_eq!(parse_ccsds_epoch("2024-01-01T12:00:00"), Ok(at(1_704_110_400, 0)));
    assert_eq!(parse_ccsds_epoch("1970-01-01T00:00:00"), Ok(at(0, 0)));
    assert_eq!(parse_ccsds_epoch("1969-12-31T23:59:59"), Ok(at(-1, 0)));
    assert_eq!(parse_ccsds_epoch("2000-02-29T00:00:00ZZ"), Ok(at(951_782_400, 0)));
}

#[test]
fn epoch_fractions() {
    assert_eq!(parse_ccsds_epoch("1970-01-01T00:00:01.5Z"), Ok(at(1, 500_000_000)));
    assert_eq!(parse_ccsds_epoch("1970-01-01T00:00:00.123456789123"), Ok(at(0, 123_456_789)));
    assert_eq!(parse_ccsds_epoch("1970-01-01T00:00:00.000001"), Ok(at(0, 1_000)));
    assert_eq!(parse_ccsds_epoch("1970-01-01T00:00:00.abc"), Ok(at(0, 0)));
}

#[test]
fn epoch_format_errors() {
    assert_eq!(parse_ccsds_epoch("2024-01-01 12:00:00"), Err(EpochError::Format));
    assert_eq!(parse_ccsds_epoch("2024-01-01T12:00"), Err(EpochError::Format));
    assert_eq!(parse_ccsds_epoch("2024-01T12:00:00"), Err(EpochError::Format));
    assert_eq!(parse_ccsds_epoch("2024-01-01T12:00:00T"), Err(EpochError::Format));
}

#[test]
fn epoch_field_errors() {
    assert_eq!(parse_ccsds_epoch("y-01-01T00:00:00"), Err(EpochError::Year));
    assert_eq!(parse_ccsds_epoch("2024-m-01T00:00:00"), Err(EpochError::Month));
    assert_eq!(parse_ccsds_epoch("2024-01-T00:00:00"), Err(EpochError::Day));
    assert_eq!(parse_ccsds_epoch("2024-01-01T-1:00:00"), Err(EpochError::Hour));
    assert_eq!(parse_ccsds_epoch("2024-01-01T00:99999999999:00"), Err(EpochError::Minute));
    assert_eq!(parse_ccsds_epoch("2024-01-01T00:00:x.5"), Err(EpochError::Second));
}

#[test]
fn epoch_calendar_errors() {
    assert_eq!(parse_ccsds_epoch("2023-02-29T00:00:00"), Err(EpochError::InvalidDate));
    assert_eq!(parse_ccsds_epoch("2024-13-01T00:00:00"), Err(EpochError::InvalidDate));
    assert_eq!(parse_ccsds_epoch("2024-01-01T24:00:00"), Err(EpochError::InvalidDate));
    assert_eq!(parse_ccsds_epoch("2024-01-01T00:00:60"), Err(EpochError::InvalidDate));
    assert_eq!(parse_ccsds_epoch("262142-12-31T00:00:00"), Err(EpochError::OutOfRange));
    assert_eq!(parse_ccsds_epoch("+2024-01-01T12:00:00"), Ok(at(1_704_110_400, 0)));
}
