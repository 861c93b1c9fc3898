use airline_api::date_format::{
    calculate_duration, format_date, format_mysql_datetime, format_time, parse_date,
    parse_duration, timestamp, DateTimeUtc,
};

fn dt(year: u32, month: u8, day: u8, hour: u8, minute: u8, second: u8) -> DateTimeUtc {
    DateTimeUtc { year, month, day, hour, minute, second }
}

#[test]
fn test_format_date() {
    let date = dt(2023, 1, 15, 10, 30, 0);
    assert_eq!(format_date(&date), "2023-01-15");
}

#[test]
fn test_format_time() {
    let date = dt(2023, 1, 15, 10, 30, 0);
    assert_eq!(format_time(&date), "10:30");
}

#[test]
fn test_parse_date() {
    let date_str = "2023-01-15";
    let expected = dt(2023, 1, 15, 0, 0, 0);
    assert_eq!(parse_date(date_str).unwrap(), expected);
}

#[test]
fn test_calculate_duration() {
    let start = dt(2023, 1, 15, 10, 30, 0);
    let end = dt(2023, 1, 15, 12, 45, 0);
    assert_eq!(calculate_duration(&start, &end), "02:15");
}

#[test]
fn test_parse_duration() {
    let duration_str = "02:15";
    let expected = 2 * 3600 + 15 * 60;
    assert_eq!(parse_duration(duration_str).unwrap(), expected);
}

#[test]
fn test_format_mysql_datetime() {
    let date = dt(2023, 1, 15, 10, 30, 5);
    assert_eq!(format_mysql_datetime(&date), "2023-01-15 10:30:05");
}

#[test]
fn test_timestamp_epoch() {
    assert_eq!(timestamp(&dt(1970, 1, 1, 0, 0, 0)), 0);
    assert_eq!(timestamp(&dt(1970, 1, 2, 0, 0, 0)), 86400);
    assert_eq!(timestamp(&dt(2023, 1, 15, 10, 30, 0)), 1673778600);
}

#[test]
fn test_parse_date_rejects_malformed() {
    assert!(parse_date("2023-13-01").is_err());
    assert!(parse_date("2023-1-15").is_err());
    assert!(parse_date("not a date").is_err());
    assert!(parse_date("").is_err());
}

#[test]
fn test_parse_date_rejects_impossible_days() {
    assert!(parse_date("2023-02-31").is_err());
    assert!(parse_date("2023-02-29").is_err());
    assert!(parse_date("2024-02-29").is_ok());
    assert!(parse_date("2023-04-31").is_err());
    assert!(parse_date("2023-12-31").is_ok());
}

#[test]
fn test_parse_duration_rejects_malformed() {
    assert_eq!(parse_duration("0215"), Err("Invalid duration format. Expected HH:MM"));
    assert_eq!(parse_duration("02:15:30"), Err("Invalid duration format. Expected HH:MM"));
    assert_eq!(parse_duration("ab:cd"), Err("Invalid hours value"));
    assert_eq!(parse_duration("02:cd"), Err("Invalid minutes value"));
    assert_eq!(parse_duration(":15"), Err("Invalid hours value"));
    assert_eq!(parse_duration("02:"), Err("Invalid minutes value"));
}
