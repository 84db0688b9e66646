use field_codecs::naivedatetime::{read_timestamp, write_timestamp, Timestamp};

fn ts(year: u16, month: u8, day: u8, hour: u8, minute: u8, second: u8) -> Timestamp {
    Timestamp { year, month, day, hour, minute, second }
}

#[test]
fn timestamp_round_trip() {
    let t = read_timestamp("2021-03-05 14:08:30").unwrap();
    assert_eq!(t, ts(2021, 3, 5, 14, 8, 30));
    assert_eq!(write_timestamp(&t), "2021-03-05 14:08:30");
}

#[test]
fn timestamp_writes_zero_padded() {
    assert_eq!(write_timestamp(&ts(987, 1, 2, 3, 4, 5)), "0987-01-02 03:04:05");
}

#[test]
fn timestamp_rejects_out_of_range_month() {
    let e = read_timestamp("2021-13-05 14:08:30").unwrap_err();
    assert_eq!(e.input, "2021-13-05 14:08:30");
    assert_eq!(e.reason, "timestamp field out of range");
}

#[test]
fn timestamp_rejects_shape_deviations() {
    let cases = [
        "2021-03-05T14:08:30",
        "2021-03-05 14:08:30 ",
        "2021-03-05 14:08",
        "21-03-05 14:08:30",
        "2021/03/05 14:08:30",
        "2021-03-05 14.08.30",
        "2021-03-0a 14:08:30",
        "",
    ];
    for s in cases {
        let e = read_timestamp(s).unwrap_err();
        assert_eq!(e.input, s);
        assert_eq!(e.reason, "does not match the pattern YYYY-MM-DD HH:MM:SS");
    }
}

#[test]
fn timestamp_rejects_out_of_range_fields() {
    for s in [
        "2021-00-05 14:08:30",
        "2021-03-00 14:08:30",
        "2021-03-32 14:08:30",
        "2021-04-31 14:08:30",
        "2021-03-05 24:08:30",
        "2021-03-05 14:60:30",
        "2021-03-05 14:08:60",
    ] {
        let e = read_timestamp(s).unwrap_err();
        assert_eq!(e.reason, "timestamp field out of range");
    }
}

#[test]
fn timestamp_knows_leap_years() {
    assert!(read_timestamp("2024-02-29 00:00:00").is_ok());
    assert!(read_timestamp("2023-02-29 00:00:00").is_err());
    assert!(read_timestamp("2000-02-29 12:00:00").is_ok());
    assert!(read_timestamp("1900-02-29 12:00:00").is_err());
}
