use rdr::{attr_date, attr_time, filename, Time};

// 2020-01-01T12:13:14.123456Z as UTC microseconds since 1970
const TIME_2020: u64 = 1_577_880_794_123_456;

#[test]
fn rdr_packed_rdrs() {
    let time = Time::from_utc(TIME_2020).unwrap();
    let fname = filename(
        "npp",
        "origin",
        "ops",
        &Time::now().unwrap(), // created
        &time,
        &time,
        &["RNSCA".to_string(), "RVIRS".to_string()],
    );

    let (prefix, _) = fname.split_once('_').unwrap();
    assert_eq!(prefix, "RNSCA-RVIRS");

    assert!(
        fname.contains("d20200101_t1213141_e"),
        "Filename does not contain date string"
    );
}

#[test]
fn rdr_no_packed_rdrs() {
    let time = Time::from_utc(TIME_2020).unwrap();
    let fname = filename(
        "npp",
        "origin",
        "ops",
        &time,
        &time,
        &time,
        &["RVIRS".to_string()],
    );

    let (prefix, _) = fname.split_once('_').unwrap();
    assert_eq!(prefix, "RVIRS");
    assert!(
        fname.contains("d20200101_t1213141_e"),
        "Filename does not contain date string"
    );
}

#[test]
fn filename_has_the_idps_layout() {
    let time = Time::from_utc(TIME_2020).unwrap();
    let fname = filename(
        "npp",
        "origin",
        "ops",
        &time,
        &time,
        &time,
        &["RNSCA".to_string(), "RVIRS".to_string()],
    );
    assert!(fname.starts_with("RNSCA-RVIRS_npp_d20200101_t1213141_e1213141_b00000_c"));
    assert_eq!(
        fname,
        "RNSCA-RVIRS_npp_d20200101_t1213141_e1213141_b00000_c20200101121314123456_oriu_ops.h5"
    );
}

#[test]
fn attribute_date_and_time() {
    let time = Time::from_utc(TIME_2020).unwrap();
    assert_eq!(attr_date(&time), "20200101");
    assert_eq!(attr_time(&time), "121314.123456Z");
}

#[test]
fn attribute_time_pads_microseconds() {
    let time = Time::from_iet(1_000_005);
    assert!(attr_time(&time).ends_with(".000005Z"));
}

#[test]
fn filename_meta_at_a_given_time() {
    let now = Time::from_iet(5);
    let (start, end, ids) = rdr::rdr_filename_meta_at(&[], now);
    assert_eq!(start.iet(), 5);
    assert_eq!(end.iet(), 0);
    assert!(ids.is_empty());
}
