use rdr::{get_granule_start, granule_id, Error, RdrError, Time};

const BASE_TIME: u64 = 1698019234000000;

#[test]
fn test_get_granule_start() {
    // test data from an ERB rdr with expected value produced by edosl0util.rdrgen.get_granule_start
    let pkt_time_iet: u64 = 2112504636060127;
    let gran_len: u64 = 85350000;
    let expected: u64 = 2112504609700000;
    let zult = get_granule_start(pkt_time_iet, gran_len, BASE_TIME);
    assert_eq!(
        expected,
        zult,
        "expected {}, got {}; expected-zult={}",
        expected,
        zult,
        expected - zult,
    );
}

#[test]
fn test_granule_id() {
    let rdr_iet = 2112504394000000;
    let zult = granule_id("NPP", BASE_TIME, rdr_iet).unwrap();
    assert_eq!(zult, "NPP004144851600");
}

#[test]
fn granule_id_upper_cases_the_short_name() {
    let zult = granule_id("npp", BASE_TIME, BASE_TIME).unwrap();
    assert_eq!(zult, "NPP000000000000");
}

#[test]
fn granule_id_before_base_time_fails() {
    assert_eq!(
        granule_id("NPP", BASE_TIME, BASE_TIME - 1),
        Err(Error::RdrError(RdrError::InvalidGranuleStart(BASE_TIME - 1)))
    );
}

#[test]
fn granule_start_aligns_to_base_time() {
    let len: u64 = 85_350_000;
    for k in [0u64, 1, 7, 1000] {
        for delta in [0u64, 1, len / 2, len - 1] {
            assert_eq!(
                get_granule_start(BASE_TIME + k * len + delta, len, BASE_TIME),
                BASE_TIME + k * len
            );
        }
    }
}

#[test]
fn test_from_iet() {
    let iet: u64 = 2112504609700000;
    assert_eq!(Time::from_iet(iet).iet(), iet);
}

#[test]
fn test_utc() {
    let time = Time::from_utc(0).unwrap();

    assert_eq!(time.utc(), 0);
}

#[test]
fn test_iet() {
    let time = Time::from_utc(0).unwrap();

    assert_eq!(time.iet(), 378_691_200_000_000);
}

#[test]
fn checked_granule_start_rejects_stale_times() {
    assert_eq!(
        rdr::checked_granule_start(BASE_TIME - 1, 10, BASE_TIME),
        Err(Error::RdrError(RdrError::InvalidGranuleStart(BASE_TIME - 1)))
    );
    assert_eq!(rdr::checked_granule_start(BASE_TIME + 25, 10, BASE_TIME), Ok(BASE_TIME + 20));
}
