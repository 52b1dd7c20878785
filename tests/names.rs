use rdr::{dataset_name, get_spacecraft, parse_valid_satellite, DatasetType, Time};

// 2020-01-01T12:13:14.123456Z as UTC microseconds since 1970
const TIME_2020: u64 = 1_577_880_794_123_456;

#[test]
fn spacecraft_ids_from_paths() {
    assert_eq!(get_spacecraft("RVIRS_npp_d20200101.h5"), 157);
    assert_eq!(get_spacecraft("/data/j01/file.h5"), 159);
    assert_eq!(get_spacecraft("x_j02_y"), 177);
    assert_eq!(get_spacecraft("x_j03_y"), 178);
    assert_eq!(get_spacecraft("x_j04_y"), 179);
    assert_eq!(get_spacecraft("unknown.h5"), 0);
}

#[test]
fn satellite_ids_are_checked() {
    assert_eq!(parse_valid_satellite("j01"), Ok("j01".to_string()));
    assert_eq!(
        parse_valid_satellite("j05"),
        Err("expected one of npp, j01, j02, j03".to_string())
    );
}

#[test]
fn pds_names() {
    let t = Time::from_utc(TIME_2020).unwrap();
    let viirs = DatasetType::Science("All_Data/VIIRS-SCIENCE-RDR_All".to_string());
    assert_eq!(
        dataset_name(157, &viirs, &t),
        "P1570826VIIRSSCIENCEAS20001121314001.PDS"
    );
    let omps = DatasetType::Science("All_Data/OMPS-SCIENCE-RDR_All".to_string());
    assert_eq!(
        dataset_name(159, &omps, &t),
        "P159????OMPSSCIENCEAAS20001121314001.PDS"
    );
    assert_eq!(
        dataset_name(157, &DatasetType::Spacecraft(11), &t),
        "P1570011AAAAAAAAAAAAAS20001121314001.PDS"
    );
    let other = DatasetType::Science("All_Data/OTHER_All".to_string());
    assert_eq!(dataset_name(7, &other, &t), "007-20001121314.dat");
}
