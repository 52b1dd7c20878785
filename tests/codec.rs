use rdr::{ApidInfo, CommonRdr, Error, PacketTracker, StaticHeader, Time};

#[test]
fn test_staticheader() {
    let now = Time::now().unwrap();
    let hdr = StaticHeader {
        satellite: "NPP".to_string(),
        sensor: "VIIRS".to_string(),
        type_id: "SCIENCE".to_string(),
        num_apids: 10,
        apid_list_offset: 20,
        pkt_tracker_offset: 30,
        ap_storage_offset: 40,
        next_pkt_position: 50,
        start_boundary: now.iet(),
        end_boundary: now.iet(),
    };

    let dat = hdr.as_bytes();
    let zult = StaticHeader::from_bytes(&dat).expect("from_bytes failed");

    assert_eq!(hdr, zult);
}

#[test]
fn test_apidinfo() {
    let info = ApidInfo {
        name: "BAND".to_string(),
        value: 999,
        pkt_tracker_start_idx: 10,
        pkts_reserved: 20,
        pkts_received: 30,
    };

    let dat = info.as_bytes();
    let zult = ApidInfo::from_bytes(&dat).expect("from_bytes failed");

    assert_eq!(info, zult);
}

#[test]
fn test_packettracker() {
    let tracker = PacketTracker {
        obs_time: Time::now().unwrap().iet() as i64,
        sequence_number: 10,
        size: 20,
        offset: 30,
        fill_percent: 40,
    };

    let dat = tracker.as_bytes();
    let zult = PacketTracker::from_bytes(&dat).unwrap();
    assert_eq!(tracker, zult);
}

#[test]
fn static_header_layout_is_big_endian_and_nul_padded() {
    let hdr = StaticHeader {
        satellite: "NPP".to_string(),
        sensor: "VIIRS".to_string(),
        type_id: "SCIENCE".to_string(),
        num_apids: 1,
        apid_list_offset: 72,
        pkt_tracker_offset: 0x0102_0304,
        ap_storage_offset: 0,
        next_pkt_position: 0,
        start_boundary: 0x0102_0304_0506_0708,
        end_boundary: 0,
    };
    let dat = hdr.as_bytes();
    assert_eq!(dat.len(), StaticHeader::LEN);
    assert_eq!(&dat[0..4], b"NPP\0");
    assert_eq!(&dat[4..9], b"VIIRS");
    assert!(dat[9..20].iter().all(|b| *b == 0));
    assert_eq!(&dat[36..40], &[0, 0, 0, 1]);
    assert_eq!(&dat[40..44], &[0, 0, 0, 72]);
    assert_eq!(&dat[44..48], &[1, 2, 3, 4]);
    assert_eq!(&dat[56..64], &[1, 2, 3, 4, 5, 6, 7, 8]);
}

#[test]
fn long_text_is_cut_to_its_field() {
    let info = ApidInfo {
        name: "ABCDEFGHIJKLMNOPQRSTUVWXYZ".to_string(),
        value: 1,
        pkt_tracker_start_idx: 0,
        pkts_reserved: 0,
        pkts_received: 0,
    };
    let zult = ApidInfo::from_bytes(&info.as_bytes()).unwrap();
    assert_eq!(zult.name, "ABCDEFGHIJKLMNOP");
}

#[test]
fn negative_tracker_fields_round_trip() {
    let tracker = PacketTracker {
        obs_time: -5,
        sequence_number: -1,
        size: i32::MAX,
        offset: -1,
        fill_percent: i32::MIN,
    };
    let dat = tracker.as_bytes();
    assert_eq!(&dat[16..20], &[0xff, 0xff, 0xff, 0xff]);
    assert_eq!(PacketTracker::from_bytes(&dat).unwrap(), tracker);
}

#[test]
fn short_buffers_are_rejected() {
    assert_eq!(
        StaticHeader::from_bytes(&[0u8; 71]),
        Err(Error::NotEnoughBytes("StaticHeader"))
    );
    assert_eq!(
        ApidInfo::from_bytes(&[0u8; 31]),
        Err(Error::NotEnoughBytes("ApidInfo"))
    );
    assert_eq!(
        PacketTracker::from_bytes(&[0u8; 23]),
        Err(Error::NotEnoughBytes("PacketTracker"))
    );
    assert!(matches!(
        CommonRdr::from_bytes(&[0u8; 10]),
        Err(Error::NotEnoughBytes("StaticHeader"))
    ));
}

#[test]
fn non_utf8_text_is_rejected() {
    let mut dat = ApidInfo::new("X", 1).as_bytes();
    dat[0] = 0xff;
    assert_eq!(ApidInfo::from_bytes(&dat), Err(Error::Utf8Error));
}

#[test]
fn all_from_bytes_skips_short_chunks() {
    let a = ApidInfo::new("A", 1);
    let b = ApidInfo::new("B", 2);
    let mut dat = Vec::from(a.as_bytes());
    dat.extend_from_slice(&b.as_bytes());
    dat.extend_from_slice(&[1, 2, 3]);
    let infos = ApidInfo::all_from_bytes(&dat).unwrap();
    assert_eq!(infos, vec![a, b]);
}

#[test]
fn common_rdr_rejects_offsets_past_the_end() {
    let hdr = StaticHeader {
        satellite: "NPP".to_string(),
        sensor: "VIIRS".to_string(),
        type_id: "SCIENCE".to_string(),
        num_apids: 0,
        apid_list_offset: 72,
        pkt_tracker_offset: 72,
        ap_storage_offset: 200,
        next_pkt_position: 0,
        start_boundary: 0,
        end_boundary: 0,
    };
    assert!(matches!(
        CommonRdr::from_bytes(&hdr.as_bytes()),
        Err(Error::NotEnoughBytes("CommonRdr"))
    ));
}

#[test]
fn leapsdb_leap_usecs() {
    let db = rdr::LeapSecs::default();

    // First 10s of leapseconds added 1972-01-01
    let leapsecs = db.leap_usecs(63_072_000_000_000);

    assert_eq!(leapsecs, 10_000_000);
}

#[test]
fn utc_to_iet() {
    let db = rdr::LeapSecs::default();

    // Jan 1, 2018
    let usecs = 1_514_764_800_000_000;

    let zult = db.utc_to_iet(usecs);

    assert_eq!(zult, 1_893_456_037_000_000);
}

#[test]
fn leap_seconds_before_the_first_change() {
    let db = rdr::LeapSecs::default();
    assert_eq!(db.leap_usecs(0), 0);
    assert_eq!(db.utc_to_iet(0), 378_691_200_000_000);
}

#[test]
fn leap_table_from_entries_takes_differences() {
    let db = rdr::LeapSecs::from_entries(&[(2272060800, 10), (2287785600, 11)], 2287785600, true);
    assert_eq!(db.leaps.len(), 2);
    assert_eq!(db.leaps[0].num, 10);
    assert_eq!(db.leaps[1].num, 1);
    assert_eq!(db.leaps[1].time, 2287785600 - 2208988800);
    assert!(db.expired);
}

#[test]
fn common_rdr_reads_num_apids_entries() {
    let hdr = StaticHeader {
        satellite: "NPP".to_string(),
        sensor: "VIIRS".to_string(),
        type_id: "SCIENCE".to_string(),
        num_apids: 0,
        apid_list_offset: 72,
        pkt_tracker_offset: 104,
        ap_storage_offset: 104,
        next_pkt_position: 0,
        start_boundary: 0,
        end_boundary: 0,
    };
    let mut data = Vec::from(hdr.as_bytes());
    data.extend_from_slice(&ApidInfo::new("BAND", 800).as_bytes());
    assert_eq!(data.len(), 104);
    let rdr = CommonRdr::from_bytes(&data).unwrap();
    assert!(rdr.apid_list.is_empty());
    assert!(rdr.packet_trackers.is_empty());
}

#[test]
fn common_rdr_rejects_apid_list_past_tracker_offset() {
    let hdr = StaticHeader {
        satellite: "NPP".to_string(),
        sensor: "VIIRS".to_string(),
        type_id: "SCIENCE".to_string(),
        num_apids: 2,
        apid_list_offset: 72,
        pkt_tracker_offset: 104,
        ap_storage_offset: 104,
        next_pkt_position: 0,
        start_boundary: 0,
        end_boundary: 0,
    };
    let mut data = Vec::from(hdr.as_bytes());
    data.extend_from_slice(&ApidInfo::new("BAND", 800).as_bytes());
    assert!(matches!(
        CommonRdr::from_bytes(&data),
        Err(Error::NotEnoughBytes("CommonRdr"))
    ));
}

#[test]
fn leap_table_from_a_list() {
    let text = "#$ 3692217600\n#@ 4102444800\n2272060800 10 # 1 Jan 1972\n2287785600 11 # 1 Jul 1972\n#h fcd2a5ae 89f7a6de 0106ab71 44af9eb0 036f9843\n";
    let db = rdr::LeapSecs::from_list(text.as_bytes()).expect("list parses");
    assert_eq!(db.leaps.len(), 2);
    assert_eq!(db.leaps[0].num, 10);
    assert_eq!(db.leaps[1].num, 1);
    assert_eq!(db.updated, 3692217600 - 2208988800);
    assert_eq!(db.leap_usecs(63_072_000_000_000), 10_000_000);
    assert!(rdr::LeapSecs::from_list(b"not a list").is_none());
}
