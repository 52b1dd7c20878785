use rdr::{
    packet_bytes, rdr_filename_meta, AggrMeta, ApidSpec, Collector, CommonRdr, Config, Error, Meta,
    Packet, PrimaryHeader, ProductMeta, ProductSpec, RdrError, RdrSpec, SatSpec, Time,
};

const BASE_TIME: u64 = 1698019234000000;
const VIIRS_LEN: u64 = 85_350_000;
const DIARY_LEN: u64 = 20_000_000;

fn sat() -> SatSpec {
    SatSpec {
        id: "npp".to_string(),
        short_name: "NPP".to_string(),
        base_time: BASE_TIME,
        mission: "S-NPP/JPSS".to_string(),
    }
}

fn apid(num: u16, name: &str) -> ApidSpec {
    ApidSpec {
        num,
        name: name.to_string(),
        max_expected: 100,
    }
}

fn products() -> Vec<ProductSpec> {
    vec![
        ProductSpec {
            product_id: "RVIRS".to_string(),
            sensor: "VIIRS".to_string(),
            short_name: "VIIRS-SCIENCE-RDR".to_string(),
            type_id: "SCIENCE".to_string(),
            gran_len: VIIRS_LEN,
            apids: vec![apid(826, "CAL"), apid(800, "M04")],
        },
        ProductSpec {
            product_id: "RNSCA".to_string(),
            sensor: "SPACECRAFT".to_string(),
            short_name: "SPACECRAFT-DIARY-RDR".to_string(),
            type_id: "DIARY".to_string(),
            gran_len: DIARY_LEN,
            apids: vec![apid(0, "CRITICAL"), apid(11, "ADCS_HKH")],
        },
    ]
}

fn rdrs() -> Vec<RdrSpec> {
    vec![RdrSpec {
        product: "RVIRS".to_string(),
        packed_with: vec!["RNSCA".to_string()],
    }]
}

fn packet(apid: u16, seq: u16, data: Vec<u8>) -> Packet {
    Packet {
        header: PrimaryHeader {
            apid,
            sequence_id: seq,
        },
        data,
    }
}

fn collector() -> Collector {
    Collector::new(sat(), &rdrs(), &products())
}

#[test]
fn empty_input_yields_nothing() {
    let finished = collector().finish().unwrap();
    assert!(finished.is_empty());
}

#[test]
fn unknown_apids_are_ignored() {
    let mut c = collector();
    let t = Time::from_iet(BASE_TIME + 10);
    assert!(c.add(&t, packet(1234, 0, vec![1, 2, 3])).unwrap().is_none());
    assert!(c.finish().unwrap().is_empty());
}

#[test]
fn stale_packet_is_rejected() {
    let mut c = collector();
    let t = Time::from_iet(BASE_TIME - 1);
    assert_eq!(
        c.add(&t, packet(800, 0, vec![1])).unwrap_err(),
        Error::RdrError(RdrError::InvalidGranuleStart(BASE_TIME - 1))
    );
    assert!(c.finish().unwrap().is_empty());
}

#[test]
fn single_primary_granule_is_emitted_after_two_more() {
    let g = BASE_TIME + 100 * VIIRS_LEN;
    let mut c = collector();
    let mut payloads: Vec<Vec<u8>> = Vec::new();
    for i in 0..5u16 {
        let apid = if i % 2 == 0 { 800 } else { 826 };
        let data = vec![i as u8; 10 + i as usize];
        payloads.push(data.clone());
        let out = c.add(&Time::from_iet(g + u64::from(i) * 1000), packet(apid, i, data));
        assert!(out.unwrap().is_none());
    }
    assert!(c
        .add(&Time::from_iet(g + VIIRS_LEN), packet(800, 5, vec![9]))
        .unwrap()
        .is_none());
    let emitted = c
        .add(&Time::from_iet(g + 2 * VIIRS_LEN), packet(800, 6, vec![9]))
        .unwrap()
        .expect("first granule complete");
    assert_eq!(emitted.len(), 1);
    let rdr = &emitted[0];
    assert_eq!(rdr.product_id, "RVIRS");
    assert_eq!(rdr.meta.begin_time_iet, g);
    assert_eq!(rdr.meta.end_time_iet, g + VIIRS_LEN);
    assert_eq!(rdr.meta.packet_type, vec!["M04".to_string(), "CAL".to_string()]);
    assert_eq!(rdr.meta.packet_type_count, vec![3, 2]);

    let common = CommonRdr::from_bytes(&rdr.data).unwrap();
    let hdr = &common.static_header;
    assert_eq!(hdr.num_apids, 2);
    assert_eq!(hdr.apid_list_offset, 72);
    assert_eq!(hdr.pkt_tracker_offset, 72 + 32 * 2);
    assert_eq!(hdr.ap_storage_offset, 72 + 32 * 2 + 24 * 5);
    let total: usize = payloads.iter().map(Vec::len).sum();
    assert_eq!(hdr.next_pkt_position as usize, total);
    assert_eq!(hdr.start_boundary, g);
    assert_eq!(hdr.end_boundary, g + VIIRS_LEN);
    assert_eq!(common.packet_trackers.len(), 5);
    assert_eq!(common.apid_list[0].value, 800);
    assert_eq!(common.apid_list[0].pkt_tracker_start_idx, 0);
    assert_eq!(common.apid_list[1].value, 826);
    assert_eq!(common.apid_list[1].pkt_tracker_start_idx, 3);
    // storage is every payload in arrival order
    let storage = &rdr.data[hdr.ap_storage_offset as usize..];
    assert_eq!(storage, payloads.concat().as_slice());
    // every tracker points at its packet
    for t in &common.packet_trackers {
        let start = t.offset as usize;
        let bytes = &storage[start..start + t.size as usize];
        assert_eq!(bytes, payloads[t.sequence_number as usize].as_slice());
        assert_eq!(t.fill_percent, 0);
    }

    // dumping gives the payloads APID after APID, each in arrival order
    let dumped = packet_bytes(&rdr.data).unwrap();
    let mut expected: Vec<u8> = Vec::new();
    for i in [0usize, 2, 4, 1, 3] {
        expected.extend_from_slice(&payloads[i]);
    }
    assert_eq!(dumped, expected);

    let rest = c.finish().unwrap();
    assert_eq!(rest.len(), 2);
    assert_eq!(rest[0][0].meta.begin_time_iet, g + VIIRS_LEN);
    assert_eq!(rest[1][0].meta.begin_time_iet, g + 2 * VIIRS_LEN);
}

#[test]
fn primary_and_overlapping_packed_granules() {
    // G is aligned to both granule lengths with the diary granules at
    // G - DIARY_LEN / 2 and G + DIARY_LEN / 2.
    let g = BASE_TIME + 200 * VIIRS_LEN;
    let before = g - DIARY_LEN / 2;
    let after = g + DIARY_LEN / 2;
    assert_eq!((before - BASE_TIME) % DIARY_LEN, 0);
    let mut c = collector();
    assert!(c
        .add(&Time::from_iet(before), packet(0, 1, vec![1, 1]))
        .unwrap()
        .is_none());
    assert!(c
        .add(&Time::from_iet(g), packet(800, 2, vec![2, 2]))
        .unwrap()
        .is_none());
    assert!(c
        .add(&Time::from_iet(after), packet(11, 3, vec![3, 3]))
        .unwrap()
        .is_none());
    // a diary granule that does not overlap G
    assert!(c
        .add(&Time::from_iet(g + 5 * DIARY_LEN), packet(0, 4, vec![4]))
        .unwrap()
        .is_none());
    assert!(c
        .add(&Time::from_iet(g + VIIRS_LEN), packet(800, 5, vec![5]))
        .unwrap()
        .is_none());
    let emitted = c
        .add(&Time::from_iet(g + 2 * VIIRS_LEN), packet(800, 6, vec![6]))
        .unwrap()
        .expect("granule complete");
    assert_eq!(emitted.len(), 3);
    assert_eq!(emitted[0].product_id, "RVIRS");
    assert_eq!(emitted[0].meta.begin_time_iet, g);
    let mut packed: Vec<u64> = emitted[1..]
        .iter()
        .map(|r| {
            assert_eq!(r.product_id, "RNSCA");
            r.meta.begin_time_iet
        })
        .collect();
    packed.sort_unstable();
    assert_eq!(packed, vec![before, after]);
}

#[test]
fn aggregate_and_file_metadata() {
    let g = BASE_TIME + 100 * VIIRS_LEN;
    let mut c = collector();
    c.add(&Time::from_iet(g), packet(800, 0, vec![1])).unwrap();
    c.add(&Time::from_iet(g + VIIRS_LEN), packet(800, 1, vec![2])).unwrap();
    c.add(&Time::from_iet(g + DIARY_LEN), packet(0, 2, vec![3])).unwrap();
    let groups = c.finish().unwrap();
    assert_eq!(groups.len(), 2);
    let rdrs: Vec<_> = groups.into_iter().map(|mut v| v.remove(0)).collect();
    let aggr = AggrMeta::from_rdrs(&rdrs);
    assert_eq!(aggr.num_granules, 2);
    assert_eq!(aggr.begin_granule_id, rdrs[0].meta.id);
    assert_eq!(aggr.end_granule_id, rdrs[1].meta.id);
    assert_eq!(aggr.begin_orbit_nubmer, 1);

    let (start, end, ids) = rdr_filename_meta(&rdrs).unwrap();
    assert_eq!(start.iet(), g);
    assert_eq!(end.iet(), g + 2 * VIIRS_LEN);
    assert_eq!(ids, vec!["RVIRS".to_string()]);

    let pm = ProductMeta::from_rdr(&rdrs[0]);
    assert_eq!(pm.collection, "VIIRS-SCIENCE-RDR");
    assert_eq!(pm.dataset_type, "RDR");
}

fn config() -> Config {
    Config {
        origin: "origin".to_string(),
        mode: "ops".to_string(),
        distributor: "arch".to_string(),
        satellite: sat(),
        products: products(),
        rdrs: rdrs(),
    }
}

#[test]
fn meta_from_products() {
    let meta = Meta::from_products(&["VIIRS-SCIENCE-RDR".to_string()], &config())
        .unwrap()
        .unwrap();
    assert_eq!(meta.products.len(), 1);
    assert_eq!(meta.products[0].instrument, "VIIRS");
    assert_eq!(meta.mission, "S-NPP/JPSS");
    assert_eq!(meta.platform, "NPP");
    assert!(Meta::from_products(&["NOPE".to_string()], &config())
        .unwrap()
        .is_none());
}

#[test]
fn config_validation() {
    assert!(config().validate().is_ok());
    let mut bad = config();
    bad.rdrs[0].packed_with.push("RMISSING".to_string());
    match bad.validate() {
        Err(Error::ConfigInvalid(msg)) => {
            assert_eq!(msg, "product RVIRS has invalid packed product RMISSING")
        }
        _ => panic!("expected an invalid config"),
    }
}

#[test]
fn product_apid_lookup() {
    let p = &products()[0];
    assert_eq!(p.get_apid(800).unwrap().name, "M04");
    assert!(p.get_apid(1).is_none());
}

#[test]
fn packet_apid_not_in_product_is_rejected() {
    let mut data = rdr::RdrData::new(&sat(), &products()[0], &Time::from_iet(BASE_TIME));
    assert_eq!(
        data.add_packet(&Time::from_iet(BASE_TIME), packet(5, 0, vec![1])),
        Err(Error::RdrError(RdrError::InvalidPacketApid(5)))
    );
    assert!(data
        .add_packet(&Time::from_iet(BASE_TIME), packet(800, 0, vec![1, 2]))
        .is_ok());
    assert_eq!(data.ap_storage_offset, 2);
    let bytes = data.compile().unwrap();
    assert_eq!(bytes.len(), 72 + 2 * 32 + 24 + 2);
}

#[test]
fn packet_time_past_tracker_range_is_rejected() {
    let mut data = rdr::RdrData::new(&sat(), &products()[0], &Time::from_iet(BASE_TIME));
    let pkt = packet(800, 7, vec![1]);
    let header = pkt.header;
    assert_eq!(
        data.add_packet(&Time::from_iet(i64::MAX as u64 + 1), pkt),
        Err(Error::RdrError(RdrError::InvalidPacket(header)))
    );
    assert_eq!(data.ap_storage.len(), 0);
}

#[test]
fn granule_past_the_largest_time_is_rejected() {
    let mut c = collector();
    let iet = u64::MAX - 5;
    assert_eq!(
        c.add(&Time::from_iet(iet), packet(800, 0, vec![1])).unwrap_err(),
        Error::RdrError(RdrError::InvalidTime(iet))
    );
}

#[test]
fn split_by_apid_keeps_first_seen_order() {
    let pkts = vec![
        packet(11, 0, vec![1, 1]),
        packet(0, 1, vec![2]),
        packet(11, 2, vec![3]),
        packet(8, 3, vec![4, 4, 4]),
        packet(0, 4, vec![5]),
    ];
    let split = rdr::split_by_apid(&pkts);
    assert_eq!(
        split,
        vec![
            (11, vec![1, 1, 3]),
            (0, vec![2, 5]),
            (8, vec![4, 4, 4]),
        ]
    );
    assert!(rdr::split_by_apid(&[]).is_empty());
}

#[test]
fn finish_at_flushes_each_granule_with_its_packed() {
    let g = BASE_TIME + 200 * VIIRS_LEN;
    let mut c = collector();
    c.add(&Time::from_iet(g - DIARY_LEN / 2), packet(0, 1, vec![1])).unwrap();
    c.add(&Time::from_iet(g), packet(800, 2, vec![2])).unwrap();
    c.add(&Time::from_iet(g + DIARY_LEN / 2), packet(11, 3, vec![3])).unwrap();
    let groups = c.finish_at(&Time::from_iet(g));
    assert_eq!(groups.len(), 1);
    assert_eq!(groups[0].len(), 3);
    assert_eq!(groups[0][0].meta.begin_time_iet, g);
    assert_eq!(groups[0][1].meta.begin_time_iet, g - DIARY_LEN / 2);
    assert_eq!(groups[0][2].meta.begin_time_iet, g + DIARY_LEN / 2);
}
