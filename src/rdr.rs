//! The granule accumulator: packets of one product and one granule, kept in the
//! state from which the Common RDR bytes are compiled.
use vstd::prelude::*;

use crate::codec::{ApidInfo, PacketTracker, StaticHeader};
use crate::config::{ProductSpec, SatSpec};
use crate::error::{Error, RdrError};
use crate::packet::Packet;
use crate::time::Time;

verus! {

/// The payload bytes of the stored packets, in arrival order.
pub open spec fn payloads(s: Seq<(u64, Packet)>) -> Seq<u8>
    decreases s.len(),
{
    if s.len() == 0 {
        Seq::empty()
    } else {
        payloads(s.drop_last()) + s.last().1.data@
    }
}

/// The tracker of the `k`th stored packet.
pub open spec fn tracker_for(s: Seq<(u64, Packet)>, k: int) -> PacketTracker {
    PacketTracker {
        obs_time: s[k].0 as i64,
        sequence_number: s[k].1.header.sequence_id as i32,
        size: s[k].1.data@.len() as i32,
        offset: payloads(s.subrange(0, k)).len() as i32,
        fill_percent: 0,
    }
}

/// The number of packets the entries of `list` received.
pub open spec fn received_sum(list: Seq<ApidInfo>) -> nat
    decreases list.len(),
{
    if list.len() == 0 {
        0
    } else {
        (received_sum(list.drop_last()) + list.last().pkts_received) as nat
    }
}

/// The `i`th APID list entry as compiled: its trackers start after those of
/// the entries before it.
pub open spec fn compiled_info(list: Seq<ApidInfo>, i: int) -> ApidInfo {
    ApidInfo {
        pkt_tracker_start_idx: received_sum(list.subrange(0, i)) as u32,
        ..list[i]
    }
}

/// The bytes of the first `n` compiled APID list entries.
pub open spec fn infos_bytes(list: Seq<ApidInfo>, n: nat) -> Seq<u8>
    decreases n,
{
    if n == 0 {
        Seq::empty()
    } else {
        infos_bytes(list, (n - 1) as nat) + compiled_info(list, n - 1).encoded()
    }
}

/// The trackers of the first `n` groups, group after group.
pub open spec fn flat(ts: Seq<Seq<PacketTracker>>, n: nat) -> Seq<PacketTracker>
    decreases n,
{
    if n == 0 {
        Seq::empty()
    } else {
        flat(ts, (n - 1) as nat) + ts[n - 1]
    }
}

/// The bytes of the trackers `t`.
pub open spec fn trackers_bytes(t: Seq<PacketTracker>) -> Seq<u8>
    decreases t.len(),
{
    if t.len() == 0 {
        Seq::empty()
    } else {
        trackers_bytes(t.drop_last()) + t.last().encoded()
    }
}

proof fn lemma_flat_len_mono(ts: Seq<Seq<PacketTracker>>, i: nat, n: nat)
    requires
        i <= n <= ts.len(),
    ensures
        flat(ts, i).len() <= flat(ts, n).len(),
    decreases n,
{
    if i < n {
        lemma_flat_len_mono(ts, i, (n - 1) as nat);
    }
}

proof fn lemma_received_sum_zero(list: Seq<ApidInfo>)
    requires
        forall|i: int| 0 <= i < list.len() ==> (#[trigger] list[i]).pkts_received == 0,
    ensures
        received_sum(list) == 0,
    decreases list.len(),
{
    if list.len() > 0 {
        lemma_received_sum_zero(list.drop_last());
    }
}

proof fn lemma_received_sum_bump(list: Seq<ApidInfo>, i: int, a: ApidInfo)
    requires
        0 <= i < list.len(),
        a.pkts_received == list[i].pkts_received + 1,
    ensures
        received_sum(list.update(i, a)) == received_sum(list) + 1,
    decreases list.len(),
{
    let u = list.update(i, a);
    if i == list.len() - 1 {
        assert(u.drop_last() =~= list.drop_last());
    } else {
        lemma_received_sum_bump(list.drop_last(), i, a);
        assert(u.drop_last() =~= list.drop_last().update(i, a));
    }
}

pub proof fn lemma_received_sum(list: Seq<ApidInfo>, ts: Seq<Seq<PacketTracker>>, i: nat)
    requires
        i <= list.len() == ts.len(),
        forall|m: int| 0 <= m < list.len() ==> (#[trigger] list[m]).pkts_received == ts[m].len(),
    ensures
        received_sum(list.subrange(0, i as int)) == flat(ts, i).len(),
    decreases i,
{
    if i > 0 {
        assert(list.subrange(0, i as int).drop_last() =~= list.subrange(0, i - 1));
        lemma_received_sum(list, ts, (i - 1) as nat);
    }
}

/// Whether `list` holds strictly ascending APID values.
pub open spec fn ascending(list: Seq<ApidInfo>) -> bool {
    forall|i: int, j: int| 0 <= i < j < list.len() ==> list[i].value < list[j].value
}

/// Whether `list` has an entry for APID `v`.
pub open spec fn lists_apid(list: Seq<ApidInfo>, v: u32) -> bool {
    exists|i: int| 0 <= i < list.len() && (#[trigger] list[i]).value == v
}

/// Whether `product` configures APID `v` under the name `name`.
pub open spec fn names_apid(product: ProductSpec, v: u32, name: Seq<char>) -> bool {
    exists|j: int|
        0 <= j < product.apids@.len() && (#[trigger] product.apids@[j]).num as u32 == v
            && product.apids@[j].name@ == name
}

/// The APID list entries that `RdrData::new` starts from: one per configured
/// APID, in ascending order, with its configured name and nothing received.
pub open spec fn fresh_apid_list(product: ProductSpec, list: Seq<ApidInfo>) -> bool {
    &&& ascending(list)
    &&& forall|i: int|
        0 <= i < list.len() ==> {
            &&& product.has_apid((#[trigger] list[i]).value as u16)
            &&& names_apid(product, list[i].value, list[i].name@)
            &&& list[i].value <= u16::MAX
            &&& list[i].pkts_reserved == 0
            &&& list[i].pkts_received == 0
            &&& list[i].pkt_tracker_start_idx == u32::MAX
        }
    &&& forall|j: int|
        0 <= j < product.apids@.len() ==> lists_apid(list, (#[trigger] product.apids@[j]).num as u32)
}

/// Collects metadata and packets into the common RDR structures.
pub struct RdrData {
    pub short_name: String,
    pub header: StaticHeader,
    /// One entry per configured APID, in ascending APID order.
    pub apid_list: Vec<ApidInfo>,
    /// The trackers of each entry of `apid_list`, in arrival order.
    pub trackers: Vec<Vec<PacketTracker>>,
    /// The packets with their IET times, in arrival order.
    pub ap_storage: Vec<(u64, Packet)>,
    /// The number of payload bytes stored so far.
    pub ap_storage_offset: i32,
    /// For each tracker, the index of its packet in `ap_storage`.
    pub origin: Ghost<Seq<Seq<int>>>,
}

impl StaticHeader {
    /// The header of an empty granule of `product` starting at `time`.
    pub fn new(time: &Time, sat: String, product: &ProductSpec) -> (r: StaticHeader)
        requires
            time.iet + product.gran_len <= u64::MAX,
            product.apids@.len() <= u32::MAX,
        ensures
            r.satellite@ == sat@,
            r.sensor@ == product.sensor@,
            r.type_id@ == product.type_id@,
            r.num_apids == product.apids@.len(),
            r.apid_list_offset == 72,
            r.pkt_tracker_offset == 0,
            r.ap_storage_offset == 0,
            r.next_pkt_position == 0,
            r.start_boundary == time.iet,
            r.end_boundary == time.iet + product.gran_len,
    {
        let start_iet = time.iet();
        StaticHeader {
            satellite: sat,
            sensor: product.sensor.clone(),
            type_id: product.type_id.clone(),
            num_apids: product.apids.len() as u32,
            apid_list_offset: 72,
            pkt_tracker_offset: 0,
            ap_storage_offset: 0,
            next_pkt_position: 0,
            start_boundary: start_iet,
            end_boundary: start_iet + product.gran_len,
        }
    }
}

impl RdrData {
    /// The accumulator's invariant.
    #[verifier::opaque]
    pub open spec fn wf(&self) -> bool {
        let s = self.ap_storage@;
        let list = self.apid_list@;
        let ts = self.trackers@;
        let origin = self.origin@;
        &&& list.len() == ts.len()
        &&& origin.len() == ts.len()
        &&& self.header.num_apids == list.len()
        &&& self.header.apid_list_offset == 72
        &&& ascending(list)
        &&& forall|i: int|
            0 <= i < list.len() ==> {
                &&& (#[trigger] list[i]).pkts_received == ts[i]@.len()
                &&& list[i].value <= u16::MAX
                &&& list[i].pkts_reserved == list[i].pkts_received
                &&& origin[i].len() == ts[i]@.len()
            }
        &&& forall|i: int, j: int|
            0 <= i < list.len() && 0 <= j < ts[i]@.len() ==> {
                let k = #[trigger] origin[i][j];
                &&& 0 <= k < s.len()
                &&& s[k].1.header.apid as u32 == list[i].value
                &&& ts[i]@[j] == tracker_for(s, k)
            }
        &&& payloads(s).len() == self.ap_storage_offset
        &&& received_sum(list) == s.len()
        &&& forall|k: int| 0 <= k < s.len() ==> (#[trigger] s[k]).0 <= i64::MAX
    }

    pub fn new(sat: &SatSpec, product: &ProductSpec, time: &Time) -> (r: RdrData)
        requires
            time.iet + product.gran_len <= u64::MAX,
        ensures
            r.wf(),
            r.short_name@ == product.short_name@,
            fresh_apid_list(*product, r.apid_list@),
            r.ap_storage@.len() == 0,
            r.ap_storage_offset == 0,
            r.header.num_apids == r.apid_list@.len(),
            r.header.apid_list_offset == 72,
            r.header.satellite@ == sat.short_name@,
            r.header.sensor@ == product.sensor@,
            r.header.type_id@ == product.type_id@,
            r.header.start_boundary == time.iet,
            r.header.end_boundary == time.iet + product.gran_len,
            r.header.pkt_tracker_offset == 0,
            r.header.ap_storage_offset == 0,
            r.header.next_pkt_position == 0,
    {
        reveal(RdrData::wf);
        let mut apid_list: Vec<ApidInfo> = Vec::new();
        let mut j: usize = 0;
        while j < product.apids.len()
            invariant
                j <= product.apids@.len(),
                ascending(apid_list@),
                apid_list@.len() <= j,
                forall|i: int|
                    0 <= i < apid_list@.len() ==> {
                        &&& product.has_apid((#[trigger] apid_list@[i]).value as u16)
                        &&& names_apid(*product, apid_list@[i].value, apid_list@[i].name@)
                        &&& apid_list@[i].value <= u16::MAX
                        &&& apid_list@[i].pkts_reserved == 0
                        &&& apid_list@[i].pkts_received == 0
                        &&& apid_list@[i].pkt_tracker_start_idx == u32::MAX
                    },
                forall|m: int|
                    0 <= m < j ==> lists_apid(apid_list@, (#[trigger] product.apids@[m]).num as u32),
            decreases product.apids@.len() - j,
        {
            let spec_j = &product.apids[j];
            let value = spec_j.num as u32;
            // position of the first entry not below `value`
            let mut pos: usize = 0;
            while pos < apid_list.len() && apid_list[pos].value < value
                invariant
                    pos <= apid_list@.len(),
                    forall|i: int| 0 <= i < pos ==> (#[trigger] apid_list@[i]).value < value,
                decreases apid_list@.len() - pos,
            {
                pos = pos + 1;
            }
            assert(product.apids@[j as int] == *spec_j);
            assert(product.has_apid(value as u16));
            assert(names_apid(*product, value, spec_j.name@));
            if pos < apid_list.len() && apid_list[pos].value == value {
                // configured twice: the later name stands
                let ghost before = apid_list@;
                apid_list.set(pos, ApidInfo::new(spec_j.name.as_str(), spec_j.num));
                assert forall|m: int| 0 <= m < j + 1 implies lists_apid(
                    apid_list@,
                    (#[trigger] product.apids@[m]).num as u32,
                ) by {
                    if m < j {
                        let i = choose|i: int|
                            0 <= i < before.len() && (#[trigger] before[i]).value
                                == product.apids@[m].num as u32;
                        assert(apid_list@[i].value == before[i].value);
                    } else {
                        assert(apid_list@[pos as int].value == product.apids@[m].num as u32);
                    }
                }
            } else {
                let ghost before = apid_list@;
                apid_list.insert(pos, ApidInfo::new(spec_j.name.as_str(), spec_j.num));
                assert forall|m: int| 0 <= m < j + 1 implies lists_apid(
                    apid_list@,
                    (#[trigger] product.apids@[m]).num as u32,
                ) by {
                    if m < j {
                        let i = choose|i: int|
                            0 <= i < before.len() && (#[trigger] before[i]).value
                                == product.apids@[m].num as u32;
                        if i < pos {
                            assert(apid_list@[i].value == before[i].value);
                        } else {
                            assert(apid_list@[i + 1].value == before[i].value);
                        }
                    } else {
                        assert(apid_list@[pos as int].value == product.apids@[m].num as u32);
                    }
                }
            }
            j = j + 1;
        }
        let mut trackers: Vec<Vec<PacketTracker>> = Vec::new();
        let mut i: usize = 0;
        assert(fresh_apid_list(*product, apid_list@));
        while i < apid_list.len()
            invariant
                i <= apid_list@.len(),
                fresh_apid_list(*product, apid_list@),
                trackers@.len() == i,
                forall|m: int| 0 <= m < i ==> (#[trigger] trackers@[m])@.len() == 0,
            decreases apid_list@.len() - i,
        {
            trackers.push(Vec::new());
            i = i + 1;
        }
        assert(apid_list@.len() <= u16::MAX + 1) by {
            lemma_ascending_u16_len(apid_list@);
        }
        let start_iet = time.iet();
        let header = StaticHeader {
            satellite: sat.short_name.clone(),
            sensor: product.sensor.clone(),
            type_id: product.type_id.clone(),
            num_apids: apid_list.len() as u32,
            apid_list_offset: 72,
            pkt_tracker_offset: 0,
            ap_storage_offset: 0,
            next_pkt_position: 0,
            start_boundary: start_iet,
            end_boundary: start_iet + product.gran_len,
        };
        let r = RdrData {
            short_name: product.short_name.clone(),
            header,
            apid_list,
            trackers,
            ap_storage: Vec::new(),
            ap_storage_offset: 0,
            origin: Ghost(Seq::new(i as nat, |m: int| Seq::<int>::empty())),
        };
        assert(payloads(r.ap_storage@) =~= Seq::<u8>::empty());
        proof {
            lemma_received_sum_zero(r.apid_list@);
        }
        r
    }

    /// The trackers of each APID list entry.
    pub open spec fn tracker_views(&self) -> Seq<Seq<PacketTracker>> {
        self.trackers@.map_values(|v: Vec<PacketTracker>| v@)
    }

    /// All trackers, grouped by APID in ascending APID order.
    pub open spec fn all_trackers(&self) -> Seq<PacketTracker> {
        flat(self.tracker_views(), self.trackers@.len())
    }

    /// Where the compiled tracker table starts.
    pub open spec fn tracker_offset(&self) -> int {
        72 + 32 * (self.apid_list@.len() as int)
    }

    /// Where the compiled packet storage starts.
    pub open spec fn storage_offset(&self) -> int {
        self.tracker_offset() + 24 * self.all_trackers().len()
    }

    /// Whether the compiled offsets fit their `u32` header fields.
    pub open spec fn compiles(&self) -> bool {
        self.storage_offset() <= u32::MAX
    }

    /// The static header as compiled, with its computed offsets.
    pub open spec fn compiled_header(&self) -> StaticHeader {
        StaticHeader {
            pkt_tracker_offset: self.tracker_offset() as u32,
            ap_storage_offset: self.storage_offset() as u32,
            next_pkt_position: self.ap_storage_offset as u32,
            ..self.header
        }
    }

    /// The compiled Common RDR: the header, the APID list in ascending APID
    /// order, the trackers grouped in the same order, then the packet payloads
    /// in arrival order.
    pub open spec fn compiled(&self) -> Seq<u8> {
        self.compiled_header().encoded() + infos_bytes(self.apid_list@, self.apid_list@.len())
            + trackers_bytes(self.all_trackers()) + payloads(self.ap_storage@)
    }

    /// The Common RDR bytes of the current state.
    ///
    /// # Errors
    /// `IntError` if the offsets do not fit the header's `u32` fields.
    pub fn compile(&self) -> (r: Result<Vec<u8>, Error>)
        requires
            self.wf(),
        ensures
            r is Ok <==> self.compiles(),
            r is Ok ==> r->Ok_0@ == self.compiled(),
            r is Err ==> r == Err::<Vec<u8>, Error>(Error::RdrError(RdrError::IntError)),
    {
        reveal(RdrData::wf);
        let ghost views = self.tracker_views();
        let ghost list = self.apid_list@;
        let n = self.apid_list.len();
        proof {
            lemma_ascending_u16_len(list);
        }
        // count trackers per APID
        let mut total: u64 = 0;
        let mut i: usize = 0;
        while i < self.trackers.len()
            invariant
                self.wf(),
                views == self.tracker_views(),
                i <= self.trackers@.len(),
                total == flat(views, i as nat).len(),
                total <= u32::MAX,
            decreases self.trackers@.len() - i,
        {
            proof {
                reveal(RdrData::wf);
            }
            assert(views[i as int] == self.trackers@[i as int]@);
            let len = self.trackers[i].len();
            if len as u64 > u32::MAX as u64 - total {
                proof {
                    lemma_flat_len_mono(views, (i + 1) as nat, self.trackers@.len());
                }
                return Err(Error::RdrError(RdrError::IntError));
            }
            total = total + len as u64;
            i = i + 1;
        }
        let tracker_offset = 72 + 32 * (n as u64);
        if total * 24 > u32::MAX as u64 - tracker_offset {
            return Err(Error::RdrError(RdrError::IntError));
        }
        let storage_offset = tracker_offset + 24 * total;
        let header = StaticHeader {
            satellite: self.header.satellite.clone(),
            sensor: self.header.sensor.clone(),
            type_id: self.header.type_id.clone(),
            num_apids: self.header.num_apids,
            apid_list_offset: self.header.apid_list_offset,
            pkt_tracker_offset: tracker_offset as u32,
            ap_storage_offset: storage_offset as u32,
            next_pkt_position: self.ap_storage_offset as u32,
            start_boundary: self.header.start_boundary,
            end_boundary: self.header.end_boundary,
        };
        assert(header == self.compiled_header());
        let mut data: Vec<u8> = Vec::new();
        header.push_bytes(&mut data);
        let ghost after_header = data@;
        // the APID list, each entry's trackers starting after the earlier ones
        let mut start: u64 = 0;
        let mut i: usize = 0;
        while i < n
            invariant
                self.wf(),
                list == self.apid_list@,
                views == self.tracker_views(),
                n == list.len(),
                i <= n,
                total == flat(views, n as nat).len(),
                total <= u32::MAX,
                start == received_sum(list.subrange(0, i as int)),
                data@ == after_header + infos_bytes(list, i as nat),
            decreases n - i,
        {
            proof {
                reveal(RdrData::wf);
                lemma_received_sum(list, views, i as nat);
                lemma_flat_len_mono(views, i as nat, n as nat);
                assert(list.subrange(0, i + 1).drop_last() =~= list.subrange(0, i as int));
            }
            let a = &self.apid_list[i];
            let info = ApidInfo {
                name: a.name.clone(),
                value: a.value,
                pkt_tracker_start_idx: start as u32,
                pkts_reserved: a.pkts_reserved,
                pkts_received: a.pkts_received,
            };
            assert(info == compiled_info(list, i as int));
            info.push_bytes(&mut data);
            proof {
                lemma_received_sum(list, views, (i + 1) as nat);
                lemma_flat_len_mono(views, (i + 1) as nat, n as nat);
            }
            start = start + a.pkts_received as u64;
            i = i + 1;
        }
        let ghost after_infos = data@;
        // the trackers, grouped in the same APID order
        let mut i: usize = 0;
        while i < n
            invariant
                self.wf(),
                views == self.tracker_views(),
                n == self.trackers@.len(),
                i <= n,
                data@ == after_infos + trackers_bytes(flat(views, i as nat)),
            decreases n - i,
        {
            let group = &self.trackers[i];
            assert(views[i as int] == group@);
            let mut j: usize = 0;
            while j < group.len()
                invariant
                    views[i as int] == group@,
                    j <= group@.len(),
                    data@ == after_infos + trackers_bytes(
                        flat(views, i as nat) + group@.subrange(0, j as int),
                    ),
                decreases group@.len() - j,
            {
                group[j].push_bytes(&mut data);
                proof {
                    let x = flat(views, i as nat) + group@.subrange(0, j + 1);
                    assert(x.drop_last() =~= flat(views, i as nat) + group@.subrange(0, j as int));
                }
                j = j + 1;
            }
            assert(group@.subrange(0, group@.len() as int) =~= group@);
            i = i + 1;
        }
        let ghost after_trackers = data@;
        // the packets, in arrival order
        let mut k: usize = 0;
        while k < self.ap_storage.len()
            invariant
                k <= self.ap_storage@.len(),
                data@ == after_trackers + payloads(self.ap_storage@.subrange(0, k as int)),
            decreases self.ap_storage@.len() - k,
        {
            let bytes = &self.ap_storage[k].1.data;
            let ghost before = data@;
            let mut j: usize = 0;
            while j < bytes.len()
                invariant
                    j <= bytes@.len(),
                    data@ == before + bytes@.subrange(0, j as int),
                decreases bytes@.len() - j,
            {
                data.push(bytes[j]);
                assert(data@ =~= before + bytes@.subrange(0, j + 1));
                j = j + 1;
            }
            proof {
                assert(self.ap_storage@.subrange(0, k + 1).drop_last() =~= self.ap_storage@.subrange(
                    0,
                    k as int,
                ));
                assert(bytes@.subrange(0, bytes@.len() as int) =~= bytes@);
                assert(data@ =~= after_trackers + payloads(self.ap_storage@.subrange(0, k + 1)));
            }
            k = k + 1;
        }
        proof {
            assert(self.ap_storage@.subrange(0, self.ap_storage@.len() as int) =~= self.ap_storage@);
            assert(data@ =~= self.compiled());
        }
        Ok(data)
    }

    /// Whether the packet fits the tracker fields: its size, the running
    /// offset after it and its time, and the count of its APID.
    pub open spec fn accepts(&self, iet: u64, pkt: Packet) -> bool {
        &&& pkt.data@.len() <= i32::MAX
        &&& self.ap_storage_offset + pkt.data@.len() <= i32::MAX
        &&& iet <= i64::MAX
        &&& forall|i: int|
            0 <= i < self.apid_list@.len() && (#[trigger] self.apid_list@[i]).value
                == pkt.header.apid as u32 ==> self.apid_list@[i].pkts_received < u32::MAX
    }

    /// Whether `new` is `old` with `pkt`, observed at `iet`, added to the
    /// entry of its APID.
    pub open spec fn added(old: &RdrData, new: &RdrData, iet: u64, pkt: Packet) -> bool {
        let n = old.ap_storage@.len();
        &&& new.short_name == old.short_name
        &&& new.header == old.header
        &&& new.ap_storage@ == old.ap_storage@.push((iet, pkt))
        &&& new.ap_storage_offset == old.ap_storage_offset + pkt.data@.len()
        &&& new.apid_list@.len() == old.apid_list@.len()
        &&& new.trackers@.len() == old.trackers@.len()
        &&& forall|i: int|
            0 <= i < old.apid_list@.len() ==> if (#[trigger] old.apid_list@[i]).value
                == pkt.header.apid as u32 {
                &&& new.apid_list@[i] == (ApidInfo {
                    pkts_reserved: (old.apid_list@[i].pkts_reserved + 1) as u32,
                    pkts_received: (old.apid_list@[i].pkts_received + 1) as u32,
                    ..old.apid_list@[i]
                })
                &&& new.trackers@[i]@ == old.trackers@[i]@.push(tracker_for(new.ap_storage@, n as int))
            } else {
                &&& new.apid_list@[i] == old.apid_list@[i]
                &&& new.trackers@[i] == old.trackers@[i]
            }
    }

    /// Add a packet observed at `pkt_time` to the entry of its APID.
    ///
    /// # Errors
    /// `InvalidPacketApid` if its APID is not configured for this product, and
    /// `InvalidPacket` if it does not fit the tracker fields; the accumulator is
    /// then unchanged.
    pub fn add_packet(&mut self, pkt_time: &Time, pkt: Packet) -> (r: Result<(), Error>)
        requires
            old(self).wf(),
        ensures
            final(self).wf(),
            !lists_apid(old(self).apid_list@, pkt.header.apid as u32) ==> r == Err::<(), Error>(
                Error::RdrError(RdrError::InvalidPacketApid(pkt.header.apid)),
            ),
            lists_apid(old(self).apid_list@, pkt.header.apid as u32) && !old(self).accepts(
                pkt_time.iet,
                pkt,
            ) ==> r == Err::<(), Error>(Error::RdrError(RdrError::InvalidPacket(pkt.header))),
            r is Ok <==> lists_apid(old(self).apid_list@, pkt.header.apid as u32) && old(
                self,
            ).accepts(pkt_time.iet, pkt),
            r is Err ==> *final(self) == *old(self),
            r is Ok ==> Self::added(old(self), final(self), pkt_time.iet, pkt),
    {
        reveal(RdrData::wf);
        let apid = pkt.header.apid as u32;
        let mut i: usize = 0;
        while i < self.apid_list.len() && self.apid_list[i].value != apid
            invariant
                i <= self.apid_list@.len(),
                forall|m: int| 0 <= m < i ==> (#[trigger] self.apid_list@[m]).value != apid,
            decreases self.apid_list@.len() - i,
        {
            i = i + 1;
        }
        if i == self.apid_list.len() {
            return Err(Error::RdrError(RdrError::InvalidPacketApid(pkt.header.apid)));
        }
        assert(lists_apid(self.apid_list@, apid));
        let iet = pkt_time.iet();
        let size = pkt.data.len();
        if size > i32::MAX as usize || self.ap_storage_offset as usize > i32::MAX as usize - size
            || iet > i64::MAX as u64 || self.apid_list[i].pkts_received == u32::MAX {
            proof {
                if self.accepts(iet, pkt) {
                    assert(self.apid_list@[i as int].value == apid);
                }
            }
            return Err(Error::RdrError(RdrError::InvalidPacket(pkt.header)));
        }
        proof {
            assert forall|m: int|
                0 <= m < self.apid_list@.len() && (#[trigger] self.apid_list@[m]).value
                    == apid implies m == i by {
                if m != i {
                    assert(self.apid_list@[m].value != self.apid_list@[i as int].value);
                }
            }
        }
        let ghost old_self = *self;
        let ghost n = self.ap_storage@.len();
        let ghost s2 = self.ap_storage@.push((iet, pkt));
        let tracker = PacketTracker {
            obs_time: iet as i64,
            sequence_number: pkt.header.sequence_id as i32,
            size: size as i32,
            offset: self.ap_storage_offset,
            fill_percent: 0,
        };
        proof {
            assert(s2.subrange(0, n as int) =~= self.ap_storage@);
            assert(tracker == tracker_for(s2, n as int));
        }
        let old_info = &self.apid_list[i];
        let info = ApidInfo {
            name: old_info.name.clone(),
            value: old_info.value,
            pkt_tracker_start_idx: old_info.pkt_tracker_start_idx,
            pkts_reserved: old_info.pkts_reserved + 1,
            pkts_received: old_info.pkts_received + 1,
        };
        let ghost list_before = self.apid_list@;
        self.apid_list.set(i, info);
        proof {
            lemma_received_sum_bump(list_before, i as int, info);
        }
        let mut ts: Vec<PacketTracker> = Vec::new();
        std::mem::swap(&mut ts, &mut self.trackers[i]);
        ts.push(tracker);
        self.trackers.set(i, ts);
        self.ap_storage.push((iet, pkt));
        self.ap_storage_offset = self.ap_storage_offset + size as i32;
        self.origin = Ghost(
            self.origin@.update(i as int, self.origin@[i as int].push(n as int)),
        );
        proof {
            let s = old_self.ap_storage@;
            assert(self.ap_storage@ == s2);
            assert(s2.drop_last() =~= s);
            assert forall|k: int| 0 <= k < n implies tracker_for(s2, k) == tracker_for(s, k) by {
                assert(s2.subrange(0, k) =~= s.subrange(0, k));
            }
            assert forall|a: int, b: int|
                0 <= a < self.apid_list@.len() && 0 <= b < self.trackers@[a]@.len() implies {
                let k = #[trigger] self.origin@[a][b];
                &&& 0 <= k < self.ap_storage@.len()
                &&& self.ap_storage@[k].1.header.apid as u32 == self.apid_list@[a].value
                &&& self.trackers@[a]@[b] == tracker_for(self.ap_storage@, k)
            } by {
                if a == i && b == old_self.trackers@[a]@.len() {
                } else {
                    let k = old_self.origin@[a][b];
                    assert(tracker_for(s2, k) == tracker_for(s, k));
                }
            }
        }
        Ok(())
    }
}

/// Strictly ascending values of at most `u16::MAX` number at most 65536.
proof fn lemma_ascending_u16_len(list: Seq<ApidInfo>)
    requires
        ascending(list),
        forall|i: int| 0 <= i < list.len() ==> (#[trigger] list[i]).value <= u16::MAX,
    ensures
        list.len() <= u16::MAX + 1,
{
    if list.len() > 0 {
        lemma_ascending_lower_bound(list, list.len() - 1);
    }
}

proof fn lemma_ascending_lower_bound(list: Seq<ApidInfo>, i: int)
    requires
        ascending(list),
        0 <= i < list.len(),
    ensures
        list[i].value >= i,
    decreases i,
{
    if i > 0 {
        lemma_ascending_lower_bound(list, i - 1);
    }
}

} // verus!
