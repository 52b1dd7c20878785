//! What a compiled Common RDR holds: decoding the bytes that an accumulator
//! compiles gives its state back, and every tracker points at its packet.
use vstd::prelude::*;

use crate::bytes::fits_field;
use crate::codec::{
    apid_count, apid_list_start, apids_are_text, layout_ok, lemma_apid_info_round_trip,
    lemma_header_len, lemma_header_round_trip, lemma_tracker_round_trip, storage_start,
    tracker_count, tracker_start, ApidInfo, CommonRdr, PacketTracker, StaticHeader,
};
use crate::packet::Packet;
use crate::rdr::{
    compiled_info, infos_bytes, lemma_received_sum, payloads, trackers_bytes, RdrData,
};

verus! {

proof fn lemma_infos_bytes(list: Seq<ApidInfo>, n: nat, k: int)
    requires
        n <= list.len(),
        0 <= k < n,
    ensures
        infos_bytes(list, n).len() == 32 * n,
        infos_bytes(list, n).subrange(32 * k, 32 * k + 32) == compiled_info(list, k).encoded(),
    decreases n,
{
    crate::codec::lemma_apid_info_len(&compiled_info(list, n - 1));
    if n > 1 {
        lemma_infos_bytes_len(list, (n - 1) as nat);
        if k < n - 1 {
            lemma_infos_bytes(list, (n - 1) as nat, k);
        }
    } else {
        assert(infos_bytes(list, 0) =~= Seq::<u8>::empty());
    }
    let prev = infos_bytes(list, (n - 1) as nat);
    let e = compiled_info(list, n - 1).encoded();
    if k < n - 1 {
        assert((prev + e).subrange(32 * k, 32 * k + 32) =~= prev.subrange(32 * k, 32 * k + 32));
    } else {
        assert((prev + e).subrange(32 * k, 32 * k + 32) =~= e);
    }
}

proof fn lemma_infos_bytes_len(list: Seq<ApidInfo>, n: nat)
    requires
        n <= list.len(),
    ensures
        infos_bytes(list, n).len() == 32 * n,
    decreases n,
{
    if n > 0 {
        crate::codec::lemma_apid_info_len(&compiled_info(list, n - 1));
        lemma_infos_bytes_len(list, (n - 1) as nat);
    }
}

proof fn lemma_trackers_bytes(t: Seq<PacketTracker>, k: int)
    requires
        0 <= k < t.len(),
    ensures
        trackers_bytes(t).len() == 24 * t.len(),
        trackers_bytes(t).subrange(24 * k, 24 * k + 24) == t[k].encoded(),
    decreases t.len(),
{
    let prev = trackers_bytes(t.drop_last());
    let e = t.last().encoded();
    crate::codec::lemma_tracker_len(&t.last());
    lemma_trackers_bytes_len(t.drop_last());
    if k < t.len() - 1 {
        lemma_trackers_bytes(t.drop_last(), k);
        assert((prev + e).subrange(24 * k, 24 * k + 24) =~= prev.subrange(24 * k, 24 * k + 24));
    } else {
        assert((prev + e).subrange(24 * k, 24 * k + 24) =~= e);
    }
}

proof fn lemma_trackers_bytes_len(t: Seq<PacketTracker>)
    ensures
        trackers_bytes(t).len() == 24 * t.len(),
    decreases t.len(),
{
    if t.len() > 0 {
        crate::codec::lemma_tracker_len(&t.last());
        lemma_trackers_bytes_len(t.drop_last());
    }
}

/// The payload of the `k`th stored packet lies where its tracker's offset says.
pub proof fn lemma_payload_at(s: Seq<(u64, Packet)>, k: int)
    requires
        0 <= k < s.len(),
    ensures
        payloads(s.subrange(0, k)).len() + s[k].1.data@.len() <= payloads(s).len(),
        payloads(s).subrange(
            payloads(s.subrange(0, k)).len() as int,
            (payloads(s.subrange(0, k)).len() + s[k].1.data@.len()) as int,
        ) == s[k].1.data@,
    decreases s.len(),
{
    let prev = payloads(s.drop_last());
    if k == s.len() - 1 {
        assert(s.subrange(0, k) =~= s.drop_last());
        assert((prev + s.last().1.data@).subrange(prev.len() as int, (prev.len() + s[k].1.data@.len()) as int)
            =~= s[k].1.data@);
    } else {
        lemma_payload_at(s.drop_last(), k);
        assert(s.drop_last().subrange(0, k) =~= s.subrange(0, k));
        let off = payloads(s.subrange(0, k)).len() as int;
        assert((prev + s.last().1.data@).subrange(off, off + s[k].1.data@.len()) =~= prev.subrange(
            off,
            off + s[k].1.data@.len(),
        ));
    }
}

/// Whether the texts of the accumulator fit their fields, holding no NUL byte.
pub open spec fn texts_fit(x: RdrData) -> bool {
    &&& x.header.fits()
    &&& forall|i: int| 0 <= i < x.apid_list@.len() ==> fits_field((#[trigger] x.apid_list@[i]).name@, 16)
}

/// The Common RDR that an accumulator compiles decodes: its header holds the
/// computed offsets (the APID list right after the 72 header bytes, the
/// trackers after 32 bytes per APID, the packets after 24 bytes per tracker,
/// one tracker per packet,
/// the payload byte count as the next position), its APID list and trackers
/// are the accumulator's own in ascending APID order, and its packet storage
/// is the packets' payloads in arrival order, each where its tracker points.
#[verifier::rlimit(60)]
pub proof fn lemma_compiled_rdr_decodes(x: RdrData)
    requires
        x.wf(),
        x.compiles(),
        texts_fit(x),
    ensures
        ({
            let d = x.compiled();
            &&& d.len() >= StaticHeader::LEN
            &&& StaticHeader::is_text(d.subrange(0, 72))
            &&& layout_ok(d)
            &&& apids_are_text(d)
            &&& apid_list_start(d) == 72
            &&& tracker_start(d) == 72 + 32 * x.apid_list@.len()
            &&& storage_start(d) == tracker_start(d) + 24 * x.all_trackers().len()
            &&& x.all_trackers().len() == x.ap_storage@.len()
            &&& d.subrange(storage_start(d), d.len() as int) == payloads(x.ap_storage@)
        }),
        forall|c: CommonRdr|
            #![trigger CommonRdr::decodes_to(x.compiled(), c)]
            CommonRdr::decodes_to(x.compiled(), c) ==> {
                &&& c.static_header.same(&x.compiled_header())
                &&& c.static_header.apid_list_offset == 72
                &&& c.static_header.next_pkt_position == payloads(x.ap_storage@).len()
                &&& c.apid_list@.len() == x.apid_list@.len()
                &&& forall|k: int|
                    0 <= k < c.apid_list@.len() ==> (#[trigger] c.apid_list@[k]).same(
                        &compiled_info(x.apid_list@, k),
                    )
                &&& c.packet_trackers@ == x.all_trackers()
            },
        forall|i: int, j: int|
            0 <= i < x.trackers@.len() && 0 <= j < x.trackers@[i]@.len() ==> {
                let t = #[trigger] x.trackers@[i]@[j];
                let d = x.compiled();
                &&& 0 <= t.offset
                &&& 0 <= t.size
                &&& x.storage_offset() + t.offset + t.size <= d.len()
                &&& d.subrange(
                    x.storage_offset() + t.offset,
                    x.storage_offset() + t.offset + t.size,
                ) == x.ap_storage@[x.origin@[i][j]].1.data@
            },
{
    reveal(RdrData::wf);
    let d = x.compiled();
    let h = x.compiled_header();
    assert(forall|m: int|
        0 <= m < x.apid_list@.len() ==> (#[trigger] x.apid_list@[m]).pkts_received == x.tracker_views()[m].len());
    lemma_received_sum(x.apid_list@, x.tracker_views(), x.apid_list@.len());
    assert(x.apid_list@.subrange(0, x.apid_list@.len() as int) =~= x.apid_list@);
    let list = x.apid_list@;
    let n = list.len();
    let all = x.all_trackers();
    let ib = infos_bytes(list, n);
    let tb = trackers_bytes(all);
    let pb = payloads(x.ap_storage@);
    lemma_header_len(&h);
    lemma_infos_bytes_len(list, n);
    lemma_trackers_bytes_len(all);
    lemma_header_round_trip(h);
    assert(d == h.encoded() + ib + tb + pb);
    let so = x.storage_offset();
    assert(so == 72 + 32 * n + 24 * all.len());
    assert(d.subrange(0, 72) =~= h.encoded());
    assert(d.subrange(40, 44) =~= d.subrange(0, 72).subrange(40, 44));
    assert(d.subrange(44, 48) =~= d.subrange(0, 72).subrange(44, 48));
    assert(d.subrange(48, 52) =~= d.subrange(0, 72).subrange(48, 52));
    assert(apid_list_start(d) == 72);
    assert(tracker_start(d) == 72 + 32 * n);
    assert(storage_start(d) == so);
    assert(d.subrange(so, d.len() as int) =~= pb);
    assert(apid_count(d) == n);
    assert forall|k: int| 0 <= k < apid_count(d) implies #[trigger] ApidInfo::is_text(
        d.subrange(apid_list_start(d) + 32 * k, apid_list_start(d) + 32 * k + 32),
    ) && ApidInfo::decodes_to(
        d.subrange(apid_list_start(d) + 32 * k, apid_list_start(d) + 32 * k + 32),
        compiled_info(list, k),
    ) by {
        lemma_infos_bytes(list, n, k);
        assert(d.subrange(72 + 32 * k, 72 + 32 * k + 32) =~= ib.subrange(32 * k, 32 * k + 32));
        assert(fits_field(list[k].name@, 16));
        lemma_apid_info_round_trip(compiled_info(list, k));
    }
    assert(tracker_count(d) == all.len());
    assert forall|k: int| 0 <= k < all.len() implies PacketTracker::decode(
        d.subrange(tracker_start(d) + 24 * k, tracker_start(d) + 24 * k + 24),
    ) == all[k] by {
        lemma_trackers_bytes(all, k);
        assert(d.subrange(72 + 32 * n + 24 * k, 72 + 32 * n + 24 * k + 24) =~= tb.subrange(
            24 * k,
            24 * k + 24,
        ));
        lemma_tracker_round_trip(all[k]);
    }
    assert forall|c: CommonRdr|
        #![trigger CommonRdr::decodes_to(x.compiled(), c)]
        CommonRdr::decodes_to(x.compiled(), c) implies {
        &&& c.static_header.same(&x.compiled_header())
        &&& c.static_header.apid_list_offset == 72
        &&& c.static_header.next_pkt_position == payloads(x.ap_storage@).len()
        &&& c.apid_list@.len() == x.apid_list@.len()
        &&& forall|k: int|
            0 <= k < c.apid_list@.len() ==> (#[trigger] c.apid_list@[k]).same(
                &compiled_info(x.apid_list@, k),
            )
        &&& c.packet_trackers@ == x.all_trackers()
    } by {
        assert forall|k: int| 0 <= k < c.apid_list@.len() implies (#[trigger] c.apid_list@[k]).same(
            &compiled_info(x.apid_list@, k),
        ) by {
            assert(ApidInfo::is_text(
                d.subrange(apid_list_start(d) + 32 * k, apid_list_start(d) + 32 * k + 32),
            ));
            assert(ApidInfo::decodes_to(
                d.subrange(apid_list_start(d) + 32 * k, apid_list_start(d) + 32 * k + 32),
                compiled_info(list, k),
            ));
        }
        assert(c.packet_trackers@ =~= all);
    }
    assert forall|i: int, j: int|
        0 <= i < x.trackers@.len() && 0 <= j < x.trackers@[i]@.len() implies {
        let t = #[trigger] x.trackers@[i]@[j];
        &&& 0 <= t.offset
        &&& 0 <= t.size
        &&& x.storage_offset() + t.offset + t.size <= d.len()
        &&& d.subrange(x.storage_offset() + t.offset, x.storage_offset() + t.offset + t.size)
            == x.ap_storage@[x.origin@[i][j]].1.data@
    } by {
        let s = x.ap_storage@;
        let k = x.origin@[i][j];
        lemma_payload_at(s, k);
        let off = payloads(s.subrange(0, k)).len();
        let len = s[k].1.data@.len();
        assert(off + len <= pb.len() == x.ap_storage_offset <= i32::MAX);
        assert(d.subrange(so + off, so + off + len) =~= pb.subrange(off as int, (off + len) as int));
    }
}

} // verus!
