//! Reading packets back out of a Common RDR, and naming the PDS files they go
//! to.
use vstd::prelude::*;

use crate::bytes::u32_of_be;
use crate::codec::{text_chunks, ApidInfo, PacketTracker, StaticHeader};
use crate::error::Error;
use crate::packet::Packet;

verus! {

/// A tracker offset that marks the end of an APID's packets.
pub const NO_PACKETS_RECEIVED: i32 = -1;

/// The packet bytes of `count` trackers of one APID, the first at `t_at`, with
/// the packet storage at `s_at`. The walk ends early at a tracker whose offset
/// is -1; `None` when a tracker or a packet lies outside `d`, or has a
/// negative offset or size.
pub open spec fn walk(d: Seq<u8>, s_at: int, t_at: int, count: nat) -> Option<Seq<u8>>
    decreases count,
{
    if count == 0 {
        Some(Seq::empty())
    } else if t_at + 24 > d.len() {
        None
    } else {
        let t = PacketTracker::decode(d.subrange(t_at, t_at + 24));
        if t.offset == NO_PACKETS_RECEIVED {
            Some(Seq::empty())
        } else if t.offset < 0 || t.size < 0 || s_at + t.offset + t.size > d.len() {
            None
        } else {
            match walk(d, s_at, t_at + 24, (count - 1) as nat) {
                Some(rest) => Some(d.subrange(s_at + t.offset, s_at + t.offset + t.size) + rest),
                None => None,
            }
        }
    }
}

/// The packet bytes of the APID list entry at `e` in `d`, whose trackers
/// start at `p_at` and whose packets at `s_at`.
pub open spec fn entry_packets(d: Seq<u8>, p_at: int, s_at: int, e: int) -> Option<Seq<u8>> {
    let start_idx = u32_of_be(d.subrange(e + 20, e + 24));
    let received = u32_of_be(d.subrange(e + 28, e + 32));
    walk(d, s_at, p_at + 24 * start_idx, received as nat)
}

/// The packet bytes of the first `k` of the entries at `entries`.
pub open spec fn entries_packets(d: Seq<u8>, p_at: int, s_at: int, entries: Seq<int>, k: nat) -> Option<
    Seq<u8>,
>
    decreases k,
{
    if k == 0 {
        Some(Seq::empty())
    } else {
        match entries_packets(d, p_at, s_at, entries, (k - 1) as nat) {
            Some(before) => match entry_packets(d, p_at, s_at, entries[k - 1]) {
                Some(b) => Some(before + b),
                None => None,
            },
            None => None,
        }
    }
}

/// The packets of a Common RDR: the header's APID list, from which every
/// whole entry with a text name is read, then each entry's trackers.
pub open spec fn rdr_packets(d: Seq<u8>) -> Option<Seq<u8>> {
    let a = u32_of_be(d.subrange(40, 44)) as int;
    let n = u32_of_be(d.subrange(36, 40)) as int;
    let p = u32_of_be(d.subrange(44, 48)) as int;
    let s = u32_of_be(d.subrange(48, 52)) as int;
    if d.len() < 72 || !StaticHeader::is_text(d.subrange(0, 72)) || a + 32 * n > d.len() {
        None
    } else {
        let list = d.subrange(a, a + 32 * n);
        let entries = text_chunks(list, n as nat).map_values(|o: int| a + o);
        entries_packets(d, p, s, entries, entries.len())
    }
}

/// The packet bytes of one APID's trackers.
fn walk_trackers(data: &[u8], s_at: u64, t_at: u64, count: u32, out: &mut Vec<u8>) -> (r: bool)
    requires
        t_at + 24 * (count as int) <= u64::MAX,
    ensures
        r <==> walk(data@, s_at as int, t_at as int, count as nat) is Some,
        r ==> final(out)@ == old(out)@ + walk(data@, s_at as int, t_at as int, count as nat)->Some_0,
{
    let ghost start = out@;
    let n = data.len();
    let len = n as u64;
    let mut t = t_at;
    let mut i: u32 = 0;
    while i < count
        invariant
            i <= count,
            t == t_at + 24 * (i as int),
            t_at + 24 * (count as int) <= u64::MAX,
            len == data@.len(),
            data@.len() <= usize::MAX,
            walk(data@, s_at as int, t_at as int, count as nat) == match walk(
                data@,
                s_at as int,
                t as int,
                (count - i) as nat,
            ) {
                Some(rest) => Some(out@.subrange(start.len() as int, out@.len() as int) + rest),
                None => None,
            },
            start.len() <= out@.len(),
            out@.subrange(0, start.len() as int) == start,
            start == old(out)@,
        decreases count - i,
    {
        let ghost acc = out@.subrange(start.len() as int, out@.len() as int);
        let ghost c = (count - i) as nat;
        if t > len || len - t < 24 {
            return false;
        }
        let tracker = PacketTracker::decode_at(data, t as usize);
        if tracker.offset == NO_PACKETS_RECEIVED {
            proof {
                assert(walk(data@, s_at as int, t as int, c) == Some(Seq::<u8>::empty()));
                assert(acc + Seq::<u8>::empty() =~= acc);
                assert(walk(data@, s_at as int, t_at as int, count as nat) == Some(acc + Seq::<u8>::empty()));
                assert(out@ =~= start + acc);
                assert(out@ == start + walk(data@, s_at as int, t_at as int, count as nat)->Some_0);
                assert(start == old(out)@);
            }
            return true;
        }
        if tracker.offset < 0 || tracker.size < 0 || s_at > len || len - s_at < tracker.offset as u64
            || len - s_at - (tracker.offset as u64) < tracker.size as u64 {
            return false;
        }
        let from64 = s_at + tracker.offset as u64;
        let to64 = from64 + tracker.size as u64;
        let from = from64 as usize;
        let to = to64 as usize;
        let ghost before = out@;
        let mut j: usize = from;
        while j < to
            invariant
                from <= j <= to <= data@.len(),
                out@ == before + data@.subrange(from as int, j as int),
            decreases to - j,
        {
            out.push(data[j]);
            assert(out@ =~= before + data@.subrange(from as int, j + 1));
            j = j + 1;
        }
        proof {
            let piece = data@.subrange(from as int, to as int);
            assert(out@ =~= before + piece);
            assert(out@.subrange(0, start.len() as int) =~= start);
            assert(out@.subrange(start.len() as int, out@.len() as int) =~= acc + piece);
            let next = walk(data@, s_at as int, t + 24, (c - 1) as nat);
            assert(walk(data@, s_at as int, t as int, c) == match next {
                Some(rest) => Some(piece + rest),
                None => None,
            });
            if next is Some {
                let rest = next->Some_0;
                assert((acc + piece) + rest =~= acc + (piece + rest));
            }
        }
        t = t + 24;
        i = i + 1;
    }
    proof {
        let acc = out@.subrange(start.len() as int, out@.len() as int);
        assert(acc + Seq::<u8>::empty() =~= acc);
        assert(out@ =~= start + acc);
    }
    true
}

/// The packet bytes of a Common RDR: for each entry of the APID list in list
/// order, its packets in tracker order.
///
/// # Errors
/// The header's errors; `NotEnoughBytes("CommonRdr")` when the APID list lies
/// outside `data`, and `NotEnoughBytes("PacketTracker")` when a tracker or its
/// packet does.
pub fn packet_bytes(data: &[u8]) -> (r: Result<Vec<u8>, Error>)
    ensures
        r is Ok <==> rdr_packets(data@) is Some,
        r is Ok ==> r->Ok_0@ == rdr_packets(data@)->Some_0,
{
    let ghost d = data@;
    let header = match StaticHeader::from_bytes(data) {
        Ok(h) => h,
        Err(e) => return Err(e),
    };
    assert(d.subrange(0, 72).subrange(36, 40) =~= d.subrange(36, 40));
    assert(d.subrange(0, 72).subrange(40, 44) =~= d.subrange(40, 44));
    assert(d.subrange(0, 72).subrange(44, 48) =~= d.subrange(44, 48));
    assert(d.subrange(0, 72).subrange(48, 52) =~= d.subrange(48, 52));
    let len = data.len();
    let a = header.apid_list_offset as u64;
    let n = header.num_apids as u64;
    if a + 32 * n > len as u64 {
        return Err(Error::NotEnoughBytes("CommonRdr"));
    }
    let list = vstd::slice::slice_subrange(data, a as usize, (a + 32 * n) as usize);
    let entries = match ApidInfo::all_from_bytes(list) {
        Ok(e) => e,
        Err(e) => return Err(e),
    };
    let ghost offs = text_chunks(list@, list@.len() / 32);
    assert(list@.len() / 32 == n);
    let ghost ents = text_chunks(list@, n as nat).map_values(|o: int| a + o);
    let p = header.pkt_tracker_offset as u64;
    let s = header.ap_storage_offset as u64;
    assert(rdr_packets(d) == entries_packets(d, p as int, s as int, ents, ents.len()));
    let mut out: Vec<u8> = Vec::new();
    let mut k: usize = 0;
    while k < entries.len()
        invariant
            d == data@,
            a + 32 * n <= d.len(),
            k <= entries@.len(),
            entries@.len() == ents.len(),
            ents == text_chunks(list@, n as nat).map_values(|o: int| a + o),
            list@ == d.subrange(a as int, a + 32 * n),
            forall|m: int|
                0 <= m < entries@.len() ==> {
                    let at = #[trigger] text_chunks(list@, n as nat)[m];
                    ApidInfo::decodes_to(list@.subrange(at, at + 32), entries@[m])
                },
            p == u32_of_be(d.subrange(44, 48)),
            s == u32_of_be(d.subrange(48, 52)),
            entries_packets(d, p as int, s as int, ents, k as nat) == Some(out@),
            rdr_packets(d) == entries_packets(d, p as int, s as int, ents, ents.len()),
        decreases entries@.len() - k,
    {
        let info = &entries[k];
        let ghost at = text_chunks(list@, n as nat)[k as int];
        proof {
            lemma_text_chunks_bounds(list@, n as nat, k as int);
            let e = a + at;
            assert(ents[k as int] == e);
            assert(list@.subrange(at, at + 32).subrange(20, 24) =~= d.subrange(e + 20, e + 24));
            assert(list@.subrange(at, at + 32).subrange(28, 32) =~= d.subrange(e + 28, e + 32));
        }
        let t_at = p + 24 * (info.pkt_tracker_start_idx as u64);
        let ghost before = out@;
        if !walk_trackers(data, s, t_at, info.pkts_received, &mut out) {
            proof {
                lemma_entries_none(d, p as int, s as int, ents, (k + 1) as nat, ents.len());
            }
            return Err(Error::NotEnoughBytes("PacketTracker"));
        }
        k = k + 1;
    }
    assert(ents.len() == entries@.len());
    Ok(out)
}

proof fn lemma_entries_none(d: Seq<u8>, p: int, s: int, ents: Seq<int>, k: nat, m: nat)
    requires
        k <= m <= ents.len(),
        entries_packets(d, p, s, ents, k) is None,
    ensures
        entries_packets(d, p, s, ents, m) is None,
    decreases m - k,
{
    if k < m {
        lemma_entries_none(d, p, s, ents, (k + 1) as nat, m);
    }
}

proof fn lemma_text_chunks_bounds(d: Seq<u8>, n: nat, k: int)
    requires
        0 <= k < text_chunks(d, n).len(),
    ensures
        0 <= text_chunks(d, n)[k],
        text_chunks(d, n)[k] + 32 <= 32 * n,
    decreases n,
{
    let prev = text_chunks(d, (n - 1) as nat);
    if k < prev.len() {
        lemma_text_chunks_bounds(d, (n - 1) as nat, k);
    }
}

/// The bytes of the packets of `apid` among `pkts`, in order.
pub open spec fn apid_bytes(pkts: Seq<Packet>, apid: u16) -> Seq<u8>
    decreases pkts.len(),
{
    if pkts.len() == 0 {
        Seq::empty()
    } else {
        apid_bytes(pkts.drop_last(), apid) + if pkts.last().header.apid == apid {
            pkts.last().data@
        } else {
            Seq::empty()
        }
    }
}

/// Whether `apid` is the APID of one of `pkts`.
pub open spec fn seen(pkts: Seq<Packet>, apid: u16) -> bool {
    exists|i: int| 0 <= i < pkts.len() && (#[trigger] pkts[i]).header.apid == apid
}

/// Whether a packet of `a` comes before the first packet of `b`.
pub open spec fn seen_before(pkts: Seq<Packet>, a: u16, b: u16) -> bool {
    exists|k: int|
        0 <= k < pkts.len() && (#[trigger] pkts[k]).header.apid == a && forall|m: int|
            0 <= m <= k ==> (#[trigger] pkts[m]).header.apid != b
}

/// Splits a packet stream by APID: one entry per APID, in the order the
/// APIDs first appear, with the bytes of that APID's packets in order.
pub fn split_by_apid(pkts: &[Packet]) -> (r: Vec<(u16, Vec<u8>)>)
    ensures
        forall|i: int, j: int| 0 <= i < j < r@.len() ==> r@[i].0 != r@[j].0,
        forall|i: int, j: int| 0 <= i < j < r@.len() ==> seen_before(pkts@, r@[i].0, r@[j].0),
        forall|i: int| 0 <= i < r@.len() ==> seen(pkts@, (#[trigger] r@[i]).0),
        forall|a: u16| #[trigger] seen(pkts@, a) ==> exists|i: int| 0 <= i < r@.len() && (#[trigger] r@[i]).0 == a,
        forall|i: int| 0 <= i < r@.len() ==> (#[trigger] r@[i]).1@ == apid_bytes(pkts@, r@[i].0),
{
    let mut out: Vec<(u16, Vec<u8>)> = Vec::new();
    let mut k: usize = 0;
    while k < pkts.len()
        invariant
            k <= pkts@.len(),
            forall|i: int, j: int| 0 <= i < j < out@.len() ==> out@[i].0 != out@[j].0,
            forall|i: int, j: int|
                0 <= i < j < out@.len() ==> seen_before(pkts@.subrange(0, k as int), out@[i].0, out@[j].0),
            forall|i: int| 0 <= i < out@.len() ==> seen(pkts@.subrange(0, k as int), (#[trigger] out@[i]).0),
            forall|a: u16| #[trigger] seen(pkts@.subrange(0, k as int), a) ==> exists|i: int| 0 <= i < out@.len() && (#[trigger] out@[i]).0 == a,
            forall|i: int| 0 <= i < out@.len() ==> (#[trigger] out@[i]).1@ == apid_bytes(pkts@.subrange(0, k as int), out@[i].0),
        decreases pkts@.len() - k,
    {
        let pkt = &pkts[k];
        let apid = pkt.header.apid;
        let ghost pre = pkts@.subrange(0, k as int);
        let ghost next = pkts@.subrange(0, k + 1);
        proof {
            assert(next.drop_last() =~= pre);
            assert(next.last() == *pkt);
            assert forall|a: u16| #[trigger] seen(next, a) <==> seen(pre, a) || a == apid by {
                if seen(next, a) {
                    let i = choose|i: int| 0 <= i < next.len() && (#[trigger] next[i]).header.apid == a;
                    if i < k {
                        assert(pre[i] == next[i]);
                    }
                }
                if seen(pre, a) {
                    let i = choose|i: int| 0 <= i < pre.len() && (#[trigger] pre[i]).header.apid == a;
                    assert(next[i] == pre[i]);
                }
                if a == apid {
                    assert(next[k as int].header.apid == a);
                }
            }
        }
        let mut pos: usize = 0;
        while pos < out.len() && out[pos].0 != apid
            invariant
                pos <= out@.len(),
                forall|i: int| 0 <= i < pos ==> (#[trigger] out@[i]).0 != apid,
            decreases out@.len() - pos,
        {
            pos = pos + 1;
        }
        let ghost before = out@;
        if pos == out.len() {
            let mut bytes: Vec<u8> = Vec::new();
            let mut j: usize = 0;
            while j < pkt.data.len()
                invariant
                    j <= pkt.data@.len(),
                    bytes@ == pkt.data@.subrange(0, j as int),
                decreases pkt.data@.len() - j,
            {
                bytes.push(pkt.data[j]);
                assert(bytes@ =~= pkt.data@.subrange(0, j + 1));
                j = j + 1;
            }
            assert(pkt.data@.subrange(0, pkt.data@.len() as int) =~= pkt.data@);
            proof {
                assert(!seen(pre, apid));
                lemma_apid_bytes_unseen(pre, apid);
                assert(bytes@ =~= apid_bytes(pre, apid) + pkt.data@);
            }
            out.push((apid, bytes));
            assert(out@[pos as int].0 == apid);
            assert(out@[pos as int].1@ == apid_bytes(pre, apid) + pkt.data@);
            assert(forall|i: int| 0 <= i < before.len() ==> out@[i] == before[i]);
        } else {
            let mut entry: (u16, Vec<u8>) = (apid, Vec::new());
            std::mem::swap(&mut entry, &mut out[pos]);
            let ghost old_bytes = entry.1@;
            let mut j: usize = 0;
            while j < pkt.data.len()
                invariant
                    j <= pkt.data@.len(),
                    entry.0 == apid,
                    entry.1@ == old_bytes + pkt.data@.subrange(0, j as int),
                decreases pkt.data@.len() - j,
            {
                entry.1.push(pkt.data[j]);
                assert(entry.1@ =~= old_bytes + pkt.data@.subrange(0, j + 1));
                j = j + 1;
            }
            assert(pkt.data@.subrange(0, pkt.data@.len() as int) =~= pkt.data@);
            let ghost filled = entry;
            std::mem::swap(&mut entry, &mut out[pos]);
            assert(out@ == before.update(pos as int, filled));
            assert(old_bytes == apid_bytes(pre, apid));
            assert(out@[pos as int].0 == apid);
            assert(out@[pos as int].1@ == apid_bytes(pre, apid) + pkt.data@);
            assert(forall|i: int| 0 <= i < before.len() && i != pos ==> out@[i] == before[i]);
        }
        proof {
            assert forall|i: int, j: int|
                0 <= i < j < out@.len() implies seen_before(next, out@[i].0, out@[j].0) by {
                let ai = out@[i].0;
                let aj = out@[j].0;
                if j < before.len() || pos < before.len() {
                    if i != pos {
                        assert(out@[i] == before[i]);
                    }
                    if j != pos {
                        assert(out@[j] == before[j]);
                    }
                    assert(seen_before(pre, ai, aj));
                    let x = choose|x: int|
                        0 <= x < pre.len() && (#[trigger] pre[x]).header.apid == ai && forall|m: int|
                            0 <= m <= x ==> (#[trigger] pre[m]).header.apid != aj;
                    assert(next[x] == pre[x]);
                    assert forall|m: int| 0 <= m <= x implies (#[trigger] next[m]).header.apid != aj by {
                        assert(next[m] == pre[m]);
                    }
                } else {
                    assert(out@[i] == before[i]);
                    assert(aj == apid);
                    assert(seen(pre, ai));
                    let x = choose|x: int| 0 <= x < pre.len() && (#[trigger] pre[x]).header.apid == ai;
                    assert(next[x] == pre[x]);
                    assert forall|m: int| 0 <= m <= x implies (#[trigger] next[m]).header.apid != aj by {
                        assert(next[m] == pre[m]);
                        if pre[m].header.apid == apid {
                            assert(seen(pre, apid));
                        }
                    }
                }
            }
            assert(apid_bytes(next, apid) == apid_bytes(pre, apid) + pkt.data@);
            assert forall|i: int, j: int| 0 <= i < j < out@.len() implies out@[i].0 != out@[j].0 by {
                if j == pos && pos == before.len() {
                    assert(out@[i] == before[i]);
                } else if i == pos {
                    assert(out@[j] == before[j]);
                } else if j == pos {
                    assert(out@[i] == before[i]);
                } else {
                    assert(out@[i] == before[i] && out@[j] == before[j]);
                }
            }
        }
        proof {
            assert forall|i: int| 0 <= i < out@.len() implies (#[trigger] out@[i]).1@ == apid_bytes(next, out@[i].0) by {
                if i != pos {
                    assert(out@[i] == before[i]);
                    assert(apid_bytes(next, out@[i].0) =~= apid_bytes(pre, out@[i].0) + Seq::<u8>::empty());
                }
            }
            assert forall|i: int| 0 <= i < out@.len() implies seen(next, (#[trigger] out@[i]).0) by {
                if i != pos {
                    assert(out@[i] == before[i]);
                }
            }
            assert forall|a: u16| #[trigger] seen(next, a) implies exists|i: int| 0 <= i < out@.len() && (#[trigger] out@[i]).0 == a by {
                if a == apid {
                    assert(out@[pos as int].0 == a);
                } else {
                    let i = choose|i: int| 0 <= i < before.len() && (#[trigger] before[i]).0 == a;
                    assert(i != pos);
                    assert(out@[i] == before[i]);
                }
            }
        }
        k = k + 1;
    }
    assert(pkts@.subrange(0, pkts@.len() as int) =~= pkts@);
    out
}

proof fn lemma_apid_bytes_unseen(pkts: Seq<Packet>, apid: u16)
    requires
        !seen(pkts, apid),
    ensures
        apid_bytes(pkts, apid) == Seq::<u8>::empty(),
    decreases pkts.len(),
{
    if pkts.len() > 0 {
        assert(!seen(pkts.drop_last(), apid)) by {
            if seen(pkts.drop_last(), apid) {
                let i = choose|i: int| 0 <= i < pkts.drop_last().len() && (#[trigger] pkts.drop_last()[i]).header.apid == apid;
                assert(pkts[i] == pkts.drop_last()[i]);
            }
        }
        assert(pkts[pkts.len() - 1].header.apid != apid);
        lemma_apid_bytes_unseen(pkts.drop_last(), apid);
        assert(apid_bytes(pkts, apid) =~= Seq::<u8>::empty());
    }
}

} // verus!
