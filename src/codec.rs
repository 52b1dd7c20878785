//! The Common RDR records: the static header, the APID list entries and the
//! packet trackers, each with a fixed big-endian layout.
use vstd::prelude::*;
use vstd::utf8::encode_utf8;

use crate::bytes::{
    field_is_text, field_text, fits_field, lemma_field_round_trip, lemma_i32_cast, lemma_i64_cast,
    lemma_u32_be, lemma_u64_be, padded, push_padded, push_u32, push_u64, read_text, read_u32,
    read_u64, u32_be, u32_of_be, u64_be, u64_of_be,
};
use crate::error::Error;

verus! {

/// The bytes of `v` as a fixed-size array.
pub fn to_array<const N: usize>(v: &Vec<u8>) -> (r: [u8; N])
    requires
        v@.len() == N,
    ensures
        r@ == v@,
{
    let mut a = [0u8; N];
    let mut i: usize = 0;
    while i < N
        invariant
            i <= N,
            a@.len() == N,
            v@.len() == N,
            forall|j: int| 0 <= j < i ==> a@[j] == v@[j],
        decreases N - i,
    {
        a.set(i, v[i]);
        i = i + 1;
    }
    assert(a@ =~= v@);
    a
}

/// The Common RDR static header.
#[derive(Debug, Clone, PartialEq)]
pub struct StaticHeader {
    /// 4 bytes
    pub satellite: String,
    /// 16 bytes
    pub sensor: String,
    /// 16 bytes
    pub type_id: String,
    pub num_apids: u32,
    pub apid_list_offset: u32,
    pub pkt_tracker_offset: u32,
    pub ap_storage_offset: u32,
    pub next_pkt_position: u32,
    pub start_boundary: u64,
    pub end_boundary: u64,
}

impl StaticHeader {
    pub const LEN: usize = 72;

    /// The 72 bytes that encode this header.
    pub open spec fn encoded(&self) -> Seq<u8> {
        padded(encode_utf8(self.satellite@), 4) + padded(encode_utf8(self.sensor@), 16) + padded(
            encode_utf8(self.type_id@),
            16,
        ) + u32_be(self.num_apids) + u32_be(self.apid_list_offset) + u32_be(
            self.pkt_tracker_offset,
        ) + u32_be(self.ap_storage_offset) + u32_be(self.next_pkt_position) + u64_be(
            self.start_boundary,
        ) + u64_be(self.end_boundary)
    }

    /// Whether the text fields of the header bytes `d` are UTF-8.
    pub open spec fn is_text(d: Seq<u8>) -> bool {
        &&& field_is_text(d.subrange(0, 4))
        &&& field_is_text(d.subrange(4, 20))
        &&& field_is_text(d.subrange(20, 36))
    }

    /// Whether `h` holds what the header bytes `d` say, field by field.
    pub open spec fn decodes_to(d: Seq<u8>, h: StaticHeader) -> bool {
        &&& h.satellite@ == field_text(d.subrange(0, 4))
        &&& h.sensor@ == field_text(d.subrange(4, 20))
        &&& h.type_id@ == field_text(d.subrange(20, 36))
        &&& h.num_apids == u32_of_be(d.subrange(36, 40))
        &&& h.apid_list_offset == u32_of_be(d.subrange(40, 44))
        &&& h.pkt_tracker_offset == u32_of_be(d.subrange(44, 48))
        &&& h.ap_storage_offset == u32_of_be(d.subrange(48, 52))
        &&& h.next_pkt_position == u32_of_be(d.subrange(52, 56))
        &&& h.start_boundary == u64_of_be(d.subrange(56, 64))
        &&& h.end_boundary == u64_of_be(d.subrange(64, 72))
    }

    /// Whether the text fields fit their widths, holding no NUL byte.
    pub open spec fn fits(&self) -> bool {
        &&& fits_field(self.satellite@, 4)
        &&& fits_field(self.sensor@, 16)
        &&& fits_field(self.type_id@, 16)
    }

    /// Whether two headers hold the same values.
    pub open spec fn same(&self, o: &StaticHeader) -> bool {
        &&& self.satellite@ == o.satellite@
        &&& self.sensor@ == o.sensor@
        &&& self.type_id@ == o.type_id@
        &&& self.num_apids == o.num_apids
        &&& self.apid_list_offset == o.apid_list_offset
        &&& self.pkt_tracker_offset == o.pkt_tracker_offset
        &&& self.ap_storage_offset == o.ap_storage_offset
        &&& self.next_pkt_position == o.next_pkt_position
        &&& self.start_boundary == o.start_boundary
        &&& self.end_boundary == o.end_boundary
    }

    /// A copy holding the same values.
    pub fn copy(&self) -> (r: StaticHeader)
        ensures
            r.same(self),
    {
        StaticHeader {
            satellite: self.satellite.clone(),
            sensor: self.sensor.clone(),
            type_id: self.type_id.clone(),
            num_apids: self.num_apids,
            apid_list_offset: self.apid_list_offset,
            pkt_tracker_offset: self.pkt_tracker_offset,
            ap_storage_offset: self.ap_storage_offset,
            next_pkt_position: self.next_pkt_position,
            start_boundary: self.start_boundary,
            end_boundary: self.end_boundary,
        }
    }

    /// Appends the encoded header.
    pub fn push_bytes(&self, out: &mut Vec<u8>)
        ensures
            final(out)@ == old(out)@ + self.encoded(),
    {
        let ghost start = out@;
        push_padded(out, self.satellite.as_str().as_bytes(), 4);
        push_padded(out, self.sensor.as_str().as_bytes(), 16);
        push_padded(out, self.type_id.as_str().as_bytes(), 16);
        push_u32(out, self.num_apids);
        push_u32(out, self.apid_list_offset);
        push_u32(out, self.pkt_tracker_offset);
        push_u32(out, self.ap_storage_offset);
        push_u32(out, self.next_pkt_position);
        push_u64(out, self.start_boundary);
        push_u64(out, self.end_boundary);
        assert(out@ =~= start + self.encoded());
    }

    #[must_use]
    pub fn as_bytes(&self) -> (r: [u8; 72])
        ensures
            r@ == self.encoded(),
    {
        let mut v: Vec<u8> = Vec::new();
        self.push_bytes(&mut v);
        proof {
            lemma_header_len(self);
        }
        to_array(&v)
    }

    /// Decodes the header at `data[at..at + 72]`.
    pub fn decode_at(data: &[u8], at: usize) -> (r: Result<StaticHeader, Error>)
        requires
            at + 72 <= data@.len(),
        ensures
            r is Ok <==> Self::is_text(data@.subrange(at as int, at + 72)),
            r is Err ==> r == Err::<StaticHeader, Error>(Error::Utf8Error),
            r is Ok ==> Self::decodes_to(data@.subrange(at as int, at + 72), r->Ok_0),
    {
        let _n = data.len();
        let ghost d = data@.subrange(at as int, at + 72);
        assert(d.subrange(0, 4) =~= data@.subrange(at as int, at + 4));
        assert(d.subrange(4, 20) =~= data@.subrange(at + 4, at + 20));
        assert(d.subrange(20, 36) =~= data@.subrange(at + 20, at + 36));
        assert(d.subrange(36, 40) =~= data@.subrange(at + 36, at + 40));
        assert(d.subrange(40, 44) =~= data@.subrange(at + 40, at + 44));
        assert(d.subrange(44, 48) =~= data@.subrange(at + 44, at + 48));
        assert(d.subrange(48, 52) =~= data@.subrange(at + 48, at + 52));
        assert(d.subrange(52, 56) =~= data@.subrange(at + 52, at + 56));
        assert(d.subrange(56, 64) =~= data@.subrange(at + 56, at + 64));
        assert(d.subrange(64, 72) =~= data@.subrange(at + 64, at + 72));
        let satellite = match read_text(data, at, 4) {
            Some(s) => s,
            None => return Err(Error::Utf8Error),
        };
        let sensor = match read_text(data, at + 4, 16) {
            Some(s) => s,
            None => return Err(Error::Utf8Error),
        };
        let type_id = match read_text(data, at + 20, 16) {
            Some(s) => s,
            None => return Err(Error::Utf8Error),
        };
        Ok(StaticHeader {
            satellite,
            sensor,
            type_id,
            num_apids: read_u32(data, at + 36),
            apid_list_offset: read_u32(data, at + 40),
            pkt_tracker_offset: read_u32(data, at + 44),
            ap_storage_offset: read_u32(data, at + 48),
            next_pkt_position: read_u32(data, at + 52),
            start_boundary: read_u64(data, at + 56),
            end_boundary: read_u64(data, at + 64),
        })
    }

    pub fn from_bytes(data: &[u8]) -> (r: Result<StaticHeader, Error>)
        ensures
            data@.len() < 72 ==> r == Err::<StaticHeader, Error>(
                Error::NotEnoughBytes("StaticHeader"),
            ),
            data@.len() >= 72 ==> (r is Ok <==> Self::is_text(data@.subrange(0, 72))),
            data@.len() >= 72 && r is Err ==> r == Err::<StaticHeader, Error>(Error::Utf8Error),
            r is Ok ==> Self::decodes_to(data@.subrange(0, 72), r->Ok_0),
    {
        if data.len() < Self::LEN {
            return Err(Error::NotEnoughBytes("StaticHeader"));
        }
        Self::decode_at(data, 0)
    }
}

proof fn lemma_padded_len(s: Seq<u8>, w: nat)
    ensures
        padded(s, w).len() == w,
{
}

pub proof fn lemma_header_len(h: &StaticHeader)
    ensures
        h.encoded().len() == 72,
{
    lemma_padded_len(encode_utf8(h.satellite@), 4);
    lemma_padded_len(encode_utf8(h.sensor@), 16);
    lemma_padded_len(encode_utf8(h.type_id@), 16);
    lemma_u32_be(h.num_apids);
    lemma_u32_be(h.apid_list_offset);
    lemma_u32_be(h.pkt_tracker_offset);
    lemma_u32_be(h.ap_storage_offset);
    lemma_u32_be(h.next_pkt_position);
    lemma_u64_be(h.start_boundary);
    lemma_u64_be(h.end_boundary);
}

/// Encoding a header whose text fits its fields, then decoding it, gives the
/// header back.
pub proof fn lemma_header_round_trip(h: StaticHeader)
    requires
        h.fits(),
    ensures
        h.encoded().len() == StaticHeader::LEN,
        StaticHeader::is_text(h.encoded()),
        StaticHeader::decodes_to(h.encoded(), h),
{
    let e = h.encoded();
    lemma_header_len(&h);
    let p1 = padded(encode_utf8(h.satellite@), 4);
    let p2 = padded(encode_utf8(h.sensor@), 16);
    let p3 = padded(encode_utf8(h.type_id@), 16);
    lemma_padded_len(encode_utf8(h.satellite@), 4);
    lemma_padded_len(encode_utf8(h.sensor@), 16);
    lemma_padded_len(encode_utf8(h.type_id@), 16);
    lemma_field_round_trip(h.satellite@, 4);
    lemma_field_round_trip(h.sensor@, 16);
    lemma_field_round_trip(h.type_id@, 16);
    let ints = u32_be(h.num_apids) + u32_be(h.apid_list_offset) + u32_be(h.pkt_tracker_offset)
        + u32_be(h.ap_storage_offset) + u32_be(h.next_pkt_position);
    let times = u64_be(h.start_boundary) + u64_be(h.end_boundary);
    lemma_u32_be(h.num_apids);
    lemma_u32_be(h.apid_list_offset);
    lemma_u32_be(h.pkt_tracker_offset);
    lemma_u32_be(h.ap_storage_offset);
    lemma_u32_be(h.next_pkt_position);
    lemma_u64_be(h.start_boundary);
    lemma_u64_be(h.end_boundary);
    assert(e =~= (p1 + p2 + p3) + ints + times);
    assert(e.subrange(0, 4) =~= p1);
    assert(e.subrange(4, 20) =~= p2);
    assert(e.subrange(20, 36) =~= p3);
    assert(e.subrange(36, 40) =~= u32_be(h.num_apids));
    assert(u32_of_be(e.subrange(36, 40)) == h.num_apids);
    assert(e.subrange(40, 44) =~= u32_be(h.apid_list_offset));
    assert(u32_of_be(e.subrange(40, 44)) == h.apid_list_offset);
    assert(e.subrange(44, 48) =~= u32_be(h.pkt_tracker_offset));
    assert(u32_of_be(e.subrange(44, 48)) == h.pkt_tracker_offset);
    assert(e.subrange(48, 52) =~= u32_be(h.ap_storage_offset));
    assert(u32_of_be(e.subrange(48, 52)) == h.ap_storage_offset);
    assert(e.subrange(52, 56) =~= u32_be(h.next_pkt_position));
    assert(u32_of_be(e.subrange(52, 56)) == h.next_pkt_position);
    assert(e.subrange(56, 64) =~= u64_be(h.start_boundary));
    assert(u64_of_be(e.subrange(56, 64)) == h.start_boundary);
    assert(e.subrange(64, 72) =~= u64_be(h.end_boundary));
    assert(u64_of_be(e.subrange(64, 72)) == h.end_boundary);
}

/// Entry in the APID list.
#[derive(Debug, Clone, PartialEq)]
pub struct ApidInfo {
    /// 16 bytes
    pub name: String,
    pub value: u32,
    pub pkt_tracker_start_idx: u32,
    pub pkts_reserved: u32,
    pub pkts_received: u32,
}

/// The older name of an APID list entry.
pub type ApidList = ApidInfo;

impl ApidInfo {
    pub const LEN: usize = 32;

    /// The 32 bytes that encode this entry.
    pub open spec fn encoded(&self) -> Seq<u8> {
        padded(encode_utf8(self.name@), 16) + u32_be(self.value) + u32_be(
            self.pkt_tracker_start_idx,
        ) + u32_be(self.pkts_reserved) + u32_be(self.pkts_received)
    }

    /// Whether the name field of the entry bytes `d` is UTF-8.
    pub open spec fn is_text(d: Seq<u8>) -> bool {
        field_is_text(d.subrange(0, 16))
    }

    /// Whether `a` holds what the entry bytes `d` say, field by field.
    pub open spec fn decodes_to(d: Seq<u8>, a: ApidInfo) -> bool {
        &&& a.name@ == field_text(d.subrange(0, 16))
        &&& a.value == u32_of_be(d.subrange(16, 20))
        &&& a.pkt_tracker_start_idx == u32_of_be(d.subrange(20, 24))
        &&& a.pkts_reserved == u32_of_be(d.subrange(24, 28))
        &&& a.pkts_received == u32_of_be(d.subrange(28, 32))
    }

    /// Whether two entries hold the same values.
    pub open spec fn same(&self, o: &ApidInfo) -> bool {
        &&& self.name@ == o.name@
        &&& self.value == o.value
        &&& self.pkt_tracker_start_idx == o.pkt_tracker_start_idx
        &&& self.pkts_reserved == o.pkts_reserved
        &&& self.pkts_received == o.pkts_received
    }

    /// A fresh entry for APID `val`: nothing reserved or received yet, and no
    /// tracker start index assigned.
    pub fn new(name: &str, val: u16) -> (r: ApidInfo)
        ensures
            r.name@ == name@,
            r.value == val as u32,
            r.pkt_tracker_start_idx == u32::MAX,
            r.pkts_reserved == 0,
            r.pkts_received == 0,
    {
        ApidInfo {
            name: name.to_owned(),
            value: val as u32,
            pkt_tracker_start_idx: u32::MAX,
            pkts_reserved: 0,
            pkts_received: 0,
        }
    }

    /// A copy holding the same values.
    pub fn copy(&self) -> (r: ApidInfo)
        ensures
            r.same(self),
    {
        ApidInfo {
            name: self.name.clone(),
            value: self.value,
            pkt_tracker_start_idx: self.pkt_tracker_start_idx,
            pkts_reserved: self.pkts_reserved,
            pkts_received: self.pkts_received,
        }
    }

    /// Appends the encoded entry.
    pub fn push_bytes(&self, out: &mut Vec<u8>)
        ensures
            final(out)@ == old(out)@ + self.encoded(),
    {
        let ghost start = out@;
        push_padded(out, self.name.as_str().as_bytes(), 16);
        push_u32(out, self.value);
        push_u32(out, self.pkt_tracker_start_idx);
        push_u32(out, self.pkts_reserved);
        push_u32(out, self.pkts_received);
        assert(out@ =~= start + self.encoded());
    }

    #[must_use]
    pub fn as_bytes(&self) -> (r: [u8; 32])
        ensures
            r@ == self.encoded(),
    {
        let mut v: Vec<u8> = Vec::new();
        self.push_bytes(&mut v);
        proof {
            lemma_apid_info_len(self);
        }
        to_array(&v)
    }

    /// Decodes the entry at `data[at..at + 32]`.
    pub fn decode_at(data: &[u8], at: usize) -> (r: Result<ApidInfo, Error>)
        requires
            at + 32 <= data@.len(),
        ensures
            r is Ok <==> Self::is_text(data@.subrange(at as int, at + 32)),
            r is Err ==> r == Err::<ApidInfo, Error>(Error::Utf8Error),
            r is Ok ==> Self::decodes_to(data@.subrange(at as int, at + 32), r->Ok_0),
    {
        let _n = data.len();
        let ghost d = data@.subrange(at as int, at + 32);
        assert(d.subrange(0, 16) =~= data@.subrange(at as int, at + 16));
        assert(d.subrange(16, 20) =~= data@.subrange(at + 16, at + 20));
        assert(d.subrange(20, 24) =~= data@.subrange(at + 20, at + 24));
        assert(d.subrange(24, 28) =~= data@.subrange(at + 24, at + 28));
        assert(d.subrange(28, 32) =~= data@.subrange(at + 28, at + 32));
        let name = match read_text(data, at, 16) {
            Some(s) => s,
            None => return Err(Error::Utf8Error),
        };
        Ok(ApidInfo {
            name,
            value: read_u32(data, at + 16),
            pkt_tracker_start_idx: read_u32(data, at + 20),
            pkts_reserved: read_u32(data, at + 24),
            pkts_received: read_u32(data, at + 28),
        })
    }

    pub fn from_bytes(data: &[u8]) -> (r: Result<ApidInfo, Error>)
        ensures
            data@.len() < 32 ==> r == Err::<ApidInfo, Error>(Error::NotEnoughBytes("ApidInfo")),
            data@.len() >= 32 ==> (r is Ok <==> Self::is_text(data@.subrange(0, 32))),
            data@.len() >= 32 && r is Err ==> r == Err::<ApidInfo, Error>(Error::Utf8Error),
            r is Ok ==> Self::decodes_to(data@.subrange(0, 32), r->Ok_0),
    {
        if data.len() < Self::LEN {
            return Err(Error::NotEnoughBytes("ApidInfo"));
        }
        Self::decode_at(data, 0)
    }

    /// Decodes every whole 32-byte chunk of `data` whose name is text, skipping
    /// the others.
    pub fn all_from_bytes(data: &[u8]) -> (r: Result<Vec<ApidInfo>, Error>)
        ensures
            r is Ok,
            r->Ok_0@.len() == text_chunks(data@, data@.len() / 32).len(),
            forall|k: int|
                0 <= k < r->Ok_0@.len() ==> {
                    let at = #[trigger] text_chunks(data@, data@.len() / 32)[k];
                    Self::decodes_to(data@.subrange(at, at + 32), r->Ok_0@[k])
                },
    {
        let len = data.len();
        let n = len / 32;
        let mut out: Vec<ApidInfo> = Vec::new();
        let mut i: usize = 0;
        while i < n
            invariant
                len == data@.len(),
                n == data@.len() / 32,
                i <= n,
                out@.len() == text_chunks(data@, i as nat).len(),
                forall|k: int|
                    0 <= k < out@.len() ==> {
                        let at = #[trigger] text_chunks(data@, i as nat)[k];
                        Self::decodes_to(data@.subrange(at, at + 32), out@[k])
                    },
            decreases n - i,
        {
            assert((i as int) * 32 + 32 <= data@.len()) by (nonlinear_arith)
                requires
                    i < n,
                    n == data@.len() / 32,
            ;
            let at = i * 32;
            let ghost prev = text_chunks(data@, i as nat);
            assert(text_chunks(data@, (i + 1) as nat) == if Self::is_text(
                data@.subrange(at as int, at + 32),
            ) {
                prev.push(at as int)
            } else {
                prev
            });
            match Self::decode_at(data, at) {
                Ok(info) => {
                    out.push(info);
                },
                Err(_) => {},
            }
            i = i + 1;
        }
        Ok(out)
    }
}

pub proof fn lemma_apid_info_len(a: &ApidInfo)
    ensures
        a.encoded().len() == 32,
{
    lemma_padded_len(encode_utf8(a.name@), 16);
    lemma_u32_be(a.value);
    lemma_u32_be(a.pkt_tracker_start_idx);
    lemma_u32_be(a.pkts_reserved);
    lemma_u32_be(a.pkts_received);
}

/// Encoding an APID list entry whose name fits its field, then decoding it,
/// gives the entry back.
#[verifier::rlimit(40)]
pub proof fn lemma_apid_info_round_trip(a: ApidInfo)
    requires
        fits_field(a.name@, 16),
    ensures
        a.encoded().len() == ApidInfo::LEN,
        ApidInfo::is_text(a.encoded()),
        ApidInfo::decodes_to(a.encoded(), a),
{
    let e = a.encoded();
    let n = padded(encode_utf8(a.name@), 16);
    lemma_apid_info_len(&a);
    lemma_padded_len(encode_utf8(a.name@), 16);
    lemma_field_round_trip(a.name@, 16);
    let rest = u32_be(a.value) + u32_be(a.pkt_tracker_start_idx) + u32_be(a.pkts_reserved) + u32_be(
        a.pkts_received,
    );
    lemma_u32_be(a.value);
    lemma_u32_be(a.pkt_tracker_start_idx);
    lemma_u32_be(a.pkts_reserved);
    lemma_u32_be(a.pkts_received);
    assert(e =~= n + rest);
    assert(e.subrange(0, 16) =~= n);
    assert(e.subrange(16, 20) =~= u32_be(a.value));
    assert(u32_of_be(e.subrange(16, 20)) == a.value);
    assert(e.subrange(20, 24) =~= u32_be(a.pkt_tracker_start_idx));
    assert(u32_of_be(e.subrange(20, 24)) == a.pkt_tracker_start_idx);
    assert(e.subrange(24, 28) =~= u32_be(a.pkts_reserved));
    assert(u32_of_be(e.subrange(24, 28)) == a.pkts_reserved);
    assert(e.subrange(28, 32) =~= u32_be(a.pkts_received));
    assert(u32_of_be(e.subrange(28, 32)) == a.pkts_received);
}

/// Entry in the packet-tracker table.
#[derive(Debug, Clone, Copy, PartialEq, Eq)]
pub struct PacketTracker {
    /// Observation time as IET microseconds
    pub obs_time: i64,
    /// Sequence number of this tracker's packet
    pub sequence_number: i32,
    /// Size in bytes of this tracker's packet
    pub size: i32,
    /// Offset to this tracker's packet in the AP storage
    pub offset: i32,
    pub fill_percent: i32,
}

impl PacketTracker {
    pub const LEN: usize = 24;

    /// The 24 bytes that encode this tracker.
    pub open spec fn encoded(&self) -> Seq<u8> {
        u64_be(self.obs_time as u64) + u32_be(self.sequence_number as u32) + u32_be(
            self.size as u32,
        ) + u32_be(self.offset as u32) + u32_be(self.fill_percent as u32)
    }

    /// The tracker that the bytes `d[0..24]` encode.
    pub open spec fn decode(d: Seq<u8>) -> PacketTracker {
        PacketTracker {
            obs_time: u64_of_be(d.subrange(0, 8)) as i64,
            sequence_number: u32_of_be(d.subrange(8, 12)) as i32,
            size: u32_of_be(d.subrange(12, 16)) as i32,
            offset: u32_of_be(d.subrange(16, 20)) as i32,
            fill_percent: u32_of_be(d.subrange(20, 24)) as i32,
        }
    }

    /// Appends the encoded tracker.
    pub fn push_bytes(&self, out: &mut Vec<u8>)
        ensures
            final(out)@ == old(out)@ + self.encoded(),
    {
        let ghost start = out@;
        push_u64(out, self.obs_time as u64);
        push_u32(out, self.sequence_number as u32);
        push_u32(out, self.size as u32);
        push_u32(out, self.offset as u32);
        push_u32(out, self.fill_percent as u32);
        assert(out@ =~= start + self.encoded());
    }

    #[must_use]
    pub fn as_bytes(&self) -> (r: [u8; 24])
        ensures
            r@ == self.encoded(),
    {
        let mut v: Vec<u8> = Vec::new();
        self.push_bytes(&mut v);
        proof {
            lemma_tracker_len(self);
        }
        to_array(&v)
    }

    /// Decodes the tracker at `data[at..at + 24]`.
    pub fn decode_at(data: &[u8], at: usize) -> (r: PacketTracker)
        requires
            at + 24 <= data@.len(),
        ensures
            r == Self::decode(data@.subrange(at as int, at + 24)),
    {
        let _n = data.len();
        let ghost d = data@.subrange(at as int, at + 24);
        assert(d.subrange(0, 8) =~= data@.subrange(at as int, at + 8));
        assert(d.subrange(8, 12) =~= data@.subrange(at + 8, at + 12));
        assert(d.subrange(12, 16) =~= data@.subrange(at + 12, at + 16));
        assert(d.subrange(16, 20) =~= data@.subrange(at + 16, at + 20));
        assert(d.subrange(20, 24) =~= data@.subrange(at + 20, at + 24));
        PacketTracker {
            obs_time: read_u64(data, at) as i64,
            sequence_number: read_u32(data, at + 8) as i32,
            size: read_u32(data, at + 12) as i32,
            offset: read_u32(data, at + 16) as i32,
            fill_percent: read_u32(data, at + 20) as i32,
        }
    }

    pub fn from_bytes(data: &[u8]) -> (r: Result<PacketTracker, Error>)
        ensures
            data@.len() < 24 ==> r == Err::<PacketTracker, Error>(
                Error::NotEnoughBytes("PacketTracker"),
            ),
            data@.len() >= 24 ==> r == Ok::<PacketTracker, Error>(
                Self::decode(data@.subrange(0, 24)),
            ),
    {
        if data.len() < Self::LEN {
            return Err(Error::NotEnoughBytes("PacketTracker"));
        }
        Ok(Self::decode_at(data, 0))
    }
}

pub proof fn lemma_tracker_len(t: &PacketTracker)
    ensures
        t.encoded().len() == 24,
{
    lemma_u64_be(t.obs_time as u64);
    lemma_u32_be(t.sequence_number as u32);
    lemma_u32_be(t.size as u32);
    lemma_u32_be(t.offset as u32);
    lemma_u32_be(t.fill_percent as u32);
}

/// Encoding a packet tracker, then decoding it, gives the tracker back.
pub proof fn lemma_tracker_round_trip(t: PacketTracker)
    ensures
        t.encoded().len() == PacketTracker::LEN,
        PacketTracker::decode(t.encoded()) == t,
{
    let e = t.encoded();
    lemma_tracker_len(&t);
    lemma_u64_be(t.obs_time as u64);
    lemma_u32_be(t.sequence_number as u32);
    lemma_u32_be(t.size as u32);
    lemma_u32_be(t.offset as u32);
    lemma_u32_be(t.fill_percent as u32);
    lemma_i64_cast(t.obs_time);
    lemma_i32_cast(t.sequence_number);
    lemma_i32_cast(t.size);
    lemma_i32_cast(t.offset);
    lemma_i32_cast(t.fill_percent);
    assert(e.subrange(0, 8) =~= u64_be(t.obs_time as u64));
    assert(u64_of_be(e.subrange(0, 8)) == t.obs_time as u64);
    assert(e.subrange(8, 12) =~= u32_be(t.sequence_number as u32));
    assert(u32_of_be(e.subrange(8, 12)) == t.sequence_number as u32);
    assert(e.subrange(12, 16) =~= u32_be(t.size as u32));
    assert(u32_of_be(e.subrange(12, 16)) == t.size as u32);
    assert(e.subrange(16, 20) =~= u32_be(t.offset as u32));
    assert(u32_of_be(e.subrange(16, 20)) == t.offset as u32);
    assert(e.subrange(20, 24) =~= u32_be(t.fill_percent as u32));
    assert(u32_of_be(e.subrange(20, 24)) == t.fill_percent as u32);
    lemma_i32_cast(t.fill_percent);
}

/// The offsets of the first `n` whole 32-byte chunks of `d` that hold an APID
/// list entry with a text name.
pub open spec fn text_chunks(d: Seq<u8>, n: nat) -> Seq<int>
    decreases n,
{
    if n == 0 {
        Seq::empty()
    } else {
        let prev = text_chunks(d, (n - 1) as nat);
        let at = 32 * (n - 1);
        if ApidInfo::is_text(d.subrange(at, at + 32)) {
            prev.push(at)
        } else {
            prev
        }
    }
}

/// The JPSS Common RDR data structures.
#[derive(Debug, Clone)]
pub struct CommonRdr {
    pub static_header: StaticHeader,
    pub apid_list: Vec<ApidInfo>,
    pub packet_trackers: Vec<PacketTracker>,
}

/// The APID list offset that the header in `d` gives.
pub open spec fn apid_list_start(d: Seq<u8>) -> int {
    u32_of_be(d.subrange(40, 44)) as int
}

/// The packet tracker offset that the header in `d` gives.
pub open spec fn tracker_start(d: Seq<u8>) -> int {
    u32_of_be(d.subrange(44, 48)) as int
}

/// The packet storage offset that the header in `d` gives.
pub open spec fn storage_start(d: Seq<u8>) -> int {
    u32_of_be(d.subrange(48, 52)) as int
}

/// Whether the offsets of the header in `d` lie in order within `d`.
pub open spec fn layout_ok(d: Seq<u8>) -> bool {
    apid_list_start(d) + 32 * apid_count(d) <= tracker_start(d) <= storage_start(d) <= d.len()
}

/// The number of APID list entries that the header in `d` gives.
pub open spec fn apid_count(d: Seq<u8>) -> int {
    u32_of_be(d.subrange(36, 40)) as int
}

/// The number of whole trackers in the tracker region of `d`.
pub open spec fn tracker_count(d: Seq<u8>) -> int {
    (storage_start(d) - tracker_start(d)) / 24
}

/// Whether every APID list entry of `d` has a text name.
pub open spec fn apids_are_text(d: Seq<u8>) -> bool {
    forall|k: int|
        0 <= k < apid_count(d) ==> #[trigger] ApidInfo::is_text(
            d.subrange(apid_list_start(d) + 32 * k, apid_list_start(d) + 32 * k + 32),
        )
}

impl CommonRdr {
    /// Whether `c` holds what the Common RDR bytes `d` say.
    pub open spec fn decodes_to(d: Seq<u8>, c: CommonRdr) -> bool {
        &&& StaticHeader::decodes_to(d.subrange(0, 72), c.static_header)
        &&& c.apid_list@.len() == apid_count(d)
        &&& forall|k: int|
            0 <= k < c.apid_list@.len() ==> ApidInfo::decodes_to(
                d.subrange(apid_list_start(d) + 32 * k, apid_list_start(d) + 32 * k + 32),
                #[trigger] c.apid_list@[k],
            )
        &&& c.packet_trackers@ == Seq::new(
            tracker_count(d) as nat,
            |k: int|
                PacketTracker::decode(
                    d.subrange(tracker_start(d) + 24 * k, tracker_start(d) + 24 * k + 24),
                ),
        )
    }

    /// Decodes the static header, then the APID list entries between the APID
    /// list and tracker offsets, then the trackers between the tracker and
    /// storage offsets. A short chunk at the end of either region is ignored.
    pub fn from_bytes(data: &[u8]) -> (r: Result<CommonRdr, Error>)
        ensures
            data@.len() < 72 ==> r == Err::<CommonRdr, Error>(
                Error::NotEnoughBytes("StaticHeader"),
            ),
            data@.len() >= 72 && !StaticHeader::is_text(data@.subrange(0, 72)) ==> r == Err::<
                CommonRdr,
                Error,
            >(Error::Utf8Error),
            data@.len() >= 72 && StaticHeader::is_text(data@.subrange(0, 72)) && !layout_ok(data@)
                ==> r == Err::<CommonRdr, Error>(Error::NotEnoughBytes("CommonRdr")),
            data@.len() >= 72 && StaticHeader::is_text(data@.subrange(0, 72)) && layout_ok(data@)
                ==> (r is Ok <==> apids_are_text(data@)),
            data@.len() >= 72 && layout_ok(data@) && r is Err ==> r == Err::<CommonRdr, Error>(
                Error::Utf8Error,
            ),
            r is Ok ==> Self::decodes_to(data@, r->Ok_0),
    {
        let static_header = match StaticHeader::from_bytes(data) {
            Ok(h) => h,
            Err(e) => return Err(e),
        };
        let ghost d = data@;
        assert(d.subrange(0, 72).subrange(36, 40) =~= d.subrange(36, 40));
        assert(d.subrange(0, 72).subrange(40, 44) =~= d.subrange(40, 44));
        assert(d.subrange(0, 72).subrange(44, 48) =~= d.subrange(44, 48));
        assert(d.subrange(0, 72).subrange(48, 52) =~= d.subrange(48, 52));
        let a = static_header.apid_list_offset as u64;
        let n = static_header.num_apids as u64;
        let p = static_header.pkt_tracker_offset as u64;
        let s = static_header.ap_storage_offset as u64;
        if !(a + 32 * n <= p && p <= s && s <= data.len() as u64) {
            return Err(Error::NotEnoughBytes("CommonRdr"));
        }
        let a = a as usize;
        let n = n as usize;
        let p = p as usize;
        let s = s as usize;
        let mut apid_list: Vec<ApidInfo> = Vec::new();
        let mut at: usize = a;
        while apid_list.len() < n
            invariant
                a <= at <= p <= s <= data@.len(),
                a + 32 * n <= p,
                n == apid_count(d),
                data@.len() >= 72,
                a == apid_list_start(d),
                p == tracker_start(d),
                s == storage_start(d),
                d == data@,
                at == a + 32 * apid_list@.len(),
                forall|k: int|
                    0 <= k < apid_list@.len() ==> ApidInfo::decodes_to(
                        d.subrange(a + 32 * k, a + 32 * k + 32),
                        #[trigger] apid_list@[k],
                    ),
                forall|k: int|
                    0 <= k < apid_list@.len() ==> #[trigger] ApidInfo::is_text(
                        d.subrange(a + 32 * k, a + 32 * k + 32),
                    ),
                apid_list@.len() <= n,
            decreases n - apid_list@.len(),
        {
            match ApidInfo::decode_at(data, at) {
                Ok(info) => {
                    apid_list.push(info);
                },
                Err(e) => {
                    proof {
                        let k = apid_list@.len() as int;
                        assert(0 <= k < apid_count(d));
                        assert(!ApidInfo::is_text(d.subrange(a + 32 * k, a + 32 * k + 32)));
                    }
                    return Err(e);
                },
            }
            at = at + 32;
        }
        assert(apid_list@.len() == apid_count(d));
        let mut packet_trackers: Vec<PacketTracker> = Vec::new();
        let mut at: usize = p;
        while s - at >= 24
            invariant
                p <= at <= s <= data@.len(),
                p == tracker_start(d),
                s == storage_start(d),
                d == data@,
                at == p + 24 * packet_trackers@.len(),
                forall|k: int|
                    0 <= k < packet_trackers@.len() ==> #[trigger] packet_trackers@[k]
                        == PacketTracker::decode(d.subrange(p + 24 * k, p + 24 * k + 24)),
            decreases s - at,
        {
            packet_trackers.push(PacketTracker::decode_at(data, at));
            at = at + 24;
        }
        assert(packet_trackers@.len() == tracker_count(d));
        assert(packet_trackers@ =~= Seq::new(
            tracker_count(d) as nat,
            |k: int| PacketTracker::decode(d.subrange(p + 24 * k, p + 24 * k + 24)),
        ));
        Ok(CommonRdr { static_header, apid_list, packet_trackers })
    }
}

} // verus!
