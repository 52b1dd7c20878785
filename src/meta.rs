//! Granule metadata and the IDPS-style RDR filename.
use vstd::prelude::*;
use vstd::string::{StrSliceExecFns, StringExecFns};

use crate::config::{Config, ProductSpec, SatSpec};
use crate::error::Error;
use crate::granule::{granule_id, granule_id_text};
use crate::rdr::{ascending, RdrData};
use crate::text::{
    contains, decimal, join, joined, lemma_lex_lt_total,
    lemma_lex_lt_transitive, lex_less, lex_lt, occurs_in, push_decimal, push_zero_padded,
    zero_padded,
};
use crate::time::{calendar_of, tai_nanos, Calendar, Time};

verus! {

/// A year as `{:04}` writes it.
pub open spec fn year_text(y: i32) -> Seq<char> {
    if y >= 0 {
        zero_padded(y as nat, 4)
    } else {
        seq!['-'] + zero_padded((-y) as nat, 3)
    }
}

/// `%Y%m%d` of a calendar.
pub open spec fn date_text(c: Calendar) -> Seq<char> {
    year_text(c.0) + zero_padded(c.1 as nat, 2) + zero_padded(c.2 as nat, 2)
}

/// `%H%M%S` of a calendar.
pub open spec fn clock_text(c: Calendar) -> Seq<char> {
    zero_padded(c.3 as nat, 2) + zero_padded(c.4 as nat, 2) + zero_padded(c.5 as nat, 2)
}

/// The UTC calendar of `t`.
pub open spec fn calendar_at(t: Time) -> Calendar {
    calendar_of(tai_nanos(t.iet))
}

/// The attribute date of `t`: `%Y%m%d` in UTC.
pub open spec fn attr_date_text(t: Time) -> Seq<char> {
    date_text(calendar_at(t))
}

/// The attribute time of `t`: `%H%M%S` in UTC, a dot, the six-digit
/// microseconds of the IET time, and `Z`.
pub open spec fn attr_time_text(t: Time) -> Seq<char> {
    clock_text(calendar_at(t)) + seq!['.'] + zero_padded((t.iet % 1_000_000) as nat, 6) + seq!['Z']
}

fn push_year(out: &mut String, y: i32)
    ensures
        final(out)@ == old(out)@ + year_text(y),
{
    if y >= 0 {
        push_zero_padded(out, y as u64, 4);
    } else {
        out.append("-");
        proof {
            reveal_strlit("-");
        }
        let ghost mid = out@;
        push_zero_padded(out, (-(y as i64)) as u64, 3);
        assert(out@ =~= old(out)@ + year_text(y));
    }
}

fn push_date(out: &mut String, c: Calendar)
    ensures
        final(out)@ == old(out)@ + date_text(c),
{
    push_year(out, c.0);
    push_zero_padded(out, c.1 as u64, 2);
    push_zero_padded(out, c.2 as u64, 2);
    assert(out@ =~= old(out)@ + date_text(c));
}

fn push_clock(out: &mut String, c: Calendar)
    ensures
        final(out)@ == old(out)@ + clock_text(c),
{
    push_zero_padded(out, c.3 as u64, 2);
    push_zero_padded(out, c.4 as u64, 2);
    push_zero_padded(out, c.5 as u64, 2);
    assert(out@ =~= old(out)@ + clock_text(c));
}

pub fn attr_date(dt: &Time) -> (r: String)
    ensures
        r@ == attr_date_text(*dt),
{
    let mut s = String::new();
    push_date(&mut s, dt.calendar());
    assert(s@ =~= attr_date_text(*dt));
    s
}

pub fn attr_time(dt: &Time) -> (r: String)
    ensures
        r@ == attr_time_text(*dt),
{
    let mut s = String::new();
    push_clock(&mut s, dt.calendar());
    s.append(".");
    push_zero_padded(&mut s, dt.iet() % 1_000_000, 6);
    s.append("Z");
    proof {
        reveal_strlit(".");
        reveal_strlit("Z");
    }
    assert(s@ =~= attr_time_text(*dt));
    s
}

/// The software version written into granule metadata.
pub const SOFTWARE_VERSION: &'static str = "rdr0.1.0";

/// Metadata of a granule dataset at
/// /Data_Products/<collection>/<collection>_Gran_<x>.
#[derive(Debug, Clone)]
pub struct GranuleMeta {
    pub instrument: String,
    pub collection: String,
    pub begin: Time,
    pub begin_date: String,
    pub begin_time: String,
    pub begin_time_iet: u64,
    pub end: Time,
    pub end_date: String,
    pub end_time: String,
    pub end_time_iet: u64,
    pub creation_date: String,
    pub creation_time: String,
    pub orbit_number: u64,
    pub id: String,
    pub status: String,
    pub version: String,
    pub idps_mode: String,
    pub jpss_doc: String,
    pub leoa_flag: String,
    pub packet_type: Vec<String>,
    pub packet_type_count: Vec<u32>,
    pub reference_id: String,
    pub software_version: String,
}

impl GranuleMeta {
    /// Whether `m` says it was created at `created`.
    pub open spec fn created_at(m: GranuleMeta, created: Time) -> bool {
        &&& m.creation_date@ == attr_date_text(created)
        &&& m.creation_time@ == attr_time_text(created)
    }

    /// Whether `m` is the metadata of the granule of `product` starting at
    /// `time`, whatever its creation time and packet types.
    pub open spec fn describes(m: GranuleMeta, time: Time, sat: SatSpec, product: ProductSpec) -> bool {
        let end = Time { iet: (time.iet + product.gran_len) as u64 };
        let id = granule_id_text(sat.short_name@, sat.base_time as int, time.iet as int);
        &&& m.instrument@ == product.sensor@
        &&& m.collection@ == product.short_name@
        &&& m.begin == time
        &&& m.begin_date@ == attr_date_text(time)
        &&& m.begin_time@ == attr_time_text(time)
        &&& m.begin_time_iet == time.iet
        &&& m.end == end
        &&& m.end_date@ == attr_date_text(end)
        &&& m.end_time@ == attr_time_text(end)
        &&& m.end_time_iet == end.iet
        &&& m.orbit_number == 1
        &&& m.id@ == id
        &&& m.status@ == "N/A"@
        &&& m.version@ == "A1"@
        &&& m.idps_mode@ == "dev"@
        &&& m.jpss_doc@ == ""@
        &&& m.leoa_flag@ == "Off"@
        &&& m.reference_id@ == product.short_name@ + ":"@ + id + ":"@ + "A1"@
        &&& m.software_version@ == SOFTWARE_VERSION@
    }

    /// The metadata of the granule of `product` starting at `time`, created
    /// now.
    ///
    /// # Errors
    /// `InvalidGranuleStart` if `time` is before the base time, and `Failed`
    /// if the clock cannot be read.
    pub fn new(time: Time, sat: &SatSpec, product: &ProductSpec, created: &Time) -> (r: Result<
        GranuleMeta,
        Error,
    >)
        requires
            time.iet + product.gran_len <= u64::MAX,
        ensures
            time.iet < sat.base_time ==> r == Err::<GranuleMeta, Error>(
                Error::RdrError(crate::error::RdrError::InvalidGranuleStart(time.iet)),
            ),
            time.iet >= sat.base_time ==> r is Ok,
            r is Ok ==> Self::describes(r->Ok_0, time, *sat, *product),
            r is Ok ==> Self::created_at(r->Ok_0, *created),
            r is Ok ==> r->Ok_0.packet_type@.len() == 0 && r->Ok_0.packet_type_count@.len() == 0,
    {
        let id = match granule_id(sat.short_name.as_str(), sat.base_time, time.iet()) {
            Ok(id) => id,
            Err(e) => return Err(e),
        };
        let end = Time::from_iet(time.iet() + product.gran_len);
        let mut reference_id = product.short_name.clone();
        reference_id.append(":");
        reference_id.append(id.as_str());
        reference_id.append(":");
        reference_id.append("A1");
        let m = GranuleMeta {
            instrument: product.sensor.clone(),
            collection: product.short_name.clone(),
            begin: time,
            begin_date: attr_date(&time),
            begin_time: attr_time(&time),
            begin_time_iet: time.iet(),
            end,
            end_date: attr_date(&end),
            end_time: attr_time(&end),
            end_time_iet: end.iet(),
            creation_date: attr_date(created),
            creation_time: attr_time(created),
            orbit_number: 1,
            id,
            status: "N/A".to_owned(),
            version: "A1".to_owned(),
            idps_mode: "dev".to_owned(),
            jpss_doc: "".to_owned(),
            leoa_flag: "Off".to_owned(),
            packet_type: Vec::new(),
            packet_type_count: Vec::new(),
            reference_id,
            software_version: SOFTWARE_VERSION.to_owned(),
        };
        assert(Self::created_at(m, *created));
        Ok(m)
    }
}

/// What a granule dataset of an RDR file holds: its metadata, the product it
/// belongs to, and its Common RDR bytes.
#[derive(Debug, Clone)]
pub struct Rdr {
    /// Standard RDR granule metadata.
    pub meta: GranuleMeta,
    pub product_id: String,
    /// The bytes making up the raw common RDR.
    pub data: Vec<u8>,
}

/// The names and counts of the APID list entries that received packets.
pub open spec fn received_names(list: Seq<crate::codec::ApidInfo>) -> Seq<Seq<char>>
    decreases list.len(),
{
    if list.len() == 0 {
        Seq::empty()
    } else if list.last().pkts_received > 0 {
        received_names(list.drop_last()).push(list.last().name@)
    } else {
        received_names(list.drop_last())
    }
}

/// The counts of the APID list entries that received packets.
pub open spec fn received_counts(list: Seq<crate::codec::ApidInfo>) -> Seq<u32>
    decreases list.len(),
{
    if list.len() == 0 {
        Seq::empty()
    } else if list.last().pkts_received > 0 {
        received_counts(list.drop_last()).push(list.last().pkts_received)
    } else {
        received_counts(list.drop_last())
    }
}

impl Rdr {
    /// A new empty RDR of the granule of `product` starting at `time`,
    /// created at `created`.
    ///
    /// # Errors
    /// Those of [GranuleMeta::new].
    pub fn new(sat: &SatSpec, product: &ProductSpec, time: &Time, created: &Time) -> (r: Result<
        Rdr,
        Error,
    >)
        requires
            time.iet + product.gran_len <= u64::MAX,
        ensures
            r is Ok <==> time.iet >= sat.base_time,
            r is Ok ==> r->Ok_0.product_id@ == product.product_id@ && r->Ok_0.data@.len() == 0
                && GranuleMeta::describes(r->Ok_0.meta, *time, *sat, *product)
                && GranuleMeta::created_at(r->Ok_0.meta, *created),
    {
        let meta = match GranuleMeta::new(*time, sat, product, created) {
            Ok(m) => m,
            Err(e) => return Err(e),
        };
        Ok(Rdr { meta, product_id: product.product_id.clone(), data: Vec::new() })
    }

    #[verifier::rlimit(60)]
    /// The RDR of an accumulated granule of `product` starting at `time`,
    /// created at `created`: its metadata, with one packet type per APID that
    /// received packets, and its compiled bytes.
    ///
    /// # Errors
    /// `InvalidGranuleStart` before the base time, else `IntError` when the
    /// data does not compile.
    pub fn from_data(
        sat: &SatSpec,
        product: &ProductSpec,
        time: &Time,
        data: &RdrData,
        created: &Time,
    ) -> (r: Result<Rdr, Error>)
        requires
            data.wf(),
            time.iet + product.gran_len <= u64::MAX,
        ensures
            r is Ok <==> time.iet >= sat.base_time && data.compiles(),
            time.iet >= sat.base_time && !data.compiles() ==> r == Err::<Rdr, Error>(
                Error::RdrError(crate::error::RdrError::IntError),
            ),
            r is Ok ==> {
                let m = r->Ok_0.meta;
                &&& r->Ok_0.product_id@ == product.product_id@
                &&& r->Ok_0.data@ == data.compiled()
                &&& data.compiles()
                &&& m.begin == *time
                &&& m.end_time_iet == time.iet + product.gran_len
                &&& m.collection@ == product.short_name@
                &&& m.packet_type@.map_values(|s: String| s@) == received_names(data.apid_list@)
                &&& m.packet_type_count@ == received_counts(data.apid_list@)
                &&& GranuleMeta::describes(m, *time, *sat, *product)
                &&& GranuleMeta::created_at(m, *created)
            },
            time.iet < sat.base_time ==> r == Err::<Rdr, Error>(
                Error::RdrError(crate::error::RdrError::InvalidGranuleStart(time.iet)),
            ),
    {
        let mut meta = match GranuleMeta::new(*time, sat, product, created) {
            Ok(m) => m,
            Err(e) => return Err(e),
        };
        let mut names: Vec<String> = Vec::new();
        let mut counts: Vec<u32> = Vec::new();
        let mut i: usize = 0;
        while i < data.apid_list.len()
            invariant
                i <= data.apid_list@.len(),
                names@.map_values(|s: String| s@) == received_names(data.apid_list@.subrange(0, i as int)),
                counts@ == received_counts(data.apid_list@.subrange(0, i as int)),
            decreases data.apid_list@.len() - i,
        {
            let a = &data.apid_list[i];
            let ghost prefix = data.apid_list@.subrange(0, i + 1);
            assert(prefix.drop_last() =~= data.apid_list@.subrange(0, i as int));
            if a.pkts_received > 0 {
                names.push(a.name.clone());
                counts.push(a.pkts_received);
                assert(names@.map_values(|s: String| s@) =~= received_names(prefix));
            }
            i = i + 1;
        }
        assert(data.apid_list@.subrange(0, data.apid_list@.len() as int) =~= data.apid_list@);
        meta.packet_type = names;
        meta.packet_type_count = counts;
        assert(GranuleMeta::created_at(meta, *created));
        let bytes = match data.compile() {
            Ok(b) => b,
            Err(e) => return Err(e),
        };
        Ok(Rdr { meta, product_id: product.product_id.clone(), data: bytes })
    }
}

/// Metadata of a product group at /Data_Products/<collection>.
#[derive(Debug, Clone)]
pub struct ProductMeta {
    pub instrument: String,
    pub collection: String,
    pub processing_domain: String,
    pub dataset_type: String,
}

impl ProductMeta {
    pub fn from_rdr(rdr: &Rdr) -> (r: ProductMeta)
        ensures
            r.instrument@ == rdr.meta.instrument@,
            r.collection@ == rdr.meta.collection@,
            r.processing_domain@ == "dev"@,
            r.dataset_type@ == "RDR"@,
    {
        ProductMeta {
            instrument: rdr.meta.instrument.clone(),
            collection: rdr.meta.collection.clone(),
            processing_domain: "dev".to_owned(),
            dataset_type: "RDR".to_owned(),
        }
    }

    pub fn from_product(product: &ProductSpec) -> (r: ProductMeta)
        ensures
            r.instrument@ == product.sensor@,
            r.collection@ == product.short_name@,
            r.processing_domain@ == "dev"@,
            r.dataset_type@ == "RDR"@,
    {
        ProductMeta {
            instrument: product.sensor.clone(),
            collection: product.short_name.clone(),
            processing_domain: "dev".to_owned(),
            dataset_type: "RDR".to_owned(),
        }
    }
}

/// Metadata of an aggregate dataset at
/// /Data_Products/<collection>/<collection>_Aggr.
#[derive(Debug, Clone)]
pub struct AggrMeta {
    pub begin_orbit_nubmer: u32,
    pub end_orbit_number: u32,
    pub num_granules: u32,
    pub begin_date: String,
    pub begin_time: String,
    pub begin_granule_id: String,
    pub end_date: String,
    pub end_time: String,
    pub end_granule_id: String,
}

/// The index of the first RDR with the earliest beginning.
pub open spec fn is_first_begin(rdrs: Seq<Rdr>, s: int) -> bool {
    &&& 0 <= s < rdrs.len()
    &&& forall|i: int| 0 <= i < rdrs.len() ==> rdrs[s].meta.begin_time_iet <= (#[trigger] rdrs[i]).meta.begin_time_iet
    &&& forall|i: int| 0 <= i < s ==> rdrs[s].meta.begin_time_iet < (#[trigger] rdrs[i]).meta.begin_time_iet
}

/// The index of the last RDR with the latest end.
pub open spec fn is_last_end(rdrs: Seq<Rdr>, e: int) -> bool {
    &&& 0 <= e < rdrs.len()
    &&& forall|i: int| 0 <= i < rdrs.len() ==> (#[trigger] rdrs[i]).meta.end_time_iet <= rdrs[e].meta.end_time_iet
    &&& forall|i: int| e < i < rdrs.len() ==> (#[trigger] rdrs[i]).meta.end_time_iet < rdrs[e].meta.end_time_iet
}

impl AggrMeta {
    /// Create meta from the provided [Rdr]s: the beginning of the first to
    /// begin, the end of the last to end, and their count.
    pub fn from_rdrs(rdrs: &Vec<Rdr>) -> (r: AggrMeta)
        requires
            rdrs@.len() > 0,
            rdrs@.len() <= u32::MAX,
        ensures
            r.begin_orbit_nubmer == 1,
            r.end_orbit_number == 1,
            r.num_granules == rdrs@.len(),
            exists|s: int|
                #[trigger] is_first_begin(rdrs@, s) && r.begin_date@ == rdrs@[s].meta.begin_date@
                    && r.begin_time@ == rdrs@[s].meta.begin_time@ && r.begin_granule_id@
                    == rdrs@[s].meta.id@,
            exists|e: int|
                #[trigger] is_last_end(rdrs@, e) && r.end_date@ == rdrs@[e].meta.end_date@
                    && r.end_time@ == rdrs@[e].meta.end_time@ && r.end_granule_id@
                    == rdrs@[e].meta.id@,
    {
        let mut s: usize = 0;
        let mut e: usize = 0;
        let mut i: usize = 1;
        while i < rdrs.len()
            invariant
                1 <= i <= rdrs@.len(),
                s < i,
                e < i,
                is_first_begin(rdrs@.subrange(0, i as int), s as int),
                is_last_end(rdrs@.subrange(0, i as int), e as int),
            decreases rdrs@.len() - i,
        {
            let ghost pre = rdrs@.subrange(0, i as int);
            let ghost next = rdrs@.subrange(0, i + 1);
            assert(forall|k: int| 0 <= k < i ==> #[trigger] next[k] == pre[k]);
            if rdrs[i].meta.begin_time_iet < rdrs[s].meta.begin_time_iet {
                s = i;
            }
            if rdrs[i].meta.end_time_iet >= rdrs[e].meta.end_time_iet {
                e = i;
            }
            i = i + 1;
        }
        assert(rdrs@.subrange(0, rdrs@.len() as int) =~= rdrs@);
        let first = &rdrs[s];
        let last = &rdrs[e];
        AggrMeta {
            begin_orbit_nubmer: 1,
            end_orbit_number: 1,
            num_granules: rdrs.len() as u32,
            begin_date: first.meta.begin_date.clone(),
            begin_time: first.meta.begin_time.clone(),
            begin_granule_id: first.meta.id.clone(),
            end_date: last.meta.end_date.clone(),
            end_time: last.meta.end_time.clone(),
            end_granule_id: last.meta.id.clone(),
        }
    }
}

/// Whether `ids` is strictly ascending in lexicographic order.
pub open spec fn strictly_sorted(ids: Seq<String>) -> bool {
    forall|i: int, j: int| 0 <= i < j < ids.len() ==> lex_lt(ids[i]@, ids[j]@)
}

/// Whether `ids` holds `x`.
pub open spec fn has_text(ids: Seq<String>, x: Seq<char>) -> bool {
    exists|k: int| 0 <= k < ids.len() && (#[trigger] ids[k])@ == x
}

/// Inserts `x` into the strictly ascending `ids`, unless it is there.
fn insert_sorted(ids: &mut Vec<String>, x: &String)
    requires
        strictly_sorted(old(ids)@),
    ensures
        strictly_sorted(final(ids)@),
        has_text(final(ids)@, x@),
        forall|y: Seq<char>| #[trigger] has_text(final(ids)@, y) <==> has_text(old(ids)@, y) || y == x@,
{
    let mut pos: usize = 0;
    while pos < ids.len() && lex_less(ids[pos].as_str(), x.as_str())
        invariant
            pos <= ids@.len(),
            forall|k: int| 0 <= k < pos ==> lex_lt((#[trigger] ids@[k])@, x@),
        decreases ids@.len() - pos,
    {
        pos = pos + 1;
    }
    if pos < ids.len() && ids[pos] == *x {
        return;
    }
    let ghost before = ids@;
    proof {
        if pos < before.len() {
            lemma_lex_lt_total(before[pos as int]@, x@);
        }
    }
    ids.insert(pos, x.clone());
    proof {
        assert(ids@[pos as int]@ == x@);
        assert forall|i: int, j: int| 0 <= i < j < ids@.len() implies lex_lt(ids@[i]@, ids@[j]@) by {
            if j < pos {
                assert(ids@[i] == before[i] && ids@[j] == before[j]);
            } else if j == pos {
                assert(ids@[i] == before[i]);
            } else if i == pos {
                assert(ids@[j] == before[j - 1]);
                if j - 1 > pos {
                    lemma_lex_lt_transitive(x@, before[pos as int]@, before[j - 1]@);
                }
            } else if i < pos {
                assert(ids@[i] == before[i] && ids@[j] == before[j - 1]);
            } else {
                assert(ids@[i] == before[i - 1] && ids@[j] == before[j - 1]);
            }
        }
        assert forall|y: Seq<char>| #[trigger] has_text(ids@, y) <==> has_text(before, y) || y == x@ by {
            if has_text(ids@, y) {
                let k = choose|k: int| 0 <= k < ids@.len() && (#[trigger] ids@[k])@ == y;
                if k < pos {
                    assert(ids@[k] == before[k]);
                } else if k > pos {
                    assert(ids@[k] == before[k - 1]);
                }
            }
            if has_text(before, y) {
                let k = choose|k: int| 0 <= k < before.len() && (#[trigger] before[k])@ == y;
                if k < pos {
                    assert(ids@[k] == before[k]);
                } else {
                    assert(ids@[k + 1] == before[k]);
                }
            }
        }
    }
}

/// Whether an RDR is of a SCIENCE collection.
pub open spec fn is_science(r: Rdr) -> bool {
    occurs_in("SCIENCE"@, r.meta.collection@)
}

/// Whether `(start, end, ids)` are the file times and product ids of `rdrs`
/// at the time `now`.
pub open spec fn filename_meta_of(rdrs: Seq<Rdr>, now: Time, start: Time, end: Time, ids: Seq<String>) -> bool {
            &&& start.iet <= now.iet
            &&& forall|i: int|
                0 <= i < rdrs.len() && is_science(#[trigger] rdrs[i]) ==> start.iet
                    <= rdrs[i].meta.begin_time_iet && rdrs[i].meta.end_time_iet <= end.iet
            &&& start.iet == now.iet || exists|i: int|
                0 <= i < rdrs.len() && is_science(#[trigger] rdrs[i]) && start.iet
                    == rdrs[i].meta.begin_time_iet
            &&& end.iet == 0 || exists|i: int|
                0 <= i < rdrs.len() && is_science(#[trigger] rdrs[i]) && end.iet
                    == rdrs[i].meta.end_time_iet
            &&& strictly_sorted(ids)
            &&& forall|y: Seq<char>|
                #[trigger] has_text(ids, y) <==> exists|i: int|
                    0 <= i < rdrs.len() && (#[trigger] rdrs[i]).product_id@ == y
}

/// The file times and product ids of a group of RDRs, given the time `now`:
/// the earliest of `now` and the beginnings of the SCIENCE RDRs, the latest
/// of 0 and their ends, and the distinct product ids in ascending order.
pub fn rdr_filename_meta_at(rdrs: &[Rdr], now: Time) -> (r: (Time, Time, Vec<String>))
    ensures
        filename_meta_of(rdrs@, now, r.0, r.1, r.2@),
{
    let mut start = now.iet();
    let mut end: u64 = 0;
    let mut ids: Vec<String> = Vec::new();
    let mut i: usize = 0;
    while i < rdrs.len()
        invariant
            i <= rdrs@.len(),
            forall|k: int|
                0 <= k < i && is_science(#[trigger] rdrs@[k]) ==> start <= rdrs@[k].meta.begin_time_iet
                    && rdrs@[k].meta.end_time_iet <= end,
            start <= now.iet,
            start == now.iet || exists|k: int|
                0 <= k < i && is_science(#[trigger] rdrs@[k]) && start == rdrs@[k].meta.begin_time_iet,
            (exists|k: int|
                0 <= k < i && is_science(#[trigger] rdrs@[k]) && end == rdrs@[k].meta.end_time_iet)
                || end == 0,
            strictly_sorted(ids@),
            forall|y: Seq<char>|
                #[trigger] has_text(ids@, y) <==> exists|k: int|
                    0 <= k < i && (#[trigger] rdrs@[k]).product_id@ == y,
        decreases rdrs@.len() - i,
    {
        let rdr = &rdrs[i];
        if contains(rdr.meta.collection.as_str(), "SCIENCE") {
            if rdr.meta.begin_time_iet <= start {
                start = rdr.meta.begin_time_iet;
            }
            if rdr.meta.end_time_iet >= end {
                end = rdr.meta.end_time_iet;
            }
        }
        let ghost before = ids@;
        insert_sorted(&mut ids, &rdr.product_id);
        assert forall|y: Seq<char>|
            #[trigger] has_text(ids@, y) <==> exists|k: int|
                0 <= k < i + 1 && (#[trigger] rdrs@[k]).product_id@ == y by {
            if y == rdrs@[i as int].product_id@ {
                assert(rdrs@[i as int].product_id@ == y);
            }
            if exists|k: int| 0 <= k < i + 1 && (#[trigger] rdrs@[k]).product_id@ == y {
                let k = choose|k: int| 0 <= k < i + 1 && (#[trigger] rdrs@[k]).product_id@ == y;
                if k < i {
                    assert(has_text(before, y));
                }
            }
        }
        i = i + 1;
    }
    (Time::from_iet(start), Time::from_iet(end), ids)
}

/// The file times and product ids of a group of RDRs, as
/// [rdr_filename_meta_at] gives them for the time now.
///
/// # Errors
/// `Failed` if the clock cannot be read.
pub fn rdr_filename_meta(rdrs: &[Rdr]) -> (r: Result<(Time, Time, Vec<String>), Error>)
    ensures
        r is Err ==> r->Err_0 == Error::Failed,
        r is Ok ==> exists|now: Time|
            #[trigger] filename_meta_of(rdrs@, now, r->Ok_0.0, r->Ok_0.1, r->Ok_0.2@),
{
    match Time::now() {
        Ok(now) => {
            let r = rdr_filename_meta_at(rdrs, now);
            assert(filename_meta_of(rdrs@, now, r.0, r.1, r.2@));
            let out: Result<(Time, Time, Vec<String>), Error> = Ok(r);
            assert(out->Ok_0 == r);
            assert(filename_meta_of(rdrs@, now, out->Ok_0.0, out->Ok_0.1, out->Ok_0.2@));
            out
        },
        Err(e) => Err(e),
    }
}

/// The metadata of an RDR file: its file attributes, and per product its
/// group metadata and granules.
#[derive(Debug, Clone)]
pub struct Meta {
    pub distributor: String,
    pub mission: String,
    pub dataset_source: String,
    pub created: Time,
    pub platform: String,
    /// The metadata of each product group.
    pub products: Vec<ProductMeta>,
    /// Per product short name, the granules of that product.
    pub granules: Vec<(String, Vec<GranuleMeta>)>,
}

impl Meta {
    /// A Meta for the configured products whose short names are in
    /// `product_ids`, created now, with no granules yet; `None` when no
    /// configured product is named.
    ///
    /// # Errors
    /// `Failed` if the clock cannot be read.
    pub fn from_products(product_ids: &[String], config: &Config) -> (r: Result<Option<Meta>, Error>)
        ensures
            r is Err ==> r->Err_0 == Error::Failed,
            (forall|p: int|
                0 <= p < config.products@.len() ==> !has_text(
                    product_ids@,
                    (#[trigger] config.products@[p]).short_name@,
                )) ==> r == Ok::<Option<Meta>, Error>(None),
            r matches Ok(m) ==> (m is None <==> forall|p: int|
                0 <= p < config.products@.len() ==> !has_text(
                    product_ids@,
                    (#[trigger] config.products@[p]).short_name@,
                )),
            r matches Ok(Some(m)) ==> {
                &&& m.distributor@ == config.distributor@
                &&& m.dataset_source@ == config.distributor@
                &&& m.mission@ == config.satellite.mission@
                &&& m.platform@ == config.satellite.short_name@
                &&& m.products@.len() == m.granules@.len()
                &&& forall|k: int|
                    0 <= k < m.granules@.len() ==> (#[trigger] m.granules@[k]).1@.len() == 0
                        && m.granules@[k].0@ == m.products@[k].collection@
                &&& forall|k: int|
                    0 <= k < m.products@.len() ==> has_text(product_ids@, (#[trigger] m.products@[k]).collection@)
                        && m.products@[k].dataset_type@ == "RDR"@
                &&& forall|p: int|
                    0 <= p < config.products@.len() && has_text(product_ids@, (#[trigger] config.products@[p]).short_name@)
                        ==> exists|k: int| 0 <= k < m.products@.len() && (#[trigger] m.products@[k]).collection@ == config.products@[p].short_name@
                            && m.products@[k].instrument@ == config.products@[p].sensor@
            },
    {
        let mut products: Vec<ProductMeta> = Vec::new();
        let mut granules: Vec<(String, Vec<GranuleMeta>)> = Vec::new();
        let mut p: usize = 0;
        while p < config.products.len()
            invariant
                p <= config.products@.len(),
                products@.len() == granules@.len(),
                forall|k: int|
                    0 <= k < granules@.len() ==> (#[trigger] granules@[k]).1@.len() == 0
                        && granules@[k].0@ == products@[k].collection@,
                forall|k: int|
                    0 <= k < products@.len() ==> has_text(product_ids@, (#[trigger] products@[k]).collection@)
                        && products@[k].dataset_type@ == "RDR"@,
                forall|q: int|
                    0 <= q < p && has_text(product_ids@, (#[trigger] config.products@[q]).short_name@)
                        ==> exists|k: int| 0 <= k < products@.len() && (#[trigger] products@[k]).collection@ == config.products@[q].short_name@
                            && products@[k].instrument@ == config.products@[q].sensor@,
                products@.len() == 0 <==> forall|q: int|
                    0 <= q < p ==> !has_text(product_ids@, (#[trigger] config.products@[q]).short_name@),
            decreases config.products@.len() - p,
        {
            let product = &config.products[p];
            if contains_text(product_ids, &product.short_name) {
                let ghost before = products@;
                products.push(ProductMeta::from_product(product));
                granules.push((product.short_name.clone(), Vec::new()));
                assert forall|q: int|
                    0 <= q < p + 1 && has_text(product_ids@, (#[trigger] config.products@[q]).short_name@)
                        implies exists|k: int| 0 <= k < products@.len() && (#[trigger] products@[k]).collection@ == config.products@[q].short_name@
                            && products@[k].instrument@ == config.products@[q].sensor@ by {
                    if q < p {
                        let k = choose|k: int| 0 <= k < before.len() && (#[trigger] before[k]).collection@ == config.products@[q].short_name@
                            && before[k].instrument@ == config.products@[q].sensor@;
                        assert(products@[k] == before[k]);
                    } else {
                        assert(products@[before.len() as int].collection@ == config.products@[q].short_name@);
                    }
                }
            }
            p = p + 1;
        }
        if products.len() == 0 {
            return Ok(None);
        }
        let created = match Time::now() {
            Ok(t) => t,
            Err(e) => return Err(e),
        };
        Ok(
            Some(
                Meta {
                    distributor: config.distributor.clone(),
                    mission: config.satellite.mission.clone(),
                    dataset_source: config.distributor.clone(),
                    created,
                    platform: config.satellite.short_name.clone(),
                    products,
                    granules,
                },
            ),
        )
    }
}

/// Whether `x` is among `ids`.
fn contains_text(ids: &[String], x: &String) -> (r: bool)
    ensures
        r == has_text(ids@, x@),
{
    let mut i: usize = 0;
    while i < ids.len()
        invariant
            i <= ids@.len(),
            forall|k: int| 0 <= k < i ==> (#[trigger] ids@[k])@ != x@,
        decreases ids@.len() - i,
    {
        if ids[i] == *x {
            return true;
        }
        i = i + 1;
    }
    false
}

/// The filename time of a calendar: `%H%M%S` and the tenths of a second.
pub open spec fn file_clock_text(c: Calendar) -> Seq<char> {
    clock_text(c) + zero_padded(c.6 as nat, 9).subrange(0, 1)
}

/// The creation stamp of a calendar: `%Y%m%d%H%M%S` and the microseconds.
pub open spec fn created_text(c: Calendar) -> Seq<char> {
    date_text(c) + clock_text(c) + zero_padded(c.6 as nat, 9).subrange(0, 6)
}

/// The IDPS-style RDR filename.
pub open spec fn filename_text(
    satid: Seq<char>,
    origin: Seq<char>,
    mode: Seq<char>,
    created: Calendar,
    start: Calendar,
    end: Calendar,
    product_ids: Seq<Seq<char>>,
) -> Seq<char> {
    joined(product_ids, seq!['-']) + seq!['_'] + satid + seq!['_', 'd'] + date_text(start) + seq![
        '_',
        't',
    ] + file_clock_text(start) + seq!['_', 'e'] + file_clock_text(end) + seq![
        '_',
        'b',
        '0',
        '0',
        '0',
        '0',
        '0',
        '_',
        'c',
    ] + created_text(created) + seq!['_'] + origin.subrange(0, 3) + seq!['u', '_'] + mode
        + seq!['.', 'h', '5']
}

proof fn lemma_zero_padded_len(n: nat, w: nat)
    ensures
        zero_padded(n, w).len() >= w,
{
}

/// Appends the first `k` characters of `n` zero-padded to 9 digits.
fn push_nanos_prefix(out: &mut String, n: u32, k: usize)
    requires
        k <= 9,
    ensures
        final(out)@ == old(out)@ + zero_padded(n as nat, 9).subrange(0, k as int),
{
    let mut digits = String::new();
    push_zero_padded(&mut digits, n as u64, 9);
    assert(digits@ =~= zero_padded(n as nat, 9));
    proof {
        lemma_zero_padded_len(n as nat, 9);
    }
    out.append(digits.as_str().substring_char(0, k));
}

/// Create an IDPS style RDR filename.
#[verifier::rlimit(80)]
pub fn filename(
    satid: &str,
    origin: &str,
    mode: &str,
    created: &Time,
    start: &Time,
    end: &Time,
    product_ids: &[String],
) -> (r: String)
    requires
        origin@.len() >= 3,
    ensures
        r@ == filename_text(
            satid@,
            origin@,
            mode@,
            calendar_at(*created),
            calendar_at(*start),
            calendar_at(*end),
            product_ids@.map_values(|p: String| p@),
        ),
{
    let c = created.calendar();
    let s = start.calendar();
    let e = end.calendar();
    proof {
        reveal_strlit("-");
        reveal_strlit("_");
        reveal_strlit("_d");
        reveal_strlit("_t");
        reveal_strlit("_e");
        reveal_strlit("_b00000_c");
        reveal_strlit("u_");
        reveal_strlit(".h5");
        assert("_d"@ =~= seq!['_', 'd']);
        assert("_t"@ =~= seq!['_', 't']);
        assert("_e"@ =~= seq!['_', 'e']);
        assert("_b00000_c"@ =~= seq!['_', 'b', '0', '0', '0', '0', '0', '_', 'c']);
        assert("u_"@ =~= seq!['u', '_']);
        assert(".h5"@ =~= seq!['.', 'h', '5']);
        assert("_"@ =~= seq!['_']);
        assert("-"@ =~= seq!['-']);
    }
    let mut out = join(product_ids, "-");
    out.append("_");
    out.append(satid);
    out.append("_d");
    push_date(&mut out, s);
    out.append("_t");
    push_clock(&mut out, s);
    push_nanos_prefix(&mut out, s.6, 1);
    out.append("_e");
    push_clock(&mut out, e);
    push_nanos_prefix(&mut out, e.6, 1);
    out.append("_b00000_c");
    push_date(&mut out, c);
    push_clock(&mut out, c);
    push_nanos_prefix(&mut out, c.6, 6);
    out.append("_");
    out.append(origin.substring_char(0, 3));
    out.append("u_");
    out.append(mode);
    out.append(".h5");
    assert(out@ =~= filename_text(
        satid@,
        origin@,
        mode@,
        c,
        s,
        e,
        product_ids@.map_values(|p: String| p@),
    ));
    out
}

} // verus!
