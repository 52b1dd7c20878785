//! The collector: routes packets to per-product, per-granule accumulators and
//! emits each primary granule, with the packed granules that overlap it, once
//! it is complete.
use vstd::prelude::*;

use crate::config::{ProductSpec, RdrSpec, SatSpec};
use crate::error::{Error, RdrError};
use crate::granule::{get_granule_start, granule_start};
use crate::meta::Rdr;
use crate::packet::Packet;
use crate::rdr::{lists_apid, RdrData};
use crate::time::Time;

verus! {

/// An accumulator with its key: the index of its product and its granule
/// start.
pub struct Granule {
    pub product: usize,
    pub time: u64,
    pub data: RdrData,
}

/// The last product, among the first `n`, that configures `apid`.
pub open spec fn route_in(products: Seq<ProductSpec>, apid: u16, n: nat) -> Option<int>
    decreases n,
{
    if n == 0 {
        None
    } else if products[n - 1].has_apid(apid) {
        Some(n - 1)
    } else {
        route_in(products, apid, (n - 1) as nat)
    }
}

/// The product that packets of `apid` belong to: the last that configures it.
pub open spec fn route(products: Seq<ProductSpec>, apid: u16) -> Option<int> {
    route_in(products, apid, products.len())
}

/// Whether `id` is among `ids`.
pub open spec fn has_id(ids: Seq<String>, id: Seq<char>) -> bool {
    exists|i: int| 0 <= i < ids.len() && (#[trigger] ids[i])@ == id
}

/// Whether a packed granule starting at `packed_start`, of length `packed_len`,
/// overlaps the primary granule `[begin, begin + primary_len)`.
pub open spec fn overlaps(packed_start: int, packed_len: int, begin: int, primary_len: int) -> bool {
    begin - packed_len < packed_start < begin + primary_len
}

/// Whether `g` is a sound accumulator of one of `products`, keyed at or after
/// `base_time`.
pub open spec fn granule_ok(products: Seq<ProductSpec>, base_time: u64, g: Granule) -> bool {
    &&& g.product < products.len()
    &&& g.data.wf()
    &&& g.time >= base_time
    &&& g.time + products[g.product as int].gran_len <= u64::MAX
    &&& forall|j: int|
        0 <= j < products[g.product as int].apids@.len() ==> lists_apid(
            g.data.apid_list@,
            (#[trigger] products[g.product as int].apids@[j]).num as u32,
        )
}

/// Whether the granules of `gs` are sound and have distinct keys.
pub open spec fn granules_ok(products: Seq<ProductSpec>, base_time: u64, gs: Seq<Granule>) -> bool {
    &&& forall|i: int| 0 <= i < gs.len() ==> granule_ok(products, base_time, #[trigger] gs[i])
    &&& forall|i: int, j: int|
        0 <= i < j < gs.len() ==> !(gs[i].product == gs[j].product && gs[i].time == gs[j].time)
}

/// Whether `rdr` is the RDR of the `q`th of the packed granules `packed`, of
/// which it holds the compiled bytes, and that granule overlaps the primary
/// granule `[begin, begin + len)`.
pub open spec fn from_packed_in(
    products: Seq<ProductSpec>,
    packed: Seq<Granule>,
    rdr: Rdr,
    q: int,
    begin: int,
    len: int,
) -> bool {
    let g = packed[q];
    &&& 0 <= q < packed.len()
    &&& overlaps(g.time as int, products[g.product as int].gran_len as int, begin, len)
    &&& g.data.compiles()
    &&& rdr.product_id@ == products[g.product as int].product_id@
    &&& rdr.meta.begin.iet == g.time
    &&& rdr.data@ == g.data.compiled()
}

/// Whether the `q`th of the packed granules overlaps `[begin, begin + len)`
/// and compiles.
pub open spec fn packed_due(
    products: Seq<ProductSpec>,
    packed: Seq<Granule>,
    q: int,
    begin: int,
    len: int,
) -> bool {
    &&& 0 <= q < packed.len()
    &&& overlaps(packed[q].time as int, products[packed[q].product as int].gran_len as int, begin, len)
    &&& packed[q].data.compiles()
}

/// Whether `v` holds the RDRs of the packed granules at `idx`, in order of
/// their index, one for each packed granule that overlaps `[begin, begin +
/// len)` and compiles.
pub open spec fn packed_indexed(
    products: Seq<ProductSpec>,
    packed: Seq<Granule>,
    v: Seq<Rdr>,
    idx: Seq<int>,
    begin: int,
    len: int,
) -> bool {
    &&& idx.len() == v.len()
    &&& forall|a: int, b: int| 0 <= a < b < idx.len() ==> idx[a] < idx[b]
    &&& forall|m: int| 0 <= m < v.len() ==> from_packed_in(products, packed, #[trigger] v[m], idx[m], begin, len)
    &&& forall|q: int| #[trigger] packed_due(products, packed, q, begin, len) ==> exists|m: int|
        0 <= m < idx.len() && idx[m] == q
}

/// Whether `v` holds exactly the RDRs of the packed granules that overlap
/// `[begin, begin + len)` and compile, each once, in the order they are held.
#[verifier::opaque]
pub open spec fn packed_group(
    products: Seq<ProductSpec>,
    packed: Seq<Granule>,
    v: Seq<Rdr>,
    begin: int,
    len: int,
) -> bool {
    exists|idx: Seq<int>| #[trigger] packed_indexed(products, packed, v, idx, begin, len)
}

/// Whether `v` is the group of the primary granule `g`: its RDR, then the
/// packed RDRs that overlap it.
pub open spec fn heads(products: Seq<ProductSpec>, packed: Seq<Granule>, g: Granule, v: Seq<Rdr>) -> bool {
    &&& v.len() >= 1
    &&& v[0].data@ == g.data.compiled()
    &&& v[0].product_id@ == products[g.product as int].product_id@
    &&& v[0].meta.begin.iet == g.time
    &&& packed_group(products, packed, v.drop_first(), g.time as int, products[g.product as int].gran_len as int)
}

/// Whether `v` is the group of one of the granules `gs`.
pub open spec fn headed(products: Seq<ProductSpec>, packed: Seq<Granule>, gs: Seq<Granule>, v: Seq<Rdr>) -> bool {
    exists|q: int| 0 <= q < gs.len() && #[trigger] heads(products, packed, gs[q], v)
}

/// Whether one of `groups` is the group of the granule `g`.
pub open spec fn grouped(products: Seq<ProductSpec>, packed: Seq<Granule>, g: Granule, groups: Seq<Vec<Rdr>>) -> bool {
    exists|i: int| 0 <= i < groups.len() && #[trigger] heads(products, packed, g, groups[i]@)
}

/// Whether the packet fits the accumulator it goes to: the one of product
/// `p` starting at `t` in `gs`, or a fresh one when there is none.
pub open spec fn accepts_in(gs: Seq<Granule>, p: int, t: int, iet: u64, pkt: Packet) -> bool {
    if exists|i: int| 0 <= i < gs.len() && gs[i].product == p && gs[i].time == t {
        gs[choose|i: int| 0 <= i < gs.len() && gs[i].product == p && gs[i].time == t].data.accepts(iet, pkt)
    } else {
        pkt.data@.len() <= i32::MAX && iet <= i64::MAX
    }
}

/// Whether `gs` holds a granule of product `p` starting at `t`.
pub open spec fn has_key(gs: Seq<Granule>, p: int, t: int) -> bool {
    exists|i: int| 0 <= i < gs.len() && gs[i].product == p && gs[i].time == t
}

/// The number of granules of `gs` whose data compiles.
pub open spec fn compiling_count(gs: Seq<Granule>) -> nat
    decreases gs.len(),
{
    if gs.len() == 0 {
        0
    } else {
        compiling_count(gs.drop_last()) + if gs.last().data.compiles() {
            1nat
        } else {
            0nat
        }
    }
}

/// Collects individual product RDR data.
pub struct Collector {
    pub sat: SatSpec,
    pub products: Vec<ProductSpec>,
    /// Ids of the primary products.
    pub primary_ids: Vec<String>,
    /// Ids of the products packed with some primary product.
    pub packed_ids: Vec<String>,
    /// Accumulators of primary products.
    pub primary: Vec<Granule>,
    /// Accumulators of packed products.
    pub packed: Vec<Granule>,
}

impl Collector {
    /// The collector's invariant.
    pub open spec fn wf(&self) -> bool {
        &&& forall|p: int| 0 <= p < self.products@.len() ==> (#[trigger] self.products@[p]).gran_len > 0
        &&& granules_ok(self.products@, self.sat.base_time, self.primary@)
        &&& granules_ok(self.products@, self.sat.base_time, self.packed@)
    }

    /// Whether product `p` is a primary product.
    pub open spec fn is_primary(&self, p: int) -> bool {
        has_id(self.primary_ids@, self.products@[p].product_id@)
    }

    /// Whether product `p` is packed with some primary product.
    pub open spec fn is_packed(&self, p: int) -> bool {
        has_id(self.packed_ids@, self.products@[p].product_id@)
    }

    /// The granule start of a packet of product `p` observed at `iet`.
    pub open spec fn gran_of(&self, p: int, iet: u64) -> int {
        granule_start(iet as int, self.products@[p].gran_len as int, self.sat.base_time as int)
    }

    /// Whether `rdr` is the RDR of the primary granule of product `p`
    /// starting at `t`, as `old` held it.
    pub open spec fn from_primary(&self, rdr: Rdr, p: int, t: int) -> bool {
        exists|q: int|
            0 <= q < self.primary@.len() && self.primary@[q].product == p && self.primary@[q].time == t
                && #[trigger] self.primary@[q].data.compiled() == rdr.data@
            && rdr.product_id@ == self.products@[p].product_id@ && rdr.meta.begin.iet == t
    }

    /// Whether adding a packet of `apid` observed at `iet` took `old` to
    /// `new` and emitted `v`: the primary granule two granule lengths before
    /// the packet's, which `new` no longer holds, then every packed granule
    /// that overlaps it and compiles, once each.
    pub open spec fn emitted(old: Collector, new: Collector, iet: u64, apid: u16, v: Seq<Rdr>) -> bool {
        &&& route(old.products@, apid) is Some
        &&& {
            let p = route(old.products@, apid)->Some_0;
            let len = old.products@[p].gran_len as int;
            let t = old.gran_of(p, iet) - 2 * len;
            &&& old.is_primary(p)
            &&& v.len() >= 1
            &&& old.from_primary(v[0], p, t)
            &&& forall|i: int|
                0 <= i < new.primary@.len() ==> !((#[trigger] new.primary@[i]).product == p
                    && new.primary@[i].time == t)
            &&& packed_group(old.products@, old.packed@, v.drop_first(), t, len)
        }
    }

    /// The RDR of the `q`th packed granule, if that granule overlaps the
    /// primary granule `[begin, begin + len)` and compiles.
    fn packed_rdr(&self, q: usize, begin: u64, len: u64, created: &Time) -> (r: Option<Rdr>)
        requires
            self.wf(),
            q < self.packed@.len(),
            begin + len <= u64::MAX,
        ensures
            r is Some <==> packed_due(self.products@, self.packed@, q as int, begin as int, len as int),
            r is Some ==> from_packed_in(self.products@, self.packed@, r->Some_0, q as int, begin as int, len as int),
    {
        let g = &self.packed[q];
        assert(granule_ok(self.products@, self.sat.base_time, self.packed@[q as int]));
        let product = &self.products[g.product];
        if g.time + product.gran_len > begin && g.time < begin + len {
            match Rdr::from_data(&self.sat, product, &Time::from_iet(g.time), &g.data, created) {
                Ok(rdr) => Some(rdr),
                Err(_) => None,
            }
        } else {
            None
        }
    }

    /// The RDRs of the packed granules that overlap the primary granule
    /// `[begin, begin + len)` and compile, in the order they are held.
    fn overlapping_packed_rdrs(&self, begin: u64, len: u64, created: &Time) -> (r: Vec<Rdr>)
        requires
            self.wf(),
            begin + len <= u64::MAX,
        ensures
            packed_group(self.products@, self.packed@, r@, begin as int, len as int),
    {
        let mut out: Vec<Rdr> = Vec::new();
        let ghost mut idx: Seq<int> = Seq::empty();
        let mut q: usize = 0;
        while q < self.packed.len()
            invariant
                self.wf(),
                begin + len <= u64::MAX,
                q <= self.packed@.len(),
                idx.len() == out@.len(),
                forall|a: int, b: int| 0 <= a < b < idx.len() ==> idx[a] < idx[b],
                forall|m: int| 0 <= m < idx.len() ==> idx[m] < q,
                forall|m: int|
                    0 <= m < out@.len() ==> from_packed_in(
                        self.products@,
                        self.packed@,
                        #[trigger] out@[m],
                        idx[m],
                        begin as int,
                        len as int,
                    ),
                forall|k: int|
                    0 <= k < q && #[trigger] packed_due(self.products@, self.packed@, k, begin as int, len as int)
                        ==> exists|m: int| 0 <= m < idx.len() && idx[m] == k,
            decreases self.packed@.len() - q,
        {
            match self.packed_rdr(q, begin, len, created) {
                Some(rdr) => {
                    let ghost before = out@;
                    let ghost before_idx = idx;
                    out.push(rdr);
                    proof {
                        idx = idx.push(q as int);
                        assert forall|m: int| 0 <= m < out@.len() implies from_packed_in(
                            self.products@,
                            self.packed@,
                            #[trigger] out@[m],
                            idx[m],
                            begin as int,
                            len as int,
                        ) by {
                            if m < before.len() {
                                assert(out@[m] == before[m]);
                                assert(idx[m] == before_idx[m]);
                            }
                        }
                        assert forall|k: int|
                            0 <= k < q + 1 && #[trigger] packed_due(self.products@, self.packed@, k, begin as int, len as int)
                                implies exists|m: int| 0 <= m < idx.len() && idx[m] == k by {
                            if k < q {
                                let m = choose|m: int| 0 <= m < before_idx.len() && before_idx[m] == k;
                                assert(idx[m] == k);
                            } else {
                                assert(idx[idx.len() - 1] == k);
                            }
                        }
                    }
                },
                None => {},
            }
            q = q + 1;
        }
        assert(packed_indexed(self.products@, self.packed@, out@, idx, begin as int, len as int));
        proof {
            reveal(packed_group);
        }
        out
    }

    /// Removes the primary granule of product `p` starting at `t`, if there is
    /// one, and returns its RDR, created at `created`, with the RDRs of the
    /// packed granules that overlap it.
    ///
    /// # Errors
    /// `IntError` when the granule does not compile; it is removed all the
    /// same.
    #[verifier::rlimit(100)]
    pub fn complete(&mut self, p: usize, t: u64, created: &Time) -> (r: Result<Option<Vec<Rdr>>, Error>)
        requires
            old(self).wf(),
            p < old(self).products@.len(),
            t + old(self).products@[p as int].gran_len <= u64::MAX,
        ensures
            final(self).wf(),
            final(self).sat == old(self).sat,
            final(self).products == old(self).products,
            final(self).primary_ids == old(self).primary_ids,
            final(self).packed_ids == old(self).packed_ids,
            final(self).packed == old(self).packed,
            forall|i: int|
                0 <= i < final(self).primary@.len() ==> !((#[trigger] final(self).primary@[i]).product == p
                    && final(self).primary@[i].time == t),
            forall|a: int, b: int|
                !(a == p && b == t) ==> #[trigger] held(final(self).primary@, a, b) == held(old(self).primary@, a, b),
            !has_key(old(self).primary@, p as int, t as int) ==> r == Ok::<Option<Vec<Rdr>>, Error>(None)
                && *final(self) == *old(self),
            has_key(old(self).primary@, p as int, t as int) ==> exists|q: int|
                0 <= q < old(self).primary@.len() && old(self).primary@[q].product == p
                    && old(self).primary@[q].time == t && #[trigger] old(self).primary@.remove(q)
                    == final(self).primary@ && (old(self).primary@[q].data.compiles() ==> r is Ok
                    && r->Ok_0 is Some) && (!old(self).primary@[q].data.compiles() ==> r == Err::<
                    Option<Vec<Rdr>>,
                    Error,
                >(Error::RdrError(RdrError::IntError))),
            r matches Ok(Some(v)) ==> {
                let len = old(self).products@[p as int].gran_len as int;
                &&& v@.len() >= 1
                &&& old(self).from_primary(v@[0], p as int, t as int)
                &&& packed_group(old(self).products@, old(self).packed@, v@.drop_first(), t as int, len)
            },
    {
        let q = match find_granule(&self.primary, p, t) {
            Some(q) => q,
            None => return Ok(None),
        };
        assert(granule_ok(self.products@, self.sat.base_time, self.primary@[q as int]));
        let ghost before = *self;
        let g = self.primary.remove(q);
        assert(before.primary@.remove(q as int) == self.primary@);
        proof {
            lemma_granules_ok_remove(self.products@, self.sat.base_time, before.primary@, q as int);
            assert forall|i: int|
                0 <= i < self.primary@.len() implies !((#[trigger] self.primary@[i]).product == p
                && self.primary@[i].time == t) by {
                if i < q {
                    assert(self.primary@[i] == before.primary@[i]);
                } else {
                    assert(self.primary@[i] == before.primary@[i + 1]);
                }
            }
            assert forall|a: int, b: int|
                !(a == p && b == t) implies #[trigger] held(self.primary@, a, b) == held(before.primary@, a, b) by {
                lemma_held_remove(before.primary@, q as int, a, b);
            }
        }
        let len = self.products[p].gran_len;
        let rdr = match Rdr::from_data(&self.sat, &self.products[p], &Time::from_iet(t), &g.data, created) {
            Ok(rdr) => rdr,
            Err(e) => return Err(e),
        };
        assert(before.from_primary(rdr, p as int, t as int));
        let mut packed = self.overlapping_packed_rdrs(t, len, created);
        let ghost packed_view = packed@;
        let mut rdrs: Vec<Rdr> = Vec::new();
        rdrs.push(rdr);
        rdrs.append(&mut packed);
        assert(rdrs@ =~= seq![rdr] + packed_view);
        assert(rdrs@.drop_first() =~= packed_view);
        Ok(Some(rdrs))
    }

    /// Add the packet to this collector, returning the primary RDR that it
    /// completes, if any, along with the overlapping packed RDRs.
    ///
    /// The current primary granule can never be complete, because overlapping
    /// packed data may still come, so only the granule two granule lengths
    /// before the packet's is checked; the clock is read, for the creation
    /// time of the RDRs, only when that granule is held. Packets of APIDs that
    /// no product configures, or of products in no RDR, are ignored.
    ///
    /// # Errors
    /// `InvalidGranuleStart` if the packet is older than the base time and
    /// `InvalidTime` if its granule ends past the largest time (the collector
    /// is then unchanged); `InvalidPacket` if it does not fit its accumulator;
    /// `Failed` if the clock cannot be read and `IntError` if the completed
    /// granule does not compile.
    #[verifier::rlimit(100)]
    pub fn add(&mut self, pkt_time: &Time, pkt: Packet) -> (r: Result<Option<Vec<Rdr>>, Error>)
        requires
            old(self).wf(),
        ensures
            final(self).wf(),
            final(self).sat == old(self).sat,
            final(self).products == old(self).products,
            final(self).primary_ids == old(self).primary_ids,
            final(self).packed_ids == old(self).packed_ids,
            route(old(self).products@, pkt.header.apid) is None ==> r == Ok::<Option<Vec<Rdr>>, Error>(None)
                && *final(self) == *old(self),
            route(old(self).products@, pkt.header.apid) is Some && pkt_time.iet < old(self).sat.base_time
                ==> r == Err::<Option<Vec<Rdr>>, Error>(
                Error::RdrError(RdrError::InvalidGranuleStart(pkt_time.iet)),
            ) && *final(self) == *old(self),
            route(old(self).products@, pkt.header.apid) is Some && pkt_time.iet >= old(self).sat.base_time
                ==> Self::outcome(*old(self), *final(self), route(old(self).products@, pkt.header.apid)->Some_0,
                pkt_time.iet, pkt, r),
            r matches Ok(Some(v)) ==> Self::emitted(*old(self), *final(self), pkt_time.iet, pkt.header.apid, v@),
    {
        let apid = pkt.header.apid;
        let p = match route_apid(&self.products, apid) {
            Some(p) => p,
            None => return Ok(None),
        };
        proof {
            lemma_route_in(self.products@, apid, self.products@.len());
        }
        let iet = pkt_time.iet();
        let base = self.sat.base_time;
        if iet < base {
            return Err(Error::RdrError(RdrError::InvalidGranuleStart(iet)));
        }
        let len = self.products[p].gran_len;
        let gran = get_granule_start(iet, len, base);
        if gran > u64::MAX - len {
            return Err(Error::RdrError(RdrError::InvalidTime(iet)));
        }
        let ghost header = pkt.header;
        let primary = contains_id(&self.primary_ids, &self.products[p].product_id);
        if !primary {
            if !contains_id(&self.packed_ids, &self.products[p].product_id) {
                return Ok(None);
            }
            match add_to(&mut self.packed, &self.products, &self.sat, p, gran, pkt_time, pkt) {
                Ok(()) => {},
                Err(e) => return Err(e),
            }
            return Ok(None);
        }
        let ghost old_primary = self.primary@;
        match add_to(&mut self.primary, &self.products, &self.sat, p, gran, pkt_time, pkt) {
            Ok(()) => {},
            Err(e) => return Err(e),
        }
        assert(self.products@[p as int].gran_len > 0);
        // The granule two lengths back has had its chance to gather the packed
        // granules that overlap it: it is complete.
        if gran - base < len || gran - base - len < len {
            return Ok(None);
        }
        let earlier = gran - 2 * len;
        proof {
            if has_key(old_primary, p as int, earlier as int) {
                let i = choose|i: int| 0 <= i < old_primary.len() && old_primary[i].product == p && old_primary[i].time == earlier;
                assert(self.primary@[i] == old_primary[i]);
            }
            if has_key(self.primary@, p as int, earlier as int) {
                let i = choose|i: int| 0 <= i < self.primary@.len() && self.primary@[i].product == p && self.primary@[i].time == earlier;
                if i >= old_primary.len() {
                    assert(self.primary@[i].time == gran);
                }
                assert(self.primary@[i] == old_primary[i]);
            }
        }
        if find_granule(&self.primary, p, earlier).is_none() {
            return Ok(None);
        }
        let created = match Time::now() {
            Ok(t) => t,
            Err(e) => return Err(e),
        };
        let ghost mid = *self;
        let r = self.complete(p, earlier, &created);
        proof {
            assert(held(self.primary@, p as int, gran as int) == held(mid.primary@, p as int, gran as int));
            if r is Ok && r->Ok_0 is Some {
                let v = r->Ok_0->Some_0;
                let q = choose|q: int|
                    0 <= q < mid.primary@.len() && mid.primary@[q].product == p && mid.primary@[q].time == earlier
                        && #[trigger] mid.primary@[q].data.compiled() == v@[0].data@
                        && v@[0].product_id@ == mid.products@[p as int].product_id@ && v@[0].meta.begin.iet == earlier;
                if q >= old_primary.len() {
                    assert(mid.primary@[q].time == gran);
                }
                assert(mid.primary@[q] == old_primary[q]);
                assert(old(self).from_primary(v@[0], p as int, earlier as int));
            }
            let q = choose|q: int|
                0 <= q < mid.primary@.len() && mid.primary@[q].product == p
                    && mid.primary@[q].time == earlier && #[trigger] mid.primary@.remove(q)
                    == self.primary@ && (mid.primary@[q].data.compiles() ==> r is Ok
                    && r->Ok_0 is Some) && (!mid.primary@[q].data.compiles() ==> r == Err::<
                    Option<Vec<Rdr>>,
                    Error,
                >(Error::RdrError(RdrError::IntError)));
            if q >= old_primary.len() {
                assert(mid.primary@[q].time == gran);
            }
            assert(mid.primary@[q] == old_primary[q]);
        }
        r
    }

    /// What adding a packet of product `p`, observed at `iet` at or after the
    /// base time, does: `r` and the move from `old` to `new`.
    pub open spec fn outcome(old: Collector, new: Collector, p: int, iet: u64, pkt: Packet, r: Result<
        Option<Vec<Rdr>>,
        Error,
    >) -> bool {
        let len = old.products@[p].gran_len as int;
        let g = old.gran_of(p, iet);
        let t = g - 2 * len;
        let late = g - old.sat.base_time >= 2 * len;
        if g + len > u64::MAX {
            r == Err::<Option<Vec<Rdr>>, Error>(Error::RdrError(RdrError::InvalidTime(iet))) && new == old
        } else if !old.is_primary(p) && !old.is_packed(p) {
            r == Ok::<Option<Vec<Rdr>>, Error>(None) && new == old
        } else if !old.is_primary(p) {
            &&& new.primary == old.primary
            &&& if accepts_in(old.packed@, p, g, iet, pkt) {
                &&& r == Ok::<Option<Vec<Rdr>>, Error>(None)
                &&& held(new.packed@, p, g) == held(old.packed@, p, g).push((iet, pkt))
            } else {
                &&& r == Err::<Option<Vec<Rdr>>, Error>(Error::RdrError(RdrError::InvalidPacket(pkt.header)))
                &&& new.packed@ == old.packed@
            }
        } else if !accepts_in(old.primary@, p, g, iet, pkt) {
            r == Err::<Option<Vec<Rdr>>, Error>(Error::RdrError(RdrError::InvalidPacket(pkt.header)))
                && new.primary@ == old.primary@ && new.packed == old.packed
        } else {
            &&& new.packed == old.packed
            &&& held(new.primary@, p, g) == held(old.primary@, p, g).push((iet, pkt))
            &&& (late && has_key(old.primary@, p, t)) || r == Ok::<Option<Vec<Rdr>>, Error>(None)
            &&& late && has_key(old.primary@, p, t) ==> {
                ||| r is Ok && r->Ok_0 is Some
                ||| r == Err::<Option<Vec<Rdr>>, Error>(Error::Failed)
                ||| r == Err::<Option<Vec<Rdr>>, Error>(Error::RdrError(RdrError::IntError))
            }
        }
    }

    /// Whether `g` is one of the primary granules of `self`.
    pub open spec fn holds_primary(&self, g: Granule) -> bool {
        holds_in(self.primary@, g)
    }

    /// The index of the primary granule with the earliest start.
    fn earliest_primary(&self) -> (r: usize)
        requires
            self.primary@.len() > 0,
        ensures
            r < self.primary@.len(),
            forall|i: int| 0 <= i < self.primary@.len() ==> self.primary@[r as int].time <= (
            #[trigger] self.primary@[i]).time,
    {
        let mut best: usize = 0;
        let mut i: usize = 1;
        while i < self.primary.len()
            invariant
                1 <= i <= self.primary@.len(),
                best < i,
                forall|m: int| 0 <= m < i ==> self.primary@[best as int].time <= (
                #[trigger] self.primary@[m]).time,
            decreases self.primary@.len() - i,
        {
            if self.primary[i].time < self.primary[best].time {
                best = i;
            }
            i = i + 1;
        }
        best
    }

    /// Whether `groups` flush the primary granules of `c`: one group for each
    /// granule that compiles, headed by it and holding the packed granules
    /// that overlap it, earliest first.
    pub open spec fn flushed(c: Collector, groups: Seq<Vec<Rdr>>) -> bool {
        &&& groups.len() == compiling_count(c.primary@)
        &&& forall|i: int|
            0 <= i < groups.len() ==> headed(c.products@, c.packed@, c.primary@, #[trigger] groups[i]@)
        &&& forall|q: int|
            0 <= q < c.primary@.len() && (#[trigger] c.primary@[q]).data.compiles() ==> grouped(
                c.products@,
                c.packed@,
                c.primary@[q],
                groups,
            )
        &&& forall|i: int, j: int|
            0 <= i < j < groups.len() ==> (#[trigger] groups[i])@[0].meta.begin.iet <= (
            #[trigger] groups[j])@[0].meta.begin.iet
    }

    /// Flushes every remaining primary granule, earliest first, each with the
    /// packed granules that overlap it, reading the clock once for the
    /// creation time. Nothing is flushed when the clock cannot be read.
    ///
    /// # Errors
    /// `Failed` if there are granules to flush and the clock cannot be read.
    pub fn finish(self) -> (r: Result<Vec<Vec<Rdr>>, Error>)
        requires
            self.wf(),
        ensures
            self.primary@.len() == 0 ==> r is Ok && r->Ok_0@.len() == 0,
            r is Err ==> r->Err_0 == Error::Failed,
            r is Ok ==> Self::flushed(self, r->Ok_0@),
    {
        if self.primary.len() == 0 {
            let r: Vec<Vec<Rdr>> = Vec::new();
            assert(compiling_count(self.primary@) == 0);
            return Ok(r);
        }
        match Time::now() {
            Ok(created) => Ok(self.finish_at(&created)),
            Err(e) => Err(e),
        }
    }

    /// Flushes every remaining primary granule, earliest first, each with the
    /// packed granules that overlap it, all created at `created`. A granule
    /// that does not compile is left out.
    #[verifier::rlimit(100)]
    #[verifier::spinoff_prover]
    pub fn finish_at(self, created: &Time) -> (r: Vec<Vec<Rdr>>)
        requires
            self.wf(),
        ensures
            Self::flushed(self, r@),
    {
        let ghost orig = self;
        let mut c = self;
        let mut finished: Vec<Vec<Rdr>> = Vec::new();
        let mut last: u64 = 0;
        while c.primary.len() > 0
            invariant
                c.wf(),
                orig.wf(),
                c.sat == orig.sat,
                c.products == orig.products,
                c.packed == orig.packed,
                finished@.len() + compiling_count(c.primary@) == compiling_count(orig.primary@),
                forall|i: int| 0 <= i < c.primary@.len() ==> orig.holds_primary(#[trigger] c.primary@[i]),
                forall|i: int| 0 <= i < c.primary@.len() ==> last <= (#[trigger] c.primary@[i]).time,
                forall|i: int|
                    0 <= i < finished@.len() ==> (#[trigger] finished@[i])@.len() >= 1
                        && finished@[i]@[0].meta.begin.iet <= last,
                forall|i: int|
                    0 <= i < finished@.len() ==> headed(
                        orig.products@,
                        orig.packed@,
                        orig.primary@,
                        #[trigger] finished@[i]@,
                    ),
                forall|q: int|
                    0 <= q < orig.primary@.len() && (#[trigger] orig.primary@[q]).data.compiles() ==> c.holds_primary(
                        orig.primary@[q],
                    ) || grouped(orig.products@, orig.packed@, orig.primary@[q], finished@),
                forall|i: int, j: int|
                    0 <= i < j < finished@.len() ==> (#[trigger] finished@[i])@[0].meta.begin.iet <= (
                    #[trigger] finished@[j])@[0].meta.begin.iet,
            decreases c.primary@.len(),
        {
            let b = c.earliest_primary();
            let p = c.primary[b].product;
            let t = c.primary[b].time;
            assert(granule_ok(c.products@, c.sat.base_time, c.primary@[b as int]));
            let ghost gb = c.primary@[b as int];
            let ghost before = c;
            let ghost old_finished = finished@;
            let res = c.complete(p, t, created);
            proof {
                assert(has_key(before.primary@, p as int, t as int));
                let q = choose|q: int|
                    0 <= q < before.primary@.len() && before.primary@[q].product == p
                        && before.primary@[q].time == t && #[trigger] before.primary@.remove(q)
                        == c.primary@ && (before.primary@[q].data.compiles() ==> res is Ok
                        && res->Ok_0 is Some) && (!before.primary@[q].data.compiles() ==> res == Err::<
                        Option<Vec<Rdr>>,
                        Error,
                    >(Error::RdrError(RdrError::IntError)));
                lemma_same_key(before.primary@, q, b as int);
                assert(q == b);
                lemma_compiling_count_remove(before.primary@, q);
                assert forall|i: int| 0 <= i < c.primary@.len() implies orig.holds_primary(#[trigger] c.primary@[i])
                    && t <= c.primary@[i].time by {
                    let k = if i < q { i } else { i + 1 };
                    assert(c.primary@[i] == before.primary@[k]);
                    assert(orig.holds_primary(before.primary@[k]));
                }
            }
            let ghost j = choose|j: int| 0 <= j < orig.primary@.len() && #[trigger] orig.primary@[j] == gb;
            match res {
                Ok(Some(v)) => {
                    proof {
                        let q = choose|q: int|
                            0 <= q < before.primary@.len() && before.primary@[q].product == p
                                && before.primary@[q].time == t
                                && #[trigger] before.primary@[q].data.compiled() == v@[0].data@
                                && v@[0].product_id@ == before.products@[p as int].product_id@
                                && v@[0].meta.begin.iet == t;
                        lemma_same_key(before.primary@, q, b as int);
                        assert(heads(orig.products@, orig.packed@, gb, v@));
                        assert(heads(orig.products@, orig.packed@, orig.primary@[j], v@));
                    }
                    finished.push(v);
                    proof {
                        assert forall|i: int| 0 <= i < old_finished.len() implies #[trigger] finished@[i] == old_finished[i] by {}
                        let n = finished@.len() - 1;
                        assert(finished@[n] == v);
                        assert(heads(orig.products@, orig.packed@, orig.primary@[j], finished@[n]@));
                        assert(finished@.drop_last() =~= old_finished);
                    }
                },
                _ => {},
            }
            proof {
                lemma_flush_step(
                    orig.products@,
                    orig.packed@,
                    orig.primary@,
                    before.primary@,
                    b as int,
                    old_finished,
                    finished@,
                    j,
                );
                assert(c.primary@ == before.primary@.remove(b as int));
            }
            last = t;
        }
        assert(compiling_count(c.primary@) == 0);
        finished
    }

    #[must_use]
    pub fn new(sat: SatSpec, rdrs: &[RdrSpec], products: &[ProductSpec]) -> (r: Collector)
        requires
            forall|p: int| 0 <= p < products@.len() ==> (#[trigger] products@[p]).gran_len > 0,
        ensures
            r.wf(),
            r.sat == sat,
            r.products@.len() == products@.len(),
            forall|p: int| 0 <= p < products@.len() ==> (#[trigger] r.products@[p]).same(&products@[p]),
            r.primary@.len() == 0,
            r.packed@.len() == 0,
            r.primary_ids@.len() == rdrs@.len(),
            forall|i: int| 0 <= i < rdrs@.len() ==> (#[trigger] r.primary_ids@[i])@ == rdrs@[i].product@,
            forall|i: int, j: int|
                0 <= i < rdrs@.len() && 0 <= j < rdrs@[i].packed_with@.len() ==> has_id(
                    r.packed_ids@,
                    (#[trigger] rdrs@[i].packed_with@[j])@,
                ),
    {
        let mut all: Vec<ProductSpec> = Vec::new();
        let mut p: usize = 0;
        while p < products.len()
            invariant
                p <= products@.len(),
                all@.len() == p,
                forall|m: int| 0 <= m < p ==> (#[trigger] all@[m]).same(&products@[m]),
                forall|m: int| 0 <= m < products@.len() ==> (#[trigger] products@[m]).gran_len > 0,
            decreases products@.len() - p,
        {
            all.push(products[p].copy());
            p = p + 1;
        }
        let mut primary_ids: Vec<String> = Vec::new();
        let mut packed_ids: Vec<String> = Vec::new();
        let mut i: usize = 0;
        while i < rdrs.len()
            invariant
                i <= rdrs@.len(),
                primary_ids@.len() == i,
                forall|a: int| 0 <= a < i ==> (#[trigger] primary_ids@[a])@ == rdrs@[a].product@,
                forall|a: int, j: int|
                    0 <= a < i && 0 <= j < rdrs@[a].packed_with@.len() ==> has_id(
                        packed_ids@,
                        (#[trigger] rdrs@[a].packed_with@[j])@,
                    ),
            decreases rdrs@.len() - i,
        {
            let rdr = &rdrs[i];
            primary_ids.push(rdr.product.clone());
            let mut j: usize = 0;
            while j < rdr.packed_with.len()
                invariant
                    *rdr == rdrs@[i as int],
                    j <= rdr.packed_with@.len(),
                    forall|a: int, m: int|
                        0 <= a < i && 0 <= m < rdrs@[a].packed_with@.len() ==> has_id(
                            packed_ids@,
                            (#[trigger] rdrs@[a].packed_with@[m])@,
                        ),
                    forall|m: int| 0 <= m < j ==> has_id(packed_ids@, (#[trigger] rdr.packed_with@[m])@),
                decreases rdr.packed_with@.len() - j,
            {
                if !contains_id(&packed_ids, &rdr.packed_with[j]) {
                    let ghost before = packed_ids@;
                    packed_ids.push(rdr.packed_with[j].clone());
                    proof {
                        lemma_has_id_push(before, packed_ids@.last());
                    }
                    assert(packed_ids@[packed_ids@.len() - 1]@ == rdr.packed_with@[j as int]@);
                }
                j = j + 1;
            }
            i = i + 1;
        }
        Collector {
            sat,
            products: all,
            primary_ids,
            packed_ids,
            primary: Vec::new(),
            packed: Vec::new(),
        }
    }
}

proof fn lemma_has_id_push(ids: Seq<String>, s: String)
    ensures
        forall|x: Seq<char>| has_id(ids, x) ==> #[trigger] has_id(ids.push(s), x),
        has_id(ids.push(s), s@),
{
    assert(ids.push(s)[ids.len() as int] == s);
    assert forall|x: Seq<char>| has_id(ids, x) implies #[trigger] has_id(ids.push(s), x) by {
        let i = choose|i: int| 0 <= i < ids.len() && (#[trigger] ids[i])@ == x;
        assert(ids.push(s)[i] == ids[i]);
    }
}

/// Whether `product` configures `apid`.
fn product_has_apid(product: &ProductSpec, apid: u16) -> (r: bool)
    ensures
        r == product.has_apid(apid),
{
    let mut i: usize = 0;
    while i < product.apids.len()
        invariant
            i <= product.apids@.len(),
            forall|m: int| 0 <= m < i ==> (#[trigger] product.apids@[m]).num != apid,
        decreases product.apids@.len() - i,
    {
        if product.apids[i].num == apid {
            return true;
        }
        i = i + 1;
    }
    false
}

/// The index of the product that packets of `apid` belong to.
fn route_apid(products: &Vec<ProductSpec>, apid: u16) -> (r: Option<usize>)
    ensures
        r is None <==> route(products@, apid) is None,
        r is Some ==> route(products@, apid) == Some(r->Some_0 as int),
{
    let mut n: usize = products.len();
    while n > 0
        invariant
            n <= products@.len(),
            route(products@, apid) == route_in(products@, apid, n as nat),
        decreases n,
    {
        if product_has_apid(&products[n - 1], apid) {
            return Some(n - 1);
        }
        n = n - 1;
    }
    None
}

proof fn lemma_route_in(products: Seq<ProductSpec>, apid: u16, n: nat)
    requires
        n <= products.len(),
    ensures
        route_in(products, apid, n) matches Some(p) ==> 0 <= p < n && products[p].has_apid(apid),
    decreases n,
{
    if n > 0 {
        lemma_route_in(products, apid, (n - 1) as nat);
    }
}

/// The index in `gs` of the granule of product `p` starting at `t`.
fn find_granule(gs: &Vec<Granule>, p: usize, t: u64) -> (r: Option<usize>)
    ensures
        r is Some ==> r->Some_0 < gs@.len() && gs@[r->Some_0 as int].product == p && gs@[r->Some_0 as int].time == t,
        r is None ==> forall|i: int|
            0 <= i < gs@.len() ==> !((#[trigger] gs@[i]).product == p && gs@[i].time == t),
{
    let mut i: usize = 0;
    while i < gs.len()
        invariant
            i <= gs@.len(),
            forall|m: int| 0 <= m < i ==> !((#[trigger] gs@[m]).product == p && gs@[m].time == t),
        decreases gs@.len() - i,
    {
        if gs[i].product == p && gs[i].time == t {
            return Some(i);
        }
        i = i + 1;
    }
    None
}

/// The packets held by the granule of product `p` starting at `t` in `gs`,
/// none when there is no such granule.
#[verifier::opaque]
pub open spec fn held(gs: Seq<Granule>, p: int, t: int) -> Seq<(u64, Packet)> {
    if exists|i: int| 0 <= i < gs.len() && gs[i].product == p && gs[i].time == t {
        gs[choose|i: int| 0 <= i < gs.len() && gs[i].product == p && gs[i].time == t].data.ap_storage@
    } else {
        Seq::empty()
    }
}

proof fn lemma_held(gs: Seq<Granule>, i: int)
    requires
        0 <= i < gs.len(),
        forall|a: int, b: int|
            0 <= a < b < gs.len() ==> !(gs[a].product == gs[b].product && gs[a].time == gs[b].time),
    ensures
        held(gs, gs[i].product as int, gs[i].time as int) == gs[i].data.ap_storage@,
{
    reveal(held);
    let k = choose|k: int| 0 <= k < gs.len() && gs[k].product == gs[i].product && gs[k].time == gs[i].time;
    if k != i {
        if k < i {
        } else {
        }
    }
}

/// Granules of one product come out in strictly ascending time: when two
/// consecutive additions each complete a granule of the same product, and the
/// second packet's granule does not precede the first's, the second granule
/// starts after the first.
pub proof fn lemma_emission_ascending(
    s0: Collector,
    s1: Collector,
    s2: Collector,
    iet1: u64,
    apid1: u16,
    v1: Seq<Rdr>,
    iet2: u64,
    apid2: u16,
    v2: Seq<Rdr>,
)
    requires
        Collector::emitted(s0, s1, iet1, apid1, v1),
        Collector::emitted(s1, s2, iet2, apid2, v2),
        s1.products == s0.products,
        s1.sat == s0.sat,
        route(s0.products@, apid1) == route(s0.products@, apid2),
        s0.gran_of(route(s0.products@, apid1)->Some_0, iet1) <= s0.gran_of(
            route(s0.products@, apid2)->Some_0,
            iet2,
        ),
    ensures
        v1[0].meta.begin.iet < v2[0].meta.begin.iet,
{
    let p = route(s0.products@, apid1)->Some_0;
    let len = s0.products@[p].gran_len as int;
    let t1 = s0.gran_of(p, iet1) - 2 * len;
    let t2 = s1.gran_of(p, iet2) - 2 * len;
    assert(v1[0].meta.begin.iet == t1);
    assert(v2[0].meta.begin.iet == t2);
    if t1 == t2 {
        let q = choose|q: int|
            0 <= q < s1.primary@.len() && s1.primary@[q].product == p && s1.primary@[q].time == t2
                && #[trigger] s1.primary@[q].data.compiled() == v2[0].data@
                && v2[0].product_id@ == s1.products@[p].product_id@ && v2[0].meta.begin.iet == t2;
        assert(!(s1.primary@[q].product == p && s1.primary@[q].time == t1));
    }
}

/// Whether `gs` holds the granule `g`.
pub open spec fn holds_in(gs: Seq<Granule>, g: Granule) -> bool {
    exists|j: int| 0 <= j < gs.len() && #[trigger] gs[j] == g
}

/// One step of a flush keeps every group headed by an original granule, and
/// every original granule that compiles either still held or heading a group.
proof fn lemma_flush_step(
    products: Seq<ProductSpec>,
    packed: Seq<Granule>,
    orig: Seq<Granule>,
    before: Seq<Granule>,
    b: int,
    old_f: Seq<Vec<Rdr>>,
    f: Seq<Vec<Rdr>>,
    j: int,
)
    requires
        0 <= b < before.len(),
        0 <= j < orig.len(),
        orig[j] == before[b],
        forall|x: int, y: int|
            0 <= x < y < before.len() ==> !(before[x].product == before[y].product && before[x].time
                == before[y].time),
        forall|i: int| 0 <= i < old_f.len() ==> headed(products, packed, orig, #[trigger] old_f[i]@),
        forall|k: int|
            0 <= k < orig.len() && (#[trigger] orig[k]).data.compiles() ==> holds_in(before, orig[k])
                || grouped(products, packed, orig[k], old_f),
        before[b].data.compiles() ==> f.len() == old_f.len() + 1 && f.drop_last() == old_f && heads(
            products,
            packed,
            before[b],
            f.last()@,
        ),
        !before[b].data.compiles() ==> f == old_f,
    ensures
        forall|i: int| 0 <= i < f.len() ==> headed(products, packed, orig, #[trigger] f[i]@),
        forall|k: int|
            0 <= k < orig.len() && (#[trigger] orig[k]).data.compiles() ==> holds_in(before.remove(b), orig[k])
                || grouped(products, packed, orig[k], f),
{
    let after = before.remove(b);
    assert forall|i: int| 0 <= i < f.len() implies headed(products, packed, orig, #[trigger] f[i]@) by {
        if i < old_f.len() {
            if before[b].data.compiles() {
                assert(f[i] == f.drop_last()[i]);
            }
            assert(f[i] == old_f[i]);
        } else {
            assert(f[i] == f.last());
            assert(heads(products, packed, orig[j], f[i]@));
        }
    }
    assert forall|k: int|
        0 <= k < orig.len() && (#[trigger] orig[k]).data.compiles() implies holds_in(after, orig[k])
            || grouped(products, packed, orig[k], f) by {
        if holds_in(before, orig[k]) {
            let x = choose|x: int| 0 <= x < before.len() && #[trigger] before[x] == orig[k];
            if x == b {
                assert(f[f.len() - 1] == f.last());
                assert(heads(products, packed, orig[k], f[f.len() - 1]@));
            } else {
                let y = if x < b { x } else { x - 1 };
                assert(after[y] == before[x]);
            }
        } else {
            let i = choose|i: int| 0 <= i < old_f.len() && #[trigger] heads(products, packed, orig[k], old_f[i]@);
            if before[b].data.compiles() {
                assert(f[i] == f.drop_last()[i]);
            }
            assert(f[i] == old_f[i]);
        }
    }
}

/// Two granules of a sound sequence with the same key are the same one.
proof fn lemma_same_key(gs: Seq<Granule>, i: int, j: int)
    requires
        forall|a: int, b: int|
            0 <= a < b < gs.len() ==> !(gs[a].product == gs[b].product && gs[a].time == gs[b].time),
        0 <= i < gs.len(),
        0 <= j < gs.len(),
        gs[i].product == gs[j].product,
        gs[i].time == gs[j].time,
    ensures
        i == j,
{
    if i < j {
    } else if j < i {
    }
}

proof fn lemma_compiling_count_remove(gs: Seq<Granule>, q: int)
    requires
        0 <= q < gs.len(),
    ensures
        compiling_count(gs.remove(q)) + (if gs[q].data.compiles() { 1nat } else { 0nat }) == compiling_count(gs),
    decreases gs.len(),
{
    if q == gs.len() - 1 {
        assert(gs.remove(q) =~= gs.drop_last());
    } else {
        lemma_compiling_count_remove(gs.drop_last(), q);
        assert(gs.remove(q).drop_last() =~= gs.drop_last().remove(q));
        assert(gs.remove(q).last() == gs.last());
    }
}

proof fn lemma_granules_ok_remove(products: Seq<ProductSpec>, base: u64, gs: Seq<Granule>, q: int)
    requires
        granules_ok(products, base, gs),
        0 <= q < gs.len(),
    ensures
        granules_ok(products, base, gs.remove(q)),
{
    let r = gs.remove(q);
    assert forall|i: int| 0 <= i < r.len() implies granule_ok(products, base, #[trigger] r[i]) by {
        if i < q {
            assert(r[i] == gs[i]);
        } else {
            assert(r[i] == gs[i + 1]);
        }
    }
    assert forall|i: int, j: int| 0 <= i < j < r.len() implies !(r[i].product == r[j].product && r[i].time == r[j].time) by {
        let a = if i < q { i } else { i + 1 };
        let b = if j < q { j } else { j + 1 };
        assert(r[i] == gs[a]);
        assert(r[j] == gs[b]);
    }
}

proof fn lemma_held_remove(gs: Seq<Granule>, q: int, p: int, t: int)
    requires
        0 <= q < gs.len(),
        !(gs[q].product == p && gs[q].time == t),
        forall|a: int, b: int|
            0 <= a < b < gs.len() ==> !(gs[a].product == gs[b].product && gs[a].time == gs[b].time),
    ensures
        held(gs.remove(q), p, t) == held(gs, p, t),
{
    reveal(held);
    let r = gs.remove(q);
    if exists|i: int| 0 <= i < gs.len() && gs[i].product == p && gs[i].time == t {
        let i = choose|i: int| 0 <= i < gs.len() && gs[i].product == p && gs[i].time == t;
        let ri = if i < q { i } else { i - 1 };
        assert(r[ri] == gs[i]);
        lemma_held(gs, i);
        assert forall|a: int, b: int| 0 <= a < b < r.len() implies !(r[a].product == r[b].product && r[a].time == r[b].time) by {
            let x = if a < q { a } else { a + 1 };
            let y = if b < q { b } else { b + 1 };
            assert(r[a] == gs[x]);
            assert(r[b] == gs[y]);
        }
        lemma_held(r, ri);
    } else {
        assert forall|i: int| 0 <= i < r.len() implies !(r[i].product == p && r[i].time == t) by {
            if i < q {
                assert(r[i] == gs[i]);
            } else {
                assert(r[i] == gs[i + 1]);
            }
        }
    }
}

/// Adds `pkt` to the granule of product `p` starting at `gran` in `gs`,
/// creating that granule if there is none.
fn add_to(
    gs: &mut Vec<Granule>,
    products: &Vec<ProductSpec>,
    sat: &SatSpec,
    p: usize,
    gran: u64,
    pkt_time: &Time,
    pkt: Packet,
) -> (r: Result<(), Error>)
    requires
        granules_ok(products@, sat.base_time, old(gs)@),
        p < products@.len(),
        products@[p as int].has_apid(pkt.header.apid),
        gran >= sat.base_time,
        gran + products@[p as int].gran_len <= u64::MAX,
    ensures
        granules_ok(products@, sat.base_time, final(gs)@),
        r is Ok <==> accepts_in(old(gs)@, p as int, gran as int, pkt_time.iet, pkt),
        r is Err ==> final(gs)@ == old(gs)@ && r == Err::<(), Error>(
            Error::RdrError(RdrError::InvalidPacket(pkt.header)),
        ),
        r is Ok ==> held(final(gs)@, p as int, gran as int) == held(old(gs)@, p as int, gran as int).push(
            (pkt_time.iet, pkt),
        ),
        old(gs)@.len() <= final(gs)@.len(),
        forall|i: int|
            0 <= i < old(gs)@.len() && !(old(gs)@[i].product == p && old(gs)@[i].time == gran)
                ==> #[trigger] final(gs)@[i] == old(gs)@[i],
        forall|i: int|
            old(gs)@.len() <= i < final(gs)@.len() ==> (#[trigger] final(gs)@[i]).product == p
                && final(gs)@[i].time == gran,
        forall|i: int|
            0 <= i < old(gs)@.len() ==> (#[trigger] final(gs)@[i]).product == old(gs)@[i].product
                && final(gs)@[i].time == old(gs)@[i].time,
{
    reveal(held);
    let ghost apid = pkt.header.apid;
    let ghost j = choose|j: int| 0 <= j < products@[p as int].apids@.len() && (#[trigger] products@[p as int].apids@[j]).num == apid;
    match find_granule(gs, p, gran) {
        Some(q) => {
            proof {
                assert(granule_ok(products@, sat.base_time, gs@[q as int]));
                assert(lists_apid(gs@[q as int].data.apid_list@, products@[p as int].apids@[j].num as u32));
                lemma_held(gs@, q as int);
                let k = choose|i: int| 0 <= i < gs@.len() && gs@[i].product == p && gs@[i].time == gran;
                lemma_same_key(gs@, k, q as int);
                assert(accepts_in(gs@, p as int, gran as int, pkt_time.iet, pkt) == gs@[q as int].data.accepts(
                    pkt_time.iet,
                    pkt,
                ));
            }
            let ghost before = gs@;
            let res = gs[q].data.add_packet(pkt_time, pkt);
            match res {
                Ok(()) => {},
                Err(e) => {
                    assert(gs@ =~= before);
                    return Err(e);
                },
            }
            proof {
                let old_g = before[q as int];
                let new_g = gs@[q as int];
                lemma_added_lists(&old_g.data, &new_g.data, pkt_time.iet, pkt);
                assert(granule_ok(products@, sat.base_time, new_g));
                assert forall|i: int| 0 <= i < gs@.len() && i != q implies gs@[i] == before[i] by {}
                assert(granules_ok(products@, sat.base_time, gs@));
                lemma_held(gs@, q as int);
            }
            Ok(())
        },
        None => {
            let mut data = RdrData::new(sat, &products[p], &Time::from_iet(gran));
            proof {
                assert forall|m: int| 0 <= m < products@[p as int].apids@.len() implies lists_apid(
                    data.apid_list@,
                    (#[trigger] products@[p as int].apids@[m]).num as u32,
                ) by {}
                assert(lists_apid(data.apid_list@, apid as u32));
                assert(!has_key(gs@, p as int, gran as int));
                assert(data.accepts(pkt_time.iet, pkt) == (pkt.data@.len() <= i32::MAX && pkt_time.iet
                    <= i64::MAX));
            }
            let ghost fresh = data;
            match data.add_packet(pkt_time, pkt) {
                Ok(()) => {},
                Err(e) => return Err(e),
            }
            proof {
                lemma_added_lists(&fresh, &data, pkt_time.iet, pkt);
            }
            let ghost before = gs@;
            gs.push(Granule { product: p, time: gran, data });
            proof {
                assert(granule_ok(products@, sat.base_time, gs@[before.len() as int]));
                assert(granules_ok(products@, sat.base_time, gs@));
                lemma_held(gs@, before.len() as int);
                assert(fresh.ap_storage@.push((pkt_time.iet, pkt)) =~= seq![(pkt_time.iet, pkt)]);
            }
            Ok(())
        },
    }
}

/// Adding a packet keeps the APIDs that an accumulator lists.
proof fn lemma_added_lists(old: &RdrData, new: &RdrData, iet: u64, pkt: Packet)
    requires
        RdrData::added(old, new, iet, pkt),
    ensures
        forall|v: u32| lists_apid(old.apid_list@, v) ==> #[trigger] lists_apid(new.apid_list@, v),
{
    assert forall|v: u32| lists_apid(old.apid_list@, v) implies #[trigger] lists_apid(
        new.apid_list@,
        v,
    ) by {
        let i = choose|i: int| 0 <= i < old.apid_list@.len() && (#[trigger] old.apid_list@[i]).value == v;
        assert(new.apid_list@[i].value == v);
    }
}

/// Whether `id` is among `ids`.
fn contains_id(ids: &Vec<String>, id: &String) -> (r: bool)
    ensures
        r == has_id(ids@, id@),
{
    let mut i: usize = 0;
    while i < ids.len()
        invariant
            i <= ids@.len(),
            forall|m: int| 0 <= m < i ==> (#[trigger] ids@[m])@ != id@,
        decreases ids@.len() - i,
    {
        if ids[i] == *id {
            return true;
        }
        i = i + 1;
    }
    false
}

} // verus!
