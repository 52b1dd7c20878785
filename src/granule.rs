//! Granule-time arithmetic: granules are fixed-length windows aligned to the
//! mission base time.
use vstd::prelude::*;

use crate::error::{Error, RdrError};
use crate::text::{push_zero_padded, upper_of, uppercase, zero_padded};

verus! {

/// The start of the granule of length `gran_len` holding `iet`, for granules
/// aligned to `base_time`.
pub open spec fn granule_start(iet: int, gran_len: int, base_time: int) -> int {
    (iet - base_time) / gran_len * gran_len + base_time
}

/// The N_Granule_ID of the granule starting at `rdr_iet`: the upper-cased
/// satellite short name and the tenths of seconds since the base time, in at
/// least 12 digits.
pub open spec fn granule_id_text(sat_short_name: Seq<char>, base_time: int, rdr_iet: int) -> Seq<
    char,
> {
    upper_of(sat_short_name) + zero_padded(((rdr_iet - base_time) / 100_000) as nat, 12)
}

proof fn lemma_granule_start_bounds(iet: int, gran_len: int, base_time: int)
    requires
        base_time <= iet,
        gran_len > 0,
    ensures
        base_time <= granule_start(iet, gran_len, base_time) <= iet,
        iet < granule_start(iet, gran_len, base_time) + gran_len,
{
    let d = iet - base_time;
    assert(0 <= d / gran_len * gran_len <= d && d < d / gran_len * gran_len + gran_len)
        by (nonlinear_arith)
        requires
            d >= 0,
            gran_len > 0,
    ;
}

/// Compute the RDR granule start time in IET microseconds.
pub fn get_granule_start(iet: u64, gran_len: u64, base_time: u64) -> (r: u64)
    requires
        base_time <= iet,
        gran_len > 0,
    ensures
        r == granule_start(iet as int, gran_len as int, base_time as int),
        base_time <= r <= iet,
        iet < r + gran_len,
{
    proof {
        lemma_granule_start_bounds(iet as int, gran_len as int, base_time as int);
    }
    let since_base = iet - base_time;
    // granule number relative to base_time
    let granule_number = since_base / gran_len;
    assert(granule_number * gran_len <= since_base) by (nonlinear_arith)
        requires
            granule_number == since_base / gran_len,
            gran_len > 0,
    ;
    granule_number * gran_len + base_time
}

/// The granule start of `iet`.
///
/// # Errors
/// `InvalidGranuleStart` if `iet` is before the base time.
pub fn checked_granule_start(iet: u64, gran_len: u64, base_time: u64) -> (r: Result<u64, Error>)
    requires
        gran_len > 0,
    ensures
        iet < base_time ==> r == Err::<u64, Error>(Error::RdrError(RdrError::InvalidGranuleStart(iet))),
        iet >= base_time ==> r == Ok::<u64, Error>(
            granule_start(iet as int, gran_len as int, base_time as int) as u64,
        ),
{
    if iet < base_time {
        return Err(Error::RdrError(RdrError::InvalidGranuleStart(iet)));
    }
    Ok(get_granule_start(iet, gran_len, base_time))
}

/// A time `delta` into the `k`th granule after the base time lies in the
/// granule that starts `k` granule lengths after the base time.
pub proof fn lemma_granule_start_aligned(base_time: int, k: nat, gran_len: nat, delta: nat)
    requires
        gran_len > 0,
        delta < gran_len,
    ensures
        granule_start(base_time + k * gran_len + delta, gran_len as int, base_time) == base_time
            + k * gran_len,
{
    assert(((k * gran_len + delta) as int) / (gran_len as int) == k as int) by (nonlinear_arith)
        requires
            gran_len > 0,
            delta < gran_len,
    ;
}

/// Compute the value used for N_Granule_ID.
///
/// # Errors
/// If `rdr_iet` is less than the satellite base time.
pub fn granule_id(sat_short_name: &str, base_time: u64, rdr_iet: u64) -> (r: Result<String, Error>)
    ensures
        rdr_iet < base_time ==> r == Err::<String, Error>(
            Error::RdrError(RdrError::InvalidGranuleStart(rdr_iet)),
        ),
        rdr_iet >= base_time ==> r is Ok && r->Ok_0@ == granule_id_text(
            sat_short_name@,
            base_time as int,
            rdr_iet as int,
        ),
{
    if rdr_iet < base_time {
        return Err(Error::RdrError(RdrError::InvalidGranuleStart(rdr_iet)));
    }
    let t = (rdr_iet - base_time) / 100_000;
    let mut id = uppercase(sat_short_name);
    push_zero_padded(&mut id, t, 12);
    Ok(id)
}

} // verus!
