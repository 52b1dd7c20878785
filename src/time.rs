//! The canonical instant: IET microseconds, with UTC views that the hifitime
//! leap-second table provides.
use vstd::prelude::*;

use crate::error::{Error, RdrError};

verus! {

/// Microseconds from 1900-01-01 (hifitime's reference epoch) to 1958-01-01
/// (the IET epoch).
pub const IET_DELTA: u64 = 1_830_297_600_000_000;

/// An instant as IET microseconds: TAI microseconds since 1958-01-01.
#[derive(Debug, Clone, Copy, PartialEq, Eq, Hash, PartialOrd, Ord)]
pub struct Time {
    pub iet: u64,
}

/// TAI nanoseconds since 1900-01-01 of the IET instant `iet`.
pub open spec fn tai_nanos(iet: u64) -> i128 {
    ((iet as int + IET_DELTA as int) * 1000) as i128
}

/// UTC calendar of an instant: year, month, day, hour, minute, second and
/// nanoseconds.
pub type Calendar = (i32, u8, u8, u8, u8, u8, u32);

pub uninterp spec fn calendar_of(tai_nanos: i128) -> Calendar;

pub uninterp spec fn unix_nanos_of(tai_nanos: i128) -> i128;

pub uninterp spec fn tai_nanos_of_unix(unix_nanos: i128) -> i128;

/// Relies on hifitime's `Epoch::to_gregorian_utc`: the UTC calendar of the TAI
/// instant, after its leap-second table.
#[verifier::external_body]
fn utc_calendar(tai_nanos: i128) -> (r: Calendar)
    ensures
        r == calendar_of(tai_nanos),
{
    hifitime::Epoch::from_tai_duration(hifitime::Duration::from_total_nanoseconds(tai_nanos)).to_gregorian_utc()
}

/// Relies on hifitime's `Epoch::to_unix_duration`: nanoseconds since the UNIX
/// epoch of the TAI instant, after its leap-second table.
#[verifier::external_body]
fn unix_nanos(tai_nanos: i128) -> (r: i128)
    ensures
        r == unix_nanos_of(tai_nanos),
{
    hifitime::Epoch::from_tai_duration(
        hifitime::Duration::from_total_nanoseconds(tai_nanos),
    ).to_unix_duration().total_nanoseconds()
}

/// Relies on hifitime's `Epoch::from_unix_duration`: the TAI instant of a UTC
/// time given as nanoseconds since the UNIX epoch.
#[verifier::external_body]
fn tai_nanos_from_unix(unix_nanos: i128) -> (r: i128)
    ensures
        r == tai_nanos_of_unix(unix_nanos),
{
    hifitime::Epoch::from_unix_duration(
        hifitime::Duration::from_total_nanoseconds(unix_nanos),
    ).to_tai_duration().total_nanoseconds()
}

/// Relies on hifitime's `Epoch::now`: the system clock as TAI nanoseconds
/// since 1900-01-01, if it could be read.
#[verifier::external_body]
fn tai_nanos_now() -> (r: Option<i128>)
{
    match hifitime::Epoch::now() {
        Ok(now) => Some(now.to_tai_duration().total_nanoseconds()),
        Err(_) => None,
    }
}

/// The IET instant of TAI nanoseconds since 1900-01-01, if it is one.
pub open spec fn iet_of_tai_nanos(n: i128) -> Option<u64> {
    let iet = n / 1000 - IET_DELTA as int;
    if 0 <= iet <= u64::MAX {
        Some(iet as u64)
    } else {
        None
    }
}

fn iet_from_tai_nanos(n: i128) -> (r: Option<u64>)
    ensures
        r == iet_of_tai_nanos(n),
{
    let micros = n / 1000;
    if micros < IET_DELTA as i128 {
        return None;
    }
    let iet = micros - IET_DELTA as i128;
    if iet > u64::MAX as i128 {
        return None;
    }
    Some(iet as u64)
}

impl Time {
    /// The current time.
    ///
    /// # Errors
    /// If the system clock cannot be read or lies outside the IET range.
    pub fn now() -> (r: Result<Time, Error>)
        ensures
            r is Err ==> r->Err_0 == Error::Failed,
    {
        match tai_nanos_now() {
            Some(n) => match iet_from_tai_nanos(n) {
                Some(iet) => Ok(Time { iet }),
                None => Err(Error::Failed),
            },
            None => Err(Error::Failed),
        }
    }

    /// Create [Time] from IET microseconds.
    pub fn from_iet(micros: u64) -> (r: Time)
        ensures
            r.iet == micros,
    {
        Time { iet: micros }
    }

    /// Create [Time] from UTC microseconds since Jan 1, 1970.
    ///
    /// # Errors
    /// If the instant lies outside the IET range.
    pub fn from_utc(micros: u64) -> (r: Result<Time, Error>)
        ensures
            iet_of_tai_nanos(tai_nanos_of_unix((micros as int * 1000) as i128)) is Some ==> r == Ok::<
                Time,
                Error,
            >(Time { iet: iet_of_tai_nanos(tai_nanos_of_unix((micros as int * 1000) as i128))->Some_0 }),
            iet_of_tai_nanos(tai_nanos_of_unix((micros as int * 1000) as i128)) is None ==> r == Err::<
                Time,
                Error,
            >(Error::RdrError(RdrError::InvalidTime(micros))),
    {
        let n = tai_nanos_from_unix(micros as i128 * 1000);
        match iet_from_tai_nanos(n) {
            Some(iet) => Ok(Time { iet }),
            None => Err(Error::RdrError(RdrError::InvalidTime(micros))),
        }
    }

    /// Return TAI microseconds since Jan 1, 1958
    pub fn iet(&self) -> (r: u64)
        ensures
            r == self.iet,
    {
        self.iet
    }

    /// TAI nanoseconds since 1900-01-01.
    fn tai_nanos(&self) -> (r: i128)
        ensures
            r == tai_nanos(self.iet),
    {
        (self.iet as i128 + IET_DELTA as i128) * 1000
    }

    /// Return UTC microseconds since Jan 1, 1970; 0 before then.
    pub fn utc(&self) -> (r: u64)
        ensures
            r == if unix_nanos_of(tai_nanos(self.iet)) < 0 {
                0
            } else if unix_nanos_of(tai_nanos(self.iet)) / 1000 > u64::MAX {
                u64::MAX
            } else {
                (unix_nanos_of(tai_nanos(self.iet)) / 1000) as u64
            },
    {
        let n = unix_nanos(self.tai_nanos());
        if n < 0 {
            0
        } else if n / 1000 > u64::MAX as i128 {
            u64::MAX
        } else {
            (n / 1000) as u64
        }
    }

    /// The UTC calendar of this instant.
    pub fn calendar(&self) -> (r: Calendar)
        ensures
            r == calendar_of(tai_nanos(self.iet)),
    {
        utc_calendar(self.tai_nanos())
    }
}

} // verus!
