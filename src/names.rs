//! Spacecraft identifiers and the names of the PDS files that dumped packets
//! go to.
use vstd::prelude::*;
use vstd::string::StringExecFns;

use crate::meta::{calendar_at, clock_text};
use crate::text::{contains, occurs_in, push_zero_padded, zero_padded};
use crate::time::{Calendar, Time};

verus! {

/// The spacecraft id that a path names: npp 157, j01 159, j02 177, j03 178,
/// j04 179, in that order of precedence; 0 for none.
pub open spec fn spacecraft_of(path: Seq<char>) -> u8 {
    if occurs_in("npp"@, path) {
        157
    } else if occurs_in("j01"@, path) {
        159
    } else if occurs_in("j02"@, path) {
        177
    } else if occurs_in("j03"@, path) {
        178
    } else if occurs_in("j04"@, path) {
        179
    } else {
        0
    }
}

/// The spacecraft id of the satellite that `path` names.
pub fn get_spacecraft(path: &str) -> (r: u8)
    ensures
        r == spacecraft_of(path@),
{
    if contains(path, "npp") {
        157
    } else if contains(path, "j01") {
        159
    } else if contains(path, "j02") {
        177
    } else if contains(path, "j03") {
        178
    } else if contains(path, "j04") {
        179
    } else {
        0
    }
}

/// The satellites that have a built-in configuration.
pub open spec fn valid_satellite(sat: Seq<char>) -> bool {
    sat == "npp"@ || sat == "j01"@ || sat == "j02"@ || sat == "j03"@
}

/// Accepts the id of a satellite with a built-in configuration.
///
/// # Errors
/// A message listing the valid ids.
pub fn parse_valid_satellite(sat: &str) -> (r: Result<String, String>)
    ensures
        valid_satellite(sat@) ==> r is Ok && r->Ok_0@ == sat@,
        !valid_satellite(sat@) ==> r is Err && r->Err_0@ == "expected one of npp, j01, j02, j03"@,
{
    let valid: [&str; 4] = ["npp", "j01", "j02", "j03"];
    let mut i: usize = 0;
    while i < 4
        invariant
            i <= 4,
            valid@ == seq!["npp", "j01", "j02", "j03"],
            forall|k: int| 0 <= k < i ==> (#[trigger] valid@[k])@ != sat@,
        decreases 4 - i,
    {
        if same_text(valid[i], sat) {
            return Ok(sat.to_owned());
        }
        i = i + 1;
    }
    assert(!valid_satellite(sat@)) by {
        assert(valid@[0] == "npp");
        assert(valid@[1] == "j01");
        assert(valid@[2] == "j02");
        assert(valid@[3] == "j03");
    }
    Err("expected one of npp, j01, j02, j03".to_owned())
}

/// Whether two texts are equal.
fn same_text(a: &str, b: &str) -> (r: bool)
    ensures
        r == (a@ == b@),
{
    let n = a.unicode_len();
    if n != b.unicode_len() {
        return false;
    }
    let mut i: usize = 0;
    while i < n
        invariant
            n == a@.len() == b@.len(),
            i <= n,
            forall|k: int| 0 <= k < i ==> a@[k] == b@[k],
        decreases n - i,
    {
        if a.get_char(i) != b.get_char(i) {
            return false;
        }
        i = i + 1;
    }
    assert(a@ =~= b@);
    true
}

/// Whether `y` is a leap year.
pub open spec fn is_leap_year(y: int) -> bool {
    (y % 4 == 0 && y % 100 != 0) || y % 400 == 0
}

/// The days of the year before month `m` (1 to 12).
pub open spec fn days_before_month(m: int, leap: bool) -> int {
    let extra = if leap && m > 2 {
        1int
    } else {
        0int
    };
    extra + if m <= 1 {
        0int
    } else if m == 2 {
        31
    } else if m == 3 {
        59
    } else if m == 4 {
        90
    } else if m == 5 {
        120
    } else if m == 6 {
        151
    } else if m == 7 {
        181
    } else if m == 8 {
        212
    } else if m == 9 {
        243
    } else if m == 10 {
        273
    } else if m == 11 {
        304
    } else {
        334
    }
}

/// The day of the year of a calendar, 1 for January 1st.
pub open spec fn day_of_year(c: Calendar) -> int {
    days_before_month(c.1 as int, is_leap_year(c.0 as int)) + c.2
}

/// The PDS time stamp of a calendar: two-digit year, day of year, `%H%M%S`.
pub open spec fn pds_stamp(c: Calendar) -> Seq<char> {
    zero_padded((c.0 % 100) as nat, 2) + zero_padded(day_of_year(c) as nat, 3) + clock_text(c)
}

/// `y % 100`, the Euclidean remainder.
fn short_year(y: i32) -> (r: u64)
    ensures
        r == (y as int) % 100,
{
    if y >= 0 {
        (y as u64) % 100
    } else {
        let a = (-(y as i64)) as u64;
        let r = (100 - a % 100) % 100;
        assert(r == (y as int) % 100) by (nonlinear_arith)
            requires
                a == -(y as int),
                r == (100 - a % 100) % 100,
                y < 0,
        ;
        r
    }
}

/// Whether `y` is a leap year.
fn leap_year(y: i32) -> (r: bool)
    ensures
        r == is_leap_year(y as int),
{
    let a: u64 = if y >= 0 {
        y as u64
    } else {
        (-(y as i64)) as u64
    };
    assert(((y as int) % 4 == 0) == (a % 4 == 0) && ((y as int) % 100 == 0) == (a % 100 == 0) && (
    (y as int) % 400 == 0) == (a % 400 == 0)) by (nonlinear_arith)
        requires
            a == y || a == -(y as int),
            a >= 0,
    ;
    (a % 4 == 0 && a % 100 != 0) || a % 400 == 0
}

fn push_pds_stamp(out: &mut String, c: Calendar)
    ensures
        final(out)@ == old(out)@ + pds_stamp(c),
{
    push_zero_padded(out, short_year(c.0), 2);
    let m = c.1;
    let before: u64 = if m <= 1 {
        0
    } else if m == 2 {
        31
    } else if m == 3 {
        59
    } else if m == 4 {
        90
    } else if m == 5 {
        120
    } else if m == 6 {
        151
    } else if m == 7 {
        181
    } else if m == 8 {
        212
    } else if m == 9 {
        243
    } else if m == 10 {
        273
    } else if m == 11 {
        304
    } else {
        334
    };
    let extra: u64 = if leap_year(c.0) && m > 2 {
        1
    } else {
        0
    };
    assert(before + extra + c.2 == day_of_year(c));
    push_zero_padded(out, before + extra + c.2 as u64, 3);
    push_zero_padded(out, c.3 as u64, 2);
    push_zero_padded(out, c.4 as u64, 2);
    push_zero_padded(out, c.5 as u64, 2);
    assert(out@ =~= old(out)@ + pds_stamp(c));
}

/// The kind of data a PDS file holds.
pub enum DatasetType {
    /// Science data of the sensor the group path names.
    Science(String),
    /// Spacecraft data of one APID.
    Spacecraft(u16),
}

/// The name of the science PDS file of the sensor that `path` names.
pub open spec fn science_name(scid: u8, path: Seq<char>, stamp: Seq<char>) -> Seq<char> {
    let sc = zero_padded(scid as nat, 3);
    if occurs_in("VIIRS"@, path) {
        "P"@ + sc + "0826VIIRSSCIENCEAS"@ + stamp + "001.PDS"@
    } else if occurs_in("CRIS"@, path) {
        "P"@ + sc + "1289CRISSCIENCEAAS"@ + stamp + "001.PDS"@
    } else if occurs_in("ATMS"@, path) {
        "P"@ + sc + "0515ATMSSCIENCEAAS"@ + stamp + "001.PDS"@
    } else if occurs_in("OMPS"@, path) {
        "P"@ + sc + "????OMPSSCIENCEAAS"@ + stamp + "001.PDS"@
    } else {
        sc + "-"@ + stamp + ".dat"@
    }
}

/// The name of the PDS file for `kind`, created at `created`.
pub open spec fn dataset_name_text(scid: u8, kind: DatasetType, created: Calendar) -> Seq<char> {
    let stamp = pds_stamp(created);
    match kind {
        DatasetType::Science(path) => science_name(scid, path@, stamp),
        DatasetType::Spacecraft(apid) => "P"@ + zero_padded(scid as nat, 3) + zero_padded(
            apid as nat,
            4,
        ) + "AAAAAAAAAAAAAS"@ + stamp + "001.PDS"@,
    }
}

/// The PDS file name for `kind` from spacecraft `scid`, created at `created`.
pub fn dataset_name(scid: u8, kind: &DatasetType, created: &Time) -> (r: String)
    ensures
        r@ == dataset_name_text(scid, *kind, calendar_at(*created)),
{
    let c = created.calendar();
    let mut stamp = String::new();
    push_pds_stamp(&mut stamp, c);
    let mut sc = String::new();
    push_zero_padded(&mut sc, scid as u64, 3);
    let mut out = String::new();
    match kind {
        DatasetType::Science(path) => {
            let sensor = if contains(path.as_str(), "VIIRS") {
                Some("0826VIIRSSCIENCEAS")
            } else if contains(path.as_str(), "CRIS") {
                Some("1289CRISSCIENCEAAS")
            } else if contains(path.as_str(), "ATMS") {
                Some("0515ATMSSCIENCEAAS")
            } else if contains(path.as_str(), "OMPS") {
                Some("????OMPSSCIENCEAAS")
            } else {
                None
            };
            match sensor {
                Some(code) => {
                    out.append("P");
                    out.append(sc.as_str());
                    out.append(code);
                    out.append(stamp.as_str());
                    out.append("001.PDS");
                },
                None => {
                    out.append(sc.as_str());
                    out.append("-");
                    out.append(stamp.as_str());
                    out.append(".dat");
                },
            }
        },
        DatasetType::Spacecraft(apid) => {
            out.append("P");
            out.append(sc.as_str());
            push_zero_padded(&mut out, *apid as u64, 4);
            out.append("AAAAAAAAAAAAAS");
            out.append(stamp.as_str());
            out.append("001.PDS");
        },
    }
    assert(out@ =~= dataset_name_text(scid, *kind, c));
    out
}

} // verus!
