//! A leap-second table: the UTC to IET conversion by table lookup.
use vstd::prelude::*;

verus! {

/// Microseconds between the IET epoch (1958-01-01) and the UNIX epoch
/// (1970-01-01).
pub const EPOCH_OFFSET: u64 = 378_691_200_000_000;

/// Seconds between 1900-01-01, the epoch of leap-second lists, and 1970-01-01.
pub const NTP_UNIX_OFFSET: u64 = 2_208_988_800;

/// A change of the UTC offset.
#[derive(Debug, Clone, Copy, PartialEq, Eq)]
pub struct Leap {
    /// UTC seconds since 1970-01-01 of the change.
    pub time: u64,
    /// Number of leap seconds added (or, negative, removed) then.
    pub num: i32,
}

pub struct LeapSecs {
    pub leaps: Vec<Leap>,
    /// UTC seconds since 1970-01-01 of the table's last update.
    pub updated: u64,
    pub expired: bool,
}

/// The leap seconds of the first `n` changes at or before `secs`.
pub open spec fn leaps_until(leaps: Seq<Leap>, secs: int, n: nat) -> int
    decreases n,
{
    if n == 0 {
        0
    } else {
        leaps_until(leaps, secs, (n - 1) as nat) + if leaps[n - 1].time <= secs {
            leaps[n - 1].num as int
        } else {
            0
        }
    }
}

/// The leap microseconds between UTC and IET at `usecs` UTC microseconds: the
/// sum of the changes up to then, none when that sum is negative.
pub open spec fn leap_usecs_at(leaps: Seq<Leap>, usecs: int) -> int {
    let secs = leaps_until(leaps, usecs / 1_000_000, leaps.len());
    if secs < 0 {
        0
    } else {
        secs * 1_000_000
    }
}

/// The TAI offsets of a leap-second list made into changes: the first entry
/// adds its whole offset, each later one the difference to the one before.
pub open spec fn leaps_of(entries: Seq<(u64, i32)>) -> Seq<Leap> {
    Seq::new(
        entries.len(),
        |i: int|
            Leap {
                time: (entries[i].0 - NTP_UNIX_OFFSET) as u64,
                num: if i == 0 || entries[i - 1].1 == 0 {
                    entries[i].1
                } else {
                    (entries[i].1 - entries[i - 1].1) as i32
                },
            },
    )
}

proof fn lemma_leaps_until_bound(leaps: Seq<Leap>, secs: int, n: nat)
    requires
        n <= leaps.len(),
    ensures
        -(n * 0x8000_0000) <= leaps_until(leaps, secs, n) <= n * 0x8000_0000,
    decreases n,
{
    if n > 0 {
        lemma_leaps_until_bound(leaps, secs, (n - 1) as nat);
    }
}

impl LeapSecs {
    /// A table of the changes of a leap-second list: `entries` holds, for each
    /// change, its time in seconds since 1900-01-01 and the TAI - UTC offset
    /// from then on; `updated` is the list's last update, in the same scale.
    pub fn from_entries(entries: &[(u64, i32)], updated: u64, expired: bool) -> (r: LeapSecs)
        requires
            forall|i: int| 0 <= i < entries@.len() ==> (#[trigger] entries@[i]).0 >= NTP_UNIX_OFFSET,
            forall|i: int|
                0 <= i < entries@.len() ==> -0x4000_0000 <= (#[trigger] entries@[i]).1 < 0x4000_0000,
            updated >= NTP_UNIX_OFFSET,
        ensures
            r.leaps@ == leaps_of(entries@),
            r.updated == updated - NTP_UNIX_OFFSET,
            r.expired == expired,
    {
        let mut leaps: Vec<Leap> = Vec::new();
        let mut last: i32 = 0;
        let mut i: usize = 0;
        while i < entries.len()
            invariant
                i <= entries@.len(),
                forall|k: int| 0 <= k < entries@.len() ==> (#[trigger] entries@[k]).0 >= NTP_UNIX_OFFSET,
                forall|k: int|
                    0 <= k < entries@.len() ==> -0x4000_0000 <= (#[trigger] entries@[k]).1 < 0x4000_0000,
                last == if i == 0 {
                    0
                } else {
                    entries@[i - 1].1
                },
                leaps@ =~= leaps_of(entries@).subrange(0, i as int),
            decreases entries@.len() - i,
        {
            let (stamp, cur) = entries[i];
            let diff = if last == 0 {
                cur
            } else {
                cur - last
            };
            leaps.push(Leap { time: stamp - NTP_UNIX_OFFSET, num: diff });
            last = cur;
            i = i + 1;
        }
        LeapSecs { leaps, updated: updated - NTP_UNIX_OFFSET, expired }
    }

    /// Number of leap microseconds between UTC and IET at the given UTC time in
    /// microseconds; `u64::MAX` if that does not fit.
    pub fn leap_usecs(&self, usecs: u64) -> (r: u64)
        ensures
            leap_usecs_at(self.leaps@, usecs as int) <= u64::MAX ==> r == leap_usecs_at(
                self.leaps@,
                usecs as int,
            ),
            leap_usecs_at(self.leaps@, usecs as int) > u64::MAX ==> r == u64::MAX,
    {
        let secs = usecs / 1000 / 1000;
        let mut total: i128 = 0;
        let n = self.leaps.len();
        let mut i: usize = 0;
        while i < n
            invariant
                n == self.leaps@.len(),
                i <= self.leaps@.len(),
                secs == usecs as int / 1_000_000,
                total == leaps_until(self.leaps@, secs as int, i as nat),
            decreases self.leaps@.len() - i,
        {
            proof {
                lemma_leaps_until_bound(self.leaps@, secs as int, i as nat);
                assert(i * 0x8000_0000 <= usize::MAX * 0x8000_0000) by (nonlinear_arith)
                    requires
                        i <= usize::MAX,
                ;
            }
            if self.leaps[i].time <= secs {
                total = total + self.leaps[i].num as i128;
            }
            i = i + 1;
        }
        if total < 0 {
            0
        } else if total > (u64::MAX / 1_000_000) as i128 {
            u64::MAX
        } else {
            (total as u64) * 1_000_000
        }
    }

    /// Convert UTC microseconds to IET microseconds.
    pub fn utc_to_iet(&self, usecs: u64) -> (r: u64)
        requires
            usecs + EPOCH_OFFSET + leap_usecs_at(self.leaps@, usecs as int) <= u64::MAX,
        ensures
            r == usecs + EPOCH_OFFSET + leap_usecs_at(self.leaps@, usecs as int),
    {
        usecs + EPOCH_OFFSET + self.leap_usecs(usecs)
    }
}

pub uninterp spec fn leap_list_of(text: Seq<u8>) -> Option<(Seq<(u64, u16)>, u64)>;

/// Relies on `leap_seconds::LeapSecondsList::new`: the changes of a
/// leap-second list (seconds since 1900-01-01, TAI - UTC) and its last update,
/// when the text parses and its hash checks; the expiry depends on the clock.
#[verifier::external_body]
fn parse_leap_list(text: &[u8]) -> (r: Option<(Vec<(u64, u16)>, u64, bool)>)
    ensures
        r is Some <==> leap_list_of(text@) is Some,
        r is Some ==> r->Some_0.0@ == leap_list_of(text@)->Some_0.0 && r->Some_0.1
            == leap_list_of(text@)->Some_0.1,
{
    match leap_seconds::LeapSecondsList::new(text) {
        Ok(list) => {
            let mut entries = Vec::new();
            for leap in list.leap_seconds() {
                entries.push((leap.timestamp().as_u64(), leap.tai_diff()));
            }
            Some((entries, list.last_update().as_u64(), list.is_expired()))
        },
        Err(_) => None,
    }
}

/// The changes of a parsed list as (seconds since 1900-01-01, TAI - UTC).
pub open spec fn list_entries(e: Seq<(u64, u16)>) -> Seq<(u64, i32)> {
    Seq::new(e.len(), |i: int| (e[i].0, e[i].1 as i32))
}

/// Whether a parsed list dates everything at or after 1970-01-01.
pub open spec fn list_after_1970(e: Seq<(u64, u16)>, updated: u64) -> bool {
    &&& updated >= NTP_UNIX_OFFSET
    &&& forall|i: int| 0 <= i < e.len() ==> (#[trigger] e[i]).0 >= NTP_UNIX_OFFSET
}

impl LeapSecs {
    /// The table of the leap-second list `text`; `None` when the text does not
    /// parse or dates a change before 1970-01-01.
    pub fn from_list(text: &[u8]) -> (r: Option<LeapSecs>)
        ensures
            r is Some <==> leap_list_of(text@) is Some && list_after_1970(
                leap_list_of(text@)->Some_0.0,
                leap_list_of(text@)->Some_0.1,
            ),
            r is Some ==> r->Some_0.leaps@ == leaps_of(list_entries(leap_list_of(text@)->Some_0.0))
                && r->Some_0.updated == leap_list_of(text@)->Some_0.1 - NTP_UNIX_OFFSET,
    {
        let (raw, updated, expired) = match parse_leap_list(text) {
            Some(parsed) => parsed,
            None => return None,
        };
        if updated < NTP_UNIX_OFFSET {
            return None;
        }
        let mut entries: Vec<(u64, i32)> = Vec::new();
        let mut i: usize = 0;
        while i < raw.len()
            invariant
                i <= raw@.len(),
                leap_list_of(text@) is Some,
                raw@ == leap_list_of(text@)->Some_0.0,
                entries@ =~= list_entries(raw@).subrange(0, i as int),
                forall|k: int| 0 <= k < i ==> (#[trigger] raw@[k]).0 >= NTP_UNIX_OFFSET,
            decreases raw@.len() - i,
        {
            if raw[i].0 < NTP_UNIX_OFFSET {
                return None;
            }
            entries.push((raw[i].0, raw[i].1 as i32));
            i = i + 1;
        }
        assert(list_entries(raw@).subrange(0, raw@.len() as int) =~= list_entries(raw@));
        Some(LeapSecs::from_entries(entries.as_slice(), updated, expired))
    }
}

/// The IERS leap-second list, as (seconds since 1900-01-01, TAI - UTC).
pub open spec fn iers_table() -> Seq<(u64, i32)> {
    seq![
        (2272060800u64, 10i32),
        (2287785600, 11),
        (2303683200, 12),
        (2335219200, 13),
        (2366755200, 14),
        (2398291200, 15),
        (2429913600, 16),
        (2461449600, 17),
        (2492985600, 18),
        (2524521600, 19),
        (2571782400, 20),
        (2603318400, 21),
        (2634854400, 22),
        (2698012800, 23),
        (2776982400, 24),
        (2840140800, 25),
        (2871676800, 26),
        (2918937600, 27),
        (2950473600, 28),
        (2982009600, 29),
        (3029443200, 30),
        (3076704000, 31),
        (3124137600, 32),
        (3345062400, 33),
        (3439756800, 34),
        (3550089600, 35),
        (3644697600, 36),
        (3692217600, 37),
    ]
}

impl Default for LeapSecs {
    /// The built-in table: every leap second up to the one of 2017-01-01.
    fn default() -> (r: LeapSecs)
        ensures
            r.leaps@ == leaps_of(iers_table()),
    {
        let entries: [(u64, i32); 28] = [
            (2272060800, 10),
            (2287785600, 11),
            (2303683200, 12),
            (2335219200, 13),
            (2366755200, 14),
            (2398291200, 15),
            (2429913600, 16),
            (2461449600, 17),
            (2492985600, 18),
            (2524521600, 19),
            (2571782400, 20),
            (2603318400, 21),
            (2634854400, 22),
            (2698012800, 23),
            (2776982400, 24),
            (2840140800, 25),
            (2871676800, 26),
            (2918937600, 27),
            (2950473600, 28),
            (2982009600, 29),
            (3029443200, 30),
            (3076704000, 31),
            (3124137600, 32),
            (3345062400, 33),
            (3439756800, 34),
            (3550089600, 35),
            (3644697600, 36),
            (3692217600, 37),
        ];
        assert(entries@ =~= iers_table());
        LeapSecs::from_entries(&entries, 3692217600, false)
    }
}

} // verus!
