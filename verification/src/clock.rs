//! UTC instants as plain values, the system clock, the calls into `chrono`
//! that format timestamps, and the relative ages the dashboard shows.

use vstd::prelude::*;

use crate::text::{concat, decimal, u128_to_decimal};

verus! {

/// An instant as seconds since the Unix epoch and the nanoseconds after them,
/// as `chrono::DateTime::<Utc>::timestamp` and `timestamp_subsec_nanos` give it.
#[derive(Clone, Copy, PartialEq, Eq, Debug, Structural)]
pub struct UtcTime {
    pub secs: i64,
    pub nanos: u32,
}

/// The order of instants: by seconds, then by nanoseconds.
pub open spec fn utc_le(a: UtcTime, b: UtcTime) -> bool {
    a.secs < b.secs || (a.secs == b.secs && a.nanos <= b.nanos)
}

/// A single integer that orders instants as [`utc_le`] does.
pub open spec fn utc_key(t: UtcTime) -> int {
    t.secs * 0x1_0000_0000 + t.nanos
}

/// Ordering instants by [`utc_key`] is ordering them by time, and equal keys
/// are equal instants.
pub proof fn lemma_utc_key_order(a: UtcTime, b: UtcTime)
    ensures
        utc_le(a, b) == (utc_key(a) <= utc_key(b)),
        (a == b) == (utc_key(a) == utc_key(b)),
{
    if a.secs < b.secs {
        assert(a.secs * 0x1_0000_0000 + 0x1_0000_0000 <= b.secs * 0x1_0000_0000) by (nonlinear_arith)
            requires
                a.secs < b.secs,
        ;
    } else if a.secs > b.secs {
        assert(b.secs * 0x1_0000_0000 + 0x1_0000_0000 <= a.secs * 0x1_0000_0000) by (nonlinear_arith)
            requires
                b.secs < a.secs,
        ;
    }
}

/// [`utc_key`], as a machine integer.
pub fn utc_sort_key(t: UtcTime) -> (k: i128)
    ensures
        k == utc_key(t),
{
    assert(-0x8000_0000_0000_0000 * 0x1_0000_0000 <= t.secs * 0x1_0000_0000 <= 0x7fff_ffff_ffff_ffff
        * 0x1_0000_0000) by (nonlinear_arith);
    (t.secs as i128) * 0x1_0000_0000 + (t.nanos as i128)
}

/// An instant whose nanoseconds stay below a billion.
pub open spec fn subsecond_ok(t: UtcTime) -> bool {
    t.nanos < 1_000_000_000
}

#[verifier::external_type_specification]
#[verifier::external_body]
pub struct ExSystemTime(std::time::SystemTime);

/// `std::time::SystemTime::now()`: the system clock's reading. It depends on
/// the clock, so nothing is claimed of it.
#[verifier::external_body]
fn system_now() -> std::time::SystemTime {
    std::time::SystemTime::now()
}

/// `SystemTime::duration_since(UNIX_EPOCH)`, as the whole seconds and the
/// nanoseconds after them (`Duration::as_secs`, `subsec_nanos`), or `None`
/// when `t` is before the epoch. std documents the nanoseconds as a fraction
/// of a second, below one billion; how far `t` lies from the epoch is not
/// claimed.
#[verifier::external_body]
fn since_epoch(t: std::time::SystemTime) -> (r: Option<(u64, u32)>)
    ensures
        r matches Some((_, n)) ==> n < 1_000_000_000,
{
    match t.duration_since(std::time::UNIX_EPOCH) {
        Ok(d) => Some((d.as_secs(), d.subsec_nanos())),
        Err(_) => None,
    }
}

/// The name of `DateTime::<Utc>::from_timestamp(secs, 0)` formatted with
/// `"%Y%m%d-%H%M%S"`: `None` where chrono has no such instant.
pub uninterp spec fn chrono_compact_stamp(secs: i64) -> Option<Seq<char>>;

/// `DateTime::<Utc>::from_timestamp(secs, 0)` formatted as
/// `YYYYmmdd-HHMMSS` (chrono's `"%Y%m%d-%H%M%S"`).
#[verifier::external_body]
pub(crate) fn compact_stamp(secs: i64) -> (r: Option<String>)
    ensures
        match chrono_compact_stamp(secs) {
            Some(s) => r matches Some(t) && t@ == s,
            None => r is None,
        },
{
    match chrono::DateTime::<chrono::Utc>::from_timestamp(secs, 0) {
        Some(d) => Some(d.format("%Y%m%d-%H%M%S").to_string()),
        None => None,
    }
}

/// Whole seconds from `then` to `now`, truncated toward zero as
/// `chrono::TimeDelta::num_seconds` does, and never below zero.
pub open spec fn age_seconds(now: UtcTime, then: UtcTime) -> int {
    let d = (now.secs - then.secs) * 1_000_000_000 + (now.nanos - then.nanos);
    if d <= 0 {
        0
    } else {
        d / 1_000_000_000
    }
}

/// The text of a relative age.
pub open spec fn age_text(secs: nat) -> Seq<char> {
    if secs < 60 {
        decimal(secs) + "s ago"@
    } else if secs < 3600 {
        decimal(secs / 60) + "m ago"@
    } else if secs < 86_400 {
        decimal(secs / 3600) + "h ago"@
    } else {
        decimal(secs / 86_400) + "d ago"@
    }
}

/// How long ago `then` was, as the dashboard shows it: `42s ago`, `5m ago`,
/// `3h ago` or `12d ago`.
pub fn relative_age(now: UtcTime, then: UtcTime) -> (r: String)
    ensures
        r@ == age_text(age_seconds(now, then) as nat),
{
    let ds = (now.secs as i128) - (then.secs as i128);
    let dn = (now.nanos as i128) - (then.nanos as i128);
    assert(-0x1_0000_0000_0000_0000 * 1_000_000_000 <= ds * 1_000_000_000 <= 0x1_0000_0000_0000_0000
        * 1_000_000_000) by (nonlinear_arith)
        requires
            -0x1_0000_0000_0000_0000 <= ds <= 0x1_0000_0000_0000_0000,
    ;
    let d = ds * 1_000_000_000 + dn;
    let secs: u128 = if d <= 0 {
        0
    } else {
        (d / 1_000_000_000) as u128
    };
    if secs < 60 {
        concat(u128_to_decimal(secs).as_str(), "s ago")
    } else if secs < 3600 {
        concat(u128_to_decimal(secs / 60).as_str(), "m ago")
    } else if secs < 86_400 {
        concat(u128_to_decimal(secs / 3600).as_str(), "h ago")
    } else {
        concat(u128_to_decimal(secs / 86_400).as_str(), "d ago")
    }
}

/// The instant that whole seconds and nanoseconds after the epoch denote,
/// when the seconds fit an `i64`; `None` for a time before the epoch.
pub open spec fn instant_of(since: Option<(u64, u32)>) -> Option<UtcTime> {
    match since {
        Some((s, n)) => if s <= i64::MAX {
            Some(UtcTime { secs: s as i64, nanos: n })
        } else {
            None
        },
        None => None,
    }
}

/// [`instant_of`], computed.
pub fn instant_since_epoch(since: Option<(u64, u32)>) -> (r: Option<UtcTime>)
    ensures
        r == instant_of(since),
{
    match since {
        Some((s, n)) => if s <= i64::MAX as u64 {
            Some(UtcTime { secs: s as i64, nanos: n })
        } else {
            None
        },
        None => None,
    }
}

/// The current time, when the system clock reads a time after the epoch
/// (`None` before it): an instant at or after the epoch whose nanoseconds
/// stay below a billion. Which instant is not claimed.
pub fn current_time() -> (r: Option<UtcTime>)
    ensures
        r matches Some(t) ==> subsecond_ok(t) && t.secs >= 0,
{
    instant_since_epoch(since_epoch(system_now()))
}

/// Nanoseconds after the epoch of whole seconds and nanoseconds, or 0 for a
/// time before the epoch (`Duration::as_nanos`, with 0 on error).
pub open spec fn nanos_of(since: Option<(u64, u32)>) -> int {
    match since {
        Some((s, n)) => s * 1_000_000_000 + n,
        None => 0,
    }
}

/// [`nanos_of`], as a machine integer.
pub fn nanos_since(since: Option<(u64, u32)>) -> (r: u128)
    ensures
        r == nanos_of(since),
{
    match since {
        Some((s, n)) => {
            assert(s * 1_000_000_000 <= 0xffff_ffff_ffff_ffff * 1_000_000_000) by (nonlinear_arith)
                requires
                    s <= 0xffff_ffff_ffff_ffff,
            ;
            (s as u128) * 1_000_000_000 + (n as u128)
        },
        None => 0,
    }
}

/// The current time in nanoseconds since the Unix epoch, 0 when the clock
/// reads a time before it, which names temporary folders uniquely: whole
/// seconds times a billion plus nanoseconds below a billion. Which time is
/// not claimed.
pub fn now_nanos() -> (r: u128)
    ensures
        exists|s: u64, n: u32| #![trigger nanos_of(Some((s, n)))] n < 1_000_000_000 && r == nanos_of(Some((s, n))),
{
    let since = since_epoch(system_now());
    let r = nanos_since(since);
    match since {
        Some((s, n)) => {
            assert(n < 1_000_000_000 && r == nanos_of(Some((s, n))));
        },
        None => {
            assert(r == nanos_of(Some((0u64, 0u32))));
        },
    }
    r
}

/// The instant a file time denotes in whole seconds, as snapshot metadata
/// records it: the seconds since the epoch read as an `i64` (wrapping, as
/// `u64::cast_signed`), when chrono can express that instant; `None` before
/// the epoch.
pub open spec fn whole_second_instant(since: Option<(u64, u32)>) -> Option<UtcTime> {
    match since {
        Some((s, _)) => if chrono_compact_stamp(s as i64) is Some {
            Some(UtcTime { secs: s as i64, nanos: 0 })
        } else {
            None
        },
        None => None,
    }
}

/// [`whole_second_instant`], computed: chrono expresses an instant exactly
/// when it can give its timestamp text.
pub fn whole_seconds_utc(since: Option<(u64, u32)>) -> (r: Option<UtcTime>)
    ensures
        r == whole_second_instant(since),
{
    match since {
        Some((s, _)) => {
            let secs = s as i64;
            match compact_stamp(secs) {
                Some(_) => Some(UtcTime { secs, nanos: 0 }),
                None => None,
            }
        },
        None => None,
    }
}

/// A file's modification time as snapshot metadata records it: whole
/// seconds after the epoch, `None` before it or where chrono has no such
/// instant.
pub fn system_time_to_utc(t: std::time::SystemTime) -> (r: Option<UtcTime>)
    ensures
        r matches Some(u) ==> u.nanos == 0 && chrono_compact_stamp(u.secs) is Some,
{
    whole_seconds_utc(since_epoch(t))
}

} // verus!
