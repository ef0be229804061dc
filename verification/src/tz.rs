//! Time-zone matching and per-row time parts of the world board. The
//! operating-system zone enumeration and conversion happen outside; these
//! functions decide on their results.

use vstd::prelude::*;
use vstd::string::*;
use crate::board::TimeParts;
use crate::text::chars_of;

verus! {

/// ASCII lower-casing of one character (`char::to_ascii_lowercase`).
pub open spec fn ascii_lower(c: char) -> char {
    if 'A' as u32 <= c as u32 <= 'Z' as u32 {
        ((c as u32) + 32) as char
    } else {
        c
    }
}

/// `str::eq_ignore_ascii_case`.
pub open spec fn eq_ignore_ascii_case_spec(a: Seq<char>, b: Seq<char>) -> bool {
    a.len() == b.len() && forall|i: int| 0 <= i < a.len() ==> ascii_lower(#[trigger] a[i]) == ascii_lower(b[i])
}

fn ascii_lower_exec(c: char) -> (r: u32)
    ensures
        r == ascii_lower(c) as u32,
{
    let u = c as u32;
    if 65 <= u && u <= 90 {
        assert(((u + 32) as char) as u32 == u + 32);
        u + 32
    } else {
        u
    }
}

/// Whether `a` and `b` are equal up to ASCII case.
pub fn eq_ignore_ascii_case(a: &str, b: &str) -> (r: bool)
    ensures
        r == eq_ignore_ascii_case_spec(a@, b@),
{
    let x = chars_of(a);
    let y = chars_of(b);
    if x.len() != y.len() {
        return false;
    }
    let mut i: usize = 0;
    while i < x.len()
        invariant
            x@ == a@,
            y@ == b@,
            x@.len() == y@.len(),
            i <= x@.len(),
            forall|k: int| 0 <= k < i ==> ascii_lower(#[trigger] x@[k]) == ascii_lower(y@[k]),
        decreases x@.len() - i,
    {
        let p = ascii_lower_exec(x[i]);
        let q = ascii_lower_exec(y[i]);
        if p != q {
            proof {
                vstd::utf8::char_u32_cast(ascii_lower(x@[i as int]), p);
            }
            return false;
        }
        proof {
            vstd::utf8::char_u32_cast(ascii_lower(x@[i as int]), p);
            vstd::utf8::char_u32_cast(ascii_lower(y@[i as int]), q);
        }
        i = i + 1;
    }
    true
}

/// Index of the first NUL unit in `key`, or its length.
pub open spec fn nul_end(key: Seq<u16>) -> int
    decreases key.len(),
{
    if key.len() == 0 || key[0] == 0 {
        0
    } else {
        1 + nul_end(key.drop_first())
    }
}

/// What `String::from_utf16_lossy` gives: UTF-16 decoded, a leading
/// surrogate followed by a trailing one joined into one character, and
/// every other surrogate (unpaired) replaced by U+FFFD.
pub open spec fn utf16_lossy(units: Seq<u16>) -> Seq<char>
    decreases units.len(),
{
    if units.len() == 0 {
        Seq::empty()
    } else if 0xD800 <= units[0] < 0xDC00 && units.len() > 1 && 0xDC00 <= units[1] < 0xE000 {
        seq![(0x10000 + (units[0] - 0xD800) * 0x400 + (units[1] - 0xDC00)) as char]
            + utf16_lossy(units.skip(2))
    } else if 0xD800 <= units[0] < 0xE000 {
        seq!['\u{FFFD}'] + utf16_lossy(units.skip(1))
    } else {
        seq![units[0] as char] + utf16_lossy(units.skip(1))
    }
}

/// Units outside the surrogate range decode one for one: such a zone key
/// reads as its units taken as characters.
pub proof fn lemma_utf16_lossy_plain(units: Seq<u16>)
    requires
        forall|i: int| 0 <= i < units.len() ==> !(0xD800 <= #[trigger] units[i] < 0xE000),
    ensures
        utf16_lossy(units) == units.map_values(|x: u16| x as char),
    decreases units.len(),
{
    if units.len() > 0 {
        let t = units.skip(1);
        assert forall|i: int| 0 <= i < t.len() implies !(0xD800 <= #[trigger] t[i] < 0xE000) by {
            assert(t[i] == units[i + 1]);
        }
        lemma_utf16_lossy_plain(t);
        assert(utf16_lossy(units) =~= units.map_values(|x: u16| x as char));
    }
}

/// Calls `String::from_utf16_lossy`, which decodes as `utf16_lossy` says.
#[verifier::external_body]
fn from_utf16_lossy(units: &[u16]) -> (r: String)
    ensures
        r@ == utf16_lossy(units@),
{
    String::from_utf16_lossy(units)
}

/// The NUL-terminated zone key name in a fixed-size buffer, as a string.
pub fn key_to_string(key: &[u16]) -> (r: String)
    ensures
        r@ == utf16_lossy(key@.take(nul_end(key@))),
{
    let mut end: usize = 0;
    assert(key@.skip(0) =~= key@);
    while end < key.len() && key[end] != 0
        invariant
            end <= key@.len(),
            nul_end(key@) == end + nul_end(key@.skip(end as int)),
        decreases key@.len() - end,
    {
        assert(key@.skip(end as int).drop_first() =~= key@.skip(end + 1));
        end = end + 1;
    }
    assert(nul_end(key@.skip(end as int)) == 0);
    let mut prefix: Vec<u16> = Vec::new();
    let mut i: usize = 0;
    while i < end
        invariant
            i <= end <= key@.len(),
            prefix@ == key@.take(i as int),
        decreases end - i,
    {
        prefix.push(key[i]);
        assert(key@.take(i + 1) =~= key@.take(i as int).push(key@[i as int]));
        i = i + 1;
    }
    from_utf16_lossy(prefix.as_slice())
}

/// Whether a zone's key name (NUL-terminated buffer) is `id`, ignoring
/// ASCII case.
pub fn zone_key_matches(key: &[u16], id: &str) -> (r: bool)
    ensures
        r == eq_ignore_ascii_case_spec(utf16_lossy(key@.take(nul_end(key@))), id@),
{
    let name = key_to_string(key);
    eq_ignore_ascii_case(name.as_str(), id)
}

/// A calendar date and time of day as the operating system reports it.
#[derive(Debug, Clone, Copy, PartialEq, Eq, Structural)]
pub struct LocalTime {
    pub year: u16,
    pub month: u16,
    pub day: u16,
    pub day_of_week: u16,
    pub hour: u16,
    pub minute: u16,
}

/// A row's time parts from the zone's local time and the machine's local
/// time: the weekday shows only when the zone's date differs.
pub fn time_parts(zone_local: LocalTime, machine_local: LocalTime, is_dst: bool) -> (r: TimeParts)
    ensures
        r.hour == zone_local.hour,
        r.minute == zone_local.minute,
        r.is_dst == is_dst,
        r.date_differs == ((zone_local.year, zone_local.month, zone_local.day) != (
            machine_local.year,
            machine_local.month,
            machine_local.day,
        )),
        r.weekday == zone_local.day_of_week as u8,
{
    let date_differs = zone_local.year != machine_local.year || zone_local.month != machine_local.month
        || zone_local.day != machine_local.day;
    TimeParts {
        hour: zone_local.hour as u32,
        minute: zone_local.minute as u32,
        is_dst,
        date_differs,
        weekday: zone_local.day_of_week as u8,
    }
}

/// A `FILETIME`'s two halves as one count of 100 ns ticks.
pub fn filetime_ticks(high: u32, low: u32) -> (r: u64)
    ensures
        r == high as int * 0x1_0000_0000 + low as int,
{
    (high as u64) * 0x1_0000_0000 + (low as u64)
}

/// Ticks of 100 ns in one minute.
pub const TICKS_PER_MINUTE: u64 = 600_000_000;

/// The bias applied between two instants given in ticks: UTC minus local,
/// in whole minutes, truncated toward zero.
pub open spec fn bias_minutes(utc_ticks: int, local_ticks: int) -> int {
    crate::clock::tdiv(utc_ticks - local_ticks, TICKS_PER_MINUTE as int)
}

/// Whether a zone is on daylight time at an instant: the bias applied there
/// (`bias_minutes` of the UTC and local ticks) differs from the zone's
/// standard bias for that year, `bias + standard_bias` (Win32 sign).
pub fn zone_in_dst(utc_ticks: u64, local_ticks: u64, bias: i32, standard_bias: i32) -> (r: bool)
    ensures
        r == (bias_minutes(utc_ticks as int, local_ticks as int) != bias as int + standard_bias as int),
{
    let actual: i64 = if utc_ticks >= local_ticks {
        ((utc_ticks - local_ticks) / TICKS_PER_MINUTE) as i64
    } else {
        0 - (((local_ticks - utc_ticks) / TICKS_PER_MINUTE) as i64)
    };
    actual != bias as i64 + standard_bias as i64
}

} // verus!
