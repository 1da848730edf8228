//! Civil (proleptic Gregorian) dates from day counts.

use vstd::prelude::*;
use crate::text::{decimal, push_char, push_decimal};

verus! {

broadcast use vstd::string::group_string_axioms;

/// Largest day count handled: shifting it to the era origin (March 1st of
/// year 0) must not overflow `i64`.
pub const MAX_DAYS: i64 = 9223372036854056339;

/// Year, month and day of the date `days` days after 1970-01-01, by the
/// era decomposition of the Gregorian calendar (400-year eras starting on
/// March 1st).
pub open spec fn civil_spec(days: int) -> (int, int, int) {
    let z = days + 719468;
    let era = z / 146097;
    let doe = z - era * 146097;
    let yoe = (doe - doe / 1460 + doe / 36524 - doe / 146096) / 365;
    let y = yoe + era * 400;
    let doy = doe - (365 * yoe + yoe / 4 - yoe / 100);
    let mp = (5 * doy + 2) / 153;
    let d = doy - (153 * mp + 2) / 5 + 1;
    let m = if mp < 10 {
        mp + 3
    } else {
        mp - 9
    };
    (if m <= 2 {
        y + 1
    } else {
        y
    }, m, d)
}

/// Convert days since the Unix epoch to (year, month, day).
#[verifier::rlimit(50)]
pub fn civil_from_days(days: i64) -> (r: (i64, u32, u32))
    requires
        days <= MAX_DAYS,
    ensures
        r.0 == civil_spec(days as int).0,
        r.1 == civil_spec(days as int).1 as u32,
        r.2 == civil_spec(days as int).2 as u32,
        1 <= r.1 <= 12,
        1 <= r.2 <= 31,
        -30000000000000000 <= r.0 <= 30000000000000000,
{
    proof {
        law_civil_date_in_range(days as int);
    }
    let z: i64 = days + 719468;
    let era: i64 = if z >= 0 {
        z / 146097
    } else {
        -((146096 - z) / 146097)
    };
    assert(era == z / 146097) by (nonlinear_arith)
        requires
            z < 0 ==> era == -((146096 - z) / 146097),
            z >= 0 ==> era == z / 146097,
    ;
    let doe: i64 = z - era * 146097;
    assert(0 <= doe < 146097) by (nonlinear_arith)
        requires
            era == z / 146097,
            doe == z - era * 146097,
    ;
    let yoe: i64 = (doe - doe / 1460 + doe / 36524 - doe / 146096) / 365;
    assert(0 <= yoe <= 400);
    assert(-64000000000000 <= era <= 64000000000000) by (nonlinear_arith)
        requires
            era == z / 146097,
            -9223372036854775808 + 719468 <= z <= 9223372036854775807,
    ;
    let y: i64 = yoe + era * 400;
    let doy: i64 = doe - (365 * yoe + yoe / 4 - yoe / 100);
    assert(-200000 <= doy <= 200000);
    let mp: i64 = (5 * doy + 2) / 153;
    assert(-10000 <= mp <= 10000);
    let d: i64 = doy - (153 * mp + 2) / 5 + 1;
    let m: i64 = if mp < 10 {
        mp + 3
    } else {
        mp - 9
    };
    let year = if m <= 2 {
        y + 1
    } else {
        y
    };
    (year, m as u32, d as u32)
}

/// `s` padded on the left with zeros to width `w` (`{:0w}`).
pub open spec fn zero_pad(s: Seq<char>, w: nat) -> Seq<char> {
    if s.len() >= w {
        s
    } else {
        Seq::new((w - s.len()) as nat, |i: int| '0') + s
    }
}

/// A year as `{:04}` shows it.
pub open spec fn year_text(y: int) -> Seq<char> {
    if y < 0 {
        seq!['-'] + zero_pad(decimal((-y) as nat), 3)
    } else {
        zero_pad(decimal(y as nat), 4)
    }
}

/// The date `YYYY-MM-DD` (UTC) of a time in seconds since the epoch.
pub open spec fn date_text(secs: u64) -> Seq<char> {
    let (y, m, d) = civil_spec((secs / 86400) as int);
    year_text(y) + "-"@ + zero_pad(decimal(m as u32 as nat), 2) + "-"@ + zero_pad(
        decimal(d as u32 as nat),
        2,
    )
}

/// Today's date `YYYY-MM-DD` (UTC), by the system clock.
pub fn current_date_string() -> (r: String)
    ensures
        exists|secs: u64| r@ == #[trigger] date_text(secs),
{
    let secs = crate::clock::unix_time_secs();
    let r = date_string(secs);
    assert(r@ == date_text(secs));
    r
}

/// Appends `n` in decimal, padded with zeros to width `w`.
fn push_padded(s: &mut String, n: u64, w: usize)
    requires
        w <= 4,
    ensures
        final(s)@ == old(s)@ + zero_pad(decimal(n as nat), w as nat),
{
    let mut digits = String::new();
    push_decimal(&mut digits, n);
    let len = digits.as_str().unicode_len();
    let mut k: usize = len;
    let ghost start = s@;
    while k < w
        invariant
            len <= k <= (if w > len { w } else { len }),
            len == decimal(n as nat).len(),
            s@ == start + Seq::new((k - len) as nat, |i: int| '0'),
        decreases w - k,
    {
        push_char(s, '0');
        k = k + 1;
        assert(s@ =~= start + Seq::new((k - len) as nat, |i: int| '0'));
    }
    s.append(digits.as_str());
    if len < w {
        assert(k == w);
    } else {
        assert(Seq::new((k - len) as nat, |i: int| '0') =~= Seq::<char>::empty());
    }
    assert(s@ =~= start + zero_pad(decimal(n as nat), w as nat));
}

/// The date `YYYY-MM-DD` (UTC) of a time in seconds since the epoch.
pub fn date_string(secs: u64) -> (r: String)
    ensures
        r@ == date_text(secs),
{
    let days: i64 = (secs / 86400) as i64;
    let (y, m, d) = civil_from_days(days);
    let mut r = String::new();
    if y < 0 {
        push_char(&mut r, '-');
        push_padded(&mut r, (-y) as u64, 3);
    } else {
        push_padded(&mut r, y as u64, 4);
    }
    r.append("-");
    push_padded(&mut r, m as u64, 2);
    r.append("-");
    push_padded(&mut r, d as u64, 2);
    r
}

proof fn lemma_doy_in_year(doe: u32)
    by (bit_vector)
    requires
        doe < 146097,
    ensures
        ({
            let yoe = (doe - doe / 1460 + doe / 36524 - doe / 146096) / 365;
            365 * yoe + yoe / 4 - yoe / 100 <= doe && doe - (365 * yoe + yoe / 4 - yoe / 100) <= 365
        }),
{
}

proof fn lemma_month_and_day(doy: u32)
    by (bit_vector)
    requires
        doy <= 365,
    ensures
        (5 * doy + 2) / 153 <= 11,
        (153 * ((5 * doy + 2) / 153) + 2) / 5 <= doy,
        doy - (153 * ((5 * doy + 2) / 153) + 2) / 5 <= 30,
{
}

/// Every day count in range names a calendar date: its month lies in
/// 1..=12 and its day in 1..=31.
pub proof fn law_civil_date_in_range(days: int)
    requires
        days <= MAX_DAYS,
    ensures
        1 <= civil_spec(days).1 <= 12,
        1 <= civil_spec(days).2 <= 31,
{
    let z = days + 719468;
    let era = z / 146097;
    let doe = z - era * 146097;
    assert(0 <= doe < 146097) by (nonlinear_arith)
        requires
            era == z / 146097,
            doe == z - era * 146097,
    ;
    lemma_doy_in_year(doe as u32);
    let yoe = (doe - doe / 1460 + doe / 36524 - doe / 146096) / 365;
    let doy = doe - (365 * yoe + yoe / 4 - yoe / 100);
    assert(0 <= doy <= 365);
    lemma_month_and_day(doy as u32);
}

proof fn lemma_decimal_len(n: nat)
    ensures
        n < 10 ==> decimal(n).len() == 1,
        n < 100 ==> decimal(n).len() <= 2,
        n < 1000 ==> decimal(n).len() <= 3,
        n < 10000 ==> decimal(n).len() <= 4,
        decimal(n).len() >= 1,
    decreases n,
{
    if n >= 10 {
        lemma_decimal_len(n / 10);
    }
}

/// The `{date}` text of a naming pattern is `YYYY-MM-DD`: ten characters,
/// for every time whose year has at most four digits.
pub proof fn law_date_text_is_ten_chars(secs: u64)
    requires
        0 <= civil_spec((secs / 86400) as int).0 <= 9999,
    ensures
        date_text(secs).len() == 10,
{
    let days = (secs / 86400) as int;
    assert(days <= MAX_DAYS);
    law_civil_date_in_range(days);
    let (y, m, d) = civil_spec(days);
    lemma_decimal_len(y as nat);
    lemma_decimal_len(m as u32 as nat);
    lemma_decimal_len(d as u32 as nat);
    reveal_strlit("-");
}

} // verus!
