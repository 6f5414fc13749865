//! Decimal numbers and calendar dates as text.
use vstd::prelude::*;

verus! {

/// The character of decimal digit `d`.
pub open spec fn digit_char(d: int) -> char {
    (48 + d) as char
}

/// The decimal digits of `n`, without leading zeros.
pub open spec fn decimal(n: nat) -> Seq<char>
    decreases n,
{
    if n < 10 {
        seq![digit_char(n as int)]
    } else {
        decimal(n / 10).push(digit_char((n % 10) as int))
    }
}

/// `s` with zeros in front up to `width` characters.
pub open spec fn zero_pad(s: Seq<char>, width: nat) -> Seq<char> {
    if s.len() >= width {
        s
    } else {
        Seq::new((width - s.len()) as nat, |i: int| '0') + s
    }
}

/// `v` as `format!("{v:0w$}")` writes it: the sign counts toward the width
/// and the zeros go after it.
pub open spec fn padded(v: int, width: nat) -> Seq<char> {
    if v < 0 {
        seq!['-'] + zero_pad(decimal((-v) as nat), if width >= 1 { (width - 1) as nat } else { 0 })
    } else {
        zero_pad(decimal(v as nat), width)
    }
}

/// Rust's `/` on integers: the quotient rounded toward zero.
pub open spec fn trunc_div(a: int, b: int) -> int {
    if a >= 0 {
        a / b
    } else {
        -((-a) / b)
    }
}

/// The local day number (days since 1970-01-01) of the millisecond
/// timestamp `ms` at `tz_offset_min` minutes east of UTC.
pub open spec fn day_number(ms: i64, tz_offset_min: i64) -> int {
    (trunc_div(ms as int, 1000) + tz_offset_min * 60) / 86400
}

/// The timestamp arithmetic stays within `i64`.
pub open spec fn date_fits(ms: i64, tz_offset_min: i64) -> bool {
    &&& i64::MIN <= tz_offset_min * 60 <= i64::MAX
    &&& i64::MIN <= trunc_div(ms as int, 1000) + tz_offset_min * 60 <= i64::MAX
}

/// The proleptic Gregorian date (year, month, day) of day number `days`,
/// by the era-based conversion: 400-year eras of 146097 days, years that
/// begin in March so that the leap day falls last.
pub open spec fn civil_from_days(days: int) -> (int, int, int) {
    let z = days + 719468;
    let era = z / 146097;
    let doe = z % 146097;
    let yoe = (doe - doe / 1460 + doe / 36524 - doe / 146096) / 365;
    let y = yoe + era * 400;
    let doy = doe - (365 * yoe + yoe / 4 - yoe / 100);
    let mp = (5 * doy + 2) / 153;
    let d = doy - (153 * mp + 2) / 5 + 1;
    let m = if mp < 10 { mp + 3 } else { mp - 9 };
    (if m <= 2 { y + 1 } else { y }, m, d)
}

/// Day number of the date (`y`, `m`, `d`): the inverse conversion.
pub open spec fn days_from_civil(y: int, m: int, d: int) -> int {
    let yy = if m <= 2 { y - 1 } else { y };
    let era = yy / 400;
    let yoe = yy - era * 400;
    let mp = if m > 2 { m - 3 } else { m + 9 };
    let doy = (153 * mp + 2) / 5 + d - 1;
    let doe = yoe * 365 + yoe / 4 - yoe / 100 + doy;
    era * 146097 + doe - 719468
}

/// "YYYY-MM-DD".
pub open spec fn date_text(date: (int, int, int)) -> Seq<char> {
    padded(date.0, 4) + seq!['-'] + padded(date.1, 2) + seq!['-'] + padded(date.2, 2)
}

fn digit(d: u64) -> (c: char)
    requires
        d < 10,
    ensures
        c == digit_char(d as int),
{
    let b: u8 = 48 + d as u8;
    b as char
}

/// The decimal digits of `n`.
pub fn decimal_chars(n: u64) -> (r: Vec<char>)
    ensures
        r@ == decimal(n as nat),
    decreases n,
{
    if n < 10 {
        let mut v: Vec<char> = Vec::new();
        v.push(digit(n));
        v
    } else {
        let mut v = decimal_chars(n / 10);
        v.push(digit(n % 10));
        v
    }
}

/// `n` in decimal, as `n.to_string()` writes it.
pub fn decimal_string(n: u64) -> (r: String)
    ensures
        r@ == decimal(n as nat),
{
    let v = decimal_chars(n);
    crate::text::string_of(v.as_slice())
}

fn zero_padded(v: Vec<char>, width: usize) -> (r: Vec<char>)
    ensures
        r@ == zero_pad(v@, width as nat),
{
    if v.len() >= width {
        return v;
    }
    let mut r: Vec<char> = Vec::new();
    let k = width - v.len();
    while r.len() < k
        invariant
            r@.len() <= k,
            forall|i: int| 0 <= i < r@.len() ==> r@[i] == '0',
        decreases k - r@.len(),
    {
        r.push('0');
    }
    let mut i: usize = 0;
    while i < v.len()
        invariant
            i <= v@.len(),
            r@ =~= Seq::new(k as nat, |j: int| '0') + v@.subrange(0, i as int),
        decreases v@.len() - i,
    {
        r.push(v[i]);
        i = i + 1;
        assert(r@ =~= Seq::new(k as nat, |j: int| '0') + v@.subrange(0, i as int));
    }
    assert(v@.subrange(0, v@.len() as int) =~= v@);
    r
}

/// `v` written with at least `width` characters, zero-padded after the sign.
pub fn padded_chars(v: i64, width: usize) -> (r: Vec<char>)
    ensures
        r@ == padded(v as int, width as nat),
{
    if v < 0 {
        let mag: u64 = if v == i64::MIN {
            9_223_372_036_854_775_808u64
        } else {
            (-v) as u64
        };
        let digits = decimal_chars(mag);
        let w = if width >= 1 { width - 1 } else { 0 };
        let p = zero_padded(digits, w);
        let mut r: Vec<char> = Vec::new();
        r.push('-');
        let mut i: usize = 0;
        while i < p.len()
            invariant
                i <= p@.len(),
                r@ =~= seq!['-'] + p@.subrange(0, i as int),
            decreases p@.len() - i,
        {
            r.push(p[i]);
            i = i + 1;
            assert(r@ =~= seq!['-'] + p@.subrange(0, i as int));
        }
        assert(p@.subrange(0, p@.len() as int) =~= p@);
        r
    } else {
        zero_padded(decimal_chars(v as u64), width)
    }
}

/// `a / b` rounded toward negative infinity, for `b > 0`.
fn floor_div(a: i64, b: i64) -> (q: i64)
    requires
        b > 0,
    ensures
        q == a as int / b as int,
{
    assert(i64::MIN <= a as int / b as int <= i64::MAX) by (nonlinear_arith)
        requires
            b > 0,
            i64::MIN <= a <= i64::MAX,
    {
        assert(a as int / b as int <= a || a < 0);
        assert(a as int / b as int >= a || a >= 0);
    }
    a.checked_div_euclid(b).unwrap()
}

/// The date of day number `days`.
fn civil(days: i64) -> (r: (i64, i64, i64))
    requires
        -0x8000_0000_0000 < days < 0x8000_0000_0000,
    ensures
        (r.0 as int, r.1 as int, r.2 as int) == civil_from_days(days as int),
{
    let z = days + 719468;
    let era = floor_div(z, 146097);
    let doe = z.checked_rem_euclid(146097).unwrap();
    assert(0 <= doe < 146097);
    assert(-0x1_0000_0000 < era < 0x1_0000_0000) by (nonlinear_arith)
        requires
            era == z as int / 146097,
            -0x8000_0010_0000 < z < 0x8000_0010_0000,
    ;
    let a = floor_div(doe, 1460);
    let b = floor_div(doe, 36524);
    let c = floor_div(doe, 146096);
    assert(0 <= a <= doe && 0 <= b <= doe && 0 <= c <= doe) by (nonlinear_arith)
        requires
            0 <= doe,
            a == doe as int / 1460,
            b == doe as int / 36524,
            c == doe as int / 146096,
    ;
    let yoe = floor_div(doe - a + b - c, 365);
    assert(-1000 <= yoe <= 1000) by (nonlinear_arith)
        requires
            yoe == (doe - a + b - c) as int / 365,
            -146097 <= doe - a + b - c <= 300000,
    ;
    let y = yoe + era * 400;
    let doy = doe - (365 * yoe + floor_div(yoe, 4) - floor_div(yoe, 100));
    assert(-1_000_000 <= doy <= 1_000_000) by (nonlinear_arith)
        requires
            doy == doe - (365 * yoe + yoe as int / 4 - yoe as int / 100),
            -1000 <= yoe <= 1000,
            0 <= doe < 146097,
    ;
    let mp = floor_div(5 * doy + 2, 153);
    assert(-100_000 <= mp <= 100_000) by (nonlinear_arith)
        requires
            mp == (5 * doy + 2) as int / 153,
            -1_000_000 <= doy <= 1_000_000,
    ;
    let d = doy - floor_div(153 * mp + 2, 5) + 1;
    let m = if mp < 10 { mp + 3 } else { mp - 9 };
    let y = if m <= 2 { y + 1 } else { y };
    (y, m, d)
}

/// Whether the date of `ms` at `tz_offset_min` can be computed within `i64`.
pub fn fits_date(ms: i64, tz_offset_min: i64) -> (b: bool)
    ensures
        b == date_fits(ms, tz_offset_min),
{
    let secs = ms.checked_div(1000).unwrap();
    match tz_offset_min.checked_mul(60) {
        None => false,
        Some(shift) => secs.checked_add(shift).is_some(),
    }
}

/// The local date of a millisecond timestamp, "YYYY-MM-DD";
/// `tz_offset_min` is the local offset from UTC in minutes (480 east of
/// Greenwich at +08:00).
pub fn fmt_date(ms: i64, tz_offset_min: i64) -> (r: String)
    requires
        date_fits(ms, tz_offset_min),
    ensures
        r@ == date_text(civil_from_days(day_number(ms, tz_offset_min))),
{
    let secs = ms.checked_div(1000).unwrap();
    let shift = tz_offset_min.checked_mul(60).unwrap();
    let local = secs.checked_add(shift).unwrap();
    let days = floor_div(local, 86400);
    assert(days == day_number(ms, tz_offset_min));
    assert(-0x8000_0000_0000 < days < 0x8000_0000_0000) by (nonlinear_arith)
        requires
            days == local as int / 86400,
    ;
    let (y, m, d) = civil(days);
    let mut out = padded_chars(y, 4);
    out.push('-');
    let mm = padded_chars(m, 2);
    let dd = padded_chars(d, 2);
    let ghost head = out@;
    let mut i: usize = 0;
    while i < mm.len()
        invariant
            i <= mm@.len(),
            out@ =~= head + mm@.subrange(0, i as int),
        decreases mm@.len() - i,
    {
        out.push(mm[i]);
        i = i + 1;
        assert(out@ =~= head + mm@.subrange(0, i as int));
    }
    assert(mm@.subrange(0, mm@.len() as int) =~= mm@);
    out.push('-');
    let ghost head2 = out@;
    let mut j: usize = 0;
    while j < dd.len()
        invariant
            j <= dd@.len(),
            out@ =~= head2 + dd@.subrange(0, j as int),
        decreases dd@.len() - j,
    {
        out.push(dd[j]);
        j = j + 1;
        assert(out@ =~= head2 + dd@.subrange(0, j as int));
    }
    assert(dd@.subrange(0, dd@.len() as int) =~= dd@);
    crate::text::string_of(out.as_slice())
}


/// Days in month `m` of year `y` (proleptic Gregorian).
pub open spec fn days_in_month(y: int, m: int) -> int {
    if m == 2 {
        if y % 4 == 0 && (y % 100 != 0 || y % 400 == 0) {
            29
        } else {
            28
        }
    } else if m == 4 || m == 6 || m == 9 || m == 11 {
        30
    } else {
        31
    }
}

proof fn lemma_year_of_era(doe: int)
    requires
        0 <= doe <= 146096,
    ensures
        ({
            let yoe = (doe - doe / 1460 + doe / 36524 - doe / 146096) / 365;
            let doy = doe - (365 * yoe + yoe / 4 - yoe / 100);
            &&& 0 <= yoe <= 399
            &&& 0 <= doy <= 365
            &&& doy == 365 ==> (yoe + 1) % 4 == 0 && ((yoe + 1) % 100 != 0 || yoe == 399)
        }),
{
}


proof fn lemma_month_of_year(doy: int)
    requires
        0 <= doy <= 365,
    ensures
        ({
            let mp = (5 * doy + 2) / 153;
            let d = doy - (153 * mp + 2) / 5 + 1;
            &&& 0 <= mp <= 11
            &&& 1 <= d <= 31
            &&& (mp == 11 ==> d == doy - 336)
            &&& (mp == 1 || mp == 3 || mp == 6 || mp == 8 ==> d <= 30)
        }),
{
}

/// The date of a day number is a real date, and converting it back gives
/// the day number again.
pub proof fn lemma_civil_roundtrip(n: int)
    ensures
        ({
            let (y, m, d) = civil_from_days(n);
            &&& 1 <= m <= 12
            &&& 1 <= d <= days_in_month(y, m)
            &&& days_from_civil(y, m, d) == n
        }),
{
    let z = n + 719468;
    let era = z / 146097;
    let doe = z % 146097;
    lemma_year_of_era(doe);
    let yoe = (doe - doe / 1460 + doe / 36524 - doe / 146096) / 365;
    let doy = doe - (365 * yoe + yoe / 4 - yoe / 100);
    lemma_month_of_year(doy);
    let y = yoe + era * 400;
    assert((yoe + era * 400) / 400 == era) by (nonlinear_arith)
        requires
            0 <= yoe <= 399,
    ;
    vstd::arithmetic::div_mod::lemma_fundamental_div_mod(z, 146097);
    assert(z == era * 146097 + doe);
    let cy = y + 1;
    assert(cy % 4 == (yoe + 1) % 4 && cy % 100 == (yoe + 1) % 100 && cy % 400 == (yoe + 1) % 400) by (nonlinear_arith)
        requires
            cy == yoe + 1 + era * 400,
    ;
}

} // verus!
