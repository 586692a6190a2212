//! The engine's time text: `yyyy-MM-dd HH:mm:ss` in UTC.

use vstd::prelude::*;
use crate::text::{nat_digits, push_char, push_str, u64_text};

verus! {

/// Days since 1970-01-01 → (year, month, day) in the proleptic Gregorian calendar
/// (Howard Hinnant's `civil_from_days`).
pub open spec fn civil_from_days(days: int) -> (int, int, int) {
    let z = days + 719468;
    let era = if z >= 0 { z / 146097 } else { (z - 146096) / 146097 };
    let doe = z - era * 146097;
    let yoe = (doe - doe / 1460 + doe / 36524 - doe / 146096) / 365;
    let y = yoe + era * 400;
    let doy = doe - (365 * yoe + yoe / 4 - yoe / 100);
    let mp = (5 * doy + 2) / 153;
    let d = doy - (153 * mp + 2) / 5 + 1;
    let m = if mp < 10 { mp + 3 } else { mp - 9 };
    (if m <= 2 { y + 1 } else { y }, m, d)
}

/// Days since 1970-01-01 of a civil date (the inverse of `civil_from_days`).
pub open spec fn days_from_civil(y0: int, m: int, d: int) -> int {
    let y = if m <= 2 { y0 - 1 } else { y0 };
    let era = if y >= 0 { y / 400 } else { (y - 399) / 400 };
    let yoe = y - era * 400;
    let mp = if m > 2 { m - 3 } else { m + 9 };
    let doy = (153 * mp + 2) / 5 + d - 1;
    let doe = yoe * 365 + yoe / 4 - yoe / 100 + doy;
    era * 146097 + doe - 719468
}

/// `{:0w}` formatting of an integer: sign, then digits zero-padded to width `w`.
pub open spec fn padded(n: int, w: nat) -> Seq<char> {
    let digits = nat_digits(if n < 0 { (-n) as nat } else { n as nat });
    let sign = if n < 0 { seq!['-'] } else { Seq::<char>::empty() };
    let fill: int = w - sign.len() - digits.len();
    sign + Seq::new(if fill > 0 { fill as nat } else { 0 }, |i: int| '0') + digits
}

/// `yyyy-MM-dd HH:mm:ss` of a UTC unix timestamp.
pub open spec fn utc_text(secs: int) -> Seq<char> {
    let (y, m, d) = civil_from_days(secs / 86400);
    let tod = secs % 86400;
    padded(y, 4) + seq!['-'] + padded(m, 2) + seq!['-'] + padded(d, 2) + seq![' '] + padded(
        tod / 3600,
        2,
    ) + seq![':'] + padded((tod % 3600) / 60, 2) + seq![':'] + padded(tod % 60, 2)
}

fn push_padded(out: &mut String, n: i64, w: usize)
    requires
        n > i64::MIN,
    ensures
        final(out)@ == old(out)@ + padded(n as int, w as nat),
{
    let ghost o = out@;
    let a: u64 = if n < 0 { (-n) as u64 } else { n as u64 };
    let digits = u64_text(a);
    let dl = digits.as_str().unicode_len();
    let sl: usize = if n < 0 { 1 } else { 0 };
    if n < 0 {
        push_char(out, '-');
    }
    let ghost after_sign = out@;
    let fill: usize = if w > dl && w - dl > sl { w - dl - sl } else { 0 };
    let mut k: usize = 0;
    while k < fill
        invariant
            0 <= k <= fill,
            out@ == after_sign + Seq::new(k as nat, |i: int| '0'),
        decreases fill - k,
    {
        push_char(out, '0');
        k = k + 1;
        assert(out@ =~= after_sign + Seq::new(k as nat, |i: int| '0'));
    }
    push_str(out, digits.as_str());
    proof {
        let sign = if n < 0 { seq!['-'] } else { Seq::<char>::empty() };
        assert(after_sign =~= o + sign);
        let f: int = w - sign.len() - digits@.len();
        assert(fill as int == if f > 0 { f } else { 0 });
        assert(out@ =~= o + padded(n as int, w as nat));
    }
}

/// Floor division by a positive divisor (`div_euclid`).
fn fdiv(a: i64, b: i64) -> (r: i64)
    requires
        b > 0,
    ensures
        r == a as int / b as int,
{
    if a >= 0 {
        a / b
    } else {
        let c: i64 = -(a + 1);
        let q: i64 = c / b;
        proof {
            let ai = a as int;
            let bi = b as int;
            let ci = c as int;
            let qi = q as int;
            let qq = ai / bi;
            let rr = ai % bi;
            let rc = ci % bi;
            assert(ai == qq * bi + rr && 0 <= rr && rr < bi) by (nonlinear_arith)
                requires bi > 0, qq == ai / bi, rr == ai % bi;
            assert(ci == qi * bi + rc && 0 <= rc && rc < bi) by (nonlinear_arith)
                requires bi > 0, qi == ci / bi, rc == ci % bi, ci >= 0;
            assert(-qi - 1 == qq) by (nonlinear_arith)
                requires
                    ai == qq * bi + rr, 0 <= rr, rr < bi,
                    ci == qi * bi + rc, 0 <= rc, rc < bi,
                    ci == -(ai + 1), bi > 0;
        }
        -q - 1
    }
}

/// Remainder of floor division by a positive divisor (`rem_euclid`).
fn fmod(a: i64, b: i64) -> (r: i64)
    requires
        b > 0,
    ensures
        r == a as int % b as int,
        0 <= r < b,
{
    if a >= 0 {
        a % b
    } else {
        let c: i64 = -(a + 1);
        let m: i64 = c % b;
        proof {
            let ai = a as int;
            let bi = b as int;
            let ci = c as int;
            let qc = ci / bi;
            let rc = ci % bi;
            vstd::arithmetic::div_mod::lemma_fundamental_div_mod(ci, bi);
            assert(ai == (-qc - 1) * bi + (bi - 1 - rc)) by (nonlinear_arith)
                requires ci == bi * qc + rc, ci == -(ai + 1);
            vstd::arithmetic::div_mod::lemma_fundamental_div_mod_converse(ai, bi, -qc - 1, bi - 1 - rc);
        }
        b - 1 - m
    }
}

/// `civil_from_days` for the day counts an `i64` of seconds can reach.
fn civil(day: i64) -> (r: (i64, i64, i64))
    requires
        -106751991167301 <= day <= 106751991167300,
    ensures
        (r.0 as int, r.1 as int, r.2 as int) == civil_from_days(day as int),
{
    let z: i64 = day + 719468;
    let era: i64 = fdiv(if z >= 0 { z } else { z - 146096 }, 146097);
    assert(-1000000000000 <= era <= 1000000000000) by (nonlinear_arith)
        requires
            era == (if z >= 0 { z as int } else { z - 146096 }) / 146097,
            -106751991167301 <= z <= 106751991887300;
    let doe: i64 = z - era * 146097;
    assert(0 <= doe < 2 * 146097) by (nonlinear_arith)
        requires
            era == (if z >= 0 { z as int } else { z - 146096 }) / 146097,
            doe == z - era * 146097;
    let yoe: i64 = (doe - doe / 1460 + doe / 36524 - doe / 146096) / 365;
    assert(0 <= yoe <= 800) by (nonlinear_arith)
        requires
            0 <= doe < 2 * 146097,
            yoe == (doe - doe / 1460 + doe / 36524 - doe / 146096) / 365;
    let y: i64 = yoe + era * 400;
    let doy: i64 = doe - (365 * yoe + fdiv(yoe, 4) - fdiv(yoe, 100));
    assert(0 <= yoe / 4 <= 200 && 0 <= yoe / 100 <= 8);
    assert(-300000 <= doy <= 300000);
    let mp: i64 = fdiv(5 * doy + 2, 153);
    assert(-10000 <= mp <= 10000);
    let d: i64 = doy - fdiv(153 * mp + 2, 5) + 1;
    let m: i64 = if mp < 10 { mp + 3 } else { mp - 9 };
    let yy: i64 = if m <= 2 { y + 1 } else { y };
    (yy, m, d)
}

/// Format unix seconds (UTC) as `yyyy-MM-dd HH:mm:ss`.
pub fn format_unix_utc(secs: i64) -> (r: String)
    ensures
        r@ == utc_text(secs as int),
{
    let day: i64 = fdiv(secs, 86400);
    assert(-106751991167301 <= day <= 106751991167300) by (nonlinear_arith)
        requires day == secs as int / 86400;
    let (yy, m, d) = civil(day);
    let tod: i64 = fmod(secs, 86400);
    let mut out = String::new();
    push_padded(&mut out, yy, 4);
    push_char(&mut out, '-');
    push_padded(&mut out, m, 2);
    push_char(&mut out, '-');
    push_padded(&mut out, d, 2);
    push_char(&mut out, ' ');
    push_padded(&mut out, tod / 3600, 2);
    push_char(&mut out, ':');
    push_padded(&mut out, (tod % 3600) / 60, 2);
    push_char(&mut out, ':');
    push_padded(&mut out, tod % 60, 2);
    assert(out@ =~= utc_text(secs as int));
    out
}

/// Seconds since the unix epoch, read from the system clock (`UNIX_EPOCH.elapsed()`; 0 when the
/// clock reads before the epoch). Nothing is promised of the value: it is the time.
#[verifier::external_body]
fn unix_now_secs() -> (r: i64) {
    match std::time::UNIX_EPOCH.elapsed() {
        Ok(d) => d.as_secs() as i64,
        Err(_) => 0,
    }
}

/// The current UTC time as `yyyy-MM-dd HH:mm:ss`.
pub fn utc_time_str() -> (r: String)
    ensures
        exists|t: i64| r@ == utc_text(t as int),
{
    let t = unix_now_secs();
    format_unix_utc(t)
}

/// The engine's current time text (UTC).
pub fn current_time_str() -> (r: String)
    ensures
        exists|t: i64| r@ == utc_text(t as int),
{
    utc_time_str()
}

} // verus!
