//! Masks, truncation and clock/calendar formatting.

use vstd::prelude::*;

use crate::calendar::{
    civil_from_days, days_from_civil, doy_of, lemma_era_ranges, lemma_year_ranges, mp_of, yoe_of,
};
use crate::numfmt::{dec, dec_pad, push_dec, push_pad2};
use crate::text::{
    chars_of, find_char, find_from, has_char, lemma_find_from, push_char, push_str,
    string_from_chars, string_from_range,
};

verus! {

/// `s`, or `"*"` when `s` is empty.
pub open spec fn or_star(s: Seq<char>) -> Seq<char> {
    if s.len() == 0 {
        seq!['*']
    } else {
        s
    }
}

/// Whether `s` already is a full `nick!user@host` mask: a `!` with an `@`
/// somewhere after it.
pub open spec fn is_full_mask(s: Seq<char>) -> bool {
    match find_from(s, '!', 0) {
        Some(b) => find_from(s, '@', b + 1).is_some(),
        None => false,
    }
}

/// The mask that `nick_to_mask` builds: the text before the first `@` is
/// split at its first `!` into nick and user, the rest is the host, and each
/// missing or empty part becomes `*`.
pub open spec fn spec_nick_to_mask(a: Seq<char>) -> Seq<char> {
    if is_full_mask(a) {
        a
    } else {
        let (nu, host) = match find_from(a, '@', 0) {
            Some(x) => (a.subrange(0, x), a.subrange(x + 1, a.len() as int)),
            None => (a, seq!['*']),
        };
        let (nick, user) = match find_from(nu, '!', 0) {
            Some(y) => (nu.subrange(0, y), nu.subrange(y + 1, nu.len() as int)),
            None => (nu, seq!['*']),
        };
        or_star(nick) + seq!['!'] + or_star(user) + seq!['@'] + or_star(host)
    }
}

fn push_or_star(s: &mut String, v: &Vec<char>, from: usize, to: usize)
    requires
        from <= to <= v.len(),
    ensures
        final(s)@ == old(s)@ + or_star(v@.subrange(from as int, to as int)),
{
    if from == to {
        push_char(s, '*');
    } else {
        let part = string_from_range(v, from, to);
        push_str(s, part.as_str());
    }
}

/// Convert a nick or partial mask into a complete `nick!user@host` ban mask.
/// A full mask (a '!' followed later by an '@') is returned unchanged; partial
/// forms like "nick", "nick@host", or "nick!user" are completed with `*`
/// wildcards so the result is always a valid mask.
pub fn nick_to_mask(arg: &str) -> (r: String)
    ensures
        r@ == spec_nick_to_mask(arg@),
{
    let a = chars_of(arg);
    proof {
        lemma_find_from(a@, '!', 0);
    }
    if let Some(bang) = find_char(&a, '!', 0) {
        if find_char(&a, '@', bang + 1).is_some() {
            return string_from_chars(&a);
        }
    }
    let mut out = String::new();
    let at = find_char(&a, '@', 0);
    let nu_end: usize = match at {
        Some(x) => x,
        None => a.len(),
    };
    proof {
        lemma_find_from(a@, '@', 0);
    }
    // the first '!' in a[..nu_end]
    let bang = find_char(&a, '!', 0);
    let ghost nu = a@.subrange(0, nu_end as int);
    proof {
        lemma_find_from(a@, '!', 0);
        lemma_find_from(nu, '!', 0);
        lemma_find_prefix(a@, '!', nu_end as int);
    }
    match bang {
        Some(y) if y < nu_end => {
            push_or_star(&mut out, &a, 0, y);
            push_char(&mut out, '!');
            push_or_star(&mut out, &a, y + 1, nu_end);
            assert(nu.subrange(0, y as int) =~= a@.subrange(0, y as int));
            assert(nu.subrange(y + 1, nu.len() as int) =~= a@.subrange(y + 1, nu_end as int));
        }
        _ => {
            push_or_star(&mut out, &a, 0, nu_end);
            push_char(&mut out, '!');
            push_char(&mut out, '*');
        }
    }
    push_char(&mut out, '@');
    match at {
        Some(x) => {
            push_or_star(&mut out, &a, x + 1, a.len());
        }
        None => {
            push_char(&mut out, '*');
            assert(a@.subrange(0, a@.len() as int) =~= a@);
        }
    }
    out
}

/// The first `c` in a prefix of `s` is the first `c` in `s`, if it lies in
/// the prefix.
proof fn lemma_find_prefix(s: Seq<char>, c: char, n: int)
    requires
        0 <= n <= s.len(),
    ensures
        match find_from(s, c, 0) {
            Some(k) => if k < n {
                find_from(s.subrange(0, n), c, 0) == Some(k)
            } else {
                find_from(s.subrange(0, n), c, 0).is_none()
            },
            None => find_from(s.subrange(0, n), c, 0).is_none(),
        },
{
    let t = s.subrange(0, n);
    assert forall|m: int| 0 <= m < n implies t[m] == s[m] by {}
    lemma_find_from(s, c, 0);
    lemma_find_from(t, c, 0);
    match find_from(s, c, 0) {
        Some(k) => {
            if k < n {
                assert(t[k] == c);
                match find_from(t, c, 0) {
                    Some(k2) => {
                        if k2 < k {
                            assert(s[k2] == c);
                        }
                    }
                    None => {}
                }
            } else {
                match find_from(t, c, 0) {
                    Some(k2) => {
                        assert(s[k2] == c);
                    }
                    None => {}
                }
            }
        }
        None => {
            match find_from(t, c, 0) {
                Some(k2) => {
                    assert(s[k2] == c);
                }
                None => {}
            }
        }
    }
}

/// Every mask produced by `nick_to_mask` is a full `nick!user@host` mask, so
/// completing it again changes nothing.
pub proof fn lemma_nick_to_mask_is_full(a: Seq<char>)
    ensures
        is_full_mask(spec_nick_to_mask(a)),
        spec_nick_to_mask(spec_nick_to_mask(a)) == spec_nick_to_mask(a),
{
    if !is_full_mask(a) {
        lemma_find_from(a, '@', 0);
        let (nu, host) = match find_from(a, '@', 0) {
            Some(x) => (a.subrange(0, x), a.subrange(x + 1, a.len() as int)),
            None => (a, seq!['*']),
        };
        lemma_find_from(nu, '!', 0);
        let (nick, user) = match find_from(nu, '!', 0) {
            Some(y) => (nu.subrange(0, y), nu.subrange(y + 1, nu.len() as int)),
            None => (nu, seq!['*']),
        };
        let n = or_star(nick);
        let r = spec_nick_to_mask(a);
        assert(forall|k: int| 0 <= k < n.len() ==> n[k] != '!');
        assert(r[n.len() as int] == '!');
        lemma_find_from(r, '!', 0);
        assert(find_from(r, '!', 0) == Some(n.len() as int)) by {
            assert forall|k: int| 0 <= k < n.len() implies r[k] != '!' by {
                assert(r[k] == n[k]);
            }
        }
        let u = or_star(user);
        let at: int = (n.len() + 1 + u.len()) as int;
        assert(r[at] == '@');
        lemma_find_from(r, '@', n.len() as int + 1);
    }
}

/// `s` cut to its first `max` characters followed by `"..."` when it is
/// longer than `max` characters.
pub open spec fn spec_truncate_chars(s: Seq<char>, max: nat) -> Seq<char> {
    if s.len() > max {
        s.subrange(0, max as int) + seq!['.', '.', '.']
    } else {
        s
    }
}

/// Truncate a string to N characters, adding "..." if truncated.
pub fn truncate_chars(s: &str, max_chars: usize) -> (r: String)
    ensures
        r@ == spec_truncate_chars(s@, max_chars as nat),
{
    let v = chars_of(s);
    if v.len() > max_chars {
        let mut r = string_from_range(&v, 0, max_chars);
        push_str(&mut r, "...");
        proof {
            reveal_strlit("...");
        }
        r
    } else {
        string_from_chars(&v)
    }
}

/// The day count a `u64` stands for when read as an `i64`: counts past
/// `i64::MAX` wrap to negative days before 1970.
pub open spec fn signed_days(days: u64) -> int {
    if days <= 9223372036854775807 { days as int } else { days as int - 18446744073709551616 }
}

/// The parts of a day of era: year of era, day of year, month index and
/// day of month, all in range.
proof fn lemma_day_of_era_parts(doe: int)
    requires
        0 <= doe < 146097,
    ensures
        0 <= yoe_of(doe) < 400,
        0 <= doy_of(doe) <= 365,
        0 <= mp_of(doy_of(doe)) <= 11,
        1 <= doy_of(doe) - (153 * mp_of(doy_of(doe)) + 2) / 5 + 1 <= 31,
{
    lemma_era_ranges(doe as u32);
    lemma_year_ranges(doy_of(doe) as u32);
}

/// Convert days since Unix epoch (1970-01-01) to (year, month, day). The
/// count is read as an `i64` (see `signed_days`); the year is reported
/// modulo 2^32. Counts whose shift to year 0 would overflow an `i64` are
/// left out.
pub fn days_to_ymd(days: u64) -> (r: (u32, u32, u32))
    requires
        !(9223372036854775807 - 719468 < days <= 9223372036854775807),
    ensures
        r.0 as int == civil_from_days(signed_days(days)).0 % 4294967296,
        r.1 as int == civil_from_days(signed_days(days)).1,
        r.2 as int == civil_from_days(signed_days(days)).2,
        1 <= r.1 <= 12,
        1 <= r.2 <= 31,
{
    let z: i128 = if days <= 9223372036854775807 {
        days as i128 + 719468
    } else {
        days as i128 - 18446744073709551616 + 719468
    };
    assert(z == signed_days(days) + 719468);
    let era: i128 = if z >= 0 {
        ((z as u128) / 146097) as i128
    } else {
        let nz: u128 = (0 - z) as u128;
        let q: u128 = (nz + 146096) / 146097;
        proof {
            assert(-(q as int) == (z as int) / 146097) by (nonlinear_arith)
                requires nz == -z, z < 0, q == (nz + 146096) / 146097;
        }
        0 - q as i128
    };
    assert(era == z / 146097);
    proof {
        assert(0 <= z - era * 146097 < 146097) by (nonlinear_arith)
            requires era == z / 146097;
        assert(-70000000000000 <= era <= 70000000000000) by (nonlinear_arith)
            requires era == z / 146097, -9300000000000000000 <= z <= 9300000000000000000;
    }
    let doe: u64 = (z - era * 146097) as u64;
    proof {
        lemma_day_of_era_parts(doe as int);
    }
    let yoe: u64 = (doe - doe / 1460 + doe / 36524 - doe / 146096) / 365;
    let doy: u64 = doe - (365 * yoe + yoe / 4 - yoe / 100);
    let mp: u64 = (5 * doy + 2) / 153;
    let d: u64 = doy - (153 * mp + 2) / 5 + 1;
    let m: u64 = if mp < 10 { mp + 3 } else { mp - 9 };
    let y: i128 = yoe as i128 + era * 400;
    let y: i128 = if m <= 2 { y + 1 } else { y };
    let shifted: u128 = (y + 288230376151711744) as u128;
    let low: u32 = (shifted % 4294967296) as u32;
    proof {
        assert(shifted as int % 4294967296 == y as int % 4294967296) by (nonlinear_arith)
            requires shifted == y + 288230376151711744;
    }
    (low, m as u32, d as u32)
}

/// Whether every intermediate value of `ymd_to_days` fits in an `i64`.
pub open spec fn ymd_to_days_fits(y: int, m: int, d: int) -> bool {
    let y1 = if m <= 2 { y - 1 } else { y };
    let era = y1 / 400;
    let yoe = y1 - era * 400;
    let mp = if m > 2 { m - 3 } else { m + 9 };
    let doy = (153 * mp + 2) / 5 + d - 1;
    let doe = yoe * 365 + yoe / 4 - yoe / 100 + doy;
    &&& y1 - 399 >= -9223372036854775808
    &&& -9223372036854775808 <= era * 146097 <= 9223372036854775807
    &&& -9223372036854775808 <= era * 146097 + doe <= 9223372036854775807
    &&& -9223372036854775808 <= era * 146097 + doe - 719468 <= 9223372036854775807
}

/// Convert (year, month, day) to days since Unix epoch (inverse of `days_to_ymd`).
pub fn ymd_to_days(y: i64, m: u32, d: u32) -> (r: i64)
    requires
        ymd_to_days_fits(y as int, m as int, d as int),
    ensures
        r as int == days_from_civil(y as int, m as int, d as int),
{
    let y1: i64 = if m <= 2 { y - 1 } else { y };
    // floor division by 400 for either sign
    let era: i64 = if y1 >= 0 {
        y1 / 400
    } else {
        let neg: u64 = (0i128 - y1 as i128) as u64;
        let q: u64 = (neg + 399) / 400;
        proof {
            assert(-(q as int) == (y1 as int) / 400) by (nonlinear_arith)
                requires y1 < 0, neg == -y1, q == (neg + 399) / 400;
        }
        0 - (q as i64)
    };
    proof {
        assert(0 <= y1 - era * 400 < 400) by (nonlinear_arith)
            requires era == (y1 as int) / 400;
    }
    let yoe: i64 = y1 - era * 400;
    let mp: i64 = if m > 2 { (m - 3) as i64 } else { (m + 9) as i64 };
    let doy: i64 = (153 * mp + 2) / 5 + d as i64 - 1;
    let doe: i64 = yoe * 365 + yoe / 4 - yoe / 100 + doy;
    era * 146097 + doe - 719468
}

/// (month, day, hours, minutes, seconds) of an epoch timestamp in UTC.
pub open spec fn utc_parts(secs: nat) -> (int, int, int, int, int) {
    let c = civil_from_days(secs as int / 86400);
    (c.1, c.2, ((secs % 86400) / 3600) as int, ((secs % 3600) / 60) as int, (secs % 60) as int)
}

/// Decompose an epoch timestamp as UTC into (month, day, hours, minutes, seconds).
pub fn epoch_to_utc_parts(secs: u64) -> (r: (u64, u64, u64, u64, u64))
    ensures
        r.0 as int == utc_parts(secs as nat).0,
        r.1 as int == utc_parts(secs as nat).1,
        r.2 as int == utc_parts(secs as nat).2,
        r.3 as int == utc_parts(secs as nat).3,
        r.4 as int == utc_parts(secs as nat).4,
{
    let days = secs / 86400;
    let (_, m, d) = days_to_ymd(days);
    (m as u64, d as u64, (secs % 86400) / 3600, (secs % 3600) / 60, secs % 60)
}

/// The clock text for a timestamp format: "long" = `[HH:MM:SS]`,
/// "full" = `[MM-DD HH:MM]`, anything else ("short") = `[HH:MM]`.
pub open spec fn clock_text(parts: (int, int, int, int, int), format: Seq<char>) -> Seq<char> {
    let (month, day, h, m, s) = parts;
    if format == seq!['l', 'o', 'n', 'g'] {
        seq!['['] + dec_pad(h as nat, 2) + seq![':'] + dec_pad(m as nat, 2) + seq![':'] + dec_pad(s as nat, 2) + seq![']']
    } else if format == seq!['f', 'u', 'l', 'l'] {
        seq!['['] + dec_pad(month as nat, 2) + seq!['-'] + dec_pad(day as nat, 2) + seq![' '] + dec_pad(h as nat, 2) + seq![':'] + dec_pad(m as nat, 2) + seq![']']
    } else {
        seq!['['] + dec_pad(h as nat, 2) + seq![':'] + dec_pad(m as nat, 2) + seq![']']
    }
}

fn is_literal(format: &str, word: &str) -> (r: bool)
    ensures
        r == (format@ == word@),
{
    let a = chars_of(format);
    let b = chars_of(word);
    crate::text::chars_eq(&a, &b)
}

/// Render clock parts in the user's timestamp format.
pub fn format_clock_parts(parts: (u64, u64, u64, u64, u64), format: &str) -> (r: String)
    ensures
        r@ == clock_text((parts.0 as int, parts.1 as int, parts.2 as int, parts.3 as int, parts.4 as int), format@),
{
    let (month, day, h, m, s) = parts;
    let mut out = String::new();
    proof {
        reveal_strlit("long");
        reveal_strlit("full");
        assert("long"@ =~= seq!['l', 'o', 'n', 'g']);
        assert("full"@ =~= seq!['f', 'u', 'l', 'l']);
    }
    if is_literal(format, "long") {
        push_char(&mut out, '[');
        push_pad2(&mut out, h);
        push_char(&mut out, ':');
        push_pad2(&mut out, m);
        push_char(&mut out, ':');
        push_pad2(&mut out, s);
        push_char(&mut out, ']');
    } else if is_literal(format, "full") {
        push_char(&mut out, '[');
        push_pad2(&mut out, month);
        push_char(&mut out, '-');
        push_pad2(&mut out, day);
        push_char(&mut out, ' ');
        push_pad2(&mut out, h);
        push_char(&mut out, ':');
        push_pad2(&mut out, m);
        push_char(&mut out, ']');
    } else {
        push_char(&mut out, '[');
        push_pad2(&mut out, h);
        push_char(&mut out, ':');
        push_pad2(&mut out, m);
        push_char(&mut out, ']');
    }
    out
}

/// `secs` shifted by a signed offset, saturating at the ends of `u64`
/// (`u64::saturating_add_signed`).
pub open spec fn shift_saturating(secs: int, offset: int) -> int {
    if secs + offset < 0 {
        0
    } else if secs + offset > 18446744073709551615 {
        18446744073709551615
    } else {
        secs + offset
    }
}

fn saturating_add_signed(secs: u64, offset: i64) -> (r: u64)
    ensures
        r as int == shift_saturating(secs as int, offset as int),
{
    if offset >= 0 {
        let o = offset as u64;
        if secs > u64::MAX - o {
            u64::MAX
        } else {
            secs + o
        }
    } else {
        let o: u64 = (0i128 - offset as i128) as u64;
        if secs < o {
            0
        } else {
            secs - o
        }
    }
}

/// Format an epoch timestamp as local time, given the local offset from UTC
/// in seconds, in the user's timestamp format. Used for IRCv3 server-time so
/// replayed messages line up with the local clock.
pub fn epoch_time_formatted(secs: u64, utc_offset_secs: i64, format: &str) -> (r: String)
    ensures
        r@ == clock_text(utc_parts(shift_saturating(secs as int, utc_offset_secs as int) as nat), format@),
{
    let local = saturating_add_signed(secs, utc_offset_secs);
    format_clock_parts(epoch_to_utc_parts(local), format)
}

/// The current Unix time in whole seconds (`SystemTime::now()` since
/// `UNIX_EPOCH`, or 0 if the clock is before the epoch).
#[verifier::external_body]
pub(crate) fn unix_now_secs() -> u64 {
    std::time::SystemTime::now().duration_since(std::time::UNIX_EPOCH).unwrap_or_default().as_secs()
}

/// Current local time formatted according to preference, given the local
/// offset from UTC: "short" = [HH:MM], "long" = [HH:MM:SS], "full" = [MM-DD HH:MM].
pub fn current_time_formatted(format: &str, utc_offset_secs: i64) -> (r: String)
    ensures
        exists|now: nat| r@ == clock_text(utc_parts(shift_saturating(now as int, utc_offset_secs as int) as nat), format@),
{
    let now = unix_now_secs();
    let r = epoch_time_formatted(now, utc_offset_secs, format);
    assert(r@ == clock_text(utc_parts(shift_saturating(now as nat as int, utc_offset_secs as int) as nat), format@));
    r
}

/// Three-letter English month name for 1..=12, "???" otherwise.
pub open spec fn month_abbrev(m: int) -> Seq<char> {
    if m == 1 { seq!['J', 'a', 'n'] }
    else if m == 2 { seq!['F', 'e', 'b'] }
    else if m == 3 { seq!['M', 'a', 'r'] }
    else if m == 4 { seq!['A', 'p', 'r'] }
    else if m == 5 { seq!['M', 'a', 'y'] }
    else if m == 6 { seq!['J', 'u', 'n'] }
    else if m == 7 { seq!['J', 'u', 'l'] }
    else if m == 8 { seq!['A', 'u', 'g'] }
    else if m == 9 { seq!['S', 'e', 'p'] }
    else if m == 10 { seq!['O', 'c', 't'] }
    else if m == 11 { seq!['N', 'o', 'v'] }
    else if m == 12 { seq!['D', 'e', 'c'] }
    else { seq!['?', '?', '?'] }
}

/// The month number an English three-letter abbreviation stands for
/// (0 when it is none of them).
spec fn month_of_abbrev(a: Seq<char>) -> int {
    if a.len() != 3 { 0 }
    else if a[0] == 'J' && a[1] == 'a' && a[2] == 'n' { 1 }
    else if a[0] == 'F' && a[1] == 'e' && a[2] == 'b' { 2 }
    else if a[0] == 'M' && a[1] == 'a' && a[2] == 'r' { 3 }
    else if a[0] == 'A' && a[1] == 'p' && a[2] == 'r' { 4 }
    else if a[0] == 'M' && a[1] == 'a' && a[2] == 'y' { 5 }
    else if a[0] == 'J' && a[1] == 'u' && a[2] == 'n' { 6 }
    else if a[0] == 'J' && a[1] == 'u' && a[2] == 'l' { 7 }
    else if a[0] == 'A' && a[1] == 'u' && a[2] == 'g' { 8 }
    else if a[0] == 'S' && a[1] == 'e' && a[2] == 'p' { 9 }
    else if a[0] == 'O' && a[1] == 'c' && a[2] == 't' { 10 }
    else if a[0] == 'N' && a[1] == 'o' && a[2] == 'v' { 11 }
    else if a[0] == 'D' && a[1] == 'e' && a[2] == 'c' { 12 }
    else { 0 }
}

/// Each month 1-12 is named by its own English abbreviation: three
/// letters, a capital then two lower-case ones, no two months share a
/// name, and month `m` is the `m`-th name of the calendar's list.
pub proof fn lemma_month_abbrev_names_each_month(m1: int, m2: int)
    requires
        1 <= m1 <= 12,
        1 <= m2 <= 12,
    ensures
        month_abbrev(m1).len() == 3,
        'A' <= month_abbrev(m1)[0] <= 'Z',
        'a' <= month_abbrev(m1)[1] <= 'z',
        'a' <= month_abbrev(m1)[2] <= 'z',
        m1 != m2 ==> month_abbrev(m1) != month_abbrev(m2),
        month_abbrev(m1) == "JanFebMarAprMayJunJulAugSepOctNovDec"@.subrange(3 * (m1 - 1), 3 * m1),
{
    reveal_strlit("JanFebMarAprMayJunJulAugSepOctNovDec");
    let all = "JanFebMarAprMayJunJulAugSepOctNovDec"@;
    assert(month_abbrev(m1) =~= all.subrange(3 * (m1 - 1), 3 * m1)) by {
        if m1 == 1 { assert(month_abbrev(1) =~= all.subrange(0, 3)); }
        else if m1 == 2 { assert(month_abbrev(2) =~= all.subrange(3, 6)); }
        else if m1 == 3 { assert(month_abbrev(3) =~= all.subrange(6, 9)); }
        else if m1 == 4 { assert(month_abbrev(4) =~= all.subrange(9, 12)); }
        else if m1 == 5 { assert(month_abbrev(5) =~= all.subrange(12, 15)); }
        else if m1 == 6 { assert(month_abbrev(6) =~= all.subrange(15, 18)); }
        else if m1 == 7 { assert(month_abbrev(7) =~= all.subrange(18, 21)); }
        else if m1 == 8 { assert(month_abbrev(8) =~= all.subrange(21, 24)); }
        else if m1 == 9 { assert(month_abbrev(9) =~= all.subrange(24, 27)); }
        else if m1 == 10 { assert(month_abbrev(10) =~= all.subrange(27, 30)); }
        else if m1 == 11 { assert(month_abbrev(11) =~= all.subrange(30, 33)); }
        else { assert(month_abbrev(12) =~= all.subrange(33, 36)); }
    }
    assert(month_of_abbrev(month_abbrev(m1)) == m1);
    assert(month_of_abbrev(month_abbrev(m2)) == m2);
}

pub fn push_month_abbrev(s: &mut String, m: u32)
    ensures
        final(s)@ == old(s)@ + month_abbrev(m as int),
{
    let (a, b, c) = if m == 1 { ('J', 'a', 'n') }
        else if m == 2 { ('F', 'e', 'b') }
        else if m == 3 { ('M', 'a', 'r') }
        else if m == 4 { ('A', 'p', 'r') }
        else if m == 5 { ('M', 'a', 'y') }
        else if m == 6 { ('J', 'u', 'n') }
        else if m == 7 { ('J', 'u', 'l') }
        else if m == 8 { ('A', 'u', 'g') }
        else if m == 9 { ('S', 'e', 'p') }
        else if m == 10 { ('O', 'c', 't') }
        else if m == 11 { ('N', 'o', 'v') }
        else if m == 12 { ('D', 'e', 'c') }
        else { ('?', '?', '?') };
    push_char(s, a);
    push_char(s, b);
    push_char(s, c);
    assert(final(s)@ =~= old(s)@ + month_abbrev(m as int));
}

/// The text of `format_timestamp(ts)` for `ts > 0`: "Mon D, YYYY HH:MM UTC".
pub open spec fn timestamp_text(ts: nat) -> Seq<char> {
    let c = civil_from_days(ts as int / 86400);
    let t = ts % 86400;
    month_abbrev(c.1) + seq![' '] + dec(c.2 as nat) + seq![',', ' '] + dec((c.0 % 4294967296) as nat)
        + seq![' '] + dec_pad((t / 3600) as nat, 2) + seq![':'] + dec_pad(((t % 3600) / 60) as nat, 2)
        + seq![' ', 'U', 'T', 'C']
}

/// Format a Unix timestamp as a human-readable string ("Unknown" for 0).
pub fn format_timestamp(ts: u64) -> (r: String)
    ensures
        ts == 0 ==> r@ == seq!['U', 'n', 'k', 'n', 'o', 'w', 'n'],
        ts != 0 ==> r@ == timestamp_text(ts as nat),
{
    proof {
        reveal_strlit("Unknown");
        reveal_strlit(" UTC");
    }
    if ts == 0 {
        return crate::text::to_string("Unknown");
    }
    let days = ts / 86400;
    let time_secs = ts % 86400;
    let hours = time_secs / 3600;
    let minutes = (time_secs % 3600) / 60;
    let (year, month, day) = days_to_ymd(days);
    let mut out = String::new();
    push_month_abbrev(&mut out, month);
    push_char(&mut out, ' ');
    push_dec(&mut out, day as u64);
    push_char(&mut out, ',');
    push_char(&mut out, ' ');
    push_dec(&mut out, year as u64);
    push_char(&mut out, ' ');
    push_pad2(&mut out, hours);
    push_char(&mut out, ':');
    push_pad2(&mut out, minutes);
    push_str(&mut out, " UTC");
    assert(out@ =~= timestamp_text(ts as nat));
    out
}

} // verus!
