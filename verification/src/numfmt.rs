//! Decimal and hexadecimal rendering of unsigned integers.

use vstd::prelude::*;

use crate::text::push_char;

verus! {

/// The ASCII digit for `d < 16` (lower-case hex letters above 9).
pub open spec fn digit_char(d: nat) -> char {
    if d < 10 {
        (('0' as u32) + d) as char
    } else {
        (('a' as u32) + (d - 10)) as char
    }
}

/// Decimal digits of `n` without leading zeros (`format!("{}", n)`).
pub open spec fn dec(n: nat) -> Seq<char>
    decreases n,
{
    if n < 10 {
        seq![digit_char(n)]
    } else {
        dec(n / 10).push(digit_char(n % 10))
    }
}

/// `n` zero-padded to at least `w` characters (`format!("{:0w$}", n)`).
pub open spec fn dec_pad(n: nat, w: nat) -> Seq<char> {
    if dec(n).len() >= w {
        dec(n)
    } else {
        Seq::new((w - dec(n).len()) as nat, |i: int| '0') + dec(n)
    }
}

/// `n` right-aligned with spaces to at least `w` characters (`format!("{:w$}", n)`).
pub open spec fn dec_space(n: nat, w: nat) -> Seq<char> {
    if dec(n).len() >= w {
        dec(n)
    } else {
        Seq::new((w - dec(n).len()) as nat, |i: int| ' ') + dec(n)
    }
}

/// Exactly `w` lower-case hex digits of `n mod 16^w` (`format!("{:0w$x}", n)`
/// for `n < 16^w`).
pub open spec fn hex_fixed(n: nat, w: nat) -> Seq<char>
    decreases w,
{
    if w == 0 {
        Seq::empty()
    } else {
        hex_fixed(n / 16, (w - 1) as nat).push(digit_char(n % 16))
    }
}

fn digit(d: u64) -> (c: char)
    requires
        d < 16,
    ensures
        c == digit_char(d as nat),
{
    if d < 10 {
        ((d as u8) + 48) as char
    } else {
        ((d as u8) + 87) as char
    }
}

/// Decimal digits of `n`.
pub fn dec_chars(n: u64) -> (v: Vec<char>)
    ensures
        v@ == dec(n as nat),
        1 <= v@.len(),
    decreases n,
{
    if n < 10 {
        let mut v: Vec<char> = Vec::new();
        v.push(digit(n));
        v
    } else {
        let mut v = dec_chars(n / 10);
        proof {
            lemma_dec_len(n as nat);
        }
        v.push(digit(n % 10));
        v
    }
}

pub proof fn lemma_dec_len(n: nat)
    ensures
        1 <= dec(n).len(),
        n < 10 ==> dec(n).len() == 1,
        10 <= n < 100 ==> dec(n).len() == 2,
    decreases n,
{
    if n >= 10 {
        lemma_dec_len(n / 10);
    }
}

/// Appends `format!("{}", n)`.
pub fn push_dec(s: &mut String, n: u64)
    ensures
        final(s)@ == old(s)@ + dec(n as nat),
{
    let v = dec_chars(n);
    push_chars(s, &v);
}

/// Appends `n` left-padded with `fill` to at least `w` characters.
fn push_padded(s: &mut String, n: u64, w: usize, fill: char)
    requires
        w <= 64,
    ensures
        fill == '0' ==> final(s)@ == old(s)@ + dec_pad(n as nat, w as nat),
        fill == ' ' ==> final(s)@ == old(s)@ + dec_space(n as nat, w as nat),
{
    let v = dec_chars(n);
    let mut k: usize = v.len();
    while k < w
        invariant
            v@.len() <= k <= w || (k == v@.len() && k >= w),
            s@ == old(s)@ + Seq::new((k - v@.len()) as nat, |i: int| fill),
        decreases w - k,
    {
        push_char(s, fill);
        k += 1;
        assert(s@ =~= old(s)@ + Seq::new((k - v@.len()) as nat, |i: int| fill));
    }
    let ghost before = s@;
    let mut i: usize = 0;
    while i < v.len()
        invariant
            i <= v.len(),
            s@ == before + v@.subrange(0, i as int),
        decreases v.len() - i,
    {
        push_char(s, v[i]);
        i += 1;
        assert(s@ =~= before + v@.subrange(0, i as int));
    }
    assert(v@.subrange(0, v@.len() as int) =~= v@);
    if v.len() >= w {
        assert(Seq::new((k - v@.len()) as nat, |i: int| fill) =~= Seq::<char>::empty());
        assert(s@ =~= old(s)@ + dec(n as nat));
    } else {
        assert(s@ =~= old(s)@ + (Seq::new((w - v@.len()) as nat, |i: int| fill) + v@));
    }
}

/// Appends `format!("{:02}", n)`.
pub fn push_pad2(s: &mut String, n: u64)
    ensures
        final(s)@ == old(s)@ + dec_pad(n as nat, 2),
{
    push_padded(s, n, 2, '0');
}

/// Appends `format!("{:2}", n)`.
pub fn push_space2(s: &mut String, n: u64)
    ensures
        final(s)@ == old(s)@ + dec_space(n as nat, 2),
{
    push_padded(s, n, 2, ' ');
}

/// Exactly `w` lower-case hex digits of `n mod 16^w`.
pub fn hex_fixed_chars(n: u64, w: usize) -> (v: Vec<char>)
    ensures
        v@ == hex_fixed(n as nat, w as nat),
    decreases w,
{
    if w == 0 {
        Vec::new()
    } else {
        let mut v = hex_fixed_chars(n / 16, w - 1);
        v.push(digit(n % 16));
        v
    }
}

/// Appends the characters of `v`.
pub fn push_chars(s: &mut String, v: &Vec<char>)
    ensures
        final(s)@ == old(s)@ + v@,
{
    let mut i: usize = 0;
    while i < v.len()
        invariant
            i <= v.len(),
            s@ == old(s)@ + v@.subrange(0, i as int),
        decreases v.len() - i,
    {
        push_char(s, v[i]);
        i += 1;
        assert(s@ =~= old(s)@ + v@.subrange(0, i as int));
    }
    assert(v@.subrange(0, v@.len() as int) =~= v@);
}


/// Decimal value of the digits `s[a..b]` (all digits).
pub open spec fn dec_value(s: Seq<char>, a: int, b: int) -> nat
    decreases b - a,
{
    if b <= a {
        0
    } else {
        dec_value(s, a, b - 1) * 10 + ((s[b - 1] as u32) - ('0' as u32)) as nat
    }
}

/// Rust's `str::parse` for an unsigned integer type whose maximum is `max`:
/// an optional `+`, then one or more ASCII digits, with a value of at most
/// `max`.
pub open spec fn parse_unsigned(s: Seq<char>, max: nat) -> Option<nat> {
    let start: int = if s.len() > 0 && s[0] == '+' { 1 } else { 0 };
    if s.len() <= start {
        None
    } else if exists|k: int| start <= k < s.len() && !('0' <= #[trigger] s[k] <= '9') {
        None
    } else if dec_value(s, start, s.len() as int) > max {
        None
    } else {
        Some(dec_value(s, start, s.len() as int))
    }
}

proof fn lemma_dec_value_mono(s: Seq<char>, a: int, b: int)
    requires
        a <= b,
        forall|k: int| a <= k < b + 1 && k < s.len() ==> '0' <= #[trigger] s[k] <= '9',
        b < s.len(),
    ensures
        dec_value(s, a, b + 1) >= dec_value(s, a, b),
{
}

/// `str::parse::<u64>` of `v[from..to]`, limited to values `<= max`.
pub fn parse_unsigned_range(v: &Vec<char>, from: usize, to: usize, max: u64) -> (r: Option<u64>)
    requires
        from <= to <= v.len(),
    ensures
        match r {
            Some(n) => parse_unsigned(v@.subrange(from as int, to as int), max as nat) == Some(n as nat),
            None => parse_unsigned(v@.subrange(from as int, to as int), max as nat).is_none(),
        },
{
    let ghost s = v@.subrange(from as int, to as int);
    let start: usize = if to > from && v[from] == '+' { from + 1 } else { from };
    if to <= start {
        return None;
    }
    let mut val: u64 = 0;
    let mut i: usize = start;
    while i < to
        invariant
            from <= start <= i <= to <= v.len(),
            s == v@.subrange(from as int, to as int),
            start - from == (if s.len() > 0 && s[0] == '+' { 1int } else { 0int }),
            forall|k: int| start - from <= k < i - from ==> '0' <= #[trigger] s[k] <= '9',
            val as nat == dec_value(s, start - from, i - from),
            val <= max,
        decreases to - i,
    {
        let c = v[i];
        if !('0' <= c && c <= '9') {
            assert(!('0' <= s[i - from] <= '9'));
            return None;
        }
        let d: u64 = ((c as u32) - 48) as u64;
        assert(dec_value(s, start - from, i + 1 - from) == dec_value(s, start - from, i - from) * 10 + d);
        if d > max || val > (max - d) / 10 {
            // the value already exceeds `max`; any further digits only grow it
            proof {
                assert(dec_value(s, start - from, i + 1 - from) > max) by (nonlinear_arith)
                    requires d > max || val > (max - d) / 10, dec_value(s, start - from, i + 1 - from) == val * 10 + d, val >= 0;
                lemma_dec_value_grows(s, start - from, i + 1 - from, max as nat);
            }
            return None;
        }
        proof {
            assert(val * 10 + d <= max) by (nonlinear_arith)
                requires val <= (max - d) / 10, d <= max;
        }
        val = val * 10 + d;
        i += 1;
    }
    Some(val)
}


/// Decimal digits of a `u128`.
pub fn dec_chars_u128(n: u128) -> (v: Vec<char>)
    ensures
        v@ == dec(n as nat),
    decreases n,
{
    if n < 10 {
        let mut v: Vec<char> = Vec::new();
        v.push(digit(n as u64));
        v
    } else {
        let mut v = dec_chars_u128(n / 10);
        v.push(digit((n % 10) as u64));
        v
    }
}

/// `str::parse::<u128>` of all of `v`.
pub fn parse_u128(v: &Vec<char>) -> (r: Option<u128>)
    ensures
        match r {
            Some(n) => parse_unsigned(v@, u128::MAX as nat) == Some(n as nat),
            None => parse_unsigned(v@, u128::MAX as nat).is_none(),
        },
{
    let ghost s = v@;
    let to = v.len();
    let start: usize = if to > 0 && v[0] == '+' { 1 } else { 0 };
    if to <= start {
        return None;
    }
    let max: u128 = u128::MAX;
    let mut val: u128 = 0;
    let mut i: usize = start;
    while i < to
        invariant
            start <= i <= to == v.len(),
            s == v@,
            max == u128::MAX,
            start == (if s.len() > 0 && s[0] == '+' { 1int } else { 0int }),
            forall|k: int| start <= k < i ==> '0' <= #[trigger] s[k] <= '9',
            val as nat == dec_value(s, start as int, i as int),
        decreases to - i,
    {
        let c = v[i];
        if !('0' <= c && c <= '9') {
            assert(!('0' <= s[i as int] <= '9'));
            return None;
        }
        let d: u128 = ((c as u32) - 48) as u128;
        assert(dec_value(s, start as int, i + 1) == dec_value(s, start as int, i as int) * 10 + d);
        if val > (max - d) / 10 {
            proof {
                assert(dec_value(s, start as int, i + 1) > max) by (nonlinear_arith)
                    requires val > (max - d) / 10, dec_value(s, start as int, i + 1) == val * 10 + d, d <= 9;
                lemma_dec_value_grows(s, start as int, i + 1, max as nat);
            }
            return None;
        }
        proof {
            assert(val * 10 + d <= max) by (nonlinear_arith)
                requires val <= (max - d) / 10, d <= max;
        }
        val = val * 10 + d;
        i += 1;
    }
    assert(s.subrange(0, s.len() as int) =~= s);
    Some(val)
}

/// Once the value of a digit prefix exceeds `max`, so does every longer
/// all-digit prefix; with a non-digit the parse fails anyway.
proof fn lemma_dec_value_grows(s: Seq<char>, a: int, b: int, max: nat)
    requires
        0 <= a <= b <= s.len(),
        dec_value(s, a, b) > max,
        forall|k: int| a <= k < b ==> '0' <= #[trigger] s[k] <= '9',
    ensures
        parse_unsigned(s, max) == None::<nat> || !(a == (if s.len() > 0 && s[0] == '+' { 1int } else { 0int })),
    decreases s.len() - b,
{
    if a == (if s.len() > 0 && s[0] == '+' { 1int } else { 0int }) {
        if b < s.len() {
            if '0' <= s[b] <= '9' {
                assert(dec_value(s, a, b + 1) >= dec_value(s, a, b));
                lemma_dec_value_grows(s, a, b + 1, max);
            } else {
                assert(!('0' <= s[b] <= '9'));
            }
        }
    }
}

} // verus!
