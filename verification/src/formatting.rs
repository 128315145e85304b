//! IRC text formatting: stripping and parsing mIRC control codes, and
//! splitting text into URL and non-URL segments.

use vstd::prelude::*;
use vstd::string::StringSliceAdditionalSpecFns;

use crate::text::{
    chars_of, is_ascii_digit, is_digit, is_whitespace, is_ws, push_char, push_str, string_from_chars, to_string,
    string_from_range,
};

verus! {

pub const BOLD: char = '\x02';
pub const COLOR: char = '\x03';
pub const RESET: char = '\x0F';
pub const REVERSE: char = '\x16';
pub const ITALIC: char = '\x1D';
pub const UNDERLINE: char = '\x1F';

/// A formatting toggle or reset control character.
pub open spec fn is_toggle(c: char) -> bool {
    c == '\x02' || c == '\x1D' || c == '\x1F' || c == '\x16' || c == '\x0F'
}

/// Position after at most `n` decimal digits of `s` starting at `k`.
pub open spec fn digits_end(s: Seq<char>, k: int, n: nat) -> int
    decreases n,
{
    if n == 0 || k < 0 || k >= s.len() || !is_digit(s[k]) {
        k
    } else {
        digits_end(s, k + 1, (n - 1) as nat)
    }
}

pub proof fn lemma_digits_end(s: Seq<char>, k: int, n: nat)
    requires
        0 <= k <= s.len(),
    ensures
        k <= digits_end(s, k, n) <= s.len(),
        digits_end(s, k, n) <= k + n,
        forall|m: int| k <= m < digits_end(s, k, n) ==> is_digit(s[m]),
        digits_end(s, k, n) < k + n && digits_end(s, k, n) < s.len() ==> !is_digit(s[digits_end(s, k, n)]),
    decreases n,
{
    if n > 0 && k < s.len() && is_digit(s[k]) {
        lemma_digits_end(s, k + 1, (n - 1) as nat);
    }
}

/// Whether a background colour follows a foreground that ended at `f`
/// (the foreground started at `k`): a comma followed by a digit.
pub open spec fn has_bg(s: Seq<char>, k: int, f: int) -> bool {
    f > k && f + 1 < s.len() && s[f] == ',' && is_digit(s[f + 1])
}

/// Position after the colour arguments of a `\x03` whose arguments start at
/// `k`: at most two foreground digits, then, only after a foreground, a comma
/// and at most two background digits when a digit follows the comma.
pub open spec fn color_end(s: Seq<char>, k: int) -> int {
    let f = digits_end(s, k, 2);
    if has_bg(s, k, f) {
        digits_end(s, f + 1, 2)
    } else {
        f
    }
}

pub proof fn lemma_color_end(s: Seq<char>, k: int)
    requires
        0 <= k <= s.len(),
    ensures
        k <= color_end(s, k) <= s.len(),
{
    lemma_digits_end(s, k, 2);
    let f = digits_end(s, k, 2);
    if has_bg(s, k, f) {
        lemma_digits_end(s, f + 1, 2);
    }
}

/// The text of `s[i..]` with IRC colour codes and formatting removed.
pub open spec fn strip_from(s: Seq<char>, i: int) -> Seq<char>
    decreases s.len() - i,
{
    if i < 0 || i >= s.len() {
        Seq::empty()
    } else if is_toggle(s[i]) {
        strip_from(s, i + 1)
    } else if s[i] == '\x03' {
        let e = color_end(s, i + 1);
        if e <= i || e > s.len() {
            Seq::empty()
        } else {
            strip_from(s, e)
        }
    } else {
        seq![s[i]] + strip_from(s, i + 1)
    }
}

/// The plain text of `s`.
pub open spec fn spec_strip(s: Seq<char>) -> Seq<char> {
    strip_from(s, 0)
}

fn digits_end_exec(v: &Vec<char>, k: usize, n: usize) -> (r: usize)
    requires
        k <= v.len(),
        n <= 2,
    ensures
        r == digits_end(v@, k as int, n as nat),
    decreases n,
{
    if n == 0 || k >= v.len() || !is_ascii_digit(v[k]) {
        k
    } else {
        digits_end_exec(v, k + 1, n - 1)
    }
}

fn color_end_exec(v: &Vec<char>, k: usize) -> (r: (usize, usize))
    requires
        k <= v.len(),
    ensures
        r.0 == digits_end(v@, k as int, 2),
        r.1 == color_end(v@, k as int),
{
    proof {
        lemma_digits_end(v@, k as int, 2);
    }
    let f = digits_end_exec(v, k, 2);
    if f > k && f < v.len() && f + 1 < v.len() && v[f] == ',' && is_ascii_digit(v[f + 1]) {
        (f, digits_end_exec(v, f + 1, 2))
    } else {
        (f, f)
    }
}

/// Strip IRC color codes and formatting from text, returning plain text.
pub fn strip_irc_formatting(input: &str) -> (r: String)
    ensures
        r@ == spec_strip(input@),
{
    let v = chars_of(input);
    let mut out = String::new();
    let mut i: usize = 0;
    while i < v.len()
        invariant
            i <= v.len(),
            spec_strip(v@) == out@ + strip_from(v@, i as int),
            v@ == input@,
        decreases v.len() - i,
    {
        let c = v[i];
        if c == '\x02' || c == '\x1D' || c == '\x1F' || c == '\x16' || c == '\x0F' {
            i += 1;
        } else if c == '\x03' {
            proof {
                lemma_color_end(v@, i + 1);
            }
            let (_, e) = color_end_exec(&v, i + 1);
            i = e;
        } else {
            push_char(&mut out, c);
            i += 1;
        }
    }
    assert(out@ + Seq::<char>::empty() =~= out@);
    out
}

/// RGB of mIRC colour `code` for `code < 99` (0-15 the classic palette,
/// 16-98 the extended one).
pub open spec fn palette_rgb(code: u8) -> (u8, u8, u8) {
    match code {
        0 => (255, 255, 255),
        1 => (0, 0, 0),
        2 => (0, 0, 127),
        3 => (0, 147, 0),
        4 => (255, 0, 0),
        5 => (127, 0, 0),
        6 => (156, 0, 156),
        7 => (252, 127, 0),
        8 => (255, 255, 0),
        9 => (0, 252, 0),
        10 => (0, 147, 147),
        11 => (0, 255, 255),
        12 => (0, 0, 252),
        13 => (255, 0, 255),
        14 => (127, 127, 127),
        15 => (210, 210, 210),
        16 => (71, 0, 0),
        17 => (71, 33, 0),
        18 => (71, 71, 0),
        19 => (50, 71, 0),
        20 => (0, 71, 0),
        21 => (0, 71, 44),
        22 => (0, 71, 71),
        23 => (0, 39, 71),
        24 => (0, 0, 71),
        25 => (46, 0, 71),
        26 => (71, 0, 71),
        27 => (71, 0, 42),
        28 => (116, 0, 0),
        29 => (116, 58, 0),
        30 => (116, 116, 0),
        31 => (81, 116, 0),
        32 => (0, 116, 0),
        33 => (0, 116, 73),
        34 => (0, 116, 116),
        35 => (0, 64, 116),
        36 => (0, 0, 116),
        37 => (75, 0, 116),
        38 => (116, 0, 116),
        39 => (116, 0, 69),
        40 => (181, 0, 0),
        41 => (181, 99, 0),
        42 => (181, 181, 0),
        43 => (125, 181, 0),
        44 => (0, 181, 0),
        45 => (0, 181, 113),
        46 => (0, 181, 181),
        47 => (0, 99, 181),
        48 => (0, 0, 181),
        49 => (117, 0, 181),
        50 => (181, 0, 181),
        51 => (181, 0, 107),
        52 => (255, 0, 0),
        53 => (255, 140, 0),
        54 => (255, 255, 0),
        55 => (178, 255, 0),
        56 => (0, 255, 0),
        57 => (0, 255, 160),
        58 => (0, 255, 255),
        59 => (0, 140, 255),
        60 => (0, 0, 255),
        61 => (165, 0, 255),
        62 => (255, 0, 255),
        63 => (255, 0, 152),
        64 => (255, 89, 89),
        65 => (255, 180, 89),
        66 => (255, 255, 113),
        67 => (207, 255, 96),
        68 => (111, 255, 111),
        69 => (101, 255, 201),
        70 => (109, 255, 255),
        71 => (89, 180, 255),
        72 => (89, 89, 255),
        73 => (196, 89, 255),
        74 => (255, 102, 255),
        75 => (255, 89, 188),
        76 => (255, 156, 156),
        77 => (255, 211, 156),
        78 => (255, 255, 156),
        79 => (226, 255, 156),
        80 => (156, 255, 156),
        81 => (156, 255, 219),
        82 => (156, 255, 255),
        83 => (156, 211, 255),
        84 => (156, 156, 255),
        85 => (220, 156, 255),
        86 => (255, 156, 255),
        87 => (255, 148, 211),
        88 => (0, 0, 0),
        89 => (19, 19, 19),
        90 => (40, 40, 40),
        91 => (54, 54, 54),
        92 => (77, 77, 77),
        93 => (101, 101, 101),
        94 => (129, 129, 129),
        95 => (159, 159, 159),
        96 => (188, 188, 188),
        97 => (226, 226, 226),
        98 => (255, 255, 255),
        _ => (0, 0, 0),
    }
}

/// RGB of mIRC colour `code` (`code < 99`).
pub fn palette_rgb_exec(code: u8) -> (r: (u8, u8, u8))
    ensures
        r == palette_rgb(code),
{
    match code {
        0 => (255, 255, 255),
        1 => (0, 0, 0),
        2 => (0, 0, 127),
        3 => (0, 147, 0),
        4 => (255, 0, 0),
        5 => (127, 0, 0),
        6 => (156, 0, 156),
        7 => (252, 127, 0),
        8 => (255, 255, 0),
        9 => (0, 252, 0),
        10 => (0, 147, 147),
        11 => (0, 255, 255),
        12 => (0, 0, 252),
        13 => (255, 0, 255),
        14 => (127, 127, 127),
        15 => (210, 210, 210),
        16 => (71, 0, 0),
        17 => (71, 33, 0),
        18 => (71, 71, 0),
        19 => (50, 71, 0),
        20 => (0, 71, 0),
        21 => (0, 71, 44),
        22 => (0, 71, 71),
        23 => (0, 39, 71),
        24 => (0, 0, 71),
        25 => (46, 0, 71),
        26 => (71, 0, 71),
        27 => (71, 0, 42),
        28 => (116, 0, 0),
        29 => (116, 58, 0),
        30 => (116, 116, 0),
        31 => (81, 116, 0),
        32 => (0, 116, 0),
        33 => (0, 116, 73),
        34 => (0, 116, 116),
        35 => (0, 64, 116),
        36 => (0, 0, 116),
        37 => (75, 0, 116),
        38 => (116, 0, 116),
        39 => (116, 0, 69),
        40 => (181, 0, 0),
        41 => (181, 99, 0),
        42 => (181, 181, 0),
        43 => (125, 181, 0),
        44 => (0, 181, 0),
        45 => (0, 181, 113),
        46 => (0, 181, 181),
        47 => (0, 99, 181),
        48 => (0, 0, 181),
        49 => (117, 0, 181),
        50 => (181, 0, 181),
        51 => (181, 0, 107),
        52 => (255, 0, 0),
        53 => (255, 140, 0),
        54 => (255, 255, 0),
        55 => (178, 255, 0),
        56 => (0, 255, 0),
        57 => (0, 255, 160),
        58 => (0, 255, 255),
        59 => (0, 140, 255),
        60 => (0, 0, 255),
        61 => (165, 0, 255),
        62 => (255, 0, 255),
        63 => (255, 0, 152),
        64 => (255, 89, 89),
        65 => (255, 180, 89),
        66 => (255, 255, 113),
        67 => (207, 255, 96),
        68 => (111, 255, 111),
        69 => (101, 255, 201),
        70 => (109, 255, 255),
        71 => (89, 180, 255),
        72 => (89, 89, 255),
        73 => (196, 89, 255),
        74 => (255, 102, 255),
        75 => (255, 89, 188),
        76 => (255, 156, 156),
        77 => (255, 211, 156),
        78 => (255, 255, 156),
        79 => (226, 255, 156),
        80 => (156, 255, 156),
        81 => (156, 255, 219),
        82 => (156, 255, 255),
        83 => (156, 211, 255),
        84 => (156, 156, 255),
        85 => (220, 156, 255),
        86 => (255, 156, 255),
        87 => (255, 148, 211),
        88 => (0, 0, 0),
        89 => (19, 19, 19),
        90 => (40, 40, 40),
        91 => (54, 54, 54),
        92 => (77, 77, 77),
        93 => (101, 101, 101),
        94 => (129, 129, 129),
        95 => (159, 159, 159),
        96 => (188, 188, 188),
        97 => (226, 226, 226),
        98 => (255, 255, 255),
        _ => (0, 0, 0),
    }
}

/// The nick colour palette: distinct, readable colours.
pub open spec fn nick_palette(i: u32) -> (u8, u8, u8) {
    match i {
        0 => (255, 100, 100),
        1 => (100, 255, 100),
        2 => (100, 200, 255),
        3 => (255, 200, 100),
        4 => (255, 100, 255),
        5 => (100, 255, 255),
        6 => (255, 255, 100),
        7 => (200, 150, 255),
        8 => (255, 150, 150),
        9 => (150, 255, 200),
        10 => (150, 200, 255),
        11 => (255, 200, 150),
        12 => (200, 255, 150),
        13 => (255, 150, 200),
        14 => (150, 255, 255),
        15 => (255, 220, 180),
        _ => (0, 0, 0),
    }
}

fn nick_palette_exec(i: u32) -> (r: (u8, u8, u8))
    ensures
        r == nick_palette(i),
{
    match i {
        0 => (255, 100, 100),
        1 => (100, 255, 100),
        2 => (100, 200, 255),
        3 => (255, 200, 100),
        4 => (255, 100, 255),
        5 => (100, 255, 255),
        6 => (255, 255, 100),
        7 => (200, 150, 255),
        8 => (255, 150, 150),
        9 => (150, 255, 200),
        10 => (150, 200, 255),
        11 => (255, 200, 150),
        12 => (200, 255, 150),
        13 => (255, 150, 200),
        14 => (150, 255, 255),
        15 => (255, 220, 180),
        _ => (0, 0, 0),
    }
}

/// Resolve an IRC colour code (0-99) to an RGB colour. 99 is "default" per
/// the spec; unknown codes also fall back to the default (`None`) rather than
/// being wrapped into an unrelated palette entry.
pub open spec fn spec_irc_color(code: nat) -> Option<(u8, u8, u8)> {
    if code < 99 {
        Some(palette_rgb(code as u8))
    } else {
        None
    }
}

/// Resolve an IRC colour code to an RGB colour (`None` = default colour).
pub fn irc_color(code: u64) -> (r: Option<(u8, u8, u8)>)
    ensures
        r == spec_irc_color(code as nat),
{
    if code < 99 {
        Some(palette_rgb_exec(code as u8))
    } else {
        None
    }
}

/// The palette code a colour argument selects: codes 0-98 name a colour,
/// anything else (99 included) means the default colour.
pub open spec fn color_code(v: nat) -> Option<u8> {
    if v < 99 {
        Some(v as u8)
    } else {
        None
    }
}

/// Formatting in effect for a run of text. Colours are palette codes
/// (0-98), resolved to RGB by `irc_color`.
#[derive(Clone, Copy, Debug, PartialEq, Eq)]
pub struct TextStyle {
    pub fg_color: Option<u8>,
    pub bg_color: Option<u8>,
    pub bold: bool,
    pub underline: bool,
    pub italic: bool,
    pub reverse: bool,
}

/// Plain, unformatted text.
pub open spec fn plain_style() -> TextStyle {
    TextStyle { fg_color: None, bg_color: None, bold: false, underline: false, italic: false, reverse: false }
}

/// Decimal value of the digits `s[a..b]`.
pub open spec fn digits_value(s: Seq<char>, a: int, b: int) -> nat
    decreases b - a,
{
    if b <= a {
        0
    } else {
        digits_value(s, a, b - 1) * 10 + ((s[b - 1] as u32) - ('0' as u32)) as nat
    }
}

/// The style after a `\x03` whose arguments start at `k`: no digits resets
/// both colours; otherwise the foreground is set and, when present, the
/// background.
pub open spec fn style_after_color(s: Seq<char>, k: int, st: TextStyle) -> TextStyle {
    let f = digits_end(s, k, 2);
    if f == k {
        TextStyle { fg_color: None, bg_color: None, ..st }
    } else {
        let st1 = TextStyle { fg_color: color_code(digits_value(s, k, f)), ..st };
        if has_bg(s, k, f) {
            let e = digits_end(s, f + 1, 2);
            TextStyle { bg_color: color_code(digits_value(s, f + 1, e)), ..st1 }
        } else {
            st1
        }
    }
}

/// The style after a toggle or reset control character.
pub open spec fn style_after_toggle(c: char, st: TextStyle) -> TextStyle {
    if c == '\x02' {
        TextStyle { bold: !st.bold, ..st }
    } else if c == '\x1F' {
        TextStyle { underline: !st.underline, ..st }
    } else if c == '\x1D' {
        TextStyle { italic: !st.italic, ..st }
    } else if c == '\x16' {
        TextStyle { reverse: !st.reverse, ..st }
    } else {
        plain_style()
    }
}

/// The pending run `cur` as a span, if it is not empty.
pub open spec fn flush(cur: Seq<char>, st: TextStyle) -> Seq<(Seq<char>, TextStyle)> {
    if cur.len() > 0 {
        seq![(cur, st)]
    } else {
        Seq::empty()
    }
}

/// The formatted runs of `s[i..]`, given the style in effect and the text
/// `cur` collected since the last control code. A run ends at every colour
/// or toggle code, and empty runs are dropped.
pub open spec fn spans_from(s: Seq<char>, i: int, st: TextStyle, cur: Seq<char>) -> Seq<(Seq<char>, TextStyle)>
    decreases s.len() - i,
{
    if i < 0 || i >= s.len() {
        flush(cur, st)
    } else if s[i] == '\x03' {
        let e = color_end(s, i + 1);
        if e <= i || e > s.len() {
            flush(cur, st)
        } else {
            flush(cur, st) + spans_from(s, e, style_after_color(s, i + 1, st), Seq::empty())
        }
    } else if is_toggle(s[i]) {
        flush(cur, st) + spans_from(s, i + 1, style_after_toggle(s[i], st), Seq::empty())
    } else {
        spans_from(s, i + 1, st, cur.push(s[i]))
    }
}

/// The formatted runs of `s`.
pub open spec fn spec_spans(s: Seq<char>) -> Seq<(Seq<char>, TextStyle)> {
    spans_from(s, 0, plain_style(), Seq::empty())
}

/// An IRC formatting code: a toggle, the reset, or the colour code.
pub open spec fn is_format_code(c: char) -> bool {
    is_toggle(c) || c == '\x03'
}

proof fn lemma_strip_from_clean(s: Seq<char>, i: int)
    requires
        0 <= i <= s.len(),
    ensures
        forall|k: int| 0 <= k < strip_from(s, i).len() ==> !is_format_code(#[trigger] strip_from(s, i)[k]),
    decreases s.len() - i,
{
    if i < s.len() {
        if is_toggle(s[i]) {
            lemma_strip_from_clean(s, i + 1);
            assert(strip_from(s, i) == strip_from(s, i + 1));
        } else if s[i] == '\x03' {
            lemma_color_end(s, i + 1);
            let e = color_end(s, i + 1);
            if i < e <= s.len() {
                lemma_strip_from_clean(s, e);
                assert(strip_from(s, i) == strip_from(s, e));
            }
        } else {
            lemma_strip_from_clean(s, i + 1);
            let r = strip_from(s, i + 1);
            assert(strip_from(s, i) == seq![s[i]] + r);
            assert forall|k: int| 0 <= k < strip_from(s, i).len() implies !is_format_code(#[trigger] strip_from(s, i)[k]) by {
                if k > 0 {
                    assert(strip_from(s, i)[k] == r[k - 1]);
                }
            }
        }
    }
}

proof fn lemma_strip_from_plain(s: Seq<char>, i: int)
    requires
        0 <= i <= s.len(),
        forall|k: int| i <= k < s.len() ==> !is_format_code(#[trigger] s[k]),
    ensures
        strip_from(s, i) == s.subrange(i, s.len() as int),
    decreases s.len() - i,
{
    if i < s.len() {
        assert(!is_format_code(s[i]));
        lemma_strip_from_plain(s, i + 1);
        assert(seq![s[i]] + s.subrange(i + 1, s.len() as int) =~= s.subrange(i, s.len() as int));
    } else {
        assert(s.subrange(i, s.len() as int) =~= Seq::<char>::empty());
    }
}

/// Stripping leaves no formatting code, returns text without formatting
/// codes unchanged, and so is idempotent.
pub proof fn lemma_strip_laws(s: Seq<char>)
    ensures
        forall|k: int| 0 <= k < spec_strip(s).len() ==> !is_format_code(#[trigger] spec_strip(s)[k]),
        (forall|k: int| 0 <= k < s.len() ==> !is_format_code(#[trigger] s[k])) ==> spec_strip(s) == s,
        spec_strip(spec_strip(s)) == spec_strip(s),
{
    lemma_strip_from_clean(s, 0);
    if forall|k: int| 0 <= k < s.len() ==> !is_format_code(#[trigger] s[k]) {
        lemma_strip_from_plain(s, 0);
        assert(s.subrange(0, s.len() as int) =~= s);
    }
    let t = spec_strip(s);
    lemma_strip_from_plain(t, 0);
    assert(t.subrange(0, t.len() as int) =~= t);
}

proof fn lemma_spans_nonempty(s: Seq<char>, i: int, st: TextStyle, cur: Seq<char>)
    requires
        0 <= i <= s.len(),
    ensures
        forall|k: int| 0 <= k < spans_from(s, i, st, cur).len() ==> (#[trigger] spans_from(s, i, st, cur)[k]).0.len() > 0,
    decreases s.len() - i,
{
    if i < s.len() {
        if s[i] == '\x03' {
            lemma_color_end(s, i + 1);
            let e = color_end(s, i + 1);
            lemma_spans_nonempty(s, e, style_after_color(s, i + 1, st), Seq::empty());
            let a = flush(cur, st);
            let b = spans_from(s, e, style_after_color(s, i + 1, st), Seq::empty());
            assert(spans_from(s, i, st, cur) == a + b);
            assert forall|k: int| 0 <= k < (a + b).len() implies (#[trigger] (a + b)[k]).0.len() > 0 by {
                if k >= a.len() {
                    assert((a + b)[k] == b[k - a.len()]);
                }
            }
        } else if is_toggle(s[i]) {
            lemma_spans_nonempty(s, i + 1, style_after_toggle(s[i], st), Seq::empty());
            let a = flush(cur, st);
            let b = spans_from(s, i + 1, style_after_toggle(s[i], st), Seq::empty());
            assert(spans_from(s, i, st, cur) == a + b);
            assert forall|k: int| 0 <= k < (a + b).len() implies (#[trigger] (a + b)[k]).0.len() > 0 by {
                if k >= a.len() {
                    assert((a + b)[k] == b[k - a.len()]);
                }
            }
        } else {
            lemma_spans_nonempty(s, i + 1, st, cur.push(s[i]));
            assert(spans_from(s, i, st, cur) == spans_from(s, i + 1, st, cur.push(s[i])));
        }
    } else {
        assert(spans_from(s, i, st, cur) == flush(cur, st));
    }
}

/// With text collected, the next span is that text (and more) in the
/// current style.
proof fn lemma_first_span_style(s: Seq<char>, i: int, st: TextStyle, cur: Seq<char>)
    requires
        0 <= i <= s.len(),
        cur.len() > 0,
    ensures
        spans_from(s, i, st, cur).len() > 0,
        spans_from(s, i, st, cur)[0].1 == st,
    decreases s.len() - i,
{
    if i < s.len() && s[i] != '\x03' && !is_toggle(s[i]) {
        lemma_first_span_style(s, i + 1, st, cur.push(s[i]));
    } else if i < s.len() && s[i] == '\x03' {
        lemma_color_end(s, i + 1);
    }
}

/// Every span of `parse_irc_colors` holds some text.
pub proof fn lemma_spans_nonempty_text(s: Seq<char>)
    ensures
        forall|k: int| 0 <= k < spec_spans(s).len() ==> (#[trigger] spec_spans(s)[k]).0.len() > 0,
{
    lemma_spans_nonempty(s, 0, plain_style(), Seq::empty());
}

/// A reset (`\x0F`) ends the current span, and the text that follows it
/// (up to the next formatting code) forms a span in the plain style: no
/// colours, no bold, underline, italics or reverse.
pub proof fn lemma_reset_gives_plain_span(s: Seq<char>, i: int, st: TextStyle, cur: Seq<char>)
    requires
        0 <= i,
        i + 1 < s.len(),
        s[i] == '\x0F',
        !is_format_code(s[i + 1]),
    ensures
        spans_from(s, i, st, cur) == flush(cur, st) + spans_from(s, i + 1, plain_style(), Seq::empty()),
        spans_from(s, i + 1, plain_style(), Seq::empty()).len() > 0,
        spans_from(s, i + 1, plain_style(), Seq::empty())[0].1 == plain_style(),
{
    lemma_first_span_style(s, i + 2, plain_style(), seq![s[i + 1]]);
    assert(Seq::<char>::empty().push(s[i + 1]) =~= seq![s[i + 1]]);
}

/// The scan of `s` from `j` reaches every reset at `i >= j`: what it yields
/// is what it yielded before `i`, then what the scan from `i` yields.
proof fn lemma_scan_reaches_reset(s: Seq<char>, i: int, j: int, st: TextStyle, cur: Seq<char>)
    requires
        0 <= j <= i < s.len(),
        s[i] == '\x0F',
    ensures
        exists|p: Seq<(Seq<char>, TextStyle)>, st2: TextStyle, cur2: Seq<char>|
            spans_from(s, j, st, cur) == p + spans_from(s, i, st2, cur2),
    decreases i - j,
{
    if j == i {
        assert(spans_from(s, j, st, cur) == Seq::<(Seq<char>, TextStyle)>::empty() + spans_from(s, i, st, cur));
    } else if s[j] == '\x03' {
        lemma_color_end(s, j + 1);
        let k = j + 1;
        let f = digits_end(s, k, 2);
        lemma_digits_end(s, k, 2);
        if has_bg(s, k, f) {
            lemma_digits_end(s, f + 1, 2);
        }
        let e = color_end(s, k);
        assert(e <= i) by {
            if e > i {
                assert(k <= i);
                if i < f {
                    assert(is_digit(s[i]));
                } else if i == f {
                    assert(has_bg(s, k, f));
                    assert(s[f] == ',');
                } else {
                    assert(has_bg(s, k, f));
                    assert(is_digit(s[i]));
                }
            }
        }
        let st1 = style_after_color(s, k, st);
        lemma_scan_reaches_reset(s, i, e, st1, Seq::empty());
        let (p, st2, cur2) = choose|p: Seq<(Seq<char>, TextStyle)>, st2: TextStyle, cur2: Seq<char>|
            spans_from(s, e, st1, Seq::empty()) == p + spans_from(s, i, st2, cur2);
        assert(spans_from(s, j, st, cur) == (flush(cur, st) + p) + spans_from(s, i, st2, cur2));
    } else if is_toggle(s[j]) {
        let st1 = style_after_toggle(s[j], st);
        lemma_scan_reaches_reset(s, i, j + 1, st1, Seq::empty());
        let (p, st2, cur2) = choose|p: Seq<(Seq<char>, TextStyle)>, st2: TextStyle, cur2: Seq<char>|
            spans_from(s, j + 1, st1, Seq::empty()) == p + spans_from(s, i, st2, cur2);
        assert(spans_from(s, j, st, cur) == (flush(cur, st) + p) + spans_from(s, i, st2, cur2));
    } else {
        lemma_scan_reaches_reset(s, i, j + 1, st, cur.push(s[j]));
        let (p, st2, cur2) = choose|p: Seq<(Seq<char>, TextStyle)>, st2: TextStyle, cur2: Seq<char>|
            spans_from(s, j + 1, st, cur.push(s[j])) == p + spans_from(s, i, st2, cur2);
        assert(spans_from(s, j, st, cur) == p + spans_from(s, i, st2, cur2));
    }
}

/// In the spans of a whole text, the span after a reset (`\x0F`) that is
/// followed by text has the plain style: no colours, no bold, underline,
/// italics or reverse. The spans before it are those of the text before
/// the reset.
pub proof fn lemma_span_after_reset_is_plain(s: Seq<char>, i: int)
    requires
        0 <= i,
        i + 1 < s.len(),
        s[i] == '\x0F',
        !is_format_code(s[i + 1]),
    ensures
        exists|p: Seq<(Seq<char>, TextStyle)>| {
            &&& spec_spans(s) == p + spans_from(s, i + 1, plain_style(), Seq::empty())
            &&& spec_spans(s)[p.len() as int].1 == plain_style()
            &&& p.len() < spec_spans(s).len()
        },
{
    lemma_scan_reaches_reset(s, i, 0, plain_style(), Seq::empty());
    let (p, st2, cur2) = choose|p: Seq<(Seq<char>, TextStyle)>, st2: TextStyle, cur2: Seq<char>|
        spans_from(s, 0, plain_style(), Seq::empty()) == p + spans_from(s, i, st2, cur2);
    lemma_reset_gives_plain_span(s, i, st2, cur2);
    let q = p + flush(cur2, st2);
    assert(spec_spans(s) =~= q + spans_from(s, i + 1, plain_style(), Seq::empty()));
    assert(spec_spans(s)[q.len() as int] == spans_from(s, i + 1, plain_style(), Seq::empty())[0]);
}

/// Text free of formatting codes is collected into the pending run.
proof fn lemma_plain_run(s: Seq<char>, i: int, j: int, st: TextStyle, cur: Seq<char>)
    requires
        0 <= i <= j <= s.len(),
        forall|k: int| i <= k < j ==> !is_format_code(#[trigger] s[k]),
    ensures
        spans_from(s, i, st, cur) == spans_from(s, j, st, cur + s.subrange(i, j)),
    decreases j - i,
{
    if i == j {
        assert(cur + s.subrange(i, j) =~= cur);
    } else {
        assert(!is_format_code(s[i]));
        lemma_plain_run(s, i + 1, j, st, cur.push(s[i]));
        assert(cur.push(s[i]) + s.subrange(i + 1, j) =~= cur + s.subrange(i, j));
    }
}

/// The toggle codes switch their attribute on and off: a toggle applied
/// twice restores the style, and bold, underline, italics and reverse each
/// change exactly their own attribute.
pub proof fn lemma_toggles_flip(st: TextStyle)
    ensures
        style_after_toggle('\x02', style_after_toggle('\x02', st)) == st,
        style_after_toggle('\x1F', style_after_toggle('\x1F', st)) == st,
        style_after_toggle('\x1D', style_after_toggle('\x1D', st)) == st,
        style_after_toggle('\x16', style_after_toggle('\x16', st)) == st,
        style_after_toggle('\x02', st).bold != st.bold,
        style_after_toggle('\x1F', st).underline != st.underline,
        style_after_toggle('\x1D', st).italic != st.italic,
        style_after_toggle('\x16', st).reverse != st.reverse,
{
}

/// Bold text closed by a second bold code: `\x02 x \x02 y`, with `x` and
/// `y` non-empty text free of formatting codes, gives exactly two spans,
/// `x` in bold and `y` in the plain style.
pub proof fn lemma_bold_closes(x: Seq<char>, y: Seq<char>)
    requires
        x.len() > 0,
        y.len() > 0,
        forall|k: int| 0 <= k < x.len() ==> !is_format_code(#[trigger] x[k]),
        forall|k: int| 0 <= k < y.len() ==> !is_format_code(#[trigger] y[k]),
    ensures
        spec_spans(seq!['\x02'] + x + seq!['\x02'] + y) == seq![
            (x, TextStyle { fg_color: None, bg_color: None, bold: true, underline: false, italic: false, reverse: false }),
            (y, TextStyle { fg_color: None, bg_color: None, bold: false, underline: false, italic: false, reverse: false }),
        ],
{
    let s = seq!['\x02'] + x + seq!['\x02'] + y;
    let n = x.len() as int;
    let bold = TextStyle { bold: true, ..plain_style() };
    assert(s[0] == '\x02');
    assert(s[n + 1] == '\x02');
    assert(s.subrange(1, n + 1) =~= x);
    assert(s.subrange(n + 2, s.len() as int) =~= y);
    assert forall|k: int| 1 <= k < n + 1 implies !is_format_code(#[trigger] s[k]) by {
        assert(s[k] == x[k - 1]);
    }
    assert forall|k: int| n + 2 <= k < s.len() implies !is_format_code(#[trigger] s[k]) by {
        assert(s[k] == y[k - n - 2]);
    }
    assert(style_after_toggle('\x02', plain_style()) == bold);
    assert(spans_from(s, 0, plain_style(), Seq::empty())
        == flush(Seq::empty(), plain_style()) + spans_from(s, 1, bold, Seq::empty()));
    lemma_plain_run(s, 1, n + 1, bold, Seq::empty());
    assert(Seq::<char>::empty() + s.subrange(1, n + 1) =~= x);
    assert(style_after_toggle('\x02', bold) == plain_style());
    assert(spans_from(s, n + 1, bold, x) == flush(x, bold) + spans_from(s, n + 2, plain_style(), Seq::empty()));
    lemma_plain_run(s, n + 2, s.len() as int, plain_style(), Seq::empty());
    assert(Seq::<char>::empty() + s.subrange(n + 2, s.len() as int) =~= y);
    assert(spans_from(s, s.len() as int, plain_style(), y) == flush(y, plain_style()));
    assert(spec_spans(s) =~= seq![(x, bold), (y, plain_style())]);
}

/// The characters that end a URL never occur inside one.
proof fn lemma_url_end_clean(s: Seq<char>, pos: int)
    requires
        0 <= pos <= s.len(),
    ensures
        forall|m: int| pos <= m < url_end(s, pos) ==> !is_url_terminator(#[trigger] s[m]),
        url_end(s, pos) < s.len() ==> is_url_terminator(s[url_end(s, pos)]),
    decreases s.len() - pos,
{
    if pos < s.len() && !is_url_terminator(s[pos]) {
        lemma_url_end_clean(s, pos + 1);
    }
}

/// The segments of `s[base..]`, when there are any, start with `s[base]`.
proof fn lemma_url_segments_first(s: Seq<char>, base: int)
    requires
        0 <= base,
    ensures
        url_segments_from(s, base).len() > 0 ==> {
            &&& base < s.len()
            &&& url_segments_from(s, base)[0].0.len() > 0
            &&& url_segments_from(s, base)[0].0[0] == s[base]
        },
{
    if base < s.len() {
        lemma_url_start(s, base);
        match url_start(s, base) {
            None => {}
            Some(pos) => {
                lemma_url_end(s, pos);
            }
        }
    }
}

proof fn lemma_url_segments_clean(s: Seq<char>, base: int)
    requires
        0 <= base,
    ensures
        forall|k: int, j: int|
            0 <= k < url_segments_from(s, base).len() && url_segments_from(s, base)[k].1
                && 0 <= j < url_segments_from(s, base)[k].0.len()
                ==> !is_url_terminator(#[trigger] url_segments_from(s, base)[k].0[j]),
        forall|k: int|
            0 <= k && k + 1 < url_segments_from(s, base).len() && #[trigger] url_segments_from(s, base)[k].1
                ==> url_segments_from(s, base)[k + 1].0.len() > 0
                    && is_url_terminator(url_segments_from(s, base)[k + 1].0[0]),
    decreases s.len() - base,
{
    let segs = url_segments_from(s, base);
    if base < s.len() {
        lemma_url_start(s, base);
        match url_start(s, base) {
            None => {}
            Some(pos) => {
                let e = url_end(s, pos);
                lemma_url_end(s, pos);
                if !(pos < base || e <= pos || e > s.len()) {
                    lemma_url_segments_clean(s, e);
                    lemma_url_end_clean(s, pos);
                    let a: Seq<(Seq<char>, bool)> = if pos > base { seq![(s.subrange(base, pos), false)] } else { Seq::empty() };
                    let r = url_segments_from(s, e);
                    assert(segs == a + seq![(s.subrange(pos, e), true)] + r);
                    assert forall|k: int, j: int|
                        0 <= k < segs.len() && segs[k].1 && 0 <= j < segs[k].0.len()
                        implies !is_url_terminator(#[trigger] segs[k].0[j]) by {
                        if k < a.len() {
                            assert(!segs[k].1);
                        } else if k == a.len() {
                            assert(segs[k].0 == s.subrange(pos, e));
                            assert(segs[k].0[j] == s[pos + j]);
                        } else {
                            assert(segs[k] == r[k - a.len() - 1]);
                        }
                    }
                    lemma_url_segments_first(s, e);
                    assert forall|k: int|
                        0 <= k && k + 1 < segs.len() && #[trigger] segs[k].1
                        implies segs[k + 1].0.len() > 0 && is_url_terminator(segs[k + 1].0[0]) by {
                        if k < a.len() {
                            assert(!segs[k].1);
                        } else if k == a.len() {
                            assert(segs[k + 1] == r[0]);
                        } else {
                            assert(segs[k] == r[k - a.len() - 1]);
                            assert(segs[k + 1] == r[k - a.len()]);
                        }
                    }
                }
            }
        }
    }
}

/// A segment marked as a URL holds no whitespace and none of the characters
/// that close a URL in running text: `>`, `)`, `]`, `"` and `'`; and it runs
/// up to such a character: the segment after it starts with one.
pub proof fn lemma_url_segments_have_no_terminator(s: Seq<char>)
    ensures
        forall|k: int, j: int|
            0 <= k < spec_split_urls(s).len() && spec_split_urls(s)[k].1 && 0 <= j < spec_split_urls(s)[k].0.len()
                ==> {
                    let c = #[trigger] spec_split_urls(s)[k].0[j];
                    &&& !is_ws(c)
                    &&& c != '>'
                    &&& c != ')'
                    &&& c != ']'
                    &&& c != '"'
                    &&& c != '\''
                },
        forall|k: int|
            0 <= k && k + 1 < spec_split_urls(s).len() && #[trigger] spec_split_urls(s)[k].1
                ==> spec_split_urls(s)[k + 1].0.len() > 0 && {
                    let c = spec_split_urls(s)[k + 1].0[0];
                    is_ws(c) || c == '>' || c == ')' || c == ']' || c == '"' || c == '\''
                },
{
    lemma_url_segments_clean(s, 0);
}

/// A span of text with its formatting.
#[derive(Clone, Debug)]
pub struct TextSpan {
    pub text: String,
    pub fg_color: Option<u8>,
    pub bg_color: Option<u8>,
    pub bold: bool,
    pub underline: bool,
    pub italic: bool,
    pub reverse: bool,
}

impl TextSpan {
    pub open spec fn style(&self) -> TextStyle {
        TextStyle {
            fg_color: self.fg_color,
            bg_color: self.bg_color,
            bold: self.bold,
            underline: self.underline,
            italic: self.italic,
            reverse: self.reverse,
        }
    }
}

impl View for TextSpan {
    type V = (Seq<char>, TextStyle);

    open spec fn view(&self) -> (Seq<char>, TextStyle) {
        (self.text@, self.style())
    }
}

/// The views of a vector of spans.
pub open spec fn span_views(v: Seq<TextSpan>) -> Seq<(Seq<char>, TextStyle)> {
    v.map_values(|x: TextSpan| x@)
}

fn digits_value_exec(v: &Vec<char>, a: usize, b: usize) -> (r: u64)
    requires
        a <= b <= v.len(),
        b - a <= 2,
        forall|m: int| a <= m < b ==> is_digit(v@[m]),
    ensures
        r as nat == digits_value(v@, a as int, b as int),
        r < 100,
    decreases b - a,
{
    if b == a {
        0
    } else {
        let hi = digits_value_exec(v, a, b - 1);
        assert(hi < 10) by {
            if b - a == 2 {
                assert(digits_value(v@, a as int, (b - 1) as int) == digits_value(v@, a as int, a as int) * 10 + ((v@[a as int] as u32) - ('0' as u32)) as nat);
            }
        }
        hi * 10 + ((v[b - 1] as u32) - ('0' as u32)) as u64
    }
}

fn push_span(spans: &mut Vec<TextSpan>, cur: &Vec<char>, st: TextStyle)
    ensures
        span_views(final(spans)@) == span_views(old(spans)@) + flush(cur@, st),
{
    if cur.len() > 0 {
        let sp = TextSpan {
            text: string_from_chars(cur),
            fg_color: st.fg_color,
            bg_color: st.bg_color,
            bold: st.bold,
            underline: st.underline,
            italic: st.italic,
            reverse: st.reverse,
        };
        spans.push(sp);
        assert(span_views(spans@) =~= span_views(old(spans)@) + flush(cur@, st));
    } else {
        assert(span_views(spans@) =~= span_views(old(spans)@) + flush(cur@, st));
    }
}

/// Parse IRC colour codes and formatting from text into styled runs.
pub fn parse_irc_colors(input: &str) -> (r: Vec<TextSpan>)
    ensures
        span_views(r@) == spec_spans(input@),
{
    let v = chars_of(input);
    let mut spans: Vec<TextSpan> = Vec::new();
    let mut cur: Vec<char> = Vec::new();
    let mut st = TextStyle { fg_color: None, bg_color: None, bold: false, underline: false, italic: false, reverse: false };
    let mut i: usize = 0;
    while i < v.len()
        invariant
            i <= v.len(),
            v@ == input@,
            spec_spans(v@) == span_views(spans@) + spans_from(v@, i as int, st, cur@),
        decreases v.len() - i,
    {
        let c = v[i];
        if c == '\x03' {
            proof {
                lemma_color_end(v@, i + 1);
                lemma_digits_end(v@, i + 1, 2);
            }
            let ghost old_spans = span_views(spans@);
            let ghost old_st = st;
            let ghost old_cur = cur@;
            push_span(&mut spans, &cur, st);
            cur = Vec::new();
            let (f, e) = color_end_exec(&v, i + 1);
            proof {
                if has_bg(v@, i + 1, f as int) {
                    lemma_digits_end(v@, f + 1, 2);
                }
            }
            if f == i + 1 {
                st = TextStyle { fg_color: None, bg_color: None, ..st };
            } else {
                let fg = digits_value_exec(&v, i + 1, f);
                st = TextStyle { fg_color: if fg < 99 { Some(fg as u8) } else { None }, ..st };
                if e != f {
                    proof {
                        lemma_digits_end(v@, f + 1, 2);
                    }
                    let bg = digits_value_exec(&v, f + 1, e);
                    st = TextStyle { bg_color: if bg < 99 { Some(bg as u8) } else { None }, ..st };
                }
            }
            proof {
                assert(st == style_after_color(v@, i + 1, old_st));
                assert(cur@ =~= Seq::<char>::empty());
                assert(spans_from(v@, i as int, old_st, old_cur)
                    == flush(old_cur, old_st) + spans_from(v@, e as int, st, cur@));
                assert(span_views(spans@) + spans_from(v@, e as int, st, cur@)
                    =~= old_spans + (flush(old_cur, old_st) + spans_from(v@, e as int, st, cur@)));
            }
            i = e;
        } else if c == '\x02' || c == '\x1D' || c == '\x1F' || c == '\x16' || c == '\x0F' {
            push_span(&mut spans, &cur, st);
            cur = Vec::new();
            if c == '\x02' {
                st = TextStyle { bold: !st.bold, ..st };
            } else if c == '\x1F' {
                st = TextStyle { underline: !st.underline, ..st };
            } else if c == '\x1D' {
                st = TextStyle { italic: !st.italic, ..st };
            } else if c == '\x16' {
                st = TextStyle { reverse: !st.reverse, ..st };
            } else {
                st = TextStyle { fg_color: None, bg_color: None, bold: false, underline: false, italic: false, reverse: false };
            }
            i += 1;
        } else {
            cur.push(c);
            i += 1;
        }
    }
    push_span(&mut spans, &cur, st);
    spans
}

/// Concatenation of the texts of a list of runs.
pub open spec fn flatten_texts<T>(v: Seq<(Seq<char>, T)>) -> Seq<char>
    decreases v.len(),
{
    if v.len() == 0 {
        Seq::empty()
    } else {
        v[0].0 + flatten_texts(v.drop_first())
    }
}

pub proof fn lemma_flatten_append<T>(a: Seq<(Seq<char>, T)>, b: Seq<(Seq<char>, T)>)
    ensures
        flatten_texts(a + b) == flatten_texts(a) + flatten_texts(b),
    decreases a.len(),
{
    if a.len() == 0 {
        assert(a + b =~= b);
    } else {
        assert((a + b).drop_first() =~= a.drop_first() + b);
        lemma_flatten_append(a.drop_first(), b);
    }
}

proof fn lemma_flush_text(cur: Seq<char>, st: TextStyle)
    ensures
        flatten_texts(flush(cur, st)) == cur,
{
    if cur.len() > 0 {
        let f = flush(cur, st);
        assert(f.drop_first() =~= Seq::<(Seq<char>, TextStyle)>::empty());
        assert(flatten_texts(f.drop_first()) == Seq::<char>::empty());
        assert(flatten_texts(f) == f[0].0 + flatten_texts(f.drop_first()));
        assert(cur + Seq::<char>::empty() =~= cur);
    } else {
        assert(cur =~= Seq::<char>::empty());
    }
}

/// The runs carry exactly the plain text: the control codes and colour
/// arguments that `parse_irc_colors` consumes are the ones
/// `strip_irc_formatting` drops.
pub proof fn lemma_spans_text(s: Seq<char>, i: int, st: TextStyle, cur: Seq<char>)
    requires
        0 <= i <= s.len(),
    ensures
        flatten_texts(spans_from(s, i, st, cur)) == cur + strip_from(s, i),
    decreases s.len() - i,
{
    lemma_flush_text(cur, st);
    if i < s.len() {
        if s[i] == '\x03' {
            lemma_color_end(s, i + 1);
            let e = color_end(s, i + 1);
            lemma_spans_text(s, e, style_after_color(s, i + 1, st), Seq::empty());
            lemma_flatten_append(flush(cur, st), spans_from(s, e, style_after_color(s, i + 1, st), Seq::empty()));
            assert(Seq::<char>::empty() + strip_from(s, e) =~= strip_from(s, e));
        } else if is_toggle(s[i]) {
            lemma_spans_text(s, i + 1, style_after_toggle(s[i], st), Seq::empty());
            lemma_flatten_append(flush(cur, st), spans_from(s, i + 1, style_after_toggle(s[i], st), Seq::empty()));
            assert(Seq::<char>::empty() + strip_from(s, i + 1) =~= strip_from(s, i + 1));
        } else {
            lemma_spans_text(s, i + 1, st, cur.push(s[i]));
            assert(cur.push(s[i]) + strip_from(s, i + 1) =~= cur + (seq![s[i]] + strip_from(s, i + 1)));
        }
    } else {
        assert(cur + Seq::<char>::empty() =~= cur);
    }
}


/// Characters after which a URL may start (besides whitespace).
pub open spec fn is_url_boundary(c: char) -> bool {
    is_ws(c) || c == '(' || c == '[' || c == '<' || c == '{' || c == '"' || c == '\'' || c == ','
        || c == ';' || c == ':'
}

/// Characters that end a URL (besides whitespace).
pub open spec fn is_url_terminator(c: char) -> bool {
    is_ws(c) || c == '>' || c == ')' || c == ']' || c == '"' || c == '\''
}

/// Whether `w` occurs in `s` at `pos`.
pub open spec fn occurs_at(s: Seq<char>, pos: int, w: Seq<char>) -> bool {
    0 <= pos && pos + w.len() <= s.len() && s.subrange(pos, pos + w.len()) == w
}

/// First position `>= from` at which `w` occurs in `s` (`str::find`).
pub open spec fn next_occ(s: Seq<char>, from: int, w: Seq<char>) -> Option<int>
    decreases s.len() - from,
{
    if w.len() == 0 || from < 0 || from + w.len() > s.len() {
        None
    } else if occurs_at(s, from, w) {
        Some(from)
    } else {
        next_occ(s, from + 1, w)
    }
}

pub proof fn lemma_next_occ(s: Seq<char>, from: int, w: Seq<char>)
    requires
        0 <= from,
    ensures
        match next_occ(s, from, w) {
            Some(p) => from <= p && occurs_at(s, p, w),
            None => true,
        },
    decreases s.len() - from,
{
    if w.len() > 0 && from + w.len() <= s.len() && !occurs_at(s, from, w) {
        lemma_next_occ(s, from + 1, w);
    }
}

/// First occurrence of `w` at or after `from` that starts a word of the text
/// that began at `base`: at `base` itself or after a boundary character.
/// Occurrences that are not at a word start are skipped whole.
pub open spec fn url_search(s: Seq<char>, base: int, from: int, w: Seq<char>) -> Option<int>
    decreases s.len() - from,
{
    if w.len() == 0 || from < 0 {
        None
    } else {
        match next_occ(s, from, w) {
            None => None,
            Some(pos) => if pos < from || pos + w.len() > s.len() {
                None
            } else if pos == base || (pos > 0 && is_url_boundary(s[pos - 1])) {
                Some(pos)
            } else {
                url_search(s, base, pos + w.len(), w)
            },
        }
    }
}

/// The earlier of two candidate positions (the first one wins ties).
pub open spec fn earlier(a: Option<int>, b: Option<int>) -> Option<int> {
    match (a, b) {
        (None, y) => y,
        (Some(x), None) => Some(x),
        (Some(x), Some(y)) => if y < x { Some(y) } else { Some(x) },
    }
}

pub open spec fn http_prefix() -> Seq<char> {
    seq!['h', 't', 't', 'p', ':', '/', '/']
}

pub open spec fn https_prefix() -> Seq<char> {
    seq!['h', 't', 't', 'p', 's', ':', '/', '/']
}

pub open spec fn www_prefix() -> Seq<char> {
    seq!['w', 'w', 'w', '.']
}

/// Where the next URL of the text starting at `base` begins.
pub open spec fn url_start(s: Seq<char>, base: int) -> Option<int> {
    earlier(earlier(url_search(s, base, base, http_prefix()), url_search(s, base, base, https_prefix())),
        url_search(s, base, base, www_prefix()))
}

/// End of the URL starting at `pos`: the first terminator, or the end.
pub open spec fn url_end(s: Seq<char>, pos: int) -> int
    decreases s.len() - pos,
{
    if pos < 0 || pos >= s.len() || is_url_terminator(s[pos]) {
        pos
    } else {
        url_end(s, pos + 1)
    }
}

pub proof fn lemma_url_end(s: Seq<char>, pos: int)
    requires
        0 <= pos <= s.len(),
    ensures
        pos <= url_end(s, pos) <= s.len(),
        pos < s.len() && !is_url_terminator(s[pos]) ==> url_end(s, pos) > pos,
    decreases s.len() - pos,
{
    if pos < s.len() && !is_url_terminator(s[pos]) {
        lemma_url_end(s, pos + 1);
    }
}

pub proof fn lemma_url_search(s: Seq<char>, base: int, from: int, w: Seq<char>)
    requires
        0 <= from,
    ensures
        match url_search(s, base, from, w) {
            Some(p) => from <= p && occurs_at(s, p, w) && w.len() > 0,
            None => true,
        },
    decreases s.len() - from,
{
    if w.len() > 0 {
        lemma_next_occ(s, from, w);
        match next_occ(s, from, w) {
            Some(pos) => {
                if !(pos == base || (pos > 0 && is_url_boundary(s[pos - 1]))) && pos + w.len() <= s.len() {
                    lemma_url_search(s, base, pos + w.len(), w);
                }
            }
            None => {}
        }
    }
}

proof fn lemma_url_start(s: Seq<char>, base: int)
    requires
        0 <= base,
    ensures
        match url_start(s, base) {
            Some(p) => base <= p < s.len() && (s[p] == 'h' || s[p] == 'w'),
            None => true,
        },
{
    lemma_url_search(s, base, base, http_prefix());
    lemma_url_search(s, base, base, https_prefix());
    lemma_url_search(s, base, base, www_prefix());
    match url_search(s, base, base, http_prefix()) {
        Some(p) => { assert(s.subrange(p, p + 7)[0] == 'h'); }
        None => {}
    }
    match url_search(s, base, base, https_prefix()) {
        Some(p) => { assert(s.subrange(p, p + 8)[0] == 'h'); }
        None => {}
    }
    match url_search(s, base, base, www_prefix()) {
        Some(p) => { assert(s.subrange(p, p + 4)[0] == 'w'); }
        None => {}
    }
}

/// The URL and non-URL segments of `s[base..]`.
pub open spec fn url_segments_from(s: Seq<char>, base: int) -> Seq<(Seq<char>, bool)>
    decreases s.len() - base,
{
    if base < 0 || base >= s.len() {
        Seq::empty()
    } else {
        match url_start(s, base) {
            None => seq![(s.subrange(base, s.len() as int), false)],
            Some(pos) => {
                let e = url_end(s, pos);
                if pos < base || e <= pos || e > s.len() {
                    Seq::empty()
                } else {
                    (if pos > base { seq![(s.subrange(base, pos), false)] } else { Seq::empty() })
                        + seq![(s.subrange(pos, e), true)] + url_segments_from(s, e)
                }
            },
        }
    }
}

/// Text split into (segment, is_url) pairs.
pub open spec fn spec_split_urls(s: Seq<char>) -> Seq<(Seq<char>, bool)> {
    url_segments_from(s, 0)
}

/// First occurrence of `w` in `v` at or after `from`.
pub(crate) fn find_seq_from(v: &Vec<char>, from: usize, w: &Vec<char>) -> (r: Option<usize>)
    requires
        from <= v.len(),
    ensures
        match r {
            Some(p) => next_occ(v@, from as int, w@) == Some(p as int),
            None => next_occ(v@, from as int, w@).is_none(),
        },
{
    if w.len() == 0 || w.len() > v.len() {
        return None;
    }
    let mut i: usize = from;
    while i <= v.len() - w.len()
        invariant
            0 < w.len() <= v.len(),
            from <= i <= v.len(),
            next_occ(v@, from as int, w@) == next_occ(v@, i as int, w@),
        decreases v.len() - i,
    {
        if crate::text::starts_with_at(v, i, w) {
            assert(v@.subrange(i as int, v@.len() as int).subrange(0, w@.len() as int)
                =~= v@.subrange(i as int, i + w@.len()));
            return Some(i);
        }
        assert(v@.subrange(i as int, v@.len() as int).subrange(0, w@.len() as int)
            =~= v@.subrange(i as int, i + w@.len()));
        i += 1;
    }
    None
}

fn is_url_boundary_exec(c: char) -> (r: bool)
    ensures
        r == is_url_boundary(c),
{
    is_whitespace(c) || c == '(' || c == '[' || c == '<' || c == '{' || c == '"' || c == '\''
        || c == ',' || c == ';' || c == ':'
}

fn is_url_terminator_exec(c: char) -> (r: bool)
    ensures
        r == is_url_terminator(c),
{
    is_whitespace(c) || c == '>' || c == ')' || c == ']' || c == '"' || c == '\''
}

fn url_search_exec(v: &Vec<char>, base: usize, w: &Vec<char>) -> (r: Option<usize>)
    requires
        base <= v.len(),
        w.len() > 0,
    ensures
        match r {
            Some(p) => url_search(v@, base as int, base as int, w@) == Some(p as int),
            None => url_search(v@, base as int, base as int, w@).is_none(),
        },
{
    let mut from: usize = base;
    while from <= v.len()
        invariant
            base <= from,
            w.len() > 0,
            url_search(v@, base as int, base as int, w@) == url_search(v@, base as int, from as int, w@),
        decreases v.len() + 1 - from,
    {
        proof {
            lemma_next_occ(v@, from as int, w@);
        }
        match find_seq_from(v, from, w) {
            None => {
                return None;
            }
            Some(pos) => {
                if pos == base || (pos > 0 && is_url_boundary_exec(v[pos - 1])) {
                    return Some(pos);
                }
                from = pos + w.len();
            }
        }
    }
    proof {
        lemma_next_occ(v@, from as int, w@);
    }
    None
}

fn earlier_exec(a: Option<usize>, b: Option<usize>) -> (r: Option<usize>)
    ensures
        match r {
            Some(x) => earlier(match a { Some(y) => Some(y as int), None => None },
                match b { Some(y) => Some(y as int), None => None }) == Some(x as int),
            None => earlier(match a { Some(y) => Some(y as int), None => None },
                match b { Some(y) => Some(y as int), None => None }).is_none(),
        },
{
    match (a, b) {
        (None, y) => y,
        (Some(x), None) => Some(x),
        (Some(x), Some(y)) => if y < x { Some(y) } else { Some(x) },
    }
}

/// Split text into URL and non-URL segments. A URL starts with `http://`,
/// `https://` or `www.` at the start of a word and runs to the first
/// whitespace or closing bracket or quote.
pub fn split_urls(text: &str) -> (r: Vec<(String, bool)>)
    ensures
        r@.map_values(|x: (String, bool)| (x.0@, x.1)) == spec_split_urls(text@),
{
    let v = chars_of(text);
    let http: Vec<char> = vec!['h', 't', 't', 'p', ':', '/', '/'];
    let https: Vec<char> = vec!['h', 't', 't', 'p', 's', ':', '/', '/'];
    let www: Vec<char> = vec!['w', 'w', 'w', '.'];
    assert(http@ =~= http_prefix());
    assert(https@ =~= https_prefix());
    assert(www@ =~= www_prefix());
    let mut out: Vec<(String, bool)> = Vec::new();
    let mut base: usize = 0;
    while base < v.len()
        invariant
            base <= v.len(),
            v@ == text@,
            http@ == http_prefix(),
            https@ == https_prefix(),
            www@ == www_prefix(),
            spec_split_urls(v@) == out@.map_values(|x: (String, bool)| (x.0@, x.1)) + url_segments_from(v@, base as int),
        decreases v.len() - base,
    {
        let ghost old_out = out@.map_values(|x: (String, bool)| (x.0@, x.1));
        let a = url_search_exec(&v, base, &http);
        let b = url_search_exec(&v, base, &https);
        let c = url_search_exec(&v, base, &www);
        let start = earlier_exec(earlier_exec(a, b), c);
        proof {
            lemma_url_start(v@, base as int);
        }
        match start {
            None => {
                let rest = string_from_range(&v, base, v.len());
                out.push((rest, false));
                assert(out@.map_values(|x: (String, bool)| (x.0@, x.1)) =~= old_out + url_segments_from(v@, base as int));
                assert(url_segments_from(v@, v.len() as int) =~= Seq::<(Seq<char>, bool)>::empty());
                assert(spec_split_urls(v@) =~= out@.map_values(|x: (String, bool)| (x.0@, x.1)) + url_segments_from(v@, v.len() as int));
                base = v.len();
            }
            Some(pos) => {
                proof {
                    lemma_url_end(v@, pos as int);
                }
                let mut e: usize = pos;
                while e < v.len() && !is_url_terminator_exec(v[e])
                    invariant
                        pos <= e <= v.len(),
                        url_end(v@, pos as int) == url_end(v@, e as int),
                    decreases v.len() - e,
                {
                    e += 1;
                }
                if pos > base {
                    let before = string_from_range(&v, base, pos);
                    out.push((before, false));
                }
                let url = string_from_range(&v, pos, e);
                out.push((url, true));
                assert(out@.map_values(|x: (String, bool)| (x.0@, x.1)) + url_segments_from(v@, e as int)
                    =~= old_out + url_segments_from(v@, base as int));
                base = e;
            }
        }
    }
    assert(url_segments_from(v@, base as int) =~= Seq::<(Seq<char>, bool)>::empty());
    assert(out@.map_values(|x: (String, bool)| (x.0@, x.1)) + Seq::<(Seq<char>, bool)>::empty()
        =~= out@.map_values(|x: (String, bool)| (x.0@, x.1)));
    out
}

/// Splitting into URL segments loses and adds no text.
pub proof fn lemma_url_segments_text(s: Seq<char>, base: int)
    requires
        0 <= base <= s.len(),
    ensures
        flatten_texts(url_segments_from(s, base)) == s.subrange(base, s.len() as int),
    decreases s.len() - base,
{
    if base < s.len() {
        lemma_url_start(s, base);
        match url_start(s, base) {
            None => {
                let f = url_segments_from(s, base);
                assert(f.drop_first() =~= Seq::<(Seq<char>, bool)>::empty());
                assert(flatten_texts(f) == f[0].0 + flatten_texts(f.drop_first()));
                assert(s.subrange(base, s.len() as int) + Seq::<char>::empty() =~= s.subrange(base, s.len() as int));
            }
            Some(pos) => {
                lemma_url_end(s, pos);
                let e = url_end(s, pos);
                lemma_url_segments_text(s, e);
                let pre: Seq<(Seq<char>, bool)> = if pos > base { seq![(s.subrange(base, pos), false)] } else { Seq::empty() };
                let mid: Seq<(Seq<char>, bool)> = seq![(s.subrange(pos, e), true)];
                lemma_flatten_append(pre + mid, url_segments_from(s, e));
                lemma_flatten_append(pre, mid);
                assert(flatten_texts(mid) == s.subrange(pos, e)) by {
                    assert(mid.drop_first() =~= Seq::<(Seq<char>, bool)>::empty());
                    assert(flatten_texts(mid) == mid[0].0 + flatten_texts(mid.drop_first()));
                    assert(s.subrange(pos, e) + Seq::<char>::empty() =~= s.subrange(pos, e));
                }
                if pos > base {
                    assert(pre.drop_first() =~= Seq::<(Seq<char>, bool)>::empty());
                    assert(flatten_texts(pre) == pre[0].0 + flatten_texts(pre.drop_first()));
                    assert(s.subrange(base, pos) + Seq::<char>::empty() =~= s.subrange(base, pos));
                } else {
                    assert(pre =~= Seq::<(Seq<char>, bool)>::empty());
                }
                assert(s.subrange(base, pos) + s.subrange(pos, e) + s.subrange(e, s.len() as int)
                    =~= s.subrange(base, s.len() as int));
            }
        }
    } else {
        assert(s.subrange(base, s.len() as int) =~= Seq::<char>::empty());
    }
}


/// A fully-parsed segment ready for rendering: formatting controls resolved
/// and URL detection already done. Colours are palette codes (see
/// `irc_color`).
#[derive(Clone, Debug)]
pub struct RenderSegment {
    pub text: String,
    pub fg_color: Option<u8>,
    pub bg_color: Option<u8>,
    pub bold: bool,
    pub underline: bool,
    pub italic: bool,
    pub reverse: bool,
    pub is_url: bool,
}

impl View for RenderSegment {
    type V = (Seq<char>, (TextStyle, bool));

    open spec fn view(&self) -> (Seq<char>, (TextStyle, bool)) {
        (self.text@, (TextStyle {
            fg_color: self.fg_color,
            bg_color: self.bg_color,
            bold: self.bold,
            underline: self.underline,
            italic: self.italic,
            reverse: self.reverse,
        }, self.is_url))
    }
}

/// The URL segments of one styled run, each carrying the run's style.
pub open spec fn styled_segments(segs: Seq<(Seq<char>, bool)>, st: TextStyle) -> Seq<(Seq<char>, (TextStyle, bool))> {
    segs.map_values(|x: (Seq<char>, bool)| (x.0, (st, x.1)))
}

/// Render segments of a list of styled runs.
pub open spec fn layout_runs(spans: Seq<(Seq<char>, TextStyle)>) -> Seq<(Seq<char>, (TextStyle, bool))>
    decreases spans.len(),
{
    if spans.len() == 0 {
        Seq::empty()
    } else {
        styled_segments(spec_split_urls(spans[0].0), spans[0].1) + layout_runs(spans.drop_first())
    }
}

/// The render segments of `s`.
pub open spec fn spec_layout(s: Seq<char>) -> Seq<(Seq<char>, (TextStyle, bool))> {
    layout_runs(spec_spans(s))
}

pub open spec fn segment_views(v: Seq<RenderSegment>) -> Seq<(Seq<char>, (TextStyle, bool))> {
    v.map_values(|x: RenderSegment| x@)
}

/// Parse IRC formatting and detect URLs once, producing render-ready segments.
pub fn layout_irc_text(text: &str) -> (r: Vec<RenderSegment>)
    ensures
        segment_views(r@) == spec_layout(text@),
{
    let spans = parse_irc_colors(text);
    let mut out: Vec<RenderSegment> = Vec::new();
    let mut i: usize = 0;
    assert(span_views(spans@).skip(0) =~= span_views(spans@));
    assert(segment_views(out@) + layout_runs(span_views(spans@)) =~= layout_runs(span_views(spans@)));
    while i < spans.len()
        invariant
            i <= spans.len(),
            span_views(spans@) == spec_spans(text@),
            layout_runs(span_views(spans@)) == segment_views(out@) + layout_runs(span_views(spans@).skip(i as int)),
        decreases spans.len() - i,
    {
        let sp = &spans[i];
        let parts = split_urls(sp.text.as_str());
        let ghost before = segment_views(out@);
        let ghost st = sp.style();
        let mut j: usize = 0;
        while j < parts.len()
            invariant
                j <= parts.len(),
                i < spans.len(),
                sp == &spans@[i as int],
                st == sp.style(),
                segment_views(out@) == before + styled_segments(
                    parts@.map_values(|x: (String, bool)| (x.0@, x.1)).take(j as int), st),
            decreases parts.len() - j,
        {
            let ghost pv = parts@.map_values(|x: (String, bool)| (x.0@, x.1));
            let t = parts[j].0.clone();
            assert(pv[j as int] == (parts@[j as int].0@, parts@[j as int].1));
            let seg = RenderSegment {
                text: t,
                fg_color: sp.fg_color,
                bg_color: sp.bg_color,
                bold: sp.bold,
                underline: sp.underline,
                italic: sp.italic,
                reverse: sp.reverse,
                is_url: parts[j].1,
            };
            let ghost prev = out@;
            out.push(seg);
            j += 1;
            assert(segment_views(out@) =~= segment_views(prev).push(seg@));
            assert(pv.take(j as int) =~= pv.take(j - 1).push(pv[j - 1]));
            assert(segment_views(out@) =~= before + styled_segments(
                parts@.map_values(|x: (String, bool)| (x.0@, x.1)).take(j as int), st));
        }
        proof {
            let sv = span_views(spans@);
            assert(sv.skip(i as int)[0] == sv[i as int]);
            assert(sv.skip(i as int).drop_first() =~= sv.skip(i + 1));
            assert(parts@.map_values(|x: (String, bool)| (x.0@, x.1)).take(j as int)
                =~= parts@.map_values(|x: (String, bool)| (x.0@, x.1)));
        }
        i += 1;
    }
    proof {
        assert(span_views(spans@).skip(i as int) =~= Seq::<(Seq<char>, TextStyle)>::empty());
        assert(segment_views(out@) + Seq::<(Seq<char>, (TextStyle, bool))>::empty() =~= segment_views(out@));
    }
    out
}

proof fn lemma_styled_text(segs: Seq<(Seq<char>, bool)>, st: TextStyle)
    ensures
        flatten_texts(styled_segments(segs, st)) == flatten_texts(segs),
    decreases segs.len(),
{
    if segs.len() > 0 {
        assert(styled_segments(segs, st).drop_first() =~= styled_segments(segs.drop_first(), st));
        lemma_styled_text(segs.drop_first(), st);
    }
}

proof fn lemma_layout_runs_text(spans: Seq<(Seq<char>, TextStyle)>)
    ensures
        flatten_texts(layout_runs(spans)) == flatten_texts(spans),
    decreases spans.len(),
{
    if spans.len() > 0 {
        let first = styled_segments(spec_split_urls(spans[0].0), spans[0].1);
        lemma_flatten_append(first, layout_runs(spans.drop_first()));
        lemma_styled_text(spec_split_urls(spans[0].0), spans[0].1);
        lemma_url_segments_text(spans[0].0, 0);
        assert(spans[0].0.subrange(0, spans[0].0.len() as int) =~= spans[0].0);
        lemma_layout_runs_text(spans.drop_first());
    }
}

/// The render segments of a message carry exactly its plain text: joining
/// them gives `strip_irc_formatting` of the message, and URL detection
/// neither loses nor adds characters.
pub proof fn lemma_layout_is_plain_text(s: Seq<char>)
    ensures
        flatten_texts(spec_layout(s)) == spec_strip(s),
        flatten_texts(spec_split_urls(s)) == s,
{
    lemma_spans_text(s, 0, plain_style(), Seq::empty());
    assert(Seq::<char>::empty() + strip_from(s, 0) =~= strip_from(s, 0));
    lemma_layout_runs_text(spec_spans(s));
    lemma_url_segments_text(s, 0);
    assert(s.subrange(0, s.len() as int) =~= s);
}

/// Hash of a nick's UTF-8 bytes: `h = (h + b) * 31`, wrapping.
pub open spec fn nick_hash(bytes: Seq<u8>) -> u32
    decreases bytes.len(),
{
    if bytes.len() == 0 {
        0
    } else {
        vstd::wrapping::u32_specs::wrapping_mul(
            vstd::wrapping::u32_specs::wrapping_add(nick_hash(bytes.drop_last()), bytes.last() as u32), 31)
    }
}

/// Get a consistent colour for a nick based on a hash of its bytes.
pub fn nick_color(nick: &str) -> (r: (u8, u8, u8))
    ensures
        r == nick_palette(nick_hash(nick.spec_bytes()) % 16),
{
    let bytes = nick.as_bytes();
    let mut hash: u32 = 0;
    let mut i: usize = 0;
    while i < bytes.len()
        invariant
            i <= bytes@.len(),
            bytes@ == nick.spec_bytes(),
            hash == nick_hash(bytes@.subrange(0, i as int)),
        decreases bytes.len() - i,
    {
        let ghost prev = bytes@.subrange(0, i as int);
        hash = hash.wrapping_add(bytes[i] as u32).wrapping_mul(31);
        i += 1;
        assert(bytes@.subrange(0, i as int).drop_last() =~= prev);
    }
    assert(bytes@.subrange(0, bytes@.len() as int) =~= bytes@);
    nick_palette_exec(hash % 16)
}

/// A colour channel brightened by 40, saturating at 255.
pub open spec fn brighter(c: u8) -> u8 {
    if c as int + 40 > 255 { 255 } else { (c + 40) as u8 }
}

/// The colour bold text is drawn in: each channel 40 brighter (at most
/// 255), so bold runs stand out.
pub fn bold_color(rgb: (u8, u8, u8)) -> (r: (u8, u8, u8))
    ensures
        r == (brighter(rgb.0), brighter(rgb.1), brighter(rgb.2)),
{
    let up = |c: u8| -> (r: u8)
        ensures
            r == brighter(c),
    {
        if c > 215 { 255 } else { c + 40 }
    };
    (up(rgb.0), up(rgb.1), up(rgb.2))
}

/// Where a detected URL links to: a bare `www.` address gets `https://`.
pub fn link_target(url: &str) -> (r: String)
    ensures
        r@ == if url@.len() >= 4 && url@.take(4) == "www."@ { "https://"@ + url@ } else { url@ },
{
    let v = chars_of(url);
    let www = v.len() >= 4 && v[0] == 'w' && v[1] == 'w' && v[2] == 'w' && v[3] == '.';
    proof {
        reveal_strlit("www.");
        assert("www."@ =~= seq!['w', 'w', 'w', '.']);
        if v@.len() >= 4 {
            let t = v@.take(4);
            assert(t[0] == v@[0] && t[1] == v@[1] && t[2] == v@[2] && t[3] == v@[3]);
            if www {
                assert(t =~= seq!['w', 'w', 'w', '.']);
            } else if t == seq!['w', 'w', 'w', '.'] {
                assert(t[0] == 'w' && t[1] == 'w' && t[2] == 'w' && t[3] == '.');
            }
        }
    }
    if www {
        let mut r = to_string("https://");
        push_str(&mut r, url);
        r
    } else {
        to_string(url)
    }
}

} // verus!
