//! Channel membership modes and IRC identifier case mapping.

use vstd::prelude::*;

use precis_profiles::precis_core::profile::Profile;

use crate::text::{ascii_lower_seq, ascii_lower_vec, chars_of, chars_eq, push_char, string_from_chars};

verus! {

/// User mode in a channel (determines prefix and sort order).
#[derive(Debug, Clone, Copy, PartialEq, Eq, PartialOrd, Ord, Structural)]
pub enum UserMode {
    Owner,
    Admin,
    Op,
    HalfOp,
    Voice,
    Normal,
}

/// The channel mode letter that grants a membership mode.
pub open spec fn spec_mode_letter(m: UserMode) -> Option<char> {
    match m {
        UserMode::Owner => Some('q'),
        UserMode::Admin => Some('a'),
        UserMode::Op => Some('o'),
        UserMode::HalfOp => Some('h'),
        UserMode::Voice => Some('v'),
        UserMode::Normal => None,
    }
}

/// The membership mode a channel mode letter grants.
pub open spec fn spec_from_mode_letter(c: char) -> Option<UserMode> {
    if c == 'q' {
        Some(UserMode::Owner)
    } else if c == 'a' {
        Some(UserMode::Admin)
    } else if c == 'o' {
        Some(UserMode::Op)
    } else if c == 'h' {
        Some(UserMode::HalfOp)
    } else if c == 'v' {
        Some(UserMode::Voice)
    } else {
        None
    }
}

/// The nick-list prefix shown for a membership mode.
pub open spec fn spec_mode_prefix(m: UserMode) -> Seq<char> {
    match m {
        UserMode::Owner => seq!['~'],
        UserMode::Admin => seq!['&'],
        UserMode::Op => seq!['@'],
        UserMode::HalfOp => seq!['%'],
        UserMode::Voice => seq!['+'],
        UserMode::Normal => Seq::empty(),
    }
}

impl UserMode {
    /// The channel mode letter for this membership mode (`None` for Normal).
    pub fn mode_letter(self) -> (r: Option<char>)
        ensures
            r == spec_mode_letter(self),
    {
        match self {
            UserMode::Owner => Some('q'),
            UserMode::Admin => Some('a'),
            UserMode::Op => Some('o'),
            UserMode::HalfOp => Some('h'),
            UserMode::Voice => Some('v'),
            UserMode::Normal => None,
        }
    }

    /// The membership mode for a channel mode letter (q, a, o, h, v).
    pub fn from_mode_letter(c: char) -> (r: Option<UserMode>)
        ensures
            r == spec_from_mode_letter(c),
    {
        match c {
            'q' => Some(UserMode::Owner),
            'a' => Some(UserMode::Admin),
            'o' => Some(UserMode::Op),
            'h' => Some(UserMode::HalfOp),
            'v' => Some(UserMode::Voice),
            _ => None,
        }
    }

    /// The nick-list prefix for this membership mode.
    pub fn prefix(&self) -> (r: &'static str)
        ensures
            r@ == spec_mode_prefix(*self),
    {
        proof {
            reveal_strlit("~");
            reveal_strlit("&");
            reveal_strlit("@");
            reveal_strlit("%");
            reveal_strlit("+");
            reveal_strlit("");
        }
        match self {
            UserMode::Owner => "~",
            UserMode::Admin => "&",
            UserMode::Op => "@",
            UserMode::HalfOp => "%",
            UserMode::Voice => "+",
            UserMode::Normal => "",
        }
    }
}

/// Letters and modes correspond: each mode letter maps back to its mode.
pub proof fn lemma_mode_letter_round_trip(m: UserMode)
    ensures
        match spec_mode_letter(m) {
            Some(c) => spec_from_mode_letter(c) == Some(m),
            None => m == UserMode::Normal,
        },
{
}

/// IRC identifier case folding advertised by ISUPPORT CASEMAPPING.
#[derive(Debug, Clone, Copy, PartialEq, Eq, Structural)]
pub enum CaseMapping {
    Ascii,
    StrictRfc1459,
    Rfc1459,
    /// Unicode identifier comparison requested by `UTF8MAPPING=rfc8265`.
    Utf8Rfc8265,
}

impl Default for CaseMapping {
    fn default() -> (r: Self)
        ensures
            r == CaseMapping::Rfc1459,
    {
        CaseMapping::Rfc1459
    }
}

/// The result of the PRECIS `UsernameCaseMapped` profile (RFC 8265) on a
/// string: the enforced form, or `None` when the string is not allowed.
pub uninterp spec fn precis_username_casemapped(value: Seq<char>) -> Option<Seq<char>>;

/// Calls `UsernameCaseMapped::new().enforce(value)` of `precis_profiles`.
/// Claimed: the result is the named PRECIS result of `value`; empty input is
/// rejected and an accepted result is never empty (the profile checks both).
#[verifier::external_body]
fn precis_enforce_username(value: &str) -> (r: Option<String>)
    ensures
        match r {
            Some(s) => precis_username_casemapped(value@) == Some(s@),
            None => precis_username_casemapped(value@).is_none(),
        },
        value@.len() == 0 ==> r.is_none(),
        r matches Some(s) ==> s@.len() > 0,
{
    precis_profiles::UsernameCaseMapped::new().enforce(value).ok().map(|v| v.into_owned())
}

/// One character under an RFC 1459-family case mapping: ASCII letters are
/// lower-cased; `[]\` fold to `{}|` except under `ascii`; `^` folds to `~`
/// only under `rfc1459`.
pub open spec fn fold_char(m: CaseMapping, c: char) -> char {
    if 'A' <= c <= 'Z' {
        ((c as u32) + 32) as char
    } else if c == '[' && m != CaseMapping::Ascii {
        '{'
    } else if c == ']' && m != CaseMapping::Ascii {
        '}'
    } else if c == '\\' && m != CaseMapping::Ascii {
        '|'
    } else if c == '^' && m == CaseMapping::Rfc1459 {
        '~'
    } else {
        c
    }
}

/// The canonical key of an identifier under a case mapping. Under
/// `Utf8Rfc8265` it is the PRECIS result, or the ASCII lower-case form for
/// input PRECIS rejects.
pub open spec fn spec_canonicalize(m: CaseMapping, s: Seq<char>) -> Seq<char> {
    if m == CaseMapping::Utf8Rfc8265 {
        match precis_username_casemapped(s) {
            Some(t) => t,
            None => ascii_lower_seq(s),
        }
    } else {
        s.map_values(|c: char| fold_char(m, c))
    }
}

fn fold_char_exec(m: CaseMapping, c: char) -> (r: char)
    ensures
        r == fold_char(m, c),
{
    if 'A' <= c && c <= 'Z' {
        ((c as u32) + 32) as u8 as char
    } else if c == '[' && m != CaseMapping::Ascii {
        '{'
    } else if c == ']' && m != CaseMapping::Ascii {
        '}'
    } else if c == '\\' && m != CaseMapping::Ascii {
        '|'
    } else if c == '^' && m == CaseMapping::Rfc1459 {
        '~'
    } else {
        c
    }
}

impl CaseMapping {
    /// Produce a stable key for an IRC nickname or channel. IRC casemapping is
    /// deliberately ASCII-only; Unicode text outside the IRC identifier range
    /// must not acquire locale- or Unicode-dependent equivalences.
    pub fn canonicalize(self, value: &str) -> (r: String)
        ensures
            r@ == spec_canonicalize(self, value@),
    {
        if self == CaseMapping::Utf8Rfc8265 {
            // Invalid PRECIS input must remain distinct instead of being folded
            // into another identifier; ASCII folding is a deterministic and
            // conservative fallback.
            return match precis_enforce_username(value) {
                Some(s) => s,
                None => {
                    let v = chars_of(value);
                    string_from_chars(&ascii_lower_vec(&v))
                }
            };
        }
        let v = chars_of(value);
        let mut out = String::new();
        let mut i: usize = 0;
        while i < v.len()
            invariant
                i <= v.len(),
                v@ == value@,
                self != CaseMapping::Utf8Rfc8265,
                out@ == v@.subrange(0, i as int).map_values(|c: char| fold_char(self, c)),
            decreases v.len() - i,
        {
            push_char(&mut out, fold_char_exec(self, v[i]));
            i += 1;
            assert(out@ =~= v@.subrange(0, i as int).map_values(|c: char| fold_char(self, c)));
        }
        assert(v@.subrange(0, v@.len() as int) =~= v@);
        out
    }

    /// Whether two identifiers are equal under this case mapping.
    pub fn eq(self, left: &str, right: &str) -> (r: bool)
        ensures
            r == (spec_canonicalize(self, left@) == spec_canonicalize(self, right@)),
    {
        let a = self.canonicalize(left);
        let b = self.canonicalize(right);
        chars_eq(&chars_of(a.as_str()), &chars_of(b.as_str()))
    }
}

/// Folding is idempotent for the RFC 1459 family of mappings: a canonical
/// key is its own key.
pub proof fn lemma_canonicalize_idempotent(m: CaseMapping, s: Seq<char>)
    requires
        m != CaseMapping::Utf8Rfc8265,
    ensures
        spec_canonicalize(m, spec_canonicalize(m, s)) == spec_canonicalize(m, s),
{
    let t = spec_canonicalize(m, s);
    assert forall|k: int| 0 <= k < t.len() implies fold_char(m, t[k]) == t[k] by {}
    assert(spec_canonicalize(m, t) =~= t);
}

/// The relation `CaseMapping::eq` computes is an equivalence: reflexive,
/// symmetric and transitive, for every mapping.
pub proof fn lemma_case_eq_equivalence(m: CaseMapping, a: Seq<char>, b: Seq<char>, c: Seq<char>)
    ensures
        spec_canonicalize(m, a) == spec_canonicalize(m, a),
        (spec_canonicalize(m, a) == spec_canonicalize(m, b)) == (spec_canonicalize(m, b) == spec_canonicalize(m, a)),
        spec_canonicalize(m, a) == spec_canonicalize(m, b) && spec_canonicalize(m, b) == spec_canonicalize(m, c)
            ==> spec_canonicalize(m, a) == spec_canonicalize(m, c),
{
}

proof fn lemma_lower_char(c: char)
    ensures
        'A' <= c <= 'Z' ==> ('a' <= ((c as u32) + 32) as char <= 'z'
            && ((((c as u32) + 32) as char) as u32) == (c as u32) + 32),
{
    if 'A' <= c <= 'Z' {
        let n: u32 = ((c as u32) + 32) as u32;
        assert(97 <= n <= 122);
        assert((n as char) as u32 == n);
    }
}

/// Under every RFC 1459-family mapping, ASCII case does not distinguish
/// identifiers.
pub proof fn lemma_ascii_case_insensitive(m: CaseMapping, a: Seq<char>, b: Seq<char>)
    requires
        m != CaseMapping::Utf8Rfc8265,
        ascii_lower_seq(a) == ascii_lower_seq(b),
    ensures
        spec_canonicalize(m, a) == spec_canonicalize(m, b),
{
    assert(a.len() == ascii_lower_seq(a).len());
    assert forall|k: int| 0 <= k < a.len() implies fold_char(m, a[k]) == fold_char(m, b[k]) by {
        assert(ascii_lower_seq(a).len() == ascii_lower_seq(b).len());
        assert(ascii_lower_seq(a)[k] == crate::text::ascii_lower(a[k]));
        assert(ascii_lower_seq(b)[k] == crate::text::ascii_lower(b[k]));
        assert(ascii_lower_seq(a)[k] == ascii_lower_seq(b)[k]);
        lemma_lower_char(a[k]);
        lemma_lower_char(b[k]);
    }
    assert(spec_canonicalize(m, a) =~= spec_canonicalize(m, b));
}

} // verus!
