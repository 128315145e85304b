//! Channel membership: users with their status modes, ban and mode lists,
//! channel modes with parameters, NAMES bursts and the scrollback.

use vstd::prelude::*;
use vstd::multiset::Multiset;

use crate::casemap::{spec_canonicalize, spec_from_mode_letter, spec_mode_letter, spec_mode_prefix, CaseMapping, UserMode};
use crate::message::ChatMessage;
use crate::network::{prefix_letters, prefix_run, spec_network_canonicalize, NetworkSupport};
use crate::text::{
    chars_of, contains_char, eq_ignore_ascii_case, find_char, find_from, has_char, lemma_find_from, push_char,
    range_eq_ignore_ascii_case, split_whitespace, string_from_range, to_string, views, words,
};

verus! {

broadcast use vstd::seq_lib::group_to_multiset_ensures, vstd::multiset::group_multiset_axioms;

/// The characters of an optional string.
pub open spec fn opt_view(o: Option<String>) -> Option<Seq<char>> {
    match o {
        Some(s) => Some(s@),
        None => None,
    }
}

/// A copy of an optional string.
pub fn clone_opt(o: &Option<String>) -> (r: Option<String>)
    ensures
        r == *o,
{
    match o {
        Some(s) => Some(s.clone()),
        None => None,
    }
}

/// Ban list entry.
#[derive(Debug, Clone)]
pub struct BanEntry {
    pub mask: String,
    pub set_by: String,
    pub set_time: u64,
}

/// Identity and presence data shared across every channel membership and
/// retained for MONITOR/WATCH users who do not share a channel with us.
#[derive(Debug, Clone)]
pub struct KnownUser {
    pub nick: String,
    pub username: Option<String>,
    pub hostname: Option<String>,
    pub account: Option<String>,
    pub realname: Option<String>,
    pub away: Option<String>,
    pub bot: bool,
    pub online: bool,
}

impl Default for KnownUser {
    fn default() -> (r: Self)
        ensures
            r.nick@.len() == 0,
            r.username is None,
            r.hostname is None,
            r.account is None,
            r.realname is None,
            r.away is None,
            !r.bot,
            !r.online,
    {
        KnownUser {
            nick: String::new(),
            username: None,
            hostname: None,
            account: None,
            realname: None,
            away: None,
            bot: false,
            online: false,
        }
    }
}

/// What a channel member is, as the contracts see it.
pub struct UserView {
    pub nick: Seq<char>,
    pub mode: UserMode,
    /// Every status mode letter the member holds, in the order received.
    pub letters: Seq<char>,
    /// The prefix shown in the nick list.
    pub prefix: Seq<char>,
    /// Sort rank: position of the displayed mode in the prefix schema.
    pub rank: int,
    pub away: Option<Seq<char>>,
    pub account: Option<Seq<char>>,
    pub realname: Option<Seq<char>>,
    pub username: Option<Seq<char>>,
    pub hostname: Option<Seq<char>>,
    pub bot: bool,
}

/// A user in a channel with mode and away status.
#[derive(Debug, Clone)]
pub struct ChannelUser {
    pub nick: String,
    pub mode: UserMode,
    mode_letters: Vec<char>,
    display_prefix: String,
    rank: usize,
    /// `None` = not away, `Some(msg)` = away with message.
    pub away: Option<String>,
    /// IRCv3 account name.
    pub account: Option<String>,
    /// IRCv3 extended-join / setname value.
    pub realname: Option<String>,
    pub username: Option<String>,
    pub hostname: Option<String>,
    pub bot: bool,
}

impl View for ChannelUser {
    type V = UserView;

    closed spec fn view(&self) -> UserView {
        UserView {
            nick: self.nick@,
            mode: self.mode,
            letters: self.mode_letters@,
            prefix: self.display_prefix@,
            rank: self.rank as int,
            away: opt_view(self.away),
            account: opt_view(self.account),
            realname: opt_view(self.realname),
            username: opt_view(self.username),
            hostname: opt_view(self.hostname),
            bot: self.bot,
        }
    }
}

/// Index of the first schema mode (at or after `k`) that the member holds.
pub open spec fn first_held(modes: Seq<char>, letters: Seq<char>, k: int) -> Option<int>
    decreases modes.len() - k,
{
    if k < 0 || k >= modes.len() {
        None
    } else if has_char(letters, modes[k]) {
        Some(k)
    } else {
        first_held(modes, letters, k + 1)
    }
}

/// Sort rank for held `letters` under the schema `modes`: the position of
/// the highest-ranked held mode, or `usize::MAX` when none is held.
pub open spec fn display_rank(modes: Seq<char>, letters: Seq<char>) -> int {
    match first_held(modes, letters, 0) {
        Some(k) => k,
        None => usize::MAX as int,
    }
}

/// The prefix symbol shown for held `letters` (empty when none is held, or
/// when the schema has no symbol at that position).
pub open spec fn display_prefix_of(modes: Seq<char>, prefixes: Seq<char>, letters: Seq<char>) -> Seq<char> {
    match first_held(modes, letters, 0) {
        Some(k) => if k < prefixes.len() {
            seq![prefixes[k]]
        } else {
            Seq::empty()
        },
        None => Seq::empty(),
    }
}

/// The membership mode shown for held `letters`.
pub open spec fn display_mode_of(modes: Seq<char>, letters: Seq<char>) -> UserMode {
    match first_held(modes, letters, 0) {
        Some(k) => match spec_from_mode_letter(modes[k]) {
            Some(m) => m,
            None => UserMode::Normal,
        },
        None => UserMode::Normal,
    }
}

/// A member with the given held letters and the display derived from them.
pub open spec fn with_letters(v: UserView, letters: Seq<char>, modes: Seq<char>, prefixes: Seq<char>) -> UserView {
    UserView {
        nick: v.nick,
        mode: display_mode_of(modes, letters),
        letters: letters,
        prefix: display_prefix_of(modes, prefixes, letters),
        rank: display_rank(modes, letters),
        away: v.away,
        account: v.account,
        realname: v.realname,
        username: v.username,
        hostname: v.hostname,
        bot: v.bot,
    }
}

/// Whether a member's display agrees with its held letters under a schema.
pub open spec fn displays(v: UserView, modes: Seq<char>, prefixes: Seq<char>) -> bool {
    v == with_letters(v, v.letters, modes, prefixes)
}

/// Held letters after gaining `c` (no duplicates are added).
pub open spec fn add_letter(letters: Seq<char>, c: char) -> Seq<char> {
    if has_char(letters, c) {
        letters
    } else {
        letters.push(c)
    }
}

/// Held letters after losing `c` (every occurrence, order kept).
pub open spec fn without_char(letters: Seq<char>, c: char) -> Seq<char>
    decreases letters.len(),
{
    if letters.len() == 0 {
        letters
    } else {
        let rest = without_char(letters.drop_last(), c);
        if letters.last() != c {
            rest.push(letters.last())
        } else {
            rest
        }
    }
}

proof fn lemma_first_held(modes: Seq<char>, letters: Seq<char>, k: int)
    ensures
        match first_held(modes, letters, k) {
            Some(j) => k <= j < modes.len() && 0 <= j && has_char(letters, modes[j]),
            None => true,
        },
    decreases modes.len() - k,
{
    if k >= 0 && k < modes.len() && !has_char(letters, modes[k]) {
        lemma_first_held(modes, letters, k + 1);
    }
}

/// Sort rank `ChannelUser::new` gives a membership mode.
pub open spec fn new_rank(mode: UserMode) -> int {
    match mode {
        UserMode::Owner => 0,
        UserMode::Admin => 1,
        UserMode::Op => 2,
        UserMode::HalfOp => 3,
        UserMode::Voice => 4,
        UserMode::Normal => usize::MAX as int,
    }
}

/// A freshly created member with no metadata.
pub open spec fn new_member(nick: Seq<char>, mode: UserMode) -> UserView {
    UserView {
        nick: nick,
        mode: mode,
        letters: match spec_mode_letter(mode) {
            Some(c) => seq![c],
            None => Seq::empty(),
        },
        prefix: spec_mode_prefix(mode),
        rank: new_rank(mode),
        away: None,
        account: None,
        realname: None,
        username: None,
        hostname: None,
        bot: false,
    }
}

fn first_held_exec(modes: &Vec<char>, letters: &Vec<char>) -> (r: Option<usize>)
    ensures
        match r {
            Some(k) => first_held(modes@, letters@, 0) == Some(k as int),
            None => first_held(modes@, letters@, 0).is_none(),
        },
{
    let mut k: usize = 0;
    while k < modes.len()
        invariant
            k <= modes.len(),
            first_held(modes@, letters@, 0) == first_held(modes@, letters@, k as int),
        decreases modes.len() - k,
    {
        if contains_char(letters, modes[k]) {
            return Some(k);
        }
        k += 1;
    }
    None
}

impl ChannelUser {
    pub fn new(nick: String, mode: UserMode) -> (r: Self)
        ensures
            r@ == new_member(nick@, mode),
    {
        let mode_letter = mode.mode_letter();
        let mut letters: Vec<char> = Vec::new();
        if let Some(c) = mode_letter {
            letters.push(c);
        }
        let prefix = mode.prefix();
        let rank: usize = match mode {
            UserMode::Owner => 0,
            UserMode::Admin => 1,
            UserMode::Op => 2,
            UserMode::HalfOp => 3,
            UserMode::Voice => 4,
            UserMode::Normal => usize::MAX,
        };
        let r = ChannelUser {
            nick,
            mode,
            mode_letters: letters,
            display_prefix: crate::text::to_string(prefix),
            rank,
            away: None,
            account: None,
            realname: None,
            username: None,
            hostname: None,
            bot: false,
        };
        assert(r@.letters =~= new_member(nick@, mode).letters);
        r
    }

    pub fn is_away(&self) -> (r: bool)
        ensures
            r == self@.away.is_some(),
    {
        self.away.is_some()
    }

    /// Whether the member holds `mode` (`Normal`: holds no status mode).
    pub fn has_mode(&self, mode: UserMode) -> (r: bool)
        ensures
            r == match spec_mode_letter(mode) {
                Some(c) => has_char(self@.letters, c),
                None => self@.letters.len() == 0,
            },
    {
        match mode.mode_letter() {
            Some(c) => contains_char(&self.mode_letters, c),
            None => self.mode_letters.len() == 0,
        }
    }

    /// The prefix shown in the nick list.
    pub fn prefix(&self) -> (r: &str)
        ensures
            r@ == self@.prefix,
    {
        self.display_prefix.as_str()
    }

    /// Gain the status mode `letter`, then redisplay under the schema.
    pub fn add_status_mode(&mut self, letter: char, modes: &str, prefixes: &str)
        ensures
            final(self)@ == with_letters(old(self)@, add_letter(old(self)@.letters, letter), modes@, prefixes@),
    {
        if !contains_char(&self.mode_letters, letter) {
            self.mode_letters.push(letter);
        }
        self.refresh_display_mode(modes, prefixes);
    }

    /// Lose the status mode `letter`, then redisplay under the schema.
    pub fn remove_status_mode(&mut self, letter: char, modes: &str, prefixes: &str)
        ensures
            final(self)@ == with_letters(old(self)@, without_char(old(self)@.letters, letter), modes@, prefixes@),
    {
        let ghost old_letters = self.mode_letters@;
        let mut kept: Vec<char> = Vec::new();
        let mut i: usize = 0;
        while i < self.mode_letters.len()
            invariant
                i <= self.mode_letters.len(),
                self.mode_letters@ == old_letters,
                kept@ == without_char(old_letters.take(i as int), letter),
            decreases self.mode_letters.len() - i,
        {
            let c = self.mode_letters[i];
            proof {
                assert(old_letters.take(i as int + 1).drop_last() =~= old_letters.take(i as int));
            }
            if c != letter {
                kept.push(c);
            }
            i += 1;
        }
        assert(old_letters.take(old_letters.len() as int) =~= old_letters);
        self.mode_letters = kept;
        self.refresh_display_mode(modes, prefixes);
    }

    /// Recompute the displayed mode, prefix and rank from the held letters
    /// under the schema `modes` / `prefixes`.
    pub fn refresh_display_mode(&mut self, modes: &str, prefixes: &str)
        ensures
            final(self)@ == with_letters(old(self)@, old(self)@.letters, modes@, prefixes@),
    {
        let mv = chars_of(modes);
        let pv = chars_of(prefixes);
        let held = first_held_exec(&mv, &self.mode_letters);
        proof {
            lemma_first_held(mv@, self.mode_letters@, 0);
        }
        match held {
            Some(k) => {
                self.rank = k;
                if k < pv.len() {
                    self.display_prefix = string_from_range(&pv, k, k + 1);
                    assert(pv@.subrange(k as int, k + 1) =~= seq![pv@[k as int]]);
                } else {
                    self.display_prefix = String::new();
                }
                self.mode = match UserMode::from_mode_letter(mv[k]) {
                    Some(m) => m,
                    None => UserMode::Normal,
                };
            },
            None => {
                self.rank = usize::MAX;
                self.display_prefix = String::new();
                self.mode = UserMode::Normal;
            },
        }
    }
}

/// Lexicographic `<=` on code points of `a[i..]` and `b[i..]` (the order of
/// `str` comparison).
pub open spec fn lex_le_from(a: Seq<char>, b: Seq<char>, i: int) -> bool
    decreases a.len() - i,
{
    if i >= a.len() {
        true
    } else if i >= b.len() {
        false
    } else if a[i] != b[i] {
        a[i] < b[i]
    } else {
        lex_le_from(a, b, i + 1)
    }
}

/// Lexicographic `<=` on code points.
pub open spec fn lex_le(a: Seq<char>, b: Seq<char>) -> bool {
    lex_le_from(a, b, 0)
}

pub(crate) proof fn lemma_lex_total(a: Seq<char>, b: Seq<char>, i: int)
    ensures
        lex_le_from(a, b, i) || lex_le_from(b, a, i),
    decreases a.len() - i,
{
    if i < a.len() && i < b.len() && a[i] == b[i] {
        lemma_lex_total(a, b, i + 1);
    }
}

pub(crate) proof fn lemma_lex_trans(a: Seq<char>, b: Seq<char>, c: Seq<char>, i: int)
    requires
        lex_le_from(a, b, i),
        lex_le_from(b, c, i),
    ensures
        lex_le_from(a, c, i),
    decreases a.len() - i,
{
    if i < a.len() && i < b.len() && i < c.len() && a[i] == b[i] && b[i] == c[i] {
        lemma_lex_trans(a, b, c, i + 1);
    }
}

pub(crate) fn lex_le_exec(a: &Vec<char>, b: &Vec<char>) -> (r: bool)
    ensures
        r == lex_le(a@, b@),
{
    let mut i: usize = 0;
    loop
        invariant
            i <= a.len(),
            i <= b.len(),
            lex_le_from(a@, b@, 0) == lex_le_from(a@, b@, i as int),
        decreases a.len() - i,
    {
        if i >= a.len() {
            return true;
        }
        if i >= b.len() {
            return false;
        }
        if a[i] != b[i] {
            return a[i] < b[i];
        }
        i += 1;
    }
}

/// Nick-list order: by rank, then by the canonical nick.
pub open spec fn member_le(m: CaseMapping, a: UserView, b: UserView) -> bool {
    a.rank < b.rank || (a.rank == b.rank && lex_le(spec_canonicalize(m, a.nick), spec_canonicalize(m, b.nick)))
}

/// Members in nick-list order.
pub open spec fn members_sorted(m: CaseMapping, s: Seq<UserView>) -> bool {
    forall|i: int, j: int| 0 <= i < j < s.len() ==> member_le(m, #[trigger] s[i], #[trigger] s[j])
}

/// The views of a list of members.
pub open spec fn user_views(s: Seq<ChannelUser>) -> Seq<UserView> {
    s.map_values(|u: ChannelUser| u@)
}

proof fn lemma_member_le_total(m: CaseMapping, a: UserView, b: UserView)
    ensures
        member_le(m, a, b) || member_le(m, b, a),
{
    lemma_lex_total(spec_canonicalize(m, a.nick), spec_canonicalize(m, b.nick), 0);
}

proof fn lemma_member_le_trans(m: CaseMapping, a: UserView, b: UserView, c: UserView)
    requires
        member_le(m, a, b),
        member_le(m, b, c),
    ensures
        member_le(m, a, c),
{
    if a.rank == b.rank && b.rank == c.rank {
        lemma_lex_trans(spec_canonicalize(m, a.nick), spec_canonicalize(m, b.nick), spec_canonicalize(m, c.nick), 0);
    }
}

/// Insertion keeps the order when everything before `p` precedes `x` and
/// `x` precedes the element at `p`.
proof fn lemma_insert_sorted(m: CaseMapping, s: Seq<UserView>, p: int, x: UserView)
    requires
        members_sorted(m, s),
        0 <= p <= s.len(),
        forall|j: int| 0 <= j < p ==> member_le(m, #[trigger] s[j], x),
        p < s.len() ==> member_le(m, x, s[p]),
    ensures
        members_sorted(m, s.insert(p, x)),
{
    let t = s.insert(p, x);
    assert forall|j: int| p <= j < s.len() implies member_le(m, x, #[trigger] s[j]) by {
        if j > p {
            lemma_member_le_trans(m, x, s[p], s[j]);
        }
    }
    assert forall|i: int, j: int| 0 <= i < j < t.len() implies member_le(m, #[trigger] t[i], #[trigger] t[j]) by {
        if j < p {
            assert(t[i] == s[i] && t[j] == s[j]);
        } else if j == p {
            assert(t[i] == s[i]);
        } else if i == p {
            assert(t[j] == s[j - 1]);
        } else if i < p {
            assert(t[i] == s[i] && t[j] == s[j - 1]);
        } else {
            assert(t[i] == s[i - 1] && t[j] == s[j - 1]);
        }
    }
}

/// Stable insertion sort of members into nick-list order.
fn sort_members(m: CaseMapping, users: Vec<ChannelUser>) -> (out: Vec<ChannelUser>)
    ensures
        members_sorted(m, user_views(out@)),
        user_views(out@).to_multiset() == user_views(users@).to_multiset(),
{
    let ghost orig = user_views(users@);
    let mut src = users;
    let mut out: Vec<ChannelUser> = Vec::new();
    let mut keys: Vec<Vec<char>> = Vec::new();
    assert(user_views(out@).to_multiset() =~= Multiset::empty());
    while src.len() > 0
        invariant
            user_views(out@).to_multiset().add(user_views(src@).to_multiset()) == orig.to_multiset(),
            members_sorted(m, user_views(out@)),
            keys.len() == out.len(),
            forall|j: int| 0 <= j < out.len() ==> (#[trigger] keys@[j])@ == spec_canonicalize(m, out@[j]@.nick),
        decreases src.len(),
    {
        let ghost src_before = src@;
        let u = src.remove(0);
        proof {
            assert(user_views(src@) =~= user_views(src_before).remove(0));
        }
        let key = chars_of(m.canonicalize(u.nick.as_str()).as_str());
        let mut p: usize = 0;
        loop
            invariant
                p <= out.len(),
                keys.len() == out.len(),
                key@ == spec_canonicalize(m, u@.nick),
                forall|j: int| 0 <= j < out.len() ==> (#[trigger] keys@[j])@ == spec_canonicalize(m, out@[j]@.nick),
                forall|j: int| 0 <= j < p ==> member_le(m, #[trigger] user_views(out@)[j], u@),
            ensures
                p <= out.len(),
                forall|j: int| 0 <= j < p ==> member_le(m, #[trigger] user_views(out@)[j], u@),
                p < out.len() ==> !member_le(m, user_views(out@)[p as int], u@),
            decreases out.len() - p,
        {
            if p >= out.len() {
                break;
            }
            let before = out[p].rank < u.rank || (out[p].rank == u.rank && lex_le_exec(&keys[p], &key));
            if !before {
                break;
            }
            p += 1;
        }
        proof {
            if p < out.len() {
                lemma_member_le_total(m, user_views(out@)[p as int], u@);
            }
            lemma_insert_sorted(m, user_views(out@), p as int, u@);
        }
        let ghost out_before = out@;
        let ghost keys_before = keys@;
        out.insert(p, u);
        keys.insert(p, key);
        proof {
            assert(user_views(out@) =~= user_views(out_before).insert(p as int, u@));
            assert(user_views(src_before)[0] == u@);
            assert(user_views(out@).to_multiset().add(user_views(src@).to_multiset())
                =~= user_views(out_before).to_multiset().add(user_views(src_before).to_multiset()));
            assert forall|j: int| 0 <= j < out.len() implies (#[trigger] keys@[j])@ == spec_canonicalize(m, out@[j]@.nick) by {
                if j > p {
                    assert(keys@[j] == keys_before[j - 1] && out@[j] == out_before[j - 1]);
                } else if j < p {
                    assert(keys@[j] == keys_before[j] && out@[j] == out_before[j]);
                }
            }
        }
    }
    assert(user_views(src@).to_multiset() =~= Multiset::empty());
    assert(user_views(out@).to_multiset().add(Multiset::empty()) =~= user_views(out@).to_multiset());
    out
}

/// `std::time::Instant`, carried opaquely: the library only asks how long
/// ago one was taken.
#[verifier::external_type_specification]
#[verifier::external_body]
pub struct ExInstant(std::time::Instant);

/// Calls `Instant::now()`. Nothing is claimed of the result.
#[verifier::external_body]
pub(crate) fn instant_now() -> std::time::Instant {
    std::time::Instant::now()
}

/// Calls `t.elapsed()` and converts the `Duration` with `as_nanos()`.
/// Nothing is claimed of the result: it depends on the clock.
#[verifier::external_body]
fn elapsed_nanos(t: &std::time::Instant) -> u128 {
    t.elapsed().as_nanos()
}

/// A ban-list entry as the contracts see it: mask, setter, set time.
pub open spec fn ban_view(b: BanEntry) -> (Seq<char>, Seq<char>, u64) {
    (b.mask@, b.set_by@, b.set_time)
}

pub open spec fn ban_views(s: Seq<BanEntry>) -> Seq<(Seq<char>, Seq<char>, u64)> {
    s.map_values(|b: BanEntry| ban_view(b))
}

pub open spec fn list_views(s: Seq<(char, Vec<BanEntry>)>) -> Seq<(char, Seq<(Seq<char>, Seq<char>, u64)>)> {
    s.map_values(|e: (char, Vec<BanEntry>)| (e.0, ban_views(e.1@)))
}

pub open spec fn param_views(s: Seq<(char, String)>) -> Seq<(char, Seq<char>)> {
    s.map_values(|e: (char, String)| (e.0, e.1@))
}

/// A channel as the contracts see it.
pub struct ChannelView {
    pub topic: Option<Seq<char>>,
    pub topic_set_by: Option<Seq<char>>,
    pub topic_set_time: Option<u64>,
    pub modes: Seq<char>,
    pub mode_params: Seq<Seq<char>>,
    pub created: Option<u64>,
    pub users: Seq<UserView>,
    pub messages: Seq<ChatMessage>,
    pub unread: usize,
    pub key: Option<Seq<char>>,
    pub bans: Seq<(Seq<char>, Seq<char>, u64)>,
    pub ban_list_complete: bool,
    /// Type-A mode lists in insertion order of their mode letters.
    pub mode_lists: Seq<(char, Seq<(Seq<char>, Seq<char>, u64)>)>,
    pub mode_lists_complete: Seq<char>,
    pub read_marker: Option<Seq<char>>,
    pub joined: bool,
    pub case_mapping: CaseMapping,
    pub prefix_modes: Seq<char>,
    pub prefix_symbols: Seq<char>,
    /// The pending NAMES snapshot, if a burst is in progress.
    pub names_snapshot: Option<Seq<UserView>>,
    /// Whether a NAMES line of the pending burst has been timed.
    pub burst_timed: bool,
    /// Parameters of set channel modes; the last entry for a letter counts.
    pub mode_parameters: Seq<(char, Seq<char>)>,
}

/// An IRC channel with users and messages.
#[derive(Debug, Clone)]
pub struct Channel {
    pub topic: Option<String>,
    pub topic_set_by: Option<String>,
    pub topic_set_time: Option<u64>,
    /// Channel modes like "+nt".
    pub modes: String,
    /// Mode parameters (limit, key, etc.), in the order of `modes`.
    pub mode_params: Vec<String>,
    /// Channel creation timestamp.
    pub created: Option<u64>,
    pub users: Vec<ChannelUser>,
    pub messages: std::collections::VecDeque<ChatMessage>,
    pub unread: usize,
    /// Channel key for auto-rejoin.
    pub key: Option<String>,
    pub bans: Vec<BanEntry>,
    pub ban_list_complete: bool,
    /// Server-defined CHANMODES type-A lists, one per mode letter.
    pub mode_lists: Vec<(char, Vec<BanEntry>)>,
    pub mode_lists_complete: Vec<char>,
    pub read_marker: Option<String>,
    /// Whether the local user is currently a member.
    pub joined: bool,
    case_mapping: CaseMapping,
    prefix_modes: String,
    prefix_symbols: String,
    names_snapshot: Option<Vec<ChannelUser>>,
    /// When the newest NAMES line of the pending burst arrived; one arriving
    /// long after it means the previous burst was abandoned.
    burst_activity: Option<std::time::Instant>,
    mode_parameters: Vec<(char, String)>,
}

impl View for Channel {
    type V = ChannelView;

    closed spec fn view(&self) -> ChannelView {
        ChannelView {
            topic: opt_view(self.topic),
            topic_set_by: opt_view(self.topic_set_by),
            topic_set_time: self.topic_set_time,
            modes: self.modes@,
            mode_params: views(self.mode_params@),
            created: self.created,
            users: user_views(self.users@),
            messages: self.messages@,
            unread: self.unread,
            key: opt_view(self.key),
            bans: ban_views(self.bans@),
            ban_list_complete: self.ban_list_complete,
            mode_lists: list_views(self.mode_lists@),
            mode_lists_complete: self.mode_lists_complete@,
            read_marker: opt_view(self.read_marker),
            joined: self.joined,
            case_mapping: self.case_mapping,
            prefix_modes: self.prefix_modes@,
            prefix_symbols: self.prefix_symbols@,
            names_snapshot: match self.names_snapshot {
                Some(v) => Some(user_views(v@)),
                None => None,
            },
            burst_timed: self.burst_activity.is_some(),
            mode_parameters: param_views(self.mode_parameters@),
        }
    }
}

/// Every member's display agrees with its held letters under the schema.
pub open spec fn all_displayed(s: Seq<UserView>, modes: Seq<char>, prefixes: Seq<char>) -> bool {
    forall|i: int| 0 <= i < s.len() ==> displays(#[trigger] s[i], modes, prefixes)
}

/// The channel invariant: the displayed mode, prefix and rank of every
/// member (listed or in the pending snapshot) follow from its held status
/// letters under the channel's prefix schema.
pub open spec fn channel_wf(c: ChannelView) -> bool {
    &&& all_displayed(c.users, c.prefix_modes, c.prefix_symbols)
    &&& match c.names_snapshot {
        Some(s) => all_displayed(s, c.prefix_modes, c.prefix_symbols),
        None => true,
    }
}

/// `out` holds the members of `inp`, in nick-list order.
pub open spec fn sorted_perm(m: CaseMapping, out: Seq<UserView>, inp: Seq<UserView>) -> bool {
    members_sorted(m, out) && out.to_multiset() == inp.to_multiset()
}

/// Whether two nicks are the same identifier under `m`.
pub open spec fn same_nick(m: CaseMapping, a: Seq<char>, b: Seq<char>) -> bool {
    spec_canonicalize(m, a) == spec_canonicalize(m, b)
}

/// Index of the first member, at or after `k`, who is `nick` under `m`.
pub open spec fn find_member_from(m: CaseMapping, s: Seq<UserView>, nick: Seq<char>, k: int) -> Option<int>
    decreases s.len() - k,
{
    if k < 0 || k >= s.len() {
        None
    } else if same_nick(m, s[k].nick, nick) {
        Some(k)
    } else {
        find_member_from(m, s, nick, k + 1)
    }
}

/// Index of the first member who is `nick` under `m`.
pub open spec fn find_member(m: CaseMapping, s: Seq<UserView>, nick: Seq<char>) -> Option<int> {
    find_member_from(m, s, nick, 0)
}

pub proof fn lemma_find_member_from(m: CaseMapping, s: Seq<UserView>, nick: Seq<char>, k: int)
    requires
        0 <= k,
    ensures
        match find_member_from(m, s, nick, k) {
            Some(i) => k <= i < s.len() && same_nick(m, s[i].nick, nick)
                && forall|j: int| k <= j < i ==> !same_nick(m, #[trigger] s[j].nick, nick),
            None => forall|j: int| k <= j < s.len() ==> !same_nick(m, #[trigger] s[j].nick, nick),
        },
    decreases s.len() - k,
{
    if k < s.len() && !same_nick(m, s[k].nick, nick) {
        lemma_find_member_from(m, s, nick, k + 1);
    }
}

/// The members other than `nick`, in order.
pub open spec fn without_member(m: CaseMapping, s: Seq<UserView>, nick: Seq<char>) -> Seq<UserView>
    decreases s.len(),
{
    if s.len() == 0 {
        s
    } else {
        let rest = without_member(m, s.drop_last(), nick);
        if same_nick(m, s.last().nick, nick) {
            rest
        } else {
            rest.push(s.last())
        }
    }
}

pub proof fn lemma_without_member(m: CaseMapping, s: Seq<UserView>, nick: Seq<char>)
    ensures
        forall|j: int| 0 <= j < without_member(m, s, nick).len()
            ==> !same_nick(m, #[trigger] without_member(m, s, nick)[j].nick, nick)
                && s.contains(without_member(m, s, nick)[j]),
    decreases s.len(),
{
    if s.len() > 0 {
        lemma_without_member(m, s.drop_last(), nick);
        let rest = without_member(m, s.drop_last(), nick);
        assert forall|j: int| 0 <= j < without_member(m, s, nick).len()
            implies !same_nick(m, #[trigger] without_member(m, s, nick)[j].nick, nick)
                && s.contains(without_member(m, s, nick)[j]) by {
            if j < rest.len() {
                assert(!same_nick(m, rest[j].nick, nick));
                assert(s.drop_last().contains(rest[j]));
                let k = choose|k: int| 0 <= k < s.drop_last().len() && s.drop_last()[k] == rest[j];
                assert(s[k] == rest[j]);
            } else {
                assert(s[s.len() - 1] == s.last());
            }
        }
    }
}

proof fn lemma_perm_displayed(m: CaseMapping, out: Seq<UserView>, inp: Seq<UserView>, modes: Seq<char>, prefixes: Seq<char>)
    requires
        out.to_multiset() == inp.to_multiset(),
        all_displayed(inp, modes, prefixes),
    ensures
        all_displayed(out, modes, prefixes),
{
    assert forall|i: int| 0 <= i < out.len() implies displays(#[trigger] out[i], modes, prefixes) by {
        assert(out.to_multiset().contains(out[i]));
        assert(inp.contains(out[i]));
        let k = choose|k: int| 0 <= k < inp.len() && inp[k] == out[i];
        assert(displays(inp[k], modes, prefixes));
    }
}

fn find_member_exec(m: CaseMapping, users: &Vec<ChannelUser>, nick: &str) -> (r: Option<usize>)
    ensures
        match r {
            Some(i) => find_member(m, user_views(users@), nick@) == Some(i as int),
            None => find_member(m, user_views(users@), nick@).is_none(),
        },
{
    let ghost s = user_views(users@);
    let mut i: usize = 0;
    while i < users.len()
        invariant
            i <= users.len(),
            s == user_views(users@),
            find_member(m, s, nick@) == find_member_from(m, s, nick@, i as int),
        decreases users.len() - i,
    {
        if m.eq(users[i].nick.as_str(), nick) {
            return Some(i);
        }
        i += 1;
    }
    None
}

/// The members of `v` except `nick`, in order.
fn retain_other_members(m: CaseMapping, v: Vec<ChannelUser>, nick: &str) -> (r: Vec<ChannelUser>)
    ensures
        user_views(r@) == without_member(m, user_views(v@), nick@),
{
    let ghost s = user_views(v@);
    let mut src = v;
    let mut out: Vec<ChannelUser> = Vec::new();
    let mut taken: usize = 0;
    let total: usize = src.len();
    let ghost orig = src@;
    // Move members out from the back, then restore the order.
    let mut rev: Vec<ChannelUser> = Vec::new();
    while src.len() > 0
        invariant
            src@ == orig.take(src.len() as int),
            rev@.len() + src@.len() == orig.len(),
            forall|j: int| 0 <= j < rev@.len() ==> #[trigger] rev@[j] == orig[orig.len() - 1 - j],
        decreases src.len(),
    {
        let u = src.pop().unwrap();
        rev.push(u);
    }
    let ghost n = orig.len();
    while rev.len() > 0
        invariant
            taken + rev@.len() == n,
            n == orig.len(),
            n == total,
            s == user_views(orig),
            forall|j: int| 0 <= j < rev@.len() ==> #[trigger] rev@[j] == orig[n - 1 - j],
            user_views(out@) == without_member(m, s.take(taken as int), nick@),
        decreases rev.len(),
    {
        let u = rev.pop().unwrap();
        proof {
            assert(u == orig[taken as int]);
            assert(s.take(taken as int + 1).drop_last() =~= s.take(taken as int));
            assert(s.take(taken as int + 1).last() == u@);
        }
        let ghost before = out@;
        if !m.eq(u.nick.as_str(), nick) {
            out.push(u);
            proof {
                assert(user_views(out@) =~= user_views(before).push(u@));
            }
        }
        taken += 1;
    }
    assert(s.take(n as int) =~= s);
    out
}

/// The channel a fresh `Channel::new()` holds.
pub open spec fn empty_channel() -> ChannelView {
    ChannelView {
        topic: None,
        topic_set_by: None,
        topic_set_time: None,
        modes: Seq::empty(),
        mode_params: Seq::empty(),
        created: None,
        users: Seq::empty(),
        messages: Seq::empty(),
        unread: 0,
        key: None,
        bans: Seq::empty(),
        ban_list_complete: false,
        mode_lists: Seq::empty(),
        mode_lists_complete: Seq::empty(),
        read_marker: None,
        joined: false,
        case_mapping: CaseMapping::Rfc1459,
        prefix_modes: seq!['q', 'a', 'o', 'h', 'v'],
        prefix_symbols: seq!['~', '&', '@', '%', '+'],
        names_snapshot: None,
        burst_timed: false,
        mode_parameters: Seq::empty(),
    }
}

impl Channel {
    /// The channel invariant (see `channel_wf`).
    pub open spec fn wf(&self) -> bool {
        channel_wf(self@)
    }

    pub fn new() -> (r: Self)
        ensures
            r@ == empty_channel(),
            r.wf(),
    {
        proof {
            reveal_strlit("qaohv");
            reveal_strlit("~&@%+");
        }
        let r = Channel {
            topic: None,
            topic_set_by: None,
            topic_set_time: None,
            modes: String::new(),
            mode_params: Vec::new(),
            created: None,
            users: Vec::new(),
            messages: std::collections::VecDeque::new(),
            unread: 0,
            key: None,
            bans: Vec::new(),
            ban_list_complete: false,
            mode_lists: Vec::new(),
            mode_lists_complete: Vec::new(),
            read_marker: None,
            joined: false,
            case_mapping: CaseMapping::Rfc1459,
            prefix_modes: to_string("qaohv"),
            prefix_symbols: to_string("~&@%+"),
            names_snapshot: None,
            burst_activity: None,
            mode_parameters: Vec::new(),
        };
        assert(r@.mode_params =~= Seq::<Seq<char>>::empty());
        assert(r@.modes =~= Seq::<char>::empty());
        assert(r@.messages =~= Seq::<ChatMessage>::empty());
        assert(r@.mode_lists_complete =~= Seq::<char>::empty());
        assert(r@.prefix_modes =~= seq!['q', 'a', 'o', 'h', 'v']);
        assert(r@.prefix_symbols =~= seq!['~', '&', '@', '%', '+']);
        assert(r@.users =~= Seq::<UserView>::empty());
        assert(r@.bans =~= Seq::<(Seq<char>, Seq<char>, u64)>::empty());
        assert(r@.mode_lists =~= Seq::<(char, Seq<(Seq<char>, Seq<char>, u64)>)>::empty());
        assert(r@.mode_parameters =~= Seq::<(char, Seq<char>)>::empty());
        assert(r@ == empty_channel());
        r
    }

    pub fn set_case_mapping(&mut self, case_mapping: CaseMapping)
        ensures
            final(self)@ == (ChannelView { case_mapping: case_mapping, ..old(self)@ }),
            old(self).wf() ==> final(self).wf(),
    {
        self.case_mapping = case_mapping;
    }

    /// Put the members in nick-list order: by rank, then canonical nick.
    fn sort_users(&mut self)
        ensures
            sorted_perm(old(self)@.case_mapping, final(self)@.users, old(self)@.users),
            final(self)@ == (ChannelView { users: final(self)@.users, ..old(self)@ }),
            old(self).wf() ==> final(self).wf(),
    {
        let mut users: Vec<ChannelUser> = Vec::new();
        std::mem::swap(&mut users, &mut self.users);
        self.users = sort_members(self.case_mapping, users);
        proof {
            if old(self).wf() {
                lemma_perm_displayed(self.case_mapping, self@.users, old(self)@.users, self@.prefix_modes, self@.prefix_symbols);
            }
        }
    }

    /// The recorded read marker.
    pub fn read_marker_text(&self) -> (r: Option<&String>)
        ensures
            match r {
                Some(m) => self@.read_marker == Some(m@),
                None => self@.read_marker is None,
            },
    {
        self.read_marker.as_ref()
    }

    /// The scrollback, oldest first.
    pub fn scrollback(&self) -> (r: &std::collections::VecDeque<ChatMessage>)
        ensures
            r@ == self@.messages,
    {
        &self.messages
    }

    /// Add a page of history (a status line first, when there is one) to
    /// the scrollback: messages the window already holds (by IRCv3 id) are
    /// skipped, the rest go before or after the scrollback as `placement`
    /// says, and the oldest lines beyond `max` are dropped.
    pub fn merge_history(&mut self, placement: crate::history::HistoryPlacement, history: Vec<ChatMessage>, max: usize)
        ensures
            final(self)@ == (ChannelView {
                messages: crate::history::merged_history(old(self)@.messages, history@, placement, max as nat),
                ..old(self)@
            }),
            old(self).wf() ==> final(self).wf(),
    {
        let ghost existing = self.messages@;
        assert(existing == old(self)@.messages);
        let ghost pred = |m: ChatMessage| match m.msgid {
            Some(id) => !has_msgid(existing, id@),
            None => true,
        };
        let mut kept: std::collections::VecDeque<ChatMessage> = std::collections::VecDeque::new();
        let mut src = history;
        let ghost h = src@;
        let ghost mut done: int = 0;
        while src.len() > 0
            invariant
                0 <= done <= h.len(),
                src@ == h.skip(done),
                self.messages@ == existing,
                self@ == old(self)@,
                pred == (|m: ChatMessage| match m.msgid {
                    Some(id) => !has_msgid(existing, id@),
                    None => true,
                }),
                kept@ == h.take(done).filter(pred),
            decreases src.len(),
        {
            let ghost before = src@;
            let m = src.remove(0);
            let keep = match m.msgid.as_ref() {
                Some(id) => !contains_msgid(&self.messages, id),
                None => true,
            };
            proof {
                assert(before[0] == h[done]);
                assert(src@ =~= h.skip(done + 1));
                assert(h.take(done + 1).drop_last() =~= h.take(done));
                assert(h.take(done + 1).last() == h[done]);
                reveal_with_fuel(Seq::filter, 1);
            }
            if keep {
                kept.push_back(m);
            }
            proof {
                done = done + 1;
            }
        }
        assert(h.take(done) =~= h);
        if placement == crate::history::HistoryPlacement::Prepend {
            let ghost k0 = kept@;
            while self.messages.len() > 0
                invariant
                    kept@ + self.messages@ == k0 + existing,
                    self@ == (ChannelView { messages: self.messages@, ..old(self)@ }),
                decreases self.messages.len(),
            {
                let ghost before = self.messages@;
                let m = self.messages.pop_front().unwrap();
                kept.push_back(m);
                assert(kept@ + self.messages@ =~= k0 + existing);
            }
            assert(kept@ + Seq::<ChatMessage>::empty() =~= kept@);
            self.messages = kept;
        } else {
            let ghost k0 = kept@;
            while kept.len() > 0
                invariant
                    self.messages@ + kept@ == existing + k0,
                    self@ == (ChannelView { messages: self.messages@, ..old(self)@ }),
                decreases kept.len(),
            {
                let m = kept.pop_front().unwrap();
                self.messages.push_back(m);
                assert(self.messages@ + kept@ =~= existing + k0);
            }
            assert(self.messages@ + Seq::<ChatMessage>::empty() =~= self.messages@);
        }
        let ghost all = self.messages@;
        assert(all.skip(0) =~= all);
        while self.messages.len() > max
            invariant
                self@ == (ChannelView { messages: self.messages@, ..old(self)@ }),
                self.messages@.len() <= all.len(),
                self.messages@ == all.skip(all.len() - self.messages@.len()),
                self.messages@.len() >= max || self.messages@.len() == all.len(),
            decreases self.messages.len(),
        {
            let ghost before = self.messages@;
            let _ = self.messages.pop_front();
            assert(self.messages@ =~= before.subrange(1, before.len() as int));
            assert(self.messages@ =~= all.skip(all.len() - self.messages@.len()));
        }
    }

    /// The members' nicks, in nick-list order.
    pub fn nicks(&self) -> (r: Vec<String>)
        ensures
            views(r@) == self@.users.map_values(|u: UserView| u.nick),
    {
        let mut r: Vec<String> = Vec::new();
        let mut i: usize = 0;
        while i < self.users.len()
            invariant
                i <= self.users.len(),
                r@.len() == i,
                forall|j: int| 0 <= j < i ==> (#[trigger] r@[j])@ == self.users@[j].nick@,
            decreases self.users.len() - i,
        {
            r.push(self.users[i].nick.clone());
            i += 1;
        }
        assert forall|j: int| 0 <= j < r@.len() implies #[trigger] views(r@)[j] == self@.users.map_values(|u: UserView| u.nick)[j] by {
            assert(self@.users[j] == self.users@[j]@);
        }
        assert(views(r@) =~= self@.users.map_values(|u: UserView| u.nick));
        r
    }

    /// Whether `nick` is a member (under the channel's case mapping).
    pub fn has_user(&self, nick: &str) -> (r: bool)
        ensures
            r == find_member(self@.case_mapping, self@.users, nick@).is_some(),
    {
        self.get_user(nick).is_some()
    }

    /// The first member who is `nick` under the channel's case mapping.
    pub fn get_user(&self, nick: &str) -> (r: Option<&ChannelUser>)
        ensures
            match find_member(self@.case_mapping, self@.users, nick@) {
                Some(i) => r.is_some() && r.unwrap()@ == self@.users[i],
                None => r.is_none(),
            },
    {
        let found = find_member_exec(self.case_mapping, &self.users, nick);
        proof {
            lemma_find_member_from(self.case_mapping, self@.users, nick@, 0);
        }
        match found {
            Some(i) => Some(&self.users[i]),
            None => None,
        }
    }

    /// Remove `nick` from the members and from a pending NAMES snapshot.
    pub fn remove_user(&mut self, nick: &str)
        ensures
            final(self)@ == (ChannelView {
                users: without_member(old(self)@.case_mapping, old(self)@.users, nick@),
                names_snapshot: match old(self)@.names_snapshot {
                    Some(s) => Some(without_member(old(self)@.case_mapping, s, nick@)),
                    None => None,
                },
                ..old(self)@
            }),
            old(self).wf() ==> final(self).wf(),
    {
        let mapping = self.case_mapping;
        let mut users: Vec<ChannelUser> = Vec::new();
        std::mem::swap(&mut users, &mut self.users);
        self.users = retain_other_members(mapping, users, nick);
        let snapshot = self.names_snapshot.take();
        self.names_snapshot = match snapshot {
            Some(s) => Some(retain_other_members(mapping, s, nick)),
            None => None,
        };
        proof {
            lemma_without_member(mapping, old(self)@.users, nick@);
            if let Some(s) = old(self)@.names_snapshot {
                lemma_without_member(mapping, s, nick@);
            }
            if old(self).wf() {
                assert forall|i: int| 0 <= i < self@.users.len() implies
                    displays(#[trigger] self@.users[i], self@.prefix_modes, self@.prefix_symbols) by {
                    let k = choose|k: int| 0 <= k < old(self)@.users.len() && old(self)@.users[k] == self@.users[i];
                }
                if let Some(s) = old(self)@.names_snapshot {
                    let t = without_member(mapping, s, nick@);
                    assert forall|i: int| 0 <= i < t.len() implies
                        displays(#[trigger] t[i], self@.prefix_modes, self@.prefix_symbols) by {
                        let k = choose|k: int| 0 <= k < s.len() && s[k] == t[i];
                    }
                }
            }
        }
    }

    /// Drop every member and any pending NAMES snapshot.
    pub fn clear_users(&mut self)
        ensures
            final(self)@ == (ChannelView { users: Seq::empty(), names_snapshot: None, ..old(self)@ }),
            final(self).wf(),
    {
        self.users = Vec::new();
        self.names_snapshot = None;
        assert(self@.users =~= Seq::<UserView>::empty());
    }

    /// Record the channel topic (`None`: no topic).
    pub fn set_topic(&mut self, topic: Option<String>)
        ensures
            final(self)@ == (ChannelView { topic: opt_view(topic), ..old(self)@ }),
            old(self).wf() ==> final(self).wf(),
    {
        self.topic = topic;
    }

    /// Record who set the topic, and when.
    pub fn set_topic_setter(&mut self, set_by: String, set_time: u64)
        ensures
            final(self)@ == (ChannelView { topic_set_by: Some(set_by@), topic_set_time: Some(set_time), ..old(self)@ }),
            old(self).wf() ==> final(self).wf(),
    {
        self.topic_set_by = Some(set_by);
        self.topic_set_time = Some(set_time);
    }

    /// Record the channel's creation time.
    pub fn set_created(&mut self, created: u64)
        ensures
            final(self)@ == (ChannelView { created: Some(created), ..old(self)@ }),
            old(self).wf() ==> final(self).wf(),
    {
        self.created = Some(created);
    }

    /// The server has sent the whole ban list.
    pub fn mark_ban_list_complete(&mut self)
        ensures
            final(self)@ == (ChannelView { ban_list_complete: true, ..old(self)@ }),
            old(self).wf() ==> final(self).wf(),
    {
        self.ban_list_complete = true;
    }

    /// Whether we are a member of the channel.
    pub fn set_joined(&mut self, joined: bool)
        ensures
            final(self)@ == (ChannelView { joined: joined, ..old(self)@ }),
            old(self).wf() ==> final(self).wf(),
    {
        self.joined = joined;
    }

    /// The scrollback, oldest first.
    pub fn message_list(&self) -> (r: &std::collections::VecDeque<ChatMessage>)
        ensures
            r@ == self@.messages,
    {
        &self.messages
    }

    /// Empty the scrollback (`/clear`).
    pub fn clear_messages(&mut self)
        ensures
            final(self)@ == (ChannelView { messages: Seq::empty(), ..old(self)@ }),
            old(self).wf() ==> final(self).wf(),
    {
        self.messages = std::collections::VecDeque::new();
    }

    /// Record where the user has read up to (from a MARKREAD).
    pub fn set_read_marker(&mut self, marker: Option<String>)
        ensures
            final(self)@ == (ChannelView { read_marker: opt_view(marker), ..old(self)@ }),
            old(self).wf() ==> final(self).wf(),
    {
        self.read_marker = marker;
    }

    /// Whether we are currently a member of the channel.
    pub fn is_joined(&self) -> (r: bool)
        ensures
            r == self@.joined,
    {
        self.joined
    }

    /// The channel key we joined with, if any.
    pub fn key_text(&self) -> (r: Option<String>)
        ensures
            opt_view(r) == self@.key,
    {
        match &self.key {
            Some(k) => Some(k.clone()),
            None => None,
        }
    }

    /// We were removed from the channel: no longer a member, and the member
    /// list (with any pending NAMES snapshot) is emptied.
    pub fn mark_removed(&mut self)
        ensures
            final(self)@ == (ChannelView { joined: false, users: Seq::empty(), names_snapshot: None, ..old(self)@ }),
            old(self).wf() ==> final(self).wf(),
    {
        self.joined = false;
        self.clear_users();
    }

    /// We were removed from the channel (kicked): the window stays with the
    /// note, but we are no longer a member and the member list is emptied.
    pub fn leave_with_note(&mut self, note: ChatMessage, max: usize)
        ensures
            final(self)@ == (ChannelView {
                joined: false,
                users: Seq::empty(),
                names_snapshot: None,
                messages: pushed_trimmed(old(self)@.messages, note, max as nat),
                ..old(self)@
            }),
            old(self).wf() ==> final(self).wf(),
    {
        self.joined = false;
        self.clear_users();
        self.push_trimmed(note, max);
    }

    /// Number of members marked away.
    pub fn away_count(&self) -> (r: usize)
        ensures
            r == away_members(self@.users),
    {
        let ghost s = self@.users;
        let mut n: usize = 0;
        let mut i: usize = 0;
        while i < self.users.len()
            invariant
                i <= self.users.len(),
                s == user_views(self.users@),
                n == away_members(s.take(i as int)),
                n <= i,
            decreases self.users.len() - i,
        {
            proof {
                assert(s.take(i as int + 1).drop_last() =~= s.take(i as int));
            }
            if self.users[i].is_away() {
                n += 1;
            }
            i += 1;
        }
        assert(s.take(s.len() as int) =~= s);
        n
    }
}

/// Number of members with an away message set.
pub open spec fn away_members(s: Seq<UserView>) -> nat
    decreases s.len(),
{
    if s.len() == 0 {
        0
    } else {
        away_members(s.drop_last()) + if s.last().away.is_some() { 1nat } else { 0nat }
    }
}

/// `m` after gaining the status mode of `mode`, if it has one.
pub open spec fn gain_mode(v: UserView, mode: UserMode, modes: Seq<char>, prefixes: Seq<char>) -> UserView {
    match spec_mode_letter(mode) {
        Some(c) => with_letters(v, add_letter(v.letters, c), modes, prefixes),
        None => v,
    }
}

/// Held letters after gaining each of `cs` in turn.
pub open spec fn add_letters(letters: Seq<char>, cs: Seq<char>) -> Seq<char>
    decreases cs.len(),
{
    if cs.len() == 0 {
        letters
    } else {
        add_letter(add_letters(letters, cs.drop_last()), cs.last())
    }
}

/// A member after gaining each status letter of `cs` in turn.
pub open spec fn gain_letters(v: UserView, cs: Seq<char>, modes: Seq<char>, prefixes: Seq<char>) -> UserView {
    if cs.len() == 0 {
        v
    } else {
        with_letters(v, add_letters(v.letters, cs), modes, prefixes)
    }
}

/// Members after `nick` gains `mode`: the first match is updated, or a new
/// member is appended.
pub open spec fn upsert_member(m: CaseMapping, s: Seq<UserView>, nick: Seq<char>, mode: UserMode,
    modes: Seq<char>, prefixes: Seq<char>) -> Seq<UserView> {
    match find_member(m, s, nick) {
        Some(i) => s.update(i, gain_mode(s[i], mode, modes, prefixes)),
        None => s.push(gain_mode(new_member(nick, UserMode::Normal), mode, modes, prefixes)),
    }
}

/// Members after `nick` gains the status letters `cs`: the first match is
/// updated, or a new member is appended.
pub open spec fn upsert_letters(m: CaseMapping, s: Seq<UserView>, nick: Seq<char>, cs: Seq<char>,
    modes: Seq<char>, prefixes: Seq<char>) -> Seq<UserView> {
    match find_member(m, s, nick) {
        Some(i) => s.update(i, gain_letters(s[i], cs, modes, prefixes)),
        None => s.push(gain_letters(new_member(nick, UserMode::Normal), cs, modes, prefixes)),
    }
}

/// The members with the first `nick` changed by `f`.
pub open spec fn update_member(m: CaseMapping, s: Seq<UserView>, nick: Seq<char>,
    f: spec_fn(UserView) -> UserView) -> Seq<UserView> {
    match find_member(m, s, nick) {
        Some(i) => s.update(i, f(s[i])),
        None => s,
    }
}

/// The redisplay of every member under a new schema.
pub open spec fn redisplayed(s: Seq<UserView>, modes: Seq<char>, prefixes: Seq<char>) -> Seq<UserView> {
    s.map_values(|v: UserView| with_letters(v, v.letters, modes, prefixes))
}

proof fn lemma_first_held_none(modes: Seq<char>, k: int)
    ensures
        first_held(modes, Seq::empty(), k).is_none(),
    decreases modes.len() - k,
{
    if 0 <= k < modes.len() {
        lemma_first_held_none(modes, k + 1);
    }
}

proof fn lemma_new_member_displays(nick: Seq<char>, modes: Seq<char>, prefixes: Seq<char>)
    ensures
        displays(new_member(nick, UserMode::Normal), modes, prefixes),
{
    lemma_first_held_none(modes, 0);
    assert(new_member(nick, UserMode::Normal).letters =~= Seq::<char>::empty());
}

proof fn lemma_update_displayed(s: Seq<UserView>, i: int, v: UserView, modes: Seq<char>, prefixes: Seq<char>)
    requires
        all_displayed(s, modes, prefixes),
        0 <= i < s.len(),
        displays(v, modes, prefixes),
    ensures
        all_displayed(s.update(i, v), modes, prefixes),
{
    assert forall|j: int| 0 <= j < s.len() implies displays(#[trigger] s.update(i, v)[j], modes, prefixes) by {
        if j != i {
            assert(s.update(i, v)[j] == s[j]);
        }
    }
}

proof fn lemma_push_displayed(s: Seq<UserView>, v: UserView, modes: Seq<char>, prefixes: Seq<char>)
    requires
        all_displayed(s, modes, prefixes),
        displays(v, modes, prefixes),
    ensures
        all_displayed(s.push(v), modes, prefixes),
{
    assert forall|j: int| 0 <= j < s.len() + 1 implies displays(#[trigger] s.push(v)[j], modes, prefixes) by {
        if j < s.len() {
            assert(s.push(v)[j] == s[j]);
        }
    }
}

impl ChannelUser {
    /// Gain the status mode of `mode`, if it has one.
    fn gain_mode(&mut self, mode: UserMode, modes: &str, prefixes: &str)
        ensures
            final(self)@ == gain_mode(old(self)@, mode, modes@, prefixes@),
    {
        if let Some(letter) = mode.mode_letter() {
            self.add_status_mode(letter, modes, prefixes);
        }
    }

    /// Gain each status letter of `cs` in turn.
    fn gain_letters(&mut self, cs: &[char], modes: &str, prefixes: &str)
        ensures
            final(self)@ == gain_letters(old(self)@, cs@, modes@, prefixes@),
    {
        let ghost start = self@;
        let mut i: usize = 0;
        while i < cs.len()
            invariant
                i <= cs.len(),
                self@ == gain_letters(start, cs@.take(i as int), modes@, prefixes@),
            decreases cs.len() - i,
        {
            proof {
                assert(cs@.take(i as int + 1).drop_last() =~= cs@.take(i as int));
                assert(cs@.take(0) =~= Seq::<char>::empty());
            }
            self.add_status_mode(cs[i], modes, prefixes);
            i += 1;
        }
        assert(cs@.take(cs@.len() as int) =~= cs@);
    }
}

/// `nick` gains `mode` in `v` (first match updated, else a new member appended).
fn upsert_member_exec(m: CaseMapping, v: &mut Vec<ChannelUser>, nick: &str, mode: UserMode, modes: &str, prefixes: &str)
    -> (found: bool)
    ensures
        user_views(final(v)@) == upsert_member(m, user_views(old(v)@), nick@, mode, modes@, prefixes@),
        found == find_member(m, user_views(old(v)@), nick@).is_some(),
{
    let found = find_member_exec(m, v, nick);
    proof {
        lemma_find_member_from(m, user_views(v@), nick@, 0);
    }
    match found {
        Some(i) => {
            let ghost before = v@;
            let mut u = v.remove(i);
            u.gain_mode(mode, modes, prefixes);
            v.insert(i, u);
            assert(user_views(v@) =~= user_views(before).update(i as int, gain_mode(user_views(before)[i as int], mode, modes@, prefixes@)));
            true
        },
        None => {
            let ghost before = v@;
            let mut u = ChannelUser::new(to_string(nick), UserMode::Normal);
            u.gain_mode(mode, modes, prefixes);
            v.push(u);
            assert(user_views(v@) =~= user_views(before).push(gain_mode(new_member(nick@, UserMode::Normal), mode, modes@, prefixes@)));
            false
        },
    }
}

/// `nick` gains the letters `cs` in `v` (first match updated, else a new
/// member appended).
fn upsert_letters_exec(m: CaseMapping, v: &mut Vec<ChannelUser>, nick: &str, cs: &[char], modes: &str, prefixes: &str)
    ensures
        user_views(final(v)@) == upsert_letters(m, user_views(old(v)@), nick@, cs@, modes@, prefixes@),
{
    let found = find_member_exec(m, v, nick);
    proof {
        lemma_find_member_from(m, user_views(v@), nick@, 0);
    }
    match found {
        Some(i) => {
            let ghost before = v@;
            let mut u = v.remove(i);
            u.gain_letters(cs, modes, prefixes);
            v.insert(i, u);
            assert(user_views(v@) =~= user_views(before).update(i as int, gain_letters(user_views(before)[i as int], cs@, modes@, prefixes@)));
        },
        None => {
            let ghost before = v@;
            let mut u = ChannelUser::new(to_string(nick), UserMode::Normal);
            u.gain_letters(cs, modes, prefixes);
            v.push(u);
            assert(user_views(v@) =~= user_views(before).push(gain_letters(new_member(nick@, UserMode::Normal), cs@, modes@, prefixes@)));
        },
    }
}

/// Redisplay every member of `v` under a schema.
fn redisplay_all(v: &mut Vec<ChannelUser>, modes: &str, prefixes: &str)
    ensures
        user_views(final(v)@) == redisplayed(user_views(old(v)@), modes@, prefixes@),
{
    let ghost start = user_views(v@);
    let mut i: usize = 0;
    while i < v.len()
        invariant
            i <= v.len(),
            v.len() == start.len(),
            forall|j: int| 0 <= j < i ==> #[trigger] user_views(v@)[j] == with_letters(start[j], start[j].letters, modes@, prefixes@),
            forall|j: int| i <= j < v.len() ==> #[trigger] user_views(v@)[j] == start[j],
        decreases v.len() - i,
    {
        let ghost before = v@;
        assert(user_views(v@)[i as int] == start[i as int]);
        let mut u = v.remove(i);
        assert(u == before[i as int]);
        u.refresh_display_mode(modes, prefixes);
        let ghost uv = u@;
        v.insert(i, u);
        proof {
            assert(v@ =~= before.update(i as int, u));
            assert(user_views(v@)[i as int] == uv);
            assert forall|j: int| 0 <= j < v.len() && j != i implies #[trigger] user_views(v@)[j] == user_views(before)[j] by {
                assert(v@[j] == before[j]);
            }
        }
        i += 1;
    }
    assert(user_views(v@) =~= redisplayed(start, modes@, prefixes@));
}

/// The letters of the status modes among `modes`, in order.
pub open spec fn letters_of_modes(modes: Seq<UserMode>) -> Seq<char>
    decreases modes.len(),
{
    if modes.len() == 0 {
        Seq::empty()
    } else {
        let rest = letters_of_modes(modes.drop_last());
        match spec_mode_letter(modes.last()) {
            Some(c) => rest.push(c),
            None => rest,
        }
    }
}

/// The channel once a NAMES burst is (re)started; `stale` says whether the
/// last timed line of the pending burst is older than the burst gap.
pub open spec fn burst_begun(c: ChannelView, stale: bool) -> ChannelView {
    if c.names_snapshot.is_none() || (stale && c.burst_timed) {
        ChannelView { names_snapshot: Some(Seq::empty()), ..c }
    } else {
        c
    }
}

/// The channel after one NAMES entry `nick` holding the letters `cs`.
pub open spec fn burst_line(c: ChannelView, nick: Seq<char>, cs: Seq<char>, stale: bool) -> ChannelView {
    if nick.len() == 0 {
        c
    } else {
        let b = burst_begun(c, stale);
        ChannelView {
            burst_timed: true,
            names_snapshot: Some(upsert_letters(c.case_mapping, b.names_snapshot.unwrap(), nick, cs,
                c.prefix_modes, c.prefix_symbols)),
            ..b
        }
    }
}

/// The membership part of a NAMES entry: the text before any `!user@host`.
pub open spec fn names_entry(tok: Seq<char>) -> Seq<char> {
    match find_from(tok, '!', 0) {
        Some(k) => tok.subrange(0, k),
        None => tok,
    }
}

/// The nickname of a NAMES entry, its status prefixes removed.
pub open spec fn names_entry_nick(support: &NetworkSupport, tok: Seq<char>) -> Seq<char> {
    let t = names_entry(tok);
    t.subrange(prefix_run(t, support.user_prefixes@, 0), t.len() as int)
}

/// The mode letters of the status prefixes of a NAMES entry.
pub open spec fn names_entry_letters(support: &NetworkSupport, tok: Seq<char>) -> Seq<char> {
    let t = names_entry(tok);
    prefix_letters(t, support.user_prefixes@, support.prefix_modes@, prefix_run(t, support.user_prefixes@, 0))
}

/// `c` with the NAMES entries `toks` added in order to its snapshot.
pub open spec fn names_applied(c: ChannelView, support: &NetworkSupport, toks: Seq<Seq<char>>) -> ChannelView
    decreases toks.len(),
{
    if toks.len() == 0 {
        c
    } else {
        burst_line(names_applied(c, support, toks.drop_last()), names_entry_nick(support, toks.last()),
            names_entry_letters(support, toks.last()), false)
    }
}

/// A NAMES member with the metadata of the member it replaces.
pub open spec fn with_meta(f: UserView, p: UserView) -> UserView {
    UserView {
        away: p.away,
        account: p.account,
        realname: p.realname,
        username: p.username,
        hostname: p.hostname,
        bot: p.bot,
        ..f
    }
}

/// The NAMES snapshot with metadata carried over from current members.
pub open spec fn merged_snapshot(m: CaseMapping, snap: Seq<UserView>, users: Seq<UserView>) -> Seq<UserView> {
    snap.map_values(|f: UserView| match find_member(m, users, f.nick) {
        Some(i) => with_meta(f, users[i]),
        None => f,
    })
}

impl Channel {
    /// Adopt a new ISUPPORT PREFIX schema (ignored unless both sides have
    /// the same, non-zero length); every member is redisplayed and the list
    /// re-sorted.
    pub fn set_prefix_schema(&mut self, modes: &str, symbols: &str)
        ensures
            (modes@.len() != symbols@.len() || symbols@.len() == 0) ==> final(self)@ == old(self)@,
            (modes@.len() == symbols@.len() && symbols@.len() > 0) ==> {
                &&& sorted_perm(old(self)@.case_mapping, final(self)@.users,
                    redisplayed(old(self)@.users, modes@, symbols@))
                &&& final(self)@ == (ChannelView {
                    users: final(self)@.users,
                    prefix_modes: modes@,
                    prefix_symbols: symbols@,
                    names_snapshot: match old(self)@.names_snapshot {
                        Some(s) => Some(redisplayed(s, modes@, symbols@)),
                        None => None,
                    },
                    ..old(self)@
                })
                &&& final(self).wf()
            },
    {
        let mv = chars_of(modes);
        let sv = chars_of(symbols);
        if mv.len() != sv.len() || sv.len() == 0 {
            return;
        }
        self.prefix_modes = to_string(modes);
        self.prefix_symbols = to_string(symbols);
        redisplay_all(&mut self.users, modes, symbols);
        let snapshot = self.names_snapshot.take();
        self.names_snapshot = match snapshot {
            Some(mut v) => {
                redisplay_all(&mut v, modes, symbols);
                Some(v)
            },
            None => None,
        };
        proof {
            let r = redisplayed(old(self)@.users, modes@, symbols@);
            assert(all_displayed(r, modes@, symbols@));
            if let Some(s) = old(self)@.names_snapshot {
                assert(all_displayed(redisplayed(s, modes@, symbols@), modes@, symbols@));
            }
        }
        self.sort_users();
    }

    /// Add a member from a JOIN or NAMES token with the default prefixes.
    pub fn add_user(&mut self, nick: &str, mode: UserMode)
        ensures
            final(self)@ == add_user_effect(old(self)@, nick@, mode, seq!['~', '&', '@', '%', '+'], final(self)@.users),
            sorted_add(old(self)@, nick@, mode, seq!['~', '&', '@', '%', '+'], final(self)@.users),
            old(self).wf() ==> final(self).wf(),
    {
        proof {
            reveal_strlit("~&@%+");
        }
        let p = "~&@%+";
        assert(p@ =~= seq!['~', '&', '@', '%', '+']);
        self.add_user_with_prefixes(nick, mode, p);
    }

    /// Add a member from a JOIN or NAMES token: leading status prefixes are
    /// stripped; an existing member gains `mode`, a new one is inserted in
    /// order. A pending NAMES snapshot gets the same membership.
    pub fn add_user_with_prefixes(&mut self, nick: &str, mode: UserMode, prefixes: &str)
        ensures
            final(self)@ == add_user_effect(old(self)@, nick@, mode, prefixes@, final(self)@.users),
            sorted_add(old(self)@, nick@, mode, prefixes@, final(self)@.users),
            old(self).wf() ==> final(self).wf(),
    {
        let nv = chars_of(nick);
        let pv = chars_of(prefixes);
        let start = crate::network::prefix_run_exec(&nv, &pv);
        // Tokens that are only mode prefixes (e.g. a stray "@") would
        // otherwise insert a blank-nick, unremovable user.
        if start == nv.len() {
            return;
        }
        let clean = string_from_range(&nv, start, nv.len());
        let m = self.case_mapping;
        let found = upsert_member_exec(m, &mut self.users, clean.as_str(), mode, self.prefix_modes.as_str(), self.prefix_symbols.as_str());
        proof {
            if old(self).wf() {
                lemma_new_member_displays(clean@, self@.prefix_modes, self@.prefix_symbols);
                lemma_find_member_from(m, old(self)@.users, clean@, 0);
                match find_member(m, old(self)@.users, clean@) {
                    Some(i) => lemma_update_displayed(old(self)@.users, i,
                        gain_mode(old(self)@.users[i], mode, self@.prefix_modes, self@.prefix_symbols),
                        self@.prefix_modes, self@.prefix_symbols),
                    None => lemma_push_displayed(old(self)@.users,
                        gain_mode(new_member(clean@, UserMode::Normal), mode, self@.prefix_modes, self@.prefix_symbols),
                        self@.prefix_modes, self@.prefix_symbols),
                }
            }
        }
        if !found {
            self.sort_users();
        }
        // A JOIN can interleave with a multi-line NAMES response: mirror the
        // membership into the pending snapshot so it is not lost at 366.
        let snapshot = self.names_snapshot.take();
        self.names_snapshot = match snapshot {
            Some(mut v) => {
                let ghost sv0 = user_views(v@);
                upsert_member_exec(m, &mut v, clean.as_str(), mode, self.prefix_modes.as_str(), self.prefix_symbols.as_str());
                proof {
                    if old(self).wf() {
                        lemma_find_member_from(m, sv0, clean@, 0);
                        match find_member(m, sv0, clean@) {
                            Some(i) => lemma_update_displayed(sv0, i,
                                gain_mode(sv0[i], mode, self@.prefix_modes, self@.prefix_symbols),
                                self@.prefix_modes, self@.prefix_symbols),
                            None => lemma_push_displayed(sv0,
                                gain_mode(new_member(clean@, UserMode::Normal), mode, self@.prefix_modes, self@.prefix_symbols),
                                self@.prefix_modes, self@.prefix_symbols),
                        }
                    }
                }
                Some(v)
            },
            None => None,
        };
        assert(clean@ == nv@.subrange(crate::network::prefix_run(nick@, prefixes@, 0), nick@.len() as int));
    }
}

/// A JOIN/NAMES token with its leading status prefixes removed.
pub open spec fn clean_nick(nick: Seq<char>, prefixes: Seq<char>) -> Seq<char> {
    nick.subrange(crate::network::prefix_run(nick, prefixes, 0), nick.len() as int)
}

/// The channel after `add_user_with_prefixes`, given the resulting member
/// list (whose content `sorted_add` states).
pub open spec fn add_user_effect(c: ChannelView, nick: Seq<char>, mode: UserMode, prefixes: Seq<char>,
    users: Seq<UserView>) -> ChannelView {
    let clean = clean_nick(nick, prefixes);
    if clean.len() == 0 {
        c
    } else {
        ChannelView {
            users: users,
            names_snapshot: match c.names_snapshot {
                Some(s) => Some(upsert_member(c.case_mapping, s, clean, mode, c.prefix_modes, c.prefix_symbols)),
                None => None,
            },
            ..c
        }
    }
}

/// The members after `add_user_with_prefixes`: an existing member is updated
/// in place; a new member is added and the list put in nick-list order.
pub open spec fn sorted_add(c: ChannelView, nick: Seq<char>, mode: UserMode, prefixes: Seq<char>,
    users: Seq<UserView>) -> bool {
    let clean = clean_nick(nick, prefixes);
    let up = upsert_member(c.case_mapping, c.users, clean, mode, c.prefix_modes, c.prefix_symbols);
    clean.len() == 0 || match find_member(c.case_mapping, c.users, clean) {
        Some(i) => users == up,
        None => sorted_perm(c.case_mapping, users, up),
    }
}

/// Members after `nick` gains the status letter `c`.
pub open spec fn letter_gained(m: CaseMapping, s: Seq<UserView>, nick: Seq<char>, c: char,
    modes: Seq<char>, prefixes: Seq<char>) -> Seq<UserView> {
    update_member(m, s, nick, |v: UserView| with_letters(v, add_letter(v.letters, c), modes, prefixes))
}

/// Members after `nick` loses the status letter `c`.
pub open spec fn letter_lost(m: CaseMapping, s: Seq<UserView>, nick: Seq<char>, c: char,
    modes: Seq<char>, prefixes: Seq<char>) -> Seq<UserView> {
    update_member(m, s, nick, |v: UserView| with_letters(v, without_char(v.letters, c), modes, prefixes))
}

/// Members after `old_nick` is renamed to `new_nick`.
pub open spec fn renamed(m: CaseMapping, s: Seq<UserView>, old_nick: Seq<char>, new_nick: Seq<char>) -> Seq<UserView> {
    update_member(m, s, old_nick, |v: UserView| UserView { nick: new_nick, ..v })
}

/// Members after `nick`'s away message is set.
pub open spec fn away_set(m: CaseMapping, s: Seq<UserView>, nick: Seq<char>, away: Option<Seq<char>>) -> Seq<UserView> {
    update_member(m, s, nick, |v: UserView| UserView { away: away, ..v })
}

/// Members after `nick`'s account is set.
pub open spec fn account_set(m: CaseMapping, s: Seq<UserView>, nick: Seq<char>, account: Option<Seq<char>>) -> Seq<UserView> {
    update_member(m, s, nick, |v: UserView| UserView { account: account, ..v })
}

/// Members after `nick`'s real name is set.
pub open spec fn realname_set(m: CaseMapping, s: Seq<UserView>, nick: Seq<char>, realname: Option<Seq<char>>) -> Seq<UserView> {
    update_member(m, s, nick, |v: UserView| UserView { realname: realname, ..v })
}

/// A member with the identity fields of `k`.
pub open spec fn with_identity(v: UserView, k: KnownUser) -> UserView {
    UserView {
        username: opt_view(k.username),
        hostname: opt_view(k.hostname),
        account: opt_view(k.account),
        realname: opt_view(k.realname),
        away: opt_view(k.away),
        bot: k.bot,
        ..v
    }
}

/// Members after the member named by `k` takes on its identity.
pub open spec fn identity_applied(m: CaseMapping, s: Seq<UserView>, k: KnownUser) -> Seq<UserView> {
    update_member(m, s, k.nick@, |v: UserView| with_identity(v, k))
}

/// Apply `f` to an optional snapshot.
pub open spec fn map_snapshot(o: Option<Seq<UserView>>, f: spec_fn(Seq<UserView>) -> Seq<UserView>) -> Option<Seq<UserView>> {
    match o {
        Some(s) => Some(f(s)),
        None => None,
    }
}

proof fn lemma_views_replace(before: Seq<ChannelUser>, i: int, u: ChannelUser)
    requires
        0 <= i < before.len(),
    ensures
        user_views(before.remove(i).insert(i, u)) == user_views(before).update(i, u@),
{
    assert(user_views(before.remove(i).insert(i, u)) =~= user_views(before).update(i, u@));
}

/// Which per-member change `change_member` makes.
enum MemberChange {
    Gain(char),
    Lose(char),
    Rename(String),
    Away(Option<String>),
    Account(Option<String>),
    Realname(Option<String>),
}

/// The view change a `MemberChange` makes.
spec fn change_view(c: MemberChange, v: UserView, modes: Seq<char>, prefixes: Seq<char>) -> UserView {
    match c {
        MemberChange::Gain(l) => with_letters(v, add_letter(v.letters, l), modes, prefixes),
        MemberChange::Lose(l) => with_letters(v, without_char(v.letters, l), modes, prefixes),
        MemberChange::Rename(n) => UserView { nick: n@, ..v },
        MemberChange::Away(a) => UserView { away: opt_view(a), ..v },
        MemberChange::Account(a) => UserView { account: opt_view(a), ..v },
        MemberChange::Realname(a) => UserView { realname: opt_view(a), ..v },
    }
}

/// Apply `change` to the first member of `v` who is `nick`.
fn change_member(m: CaseMapping, v: &mut Vec<ChannelUser>, nick: &str, change: MemberChange, modes: &str, prefixes: &str)
    -> (found: bool)
    ensures
        found == find_member(m, user_views(old(v)@), nick@).is_some(),
        user_views(final(v)@) == update_member(m, user_views(old(v)@), nick@,
            |u: UserView| change_view(change, u, modes@, prefixes@)),
{
    let found = find_member_exec(m, v, nick);
    proof {
        lemma_find_member_from(m, user_views(v@), nick@, 0);
    }
    match found {
        Some(i) => {
            let ghost before = v@;
            let mut u = v.remove(i);
            match change {
                MemberChange::Gain(l) => u.add_status_mode(l, modes, prefixes),
                MemberChange::Lose(l) => u.remove_status_mode(l, modes, prefixes),
                MemberChange::Rename(n) => u.nick = n,
                MemberChange::Away(a) => u.away = a,
                MemberChange::Account(a) => u.account = a,
                MemberChange::Realname(a) => u.realname = a,
            }
            v.insert(i, u);
            proof {
                lemma_views_replace(before, i as int, u);
            }
            true
        },
        None => false,
    }
}

/// Let the first member of `v` who is `k.nick` take on `k`'s identity.
fn apply_identity_to(m: CaseMapping, v: &mut Vec<ChannelUser>, k: &KnownUser)
    ensures
        user_views(final(v)@) == identity_applied(m, user_views(old(v)@), *k),
{
    let found = find_member_exec(m, v, k.nick.as_str());
    proof {
        lemma_find_member_from(m, user_views(v@), k.nick@, 0);
    }
    if let Some(i) = found {
        let ghost before = v@;
        let mut u = v.remove(i);
        u.username = clone_opt(&k.username);
        u.hostname = clone_opt(&k.hostname);
        u.account = clone_opt(&k.account);
        u.realname = clone_opt(&k.realname);
        u.away = clone_opt(&k.away);
        u.bot = k.bot;
        v.insert(i, u);
        proof {
            lemma_views_replace(before, i as int, u);
        }
    }
}

proof fn lemma_change_displayed(m: CaseMapping, s: Seq<UserView>, nick: Seq<char>, f: spec_fn(UserView) -> UserView,
    modes: Seq<char>, prefixes: Seq<char>)
    requires
        all_displayed(s, modes, prefixes),
        forall|v: UserView| displays(v, modes, prefixes) ==> displays(#[trigger] f(v), modes, prefixes),
    ensures
        all_displayed(update_member(m, s, nick, f), modes, prefixes),
{
    lemma_find_member_from(m, s, nick, 0);
    if let Some(i) = find_member(m, s, nick) {
        lemma_update_displayed(s, i, f(s[i]), modes, prefixes);
    }
}

impl Channel {
    /// Whether the last timed NAMES line is more than five seconds old (by
    /// the clock, so only its absence is certain: with no timed line there
    /// is no gap).
    pub fn burst_gap_elapsed(&self) -> (r: bool)
        ensures
            r ==> self@.burst_timed,
    {
        match &self.burst_activity {
            Some(t) => elapsed_nanos(t) > 5_000_000_000,
            None => false,
        }
    }

    /// Start an authoritative NAMES snapshot; the visible membership is left
    /// untouched until RPL_ENDOFNAMES. A burst whose last line is more than
    /// five seconds old was abandoned and starts afresh.
    pub fn begin_user_burst(&mut self)
        ensures
            exists|stale: bool| final(self)@ == burst_begun(old(self)@, stale),
            old(self).wf() ==> final(self).wf(),
    {
        let stale = self.burst_gap_elapsed();
        self.begin_user_burst_after_gap(stale);
    }

    /// `begin_user_burst` once the clock has been read: `gap_elapsed` says
    /// whether the last timed NAMES line is older than the burst gap.
    pub fn begin_user_burst_after_gap(&mut self, gap_elapsed: bool)
        ensures
            final(self)@ == burst_begun(old(self)@, gap_elapsed),
            old(self).wf() ==> final(self).wf(),
    {
        if self.names_snapshot.is_none() || (gap_elapsed && self.burst_activity.is_some()) {
            self.names_snapshot = Some(Vec::new());
            assert(self@.names_snapshot == Some(Seq::<UserView>::empty()));
        }
    }

    /// Insert a member into the pending NAMES snapshot (starting one if
    /// needed); `finish_user_burst` publishes it at RPL_ENDOFNAMES.
    pub fn add_user_burst_status_modes(&mut self, clean_nick: &str, modes: &[char])
        ensures
            exists|stale: bool| final(self)@ == burst_line(old(self)@, clean_nick@, modes@, stale),
            old(self).wf() ==> final(self).wf(),
    {
        if clean_nick.is_empty() {
            assert(burst_line(old(self)@, clean_nick@, modes@, false) == self@);
            return;
        }
        let stale = self.burst_gap_elapsed();
        self.add_user_burst_line(clean_nick, modes, stale, instant_now());
        assert(self@ == burst_line(old(self)@, clean_nick@, modes@, stale));
    }

    /// `add_user_burst_status_modes` once the clock has been read:
    /// `gap_elapsed` as for `begin_user_burst_after_gap`, `now` the arrival
    /// time of this line.
    pub fn add_user_burst_line(&mut self, clean_nick: &str, modes: &[char], gap_elapsed: bool, now: std::time::Instant)
        ensures
            final(self)@ == burst_line(old(self)@, clean_nick@, modes@, gap_elapsed),
            old(self).wf() ==> final(self).wf(),
    {
        if clean_nick.is_empty() {
            return;
        }
        self.begin_user_burst_after_gap(gap_elapsed);
        self.burst_activity = Some(now);
        let ghost mid = self@;
        let snapshot = self.names_snapshot.take();
        let mut v = match snapshot {
            Some(v) => v,
            None => Vec::new(),
        };
        let ghost sv0 = user_views(v@);
        upsert_letters_exec(self.case_mapping, &mut v, clean_nick, modes, self.prefix_modes.as_str(), self.prefix_symbols.as_str());
        self.names_snapshot = Some(v);
        proof {
            assert(mid.names_snapshot == Some(sv0));
            if old(self).wf() {
                let pm = self@.prefix_modes;
                let ps = self@.prefix_symbols;
                lemma_new_member_displays(clean_nick@, pm, ps);
                lemma_find_member_from(self.case_mapping, sv0, clean_nick@, 0);
                match find_member(self.case_mapping, sv0, clean_nick@) {
                    Some(i) => lemma_update_displayed(sv0, i, gain_letters(sv0[i], modes@, pm, ps), pm, ps),
                    None => lemma_push_displayed(sv0, gain_letters(new_member(clean_nick@, UserMode::Normal), modes@, pm, ps), pm, ps),
                }
            }
        }
    }

    /// One NAMES line (`@+alice bob!user@host ...`) added to the pending
    /// snapshot, once the clock has been read: the burst begins (see
    /// `burst_begun`, `gap_elapsed` as there), then each entry is added by
    /// its nickname (a `!user@host` suffix dropped) and prefix letters.
    pub fn apply_names_reply_at(&mut self, names: &str, support: &NetworkSupport, gap_elapsed: bool,
        now: std::time::Instant)
        ensures
            final(self)@ == names_applied(burst_begun(old(self)@, gap_elapsed), support, words(names@)),
            old(self).wf() ==> final(self).wf(),
    {
        self.begin_user_burst_after_gap(gap_elapsed);
        let ghost start = self@;
        let toks = split_whitespace(names);
        let ghost ts = views(toks@);
        let mut i: usize = 0;
        while i < toks.len()
            invariant
                i <= toks.len(),
                ts == views(toks@),
                ts == words(names@),
                self@ == names_applied(start, support, ts.take(i as int)),
                old(self).wf() ==> self.wf(),
            decreases toks.len() - i,
        {
            let tv = chars_of(toks[i].as_str());
            proof {
                lemma_find_from(tv@, '!', 0);
                assert(tv@.subrange(0, tv@.len() as int) =~= tv@);
                assert(ts[i as int] == toks@[i as int]@);
                assert(ts.take(i as int + 1).drop_last() =~= ts.take(i as int));
            }
            let end = match find_char(&tv, '!', 0) {
                Some(k) => k,
                None => tv.len(),
            };
            let nick_token = string_from_range(&tv, 0, end);
            let (nick, letters) = support.parse_prefixed_nick(nick_token.as_str());
            self.add_user_burst_line(nick, letters.as_slice(), false, now);
            i += 1;
        }
        assert(ts.take(ts.len() as int) =~= ts);
    }

    /// One NAMES line (see `apply_names_reply_at`), at the current time.
    pub fn apply_names_reply(&mut self, names: &str, support: &NetworkSupport)
        ensures
            exists|gap: bool| final(self)@ == names_applied(burst_begun(old(self)@, gap), support, words(names@)),
            old(self).wf() ==> final(self).wf(),
    {
        let gap = self.burst_gap_elapsed();
        self.apply_names_reply_at(names, support, gap, instant_now());
    }

    /// `add_user_burst_status_modes` with membership modes in place of
    /// letters (modes without a letter are skipped).
    pub fn add_user_burst_modes(&mut self, clean_nick: &str, modes: &[UserMode])
        ensures
            exists|stale: bool| final(self)@ == burst_line(old(self)@, clean_nick@, letters_of_modes(modes@), stale),
            old(self).wf() ==> final(self).wf(),
    {
        let mut letters: Vec<char> = Vec::new();
        let mut i: usize = 0;
        while i < modes.len()
            invariant
                i <= modes.len(),
                letters@ == letters_of_modes(modes@.take(i as int)),
            decreases modes.len() - i,
        {
            proof {
                assert(modes@.take(i as int + 1).drop_last() =~= modes@.take(i as int));
            }
            if let Some(c) = modes[i].mode_letter() {
                letters.push(c);
            }
            i += 1;
        }
        assert(modes@.take(modes@.len() as int) =~= modes@);
        self.add_user_burst_status_modes(clean_nick, letters.as_slice());
    }

    /// Atomically replace membership with the authoritative NAMES snapshot,
    /// keeping the IRCv3 metadata of members who are still present.
    pub fn finish_user_burst(&mut self)
        ensures
            old(self)@.names_snapshot.is_none() ==> final(self)@ == (ChannelView { burst_timed: false, ..old(self)@ }),
            old(self)@.names_snapshot.is_some() ==> {
                &&& sorted_perm(old(self)@.case_mapping, final(self)@.users,
                    merged_snapshot(old(self)@.case_mapping, old(self)@.names_snapshot.unwrap(), old(self)@.users))
                &&& final(self)@ == (ChannelView {
                    users: final(self)@.users,
                    names_snapshot: None,
                    burst_timed: false,
                    ..old(self)@
                })
            },
            old(self).wf() ==> final(self).wf(),
    {
        self.burst_activity = None;
        let snapshot = self.names_snapshot.take();
        let mut snap = match snapshot {
            Some(v) => v,
            None => {
                return;
            },
        };
        let m = self.case_mapping;
        let ghost s0 = user_views(snap@);
        let ghost users = self@.users;
        let mut i: usize = 0;
        while i < snap.len()
            invariant
                i <= snap.len(),
                snap.len() == s0.len(),
                users == user_views(self.users@),
                forall|j: int| 0 <= j < i ==> #[trigger] user_views(snap@)[j] == merged_snapshot(m, s0, users)[j],
                forall|j: int| i <= j < snap.len() ==> #[trigger] user_views(snap@)[j] == s0[j],
            decreases snap.len() - i,
        {
            let ghost before = snap@;
            assert(user_views(snap@)[i as int] == s0[i as int]);
            let mut fresh = snap.remove(i);
            let found = find_member_exec(m, &self.users, fresh.nick.as_str());
            proof {
                lemma_find_member_from(m, users, fresh.nick@, 0);
            }
            if let Some(k) = found {
                let previous = &self.users[k];
                fresh.away = clone_opt(&previous.away);
                fresh.account = clone_opt(&previous.account);
                fresh.realname = clone_opt(&previous.realname);
                fresh.username = clone_opt(&previous.username);
                fresh.hostname = clone_opt(&previous.hostname);
                fresh.bot = previous.bot;
            }
            let ghost fv = fresh@;
            snap.insert(i, fresh);
            proof {
                lemma_views_replace(before, i as int, fresh);
                assert(fv == merged_snapshot(m, s0, users)[i as int]);
                assert forall|j: int| 0 <= j < snap.len() && j != i implies #[trigger] user_views(snap@)[j] == user_views(before)[j] by {}
            }
            i += 1;
        }
        let ghost merged = merged_snapshot(m, s0, users);
        assert(user_views(snap@) =~= merged);
        self.users = snap;
        proof {
            if old(self).wf() {
                let pm = self@.prefix_modes;
                let ps = self@.prefix_symbols;
                assert forall|j: int| 0 <= j < merged.len() implies displays(#[trigger] merged[j], pm, ps) by {
                    assert(displays(s0[j], pm, ps));
                }
            }
        }
        self.sort_users();
    }

    /// `nick` (listed and in a pending snapshot) gains the status letter
    /// `mode`; the list is re-sorted.
    pub fn add_user_status_mode(&mut self, nick: &str, mode: char)
        ensures
            sorted_perm(old(self)@.case_mapping, final(self)@.users,
                letter_gained(old(self)@.case_mapping, old(self)@.users, nick@, mode, old(self)@.prefix_modes, old(self)@.prefix_symbols)),
            final(self)@ == (ChannelView {
                users: final(self)@.users,
                names_snapshot: match old(self)@.names_snapshot {
                    Some(s) => Some(letter_gained(old(self)@.case_mapping, s, nick@, mode, old(self)@.prefix_modes, old(self)@.prefix_symbols)),
                    None => None,
                },
                ..old(self)@
            }),
            old(self).wf() ==> final(self).wf(),
    {
        self.change_status(nick, MemberChange::Gain(mode));
        proof {
            let m = old(self)@.case_mapping;
            let pm = old(self)@.prefix_modes;
            let ps = old(self)@.prefix_symbols;
            assert(update_member(m, old(self)@.users, nick@, |u: UserView| change_view(MemberChange::Gain(mode), u, pm, ps))
                == letter_gained(m, old(self)@.users, nick@, mode, pm, ps));
        }
        self.sort_users();
    }

    fn change_status(&mut self, nick: &str, change: MemberChange)
        requires
            change is Gain || change is Lose,
        ensures
            final(self)@ == (ChannelView {
                users: update_member(old(self)@.case_mapping, old(self)@.users, nick@,
                    |u: UserView| change_view(change, u, old(self)@.prefix_modes, old(self)@.prefix_symbols)),
                names_snapshot: match old(self)@.names_snapshot {
                    Some(s) => Some(update_member(old(self)@.case_mapping, s, nick@,
                        |u: UserView| change_view(change, u, old(self)@.prefix_modes, old(self)@.prefix_symbols))),
                    None => None,
                },
                ..old(self)@
            }),
            old(self).wf() ==> final(self).wf(),
    {
        let m = self.case_mapping;
        let c2 = match &change {
            MemberChange::Gain(l) => MemberChange::Gain(*l),
            MemberChange::Lose(l) => MemberChange::Lose(*l),
            _ => MemberChange::Gain(' '),
        };
        assert(c2 == change);
        change_member(m, &mut self.users, nick, change, self.prefix_modes.as_str(), self.prefix_symbols.as_str());
        let snapshot = self.names_snapshot.take();
        self.names_snapshot = match snapshot {
            Some(mut v) => {
                change_member(m, &mut v, nick, c2, self.prefix_modes.as_str(), self.prefix_symbols.as_str());
                Some(v)
            },
            None => None,
        };
        proof {
            if old(self).wf() {
                let pm = self@.prefix_modes;
                let ps = self@.prefix_symbols;
                let f = |u: UserView| change_view(change, u, pm, ps);
                assert forall|v: UserView| displays(v, pm, ps) implies displays(#[trigger] f(v), pm, ps) by {}
                lemma_change_displayed(m, old(self)@.users, nick@, f, pm, ps);
                if let Some(s) = old(self)@.names_snapshot {
                    lemma_change_displayed(m, s, nick@, f, pm, ps);
                }
            }
        }
    }
}

impl Channel {
    /// `nick` (listed and in a pending snapshot) loses the status letter
    /// `mode`; the list is re-sorted.
    pub fn remove_user_status_mode(&mut self, nick: &str, mode: char)
        ensures
            sorted_perm(old(self)@.case_mapping, final(self)@.users,
                letter_lost(old(self)@.case_mapping, old(self)@.users, nick@, mode, old(self)@.prefix_modes, old(self)@.prefix_symbols)),
            final(self)@ == (ChannelView {
                users: final(self)@.users,
                names_snapshot: match old(self)@.names_snapshot {
                    Some(s) => Some(letter_lost(old(self)@.case_mapping, s, nick@, mode, old(self)@.prefix_modes, old(self)@.prefix_symbols)),
                    None => None,
                },
                ..old(self)@
            }),
            old(self).wf() ==> final(self).wf(),
    {
        self.change_status(nick, MemberChange::Lose(mode));
        proof {
            let m = old(self)@.case_mapping;
            let pm = old(self)@.prefix_modes;
            let ps = old(self)@.prefix_symbols;
            assert(update_member(m, old(self)@.users, nick@, |u: UserView| change_view(MemberChange::Lose(mode), u, pm, ps))
                == letter_lost(m, old(self)@.users, nick@, mode, pm, ps));
        }
        self.sort_users();
    }

    /// `remove_user_status_mode` for a membership mode (no change for
    /// `Normal`, which has no letter).
    pub fn remove_user_mode(&mut self, nick: &str, mode: UserMode)
        ensures
            spec_mode_letter(mode) is None ==> final(self)@ == old(self)@,
            spec_mode_letter(mode) matches Some(c) ==> {
                &&& sorted_perm(old(self)@.case_mapping, final(self)@.users,
                    letter_lost(old(self)@.case_mapping, old(self)@.users, nick@, c, old(self)@.prefix_modes, old(self)@.prefix_symbols))
                &&& final(self)@ == (ChannelView {
                    users: final(self)@.users,
                    names_snapshot: match old(self)@.names_snapshot {
                        Some(s) => Some(letter_lost(old(self)@.case_mapping, s, nick@, c, old(self)@.prefix_modes, old(self)@.prefix_symbols)),
                        None => None,
                    },
                    ..old(self)@
                })
            },
            old(self).wf() ==> final(self).wf(),
    {
        match mode.mode_letter() {
            Some(c) => self.remove_user_status_mode(nick, c),
            None => {},
        }
    }

    /// Rename a member. If the new nick already belongs to a different
    /// member, the old entry is dropped instead of creating a duplicate; a
    /// pure case change still renames.
    pub fn rename_user(&mut self, old_nick: &str, new_nick: &str)
        ensures
            ({
                let m = old(self)@.case_mapping;
                let users = old(self)@.users;
                if !same_nick(m, old_nick@, new_nick@) && find_member(m, users, new_nick@).is_some() {
                    &&& sorted_perm(m, final(self)@.users, without_member(m, users, old_nick@))
                    &&& final(self)@ == (ChannelView { users: final(self)@.users, ..old(self)@ })
                } else {
                    &&& (if find_member(m, users, old_nick@).is_some() {
                        sorted_perm(m, final(self)@.users, renamed(m, users, old_nick@, new_nick@))
                    } else {
                        final(self)@.users == users
                    })
                    &&& final(self)@ == (ChannelView {
                        users: final(self)@.users,
                        names_snapshot: match old(self)@.names_snapshot {
                            Some(s) => Some(renamed(m, s, old_nick@, new_nick@)),
                            None => None,
                        },
                        ..old(self)@
                    })
                }
            }),
            old(self).wf() ==> final(self).wf(),
    {
        let m = self.case_mapping;
        if !m.eq(old_nick, new_nick) && find_member_exec(m, &self.users, new_nick).is_some() {
            let mut users: Vec<ChannelUser> = Vec::new();
            std::mem::swap(&mut users, &mut self.users);
            self.users = retain_other_members(m, users, old_nick);
            proof {
                lemma_without_member(m, old(self)@.users, old_nick@);
                if old(self).wf() {
                    assert forall|i: int| 0 <= i < self@.users.len() implies
                        displays(#[trigger] self@.users[i], self@.prefix_modes, self@.prefix_symbols) by {
                        let k = choose|k: int| 0 <= k < old(self)@.users.len() && old(self)@.users[k] == self@.users[i];
                    }
                }
            }
            self.sort_users();
            return;
        }
        let n1 = to_string(new_nick);
        let ghost c1 = MemberChange::Rename(n1);
        let found = change_member(m, &mut self.users, old_nick, MemberChange::Rename(n1), "", "");
        proof {
            let f = |u: UserView| change_view(c1, u, ""@, ""@);
            assert(update_member(m, old(self)@.users, old_nick@, f) =~= renamed(m, old(self)@.users, old_nick@, new_nick@));
        }
        if found {
            self.sort_users();
        }
        let snapshot = self.names_snapshot.take();
        self.names_snapshot = match snapshot {
            Some(mut v) => {
                let n2 = to_string(new_nick);
                let ghost c2 = MemberChange::Rename(n2);
                let ghost sv0 = user_views(v@);
                change_member(m, &mut v, old_nick, MemberChange::Rename(n2), "", "");
                proof {
                    let f = |u: UserView| change_view(c2, u, ""@, ""@);
                    assert(update_member(m, sv0, old_nick@, f) =~= renamed(m, sv0, old_nick@, new_nick@));
                }
                Some(v)
            },
            None => None,
        };
        proof {
            if old(self).wf() {
                let pm = self@.prefix_modes;
                let ps = self@.prefix_symbols;
                let f = |u: UserView| UserView { nick: new_nick@, ..u };
                assert forall|v: UserView| displays(v, pm, ps) implies displays(#[trigger] f(v), pm, ps) by {}
                lemma_change_displayed(m, old(self)@.users, old_nick@, f, pm, ps);
                if let Some(s) = old(self)@.names_snapshot {
                    lemma_change_displayed(m, s, old_nick@, f, pm, ps);
                    assert(renamed(m, s, old_nick@, new_nick@) == update_member(m, s, old_nick@, f));
                }
                assert(renamed(m, old(self)@.users, old_nick@, new_nick@) == update_member(m, old(self)@.users, old_nick@, f));
                if find_member(m, old(self)@.users, old_nick@).is_some() {
                    lemma_perm_displayed(m, self@.users, renamed(m, old(self)@.users, old_nick@, new_nick@), pm, ps);
                }
            }
        }
    }
}

impl Channel {
    /// IRCv3 away-notify: set (or clear) a member's away message.
    pub fn set_user_away(&mut self, nick: &str, away_msg: Option<String>)
        ensures
            final(self)@ == (ChannelView {
                users: away_set(old(self)@.case_mapping, old(self)@.users, nick@, opt_view(away_msg)),
                names_snapshot: match old(self)@.names_snapshot {
                    Some(s) => Some(away_set(old(self)@.case_mapping, s, nick@, opt_view(away_msg))),
                    None => None,
                },
                ..old(self)@
            }),
            old(self).wf() ==> final(self).wf(),
    {
        let m = self.case_mapping;
        let ghost gv = opt_view(away_msg);
        let ghost c1 = MemberChange::Away(away_msg);
        let copy = clone_opt(&away_msg);
        change_member(m, &mut self.users, nick, MemberChange::Away(away_msg), "", "");
        proof {
            let f = |u: UserView| change_view(c1, u, ""@, ""@);
            assert(update_member(m, old(self)@.users, nick@, f) =~= away_set(m, old(self)@.users, nick@, gv));
        }
        let snapshot = self.names_snapshot.take();
        self.names_snapshot = match snapshot {
            Some(mut v) => {
                let ghost sv0 = user_views(v@);
                let ghost c2 = MemberChange::Away(copy);
                change_member(m, &mut v, nick, MemberChange::Away(copy), "", "");
                proof {
                    let f = |u: UserView| change_view(c2, u, ""@, ""@);
                    assert(update_member(m, sv0, nick@, f) =~= away_set(m, sv0, nick@, gv));
                }
                Some(v)
            },
            None => None,
        };
        proof {
            if old(self).wf() {
                let pm = self@.prefix_modes;
                let ps = self@.prefix_symbols;
                let f = |u: UserView| UserView { away: gv, ..u };
                assert forall|v: UserView| displays(v, pm, ps) implies displays(#[trigger] f(v), pm, ps) by {}
                lemma_change_displayed(m, old(self)@.users, nick@, f, pm, ps);
                assert(away_set(m, old(self)@.users, nick@, gv) == update_member(m, old(self)@.users, nick@, f));
                if let Some(s) = old(self)@.names_snapshot {
                    lemma_change_displayed(m, s, nick@, f, pm, ps);
                    assert(away_set(m, s, nick@, gv) == update_member(m, s, nick@, f));
                }
            }
        }
    }

    /// IRCv3 account-notify: update a member's logged-in account.
    pub fn set_user_account(&mut self, nick: &str, account: Option<String>)
        ensures
            final(self)@ == (ChannelView {
                users: account_set(old(self)@.case_mapping, old(self)@.users, nick@, opt_view(account)),
                names_snapshot: match old(self)@.names_snapshot {
                    Some(s) => Some(account_set(old(self)@.case_mapping, s, nick@, opt_view(account))),
                    None => None,
                },
                ..old(self)@
            }),
            old(self).wf() ==> final(self).wf(),
    {
        let m = self.case_mapping;
        let ghost gv = opt_view(account);
        let ghost c1 = MemberChange::Account(account);
        let copy = clone_opt(&account);
        change_member(m, &mut self.users, nick, MemberChange::Account(account), "", "");
        proof {
            let f = |u: UserView| change_view(c1, u, ""@, ""@);
            assert(update_member(m, old(self)@.users, nick@, f) =~= account_set(m, old(self)@.users, nick@, gv));
        }
        let snapshot = self.names_snapshot.take();
        self.names_snapshot = match snapshot {
            Some(mut v) => {
                let ghost sv0 = user_views(v@);
                let ghost c2 = MemberChange::Account(copy);
                change_member(m, &mut v, nick, MemberChange::Account(copy), "", "");
                proof {
                    let f = |u: UserView| change_view(c2, u, ""@, ""@);
                    assert(update_member(m, sv0, nick@, f) =~= account_set(m, sv0, nick@, gv));
                }
                Some(v)
            },
            None => None,
        };
        proof {
            if old(self).wf() {
                let pm = self@.prefix_modes;
                let ps = self@.prefix_symbols;
                let f = |u: UserView| UserView { account: gv, ..u };
                assert forall|v: UserView| displays(v, pm, ps) implies displays(#[trigger] f(v), pm, ps) by {}
                lemma_change_displayed(m, old(self)@.users, nick@, f, pm, ps);
                assert(account_set(m, old(self)@.users, nick@, gv) == update_member(m, old(self)@.users, nick@, f));
                if let Some(s) = old(self)@.names_snapshot {
                    lemma_change_displayed(m, s, nick@, f, pm, ps);
                    assert(account_set(m, s, nick@, gv) == update_member(m, s, nick@, f));
                }
            }
        }
    }

    /// IRCv3 extended-join / setname: retain a member's real name.
    pub fn set_user_realname(&mut self, nick: &str, realname: Option<String>)
        ensures
            final(self)@ == (ChannelView {
                users: realname_set(old(self)@.case_mapping, old(self)@.users, nick@, opt_view(realname)),
                names_snapshot: match old(self)@.names_snapshot {
                    Some(s) => Some(realname_set(old(self)@.case_mapping, s, nick@, opt_view(realname))),
                    None => None,
                },
                ..old(self)@
            }),
            old(self).wf() ==> final(self).wf(),
    {
        let m = self.case_mapping;
        let ghost gv = opt_view(realname);
        let ghost c1 = MemberChange::Realname(realname);
        let copy = clone_opt(&realname);
        change_member(m, &mut self.users, nick, MemberChange::Realname(realname), "", "");
        proof {
            let f = |u: UserView| change_view(c1, u, ""@, ""@);
            assert(update_member(m, old(self)@.users, nick@, f) =~= realname_set(m, old(self)@.users, nick@, gv));
        }
        let snapshot = self.names_snapshot.take();
        self.names_snapshot = match snapshot {
            Some(mut v) => {
                let ghost sv0 = user_views(v@);
                let ghost c2 = MemberChange::Realname(copy);
                change_member(m, &mut v, nick, MemberChange::Realname(copy), "", "");
                proof {
                    let f = |u: UserView| change_view(c2, u, ""@, ""@);
                    assert(update_member(m, sv0, nick@, f) =~= realname_set(m, sv0, nick@, gv));
                }
                Some(v)
            },
            None => None,
        };
        proof {
            if old(self).wf() {
                let pm = self@.prefix_modes;
                let ps = self@.prefix_symbols;
                let f = |u: UserView| UserView { realname: gv, ..u };
                assert forall|v: UserView| displays(v, pm, ps) implies displays(#[trigger] f(v), pm, ps) by {}
                lemma_change_displayed(m, old(self)@.users, nick@, f, pm, ps);
                assert(realname_set(m, old(self)@.users, nick@, gv) == update_member(m, old(self)@.users, nick@, f));
                if let Some(s) = old(self)@.names_snapshot {
                    lemma_change_displayed(m, s, nick@, f, pm, ps);
                    assert(realname_set(m, s, nick@, gv) == update_member(m, s, nick@, f));
                }
            }
        }
    }

    /// Let the member named by `identity` (listed and in a pending
    /// snapshot) take on its identity and presence data.
    pub fn apply_user_identity(&mut self, identity: &KnownUser)
        ensures
            final(self)@ == (ChannelView {
                users: identity_applied(old(self)@.case_mapping, old(self)@.users, *identity),
                names_snapshot: match old(self)@.names_snapshot {
                    Some(s) => Some(identity_applied(old(self)@.case_mapping, s, *identity)),
                    None => None,
                },
                ..old(self)@
            }),
            old(self).wf() ==> final(self).wf(),
    {
        let m = self.case_mapping;
        apply_identity_to(m, &mut self.users, identity);
        let snapshot = self.names_snapshot.take();
        self.names_snapshot = match snapshot {
            Some(mut v) => {
                apply_identity_to(m, &mut v, identity);
                Some(v)
            },
            None => None,
        };
        proof {
            if old(self).wf() {
                let pm = self@.prefix_modes;
                let ps = self@.prefix_symbols;
                let f = |u: UserView| with_identity(u, *identity);
                assert forall|v: UserView| displays(v, pm, ps) implies displays(#[trigger] f(v), pm, ps) by {}
                lemma_change_displayed(m, old(self)@.users, identity.nick@, f, pm, ps);
                if let Some(s) = old(self)@.names_snapshot {
                    lemma_change_displayed(m, s, identity.nick@, f, pm, ps);
                }
            }
        }
    }
}

/// A ban-list entry view: mask, setter, set time.
pub type BanView = (Seq<char>, Seq<char>, u64);

/// Index of the first type-A list (at or after `k`) for mode letter `c`.
pub open spec fn find_list_from(lists: Seq<(char, Seq<BanView>)>, c: char, k: int) -> Option<int>
    decreases lists.len() - k,
{
    if k < 0 || k >= lists.len() {
        None
    } else if lists[k].0 == c {
        Some(k)
    } else {
        find_list_from(lists, c, k + 1)
    }
}

/// Index of the first entry (at or after `k`) whose mask equals `mask`
/// ignoring ASCII case.
pub open spec fn find_mask_from(entries: Seq<BanView>, mask: Seq<char>, k: int) -> Option<int>
    decreases entries.len() - k,
{
    if k < 0 || k >= entries.len() {
        None
    } else if eq_ignore_ascii_case(entries[k].0, mask) {
        Some(k)
    } else {
        find_mask_from(entries, mask, k + 1)
    }
}

proof fn lemma_find_list_from(lists: Seq<(char, Seq<BanView>)>, c: char, k: int)
    requires
        0 <= k,
    ensures
        match find_list_from(lists, c, k) {
            Some(i) => k <= i < lists.len() && lists[i].0 == c,
            None => forall|j: int| k <= j < lists.len() ==> (#[trigger] lists[j]).0 != c,
        },
    decreases lists.len() - k,
{
    if k < lists.len() && lists[k].0 != c {
        lemma_find_list_from(lists, c, k + 1);
    }
}

proof fn lemma_find_mask_from(entries: Seq<BanView>, mask: Seq<char>, k: int)
    requires
        0 <= k,
    ensures
        match find_mask_from(entries, mask, k) {
            Some(i) => k <= i < entries.len() && eq_ignore_ascii_case(entries[i].0, mask),
            None => forall|j: int| k <= j < entries.len() ==> !eq_ignore_ascii_case((#[trigger] entries[j]).0, mask),
        },
    decreases entries.len() - k,
{
    if k < entries.len() && !eq_ignore_ascii_case(entries[k].0, mask) {
        lemma_find_mask_from(entries, mask, k + 1);
    }
}

/// Entries after adding or refreshing `mask` (matched ignoring ASCII case;
/// a match keeps its own spelling).
pub open spec fn upsert_entry(entries: Seq<BanView>, mask: Seq<char>, set_by: Seq<char>, set_time: u64) -> Seq<BanView> {
    match find_mask_from(entries, mask, 0) {
        Some(j) => entries.update(j, (entries[j].0, set_by, set_time)),
        None => entries.push((mask, set_by, set_time)),
    }
}

/// Entries whose mask differs from `mask` ignoring ASCII case, in order.
pub open spec fn without_mask(entries: Seq<BanView>, mask: Seq<char>) -> Seq<BanView>
    decreases entries.len(),
{
    if entries.len() == 0 {
        entries
    } else {
        let rest = without_mask(entries.drop_last(), mask);
        if eq_ignore_ascii_case(entries.last().0, mask) {
            rest
        } else {
            rest.push(entries.last())
        }
    }
}

/// Type-A lists after upserting `mask` into the list for `c` (created if
/// absent).
pub open spec fn lists_upsert(lists: Seq<(char, Seq<BanView>)>, c: char, mask: Seq<char>, set_by: Seq<char>,
    set_time: u64) -> Seq<(char, Seq<BanView>)> {
    match find_list_from(lists, c, 0) {
        Some(i) => lists.update(i, (c, upsert_entry(lists[i].1, mask, set_by, set_time))),
        None => lists.push((c, seq![(mask, set_by, set_time)])),
    }
}

/// Type-A lists after removing `mask` from the list for `c`.
pub open spec fn lists_remove(lists: Seq<(char, Seq<BanView>)>, c: char, mask: Seq<char>) -> Seq<(char, Seq<BanView>)> {
    match find_list_from(lists, c, 0) {
        Some(i) => lists.update(i, (c, without_mask(lists[i].1, mask))),
        None => lists,
    }
}

/// Whether two strings are equal ignoring ASCII case.
pub fn str_eq_ignore_ascii_case(a: &str, b: &str) -> (r: bool)
    ensures
        r == eq_ignore_ascii_case(a@, b@),
{
    let av = chars_of(a);
    let bv = chars_of(b);
    assert(av@.subrange(0, av@.len() as int) =~= av@);
    range_eq_ignore_ascii_case(&av, 0, av.len(), &bv)
}

fn find_mask_exec(entries: &Vec<BanEntry>, mask: &str) -> (r: Option<usize>)
    ensures
        match r {
            Some(j) => find_mask_from(ban_views(entries@), mask@, 0) == Some(j as int),
            None => find_mask_from(ban_views(entries@), mask@, 0).is_none(),
        },
{
    let ghost s = ban_views(entries@);
    let mut j: usize = 0;
    while j < entries.len()
        invariant
            j <= entries.len(),
            s == ban_views(entries@),
            find_mask_from(s, mask@, 0) == find_mask_from(s, mask@, j as int),
        decreases entries.len() - j,
    {
        if str_eq_ignore_ascii_case(entries[j].mask.as_str(), mask) {
            return Some(j);
        }
        j += 1;
    }
    None
}

fn find_list_exec(lists: &Vec<(char, Vec<BanEntry>)>, c: char) -> (r: Option<usize>)
    ensures
        match r {
            Some(i) => find_list_from(list_views(lists@), c, 0) == Some(i as int),
            None => find_list_from(list_views(lists@), c, 0).is_none(),
        },
{
    let ghost s = list_views(lists@);
    let mut i: usize = 0;
    while i < lists.len()
        invariant
            i <= lists.len(),
            s == list_views(lists@),
            find_list_from(s, c, 0) == find_list_from(s, c, i as int),
        decreases lists.len() - i,
    {
        if lists[i].0 == c {
            return Some(i);
        }
        i += 1;
    }
    None
}

/// A copy of a ban-list entry.
fn copy_ban(b: &BanEntry) -> (r: BanEntry)
    ensures
        ban_view(r) == ban_view(*b),
{
    BanEntry { mask: b.mask.clone(), set_by: b.set_by.clone(), set_time: b.set_time }
}

/// `entries` without the masks equal to `mask` ignoring ASCII case.
fn retain_other_masks(entries: Vec<BanEntry>, mask: &str) -> (r: Vec<BanEntry>)
    ensures
        ban_views(r@) == without_mask(ban_views(entries@), mask@),
{
    let ghost s = ban_views(entries@);
    let mut out: Vec<BanEntry> = Vec::new();
    let mut i: usize = 0;
    while i < entries.len()
        invariant
            i <= entries.len(),
            s == ban_views(entries@),
            ban_views(out@) == without_mask(s.take(i as int), mask@),
        decreases entries.len() - i,
    {
        proof {
            assert(s.take(i as int + 1).drop_last() =~= s.take(i as int));
        }
        let ghost before = out@;
        if !str_eq_ignore_ascii_case(entries[i].mask.as_str(), mask) {
            out.push(copy_ban(&entries[i]));
            assert(ban_views(out@) =~= ban_views(before).push(s[i as int]));
        }
        i += 1;
    }
    assert(s.take(s.len() as int) =~= s);
    out
}

/// Mode string after a `+`/`-` change of the flag `c`: `+` adds it once
/// (starting a `+` string if needed); `-` removes it and leaves "" rather
/// than a bare "+"; any other sign leaves the modes alone.
pub open spec fn flag_modes(modes: Seq<char>, sign: char, c: char) -> Seq<char> {
    if sign == '+' {
        if has_char(modes, c) {
            modes
        } else if modes.len() > 0 && modes[0] == '+' {
            modes.push(c)
        } else {
            seq!['+', c]
        }
    } else if sign == '-' {
        let r = without_char(modes, c);
        if r == seq!['+'] {
            Seq::empty()
        } else {
            r
        }
    } else {
        modes
    }
}

/// The parameter recorded for mode `c` (the last entry for it).
pub open spec fn param_of(p: Seq<(char, Seq<char>)>, c: char) -> Option<Seq<char>>
    decreases p.len(),
{
    if p.len() == 0 {
        None
    } else if p.last().0 == c {
        Some(p.last().1)
    } else {
        param_of(p.drop_last(), c)
    }
}

/// The recorded parameters without any for mode `c`.
pub open spec fn params_without(p: Seq<(char, Seq<char>)>, c: char) -> Seq<(char, Seq<char>)>
    decreases p.len(),
{
    if p.len() == 0 {
        p
    } else {
        let rest = params_without(p.drop_last(), c);
        if p.last().0 == c {
            rest
        } else {
            rest.push(p.last())
        }
    }
}

/// The parameters listed for a mode string: the recorded parameter of each
/// mode letter that has one, in the order of the letters.
pub open spec fn rebuilt_params(modes: Seq<char>, p: Seq<(char, Seq<char>)>) -> Seq<Seq<char>>
    decreases modes.len(),
{
    if modes.len() == 0 {
        Seq::empty()
    } else {
        let rest = rebuilt_params(modes.drop_last(), p);
        let c = modes.last();
        if c == '+' || c == '-' {
            rest
        } else {
            match param_of(p, c) {
                Some(v) => rest.push(v),
                None => rest,
            }
        }
    }
}

/// Modes and recorded parameters after one channel mode change.
pub open spec fn mode_change(modes: Seq<char>, p: Seq<(char, Seq<char>)>, sign: char, c: char,
    param: Option<Seq<char>>) -> (Seq<char>, Seq<(char, Seq<char>)>) {
    let p1 = if sign == '+' {
        match param {
            Some(v) => params_without(p, c).push((c, v)),
            None => p,
        }
    } else if sign == '-' {
        params_without(p, c)
    } else {
        p
    };
    let p2 = if sign == '-' { params_without(p1, c) } else { p1 };
    (flag_modes(modes, sign, c), p2)
}

/// Whether mode `c` takes a parameter under `sign`: CHANMODES type A
/// (lists) and B always, type C only when set.
pub open spec fn takes_parameter(a: Seq<char>, b: Seq<char>, cm: Seq<char>, sign: char, c: char) -> bool {
    has_char(a, c) || has_char(b, c) || (sign == '+' && has_char(cm, c))
}

/// Modes and parameters after reading an RPL_CHANNELMODEIS mode string from
/// position `i`, with the current sign and the next unused parameter.
pub open spec fn reply_modes(ms: Seq<char>, i: int, sign: char, idx: int, params: Seq<Seq<char>>,
    a: Seq<char>, b: Seq<char>, cm: Seq<char>, st: (Seq<char>, Seq<(char, Seq<char>)>)) -> (Seq<char>, Seq<(char, Seq<char>)>)
    decreases ms.len() - i,
{
    if i < 0 || i >= ms.len() {
        st
    } else if ms[i] == '+' || ms[i] == '-' {
        reply_modes(ms, i + 1, ms[i], idx, params, a, b, cm, st)
    } else {
        let takes = takes_parameter(a, b, cm, sign, ms[i]);
        let has = takes && 0 <= idx < params.len();
        let param = if has { Some(params[idx]) } else { None };
        reply_modes(ms, i + 1, sign, if has { idx + 1 } else { idx }, params, a, b, cm,
            mode_change(st.0, st.1, sign, ms[i], param))
    }
}

/// Messages other than the one(s) with id `msgid`, in order.
pub open spec fn without_msgid(s: Seq<ChatMessage>, msgid: Seq<char>) -> Seq<ChatMessage>
    decreases s.len(),
{
    if s.len() == 0 {
        s
    } else {
        let rest = without_msgid(s.drop_last(), msgid);
        if opt_view(s.last().msgid) == Some(msgid) {
            rest
        } else {
            rest.push(s.last())
        }
    }
}

/// Whether some message carries the id `msgid`.
pub open spec fn has_msgid(s: Seq<ChatMessage>, msgid: Seq<char>) -> bool {
    exists|k: int| 0 <= k < s.len() && opt_view((#[trigger] s[k]).msgid) == Some(msgid)
}

/// The scrollback after `push_trimmed(msg, max)`.
pub open spec fn pushed_trimmed(s: Seq<ChatMessage>, msg: ChatMessage, max: nat) -> Seq<ChatMessage> {
    let dup = match msg.msgid {
        Some(id) => has_msgid(s, id@),
        None => false,
    };
    if dup {
        s
    } else {
        let t = s.push(msg);
        if max > 0 && t.len() > max {
            t.skip(t.len() - max)
        } else {
            t
        }
    }
}

/// Whether some message of `msgs` carries the id `id`.
fn contains_msgid(msgs: &std::collections::VecDeque<ChatMessage>, id: &String) -> (r: bool)
    ensures
        r == has_msgid(msgs@, id@),
{
    let mut k: usize = 0;
    while k < msgs.len()
        invariant
            k <= msgs.len(),
            forall|j: int| 0 <= j < k ==> opt_view((#[trigger] msgs@[j]).msgid) != Some(id@),
        decreases msgs.len() - k,
    {
        let dup = match msgs[k].msgid.as_ref() {
            Some(existing) => *existing == *id,
            None => false,
        };
        if dup {
            assert(opt_view(msgs@[k as int].msgid) == Some(id@));
            return true;
        }
        k += 1;
    }
    false
}

fn modes_after_flag(modes: &String, sign: char, c: char) -> (r: String)
    ensures
        r@ == flag_modes(modes@, sign, c),
{
    let mv = chars_of(modes.as_str());
    if sign == '+' {
        if contains_char(&mv, c) {
            return modes.clone();
        }
        if mv.len() > 0 && mv[0] == '+' {
            let mut r = modes.clone();
            push_char(&mut r, c);
            return r;
        }
        let mut r = String::new();
        push_char(&mut r, '+');
        push_char(&mut r, c);
        assert(r@ =~= seq!['+', c]);
        r
    } else if sign == '-' {
        let mut kept: Vec<char> = Vec::new();
        let mut i: usize = 0;
        while i < mv.len()
            invariant
                i <= mv.len(),
                kept@ == without_char(mv@.take(i as int), c),
            decreases mv.len() - i,
        {
            proof {
                assert(mv@.take(i as int + 1).drop_last() =~= mv@.take(i as int));
            }
            if mv[i] != c {
                kept.push(mv[i]);
            }
            i += 1;
        }
        assert(mv@.take(mv@.len() as int) =~= mv@);
        if kept.len() == 1 && kept[0] == '+' {
            assert(kept@ =~= seq!['+']);
            String::new()
        } else {
            proof {
                if kept@ == seq!['+'] {
                    assert(kept@[0] == '+');
                }
            }
            crate::text::string_from_chars(&kept)
        }
    } else {
        modes.clone()
    }
}

fn param_of_exec(p: &Vec<(char, String)>, c: char) -> (r: Option<&String>)
    ensures
        match r {
            Some(v) => param_of(param_views(p@), c) == Some(v@),
            None => param_of(param_views(p@), c).is_none(),
        },
{
    let ghost s = param_views(p@);
    let mut k: usize = p.len();
    assert(s.take(k as int) =~= s);
    while k > 0
        invariant
            k <= p.len(),
            s == param_views(p@),
            param_of(s, c) == param_of(s.take(k as int), c),
        decreases k,
    {
        proof {
            assert(s.take(k as int).drop_last() =~= s.take(k as int - 1));
        }
        if p[k - 1].0 == c {
            return Some(&p[k - 1].1);
        }
        k -= 1;
    }
    assert(s.take(s.len() as int) =~= s);
    None
}

fn params_without_exec(p: &Vec<(char, String)>, c: char) -> (r: Vec<(char, String)>)
    ensures
        param_views(r@) == params_without(param_views(p@), c),
{
    let ghost s = param_views(p@);
    let mut out: Vec<(char, String)> = Vec::new();
    let mut i: usize = 0;
    while i < p.len()
        invariant
            i <= p.len(),
            s == param_views(p@),
            param_views(out@) == params_without(s.take(i as int), c),
        decreases p.len() - i,
    {
        proof {
            assert(s.take(i as int + 1).drop_last() =~= s.take(i as int));
        }
        let ghost before = out@;
        if p[i].0 != c {
            out.push((p[i].0, p[i].1.clone()));
            assert(param_views(out@) =~= param_views(before).push(s[i as int]));
        }
        i += 1;
    }
    assert(s.take(s.len() as int) =~= s);
    out
}

impl Channel {
    /// The parameter recorded for channel mode `mode`, if any.
    pub fn mode_parameter(&self, mode: char) -> (r: Option<&str>)
        ensures
            match r {
                Some(v) => param_of(self@.mode_parameters, mode) == Some(v@),
                None => param_of(self@.mode_parameters, mode).is_none(),
            },
    {
        match param_of_exec(&self.mode_parameters, mode) {
            Some(v) => Some(v.as_str()),
            None => None,
        }
    }

    /// The type-A list for `mode`, if one was started.
    pub fn mode_list(&self, mode: char) -> (r: Option<&Vec<BanEntry>>)
        ensures
            match find_list_from(self@.mode_lists, mode, 0) {
                Some(i) => r.is_some() && ban_views(r.unwrap()@) == self@.mode_lists[i].1,
                None => r.is_none(),
            },
    {
        let found = find_list_exec(&self.mode_lists, mode);
        proof {
            lemma_find_list_from(self@.mode_lists, mode, 0);
        }
        match found {
            Some(i) => Some(&self.mode_lists[i].1),
            None => None,
        }
    }

    /// Record `mode_params` for the current modes and parameters.
    fn rebuild_mode_params(&mut self)
        ensures
            final(self)@ == (ChannelView {
                mode_params: rebuilt_params(old(self)@.modes, old(self)@.mode_parameters),
                ..old(self)@
            }),
    {
        let mv = chars_of(self.modes.as_str());
        let ghost p = self@.mode_parameters;
        let mut out: Vec<String> = Vec::new();
        let mut i: usize = 0;
        while i < mv.len()
            invariant
                i <= mv.len(),
                p == param_views(self.mode_parameters@),
                views(out@) == rebuilt_params(mv@.take(i as int), p),
            decreases mv.len() - i,
        {
            proof {
                assert(mv@.take(i as int + 1).drop_last() =~= mv@.take(i as int));
            }
            let c = mv[i];
            let ghost before = out@;
            if c != '+' && c != '-' {
                if let Some(v) = param_of_exec(&self.mode_parameters, c) {
                    out.push(v.clone());
                    assert(views(out@) =~= views(before).push(v@));
                }
            }
            i += 1;
        }
        assert(mv@.take(mv@.len() as int) =~= mv@);
        self.mode_params = out;
    }

    /// Apply a `+`/`-` change of a channel flag (a parameter of an unset
    /// mode is forgotten).
    pub fn apply_channel_mode_flag(&mut self, sign: char, mode: char)
        ensures
            final(self)@ == (ChannelView {
                modes: flag_modes(old(self)@.modes, sign, mode),
                mode_parameters: if sign == '-' {
                    params_without(old(self)@.mode_parameters, mode)
                } else {
                    old(self)@.mode_parameters
                },
                mode_params: rebuilt_params(flag_modes(old(self)@.modes, sign, mode),
                    if sign == '-' { params_without(old(self)@.mode_parameters, mode) } else { old(self)@.mode_parameters }),
                ..old(self)@
            }),
            old(self).wf() ==> final(self).wf(),
    {
        self.modes = modes_after_flag(&self.modes, sign, mode);
        if sign == '-' {
            self.mode_parameters = params_without_exec(&self.mode_parameters, mode);
        }
        self.rebuild_mode_params();
    }

    /// Apply one channel mode change with its parameter, if any.
    pub fn apply_channel_mode(&mut self, sign: char, mode: char, parameter: Option<&str>)
        ensures
            ({
                let st = mode_change(old(self)@.modes, old(self)@.mode_parameters, sign, mode,
                    match parameter { Some(v) => Some(v@), None => None });
                final(self)@ == (ChannelView {
                    modes: st.0,
                    mode_parameters: st.1,
                    mode_params: rebuilt_params(st.0, st.1),
                    ..old(self)@
                })
            }),
            old(self).wf() ==> final(self).wf(),
    {
        if sign == '+' {
            if let Some(parameter) = parameter {
                let mut p = params_without_exec(&self.mode_parameters, mode);
                let ghost before = p@;
                p.push((mode, to_string(parameter)));
                assert(param_views(p@) =~= param_views(before).push((mode, parameter@)));
                self.mode_parameters = p;
            }
        } else if sign == '-' {
            self.mode_parameters = params_without_exec(&self.mode_parameters, mode);
        }
        self.apply_channel_mode_flag(sign, mode);
    }

    /// Replace the channel modes with an RPL_CHANNELMODEIS reply, taking
    /// parameters in order for the modes that consume one under `support`'s
    /// CHANMODES.
    pub fn set_channel_modes_from_reply(&mut self, modes: &str, params: &[String], support: &crate::network::NetworkSupport)
        ensures
            ({
                let st = reply_modes(modes@, 0, '+', 0, views(params@), support.chanmodes_a@, support.chanmodes_b@,
                    support.chanmodes_c@, (Seq::empty(), Seq::empty()));
                final(self)@ == (ChannelView {
                    modes: st.0,
                    mode_parameters: st.1,
                    mode_params: rebuilt_params(st.0, st.1),
                    ..old(self)@
                })
            }),
            old(self).wf() ==> final(self).wf(),
    {
        self.modes = String::new();
        self.mode_params = Vec::new();
        self.mode_parameters = Vec::new();
        let ghost a = support.chanmodes_a@;
        let ghost b = support.chanmodes_b@;
        let ghost cm = support.chanmodes_c@;
        let ghost pv = views(params@);
        let av = chars_of(support.chanmodes_a.as_str());
        let bv = chars_of(support.chanmodes_b.as_str());
        let cv = chars_of(support.chanmodes_c.as_str());
        let mv = chars_of(modes);
        let mut sign: char = '+';
        let mut param_idx: usize = 0;
        let mut i: usize = 0;
        assert(self@.modes =~= Seq::<char>::empty());
        assert(self@.mode_parameters =~= Seq::<(char, Seq<char>)>::empty());
        assert(self@.mode_params =~= Seq::<Seq<char>>::empty());
        let ghost start = self@;
        while i < mv.len()
            invariant
                i <= mv.len(),
                param_idx <= params.len(),
                mv@ == modes@,
                av@ == a && bv@ == b && cv@ == cm,
                pv == views(params@),
                reply_modes(modes@, 0, '+', 0, pv, a, b, cm, (Seq::empty(), Seq::empty()))
                    == reply_modes(modes@, i as int, sign, param_idx as int, pv, a, b, cm, (self@.modes, self@.mode_parameters)),
                self@ == (ChannelView { modes: self@.modes, mode_parameters: self@.mode_parameters, mode_params: self@.mode_params, ..start }),
                self@.mode_params == rebuilt_params(self@.modes, self@.mode_parameters),
            decreases mv.len() - i,
        {
            let c = mv[i];
            if c == '+' || c == '-' {
                sign = c;
            } else {
                // CHANMODES list modes (type A) always take a parameter, in
                // either direction.
                let takes = contains_char(&av, c) || contains_char(&bv, c) || (sign == '+' && contains_char(&cv, c));
                if takes && param_idx < params.len() {
                    let v = params[param_idx].as_str();
                    param_idx += 1;
                    self.apply_channel_mode(sign, c, Some(v));
                } else {
                    self.apply_channel_mode(sign, c, None);
                }
            }
            i += 1;
        }
        self.rebuild_mode_params();
    }

    /// Add or refresh an entry of the type-A list for `mode` (creating the
    /// list if needed); masks match ignoring ASCII case.
    pub fn upsert_mode_list_entry(&mut self, mode: char, mask: String, set_by: String, set_time: u64)
        ensures
            final(self)@ == (ChannelView {
                mode_lists: lists_upsert(old(self)@.mode_lists, mode, mask@, set_by@, set_time),
                ..old(self)@
            }),
            old(self).wf() ==> final(self).wf(),
    {
        let found = find_list_exec(&self.mode_lists, mode);
        proof {
            lemma_find_list_from(self@.mode_lists, mode, 0);
        }
        let ghost lists = self@.mode_lists;
        match found {
            Some(i) => {
                let ghost before = self.mode_lists@;
                let (c, mut entries) = self.mode_lists.remove(i);
                let ghost ev = ban_views(entries@);
                assert(ev == lists[i as int].1);
                let slot = find_mask_exec(&entries, mask.as_str());
                proof {
                    lemma_find_mask_from(ev, mask@, 0);
                }
                match slot {
                    Some(j) => {
                        let ghost eb = entries@;
                        let old_entry = entries.remove(j);
                        let e = BanEntry { mask: old_entry.mask, set_by, set_time };
                        entries.insert(j, e);
                        assert(ban_views(entries@) =~= ev.update(j as int, (ev[j as int].0, set_by@, set_time)));
                    },
                    None => {
                        let ghost eb = entries@;
                        entries.push(BanEntry { mask, set_by, set_time });
                        assert(ban_views(entries@) =~= ev.push((mask@, set_by@, set_time)));
                    },
                }
                self.mode_lists.insert(i, (c, entries));
                assert(list_views(self.mode_lists@) =~= lists.update(i as int, (mode, upsert_entry(lists[i as int].1, mask@, set_by@, set_time))));
            },
            None => {
                let mut entries: Vec<BanEntry> = Vec::new();
                entries.push(BanEntry { mask, set_by, set_time });
                assert(ban_views(entries@) =~= seq![(mask@, set_by@, set_time)]);
                self.mode_lists.push((mode, entries));
                assert(list_views(self.mode_lists@) =~= lists.push((mode, seq![(mask@, set_by@, set_time)])));
            },
        }
    }

    /// Add or refresh a ban-list entry (from the ban list reply): a mask
    /// listed again, ignoring ASCII case, keeps its place and takes the new
    /// setter and time.
    pub fn upsert_ban(&mut self, mask: String, set_by: String, set_time: u64)
        ensures
            final(self)@ == (ChannelView { bans: upsert_entry(old(self)@.bans, mask@, set_by@, set_time), ..old(self)@ }),
            old(self).wf() ==> final(self).wf(),
    {
        let ghost ev = self@.bans;
        let slot = find_mask_exec(&self.bans, mask.as_str());
        proof {
            lemma_find_mask_from(ev, mask@, 0);
        }
        match slot {
            Some(j) => {
                let old_entry = self.bans.remove(j);
                let e = BanEntry { mask: old_entry.mask, set_by, set_time };
                self.bans.insert(j, e);
                assert(ban_views(self.bans@) =~= ev.update(j as int, (ev[j as int].0, set_by@, set_time)));
            },
            None => {
                self.bans.push(BanEntry { mask, set_by, set_time });
                assert(ban_views(self.bans@) =~= ev.push((mask@, set_by@, set_time)));
            },
        }
    }

    /// Mark the type-A list for `mode` as fully received.
    pub fn complete_mode_list(&mut self, mode: char)
        ensures
            final(self)@ == (ChannelView {
                mode_lists_complete: if has_char(old(self)@.mode_lists_complete, mode) {
                    old(self)@.mode_lists_complete
                } else {
                    old(self)@.mode_lists_complete.push(mode)
                },
                ..old(self)@
            }),
            old(self).wf() ==> final(self).wf(),
    {
        if !contains_char(&self.mode_lists_complete, mode) {
            self.mode_lists_complete.push(mode);
        }
    }

    /// Apply a live `+`/`-` change of a type-A list mode; bans (`b`) are
    /// mirrored in `bans`.
    pub fn apply_mode_list_change(&mut self, sign: char, mode: char, mask: &str, setter: &str)
        ensures
            sign == '+' ==> final(self)@ == (ChannelView {
                mode_lists: lists_upsert(old(self)@.mode_lists, mode, mask@, setter@, 0),
                bans: if mode == 'b' && find_mask_from(old(self)@.bans, mask@, 0).is_none() {
                    old(self)@.bans.push((mask@, setter@, 0))
                } else {
                    old(self)@.bans
                },
                ..old(self)@
            }),
            sign != '+' ==> final(self)@ == (ChannelView {
                mode_lists: lists_remove(old(self)@.mode_lists, mode, mask@),
                bans: if mode == 'b' { without_mask(old(self)@.bans, mask@) } else { old(self)@.bans },
                ..old(self)@
            }),
            old(self).wf() ==> final(self).wf(),
    {
        if sign == '+' {
            self.upsert_mode_list_entry(mode, to_string(mask), to_string(setter), 0);
            if mode == 'b' && find_mask_exec(&self.bans, mask).is_none() {
                let ghost before = self.bans@;
                self.bans.push(BanEntry { mask: to_string(mask), set_by: to_string(setter), set_time: 0 });
                assert(ban_views(self.bans@) =~= ban_views(before).push((mask@, setter@, 0)));
            }
        } else {
            let found = find_list_exec(&self.mode_lists, mode);
            proof {
                lemma_find_list_from(self@.mode_lists, mode, 0);
            }
            let ghost lists = self@.mode_lists;
            if let Some(i) = found {
                let (c, entries) = self.mode_lists.remove(i);
                let kept = retain_other_masks(entries, mask);
                self.mode_lists.insert(i, (c, kept));
                assert(list_views(self.mode_lists@) =~= lists.update(i as int, (mode, without_mask(lists[i as int].1, mask@))));
            }
            if mode == 'b' {
                let mut bans: Vec<BanEntry> = Vec::new();
                std::mem::swap(&mut bans, &mut self.bans);
                self.bans = retain_other_masks(bans, mask);
            }
        }
    }

    /// Append a message unless one with the same IRCv3 msgid is already
    /// present, then trim the scrollback to at most `max` messages (0: no
    /// limit), dropping the oldest.
    pub fn push_trimmed(&mut self, msg: ChatMessage, max: usize)
        ensures
            final(self)@ == (ChannelView {
                messages: pushed_trimmed(old(self)@.messages, msg, max as nat),
                ..old(self)@
            }),
            old(self).wf() ==> final(self).wf(),
    {
        let ghost s = self.messages@;
        let dup = match msg.msgid.as_ref() {
            Some(id) => contains_msgid(&self.messages, id),
            None => false,
        };
        if dup {
            return;
        }
        let ghost t = s.push(msg);
        self.messages.push_back(msg);
        assert(t.skip(0) =~= t);
        if max > 0 {
            while self.messages.len() > max
                invariant
                    max > 0,
                    t.len() >= self.messages@.len(),
                    self.messages@ == t.skip(t.len() - self.messages@.len()),
                    t.len() > max ==> self.messages@.len() >= max,
                    t.len() <= max ==> self.messages@.len() == t.len(),
                    self@ == (ChannelView { messages: self@.messages, ..old(self)@ }),
                decreases self.messages.len(),
            {
                let ghost before = self.messages@;
                self.messages.pop_front();
                assert(self.messages@ =~= t.skip(t.len() - self.messages@.len()));
            }
        }
    }

    /// Remove the message(s) with IRCv3 id `msgid`; returns whether any was
    /// removed.
    pub fn redact_message(&mut self, msgid: &str) -> (removed: bool)
        ensures
            final(self)@ == (ChannelView { messages: without_msgid(old(self)@.messages, msgid@), ..old(self)@ }),
            removed == (without_msgid(old(self)@.messages, msgid@).len() != old(self)@.messages.len()),
            old(self).wf() ==> final(self).wf(),
    {
        let previous_len = self.messages.len();
        let ghost s = self.messages@;
        let target = to_string(msgid);
        let mut kept: std::collections::VecDeque<ChatMessage> = std::collections::VecDeque::new();
        let mut taken: usize = 0;
        while self.messages.len() > 0
            invariant
                taken + self.messages@.len() == s.len(),
                s.len() == previous_len,
                target@ == msgid@,
                self@ == (ChannelView { messages: self@.messages, ..old(self)@ }),
                self.messages@ == s.skip(taken as int),
                kept@ == without_msgid(s.take(taken as int), msgid@),
            decreases self.messages.len(),
        {
            let m = self.messages.pop_front().unwrap();
            proof {
                assert(m == s[taken as int]);
                assert(s.take(taken as int + 1).drop_last() =~= s.take(taken as int));
                assert(self.messages@ =~= s.skip(taken as int + 1));
            }
            let hit = match &m.msgid {
                Some(id) => *id == target,
                None => false,
            };
            if !hit {
                kept.push_back(m);
            }
            taken += 1;
        }
        assert(s.take(s.len() as int) =~= s);
        self.messages = kept;
        self.messages.len() != previous_len
    }
}

/// Whether `m` is the local copy of our echoed message `echoed`: a plain
/// row that carries no server identity yet, from the same sender (ASCII
/// case-insensitively), with the same text and kind.
pub open spec fn echo_candidate(m: ChatMessage, echoed: ChatMessage) -> bool {
    &&& !m.is_system
    &&& m.msgid is None
    &&& m.server_time is None
    &&& eq_ignore_ascii_case(m.sender@, echoed.sender@)
    &&& m.content@ == echoed.content@
    &&& m.is_action == echoed.is_action
}

/// The newest candidate row at or below `i` among the last 32 messages.
pub open spec fn echo_row(msgs: Seq<ChatMessage>, echoed: ChatMessage, i: int) -> Option<int>
    decreases i + 1,
{
    if i < 0 || i < msgs.len() - 32 {
        None
    } else if echo_candidate(msgs[i], echoed) {
        Some(i)
    } else {
        echo_row(msgs, echoed, i - 1)
    }
}

/// `m` carrying the server's timestamp and identity from `echoed`.
pub open spec fn with_server_identity(m: ChatMessage, echoed: ChatMessage) -> ChatMessage {
    ChatMessage {
        timestamp: echoed.timestamp,
        server_time: echoed.server_time,
        msgid: echoed.msgid,
        account: echoed.account,
        oper: echoed.oper,
        reply_to: echoed.reply_to,
        ..m
    }
}

impl Channel {
    /// Reconcile an `echo-message` response with the optimistic local row:
    /// when echoes are enabled and `echoed` is our own non-system message,
    /// the newest matching row among the last 32 takes the server's
    /// timestamp, msgid, account, oper and reply reference, so one row
    /// carries the identity REDACT, history cursors and MARKREAD need.
    /// Returns whether a row was updated.
    pub fn merge_server_echo(&mut self, support: &NetworkSupport, echo_enabled: bool, my_nick: &str,
        echoed: &ChatMessage) -> (merged: bool)
        ensures
            ({
                let ours = echo_enabled && !echoed.is_system
                    && spec_network_canonicalize(support.case_mapping, support.channel_types@, echoed.sender@)
                        == spec_network_canonicalize(support.case_mapping, support.channel_types@, my_nick@);
                let msgs = old(self)@.messages;
                match echo_row(msgs, *echoed, msgs.len() - 1) {
                    Some(i) if ours => merged && final(self)@ == (ChannelView {
                        messages: msgs.update(i, with_server_identity(msgs[i], *echoed)),
                        ..old(self)@
                    }),
                    _ => !merged && final(self)@ == old(self)@,
                }
            }),
            old(self).wf() ==> final(self).wf(),
    {
        if !echo_enabled || echoed.is_system || !support.identifiers_equal(echoed.sender.as_str(), my_nick) {
            return false;
        }
        let ghost msgs = self.messages@;
        let n = self.messages.len();
        let lo: usize = if n > 32 { n - 32 } else { 0 };
        let sender = chars_of(echoed.sender.as_str());
        let mut i: usize = n;
        while i > lo
            invariant
                lo <= i <= n,
                n == msgs.len(),
                lo == (if n > 32 { n - 32 } else { 0 }),
                self.messages@ == msgs,
                sender@ == echoed.sender@,
                echo_row(msgs, *echoed, n - 1) == echo_row(msgs, *echoed, i - 1),
            ensures
                lo <= i <= n,
                self.messages@ == msgs,
                echo_row(msgs, *echoed, n - 1) == echo_row(msgs, *echoed, i - 1),
                i > lo ==> echo_candidate(msgs[i - 1], *echoed),
            decreases i,
        {
            let m = &self.messages[i - 1];
            let ms = chars_of(m.sender.as_str());
            let hit = !m.is_system && m.msgid.is_none() && m.server_time.is_none()
                && range_eq_ignore_ascii_case(&ms, 0, ms.len(), &sender) && m.content == echoed.content
                && m.is_action == echoed.is_action;
            proof {
                assert(ms@.subrange(0, ms@.len() as int) =~= ms@);
                assert(*m == msgs[i - 1]);
            }
            if hit {
                break;
            }
            i -= 1;
        }
        if i == lo {
            return false;
        }
        let idx = i - 1;
        let mut m = self.messages.remove(idx).unwrap();
        m.timestamp = echoed.timestamp.clone();
        m.server_time = clone_opt(&echoed.server_time);
        m.msgid = clone_opt(&echoed.msgid);
        m.account = clone_opt(&echoed.account);
        m.oper = clone_opt(&echoed.oper);
        m.reply_to = clone_opt(&echoed.reply_to);
        self.messages.insert(idx, m);
        assert(self.messages@ =~= msgs.update(idx as int, with_server_identity(msgs[idx as int], *echoed)));
        true
    }
}

impl Channel {
    /// Deliver a message to this window: a message whose IRCv3 id the
    /// window already holds is dropped (returns `false`); otherwise it is
    /// appended (scrollback trimmed to `max`) and, when the window is not
    /// the one shown, counted as unread.
    pub fn deliver_message(&mut self, msg: ChatMessage, max: usize, is_current: bool) -> (added: bool)
        requires
            old(self)@.unread < usize::MAX,
        ensures
            ({
                let dup = match msg.msgid {
                    Some(id) => has_msgid(old(self)@.messages, id@),
                    None => false,
                };
                &&& added == !dup
                &&& dup ==> final(self)@ == old(self)@
                &&& !dup ==> final(self)@ == (ChannelView {
                    messages: pushed_trimmed(old(self)@.messages, msg, max as nat),
                    unread: if is_current { old(self)@.unread } else { (old(self)@.unread + 1) as usize },
                    ..old(self)@
                })
            }),
            old(self).wf() ==> final(self).wf(),
    {
        let dup = match msg.msgid.as_ref() {
            Some(id) => contains_msgid(&self.messages, id),
            None => false,
        };
        if dup {
            return false;
        }
        self.push_trimmed(msg, max);
        if !is_current {
            self.unread = self.unread + 1;
        }
        true
    }
}

impl Channel {
    /// The first member who is `nick`, for in-place changes.
    pub fn get_user_mut(&mut self, nick: &str) -> (r: Option<&mut ChannelUser>)
        ensures
            match find_member(old(self)@.case_mapping, old(self)@.users, nick@) {
                Some(i) => r matches Some(u) && (*u)@ == old(self)@.users[i]
                    && final(self)@ == (ChannelView { users: old(self)@.users.update(i, (*final(u))@), ..old(self)@ }),
                None => r is None && final(self)@ == old(self)@,
            },
    {
        let m = self.case_mapping;
        let found = find_member_exec(m, &self.users, nick);
        proof {
            lemma_find_member_from(m, self@.users, nick@, 0);
        }
        match found {
            Some(i) => {
                proof {
                    lemma_views_update_any(self.users@, i as int);
                }
                Some(&mut self.users[i])
            },
            None => None,
        }
    }
}

proof fn lemma_views_update_any(s: Seq<ChannelUser>, i: int)
    requires
        0 <= i < s.len(),
    ensures
        forall|u: ChannelUser| #[trigger] user_views(s.update(i, u)) == user_views(s).update(i, u@),
{
    assert forall|u: ChannelUser| #[trigger] user_views(s.update(i, u)) == user_views(s).update(i, u@) by {
        assert(user_views(s.update(i, u)) =~= user_views(s).update(i, u@));
    }
}

} // verus!
