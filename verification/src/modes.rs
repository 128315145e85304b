//! Channel MODE changes: which parameter each mode letter takes, as the
//! server's ISUPPORT describes it, and their effect on a channel.

use vstd::prelude::*;

use crate::channel::{
    UserView, flag_modes, letter_gained, letter_lost, mode_change, params_without, pushed_trimmed, rebuilt_params, sorted_perm,
    Channel, ChannelView,
};
use crate::message::{fresh_message, ChatMessage};
use crate::network::NetworkSupport;
use crate::text::{chars_of, contains_char, has_char, push_str, to_string, views};

verus! {

/// One effect of a channel MODE change.
#[derive(Debug, Clone)]
pub enum ModeEffect {
    /// A membership (PREFIX) mode given to (`add`) or taken from a member.
    Member { add: bool, letter: char, nick: String },
    /// A channel mode with a parameter slot (CHANMODES types B and C).
    Parameter { sign: char, mode: char, parameter: Option<String> },
    /// A channel mode that never takes a parameter (type D, or unknown).
    Flag { sign: char, mode: char },
}

/// A mode effect as the contracts see it.
pub enum EffectView {
    Member(bool, char, Seq<char>),
    Parameter(char, char, Option<Seq<char>>),
    Flag(char, char),
}

pub open spec fn effect_view(e: ModeEffect) -> EffectView {
    match e {
        ModeEffect::Member { add, letter, nick } => EffectView::Member(add, letter, nick@),
        ModeEffect::Parameter { sign, mode, parameter } => EffectView::Parameter(sign, mode, match parameter {
            Some(p) => Some(p@),
            None => None,
        }),
        ModeEffect::Flag { sign, mode } => EffectView::Flag(sign, mode),
    }
}

pub open spec fn effect_views(s: Seq<ModeEffect>) -> Seq<EffectView> {
    s.map_values(|e: ModeEffect| effect_view(e))
}

/// The mode letters that decide parameter use: PREFIX letters (always a
/// nick), and CHANMODES types A (a parameter either way), B (a parameter
/// either way) and C (a parameter only when set).
pub struct ModeClasses {
    pub prefix: Seq<char>,
    pub list: Seq<char>,
    pub always: Seq<char>,
    pub when_set: Seq<char>,
}

pub open spec fn mode_classes(support: NetworkSupport) -> ModeClasses {
    ModeClasses {
        prefix: support.prefix_modes@,
        list: support.chanmodes_a@,
        always: support.chanmodes_b@,
        when_set: support.chanmodes_c@,
    }
}

/// A membership effect (constructed through a function so that recursive
/// definitions over effects unfold).
pub open spec fn member_effect(add: bool, letter: char, nick: Seq<char>) -> EffectView {
    EffectView::Member(add, letter, nick)
}

/// A parameter-slot effect.
pub open spec fn parameter_effect(sign: char, mode: char, parameter: Option<Seq<char>>) -> EffectView {
    EffectView::Parameter(sign, mode, parameter)
}

/// A flag effect.
pub open spec fn flag_effect(sign: char, mode: char) -> EffectView {
    EffectView::Flag(sign, mode)
}

/// Whether a mode sign adds.
pub open spec fn is_plus(sign: char) -> bool {
    sign == '+'
}

/// The parameter at `idx`, if there is one.
pub open spec fn param_at(params: Seq<Seq<char>>, idx: int) -> Option<Seq<char>> {
    if 0 <= idx < params.len() { Some(params[idx]) } else { None }
}

/// The next parameter index after one is asked for at `idx`.
pub open spec fn after_param(params: Seq<Seq<char>>, idx: int) -> int {
    if 0 <= idx < params.len() { idx + 1 } else { idx }
}

/// The effects of `mode[i..]` under the current `sign`, parameters being
/// taken from `idx` on. `+` and `-` set the sign; a PREFIX letter takes a
/// nick (no effect without one); a list mode only takes its parameter; a
/// type B mode takes one either way, a type C mode only when set; any other
/// letter is a flag.
pub open spec fn effects_from(k: ModeClasses, mode: Seq<char>, params: Seq<Seq<char>>, i: int, sign: char, idx: int)
    -> Seq<EffectView>
    decreases mode.len() - i,
{
    if i < 0 || i >= mode.len() {
        Seq::empty()
    } else {
        let c = mode[i];
        if c == '+' || c == '-' {
            effects_from(k, mode, params, i + 1, c, idx)
        } else if has_char(k.prefix, c) {
            if 0 <= idx < params.len() {
                seq![member_effect(is_plus(sign), c, params[idx])] + effects_from(k, mode, params, i + 1, sign, idx + 1)
            } else {
                effects_from(k, mode, params, i + 1, sign, idx)
            }
        } else if has_char(k.list, c) {
            effects_from(k, mode, params, i + 1, sign, after_param(params, idx))
        } else if has_char(k.always, c) || (has_char(k.when_set, c) && sign == '+') {
            seq![parameter_effect(sign, c, param_at(params, idx))]
                + effects_from(k, mode, params, i + 1, sign, after_param(params, idx))
        } else if has_char(k.when_set, c) {
            seq![parameter_effect(sign, c, None)] + effects_from(k, mode, params, i + 1, sign, idx)
        } else {
            seq![flag_effect(sign, c)] + effects_from(k, mode, params, i + 1, sign, idx)
        }
    }
}

/// The effects of a channel MODE change `mode` with `params`.
pub open spec fn spec_mode_effects(support: NetworkSupport, mode: Seq<char>, params: Seq<Seq<char>>) -> Seq<EffectView> {
    effects_from(mode_classes(support), mode, params, 0, '+', 0)
}

proof fn lemma_step_sign(k: ModeClasses, mode: Seq<char>, params: Seq<Seq<char>>, i: int, sign: char, idx: int)
    requires
        0 <= i < mode.len(),
        mode[i] == '+' || mode[i] == '-',
    ensures
        effects_from(k, mode, params, i, sign, idx) == effects_from(k, mode, params, i + 1, mode[i], idx),
{
}

proof fn lemma_step_member(k: ModeClasses, mode: Seq<char>, params: Seq<Seq<char>>, i: int, sign: char, idx: int)
    requires
        0 <= i < mode.len(),
        mode[i] != '+' && mode[i] != '-',
        has_char(k.prefix, mode[i]),
    ensures
        0 <= idx < params.len() ==> effects_from(k, mode, params, i, sign, idx)
            == seq![member_effect(is_plus(sign), mode[i], params[idx])] + effects_from(k, mode, params, i + 1, sign, idx + 1),
        !(0 <= idx < params.len()) ==> effects_from(k, mode, params, i, sign, idx)
            == effects_from(k, mode, params, i + 1, sign, idx),
{
}

proof fn lemma_step_list(k: ModeClasses, mode: Seq<char>, params: Seq<Seq<char>>, i: int, sign: char, idx: int)
    requires
        0 <= i < mode.len(),
        mode[i] != '+' && mode[i] != '-',
        !has_char(k.prefix, mode[i]),
        has_char(k.list, mode[i]),
    ensures
        effects_from(k, mode, params, i, sign, idx) == effects_from(k, mode, params, i + 1, sign, after_param(params, idx)),
{
}

proof fn lemma_step_parameter(k: ModeClasses, mode: Seq<char>, params: Seq<Seq<char>>, i: int, sign: char, idx: int)
    requires
        0 <= i < mode.len(),
        mode[i] != '+' && mode[i] != '-',
        !has_char(k.prefix, mode[i]),
        !has_char(k.list, mode[i]),
        has_char(k.always, mode[i]) || (has_char(k.when_set, mode[i]) && sign == '+'),
    ensures
        effects_from(k, mode, params, i, sign, idx) == seq![parameter_effect(sign, mode[i], param_at(params, idx))]
            + effects_from(k, mode, params, i + 1, sign, after_param(params, idx)),
{
}

proof fn lemma_step_unset(k: ModeClasses, mode: Seq<char>, params: Seq<Seq<char>>, i: int, sign: char, idx: int)
    requires
        0 <= i < mode.len(),
        mode[i] != '+' && mode[i] != '-',
        !has_char(k.prefix, mode[i]),
        !has_char(k.list, mode[i]),
        !(has_char(k.always, mode[i]) || (has_char(k.when_set, mode[i]) && sign == '+')),
        has_char(k.when_set, mode[i]),
    ensures
        effects_from(k, mode, params, i, sign, idx) == seq![parameter_effect(sign, mode[i], None)]
            + effects_from(k, mode, params, i + 1, sign, idx),
{
}

proof fn lemma_step_flag(k: ModeClasses, mode: Seq<char>, params: Seq<Seq<char>>, i: int, sign: char, idx: int)
    requires
        0 <= i < mode.len(),
        mode[i] != '+' && mode[i] != '-',
        !has_char(k.prefix, mode[i]),
        !has_char(k.list, mode[i]),
        !has_char(k.always, mode[i]),
        !has_char(k.when_set, mode[i]),
    ensures
        effects_from(k, mode, params, i, sign, idx) == seq![flag_effect(sign, mode[i])]
            + effects_from(k, mode, params, i + 1, sign, idx),
{
}

proof fn lemma_push_concat<A>(a: Seq<A>, x: A, b: Seq<A>)
    ensures
        a.push(x) + b == a + (seq![x] + b),
{
    assert(a.push(x) + b =~= a + (seq![x] + b));
}

fn push_effect(out: &mut Vec<ModeEffect>, e: ModeEffect)
    ensures
        effect_views(final(out)@) == effect_views(old(out)@).push(effect_view(e)),
{
    let ghost before = out@;
    out.push(e);
    assert(effect_views(out@) =~= effect_views(before).push(effect_view(e)));
}

/// The effects of a channel MODE change, each mode letter taking its
/// parameter as the server's PREFIX and CHANMODES say.
pub fn mode_effects(support: &NetworkSupport, mode: &str, params: &[String]) -> (r: Vec<ModeEffect>)
    ensures
        effect_views(r@) == spec_mode_effects(*support, mode@, views(params@)),
{
    let ghost k = mode_classes(*support);
    let ghost ps = views(params@);
    let m = chars_of(mode);
    let prefix = chars_of(support.prefix_modes.as_str());
    let list = chars_of(support.chanmodes_a.as_str());
    let always = chars_of(support.chanmodes_b.as_str());
    let when_set = chars_of(support.chanmodes_c.as_str());
    let mut out: Vec<ModeEffect> = Vec::new();
    let mut i: usize = 0;
    let mut sign: char = '+';
    let mut idx: usize = 0;
    while i < m.len()
        invariant
            i <= m.len(),
            idx <= params.len(),
            m@ == mode@,
            ps == views(params@),
            ps.len() == params@.len(),
            k == mode_classes(*support),
            prefix@ == k.prefix && list@ == k.list && always@ == k.always && when_set@ == k.when_set,
            effect_views(out@) + effects_from(k, m@, ps, i as int, sign, idx as int)
                == effects_from(k, m@, ps, 0, '+', 0),
        decreases m.len() - i,
    {
        let c = m[i];
        let ghost before = effect_views(out@);
        if c == '+' || c == '-' {
            proof {
                lemma_step_sign(k, m@, ps, i as int, sign, idx as int);
            }
            sign = c;
        } else if contains_char(&prefix, c) {
            proof {
                lemma_step_member(k, m@, ps, i as int, sign, idx as int);
            }
            if idx < params.len() {
                push_effect(&mut out, ModeEffect::Member { add: sign == '+', letter: c, nick: params[idx].clone() });
                proof {
                    assert(ps[idx as int] == params@[idx as int]@);
                    lemma_push_concat(before, member_effect(is_plus(sign), c, ps[idx as int]),
                        effects_from(k, m@, ps, i + 1, sign, idx + 1));
                }
                idx += 1;
                }
        } else if contains_char(&list, c) {
            proof {
                lemma_step_list(k, m@, ps, i as int, sign, idx as int);
            }
            if idx < params.len() {
                idx += 1;
            }
        } else if contains_char(&always, c) || (contains_char(&when_set, c) && sign == '+') {
            let parameter = if idx < params.len() { Some(params[idx].clone()) } else { None };
            let ghost p = param_at(ps, idx as int);
            proof {
                lemma_step_parameter(k, m@, ps, i as int, sign, idx as int);
                if idx < params.len() {
                    assert(ps[idx as int] == params@[idx as int]@);
                }
            }
            push_effect(&mut out, ModeEffect::Parameter { sign, mode: c, parameter });
            proof {
                lemma_push_concat(before, parameter_effect(sign, c, p),
                    effects_from(k, m@, ps, i + 1, sign, after_param(ps, idx as int)));
            }
            if idx < params.len() {
                idx += 1;
            }
        } else if contains_char(&when_set, c) {
            proof {
                lemma_step_unset(k, m@, ps, i as int, sign, idx as int);
            }
            push_effect(&mut out, ModeEffect::Parameter { sign, mode: c, parameter: None });
            proof {
                lemma_push_concat(before, parameter_effect(sign, c, None),
                    effects_from(k, m@, ps, i + 1, sign, idx as int));
            }
        } else {
            proof {
                lemma_step_flag(k, m@, ps, i as int, sign, idx as int);
            }
            push_effect(&mut out, ModeEffect::Flag { sign, mode: c });
            proof {
                lemma_push_concat(before, flag_effect(sign, c), effects_from(k, m@, ps, i + 1, sign, idx as int));
            }
        }
        i += 1;
    }
    proof {
        assert(effects_from(k, m@, ps, i as int, sign, idx as int) =~= Seq::<EffectView>::empty());
        assert(effect_views(out@) + Seq::<EffectView>::empty() =~= effect_views(out@));
    }
    out
}

/// One effect applied to a channel, as the channel's own operations do it:
/// a membership letter through `add_user_status_mode` /
/// `remove_user_status_mode`, a parameter mode through
/// `apply_channel_mode`, a flag through `apply_channel_mode_flag`.
pub open spec fn effect_step(before: ChannelView, e: EffectView, after: ChannelView) -> bool {
    match e {
        EffectView::Member(add, letter, nick) => {
            let m = before.case_mapping;
            let changed = |s: Seq<UserView>| if add {
                letter_gained(m, s, nick, letter, before.prefix_modes, before.prefix_symbols)
            } else {
                letter_lost(m, s, nick, letter, before.prefix_modes, before.prefix_symbols)
            };
            &&& sorted_perm(m, after.users, changed(before.users))
            &&& after == (ChannelView {
                users: after.users,
                names_snapshot: match before.names_snapshot {
                    Some(s) => Some(changed(s)),
                    None => None,
                },
                ..before
            })
        },
        EffectView::Parameter(sign, mode, parameter) => {
            let st = mode_change(before.modes, before.mode_parameters, sign, mode, parameter);
            after == (ChannelView { modes: st.0, mode_parameters: st.1, mode_params: rebuilt_params(st.0, st.1), ..before })
        },
        EffectView::Flag(sign, mode) => {
            let p = if sign == '-' { params_without(before.mode_parameters, mode) } else { before.mode_parameters };
            after == (ChannelView {
                modes: flag_modes(before.modes, sign, mode),
                mode_parameters: p,
                mode_params: rebuilt_params(flag_modes(before.modes, sign, mode), p),
                ..before
            })
        },
    }
}

/// `states` walks from `before` to `after`, one effect at a time.
pub open spec fn applied_through(before: ChannelView, effs: Seq<EffectView>, after: ChannelView,
    states: Seq<ChannelView>) -> bool {
    &&& states.len() == effs.len() + 1
    &&& states[0] == before
    &&& states[effs.len() as int] == after
    &&& forall|j: int| 0 <= j < effs.len() ==> effect_step(states[j], #[trigger] effs[j], states[j + 1])
}

/// `after` is `before` with `effs` applied in order.
pub open spec fn effects_applied(before: ChannelView, effs: Seq<EffectView>, after: ChannelView) -> bool {
    exists|states: Seq<ChannelView>| applied_through(before, effs, after, states)
}

/// Parameters joined by single spaces.
pub open spec fn joined(ps: Seq<Seq<char>>) -> Seq<char>
    decreases ps.len(),
{
    if ps.len() == 0 {
        Seq::empty()
    } else if ps.len() == 1 {
        ps[0]
    } else {
        joined(ps.drop_last()) + seq![' '] + ps.last()
    }
}

/// The note for a mode change: `<sender> set mode <mode>`, followed by the
/// parameters when there are any.
pub open spec fn mode_note(sender: Seq<char>, mode: Seq<char>, params: Seq<Seq<char>>) -> Seq<char> {
    sender + " set mode "@ + mode + if params.len() == 0 { Seq::empty() } else { seq![' '] + joined(params) }
}

pub(crate) fn push_joined(out: &mut String, params: &[String])
    ensures
        final(out)@ == old(out)@ + joined(views(params@)),
{
    let ghost ps = views(params@);
    let mut i: usize = 0;
    while i < params.len()
        invariant
            i <= params.len(),
            ps == views(params@),
            out@ == old(out)@ + joined(ps.take(i as int)),
        decreases params.len() - i,
    {
        let ghost before = out@;
        if i > 0 {
            push_str(out, " ");
            proof { reveal_strlit(" "); }
        }
        push_str(out, params[i].as_str());
        proof {
            let t = ps.take(i as int + 1);
            assert(t.drop_last() =~= ps.take(i as int));
            assert(t.last() == params@[i as int]@);
            if i == 0 {
                assert(joined(t) == t[0]);
                assert(joined(ps.take(0)) =~= Seq::<char>::empty());
                assert(out@ =~= old(out)@ + joined(t));
            } else {
                assert(out@ =~= old(out)@ + joined(t));
            }
        }
        i += 1;
    }
    assert(ps.take(i as int) =~= ps);
}

/// The line noting a MODE change (see `mode_note`).
pub fn mode_note_text(sender: &str, mode: &str, params: &[String]) -> (r: String)
    ensures
        r@ == mode_note(sender@, mode@, views(params@)),
{
    let mut text = to_string(sender);
    push_str(&mut text, " set mode ");
    push_str(&mut text, mode);
    if params.len() > 0 {
        push_str(&mut text, " ");
        push_joined(&mut text, params);
    }
    proof {
        reveal_strlit(" ");
        assert(text@ =~= mode_note(sender@, mode@, views(params@)));
    }
    text
}

impl Channel {
    /// Apply the effects of a channel MODE change: each mode letter takes
    /// its parameter as the server's PREFIX and CHANMODES say (see
    /// `spec_mode_effects`), and the effects are applied in order.
    pub fn apply_mode_effects(&mut self, support: &NetworkSupport, mode: &str, params: &[String])
        ensures
            effects_applied(old(self)@, spec_mode_effects(*support, mode@, views(params@)), final(self)@),
            old(self).wf() ==> final(self).wf(),
    {
        let effects = mode_effects(support, mode, params);
        let ghost effs = effect_views(effects@);
        let ghost mut states: Seq<ChannelView> = seq![self@];
        let mut i: usize = 0;
        while i < effects.len()
            invariant
                i <= effects.len(),
                effs == effect_views(effects@),
                effs.len() == effects.len(),
                applied_through(old(self)@, effs.take(i as int), self@, states),
                old(self).wf() ==> self.wf(),
            decreases effects.len() - i,
        {
            let ghost mid = self@;
            match &effects[i] {
                ModeEffect::Member { add, letter, nick } => {
                    if *add {
                        self.add_user_status_mode(nick.as_str(), *letter);
                    } else {
                        self.remove_user_status_mode(nick.as_str(), *letter);
                    }
                },
                ModeEffect::Parameter { sign, mode, parameter } => {
                    let p = match parameter {
                        Some(v) => Some(v.as_str()),
                        None => None,
                    };
                    self.apply_channel_mode(*sign, *mode, p);
                },
                ModeEffect::Flag { sign, mode } => {
                    self.apply_channel_mode_flag(*sign, *mode);
                },
            }
            proof {
                assert(effs[i as int] == effect_view(effects@[i as int]));
                assert(effect_step(mid, effs[i as int], self@));
                let prev = states;
                states = states.push(self@);
                let t = effs.take(i as int + 1);
                assert forall|j: int| 0 <= j < t.len() implies effect_step(states[j], #[trigger] t[j], states[j + 1]) by {
                    if j < i {
                        assert(t[j] == effs.take(i as int)[j]);
                        assert(states[j] == prev[j] && states[j + 1] == prev[j + 1]);
                    } else {
                        assert(t[j] == effs[i as int]);
                        assert(states[j] == mid);
                    }
                }
            }
            i += 1;
        }
        proof {
            assert(effs.take(i as int) =~= effs);
            assert(applied_through(old(self)@, effs, self@, states));
        }
    }

    /// Apply a channel MODE change from `sender` (see `apply_mode_effects`)
    /// and note it in the scrollback (trimmed to `max` lines).
    pub fn apply_mode_message(&mut self, support: &NetworkSupport, sender: &str, mode: &str, params: &[String],
        max: usize, format: &str, utc_offset_secs: i64)
        ensures
            exists|mid: ChannelView, note: ChatMessage| {
                &&& effects_applied(old(self)@, spec_mode_effects(*support, mode@, views(params@)), mid)
                &&& fresh_message(note, seq!['*'], mode_note(sender@, mode@, views(params@)), false, true, false,
                    format@, utc_offset_secs as int)
                &&& final(self)@ == (ChannelView { messages: pushed_trimmed(mid.messages, note, max as nat), ..mid })
            },
            old(self).wf() ==> final(self).wf(),
    {
        self.apply_mode_effects(support, mode, params);
        let ghost applied = self@;
        let text = mode_note_text(sender, mode, params);
        let note = ChatMessage::system_fmt(text.as_str(), format, utc_offset_secs);
        let ghost nv = note;
        self.push_trimmed(note, max);
        assert(effects_applied(old(self)@, spec_mode_effects(*support, mode@, views(params@)), applied));
    }
}

} // verus!
