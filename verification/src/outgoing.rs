//! How outgoing text is sent: line endings normalised, each logical line
//! cut to fit IRC lines, or the whole text sent as one IRCv3
//! `draft/multiline` batch when the server supports it.

use vstd::prelude::*;

use crate::commands::{split_char, split_on};
use crate::session::{chunk_text, lemma_payload_chunks, payload_chunks, spec_split_irc_text_payload, split_irc_text_payload, utf8_len_capped, utf8_len_seq};
use crate::text::{chars_of, contains_char, has_char, push_char, push_str, to_string, views};

verus! {

/// `s` with CRLF and lone CR line endings turned into LF.
pub open spec fn newline_normalized(s: Seq<char>) -> Seq<char>
    decreases s.len(),
{
    if s.len() == 0 {
        s
    } else if s[0] == '\r' {
        if s.len() > 1 && s[1] == '\n' {
            seq!['\n'] + newline_normalized(s.skip(2))
        } else {
            seq!['\n'] + newline_normalized(s.skip(1))
        }
    } else {
        seq![s[0]] + newline_normalized(s.skip(1))
    }
}

/// The IRC payloads of the logical lines `lines[..n]`, each split to fit
/// (`None` if some line cannot be).
pub open spec fn line_payloads(command: Seq<char>, target: Seq<char>, lines: Seq<Seq<char>>, prefix: Seq<char>,
    suffix: Seq<char>, n: int) -> Option<Seq<Seq<char>>>
    decreases n,
{
    if n <= 0 || n > lines.len() {
        Some(Seq::empty())
    } else {
        match (line_payloads(command, target, lines, prefix, suffix, n - 1),
            spec_split_irc_text_payload(command, target, lines[n - 1], prefix, suffix)) {
            (Some(a), Some(b)) => Some(a + b),
            _ => None,
        }
    }
}

/// Pieces of one logical line, each after the first continuing it
/// (`draft/multiline-concat`).
pub open spec fn continued(cs: Seq<Seq<char>>) -> Seq<(Seq<char>, bool)> {
    Seq::new(cs.len(), |j: int| (cs[j], j > 0))
}

/// The batch lines for the logical lines `lines[..n]`: an empty line stays
/// one empty line, any other is cut into pieces of at most `max` bytes.
pub open spec fn batch_lines(lines: Seq<Seq<char>>, n: int, max: nat) -> Option<Seq<(Seq<char>, bool)>>
    decreases n,
{
    if n <= 0 || n > lines.len() {
        Some(Seq::empty())
    } else {
        let piece = if lines[n - 1].len() == 0 {
            Some(seq![(Seq::<char>::empty(), false)])
        } else {
            match payload_chunks(lines[n - 1], max) {
                Some(cs) => Some(continued(cs)),
                None => None,
            }
        };
        match (batch_lines(lines, n - 1, max), piece) {
            (Some(a), Some(b)) => Some(a + b),
            _ => None,
        }
    }
}

/// How a text goes out.
#[derive(Debug, Clone, PartialEq, Eq)]
pub enum TextPlan {
    /// One PRIVMSG/NOTICE per payload.
    Lines(Vec<String>),
    /// One `draft/multiline` batch: each line with whether it continues the
    /// line before it.
    Batch(Vec<(String, bool)>),
}

/// Why a text cannot go out.
#[derive(Debug, Clone, Copy, PartialEq, Eq, Structural)]
pub enum TextPlanError {
    /// The command and target leave no room for text in an IRC line.
    NoRoomForText,
    /// The batch framing leaves no room for text, or a character does not
    /// fit a batch line.
    BatchUnsendable,
}

/// A plan as the contracts see it.
pub enum PlanView {
    Lines(Seq<Seq<char>>),
    Batch(Seq<(Seq<char>, bool)>),
}

pub open spec fn plan_view(p: TextPlan) -> PlanView {
    match p {
        TextPlan::Lines(v) => PlanView::Lines(views(v@)),
        TextPlan::Batch(v) => PlanView::Batch(v@.map_values(|e: (String, bool)| (e.0@, e.1))),
    }
}

/// The batch framing around one line: `@batch=<id>;draft/multiline-concat
/// <command> <target> :`.
pub open spec fn batch_overhead(batch_id: Seq<char>, command: Seq<char>, target: Seq<char>) -> nat {
    utf8_len_seq("@batch="@ + batch_id + ";draft/multiline-concat "@ + command + " "@ + target + " :"@)
}

/// How `text` goes out as `command` to `target`, wrapped in `prefix` and
/// `suffix`: every logical line is split into payloads; when multiline is
/// enabled and the text spans several lines (or several payloads) and
/// fits the server's byte limit, it goes as one batch, unless the batch
/// would exceed the server's line limit, in which case the payloads go one
/// by one.
pub open spec fn spec_plan_text(command: Seq<char>, target: Seq<char>, text: Seq<char>, prefix: Seq<char>,
    suffix: Seq<char>, multiline: bool, max_bytes: Option<usize>, max_lines: Option<usize>, batch_id: Seq<char>)
    -> Result<PlanView, TextPlanError> {
    let norm = newline_normalized(text);
    let logical = split_on(norm, '\n');
    match line_payloads(command, target, logical, prefix, suffix, logical.len() as int) {
        None => Err(TextPlanError::NoRoomForText),
        Some(chunks) => {
            let full = prefix + norm + suffix;
            let use_batch = multiline && (has_char(norm, '\n') || chunks.len() > 1) && match max_bytes {
                Some(m) => utf8_len_seq(full) <= m,
                None => true,
            };
            if !use_batch {
                Ok(PlanView::Lines(chunks))
            } else if batch_overhead(batch_id, command, target) >= 510 {
                Err(TextPlanError::BatchUnsendable)
            } else {
                let parts = split_on(full, '\n');
                match batch_lines(parts, parts.len() as int, (510 - batch_overhead(batch_id, command, target)) as nat) {
                    None => Err(TextPlanError::BatchUnsendable),
                    Some(ls) => if (match max_lines {
                        Some(m) => ls.len() > m,
                        None => false,
                    }) {
                        Ok(PlanView::Lines(chunks))
                    } else {
                        Ok(PlanView::Batch(ls))
                    },
                }
            }
        },
    }
}

proof fn lemma_normalized_step(s: Seq<char>, i: int)
    requires
        0 <= i < s.len(),
    ensures
        s[i] == '\r' && i + 1 < s.len() && s[i + 1] == '\n'
            ==> newline_normalized(s.skip(i)) == seq!['\n'] + newline_normalized(s.skip(i + 2)),
        s[i] == '\r' && !(i + 1 < s.len() && s[i + 1] == '\n')
            ==> newline_normalized(s.skip(i)) == seq!['\n'] + newline_normalized(s.skip(i + 1)),
        s[i] != '\r' ==> newline_normalized(s.skip(i)) == seq![s[i]] + newline_normalized(s.skip(i + 1)),
{
    let t = s.skip(i);
    assert(t[0] == s[i]);
    if t.len() > 1 {
        assert(t[1] == s[i + 1]);
    }
    assert(t.skip(1) =~= s.skip(i + 1));
    if i + 2 <= s.len() {
        assert(t.skip(2) =~= s.skip(i + 2));
    }
}

/// `text` with CRLF and lone CR turned into LF.
pub fn normalize_newlines(text: &str) -> (r: String)
    ensures
        r@ == newline_normalized(text@),
{
    let v = chars_of(text);
    let mut out = String::new();
    let mut i: usize = 0;
    assert(v@.skip(0) =~= v@);
    assert(Seq::<char>::empty() + newline_normalized(v@) =~= newline_normalized(v@));
    while i < v.len()
        invariant
            i <= v.len(),
            v@ == text@,
            out@ + newline_normalized(v@.skip(i as int)) == newline_normalized(v@),
        decreases v.len() - i,
    {
        proof {
            lemma_normalized_step(v@, i as int);
        }
        let ghost before = out@;
        if v[i] == '\r' {
            push_char(&mut out, '\n');
            if i + 1 < v.len() && v[i + 1] == '\n' {
                proof {
                    assert(before + (seq!['\n'] + newline_normalized(v@.skip(i + 2))) =~= out@ + newline_normalized(v@.skip(i + 2)));
                }
                i += 2;
            } else {
                proof {
                    assert(before + (seq!['\n'] + newline_normalized(v@.skip(i + 1))) =~= out@ + newline_normalized(v@.skip(i + 1)));
                }
                i += 1;
            }
        } else {
            push_char(&mut out, v[i]);
            proof {
                assert(before + (seq![v@[i as int]] + newline_normalized(v@.skip(i + 1))) =~= out@ + newline_normalized(v@.skip(i + 1)));
            }
            i += 1;
        }
    }
    proof {
        assert(v@.skip(i as int) =~= Seq::<char>::empty());
        assert(out@ + Seq::<char>::empty() =~= out@);
    }
    out
}

/// The UTF-8 length of `s`.
fn utf8_total(s: &str) -> (r: u128)
    ensures
        r as int == utf8_len_seq(s@),
{
    let v = chars_of(s);
    let mut n: u128 = 0;
    let mut i: usize = 0;
    while i < v.len()
        invariant
            i <= v.len(),
            v@ == s@,
            n as int == utf8_len_seq(v@.take(i as int)),
            n <= 4 * i,
        decreases v.len() - i,
    {
        proof {
            assert(v@.take(i as int + 1).drop_last() =~= v@.take(i as int));
        }
        let c = v[i] as u32;
        let w: u128 = if c < 0x80 { 1 } else if c < 0x800 { 2 } else if c < 0x10000 { 3 } else { 4 };
        n = n + w;
        i += 1;
    }
    assert(v@.take(i as int) =~= v@);
    n
}

/// How `text` goes out (see `spec_plan_text`). `multiline` says whether
/// `draft/multiline` is enabled, `max_bytes` and `max_lines` are the
/// server's multiline limits, and `batch_id` names the batch.
pub fn plan_text_command(command: &str, target: &str, text: &str, wrapper_prefix: &str, wrapper_suffix: &str,
    multiline: bool, max_bytes: Option<usize>, max_lines: Option<usize>, batch_id: &str)
    -> (r: Result<TextPlan, TextPlanError>)
    ensures
        spec_plan_text(command@, target@, text@, wrapper_prefix@, wrapper_suffix@, multiline, max_bytes, max_lines,
            batch_id@) == match r {
            Ok(p) => Ok(plan_view(p)),
            Err(e) => Err(e),
        },
{
    let normalized = normalize_newlines(text);
    let logical = split_char(normalized.as_str(), '\n');
    let ghost ls = views(logical@);
    let mut chunks: Vec<String> = Vec::new();
    let mut j: usize = 0;
    while j < logical.len()
        invariant
            j <= logical.len(),
            ls == views(logical@),
            ls == split_on(newline_normalized(text@), '\n'),
            line_payloads(command@, target@, ls, wrapper_prefix@, wrapper_suffix@, j as int) == Some(views(chunks@)),
        decreases logical.len() - j,
    {
        match split_irc_text_payload(command, target, logical[j].as_str(), wrapper_prefix, wrapper_suffix) {
            Some(mut pieces) => {
                let ghost before = views(chunks@);
                let ghost added = views(pieces@);
                chunks.append(&mut pieces);
                assert(views(chunks@) =~= before + added);
            },
            None => {
                proof {
                    assert(ls[j as int] == logical@[j as int]@);
                    lemma_payloads_fail(command@, target@, ls, wrapper_prefix@, wrapper_suffix@, j as int, ls.len() as int);
                }
                return Err(TextPlanError::NoRoomForText);
            },
        }
        j += 1;
    }
    proof {
        assert(ls == split_on(newline_normalized(text@), '\n'));
        assert(line_payloads(command@, target@, ls, wrapper_prefix@, wrapper_suffix@, ls.len() as int) == Some(views(chunks@)));
    }
    let mut full = to_string(wrapper_prefix);
    push_str(&mut full, normalized.as_str());
    push_str(&mut full, wrapper_suffix);
    let has_newline = contains_char(&chars_of(normalized.as_str()), '\n');
    let fits_bytes = match max_bytes {
        Some(m) => utf8_total(full.as_str()) <= m as u128,
        None => true,
    };
    let use_batch = multiline && (has_newline || chunks.len() > 1) && fits_bytes;
    if !use_batch {
        let ghost cv = views(chunks@);
        let plan = TextPlan::Lines(chunks);
        assert(plan_view(plan) == PlanView::Lines(cv));
        assert(spec_plan_text(command@, target@, text@, wrapper_prefix@, wrapper_suffix@, multiline, max_bytes, max_lines,
            batch_id@) == Ok::<PlanView, TextPlanError>(PlanView::Lines(cv)));
        return Ok(plan);
    }
    let mut header = to_string("@batch=");
    push_str(&mut header, batch_id);
    push_str(&mut header, ";draft/multiline-concat ");
    push_str(&mut header, command);
    push_str(&mut header, " ");
    push_str(&mut header, target);
    push_str(&mut header, " :");
    let overhead = match utf8_len_capped(header.as_str(), 600) {
        Some(o) => o,
        None => {
            return Err(TextPlanError::BatchUnsendable);
        },
    };
    if overhead >= 510 {
        return Err(TextPlanError::BatchUnsendable);
    }
    let max = 510 - overhead;
    let parts = split_char(full.as_str(), '\n');
    let ghost ps = views(parts@);
    let ghost cv = views(chunks@);
    let ghost rest = spec_plan_text(command@, target@, text@, wrapper_prefix@, wrapper_suffix@, multiline, max_bytes,
        max_lines, batch_id@);
    assert(rest == match batch_lines(ps, ps.len() as int, max as nat) {
        None => Err(TextPlanError::BatchUnsendable),
        Some(bl) => if (match max_lines {
            Some(m) => bl.len() > m,
            None => false,
        }) {
            Ok(PlanView::Lines(cv))
        } else {
            Ok(PlanView::Batch(bl))
        },
    });
    let mut lines: Vec<(String, bool)> = Vec::new();
    let mut k: usize = 0;
    while k < parts.len()
        invariant
            k <= parts.len(),
            ps == views(parts@),
            max <= 510,
            cv == views(chunks@),
            rest == spec_plan_text(command@, target@, text@, wrapper_prefix@, wrapper_suffix@, multiline, max_bytes,
                max_lines, batch_id@),
            rest == match batch_lines(ps, ps.len() as int, max as nat) {
                None => Err(TextPlanError::BatchUnsendable),
                Some(bl) => if (match max_lines {
                    Some(m) => bl.len() > m,
                    None => false,
                }) {
                    Ok(PlanView::Lines(cv))
                } else {
                    Ok(PlanView::Batch(bl))
                },
            },
            batch_lines(ps, k as int, max as nat) == Some(lines@.map_values(|e: (String, bool)| (e.0@, e.1))),
        decreases parts.len() - k,
    {
        let ghost before = lines@.map_values(|e: (String, bool)| (e.0@, e.1));
        if parts[k].as_str().is_empty() {
            lines.push((String::new(), false));
            proof {
                assert(lines@.map_values(|e: (String, bool)| (e.0@, e.1)) =~= before + seq![(Seq::<char>::empty(), false)]);
            }
        } else {
            match chunk_text(parts[k].as_str(), max) {
                Some(cs) => {
                    let ghost cv = views(cs@);
                    let mut q: usize = 0;
                    while q < cs.len()
                        invariant
                            q <= cs.len(),
                            cv == views(cs@),
                            lines@.map_values(|e: (String, bool)| (e.0@, e.1)) == before + continued(cv).take(q as int),
                        decreases cs.len() - q,
                    {
                        let ghost b2 = lines@.map_values(|e: (String, bool)| (e.0@, e.1));
                        lines.push((cs[q].clone(), q > 0));
                        proof {
                            assert(continued(cv).take(q as int + 1) =~= continued(cv).take(q as int).push((cv[q as int], q > 0)));
                            assert(lines@.map_values(|e: (String, bool)| (e.0@, e.1)) =~= b2.push((cs@[q as int]@, q > 0)));
                        }
                        q += 1;
                    }
                    proof {
                        assert(continued(cv).take(q as int) =~= continued(cv));
                    }
                },
                None => {
                    proof {
                        assert(ps[k as int] == parts@[k as int]@);
                        lemma_batch_fail(ps, k as int, ps.len() as int, max as nat);
                    }
                    return Err(TextPlanError::BatchUnsendable);
                },
            }
        }
        proof {
            assert(ps[k as int] == parts@[k as int]@);
        }
        k += 1;
    }
    let too_many = match max_lines {
        Some(m) => lines.len() > m,
        None => false,
    };
    if too_many {
        Ok(TextPlan::Lines(chunks))
    } else {
        Ok(TextPlan::Batch(lines))
    }
}

proof fn lemma_payloads_fail(command: Seq<char>, target: Seq<char>, lines: Seq<Seq<char>>, prefix: Seq<char>,
    suffix: Seq<char>, j: int, n: int)
    requires
        0 <= j < n <= lines.len(),
        spec_split_irc_text_payload(command, target, lines[j], prefix, suffix) is None,
    ensures
        line_payloads(command, target, lines, prefix, suffix, n) is None,
    decreases n,
{
    if n - 1 > j {
        lemma_payloads_fail(command, target, lines, prefix, suffix, j, n - 1);
    }
}

proof fn lemma_batch_fail(lines: Seq<Seq<char>>, k: int, n: int, max: nat)
    requires
        0 <= k < n <= lines.len(),
        lines[k].len() > 0,
        payload_chunks(lines[k], max) is None,
    ensures
        batch_lines(lines, n, max) is None,
    decreases n,
{
    if n - 1 > k {
        lemma_batch_fail(lines, k, n - 1, max);
    }
}

/// Every line of a multiline batch fits the room the batch framing leaves.
pub proof fn lemma_batch_lines_fit(lines: Seq<Seq<char>>, n: int, max: nat)
    requires
        0 <= n <= lines.len(),
        batch_lines(lines, n, max) is Some,
    ensures
        forall|j: int| 0 <= j < batch_lines(lines, n, max).unwrap().len()
            ==> utf8_len_seq((#[trigger] batch_lines(lines, n, max).unwrap()[j]).0) <= max,
    decreases n,
{
    if n > 0 {
        lemma_batch_lines_fit(lines, n - 1, max);
        let a = batch_lines(lines, n - 1, max).unwrap();
        let all = batch_lines(lines, n, max).unwrap();
        let l = lines[n - 1];
        if l.len() == 0 {
            assert(all == a + seq![(Seq::<char>::empty(), false)]);
            assert forall|j: int| 0 <= j < all.len() implies utf8_len_seq((#[trigger] all[j]).0) <= max by {
                if j < a.len() {
                    assert(all[j] == a[j]);
                } else {
                    assert(all[j].0 =~= Seq::<char>::empty());
                }
            }
        } else {
            let cs = payload_chunks(l, max).unwrap();
            lemma_payload_chunks(l, max);
            assert(all == a + continued(cs));
            assert forall|j: int| 0 <= j < all.len() implies utf8_len_seq((#[trigger] all[j]).0) <= max by {
                if j < a.len() {
                    assert(all[j] == a[j]);
                } else {
                    assert(all[j] == continued(cs)[j - a.len()]);
                    assert(continued(cs)[j - a.len()].0 == cs[j - a.len()]);
                }
            }
        }
    }
}

} // verus!
