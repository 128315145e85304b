//! Wildcard masks (`*` and `?`) as used by ignore lists and ban masks.

use vstd::prelude::*;

use crate::text::chars_of;

verus! {

/// Whether `p[i..]` matches `t[j..]`, where `*` matches any run of
/// characters and `?` matches exactly one character.
pub open spec fn glob_from(p: Seq<char>, t: Seq<char>, i: int, j: int) -> bool
    decreases p.len() - i + t.len() - j, t.len() - j,
    when 0 <= i <= p.len() && 0 <= j <= t.len()
{
    if i == p.len() {
        j == t.len()
    } else if p[i] == '*' {
        glob_from(p, t, i + 1, j) || (j < t.len() && glob_from(p, t, i, j + 1))
    } else {
        j < t.len() && (p[i] == '?' || p[i] == t[j]) && glob_from(p, t, i + 1, j + 1)
    }
}

/// Whether the whole text `t` matches the wildcard pattern `p`.
pub open spec fn glob_match(p: Seq<char>, t: Seq<char>) -> bool {
    glob_from(p, t, 0, 0)
}

/// Some `k` in `[a, |t|]` with `p[i..]` matching `t[k..]`.
pub open spec fn glob_any_from(p: Seq<char>, t: Seq<char>, i: int, a: int) -> bool
    decreases t.len() - a,
    when 0 <= a <= t.len()
{
    glob_from(p, t, i, a) || (a < t.len() && glob_any_from(p, t, i, a + 1))
}

/// The `n` pattern characters from `i` contain no `*` and match the `n` text
/// characters from `j` one for one.
pub open spec fn literal_run(p: Seq<char>, t: Seq<char>, i: int, j: int, n: int) -> bool {
    &&& 0 <= i && i + n <= p.len()
    &&& 0 <= j && j + n <= t.len()
    &&& forall|k: int| 0 <= k < n ==> #[trigger] p[i + k] != '*' && (p[i + k] == '?' || p[i + k] == t[j + k])
}

/// The `n` pattern characters from `i` contain no `*`.
pub open spec fn star_free(p: Seq<char>, i: int, n: int) -> bool {
    &&& 0 <= i && 0 <= n && i + n <= p.len()
    &&& forall|k: int| 0 <= k < n ==> #[trigger] p[i + k] != '*'
}

proof fn lemma_star(p: Seq<char>, t: Seq<char>, i: int, j: int)
    requires
        0 <= i < p.len(),
        0 <= j <= t.len(),
        p[i] == '*',
    ensures
        glob_from(p, t, i, j) == glob_any_from(p, t, i + 1, j),
    decreases t.len() - j,
{
    if j < t.len() {
        lemma_star(p, t, i, j + 1);
    }
}

proof fn lemma_any_monotone(p: Seq<char>, t: Seq<char>, i: int, x: int, y: int)
    requires
        0 <= i <= p.len(),
        0 <= x <= y <= t.len(),
        glob_any_from(p, t, i, y),
    ensures
        glob_any_from(p, t, i, x),
    decreases y - x,
{
    if x < y {
        lemma_any_monotone(p, t, i, x + 1, y);
    }
}

/// A star-free segment consumes exactly as many characters as it has.
proof fn lemma_segment(p: Seq<char>, t: Seq<char>, i: int, k: int, n: int)
    requires
        star_free(p, i, n),
        0 <= k <= t.len(),
    ensures
        glob_from(p, t, i, k) ==> k + n <= t.len() && literal_run(p, t, i, k, n)
            && glob_from(p, t, i + n, k + n),
        (k + n <= t.len() && literal_run(p, t, i, k, n) && glob_from(p, t, i + n, k + n))
            ==> glob_from(p, t, i, k),
    decreases n,
{
    if n > 0 {
        assert(p[i + 0] != '*');
        if k < t.len() {
            assert(star_free(p, i + 1, n - 1)) by {
                assert forall|m: int| 0 <= m < n - 1 implies #[trigger] p[(i + 1) + m] != '*' by {
                    assert(p[i + (m + 1)] != '*');
                }
            }
            lemma_segment(p, t, i + 1, k + 1, n - 1);
            assert forall|m: int| 0 <= m < n - 1 implies #[trigger] p[(i + 1) + m] == p[i + (m + 1)] by {}
            if literal_run(p, t, i + 1, k + 1, n - 1) && (p[i] == '?' || p[i] == t[k]) {
                assert forall|m: int| 0 <= m < n implies #[trigger] p[i + m] != '*' && (p[i + m] == '?' || p[i + m] == t[k + m]) by {
                    if m > 0 {
                        assert(p[(i + 1) + (m - 1)] == p[i + m]);
                    }
                }
            }
            if literal_run(p, t, i, k, n) {
                assert forall|m: int| 0 <= m < n - 1 implies #[trigger] p[(i + 1) + m] != '*' && (p[(i + 1) + m] == '?' || p[(i + 1) + m] == t[(k + 1) + m]) by {
                    assert(p[i + (m + 1)] != '*');
                }
            }
        }
    } else {
    }
}

/// The alternatives of an earlier star collapse onto those of a later one.
proof fn lemma_new_star(p: Seq<char>, t: Seq<char>, s: int, a: int, pi: int, ti: int)
    requires
        0 <= s < pi < p.len(),
        p[pi] == '*',
        literal_run(p, t, s + 1, a, pi - s - 1),
        ti == a + (pi - s - 1),
        ti <= t.len(),
    ensures
        glob_any_from(p, t, s + 1, a) == glob_any_from(p, t, pi + 1, ti),
{
    let n = pi - s - 1;
    assert(star_free(p, s + 1, n));
    // one direction: the candidate `a` itself
    lemma_segment(p, t, s + 1, a, n);
    lemma_star(p, t, pi, ti);
    if glob_any_from(p, t, s + 1, a) {
        lemma_collapse(p, t, s, a, pi, ti, a);
    }
}

proof fn lemma_collapse(p: Seq<char>, t: Seq<char>, s: int, a: int, pi: int, ti: int, k: int)
    requires
        0 <= s < pi < p.len(),
        p[pi] == '*',
        star_free(p, s + 1, pi - s - 1),
        ti == a + (pi - s - 1),
        ti <= t.len(),
        0 <= a <= k <= t.len(),
        glob_any_from(p, t, s + 1, k),
    ensures
        glob_any_from(p, t, pi + 1, ti),
    decreases t.len() - k,
{
    let n = pi - s - 1;
    if glob_from(p, t, s + 1, k) {
        lemma_segment(p, t, s + 1, k, n);
        lemma_star(p, t, pi, k + n);
        lemma_any_monotone(p, t, pi + 1, ti, k + n);
    } else {
        lemma_collapse(p, t, s, a, pi, ti, k + 1);
    }
}

proof fn lemma_tail_stars(p: Seq<char>, t: Seq<char>, i: int)
    requires
        0 <= i <= p.len(),
    ensures
        glob_from(p, t, i, t.len() as int) == (forall|k: int| i <= k < p.len() ==> p[k] == '*'),
    decreases p.len() - i,
{
    if i < p.len() {
        lemma_tail_stars(p, t, i + 1);
    }
}

/// One step of the two-pointer matcher behind [`mask_matches`]: `pi`/`ti`
/// are the pattern and text positions, `star` the pattern index of the last
/// `*` taken and `sti` the text position where it was taken. A pattern
/// `*` is taken as a wildcard; otherwise a pattern character that is `?`
/// or equal to the text character is consumed; otherwise the last `*`
/// absorbs one more text character. Once the text is exhausted only `*`s may remain.
pub open spec fn mask_state(p: Seq<char>, t: Seq<char>, pi: int, ti: int, star: Option<int>, sti: int) -> bool
    decreases (t.len() + 1 - sti) * (2 * p.len() + 2) + (p.len() - pi) + (t.len() - ti),
    when 0 <= pi <= p.len() && 0 <= sti <= ti <= t.len()
        && (match star { Some(s) => 0 <= s < pi && ti - sti == pi - s - 1, None => sti == 0 })
{
    if ti >= t.len() {
        forall|k: int| pi <= k < p.len() ==> p[k] == '*'
    } else if pi < p.len() && p[pi] == '*' {
        proof {
            assert((t.len() + 1 - ti) * (2 * p.len() + 2) <= (t.len() + 1 - sti) * (2 * p.len() + 2))
                by (nonlinear_arith) requires sti <= ti, p.len() >= 0;
        }
        mask_state(p, t, pi + 1, ti, Some(pi), ti)
    } else if pi < p.len() && (p[pi] == '?' || p[pi] == t[ti]) {
        mask_state(p, t, pi + 1, ti + 1, star, sti)
    } else {
        match star {
            Some(s) => {
                proof {
                    assert((t.len() + 1 - (sti + 1)) * (2 * p.len() + 2)
                        == (t.len() + 1 - sti) * (2 * p.len() + 2) - (2 * p.len() + 2))
                        by (nonlinear_arith);
                }
                mask_state(p, t, s + 1, sti + 1, star, sti + 1)
            },
            None => false,
        }
    }
}

/// The result of [`mask_matches`]: wildcard matching of the whole text.
pub open spec fn mask_spec(p: Seq<char>, t: Seq<char>) -> bool {
    glob_match(p, t)
}

/// The matcher state agrees with wildcard matching: with no star taken yet the remaining pattern must match the
/// remaining text; after a star at `s`, some text position from `sti` on
/// must match the pattern after that star.
proof fn lemma_mask_state_glob(p: Seq<char>, t: Seq<char>, pi: int, ti: int, star: Option<int>, sti: int)
    requires
        0 <= pi <= p.len(),
        0 <= sti <= ti <= t.len(),
        match star {
            Some(s) => 0 <= s < pi && p[s] == '*' && ti - sti == pi - s - 1
                && literal_run(p, t, s + 1, sti, pi - s - 1),
            None => sti == 0,
        },
    ensures
        mask_state(p, t, pi, ti, star, sti) == match star {
            Some(s) => glob_any_from(p, t, s + 1, sti),
            None => glob_from(p, t, pi, ti),
        },
    decreases (t.len() + 1 - sti) * (2 * p.len() + 2) + (p.len() - pi) + (t.len() - ti),
{
    if ti >= t.len() {
        lemma_tail_stars(p, t, pi);
        match star {
            Some(s) => {
                let n = pi - s - 1;
                assert(star_free(p, s + 1, n));
                lemma_segment(p, t, s + 1, sti, n);
                lemma_any_after_end(p, t, s, sti, n);
            }
            None => {}
        }
    } else if pi < p.len() && p[pi] == '*' {
        lemma_measure_star(p.len() as int, t.len() as int, sti, ti);
        lemma_mask_state_glob(p, t, pi + 1, ti, Some(pi), ti);
        match star {
            None => {
                lemma_star(p, t, pi, ti);
            }
            Some(s) => {
                lemma_new_star(p, t, s, sti, pi, ti);
            }
        }
    } else if pi < p.len() && (p[pi] == '?' || p[pi] == t[ti]) {
        assert(p[pi] != '*');
        match star {
            Some(s) => {
                assert(literal_run(p, t, s + 1, sti, pi + 1 - s - 1)) by {
                    assert forall|k: int| 0 <= k < pi + 1 - s - 1 implies #[trigger] p[(s + 1) + k] != '*' && (p[(s + 1) + k] == '?' || p[(s + 1) + k] == t[sti + k]) by {
                        if k < pi - s - 1 {
                            assert(p[(s + 1) + k] != '*');
                        }
                    }
                }
                assert((t.len() + 1 - sti) * (2 * p.len() + 2) >= 0) by (nonlinear_arith)
                    requires t.len() + 1 - sti >= 0, p.len() >= 0;
                lemma_mask_state_glob(p, t, pi + 1, ti + 1, star, sti);
            }
            None => {
                lemma_mask_state_glob(p, t, pi + 1, ti + 1, star, sti);
            }
        }
    } else {
        match star {
            Some(s) => {
                let n = pi - s - 1;
                assert(star_free(p, s + 1, n));
                lemma_segment(p, t, s + 1, sti, n);
                assert(!glob_from(p, t, pi, ti));
                assert(literal_run(p, t, s + 1, sti + 1, 0));
                lemma_measure_backtrack(p.len() as int, t.len() as int, sti, ti, pi, s);
                lemma_mask_state_glob(p, t, s + 1, sti + 1, star, sti + 1);
            }
            None => {}
        }
    }
}

proof fn lemma_measure_star(pl: int, tl: int, sti: int, ti: int)
    requires
        0 <= sti <= ti <= tl,
        pl >= 0,
    ensures
        (tl + 1 - ti) * (2 * pl + 2) <= (tl + 1 - sti) * (2 * pl + 2),
{
    assert((tl + 1 - ti) * (2 * pl + 2) <= (tl + 1 - sti) * (2 * pl + 2)) by (nonlinear_arith)
        requires sti <= ti, pl >= 0;
}

proof fn lemma_measure_backtrack(pl: int, tl: int, sti: int, ti: int, pi: int, s: int)
    requires
        0 <= sti <= ti < tl,
        0 <= s < pi <= pl,
        ti - sti == pi - s - 1,
    ensures
        (tl + 1 - (sti + 1)) * (2 * pl + 2) + (pl - (s + 1)) + (tl - (sti + 1))
            < (tl + 1 - sti) * (2 * pl + 2) + (pl - pi) + (tl - ti),
{
    assert((tl + 1 - (sti + 1)) * (2 * pl + 2) == (tl + 1 - sti) * (2 * pl + 2) - (2 * pl + 2)) by (nonlinear_arith);
}

/// With the text exhausted, a star-free segment longer than the remaining
/// text cannot match, so only the current candidate is left.
proof fn lemma_any_after_end(p: Seq<char>, t: Seq<char>, s: int, sti: int, n: int)
    requires
        0 <= s,
        star_free(p, s + 1, n),
        0 <= sti,
        sti + n == t.len(),
    ensures
        glob_any_from(p, t, s + 1, sti) == glob_from(p, t, s + 1, sti),
    decreases t.len() - sti,
{
    if sti < t.len() {
        lemma_none_past(p, t, s, sti + 1, n);
    }
}

proof fn lemma_none_past(p: Seq<char>, t: Seq<char>, s: int, k: int, n: int)
    requires
        0 <= s,
        star_free(p, s + 1, n),
        0 <= k <= t.len(),
        k + n > t.len(),
    ensures
        !glob_any_from(p, t, s + 1, k),
    decreases t.len() - k,
{
    lemma_segment(p, t, s + 1, k, n);
    if k < t.len() {
        lemma_none_past(p, t, s, k + 1, n);
    }
}

/// Simple wildcard mask matching for ignore lists: `*` matches any run of
/// characters and `?` a single character. Iterative two-pointer matcher that
/// backtracks only to the last `*`.
pub fn mask_matches(pattern: &str, text: &str) -> (r: bool)
    ensures
        r == glob_match(pattern@, text@),
{
    let p = chars_of(pattern);
    let t = chars_of(text);
    let ghost ps = p@;
    let ghost ts = t@;
    let mut pi: usize = 0;
    let mut ti: usize = 0;
    let mut star: Option<usize> = None;
    let mut star_ti: usize = 0;
    proof {
        lemma_mask_state_glob(ps, ts, 0, 0, None, 0);
    }

    while ti < t.len()
        invariant
            ps == p@,
            ts == t@,
            ps == pattern@,
            ts == text@,
            mask_state(ps, ts, 0, 0, None, 0) == glob_match(ps, ts),
            pi <= p.len(),
            star_ti <= ti <= t.len(),
            match star {
                Some(s) => s < pi && ti - star_ti == pi - s - 1,
                None => star_ti == 0,
            },
            glob_match(ps, ts) == mask_state(ps, ts, pi as int, ti as int,
                match star { Some(s) => Some(s as int), None => None }, star_ti as int),
        decreases (t.len() + 1 - star_ti) * (2 * p.len() + 2) + (p.len() - pi) + (t.len() - ti),
    {
        if pi < p.len() && p[pi] == '*' {
            proof {
                lemma_measure_star(p.len() as int, t.len() as int, star_ti as int, ti as int);
            }
            star = Some(pi);
            star_ti = ti;
            pi += 1;
        } else if pi < p.len() && (p[pi] == '?' || p[pi] == t[ti]) {
            pi += 1;
            ti += 1;
        } else if let Some(s) = star {
            proof {
                lemma_measure_backtrack(p.len() as int, t.len() as int, star_ti as int, ti as int, pi as int, s as int);
            }
            pi = s + 1;
            star_ti += 1;
            ti = star_ti;
        } else {
            assert(!mask_state(ps, ts, pi as int, ti as int, None, star_ti as int));
            return false;
        }
    }

    let ghost pi0 = pi as int;
    assert(glob_match(ps, ts) == (forall|k: int| pi0 <= k < ps.len() ==> ps[k] == '*'));
    while pi < p.len() && p[pi] == '*'
        invariant
            pi0 <= pi <= p.len(),
            ps == p@,
            forall|k: int| 0 <= pi0 <= k < pi ==> ps[k] == '*',
        decreases p.len() - pi,
    {
        pi += 1;
    }
    pi == p.len()
}

} // verus!
