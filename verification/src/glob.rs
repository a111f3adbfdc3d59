//! Wildcard string matching with `*` (any run of characters) and `?` (one character).
use vstd::prelude::*;

verus! {

/// Whether `text` matches the wildcard pattern `pat`.
pub open spec fn glob_spec(pat: Seq<char>, text: Seq<char>) -> bool
    decreases pat.len() + text.len(),
{
    if pat.len() == 0 {
        text.len() == 0
    } else if pat[0] == '*' {
        glob_spec(pat.drop_first(), text) || (text.len() > 0 && glob_spec(pat, text.drop_first()))
    } else {
        text.len() > 0 && (pat[0] == '?' || pat[0] == text[0]) && glob_spec(
            pat.drop_first(),
            text.drop_first(),
        )
    }
}

/// `glob_spec` on suffixes.
pub open spec fn g(p: Seq<char>, t: Seq<char>, a: int, b: int) -> bool {
    glob_spec(p.skip(a), t.skip(b))
}

/// A `*` matches any number of characters.
proof fn lemma_star(p: Seq<char>, t: Seq<char>, a: int, b: int)
    requires
        0 <= a < p.len(),
        0 <= b <= t.len(),
        p[a] == '*',
    ensures
        g(p, t, a, b) <==> exists|k: int| b <= k <= t.len() && #[trigger] g(p, t, a + 1, k),
    decreases t.len() - b,
{
    let ps = p.skip(a);
    let ts = t.skip(b);
    assert(ps.drop_first() == p.skip(a + 1));
    assert(ps[0] == p[a]);
    if b < t.len() {
        assert(ts.drop_first() == t.skip(b + 1));
        assert(g(p, t, a, b) == (g(p, t, a + 1, b) || g(p, t, a, b + 1)));
        lemma_star(p, t, a, b + 1);
        if g(p, t, a, b) {
            if g(p, t, a + 1, b) {
            } else {
                assert(g(p, t, a, b + 1));
                let k = choose|k: int| b + 1 <= k <= t.len() && #[trigger] g(p, t, a + 1, k);
                assert(g(p, t, a + 1, k));
            }
        }
        if exists|k: int| b <= k <= t.len() && #[trigger] g(p, t, a + 1, k) {
            let k = choose|k: int| b <= k <= t.len() && #[trigger] g(p, t, a + 1, k);
            if k > b {
                assert(g(p, t, a, b + 1));
            }
        }
    } else {
        assert(ts.len() == 0);
        assert(g(p, t, a, b) == g(p, t, a + 1, b));
        if exists|k: int| b <= k <= t.len() && #[trigger] g(p, t, a + 1, k) {
            let k = choose|k: int| b <= k <= t.len() && #[trigger] g(p, t, a + 1, k);
            assert(k == b);
        }
    }
}

/// A pattern matches the empty text exactly when it is all stars.
proof fn lemma_empty_text(p: Seq<char>, t: Seq<char>, a: int)
    requires
        0 <= a <= p.len(),
    ensures
        g(p, t, a, t.len() as int) <==> forall|i: int| a <= i < p.len() ==> #[trigger] p[i] == '*',
    decreases p.len() - a,
{
    let ps = p.skip(a);
    let ts = t.skip(t.len() as int);
    assert(ts.len() == 0);
    if a < p.len() {
        assert(ps.drop_first() == p.skip(a + 1));
        lemma_empty_text(p, t, a + 1);
        if p[a] == '*' {
            assert(g(p, t, a, t.len() as int) == g(p, t, a + 1, t.len() as int));
        } else {
            assert(!g(p, t, a, t.len() as int));
        }
    }
}

/// Whether `p[a..b]` holds no `*`.
pub open spec fn star_free(p: Seq<char>, a: int, b: int) -> bool {
    forall|i: int| a <= i < b ==> #[trigger] p[i] != '*'
}

/// A star-free run of the pattern matches characters one for one.
proof fn lemma_literal(p: Seq<char>, t: Seq<char>, a: int, b: int, k: int)
    requires
        0 <= a <= b <= p.len(),
        0 <= k <= t.len(),
        star_free(p, a, b),
    ensures
        g(p, t, a, k) <==> (k + (b - a) <= t.len() && (forall|i: int|
            0 <= i < b - a ==> (#[trigger] p[a + i] == '?' || p[a + i] == t[k + i])) && g(
            p,
            t,
            b,
            k + (b - a),
        )),
    decreases b - a,
{
    if a < b {
        let ps = p.skip(a);
        let ts = t.skip(k);
        assert(ps.drop_first() == p.skip(a + 1));
        assert(p[a] != '*');
        if k < t.len() {
            assert(ts.drop_first() == t.skip(k + 1));
            lemma_literal(p, t, a + 1, b, k + 1);
            if g(p, t, a, k) {
                assert forall|i: int| 0 <= i < b - a implies (#[trigger] p[a + i] == '?' || p[a + i]
                    == t[k + i]) by {
                    if i > 0 {
                        assert(p[(a + 1) + (i - 1)] == p[a + i]);
                    }
                }
            }
            if k + (b - a) <= t.len() && (forall|i: int|
                0 <= i < b - a ==> (#[trigger] p[a + i] == '?' || p[a + i] == t[k + i])) && g(
                p,
                t,
                b,
                k + (b - a),
            ) {
                assert(p[a + 0] == '?' || p[a + 0] == t[k + 0]);
                assert forall|i: int| 0 <= i < b - (a + 1) implies (#[trigger] p[(a + 1) + i] == '?'
                    || p[(a + 1) + i] == t[(k + 1) + i]) by {
                    assert(p[a + (i + 1)] == '?' || p[a + (i + 1)] == t[k + (i + 1)]);
                }
            }
        } else {
            assert(ts.len() == 0);
        }
    }
}

/// Whether `text` matches the wildcard pattern `pattern`, where `*` matches any
/// run of characters and `?` matches exactly one.
pub fn glob_match(pattern: &str, text: &str) -> (r: bool)
    ensures
        r == glob_spec(pattern@, text@),
{
    let pat = crate::text::chars_of(pattern);
    let txt = crate::text::chars_of(text);
    let plen = pat.len();
    let tlen = txt.len();
    let ghost p = pat@;
    let ghost t = txt@;
    let ghost answer = g(p, t, 0, 0);
    assert(p.skip(0) == p && t.skip(0) == t);

    let mut pi: usize = 0;
    let mut ti: usize = 0;
    // Position in the pattern just after the last `*` seen, and the text position
    // the star's match currently ends at (meaningful only when `has_star`).
    let mut has_star = false;
    let mut star_pi: usize = 0;
    let mut star_ti: usize = 0;

    while ti < tlen
        invariant
            p == pat@,
            t == txt@,
            plen == p.len(),
            tlen == t.len(),
            pi <= plen,
            ti <= tlen,
            answer == glob_spec(pattern@, text@),
            !has_star ==> (answer <==> g(p, t, pi as int, ti as int)),
            has_star ==> {
                &&& 1 <= star_pi <= pi
                &&& star_ti <= ti
                &&& pi - star_pi == ti - star_ti
                &&& star_free(p, star_pi as int, pi as int)
                &&& (g(p, t, star_pi as int, star_ti as int) <==> g(p, t, pi as int, ti as int))
                &&& (answer <==> exists|k: int|
                    star_ti <= k <= tlen && #[trigger] g(p, t, star_pi as int, k))
            },
        decreases
            (if has_star { tlen + 1 - star_ti } else { tlen + 2 }),
            tlen - ti,
            plen - pi,
    {
        if pi < plen && pat[pi] == '*' {
            proof {
                lemma_star(p, t, pi as int, ti as int);
                if has_star {
                    let sp = star_pi as int;
                    let st = star_ti as int;
                    assert forall|k0: int| st <= k0 <= tlen && #[trigger] g(p, t, sp, k0) implies
                        exists|k: int| ti <= k <= tlen && #[trigger] g(p, t, pi + 1, k) by {
                        lemma_literal(p, t, sp, pi as int, k0);
                        let k1 = k0 + (pi - sp);
                        lemma_star(p, t, pi as int, k1);
                        let k = choose|k: int| k1 <= k <= t.len() && #[trigger] g(p, t, pi + 1, k);
                        assert(g(p, t, pi + 1, k));
                    }
                    if exists|k: int| ti <= k <= tlen && #[trigger] g(p, t, pi + 1, k) {
                        assert(g(p, t, pi as int, ti as int));
                        assert(g(p, t, sp, st));
                    }
                }
                assert(star_free(p, pi + 1, pi + 1));
            }
            has_star = true;
            star_pi = pi + 1;
            star_ti = ti;
            pi += 1;
        } else if pi < plen && (pat[pi] == '?' || pat[pi] == txt[ti]) {
            proof {
                let ps = p.skip(pi as int);
                let ts = t.skip(ti as int);
                assert(ps.drop_first() == p.skip(pi + 1));
                assert(ts.drop_first() == t.skip(ti + 1));
                assert(ps[0] == p[pi as int]);
                assert(ts[0] == t[ti as int]);
                assert(g(p, t, pi as int, ti as int) == g(p, t, pi + 1, ti + 1));
                if has_star {
                    assert(star_free(p, star_pi as int, pi + 1));
                }
            }
            pi += 1;
            ti += 1;
        } else if has_star {
            proof {
                let ps = p.skip(pi as int);
                let ts = t.skip(ti as int);
                if pi < plen {
                    assert(p[pi as int] != '*');
                    assert(ps[0] == p[pi as int]);
                    assert(ts[0] == t[ti as int]);
                    assert(!g(p, t, pi as int, ti as int));
                } else {
                    assert(ps.len() == 0);
                    assert(!g(p, t, pi as int, ti as int));
                }
                let sp = star_pi as int;
                let st = star_ti as int;
                assert(!g(p, t, sp, st));
                assert((exists|k: int| st <= k <= tlen && #[trigger] g(p, t, sp, k)) <==> (exists|
                    k: int,
                | st + 1 <= k <= tlen && #[trigger] g(p, t, sp, k))) by {
                    if exists|k: int| st <= k <= tlen && #[trigger] g(p, t, sp, k) {
                        let k = choose|k: int| st <= k <= tlen && #[trigger] g(p, t, sp, k);
                        assert(k != st);
                    }
                }
                assert(star_free(p, sp, sp));
            }
            star_ti += 1;
            ti = star_ti;
            pi = star_pi;
        } else {
            proof {
                let ps = p.skip(pi as int);
                if pi < plen {
                    assert(p[pi as int] != '*');
                } else {
                    assert(ps.len() == 0);
                }
            }
            return false;
        }
    }
    proof {
        lemma_empty_text(p, t, pi as int);
        if has_star {
            let sp = star_pi as int;
            let st = star_ti as int;
            if exists|k: int| st <= k <= tlen && #[trigger] g(p, t, sp, k) {
                let k = choose|k: int| st <= k <= tlen && #[trigger] g(p, t, sp, k);
                lemma_literal(p, t, sp, pi as int, k);
                assert(k == st);
            }
        }
    }
    let ghost pi0 = pi;
    while pi < plen && pat[pi] == '*'
        invariant
            p == pat@,
            plen == p.len(),
            pi0 <= pi <= plen,
            forall|i: int| pi0 <= i < pi ==> #[trigger] p[i] == '*',
        decreases plen - pi,
    {
        pi += 1;
    }
    pi == plen
}

} // verus!
