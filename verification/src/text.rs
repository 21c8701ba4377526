//! Verified text primitives: substring matching, literal whole-string
//! substitution, string equality, and decimal rendering of integers.
use vstd::prelude::*;

verus! {

/// The pattern `pat` occurs in `s` at position `i`.
pub open spec fn matches_at(s: Seq<char>, pat: Seq<char>, i: int) -> bool {
    0 <= i && i + pat.len() <= s.len() && s.subrange(i, i + pat.len()) == pat
}

/// The pattern `pat` occurs somewhere in `s`.
pub open spec fn contains_seq(s: Seq<char>, pat: Seq<char>) -> bool {
    exists|i: int| matches_at(s, pat, i)
}

/// Left-to-right literal substitution: every occurrence of `pat` in `s` is
/// replaced by `rep`; overlapping occurrences are consumed greedily from the
/// left, and an empty pattern leaves the text unchanged.
pub open spec fn replace_all(s: Seq<char>, pat: Seq<char>, rep: Seq<char>) -> Seq<char>
    decreases s.len(),
{
    if pat.len() == 0 || s.len() < pat.len() {
        s
    } else if s.subrange(0, pat.len() as int) == pat {
        rep + replace_all(s.skip(pat.len() as int), pat, rep)
    } else {
        s.subrange(0, 1) + replace_all(s.skip(1), pat, rep)
    }
}

/// Whether `pat` occurs in `text` at character position `i`.
pub fn match_at(text: &str, pat: &str, i: usize) -> (r: bool)
    ensures
        r == matches_at(text@, pat@, i as int),
{
    let n: usize = text.unicode_len();
    let m: usize = pat.unicode_len();
    if i > n || n - i < m {
        return false;
    }
    let mut j: usize = 0;
    while j < m
        invariant
            j <= m,
            i + m <= n,
            n == text@.len(),
            m == pat@.len(),
            forall|k: int| 0 <= k < j ==> text@[i + k] == pat@[k],
        decreases m - j,
    {
        if text.get_char(i + j) != pat.get_char(j) {
            proof {
                assert(text@.subrange(i as int, i + m) != pat@) by {
                    assert(text@.subrange(i as int, i + m)[j as int] == text@[i + j]);
                }
            }
            return false;
        }
        j = j + 1;
    }
    proof {
        assert(text@.subrange(i as int, i + m) =~= pat@);
    }
    true
}

/// Character-wise string equality, stated over the views.
pub fn str_eq(a: &str, b: &str) -> (r: bool)
    ensures
        r == (a@ == b@),
{
    let na: usize = a.unicode_len();
    let nb: usize = b.unicode_len();
    if na != nb {
        return false;
    }
    let r = match_at(a, b, 0);
    proof {
        assert(a@.subrange(0, na as int) =~= a@);
    }
    r
}

/// Replaces every occurrence of `pat` in `text` by `rep`, scanning from the
/// left, exactly as `replace_all` describes.
pub fn replace_all_str(text: &str, pat: &str, rep: &str) -> (r: String)
    ensures
        r@ == replace_all(text@, pat@, rep@),
{
    let n: usize = text.unicode_len();
    let m: usize = pat.unicode_len();
    if m == 0 {
        return text.to_owned();
    }
    let mut out = String::new();
    let mut i: usize = 0;
    proof {
        assert(text@.skip(0) =~= text@);
        assert(Seq::<char>::empty() + replace_all(text@, pat@, rep@) =~= replace_all(
            text@,
            pat@,
            rep@,
        ));
    }
    loop
        invariant
            0 < m == pat@.len(),
            n == text@.len(),
            i <= n,
            replace_all(text@, pat@, rep@) == out@ + replace_all(
                text@.skip(i as int),
                pat@,
                rep@,
            ),
        decreases n - i,
    {
        if n - i < m {
            let tail = text.substring_char(i, n);
            out.append(tail);
            proof {
                assert(text@.skip(i as int) =~= text@.subrange(i as int, n as int));
            }
            return out;
        }
        if match_at(text, pat, i) {
            let ghost prev = out@;
            out.append(rep);
            proof {
                let suf = text@.skip(i as int);
                assert(suf.subrange(0, m as int) =~= text@.subrange(i as int, i + m));
                assert(suf.skip(m as int) =~= text@.skip(i + m));
                assert(prev + (rep@ + replace_all(text@.skip(i + m), pat@, rep@)) =~= (prev
                    + rep@) + replace_all(text@.skip(i + m), pat@, rep@));
            }
            i = i + m;
        } else {
            let one = text.substring_char(i, i + 1);
            let ghost prev = out@;
            out.append(one);
            proof {
                let suf = text@.skip(i as int);
                assert(suf.subrange(0, m as int) =~= text@.subrange(i as int, i + m));
                assert(suf.subrange(0, 1) =~= text@.subrange(i as int, i + 1));
                assert(suf.skip(1) =~= text@.skip(i + 1));
                assert(prev + (one@ + replace_all(text@.skip(i + 1), pat@, rep@)) =~= (prev
                    + one@) + replace_all(text@.skip(i + 1), pat@, rep@));
            }
            i = i + 1;
        }
    }
}

/// If the pattern does not occur in the text, substitution changes nothing.
pub proof fn lemma_replace_all_absent(s: Seq<char>, pat: Seq<char>, rep: Seq<char>)
    requires
        !contains_seq(s, pat),
    ensures
        replace_all(s, pat, rep) == s,
    decreases s.len(),
{
    if pat.len() == 0 || s.len() < pat.len() {
    } else if s.subrange(0, pat.len() as int) == pat {
        assert(matches_at(s, pat, 0));
    } else {
        assert(!contains_seq(s.skip(1), pat)) by {
            if contains_seq(s.skip(1), pat) {
                let i = choose|i: int| matches_at(s.skip(1), pat, i);
                assert(s.subrange(i + 1, i + 1 + pat.len()) =~= s.skip(1).subrange(
                    i,
                    i + pat.len(),
                ));
                assert(matches_at(s, pat, i + 1));
            }
        }
        lemma_replace_all_absent(s.skip(1), pat, rep);
        assert(s.subrange(0, 1) + s.skip(1) =~= s);
    }
}

/// If no occurrence of `pat` starts in the first `k` positions of `s`, the
/// first `k` characters are copied into the output verbatim.
proof fn lemma_replace_all_copies_prefix(s: Seq<char>, pat: Seq<char>, rep: Seq<char>, k: int)
    requires
        0 < pat.len(),
        0 <= k <= s.len(),
        forall|p: int| 0 <= p < k ==> !matches_at(s, pat, p),
    ensures
        k <= replace_all(s, pat, rep).len(),
        replace_all(s, pat, rep).subrange(0, k) == s.subrange(0, k),
    decreases s.len(),
{
    let result = replace_all(s, pat, rep);
    if k == 0 {
        assert(result.subrange(0, 0) =~= s.subrange(0, 0));
    } else if s.len() < pat.len() {
    } else if s.subrange(0, pat.len() as int) == pat {
        assert(matches_at(s, pat, 0));
    } else {
        assert(forall|p: int| 0 <= p < k - 1 ==> !matches_at(s.skip(1), pat, p)) by {
            assert forall|p: int| 0 <= p < k - 1 && matches_at(s.skip(1), pat, p) implies false by {
                assert(s.subrange(p + 1, p + 1 + pat.len()) =~= s.skip(1).subrange(
                    p,
                    p + pat.len(),
                ));
                assert(matches_at(s, pat, p + 1));
            }
        }
        lemma_replace_all_copies_prefix(s.skip(1), pat, rep, k - 1);
        let rest = replace_all(s.skip(1), pat, rep);
        assert(result == s.subrange(0, 1) + rest);
        assert forall|t: int| 0 <= t < k implies result[t] == s[t] by {
            if t == 0 {
                assert(result[0] == s.subrange(0, 1)[0]);
            } else {
                assert(result[t] == rest[t - 1]);
                assert(rest[t - 1] == rest.subrange(0, k - 1)[t - 1]);
                assert(rest.subrange(0, k - 1)[t - 1] == s.skip(1).subrange(0, k - 1)[t - 1]);
                assert(s.skip(1)[t - 1] == s[t]);
            }
        }
        assert(result.subrange(0, k) =~= s.subrange(0, k));
    }
}

/// An occurrence in `b` is an occurrence in `a + b`, shifted by `a`'s length.
proof fn lemma_matches_embed_right(a: Seq<char>, b: Seq<char>, f: Seq<char>, q: int)
    requires
        matches_at(b, f, q),
    ensures
        matches_at(a + b, f, a.len() + q),
{
    assert((a + b).subrange(a.len() + q, a.len() + q + f.len()) =~= b.subrange(q, q + f.len()));
}

/// A substring whose span no occurrence of the pattern overlaps survives
/// literal substitution: in particular, the URL of a failed or rejected
/// target stays verbatim in the text when a rewritten URL's occurrences are
/// disjoint from it.
pub proof fn lemma_replace_all_preserves_disjoint(
    s: Seq<char>,
    pat: Seq<char>,
    rep: Seq<char>,
    f: Seq<char>,
    i: int,
)
    requires
        0 < pat.len(),
        matches_at(s, f, i),
        forall|p: int| matches_at(s, pat, p) ==> (p + pat.len() <= i || p >= i + f.len()),
    ensures
        contains_seq(replace_all(s, pat, rep), f),
    decreases s.len(),
{
    let result = replace_all(s, pat, rep);
    if f.len() == 0 {
        assert(result.subrange(0, 0) =~= f);
        assert(matches_at(result, f, 0));
    } else if i == 0 {
        assert(forall|p: int| 0 <= p < f.len() ==> !matches_at(s, pat, p));
        lemma_replace_all_copies_prefix(s, pat, rep, f.len() as int);
        assert(matches_at(result, f, 0));
    } else if s.len() < pat.len() {
        assert(matches_at(result, f, i));
    } else if s.subrange(0, pat.len() as int) == pat {
        let gl = pat.len() as int;
        assert(matches_at(s, pat, 0));
        assert(gl <= i);
        assert(matches_at(s.skip(gl), f, i - gl)) by {
            assert(s.skip(gl).subrange(i - gl, i - gl + f.len()) =~= s.subrange(i, i + f.len()));
        }
        assert(forall|p: int|
            matches_at(s.skip(gl), pat, p) ==> (p + pat.len() <= i - gl || p >= i - gl
                + f.len())) by {
            assert forall|p: int| matches_at(s.skip(gl), pat, p) implies (p + pat.len() <= i - gl
                || p >= i - gl + f.len()) by {
                assert(s.subrange(p + gl, p + gl + pat.len()) =~= s.skip(gl).subrange(
                    p,
                    p + pat.len(),
                ));
                assert(matches_at(s, pat, p + gl));
            }
        }
        lemma_replace_all_preserves_disjoint(s.skip(gl), pat, rep, f, i - gl);
        let q = choose|q: int| matches_at(replace_all(s.skip(gl), pat, rep), f, q);
        lemma_matches_embed_right(rep, replace_all(s.skip(gl), pat, rep), f, q);
    } else {
        assert(matches_at(s.skip(1), f, i - 1)) by {
            assert(s.skip(1).subrange(i - 1, i - 1 + f.len()) =~= s.subrange(i, i + f.len()));
        }
        assert(forall|p: int|
            matches_at(s.skip(1), pat, p) ==> (p + pat.len() <= i - 1 || p >= i - 1
                + f.len())) by {
            assert forall|p: int| matches_at(s.skip(1), pat, p) implies (p + pat.len() <= i - 1
                || p >= i - 1 + f.len()) by {
                assert(s.subrange(p + 1, p + 1 + pat.len()) =~= s.skip(1).subrange(
                    p,
                    p + pat.len(),
                ));
                assert(matches_at(s, pat, p + 1));
            }
        }
        lemma_replace_all_preserves_disjoint(s.skip(1), pat, rep, f, i - 1);
        let q = choose|q: int| matches_at(replace_all(s.skip(1), pat, rep), f, q);
        lemma_matches_embed_right(s.subrange(0, 1), replace_all(s.skip(1), pat, rep), f, q);
    }
}

/// The decimal digit character for `d`.
pub open spec fn digit_char(d: int) -> char {
    if d == 0 {
        '0'
    } else if d == 1 {
        '1'
    } else if d == 2 {
        '2'
    } else if d == 3 {
        '3'
    } else if d == 4 {
        '4'
    } else if d == 5 {
        '5'
    } else if d == 6 {
        '6'
    } else if d == 7 {
        '7'
    } else if d == 8 {
        '8'
    } else {
        '9'
    }
}

/// The decimal rendering of a natural number, most significant digit first.
pub open spec fn dec_rep(n: nat) -> Seq<char>
    decreases n,
{
    if n < 10 {
        seq![digit_char(n as int)]
    } else {
        dec_rep(n / 10) + seq![digit_char((n % 10) as int)]
    }
}

/// The decimal rendering of an integer, with a leading minus sign when negative.
pub open spec fn dec_int(n: int) -> Seq<char> {
    if n < 0 {
        seq!['-'] + dec_rep((-n) as nat)
    } else {
        dec_rep(n as nat)
    }
}

pub fn push_digit(out: &mut String, d: u64)
    requires
        d < 10,
    ensures
        final(out)@ == old(out)@ + seq![digit_char(d as int)],
{
    if d == 0 {
        out.append("0");
        proof {
            reveal_strlit("0");
            assert("0"@ =~= seq![digit_char(d as int)]);
        }
    } else if d == 1 {
        out.append("1");
        proof {
            reveal_strlit("1");
            assert("1"@ =~= seq![digit_char(d as int)]);
        }
    } else if d == 2 {
        out.append("2");
        proof {
            reveal_strlit("2");
            assert("2"@ =~= seq![digit_char(d as int)]);
        }
    } else if d == 3 {
        out.append("3");
        proof {
            reveal_strlit("3");
            assert("3"@ =~= seq![digit_char(d as int)]);
        }
    } else if d == 4 {
        out.append("4");
        proof {
            reveal_strlit("4");
            assert("4"@ =~= seq![digit_char(d as int)]);
        }
    } else if d == 5 {
        out.append("5");
        proof {
            reveal_strlit("5");
            assert("5"@ =~= seq![digit_char(d as int)]);
        }
    } else if d == 6 {
        out.append("6");
        proof {
            reveal_strlit("6");
            assert("6"@ =~= seq![digit_char(d as int)]);
        }
    } else if d == 7 {
        out.append("7");
        proof {
            reveal_strlit("7");
            assert("7"@ =~= seq![digit_char(d as int)]);
        }
    } else if d == 8 {
        out.append("8");
        proof {
            reveal_strlit("8");
            assert("8"@ =~= seq![digit_char(d as int)]);
        }
    } else {
        out.append("9");
        proof {
            reveal_strlit("9");
            assert("9"@ =~= seq![digit_char(d as int)]);
        }
    }
}

fn push_dec(out: &mut String, n: u64)
    ensures
        final(out)@ == old(out)@ + dec_rep(n as nat),
    decreases n,
{
    if n < 10 {
        push_digit(out, n);
    } else {
        push_dec(out, n / 10);
        push_digit(out, n % 10);
        proof {
            assert(old(out)@ + dec_rep((n / 10) as nat) + seq![digit_char((n % 10) as int)]
                =~= old(out)@ + (dec_rep((n / 10) as nat) + seq![digit_char((n % 10) as int)]));
        }
    }
}

/// Renders `n` in decimal, as the standard formatter would.
pub fn i32_to_string(n: i32) -> (r: String)
    ensures
        r@ == dec_int(n as int),
{
    let mut out = String::new();
    if n < 0 {
        out.append("-");
        let mag: u64 = (-(n as i64)) as u64;
        push_dec(&mut out, mag);
        proof {
            reveal_strlit("-");
            assert("-"@ =~= seq!['-']);
            assert(Seq::<char>::empty() + "-"@ + dec_rep(mag as nat) =~= seq!['-'] + dec_rep(
                mag as nat,
            ));
        }
    } else {
        push_dec(&mut out, n as u64);
        proof {
            assert(Seq::<char>::empty() + dec_rep(n as nat) =~= dec_rep(n as nat));
        }
    }
    out
}

} // verus!
