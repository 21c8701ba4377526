//! Reference extraction: scans markdown text for the destinations of inline
//! links and images, keeps the remote ones, and deduplicates them by exact
//! string equality, keeping first occurrences in order.
//!
//! The scanner does not attempt to parse markdown fully: a destination is the
//! text between a `](` delimiter and the next closing parenthesis. A `](`
//! with no closing parenthesis after it ends the scan.
use vstd::prelude::*;

use crate::text::matches_at;
use crate::text::str_eq;

verus! {

/// The characters of `http://`.
pub open spec fn http_prefix() -> Seq<char> {
    seq!['h', 't', 't', 'p', ':', '/', '/']
}

/// The characters of `https://`.
pub open spec fn https_prefix() -> Seq<char> {
    seq!['h', 't', 't', 'p', 's', ':', '/', '/']
}

/// A reference target is remote exactly when its scheme is `http` or `https`;
/// every other destination is ignored and left untouched in the text.
pub open spec fn spec_is_remote(s: Seq<char>) -> bool {
    matches_at(s, http_prefix(), 0) || matches_at(s, https_prefix(), 0)
}

/// The position of the first `)` at or after `i`, if there is one.
pub open spec fn find_close(s: Seq<char>, i: int) -> Option<int>
    decreases s.len() - i,
    when 0 <= i
{
    if i >= s.len() {
        None
    } else if s[i] == ')' {
        Some(i)
    } else {
        find_close(s, i + 1)
    }
}

/// What `find_close` returns is a closing parenthesis, not earlier than `i`,
/// with no other closing parenthesis in between.
pub proof fn lemma_find_close(s: Seq<char>, i: int)
    requires
        0 <= i,
    ensures
        match find_close(s, i) {
            Some(j) => i <= j < s.len() && s[j] == ')' && (forall|k: int|
                i <= k < j ==> s[k] != ')'),
            None => forall|k: int| i <= k < s.len() ==> s[k] != ')',
        },
    decreases s.len() - i,
{
    if i >= s.len() {
    } else if s[i] == ')' {
    } else {
        lemma_find_close(s, i + 1);
    }
}

/// The destinations of the inline references found at or after position `i`:
/// for each `](` delimiter, the text up to the next closing parenthesis.
pub open spec fn dests_from(s: Seq<char>, i: int) -> Seq<Seq<char>>
    decreases s.len() - i,
    when 0 <= i
{
    if i + 2 > s.len() {
        seq![]
    } else if s[i] == ']' && s[i + 1] == '(' {
        match find_close(s, i + 2) {
            Some(j) => {
                proof {
                    lemma_find_close(s, i + 2);
                }
                seq![s.subrange(i + 2, j)] + dests_from(s, j + 1)
            },
            None => seq![],
        }
    } else {
        dests_from(s, i + 1)
    }
}

/// Every inline reference destination in `s`, in order of occurrence.
pub open spec fn spec_dests(s: Seq<char>) -> Seq<Seq<char>> {
    dests_from(s, 0)
}

/// The remote destinations among `ds`, in order.
pub open spec fn remote_of(ds: Seq<Seq<char>>) -> Seq<Seq<char>> {
    ds.filter(|d: Seq<char>| spec_is_remote(d))
}

/// `ds` with every repetition of an earlier element removed: the first
/// occurrences survive, in their original order.
pub open spec fn dedup_first(ds: Seq<Seq<char>>) -> Seq<Seq<char>>
    decreases ds.len(),
{
    if ds.len() == 0 {
        seq![]
    } else {
        let init = dedup_first(ds.drop_last());
        if ds.drop_last().contains(ds.last()) {
            init
        } else {
            init.push(ds.last())
        }
    }
}

/// The deduplicated remote reference targets of a markdown text: what one
/// invocation fetches, one download per distinct URL string.
pub open spec fn spec_targets(s: Seq<char>) -> Seq<Seq<char>> {
    dedup_first(remote_of(spec_dests(s)))
}

/// Deduplication keeps exactly the elements of the input.
pub proof fn lemma_dedup_first_same_elements(ds: Seq<Seq<char>>)
    ensures
        forall|x: Seq<char>| dedup_first(ds).contains(x) <==> ds.contains(x),
    decreases ds.len(),
{
    if ds.len() == 0 {
    } else {
        lemma_dedup_first_same_elements(ds.drop_last());
        assert forall|x: Seq<char>| ds.contains(x) implies dedup_first(ds).contains(x) by {
            let init = dedup_first(ds.drop_last());
            let i = choose|i: int| 0 <= i < ds.len() && ds[i] == x;
            if i < ds.len() - 1 {
                assert(ds.drop_last()[i] == x);
                assert(ds.drop_last().contains(x));
                assert(init.contains(x));
                let k = choose|k: int| 0 <= k < init.len() && init[k] == x;
                assert(dedup_first(ds)[k] == x);
            } else {
                if ds.drop_last().contains(x) {
                    assert(init.contains(x));
                    let k = choose|k: int| 0 <= k < init.len() && init[k] == x;
                    assert(dedup_first(ds)[k] == x);
                } else {
                    assert(dedup_first(ds)[dedup_first(ds).len() - 1] == x);
                }
            }
        }
        assert forall|x: Seq<char>| dedup_first(ds).contains(x) implies ds.contains(x) by {
            if dedup_first(ds.drop_last()).contains(x) {
                assert(ds.drop_last().contains(x));
                let i = choose|i: int| 0 <= i < ds.drop_last().len() && ds.drop_last()[i] == x;
                assert(ds.drop_last()[i] == x);
                assert(ds[i] == x);
            } else {
                assert(ds.last() == x);
            }
        }
    }
}

/// Deduplication never leaves two equal elements behind.
pub proof fn lemma_dedup_first_no_duplicates(ds: Seq<Seq<char>>)
    ensures
        dedup_first(ds).no_duplicates(),
    decreases ds.len(),
{
    if ds.len() == 0 {
    } else {
        lemma_dedup_first_no_duplicates(ds.drop_last());
        lemma_dedup_first_same_elements(ds.drop_last());
    }
}

/// Whether a reference target points at a remote resource.
pub fn is_remote_url(url: &str) -> (r: bool)
    ensures
        r == spec_is_remote(url@),
{
    let r = match_http(url) || match_https(url);
    r
}

fn match_http(url: &str) -> (r: bool)
    ensures
        r == matches_at(url@, http_prefix(), 0),
{
    let r = crate::text::match_at(url, "http://", 0);
    proof {
        reveal_strlit("http://");
        assert("http://"@ =~= http_prefix());
    }
    r
}

fn match_https(url: &str) -> (r: bool)
    ensures
        r == matches_at(url@, https_prefix(), 0),
{
    let r = crate::text::match_at(url, "https://", 0);
    proof {
        reveal_strlit("https://");
        assert("https://"@ =~= https_prefix());
    }
    r
}

/// The views of the strings in `v`.
pub open spec fn views_of(v: Seq<String>) -> Seq<Seq<char>> {
    v.map_values(|s: String| s@)
}

/// Collects every inline reference destination of `content`, in order.
fn collect_dests(content: &str) -> (r: Vec<String>)
    ensures
        views_of(r@) == spec_dests(content@),
{
    let n: usize = content.unicode_len();
    let mut out: Vec<String> = Vec::new();
    let mut i: usize = 0;
    proof {
        assert(views_of(out@) + dests_from(content@, 0) =~= dests_from(content@, 0));
    }
    loop
        invariant
            n == content@.len(),
            i <= n,
            views_of(out@) + dests_from(content@, i as int) == spec_dests(content@),
        decreases n - i,
    {
        if n - i < 2 {
            proof {
                assert(views_of(out@) + dests_from(content@, i as int) =~= views_of(out@));
            }
            return out;
        }
        if content.get_char(i) == ']' && content.get_char(i + 1) == '(' {
            let mut j: usize = i + 2;
            loop
                invariant
                    n == content@.len(),
                    n - i >= 2,
                    i + 2 <= j <= n,
                    content@[i as int] == ']',
                    content@[i + 1] == '(',
                    views_of(out@) + dests_from(content@, i as int) == spec_dests(content@),
                    find_close(content@, i + 2) == find_close(content@, j as int),
                ensures
                    i + 2 <= j < n,
                    content@[j as int] == ')',
                    find_close(content@, i + 2) == Some(j as int),
                decreases n - j,
            {
                if j >= n {
                    proof {
                        assert(find_close(content@, j as int) is None);
                        assert(dests_from(content@, i as int) =~= Seq::<Seq<char>>::empty());
                        assert(views_of(out@) + dests_from(content@, i as int) =~= views_of(
                            out@,
                        ));
                    }
                    return out;
                }
                if content.get_char(j) == ')' {
                    proof {
                        assert(find_close(content@, j as int) == Some(j as int));
                    }
                    break;
                }
                j = j + 1;
            }
            let dest = content.substring_char(i + 2, j).to_owned();
            let ghost prev = out@;
            out.push(dest);
            proof {
                assert(dests_from(content@, i as int) == seq![
                    content@.subrange(i + 2, j as int),
                ] + dests_from(content@, j + 1));
                assert(views_of(out@) =~= views_of(prev).push(content@.subrange(i + 2, j as int)));
                assert(views_of(prev).push(content@.subrange(i + 2, j as int)) + dests_from(
                    content@,
                    j + 1,
                ) =~= views_of(prev) + (seq![content@.subrange(i + 2, j as int)] + dests_from(
                    content@,
                    j + 1,
                )));
            }
            i = j + 1;
        } else {
            i = i + 1;
        }
    }
}

/// Keeps the remote destinations, in order.
fn keep_remote(dests: &Vec<String>) -> (r: Vec<String>)
    ensures
        views_of(r@) == remote_of(views_of(dests@)),
{
    let ghost pred = |x: Seq<char>| spec_is_remote(x);
    let mut out: Vec<String> = Vec::new();
    let mut k: usize = 0;
    proof {
        reveal(Seq::filter);
        assert(views_of(dests@).subrange(0, 0) =~= Seq::<Seq<char>>::empty());
        assert(views_of(out@) =~= Seq::<Seq<char>>::empty().filter(pred));
    }
    while k < dests.len()
        invariant
            k <= dests.len(),
            pred == (|x: Seq<char>| spec_is_remote(x)),
            views_of(out@) == views_of(dests@).subrange(0, k as int).filter(pred),
        decreases dests.len() - k,
    {
        let d = dests[k].clone();
        let ghost prev = out@;
        let ghost done = views_of(dests@).subrange(0, k as int);
        if is_remote_url(d.as_str()) {
            out.push(d);
        }
        proof {
            reveal(Seq::filter);
            let ext = views_of(dests@).subrange(0, k + 1);
            assert(ext.drop_last() =~= done);
            assert(ext.last() == views_of(dests@)[k as int]);
            if spec_is_remote(d@) {
                assert(views_of(out@) =~= views_of(prev).push(d@));
            }
        }
        k = k + 1;
    }
    proof {
        assert(views_of(dests@).subrange(0, dests@.len() as int) =~= views_of(dests@));
    }
    out
}

/// Whether some string in `v` has exactly the characters of `s`.
fn vec_contains_str(v: &Vec<String>, s: &str) -> (r: bool)
    ensures
        r == views_of(v@).contains(s@),
{
    let mut k: usize = 0;
    while k < v.len()
        invariant
            k <= v.len(),
            forall|t: int| 0 <= t < k ==> views_of(v@)[t] != s@,
        decreases v.len() - k,
    {
        if str_eq(v[k].as_str(), s) {
            proof {
                assert(views_of(v@)[k as int] == s@);
            }
            return true;
        }
        k = k + 1;
    }
    false
}

/// Removes every repetition, keeping first occurrences in order.
fn dedup_strings(dests: &Vec<String>) -> (r: Vec<String>)
    ensures
        views_of(r@) == dedup_first(views_of(dests@)),
        views_of(r@).no_duplicates(),
{
    let mut out: Vec<String> = Vec::new();
    let mut k: usize = 0;
    let ghost all = views_of(dests@);
    proof {
        assert(all.subrange(0, 0) =~= Seq::<Seq<char>>::empty());
        assert(views_of(out@) =~= dedup_first(all.subrange(0, 0)));
    }
    while k < dests.len()
        invariant
            k <= dests.len(),
            all == views_of(dests@),
            views_of(out@) == dedup_first(all.subrange(0, k as int)),
        decreases dests.len() - k,
    {
        let d = dests[k].clone();
        let ghost prev = out@;
        let ghost done = all.subrange(0, k as int);
        let seen = vec_contains_str(&out, d.as_str());
        proof {
            assert(all[k as int] == d@);
            assert(all.subrange(0, k + 1) =~= done.push(d@));
            assert(all.subrange(0, k + 1).drop_last() =~= done);
            lemma_dedup_first_same_elements(done);
        }
        if !seen {
            out.push(d);
            proof {
                assert(views_of(out@) =~= views_of(prev).push(d@));
            }
        }
        k = k + 1;
    }
    proof {
        assert(all.subrange(0, all.len() as int) =~= all);
        lemma_dedup_first_no_duplicates(all);
    }
    out
}

/// The deduplicated remote reference targets of `content`: each is fetched
/// once per invocation, and every occurrence is rewritten alike.
pub fn collect_reference_targets(content: &str) -> (r: Vec<String>)
    ensures
        views_of(r@) == spec_targets(content@),
        views_of(r@).no_duplicates(),
{
    let dests = collect_dests(content);
    let remote = keep_remote(&dests);
    dedup_strings(&remote)
}

} // verus!
