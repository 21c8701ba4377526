//! The orchestrator's data model and its synchronous core: the outcome of
//! each fetched reference target is joined back into the markdown text by
//! literal whole-string substitution, and the accepted asset records are
//! collected in outcome order.
//!
//! The network fan-out itself lives with the caller: one fetch per unique
//! reference target, in any order, with a barrier before the rewrite. This
//! module decides everything that does not touch the network.
use vstd::prelude::*;

use crate::extract::dedup_first;
use crate::extract::remote_of;
use crate::extract::spec_dests;
use crate::extract::spec_is_remote;
use crate::extract::spec_targets;
use crate::text::replace_all;
use crate::text::replace_all_str;

verus! {

/// The record of one successfully mirrored remote resource, handed to the
/// caller for persistence.
#[derive(Debug, Clone)]
pub struct DownloadedAsset {
    /// The freshly generated identifier under which the asset is served.
    pub asset_uuid: String,
    /// The reference target exactly as it stood in the markdown source.
    pub original_url: String,
    /// The relative storage path `shard/asset_uuid.extension`.
    pub file_path: String,
    /// The content type as the remote server declared it, if it did.
    pub content_type: Option<String>,
    /// The length of the stored body in bytes.
    pub file_size: i64,
}

/// Why a reference target was rejected without producing an asset.
#[derive(Debug, Clone, Copy, PartialEq, Eq, Structural)]
pub enum RejectReason {
    /// The declared content type is outside the allow-list, or absent.
    UnsupportedType,
    /// The target does not parse as a fetchable URL.
    InvalidUrl,
    /// The remote server answered with a non-2xx status.
    NonSuccessStatus,
}

/// The outcome of one unique reference target: an asset, a classified
/// rejection, or a transport or storage failure with its message. Rejected
/// and failed targets contribute no record and leave the text untouched.
#[derive(Debug)]
pub enum FetchOutcome {
    Accepted(DownloadedAsset),
    Rejected(RejectReason),
    Failed(String),
}

/// The view of an optional borrowed string.
pub open spec fn view_opt(s: Option<&str>) -> Option<Seq<char>> {
    match s {
        Some(b) => Some(b@),
        None => None,
    }
}

/// The serving path of an asset relative to the site root.
pub open spec fn spec_api_path(id: Seq<char>) -> Seq<char> {
    "/api/assets/"@ + id
}

/// The reference written in place of a downloaded target: the serving path,
/// prefixed with the base URL when one is configured.
pub open spec fn spec_replacement(base: Option<Seq<char>>, id: Seq<char>) -> Seq<char> {
    match base {
        Some(b) => b + spec_api_path(id),
        None => spec_api_path(id),
    }
}

/// Builds the replacement reference for one accepted asset.
pub fn replacement_for(base: Option<&str>, id: &str) -> (r: String)
    ensures
        r@ == spec_replacement(view_opt(base), id@),
{
    let mut out = match base {
        Some(b) => b.to_owned(),
        None => String::new(),
    };
    out.append("/api/assets/");
    out.append(id);
    proof {
        assert(out@ =~= spec_replacement(view_opt(base), id@));
    }
    out
}

/// The text after joining: for each outcome in order, an accepted target has
/// every occurrence of its original URL replaced by its replacement
/// reference; rejected and failed targets leave the text as it is.
pub open spec fn spec_rewritten(
    text: Seq<char>,
    base: Option<Seq<char>>,
    outcomes: Seq<(String, FetchOutcome)>,
) -> Seq<char>
    decreases outcomes.len(),
{
    if outcomes.len() == 0 {
        text
    } else {
        let step = match outcomes[0].1 {
            FetchOutcome::Accepted(a) => replace_all(
                text,
                outcomes[0].0@,
                spec_replacement(base, a.asset_uuid@),
            ),
            _ => text,
        };
        spec_rewritten(step, base, outcomes.skip(1))
    }
}

/// The accepted asset records among the outcomes, in outcome order.
pub open spec fn spec_accepted(outcomes: Seq<(String, FetchOutcome)>) -> Seq<DownloadedAsset>
    decreases outcomes.len(),
{
    if outcomes.len() == 0 {
        seq![]
    } else {
        let rest = spec_accepted(outcomes.skip(1));
        match outcomes[0].1 {
            FetchOutcome::Accepted(a) => seq![a] + rest,
            _ => rest,
        }
    }
}

/// Joins the fetch outcomes back into the markdown text and collects the
/// accepted records: the synchronous heart of `process`. Every occurrence
/// of each accepted target's URL is rewritten to its replacement reference;
/// every other target's URL stays verbatim in the text, and only accepted
/// outcomes contribute records.
pub fn process_markdown(
    content: &str,
    api_base_url: Option<&str>,
    outcomes: Vec<(String, FetchOutcome)>,
) -> (r: (String, Vec<DownloadedAsset>))
    ensures
        r.0@ == spec_rewritten(content@, view_opt(api_base_url), outcomes@),
        r.1@ == spec_accepted(outcomes@),
{
    let ghost base = view_opt(api_base_url);
    let ghost all = outcomes@;
    let mut text = content.to_owned();
    let mut assets: Vec<DownloadedAsset> = Vec::new();
    let mut rem = outcomes;
    proof {
        assert(assets@ + spec_accepted(rem@) =~= spec_accepted(all));
    }
    while rem.len() > 0
        invariant
            base == view_opt(api_base_url),
            spec_rewritten(content@, base, all) == spec_rewritten(text@, base, rem@),
            spec_accepted(all) == assets@ + spec_accepted(rem@),
        decreases rem.len(),
    {
        let ghost prev_rem = rem@;
        let ghost prev_text = text@;
        let ghost prev_assets = assets@;
        let pair = rem.remove(0);
        proof {
            assert(prev_rem.remove(0) =~= prev_rem.skip(1));
        }
        let (u, oc) = pair;
        match oc {
            FetchOutcome::Accepted(a) => {
                let ghost ga = a;
                let repl = replacement_for(api_base_url, a.asset_uuid.as_str());
                text = replace_all_str(text.as_str(), u.as_str(), repl.as_str());
                assets.push(a);
                proof {
                    assert(prev_rem[0].1 == FetchOutcome::Accepted(ga));
                    assert(prev_assets + (seq![ga] + spec_accepted(prev_rem.skip(1)))
                        =~= prev_assets.push(ga) + spec_accepted(prev_rem.skip(1)));
                }
            },
            _ => {
                proof {
                    assert(!(prev_rem[0].1 is Accepted));
                }
            },
        }
    }
    proof {
        assert(rem@.len() == 0);
        assert(assets@ + Seq::<DownloadedAsset>::empty() =~= assets@);
    }
    (text, assets)
}

/// When no outcome is accepted, joining changes nothing: the text stays as
/// it was, character for character, and no record is emitted. In particular
/// a text without remote references, whose outcome list is empty, passes
/// through unchanged.
pub proof fn lemma_no_accepted_leaves_text(
    text: Seq<char>,
    base: Option<Seq<char>>,
    outcomes: Seq<(String, FetchOutcome)>,
)
    requires
        forall|k: int| 0 <= k < outcomes.len() ==> !((#[trigger] outcomes[k]).1 is Accepted),
    ensures
        spec_rewritten(text, base, outcomes) == text,
        spec_accepted(outcomes) == Seq::<DownloadedAsset>::empty(),
    decreases outcomes.len(),
{
    if outcomes.len() == 0 {
    } else {
        assert(!(outcomes[0].1 is Accepted));
        lemma_no_accepted_leaves_text(text, base, outcomes.skip(1));
    }
}

/// A text whose reference destinations are all non-remote yields no targets
/// at all: nothing is fetched, so the outcome list of such an invocation is
/// empty, and by `lemma_no_accepted_leaves_text` the text comes back
/// unchanged with no records.
pub proof fn lemma_no_remote_references_no_targets(text: Seq<char>)
    requires
        forall|k: int| 0 <= k < spec_dests(text).len() ==> !spec_is_remote(
            #[trigger] spec_dests(text)[k],
        ),
    ensures
        spec_targets(text) == Seq::<Seq<char>>::empty(),
{
    lemma_filter_none(spec_dests(text));
    assert(remote_of(spec_dests(text)) =~= Seq::<Seq<char>>::empty());
    assert(dedup_first(Seq::<Seq<char>>::empty()) =~= Seq::<Seq<char>>::empty());
}

proof fn lemma_filter_none(ds: Seq<Seq<char>>)
    requires
        forall|k: int| 0 <= k < ds.len() ==> !spec_is_remote(#[trigger] ds[k]),
    ensures
        remote_of(ds).len() == 0,
    decreases ds.len(),
{
    reveal(Seq::filter);
    if ds.len() == 0 {
    } else {
        assert(forall|k: int| 0 <= k < ds.drop_last().len() ==> !spec_is_remote(
            #[trigger] ds.drop_last()[k],
        ));
        lemma_filter_none(ds.drop_last());
        assert(!spec_is_remote(ds.last()));
    }
}

/// An accepted outcome contributes its record to the result, whatever the
/// other outcomes of the batch are: one target's failure or rejection never
/// suppresses another target's asset.
pub proof fn lemma_accepted_record_present(
    outcomes: Seq<(String, FetchOutcome)>,
    k: int,
    a: DownloadedAsset,
)
    requires
        0 <= k < outcomes.len(),
        outcomes[k].1 == FetchOutcome::Accepted(a),
    ensures
        spec_accepted(outcomes).contains(a),
    decreases outcomes.len(),
{
    if k == 0 {
        assert(spec_accepted(outcomes)[0] == a);
    } else {
        lemma_accepted_record_present(outcomes.skip(1), k - 1, a);
        let rest = spec_accepted(outcomes.skip(1));
        let j = choose|j: int| 0 <= j < rest.len() && rest[j] == a;
        match outcomes[0].1 {
            FetchOutcome::Accepted(b) => {
                assert(spec_accepted(outcomes)[j + 1] == a);
            },
            _ => {
                assert(spec_accepted(outcomes)[j] == a);
            },
        }
    }
}

/// Every record in the result comes from an accepted outcome: rejected and
/// failed targets contribute nothing.
pub proof fn lemma_record_only_from_accepted(
    outcomes: Seq<(String, FetchOutcome)>,
    a: DownloadedAsset,
)
    requires
        spec_accepted(outcomes).contains(a),
    ensures
        exists|k: int| 0 <= k < outcomes.len() && (#[trigger] outcomes[k]).1
            == FetchOutcome::Accepted(a),
    decreases outcomes.len(),
{
    let recs = spec_accepted(outcomes);
    let j = choose|j: int| 0 <= j < recs.len() && recs[j] == a;
    match outcomes[0].1 {
        FetchOutcome::Accepted(b) => {
            if j == 0 {
                assert(outcomes[0].1 == FetchOutcome::Accepted(a));
            } else {
                assert(spec_accepted(outcomes.skip(1))[j - 1] == a);
                lemma_record_only_from_accepted(outcomes.skip(1), a);
                let k = choose|k: int|
                    0 <= k < outcomes.skip(1).len() && (#[trigger] outcomes.skip(1)[k]).1
                        == FetchOutcome::Accepted(a);
                assert(outcomes[k + 1].1 == FetchOutcome::Accepted(a));
            }
        },
        _ => {
            lemma_record_only_from_accepted(outcomes.skip(1), a);
            let k = choose|k: int|
                0 <= k < outcomes.skip(1).len() && (#[trigger] outcomes.skip(1)[k]).1
                    == FetchOutcome::Accepted(a);
            assert(outcomes[k + 1].1 == FetchOutcome::Accepted(a));
        },
    }
}

/// With exactly one accepted outcome, joining amounts to one literal
/// substitution.
proof fn lemma_single_accepted_rewrite(
    text: Seq<char>,
    base: Option<Seq<char>>,
    outcomes: Seq<(String, FetchOutcome)>,
    k: int,
    a: DownloadedAsset,
)
    requires
        0 <= k < outcomes.len(),
        outcomes[k].1 == FetchOutcome::Accepted(a),
        forall|t: int|
            0 <= t < outcomes.len() && t != k ==> !((#[trigger] outcomes[t]).1 is Accepted),
    ensures
        spec_rewritten(text, base, outcomes) == replace_all(
            text,
            outcomes[k].0@,
            spec_replacement(base, a.asset_uuid@),
        ),
    decreases outcomes.len(),
{
    if k == 0 {
        let step = replace_all(text, outcomes[0].0@, spec_replacement(base, a.asset_uuid@));
        assert(forall|t: int|
            0 <= t < outcomes.skip(1).len() ==> !((#[trigger] outcomes.skip(1)[t]).1
                is Accepted)) by {
            assert(forall|t: int|
                0 <= t < outcomes.skip(1).len() ==> outcomes.skip(1)[t] == outcomes[t + 1]);
        }
        lemma_no_accepted_leaves_text(step, base, outcomes.skip(1));
    } else {
        assert(!(outcomes[0].1 is Accepted));
        assert(outcomes.skip(1)[k - 1] == outcomes[k]);
        assert(forall|t: int|
            0 <= t < outcomes.skip(1).len() && t != k - 1 ==> !((#[trigger] outcomes.skip(
                1,
            )[t]).1 is Accepted)) by {
            assert(forall|t: int|
                0 <= t < outcomes.skip(1).len() ==> outcomes.skip(1)[t] == outcomes[t + 1]);
        }
        lemma_single_accepted_rewrite(text, base, outcomes.skip(1), k - 1, a);
    }
}

/// A batch with one successful target among failed or rejected ones still
/// yields the successful asset, and the other targets' URLs stay verbatim
/// in the text wherever they do not overlap an occurrence of the rewritten
/// URL.
pub proof fn lemma_partial_failure(
    text: Seq<char>,
    base: Option<Seq<char>>,
    outcomes: Seq<(String, FetchOutcome)>,
    k: int,
    a: DownloadedAsset,
    failed_url: Seq<char>,
    i: int,
)
    requires
        0 <= k < outcomes.len(),
        outcomes[k].1 == FetchOutcome::Accepted(a),
        forall|t: int|
            0 <= t < outcomes.len() && t != k ==> !((#[trigger] outcomes[t]).1 is Accepted),
        crate::text::matches_at(text, failed_url, i),
        forall|p: int|
            crate::text::matches_at(text, outcomes[k].0@, p) ==> (p + outcomes[k].0@.len() <= i
                || p >= i + failed_url.len()),
    ensures
        spec_accepted(outcomes).contains(a),
        crate::text::contains_seq(spec_rewritten(text, base, outcomes), failed_url),
{
    lemma_accepted_record_present(outcomes, k, a);
    lemma_single_accepted_rewrite(text, base, outcomes, k, a);
    let u = outcomes[k].0@;
    let rep = spec_replacement(base, a.asset_uuid@);
    if u.len() == 0 {
        assert(replace_all(text, u, rep) == text);
    } else {
        crate::text::lemma_replace_all_preserves_disjoint(text, u, rep, failed_url, i);
    }
}

/// The URL strings of the outcome pairs, in order.
pub open spec fn spec_outcome_urls(outcomes: Seq<(String, FetchOutcome)>) -> Seq<Seq<char>> {
    outcomes.map_values(|p: (String, FetchOutcome)| p.0@)
}

/// Outcomes are consistent when each accepted record carries its own pair's
/// URL verbatim, as the fetcher produces them.
pub open spec fn spec_outcomes_consistent(outcomes: Seq<(String, FetchOutcome)>) -> bool {
    forall|k: int|
        0 <= k < outcomes.len() ==> match (#[trigger] outcomes[k]).1 {
            FetchOutcome::Accepted(a) => a.original_url@ == outcomes[k].0@,
            _ => true,
        }
}

/// Every record's source URL is one of the outcome URLs.
proof fn lemma_record_urls_among_outcomes(outcomes: Seq<(String, FetchOutcome)>, j: int)
    requires
        spec_outcomes_consistent(outcomes),
        0 <= j < spec_accepted(outcomes).len(),
    ensures
        spec_outcome_urls(outcomes).contains(spec_accepted(outcomes)[j].original_url@),
    decreases outcomes.len(),
{
    let urls = spec_outcome_urls(outcomes);
    let rest = outcomes.skip(1);
    assert(spec_outcome_urls(rest) =~= urls.skip(1));
    assert(spec_outcomes_consistent(rest)) by {
        assert(forall|k: int| 0 <= k < rest.len() ==> rest[k] == outcomes[k + 1]);
    }
    match outcomes[0].1 {
        FetchOutcome::Accepted(a) => {
            if j == 0 {
                assert(spec_accepted(outcomes)[0] == a);
                assert(urls[0] == a.original_url@);
            } else {
                lemma_record_urls_among_outcomes(rest, j - 1);
                let u = spec_accepted(rest)[j - 1].original_url@;
                let k = choose|k: int| 0 <= k < urls.skip(1).len() && urls.skip(1)[k] == u;
                assert(urls[k + 1] == u);
            }
        },
        _ => {
            lemma_record_urls_among_outcomes(rest, j);
            let u = spec_accepted(rest)[j].original_url@;
            let k = choose|k: int| 0 <= k < urls.skip(1).len() && urls.skip(1)[k] == u;
            assert(urls[k + 1] == u);
        },
    }
}

/// The records of one invocation name pairwise distinct source URLs: the
/// extractor deduplicates targets before the fan-out, each target gets one
/// outcome, and each accepted outcome contributes one record that carries
/// its target's URL verbatim.
pub proof fn lemma_record_urls_distinct(outcomes: Seq<(String, FetchOutcome)>)
    requires
        spec_outcomes_consistent(outcomes),
        spec_outcome_urls(outcomes).no_duplicates(),
    ensures
        forall|i: int, j: int|
            0 <= i < j < spec_accepted(outcomes).len() ==> (#[trigger] spec_accepted(
                outcomes,
            )[i]).original_url@ != (#[trigger] spec_accepted(outcomes)[j]).original_url@,
    decreases outcomes.len(),
{
    if outcomes.len() == 0 {
    } else {
        let urls = spec_outcome_urls(outcomes);
        let rest = outcomes.skip(1);
        assert(spec_outcome_urls(rest) =~= urls.skip(1));
        assert(spec_outcomes_consistent(rest)) by {
            assert(forall|k: int| 0 <= k < rest.len() ==> rest[k] == outcomes[k + 1]);
        }
        assert(spec_outcome_urls(rest).no_duplicates()) by {
            assert(forall|k: int| 0 <= k < urls.skip(1).len() ==> urls.skip(1)[k] == urls[k + 1]);
        }
        lemma_record_urls_distinct(rest);
        let recs = spec_accepted(outcomes);
        assert forall|i: int, j: int| 0 <= i < j < recs.len() implies (#[trigger] recs[i]).original_url@
            != (#[trigger] recs[j]).original_url@ by {
            match outcomes[0].1 {
                FetchOutcome::Accepted(a) => {
                    if i == 0 {
                        assert(recs[0] == a);
                        assert(recs[j] == spec_accepted(rest)[j - 1]);
                        lemma_record_urls_among_outcomes(rest, j - 1);
                        let u = spec_accepted(rest)[j - 1].original_url@;
                        let k = choose|k: int|
                            0 <= k < spec_outcome_urls(rest).len() && spec_outcome_urls(rest)[k]
                                == u;
                        assert(urls[k + 1] == u);
                        assert(urls[0] == a.original_url@);
                    } else {
                        assert(recs[i] == spec_accepted(rest)[i - 1]);
                        assert(recs[j] == spec_accepted(rest)[j - 1]);
                    }
                },
                _ => {
                    assert(recs[i] == spec_accepted(rest)[i]);
                    assert(recs[j] == spec_accepted(rest)[j]);
                },
            }
        }
    }
}

/// Without a configured base URL, the reference written in place of a
/// download is scope-relative, so a second extraction never takes it for a
/// remote reference again.
pub proof fn lemma_local_replacement_not_remote(id: Seq<char>)
    ensures
        !spec_is_remote(spec_replacement(None, id)),
{
    reveal_strlit("/api/assets/");
    let s = spec_replacement(None, id);
    assert(s[0] == '/');
    if spec_is_remote(s) {
        if crate::text::matches_at(s, crate::extract::http_prefix(), 0) {
            assert(s.subrange(0, 7)[0] == s[0]);
        } else {
            assert(s.subrange(0, 8)[0] == s[0]);
        }
    }
}

} // verus!
