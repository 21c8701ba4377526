//! Fetch decisions: everything the fetcher decides about one reference
//! target, separated from the network exchange itself. The caller asks
//! `prefetch` whether to issue the request at all, hands the response's
//! status and declared content type to `classify_response`, and builds the
//! asset record from the retrieved body with `build_asset`. A transport or
//! storage error becomes `FetchOutcome::Failed` with its message.
use vstd::prelude::*;

use crate::classify::classify;
use crate::classify::spec_classify;
use crate::extract::is_remote_url;
use crate::extract::spec_is_remote;
use crate::locate::compute_shard;
use crate::locate::fresh_asset_id;
use crate::locate::spec_asset_id_wf;
use crate::locate::spec_shard;
use crate::locate::spec_storage_path;
use crate::locate::storage_path;
use crate::markdown_processor::DownloadedAsset;
use crate::markdown_processor::RejectReason;

verus! {

/// Whether a string parses as a URL. Success is a pure function of the
/// string; the trusted wrapper below ties this name to the url crate.
pub uninterp spec fn spec_url_ok(s: Seq<char>) -> bool;

/// Relies on `url::Url::parse`: whether parsing succeeds depends on the
/// input string alone.
#[verifier::external_body]
fn url_parse_ok(s: &str) -> (r: bool)
    ensures
        r == spec_url_ok(s@),
{
    url::Url::parse(s).is_ok()
}

/// A target is fetchable when it is a remote reference and parses as a URL.
pub open spec fn spec_fetchable(s: Seq<char>) -> bool {
    spec_is_remote(s) && spec_url_ok(s)
}

/// Decides whether a network request is issued for this target: a target
/// that is not remote, or does not parse as a URL, is rejected as invalid
/// before any network call.
pub fn prefetch(url: &str) -> (r: Option<RejectReason>)
    ensures
        match r {
            Some(reason) => reason == RejectReason::InvalidUrl && !spec_fetchable(url@),
            None => spec_fetchable(url@),
        },
{
    if !is_remote_url(url) {
        return Some(RejectReason::InvalidUrl);
    }
    if !url_parse_ok(url) {
        return Some(RejectReason::InvalidUrl);
    }
    None
}

/// An HTTP status that counts as success.
pub open spec fn spec_status_success(status: int) -> bool {
    200 <= status < 300
}

/// What a declared content type (or its absence) classifies to.
pub open spec fn spec_declared_ext(ct: Option<Seq<char>>) -> Option<Seq<char>> {
    match ct {
        Some(s) => spec_classify(s),
        None => None,
    }
}

/// The view of an optional borrowed content type.
pub open spec fn view_opt_ct(ct: Option<&str>) -> Option<Seq<char>> {
    match ct {
        Some(s) => Some(s@),
        None => None,
    }
}

/// Decides the outcome of a completed HTTP exchange: a non-2xx status is
/// rejected as such; with a 2xx status, the declared content type must
/// classify to an allow-listed extension, which is returned; anything else
/// is rejected as unsupported.
pub fn classify_response(status: u16, content_type: Option<&str>) -> (r: Result<
    String,
    RejectReason,
>)
    ensures
        match r {
            Ok(ext) => spec_status_success(status as int) && spec_declared_ext(
                view_opt_ct(content_type),
            ) == Some(ext@),
            Err(reason) => if reason == RejectReason::NonSuccessStatus {
                !spec_status_success(status as int)
            } else {
                reason == RejectReason::UnsupportedType && spec_status_success(status as int)
                    && spec_declared_ext(view_opt_ct(content_type)) is None
            },
        },
{
    if status < 200 || status >= 300 {
        return Err(RejectReason::NonSuccessStatus);
    }
    match content_type {
        Some(ct) => match classify(ct) {
            Some(ext) => Ok(ext),
            None => Err(RejectReason::UnsupportedType),
        },
        None => Err(RejectReason::UnsupportedType),
    }
}

/// Builds the asset record for one accepted download: a fresh identifier, the
/// deterministic shard for the scope and source URL, the storage path
/// assembled from the three parts, the source URL kept verbatim, and the
/// body length as the stored size.
pub fn build_asset(
    url: &str,
    post_id: i32,
    ext: &str,
    content_type: Option<String>,
    body_len: usize,
) -> (a: DownloadedAsset)
    requires
        body_len <= i64::MAX as usize,
    ensures
        a.original_url@ == url@,
        spec_asset_id_wf(a.asset_uuid@),
        a.file_path@ == spec_storage_path(
            spec_shard(post_id as int, url@),
            a.asset_uuid@,
            ext@,
        ),
        a.content_type == content_type,
        a.file_size == body_len as i64,
        spec_located(a),
{
    let asset_uuid = fresh_asset_id();
    let shard = compute_shard(post_id, url);
    let file_path = storage_path(shard.as_str(), asset_uuid.as_str(), ext);
    let a = DownloadedAsset {
        asset_uuid,
        original_url: url.to_owned(),
        file_path,
        content_type,
        file_size: body_len as i64,
    };
    proof {
        let shard_w = spec_shard(post_id as int, url@);
        assert(shard_w.len() == 16 && a.file_path@ == spec_storage_path(
            shard_w,
            a.asset_uuid@,
            ext@,
        ));
    }
    a
}

/// An asset record whose path has the locator's shape: a 16-character shard
/// directory, then the file named by the record's own identifier.
pub open spec fn spec_located(a: DownloadedAsset) -> bool {
    exists|shard: Seq<char>, ext: Seq<char>|
        shard.len() == 16 && a.file_path@ == spec_storage_path(shard, a.asset_uuid@, ext)
}

/// Two located records with distinct identifiers occupy distinct storage
/// paths: within one invocation fresh identifiers keep every stored file
/// independently addressable, whatever shards and extensions are involved.
pub proof fn lemma_distinct_ids_distinct_paths(a: DownloadedAsset, b: DownloadedAsset)
    requires
        spec_located(a),
        spec_located(b),
        a.asset_uuid@.len() == 36,
        b.asset_uuid@.len() == 36,
        a.asset_uuid@ != b.asset_uuid@,
    ensures
        a.file_path@ != b.file_path@,
{
    let (shard_a, ext_a) = choose|shard: Seq<char>, ext: Seq<char>|
        shard.len() == 16 && a.file_path@ == spec_storage_path(shard, a.asset_uuid@, ext);
    let (shard_b, ext_b) = choose|shard: Seq<char>, ext: Seq<char>|
        shard.len() == 16 && b.file_path@ == spec_storage_path(shard, b.asset_uuid@, ext);
    crate::locate::lemma_storage_paths_distinct(
        shard_a,
        a.asset_uuid@,
        ext_a,
        shard_b,
        b.asset_uuid@,
        ext_b,
    );
}

} // verus!
