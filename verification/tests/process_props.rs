use journal_core::extract::collect_reference_targets;
use journal_core::fetch::build_asset;
use journal_core::fetch::classify_response;
use journal_core::markdown_processor::process_markdown;
use journal_core::markdown_processor::replacement_for;
use journal_core::markdown_processor::DownloadedAsset;
use journal_core::markdown_processor::FetchOutcome;
use journal_core::markdown_processor::RejectReason;

fn occurrences(text: &str, needle: &str) -> usize {
    text.matches(needle).count()
}

#[test]
fn no_references_text_unchanged_and_no_records() {
    let text = "plain prose, no markdown references at all";
    let targets = collect_reference_targets(text);
    assert!(targets.is_empty());
    let (out, assets) = process_markdown(text, None, Vec::new());
    assert_eq!(out, text);
    assert!(assets.is_empty());
}

#[test]
fn accepted_image_is_rewritten_and_recorded() {
    let url = "https://ex.com/a.png";
    let text = "![x](https://ex.com/a.png)";
    let ext = classify_response(200, Some("image/png")).unwrap();
    let asset = build_asset(url, 7, &ext, Some("image/png".to_string()), 3);
    let id = asset.asset_uuid.clone();
    let path = asset.file_path.clone();
    let outcomes = vec![(url.to_string(), FetchOutcome::Accepted(asset))];
    let (out, assets) = process_markdown(text, None, outcomes);
    assert_eq!(out, format!("![x](/api/assets/{})", id));
    assert_eq!(assets.len(), 1);
    assert_eq!(assets[0].original_url, url);
    assert_eq!(assets[0].file_size, 3);
    assert_eq!(assets[0].file_path, path);
    assert_eq!(path, format!("9d4df26e97410bdd/{}.png", id));
}

#[test]
fn rejected_html_leaves_text_unchanged() {
    let url = "https://ex.com/x.html";
    let text = "[doc](https://ex.com/x.html)";
    let decision = classify_response(200, Some("text/html"));
    assert_eq!(decision, Err(RejectReason::UnsupportedType));
    let outcomes = vec![(
        url.to_string(),
        FetchOutcome::Rejected(RejectReason::UnsupportedType),
    )];
    let (out, assets) = process_markdown(text, None, outcomes);
    assert_eq!(out, text);
    assert!(assets.is_empty());
}

#[test]
fn malformed_target_stays_verbatim() {
    let text = "[bad](ftp://bad) stays";
    let targets = collect_reference_targets(text);
    assert!(targets.is_empty());
    let (out, assets) = process_markdown(text, None, Vec::new());
    assert_eq!(out, text);
    assert!(assets.is_empty());
}

#[test]
fn partial_failure_keeps_successful_asset_and_failing_url() {
    let ok_url = "https://ex.com/a.png";
    let bad_url = "https://slow.example/b.pdf";
    let text = "![a](https://ex.com/a.png) [b](https://slow.example/b.pdf)";
    let asset = build_asset(ok_url, 1, "png", Some("image/png".to_string()), 10);
    let id = asset.asset_uuid.clone();
    let outcomes = vec![
        (bad_url.to_string(), FetchOutcome::Failed("timed out".to_string())),
        (ok_url.to_string(), FetchOutcome::Accepted(asset)),
    ];
    let (out, assets) = process_markdown(text, None, outcomes);
    assert_eq!(assets.len(), 1);
    assert_eq!(assets[0].original_url, ok_url);
    assert_eq!(occurrences(&out, bad_url), 1);
    assert_eq!(occurrences(&out, ok_url), 0);
    assert_eq!(occurrences(&out, &format!("/api/assets/{}", id)), 1);
}

#[test]
fn duplicate_url_rewritten_at_both_occurrences() {
    let url = "https://ex.com/a.png";
    let text = "![a](https://ex.com/a.png) then ![b](https://ex.com/a.png)";
    let targets = collect_reference_targets(text);
    assert_eq!(targets.len(), 1);
    let asset = build_asset(url, 2, "png", Some("image/png".to_string()), 5);
    let id = asset.asset_uuid.clone();
    let outcomes = vec![(url.to_string(), FetchOutcome::Accepted(asset))];
    let (out, assets) = process_markdown(text, None, outcomes);
    assert_eq!(assets.len(), 1);
    assert_eq!(occurrences(&out, url), 0);
    assert_eq!(occurrences(&out, &format!("/api/assets/{}", id)), 2);
}

#[test]
fn rewritten_text_extracts_no_remote_references() {
    let url = "https://ex.com/a.png";
    let text = "![a](https://ex.com/a.png)";
    let asset = build_asset(url, 3, "png", None, 1);
    let outcomes = vec![(url.to_string(), FetchOutcome::Accepted(asset))];
    let (out, _) = process_markdown(text, None, outcomes);
    assert!(collect_reference_targets(&out).is_empty());
}

#[test]
fn base_url_prefixes_replacement() {
    let url = "https://ex.com/a.png";
    let text = "![a](https://ex.com/a.png)";
    let asset = build_asset(url, 4, "png", None, 1);
    let id = asset.asset_uuid.clone();
    let outcomes = vec![(url.to_string(), FetchOutcome::Accepted(asset))];
    let (out, _) = process_markdown(text, Some("https://cdn.example"), outcomes);
    assert_eq!(out, format!("![a](https://cdn.example/api/assets/{})", id));
}

#[test]
fn replacement_path_shapes() {
    assert_eq!(replacement_for(None, "abc"), "/api/assets/abc");
    assert_eq!(replacement_for(Some("https://h.example"), "abc"), "https://h.example/api/assets/abc");
    assert_eq!(replacement_for(Some(""), "abc"), "/api/assets/abc");
}

#[test]
fn outcome_order_drives_record_order() {
    let a1 = build_asset("https://ex.com/1.gif", 9, "gif", None, 1);
    let a2 = build_asset("https://ex.com/2.gif", 9, "gif", None, 2);
    let id1 = a1.asset_uuid.clone();
    let id2 = a2.asset_uuid.clone();
    let outcomes = vec![
        ("https://ex.com/1.gif".to_string(), FetchOutcome::Accepted(a1)),
        ("https://ex.com/2.gif".to_string(), FetchOutcome::Accepted(a2)),
    ];
    let (_, assets) = process_markdown("no refs in text", None, outcomes);
    assert_eq!(assets.len(), 2);
    assert_eq!(assets[0].asset_uuid, id1);
    assert_eq!(assets[1].asset_uuid, id2);
    assert_ne!(assets[0].asset_uuid, assets[1].asset_uuid);
    assert_ne!(assets[0].file_path, assets[1].file_path);
}

#[test]
fn fresh_ids_differ_across_builds_for_same_source() {
    let a1 = build_asset("https://ex.com/a.png", 7, "png", None, 3);
    let a2 = build_asset("https://ex.com/a.png", 7, "png", None, 3);
    assert_ne!(a1.asset_uuid, a2.asset_uuid);
    assert_ne!(a1.file_path, a2.file_path);
    let shard1: &str = a1.file_path.split('/').next().unwrap();
    let shard2: &str = a2.file_path.split('/').next().unwrap();
    assert_eq!(shard1, shard2);
    assert_eq!(shard1, "9d4df26e97410bdd");
}

#[test]
fn failed_outcome_carries_its_message() {
    let oc = FetchOutcome::Failed("connection reset".to_string());
    match oc {
        FetchOutcome::Failed(msg) => assert_eq!(msg, "connection reset"),
        _ => panic!("expected a failure"),
    }
}

#[test]
fn asset_record_fields_round_trip() {
    let a = DownloadedAsset {
        asset_uuid: "u".to_string(),
        original_url: "o".to_string(),
        file_path: "p".to_string(),
        content_type: Some("image/png".to_string()),
        file_size: 11,
    };
    let b = a.clone();
    assert_eq!(b.asset_uuid, "u");
    assert_eq!(b.original_url, "o");
    assert_eq!(b.file_path, "p");
    assert_eq!(b.content_type, Some("image/png".to_string()));
    assert_eq!(b.file_size, 11);
}
