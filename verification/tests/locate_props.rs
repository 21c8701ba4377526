use journal_core::locate::bytes_to_hex;
use journal_core::locate::compute_shard;
use journal_core::locate::storage_path;
use journal_core::models::default_limit;
use journal_core::models::default_page;
use journal_core::models::Pagination;
use journal_core::models::Post;
use journal_core::models::PostResponse;

#[test]
fn hex_rendering_of_bytes() {
    assert_eq!(bytes_to_hex(&vec![]), "");
    assert_eq!(bytes_to_hex(&vec![0x00, 0xff, 0x1a]), "00ff1a");
    assert_eq!(bytes_to_hex(&vec![0xab, 0xcd]), "abcd");
}

#[test]
fn shard_matches_known_digest_prefix() {
    // The shard key "0:https://ex.com/a.png" digests to a fixed value; the
    // shard is its first 16 hex characters.
    assert_eq!(compute_shard(0, "https://ex.com/a.png"), "8865c8c12aff76c3");
}

#[test]
fn shard_is_deterministic_per_scope_and_url() {
    let s1 = compute_shard(7, "https://ex.com/a.png");
    let s2 = compute_shard(7, "https://ex.com/a.png");
    assert_eq!(s1, s2);
    assert_eq!(s1, "9d4df26e97410bdd");
    assert_eq!(s1.len(), 16);
}

#[test]
fn shard_differs_across_scopes() {
    let s1 = compute_shard(7, "https://ex.com/a.png");
    let s2 = compute_shard(0, "https://ex.com/a.png");
    assert_ne!(s1, s2);
}

#[test]
fn shard_handles_negative_scope_identifiers() {
    assert_eq!(compute_shard(-3, "https://ex.com/b.gif"), "8417bfddbd9e4077");
}

#[test]
fn asset_id_has_hyphenated_shape() {
    let asset = journal_core::fetch::build_asset("https://ex.com/a.png", 1, "png", None, 0);
    let id = asset.asset_uuid;
    assert_eq!(id.len(), 36);
    let chars: Vec<char> = id.chars().collect();
    for (k, c) in chars.iter().enumerate() {
        if k == 8 || k == 13 || k == 18 || k == 23 {
            assert_eq!(*c, '-');
        } else {
            assert!(c.is_ascii_hexdigit() && !c.is_ascii_uppercase());
        }
    }
}

#[test]
fn storage_path_layout() {
    assert_eq!(storage_path("shardshardshard1", "some-id", "png"), "shardshardshard1/some-id.png");
}

#[test]
fn pagination_defaults() {
    assert_eq!(default_page(), 1);
    assert_eq!(default_limit(), 10);
    let p = Pagination::default();
    assert_eq!(p, Pagination { page: 1, limit: 10 });
}

#[test]
fn post_response_drops_internal_id() {
    let post = Post {
        id: 5,
        uuid: "11111111-2222-3333-4444-555555555555".to_string(),
        title: "t".to_string(),
        content: "c".to_string(),
        created_at: 1700000000,
    };
    let r = PostResponse::from(post);
    assert_eq!(r.uuid, "11111111-2222-3333-4444-555555555555");
    assert_eq!(r.title, "t");
    assert_eq!(r.content, "c");
    assert_eq!(r.created_at, 1700000000);
}
