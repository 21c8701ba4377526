use journal_core::extract::collect_reference_targets;
use journal_core::extract::is_remote_url;

#[test]
fn remote_url_schemes() {
    assert!(is_remote_url("http://example.com/a"));
    assert!(is_remote_url("https://example.com/a"));
    assert!(!is_remote_url("ftp://bad"));
    assert!(!is_remote_url("/relative/path.png"));
    assert!(!is_remote_url("mailto:someone@example.com"));
    assert!(!is_remote_url(""));
}

#[test]
fn extracts_image_and_link_destinations() {
    let text = "![x](https://ex.com/a.png) and [doc](http://ex.com/x.html)";
    let targets = collect_reference_targets(text);
    assert_eq!(targets, vec!["https://ex.com/a.png", "http://ex.com/x.html"]);
}

#[test]
fn ignores_non_remote_destinations() {
    let text = "![x](/local/a.png) [y](ftp://bad) [z](relative.md)";
    let targets = collect_reference_targets(text);
    assert!(targets.is_empty());
}

#[test]
fn deduplicates_repeated_urls_keeping_first() {
    let text = "[a](https://ex.com/a.png) [b](https://ex.com/b.png) [c](https://ex.com/a.png)";
    let targets = collect_reference_targets(text);
    assert_eq!(targets, vec!["https://ex.com/a.png", "https://ex.com/b.png"]);
}

#[test]
fn empty_text_has_no_targets() {
    assert!(collect_reference_targets("").is_empty());
}

#[test]
fn plain_text_has_no_targets() {
    let text = "no references here, only prose mentioning https://ex.com in passing";
    assert!(collect_reference_targets(text).is_empty());
}

#[test]
fn unclosed_destination_ends_scan() {
    let text = "[a](https://ex.com/a.png never closed";
    assert!(collect_reference_targets(text).is_empty());
}

#[test]
fn destination_stops_at_first_close_paren() {
    let text = "[a](https://ex.com/a(1).png)";
    let targets = collect_reference_targets(text);
    assert_eq!(targets, vec!["https://ex.com/a(1"]);
}

#[test]
fn multibyte_text_around_reference() {
    let text = "前言 ![圖](https://ex.com/圖.png) 後記";
    let targets = collect_reference_targets(text);
    assert_eq!(targets, vec!["https://ex.com/圖.png"]);
}
