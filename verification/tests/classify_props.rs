use journal_core::classify::classify;
use journal_core::classify::extension_for;
use journal_core::fetch::classify_response;
use journal_core::fetch::prefetch;
use journal_core::markdown_processor::RejectReason;

#[test]
fn allow_list_extensions() {
    assert_eq!(classify("image/jpeg"), Some("jpg".to_string()));
    assert_eq!(classify("image/png"), Some("png".to_string()));
    assert_eq!(classify("image/gif"), Some("gif".to_string()));
    assert_eq!(classify("image/svg+xml"), Some("svg".to_string()));
    assert_eq!(classify("application/pdf"), Some("pdf".to_string()));
}

#[test]
fn outside_allow_list_rejected() {
    assert_eq!(classify("text/html"), None);
    assert_eq!(classify("application/octet-stream"), None);
    assert_eq!(classify("image/webp"), None);
    assert_eq!(classify("not a mime type"), None);
    assert_eq!(classify(""), None);
}

#[test]
fn classify_normalizes_case_and_parameters() {
    assert_eq!(classify("IMAGE/PNG"), Some("png".to_string()));
    assert_eq!(classify("image/png; charset=utf-8"), Some("png".to_string()));
}

#[test]
fn extension_lookup_is_exact() {
    assert_eq!(extension_for("image", "png"), Some("png".to_string()));
    assert_eq!(extension_for("image", "pdf"), None);
    assert_eq!(extension_for("application", "png"), None);
    assert_eq!(extension_for("text", "plain"), None);
}

#[test]
fn response_with_success_and_allowed_type_is_accepted() {
    assert_eq!(classify_response(200, Some("image/png")), Ok("png".to_string()));
    assert_eq!(classify_response(299, Some("application/pdf")), Ok("pdf".to_string()));
}

#[test]
fn response_with_non_success_status_is_rejected() {
    assert_eq!(classify_response(404, Some("image/png")), Err(RejectReason::NonSuccessStatus));
    assert_eq!(classify_response(199, Some("image/png")), Err(RejectReason::NonSuccessStatus));
    assert_eq!(classify_response(300, Some("image/png")), Err(RejectReason::NonSuccessStatus));
    assert_eq!(classify_response(500, None), Err(RejectReason::NonSuccessStatus));
}

#[test]
fn response_with_unsupported_type_is_rejected() {
    assert_eq!(classify_response(200, Some("text/html")), Err(RejectReason::UnsupportedType));
    assert_eq!(classify_response(200, None), Err(RejectReason::UnsupportedType));
}

#[test]
fn prefetch_rejects_invalid_targets_without_network() {
    assert_eq!(prefetch("ftp://bad"), Some(RejectReason::InvalidUrl));
    assert_eq!(prefetch("https://bad url with spaces"), Some(RejectReason::InvalidUrl));
    assert_eq!(prefetch("not a url"), Some(RejectReason::InvalidUrl));
}

#[test]
fn prefetch_accepts_wellformed_remote_targets() {
    assert_eq!(prefetch("https://example.com/a.png"), None);
    assert_eq!(prefetch("http://example.com:8080/x?y=1"), None);
}
