//! Tests of URL validation, data-URL encoding and URL truncation.

use html2pdf_api::service::html_to_data_url;
use html2pdf_api::service::truncate_url;
use html2pdf_api::service::validate_url;
use html2pdf_api::PdfServiceError;

#[test]
fn test_validate_url_valid_https() {
    let result = validate_url("https://example.com");
    assert!(result.is_ok());
    assert_eq!(result.unwrap(), "https://example.com/");
}

#[test]
fn test_validate_url_valid_http() {
    let result = validate_url("http://example.com/path?query=value");
    assert!(result.is_ok());
}

#[test]
fn test_validate_url_valid_with_port() {
    let result = validate_url("http://localhost:3000/api");
    assert!(result.is_ok());
}

#[test]
fn test_validate_url_empty() {
    let result = validate_url("");
    assert!(matches!(result, Err(PdfServiceError::InvalidUrl(_))));
}

#[test]
fn test_validate_url_whitespace_only() {
    let result = validate_url("   ");
    assert!(matches!(result, Err(PdfServiceError::InvalidUrl(_))));
}

#[test]
fn test_validate_url_no_scheme() {
    let result = validate_url("example.com");
    assert!(matches!(result, Err(PdfServiceError::InvalidUrl(_))));
}

#[test]
fn test_validate_url_relative() {
    let result = validate_url("/path/to/page");
    assert!(matches!(result, Err(PdfServiceError::InvalidUrl(_))));
}

#[test]
fn test_validate_url_data_url() {
    let result = validate_url("data:text/html,<h1>Hello</h1>");
    assert!(result.is_ok());
}

#[test]
fn test_truncate_url_short() {
    let url = "https://example.com";
    assert_eq!(truncate_url(url, 50), url);
}

#[test]
fn test_truncate_url_long() {
    let url = "https://example.com/very/long/path/that/exceeds/the/maximum/length";
    let truncated = truncate_url(url, 30);
    assert_eq!(truncated.len(), 33); // 30 + "..."
    assert!(truncated.ends_with("..."));
}

#[test]
fn test_truncate_url_exact_length() {
    let url = "https://example.com";
    assert_eq!(truncate_url(url, url.len()), url);
}

/// The data URL carries the fixed prefix and really percent-encodes the
/// document (an unchanged pass-through would fail here).
#[test]
fn test_html_to_data_url_encodes() {
    let data_url = html_to_data_url("<h1>Hi & bye</h1>");
    assert_eq!(
        data_url,
        "data:text/html;charset=utf-8,%3Ch1%3EHi%20%26%20bye%3C%2Fh1%3E"
    );
}

/// Empty HTML still yields just the prefix.
#[test]
fn test_html_to_data_url_empty() {
    assert_eq!(html_to_data_url(""), "data:text/html;charset=utf-8,");
}

/// Validation normalizes (the parser's serialized form comes back, not the
/// input text).
#[test]
fn test_validate_url_normalizes() {
    let result = validate_url("HTTPS://EXAMPLE.com:443/a/../b");
    assert_eq!(result.unwrap(), "https://example.com/b");
}

/// The blank rejection carries its fixed message.
#[test]
fn test_validate_url_blank_message() {
    match validate_url(" \t\n") {
        Err(PdfServiceError::InvalidUrl(m)) => assert_eq!(m, "URL is required"),
        other => panic!("expected InvalidUrl, got {:?}", other),
    }
}

/// Truncation counts characters, so a multi-byte text is cut safely.
#[test]
fn test_truncate_url_multibyte() {
    let url = "https://példa.hu/útvonal";
    let truncated = truncate_url(url, 10);
    assert_eq!(truncated, "https://pé...");
}
