//! Tests of the service's request, response and error types.

use html2pdf_api::ErrorResponse;
use html2pdf_api::HealthResponse;
use html2pdf_api::PdfFromHtmlRequest;
use html2pdf_api::PdfFromUrlRequest;
use html2pdf_api::PdfResponse;
use html2pdf_api::PdfServiceError;
use html2pdf_api::PoolStatsResponse;
use html2pdf_api::DEFAULT_TIMEOUT_SECS;
use html2pdf_api::DEFAULT_WAIT_SECS;
use html2pdf_api::JS_POLL_INTERVAL_MS;

#[test]
fn test_pdf_from_url_request_defaults() {
    let request = PdfFromUrlRequest::default();

    assert_eq!(request.filename_or_default(), "document.pdf");
    assert_eq!(request.wait_duration(), 5);
    assert!(!request.is_download());
    assert!(!request.is_landscape());
    assert!(request.print_background());
}

#[test]
fn test_pdf_from_url_request_custom_values() {
    let request = PdfFromUrlRequest {
        url: "https://example.com".to_string(),
        filename: Some("custom.pdf".to_string()),
        waitsecs: Some(10),
        landscape: Some(true),
        download: Some(true),
        print_background: Some(false),
    };

    assert_eq!(request.filename_or_default(), "custom.pdf");
    assert_eq!(request.wait_duration(), 10);
    assert!(request.is_download());
    assert!(request.is_landscape());
    assert!(!request.print_background());
}

#[test]
fn test_pdf_from_html_request_defaults() {
    let request = PdfFromHtmlRequest::default();

    assert_eq!(request.filename_or_default(), "document.pdf");
    assert_eq!(request.wait_duration(), 2); // Shorter default
    assert!(!request.is_download());
    assert!(!request.is_landscape());
    assert!(request.print_background());
}

#[test]
fn test_pdf_response_content_disposition() {
    let inline = PdfResponse::new(vec![], "doc.pdf".to_string(), false);
    assert_eq!(inline.content_disposition(), "inline; filename=\"doc.pdf\"");

    let attachment = PdfResponse::new(vec![], "doc.pdf".to_string(), true);
    assert_eq!(
        attachment.content_disposition(),
        "attachment; filename=\"doc.pdf\""
    );
}

#[test]
fn test_pdf_response_size() {
    let response = PdfResponse::new(vec![0; 1024], "doc.pdf".to_string(), false);
    assert_eq!(response.size(), 1024);
}

#[test]
fn test_error_status_codes() {
    assert_eq!(PdfServiceError::InvalidUrl("".to_string()).status_code(), 400);
    assert_eq!(PdfServiceError::EmptyHtml.status_code(), 400);
    assert_eq!(
        PdfServiceError::PoolLockFailed("".to_string()).status_code(),
        500
    );
    assert_eq!(
        PdfServiceError::BrowserUnavailable("".to_string()).status_code(),
        503
    );
    assert_eq!(
        PdfServiceError::NavigationFailed("".to_string()).status_code(),
        502
    );
    assert_eq!(
        PdfServiceError::NavigationTimeout("".to_string()).status_code(),
        504
    );
    assert_eq!(PdfServiceError::Timeout("".to_string()).status_code(), 504);
    assert_eq!(PdfServiceError::PoolShuttingDown.status_code(), 503);
}

#[test]
fn test_error_codes() {
    assert_eq!(
        PdfServiceError::InvalidUrl("".to_string()).error_code(),
        "INVALID_URL"
    );
    assert_eq!(PdfServiceError::EmptyHtml.error_code(), "EMPTY_HTML");
    assert_eq!(
        PdfServiceError::PoolShuttingDown.error_code(),
        "POOL_SHUTTING_DOWN"
    );
}

#[test]
fn test_error_retryable() {
    assert!(PdfServiceError::BrowserUnavailable("".to_string()).is_retryable());
    assert!(PdfServiceError::Timeout("".to_string()).is_retryable());
    assert!(!PdfServiceError::InvalidUrl("".to_string()).is_retryable());
    assert!(!PdfServiceError::EmptyHtml.is_retryable());
    assert!(!PdfServiceError::PoolShuttingDown.is_retryable());
}

#[test]
fn test_error_response_from_error() {
    let error = PdfServiceError::InvalidUrl("test error".to_string());
    let response = ErrorResponse::from(error);

    assert_eq!(response.code, "INVALID_URL");
    assert!(response.error.contains("Invalid URL"));
}

#[test]
fn test_health_response_default() {
    let response = HealthResponse::default();
    assert_eq!(response.status, "healthy");
    assert_eq!(response.service, "html2pdf-api");
}

/// Verify that the service types are all present.
#[test]
fn test_type_exports() {
    let _: PdfFromUrlRequest = PdfFromUrlRequest::default();
    let _: PdfFromHtmlRequest = PdfFromHtmlRequest::default();
    let _: PdfResponse = PdfResponse::new(vec![], "test.pdf".to_string(), false);
    let _: PoolStatsResponse = PoolStatsResponse {
        available: 0,
        active: 0,
        total: 0,
    };
    let _: HealthResponse = HealthResponse::default();
    let _: ErrorResponse = ErrorResponse {
        error: "e".to_string(),
        code: "C".to_string(),
    };
    let _: PdfServiceError = PdfServiceError::EmptyHtml;
}

/// Verify the exported timeout constants relate sensibly.
#[test]
fn test_constant_exports() {
    assert!(DEFAULT_TIMEOUT_SECS > 0);
    assert!(DEFAULT_WAIT_SECS > 0);
    assert!(DEFAULT_TIMEOUT_SECS >= DEFAULT_WAIT_SECS);
}

/// Verify the error-to-response conversion keeps message and code.
#[test]
fn test_error_to_response_conversion() {
    let error = PdfServiceError::InvalidUrl("missing scheme".to_string());
    let response = ErrorResponse::from(error);

    assert_eq!(response.code, "INVALID_URL");
    assert!(response.error.contains("Invalid URL"));
}

/// Verify service types exported at the crate root.
#[test]
fn test_service_types_exported() {
    let _: PdfFromUrlRequest = PdfFromUrlRequest::default();
    let _: PdfFromHtmlRequest = PdfFromHtmlRequest::default();
    let _: HealthResponse = HealthResponse::default();
}

#[test]
fn test_default_timeout_reasonable() {
    assert!(DEFAULT_TIMEOUT_SECS >= 30);
    assert!(DEFAULT_TIMEOUT_SECS <= 300);
}

#[test]
fn test_default_wait_reasonable() {
    assert!(DEFAULT_WAIT_SECS >= 1);
    assert!(DEFAULT_WAIT_SECS <= 30);
}

#[test]
fn test_poll_interval_reasonable() {
    assert!(JS_POLL_INTERVAL_MS >= 100);
    assert!(JS_POLL_INTERVAL_MS <= 1000);
}

/// Each error kind renders its exact message text.
#[test]
fn test_service_error_text() {
    assert_eq!(
        PdfServiceError::TabCreationFailed("no tab".to_string()).to_string(),
        "Failed to create tab: no tab"
    );
    assert_eq!(
        PdfServiceError::PdfGenerationFailed("render".to_string()).to_string(),
        "PDF generation failed: render"
    );
    assert_eq!(
        PdfServiceError::Internal("oops".to_string()).to_string(),
        "Internal error: oops"
    );
    assert_eq!(PdfServiceError::EmptyHtml.to_string(), "HTML content is required");
}
