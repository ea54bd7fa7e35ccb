//! Framework-agnostic types and checks of the PDF generation service.
//!
//! The pool converts a URL or an inline HTML document into a PDF by driving
//! a leased browser.  What stands here is the part of that service that
//! computes on plain values: the request and response records with their
//! defaults, the error taxonomy with its HTTP mapping, URL validation and
//! the data-URL encoding of inline HTML.  Driving the browser itself is
//! I/O and lives with the process around the library.

use vstd::prelude::*;

verus! {

/// Cap on one whole PDF generation operation, in seconds.
pub const DEFAULT_TIMEOUT_SECS: u64 = 60;

/// Default wait for a page's JavaScript before printing, in seconds.
pub const DEFAULT_WAIT_SECS: u64 = 5;

/// Interval at which the page is polled for its readiness flag, in
/// milliseconds.
pub const JS_POLL_INTERVAL_MS: u64 = 200;

/// What a URL-to-PDF request normalizes to when parsing succeeds, as the
/// `url` crate serializes it; `None` when the text is not a valid URL.
/// The result depends on the characters of the input alone.
pub uninterp spec fn spec_url_parse(s: Seq<char>) -> Option<Seq<char>>;

/// The percent-encoding of `s`, as the `urlencoding` crate produces it.
/// The result depends on the characters of the input alone.
pub uninterp spec fn spec_percent_encoded(s: Seq<char>) -> Seq<char>;

/// Relies on `url::Url::parse` and `url::Url::to_string`: parsing depends
/// on the input string alone, and a success serializes to the normalized
/// form of the URL.  A failure carries the parser's message.
#[verifier::external_body]
fn parse_url(s: &str) -> (r: Result<String, String>)
    ensures
        r matches Ok(t) ==> (spec_url_parse(s@) matches Some(v) && t@ == v),
        (r is Err) <==> (spec_url_parse(s@) is None),
{
    match url::Url::parse(s) {
        Ok(u) => Ok(u.to_string()),
        Err(e) => Err(e.to_string()),
    }
}

/// Relies on `urlencoding::encode`: the percent-encoding of a string
/// depends on its characters alone, and an empty string stays empty.
#[verifier::external_body]
fn encode_component(s: &str) -> (r: String)
    ensures
        r@ == spec_percent_encoded(s@),
        s@.len() == 0 ==> r@.len() == 0,
{
    urlencoding::encode(s).into_owned()
}

/// Whether every character of `s` is blank (space, tab or line break);
/// true of the empty text.
pub open spec fn spec_blank(s: Seq<char>) -> bool {
    forall|i: int|
        0 <= i < s.len() ==> (s[i] == ' ' || s[i] == '\t' || s[i] == '\n' || s[i] == '\r')
}

/// Whether `s` holds nothing but blanks.
fn is_blank(s: &str) -> (r: bool)
    ensures
        r == spec_blank(s@),
{
    let n = s.unicode_len();
    let mut i: usize = 0;
    while i < n
        invariant
            n == s@.len(),
            i <= n,
            forall|j: int|
                0 <= j < i ==> (s@[j] == ' ' || s@[j] == '\t' || s@[j] == '\n' || s@[j] == '\r'),
        decreases n - i,
    {
        let c = s.get_char(i);
        if !(c == ' ' || c == '\t' || c == '\n' || c == '\r') {
            return false;
        }
        i = i + 1;
    }
    true
}

/// Errors that can occur during PDF generation, each mapped to an HTTP
/// status and a stable machine-readable code.
#[derive(Debug, Clone)]
pub enum PdfServiceError {
    /// The provided URL is empty or malformed.
    InvalidUrl(String),
    /// The HTML content is empty or blank.
    EmptyHtml,
    /// The browser pool's lock could not be taken.
    PoolLockFailed(String),
    /// No browser could be obtained from the pool.
    BrowserUnavailable(String),
    /// The browser could not open a new tab.
    TabCreationFailed(String),
    /// The browser could not load the target URL.
    NavigationFailed(String),
    /// Loading the target URL took too long.
    NavigationTimeout(String),
    /// The loaded page could not be printed to a PDF.
    PdfGenerationFailed(String),
    /// The operation as a whole took too long.
    Timeout(String),
    /// The browser pool is shutting down.
    PoolShuttingDown,
    /// An unexpected internal error.
    Internal(String),
}

/// The text `err.to_string()` produces for each failure kind.
pub open spec fn spec_service_error_text(e: PdfServiceError) -> Seq<char> {
    match e {
        PdfServiceError::InvalidUrl(m) => "Invalid URL: "@ + m@,
        PdfServiceError::EmptyHtml => "HTML content is required"@,
        PdfServiceError::PoolLockFailed(m) => "Failed to lock pool: "@ + m@,
        PdfServiceError::BrowserUnavailable(m) => "Browser unavailable: "@ + m@,
        PdfServiceError::TabCreationFailed(m) => "Failed to create tab: "@ + m@,
        PdfServiceError::NavigationFailed(m) => "Navigation failed: "@ + m@,
        PdfServiceError::NavigationTimeout(m) => "Navigation timeout: "@ + m@,
        PdfServiceError::PdfGenerationFailed(m) => "PDF generation failed: "@ + m@,
        PdfServiceError::Timeout(m) => "Operation timeout: "@ + m@,
        PdfServiceError::PoolShuttingDown => "Pool is shutting down"@,
        PdfServiceError::Internal(m) => "Internal error: "@ + m@,
    }
}

/// The HTTP status each failure kind maps to.
pub open spec fn spec_status_code(e: PdfServiceError) -> u16 {
    match e {
        PdfServiceError::InvalidUrl(_) => 400,
        PdfServiceError::EmptyHtml => 400,
        PdfServiceError::PoolLockFailed(_) => 500,
        PdfServiceError::TabCreationFailed(_) => 500,
        PdfServiceError::Internal(_) => 500,
        PdfServiceError::NavigationFailed(_) => 502,
        PdfServiceError::PdfGenerationFailed(_) => 502,
        PdfServiceError::BrowserUnavailable(_) => 503,
        PdfServiceError::PoolShuttingDown => 503,
        PdfServiceError::NavigationTimeout(_) => 504,
        PdfServiceError::Timeout(_) => 504,
    }
}

/// The stable machine-readable code of each failure kind.
pub open spec fn spec_error_code(e: PdfServiceError) -> Seq<char> {
    match e {
        PdfServiceError::InvalidUrl(_) => "INVALID_URL"@,
        PdfServiceError::EmptyHtml => "EMPTY_HTML"@,
        PdfServiceError::PoolLockFailed(_) => "POOL_LOCK_FAILED"@,
        PdfServiceError::BrowserUnavailable(_) => "BROWSER_UNAVAILABLE"@,
        PdfServiceError::TabCreationFailed(_) => "TAB_CREATION_FAILED"@,
        PdfServiceError::NavigationFailed(_) => "NAVIGATION_FAILED"@,
        PdfServiceError::NavigationTimeout(_) => "NAVIGATION_TIMEOUT"@,
        PdfServiceError::PdfGenerationFailed(_) => "PDF_GENERATION_FAILED"@,
        PdfServiceError::Timeout(_) => "TIMEOUT"@,
        PdfServiceError::PoolShuttingDown => "POOL_SHUTTING_DOWN"@,
        PdfServiceError::Internal(_) => "INTERNAL_ERROR"@,
    }
}

/// Whether a failure kind is transient and worth retrying.
pub open spec fn spec_is_retryable(e: PdfServiceError) -> bool {
    match e {
        PdfServiceError::BrowserUnavailable(_) => true,
        PdfServiceError::NavigationTimeout(_) => true,
        PdfServiceError::Timeout(_) => true,
        PdfServiceError::PoolLockFailed(_) => true,
        PdfServiceError::TabCreationFailed(_) => true,
        PdfServiceError::NavigationFailed(_) => true,
        PdfServiceError::PdfGenerationFailed(_) => true,
        PdfServiceError::InvalidUrl(_) => false,
        PdfServiceError::EmptyHtml => false,
        PdfServiceError::PoolShuttingDown => false,
        PdfServiceError::Internal(_) => false,
    }
}

impl PdfServiceError {
    /// Render the error as one line of text.
    pub fn to_string(&self) -> (r: String)
        ensures
            r@ == spec_service_error_text(*self),
    {
        match self {
            PdfServiceError::InvalidUrl(m) => {
                let mut s = String::from_str("Invalid URL: ");
                s.append(m.as_str());
                s
            },
            PdfServiceError::EmptyHtml => String::from_str("HTML content is required"),
            PdfServiceError::PoolLockFailed(m) => {
                let mut s = String::from_str("Failed to lock pool: ");
                s.append(m.as_str());
                s
            },
            PdfServiceError::BrowserUnavailable(m) => {
                let mut s = String::from_str("Browser unavailable: ");
                s.append(m.as_str());
                s
            },
            PdfServiceError::TabCreationFailed(m) => {
                let mut s = String::from_str("Failed to create tab: ");
                s.append(m.as_str());
                s
            },
            PdfServiceError::NavigationFailed(m) => {
                let mut s = String::from_str("Navigation failed: ");
                s.append(m.as_str());
                s
            },
            PdfServiceError::NavigationTimeout(m) => {
                let mut s = String::from_str("Navigation timeout: ");
                s.append(m.as_str());
                s
            },
            PdfServiceError::PdfGenerationFailed(m) => {
                let mut s = String::from_str("PDF generation failed: ");
                s.append(m.as_str());
                s
            },
            PdfServiceError::Timeout(m) => {
                let mut s = String::from_str("Operation timeout: ");
                s.append(m.as_str());
                s
            },
            PdfServiceError::PoolShuttingDown => String::from_str("Pool is shutting down"),
            PdfServiceError::Internal(m) => {
                let mut s = String::from_str("Internal error: ");
                s.append(m.as_str());
                s
            },
        }
    }

    /// The HTTP status code this error maps to.
    pub fn status_code(&self) -> (r: u16)
        ensures
            r == spec_status_code(*self),
    {
        match self {
            PdfServiceError::InvalidUrl(_) => 400,
            PdfServiceError::EmptyHtml => 400,
            PdfServiceError::PoolLockFailed(_) => 500,
            PdfServiceError::TabCreationFailed(_) => 500,
            PdfServiceError::Internal(_) => 500,
            PdfServiceError::NavigationFailed(_) => 502,
            PdfServiceError::PdfGenerationFailed(_) => 502,
            PdfServiceError::BrowserUnavailable(_) => 503,
            PdfServiceError::PoolShuttingDown => 503,
            PdfServiceError::NavigationTimeout(_) => 504,
            PdfServiceError::Timeout(_) => 504,
        }
    }

    /// The stable machine-readable code of this error.
    pub fn error_code(&self) -> (r: &'static str)
        ensures
            r@ == spec_error_code(*self),
    {
        match self {
            PdfServiceError::InvalidUrl(_) => "INVALID_URL",
            PdfServiceError::EmptyHtml => "EMPTY_HTML",
            PdfServiceError::PoolLockFailed(_) => "POOL_LOCK_FAILED",
            PdfServiceError::BrowserUnavailable(_) => "BROWSER_UNAVAILABLE",
            PdfServiceError::TabCreationFailed(_) => "TAB_CREATION_FAILED",
            PdfServiceError::NavigationFailed(_) => "NAVIGATION_FAILED",
            PdfServiceError::NavigationTimeout(_) => "NAVIGATION_TIMEOUT",
            PdfServiceError::PdfGenerationFailed(_) => "PDF_GENERATION_FAILED",
            PdfServiceError::Timeout(_) => "TIMEOUT",
            PdfServiceError::PoolShuttingDown => "POOL_SHUTTING_DOWN",
            PdfServiceError::Internal(_) => "INTERNAL_ERROR",
        }
    }

    /// Whether the error is transient and worth retrying.
    pub fn is_retryable(&self) -> (r: bool)
        ensures
            r == spec_is_retryable(*self),
    {
        match self {
            PdfServiceError::BrowserUnavailable(_) => true,
            PdfServiceError::NavigationTimeout(_) => true,
            PdfServiceError::Timeout(_) => true,
            PdfServiceError::PoolLockFailed(_) => true,
            PdfServiceError::TabCreationFailed(_) => true,
            PdfServiceError::NavigationFailed(_) => true,
            PdfServiceError::PdfGenerationFailed(_) => true,
            PdfServiceError::InvalidUrl(_) => false,
            PdfServiceError::EmptyHtml => false,
            PdfServiceError::PoolShuttingDown => false,
            PdfServiceError::Internal(_) => false,
        }
    }
}

/// Parameters of a URL-to-PDF conversion.
#[derive(Debug, Clone)]
pub struct PdfFromUrlRequest {
    /// The URL to convert; must parse as an absolute URL.
    pub url: String,
    /// Output filename for the Content-Disposition header.
    pub filename: Option<String>,
    /// Seconds to wait for the page's JavaScript.
    pub waitsecs: Option<u64>,
    /// Landscape page orientation.
    pub landscape: Option<bool>,
    /// Force a download instead of inline display.
    pub download: Option<bool>,
    /// Include background colors and images.
    pub print_background: Option<bool>,
}

impl Default for PdfFromUrlRequest {
    /// An empty request: no URL and every option left to its default.
    fn default() -> (r: PdfFromUrlRequest)
        ensures
            r.url@.len() == 0,
            r.filename is None,
            r.waitsecs is None,
            r.landscape is None,
            r.download is None,
            r.print_background is None,
    {
        PdfFromUrlRequest {
            url: String::new(),
            filename: None,
            waitsecs: None,
            landscape: None,
            download: None,
            print_background: None,
        }
    }
}

impl PdfFromUrlRequest {
    /// The filename to use, `"document.pdf"` when none was given.
    pub fn filename_or_default(&self) -> (r: String)
        ensures
            self.filename matches Some(f) ==> r@ == f@,
            self.filename is None ==> r@ == "document.pdf"@,
    {
        match &self.filename {
            Some(f) => String::from_str(f.as_str()),
            None => String::from_str("document.pdf"),
        }
    }

    /// Seconds to wait for JavaScript; five when none was given.
    pub fn wait_duration(&self) -> (r: u64)
        ensures
            self.waitsecs matches Some(w) ==> r == w,
            self.waitsecs is None ==> r == DEFAULT_WAIT_SECS,
    {
        match self.waitsecs {
            Some(w) => w,
            None => DEFAULT_WAIT_SECS,
        }
    }

    /// Whether the response should force a download; off by default.
    pub fn is_download(&self) -> (r: bool)
        ensures
            r == (self.download matches Some(true)),
    {
        match self.download {
            Some(d) => d,
            None => false,
        }
    }

    /// Whether to print in landscape orientation; off by default.
    pub fn is_landscape(&self) -> (r: bool)
        ensures
            r == (self.landscape matches Some(true)),
    {
        match self.landscape {
            Some(l) => l,
            None => false,
        }
    }

    /// Whether to print background graphics; on by default.
    pub fn print_background(&self) -> (r: bool)
        ensures
            r == !(self.print_background matches Some(false)),
    {
        match self.print_background {
            Some(p) => p,
            None => true,
        }
    }
}

/// Parameters of an HTML-to-PDF conversion.
#[derive(Debug, Clone)]
pub struct PdfFromHtmlRequest {
    /// The HTML document or fragment to convert; must not be blank.
    pub html: String,
    /// Output filename for the Content-Disposition header.
    pub filename: Option<String>,
    /// Seconds to wait for the page's JavaScript.
    pub waitsecs: Option<u64>,
    /// Landscape page orientation.
    pub landscape: Option<bool>,
    /// Force a download instead of inline display.
    pub download: Option<bool>,
    /// Include background colors and images.
    pub print_background: Option<bool>,
    /// Base URL for relative links (reserved; not applied).
    pub base_url: Option<String>,
}

impl Default for PdfFromHtmlRequest {
    /// An empty request: no HTML and every option left to its default.
    fn default() -> (r: PdfFromHtmlRequest)
        ensures
            r.html@.len() == 0,
            r.filename is None,
            r.waitsecs is None,
            r.landscape is None,
            r.download is None,
            r.print_background is None,
            r.base_url is None,
    {
        PdfFromHtmlRequest {
            html: String::new(),
            filename: None,
            waitsecs: None,
            landscape: None,
            download: None,
            print_background: None,
            base_url: None,
        }
    }
}

impl PdfFromHtmlRequest {
    /// The filename to use, `"document.pdf"` when none was given.
    pub fn filename_or_default(&self) -> (r: String)
        ensures
            self.filename matches Some(f) ==> r@ == f@,
            self.filename is None ==> r@ == "document.pdf"@,
    {
        match &self.filename {
            Some(f) => String::from_str(f.as_str()),
            None => String::from_str("document.pdf"),
        }
    }

    /// Seconds to wait for JavaScript; two when none was given, since the
    /// content needs no network fetch.
    pub fn wait_duration(&self) -> (r: u64)
        ensures
            self.waitsecs matches Some(w) ==> r == w,
            self.waitsecs is None ==> r == 2,
    {
        match self.waitsecs {
            Some(w) => w,
            None => 2,
        }
    }

    /// Whether the response should force a download; off by default.
    pub fn is_download(&self) -> (r: bool)
        ensures
            r == (self.download matches Some(true)),
    {
        match self.download {
            Some(d) => d,
            None => false,
        }
    }

    /// Whether to print in landscape orientation; off by default.
    pub fn is_landscape(&self) -> (r: bool)
        ensures
            r == (self.landscape matches Some(true)),
    {
        match self.landscape {
            Some(l) => l,
            None => false,
        }
    }

    /// Whether to print background graphics; on by default.
    pub fn print_background(&self) -> (r: bool)
        ensures
            r == !(self.print_background matches Some(false)),
    {
        match self.print_background {
            Some(p) => p,
            None => true,
        }
    }
}

/// The text of the Content-Disposition header for a given mode and name.
pub open spec fn spec_content_disposition(force_download: bool, name: Seq<char>) -> Seq<char> {
    (if force_download {
        "attachment; filename=\""@
    } else {
        "inline; filename=\""@
    }) + name + "\""@
}

/// A successfully generated PDF with the metadata of its HTTP response.
#[derive(Debug, Clone)]
pub struct PdfResponse {
    /// The PDF file as raw bytes.
    pub data: Vec<u8>,
    /// Suggested filename for the download.
    pub filename: String,
    /// Whether to force a download instead of inline display.
    pub force_download: bool,
}

impl PdfResponse {
    /// Assemble a response from its parts.
    pub fn new(data: Vec<u8>, filename: String, force_download: bool) -> (r: PdfResponse)
        ensures
            r.data@ == data@,
            r.filename@ == filename@,
            r.force_download == force_download,
    {
        PdfResponse { data, filename, force_download }
    }

    /// The Content-Disposition header value: `attachment` when a download
    /// is forced, `inline` otherwise, with the filename quoted.
    pub fn content_disposition(&self) -> (r: String)
        ensures
            r@ == spec_content_disposition(self.force_download, self.filename@),
    {
        let mut s = if self.force_download {
            String::from_str("attachment; filename=\"")
        } else {
            String::from_str("inline; filename=\"")
        };
        s.append(self.filename.as_str());
        s.append("\"");
        s
    }

    /// The size of the PDF in bytes.
    pub fn size(&self) -> (r: usize)
        ensures
            r == self.data@.len(),
    {
        self.data.len()
    }
}

/// Browser pool occupancy as reported over HTTP.
#[derive(Debug, Clone, Copy, PartialEq, Eq, Structural)]
pub struct PoolStatsResponse {
    /// Browsers idle in the pool.
    pub available: usize,
    /// All tracked browsers.
    pub active: usize,
    /// Total tracked browsers; equals `active`.
    pub total: usize,
}

/// The liveness answer of the service.
#[derive(Debug, Clone)]
pub struct HealthResponse {
    /// Always `"healthy"` when the service answers at all.
    pub status: String,
    /// The service's name.
    pub service: String,
}

impl Default for HealthResponse {
    /// The one value this response takes.
    fn default() -> (r: HealthResponse)
        ensures
            r.status@ == "healthy"@,
            r.service@ == "html2pdf-api"@,
    {
        HealthResponse {
            status: String::from_str("healthy"),
            service: String::from_str("html2pdf-api"),
        }
    }
}

/// A machine-readable error answer: the message and the stable code.
#[derive(Debug, Clone)]
pub struct ErrorResponse {
    /// Human-readable message.
    pub error: String,
    /// Stable machine-readable code.
    pub code: String,
}

impl ErrorResponse {
    /// Build the answer for one service error: its rendered message and
    /// its stable code.
    pub fn of_error(err: &PdfServiceError) -> (r: ErrorResponse)
        ensures
            r.error@ == spec_service_error_text(*err),
            r.code@ == spec_error_code(*err),
    {
        ErrorResponse { error: err.to_string(), code: String::from_str(err.error_code()) }
    }
}

impl From<PdfServiceError> for ErrorResponse {
    /// Same answer as [`ErrorResponse::of_error`], by value.
    fn from(err: PdfServiceError) -> ErrorResponse {
        ErrorResponse::of_error(&err)
    }
}

impl vstd::std_specs::convert::FromSpecImpl<PdfServiceError> for ErrorResponse {
    open spec fn obeys_from_spec() -> bool {
        false
    }

    open spec fn from_spec(err: PdfServiceError) -> ErrorResponse {
        arbitrary()
    }
}

/// Validate and normalize a URL.
///
/// A blank URL is rejected outright with the message `URL is required`;
/// anything else is accepted exactly when the `url` crate parses it, and
/// normalizes to that parser's serialized form.
pub fn validate_url(url: &str) -> (r: Result<String, PdfServiceError>)
    ensures
        r is Ok <==> (!spec_blank(url@) && spec_url_parse(url@) is Some),
        r matches Ok(t) ==> t@ == spec_url_parse(url@)->Some_0,
        r matches Err(e) ==> e matches PdfServiceError::InvalidUrl(_),
        spec_blank(url@) ==> (r matches Err(e) && e matches PdfServiceError::InvalidUrl(m)
            && m@ == "URL is required"@),
{
    if is_blank(url) {
        return Err(PdfServiceError::InvalidUrl(String::from_str("URL is required")));
    }
    match parse_url(url) {
        Ok(normalized) => Ok(normalized),
        Err(msg) => Err(PdfServiceError::InvalidUrl(msg)),
    }
}

/// Wrap inline HTML into the data URL the browser is navigated to:
/// the fixed prefix followed by the percent-encoded document.
pub fn html_to_data_url(html: &str) -> (r: String)
    ensures
        r@ == "data:text/html;charset=utf-8,"@ + spec_percent_encoded(html@),
{
    let mut s = String::from_str("data:text/html;charset=utf-8,");
    s.append(encode_component(html).as_str());
    s
}

/// Truncate a URL to at most `max_len` characters for log output, marking
/// a cut with a trailing ellipsis.
pub fn truncate_url(url: &str, max_len: usize) -> (r: String)
    ensures
        url@.len() <= max_len ==> r@ == url@,
        url@.len() > max_len ==> r@ == url@.subrange(0, max_len as int) + "..."@,
{
    let n = url.unicode_len();
    if n <= max_len {
        String::from_str(url)
    } else {
        let mut s = String::from_str(url.substring_char(0, max_len));
        s.append("...");
        s
    }
}


} // verus!
