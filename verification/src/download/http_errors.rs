//! What an HTTP status means to the user.

use vstd::prelude::*;
use vstd::string::*;
use crate::text::{decimal, decimal_u64};

verus! {

/// The kind of an HTTP failure.
#[derive(Debug, Clone, Copy, PartialEq, Eq, Structural)]
pub enum HttpErrorCategory {
    /// No response at all.
    Network,
    /// 4xx.
    Client,
    /// 5xx.
    Server,
    /// 401 and 403.
    Auth,
    /// 429.
    RateLimit,
}

/// An HTTP failure explained.
#[derive(Debug)]
pub struct HttpErrorInfo {
    pub status_code: Option<u16>,
    pub category: HttpErrorCategory,
    pub description: String,
    pub suggestion: String,
    pub is_retryable: bool,
}

/// What the explanation of a failure says.
pub struct ErrorView {
    pub status_code: Option<u16>,
    pub category: HttpErrorCategory,
    pub description: Seq<char>,
    pub suggestion: Seq<char>,
    pub is_retryable: bool,
}

impl View for HttpErrorInfo {
    type V = ErrorView;

    open spec fn view(&self) -> ErrorView {
        ErrorView {
            status_code: self.status_code,
            category: self.category,
            description: self.description@,
            suggestion: self.suggestion@,
            is_retryable: self.is_retryable,
        }
    }
}

/// The kind of failure that a status stands for.
pub open spec fn status_category(status: u16) -> HttpErrorCategory {
    if status == 401 || status == 403 {
        HttpErrorCategory::Auth
    } else if status == 429 {
        HttpErrorCategory::RateLimit
    } else if status >= 500 {
        HttpErrorCategory::Server
    } else {
        HttpErrorCategory::Client
    }
}

/// Whether it can help to try again after a status.
pub open spec fn status_retryable(status: u16) -> bool {
    status == 429 || status >= 500
}

/// The name of a status.
pub open spec fn status_description(status: u16) -> Seq<char> {
    if status == 400 {
        "Bad Request"@
    } else if status == 401 {
        "Unauthorized"@
    } else if status == 403 {
        "Forbidden"@
    } else if status == 404 {
        "Not Found"@
    } else if status == 410 {
        "Gone"@
    } else if status == 429 {
        "Too Many Requests"@
    } else if status == 500 {
        "Internal Server Error"@
    } else if status == 502 {
        "Bad Gateway"@
    } else if status == 503 {
        "Service Unavailable"@
    } else if status == 504 {
        "Gateway Timeout"@
    } else if 400 <= status < 500 {
        "Client Error ("@ + decimal(status as nat) + ")"@
    } else if status >= 500 {
        "Server Error ("@ + decimal(status as nat) + ")"@
    } else {
        "HTTP Error ("@ + decimal(status as nat) + ")"@
    }
}

/// What the user can do about a status.
pub open spec fn status_suggestion(status: u16) -> Seq<char> {
    if status == 400 {
        "The URL or request format is invalid. Check the download URL."@
    } else if status == 401 {
        "Authentication required. Use authRequired hook to provide credentials."@
    } else if status == 403 {
        "Access denied. Try a different User-Agent or check permissions."@
    } else if status == 404 {
        "The file no longer exists at this URL."@
    } else if status == 410 {
        "The file has been permanently removed."@
    } else if status == 429 {
        "Rate limited. Retry will happen automatically with delay."@
    } else if status == 500 {
        "Server-side issue. Retry may succeed."@
    } else if status == 502 {
        "Server connection issue. Retry may succeed."@
    } else if status == 503 {
        "Server temporarily unavailable. Retry will happen automatically."@
    } else if status == 504 {
        "Server response timeout. Retry may succeed."@
    } else if 400 <= status < 500 {
        "Check the request details and URL."@
    } else if status >= 500 {
        "Server-side issue. Retry may help."@
    } else {
        "Unknown error. Check logs for details."@
    }
}

/// The explanation of a status.
pub open spec fn status_error(status: u16) -> ErrorView {
    ErrorView {
        status_code: Some(status),
        category: status_category(status),
        description: status_description(status),
        suggestion: status_suggestion(status),
        is_retryable: status_retryable(status),
    }
}

/// The line that names a failure.
pub open spec fn error_line(e: ErrorView) -> Seq<char> {
    match e.status_code {
        Some(code) => "HTTP "@ + decimal(code as nat) + " - "@ + e.description,
        None => e.description,
    }
}

/// Server failures and rate limiting are worth another try; no other status is.
pub proof fn law_retryable_by_category(status: u16)
    ensures
        status_error(status).is_retryable <==> (status_error(status).category
            == HttpErrorCategory::Server || status_error(status).category
            == HttpErrorCategory::RateLimit),
{
}

/// What a status means: failed logins and refusals, too many requests and the five
/// hundreds are kinds of their own, and all else counts as the client's. Only too
/// many requests and the five hundreds are worth another try.
pub proof fn law_status_decides_the_kind(status: u16)
    ensures
        status_error(status).status_code == Some(status),
        status_error(status).category == HttpErrorCategory::Auth <==> status == 401 || status
            == 403,
        status_error(status).category == HttpErrorCategory::RateLimit <==> status == 429,
        status_error(status).category == HttpErrorCategory::Server <==> status > 499,
        status_error(status).category == HttpErrorCategory::Client <==> status < 500 && status
            != 401 && status != 403 && status != 429,
        status_error(status).category != HttpErrorCategory::Network,
        status_error(status).is_retryable <==> status == 429 || status > 499,
        error_line(status_error(status)) == "HTTP "@ + decimal(status as nat) + " - "@
            + status_error(status).description,
{
}

/// A status has the name that the protocol gives it; one without a name of its own
/// is numbered.
pub proof fn law_status_names(status: u16)
    ensures
        status == 400 ==> status_error(status).description == "Bad Request"@,
        status == 401 ==> status_error(status).description == "Unauthorized"@,
        status == 403 ==> status_error(status).description == "Forbidden"@,
        status == 404 ==> status_error(status).description == "Not Found"@,
        status == 410 ==> status_error(status).description == "Gone"@,
        status == 429 ==> status_error(status).description == "Too Many Requests"@,
        status == 500 ==> status_error(status).description == "Internal Server Error"@,
        status == 502 ==> status_error(status).description == "Bad Gateway"@,
        status == 503 ==> status_error(status).description == "Service Unavailable"@,
        status == 504 ==> status_error(status).description == "Gateway Timeout"@,
        status < 400 ==> status_error(status).description == "HTTP Error ("@ + decimal(
            status as nat,
        ) + ")"@,
        400 <= status < 500 && status != 400 && status != 401 && status != 403 && status != 404
            && status != 410 && status != 429 ==> status_error(status).description
            == "Client Error ("@ + decimal(status as nat) + ")"@,
        status >= 500 && status != 500 && status != 502 && status != 503 && status != 504
            ==> status_error(status).description == "Server Error ("@ + decimal(status as nat)
            + ")"@,
{
}

/// What can be done about a status, where it has a name of its own and where not.
pub proof fn law_status_suggestions(status: u16)
    ensures
        status == 400 ==> status_error(status).suggestion
            == "The URL or request format is invalid. Check the download URL."@,
        status == 401 ==> status_error(status).suggestion
            == "Authentication required. Use authRequired hook to provide credentials."@,
        status == 403 ==> status_error(status).suggestion
            == "Access denied. Try a different User-Agent or check permissions."@,
        status == 404 ==> status_error(status).suggestion
            == "The file no longer exists at this URL."@,
        status == 410 ==> status_error(status).suggestion
            == "The file has been permanently removed."@,
        status == 429 ==> status_error(status).suggestion
            == "Rate limited. Retry will happen automatically with delay."@,
        status == 500 ==> status_error(status).suggestion
            == "Server-side issue. Retry may succeed."@,
        status == 502 ==> status_error(status).suggestion
            == "Server connection issue. Retry may succeed."@,
        status == 503 ==> status_error(status).suggestion
            == "Server temporarily unavailable. Retry will happen automatically."@,
        status == 504 ==> status_error(status).suggestion
            == "Server response timeout. Retry may succeed."@,
        status < 400 ==> status_error(status).suggestion == "Unknown error. Check logs for details."@,
        400 <= status < 500 && status != 400 && status != 401 && status != 403 && status != 404
            && status != 410 && status != 429 ==> status_error(status).suggestion
            == "Check the request details and URL."@,
        status >= 500 && status != 500 && status != 502 && status != 503 && status != 504
            ==> status_error(status).suggestion == "Server-side issue. Retry may help."@,
{
}

impl Clone for HttpErrorInfo {
    fn clone(&self) -> (r: HttpErrorInfo)
        ensures
            r == *self,
    {
        HttpErrorInfo {
            status_code: self.status_code,
            category: self.category,
            description: self.description.clone(),
            suggestion: self.suggestion.clone(),
            is_retryable: self.is_retryable,
        }
    }
}

fn numbered(before: &str, status: u16) -> (r: String)
    ensures
        r@ == before@ + decimal(status as nat) + ")"@,
{
    let mut out = before.to_owned();
    let digits = decimal_u64(status as u64);
    out.append(digits.as_str());
    out.append(")");
    out
}

impl HttpErrorInfo {
    fn known(
        status: u16,
        category: HttpErrorCategory,
        description: &str,
        suggestion: &str,
        is_retryable: bool,
    ) -> (r: HttpErrorInfo)
        ensures
            r@ == (ErrorView {
                status_code: Some(status),
                category,
                description: description@,
                suggestion: suggestion@,
                is_retryable,
            }),
    {
        HttpErrorInfo {
            status_code: Some(status),
            category,
            description: description.to_owned(),
            suggestion: suggestion.to_owned(),
            is_retryable,
        }
    }

    /// Explains an HTTP status.
    pub fn from_status(status: u16) -> (r: HttpErrorInfo)
        ensures
            r@ == status_error(status),
    {
        match status {
            400 => Self::known(
                400,
                HttpErrorCategory::Client,
                "Bad Request",
                "The URL or request format is invalid. Check the download URL.",
                false,
            ),
            401 => Self::known(
                401,
                HttpErrorCategory::Auth,
                "Unauthorized",
                "Authentication required. Use authRequired hook to provide credentials.",
                false,
            ),
            403 => Self::known(
                403,
                HttpErrorCategory::Auth,
                "Forbidden",
                "Access denied. Try a different User-Agent or check permissions.",
                false,
            ),
            404 => Self::known(
                404,
                HttpErrorCategory::Client,
                "Not Found",
                "The file no longer exists at this URL.",
                false,
            ),
            410 => Self::known(
                410,
                HttpErrorCategory::Client,
                "Gone",
                "The file has been permanently removed.",
                false,
            ),
            429 => Self::known(
                429,
                HttpErrorCategory::RateLimit,
                "Too Many Requests",
                "Rate limited. Retry will happen automatically with delay.",
                true,
            ),
            500 => Self::known(
                500,
                HttpErrorCategory::Server,
                "Internal Server Error",
                "Server-side issue. Retry may succeed.",
                true,
            ),
            502 => Self::known(
                502,
                HttpErrorCategory::Server,
                "Bad Gateway",
                "Server connection issue. Retry may succeed.",
                true,
            ),
            503 => Self::known(
                503,
                HttpErrorCategory::Server,
                "Service Unavailable",
                "Server temporarily unavailable. Retry will happen automatically.",
                true,
            ),
            504 => Self::known(
                504,
                HttpErrorCategory::Server,
                "Gateway Timeout",
                "Server response timeout. Retry may succeed.",
                true,
            ),
            _ => {
                if 400 <= status && status < 500 {
                    HttpErrorInfo {
                        status_code: Some(status),
                        category: HttpErrorCategory::Client,
                        description: numbered("Client Error (", status),
                        suggestion: "Check the request details and URL.".to_owned(),
                        is_retryable: false,
                    }
                } else if status >= 500 {
                    HttpErrorInfo {
                        status_code: Some(status),
                        category: HttpErrorCategory::Server,
                        description: numbered("Server Error (", status),
                        suggestion: "Server-side issue. Retry may help.".to_owned(),
                        is_retryable: true,
                    }
                } else {
                    HttpErrorInfo {
                        status_code: Some(status),
                        category: HttpErrorCategory::Client,
                        description: numbered("HTTP Error (", status),
                        suggestion: "Unknown error. Check logs for details.".to_owned(),
                        is_retryable: false,
                    }
                }
            },
        }
    }

    /// Explains that no response came.
    pub fn network_error(message: &str) -> (r: HttpErrorInfo)
        ensures
            r@ == (ErrorView {
                status_code: None,
                category: HttpErrorCategory::Network,
                description: "Network Error"@,
                suggestion: "Connection failed: "@ + message@ + ". Check network connectivity."@,
                is_retryable: true,
            }),
    {
        let mut suggestion = "Connection failed: ".to_owned();
        suggestion.append(message);
        suggestion.append(". Check network connectivity.");
        HttpErrorInfo {
            status_code: None,
            category: HttpErrorCategory::Network,
            description: "Network Error".to_owned(),
            suggestion,
            is_retryable: true,
        }
    }

    /// The line that names the failure.
    pub fn format(&self) -> (r: String)
        ensures
            r@ == error_line(self@),
    {
        match self.status_code {
            Some(code) => {
                let mut out = "HTTP ".to_owned();
                let digits = decimal_u64(code as u64);
                out.append(digits.as_str());
                out.append(" - ");
                out.append(self.description.as_str());
                out
            },
            None => self.description.clone(),
        }
    }

    /// An emoji for the kind of failure.
    pub fn category_icon(&self) -> (r: &str)
        ensures
            r@ == (match self.category {
                HttpErrorCategory::Network => "🌐"@,
                HttpErrorCategory::Client => "❌"@,
                HttpErrorCategory::Server => "⚠️"@,
                HttpErrorCategory::Auth => "🔒"@,
                HttpErrorCategory::RateLimit => "⏱️"@,
            }),
    {
        match self.category {
            HttpErrorCategory::Network => "🌐",
            HttpErrorCategory::Client => "❌",
            HttpErrorCategory::Server => "⚠️",
            HttpErrorCategory::Auth => "🔒",
            HttpErrorCategory::RateLimit => "⏱️",
        }
    }
}

/// A status is explained by its kind, and whether it is worth another try.
pub proof fn law_from_status(status: u16, r: HttpErrorInfo)
    requires
        call_ensures(HttpErrorInfo::from_status, (status,), r),
    ensures
        r@.status_code == Some(status),
        r@.is_retryable <==> status == 429 || status > 499,
        r@.category == HttpErrorCategory::Auth <==> status == 401 || status == 403,
        r@.category == HttpErrorCategory::RateLimit <==> status == 429,
        r@.category == HttpErrorCategory::Server <==> status > 499,
{
}

} // verus!
