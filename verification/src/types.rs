//! Shared value types: run configuration enums, the canonical bar record,
//! and the error taxonomy with exact message texts.

use vstd::prelude::*;

use crate::decimal::Dec;
use crate::strnum::spec_digits;
use crate::strnum::u64_to_string;

verus! {

/// Output encoding of the run.
#[derive(Clone, Copy, Debug, PartialEq, Eq, Structural)]
pub enum OutputFormat {
    Csv,
    Json,
}

/// Bar granularity requested of the provider.
#[derive(Clone, Copy, Debug, PartialEq, Eq, Structural)]
pub enum Granularity {
    Minute,
    Day,
}

/// The market-data provider.
#[derive(Clone, Copy, Debug, PartialEq, Eq, Structural)]
pub enum Provider {
    Polygon,
    TwelveData,
}

impl OutputFormat {
    /// The file extension of the format.
    pub open spec fn spec_extension(self) -> Seq<char> {
        match self {
            OutputFormat::Csv => "csv"@,
            OutputFormat::Json => "json"@,
        }
    }

    pub fn extension(&self) -> (r: &'static str)
        ensures
            r@ == self.spec_extension(),
    {
        match self {
            OutputFormat::Csv => "csv",
            OutputFormat::Json => "json",
        }
    }
}

/// One OHLCV sample; prices and volume are exact decimals, the timestamp
/// counts milliseconds since the epoch, UTC.
#[derive(Clone, Copy, Debug)]
pub struct Bar {
    pub t: i64,
    pub o: Dec,
    pub h: Dec,
    pub l: Dec,
    pub c: Dec,
    pub v: Option<Dec>,
    pub vw: Option<Dec>,
    pub n: Option<i64>,
}

impl Bar {
    /// Every numeric field within rendering bounds.
    pub open spec fn wf(self) -> bool {
        &&& self.o.wf()
        &&& self.h.wf()
        &&& self.l.wf()
        &&& self.c.wf()
        &&& (self.v matches Some(v) ==> v.wf())
        &&& (self.vw matches Some(v) ==> v.wf())
    }
}

/// Why a run stopped.  Configuration errors are raised before any request
/// is issued; the others abort the page loop at the failing page.
#[derive(Debug)]
pub enum DownloadError {
    /// No API key was given for the selected provider.
    MissingApiKey { provider: Provider },
    /// Splitting by day is only available for CSV output.
    SplitJsonUnsupported,
    /// The request could not be sent or its response not received.
    Network { url: String, detail: String },
    /// HTTP 403: the key is not entitled to the requested data.
    Entitlement { body: String, url: String },
    /// Any other non-success HTTP status.
    HttpStatus { status: u16, body: String },
    /// The response body was not the expected JSON envelope, or the
    /// provider reported a logical error.
    Decode { detail: String },
    /// A numeric or datetime field inside a well-formed page was malformed.
    Parse { detail: String },
}

/// The message text of each error.
pub open spec fn spec_error_message(e: DownloadError) -> Seq<char> {
    match e {
        DownloadError::MissingApiKey { provider } => match provider {
            Provider::Polygon => "API key not provided. Use --apikey or set POLYGON_API_KEY."@,
            Provider::TwelveData => "API key not provided. Use --apikey or set TWELVEDATA_API_KEY."@,
        },
        DownloadError::SplitJsonUnsupported => "--split-by-day currently supports CSV format only"@,
        DownloadError::Network { url, detail } => "Request failed: "@ + url@ + " ("@ + detail@
            + ")"@,
        DownloadError::Entitlement { body, url } => "HTTP 403 Forbidden: "@ + body@
            + "\nHint: Your API key may not be entitled to this data. Try:\n- Using --granularity day (daily aggregates) instead of minute\n- Using a different ticker (e.g., equities like AAPL)\n- Upgrading your plan for minute/index data\nRequest URL: "@
            + url@,
        DownloadError::HttpStatus { status, body } => "HTTP "@ + spec_digits(status as nat) + ": "@
            + body@,
        DownloadError::Decode { detail } => detail@,
        DownloadError::Parse { detail } => detail@,
    }
}

impl DownloadError {
    /// Renders the error for display.
    pub fn message(&self) -> (r: String)
        ensures
            r@ == spec_error_message(*self),
    {
        match self {
            DownloadError::MissingApiKey { provider } => match provider {
                Provider::Polygon => {
                    let mut s = String::new();
                    s.append("API key not provided. Use --apikey or set POLYGON_API_KEY.");
                    proof {
                        assert(s@ =~= spec_error_message(*self));
                    }
                    s
                },
                Provider::TwelveData => {
                    let mut s = String::new();
                    s.append("API key not provided. Use --apikey or set TWELVEDATA_API_KEY.");
                    proof {
                        assert(s@ =~= spec_error_message(*self));
                    }
                    s
                },
            },
            DownloadError::SplitJsonUnsupported => {
                let mut s = String::new();
                s.append("--split-by-day currently supports CSV format only");
                proof {
                    assert(s@ =~= spec_error_message(*self));
                }
                s
            },
            DownloadError::Network { url, detail } => {
                let mut s = String::new();
                s.append("Request failed: ");
                s.append(url.as_str());
                s.append(" (");
                s.append(detail.as_str());
                s.append(")");
                proof {
                    assert(s@ =~= spec_error_message(*self));
                }
                s
            },
            DownloadError::Entitlement { body, url } => {
                let mut s = String::new();
                s.append("HTTP 403 Forbidden: ");
                s.append(body.as_str());
                s.append(
                    "\nHint: Your API key may not be entitled to this data. Try:\n- Using --granularity day (daily aggregates) instead of minute\n- Using a different ticker (e.g., equities like AAPL)\n- Upgrading your plan for minute/index data\nRequest URL: ",
                );
                s.append(url.as_str());
                proof {
                    assert(s@ =~= spec_error_message(*self));
                }
                s
            },
            DownloadError::HttpStatus { status, body } => {
                let mut s = String::new();
                s.append("HTTP ");
                let code = u64_to_string(*status as u64);
                s.append(code.as_str());
                s.append(": ");
                s.append(body.as_str());
                proof {
                    assert(s@ =~= spec_error_message(*self));
                }
                s
            },
            DownloadError::Decode { detail } => {
                let mut s = String::new();
                s.append(detail.as_str());
                proof {
                    assert(s@ =~= spec_error_message(*self));
                }
                s
            },
            DownloadError::Parse { detail } => {
                let mut s = String::new();
                s.append(detail.as_str());
                proof {
                    assert(s@ =~= spec_error_message(*self));
                }
                s
            },
        }
    }
}

} // verus!
