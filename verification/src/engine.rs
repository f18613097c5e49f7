//! The pagination engine.
//!
//! The engine owns the run's state and decides; the embedding program
//! performs: it sends the request the engine asks for, hands the outcome
//! back, executes the returned file operations, sleeps the returned delay,
//! and repeats until the engine declares the run finished or failed.

use vstd::prelude::*;

use crate::adapter::b_status_error;
use crate::adapter::interpret_page_a;
use crate::adapter::interpret_page_b;
use crate::adapter::spec_b_error_message;
use crate::adapter::spec_bars_a;
use crate::adapter::spec_bars_b;
use crate::adapter::spec_val_b_error_detail;
use crate::adapter::spec_val_b_ok;
use crate::adapter::spec_vals_b_all_ok;
use crate::jsonval::opt_string_view;
use crate::jsonval::spec_decode_a;
use crate::jsonval::spec_decode_b;
use crate::calendar::spec_date_chars;
use crate::calendar::date_to_string;
use crate::calendar::Date;
use crate::jsonval::decode_body_a;
use crate::jsonval::decode_body_b;
use crate::request::build_initial_polygon;
use crate::request::build_initial_twelvedata;
use crate::request::build_next_twelvedata;
use crate::request::ensure_api_key_present;
use crate::request::to_url;
use crate::request::Request;
use crate::sink::ops_view;
use crate::sink::spec_append_ops;
use crate::sink::spec_finalize_ops;
use crate::sink::SinkState;
use crate::sink::WriteOp;
use crate::types::Bar;
use crate::types::DownloadError;
use crate::types::OutputFormat;
use crate::types::Provider;

verus! {

/// The run's configuration, resolved by the caller.
pub struct Config {
    pub provider: Provider,
    pub ticker: String,
    pub from: Date,
    pub to: Date,
    pub granularity: crate::types::Granularity,
    pub format: OutputFormat,
    pub out: Option<String>,
    pub no_header: bool,
    pub wait_secs: u64,
    pub max_decimals: u8,
    pub split_by_day: bool,
}

/// The default output path: `output/{ticker}_{from}_{to}.{ext}`.
pub open spec fn spec_default_out_path(
    ticker: Seq<char>,
    from: Date,
    to: Date,
    format: OutputFormat,
) -> Seq<char> {
    "output/"@ + ticker + seq!['_'] + spec_date_chars(from.y as int, from.m as nat, from.d as nat)
        + seq!['_'] + spec_date_chars(to.y as int, to.m as nat, to.d as nat) + seq!['.']
        + format.spec_extension()
}

/// The output path of a run: an explicit path verbatim, the default
/// `output/{ticker}_{from}_{to}.{ext}` otherwise.
pub fn compute_out_path(
    ticker: &str,
    from: &Date,
    to: &Date,
    format: OutputFormat,
    out: &Option<String>,
) -> (r: String)
    ensures
        match out {
            Option::Some(p) => r@ == p@,
            Option::None => r@ == spec_default_out_path(ticker@, *from, *to, format),
        },
{
    match out {
        Some(p) => p.clone(),
        None => {
            let mut s = String::new();
            s.append("output/");
            s.append(ticker);
            crate::strnum::push_char(&mut s, '_');
            let fs = date_to_string(from);
            s.append(fs.as_str());
            crate::strnum::push_char(&mut s, '_');
            let ts = date_to_string(to);
            s.append(ts.as_str());
            crate::strnum::push_char(&mut s, '.');
            s.append(format.extension());
            proof {
                assert(s@ =~= spec_default_out_path(ticker@, *from, *to, format));
            }
            s
        },
    }
}

/// Resolves the API key: the explicit key when given, the environment's
/// otherwise; an error naming the expected source when neither exists.
pub fn resolve_api_key(
    provider: Provider,
    cli_key: &Option<String>,
    env_key: &Option<String>,
) -> (r: Result<String, DownloadError>)
    ensures
        match r {
            Ok(k) => (cli_key matches Some(c) && k == c) || (cli_key is None && (env_key
                matches Some(e) && k == e)),
            Err(e) => cli_key is None && env_key is None && (e
                matches DownloadError::MissingApiKey { provider: p } && p == provider),
        },
{
    match cli_key {
        Some(k) => Ok(k.clone()),
        None => match env_key {
            Some(k) => Ok(k.clone()),
            None => Err(DownloadError::MissingApiKey { provider }),
        },
    }
}

/// What the run's first request asks for.
pub struct FetchCmd {
    pub url: String,
    pub page: u64,
}

/// What the HTTP transport handed back.
pub enum HttpOutcome {
    /// The request could not be sent or its response not received.
    Transport { detail: String },
    /// A response, whatever its status.
    Response { status: u16, body: String },
}

/// The engine's verdict on one page.
pub enum Step {
    /// Perform the file operations, sleep, then fetch the next page.
    Continue { ops: Vec<WriteOp>, next: FetchCmd, sleep_secs: u64 },
    /// Perform the file operations; the run succeeded.
    Finished { ops: Vec<WriteOp>, notice: String },
    /// Perform the file operations; the run failed.
    Failed { ops: Vec<WriteOp>, error: DownloadError },
}

/// The run's state between pages.
pub struct Engine {
    pub cfg: Config,
    pub api_key: String,
    pub sink: SinkState,
    pub page: u64,
    pub current_url: String,
    pub last_request: Request,
}

/// The closing notice of a successful run.
pub open spec fn spec_notice(eng: Engine) -> Seq<char> {
    if !eng.sink.wrote_any {
        "No data returned for "@ + eng.cfg.ticker@ + " between "@ + spec_date_chars(
            eng.cfg.from.y as int,
            eng.cfg.from.m as nat,
            eng.cfg.from.d as nat,
        ) + " and "@ + spec_date_chars(
            eng.cfg.to.y as int,
            eng.cfg.to.m as nat,
            eng.cfg.to.d as nat,
        )
    } else if eng.cfg.split_by_day {
        "Saved per-day CSV files under output/YYYY/MM"@
    } else {
        "Saved to "@ + eng.sink.out_path@
    }
}

/// Starts a run: checks the configuration, builds the initial request.
/// Fails with a missing-key error when no key is given for the selected
/// provider, and with an unsupported-combination error when split-by-day
/// is asked of JSON output — both before any request exists.
pub fn start(cfg: Config, cli_key: &Option<String>, env_key: &Option<String>) -> (r: Result<
    (Engine, FetchCmd),
    DownloadError,
>)
    ensures
        match r {
            Err(e) => {
                ||| (cli_key is None && env_key is None && (e
                    matches DownloadError::MissingApiKey { provider: p } && p == cfg.provider))
                ||| (!(cli_key is None && env_key is None) && cfg.split_by_day && cfg.format
                    is Json && e is SplitJsonUnsupported)
            },
            Ok(out) => {
                let (eng, cmd) = out;
                &&& !(cli_key is None && env_key is None)
                &&& !(cfg.split_by_day && cfg.format is Json)
                &&& (cli_key matches Some(c) ==> eng.api_key == c)
                &&& (cli_key is None ==> (env_key matches Some(k) ==> eng.api_key == k))
                &&& eng.page == 1
                &&& cmd.page == 1
                &&& cmd.url == eng.current_url
                &&& cmd.url@ == crate::request::spec_initial_url(
                    cfg.provider,
                    cfg.ticker@,
                    cfg.from,
                    cfg.to,
                    cfg.granularity,
                    eng.api_key@,
                )
                &&& eng.cfg == cfg
                &&& !eng.sink.wrote_any
                &&& eng.sink.format == cfg.format
                &&& eng.sink.split_by_day == cfg.split_by_day
                &&& eng.sink.ticker@ == cfg.ticker@
                &&& eng.sink.precision == cfg.max_decimals
                &&& eng.sink.no_header == cfg.no_header
                &&& (match cfg.out {
                    Option::Some(p) => eng.sink.out_path@ == p@,
                    Option::None => eng.sink.out_path@ == spec_default_out_path(
                        cfg.ticker@,
                        cfg.from,
                        cfg.to,
                        cfg.format,
                    ),
                })
            },
        },
{
    let api_key = match resolve_api_key(cfg.provider, cli_key, env_key) {
        Ok(k) => k,
        Err(e) => {
            return Err(e);
        },
    };
    let json = match cfg.format {
        OutputFormat::Json => true,
        OutputFormat::Csv => false,
    };
    if cfg.split_by_day && json {
        return Err(DownloadError::SplitJsonUnsupported);
    }
    let out_path = compute_out_path(cfg.ticker.as_str(), &cfg.from, &cfg.to, cfg.format, &cfg.out);
    let request = match cfg.provider {
        Provider::Polygon => build_initial_polygon(
            cfg.ticker.as_str(),
            &cfg.from,
            &cfg.to,
            cfg.granularity,
            api_key.as_str(),
        ),
        Provider::TwelveData => build_initial_twelvedata(
            cfg.ticker.as_str(),
            &cfg.from,
            &cfg.to,
            cfg.granularity,
            api_key.as_str(),
        ),
    };
    let url = to_url(&request);
    let sink = SinkState {
        format: cfg.format,
        split_by_day: cfg.split_by_day,
        ticker: cfg.ticker.clone(),
        out_path,
        precision: cfg.max_decimals,
        no_header: cfg.no_header,
        wrote_any: false,
    };
    let eng = Engine {
        cfg,
        api_key,
        sink,
        page: 1,
        current_url: url.clone(),
        last_request: request,
    };
    Ok((eng, FetchCmd { url, page: 1 }))
}

/// Applies one HTTP outcome to the engine.
///
/// A transport failure is a network error; HTTP 403 an entitlement error
/// carrying the response body and the request address; any other
/// non-success status an HTTP status error.  On a success status the step
/// is a function of the body: a body without a well-formed envelope fails
/// with the decode (or, for the token-cursor provider, parse) error the
/// adapters fix; otherwise the envelope's bars go to the sink, and the
/// run continues exactly when the envelope carries a continuation — with
/// the next request built from it and the configured delay — and finishes
/// otherwise with its closing notice.  On every failure the sink's
/// closing operations are still emitted, so a JSON array on disk is
/// closed on every exit path.
pub fn on_response(eng: &mut Engine, outcome: HttpOutcome) -> (r: Step)
    requires
        old(eng).page < u64::MAX,
    ensures
        final(eng).cfg == old(eng).cfg,
        final(eng).api_key == old(eng).api_key,
        match outcome {
            HttpOutcome::Transport { detail } => r matches Step::Failed { ops, error } && ({
                &&& final(eng).sink == old(eng).sink
                &&& ops_view(ops@) == spec_finalize_ops(old(eng).sink)
                &&& (error matches DownloadError::Network { url, detail: d } && url@ == old(
                    eng,
                ).current_url@ && d == detail)
            }),
            HttpOutcome::Response { status, body } => if !(200 <= status <= 299) {
                r matches Step::Failed { ops, error } && ({
                    &&& final(eng).sink == old(eng).sink
                    &&& ops_view(ops@) == spec_finalize_ops(old(eng).sink)
                    &&& (if status == 403 {
                        error matches DownloadError::Entitlement { body: b, url } && b == body
                            && url@ == old(eng).current_url@
                    } else {
                        error matches DownloadError::HttpStatus { status: s, body: b } && s
                            == status && b == body
                    })
                })
            } else {
                match old(eng).cfg.provider {
                    Provider::Polygon => match spec_decode_a(body@) {
                        Option::None => r matches Step::Failed { ops, error } && ({
                            &&& final(eng).sink == old(eng).sink
                            &&& ops_view(ops@) == spec_finalize_ops(old(eng).sink)
                            &&& (error matches DownloadError::Decode { detail } && detail@
                                == "Invalid JSON from API"@)
                        }),
                        Option::Some(pv) => ({
                            let bars = spec_bars_a(pv.bars);
                            &&& final(eng).sink == crate::laws::st_after(old(eng).sink, bars)
                            &&& match pv.next_url {
                                Option::Some(u) => r matches Step::Continue {
                                    ops,
                                    next,
                                    sleep_secs,
                                } && ({
                                    &&& ops_view(ops@) == spec_append_ops(old(eng).sink, bars)
                                    &&& next.url@ == crate::request::spec_with_key(
                                        u,
                                        old(eng).api_key@,
                                    )
                                    &&& next.url == final(eng).current_url
                                    &&& next.page == old(eng).page + 1
                                    &&& final(eng).page == old(eng).page + 1
                                    &&& sleep_secs == old(eng).cfg.wait_secs
                                }),
                                Option::None => r matches Step::Finished { ops, notice } && ({
                                    &&& ops_view(ops@) == spec_append_ops(old(eng).sink, bars)
                                        + spec_finalize_ops(final(eng).sink)
                                    &&& notice@ == spec_notice(*final(eng))
                                    &&& final(eng).page == old(eng).page
                                }),
                            }
                        }),
                    },
                    Provider::TwelveData => match spec_decode_b(body@) {
                        Option::None => r matches Step::Failed { ops, error } && ({
                            &&& final(eng).sink == old(eng).sink
                            &&& ops_view(ops@) == spec_finalize_ops(old(eng).sink)
                            &&& (error matches DownloadError::Decode { detail } && detail@
                                == "Invalid JSON from Twelve Data API"@)
                        }),
                        Option::Some(pv) => if b_status_error(pv) {
                            r matches Step::Failed { ops, error } && ({
                                &&& final(eng).sink == old(eng).sink
                                &&& ops_view(ops@) == spec_finalize_ops(old(eng).sink)
                                &&& (error matches DownloadError::Decode { detail } && detail@
                                    == spec_b_error_message(pv))
                            })
                        } else if !spec_vals_b_all_ok(pv.values) {
                            r matches Step::Failed { ops, error } && ({
                                &&& final(eng).sink == old(eng).sink
                                &&& ops_view(ops@) == spec_finalize_ops(old(eng).sink)
                                &&& (exists|i: int|
                                    0 <= i < pv.values.len() && !spec_val_b_ok(
                                        #[trigger] pv.values[i],
                                    ) && (forall|j: int|
                                        0 <= j < i ==> spec_val_b_ok(#[trigger] pv.values[j]))
                                        && (error matches DownloadError::Parse { detail }
                                        && detail@ == spec_val_b_error_detail(pv.values[i])))
                            })
                        } else {
                            let bars = spec_bars_b(pv.values);
                            &&& final(eng).sink == crate::laws::st_after(old(eng).sink, bars)
                            &&& match pv.next_page_token {
                                Option::Some(tok) => r matches Step::Continue {
                                    ops,
                                    next,
                                    sleep_secs,
                                } && ({
                                    &&& ops_view(ops@) == spec_append_ops(old(eng).sink, bars)
                                    &&& next.url@ == crate::request::spec_url_chars(
                                        old(eng).last_request.base@,
                                        crate::request::strip_page_tokens(
                                            old(eng).last_request.params_view(),
                                        ).push(("page_token"@, tok)),
                                    )
                                    &&& next.url == final(eng).current_url
                                    &&& next.page == old(eng).page + 1
                                    &&& final(eng).page == old(eng).page + 1
                                    &&& sleep_secs == old(eng).cfg.wait_secs
                                }),
                                Option::None => r matches Step::Finished { ops, notice } && ({
                                    &&& ops_view(ops@) == spec_append_ops(old(eng).sink, bars)
                                        + spec_finalize_ops(final(eng).sink)
                                    &&& notice@ == spec_notice(*final(eng))
                                    &&& final(eng).page == old(eng).page
                                }),
                            }
                        },
                    },
                }
            },
        },
{
    let (status, body) = match outcome {
        HttpOutcome::Transport { detail } => {
            let ops = eng.sink.finalize();
            return Step::Failed {
                ops,
                error: DownloadError::Network { url: eng.current_url.clone(), detail },
            };
        },
        HttpOutcome::Response { status, body } => (status, body),
    };
    if !(200 <= status && status <= 299) {
        let ops = eng.sink.finalize();
        if status == 403 {
            return Step::Failed {
                ops,
                error: DownloadError::Entitlement { body, url: eng.current_url.clone() },
            };
        }
        return Step::Failed { ops, error: DownloadError::HttpStatus { status, body } };
    }
    let decoded: (Vec<Bar>, Option<String>) = match eng.cfg.provider {
        Provider::Polygon => {
            match decode_body_a(body.as_str()) {
                Ok(page) => {
                    let out = interpret_page_a(&page);
                    proof {
                        assert(out.0@ == spec_bars_a(spec_decode_a(body@)->0.bars));
                        assert(opt_string_view(out.1) == spec_decode_a(body@)->0.next_url);
                    }
                    out
                },
                Err(e) => {
                    let ops = eng.sink.finalize();
                    return Step::Failed { ops, error: e };
                },
            }
        },
        Provider::TwelveData => {
            match decode_body_b(body.as_str()) {
                Ok(page) => match interpret_page_b(&page) {
                    Ok(x) => {
                        proof {
                            assert(x.0@ == spec_bars_b(spec_decode_b(body@)->0.values));
                            assert(opt_string_view(x.1) == spec_decode_b(
                                body@,
                            )->0.next_page_token);
                        }
                        x
                    },
                    Err(e) => {
                        let ops = eng.sink.finalize();
                        return Step::Failed { ops, error: e };
                    },
                },
                Err(e) => {
                    let ops = eng.sink.finalize();
                    return Step::Failed { ops, error: e };
                },
            }
        },
    };
    let (bars, cont) = decoded;
    let mut ops = eng.sink.append_batch(&bars);
    match cont {
        Some(c) => {
            let next_url = match eng.cfg.provider {
                Provider::Polygon => ensure_api_key_present(c.as_str(), eng.api_key.as_str()),
                Provider::TwelveData => {
                    let req = build_next_twelvedata(&eng.last_request, c.as_str());
                    let u = to_url(&req);
                    eng.last_request = req;
                    u
                },
            };
            eng.current_url = next_url.clone();
            eng.page = eng.page + 1;
            let page = eng.page;
            Step::Continue {
                ops,
                next: FetchCmd { url: next_url, page },
                sleep_secs: eng.cfg.wait_secs,
            }
        },
        None => {
            let mut fin = eng.sink.finalize();
            ops.append(&mut fin);
            let notice = run_notice(eng);
            proof {
                assert(ops_view(ops@) =~= spec_append_ops(old(eng).sink, bars@)
                    + spec_finalize_ops(eng.sink));
            }
            Step::Finished { ops, notice }
        },
    }
}

/// Renders the closing notice of a successful run.
fn run_notice(eng: &Engine) -> (r: String)
    ensures
        r@ == spec_notice(*eng),
{
    if !eng.sink.wrote_any {
        let mut s = String::new();
        s.append("No data returned for ");
        s.append(eng.cfg.ticker.as_str());
        s.append(" between ");
        let fs = date_to_string(&eng.cfg.from);
        s.append(fs.as_str());
        s.append(" and ");
        let ts = date_to_string(&eng.cfg.to);
        s.append(ts.as_str());
        proof {
            assert(s@ =~= spec_notice(*eng));
        }
        s
    } else if eng.cfg.split_by_day {
        let mut s = String::new();
        s.append("Saved per-day CSV files under output/YYYY/MM");
        proof {
            assert(s@ =~= spec_notice(*eng));
        }
        s
    } else {
        let mut s = String::new();
        s.append("Saved to ");
        s.append(eng.sink.out_path.as_str());
        proof {
            assert(s@ =~= spec_notice(*eng));
        }
        s
    }
}

} // verus!
