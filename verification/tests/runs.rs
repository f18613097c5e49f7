use market_data_downloader::calendar::Date;
use market_data_downloader::engine::start;
use market_data_downloader::engine::on_response;
use market_data_downloader::engine::Config;
use market_data_downloader::engine::HttpOutcome;
use market_data_downloader::engine::Step;
use market_data_downloader::sink::WriteOp;
use market_data_downloader::types::DownloadError;
use market_data_downloader::types::Granularity;
use market_data_downloader::types::OutputFormat;
use market_data_downloader::types::Provider;

/// An in-memory stand-in for the file system: (path, content) pairs.
struct Files {
    entries: Vec<(String, String)>,
}

impl Files {
    fn new() -> Files {
        Files { entries: Vec::new() }
    }

    fn apply(&mut self, ops: &[WriteOp]) {
        for op in ops {
            match op {
                WriteOp::MkDirs { .. } => {},
                WriteOp::Create { path } => {
                    self.entries.retain(|e| e.0 != *path);
                    self.entries.push((path.clone(), String::new()));
                },
                WriteOp::Append { path, text } => {
                    let entry = self.entries.iter_mut().find(|e| e.0 == *path).unwrap();
                    entry.1.push_str(text);
                },
                WriteOp::AppendDay { path, header, line, .. } => {
                    if self.entries.iter().all(|e| e.0 != *path) {
                        self.entries.push((path.clone(), String::new()));
                    }
                    let entry = self.entries.iter_mut().find(|e| e.0 == *path).unwrap();
                    if entry.1.is_empty() {
                        if let Some(h) = header {
                            entry.1.push_str(h);
                        }
                    }
                    entry.1.push_str(line);
                },
            }
        }
    }

    fn get(&self, path: &str) -> Option<&str> {
        self.entries.iter().find(|e| e.0 == path).map(|e| e.1.as_str())
    }
}

fn base_config() -> Config {
    Config {
        provider: Provider::Polygon,
        ticker: String::from("AAPL"),
        from: Date { y: 2025, m: 1, d: 2 },
        to: Date { y: 2025, m: 1, d: 2 },
        granularity: Granularity::Day,
        format: OutputFormat::Csv,
        out: None,
        no_header: false,
        wait_secs: 12,
        max_decimals: 2,
        split_by_day: false,
    }
}

fn key() -> Option<String> {
    Some(String::from("K"))
}

const ONE_BAR_BODY: &str = "{\"results\":[{\"t\":1735776000000,\"o\":243.5,\"h\":244.2,\"l\":241.9,\"c\":243.9,\"v\":40000000.0,\"vw\":243.1,\"n\":500000}]}";

#[test]
fn csv_one_bar_gives_header_and_one_row() {
    let (mut eng, cmd) = start(base_config(), &key(), &None).unwrap();
    assert_eq!(cmd.page, 1);
    assert!(cmd.url.starts_with("https://api.polygon.io/v2/aggs/ticker/AAPL/range/1/day/2025-01-02/2025-01-02?"));
    let step = on_response(
        &mut eng,
        HttpOutcome::Response { status: 200, body: String::from(ONE_BAR_BODY) },
    );
    let mut files = Files::new();
    match step {
        Step::Finished { ops, notice } => {
            files.apply(&ops);
            assert_eq!(notice, "Saved to output/AAPL_2025-01-02_2025-01-02.csv");
        },
        _ => panic!("expected a finished run"),
    }
    let content = files.get("output/AAPL_2025-01-02_2025-01-02.csv").unwrap();
    let lines: Vec<&str> = content.lines().collect();
    assert_eq!(lines.len(), 2);
    assert_eq!(lines[0], "ticker,timestamp,open,high,low,close,volume");
    assert_eq!(lines[1], "AAPL,2025-01-02 00:00:00,243.50,244.20,241.90,243.90,40000000.00");
    let fields: Vec<&str> = lines[1].split(',').collect();
    assert!(!fields[6].is_empty());
}

#[test]
fn zero_bars_create_no_file_and_notice_says_so() {
    let (mut eng, _cmd) = start(base_config(), &key(), &None).unwrap();
    let step = on_response(
        &mut eng,
        HttpOutcome::Response { status: 200, body: String::from("{\"results\":[]}") },
    );
    match step {
        Step::Finished { ops, notice } => {
            assert!(ops.is_empty());
            assert_eq!(notice, "No data returned for AAPL between 2025-01-02 and 2025-01-02");
        },
        _ => panic!("expected a finished run"),
    }
}

#[test]
fn absent_results_member_is_an_empty_page() {
    let (mut eng, _cmd) = start(base_config(), &key(), &None).unwrap();
    let step = on_response(
        &mut eng,
        HttpOutcome::Response { status: 200, body: String::from("{}") },
    );
    match step {
        Step::Finished { ops, .. } => assert!(ops.is_empty()),
        _ => panic!("expected a finished run"),
    }
}

#[test]
fn continuation_url_gains_the_key_and_run_sleeps() {
    let (mut eng, _cmd) = start(base_config(), &key(), &None).unwrap();
    let body = String::from(
        "{\"results\":[{\"t\":1735776000000,\"o\":1.0,\"h\":1.0,\"l\":1.0,\"c\":1.0}],\"next_url\":\"https://api.polygon.io/v2/aggs/next?cursor=abc\"}",
    );
    let step = on_response(&mut eng, HttpOutcome::Response { status: 200, body });
    let mut files = Files::new();
    match step {
        Step::Continue { ops, next, sleep_secs } => {
            files.apply(&ops);
            assert_eq!(sleep_secs, 12);
            assert_eq!(next.page, 2);
            assert_eq!(next.url, "https://api.polygon.io/v2/aggs/next?cursor=abc&apiKey=K");
        },
        _ => panic!("expected a continuing run"),
    }
    let step2 = on_response(
        &mut eng,
        HttpOutcome::Response {
            status: 200,
            body: String::from("{\"results\":[{\"t\":1735862400000,\"o\":2.0,\"h\":2.0,\"l\":2.0,\"c\":2.0}]}"),
        },
    );
    match step2 {
        Step::Finished { ops, .. } => files.apply(&ops),
        _ => panic!("expected a finished run"),
    }
    let content = files.get("output/AAPL_2025-01-02_2025-01-02.csv").unwrap();
    assert_eq!(content.lines().count(), 3);
    // missing volume renders as an empty field
    assert!(content.lines().nth(1).unwrap().ends_with(','));
}

#[test]
fn json_output_parses_for_zero_one_and_many_bars() {
    for n in 0..3usize {
        let mut cfg = base_config();
        cfg.format = OutputFormat::Json;
        let (mut eng, _cmd) = start(cfg, &key(), &None).unwrap();
        let mut files = Files::new();
        // n pages of one bar each, chained by continuations
        for i in 0..n {
            let body = format!(
                "{{\"results\":[{{\"t\":{},\"o\":243.5,\"h\":244.2,\"l\":241.9,\"c\":243.9,\"v\":1.0}}],\"next_url\":\"https://api.polygon.io/x?c={}\"}}",
                1735776000000u64 + i as u64 * 60000,
                i
            );
            match on_response(&mut eng, HttpOutcome::Response { status: 200, body }) {
                Step::Continue { ops, .. } => files.apply(&ops),
                _ => panic!("expected a continuing run"),
            }
        }
        match on_response(
            &mut eng,
            HttpOutcome::Response { status: 200, body: String::from("{\"results\":[]}") },
        ) {
            Step::Finished { ops, .. } => files.apply(&ops),
            _ => panic!("expected a finished run"),
        }
        match files.get("output/AAPL_2025-01-02_2025-01-02.json") {
            None => assert_eq!(n, 0),
            Some(content) => {
                let v: serde_json::Value = serde_json::from_str(content).unwrap();
                let arr = v.as_array().unwrap();
                assert_eq!(arr.len(), n);
                for obj in arr {
                    let m = obj.as_object().unwrap();
                    for k in ["timestamp", "open", "high", "low", "close", "volume"] {
                        assert!(m.contains_key(k));
                    }
                    // the provider sent no vw or n: the keys are absent
                    assert!(!m.contains_key("vw"));
                    assert!(!m.contains_key("n"));
                    assert_eq!(m["open"], serde_json::Value::from(243.5));
                }
            },
        }
    }
}

#[test]
fn json_array_is_closed_even_when_a_later_page_fails() {
    let mut cfg = base_config();
    cfg.format = OutputFormat::Json;
    let (mut eng, _cmd) = start(cfg, &key(), &None).unwrap();
    let body = String::from(
        "{\"results\":[{\"t\":1735776000000,\"o\":1.5,\"h\":2.0,\"l\":1.0,\"c\":1.75}],\"next_url\":\"https://api.polygon.io/x?c=1\"}",
    );
    let mut files = Files::new();
    match on_response(&mut eng, HttpOutcome::Response { status: 200, body }) {
        Step::Continue { ops, .. } => files.apply(&ops),
        _ => panic!("expected a continuing run"),
    }
    match on_response(
        &mut eng,
        HttpOutcome::Response { status: 500, body: String::from("oops") },
    ) {
        Step::Failed { ops, error } => {
            files.apply(&ops);
            assert_eq!(error.message(), "HTTP 500: oops");
        },
        _ => panic!("expected a failure"),
    }
    let content = files.get("output/AAPL_2025-01-02_2025-01-02.json").unwrap();
    let v: serde_json::Value = serde_json::from_str(content).unwrap();
    assert_eq!(v.as_array().unwrap().len(), 1);
}

#[test]
fn status_403_is_an_entitlement_error() {
    let (mut eng, _cmd) = start(base_config(), &key(), &None).unwrap();
    match on_response(
        &mut eng,
        HttpOutcome::Response { status: 403, body: String::from("NOT_AUTHORIZED") },
    ) {
        Step::Failed { error, .. } => {
            let msg = error.message();
            assert!(msg.starts_with("HTTP 403 Forbidden: NOT_AUTHORIZED"));
            assert!(msg.contains("Using --granularity day"));
            assert!(msg.contains("Upgrading your plan"));
            assert!(msg.contains("Request URL: https://api.polygon.io/"));
        },
        _ => panic!("expected a failure"),
    }
}

#[test]
fn transport_failure_is_a_network_error() {
    let (mut eng, _cmd) = start(base_config(), &key(), &None).unwrap();
    match on_response(
        &mut eng,
        HttpOutcome::Transport { detail: String::from("connection refused") },
    ) {
        Step::Failed { error, .. } => {
            let msg = error.message();
            assert!(msg.starts_with("Request failed: https://api.polygon.io/"));
            assert!(msg.ends_with("(connection refused)"));
        },
        _ => panic!("expected a failure"),
    }
}

#[test]
fn malformed_json_is_a_decode_error() {
    let (mut eng, _cmd) = start(base_config(), &key(), &None).unwrap();
    match on_response(
        &mut eng,
        HttpOutcome::Response { status: 200, body: String::from("not json") },
    ) {
        Step::Failed { error, .. } => {
            assert_eq!(error.message(), "Invalid JSON from API");
        },
        _ => panic!("expected a failure"),
    }
}

#[test]
fn missing_key_fails_before_any_request() {
    match start(base_config(), &None, &None) {
        Err(e) => {
            assert!(matches!(e, DownloadError::MissingApiKey { .. }));
            assert_eq!(
                e.message(),
                "API key not provided. Use --apikey or set POLYGON_API_KEY."
            );
        },
        Ok(_) => panic!("a run without a key must not start"),
    }
    let mut cfg = base_config();
    cfg.provider = Provider::TwelveData;
    match start(cfg, &None, &None) {
        Err(e) => {
            assert_eq!(
                e.message(),
                "API key not provided. Use --apikey or set TWELVEDATA_API_KEY."
            );
        },
        Ok(_) => panic!("a run without a key must not start"),
    }
}

#[test]
fn env_key_is_used_when_no_explicit_key() {
    let (eng, _cmd) = start(base_config(), &None, &Some(String::from("ENVK"))).unwrap();
    assert_eq!(eng.api_key, "ENVK");
}

#[test]
fn split_by_day_with_json_fails_before_any_io() {
    let mut cfg = base_config();
    cfg.format = OutputFormat::Json;
    cfg.split_by_day = true;
    match start(cfg, &key(), &None) {
        Err(e) => {
            assert!(matches!(e, DownloadError::SplitJsonUnsupported));
            assert_eq!(e.message(), "--split-by-day currently supports CSV format only");
        },
        Ok(_) => panic!("split-by-day with JSON must be rejected"),
    }
}

#[test]
fn split_by_day_routes_rows_to_day_files() {
    let mut cfg = base_config();
    cfg.split_by_day = true;
    cfg.to = Date { y: 2025, m: 1, d: 3 };
    let (mut eng, _cmd) = start(cfg, &key(), &None).unwrap();
    // two bars on consecutive days
    let body = String::from(
        "{\"results\":[{\"t\":1735776000000,\"o\":1.0,\"h\":1.0,\"l\":1.0,\"c\":1.0,\"v\":2.0},{\"t\":1735862400000,\"o\":3.0,\"h\":3.0,\"l\":3.0,\"c\":3.0,\"v\":4.0}]}",
    );
    let mut files = Files::new();
    match on_response(&mut eng, HttpOutcome::Response { status: 200, body }) {
        Step::Finished { ops, notice } => {
            files.apply(&ops);
            assert_eq!(notice, "Saved per-day CSV files under output/YYYY/MM");
        },
        _ => panic!("expected a finished run"),
    }
    let day1 = files.get("output/2025/01/AAPL_2025-01-02.csv").unwrap();
    assert_eq!(
        day1,
        "ticker,timestamp,open,high,low,close,volume\nAAPL,2025-01-02 00:00:00,1.00,1.00,1.00,1.00,2.00\n"
    );
    let day2 = files.get("output/2025/01/AAPL_2025-01-03.csv").unwrap();
    assert!(day2.ends_with("AAPL,2025-01-03 00:00:00,3.00,3.00,3.00,3.00,4.00\n"));
}

#[test]
fn no_header_flag_omits_the_header_row() {
    let mut cfg = base_config();
    cfg.no_header = true;
    let (mut eng, _cmd) = start(cfg, &key(), &None).unwrap();
    let step = on_response(
        &mut eng,
        HttpOutcome::Response { status: 200, body: String::from(ONE_BAR_BODY) },
    );
    let mut files = Files::new();
    match step {
        Step::Finished { ops, .. } => files.apply(&ops),
        _ => panic!("expected a finished run"),
    }
    let content = files.get("output/AAPL_2025-01-02_2025-01-02.csv").unwrap();
    assert_eq!(content.lines().count(), 1);
    assert!(!content.contains("ticker,timestamp"));
}

#[test]
fn default_path_creates_the_output_directory() {
    let (mut eng, _cmd) = start(base_config(), &key(), &None).unwrap();
    match on_response(
        &mut eng,
        HttpOutcome::Response { status: 200, body: String::from(ONE_BAR_BODY) },
    ) {
        Step::Finished { ops, .. } => {
            assert!(matches!(&ops[0], WriteOp::MkDirs { dir } if dir == "output"));
            assert!(matches!(&ops[1], WriteOp::Create { .. }));
        },
        _ => panic!("expected a finished run"),
    }
}

#[test]
fn explicit_path_is_used_verbatim_without_directories() {
    let mut cfg = base_config();
    cfg.out = Some(String::from("custom.csv"));
    let (mut eng, _cmd) = start(cfg, &key(), &None).unwrap();
    let mut files = Files::new();
    match on_response(
        &mut eng,
        HttpOutcome::Response { status: 200, body: String::from(ONE_BAR_BODY) },
    ) {
        Step::Finished { ops, notice } => {
            assert!(ops.iter().all(|op| !matches!(op, WriteOp::MkDirs { .. })));
            files.apply(&ops);
            assert_eq!(notice, "Saved to custom.csv");
        },
        _ => panic!("expected a finished run"),
    }
    assert!(files.get("custom.csv").is_some());
}

#[test]
fn precision_override_changes_the_rendering() {
    let mut cfg = base_config();
    cfg.max_decimals = 4;
    let (mut eng, _cmd) = start(cfg, &key(), &None).unwrap();
    let mut files = Files::new();
    match on_response(
        &mut eng,
        HttpOutcome::Response { status: 200, body: String::from(ONE_BAR_BODY) },
    ) {
        Step::Finished { ops, .. } => files.apply(&ops),
        _ => panic!("expected a finished run"),
    }
    let content = files.get("output/AAPL_2025-01-02_2025-01-02.csv").unwrap();
    assert!(content.ends_with("243.5000,244.2000,241.9000,243.9000,40000000.0000\n"));
}

#[test]
fn twelvedata_happy_path_parses_strings() {
    let mut cfg = base_config();
    cfg.provider = Provider::TwelveData;
    let (mut eng, cmd) = start(cfg, &key(), &None).unwrap();
    assert!(cmd.url.starts_with("https://api.twelvedata.com/time_series?symbol=AAPL&interval=1day"));
    let body = String::from(
        "{\"status\":\"ok\",\"values\":[{\"datetime\":\"2025-01-02\",\"open\":\"243.5\",\"high\":\"244.2\",\"low\":\"241.9\",\"close\":\"243.9\",\"volume\":\"40000000\"}]}",
    );
    let mut files = Files::new();
    match on_response(&mut eng, HttpOutcome::Response { status: 200, body }) {
        Step::Finished { ops, .. } => files.apply(&ops),
        _ => panic!("expected a finished run"),
    }
    let content = files.get("output/AAPL_2025-01-02_2025-01-02.csv").unwrap();
    assert!(content.ends_with("AAPL,2025-01-02 00:00:00,243.50,244.20,241.90,243.90,40000000.00\n"));
}

#[test]
fn twelvedata_error_status_carries_the_message() {
    let mut cfg = base_config();
    cfg.provider = Provider::TwelveData;
    let (mut eng, _cmd) = start(cfg, &key(), &None).unwrap();
    let body = String::from("{\"status\":\"ERROR\",\"message\":\"symbol not found\"}");
    match on_response(&mut eng, HttpOutcome::Response { status: 200, body }) {
        Step::Failed { error, .. } => {
            assert_eq!(error.message(), "Twelve Data API error: symbol not found");
        },
        _ => panic!("expected a failure"),
    }
}

#[test]
fn twelvedata_bad_datetime_is_a_parse_error() {
    let mut cfg = base_config();
    cfg.provider = Provider::TwelveData;
    let (mut eng, _cmd) = start(cfg, &key(), &None).unwrap();
    let body = String::from(
        "{\"values\":[{\"datetime\":\"02/01/2025\",\"open\":\"1\",\"high\":\"1\",\"low\":\"1\",\"close\":\"1\"}]}",
    );
    match on_response(&mut eng, HttpOutcome::Response { status: 200, body }) {
        Step::Failed { error, .. } => {
            assert_eq!(
                error.message(),
                "Invalid datetime in Twelve Data response: 02/01/2025"
            );
        },
        _ => panic!("expected a failure"),
    }
}

#[test]
fn twelvedata_bad_number_is_a_parse_error() {
    let mut cfg = base_config();
    cfg.provider = Provider::TwelveData;
    let (mut eng, _cmd) = start(cfg, &key(), &None).unwrap();
    let body = String::from(
        "{\"values\":[{\"datetime\":\"2025-01-02\",\"open\":\"abc\",\"high\":\"1\",\"low\":\"1\",\"close\":\"1\"}]}",
    );
    match on_response(&mut eng, HttpOutcome::Response { status: 200, body }) {
        Step::Failed { error, .. } => {
            assert!(matches!(error, DownloadError::Parse { .. }));
            assert_eq!(
                error.message(),
                "Invalid numeric value in Twelve Data response: abc"
            );
        },
        _ => panic!("expected a failure"),
    }
}

#[test]
fn json_passes_through_vw_and_n_when_supplied() {
    let mut cfg = base_config();
    cfg.format = OutputFormat::Json;
    let (mut eng, _cmd) = start(cfg, &key(), &None).unwrap();
    let mut files = Files::new();
    match on_response(
        &mut eng,
        HttpOutcome::Response { status: 200, body: String::from(ONE_BAR_BODY) },
    ) {
        Step::Finished { ops, .. } => files.apply(&ops),
        _ => panic!("expected a finished run"),
    }
    let content = files.get("output/AAPL_2025-01-02_2025-01-02.json").unwrap();
    let v: serde_json::Value = serde_json::from_str(content).unwrap();
    let obj = v.as_array().unwrap()[0].as_object().unwrap().clone();
    assert_eq!(obj["vw"], serde_json::Value::from(243.1));
    assert_eq!(obj["n"], serde_json::Value::from(500000));
}

#[test]
fn non_object_body_is_a_decode_error() {
    let (mut eng, _cmd) = start(base_config(), &key(), &None).unwrap();
    match on_response(
        &mut eng,
        HttpOutcome::Response { status: 200, body: String::from("[1,2]") },
    ) {
        Step::Failed { error, .. } => {
            assert_eq!(error.message(), "Invalid JSON from API");
        },
        _ => panic!("expected a failure"),
    }
}

#[test]
fn twelvedata_token_chains_into_the_next_url() {
    let mut cfg = base_config();
    cfg.provider = Provider::TwelveData;
    let (mut eng, _cmd) = start(cfg, &key(), &None).unwrap();
    let body = String::from(
        "{\"values\":[{\"datetime\":\"2025-01-02\",\"open\":\"1\",\"high\":\"1\",\"low\":\"1\",\"close\":\"1\",\"volume\":\"\"}],\"next_page_token\":\"t1\"}",
    );
    match on_response(&mut eng, HttpOutcome::Response { status: 200, body }) {
        Step::Continue { next, .. } => {
            assert!(next.url.ends_with("&page_token=t1"));
            assert_eq!(next.url.matches("page_token").count(), 1);
        },
        _ => panic!("expected a continuing run"),
    }
    let body2 = String::from(
        "{\"values\":[{\"datetime\":\"2025-01-02 10:00:00\",\"open\":\"2\",\"high\":\"2\",\"low\":\"2\",\"close\":\"2\"}],\"next_page_token\":\"t2\"}",
    );
    match on_response(&mut eng, HttpOutcome::Response { status: 200, body: body2 }) {
        Step::Continue { next, .. } => {
            assert!(next.url.ends_with("&page_token=t2"));
            assert_eq!(next.url.matches("page_token").count(), 1);
            assert!(!next.url.contains("t1"));
        },
        _ => panic!("expected a continuing run"),
    }
}

#[test]
fn empty_volume_string_is_an_absent_volume() {
    let mut cfg = base_config();
    cfg.provider = Provider::TwelveData;
    let (mut eng, _cmd) = start(cfg, &key(), &None).unwrap();
    let body = String::from(
        "{\"values\":[{\"datetime\":\"2025-01-02\",\"open\":\"1\",\"high\":\"1\",\"low\":\"1\",\"close\":\"1\",\"volume\":\"\"}]}",
    );
    let mut files = Files::new();
    match on_response(&mut eng, HttpOutcome::Response { status: 200, body }) {
        Step::Finished { ops, .. } => files.apply(&ops),
        _ => panic!("expected a finished run"),
    }
    let content = files.get("output/AAPL_2025-01-02_2025-01-02.csv").unwrap();
    assert!(content.lines().nth(1).unwrap().ends_with(','));
}

#[test]
fn ticker_with_comma_is_quoted_in_csv() {
    let mut cfg = base_config();
    cfg.ticker = String::from("A,\"B");
    let (mut eng, _cmd) = start(cfg, &key(), &None).unwrap();
    let body = String::from(
        "{\"results\":[{\"t\":1735776000000,\"o\":1.0,\"h\":1.0,\"l\":1.0,\"c\":1.0}]}",
    );
    let mut files = Files::new();
    match on_response(&mut eng, HttpOutcome::Response { status: 200, body }) {
        Step::Finished { ops, .. } => files.apply(&ops),
        _ => panic!("expected a finished run"),
    }
    let content = files.get("output/A,\"B_2025-01-02_2025-01-02.csv").unwrap();
    assert!(content.lines().nth(1).unwrap().starts_with("\"A,\"\"B\","));
}
