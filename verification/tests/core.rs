use market_data_downloader::calendar::fmt_ts;
use market_data_downloader::calendar::parse_date;
use market_data_downloader::calendar::parse_datetime_ms;
use market_data_downloader::calendar::Date;
use market_data_downloader::decimal::format_fixed;
use market_data_downloader::decimal::parse_decimal;
use market_data_downloader::engine::compute_out_path;
use market_data_downloader::request::build_initial_twelvedata;
use market_data_downloader::request::build_next_twelvedata;
use market_data_downloader::request::ensure_api_key_present;
use market_data_downloader::request::to_url;
use market_data_downloader::types::OutputFormat;
use market_data_downloader::types::Granularity;
use market_data_downloader::urlenc::pct_decode;
use market_data_downloader::urlenc::pct_encode;

fn date(y: i32, m: u8, d: u8) -> Date {
    Date { y, m, d }
}

#[test]
fn test_fmt_ts_zero() {
    assert_eq!(fmt_ts(0), "1970-01-01 00:00:00");
}

#[test]
fn test_fmt_ts_known() {
    // 2024-04-01 00:00:00 UTC in ms
    let ts = 1711929600000i64;
    assert_eq!(fmt_ts(ts), "2024-04-01 00:00:00");
}

#[test]
fn test_compute_out_path_defaults_csv() {
    let d1 = date(2025, 1, 1);
    let d2 = date(2025, 1, 31);
    let out = compute_out_path("I:NDX", &d1, &d2, OutputFormat::Csv, &None);
    assert_eq!(out, "output/I:NDX_2025-01-01_2025-01-31.csv");
}

#[test]
fn test_compute_out_path_defaults_json() {
    let d1 = date(2024, 2, 1);
    let d2 = date(2024, 2, 2);
    let out = compute_out_path("AAPL", &d1, &d2, OutputFormat::Json, &None);
    assert_eq!(out, "output/AAPL_2024-02-01_2024-02-02.json");
}

#[test]
fn test_compute_out_path_respects_explicit() {
    let d1 = date(2025, 9, 1);
    let d2 = date(2025, 9, 4);
    let explicit = Some(String::from("custom.csv"));
    let out = compute_out_path("I:SPX", &d1, &d2, OutputFormat::Csv, &explicit);
    assert_eq!(out, "custom.csv");
}

#[test]
fn test_ensure_api_key_present_adds_when_missing() {
    let out = ensure_api_key_present("https://example.com/path?foo=1", "KEY123");
    assert!(out.contains("apiKey=KEY123"));
    assert_eq!(out, "https://example.com/path?foo=1&apiKey=KEY123");
}

#[test]
fn test_ensure_api_key_present_keeps_when_present() {
    let url = "https://example.com/path?apiKey=ABC&x=1";
    let out = ensure_api_key_present(url, "SHOULD_NOT_OVERRIDE");
    // ensure existing value is not overridden
    assert_eq!(out.matches("apiKey").count(), 1);
    assert_eq!(out, url);
    assert!(!out.contains("SHOULD_NOT_OVERRIDE"));
}

#[test]
fn key_injection_opens_query_when_none() {
    let out = ensure_api_key_present("https://example.com/path", "K");
    assert_eq!(out, "https://example.com/path?apiKey=K");
}

#[test]
fn key_injection_decodes_existing_key_names() {
    // %61piKey decodes to apiKey, so the parameter counts as present.
    let out = ensure_api_key_present("https://e.com/p?%61piKey=Z", "NEW");
    assert_eq!(out, "https://e.com/p?%61piKey=Z");
}

#[test]
fn key_injection_encodes_the_key_value() {
    let out = ensure_api_key_present("https://e.com/p?a=1", "k e/y");
    assert_eq!(out, "https://e.com/p?a=1&apiKey=k%20e%2Fy");
}

#[test]
fn format_fixed_rounds_half_away_from_zero() {
    let d = parse_decimal("2.675").unwrap();
    assert_eq!(format_fixed(&d, 2), "2.68");
    let d = parse_decimal("-2.675").unwrap();
    assert_eq!(format_fixed(&d, 2), "-2.68");
    let d = parse_decimal("2.674").unwrap();
    assert_eq!(format_fixed(&d, 2), "2.67");
}

#[test]
fn format_fixed_pads_and_truncates() {
    let d = parse_decimal("123.5").unwrap();
    assert_eq!(format_fixed(&d, 2), "123.50");
    assert_eq!(format_fixed(&d, 0), "124");
    assert_eq!(format_fixed(&d, 4), "123.5000");
    let d = parse_decimal("0.005").unwrap();
    assert_eq!(format_fixed(&d, 2), "0.01");
    let d = parse_decimal("0").unwrap();
    assert_eq!(format_fixed(&d, 2), "0.00");
}

#[test]
fn format_fixed_is_deterministic() {
    let d = parse_decimal("19.994999").unwrap();
    let first = format_fixed(&d, 2);
    for _ in 0..10 {
        assert_eq!(format_fixed(&d, 2), first);
    }
    assert_eq!(first, "19.99");
}

#[test]
fn format_fixed_handles_exponents() {
    let d = parse_decimal("1.5e2").unwrap();
    assert_eq!(format_fixed(&d, 2), "150.00");
    let d = parse_decimal("2.5e-3").unwrap();
    assert_eq!(format_fixed(&d, 2), "0.00");
    let d = parse_decimal("1e+2").unwrap();
    assert_eq!(format_fixed(&d, 0), "100");
}

#[test]
fn parse_decimal_rejects_malformed_text() {
    assert!(parse_decimal("").is_none());
    assert!(parse_decimal("abc").is_none());
    assert!(parse_decimal(".").is_none());
    assert!(parse_decimal("1e").is_none());
    assert!(parse_decimal("1.2.3").is_none());
    assert!(parse_decimal("+-1").is_none());
    assert!(parse_decimal("1 ").is_none());
}

#[test]
fn parse_decimal_accepts_float_grammar() {
    assert!(parse_decimal(".5").is_some());
    assert!(parse_decimal("5.").is_some());
    assert!(parse_decimal("+1.5e+2").is_some());
    assert!(parse_decimal("-0.25").is_some());
}

#[test]
fn parse_date_checks_the_calendar() {
    assert!(parse_date("2024-02-29").is_some());
    assert!(parse_date("2023-02-29").is_none());
    assert!(parse_date("2025-13-01").is_none());
    assert!(parse_date("2025-00-10").is_none());
    assert!(parse_date("2025-1-01").is_none());
    assert!(parse_date("not-a-date").is_none());
    let d = parse_date("2025-01-02").unwrap();
    assert_eq!((d.y, d.m, d.d), (2025, 1, 2));
}

#[test]
fn parse_datetime_accepts_both_shapes() {
    assert_eq!(parse_datetime_ms("2024-04-01 00:00:00"), Some(1711929600000));
    assert_eq!(parse_datetime_ms("2024-04-01"), Some(1711929600000));
    assert_eq!(parse_datetime_ms("1970-01-01 00:00:01"), Some(1000));
    assert!(parse_datetime_ms("2024-04-01T00:00:00").is_none());
    assert!(parse_datetime_ms("2024-04-01 25:00:00").is_none());
    assert!(parse_datetime_ms("2024-02-30 10:00:00").is_none());
}

#[test]
fn fmt_ts_falls_back_to_the_raw_number() {
    // far outside the calendar range: rendered as the plain number
    assert_eq!(fmt_ts(i64::MIN), "-9223372036854775808");
    assert_eq!(fmt_ts(i64::MAX), "9223372036854775807");
}

#[test]
fn pct_encode_keeps_unreserved_and_escapes_the_rest() {
    assert_eq!(pct_encode("AZaz09-._~"), "AZaz09-._~");
    assert_eq!(pct_encode("I:NDX"), "I%3ANDX");
    assert_eq!(pct_encode("a b"), "a%20b");
    assert_eq!(pct_encode("\u{e9}"), "%C3%A9");
}

#[test]
fn pct_decode_inverts_simple_encodings() {
    assert_eq!(pct_decode("a%20b"), "a b");
    assert_eq!(pct_decode("a+b"), "a b");
    assert_eq!(pct_decode("100%"), "100%");
}

#[test]
fn next_request_replaces_the_token() {
    let from = date(2025, 1, 2);
    let to = date(2025, 1, 2);
    let initial = build_initial_twelvedata("AAPL", &from, &to, Granularity::Day, "KEY");
    let r1 = build_next_twelvedata(&initial, "tok1");
    let r2 = build_next_twelvedata(&r1, "tok2");
    let tokens: Vec<&(String, String)> =
        r2.params.iter().filter(|p| p.0 == "page_token").collect();
    assert_eq!(tokens.len(), 1);
    assert_eq!(tokens[0].1, "tok2");
    assert!(r2.params.iter().all(|p| p.0 != "next_page_token"));
    let url = to_url(&r2);
    assert_eq!(url.matches("page_token").count(), 1);
    assert!(url.ends_with("page_token=tok2"));
    assert!(!url.contains("tok1"));
}

#[test]
fn initial_polygon_url_is_exact() {
    let from = date(2025, 1, 2);
    let to = date(2025, 1, 2);
    let req = market_data_downloader::request::build_initial_polygon(
        "I:NDX",
        &from,
        &to,
        Granularity::Minute,
        "K",
    );
    let url = to_url(&req);
    assert_eq!(
        url,
        "https://api.polygon.io/v2/aggs/ticker/I%3ANDX/range/1/minute/2025-01-02/2025-01-02?adjusted=true&sort=asc&limit=50000&apiKey=K"
    );
}
