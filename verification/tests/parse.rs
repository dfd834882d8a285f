//! Parser tests for Kagi search HTML and summarizer streams.
//!
//! The pages and streams are small hand-written samples of the markup the
//! readers look for.

use kagi::search::{is_challenge_page, search_answer, search_outcome};
use kagi::summary::{find_last_data_chunk, summarize_answer, summary_from_fields, summary_json};
use kagi::{parse_search_results, parse_summary_stream, SearchResult};

const BASIC_HTML: &str = r#"<!DOCTYPE html>
<html><head><title>rust - Kagi Search</title></head>
<body>
<div class="_0_main-search-results">
  <div class="search-result">
    <h3><a class="__sri_title_link" href="https://example.com/1">
      Example One
    </a></h3>
    <div class="__sri-desc"> First result description. </div>
  </div>
  <div class="search-result">
    <h3><a class="__sri_title_link" href="https://example.com/2">Example Two</a></h3>
    <div class="__sri-desc">Second result description.</div>
  </div>
  <div class="search-result">
    <h3><a class="__sri_title_link" href="https://example.com/3">Example Three</a></h3>
  </div>
</div>
<div class="related-searches">
  <a href="/search?q=related+term+one"><span>related term one</span></a>
  <a href="/search?q=related+term+two"><span> related term two </span></a>
  <a href="/search?q="><span>   </span></a>
</div>
<div class="footer-search-results"></div>
</body></html>"#;

const GROUPED_HTML: &str = r#"<!DOCTYPE html>
<html><body>
<div class="_0_main-search-results">
  <div class="sr-group">
    <div class="__srgi">
      <div class="__srgi-title"><a href="https://grouped.com/1">Grouped One</a></div>
      <div class="__sri-desc">Grouped description one.</div>
    </div>
    <div class="__srgi">
      <div class="__srgi-title"><a href="https://grouped.com/2">Grouped Two</a></div>
    </div>
  </div>
  <div class="search-result">
    <a class="__sri_title_link" href="https://standard.com/1">Standard One</a>
    <div class="__sri-desc">Standard description one.</div>
  </div>
  <div class="sr-group">
    <div class="__srgi">
      <div class="__srgi-title"><a href="https://grouped.com/3">Grouped Three</a></div>
    </div>
  </div>
  <div class="search-result">
    <a class="__sri_title_link" href="https://standard.com/2">Standard Two</a>
  </div>
</div>
</body></html>"#;

const CAPTCHA_HTML: &str = r#"<!DOCTYPE html>
<html><head><title>Just a moment...</title></head>
<body><div id="cf-challenge-running">Please complete the CAPTCHA to continue.</div></body></html>"#;

const SUMMARY_STREAM: &str = "new_message.json:{\"state\":\"streaming\",\"md\":\"# Sum\"}[NUL]final: {\"state\":\"done\",\"md\":\"# Summary\\nThis is the summary.\"}[NUL]\n  \n";

const SUMMARY_FALLBACK: &str = "final:{\"state\":\"done\",\"md\":null,\"output_data\":{\"markdown\":\"Fallback content.\"}}";

const SUMMARY_ERROR: &str = "final:{\"state\":\"error\",\"reply\":\"We are sorry, this page could not be summarized.\"}";

fn decode_nul_fixture(input: &str) -> Vec<u8> {
    input.replace("[NUL]", "\0").into_bytes()
}

fn urls(results: &[SearchResult]) -> Vec<&str> {
    results.iter().map(|result| result.url.as_str()).collect()
}

#[test]
fn parses_standard_results_fixture() {
    let output = parse_search_results(BASIC_HTML, 2).unwrap();

    assert_eq!(output.results.len(), 2);
    assert_eq!(output.results[0].title, "Example One");
    assert_eq!(output.results[0].url, "https://example.com/1");
    assert_eq!(output.results[0].snippet, "First result description.");
    assert_eq!(output.results[1].title, "Example Two");
    assert_eq!(
        output.related,
        vec![
            "related term one".to_string(),
            "related term two".to_string()
        ]
    );
}

#[test]
fn parses_grouped_results_fixture() {
    let output = parse_search_results(GROUPED_HTML, 10).unwrap();

    assert_eq!(
        urls(&output.results),
        [
            "https://grouped.com/1",
            "https://grouped.com/2",
            "https://standard.com/1",
            "https://grouped.com/3",
            "https://standard.com/2",
        ]
    );
    assert_eq!(output.results[0].title, "Grouped One");
    assert_eq!(output.results[0].snippet, "Grouped description one.");
    assert_eq!(output.results[2].title, "Standard One");
    assert_eq!(output.results[2].snippet, "Standard description one.");
}

#[test]
fn grouped_results_keep_document_order_under_limit() {
    let output = parse_search_results(GROUPED_HTML, 3).unwrap();

    assert_eq!(
        urls(&output.results),
        [
            "https://grouped.com/1",
            "https://grouped.com/2",
            "https://standard.com/1",
        ]
    );
}

#[test]
fn detects_captcha_fixture() {
    let error = parse_search_results(CAPTCHA_HTML, 10).unwrap_err();
    assert!(error.contains("CAPTCHA"));
}

#[test]
fn parses_summary_stream_fixture() {
    let body = decode_nul_fixture(SUMMARY_STREAM);
    let output = parse_summary_stream(&body).unwrap();
    assert_eq!(output.summary, "# Summary\nThis is the summary.");
}

#[test]
fn parses_summary_stream_output_data_fallback() {
    let body = decode_nul_fixture(SUMMARY_FALLBACK);
    let output = parse_summary_stream(&body).unwrap();
    assert_eq!(output.summary, "Fallback content.");
}

#[test]
fn reports_summary_error_state() {
    let body = decode_nul_fixture(SUMMARY_ERROR);
    let error = parse_summary_stream(&body).unwrap_err();
    assert!(error.contains("sorry"));
}

#[test]
fn search_limit_zero_on_result_page_is_empty() {
    let output = parse_search_results(BASIC_HTML, 0).unwrap();
    assert!(output.results.is_empty());
    assert_eq!(output.related.len(), 2);
}

#[test]
fn zero_result_page_mentioning_captcha_is_not_blocked() {
    let html = r#"<html><body><div class="_0_main-search-results"><p>No results for "captcha solver"</p></div></body></html>"#;
    let output = parse_search_results(html, 10).unwrap();
    assert!(output.results.is_empty());
    assert!(output.related.is_empty());
}

#[test]
fn unreadable_cards_are_an_unrecognized_page() {
    let html = r#"<html><body><div class="_0_main-search-results">
        <div class="search-result"><span>no link here</span></div>
        <div class="search-result"><a class="__sri_title_link">no href</a></div>
    </div></body></html>"#;
    let error = parse_search_results(html, 10).unwrap_err();
    assert_eq!(
        error,
        "unrecognized Kagi response page (markup change or block page)"
    );
}

#[test]
fn page_without_shell_or_marker_is_unrecognized() {
    let html = "<html><body><h1>Welcome to Kagi</h1></body></html>";
    let error = parse_search_results(html, 10).unwrap_err();
    assert_eq!(
        error,
        "unrecognized Kagi response page (markup change or block page)"
    );
}

#[test]
fn uppercase_challenge_marker_is_found_after_lowercasing() {
    let html = "<html><body>JUST A MOMENT</body></html>";
    assert_eq!(
        parse_search_results(html, 5).unwrap_err(),
        "Blocked by CAPTCHA/challenge"
    );
}

#[test]
fn cards_without_href_are_skipped() {
    let html = r#"<html><body>
        <div class="search-result"><a class="__sri_title_link">skipped</a></div>
        <div class="search-result"><a class="__sri_title_link" href="https://kept.example/">  Kept  </a></div>
    </body></html>"#;
    let output = parse_search_results(html, 10).unwrap();
    assert_eq!(urls(&output.results), ["https://kept.example/"]);
    assert_eq!(output.results[0].title, "Kept");
    assert_eq!(output.results[0].snippet, "");
}

#[test]
fn challenge_markers_are_matched_in_lowercased_text() {
    assert!(is_challenge_page("<div class=\"cf-challenge\">"));
    assert!(is_challenge_page("please solve the captcha"));
    assert!(is_challenge_page("/cdn-cgi/challenge-platform/h/b"));
    assert!(is_challenge_page("just a moment..."));
    assert!(!is_challenge_page("just a minute"));
    assert!(!is_challenge_page(""));
}

fn hit(url: &str) -> Option<SearchResult> {
    Some(SearchResult {
        url: url.to_string(),
        title: format!("title {url}"),
        snippet: String::new(),
    })
}

#[test]
fn search_outcome_keeps_first_hits_in_card_order() {
    let cards = vec![None, hit("a"), None, hit("b"), hit("c")];
    let output = search_outcome(&cards, vec!["r".to_string()], 2, false, true).unwrap();
    assert_eq!(urls(&output.results), ["a", "b"]);
    assert_eq!(output.related, vec!["r".to_string()]);
}

#[test]
fn search_outcome_errors() {
    let unreadable = vec![None, None];
    assert_eq!(
        search_outcome(&unreadable, Vec::new(), 3, true, false).unwrap_err(),
        "unrecognized Kagi response page (markup change or block page)"
    );
    assert_eq!(
        search_outcome(&unreadable, Vec::new(), 3, false, true).unwrap_err(),
        "Blocked by CAPTCHA/challenge"
    );
    assert_eq!(
        search_outcome(&Vec::new(), Vec::new(), 3, false, false).unwrap_err(),
        "unrecognized Kagi response page (markup change or block page)"
    );
    assert_eq!(
        search_outcome(&unreadable, Vec::new(), 0, true, true).unwrap_err(),
        "unrecognized Kagi response page (markup change or block page)"
    );
    let readable = vec![
        None,
        Some(SearchResult { url: "https://a.example".into(), title: "A".into(), snippet: String::new() }),
    ];
    let empty = search_outcome(&readable, Vec::new(), 0, true, true).unwrap();
    assert!(empty.results.is_empty());
}

#[test]
fn last_data_chunk_skips_blank_tail() {
    let body = b"first\0second\0 \t\r\n\0\n";
    assert_eq!(find_last_data_chunk(body), Some(b"second".to_vec()));
    assert_eq!(find_last_data_chunk(b" \0\n\0"), None);
    assert_eq!(find_last_data_chunk(b"only"), Some(b"only".to_vec()));
}

#[test]
fn summary_json_strips_labels_and_reports_framing_errors() {
    assert_eq!(summary_json(b"final:  {\"md\":\"x\"} ").unwrap(), "{\"md\":\"x\"}");
    assert_eq!(summary_json(b"new_message.json:{}").unwrap(), "{}");
    assert_eq!(summary_json(b"  {\"a\":1}\n").unwrap(), "{\"a\":1}");
    assert_eq!(summary_json(b"").unwrap_err(), "Empty response from summarizer");
    assert_eq!(summary_json(b"\0 \0").unwrap_err(), "No data chunks in response");
    let invalid = summary_json(b"final:\xff\xfe").unwrap_err();
    assert!(invalid.starts_with("Invalid UTF-8 in response: "));
    assert!(invalid.len() > "Invalid UTF-8 in response: ".len());
}

#[test]
fn summary_stream_error_messages() {
    let bad_json = parse_summary_stream(b"final:{not json").unwrap_err();
    assert!(bad_json.starts_with("Failed to parse summary JSON: "));
    assert!(bad_json.len() > "Failed to parse summary JSON: ".len());
    assert_eq!(
        parse_summary_stream(b"{\"state\":\"done\"}").unwrap_err(),
        "Missing markdown in response"
    );
    assert_eq!(
        parse_summary_stream(b"{\"md\":\"\"}").unwrap_err(),
        "Empty summary returned"
    );
    assert_eq!(
        parse_summary_stream(b"{\"state\":\"error\"}").unwrap_err(),
        "Summarizer error: Unknown error"
    );
    assert_eq!(
        parse_summary_stream(b"{\"state\":\"error\",\"reply\":\"bad\\u001b[31m\"}").unwrap_err(),
        "Summarizer error: bad[31m"
    );
}

#[test]
fn summary_fields_prefer_md() {
    let output = summary_from_fields(
        Some("done".to_string()),
        None,
        Some("primary".to_string()),
        Some("fallback".to_string()),
    )
    .unwrap();
    assert_eq!(output.summary, "primary");
    let fallback = summary_from_fields(None, None, None, Some("fallback".to_string())).unwrap();
    assert_eq!(fallback.summary, "fallback");
    assert_eq!(
        summary_from_fields(Some("error".to_string()), Some("oops\u{7}".to_string()), Some("x".to_string()), None)
            .unwrap_err(),
        "Summarizer error: oops"
    );
}

#[test]
fn non_string_md_falls_back_to_output_data() {
    let body = br#"{"state":"done","md":5,"output_data":{"markdown":"from output data"}}"#;
    assert_eq!(parse_summary_stream(body).unwrap().summary, "from output data");
    let nested_missing = br#"{"state":"done","output_data":"not an object"}"#;
    assert_eq!(
        parse_summary_stream(nested_missing).unwrap_err(),
        "Missing markdown in response"
    );
}

#[test]
fn unreadable_cards_are_refused_at_limit_zero_too() {
    let html = r#"<html><body><div class="_0_main-search-results">
        <div class="search-result"><span>no link here</span></div>
    </div></body></html>"#;
    let error = parse_search_results(html, 0).unwrap_err();
    assert_eq!(
        error,
        "unrecognized Kagi response page (markup change or block page)"
    );
}

#[test]
fn larger_limit_only_extends_the_hits() {
    let small = parse_search_results(GROUPED_HTML, 2).unwrap();
    let large = parse_search_results(GROUPED_HTML, 4).unwrap();
    assert_eq!(small.results[..], large.results[..2]);
    assert_eq!(small.related, large.related);
    assert_eq!(large.results.len(), 4);
}

#[test]
fn search_answer_checks_the_response_before_the_page() {
    let page = || Ok(BASIC_HTML.to_string());
    let welcome = search_answer("/welcome", 200, "200 OK", page(), 10).unwrap_err();
    assert_eq!(welcome.message(), "invalid or expired session token");
    let forbidden = search_answer("/html/search", 403, "403 Forbidden", page(), 10).unwrap_err();
    assert_eq!(forbidden.message(), "invalid or expired session token");
    let limited = search_answer("/html/search", 429, "429 Too Many Requests", page(), 10).unwrap_err();
    assert_eq!(limited.message(), "rate limited");
    let failed = search_answer("/html/search", 500, "500 Internal Server Error", page(), 10).unwrap_err();
    assert_eq!(failed.message(), "HTTP 500 Internal Server Error");
    let unread = search_answer("/html/search", 200, "200 OK", Err("connection reset".to_string()), 10).unwrap_err();
    assert_eq!(unread.message(), "Failed to read response: connection reset");
    let ok = search_answer("/html/search", 200, "200 OK", page(), 10).unwrap();
    assert_eq!(ok, parse_search_results(BASIC_HTML, 10).unwrap());
    let blocked = search_answer("/html/search", 200, "200 OK", Ok(CAPTCHA_HTML.to_string()), 10).unwrap_err();
    assert_eq!(blocked.message(), "Blocked by CAPTCHA/challenge");
}

#[test]
fn summarize_answer_checks_the_status_before_the_stream() {
    let body = || Ok(decode_nul_fixture(SUMMARY_STREAM));
    assert_eq!(summarize_answer(401, "401 Unauthorized", body()).unwrap_err().message(), "invalid or expired session token");
    assert_eq!(summarize_answer(429, "429 Too Many Requests", body()).unwrap_err().message(), "rate limited");
    assert_eq!(summarize_answer(502, "502 Bad Gateway", body()).unwrap_err().message(), "HTTP 502 Bad Gateway");
    assert_eq!(
        summarize_answer(200, "200 OK", Err("timed out".to_string())).unwrap_err().message(),
        "Failed to read response: timed out"
    );
    assert_eq!(summarize_answer(200, "200 OK", body()).unwrap().summary, "# Summary\nThis is the summary.");
    let refused = summarize_answer(200, "200 OK", Ok(decode_nul_fixture(SUMMARY_ERROR))).unwrap_err();
    assert!(refused.message().contains("sorry"));
}
