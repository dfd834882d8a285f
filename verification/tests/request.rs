use kagi::cli::validate_date;
use kagi::request::{
    build_maps_query_params, build_query, build_search_query_params, build_summarize_query_params,
    check_search_response, check_status, check_token_file_mode, choose_session_token,
    env_session_token, response_error, select_config_home, token_file_step, token_from_contents,
    token_from_text, search_request_params, session_token_from_files, session_token_lookup,
    ResponseError, TokenFileProbe, TokenFileStep, TokenLookup,
};
use kagi::KagiError;
use kagi::{Lens, MapsArgs, OutputFormat, SearchArgs, Sort, SummarizeArgs, SummaryType, TimeRange};

fn search_args() -> SearchArgs {
    SearchArgs {
        query: vec!["memory".into(), "leak".into()],
        limit: 10,
        region: None,
        lens: None,
        sort: None,
        time: None,
        from: None,
        to: None,
        site: None,
        filetype: None,
        verbatim: false,
        output: OutputFormat::Text,
        json: false,
    }
}

fn owned(params: &[(&'static str, String)]) -> Vec<(String, String)> {
    params.iter().map(|(k, v)| (k.to_string(), v.clone())).collect()
}

fn pairs(items: &[(&str, &str)]) -> Vec<(String, String)> {
    items.iter().map(|(k, v)| (k.to_string(), v.to_string())).collect()
}

#[test]
fn query_appends_site_and_filetype() {
    let mut args = search_args();
    assert_eq!(build_query(&args), "memory leak");
    args.site = Some("github.com".into());
    args.filetype = Some("rs".into());
    assert_eq!(build_query(&args), "memory leak site:github.com filetype:rs");
}

#[test]
fn search_params_follow_options() {
    let mut args = search_args();
    assert_eq!(owned(&build_search_query_params(&args, "q1")), pairs(&[("q", "q1")]));
    args.region = Some("ch".into());
    args.lens = Some(Lens::Programming);
    args.sort = Some(Sort::Recency);
    args.time = Some(TimeRange::Week);
    args.from = Some("2026-01-01".into());
    args.to = Some("2026-03-01".into());
    args.verbatim = true;
    assert_eq!(
        owned(&build_search_query_params(&args, "q2")),
        pairs(&[
            ("q", "q2"),
            ("r", "ch"),
            ("l", "1"),
            ("order", "2"),
            ("dr", "2"),
            ("from_date", "2026-01-01"),
            ("to_date", "2026-03-01"),
            ("verbatim", "1"),
        ])
    );
}

#[test]
fn maps_and_summary_params() {
    let args = MapsArgs {
        query: vec!["coffee".into(), "zurich".into()],
        limit: 5,
        ll: Some("47.3769,8.5417".into()),
        bbox: None,
        zoom: Some("13".into()),
        sort: None,
        order: None,
        output: OutputFormat::Text,
        json: false,
    };
    assert_eq!(
        owned(&build_maps_query_params(&args, "coffee zurich")),
        pairs(&[("q", "coffee zurich"), ("ll", "47.3769,8.5417"), ("z", "13")])
    );
    let summarize = SummarizeArgs {
        url: "https://www.rust-lang.org/learn".into(),
        summary_type: SummaryType::Takeaway,
        lang: "DE".into(),
        output: OutputFormat::Json,
        json: false,
    };
    assert_eq!(
        owned(&build_summarize_query_params(&summarize)),
        pairs(&[
            ("url", "https://www.rust-lang.org/learn"),
            ("stream", "1"),
            ("target_language", "DE"),
            ("summary_type", "takeaway"),
        ])
    );
}

#[test]
fn status_checks() {
    assert_eq!(check_status(200), Ok(()));
    assert_eq!(check_status(204), Ok(()));
    assert_eq!(check_status(401), Err(ResponseError::InvalidToken));
    assert_eq!(check_status(403), Err(ResponseError::InvalidToken));
    assert_eq!(check_status(429), Err(ResponseError::RateLimited));
    assert_eq!(check_status(302), Err(ResponseError::Status(302)));
    assert_eq!(check_status(500), Err(ResponseError::Status(500)));
    assert_eq!(check_search_response("/welcome", 200), Err(ResponseError::InvalidToken));
    assert_eq!(check_search_response("/html/search", 200), Ok(()));
    assert_eq!(check_search_response("/html/search", 429), Err(ResponseError::RateLimited));
    assert_eq!(
        response_error(ResponseError::Status(500), "500 Internal Server Error").message(),
        "HTTP 500 Internal Server Error"
    );
    assert_eq!(response_error(ResponseError::InvalidToken, "").message(), "invalid or expired session token");
    assert_eq!(response_error(ResponseError::RateLimited, "").message(), "rate limited");
}

#[test]
fn search_requires_session_token_before_network() {
    let error = choose_session_token(env_session_token(None), None).unwrap_err();
    assert!(error.message().contains("missing session token"));
}

#[test]
fn maps_requires_session_token_before_network() {
    let error = choose_session_token(None, None).unwrap_err();
    assert!(error.message().contains("missing session token"));
}

#[test]
fn search_treats_empty_env_token_as_missing() {
    assert_eq!(env_session_token(Some(String::new())), None);
    assert_eq!(env_session_token(Some(" \n".into())), None);
    let error = choose_session_token(env_session_token(Some(String::new())), None).unwrap_err();
    assert!(error.message().contains("missing session token"));
}

#[test]
fn env_token_is_trimmed_and_wins() {
    assert_eq!(env_session_token(Some("  abc\n".into())), Some("abc".to_string()));
    assert_eq!(
        choose_session_token(Some("env".into()), Some("file".into())).unwrap(),
        "env"
    );
    assert_eq!(choose_session_token(None, Some("file".into())).unwrap(), "file");
    assert_eq!(token_from_text("file-token\n"), Some("file-token".to_string()));
    assert_eq!(token_from_text("\u{2003}\t"), None);
}

#[test]
fn search_ignores_relative_xdg_config_home() {
    assert_eq!(select_config_home(Some("relative"), false, Some("/home/u/.config")), Some("/home/u/.config"));
    assert_eq!(select_config_home(Some(""), false, Some("/home/u/.config")), Some("/home/u/.config"));
    assert_eq!(select_config_home(Some("/xdg"), true, Some("/home/u/.config")), Some("/xdg"));
    assert_eq!(select_config_home::<&str>(None, false, None), None);
}

#[test]
fn search_rejects_world_readable_token_file() {
    let error = check_token_file_mode("/home/u/.config/kagi/session-token", 0o100644).unwrap_err();
    assert!(error.message().contains("group/world-readable"));
    assert!(error.message().contains("chmod 600"));
    assert!(check_token_file_mode("/t", 0o100600).is_ok());
    assert!(check_token_file_mode("/t", 0o100604).is_err());
}

#[test]
fn search_rejects_invalid_date() {
    let error = validate_date("20260301").unwrap_err();
    assert!(error.contains("expected YYYY-MM-DD"));
    assert_eq!(error, "invalid date '20260301', expected YYYY-MM-DD");
    assert_eq!(validate_date("2026-03-01").unwrap(), "2026-03-01");
    assert!(validate_date("2026-3-01x").is_err());
    assert!(validate_date("2026/03/01").is_err());
    assert!(validate_date("２０２６-03-01").is_err());
}

#[test]
fn api_values_and_output_resolution() {
    assert_eq!(Lens::Default.as_api_value(), "0");
    assert_eq!(Lens::WorldNews.as_api_value(), "5");
    assert_eq!(Sort::AdTrackers.as_api_value(), "4");
    assert_eq!(TimeRange::Year.as_api_value(), "4");
    assert_eq!(SummaryType::Summary.as_api_value(), "summary");
    let mut args = search_args();
    assert_eq!(args.resolved_output(), OutputFormat::Text);
    args.json = true;
    assert_eq!(args.resolved_output(), OutputFormat::Json);
    assert_eq!(OutputFormat::default(), OutputFormat::Text);
    assert_eq!(kagi::cli::default_maps_order(kagi::MapsSort::Rating), kagi::MapsOrder::Desc);
    assert_eq!(kagi::cli::default_maps_order(kagi::MapsSort::Price), kagi::MapsOrder::Asc);
}

#[test]
fn missing_token_file_is_skipped() {
    assert!(matches!(token_file_step("/cfg/kagi/session-token", TokenFileProbe::Missing), TokenFileStep::Next));
}

#[test]
fn owner_only_token_file_is_read() {
    let step = token_file_step("/cfg/kagi/session-token", TokenFileProbe::Found(Some(0o100600)));
    assert!(matches!(step, TokenFileStep::Read));
    let step = token_file_step("/cfg/kagi/session-token", TokenFileProbe::Found(None));
    assert!(matches!(step, TokenFileStep::Read));
}

#[test]
fn readable_token_file_stops_the_search() {
    match token_file_step("/cfg/kagi/session-token", TokenFileProbe::Found(Some(0o100644))) {
        TokenFileStep::Fail(error) => assert_eq!(
            error.message(),
            "session token file /cfg/kagi/session-token is group/world-readable; run: chmod 600 /cfg/kagi/session-token"
        ),
        other => panic!("unexpected step {other:?}"),
    }
}

#[test]
fn unreadable_token_file_metadata_stops_the_search() {
    let probe = TokenFileProbe::Unreadable("Permission denied (os error 13)".to_string());
    match token_file_step("/cfg/kagi/session-token", probe) {
        TokenFileStep::Fail(error) => assert_eq!(
            error.message(),
            "failed to read session token file /cfg/kagi/session-token: Permission denied (os error 13)"
        ),
        other => panic!("unexpected step {other:?}"),
    }
}

#[test]
fn token_file_contents_give_the_trimmed_token() {
    let token = token_from_contents("/t", Ok("  abc123\n".to_string())).unwrap();
    assert_eq!(token.as_deref(), Some("abc123"));
    let blank = token_from_contents("/t", Ok(" \n\t".to_string())).unwrap();
    assert_eq!(blank, None);
    let error = token_from_contents("/t", Err("Is a directory (os error 21)".to_string())).unwrap_err();
    assert_eq!(error.message(), "failed to read session token file /t: Is a directory (os error 21)");
}

#[test]
fn variable_token_means_no_file_is_read() {
    match session_token_lookup(Some("  tok  ".to_string())) {
        TokenLookup::Found(token) => assert_eq!(token, "tok"),
        other => panic!("unexpected lookup {other:?}"),
    }
    assert!(matches!(session_token_lookup(Some(" \n".to_string())), TokenLookup::ReadTokenFile));
    assert!(matches!(session_token_lookup(None), TokenLookup::ReadTokenFile));
}

#[test]
fn file_search_result_gives_the_token_or_the_error() {
    assert_eq!(session_token_from_files(Ok(Some("filetok".to_string()))).unwrap(), "filetok");
    let missing = session_token_from_files(Ok(None)).unwrap_err();
    assert!(missing.message().contains("missing session token"));
    let stopped = session_token_from_files(Err(KagiError::new("failed to read session token file /t: denied".to_string())))
        .unwrap_err();
    assert_eq!(stopped.message(), "failed to read session token file /t: denied");
}

#[test]
fn search_request_params_use_the_built_query() {
    let mut args = search_args();
    args.site = Some("rust-lang.org".into());
    let query = build_query(&args);
    assert_eq!(owned(&search_request_params(&args)), owned(&build_search_query_params(&args, &query)));
    assert_eq!(query, "memory leak site:rust-lang.org");
}
