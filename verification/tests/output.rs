use kagi::output::write_search_text;
use kagi::{sanitize, SearchOutput, SearchResult};

#[test]
fn sanitize_strips_escape_and_control_bytes() {
    // Removing ESC and BEL defuses the OSC sequence; the leftover
    // payload is harmless plain text.
    assert_eq!(sanitize("\u{1b}]0;owned\u{7}title"), "]0;ownedtitle");
    assert_eq!(sanitize("plain text"), "plain text");
    assert_eq!(
        sanitize("keeps\nnewline\tand tab"),
        "keeps\nnewline\tand tab"
    );
}

#[test]
fn search_text_output_strips_escape_sequences() {
    let output = SearchOutput {
        results: vec![SearchResult {
            url: "https://example.com".into(),
            title: "\u{1b}]0;owned\u{7}Example".into(),
            snippet: String::new(),
        }],
        related: Vec::new(),
    };

    let mut buffer = String::new();
    write_search_text(&mut buffer, &output);
    let text = buffer;

    assert!(text.contains("Example"));
    assert!(!text.contains('\u{1b}'));
    assert!(!text.contains('\u{7}'));
}

use kagi::output::{finish, write_maps_text, write_summary_text, MapsTextEntry, WriteFailure};
use kagi::SummarizeOutput;

#[test]
fn search_text_numbers_results_and_lists_related() {
    let output = SearchOutput {
        results: vec![
            SearchResult {
                url: "https://en.wikipedia.org/wiki/Steve_Jobs".into(),
                title: "Steve Jobs - Wikipedia".into(),
                snippet: "Steven Paul Jobs was an American businessman...".into(),
            },
            SearchResult {
                url: "https://example.com/b".into(),
                title: "Second".into(),
                snippet: String::new(),
            },
        ],
        related: vec!["steve jobs death".into(), "steve\u{1b} jobs quotes".into()],
    };
    let mut text = String::new();
    write_search_text(&mut text, &output);
    assert_eq!(
        text,
        "1. Steve Jobs - Wikipedia\n   https://en.wikipedia.org/wiki/Steve_Jobs\n   Steven Paul Jobs was an American businessman...\n\n2. Second\n   https://example.com/b\n\nRelated: steve jobs death, steve jobs quotes\n"
    );
}

#[test]
fn search_text_without_related_has_no_related_line() {
    let output = SearchOutput { results: Vec::new(), related: Vec::new() };
    let mut text = String::from("prefix");
    write_search_text(&mut text, &output);
    assert_eq!(text, "prefix");
}

#[test]
fn summary_text_is_sanitized_markdown_line() {
    let mut text = String::new();
    write_summary_text(&mut text, &SummarizeOutput { summary: "# Title\u{1b}[2J\nbody".into() });
    assert_eq!(text, "# Title[2J\nbody\n");
}

fn entry(name: &str) -> MapsTextEntry {
    MapsTextEntry {
        name: name.into(),
        address: None,
        latitude: "47.3726576".into(),
        longitude: "8.5262939".into(),
        rating: None,
        review_count: None,
        price: None,
        hours_now: None,
        phone: None,
        url: None,
    }
}

#[test]
fn maps_text_shows_known_details() {
    let mut first = entry("Example Coffee");
    first.address = Some("Example Street 1".into());
    first.rating = Some("4.7".into());
    first.review_count = Some(477);
    first.price = Some("$$".into());
    first.hours_now = Some("Open\u{7} now".into());
    first.phone = Some("+41 44 000 00 00".into());
    first.url = Some("https://coffee.example".into());
    let mut second = entry("Bare");
    second.rating = Some("3".into());
    let third = entry("Plain");
    let mut text = String::new();
    write_maps_text(&mut text, &vec![first, second, third]);
    assert_eq!(
        text,
        "1. Example Coffee\n   Example Street 1\n   47.3726576, 8.5262939\n   Rating: 4.7 (477) | Price: $$ | Open now\n   +41 44 000 00 00\n   https://coffee.example\n\n2. Bare\n   47.3726576, 8.5262939\n   Rating: 3\n\n3. Plain\n   47.3726576, 8.5262939\n\n"
    );
}

#[test]
fn numbers_above_nine_are_written_in_full() {
    let entries: Vec<MapsTextEntry> = (0..12).map(|i| entry(&format!("p{i}"))).collect();
    let mut text = String::new();
    write_maps_text(&mut text, &entries);
    assert!(text.contains("\n10. p9\n"));
    assert!(text.contains("\n12. p11\n"));
}

#[test]
fn finish_treats_broken_pipe_as_success() {
    assert!(finish(Ok(())).is_ok());
    assert!(finish(Err(WriteFailure { broken_pipe: true, description: "Broken pipe (os error 32)".into() })).is_ok());
    let error = finish(Err(WriteFailure { broken_pipe: false, description: "No space left on device".into() })).unwrap_err();
    assert_eq!(error.message(), "failed to write output: No space left on device");
}

#[test]
fn sanitize_removes_c1_controls_and_delete() {
    assert_eq!(sanitize("a\u{7f}b\u{85}c\u{9f}d\u{a0}e"), "abcd\u{a0}e");
    assert_eq!(sanitize("\r\n"), "\n");
}

#[test]
fn sanitizing_twice_changes_nothing_more() {
    for text in ["\u{1b}]0;x\u{7}y", "plain", "a\u{0}b\u{9f}\n\t", ""] {
        let once = sanitize(text);
        assert_eq!(sanitize(&once), once);
    }
}
