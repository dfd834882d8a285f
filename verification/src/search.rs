//! Reading a Kagi web-search result page.
//!
//! A page lists result cards (standard cards and the rows of grouped cards,
//! interleaved in document order). A card yields a hit when its title link has
//! an `href`; a card without one is skipped. The first `limit` hits are kept.
//! A page without hits is only believed when it is a recognised search page.

use vstd::prelude::*;
use vstd::string::StringExecFns;

use crate::html::{
    css_selector_parses, html_document_select, html_element_attr, html_element_classes,
    html_element_select, html_element_text, CssSelector, ElementPath, HtmlPage, PageElement,
};
use crate::error::KagiError;
use crate::request::{
    check_search_response, read_failure, read_failure_message, response_error, response_error_message,
    search_response_verdict, text_result,
};
use crate::text::{
    chars_of, contains_text, lowercased, occurs_in, same_text, texts_of, to_lowercase, trim, trimmed,
};

verus! {

/// One hit of a web search.
#[derive(Debug, PartialEq, Eq)]
pub struct SearchResult {
    pub url: String,
    pub title: String,
    pub snippet: String,
}

/// The characters of a search hit.
pub struct SearchHit {
    pub url: Seq<char>,
    pub title: Seq<char>,
    pub snippet: Seq<char>,
}

impl View for SearchResult {
    type V = SearchHit;

    open spec fn view(&self) -> SearchHit {
        SearchHit { url: self.url@, title: self.title@, snippet: self.snippet@ }
    }
}

impl SearchResult {
    /// A copy of this hit.
    pub fn duplicate(&self) -> (copy: SearchResult)
        ensures
            copy == *self,
    {
        SearchResult { url: self.url.clone(), title: self.title.clone(), snippet: self.snippet.clone() }
    }
}

/// The hits of a web search, in Kagi's order, and the related searches it suggests.
#[derive(Debug, PartialEq, Eq)]
pub struct SearchOutput {
    pub results: Vec<SearchResult>,
    pub related: Vec<String>,
}

/// The characters of each hit of `results`.
pub open spec fn hits_of(results: Seq<SearchResult>) -> Seq<SearchHit> {
    results.map_values(|r: SearchResult| r@)
}

/// The characters of each card's hit, `None` for a card without one.
pub open spec fn card_hits_of(cards: Seq<Option<SearchResult>>) -> Seq<Option<SearchHit>> {
    cards.map_values(
        |c: Option<SearchResult>|
            match c {
                Some(r) => Some(r@),
                None => None,
            },
    )
}

/// A search outcome as characters: the hits and related searches, or the error message.
pub type SearchOutcome = Result<(Seq<SearchHit>, Seq<Seq<char>>), Seq<char>>;

/// The characters of a search outcome.
pub open spec fn outcome_of(r: Result<SearchOutput, String>) -> SearchOutcome {
    match r {
        Ok(output) => Ok((hits_of(output.results@), texts_of(output.related@))),
        Err(message) => Err(message@),
    }
}

pub open spec fn card_selector() -> Seq<char> {
    ".search-result, .sr-group .__srgi"@
}

pub open spec fn standard_title_selector() -> Seq<char> {
    ".__sri_title_link"@
}

pub open spec fn grouped_title_selector() -> Seq<char> {
    ".__srgi-title a"@
}

pub open spec fn description_selector() -> Seq<char> {
    ".__sri-desc"@
}

pub open spec fn related_selector() -> Seq<char> {
    ".related-searches a span"@
}

pub open spec fn main_shell_selector() -> Seq<char> {
    "._0_main-search-results"@
}

pub open spec fn footer_shell_selector() -> Seq<char> {
    ".footer-search-results"@
}

pub open spec fn captcha_message() -> Seq<char> {
    "Blocked by CAPTCHA/challenge"@
}

pub open spec fn unrecognized_message() -> Seq<char> {
    "unrecognized Kagi response page (markup change or block page)"@
}

/// The first hits of `cards`, at most `limit` of them, in card order.
pub open spec fn taken_hits(cards: Seq<Option<SearchHit>>, limit: nat) -> Seq<SearchHit>
    decreases cards.len(),
{
    if cards.len() == 0 || limit == 0 {
        Seq::empty()
    } else {
        match cards[0] {
            Some(hit) => seq![hit] + taken_hits(cards.drop_first(), (limit - 1) as nat),
            None => taken_hits(cards.drop_first(), limit),
        }
    }
}

/// Some card of `cards` could be read.
pub open spec fn has_readable_card(cards: Seq<Option<SearchHit>>) -> bool {
    exists|i: int| 0 <= i < cards.len() && (#[trigger] cards[i]) is Some
}

/// What a search page amounts to, given its cards' hits, its related searches,
/// the limit, whether the page has the search-page shell and whether it carries
/// a challenge marker. Hits are believed as they are. A page without hits is an
/// empty result only when it has the shell and either has no cards or has a
/// card that could be read (the limit left no room for it); a page with cards
/// of which none could be read is not recognised, and a page without the shell
/// is a challenge page or not recognised.
pub open spec fn search_outcome_of(
    cards: Seq<Option<SearchHit>>,
    related: Seq<Seq<char>>,
    limit: nat,
    has_shell: bool,
    challenged: bool,
) -> SearchOutcome {
    let results = taken_hits(cards, limit);
    if results.len() > 0 {
        Ok((results, related))
    } else if !has_shell {
        if challenged {
            Err(captcha_message())
        } else {
            Err(unrecognized_message())
        }
    } else if cards.len() > 0 && !has_readable_card(cards) {
        Err(unrecognized_message())
    } else {
        Ok((results, related))
    }
}

/// The lower-cased page text carries one of the challenge markers.
pub open spec fn carries_challenge_marker(lowered: Seq<char>) -> bool {
    ||| occurs_in("cf-challenge"@, lowered)
    ||| occurs_in("captcha"@, lowered)
    ||| occurs_in("challenge-platform"@, lowered)
    ||| occurs_in("just a moment"@, lowered)
}

/// Whether lower-cased page text carries a marker of a CAPTCHA or challenge page.
pub fn is_challenge_page(lowered: &str) -> (challenged: bool)
    ensures
        challenged == carries_challenge_marker(lowered@),
{
    let chars = chars_of(lowered);
    contains_text(&chars, "cf-challenge") || contains_text(&chars, "captcha")
        || contains_text(&chars, "challenge-platform") || contains_text(&chars, "just a moment")
}

/// The search outcome for the given cards: up to `limit` hits in card order
/// together with the related searches, or the error that the page calls for.
pub fn search_outcome(
    cards: &Vec<Option<SearchResult>>,
    related: Vec<String>,
    limit: usize,
    has_shell: bool,
    challenged: bool,
) -> (outcome: Result<SearchOutput, String>)
    ensures
        outcome_of(outcome) == search_outcome_of(
            card_hits_of(cards@),
            texts_of(related@),
            limit as nat,
            has_shell,
            challenged,
        ),
{
    let ghost all = card_hits_of(cards@);
    let mut results: Vec<SearchResult> = Vec::new();
    let mut i: usize = 0;
    proof {
        assert(all.skip(0) =~= all);
        assert(hits_of(results@) =~= Seq::<SearchHit>::empty());
        assert(Seq::<SearchHit>::empty() + taken_hits(all, limit as nat) =~= taken_hits(all, limit as nat));
    }
    while i < cards.len() && results.len() < limit
        invariant
            all == card_hits_of(cards@),
            i <= cards.len(),
            results.len() <= limit,
            hits_of(results@) + taken_hits(all.skip(i as int), (limit - results.len()) as nat)
                == taken_hits(all, limit as nat),
        decreases cards.len() - i,
    {
        let ghost rest = all.skip(i as int);
        let ghost room = (limit - results.len()) as nat;
        proof {
            assert(rest.drop_first() =~= all.skip(i + 1));
            assert(rest[0] == all[i as int]);
        }
        match &cards[i] {
            Some(hit) => {
                let ghost before = hits_of(results@);
                results.push(hit.duplicate());
                proof {
                    assert(all[i as int] == Some(hit@));
                    assert(taken_hits(rest, room) == seq![hit@] + taken_hits(rest.drop_first(), (room - 1) as nat));
                    assert(hits_of(results@) =~= before + seq![hit@]);
                    assert(before + taken_hits(rest, room) =~= hits_of(results@) + taken_hits(rest.drop_first(), (room - 1) as nat));
                }
            },
            None => {
                proof {
                    assert(all[i as int] is None);
                    assert(taken_hits(rest, room) == taken_hits(rest.drop_first(), room));
                }
            },
        }
        i = i + 1;
    }
    proof {
        let rest = all.skip(i as int);
        assert(taken_hits(rest, (limit - results.len()) as nat) =~= Seq::empty());
        assert(hits_of(results@) =~= taken_hits(all, limit as nat));
    }
    if results.len() > 0 {
        Ok(SearchOutput { results, related })
    } else if !has_shell {
        if challenged {
            Err(String::from_str("Blocked by CAPTCHA/challenge"))
        } else {
            Err(String::from_str("unrecognized Kagi response page (markup change or block page)"))
        }
    } else if cards.len() > 0 && !any_readable(cards) {
        Err(String::from_str("unrecognized Kagi response page (markup change or block page)"))
    } else {
        Ok(SearchOutput { results, related })
    }
}

/// Whether some card could be read.
fn any_readable(cards: &Vec<Option<SearchResult>>) -> (found: bool)
    ensures
        found == has_readable_card(card_hits_of(cards@)),
{
    let ghost all = card_hits_of(cards@);
    let mut i: usize = 0;
    while i < cards.len()
        invariant
            all == card_hits_of(cards@),
            i <= cards.len(),
            forall|j: int| 0 <= j < i ==> (#[trigger] all[j]) is None,
        decreases cards.len() - i,
    {
        if cards[i].is_some() {
            assert(all[i as int] is Some);
            return true;
        }
        assert(all[i as int] is None);
        i = i + 1;
    }
    false
}

/// The path of the element that `selector` matches first below `path`, if any.
pub open spec fn first_match_path(
    source: Seq<char>,
    path: ElementPath,
    selector: Seq<char>,
) -> Option<ElementPath> {
    if css_selector_parses(selector) && html_element_select(source, path, selector) > 0 {
        Some(path.push((selector, 0nat)))
    } else {
        None
    }
}

/// A card is a row of a grouped card when it has the class `__srgi`.
pub open spec fn card_is_grouped(source: Seq<char>, card: ElementPath) -> bool {
    html_element_classes(source, card).contains("__srgi"@)
}

/// The trimmed text of a card's description, or nothing when it has none.
pub open spec fn card_snippet(source: Seq<char>, card: ElementPath) -> Seq<char> {
    match first_match_path(source, card, description_selector()) {
        Some(description) => trimmed(html_element_text(source, description)),
        None => Seq::empty(),
    }
}

/// The hit of a card: the `href` of its title link, the link's trimmed text
/// and the card's snippet; nothing when the card has no title link or the link
/// has no `href`.
pub open spec fn card_hit(source: Seq<char>, card: ElementPath) -> Option<SearchHit> {
    let title = if card_is_grouped(source, card) {
        grouped_title_selector()
    } else {
        standard_title_selector()
    };
    match first_match_path(source, card, title) {
        None => None,
        Some(link) => match html_element_attr(source, link, "href"@) {
            None => None,
            Some(href) => Some(
                SearchHit {
                    url: href,
                    title: trimmed(html_element_text(source, link)),
                    snippet: card_snippet(source, card),
                },
            ),
        },
    }
}

/// The path of the `i`-th card of a page.
pub open spec fn card_path(i: int) -> ElementPath {
    seq![(card_selector(), i as nat)]
}

/// The hits of all cards of a page, in document order.
pub open spec fn page_card_hits(source: Seq<char>) -> Seq<Option<SearchHit>> {
    if css_selector_parses(card_selector()) {
        Seq::new(
            html_document_select(source, card_selector()),
            |i: int| card_hit(source, card_path(i)),
        )
    } else {
        Seq::empty()
    }
}

/// `texts` without its empty members.
pub open spec fn nonblank(texts: Seq<Seq<char>>) -> Seq<Seq<char>>
    decreases texts.len(),
{
    if texts.len() == 0 {
        Seq::empty()
    } else if texts.last().len() > 0 {
        nonblank(texts.drop_last()).push(texts.last())
    } else {
        nonblank(texts.drop_last())
    }
}

/// The trimmed text of the `j`-th related-search entry.
pub open spec fn related_text(source: Seq<char>, j: int) -> Seq<char> {
    trimmed(html_element_text(source, seq![(related_selector(), j as nat)]))
}

/// The related searches of a page: the non-empty trimmed texts of its entries.
pub open spec fn page_related(source: Seq<char>) -> Seq<Seq<char>> {
    if css_selector_parses(related_selector()) {
        nonblank(
            Seq::new(
                html_document_select(source, related_selector()),
                |j: int| related_text(source, j),
            ),
        )
    } else {
        Seq::empty()
    }
}

/// The page has an element that `selector` matches.
pub open spec fn shell_present(source: Seq<char>, selector: Seq<char>) -> bool {
    css_selector_parses(selector) && html_document_select(source, selector) > 0
}

/// The page has the shell of a search-result page.
pub open spec fn page_has_shell(source: Seq<char>) -> bool {
    shell_present(source, main_shell_selector()) || shell_present(source, footer_shell_selector())
}

/// What a search page with text `source` amounts to, under `limit`.
pub open spec fn search_page_outcome(source: Seq<char>, limit: nat) -> SearchOutcome {
    search_outcome_of(
        page_card_hits(source),
        page_related(source),
        limit,
        page_has_shell(source),
        carries_challenge_marker(lowercased(source)),
    )
}

fn first_under<'a>(element: &PageElement<'a>, selector: &Option<CssSelector>) -> (found: Option<PageElement<'a>>)
    ensures
        selector is None ==> found is None,
        selector matches Some(s) ==> {
            &&& found is Some <==> html_element_select(element.source(), element.path(), s.text()) > 0
            &&& found matches Some(e) ==> e.source() == element.source() && e.path() == element.path().push((s.text(), 0nat))
        },
{
    match selector {
        Some(s) => element.first_match(s),
        None => None,
    }
}

fn has_class(element: &PageElement, name: &str) -> (found: bool)
    ensures
        found == html_element_classes(element.source(), element.path()).contains(name@),
{
    let classes = element.classes();
    let ghost all = html_element_classes(element.source(), element.path());
    let mut i: usize = 0;
    while i < classes.len()
        invariant
            texts_of(classes@) == all,
            all == html_element_classes(element.source(), element.path()),
            i <= classes.len(),
            forall|j: int| 0 <= j < i ==> all[j] != name@,
        decreases classes.len() - i,
    {
        proof {
            assert(texts_of(classes@)[i as int] == classes@[i as int]@);
        }
        if same_text(classes[i].as_str(), name) {
            proof {
                assert(all.len() == classes@.len());
                assert(all[i as int] == name@);
                assert(all.contains(name@));
            }
            return true;
        }
        i = i + 1;
    }
    proof {
        assert(all.len() == classes@.len());
        if all.contains(name@) {
            let j = choose|j: int| 0 <= j < all.len() && all[j] == name@;
            assert(all[j] != name@);
        }
    }
    false
}

/// The hit of one card, as `card_hit` describes.
fn read_card(
    card: &PageElement,
    standard: &Option<CssSelector>,
    grouped: &Option<CssSelector>,
    description: &Option<CssSelector>,
) -> (hit: Option<SearchResult>)
    requires
        standard is Some <==> css_selector_parses(standard_title_selector()),
        standard matches Some(s) ==> s.text() == standard_title_selector(),
        grouped is Some <==> css_selector_parses(grouped_title_selector()),
        grouped matches Some(s) ==> s.text() == grouped_title_selector(),
        description is Some <==> css_selector_parses(description_selector()),
        description matches Some(s) ==> s.text() == description_selector(),
    ensures
        card_hit(card.source(), card.path()) == match hit {
            Some(r) => Some(r@),
            None => None,
        },
{
    let ghost source = card.source();
    let ghost path = card.path();
    let is_grouped = has_class(card, "__srgi");
    proof {
        reveal_strlit("__srgi");
        assert(is_grouped == card_is_grouped(source, path));
    }
    let ghost title_text = if is_grouped {
        grouped_title_selector()
    } else {
        standard_title_selector()
    };
    let title = if is_grouped { grouped } else { standard };
    assert(title is Some <==> css_selector_parses(title_text));
    assert(title matches Some(s) ==> s.text() == title_text);
    let link = match first_under(card, title) {
        Some(link) => link,
        None => {
            assert(first_match_path(source, path, title_text) is None);
            return None;
        },
    };
    let ghost link_path = path.push((title_text, 0nat));
    assert(first_match_path(source, path, title_text) == Some(link_path));
    assert(link.path() == link_path && link.source() == source);
    let href = match link.attr("href") {
        Some(href) => href,
        None => {
            assert(html_element_attr(source, link_path, "href"@) is None);
            return None;
        },
    };
    let text = link.text();
    let title_trimmed = trim(text.as_str());
    let snippet = match first_under(card, description) {
        Some(d) => {
            assert(first_match_path(source, path, description_selector()) == Some(d.path()));
            let t = d.text();
            trim(t.as_str())
        },
        None => {
            assert(first_match_path(source, path, description_selector()) is None);
            String::from_str("")
        },
    };
    proof {
        reveal_strlit("");
        assert(snippet@ == card_snippet(source, path));
    }
    let hit = SearchResult { url: href, title: title_trimmed, snippet };
    assert(card_hit(source, path) == Some(hit@));
    Some(hit)
}

fn shell_in(page: &HtmlPage, selector: &str) -> (present: bool)
    ensures
        present == shell_present(page.source(), selector@),
{
    match CssSelector::parse(selector) {
        Some(s) => page.select(&s).len() > 0,
        None => false,
    }
}

/// Reads a Kagi search result page: the first `limit` hits in document order
/// and the related searches, or the error the page calls for (a challenge
/// page, or a page that is not a recognised result page).
pub fn parse_search_results(html: &str, limit: usize) -> (outcome: Result<SearchOutput, String>)
    ensures
        outcome_of(outcome) == search_page_outcome(html@, limit as nat),
{
    let page = HtmlPage::parse(html);
    let ghost source = page.source();
    let mut cards: Vec<Option<SearchResult>> = Vec::new();
    match CssSelector::parse(".search-result, .sr-group .__srgi") {
        Some(card_sel) => {
            let standard = CssSelector::parse(".__sri_title_link");
            let grouped = CssSelector::parse(".__srgi-title a");
            let description = CssSelector::parse(".__sri-desc");
            let elements = page.select(&card_sel);
            let mut i: usize = 0;
            assert(card_hits_of(cards@) =~= Seq::new(0nat, |k: int| card_hit(source, card_path(k))));
            while i < elements.len()
                invariant
                    source == page.source(),
                    card_sel.text() == card_selector(),
                    elements.len() == html_document_select(source, card_selector()),
                    forall|k: int| 0 <= k < elements.len() ==> (#[trigger] elements[k]).source() == source
                        && elements[k].path() == card_path(k),
                    standard is Some <==> css_selector_parses(standard_title_selector()),
                    standard matches Some(s) ==> s.text() == standard_title_selector(),
                    grouped is Some <==> css_selector_parses(grouped_title_selector()),
                    grouped matches Some(s) ==> s.text() == grouped_title_selector(),
                    description is Some <==> css_selector_parses(description_selector()),
                    description matches Some(s) ==> s.text() == description_selector(),
                    i <= elements.len(),
                    card_hits_of(cards@) =~= Seq::new(i as nat, |k: int| card_hit(source, card_path(k))),
                decreases elements.len() - i,
            {
                let hit = read_card(&elements[i], &standard, &grouped, &description);
                let ghost before = card_hits_of(cards@);
                cards.push(hit);
                proof {
                    assert(card_hits_of(cards@) =~= before.push(card_hit(source, card_path(i as int))));
                }
                i = i + 1;
            }
        },
        None => {},
    }
    let mut related: Vec<String> = Vec::new();
    match CssSelector::parse(".related-searches a span") {
        Some(related_sel) => {
            let entries = page.select(&related_sel);
            let mut j: usize = 0;
            assert(texts_of(related@) =~= nonblank(Seq::new(0nat, |k: int| related_text(source, k))));
            while j < entries.len()
                invariant
                    source == page.source(),
                    related_sel.text() == related_selector(),
                    entries.len() == html_document_select(source, related_selector()),
                    forall|k: int| 0 <= k < entries.len() ==> (#[trigger] entries[k]).source() == source
                        && entries[k].path() == seq![(related_selector(), k as nat)],
                    j <= entries.len(),
                    texts_of(related@) == nonblank(Seq::new(j as nat, |k: int| related_text(source, k))),
                decreases entries.len() - j,
            {
                let text = entries[j].text();
                let term = trim(text.as_str());
                proof {
                    assert(Seq::new((j + 1) as nat, |k: int| related_text(source, k)).drop_last()
                        =~= Seq::new(j as nat, |k: int| related_text(source, k)));
                }
                if !term.as_str().is_empty() {
                    let ghost before = texts_of(related@);
                    related.push(term);
                    proof {
                        assert(texts_of(related@) =~= before.push(term@));
                    }
                }
                j = j + 1;
            }
        },
        None => {},
    }
    assert(card_hits_of(cards@) =~= page_card_hits(source));
    assert(texts_of(related@) == page_related(source));
    let has_shell = shell_in(&page, "._0_main-search-results") || shell_in(&page, ".footer-search-results");
    let challenged = if has_shell {
        false
    } else {
        is_challenge_page(to_lowercase(html).as_str())
    };
    search_outcome(&cards, related, limit, has_shell, challenged)
}

/// The hits among `cards`, in card order.
pub open spec fn present_hits(cards: Seq<Option<SearchHit>>) -> Seq<SearchHit>
    decreases cards.len(),
{
    if cards.len() == 0 {
        Seq::empty()
    } else {
        match cards[0] {
            Some(hit) => seq![hit] + present_hits(cards.drop_first()),
            None => present_hits(cards.drop_first()),
        }
    }
}

/// The kept hits are the first `limit` hits of the cards, in card order
/// (document order: standard and grouped cards interleaved as on the page).
pub proof fn lemma_hits_in_card_order(cards: Seq<Option<SearchHit>>, limit: nat)
    ensures
        taken_hits(cards, limit) == present_hits(cards).take(
            if limit < present_hits(cards).len() { limit as int } else { present_hits(cards).len() as int },
        ),
    decreases cards.len(),
{
    if cards.len() > 0 && limit > 0 {
        lemma_hits_in_card_order(cards.drop_first(), limit);
        lemma_hits_in_card_order(cards.drop_first(), (limit - 1) as nat);
        let rest = present_hits(cards.drop_first());
        match cards[0] {
            Some(hit) => {
                let m = if (limit - 1) < rest.len() { (limit - 1) as int } else { rest.len() as int };
                assert((seq![hit] + rest).take(m + 1) =~= seq![hit] + rest.take(m));
            },
            None => {},
        }
    } else if cards.len() > 0 {
        assert(present_hits(cards).take(0) =~= Seq::<SearchHit>::empty());
    } else {
        assert(present_hits(cards).take(0) =~= Seq::<SearchHit>::empty());
    }
}

proof fn lemma_taken_hits_len(cards: Seq<Option<SearchHit>>, limit: nat)
    ensures
        taken_hits(cards, limit).len() <= limit,
    decreases cards.len(),
{
    if cards.len() > 0 && limit > 0 {
        lemma_taken_hits_len(cards.drop_first(), limit);
        lemma_taken_hits_len(cards.drop_first(), (limit - 1) as nat);
    }
}

/// A search never gives more hits than asked for.
pub proof fn lemma_results_within_limit(
    cards: Seq<Option<SearchHit>>,
    related: Seq<Seq<char>>,
    limit: nat,
    has_shell: bool,
    challenged: bool,
)
    ensures
        search_outcome_of(cards, related, limit, has_shell, challenged) matches Ok((hits, _)) ==> hits.len() <= limit,
{
    lemma_taken_hits_len(cards, limit);
}

proof fn lemma_no_hits_without_cards(cards: Seq<Option<SearchHit>>, limit: nat)
    requires
        forall|i: int| 0 <= i < cards.len() ==> (#[trigger] cards[i]) is None,
    ensures
        taken_hits(cards, limit).len() == 0,
    decreases cards.len(),
{
    if cards.len() > 0 && limit > 0 {
        assert forall|i: int| 0 <= i < cards.drop_first().len() implies (#[trigger] cards.drop_first()[i]) is None by {
            assert(cards.drop_first()[i] == cards[i + 1]);
        }
        assert(cards[0] is None);
        lemma_no_hits_without_cards(cards.drop_first(), limit);
    }
}

/// A recognised result page with no result cards, or one with a readable
/// card searched with a limit of zero, is an empty result, even when its text
/// mentions a CAPTCHA.
pub proof fn lemma_recognised_empty_page(
    cards: Seq<Option<SearchHit>>,
    related: Seq<Seq<char>>,
    limit: nat,
    challenged: bool,
)
    requires
        cards.len() == 0 || (limit == 0 && has_readable_card(cards)),
    ensures
        search_outcome_of(cards, related, limit, true, challenged) == Ok::<(Seq<SearchHit>, Seq<Seq<char>>), Seq<char>>((Seq::<SearchHit>::empty(), related)),
{
    assert(taken_hits(cards, limit) =~= Seq::<SearchHit>::empty());
}

/// A recognised result page whose cards can all not be read is refused as an
/// unrecognised page rather than reported as having no results.
pub proof fn lemma_unreadable_cards_refused(
    cards: Seq<Option<SearchHit>>,
    related: Seq<Seq<char>>,
    limit: nat,
    challenged: bool,
)
    requires
        cards.len() > 0,
        forall|i: int| 0 <= i < cards.len() ==> (#[trigger] cards[i]) is None,
    ensures
        search_outcome_of(cards, related, limit, true, challenged) == Err::<(Seq<SearchHit>, Seq<Seq<char>>), Seq<char>>(unrecognized_message()),
{
    lemma_no_hits_without_cards(cards, limit);
}

/// A page without hits and without the result-page shell that carries a
/// challenge marker is reported as a CAPTCHA block; without a marker it is
/// an unrecognised page.
pub proof fn lemma_shell_less_page_refused(
    cards: Seq<Option<SearchHit>>,
    related: Seq<Seq<char>>,
    limit: nat,
    challenged: bool,
)
    requires
        forall|i: int| 0 <= i < cards.len() ==> (#[trigger] cards[i]) is None,
    ensures
        search_outcome_of(cards, related, limit, false, challenged) == Err::<(Seq<SearchHit>, Seq<Seq<char>>), Seq<char>>(
            if challenged { captcha_message() } else { unrecognized_message() },
        ),
{
    lemma_no_hits_without_cards(cards, limit);
}

/// Hits are always believed: a page with a readable card within the limit
/// gives its hits, whatever else the page holds.
pub proof fn lemma_hits_are_believed(
    cards: Seq<Option<SearchHit>>,
    related: Seq<Seq<char>>,
    limit: nat,
    has_shell: bool,
    challenged: bool,
)
    requires
        limit > 0,
        exists|i: int| 0 <= i < cards.len() && (#[trigger] cards[i]) is Some,
    ensures
        search_outcome_of(cards, related, limit, has_shell, challenged) == Ok::<(Seq<SearchHit>, Seq<Seq<char>>), Seq<char>>(
            (taken_hits(cards, limit), related),
        ),
    decreases cards.len(),
{
    if cards[0] is None {
        let i = choose|i: int| 0 <= i < cards.len() && (#[trigger] cards[i]) is Some;
        assert(cards.drop_first()[i - 1] == cards[i]);
        lemma_hits_are_believed(cards.drop_first(), related, limit, has_shell, challenged);
    }
}

/// The characters of a search answer: the hits and related searches, or the
/// error's message.
pub open spec fn answer_of(r: Result<SearchOutput, KagiError>) -> SearchOutcome {
    match r {
        Ok(output) => Ok((hits_of(output.results@), texts_of(output.related@))),
        Err(e) => Err(e@),
    }
}

/// What a search request amounts to, given where the answer finally came
/// from, its status (and how the status is written), what reading its body
/// gave, and the limit: a refused answer gives its error, an unreadable body
/// the read error, and otherwise the page is read.
pub open spec fn search_answer_of(
    final_path: Seq<char>,
    status: u16,
    status_text: Seq<char>,
    body: Result<Seq<char>, Seq<char>>,
    limit: nat,
) -> SearchOutcome {
    match search_response_verdict(final_path, status) {
        Err(e) => Err(response_error_message(e, status_text)),
        Ok(_) => match body {
            Err(error) => Err(read_failure_message(error)),
            Ok(html) => search_page_outcome(html, limit),
        },
    }
}

/// The answer to a web search: the response check first, then the body, then
/// the page. `body` is only looked at when the response passes the check.
pub fn search_answer(
    final_path: &str,
    status: u16,
    status_text: &str,
    body: Result<String, String>,
    limit: usize,
) -> (answer: Result<SearchOutput, KagiError>)
    ensures
        answer_of(answer) == search_answer_of(final_path@, status, status_text@, text_result(body), limit as nat),
{
    match check_search_response(final_path, status) {
        Err(e) => Err(response_error(e, status_text)),
        Ok(()) => match body {
            Err(error) => Err(read_failure(error.as_str())),
            Ok(html) => match parse_search_results(html.as_str(), limit) {
                Ok(output) => Ok(output),
                Err(message) => Err(KagiError::new(message)),
            },
        },
    }
}

/// A larger limit only extends the list: when the search with limit `k`
/// succeeds, the search with any larger limit succeeds too, with the same
/// related searches, and its first hits are the hits at `k`.
pub proof fn lemma_larger_limit_extends(
    cards: Seq<Option<SearchHit>>,
    related: Seq<Seq<char>>,
    k: nat,
    limit: nat,
    has_shell: bool,
    challenged: bool,
)
    requires
        k <= limit,
        search_outcome_of(cards, related, k, has_shell, challenged) is Ok,
    ensures
        search_outcome_of(cards, related, limit, has_shell, challenged) matches Ok((hits, rel)) && {
            &&& rel == related
            &&& hits.len() <= limit
            &&& search_outcome_of(cards, related, k, has_shell, challenged)
                == Ok::<(Seq<SearchHit>, Seq<Seq<char>>), Seq<char>>((hits.take(
                if k < hits.len() { k as int } else { hits.len() as int },
            ), related))
        },
{
    lemma_hits_in_card_order(cards, k);
    lemma_hits_in_card_order(cards, limit);
    lemma_taken_hits_len(cards, limit);
    let p = present_hits(cards);
    let small = taken_hits(cards, k);
    let big = taken_hits(cards, limit);
    let m = if k < big.len() { k as int } else { big.len() as int };
    assert(big.take(m) =~= small);
}

/// The same for whole pages: a larger limit only extends the hits of a page
/// and keeps its related searches.
pub proof fn lemma_page_larger_limit_extends(source: Seq<char>, k: nat, limit: nat)
    requires
        k <= limit,
        search_page_outcome(source, k) is Ok,
    ensures
        search_page_outcome(source, limit) matches Ok((hits, rel)) && {
            &&& rel == page_related(source)
            &&& hits.len() <= limit
            &&& search_page_outcome(source, k) == Ok::<(Seq<SearchHit>, Seq<Seq<char>>), Seq<char>>((hits.take(
                if k < hits.len() { k as int } else { hits.len() as int },
            ), page_related(source)))
        },
{
    lemma_larger_limit_extends(
        page_card_hits(source),
        page_related(source),
        k,
        limit,
        page_has_shell(source),
        carries_challenge_marker(lowercased(source)),
    );
}

/// Each of the four challenge markers, found in the lower-cased page text,
/// marks a challenge page, and nothing else does.
pub proof fn lemma_challenge_markers(lowered: Seq<char>)
    ensures
        carries_challenge_marker(lowered) <==> (
            occurs_in(seq!['c', 'f', '-', 'c', 'h', 'a', 'l', 'l', 'e', 'n', 'g', 'e'], lowered)
            || occurs_in(seq!['c', 'a', 'p', 't', 'c', 'h', 'a'], lowered)
            || occurs_in(seq!['c', 'h', 'a', 'l', 'l', 'e', 'n', 'g', 'e', '-', 'p', 'l', 'a', 't', 'f', 'o', 'r', 'm'], lowered)
            || occurs_in(seq!['j', 'u', 's', 't', ' ', 'a', ' ', 'm', 'o', 'm', 'e', 'n', 't'], lowered)
        ),
{
    reveal_strlit("cf-challenge");
    reveal_strlit("captcha");
    reveal_strlit("challenge-platform");
    reveal_strlit("just a moment");
    assert("cf-challenge"@ =~= seq!['c', 'f', '-', 'c', 'h', 'a', 'l', 'l', 'e', 'n', 'g', 'e']);
    assert("captcha"@ =~= seq!['c', 'a', 'p', 't', 'c', 'h', 'a']);
    assert("challenge-platform"@ =~= seq!['c', 'h', 'a', 'l', 'l', 'e', 'n', 'g', 'e', '-', 'p', 'l', 'a', 't', 'f', 'o', 'r', 'm']);
    assert("just a moment"@ =~= seq!['j', 'u', 's', 't', ' ', 'a', ' ', 'm', 'o', 'm', 'e', 'n', 't']);
}

} // verus!
