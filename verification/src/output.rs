//! Plain-text rendering of the tools' results, and the terminal-safety
//! rule it follows: text that came from the server reaches the terminal
//! only with its control characters removed.

use vstd::prelude::*;
use vstd::string::StringExecFns;

use crate::error::KagiError;
use crate::search::{SearchOutput, SearchResult};
use crate::summary::SummarizeOutput;
use crate::text::{chars_of, is_ascii_digit, push_char, string_from_chars, texts_of};

verus! {

/// A character of the Unicode general category `Cc` (what `char::is_control` tests).
pub open spec fn is_control_char(c: char) -> bool {
    c <= '\u{1f}' || ('\u{7f}' <= c && c <= '\u{9f}')
}

/// A character that may reach the terminal: anything but a control character,
/// except that line feed and tab stay.
pub open spec fn terminal_safe(c: char) -> bool {
    !is_control_char(c) || c == '\n' || c == '\t'
}

/// Every character of `s` may reach the terminal.
pub open spec fn all_terminal_safe(s: Seq<char>) -> bool {
    forall|i: int| 0 <= i < s.len() ==> terminal_safe(#[trigger] s[i])
}

/// `text` with every character that may not reach the terminal removed.
pub open spec fn sanitized(text: Seq<char>) -> Seq<char>
    decreases text.len(),
{
    if text.len() == 0 {
        Seq::empty()
    } else if terminal_safe(text.last()) {
        sanitized(text.drop_last()).push(text.last())
    } else {
        sanitized(text.drop_last())
    }
}

fn is_terminal_safe(c: char) -> (safe: bool)
    ensures
        safe == terminal_safe(c),
{
    !(c <= '\u{1f}' || ('\u{7f}' <= c && c <= '\u{9f}')) || c == '\n' || c == '\t'
}

/// Strips control characters (keeping `\n` and `\t`) from server-derived
/// text before it reaches a terminal, where embedded ANSI/OSC sequences
/// could rewrite output, retitle the window, or write to the clipboard.
pub fn sanitize(text: &str) -> (clean: String)
    ensures
        clean@ == sanitized(text@),
{
    let chars = chars_of(text);
    let mut kept: Vec<char> = Vec::new();
    let mut i: usize = 0;
    while i < chars.len()
        invariant
            chars@ == text@,
            i <= chars.len(),
            kept@ == sanitized(chars@.take(i as int)),
        decreases chars.len() - i,
    {
        let c = chars[i];
        proof {
            assert(chars@.take(i + 1).drop_last() =~= chars@.take(i as int));
        }
        if is_terminal_safe(c) {
            kept.push(c);
        }
        i = i + 1;
    }
    proof {
        assert(chars@.take(chars.len() as int) =~= chars@);
    }
    string_from_chars(&kept)
}

pub proof fn lemma_sanitized_safe(text: Seq<char>)
    ensures
        all_terminal_safe(sanitized(text)),
        sanitized(text).len() <= text.len(),
    decreases text.len(),
{
    if text.len() > 0 {
        lemma_sanitized_safe(text.drop_last());
    }
}

/// Text that is already safe for the terminal passes through unchanged.
pub proof fn lemma_sanitized_keeps_safe_text(text: Seq<char>)
    requires
        all_terminal_safe(text),
    ensures
        sanitized(text) == text,
    decreases text.len(),
{
    if text.len() > 0 {
        lemma_sanitized_keeps_safe_text(text.drop_last());
        assert(text.drop_last().push(text.last()) =~= text);
    }
}

/// Sanitizing twice removes nothing more than sanitizing once.
pub proof fn lemma_sanitize_idempotent(text: Seq<char>)
    ensures
        sanitized(sanitized(text)) == sanitized(text),
{
    lemma_sanitized_safe(text);
    lemma_sanitized_keeps_safe_text(sanitized(text));
}

/// The decimal digit character for `d` (`d < 10`).
pub open spec fn digit_char(d: nat) -> char {
    if d == 0 { '0' }
    else if d == 1 { '1' }
    else if d == 2 { '2' }
    else if d == 3 { '3' }
    else if d == 4 { '4' }
    else if d == 5 { '5' }
    else if d == 6 { '6' }
    else if d == 7 { '7' }
    else if d == 8 { '8' }
    else { '9' }
}

/// The decimal notation of `n`, without sign or leading zeros.
pub open spec fn decimal(n: nat) -> Seq<char>
    decreases n,
{
    if n < 10 {
        seq![digit_char(n)]
    } else {
        decimal(n / 10).push(digit_char(n % 10))
    }
}

fn digit(d: u64) -> (c: char)
    requires
        d < 10,
    ensures
        c == digit_char(d as nat),
{
    if d == 0 { '0' }
    else if d == 1 { '1' }
    else if d == 2 { '2' }
    else if d == 3 { '3' }
    else if d == 4 { '4' }
    else if d == 5 { '5' }
    else if d == 6 { '6' }
    else if d == 7 { '7' }
    else if d == 8 { '8' }
    else { '9' }
}

/// Appends the decimal notation of `n`.
pub fn push_decimal(out: &mut String, n: u64)
    ensures
        final(out)@ == old(out)@ + decimal(n as nat),
    decreases n,
{
    if n < 10 {
        push_char(out, digit(n));
    } else {
        push_decimal(out, n / 10);
        push_char(out, digit(n % 10));
    }
}

/// The value of a character as a decimal digit (`'0'` is 0, `'9'` is 9).
pub open spec fn digit_value(c: char) -> int {
    (c as int) - ('0' as int)
}

/// The number that a run of decimal digits writes, most significant first.
pub open spec fn numeral_value(s: Seq<char>) -> int
    decreases s.len(),
{
    if s.len() == 0 {
        0
    } else {
        numeral_value(s.drop_last()) * 10 + digit_value(s.last())
    }
}

proof fn lemma_digit_char_value(d: nat)
    requires
        d < 10,
    ensures
        is_ascii_digit(digit_char(d)),
        digit_value(digit_char(d)) == d,
{
}

/// The decimal notation of `n` is a numeral for `n`: it is made of ASCII
/// digits, read back in base 10 it gives `n`, and it has no leading zero.
pub proof fn lemma_decimal_reads_back(n: nat)
    ensures
        decimal(n).len() > 0,
        forall|i: int| 0 <= i < decimal(n).len() ==> is_ascii_digit(#[trigger] decimal(n)[i]),
        numeral_value(decimal(n)) == n,
        decimal(n)[0] == '0' ==> n == 0,
    decreases n,
{
    if n < 10 {
        lemma_digit_char_value(n);
        let d = decimal(n);
        assert(d.drop_last() =~= Seq::<char>::empty());
        assert(numeral_value(d.drop_last()) == 0);
        assert(numeral_value(d) == numeral_value(d.drop_last()) * 10 + digit_value(d.last()));
    } else {
        lemma_decimal_reads_back(n / 10);
        lemma_digit_char_value(n % 10);
        let d = decimal(n);
        assert(d.drop_last() =~= decimal(n / 10));
        assert(d.last() == digit_char(n % 10));
        assert(numeral_value(d) == numeral_value(decimal(n / 10)) * 10 + digit_value(d.last()));
        assert((n / 10) * 10 + n % 10 == n) by (nonlinear_arith);
        assert forall|i: int| 0 <= i < d.len() implies is_ascii_digit(#[trigger] d[i]) by {
            if i < d.len() - 1 {
                assert(d[i] == decimal(n / 10)[i]);
            }
        }
        assert(d[0] == decimal(n / 10)[0]);
    }
}

pub proof fn lemma_decimal_safe(n: nat)
    ensures
        all_terminal_safe(decimal(n)),
    decreases n,
{
    if n >= 10 {
        lemma_decimal_safe(n / 10);
    }
}

/// `parts` joined with `separator` between neighbours.
pub open spec fn joined(parts: Seq<Seq<char>>, separator: Seq<char>) -> Seq<char>
    decreases parts.len(),
{
    if parts.len() == 0 {
        Seq::empty()
    } else if parts.len() == 1 {
        parts[0]
    } else {
        joined(parts.drop_last(), separator) + separator + parts.last()
    }
}

/// The text block of the `number`-th search hit.
pub open spec fn result_block(number: nat, result: SearchResult) -> Seq<char> {
    decimal(number) + ". "@ + sanitized(result.title@) + "\n"@
        + "   "@ + sanitized(result.url@) + "\n"@
        + (if result.snippet@.len() > 0 {
            "   "@ + sanitized(result.snippet@) + "\n"@
        } else {
            Seq::empty()
        })
        + "\n"@
}

/// The text blocks of `results`, numbered from 1.
pub open spec fn result_blocks(results: Seq<SearchResult>) -> Seq<char>
    decreases results.len(),
{
    if results.len() == 0 {
        Seq::empty()
    } else {
        result_blocks(results.drop_last()) + result_block(results.len() as nat, results.last())
    }
}

/// The `Related:` line for the suggested searches, or nothing when there are none.
pub open spec fn related_line(related: Seq<String>) -> Seq<char> {
    if related.len() == 0 {
        Seq::empty()
    } else {
        "Related: "@ + joined(related.map_values(|term: String| sanitized(term@)), ", "@) + "\n"@
    }
}

/// The plain-text rendering of a search: numbered hits, each with title,
/// URL and (when there is one) snippet, then the related searches.
pub open spec fn search_text(output: SearchOutput) -> Seq<char> {
    result_blocks(output.results@) + related_line(output.related@)
}

fn write_result_block(out: &mut String, number: u64, result: &SearchResult)
    ensures
        final(out)@ == old(out)@ + result_block(number as nat, *result),
{
    let ghost before = out@;
    push_decimal(out, number);
    out.append(". ");
    out.append(&sanitize(&result.title));
    out.append("\n   ");
    out.append(&sanitize(&result.url));
    out.append("\n");
    if !result.snippet.as_str().is_empty() {
        out.append("   ");
        out.append(&sanitize(&result.snippet));
        out.append("\n");
    }
    out.append("\n");
    proof {
        reveal_strlit(". ");
        reveal_strlit("\n   ");
        reveal_strlit("\n");
        reveal_strlit("   ");
        assert(out@ =~= before + result_block(number as nat, *result));
    }
}

/// Writes the plain-text rendering of `output` to `out`.
pub fn write_search_text(out: &mut String, output: &SearchOutput)
    ensures
        final(out)@ == old(out)@ + search_text(*output),
{
    let ghost start = out@;
    let n = output.results.len();
    let mut i: usize = 0;
    while i < n
        invariant
            n == output.results@.len(),
            i <= n,
            out@ == start + result_blocks(output.results@.take(i as int)),
        decreases n - i,
    {
        let result = &output.results[i];
        write_result_block(out, (i + 1) as u64, result);
        proof {
            let rs = output.results@.take(i + 1);
            assert(rs.drop_last() =~= output.results@.take(i as int));
            assert(rs.last() == *result);
        }
        i = i + 1;
    }
    proof {
        assert(output.results@.take(n as int) =~= output.results@);
    }
    if !output.related.is_empty() {
        let ghost before = out@;
        let ghost parts = output.related@.map_values(|term: String| sanitized(term@));
        out.append("Related: ");
        let mut j: usize = 0;
        while j < output.related.len()
            invariant
                parts == output.related@.map_values(|term: String| sanitized(term@)),
                0 < output.related@.len(),
                j <= output.related@.len(),
                out@ == before + "Related: "@ + joined(parts.take(j as int), ", "@),
            decreases output.related.len() - j,
        {
            proof {
                assert(parts.take(j + 1).drop_last() =~= parts.take(j as int));
            }
            if j > 0 {
                out.append(", ");
            }
            out.append(&sanitize(&output.related[j]));
            proof {
                if j == 0 {
                    assert(parts.take(1) =~= seq![parts[0]]);
                }
            }
            j = j + 1;
        }
        out.append("\n");
        proof {
            assert(parts.take(output.related@.len() as int) =~= parts);
        }
    }
}

/// The plain-text rendering of a summary: the sanitized markdown and a line feed.
pub open spec fn summary_text(output: SummarizeOutput) -> Seq<char> {
    sanitized(output.summary@) + "\n"@
}

/// Writes the plain-text rendering of a summary to `out`.
pub fn write_summary_text(out: &mut String, output: &SummarizeOutput)
    ensures
        final(out)@ == old(out)@ + summary_text(*output),
{
    out.append(sanitize(output.summary.as_str()).as_str());
    out.append("\n");
}

/// What the plain-text rendering shows of one maps result. The numbers
/// (coordinates and rating) are held as they are written.
#[derive(Debug)]
pub struct MapsTextEntry {
    pub name: String,
    pub address: Option<String>,
    pub latitude: String,
    pub longitude: String,
    pub rating: Option<String>,
    pub review_count: Option<u64>,
    pub price: Option<String>,
    pub hours_now: Option<String>,
    pub phone: Option<String>,
    pub url: Option<String>,
}

/// An indented line with the sanitized text, or nothing.
pub open spec fn optional_line(text: Option<String>) -> Seq<char> {
    match text {
        Some(t) => "   "@ + sanitized(t@) + "\n"@,
        None => Seq::empty(),
    }
}

/// The rating detail: the rating, with the review count when there is one.
pub open spec fn rating_detail(entry: MapsTextEntry) -> Seq<Seq<char>> {
    match entry.rating {
        Some(rating) => seq![
            match entry.review_count {
                Some(count) => "Rating: "@ + rating@ + " ("@ + decimal(count as nat) + ")"@,
                None => "Rating: "@ + rating@,
            },
        ],
        None => Seq::empty(),
    }
}

pub open spec fn price_detail(entry: MapsTextEntry) -> Seq<Seq<char>> {
    match entry.price {
        Some(price) => seq!["Price: "@ + sanitized(price@)],
        None => Seq::empty(),
    }
}

pub open spec fn hours_detail(entry: MapsTextEntry) -> Seq<Seq<char>> {
    match entry.hours_now {
        Some(hours) => seq![sanitized(hours@)],
        None => Seq::empty(),
    }
}

/// The details of a place: rating (with the review count when there is one),
/// price and opening state, those that are known.
pub open spec fn maps_details(entry: MapsTextEntry) -> Seq<Seq<char>> {
    rating_detail(entry) + price_detail(entry) + hours_detail(entry)
}

/// The text block of the `number`-th place.
pub open spec fn maps_block(number: nat, entry: MapsTextEntry) -> Seq<char> {
    let details = maps_details(entry);
    decimal(number) + ". "@ + sanitized(entry.name@) + "\n"@
        + optional_line(entry.address)
        + "   "@ + entry.latitude@ + ", "@ + entry.longitude@ + "\n"@
        + (if details.len() > 0 {
            "   "@ + joined(details, " | "@) + "\n"@
        } else {
            Seq::empty()
        })
        + optional_line(entry.phone)
        + optional_line(entry.url)
        + "\n"@
}

/// The text blocks of `entries`, numbered from 1.
pub open spec fn maps_text(entries: Seq<MapsTextEntry>) -> Seq<char>
    decreases entries.len(),
{
    if entries.len() == 0 {
        Seq::empty()
    } else {
        maps_text(entries.drop_last()) + maps_block(entries.len() as nat, entries.last())
    }
}

fn write_optional_line(out: &mut String, text: &Option<String>)
    ensures
        final(out)@ == old(out)@ + optional_line(*text),
{
    match text {
        Some(t) => {
            out.append("   ");
            out.append(sanitize(t.as_str()).as_str());
            out.append("\n");
            proof {
                reveal_strlit("   ");
                reveal_strlit("\n");
            }
        },
        None => {},
    }
    proof {
        assert(out@ =~= old(out)@ + optional_line(*text));
    }
}

fn maps_detail_texts(entry: &MapsTextEntry) -> (details: Vec<String>)
    ensures
        texts_of(details@) == maps_details(*entry),
{
    let mut details: Vec<String> = Vec::new();
    let ghost empty = Seq::<Seq<char>>::empty();
    match &entry.rating {
        Some(rating) => {
            let mut text = String::from_str("Rating: ");
            text.append(rating.as_str());
            match entry.review_count {
                Some(count) => {
                    text.append(" (");
                    push_decimal(&mut text, count);
                    text.append(")");
                },
                None => {},
            }
            details.push(text);
        },
        None => {},
    }
    let ghost after_rating = texts_of(details@);
    match &entry.price {
        Some(price) => {
            let mut text = String::from_str("Price: ");
            text.append(sanitize(price.as_str()).as_str());
            details.push(text);
        },
        None => {},
    }
    let ghost after_price = texts_of(details@);
    match &entry.hours_now {
        Some(hours) => {
            details.push(sanitize(hours.as_str()));
        },
        None => {},
    }
    proof {
        assert(after_rating =~= rating_detail(*entry));
        assert(after_price =~= rating_detail(*entry) + price_detail(*entry));
        assert(texts_of(details@) =~= maps_details(*entry));
    }
    details
}

/// The details line of a place, or nothing when no detail is known.
pub open spec fn details_line(entry: MapsTextEntry) -> Seq<char> {
    let details = maps_details(entry);
    if details.len() > 0 {
        "   "@ + joined(details, " | "@) + "\n"@
    } else {
        Seq::empty()
    }
}

fn write_details_line(out: &mut String, entry: &MapsTextEntry)
    ensures
        final(out)@ == old(out)@ + details_line(*entry),
{
    let ghost start = out@;
    let details = maps_detail_texts(entry);
    let ghost parts = texts_of(details@);
    if !details.is_empty() {
        out.append("   ");
        let ghost lead = out@;
        let mut k: usize = 0;
        proof {
            assert(parts.take(0) =~= Seq::<Seq<char>>::empty());
        }
        while k < details.len()
            invariant
                parts == texts_of(details@),
                0 < details@.len(),
                k <= details@.len(),
                out@ == lead + joined(parts.take(k as int), " | "@),
            decreases details.len() - k,
        {
            proof {
                assert(parts.take(k + 1).drop_last() =~= parts.take(k as int));
            }
            if k > 0 {
                out.append(" | ");
            }
            out.append(details[k].as_str());
            proof {
                if k == 0 {
                    assert(parts.take(1) =~= seq![parts[0]]);
                }
            }
            k = k + 1;
        }
        out.append("\n");
        proof {
            assert(parts.take(details@.len() as int) =~= parts);
        }
    }
    proof {
        assert(out@ =~= start + details_line(*entry));
    }
}

/// The first line of a place: its number and sanitized name.
pub open spec fn name_line(number: nat, entry: MapsTextEntry) -> Seq<char> {
    decimal(number) + ". "@ + sanitized(entry.name@) + "\n"@
}

/// The coordinates line of a place.
pub open spec fn coordinates_line(entry: MapsTextEntry) -> Seq<char> {
    "   "@ + entry.latitude@ + ", "@ + entry.longitude@ + "\n"@
}

fn write_maps_block(out: &mut String, number: u64, entry: &MapsTextEntry)
    ensures
        final(out)@ == old(out)@ + maps_block(number as nat, *entry),
{
    let ghost start = out@;
    push_decimal(out, number);
    out.append(". ");
    out.append(sanitize(entry.name.as_str()).as_str());
    out.append("\n");
    proof {
        reveal_strlit(". ");
        reveal_strlit("\n");
        assert(out@ =~= start + name_line(number as nat, *entry));
    }
    let ghost head = out@;
    write_optional_line(out, &entry.address);
    let ghost with_address = out@;
    out.append("   ");
    out.append(entry.latitude.as_str());
    out.append(", ");
    out.append(entry.longitude.as_str());
    out.append("\n");
    proof {
        reveal_strlit("   ");
        reveal_strlit(", ");
        assert(out@ =~= with_address + coordinates_line(*entry));
    }
    let ghost with_coordinates = out@;
    write_details_line(out, entry);
    let ghost with_details = out@;
    write_optional_line(out, &entry.phone);
    let ghost with_phone = out@;
    write_optional_line(out, &entry.url);
    let ghost with_url = out@;
    out.append("\n");
    proof {
        assert(maps_block(number as nat, *entry) =~= name_line(number as nat, *entry) + optional_line(entry.address)
            + coordinates_line(*entry) + details_line(*entry) + optional_line(entry.phone)
            + optional_line(entry.url) + "\n"@);
        assert(out@ =~= start + maps_block(number as nat, *entry));
    }
}

/// Writes the plain-text rendering of maps results to `out`: numbered places,
/// each with name, address, coordinates, details, phone and URL as known.
pub fn write_maps_text(out: &mut String, entries: &Vec<MapsTextEntry>)
    ensures
        final(out)@ == old(out)@ + maps_text(entries@),
{
    let ghost start = out@;
    let n = entries.len();
    let mut i: usize = 0;
    while i < n
        invariant
            n == entries@.len(),
            i <= n,
            out@ == start + maps_text(entries@.take(i as int)),
        decreases n - i,
    {
        write_maps_block(out, (i + 1) as u64, &entries[i]);
        proof {
            let es = entries@.take(i + 1);
            assert(es.drop_last() =~= entries@.take(i as int));
            assert(es.last() == entries@[i as int]);
        }
        i = i + 1;
    }
    proof {
        assert(entries@.take(n as int) =~= entries@);
    }
}

/// How writing to the terminal failed: whether the reader closed the pipe,
/// and the description of the failure.
#[derive(Debug)]
pub struct WriteFailure {
    pub broken_pipe: bool,
    pub description: String,
}

/// The outcome of writing the output: a closed read end (for example
/// `kagi-search ... | head`) is a normal way for a pipeline to finish, not an
/// error; any other failure is.
pub fn finish(result: Result<(), WriteFailure>) -> (outcome: Result<(), KagiError>)
    ensures
        match result {
            Ok(()) => outcome is Ok,
            Err(failure) => if failure.broken_pipe {
                outcome is Ok
            } else {
                outcome is Err && outcome->Err_0@ == "failed to write output: "@ + failure.description@
            },
        },
{
    match result {
        Ok(()) => Ok(()),
        Err(failure) => if failure.broken_pipe {
            Ok(())
        } else {
            let mut message = String::from_str("failed to write output: ");
            message.append(failure.description.as_str());
            Err(KagiError::new(message))
        },
    }
}

proof fn lemma_concat_safe(a: Seq<char>, b: Seq<char>)
    requires
        all_terminal_safe(a),
        all_terminal_safe(b),
    ensures
        all_terminal_safe(a + b),
{
    assert forall|i: int| 0 <= i < (a + b).len() implies terminal_safe(#[trigger] (a + b)[i]) by {
        if i >= a.len() {
            assert((a + b)[i] == b[i - a.len()]);
        }
    }
}

proof fn lemma_joined_safe(parts: Seq<Seq<char>>, separator: Seq<char>)
    requires
        forall|k: int| 0 <= k < parts.len() ==> all_terminal_safe(#[trigger] parts[k]),
        all_terminal_safe(separator),
    ensures
        all_terminal_safe(joined(parts, separator)),
    decreases parts.len(),
{
    if parts.len() > 1 {
        lemma_joined_safe(parts.drop_last(), separator);
        lemma_concat_safe(joined(parts.drop_last(), separator), separator);
        lemma_concat_safe(joined(parts.drop_last(), separator) + separator, parts.last());
    }
}

proof fn lemma_literals_safe()
    ensures
        all_terminal_safe(". "@),
        all_terminal_safe("\n"@),
        all_terminal_safe("   "@),
        all_terminal_safe(", "@),
        all_terminal_safe(" | "@),
        all_terminal_safe("Related: "@),
        all_terminal_safe("Rating: "@),
        all_terminal_safe(" ("@),
        all_terminal_safe(")"@),
        all_terminal_safe("Price: "@),
        all_terminal_safe(Seq::<char>::empty()),
{
    reveal_strlit(". ");
    reveal_strlit("\n");
    reveal_strlit("   ");
    reveal_strlit(", ");
    reveal_strlit(" | ");
    reveal_strlit("Related: ");
    reveal_strlit("Rating: ");
    reveal_strlit(" (");
    reveal_strlit(")");
    reveal_strlit("Price: ");
}

proof fn lemma_result_blocks_safe(results: Seq<SearchResult>)
    ensures
        all_terminal_safe(result_blocks(results)),
    decreases results.len(),
{
    if results.len() > 0 {
        lemma_result_blocks_safe(results.drop_last());
        let r = results.last();
        lemma_literals_safe();
        lemma_decimal_safe(results.len() as nat);
        lemma_sanitized_safe(r.title@);
        lemma_sanitized_safe(r.url@);
        lemma_sanitized_safe(r.snippet@);
        let snippet_part = if r.snippet@.len() > 0 {
            "   "@ + sanitized(r.snippet@) + "\n"@
        } else {
            Seq::empty()
        };
        lemma_concat_safe("   "@, sanitized(r.snippet@));
        lemma_concat_safe("   "@ + sanitized(r.snippet@), "\n"@);
        lemma_concat_safe(decimal(results.len() as nat), ". "@);
        lemma_concat_safe(decimal(results.len() as nat) + ". "@, sanitized(r.title@));
        lemma_concat_safe(decimal(results.len() as nat) + ". "@ + sanitized(r.title@), "\n"@);
        let a = decimal(results.len() as nat) + ". "@ + sanitized(r.title@) + "\n"@;
        lemma_concat_safe(a, "   "@);
        lemma_concat_safe(a + "   "@, sanitized(r.url@));
        lemma_concat_safe(a + "   "@ + sanitized(r.url@), "\n"@);
        let b = a + "   "@ + sanitized(r.url@) + "\n"@;
        lemma_concat_safe(b, snippet_part);
        lemma_concat_safe(b + snippet_part, "\n"@);
        lemma_concat_safe(result_blocks(results.drop_last()), result_block(results.len() as nat, r));
    }
}

/// The plain-text rendering of a search holds no control character other
/// than line feed and tab, whatever the server sent: escape sequences in
/// titles, URLs, snippets and related searches never reach the terminal.
pub proof fn lemma_search_text_terminal_safe(output: SearchOutput)
    ensures
        all_terminal_safe(search_text(output)),
{
    lemma_result_blocks_safe(output.results@);
    lemma_literals_safe();
    let related = output.related@;
    if related.len() > 0 {
        let parts = related.map_values(|term: String| sanitized(term@));
        assert forall|k: int| 0 <= k < parts.len() implies all_terminal_safe(#[trigger] parts[k]) by {
            lemma_sanitized_safe(related[k]@);
        }
        lemma_joined_safe(parts, ", "@);
        lemma_concat_safe("Related: "@, joined(parts, ", "@));
        lemma_concat_safe("Related: "@ + joined(parts, ", "@), "\n"@);
    }
    lemma_concat_safe(result_blocks(output.results@), related_line(related));
}

/// The plain-text rendering of a summary holds no control character other
/// than line feed and tab.
pub proof fn lemma_summary_text_terminal_safe(output: SummarizeOutput)
    ensures
        all_terminal_safe(summary_text(output)),
{
    lemma_literals_safe();
    lemma_sanitized_safe(output.summary@);
    lemma_concat_safe(sanitized(output.summary@), "\n"@);
}

proof fn lemma_optional_line_safe(text: Option<String>)
    ensures
        all_terminal_safe(optional_line(text)),
{
    lemma_literals_safe();
    match text {
        Some(t) => {
            lemma_sanitized_safe(t@);
            lemma_concat_safe("   "@, sanitized(t@));
            lemma_concat_safe("   "@ + sanitized(t@), "\n"@);
        },
        None => {},
    }
}

/// The numbers of an entry (coordinates and rating) are written without
/// control characters.
pub open spec fn numbers_terminal_safe(entry: MapsTextEntry) -> bool {
    &&& all_terminal_safe(entry.latitude@)
    &&& all_terminal_safe(entry.longitude@)
    &&& entry.rating matches Some(r) ==> all_terminal_safe(r@)
}

#[verifier::spinoff_prover]
proof fn lemma_maps_block_safe(number: nat, entry: MapsTextEntry)
    requires
        numbers_terminal_safe(entry),
    ensures
        all_terminal_safe(maps_block(number, entry)),
{
    lemma_literals_safe();
    lemma_decimal_safe(number);
    lemma_sanitized_safe(entry.name@);
    lemma_concat_safe(decimal(number), ". "@);
    lemma_concat_safe(decimal(number) + ". "@, sanitized(entry.name@));
    lemma_concat_safe(decimal(number) + ". "@ + sanitized(entry.name@), "\n"@);
    lemma_concat_safe("   "@, entry.latitude@);
    lemma_concat_safe("   "@ + entry.latitude@, ", "@);
    lemma_concat_safe("   "@ + entry.latitude@ + ", "@, entry.longitude@);
    lemma_concat_safe("   "@ + entry.latitude@ + ", "@ + entry.longitude@, "\n"@);
    let details = maps_details(entry);
    match entry.rating {
        Some(rating) => {
            lemma_concat_safe("Rating: "@, rating@);
            match entry.review_count {
                Some(count) => {
                    lemma_decimal_safe(count as nat);
                    lemma_concat_safe("Rating: "@ + rating@, " ("@);
                    lemma_concat_safe("Rating: "@ + rating@ + " ("@, decimal(count as nat));
                    lemma_concat_safe("Rating: "@ + rating@ + " ("@ + decimal(count as nat), ")"@);
                },
                None => {},
            }
        },
        None => {},
    }
    match entry.price {
        Some(price) => {
            lemma_sanitized_safe(price@);
            lemma_concat_safe("Price: "@, sanitized(price@));
        },
        None => {},
    }
    match entry.hours_now {
        Some(hours) => {
            lemma_sanitized_safe(hours@);
        },
        None => {},
    }
    assert forall|k: int| 0 <= k < details.len() implies all_terminal_safe(#[trigger] details[k]) by {
        let r = rating_detail(entry);
        let p = price_detail(entry);
        if k >= r.len() + p.len() {
            assert(details[k] == hours_detail(entry)[k - r.len() - p.len()]);
        } else if k >= r.len() {
            assert(details[k] == p[k - r.len()]);
        } else {
            assert(details[k] == r[k]);
        }
    }
    lemma_joined_safe(details, " | "@);
    if details.len() > 0 {
        lemma_concat_safe("   "@, joined(details, " | "@));
        lemma_concat_safe("   "@ + joined(details, " | "@), "\n"@);
    }
    lemma_optional_line_safe(entry.address);
    lemma_optional_line_safe(entry.phone);
    lemma_optional_line_safe(entry.url);
    let n = name_line(number, entry);
    let c = coordinates_line(entry);
    lemma_concat_safe(n, optional_line(entry.address));
    lemma_concat_safe(n + optional_line(entry.address), c);
    lemma_concat_safe(n + optional_line(entry.address) + c, details_line(entry));
    let d = n + optional_line(entry.address) + c + details_line(entry);
    lemma_concat_safe(d, optional_line(entry.phone));
    lemma_concat_safe(d + optional_line(entry.phone), optional_line(entry.url));
    lemma_concat_safe(d + optional_line(entry.phone) + optional_line(entry.url), "\n"@);
    assert(maps_block(number, entry) =~= d + optional_line(entry.phone) + optional_line(entry.url) + "\n"@);
}

/// The plain-text rendering of maps results holds no control character other
/// than line feed and tab, given that the numbers are written without them.
pub proof fn lemma_maps_text_terminal_safe(entries: Seq<MapsTextEntry>)
    requires
        forall|k: int| 0 <= k < entries.len() ==> numbers_terminal_safe(#[trigger] entries[k]),
    ensures
        all_terminal_safe(maps_text(entries)),
    decreases entries.len(),
{
    if entries.len() > 0 {
        lemma_maps_text_terminal_safe(entries.drop_last());
        lemma_maps_block_safe(entries.len() as nat, entries.last());
        lemma_concat_safe(maps_text(entries.drop_last()), maps_block(entries.len() as nat, entries.last()));
    }
}

/// The control characters are exactly U+0000 to U+001F and U+007F to U+009F;
/// of them only line feed and tab reach the terminal, and every other
/// character does.
pub proof fn lemma_terminal_safe_chars(c: char)
    ensures
        terminal_safe(c) <==> !(((c as u32) < 0x20 || (0x7f <= (c as u32) && (c as u32) <= 0x9f))
            && (c as u32) != 0x0a && (c as u32) != 0x09),
{
}

/// Sanitizing keeps exactly the characters that may reach the terminal, in
/// their order: what is kept from `a + b` is what is kept from `a`, then
/// from `b`.
pub proof fn lemma_sanitized_concat(a: Seq<char>, b: Seq<char>)
    ensures
        sanitized(a + b) == sanitized(a) + sanitized(b),
    decreases b.len(),
{
    if b.len() == 0 {
        assert(a + b =~= a);
        assert(sanitized(a) + sanitized(b) =~= sanitized(a));
    } else {
        lemma_sanitized_concat(a, b.drop_last());
        assert((a + b).drop_last() =~= a + b.drop_last());
        assert((a + b).last() == b.last());
        if terminal_safe(b.last()) {
            assert(sanitized(a) + sanitized(b.drop_last()).push(b.last())
                =~= (sanitized(a) + sanitized(b.drop_last())).push(b.last()));
        }
    }
}

/// A single character survives sanitizing exactly when it may reach the terminal.
pub proof fn lemma_sanitized_char(c: char)
    ensures
        sanitized(seq![c]) == if terminal_safe(c) { seq![c] } else { Seq::<char>::empty() },
{
    let s = seq![c];
    assert(s.len() == 1 && s.last() == c);
    assert(s.drop_last() =~= Seq::<char>::empty());
    assert(sanitized(s.drop_last()) == Seq::<char>::empty());
    assert(Seq::<char>::empty().push(c) =~= s);
}

/// Hits are numbered from 1 in their order: the `k`-th hit (counting from 0)
/// gets the block numbered `k + 1`, after the blocks of the hits before it.
pub proof fn lemma_hits_numbered_from_one(results: Seq<SearchResult>, k: int)
    requires
        0 <= k < results.len(),
    ensures
        result_blocks(results.take(k + 1)) == result_blocks(results.take(k)) + result_block((k + 1) as nat, results[k]),
{
    assert(results.take(k + 1).drop_last() =~= results.take(k));
}

/// Places are numbered from 1 in their order, like search hits.
pub proof fn lemma_places_numbered_from_one(entries: Seq<MapsTextEntry>, k: int)
    requires
        0 <= k < entries.len(),
    ensures
        maps_text(entries.take(k + 1)) == maps_text(entries.take(k)) + maps_block((k + 1) as nat, entries[k]),
{
    assert(entries.take(k + 1).drop_last() =~= entries.take(k));
}

/// A rating with a review count is written `Rating: <rating> (<count>)`, the
/// count as its decimal numeral.
pub proof fn lemma_rating_with_count(entry: MapsTextEntry)
    requires
        entry.rating is Some,
        entry.review_count is Some,
    ensures
        rating_detail(entry) == seq![
            "Rating: "@ + entry.rating->0@ + " ("@ + decimal(entry.review_count->0 as nat) + ")"@,
        ],
        numeral_value(decimal(entry.review_count->0 as nat)) == entry.review_count->0,
{
    lemma_decimal_reads_back(entry.review_count->0 as nat);
}

} // verus!
