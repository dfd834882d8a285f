//! Reading the stream that Kagi's summarizer answers with.
//!
//! The stream is a run of NUL-separated chunks; the last chunk that holds
//! anything besides ASCII whitespace carries the final state as JSON, possibly
//! behind a `final:` or `new_message.json:` label.

use vstd::prelude::*;
use vstd::string::StringExecFns;

use crate::error::KagiError;
use crate::request::{bytes_result, check_status, read_failure, read_failure_message, response_error, response_error_message, status_verdict};
use crate::json::{json_accepts, json_error_text, json_str_at, JsonDoc};
use crate::output::{all_terminal_safe, lemma_sanitized_safe, sanitize, sanitized};
use crate::text::{str_from_utf8, strip_prefix, trim, trimmed, utf8_error_text};

verus! {

/// The summary of one URL.
#[derive(Debug, PartialEq, Eq)]
pub struct SummarizeOutput {
    pub summary: String,
}

/// ASCII whitespace as `u8::is_ascii_whitespace` knows it: space, tab, line
/// feed, form feed and carriage return.
pub open spec fn is_ascii_whitespace_byte(b: u8) -> bool {
    b == 0x20 || b == 0x09 || b == 0x0a || b == 0x0c || b == 0x0d
}

/// A chunk holds data when one of its bytes is not ASCII whitespace.
pub open spec fn holds_data(chunk: Seq<u8>) -> bool {
    exists|i: int| 0 <= i < chunk.len() && !is_ascii_whitespace_byte(#[trigger] chunk[i])
}

/// The bytes after the last NUL of `body` (all of `body` when it has none).
pub open spec fn trailing_chunk(body: Seq<u8>) -> Seq<u8>
    decreases body.len(),
{
    if body.len() == 0 || body.last() == 0 {
        Seq::empty()
    } else {
        trailing_chunk(body.drop_last()).push(body.last())
    }
}

/// The last NUL-separated chunk of `body` that holds data, if any.
pub open spec fn last_data_chunk(body: Seq<u8>) -> Option<Seq<u8>>
    decreases body.len(),
{
    let chunk = trailing_chunk(body);
    if holds_data(chunk) {
        Some(chunk)
    } else if chunk.len() >= body.len() {
        None
    } else {
        last_data_chunk(body.take(body.len() - chunk.len() - 1))
    }
}

/// The label-free JSON text of a summarizer stream, or the error it calls for.
pub open spec fn summary_json_text(body: Seq<u8>) -> Result<Seq<char>, Seq<char>> {
    if body.len() == 0 {
        Err("Empty response from summarizer"@)
    } else {
        match last_data_chunk(body) {
            None => Err("No data chunks in response"@),
            Some(chunk) => if !vstd::utf8::valid_utf8(chunk) {
                Err("Invalid UTF-8 in response: "@ + utf8_error_text(chunk))
            } else {
                let text = trimmed(vstd::utf8::decode_utf8(chunk));
                if "final:"@.is_prefix_of(text) {
                    Ok(trimmed(text.skip(6)))
                } else if "new_message.json:"@.is_prefix_of(text) {
                    Ok(trimmed(text.skip(17)))
                } else {
                    Ok(text)
                }
            },
        }
    }
}

/// The summary, or the error, that the fields of the final JSON state give:
/// `state`, `reply`, `md` and `output_data.markdown`.
pub open spec fn summary_from_state(
    state: Option<Seq<char>>,
    reply: Option<Seq<char>>,
    md: Option<Seq<char>>,
    fallback: Option<Seq<char>>,
) -> Result<Seq<char>, Seq<char>> {
    if state == Some("error"@) {
        Err(
            "Summarizer error: "@ + sanitized(
                match reply {
                    Some(r) => r,
                    None => "Unknown error"@,
                },
            ),
        )
    } else {
        let markdown = match md {
            Some(m) => Some(m),
            None => fallback,
        };
        match markdown {
            None => Err("Missing markdown in response"@),
            Some(m) => if m.len() == 0 {
                Err("Empty summary returned"@)
            } else {
                Ok(m)
            },
        }
    }
}

/// What a summarizer stream amounts to.
pub open spec fn summary_outcome(body: Seq<u8>) -> Result<Seq<char>, Seq<char>> {
    match summary_json_text(body) {
        Err(message) => Err(message),
        Ok(json) => if !json_accepts(json) {
            Err("Failed to parse summary JSON: "@ + json_error_text(json))
        } else {
            summary_from_state(
                json_str_at(json, seq!["state"@]),
                json_str_at(json, seq!["reply"@]),
                json_str_at(json, seq!["md"@]),
                json_str_at(json, seq!["output_data"@, "markdown"@]),
            )
        },
    }
}

/// The characters of an outcome with a string on each side.
pub open spec fn text_outcome(r: Result<String, String>) -> Result<Seq<char>, Seq<char>> {
    match r {
        Ok(t) => Ok(t@),
        Err(e) => Err(e@),
    }
}

/// The characters of a summary outcome.
pub open spec fn summary_outcome_of(r: Result<SummarizeOutput, String>) -> Result<Seq<char>, Seq<char>> {
    match r {
        Ok(output) => Ok(output.summary@),
        Err(e) => Err(e@),
    }
}

fn is_ascii_whitespace(b: u8) -> (white: bool)
    ensures
        white == is_ascii_whitespace_byte(b),
{
    b == 0x20 || b == 0x09 || b == 0x0a || b == 0x0c || b == 0x0d
}

/// The last NUL-separated chunk of `body` that holds a byte other than ASCII
/// whitespace.
pub fn find_last_data_chunk(body: &[u8]) -> (chunk: Option<Vec<u8>>)
    ensures
        match chunk {
            Some(c) => last_data_chunk(body@) == Some(c@),
            None => last_data_chunk(body@) is None,
        },
{
    let mut end: usize = body.len();
    proof {
        assert(body@.take(end as int) =~= body@);
    }
    loop
        invariant
            end <= body@.len(),
            last_data_chunk(body@) == last_data_chunk(body@.take(end as int)),
        decreases end,
    {
        let ghost prefix = body@.take(end as int);
        let mut start: usize = end;
        while start > 0 && body[start - 1] != 0
            invariant
                start <= end <= body@.len(),
                prefix == body@.take(end as int),
                trailing_chunk(prefix) == trailing_chunk(body@.take(start as int)) + body@.subrange(start as int, end as int),
            decreases start,
        {
            proof {
                let shorter = body@.take(start - 1);
                assert(body@.take(start as int).drop_last() =~= shorter);
                assert(body@.take(start as int).last() == body@[start - 1]);
                assert(trailing_chunk(body@.take(start as int)) == trailing_chunk(shorter).push(body@[start - 1]));
                assert(body@.subrange(start - 1, end as int) =~= seq![body@[start - 1]] + body@.subrange(start as int, end as int));
                assert(trailing_chunk(shorter).push(body@[start - 1]) + body@.subrange(start as int, end as int)
                    =~= trailing_chunk(shorter) + body@.subrange(start - 1, end as int));
            }
            start = start - 1;
        }
        proof {
            assert(trailing_chunk(body@.take(start as int)) =~= Seq::<u8>::empty());
            assert(trailing_chunk(prefix) =~= body@.subrange(start as int, end as int));
        }
        let mut data = false;
        let mut copy: Vec<u8> = Vec::new();
        let mut k: usize = start;
        while k < end
            invariant
                start <= k <= end <= body@.len(),
                copy@ == body@.subrange(start as int, k as int),
                data == exists|i: int| start <= i < k && !is_ascii_whitespace_byte(#[trigger] body@[i]),
            decreases end - k,
        {
            if !is_ascii_whitespace(body[k]) {
                data = true;
            }
            copy.push(body[k]);
            proof {
                assert(body@.subrange(start as int, k + 1) =~= body@.subrange(start as int, k as int).push(body@[k as int]));
            }
            k = k + 1;
        }
        proof {
            let chunk = body@.subrange(start as int, end as int);
            assert(copy@ =~= chunk);
            if data {
                let i = choose|i: int| start <= i < end && !is_ascii_whitespace_byte(body@[i]);
                assert(chunk[i - start] == body@[i]);
            } else {
                assert forall|i: int| 0 <= i < chunk.len() implies is_ascii_whitespace_byte(#[trigger] chunk[i]) by {
                    assert(chunk[i] == body@[start + i]);
                }
            }
        }
        if data {
            return Some(copy);
        }
        if start == 0 {
            return None;
        }
        proof {
            assert(prefix.take(prefix.len() - trailing_chunk(prefix).len() - 1) =~= body@.take(start - 1));
        }
        end = start - 1;
    }
}

/// The label-free JSON text of a summarizer stream, or the error it calls for:
/// the stream is empty, has no chunk with data, or its last data chunk is not
/// UTF-8.
pub fn summary_json(body: &[u8]) -> (json: Result<String, String>)
    ensures
        text_outcome(json) == summary_json_text(body@),
{
    if body.len() == 0 {
        return Err(String::from_str("Empty response from summarizer"));
    }
    let chunk = match find_last_data_chunk(body) {
        Some(chunk) => chunk,
        None => return Err(String::from_str("No data chunks in response")),
    };
    let decoded = match str_from_utf8(chunk.as_slice()) {
        Ok(text) => text,
        Err(error) => {
            let mut message = String::from_str("Invalid UTF-8 in response: ");
            message.append(error.as_str());
            return Err(message);
        },
    };
    let text = trim(decoded);
    match strip_prefix(text.as_str(), "final:") {
        Some(rest) => {
            proof {
                reveal_strlit("final:");
            }
            return Ok(trim(rest.as_str()));
        },
        None => {},
    }
    match strip_prefix(text.as_str(), "new_message.json:") {
        Some(rest) => {
            proof {
                reveal_strlit("new_message.json:");
            }
            Ok(trim(rest.as_str()))
        },
        None => Ok(text),
    }
}

/// The summary, or the error, given by the `state`, `reply`, `md` and
/// `output_data.markdown` fields of the summarizer's final JSON state.
pub fn summary_from_fields(
    state: Option<String>,
    reply: Option<String>,
    md: Option<String>,
    fallback: Option<String>,
) -> (outcome: Result<SummarizeOutput, String>)
    ensures
        summary_outcome_of(outcome) == summary_from_state(
            match state { Some(s) => Some(s@), None => None },
            match reply { Some(s) => Some(s@), None => None },
            match md { Some(s) => Some(s@), None => None },
            match fallback { Some(s) => Some(s@), None => None },
        ),
{
    let is_error = match &state {
        Some(s) => crate::text::same_text(s.as_str(), "error"),
        None => false,
    };
    if is_error {
        let reply_text = match reply {
            Some(r) => r,
            None => String::from_str("Unknown error"),
        };
        let mut message = String::from_str("Summarizer error: ");
        message.append(sanitize(reply_text.as_str()).as_str());
        return Err(message);
    }
    let markdown = match md {
        Some(m) => Some(m),
        None => fallback,
    };
    match markdown {
        None => Err(String::from_str("Missing markdown in response")),
        Some(m) => if m.as_str().is_empty() {
            Err(String::from_str("Empty summary returned"))
        } else {
            Ok(SummarizeOutput { summary: m })
        },
    }
}

/// Reads a summarizer stream: the markdown of its final state, or the error
/// the stream calls for (nothing usable in it, a malformed final state, a
/// reported failure, or an empty summary).
pub fn parse_summary_stream(body: &[u8]) -> (outcome: Result<SummarizeOutput, String>)
    ensures
        summary_outcome_of(outcome) == summary_outcome(body@),
{
    let json_text = match summary_json(body) {
        Ok(text) => text,
        Err(message) => return Err(message),
    };
    let doc = match JsonDoc::parse(json_text.as_str()) {
        Ok(doc) => doc,
        Err(failure) => {
            let mut message = String::from_str("Failed to parse summary JSON: ");
            message.append(failure.message().as_str());
            return Err(message);
        },
    };
    let root = doc.root();
    let state = root.get("state").as_str();
    let reply = root.get("reply").as_str();
    let md = root.get("md").as_str();
    let fallback = root.get("output_data").get("markdown").as_str();
    proof {
        assert(Seq::<Seq<char>>::empty().push("state"@) =~= seq!["state"@]);
        assert(Seq::<Seq<char>>::empty().push("reply"@) =~= seq!["reply"@]);
        assert(Seq::<Seq<char>>::empty().push("md"@) =~= seq!["md"@]);
        assert(Seq::<Seq<char>>::empty().push("output_data"@).push("markdown"@) =~= seq!["output_data"@, "markdown"@]);
    }
    summary_from_fields(state, reply, md, fallback)
}

proof fn lemma_trailing_chunk_of_suffix(prefix: Seq<u8>, chunk: Seq<u8>)
    requires
        forall|i: int| 0 <= i < chunk.len() ==> #[trigger] chunk[i] != 0,
    ensures
        trailing_chunk(prefix.push(0) + chunk) == chunk,
    decreases chunk.len(),
{
    let body = prefix.push(0) + chunk;
    if chunk.len() == 0 {
        assert(body =~= prefix.push(0));
    } else {
        assert(body.drop_last() =~= prefix.push(0) + chunk.drop_last());
        lemma_trailing_chunk_of_suffix(prefix, chunk.drop_last());
        assert(chunk.drop_last().push(chunk.last()) =~= chunk);
    }
}

/// The state is read from the last chunk that holds data: a chunk with data
/// after the last NUL is the one used, whatever came before.
pub proof fn lemma_last_chunk_wins(earlier: Seq<u8>, chunk: Seq<u8>)
    requires
        forall|i: int| 0 <= i < chunk.len() ==> #[trigger] chunk[i] != 0,
        holds_data(chunk),
    ensures
        last_data_chunk(earlier.push(0) + chunk) == Some(chunk),
{
    lemma_trailing_chunk_of_suffix(earlier, chunk);
}

/// Trailing chunks without data (keep-alive whitespace) are passed over.
pub proof fn lemma_blank_tail_skipped(earlier: Seq<u8>, blank: Seq<u8>)
    requires
        forall|i: int| 0 <= i < blank.len() ==> #[trigger] blank[i] != 0,
        !holds_data(blank),
    ensures
        last_data_chunk(earlier.push(0) + blank) == last_data_chunk(earlier),
{
    let body = earlier.push(0) + blank;
    lemma_trailing_chunk_of_suffix(earlier, blank);
    assert(body.take(body.len() - blank.len() - 1) =~= earlier);
}

proof fn lemma_message_literals_safe()
    ensures
        all_terminal_safe("Summarizer error: "@),
        all_terminal_safe("Missing markdown in response"@),
        all_terminal_safe("Empty summary returned"@),
{
    reveal_strlit("Summarizer error: ");
    reveal_strlit("Missing markdown in response");
    reveal_strlit("Empty summary returned");
}

/// A failure that the summarizer reports reaches the terminal without control
/// characters: its reply is sanitized.
pub proof fn lemma_state_errors_terminal_safe(
    state: Option<Seq<char>>,
    reply: Option<Seq<char>>,
    md: Option<Seq<char>>,
    fallback: Option<Seq<char>>,
)
    ensures
        summary_from_state(state, reply, md, fallback) matches Err(message) ==> all_terminal_safe(message),
{
    lemma_message_literals_safe();
    let r = match reply {
        Some(r) => r,
        None => "Unknown error"@,
    };
    lemma_sanitized_safe(r);
    let m = "Summarizer error: "@ + sanitized(r);
    assert forall|i: int| 0 <= i < m.len() implies crate::output::terminal_safe(#[trigger] m[i]) by {
        if i >= "Summarizer error: "@.len() {
            assert(m[i] == sanitized(r)[i - "Summarizer error: "@.len()]);
        }
    }
}

/// The `md` field wins over `output_data.markdown` when both are present.
pub proof fn lemma_md_preferred(md: Seq<char>, fallback: Option<Seq<char>>, reply: Option<Seq<char>>, state: Option<Seq<char>>)
    requires
        state != Some("error"@),
        md.len() > 0,
    ensures
        summary_from_state(state, reply, Some(md), fallback) == Ok::<Seq<char>, Seq<char>>(md),
{
}

/// The characters of a summarize answer: the summary, or the error's message.
pub open spec fn summarize_result_of(r: Result<SummarizeOutput, KagiError>) -> Result<Seq<char>, Seq<char>> {
    match r {
        Ok(output) => Ok(output.summary@),
        Err(e) => Err(e@),
    }
}

/// What a summarize request amounts to, given the answer's status (and how
/// the status is written) and what reading its body gave: a refused answer
/// gives its error, an unreadable body the read error, and otherwise the
/// stream is read.
pub open spec fn summarize_answer_of(
    status: u16,
    status_text: Seq<char>,
    body: Result<Seq<u8>, Seq<char>>,
) -> Result<Seq<char>, Seq<char>> {
    match status_verdict(status) {
        Err(e) => Err(response_error_message(e, status_text)),
        Ok(_) => match body {
            Err(error) => Err(read_failure_message(error)),
            Ok(bytes) => summary_outcome(bytes),
        },
    }
}

/// The answer to a summarize request: the status check first, then the body,
/// then the stream. `body` is only looked at when the status passes.
pub fn summarize_answer(status: u16, status_text: &str, body: Result<Vec<u8>, String>) -> (answer: Result<SummarizeOutput, KagiError>)
    ensures
        summarize_result_of(answer) == summarize_answer_of(status, status_text@, bytes_result(body)),
{
    match check_status(status) {
        Err(e) => Err(response_error(e, status_text)),
        Ok(()) => match body {
            Err(error) => Err(read_failure(error.as_str())),
            Ok(bytes) => match parse_summary_stream(bytes.as_slice()) {
                Ok(output) => Ok(output),
                Err(message) => Err(KagiError::new(message)),
            },
        },
    }
}

/// A final state written as `final:` and the JSON is read without the label:
/// what follows the label, trimmed.
pub proof fn lemma_final_label_stripped(earlier: Seq<u8>, chunk: Seq<u8>, rest: Seq<char>)
    requires
        forall|i: int| 0 <= i < chunk.len() ==> #[trigger] chunk[i] != 0,
        holds_data(chunk),
        vstd::utf8::valid_utf8(chunk),
        trimmed(vstd::utf8::decode_utf8(chunk)) == seq!['f', 'i', 'n', 'a', 'l', ':'] + rest,
    ensures
        summary_json_text(earlier.push(0) + chunk) == Ok::<Seq<char>, Seq<char>>(trimmed(rest)),
{
    lemma_last_chunk_wins(earlier, chunk);
    reveal_strlit("final:");
    let text = trimmed(vstd::utf8::decode_utf8(chunk));
    assert("final:"@.is_prefix_of(text)) by {
        assert(text.subrange(0, 6) =~= "final:"@);
    }
    assert(text.skip(6) =~= rest);
}

/// A state written as `new_message.json:` and the JSON is read without the
/// label: what follows the label, trimmed.
pub proof fn lemma_message_label_stripped(earlier: Seq<u8>, chunk: Seq<u8>, rest: Seq<char>)
    requires
        forall|i: int| 0 <= i < chunk.len() ==> #[trigger] chunk[i] != 0,
        holds_data(chunk),
        vstd::utf8::valid_utf8(chunk),
        trimmed(vstd::utf8::decode_utf8(chunk)) == seq![
            'n', 'e', 'w', '_', 'm', 'e', 's', 's', 'a', 'g', 'e', '.', 'j', 's', 'o', 'n', ':',
        ] + rest,
    ensures
        summary_json_text(earlier.push(0) + chunk) == Ok::<Seq<char>, Seq<char>>(trimmed(rest)),
{
    lemma_last_chunk_wins(earlier, chunk);
    reveal_strlit("final:");
    reveal_strlit("new_message.json:");
    let text = trimmed(vstd::utf8::decode_utf8(chunk));
    if "final:"@.is_prefix_of(text) {
        assert(text.subrange(0, 6)[0] == text[0]);
        assert(text[0] == 'n');
        assert(false);
    }
    assert("new_message.json:"@.is_prefix_of(text)) by {
        assert(text.subrange(0, 17) =~= "new_message.json:"@);
    }
    assert(text.skip(17) =~= rest);
}

/// A final state whose `state` is `error` is always refused, whatever
/// markdown it holds, with the reply (sanitized) in the message.
pub proof fn lemma_error_state_refused(
    reply: Option<Seq<char>>,
    md: Option<Seq<char>>,
    fallback: Option<Seq<char>>,
)
    ensures
        summary_from_state(Some(seq!['e', 'r', 'r', 'o', 'r']), reply, md, fallback) matches Err(message)
            && message == seq!['S', 'u', 'm', 'm', 'a', 'r', 'i', 'z', 'e', 'r', ' ', 'e', 'r', 'r', 'o', 'r', ':', ' ']
            + sanitized(match reply {
                Some(r) => r,
                None => "Unknown error"@,
            }),
{
    reveal_strlit("error");
    reveal_strlit("Summarizer error: ");
    assert("error"@ =~= seq!['e', 'r', 'r', 'o', 'r']);
    assert("Summarizer error: "@ =~= seq!['S', 'u', 'm', 'm', 'a', 'r', 'i', 'z', 'e', 'r', ' ', 'e', 'r', 'r', 'o', 'r', ':', ' ']);
}

/// Without an `error` state, the markdown is `md` when present, else
/// `output_data.markdown`; a present, non-empty markdown is the summary.
pub proof fn lemma_markdown_fallback(state: Option<Seq<char>>, reply: Option<Seq<char>>, fallback: Seq<char>)
    requires
        state != Some(seq!['e', 'r', 'r', 'o', 'r']),
        fallback.len() > 0,
    ensures
        summary_from_state(state, reply, None, Some(fallback)) == Ok::<Seq<char>, Seq<char>>(fallback),
{
    reveal_strlit("error");
    assert("error"@ =~= seq!['e', 'r', 'r', 'o', 'r']);
}

} // verus!
