//! What the tools send to Kagi, and how they read the status of the answer:
//! the query text, the query parameters, the session token and the response
//! checks.

use vstd::prelude::*;
use vstd::string::StringExecFns;

use crate::cli::{Lens, MapsArgs, SearchArgs, Sort, SummarizeArgs, TimeRange};
use crate::error::KagiError;
use crate::output::joined;
use crate::text::{texts_of, trim, trimmed};

verus! {

/// A query parameter as characters: its name and its value.
pub type Param = (Seq<char>, Seq<char>);

/// The characters of each query parameter of `params`.
pub open spec fn params_of(params: Seq<(&'static str, String)>) -> Seq<Param> {
    params.map_values(|p: (&'static str, String)| (p.0@, p.1@))
}

/// The characters of an optional string.
pub open spec fn opt_text(value: Option<String>) -> Option<Seq<char>> {
    match value {
        Some(v) => Some(v@),
        None => None,
    }
}

/// The parameter `name` with the given value, or no parameter when there is none.
pub open spec fn param_if(name: Seq<char>, value: Option<Seq<char>>) -> Seq<Param> {
    match value {
        Some(v) => seq![(name, v)],
        None => Seq::empty(),
    }
}

/// The words of a query joined by single spaces.
pub fn join_words(words: &Vec<String>) -> (query: String)
    ensures
        query@ == joined(texts_of(words@), " "@),
{
    let ghost parts = texts_of(words@);
    let mut query = String::from_str("");
    proof {
        reveal_strlit("");
        assert(parts.take(0) =~= Seq::<Seq<char>>::empty());
    }
    let mut i: usize = 0;
    while i < words.len()
        invariant
            parts == texts_of(words@),
            i <= words@.len(),
            query@ == joined(parts.take(i as int), " "@),
        decreases words.len() - i,
    {
        proof {
            assert(parts.take(i + 1).drop_last() =~= parts.take(i as int));
        }
        if i > 0 {
            query.append(" ");
        }
        query.append(words[i].as_str());
        proof {
            if i == 0 {
                assert(parts.take(1) =~= seq![parts[0]]);
            }
        }
        i = i + 1;
    }
    proof {
        assert(parts.take(words@.len() as int) =~= parts);
    }
    query
}

/// The search query: the words joined by spaces, then ` site:SITE` and
/// ` filetype:EXT` when those options are given.
pub open spec fn search_query_text(args: SearchArgs) -> Seq<char> {
    joined(texts_of(args.query@), " "@)
        + match args.site {
            Some(site) => " site:"@ + site@,
            None => Seq::empty(),
        }
        + match args.filetype {
            Some(filetype) => " filetype:"@ + filetype@,
            None => Seq::empty(),
        }
}

pub fn build_query(args: &SearchArgs) -> (query: String)
    ensures
        query@ == search_query_text(*args),
{
    let mut query = join_words(&args.query);
    let ghost words = query@;
    match &args.site {
        Some(site) => {
            query.append(" site:");
            query.append(site.as_str());
        },
        None => {},
    }
    let ghost with_site = query@;
    match &args.filetype {
        Some(filetype) => {
            query.append(" filetype:");
            query.append(filetype.as_str());
        },
        None => {},
    }
    proof {
        assert(with_site == words + match args.site {
            Some(site) => " site:"@ + site@,
            None => Seq::<char>::empty(),
        });
        assert(query@ =~= search_query_text(*args));
    }
    query
}

/// The lens parameter value, if a lens is chosen.
pub open spec fn lens_value(lens: Option<Lens>) -> Option<Seq<char>> {
    match lens {
        Some(l) => Some(l.api_value()),
        None => None,
    }
}

pub open spec fn sort_value(sort: Option<Sort>) -> Option<Seq<char>> {
    match sort {
        Some(s) => Some(s.api_value()),
        None => None,
    }
}

pub open spec fn time_value(time: Option<TimeRange>) -> Option<Seq<char>> {
    match time {
        Some(t) => Some(t.api_value()),
        None => None,
    }
}

/// The query parameters of a search, in the order they are sent: `q`, then
/// `r`, `l`, `order`, `dr`, `from_date`, `to_date` and `verbatim` for the
/// options that are given.
pub open spec fn search_params(args: SearchArgs, query: Seq<char>) -> Seq<Param> {
    seq![("q"@, query)]
        + param_if("r"@, opt_text(args.region))
        + param_if("l"@, lens_value(args.lens))
        + param_if("order"@, sort_value(args.sort))
        + param_if("dr"@, time_value(args.time))
        + param_if("from_date"@, opt_text(args.from))
        + param_if("to_date"@, opt_text(args.to))
        + param_if("verbatim"@, if args.verbatim { Some("1"@) } else { None })
}

fn push_param(params: &mut Vec<(&'static str, String)>, name: &'static str, value: String)
    ensures
        params_of(final(params)@) == params_of(old(params)@).push((name@, value@)),
{
    let ghost before = params_of(params@);
    params.push((name, value));
    proof {
        assert(params_of(params@) =~= before.push((name@, value@)));
    }
}

fn push_optional(params: &mut Vec<(&'static str, String)>, name: &'static str, value: &Option<String>)
    ensures
        params_of(final(params)@) == params_of(old(params)@) + param_if(name@, opt_text(*value)),
{
    match value {
        Some(v) => push_param(params, name, v.clone()),
        None => {},
    }
    proof {
        assert(params_of(params@) =~= params_of(old(params)@) + param_if(name@, opt_text(*value)));
    }
}

fn push_static(params: &mut Vec<(&'static str, String)>, name: &'static str, value: Option<&'static str>)
    ensures
        params_of(final(params)@) == params_of(old(params)@) + param_if(
            name@,
            match value {
                Some(v) => Some(v@),
                None => None,
            },
        ),
{
    match value {
        Some(v) => push_param(params, name, String::from_str(v)),
        None => {},
    }
    proof {
        assert(params_of(params@) =~= params_of(old(params)@) + param_if(
            name@,
            match value {
                Some(v) => Some(v@),
                None => None,
            },
        ));
    }
}

pub fn build_search_query_params(args: &SearchArgs, query: &str) -> (params: Vec<(&'static str, String)>)
    ensures
        params_of(params@) == search_params(*args, query@),
{
    let mut params: Vec<(&'static str, String)> = Vec::new();
    push_param(&mut params, "q", String::from_str(query));
    push_optional(&mut params, "r", &args.region);
    push_static(&mut params, "l", match args.lens { Some(l) => Some(l.as_api_value()), None => None });
    push_static(&mut params, "order", match args.sort { Some(s) => Some(s.as_api_value()), None => None });
    push_static(&mut params, "dr", match args.time { Some(t) => Some(t.as_api_value()), None => None });
    push_optional(&mut params, "from_date", &args.from);
    push_optional(&mut params, "to_date", &args.to);
    push_static(&mut params, "verbatim", if args.verbatim { Some("1") } else { None });
    proof {
        assert(params_of(params@) =~= search_params(*args, query@));
    }
    params
}

/// The query parameters of a maps search: `q`, then `ll`, `bbox` and `z` for
/// the options that are given.
pub open spec fn maps_params(args: MapsArgs, query: Seq<char>) -> Seq<Param> {
    seq![("q"@, query)]
        + param_if("ll"@, opt_text(args.ll))
        + param_if("bbox"@, opt_text(args.bbox))
        + param_if("z"@, opt_text(args.zoom))
}

pub fn build_maps_query_params(args: &MapsArgs, query: &str) -> (params: Vec<(&'static str, String)>)
    ensures
        params_of(params@) == maps_params(*args, query@),
{
    let mut params: Vec<(&'static str, String)> = Vec::new();
    push_param(&mut params, "q", String::from_str(query));
    push_optional(&mut params, "ll", &args.ll);
    push_optional(&mut params, "bbox", &args.bbox);
    push_optional(&mut params, "z", &args.zoom);
    proof {
        assert(params_of(params@) =~= maps_params(*args, query@));
    }
    params
}

/// The query parameters of a summary request: the URL, streaming on, the
/// target language and the summary type.
pub open spec fn summarize_params(args: SummarizeArgs) -> Seq<Param> {
    seq![
        ("url"@, args.url@),
        ("stream"@, "1"@),
        ("target_language"@, args.lang@),
        ("summary_type"@, args.summary_type.api_value()),
    ]
}

pub fn build_summarize_query_params(args: &SummarizeArgs) -> (params: Vec<(&'static str, String)>)
    ensures
        params_of(params@) == summarize_params(*args),
{
    let mut params: Vec<(&'static str, String)> = Vec::new();
    push_param(&mut params, "url", args.url.clone());
    push_param(&mut params, "stream", String::from_str("1"));
    push_param(&mut params, "target_language", args.lang.clone());
    push_param(&mut params, "summary_type", String::from_str(args.summary_type.as_api_value()));
    proof {
        assert(params_of(params@) =~= summarize_params(*args));
    }
    params
}

/// Why an answer from Kagi is not used.
#[derive(Debug, Clone, Copy, PartialEq, Eq, Structural)]
pub enum ResponseError {
    /// The session token was refused.
    InvalidToken,
    /// Too many requests.
    RateLimited,
    /// Any other status outside 200..=299.
    Status(u16),
}

/// What a response status means: 401 and 403 refuse the token, 429 asks to
/// slow down, other statuses outside the 2xx range fail, 2xx is usable.
pub open spec fn status_verdict(status: u16) -> Result<(), ResponseError> {
    if status == 401 || status == 403 {
        Err(ResponseError::InvalidToken)
    } else if status == 429 {
        Err(ResponseError::RateLimited)
    } else if !(200 <= status && status <= 299) {
        Err(ResponseError::Status(status))
    } else {
        Ok(())
    }
}

pub fn check_status(status: u16) -> (verdict: Result<(), ResponseError>)
    ensures
        verdict == status_verdict(status),
{
    if status == 401 || status == 403 {
        Err(ResponseError::InvalidToken)
    } else if status == 429 {
        Err(ResponseError::RateLimited)
    } else if !(200 <= status && status <= 299) {
        Err(ResponseError::Status(status))
    } else {
        Ok(())
    }
}

/// A search answer is only trusted when it still comes from `/html/search`:
/// an invalid or expired session is redirected to a welcome page that
/// answers 200.
pub open spec fn search_response_verdict(final_path: Seq<char>, status: u16) -> Result<(), ResponseError> {
    if final_path != "/html/search"@ {
        Err(ResponseError::InvalidToken)
    } else {
        status_verdict(status)
    }
}

pub fn check_search_response(final_path: &str, status: u16) -> (verdict: Result<(), ResponseError>)
    ensures
        verdict == search_response_verdict(final_path@, status),
{
    if !crate::text::same_text(final_path, "/html/search") {
        return Err(ResponseError::InvalidToken);
    }
    check_status(status)
}

/// The message for a refused response; `status_text` is how the status is
/// written (code and reason).
pub open spec fn response_error_message(error: ResponseError, status_text: Seq<char>) -> Seq<char> {
    match error {
        ResponseError::InvalidToken => "invalid or expired session token"@,
        ResponseError::RateLimited => "rate limited"@,
        ResponseError::Status(_) => "HTTP "@ + status_text,
    }
}

pub fn response_error(error: ResponseError, status_text: &str) -> (e: KagiError)
    ensures
        e@ == response_error_message(error, status_text@),
{
    match error {
        ResponseError::InvalidToken => KagiError::new(String::from_str("invalid or expired session token")),
        ResponseError::RateLimited => KagiError::new(String::from_str("rate limited")),
        ResponseError::Status(_) => {
            let mut message = String::from_str("HTTP ");
            message.append(status_text);
            KagiError::new(message)
        },
    }
}

/// A token given by value: the text without surrounding whitespace, when
/// anything is left.
pub open spec fn token_of(text: Seq<char>) -> Option<Seq<char>> {
    if trimmed(text).len() > 0 {
        Some(trimmed(text))
    } else {
        None
    }
}

/// The session token that a `KAGI_SESSION_TOKEN` value gives; an unset or
/// blank variable gives none, so that the token file is consulted.
pub fn env_session_token(value: Option<String>) -> (token: Option<String>)
    ensures
        opt_text(token) == match value {
            Some(v) => token_of(v@),
            None => None,
        },
{
    match value {
        Some(v) => token_from_text(v.as_str()),
        None => None,
    }
}

/// The session token that the contents of a token file (or a variable) give.
pub fn token_from_text(text: &str) -> (token: Option<String>)
    ensures
        opt_text(token) == token_of(text@),
{
    let t = trim(text);
    if t.as_str().is_empty() {
        None
    } else {
        Some(t)
    }
}

/// A token file may only be read by its owner: none of the group and other
/// permission bits (`0o077`) may be set.
pub open spec fn owner_only(mode: u32) -> bool {
    mode & 0o077 == 0
}

/// Refuses a token file that others may read; `path` is how the file is named
/// in the message.
pub fn check_token_file_mode(path: &str, mode: u32) -> (checked: Result<(), KagiError>)
    ensures
        owner_only(mode) ==> checked is Ok,
        !owner_only(mode) ==> checked is Err && checked->Err_0@ == "session token file "@ + path@
            + " is group/world-readable; run: chmod 600 "@ + path@,
{
    if mode & 0o077 != 0 {
        let mut message = String::from_str("session token file ");
        message.append(path);
        message.append(" is group/world-readable; run: chmod 600 ");
        message.append(path);
        return Err(KagiError::new(message));
    }
    Ok(())
}

/// The message when the body of a response could not be read.
pub open spec fn read_failure_message(error: Seq<char>) -> Seq<char> {
    "Failed to read response: "@ + error
}

/// The error when the body of a response could not be read.
pub fn read_failure(error: &str) -> (e: KagiError)
    ensures
        e@ == read_failure_message(error@),
{
    let mut message = String::from_str("Failed to read response: ");
    message.append(error);
    KagiError::new(message)
}

/// What reading a text body gave, as characters.
pub open spec fn text_result(body: Result<String, String>) -> Result<Seq<char>, Seq<char>> {
    match body {
        Ok(text) => Ok(text@),
        Err(error) => Err(error@),
    }
}

/// What reading a byte body gave, as a sequence.
pub open spec fn bytes_result(body: Result<Vec<u8>, String>) -> Result<Seq<u8>, Seq<char>> {
    match body {
        Ok(bytes) => Ok(bytes@),
        Err(error) => Err(error@),
    }
}

/// The query parameters of a web search: the parameters of
/// `build_search_query_params` for the query that `build_query` writes.
pub fn search_request_params(args: &SearchArgs) -> (params: Vec<(&'static str, String)>)
    ensures
        params_of(params@) == search_params(*args, search_query_text(*args)),
{
    let query = build_query(args);
    build_search_query_params(args, query.as_str())
}

/// What looking up one candidate token file found.
#[derive(Debug)]
pub enum TokenFileProbe {
    /// There is no file at the path.
    Missing,
    /// The file's metadata could not be read; the message of the I/O error.
    Unreadable(String),
    /// The file is there, with its permission bits where the platform has them.
    Found(Option<u32>),
}

/// What to do with a candidate token file once it was looked up.
#[derive(Debug)]
pub enum TokenFileStep {
    /// Go on with the next candidate.
    Next,
    /// Read the file's contents.
    Read,
    /// Stop with this error.
    Fail(KagiError),
}

/// The message when a token file could not be read.
pub open spec fn unreadable_token_message(path: Seq<char>, error: Seq<char>) -> Seq<char> {
    "failed to read session token file "@ + path + ": "@ + error
}

fn unreadable_token_error(path: &str, error: &str) -> (e: KagiError)
    ensures
        e@ == unreadable_token_message(path@, error@),
{
    let mut message = String::from_str("failed to read session token file ");
    message.append(path);
    message.append(": ");
    message.append(error);
    KagiError::new(message)
}

/// The decision on a looked-up candidate: a missing file is skipped, one
/// whose metadata cannot be read stops the search with that error, one that
/// others may read stops it with the mode error, and any other is read.
pub fn token_file_step(path: &str, probe: TokenFileProbe) -> (step: TokenFileStep)
    ensures
        match probe {
            TokenFileProbe::Missing => step is Next,
            TokenFileProbe::Unreadable(error) => step matches TokenFileStep::Fail(e) && e@
                == unreadable_token_message(path@, error@),
            TokenFileProbe::Found(Some(mode)) => if owner_only(mode) {
                step is Read
            } else {
                step matches TokenFileStep::Fail(e) && e@ == "session token file "@ + path@
                    + " is group/world-readable; run: chmod 600 "@ + path@
            },
            TokenFileProbe::Found(None) => step is Read,
        },
{
    match probe {
        TokenFileProbe::Missing => TokenFileStep::Next,
        TokenFileProbe::Unreadable(error) => TokenFileStep::Fail(unreadable_token_error(path, error.as_str())),
        TokenFileProbe::Found(Some(mode)) => match check_token_file_mode(path, mode) {
            Ok(()) => TokenFileStep::Read,
            Err(e) => TokenFileStep::Fail(e),
        },
        TokenFileProbe::Found(None) => TokenFileStep::Read,
    }
}

/// What reading a candidate token file gives: its token, none when the file
/// is blank (the search goes on with the next candidate), or the error when
/// the read failed (`contents` holds the I/O error's message there).
pub fn token_from_contents(path: &str, contents: Result<String, String>) -> (token: Result<Option<String>, KagiError>)
    ensures
        match contents {
            Ok(text) => token matches Ok(t) && opt_text(t) == token_of(text@),
            Err(error) => token matches Err(e) && e@ == unreadable_token_message(path@, error@),
        },
{
    match contents {
        Ok(text) => Ok(token_from_text(text.as_str())),
        Err(error) => Err(unreadable_token_error(path, error.as_str())),
    }
}

/// The error when no session token is found.
pub open spec fn missing_token_message() -> Seq<char> {
    "missing session token; export KAGI_SESSION_TOKEN or store it in ~/.config/kagi/session-token (or $XDG_CONFIG_HOME/kagi/session-token)"@
}

/// The session token from the variable if it gives one, else from the token
/// file if that gives one, else the error that none was found.
pub fn choose_session_token(env_token: Option<String>, file_token: Option<String>) -> (token: Result<String, KagiError>)
    ensures
        match env_token {
            Some(t) => token is Ok && token->Ok_0 == t,
            None => match file_token {
                Some(t) => token is Ok && token->Ok_0 == t,
                None => token is Err && token->Err_0@ == missing_token_message(),
            },
        },
{
    match env_token {
        Some(t) => Ok(t),
        None => match file_token {
            Some(t) => Ok(t),
            None => Err(KagiError::new(String::from_str(
                "missing session token; export KAGI_SESSION_TOKEN or store it in ~/.config/kagi/session-token (or $XDG_CONFIG_HOME/kagi/session-token)",
            ))),
        },
    }
}

/// Where the session token comes from, once the variable was looked at.
#[derive(Debug)]
pub enum TokenLookup {
    /// `KAGI_SESSION_TOKEN` gave this token; no token file is read.
    Found(String),
    /// The variable gave none; the token files are searched.
    ReadTokenFile,
}

/// The first step of finding the session token: a `KAGI_SESSION_TOKEN`
/// value that is not blank is the token, and then no token file is read;
/// otherwise the token files are searched.
pub fn session_token_lookup(env_value: Option<String>) -> (lookup: TokenLookup)
    ensures
        match (match env_value {
            Some(v) => token_of(v@),
            None => None,
        }) {
            Some(t) => lookup matches TokenLookup::Found(found) && found@ == t,
            None => lookup is ReadTokenFile,
        },
{
    match env_session_token(env_value) {
        Some(t) => TokenLookup::Found(t),
        None => TokenLookup::ReadTokenFile,
    }
}

/// The second step, after the token files were searched: the token they
/// gave, the error that none was found, or the error the search stopped with.
pub fn session_token_from_files(found: Result<Option<String>, KagiError>) -> (token: Result<String, KagiError>)
    ensures
        match found {
            Ok(Some(t)) => token is Ok && token->Ok_0 == t,
            Ok(None) => token is Err && token->Err_0@ == missing_token_message(),
            Err(e) => token is Err && token->Err_0 == e,
        },
{
    match found {
        Ok(file_token) => choose_session_token(None, file_token),
        Err(e) => Err(e),
    }
}

/// The configuration directory: `XDG_CONFIG_HOME` when it is set to an
/// absolute path, else `~/.config` (a missing, empty or relative
/// `XDG_CONFIG_HOME` counts as unset).
pub fn select_config_home<P>(xdg_config_home: Option<P>, xdg_is_absolute: bool, home_config: Option<P>) -> (dir: Option<P>)
    ensures
        dir == if xdg_config_home is Some && xdg_is_absolute {
            xdg_config_home
        } else {
            home_config
        },
{
    match xdg_config_home {
        Some(dir) => if xdg_is_absolute {
            Some(dir)
        } else {
            home_config
        },
        None => home_config,
    }
}

/// How many of the optional values are given.
pub open spec fn given(value: Option<Seq<char>>) -> nat {
    if value is Some { 1 } else { 0 }
}

/// Every option of `kagi-maps` reaches the request: the query as `q`, and
/// `--ll`, `--bbox` and `--zoom` as `ll`, `bbox` and `z` with the value the
/// user gave; nothing else is sent.
pub proof fn lemma_maps_options_sent(args: MapsArgs, query: Seq<char>)
    ensures
        maps_params(args, query).contains(("q"@, query)),
        args.ll matches Some(v) ==> maps_params(args, query).contains(("ll"@, v@)),
        args.bbox matches Some(v) ==> maps_params(args, query).contains(("bbox"@, v@)),
        args.zoom matches Some(v) ==> maps_params(args, query).contains(("z"@, v@)),
        maps_params(args, query).len() == 1 + given(opt_text(args.ll)) + given(opt_text(args.bbox))
            + given(opt_text(args.zoom)),
{
    let params = maps_params(args, query);
    let l = given(opt_text(args.ll)) as int;
    let b = given(opt_text(args.bbox)) as int;
    assert(params[0] == ("q"@, query));
    if let Some(v) = args.ll {
        assert(params[1] == ("ll"@, v@));
    }
    if let Some(v) = args.bbox {
        assert(params[1 + l] == ("bbox"@, v@));
    }
    if let Some(v) = args.zoom {
        assert(params[1 + l + b] == ("z"@, v@));
    }
}

/// Every option of `kagi-search` reaches the request: the query as `q`, the
/// region as `r`, the lens, ordering and date range by their codes as `l`,
/// `order` and `dr`, the dates as `from_date` and `to_date`, and `--verbatim`
/// as `verbatim=1`; nothing else is sent.
#[verifier::spinoff_prover]
#[verifier::rlimit(40)]
pub proof fn lemma_search_options_sent(args: SearchArgs, query: Seq<char>)
    ensures
        search_params(args, query).contains(("q"@, query)),
        args.region matches Some(v) ==> search_params(args, query).contains(("r"@, v@)),
        args.lens matches Some(lens) ==> search_params(args, query).contains(("l"@, lens.api_value())),
        args.sort matches Some(sort) ==> search_params(args, query).contains(("order"@, sort.api_value())),
        args.time matches Some(time) ==> search_params(args, query).contains(("dr"@, time.api_value())),
        args.from matches Some(v) ==> search_params(args, query).contains(("from_date"@, v@)),
        args.to matches Some(v) ==> search_params(args, query).contains(("to_date"@, v@)),
        args.verbatim ==> search_params(args, query).contains(("verbatim"@, "1"@)),
        search_params(args, query).len() == 1 + given(opt_text(args.region)) + given(lens_value(args.lens))
            + given(sort_value(args.sort)) + given(time_value(args.time)) + given(opt_text(args.from))
            + given(opt_text(args.to)) + (if args.verbatim { 1nat } else { 0nat }),
{
    let s0 = seq![("q"@, query)];
    let s1 = s0 + param_if("r"@, opt_text(args.region));
    let s2 = s1 + param_if("l"@, lens_value(args.lens));
    let s3 = s2 + param_if("order"@, sort_value(args.sort));
    let s4 = s3 + param_if("dr"@, time_value(args.time));
    let s5 = s4 + param_if("from_date"@, opt_text(args.from));
    let s6 = s5 + param_if("to_date"@, opt_text(args.to));
    let s7 = s6 + param_if("verbatim"@, if args.verbatim { Some("1"@) } else { None });
    assert(s7 == search_params(args, query));
    assert(s0[0] == ("q"@, query));
    lemma_kept(s0, param_if("r"@, opt_text(args.region)), ("q"@, query));
    lemma_kept_all(s1, s2, s3, s4, s5, s6, s7, args, ("q"@, query));
    if let Some(v) = args.region {
        lemma_added(s0, "r"@, v@);
        lemma_kept_all(s1, s2, s3, s4, s5, s6, s7, args, ("r"@, v@));
    }
    if let Some(lens) = args.lens {
        lemma_added(s1, "l"@, lens.api_value());
        lemma_kept_from2(s2, s3, s4, s5, s6, s7, args, ("l"@, lens.api_value()));
    }
    if let Some(sort) = args.sort {
        lemma_added(s2, "order"@, sort.api_value());
        lemma_kept_from3(s3, s4, s5, s6, s7, args, ("order"@, sort.api_value()));
    }
    if let Some(time) = args.time {
        lemma_added(s3, "dr"@, time.api_value());
        lemma_kept_from4(s4, s5, s6, s7, args, ("dr"@, time.api_value()));
    }
    if let Some(v) = args.from {
        lemma_added(s4, "from_date"@, v@);
        lemma_kept(s5, param_if("to_date"@, opt_text(args.to)), ("from_date"@, v@));
        lemma_kept(s6, param_if("verbatim"@, if args.verbatim { Some("1"@) } else { None }), ("from_date"@, v@));
    }
    if let Some(v) = args.to {
        lemma_added(s5, "to_date"@, v@);
        lemma_kept(s6, param_if("verbatim"@, if args.verbatim { Some("1"@) } else { None }), ("to_date"@, v@));
    }
    if args.verbatim {
        lemma_added(s6, "verbatim"@, "1"@);
    }
}

proof fn lemma_kept(s: Seq<Param>, t: Seq<Param>, x: Param)
    requires
        s.contains(x),
    ensures
        (s + t).contains(x),
{
    let i = choose|i: int| 0 <= i < s.len() && s[i] == x;
    assert((s + t)[i] == x);
}

proof fn lemma_added(s: Seq<Param>, name: Seq<char>, value: Seq<char>)
    ensures
        (s + param_if(name, Some(value))).contains((name, value)),
{
    assert((s + param_if(name, Some(value)))[s.len() as int] == (name, value));
}

proof fn lemma_kept_from4(s4: Seq<Param>, s5: Seq<Param>, s6: Seq<Param>, s7: Seq<Param>, args: SearchArgs, x: Param)
    requires
        s4.contains(x),
        s5 == s4 + param_if("from_date"@, opt_text(args.from)),
        s6 == s5 + param_if("to_date"@, opt_text(args.to)),
        s7 == s6 + param_if("verbatim"@, if args.verbatim { Some("1"@) } else { None }),
    ensures
        s7.contains(x),
{
    lemma_kept(s4, param_if("from_date"@, opt_text(args.from)), x);
    lemma_kept(s5, param_if("to_date"@, opt_text(args.to)), x);
    lemma_kept(s6, param_if("verbatim"@, if args.verbatim { Some("1"@) } else { None }), x);
}

proof fn lemma_kept_from3(s3: Seq<Param>, s4: Seq<Param>, s5: Seq<Param>, s6: Seq<Param>, s7: Seq<Param>, args: SearchArgs, x: Param)
    requires
        s3.contains(x),
        s4 == s3 + param_if("dr"@, time_value(args.time)),
        s5 == s4 + param_if("from_date"@, opt_text(args.from)),
        s6 == s5 + param_if("to_date"@, opt_text(args.to)),
        s7 == s6 + param_if("verbatim"@, if args.verbatim { Some("1"@) } else { None }),
    ensures
        s7.contains(x),
{
    lemma_kept(s3, param_if("dr"@, time_value(args.time)), x);
    lemma_kept_from4(s4, s5, s6, s7, args, x);
}

proof fn lemma_kept_from2(
    s2: Seq<Param>,
    s3: Seq<Param>,
    s4: Seq<Param>,
    s5: Seq<Param>,
    s6: Seq<Param>,
    s7: Seq<Param>,
    args: SearchArgs,
    x: Param,
)
    requires
        s2.contains(x),
        s3 == s2 + param_if("order"@, sort_value(args.sort)),
        s4 == s3 + param_if("dr"@, time_value(args.time)),
        s5 == s4 + param_if("from_date"@, opt_text(args.from)),
        s6 == s5 + param_if("to_date"@, opt_text(args.to)),
        s7 == s6 + param_if("verbatim"@, if args.verbatim { Some("1"@) } else { None }),
    ensures
        s7.contains(x),
{
    lemma_kept(s2, param_if("order"@, sort_value(args.sort)), x);
    lemma_kept_from3(s3, s4, s5, s6, s7, args, x);
}

proof fn lemma_kept_all(
    s1: Seq<Param>,
    s2: Seq<Param>,
    s3: Seq<Param>,
    s4: Seq<Param>,
    s5: Seq<Param>,
    s6: Seq<Param>,
    s7: Seq<Param>,
    args: SearchArgs,
    x: Param,
)
    requires
        s1.contains(x),
        s2 == s1 + param_if("l"@, lens_value(args.lens)),
        s3 == s2 + param_if("order"@, sort_value(args.sort)),
        s4 == s3 + param_if("dr"@, time_value(args.time)),
        s5 == s4 + param_if("from_date"@, opt_text(args.from)),
        s6 == s5 + param_if("to_date"@, opt_text(args.to)),
        s7 == s6 + param_if("verbatim"@, if args.verbatim { Some("1"@) } else { None }),
    ensures
        s7.contains(x),
{
    lemma_kept(s1, param_if("l"@, lens_value(args.lens)), x);
    lemma_kept_from2(s2, s3, s4, s5, s6, s7, args, x);
}

/// A summary request sends the URL, asks for a stream, and names the target
/// language and the summary type.
pub proof fn lemma_summarize_options_sent(args: SummarizeArgs)
    ensures
        summarize_params(args).len() == 4,
        summarize_params(args).contains(("url"@, args.url@)),
        summarize_params(args).contains(("stream"@, seq!['1'])),
        summarize_params(args).contains(("target_language"@, args.lang@)),
        summarize_params(args).contains(("summary_type"@, args.summary_type.api_value())),
{
    let params = summarize_params(args);
    reveal_strlit("1");
    assert(params[0] == ("url"@, args.url@));
    assert(params[1] == ("stream"@, seq!['1']));
    assert(params[2] == ("target_language"@, args.lang@));
    assert(params[3] == ("summary_type"@, args.summary_type.api_value()));
}

/// What each status means: 401 and 403 refuse the token, 429 asks to slow
/// down, any status from 200 to 299 is usable, and every other status fails
/// with its own code.
pub proof fn lemma_status_meanings(status: u16)
    ensures
        (status == 401 || status == 403) ==> status_verdict(status) == Err::<(), ResponseError>(ResponseError::InvalidToken),
        status == 429 ==> status_verdict(status) == Err::<(), ResponseError>(ResponseError::RateLimited),
        200 <= status < 300 ==> status_verdict(status) is Ok,
        status_verdict(status) is Ok ==> 200 <= status < 300,
        (status < 200 || status >= 300) && status != 401 && status != 403 && status != 429
            ==> status_verdict(status) == Err::<(), ResponseError>(ResponseError::Status(status)),
{
}

/// A token file passes the mode check exactly when the group and others
/// have no permission at all: the mode is a multiple of 64 up to the owner's
/// bits (the low six bits are zero).
pub proof fn lemma_owner_only_modes(mode: u32)
    ensures
        owner_only(mode) <==> mode % 64 == 0,
{
    assert((mode & 0o077 == 0) <==> (mode % 64 == 0)) by (bit_vector);
}

} // verus!
