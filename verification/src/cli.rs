//! Command-line options of the three tools, as plain values, and the rules
//! that read them.

use vstd::prelude::*;
use vstd::string::StringExecFns;

use crate::text::{chars_of, is_ascii_digit};

verus! {

/// How a tool prints its result.
#[derive(Debug, Clone, Copy, PartialEq, Eq, Structural)]
pub enum OutputFormat {
    Text,
    Json,
}

impl Default for OutputFormat {
    fn default() -> (format: Self)
        ensures
            format == OutputFormat::Text,
    {
        OutputFormat::Text
    }
}

/// A Kagi search lens.
#[derive(Debug, Clone, Copy, PartialEq, Eq, Structural)]
pub enum Lens {
    Default,
    Programming,
    Forums,
    Pdfs,
    NonCommercial,
    WorldNews,
}

impl Lens {
    /// The value of the `l` query parameter for this lens.
    pub open spec fn api_value(self) -> Seq<char> {
        match self {
            Lens::Default => "0"@,
            Lens::Programming => "1"@,
            Lens::Forums => "2"@,
            Lens::Pdfs => "3"@,
            Lens::NonCommercial => "4"@,
            Lens::WorldNews => "5"@,
        }
    }

    pub fn as_api_value(self) -> (value: &'static str)
        ensures
            value@ == self.api_value(),
    {
        match self {
            Lens::Default => "0",
            Lens::Programming => "1",
            Lens::Forums => "2",
            Lens::Pdfs => "3",
            Lens::NonCommercial => "4",
            Lens::WorldNews => "5",
        }
    }
}

/// A result ordering of Kagi search.
#[derive(Debug, Clone, Copy, PartialEq, Eq, Structural)]
pub enum Sort {
    Recency,
    Website,
    AdTrackers,
}

impl Sort {
    /// The value of the `order` query parameter for this ordering.
    pub open spec fn api_value(self) -> Seq<char> {
        match self {
            Sort::Recency => "2"@,
            Sort::Website => "3"@,
            Sort::AdTrackers => "4"@,
        }
    }

    pub fn as_api_value(self) -> (value: &'static str)
        ensures
            value@ == self.api_value(),
    {
        match self {
            Sort::Recency => "2",
            Sort::Website => "3",
            Sort::AdTrackers => "4",
        }
    }
}

/// A date range of Kagi search, counted back from today.
#[derive(Debug, Clone, Copy, PartialEq, Eq, Structural)]
pub enum TimeRange {
    Day,
    Week,
    Month,
    Year,
}

impl TimeRange {
    /// The value of the `dr` query parameter for this range.
    pub open spec fn api_value(self) -> Seq<char> {
        match self {
            TimeRange::Day => "1"@,
            TimeRange::Week => "2"@,
            TimeRange::Month => "3"@,
            TimeRange::Year => "4"@,
        }
    }

    pub fn as_api_value(self) -> (value: &'static str)
        ensures
            value@ == self.api_value(),
    {
        match self {
            TimeRange::Day => "1",
            TimeRange::Week => "2",
            TimeRange::Month => "3",
            TimeRange::Year => "4",
        }
    }
}

/// The kind of summary the summarizer writes.
#[derive(Debug, Clone, Copy, PartialEq, Eq, Structural)]
pub enum SummaryType {
    Summary,
    Takeaway,
}

impl SummaryType {
    /// The value of the `summary_type` query parameter.
    pub open spec fn api_value(self) -> Seq<char> {
        match self {
            SummaryType::Summary => "summary"@,
            SummaryType::Takeaway => "takeaway"@,
        }
    }

    pub fn as_api_value(self) -> (value: &'static str)
        ensures
            value@ == self.api_value(),
    {
        match self {
            SummaryType::Summary => "summary",
            SummaryType::Takeaway => "takeaway",
        }
    }
}

/// The key by which maps results are reordered.
#[derive(Debug, Clone, Copy, PartialEq, Eq, Structural)]
pub enum MapsSort {
    Relevance,
    Rating,
    Distance,
    Price,
}

/// The direction of a maps ordering.
#[derive(Debug, Clone, Copy, PartialEq, Eq, Structural)]
pub enum MapsOrder {
    Asc,
    Desc,
}

/// The direction a maps ordering takes when none is given: best first for
/// relevance and rating, nearest and cheapest first for distance and price.
pub open spec fn default_order_of(sort: MapsSort) -> MapsOrder {
    match sort {
        MapsSort::Relevance | MapsSort::Rating => MapsOrder::Desc,
        MapsSort::Distance | MapsSort::Price => MapsOrder::Asc,
    }
}

pub fn default_maps_order(sort: MapsSort) -> (order: MapsOrder)
    ensures
        order == default_order_of(sort),
{
    match sort {
        MapsSort::Relevance | MapsSort::Rating => MapsOrder::Desc,
        MapsSort::Distance | MapsSort::Price => MapsOrder::Asc,
    }
}

/// The output format after the `--json` shortcut: `--json` wins over `--output`.
pub open spec fn effective_output(json: bool, output: OutputFormat) -> OutputFormat {
    if json {
        OutputFormat::Json
    } else {
        output
    }
}

/// Options of `kagi-search`.
#[derive(Debug, Clone)]
pub struct SearchArgs {
    pub query: Vec<String>,
    pub limit: usize,
    pub region: Option<String>,
    pub lens: Option<Lens>,
    pub sort: Option<Sort>,
    pub time: Option<TimeRange>,
    pub from: Option<String>,
    pub to: Option<String>,
    pub site: Option<String>,
    pub filetype: Option<String>,
    pub verbatim: bool,
    pub output: OutputFormat,
    pub json: bool,
}

impl SearchArgs {
    /// Returns the effective output format after applying shortcut flags.
    pub fn resolved_output(&self) -> (format: OutputFormat)
        ensures
            format == effective_output(self.json, self.output),
            self.json ==> format == OutputFormat::Json,
            !self.json ==> format == self.output,
    {
        if self.json {
            OutputFormat::Json
        } else {
            self.output
        }
    }
}

/// Options of `kagi-summarize`.
#[derive(Debug, Clone)]
pub struct SummarizeArgs {
    pub url: String,
    pub summary_type: SummaryType,
    pub lang: String,
    pub output: OutputFormat,
    pub json: bool,
}

impl SummarizeArgs {
    /// Returns the effective output format after applying shortcut flags.
    pub fn resolved_output(&self) -> (format: OutputFormat)
        ensures
            format == effective_output(self.json, self.output),
            self.json ==> format == OutputFormat::Json,
            !self.json ==> format == self.output,
    {
        if self.json {
            OutputFormat::Json
        } else {
            self.output
        }
    }
}

/// Options of `kagi-maps`. The zoom level is held as the text that is sent
/// as the `z` parameter (the decimal rendering of the number the user gave).
#[derive(Debug, Clone)]
pub struct MapsArgs {
    pub query: Vec<String>,
    pub limit: usize,
    pub ll: Option<String>,
    pub bbox: Option<String>,
    pub zoom: Option<String>,
    pub sort: Option<MapsSort>,
    pub order: Option<MapsOrder>,
    pub output: OutputFormat,
    pub json: bool,
}

impl MapsArgs {
    /// Returns the effective output format after applying shortcut flags.
    pub fn resolved_output(&self) -> (format: OutputFormat)
        ensures
            format == effective_output(self.json, self.output),
            self.json ==> format == OutputFormat::Json,
            !self.json ==> format == self.output,
    {
        if self.json {
            OutputFormat::Json
        } else {
            self.output
        }
    }
}

/// A `YYYY-MM-DD` shaped date: ten characters, `-` at positions 4 and 7 and
/// ASCII digits everywhere else. The calendar is not consulted.
pub open spec fn is_date_shaped(s: Seq<char>) -> bool {
    &&& s.len() == 10
    &&& forall|i: int|
        0 <= i < 10 ==> if i == 4 || i == 7 {
            s[i] == '-'
        } else {
            is_ascii_digit(#[trigger] s[i])
        }
}

/// The message for a `--from` or `--to` value that is not a date.
pub open spec fn invalid_date_message(value: Seq<char>) -> Seq<char> {
    "invalid date '"@ + value + "', expected YYYY-MM-DD"@
}

/// Checks a `--from`/`--to` value: it is handed back when it has the shape
/// `YYYY-MM-DD`, and refused with a message otherwise.
pub fn validate_date(value: &str) -> (r: Result<String, String>)
    ensures
        is_date_shaped(value@) ==> r is Ok && r->Ok_0@ == value@,
        !is_date_shaped(value@) ==> r is Err && r->Err_0@ == invalid_date_message(value@),
{
    let chars = chars_of(value);
    let mut shaped = chars.len() == 10;
    if shaped {
        let mut i: usize = 0;
        while i < 10
            invariant
                chars@ == value@,
                chars.len() == 10,
                i <= 10,
                shaped == (forall|j: int|
                    0 <= j < i ==> if j == 4 || j == 7 {
                        chars@[j] == '-'
                    } else {
                        is_ascii_digit(#[trigger] chars@[j])
                    }),
            decreases 10 - i,
        {
            let c = chars[i];
            let ok = if i == 4 || i == 7 {
                c == '-'
            } else {
                '0' <= c && c <= '9'
            };
            shaped = shaped && ok;
            i = i + 1;
        }
    }
    if shaped {
        Ok(String::from_str(value))
    } else {
        let mut message = String::from_str("invalid date '");
        message.append(value);
        message.append("', expected YYYY-MM-DD");
        proof {
            reveal_strlit("invalid date '");
            reveal_strlit("', expected YYYY-MM-DD");
        }
        Err(message)
    }
}

/// `--json` always gives JSON; without it the `--output` choice is kept,
/// whichever it is.
pub proof fn lemma_output_choice(json: bool, output: OutputFormat)
    ensures
        json ==> effective_output(json, output) == OutputFormat::Json,
        !json ==> effective_output(json, output) == output,
        effective_output(false, OutputFormat::Json) == OutputFormat::Json,
        effective_output(false, OutputFormat::Text) == OutputFormat::Text,
{
}

/// Kagi's lens codes: Default `0`, Programming `1`, Forums `2`, PDFs `3`,
/// Non-commercial `4`, World news `5`.
pub proof fn lemma_lens_codes()
    ensures
        Lens::Default.api_value() == seq!['0'],
        Lens::Programming.api_value() == seq!['1'],
        Lens::Forums.api_value() == seq!['2'],
        Lens::Pdfs.api_value() == seq!['3'],
        Lens::NonCommercial.api_value() == seq!['4'],
        Lens::WorldNews.api_value() == seq!['5'],
{
    reveal_strlit("0");
    reveal_strlit("1");
    reveal_strlit("2");
    reveal_strlit("3");
    reveal_strlit("4");
    reveal_strlit("5");
}

/// Two different lenses never send the same code.
pub proof fn lemma_lens_codes_distinct(a: Lens, b: Lens)
    requires
        a != b,
    ensures
        a.api_value() != b.api_value(),
{
    lemma_lens_codes();
    assert(a.api_value()[0] != b.api_value()[0]);
}

/// Kagi's ordering codes: recency `2`, website `3`, ad trackers `4`.
pub proof fn lemma_sort_codes()
    ensures
        Sort::Recency.api_value() == seq!['2'],
        Sort::Website.api_value() == seq!['3'],
        Sort::AdTrackers.api_value() == seq!['4'],
{
    reveal_strlit("2");
    reveal_strlit("3");
    reveal_strlit("4");
}

/// Kagi's date-range codes: day `1`, week `2`, month `3`, year `4`.
pub proof fn lemma_time_range_codes()
    ensures
        TimeRange::Day.api_value() == seq!['1'],
        TimeRange::Week.api_value() == seq!['2'],
        TimeRange::Month.api_value() == seq!['3'],
        TimeRange::Year.api_value() == seq!['4'],
{
    reveal_strlit("1");
    reveal_strlit("2");
    reveal_strlit("3");
    reveal_strlit("4");
}

/// The summary types are sent by name.
pub proof fn lemma_summary_type_codes()
    ensures
        SummaryType::Summary.api_value() == seq!['s', 'u', 'm', 'm', 'a', 'r', 'y'],
        SummaryType::Takeaway.api_value() == seq!['t', 'a', 'k', 'e', 'a', 'w', 'a', 'y'],
{
    reveal_strlit("summary");
    reveal_strlit("takeaway");
}

/// Relevance and rating list the best first, distance and price the nearest
/// and cheapest first, unless a direction is given.
pub proof fn lemma_default_orders()
    ensures
        default_order_of(MapsSort::Relevance) == MapsOrder::Desc,
        default_order_of(MapsSort::Rating) == MapsOrder::Desc,
        default_order_of(MapsSort::Distance) == MapsOrder::Asc,
        default_order_of(MapsSort::Price) == MapsOrder::Asc,
{
}

/// Every ten-character text with `-` at positions 4 and 7 and an ASCII digit
/// `0`-`9` everywhere else is a date.
pub proof fn lemma_date_shape_accepted(s: Seq<char>)
    requires
        s.len() == 10,
        s[4] == '-',
        s[7] == '-',
        forall|i: int| 0 <= i < 10 && i != 4 && i != 7 ==> is_ascii_digit(#[trigger] s[i]),
    ensures
        is_date_shaped(s),
{
}

/// Any other text is not: a wrong length, a position 4 or 7 other than `-`,
/// or a character other than `0`-`9` elsewhere.
pub proof fn lemma_date_shape_refused(s: Seq<char>)
    requires
        s.len() != 10
            || (s.len() == 10 && (s[4] != '-' || s[7] != '-'))
            || (s.len() == 10 && exists|i: int| 0 <= i < 10 && i != 4 && i != 7 && !is_ascii_digit(#[trigger] s[i])),
    ensures
        !is_date_shaped(s),
{
    if s.len() == 10 && s[4] == '-' && s[7] == '-' {
        let i = choose|i: int| 0 <= i < 10 && i != 4 && i != 7 && !is_ascii_digit(#[trigger] s[i]);
        assert(!is_ascii_digit(s[i]));
    }
}

/// Each of the ten digits is an ASCII digit, so a date may hold any of them.
pub proof fn lemma_every_digit_allowed()
    ensures
        is_ascii_digit('0') && is_ascii_digit('1') && is_ascii_digit('2') && is_ascii_digit('3')
            && is_ascii_digit('4') && is_ascii_digit('5') && is_ascii_digit('6') && is_ascii_digit('7')
            && is_ascii_digit('8') && is_ascii_digit('9'),
        !is_ascii_digit('/') && !is_ascii_digit(':') && !is_ascii_digit('-'),
{
}

} // verus!
