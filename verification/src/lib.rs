//! Verified core of the Kagi command-line tools: the options, the requests
//! and response checks, the readers of the search page and of the summarizer
//! stream, the ordering of maps results and the plain-text output.

pub mod cli;
pub mod error;
pub mod html;
pub mod json;
pub mod maps;
pub mod output;
pub mod request;
pub mod search;
pub mod summary;
pub mod text;

pub use cli::{
    Lens, MapsArgs, MapsOrder, MapsSort, OutputFormat, SearchArgs, Sort, SummarizeArgs,
    SummaryType, TimeRange,
};
pub use error::KagiError;
pub use output::sanitize;
pub use search::{parse_search_results, SearchOutput, SearchResult};
pub use summary::{parse_summary_stream, SummarizeOutput};
