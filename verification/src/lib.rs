pub mod aggregate;
pub mod decimal;
pub mod error;
pub mod gender;
pub mod index;
pub mod known;
pub mod namedata;
pub mod normalize;
pub mod parser;
pub mod query;
pub mod request;
pub mod store;

pub use aggregate::{aggregate, NameStats, Ratio, YearStats};
pub use error::{ParseError, RequestError};
pub use gender::{Gender, GenderedData, NameData, YearMeta};
pub use index::{NameRecord, YearIndex};
pub use known::{compute_known_names, normalize_years, KnownNamesCache};
pub use namedata::{
    known_names_query, name_data_from_rows, year_meta_from_rows, NameDataMap, NameRow,
};
pub use normalize::normalize_name;
pub use parser::{parse_line, parse_records};
pub use query::{query_loaded, QueryAnswer};
pub use request::{admit_request, NameRequest, MAX_REQUEST_YEARS};
pub use store::NameStore;
