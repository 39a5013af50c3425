//! Synchronisation of a tagged catalogue of rally stages from a remote
//! collection API: the pagination state machine, the decoding rules of the
//! responses, the per-record field resolution and the fail-fast assembly of
//! the final stage list. The network itself is driven by the caller.
pub mod error;
pub mod fields;
pub mod pager;
pub mod response;
pub mod selection;
pub mod stages;
pub mod transport;

pub use error::AppError;
pub use fields::{
    field_paths, property_path_of, FieldPaths, MultiSelect, Number, Select, Text, Title,
    TitleResult, NUMBER_FIELD, TAGS_FIELD, TITLE_FIELD,
};
pub use pager::{query_path_of, Pager, PropertyResult, QueryRequest, Response};
pub use response::{decoded, successful_body};
pub use selection::{filtered_stages, is_chosen, toggle_tag, unique_tags};
pub use stages::{collect_stages, combine_fields, make_stage, FieldOutcomes, Stage};
pub use transport::{
    api_base, default_headers, endpoint, query_body, DefaultHeaders, HeaderText, WebUrl, API_BASE,
    API_VERSION,
    API_VERSION_HEADER,
};
