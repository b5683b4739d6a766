//! Logic of a monitoring dashboard for a cache server: the model of an
//! execution plan, the decoding of fetched plan records, the formatting of
//! metric values, and the state behind the dashboard's selections.

pub mod binary64;
pub mod board;
pub mod decode;
pub mod json;
pub mod links;
pub mod metrics;
pub mod models;
pub mod rendering;
pub mod search;
pub mod selection;
pub mod sorting;
pub mod text;
pub mod toast;
pub mod utils;
