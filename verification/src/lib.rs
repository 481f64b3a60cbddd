//! A JSON-over-SQL client: collections and links are declared at run time,
//! requests arrive as JSON values and become SQL statements, rows come back
//! as JSON values.
#![allow(unused_imports)]

pub mod text;
pub mod sub_arc;
pub mod clear_double_space;
pub mod utils_some_is_err;
pub mod json;
pub mod names;
pub mod sql;
pub mod schema;
pub mod registry;
pub mod values;
pub mod filters;
pub mod query;
pub mod statements;
pub mod data;
pub mod session;
pub mod insert;
pub mod fetch;
pub mod update;
pub mod delete;
pub mod fetch_many;
pub mod request;

pub mod client;
pub mod partial_serde;
pub mod json_client_v1;
pub mod json_client_channel;
pub mod json_value_cmp;
pub mod json_text;
pub mod json_roundtrip;
