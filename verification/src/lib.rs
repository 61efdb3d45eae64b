//! Photo labeler: the data model, naming rules, path rules and request
//! decisions of a small web application that catalogues image files found in
//! registered directories.

pub mod text;
pub mod paths;
pub mod error;
pub mod query;
pub mod db;
pub mod mime;
pub mod state;
pub mod routes;
pub mod backend;
pub mod sqlite_query;
