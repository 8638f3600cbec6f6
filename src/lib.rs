//! Attaches site icons to the links of an exported bookmark document, with a
//! persistent icon cache that remembers both fetched icons and failed fetches.
pub mod cache;
pub mod links;
pub mod domain;
pub mod fetch;
pub mod config;
pub mod json;
pub mod transfer;
pub mod pipeline;
pub mod locale;
pub mod naming;
pub mod ftl;
