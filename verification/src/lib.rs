//! Detection and case-preserving toggling of boolean-like tokens
//! (`true`/`false`, `yes`/`no`, `on`/`off`, `1`/`0`), together with the
//! request handling of the language server that offers the toggle as a
//! code action.

pub mod actions;
pub mod case_style;
pub mod documents;
pub mod extension;
pub mod json;
pub mod server;
pub mod text;
pub mod toggle;
pub mod token;
pub mod transport;
