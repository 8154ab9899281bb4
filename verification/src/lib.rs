//! Library core of the Enthropic toolkit.
pub mod text;
pub mod parser;
pub mod validator;
pub mod state;
pub mod store;
pub mod vault;
pub mod global_config;
pub mod context;
pub mod project;
pub mod mcp;
pub mod wizard;
pub mod readback;
