pub mod text;
pub mod url_fixer;
pub mod rule_dsl;
pub mod types;
pub mod regex_ops;
pub mod search_url;
pub mod json;
pub mod html;
pub mod js_polyfill;
pub mod http_client;
pub mod preflight;
pub mod tester;
pub mod config;
pub mod campaign;
pub mod reporter;
