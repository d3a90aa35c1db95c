//! Verified core of the EasyLanguage (易语言) development service: text
//! project handling, search/replace patching, static project diagnostics,
//! toolchain output decoding and request handling helpers.
pub mod text;
pub mod patch;
pub mod encoding;
pub mod local_files;
pub mod ecode_parser;
pub mod easy_language_sdk;
pub mod analyze;
pub mod jingyi_search;
pub mod jingyi_rank;
pub mod http;
pub mod mcp;
