//! A downloader library: the decisions and text formats of a wget-style
//! HTTP client, each with a contract checked by Verus.

pub mod response_handler;
pub mod auth_handler;
pub mod text;
pub mod config;
pub mod error;
pub mod netrc;
pub mod robots;
pub mod cookies;
pub mod urls;
pub mod progress;
pub mod output;
pub mod paths;
pub mod recursive;
pub mod html;
pub mod link_converter;
pub mod chunks;
pub mod transfer;
pub mod timestamping;
pub mod cli;
pub mod messages;

pub use config::{
    apply_filename_restrictions, AuthConfig, AuthType, FilenameRestriction, HttpMethod, ProxyConfig,
};
pub use cookies::{Cookie, CookieJar};
pub use error::Error;
pub use link_converter::LinkConverter;
pub use netrc::{Netrc, NetrcEntry};
pub use progress::{format_bytes, format_duration};
pub use output::Output;
pub use recursive::RecursiveConfig;
