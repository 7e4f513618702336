//! Verified core of the Jan web UI server: session authentication, the
//! remote-attach picker, provider configuration and request planning.

pub mod attach;
pub mod attach_store;
pub mod auth;
pub mod codec;
pub mod crypto;
pub mod dispatch;
pub mod json;
pub mod keyed;
pub mod models;
pub mod paths;
pub mod providers;
pub mod proxy;
pub mod server;
pub mod settings;
pub mod text;
