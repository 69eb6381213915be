//! RustPress: a small WordPress-compatible core (routing, auth cookies,
//! nonces, options, cron, REST and XML-RPC dispatch) with its behaviour
//! stated and proved in Verus.

pub mod text;
pub mod crypto;
pub mod clock;
pub mod config;
pub mod http;
pub mod db;
pub mod front;
pub mod auth;
pub mod password;
pub mod session;
pub mod nonce;
pub mod cron;
pub mod admin;
pub mod rest;
pub mod site;
pub mod wp;
pub mod hooks;
pub mod cache;
