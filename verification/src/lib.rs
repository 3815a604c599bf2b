//! Routing, authentication and token logic of a proxy that forwards WebSocket connections to TCP
//! and UDP upstreams.
#![allow(unused_imports)]

pub mod address_laws;
pub mod args;
pub mod auth;
pub mod auth_laws;
pub mod bigendian;
pub mod client_addr;
pub mod client_laws;
pub mod clock;
pub mod codec;
pub mod crypto;
pub mod http;
pub mod http_laws;
pub mod http_probe;
pub mod ip;
pub mod ip_laws;
pub mod listener;
pub mod logging;
pub mod login_laws;
pub mod options_laws;
pub mod proxy;
pub mod serving_laws;
pub mod table;
pub mod target;
pub mod target_laws;
pub mod text;
pub mod text_laws;
pub mod tls;
pub mod token;
pub mod token_api;
pub mod token_laws;
pub mod view_laws;
