//! Synchronisation of a local directory tree with a Neocities site: tree
//! snapshots, the deployment plan that reconciles them, and the typed
//! contract of the remote API.

pub mod order;
pub mod text;
pub mod auth;
pub mod error;
pub mod response;
pub mod multipart;
pub mod client;
pub mod params;
pub mod trees;
pub mod extensions;
pub mod fingerprint;
pub mod deploy;
pub mod plan_laws;
pub mod commands;

pub use auth::Auth;
pub use client::{Client, ClientBuilder};
pub use error::{Error, ErrorKind};
