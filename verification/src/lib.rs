//! Client side of Oblivious HTTP: building the inner request, resolving the
//! gateway's key configuration, and preparing the encapsulated exchange.

pub mod client;
pub mod convert;
pub mod error;
pub mod hex;
pub mod keys;
pub mod kms;
pub mod multipart;
pub mod request_text;
pub mod text;

pub use client::{Exchange, OhttpClient, OhttpClientBuilder};
pub use error::ClientError;
pub use hex::HexArg;
