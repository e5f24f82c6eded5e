//! Verified client logic for a campus captive-portal access-control system.
//!
//! The portal speaks plain HTML: the caller's registered IP is scraped from a
//! status page, and login/logout are form submissions whose outcome is decided
//! by fixed German-language marker phrases in the response body. Everything
//! that decides something — substring search, IPv4 parsing and formatting,
//! response classification, form construction — lives here with a contract;
//! the HTTP transport and command line stay outside the library.

pub mod ipv4;
pub mod portal;
pub mod scan;
