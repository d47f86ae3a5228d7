//! A verified core for a URL-shortening service: a store that maps short,
//! URL-safe identifiers to target URLs, together with the identifier
//! generator that feeds it.

pub mod idgen;
pub mod store;
