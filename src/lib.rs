// A package repository over a content-addressed tag store: tag paths for
// package identifiers, legacy and per-component storage, per-repository
// caches, publishing, reading, listing, removal and layout upgrades.

pub mod builds;
pub mod cache;
pub mod component;
pub mod components;
pub mod encoding;
pub mod error;
pub mod ident;
pub mod laws;
pub mod listing;
pub mod name;
pub mod publish;
pub mod reads;
pub mod remove;
pub mod repository;
pub mod store;
pub mod stored;
pub mod test_spec;
pub mod upgrade;
pub mod version;
