//! Search, catalogue and interaction logic of the Luna media service.

pub mod entity_type;
pub mod text;
pub mod filter;
pub mod search;
pub mod filter_laws;
pub mod filter_bytes;
pub mod outbox;
pub mod document;
pub mod batch;
pub mod fallback;
pub mod window;
pub mod settings;
pub mod pagination;
pub mod interaction;
pub mod file;
pub mod links;
pub mod sorted;
pub mod sync_events;
pub mod reconcile;
pub mod indexer;
pub mod embedding;
pub mod loader;
pub mod laws;
pub mod affinity;
