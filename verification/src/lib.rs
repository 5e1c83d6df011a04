//! Local persistence and sharing of KV-cache slots for LLM serving.
pub mod budget;
pub mod calls;
pub mod changes;
pub mod cli;
pub mod clock;
pub mod conformance;
pub mod in_memory;
pub mod indexed;
pub mod json;
pub mod llama_laws;
pub mod llama_server;
pub mod manifest;
pub mod manifest_laws;
pub mod name_laws;
pub mod order;
pub mod report_laws;
pub mod slot_name;
pub mod step_laws;
pub mod steps;
pub mod store;
pub mod store_laws;
pub mod sweep;
pub mod table_laws;
pub mod text;
pub mod text_laws;
pub mod types;
pub mod wire_laws;

pub use crate::in_memory::InMemoryKvCacheStore;
pub use crate::indexed::IndexedSlotStore;
pub use crate::llama_server::LlamaServerSlotStore;
pub use crate::store::KvCacheStore;
pub use crate::types::{CacheHandle, CacheKey, CacheMeta, EvictionReport, KvCacheError};
