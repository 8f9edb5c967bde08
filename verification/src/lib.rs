//! The core of a fuzzy finder: scores and their order, sorted merging of scored
//! chunks, chunked caching of item streams, and the bookkeeping of sessions and
//! flows; with the framing of messages to the editor, the pieces of the
//! registry build, items and the sample sources, and the text helpers of the
//! editor's bridges and documentation.

pub mod interface;
pub mod value;
pub mod score;
pub mod sorted;
pub mod chunks;
pub mod cache_chunks;
pub mod flow;
pub mod state;
pub mod relpath;
pub mod transport;
pub mod rpc;
pub mod sessions;
pub mod manifest;
pub mod bundle;
pub mod preprocessor;
pub mod cache_stream;
pub mod bench_cache;
pub mod decimal;
pub mod item;
pub mod test_sources;
pub mod bridge;
pub mod priority;
pub mod encoding;
pub mod doc_block;
pub mod toml_table;
