pub mod chunker;
pub mod ingest;
pub mod retrieve;
pub mod structure;
