pub mod types;
pub mod model;
pub mod proofs;
pub mod orderbook;
pub mod matching_engine;
pub mod depth;
pub mod laws;
pub mod book_laws;
pub mod execution_laws;
