//! Chunked encrypted-reduction pipeline: normalizing raw series into an
//! encryption-compatible domain, splitting paired series into chunks,
//! computing partial encrypted dot products per chunk, aggregating partial
//! results into global sums, and estimating a velocity and arrival time
//! from those sums.

pub mod errors;
pub mod chunking;
pub mod crypto;
pub mod reduce;
pub mod normalize;
pub mod aggregate;
pub mod estimate;
pub mod regress;
pub mod pipeline;

pub use chunking::both;
pub use chunking::chop;
pub use chunking::chunk_size;
pub use chunking::zip_pair;
pub use errors::GudotError;
