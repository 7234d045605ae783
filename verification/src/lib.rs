//! A bipartite circular buffer ("bip buffer"): a fixed-capacity byte buffer
//! that always exposes its committed data as at most two contiguous regions,
//! so producers and consumers work on contiguous runs instead of handling
//! wraparound byte by byte.
//!
//! The buffer tracks four block descriptors over one backing region:
//! `block_a` (primary committed region, read first), `block_b` (secondary
//! committed region used once data wraps to the front), and one outstanding
//! write and read reservation each. [`model`] holds the mathematical model of
//! that state and the transitions every operation follows; [`bip_buffer`]
//! holds the executable buffer; [`laws`] states and proves the global
//! properties (byte accounting, round trips, wraparound rotation, block
//! disjointness).

pub mod bip_buffer;
pub mod laws;
pub mod model;
