//! Toroidal Life-like cellular automata: rule tables, neighborhood
//! addressing, an incremental update engine and a plaintext pattern loader.

pub mod bits;
pub mod codec;
pub mod conway;
pub mod engine;
pub mod neighborhood;
pub mod pattern;
pub mod rule;
pub mod viewer;

pub use bits::Bits;
pub use codec::{CodecError, MooreNeighborhood};
pub use conway::ConwaysLife;
pub use engine::{compute_changes, simulate_step, update_generation, Automata, CellRule};
pub use neighborhood::moore_neighborhood_wrapping;
pub use pattern::{Pattern, PatternError};
pub use rule::{decode_index, encode_index, LifeLike, RuleError};
