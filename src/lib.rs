//! A bidirectional map: a set of (left, right) pairs in which every left
//! value is paired with exactly one right value and the other way round.
//! Each side is held by a backing map; both maps share the stored values
//! through reference-counted handles instead of copying them.

mod backing;
mod bimap;
mod hash_map;
mod key;
mod shared;

pub use backing::{MapBase, MapExt};
pub use bimap::{
    lemma_remove_symmetry, lemma_round_trip, mirrors, paired, without_other, BiHashMap, BiMap,
};
pub use hash_map::HashMap;
pub use key::MapKey;
pub use shared::Ref;
