//! A bounded top-N selection container: it retains the `capacity` best
//! elements of everything pushed into it, under a pluggable total order,
//! and discards the rest.

pub mod laws;
pub mod order;
pub mod selector;

pub use order::Comparator;
pub use order::Natural;
pub use order::Reversed;
pub use selector::NBest;
