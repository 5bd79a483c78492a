//! A fork-join iteration adapter for the bucket storage of an open-addressing
//! hash table.
//!
//! The table's storage is modelled as a span of slots, each either occupied or
//! empty. Three producer families expose that storage to a work-stealing
//! scheduler: a borrowing producer that yields the addresses of the occupied
//! slots, a consuming producer that takes the storage with it, and a draining
//! producer that takes every element out while the table keeps its buckets for
//! reuse. Each producer can be split recursively into two producers over
//! disjoint halves of its span, and each leaf is folded into a consumer's
//! accumulator until the consumer saturates; whatever a producer still holds
//! when it is dropped is disposed of with it, so no element is ever yielded or
//! destroyed twice.

pub mod buckets;
pub mod fold;
pub mod producer;
pub mod table;

pub use buckets::occupied;
pub use buckets::occupied_indices;
pub use fold::CollectFolder;
pub use fold::Folder;
pub use fold::yielded_count;
pub use producer::ParDrainProducer;
pub use producer::ParIterProducer;
pub use producer::SplitPlan;
pub use table::RawIntoParIter;
pub use table::RawParDrain;
pub use table::RawParIter;
pub use table::RawTable;
