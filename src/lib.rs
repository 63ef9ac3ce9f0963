//! A key-value store that clones share behind one reader-writer lock, and a
//! calculator that sizes the pages of a paged index.

pub mod efficiency;
pub mod layout;
pub mod store;
