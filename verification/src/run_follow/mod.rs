//! Following the dispatch log: the palette it is painted with and the
//! rich dispatch blocks it reads.

pub mod palette;
pub mod block;
pub mod events;
