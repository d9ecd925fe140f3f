//! The boot pipeline's pure steps: the system prompt's assembly and
//! substitution, the classification of stores, and the merge of the boot
//! domain into the corpus.

pub mod system_prompt;
pub mod classify;
pub mod complete;
pub mod vitals;
