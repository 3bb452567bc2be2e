//! Verified core of `hcmd`: the state and the rules behind its two file
//! explorers, the flat `fd` list and the `fuzzy` tree of entries.

pub mod fd;
pub mod fuzzy;
pub mod paths;
pub mod seqs;
pub mod text;
pub mod tree;
