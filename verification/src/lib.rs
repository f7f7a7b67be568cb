//! Full-text and fuzzy search over a code graph.

pub mod answers;
pub mod bytes;
pub mod classes;
pub mod corrections;
pub mod distance;
pub mod fuzzy;
pub mod guarantees;
pub mod index;
pub mod like;
pub mod order;
pub mod outcome;
pub mod permutation;
pub mod reading;
pub mod reorder;
pub mod result;
pub mod runs;
pub mod search;
pub mod sql;
pub mod statements;
pub mod suggestions;
pub mod terms;
pub mod text;
pub mod vocabulary;
