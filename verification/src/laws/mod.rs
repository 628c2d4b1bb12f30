//! What holds of the library as a whole.

pub mod agreement;
pub mod answers;
pub mod blocks;
pub mod clients;
pub mod conduct;
pub mod consensus;
pub mod deeds;
pub mod frames;
pub mod invariants;
pub mod keys;
pub mod nodes;
pub mod numbers;
pub mod reads;
pub mod refusals;
pub mod root;
pub mod tokens;
pub mod trust;
pub mod verdicts;
