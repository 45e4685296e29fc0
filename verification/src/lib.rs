//! Preparation of training data for a small sum-approximating network.
//!
//! The library parses the byte content of a CSV file with three columns
//! (left operand, right operand, expected result) into records, and splits
//! the records into a training set and a held-out test set according to a
//! sequence of per-record flags. Reading the file, drawing the random
//! flags, turning the textual fields into numbers and running the network
//! itself are left to the surrounding program.

pub mod dataset;
pub mod table;
