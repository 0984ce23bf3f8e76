//! An in-memory department roster with a line-oriented command interpreter,
//! together with a collection of small verified companion modules: string
//! utilities, a verified lexicographic sort, a pig-latin converter, a
//! guessing game's decisions, and a handful of arithmetic and
//! data-structure exercises.

pub mod backend;
pub mod borrowing;
pub mod coins;
pub mod enums;
pub mod fake_mod;
pub mod fibonacci;
pub mod guessing;
pub mod objects;
pub mod outer;
pub mod pig_latin;
pub mod records;
pub mod rectangles;
pub mod roster;
pub mod slices;
pub mod sorting;
pub mod stats;
pub mod text;
