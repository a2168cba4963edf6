//! An index of the symbols of a project across its tagged versions.
//!
//! The index is built in four steps, one module each:
//!
//! - [`tags`] chooses the tagged versions and puts them in order;
//! - [`objects`] finds the files of those versions and keeps each distinct
//!   content once, as an object;
//! - [`ctags`] reads the tag table that a generator makes of the objects,
//!   [`enrich`] guesses a descriptive text for each symbol, and [`organize`]
//!   sorts the symbols into one table for each object;
//! - [`diff`] compares the symbols of each version with those of the
//!   version before it.
//!
//! [`query`], [`stream`], [`doublelines`] and [`data`] serve the searches in
//! the finished index. [`text`], [`pattern`], [`natural`] and [`index`] hold
//! what the others share: sequences of characters, regular expressions, the
//! natural order of names, and the search in long lists.
//!
//! Nothing here reads or writes a file: the library is handed bytes and
//! texts, and hands back what is to be written.

pub mod ctags;
pub mod data;
pub mod diff;
pub mod doublelines;
pub mod enrich;
pub mod index;
pub mod natural;
pub mod objects;
pub mod organize;
pub mod pattern;
pub mod query;
pub mod stream;
pub mod tags;
pub mod text;
