//! A catalog of documents.
//!
//! The library turns the text taken out of a document into a record (the
//! title of the document, its date, its cleaned text, an identifier and a
//! link) and keeps the records in a catalog that never holds a title twice.
//!
//! - [`normalizer`] cleans the text, line by line.
//! - [`title`] finds the title: the first line with one of the markers.
//! - [`date`] finds the date, written with the name of the month or in
//!   numbers, and [`calendar`] turns it into a timestamp.
//! - [`digest`] makes the identifier of a title and [`link`] the link of a
//!   file name.
//! - [`builder`] puts a record together and tells duplicates apart.
//! - [`catalog`] is the store of the records.
//! - [`intake`] decides what becomes of one file of a run.
//!
//! [`text`] and [`pattern`] hold what the others share: characters and
//! lines, and the search with a regular expression.
//!
//! Reading directories and files, running the program that takes the text
//! out of a document, and writing the catalog are left to the caller.
pub mod builder;
pub mod calendar;
pub mod catalog;
pub mod date;
pub mod digest;
pub mod intake;
pub mod link;
pub mod normalizer;
pub mod pattern;
pub mod record;
pub mod text;
pub mod title;
