//! Collects the chunks that a PDF document is made of, and writes them out in
//! an orderly manner.

pub mod attempt;
pub mod body;
pub mod catalog;
pub mod completion;
pub mod configure;
pub mod container;
pub mod deferred;
pub mod description;
pub mod destinations;
pub mod embedded_files;
pub mod embedded_pdf;
pub mod error;
pub mod finish;
pub mod identity;
pub mod laws;
pub mod laws_calls;
pub mod laws_catalog;
pub mod laws_embedded;
pub mod laws_files;
pub mod laws_names;
pub mod laws_visits;
pub mod metadata;
pub mod model;
pub mod names;
pub mod numbering;
pub mod outside;
pub mod parts;
pub mod reference;
pub mod serialize;
pub mod visit;
pub mod writing;
