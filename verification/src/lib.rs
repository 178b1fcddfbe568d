//! Codec for the `B000` binary container of mass-spectrometry documents.
//!
//! A container stores a document as a fixed header, two per-item indices,
//! three dictionary-coded metadata blocks and four block-paged numeric
//! containers.  The decoder turns the bytes of a container into a
//! document tree, the encoder writes a document tree as a container, and
//! the modules whose names end in `_laws`, with `round_trip` and `whole`,
//! state what holds between the two.  Every executable function here carries a
//! contract.  The contracts are machine-checked but for six that are
//! believed: the small functions in `codec`, `text` and `items` whose
//! bodies call zstd, miniz_oxide, `String::from_utf8` and `str::trim`.

// Bytes, text and errors.
pub mod error;
pub mod bytes;
pub mod text;
pub mod shuffle;
pub mod codec;
pub mod cursor;

// The document tree.
pub mod params;
pub mod run;
pub mod document;

// Accessions and names.
pub mod accession;
pub mod accession_laws;
pub mod cv_table;

// Reading a container.
pub mod header;
pub mod container;
pub mod reader;
pub mod metadata;
pub mod precursor;
pub mod global;
pub mod decode;

// Rebuilding elements from metadata records.
pub mod metadatum;
pub mod child_index;
pub mod subtree;
pub mod binary_array;
pub mod array_list;
pub mod schema;
pub mod element_lists;
pub mod spectrum_records;
pub mod chromatogram_records;
pub mod decode2;

// The document as a tree of values.
pub mod tree;
pub mod tree_fields;
pub mod tree_of;
pub mod tree_records;
pub mod restore;

// Writing a container.
pub mod packing;
pub mod container_writer;
pub mod container_laws;
pub mod interner;
pub mod meta_writer;
pub mod meta_encode;
pub mod meta_laws;
pub mod header_writer;
pub mod header_laws;
pub mod file_writer;
pub mod file_laws;
pub mod attributes;
pub mod flatten;
pub mod round_trip;
pub mod whole;
pub mod empty_file;

// Looking things up, and what a command line decides.
pub mod query;
pub mod items;
pub mod batch;
pub mod json;
