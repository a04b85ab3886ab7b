//! A BibTeX reader: source text goes in, typed bibliography entries come out.
//!
//! Every function in this crate is verified against the grammar and the
//! decoding rules stated as spec functions in [`bibtex`].

pub mod bibtex;
