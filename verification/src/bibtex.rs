//! The BibTeX engine.
//!
//! - [`text`]: characters, runs of characters, numbers, lines and columns.
//! - [`lexer`]: the token scanner.
//! - [`parser`]: the structural parser, from source text to raw entries.
//! - [`fields`]: the typed values of fields and the decoder of raw text.
//! - [`entry`]: entry kinds, the typed entry and its accessors.
//! - [`error`]: the faults.
//! - [`laws`] and [`stripping`]: what holds of the reader as a whole.
//!
//! [`parse`] runs the parser and the decoder on a source text.

pub mod entry;
pub mod error;
pub mod fields;
pub mod laws;
pub mod lexer;
pub mod parser;
pub mod stripping;
pub mod text;

use entry::{typed_entry, BibTeXEntry, EntryView};
use error::{model_of, ErrorView, ParseError};
use parser::{document_at, BibtexParser, RawEntry, RawEntryView};
use vstd::prelude::*;

verus! {

/// The typed entries that raw entries stand for, from position `i` on and in
/// order. The first fault ends the decoding.
pub open spec fn typed_entries(raw: Seq<RawEntryView>, i: int) -> Result<Seq<EntryView>, ErrorView>
    decreases raw.len() - i,
{
    if i < 0 || i >= raw.len() {
        Ok(Seq::empty())
    } else {
        match typed_entry(raw[i]) {
            Err(e) => Err(e),
            Ok(entry) => match typed_entries(raw, i + 1) {
                Err(e) => Err(e),
                Ok(rest) => Ok(seq![entry] + rest),
            },
        }
    }
}

/// What a source text stands for: the structural parser reads all of it,
/// then the decoder types the fields of each entry. A fault of the structure
/// anywhere in the text comes before a fault in the text of a field.
pub open spec fn bibliography(source: Seq<char>) -> Result<Seq<EntryView>, ErrorView> {
    match document_at(source, 0) {
        Err(e) => Err(e),
        Ok(raw) => typed_entries(raw, 0),
    }
}

/// Decodes raw entries into typed ones, in order.
pub fn decode_entries(raw: &Vec<RawEntry>) -> (result: Result<Vec<BibTeXEntry>, ParseError>)
    ensures
        model_of(result) == typed_entries(raw.deep_view(), 0),
        result matches Ok(entries) ==> entries.len() == raw.len(),
{
    let ghost views = raw.deep_view();
    let mut entries: Vec<BibTeXEntry> = Vec::new();
    let n = raw.len();
    let mut i: usize = 0;
    assert(entries.deep_view() =~= Seq::<EntryView>::empty());
    while i < n
        invariant
            i <= n,
            n == raw.len(),
            entries.len() == i,
            views == raw.deep_view(),
            views.len() == n,
            typed_entries(views, 0) == match typed_entries(views, i as int) {
                Ok(rest) => Ok::<Seq<EntryView>, ErrorView>(entries.deep_view() + rest),
                Err(e) => Err(e),
            },
        decreases n - i,
    {
        let ghost before = entries.deep_view();
        assert(views[i as int] == raw[i as int]@);
        match BibTeXEntry::from_raw(&raw[i]) {
            Err(e) => {
                return Err(e);
            },
            Ok(entry) => {
                entries.push(entry);
                proof {
                    assert(entries.deep_view() =~= before + seq![entry@]);
                    match typed_entries(views, i + 1) {
                        Ok(rest) => {
                            assert((before + seq![entry@]) + rest =~= before + (seq![entry@]
                                + rest));
                        },
                        Err(e) => {},
                    }
                }
            },
        }
        i += 1;
    }
    assert(entries.deep_view() + Seq::<EntryView>::empty() =~= entries.deep_view());
    Ok(entries)
}

/// Reads a bibliography: the typed entries of the source text in source
/// order, or the first fault. Nothing is returned beside a fault, and a text
/// without entries is the fault `EmptyBibliography`.
pub fn parse(source: &str) -> (result: Result<Vec<BibTeXEntry>, ParseError>)
    ensures
        model_of(result) == bibliography(source@),
        result matches Ok(entries) ==> entries.len() > 0,
{
    let mut parser = BibtexParser::new(source);
    match parser.parse() {
        Err(e) => Err(e),
        Ok(raw) => decode_entries(&raw),
    }
}

} // verus!
