//! The two external text-transformation services a render delegates to: a
//! syntax highlighter for code-block text and a free-text formatter for all
//! other text. The renderer invokes them synchronously, trusts their output
//! unconditionally, and appends it verbatim; their failure handling is out of
//! this crate's scope.

use vstd::prelude::*;
use crate::escape::{escape_html, html_escaped};

verus! {

/// A pair of collaborator services. Each exec method must return exactly what
/// its spec function names, so a render's output is a function of the event
/// sequence and of the collaborator alone.
pub trait Collaborators {
    /// What the highlighting service returns for a grammar and a code run.
    spec fn highlight_spec(&self, lang: Seq<u8>, code: Seq<u8>) -> Seq<u8>;

    /// What the formatting service returns for a text run.
    spec fn format_spec(&self, text: Seq<u8>) -> Seq<u8>;

    /// Highlight one contiguous code-block text run as an HTML fragment.
    fn highlight(&self, lang: &Vec<u8>, code: &Vec<u8>) -> (r: Vec<u8>)
        ensures
            r@ == self.highlight_spec(lang@, code@),
    ;

    /// Format one contiguous non-code text run as an HTML fragment.
    fn format_text(&self, text: &Vec<u8>) -> (r: Vec<u8>)
        ensures
            r@ == self.format_spec(text@),
    ;
}

/// The collaborator pair that performs no enrichment: both services return
/// their input plainly HTML-escaped (without the secure flag, so `/` passes
/// through, as in body text).
pub struct PlainCollaborators;

impl Collaborators for PlainCollaborators {
    open spec fn highlight_spec(&self, lang: Seq<u8>, code: Seq<u8>) -> Seq<u8> {
        html_escaped(code, false)
    }

    open spec fn format_spec(&self, text: Seq<u8>) -> Seq<u8> {
        html_escaped(text, false)
    }

    fn highlight(&self, lang: &Vec<u8>, code: &Vec<u8>) -> (r: Vec<u8>) {
        let mut r: Vec<u8> = Vec::new();
        escape_html(&mut r, code, false);
        r
    }

    fn format_text(&self, text: &Vec<u8>) -> (r: Vec<u8>) {
        let mut r: Vec<u8> = Vec::new();
        escape_html(&mut r, text, false);
        r
    }
}

} // verus!
