//! Fancy UTF-8 box drawing: the shared box layout, with a trailing
//! space after the path in the header.

use vstd::prelude::*;

use crate::formatters::{Formatter, box_doc, box_render, render_fits};
use crate::syntax::GrammarRegistry;

verus! {

#[derive(Debug)]
pub struct Utf8 {
    pub width: usize,
    pub line_numbers: bool,
}

impl Formatter for Utf8 {
    open spec fn spec_render(&self, path: Seq<char>, content: Seq<char>) -> Seq<char> {
        box_doc(path, content, self.line_numbers, self.width as nat, true)
    }

    fn render(&self, _registry: &GrammarRegistry, path: &str, content: &str) -> (r: String) {
        box_render(path, content, self.line_numbers, self.width, true)
    }
}

} // verus!
