//! Very simple output: `=== path ===` header + raw body.

use vstd::prelude::*;

use crate::chars::{chars_to_string, push_str_chars, spec_digits, spec_lines, split_lines,
    to_chars};
use crate::formatters::{Formatter, digits_width, push_rows, render_fits, spec_rows};
use crate::syntax::GrammarRegistry;

verus! {

#[derive(Debug)]
pub struct Ascii {
    pub line_numbers: bool,
}

/// The ASCII document: header line, then one row per line of the text,
/// numbered with an ` | ` gutter when asked.
pub open spec fn ascii_doc(path: Seq<char>, content: Seq<char>, numbers: bool) -> Seq<char> {
    let lines = spec_lines(content);
    let w: nat = if numbers {
        spec_digits(lines.len()).len()
    } else {
        0
    };
    "=== "@ + path + " ===\n"@ + spec_rows(lines, lines.len() as int, numbers, w, " | "@)
}

impl Formatter for Ascii {
    open spec fn spec_render(&self, path: Seq<char>, content: Seq<char>) -> Seq<char> {
        ascii_doc(path, content, self.line_numbers)
    }

    fn render(&self, _registry: &GrammarRegistry, path: &str, content: &str) -> (r: String) {
        let mut out: Vec<char> = Vec::new();
        push_str_chars(&mut out, "=== ");
        push_str_chars(&mut out, path);
        push_str_chars(&mut out, " ===\n");
        let cc = to_chars(content);
        let lines = split_lines(&cc);
        let w: usize = if self.line_numbers {
            digits_width(lines.len())
        } else {
            0
        };
        push_rows(&mut out, &lines, self.line_numbers, w, " | ");
        proof {
            assert(out@ =~= ascii_doc(path@, content@, self.line_numbers));
        }
        chars_to_string(&out)
    }
}

} // verus!
