//! Markdown code blocks: a front-matter header, then the text fenced
//! with the path's extension as the language tag.

use vstd::prelude::*;

use crate::chars::{chars_to_string, push_all, push_str_chars, spec_digits, spec_lines,
    split_lines, to_chars};
use crate::formatters::{Formatter, digits_width, push_rows, render_fits, spec_rows};
use crate::options::{path_extension, spec_extension};
use crate::syntax::GrammarRegistry;

verus! {

#[derive(Debug)]
pub struct Markdown {
    pub line_numbers: bool,
}

/// The Markdown document: `---` front matter with the path, a fenced
/// block tagged with the extension, one row per line (numbered with a
/// single-space gutter when asked), closing fence.
pub open spec fn markdown_doc(path: Seq<char>, content: Seq<char>, numbers: bool) -> Seq<char> {
    let lines = spec_lines(content);
    let w: nat = if numbers {
        spec_digits(lines.len()).len()
    } else {
        0
    };
    "---\nFile: "@ + path + "\n---\n"@ + "```"@ + spec_extension(path) + "\n"@ + spec_rows(
        lines,
        lines.len() as int,
        numbers,
        w,
        " "@,
    ) + "```\n"@
}

impl Formatter for Markdown {
    open spec fn spec_render(&self, path: Seq<char>, content: Seq<char>) -> Seq<char> {
        markdown_doc(path, content, self.line_numbers)
    }

    fn render(&self, _registry: &GrammarRegistry, path: &str, content: &str) -> (r: String) {
        let mut out: Vec<char> = Vec::new();
        push_str_chars(&mut out, "---\nFile: ");
        push_str_chars(&mut out, path);
        push_str_chars(&mut out, "\n---\n");
        push_str_chars(&mut out, "```");
        let pc = to_chars(path);
        let ext = path_extension(&pc);
        push_all(&mut out, &ext);
        push_str_chars(&mut out, "\n");
        let cc = to_chars(content);
        let lines = split_lines(&cc);
        let w: usize = if self.line_numbers {
            digits_width(lines.len())
        } else {
            0
        };
        push_rows(&mut out, &lines, self.line_numbers, w, " ");
        push_str_chars(&mut out, "```\n");
        proof {
            assert(out@ =~= markdown_doc(path@, content@, self.line_numbers));
        }
        chars_to_string(&out)
    }
}

} // verus!
