//! Syntax-highlighted output: the grammar is selected by the four-tier
//! fallback, the highlighting itself is the registry's work.

use vstd::prelude::*;

use crate::chars::{chars_to_string, spec_digits, spec_lines, to_chars, views_of};
use crate::cli::{opt_str_view, str_views};
use crate::formatters::{Formatter, digits_width, push_rows, render_fits, spec_rows};
use crate::syntax::{GrammarRegistry, SyntaxChoice, chosen_grammar, highlighted_lines,
    select_syntax, spec_select};

verus! {

#[derive(Debug)]
pub struct Pretty {
    pub line_numbers: bool,
    pub syntax_override: Option<String>,
}

/// The highlighted document: the escaped lines of the text under the
/// selected grammar, one row per line, numbered with a ` │ ` gutter
/// when asked.
pub open spec fn pretty_doc(
    syntax_override: Option<Seq<char>>,
    path: Seq<char>,
    content: Seq<char>,
    numbers: bool,
) -> Seq<char> {
    let choice = spec_select(syntax_override, path, content);
    let hl = highlighted_lines(chosen_grammar(choice), content);
    let w: nat = if numbers {
        spec_digits(spec_lines(content).len()).len()
    } else {
        0
    };
    spec_rows(hl, hl.len() as int, numbers, w, " │ "@)
}

impl Formatter for Pretty {
    open spec fn spec_render(&self, path: Seq<char>, content: Seq<char>) -> Seq<char> {
        pretty_doc(opt_str_view(&self.syntax_override), path, content, self.line_numbers)
    }

    fn render(&self, registry: &GrammarRegistry, path: &str, content: &str) -> (r: String) {
        let choice = select_syntax(registry, self.syntax_override.as_ref(), path, content);
        let grammar: Option<&String> = match &choice {
            SyntaxChoice::ExplicitOverride(g) => Some(g),
            SyntaxChoice::ModelineDetected(g) => Some(g),
            SyntaxChoice::ExtensionDetected(g) => Some(g),
            SyntaxChoice::PlainText => None,
        };
        proof {
            assert(crate::syntax::opt_ref_view(grammar) == chosen_grammar(choice@));
        }
        let hl = registry.highlight_content(grammar, content);
        let mut hlc: Vec<Vec<char>> = Vec::new();
        let mut i: usize = 0;
        while i < hl.len()
            invariant
                i <= hl@.len(),
                hlc@.len() == i,
                forall|j: int| 0 <= j < i ==> (#[trigger] hlc@[j])@ == hl@[j]@,
            decreases hl@.len() - i,
        {
            let lc = to_chars(hl[i].as_str());
            hlc.push(lc);
            i = i + 1;
        }
        proof {
            assert(views_of(hlc@) =~= str_views(hl@));
        }
        let w: usize = if self.line_numbers {
            digits_width(hl.len())
        } else {
            0
        };
        let mut out: Vec<char> = Vec::new();
        push_rows(&mut out, &hlc, self.line_numbers, w, " │ ");
        proof {
            assert(out@ =~= pretty_doc(
                opt_str_view(&self.syntax_override),
                path@,
                content@,
                self.line_numbers,
            ));
        }
        chars_to_string(&out)
    }
}

} // verus!
