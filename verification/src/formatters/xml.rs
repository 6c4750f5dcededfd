//! XML output: one `<file>` element, with one `<line>` element per line
//! when numbering is on.

use vstd::prelude::*;

use crate::chars::{chars_to_string, push_all, push_str_chars, push_usize, spec_digits,
    spec_lines, split_lines, to_chars, views_of};
use crate::formatters::{Formatter, render_fits};
use crate::syntax::GrammarRegistry;

verus! {

#[derive(Debug)]
pub struct Xml {
    pub line_numbers: bool,
}

/// The XML escape of one character.
pub open spec fn xml_esc_char(c: char) -> Seq<char> {
    if c == '&' {
        "&amp;"@
    } else if c == '<' {
        "&lt;"@
    } else if c == '>' {
        "&gt;"@
    } else if c == '"' {
        "&quot;"@
    } else if c == '\'' {
        "&apos;"@
    } else {
        seq![c]
    }
}

/// The XML escape of a text, character by character.
pub open spec fn xml_esc(s: Seq<char>) -> Seq<char>
    decreases s.len(),
{
    if s.len() == 0 {
        Seq::empty()
    } else {
        xml_esc(s.drop_last()) + xml_esc_char(s.last())
    }
}

/// The first `k` `<line>` elements.
pub open spec fn xml_rows(lines: Seq<Seq<char>>, k: int) -> Seq<char>
    decreases k,
{
    if k <= 0 {
        Seq::empty()
    } else {
        xml_rows(lines, k - 1) + "  <line no=\""@ + spec_digits(k as nat) + "\">"@ + xml_esc(
            lines[k - 1],
        ) + "</line>\n"@
    }
}

/// The XML document; the path is emitted as it stands, the content is
/// escaped.
pub open spec fn xml_doc(path: Seq<char>, content: Seq<char>, numbers: bool) -> Seq<char> {
    if numbers {
        "<file path=\""@ + path + "\">\n"@ + xml_rows(
            spec_lines(content),
            spec_lines(content).len() as int,
        ) + "</file>\n"@
    } else {
        "<file path=\""@ + path + "\">"@ + xml_esc(content) + "</file>\n"@
    }
}

/// Append the XML escape of `s` to `out`.
pub fn push_esc(out: &mut Vec<char>, s: &Vec<char>)
    ensures
        final(out)@ == old(out)@ + xml_esc(s@),
{
    let mut i: usize = 0;
    proof {
        assert(out@ =~= old(out)@ + xml_esc(s@.take(0)));
    }
    while i < s.len()
        invariant
            i <= s@.len(),
            out@ == old(out)@ + xml_esc(s@.take(i as int)),
        decreases s@.len() - i,
    {
        let c = s[i];
        if c == '&' {
            push_str_chars(out, "&amp;");
        } else if c == '<' {
            push_str_chars(out, "&lt;");
        } else if c == '>' {
            push_str_chars(out, "&gt;");
        } else if c == '"' {
            push_str_chars(out, "&quot;");
        } else if c == '\'' {
            push_str_chars(out, "&apos;");
        } else {
            out.push(c);
        }
        i = i + 1;
        proof {
            assert(s@.take(i as int).drop_last() =~= s@.take(i as int - 1));
            assert(out@ =~= old(out)@ + xml_esc(s@.take(i as int)));
        }
    }
    proof {
        assert(s@.take(i as int) =~= s@);
    }
}

impl Formatter for Xml {
    open spec fn spec_render(&self, path: Seq<char>, content: Seq<char>) -> Seq<char> {
        xml_doc(path, content, self.line_numbers)
    }

    fn render(&self, _registry: &GrammarRegistry, path: &str, content: &str) -> (r: String) {
        let mut out: Vec<char> = Vec::new();
        let cc = to_chars(content);
        if self.line_numbers {
            push_str_chars(&mut out, "<file path=\"");
            push_str_chars(&mut out, path);
            push_str_chars(&mut out, "\">\n");
            let lines = split_lines(&cc);
            let ghost lv = spec_lines(content@);
            let ghost pre = out@;
            let mut i: usize = 0;
            while i < lines.len()
                invariant
                    i <= lines@.len(),
                    views_of(lines@) == lv,
                    out@ == pre + xml_rows(lv, i as int),
                decreases lines@.len() - i,
            {
                proof {
                    assert(lv[i as int] == lines@[i as int]@);
                }
                push_str_chars(&mut out, "  <line no=\"");
                push_usize(&mut out, i + 1);
                push_str_chars(&mut out, "\">");
                push_esc(&mut out, &lines[i]);
                push_str_chars(&mut out, "</line>\n");
                i = i + 1;
                proof {
                    assert(out@ =~= pre + xml_rows(lv, i as int));
                }
            }
            push_str_chars(&mut out, "</file>\n");
        } else {
            push_str_chars(&mut out, "<file path=\"");
            push_str_chars(&mut out, path);
            push_str_chars(&mut out, "\">");
            push_esc(&mut out, &cc);
            push_str_chars(&mut out, "</file>\n");
        }
        proof {
            assert(out@ =~= xml_doc(path@, content@, self.line_numbers));
        }
        chars_to_string(&out)
    }
}

} // verus!
