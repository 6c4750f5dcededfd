pub mod batch;
pub mod chars;
pub mod cli;
pub mod clipboard;
pub mod formatters;
pub mod options;
pub mod syntax;

use vstd::prelude::*;

use crate::formatters::AnyFormatter;
use crate::formatters::ansi::Ansi;
use crate::formatters::ascii::Ascii;
use crate::formatters::markdown::Markdown;
use crate::formatters::pretty::Pretty;
use crate::formatters::utf8::Utf8;
use crate::formatters::xml::Xml;

verus! {

/// The fixed vocabulary of output formats a run can be asked for.
#[derive(Copy, Clone, Debug, PartialEq, Eq, Structural)]
pub enum OutputFormat {
    /// ANSI box drawing characters
    Ansi,
    /// XML format
    Xml,
    /// JSON format
    Json,
    /// Markdown code blocks
    Markdown,
    /// Simple ASCII header
    Ascii,
    /// Fancy UTF-8 box drawing
    Utf8,
    /// Pretty-printed with syntax highlighting
    Pretty,
}

impl OutputFormat {
    /// The aggregate (whole-batch) format buffers every input into one
    /// document; every other format streams one rendering per input.
    pub open spec fn spec_is_aggregate(self) -> bool {
        self is Json
    }

    pub fn is_aggregate(&self) -> (r: bool)
        ensures
            r == self.spec_is_aggregate(),
    {
        match self {
            OutputFormat::Json => true,
            _ => false,
        }
    }

    /// The renderer a resolved format stands for, configured from the
    /// effective settings; the aggregate format has none.
    pub fn into_formatter(
        &self,
        ansi_width: usize,
        utf8_width: usize,
        ln: bool,
        pretty_syntax: Option<&str>,
    ) -> (r: Option<AnyFormatter>)
        ensures
            (match self {
                OutputFormat::Json => r is None,
                OutputFormat::Ansi => r matches Some(AnyFormatter::Ansi(f)) && f.width
                    == ansi_width && f.line_numbers == ln,
                OutputFormat::Xml => r matches Some(AnyFormatter::Xml(f)) && f.line_numbers == ln,
                OutputFormat::Markdown => r matches Some(AnyFormatter::Markdown(f))
                    && f.line_numbers == ln,
                OutputFormat::Ascii => r matches Some(AnyFormatter::Ascii(f)) && f.line_numbers
                    == ln,
                OutputFormat::Utf8 => r matches Some(AnyFormatter::Utf8(f)) && f.width
                    == utf8_width && f.line_numbers == ln,
                OutputFormat::Pretty => r matches Some(AnyFormatter::Pretty(f)) && f.line_numbers
                    == ln && crate::cli::opt_str_view(&f.syntax_override) == (match pretty_syntax {
                    Some(s) => Some(s@),
                    None => None::<Seq<char>>,
                }),
            }),
    {
        match self {
            OutputFormat::Ansi => Some(
                AnyFormatter::Ansi(Ansi { width: ansi_width, line_numbers: ln }),
            ),
            OutputFormat::Xml => Some(AnyFormatter::Xml(Xml { line_numbers: ln })),
            OutputFormat::Markdown => Some(AnyFormatter::Markdown(Markdown { line_numbers: ln })),
            OutputFormat::Ascii => Some(AnyFormatter::Ascii(Ascii { line_numbers: ln })),
            OutputFormat::Utf8 => Some(
                AnyFormatter::Utf8(Utf8 { width: utf8_width, line_numbers: ln }),
            ),
            OutputFormat::Pretty => Some(
                AnyFormatter::Pretty(
                    Pretty {
                        line_numbers: ln,
                        syntax_override: match pretty_syntax {
                            Some(s) => Some(s.to_owned()),
                            None => None,
                        },
                    },
                ),
            ),
            OutputFormat::Json => None,
        }
    }
}

} // verus!
