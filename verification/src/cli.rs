//! The token resolver: splits the invocation tokens into a file list and
//! a partially-filled options record, wherever the flags stand.

use vstd::prelude::*;

use crate::OutputFormat;
use crate::chars::{chars_to_string, parse_usize, push_all, push_str_chars, spec_parse_usize,
    str_eq, to_chars};

verus! {

/// A fatal argument-resolution failure; no input is touched once one is
/// reported.
#[derive(Debug)]
pub enum ResolveError {
    /// A token that starts like a flag but spells none.
    UnknownFlag(String),
    /// A value-taking flag that stands last, with nothing to consume.
    MissingValue(String),
    /// A numeric flag whose value is not a non-negative integer
    /// (flag name without its leading dashes, value as given).
    InvalidNumber(String, String),
    /// A format value outside the fixed vocabulary (flag, value).
    InvalidEnumValue(String, String),
    /// A capability-gated flag used while the capability is off.
    FeatureDisabled(String),
}

/// Mathematical image of a `ResolveError`.
pub enum ErrView {
    UnknownFlag(Seq<char>),
    MissingValue(Seq<char>),
    InvalidNumber(Seq<char>, Seq<char>),
    InvalidEnumValue(Seq<char>, Seq<char>),
    FeatureDisabled(Seq<char>),
}

impl View for ResolveError {
    type V = ErrView;

    open spec fn view(&self) -> ErrView {
        match self {
            ResolveError::UnknownFlag(t) => ErrView::UnknownFlag(t@),
            ResolveError::MissingValue(t) => ErrView::MissingValue(t@),
            ResolveError::InvalidNumber(f, v) => ErrView::InvalidNumber(f@, v@),
            ResolveError::InvalidEnumValue(f, v) => ErrView::InvalidEnumValue(f@, v@),
            ResolveError::FeatureDisabled(t) => ErrView::FeatureDisabled(t@),
        }
    }
}

/// The diagnostic a resolution failure prints on the error stream.
pub open spec fn spec_message(e: ErrView) -> Seq<char> {
    match e {
        ErrView::UnknownFlag(t) => "Unknown flag '"@ + t
            + "'. Use --help to see available options.\nNote: Flags can appear before or after files."@,
        ErrView::MissingValue(t) => "The '"@ + t + "' flag requires a value"@,
        ErrView::InvalidNumber(f, v) => "Invalid value '"@ + v + "' for --"@ + f
            + ", expected a number"@,
        ErrView::InvalidEnumValue(_f, v) => "Invalid format '"@ + v
            + "'. Valid formats are: ansi, xml, json, markdown, ascii, utf8, pretty"@,
        ErrView::FeatureDisabled(t) => "The '"@ + t
            + "' flag requires the 'clipboard' feature to be enabled"@,
    }
}

impl ResolveError {
    /// Render the diagnostic for this failure.
    pub fn message(&self) -> (r: String)
        ensures
            r@ == spec_message(self@),
    {
        let mut out: Vec<char> = Vec::new();
        match self {
            ResolveError::UnknownFlag(t) => {
                push_str_chars(&mut out, "Unknown flag '");
                let tc = to_chars(t.as_str());
                push_all(&mut out, &tc);
                push_str_chars(
                    &mut out,
                    "'. Use --help to see available options.\nNote: Flags can appear before or after files.",
                );
            },
            ResolveError::MissingValue(t) => {
                push_str_chars(&mut out, "The '");
                let tc = to_chars(t.as_str());
                push_all(&mut out, &tc);
                push_str_chars(&mut out, "' flag requires a value");
            },
            ResolveError::InvalidNumber(f, v) => {
                push_str_chars(&mut out, "Invalid value '");
                let vc = to_chars(v.as_str());
                push_all(&mut out, &vc);
                push_str_chars(&mut out, "' for --");
                let fc = to_chars(f.as_str());
                push_all(&mut out, &fc);
                push_str_chars(&mut out, ", expected a number");
            },
            ResolveError::InvalidEnumValue(_f, v) => {
                push_str_chars(&mut out, "Invalid format '");
                let vc = to_chars(v.as_str());
                push_all(&mut out, &vc);
                push_str_chars(
                    &mut out,
                    "'. Valid formats are: ansi, xml, json, markdown, ascii, utf8, pretty",
                );
            },
            ResolveError::FeatureDisabled(t) => {
                push_str_chars(&mut out, "The '");
                let tc = to_chars(t.as_str());
                push_all(&mut out, &tc);
                push_str_chars(&mut out, "' flag requires the 'clipboard' feature to be enabled");
            },
        }
        proof {
            assert(out@ =~= spec_message(self@));
        }
        chars_to_string(&out)
    }
}

/// The invocation record: every setting as the command line left it,
/// plus the positional file list in its original order.
#[derive(Debug)]
pub struct Args {
    pub format: Option<OutputFormat>,
    pub ansi_width: Option<usize>,
    pub utf8_width: Option<usize>,
    pub line_numbers: bool,
    pub null_sep: bool,
    pub strip: Option<usize>,
    pub pretty_syntax: Option<String>,
    pub copy: bool,
    pub clipboard_provider_for_test: Option<String>,
    pub files: Vec<String>,
}

/// Mathematical image of an `Args`.
pub struct ArgsView {
    pub format: Option<OutputFormat>,
    pub ansi_width: Option<usize>,
    pub utf8_width: Option<usize>,
    pub line_numbers: bool,
    pub null_sep: bool,
    pub strip: Option<usize>,
    pub pretty_syntax: Option<Seq<char>>,
    pub copy: bool,
    pub clipboard_provider_for_test: Option<Seq<char>>,
    pub files: Seq<Seq<char>>,
}

pub open spec fn opt_str_view(o: &Option<String>) -> Option<Seq<char>> {
    match o {
        Some(s) => Some(s@),
        None => None,
    }
}

/// The character views of a list of strings.
pub open spec fn str_views(ts: Seq<String>) -> Seq<Seq<char>> {
    ts.map_values(|s: String| s@)
}

impl View for Args {
    type V = ArgsView;

    open spec fn view(&self) -> ArgsView {
        ArgsView {
            format: self.format,
            ansi_width: self.ansi_width,
            utf8_width: self.utf8_width,
            line_numbers: self.line_numbers,
            null_sep: self.null_sep,
            strip: self.strip,
            pretty_syntax: opt_str_view(&self.pretty_syntax),
            copy: self.copy,
            clipboard_provider_for_test: opt_str_view(&self.clipboard_provider_for_test),
            files: str_views(self.files@),
        }
    }
}

/// The record every resolution starts from: nothing set, no files.
pub open spec fn empty_args() -> ArgsView {
    ArgsView {
        format: None,
        ansi_width: None,
        utf8_width: None,
        line_numbers: false,
        null_sep: false,
        strip: None,
        pretty_syntax: None,
        copy: false,
        clipboard_provider_for_test: None,
        files: Seq::empty(),
    }
}

// ---------------------------------------------------------------------
// the flag vocabulary
// ---------------------------------------------------------------------

pub open spec fn is_copy_flag(t: Seq<char>) -> bool {
    t == "-c"@ || t == "--copy"@
}

pub open spec fn is_numbers_flag(t: Seq<char>) -> bool {
    t == "-n"@ || t == "--numbers"@
}

pub open spec fn is_null_flag(t: Seq<char>) -> bool {
    t == "-0"@ || t == "--null"@
}

pub open spec fn is_format_flag(t: Seq<char>) -> bool {
    t == "-f"@ || t == "--format"@
}

/// A token that looks like a flag: it starts with the flag prefix.
pub open spec fn is_flag_like(t: Seq<char>) -> bool {
    t.len() > 0 && t[0] == '-'
}

/// The fixed spelling of each format value.
pub open spec fn spec_format_of(v: Seq<char>) -> Option<OutputFormat> {
    if v == "ansi"@ {
        Some(OutputFormat::Ansi)
    } else if v == "xml"@ {
        Some(OutputFormat::Xml)
    } else if v == "json"@ {
        Some(OutputFormat::Json)
    } else if v == "markdown"@ {
        Some(OutputFormat::Markdown)
    } else if v == "ascii"@ {
        Some(OutputFormat::Ascii)
    } else if v == "utf8"@ {
        Some(OutputFormat::Utf8)
    } else if v == "pretty"@ {
        Some(OutputFormat::Pretty)
    } else {
        None
    }
}

// ---------------------------------------------------------------------
// the resolution function, over the remaining tokens
// ---------------------------------------------------------------------

/// Resolve the remaining tokens `rest` on top of the record `acc`.
/// Later occurrences of a flag overwrite earlier ones; file tokens are
/// appended in order; the first ill-formed token fails the whole run.
pub open spec fn spec_resolve_rest(rest: Seq<Seq<char>>, acc: ArgsView, cap: bool) -> Result<
    ArgsView,
    ErrView,
>
    decreases rest.len(),
{
    if rest.len() == 0 {
        Ok(acc)
    } else {
        let t = rest[0];
        if is_copy_flag(t) {
            if cap {
                spec_resolve_rest(rest.drop_first(), ArgsView { copy: true, ..acc }, cap)
            } else {
                Err(ErrView::FeatureDisabled(t))
            }
        } else if is_numbers_flag(t) {
            spec_resolve_rest(rest.drop_first(), ArgsView { line_numbers: true, ..acc }, cap)
        } else if is_null_flag(t) {
            spec_resolve_rest(rest.drop_first(), ArgsView { null_sep: true, ..acc }, cap)
        } else if is_format_flag(t) {
            if rest.len() < 2 {
                Err(ErrView::MissingValue(t))
            } else {
                match spec_format_of(rest[1]) {
                    Some(f) => spec_resolve_rest(
                        rest.skip(2),
                        ArgsView { format: Some(f), ..acc },
                        cap,
                    ),
                    None => Err(ErrView::InvalidEnumValue(t, rest[1])),
                }
            }
        } else if t == "--strip"@ {
            if rest.len() < 2 {
                Err(ErrView::MissingValue(t))
            } else {
                match spec_parse_usize(rest[1]) {
                    Some(n) => spec_resolve_rest(
                        rest.skip(2),
                        ArgsView { strip: Some(n), ..acc },
                        cap,
                    ),
                    None => Err(ErrView::InvalidNumber("strip"@, rest[1])),
                }
            }
        } else if t == "--ansi-width"@ {
            if rest.len() < 2 {
                Err(ErrView::MissingValue(t))
            } else {
                match spec_parse_usize(rest[1]) {
                    Some(n) => spec_resolve_rest(
                        rest.skip(2),
                        ArgsView { ansi_width: Some(n), ..acc },
                        cap,
                    ),
                    None => Err(ErrView::InvalidNumber("ansi-width"@, rest[1])),
                }
            }
        } else if t == "--utf8-width"@ {
            if rest.len() < 2 {
                Err(ErrView::MissingValue(t))
            } else {
                match spec_parse_usize(rest[1]) {
                    Some(n) => spec_resolve_rest(
                        rest.skip(2),
                        ArgsView { utf8_width: Some(n), ..acc },
                        cap,
                    ),
                    None => Err(ErrView::InvalidNumber("utf8-width"@, rest[1])),
                }
            }
        } else if t == "--pretty-syntax"@ {
            if rest.len() < 2 {
                Err(ErrView::MissingValue(t))
            } else {
                spec_resolve_rest(
                    rest.skip(2),
                    ArgsView { pretty_syntax: Some(rest[1]), ..acc },
                    cap,
                )
            }
        } else if t == "--clipboard-provider-for-test"@ {
            if !cap {
                Err(ErrView::FeatureDisabled(t))
            } else if rest.len() < 2 {
                Err(ErrView::MissingValue(t))
            } else {
                spec_resolve_rest(
                    rest.skip(2),
                    ArgsView { clipboard_provider_for_test: Some(rest[1]), ..acc },
                    cap,
                )
            }
        } else if is_flag_like(t) {
            Err(ErrView::UnknownFlag(t))
        } else {
            spec_resolve_rest(rest.drop_first(), ArgsView { files: acc.files.push(t), ..acc }, cap)
        }
    }
}

/// Resolution of a whole token sequence, from the empty record.
pub open spec fn spec_resolve(toks: Seq<Seq<char>>, cap: bool) -> Result<ArgsView, ErrView> {
    spec_resolve_rest(toks, empty_args(), cap)
}

/// The view of a resolution result.
pub open spec fn res_view(r: Result<Args, ResolveError>) -> Result<ArgsView, ErrView> {
    match r {
        Ok(a) => Ok(a@),
        Err(e) => Err(e@),
    }
}

// ---------------------------------------------------------------------
// executable resolution
// ---------------------------------------------------------------------

// ---------------------------------------------------------------------
// order independence of the file list
// ---------------------------------------------------------------------

/// A unit of a well-formed token stream: one positional file token, or
/// one flag together with the value it consumes.
pub enum TokenUnit {
    FileTok(Seq<char>),
    FlagTok(Seq<Seq<char>>),
}

pub open spec fn unit_toks(u: TokenUnit) -> Seq<Seq<char>> {
    match u {
        TokenUnit::FileTok(t) => seq![t],
        TokenUnit::FlagTok(ts) => ts,
    }
}

pub open spec fn flatten_units(us: Seq<TokenUnit>) -> Seq<Seq<char>>
    decreases us.len(),
{
    if us.len() == 0 {
        Seq::empty()
    } else {
        unit_toks(us[0]) + flatten_units(us.drop_first())
    }
}

/// A well-formed flag unit: a boolean flag on its own, or a value-taking
/// flag with an acceptable value, each gated flag only with the
/// capability on.
pub open spec fn wf_flag_unit(ts: Seq<Seq<char>>, cap: bool) -> bool {
    ||| (ts.len() == 1 && ((is_copy_flag(ts[0]) && cap) || is_numbers_flag(ts[0]) || is_null_flag(
        ts[0],
    )))
    ||| (ts.len() == 2 && ((is_format_flag(ts[0]) && spec_format_of(ts[1]) is Some) || ((ts[0]
        == "--strip"@ || ts[0] == "--ansi-width"@ || ts[0] == "--utf8-width"@) && spec_parse_usize(
        ts[1],
    ) is Some) || ts[0] == "--pretty-syntax"@ || (ts[0] == "--clipboard-provider-for-test"@
        && cap)))
}

pub open spec fn unit_wf(u: TokenUnit, cap: bool) -> bool {
    match u {
        TokenUnit::FileTok(t) => !is_flag_like(t),
        TokenUnit::FlagTok(ts) => wf_flag_unit(ts, cap),
    }
}

pub open spec fn all_wf(us: Seq<TokenUnit>, cap: bool) -> bool
    decreases us.len(),
{
    if us.len() == 0 {
        true
    } else {
        unit_wf(us[0], cap) && all_wf(us.drop_first(), cap)
    }
}

/// The effect of one unit on the record being built.
pub open spec fn apply_unit(acc: ArgsView, u: TokenUnit) -> ArgsView {
    match u {
        TokenUnit::FileTok(t) => ArgsView { files: acc.files.push(t), ..acc },
        TokenUnit::FlagTok(ts) => {
            let t = ts[0];
            if is_copy_flag(t) {
                ArgsView { copy: true, ..acc }
            } else if is_numbers_flag(t) {
                ArgsView { line_numbers: true, ..acc }
            } else if is_null_flag(t) {
                ArgsView { null_sep: true, ..acc }
            } else if is_format_flag(t) {
                ArgsView { format: spec_format_of(ts[1]), ..acc }
            } else if t == "--strip"@ {
                ArgsView { strip: spec_parse_usize(ts[1]), ..acc }
            } else if t == "--ansi-width"@ {
                ArgsView { ansi_width: spec_parse_usize(ts[1]), ..acc }
            } else if t == "--utf8-width"@ {
                ArgsView { utf8_width: spec_parse_usize(ts[1]), ..acc }
            } else if t == "--pretty-syntax"@ {
                ArgsView { pretty_syntax: Some(ts[1]), ..acc }
            } else {
                ArgsView { clipboard_provider_for_test: Some(ts[1]), ..acc }
            }
        },
    }
}

/// The file tokens of a unit list, in order.
pub open spec fn file_tokens(us: Seq<TokenUnit>) -> Seq<Seq<char>>
    decreases us.len(),
{
    if us.len() == 0 {
        Seq::empty()
    } else {
        (match us[0] {
            TokenUnit::FileTok(t) => seq![t],
            TokenUnit::FlagTok(_) => Seq::empty(),
        }) + file_tokens(us.drop_first())
    }
}

/// The file units of a unit list, in order.
pub open spec fn file_units(us: Seq<TokenUnit>) -> Seq<TokenUnit>
    decreases us.len(),
{
    if us.len() == 0 {
        Seq::empty()
    } else {
        (if us[0] is FileTok {
            seq![us[0]]
        } else {
            Seq::empty()
        }) + file_units(us.drop_first())
    }
}

/// The flag units of a unit list, in order.
pub open spec fn flag_units(us: Seq<TokenUnit>) -> Seq<TokenUnit>
    decreases us.len(),
{
    if us.len() == 0 {
        Seq::empty()
    } else {
        (if us[0] is FlagTok {
            seq![us[0]]
        } else {
            Seq::empty()
        }) + flag_units(us.drop_first())
    }
}

proof fn lemma_resolve_unit_step(u: TokenUnit, rest: Seq<Seq<char>>, acc: ArgsView, cap: bool)
    requires
        unit_wf(u, cap),
    ensures
        spec_resolve_rest(unit_toks(u) + rest, acc, cap) == spec_resolve_rest(
            rest,
            apply_unit(acc, u),
            cap,
        ),
{
    reveal_strlit("-c");
    reveal_strlit("--copy");
    reveal_strlit("-n");
    reveal_strlit("--numbers");
    reveal_strlit("-0");
    reveal_strlit("--null");
    reveal_strlit("-f");
    reveal_strlit("--format");
    reveal_strlit("--strip");
    reveal_strlit("--ansi-width");
    reveal_strlit("--utf8-width");
    reveal_strlit("--pretty-syntax");
    reveal_strlit("--clipboard-provider-for-test");
    // concrete lengths and characters, so that the distinct flag
    // spellings can be told apart
    assert("-c"@.len() == 2 && "-c"@[0] == '-' && "-c"@[1] == 'c');
    assert("-n"@.len() == 2 && "-n"@[0] == '-' && "-n"@[1] == 'n');
    assert("-0"@.len() == 2 && "-0"@[0] == '-' && "-0"@[1] == '0');
    assert("-f"@.len() == 2 && "-f"@[0] == '-' && "-f"@[1] == 'f');
    assert("--copy"@.len() == 6 && "--copy"@[0] == '-' && "--copy"@[2] == 'c');
    assert("--null"@.len() == 6 && "--null"@[0] == '-' && "--null"@[2] == 'n');
    assert("--numbers"@.len() == 9 && "--numbers"@[0] == '-');
    assert("--format"@.len() == 8 && "--format"@[0] == '-');
    assert("--strip"@.len() == 7 && "--strip"@[0] == '-');
    assert("--ansi-width"@.len() == 12 && "--ansi-width"@[0] == '-' && "--ansi-width"@[2] == 'a');
    assert("--utf8-width"@.len() == 12 && "--utf8-width"@[0] == '-' && "--utf8-width"@[2] == 'u');
    assert("--pretty-syntax"@.len() == 15 && "--pretty-syntax"@[0] == '-');
    assert("--clipboard-provider-for-test"@.len() == 29 && "--clipboard-provider-for-test"@[0]
        == '-');
    let toks = unit_toks(u) + rest;
    match u {
        TokenUnit::FileTok(t) => {
            assert(toks[0] == t);
            assert(toks.drop_first() =~= rest);
            // a file token spells no flag: every flag spelling starts
            // with the prefix character
            assert(!is_copy_flag(t) && !is_numbers_flag(t) && !is_null_flag(t) && !is_format_flag(
                t,
            ) && t != "--strip"@ && t != "--ansi-width"@ && t != "--utf8-width"@ && t
                != "--pretty-syntax"@ && t != "--clipboard-provider-for-test"@) by {
                if t == "-c"@ || t == "--copy"@ || t == "-n"@ || t == "--numbers"@ || t == "-0"@
                    || t == "--null"@ || t == "-f"@ || t == "--format"@ || t == "--strip"@ || t
                    == "--ansi-width"@ || t == "--utf8-width"@ || t == "--pretty-syntax"@ || t
                    == "--clipboard-provider-for-test"@ {
                    assert(t.len() > 0 && t[0] == '-');
                }
            }
        },
        TokenUnit::FlagTok(ts) => {
            assert(toks[0] == ts[0]);
            let t = ts[0];
            if ts.len() == 1 {
                assert(toks.drop_first() =~= rest);
                if is_copy_flag(t) {
                    assert(apply_unit(acc, u) == (ArgsView { copy: true, ..acc }));
                } else if is_numbers_flag(t) {
                    assert(apply_unit(acc, u) == (ArgsView { line_numbers: true, ..acc }));
                } else {
                    assert(is_null_flag(t));
                    assert(apply_unit(acc, u) == (ArgsView { null_sep: true, ..acc }));
                }
            } else {
                assert(toks[1] == ts[1]);
                assert(toks.len() >= 2);
                assert(toks.skip(2) =~= rest);
                let v = ts[1];
                if is_format_flag(t) {
                    assert(apply_unit(acc, u) == (ArgsView { format: spec_format_of(v), ..acc }));
                    assert(spec_resolve_rest(toks, acc, cap) == spec_resolve_rest(
                        rest,
                        ArgsView { format: spec_format_of(v), ..acc },
                        cap,
                    ));
                } else if t == "--strip"@ {
                    assert(apply_unit(acc, u) == (ArgsView { strip: spec_parse_usize(v), ..acc }));
                    assert(spec_resolve_rest(toks, acc, cap) == spec_resolve_rest(
                        rest,
                        ArgsView { strip: spec_parse_usize(v), ..acc },
                        cap,
                    ));
                } else if t == "--ansi-width"@ {
                    assert(apply_unit(acc, u) == (ArgsView {
                        ansi_width: spec_parse_usize(v),
                        ..acc
                    }));
                    assert(spec_resolve_rest(toks, acc, cap) == spec_resolve_rest(
                        rest,
                        ArgsView { ansi_width: spec_parse_usize(v), ..acc },
                        cap,
                    ));
                } else if t == "--utf8-width"@ {
                    assert(apply_unit(acc, u) == (ArgsView {
                        utf8_width: spec_parse_usize(v),
                        ..acc
                    }));
                    assert(spec_resolve_rest(toks, acc, cap) == spec_resolve_rest(
                        rest,
                        ArgsView { utf8_width: spec_parse_usize(v), ..acc },
                        cap,
                    ));
                } else if t == "--pretty-syntax"@ {
                    assert(apply_unit(acc, u) == (ArgsView { pretty_syntax: Some(v), ..acc }));
                    assert(spec_resolve_rest(toks, acc, cap) == spec_resolve_rest(
                        rest,
                        ArgsView { pretty_syntax: Some(v), ..acc },
                        cap,
                    ));
                } else {
                    assert(t == "--clipboard-provider-for-test"@ && cap);
                    assert(apply_unit(acc, u) == (ArgsView {
                        clipboard_provider_for_test: Some(v),
                        ..acc
                    }));
                    assert(spec_resolve_rest(toks, acc, cap) == spec_resolve_rest(
                        rest,
                        ArgsView { clipboard_provider_for_test: Some(v), ..acc },
                        cap,
                    ));
                }
            }
        },
    }
}

proof fn lemma_units_resolution(us: Seq<TokenUnit>, acc: ArgsView, cap: bool)
    requires
        all_wf(us, cap),
    ensures
        spec_resolve_rest(flatten_units(us), acc, cap) is Ok,
        spec_resolve_rest(flatten_units(us), acc, cap)->Ok_0.files == acc.files + file_tokens(us),
    decreases us.len(),
{
    if us.len() == 0 {
        assert(flatten_units(us) =~= Seq::<Seq<char>>::empty());
        assert(acc.files + file_tokens(us) =~= acc.files);
    } else {
        let u = us[0];
        let rest = us.drop_first();
        lemma_resolve_unit_step(u, flatten_units(rest), acc, cap);
        lemma_units_resolution(rest, apply_unit(acc, u), cap);
        assert(apply_unit(acc, u).files + file_tokens(rest) =~= acc.files + file_tokens(us));
    }
}

proof fn lemma_all_wf_prepend(u: TokenUnit, us: Seq<TokenUnit>, cap: bool)
    ensures
        all_wf(seq![u] + us, cap) == (unit_wf(u, cap) && all_wf(us, cap)),
{
    let s = seq![u] + us;
    assert(s[0] == u);
    assert(s.drop_first() =~= us);
}

proof fn lemma_all_wf_concat(a: Seq<TokenUnit>, b: Seq<TokenUnit>, cap: bool)
    requires
        all_wf(a, cap),
        all_wf(b, cap),
    ensures
        all_wf(a + b, cap),
    decreases a.len(),
{
    if a.len() == 0 {
        assert(a + b =~= b);
    } else {
        lemma_all_wf_concat(a.drop_first(), b, cap);
        assert((a + b)[0] == a[0]);
        assert((a + b).drop_first() =~= a.drop_first() + b);
    }
}

proof fn lemma_partition_wf(us: Seq<TokenUnit>, cap: bool)
    requires
        all_wf(us, cap),
    ensures
        all_wf(file_units(us), cap),
        all_wf(flag_units(us), cap),
        file_tokens(file_units(us)) == file_tokens(us),
        file_tokens(flag_units(us)) == Seq::<Seq<char>>::empty(),
    decreases us.len(),
{
    if us.len() > 0 {
        lemma_partition_wf(us.drop_first(), cap);
        if us[0] is FileTok {
            lemma_all_wf_prepend(us[0], file_units(us.drop_first()), cap);
            let fu = seq![us[0]] + file_units(us.drop_first());
            assert(file_units(us) =~= fu);
            assert(fu[0] == us[0]);
            assert(fu.drop_first() =~= file_units(us.drop_first()));
            assert(file_tokens(file_units(us)) =~= file_tokens(us));
            assert(flag_units(us) =~= flag_units(us.drop_first()));
        } else {
            assert(file_units(us) =~= file_units(us.drop_first()));
            lemma_all_wf_prepend(us[0], flag_units(us.drop_first()), cap);
            let gu = seq![us[0]] + flag_units(us.drop_first());
            assert(flag_units(us) =~= gu);
            assert(gu[0] == us[0]);
            assert(gu.drop_first() =~= flag_units(us.drop_first()));
            assert(file_tokens(flag_units(us)) =~= Seq::<Seq<char>>::empty());
        }
    }
}

proof fn lemma_file_tokens_concat(a: Seq<TokenUnit>, b: Seq<TokenUnit>)
    ensures
        file_tokens(a + b) == file_tokens(a) + file_tokens(b),
        flatten_units(a + b) == flatten_units(a) + flatten_units(b),
    decreases a.len(),
{
    if a.len() == 0 {
        assert(a + b =~= b);
        assert(file_tokens(a + b) =~= file_tokens(a) + file_tokens(b));
        assert(flatten_units(a + b) =~= flatten_units(a) + flatten_units(b));
    } else {
        lemma_file_tokens_concat(a.drop_first(), b);
        assert((a + b)[0] == a[0]);
        assert((a + b).drop_first() =~= a.drop_first() + b);
        assert(file_tokens(a + b) =~= file_tokens(a) + file_tokens(b));
        assert(flatten_units(a + b) =~= flatten_units(a) + flatten_units(b));
    }
}

/// The order-independence law of the resolver: a well-formed stream of
/// file tokens and flag units resolves without error; the resolved file
/// list is exactly the file tokens in their original relative order; and
/// it equals what resolving the same stream with every flag moved before
/// all files, or after all files, yields.
pub proof fn lemma_file_list_order_independent(us: Seq<TokenUnit>, cap: bool)
    requires
        all_wf(us, cap),
    ensures
        spec_resolve(flatten_units(us), cap) is Ok,
        spec_resolve(flatten_units(us), cap)->Ok_0.files == file_tokens(us),
        spec_resolve(
            flatten_units(flag_units(us)) + flatten_units(file_units(us)),
            cap,
        ) is Ok,
        spec_resolve(flatten_units(flag_units(us)) + flatten_units(file_units(us)), cap)->Ok_0
            .files == file_tokens(us),
        spec_resolve(
            flatten_units(file_units(us)) + flatten_units(flag_units(us)),
            cap,
        ) is Ok,
        spec_resolve(flatten_units(file_units(us)) + flatten_units(flag_units(us)), cap)->Ok_0
            .files == file_tokens(us),
{
    lemma_units_resolution(us, empty_args(), cap);
    assert(empty_args().files + file_tokens(us) =~= file_tokens(us));
    lemma_partition_wf(us, cap);
    // flags first
    lemma_all_wf_concat(flag_units(us), file_units(us), cap);
    lemma_file_tokens_concat(flag_units(us), file_units(us));
    lemma_units_resolution(flag_units(us) + file_units(us), empty_args(), cap);
    assert(file_tokens(flag_units(us) + file_units(us)) =~= file_tokens(us));
    assert(empty_args().files + file_tokens(flag_units(us) + file_units(us)) =~= file_tokens(us));
    // files first
    lemma_all_wf_concat(file_units(us), flag_units(us), cap);
    lemma_file_tokens_concat(file_units(us), flag_units(us));
    lemma_units_resolution(file_units(us) + flag_units(us), empty_args(), cap);
    assert(file_tokens(file_units(us) + flag_units(us)) =~= file_tokens(us));
    assert(empty_args().files + file_tokens(file_units(us) + flag_units(us)) =~= file_tokens(us));
}

/// Resolution and merging are functions of the tokens and the settings
/// alone: two runs over one token sequence yield one outcome.
pub proof fn lemma_resolution_deterministic(
    toks: Seq<Seq<char>>,
    cap: bool,
    persisted: crate::options::PersistedView,
    r1: Result<ArgsView, ErrView>,
    r2: Result<ArgsView, ErrView>,
)
    requires
        r1 == spec_resolve(toks, cap),
        r2 == spec_resolve(toks, cap),
    ensures
        r1 == r2,
        r1 is Ok ==> crate::options::spec_merge(r1->Ok_0, persisted) == crate::options::spec_merge(
            r2->Ok_0,
            persisted,
        ),
{
}

/// Parse a format value against the fixed vocabulary.
pub fn parse_format_value(v: &str) -> (r: Option<OutputFormat>)
    ensures
        r == spec_format_of(v@),
{
    if str_eq(v, "ansi") {
        Some(OutputFormat::Ansi)
    } else if str_eq(v, "xml") {
        Some(OutputFormat::Xml)
    } else if str_eq(v, "json") {
        Some(OutputFormat::Json)
    } else if str_eq(v, "markdown") {
        Some(OutputFormat::Markdown)
    } else if str_eq(v, "ascii") {
        Some(OutputFormat::Ascii)
    } else if str_eq(v, "utf8") {
        Some(OutputFormat::Utf8)
    } else if str_eq(v, "pretty") {
        Some(OutputFormat::Pretty)
    } else {
        None
    }
}

impl Args {
    /// An empty invocation record.
    pub fn new() -> (a: Args)
        ensures
            a@ == empty_args(),
    {
        let a = Args {
            format: None,
            ansi_width: None,
            utf8_width: None,
            line_numbers: false,
            null_sep: false,
            strip: None,
            pretty_syntax: None,
            copy: false,
            clipboard_provider_for_test: None,
            files: Vec::new(),
        };
        proof {
            assert(a@.files =~= empty_args().files);
        }
        a
    }

    /// Resolve the tokens that followed the program name, wherever the
    /// flags stand among the files. `clipboard_enabled` is the runtime
    /// capability switch for the two clipboard flags.
    pub fn parse_with_trailing(tokens: &Vec<String>, clipboard_enabled: bool) -> (r: Result<
        Args,
        ResolveError,
    >)
        ensures
            res_view(r) == spec_resolve(str_views(tokens@), clipboard_enabled),
    {
        let ghost toks = str_views(tokens@);
        let mut args = Args::new();
        let mut i: usize = 0;
        proof {
            assert(toks.skip(0) =~= toks);
        }
        while i < tokens.len()
            invariant
                i <= tokens@.len(),
                toks == str_views(tokens@),
                spec_resolve(toks, clipboard_enabled) == spec_resolve_rest(
                    toks.skip(i as int),
                    args@,
                    clipboard_enabled,
                ),
            decreases tokens@.len() - i,
        {
            let ghost rest = toks.skip(i as int);
            proof {
                assert(rest[0] == toks[i as int]);
                assert(rest.drop_first() =~= toks.skip(i as int + 1));
            }
            let t = &tokens[i];
            if str_eq(t.as_str(), "-c") || str_eq(t.as_str(), "--copy") {
                if clipboard_enabled {
                    args.copy = true;
                    i = i + 1;
                } else {
                    return Err(ResolveError::FeatureDisabled(t.clone()));
                }
            } else if str_eq(t.as_str(), "-n") || str_eq(t.as_str(), "--numbers") {
                args.line_numbers = true;
                i = i + 1;
            } else if str_eq(t.as_str(), "-0") || str_eq(t.as_str(), "--null") {
                args.null_sep = true;
                i = i + 1;
            } else if str_eq(t.as_str(), "-f") || str_eq(t.as_str(), "--format") {
                if i + 1 >= tokens.len() {
                    return Err(ResolveError::MissingValue(t.clone()));
                }
                proof {
                    assert(rest[1] == toks[i as int + 1]);
                    assert(rest.skip(2) =~= toks.skip(i as int + 2));
                }
                let v = &tokens[i + 1];
                match parse_format_value(v.as_str()) {
                    Some(f) => {
                        args.format = Some(f);
                        i = i + 2;
                    },
                    None => {
                        return Err(ResolveError::InvalidEnumValue(t.clone(), v.clone()));
                    },
                }
            } else if str_eq(t.as_str(), "--strip") {
                if i + 1 >= tokens.len() {
                    return Err(ResolveError::MissingValue(t.clone()));
                }
                proof {
                    assert(rest[1] == toks[i as int + 1]);
                    assert(rest.skip(2) =~= toks.skip(i as int + 2));
                }
                let v = &tokens[i + 1];
                let vc = to_chars(v.as_str());
                match parse_usize(&vc) {
                    Some(n) => {
                        args.strip = Some(n);
                        i = i + 2;
                    },
                    None => {
                        return Err(ResolveError::InvalidNumber("strip".to_owned(), v.clone()));
                    },
                }
            } else if str_eq(t.as_str(), "--ansi-width") {
                if i + 1 >= tokens.len() {
                    return Err(ResolveError::MissingValue(t.clone()));
                }
                proof {
                    assert(rest[1] == toks[i as int + 1]);
                    assert(rest.skip(2) =~= toks.skip(i as int + 2));
                }
                let v = &tokens[i + 1];
                let vc = to_chars(v.as_str());
                match parse_usize(&vc) {
                    Some(n) => {
                        args.ansi_width = Some(n);
                        i = i + 2;
                    },
                    None => {
                        return Err(
                            ResolveError::InvalidNumber("ansi-width".to_owned(), v.clone()),
                        );
                    },
                }
            } else if str_eq(t.as_str(), "--utf8-width") {
                if i + 1 >= tokens.len() {
                    return Err(ResolveError::MissingValue(t.clone()));
                }
                proof {
                    assert(rest[1] == toks[i as int + 1]);
                    assert(rest.skip(2) =~= toks.skip(i as int + 2));
                }
                let v = &tokens[i + 1];
                let vc = to_chars(v.as_str());
                match parse_usize(&vc) {
                    Some(n) => {
                        args.utf8_width = Some(n);
                        i = i + 2;
                    },
                    None => {
                        return Err(
                            ResolveError::InvalidNumber("utf8-width".to_owned(), v.clone()),
                        );
                    },
                }
            } else if str_eq(t.as_str(), "--pretty-syntax") {
                if i + 1 >= tokens.len() {
                    return Err(ResolveError::MissingValue(t.clone()));
                }
                proof {
                    assert(rest[1] == toks[i as int + 1]);
                    assert(rest.skip(2) =~= toks.skip(i as int + 2));
                }
                let v = &tokens[i + 1];
                args.pretty_syntax = Some(v.clone());
                i = i + 2;
            } else if str_eq(t.as_str(), "--clipboard-provider-for-test") {
                if !clipboard_enabled {
                    return Err(ResolveError::FeatureDisabled(t.clone()));
                }
                if i + 1 >= tokens.len() {
                    return Err(ResolveError::MissingValue(t.clone()));
                }
                proof {
                    assert(rest[1] == toks[i as int + 1]);
                    assert(rest.skip(2) =~= toks.skip(i as int + 2));
                }
                let v = &tokens[i + 1];
                args.clipboard_provider_for_test = Some(v.clone());
                i = i + 2;
            } else {
                let tc = to_chars(t.as_str());
                if tc.len() > 0 && tc[0] == '-' {
                    return Err(ResolveError::UnknownFlag(t.clone()));
                }
                let ghost before = args@;
                args.files.push(t.clone());
                proof {
                    assert(str_views(args.files@) =~= before.files.push(t@));
                }
                i = i + 1;
            }
        }
        proof {
            assert(toks.skip(i as int) =~= Seq::<Seq<char>>::empty());
        }
        Ok(args)
    }
}

} // verus!
