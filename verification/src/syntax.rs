//! Grammar selection for the highlighted output mode: explicit override,
//! then an editor modeline, then the path extension, then plain text.

use vstd::prelude::*;

use crate::chars::{spec_lines, split_lines, to_chars};
use crate::cli::str_views;
use crate::options::{path_extension, spec_extension};

verus! {

// ---------------------------------------------------------------------
// the outside registries
// ---------------------------------------------------------------------

#[verifier::external_type_specification]
#[verifier::external_body]
pub struct ExSyntaxSet(syntect::parsing::SyntaxSet);

#[verifier::external_type_specification]
#[verifier::external_body]
pub struct ExThemeSet(syntect::highlighting::ThemeSet);

/// The process-wide grammar and theme registries: loaded once, read-only
/// afterwards, passed by shared reference into selection and rendering.
pub struct GrammarRegistry {
    syntaxes: syntect::parsing::SyntaxSet,
    themes: syntect::highlighting::ThemeSet,
}

/// What looking a token up in the default grammar registry yields: the
/// canonical name of the grammar, when one is recognized. The default
/// registry is data embedded in the highlighting crate, so the answer is
/// a function of the token alone.
pub uninterp spec fn token_lookup(token: Seq<char>) -> Option<Seq<char>>;

/// What looking a path extension up in the default grammar registry
/// yields; a function of the extension alone, as `token_lookup` is.
pub uninterp spec fn extension_lookup(ext: Seq<char>) -> Option<Seq<char>>;

/// What highlighting a text under a grammar (plain text when absent)
/// with the built-in default theme yields: one escaped rendering per
/// input line.
pub uninterp spec fn highlighted_lines(grammar: Option<Seq<char>>, content: Seq<char>) -> Seq<
    Seq<char>,
>;

/// Relies on `SyntaxSet::load_defaults_newlines`: the grammar registry
/// embedded in the highlighting crate.
#[verifier::external_body]
fn load_default_syntaxes() -> syntect::parsing::SyntaxSet {
    syntect::parsing::SyntaxSet::load_defaults_newlines()
}

/// Relies on `ThemeSet::load_defaults`: the theme registry embedded in
/// the highlighting crate.
#[verifier::external_body]
fn load_default_themes() -> syntect::highlighting::ThemeSet {
    syntect::highlighting::ThemeSet::load_defaults()
}

pub open spec fn opt_ref_view(o: Option<&String>) -> Option<Seq<char>> {
    match o {
        Some(s) => Some(s@),
        None => None,
    }
}

impl GrammarRegistry {
    /// Load the default grammar and theme registries.
    pub fn new() -> GrammarRegistry {
        GrammarRegistry { syntaxes: load_default_syntaxes(), themes: load_default_themes() }
    }

    /// Relies on `SyntaxSet::find_syntax_by_token` on the default newline
    /// registry: a lookup first by extension, then by case-insensitive
    /// name, in fixed embedded data; the wrapper hands back the matched
    /// grammar's canonical name.
    #[verifier::external_body]
    pub fn find_by_token(&self, token: &str) -> (r: Option<String>)
        ensures
            crate::cli::opt_str_view(&r) == token_lookup(token@),
    {
        self.syntaxes.find_syntax_by_token(token).map(|s| s.name.clone())
    }

    /// Relies on `SyntaxSet::find_syntax_by_extension` on the default
    /// newline registry: a case-insensitive lookup among the file
    /// extensions each grammar declares, in fixed embedded data.
    #[verifier::external_body]
    pub fn find_by_extension(&self, ext: &str) -> (r: Option<String>)
        ensures
            crate::cli::opt_str_view(&r) == extension_lookup(ext@),
    {
        self.syntaxes.find_syntax_by_extension(ext).map(|s| s.name.clone())
    }

    /// Relies on `HighlightLines::highlight_line` under the default
    /// `base16-ocean.dark` theme, over the named grammar (plain text when
    /// the name is absent or unknown): one escaped rendering per input
    /// line, produced by `as_24_bit_terminal_escaped`; a line the
    /// highlighter fails on is handed back unhighlighted. Deterministic
    /// in the grammar name and the text.
    #[verifier::external_body]
    pub fn highlight_content(&self, grammar: Option<&String>, content: &str) -> (r: Vec<String>)
        ensures
            str_views(r@) == highlighted_lines(opt_ref_view(grammar), content@),
            str_views(r@).len() == spec_lines(content@).len(),
    {
        let plain = self.syntaxes.find_syntax_plain_text();
        let syntax = match grammar {
            Some(g) => self.syntaxes.find_syntax_by_name(g).unwrap_or(plain),
            None => plain,
        };
        let theme = &self.themes.themes["base16-ocean.dark"];
        let mut h = syntect::easy::HighlightLines::new(syntax, theme);
        content.lines().map(|line| match h.highlight_line(line, &self.syntaxes) {
            Ok(ranges) => syntect::util::as_24_bit_terminal_escaped(&ranges[..], true),
            Err(_) => line.to_string(),
        }).collect()
    }
}

// ---------------------------------------------------------------------
// the modeline pattern
// ---------------------------------------------------------------------

/// A character a modeline value may consist of.
pub open spec fn is_word_char(c: char) -> bool {
    ('a' <= c && c <= 'z') || ('A' <= c && c <= 'Z') || ('0' <= c && c <= '9') || c == '_' || c
        == '.' || c == '-'
}

/// First index at or after `v` whose character is no word character.
pub open spec fn word_end(l: Seq<char>, v: int) -> int
    recommends
        0 <= v <= l.len(),
    decreases l.len() - v,
{
    if v < 0 || v >= l.len() {
        l.len() as int
    } else if is_word_char(l[v]) {
        word_end(l, v + 1)
    } else {
        v
    }
}

/// The value run starting at `v`: at least one word character.
pub open spec fn value_at(l: Seq<char>, v: int) -> Option<Seq<char>>
    recommends
        0 <= v <= l.len(),
{
    let e = word_end(l, v);
    if e > v {
        Some(l.subrange(v, e))
    } else {
        None
    }
}

/// Does `lit` stand in `l` at position `p`?
pub open spec fn lit_at(l: Seq<char>, p: int, lit: Seq<char>) -> bool {
    0 <= p && p + lit.len() <= l.len() && l.subrange(p, p + lit.len()) == lit
}

/// A recognized `key=` spelling at position `p`, with its value; the
/// keys are tried as the pattern lists them.
pub open spec fn key_value_at(l: Seq<char>, p: int) -> Option<Seq<char>> {
    if lit_at(l, p, "ft="@) {
        value_at(l, p + 3)
    } else if lit_at(l, p, "filetype="@) {
        value_at(l, p + 9)
    } else if lit_at(l, p, "syntax="@) {
        value_at(l, p + 7)
    } else {
        None
    }
}

/// Scan a line for the modeline pattern: a colon, preceded somewhere by
/// another colon, followed directly by `ft=`, `filetype=` or `syntax=`
/// and a non-empty value; the leftmost such occurrence wins.
pub open spec fn scan_modeline(l: Seq<char>, j: int, seen_colon: bool) -> Option<Seq<char>>
    recommends
        0 <= j <= l.len(),
    decreases l.len() - j,
{
    if j < 0 || j >= l.len() {
        None
    } else if l[j] == ':' {
        if seen_colon && key_value_at(l, j + 1) is Some {
            key_value_at(l, j + 1)
        } else {
            scan_modeline(l, j + 1, true)
        }
    } else {
        scan_modeline(l, j + 1, seen_colon)
    }
}

/// The grammar name a single line's modeline declares, if any.
pub open spec fn modeline_value(l: Seq<char>) -> Option<Seq<char>> {
    scan_modeline(l, 0, false)
}

/// First match among `ls[from..to]`, scanning forward.
pub open spec fn scan_lines_fwd(ls: Seq<Seq<char>>, from: int, to: int) -> Option<Seq<char>>
    recommends
        0 <= from && to <= ls.len(),
    decreases to - from,
{
    if from >= to {
        None
    } else if modeline_value(ls[from]) is Some {
        modeline_value(ls[from])
    } else {
        scan_lines_fwd(ls, from + 1, to)
    }
}

/// First match among `ls[low..hi]`, scanning backward from `hi - 1`.
pub open spec fn scan_lines_rev(ls: Seq<Seq<char>>, low: int, hi: int) -> Option<Seq<char>>
    recommends
        0 <= low && hi <= ls.len(),
    decreases hi - low,
{
    if hi <= low {
        None
    } else if modeline_value(ls[hi - 1]) is Some {
        modeline_value(ls[hi - 1])
    } else {
        scan_lines_rev(ls, low, hi - 1)
    }
}

/// The modeline scan over a whole text: the first five lines in forward
/// order; only when none matches and the text has more than five lines,
/// the last five lines, nearest the end first.
pub open spec fn spec_modeline(content: Seq<char>) -> Option<Seq<char>> {
    let ls = spec_lines(content);
    let head: int = if ls.len() < 5 {
        ls.len() as int
    } else {
        5
    };
    let fwd = scan_lines_fwd(ls, 0, head);
    if fwd is Some {
        fwd
    } else if ls.len() > 5 {
        scan_lines_rev(ls, ls.len() - 5, ls.len() as int)
    } else {
        None
    }
}

// executable modeline matching ----------------------------------------

/// Does `lit` stand in `l` at position `p`? (`lit` is ASCII.)
fn lit_at_exec(l: &Vec<char>, p: usize, lit: &Vec<char>) -> (r: bool)
    requires
        p <= l@.len(),
    ensures
        r == lit_at(l@, p as int, lit@),
{
    if l.len() - p < lit.len() {
        proof {
            assert(!lit_at(l@, p as int, lit@));
        }
        return false;
    }
    proof {
        assert(l@.len() == l.len());
    }
    let mut k: usize = 0;
    while k < lit.len()
        invariant
            0 <= k <= lit@.len(),
            p + lit@.len() <= l@.len(),
            l@.len() <= usize::MAX,
            forall|j: int| 0 <= j < k ==> l@[p + j] == lit@[j],
        decreases lit@.len() - k,
    {
        if l[p + k] != lit[k] {
            proof {
                assert(l@.subrange(p as int, p + lit@.len())[k as int] != lit@[k as int]);
            }
            return false;
        }
        k = k + 1;
    }
    proof {
        assert(l@.subrange(p as int, p + lit@.len()) =~= lit@);
    }
    true
}

fn is_word_char_exec(c: char) -> (r: bool)
    ensures
        r == is_word_char(c),
{
    ('a' <= c && c <= 'z') || ('A' <= c && c <= 'Z') || ('0' <= c && c <= '9') || c == '_' || c
        == '.' || c == '-'
}

/// The value run starting at `v`, if non-empty.
fn value_at_exec(l: &Vec<char>, v: usize) -> (r: Option<Vec<char>>)
    requires
        v <= l@.len(),
    ensures
        match r {
            Some(val) => value_at(l@, v as int) == Some(val@),
            None => value_at(l@, v as int) is None,
        },
{
    let mut e: usize = v;
    while e < l.len() && is_word_char_exec(l[e])
        invariant
            v <= e <= l@.len(),
            forall|j: int| v <= j < e ==> is_word_char(l@[j]),
            word_end(l@, v as int) == word_end(l@, e as int),
        decreases l@.len() - e,
    {
        e = e + 1;
    }
    proof {
        assert(word_end(l@, e as int) == e);
    }
    if e == v {
        return None;
    }
    let mut val: Vec<char> = Vec::new();
    let mut k: usize = v;
    while k < e
        invariant
            v <= k <= e <= l@.len(),
            val@ == l@.subrange(v as int, k as int),
        decreases e - k,
    {
        val.push(l[k]);
        k = k + 1;
        proof {
            assert(val@ =~= l@.subrange(v as int, k as int));
        }
    }
    Some(val)
}

/// A recognized `key=` spelling at `p`, with its value.
fn key_value_at_exec(l: &Vec<char>, p: usize) -> (r: Option<Vec<char>>)
    requires
        p <= l@.len(),
    ensures
        match r {
            Some(val) => key_value_at(l@, p as int) == Some(val@),
            None => key_value_at(l@, p as int) is None,
        },
{
    proof {
        reveal_strlit("ft=");
        reveal_strlit("filetype=");
        reveal_strlit("syntax=");
    }
    let ft = to_chars("ft=");
    if lit_at_exec(l, p, &ft) {
        proof {
            assert(l@.len() == l.len());
            assert(p + 3 <= l@.len());
        }
        return value_at_exec(l, p + 3);
    }
    let filetype = to_chars("filetype=");
    if lit_at_exec(l, p, &filetype) {
        proof {
            assert(l@.len() == l.len());
            assert(p + 9 <= l@.len());
        }
        return value_at_exec(l, p + 9);
    }
    let syntax = to_chars("syntax=");
    if lit_at_exec(l, p, &syntax) {
        proof {
            assert(l@.len() == l.len());
            assert(p + 7 <= l@.len());
        }
        return value_at_exec(l, p + 7);
    }
    None
}

/// The grammar name a line's modeline declares, if any.
pub fn line_modeline_value(l: &Vec<char>) -> (r: Option<Vec<char>>)
    ensures
        match r {
            Some(val) => modeline_value(l@) == Some(val@),
            None => modeline_value(l@) is None,
        },
{
    let mut j: usize = 0;
    let mut seen_colon = false;
    while j < l.len()
        invariant
            0 <= j <= l@.len(),
            modeline_value(l@) == scan_modeline(l@, j as int, seen_colon),
        decreases l@.len() - j,
    {
        if l[j] == ':' {
            if seen_colon {
                match key_value_at_exec(l, j + 1) {
                    Some(val) => {
                        return Some(val);
                    },
                    None => {},
                }
            }
            seen_colon = true;
        }
        j = j + 1;
    }
    None
}

/// The modeline scan over a whole text.
pub fn find_syntax_from_modeline(content: &str) -> (r: Option<String>)
    ensures
        crate::cli::opt_str_view(&r) == spec_modeline(content@),
{
    let cc = to_chars(content);
    let lines = split_lines(&cc);
    let ghost ls = spec_lines(content@);
    proof {
        assert(crate::chars::views_of(lines@) == ls);
    }
    let head: usize = if lines.len() < 5 {
        lines.len()
    } else {
        5
    };
    let mut i: usize = 0;
    while i < head
        invariant
            0 <= i <= head <= lines@.len(),
            head == (if ls.len() < 5 {
                ls.len() as int
            } else {
                5
            }),
            ls == crate::chars::views_of(lines@),
            ls == spec_lines(content@),
            scan_lines_fwd(ls, 0, head as int) == scan_lines_fwd(ls, i as int, head as int),
        decreases head - i,
    {
        proof {
            assert(ls[i as int] == lines@[i as int]@);
        }
        match line_modeline_value(&lines[i]) {
            Some(val) => {
                proof {
                    assert(scan_lines_fwd(ls, i as int, head as int) == Some(val@));
                }
                return Some(crate::chars::chars_to_string(&val));
            },
            None => {},
        }
        i = i + 1;
    }
    if lines.len() > 5 {
        let low = lines.len() - 5;
        let mut hi: usize = lines.len();
        while hi > low
            invariant
                low <= hi <= lines@.len(),
                low == lines@.len() - 5,
                ls == crate::chars::views_of(lines@),
                ls == spec_lines(content@),
                ls.len() > 5,
                scan_lines_fwd(ls, 0, 5) is None,
                scan_lines_rev(ls, low as int, ls.len() as int) == scan_lines_rev(
                    ls,
                    low as int,
                    hi as int,
                ),
            decreases hi - low,
        {
            proof {
                assert(ls[hi - 1] == lines@[hi - 1]@);
            }
            match line_modeline_value(&lines[hi - 1]) {
                Some(val) => {
                    proof {
                        assert(scan_lines_rev(ls, low as int, hi as int) == Some(val@));
                    }
                    return Some(crate::chars::chars_to_string(&val));
                },
                None => {},
            }
            hi = hi - 1;
        }
    }
    None
}

// ---------------------------------------------------------------------
// the four-tier selection
// ---------------------------------------------------------------------

/// How the grammar for one file was decided.
#[derive(Debug)]
pub enum SyntaxChoice {
    /// The resolved syntax override named a recognized grammar.
    ExplicitOverride(String),
    /// A modeline in the content named a recognized grammar.
    ModelineDetected(String),
    /// The path extension is registered with a grammar.
    ExtensionDetected(String),
    /// None of the tiers resolved; the text stays plain.
    PlainText,
}

/// Mathematical image of a `SyntaxChoice`.
pub enum ChoiceView {
    ExplicitOverride(Seq<char>),
    ModelineDetected(Seq<char>),
    ExtensionDetected(Seq<char>),
    PlainText,
}

impl View for SyntaxChoice {
    type V = ChoiceView;

    open spec fn view(&self) -> ChoiceView {
        match self {
            SyntaxChoice::ExplicitOverride(g) => ChoiceView::ExplicitOverride(g@),
            SyntaxChoice::ModelineDetected(g) => ChoiceView::ModelineDetected(g@),
            SyntaxChoice::ExtensionDetected(g) => ChoiceView::ExtensionDetected(g@),
            SyntaxChoice::PlainText => ChoiceView::PlainText,
        }
    }
}

/// The grammar an override resolves to, when it names a recognized one.
pub open spec fn override_grammar(ov: Option<Seq<char>>) -> Option<Seq<char>> {
    match ov {
        Some(o) => token_lookup(o),
        None => None,
    }
}

/// The grammar the content's modeline resolves to, when one is present
/// and recognized.
pub open spec fn modeline_grammar(content: Seq<char>) -> Option<Seq<char>> {
    match spec_modeline(content) {
        Some(m) => token_lookup(m),
        None => None,
    }
}

/// The grammar the path extension resolves to (the empty extension is
/// looked up when the path has none).
pub open spec fn ext_grammar(path: Seq<char>) -> Option<Seq<char>> {
    extension_lookup(spec_extension(path))
}

/// The four-tier selection: override, else modeline, else extension,
/// else plain text. An unrecognized override or modeline name does not
/// fail; it falls through to the next tier.
pub open spec fn spec_select(ov: Option<Seq<char>>, path: Seq<char>, content: Seq<char>) -> ChoiceView {
    if override_grammar(ov) is Some {
        ChoiceView::ExplicitOverride(override_grammar(ov)->0)
    } else if modeline_grammar(content) is Some {
        ChoiceView::ModelineDetected(modeline_grammar(content)->0)
    } else if ext_grammar(path) is Some {
        ChoiceView::ExtensionDetected(ext_grammar(path)->0)
    } else {
        ChoiceView::PlainText
    }
}

/// The grammar name a choice carries, absent for plain text.
pub open spec fn chosen_grammar(c: ChoiceView) -> Option<Seq<char>> {
    match c {
        ChoiceView::ExplicitOverride(g) => Some(g),
        ChoiceView::ModelineDetected(g) => Some(g),
        ChoiceView::ExtensionDetected(g) => Some(g),
        ChoiceView::PlainText => None,
    }
}

/// Decide the grammar for one file.
pub fn select_syntax(
    registry: &GrammarRegistry,
    syntax_override: Option<&String>,
    path: &str,
    content: &str,
) -> (r: SyntaxChoice)
    ensures
        r@ == spec_select(opt_ref_view(syntax_override), path@, content@),
{
    match syntax_override {
        Some(o) => {
            match registry.find_by_token(o.as_str()) {
                Some(g) => {
                    return SyntaxChoice::ExplicitOverride(g);
                },
                None => {},
            }
        },
        None => {},
    }
    match find_syntax_from_modeline(content) {
        Some(m) => {
            match registry.find_by_token(m.as_str()) {
                Some(g) => {
                    return SyntaxChoice::ModelineDetected(g);
                },
                None => {},
            }
        },
        None => {},
    }
    let pc = to_chars(path);
    let ext = path_extension(&pc);
    let ext_str = crate::chars::chars_to_string(&ext);
    match registry.find_by_extension(ext_str.as_str()) {
        Some(g) => SyntaxChoice::ExtensionDetected(g),
        None => SyntaxChoice::PlainText,
    }
}

/// The syntax-precedence law: a recognized override beats everything; a
/// recognized modeline beats the extension; the extension is used only
/// when neither resolves; plain text stands only when no tier does.
pub proof fn lemma_syntax_precedence(ov: Option<Seq<char>>, path: Seq<char>, content: Seq<char>)
    ensures
        override_grammar(ov) is Some ==> spec_select(ov, path, content)
            == ChoiceView::ExplicitOverride(override_grammar(ov)->0),
        override_grammar(ov) is None && modeline_grammar(content) is Some ==> spec_select(
            ov,
            path,
            content,
        ) == ChoiceView::ModelineDetected(modeline_grammar(content)->0),
        override_grammar(ov) is None && modeline_grammar(content) is None && ext_grammar(path)
            is Some ==> spec_select(ov, path, content) == ChoiceView::ExtensionDetected(
            ext_grammar(path)->0,
        ),
        override_grammar(ov) is None && modeline_grammar(content) is None && ext_grammar(path)
            is None ==> spec_select(ov, path, content) == ChoiceView::PlainText,
{
}

} // verus!
