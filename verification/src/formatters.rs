//! The output renderers: pure functions from a display path and a text
//! to the formatted document.

use vstd::prelude::*;

use crate::chars::{MAX_TEXT, byte_len, byte_len_of, lemma_byte_len_bound, lemma_digits_len_crude,
    lemma_lines_bounds, pad_left, push_all, push_pad_left, push_repeat, push_spaces,
    push_str_chars, repeat_char, spaces, spec_digits, spec_lines, split_lines, to_chars,
    usize_digits, views_of};
use crate::syntax::GrammarRegistry;

pub mod ansi;
pub mod ascii;
pub mod markdown;
pub mod pretty;
pub mod utf8;
pub mod xml;

use crate::formatters::ansi::Ansi;
use crate::formatters::ascii::Ascii;
use crate::formatters::markdown::Markdown;
use crate::formatters::pretty::Pretty;
use crate::formatters::utf8::Utf8;
use crate::formatters::xml::Xml;

verus! {

/// The size bound under which every renderer's width arithmetic fits.
pub open spec fn render_fits(path: Seq<char>, content: Seq<char>) -> bool {
    &&& path.len() <= MAX_TEXT as nat / 4
    &&& content.len() <= MAX_TEXT as nat / 4
}

/// A renderer: a pure function from (display path, text) to the bytes
/// of one formatted document, pinned by its own `spec_render`.
pub trait Formatter: Sized {
    /// The exact document this renderer produces.
    spec fn spec_render(&self, path: Seq<char>, content: Seq<char>) -> Seq<char>;

    /// Render one input.
    fn render(&self, registry: &GrammarRegistry, path: &str, content: &str) -> (r: String)
        requires
            render_fits(path@, content@),
        ensures
            r@ == self.spec_render(path@, content@),
    ;
}

// ---------------------------------------------------------------------
// numbered rows, shared by the line-oriented renderers
// ---------------------------------------------------------------------

/// One output row: the 1-based line number right-aligned to `w`, the
/// separator, the line, a newline — or just the line when numbering is
/// off.
pub open spec fn spec_row(line: Seq<char>, n: nat, numbers: bool, w: nat, sep: Seq<char>) -> Seq<
    char,
> {
    if numbers {
        pad_left(spec_digits(n), w) + sep + line + seq!['\n']
    } else {
        line + seq!['\n']
    }
}

/// The first `k` rows, in order.
pub open spec fn spec_rows(
    lines: Seq<Seq<char>>,
    k: int,
    numbers: bool,
    w: nat,
    sep: Seq<char>,
) -> Seq<char>
    decreases k,
{
    if k <= 0 {
        Seq::empty()
    } else {
        spec_rows(lines, k - 1, numbers, w, sep) + spec_row(lines[k - 1], k as nat, numbers, w, sep)
    }
}

/// The width of the widest line number: the digits of the line count.
pub fn digits_width(n: usize) -> (w: usize)
    ensures
        w == spec_digits(n as nat).len(),
{
    let d = usize_digits(n);
    d.len()
}

/// Append every row of `lines` to `out`.
pub fn push_rows(out: &mut Vec<char>, lines: &Vec<Vec<char>>, numbers: bool, w: usize, sep: &str)
    ensures
        final(out)@ == old(out)@ + spec_rows(
            views_of(lines@),
            lines@.len() as int,
            numbers,
            w as nat,
            sep@,
        ),
{
    let ghost lv = views_of(lines@);
    let mut i: usize = 0;
    proof {
        assert(out@ =~= old(out)@ + spec_rows(lv, 0, numbers, w as nat, sep@));
    }
    while i < lines.len()
        invariant
            i <= lines@.len(),
            lv == views_of(lines@),
            out@ == old(out)@ + spec_rows(lv, i as int, numbers, w as nat, sep@),
        decreases lines@.len() - i,
    {
        proof {
            assert(lv[i as int] == lines@[i as int]@);
        }
        if numbers {
            let d = usize_digits(i + 1);
            push_pad_left(out, &d, w);
            push_str_chars(out, sep);
        }
        push_all(out, &lines[i]);
        out.push('\n');
        i = i + 1;
        proof {
            assert(out@ =~= old(out)@ + spec_rows(lv, i as int, numbers, w as nat, sep@));
        }
    }
}

// ---------------------------------------------------------------------
// the box layout shared by the ANSI and UTF-8 renderers
// ---------------------------------------------------------------------

pub open spec fn nat_max(a: nat, b: nat) -> nat {
    if a >= b {
        a
    } else {
        b
    }
}

/// One interior body line, before padding.
pub open spec fn box_line(lines: Seq<Seq<char>>, i: int, numbers: bool, w: nat) -> Seq<char> {
    if numbers {
        pad_left(spec_digits((i + 1) as nat), w) + " │ "@ + lines[i]
    } else {
        lines[i]
    }
}

/// The widest body line among the first `k`, measured in UTF-8 bytes.
pub open spec fn max_body(lines: Seq<Seq<char>>, k: int, numbers: bool, w: nat) -> nat
    decreases k,
{
    if k <= 0 {
        0
    } else {
        nat_max(max_body(lines, k - 1, numbers, w), byte_len(box_line(lines, k - 1, numbers, w)))
    }
}

/// A line padded with spaces to the interior byte width.
pub open spec fn spec_pad_box(s: Seq<char>, interior: nat) -> Seq<char> {
    if byte_len(s) < interior {
        s + spaces((interior - byte_len(s)) as nat)
    } else {
        s
    }
}

/// The interior width: the widest body line, the header, and the
/// configured minimum, whichever is largest.
pub open spec fn box_interior(
    lines: Seq<Seq<char>>,
    numbers: bool,
    w: nat,
    header: Seq<char>,
    width: nat,
) -> nat {
    nat_max(nat_max(max_body(lines, lines.len() as int, numbers, w), byte_len(header)), width)
}

/// The framed body rows among the first `k`.
pub open spec fn box_rows(
    lines: Seq<Seq<char>>,
    k: int,
    numbers: bool,
    w: nat,
    interior: nat,
) -> Seq<char>
    decreases k,
{
    if k <= 0 {
        Seq::empty()
    } else {
        box_rows(lines, k - 1, numbers, w, interior) + seq!['│'] + spec_pad_box(
            box_line(lines, k - 1, numbers, w),
            interior,
        ) + "│\n"@
    }
}

/// The whole box document: top border, framed header, separator,
/// framed body lines, bottom border.
pub open spec fn box_doc(
    path: Seq<char>,
    content: Seq<char>,
    numbers: bool,
    width: nat,
    header_trailing_space: bool,
) -> Seq<char> {
    let lines = spec_lines(content);
    let w: nat = if numbers {
        spec_digits(lines.len()).len()
    } else {
        0
    };
    let header = " File: "@ + path + (if header_trailing_space {
        " "@
    } else {
        Seq::<char>::empty()
    });
    let interior = box_interior(lines, numbers, w, header, width);
    let hr = repeat_char('─', interior);
    seq!['┌'] + hr + "┐\n"@ + seq!['│'] + spec_pad_box(header, interior) + "│\n"@ + seq!['├'] + hr
        + "┤\n"@ + box_rows(lines, lines.len() as int, numbers, w, interior) + seq!['└'] + hr
        + "┘\n"@
}

/// Append `s` padded to the interior byte width, between frame bars.
fn push_framed(out: &mut Vec<char>, s: &Vec<char>, bl: usize, interior: usize)
    requires
        bl == byte_len(s@),
    ensures
        final(out)@ == old(out)@ + seq!['│'] + spec_pad_box(s@, interior as nat) + "│\n"@,
{
    out.push('│');
    push_all(out, s);
    if bl < interior {
        push_spaces(out, interior - bl);
    }
    push_str_chars(out, "│\n");
    proof {
        assert(out@ =~= old(out)@ + seq!['│'] + spec_pad_box(s@, interior as nat) + "│\n"@);
    }
}

/// Render the box layout.
#[verifier::rlimit(60)]
pub fn box_render(
    path: &str,
    content: &str,
    numbers: bool,
    width: usize,
    header_trailing_space: bool,
) -> (r: String)
    requires
        render_fits(path@, content@),
    ensures
        r@ == box_doc(path@, content@, numbers, width as nat, header_trailing_space),
{
    let cc = to_chars(content);
    let lines = split_lines(&cc);
    let ghost lv = spec_lines(content@);
    proof {
        lemma_lines_bounds(content@);
        lemma_digits_len_crude(lv.len());
    }
    let w: usize = if numbers {
        digits_width(lines.len())
    } else {
        0
    };
    // the header
    let mut header: Vec<char> = Vec::new();
    push_str_chars(&mut header, " File: ");
    push_str_chars(&mut header, path);
    if header_trailing_space {
        push_str_chars(&mut header, " ");
    }
    let ghost hv = header@;
    proof {
        if header_trailing_space {
            assert(hv =~= " File: "@ + path@ + " "@);
        } else {
            assert(hv =~= " File: "@ + path@ + Seq::<char>::empty());
        }
        reveal_strlit(" File: ");
        reveal_strlit(" ");
    }
    // body lines, materialized
    let mut body: Vec<Vec<char>> = Vec::new();
    let mut i: usize = 0;
    while i < lines.len()
        invariant
            i <= lines@.len(),
            views_of(lines@) == lv,
            lv.len() <= content@.len(),
            forall|j: int| 0 <= j < lv.len() ==> (#[trigger] lv[j]).len() <= content@.len(),
            content@.len() <= MAX_TEXT as nat / 4,
            w as nat == (if numbers {
                spec_digits(lv.len()).len()
            } else {
                0
            }),
            w <= lv.len() + 1,
            body@.len() == i,
            forall|j: int|
                0 <= j < i ==> (#[trigger] body@[j])@ == box_line(lv, j, numbers, w as nat),
            forall|j: int| 0 <= j < i ==> (#[trigger] body@[j])@.len() <= MAX_TEXT,
        decreases lines@.len() - i,
    {
        let mut b: Vec<char> = Vec::new();
        if numbers {
            let d = usize_digits(i + 1);
            proof {
                lemma_digits_len_crude((i + 1) as nat);
            }
            push_pad_left(&mut b, &d, w);
            push_str_chars(&mut b, " │ ");
        }
        proof {
            assert(lv[i as int] == lines@[i as int]@);
        }
        push_all(&mut b, &lines[i]);
        proof {
            assert(b@ =~= box_line(lv, i as int, numbers, w as nat));
            if numbers {
                reveal_strlit(" │ ");
                lemma_digits_len_crude((i + 1) as nat);
                assert(pad_left(spec_digits((i + 1) as nat), w as nat).len() <= w as nat + (i
                    + 2));
            }
            assert(b@.len() <= MAX_TEXT);
        }
        body.push(b);
        i = i + 1;
    }
    // interior width
    let mut interior: usize = 0;
    let mut k: usize = 0;
    while k < body.len()
        invariant
            k <= body@.len(),
            body@.len() == lv.len(),
            forall|j: int|
                0 <= j < body@.len() ==> (#[trigger] body@[j])@ == box_line(lv, j, numbers, w as nat),
            forall|j: int| 0 <= j < body@.len() ==> (#[trigger] body@[j])@.len() <= MAX_TEXT,
            interior == max_body(lv, k as int, numbers, w as nat),
        decreases body@.len() - k,
    {
        let bl = byte_len_of(&body[k]);
        if bl > interior {
            interior = bl;
        }
        k = k + 1;
    }
    proof {
        lemma_byte_len_bound(hv);
        assert(hv.len() <= MAX_TEXT);
    }
    let hbl = byte_len_of(&header);
    if hbl > interior {
        interior = hbl;
    }
    if width > interior {
        interior = width;
    }
    let ghost ispec = box_interior(lv, numbers, w as nat, hv, width as nat);
    proof {
        assert(interior as nat == ispec);
    }
    // emit
    let mut out: Vec<char> = Vec::new();
    out.push('┌');
    push_repeat(&mut out, '─', interior);
    push_str_chars(&mut out, "┐\n");
    push_framed(&mut out, &header, hbl, interior);
    out.push('├');
    push_repeat(&mut out, '─', interior);
    push_str_chars(&mut out, "┤\n");
    let ghost pre = out@;
    let mut m: usize = 0;
    while m < body.len()
        invariant
            m <= body@.len(),
            body@.len() == lv.len(),
            forall|j: int|
                0 <= j < body@.len() ==> (#[trigger] body@[j])@ == box_line(lv, j, numbers, w as nat),
            forall|j: int| 0 <= j < body@.len() ==> (#[trigger] body@[j])@.len() <= MAX_TEXT,
            interior as nat == ispec,
            out@ == pre + box_rows(lv, m as int, numbers, w as nat, ispec),
        decreases body@.len() - m,
    {
        let bl = byte_len_of(&body[m]);
        push_framed(&mut out, &body[m], bl, interior);
        m = m + 1;
        proof {
            assert(out@ =~= pre + box_rows(lv, m as int, numbers, w as nat, ispec));
        }
    }
    out.push('└');
    push_repeat(&mut out, '─', interior);
    push_str_chars(&mut out, "┘\n");
    proof {
        assert(out@ =~= box_doc(
            path@,
            content@,
            numbers,
            width as nat,
            header_trailing_space,
        ));
    }
    crate::chars::chars_to_string(&out)
}

// ---------------------------------------------------------------------
// dispatch without trait objects
// ---------------------------------------------------------------------

/// A renderer chosen for the run; the aggregate format has none.
#[derive(Debug)]
pub enum AnyFormatter {
    Ansi(Ansi),
    Xml(Xml),
    Markdown(Markdown),
    Ascii(Ascii),
    Utf8(Utf8),
    Pretty(Pretty),
}

impl AnyFormatter {
    /// The exact document the chosen renderer produces.
    pub open spec fn spec_render(&self, path: Seq<char>, content: Seq<char>) -> Seq<char> {
        match self {
            AnyFormatter::Ansi(f) => f.spec_render(path, content),
            AnyFormatter::Xml(f) => f.spec_render(path, content),
            AnyFormatter::Markdown(f) => f.spec_render(path, content),
            AnyFormatter::Ascii(f) => f.spec_render(path, content),
            AnyFormatter::Utf8(f) => f.spec_render(path, content),
            AnyFormatter::Pretty(f) => f.spec_render(path, content),
        }
    }

    /// Render one input with the chosen renderer.
    pub fn render(&self, registry: &GrammarRegistry, path: &str, content: &str) -> (r: String)
        requires
            render_fits(path@, content@),
        ensures
            r@ == self.spec_render(path@, content@),
    {
        match self {
            AnyFormatter::Ansi(f) => f.render(registry, path, content),
            AnyFormatter::Xml(f) => f.render(registry, path, content),
            AnyFormatter::Markdown(f) => f.render(registry, path, content),
            AnyFormatter::Ascii(f) => f.render(registry, path, content),
            AnyFormatter::Utf8(f) => f.render(registry, path, content),
            AnyFormatter::Pretty(f) => f.render(registry, path, content),
        }
    }
}

} // verus!
