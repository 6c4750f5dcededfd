//! The two processing strategies: streaming formats render one input at
//! a time; the aggregate format buffers every successful read into one
//! JSON document.

use vstd::prelude::*;

use crate::chars::{chars_to_string, digit_char, push_all, push_str_chars, to_chars};
use crate::options::{spec_strip_components, strip_components};

verus! {

/// One entry of the aggregate document.
#[derive(Debug)]
pub struct FileEntry {
    pub path: String,
    pub content: String,
}

/// Mathematical image of a `FileEntry`.
pub struct EntryView {
    pub path: Seq<char>,
    pub content: Seq<char>,
}

impl View for FileEntry {
    type V = EntryView;

    open spec fn view(&self) -> EntryView {
        EntryView { path: self.path@, content: self.content@ }
    }
}

/// The views of a list of entries.
pub open spec fn entry_views(es: Seq<FileEntry>) -> Seq<EntryView> {
    es.map_values(|e: FileEntry| e@)
}

/// The views of a list of read results.
pub open spec fn read_views(rs: Seq<(String, Option<String>)>) -> Seq<
    (Seq<char>, Option<Seq<char>>),
> {
    rs.map_values(
        |r: (String, Option<String>)|
            (
                r.0@,
                match r.1 {
                    Some(c) => Some(c@),
                    None => None::<Seq<char>>,
                },
            ),
    )
}

/// The successful reads, in their original order.
pub open spec fn ok_reads(rs: Seq<(Seq<char>, Option<Seq<char>>)>) -> Seq<(Seq<char>, Seq<char>)>
    decreases rs.len(),
{
    if rs.len() == 0 {
        Seq::empty()
    } else {
        let rest = ok_reads(rs.drop_first());
        match rs[0].1 {
            Some(c) => seq![(rs[0].0, c)] + rest,
            None => rest,
        }
    }
}

/// What aggregation produces: one entry per successful read, in input
/// order, its path stripped, its content as read; unreadable inputs are
/// omitted.
pub open spec fn spec_aggregate(rs: Seq<(Seq<char>, Option<Seq<char>>)>, strip: nat) -> Seq<
    EntryView,
>
    decreases rs.len(),
{
    if rs.len() == 0 {
        Seq::empty()
    } else {
        let rest = spec_aggregate(rs.drop_first(), strip);
        match rs[0].1 {
            Some(c) => seq![
                EntryView { path: spec_strip_components(rs[0].0, strip), content: c },
            ] + rest,
            None => rest,
        }
    }
}

/// Build the aggregate entry list from the read results.
pub fn aggregate_entries(reads: &Vec<(String, Option<String>)>, strip: usize) -> (r: Vec<
    FileEntry,
>)
    ensures
        entry_views(r@) == spec_aggregate(read_views(reads@), strip as nat),
{
    let ghost rv = read_views(reads@);
    let mut r: Vec<FileEntry> = Vec::new();
    let mut i: usize = reads.len();
    proof {
        assert(rv.skip(i as int) =~= Seq::<(Seq<char>, Option<Seq<char>>)>::empty());
        assert(entry_views(r@) =~= spec_aggregate(rv.skip(i as int), strip as nat));
    }
    // build from the back so each step prepends, as the spec does
    while i > 0
        invariant
            i <= reads@.len(),
            rv == read_views(reads@),
            entry_views(r@) == spec_aggregate(rv.skip(i as int), strip as nat),
        decreases i,
    {
        i = i - 1;
        proof {
            assert(rv[i as int] == (reads@[i as int].0@, match reads@[i as int].1 {
                Some(c) => Some(c@),
                None => None::<Seq<char>>,
            }));
            assert(rv.skip(i as int).drop_first() =~= rv.skip(i as int + 1));
        }
        match &reads[i].1 {
            Some(c) => {
                let display = strip_components(reads[i].0.as_str(), strip);
                let e = FileEntry { path: display, content: c.clone() };
                let ghost old_r = r@;
                r.insert(0, e);
                proof {
                    assert(entry_views(r@) =~= seq![r@[0]@] + entry_views(old_r));
                }
            },
            None => {},
        }
        proof {
            assert(entry_views(r@) =~= spec_aggregate(rv.skip(i as int), strip as nat));
        }
    }
    proof {
        assert(rv.skip(0) =~= rv);
    }
    r
}

/// The aggregate strategy's guarantee: for `k` inputs of which `j` fail
/// to read, the document holds exactly `k - j` entries, in input order,
/// each pairing a stripped path with the content that was read.
pub proof fn lemma_aggregate_omits_failures(rs: Seq<(Seq<char>, Option<Seq<char>>)>, strip: nat)
    ensures
        spec_aggregate(rs, strip).len() == ok_reads(rs).len(),
        forall|i: int|
            0 <= i < ok_reads(rs).len() ==> (#[trigger] spec_aggregate(rs, strip)[i]).path
                == spec_strip_components(ok_reads(rs)[i].0, strip) && spec_aggregate(
                rs,
                strip,
            )[i].content == ok_reads(rs)[i].1,
    decreases rs.len(),
{
    if rs.len() > 0 {
        lemma_aggregate_omits_failures(rs.drop_first(), strip);
    }
}

// ---------------------------------------------------------------------
// the aggregate document
// ---------------------------------------------------------------------

/// A lowercase hexadecimal digit.
pub open spec fn hex_digit(d: nat) -> char
    recommends
        d < 16,
{
    if d < 10 {
        digit_char(d)
    } else {
        ((d + 87) as u8) as char
    }
}

/// The JSON escape of one character: quotes, backslashes and control
/// characters are escaped, everything else stands as it is.
pub open spec fn json_esc_char(c: char) -> Seq<char> {
    if c == '"' {
        "\\\""@
    } else if c == '\\' {
        "\\\\"@
    } else if c == '\u{8}' {
        "\\b"@
    } else if c == '\t' {
        "\\t"@
    } else if c == '\n' {
        "\\n"@
    } else if c == '\u{c}' {
        "\\f"@
    } else if c == '\r' {
        "\\r"@
    } else if (c as u32) < 0x20 {
        "\\u00"@ + seq![hex_digit((c as u32 / 16) as nat), hex_digit((c as u32 % 16) as nat)]
    } else {
        seq![c]
    }
}

/// The JSON escape of a text.
pub open spec fn json_esc(s: Seq<char>) -> Seq<char>
    decreases s.len(),
{
    if s.len() == 0 {
        Seq::empty()
    } else {
        json_esc(s.drop_last()) + json_esc_char(s.last())
    }
}

/// One entry as a pretty-printed JSON object, at one level of
/// indentation.
pub open spec fn spec_entry_json(e: EntryView) -> Seq<char> {
    "{\n    \"path\": \""@ + json_esc(e.path) + "\",\n    \"content\": \""@ + json_esc(e.content)
        + "\"\n  }"@
}

/// The first `k` entries, each behind its separator.
pub open spec fn spec_entries_json(es: Seq<EntryView>, k: int) -> Seq<char>
    decreases k,
{
    if k <= 0 {
        Seq::empty()
    } else {
        spec_entries_json(es, k - 1) + (if k == 1 {
            "\n  "@
        } else {
            ",\n  "@
        }) + spec_entry_json(es[k - 1])
    }
}

/// The whole aggregate document, in the layout of pretty-printed JSON
/// with two-space indentation.
pub open spec fn spec_json_doc(es: Seq<EntryView>) -> Seq<char> {
    if es.len() == 0 {
        "[]"@
    } else {
        "["@ + spec_entries_json(es, es.len() as int) + "\n]"@
    }
}

/// Append the JSON escape of `s` to `out`.
fn push_json_esc(out: &mut Vec<char>, s: &Vec<char>)
    ensures
        final(out)@ == old(out)@ + json_esc(s@),
{
    let mut i: usize = 0;
    proof {
        assert(out@ =~= old(out)@ + json_esc(s@.take(0)));
    }
    while i < s.len()
        invariant
            i <= s@.len(),
            out@ == old(out)@ + json_esc(s@.take(i as int)),
        decreases s@.len() - i,
    {
        let c = s[i];
        if c == '"' {
            push_str_chars(out, "\\\"");
        } else if c == '\\' {
            push_str_chars(out, "\\\\");
        } else if c == '\u{8}' {
            push_str_chars(out, "\\b");
        } else if c == '\t' {
            push_str_chars(out, "\\t");
        } else if c == '\n' {
            push_str_chars(out, "\\n");
        } else if c == '\u{c}' {
            push_str_chars(out, "\\f");
        } else if c == '\r' {
            push_str_chars(out, "\\r");
        } else if (c as u32) < 0x20 {
            push_str_chars(out, "\\u00");
            let n: u32 = c as u32;
            let hi: u32 = n / 16;
            let lo: u32 = n % 16;
            let hc: char = if hi < 10 {
                ((48 + hi) as u8) as char
            } else {
                ((87 + hi) as u8) as char
            };
            let lc: char = if lo < 10 {
                ((48 + lo) as u8) as char
            } else {
                ((87 + lo) as u8) as char
            };
            out.push(hc);
            out.push(lc);
        } else {
            out.push(c);
        }
        i = i + 1;
        proof {
            assert(s@.take(i as int).drop_last() =~= s@.take(i as int - 1));
            assert(out@ =~= old(out)@ + json_esc(s@.take(i as int)));
        }
    }
    proof {
        assert(s@.take(i as int) =~= s@);
    }
}

/// Render the aggregate document.
#[verifier::rlimit(60)]
pub fn render_json(entries: &Vec<FileEntry>) -> (r: String)
    ensures
        r@ == spec_json_doc(entry_views(entries@)),
{
    let ghost ev = entry_views(entries@);
    if entries.len() == 0 {
        let mut out: Vec<char> = Vec::new();
        push_str_chars(&mut out, "[]");
        proof {
            assert(out@ =~= spec_json_doc(ev));
        }
        return chars_to_string(&out);
    }
    let mut out: Vec<char> = Vec::new();
    push_str_chars(&mut out, "[");
    let ghost pre = out@;
    let mut i: usize = 0;
    while i < entries.len()
        invariant
            i <= entries@.len(),
            ev == entry_views(entries@),
            out@ == pre + spec_entries_json(ev, i as int),
        decreases entries@.len() - i,
    {
        proof {
            assert(ev[i as int] == entries@[i as int]@);
        }
        if i == 0 {
            push_str_chars(&mut out, "\n  ");
        } else {
            push_str_chars(&mut out, ",\n  ");
        }
        push_str_chars(&mut out, "{\n    \"path\": \"");
        let pc = to_chars(entries[i].path.as_str());
        push_json_esc(&mut out, &pc);
        push_str_chars(&mut out, "\",\n    \"content\": \"");
        let cc = to_chars(entries[i].content.as_str());
        push_json_esc(&mut out, &cc);
        push_str_chars(&mut out, "\"\n  }");
        i = i + 1;
        proof {
            assert(out@ =~= pre + spec_entries_json(ev, i as int));
        }
    }
    push_str_chars(&mut out, "\n]");
    proof {
        assert(out@ =~= spec_json_doc(ev));
    }
    chars_to_string(&out)
}

// ---------------------------------------------------------------------
// the NUL-separated stdin path list
// ---------------------------------------------------------------------

/// The views of a list of byte vectors.
pub open spec fn byte_views(r: Seq<Vec<u8>>) -> Seq<Seq<u8>> {
    r.map_values(|v: Vec<u8>| v@)
}

/// Index of the first NUL at or after `from`, or `s.len()`.
pub open spec fn find_nul(s: Seq<u8>, from: nat) -> nat
    decreases s.len() - from,
{
    if from >= s.len() {
        s.len()
    } else if s[from as int] == 0 {
        from
    } else {
        find_nul(s, from + 1)
    }
}

/// The non-empty NUL-separated segments of a byte string.
pub open spec fn spec_nul_segments(s: Seq<u8>) -> Seq<Seq<u8>>
    decreases s.len(),
{
    if s.len() == 0 {
        Seq::empty()
    } else {
        let i = find_nul(s, 0);
        if i >= s.len() {
            seq![s]
        } else if i == 0 {
            spec_nul_segments(s.skip(1))
        } else {
            seq![s.take(i as int)] + spec_nul_segments(s.skip(i as int + 1))
        }
    }
}

proof fn lemma_find_nul_bounds(s: Seq<u8>, from: nat)
    requires
        from <= s.len(),
    ensures
        from <= find_nul(s, from) <= s.len(),
        find_nul(s, from) < s.len() ==> s[find_nul(s, from) as int] == 0,
        forall|j: int| from <= j < find_nul(s, from) ==> s[j] != 0,
    decreases s.len() - from,
{
    if from < s.len() && s[from as int] != 0 {
        lemma_find_nul_bounds(s, from + 1);
    }
}

proof fn lemma_find_nul_prefix(s: Seq<u8>, nl: nat, from: nat)
    requires
        from <= nl < s.len(),
        s[nl as int] == 0,
        forall|j: int| from <= j < nl ==> s[j] != 0,
    ensures
        find_nul(s, from) == nl,
    decreases nl - from,
{
    if from < nl {
        lemma_find_nul_prefix(s, nl, from + 1);
    }
}

proof fn lemma_nul_segments_step(pre: Seq<u8>, rest: Seq<u8>)
    requires
        forall|j: int| 0 <= j < pre.len() ==> pre[j] != 0,
    ensures
        pre.len() == 0 ==> spec_nul_segments(pre + seq![0u8] + rest) == spec_nul_segments(rest),
        pre.len() > 0 ==> spec_nul_segments(pre + seq![0u8] + rest) == seq![pre]
            + spec_nul_segments(rest),
{
    let s = pre + seq![0u8] + rest;
    lemma_find_nul_prefix(s, pre.len() as nat, 0);
    if pre.len() == 0 {
        assert(s.skip(1) =~= rest);
    } else {
        assert(s.take(pre.len() as int) =~= pre);
        assert(s.skip(pre.len() as int + 1) =~= rest);
    }
}

/// Split a NUL-separated byte list into its non-empty segments, as the
/// NUL-list input mode reads raw path names from the standard input.
pub fn split_nul(bytes: &Vec<u8>) -> (r: Vec<Vec<u8>>)
    ensures
        byte_views(r@) == spec_nul_segments(bytes@),
{
    let mut r: Vec<Vec<u8>> = Vec::new();
    let mut cur: Vec<u8> = Vec::new();
    let mut i: usize = 0;
    proof {
        assert(cur@ + bytes@.skip(0) =~= bytes@);
        assert(byte_views(r@) + spec_nul_segments(bytes@) =~= spec_nul_segments(bytes@));
    }
    while i < bytes.len()
        invariant
            i <= bytes@.len(),
            forall|j: int| 0 <= j < cur@.len() ==> cur@[j] != 0,
            spec_nul_segments(bytes@) == byte_views(r@) + spec_nul_segments(
                cur@ + bytes@.skip(i as int),
            ),
        decreases bytes@.len() - i,
    {
        let c = bytes[i];
        if c == 0 {
            let ghost rest = bytes@.skip(i as int + 1);
            proof {
                assert(cur@ + bytes@.skip(i as int) =~= cur@ + seq![0u8] + rest);
                lemma_nul_segments_step(cur@, rest);
            }
            if cur.len() > 0 {
                let ghost old_r = r@;
                let ghost cv = cur@;
                r.push(cur);
                proof {
                    assert(byte_views(r@) =~= byte_views(old_r).push(cv));
                    assert(byte_views(old_r).push(cv) =~= byte_views(old_r) + seq![cv]);
                }
                cur = Vec::new();
            }
            proof {
                assert(cur@ + rest =~= rest);
            }
        } else {
            proof {
                assert(cur@ + bytes@.skip(i as int) =~= (cur@.push(c)) + bytes@.skip(
                    i as int + 1,
                ));
            }
            cur.push(c);
        }
        i = i + 1;
    }
    proof {
        assert(cur@ + bytes@.skip(i as int) =~= cur@);
    }
    if cur.len() > 0 {
        proof {
            lemma_find_nul_bounds(cur@, 0);
            assert(find_nul(cur@, 0) == cur@.len());
            assert(spec_nul_segments(cur@) =~= seq![cur@]);
        }
        let ghost old_r = r@;
        let ghost cv = cur@;
        r.push(cur);
        proof {
            assert(byte_views(r@) =~= byte_views(old_r).push(cv));
            assert(byte_views(old_r).push(cv) =~= byte_views(old_r) + seq![cv]);
        }
    } else {
        proof {
            assert(byte_views(r@) + spec_nul_segments(cur@) =~= byte_views(r@));
        }
    }
    r
}

/// The standard input is the sole input exactly when no file was named
/// and the NUL-list mode is off.
pub fn uses_stdin(files_len: usize, null_sep: bool) -> (r: bool)
    ensures
        r == (files_len == 0 && !null_sep),
{
    files_len == 0 && !null_sep
}

} // verus!
