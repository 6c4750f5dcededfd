//! Merging the invocation record with the persisted settings and the
//! built-in defaults, and the display-path strip rule.

use vstd::prelude::*;

use crate::OutputFormat;
use crate::chars::{chars_to_string, push_all, to_chars};
use crate::cli::{Args, ArgsView, opt_str_view};

verus! {

/// The settings an optional per-user store may carry; a missing or
/// malformed store is the all-absent record.
#[derive(Debug)]
pub struct PersistedSettings {
    pub format: Option<OutputFormat>,
    pub numbers: Option<bool>,
    pub strip: Option<usize>,
    pub ansi_width: Option<usize>,
    pub utf8_width: Option<usize>,
    pub pretty_syntax: Option<String>,
}

/// Mathematical image of a `PersistedSettings`.
pub struct PersistedView {
    pub format: Option<OutputFormat>,
    pub numbers: Option<bool>,
    pub strip: Option<usize>,
    pub ansi_width: Option<usize>,
    pub utf8_width: Option<usize>,
    pub pretty_syntax: Option<Seq<char>>,
}

impl View for PersistedSettings {
    type V = PersistedView;

    open spec fn view(&self) -> PersistedView {
        PersistedView {
            format: self.format,
            numbers: self.numbers,
            strip: self.strip,
            ansi_width: self.ansi_width,
            utf8_width: self.utf8_width,
            pretty_syntax: opt_str_view(&self.pretty_syntax),
        }
    }
}

/// The all-absent persisted record.
pub open spec fn no_settings() -> PersistedView {
    PersistedView {
        format: None,
        numbers: None,
        strip: None,
        ansi_width: None,
        utf8_width: None,
        pretty_syntax: None,
    }
}

impl PersistedSettings {
    /// The record a missing or unreadable store yields.
    pub fn empty() -> (r: PersistedSettings)
        ensures
            r@ == no_settings(),
    {
        PersistedSettings {
            format: None,
            numbers: None,
            strip: None,
            ansi_width: None,
            utf8_width: None,
            pretty_syntax: None,
        }
    }
}

/// The fully-resolved settings record every downstream component reads;
/// never mutated after construction.
#[derive(Debug)]
pub struct EffectiveOptions {
    pub format: OutputFormat,
    pub line_numbers: bool,
    pub strip: usize,
    pub ansi_width: usize,
    pub utf8_width: usize,
    pub pretty_syntax: Option<String>,
}

/// Mathematical image of an `EffectiveOptions`.
pub struct EffectiveView {
    pub format: OutputFormat,
    pub line_numbers: bool,
    pub strip: usize,
    pub ansi_width: usize,
    pub utf8_width: usize,
    pub pretty_syntax: Option<Seq<char>>,
}

impl View for EffectiveOptions {
    type V = EffectiveView;

    open spec fn view(&self) -> EffectiveView {
        EffectiveView {
            format: self.format,
            line_numbers: self.line_numbers,
            strip: self.strip,
            ansi_width: self.ansi_width,
            utf8_width: self.utf8_width,
            pretty_syntax: opt_str_view(&self.pretty_syntax),
        }
    }
}

/// Invocation value when present, else persisted value, else default.
pub open spec fn pick<T>(invocation: Option<T>, persisted: Option<T>, default: T) -> T {
    match invocation {
        Some(v) => v,
        None => match persisted {
            Some(v) => v,
            None => default,
        },
    }
}

/// Invocation value when present, else persisted value, possibly absent.
pub open spec fn pick_opt<T>(invocation: Option<T>, persisted: Option<T>) -> Option<T> {
    match invocation {
        Some(v) => Some(v),
        None => persisted,
    }
}

/// Field-wise three-tier merge: invocation, else persisted store, else
/// the built-in defaults (markdown; width 80 for either box mode; no
/// numbering; strip 0; no syntax override).
pub open spec fn spec_merge(a: ArgsView, c: PersistedView) -> EffectiveView {
    EffectiveView {
        format: pick(a.format, c.format, OutputFormat::Markdown),
        line_numbers: a.line_numbers || c.numbers == Some(true),
        strip: pick(a.strip, c.strip, 0),
        ansi_width: pick(a.ansi_width, c.ansi_width, 80),
        utf8_width: pick(a.utf8_width, c.utf8_width, 80),
        pretty_syntax: pick_opt(a.pretty_syntax, c.pretty_syntax),
    }
}

impl EffectiveOptions {
    /// Combine the invocation record with the persisted settings and the
    /// built-in defaults, each field on its own.
    pub fn merge(args: &Args, persisted: &PersistedSettings) -> (r: EffectiveOptions)
        ensures
            r@ == spec_merge(args@, persisted@),
    {
        let format: OutputFormat = match args.format {
            Some(f) => f,
            None => match persisted.format {
                Some(f) => f,
                None => OutputFormat::Markdown,
            },
        };
        let line_numbers: bool = args.line_numbers || match persisted.numbers {
            Some(b) => b,
            None => false,
        };
        let strip: usize = match args.strip {
            Some(n) => n,
            None => match persisted.strip {
                Some(n) => n,
                None => 0,
            },
        };
        let ansi_width: usize = match args.ansi_width {
            Some(n) => n,
            None => match persisted.ansi_width {
                Some(n) => n,
                None => 80,
            },
        };
        let utf8_width: usize = match args.utf8_width {
            Some(n) => n,
            None => match persisted.utf8_width {
                Some(n) => n,
                None => 80,
            },
        };
        let pretty_syntax: Option<String> = match &args.pretty_syntax {
            Some(s) => Some(s.clone()),
            None => match &persisted.pretty_syntax {
                Some(s) => Some(s.clone()),
                None => None,
            },
        };
        EffectiveOptions { format, line_numbers, strip, ansi_width, utf8_width, pretty_syntax }
    }
}

/// The three-tier precedence law, stated field by field: an effective
/// field equals the invocation value when present, else the persisted
/// value when present, else the built-in default.
pub proof fn lemma_merge_precedence(a: ArgsView, c: PersistedView)
    ensures
        a.format is Some ==> spec_merge(a, c).format == a.format->0,
        a.format is None && c.format is Some ==> spec_merge(a, c).format == c.format->0,
        a.format is None && c.format is None ==> spec_merge(a, c).format
            == OutputFormat::Markdown,
        a.line_numbers ==> spec_merge(a, c).line_numbers,
        !a.line_numbers && c.numbers is Some ==> spec_merge(a, c).line_numbers == c.numbers->0,
        !a.line_numbers && c.numbers is None ==> !spec_merge(a, c).line_numbers,
        a.strip is Some ==> spec_merge(a, c).strip == a.strip->0,
        a.strip is None && c.strip is Some ==> spec_merge(a, c).strip == c.strip->0,
        a.strip is None && c.strip is None ==> spec_merge(a, c).strip == 0,
        a.ansi_width is Some ==> spec_merge(a, c).ansi_width == a.ansi_width->0,
        a.ansi_width is None && c.ansi_width is Some ==> spec_merge(a, c).ansi_width
            == c.ansi_width->0,
        a.ansi_width is None && c.ansi_width is None ==> spec_merge(a, c).ansi_width == 80,
        a.utf8_width is Some ==> spec_merge(a, c).utf8_width == a.utf8_width->0,
        a.utf8_width is None && c.utf8_width is Some ==> spec_merge(a, c).utf8_width
            == c.utf8_width->0,
        a.utf8_width is None && c.utf8_width is None ==> spec_merge(a, c).utf8_width == 80,
        a.pretty_syntax is Some ==> spec_merge(a, c).pretty_syntax == a.pretty_syntax,
        a.pretty_syntax is None ==> spec_merge(a, c).pretty_syntax == c.pretty_syntax,
{
}

// ---------------------------------------------------------------------
// stripping display paths
// ---------------------------------------------------------------------

/// Index of the first `/` in `s` at or after `from`, or `s.len()`.
pub open spec fn find_slash(s: Seq<char>, from: nat) -> nat
    decreases s.len() - from,
{
    if from >= s.len() {
        s.len()
    } else if s[from as int] == '/' {
        from
    } else {
        find_slash(s, from + 1)
    }
}

/// The non-empty `/`-separated segments of a path.
pub open spec fn spec_segments(s: Seq<char>) -> Seq<Seq<char>>
    decreases s.len(),
{
    if s.len() == 0 {
        Seq::empty()
    } else {
        let i = find_slash(s, 0);
        if i >= s.len() {
            seq![s]
        } else if i == 0 {
            spec_segments(s.skip(1))
        } else {
            seq![s.take(i as int)] + spec_segments(s.skip(i as int + 1))
        }
    }
}

/// The components of a path: a root component for an absolute path,
/// then the non-empty segments.
pub open spec fn spec_components(s: Seq<char>) -> Seq<Seq<char>> {
    if s.len() > 0 && s[0] == '/' {
        seq!["/"@] + spec_segments(s)
    } else {
        spec_segments(s)
    }
}

/// Join components back into a path; a leading root joins without a
/// separator of its own.
pub open spec fn spec_join_rest(cs: Seq<Seq<char>>) -> Seq<char>
    decreases cs.len(),
{
    if cs.len() == 0 {
        Seq::empty()
    } else if cs.len() == 1 {
        cs[0]
    } else {
        cs[0] + seq!['/'] + spec_join_rest(cs.drop_first())
    }
}

pub open spec fn spec_join_components(cs: Seq<Seq<char>>) -> Seq<char> {
    if cs.len() > 0 && cs[0] == "/"@ {
        seq!['/'] + spec_join_rest(cs.drop_first())
    } else {
        spec_join_rest(cs)
    }
}

/// What stripping `n` leading components leaves of a path: the final
/// component always stays; up to `n` of the leftmost components go.
pub open spec fn spec_strip_components(s: Seq<char>, n: nat) -> Seq<char> {
    let cs = spec_components(s);
    if cs.len() == 0 {
        s
    } else {
        let start: nat = if cs.len() > 1 {
            if n < (cs.len() - 1) as nat {
                n
            } else {
                (cs.len() - 1) as nat
            }
        } else {
            0
        };
        spec_join_components(cs.skip(start as int))
    }
}

proof fn lemma_find_slash_bounds(s: Seq<char>, from: nat)
    requires
        from <= s.len(),
    ensures
        from <= find_slash(s, from) <= s.len(),
        find_slash(s, from) < s.len() ==> s[find_slash(s, from) as int] == '/',
        forall|j: int| from <= j < find_slash(s, from) ==> s[j] != '/',
    decreases s.len() - from,
{
    if from < s.len() && s[from as int] != '/' {
        lemma_find_slash_bounds(s, from + 1);
    }
}

proof fn lemma_find_slash_prefix(s: Seq<char>, sl: nat, from: nat)
    requires
        from <= sl < s.len(),
        s[sl as int] == '/',
        forall|j: int| from <= j < sl ==> s[j] != '/',
    ensures
        find_slash(s, from) == sl,
    decreases sl - from,
{
    if from < sl {
        lemma_find_slash_prefix(s, sl, from + 1);
    }
}

/// On a text with no slash in `pre`, the segments of `pre + "/" + rest`
/// are `pre` (when non-empty) followed by the segments of `rest`.
proof fn lemma_segments_step(pre: Seq<char>, rest: Seq<char>)
    requires
        forall|j: int| 0 <= j < pre.len() ==> pre[j] != '/',
    ensures
        pre.len() == 0 ==> spec_segments(pre + seq!['/'] + rest) == spec_segments(rest),
        pre.len() > 0 ==> spec_segments(pre + seq!['/'] + rest) == seq![pre] + spec_segments(
            rest,
        ),
{
    let s = pre + seq!['/'] + rest;
    lemma_find_slash_prefix(s, pre.len() as nat, 0);
    if pre.len() == 0 {
        assert(s.skip(1) =~= rest);
    } else {
        assert(s.take(pre.len() as int) =~= pre);
        assert(s.skip(pre.len() as int + 1) =~= rest);
    }
}

/// Split a path into its non-empty `/`-separated segments.
fn split_segments(path: &Vec<char>) -> (r: Vec<Vec<char>>)
    ensures
        crate::chars::views_of(r@) == spec_segments(path@),
{
    let mut r: Vec<Vec<char>> = Vec::new();
    let mut cur: Vec<char> = Vec::new();
    let mut i: usize = 0;
    proof {
        assert(cur@ + path@.skip(0) =~= path@);
        assert(crate::chars::views_of(r@) + spec_segments(path@) =~= spec_segments(path@));
    }
    while i < path.len()
        invariant
            i <= path@.len(),
            forall|j: int| 0 <= j < cur@.len() ==> cur@[j] != '/',
            spec_segments(path@) == crate::chars::views_of(r@) + spec_segments(
                cur@ + path@.skip(i as int),
            ),
        decreases path@.len() - i,
    {
        let c = path[i];
        if c == '/' {
            let ghost rest = path@.skip(i as int + 1);
            proof {
                assert(cur@ + path@.skip(i as int) =~= cur@ + seq!['/'] + rest);
                lemma_segments_step(cur@, rest);
            }
            if cur.len() > 0 {
                let ghost old_r = r@;
                let ghost cv = cur@;
                r.push(cur);
                proof {
                    assert(crate::chars::views_of(r@) =~= crate::chars::views_of(old_r).push(cv));
                    assert(crate::chars::views_of(old_r).push(cv) =~= crate::chars::views_of(old_r)
                        + seq![cv]);
                }
                cur = Vec::new();
            }
            proof {
                assert(cur@ + rest =~= rest);
            }
        } else {
            proof {
                assert(cur@ + path@.skip(i as int) =~= (cur@.push(c)) + path@.skip(i as int + 1));
            }
            cur.push(c);
        }
        i = i + 1;
    }
    proof {
        assert(cur@ + path@.skip(i as int) =~= cur@);
    }
    if cur.len() > 0 {
        proof {
            lemma_find_slash_bounds(cur@, 0);
            assert(find_slash(cur@, 0) == cur@.len());
            assert(spec_segments(cur@) =~= seq![cur@]);
        }
        let ghost old_r = r@;
        let ghost cv = cur@;
        r.push(cur);
        proof {
            assert(crate::chars::views_of(r@) =~= crate::chars::views_of(old_r).push(cv));
            assert(crate::chars::views_of(old_r).push(cv) =~= crate::chars::views_of(old_r) + seq![
                cv,
            ]);
        }
    } else {
        proof {
            assert(crate::chars::views_of(r@) + spec_segments(cur@) =~= crate::chars::views_of(
                r@,
            ));
        }
    }
    r
}

/// Remove up to `n` leading path components from a display path, always
/// keeping the final one.
pub fn strip_components(path: &str, n: usize) -> (r: String)
    ensures
        r@ == spec_strip_components(path@, n as nat),
{
    let pc = to_chars(path);
    let segs = split_segments(&pc);
    let absolute = pc.len() > 0 && pc[0] == '/';
    let ghost cs = spec_components(path@);
    proof {
        lemma_segments_wf(path@);
        reveal_strlit("/");
    }
    // count of components, root included
    let total: usize = if absolute {
        segs.len() + 1
    } else {
        segs.len()
    };
    proof {
        if absolute {
            assert(cs =~= seq!["/"@] + crate::chars::views_of(segs@));
        } else {
            assert(cs =~= crate::chars::views_of(segs@));
        }
    }
    if total == 0 {
        proof {
            assert(spec_strip_components(path@, n as nat) == path@);
        }
        return chars_to_string(&pc);
    }
    let start: usize = if total > 1 {
        if n < total - 1 {
            n
        } else {
            total - 1
        }
    } else {
        0
    };
    // index of the first kept segment, and whether the root is kept
    let keep_root = absolute && start == 0;
    let seg_start: usize = if absolute && start > 0 {
        start - 1
    } else {
        start
    };
    let mut out: Vec<char> = Vec::new();
    if keep_root {
        out.push('/');
        proof {
            assert(cs.skip(start as int)[0] == "/"@);
            assert(cs.skip(start as int).drop_first() =~= crate::chars::views_of(segs@).skip(
                seg_start as int,
            ));
            assert(out@ =~= seq!['/']);
        }
    } else {
        proof {
            if cs.skip(start as int).len() > 0 {
                assert(cs.skip(start as int) =~= crate::chars::views_of(segs@).skip(
                    seg_start as int,
                ));
                if absolute {
                    assert(crate::chars::views_of(segs@)[seg_start as int]
                        == spec_segments(path@)[seg_start as int]);
                }
            }
        }
    }
    let mut k: usize = seg_start;
    proof {
        assert(segs@.len() >= seg_start);
    }
    while k < segs.len()
        invariant
            seg_start <= k <= segs@.len(),
            keep_root ==> out@ == seq!['/'] + spec_join_partial(
                crate::chars::views_of(segs@),
                seg_start as int,
                k as int,
            ),
            !keep_root ==> out@ == spec_join_partial(
                crate::chars::views_of(segs@),
                seg_start as int,
                k as int,
            ),
        decreases segs@.len() - k,
    {
        if k > seg_start {
            out.push('/');
        }
        push_all(&mut out, &segs[k]);
        k = k + 1;
        proof {
            lemma_join_partial_step(crate::chars::views_of(segs@), seg_start as int, k as int);
            if keep_root {
                assert(out@ =~= seq!['/'] + spec_join_partial(
                    crate::chars::views_of(segs@),
                    seg_start as int,
                    k as int,
                ));
            } else {
                assert(out@ =~= spec_join_partial(
                    crate::chars::views_of(segs@),
                    seg_start as int,
                    k as int,
                ));
            }
        }
    }
    proof {
        lemma_join_partial_whole(crate::chars::views_of(segs@), seg_start as int);
        if keep_root {
            assert(spec_join_components(cs.skip(start as int)) =~= seq!['/'] + spec_join_rest(
                crate::chars::views_of(segs@).skip(seg_start as int),
            ));
        } else {
            let kept = cs.skip(start as int);
            assert(kept =~= crate::chars::views_of(segs@).skip(seg_start as int));
            if kept.len() > 0 && kept[0] == "/"@ {
                // a kept leading segment equal to "/" cannot occur: a
                // segment never starts with the separator
                assert(kept[0] == spec_segments(path@)[seg_start as int]);
                assert(spec_segments(path@)[seg_start as int][0] != '/');
                assert(false);
            }
        }
        assert(out@ =~= spec_strip_components(path@, n as nat));
    }
    chars_to_string(&out)
}

// ---------------------------------------------------------------------
// path extensions
// ---------------------------------------------------------------------

/// What follows the last occurrence of `c` in `s`; all of `s` when `c`
/// does not occur.
pub open spec fn after_last(s: Seq<char>, c: char) -> Seq<char>
    decreases s.len(),
{
    if s.len() == 0 {
        s
    } else if s.last() == c {
        Seq::empty()
    } else {
        after_last(s.drop_last(), c).push(s.last())
    }
}

/// The extension of a display path: the part of the file name after its
/// last dot, empty when the name has no dot or only a leading one.
pub open spec fn spec_extension(path: Seq<char>) -> Seq<char> {
    let name = after_last(path, '/');
    if !name.contains('.') {
        Seq::empty()
    } else {
        let e = after_last(name, '.');
        if name.len() == e.len() + 1 {
            Seq::empty()
        } else {
            e
        }
    }
}

proof fn lemma_after_last_at(s: Seq<char>, c: char, k: int)
    requires
        0 <= k < s.len(),
        s[k] == c,
        forall|j: int| k < j < s.len() ==> s[j] != c,
    ensures
        after_last(s, c) == s.skip(k + 1),
    decreases s.len(),
{
    if k == s.len() - 1 {
        assert(s.skip(k + 1) =~= Seq::<char>::empty());
    } else {
        lemma_after_last_at(s.drop_last(), c, k);
        assert(after_last(s, c) == after_last(s.drop_last(), c).push(s.last()));
        assert(s.drop_last().skip(k + 1).push(s.last()) =~= s.skip(k + 1));
    }
}

proof fn lemma_after_last_none(s: Seq<char>, c: char)
    requires
        forall|j: int| 0 <= j < s.len() ==> s[j] != c,
    ensures
        after_last(s, c) == s,
    decreases s.len(),
{
    if s.len() > 0 {
        lemma_after_last_none(s.drop_last(), c);
        assert(s.drop_last().push(s.last()) =~= s);
    }
}

/// The extension of a display path, as `Path::extension` reads it
/// (empty when there is none).
pub fn path_extension(pc: &Vec<char>) -> (r: Vec<char>)
    ensures
        r@ == spec_extension(pc@),
{
    // last separator, if any
    let mut name_start: usize = 0;
    let mut i: usize = 0;
    while i < pc.len()
        invariant
            i <= pc@.len(),
            name_start <= i,
            name_start > 0 ==> pc@[name_start - 1] == '/',
            forall|j: int| name_start <= j < i ==> pc@[j] != '/',
        decreases pc@.len() - i,
    {
        if pc[i] == '/' {
            name_start = i + 1;
        }
        i = i + 1;
    }
    let ghost name = after_last(pc@, '/');
    proof {
        if name_start > 0 {
            lemma_after_last_at(pc@, '/', name_start - 1);
        } else {
            lemma_after_last_none(pc@, '/');
        }
        assert(name =~= pc@.skip(name_start as int));
    }
    // last dot inside the name, if any
    let mut dot: usize = 0;
    let mut has_dot = false;
    let mut k: usize = name_start;
    while k < pc.len()
        invariant
            name_start <= k <= pc@.len(),
            has_dot ==> name_start <= dot < k && pc@[dot as int] == '.',
            has_dot ==> forall|j: int| dot < j < k ==> pc@[j] != '.',
            !has_dot ==> forall|j: int| name_start <= j < k ==> pc@[j] != '.',
        decreases pc@.len() - k,
    {
        if pc[k] == '.' {
            dot = k;
            has_dot = true;
        }
        k = k + 1;
    }
    if !has_dot {
        proof {
            assert(forall|j: int| 0 <= j < name.len() ==> name[j] != '.');
            assert(!name.contains('.'));
        }
        return Vec::new();
    }
    proof {
        assert(name[dot - name_start] == '.');
        assert(name.contains('.'));
        lemma_after_last_at(name, '.', dot - name_start);
        assert(after_last(name, '.') =~= pc@.skip(dot as int + 1));
    }
    if dot == name_start {
        proof {
            assert(name.len() == after_last(name, '.').len() + 1);
        }
        return Vec::new();
    }
    let mut r: Vec<char> = Vec::new();
    let mut m: usize = dot + 1;
    while m < pc.len()
        invariant
            dot + 1 <= m <= pc@.len(),
            r@ == pc@.subrange(dot as int + 1, m as int),
        decreases pc@.len() - m,
    {
        r.push(pc[m]);
        m = m + 1;
        proof {
            assert(r@ =~= pc@.subrange(dot as int + 1, m as int));
        }
    }
    proof {
        assert(r@ =~= pc@.skip(dot as int + 1));
        assert(name.len() != after_last(name, '.').len() + 1);
    }
    r
}

/// The join of `cs[from..k]` with `/` separators.
pub open spec fn spec_join_partial(cs: Seq<Seq<char>>, from: int, k: int) -> Seq<char>
    decreases k - from,
{
    if from >= k {
        Seq::empty()
    } else if k == from + 1 {
        cs[from]
    } else {
        spec_join_partial(cs, from, k - 1) + seq!['/'] + cs[k - 1]
    }
}

proof fn lemma_join_partial_step(cs: Seq<Seq<char>>, from: int, k: int)
    requires
        from < k,
    ensures
        k == from + 1 ==> spec_join_partial(cs, from, k) == cs[from],
        k > from + 1 ==> spec_join_partial(cs, from, k) == spec_join_partial(cs, from, k - 1)
            + seq!['/'] + cs[k - 1],
{
}

/// Joining every segment from `from` equals the recursive join.
proof fn lemma_join_partial_whole(cs: Seq<Seq<char>>, from: int)
    requires
        0 <= from <= cs.len(),
    ensures
        spec_join_partial(cs, from, cs.len() as int) == spec_join_rest(cs.skip(from)),
    decreases cs.len() - from,
{
    if from < cs.len() {
        lemma_join_partial_whole_helper(cs, from, cs.len() as int);
        assert(cs.skip(from).take(cs.len() - from) =~= cs.skip(from));
    } else {
        assert(cs.skip(from) =~= Seq::<Seq<char>>::empty());
    }
}

/// Every segment is non-empty and free of the separator's first
/// character; there are never more segments than characters, and an
/// absolute path has strictly fewer.
proof fn lemma_segments_wf(s: Seq<char>)
    ensures
        spec_segments(s).len() <= s.len(),
        s.len() > 0 && s[0] == '/' ==> spec_segments(s).len() <= s.len() - 1,
        forall|i: int|
            0 <= i < spec_segments(s).len() ==> (#[trigger] spec_segments(s)[i]).len() > 0
                && spec_segments(s)[i][0] != '/',
    decreases s.len(),
{
    if s.len() > 0 {
        lemma_find_slash_bounds(s, 0);
        let i = find_slash(s, 0);
        if i >= s.len() {
        } else if i == 0 {
            lemma_segments_wf(s.skip(1));
        } else {
            lemma_segments_wf(s.skip(i as int + 1));
        }
    }
}

/// `spec_join_rest` unrolled from the back.
proof fn lemma_join_rest_unsnoc(cs: Seq<Seq<char>>)
    requires
        cs.len() >= 1,
    ensures
        cs.len() == 1 ==> spec_join_rest(cs) == cs[0],
        cs.len() > 1 ==> spec_join_rest(cs) == spec_join_rest(cs.drop_last()) + seq!['/']
            + cs.last(),
    decreases cs.len(),
{
    if cs.len() > 1 {
        lemma_join_rest_unsnoc(cs.drop_first());
        assert(cs.drop_first().drop_last() =~= cs.drop_last().drop_first());
        if cs.len() > 2 {
            assert(spec_join_rest(cs.drop_last()) == cs.drop_last()[0] + seq!['/']
                + spec_join_rest(cs.drop_last().drop_first()));
        }
    }
}

proof fn lemma_join_partial_whole_helper(cs: Seq<Seq<char>>, from: int, k: int)
    requires
        0 <= from < k <= cs.len(),
    ensures
        spec_join_partial(cs, from, k) == spec_join_rest(cs.skip(from).take(k - from)),
    decreases k - from,
{
    let sub = cs.skip(from).take(k - from);
    if k == from + 1 {
        assert(sub =~= seq![cs[from]]);
    } else {
        lemma_join_partial_whole_helper(cs, from, k - 1);
        lemma_join_rest_unsnoc(sub);
        assert(sub.drop_last() =~= cs.skip(from).take(k - 1 - from));
        assert(sub.last() == cs[k - 1]);
    }
}

} // verus!
