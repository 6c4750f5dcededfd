//! Character-level utilities shared by the resolver and the renderers.
//!
//! Text is handled as `Vec<char>` inside the library so that every
//! transformation can be specified over `Seq<char>`; conversion back to
//! `String` happens once, at the public boundary.

use vstd::prelude::*;

verus! {

/// Largest text length (in characters) the renderers accept; keeps all
/// width arithmetic inside `usize` with room to spare.
pub const MAX_TEXT: usize = 0x0800_0000;

// ---------------------------------------------------------------------
// conversions between &str / String and Vec<char>
// ---------------------------------------------------------------------

/// Collect the characters of a string slice.
pub fn to_chars(s: &str) -> (v: Vec<char>)
    ensures
        v@ == s@,
{
    let mut v: Vec<char> = Vec::new();
    for c in it: s.chars()
        invariant
            v@ =~= it.seq().take(it.index() as int).map_values(|x: char| x),
            it.seq() == s@,
    {
        v.push(c);
    }
    proof {
        assert(v@ =~= s@);
    }
    v
}

/// Relies on `String`'s `FromIterator<char>` impl: collecting the
/// characters of `v` yields the string with exactly those characters.
#[verifier::external_body]
pub fn chars_to_string(v: &Vec<char>) -> (r: String)
    ensures
        r@ == v@,
{
    v.iter().collect()
}

/// String equality, specified over the character views.
pub fn str_eq(a: &str, b: &str) -> (r: bool)
    ensures
        r == (a@ == b@),
{
    let sa: String = a.to_owned();
    let sb: String = b.to_owned();
    sa == sb
}

// ---------------------------------------------------------------------
// building blocks for rendered output
// ---------------------------------------------------------------------

/// Append every character of `s` to `out`.
pub fn push_all(out: &mut Vec<char>, s: &Vec<char>)
    ensures
        final(out)@ == old(out)@ + s@,
{
    let mut i: usize = 0;
    while i < s.len()
        invariant
            i <= s@.len(),
            out@ == old(out)@ + s@.take(i as int),
        decreases s@.len() - i,
    {
        out.push(s[i]);
        i = i + 1;
        proof {
            assert(out@ =~= old(out)@ + s@.take(i as int));
        }
    }
    proof {
        assert(out@ =~= old(out)@ + s@);
    }
}

/// Append every character of the string slice `s` to `out`.
pub fn push_str_chars(out: &mut Vec<char>, s: &str)
    ensures
        final(out)@ == old(out)@ + s@,
{
    let v = to_chars(s);
    push_all(out, &v);
}

/// `n` space characters.
pub open spec fn spaces(n: nat) -> Seq<char> {
    Seq::new(n, |i: int| ' ')
}

/// Append `n` spaces to `out`.
pub fn push_spaces(out: &mut Vec<char>, n: usize)
    ensures
        final(out)@ == old(out)@ + spaces(n as nat),
{
    let mut i: usize = 0;
    while i < n
        invariant
            i <= n,
            out@ == old(out)@ + spaces(i as nat),
        decreases n - i,
    {
        out.push(' ');
        i = i + 1;
        proof {
            assert(out@ =~= old(out)@ + spaces(i as nat));
        }
    }
}

/// `n` copies of the character `c`.
pub open spec fn repeat_char(c: char, n: nat) -> Seq<char> {
    Seq::new(n, |i: int| c)
}

/// Append `n` copies of `c` to `out`.
pub fn push_repeat(out: &mut Vec<char>, c: char, n: usize)
    ensures
        final(out)@ == old(out)@ + repeat_char(c, n as nat),
{
    let mut i: usize = 0;
    while i < n
        invariant
            i <= n,
            out@ == old(out)@ + repeat_char(c, i as nat),
        decreases n - i,
    {
        out.push(c);
        i = i + 1;
        proof {
            assert(out@ =~= old(out)@ + repeat_char(c, i as nat));
        }
    }
}

// ---------------------------------------------------------------------
// decimal numbers
// ---------------------------------------------------------------------

pub open spec fn digit_char(d: nat) -> char
    recommends
        d < 10,
{
    ((d + 48) as u8) as char
}

/// Decimal representation of `n`, most significant digit first.
pub open spec fn spec_digits(n: nat) -> Seq<char>
    decreases n,
{
    if n < 10 {
        seq![digit_char(n)]
    } else {
        spec_digits(n / 10).push(digit_char(n % 10))
    }
}

/// Append the decimal representation of `n` to `out`.
pub fn push_usize(out: &mut Vec<char>, n: usize)
    ensures
        final(out)@ == old(out)@ + spec_digits(n as nat),
    decreases n,
{
    if n < 10 {
        out.push((48 + (n as u8)) as char);
        proof {
            assert(out@ =~= old(out)@ + spec_digits(n as nat));
        }
    } else {
        push_usize(out, n / 10);
        out.push((48 + ((n % 10) as u8)) as char);
        proof {
            assert(out@ =~= old(out)@ + spec_digits(n as nat));
        }
    }
}

/// The decimal representation of `n` on its own.
pub fn usize_digits(n: usize) -> (v: Vec<char>)
    ensures
        v@ == spec_digits(n as nat),
{
    let mut v: Vec<char> = Vec::new();
    push_usize(&mut v, n);
    v
}

// ---------------------------------------------------------------------
// parsing decimal numbers (the `--strip` / width flag values)
// ---------------------------------------------------------------------

pub open spec fn is_ascii_digit(c: char) -> bool {
    '0' <= c && c <= '9'
}

pub open spec fn digit_val(c: char) -> nat {
    (c as int - 48) as nat
}

pub open spec fn all_digits(s: Seq<char>) -> bool {
    forall|i: int| 0 <= i < s.len() ==> is_ascii_digit(#[trigger] s[i])
}

/// Value of a digit string, most significant digit first.
pub open spec fn digits_val(s: Seq<char>) -> nat
    decreases s.len(),
{
    if s.len() == 0 {
        0
    } else {
        digits_val(s.drop_last()) * 10 + digit_val(s.last())
    }
}

/// The digit part of a number token: an optional leading `+` is allowed,
/// as `usize::from_str` allows one.
pub open spec fn number_body(s: Seq<char>) -> Seq<char> {
    if s.len() > 0 && s[0] == '+' {
        s.drop_first()
    } else {
        s
    }
}

pub open spec fn is_valid_number(s: Seq<char>) -> bool {
    &&& number_body(s).len() > 0
    &&& all_digits(number_body(s))
    &&& digits_val(number_body(s)) <= usize::MAX
}

/// What parsing a number token yields: the value when the token is a
/// decimal numeral that fits in `usize`, nothing otherwise.
pub open spec fn spec_parse_usize(s: Seq<char>) -> Option<usize> {
    if is_valid_number(s) {
        Some(digits_val(number_body(s)) as usize)
    } else {
        None
    }
}

proof fn lemma_digits_val_grows(s: Seq<char>, i: int)
    requires
        0 <= i <= s.len(),
    ensures
        digits_val(s.take(i)) <= digits_val(s),
    decreases s.len() - i,
{
    if i < s.len() {
        lemma_digits_val_grows(s, i + 1);
        let t = s.take(i + 1);
        assert(t.drop_last() =~= s.take(i));
        assert(digits_val(s.take(i)) * 10 + digit_val(t.last()) >= digits_val(s.take(i))) by (nonlinear_arith);
    } else {
        assert(s.take(i) =~= s);
    }
}

/// Parse a decimal numeral as `usize::from_str` would.
pub fn parse_usize(s: &Vec<char>) -> (r: Option<usize>)
    ensures
        r == spec_parse_usize(s@),
{
    let ghost whole: Seq<char> = s@;
    let mut i: usize = 0;
    if s.len() > 0 && s[0] == '+' {
        i = 1;
    }
    proof {
        assert(number_body(whole) =~= whole.skip(i as int));
    }
    let ghost body: Seq<char> = whole.skip(i as int);
    if i >= s.len() {
        return None;
    }
    let start = i;
    let mut acc: usize = 0;
    while i < s.len()
        invariant
            start <= i <= s@.len(),
            s@ == whole,
            body == whole.skip(start as int),
            body == number_body(whole),
            body.len() > 0,
            all_digits(body.take(i - start)),
            acc == digits_val(body.take(i - start)),
        decreases s@.len() - i,
    {
        let c = s[i];
        if !('0' <= c && c <= '9') {
            proof {
                assert(body[i - start] == c);
                assert(!all_digits(body));
            }
            return None;
        }
        let d: usize = (c as usize) - 48;
        if acc > (usize::MAX - d) / 10 {
            proof {
                // the value read so far already exceeds what fits
                let p = body.take(i - start + 1);
                assert(p.drop_last() =~= body.take(i - start));
                assert(digits_val(p) > usize::MAX) by (nonlinear_arith)
                    requires
                        digits_val(p) == acc * 10 + digit_val(body[i - start]),
                        digit_val(body[i - start]) == d,
                        d <= 9,
                        acc > (usize::MAX - d) / 10,
                ;
                lemma_digits_val_grows(body, i - start + 1);
                assert(digits_val(body) > usize::MAX);
            }
            return None;
        }
        proof {
            assert(acc * 10 + d <= usize::MAX) by (nonlinear_arith)
                requires
                    d <= 9,
                    acc <= (usize::MAX - d) / 10,
            ;
            let p = body.take(i - start + 1);
            assert(p.drop_last() =~= body.take(i - start));
            assert(digits_val(p) == acc * 10 + d);
        }
        acc = acc * 10 + d;
        i = i + 1;
    }
    proof {
        assert(body.take(i - start) =~= body);
    }
    Some(acc)
}

// ---------------------------------------------------------------------
// splitting text into lines, as `str::lines` does
// ---------------------------------------------------------------------

/// A line loses a trailing carriage return when it was terminated by
/// a newline ( `\r\n` endings).
pub open spec fn strip_cr(l: Seq<char>) -> Seq<char> {
    if l.len() > 0 && l.last() == '\r' {
        l.drop_last()
    } else {
        l
    }
}

/// Index of the first newline in `s` at or after `from`, or `s.len()`.
pub open spec fn find_nl(s: Seq<char>, from: nat) -> nat
    decreases s.len() - from,
{
    if from >= s.len() {
        s.len()
    } else if s[from as int] == '\n' {
        from
    } else {
        find_nl(s, from + 1)
    }
}

/// The lines of `s`, with `\n` and `\r\n` endings removed and no entry
/// for a final empty segment, as `str::lines` yields them.
pub open spec fn spec_lines(s: Seq<char>) -> Seq<Seq<char>>
    decreases s.len(),
{
    if s.len() == 0 {
        Seq::empty()
    } else {
        let i = find_nl(s, 0);
        if i >= s.len() {
            seq![s]
        } else {
            seq![strip_cr(s.take(i as int))] + spec_lines(s.skip(i as int + 1))
        }
    }
}

/// The character views of a list of character vectors.
pub open spec fn views_of(r: Seq<Vec<char>>) -> Seq<Seq<char>> {
    r.map_values(|v: Vec<char>| v@)
}

proof fn lemma_find_nl_bounds(s: Seq<char>, from: nat)
    requires
        from <= s.len(),
    ensures
        from <= find_nl(s, from) <= s.len(),
        find_nl(s, from) < s.len() ==> s[find_nl(s, from) as int] == '\n',
        forall|j: int| from <= j < find_nl(s, from) ==> s[j] != '\n',
    decreases s.len() - from,
{
    if from < s.len() && s[from as int] != '\n' {
        lemma_find_nl_bounds(s, from + 1);
    }
}

/// On a text with no newline before position `k`, the first line runs to
/// the first newline of the remainder.
proof fn lemma_lines_step(pre: Seq<char>, rest: Seq<char>)
    requires
        forall|j: int| 0 <= j < pre.len() ==> pre[j] != '\n',
    ensures
        spec_lines(pre + seq!['\n'] + rest) == seq![strip_cr(pre)] + spec_lines(rest),
{
    let s = pre + seq!['\n'] + rest;
    assert(s.len() > 0);
    lemma_find_nl_prefix(s, pre.len() as nat, 0);
    let i = find_nl(s, 0);
    assert(i == pre.len());
    assert(s.take(i as int) =~= pre);
    assert(s.skip(i as int + 1) =~= rest);
}

/// `find_nl` finds exactly the known first newline position.
proof fn lemma_find_nl_prefix(s: Seq<char>, nl: nat, from: nat)
    requires
        from <= nl < s.len(),
        s[nl as int] == '\n',
        forall|j: int| from <= j < nl ==> s[j] != '\n',
    ensures
        find_nl(s, from) == nl,
    decreases nl - from,
{
    if from < nl {
        lemma_find_nl_prefix(s, nl, from + 1);
    }
}

/// Split `content` into lines as `str::lines` does.
pub fn split_lines(content: &Vec<char>) -> (r: Vec<Vec<char>>)
    ensures
        views_of(r@) == spec_lines(content@),
{
    let mut r: Vec<Vec<char>> = Vec::new();
    let mut cur: Vec<char> = Vec::new();
    let mut i: usize = 0;
    proof {
        assert(cur@ + content@.skip(0) =~= content@);
        assert(views_of(r@) + spec_lines(content@) =~= spec_lines(content@));
    }
    while i < content.len()
        invariant
            i <= content@.len(),
            forall|j: int| 0 <= j < cur@.len() ==> cur@[j] != '\n',
            spec_lines(content@) == views_of(r@) + spec_lines(cur@ + content@.skip(i as int)),
        decreases content@.len() - i,
    {
        let c = content[i];
        if c == '\n' {
            let ghost rest = content@.skip(i as int + 1);
            proof {
                assert(cur@ + content@.skip(i as int) =~= cur@ + seq!['\n'] + rest);
                lemma_lines_step(cur@, rest);
            }
            let mut done = cur;
            let ghost raw = done@;
            if done.len() > 0 && done[done.len() - 1] == '\r' {
                let _last = done.pop();
            }
            proof {
                assert(done@ =~= strip_cr(raw));
            }
            let ghost old_r = r@;
            r.push(done);
            proof {
                assert(views_of(r@) =~= views_of(old_r).push(strip_cr(raw)));
                assert(views_of(old_r).push(strip_cr(raw)) =~= views_of(old_r) + seq![
                    strip_cr(raw),
                ]);
            }
            cur = Vec::new();
            proof {
                assert(cur@ + rest =~= rest);
                assert(spec_lines(content@) =~= views_of(r@) + spec_lines(cur@ + rest));
            }
        } else {
            proof {
                assert(cur@ + content@.skip(i as int) =~= (cur@.push(c)) + content@.skip(
                    i as int + 1,
                ));
            }
            cur.push(c);
        }
        i = i + 1;
    }
    proof {
        assert(cur@ + content@.skip(i as int) =~= cur@);
    }
    if cur.len() > 0 {
        proof {
            lemma_find_nl_bounds(cur@, 0);
            assert(find_nl(cur@, 0) == cur@.len());
            assert(spec_lines(cur@) =~= seq![cur@]);
        }
        let ghost old_r = r@;
        let ghost cv = cur@;
        r.push(cur);
        proof {
            assert(views_of(r@) =~= views_of(old_r).push(cv));
            assert(views_of(old_r).push(cv) =~= views_of(old_r) + seq![cv]);
            assert(views_of(r@) =~= spec_lines(content@));
        }
    } else {
        proof {
            assert(views_of(r@) + spec_lines(cur@) =~= views_of(r@));
        }
    }
    r
}

/// There are never more lines than characters, and no line is longer
/// than the text it came from.
pub proof fn lemma_lines_bounds(s: Seq<char>)
    ensures
        spec_lines(s).len() <= s.len(),
        forall|j: int|
            0 <= j < spec_lines(s).len() ==> (#[trigger] spec_lines(s)[j]).len() <= s.len(),
    decreases s.len(),
{
    if s.len() > 0 {
        lemma_find_nl_bounds(s, 0);
        let i = find_nl(s, 0);
        if i < s.len() {
            lemma_lines_bounds(s.skip(i as int + 1));
        }
    }
}

/// A crude but sufficient bound on the width of a decimal numeral.
pub proof fn lemma_digits_len_crude(n: nat)
    ensures
        spec_digits(n).len() <= n + 1,
    decreases n,
{
    if n >= 10 {
        lemma_digits_len_crude(n / 10);
    }
}

// ---------------------------------------------------------------------
// byte lengths (the box renderers align on UTF-8 byte widths)
// ---------------------------------------------------------------------

/// Number of bytes the UTF-8 encoding of `c` takes.
pub open spec fn char_utf8_len(c: char) -> nat {
    if (c as u32) < 0x80 {
        1
    } else if (c as u32) < 0x800 {
        2
    } else if (c as u32) < 0x10000 {
        3
    } else {
        4
    }
}

/// Number of bytes the UTF-8 encoding of `s` takes;
/// `lemma_byte_len_encode_utf8` holds this to the encoding itself.
pub open spec fn byte_len(s: Seq<char>) -> nat
    decreases s.len(),
{
    if s.len() == 0 {
        0
    } else {
        byte_len(s.drop_last()) + char_utf8_len(s.last())
    }
}

pub proof fn lemma_byte_len_bound(s: Seq<char>)
    ensures
        byte_len(s) <= 4 * s.len(),
    decreases s.len(),
{
    if s.len() > 0 {
        lemma_byte_len_bound(s.drop_last());
    }
}

proof fn lemma_byte_len_first(s: Seq<char>)
    requires
        s.len() > 0,
    ensures
        byte_len(s) == char_utf8_len(s[0]) + byte_len(s.drop_first()),
    decreases s.len(),
{
    if s.len() == 1 {
        assert(s.drop_last() =~= Seq::<char>::empty());
        assert(s.drop_first() =~= Seq::<char>::empty());
    } else {
        lemma_byte_len_first(s.drop_last());
        assert(s.drop_last().drop_first() =~= s.drop_first().drop_last());
        assert(s.drop_first().last() == s.last());
    }
}

/// `byte_len` is indeed the length of the UTF-8 encoding.
pub proof fn lemma_byte_len_encode_utf8(s: Seq<char>)
    ensures
        byte_len(s) == vstd::utf8::encode_utf8(s).len(),
    decreases s.len(),
{
    if s.len() > 0 {
        lemma_byte_len_encode_utf8(s.drop_first());
        lemma_byte_len_first(s);
        vstd::utf8::char_is_scalar(s[0]);
        assert(vstd::utf8::encode_scalar(s[0] as u32).len() == char_utf8_len(s[0]));
    }
}

/// UTF-8 byte length of `v`.
pub fn byte_len_of(v: &Vec<char>) -> (n: usize)
    requires
        v@.len() <= MAX_TEXT,
    ensures
        n == byte_len(v@),
{
    proof {
        lemma_byte_len_bound(v@);
    }
    let mut n: usize = 0;
    let mut i: usize = 0;
    while i < v.len()
        invariant
            i <= v@.len(),
            v@.len() <= MAX_TEXT,
            n == byte_len(v@.take(i as int)),
        decreases v@.len() - i,
    {
        let c = v[i];
        let w: usize = if (c as u32) < 0x80 {
            1
        } else if (c as u32) < 0x800 {
            2
        } else if (c as u32) < 0x10000 {
            3
        } else {
            4
        };
        proof {
            lemma_byte_len_bound(v@.take(i as int));
            let t = v@.take(i as int + 1);
            assert(t.drop_last() =~= v@.take(i as int));
            assert(byte_len(t) == n + w);
        }
        n = n + w;
        i = i + 1;
    }
    proof {
        assert(v@.take(i as int) =~= v@);
    }
    n
}

// ---------------------------------------------------------------------
// alignment helpers
// ---------------------------------------------------------------------

/// `s` right-aligned in a field of `w` characters.
pub open spec fn pad_left(s: Seq<char>, w: nat) -> Seq<char> {
    if s.len() >= w {
        s
    } else {
        spaces((w - s.len()) as nat) + s
    }
}

/// Append `s` right-aligned in a field of `w` characters.
pub fn push_pad_left(out: &mut Vec<char>, s: &Vec<char>, w: usize)
    ensures
        final(out)@ == old(out)@ + pad_left(s@, w as nat),
{
    if s.len() < w {
        push_spaces(out, w - s.len());
    }
    push_all(out, s);
    proof {
        assert(out@ =~= old(out)@ + pad_left(s@, w as nat));
    }
}

} // verus!
