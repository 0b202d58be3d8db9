//! Character-level text handling shared by every parser of the crate.
//!
//! Strings are modelled as `Seq<char>`.  The helpers here follow the
//! behaviour of the corresponding `str` methods of std (`trim`, `lines`,
//! `split`, `starts_with`, ...), restated as spec functions.

use vstd::prelude::*;
use vstd::std_specs::iter::IteratorSpec;

verus! {

broadcast use vstd::string::axiom_spec_iter;

/// The Unicode `White_Space` property, which is what `char::is_whitespace`
/// (and so `str::trim`) and the regex class `\s` test.
pub open spec fn is_ws(c: char) -> bool {
    ||| ('\u{9}' <= c && c <= '\u{d}')
    ||| c == ' '
    ||| c == '\u{85}'
    ||| c == '\u{a0}'
    ||| c == '\u{1680}'
    ||| ('\u{2000}' <= c && c <= '\u{200a}')
    ||| c == '\u{2028}'
    ||| c == '\u{2029}'
    ||| c == '\u{202f}'
    ||| c == '\u{205f}'
    ||| c == '\u{3000}'
}

pub fn is_whitespace(c: char) -> (r: bool)
    ensures
        r == is_ws(c),
{
    ('\u{9}' <= c && c <= '\u{d}') || c == ' ' || c == '\u{85}' || c == '\u{a0}' || c == '\u{1680}'
        || ('\u{2000}' <= c && c <= '\u{200a}') || c == '\u{2028}' || c == '\u{2029}' || c
        == '\u{202f}' || c == '\u{205f}' || c == '\u{3000}'
}

/// `str::trim_start`.
pub open spec fn trim_start(s: Seq<char>) -> Seq<char>
    decreases s.len(),
{
    if s.len() > 0 && is_ws(s[0]) {
        trim_start(s.drop_first())
    } else {
        s
    }
}

/// `str::trim_end`.
pub open spec fn trim_end(s: Seq<char>) -> Seq<char>
    decreases s.len(),
{
    if s.len() > 0 && is_ws(s.last()) {
        trim_end(s.drop_last())
    } else {
        s
    }
}

/// `str::trim`.
pub open spec fn trim(s: Seq<char>) -> Seq<char> {
    trim_end(trim_start(s))
}

pub open spec fn starts_with(s: Seq<char>, c: char) -> bool {
    s.len() > 0 && s[0] == c
}

pub open spec fn ends_with(s: Seq<char>, c: char) -> bool {
    s.len() > 0 && s.last() == c
}

/// For a vector of characters, the deep view is the view.
pub broadcast proof fn lemma_chars_deep_view(v: &Vec<char>)
    ensures
        #[trigger] v.deep_view() == v@,
{
    assert(v.deep_view() =~= v@);
}

/// The characters of an optional string.
pub open spec fn opt_chars(o: Option<&str>) -> Option<Seq<char>> {
    match o {
        Some(s) => Some(s@),
        None => None,
    }
}

/// Whether two strings are equal.
pub fn str_eq(a: &str, b: &str) -> (r: bool)
    ensures
        r == (a@ == b@),
{
    let ca = chars_of(a);
    let cb = chars_of(b);
    chars_eq(ca.as_slice(), cb.as_slice())
}

/// The characters of a string.
pub fn chars_of(s: &str) -> (v: Vec<char>)
    ensures
        v@ == s@,
{
    let mut v: Vec<char> = Vec::new();
    for c in it: s.chars()
        invariant
            it.seq() == s@,
            v@ == it.seq().take(it.index()),
    {
        v.push(c);
    }
    v
}

/// Calls `String::push`.  Believed without proof: the string's characters
/// afterwards are the ones before followed by `c`, as the standard library
/// documents.
#[verifier::external_body]
fn push_char(s: &mut String, c: char)
    ensures
        final(s)@ == old(s)@.push(c),
{
    s.push(c);
}

/// A string holding exactly the given characters.
pub fn string_of(v: &[char]) -> (s: String)
    ensures
        s@ == v@,
{
    let mut s = String::new();
    let mut i: usize = 0;
    while i < v.len()
        invariant
            i <= v.len(),
            s@ == v@.take(i as int),
        decreases v.len() - i,
    {
        push_char(&mut s, v[i]);
        assert(v@.take(i + 1) == v@.take(i as int).push(v@[i as int]));
        i += 1;
    }
    assert(v@.take(v.len() as int) == v@);
    s
}


/// Index of the first `c` in `s`, or `s.len()` when there is none.
pub open spec fn find_char(s: Seq<char>, c: char) -> int
    decreases s.len(),
{
    if s.len() == 0 {
        0
    } else if s[0] == c {
        0
    } else {
        1 + find_char(s.drop_first(), c)
    }
}

pub proof fn lemma_find_char(s: Seq<char>, c: char)
    ensures
        0 <= find_char(s, c) <= s.len(),
        forall|j: int| 0 <= j < find_char(s, c) ==> s[j] != c,
        find_char(s, c) < s.len() ==> s[find_char(s, c)] == c,
    decreases s.len(),
{
    if s.len() > 0 && s[0] != c {
        lemma_find_char(s.drop_first(), c);
        assert forall|j: int| 0 <= j < find_char(s, c) implies s[j] != c by {
            if j > 0 {
                assert(s[j] == s.drop_first()[j - 1]);
            }
        }
    }
}

/// `find_char` is characterised by the position it returns.
pub proof fn lemma_find_char_at(s: Seq<char>, c: char, r: int)
    requires
        0 <= r <= s.len(),
        forall|j: int| 0 <= j < r ==> s[j] != c,
        r < s.len() ==> s[r] == c,
    ensures
        find_char(s, c) == r,
    decreases s.len(),
{
    if s.len() > 0 && r > 0 {
        lemma_find_char_at(s.drop_first(), c, r - 1);
    }
}

/// Position of the first `c` at or after `from` (or `s.len()`).
pub fn find_from(s: &[char], c: char, from: usize) -> (r: usize)
    requires
        from <= s.len(),
    ensures
        from <= r <= s.len(),
        r - from == find_char(s@.skip(from as int), c),
        forall|j: int| from <= j < r ==> s@[j] != c,
        r < s.len() ==> s@[r as int] == c,
{
    let mut i = from;
    while i < s.len() && s[i] != c
        invariant
            from <= i <= s.len(),
            forall|j: int| from <= j < i ==> s@[j] != c,
        decreases s.len() - i,
    {
        i += 1;
    }
    proof {
        lemma_find_char_at(s@.skip(from as int), c, i - from);
    }
    i
}

/// The characters `s[from..to]`.
pub fn slice_chars(s: &[char], from: usize, to: usize) -> (v: Vec<char>)
    requires
        from <= to <= s.len(),
    ensures
        v@ == s@.subrange(from as int, to as int),
{
    let mut v: Vec<char> = Vec::new();
    let mut i = from;
    while i < to
        invariant
            from <= i <= to <= s.len(),
            v@ == s@.subrange(from as int, i as int),
        decreases to - i,
    {
        v.push(s[i]);
        assert(s@.subrange(from as int, i + 1) == s@.subrange(from as int, i as int).push(
            s@[i as int],
        ));
        i += 1;
    }
    v
}

pub proof fn lemma_trim_start_skip(s: Seq<char>, i: int)
    requires
        0 <= i < s.len(),
        is_ws(s[i]),
    ensures
        trim_start(s.skip(i)) == trim_start(s.skip(i + 1)),
{
    assert(s.skip(i).drop_first() == s.skip(i + 1));
}

pub proof fn lemma_trim_end_take(s: Seq<char>, i: int)
    requires
        0 < i <= s.len(),
        is_ws(s[i - 1]),
    ensures
        trim_end(s.take(i)) == trim_end(s.take(i - 1)),
{
    assert(s.take(i).drop_last() == s.take(i - 1));
}

/// Bounds `(a, b)` such that `s[a..b]` is `s` trimmed of surrounding white space.
pub fn trim_bounds(s: &[char]) -> (r: (usize, usize))
    ensures
        r.0 <= r.1 <= s.len(),
        s@.subrange(r.0 as int, r.1 as int) == trim(s@),
{
    let mut a: usize = 0;
    assert(s@.skip(0) == s@);
    while a < s.len() && is_whitespace(s[a])
        invariant
            a <= s.len(),
            trim_start(s@) == trim_start(s@.skip(a as int)),
        decreases s.len() - a,
    {
        proof {
            lemma_trim_start_skip(s@, a as int);
        }
        a += 1;
    }
    let ghost t = s@.skip(a as int);
    assert(trim_start(s@) == t);
    let mut b: usize = s.len();
    assert(t.take(t.len() as int) == t);
    while b > a && is_whitespace(s[b - 1])
        invariant
            a <= b <= s.len(),
            t == s@.skip(a as int),
            trim_end(t) == trim_end(t.take(b - a)),
        decreases b,
    {
        proof {
            assert(t[b - a - 1] == s@[b - 1]);
            lemma_trim_end_take(t, b - a);
        }
        b -= 1;
    }
    assert(trim_end(t.take(b - a)) == t.take(b - a));
    assert(t.take(b - a) == s@.subrange(a as int, b as int));
    (a, b)
}

/// `s` trimmed of surrounding white space.
pub fn trim_chars(s: &[char]) -> (v: Vec<char>)
    ensures
        v@ == trim(s@),
{
    let (a, b) = trim_bounds(s);
    slice_chars(s, a, b)
}

pub fn chars_eq(a: &[char], b: &[char]) -> (r: bool)
    ensures
        r == (a@ == b@),
{
    if a.len() != b.len() {
        return false;
    }
    let mut i: usize = 0;
    while i < a.len()
        invariant
            a.len() == b.len(),
            i <= a.len(),
            forall|j: int| 0 <= j < i ==> a@[j] == b@[j],
        decreases a.len() - i,
    {
        if a[i] != b[i] {
            return false;
        }
        i += 1;
    }
    assert(a@ =~= b@);
    true
}


/// A line as `str::lines` yields it: without its `\n`, and without the `\r`
/// of a `\r\n` ending.
pub open spec fn strip_cr(p: Seq<char>) -> Seq<char> {
    if ends_with(p, '\r') {
        p.drop_last()
    } else {
        p
    }
}

/// `str::lines`: split at `\n` (or `\r\n`); a final line ending is optional,
/// and a bare `\r` not followed by `\n` stays in the line.
pub open spec fn lines(s: Seq<char>) -> Seq<Seq<char>>
    decreases s.len(),
{
    if s.len() == 0 {
        seq![]
    } else {
        let i = find_char(s, '\n');
        if i < s.len() {
            if 0 <= i {
                seq![strip_cr(s.take(i))] + lines(s.skip(i + 1))
            } else {
                seq![]
            }
        } else {
            seq![s]
        }
    }
}

/// `str::split` on one character: the pieces between the occurrences of `c`
/// (always at least one piece).
pub open spec fn split(s: Seq<char>, c: char) -> Seq<Seq<char>>
    decreases s.len(),
{
    let i = find_char(s, c);
    if 0 <= i < s.len() {
        seq![s.take(i)] + split(s.skip(i + 1), c)
    } else {
        seq![s]
    }
}

/// Appends `p` to a vector of character vectors, in terms of their deep views.
pub fn push_chars(out: &mut Vec<Vec<char>>, p: Vec<char>)
    ensures
        final(out).deep_view() == old(out).deep_view().push(p@),
{
    let ghost before = out.deep_view();
    let ghost pv = p@;
    out.push(p);
    proof {
        assert(out@.last().deep_view() =~= pv);
        assert(out.deep_view() =~= before.push(pv));
    }
}

/// Replaces element `i` of a vector of character vectors.
pub fn set_chars(out: &mut Vec<Vec<char>>, i: usize, p: Vec<char>)
    requires
        i < old(out).len(),
    ensures
        final(out).deep_view() == old(out).deep_view().update(i as int, p@),
{
    let ghost before = out.deep_view();
    let ghost pv = p@;
    out.set(i, p);
    proof {
        assert(out@[i as int].deep_view() =~= pv);
        assert(out.deep_view() =~= before.update(i as int, pv));
    }
}

/// The lines of a text.
pub fn lines_of(s: &[char]) -> (r: Vec<Vec<char>>)
    ensures
        r.deep_view() == lines(s@),
{
    let mut out: Vec<Vec<char>> = Vec::new();
    let mut pos: usize = 0;
    assert(s@.skip(0) == s@);
    while pos < s.len()
        invariant
            pos <= s.len(),
            out.deep_view() + lines(s@.skip(pos as int)) == lines(s@),
        decreases s.len() - pos,
    {
        let ghost t = s@.skip(pos as int);
        let j = find_from(s, '\n', pos);
        proof {
            lemma_find_char(t, '\n');
        }
        if j < s.len() {
            let mut end = j;
            if end > pos && s[end - 1] == '\r' {
                end = end - 1;
            }
            let piece = slice_chars(s, pos, end);
            proof {
                assert(t.take(j - pos) == s@.subrange(pos as int, j as int));
                assert(t.skip(j - pos + 1) == s@.skip(j + 1));
                assert(piece@ == strip_cr(t.take(j - pos)));
                assert(lines(t) == seq![piece@] + lines(s@.skip(j + 1)));
            }
            let ghost before = out.deep_view();
            let ghost pv = piece@;
            push_chars(&mut out, piece);
            proof {
                assert(out.deep_view() + lines(s@.skip(j + 1)) == before + lines(t));
            }
            pos = j + 1;
        } else {
            let piece = slice_chars(s, pos, s.len());
            proof {
                assert(piece@ == t);
                assert(lines(t) == seq![t]);
                assert(s@.skip(s.len() as int) == Seq::<char>::empty());
            }
            let ghost before = out.deep_view();
            let ghost pv = piece@;
            push_chars(&mut out, piece);
            proof {
                assert(out.deep_view() + lines(s@.skip(s.len() as int)) == before + lines(t));
            }
            pos = s.len();
        }
    }
    proof {
        assert(s@.skip(pos as int) == Seq::<char>::empty());
        assert(out.deep_view() + Seq::<Seq<char>>::empty() == out.deep_view());
    }
    out
}

/// The pieces of `s` between the occurrences of `c`.
pub fn split_chars(s: &[char], c: char) -> (r: Vec<Vec<char>>)
    ensures
        r.deep_view() == split(s@, c),
{
    let mut out: Vec<Vec<char>> = Vec::new();
    let mut pos: usize = 0;
    assert(s@.skip(0) == s@);
    loop
        invariant
            pos <= s.len(),
            out.deep_view() + split(s@.skip(pos as int), c) == split(s@, c),
        decreases s.len() - pos,
    {
        let ghost t = s@.skip(pos as int);
        let j = find_from(s, c, pos);
        proof {
            lemma_find_char(t, c);
        }
        let piece = slice_chars(s, pos, j);
        let ghost before = out.deep_view();
        let ghost pv = piece@;
        push_chars(&mut out, piece);
        if j < s.len() {
            proof {
                assert(t.take(j - pos) == pv);
                assert(t.skip(j - pos + 1) == s@.skip(j + 1));
                assert(split(t, c) == seq![pv] + split(s@.skip(j + 1), c));
                assert(out.deep_view() + split(s@.skip(j + 1), c) == before + split(t, c));
            }
            pos = j + 1;
        } else {
            proof {
                assert(pv == t);
                assert(split(t, c) == seq![t]);
                assert(out.deep_view() == before + split(t, c));
            }
            return out;
        }
    }
}

/// Characters of `s` before the first `c` (all of `s` when there is none):
/// what `s.split(c).next()` gives.
pub fn before_char(s: &[char], c: char) -> (r: Vec<char>)
    ensures
        r@ == split(s@, c)[0],
{
    let j = find_from(s, c, 0);
    assert(s@.skip(0) == s@);
    proof {
        lemma_find_char(s@, c);
    }
    slice_chars(s, 0, j)
}


pub open spec fn is_digit(c: char) -> bool {
    '0' <= c && c <= '9'
}

pub open spec fn digit_value(c: char) -> int {
    c as int - '0' as int
}

pub open spec fn digit_of(d: nat) -> char {
    if d == 0 { '0' }
    else if d == 1 { '1' }
    else if d == 2 { '2' }
    else if d == 3 { '3' }
    else if d == 4 { '4' }
    else if d == 5 { '5' }
    else if d == 6 { '6' }
    else if d == 7 { '7' }
    else if d == 8 { '8' }
    else { '9' }
}

pub proof fn lemma_digit_of(d: nat)
    requires
        d < 10,
    ensures
        is_digit(digit_of(d)),
        digit_value(digit_of(d)) == d,
{
}

/// Decimal notation of `n`, as `u64::to_string` writes it.
pub open spec fn decimal(n: nat) -> Seq<char>
    decreases n,
{
    if n < 10 {
        seq![digit_of(n)]
    } else {
        decimal(n / 10).push(digit_of(n % 10))
    }
}

/// The number that a string of decimal digits denotes.
pub open spec fn digits_value(d: Seq<char>) -> int
    decreases d.len(),
{
    if d.len() == 0 {
        0
    } else {
        digits_value(d.drop_last()) * 10 + digit_value(d.last())
    }
}

pub open spec fn all_digits(d: Seq<char>) -> bool {
    forall|i: int| 0 <= i < d.len() ==> is_digit(#[trigger] d[i])
}

/// `str::parse::<u64>`: an optional `+`, then one or more ASCII digits whose
/// value fits in a `u64`; anything else is an error (`None`).
pub open spec fn parse_u64_spec(s: Seq<char>) -> Option<u64> {
    let d = if starts_with(s, '+') {
        s.drop_first()
    } else {
        s
    };
    if d.len() > 0 && all_digits(d) && digits_value(d) <= u64::MAX {
        Some(digits_value(d) as u64)
    } else {
        None
    }
}

pub proof fn lemma_digits_value_prefix(d: Seq<char>, i: int)
    requires
        0 <= i <= d.len(),
        all_digits(d),
    ensures
        0 <= digits_value(d.take(i)) <= digits_value(d),
    decreases d.len() - i,
{
    if i < d.len() {
        lemma_digits_value_prefix(d, i + 1);
        assert(d.take(i + 1).drop_last() == d.take(i));
        assert(is_digit(d[i]));
    } else {
        assert(d.take(i) == d);
        lemma_digits_value_nonneg(d);
    }
}

pub proof fn lemma_digits_value_nonneg(d: Seq<char>)
    requires
        all_digits(d),
    ensures
        digits_value(d) >= 0,
    decreases d.len(),
{
    if d.len() > 0 {
        assert(all_digits(d.drop_last()));
        lemma_digits_value_nonneg(d.drop_last());
        assert(is_digit(d.last()));
    }
}

fn digit_char(d: u64) -> (c: char)
    requires
        d < 10,
    ensures
        c == digit_of(d as nat),
{
    if d == 0 { '0' }
    else if d == 1 { '1' }
    else if d == 2 { '2' }
    else if d == 3 { '3' }
    else if d == 4 { '4' }
    else if d == 5 { '5' }
    else if d == 6 { '6' }
    else if d == 7 { '7' }
    else if d == 8 { '8' }
    else { '9' }
}

/// Decimal notation of `n`.
pub fn format_u64(n: u64) -> (v: Vec<char>)
    ensures
        v@ == decimal(n as nat),
    decreases n,
{
    if n < 10 {
        let mut v: Vec<char> = Vec::new();
        v.push(digit_char(n));
        assert(v@ == seq![digit_of(n as nat)]);
        v
    } else {
        let mut v = format_u64(n / 10);
        v.push(digit_char(n % 10));
        v
    }
}

/// `str::parse::<u64>` on a sequence of characters.
pub fn parse_u64(s: &[char]) -> (r: Option<u64>)
    ensures
        r == parse_u64_spec(s@),
{
    let start: usize = if s.len() > 0 && s[0] == '+' { 1 } else { 0 };
    let ghost d = if starts_with(s@, '+') { s@.drop_first() } else { s@ };
    assert(d == s@.skip(start as int));
    if start >= s.len() {
        return None;
    }
    let mut acc: u64 = 0;
    let mut i = start;
    assert(d.take(0) == Seq::<char>::empty());
    while i < s.len()
        invariant
            start <= i <= s.len(),
            d == s@.skip(start as int),
            d == (if starts_with(s@, '+') { s@.drop_first() } else { s@ }),
            forall|j: int| 0 <= j < i - start ==> is_digit(#[trigger] d[j]),
            acc == digits_value(d.take(i - start)),
        decreases s.len() - i,
    {
        let c = s[i];
        assert(c == d[i - start]);
        if !('0' <= c && c <= '9') {
            assert(!is_digit(d[i - start]));
            assert(!all_digits(d));
            assert(d.len() > 0);
            return None;
        }
        let dv: u64 = (c as u32 - '0' as u32) as u64;
        assert(d.take(i - start + 1).drop_last() == d.take(i - start));
        if acc > 1844674407370955161 || (acc == 1844674407370955161 && dv > 5) {
            proof {
                assert(digits_value(d.take(i - start + 1)) == acc * 10 + dv);
                assert(digits_value(d.take(i - start + 1)) > u64::MAX);
                if all_digits(d) {
                    lemma_digits_value_prefix(d, i - start + 1);
                }
                assert(!(all_digits(d) && digits_value(d) <= u64::MAX));
            }
            return None;
        }
        acc = acc * 10 + dv;
        i += 1;
    }
    assert(d.take(i - start) == d);
    Some(acc)
}

pub proof fn lemma_decimal_digits(n: nat)
    ensures
        decimal(n).len() > 0,
        all_digits(decimal(n)),
        digits_value(decimal(n)) == n,
        !starts_with(decimal(n), '+'),
    decreases n,
{
    lemma_digit_of(n % 10);
    if n >= 10 {
        lemma_decimal_digits(n / 10);
        let d = decimal(n);
        assert(d.drop_last() == decimal(n / 10));
        assert(d.last() == digit_of(n % 10));
        assert(digits_value(d) == digits_value(decimal(n / 10)) * 10 + digit_value(digit_of(n % 10)));
        assert(n == (n / 10) * 10 + n % 10);
        assert(forall|i: int| 0 <= i < d.len() - 1 ==> d[i] == decimal(n / 10)[i]);
    } else {
        let d = decimal(n);
        assert(d.drop_last() =~= Seq::<char>::empty());
        assert(digits_value(d.drop_last()) == 0);
    }
}

/// Reading back the decimal notation of a `u64` gives the number.
pub proof fn lemma_parse_decimal(n: u64)
    ensures
        parse_u64_spec(decimal(n as nat)) == Some(n),
{
    lemma_decimal_digits(n as nat);
}


/// `xs` joined with `sep` between consecutive elements (`[..].join(sep)`).
pub open spec fn join(xs: Seq<Seq<char>>, sep: Seq<char>) -> Seq<char>
    decreases xs.len(),
{
    if xs.len() == 0 {
        seq![]
    } else if xs.len() == 1 {
        xs[0]
    } else {
        xs[0] + sep + join(xs.drop_first(), sep)
    }
}

/// Appends the characters of `s`.
pub fn push_str(v: &mut Vec<char>, s: &str)
    ensures
        final(v)@ == old(v)@ + s@,
{
    let c = chars_of(s);
    v.extend_from_slice(c.as_slice());
}

/// Appends `xs` joined with `sep`.
pub fn push_joined(v: &mut Vec<char>, xs: &Vec<Vec<char>>, sep: &str)
    ensures
        final(v)@ == old(v)@ + join(xs.deep_view(), sep@),
{
    let ghost start = v@;
    let ghost xv = xs.deep_view();
    let n = xs.len();
    if n == 0 {
        assert(v@ + join(xv, sep@) =~= v@);
        return;
    }
    // Build the join from the back: `acc` holds join(xv.skip(i)).
    let mut acc: Vec<char> = xs[n - 1].clone();
    assert(xv[n - 1] == xs@[n - 1]@);
    let mut i: usize = n - 1;
    assert(xv.skip(n - 1) =~= seq![xv[n - 1]]);
    while i > 0
        invariant
            0 <= i < n,
            n == xs.len(),
            xv == xs.deep_view(),
            acc@ == join(xv.skip(i as int), sep@),
        decreases i,
    {
        let mut next: Vec<char> = xs[i - 1].clone();
        assert(xv[i - 1] == xs@[i - 1]@);
        push_str(&mut next, sep);
        next.extend_from_slice(acc.as_slice());
        assert(xv.skip(i - 1).drop_first() =~= xv.skip(i as int));
        assert(xv.skip(i - 1)[0] == xv[i - 1]);
        acc = next;
        i -= 1;
    }
    assert(xv.skip(0) == xv);
    v.extend_from_slice(acc.as_slice());
}


/// Trimming leaves alone a string that starts and ends with non-white
/// space.
pub proof fn lemma_trim_noop(s: Seq<char>)
    requires
        s.len() > 0,
        !is_ws(s[0]),
        !is_ws(s.last()),
    ensures
        trim(s) == s,
{
    assert(trim_start(s) == s);
    assert(trim_end(s) == s);
}

pub open spec fn no_char(s: Seq<char>, c: char) -> bool {
    forall|i: int| 0 <= i < s.len() ==> s[i] != c
}

/// A string without `c` has no occurrence to find.
pub proof fn lemma_find_absent(s: Seq<char>, c: char)
    requires
        no_char(s, c),
    ensures
        find_char(s, c) == s.len(),
{
    lemma_find_char_at(s, c, s.len() as int);
}

/// In `a + [c] + b` with no `c` in `a`, the first `c` is the one after `a`.
pub proof fn lemma_find_after(a: Seq<char>, c: char, b: Seq<char>)
    requires
        no_char(a, c),
    ensures
        find_char(a + seq![c] + b, c) == a.len(),
        (a + seq![c] + b).take(a.len() as int) == a,
        (a + seq![c] + b).skip(a.len() as int + 1) == b,
{
    let s = a + seq![c] + b;
    assert forall|j: int| 0 <= j < a.len() implies s[j] != c by {
        assert(s[j] == a[j]);
    }
    assert(s[a.len() as int] == c);
    lemma_find_char_at(s, c, a.len() as int);
    assert(s.take(a.len() as int) =~= a);
    assert(s.skip(a.len() as int + 1) =~= b);
}

/// Splitting lines that contain no line break, joined with `\n`, gives them
/// back, provided none but the last ends with `\r` and the last is not
/// empty.
pub proof fn lemma_lines_join(xs: Seq<Seq<char>>)
    requires
        xs.len() > 0,
        forall|i: int| 0 <= i < xs.len() ==> no_char(#[trigger] xs[i], '\n'),
        forall|i: int| 0 <= i < xs.len() - 1 ==> !ends_with(#[trigger] xs[i], '\r'),
        xs.last().len() > 0,
    ensures
        lines(join(xs, seq!['\n'])) == xs,
    decreases xs.len(),
{
    if xs.len() == 1 {
        lemma_find_absent(xs[0], '\n');
        assert(join(xs, seq!['\n']) == xs[0]);
        assert(lines(xs[0]) == seq![xs[0]]);
        assert(xs =~= seq![xs[0]]);
    } else {
        let rest = xs.drop_first();
        assert forall|i: int| 0 <= i < rest.len() implies no_char(#[trigger] rest[i], '\n') by {
            assert(rest[i] == xs[i + 1]);
        }
        assert forall|i: int| 0 <= i < rest.len() - 1 implies !ends_with(#[trigger] rest[i], '\r') by {
            assert(rest[i] == xs[i + 1]);
        }
        lemma_lines_join(rest);
        let j = join(rest, seq!['\n']);
        assert(join(xs, seq!['\n']) == xs[0] + seq!['\n'] + j);
        assert(no_char(xs[0], '\n'));
        lemma_find_after(xs[0], '\n', j);
        let s = xs[0] + seq!['\n'] + j;
        assert(s.len() > 0);
        assert(strip_cr(xs[0]) == xs[0]);
        assert(lines(s) == seq![xs[0]] + lines(j));
        assert(xs =~= seq![xs[0]] + rest);
    }
}

/// Splitting on `c` pieces without `c`, joined with `c`, gives them back.
pub proof fn lemma_split_join(ys: Seq<Seq<char>>, c: char)
    requires
        ys.len() > 0,
        forall|i: int| 0 <= i < ys.len() ==> no_char(#[trigger] ys[i], c),
    ensures
        split(join(ys, seq![c]), c) == ys,
    decreases ys.len(),
{
    if ys.len() == 1 {
        lemma_find_absent(ys[0], c);
        assert(split(ys[0], c) == seq![ys[0]]);
        assert(ys =~= seq![ys[0]]);
    } else {
        let rest = ys.drop_first();
        assert forall|i: int| 0 <= i < rest.len() implies no_char(#[trigger] rest[i], c) by {
            assert(rest[i] == ys[i + 1]);
        }
        lemma_split_join(rest, c);
        let j = join(rest, seq![c]);
        assert(no_char(ys[0], c));
        lemma_find_after(ys[0], c, j);
        assert(split(ys[0] + seq![c] + j, c) == seq![ys[0]] + split(j, c));
        assert(ys =~= seq![ys[0]] + rest);
    }
}


pub proof fn lemma_no_char_concat(a: Seq<char>, b: Seq<char>, c: char)
    requires
        no_char(a, c),
        no_char(b, c),
    ensures
        no_char(a + b, c),
{
    assert forall|i: int| 0 <= i < (a + b).len() implies (a + b)[i] != c by {
        if i >= a.len() {
            assert((a + b)[i] == b[i - a.len()]);
        }
    }
}

pub proof fn lemma_no_char_join(ys: Seq<Seq<char>>, sep: Seq<char>, c: char)
    requires
        no_char(sep, c),
        forall|i: int| 0 <= i < ys.len() ==> no_char(#[trigger] ys[i], c),
    ensures
        no_char(join(ys, sep), c),
    decreases ys.len(),
{
    if ys.len() > 1 {
        let rest = ys.drop_first();
        assert forall|i: int| 0 <= i < rest.len() implies no_char(#[trigger] rest[i], c) by {
            assert(rest[i] == ys[i + 1]);
        }
        lemma_no_char_join(rest, sep, c);
        assert(no_char(ys[0], c));
        lemma_no_char_concat(ys[0], sep, c);
        lemma_no_char_concat(ys[0] + sep, join(rest, sep), c);
    } else if ys.len() == 1 {
        assert(no_char(ys[0], c));
    }
}


/// Whether `pat` occurs in `s` as a run of consecutive characters.
pub open spec fn contains_seq(s: Seq<char>, pat: Seq<char>) -> bool {
    exists|i: int| 0 <= i && i + pat.len() <= s.len() && #[trigger] s.subrange(i, i + pat.len()) == pat
}

/// Whether `pat` occurs in `s` at position `i`.
fn occurs_at(s: &[char], pat: &[char], i: usize) -> (r: bool)
    requires
        i + pat.len() <= s.len(),
    ensures
        r == (s@.subrange(i as int, i + pat.len()) == pat@),
{
    let mut j: usize = 0;
    while j < pat.len()
        invariant
            j <= pat.len(),
            i + pat.len() <= s.len(),
            forall|k: int| 0 <= k < j ==> s@[i + k] == pat@[k],
        decreases pat.len() - j,
    {
        if s[i + j] != pat[j] {
            assert(s@.subrange(i as int, i + pat.len())[j as int] != pat@[j as int]);
            return false;
        }
        j += 1;
    }
    assert(s@.subrange(i as int, i + pat.len()) =~= pat@);
    true
}

/// `str::contains` with a string pattern.
pub fn contains_str(s: &str, pat: &str) -> (r: bool)
    ensures
        r == contains_seq(s@, pat@),
{
    let sv = chars_of(s);
    let pv = chars_of(pat);
    if pv.len() > sv.len() {
        return false;
    }
    let last = sv.len() - pv.len();
    let mut i: usize = 0;
    loop
        invariant
            sv@ == s@,
            pv@ == pat@,
            last == sv.len() - pv.len(),
            i <= last,
            forall|k: int| 0 <= k < i ==> #[trigger] s@.subrange(k, k + pat@.len()) != pat@,
        decreases last - i,
    {
        if occurs_at(sv.as_slice(), pv.as_slice(), i) {
            return true;
        }
        if i == last {
            return false;
        }
        i += 1;
    }
}

/// `s` padded on the right with spaces to at least `w` characters (as the
/// `{:w}` format of a string does).
pub open spec fn pad_right(s: Seq<char>, w: nat) -> Seq<char> {
    if s.len() >= w {
        s
    } else {
        s + Seq::new((w - s.len()) as nat, |i: int| ' ')
    }
}

/// Appends `s` padded on the right to `w` characters.
pub fn push_padded(v: &mut Vec<char>, s: &str, w: usize)
    ensures
        final(v)@ == old(v)@ + pad_right(s@, w as nat),
{
    let c = chars_of(s);
    let ghost start = v@;
    v.extend_from_slice(c.as_slice());
    let mut n = c.len();
    while n < w
        invariant
            c@ == s@,
            c.len() <= n,
            n <= w || n == c.len(),
            v@ == start + s@ + Seq::new((n - c.len()) as nat, |i: int| ' '),
        decreases w - n,
    {
        let ghost before = v@;
        v.push(' ');
        assert(Seq::new((n + 1 - c.len()) as nat, |i: int| ' ') =~= Seq::new(
            (n - c.len()) as nat,
            |i: int| ' ',
        ).push(' '));
        n += 1;
    }
    assert(c.len() >= w ==> Seq::new((n - c.len()) as nat, |i: int| ' ') =~= Seq::<char>::empty());
}

/// The first `n` characters of `s` (all of them when it is shorter).
pub open spec fn take_chars(s: Seq<char>, n: nat) -> Seq<char> {
    if s.len() <= n {
        s
    } else {
        s.take(n as int)
    }
}

/// `s.chars().take(n).collect::<String>()`.
pub fn take_str(s: &str, n: usize) -> (r: String)
    ensures
        r@ == take_chars(s@, n as nat),
{
    let c = chars_of(s);
    if c.len() <= n {
        string_of(c.as_slice())
    } else {
        let t = slice_chars(c.as_slice(), 0, n);
        assert(t@ =~= s@.take(n as int));
        string_of(t.as_slice())
    }
}


/// Whether `v` holds the string `s`.
pub fn strings_contain(v: &Vec<String>, s: &str) -> (r: bool)
    ensures
        r == v.deep_view().contains(s@),
{
    let mut j: usize = 0;
    while j < v.len()
        invariant
            j <= v.len(),
            forall|k: int| 0 <= k < j ==> v.deep_view()[k] != s@,
        decreases v.len() - j,
    {
        if str_eq(v[j].as_str(), s) {
            assert(v.deep_view()[j as int] == s@);
            return true;
        }
        j += 1;
    }
    false
}

} // verus!
