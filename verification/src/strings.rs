//! Character-sequence helpers: the parts of `str` that the viewer's logic
//! relies on (trimming, ASCII case folding, prefix/suffix/substring tests).

use vstd::prelude::*;

verus! {

broadcast use vstd::string::group_string_axioms;

/// Unicode `White_Space`, the property that `char::is_whitespace` tests.
pub open spec fn is_white_space(c: char) -> bool {
    ||| ('\u{9}' <= c && c <= '\u{d}')
    ||| c == ' '
    ||| c == '\u{85}'
    ||| c == '\u{a0}'
    ||| c == '\u{1680}'
    ||| ('\u{2000}' <= c && c <= '\u{200a}')
    ||| c == '\u{2028}'
    ||| c == '\u{2029}'
    ||| c == '\u{202f}'
    ||| c == '\u{205f}'
    ||| c == '\u{3000}'
}

/// The sequence without its leading white space.
pub open spec fn trim_start(s: Seq<char>) -> Seq<char>
    decreases s.len(),
{
    if s.len() > 0 && is_white_space(s[0]) {
        trim_start(s.drop_first())
    } else {
        s
    }
}

/// The sequence without its trailing white space.
pub open spec fn trim_end(s: Seq<char>) -> Seq<char>
    decreases s.len(),
{
    if s.len() > 0 && is_white_space(s.last()) {
        trim_end(s.drop_last())
    } else {
        s
    }
}

/// What `str::trim` gives back.
pub open spec fn trim(s: Seq<char>) -> Seq<char> {
    trim_end(trim_start(s))
}

pub open spec fn starts_with(s: Seq<char>, prefix: Seq<char>) -> bool {
    prefix.len() <= s.len() && s.subrange(0, prefix.len() as int) == prefix
}

pub open spec fn ends_with(s: Seq<char>, suffix: Seq<char>) -> bool {
    suffix.len() <= s.len() && s.subrange(s.len() - suffix.len(), s.len() as int) == suffix
}

pub open spec fn occurs_at(s: Seq<char>, sub: Seq<char>, i: int) -> bool {
    0 <= i && i + sub.len() <= s.len() && s.subrange(i, i + sub.len()) == sub
}

pub open spec fn contains_seq(s: Seq<char>, sub: Seq<char>) -> bool {
    exists|i: int| occurs_at(s, sub, i)
}

/// `char::to_ascii_lowercase`.
pub open spec fn ascii_lower_char(c: char) -> char {
    if 'A' <= c && c <= 'Z' {
        ((c as u32) + 32) as char
    } else {
        c
    }
}

/// `str::to_ascii_lowercase`.
pub open spec fn ascii_lower(s: Seq<char>) -> Seq<char> {
    s.map_values(|c: char| ascii_lower_char(c))
}

/// Appends one character: `String::push`.
#[verifier::external_body]
pub(crate) fn push_char(s: &mut String, c: char)
    ensures
        final(s)@ == old(s)@.push(c),
{
    s.push(c)
}

/// The characters of a string slice, in order.
pub fn chars_of(s: &str) -> (r: Vec<char>)
    ensures
        r@ == s@,
{
    let mut r: Vec<char> = Vec::new();
    for c in it: s.chars()
        invariant
            it.seq() == s@,
            r@ == it.seq().take(it.index() as int),
    {
        r.push(c);
    }
    r
}

/// A string holding the given characters.
pub fn string_from_chars(v: &[char]) -> (r: String)
    ensures
        r@ == v@,
{
    let mut r = String::new();
    let mut i: usize = 0;
    while i < v.len()
        invariant
            i <= v@.len(),
            r@ == v@.take(i as int),
        decreases v@.len() - i,
    {
        push_char(&mut r, v[i]);
        i += 1;
        assert(r@ == v@.take(i as int));
    }
    assert(v@.take(v@.len() as int) == v@);
    r
}

pub proof fn lemma_trim_start_skip(s: Seq<char>, i: int)
    requires
        0 <= i <= s.len(),
        forall|k: int| 0 <= k < i ==> is_white_space(#[trigger] s[k]),
    ensures
        trim_start(s) == trim_start(s.subrange(i, s.len() as int)),
    decreases i,
{
    if i > 0 {
        lemma_trim_start_skip(s.drop_first(), i - 1);
        assert(s.drop_first().subrange(i - 1, s.drop_first().len() as int) =~= s.subrange(i, s.len() as int));
    } else {
        assert(s.subrange(0, s.len() as int) =~= s);
    }
}

pub proof fn lemma_trim_end_cut(s: Seq<char>, j: int)
    requires
        0 <= j <= s.len(),
        forall|k: int| j <= k < s.len() ==> is_white_space(#[trigger] s[k]),
    ensures
        trim_end(s) == trim_end(s.subrange(0, j)),
    decreases s.len() - j,
{
    if j < s.len() {
        lemma_trim_end_cut(s.drop_last(), j);
        assert(s.drop_last().subrange(0, j) =~= s.subrange(0, j));
    } else {
        assert(s.subrange(0, j) =~= s);
    }
}

/// Trimming the start leaves a suffix that does not begin with white space.
pub proof fn lemma_trim_start_shape(s: Seq<char>)
    ensures
        trim_start(s).is_suffix_of(s),
        trim_start(s).len() > 0 ==> !is_white_space(trim_start(s)[0]),
    decreases s.len(),
{
    if s.len() > 0 && is_white_space(s[0]) {
        let d = s.drop_first();
        lemma_trim_start_shape(d);
        let t = trim_start(d);
        assert(t =~= s.subrange(s.len() - t.len(), s.len() as int)) by {
            assert forall|i: int| 0 <= i < t.len() implies t[i] == s[s.len() - t.len() + i] by {
                assert(t[i] == d[d.len() - t.len() + i]);
            }
        }
    } else {
        assert(s =~= s.subrange(0, s.len() as int));
    }
}

/// Trimming the end leaves a prefix that does not end with white space.
pub proof fn lemma_trim_end_shape(s: Seq<char>)
    ensures
        trim_end(s).is_prefix_of(s),
        trim_end(s).len() > 0 ==> !is_white_space(trim_end(s).last()),
    decreases s.len(),
{
    if s.len() > 0 && is_white_space(s.last()) {
        let d = s.drop_last();
        lemma_trim_end_shape(d);
        let t = trim_end(d);
        assert(t =~= s.subrange(0, t.len() as int));
    } else {
        assert(s =~= s.subrange(0, s.len() as int));
    }
}

/// A trimmed sequence neither begins nor ends with white space.
pub proof fn lemma_trim_edges(s: Seq<char>)
    ensures
        trim(s).len() > 0 ==> !is_white_space(trim(s)[0]) && !is_white_space(trim(s).last()),
{
    lemma_trim_start_shape(s);
    lemma_trim_end_shape(trim_start(s));
    if trim(s).len() > 0 {
        assert(trim(s)[0] == trim_start(s)[0]);
    }
}

/// A sequence that neither begins nor ends with white space is its own trim.
pub proof fn lemma_trim_keeps(s: Seq<char>)
    requires
        s.len() > 0 ==> !is_white_space(s[0]) && !is_white_space(s.last()),
    ensures
        trim_start(s) == s,
        trim_end(s) == s,
        trim(s) == s,
{
}

/// How many bytes the UTF-8 encoding of `c` takes.
pub open spec fn char_utf8_width(c: char) -> nat {
    let v = c as u32;
    if v < 0x80 {
        1
    } else if v < 0x800 {
        2
    } else if v < 0x10000 {
        3
    } else {
        4
    }
}

/// How many bytes the UTF-8 encoding of `s` takes.
pub open spec fn utf8_len(s: Seq<char>) -> nat
    decreases s.len(),
{
    if s.len() == 0 {
        0
    } else {
        utf8_len(s.drop_last()) + char_utf8_width(s.last())
    }
}

/// The longest prefix of `s` whose UTF-8 encoding takes at most `n` bytes.
pub open spec fn utf8_prefix(s: Seq<char>, n: nat) -> Seq<char>
    decreases s.len(),
{
    if utf8_len(s) <= n || s.len() == 0 {
        s
    } else {
        utf8_prefix(s.drop_last(), n)
    }
}

/// How many bytes the UTF-8 encoding of `c` takes.
pub fn char_utf8_width_exec(c: char) -> (r: usize)
    ensures
        r == char_utf8_width(c),
{
    let v = c as u32;
    if v < 0x80 {
        1
    } else if v < 0x800 {
        2
    } else if v < 0x10000 {
        3
    } else {
        4
    }
}

/// How many bytes the UTF-8 encoding of `v` takes.
pub fn utf8_len_exec(v: &[char]) -> (r: u128)
    ensures
        r == utf8_len(v@),
{
    let mut total: u128 = 0;
    let mut i: usize = 0;
    while i < v.len()
        invariant
            i <= v@.len(),
            total == utf8_len(v@.take(i as int)),
            total <= 4 * i,
        decreases v@.len() - i,
    {
        assert(v@.take(i + 1).drop_last() =~= v@.take(i as int));
        total = total + char_utf8_width_exec(v[i]) as u128;
        i += 1;
    }
    assert(v@.take(v@.len() as int) =~= v@);
    total
}

/// `s` with the leading and trailing white space removed, as `str::trim`.
pub fn trim_string(s: &str) -> (r: String)
    ensures
        r@ == trim(s@),
{
    let chars = chars_of(s);
    let (a, b) = trim_bounds(chars.as_slice());
    string_from_chars(&chars.as_slice()[a..b])
}

/// Bounds `(start, end)` of `v` with the leading and trailing white space removed.
pub fn trim_bounds(v: &[char]) -> (r: (usize, usize))
    ensures
        r.0 <= r.1 <= v@.len(),
        v@.subrange(r.0 as int, r.1 as int) == trim(v@),
{
    let mut i: usize = 0;
    while i < v.len() && is_white_space_exec(v[i])
        invariant
            i <= v@.len(),
            forall|k: int| 0 <= k < i ==> is_white_space(#[trigger] v@[k]),
        decreases v@.len() - i,
    {
        i += 1;
    }
    proof {
        lemma_trim_start_skip(v@, i as int);
    }
    let ghost rest = v@.subrange(i as int, v@.len() as int);
    assert(trim_start(rest) == rest);
    let mut j: usize = v.len();
    while j > i && is_white_space_exec(v[j - 1])
        invariant
            i <= j <= v@.len(),
            rest == v@.subrange(i as int, v@.len() as int),
            forall|k: int| j <= k < v@.len() ==> is_white_space(#[trigger] v@[k]),
        decreases j,
    {
        j -= 1;
    }
    proof {
        assert forall|k: int| j - i <= k < rest.len() implies is_white_space(#[trigger] rest[k]) by {
            assert(rest[k] == v@[k + i]);
        }
        lemma_trim_end_cut(rest, j - i);
        assert(rest.subrange(0, j - i) =~= v@.subrange(i as int, j as int));
    }
    (i, j)
}

/// `char::is_whitespace`.
pub fn is_white_space_exec(c: char) -> (r: bool)
    ensures
        r == is_white_space(c),
{
    ('\u{9}' <= c && c <= '\u{d}') || c == ' ' || c == '\u{85}' || c == '\u{a0}' || c
        == '\u{1680}' || ('\u{2000}' <= c && c <= '\u{200a}') || c == '\u{2028}' || c
        == '\u{2029}' || c == '\u{202f}' || c == '\u{205f}' || c == '\u{3000}'
}

/// `char::to_ascii_lowercase`.
pub fn ascii_lower_char_exec(c: char) -> (r: char)
    ensures
        r == ascii_lower_char(c),
{
    if 'A' <= c && c <= 'Z' {
        let b: u8 = (c as u8) + 32;
        b as char
    } else {
        c
    }
}

/// The characters of `v`, ASCII letters folded to lower case.
pub fn ascii_lower_vec(v: &[char]) -> (r: Vec<char>)
    ensures
        r@ == ascii_lower(v@),
{
    let mut r: Vec<char> = Vec::new();
    let mut i: usize = 0;
    while i < v.len()
        invariant
            i <= v@.len(),
            r@ == ascii_lower(v@.take(i as int)),
        decreases v@.len() - i,
    {
        r.push(ascii_lower_char_exec(v[i]));
        i += 1;
        assert(r@ =~= ascii_lower(v@.take(i as int)));
    }
    assert(v@.take(v@.len() as int) =~= v@);
    r
}

/// Whether `sub` occurs in `v` starting at position `i`.
pub fn occurs_at_exec(v: &[char], sub: &[char], i: usize) -> (r: bool)
    ensures
        r == occurs_at(v@, sub@, i as int),
{
    if sub.len() > v.len() || i > v.len() - sub.len() {
        return false;
    }
    let n = v.len();
    let mut k: usize = 0;
    while k < sub.len()
        invariant
            n == v@.len(),
            k <= sub@.len(),
            i + sub@.len() <= v@.len(),
            forall|m: int| 0 <= m < k ==> v@[i + m] == sub@[m],
        decreases sub@.len() - k,
    {
        if v[i + k] != sub[k] {
            assert(v@.subrange(i as int, i + sub@.len())[k as int] != sub@[k as int]);
            return false;
        }
        k += 1;
    }
    assert(v@.subrange(i as int, i + sub@.len()) =~= sub@);
    true
}

pub fn starts_with_exec(v: &[char], prefix: &[char]) -> (r: bool)
    ensures
        r == starts_with(v@, prefix@),
{
    occurs_at_exec(v, prefix, 0)
}

pub fn ends_with_exec(v: &[char], suffix: &[char]) -> (r: bool)
    ensures
        r == ends_with(v@, suffix@),
{
    if suffix.len() > v.len() {
        false
    } else {
        occurs_at_exec(v, suffix, v.len() - suffix.len())
    }
}

pub fn contains_exec(v: &[char], sub: &[char]) -> (r: bool)
    ensures
        r == contains_seq(v@, sub@),
{
    if sub.len() > v.len() {
        assert(forall|i: int| !occurs_at(v@, sub@, i));
        return false;
    }
    let last = v.len() - sub.len();
    let mut i: usize = 0;
    loop
        invariant
            last == v@.len() - sub@.len(),
            i <= last,
            forall|m: int| 0 <= m < i ==> !occurs_at(v@, sub@, m),
        ensures
            forall|m: int| 0 <= m <= last ==> !occurs_at(v@, sub@, m),
        decreases last - i,
    {
        if occurs_at_exec(v, sub, i) {
            return true;
        }
        if i == last {
            break;
        }
        i += 1;
    }
    assert(forall|m: int| !occurs_at(v@, sub@, m));
    false
}

} // verus!
