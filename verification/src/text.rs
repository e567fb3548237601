//! Character-level text helpers shared by the preference, menu and source modules.
//!
//! Strings are reasoned about through their views as `Seq<char>`.
use vstd::prelude::*;

verus! {

/// The Unicode `White_Space` property, which is what `char::is_whitespace`,
/// `str::trim` and `str::split_whitespace` test.
pub open spec fn is_white_space(c: char) -> bool {
    let v = c as u32;
    (0x9 <= v && v <= 0xd) || v == 0x20 || v == 0x85 || v == 0xa0 || v == 0x1680 || (0x2000 <= v
        && v <= 0x200a) || v == 0x2028 || v == 0x2029 || v == 0x202f || v == 0x205f || v == 0x3000
}

/// Executable form of [`is_white_space`].
pub fn is_whitespace_char(c: char) -> (r: bool)
    ensures
        r == is_white_space(c),
{
    let v = c as u32;
    (0x9 <= v && v <= 0xd) || v == 0x20 || v == 0x85 || v == 0xa0 || v == 0x1680 || (0x2000 <= v
        && v <= 0x200a) || v == 0x2028 || v == 0x2029 || v == 0x202f || v == 0x205f || v == 0x3000
}

/// Appends one character to a string.
///
/// Trusted: calls `String::push`, which appends the given `char` to the end of the string.
#[verifier::external_body]
pub(crate) fn push_char(s: &mut String, c: char)
    ensures
        final(s)@ == old(s)@.push(c),
{
    s.push(c);
}

/// The characters of a string slice, in order.
pub fn chars_of(s: &str) -> (out: Vec<char>)
    ensures
        out@ == s@,
{
    let mut out: Vec<char> = Vec::new();
    for c in it: s.chars()
        invariant
            out@ == it.seq().take(it.index() as int),
            it.seq() == s@,
    {
        out.push(c);
    }
    out
}

/// A string made of the characters `chars[from..to]`.
pub fn string_from_range(chars: &Vec<char>, from: usize, to: usize) -> (out: String)
    requires
        from <= to <= chars.len(),
    ensures
        out@ == chars@.subrange(from as int, to as int),
{
    let mut out = String::new();
    let mut i = from;
    while i < to
        invariant
            from <= i <= to <= chars.len(),
            out@ == chars@.subrange(from as int, i as int),
        decreases to - i,
    {
        push_char(&mut out, chars[i]);
        assert(chars@.subrange(from as int, i + 1) == chars@.subrange(from as int, i as int).push(
            chars@[i as int],
        ));
        i = i + 1;
    }
    out
}

/// A string holding exactly the given characters.
pub fn string_from_chars(chars: &Vec<char>) -> (out: String)
    ensures
        out@ == chars@,
{
    let out = string_from_range(chars, 0, chars.len());
    assert(chars@.subrange(0, chars@.len() as int) == chars@);
    out
}

/// An owned copy of a string slice.
pub fn owned(s: &str) -> (out: String)
    ensures
        out@ == s@,
{
    let chars = chars_of(s);
    string_from_chars(&chars)
}

/// Appends every character of `tail` to `s`.
pub fn push_text(s: &mut String, tail: &str)
    ensures
        final(s)@ == old(s)@ + tail@,
{
    let chars = chars_of(tail);
    let ghost start = s@;
    let mut i: usize = 0;
    while i < chars.len()
        invariant
            i <= chars.len(),
            chars@ == tail@,
            s@ == start + chars@.subrange(0, i as int),
        decreases chars.len() - i,
    {
        push_char(s, chars[i]);
        assert(chars@.subrange(0, i + 1) == chars@.subrange(0, i as int).push(chars@[i as int]));
        i = i + 1;
    }
    assert(chars@.subrange(0, chars@.len() as int) == chars@);
}

/// Character-wise equality of two string slices.
pub fn text_eq(a: &str, b: &str) -> (r: bool)
    ensures
        r == (a@ == b@),
{
    let x = chars_of(a);
    let y = chars_of(b);
    if x.len() != y.len() {
        return false;
    }
    let mut i: usize = 0;
    while i < x.len()
        invariant
            i <= x.len(),
            x.len() == y.len(),
            x@ == a@,
            y@ == b@,
            forall|j: int| 0 <= j < i ==> x@[j] == y@[j],
        decreases x.len() - i,
    {
        if x[i] != y[i] {
            return false;
        }
        i = i + 1;
    }
    assert(x@ =~= y@);
    true
}

// ---------------------------------------------------------------------------
// Trimming
// ---------------------------------------------------------------------------
/// Index of the first non-white-space character of `s` at or after `i` (or `s.len()`).
pub open spec fn first_solid_from(s: Seq<char>, i: int) -> int
    decreases s.len() - i,
{
    if i >= s.len() {
        s.len() as int
    } else if !is_white_space(s[i]) {
        i
    } else {
        first_solid_from(s, i + 1)
    }
}

/// One past the index of the last non-white-space character of `s` in `[0, j)` (or `0`).
pub open spec fn last_solid_before(s: Seq<char>, j: int) -> int
    decreases j,
{
    if j <= 0 {
        0
    } else if !is_white_space(s[j - 1]) {
        j
    } else {
        last_solid_before(s, j - 1)
    }
}

/// `s` without leading and trailing white space, as `str::trim` gives it.
pub open spec fn trimmed(s: Seq<char>) -> Seq<char> {
    let a = first_solid_from(s, 0);
    let b = last_solid_before(s, s.len() as int);
    if a < b {
        s.subrange(a, b)
    } else {
        Seq::empty()
    }
}

proof fn lemma_first_solid_from(s: Seq<char>, i: int)
    requires
        0 <= i <= s.len(),
    ensures
        i <= first_solid_from(s, i) <= s.len(),
        forall|k: int| i <= k < first_solid_from(s, i) ==> is_white_space(#[trigger] s[k]),
        first_solid_from(s, i) < s.len() ==> !is_white_space(s[first_solid_from(s, i)]),
    decreases s.len() - i,
{
    if i < s.len() && is_white_space(s[i]) {
        lemma_first_solid_from(s, i + 1);
    }
}

proof fn lemma_last_solid_before(s: Seq<char>, j: int)
    requires
        0 <= j <= s.len(),
    ensures
        0 <= last_solid_before(s, j) <= j,
        forall|k: int| last_solid_before(s, j) <= k < j ==> is_white_space(#[trigger] s[k]),
        last_solid_before(s, j) > 0 ==> !is_white_space(s[last_solid_before(s, j) - 1]),
    decreases j,
{
    if j > 0 && is_white_space(s[j - 1]) {
        lemma_last_solid_before(s, j - 1);
    }
}

/// The characters of `s` without leading and trailing white space.
pub fn trim_chars(s: &str) -> (out: Vec<char>)
    ensures
        out@ == trimmed(s@),
        out@.len() > 0 ==> !is_white_space(out@[0]) && !is_white_space(out@.last()),
{
    let chars = chars_of(s);
    let n = chars.len();
    proof {
        lemma_first_solid_from(s@, 0);
        lemma_last_solid_before(s@, n as int);
    }
    let mut a: usize = 0;
    while a < n && is_whitespace_char(chars[a])
        invariant
            a <= n == chars@.len(),
            chars@ == s@,
            first_solid_from(s@, a as int) == first_solid_from(s@, 0),
        decreases n - a,
    {
        a = a + 1;
    }
    let mut b: usize = n;
    while b > 0 && is_whitespace_char(chars[b - 1])
        invariant
            b <= n == chars@.len(),
            chars@ == s@,
            last_solid_before(s@, b as int) == last_solid_before(s@, n as int),
        decreases b,
    {
        b = b - 1;
    }
    let mut out: Vec<char> = Vec::new();
    if a < b {
        let mut i = a;
        while i < b
            invariant
                a <= i <= b <= n == chars@.len(),
                out@ == chars@.subrange(a as int, i as int),
            decreases b - i,
        {
            out.push(chars[i]);
            i = i + 1;
        }
    }
    out
}

/// The text of an optional string, as a sequence of characters.
pub open spec fn text_of(o: Option<String>) -> Option<Seq<char>> {
    match o {
        Some(s) => Some(s@),
        None => None,
    }
}

/// Trimmed text, kept only when something is left after trimming.
pub open spec fn non_empty_text(o: Option<Seq<char>>) -> Option<Seq<char>> {
    match o {
        Some(s) => if trimmed(s).len() > 0 {
            Some(trimmed(s))
        } else {
            None
        },
        None => None,
    }
}

/// The trimmed text, if it is not empty.
pub fn non_empty(value: &Option<String>) -> (out: Option<String>)
    ensures
        text_of(out) == non_empty_text(text_of(*value)),
{
    match value {
        None => None,
        Some(v) => {
            let t = trim_chars(v.as_str());
            if t.len() > 0 {
                Some(string_from_chars(&t))
            } else {
                None
            }
        },
    }
}

// ---------------------------------------------------------------------------
// Single-line collapsing
// ---------------------------------------------------------------------------
/// One step of collapsing white space: the text built so far and whether a word
/// separator is owed before the next word.
pub open spec fn collapse_step(st: (Seq<char>, bool), c: char) -> (Seq<char>, bool) {
    if is_white_space(c) {
        (st.0, st.0.len() > 0)
    } else if st.1 {
        (st.0.push(' ').push(c), false)
    } else {
        (st.0.push(c), false)
    }
}

/// The state after collapsing all of `s`.
pub open spec fn collapse_state(s: Seq<char>) -> (Seq<char>, bool)
    decreases s.len(),
{
    if s.len() == 0 {
        (Seq::empty(), false)
    } else {
        collapse_step(collapse_state(s.drop_last()), s.last())
    }
}

/// The words of `s` (maximal runs of non-white-space) joined by single spaces:
/// `s.split_whitespace().collect::<Vec<_>>().join(" ")`.
pub open spec fn single_line(s: Seq<char>) -> Seq<char> {
    collapse_state(s).0
}

/// A single line of text: only `' '` separates words, never at either end.
pub open spec fn is_single_line(t: Seq<char>) -> bool {
    &&& forall|i: int| 0 <= i < t.len() && is_white_space(#[trigger] t[i]) ==> t[i] == ' '
    &&& t.len() > 0 ==> t[0] != ' ' && t.last() != ' '
}

proof fn lemma_collapse_state_single_line(s: Seq<char>)
    ensures
        is_single_line(collapse_state(s).0),
        collapse_state(s).0.len() == 0 ==> !collapse_state(s).1,
    decreases s.len(),
{
    if s.len() > 0 {
        lemma_collapse_state_single_line(s.drop_last());
        let st = collapse_state(s.drop_last());
        let r = collapse_state(s).0;
        if !is_white_space(s.last()) {
            assert forall|i: int| 0 <= i < r.len() && is_white_space(#[trigger] r[i]) implies r[i]
                == ' ' by {
                if i < st.0.len() {
                    assert(r[i] == st.0[i]);
                }
            }
        }
    }
}

/// A prefix of a single line is a single line once trailing spaces are impossible,
/// so the law is stated for whole collapsed texts and their bounded prefixes.
proof fn lemma_take_single_line(t: Seq<char>, n: int)
    requires
        is_single_line(t),
        0 <= n < t.len(),
    ensures
        forall|i: int|
            0 <= i < t.take(n).len() && is_white_space(#[trigger] t.take(n)[i]) ==> t.take(n)[i]
                == ' ',
        t.take(n).len() > 0 ==> t.take(n)[0] != ' ',
{
    assert forall|i: int|
        0 <= i < t.take(n).len() && is_white_space(#[trigger] t.take(n)[i]) implies t.take(n)[i]
        == ' ' by {
        assert(t.take(n)[i] == t[i]);
    }
}

/// `value` collapsed to a single line and cut to at most `max_chars` characters.
pub open spec fn bounded_line(value: Seq<char>, max_chars: nat) -> Seq<char> {
    let t = single_line(value);
    if t.len() <= max_chars {
        t
    } else {
        t.take(max_chars as int)
    }
}

/// Collapses white space runs to single spaces, drops leading and trailing white
/// space, and keeps at most `max_chars` characters.
pub fn bounded_single_line(value: &str, max_chars: usize) -> (out: String)
    ensures
        out@ == bounded_line(value@, max_chars as nat),
        out@.len() <= max_chars,
        forall|i: int| 0 <= i < out@.len() && is_white_space(#[trigger] out@[i]) ==> out@[i] == ' ',
        out@.len() > 0 ==> out@[0] != ' ',
{
    let chars = chars_of(value);
    let mut line: Vec<char> = Vec::new();
    let mut pending = false;
    let mut i: usize = 0;
    while i < chars.len()
        invariant
            i <= chars.len(),
            chars@ == value@,
            (line@, pending) == collapse_state(value@.take(i as int)),
        decreases chars.len() - i,
    {
        let c = chars[i];
        assert(value@.take(i + 1).drop_last() == value@.take(i as int));
        if is_whitespace_char(c) {
            pending = line.len() > 0;
        } else {
            if pending {
                line.push(' ');
            }
            line.push(c);
            pending = false;
        }
        i = i + 1;
    }
    assert(value@.take(chars.len() as int) == value@);
    proof {
        lemma_collapse_state_single_line(value@);
        if line@.len() > max_chars {
            lemma_take_single_line(line@, max_chars as int);
        }
    }
    let end = if line.len() <= max_chars {
        line.len()
    } else {
        max_chars
    };
    let out = string_from_range(&line, 0, end);
    assert(line@.subrange(0, end as int) == bounded_line(value@, max_chars as nat));
    out
}

// ---------------------------------------------------------------------------
// ASCII helpers and numbers
// ---------------------------------------------------------------------------
/// ASCII lower-casing of one character (other characters are unchanged).
pub open spec fn ascii_lower(c: char) -> char {
    if 'A' <= c <= 'Z' {
        ((c as u32) + 32) as char
    } else {
        c
    }
}

/// `str::eq_ignore_ascii_case`, stated over characters.
pub open spec fn eq_ignore_ascii_case_spec(a: Seq<char>, b: Seq<char>) -> bool {
    a.len() == b.len() && forall|i: int| 0 <= i < a.len() ==> ascii_lower(#[trigger] a[i])
        == ascii_lower(b[i])
}

fn ascii_lower_char(c: char) -> (r: char)
    ensures
        r == ascii_lower(c),
{
    if 'A' <= c && c <= 'Z' {
        let b = (c as u32) as u8;
        (b + 32) as char
    } else {
        c
    }
}

/// Compares two texts ignoring ASCII case.
pub fn eq_ignore_ascii_case(a: &Vec<char>, b: &str) -> (r: bool)
    ensures
        r == eq_ignore_ascii_case_spec(a@, b@),
{
    let y = chars_of(b);
    if a.len() != y.len() {
        return false;
    }
    let mut i: usize = 0;
    while i < a.len()
        invariant
            i <= a.len() == y.len(),
            y@ == b@,
            forall|j: int| 0 <= j < i ==> ascii_lower(#[trigger] a@[j]) == ascii_lower(y@[j]),
        decreases a.len() - i,
    {
        if ascii_lower_char(a[i]) != ascii_lower_char(y[i]) {
            return false;
        }
        i = i + 1;
    }
    true
}

/// `s` with its first character upper-cased when it is an ASCII lower-case letter.
pub open spec fn capitalized(s: Seq<char>) -> Seq<char> {
    if s.len() > 0 && 'a' <= s[0] <= 'z' {
        s.update(0, ((s[0] as u32) - 32) as char)
    } else {
        s
    }
}

/// Upper-cases the first character when it is an ASCII lower-case letter.
pub fn capitalize_ascii(value: &Vec<char>) -> (out: String)
    ensures
        out@ == capitalized(value@),
{
    let mut chars = value.clone();
    if chars.len() > 0 && 'a' <= chars[0] && chars[0] <= 'z' {
        let b = (chars[0] as u32) as u8;
        chars.set(0, (b - 32) as char);
    }
    string_from_chars(&chars)
}

/// The decimal digit character for `d < 10`.
pub open spec fn digit_char(d: nat) -> char {
    (('0' as u32) + d) as char
}

/// The decimal text of `n` without leading zeros.
pub open spec fn decimal(n: nat) -> Seq<char>
    decreases n,
{
    if n < 10 {
        seq![digit_char(n)]
    } else {
        decimal(n / 10).push(digit_char(n % 10))
    }
}

fn digit(d: u64) -> (c: char)
    requires
        d < 10,
    ensures
        c == digit_char(d as nat),
{
    let b = (d as u8) + 48;
    b as char
}

/// Appends the decimal text of `n` to `s`.
pub fn push_decimal(s: &mut String, n: u64)
    ensures
        final(s)@ == old(s)@ + decimal(n as nat),
    decreases n,
{
    if n >= 10 {
        push_decimal(s, n / 10);
    }
    push_char(s, digit(n % 10));
}

} // verus!

verus! {

// ---------------------------------------------------------------------------
// Ordering of texts
// ---------------------------------------------------------------------------
/// Lexicographic order on characters by scalar value, which is the order of `str`
/// (UTF-8 byte order and scalar-value order agree).
pub open spec fn text_lt(a: Seq<char>, b: Seq<char>) -> bool
    decreases a.len(),
{
    if a.len() == 0 {
        b.len() > 0
    } else if b.len() == 0 {
        false
    } else if a[0] != b[0] {
        (a[0] as u32) < (b[0] as u32)
    } else {
        text_lt(a.drop_first(), b.drop_first())
    }
}

/// `text_lt` is irreflexive.
pub proof fn lemma_text_lt_irreflexive(a: Seq<char>)
    ensures
        !text_lt(a, a),
    decreases a.len(),
{
    if a.len() > 0 {
        lemma_text_lt_irreflexive(a.drop_first());
    }
}

/// `text_lt` is asymmetric.
pub proof fn lemma_text_lt_asymmetric(a: Seq<char>, b: Seq<char>)
    ensures
        text_lt(a, b) ==> !text_lt(b, a),
    decreases a.len(),
{
    if a.len() > 0 && b.len() > 0 && a[0] == b[0] {
        lemma_text_lt_asymmetric(a.drop_first(), b.drop_first());
    }
}

/// Two different texts are ordered one way or the other.
pub proof fn lemma_text_lt_total(a: Seq<char>, b: Seq<char>)
    ensures
        a != b ==> text_lt(a, b) || text_lt(b, a),
    decreases a.len(),
{
    if a.len() > 0 && b.len() > 0 && a[0] == b[0] {
        lemma_text_lt_total(a.drop_first(), b.drop_first());
        if a.drop_first() == b.drop_first() {
            assert(a =~= seq![a[0]] + a.drop_first());
            assert(b =~= seq![b[0]] + b.drop_first());
            assert(a =~= b);
        }
    }
    if a.len() == 0 && b.len() == 0 {
        assert(a =~= b);
    }
    if a.len() > 0 && b.len() > 0 && a[0] != b[0] {
        vstd::utf8::char_u32_cast(a[0], a[0] as u32);
        vstd::utf8::char_u32_cast(b[0], b[0] as u32);
    }
}

/// `text_lt` is transitive.
pub proof fn lemma_text_lt_transitive(a: Seq<char>, b: Seq<char>, c: Seq<char>)
    requires
        text_lt(a, b),
        text_lt(b, c),
    ensures
        text_lt(a, c),
    decreases a.len(),
{
    if a.len() > 0 && b.len() > 0 && c.len() > 0 && a[0] == b[0] && b[0] == c[0] {
        lemma_text_lt_transitive(a.drop_first(), b.drop_first(), c.drop_first());
    }
}

proof fn lemma_text_lt_skip(a: Seq<char>, b: Seq<char>, i: int)
    requires
        0 <= i <= a.len(),
        i <= b.len(),
        a.take(i) == b.take(i),
    ensures
        text_lt(a, b) == text_lt(a.skip(i), b.skip(i)),
    decreases i,
{
    if i > 0 {
        assert(a[0] == a.take(i)[0]);
        assert(b[0] == b.take(i)[0]);
        assert(a.drop_first().take(i - 1) =~= a.take(i).drop_first());
        assert(b.drop_first().take(i - 1) =~= b.take(i).drop_first());
        lemma_text_lt_skip(a.drop_first(), b.drop_first(), i - 1);
        assert(a.drop_first().skip(i - 1) =~= a.skip(i));
        assert(b.drop_first().skip(i - 1) =~= b.skip(i));
    } else {
        assert(a.skip(0) =~= a);
        assert(b.skip(0) =~= b);
    }
}

/// Whether `a` orders strictly before `b`.
pub fn text_less(a: &Vec<char>, b: &Vec<char>) -> (r: bool)
    ensures
        r == text_lt(a@, b@),
{
    let mut i: usize = 0;
    while i < a.len() && i < b.len() && a[i] == b[i]
        invariant
            i <= a.len(),
            i <= b.len(),
            a@.take(i as int) == b@.take(i as int),
        decreases a.len() - i,
    {
        assert(a@.take(i + 1) =~= a@.take(i as int).push(a@[i as int]));
        assert(b@.take(i + 1) =~= b@.take(i as int).push(b@[i as int]));
        i = i + 1;
    }
    proof {
        lemma_text_lt_skip(a@, b@, i as int);
    }
    if i < a.len() && i < b.len() {
        assert(a@.skip(i as int)[0] == a@[i as int]);
        assert(b@.skip(i as int)[0] == b@[i as int]);
        (a[i] as u32) < (b[i] as u32)
    } else {
        i == a.len() && i < b.len()
    }
}

} // verus!
