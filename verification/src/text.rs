//! Character-sequence helpers shared by the parsers and formatters.
//!
//! Strings are viewed as `Seq<char>`. The executable helpers work on
//! `Vec<char>` so that positions are character positions throughout.

use vstd::prelude::*;
use vstd::string::*;

verus! {

/// `String::push` appends exactly one character to the end of the string.
pub assume_specification[ String::push ](s: &mut String, c: char)
    ensures
        final(s)@ == old(s)@.push(c),
;

/// Number of leading characters of `s` that lie in `set` (when `inside`) or
/// that lie outside `set` (when `!inside`).
pub open spec fn span(s: Seq<char>, set: Seq<char>, inside: bool) -> nat
    decreases s.len(),
{
    if s.len() > 0 && set.contains(s[0]) == inside {
        1 + span(s.drop_first(), set, inside)
    } else {
        0
    }
}

/// `n` is where the run counted by [`span`] ends: everything before it
/// qualifies, and the character at `n`, if there is one, does not.
pub open spec fn is_span_end(s: Seq<char>, set: Seq<char>, inside: bool, n: int) -> bool {
    &&& 0 <= n <= s.len()
    &&& forall|j: int| 0 <= j < n ==> set.contains(#[trigger] s[j]) == inside
    &&& n < s.len() ==> set.contains(s[n]) != inside
}

/// [`span`] is the unique position described by [`is_span_end`].
pub proof fn lemma_span_end(s: Seq<char>, set: Seq<char>, inside: bool, n: int)
    requires
        is_span_end(s, set, inside, n),
    ensures
        span(s, set, inside) == n,
    decreases s.len(),
{
    if n > 0 {
        let t = s.drop_first();
        assert(set.contains(s[0]) == inside);
        assert forall|j: int| 0 <= j < n - 1 implies set.contains(#[trigger] t[j]) == inside by {
            assert(t[j] == s[j + 1]);
        }
        lemma_span_end(t, set, inside, n - 1);
    }
}

/// The position computed by [`span`] satisfies [`is_span_end`].
pub proof fn lemma_span_is_end(s: Seq<char>, set: Seq<char>, inside: bool)
    ensures
        is_span_end(s, set, inside, span(s, set, inside) as int),
    decreases s.len(),
{
    if s.len() > 0 && set.contains(s[0]) == inside {
        let t = s.drop_first();
        lemma_span_is_end(t, set, inside);
        let n = span(s, set, inside) as int;
        assert forall|j: int| 0 <= j < n implies set.contains(#[trigger] s[j]) == inside by {
            if j > 0 {
                assert(s[j] == t[j - 1]);
            }
        }
        if n < s.len() {
            assert(s[n] == t[n - 1]);
        }
    }
}

/// `needle` occurs in `hay` starting at position `i`.
pub open spec fn occurs_at(hay: Seq<char>, needle: Seq<char>, i: int) -> bool {
    &&& 0 <= i
    &&& i + needle.len() <= hay.len()
    &&& hay.subrange(i, i + needle.len()) == needle
}

/// Position of the first occurrence of `needle` in `hay`, if there is one.
pub closed spec fn find(hay: Seq<char>, needle: Seq<char>) -> Option<int> {
    if exists|i: int| occurs_at(hay, needle, i) {
        Some(choose|i: int| occurs_at(hay, needle, i) && forall|j: int| 0 <= j < i ==> !occurs_at(hay, needle, j))
    } else {
        None
    }
}

/// `s` begins with `prefix`.
pub open spec fn has_prefix(s: Seq<char>, prefix: Seq<char>) -> bool {
    occurs_at(s, prefix, 0)
}

/// The views of a list of strings.
pub open spec fn views(texts: Seq<String>) -> Seq<Seq<char>> {
    Seq::new(texts.len(), |i: int| texts[i]@)
}

/// The characters of a string, one vector element per character.
pub fn to_chars(s: &str) -> (v: Vec<char>)
    ensures
        v@ == s@,
{
    let mut v: Vec<char> = Vec::new();
    for c in it: s.chars()
        invariant
            v@ == it.seq().take(it.index@),
    {
        v.push(c);
    }
    v
}

/// The string made of the characters `v[from..to]`.
pub fn from_chars(v: &Vec<char>, from: usize, to: usize) -> (s: String)
    requires
        from <= to <= v.len(),
    ensures
        s@ == v@.subrange(from as int, to as int),
{
    let mut s = String::new();
    let mut i: usize = from;
    while i < to
        invariant
            from <= i <= to <= v.len(),
            s@ == v@.subrange(from as int, i as int),
        decreases to - i,
    {
        s.push(v[i]);
        i = i + 1;
        assert(s@ =~= v@.subrange(from as int, i as int));
    }
    s
}

/// `i` is the first place where `needle` occurs in `hay`.
pub open spec fn is_first_occurrence(hay: Seq<char>, needle: Seq<char>, i: int) -> bool {
    &&& occurs_at(hay, needle, i)
    &&& forall|j: int| 0 <= j < i ==> !occurs_at(hay, needle, j)
}

/// [`find`] returns the position described by [`is_first_occurrence`].
pub proof fn lemma_find_first(hay: Seq<char>, needle: Seq<char>, i: int)
    requires
        is_first_occurrence(hay, needle, i),
    ensures
        find(hay, needle) == Some(i),
{
    let k = choose|k: int|
        occurs_at(hay, needle, k) && forall|j: int| 0 <= j < k ==> !occurs_at(hay, needle, j);
    if k < i {
        assert(!occurs_at(hay, needle, k));
    }
    if i < k {
        assert(!occurs_at(hay, needle, i));
    }
}

/// [`find`] returns nothing exactly when `needle` occurs nowhere.
pub proof fn lemma_find_none(hay: Seq<char>, needle: Seq<char>)
    requires
        forall|j: int| 0 <= j <= hay.len() ==> !occurs_at(hay, needle, j),
    ensures
        find(hay, needle).is_none(),
{
    if exists|i: int| occurs_at(hay, needle, i) {
        let i = choose|i: int| occurs_at(hay, needle, i);
        assert(0 <= i <= hay.len());
    }
}

/// Where [`find`] returns nothing, `needle` occurs at no position.
pub proof fn lemma_find_none_absent(hay: Seq<char>, needle: Seq<char>, j: int)
    requires
        find(hay, needle).is_none(),
    ensures
        !occurs_at(hay, needle, j),
{
}

/// What [`find`] returns is a first occurrence.
pub proof fn lemma_find_some(hay: Seq<char>, needle: Seq<char>)
    requires
        find(hay, needle).is_some(),
    ensures
        is_first_occurrence(hay, needle, find(hay, needle).unwrap()),
{
    let w = choose|i: int| occurs_at(hay, needle, i);
    lemma_least_occurrence(hay, needle, w);
}

/// Below any occurrence there is a first one.
proof fn lemma_least_occurrence(hay: Seq<char>, needle: Seq<char>, w: int)
    requires
        occurs_at(hay, needle, w),
    ensures
        exists|i: int| is_first_occurrence(hay, needle, i),
    decreases w,
{
    if exists|j: int| 0 <= j < w && occurs_at(hay, needle, j) {
        let j = choose|j: int| 0 <= j < w && occurs_at(hay, needle, j);
        lemma_least_occurrence(hay, needle, j);
    } else {
        assert(is_first_occurrence(hay, needle, w));
    }
}

/// Whether `c` is one of the characters of `set`.
pub fn contains_char(set: &Vec<char>, c: char) -> (found: bool)
    ensures
        found == set@.contains(c),
{
    let mut i: usize = 0;
    while i < set.len()
        invariant
            i <= set.len(),
            forall|j: int| 0 <= j < i ==> set@[j] != c,
        decreases set.len() - i,
    {
        if set[i] == c {
            return true;
        }
        i = i + 1;
    }
    false
}

/// Scans `chars` from `start` while the characters lie in `set` (when
/// `inside`) or outside it (when `!inside`); returns where the scan stops.
pub fn span_end(chars: &Vec<char>, start: usize, set: &Vec<char>, inside: bool) -> (end: usize)
    requires
        start <= chars.len(),
    ensures
        start <= end <= chars.len(),
        end == start + span(chars@.skip(start as int), set@, inside),
{
    let mut i: usize = start;
    while i < chars.len() && contains_char(set, chars[i]) == inside
        invariant
            start <= i <= chars.len(),
            forall|j: int| start <= j < i ==> set@.contains(#[trigger] chars@[j]) == inside,
        decreases chars.len() - i,
    {
        i = i + 1;
    }
    proof {
        let rest = chars@.skip(start as int);
        assert forall|j: int| 0 <= j < i - start implies set@.contains(#[trigger] rest[j])
            == inside by {
            assert(rest[j] == chars@[start + j]);
        }
        lemma_span_end(rest, set@, inside, i - start);
    }
    i
}

/// Whether `pattern` occurs in `chars` at position `at`.
pub fn matches_at(chars: &Vec<char>, at: usize, pattern: &Vec<char>) -> (hit: bool)
    ensures
        hit == occurs_at(chars@, pattern@, at as int),
{
    if pattern.len() > chars.len() || at > chars.len() - pattern.len() {
        return false;
    }
    let mut k: usize = 0;
    while k < pattern.len()
        invariant
            k <= pattern.len(),
            at + pattern.len() <= chars.len(),
            forall|j: int| 0 <= j < k ==> chars@[at + j] == pattern@[j],
        decreases pattern.len() - k,
    {
        if chars[at + k] != pattern[k] {
            proof {
                let window = chars@.subrange(at as int, at + pattern.len());
                assert(window[k as int] == chars@[at + k]);
            }
            return false;
        }
        k = k + 1;
    }
    assert(chars@.subrange(at as int, at + pattern.len()) =~= pattern@);
    true
}

/// Position, counted from `start`, of the first occurrence of `needle` in
/// `chars[start..]`.
pub fn find_from(chars: &Vec<char>, start: usize, needle: &Vec<char>) -> (at: Option<usize>)
    requires
        start <= chars.len(),
    ensures
        match at {
            Some(k) => start + k <= chars.len() && find(chars@.skip(start as int), needle@)
                == Some(k as int),
            None => find(chars@.skip(start as int), needle@).is_none(),
        },
{
    let ghost rest = chars@.skip(start as int);
    let mut i: usize = start;
    while i < chars.len()
        invariant
            start <= i <= chars.len(),
            rest == chars@.skip(start as int),
            forall|j: int| 0 <= j < i - start ==> !occurs_at(rest, needle@, j),
        decreases chars.len() - i,
    {
        proof {
            lemma_occurs_shift(chars@, needle@, start as int, i - start);
        }
        if matches_at(chars, i, needle) {
            proof {
                lemma_find_first(rest, needle@, i - start);
            }
            return Some(i - start);
        }
        i = i + 1;
    }
    proof {
        lemma_occurs_shift(chars@, needle@, start as int, i - start);
    }
    if matches_at(chars, i, needle) {
        proof {
            lemma_find_first(rest, needle@, i - start);
        }
        return Some(i - start);
    }
    proof {
        lemma_find_none(rest, needle@);
    }
    None
}

/// An occurrence in a suffix is an occurrence in the whole, shifted.
pub proof fn lemma_occurs_shift(hay: Seq<char>, needle: Seq<char>, start: int, k: int)
    requires
        0 <= start <= hay.len(),
        0 <= k,
    ensures
        occurs_at(hay.skip(start), needle, k) == occurs_at(hay, needle, start + k),
{
    let rest = hay.skip(start);
    if k + needle.len() <= rest.len() {
        assert(rest.subrange(k, k + needle.len()) =~= hay.subrange(
            start + k,
            start + k + needle.len(),
        ));
    }
}

/// A run that qualifies throughout, followed by something that does not
/// start with a qualifying character, is exactly what [`span`] counts.
pub proof fn lemma_span_concat(a: Seq<char>, b: Seq<char>, set: Seq<char>, inside: bool)
    requires
        forall|j: int| 0 <= j < a.len() ==> set.contains(#[trigger] a[j]) == inside,
        b.len() > 0 ==> set.contains(b[0]) != inside,
    ensures
        span(a + b, set, inside) == a.len(),
        (a + b).skip(a.len() as int) == b,
        (a + b).take(a.len() as int) == a,
{
    let s = a + b;
    assert forall|j: int| 0 <= j < a.len() implies set.contains(#[trigger] s[j]) == inside by {
        assert(s[j] == a[j]);
    }
    if a.len() < s.len() {
        assert(s[a.len() as int] == b[0]);
    }
    lemma_span_end(s, set, inside, a.len() as int);
    assert(s.skip(a.len() as int) =~= b);
    assert(s.take(a.len() as int) =~= a);
}

/// The characters that count as white space: those with the Unicode
/// property `White_Space`.
pub open spec fn is_whitespace(c: char) -> bool {
    let n = c as u32;
    ||| 0x09 <= n <= 0x0D
    ||| n == 0x20
    ||| n == 0x85
    ||| n == 0xA0
    ||| n == 0x1680
    ||| 0x2000 <= n <= 0x200A
    ||| n == 0x2028
    ||| n == 0x2029
    ||| n == 0x202F
    ||| n == 0x205F
    ||| n == 0x3000
}

/// Number of white-space characters that `s` starts with.
pub open spec fn leading_blank(s: Seq<char>) -> nat
    decreases s.len(),
{
    if s.len() > 0 && is_whitespace(s[0]) {
        1 + leading_blank(s.drop_first())
    } else {
        0
    }
}

/// Number of white-space characters that `s` ends with.
pub open spec fn trailing_blank(s: Seq<char>) -> nat
    decreases s.len(),
{
    if s.len() > 0 && is_whitespace(s.last()) {
        1 + trailing_blank(s.drop_last())
    } else {
        0
    }
}

/// `s` without the white space it starts with.
pub open spec fn trim_start(s: Seq<char>) -> Seq<char> {
    s.skip(leading_blank(s) as int)
}

/// `s` without the white space it ends with.
pub open spec fn trim_end(s: Seq<char>) -> Seq<char> {
    s.take(s.len() - trailing_blank(s))
}

/// `s` without the white space at either end.
pub open spec fn trim(s: Seq<char>) -> Seq<char> {
    trim_end(trim_start(s))
}

/// A run of `n` white-space characters at the start, ended by another
/// character or by the end of `s`, is what [`leading_blank`] counts.
pub proof fn lemma_leading_blank(s: Seq<char>, n: int)
    requires
        0 <= n <= s.len(),
        forall|j: int| 0 <= j < n ==> is_whitespace(#[trigger] s[j]),
        n < s.len() ==> !is_whitespace(s[n]),
    ensures
        leading_blank(s) == n,
    decreases s.len(),
{
    if n > 0 {
        let t = s.drop_first();
        assert(is_whitespace(s[0]));
        assert forall|j: int| 0 <= j < n - 1 implies is_whitespace(#[trigger] t[j]) by {
            assert(t[j] == s[j + 1]);
        }
        lemma_leading_blank(t, n - 1);
    }
}

/// A run of `n` white-space characters at the end, preceded by another
/// character or by the start of `s`, is what [`trailing_blank`] counts.
pub proof fn lemma_trailing_blank(s: Seq<char>, n: int)
    requires
        0 <= n <= s.len(),
        forall|j: int| s.len() - n <= j < s.len() ==> is_whitespace(#[trigger] s[j]),
        n < s.len() ==> !is_whitespace(s[s.len() - n - 1]),
    ensures
        trailing_blank(s) == n,
    decreases s.len(),
{
    if n > 0 {
        let t = s.drop_last();
        assert(is_whitespace(s[s.len() - 1]));
        assert forall|j: int| t.len() - (n - 1) <= j < t.len() implies is_whitespace(
            #[trigger] t[j],
        ) by {
            assert(t[j] == s[j]);
        }
        lemma_trailing_blank(t, n - 1);
    }
}

/// Whether a character is white space.
pub fn char_is_whitespace(c: char) -> (r: bool)
    ensures
        r == is_whitespace(c),
{
    let n: u32 = c as u32;
    (0x09 <= n && n <= 0x0D) || n == 0x20 || n == 0x85 || n == 0xA0 || n == 0x1680 || (0x2000 <= n
        && n <= 0x200A) || n == 0x2028 || n == 0x2029 || n == 0x202F || n == 0x205F || n == 0x3000
}

/// Where `chars[from..to]` starts once the white space at its start is
/// left out.
pub fn trim_start_bound(chars: &Vec<char>, from: usize, to: usize) -> (start: usize)
    requires
        from <= to <= chars.len(),
    ensures
        from <= start <= to,
        chars@.subrange(start as int, to as int) == trim_start(
            chars@.subrange(from as int, to as int),
        ),
{
    let mut i: usize = from;
    while i < to && char_is_whitespace(chars[i])
        invariant
            from <= i <= to <= chars.len(),
            forall|j: int| from <= j < i ==> is_whitespace(#[trigger] chars@[j]),
        decreases to - i,
    {
        i = i + 1;
    }
    proof {
        let piece = chars@.subrange(from as int, to as int);
        assert forall|j: int| 0 <= j < i - from implies is_whitespace(#[trigger] piece[j]) by {
            assert(piece[j] == chars@[from + j]);
        }
        lemma_leading_blank(piece, i - from);
        assert(piece.skip(i - from) =~= chars@.subrange(i as int, to as int));
    }
    i
}

/// Where `chars[from..to]` ends once the white space at its end is left
/// out.
pub fn trim_end_bound(chars: &Vec<char>, from: usize, to: usize) -> (end: usize)
    requires
        from <= to <= chars.len(),
    ensures
        from <= end <= to,
        chars@.subrange(from as int, end as int) == trim_end(
            chars@.subrange(from as int, to as int),
        ),
{
    let mut i: usize = to;
    while i > from && char_is_whitespace(chars[i - 1])
        invariant
            from <= i <= to <= chars.len(),
            forall|j: int| i <= j < to ==> is_whitespace(#[trigger] chars@[j]),
        decreases i,
    {
        i = i - 1;
    }
    proof {
        let piece = chars@.subrange(from as int, to as int);
        assert forall|j: int| piece.len() - (to - i) <= j < piece.len() implies is_whitespace(
            #[trigger] piece[j],
        ) by {
            assert(piece[j] == chars@[from + j]);
        }
        lemma_trailing_blank(piece, to - i);
        assert(piece.take(piece.len() - (to - i)) =~= chars@.subrange(from as int, i as int));
    }
    i
}

/// The bounds of `chars[from..to]` once the white space at both ends is
/// left out.
pub fn trim_bounds(chars: &Vec<char>, from: usize, to: usize) -> (r: (usize, usize))
    requires
        from <= to <= chars.len(),
    ensures
        from <= r.0 <= r.1 <= to,
        chars@.subrange(r.0 as int, r.1 as int) == trim(chars@.subrange(from as int, to as int)),
{
    let start = trim_start_bound(chars, from, to);
    let end = trim_end_bound(chars, start, to);
    (start, end)
}

/// A text without the white space at either end.
pub fn trimmed(text: &str) -> (r: String)
    ensures
        r@ == trim(text@),
{
    let chars = to_chars(text);
    assert(chars@.subrange(0, chars.len() as int) =~= chars@);
    let (start, end) = trim_bounds(&chars, 0, chars.len());
    from_chars(&chars, start, end)
}

/// A text without the white space at its end.
pub fn trimmed_end(text: &str) -> (r: String)
    ensures
        r@ == trim_end(text@),
{
    let chars = to_chars(text);
    assert(chars@.subrange(0, chars.len() as int) =~= chars@);
    let end = trim_end_bound(&chars, 0, chars.len());
    from_chars(&chars, 0, end)
}

} // verus!
