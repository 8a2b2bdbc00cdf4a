//! Text handling on sequences of characters.
//!
//! A text is modelled as the `Seq<char>` of its characters. The executable
//! functions work on slices of characters, so that every position is a
//! character index and no byte boundary can be missed.

use vstd::prelude::*;

verus! {

// ---------------------------------------------------------------------------
// Conversions between strings and characters
// ---------------------------------------------------------------------------

/// `String::push` appends the given character to the end of the string.
pub assume_specification[ String::push ](s: &mut String, ch: char)
    ensures
        final(s)@ == old(s)@.push(ch),
;

/// The characters of `s`, in order.
pub fn chars_of(s: &str) -> (cs: Vec<char>)
    ensures
        cs@ == s@,
{
    let mut cs: Vec<char> = Vec::new();
    for c in it: s.chars()
        invariant
            it.seq() == s@,
            cs@ == s@.take(it.index() as int),
    {
        cs.push(c);
    }
    assert(cs@ == s@);
    cs
}

/// The string made of `cs`, in order.
pub fn string_of(cs: &[char]) -> (s: String)
    ensures
        s@ == cs@,
{
    let mut s = String::new();
    let mut i: usize = 0;
    while i < cs.len()
        invariant
            i <= cs@.len(),
            s@ == cs@.take(i as int),
        decreases cs@.len() - i,
    {
        s.push(cs[i]);
        i += 1;
    }
    assert(cs@.take(i as int) == cs@);
    s
}

// ---------------------------------------------------------------------------
// Whitespace
// ---------------------------------------------------------------------------

/// Whether `c` has the Unicode property `White_Space`.
pub open spec fn is_white(c: char) -> bool {
    ||| 0x09 <= c as u32 <= 0x0d
    ||| c as u32 == 0x20
    ||| c as u32 == 0x85
    ||| c as u32 == 0xa0
    ||| c as u32 == 0x1680
    ||| 0x2000 <= c as u32 <= 0x200a
    ||| c as u32 == 0x2028
    ||| c as u32 == 0x2029
    ||| c as u32 == 0x202f
    ||| c as u32 == 0x205f
    ||| c as u32 == 0x3000
}

/// Whether `c` has the Unicode property `White_Space`.
pub fn is_whitespace(c: char) -> (b: bool)
    ensures
        b == is_white(c),
{
    let n: u32 = c as u32;
    (0x09 <= n && n <= 0x0d) || n == 0x20 || n == 0x85 || n == 0xa0 || n == 0x1680
        || (0x2000 <= n && n <= 0x200a) || n == 0x2028 || n == 0x2029 || n == 0x202f
        || n == 0x205f || n == 0x3000
}

/// `s` without the whitespace at its front.
pub open spec fn trim_front(s: Seq<char>) -> Seq<char>
    decreases s.len(),
{
    if s.len() > 0 && is_white(s[0]) {
        trim_front(s.drop_first())
    } else {
        s
    }
}

/// `s` without the whitespace at its back.
pub open spec fn trim_back(s: Seq<char>) -> Seq<char>
    decreases s.len(),
{
    if s.len() > 0 && is_white(s.last()) {
        trim_back(s.drop_last())
    } else {
        s
    }
}

/// `s` without the whitespace at its two ends.
pub open spec fn trimmed(s: Seq<char>) -> Seq<char> {
    trim_back(trim_front(s))
}

/// The part of `s[lo..hi]` that is left when the whitespace at its two ends
/// is taken off, as the two ends of that part.
pub fn trim_bounds(s: &[char], lo: usize, hi: usize) -> (r: (usize, usize))
    requires
        lo <= hi <= s@.len(),
    ensures
        lo <= r.0 <= r.1 <= hi,
        s@.subrange(r.0 as int, r.1 as int) == trimmed(s@.subrange(lo as int, hi as int)),
{
    let mut a: usize = lo;
    while a < hi && is_whitespace(s[a])
        invariant
            lo <= a <= hi <= s@.len(),
            trim_front(s@.subrange(lo as int, hi as int)) == trim_front(
                s@.subrange(a as int, hi as int),
            ),
        decreases hi - a,
    {
        assert(s@.subrange(a as int, hi as int).drop_first() == s@.subrange(a + 1, hi as int));
        a += 1;
    }
    let mut b: usize = hi;
    while a < b && is_whitespace(s[b - 1])
        invariant
            lo <= a <= b <= hi <= s@.len(),
            trim_back(s@.subrange(a as int, hi as int)) == trim_back(
                s@.subrange(a as int, b as int),
            ),
        decreases b - a,
    {
        assert(s@.subrange(a as int, b as int).drop_last() == s@.subrange(a as int, b - 1));
        b -= 1;
    }
    (a, b)
}

/// `s` without the whitespace at its two ends.
pub fn trim<'a>(s: &'a [char]) -> (r: &'a [char])
    ensures
        r@ == trimmed(s@),
{
    let (a, b) = trim_bounds(s, 0, s.len());
    assert(s@.subrange(0, s@.len() as int) == s@);
    vstd::slice::slice_subrange(s, a, b)
}

// ---------------------------------------------------------------------------
// Searching
// ---------------------------------------------------------------------------

/// The first index of `s` whose character satisfies `p`, or `s.len()` if there
/// is none.
pub open spec fn first_where(s: Seq<char>, p: spec_fn(char) -> bool) -> int
    decreases s.len(),
{
    if s.len() == 0 || p(s[0]) {
        0
    } else {
        1 + first_where(s.drop_first(), p)
    }
}

/// What `first_where` is, without recursion.
pub proof fn lemma_first_where(s: Seq<char>, p: spec_fn(char) -> bool)
    ensures
        0 <= first_where(s, p) <= s.len(),
        forall|i: int| 0 <= i < first_where(s, p) ==> !p(#[trigger] s[i]),
        first_where(s, p) < s.len() ==> p(s[first_where(s, p)]),
    decreases s.len(),
{
    if s.len() > 0 && !p(s[0]) {
        let rest = s.drop_first();
        lemma_first_where(rest, p);
        assert forall|i: int| 0 <= i < first_where(s, p) implies !p(#[trigger] s[i]) by {
            if i > 0 {
                assert(s[i] == rest[i - 1]);
            }
        }
    }
}

/// An index that has the properties of `first_where` is `first_where`.
pub proof fn lemma_first_where_is(s: Seq<char>, p: spec_fn(char) -> bool, k: int)
    requires
        0 <= k <= s.len(),
        forall|i: int| 0 <= i < k ==> !p(#[trigger] s[i]),
        k < s.len() ==> p(s[k]),
    ensures
        first_where(s, p) == k,
{
    lemma_first_where(s, p);
    let f = first_where(s, p);
    if f < k {
        assert(!p(s[f]));
    } else if k < f {
        assert(!p(s[k]));
    }
}

/// The property of being the character `c`.
pub open spec fn is_char(c: char) -> spec_fn(char) -> bool {
    |x: char| x == c
}

/// The property of being whitespace.
pub open spec fn white_char() -> spec_fn(char) -> bool {
    |c: char| is_white(c)
}

/// The index of the first `c` in `s`, or `s.len()` if there is none.
pub open spec fn index_of(s: Seq<char>, c: char) -> int {
    first_where(s, is_char(c))
}

/// What `index_of` is, without recursion.
pub proof fn lemma_index_of(s: Seq<char>, c: char)
    ensures
        0 <= index_of(s, c) <= s.len(),
        forall|i: int| 0 <= i < index_of(s, c) ==> #[trigger] s[i] != c,
        index_of(s, c) < s.len() ==> s[index_of(s, c)] == c,
{
    lemma_first_where(s, is_char(c));
}

/// The index of the first `c` in `s[lo..hi]`, or `hi` if there is none.
pub fn find_char(s: &[char], lo: usize, hi: usize, c: char) -> (r: usize)
    requires
        lo <= hi <= s@.len(),
    ensures
        lo <= r <= hi,
        r == lo + index_of(s@.subrange(lo as int, hi as int), c),
        r < hi ==> s@[r as int] == c,
{
    let mut i: usize = lo;
    while i < hi && s[i] != c
        invariant
            lo <= i <= hi <= s@.len(),
            forall|j: int| lo <= j < i ==> s@[j] != c,
        decreases hi - i,
    {
        i += 1;
    }
    proof {
        lemma_first_where_is(s@.subrange(lo as int, hi as int), is_char(c), i - lo);
    }
    i
}

/// The index of the last `c` in `s`, or -1 if there is none.
pub open spec fn last_index_of(s: Seq<char>, c: char) -> int
    decreases s.len(),
{
    if s.len() == 0 {
        -1
    } else if s.last() == c {
        s.len() - 1
    } else {
        last_index_of(s.drop_last(), c)
    }
}

/// The index of the last `c` in `s`.
pub fn rfind_char(s: &[char], c: char) -> (r: Option<usize>)
    ensures
        match r {
            Some(i) => i < s@.len() && s@[i as int] == c && last_index_of(s@, c) == i,
            None => last_index_of(s@, c) == -1,
        },
{
    let mut i: usize = s.len();
    assert(s@.take(i as int) == s@);
    while i > 0
        invariant
            i <= s@.len(),
            last_index_of(s@, c) == last_index_of(s@.take(i as int), c),
        decreases i,
    {
        assert(s@.take(i as int).drop_last() == s@.take(i - 1));
        if s[i - 1] == c {
            return Some(i - 1);
        }
        i -= 1;
    }
    None
}

/// The first index, from `from` on, at which `needle` stands in `hay`.
pub open spec fn find_from<T>(hay: Seq<T>, needle: Seq<T>, from: int) -> Option<int>
    decreases hay.len() - from + 1,
{
    if from < 0 || from + needle.len() > hay.len() {
        None
    } else if hay.subrange(from, from + needle.len()) == needle {
        Some(from)
    } else {
        find_from(hay, needle, from + 1)
    }
}

/// The first index at which `needle` stands in `hay`.
pub open spec fn find<T>(hay: Seq<T>, needle: Seq<T>) -> Option<int> {
    find_from(hay, needle, 0)
}

/// Whether `needle` stands in `hay` at index `i`.
pub open spec fn stands_at<T>(hay: Seq<T>, needle: Seq<T>, i: int) -> bool {
    0 <= i && i + needle.len() <= hay.len() && hay.subrange(i, i + needle.len()) == needle
}

/// What `find_from` is, without recursion.
pub proof fn lemma_find_from<T>(hay: Seq<T>, needle: Seq<T>, from: int)
    requires
        0 <= from,
    ensures
        match find_from(hay, needle, from) {
            Some(k) => from <= k && stands_at(hay, needle, k) && forall|i: int|
                from <= i < k ==> !#[trigger] stands_at(hay, needle, i),
            None => forall|i: int| from <= i ==> !#[trigger] stands_at(hay, needle, i),
        },
    decreases hay.len() - from + 1,
{
    if from + needle.len() <= hay.len() && hay.subrange(from, from + needle.len()) != needle {
        lemma_find_from(hay, needle, from + 1);
    }
}

/// Whether `needle` stands in `hay` at index `i`.
pub fn is_at(hay: &[char], needle: &[char], i: usize) -> (b: bool)
    requires
        i <= hay@.len(),
    ensures
        b == stands_at(hay@, needle@, i as int),
{
    if needle.len() > hay.len() - i {
        return false;
    }
    let mut j: usize = 0;
    while j < needle.len()
        invariant
            j <= needle@.len(),
            i + needle@.len() <= hay@.len(),
            hay@.len() <= usize::MAX,
            forall|k: int| 0 <= k < j ==> hay@[i + k] == needle@[k],
        decreases needle@.len() - j,
    {
        if hay[i + j] != needle[j] {
            assert(hay@.subrange(i as int, i + needle@.len())[j as int] != needle@[j as int]);
            return false;
        }
        j += 1;
    }
    assert(hay@.subrange(i as int, i + needle@.len()) == needle@);
    true
}

/// The first index, from `from` on, at which `needle` stands in `hay`.
pub fn find_text(hay: &[char], needle: &[char], from: usize) -> (r: Option<usize>)
    requires
        from <= hay@.len(),
    ensures
        match r {
            Some(k) => find_from(hay@, needle@, from as int) == Some(k as int) && from <= k && k
                + needle@.len() <= hay@.len(),
            None => find_from(hay@, needle@, from as int) is None,
        },
{
    if needle.len() > hay.len() {
        return None;
    }
    let mut i: usize = from;
    while i <= hay.len() - needle.len()
        invariant
            from <= i <= hay@.len() + 1,
            needle@.len() <= hay@.len(),
            from <= hay@.len(),
            find_from(hay@, needle@, from as int) == find_from(hay@, needle@, i as int),
        decreases hay@.len() + 1 - i,
    {
        if is_at(hay, needle, i) {
            return Some(i);
        }
        if i == hay.len() {
            assert(find_from(hay@, needle@, i + 1) is None);
            return None;
        }
        i += 1;
    }
    None
}

/// Whether two texts hold the same characters.
pub fn same(a: &[char], b: &[char]) -> (r: bool)
    ensures
        r == (a@ == b@),
{
    if a.len() != b.len() {
        return false;
    }
    let r = is_at(a, b, 0);
    assert(a@.subrange(0, a@.len() as int) == a@);
    r
}

/// Whether the strings `a` and `b` hold the same characters.
pub fn same_str(a: &str, b: &str) -> (r: bool)
    ensures
        r == (a@ == b@),
{
    let x = chars_of(a);
    let y = chars_of(b);
    same(x.as_slice(), y.as_slice())
}

/// The words of `s`: its longest runs of characters other than whitespace.
pub open spec fn words(s: Seq<char>) -> Seq<Seq<char>>
    decreases s.len(),
    via words_decreases
{
    let t = trim_front(s);
    if t.len() == 0 {
        Seq::empty()
    } else {
        let k = first_where(t, white_char());
        seq![t.take(k)] + words(t.skip(k))
    }
}

#[via_fn]
proof fn words_decreases(s: Seq<char>) {
    let t = trim_front(s);
    lemma_trim_front_len(s);
    if t.len() > 0 {
        lemma_first_where(t, white_char());
        lemma_trim_front_starts(s);
    }
}

proof fn lemma_trim_front_len(s: Seq<char>)
    ensures
        trim_front(s).len() <= s.len(),
    decreases s.len(),
{
    if s.len() > 0 && is_white(s[0]) {
        lemma_trim_front_len(s.drop_first());
    }
}

proof fn lemma_trim_front_starts(s: Seq<char>)
    ensures
        trim_front(s).len() > 0 ==> !is_white(trim_front(s)[0]),
    decreases s.len(),
{
    if s.len() > 0 && is_white(s[0]) {
        lemma_trim_front_starts(s.drop_first());
    }
}

/// The first word of `s[lo..hi]` as the two ends of its place, or `(hi, hi)` if
/// there is none. The words after it are those of `s[r.1..hi]`.
pub fn next_word(s: &[char], lo: usize, hi: usize) -> (r: (usize, usize))
    requires
        lo <= hi <= s@.len(),
    ensures
        lo <= r.0 <= r.1 <= hi,
        r.0 == r.1 ==> words(s@.subrange(lo as int, hi as int)) == Seq::<Seq<char>>::empty(),
        r.0 < r.1 ==> words(s@.subrange(lo as int, hi as int)) == seq![
            s@.subrange(r.0 as int, r.1 as int),
        ] + words(s@.subrange(r.1 as int, hi as int)),
{
    let mut a: usize = lo;
    while a < hi && is_whitespace(s[a])
        invariant
            lo <= a <= hi <= s@.len(),
            trim_front(s@.subrange(lo as int, hi as int)) == trim_front(
                s@.subrange(a as int, hi as int),
            ),
        decreases hi - a,
    {
        assert(s@.subrange(a as int, hi as int).drop_first() == s@.subrange(a + 1, hi as int));
        a += 1;
    }
    let mut b: usize = a;
    while b < hi && !is_whitespace(s[b])
        invariant
            lo <= a <= b <= hi <= s@.len(),
            forall|j: int| a <= j < b ==> !is_white(#[trigger] s@[j]),
        decreases hi - b,
    {
        b += 1;
    }
    proof {
        let t = s@.subrange(a as int, hi as int);
        lemma_first_where_is(t, white_char(), b - a);
        assert(t.take(b - a) == s@.subrange(a as int, b as int));
        assert(t.skip(b - a) == s@.subrange(b as int, hi as int));
    }
    (a, b)
}

/// The pieces of `s` between the occurrences of `c`.
pub open spec fn split_on(s: Seq<char>, c: char) -> Seq<Seq<char>>
    decreases s.len(),
    via split_on_decreases
{
    let k = index_of(s, c);
    if k >= s.len() {
        seq![s]
    } else {
        seq![s.take(k)] + split_on(s.skip(k + 1), c)
    }
}

#[via_fn]
proof fn split_on_decreases(s: Seq<char>, c: char) {
    lemma_index_of(s, c);
}

/// `s` without the characters `c` at its front.
pub open spec fn strip_front(s: Seq<char>, c: char) -> Seq<char>
    decreases s.len(),
{
    if s.len() > 0 && s[0] == c {
        strip_front(s.drop_first(), c)
    } else {
        s
    }
}

/// `s` without the characters `c` at its back.
pub open spec fn strip_back(s: Seq<char>, c: char) -> Seq<char>
    decreases s.len(),
{
    if s.len() > 0 && s.last() == c {
        strip_back(s.drop_last(), c)
    } else {
        s
    }
}

/// `s` without the characters `c` at its front.
pub fn trim_start_char<'a>(s: &'a [char], c: char) -> (r: &'a [char])
    ensures
        r@ == strip_front(s@, c),
{
    let mut a: usize = 0;
    assert(s@.skip(0) == s@);
    while a < s.len() && s[a] == c
        invariant
            a <= s@.len(),
            strip_front(s@, c) == strip_front(s@.skip(a as int), c),
        decreases s@.len() - a,
    {
        assert(s@.skip(a as int).drop_first() == s@.skip(a + 1));
        a += 1;
    }
    assert(s@.subrange(a as int, s@.len() as int) == s@.skip(a as int));
    vstd::slice::slice_subrange(s, a, s.len())
}

/// `s` without the characters `c` at its two ends.
pub fn trim_char<'a>(s: &'a [char], c: char) -> (r: &'a [char])
    ensures
        r@ == strip_back(strip_front(s@, c), c),
{
    let t = trim_start_char(s, c);
    let mut b: usize = t.len();
    assert(t@.take(b as int) == t@);
    while b > 0 && t[b - 1] == c
        invariant
            b <= t@.len(),
            strip_back(t@, c) == strip_back(t@.take(b as int), c),
        decreases b,
    {
        assert(t@.take(b as int).drop_last() == t@.take(b - 1));
        b -= 1;
    }
    assert(t@.subrange(0, b as int) == t@.take(b as int));
    vstd::slice::slice_subrange(t, 0, b)
}

// ---------------------------------------------------------------------------
// Letter case
// ---------------------------------------------------------------------------

/// `c` with an ASCII capital made small.
pub open spec fn ascii_lower(c: char) -> char {
    if 'A' <= c <= 'Z' {
        (c as u32 + 32) as char
    } else {
        c
    }
}

/// `s` with every ASCII capital made small.
pub open spec fn ascii_lowercase(s: Seq<char>) -> Seq<char> {
    s.map_values(|c: char| ascii_lower(c))
}

/// `c` with an ASCII capital made small.
pub fn to_ascii_lower(c: char) -> (r: char)
    ensures
        r == ascii_lower(c),
{
    if 'A' <= c && c <= 'Z' {
        ((c as u8) + 32) as char
    } else {
        c
    }
}

/// `s` with every ASCII capital made small.
pub fn to_ascii_lowercase(s: &[char]) -> (r: Vec<char>)
    ensures
        r@ == ascii_lowercase(s@),
{
    let mut r: Vec<char> = Vec::new();
    let mut i: usize = 0;
    while i < s.len()
        invariant
            i <= s@.len(),
            r@ == ascii_lowercase(s@.take(i as int)),
        decreases s@.len() - i,
    {
        r.push(to_ascii_lower(s[i]));
        i += 1;
        assert(r@ == ascii_lowercase(s@.take(i as int)));
    }
    assert(s@.take(i as int) == s@);
    r
}

// ---------------------------------------------------------------------------
// Numbers
// ---------------------------------------------------------------------------

/// Whether `c` is a decimal digit.
pub open spec fn is_digit(c: char) -> bool {
    '0' <= c <= '9'
}

/// The number that the digits `s` write in base ten.
pub open spec fn digits_value(s: Seq<char>) -> nat
    decreases s.len(),
{
    if s.len() == 0 {
        0
    } else {
        digits_value(s.drop_last()) * 10 + (s.last() as u32 - '0' as u32) as nat
    }
}

/// Whether every character of `s` is a decimal digit.
pub open spec fn all_digits(s: Seq<char>) -> bool {
    forall|i: int| 0 <= i < s.len() ==> is_digit(#[trigger] s[i])
}

/// `s` without one `+` at its front.
pub open spec fn without_plus(s: Seq<char>) -> Seq<char> {
    if s.len() > 0 && s[0] == '+' {
        s.drop_first()
    } else {
        s
    }
}

/// The number at most `max` that `s` writes: an optional `+`, then one or more
/// decimal digits and nothing else.
pub open spec fn parse_number(s: Seq<char>, max: nat) -> Option<nat> {
    let digits = without_plus(s);
    if digits.len() > 0 && all_digits(digits) && digits_value(digits) <= max {
        Some(digits_value(digits))
    } else {
        None
    }
}

proof fn lemma_digits_value_grows(s: Seq<char>, k: int)
    requires
        0 <= k <= s.len(),
        all_digits(s),
    ensures
        digits_value(s.take(k)) <= digits_value(s),
    decreases s.len() - k,
{
    if k < s.len() {
        lemma_digits_value_grows(s, k + 1);
        assert(s.take(k + 1).drop_last() == s.take(k));
    } else {
        assert(s.take(k) == s);
    }
}

/// The number at most `max` that `s` writes in decimal.
pub fn parse_u64(s: &[char], max: u64) -> (r: Option<u64>)
    ensures
        match r {
            Some(n) => n <= max && parse_number(s@, max as nat) == Some(n as nat),
            None => parse_number(s@, max as nat) is None,
        },
{
    let start: usize = if s.len() > 0 && s[0] == '+' {
        1
    } else {
        0
    };
    let ghost digits = without_plus(s@);
    assert(digits == s@.skip(start as int));
    if start == s.len() {
        return None;
    }
    let mut n: u64 = 0;
    let mut i: usize = start;
    while i < s.len()
        invariant
            start <= i <= s@.len(),
            digits == s@.skip(start as int),
            digits == without_plus(s@),
            digits.len() > 0,
            forall|j: int| 0 <= j < i - start ==> is_digit(#[trigger] digits[j]),
            n == digits_value(digits.take(i - start)),
            n <= max,
        decreases s@.len() - i,
    {
        let c = s[i];
        assert(c == digits[i - start]);
        if c < '0' || '9' < c {
            assert(!is_digit(digits[i - start]));
            return None;
        }
        let d: u64 = (c as u64) - 48;
        proof {
            assert(digits.take(i - start + 1).drop_last() == digits.take(i - start));
            assert(digits_value(digits.take(i - start + 1)) == n * 10 + d);
            if all_digits(digits) {
                lemma_digits_value_grows(digits, i - start + 1);
            }
        }
        if n > max / 10 || d > max - n * 10 {
            return None;
        }
        n = n * 10 + d;
        i += 1;
    }
    assert(digits.take(i - start) == digits);
    Some(n)
}

/// The number at most `u16::MAX` that `s` writes in decimal.
pub fn parse_u16(s: &[char]) -> (r: Option<u16>)
    ensures
        match r {
            Some(n) => parse_number(s@, 0xffff) == Some(n as nat),
            None => parse_number(s@, 0xffff) is None,
        },
{
    match parse_u64(s, 0xffff) {
        Some(n) => Some(n as u16),
        None => None,
    }
}

/// The number at most `u32::MAX` that `s` writes in decimal.
pub fn parse_u32(s: &[char]) -> (r: Option<u32>)
    ensures
        match r {
            Some(n) => parse_number(s@, 0xffff_ffff) == Some(n as nat),
            None => parse_number(s@, 0xffff_ffff) is None,
        },
{
    match parse_u64(s, 0xffff_ffff) {
        Some(n) => Some(n as u32),
        None => None,
    }
}

/// The character of the digit `d` in bases up to sixteen.
pub open spec fn digit_char(d: nat) -> char {
    if d < 10 {
        ('0' as u32 + d) as char
    } else {
        ('a' as u32 + (d - 10)) as char
    }
}

/// The character of the digit `d` in bases up to sixteen.
pub fn to_digit_char(d: u8) -> (c: char)
    requires
        d < 16,
    ensures
        c == digit_char(d as nat),
{
    if d < 10 {
        (48 + d) as char
    } else {
        (87 + d) as char
    }
}

/// `n` written in base `base`, without leading zeros.
pub open spec fn in_base(n: nat, base: nat) -> Seq<char>
    decreases n,
    via in_base_decreases
{
    if base < 2 {
        Seq::empty()
    } else if n < base {
        seq![digit_char(n)]
    } else {
        in_base(n / base, base).push(digit_char(n % base))
    }
}

#[via_fn]
proof fn in_base_decreases(n: nat, base: nat) {
    if 2 <= base <= n {
        assert(n / base < n) by (nonlinear_arith)
            requires
                2 <= base <= n,
        ;
    }
}

/// `n` written in decimal.
pub open spec fn decimal(n: nat) -> Seq<char> {
    in_base(n, 10)
}

/// `n` written in base `base`, least digit first.
fn digits_backwards(n: u128, base: u8) -> (r: Vec<char>)
    requires
        2 <= base <= 16,
    ensures
        r@.reverse() == in_base(n as nat, base as nat),
{
    let mut r: Vec<char> = Vec::new();
    let mut m: u128 = n;
    while m >= base as u128
        invariant
            2 <= base <= 16,
            in_base(n as nat, base as nat) == in_base(m as nat, base as nat) + r@.reverse(),
        decreases m,
    {
        let ghost before = r@;
        let ghost m0 = m as nat;
        r.push(to_digit_char((m % (base as u128)) as u8));
        m = m / (base as u128);
        proof {
            assert(r@.reverse() == seq![digit_char(m0 % (base as nat))] + before.reverse());
            assert(in_base(m0, base as nat) == in_base(m0 / (base as nat), base as nat).push(
                digit_char(m0 % (base as nat)),
            ));
            assert(in_base(m0, base as nat) + before.reverse() == in_base(
                m as nat,
                base as nat,
            ) + r@.reverse());
        }
    }
    let ghost before = r@;
    r.push(to_digit_char(m as u8));
    assert(r@.reverse() == seq![digit_char(m as nat)] + before.reverse());
    r
}

/// Appends `n`, written in decimal, to `out`.
pub fn push_decimal(out: &mut String, n: u64)
    ensures
        final(out)@ == old(out)@ + decimal(n as nat),
{
    let ds = digits_backwards(n as u128, 10);
    push_backwards(out, &ds);
}

/// Appends `cs` to `out`, last character first.
fn push_backwards(out: &mut String, cs: &Vec<char>)
    ensures
        final(out)@ == old(out)@ + cs@.reverse(),
{
    let ghost start = out@;
    let mut i: usize = cs.len();
    while i > 0
        invariant
            i <= cs@.len(),
            out@ == start + cs@.reverse().take(cs@.len() - i),
        decreases i,
    {
        out.push(cs[i - 1]);
        i -= 1;
        assert(out@ == start + cs@.reverse().take(cs@.len() - i));
    }
    assert(cs@.reverse().take(cs@.len() - i) == cs@.reverse());
}

/// `n` written in decimal.
pub fn decimal_string(n: u64) -> (s: String)
    ensures
        s@ == decimal(n as nat),
{
    let mut s = String::new();
    push_decimal(&mut s, n);
    assert(s@ == decimal(n as nat));
    s
}

/// `s` brought to at least `width` characters by zeros at its front.
pub open spec fn zero_padded(s: Seq<char>, width: nat) -> Seq<char> {
    if s.len() < width {
        Seq::new((width - s.len()) as nat, |i: int| '0') + s
    } else {
        s
    }
}

/// `n` written in base sixteen with small letters, with zeros at its front up
/// to `width` characters.
pub fn hex_string(n: u128, width: usize) -> (s: String)
    ensures
        s@ == zero_padded(in_base(n as nat, 16), width as nat),
{
    let ds = digits_backwards(n, 16);
    let mut s = String::new();
    let mut i: usize = ds.len();
    assert(s@ == Seq::new(0, |k: int| '0'));
    while i < width
        invariant
            ds@.len() <= i,
            i <= width || i == ds@.len(),
            s@.len() == i - ds@.len(),
            s@ == Seq::new((i - ds@.len()) as nat, |k: int| '0'),
        decreases width - i,
    {
        s.push('0');
        i += 1;
        assert(s@ == Seq::new((i - ds@.len()) as nat, |k: int| '0'));
    }
    push_backwards(&mut s, &ds);
    assert(s@ == zero_padded(in_base(n as nat, 16), width as nat));
    s
}

// ---------------------------------------------------------------------------
// Laws
// ---------------------------------------------------------------------------

proof fn lemma_in_base_ten(n: nat)
    ensures
        decimal(n).len() > 0,
        all_digits(decimal(n)),
        digits_value(decimal(n)) == n,
    decreases n,
{
    if n < 10 {
        let s = decimal(n);
        assert(s == seq![digit_char(n)]);
        assert(s.drop_last() == Seq::<char>::empty());
        assert(digits_value(s.drop_last()) == 0);
    } else {
        lemma_in_base_ten(n / 10);
        let s = decimal(n);
        assert(s == decimal(n / 10).push(digit_char(n % 10)));
        assert(s.drop_last() == decimal(n / 10));
    }
}

/// A number written in decimal is a run of digits.
pub proof fn lemma_decimal_digits(n: nat)
    ensures
        decimal(n).len() > 0,
        all_digits(decimal(n)),
{
    lemma_in_base_ten(n);
}

/// A text without whitespace at its two ends is its own trimming.
pub proof fn lemma_trimmed_already(s: Seq<char>)
    requires
        s.len() > 0 ==> !is_white(s[0]) && !is_white(s.last()),
    ensures
        trimmed(s) == s,
{
}

proof fn lemma_trim_back_len(s: Seq<char>)
    ensures
        trim_back(s).len() <= s.len(),
    decreases s.len(),
{
    if s.len() > 0 && is_white(s.last()) {
        lemma_trim_back_len(s.drop_last());
    }
}

/// Whitespace at the back is taken off behind a text that does not end in it.
pub proof fn lemma_trim_back_of(front: Seq<char>, back: Seq<char>)
    requires
        front.len() > 0,
        !is_white(front.last()),
    ensures
        trim_back(front + back) == front + trim_back(back),
    decreases back.len(),
{
    let all = front + back;
    if back.len() == 0 {
        assert(all =~= front);
        assert(front + trim_back(back) =~= front);
    } else {
        assert(all.last() == back.last());
        if is_white(back.last()) {
            assert(all.drop_last() =~= front + back.drop_last());
            lemma_trim_back_of(front, back.drop_last());
        }
    }
}

/// A text that does not begin in whitespace has none to take off at its front.
pub proof fn lemma_trim_front_of(front: Seq<char>, back: Seq<char>)
    requires
        front.len() > 0,
        !is_white(front[0]),
    ensures
        trim_front(front + back) == front + back,
{
    assert((front + back)[0] == front[0]);
}

/// A text that is its own trimming has no whitespace at its two ends.
pub proof fn lemma_ends_not_white(s: Seq<char>)
    requires
        s.len() > 0,
        trimmed(s) == s,
    ensures
        !is_white(s[0]),
        !is_white(s.last()),
{
    lemma_trim_back_len(trim_front(s));
    if is_white(s[0]) {
        lemma_trim_front_len(s.drop_first());
    } else if is_white(s.last()) {
        lemma_trim_back_len(s.drop_last());
    }
}

/// A text without `c` has no last one.
pub proof fn lemma_last_index_none(s: Seq<char>, c: char)
    requires
        !s.contains(c),
    ensures
        last_index_of(s, c) == -1,
    decreases s.len(),
{
    if s.len() > 0 {
        assert(s.contains(s.last()));
        assert forall|i: int| 0 <= i < s.drop_last().len() implies s.drop_last()[i] != c by {
            assert(s.contains(s[i]));
        }
        lemma_last_index_none(s.drop_last(), c);
    }
}

/// What `last_index_of` is, without recursion.
pub proof fn lemma_last_index_is(s: Seq<char>, c: char, k: int)
    requires
        0 <= k < s.len(),
        s[k] == c,
        forall|i: int| k < i < s.len() ==> #[trigger] s[i] != c,
    ensures
        last_index_of(s, c) == k,
    decreases s.len(),
{
    if s.last() != c {
        assert(k < s.len() - 1);
        assert forall|i: int| k < i < s.drop_last().len() implies #[trigger] s.drop_last()[i] != c by {
            assert(s.drop_last()[i] == s[i]);
        }
        lemma_last_index_is(s.drop_last(), c, k);
    } else if k < s.len() - 1 {
        assert(s[s.len() - 1] != c);
    }
}

/// The first place where a text stands is where `find` finds it.
pub proof fn lemma_find_is<T>(hay: Seq<T>, needle: Seq<T>, k: int)
    requires
        stands_at(hay, needle, k),
        forall|i: int| 0 <= i < k ==> !#[trigger] stands_at(hay, needle, i),
    ensures
        find(hay, needle) == Some(k),
{
    lemma_find_from(hay, needle, 0);
    match find(hay, needle) {
        Some(j) => {
            if j < k {
                assert(stands_at(hay, needle, j));
            } else if k < j {
                assert(!stands_at(hay, needle, k));
            }
        },
        None => {
            assert(!stands_at(hay, needle, k));
        },
    }
}

/// Reading a number that was written in decimal gives the number back, as long
/// as it is in the range that is read.
pub proof fn law_decimal_reads_back(n: nat, max: nat)
    requires
        n <= max,
    ensures
        parse_number(decimal(n), max) == Some(n),
{
    lemma_in_base_ten(n);
    assert(is_digit(decimal(n)[0]));
}

/// To make a text small changes its capitals of ASCII and nothing else, place by
/// place.
pub proof fn law_lowercase_place_by_place(s: Seq<char>, i: int)
    requires
        0 <= i < s.len(),
    ensures
        ascii_lowercase(s).len() == s.len(),
        65 <= s[i] as u32 <= 90 ==> ascii_lowercase(s)[i] as u32 == s[i] as u32 + 32,
        !(65 <= s[i] as u32 <= 90) ==> ascii_lowercase(s)[i] == s[i],
{
    let n = s[i] as u32;
    assert(65 <= n <= 90 ==> ((n + 32) as u32 as char) as u32 == n + 32) by {
        if 65 <= n <= 90 {
            vstd::utf8::char_u32_cast((n + 32) as char, (n + 32) as u32);
        }
    }
}

/// Whether every character of `s` is whitespace.
pub open spec fn all_white(s: Seq<char>) -> bool {
    forall|i: int| 0 <= i < s.len() ==> is_white(#[trigger] s[i])
}

/// To trim a text takes the whitespace off its two ends, and nothing else: what is
/// left is what stands between, and nothing is if there is nothing but whitespace.
pub proof fn law_trimming_takes_off_whitespace_only(
    front: Seq<char>,
    s: Seq<char>,
    back: Seq<char>,
)
    requires
        all_white(front),
        all_white(back),
        s.len() > 0 ==> !is_white(s[0]) && !is_white(s.last()),
    ensures
        trimmed(front + s + back) == s,
    decreases front.len() + back.len(),
{
    let all = front + s + back;
    if front.len() > 0 {
        assert(all[0] == front[0]);
        assert(all.drop_first() =~= front.drop_first() + s + back);
        assert forall|i: int| 0 <= i < front.drop_first().len() implies is_white(
            #[trigger] front.drop_first()[i],
        ) by {
            assert(is_white(front[i + 1]));
        }
        law_trimming_takes_off_whitespace_only(front.drop_first(), s, back);
    } else if s.len() == 0 {
        assert(all =~= back);
        if back.len() > 0 {
            assert(all.drop_first() =~= back.drop_first());
            assert forall|i: int| 0 <= i < back.drop_first().len() implies is_white(
                #[trigger] back.drop_first()[i],
            ) by {
                assert(is_white(back[i + 1]));
            }
            law_trimming_takes_off_whitespace_only(front, s, back.drop_first());
            assert(front + s + back.drop_first() =~= back.drop_first());
        }
    } else {
        assert(all =~= s + back);
        lemma_trim_front_of(s, back);
        lemma_trim_back_of(s, back);
        lemma_trim_back_white(back);
        assert(s + Seq::<char>::empty() =~= s);
    }
}

proof fn lemma_trim_back_white(s: Seq<char>)
    requires
        all_white(s),
    ensures
        trim_back(s) == Seq::<char>::empty(),
    decreases s.len(),
{
    if s.len() > 0 {
        assert(is_white(s[s.len() - 1]));
        assert forall|i: int| 0 <= i < s.drop_last().len() implies is_white(
            #[trigger] s.drop_last()[i],
        ) by {
            assert(is_white(s[i]));
        }
        lemma_trim_back_white(s.drop_last());
    } else {
        assert(s =~= Seq::empty());
    }
}

/// A text with a separator in it falls into the pieces of what stands before it
/// and those of what stands behind it; one without is one piece.
pub proof fn law_pieces_stand_between_separators(a: Seq<char>, b: Seq<char>, c: char)
    ensures
        split_on(a + seq![c] + b, c) == split_on(a, c) + split_on(b, c),
        split_on(a, c).len() > 0,
        !a.contains(c) ==> split_on(a, c) == seq![a],
    decreases a.len(),
{
    let all = a + seq![c] + b;
    let k = index_of(a, c);
    lemma_index_of(a, c);
    lemma_index_of(all, c);
    assert(forall|i: int| 0 <= i < a.len() ==> #[trigger] all[i] == a[i]);
    assert(all[a.len() as int] == c);
    if k < a.len() {
        assert(all[k] == c);
        assert(index_of(all, c) == k);
        let rest = a.skip(k + 1);
        law_pieces_stand_between_separators(rest, b, c);
        assert(all.skip(k + 1) =~= rest + seq![c] + b);
        assert(all.take(k) =~= a.take(k));
        assert(split_on(all, c) =~= split_on(a, c) + split_on(b, c));
        assert(a.contains(a[k]));
    } else {
        assert(index_of(all, c) == a.len());
        assert(all.take(a.len() as int) =~= a);
        assert(all.skip(a.len() as int + 1) =~= b);
        assert(split_on(all, c) =~= split_on(a, c) + split_on(b, c));
    }
}

/// Nothing but digits, behind a plus or not, is read as a number, and none that is
/// out of range.
pub proof fn law_only_digits_are_a_number(s: Seq<char>, max: nat)
    ensures
        parse_number(s, max) matches Some(n) ==> n <= max && s.len() > 0 && (forall|i: int|
            0 <= i < s.len() ==> '0' <= #[trigger] s[i] <= '9' || i == 0 && s[i] == '+'),
        s.len() == 0 ==> parse_number(s, max) is None,
{
    if parse_number(s, max) is Some {
        let d = without_plus(s);
        assert forall|i: int| 0 <= i < s.len() implies '0' <= #[trigger] s[i] <= '9' || i == 0
            && s[i] == '+' by {
            if s[0] == '+' {
                if i > 0 {
                    assert(d[i - 1] == s[i]);
                    assert(is_digit(d[i - 1]));
                }
            } else {
                assert(d[i] == s[i]);
                assert(is_digit(d[i]));
            }
        }
    }
}

proof fn lemma_words_shift(word: Seq<char>, rest: Seq<char>)
    requires
        word.len() > 0,
        forall|i: int| 0 <= i < word.len() ==> !is_white(#[trigger] word[i]),
        rest.len() > 0 ==> is_white(rest[0]),
    ensures
        words(word + rest) == seq![word] + words(rest),
{
    let t = word + rest;
    assert(t[0] == word[0]);
    assert(trim_front(t) == t);
    assert forall|i: int| 0 <= i < word.len() implies !white_char()(#[trigger] t[i]) by {
        assert(t[i] == word[i]);
    }
    if rest.len() > 0 {
        assert(t[word.len() as int] == rest[0]);
    }
    lemma_first_where_is(t, white_char(), word.len() as int);
    assert(t.take(word.len() as int) =~= word);
    assert(t.skip(word.len() as int) =~= rest);
}

/// The words of a text are its longest runs without whitespace: a word at the front
/// comes first, with those behind it in order, and whitespace at the front does
/// not count.
pub proof fn law_words_stand_between_whitespace(
    front: Seq<char>,
    word: Seq<char>,
    rest: Seq<char>,
)
    requires
        all_white(front),
        word.len() > 0,
        forall|i: int| 0 <= i < word.len() ==> !is_white(#[trigger] word[i]),
        rest.len() > 0 ==> is_white(rest[0]),
    ensures
        words(front + word + rest) == seq![word] + words(rest),
        words(front).len() == 0,
    decreases front.len(),
{
    if front.len() > 0 {
        let all = front + word + rest;
        let f = front.drop_first();
        assert(all[0] == front[0]);
        assert forall|i: int| 0 <= i < f.len() implies is_white(#[trigger] f[i]) by {
            assert(is_white(front[i + 1]));
        }
        law_words_stand_between_whitespace(f, word, rest);
        assert(all.drop_first() =~= f + word + rest);
        assert(trim_front(all) == trim_front(f + word + rest));
        assert(trim_front(front) == trim_front(f));
    } else {
        assert(front + word + rest =~= word + rest);
        lemma_words_shift(word, rest);
    }
}

/// What is left of a text when the whitespace at its back is taken off is its
/// front.
pub proof fn lemma_trim_back_prefix(s: Seq<char>)
    ensures
        trim_back(s).len() <= s.len(),
        trim_back(s) == s.take(trim_back(s).len() as int),
    decreases s.len(),
{
    if s.len() > 0 && is_white(s.last()) {
        let d = s.drop_last();
        lemma_trim_back_prefix(d);
        assert(d.take(trim_back(d).len() as int) =~= s.take(trim_back(d).len() as int));
    } else {
        assert(s.take(s.len() as int) =~= s);
    }
}

/// The number that the digit `c` writes, in small letters behind the nine.
pub open spec fn digit_value(c: char) -> nat {
    if '0' <= c <= '9' {
        (c as u32 - 48) as nat
    } else {
        (c as u32 - 87) as nat
    }
}

/// The number that the digits `s` write in the base `base`, the first one the
/// highest.
pub open spec fn value_in_base(s: Seq<char>, base: nat) -> nat
    decreases s.len(),
{
    if s.len() == 0 {
        0
    } else {
        value_in_base(s.drop_last(), base) * base + digit_value(s.last())
    }
}

/// A number that is written in a base up to sixteen reads back as that number,
/// with zeros before it or not, and has no more zeros before it than it takes to
/// the width.
pub proof fn law_number_reads_back_in_its_base(n: nat, base: nat, width: nat)
    requires
        2 <= base <= 16,
    ensures
        value_in_base(in_base(n, base), base) == n,
        value_in_base(zero_padded(in_base(n, base), width), base) == n,
        zero_padded(in_base(n, base), width).len() >= width,
        in_base(n, base).len() >= 1,
        in_base(n, base).len() >= width ==> zero_padded(in_base(n, base), width) == in_base(
            n,
            base,
        ),
        n > 0 ==> in_base(n, base)[0] != '0',
{
    lemma_in_base_value(n, base);
    let s = in_base(n, base);
    if s.len() < width {
        lemma_zeros_in_front(s, (width - s.len()) as nat, base);
    }
}

proof fn lemma_digit_value(d: nat)
    requires
        d < 16,
    ensures
        digit_value(digit_char(d)) == d,
        d > 0 ==> digit_char(d) != '0',
{
    if d < 10 {
        vstd::utf8::char_u32_cast(digit_char(d), (48 + d) as u32);
    } else {
        vstd::utf8::char_u32_cast(digit_char(d), (97 + (d - 10)) as u32);
    }
}

proof fn lemma_in_base_value(n: nat, base: nat)
    requires
        2 <= base <= 16,
    ensures
        value_in_base(in_base(n, base), base) == n,
        in_base(n, base).len() >= 1,
        n > 0 ==> in_base(n, base)[0] != '0',
    decreases n,
{
    if n < base {
        lemma_digit_value(n);
        assert(in_base(n, base).drop_last() =~= Seq::<char>::empty());
        assert(value_in_base(Seq::<char>::empty(), base) == 0);
        assert(0 * base == 0) by (nonlinear_arith);
    } else {
        assert(n / base < n) by (nonlinear_arith)
            requires
                2 <= base <= n,
        ;
        lemma_in_base_value(n / base, base);
        lemma_digit_value(n % base);
        let s = in_base(n / base, base).push(digit_char(n % base));
        assert(s.drop_last() =~= in_base(n / base, base));
        vstd::arithmetic::div_mod::lemma_fundamental_div_mod(n as int, base as int);
        assert(base * (n / base) == (n / base) * base) by (nonlinear_arith);
        assert(n / base > 0) by (nonlinear_arith)
            requires
                n >= base,
                base >= 2,
        ;
        assert(s[0] == in_base(n / base, base)[0]);
    }
}

proof fn lemma_zeros_in_front(s: Seq<char>, k: nat, base: nat)
    ensures
        value_in_base(Seq::new(k, |i: int| '0') + s, base) == value_in_base(s, base),
    decreases s.len(), k,
{
    let zeros = Seq::new(k, |i: int| '0');
    let all = zeros + s;
    if s.len() > 0 {
        assert(all.drop_last() =~= zeros + s.drop_last());
        assert(all.last() == s.last());
        lemma_zeros_in_front(s.drop_last(), k, base);
    } else if k > 0 {
        assert(all.drop_last() =~= Seq::new((k - 1) as nat, |i: int| '0') + s);
        assert(all.last() == '0');
        lemma_zeros_in_front(s, (k - 1) as nat, base);
        assert(0 * base == 0) by (nonlinear_arith);
    } else {
        assert(all =~= s);
    }
}

/// Stripping takes a character off the ends of a text and nothing else: what is
/// left stands in the text with only that character around it, and neither begins
/// nor ends with it.
pub proof fn law_stripping_takes_off_one_character(s: Seq<char>, c: char)
    ensures
        ({
            let r = strip_back(strip_front(s, c), c);
            &&& r.len() > 0 ==> r[0] != c && r.last() != c
            &&& exists|lo: int|
                #![trigger s.subrange(lo, lo + r.len())]
                0 <= lo && lo + r.len() <= s.len() && r == s.subrange(lo, lo + r.len()) && (
                forall|i: int|
                    (0 <= i < lo || lo + r.len() <= i < s.len()) ==> #[trigger] s[i] == c)
        }),
{
    let f = strip_front(s, c);
    let r = strip_back(f, c);
    lemma_strip_front(s, c);
    lemma_strip_back(f, c);
    let lo = s.len() - f.len();
    assert(r =~= s.subrange(lo, lo + r.len()));
    assert forall|i: int| lo + r.len() <= i < s.len() implies #[trigger] s[i] == c by {
        assert(f[i - lo] == s[i]);
    }
    if r.len() > 0 {
        assert(r[0] == f[0]);
    }
}

proof fn lemma_strip_front(s: Seq<char>, c: char)
    ensures
        strip_front(s, c).len() <= s.len(),
        strip_front(s, c) == s.skip(s.len() - strip_front(s, c).len()),
        forall|i: int| 0 <= i < s.len() - strip_front(s, c).len() ==> #[trigger] s[i] == c,
        strip_front(s, c).len() > 0 ==> strip_front(s, c)[0] != c,
    decreases s.len(),
{
    if s.len() > 0 && s[0] == c {
        let t = s.drop_first();
        lemma_strip_front(t, c);
        let n = s.len() - strip_front(s, c).len();
        assert(t.skip(n - 1) =~= s.skip(n));
        assert forall|i: int| 0 <= i < n implies #[trigger] s[i] == c by {
            if i > 0 {
                assert(t[i - 1] == s[i]);
            }
        }
    } else {
        assert(s.skip(0) =~= s);
    }
}

proof fn lemma_strip_back(s: Seq<char>, c: char)
    ensures
        strip_back(s, c).len() <= s.len(),
        strip_back(s, c) == s.take(strip_back(s, c).len() as int),
        forall|i: int| strip_back(s, c).len() <= i < s.len() ==> #[trigger] s[i] == c,
        strip_back(s, c).len() > 0 ==> strip_back(s, c).last() != c,
    decreases s.len(),
{
    if s.len() > 0 && s.last() == c {
        let t = s.drop_last();
        lemma_strip_back(t, c);
        let n = strip_back(s, c).len();
        assert(t.take(n as int) =~= s.take(n as int));
        assert forall|i: int| n <= i < s.len() implies #[trigger] s[i] == c by {
            if i < t.len() {
                assert(t[i] == s[i]);
            }
        }
    } else {
        assert(s.take(s.len() as int) =~= s);
    }
}

} // verus!
