//! Character-level helpers: the Unicode whitespace class that `str::trim`
//! strips, trimming of character ranges, and small string builders.
use vstd::prelude::*;

verus! {

/// The Unicode `White_Space` property (PropList.txt), the class of
/// characters that `str::trim` removes from both ends of a string.
pub open spec fn is_white(c: char) -> bool {
    ||| ('\u{9}' <= c && c <= '\u{d}')
    ||| c == ' '
    ||| c == '\u{85}'
    ||| c == '\u{a0}'
    ||| c == '\u{1680}'
    ||| ('\u{2000}' <= c && c <= '\u{200a}')
    ||| c == '\u{2028}'
    ||| c == '\u{2029}'
    ||| c == '\u{202f}'
    ||| c == '\u{205f}'
    ||| c == '\u{3000}'
}

/// The characters removed at the ends: whitespace, or the double quote.
pub open spec fn strippable(c: char, quote: bool) -> bool {
    if quote {
        c == '"'
    } else {
        is_white(c)
    }
}

/// `s` without its leading strippable characters.
pub open spec fn strip_front(s: Seq<char>, quote: bool) -> Seq<char>
    decreases s.len(),
{
    if s.len() > 0 && strippable(s[0], quote) {
        strip_front(s.drop_first(), quote)
    } else {
        s
    }
}

/// `s` without its trailing strippable characters.
pub open spec fn strip_back(s: Seq<char>, quote: bool) -> Seq<char>
    decreases s.len(),
{
    if s.len() > 0 && strippable(s.last(), quote) {
        strip_back(s.drop_last(), quote)
    } else {
        s
    }
}

/// `s` without strippable characters at either end.
pub open spec fn strip(s: Seq<char>, quote: bool) -> Seq<char> {
    strip_back(strip_front(s, quote), quote)
}

/// What `str::trim` leaves of `s`.
pub open spec fn trim(s: Seq<char>) -> Seq<char> {
    strip(s, false)
}

/// What `str::trim_matches('"')` leaves of `s`.
pub open spec fn trim_quotes(s: Seq<char>) -> Seq<char> {
    strip(s, true)
}

/// Whether `c` belongs to the Unicode `White_Space` class.
pub fn is_white_char(c: char) -> (b: bool)
    ensures
        b == is_white(c),
{
    ('\u{9}' <= c && c <= '\u{d}') || c == ' ' || c == '\u{85}' || c == '\u{a0}' || c == '\u{1680}'
        || ('\u{2000}' <= c && c <= '\u{200a}') || c == '\u{2028}' || c == '\u{2029}' || c
        == '\u{202f}' || c == '\u{205f}' || c == '\u{3000}'
}

/// The code points that carry the Unicode `White_Space` property, in the
/// order PropList.txt lists them: the controls TAB, LF, VT, FF and CR, SPACE,
/// NEL, NO-BREAK SPACE, OGHAM SPACE MARK, EN QUAD through HAIR SPACE, LINE
/// SEPARATOR, PARAGRAPH SEPARATOR, NARROW NO-BREAK SPACE, MEDIUM
/// MATHEMATICAL SPACE and IDEOGRAPHIC SPACE.
pub open spec fn white_space_code_points() -> Seq<int> {
    seq![
        0x9, 0xa, 0xb, 0xc, 0xd, 0x20, 0x85, 0xa0, 0x1680,
        0x2000, 0x2001, 0x2002, 0x2003, 0x2004, 0x2005, 0x2006, 0x2007, 0x2008, 0x2009, 0x200a,
        0x2028, 0x2029, 0x202f, 0x205f, 0x3000,
    ]
}

/// The whitespace that trimming removes is exactly the Unicode `White_Space`
/// class: a character counts as whitespace if and only if its code point is
/// one of those listed for the property (so TAB does, and so does the
/// ideographic space, while a letter or the zero width space does not).
pub proof fn lemma_white_space_class(c: char)
    ensures
        is_white(c) <==> white_space_code_points().contains(c as int),
        is_white('\t'),
        is_white('\n'),
        is_white('\r'),
        is_white(' '),
{
    let w = white_space_code_points();
    let n = c as int;
    if is_white(c) {
        let k: int = if 0x9 <= n <= 0xd {
            n - 0x9
        } else if n == 0x20 {
            5
        } else if n == 0x85 {
            6
        } else if n == 0xa0 {
            7
        } else if n == 0x1680 {
            8
        } else if 0x2000 <= n <= 0x200a {
            n - 0x2000 + 9
        } else if n == 0x2028 {
            20
        } else if n == 0x2029 {
            21
        } else if n == 0x202f {
            22
        } else if n == 0x205f {
            23
        } else {
            24
        };
        assert(0 <= k < w.len() && w[k] == n);
    }
    if w.contains(n) {
        let k = choose|k: int| 0 <= k < w.len() && w[k] == n;
        assert(0 <= k < 25);
        assert(is_white(c));
    }
}

proof fn lemma_strip_front_at(s: Seq<char>, quote: bool) -> (i: int)
    ensures
        0 <= i <= s.len(),
        strip_front(s, quote) == s.subrange(i, s.len() as int),
        forall|k: int| 0 <= k < i ==> strippable(#[trigger] s[k], quote),
        i < s.len() ==> !strippable(s[i], quote),
    decreases s.len(),
{
    if s.len() > 0 && strippable(s[0], quote) {
        let t = s.drop_first();
        let i = lemma_strip_front_at(t, quote);
        assert(t.subrange(i, t.len() as int) =~= s.subrange(i + 1, s.len() as int));
        assert forall|k: int| 0 <= k < i + 1 implies strippable(#[trigger] s[k], quote) by {
            if k > 0 {
                assert(s[k] == t[k - 1]);
            }
        }
        i + 1
    } else {
        assert(s.subrange(0, s.len() as int) =~= s);
        0
    }
}

proof fn lemma_strip_back_at(s: Seq<char>, quote: bool) -> (j: int)
    ensures
        0 <= j <= s.len(),
        strip_back(s, quote) == s.subrange(0, j),
        forall|k: int| j <= k < s.len() ==> strippable(#[trigger] s[k], quote),
        j > 0 ==> !strippable(s[j - 1], quote),
    decreases s.len(),
{
    if s.len() > 0 && strippable(s.last(), quote) {
        let t = s.drop_last();
        let j = lemma_strip_back_at(t, quote);
        assert(t.subrange(0, j) =~= s.subrange(0, j));
        assert forall|k: int| j <= k < s.len() implies strippable(#[trigger] s[k], quote) by {
            if k < s.len() - 1 {
                assert(s[k] == t[k]);
            }
        }
        j
    } else {
        assert(s.subrange(0, s.len() as int) =~= s);
        s.len() as int
    }
}

/// Stripping removes only from the two ends: what is left is a contiguous
/// middle part of `s`, everything cut off before and after it is
/// strippable (whitespace for `trim`, the double quote for `trim_quotes`),
/// and a non-empty result neither starts nor ends with a strippable
/// character.
pub proof fn lemma_strip_keeps_the_middle(s: Seq<char>, quote: bool)
    ensures
        exists|i: int, j: int|
            {
                &&& 0 <= i <= j <= s.len()
                &&& strip(s, quote) == s.subrange(i, j)
                &&& forall|k: int| 0 <= k < i ==> strippable(#[trigger] s[k], quote)
                &&& forall|k: int| j <= k < s.len() ==> strippable(#[trigger] s[k], quote)
                &&& i < j ==> !strippable(s[i], quote) && !strippable(s[j - 1], quote)
            },
{
    let i = lemma_strip_front_at(s, quote);
    let t = s.subrange(i, s.len() as int);
    let jt = lemma_strip_back_at(t, quote);
    let j = i + jt;
    assert(t.subrange(0, jt) =~= s.subrange(i, j));
    assert forall|k: int| j <= k < s.len() implies strippable(#[trigger] s[k], quote) by {
        assert(s[k] == t[k - i]);
    }
    if i < j {
        assert(s[j - 1] == t[jt - 1]);
    }
    assert(0 <= i <= j <= s.len());
}

fn is_strippable(c: char, quote: bool) -> (b: bool)
    ensures
        b == strippable(c, quote),
{
    if quote {
        c == '"'
    } else {
        is_white_char(c)
    }
}

/// The bounds of what remains of `v[lo..hi]` once strippable characters
/// are removed from both ends.
pub fn strip_range(v: &Vec<char>, lo: usize, hi: usize, quote: bool) -> (r: (usize, usize))
    requires
        lo <= hi <= v.len(),
    ensures
        lo <= r.0 <= r.1 <= hi,
        v@.subrange(r.0 as int, r.1 as int) == strip(v@.subrange(lo as int, hi as int), quote),
{
    let mut start = lo;
    while start < hi && is_strippable(v[start], quote)
        invariant
            lo <= start <= hi <= v.len(),
            strip_front(v@.subrange(lo as int, hi as int), quote) == strip_front(
                v@.subrange(start as int, hi as int),
                quote,
            ),
        decreases hi - start,
    {
        assert(v@.subrange(start as int, hi as int).drop_first() =~= v@.subrange(
            start + 1,
            hi as int,
        ));
        start = start + 1;
    }
    let mut end = hi;
    while end > start && is_strippable(v[end - 1], quote)
        invariant
            lo <= start <= end <= hi <= v.len(),
            strip_front(v@.subrange(lo as int, hi as int), quote) == v@.subrange(
                start as int,
                hi as int,
            ),
            strip_back(v@.subrange(start as int, hi as int), quote) == strip_back(
                v@.subrange(start as int, end as int),
                quote,
            ),
        decreases end - start,
    {
        assert(v@.subrange(start as int, end as int).drop_last() =~= v@.subrange(
            start as int,
            end - 1,
        ));
        end = end - 1;
    }
    (start, end)
}

/// `k` is the position of the first `c` in `s`.
pub open spec fn first_at(s: Seq<char>, c: char, k: int) -> bool {
    &&& 0 <= k < s.len()
    &&& s[k] == c
    &&& forall|j: int| 0 <= j < k ==> s[j] != c
}

/// `s` holds `c` somewhere.
pub open spec fn has_char(s: Seq<char>, c: char) -> bool {
    exists|k: int| first_at(s, c, k)
}

/// The position of the first `c` in `s` (meaningful when `has_char(s, c)`).
pub open spec fn first_index(s: Seq<char>, c: char) -> int {
    choose|k: int| first_at(s, c, k)
}

/// The first position of `c` is unique.
pub proof fn lemma_first_at_unique(s: Seq<char>, c: char, k: int)
    requires
        first_at(s, c, k),
    ensures
        has_char(s, c),
        first_index(s, c) == k,
{
    let m = first_index(s, c);
    assert(first_at(s, c, m));
    if m < k {
        assert(s[m] != c);
    } else if k < m {
        assert(s[k] != c);
    }
}

/// The position of the first `c` among `v[lo..hi]`, if any.
pub fn find_char(v: &Vec<char>, lo: usize, hi: usize, c: char) -> (r: Option<usize>)
    requires
        lo <= hi <= v.len(),
    ensures
        match r {
            Some(k) => lo <= k < hi && first_at(v@.subrange(lo as int, hi as int), c, k - lo),
            None => !has_char(v@.subrange(lo as int, hi as int), c) && forall|j: int|
                lo <= j < hi ==> v@[j] != c,
        },
{
    let mut i = lo;
    while i < hi
        invariant
            lo <= i <= hi <= v.len(),
            forall|j: int| lo <= j < i ==> v@[j] != c,
        decreases hi - i,
    {
        if v[i] == c {
            assert(first_at(v@.subrange(lo as int, hi as int), c, i - lo));
            return Some(i);
        }
        i = i + 1;
    }
    assert forall|k: int| !first_at(v@.subrange(lo as int, hi as int), c, k) by {
        if 0 <= k < hi - lo {
            assert(v@.subrange(lo as int, hi as int)[k] == v@[lo + k]);
        }
    }
    None
}

/// The characters of `s`, in order.
pub fn chars_of(s: &str) -> (v: Vec<char>)
    ensures
        v@ == s@,
{
    broadcast use vstd::string::group_string_axioms;

    let mut v: Vec<char> = Vec::new();
    for c in it: s.chars()
        invariant
            v@ == it.seq().take(it.index()),
    {
        v.push(c);
    }
    v
}

/// Appends `c` to `s`.
///
/// Trusted: calls `String::push`, which appends the given char to the end
/// of the string; the contract says exactly that of the character sequence.
#[verifier::external_body]
pub(crate) fn push_char(s: &mut String, c: char)
    ensures
        final(s)@ == old(s)@.push(c),
{
    s.push(c)
}

/// A string holding the characters `v[lo..hi]`.
pub fn string_from_range(v: &Vec<char>, lo: usize, hi: usize) -> (s: String)
    requires
        lo <= hi <= v.len(),
    ensures
        s@ == v@.subrange(lo as int, hi as int),
{
    let mut s = String::new();
    let mut i = lo;
    while i < hi
        invariant
            lo <= i <= hi <= v.len(),
            s@ == v@.subrange(lo as int, i as int),
        decreases hi - i,
    {
        push_char(&mut s, v[i]);
        assert(v@.subrange(lo as int, i + 1) =~= v@.subrange(lo as int, i as int).push(v@[i as int]));
        i = i + 1;
    }
    s
}

/// Whether the characters `v[lo..hi]` spell `lit`.
pub fn range_equals(v: &Vec<char>, lo: usize, hi: usize, lit: &str) -> (b: bool)
    requires
        lo <= hi <= v.len(),
    ensures
        b == (v@.subrange(lo as int, hi as int) == lit@),
{
    let n = lit.unicode_len();
    if hi - lo != n {
        return false;
    }
    let mut i: usize = 0;
    while i < n
        invariant
            lo <= hi <= v.len(),
            hi - lo == n == lit@.len(),
            i <= n,
            forall|j: int| 0 <= j < i ==> v@[lo + j] == lit@[j],
        decreases n - i,
    {
        if v[lo + i] != lit.get_char(i) {
            assert(v@.subrange(lo as int, hi as int)[i as int] != lit@[i as int]);
            return false;
        }
        i = i + 1;
    }
    assert(v@.subrange(lo as int, hi as int) =~= lit@);
    true
}

/// The first `max_chars` characters of `value`, followed by `...` when
/// `value` is longer than that.
pub open spec fn shortened(value: Seq<char>, max_chars: nat) -> Seq<char> {
    if value.len() > max_chars {
        value.take(max_chars as int) + "..."@
    } else {
        value
    }
}

/// Cuts `value` down to at most `max_chars` characters, marking a cut with
/// a trailing `...`.
pub fn shorten(value: &str, max_chars: usize) -> (s: String)
    ensures
        s@ == shortened(value@, max_chars as nat),
{
    let chars = chars_of(value);
    if chars.len() > max_chars {
        let mut s = string_from_range(&chars, 0, max_chars);
        s.append("...");
        s
    } else {
        string_from_range(&chars, 0, chars.len())
    }
}

} // verus!
