//! String splitting, reusable buffers and download pacing.
use vstd::prelude::*;
use vstd::string::*;

verus! {

/// Position of the first occurrence of `ch` in `s`.
pub open spec fn first_index(s: Seq<char>, ch: char) -> Option<int>
    decreases s.len(),
{
    if s.len() == 0 {
        None
    } else if s[0] == ch {
        Some(0)
    } else {
        match first_index(s.drop_first(), ch) {
            Some(i) => Some(i + 1),
            None => None,
        }
    }
}

/// Position of the last occurrence of `ch` in `s`.
pub open spec fn last_index(s: Seq<char>, ch: char) -> Option<int>
    decreases s.len(),
{
    if s.len() == 0 {
        None
    } else if s.last() == ch {
        Some(s.len() - 1)
    } else {
        last_index(s.drop_last(), ch)
    }
}

/// The pieces that splitting `s` on `ch` yields when at most `n` pieces are
/// wanted, front to back: the last piece holds the unsplit remainder.
pub open spec fn split_pieces(s: Seq<char>, ch: char, n: nat) -> Seq<Seq<char>>
    decreases n,
{
    if n == 0 {
        seq![]
    } else if n == 1 {
        seq![s]
    } else {
        match first_index(s, ch) {
            None => seq![s],
            Some(i) => seq![s.take(i)] + split_pieces(s.skip(i + 1), ch, (n - 1) as nat),
        }
    }
}

/// The pieces that splitting `s` on `ch` from the back yields when at most
/// `n` pieces are wanted, back to front: the last piece holds the unsplit
/// beginning of `s`.
pub open spec fn rsplit_pieces(s: Seq<char>, ch: char, n: nat) -> Seq<Seq<char>>
    decreases n,
{
    if n == 0 {
        seq![]
    } else if n == 1 {
        seq![s]
    } else {
        match last_index(s, ch) {
            None => seq![s],
            Some(i) => seq![s.skip(i + 1)] + rsplit_pieces(s.take(i), ch, (n - 1) as nat),
        }
    }
}

/// The views of a sequence of string slices.
pub open spec fn str_views(v: Seq<&str>) -> Seq<Seq<char>> {
    v.map_values(|p: &str| p@)
}

proof fn lemma_first_index_at(t: Seq<char>, ch: char, k: int)
    requires
        0 <= k < t.len(),
        t[k] == ch,
        forall|j: int| 0 <= j < k ==> t[j] != ch,
    ensures
        first_index(t, ch) == Some(k),
    decreases k,
{
    if k > 0 {
        lemma_first_index_at(t.drop_first(), ch, k - 1);
    }
}

proof fn lemma_first_index_none(t: Seq<char>, ch: char)
    requires
        forall|j: int| 0 <= j < t.len() ==> t[j] != ch,
    ensures
        first_index(t, ch) is None,
    decreases t.len(),
{
    if t.len() > 0 {
        lemma_first_index_none(t.drop_first(), ch);
    }
}

proof fn lemma_last_index_at(t: Seq<char>, ch: char, k: int)
    requires
        0 <= k < t.len(),
        t[k] == ch,
        forall|j: int| k < j < t.len() ==> t[j] != ch,
    ensures
        last_index(t, ch) == Some(k),
    decreases t.len() - k,
{
    if k < t.len() - 1 {
        lemma_last_index_at(t.drop_last(), ch, k);
    }
}

proof fn lemma_last_index_none(t: Seq<char>, ch: char)
    requires
        forall|j: int| 0 <= j < t.len() ==> t[j] != ch,
    ensures
        last_index(t, ch) is None,
    decreases t.len(),
{
    if t.len() > 0 {
        lemma_last_index_none(t.drop_last(), ch);
    }
}

/// Whether `c` has the Unicode `White_Space` property, as `char::is_whitespace`
/// checks it.
pub open spec fn is_whitespace(c: char) -> bool {
    ||| ('\u{9}' <= c && c <= '\u{d}')
    ||| c == ' '
    ||| c == '\u{85}'
    ||| c == '\u{a0}'
    ||| c == '\u{1680}'
    ||| ('\u{2000}' <= c && c <= '\u{200a}')
    ||| c == '\u{2028}'
    ||| c == '\u{2029}'
    ||| c == '\u{202f}'
    ||| c == '\u{205f}'
    ||| c == '\u{3000}'
}

/// `s` without its leading whitespace.
pub open spec fn trim_start(s: Seq<char>) -> Seq<char>
    decreases s.len(),
{
    if s.len() > 0 && is_whitespace(s[0]) {
        trim_start(s.drop_first())
    } else {
        s
    }
}

/// `s` without its trailing whitespace.
pub open spec fn trim_end(s: Seq<char>) -> Seq<char>
    decreases s.len(),
{
    if s.len() > 0 && is_whitespace(s.last()) {
        trim_end(s.drop_last())
    } else {
        s
    }
}

/// `s` without its leading and trailing whitespace.
pub open spec fn trim(s: Seq<char>) -> Seq<char> {
    trim_end(trim_start(s))
}

/// Whether every character of `s` is whitespace.
pub open spec fn all_whitespace(s: Seq<char>) -> bool {
    forall|i: int| 0 <= i < s.len() ==> is_whitespace(#[trigger] s[i])
}

/// The characters with the Unicode `White_Space` property, one by one.
pub open spec fn white_space_chars() -> Seq<char> {
    seq![
        '\u{9}', '\u{a}', '\u{b}', '\u{c}', '\u{d}', '\u{20}', '\u{85}', '\u{a0}', '\u{1680}',
        '\u{2000}', '\u{2001}', '\u{2002}', '\u{2003}', '\u{2004}', '\u{2005}', '\u{2006}',
        '\u{2007}', '\u{2008}', '\u{2009}', '\u{200a}', '\u{2028}', '\u{2029}', '\u{202f}',
        '\u{205f}', '\u{3000}',
    ]
}

/// Law: the whitespace that trimming removes is exactly the characters with
/// the Unicode `White_Space` property: tab, line feed, vertical tab, form
/// feed, carriage return, space, next line, no-break space, ogham space, the
/// spaces from en quad to hair space, the line and paragraph separators, the
/// narrow no-break space, the medium mathematical space and the ideographic
/// space.
pub proof fn lemma_whitespace_is_unicode_white_space(c: char)
    ensures
        is_whitespace(c) <==> white_space_chars().contains(c),
{
    let w = white_space_chars();
    if is_whitespace(c) {
        if '\u{9}' <= c && c <= '\u{d}' {
            let k = (c as int) - 9;
            assert(w[k] == c);
        } else if '\u{2000}' <= c && c <= '\u{200a}' {
            let k = (c as int) - 0x2000 + 9;
            assert(w[k] == c);
        } else if c == ' ' {
            assert(w[5] == c);
        } else if c == '\u{85}' {
            assert(w[6] == c);
        } else if c == '\u{a0}' {
            assert(w[7] == c);
        } else if c == '\u{1680}' {
            assert(w[8] == c);
        } else if c == '\u{2028}' {
            assert(w[20] == c);
        } else if c == '\u{2029}' {
            assert(w[21] == c);
        } else if c == '\u{202f}' {
            assert(w[22] == c);
        } else if c == '\u{205f}' {
            assert(w[23] == c);
        } else {
            assert(w[24] == c);
        }
    } else {
        assert forall|k: int| 0 <= k < w.len() implies w[k] != c by {
            assert(is_whitespace(w[k]));
        }
    }
}

proof fn lemma_trim_start_all_whitespace(w: Seq<char>)
    requires
        all_whitespace(w),
    ensures
        trim_start(w) == Seq::<char>::empty(),
{
    lemma_trim_start_skip(w, w.len() as int);
    assert(w.skip(w.len() as int) =~= Seq::<char>::empty());
}

proof fn lemma_trim_start_append(s: Seq<char>, w: Seq<char>)
    ensures
        all_whitespace(s) ==> trim_start(s + w) == trim_start(w),
        !all_whitespace(s) ==> trim_start(s + w) == trim_start(s) + w,
    decreases s.len(),
{
    if s.len() == 0 {
        assert(s + w =~= w);
    } else if is_whitespace(s[0]) {
        assert((s + w).drop_first() =~= s.drop_first() + w);
        lemma_trim_start_append(s.drop_first(), w);
        assert(all_whitespace(s) <==> all_whitespace(s.drop_first())) by {
            if all_whitespace(s.drop_first()) {
                assert forall|i: int| 0 <= i < s.len() implies is_whitespace(#[trigger] s[i]) by {
                    if i > 0 {
                        assert(s[i] == s.drop_first()[i - 1]);
                    }
                }
            }
            if all_whitespace(s) {
                assert forall|i: int| 0 <= i < s.drop_first().len() implies is_whitespace(
                    #[trigger] s.drop_first()[i],
                ) by {
                    assert(s.drop_first()[i] == s[i + 1]);
                }
            }
        }
    } else {
        assert((s + w)[0] == s[0]);
    }
}

/// Law: whitespace around a text changes nothing of what trimming leaves:
/// a line read with its line ending (`\r\n` on Windows consoles, `\n`
/// elsewhere), or with blanks before it, trims to the same text.
pub proof fn lemma_trim_ignores_surrounding_whitespace(s: Seq<char>, w: Seq<char>)
    requires
        all_whitespace(w),
    ensures
        trim(s + w) == trim(s),
        trim(w + s) == trim(s),
{
    lemma_trim_start_append(s, w);
    lemma_trim_start_all_whitespace(w);
    if all_whitespace(s) {
        lemma_trim_start_all_whitespace(s);
    } else {
        let x = trim_start(s);
        lemma_trim_end_take(x + w, x.len() as int);
        assert((x + w).take(x.len() as int) =~= x);
    }
    lemma_trim_start_skip(w + s, w.len() as int);
    assert((w + s).skip(w.len() as int) =~= s);
}

/// Law: a line ending of carriage return and line feed is whitespace, so
/// a prompt's answer read with it trims to the answer itself.
pub proof fn lemma_trim_drops_line_ending(s: Seq<char>)
    ensures
        trim(s + seq!['\r', '\n']) == trim(s),
        trim(s + seq!['\n']) == trim(s),
{
    let crlf = seq!['\r', '\n'];
    let lf = seq!['\n'];
    assert(all_whitespace(crlf)) by {
        assert forall|i: int| 0 <= i < crlf.len() implies is_whitespace(#[trigger] crlf[i]) by {}
    }
    assert(all_whitespace(lf)) by {
        assert forall|i: int| 0 <= i < lf.len() implies is_whitespace(#[trigger] lf[i]) by {}
    }
    lemma_trim_ignores_surrounding_whitespace(s, crlf);
    lemma_trim_ignores_surrounding_whitespace(s, lf);
}

proof fn lemma_trim_start_index(s: Seq<char>) -> (i: int)
    ensures
        0 <= i <= s.len(),
        trim_start(s) == s.skip(i),
        forall|k: int| 0 <= k < i ==> is_whitespace(#[trigger] s[k]),
        i < s.len() ==> !is_whitespace(s[i]),
    decreases s.len(),
{
    if s.len() > 0 && is_whitespace(s[0]) {
        let i = lemma_trim_start_index(s.drop_first());
        assert(s.drop_first().skip(i) =~= s.skip(i + 1));
        assert forall|k: int| 0 <= k < i + 1 implies is_whitespace(#[trigger] s[k]) by {
            if k > 0 {
                assert(s[k] == s.drop_first()[k - 1]);
            }
        }
        if i + 1 < s.len() {
            assert(s[i + 1] == s.drop_first()[i]);
        }
        i + 1
    } else {
        assert(s.skip(0) =~= s);
        0
    }
}

proof fn lemma_trim_end_index(s: Seq<char>) -> (j: int)
    ensures
        0 <= j <= s.len(),
        trim_end(s) == s.take(j),
        forall|k: int| j <= k < s.len() ==> is_whitespace(#[trigger] s[k]),
        j > 0 ==> !is_whitespace(s[j - 1]),
    decreases s.len(),
{
    if s.len() > 0 && is_whitespace(s.last()) {
        let j = lemma_trim_end_index(s.drop_last());
        assert(s.drop_last().take(j) =~= s.take(j));
        assert forall|k: int| j <= k < s.len() implies is_whitespace(#[trigger] s[k]) by {
            if k < s.len() - 1 {
                assert(s[k] == s.drop_last()[k]);
            }
        }
        if j > 0 {
            assert(s[j - 1] == s.drop_last()[j - 1]);
        }
        j
    } else {
        assert(s.take(s.len() as int) =~= s);
        s.len() as int
    }
}

/// Law: trimming removes exactly the whitespace at both ends of a text:
/// what is left is the part from `i` to `j`, all before `i` and from `j`
/// on is whitespace, and what is left neither starts nor ends with
/// whitespace.
pub proof fn lemma_trim_shape(s: Seq<char>) -> (r: (int, int))
    ensures
        0 <= r.0 <= r.1 <= s.len(),
        trim(s) == s.subrange(r.0, r.1),
        forall|k: int| 0 <= k < r.0 ==> is_whitespace(#[trigger] s[k]),
        forall|k: int| r.1 <= k < s.len() ==> is_whitespace(#[trigger] s[k]),
        r.0 < r.1 ==> !is_whitespace(s[r.0]) && !is_whitespace(s[r.1 - 1]),
{
    let i = lemma_trim_start_index(s);
    let x = s.skip(i);
    let j = lemma_trim_end_index(x);
    assert(x.take(j) =~= s.subrange(i, i + j));
    assert forall|k: int| i + j <= k < s.len() implies is_whitespace(#[trigger] s[k]) by {
        assert(s[k] == x[k - i]);
    }
    if j > 0 {
        assert(s[i] == x[0]);
        assert(s[i + j - 1] == x[j - 1]);
    }
    (i, i + j)
}

/// Checks whether `c` is whitespace.
pub fn char_is_whitespace(c: char) -> (r: bool)
    ensures
        r == is_whitespace(c),
{
    ('\u{9}' <= c && c <= '\u{d}') || c == ' ' || c == '\u{85}' || c == '\u{a0}' || c
        == '\u{1680}' || ('\u{2000}' <= c && c <= '\u{200a}') || c == '\u{2028}' || c
        == '\u{2029}' || c == '\u{202f}' || c == '\u{205f}' || c == '\u{3000}'
}

proof fn lemma_trim_start_skip(s: Seq<char>, i: int)
    requires
        0 <= i <= s.len(),
        forall|j: int| 0 <= j < i ==> is_whitespace(#[trigger] s[j]),
    ensures
        trim_start(s) == trim_start(s.skip(i)),
    decreases i,
{
    if i > 0 {
        assert(s.drop_first().skip(i - 1) =~= s.skip(i));
        lemma_trim_start_skip(s.drop_first(), i - 1);
    } else {
        assert(s.skip(0) =~= s);
    }
}

proof fn lemma_trim_end_take(s: Seq<char>, i: int)
    requires
        0 <= i <= s.len(),
        forall|j: int| i <= j < s.len() ==> is_whitespace(#[trigger] s[j]),
    ensures
        trim_end(s) == trim_end(s.take(i)),
    decreases s.len() - i,
{
    if i < s.len() {
        assert(s.drop_last().take(i) =~= s.take(i));
        lemma_trim_end_take(s.drop_last(), i);
    } else {
        assert(s.take(i) =~= s);
    }
}

/// Returns `s` without leading and trailing whitespace.
pub fn trim_str(s: &str) -> (r: &str)
    ensures
        r@ == trim(s@),
{
    let len = s.unicode_len();
    let mut start: usize = 0;
    while start < len && char_is_whitespace(s.get_char(start))
        invariant
            len == s@.len(),
            start <= len,
            forall|j: int| 0 <= j < start ==> is_whitespace(#[trigger] s@[j]),
        decreases len - start,
    {
        start += 1;
    }
    proof {
        lemma_trim_start_skip(s@, start as int);
        let t = s@.skip(start as int);
        if t.len() > 0 {
            assert(t[0] == s@[start as int]);
        }
        assert(trim_start(t) == t);
    }
    let mut end: usize = len;
    while end > start && char_is_whitespace(s.get_char(end - 1))
        invariant
            len == s@.len(),
            start <= end <= len,
            forall|j: int| end <= j < len ==> is_whitespace(#[trigger] s@[j]),
        decreases end,
    {
        end -= 1;
    }
    let r = s.substring_char(start, end);
    proof {
        let t = s@.skip(start as int);
        let k = end - start;
        assert forall|j: int| k <= j < t.len() implies is_whitespace(#[trigger] t[j]) by {
            assert(t[j] == s@[start + j]);
        }
        lemma_trim_end_take(t, k);
        assert(t.take(k) =~= r@);
        if r@.len() > 0 {
            assert(r@.last() == s@[end - 1]);
        }
        assert(trim_end(r@) == r@);
    }
    r
}

/// Whether `suffix` ends `s`.
pub fn str_ends_with(s: &str, suffix: &str) -> (r: bool)
    ensures
        r == suffix@.is_suffix_of(s@),
{
    let n = s.unicode_len();
    let m = suffix.unicode_len();
    if m > n {
        return false;
    }
    let mut i: usize = 0;
    while i < m
        invariant
            n == s@.len(),
            m == suffix@.len(),
            m <= n,
            i <= m,
            forall|j: int| 0 <= j < i ==> suffix@[j] == s@[n - m + j],
        decreases m - i,
    {
        if suffix.get_char(i) != s.get_char(n - m + i) {
            proof {
                let t = s@.subrange(n - m, n as int);
                assert(t[i as int] == s@[n - m + i]);
                assert(suffix@ != t);
            }
            return false;
        }
        i += 1;
    }
    assert(suffix@ =~= s@.subrange(n - m, n as int));
    true
}

/// Whether `a` and `b` hold the same text.
pub fn str_eq(a: &str, b: &str) -> (r: bool)
    ensures
        r == (a@ == b@),
{
    let n = a.unicode_len();
    if n != b.unicode_len() {
        return false;
    }
    let mut i: usize = 0;
    while i < n
        invariant
            n == a@.len(),
            n == b@.len(),
            i <= n,
            forall|j: int| 0 <= j < i ==> a@[j] == b@[j],
        decreases n - i,
    {
        if a.get_char(i) != b.get_char(i) {
            return false;
        }
        i += 1;
    }
    assert(a@ =~= b@);
    true
}

/// Whether `prefix` begins `s`.
pub fn str_starts_with(s: &str, prefix: &str) -> (r: bool)
    ensures
        r == prefix@.is_prefix_of(s@),
{
    let n = s.unicode_len();
    let m = prefix.unicode_len();
    if m > n {
        return false;
    }
    let mut i: usize = 0;
    while i < m
        invariant
            n == s@.len(),
            m == prefix@.len(),
            m <= n,
            i <= m,
            forall|j: int| 0 <= j < i ==> prefix@[j] == s@[j],
        decreases m - i,
    {
        if prefix.get_char(i) != s.get_char(i) {
            proof {
                assert(s@.subrange(0, m as int)[i as int] == s@[i as int]);
            }
            return false;
        }
        i += 1;
    }
    assert(prefix@ =~= s@.subrange(0, m as int));
    true
}

/// Returns `s` without `prefix` when `prefix` begins it.
pub fn str_strip_prefix<'a>(s: &'a str, prefix: &str) -> (r: Option<&'a str>)
    ensures
        r is Some <==> prefix@.is_prefix_of(s@),
        r matches Some(t) ==> t@ == s@.skip(prefix@.len() as int),
{
    if str_starts_with(s, prefix) {
        let n = s.unicode_len();
        let m = prefix.unicode_len();
        Some(s.substring_char(m, n))
    } else {
        None
    }
}

/// Whether `s` starts with `c`.
pub fn str_starts_with_char(s: &str, c: char) -> (r: bool)
    ensures
        r == (s@.len() > 0 && s@[0] == c),
{
    s.unicode_len() > 0 && s.get_char(0) == c
}

/// Returns `s` without `suffix` when `suffix` ends it.
pub fn str_strip_suffix<'a>(s: &'a str, suffix: &str) -> (r: Option<&'a str>)
    ensures
        r is Some <==> suffix@.is_suffix_of(s@),
        r matches Some(t) ==> t@ == s@.take(s@.len() - suffix@.len()),
{
    if str_ends_with(s, suffix) {
        let n = s.unicode_len();
        let m = suffix.unicode_len();
        Some(s.substring_char(0, n - m))
    } else {
        None
    }
}

/// Character position of the last occurrence of `c` in `s`.
pub fn str_rfind_char(s: &str, c: char) -> (r: Option<usize>)
    ensures
        r matches Some(i) ==> last_index(s@, c) == Some(i as int) && i < s@.len() && s@[i as int]
            == c,
        r is None ==> last_index(s@, c) is None,
{
    let mut i = s.unicode_len();
    while i > 0
        invariant
            i <= s@.len(),
            forall|j: int| i <= j < s@.len() ==> s@[j] != c,
        decreases i,
    {
        if s.get_char(i - 1) == c {
            proof {
                lemma_last_index_at(s@, c, i - 1);
            }
            return Some(i - 1);
        }
        i -= 1;
    }
    proof {
        lemma_last_index_none(s@, c);
    }
    None
}

/// `last_index` finds a `ch` after which no `ch` stands.
pub proof fn lemma_last_index_at_pub(t: Seq<char>, ch: char, k: int)
    requires
        0 <= k < t.len(),
        t[k] == ch,
        forall|j: int| k < j < t.len() ==> t[j] != ch,
    ensures
        last_index(t, ch) == Some(k),
{
    lemma_last_index_at(t, ch, k);
}

/// Where `last_index` points, `ch` stands, and only there from that point on.
pub proof fn lemma_last_index_props(s: Seq<char>, ch: char)
    ensures
        last_index(s, ch) matches Some(i) ==> 0 <= i < s.len() && s[i] == ch && forall|j: int|
            i < j < s.len() ==> s[j] != ch,
        last_index(s, ch) is None ==> forall|j: int| 0 <= j < s.len() ==> s[j] != ch,
    decreases s.len(),
{
    if s.len() > 0 && s.last() != ch {
        lemma_last_index_props(s.drop_last(), ch);
        assert forall|j: int| 0 <= j < s.len() - 1 implies s[j] == s.drop_last()[j] by {}
        assert(s[s.len() - 1] == s.last());
    }
}

/// Where `first_index` points, `ch` stands, and nowhere before.
pub proof fn lemma_first_index_props(s: Seq<char>, ch: char)
    ensures
        first_index(s, ch) matches Some(i) ==> 0 <= i < s.len() && s[i] == ch && forall|j: int|
            0 <= j < i ==> s[j] != ch,
        first_index(s, ch) is None ==> forall|j: int| 0 <= j < s.len() ==> s[j] != ch,
    decreases s.len(),
{
    if s.len() > 0 && s[0] != ch {
        lemma_first_index_props(s.drop_first(), ch);
        assert forall|j: int| 0 < j < s.len() implies s[j] == s.drop_first()[j - 1] by {}
    }
}

/// The pieces joined back together with `ch` between them.
pub open spec fn join_with(pieces: Seq<Seq<char>>, ch: char) -> Seq<char>
    decreases pieces.len(),
{
    if pieces.len() == 0 {
        seq![]
    } else if pieces.len() == 1 {
        pieces[0]
    } else {
        pieces[0] + seq![ch] + join_with(pieces.drop_first(), ch)
    }
}

/// How often `ch` occurs in `s`.
pub open spec fn occurrences(s: Seq<char>, ch: char) -> nat
    decreases s.len(),
{
    if s.len() == 0 {
        0
    } else {
        occurrences(s.drop_last(), ch) + if s.last() == ch {
            1nat
        } else {
            0nat
        }
    }
}

proof fn lemma_occurrences_concat(a: Seq<char>, b: Seq<char>, ch: char)
    ensures
        occurrences(a + b, ch) == occurrences(a, ch) + occurrences(b, ch),
    decreases b.len(),
{
    if b.len() == 0 {
        assert(a + b =~= a);
    } else {
        assert((a + b).drop_last() =~= a + b.drop_last());
        lemma_occurrences_concat(a, b.drop_last(), ch);
    }
}

proof fn lemma_occurrences_none(s: Seq<char>, ch: char)
    requires
        forall|j: int| 0 <= j < s.len() ==> s[j] != ch,
    ensures
        occurrences(s, ch) == 0,
    decreases s.len(),
{
    if s.len() > 0 {
        lemma_occurrences_none(s.drop_last(), ch);
    }
}

/// `s` is the part before position `i`, the character there, and the rest.
proof fn lemma_split_at(s: Seq<char>, i: int)
    requires
        0 <= i < s.len(),
    ensures
        s == s.take(i) + seq![s[i]] + s.skip(i + 1),
{
    assert(s =~= s.take(i) + seq![s[i]] + s.skip(i + 1));
}

proof fn lemma_join_push(pieces: Seq<Seq<char>>, last: Seq<char>, ch: char)
    requires
        pieces.len() > 0,
    ensures
        join_with(pieces.push(last), ch) == join_with(pieces, ch) + seq![ch] + last,
    decreases pieces.len(),
{
    if pieces.len() == 1 {
        assert(pieces.push(last).drop_first() =~= seq![last]);
        assert(join_with(seq![last], ch) == last);
    } else {
        assert(pieces.push(last).drop_first() =~= pieces.drop_first().push(last));
        lemma_join_push(pieces.drop_first(), last, ch);
    }
}

proof fn lemma_split_pieces_nonempty(s: Seq<char>, ch: char, n: nat)
    requires
        n >= 1,
    ensures
        split_pieces(s, ch, n).len() >= 1,
        rsplit_pieces(s, ch, n).len() >= 1,
{
}

/// Law: splitting into at most `n >= 1` pieces and joining the pieces with
/// the separator gives back the original text.
pub proof fn lemma_split_join(s: Seq<char>, ch: char, n: nat)
    requires
        n >= 1,
    ensures
        join_with(split_pieces(s, ch, n), ch) == s,
    decreases n,
{
    if n > 1 {
        lemma_first_index_props(s, ch);
        if let Some(i) = first_index(s, ch) {
            let rest = split_pieces(s.skip(i + 1), ch, (n - 1) as nat);
            lemma_split_join(s.skip(i + 1), ch, (n - 1) as nat);
            lemma_split_pieces_nonempty(s.skip(i + 1), ch, (n - 1) as nat);
            let pieces = seq![s.take(i)] + rest;
            assert(pieces.drop_first() =~= rest);
            lemma_split_at(s, i);
        }
    }
}

/// Law: splitting from the back into at most `n >= 1` pieces and joining
/// the pieces, front to back, with the separator gives back the original
/// text.
pub proof fn lemma_rsplit_join(s: Seq<char>, ch: char, n: nat)
    requires
        n >= 1,
    ensures
        join_with(rsplit_pieces(s, ch, n).reverse(), ch) == s,
    decreases n,
{
    if n == 1 {
        assert(seq![s].reverse() =~= seq![s]);
    } else {
        lemma_last_index_props(s, ch);
        match last_index(s, ch) {
            None => {
                assert(seq![s].reverse() =~= seq![s]);
            },
            Some(i) => {
                let rest = rsplit_pieces(s.take(i), ch, (n - 1) as nat);
                lemma_rsplit_join(s.take(i), ch, (n - 1) as nat);
                lemma_split_pieces_nonempty(s.take(i), ch, (n - 1) as nat);
                assert((seq![s.skip(i + 1)] + rest).reverse() =~= rest.reverse().push(
                    s.skip(i + 1),
                ));
                lemma_join_push(rest.reverse(), s.skip(i + 1), ch);
                lemma_split_at(s, i);
            },
        }
    }
}

/// Law: splitting into at most `n >= 1` pieces gives one piece more than
/// the separator occurs, up to `n`; so an exact split into `n` pieces
/// succeeds exactly when the separator occurs at least `n - 1` times.
pub proof fn lemma_split_count(s: Seq<char>, ch: char, n: nat)
    requires
        n >= 1,
    ensures
        split_pieces(s, ch, n).len() == if n < occurrences(s, ch) + 1 {
            n
        } else {
            occurrences(s, ch) + 1
        },
    decreases n,
{
    lemma_first_index_props(s, ch);
    match first_index(s, ch) {
        None => {
            lemma_occurrences_none(s, ch);
        },
        Some(i) => {
            lemma_split_at(s, i);
            lemma_occurrences_concat(s.take(i) + seq![s[i]], s.skip(i + 1), ch);
            lemma_occurrences_concat(s.take(i), seq![s[i]], ch);
            lemma_occurrences_none(s.take(i), ch);
            assert(occurrences(seq![s[i]], ch) == 1) by {
                let one = seq![s[i]];
                assert(one.drop_last() =~= Seq::<char>::empty());
                assert(one.last() == ch);
                assert(occurrences(one.drop_last(), ch) == 0);
            }
            if n > 1 {
                lemma_split_count(s.skip(i + 1), ch, (n - 1) as nat);
            }
        },
    }
}

/// Law: splitting from the back into at most `n >= 1` pieces gives one
/// piece more than the separator occurs, up to `n`.
pub proof fn lemma_rsplit_count(s: Seq<char>, ch: char, n: nat)
    requires
        n >= 1,
    ensures
        rsplit_pieces(s, ch, n).len() == if n < occurrences(s, ch) + 1 {
            n
        } else {
            occurrences(s, ch) + 1
        },
    decreases n,
{
    lemma_last_index_props(s, ch);
    match last_index(s, ch) {
        None => {
            lemma_occurrences_none(s, ch);
        },
        Some(i) => {
            lemma_split_at(s, i);
            lemma_occurrences_concat(s.take(i) + seq![s[i]], s.skip(i + 1), ch);
            lemma_occurrences_concat(s.take(i), seq![s[i]], ch);
            lemma_occurrences_none(s.skip(i + 1), ch);
            assert(occurrences(seq![s[i]], ch) == 1) by {
                let one = seq![s[i]];
                assert(one.drop_last() =~= Seq::<char>::empty());
                assert(one.last() == ch);
                assert(occurrences(one.drop_last(), ch) == 0);
            }
            if n > 1 {
                lemma_rsplit_count(s.take(i), ch, (n - 1) as nat);
            }
        },
    }
}

/// Collecting a sequence of items into exactly `N` of them.
pub trait IterExt<T>: Sized {
    /// Returns the items when there are exactly `N` of them, and `None`
    /// when there are fewer or more.
    fn collect_exact<const N: usize>(self) -> Option<Vec<T>>;
}

impl<T> IterExt<T> for Vec<T> {
    fn collect_exact<const N: usize>(self) -> (r: Option<Vec<T>>)
        ensures
            r is Some <==> self@.len() == N,
            r matches Some(v) ==> v@ == self@,
    {
        if self.len() == N {
            Some(self)
        } else {
            None
        }
    }
}

/// Splitting a string slice on a character into an exact number of pieces.
pub trait StrExt {
    /// Splits on `ch` from the front into exactly `N` pieces.
    fn split_exact_by<const N: usize>(&self, ch: char) -> Option<Vec<&str>>;

    /// Splits on `ch` from the back into exactly `N` pieces.
    fn rsplit_exact_by<const N: usize>(&self, ch: char) -> Option<Vec<&str>>;
}

impl StrExt for str {
    /// Splits on the first `N - 1` occurrences of `ch`; succeeds only when
    /// that yields exactly `N` pieces.
    fn split_exact_by<const N: usize>(&self, ch: char) -> (r: Option<Vec<&str>>)
        ensures
            r is Some <==> split_pieces(self@, ch, N as nat).len() == N,
            r matches Some(v) ==> str_views(v@) == split_pieces(self@, ch, N as nat),
    {
        let mut pieces: Vec<&str> = Vec::new();
        if N == 0 {
            assert(str_views(pieces@) =~= split_pieces(self@, ch, N as nat));
            return pieces.collect_exact::<N>();
        }
        let len = self.unicode_len();
        let mut start: usize = 0;
        let mut i: usize = 0;
        let ghost full = split_pieces(self@, ch, N as nat);
        proof {
            assert(self@.skip(0) =~= self@);
            assert(str_views(pieces@) + full =~= full);
        }
        while i < len
            invariant
                0 < N,
                len == self@.len(),
                pieces@.len() < N,
                start <= i <= len,
                forall|j: int| start <= j < i ==> self@[j] != ch,
                str_views(pieces@) + split_pieces(
                    self@.skip(start as int),
                    ch,
                    (N - pieces@.len()) as nat,
                ) == full,
            ensures
                pieces@.len() < N,
                start <= len,
                str_views(pieces@) + split_pieces(
                    self@.skip(start as int),
                    ch,
                    (N - pieces@.len()) as nat,
                ) == full,
                pieces@.len() + 1 == N || forall|j: int| start <= j < len ==> self@[j] != ch,
            decreases len - i,
        {
            if pieces.len() + 1 == N {
                break;
            }
            let c = self.get_char(i);
            if c == ch {
                let piece = self.substring_char(start, i);
                let ghost rest = self@.skip(start as int);
                let ghost m = (N - pieces@.len()) as nat;
                proof {
                    lemma_first_index_at(rest, ch, i - start);
                    assert(rest.take(i - start) =~= piece@);
                    assert(rest.skip(i - start + 1) =~= self@.skip(i + 1));
                    assert(split_pieces(rest, ch, m) == seq![piece@] + split_pieces(
                        self@.skip(i + 1),
                        ch,
                        (m - 1) as nat,
                    ));
                }
                let ghost old_pieces = pieces@;
                pieces.push(piece);
                proof {
                    assert(str_views(pieces@) =~= str_views(old_pieces) + seq![piece@]);
                }
                start = i + 1;
            }
            i += 1;
        }
        let last = self.substring_char(start, len);
        proof {
            let rest = self@.skip(start as int);
            let m = (N - pieces@.len()) as nat;
            assert(rest =~= last@);
            if m > 1 {
                assert forall|j: int| 0 <= j < rest.len() implies rest[j] != ch by {
                    assert(rest[j] == self@[start + j]);
                }
                lemma_first_index_none(rest, ch);
            }
            assert(split_pieces(rest, ch, m) == seq![last@]);
        }
        let ghost old_pieces = pieces@;
        pieces.push(last);
        proof {
            assert(str_views(pieces@) =~= str_views(old_pieces) + seq![last@]);
            assert(str_views(pieces@) == full);
            assert(pieces@.len() == full.len());
        }
        pieces.collect_exact::<N>()
    }

    /// Splits on the last `N - 1` occurrences of `ch`, pieces listed from the
    /// back; succeeds only when that yields exactly `N` pieces.
    fn rsplit_exact_by<const N: usize>(&self, ch: char) -> (r: Option<Vec<&str>>)
        ensures
            r is Some <==> rsplit_pieces(self@, ch, N as nat).len() == N,
            r matches Some(v) ==> str_views(v@) == rsplit_pieces(self@, ch, N as nat),
    {
        let mut pieces: Vec<&str> = Vec::new();
        if N == 0 {
            assert(str_views(pieces@) =~= rsplit_pieces(self@, ch, N as nat));
            return pieces.collect_exact::<N>();
        }
        let len = self.unicode_len();
        let mut end: usize = len;
        let mut i: usize = len;
        let ghost full = rsplit_pieces(self@, ch, N as nat);
        proof {
            assert(self@.take(len as int) =~= self@);
            assert(str_views(pieces@) + full =~= full);
        }
        while i > 0
            invariant
                0 < N,
                len == self@.len(),
                pieces@.len() < N,
                i <= end <= len,
                forall|j: int| i <= j < end ==> self@[j] != ch,
                str_views(pieces@) + rsplit_pieces(
                    self@.take(end as int),
                    ch,
                    (N - pieces@.len()) as nat,
                ) == full,
            ensures
                pieces@.len() < N,
                end <= len,
                str_views(pieces@) + rsplit_pieces(
                    self@.take(end as int),
                    ch,
                    (N - pieces@.len()) as nat,
                ) == full,
                pieces@.len() + 1 == N || forall|j: int| 0 <= j < end ==> self@[j] != ch,
            decreases i,
        {
            if pieces.len() + 1 == N {
                break;
            }
            let c = self.get_char(i - 1);
            if c == ch {
                let piece = self.substring_char(i, end);
                let ghost rest = self@.take(end as int);
                let ghost m = (N - pieces@.len()) as nat;
                proof {
                    lemma_last_index_at(rest, ch, i - 1);
                    assert(rest.skip(i as int) =~= piece@);
                    assert(rest.take(i - 1) =~= self@.take(i - 1));
                    assert(rsplit_pieces(rest, ch, m) == seq![piece@] + rsplit_pieces(
                        self@.take(i - 1),
                        ch,
                        (m - 1) as nat,
                    ));
                }
                let ghost old_pieces = pieces@;
                pieces.push(piece);
                proof {
                    assert(str_views(pieces@) =~= str_views(old_pieces) + seq![piece@]);
                }
                end = i - 1;
            }
            i -= 1;
        }
        let first = self.substring_char(0, end);
        proof {
            let rest = self@.take(end as int);
            let m = (N - pieces@.len()) as nat;
            assert(rest =~= first@);
            if m > 1 {
                lemma_last_index_none(rest, ch);
            }
            assert(rsplit_pieces(rest, ch, m) == seq![first@]);
        }
        let ghost old_pieces = pieces@;
        pieces.push(first);
        proof {
            assert(str_views(pieces@) =~= str_views(old_pieces) + seq![first@]);
            assert(str_views(pieces@) == full);
            assert(pieces@.len() == full.len());
        }
        pieces.collect_exact::<N>()
    }
}

} // verus!

verus! {

/// A reusable text buffer: each acquisition hands it out empty.
pub struct StringBuffer {
    buffer: String,
}

impl View for StringBuffer {
    type V = Seq<char>;

    closed spec fn view(&self) -> Seq<char> {
        self.buffer@
    }
}

impl StringBuffer {
    /// Creates an empty buffer.
    pub fn new() -> (r: Self)
        ensures
            r@ == Seq::<char>::empty(),
    {
        Self { buffer: String::new() }
    }

    /// Hands out the buffer, emptied of whatever an earlier acquisition left.
    pub fn acquire(&mut self) -> (guard: StringBufferGuard<'_>)
        ensures
            guard@ == Seq::<char>::empty(),
    {
        self.buffer = String::new();
        StringBufferGuard { buffer: &mut self.buffer }
    }
}

/// The buffer of a [`StringBuffer`] while it is in use.
pub struct StringBufferGuard<'a> {
    buffer: &'a mut String,
}

impl<'a> View for StringBufferGuard<'a> {
    type V = Seq<char>;

    closed spec fn view(&self) -> Seq<char> {
        (*self.buffer)@
    }
}

impl<'a> StringBufferGuard<'a> {
    /// The text written so far.
    pub fn as_str(&self) -> (r: &str)
        ensures
            r@ == self@,
    {
        self.buffer.as_str()
    }

    /// The buffer, to write into.
    pub fn as_mut_string(&mut self) -> (r: &mut String)
        ensures
            r@ == old(self)@,
            final(self)@ == final(r)@,
    {
        &mut *self.buffer
    }

    /// A copy of the text written so far.
    pub fn to_string(&self) -> (r: String)
        ensures
            r@ == self@,
    {
        self.buffer.clone()
    }
}

} // verus!

verus! {

#[verifier::external_type_specification]
#[verifier::external_body]
pub struct ExInstant(std::time::Instant);

/// Reads the clock through `std::time::Instant::now`. Nothing is promised of
/// the result: it is the time of the call.
#[verifier::external_body]
fn instant_now() -> std::time::Instant {
    std::time::Instant::now()
}

/// Measures through `std::time::Instant::elapsed` how long ago `since` was.
/// Nothing is promised of the result: it depends on the time of the call.
#[verifier::external_body]
fn instant_elapsed(since: &std::time::Instant) -> std::time::Duration {
    since.elapsed()
}

/// How many nanoseconds a duration spans: its whole seconds times a
/// billion plus its nanoseconds, which is what
/// `std::time::Duration::as_nanos` gives.
pub uninterp spec fn duration_nanos(duration: std::time::Duration) -> nat;

/// The whole nanoseconds of a duration, through
/// `std::time::Duration::as_nanos`; a duration holds at most `u64::MAX`
/// seconds and less than a second of nanoseconds besides.
#[verifier::external_body]
fn duration_as_nanos(duration: std::time::Duration) -> (r: u128)
    ensures
        r == duration_nanos(duration),
        r < (u64::MAX + 1) * 1_000_000_000,
{
    duration.as_nanos()
}

/// The duration of `secs` seconds and `nanos` nanoseconds, through
/// `std::time::Duration::new`, which panics only when `nanos` carries over
/// into a full second that `secs` cannot hold: with `nanos` below a second
/// it does not, and the duration spans `secs` seconds and `nanos`
/// nanoseconds.
#[verifier::external_body]
fn duration_new(secs: u64, nanos: u32) -> (r: std::time::Duration)
    requires
        nanos < 1_000_000_000,
    ensures
        duration_nanos(r) == secs * 1_000_000_000 + nanos,
{
    std::time::Duration::new(secs, nanos)
}

/// Nanoseconds in a second.
pub const NANOS_PER_SEC: u128 = 1_000_000_000;

/// What is left of an interval of `interval` nanoseconds after `elapsed`
/// nanoseconds: nothing once more time has passed than the interval holds.
pub open spec fn remaining_time(interval: nat, elapsed: nat) -> Option<nat> {
    if elapsed <= interval {
        Some((interval - elapsed) as nat)
    } else {
        None
    }
}

/// What is left of an interval of `interval` nanoseconds after `elapsed`
/// nanoseconds.
pub fn remaining_nanos(interval: u128, elapsed: u128) -> (r: Option<u128>)
    ensures
        match r {
            Some(n) => remaining_time(interval as nat, elapsed as nat) == Some(n as nat),
            None => remaining_time(interval as nat, elapsed as nat) is None,
        },
{
    if elapsed <= interval {
        Some(interval - elapsed)
    } else {
        None
    }
}

/// One finished chapter as the pacer counts it: the new count, and whether
/// the chapter closes a batch of `rate_limit` chapters.
pub open spec fn pace_step(count: nat, rate_limit: nat) -> (nat, bool) {
    if rate_limit == 0 {
        (count, false)
    } else if count + 1 >= rate_limit {
        (0, true)
    } else {
        ((count + 1) as nat, false)
    }
}

/// The pacer's count after `k` finished chapters, starting from none.
pub open spec fn pace_count_after(k: nat, rate_limit: nat) -> nat
    decreases k,
{
    if k == 0 {
        0
    } else {
        pace_step(pace_count_after((k - 1) as nat, rate_limit), rate_limit).0
    }
}

/// Limits downloads to `rate_limit` chapters per interval; a limit of zero
/// means no limit.
pub struct PaceMaker {
    count: u16,
    last_stop_time: std::time::Instant,
    rate_limit: u16,
    interval: u128,
}

impl PaceMaker {
    #[verifier::type_invariant]
    spec fn counts_below_limit(self) -> bool {
        &&& self.rate_limit == 0 ==> self.count == 0
        &&& self.rate_limit > 0 ==> self.count < self.rate_limit
        &&& self.interval < (u64::MAX + 1) * NANOS_PER_SEC
    }

    /// Chapters finished since the last throttle.
    pub closed spec fn count(&self) -> nat {
        self.count as nat
    }

    /// Chapters allowed per interval; zero for no limit.
    pub closed spec fn rate_limit(&self) -> nat {
        self.rate_limit as nat
    }

    /// The interval, in nanoseconds.
    pub closed spec fn spec_interval(&self) -> nat {
        self.interval as nat
    }

    /// When the current interval started.
    pub closed spec fn spec_last_stop(&self) -> std::time::Instant {
        self.last_stop_time
    }

    /// Creates a pacer that has counted no chapter yet, with an interval of
    /// `sleep_interval` that starts now.
    pub fn new(rate_limit: u16, sleep_interval: std::time::Duration) -> (r: Self)
        ensures
            r.count() == 0,
            r.rate_limit() == rate_limit,
            r.spec_interval() == duration_nanos(sleep_interval),
    {
        let interval = duration_as_nanos(sleep_interval);
        Self { count: 0, last_stop_time: instant_now(), rate_limit, interval }
    }

    /// Counts a finished chapter, `elapsed` nanoseconds after the current
    /// interval started. When it completes a batch of `rate_limit`
    /// chapters, returns the throttle, whose wait is what is left of the
    /// interval.
    pub fn on_chapter_finished_after(&mut self, elapsed: u128) -> (r: Option<Throttle>)
        ensures
            (r is Some) == pace_step(old(self).count(), old(self).rate_limit()).1,
            final(self).count() == pace_step(old(self).count(), old(self).rate_limit()).0,
            final(self).rate_limit() == old(self).rate_limit(),
            final(self).spec_interval() == old(self).spec_interval(),
            final(self).spec_last_stop() == old(self).spec_last_stop(),
            r matches Some(t) ==> t.spec_remaining() == remaining_time(
                old(self).spec_interval(),
                elapsed as nat,
            ),
    {
        proof {
            use_type_invariant(&*self);
        }
        if self.rate_limit == 0 {
            return None;
        }
        let next = self.count + 1;
        if next >= self.rate_limit {
            self.count = 0;
            Some(Throttle { remaining: remaining_nanos(self.interval, elapsed) })
        } else {
            self.count = next;
            None
        }
    }

    /// Counts a finished chapter, measuring on the clock how long ago the
    /// current interval started. When it completes a batch of `rate_limit`
    /// chapters, returns the throttle, whose wait is what is left of the
    /// interval: at most the interval, whatever time the clock gave.
    pub fn on_chapter_finished(&mut self) -> (r: Option<Throttle>)
        ensures
            (r is Some) == pace_step(old(self).count(), old(self).rate_limit()).1,
            final(self).count() == pace_step(old(self).count(), old(self).rate_limit()).0,
            final(self).rate_limit() == old(self).rate_limit(),
            final(self).spec_interval() == old(self).spec_interval(),
            final(self).spec_last_stop() == old(self).spec_last_stop(),
            r matches Some(t) ==> exists|elapsed: nat|
                t.spec_remaining() == remaining_time(old(self).spec_interval(), elapsed),
            r matches Some(t) ==> (t.spec_remaining() matches Some(n) && n
                <= old(self).spec_interval()) || t.spec_remaining() is None,
    {
        let elapsed = duration_as_nanos(instant_elapsed(&self.last_stop_time));
        self.on_chapter_finished_after(elapsed)
    }
}

/// A batch of chapters is complete: wait for what is left of the interval,
/// when anything is, then call [`Throttle::finish`] to start the next
/// interval.
pub struct Throttle {
    remaining: Option<u128>,
}

impl Throttle {
    #[verifier::type_invariant]
    spec fn fits_duration(self) -> bool {
        self.remaining matches Some(n) ==> n < (u64::MAX + 1) * NANOS_PER_SEC
    }

    /// What is left of the interval, in nanoseconds.
    pub closed spec fn spec_remaining(&self) -> Option<nat> {
        match self.remaining {
            Some(n) => Some(n as nat),
            None => None,
        }
    }

    /// What is left of the interval, in nanoseconds, if anything.
    pub fn remaining_nanos(&self) -> (r: Option<u128>)
        ensures
            match r {
                Some(n) => self.spec_remaining() == Some(n as nat),
                None => self.spec_remaining() is None,
            },
    {
        self.remaining
    }

    /// What is left of the interval, if anything, as a `Duration` spanning
    /// that many nanoseconds.
    pub fn duration(&self) -> (r: Option<std::time::Duration>)
        ensures
            r is Some <==> self.spec_remaining() is Some,
            r matches Some(d) ==> Some(duration_nanos(d)) == self.spec_remaining(),
    {
        proof {
            use_type_invariant(self);
        }
        match self.remaining {
            Some(n) => {
                let secs = n / NANOS_PER_SEC;
                let nanos = n % NANOS_PER_SEC;
                assert(secs * 1_000_000_000 + nanos == n) by (nonlinear_arith)
                    requires
                        secs == n / NANOS_PER_SEC,
                        nanos == n % NANOS_PER_SEC,
                        NANOS_PER_SEC == 1_000_000_000,
                ;
                Some(duration_new(secs as u64, nanos as u32))
            },
            None => None,
        }
    }

    /// Ends the wait: `pace_maker` starts its next interval at `now`, with
    /// its count, limit and interval left as they are.
    pub fn finish(self, pace_maker: &mut PaceMaker, now: std::time::Instant)
        ensures
            final(pace_maker).count() == old(pace_maker).count(),
            final(pace_maker).rate_limit() == old(pace_maker).rate_limit(),
            final(pace_maker).spec_interval() == old(pace_maker).spec_interval(),
            final(pace_maker).spec_last_stop() == now,
    {
        proof {
            use_type_invariant(&*pace_maker);
        }
        pace_maker.last_stop_time = now;
    }
}

/// Law: with a limit of `rate_limit > 0`, the pacer throttles exactly at
/// every `rate_limit`-th finished chapter, and its count is the number of
/// chapters finished since the last throttle.
pub proof fn lemma_pace_period(rate_limit: nat, k: nat)
    requires
        rate_limit > 0,
    ensures
        pace_count_after(k, rate_limit) == k % rate_limit,
        k > 0 ==> (pace_step(pace_count_after((k - 1) as nat, rate_limit), rate_limit).1 <==> k
            % rate_limit == 0),
    decreases k,
{
    if k > 0 {
        lemma_pace_period(rate_limit, (k - 1) as nat);
        let r = rate_limit as int;
        let j = (k - 1) as int;
        assert(0 <= j % r < r) by (nonlinear_arith)
            requires
                r > 0,
                j >= 0,
        ;
        assert(j % r + 1 == r ==> (j + 1) % r == 0) by (nonlinear_arith)
            requires
                r > 0,
                j >= 0,
        ;
        assert(j % r + 1 < r ==> (j + 1) % r == j % r + 1) by (nonlinear_arith)
            requires
                r > 0,
                j >= 0,
        ;
        assert(k % rate_limit == (j + 1) % r);
        assert((k - 1) % (rate_limit as int) == j % r);
    } else {
        assert(0int % (rate_limit as int) == 0) by (nonlinear_arith)
            requires
                rate_limit > 0,
        ;
    }
}

/// Law: a pacer made with a limit of `rate_limit > 0` starts with the count
/// of no chapter; when it has counted `k - 1` chapters since (each counted
/// by `on_chapter_finished`, each throttle finished before the next call),
/// the `k`-th chapter throttles exactly when `k` is a multiple of the limit,
/// and the count after it is `k % rate_limit`, below the limit, so the
/// `u16` counter never overflows.
pub proof fn lemma_pacer_kth_chapter(pacer: PaceMaker, k: nat)
    requires
        pacer.rate_limit() > 0,
        k > 0,
        pacer.count() == pace_count_after((k - 1) as nat, pacer.rate_limit()),
    ensures
        pace_count_after(0, pacer.rate_limit()) == 0,
        pace_step(pacer.count(), pacer.rate_limit()).1 <==> k % pacer.rate_limit() == 0,
        pace_step(pacer.count(), pacer.rate_limit()).0 == k % pacer.rate_limit(),
        pace_step(pacer.count(), pacer.rate_limit()).0 < pacer.rate_limit(),
{
    let r = pacer.rate_limit();
    lemma_pace_period(r, k);
    assert(k % r < r) by (nonlinear_arith)
        requires
            r > 0,
    ;
}

/// Law: without a limit the pacer never throttles.
pub proof fn lemma_pace_unlimited(count: nat)
    ensures
        !pace_step(count, 0).1,
        pace_step(count, 0).0 == count,
{
}

} // verus!
