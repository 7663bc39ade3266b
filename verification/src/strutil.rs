//! Text utilities over character sequences.
//!
//! The diagnosis engine works on line-oriented text read out of `/proc`.
//! Everything here is specified against the `Seq<char>` view of `&str` and
//! `String`: substring search, prefix and suffix tests, trimming, line
//! splitting and whitespace tokenisation.

use vstd::prelude::*;
use vstd::string::*;

verus! {

/// `needle` occurs in `s` at position `i`.
pub open spec fn match_at(s: Seq<char>, i: int, needle: Seq<char>) -> bool {
    0 <= i && i + needle.len() <= s.len() && s.subrange(i, i + needle.len()) == needle
}

/// `needle` occurs somewhere in `s`.
pub open spec fn contains_seq(s: Seq<char>, needle: Seq<char>) -> bool {
    exists|i: int| match_at(s, i, needle)
}

/// `s` begins with `p`.
pub open spec fn starts_with_seq(s: Seq<char>, p: Seq<char>) -> bool {
    p.len() <= s.len() && s.subrange(0, p.len() as int) == p
}

/// `s` ends with `p`.
pub open spec fn ends_with_seq(s: Seq<char>, p: Seq<char>) -> bool {
    p.len() <= s.len() && s.subrange(s.len() - p.len(), s.len() as int) == p
}

/// Whether `needle` stands at position `i` of `s`.
pub fn str_match_at(s: &str, i: usize, needle: &str) -> (r: bool)
    ensures
        r == match_at(s@, i as int, needle@),
{
    let sl = s.unicode_len();
    let n = needle.unicode_len();
    if i > sl || n > sl - i {
        return false;
    }
    let mut j: usize = 0;
    while j < n
        invariant
            i + n <= sl,
            sl == s@.len(),
            n == needle@.len(),
            j <= n,
            forall|k: int| 0 <= k < j ==> s@[i + k] == needle@[k],
        decreases n - j,
    {
        if s.get_char(i + j) != needle.get_char(j) {
            proof {
                assert(s@.subrange(i as int, i + n) != needle@) by {
                    assert(s@.subrange(i as int, i + n)[j as int] == s@[i + j]);
                }
            }
            return false;
        }
        j += 1;
    }
    proof {
        assert(s@.subrange(i as int, i + n) =~= needle@);
    }
    true
}

/// The first position of `needle` in `s`, or `-1`.
pub open spec fn find_idx(s: Seq<char>, needle: Seq<char>) -> int
    decreases s.len(),
{
    if needle.len() > s.len() {
        -1
    } else if starts_with_seq(s, needle) {
        0
    } else if s.len() == 0 {
        -1
    } else {
        let r = find_idx(s.drop_first(), needle);
        if r < 0 {
            -1
        } else {
            1 + r
        }
    }
}

pub proof fn lemma_find_idx_at_pub(s: Seq<char>, needle: Seq<char>, i: int)
    requires
        match_at(s, i, needle),
        forall|k: int| 0 <= k < i ==> !match_at(s, k, needle),
    ensures
        find_idx(s, needle) == i,
    decreases i,
{
    if i == 0 {
        assert(starts_with_seq(s, needle)) by {
            assert(s.subrange(0, needle.len() as int) == needle);
        }
    } else {
        assert(!starts_with_seq(s, needle)) by {
            if starts_with_seq(s, needle) {
                assert(match_at(s, 0, needle));
            }
        }
        assert(match_at(s.drop_first(), i - 1, needle)) by {
            assert(s.drop_first().subrange(i - 1, i - 1 + needle.len() as int) =~= s.subrange(
                i,
                i + needle.len() as int,
            ));
        }
        assert forall|k: int| 0 <= k < i - 1 implies !match_at(s.drop_first(), k, needle) by {
            if match_at(s.drop_first(), k, needle) {
                assert(s.subrange(k + 1, k + 1 + needle.len() as int) =~= s.drop_first().subrange(
                    k,
                    k + needle.len() as int,
                ));
                assert(match_at(s, k + 1, needle));
            }
        }
        lemma_find_idx_at_pub(s.drop_first(), needle, i - 1);
    }
}

pub proof fn lemma_find_idx_none_pub(s: Seq<char>, needle: Seq<char>)
    requires
        !contains_seq(s, needle),
    ensures
        find_idx(s, needle) == -1,
    decreases s.len(),
{
    assert(!starts_with_seq(s, needle)) by {
        if starts_with_seq(s, needle) {
            assert(match_at(s, 0, needle));
        }
    }
    if needle.len() <= s.len() && s.len() > 0 {
        assert(!contains_seq(s.drop_first(), needle)) by {
            if contains_seq(s.drop_first(), needle) {
                let k = choose|k: int| match_at(s.drop_first(), k, needle);
                assert(s.subrange(k + 1, k + 1 + needle.len() as int) =~= s.drop_first().subrange(
                    k,
                    k + needle.len() as int,
                ));
                assert(match_at(s, k + 1, needle));
            }
        }
        lemma_find_idx_none_pub(s.drop_first(), needle);
    }
}

/// First position of `needle` in `s`, if any.
pub fn str_find(s: &str, needle: &str) -> (r: Option<usize>)
    ensures
        match r {
            Some(i) => match_at(s@, i as int, needle@) && find_idx(s@, needle@) == i as int
                && forall|k: int| 0 <= k < i ==> !match_at(s@, k, needle@),
            None => !contains_seq(s@, needle@) && find_idx(s@, needle@) == -1,
        },
{
    let sl = s.unicode_len();
    let n = needle.unicode_len();
    if n == 0 {
        proof {
            assert(s@.subrange(0, 0) =~= needle@);
            lemma_find_idx_at_pub(s@, needle@, 0);
        }
        return Some(0);
    }
    let mut i: usize = 0;
    while i < sl
        invariant
            sl == s@.len(),
            n == needle@.len(),
            i <= sl,
            forall|k: int| 0 <= k < i ==> !match_at(s@, k, needle@),
        decreases sl - i,
    {
        if str_match_at(s, i, needle) {
            proof {
                lemma_find_idx_at_pub(s@, needle@, i as int);
            }
            return Some(i);
        }
        i += 1;
    }
    proof {
        assert forall|k: int| !match_at(s@, k, needle@) by {
            if 0 <= k && k + needle@.len() <= s@.len() {
                assert(k < s@.len());
            }
        }
        lemma_find_idx_none_pub(s@, needle@);
    }
    None
}

/// Whether `needle` occurs in `s`.
pub fn str_contains(s: &str, needle: &str) -> (r: bool)
    ensures
        r == contains_seq(s@, needle@),
{
    str_find(s, needle).is_some()
}

/// Whether `s` begins with `p`.
pub fn str_starts_with(s: &str, p: &str) -> (r: bool)
    ensures
        r == starts_with_seq(s@, p@),
{
    str_match_at(s, 0, p)
}

/// Whether `s` ends with `p`.
pub fn str_ends_with(s: &str, p: &str) -> (r: bool)
    ensures
        r == ends_with_seq(s@, p@),
{
    let sl = s.unicode_len();
    let n = p.unicode_len();
    if n > sl {
        return false;
    }
    str_match_at(s, sl - n, p)
}

/// Character-for-character equality of two string slices.
pub fn str_eq(a: &str, b: &str) -> (r: bool)
    ensures
        r == (a@ == b@),
{
    let al = a.unicode_len();
    let bl = b.unicode_len();
    if al != bl {
        return false;
    }
    let r = str_match_at(a, 0, b);
    proof {
        if r {
            assert(a@.subrange(0, a@.len() as int) =~= a@);
        } else {
            assert(a@.subrange(0, b@.len() as int) =~= a@);
        }
    }
    r
}

/// The last position of the character `c` in `s`, or `-1`.
pub open spec fn rfind_spec(s: Seq<char>, c: char) -> int
    decreases s.len(),
{
    if s.len() == 0 {
        -1
    } else if s.last() == c {
        s.len() - 1
    } else {
        rfind_spec(s.drop_last(), c)
    }
}

pub proof fn lemma_rfind_spec_at(s: Seq<char>, c: char, q: int)
    requires
        0 <= q < s.len(),
        s[q] == c,
        forall|k: int| q < k < s.len() ==> s[k] != c,
    ensures
        rfind_spec(s, c) == q,
    decreases s.len(),
{
    if q < s.len() - 1 {
        lemma_rfind_spec_at(s.drop_last(), c, q);
    }
}

pub proof fn lemma_rfind_spec_none(s: Seq<char>, c: char)
    requires
        forall|k: int| 0 <= k < s.len() ==> s[k] != c,
    ensures
        rfind_spec(s, c) == -1,
    decreases s.len(),
{
    if s.len() > 0 {
        lemma_rfind_spec_none(s.drop_last(), c);
    }
}

/// Last position of the character `c` in `s`, if any.
pub fn str_rfind_char(s: &str, c: char) -> (r: Option<usize>)
    ensures
        match r {
            Some(i) => i < s@.len() && s@[i as int] == c && rfind_spec(s@, c) == i as int
                && forall|k: int| i < k < s@.len() ==> s@[k] != c,
            None => rfind_spec(s@, c) == -1 && forall|k: int| 0 <= k < s@.len() ==> s@[k] != c,
        },
{
    let sl = s.unicode_len();
    let mut i: usize = sl;
    while i > 0
        invariant
            sl == s@.len(),
            i <= sl,
            forall|k: int| i <= k < sl ==> s@[k] != c,
        decreases i,
    {
        i -= 1;
        if s.get_char(i) == c {
            proof {
                lemma_rfind_spec_at(s@, c, i as int);
            }
            return Some(i);
        }
    }
    proof {
        lemma_rfind_spec_none(s@, c);
    }
    None
}

/// First position of the character `c` in `s`, or the length of `s`.
pub fn str_find_char(s: &str, c: char) -> (r: usize)
    ensures
        r <= s@.len(),
        forall|k: int| 0 <= k < r ==> s@[k] != c,
        r < s@.len() ==> s@[r as int] == c,
{
    let sl = s.unicode_len();
    let mut i: usize = 0;
    while i < sl
        invariant
            sl == s@.len(),
            i <= sl,
            forall|k: int| 0 <= k < i ==> s@[k] != c,
        decreases sl - i,
    {
        if s.get_char(i) == c {
            return i;
        }
        i += 1;
    }
    i
}

/// The character views of a sequence of owned strings.
pub open spec fn seq_views(v: Seq<String>) -> Seq<Seq<char>> {
    v.map_values(|x: String| x@)
}

/// ASCII whitespace, the character class that `/proc` text uses.
pub open spec fn is_space_char(c: char) -> bool {
    c == ' ' || c == '\t' || c == '\n' || c == '\r' || c == '\u{b}' || c == '\u{c}'
}

/// Executable test for [`is_space_char`].
pub fn char_is_space(c: char) -> (r: bool)
    ensures
        r == is_space_char(c),
{
    c == ' ' || c == '\t' || c == '\n' || c == '\r' || c == '\u{b}' || c == '\u{c}'
}

/// `s` without its leading whitespace.
pub open spec fn trim_start_spec(s: Seq<char>) -> Seq<char>
    decreases s.len(),
{
    if s.len() > 0 && is_space_char(s[0]) {
        trim_start_spec(s.drop_first())
    } else {
        s
    }
}

/// `s` without its trailing whitespace.
pub open spec fn trim_end_spec(s: Seq<char>) -> Seq<char>
    decreases s.len(),
{
    if s.len() > 0 && is_space_char(s[s.len() - 1]) {
        trim_end_spec(s.drop_last())
    } else {
        s
    }
}

/// `s` without leading and trailing whitespace.
pub open spec fn trim_spec(s: Seq<char>) -> Seq<char> {
    trim_end_spec(trim_start_spec(s))
}

proof fn lemma_trim_start_at(s: Seq<char>, i: int)
    requires
        0 <= i <= s.len(),
        forall|k: int| 0 <= k < i ==> is_space_char(s[k]),
        i == s.len() || !is_space_char(s[i]),
    ensures
        trim_start_spec(s) == s.subrange(i, s.len() as int),
    decreases i,
{
    if i == 0 {
        assert(s.subrange(0, s.len() as int) =~= s);
    } else {
        lemma_trim_start_at(s.drop_first(), i - 1);
        assert(s.drop_first().subrange(i - 1, s.drop_first().len() as int) =~= s.subrange(
            i,
            s.len() as int,
        ));
    }
}

proof fn lemma_trim_end_at(s: Seq<char>, i: int)
    requires
        0 <= i <= s.len(),
        forall|k: int| i <= k < s.len() ==> is_space_char(s[k]),
        i == 0 || !is_space_char(s[i - 1]),
    ensures
        trim_end_spec(s) == s.subrange(0, i),
    decreases s.len() - i,
{
    if i == s.len() {
        assert(s.subrange(0, s.len() as int) =~= s);
    } else {
        lemma_trim_end_at(s.drop_last(), i);
        assert(s.drop_last().subrange(0, i) =~= s.subrange(0, i));
    }
}

/// `s` with leading and trailing whitespace removed.
pub fn str_trim<'a>(s: &'a str) -> (r: &'a str)
    ensures
        r@ == trim_spec(s@),
{
    let sl = s.unicode_len();
    let mut lo: usize = 0;
    while lo < sl && char_is_space(s.get_char(lo))
        invariant
            sl == s@.len(),
            lo <= sl,
            forall|k: int| 0 <= k < lo ==> is_space_char(s@[k]),
        decreases sl - lo,
    {
        lo += 1;
    }
    let mut hi: usize = sl;
    while hi > lo && char_is_space(s.get_char(hi - 1))
        invariant
            sl == s@.len(),
            lo <= hi <= sl,
            forall|k: int| hi <= k < sl ==> is_space_char(s@[k]),
        decreases hi,
    {
        hi -= 1;
    }
    proof {
        lemma_trim_start_at(s@, lo as int);
        let t = s@.subrange(lo as int, sl as int);
        lemma_trim_end_at(t, hi - lo);
        assert(t.subrange(0, hi - lo) =~= s@.subrange(lo as int, hi as int));
    }
    s.substring_char(lo, hi)
}

/// `s` with trailing whitespace removed.
pub fn str_trim_end<'a>(s: &'a str) -> (r: &'a str)
    ensures
        r@ == trim_end_spec(s@),
{
    let sl = s.unicode_len();
    let mut hi: usize = sl;
    while hi > 0 && char_is_space(s.get_char(hi - 1))
        invariant
            sl == s@.len(),
            hi <= sl,
            forall|k: int| hi <= k < sl ==> is_space_char(s@[k]),
        decreases hi,
    {
        hi -= 1;
    }
    proof {
        lemma_trim_end_at(s@, hi as int);
    }
    s.substring_char(0, hi)
}

/// `s` with leading whitespace removed.
pub fn str_trim_start<'a>(s: &'a str) -> (r: &'a str)
    ensures
        r@ == trim_start_spec(s@),
{
    let sl = s.unicode_len();
    let mut lo: usize = 0;
    while lo < sl && char_is_space(s.get_char(lo))
        invariant
            sl == s@.len(),
            lo <= sl,
            forall|k: int| 0 <= k < lo ==> is_space_char(s@[k]),
        decreases sl - lo,
    {
        lo += 1;
    }
    proof {
        lemma_trim_start_at(s@, lo as int);
    }
    s.substring_char(lo, sl)
}

/// `s` without leading copies of the character `c`.
pub open spec fn trim_start_matches_spec(s: Seq<char>, c: char) -> Seq<char>
    decreases s.len(),
{
    if s.len() > 0 && s[0] == c {
        trim_start_matches_spec(s.drop_first(), c)
    } else {
        s
    }
}

proof fn lemma_trim_start_matches_at(s: Seq<char>, c: char, i: int)
    requires
        0 <= i <= s.len(),
        forall|k: int| 0 <= k < i ==> s[k] == c,
        i == s.len() || s[i] != c,
    ensures
        trim_start_matches_spec(s, c) == s.subrange(i, s.len() as int),
    decreases i,
{
    if i == 0 {
        assert(s.subrange(0, s.len() as int) =~= s);
    } else {
        lemma_trim_start_matches_at(s.drop_first(), c, i - 1);
        assert(s.drop_first().subrange(i - 1, s.drop_first().len() as int) =~= s.subrange(
            i,
            s.len() as int,
        ));
    }
}

/// `s` with every leading copy of `c` removed.
pub fn str_trim_start_matches<'a>(s: &'a str, c: char) -> (r: &'a str)
    ensures
        r@ == trim_start_matches_spec(s@, c),
{
    let sl = s.unicode_len();
    let mut lo: usize = 0;
    while lo < sl && s.get_char(lo) == c
        invariant
            sl == s@.len(),
            lo <= sl,
            forall|k: int| 0 <= k < lo ==> s@[k] == c,
        decreases sl - lo,
    {
        lo += 1;
    }
    proof {
        lemma_trim_start_matches_at(s@, c, lo as int);
    }
    s.substring_char(lo, sl)
}

/// `s` without trailing copies of the character `c`.
pub open spec fn trim_end_matches_spec(s: Seq<char>, c: char) -> Seq<char>
    decreases s.len(),
{
    if s.len() > 0 && s.last() == c {
        trim_end_matches_spec(s.drop_last(), c)
    } else {
        s
    }
}

pub proof fn lemma_trim_end_matches_at(s: Seq<char>, c: char, i: int)
    requires
        0 <= i <= s.len(),
        forall|k: int| i <= k < s.len() ==> s[k] == c,
        i == 0 || s[i - 1] != c,
    ensures
        trim_end_matches_spec(s, c) == s.subrange(0, i),
    decreases s.len() - i,
{
    if i == s.len() {
        assert(s.subrange(0, s.len() as int) =~= s);
    } else {
        lemma_trim_end_matches_at(s.drop_last(), c, i);
        assert(s.drop_last().subrange(0, i) =~= s.subrange(0, i));
    }
}

/// `s` with every trailing copy of `c` removed.
pub fn str_trim_end_matches<'a>(s: &'a str, c: char) -> (r: &'a str)
    ensures
        r@ == trim_end_matches_spec(s@, c),
{
    let sl = s.unicode_len();
    let mut hi: usize = sl;
    while hi > 0 && s.get_char(hi - 1) == c
        invariant
            sl == s@.len(),
            hi <= sl,
            forall|k: int| hi <= k < sl ==> s@[k] == c,
        decreases hi,
    {
        hi -= 1;
    }
    proof {
        lemma_trim_end_matches_at(s@, c, hi as int);
    }
    s.substring_char(0, hi)
}

/// A line with a terminating carriage return removed.
pub open spec fn strip_cr(l: Seq<char>) -> Seq<char> {
    if l.len() > 0 && l[l.len() - 1] == '\r' {
        l.drop_last()
    } else {
        l
    }
}

/// The lines of `s` after the partial line `cur`: split at `'\n'`, a carriage
/// return before the newline stripped, an unterminated final line kept only
/// when it is not empty.
pub open spec fn lines_acc(s: Seq<char>, cur: Seq<char>) -> Seq<Seq<char>>
    decreases s.len(),
{
    if s.len() == 0 {
        if cur.len() == 0 {
            Seq::empty()
        } else {
            seq![cur]
        }
    } else if s[0] == '\n' {
        seq![strip_cr(cur)] + lines_acc(s.drop_first(), Seq::empty())
    } else {
        lines_acc(s.drop_first(), cur.push(s[0]))
    }
}

/// The lines of `s`, with the meaning of `str::lines`.
pub open spec fn lines_spec(s: Seq<char>) -> Seq<Seq<char>> {
    lines_acc(s, Seq::empty())
}

/// Split `s` into its lines.
pub fn split_lines(s: &str) -> (r: Vec<String>)
    ensures
        seq_views(r@) == lines_spec(s@),
{
    let sl = s.unicode_len();
    let mut out: Vec<String> = Vec::new();
    let mut start: usize = 0;
    let mut i: usize = 0;
    proof {
        assert(s@.subrange(0, sl as int) =~= s@);
        assert(s@.subrange(0, 0) =~= Seq::<char>::empty());
        assert(seq_views(out@) =~= Seq::<Seq<char>>::empty());
        assert(seq_views(out@) + lines_acc(s@, Seq::empty()) =~= lines_acc(s@, Seq::empty()));
    }
    while i < sl
        invariant
            sl == s@.len(),
            start <= i <= sl,
            forall|k: int| start <= k < i ==> s@[k] != '\n',
            lines_spec(s@) == seq_views(out@) + lines_acc(
                s@.subrange(i as int, sl as int),
                s@.subrange(start as int, i as int),
            ),
        decreases sl - i,
    {
        let ghost rest = s@.subrange(i as int, sl as int);
        let ghost cur = s@.subrange(start as int, i as int);
        proof {
            assert(rest[0] == s@[i as int]);
            assert(rest.drop_first() =~= s@.subrange(i + 1, sl as int));
        }
        if s.get_char(i) == '\n' {
            let piece: &str = if i > start && s.get_char(i - 1) == '\r' {
                s.substring_char(start, i - 1)
            } else {
                s.substring_char(start, i)
            };
            proof {
                assert(piece@ =~= strip_cr(cur));
            }
            let owned = piece.to_owned();
            out.push(owned);
            proof {
                assert(seq_views(out@) =~= seq_views(out@.drop_last()) + seq![strip_cr(cur)]);
                assert(s@.subrange(i + 1, i + 1) =~= Seq::<char>::empty());
                assert(seq_views(out@.drop_last()) + (seq![strip_cr(cur)] + lines_acc(
                    rest.drop_first(),
                    Seq::empty(),
                )) =~= seq_views(out@) + lines_acc(rest.drop_first(), Seq::empty()));
            }
            start = i + 1;
        } else {
            proof {
                assert(cur.push(s@[i as int]) =~= s@.subrange(start as int, i + 1));
            }
        }
        i += 1;
    }
    if start < sl {
        let piece = s.substring_char(start, sl);
        out.push(piece.to_owned());
        proof {
            assert(seq_views(out@) =~= seq_views(out@.drop_last()) + seq![s@.subrange(
                start as int,
                sl as int,
            )]);
            assert(lines_acc(
                s@.subrange(sl as int, sl as int),
                s@.subrange(start as int, sl as int),
            ) =~= seq![s@.subrange(start as int, sl as int)]);
        }
    }
    proof {
        assert(seq_views(out@) + Seq::<Seq<char>>::empty() =~= seq_views(out@));
        assert(lines_spec(s@) =~= seq_views(out@));
    }
    out
}

/// The whitespace-separated tokens of `s` after the partial token `cur`.
pub open spec fn split_ws_acc(s: Seq<char>, cur: Seq<char>) -> Seq<Seq<char>>
    decreases s.len(),
{
    if s.len() == 0 {
        if cur.len() == 0 {
            Seq::empty()
        } else {
            seq![cur]
        }
    } else if is_space_char(s[0]) {
        if cur.len() == 0 {
            split_ws_acc(s.drop_first(), Seq::empty())
        } else {
            seq![cur] + split_ws_acc(s.drop_first(), Seq::empty())
        }
    } else {
        split_ws_acc(s.drop_first(), cur.push(s[0]))
    }
}

/// The whitespace-separated tokens of `s`, with the meaning of
/// `str::split_whitespace` on ASCII text.
pub open spec fn split_ws_spec(s: Seq<char>) -> Seq<Seq<char>> {
    split_ws_acc(s, Seq::empty())
}

/// Every whitespace-separated token has at least one character.
pub proof fn lemma_split_ws_tokens_nonempty(s: Seq<char>, cur: Seq<char>)
    requires
        cur.len() > 0 || cur == Seq::<char>::empty(),
    ensures
        forall|j: int|
            0 <= j < split_ws_acc(s, cur).len() ==> #[trigger] split_ws_acc(s, cur)[j].len() > 0,
    decreases s.len(),
{
    if s.len() == 0 {
        if cur.len() > 0 {
            assert(split_ws_acc(s, cur) == seq![cur]);
            assert(split_ws_acc(s, cur)[0] == cur);
        }
    } else if is_space_char(s[0]) {
        lemma_split_ws_tokens_nonempty(s.drop_first(), Seq::empty());
        if cur.len() > 0 {
            assert forall|j: int| 0 <= j < split_ws_acc(s, cur).len() implies #[trigger] split_ws_acc(
                s,
                cur,
            )[j].len() > 0 by {
                if j > 0 {
                    assert(split_ws_acc(s, cur)[j] == split_ws_acc(s.drop_first(), Seq::empty())[j
                        - 1]);
                }
            }
        } else {
            assert forall|j: int| 0 <= j < split_ws_acc(s, cur).len() implies #[trigger] split_ws_acc(
                s,
                cur,
            )[j].len() > 0 by {
                assert(split_ws_acc(s, cur)[j] == split_ws_acc(s.drop_first(), Seq::empty())[j]);
            }
        }
    } else {
        lemma_split_ws_tokens_nonempty(s.drop_first(), cur.push(s[0]));
        assert forall|j: int| 0 <= j < split_ws_acc(s, cur).len() implies #[trigger] split_ws_acc(
            s,
            cur,
        )[j].len() > 0 by {
            assert(split_ws_acc(s, cur)[j] == split_ws_acc(s.drop_first(), cur.push(s[0]))[j]);
        }
    }
}

/// Split `s` into whitespace-separated tokens.
pub fn split_whitespace(s: &str) -> (r: Vec<String>)
    ensures
        seq_views(r@) == split_ws_spec(s@),
{
    let sl = s.unicode_len();
    let mut out: Vec<String> = Vec::new();
    let mut start: usize = 0;
    let mut i: usize = 0;
    proof {
        assert(s@.subrange(0, sl as int) =~= s@);
        assert(s@.subrange(0, 0) =~= Seq::<char>::empty());
        assert(seq_views(out@) =~= Seq::<Seq<char>>::empty());
        assert(seq_views(out@) + split_ws_acc(s@, Seq::empty()) =~= split_ws_acc(
            s@,
            Seq::empty(),
        ));
    }
    while i < sl
        invariant
            sl == s@.len(),
            start <= i <= sl,
            forall|k: int| start <= k < i ==> !is_space_char(s@[k]),
            split_ws_spec(s@) == seq_views(out@) + split_ws_acc(
                s@.subrange(i as int, sl as int),
                s@.subrange(start as int, i as int),
            ),
        decreases sl - i,
    {
        let ghost rest = s@.subrange(i as int, sl as int);
        let ghost cur = s@.subrange(start as int, i as int);
        proof {
            assert(rest[0] == s@[i as int]);
            assert(rest.drop_first() =~= s@.subrange(i + 1, sl as int));
        }
        if char_is_space(s.get_char(i)) {
            if i > start {
                let piece = s.substring_char(start, i);
                out.push(piece.to_owned());
                proof {
                    assert(seq_views(out@) =~= seq_views(out@.drop_last()) + seq![cur]);
                }
            }
            start = i + 1;
            proof {
                assert(s@.subrange(i + 1, i + 1) =~= Seq::<char>::empty());
            }
        } else {
            proof {
                assert(cur.push(s@[i as int]) =~= s@.subrange(start as int, i + 1));
            }
        }
        i += 1;
    }
    if start < sl {
        let piece = s.substring_char(start, sl);
        out.push(piece.to_owned());
        proof {
            assert(seq_views(out@) =~= seq_views(out@.drop_last()) + seq![s@.subrange(
                start as int,
                sl as int,
            )]);
        }
    }
    proof {
        assert(seq_views(out@) + Seq::<Seq<char>>::empty() =~= seq_views(out@));
        assert(split_ws_spec(s@) =~= seq_views(out@));
    }
    out
}

/// A sequence contains what it was just extended with.
pub proof fn lemma_append_contains(a: Seq<char>, b: Seq<char>)
    ensures
        contains_seq(a + b, b),
{
    assert((a + b).subrange(a.len() as int, a.len() as int + b.len() as int) =~= b);
    assert(match_at(a + b, a.len() as int, b));
}

/// Containment survives appending more text.
pub proof fn lemma_contains_prefix_mono(s: Seq<char>, s2: Seq<char>, needle: Seq<char>)
    requires
        s.is_prefix_of(s2),
        contains_seq(s, needle),
    ensures
        contains_seq(s2, needle),
{
    let i = choose|i: int| match_at(s, i, needle);
    assert(s2.subrange(i, i + needle.len() as int) =~= s.subrange(i, i + needle.len() as int));
    assert(match_at(s2, i, needle));
}

/// Containment in the right part survives prepending text.
pub proof fn lemma_contains_concat_right(a: Seq<char>, b: Seq<char>, needle: Seq<char>)
    requires
        contains_seq(b, needle),
    ensures
        contains_seq(a + b, needle),
{
    let i = choose|i: int| match_at(b, i, needle);
    assert((a + b).subrange(a.len() + i, a.len() + i + needle.len() as int) =~= b.subrange(
        i,
        i + needle.len() as int,
    ));
    assert(match_at(a + b, a.len() + i, needle));
}

/// The pieces of `ls` joined with a newline between them.
pub open spec fn join_nl(ls: Seq<Seq<char>>) -> Seq<char>
    decreases ls.len(),
{
    if ls.len() == 0 {
        Seq::empty()
    } else if ls.len() == 1 {
        ls[0]
    } else {
        ls[0] + seq!['\n'] + join_nl(ls.drop_first())
    }
}

/// Joining one more piece appends a newline and the piece.
pub proof fn lemma_join_nl_snoc(ls: Seq<Seq<char>>, x: Seq<char>)
    requires
        ls.len() > 0,
    ensures
        join_nl(ls.push(x)) == join_nl(ls) + seq!['\n'] + x,
    decreases ls.len(),
{
    if ls.len() == 1 {
        assert(ls.push(x)[0] == ls[0]);
        assert(ls.push(x).drop_first() =~= seq![x]);
        assert(join_nl(seq![x]) == x);
    } else {
        lemma_join_nl_snoc(ls.drop_first(), x);
        assert(ls.push(x).drop_first() =~= ls.drop_first().push(x));
        assert(ls.push(x)[0] == ls[0]);
        assert(ls[0] + seq!['\n'] + (join_nl(ls.drop_first()) + seq!['\n'] + x) =~= (ls[0]
            + seq!['\n'] + join_nl(ls.drop_first())) + seq!['\n'] + x);
    }
}

/// Join owned strings with newlines between them.
pub fn join_lines(v: &Vec<String>) -> (r: String)
    ensures
        r@ == join_nl(seq_views(v@)),
{
    let n = v.len();
    let mut out = String::new();
    if n == 0 {
        return out;
    }
    out.append(v[0].as_str());
    let mut i: usize = 1;
    proof {
        assert(seq_views(v@).subrange(0, 1) =~= seq![v@[0]@]);
        assert(join_nl(seq![v@[0]@]) == v@[0]@);
    }
    while i < n
        invariant
            1 <= i <= n,
            n == v@.len(),
            out@ == join_nl(seq_views(v@).subrange(0, i as int)),
        decreases n - i,
    {
        out.append("\n");
        out.append(v[i].as_str());
        proof {
            reveal_strlit("\n");
            let pre = seq_views(v@).subrange(0, i as int);
            lemma_join_nl_snoc(pre, v@[i as int]@);
            assert(pre.push(v@[i as int]@) =~= seq_views(v@).subrange(0, i + 1));
            assert("\n"@ =~= seq!['\n']);
        }
        i += 1;
    }
    proof {
        assert(seq_views(v@).subrange(0, n as int) =~= seq_views(v@));
    }
    out
}

/// The pieces of `ls` joined with `sep` between them.
pub open spec fn join_sep(ls: Seq<Seq<char>>, sep: Seq<char>) -> Seq<char>
    decreases ls.len(),
{
    if ls.len() == 0 {
        Seq::empty()
    } else if ls.len() == 1 {
        ls[0]
    } else {
        ls[0] + sep + join_sep(ls.drop_first(), sep)
    }
}

pub proof fn lemma_join_sep_snoc(ls: Seq<Seq<char>>, sep: Seq<char>, x: Seq<char>)
    requires
        ls.len() > 0,
    ensures
        join_sep(ls.push(x), sep) == join_sep(ls, sep) + sep + x,
    decreases ls.len(),
{
    if ls.len() == 1 {
        assert(ls.push(x)[0] == ls[0]);
        assert(ls.push(x).drop_first() =~= seq![x]);
        assert(join_sep(seq![x], sep) == x);
    } else {
        lemma_join_sep_snoc(ls.drop_first(), sep, x);
        assert(ls.push(x).drop_first() =~= ls.drop_first().push(x));
        assert(ls.push(x)[0] == ls[0]);
        assert(ls[0] + sep + (join_sep(ls.drop_first(), sep) + sep + x) =~= (ls[0] + sep
            + join_sep(ls.drop_first(), sep)) + sep + x);
    }
}

/// Join owned strings with `sep` between them.
pub fn join_with(v: &Vec<String>, sep: &str) -> (r: String)
    ensures
        r@ == join_sep(seq_views(v@), sep@),
{
    let n = v.len();
    let mut out = String::new();
    if n == 0 {
        return out;
    }
    out.append(v[0].as_str());
    let mut i: usize = 1;
    proof {
        assert(seq_views(v@).subrange(0, 1) =~= seq![v@[0]@]);
        assert(join_sep(seq![v@[0]@], sep@) == v@[0]@);
    }
    while i < n
        invariant
            1 <= i <= n,
            n == v@.len(),
            out@ == join_sep(seq_views(v@).subrange(0, i as int), sep@),
        decreases n - i,
    {
        out.append(sep);
        out.append(v[i].as_str());
        proof {
            let pre = seq_views(v@).subrange(0, i as int);
            lemma_join_sep_snoc(pre, sep@, v@[i as int]@);
            assert(pre.push(v@[i as int]@) =~= seq_views(v@).subrange(0, i + 1));
        }
        i += 1;
    }
    proof {
        assert(seq_views(v@).subrange(0, n as int) =~= seq_views(v@));
    }
    out
}

/// The pieces of `s` split at the character `c`, after the partial piece
/// `cur`; a trailing separator yields a final empty piece.
pub open spec fn split_char_acc(s: Seq<char>, c: char, cur: Seq<char>) -> Seq<Seq<char>>
    decreases s.len(),
{
    if s.len() == 0 {
        seq![cur]
    } else if s[0] == c {
        seq![cur] + split_char_acc(s.drop_first(), c, Seq::empty())
    } else {
        split_char_acc(s.drop_first(), c, cur.push(s[0]))
    }
}

/// The pieces of `s` split at the character `c`, with the meaning of
/// `str::split`.
pub open spec fn split_char_spec(s: Seq<char>, c: char) -> Seq<Seq<char>> {
    split_char_acc(s, c, Seq::empty())
}

/// Split `s` at every occurrence of `c`.
pub fn split_on_char(s: &str, c: char) -> (r: Vec<String>)
    ensures
        seq_views(r@) == split_char_spec(s@, c),
{
    let sl = s.unicode_len();
    let mut out: Vec<String> = Vec::new();
    let mut start: usize = 0;
    let mut i: usize = 0;
    proof {
        assert(s@.subrange(0, sl as int) =~= s@);
        assert(s@.subrange(0, 0) =~= Seq::<char>::empty());
        assert(seq_views(out@) =~= Seq::<Seq<char>>::empty());
        assert(seq_views(out@) + split_char_acc(s@, c, Seq::empty()) =~= split_char_acc(
            s@,
            c,
            Seq::empty(),
        ));
    }
    while i < sl
        invariant
            sl == s@.len(),
            start <= i <= sl,
            forall|k: int| start <= k < i ==> s@[k] != c,
            split_char_spec(s@, c) == seq_views(out@) + split_char_acc(
                s@.subrange(i as int, sl as int),
                c,
                s@.subrange(start as int, i as int),
            ),
        decreases sl - i,
    {
        let ghost rest = s@.subrange(i as int, sl as int);
        let ghost cur = s@.subrange(start as int, i as int);
        proof {
            assert(rest[0] == s@[i as int]);
            assert(rest.drop_first() =~= s@.subrange(i + 1, sl as int));
        }
        if s.get_char(i) == c {
            let piece = s.substring_char(start, i);
            out.push(piece.to_owned());
            proof {
                assert(seq_views(out@) =~= seq_views(out@.drop_last()) + seq![cur]);
                assert(s@.subrange(i + 1, i + 1) =~= Seq::<char>::empty());
                assert(seq_views(out@.drop_last()) + (seq![cur] + split_char_acc(
                    rest.drop_first(),
                    c,
                    Seq::empty(),
                )) =~= seq_views(out@) + split_char_acc(rest.drop_first(), c, Seq::empty()));
            }
            start = i + 1;
        } else {
            proof {
                assert(cur.push(s@[i as int]) =~= s@.subrange(start as int, i + 1));
            }
        }
        i += 1;
    }
    let piece = s.substring_char(start, sl);
    out.push(piece.to_owned());
    proof {
        assert(seq_views(out@) =~= seq_views(out@.drop_last()) + seq![s@.subrange(
            start as int,
            sl as int,
        )]);
        assert(split_char_acc(
            s@.subrange(sl as int, sl as int),
            c,
            s@.subrange(start as int, sl as int),
        ) =~= seq![s@.subrange(start as int, sl as int)]);
        assert(seq_views(out@.drop_last()) + seq![s@.subrange(start as int, sl as int)]
            =~= seq_views(out@));
        assert(split_char_spec(s@, c) =~= seq_views(out@));
    }
    out
}

/// The ASCII lower-case mapping of one character.
pub open spec fn lower_char(c: char) -> char {
    if 'A' <= c && c <= 'Z' {
        (((c as u32) + 32) as u8) as char
    } else {
        c
    }
}

/// `s` mapped character-wise to ASCII lower case.
pub open spec fn lower_spec(s: Seq<char>) -> Seq<char> {
    s.map_values(|c: char| lower_char(c))
}

/// ASCII-lower-case a string.
pub fn to_ascii_lower(s: &str) -> (r: String)
    ensures
        r@ == lower_spec(s@),
{
    let sl = s.unicode_len();
    let mut out = String::new();
    let mut i: usize = 0;
    while i < sl
        invariant
            i <= sl,
            sl == s@.len(),
            out@.len() == i,
            forall|k: int| 0 <= k < i ==> out@[k] == lower_char(#[trigger] s@[k]),
        decreases sl - i,
    {
        let c = s.get_char(i);
        if 'A' <= c && c <= 'Z' {
            let lit = lower_letter_str(c);
            out.append(lit);
            proof {
                assert(lit@ =~= seq![lower_char(s@[i as int])]);
            }
        } else {
            let piece = s.substring_char(i, i + 1);
            out.append(piece);
            proof {
                assert(piece@ =~= seq![s@[i as int]]);
            }
        }
        i += 1;
    }
    proof {
        assert(out@ =~= lower_spec(s@));
    }
    out
}

fn lower_letter_str(c: char) -> (r: &'static str)
    requires
        'A' <= c && c <= 'Z',
    ensures
        r@ == seq![lower_char(c)],
{
    proof {
        reveal_strlit("a");
        reveal_strlit("b");
        reveal_strlit("c");
        reveal_strlit("d");
        reveal_strlit("e");
        reveal_strlit("f");
        reveal_strlit("g");
        reveal_strlit("h");
        reveal_strlit("i");
        reveal_strlit("j");
        reveal_strlit("k");
        reveal_strlit("l");
        reveal_strlit("m");
        reveal_strlit("n");
        reveal_strlit("o");
        reveal_strlit("p");
        reveal_strlit("q");
        reveal_strlit("r");
        reveal_strlit("s");
        reveal_strlit("t");
        reveal_strlit("u");
        reveal_strlit("v");
        reveal_strlit("w");
        reveal_strlit("x");
        reveal_strlit("y");
        reveal_strlit("z");
    }
    if c == 'A' {
        "a"
    } else if c == 'B' {
        "b"
    } else if c == 'C' {
        "c"
    } else if c == 'D' {
        "d"
    } else if c == 'E' {
        "e"
    } else if c == 'F' {
        "f"
    } else if c == 'G' {
        "g"
    } else if c == 'H' {
        "h"
    } else if c == 'I' {
        "i"
    } else if c == 'J' {
        "j"
    } else if c == 'K' {
        "k"
    } else if c == 'L' {
        "l"
    } else if c == 'M' {
        "m"
    } else if c == 'N' {
        "n"
    } else if c == 'O' {
        "o"
    } else if c == 'P' {
        "p"
    } else if c == 'Q' {
        "q"
    } else if c == 'R' {
        "r"
    } else if c == 'S' {
        "s"
    } else if c == 'T' {
        "t"
    } else if c == 'U' {
        "u"
    } else if c == 'V' {
        "v"
    } else if c == 'W' {
        "w"
    } else if c == 'X' {
        "x"
    } else if c == 'Y' {
        "y"
    } else {
        "z"
    }
}

/// A text clipped to `max` characters, a marker appended when it was cut.
pub open spec fn clip_text_spec(s: Seq<char>, max: nat) -> Seq<char> {
    if s.len() > max {
        s.subrange(0, max as int) + "\n\u{2026}(clipped)\u{2026}\n"@
    } else {
        s
    }
}

/// Clip a text read best-effort to `max_chars` characters, marking the cut.
pub fn clip_text(s: &str, max_chars: usize) -> (r: String)
    ensures
        r@ == clip_text_spec(s@, max_chars as nat),
{
    let sl = s.unicode_len();
    if sl > max_chars {
        let mut out = s.substring_char(0, max_chars).to_owned();
        out.append("\n\u{2026}(clipped)\u{2026}\n");
        out
    } else {
        s.to_owned()
    }
}

/// Whether one of the strings of `v` reads as `x`.
pub open spec fn contains_str(v: Seq<String>, x: Seq<char>) -> bool {
    exists|k: int| 0 <= k < v.len() && v[k]@ == x
}

/// Linear search for a string equal to `x`.
pub fn vec_contains_str(v: &Vec<String>, x: &str) -> (r: bool)
    ensures
        r == contains_str(v@, x@),
{
    let n = v.len();
    let mut k: usize = 0;
    while k < n
        invariant
            n == v@.len(),
            k <= n,
            forall|j: int| 0 <= j < k ==> v@[j]@ != x@,
        decreases n - k,
    {
        if str_eq(v[k].as_str(), x) {
            return true;
        }
        k += 1;
    }
    false
}

} // verus!
