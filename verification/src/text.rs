//! Character-sequence groundwork: line splitting, whitespace trimming,
//! substring search and prefix tests, with the lemmas the scanner, the
//! aside splitter and the stream decoder build on.

use vstd::prelude::*;

verus! {

/// The view of a sequence of character vectors.
pub open spec fn views_of(v: Seq<Vec<char>>) -> Seq<Seq<char>> {
    v.map_values(|x: Vec<char>| x@)
}

/// Collects the characters of a string slice into a vector, so the
/// verified scanners can index text freely.
pub fn chars_of(s: &str) -> (r: Vec<char>)
    ensures
        r@ == s@,
{
    let n = s.unicode_len();
    let mut r: Vec<char> = Vec::new();
    let mut i: usize = 0;
    while i < n
        invariant
            n == s@.len(),
            i <= n,
            r@ == s@.subrange(0, i as int),
        decreases n - i,
    {
        let c = s.get_char(i);
        r.push(c);
        proof {
            assert(r@ =~= s@.subrange(0, i + 1));
        }
        i = i + 1;
    }
    proof {
        assert(r@ =~= s@);
    }
    r
}

/// Copies the characters of `v` between `a` (inclusive) and `b`
/// (exclusive) into a fresh vector.
pub fn sub_vec(v: &Vec<char>, a: usize, b: usize) -> (r: Vec<char>)
    requires
        a <= b <= v.len(),
    ensures
        r@ == v@.subrange(a as int, b as int),
{
    let mut r: Vec<char> = Vec::new();
    let mut i: usize = a;
    while i < b
        invariant
            a <= i <= b <= v.len(),
            r@ == v@.subrange(a as int, i as int),
        decreases b - i,
    {
        r.push(v[i]);
        proof {
            assert(r@ =~= v@.subrange(a as int, i + 1));
        }
        i = i + 1;
    }
    r
}

/// The position of the first newline at or after `pos`, or the length of
/// `s` when no newline follows.
pub open spec fn first_nl_from(s: Seq<char>, pos: int) -> int
    decreases s.len() - pos,
    when 0 <= pos <= s.len()
{
    if pos >= s.len() {
        s.len() as int
    } else if s[pos] == '\n' {
        pos
    } else {
        first_nl_from(s, pos + 1)
    }
}

pub proof fn lemma_first_nl_from(s: Seq<char>, pos: int)
    requires
        0 <= pos <= s.len(),
    ensures
        pos <= first_nl_from(s, pos) <= s.len(),
        first_nl_from(s, pos) < s.len() ==> s[first_nl_from(s, pos)] == '\n',
        forall|k: int| pos <= k < first_nl_from(s, pos) ==> s[k] != '\n',
    decreases s.len() - pos,
{
    if pos < s.len() && s[pos] != '\n' {
        lemma_first_nl_from(s, pos + 1);
    }
}

pub proof fn lemma_first_nl_from_is(s: Seq<char>, pos: int, j: int)
    requires
        0 <= pos <= j <= s.len(),
        forall|k: int| pos <= k < j ==> s[k] != '\n',
        j < s.len() ==> s[j] == '\n',
    ensures
        first_nl_from(s, pos) == j,
    decreases j - pos,
{
    if pos < j {
        lemma_first_nl_from_is(s, pos + 1, j);
    }
}

/// Finds the first newline in `v` at or after `from`, returning `v.len()`
/// when there is none.
pub fn find_nl(v: &Vec<char>, from: usize) -> (j: usize)
    requires
        from <= v.len(),
    ensures
        j as int == first_nl_from(v@, from as int),
        from <= j <= v.len(),
        j < v.len() ==> v@[j as int] == '\n',
{
    let mut j: usize = from;
    while j < v.len() && v[j] != '\n'
        invariant
            from <= j <= v.len(),
            forall|k: int| from <= k < j ==> v@[k] != '\n',
        decreases v.len() - j,
    {
        j = j + 1;
    }
    proof {
        lemma_first_nl_from_is(v@, from as int, j as int);
    }
    j
}

/// The input split into lines, from `pos` on. Every line but possibly the
/// last keeps its terminating newline, so the lines concatenate back to
/// the input exactly.
pub open spec fn split_lines_from(s: Seq<char>, pos: int) -> Seq<Seq<char>>
    decreases s.len() - pos,
    when 0 <= pos <= s.len()
    via split_lines_from_dec
{
    if pos >= s.len() {
        Seq::empty()
    } else {
        let j = first_nl_from(s, pos);
        if j < s.len() {
            seq![s.subrange(pos, j + 1)] + split_lines_from(s, j + 1)
        } else {
            seq![s.subrange(pos, s.len() as int)]
        }
    }
}

#[via_fn]
proof fn split_lines_from_dec(s: Seq<char>, pos: int) {
    if 0 <= pos < s.len() {
        lemma_first_nl_from(s, pos);
    }
}

pub open spec fn split_lines(s: Seq<char>) -> Seq<Seq<char>> {
    split_lines_from(s, 0)
}

/// Concatenation of a sequence of character sequences.
pub open spec fn concat_all(ss: Seq<Seq<char>>) -> Seq<char>
    decreases ss.len(),
{
    if ss.len() == 0 {
        Seq::empty()
    } else {
        ss[0] + concat_all(ss.drop_first())
    }
}

/// The lines of a text concatenate back to the text itself: line
/// splitting loses nothing.
pub proof fn lemma_split_lines_concat(s: Seq<char>, pos: int)
    requires
        0 <= pos <= s.len(),
    ensures
        concat_all(split_lines_from(s, pos)) == s.subrange(pos, s.len() as int),
    decreases s.len() - pos,
{
    if pos >= s.len() {
        assert(concat_all(split_lines_from(s, pos)) =~= s.subrange(pos, s.len() as int));
    } else {
        lemma_first_nl_from(s, pos);
        let j = first_nl_from(s, pos);
        if j < s.len() {
            lemma_split_lines_concat(s, j + 1);
            let head = s.subrange(pos, j + 1);
            let rest = split_lines_from(s, j + 1);
            assert((seq![head] + rest).drop_first() =~= rest);
            assert((seq![head] + rest)[0] == head);
            assert(head + s.subrange(j + 1, s.len() as int) =~= s.subrange(pos, s.len() as int));
        } else {
            let whole = s.subrange(pos, s.len() as int);
            assert(concat_all(seq![whole]) == whole + concat_all(seq![whole].drop_first()));
            assert(seq![whole].drop_first() =~= Seq::<Seq<char>>::empty());
            assert(whole + Seq::<char>::empty() =~= whole);
        }
    }
}

/// Splits the whole text into its lines, terminators kept.
pub fn lines_of(v: &Vec<char>) -> (r: Vec<Vec<char>>)
    ensures
        views_of(r@) == split_lines(v@),
{
    let mut r: Vec<Vec<char>> = Vec::new();
    let mut start: usize = 0;
    while start < v.len()
        invariant
            start <= v.len(),
            split_lines(v@) == views_of(r@) + split_lines_from(v@, start as int),
        decreases v.len() - start,
    {
        let j = find_nl(v, start);
        let end = if j < v.len() {
            j + 1
        } else {
            j
        };
        let line = sub_vec(v, start, end);
        r.push(line);
        proof {
            assert(views_of(r@) =~= views_of(r@.drop_last()) + seq![line@]);
            assert(split_lines_from(v@, start as int) =~= seq![line@] + split_lines_from(
                v@,
                end as int,
            ));
            assert(views_of(r@.drop_last()) + seq![line@] + split_lines_from(v@, end as int)
                =~= views_of(r@.drop_last()) + (seq![line@] + split_lines_from(v@, end as int)));
        }
        start = end;
    }
    proof {
        assert(split_lines_from(v@, start as int) =~= Seq::<Seq<char>>::empty());
        assert(views_of(r@) + Seq::<Seq<char>>::empty() =~= views_of(r@));
    }
    r
}

/// Whitespace, as the scanner understands it: the characters of the
/// Unicode white-space property, as `str::trim` skips them.
pub open spec fn is_blank(c: char) -> bool {
    c == '\t' || c == '\n' || c == '\u{000B}' || c == '\u{000C}' || c == '\r' || c == ' ' || c
        == '\u{0085}' || c == '\u{00A0}' || c == '\u{1680}' || c == '\u{2000}' || c == '\u{2001}'
        || c == '\u{2002}' || c == '\u{2003}' || c == '\u{2004}' || c == '\u{2005}' || c
        == '\u{2006}' || c == '\u{2007}' || c == '\u{2008}' || c == '\u{2009}' || c == '\u{200A}'
        || c == '\u{2028}' || c == '\u{2029}' || c == '\u{202F}' || c == '\u{205F}' || c
        == '\u{3000}'
}

/// `c` is whitespace to the scanner.
pub fn blank_char(c: char) -> (r: bool)
    ensures
        r == is_blank(c),
{
    c == '\t' || c == '\n' || c == '\u{000B}' || c == '\u{000C}' || c == '\r' || c == ' ' || c
        == '\u{0085}' || c == '\u{00A0}' || c == '\u{1680}' || c == '\u{2000}' || c == '\u{2001}'
        || c == '\u{2002}' || c == '\u{2003}' || c == '\u{2004}' || c == '\u{2005}' || c
        == '\u{2006}' || c == '\u{2007}' || c == '\u{2008}' || c == '\u{2009}' || c == '\u{200A}'
        || c == '\u{2028}' || c == '\u{2029}' || c == '\u{202F}' || c == '\u{205F}' || c
        == '\u{3000}'
}

pub open spec fn trim_start_spec(s: Seq<char>) -> Seq<char>
    decreases s.len(),
{
    if s.len() > 0 && is_blank(s[0]) {
        trim_start_spec(s.drop_first())
    } else {
        s
    }
}

pub open spec fn trim_end_spec(s: Seq<char>) -> Seq<char>
    decreases s.len(),
{
    if s.len() > 0 && is_blank(s[s.len() - 1]) {
        trim_end_spec(s.take(s.len() - 1))
    } else {
        s
    }
}

/// Both ends trimmed of whitespace.
pub open spec fn trim_spec(s: Seq<char>) -> Seq<char> {
    trim_end_spec(trim_start_spec(s))
}

pub proof fn lemma_trim_start_at(s: Seq<char>, k: int)
    requires
        0 <= k <= s.len(),
        forall|j: int| 0 <= j < k ==> is_blank(s[j]),
        k < s.len() ==> !is_blank(s[k]),
    ensures
        trim_start_spec(s) == s.subrange(k, s.len() as int),
    decreases k,
{
    if k == 0 {
        if s.len() == 0 || !is_blank(s[0]) {
            assert(trim_start_spec(s) == s);
            assert(s =~= s.subrange(0, s.len() as int));
        } else {
            assert(false);
        }
    } else {
        assert(is_blank(s[0]));
        let t = s.drop_first();
        assert(forall|j: int| 0 <= j < k - 1 ==> is_blank(t[j]));
        lemma_trim_start_at(t, k - 1);
        assert(t.subrange(k - 1, t.len() as int) =~= s.subrange(k, s.len() as int));
    }
}

pub proof fn lemma_trim_end_at(s: Seq<char>, e: int)
    requires
        0 <= e <= s.len(),
        forall|j: int| e <= j < s.len() ==> is_blank(s[j]),
        e > 0 ==> !is_blank(s[e - 1]),
    ensures
        trim_end_spec(s) == s.subrange(0, e),
    decreases s.len() - e,
{
    if e == s.len() {
        if s.len() == 0 || !is_blank(s[s.len() - 1]) {
            assert(trim_end_spec(s) == s);
            assert(s =~= s.subrange(0, e));
        } else {
            assert(false);
        }
    } else {
        assert(is_blank(s[s.len() - 1]));
        let t = s.take(s.len() - 1);
        assert(forall|j: int| e <= j < t.len() ==> is_blank(t[j]));
        lemma_trim_end_at(t, e);
        assert(t.subrange(0, e) =~= s.subrange(0, e));
    }
}

/// The bounds of the whitespace-trimmed middle of `v` between `a` and
/// `b`: trimming `v[a..b]` yields exactly `v[r.0..r.1]`.
pub fn trim_bounds(v: &Vec<char>, a: usize, b: usize) -> (r: (usize, usize))
    requires
        a <= b <= v.len(),
    ensures
        a <= r.0 <= r.1 <= b,
        trim_spec(v@.subrange(a as int, b as int)) == v@.subrange(r.0 as int, r.1 as int),
{
    let mut lo: usize = a;
    while lo < b && blank_char(v[lo])
        invariant
            a <= lo <= b <= v.len(),
            forall|j: int| a <= j < lo ==> is_blank(v@[j]),
        decreases b - lo,
    {
        lo = lo + 1;
    }
    let mut hi: usize = b;
    while hi > lo && blank_char(v[hi - 1])
        invariant
            lo <= hi <= b <= v.len(),
            forall|j: int| hi <= j < b ==> is_blank(v@[j]),
        decreases hi,
    {
        hi = hi - 1;
    }
    proof {
        let s = v@.subrange(a as int, b as int);
        lemma_trim_start_at(s, lo - a);
        let t = s.subrange(lo - a, s.len() as int);
        assert(t =~= v@.subrange(lo as int, b as int));
        lemma_trim_end_at(t, hi - lo);
        assert(t.subrange(0, hi - lo) =~= v@.subrange(lo as int, hi as int));
    }
    (lo, hi)
}

/// `p` occurs in `s` starting at position `i`.
pub open spec fn matches_at(s: Seq<char>, p: Seq<char>, i: int) -> bool {
    0 <= i && i + p.len() <= s.len() && s.subrange(i, i + p.len() as int) == p
}

/// The first occurrence of `p` in `s` at or after `pos`, if any.
pub open spec fn find_from(s: Seq<char>, p: Seq<char>, pos: int) -> Option<int>
    decreases s.len() - pos,
    when 0 <= pos <= s.len()
    via find_from_dec
{
    if pos + p.len() > s.len() {
        None
    } else if matches_at(s, p, pos) {
        Some(pos)
    } else {
        find_from(s, p, pos + 1)
    }
}

#[via_fn]
proof fn find_from_dec(s: Seq<char>, p: Seq<char>, pos: int) {
    if 0 <= pos <= s.len() && pos + p.len() <= s.len() && !matches_at(s, p, pos) && p.len() == 0 {
        assert(s.subrange(pos, pos) =~= p);
    }
}

pub proof fn lemma_find_from(s: Seq<char>, p: Seq<char>, pos: int)
    requires
        0 <= pos <= s.len(),
    ensures
        match find_from(s, p, pos) {
            Some(j) => pos <= j && matches_at(s, p, j) && forall|k: int|
                pos <= k < j ==> !matches_at(s, p, k),
            None => forall|k: int| pos <= k ==> !matches_at(s, p, k),
        },
    decreases s.len() - pos,
{
    if pos + p.len() > s.len() {
    } else if matches_at(s, p, pos) {
    } else {
        if p.len() == 0 {
            assert(s.subrange(pos, pos) =~= p);
        }
        lemma_find_from(s, p, pos + 1);
    }
}

/// Finds the first occurrence of `pat` in `v` at or after `from`.
pub fn find_pat(v: &Vec<char>, pat: &Vec<char>, from: usize) -> (r: Option<usize>)
    requires
        from <= v.len(),
    ensures
        match r {
            Some(j) => find_from(v@, pat@, from as int) == Some(j as int) && from <= j && j
                + pat.len() <= v.len(),
            None => find_from(v@, pat@, from as int) is None,
        },
{
    let mut i: usize = from;
    loop
        invariant
            from <= i <= v.len(),
            find_from(v@, pat@, from as int) == find_from(v@, pat@, i as int),
        ensures
            match find_from(v@, pat@, from as int) {
                Some(j) => i == j && i + pat.len() <= v.len(),
                None => i + pat.len() > v.len(),
            },
        decreases v.len() - i,
    {
        if pat.len() > v.len() - i {
            proof {
                assert(find_from(v@, pat@, i as int) is None);
            }
            break ;
        }
        let mut k: usize = 0;
        let mut hit: bool = true;
        while k < pat.len()
            invariant
                0 <= k <= pat.len(),
                i + pat.len() <= v.len(),
                hit ==> forall|q: int| 0 <= q < k ==> v@[i + q] == pat@[q],
                !hit ==> !matches_at(v@, pat@, i as int),
            decreases pat.len() - k,
        {
            if v[i + k] != pat[k] {
                proof {
                    if matches_at(v@, pat@, i as int) {
                        let kk = k as int;
                        assert(v@.subrange(i as int, i + pat@.len() as int)[kk] == pat@[kk]);
                    }
                }
                hit = false;
                k = pat.len();
            } else {
                k = k + 1;
            }
        }
        if hit {
            proof {
                assert(v@.subrange(i as int, i + pat@.len() as int) =~= pat@);
                assert(matches_at(v@, pat@, i as int));
            }
            break ;
        }
        proof {
            if pat@.len() == 0 {
                assert(v@.subrange(i as int, i as int) =~= pat@);
            }
            assert(find_from(v@, pat@, i as int) == find_from(v@, pat@, i + 1));
        }
        i = i + 1;
    }
    if pat.len() <= v.len() - i {
        Some(i)
    } else {
        None
    }
}

/// The input split at newlines, from `pos` on: the pieces between the
/// separators, the separators themselves dropped, the trailing piece
/// kept even when empty.
pub open spec fn split_sep_from(s: Seq<char>, pos: int) -> Seq<Seq<char>>
    decreases s.len() - pos,
    when 0 <= pos <= s.len()
    via split_sep_from_dec
{
    let j = first_nl_from(s, pos);
    if j < s.len() {
        seq![s.subrange(pos, j)] + split_sep_from(s, j + 1)
    } else {
        seq![s.subrange(pos, s.len() as int)]
    }
}

#[via_fn]
proof fn split_sep_from_dec(s: Seq<char>, pos: int) {
    if 0 <= pos <= s.len() {
        lemma_first_nl_from(s, pos);
    }
}

/// Every character of `s` is whitespace.
pub open spec fn all_blank(s: Seq<char>) -> bool {
    forall|i: int| 0 <= i < s.len() ==> is_blank(s[i])
}

/// Whether the whole of `v` is whitespace.
pub fn all_blank_chars(v: &Vec<char>) -> (r: bool)
    ensures
        r == all_blank(v@),
{
    let mut i: usize = 0;
    while i < v.len()
        invariant
            i <= v.len(),
            forall|j: int| 0 <= j < i ==> is_blank(v@[j]),
        decreases v.len() - i,
    {
        if !blank_char(v[i]) {
            return false;
        }
        i = i + 1;
    }
    true
}

/// The views of a sequence of strings.
pub open spec fn msgs_view(v: Seq<String>) -> Seq<Seq<char>> {
    v.map_values(|m: String| m@)
}

/// Relies on `String::push`: appends exactly the one character.
#[verifier::external_body]
pub fn push_char(s: &mut String, c: char)
    ensures
        final(s)@ == old(s)@.push(c),
{
    s.push(c);
}

/// Relies on `String::pop`: removes and returns the last character, or
/// leaves an empty string alone.
#[verifier::external_body]
pub fn pop_char(s: &mut String) -> (r: Option<char>)
    ensures
        old(s)@.len() == 0 ==> final(s)@ == old(s)@ && r is None,
        old(s)@.len() > 0 ==> final(s)@ == old(s)@.take(old(s)@.len() - 1) && r == Some(
            old(s)@.last(),
        ),
{
    s.pop()
}

/// Relies on `Iterator::collect` for `String`: the collected string
/// holds exactly the characters of `v`, in order.
#[verifier::external_body]
pub fn string_from_chars(v: &Vec<char>) -> (s: String)
    ensures
        s@ == v@,
{
    v.iter().collect()
}

/// `p` is a prefix of `s`.
pub open spec fn is_prefix(p: Seq<char>, s: Seq<char>) -> bool {
    p.len() <= s.len() && s.subrange(0, p.len() as int) == p
}

/// Whether the characters of `s` start with the characters of `p`.
pub fn starts_with_chars(s: &Vec<char>, p: &Vec<char>) -> (r: bool)
    ensures
        r == is_prefix(p@, s@),
{
    if p.len() > s.len() {
        proof {
            assert(!is_prefix(p@, s@));
        }
        return false;
    }
    let mut k: usize = 0;
    while k < p.len()
        invariant
            0 <= k <= p.len() <= s.len(),
            forall|q: int| 0 <= q < k ==> s@[q] == p@[q],
        decreases p.len() - k,
    {
        if s[k] != p[k] {
            proof {
                if is_prefix(p@, s@) {
                    assert(s@.subrange(0, p@.len() as int)[k as int] == p@[k as int]);
                }
            }
            return false;
        }
        k = k + 1;
    }
    proof {
        assert(s@.subrange(0, p@.len() as int) =~= p@);
    }
    true
}

} // verus!
