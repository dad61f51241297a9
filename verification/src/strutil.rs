//! Character-sequence utilities shared by the preprocessors, the
//! front-matter parser and the JSON builder: conversions between `&str`
//! and `Vec<char>`, and searching, counting, splitting, joining and
//! trimming with full specifications.

use vstd::prelude::*;
use vstd::string::*;

verus! {

/// Collects the characters of a string slice into a vector.
pub fn chars_vec(s: &str) -> (v: Vec<char>)
    ensures
        v@ == s@,
{
    let n: usize = s.unicode_len();
    let mut v: Vec<char> = Vec::new();
    let mut i: usize = 0;
    while i < n
        invariant
            i <= n,
            n == s@.len(),
            v@ == s@.take(i as int),
        decreases n - i,
    {
        v.push(s.get_char(i));
        i = i + 1;
        proof {
            assert(v@ =~= s@.take(i as int));
        }
    }
    proof {
        assert(v@ =~= s@);
    }
    v
}

/// Relies on `String`'s `FromIterator<char>` impl: collecting chars
/// yields the string of exactly those characters in order.
#[verifier::external_body]
pub fn string_from_chars(v: &Vec<char>) -> (s: String)
    ensures
        s@ == v@,
{
    v.iter().collect()
}

/// Appends `v[from..to]` to `out`.
pub fn push_range(out: &mut Vec<char>, v: &Vec<char>, from: usize, to: usize)
    requires
        from <= to <= v@.len(),
    ensures
        final(out)@ == old(out)@ + v@.subrange(from as int, to as int),
{
    let mut k: usize = from;
    while k < to
        invariant
            from <= k <= to <= v@.len(),
            out@ == old(out)@ + v@.subrange(from as int, k as int),
        decreases to - k,
    {
        out.push(v[k]);
        proof {
            assert(out@ =~= old(out)@ + v@.subrange(from as int, k + 1));
        }
        k = k + 1;
    }
    proof {
        if from == to {
            assert(out@ =~= old(out)@ + v@.subrange(from as int, to as int));
        }
    }
}

/// Appends the characters of `s` to `out`.
pub fn push_str_chars(out: &mut Vec<char>, s: &str)
    ensures
        final(out)@ == old(out)@ + s@,
{
    let v = chars_vec(s);
    push_range(out, &v, 0, v.len());
    proof {
        assert(v@.subrange(0, v@.len() as int) =~= v@);
    }
}

/// Copies `v[from..to]` into a fresh vector.
pub fn sub_vec(v: &Vec<char>, from: usize, to: usize) -> (r: Vec<char>)
    requires
        from <= to <= v@.len(),
    ensures
        r@ == v@.subrange(from as int, to as int),
{
    let mut r: Vec<char> = Vec::new();
    push_range(&mut r, v, from, to);
    proof {
        assert(r@ =~= v@.subrange(from as int, to as int));
    }
    r
}

/// Index of the first occurrence of `c` in `s` at or after `from`;
/// `s.len()` if there is none.
pub open spec fn find_from(s: Seq<char>, c: char, from: int) -> int
    decreases s.len() - from when from <= s.len()
{
    if 0 <= from < s.len() {
        if s[from] == c {
            from
        } else {
            find_from(s, c, from + 1)
        }
    } else {
        s.len() as int
    }
}

pub proof fn lemma_find_from(s: Seq<char>, c: char, from: int)
    requires
        0 <= from <= s.len(),
    ensures
        from <= find_from(s, c, from) <= s.len(),
        find_from(s, c, from) < s.len() ==> s[find_from(s, c, from)] == c,
        forall|k: int| from <= k < find_from(s, c, from) ==> s[k] != c,
    decreases s.len() - from,
{
    if from < s.len() && s[from] != c {
        lemma_find_from(s, c, from + 1);
    }
}

/// `find_from` returns `j` exactly when `j` is the first position at or
/// after `from` that holds `c` (or the end, if none does).
pub proof fn lemma_find_from_is(s: Seq<char>, c: char, from: int, j: int)
    requires
        0 <= from <= j <= s.len(),
        forall|k: int| from <= k < j ==> s[k] != c,
        j < s.len() ==> s[j] == c,
    ensures
        find_from(s, c, from) == j,
    decreases s.len() - from,
{
    if from < s.len() && s[from] != c {
        lemma_find_from_is(s, c, from + 1, j);
    }
}

/// Exec counterpart of `find_from`.
pub fn find_char(v: &Vec<char>, c: char, from: usize) -> (i: usize)
    requires
        from <= v@.len(),
    ensures
        i == find_from(v@, c, from as int),
{
    let n: usize = v.len();
    let mut i: usize = from;
    while i < n
        invariant
            from <= i <= n,
            n == v@.len(),
            forall|k: int| from <= k < i ==> v@[k] != c,
        decreases n - i,
    {
        if v[i] == c {
            proof {
                lemma_find_from_is(v@, c, from as int, i as int);
            }
            return i;
        }
        i = i + 1;
    }
    proof {
        lemma_find_from_is(v@, c, from as int, n as int);
    }
    n
}

/// Compares a character vector with a string slice.
pub fn eq_str(v: &Vec<char>, s: &str) -> (r: bool)
    ensures
        r == (v@ == s@),
{
    let n: usize = s.unicode_len();
    if v.len() != n {
        proof {
            assert(v@ != s@);
        }
        return false;
    }
    let mut i: usize = 0;
    while i < n
        invariant
            i <= n,
            n == s@.len() == v@.len(),
            forall|k: int| 0 <= k < i ==> v@[k] == s@[k],
        decreases n - i,
    {
        if v[i] != s.get_char(i) {
            return false;
        }
        i = i + 1;
    }
    proof {
        assert(v@ =~= s@);
    }
    true
}

/// Number of occurrences of `c` in `s`.
pub open spec fn count_char(s: Seq<char>, c: char) -> nat
    decreases s.len(),
{
    if s.len() == 0 {
        0
    } else {
        count_char(s.drop_last(), c) + if s.last() == c {
            1nat
        } else {
            0nat
        }
    }
}

pub proof fn lemma_count_take_step(s: Seq<char>, c: char, i: int)
    requires
        0 <= i < s.len(),
    ensures
        count_char(s.take(i + 1), c) == count_char(s.take(i), c) + if s[i] == c {
            1nat
        } else {
            0nat
        },
{
    assert(s.take(i + 1).drop_last() =~= s.take(i));
    assert(s.take(i + 1).last() == s[i]);
}

pub proof fn lemma_count_whole(s: Seq<char>, c: char)
    ensures
        count_char(s.take(s.len() as int), c) == count_char(s, c),
{
    assert(s.take(s.len() as int) =~= s);
}

/// Counts how often `c` occurs in `v`.
pub fn count_occurrences(v: &Vec<char>, c: char) -> (n: usize)
    ensures
        n == count_char(v@, c),
{
    let len: usize = v.len();
    let mut n: usize = 0;
    let mut i: usize = 0;
    while i < len
        invariant
            i <= len,
            len == v@.len(),
            n == count_char(v@.take(i as int), c),
            n <= i,
        decreases len - i,
    {
        proof {
            lemma_count_take_step(v@, c, i as int);
        }
        if v[i] == c {
            n = n + 1;
        }
        i = i + 1;
    }
    proof {
        lemma_count_whole(v@, c);
    }
    n
}

pub proof fn lemma_count_concat(a: Seq<char>, b: Seq<char>, c: char)
    ensures
        count_char(a + b, c) == count_char(a, c) + count_char(b, c),
    decreases b.len(),
{
    if b.len() == 0 {
        assert(a + b =~= a);
    } else {
        lemma_count_concat(a, b.drop_last(), c);
        assert((a + b).drop_last() =~= a + b.drop_last());
        assert((a + b).last() == b.last());
    }
}

pub proof fn lemma_count_zero(s: Seq<char>, c: char)
    ensures
        (count_char(s, c) == 0) <==> (forall|k: int| 0 <= k < s.len() ==> s[k] != c),
    decreases s.len(),
{
    if s.len() > 0 {
        lemma_count_zero(s.drop_last(), c);
        assert(forall|k: int| 0 <= k < s.len() - 1 ==> s[k] == s.drop_last()[k]);
    }
}

pub proof fn lemma_count_split(s: Seq<char>, c: char, i: int)
    requires
        0 <= i <= s.len(),
    ensures
        count_char(s, c) == count_char(s.take(i), c) + count_char(s.skip(i), c),
{
    assert(s.take(i) + s.skip(i) =~= s);
    lemma_count_concat(s.take(i), s.skip(i), c);
}

/// `s` with every leading space removed.
pub open spec fn trim_left(s: Seq<char>) -> Seq<char>
    decreases s.len(),
{
    if s.len() > 0 && s[0] == ' ' {
        trim_left(s.skip(1))
    } else {
        s
    }
}

/// `s` with every trailing space removed.
pub open spec fn trim_right(s: Seq<char>) -> Seq<char>
    decreases s.len(),
{
    if s.len() > 0 && s.last() == ' ' {
        trim_right(s.drop_last())
    } else {
        s
    }
}

/// `s` with leading and trailing spaces removed.
pub open spec fn trim_spaces(s: Seq<char>) -> Seq<char> {
    trim_right(trim_left(s))
}

pub proof fn lemma_trim_left_is(s: Seq<char>, a: int)
    requires
        0 <= a <= s.len(),
        forall|k: int| 0 <= k < a ==> s[k] == ' ',
        a < s.len() ==> s[a] != ' ',
    ensures
        trim_left(s) == s.skip(a),
    decreases a,
{
    if a == 0 {
        assert(s.skip(0) =~= s);
    } else {
        assert(s[0] == ' ');
        lemma_trim_left_is(s.skip(1), a - 1);
        assert(s.skip(1).skip(a - 1) =~= s.skip(a));
    }
}

pub proof fn lemma_trim_right_is(s: Seq<char>, b: int)
    requires
        0 <= b <= s.len(),
        forall|k: int| b <= k < s.len() ==> s[k] == ' ',
        b > 0 ==> s[b - 1] != ' ',
    ensures
        trim_right(s) == s.take(b),
    decreases s.len() - b,
{
    if b == s.len() {
        assert(s.take(b) =~= s);
    } else {
        assert(s.last() == ' ');
        lemma_trim_right_is(s.drop_last(), b);
        assert(s.drop_last().take(b) =~= s.take(b));
    }
}

/// Exec counterpart of `trim_spaces`.
pub fn trim(v: &Vec<char>) -> (r: Vec<char>)
    ensures
        r@ == trim_spaces(v@),
{
    let n: usize = v.len();
    let mut a: usize = 0;
    while a < n && v[a] == ' '
        invariant
            a <= n,
            n == v@.len(),
            forall|k: int| 0 <= k < a ==> v@[k] == ' ',
        decreases n - a,
    {
        a = a + 1;
    }
    proof {
        lemma_trim_left_is(v@, a as int);
    }
    let mut b: usize = n;
    while b > a && v[b - 1] == ' '
        invariant
            a <= b <= n,
            n == v@.len(),
            forall|k: int| b <= k < n ==> v@[k] == ' ',
        decreases b,
    {
        b = b - 1;
    }
    let ghost tl: Seq<char> = v@.skip(a as int);
    proof {
        if b == a {
            assert(forall|k: int| 0 <= k < tl.len() ==> tl[k] == ' ');
            lemma_trim_right_is(tl, 0);
        } else {
            assert(tl[b - a - 1] == v@[b - 1]);
            assert(forall|k: int| b - a <= k < tl.len() ==> tl[k] == ' ');
            lemma_trim_right_is(tl, b - a);
        }
    }
    let mut r: Vec<char> = Vec::new();
    let mut i: usize = a;
    while i < b
        invariant
            a <= i <= b <= n,
            n == v@.len(),
            r@ == v@.subrange(a as int, i as int),
        decreases b - i,
    {
        r.push(v[i]);
        proof {
            assert(r@ =~= v@.subrange(a as int, i + 1));
        }
        i = i + 1;
    }
    proof {
        if b == a {
            assert(r@ =~= trim_spaces(v@));
        } else {
            assert(v@.skip(a as int).take(b - a) =~= v@.subrange(a as int, b as int));
            assert(r@ =~= trim_spaces(v@));
        }
    }
    r
}

/// The pieces of `s` between occurrences of `c`, scanning from `from`.
pub open spec fn split_from(s: Seq<char>, c: char, from: int) -> Seq<Seq<char>>
    decreases s.len() - from when 0 <= from <= s.len() via split_from_decreases
{
    if 0 <= from <= s.len() {
        let i = find_from(s, c, from);
        if i == s.len() {
            seq![s.subrange(from, s.len() as int)]
        } else {
            seq![s.subrange(from, i)] + split_from(s, c, i + 1)
        }
    } else {
        Seq::empty()
    }
}

#[via_fn]
proof fn split_from_decreases(s: Seq<char>, c: char, from: int) {
    if 0 <= from <= s.len() {
        lemma_find_from(s, c, from);
    }
}

/// Splitting on `c`: the maximal `c`-free pieces of `s`, in order.
pub open spec fn split_char(s: Seq<char>, c: char) -> Seq<Seq<char>> {
    split_from(s, c, 0)
}

/// The parts joined with `c` between neighbours.
pub open spec fn join_char(parts: Seq<Seq<char>>, c: char) -> Seq<char>
    decreases parts.len(),
{
    if parts.len() == 0 {
        Seq::empty()
    } else if parts.len() == 1 {
        parts[0]
    } else {
        parts[0] + seq![c] + join_char(parts.drop_first(), c)
    }
}

/// Splitting is lossless: joining the pieces with the separator restores `s`.
pub proof fn lemma_join_split(s: Seq<char>, c: char, from: int)
    requires
        0 <= from <= s.len(),
    ensures
        join_char(split_from(s, c, from), c) == s.subrange(from, s.len() as int),
    decreases s.len() - from,
{
    lemma_find_from(s, c, from);
    let i = find_from(s, c, from);
    if i == s.len() {
    } else {
        lemma_join_split(s, c, i + 1);
        let rest = split_from(s, c, i + 1);
        assert(split_from(s, c, from) == seq![s.subrange(from, i)] + rest);
        if rest.len() == 0 {
        } else {
            let whole = seq![s.subrange(from, i)] + rest;
            assert(whole.len() >= 2);
            assert(whole[0] == s.subrange(from, i));
            assert(whole.drop_first() =~= rest);
            assert(join_char(whole, c) == s.subrange(from, i) + seq![c] + join_char(rest, c));
            assert(s.subrange(from, i) + seq![c] + s.subrange(i + 1, s.len() as int) =~= s.subrange(
                from,
                s.len() as int,
            ));
        }
    }
}

/// Splitting a sequence that begins with a `c`-free piece, the separator,
/// and a remainder yields that piece followed by the split of the remainder.
pub proof fn lemma_split_prepend(a: Seq<char>, rest: Seq<char>, c: char)
    requires
        forall|k: int| 0 <= k < a.len() ==> a[k] != c,
    ensures
        split_char(a + seq![c] + rest, c) == seq![a] + split_char(rest, c),
    decreases rest.len(),
{
    let s = a + seq![c] + rest;
    assert(s.len() == a.len() + 1 + rest.len());
    assert(s[a.len() as int] == c);
    assert(forall|k: int| 0 <= k < a.len() ==> s[k] == a[k]);
    lemma_find_from_is(s, c, 0, a.len() as int);
    assert(find_from(s, c, 0) == a.len());
    assert(s.subrange(0, a.len() as int) =~= a);
    assert(s.subrange(a.len() as int + 1, s.len() as int) =~= rest);
    lemma_split_suffix(s, c, a.len() as int + 1, rest);
}

/// Splitting from position `from` only looks at the suffix there.
pub proof fn lemma_split_suffix(s: Seq<char>, c: char, from: int, suf: Seq<char>)
    requires
        0 <= from <= s.len(),
        suf == s.subrange(from, s.len() as int),
    ensures
        split_from(s, c, from) == split_char(suf, c),
    decreases s.len() - from,
{
    lemma_find_from(s, c, from);
    lemma_find_from(suf, c, 0);
    let i = find_from(s, c, from);
    assert(forall|k: int| 0 <= k < suf.len() ==> suf[k] == s[from + k]);
    if i == s.len() {
        lemma_find_from_is(suf, c, 0, suf.len() as int);
        assert(suf.subrange(0, suf.len() as int) =~= suf);
        assert(s.subrange(from, s.len() as int) == suf);
    } else {
        lemma_find_from_is(suf, c, 0, i - from);
        assert(find_from(suf, c, 0) == i - from);
        lemma_split_suffix(s, c, i + 1, s.subrange(i + 1, s.len() as int));
        assert(suf.subrange(i + 1 - from, suf.len() as int) =~= s.subrange(i + 1, s.len() as int));
        lemma_split_suffix(suf, c, i + 1 - from, s.subrange(i + 1, s.len() as int));
        assert(suf.subrange(0, i - from) =~= s.subrange(from, i));
    }
}

/// Exec counterpart of `split_char`.
pub fn split(v: &Vec<char>, c: char) -> (parts: Vec<Vec<char>>)
    ensures
        parts.deep_view() == split_char(v@, c),
{
    let n: usize = v.len();
    let mut parts: Vec<Vec<char>> = Vec::new();
    let mut pos: usize = 0;
    loop
        invariant
            pos <= n,
            n == v@.len(),
            split_char(v@, c) == parts.deep_view() + split_from(v@, c, pos as int),
        decreases n - pos,
    {
        proof {
            lemma_find_from(v@, c, pos as int);
        }
        let i = find_char(v, c, pos);
        let mut piece: Vec<char> = Vec::new();
        let mut j: usize = pos;
        while j < i
            invariant
                pos <= j <= i <= n,
                n == v@.len(),
                piece@ == v@.subrange(pos as int, j as int),
            decreases i - j,
        {
            piece.push(v[j]);
            proof {
                assert(piece@ =~= v@.subrange(pos as int, j + 1));
            }
            j = j + 1;
        }
        let ghost prev = parts@;
        let ghost old_parts = parts.deep_view();
        parts.push(piece);
        proof {
            assert(piece.deep_view() =~= piece@);
            assert forall|k: int| 0 <= k < parts@.len() implies #[trigger] parts.deep_view()[k]
                == (old_parts + seq![piece@])[k] by {
                if k < prev.len() {
                    assert(parts@[k] == prev[k]);
                    assert(old_parts[k] == prev[k].deep_view());
                } else {
                    assert(parts@[k] == piece);
                }
            }
            assert(parts.deep_view() =~= old_parts + seq![piece@]);
        }
        if i == n {
            proof {
                assert(split_from(v@, c, pos as int) == seq![v@.subrange(pos as int, n as int)]);
                assert(parts.deep_view() =~= split_char(v@, c));
            }
            return parts;
        }
        proof {
            assert(split_from(v@, c, pos as int) == seq![v@.subrange(pos as int, i as int)]
                + split_from(v@, c, i + 1));
            assert(old_parts + split_from(v@, c, pos as int) =~= parts.deep_view() + split_from(
                v@,
                c,
                i + 1,
            ));
        }
        pos = i + 1;
    }
}

} // verus!
