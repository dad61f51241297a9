//! The two text preprocessors that run over a document body before
//! Markdown rendering: straight-quote curling and emoji-shortcode
//! substitution. Both are pure transforms specified character by
//! character.

use vstd::prelude::*;

use crate::strutil::{
    chars_vec, count_char, count_occurrences, find_char, find_from, lemma_count_concat,
    lemma_count_split, lemma_count_take_step, lemma_count_whole, lemma_count_zero,
    lemma_find_from, push_range, string_from_chars, sub_vec,
};

verus! {

/// What the character at position `i` becomes under quote curling: the
/// quotes of `s` are paired first-with-next; an opening quote becomes
/// U+201C, a closing one U+201D, and a final unpaired quote stays
/// straight. Other characters are untouched.
pub open spec fn curled_at(s: Seq<char>, i: int) -> char {
    if s[i] != '"' {
        s[i]
    } else if count_char(s.take(i), '"') % 2 == 1 {
        '\u{201D}'
    } else if count_char(s, '"') > count_char(s.take(i), '"') + 1 {
        '\u{201C}'
    } else {
        '"'
    }
}

/// The whole curled text; curling never changes the length.
pub open spec fn curl_spec(s: Seq<char>) -> Seq<char> {
    Seq::new(s.len(), |i: int| curled_at(s, i))
}

/// Replaces every straight-double-quoted span with a curly-quote pair
/// wrapping the same inner text, pairing each quote with the nearest
/// following one.
pub fn curly_quotes(content: &str) -> (r: String)
    ensures
        r@ == curl_spec(content@),
        r@.len() == content@.len(),
{
    let v = chars_vec(content);
    let total = count_occurrences(&v, '"');
    let n: usize = v.len();
    let mut out: Vec<char> = Vec::new();
    let mut seen: usize = 0;
    let mut i: usize = 0;
    while i < n
        invariant
            i <= n,
            n == v@.len(),
            v@ == content@,
            seen == count_char(v@.take(i as int), '"'),
            seen <= i,
            total == count_char(v@, '"'),
            out@.len() == i,
            forall|j: int| 0 <= j < i ==> out@[j] == curled_at(v@, j),
        decreases n - i,
    {
        proof {
            lemma_count_take_step(v@, '"', i as int);
        }
        let ch = v[i];
        if ch == '"' {
            if seen % 2 == 1 {
                out.push('\u{201D}');
            } else if seen + 1 < total {
                out.push('\u{201C}');
            } else {
                out.push('"');
            }
            seen = seen + 1;
        } else {
            out.push(ch);
        }
        i = i + 1;
    }
    proof {
        assert(out@ =~= curl_spec(content@));
    }
    string_from_chars(&out)
}

/// Curling is the identity on text with at most one straight quote.
proof fn lemma_curl_few(s: Seq<char>)
    requires
        count_char(s, '"') <= 1,
    ensures
        curl_spec(s) == s,
{
    assert forall|i: int| 0 <= i < s.len() implies curl_spec(s)[i] == s[i] by {
        if s[i] == '"' {
            lemma_count_split(s, '"', i + 1);
            lemma_count_take_step(s, '"', i);
        }
    }
    assert(curl_spec(s) =~= s);
}

/// With at least two straight quotes, curling handles the first pair and
/// then the remainder independently.
proof fn lemma_curl_decompose(s: Seq<char>)
    requires
        count_char(s, '"') >= 2,
    ensures
        ({
            let i = find_from(s, '"', 0);
            let j = find_from(s, '"', i + 1);
            &&& 0 <= i < j < s.len()
            &&& curl_spec(s) == s.take(i) + seq!['\u{201C}'] + s.subrange(i + 1, j) + seq![
                '\u{201D}',
            ] + curl_spec(s.skip(j + 1))
            &&& count_char(s, '"') == 2 + count_char(s.skip(j + 1), '"')
        }),
{
    lemma_find_from(s, '"', 0);
    let i = find_from(s, '"', 0);
    if i == s.len() {
        lemma_count_zero(s, '"');
        assert(false);
    }
    lemma_find_from(s, '"', i + 1);
    let j = find_from(s, '"', i + 1);
    assert(forall|k: int| 0 <= k < i ==> s[k] != '"');
    lemma_count_zero(s.take(i), '"');
    assert(forall|k: int| 0 <= k < s.take(i).len() ==> s.take(i)[k] != '"');
    assert(count_char(s.take(i), '"') == 0);
    lemma_count_take_step(s, '"', i);
    assert(count_char(s.take(i + 1), '"') == 1);
    if j == s.len() {
        lemma_count_split(s, '"', i + 1);
        lemma_count_zero(s.skip(i + 1), '"');
        let u = s.skip(i + 1);
        assert forall|k: int| 0 <= k < u.len() implies u[k] != '"' by {
            assert(u[k] == s[i + 1 + k]);
        }
        assert(false);
    }
    let mid = s.subrange(i + 1, j);
    assert(forall|k: int| 0 <= k < mid.len() ==> mid[k] != '"');
    lemma_count_zero(mid, '"');
    assert(s.take(j) =~= s.take(i + 1) + mid);
    lemma_count_concat(s.take(i + 1), mid, '"');
    assert(count_char(s.take(j), '"') == 1);
    lemma_count_take_step(s, '"', j);
    assert(count_char(s.take(j + 1), '"') == 2);
    lemma_count_split(s, '"', j + 1);
    let t = s.skip(j + 1);
    assert(count_char(s, '"') == 2 + count_char(t, '"'));
    let rhs = s.take(i) + seq!['\u{201C}'] + mid + seq!['\u{201D}'] + curl_spec(t);
    assert(rhs.len() == s.len());
    assert forall|k: int| 0 <= k < s.len() implies curl_spec(s)[k] == rhs[k] by {
        if k < i {
            assert(rhs[k] == s[k]);
            assert(s[k] != '"');
        } else if k == i {
            assert(rhs[k] == '\u{201C}');
            assert(count_char(s.take(i), '"') == 0);
        } else if k < j {
            assert(rhs[k] == mid[k - i - 1]);
            assert(mid[k - i - 1] == s[k]);
            assert(s[k] != '"');
        } else if k == j {
            assert(rhs[k] == '\u{201D}');
            assert(count_char(s.take(j), '"') == 1);
        } else {
            let m = k - j - 1;
            assert(rhs[k] == curl_spec(t)[m]);
            assert(t[m] == s[k]);
            if s[k] == '"' {
                assert(s.take(k) =~= s.take(j + 1) + t.take(m));
                lemma_count_concat(s.take(j + 1), t.take(m), '"');
                assert(count_char(s.take(k), '"') == 2 + count_char(t.take(m), '"'));
            }
        }
    }
    assert(curl_spec(s) =~= rhs);
}

/// How curling changes the three quote counts: every pairable straight
/// quote becomes a curly one, so `q % 2` straight quotes remain and
/// `q / 2` pairs of curly quotes are added.
pub proof fn lemma_curl_counts(s: Seq<char>)
    ensures
        count_char(curl_spec(s), '"') == count_char(s, '"') % 2,
        count_char(curl_spec(s), '\u{201C}') == count_char(s, '\u{201C}') + count_char(s, '"') / 2,
        count_char(curl_spec(s), '\u{201D}') == count_char(s, '\u{201D}') + count_char(s, '"') / 2,
    decreases s.len(),
{
    let q = count_char(s, '"');
    if q <= 1 {
        lemma_curl_few(s);
    } else {
        lemma_curl_decompose(s);
        let i = find_from(s, '"', 0);
        lemma_find_from(s, '"', 0);
        let j = find_from(s, '"', i + 1);
        lemma_find_from(s, '"', i + 1);
        assert(s[i] == '"');
        assert(s[j] == '"');
        let t = s.skip(j + 1);
        lemma_curl_counts(t);
        let a = s.take(i);
        let mid = s.subrange(i + 1, j);
        assert(s =~= a + seq!['"'] + mid + seq!['"'] + t);
        let lhs = a + seq!['\u{201C}'] + mid + seq!['\u{201D}'] + curl_spec(t);
        lemma_count_pieces(a, '\u{201C}', mid, '\u{201D}', curl_spec(t), '"');
        lemma_count_pieces(a, '"', mid, '"', t, '"');
        lemma_count_pieces(a, '\u{201C}', mid, '\u{201D}', curl_spec(t), '\u{201C}');
        lemma_count_pieces(a, '"', mid, '"', t, '\u{201C}');
        lemma_count_pieces(a, '\u{201C}', mid, '\u{201D}', curl_spec(t), '\u{201D}');
        lemma_count_pieces(a, '"', mid, '"', t, '\u{201D}');
    }
}

/// Counts a character across a five-piece concatenation.
proof fn lemma_count_pieces(a: Seq<char>, x: char, mid: Seq<char>, y: char, t: Seq<char>, c: char)
    ensures
        count_char(a + seq![x] + mid + seq![y] + t, c) == count_char(a, c) + (if x == c {
            1nat
        } else {
            0nat
        }) + count_char(mid, c) + (if y == c {
            1nat
        } else {
            0nat
        }) + count_char(t, c),
{
    lemma_count_concat(a + seq![x] + mid + seq![y], t, c);
    lemma_count_concat(a + seq![x] + mid, seq![y], c);
    lemma_count_concat(a + seq![x], mid, c);
    lemma_count_concat(a, seq![x], c);
    assert(count_char(Seq::<char>::empty(), c) == 0);
    assert(count_char(seq![x], c) == if x == c {
        1nat
    } else {
        0nat
    }) by {
        assert(count_char(Seq::<char>::empty(), c) == 0);
        assert(seq![x].drop_last() =~= Seq::<char>::empty());
        assert(seq![x].last() == x);
    }
    assert(count_char(seq![y], c) == if y == c {
        1nat
    } else {
        0nat
    }) by {
        assert(count_char(Seq::<char>::empty(), c) == 0);
        assert(seq![y].drop_last() =~= Seq::<char>::empty());
        assert(seq![y].last() == y);
    }
}

/// Law: on text whose straight double quotes are balanced, curling
/// leaves no straight double quote, and adds exactly one left and one
/// right curly quote per quoted span of the input.
pub proof fn lemma_curly_quotes_balanced(s: Seq<char>)
    requires
        count_char(s, '"') % 2 == 0,
    ensures
        count_char(curl_spec(s), '"') == 0,
        count_char(curl_spec(s), '\u{201C}') == count_char(s, '\u{201C}') + count_char(s, '"') / 2,
        count_char(curl_spec(s), '\u{201D}') == count_char(s, '\u{201D}') + count_char(s, '"') / 2,
{
    lemma_curl_counts(s);
}

/// The emoji glyph (as a character sequence) that the fixed shortcode
/// table assigns to `name`, if any.
pub uninterp spec fn emoji_of(name: Seq<char>) -> Option<Seq<char>>;

/// Relies on `emojis::get_by_shortcode` and `emojis::Emoji::as_str`:
/// the shortcode table is fixed at compile time, so the result is a
/// function of the name alone.
#[verifier::external_body]
fn emoji_lookup(name: &str) -> (r: Option<String>)
    ensures
        r is Some <==> emoji_of(name@) is Some,
        r matches Some(g) ==> emoji_of(name@) == Some(g@),
{
    emojis::get_by_shortcode(name).map(|e| String::from(e.as_str()))
}

/// Emoji substitution on the suffix of `s` that starts at `pos`: each
/// `:name:` span whose name the table resolves becomes its glyph; spans
/// with unknown names, and text outside spans, stay verbatim.
pub open spec fn emoji_pass(s: Seq<char>, pos: int) -> Seq<char>
    decreases s.len() - pos when 0 <= pos <= s.len() via emoji_pass_decreases
{
    if 0 <= pos <= s.len() {
        let i = find_from(s, ':', pos);
        if i == s.len() {
            s.subrange(pos, s.len() as int)
        } else {
            let j = find_from(s, ':', i + 1);
            if j == s.len() {
                s.subrange(pos, s.len() as int)
            } else {
                match emoji_of(s.subrange(i + 1, j)) {
                    Some(g) => s.subrange(pos, i) + g + emoji_pass(s, j + 1),
                    None => s.subrange(pos, j + 1) + emoji_pass(s, j + 1),
                }
            }
        }
    } else {
        Seq::empty()
    }
}

#[via_fn]
proof fn emoji_pass_decreases(s: Seq<char>, pos: int) {
    if 0 <= pos <= s.len() {
        lemma_find_from(s, ':', pos);
        let i = find_from(s, ':', pos);
        if i < s.len() {
            lemma_find_from(s, ':', i + 1);
        }
    }
}

/// The whole substituted text.
pub open spec fn emoji_subst(s: Seq<char>) -> Seq<char> {
    emoji_pass(s, 0)
}

/// Replaces every `:name:` span whose name the fixed emoji table
/// resolves with the corresponding glyph; unresolvable spans are left
/// verbatim, colons included.
pub fn emojis(content: &str) -> (r: String)
    ensures
        r@ == emoji_subst(content@),
{
    let v = chars_vec(content);
    let n: usize = v.len();
    let mut out: Vec<char> = Vec::new();
    let mut pos: usize = 0;
    loop
        invariant_except_break
            pos <= n,
            n == v@.len(),
            v@ == content@,
            emoji_subst(v@) == out@ + emoji_pass(v@, pos as int),
        ensures
            out@ == emoji_subst(content@),
        decreases n - pos,
    {
        proof {
            lemma_find_from(v@, ':', pos as int);
        }
        let i = find_char(&v, ':', pos);
        if i == n {
            push_range(&mut out, &v, pos, n);
            proof {
                assert(out@ =~= emoji_subst(v@));
            }
            break ;
        }
        proof {
            lemma_find_from(v@, ':', i as int + 1);
        }
        let j = find_char(&v, ':', i + 1);
        if j == n {
            push_range(&mut out, &v, pos, n);
            proof {
                assert(out@ =~= emoji_subst(v@));
            }
            break ;
        }
        let ghost before = out@;
        let namev = sub_vec(&v, i + 1, j);
        let names = string_from_chars(&namev);
        match emoji_lookup(names.as_str()) {
            Some(g) => {
                push_range(&mut out, &v, pos, i);
                let gv = chars_vec(g.as_str());
                push_range(&mut out, &gv, 0, gv.len());
                proof {
                    assert(gv@.subrange(0, gv@.len() as int) =~= gv@);
                    assert(out@ =~= before + (v@.subrange(pos as int, i as int) + gv@));
                    assert(emoji_pass(v@, pos as int) == v@.subrange(pos as int, i as int) + gv@
                        + emoji_pass(v@, j + 1));
                    assert(before + (v@.subrange(pos as int, i as int) + gv@ + emoji_pass(
                        v@,
                        j + 1,
                    )) =~= out@ + emoji_pass(v@, j + 1));
                }
            },
            None => {
                push_range(&mut out, &v, pos, j + 1);
                proof {
                    assert(emoji_pass(v@, pos as int) == v@.subrange(pos as int, j + 1)
                        + emoji_pass(v@, j + 1));
                    assert(before + (v@.subrange(pos as int, j + 1) + emoji_pass(v@, j + 1))
                        =~= out@ + emoji_pass(v@, j + 1));
                }
            },
        }
        pos = j + 1;
    }
    string_from_chars(&out)
}

} // verus!
