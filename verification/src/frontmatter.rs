//! Front-matter extraction: a source document begins with a fenced
//! metadata block (`---` lines around `key: value` pairs) followed by the
//! Markdown body. Extraction splits the document into a typed
//! `PageFrontMatter` and the untouched body; serialization writes the
//! canonical form of such a block back out.

use vstd::prelude::*;
use vstd::string::*;

use crate::strutil::{
    chars_vec, count_char, count_occurrences, eq_str, find_char, find_from, join_char,
    lemma_find_from, lemma_find_from_is, push_range, split, split_char, string_from_chars, sub_vec,
    trim, trim_spaces,
};

verus! {

/// Per-document metadata from the front-matter block. `title` and `date`
/// are required (and `title` non-empty); the rest are optional.
#[derive(Debug, Clone, PartialEq, Eq)]
pub struct PageFrontMatter {
    pub title: String,
    pub subtitle: Option<String>,
    pub tags: Option<Vec<String>>,
    pub date: String,
    pub additional_css: Option<Vec<String>>,
}

/// Ghost image of `PageFrontMatter`.
pub struct FrontMatterView {
    pub title: Seq<char>,
    pub subtitle: Option<Seq<char>>,
    pub tags: Option<Seq<Seq<char>>>,
    pub date: Seq<char>,
    pub additional_css: Option<Seq<Seq<char>>>,
}

impl View for PageFrontMatter {
    type V = FrontMatterView;

    open spec fn view(&self) -> FrontMatterView {
        FrontMatterView {
            title: self.title@,
            subtitle: match self.subtitle {
                Some(s) => Some(s@),
                None => None,
            },
            tags: match self.tags {
                Some(v) => Some(v.deep_view()),
                None => None,
            },
            date: self.date@,
            additional_css: match self.additional_css {
                Some(v) => Some(v.deep_view()),
                None => None,
            },
        }
    }
}

/// A parsed field value: a single scalar or a list of scalars.
pub enum ValueView {
    Scalar(Seq<char>),
    List(Seq<Seq<char>>),
}

/// What one block line contributes.
pub enum LineView {
    Blank,
    Bad,
    Pair(Seq<char>, ValueView),
}

/// A line of nothing but spaces.
pub open spec fn is_blank(l: Seq<char>) -> bool {
    forall|k: int| 0 <= k < l.len() ==> l[k] == ' '
}

/// A trimmed element of a list value: quoted (content between the
/// quotes) or bare (taken as is); embedded stray quotes are rejected.
pub open spec fn parse_elem(e0: Seq<char>) -> Option<Seq<char>> {
    let e = trim_spaces(e0);
    if e.len() >= 1 && e[0] == '"' {
        if e.len() >= 2 && e.last() == '"' && count_char(e.subrange(1, e.len() - 1), '"') == 0 {
            Some(e.subrange(1, e.len() - 1))
        } else {
            None
        }
    } else if count_char(e, '"') == 0 {
        Some(e)
    } else {
        None
    }
}

/// All elements of a comma-split list body, each parsed by `parse_elem`.
pub open spec fn parse_elems(es: Seq<Seq<char>>) -> Option<Seq<Seq<char>>>
    decreases es.len(),
{
    if es.len() == 0 {
        Some(Seq::empty())
    } else {
        match (parse_elem(es[0]), parse_elems(es.drop_first())) {
            (Some(x), Some(rest)) => Some(seq![x] + rest),
            _ => None,
        }
    }
}

/// A field value after the colon, already trimmed: empty, quoted scalar,
/// bracketed list, or bare scalar.
pub open spec fn parse_value(v: Seq<char>) -> Option<ValueView> {
    if v.len() == 0 {
        Some(ValueView::Scalar(Seq::empty()))
    } else if v[0] == '"' {
        if v.len() >= 2 && v.last() == '"' && count_char(v.subrange(1, v.len() - 1), '"') == 0 {
            Some(ValueView::Scalar(v.subrange(1, v.len() - 1)))
        } else {
            None
        }
    } else if v[0] == '[' {
        if v.last() == ']' {
            let inner = v.subrange(1, v.len() - 1);
            if is_blank(inner) {
                Some(ValueView::List(Seq::empty()))
            } else {
                match parse_elems(split_char(inner, ',')) {
                    Some(xs) => Some(ValueView::List(xs)),
                    None => None,
                }
            }
        } else {
            None
        }
    } else {
        if count_char(v, '"') == 0 {
            Some(ValueView::Scalar(v))
        } else {
            None
        }
    }
}

/// One block line: blank, `key: value`, or malformed.
pub open spec fn parse_line(l: Seq<char>) -> LineView {
    if is_blank(l) {
        LineView::Blank
    } else {
        let i = find_from(l, ':', 0);
        if i == l.len() {
            LineView::Bad
        } else {
            match parse_value(trim_spaces(l.skip(i + 1))) {
                Some(v) => LineView::Pair(l.take(i), v),
                None => LineView::Bad,
            }
        }
    }
}

/// Fields gathered while walking the block, each still optional.
pub struct AccView {
    pub title: Option<Seq<char>>,
    pub subtitle: Option<Seq<char>>,
    pub tags: Option<Seq<Seq<char>>>,
    pub date: Option<Seq<char>>,
    pub additional_css: Option<Seq<Seq<char>>>,
}

pub open spec fn acc_init() -> AccView {
    AccView { title: None, subtitle: None, tags: None, date: None, additional_css: None }
}

/// Folds one line into the gathered fields. A recognised key wants the
/// matching value shape; unknown keys are ignored; malformed lines fail.
pub open spec fn acc_step(l: Seq<char>, acc: AccView) -> Option<AccView> {
    match parse_line(l) {
        LineView::Blank => Some(acc),
        LineView::Bad => None,
        LineView::Pair(key, v) => if key == "title"@ {
            match v {
                ValueView::Scalar(s) => Some(AccView { title: Some(s), ..acc }),
                _ => None,
            }
        } else if key == "subtitle"@ {
            match v {
                ValueView::Scalar(s) => Some(AccView { subtitle: Some(s), ..acc }),
                _ => None,
            }
        } else if key == "date"@ {
            match v {
                ValueView::Scalar(s) => Some(AccView { date: Some(s), ..acc }),
                _ => None,
            }
        } else if key == "tags"@ {
            match v {
                ValueView::List(xs) => Some(AccView { tags: Some(xs), ..acc }),
                _ => None,
            }
        } else if key == "additional_css"@ {
            match v {
                ValueView::List(xs) => Some(AccView { additional_css: Some(xs), ..acc }),
                _ => None,
            }
        } else {
            Some(acc)
        },
    }
}

/// Folds the block lines `from .. to`.
pub open spec fn parse_block(lines: Seq<Seq<char>>, from: int, to: int, acc: AccView) -> Option<
    AccView,
>
    decreases to - from,
{
    if from >= to {
        Some(acc)
    } else {
        match acc_step(lines[from], acc) {
            Some(a2) => parse_block(lines, from + 1, to, a2),
            None => None,
        }
    }
}

/// Index of the first fence line (`---`) at or after `from`.
pub open spec fn find_fence(lines: Seq<Seq<char>>, from: int) -> int
    decreases lines.len() - from when from <= lines.len()
{
    if 0 <= from < lines.len() {
        if lines[from] == "---"@ {
            from
        } else {
            find_fence(lines, from + 1)
        }
    } else {
        lines.len() as int
    }
}

pub proof fn lemma_find_fence_is(lines: Seq<Seq<char>>, from: int, j: int)
    requires
        0 <= from <= j <= lines.len(),
        forall|k: int| from <= k < j ==> lines[k] != "---"@,
        j < lines.len() ==> lines[j] == "---"@,
    ensures
        find_fence(lines, from) == j,
    decreases lines.len() - from,
{
    if from < lines.len() && lines[from] != "---"@ {
        lemma_find_fence_is(lines, from + 1, j);
    }
}

/// Required fields must be present, and the title non-empty.
pub open spec fn finish(acc: AccView) -> Option<FrontMatterView> {
    match (acc.title, acc.date) {
        (Some(t), Some(d)) => if t.len() > 0 {
            Some(
                FrontMatterView {
                    title: t,
                    subtitle: acc.subtitle,
                    tags: acc.tags,
                    date: d,
                    additional_css: acc.additional_css,
                },
            )
        } else {
            None
        },
        _ => None,
    }
}

/// The whole extraction: the document's lines must open with a fence,
/// hold a parsable block up to the next fence with `title` (non-empty)
/// and `date` present, and everything after that fence line is the body.
pub open spec fn parse_doc(s: Seq<char>) -> Option<(FrontMatterView, Seq<char>)> {
    let lines = split_char(s, '\n');
    if lines.len() == 0 || lines[0] != "---"@ {
        None
    } else {
        let k = find_fence(lines, 1);
        if k == lines.len() {
            None
        } else {
            match parse_block(lines, 1, k, acc_init()) {
                Some(acc) => match finish(acc) {
                    Some(fm) => Some(
                        (fm, join_char(lines.subrange(k + 1, lines.len() as int), '\n')),
                    ),
                    None => None,
                },
                None => None,
            }
        }
    }
}

/// Exec twin of `ValueView`.
enum ValueExec {
    Scalar(Vec<char>),
    List(Vec<Vec<char>>),
}

impl View for ValueExec {
    type V = ValueView;

    closed spec fn view(&self) -> ValueView {
        match self {
            ValueExec::Scalar(v) => ValueView::Scalar(v@),
            ValueExec::List(vs) => ValueView::List(vs.deep_view()),
        }
    }
}

fn is_blank_exec(l: &Vec<char>) -> (r: bool)
    ensures
        r == is_blank(l@),
{
    let n: usize = l.len();
    let mut i: usize = 0;
    while i < n
        invariant
            i <= n,
            n == l@.len(),
            forall|k: int| 0 <= k < i ==> l@[k] == ' ',
        decreases n - i,
    {
        if l[i] != ' ' {
            return false;
        }
        i = i + 1;
    }
    true
}

fn parse_elem_exec(e0: &Vec<char>) -> (r: Option<Vec<char>>)
    ensures
        r is Some <==> parse_elem(e0@) is Some,
        r matches Some(x) ==> parse_elem(e0@) == Some(x@),
{
    let e = trim(e0);
    let n: usize = e.len();
    if n >= 1 && e[0] == '"' {
        if n >= 2 && e[n - 1] == '"' {
            proof {
                assert(e@.last() == e@[n - 1]);
            }
            let inner = sub_vec(&e, 1, n - 1);
            if count_occurrences(&inner, '"') == 0 {
                Some(inner)
            } else {
                None
            }
        } else {
            None
        }
    } else {
        if count_occurrences(&e, '"') == 0 {
            Some(e)
        } else {
            None
        }
    }
}

fn parse_elems_exec(parts: &Vec<Vec<char>>) -> (r: Option<Vec<Vec<char>>>)
    ensures
        r is Some <==> parse_elems(parts.deep_view()) is Some,
        r matches Some(xs) ==> parse_elems(parts.deep_view()) == Some(xs.deep_view()),
{
    let ghost pd = parts.deep_view();
    let n: usize = parts.len();
    proof {
        assert(pd.len() == n);
    }
    let mut rs: Vec<Vec<char>> = Vec::new();
    let mut i: usize = 0;
    proof {
        assert(pd.subrange(0, n as int) =~= pd);
        assert(rs.deep_view() =~= Seq::<Seq<char>>::empty());
        match parse_elems(pd) {
            Some(rest) => {
                assert(rs.deep_view() + rest =~= rest);
            },
            None => {},
        }
    }
    while i < n
        invariant
            i <= n,
            n == parts@.len(),
            pd == parts.deep_view(),
            pd.len() == n,
            forall|j: int| 0 <= j < n ==> pd[j] == #[trigger] parts@[j]@,
            (parse_elems(pd) is Some <==> parse_elems(pd.subrange(i as int, n as int)) is Some),
            forall|rest: Seq<Seq<char>>|
                parse_elems(pd.subrange(i as int, n as int)) == Some(rest) ==> parse_elems(pd)
                    == Some(rs.deep_view() + rest),
        decreases n - i,
    {
        let ghost suf = pd.subrange(i as int, n as int);
        proof {
            assert(suf.len() > 0);
            assert(suf[0] == pd[i as int]);
            assert(suf.drop_first() =~= pd.subrange(i + 1, n as int));
        }
        match parse_elem_exec(&parts[i]) {
            Some(x) => {
                let ghost old_rs = rs.deep_view();
                let ghost prev = rs@;
                rs.push(x);
                proof {
                    assert forall|k: int| 0 <= k < rs@.len() implies #[trigger] rs.deep_view()[k]
                        == (old_rs + seq![x@])[k] by {
                        if k < prev.len() {
                            assert(rs@[k] == prev[k]);
                            assert(old_rs[k] == prev[k].deep_view());
                        } else {
                            assert(rs@[k] == x);
                        }
                    }
                    assert(rs.deep_view() =~= old_rs + seq![x@]);
                    assert forall|rest: Seq<Seq<char>>|
                        parse_elems(pd.subrange(i + 1, n as int)) == Some(rest) implies parse_elems(
                        pd,
                    ) == Some(rs.deep_view() + rest) by {
                        assert(parse_elems(suf) == Some(seq![x@] + rest));
                        assert(old_rs + (seq![x@] + rest) =~= rs.deep_view() + rest);
                    }
                }
            },
            None => {
                proof {
                    assert(parse_elems(suf) is None);
                }
                return None;
            },
        }
        i = i + 1;
    }
    proof {
        assert(pd.subrange(n as int, n as int) =~= Seq::<Seq<char>>::empty());
        assert(parse_elems(pd.subrange(n as int, n as int)) == Some(Seq::<Seq<char>>::empty()));
        assert(rs.deep_view() + Seq::<Seq<char>>::empty() =~= rs.deep_view());
    }
    Some(rs)
}

fn parse_value_exec(v: &Vec<char>) -> (r: Option<ValueExec>)
    ensures
        r is Some <==> parse_value(v@) is Some,
        r matches Some(x) ==> parse_value(v@) == Some(x@),
{
    let n: usize = v.len();
    if n == 0 {
        let empty: Vec<char> = Vec::new();
        proof {
            assert(empty@ =~= Seq::<char>::empty());
        }
        Some(ValueExec::Scalar(empty))
    } else if v[0] == '"' {
        proof {
            assert(v@.last() == v@[n - 1]);
        }
        if n >= 2 && v[n - 1] == '"' {
            let inner = sub_vec(v, 1, n - 1);
            if count_occurrences(&inner, '"') == 0 {
                Some(ValueExec::Scalar(inner))
            } else {
                None
            }
        } else {
            None
        }
    } else if v[0] == '[' {
        proof {
            assert(v@.last() == v@[n - 1]);
        }
        if v[n - 1] == ']' {
            let inner = sub_vec(v, 1, n - 1);
            if is_blank_exec(&inner) {
                let empty: Vec<Vec<char>> = Vec::new();
                proof {
                    assert(empty.deep_view() =~= Seq::<Seq<char>>::empty());
                }
                Some(ValueExec::List(empty))
            } else {
                let parts = split(&inner, ',');
                match parse_elems_exec(&parts) {
                    Some(xs) => Some(ValueExec::List(xs)),
                    None => None,
                }
            }
        } else {
            None
        }
    } else {
        if count_occurrences(v, '"') == 0 {
            let copy = sub_vec(v, 0, n);
            proof {
                assert(copy@ =~= v@);
            }
            Some(ValueExec::Scalar(copy))
        } else {
            None
        }
    }
}

/// Exec accumulator.
struct Acc {
    title: Option<Vec<char>>,
    subtitle: Option<Vec<char>>,
    tags: Option<Vec<Vec<char>>>,
    date: Option<Vec<char>>,
    additional_css: Option<Vec<Vec<char>>>,
}

impl View for Acc {
    type V = AccView;

    closed spec fn view(&self) -> AccView {
        AccView {
            title: match self.title {
                Some(t) => Some(t@),
                None => None,
            },
            subtitle: match self.subtitle {
                Some(t) => Some(t@),
                None => None,
            },
            tags: match self.tags {
                Some(t) => Some(t.deep_view()),
                None => None,
            },
            date: match self.date {
                Some(t) => Some(t@),
                None => None,
            },
            additional_css: match self.additional_css {
                Some(t) => Some(t.deep_view()),
                None => None,
            },
        }
    }
}

fn apply_line(l: &Vec<char>, acc: &mut Acc) -> (ok: bool)
    ensures
        ok <==> acc_step(l@, old(acc)@) is Some,
        ok ==> acc_step(l@, old(acc)@) == Some(final(acc)@),
{
    if is_blank_exec(l) {
        return true;
    }
    let i = find_char(l, ':', 0);
    proof {
        lemma_find_from(l@, ':', 0);
    }
    if i == l.len() {
        return false;
    }
    let tail = sub_vec(l, i + 1, l.len());
    proof {
        assert(tail@ =~= l@.skip(i + 1));
    }
    let vpart = trim(&tail);
    let parsed = parse_value_exec(&vpart);
    match parsed {
        None => false,
        Some(val) => {
            let key = sub_vec(l, 0, i);
            proof {
                assert(key@ =~= l@.take(i as int));
            }
            if eq_str(&key, "title") {
                match val {
                    ValueExec::Scalar(s) => {
                        acc.title = Some(s);
                        true
                    },
                    _ => false,
                }
            } else if eq_str(&key, "subtitle") {
                match val {
                    ValueExec::Scalar(s) => {
                        acc.subtitle = Some(s);
                        true
                    },
                    _ => false,
                }
            } else if eq_str(&key, "date") {
                match val {
                    ValueExec::Scalar(s) => {
                        acc.date = Some(s);
                        true
                    },
                    _ => false,
                }
            } else if eq_str(&key, "tags") {
                match val {
                    ValueExec::List(xs) => {
                        acc.tags = Some(xs);
                        true
                    },
                    _ => false,
                }
            } else if eq_str(&key, "additional_css") {
                match val {
                    ValueExec::List(xs) => {
                        acc.additional_css = Some(xs);
                        true
                    },
                    _ => false,
                }
            } else {
                true
            }
        },
    }
}

fn strings_of(vs: Vec<Vec<char>>) -> (r: Vec<String>)
    ensures
        r.deep_view() == vs.deep_view(),
{
    let n: usize = vs.len();
    let mut r: Vec<String> = Vec::new();
    let mut i: usize = 0;
    while i < n
        invariant
            i <= n,
            n == vs@.len(),
            r@.len() == i,
            forall|k: int| 0 <= k < i ==> #[trigger] r@[k]@ == vs@[k]@,
        decreases n - i,
    {
        r.push(string_from_chars(&vs[i]));
        i = i + 1;
    }
    proof {
        assert forall|k: int| 0 <= k < n implies #[trigger] r.deep_view()[k] == vs.deep_view()[k] by {
            assert(r@[k]@ == vs@[k]@);
        }
        assert(r.deep_view() =~= vs.deep_view());
    }
    r
}

/// Splits a document into its front-matter and body, when the leading
/// block is present, parsable and complete; `None` reports a malformed
/// front-matter.
pub fn parse_front_matter(content: &str) -> (r: Option<(PageFrontMatter, String)>)
    ensures
        r is Some <==> parse_doc(content@) is Some,
        r matches Some(p) ==> parse_doc(content@) == Some((p.0@, p.1@)),
{
    let v = chars_vec(content);
    let lines = split(&v, '\n');
    let ghost ld = lines.deep_view();
    let n: usize = lines.len();
    proof {
        assert(ld.len() == n);
        assert(forall|j: int| 0 <= j < n ==> ld[j] == #[trigger] lines@[j]@);
    }
    if n == 0 {
        return None;
    }
    if !eq_str(&lines[0], "---") {
        proof {
            assert(ld[0] != "---"@);
        }
        return None;
    }
    proof {
        assert(ld[0] == "---"@);
    }
    let mut k: usize = 1;
    loop
        invariant_except_break
            1 <= k <= n,
            n == lines@.len(),
            ld == lines.deep_view(),
            forall|t: int| 1 <= t < k ==> ld[t] != "---"@,
        ensures
            1 <= k <= n,
            find_fence(ld, 1) == k,
            k < n ==> ld[k as int] == "---"@,
        decreases n - k,
    {
        if k == n {
            proof {
                lemma_find_fence_is(ld, 1, k as int);
            }
            break ;
        }
        let hit = eq_str(&lines[k], "---");
        proof {
            assert(ld[k as int] == lines@[k as int]@);
        }
        if hit {
            proof {
                lemma_find_fence_is(ld, 1, k as int);
            }
            break ;
        }
        k = k + 1;
    }
    if k == n {
        return None;
    }
    let mut acc = Acc { title: None, subtitle: None, tags: None, date: None, additional_css: None };
    let mut i: usize = 1;
    #[verifier::loop_isolation(false)]
    while i < k
        invariant
            1 <= i <= k < n,
            n == lines@.len(),
            ld == lines.deep_view(),
            parse_block(ld, 1, k as int, acc_init()) == parse_block(ld, i as int, k as int, acc@),
        decreases k - i,
    {
        let ghost pre = acc@;
        let ok = apply_line(&lines[i], &mut acc);
        proof {
            assert(ld[i as int] == lines@[i as int]@);
        }
        if !ok {
            proof {
                assert(acc_step(ld[i as int], pre) is None);
                assert(parse_block(ld, i as int, k as int, pre) is None);
            }
            return None;
        }
        i = i + 1;
    }
    proof {
        assert(parse_block(ld, 1, k as int, acc_init()) == Some(acc@));
    }
    let title_v = match acc.title {
        Some(t) => t,
        None => {
            return None;
        },
    };
    if title_v.len() == 0 {
        return None;
    }
    let date_v = match acc.date {
        Some(d) => d,
        None => {
            return None;
        },
    };
    let mut body: Vec<char> = Vec::new();
    let mut j: usize = k + 1;
    proof {
        assert(Seq::<char>::empty() + join_char(ld.subrange(j as int, n as int), '\n')
            =~= join_char(ld.subrange(j as int, n as int), '\n'));
    }
    while j < n
        invariant
            k < n,
            k + 1 <= j <= n,
            n == lines@.len(),
            ld == lines.deep_view(),
            join_char(ld.subrange(k + 1, n as int), '\n') == body@ + join_char(
                ld.subrange(j as int, n as int),
                '\n',
            ),
        decreases n - j,
    {
        let ghost pre = body@;
        push_range(&mut body, &lines[j], 0, lines[j].len());
        proof {
            assert(lines@[j as int]@.subrange(0, lines@[j as int]@.len() as int) =~= ld[j as int]);
        }
        if j + 1 < n {
            body.push('\n');
        }
        proof {
            let suf = ld.subrange(j as int, n as int);
            assert(suf.len() == n - j >= 1);
            assert(suf[0] == ld[j as int]);
            assert(suf.drop_first() =~= ld.subrange(j + 1, n as int));
            if j + 1 < n {
                assert(join_char(suf, '\n') == ld[j as int] + seq!['\n'] + join_char(
                    ld.subrange(j + 1, n as int),
                    '\n',
                ));
                assert(body@ =~= pre + ld[j as int] + seq!['\n']);
                assert(pre + (ld[j as int] + seq!['\n'] + join_char(ld.subrange(j + 1, n as int), '\n'))
                    =~= body@ + join_char(ld.subrange(j + 1, n as int), '\n'));
            } else {
                assert(join_char(suf, '\n') == ld[j as int]);
                assert(body@ =~= pre + ld[j as int]);
                assert(ld.subrange(j + 1, n as int).len() == 0);
                assert(join_char(ld.subrange(j + 1, n as int), '\n') == Seq::<char>::empty());
                assert(pre + ld[j as int] =~= body@ + Seq::<char>::empty());
            }
        }
        j = j + 1;
    }
    proof {
        assert(ld.subrange(j as int, n as int) =~= Seq::<Seq<char>>::empty());
        assert(join_char(ld.subrange(j as int, n as int), '\n') == Seq::<char>::empty());
        assert(body@ + Seq::<char>::empty() =~= body@);
    }
    let fm = PageFrontMatter {
        title: string_from_chars(&title_v),
        subtitle: match acc.subtitle {
            Some(s) => Some(string_from_chars(&s)),
            None => None,
        },
        tags: match acc.tags {
            Some(xs) => Some(strings_of(xs)),
            None => None,
        },
        date: string_from_chars(&date_v),
        additional_css: match acc.additional_css {
            Some(xs) => Some(strings_of(xs)),
            None => None,
        },
    };
    Some((fm, string_from_chars(&body)))
}


/// `s` wrapped in straight double quotes.
pub open spec fn quoted(s: Seq<char>) -> Seq<char> {
    seq!['"'] + s + seq!['"']
}

/// The canonical serialized form of one scalar field.
pub open spec fn scalar_line(key: Seq<char>, v: Seq<char>) -> Seq<char> {
    key + ": "@ + quoted(v)
}

/// The canonical comma-joined list body, each element quoted.
pub open spec fn elems_text(xs: Seq<Seq<char>>) -> Seq<char>
    decreases xs.len(),
{
    if xs.len() == 0 {
        Seq::empty()
    } else if xs.len() == 1 {
        quoted(xs[0])
    } else {
        quoted(xs[0]) + ", "@ + elems_text(xs.drop_first())
    }
}

/// The canonical serialized form of one list field.
pub open spec fn list_line(key: Seq<char>, xs: Seq<Seq<char>>) -> Seq<char> {
    key + ": ["@ + elems_text(xs) + "]"@
}

/// The block lines of the canonical serialization, present fields only.
pub open spec fn fm_lines(fm: FrontMatterView) -> Seq<Seq<char>> {
    seq![scalar_line("title"@, fm.title)] + (match fm.subtitle {
        Some(s) => seq![scalar_line("subtitle"@, s)],
        None => Seq::empty(),
    }) + (match fm.tags {
        Some(xs) => seq![list_line("tags"@, xs)],
        None => Seq::empty(),
    }) + seq![scalar_line("date"@, fm.date)] + (match fm.additional_css {
        Some(xs) => seq![list_line("additional_css"@, xs)],
        None => Seq::empty(),
    })
}

/// Lines laid out one after another, each closed by a newline.
pub open spec fn glue_lines(ls: Seq<Seq<char>>) -> Seq<char>
    decreases ls.len(),
{
    if ls.len() == 0 {
        Seq::empty()
    } else {
        ls[0] + seq!['\n'] + glue_lines(ls.drop_first())
    }
}

/// The canonical serialized front-matter block, fences included.
pub open spec fn ser_front_matter(fm: FrontMatterView) -> Seq<char> {
    "---"@ + seq!['\n'] + glue_lines(fm_lines(fm)) + "---"@ + seq!['\n']
}

/// A whole document: serialized front-matter followed by the body.
pub open spec fn ser_document(fm: FrontMatterView, body: Seq<char>) -> Seq<char> {
    ser_front_matter(fm) + body
}

proof fn lemma_glue_snoc(ls: Seq<Seq<char>>, l: Seq<char>)
    ensures
        glue_lines(ls.push(l)) == glue_lines(ls) + l + seq!['\n'],
    decreases ls.len(),
{
    if ls.len() == 0 {
        assert(ls.push(l)[0] == l);
        assert(ls.push(l).drop_first() =~= Seq::<Seq<char>>::empty());
        assert(glue_lines(Seq::<Seq<char>>::empty()) == Seq::<char>::empty());
        assert(glue_lines(ls.push(l)) =~= glue_lines(ls) + l + seq!['\n']);
    } else {
        lemma_glue_snoc(ls.drop_first(), l);
        assert(ls.push(l).drop_first() =~= ls.drop_first().push(l));
        assert(ls.push(l)[0] == ls[0]);
        assert(glue_lines(ls.push(l)) == ls[0] + seq!['\n'] + glue_lines(ls.drop_first().push(l)));
        assert(ls[0] + seq!['\n'] + (glue_lines(ls.drop_first()) + l + seq!['\n']) =~= glue_lines(
            ls,
        ) + l + seq!['\n']);
    }
}

proof fn lemma_split_glue(ls: Seq<Seq<char>>, rest: Seq<char>)
    requires
        forall|t: int| 0 <= t < ls.len() ==> count_char(#[trigger] ls[t], '\n') == 0,
    ensures
        split_char(glue_lines(ls) + rest, '\n') == ls + split_char(rest, '\n'),
    decreases ls.len(),
{
    if ls.len() == 0 {
        assert(glue_lines(ls) + rest =~= rest);
        assert(ls + split_char(rest, '\n') =~= split_char(rest, '\n'));
    } else {
        let df = ls.drop_first();
        lemma_split_glue(df, rest);
        crate::strutil::lemma_count_zero(ls[0], '\n');
        assert(glue_lines(ls) + rest =~= ls[0] + seq!['\n'] + (glue_lines(df) + rest));
        crate::strutil::lemma_split_prepend(ls[0], glue_lines(df) + rest, '\n');
        assert(seq![ls[0]] + (df + split_char(rest, '\n')) =~= ls + split_char(rest, '\n'));
    }
}

/// Parsing the canonical scalar line recovers the pair.
#[verifier::rlimit(60)]
proof fn lemma_parse_scalar_line(key: Seq<char>, v: Seq<char>)
    requires
        key.len() > 0,
        count_char(key, ':') == 0,
        count_char(key, '\n') == 0,
        count_char(v, '"') == 0,
        count_char(v, '\n') == 0,
    ensures
        parse_line(scalar_line(key, v)) == LineView::Pair(key, ValueView::Scalar(v)),
        count_char(scalar_line(key, v), '\n') == 0,
        scalar_line(key, v).len() > 0,
        scalar_line(key, v)[0] == key[0],
{
    reveal_strlit(": ");
    let kl = key.len() as int;
    let q = quoted(v);
    let l = scalar_line(key, v);
    assert(": "@.len() == 2);
    assert((": "@)[0] == ':');
    assert((": "@)[1] == ' ');
    assert(q.len() == v.len() + 2);
    assert(l.len() == kl + 2 + q.len());
    assert(l[kl] == ':');
    assert(l[kl + 1] == ' ');
    assert(l[kl + 2] == '"');
    assert(l.last() == '"');
    assert(!is_blank(l)) by {
        assert(l[kl] == ':');
    }
    crate::strutil::lemma_count_zero(key, ':');
    assert forall|k: int| 0 <= k < kl implies l[k] != ':' by {
        assert(l[k] == key[k]);
    }
    lemma_find_from_is(l, ':', 0, kl);
    assert(l.take(kl) =~= key);
    let vp = l.skip(kl + 1);
    assert(vp.len() == q.len() + 1);
    assert(vp[0] == ' ');
    assert(vp[1] == '"');
    crate::strutil::lemma_trim_left_is(vp, 1);
    assert(vp.skip(1) =~= q);
    assert(q.last() == '"');
    crate::strutil::lemma_trim_right_is(q, q.len() as int);
    assert(q.take(q.len() as int) =~= q);
    assert(trim_spaces(vp) == q);
    assert(q[0] == '"');
    assert(q.subrange(1, q.len() - 1) =~= v);
    assert(parse_value(q) == Some(ValueView::Scalar(v)));
    assert(parse_line(l) == LineView::Pair(key, ValueView::Scalar(v)));
    assert(count_char(l, '\n') == 0) by {
        crate::strutil::lemma_count_concat(key + ": "@, q, '\n');
        crate::strutil::lemma_count_concat(key, ": "@, '\n');
        crate::strutil::lemma_count_concat(seq!['"'] + v, seq!['"'], '\n');
        crate::strutil::lemma_count_concat(seq!['"'], v, '\n');
        crate::strutil::lemma_count_zero(": "@, '\n');
        assert(count_char(Seq::<char>::empty(), '\n') == 0);
        assert(count_char(seq!['"'], '\n') == 0) by {
            assert(count_char(Seq::<char>::empty(), '\n') == 0);
            assert(seq!['"'].drop_last() =~= Seq::<char>::empty());
            assert(seq!['"'].last() == '"');
        }
    }
    assert(l[0] == key[0]);
}

/// A well-formed element list never contributes a newline.
proof fn lemma_elems_text_count(xs: Seq<Seq<char>>)
    requires
        forall|j: int| 0 <= j < xs.len() ==> count_char(#[trigger] xs[j], '\n') == 0,
    ensures
        count_char(elems_text(xs), '\n') == 0,
    decreases xs.len(),
{
    reveal_strlit(", ");
    assert(count_char(Seq::<char>::empty(), '\n') == 0);
    assert(count_char(seq!['"'], '\n') == 0) by {
        assert(count_char(Seq::<char>::empty(), '\n') == 0);
        assert(seq!['"'].drop_last() =~= Seq::<char>::empty());
        assert(seq!['"'].last() == '"');
    }
    if xs.len() == 0 {
    } else {
        let q0 = quoted(xs[0]);
        assert(count_char(q0, '\n') == 0) by {
            crate::strutil::lemma_count_concat(seq!['"'] + xs[0], seq!['"'], '\n');
            crate::strutil::lemma_count_concat(seq!['"'], xs[0], '\n');
            assert(count_char(seq!['"'], '\n') == 0) by {
                assert(count_char(Seq::<char>::empty(), '\n') == 0);
                assert(seq!['"'].drop_last() =~= Seq::<char>::empty());
                assert(seq!['"'].last() == '"');
            }
        }
        if xs.len() == 1 {
        } else {
            let df = xs.drop_first();
            assert(forall|j: int| 0 <= j < df.len() ==> count_char(#[trigger] df[j], '\n') == 0);
            lemma_elems_text_count(df);
            crate::strutil::lemma_count_zero(", "@, '\n');
            crate::strutil::lemma_count_concat(q0 + ", "@, elems_text(df), '\n');
            crate::strutil::lemma_count_concat(q0, ", "@, '\n');
        }
    }
}

/// Splitting and re-parsing the canonical element text recovers the
/// elements; `pad` is the spaces the comma split leaves before a piece.
#[verifier::rlimit(60)]
proof fn lemma_elems_parse(xs: Seq<Seq<char>>, pad: Seq<char>)
    requires
        xs.len() > 0,
        forall|j: int|
            0 <= j < xs.len() ==> count_char(#[trigger] xs[j], '"') == 0 && count_char(
                xs[j],
                ',',
            ) == 0,
        forall|t: int| 0 <= t < pad.len() ==> pad[t] == ' ',
    ensures
        parse_elems(split_char(pad + elems_text(xs), ',')) == Some(xs),
    decreases xs.len(),
{
    let head = pad + quoted(xs[0]);
    assert(forall|t: int| 0 <= t < head.len() ==> head[t] != ',') by {
        crate::strutil::lemma_count_zero(xs[0], ',');
    }
    assert(head[pad.len() as int] == '"');
    assert(head.last() == '"');
    assert(parse_elem(head) == Some(xs[0])) by {
        crate::strutil::lemma_trim_left_is(head, pad.len() as int);
        let q = head.skip(pad.len() as int);
        assert(q =~= quoted(xs[0]));
        assert(q.last() == '"');
        crate::strutil::lemma_trim_right_is(q, q.len() as int);
        assert(q.take(q.len() as int) =~= q);
        assert(trim_spaces(head) == q);
        assert(q[0] == '"');
        assert(q.len() >= 2);
        assert(q.subrange(1, q.len() - 1) =~= xs[0]);
        crate::strutil::lemma_count_zero(xs[0], '"');
    }
    if xs.len() == 1 {
        let text = pad + elems_text(xs);
        assert(text =~= head);
        crate::strutil::lemma_find_from(text, ',', 0);
        lemma_find_from_is(text, ',', 0, text.len() as int);
        assert(split_char(text, ',') == seq![text.subrange(0, text.len() as int)]);
        assert(text.subrange(0, text.len() as int) =~= head);
        let pieces = split_char(text, ',');
        assert(pieces.len() == 1);
        assert(pieces[0] == head);
        assert(pieces.drop_first() =~= Seq::<Seq<char>>::empty());
        assert(parse_elems(pieces.drop_first()) == Some(Seq::<Seq<char>>::empty()));
        assert(seq![xs[0]] + Seq::<Seq<char>>::empty() =~= xs);
    } else {
        reveal_strlit(", ");
        let df = xs.drop_first();
        assert(forall|j: int|
            0 <= j < df.len() ==> count_char(#[trigger] df[j], '"') == 0 && count_char(
                df[j],
                ',',
            ) == 0);
        lemma_elems_parse(df, seq![' ']);
        let rest = seq![' '] + elems_text(df);
        assert(pad + elems_text(xs) =~= head + seq![','] + rest);
        crate::strutil::lemma_split_prepend(head, rest, ',');
        let pieces = split_char(pad + elems_text(xs), ',');
        assert(pieces == seq![head] + split_char(rest, ','));
        assert(pieces.len() > 0);
        assert(pieces[0] == head);
        assert(pieces.drop_first() =~= split_char(rest, ','));
        assert(parse_elems(pieces) == Some(seq![xs[0]] + df));
        assert(seq![xs[0]] + df =~= xs);
    }
}

/// Parsing the canonical list line recovers the pair.
#[verifier::rlimit(60)]
proof fn lemma_parse_list_line(key: Seq<char>, xs: Seq<Seq<char>>)
    requires
        key.len() > 0,
        count_char(key, ':') == 0,
        count_char(key, '\n') == 0,
        forall|j: int|
            0 <= j < xs.len() ==> count_char(#[trigger] xs[j], '"') == 0 && count_char(xs[j], ',')
                == 0 && count_char(xs[j], '\n') == 0,
    ensures
        parse_line(list_line(key, xs)) == LineView::Pair(key, ValueView::List(xs)),
        count_char(list_line(key, xs), '\n') == 0,
        list_line(key, xs).len() > 0,
        list_line(key, xs)[0] == key[0],
{
    reveal_strlit(": [");
    reveal_strlit("]");
    let kl = key.len() as int;
    let et = elems_text(xs);
    let l = list_line(key, xs);
    assert(": ["@.len() == 3);
    assert((": ["@)[0] == ':');
    assert((": ["@)[1] == ' ');
    assert((": ["@)[2] == '[');
    assert("]"@.len() == 1);
    assert(("]"@)[0] == ']');
    assert(l.len() == kl + 3 + et.len() + 1);
    assert(l[kl] == ':');
    assert(l[kl + 1] == ' ');
    assert(l[kl + 2] == '[');
    assert(l.last() == ']');
    assert(!is_blank(l)) by {
        assert(l[kl] == ':');
    }
    crate::strutil::lemma_count_zero(key, ':');
    assert forall|k: int| 0 <= k < kl implies l[k] != ':' by {
        assert(l[k] == key[k]);
    }
    lemma_find_from_is(l, ':', 0, kl);
    assert(l.take(kl) =~= key);
    let vp = l.skip(kl + 1);
    let val0 = seq!['['] + et + seq![']'];
    assert(vp =~= seq![' '] + val0);
    assert(vp[0] == ' ');
    assert(vp[1] == '[');
    crate::strutil::lemma_trim_left_is(vp, 1);
    assert(vp.skip(1) =~= val0);
    assert(val0.last() == ']');
    crate::strutil::lemma_trim_right_is(val0, val0.len() as int);
    assert(val0.take(val0.len() as int) =~= val0);
    assert(trim_spaces(vp) == val0);
    assert(val0[0] == '[');
    assert(val0[0] != '"');
    let inner = val0.subrange(1, val0.len() - 1);
    assert(inner =~= et);
    if xs.len() == 0 {
        assert(inner.len() == 0);
        assert(is_blank(inner));
        assert(parse_value(val0) == Some(ValueView::List(Seq::empty())));
        assert(Seq::<Seq<char>>::empty() =~= xs);
    } else {
        assert(et[0] == '"');
        assert(!is_blank(inner)) by {
            assert(inner[0] == '"');
        }
        lemma_elems_parse(xs, Seq::empty());
        assert(Seq::<char>::empty() + et =~= et);
        assert(parse_elems(split_char(inner, ',')) == Some(xs));
        assert(parse_value(val0) == Some(ValueView::List(xs)));
    }
    assert(parse_line(l) == LineView::Pair(key, ValueView::List(xs)));
    assert(count_char(l, '\n') == 0) by {
        lemma_elems_text_count(xs);
        crate::strutil::lemma_count_concat(key + ": ["@ + et, "]"@, '\n');
        crate::strutil::lemma_count_concat(key + ": ["@, et, '\n');
        crate::strutil::lemma_count_concat(key, ": ["@, '\n');
        crate::strutil::lemma_count_zero(": ["@, '\n');
        crate::strutil::lemma_count_zero("]"@, '\n');
    }
    assert(l[0] == key[0]);
}

/// Unfolds the block fold over a single line.
proof fn lemma_block_one(lines: Seq<Seq<char>>, p: int, acc: AccView, acc2: AccView)
    requires
        acc_step(lines[p], acc) == Some(acc2),
    ensures
        parse_block(lines, p, p + 1, acc) == Some(acc2),
{
    assert(parse_block(lines, p + 1, p + 1, acc2) == Some(acc2));
}

/// The block fold composes over a split of its range.
proof fn lemma_block_split(lines: Seq<Seq<char>>, a: int, b: int, c: int, acc: AccView)
    requires
        a <= b <= c,
    ensures
        parse_block(lines, a, c, acc) == (match parse_block(lines, a, b, acc) {
            Some(x) => parse_block(lines, b, c, x),
            None => None,
        }),
    decreases b - a,
{
    if a < b {
        match acc_step(lines[a], acc) {
            Some(a2) => {
                lemma_block_split(lines, a + 1, b, c, a2);
            },
            None => {},
        }
    }
}

/// Text with balanced required fields round-trips: parsing the canonical
/// serialization of a well-formed front-matter followed by any body
/// recovers exactly the same fields and body.
#[verifier::rlimit(60)]
pub proof fn lemma_front_matter_round_trip(fm: FrontMatterView, body: Seq<char>)
    requires
        wf_front_matter(fm),
    ensures
        parse_doc(ser_document(fm, body)) == Some((fm, body)),
{
    reveal_strlit("---");
    reveal_strlit("title");
    reveal_strlit("subtitle");
    reveal_strlit("date");
    reveal_strlit("tags");
    reveal_strlit("additional_css");
    assert(count_char("title"@, ':') == 0 && count_char("title"@, '\n') == 0) by {
        crate::strutil::lemma_count_zero("title"@, ':');
        crate::strutil::lemma_count_zero("title"@, '\n');
    }
    assert(count_char("subtitle"@, ':') == 0 && count_char("subtitle"@, '\n') == 0) by {
        crate::strutil::lemma_count_zero("subtitle"@, ':');
        crate::strutil::lemma_count_zero("subtitle"@, '\n');
    }
    assert(count_char("date"@, ':') == 0 && count_char("date"@, '\n') == 0) by {
        crate::strutil::lemma_count_zero("date"@, ':');
        crate::strutil::lemma_count_zero("date"@, '\n');
    }
    assert(count_char("tags"@, ':') == 0 && count_char("tags"@, '\n') == 0) by {
        crate::strutil::lemma_count_zero("tags"@, ':');
        crate::strutil::lemma_count_zero("tags"@, '\n');
    }
    assert(count_char("additional_css"@, ':') == 0 && count_char("additional_css"@, '\n') == 0)
        by {
        crate::strutil::lemma_count_zero("additional_css"@, ':');
        crate::strutil::lemma_count_zero("additional_css"@, '\n');
    }
    let ls = fm_lines(fm);
    let title_line = scalar_line("title"@, fm.title);
    let date_line = scalar_line("date"@, fm.date);
    lemma_parse_scalar_line("title"@, fm.title);
    lemma_parse_scalar_line("date"@, fm.date);
    match fm.subtitle {
        Some(s) => {
            lemma_parse_scalar_line("subtitle"@, s);
        },
        None => {},
    }
    match fm.tags {
        Some(xs) => {
            lemma_parse_list_line("tags"@, xs);
        },
        None => {},
    }
    match fm.additional_css {
        Some(xs) => {
            lemma_parse_list_line("additional_css"@, xs);
        },
        None => {},
    }
    assert forall|t: int| 0 <= t < ls.len() implies count_char(#[trigger] ls[t], '\n') == 0 && ls[t]
        != "---"@ && acc_line_fact(ls[t]) by {
        assert(("---"@)[0] == '-');
    }
    let sdoc = ser_document(fm, body);
    let tail2 = "---"@ + seq!['\n'] + body;
    crate::strutil::lemma_count_zero("---"@, '\n');
    assert(count_char("---"@, '\n') == 0) by {
        assert(forall|t: int| 0 <= t < "---"@.len() ==> ("---"@)[t] != '\n');
        crate::strutil::lemma_count_zero("---"@, '\n');
    }
    crate::strutil::lemma_split_prepend("---"@, body, '\n');
    assert(split_char(tail2, '\n') == seq!["---"@] + split_char(body, '\n'));
    lemma_split_glue(ls, tail2);
    assert(split_char(glue_lines(ls) + tail2, '\n') == ls + split_char(tail2, '\n'));
    crate::strutil::lemma_split_prepend("---"@, glue_lines(ls) + tail2, '\n');
    assert(sdoc =~= "---"@ + seq!['\n'] + (glue_lines(ls) + tail2));
    let lines = split_char(sdoc, '\n');
    assert(lines == seq!["---"@] + (ls + (seq!["---"@] + split_char(body, '\n'))));
    let nl = ls.len() as int;
    assert(lines.len() == nl + 2 + split_char(body, '\n').len());
    assert(lines[0] == "---"@);
    assert(forall|t: int| 1 <= t < nl + 1 ==> lines[t] == ls[t - 1]);
    assert(lines[nl + 1] == "---"@);
    lemma_find_fence_is(lines, 1, nl + 1);
    assert(find_fence(lines, 1) == nl + 1);
    // walk the block fold
    let a0 = acc_init();
    let mut p: int = 1;
    let mut cur: AccView = a0;
    assert(parse_block(lines, 1, p, a0) == Some(cur));
    // title
    let cur1 = AccView { title: Some(fm.title), ..cur };
    assert(acc_step(lines[p], cur) == Some(cur1));
    lemma_block_one(lines, p, cur, cur1);
    lemma_block_split(lines, 1, p, p + 1, a0);
    p = p + 1;
    cur = cur1;
    assert(parse_block(lines, 1, p, a0) == Some(cur));
    // subtitle
    match fm.subtitle {
        Some(s) => {
            assert(lines[p] == scalar_line("subtitle"@, s));
            let cur2 = AccView { subtitle: Some(s), ..cur };
            assert(acc_step(lines[p], cur) == Some(cur2));
            lemma_block_one(lines, p, cur, cur2);
            lemma_block_split(lines, 1, p, p + 1, a0);
            p = p + 1;
            cur = cur2;
        },
        None => {},
    }
    assert(parse_block(lines, 1, p, a0) == Some(cur));
    // tags
    match fm.tags {
        Some(xs) => {
            assert(lines[p] == list_line("tags"@, xs));
            let cur2 = AccView { tags: Some(xs), ..cur };
            assert(acc_step(lines[p], cur) == Some(cur2));
            lemma_block_one(lines, p, cur, cur2);
            lemma_block_split(lines, 1, p, p + 1, a0);
            p = p + 1;
            cur = cur2;
        },
        None => {},
    }
    assert(parse_block(lines, 1, p, a0) == Some(cur));
    // date
    assert(lines[p] == date_line);
    let cur3 = AccView { date: Some(fm.date), ..cur };
    assert(acc_step(lines[p], cur) == Some(cur3));
    lemma_block_one(lines, p, cur, cur3);
    lemma_block_split(lines, 1, p, p + 1, a0);
    p = p + 1;
    cur = cur3;
    assert(parse_block(lines, 1, p, a0) == Some(cur));
    // additional_css
    match fm.additional_css {
        Some(xs) => {
            assert(lines[p] == list_line("additional_css"@, xs));
            let cur2 = AccView { additional_css: Some(xs), ..cur };
            assert(acc_step(lines[p], cur) == Some(cur2));
            lemma_block_one(lines, p, cur, cur2);
            lemma_block_split(lines, 1, p, p + 1, a0);
            p = p + 1;
            cur = cur2;
        },
        None => {},
    }
    assert(p == nl + 1);
    assert(parse_block(lines, 1, nl + 1, a0) == Some(cur));
    assert(cur.title == Some(fm.title));
    assert(cur.subtitle == fm.subtitle);
    assert(cur.tags == fm.tags);
    assert(cur.date == Some(fm.date));
    assert(cur.additional_css == fm.additional_css);
    assert(finish(cur) == Some(fm));
    // the body joins back
    assert(lines.subrange(nl + 2, lines.len() as int) =~= split_char(body, '\n'));
    crate::strutil::lemma_join_split(body, '\n', 0);
    assert(body.subrange(0, body.len() as int) =~= body);
    assert(parse_doc(sdoc) == Some((fm, body)));
}

/// Facts needed of every serialized field line, bundled so one
/// quantifier covers the variable layout.
spec fn acc_line_fact(l: Seq<char>) -> bool {
    l.len() > 0 && l[0] != '-'
}

/// Scalars must avoid quotes and newlines; list elements commas too;
/// the title must be non-empty.
pub open spec fn wf_scalar(s: Seq<char>) -> bool {
    count_char(s, '"') == 0 && count_char(s, '\n') == 0
}

pub open spec fn wf_elems(xs: Seq<Seq<char>>) -> bool {
    forall|j: int|
        0 <= j < xs.len() ==> count_char(#[trigger] xs[j], '"') == 0 && count_char(xs[j], ',') == 0
            && count_char(xs[j], '\n') == 0
}

pub open spec fn wf_front_matter(fm: FrontMatterView) -> bool {
    &&& wf_scalar(fm.title)
    &&& fm.title.len() > 0
    &&& wf_scalar(fm.date)
    &&& match fm.subtitle {
        Some(s) => wf_scalar(s),
        None => true,
    }
    &&& match fm.tags {
        Some(xs) => wf_elems(xs),
        None => true,
    }
    &&& match fm.additional_css {
        Some(xs) => wf_elems(xs),
        None => true,
    }
}

fn append_quoted(out: &mut String, v: &str)
    ensures
        final(out)@ == old(out)@ + quoted(v@),
{
    out.append("\"");
    out.append(v);
    out.append("\"");
    proof {
        reveal_strlit("\"");
        assert("\""@ =~= seq!['"']);
        assert(out@ =~= old(out)@ + quoted(v@));
    }
}

fn append_scalar_line(out: &mut String, key: &str, v: &str)
    ensures
        final(out)@ == old(out)@ + scalar_line(key@, v@) + seq!['\n'],
{
    out.append(key);
    out.append(": ");
    append_quoted(out, v);
    out.append("\n");
    proof {
        reveal_strlit("\n");
        assert("\n"@ =~= seq!['\n']);
        assert(out@ =~= old(out)@ + scalar_line(key@, v@) + seq!['\n']);
    }
}

fn append_list_line(out: &mut String, key: &str, xs: &Vec<String>)
    ensures
        final(out)@ == old(out)@ + list_line(key@, xs.deep_view()) + seq!['\n'],
{
    let ghost xd = xs.deep_view();
    proof {
        assert(forall|j: int| 0 <= j < xs@.len() ==> xd[j] == #[trigger] xs@[j]@);
    }
    out.append(key);
    out.append(": [");
    let ghost base = out@;
    let n: usize = xs.len();
    let mut i: usize = 0;
    proof {
        assert(xd.len() == xs@.len());
        assert(xd.subrange(0, n as int) =~= xd);
    }
    while i < n
        invariant
            i <= n,
            n == xs@.len(),
            xd == xs.deep_view(),
            xd.len() == n,
            forall|j: int| 0 <= j < n ==> xd[j] == #[trigger] xs@[j]@,
            out@ + elems_text(xd.subrange(i as int, n as int)) == base + elems_text(xd),
        decreases n - i,
    {
        let ghost suf = xd.subrange(i as int, n as int);
        proof {
            assert(suf.len() == n - i);
            assert(suf[0] == xd[i as int]);
            assert(suf.drop_first() =~= xd.subrange(i + 1, n as int));
        }
        append_quoted(out, xs[i].as_str());
        if i + 1 < n {
            out.append(", ");
            proof {
                assert(elems_text(suf) == quoted(xd[i as int]) + ", "@ + elems_text(
                    xd.subrange(i + 1, n as int),
                ));
                assert(out@ + elems_text(xd.subrange(i + 1, n as int)) =~= base + elems_text(xd));
            }
        } else {
            proof {
                assert(elems_text(suf) == quoted(xd[i as int]));
                assert(elems_text(xd.subrange(i + 1, n as int)) == Seq::<char>::empty());
                assert(out@ + Seq::<char>::empty() =~= out@);
                assert(out@ + elems_text(xd.subrange(i + 1, n as int)) =~= base + elems_text(xd));
            }
        }
        i = i + 1;
    }
    proof {
        if n == 0 {
            assert(elems_text(xd.subrange(0, 0)) == Seq::<char>::empty());
            assert(out@ + Seq::<char>::empty() =~= out@);
        }
        assert(elems_text(xd.subrange(n as int, n as int)) == Seq::<char>::empty());
        assert(out@ + Seq::<char>::empty() =~= out@);
        assert(out@ == base + elems_text(xd));
    }
    out.append("]");
    out.append("\n");
    proof {
        reveal_strlit(": [");
        reveal_strlit("]");
        reveal_strlit("\n");
        assert("\n"@ =~= seq!['\n']);
        assert(out@ =~= old(out)@ + list_line(key@, xd) + seq!['\n']);
    }
}

/// Writes the canonical front-matter block for `fm`: fences around one
/// line per present field, scalars quoted and lists bracketed.
pub fn serialize_front_matter(fm: &PageFrontMatter) -> (r: String)
    ensures
        r@ == ser_front_matter(fm@),
{
    let mut out = String::new();
    out.append("---");
    out.append("\n");
    proof {
        reveal_strlit("\n");
        assert("\n"@ =~= seq!['\n']);
    }
    let ghost head = "---"@ + seq!['\n'];
    let ghost mut done: Seq<Seq<char>> = Seq::empty();
    proof {
        assert(glue_lines(done) == Seq::<char>::empty());
        assert(out@ =~= head + glue_lines(done));
    }
    append_scalar_line(&mut out, "title", fm.title.as_str());
    proof {
        lemma_glue_snoc(done, scalar_line("title"@, fm@.title));
        done = done.push(scalar_line("title"@, fm@.title));
        assert(out@ =~= head + glue_lines(done));
    }
    match &fm.subtitle {
        Some(s) => {
            append_scalar_line(&mut out, "subtitle", s.as_str());
            proof {
                lemma_glue_snoc(done, scalar_line("subtitle"@, s@));
                done = done.push(scalar_line("subtitle"@, s@));
                assert(out@ =~= head + glue_lines(done));
            }
        },
        None => {},
    }
    match &fm.tags {
        Some(xs) => {
            append_list_line(&mut out, "tags", xs);
            proof {
                lemma_glue_snoc(done, list_line("tags"@, xs.deep_view()));
                done = done.push(list_line("tags"@, xs.deep_view()));
                assert(out@ =~= head + glue_lines(done));
            }
        },
        None => {},
    }
    append_scalar_line(&mut out, "date", fm.date.as_str());
    proof {
        lemma_glue_snoc(done, scalar_line("date"@, fm@.date));
        done = done.push(scalar_line("date"@, fm@.date));
        assert(out@ =~= head + glue_lines(done));
    }
    match &fm.additional_css {
        Some(xs) => {
            append_list_line(&mut out, "additional_css", xs);
            proof {
                lemma_glue_snoc(done, list_line("additional_css"@, xs.deep_view()));
                done = done.push(list_line("additional_css"@, xs.deep_view()));
                assert(out@ =~= head + glue_lines(done));
            }
        },
        None => {},
    }
    out.append("---");
    out.append("\n");
    proof {
        reveal_strlit("\n");
        assert("\n"@ =~= seq!['\n']);
        assert(done =~= fm_lines(fm@));
        assert(out@ =~= ser_front_matter(fm@));
    }
    out
}

} // verus!
