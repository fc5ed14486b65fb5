//! Character-sequence toolkit: conversions between `str`/`String` and
//! `Vec<char>`, plus verified substring search, replacement, joining and
//! decimal rendering. All contracts are stated over `Seq<char>` views.

use vstd::prelude::*;
use vstd::string::StrSliceExecFns;

verus! {

/// The views of a sequence of character vectors.
pub open spec fn views_of(s: Seq<Vec<char>>) -> Seq<Seq<char>> {
    s.map_values(|v: Vec<char>| v@)
}

/// The views of a sequence of strings.
pub open spec fn str_views(xs: Seq<String>) -> Seq<Seq<char>> {
    xs.map_values(|x: String| x@)
}

/// The characters of each string in a slice, as vectors.
pub fn strs_to_char_vecs(xs: &[String]) -> (r: Vec<Vec<char>>)
    ensures
        views_of(r@) == str_views(xs@),
{
    let mut r: Vec<Vec<char>> = Vec::new();
    let mut i: usize = 0;
    proof {
        assert(views_of(r@) =~= str_views(xs@.take(0)));
    }
    while i < xs.len()
        invariant
            i <= xs@.len(),
            r@.len() == i,
            views_of(r@) == str_views(xs@.take(i as int)),
        decreases xs@.len() - i,
    {
        let ghost r0 = r@;
        let cs = str_to_chars(xs[i].as_str());
        r.push(cs);
        proof {
            assert forall|k: int| 0 <= k < i + 1 implies views_of(r@)[k] == str_views(
                xs@.take(i + 1),
            )[k] by {
                assert(views_of(r@)[k] == r@[k]@);
                assert(str_views(xs@.take(i + 1))[k] == xs@.take(i + 1)[k]@);
                if k < i {
                    assert(views_of(r0)[k] == str_views(xs@.take(i as int))[k]);
                    assert(views_of(r0)[k] == r0[k]@);
                    assert(str_views(xs@.take(i as int))[k] == xs@.take(i as int)[k]@);
                }
            }
            assert(views_of(r@) =~= str_views(xs@.take(i + 1)));
        }
        i = i + 1;
    }
    proof {
        assert(xs@.take(xs@.len() as int) =~= xs@);
    }
    r
}

/// Pushing a vector extends the sequence of views by its view.
pub proof fn lemma_views_push(v0: Seq<Vec<char>>, x: Vec<char>)
    ensures
        views_of(v0.push(x)) == views_of(v0).push(x@),
{
    assert forall|k: int| 0 <= k < v0.len() + 1 implies views_of(v0.push(x))[k] == views_of(
        v0,
    ).push(x@)[k] by {
        assert(views_of(v0.push(x))[k] == v0.push(x)[k]@);
    }
    assert(views_of(v0.push(x)) =~= views_of(v0).push(x@));
}

/// Pushing a string extends the sequence of views by its view.
pub proof fn lemma_str_views_push(v0: Seq<String>, x: String)
    ensures
        str_views(v0.push(x)) == str_views(v0).push(x@),
{
    assert forall|k: int| 0 <= k < v0.len() + 1 implies str_views(v0.push(x))[k] == str_views(
        v0,
    ).push(x@)[k] by {
        assert(str_views(v0.push(x))[k] == v0.push(x)[k]@);
    }
    assert(str_views(v0.push(x)) =~= str_views(v0).push(x@));
}

/// The characters of `text` between positions `a` and `b`.
pub fn copy_range(text: &Vec<char>, a: usize, b: usize) -> (r: Vec<char>)
    requires
        a <= b <= text@.len(),
    ensures
        r@ == text@.subrange(a as int, b as int),
{
    let mut r: Vec<char> = Vec::new();
    let mut i: usize = a;
    proof {
        assert(r@ =~= text@.subrange(a as int, a as int));
    }
    while i < b
        invariant
            a <= i <= b <= text@.len(),
            r@ == text@.subrange(a as int, i as int),
        decreases b - i,
    {
        r.push(text[i]);
        proof {
            assert(r@ =~= text@.subrange(a as int, i + 1));
        }
        i = i + 1;
    }
    r
}

/// The characters of a string slice, as a vector.
pub fn str_to_chars(s: &str) -> (r: Vec<char>)
    ensures
        r@ == s@,
{
    let n: usize = s.unicode_len();
    let mut r: Vec<char> = Vec::new();
    let mut i: usize = 0;
    while i < n
        invariant
            i <= n,
            n == s@.len(),
            r@ == s@.take(i as int),
        decreases n - i,
    {
        r.push(s.get_char(i));
        proof {
            assert(r@ =~= s@.take(i + 1));
        }
        i = i + 1;
    }
    proof {
        assert(s@.take(n as int) =~= s@);
    }
    r
}

/// Relies on `String`'s `FromIterator<char>`: collecting characters yields the
/// string made of exactly those characters in order.
#[verifier::external_body]
pub(crate) fn chars_to_string(v: &Vec<char>) -> (r: String)
    ensures
        r@ == v@,
{
    v.iter().collect()
}

/// Appends every character of `src` to `dst`, in order.
pub fn append_chars(dst: &mut Vec<char>, src: &Vec<char>)
    ensures
        final(dst)@ == old(dst)@ + src@,
{
    let mut j: usize = 0;
    while j < src.len()
        invariant
            j <= src@.len(),
            dst@ == old(dst)@ + src@.take(j as int),
        decreases src@.len() - j,
    {
        dst.push(src[j]);
        proof {
            assert(old(dst)@ + src@.take(j + 1) =~= (old(dst)@ + src@.take(j as int)).push(
                src@[j as int],
            ));
        }
        j = j + 1;
    }
    proof {
        assert(src@.take(src@.len() as int) =~= src@);
    }
}

/// Whether the views of two character vectors are equal.
pub fn chars_eq(a: &Vec<char>, b: &Vec<char>) -> (r: bool)
    ensures
        r == (a@ == b@),
{
    if a.len() != b.len() {
        proof {
            assert(a@ != b@) by {
                if a@ == b@ {
                    assert(a@.len() == b@.len());
                }
            }
        }
        return false;
    }
    let mut j: usize = 0;
    while j < a.len()
        invariant
            j <= a@.len(),
            a@.len() == b@.len(),
            forall|k: int| 0 <= k < j ==> a@[k] == b@[k],
        decreases a@.len() - j,
    {
        if a[j] != b[j] {
            return false;
        }
        j = j + 1;
    }
    proof {
        assert(a@ =~= b@);
    }
    true
}

/// Whether `pat` occurs in `text` starting at position `i`.
pub fn matches_at(text: &Vec<char>, pat: &Vec<char>, i: usize) -> (b: bool)
    requires
        i + pat@.len() <= text@.len(),
    ensures
        b == (text@.subrange(i as int, i + pat@.len()) == pat@),
{
    let tl: usize = text.len();
    let mut j: usize = 0;
    while j < pat.len()
        invariant
            i + pat@.len() <= text@.len(),
            text@.len() == tl,
            j <= pat@.len(),
            forall|k: int| 0 <= k < j ==> text@[i + k] == pat@[k],
        decreases pat@.len() - j,
    {
        if text[i + j] != pat[j] {
            proof {
                assert(text@.subrange(i as int, i + pat@.len())[j as int] != pat@[j as int]);
            }
            return false;
        }
        j = j + 1;
    }
    proof {
        assert(text@.subrange(i as int, i + pat@.len()) =~= pat@);
    }
    true
}

/// The result of replacing, left to right, every non-overlapping occurrence of
/// `pat` in `text` by `rep`. An empty pattern replaces nothing.
pub open spec fn replace_all_spec(text: Seq<char>, pat: Seq<char>, rep: Seq<char>) -> Seq<char>
    decreases text.len(),
{
    if pat.len() == 0 || text.len() < pat.len() {
        text
    } else if text.take(pat.len() as int) == pat {
        rep + replace_all_spec(text.skip(pat.len() as int), pat, rep)
    } else {
        seq![text[0]] + replace_all_spec(text.skip(1), pat, rep)
    }
}

/// How `replace_all_spec` consumes `text` at position `i`: a whole match of
/// `pat`, or a single unmatched character.
proof fn lemma_replace_step(text: Seq<char>, pat: Seq<char>, rep: Seq<char>, i: int)
    requires
        pat.len() > 0,
        0 <= i < text.len(),
    ensures
        (i + pat.len() <= text.len() && text.subrange(i, i + pat.len()) == pat) ==> replace_all_spec(
            text.skip(i),
            pat,
            rep,
        ) == rep + replace_all_spec(text.skip(i + pat.len()), pat, rep),
        !(i + pat.len() <= text.len() && text.subrange(i, i + pat.len()) == pat)
            ==> replace_all_spec(text.skip(i), pat, rep) == seq![text[i]] + replace_all_spec(
            text.skip(i + 1),
            pat,
            rep,
        ),
{
    let t = text.skip(i);
    if i + pat.len() <= text.len() && text.subrange(i, i + pat.len()) == pat {
        assert(t.take(pat.len() as int) =~= text.subrange(i, i + pat.len()));
        assert(t.skip(pat.len() as int) =~= text.skip(i + pat.len()));
    } else {
        if i + pat.len() <= text.len() {
            assert(t.take(pat.len() as int) =~= text.subrange(i, i + pat.len()));
            assert(t[0] == text[i]);
            assert(t.skip(1) =~= text.skip(i + 1));
        } else {
            // Too little text is left for a match: both tails are kept as they are.
            assert(replace_all_spec(t, pat, rep) == t);
            assert(text.skip(i + 1).len() < pat.len());
            assert(replace_all_spec(text.skip(i + 1), pat, rep) == text.skip(i + 1));
            assert(seq![text[i]] + text.skip(i + 1) =~= t);
        }
    }
}

/// Replaces, left to right, every non-overlapping occurrence of `pat` in
/// `text` by `rep`.
pub fn replace_all(text: &Vec<char>, pat: &Vec<char>, rep: &Vec<char>) -> (r: Vec<char>)
    requires
        pat@.len() > 0,
    ensures
        r@ == replace_all_spec(text@, pat@, rep@),
{
    let mut out: Vec<char> = Vec::new();
    let mut i: usize = 0;
    proof {
        assert(text@.skip(0) =~= text@);
        assert(out@ + replace_all_spec(text@, pat@, rep@) =~= replace_all_spec(text@, pat@, rep@));
    }
    while i < text.len()
        invariant
            pat@.len() > 0,
            i <= text@.len(),
            replace_all_spec(text@, pat@, rep@) == out@ + replace_all_spec(
                text@.skip(i as int),
                pat@,
                rep@,
            ),
        decreases text@.len() - i,
    {
        let remaining: usize = text.len() - i;
        if remaining >= pat.len() && matches_at(text, pat, i) {
            proof {
                lemma_replace_step(text@, pat@, rep@, i as int);
            }
            append_chars(&mut out, rep);
            proof {
                assert(out@ + replace_all_spec(text@.skip(i + pat@.len()), pat@, rep@)
                    =~= replace_all_spec(text@, pat@, rep@));
            }
            i = i + pat.len();
        } else {
            proof {
                lemma_replace_step(text@, pat@, rep@, i as int);
            }
            out.push(text[i]);
            proof {
                assert(out@ + replace_all_spec(text@.skip(i + 1), pat@, rep@) =~= replace_all_spec(
                    text@,
                    pat@,
                    rep@,
                ));
            }
            i = i + 1;
        }
    }
    proof {
        assert(text@.skip(text@.len() as int).len() == 0);
        assert(out@ + replace_all_spec(text@.skip(text@.len() as int), pat@, rep@) =~= out@);
    }
    out
}

/// Whether `pat` occurs in `text` at position `i`.
pub open spec fn match_at(text: Seq<char>, pat: Seq<char>, i: int) -> bool {
    0 <= i && i + pat.len() <= text.len() && text.subrange(i, i + pat.len()) == pat
}

/// Whether `pat` occurs anywhere in `text`.
pub open spec fn has_sub(text: Seq<char>, pat: Seq<char>) -> bool {
    exists|i: int| match_at(text, pat, i)
}

/// The position of the leftmost occurrence of `pat` in `text`, if any.
pub open spec fn find_first(text: Seq<char>, pat: Seq<char>) -> Option<int>
    decreases text.len(),
{
    if pat.len() == 0 || text.len() < pat.len() {
        None
    } else if text.take(pat.len() as int) == pat {
        Some(0int)
    } else {
        match find_first(text.skip(1), pat) {
            Some(j) => Some(j + 1),
            None => None,
        }
    }
}

/// `find_first` returns the position of a match that no earlier position has,
/// and `None` exactly when no position matches.
pub proof fn lemma_find_first(text: Seq<char>, pat: Seq<char>)
    requires
        pat.len() > 0,
    ensures
        match find_first(text, pat) {
            Some(i) => match_at(text, pat, i) && (forall|j: int|
                0 <= j < i ==> !match_at(text, pat, j)),
            None => forall|j: int| !match_at(text, pat, j),
        },
    decreases text.len(),
{
    let m = pat.len() as int;
    if text.len() < pat.len() {
        assert(forall|j: int| !match_at(text, pat, j));
    } else if text.take(m) == pat {
        assert(text.take(m) =~= text.subrange(0, m));
        assert(match_at(text, pat, 0));
    } else {
        lemma_find_first(text.skip(1), pat);
        assert(text.take(m) =~= text.subrange(0, m));
        assert(!match_at(text, pat, 0));
        assert forall|j: int| 1 <= j implies (match_at(text, pat, j) <==> match_at(
            text.skip(1),
            pat,
            j - 1,
        )) by {
            if j + m <= text.len() {
                assert(text.skip(1).subrange(j - 1, j - 1 + m) =~= text.subrange(j, j + m));
            }
        }
        match find_first(text.skip(1), pat) {
            Some(j) => {
                assert(match_at(text.skip(1), pat, j));
                assert(match_at(text, pat, j + 1));
                assert forall|k: int| 0 <= k < j + 1 implies !match_at(text, pat, k) by {
                    if k >= 1 {
                        assert(!match_at(text.skip(1), pat, k - 1));
                    }
                }
            },
            None => {
                assert forall|k: int| !match_at(text, pat, k) by {
                    if k >= 1 {
                        assert(!match_at(text.skip(1), pat, k - 1));
                    }
                }
            },
        }
    }
}

/// The position of the leftmost occurrence of `pat` in `text`, if any.
pub fn find_sub(text: &Vec<char>, pat: &Vec<char>) -> (r: Option<usize>)
    requires
        pat@.len() > 0,
    ensures
        match r {
            Some(i) => find_first(text@, pat@) == Some(i as int) && i + pat@.len() <= text@.len(),
            None => find_first(text@, pat@) is None,
        },
{
    if pat.len() > text.len() {
        return None;
    }
    let last: usize = text.len() - pat.len();
    let mut i: usize = 0;
    loop
        invariant
            0 < pat@.len() <= text@.len() <= usize::MAX,
            last == text@.len() - pat@.len(),
            i <= last + 1,
            forall|j: int| 0 <= j < i ==> !match_at(text@, pat@, j),
        decreases last + 1 - i,
    {
        if i > last {
            proof {
                lemma_find_first(text@, pat@);
                assert forall|j: int| !match_at(text@, pat@, j) by {
                    if 0 <= j && j + pat@.len() <= text@.len() {
                        assert(j <= last);
                    }
                }
                if find_first(text@, pat@) is Some {
                    let w = find_first(text@, pat@)->Some_0;
                    assert(match_at(text@, pat@, w));
                }
            }
            return None;
        }
        if matches_at(text, pat, i) {
            proof {
                lemma_find_first(text@, pat@);
                assert(match_at(text@, pat@, i as int));
                match find_first(text@, pat@) {
                    Some(k) => {
                        if k < i {
                            assert(!match_at(text@, pat@, k));
                        }
                        if k > i {
                            assert(!match_at(text@, pat@, i as int));
                        }
                    },
                    None => {
                        assert(!match_at(text@, pat@, i as int));
                    },
                }
            }
            return Some(i);
        }
        i = i + 1;
    }
}

/// Whether `pat` occurs anywhere in `text`.
pub fn contains_sub(text: &Vec<char>, pat: &Vec<char>) -> (r: bool)
    requires
        pat@.len() > 0,
    ensures
        r == has_sub(text@, pat@),
{
    let found = find_sub(text, pat);
    proof {
        lemma_find_first(text@, pat@);
        match find_first(text@, pat@) {
            Some(i) => {
                assert(match_at(text@, pat@, i));
            },
            None => {
                if has_sub(text@, pat@) {
                    let w = choose|i: int| match_at(text@, pat@, i);
                    assert(!match_at(text@, pat@, w));
                }
            },
        }
    }
    found.is_some()
}

/// The position of the leftmost occurrence of `c` in `text` at or after
/// position `from`, if any.
pub open spec fn find_char_first(text: Seq<char>, c: char, from: int) -> Option<int>
    decreases text.len() - from,
{
    if from < 0 || from >= text.len() {
        None
    } else if text[from] == c {
        Some(from)
    } else {
        find_char_first(text, c, from + 1)
    }
}

/// The position of the leftmost occurrence of `c` in `text` at or after
/// position `from`, if any.
pub fn find_char(text: &Vec<char>, c: char, from: usize) -> (r: Option<usize>)
    ensures
        match r {
            Some(i) => find_char_first(text@, c, from as int) == Some(i as int) && from <= i
                < text@.len(),
            None => find_char_first(text@, c, from as int) is None,
        },
{
    if from >= text.len() {
        return None;
    }
    let mut i: usize = from;
    while i < text.len()
        invariant
            from <= i <= text@.len() <= usize::MAX,
            find_char_first(text@, c, from as int) == find_char_first(text@, c, i as int),
        decreases text@.len() - i,
    {
        if text[i] == c {
            return Some(i);
        }
        i = i + 1;
    }
    None
}

/// The decimal digit character for `d`.
pub open spec fn digit_char(d: int) -> char {
    if d == 0 {
        '0'
    } else if d == 1 {
        '1'
    } else if d == 2 {
        '2'
    } else if d == 3 {
        '3'
    } else if d == 4 {
        '4'
    } else if d == 5 {
        '5'
    } else if d == 6 {
        '6'
    } else if d == 7 {
        '7'
    } else if d == 8 {
        '8'
    } else {
        '9'
    }
}

/// The decimal rendering of a non-negative integer, without sign or padding.
pub open spec fn dec_spec(n: int) -> Seq<char>
    recommends
        n >= 0,
    decreases n,
{
    if n < 10 {
        seq![digit_char(n)]
    } else {
        dec_spec(n / 10) + seq![digit_char(n % 10)]
    }
}

/// The decimal digit character for `d`.
fn digit_of(d: usize) -> (c: char)
    requires
        d < 10,
    ensures
        c == digit_char(d as int),
{
    if d == 0 {
        '0'
    } else if d == 1 {
        '1'
    } else if d == 2 {
        '2'
    } else if d == 3 {
        '3'
    } else if d == 4 {
        '4'
    } else if d == 5 {
        '5'
    } else if d == 6 {
        '6'
    } else if d == 7 {
        '7'
    } else if d == 8 {
        '8'
    } else {
        '9'
    }
}

/// The decimal rendering of `n`.
pub fn dec_chars(n: usize) -> (r: Vec<char>)
    ensures
        r@ == dec_spec(n as int),
    decreases n,
{
    if n < 10 {
        let c = digit_of(n);
        let mut r: Vec<char> = Vec::new();
        r.push(c);
        proof {
            assert(r@ =~= seq![digit_char(n as int)]);
        }
        r
    } else {
        let mut r = dec_chars(n / 10);
        let c = digit_of(n % 10);
        r.push(c);
        proof {
            assert(r@ =~= dec_spec(n as int / 10) + seq![digit_char(n as int % 10)]);
        }
        r
    }
}

/// The elements of `parts` concatenated with `sep` between neighbours.
pub open spec fn join_spec(parts: Seq<Seq<char>>, sep: Seq<char>) -> Seq<char>
    decreases parts.len(),
{
    if parts.len() == 0 {
        Seq::<char>::empty()
    } else if parts.len() == 1 {
        parts[0]
    } else {
        join_spec(parts.drop_last(), sep) + sep + parts.last()
    }
}

/// Joins the parts with `sep` between neighbours.
pub fn join_chars(parts: &Vec<Vec<char>>, sep: &Vec<char>) -> (r: Vec<char>)
    ensures
        r@ == join_spec(views_of(parts@), sep@),
{
    let mut out: Vec<char> = Vec::new();
    let mut i: usize = 0;
    while i < parts.len()
        invariant
            i <= parts@.len(),
            out@ == join_spec(views_of(parts@).take(i as int), sep@),
        decreases parts@.len() - i,
    {
        if i > 0 {
            append_chars(&mut out, sep);
        }
        append_chars(&mut out, &parts[i]);
        proof {
            let v = views_of(parts@);
            assert(v.take(i + 1).drop_last() =~= v.take(i as int));
            assert(v.take(i + 1).last() == parts@[i as int]@);
            if i == 0 {
                assert(join_spec(v.take(1), sep@) == v.take(1)[0]);
                assert(out@ =~= v.take(1)[0]);
            } else {
                assert(out@ =~= join_spec(v.take(i as int), sep@) + sep@ + parts@[i as int]@);
            }
        }
        i = i + 1;
    }
    proof {
        assert(views_of(parts@).take(parts@.len() as int) =~= views_of(parts@));
    }
    out
}

} // verus!
