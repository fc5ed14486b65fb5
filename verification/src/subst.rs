//! Single-row template substitution: positional placeholders `{1}`, `{2}`, ...,
//! named placeholders `{A}`, `{B}`, ... and the legacy `{value}` form, applied
//! in that fixed order. Later passes run on the output of earlier passes.

use vstd::prelude::*;
use crate::chars::{
    str_to_chars, chars_to_string, replace_all, replace_all_spec, dec_chars, dec_spec,
    append_chars, views_of, str_views, strs_to_char_vecs,
};
use crate::escape::{escape_chars, escape_spec};

verus! {

/// The legacy single-value marker `{value}`.
pub open spec fn value_marker() -> Seq<char> {
    seq!['{', 'v', 'a', 'l', 'u', 'e', '}']
}

/// The positional marker `{n}` for the 1-based position `n`.
pub open spec fn placeholder_num(n: int) -> Seq<char> {
    seq!['{'] + dec_spec(n) + seq!['}']
}

/// The ASCII uppercase form of a character; other characters are unchanged.
pub open spec fn upper_char(c: char) -> char {
    if 'a' <= c && c <= 'z' {
        ((c as int) - 32) as char
    } else {
        c
    }
}

/// The ASCII uppercase form of a label.
pub open spec fn upper_seq(s: Seq<char>) -> Seq<char> {
    s.map_values(|c: char| upper_char(c))
}

/// The named marker `{LABEL}` for a column label, uppercased.
pub open spec fn placeholder_label(lbl: Seq<char>) -> Seq<char> {
    seq!['{'] + upper_seq(lbl) + seq!['}']
}

/// A value wrapped in single quotes.
pub open spec fn quoted(v: Seq<char>) -> Seq<char> {
    seq!['\''] + v + seq!['\'']
}

/// What a placeholder is replaced with: the escaped value, wrapped in single
/// quotes in the batch VALUES-list path and bare in the single-row path.
pub open spec fn rendered(v: Seq<char>, quote: bool) -> Seq<char> {
    if quote {
        quoted(escape_spec(v))
    } else {
        escape_spec(v)
    }
}

/// The template after the positional pass for positions 1 to `k`, applied in
/// increasing order.
pub open spec fn subst_positional(
    t: Seq<char>,
    vals: Seq<Seq<char>>,
    k: int,
    quote: bool,
) -> Seq<char>
    decreases k,
{
    if k <= 0 {
        t
    } else {
        replace_all_spec(
            subst_positional(t, vals, k - 1, quote),
            placeholder_num(k),
            rendered(vals[k - 1], quote),
        )
    }
}

/// The template after the named pass for the first `k` label/value pairs,
/// applied in label order.
pub open spec fn subst_named(
    t: Seq<char>,
    labels: Seq<Seq<char>>,
    vals: Seq<Seq<char>>,
    k: int,
    quote: bool,
) -> Seq<char>
    decreases k,
{
    if k <= 0 {
        t
    } else {
        replace_all_spec(
            subst_named(t, labels, vals, k - 1, quote),
            placeholder_label(labels[k - 1]),
            rendered(vals[k - 1], quote),
        )
    }
}

/// The template after the legacy pass: `{value}` is replaced only when the
/// row has exactly one value.
pub open spec fn subst_value(t: Seq<char>, vals: Seq<Seq<char>>, quote: bool) -> Seq<char> {
    if vals.len() == 1 {
        replace_all_spec(t, value_marker(), rendered(vals[0], quote))
    } else {
        t
    }
}

/// One row substituted into a template: the positional pass over all values,
/// then the named pass over the label/value pairs, then the legacy pass.
pub open spec fn substitute_spec(
    t: Seq<char>,
    vals: Seq<Seq<char>>,
    labels: Seq<Seq<char>>,
    quote: bool,
) -> Seq<char> {
    let m = if labels.len() <= vals.len() {
        labels.len() as int
    } else {
        vals.len() as int
    };
    subst_value(
        subst_named(subst_positional(t, vals, vals.len() as int, quote), labels, vals, m, quote),
        vals,
        quote,
    )
}

/// The characters of the `{value}` marker.
pub fn value_marker_chars() -> (r: Vec<char>)
    ensures
        r@ == value_marker(),
{
    let mut r: Vec<char> = Vec::new();
    r.push('{');
    r.push('v');
    r.push('a');
    r.push('l');
    r.push('u');
    r.push('e');
    r.push('}');
    proof {
        assert(r@ =~= value_marker());
    }
    r
}

/// The ASCII uppercase form of a label.
pub fn upper_chars(s: &Vec<char>) -> (r: Vec<char>)
    ensures
        r@ == upper_seq(s@),
{
    let mut r: Vec<char> = Vec::new();
    let mut i: usize = 0;
    proof {
        assert(r@ =~= upper_seq(s@.take(0)));
    }
    while i < s.len()
        invariant
            i <= s@.len(),
            r@ == upper_seq(s@.take(i as int)),
        decreases s@.len() - i,
    {
        let c = s[i];
        if 'a' <= c && c <= 'z' {
            r.push(((c as u8) - 32) as char);
        } else {
            r.push(c);
        }
        proof {
            assert(r@ =~= upper_seq(s@.take(i + 1)));
        }
        i = i + 1;
    }
    proof {
        assert(s@.take(s@.len() as int) =~= s@);
    }
    r
}

/// The `{n}` marker for the 1-based position `n`.
pub fn num_placeholder(n: usize) -> (r: Vec<char>)
    ensures
        r@ == placeholder_num(n as int),
        r@.len() > 0,
{
    let mut r: Vec<char> = Vec::new();
    r.push('{');
    let d = dec_chars(n);
    append_chars(&mut r, &d);
    r.push('}');
    proof {
        assert(r@ =~= placeholder_num(n as int));
    }
    r
}

/// The `{LABEL}` marker for a column label.
pub fn label_placeholder(lbl: &Vec<char>) -> (r: Vec<char>)
    ensures
        r@ == placeholder_label(lbl@),
        r@.len() > 0,
{
    let mut r: Vec<char> = Vec::new();
    r.push('{');
    let u = upper_chars(lbl);
    append_chars(&mut r, &u);
    r.push('}');
    proof {
        assert(r@ =~= placeholder_label(lbl@));
    }
    r
}

/// Escapes a value, and wraps it in single quotes when `quote` is set.
pub fn render_value(v: &Vec<char>, quote: bool) -> (r: Vec<char>)
    ensures
        r@ == rendered(v@, quote),
{
    let esc = escape_chars(v);
    if quote {
        let mut r: Vec<char> = Vec::new();
        r.push('\'');
        append_chars(&mut r, &esc);
        r.push('\'');
        proof {
            assert(r@ =~= quoted(escape_spec(v@)));
        }
        r
    } else {
        esc
    }
}

/// Applies the three substitution passes of one row to a template.
pub fn substitute_chars(
    t: &Vec<char>,
    vals: &Vec<Vec<char>>,
    labels: &Vec<Vec<char>>,
    quote: bool,
) -> (r: Vec<char>)
    ensures
        r@ == substitute_spec(t@, views_of(vals@), views_of(labels@), quote),
{
    let mut cur: Vec<char> = Vec::new();
    append_chars(&mut cur, t);
    proof {
        assert(cur@ =~= t@);
    }
    let mut k: usize = 0;
    while k < vals.len()
        invariant
            k <= vals@.len(),
            cur@ == subst_positional(t@, views_of(vals@), k as int, quote),
        decreases vals@.len() - k,
    {
        let ph = num_placeholder(k + 1);
        let rv = render_value(&vals[k], quote);
        cur = replace_all(&cur, &ph, &rv);
        proof {
            assert(views_of(vals@)[k as int] == vals@[k as int]@);
        }
        k = k + 1;
    }
    let m: usize = if labels.len() <= vals.len() {
        labels.len()
    } else {
        vals.len()
    };
    let mut j: usize = 0;
    let ghost t1 = subst_positional(t@, views_of(vals@), vals@.len() as int, quote);
    while j < m
        invariant
            j <= m,
            m == if labels@.len() <= vals@.len() {
                labels@.len()
            } else {
                vals@.len()
            },
            m <= labels@.len(),
            m <= vals@.len(),
            cur@ == subst_named(t1, views_of(labels@), views_of(vals@), j as int, quote),
        decreases m - j,
    {
        let ph = label_placeholder(&labels[j]);
        let rv = render_value(&vals[j], quote);
        cur = replace_all(&cur, &ph, &rv);
        proof {
            assert(views_of(labels@)[j as int] == labels@[j as int]@);
            assert(views_of(vals@)[j as int] == vals@[j as int]@);
        }
        j = j + 1;
    }
    if vals.len() == 1 {
        let vm = value_marker_chars();
        let rv = render_value(&vals[0], quote);
        proof {
            assert(vm@.len() == 7);
            assert(views_of(vals@)[0] == vals@[0]@);
        }
        cur = replace_all(&cur, &vm, &rv);
    }
    cur
}

/// Substitutes one raw value for every `{value}` marker in the template,
/// escaping it first.
pub fn generate_sql(template: &str, value: &str) -> (r: String)
    ensures
        r@ == replace_all_spec(template@, value_marker(), escape_spec(value@)),
{
    let t = str_to_chars(template);
    let v = str_to_chars(value);
    let esc = escape_chars(&v);
    let vm = value_marker_chars();
    proof {
        assert(vm@.len() == 7);
    }
    let out = replace_all(&t, &vm, &esc);
    chars_to_string(&out)
}

/// Substitutes one row of values into the template: positional `{1}`, `{2}`,
/// ... markers first, then named `{A}`, `{B}`, ... markers, then the legacy
/// `{value}` marker when the row has exactly one value. Values are escaped,
/// not quoted; unmatched markers stay verbatim.
pub fn generate_sql_multi(template: &str, row_values: &[String], column_names: &[String]) -> (r:
    String)
    ensures
        r@ == substitute_spec(template@, str_views(row_values@), str_views(column_names@), false),
{
    let t = str_to_chars(template);
    let vals = strs_to_char_vecs(row_values);
    let labels = strs_to_char_vecs(column_names);
    let out = substitute_chars(&t, &vals, &labels, false);
    chars_to_string(&out)
}

} // verus!
