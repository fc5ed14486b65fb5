//! Escaping of raw cell values for embedding inside single-quoted SQL string
//! literals: every single quote is doubled, and every backslash is doubled.

use vstd::prelude::*;
use crate::chars::{str_to_chars, chars_to_string};

verus! {

/// Whether `c` needs escaping inside a single-quoted SQL literal.
pub open spec fn is_special(c: char) -> bool {
    c == '\'' || c == '\\'
}

/// What a single character escapes to: quotes and backslashes are doubled,
/// everything else is kept as it is.
pub open spec fn escape_char(c: char) -> Seq<char> {
    if is_special(c) {
        seq![c, c]
    } else {
        seq![c]
    }
}

/// The escaped form of a raw value: each character escaped, in order.
pub open spec fn escape_spec(s: Seq<char>) -> Seq<char>
    decreases s.len(),
{
    if s.len() == 0 {
        Seq::<char>::empty()
    } else {
        escape_spec(s.drop_last()) + escape_char(s.last())
    }
}

/// The number of characters of `s` that escaping doubles.
pub open spec fn special_count(s: Seq<char>) -> int
    decreases s.len(),
{
    if s.len() == 0 {
        0
    } else {
        special_count(s.drop_last()) + if is_special(s.last()) {
            1int
        } else {
            0int
        }
    }
}

/// Escapes the characters of a raw value.
pub fn escape_chars(s: &Vec<char>) -> (r: Vec<char>)
    ensures
        r@ == escape_spec(s@),
{
    let mut out: Vec<char> = Vec::new();
    proof {
        assert(s@.take(0) =~= Seq::<char>::empty());
    }
    let mut i: usize = 0;
    while i < s.len()
        invariant
            i <= s@.len(),
            out@ == escape_spec(s@.take(i as int)),
        decreases s@.len() - i,
    {
        let c = s[i];
        if c == '\'' || c == '\\' {
            out.push(c);
            out.push(c);
        } else {
            out.push(c);
        }
        proof {
            assert(s@.take(i + 1).drop_last() =~= s@.take(i as int));
            assert(s@.take(i + 1).last() == s@[i as int]);
            assert(out@ =~= escape_spec(s@.take(i as int)) + escape_char(s@[i as int]));
        }
        i = i + 1;
    }
    proof {
        assert(s@.take(s@.len() as int) =~= s@);
    }
    out
}

/// Escapes a raw value so it can stand inside a single-quoted SQL string
/// literal. Total: every input is accepted.
pub fn escape_sql_string(value: &str) -> (r: String)
    ensures
        r@ == escape_spec(value@),
{
    let cs = str_to_chars(value);
    let escaped = escape_chars(&cs);
    chars_to_string(&escaped)
}

/// The special count is between zero and the length of the value.
pub proof fn lemma_special_count_bounds(s: Seq<char>)
    ensures
        0 <= special_count(s) <= s.len(),
    decreases s.len(),
{
    if s.len() > 0 {
        lemma_special_count_bounds(s.drop_last());
    }
}

/// Escaping grows a value by exactly the number of its special characters.
pub proof fn lemma_escape_len(s: Seq<char>)
    ensures
        escape_spec(s).len() == s.len() + special_count(s),
    decreases s.len(),
{
    if s.len() > 0 {
        lemma_escape_len(s.drop_last());
    }
}

/// The special count adds up over concatenation.
pub proof fn lemma_special_count_concat(a: Seq<char>, b: Seq<char>)
    ensures
        special_count(a + b) == special_count(a) + special_count(b),
    decreases b.len(),
{
    if b.len() == 0 {
        assert(a + b =~= a);
    } else {
        lemma_special_count_concat(a, b.drop_last());
        assert((a + b).drop_last() =~= a + b.drop_last());
        assert((a + b).last() == b.last());
    }
}

/// The special count of a single character.
proof fn lemma_special_count_single(c: char)
    ensures
        special_count(seq![c]) == if is_special(c) {
            1int
        } else {
            0int
        },
{
    assert(seq![c].drop_last() =~= Seq::<char>::empty());
    assert(special_count(Seq::<char>::empty()) == 0);
    assert(seq![c].last() == c);
}

/// Escaping a value doubles its special count: each quote or backslash comes
/// out twice, and no other character becomes special.
pub proof fn lemma_escape_special_count(s: Seq<char>)
    ensures
        special_count(escape_spec(s)) == 2 * special_count(s),
    decreases s.len(),
{
    if s.len() > 0 {
        let c = s.last();
        lemma_escape_special_count(s.drop_last());
        lemma_special_count_concat(escape_spec(s.drop_last()), escape_char(s.last()));
        lemma_special_count_single(c);
        if is_special(c) {
            lemma_special_count_concat(seq![c], seq![c]);
            assert(seq![c, c] =~= seq![c] + seq![c]);
            assert(special_count(seq![c, c]) == 2);
        }
    }
}

/// On a value without quotes or backslashes, escaping is the identity.
pub proof fn lemma_escape_identity(s: Seq<char>)
    requires
        special_count(s) == 0,
    ensures
        escape_spec(s) == s,
    decreases s.len(),
{
    if s.len() == 0 {
        assert(escape_spec(s) =~= s);
    } else {
        lemma_special_count_bounds(s.drop_last());
        lemma_escape_identity(s.drop_last());
        assert(!is_special(s.last()));
        assert(escape_spec(s) =~= s.drop_last() + seq![s.last()]);
        assert(s.drop_last() + seq![s.last()] =~= s);
    }
}

/// Escaping is not idempotent: re-escaping a value that holds at least one
/// quote or backslash escapes it again and yields a strictly longer text.
pub proof fn lemma_escape_not_idempotent(s: Seq<char>)
    requires
        special_count(s) > 0,
    ensures
        escape_spec(escape_spec(s)) != escape_spec(s),
        escape_spec(escape_spec(s)).len() == escape_spec(s).len() + 2 * special_count(s),
{
    lemma_escape_len(s);
    lemma_escape_special_count(s);
    lemma_escape_len(escape_spec(s));
    assert(escape_spec(escape_spec(s)).len() != escape_spec(s).len());
}

} // verus!
