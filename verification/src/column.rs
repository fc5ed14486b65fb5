//! Spreadsheet-style column labels ("A", "B", ..., "Z", "AA", ...) read as
//! bijective base-26 numbers and converted to zero-based column indices.

use vstd::prelude::*;
use crate::chars::str_to_chars;
use crate::SqlGenError;

verus! {

/// Whether `c` is an ASCII letter, of either case.
pub open spec fn is_ascii_letter(c: char) -> bool {
    ('A' <= c && c <= 'Z') || ('a' <= c && c <= 'z')
}

/// The digit value of a letter in bijective base-26, case-insensitive:
/// A and a count 1, Z and z count 26. Non-letters count 0.
pub open spec fn letter_val(c: char) -> int {
    if 'A' <= c && c <= 'Z' {
        c as int - 'A' as int + 1
    } else if 'a' <= c && c <= 'z' {
        c as int - 'a' as int + 1
    } else {
        0
    }
}

/// Whether every character of the label is an ASCII letter.
pub open spec fn valid_label(s: Seq<char>) -> bool {
    forall|i: int| 0 <= i < s.len() ==> is_ascii_letter(s[i])
}

/// The bijective base-26 value of a label: the empty label counts 0,
/// "A" counts 1, "Z" counts 26, "AA" counts 27.
pub open spec fn label_val(s: Seq<char>) -> int
    decreases s.len(),
{
    if s.len() == 0 {
        0
    } else {
        label_val(s.drop_last()) * 26 + letter_val(s.last())
    }
}

/// The zero-based column index of a label: its bijective base-26 value less
/// one, held at zero for the empty label.
pub open spec fn resolve_spec(s: Seq<char>) -> int {
    if label_val(s) >= 1 {
        label_val(s) - 1
    } else {
        0
    }
}

/// The largest bijective base-26 value of any valid label of length `n`.
pub open spec fn max_label_val(n: int) -> int
    decreases n,
{
    if n <= 0 {
        0
    } else {
        max_label_val(n - 1) * 26 + 26
    }
}

/// A valid label's value is bounded by the largest value of its length.
pub proof fn lemma_label_val_bounds(s: Seq<char>)
    requires
        valid_label(s),
    ensures
        0 <= label_val(s) <= max_label_val(s.len() as int),
    decreases s.len(),
{
    if s.len() > 0 {
        assert(valid_label(s.drop_last()));
        lemma_label_val_bounds(s.drop_last());
        assert(1 <= letter_val(s.last()) <= 26);
    }
}

/// Converts a column label to a zero-based column index: "A" and "a" to 0,
/// "Z" to 25, "AA" to 26, "AB" to 27. Returns an error exactly when some
/// character of the label is not an ASCII letter.
pub fn column_letter_to_index(column: &str) -> (r: Result<usize, SqlGenError>)
    requires
        column@.len() <= 6,
    ensures
        r is Ok <==> valid_label(column@),
        r matches Ok(i) ==> i == resolve_spec(column@),
        r matches Err(e) ==> e == SqlGenError::InvalidColumnLabel,
{
    let cs = str_to_chars(column);
    proof {
        assert(cs@.take(0) =~= Seq::<char>::empty());
        reveal_with_fuel(max_label_val, 7);
        assert(max_label_val(6) == 321272406);
    }
    let mut acc: usize = 0;
    let mut i: usize = 0;
    while i < cs.len()
        invariant
            cs@ == column@,
            cs@.len() <= 6,
            i <= cs@.len(),
            valid_label(cs@.take(i as int)),
            acc == label_val(cs@.take(i as int)),
            acc <= max_label_val(i as int),
            max_label_val(6) == 321272406,
        decreases cs@.len() - i,
    {
        let c = cs[i];
        let v: usize;
        if 'A' <= c && c <= 'Z' {
            v = (c as usize) - ('A' as usize) + 1;
        } else if 'a' <= c && c <= 'z' {
            v = (c as usize) - ('a' as usize) + 1;
        } else {
            proof {
                assert(!is_ascii_letter(cs@[i as int]));
                assert(!valid_label(column@));
            }
            return Err(SqlGenError::InvalidColumnLabel);
        }
        proof {
            assert(v == letter_val(cs@[i as int]));
            assert(cs@.take(i + 1).drop_last() =~= cs@.take(i as int));
            assert(cs@.take(i + 1).last() == cs@[i as int]);
            assert(max_label_val(i as int) * 26 + 26 == max_label_val(i + 1));
            assert(max_label_val(i + 1) <= max_label_val(6)) by {
                reveal_with_fuel(max_label_val, 7);
            }
        }
        acc = acc * 26 + v;
        i = i + 1;
    }
    proof {
        assert(cs@.take(cs@.len() as int) =~= cs@);
    }
    if acc >= 1 {
        Ok(acc - 1)
    } else {
        Ok(acc)
    }
}

/// Whether every character of the label is an uppercase ASCII letter: the
/// canonical form of a label.
pub open spec fn canonical_label(s: Seq<char>) -> bool {
    forall|i: int| 0 <= i < s.len() ==> 'A' <= #[trigger] s[i] <= 'Z'
}

/// A non-empty valid label has a value of at least one.
pub proof fn lemma_label_val_pos(s: Seq<char>)
    requires
        valid_label(s),
        s.len() > 0,
    ensures
        label_val(s) >= 1,
{
    assert(valid_label(s.drop_last()));
    lemma_label_val_bounds(s.drop_last());
    assert(is_ascii_letter(s.last()));
    assert(letter_val(s.last()) >= 1);
}

/// Two non-empty canonical labels with the same index are the same label:
/// `resolve` is injective on non-empty uppercase labels.
pub proof fn lemma_resolve_injective(s1: Seq<char>, s2: Seq<char>)
    requires
        canonical_label(s1),
        canonical_label(s2),
        s1.len() > 0,
        s2.len() > 0,
        resolve_spec(s1) == resolve_spec(s2),
    ensures
        s1 == s2,
    decreases s1.len(),
{
    assert(valid_label(s1));
    assert(valid_label(s2));
    lemma_label_val_pos(s1);
    lemma_label_val_pos(s2);
    assert(label_val(s1) == label_val(s2));
    let a = label_val(s1.drop_last());
    let b = label_val(s2.drop_last());
    let d1 = letter_val(s1.last());
    let d2 = letter_val(s2.last());
    assert(valid_label(s1.drop_last()));
    assert(valid_label(s2.drop_last()));
    lemma_label_val_bounds(s1.drop_last());
    lemma_label_val_bounds(s2.drop_last());
    assert(1 <= d1 <= 26);
    assert(1 <= d2 <= 26);
    assert(a == b && d1 == d2) by (nonlinear_arith)
        requires
            a * 26 + d1 == b * 26 + d2,
            1 <= d1 <= 26,
            1 <= d2 <= 26,
            a >= 0,
            b >= 0,
    ;
    assert(s1.last() as int == s2.last() as int);
    assert(s1.last() == s2.last());
    if s1.len() == 1 {
        if s2.len() > 1 {
            lemma_label_val_pos(s2.drop_last());
        }
        assert(s1 =~= s2);
    } else if s2.len() == 1 {
        lemma_label_val_pos(s1.drop_last());
        assert(s1 =~= s2);
    } else {
        lemma_label_val_pos(s1.drop_last());
        lemma_resolve_injective(s1.drop_last(), s2.drop_last());
        assert(s1 =~= s1.drop_last().push(s1.last()));
        assert(s2 =~= s2.drop_last().push(s2.last()));
        assert(s1 =~= s2);
    }
}

/// The uppercase letter with the given bijective base-26 digit value.
pub open spec fn letter_of(d: int) -> char {
    if d == 1 {
        'A'
    } else if d == 2 {
        'B'
    } else if d == 3 {
        'C'
    } else if d == 4 {
        'D'
    } else if d == 5 {
        'E'
    } else if d == 6 {
        'F'
    } else if d == 7 {
        'G'
    } else if d == 8 {
        'H'
    } else if d == 9 {
        'I'
    } else if d == 10 {
        'J'
    } else if d == 11 {
        'K'
    } else if d == 12 {
        'L'
    } else if d == 13 {
        'M'
    } else if d == 14 {
        'N'
    } else if d == 15 {
        'O'
    } else if d == 16 {
        'P'
    } else if d == 17 {
        'Q'
    } else if d == 18 {
        'R'
    } else if d == 19 {
        'S'
    } else if d == 20 {
        'T'
    } else if d == 21 {
        'U'
    } else if d == 22 {
        'V'
    } else if d == 23 {
        'W'
    } else if d == 24 {
        'X'
    } else if d == 25 {
        'Y'
    } else {
        'Z'
    }
}

/// The canonical label with the given positive bijective base-26 value; the
/// empty label for zero and below.
pub open spec fn label_of(n: int) -> Seq<char>
    decreases n,
    when n >= 0
    via label_of_decreases
{
    if n <= 0 {
        Seq::<char>::empty()
    } else {
        label_of((n - (((n - 1) % 26) + 1)) / 26) + seq![letter_of(((n - 1) % 26) + 1)]
    }
}

#[via_fn]
proof fn label_of_decreases(n: int) {
    if n > 0 {
        vstd::arithmetic::div_mod::lemma_mod_pos_bound(n - 1, 26);
        let d = ((n - 1) % 26) + 1;
        assert(1 <= d <= 26);
        vstd::arithmetic::div_mod::lemma_mod_decreases((n - 1) as nat, 26nat);
        assert(n - d >= 0);
        vstd::arithmetic::div_mod::lemma_div_pos_is_pos(n - d, 26);
        vstd::arithmetic::div_mod::lemma_div_nonincreasing(n - d, 26);
        assert((n - d) / 26 < n);
    }
}

/// The label built for a positive value is canonical, non-empty, and has
/// exactly that value.
proof fn lemma_label_of_val(n: int)
    requires
        n >= 1,
    ensures
        canonical_label(label_of(n)),
        label_of(n).len() > 0,
        label_val(label_of(n)) == n,
    decreases n,
{
    vstd::arithmetic::div_mod::lemma_mod_pos_bound(n - 1, 26);
    vstd::arithmetic::div_mod::lemma_fundamental_div_mod(n - 1, 26);
    let q = (n - 1) / 26;
    let r = (n - 1) % 26;
    let d = r + 1;
    assert(1 <= d <= 26);
    assert(n - d == 26 * q);
    assert(26 * q == q * 26) by (nonlinear_arith);
    vstd::arithmetic::div_mod::lemma_fundamental_div_mod_converse(26 * q, 26, q, 0);
    let rest = (n - d) / 26;
    assert(rest == q);
    vstd::arithmetic::div_mod::lemma_mod_decreases((n - 1) as nat, 26nat);
    vstd::arithmetic::div_mod::lemma_div_pos_is_pos(n - d, 26);
    vstd::arithmetic::div_mod::lemma_div_nonincreasing(n - d, 26);
    let s = label_of(n);
    assert(s == label_of(rest) + seq![letter_of(d)]);
    assert(letter_val(letter_of(d)) == d);
    assert('A' <= letter_of(d) <= 'Z');
    if rest > 0 {
        lemma_label_of_val(rest);
    } else {
        assert(label_of(0) =~= Seq::<char>::empty());
    }
    assert(s.drop_last() =~= label_of(rest));
    assert(s.last() == letter_of(d));
    assert(label_val(s) == label_val(label_of(rest)) * 26 + d);
    assert(label_val(label_of(rest)) == rest);
    assert(rest * 26 == 26 * rest) by (nonlinear_arith);
    assert(label_val(s) == 26 * q + r + 1);
    assert forall|i: int| 0 <= i < s.len() implies 'A' <= #[trigger] s[i] <= 'Z' by {
        if i < s.len() - 1 {
            assert(s[i] == label_of(rest)[i]);
        } else {
            assert(s[i] == letter_of(d));
        }
    }
}

/// Every non-negative index is the index of exactly one canonical label:
/// together with injectivity, `resolve` is a bijection from non-empty
/// uppercase labels onto the non-negative integers.
pub proof fn lemma_resolve_surjective(n: int)
    requires
        n >= 0,
    ensures
        canonical_label(label_of(n + 1)),
        label_of(n + 1).len() > 0,
        resolve_spec(label_of(n + 1)) == n,
{
    lemma_label_of_val(n + 1);
}

} // verus!
