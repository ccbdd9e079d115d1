//! Character-sequence helpers shared by the endpoint parser: decimal digit
//! strings, first occurrence of a separator, and splitting on a separator.

use vstd::prelude::*;

verus! {

/// True of the ASCII decimal digits.
pub open spec fn is_digit(c: char) -> bool {
    '0' <= c && c <= '9'
}

/// Numeric value of a decimal digit.
pub open spec fn digit_val(c: char) -> int {
    c as int - '0' as int
}

/// True when every character of `s` is a decimal digit.
pub open spec fn all_digits(s: Seq<char>) -> bool {
    forall|i: int| 0 <= i < s.len() ==> is_digit(s[i])
}

/// Value of a decimal digit string, most significant digit first.
pub open spec fn dec_val(s: Seq<char>) -> int
    decreases s.len(),
{
    if s.len() == 0 {
        0
    } else {
        dec_val(s.drop_last()) * 10 + digit_val(s.last())
    }
}

pub proof fn lemma_dec_val_nonneg(s: Seq<char>)
    requires
        all_digits(s),
    ensures
        dec_val(s) >= 0,
    decreases s.len(),
{
    if s.len() > 0 {
        assert(all_digits(s.drop_last()));
        lemma_dec_val_nonneg(s.drop_last());
    }
}

/// Index of the earliest occurrence of `a` or `b` in `s`, or `s.len()` if
/// neither occurs.
pub open spec fn find_first2(s: Seq<char>, a: char, b: char) -> int
    decreases s.len(),
{
    if s.len() == 0 {
        0
    } else if s[0] == a || s[0] == b {
        0
    } else {
        1 + find_first2(s.drop_first(), a, b)
    }
}

pub proof fn lemma_find_first2_bounds(s: Seq<char>, a: char, b: char)
    ensures
        0 <= find_first2(s, a, b) <= s.len(),
        forall|k: int| 0 <= k < find_first2(s, a, b) ==> s[k] != a && s[k] != b,
        find_first2(s, a, b) < s.len() ==> (s[find_first2(s, a, b)] == a || s[find_first2(s, a, b)]
            == b),
    decreases s.len(),
{
    if s.len() > 0 && s[0] != a && s[0] != b {
        lemma_find_first2_bounds(s.drop_first(), a, b);
        assert forall|k: int| 0 <= k < find_first2(s, a, b) implies s[k] != a && s[k] != b by {
            if k > 0 {
                assert(s.drop_first()[k - 1] == s[k]);
            }
        }
    }
}

/// The earliest occurrence is exactly the index an exec scan stops at.
pub proof fn lemma_find_first2_is(s: Seq<char>, a: char, b: char, i: int)
    requires
        0 <= i <= s.len(),
        forall|k: int| 0 <= k < i ==> s[k] != a && s[k] != b,
        i < s.len() ==> (s[i] == a || s[i] == b),
    ensures
        find_first2(s, a, b) == i,
{
    lemma_find_first2_bounds(s, a, b);
    let f = find_first2(s, a, b);
    if f < i {
        assert(s[f] == a || s[f] == b);
    }
    if f > i {
        assert(i < s.len());
    }
}

/// Split of `s` on `sep`: the fields between the separators, in order,
/// empty fields included.  A string without a separator is one field.
pub open spec fn split_chars(s: Seq<char>, sep: char) -> Seq<Seq<char>>
    decreases s.len(),
{
    if s.len() == 0 {
        seq![Seq::<char>::empty()]
    } else if s[0] == sep {
        seq![Seq::<char>::empty()].add(split_chars(s.drop_first(), sep))
    } else {
        let rest = split_chars(s.drop_first(), sep);
        seq![seq![s[0]].add(rest[0])].add(rest.drop_first())
    }
}

pub proof fn lemma_split_len(s: Seq<char>, sep: char)
    ensures
        split_chars(s, sep).len() >= 1,
    decreases s.len(),
{
    if s.len() > 0 {
        lemma_split_len(s.drop_first(), sep);
    }
}

/// A string without the separator is a single field: itself.
pub proof fn lemma_split_none(s: Seq<char>, sep: char)
    requires
        forall|k: int| 0 <= k < s.len() ==> s[k] != sep,
    ensures
        split_chars(s, sep) =~~= seq![s],
    decreases s.len(),
{
    if s.len() == 0 {
        assert(split_chars(s, sep) =~~= seq![s]);
    } else {
        assert(s[0] != sep);
        let t = s.drop_first();
        assert(forall|k: int| 0 <= k < t.len() ==> t[k] == s[k + 1] && t[k] != sep);
        lemma_split_none(t, sep);
        let rest = split_chars(t, sep);
        assert(rest =~~= seq![t]);
        assert(seq![s[0]].add(rest[0]) =~= s);
        assert(split_chars(s, sep) =~~= seq![s]);
    }
}

/// Splitting at the first separator: one field, the separator, the rest.
pub proof fn lemma_split_at_sep(a: Seq<char>, b: Seq<char>, sep: char)
    requires
        forall|k: int| 0 <= k < a.len() ==> a[k] != sep,
    ensures
        split_chars(a + seq![sep] + b, sep) =~~= seq![a] + split_chars(b, sep),
    decreases a.len(),
{
    let s = a + seq![sep] + b;
    if a.len() == 0 {
        assert(s[0] == sep);
        assert(s.drop_first() =~= b);
        assert(split_chars(s, sep) =~~= seq![Seq::<char>::empty()].add(split_chars(b, sep)));
        assert(seq![a] + split_chars(b, sep) =~~= seq![Seq::<char>::empty()].add(
            split_chars(b, sep),
        ));
    } else {
        assert(s[0] == a[0]);
        assert(s[0] != sep);
        let t = a.drop_first();
        assert(forall|k: int| 0 <= k < t.len() ==> t[k] == a[k + 1] && t[k] != sep);
        assert(s.drop_first() =~= t + seq![sep] + b);
        lemma_split_at_sep(t, b, sep);
        let rest = split_chars(s.drop_first(), sep);
        assert(rest =~~= seq![t] + split_chars(b, sep));
        lemma_split_len(b, sep);
        assert(rest[0] =~= t);
        assert(seq![s[0]].add(rest[0]) =~= a);
        assert(rest.drop_first() =~~= split_chars(b, sep));
        assert(split_chars(s, sep) =~~= seq![a] + split_chars(b, sep));
    }
}

/// Number of occurrences of `c` in `s`.
pub open spec fn count_char(s: Seq<char>, c: char) -> int
    decreases s.len(),
{
    if s.len() == 0 {
        0
    } else {
        (if s[0] == c {
            1int
        } else {
            0int
        }) + count_char(s.drop_first(), c)
    }
}

/// A split has one more field than the string has separators.
pub proof fn lemma_split_count(s: Seq<char>, sep: char)
    ensures
        split_chars(s, sep).len() == 1 + count_char(s, sep),
    decreases s.len(),
{
    if s.len() > 0 {
        lemma_split_count(s.drop_first(), sep);
        lemma_split_len(s.drop_first(), sep);
    }
}

pub proof fn lemma_count_char_nonneg(s: Seq<char>, c: char)
    ensures
        count_char(s, c) >= 0,
    decreases s.len(),
{
    if s.len() > 0 {
        lemma_count_char_nonneg(s.drop_first(), c);
    }
}

/// A string holding `c` somewhere holds at least one occurrence of it.
pub proof fn lemma_count_char_pos(s: Seq<char>, c: char, k: int)
    requires
        0 <= k < s.len(),
        s[k] == c,
    ensures
        count_char(s, c) >= 1,
    decreases s.len(),
{
    lemma_count_char_nonneg(s.drop_first(), c);
    if s[0] != c {
        assert(s.drop_first()[k - 1] == c);
        lemma_count_char_pos(s.drop_first(), c, k - 1);
    }
}

} // verus!
