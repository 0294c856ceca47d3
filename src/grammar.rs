//! The textual grammar of a single version constraint, stated over character
//! sequences, with an executable scanner for each of its parts.
use vstd::prelude::*;
use crate::field::{Operator, VersionField};
use crate::text::{digits_value, digit_value, is_digit};

verus! {

pub open spec fn is_space(c: char) -> bool {
    c == ' ' || c == '\t' || c == '\n' || c == '\r'
}

/// Characters allowed in a pre-release or build label.
pub open spec fn is_label_char(c: char) -> bool {
    (48 <= c as u32 <= 57) || (65 <= c as u32 <= 90) || (97 <= c as u32 <= 122) || c == '.'
        || c == '-'
}

pub open spec fn trim_start(s: Seq<char>) -> Seq<char>
    decreases s.len(),
{
    if s.len() > 0 && is_space(s[0]) {
        trim_start(s.drop_first())
    } else {
        s
    }
}

pub open spec fn trim_end(s: Seq<char>) -> Seq<char>
    decreases s.len(),
{
    if s.len() > 0 && is_space(s.last()) {
        trim_end(s.drop_last())
    } else {
        s
    }
}

/// `s` without leading and trailing white space.
pub open spec fn trim(s: Seq<char>) -> Seq<char> {
    trim_end(trim_start(s))
}

/// Number of consecutive digits in `t` from position `i`.
pub open spec fn digit_run(t: Seq<char>, i: int) -> nat
    decreases t.len() - i,
{
    if 0 <= i < t.len() && is_digit(t[i]) {
        1 + digit_run(t, i + 1)
    } else {
        0
    }
}

/// Number of consecutive label characters in `t` from position `i`.
pub open spec fn label_run(t: Seq<char>, i: int) -> nat
    decreases t.len() - i,
{
    if 0 <= i < t.len() && is_label_char(t[i]) {
        1 + label_run(t, i + 1)
    } else {
        0
    }
}

/// The operator that `t` starts with, and where the rest begins; no symbol
/// means equality.
pub open spec fn op_prefix(t: Seq<char>) -> (Operator, int) {
    if t.len() >= 2 && t[0] == '>' && t[1] == '=' {
        (Operator::GreaterThanOrEqual, 2)
    } else if t.len() >= 2 && t[0] == '<' && t[1] == '=' {
        (Operator::LessThanOrEqual, 2)
    } else if t.len() >= 1 && t[0] == '>' {
        (Operator::GreaterThan, 1)
    } else if t.len() >= 1 && t[0] == '<' {
        (Operator::LessThan, 1)
    } else if t.len() >= 1 && t[0] == '=' {
        (Operator::Equal, 1)
    } else if t.len() >= 1 && t[0] == '^' {
        (Operator::Caret, 1)
    } else if t.len() >= 1 && t[0] == '~' {
        (Operator::Tilde, 1)
    } else {
        (Operator::Equal, 0)
    }
}

/// A field at position `i` (`x`, `*`, or a number that fits in 64 bits) and
/// the position after it.
pub open spec fn field_at(t: Seq<char>, i: int) -> Option<(VersionField, int)> {
    if 0 <= i < t.len() && (t[i] == 'x' || t[i] == '*') {
        Some((VersionField::Wildcard, i + 1))
    } else if digit_run(t, i) == 0 {
        None
    } else if digits_value(t.subrange(i, i + digit_run(t, i))) > u64::MAX {
        None
    } else {
        Some(
            (
                VersionField::Exact(digits_value(t.subrange(i, i + digit_run(t, i))) as u64),
                i + digit_run(t, i),
            ),
        )
    }
}

/// An optional `.field` at position `i`; when no dot stands there the field
/// is a wildcard and nothing is consumed.
pub open spec fn dotted_field(t: Seq<char>, i: int) -> Option<(VersionField, int)> {
    if 0 <= i < t.len() && t[i] == '.' {
        field_at(t, i + 1)
    } else {
        Some((VersionField::Wildcard, i))
    }
}

/// An optional label introduced by `mark` at position `i`: the mark and a
/// nonempty run of label characters.
pub open spec fn labelled(t: Seq<char>, i: int, mark: char) -> Option<(Option<Seq<char>>, int)> {
    if 0 <= i < t.len() && t[i] == mark {
        if label_run(t, i + 1) == 0 {
            None
        } else {
            Some((Some(t.subrange(i + 1, i + 1 + label_run(t, i + 1))), i + 1 + label_run(t, i + 1)))
        }
    } else {
        Some((None, i))
    }
}

pub fn is_space_exec(c: char) -> (r: bool)
    ensures
        r == is_space(c),
{
    c == ' ' || c == '\t' || c == '\n' || c == '\r'
}

pub fn is_digit_exec(c: char) -> (r: bool)
    ensures
        r == is_digit(c),
{
    let u = c as u32;
    48 <= u && u <= 57
}

pub fn is_label_char_exec(c: char) -> (r: bool)
    ensures
        r == is_label_char(c),
{
    let u = c as u32;
    (48 <= u && u <= 57) || (65 <= u && u <= 90) || (97 <= u && u <= 122) || c == '.' || c == '-'
}

/// The characters of `s` without leading and trailing white space.
pub fn trim_chars(s: &Vec<char>) -> (r: Vec<char>)
    ensures
        r@ == trim(s@),
{
    let n = s.len();
    let mut a: usize = 0;
    assert(s@.subrange(0, n as int) =~= s@);
    while a < n && is_space_exec(s[a])
        invariant
            a <= n == s@.len(),
            trim_start(s@.subrange(a as int, n as int)) == trim_start(s@),
        decreases n - a,
    {
        assert(s@.subrange(a as int, n as int).drop_first() =~= s@.subrange(a + 1, n as int));
        a = a + 1;
    }
    assert(trim_start(s@.subrange(a as int, n as int)) == s@.subrange(a as int, n as int));
    let mut b: usize = n;
    while b > a && is_space_exec(s[b - 1])
        invariant
            a <= b <= n == s@.len(),
            trim_end(s@.subrange(a as int, b as int)) == trim(s@),
        decreases b,
    {
        assert(s@.subrange(a as int, b as int).drop_last() =~= s@.subrange(a as int, b - 1));
        b = b - 1;
    }
    let mut r: Vec<char> = Vec::new();
    let mut k: usize = a;
    while k < b
        invariant
            a <= k <= b <= n == s@.len(),
            r@ == s@.subrange(a as int, k as int),
        decreases b - k,
    {
        r.push(s[k]);
        k = k + 1;
        assert(r@ =~= s@.subrange(a as int, k as int));
    }
    r
}

/// Length of the run of digits in `t` from `i`.
pub fn digit_run_exec(t: &Vec<char>, i: usize) -> (r: usize)
    requires
        i <= t@.len(),
    ensures
        r == digit_run(t@, i as int),
        i + r <= t@.len(),
{
    let mut j: usize = i;
    while j < t.len() && is_digit_exec(t[j])
        invariant
            i <= j <= t@.len(),
            digit_run(t@, i as int) == (j - i) + digit_run(t@, j as int),
        decreases t@.len() - j,
    {
        j = j + 1;
    }
    j - i
}

/// Length of the run of label characters in `t` from `i`.
pub fn label_run_exec(t: &Vec<char>, i: usize) -> (r: usize)
    requires
        i <= t@.len(),
    ensures
        r == label_run(t@, i as int),
        i + r <= t@.len(),
{
    let mut j: usize = i;
    while j < t.len() && is_label_char_exec(t[j])
        invariant
            i <= j <= t@.len(),
            label_run(t@, i as int) == (j - i) + label_run(t@, j as int),
        decreases t@.len() - j,
    {
        j = j + 1;
    }
    j - i
}

/// A prefix of digits is worth no more than the whole run.
pub proof fn lemma_digits_prefix(s: Seq<char>, m: int)
    requires
        0 <= m <= s.len(),
    ensures
        digits_value(s.subrange(0, m)) <= digits_value(s),
    decreases s.len(),
{
    if m == s.len() {
        assert(s.subrange(0, m) =~= s);
    } else {
        lemma_digits_prefix(s.drop_last(), m);
        assert(s.drop_last().subrange(0, m) =~= s.subrange(0, m));
    }
}

/// The value of the digits `t[a..b]`, or `None` when it exceeds 64 bits.
pub fn digits_value_exec(t: &Vec<char>, a: usize, b: usize) -> (r: Option<u64>)
    requires
        a <= b <= t@.len(),
        forall|k: int| a <= k < b ==> is_digit(#[trigger] t@[k]),
    ensures
        match r {
            Some(v) => v as nat == digits_value(t@.subrange(a as int, b as int)),
            None => digits_value(t@.subrange(a as int, b as int)) > u64::MAX,
        },
{
    let mut acc: u64 = 0;
    let mut k: usize = a;
    while k < b
        invariant
            a <= k <= b <= t@.len(),
            forall|j: int| a <= j < b ==> is_digit(#[trigger] t@[j]),
            acc as nat == digits_value(t@.subrange(a as int, k as int)),
        decreases b - k,
    {
        let d = (t[k] as u32 - 48) as u64;
        assert(t@.subrange(a as int, k + 1).drop_last() =~= t@.subrange(a as int, k as int));
        assert(d as nat == digit_value(t@[k as int]));
        let next = match acc.checked_mul(10) {
            Some(m) => m.checked_add(d),
            None => None,
        };
        match next {
            Some(v) => {
                acc = v;
                k = k + 1;
            },
            None => {
                proof {
                    let whole = t@.subrange(a as int, b as int);
                    assert(whole.subrange(0, k + 1 - a) =~= t@.subrange(a as int, k + 1));
                    lemma_digits_prefix(whole, k + 1 - a);
                }
                return None;
            },
        }
    }
    Some(acc)
}

/// Scans a field at `i`, as `field_at` describes.
pub fn field_at_exec(t: &Vec<char>, i: usize) -> (r: Option<(VersionField, usize)>)
    requires
        i <= t@.len(),
    ensures
        match r {
            Some((f, j)) => field_at(t@, i as int) == Some((f, j as int)) && j <= t@.len(),
            None => field_at(t@, i as int) is None,
        },
{
    if i < t.len() && (t[i] == 'x' || t[i] == '*') {
        return Some((VersionField::Wildcard, i + 1));
    }
    let n = digit_run_exec(t, i);
    if n == 0 {
        return None;
    }
    proof {
        assert forall|k: int| i <= k < i + n implies is_digit(#[trigger] t@[k]) by {
            lemma_run_digits(t@, i as int, k);
        }
    }
    match digits_value_exec(t, i, i + n) {
        Some(v) => Some((VersionField::Exact(v), i + n)),
        None => None,
    }
}

/// Every position inside a digit run holds a digit.
pub proof fn lemma_run_digits(t: Seq<char>, i: int, k: int)
    requires
        i <= k < i + digit_run(t, i),
    ensures
        is_digit(t[k]),
    decreases k - i,
{
    if k > i {
        lemma_run_digits(t, i + 1, k);
    }
}

/// Scans an optional `.field` at `i`, as `dotted_field` describes.
pub fn dotted_field_exec(t: &Vec<char>, i: usize) -> (r: Option<(VersionField, usize)>)
    requires
        i <= t@.len(),
    ensures
        match r {
            Some((f, j)) => dotted_field(t@, i as int) == Some((f, j as int)) && j <= t@.len(),
            None => dotted_field(t@, i as int) is None,
        },
{
    if i < t.len() && t[i] == '.' {
        field_at_exec(t, i + 1)
    } else {
        Some((VersionField::Wildcard, i))
    }
}

/// The characters `t[a..b]` as a `String`.
pub fn string_of_range(t: &Vec<char>, a: usize, b: usize) -> (r: String)
    requires
        a <= b <= t@.len(),
    ensures
        r@ == t@.subrange(a as int, b as int),
{
    let mut s = String::new();
    let mut k: usize = a;
    while k < b
        invariant
            a <= k <= b <= t@.len(),
            s@ == t@.subrange(a as int, k as int),
        decreases b - k,
    {
        crate::text::push_char(&mut s, t[k]);
        k = k + 1;
        assert(s@ =~= t@.subrange(a as int, k as int));
    }
    s
}

/// Scans an optional label introduced by `mark` at `i`, as `labelled` describes.
pub fn labelled_exec(t: &Vec<char>, i: usize, mark: char) -> (r: Option<(Option<String>, usize)>)
    requires
        i <= t@.len(),
    ensures
        match r {
            Some((l, j)) => j <= t@.len() && labelled(t@, i as int, mark) == Some(
                (crate::text::label_view(l), j as int),
            ),
            None => labelled(t@, i as int, mark) is None,
        },
{
    if i < t.len() && t[i] == mark {
        let n = label_run_exec(t, i + 1);
        if n == 0 {
            None
        } else {
            let s = string_of_range(t, i + 1, i + 1 + n);
            Some((Some(s), i + 1 + n))
        }
    } else {
        Some((None, i))
    }
}

/// The operator at the start of `t`, as `op_prefix` describes.
pub fn op_prefix_exec(t: &Vec<char>) -> (r: (Operator, usize))
    ensures
        op_prefix(t@) == (r.0, r.1 as int),
        r.1 <= t@.len(),
{
    let n = t.len();
    if n >= 2 && t[0] == '>' && t[1] == '=' {
        (Operator::GreaterThanOrEqual, 2)
    } else if n >= 2 && t[0] == '<' && t[1] == '=' {
        (Operator::LessThanOrEqual, 2)
    } else if n >= 1 && t[0] == '>' {
        (Operator::GreaterThan, 1)
    } else if n >= 1 && t[0] == '<' {
        (Operator::LessThan, 1)
    } else if n >= 1 && t[0] == '=' {
        (Operator::Equal, 1)
    } else if n >= 1 && t[0] == '^' {
        (Operator::Caret, 1)
    } else if n >= 1 && t[0] == '~' {
        (Operator::Tilde, 1)
    } else {
        (Operator::Equal, 0)
    }
}

} // verus!
