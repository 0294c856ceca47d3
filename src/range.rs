//! The grammar of a range: one or two bounds, such as `>=1.0.0 <2.0.0`.
use vstd::prelude::*;
use crate::constraint::{ConstraintView, VersionConstraint};
use crate::field::{Operator, VersionField};
use crate::grammar::{
    dotted_field, dotted_field_exec, field_at, field_at_exec, is_space, is_space_exec, labelled,
    labelled_exec,
};

verus! {

/// The operator of a bound at position `i` (no `=` symbol here) and the
/// position after it.
pub open spec fn range_op_at(t: Seq<char>, i: int) -> (Operator, int) {
    if 0 <= i && i + 1 < t.len() && t[i] == '>' && t[i + 1] == '=' {
        (Operator::GreaterThanOrEqual, i + 2)
    } else if 0 <= i && i + 1 < t.len() && t[i] == '<' && t[i + 1] == '=' {
        (Operator::LessThanOrEqual, i + 2)
    } else if 0 <= i < t.len() && t[i] == '>' {
        (Operator::GreaterThan, i + 1)
    } else if 0 <= i < t.len() && t[i] == '<' {
        (Operator::LessThan, i + 1)
    } else if 0 <= i < t.len() && t[i] == '^' {
        (Operator::Caret, i + 1)
    } else if 0 <= i < t.len() && t[i] == '~' {
        (Operator::Tilde, i + 1)
    } else {
        (Operator::Equal, i)
    }
}

/// Number of consecutive white-space characters from position `i`.
pub open spec fn space_run(t: Seq<char>, i: int) -> nat
    decreases t.len() - i,
{
    if 0 <= i < t.len() && is_space(t[i]) {
        1 + space_run(t, i + 1)
    } else {
        0
    }
}

/// `major[.minor[.patch]]` at position `i`, and the position after it.
pub open spec fn fields_at(t: Seq<char>, i: int) -> Option<(VersionField, VersionField, VersionField, int)> {
    match field_at(t, i) {
        None => None,
        Some((a, i1)) => match dotted_field(t, i1) {
            None => None,
            Some((b, i2)) => match dotted_field(t, i2) {
                None => None,
                Some((c, i3)) => Some((a, b, c, i3)),
            },
        },
    }
}

/// A bound is kept only when one of its fields is a number.
pub open spec fn kept(c: ConstraintView) -> Seq<ConstraintView> {
    if c.1 == VersionField::Wildcard && c.2 == VersionField::Wildcard && c.3
        == VersionField::Wildcard {
        Seq::empty()
    } else {
        seq![c]
    }
}

/// A bound at position `i`: an operator, `major[.minor[.patch]]`, then an
/// optional `-label` and an optional `+label`; and the position after it.
pub open spec fn bound_at(t: Seq<char>, i: int) -> Option<(ConstraintView, int)> {
    let (op, i0) = range_op_at(t, i);
    match fields_at(t, i0) {
        None => None,
        Some((a, b, c, i3)) => match labelled(t, i3, '-') {
            None => None,
            Some((pre, i4)) => match labelled(t, i4, '+') {
                None => None,
                Some((build, i5)) => Some(((op, a, b, c, pre, build), i5)),
            },
        },
    }
}

/// The bounds a range text denotes, or `None` when it is malformed: a lower
/// bound, then optionally a comma, white space and an upper bound.
pub open spec fn range_spec(t: Seq<char>) -> Option<Seq<ConstraintView>> {
    match bound_at(t, 0) {
        None => None,
        Some((b1, i5)) => if i5 == t.len() {
            Some(kept(b1))
        } else {
            let j0 = if 0 <= i5 < t.len() && t[i5] == ',' { i5 + 1 } else { i5 };
            let j1 = j0 + space_run(t, j0);
            match bound_at(t, j1) {
                None => None,
                Some((b2, k)) => if k == t.len() {
                    Some(kept(b1) + kept(b2))
                } else {
                    None
                },
            }
        },
    }
}

pub fn range_op_at_exec(t: &Vec<char>, i: usize) -> (r: (Operator, usize))
    requires
        i <= t@.len(),
    ensures
        range_op_at(t@, i as int) == (r.0, r.1 as int),
        r.1 <= t@.len(),
{
    let n = t.len();
    if n - i > 1 && t[i] == '>' && t[i + 1] == '=' {
        (Operator::GreaterThanOrEqual, i + 2)
    } else if n - i > 1 && t[i] == '<' && t[i + 1] == '=' {
        (Operator::LessThanOrEqual, i + 2)
    } else if i < n && t[i] == '>' {
        (Operator::GreaterThan, i + 1)
    } else if i < n && t[i] == '<' {
        (Operator::LessThan, i + 1)
    } else if i < n && t[i] == '^' {
        (Operator::Caret, i + 1)
    } else if i < n && t[i] == '~' {
        (Operator::Tilde, i + 1)
    } else {
        (Operator::Equal, i)
    }
}

pub fn space_run_exec(t: &Vec<char>, i: usize) -> (r: usize)
    requires
        i <= t@.len(),
    ensures
        r == space_run(t@, i as int),
        i + r <= t@.len(),
{
    let mut j: usize = i;
    while j < t.len() && is_space_exec(t[j])
        invariant
            i <= j <= t@.len(),
            space_run(t@, i as int) == (j - i) + space_run(t@, j as int),
        decreases t@.len() - j,
    {
        j = j + 1;
    }
    j - i
}

pub fn fields_at_exec(t: &Vec<char>, i: usize) -> (r: Option<(VersionField, VersionField, VersionField, usize)>)
    requires
        i <= t@.len(),
    ensures
        match r {
            Some((a, b, c, j)) => fields_at(t@, i as int) == Some((a, b, c, j as int)) && j
                <= t@.len(),
            None => fields_at(t@, i as int) is None,
        },
{
    let (a, i1) = match field_at_exec(t, i) {
        Some(p) => p,
        None => return None,
    };
    let (b, i2) = match dotted_field_exec(t, i1) {
        Some(p) => p,
        None => return None,
    };
    let (c, i3) = match dotted_field_exec(t, i2) {
        Some(p) => p,
        None => return None,
    };
    Some((a, b, c, i3))
}

/// Scans a bound at `i`, as `bound_at` describes.
pub fn bound_at_exec(t: &Vec<char>, i: usize) -> (r: Option<(VersionConstraint, usize)>)
    requires
        i <= t@.len(),
    ensures
        match r {
            Some((c, j)) => bound_at(t@, i as int) == Some((c@, j as int)) && j <= t@.len(),
            None => bound_at(t@, i as int) is None,
        },
{
    let (operator, i0) = range_op_at_exec(t, i);
    let (major, minor, patch, i3) = match fields_at_exec(t, i0) {
        Some(p) => p,
        None => return None,
    };
    let (pre_release, i4) = match labelled_exec(t, i3, '-') {
        Some(p) => p,
        None => return None,
    };
    let (build, i5) = match labelled_exec(t, i4, '+') {
        Some(p) => p,
        None => return None,
    };
    Some((VersionConstraint { operator, major, minor, patch, pre_release, build }, i5))
}

} // verus!
