//! Properties that relate several operations of the library.
use vstd::prelude::*;
use crate::constraint::{is_any_word, parse_spec, render, ConstraintView, label_text};
use crate::field::{field_text, operator_text, Operator, VersionField};
use crate::grammar::{
    digit_run, dotted_field, field_at, is_label_char, is_space, label_run, labelled, op_prefix,
    trim, trim_end, trim_start,
};
use crate::cache::{after_request, cleaned, fetches, EntryState};
use crate::text::{is_digit, lemma_decimal};
use crate::field::Connector;
use crate::range::{bound_at, fields_at, kept, range_op_at, range_spec, space_run};
use crate::version::{expr_satisfied, expr_spec, has_angle, join, pair_from, part_spec, render_expr, render_group, split_bars, GroupView, or_group, or_groups, parts_ok};

verus! {

/// A label that the grammar can read back: nonempty, of label characters.
pub open spec fn label_ok(l: Option<Seq<char>>) -> bool {
    match l {
        Some(x) => x.len() > 0 && forall|i: int| 0 <= i < x.len() ==> is_label_char(#[trigger] x[i]),
        None => true,
    }
}

proof fn lemma_digit_run_exact(t: Seq<char>, i: int, k: int)
    requires
        0 <= i,
        0 <= k,
        i + k <= t.len(),
        forall|j: int| i <= j < i + k ==> is_digit(#[trigger] t[j]),
        i + k == t.len() || !is_digit(t[i + k]),
    ensures
        digit_run(t, i) == k,
    decreases k,
{
    if k > 0 {
        lemma_digit_run_exact(t, i + 1, k - 1);
    }
}

proof fn lemma_label_run_exact(t: Seq<char>, i: int, k: int)
    requires
        0 <= i,
        0 <= k,
        i + k <= t.len(),
        forall|j: int| i <= j < i + k ==> is_label_char(#[trigger] t[j]),
        i + k == t.len() || !is_label_char(t[i + k]),
    ensures
        label_run(t, i) == k,
    decreases k,
{
    if k > 0 {
        lemma_label_run_exact(t, i + 1, k - 1);
    }
}

/// A field's text, followed by something other than a digit, reads back as
/// the field.
proof fn lemma_field_back(t: Seq<char>, i: int, f: VersionField)
    requires
        0 <= i,
        i + field_text(f).len() <= t.len(),
        t.subrange(i, i + field_text(f).len()) == field_text(f),
        i + field_text(f).len() == t.len() || !is_digit(t[i + field_text(f).len()]),
    ensures
        field_at(t, i) == Some((f, i + field_text(f).len())),
{
    let ft = field_text(f);
    assert(t[i] == t.subrange(i, i + ft.len())[0]);
    match f {
        VersionField::Wildcard => {},
        VersionField::Exact(n) => {
            lemma_decimal(n as nat);
            assert forall|j: int| i <= j < i + ft.len() implies is_digit(#[trigger] t[j]) by {
                assert(t[j] == t.subrange(i, i + ft.len())[j - i]);
            }
            lemma_digit_run_exact(t, i, ft.len() as int);
        },
    }
}

/// A label's text, followed by something other than a label character,
/// reads back as the label.
proof fn lemma_label_back(t: Seq<char>, i: int, mark: char, l: Option<Seq<char>>)
    requires
        0 <= i,
        label_ok(l),
        i + label_text(mark, l).len() <= t.len(),
        t.subrange(i, i + label_text(mark, l).len()) == label_text(mark, l),
        i + label_text(mark, l).len() == t.len() || (!is_label_char(t[i + label_text(mark, l).len()])
            && t[i + label_text(mark, l).len()] != mark),
    ensures
        labelled(t, i, mark) == Some((l, i + label_text(mark, l).len())),
{
    let lt = label_text(mark, l);
    match l {
        None => {},
        Some(x) => {
            assert(t[i] == lt[0]);
            assert forall|j: int| i + 1 <= j < i + 1 + x.len() implies is_label_char(#[trigger] t[j]) by {
                assert(t[j] == lt[j - i]);
                assert(lt[j - i] == x[j - i - 1]);
            }
            lemma_label_run_exact(t, i + 1, x.len() as int);
            assert(t.subrange(i + 1, i + 1 + x.len()) =~= x) by {
                assert forall|j: int| 0 <= j < x.len() implies t.subrange(i + 1, i + 1 + x.len())[j] == x[j] by {
                    assert(t[i + 1 + j] == lt[j + 1]);
                }
            }
        },
    }
}

proof fn lemma_field_first(f: VersionField)
    ensures
        field_text(f).len() > 0,
        is_digit(field_text(f)[0]) || field_text(f)[0] == '*',
        is_digit(field_text(f).last()) || field_text(f).last() == '*',
{
    match f {
        VersionField::Wildcard => {},
        VersionField::Exact(n) => lemma_decimal(n as nat),
    }
}

/// Reading back the canonical text of a constraint gives the constraint,
/// whenever its labels are nonempty runs of label characters.
#[verifier::rlimit(60)]
pub proof fn lemma_constraint_round_trip(c: ConstraintView)
    requires
        label_ok(c.4),
        label_ok(c.5),
    ensures
        parse_spec(render(c)) == Some(c),
{
    let o: Seq<char> = if c.0 == Operator::Equal { Seq::empty() } else { operator_text(c.0) };
    let f1 = field_text(c.1);
    let f2 = field_text(c.2);
    let f3 = field_text(c.3);
    let lp = label_text('-', c.4);
    let lb = label_text('+', c.5);
    let t = render(c);
    let p0 = o.len() as int;
    let p1 = p0 + f1.len();
    let p2 = p1 + 1 + f2.len();
    let p3 = p2 + 1 + f3.len();
    let p4 = p3 + lp.len();
    let p5 = p4 + lb.len();
    lemma_field_first(c.1);
    lemma_field_first(c.2);
    lemma_field_first(c.3);
    assert(t =~= o + f1 + seq!['.'] + f2 + seq!['.'] + f3 + lp + lb);
    assert(t.len() == p5);
    assert(t.subrange(p0, p1) =~= f1);
    assert(t[p1] == '.');
    assert(t.subrange(p1 + 1, p2) =~= f2);
    assert(t[p2] == '.');
    assert(t.subrange(p2 + 1, p3) =~= f3);
    assert(t.subrange(p3, p4) =~= lp);
    assert(t.subrange(p4, p5) =~= lb);
    // Nothing to trim at either end.
    assert(t[0] == (if p0 > 0 { o[0] } else { f1[0] }));
    assert(!is_space(t[0]));
    assert(trim_start(t) == t);
    assert(t.last() == (if lb.len() > 0 { lb.last() } else if lp.len() > 0 { lp.last() } else { f3.last() }));
    assert(!is_space(t.last())) by {
        if lb.len() > 0 {
            let x = c.5.unwrap();
            assert(lb.last() == x[x.len() - 1]);
        } else if lp.len() > 0 {
            let x = c.4.unwrap();
            assert(lp.last() == x[x.len() - 1]);
        }
    }
    assert(trim_end(t) == t);
    assert(trim(t) == t);
    assert(!is_any_word(t)) by {
        if t =~= seq!['l', 'a', 't', 'e', 's', 't'] {
            assert(t[p1] == '.');
        }
        if t.len() == 1 {
            assert(false);
        }
    }
    assert(op_prefix(t) == (c.0, p0)) by {
        assert(t[p0] == f1[0]);
    }
    lemma_field_back(t, p0, c.1);
    lemma_field_back(t, p1 + 1, c.2);
    assert(p3 == t.len() || !is_digit(t[p3])) by {
        if p3 < t.len() {
            if lp.len() > 0 {
                assert(t[p3] == lp[0]);
            } else {
                assert(t[p3] == lb[0]);
            }
        }
    }
    lemma_field_back(t, p2 + 1, c.3);
    assert(dotted_field(t, p1) == Some((c.2, p2)));
    assert(dotted_field(t, p2) == Some((c.3, p3)));
    assert(p4 == t.len() || (!is_label_char(t[p4]) && t[p4] != '-')) by {
        if p4 < t.len() {
            assert(t[p4] == lb[0]);
        }
    }
    lemma_label_back(t, p3, '-', c.4);
    lemma_label_back(t, p4, '+', c.5);
}

/// A field equals itself; a wildcard equals no number.
pub proof fn lemma_field_equality(n: u64)
    ensures
        VersionField::Exact(n) == VersionField::Exact(n),
        VersionField::Wildcard != VersionField::Exact(n),
{
}

/// After any request for a key, a further request for it does not fetch:
/// concurrent requesters of one key cause one fetch, and the index no longer
/// changes on repeated requests.
pub proof fn lemma_single_fetch(m: Map<(Seq<char>, Seq<char>), EntryState>, k: (Seq<char>, Seq<char>))
    ensures
        !fetches(after_request(m, k), k),
        after_request(after_request(m, k), k) == after_request(m, k),
        fetches(m, k) ==> after_request(m, k)[k] == EntryState::Fetching,
{
}

/// Cleaning keeps exactly the entries whose key is referenced or in flight,
/// with their states.
pub proof fn lemma_clean(
    m: Map<(Seq<char>, Seq<char>), EntryState>,
    referenced: Seq<(Seq<char>, Seq<char>)>,
    k: (Seq<char>, Seq<char>),
)
    ensures
        cleaned(m, referenced).contains_key(k) <==> (m.contains_key(k) && (referenced.contains(k)
            || m[k] == EntryState::Fetching)),
        cleaned(m, referenced).contains_key(k) ==> cleaned(m, referenced)[k] == m[k],
        m.contains_key(k) && referenced.contains(k) ==> cleaned(m, referenced).contains_key(k),
        !referenced.contains(k) && m.contains_key(k) && m[k] == EntryState::Ready ==> !cleaned(
            m,
            referenced,
        ).contains_key(k),
{
}

/// The operators written with `<` or `>`.
pub open spec fn is_angle_op(op: Operator) -> bool {
    op == Operator::GreaterThan || op == Operator::GreaterThanOrEqual || op == Operator::LessThan
        || op == Operator::LessThanOrEqual
}

/// A bound of a range: readable labels, and a number in at least one field.
pub open spec fn bound_ok(c: ConstraintView) -> bool {
    &&& label_ok(c.4)
    &&& label_ok(c.5)
    &&& !(c.1 == VersionField::Wildcard && c.2 == VersionField::Wildcard && c.3 == VersionField::Wildcard)
}

/// The shapes of group that the expression grammar produces: no constraint
/// (a range whose bounds are all wildcards), a single constraint written
/// without `<` or `>`, or one or two range bounds of which one is written with
/// `<` or `>`.
pub open spec fn group_ok(cs: Seq<ConstraintView>) -> bool {
    ||| cs.len() == 0
    ||| (cs.len() == 1 && !is_angle_op(cs[0].0) && label_ok(cs[0].4) && label_ok(cs[0].5))
    ||| (cs.len() == 1 && bound_ok(cs[0]) && is_angle_op(cs[0].0))
    ||| (cs.len() == 2 && bound_ok(cs[0]) && bound_ok(cs[1]) && (is_angle_op(cs[0].0)
        || is_angle_op(cs[1].0)))
}

/// The characters of a constraint's canonical text: no bar, no white space,
/// and `<` or `>` only in the leading operator.
proof fn lemma_render_chars(c: ConstraintView)
    requires
        label_ok(c.4),
        label_ok(c.5),
    ensures
        render(c).len() > 0,
        forall|j: int| 0 <= j < render(c).len() ==> #[trigger] render(c)[j] != '|' && !is_space(render(c)[j]),
        forall|j: int| 0 <= j < render(c).len() && (render(c)[j] == '<' || render(c)[j] == '>') ==> j < (if c.0
            == Operator::Equal { 0int } else { operator_text(c.0).len() as int }),
        is_angle_op(c.0) ==> (render(c)[0] == '<' || render(c)[0] == '>'),
        has_angle(render(c)) <==> is_angle_op(c.0),
{
    let o: Seq<char> = if c.0 == Operator::Equal { Seq::empty() } else { operator_text(c.0) };
    let f1 = field_text(c.1);
    let f2 = field_text(c.2);
    let f3 = field_text(c.3);
    let lp = label_text('-', c.4);
    let lb = label_text('+', c.5);
    let t = render(c);
    lemma_field_chars(c.1);
    lemma_field_chars(c.2);
    lemma_field_chars(c.3);
    assert(t =~= o + f1 + seq!['.'] + f2 + seq!['.'] + f3 + lp + lb);
    let p0 = o.len() as int;
    let p1 = p0 + f1.len();
    let p2 = p1 + 1 + f2.len();
    let p3 = p2 + 1 + f3.len();
    let p4 = p3 + lp.len();
    assert forall|j: int| 0 <= j < t.len() implies #[trigger] t[j] != '|' && !is_space(t[j]) && ((t[j] == '<'
        || t[j] == '>') ==> j < p0) by {
        if j < p0 {
        } else if j < p1 {
            assert(t[j] == f1[j - p0]);
        } else if j == p1 {
        } else if j < p2 {
            assert(t[j] == f2[j - p1 - 1]);
        } else if j == p2 {
        } else if j < p3 {
            assert(t[j] == f3[j - p2 - 1]);
        } else if j < p4 {
            assert(t[j] == lp[j - p3]);
            if j > p3 {
                assert(lp[j - p3] == c.4.unwrap()[j - p3 - 1]);
            }
        } else {
            assert(t[j] == lb[j - p4]);
            if j > p4 {
                assert(lb[j - p4] == c.5.unwrap()[j - p4 - 1]);
            }
        }
    }
    if is_angle_op(c.0) {
        assert(t[0] == o[0]);
    }
    if has_angle(t) {
        let j = choose|j: int| 0 <= j < t.len() && (t[j] == '<' || t[j] == '>');
        assert(j < p0);
        assert(t[j] == o[j]);
    }
}

proof fn lemma_field_chars(f: VersionField)
    ensures
        field_text(f).len() > 0,
        forall|j: int| 0 <= j < field_text(f).len() ==> is_digit(#[trigger] field_text(f)[j]) || field_text(f)[j] == '*',
{
    match f {
        VersionField::Wildcard => {},
        VersionField::Exact(n) => lemma_decimal(n as nat),
    }
}

proof fn lemma_piece(t: Seq<char>, i: int, r: Seq<char>, q: int, p: Seq<char>)
    requires
        0 <= i,
        0 <= q,
        q + p.len() <= r.len(),
        i + r.len() <= t.len(),
        forall|j: int| 0 <= j < r.len() ==> t[i + j] == #[trigger] r[j],
        r.subrange(q, q + p.len()) == p,
    ensures
        t.subrange(i + q, i + q + p.len()) == p,
{
    assert forall|k: int| 0 <= k < p.len() implies t.subrange(i + q, i + q + p.len())[k] == p[k] by {
        assert(t[i + (q + k)] == r[q + k]);
        assert(r.subrange(q, q + p.len())[k] == r[q + k]);
    }
    assert(t.subrange(i + q, i + q + p.len()) =~= p);
}

/// The canonical text of a range bound, followed by the end or a space,
/// reads back as the bound.
#[verifier::rlimit(80)]
proof fn lemma_bound_back(t: Seq<char>, i: int, b: ConstraintView)
    requires
        label_ok(b.4),
        label_ok(b.5),
        0 <= i,
        i + render(b).len() <= t.len(),
        t.subrange(i, i + render(b).len()) == render(b),
        i + render(b).len() == t.len() || t[i + render(b).len()] == ' ',
    ensures
        bound_at(t, i) == Some((b, i + render(b).len())),
{
    let o: Seq<char> = if b.0 == Operator::Equal { Seq::empty() } else { operator_text(b.0) };
    let f1 = field_text(b.1);
    let f2 = field_text(b.2);
    let f3 = field_text(b.3);
    let lp = label_text('-', b.4);
    let lb = label_text('+', b.5);
    let r = render(b);
    lemma_field_first(b.1);
    lemma_field_first(b.2);
    lemma_field_first(b.3);
    assert(r =~= o + f1 + seq!['.'] + f2 + seq!['.'] + f3 + lp + lb);
    let q0 = o.len() as int;
    let q1 = q0 + f1.len();
    let q2 = q1 + 1 + f2.len();
    let q3 = q2 + 1 + f3.len();
    let q4 = q3 + lp.len();
    let q5 = q4 + lb.len();
    assert(r.len() == q5);
    assert forall|j: int| 0 <= j < r.len() implies t[i + j] == #[trigger] r[j] by {
        assert(t.subrange(i, i + r.len())[j] == r[j]);
    }
    assert(r.subrange(q0, q1) =~= f1);
    assert(r.subrange(q1 + 1, q2) =~= f2);
    assert(r.subrange(q2 + 1, q3) =~= f3);
    assert(r.subrange(q3, q4) =~= lp);
    assert(r.subrange(q4, q5) =~= lb);
    lemma_piece(t, i, r, q0, f1);
    lemma_piece(t, i, r, q1 + 1, f2);
    lemma_piece(t, i, r, q2 + 1, f3);
    lemma_piece(t, i, r, q3, lp);
    lemma_piece(t, i, r, q4, lb);
    assert(t[i + q1] == r[q1]);
    assert(t[i + q2] == r[q2]);
    assert(t[i + q0] == r[q0]);
    assert(r[q0] == f1[0]);
    if o.len() > 0 {
        assert(t[i] == r[0]);
    }
    if o.len() >= 1 {
        assert(t[i + 1] == r[1]);
    }
    assert(range_op_at(t, i) == (b.0, i + q0));
    lemma_field_back(t, i + q0, b.1);
    lemma_field_back(t, i + q1 + 1, b.2);
    assert(i + q3 == t.len() || !is_digit(t[i + q3])) by {
        if i + q3 < t.len() {
            if lp.len() > 0 {
                assert(t[i + q3] == r[q3]);
                assert(r[q3] == lp[0]);
            } else if lb.len() > 0 {
                assert(t[i + q3] == r[q3]);
                assert(r[q3] == lb[0]);
            }
        }
    }
    lemma_field_back(t, i + q2 + 1, b.3);
    assert(fields_at(t, i + q0) == Some((b.1, b.2, b.3, i + q3)));
    assert(i + q4 == t.len() || (!is_label_char(t[i + q4]) && t[i + q4] != '-')) by {
        if i + q4 < t.len() && lb.len() > 0 {
            assert(t[i + q4] == r[q4]);
            assert(r[q4] == lb[0]);
        }
    }
    lemma_label_back(t, i + q3, '-', b.4);
    lemma_label_back(t, i + q4, '+', b.5);
}

proof fn lemma_no_bar(s: Seq<char>, i: int)
    requires
        0 <= i,
        forall|j: int| 0 <= j < s.len() ==> s[j] != '|',
    ensures
        pair_from(s, i) == -1,
    decreases s.len() - i,
{
    if i + 1 < s.len() {
        lemma_no_bar(s, i + 1);
    }
}

/// A group of the grammar's shapes, written out, reads back as the same
/// constraints; its text has no bar and nothing to trim.
#[verifier::rlimit(80)]
proof fn lemma_group_back(cs: Seq<ConstraintView>, conn: Connector)
    requires
        group_ok(cs),
    ensures
        part_spec(render_group((cs, conn))) == Some(cs),
        trim(render_group((cs, conn))) == render_group((cs, conn)),
        forall|j: int| 0 <= j < render_group((cs, conn)).len() ==> #[trigger] render_group((cs, conn))[j] != '|',
        render_group((cs, conn)).len() > 0,
        !is_space(render_group((cs, conn))[0]),
        !is_space(render_group((cs, conn)).last()),
{
    let g = (cs, conn);
    let rs = cs.map_values(|c: ConstraintView| render(c));
    let r = render_group(g);
    if cs.len() == 0 {
        assert(r == seq!['>', '=', '*']);
        assert(r[0] == '>');
        assert(has_angle(r));
        assert(trim_start(r) == r);
        assert(trim_end(r) == r);
        assert(range_op_at(r, 0) == (Operator::GreaterThanOrEqual, 2int));
        assert(field_at(r, 2) == Some((VersionField::Wildcard, 3int)));
        assert(bound_at(r, 0) == Some(
            ((Operator::GreaterThanOrEqual, VersionField::Wildcard, VersionField::Wildcard, VersionField::Wildcard, None::<Seq<char>>, None::<Seq<char>>), 3int),
        ));
        assert(range_spec(r) =~= Some(Seq::<ConstraintView>::empty()));
        assert(cs =~= Seq::<ConstraintView>::empty());
        return;
    }
    assert(r == join(rs, seq![' ']));
    if cs.len() == 1 {
        assert(rs.len() == 1);
        assert(r == rs[0]);
        assert(rs[0] == render(cs[0]));
        let c = cs[0];
        lemma_render_chars(c);
        if is_angle_op(c.0) {
            assert(r.subrange(0, r.len() as int) =~= r);
            lemma_bound_back(r, 0, c);
            assert(trim_start(r) == r);
            assert(trim_end(r) == r);
            assert(kept(c) =~= cs);
        } else {
            lemma_constraint_round_trip(c);
            assert(trim_start(r) == r);
            assert(trim_end(r) == r);
            assert(seq![c] =~= cs);
        }
    } else {
        let a = cs[0];
        let b = cs[1];
        lemma_render_chars(a);
        lemma_render_chars(b);
        assert(rs.drop_last() =~= seq![render(a)]);
        assert(join(rs.drop_last(), seq![' ']) == render(a));
        assert(rs.last() == render(b));
        assert(r =~= render(a) + seq![' '] + render(b));
        let n1 = render(a).len() as int;
        assert(r.subrange(0, n1) =~= render(a));
        assert(r.subrange(n1 + 1, r.len() as int) =~= render(b));
        assert(r[n1] == ' ');
        lemma_bound_back(r, 0, a);
        lemma_bound_back(r, n1 + 1, b);
        assert(r[n1 + 1] == render(b)[0]);
        assert(space_run(r, n1 + 1) == 0);
        assert(space_run(r, n1) == 1);
        assert forall|j: int| 0 <= j < r.len() implies #[trigger] r[j] != '|' by {
            if j < n1 {
                assert(r[j] == render(a)[j]);
            } else if j > n1 {
                assert(r[j] == render(b)[j - n1 - 1]);
            }
        }
        assert(r[0] == render(a)[0]);
        assert(r.last() == render(b).last());
        assert(trim_start(r) == r);
        assert(trim_end(r) == r);
        if is_angle_op(a.0) {
            assert(r[0] == render(a)[0]);
        } else {
            assert(r[n1 + 1] == render(b)[0]);
        }
        assert(has_angle(r));
        assert(kept(a) + kept(b) =~= cs);
    }
}

/// An expression of one group of the grammar's shapes, written out, reads
/// back as the same expression.
pub proof fn lemma_single_group_round_trip(cs: Seq<ConstraintView>)
    requires
        group_ok(cs),
    ensures
        expr_spec(render_expr(seq![(cs, Connector::And)])) == Some(seq![(cs, Connector::And)]),
{
    let e = seq![(cs, Connector::And)];
    lemma_group_back(cs, Connector::And);
    let r = render_group((cs, Connector::And));
    let rs = e.map_values(|g: GroupView| render_group(g));
    assert(rs.len() == 1);
    assert(rs[0] == r);
    assert(render_expr(e) == join(rs, seq![' ', '|', '|', ' ']));
    assert(render_expr(e) == r);
    lemma_no_bar(r, 0);
}

proof fn lemma_angle_trim_start(s: Seq<char>)
    ensures
        has_angle(trim_start(s)) <==> has_angle(s),
    decreases s.len(),
{
    if s.len() > 0 && is_space(s[0]) {
        lemma_angle_trim_start(s.drop_first());
        if has_angle(s) {
            let j = choose|j: int| 0 <= j < s.len() && (s[j] == '<' || s[j] == '>');
            assert(s.drop_first()[j - 1] == s[j]);
        }
        if has_angle(s.drop_first()) {
            let j = choose|j: int| 0 <= j < s.drop_first().len() && (s.drop_first()[j] == '<' || s.drop_first()[j] == '>');
            assert(s[j + 1] == s.drop_first()[j]);
        }
    }
}

proof fn lemma_angle_trim_end(s: Seq<char>)
    ensures
        has_angle(trim_end(s)) <==> has_angle(s),
    decreases s.len(),
{
    if s.len() > 0 && is_space(s.last()) {
        lemma_angle_trim_end(s.drop_last());
        if has_angle(s) {
            let j = choose|j: int| 0 <= j < s.len() && (s[j] == '<' || s[j] == '>');
            assert(s.drop_last()[j] == s[j]);
        }
        if has_angle(s.drop_last()) {
            let j = choose|j: int| 0 <= j < s.drop_last().len() && (s.drop_last()[j] == '<' || s.drop_last()[j] == '>');
            assert(s[j] == s.drop_last()[j]);
        }
    }
}

proof fn lemma_angle_trim(s: Seq<char>)
    ensures
        has_angle(trim(s)) <==> has_angle(s),
{
    lemma_angle_trim_start(s);
    lemma_angle_trim_end(trim_start(s));
}

proof fn lemma_run_bounds(t: Seq<char>, i: int)
    requires
        0 <= i,
    ensures
        i + digit_run(t, i) <= t.len() || digit_run(t, i) == 0,
        i + label_run(t, i) <= t.len() || label_run(t, i) == 0,
    decreases t.len() - i,
{
    if i < t.len() {
        lemma_run_bounds(t, i + 1);
    }
}

proof fn lemma_run_labels(t: Seq<char>, i: int, k: int)
    requires
        i <= k < i + label_run(t, i),
    ensures
        is_label_char(t[k]),
        k < t.len(),
    decreases k - i,
{
    if k > i {
        lemma_run_labels(t, i + 1, k);
    }
}

proof fn lemma_labelled_ok(t: Seq<char>, i: int, mark: char)
    requires
        labelled(t, i, mark) is Some,
    ensures
        label_ok(labelled(t, i, mark).unwrap().0),
{
    if 0 <= i < t.len() && t[i] == mark {
        let n = label_run(t, i + 1);
        lemma_run_bounds(t, i + 1);
        let x = t.subrange(i + 1, i + 1 + n);
        assert forall|j: int| 0 <= j < x.len() implies is_label_char(#[trigger] x[j]) by {
            lemma_run_labels(t, i + 1, i + 1 + j);
        }
    }
}

/// A parsed constraint has readable labels, and an operator written with `<`
/// or `>` only when its text holds one.
proof fn lemma_parsed_constraint(p: Seq<char>)
    requires
        parse_spec(p) is Some,
    ensures
        label_ok(parse_spec(p).unwrap().4),
        label_ok(parse_spec(p).unwrap().5),
        is_angle_op(parse_spec(p).unwrap().0) ==> has_angle(p),
{
    let t = trim(p);
    lemma_angle_trim(p);
    if !is_any_word(t) {
        let (op, i0) = op_prefix(t);
        let (major, i1) = field_at(t, i0).unwrap();
        let (minor, i2) = dotted_field(t, i1).unwrap();
        let (patch, i3) = dotted_field(t, i2).unwrap();
        lemma_labelled_ok(t, i3, '-');
        let i4 = labelled(t, i3, '-').unwrap().1;
        lemma_labelled_ok(t, i4, '+');
        if is_angle_op(op) {
            assert(t[0] == '<' || t[0] == '>');
        }
    }
}

/// No `<` or `>` stands in the fields that `fields_at` reads.
proof fn lemma_fields_chars(t: Seq<char>, i: int)
    requires
        0 <= i,
        fields_at(t, i) is Some,
    ensures
        i <= fields_at(t, i).unwrap().3 <= t.len(),
        forall|j: int| i <= j < fields_at(t, i).unwrap().3 ==> t[j] != '<' && t[j] != '>',
{
    let (a, i1) = field_at(t, i).unwrap();
    lemma_field_at_chars(t, i);
    let (b, i2) = dotted_field(t, i1).unwrap();
    if 0 <= i1 < t.len() && t[i1] == '.' {
        lemma_field_at_chars(t, i1 + 1);
    }
    let (c, i3) = dotted_field(t, i2).unwrap();
    if 0 <= i2 < t.len() && t[i2] == '.' {
        lemma_field_at_chars(t, i2 + 1);
    }
}

proof fn lemma_field_at_chars(t: Seq<char>, i: int)
    requires
        0 <= i,
        field_at(t, i) is Some,
    ensures
        i < field_at(t, i).unwrap().1 <= t.len(),
        forall|j: int| i <= j < field_at(t, i).unwrap().1 ==> t[j] != '<' && t[j] != '>',
{
    if !(0 <= i < t.len() && (t[i] == 'x' || t[i] == '*')) {
        lemma_run_bounds(t, i);
        assert forall|j: int| i <= j < field_at(t, i).unwrap().1 implies t[j] != '<' && t[j] != '>' by {
            crate::grammar::lemma_run_digits(t, i, j);
        }
        crate::grammar::lemma_run_digits(t, i, i + digit_run(t, i) - 1);
    }
}

proof fn lemma_space_chars(t: Seq<char>, i: int, j: int)
    requires
        0 <= i <= j < i + space_run(t, i),
    ensures
        is_space(t[j]),
        j < t.len(),
    decreases j - i,
{
    if j > i {
        lemma_space_chars(t, i + 1, j);
    }
}

/// A parsed group has one of the shapes that `group_ok` names.
proof fn lemma_bound_labels(t: Seq<char>, i: int)
    requires
        bound_at(t, i) is Some,
    ensures
        label_ok(bound_at(t, i).unwrap().0.4),
        label_ok(bound_at(t, i).unwrap().0.5),
{
    let (op, i0) = range_op_at(t, i);
    let (a, b, c, i3) = fields_at(t, i0).unwrap();
    lemma_labelled_ok(t, i3, '-');
    let i4 = labelled(t, i3, '-').unwrap().1;
    lemma_labelled_ok(t, i4, '+');
}

proof fn lemma_labelled_chars(t: Seq<char>, i: int, mark: char)
    requires
        0 <= i,
        mark != '<' && mark != '>',
        labelled(t, i, mark) is Some,
    ensures
        i <= labelled(t, i, mark).unwrap().1 <= t.len() || labelled(t, i, mark).unwrap().1 == i,
        forall|j: int| i <= j < labelled(t, i, mark).unwrap().1 ==> t[j] != '<' && t[j] != '>',
{
    if 0 <= i < t.len() && t[i] == mark {
        lemma_run_bounds(t, i + 1);
        assert forall|j: int| i <= j < labelled(t, i, mark).unwrap().1 implies t[j] != '<' && t[j] != '>' by {
            if j > i {
                lemma_run_labels(t, i + 1, j);
            }
        }
    }
}

/// No `<` or `>` stands in a bound whose operator is written without them.
proof fn lemma_bound_chars(t: Seq<char>, i: int)
    requires
        0 <= i <= t.len(),
        bound_at(t, i) is Some,
        !is_angle_op(bound_at(t, i).unwrap().0.0),
    ensures
        i <= bound_at(t, i).unwrap().1 <= t.len(),
        forall|j: int| i <= j < bound_at(t, i).unwrap().1 ==> t[j] != '<' && t[j] != '>',
{
    let (op, i0) = range_op_at(t, i);
    lemma_fields_chars(t, i0);
    let (a, b, c, i3) = fields_at(t, i0).unwrap();
    lemma_labelled_chars(t, i3, '-');
    let i4 = labelled(t, i3, '-').unwrap().1;
    lemma_labelled_chars(t, i4, '+');
}

/// A parsed group has one of the shapes that `group_ok` names.
proof fn lemma_parsed_group(p: Seq<char>)
    requires
        part_spec(p) is Some,
    ensures
        group_ok(part_spec(p).unwrap()),
{
    let cs = part_spec(p).unwrap();
    if has_angle(p) {
        let t = trim(p);
        let (b1, i5) = bound_at(t, 0).unwrap();
        lemma_bound_labels(t, 0);
        if i5 != t.len() {
            let j0 = if 0 <= i5 < t.len() && t[i5] == ',' { i5 + 1 } else { i5 };
            let j1 = j0 + space_run(t, j0);
            let (b2, k) = bound_at(t, j1).unwrap();
            lemma_bound_labels(t, j1);
            if cs.len() == 2 {
                assert(cs[0] == b1);
                assert(cs[1] == b2);
                if !is_angle_op(b1.0) && !is_angle_op(b2.0) {
                    lemma_bound_chars(t, 0);
                    lemma_run_space_bound(t, j0);
                    lemma_bound_chars(t, j1);
                    assert forall|j: int| 0 <= j < t.len() implies t[j] != '<' && t[j] != '>' by {
                        if j0 <= j < j1 {
                            lemma_space_chars(t, j0, j);
                        }
                    }
                    lemma_angle_trim(p);
                    assert(!has_angle(t));
                }
            }
        }
    } else {
        lemma_parsed_constraint(p);
    }
}

proof fn lemma_run_space_bound(t: Seq<char>, i: int)
    requires
        0 <= i <= t.len(),
    ensures
        i + space_run(t, i) <= t.len(),
    decreases t.len() - i,
{
    if i < t.len() {
        lemma_run_space_bound(t, i + 1);
    }
}

/// Reading an expression of one group, writing it out and reading
/// the text again gives the same expression.
pub proof fn lemma_expression_round_trip_one_group(s: Seq<char>)
    requires
        expr_spec(s) is Some,
        expr_spec(s).unwrap().len() == 1,
    ensures
        expr_spec(render_expr(expr_spec(s).unwrap())) == expr_spec(s),
{
    let e = expr_spec(s).unwrap();
    if pair_from(s, 0) >= 0 {
        crate::version::lemma_pair_from(s, 0);
        let k = pair_from(s, 0);
        let rest = s.subrange(k + 2, s.len() as int);
        assert(split_bars(rest).len() >= 1);
        assert(split_bars(s).len() >= 2);
        assert(false);
    } else {
        lemma_parsed_group(s);
        assert(e == seq![(part_spec(s).unwrap(), Connector::And)]);
        lemma_single_group_round_trip(part_spec(s).unwrap());
    }
}

/// The separator between written-out groups.
pub open spec fn bar_sep() -> Seq<char> {
    seq![' ', '|', '|', ' ']
}

/// `xs` with `sep` between neighbours, built from the front.
pub open spec fn join_front(xs: Seq<Seq<char>>, sep: Seq<char>) -> Seq<char>
    decreases xs.len(),
{
    if xs.len() == 0 {
        Seq::empty()
    } else if xs.len() == 1 {
        xs[0]
    } else {
        xs[0] + sep + join_front(xs.drop_first(), sep)
    }
}

proof fn lemma_join_front_push(ys: Seq<Seq<char>>, z: Seq<char>, sep: Seq<char>)
    requires
        ys.len() >= 1,
    ensures
        join_front(ys.push(z), sep) == join_front(ys, sep) + sep + z,
    decreases ys.len(),
{
    assert(ys.push(z).drop_first() =~= (if ys.len() == 1 { seq![z] } else { ys.drop_first().push(z) }));
    if ys.len() == 1 {
        assert(join_front(seq![z], sep) == z);
        assert(join_front(ys.push(z), sep) =~= join_front(ys, sep) + sep + z);
    } else {
        lemma_join_front_push(ys.drop_first(), z, sep);
        assert(join_front(ys.push(z), sep) =~= join_front(ys, sep) + sep + z);
    }
}

proof fn lemma_join_front(xs: Seq<Seq<char>>, sep: Seq<char>)
    ensures
        join(xs, sep) == join_front(xs, sep),
    decreases xs.len(),
{
    if xs.len() >= 2 {
        lemma_join_front(xs.drop_last(), sep);
        lemma_join_front_push(xs.drop_last(), xs.last(), sep);
        assert(xs.drop_last().push(xs.last()) =~= xs);
    }
}

proof fn lemma_trim_start_spaces(a: Seq<char>, y: Seq<char>)
    requires
        forall|j: int| 0 <= j < a.len() ==> is_space(#[trigger] a[j]),
        y.len() > 0,
        !is_space(y[0]),
    ensures
        trim_start(a + y) == y,
    decreases a.len(),
{
    if a.len() > 0 {
        assert((a + y).drop_first() =~= a.drop_first() + y);
        lemma_trim_start_spaces(a.drop_first(), y);
    } else {
        assert(a + y =~= y);
    }
}

proof fn lemma_trim_end_spaces(y: Seq<char>, b: Seq<char>)
    requires
        forall|j: int| 0 <= j < b.len() ==> is_space(#[trigger] b[j]),
        y.len() > 0,
        !is_space(y.last()),
    ensures
        trim_end(y + b) == y,
    decreases b.len(),
{
    if b.len() > 0 {
        assert((y + b).drop_last() =~= y + b.drop_last());
        lemma_trim_end_spaces(y, b.drop_last());
    } else {
        assert(y + b =~= y);
    }
}

/// White space around a group's text does not change what it denotes.
proof fn lemma_pad_part(r: Seq<char>, a: Seq<char>, b: Seq<char>)
    requires
        forall|j: int| 0 <= j < a.len() ==> is_space(#[trigger] a[j]),
        forall|j: int| 0 <= j < b.len() ==> is_space(#[trigger] b[j]),
        r.len() > 0,
        !is_space(r[0]),
        !is_space(r.last()),
        trim(r) == r,
    ensures
        part_spec(a + r + b) == part_spec(r),
{
    let x = a + r + b;
    assert(x =~= a + (r + b));
    lemma_trim_start_spaces(a, r + b);
    lemma_trim_end_spaces(r, b);
    assert(trim(x) == r);
    lemma_angle_trim(x);
}

proof fn lemma_pair_at(t: Seq<char>, i: int, k: int)
    requires
        0 <= i <= k,
        k + 1 < t.len(),
        t[k] == '|',
        t[k + 1] == '|',
        forall|j: int| 0 <= j < k ==> t[j] != '|',
    ensures
        pair_from(t, i) == k,
    decreases k - i,
{
    if i < k {
        lemma_pair_at(t, i + 1, k);
    }
}

/// Splitting the written-out groups at their separators gives back, side by
/// side, texts that denote the same as each group's own text.
proof fn lemma_split_rendered(rs: Seq<Seq<char>>, lead: Seq<char>)
    requires
        rs.len() >= 1,
        lead.len() <= 1,
        forall|j: int| 0 <= j < lead.len() ==> is_space(#[trigger] lead[j]),
        forall|i: int| 0 <= i < rs.len() ==> (#[trigger] rs[i]).len() > 0 && !is_space(rs[i][0]) && !is_space(rs[i].last())
            && trim(rs[i]) == rs[i] && forall|j: int| 0 <= j < rs[i].len() ==> rs[i][j] != '|',
    ensures
        split_bars(lead + join_front(rs, bar_sep())).len() == rs.len(),
        forall|i: int| 0 <= i < rs.len() ==> part_spec(
            #[trigger] split_bars(lead + join_front(rs, bar_sep()))[i],
        ) == part_spec(rs[i]),
        rs.len() >= 2 ==> pair_from(lead + join_front(rs, bar_sep()), 0) >= 0,
    decreases rs.len(),
{
    let sep = bar_sep();
    let t = lead + join_front(rs, sep);
    let r0 = rs[0];
    if rs.len() == 1 {
        assert(t =~= lead + r0 + Seq::<char>::empty());
        assert forall|j: int| 0 <= j < t.len() implies t[j] != '|' by {
            if j >= lead.len() {
                assert(t[j] == r0[j - lead.len()]);
            }
        }
        lemma_no_bar(t, 0);
        lemma_pad_part(r0, lead, Seq::<char>::empty());
    } else {
        let rest = rs.drop_first();
        let jr = join_front(rest, sep);
        let k: int = lead.len() as int + r0.len() as int + 1;
        assert(t =~= lead + r0 + seq![' '] + seq!['|', '|'] + (seq![' '] + jr));
        assert forall|j: int| 0 <= j < k implies t[j] != '|' by {
            if lead.len() <= j < lead.len() + r0.len() {
                assert(t[j] == r0[j - lead.len()]);
            }
        }
        lemma_pair_at(t, 0, k);
        assert(t.subrange(0, k) =~= lead + r0 + seq![' ']);
        assert(t.subrange(k + 2, t.len() as int) =~= seq![' '] + jr);
        assert forall|i: int| 0 <= i < rest.len() implies (#[trigger] rest[i]).len() > 0 && !is_space(rest[i][0]) && !is_space(rest[i].last())
            && trim(rest[i]) == rest[i] && forall|j: int| 0 <= j < rest[i].len() ==> rest[i][j] != '|' by {
            assert(rest[i] == rs[i + 1]);
        }
        lemma_split_rendered(rest, seq![' ']);
        lemma_pad_part(r0, lead, seq![' ']);
        let p = split_bars(t);
        assert(p == seq![t.subrange(0, k)] + split_bars(seq![' '] + jr));
        assert forall|i: int| 0 <= i < rs.len() implies part_spec(#[trigger] p[i]) == part_spec(rs[i]) by {
            if i > 0 {
                assert(p[i] == split_bars(seq![' '] + jr)[i - 1]);
                assert(rs[i] == rest[i - 1]);
            }
        }
    }
}

/// Reading an expression, writing it out and reading the text again gives
/// the same expression.
pub proof fn lemma_expression_round_trip(s: Seq<char>)
    requires
        expr_spec(s) is Some,
    ensures
        expr_spec(render_expr(expr_spec(s).unwrap())) == expr_spec(s),
{
    let e = expr_spec(s).unwrap();
    if pair_from(s, 0) < 0 {
        lemma_expression_round_trip_one_group(s);
    } else {
        let ps = split_bars(s);
        crate::version::lemma_pair_from(s, 0);
        let k = pair_from(s, 0);
        assert(split_bars(s.subrange(k + 2, s.len() as int)).len() >= 1);
        assert(ps.len() >= 2);
        let rs = e.map_values(|g: GroupView| render_group(g));
        assert forall|i: int| 0 <= i < rs.len() implies (#[trigger] rs[i]).len() > 0 && !is_space(rs[i][0]) && !is_space(rs[i].last())
            && trim(rs[i]) == rs[i] && forall|j: int| 0 <= j < rs[i].len() ==> rs[i][j] != '|' by {
            assert(e[i] == or_group(ps[i]));
            lemma_parsed_group(ps[i]);
            lemma_group_back(e[i].0, Connector::Or);
        }
        lemma_join_front(rs, bar_sep());
        let r = render_expr(e);
        assert(Seq::<char>::empty() + r =~= r);
        lemma_split_rendered(rs, Seq::<char>::empty());
        let q = split_bars(r);
        assert forall|i: int| 0 <= i < q.len() implies (#[trigger] part_spec(q[i])) == Some(e[i].0) by {
            assert(e[i] == or_group(ps[i]));
            lemma_parsed_group(ps[i]);
            lemma_group_back(e[i].0, Connector::Or);
        }
        assert(parts_ok(q));
        assert(or_groups(q) =~= e);
    }
}

/// Whether a version satisfies an expression depends only on what the
/// expression's text denotes: the canonical text of a parsed expression
/// accepts exactly the versions the original text accepts.
pub proof fn lemma_satisfaction_survives_round_trip(s: Seq<char>, v: Seq<char>)
    requires
        expr_spec(s) is Some,
    ensures
        expr_spec(render_expr(expr_spec(s).unwrap())) is Some,
        expr_satisfied(expr_spec(render_expr(expr_spec(s).unwrap())).unwrap(), v) == expr_satisfied(
            expr_spec(s).unwrap(),
            v,
        ),
{
    lemma_expression_round_trip(s);
}

} // verus!
