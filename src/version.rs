//! A full version expression: groups of constraints, parsed from text such as
//! `^1.2.0`, `>=1.0.0 <2.0.0` or `1.x || >=3.0.0`.
use vstd::prelude::*;
use crate::constraint::{
    constraint_satisfied, parse_spec, render, ConstraintView, ParseError, VersionConstraint,
};
use crate::field::{Connector, Operator, VersionField};
use crate::grammar::{trim, trim_chars};
use crate::range::{
    bound_at_exec, kept, range_spec, space_run_exec,
};
use crate::text::{chars_of, copy_range, push_char, string_of};

verus! {

/// Constraints joined by one connector.
#[derive(Debug, Clone)]
pub struct VersionGroup {
    pub constraints: Vec<VersionConstraint>,
    pub connector: Connector,
}

pub type GroupView = (Seq<ConstraintView>, Connector);

pub open spec fn views(v: Seq<VersionConstraint>) -> Seq<ConstraintView> {
    v.map_values(|c: VersionConstraint| c@)
}

impl View for VersionGroup {
    type V = GroupView;

    open spec fn view(&self) -> GroupView {
        (views(self.constraints@), self.connector)
    }
}

/// A parsed version expression: its groups, any one of which may be met.
#[derive(Debug, Clone)]
pub struct VersionImpl {
    inner: Vec<VersionGroup>,
}

pub open spec fn group_views(v: Seq<VersionGroup>) -> Seq<GroupView> {
    v.map_values(|g: VersionGroup| g@)
}

impl View for VersionImpl {
    type V = Seq<GroupView>;

    closed spec fn view(&self) -> Seq<GroupView> {
        group_views(self.inner@)
    }
}

/// Position of the first `||` at or after `i`, or -1.
pub open spec fn pair_from(s: Seq<char>, i: int) -> int
    decreases s.len() - i,
{
    if i < 0 || i + 1 >= s.len() {
        -1
    } else if s[i] == '|' && s[i + 1] == '|' {
        i
    } else {
        pair_from(s, i + 1)
    }
}

pub proof fn lemma_pair_from(s: Seq<char>, i: int)
    requires
        0 <= i,
    ensures
        pair_from(s, i) == -1 || (i <= pair_from(s, i) && pair_from(s, i) + 1 < s.len()
            && s[pair_from(s, i)] == '|' && s[pair_from(s, i) + 1] == '|'),
    decreases s.len() - i,
{
    if i + 1 < s.len() && !(s[i] == '|' && s[i + 1] == '|') {
        lemma_pair_from(s, i + 1);
    }
}

/// The pieces of `s` between the `||` separators, left to right.
pub open spec fn split_bars(s: Seq<char>) -> Seq<Seq<char>>
    decreases s.len(),
    via split_bars_decreases
{
    let k = pair_from(s, 0);
    if k < 0 {
        seq![s]
    } else {
        seq![s.subrange(0, k)] + split_bars(s.subrange(k + 2, s.len() as int))
    }
}

#[via_fn]
proof fn split_bars_decreases(s: Seq<char>) {
    lemma_pair_from(s, 0);
}

pub open spec fn has_angle(p: Seq<char>) -> bool {
    exists|i: int| 0 <= i < p.len() && (p[i] == '<' || p[i] == '>')
}

/// The constraints one side of an expression denotes: a range when it holds
/// `<` or `>`, else a single constraint.
pub open spec fn part_spec(p: Seq<char>) -> Option<Seq<ConstraintView>> {
    if has_angle(p) {
        range_spec(trim(p))
    } else {
        match parse_spec(p) {
            Some(c) => Some(seq![c]),
            None => None,
        }
    }
}

pub open spec fn parts_ok(ps: Seq<Seq<char>>) -> bool {
    forall|i: int| 0 <= i < ps.len() ==> (#[trigger] part_spec(ps[i])) is Some
}

/// One or-connected group for each side of the separators.
pub open spec fn or_group(p: Seq<char>) -> GroupView {
    (part_spec(p).unwrap(), Connector::Or)
}

pub open spec fn or_groups(ps: Seq<Seq<char>>) -> Seq<GroupView> {
    ps.map_values(|p: Seq<char>| or_group(p))
}

pub open spec fn text_views(v: Seq<Vec<char>>) -> Seq<Seq<char>> {
    v.map_values(|p: Vec<char>| p@)
}

/// What an expression text denotes, or `None` when it is malformed.
pub open spec fn expr_spec(s: Seq<char>) -> Option<Seq<GroupView>> {
    if pair_from(s, 0) >= 0 {
        if parts_ok(split_bars(s)) {
            Some(or_groups(split_bars(s)))
        } else {
            None
        }
    } else {
        match part_spec(s) {
            Some(cs) => Some(seq![(cs, Connector::And)]),
            None => None,
        }
    }
}

/// A group is met when each of its constraints is.
pub open spec fn group_satisfied(g: GroupView, v: Seq<char>) -> bool {
    forall|j: int| 0 <= j < g.0.len() ==> constraint_satisfied(#[trigger] g.0[j], v)
}

/// An expression is met when one of its groups is.
pub open spec fn expr_satisfied(e: Seq<GroupView>, v: Seq<char>) -> bool {
    exists|i: int| 0 <= i < e.len() && group_satisfied(#[trigger] e[i], v)
}

/// A single and-connected group holding a single equality constraint whose three fields
/// are numbers.
pub open spec fn expr_is_exact(e: Seq<GroupView>) -> bool {
    &&& e.len() == 1
    &&& e[0].1 == Connector::And
    &&& e[0].0.len() == 1
    &&& e[0].0[0].0 == Operator::Equal
    &&& e[0].0[0].1 is Exact
    &&& e[0].0[0].2 is Exact
    &&& e[0].0[0].3 is Exact
}

fn push_kept(v: &mut Vec<VersionConstraint>, c: VersionConstraint)
    ensures
        views(final(v)@) == views(old(v)@) + kept(c@),
{
    let ghost before = views(v@);
    if c.major != VersionField::Wildcard || c.minor != VersionField::Wildcard || c.patch
        != VersionField::Wildcard {
        v.push(c);
        assert(views(v@) =~= before + kept(c@));
    } else {
        assert(views(v@) =~= before + kept(c@));
    }
}

fn find_pair(s: &Vec<char>) -> (r: Option<usize>)
    ensures
        match r {
            Some(k) => pair_from(s@, 0) == k as int,
            None => pair_from(s@, 0) < 0,
        },
{
    let n = s.len();
    let mut i: usize = 0;
    while n > 1 && i < n - 1
        invariant
            n == s@.len(),
            pair_from(s@, 0) == pair_from(s@, i as int),
        decreases n - i,
    {
        if s[i] == '|' && s[i + 1] == '|' {
            return Some(i);
        }
        i = i + 1;
    }
    None
}

fn has_angle_exec(p: &Vec<char>) -> (r: bool)
    ensures
        r == has_angle(p@),
{
    let mut i: usize = 0;
    while i < p.len()
        invariant
            i <= p@.len(),
            forall|j: int| 0 <= j < i ==> !(p@[j] == '<' || p@[j] == '>'),
        decreases p@.len() - i,
    {
        if p[i] == '<' || p[i] == '>' {
            return true;
        }
        i = i + 1;
    }
    false
}

impl VersionImpl {
    /// Parses a range of one or two bounds; bounds with no number are left out.
    fn parse_range(version: &Vec<char>) -> (r: Option<Vec<VersionConstraint>>)
        ensures
            match r {
                Some(cs) => range_spec(trim(version@)) == Some(views(cs@)),
                None => range_spec(trim(version@)) is None,
            },
    {
        let t = trim_chars(version);
        let n = t.len();
        let (b1, i5) = match bound_at_exec(&t, 0) {
            Some(p) => p,
            None => return None,
        };
        let ghost v1 = b1@;
        let mut out: Vec<VersionConstraint> = Vec::new();
        assert(views(out@) =~= Seq::<ConstraintView>::empty());
        push_kept(&mut out, b1);
        if i5 == n {
            assert(views(out@) =~= kept(v1));
            return Some(out);
        }
        let j0 = if t[i5] == ',' { i5 + 1 } else { i5 };
        let j1 = j0 + space_run_exec(&t, j0);
        let (b2, k) = match bound_at_exec(&t, j1) {
            Some(p) => p,
            None => return None,
        };
        if k != n {
            return None;
        }
        let ghost v2 = b2@;
        push_kept(&mut out, b2);
        assert(views(out@) =~= kept(v1) + kept(v2));
        Some(out)
    }

    /// The constraints of one side of an expression.
    fn parse_part(p: &Vec<char>) -> (r: Option<Vec<VersionConstraint>>)
        ensures
            match r {
                Some(cs) => part_spec(p@) == Some(views(cs@)),
                None => part_spec(p@) is None,
            },
    {
        if has_angle_exec(p) {
            Self::parse_range(p)
        } else {
            let text = string_of(p);
            match VersionConstraint::parse(text.as_str()) {
                Ok(c) => {
                    let v = vec![c];
                    assert(views(v@) =~= seq![c@]);
                    Some(v)
                },
                Err(_) => None,
            }
        }
    }

    /// Splits `s` at each `||`.
    fn split_parts(s: &Vec<char>) -> (r: Vec<Vec<char>>)
        ensures
            text_views(r@) == split_bars(s@),
    {
        let mut parts: Vec<Vec<char>> = Vec::new();
        let mut rest = copy_range(s, 0, s.len());
        assert(rest@ =~= s@);
        loop
            invariant
                text_views(parts@) + split_bars(rest@) == split_bars(s@),
            decreases rest@.len(),
        {
            match find_pair(&rest) {
                None => {
                    let ghost before = text_views(parts@);
                    let ghost last = rest@;
                    parts.push(rest);
                    assert(text_views(parts@) =~= before + seq![last]);
                    return parts;
                },
                Some(k) => {
                    proof {
                        lemma_pair_from(rest@, 0);
                    }
                    let head = copy_range(&rest, 0, k);
                    let tail = copy_range(&rest, k + 2, rest.len());
                    let ghost before = text_views(parts@);
                    let ghost hv = head@;
                    assert(split_bars(rest@) == seq![hv] + split_bars(tail@));
                    parts.push(head);
                    assert(text_views(parts@) =~= before + seq![hv]);
                    rest = tail;
                },
            }
        }
    }

    /// One or-connected group for each side, or `None` when a side is malformed.
    fn parse_parts(parts: &Vec<Vec<char>>) -> (r: Option<Vec<VersionGroup>>)
        ensures
            match r {
                Some(gs) => parts_ok(text_views(parts@)) && group_views(gs@) == or_groups(
                    text_views(parts@),
                ),
                None => !parts_ok(text_views(parts@)),
            },
    {
        let ghost ps = text_views(parts@);
        let mut groups: Vec<VersionGroup> = Vec::new();
        let mut i: usize = 0;
        while i < parts.len()
            invariant
                i <= parts@.len(),
                ps == text_views(parts@),
                forall|j: int| 0 <= j < i ==> (#[trigger] part_spec(ps[j])) is Some,
                groups@.len() == i,
                forall|j: int| 0 <= j < i ==> (#[trigger] groups@[j])@ == or_group(ps[j]),
            decreases parts@.len() - i,
        {
            assert(ps[i as int] == parts@[i as int]@);
            match Self::parse_part(&parts[i]) {
                Some(cs) => {
                    let g = VersionGroup { constraints: cs, connector: Connector::Or };
                    assert(g@ == or_group(ps[i as int]));
                    groups.push(g);
                    i = i + 1;
                },
                None => {
                    assert(part_spec(ps[i as int]) is None);
                    return None;
                },
            }
        }
        assert(group_views(groups@) =~= or_groups(ps));
        Some(groups)
    }

    /// Parses a whole expression into its groups.
    fn parse_constraints(version: &str) -> (r: Result<Vec<VersionGroup>, ParseError>)
        ensures
            match r {
                Ok(gs) => expr_spec(version@) == Some(group_views(gs@)),
                Err(e) => expr_spec(version@) is None && e.input@ == version@,
            },
    {
        let s = chars_of(version);
        let fail = ParseError { input: version.to_string() };
        if find_pair(&s).is_none() {
            match Self::parse_part(&s) {
                Some(cs) => {
                    let g = VersionGroup { constraints: cs, connector: Connector::And };
                    let v = vec![g];
                    assert(group_views(v@) =~= seq![g@]);
                    return Ok(v);
                },
                None => return Err(fail),
            }
        }
        let parts = Self::split_parts(&s);
        match Self::parse_parts(&parts) {
            Some(groups) => Ok(groups),
            None => Err(fail),
        }
    }
}

/// `parts` with `sep` between neighbours.
pub open spec fn join(parts: Seq<Seq<char>>, sep: Seq<char>) -> Seq<char>
    decreases parts.len(),
{
    if parts.len() == 0 {
        Seq::empty()
    } else if parts.len() == 1 {
        parts[0]
    } else {
        join(parts.drop_last(), sep) + sep + parts.last()
    }
}

/// A group written out: its constraints, separated by a space; a group with
/// no constraints is written `>=*`, a range whose bound is all wildcards.
pub open spec fn render_group(g: GroupView) -> Seq<char> {
    if g.0.len() == 0 {
        seq!['>', '=', '*']
    } else {
        join(g.0.map_values(|c: ConstraintView| render(c)), seq![' '])
    }
}

/// An expression written out: its groups, separated by ` || `.
pub open spec fn render_expr(e: Seq<GroupView>) -> Seq<char> {
    join(e.map_values(|g: GroupView| render_group(g)), seq![' ', '|', '|', ' '])
}

impl VersionGroup {
    /// Appends the canonical text of this group to `s`.
    pub fn write_to(&self, s: &mut String)
        ensures
            final(s)@ == old(s)@ + render_group(self@),
    {
        let ghost start = s@;
        if self.constraints.len() == 0 {
            push_char(s, '>');
            push_char(s, '=');
            push_char(s, '*');
            assert(s@ =~= start + render_group(self@));
            return;
        }
        let ghost rs = self@.0.map_values(|c: ConstraintView| render(c));
        let mut i: usize = 0;
        while i < self.constraints.len()
            invariant
                i <= self.constraints@.len(),
                rs == self@.0.map_values(|c: ConstraintView| render(c)),
                rs.len() == self.constraints@.len(),
                s@ == start + join(rs.subrange(0, i as int), seq![' ']),
            decreases self.constraints@.len() - i,
        {
            let ghost prev = s@;
            if i > 0 {
                push_char(s, ' ');
            }
            self.constraints[i].write_to(s);
            proof {
                let sub = rs.subrange(0, i + 1);
                assert(sub.drop_last() =~= rs.subrange(0, i as int));
                assert(rs[i as int] == render(self.constraints@[i as int]@));
                if i == 0 {
                    assert(rs.subrange(0, 0) =~= Seq::<Seq<char>>::empty());
                    assert(s@ =~= start + join(sub, seq![' ']));
                } else {
                    assert(s@ =~= start + join(sub, seq![' ']));
                }
            }
            i = i + 1;
        }
        assert(rs.subrange(0, i as int) =~= rs);
        assert(s@ == start + render_group(self@));
    }
}

fn group_satisfies(g: &VersionGroup, version: &str) -> (r: bool)
    ensures
        r == group_satisfied(g@, version@),
{
    let mut j: usize = 0;
    while j < g.constraints.len()
        invariant
            j <= g.constraints@.len(),
            forall|k: int| 0 <= k < j ==> constraint_satisfied(#[trigger] g@.0[k], version@),
        decreases g.constraints@.len() - j,
    {
        if !g.constraints[j].satisfies(version) {
            assert(!constraint_satisfied(g@.0[j as int], version@));
            return false;
        }
        j = j + 1;
    }
    true
}

impl VersionImpl {
    /// Parses a version expression.
    pub fn new(version: &str) -> (r: Result<VersionImpl, ParseError>)
        ensures
            match r {
                Ok(v) => expr_spec(version@) == Some(v@),
                Err(e) => expr_spec(version@) is None && e.input@ == version@,
            },
    {
        match Self::parse_constraints(version) {
            Ok(inner) => Ok(VersionImpl { inner }),
            Err(e) => Err(e),
        }
    }

    /// The groups of this expression.
    pub fn groups(&self) -> (r: &Vec<VersionGroup>)
        ensures
            group_views(r@) == self@,
    {
        &self.inner
    }

    /// Whether the expression pins exactly one version.
    pub fn is_exact(&self) -> (r: bool)
        ensures
            r == expr_is_exact(self@),
    {
        if self.inner.len() != 1 {
            return false;
        }
        let group = &self.inner[0];
        if group.connector != Connector::And || group.constraints.len() != 1 {
            return false;
        }
        let c = &group.constraints[0];
        if c.operator != Operator::Equal {
            return false;
        }
        match (&c.major, &c.minor, &c.patch) {
            (VersionField::Exact(_), VersionField::Exact(_), VersionField::Exact(_)) => true,
            _ => false,
        }
    }

    /// Whether the version text meets one of the groups.
    pub fn satisfies(&self, version: &str) -> (r: bool)
        ensures
            r == expr_satisfied(self@, version@),
    {
        let mut i: usize = 0;
        while i < self.inner.len()
            invariant
                i <= self.inner@.len(),
                forall|k: int| 0 <= k < i ==> !group_satisfied(#[trigger] self@[k], version@),
            decreases self.inner@.len() - i,
        {
            if group_satisfies(&self.inner[i], version) {
                assert(group_satisfied(self@[i as int], version@));
                return true;
            }
            i = i + 1;
        }
        false
    }

    /// The canonical text of this expression.
    pub fn to_string(&self) -> (r: String)
        ensures
            r@ == render_expr(self@),
    {
        let mut s = String::new();
        let ghost rs = self@.map_values(|g: GroupView| render_group(g));
        let ghost sep = seq![' ', '|', '|', ' '];
        let mut i: usize = 0;
        while i < self.inner.len()
            invariant
                i <= self.inner@.len(),
                rs == self@.map_values(|g: GroupView| render_group(g)),
                rs.len() == self.inner@.len(),
                sep == seq![' ', '|', '|', ' '],
                s@ == join(rs.subrange(0, i as int), sep),
            decreases self.inner@.len() - i,
        {
            if i > 0 {
                push_char(&mut s, ' ');
                push_char(&mut s, '|');
                push_char(&mut s, '|');
                push_char(&mut s, ' ');
            }
            self.inner[i].write_to(&mut s);
            proof {
                let sub = rs.subrange(0, i + 1);
                assert(sub.drop_last() =~= rs.subrange(0, i as int));
                assert(rs[i as int] == render_group(self.inner@[i as int]@));
                if i == 0 {
                    assert(s@ =~= join(sub, sep));
                } else {
                    assert(s@ =~= join(sub, sep));
                }
            }
            i = i + 1;
        }
        assert(rs.subrange(0, i as int) =~= rs);
        s
    }
}

} // verus!

verus! {

/// A parsed version expression that versions can be checked against.
pub trait Version: Sized {
    fn new(version: &str) -> Result<Self, ParseError>;

    fn satisfies(&self, version: &str) -> bool;

    fn is_exact(&self) -> bool;
}

/// Something a concrete version text can be checked against.
pub trait Satisfies {
    fn satisfies(&self, version: &str) -> bool;
}

impl Version for VersionImpl {
    fn new(version: &str) -> Result<Self, ParseError> {
        VersionImpl::new(version)
    }

    fn satisfies(&self, version: &str) -> bool {
        VersionImpl::satisfies(self, version)
    }

    fn is_exact(&self) -> bool {
        VersionImpl::is_exact(self)
    }
}

impl Satisfies for VersionConstraint {
    fn satisfies(&self, version: &str) -> bool {
        VersionConstraint::satisfies(self, version)
    }
}

} // verus!
