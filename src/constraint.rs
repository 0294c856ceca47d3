//! A single version constraint: operator, three fields and optional labels.
use vstd::prelude::*;
use crate::field::{field_admits, field_text, operator_text, Operator, VersionField};
use crate::grammar::{
    dotted_field, dotted_field_exec, field_at, field_at_exec, labelled, labelled_exec, op_prefix,
    op_prefix_exec, trim, trim_chars,
};
use crate::text::{chars_of, label_view, push_all, push_char};

verus! {

/// A malformed version expression; it carries the offending text.
#[derive(Debug, Clone)]
pub struct ParseError {
    pub input: String,
}

#[derive(Debug, Clone)]
pub struct VersionConstraint {
    pub operator: Operator,
    pub major: VersionField,
    pub minor: VersionField,
    pub patch: VersionField,
    pub pre_release: Option<String>,
    pub build: Option<String>,
}

/// Operator, major, minor, patch, pre-release label and build label.
pub type ConstraintView = (
    Operator,
    VersionField,
    VersionField,
    VersionField,
    Option<Seq<char>>,
    Option<Seq<char>>,
);

impl View for VersionConstraint {
    type V = ConstraintView;

    open spec fn view(&self) -> ConstraintView {
        (
            self.operator,
            self.major,
            self.minor,
            self.patch,
            label_view(self.pre_release),
            label_view(self.build),
        )
    }
}

/// The constraint that matches every version.
pub open spec fn any_version() -> ConstraintView {
    (
        Operator::Equal,
        VersionField::Wildcard,
        VersionField::Wildcard,
        VersionField::Wildcard,
        None,
        None,
    )
}

/// The words that stand for any version.
pub open spec fn is_any_word(t: Seq<char>) -> bool {
    t == seq!['*'] || t == seq!['x'] || t == seq!['l', 'a', 't', 'e', 's', 't']
}

/// What a constraint text denotes, or `None` when it is malformed: after
/// trimming white space, an optional operator, `major[.minor[.patch]]` (each a
/// number, `x` or `*`; missing ones are wildcards), an optional `-label` and
/// an optional `+label`, and nothing more.
pub open spec fn parse_spec(s: Seq<char>) -> Option<ConstraintView> {
    let t = trim(s);
    if is_any_word(t) {
        Some(any_version())
    } else {
        let (op, i0) = op_prefix(t);
        match field_at(t, i0) {
            None => None,
            Some((major, i1)) => match dotted_field(t, i1) {
                None => None,
                Some((minor, i2)) => match dotted_field(t, i2) {
                    None => None,
                    Some((patch, i3)) => match labelled(t, i3, '-') {
                        None => None,
                        Some((pre, i4)) => match labelled(t, i4, '+') {
                            None => None,
                            Some((build, i5)) => if i5 == t.len() {
                                Some((op, major, minor, patch, pre, build))
                            } else {
                                None
                            },
                        },
                    },
                },
            },
        }
    }
}

/// A required label admits a candidate only when the candidate carries the
/// very same label; no requirement admits anything.
pub open spec fn label_admits(required: Option<Seq<char>>, candidate: Option<Seq<char>>) -> bool {
    required is None || required == candidate
}

/// Field-wise matching of a candidate against a constraint. The operator
/// takes no part in it.
pub open spec fn constraint_admits(c: ConstraintView, v: ConstraintView) -> bool {
    &&& field_admits(c.1, v.1)
    &&& field_admits(c.2, v.2)
    &&& field_admits(c.3, v.3)
    &&& label_admits(c.4, v.4)
    &&& label_admits(c.5, v.5)
}

/// Whether the version text `v` satisfies the constraint `c`; a malformed
/// version satisfies nothing.
pub open spec fn constraint_satisfied(c: ConstraintView, v: Seq<char>) -> bool {
    match parse_spec(v) {
        Some(w) => constraint_admits(c, w),
        None => false,
    }
}

pub open spec fn label_text(mark: char, l: Option<Seq<char>>) -> Seq<char> {
    match l {
        Some(x) => seq![mark] + x,
        None => Seq::empty(),
    }
}

/// Canonical text: the operator (none for equality), `major.minor.patch`,
/// then `-pre` and `+build` when present.
pub open spec fn render(c: ConstraintView) -> Seq<char> {
    (if c.0 == Operator::Equal { Seq::empty() } else { operator_text(c.0) }) + field_text(c.1)
        + seq!['.'] + field_text(c.2) + seq!['.'] + field_text(c.3) + label_text('-', c.4)
        + label_text('+', c.5)
}

fn is_any_word_exec(t: &Vec<char>) -> (r: bool)
    ensures
        r == is_any_word(t@),
{
    if t.len() == 1 && (t[0] == '*' || t[0] == 'x') {
        assert(t@ =~= seq!['*'] || t@ =~= seq!['x']);
        true
    } else if t.len() == 6 && t[0] == 'l' && t[1] == 'a' && t[2] == 't' && t[3] == 'e' && t[4]
        == 's' && t[5] == 't' {
        assert(t@ =~= seq!['l', 'a', 't', 'e', 's', 't']);
        true
    } else {
        assert(t@.len() == 1 ==> t@ != seq!['*'] && t@ != seq!['x']) by {
            if t@.len() == 1 {
                assert(seq!['*'][0] == '*');
                assert(seq!['x'][0] == 'x');
            }
        }
        assert(t@.len() == 6 ==> t@ != seq!['l', 'a', 't', 'e', 's', 't']) by {
            if t@.len() == 6 && t@ == seq!['l', 'a', 't', 'e', 's', 't'] {
                assert(t@[0] == 'l' && t@[1] == 'a' && t@[2] == 't' && t@[3] == 'e' && t@[4] == 's'
                    && t@[5] == 't');
            }
        }
        false
    }
}

fn write_label(s: &mut String, mark: char, l: &Option<String>)
    ensures
        final(s)@ == old(s)@ + label_text(mark, label_view(*l)),
{
    if let Some(x) = l {
        push_char(s, mark);
        let xv = chars_of(x.as_str());
        push_all(s, &xv);
    }
    assert(final(s)@ =~= old(s)@ + label_text(mark, label_view(*l)));
}

fn copy_label(l: &Option<String>) -> (r: Option<String>)
    ensures
        label_view(r) == label_view(*l),
{
    match l {
        Some(s) => Some(s.clone()),
        None => None,
    }
}

impl VersionConstraint {
    /// Parses one constraint.
    pub fn parse(version: &str) -> (r: Result<VersionConstraint, ParseError>)
        ensures
            match r {
                Ok(c) => parse_spec(version@) == Some(c@),
                Err(e) => parse_spec(version@) is None && e.input@ == version@,
            },
    {
        let chars = chars_of(version);
        let t = trim_chars(&chars);
        if is_any_word_exec(&t) {
            return Ok(
                VersionConstraint {
                    operator: Operator::Equal,
                    major: VersionField::Wildcard,
                    minor: VersionField::Wildcard,
                    patch: VersionField::Wildcard,
                    pre_release: None,
                    build: None,
                },
            );
        }
        let fail = ParseError { input: version.to_string() };
        let (operator, i0) = op_prefix_exec(&t);
        let (major, i1) = match field_at_exec(&t, i0) {
            Some(p) => p,
            None => return Err(fail),
        };
        let (minor, i2) = match dotted_field_exec(&t, i1) {
            Some(p) => p,
            None => return Err(fail),
        };
        let (patch, i3) = match dotted_field_exec(&t, i2) {
            Some(p) => p,
            None => return Err(fail),
        };
        let (pre_release, i4) = match labelled_exec(&t, i3, '-') {
            Some(p) => p,
            None => return Err(fail),
        };
        let (build, i5) = match labelled_exec(&t, i4, '+') {
            Some(p) => p,
            None => return Err(fail),
        };
        if i5 != t.len() {
            return Err(fail);
        }
        Ok(VersionConstraint { operator, major, minor, patch, pre_release, build })
    }

    /// Whether the version text satisfies this constraint, field by field.
    pub fn satisfies(&self, version: &str) -> (r: bool)
        ensures
            r == constraint_satisfied(self@, version@),
    {
        let v = match VersionConstraint::parse(version) {
            Ok(v) => v,
            Err(_) => return false,
        };
        if !self.major.admits(&v.major) || !self.minor.admits(&v.minor) || !self.patch.admits(
            &v.patch,
        ) {
            return false;
        }
        if let Some(p) = &self.pre_release {
            match &v.pre_release {
                Some(q) => {
                    if !(*p == *q) {
                        return false;
                    }
                },
                None => return false,
            }
        }
        if let Some(b) = &self.build {
            match &v.build {
                Some(q) => {
                    if !(*b == *q) {
                        return false;
                    }
                },
                None => return false,
            }
        }
        true
    }

    /// Appends the canonical text of this constraint to `s`.
    pub fn write_to(&self, s: &mut String)
        ensures
            final(s)@ == old(s)@ + render(self@),
    {
        let ghost start = s@;
        match self.operator {
            Operator::Equal => {},
            op => op.write_to(s),
        }
        let ghost a = s@;
        self.major.write_to(s);
        push_char(s, '.');
        let ghost b = s@;
        self.minor.write_to(s);
        push_char(s, '.');
        let ghost c = s@;
        self.patch.write_to(s);
        let ghost d = s@;
        write_label(s, '-', &self.pre_release);
        let ghost e = s@;
        write_label(s, '+', &self.build);
        assert(b =~= a + field_text(self.major) + seq!['.']);
        assert(c =~= b + field_text(self.minor) + seq!['.']);
        assert(s@ =~= start + render(self@));
    }

    /// The canonical text of this constraint.
    pub fn to_string(&self) -> (r: String)
        ensures
            r@ == render(self@),
    {
        let mut s = String::new();
        self.write_to(&mut s);
        assert(s@ =~= render(self@));
        s
    }

    /// A field-for-field copy.
    pub fn duplicate(&self) -> (r: VersionConstraint)
        ensures
            r@ == self@,
    {
        VersionConstraint {
            operator: self.operator,
            major: self.major,
            minor: self.minor,
            patch: self.patch,
            pre_release: copy_label(&self.pre_release),
            build: copy_label(&self.build),
        }
    }
}

} // verus!
