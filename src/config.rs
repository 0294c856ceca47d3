//! The settings file: one `key=value` setting per line.
use vstd::prelude::*;
use crate::table::{keys_unique, lemma_table_domain, lemma_table_push, lemma_table_update, table_map};
use crate::text::{copy_range, label_view};

verus! {

/// Position of the first `=` in `t`, or its length.
pub open spec fn first_eq(t: Seq<char>) -> int
    decreases t.len(),
{
    if t.len() == 0 {
        0
    } else if first_eq(t.drop_last()) < t.len() - 1 {
        first_eq(t.drop_last())
    } else if t.last() == '=' {
        t.len() - 1
    } else {
        t.len() as int
    }
}

/// Position of the last newline in `t`, or -1.
pub open spec fn last_newline(t: Seq<char>) -> int
    decreases t.len(),
{
    if t.len() == 0 {
        -1
    } else if t.last() == '\n' {
        t.len() - 1
    } else {
        last_newline(t.drop_last())
    }
}

/// The key of a line: the text before its first `=`.
pub open spec fn line_key(line: Seq<char>) -> Seq<char> {
    line.subrange(0, first_eq(line))
}

/// The value of a line: the text between its first `=` and the next one (or
/// the end), or nothing when the line has no `=`.
pub open spec fn line_value(line: Seq<char>) -> Option<Seq<char>> {
    let e = first_eq(line);
    if e == line.len() {
        None
    } else {
        let rest = line.subrange(e + 1, line.len() as int);
        Some(rest.subrange(0, first_eq(rest)))
    }
}

/// The settings a text holds: each line in turn sets its key, so a later
/// line wins over an earlier one with the same key.
pub open spec fn config_spec(s: Seq<char>) -> Map<Seq<char>, Option<Seq<char>>>
    decreases s.len(),
{
    let k = last_newline(s);
    if 0 <= k < s.len() {
        let line = s.subrange(k + 1, s.len() as int);
        config_spec(s.subrange(0, k)).insert(line_key(line), line_value(line))
    } else {
        Map::empty().insert(line_key(s), line_value(s))
    }
}

pub open spec fn config_view(v: Seq<(String, Option<String>)>) -> Map<Seq<char>, Option<Seq<char>>> {
    table_map(v).map_values(|o: Option<String>| label_view(o))
}

proof fn lemma_first_eq(t: Seq<char>)
    ensures
        0 <= first_eq(t) <= t.len(),
        first_eq(t) < t.len() ==> t[first_eq(t)] == '=',
        forall|j: int| 0 <= j < first_eq(t) ==> t[j] != '=',
    decreases t.len(),
{
    if t.len() > 0 {
        let d = t.drop_last();
        lemma_first_eq(d);
        assert forall|j: int| 0 <= j < t.len() - 1 implies t[j] == d[j] by {}
    }
}

proof fn lemma_last_newline(t: Seq<char>)
    ensures
        -1 <= last_newline(t) < t.len(),
        last_newline(t) >= 0 ==> t[last_newline(t)] == '\n',
        forall|j: int| last_newline(t) < j < t.len() ==> t[j] != '\n',
    decreases t.len(),
{
    if t.len() > 0 {
        lemma_last_newline(t.drop_last());
        if t.last() != '\n' {
            assert forall|j: int| last_newline(t) < j < t.len() implies t[j] != '\n' by {
                if j < t.len() - 1 {
                    assert(t[j] == t.drop_last()[j]);
                }
            }
        }
    }
}

proof fn lemma_last_newline_at(t: Seq<char>, k: int)
    requires
        -1 <= k < t.len(),
        k >= 0 ==> t[k] == '\n',
        forall|j: int| k < j < t.len() ==> t[j] != '\n',
    ensures
        last_newline(t) == k,
    decreases t.len(),
{
    if t.len() > 0 && t.len() - 1 != k {
        lemma_last_newline_at(t.drop_last(), k);
    }
}

fn first_eq_exec(t: &Vec<char>) -> (r: usize)
    ensures
        r == first_eq(t@),
        r <= t@.len(),
{
    proof {
        lemma_first_eq(t@);
    }
    let mut i: usize = 0;
    while i < t.len() && t[i] != '='
        invariant
            i <= t@.len(),
            i <= first_eq(t@),
            0 <= first_eq(t@) <= t@.len(),
            first_eq(t@) < t@.len() ==> t@[first_eq(t@)] == '=',
            forall|j: int| 0 <= j < first_eq(t@) ==> t@[j] != '=',
        decreases t@.len() - i,
    {
        i = i + 1;
    }
    i
}

/// Sets `key` to `value`, replacing an earlier setting of the same key.
fn set_entry(out: &mut Vec<(String, Option<String>)>, key: String, value: Option<String>)
    requires
        keys_unique(old(out)@),
    ensures
        keys_unique(final(out)@),
        config_view(final(out)@) == config_view(old(out)@).insert(key@, label_view(value)),
{
    let ghost before = out@;
    let ghost kv = key@;
    let ghost vv = label_view(value);
    let mut i: usize = 0;
    while i < out.len() && !(out[i].0 == key)
        invariant
            out@ == before,
            keys_unique(before),
            kv == key@,
            i <= out@.len(),
            forall|j: int| 0 <= j < i ==> out@[j].0@ != key@,
        decreases out@.len() - i,
    {
        i = i + 1;
    }
    let p = (key, value);
    if i < out.len() {
        proof {
            lemma_table_update(before, i as int, p);
        }
        out.set(i, p);
    } else {
        proof {
            lemma_table_domain(before, kv);
            lemma_table_push(before, p);
        }
        out.push(p);
    }
    assert(config_view(out@) =~= config_view(before).insert(kv, vv));
}

fn apply_line(out: &mut Vec<(String, Option<String>)>, line: &Vec<char>)
    requires
        keys_unique(old(out)@),
    ensures
        keys_unique(final(out)@),
        config_view(final(out)@) == config_view(old(out)@).insert(line_key(line@), line_value(line@)),
{
    let e = first_eq_exec(line);
    let key = crate::text::string_of(&copy_range(line, 0, e));
    if e == line.len() {
        set_entry(out, key, None);
    } else {
        let rest = copy_range(line, e + 1, line.len());
        let f = first_eq_exec(&rest);
        let value = crate::text::string_of(&copy_range(&rest, 0, f));
        set_entry(out, key, Some(value));
    }
}

/// Reads the settings of a file's text.
pub fn parse_config(conf: String) -> (r: Vec<(String, Option<String>)>)
    ensures
        keys_unique(r@),
        config_view(r@) == config_spec(conf@),
{
    let s = crate::text::chars_of(conf.as_str());
    let n = s.len();
    let mut out: Vec<(String, Option<String>)> = Vec::new();
    let mut start: usize = 0;
    let mut i: usize = 0;
    assert(config_view(out@) =~= Map::<Seq<char>, Option<Seq<char>>>::empty());
    while i < n
        invariant
            n == s@.len(),
            s@ == conf@,
            start <= i <= n,
            forall|j: int| start <= j < i ==> s@[j] != '\n',
            start > 0 ==> s@[start - 1] == '\n',
            keys_unique(out@),
            start > 0 ==> config_view(out@) == config_spec(s@.subrange(0, start - 1)),
            start == 0 ==> config_view(out@) == Map::<Seq<char>, Option<Seq<char>>>::empty(),
        decreases n - i,
    {
        if s[i] == '\n' {
            take_line(&mut out, &s, start, i);
            start = i + 1;
        }
        i = i + 1;
    }
    take_line(&mut out, &s, start, n);
    assert(s@.subrange(0, n as int) =~= s@);
    out
}

/// Applies the line `s[start..end]`, which ends the text `s[..end]`.
fn take_line(out: &mut Vec<(String, Option<String>)>, s: &Vec<char>, start: usize, end: usize)
    requires
        start <= end <= s@.len(),
        forall|j: int| start <= j < end ==> s@[j] != '\n',
        start > 0 ==> s@[start - 1] == '\n',
        keys_unique(old(out)@),
        start > 0 ==> config_view(old(out)@) == config_spec(s@.subrange(0, start - 1)),
        start == 0 ==> config_view(old(out)@) == Map::<Seq<char>, Option<Seq<char>>>::empty(),
    ensures
        keys_unique(final(out)@),
        config_view(final(out)@) == config_spec(s@.subrange(0, end as int)),
{
    let line = copy_range(s, start, end);
    apply_line(out, &line);
    proof {
        let t = s@.subrange(0, end as int);
        lemma_last_newline_at(t, start - 1);
        assert(t.subrange(start as int, t.len() as int) =~= line@);
        if start > 0 {
            assert(t.subrange(0, start - 1) =~= s@.subrange(0, start - 1));
        }
    }
}

/// Reads the settings file.
pub struct ConfigReader;

impl ConfigReader {
    pub fn new() -> (r: ConfigReader) {
        ConfigReader
    }
}

} // verus!
