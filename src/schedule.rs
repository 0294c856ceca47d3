//! Ordering decisions of the install run: a package's lifecycle scripts run
//! only after the package and all of its dependencies are installed.
use vstd::prelude::*;

verus! {

/// Item `i` may run: it has not run yet, it is installed, and each of its
/// dependencies (indices into the same list) has run.
pub open spec fn ready(ran: Seq<bool>, installed: Seq<bool>, deps: Seq<Vec<usize>>, i: int) -> bool {
    &&& !ran[i]
    &&& installed[i]
    &&& forall|k: int| 0 <= k < deps[i]@.len() ==> (#[trigger] deps[i]@[k]) < ran.len() && ran[deps[i]@[k] as int]
}

fn deps_done(ran: &Vec<bool>, d: &Vec<usize>) -> (r: bool)
    ensures
        r == forall|k: int| 0 <= k < d@.len() ==> (#[trigger] d@[k]) < ran@.len() && ran@[d@[k] as int],
{
    let mut k: usize = 0;
    while k < d.len()
        invariant
            k <= d@.len(),
            forall|j: int| 0 <= j < k ==> (#[trigger] d@[j]) < ran@.len() && ran@[d@[j] as int],
        decreases d@.len() - k,
    {
        if d[k] >= ran.len() || !ran[d[k]] {
            return false;
        }
        k = k + 1;
    }
    true
}

/// The first item whose scripts may run now, or `None` when none may.
pub fn next_to_run(ran: &Vec<bool>, installed: &Vec<bool>, deps: &Vec<Vec<usize>>) -> (r: Option<usize>)
    requires
        ran@.len() == installed@.len(),
        ran@.len() == deps@.len(),
    ensures
        match r {
            Some(i) => i < ran@.len() && ready(ran@, installed@, deps@, i as int) && forall|j: int|
                0 <= j < i ==> !ready(ran@, installed@, deps@, j),
            None => forall|j: int| 0 <= j < ran@.len() ==> !ready(ran@, installed@, deps@, j),
        },
{
    let mut i: usize = 0;
    while i < ran.len()
        invariant
            i <= ran@.len(),
            ran@.len() == installed@.len(),
            ran@.len() == deps@.len(),
            forall|j: int| 0 <= j < i ==> !ready(ran@, installed@, deps@, j),
        decreases ran@.len() - i,
    {
        if !ran[i] && installed[i] && deps_done(ran, &deps[i]) {
            return Some(i);
        }
        i = i + 1;
    }
    None
}

/// Whether every item has run.
pub fn all_ran(ran: &Vec<bool>) -> (r: bool)
    ensures
        r == forall|j: int| 0 <= j < ran@.len() ==> ran@[j],
{
    let mut i: usize = 0;
    while i < ran.len()
        invariant
            i <= ran@.len(),
            forall|j: int| 0 <= j < i ==> ran@[j],
        decreases ran@.len() - i,
    {
        if !ran[i] {
            return false;
        }
        i = i + 1;
    }
    true
}

} // verus!
