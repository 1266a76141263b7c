//! Finding the Docker daemon in a process listing.

use vstd::prelude::*;
use crate::text::{chars_eq, chars_of};

verus! {

/// A process as the exporter sees it.
pub struct ProcEntry {
    pub pid: u32,
    pub name: String,
    pub parent: Option<u32>,
}

pub open spec fn is_dockerd(p: ProcEntry) -> bool {
    p.name@ == "dockerd"@
}

/// The parent's pid, 0 where there is none.
pub open spec fn parent_or_zero(p: ProcEntry) -> u32 {
    match p.parent {
        Some(q) => q,
        None => 0,
    }
}

/// The first position at or after `i` of a `dockerd` whose parent is 1
/// (when `top_level`), or of any `dockerd`; -1 where there is none.
pub open spec fn first_dockerd(ps: Seq<ProcEntry>, top_level: bool, i: int) -> int
    decreases ps.len() - i,
{
    if i < 0 || i >= ps.len() {
        -1
    } else if is_dockerd(ps[i]) && (!top_level || parent_or_zero(ps[i]) == 1) {
        i
    } else {
        first_dockerd(ps, top_level, i + 1)
    }
}

/// The main `dockerd`: the first one started by init, else the first one.
pub open spec fn main_dockerd(ps: Seq<ProcEntry>) -> Option<u32> {
    if first_dockerd(ps, true, 0) >= 0 {
        Some(ps[first_dockerd(ps, true, 0)].pid)
    } else if first_dockerd(ps, false, 0) >= 0 {
        Some(ps[first_dockerd(ps, false, 0)].pid)
    } else {
        None
    }
}

proof fn lemma_first_dockerd_range(ps: Seq<ProcEntry>, top_level: bool, i: int)
    requires
        0 <= i,
    ensures
        first_dockerd(ps, top_level, i) == -1 || (i <= first_dockerd(ps, top_level, i) < ps.len()),
    decreases ps.len() - i,
{
    if i < ps.len() && !(is_dockerd(ps[i]) && (!top_level || parent_or_zero(ps[i]) == 1)) {
        lemma_first_dockerd_range(ps, top_level, i + 1);
    }
}

fn scan_dockerd(procs: &Vec<ProcEntry>, top_level: bool) -> (r: Option<u32>)
    ensures
        match r {
            Some(pid) => first_dockerd(procs@, top_level, 0) >= 0 && pid == procs@[first_dockerd(
                procs@,
                top_level,
                0,
            )].pid,
            None => first_dockerd(procs@, top_level, 0) < 0,
        },
{
    let name = chars_of("dockerd");
    let mut i: usize = 0;
    proof {
        lemma_first_dockerd_range(procs@, top_level, 0);
    }
    while i < procs.len()
        invariant
            i <= procs@.len(),
            name@ == "dockerd"@,
            first_dockerd(procs@, top_level, 0) == first_dockerd(procs@, top_level, i as int),
        decreases procs@.len() - i,
    {
        let p = &procs[i];
        let pname = chars_of(p.name.as_str());
        let parent = match p.parent {
            Some(q) => q,
            None => 0,
        };
        if chars_eq(&pname, &name) && (!top_level || parent == 1) {
            return Some(p.pid);
        }
        i = i + 1;
    }
    None
}

/// The pid of the main Docker daemon: the first `dockerd` whose parent is
/// init, else the first `dockerd`.
pub fn find_main_dockerd_pid(procs: &Vec<ProcEntry>) -> (r: Option<u32>)
    ensures
        r == main_dockerd(procs@),
{
    match scan_dockerd(procs, true) {
        Some(pid) => Some(pid),
        None => scan_dockerd(procs, false),
    }
}

/// The `dockerd` processes counted with the main one: itself and its
/// `dockerd` children.
pub open spec fn in_dockerd_group(p: ProcEntry, main_pid: u32) -> bool {
    is_dockerd(p) && (p.pid == main_pid || parent_or_zero(p) == main_pid)
}

/// The positions in `procs` of the main daemon `main_pid` and of its
/// `dockerd` children, in order.
pub fn dockerd_group(procs: &Vec<ProcEntry>, main_pid: u32) -> (r: Vec<usize>)
    ensures
        forall|a: int| 0 <= a < r@.len() ==> r@[a] < procs@.len() && in_dockerd_group(procs@[r@[a] as int], main_pid),
        forall|j: int| 0 <= j < procs@.len() && in_dockerd_group(procs@[j], main_pid) ==> r@.contains(j as usize),
        forall|a: int, b: int| 0 <= a < b < r@.len() ==> r@[a] < r@[b],
{
    let name = chars_of("dockerd");
    let mut r: Vec<usize> = Vec::new();
    let mut i: usize = 0;
    while i < procs.len()
        invariant
            i <= procs@.len(),
            name@ == "dockerd"@,
            forall|a: int| 0 <= a < r@.len() ==> r@[a] < i && in_dockerd_group(procs@[r@[a] as int], main_pid),
            forall|j: int| 0 <= j < i && in_dockerd_group(procs@[j], main_pid) ==> r@.contains(j as usize),
            forall|a: int, b: int| 0 <= a < b < r@.len() ==> r@[a] < r@[b],
        decreases procs@.len() - i,
    {
        let p = &procs[i];
        let pname = chars_of(p.name.as_str());
        let parent = match p.parent {
            Some(q) => q,
            None => 0,
        };
        if chars_eq(&pname, &name) && (p.pid == main_pid || parent == main_pid) {
            let ghost before = r@;
            r.push(i);
            assert forall|j: int| 0 <= j < i + 1 && in_dockerd_group(procs@[j], main_pid) implies r@.contains(j as usize) by {
                if j < i {
                    let w = choose|w: int| 0 <= w < before.len() && before[w] == j as usize;
                    assert(r@[w] == j as usize);
                } else {
                    assert(r@[before.len() as int] == i);
                }
            }
        }
        i = i + 1;
    }
    r
}

} // verus!
