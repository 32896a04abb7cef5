//! The parent/child forest of a snapshot.
//!
//! Each record's parent is the first record of the snapshot that carries its
//! parent pid. A record whose chain of parents leads back to itself within as
//! many steps as there are records is on a cycle, and becomes a root.

use vstd::prelude::*;
use std::collections::HashMap;

use crate::record::ProcessRecord;

verus! {

broadcast use vstd::std_specs::hash::group_hash_axioms;

/// One process in the forest: its pid, its name, and the position of its
/// parent in the same list, or `None` for a root.
pub struct TreeNode {
    pub pid: u32,
    pub name: String,
    pub parent: Option<usize>,
}

/// `j` is the first position in `s` that holds pid `p`.
pub open spec fn is_first_with_pid(s: Seq<ProcessRecord>, p: u32, j: int) -> bool {
    &&& 0 <= j < s.len()
    &&& s[j].pid == p
    &&& forall|k: int| 0 <= k < j ==> s[k].pid != p
}

/// The first position in `s` that holds pid `p`, if any.
pub open spec fn pid_index(s: Seq<ProcessRecord>, p: u32) -> Option<int> {
    if exists|j: int| is_first_with_pid(s, p, j) {
        Some(choose|j: int| is_first_with_pid(s, p, j))
    } else {
        None
    }
}

/// The position of the record that `s[i]` names as its parent, if present.
pub open spec fn candidate_parent(s: Seq<ProcessRecord>, i: int) -> Option<int> {
    match s[i].parent_pid {
        Some(pp) => pid_index(s, pp),
        None => None,
    }
}

/// Where `k` steps up the chain of candidate parents lead from `i`.
pub open spec fn walk(s: Seq<ProcessRecord>, i: int, k: nat) -> Option<int>
    decreases k,
{
    if k == 0 {
        Some(i)
    } else {
        match walk(s, i, (k - 1) as nat) {
            Some(j) => candidate_parent(s, j),
            None => None,
        }
    }
}

/// The chain of candidate parents from `i` comes back to `i`.
pub open spec fn on_cycle(s: Seq<ProcessRecord>, i: int) -> bool {
    exists|k: nat| 1 <= k <= s.len() && #[trigger] walk(s, i, k) == Some(i)
}

/// The parent of `s[i]` in the forest: its candidate parent, unless `i` is
/// on a cycle.
pub open spec fn tree_parent(s: Seq<ProcessRecord>, i: int) -> Option<int> {
    if on_cycle(s, i) {
        None
    } else {
        candidate_parent(s, i)
    }
}

pub open spec fn opt_index(o: Option<usize>) -> Option<int> {
    match o {
        Some(j) => Some(j as int),
        None => None,
    }
}

/// `nodes` is the forest of `s`: one node per record, in the same order.
pub open spec fn is_forest_of(s: Seq<ProcessRecord>, nodes: Seq<TreeNode>) -> bool {
    &&& nodes.len() == s.len()
    &&& forall|i: int|
        0 <= i < s.len() ==> {
            &&& (#[trigger] nodes[i]).pid == s[i].pid
            &&& nodes[i].name@ == s[i].name@
            &&& opt_index(nodes[i].parent) == tree_parent(s, i)
        }
}

/// Where `k` steps up the parent links of the forest of `s` lead from `i`.
pub open spec fn forest_walk(s: Seq<ProcessRecord>, i: int, k: nat) -> Option<int>
    decreases k,
{
    if k == 0 {
        Some(i)
    } else {
        match forest_walk(s, i, (k - 1) as nat) {
            Some(j) => tree_parent(s, j),
            None => None,
        }
    }
}

proof fn lemma_forest_walk_is_walk(s: Seq<ProcessRecord>, i: int, k: nat)
    ensures
        forest_walk(s, i, k) is Some ==> forest_walk(s, i, k) == walk(s, i, k),
    decreases k,
{
    if k > 0 {
        lemma_forest_walk_is_walk(s, i, (k - 1) as nat);
    }
}

proof fn lemma_forest_walk_none_stays(s: Seq<ProcessRecord>, i: int, k: nat, k2: nat)
    requires
        forest_walk(s, i, k) == None::<int>,
        k <= k2,
    ensures
        forest_walk(s, i, k2) == None::<int>,
    decreases k2,
{
    if k2 > k {
        lemma_forest_walk_none_stays(s, i, k, (k2 - 1) as nat);
    }
}

proof fn lemma_candidate_in_range(s: Seq<ProcessRecord>, j: int)
    ensures
        candidate_parent(s, j) matches Some(x) ==> 0 <= x < s.len(),
{
    if let Some(pp) = s[j].parent_pid {
        if exists|x: int| is_first_with_pid(s, pp, x) {
            let x = choose|x: int| is_first_with_pid(s, pp, x);
        }
    }
}

proof fn lemma_walk_in_range(s: Seq<ProcessRecord>, i: int, a: nat)
    requires
        0 <= i < s.len(),
    ensures
        walk(s, i, a) matches Some(x) ==> 0 <= x < s.len(),
    decreases a,
{
    if a > 0 {
        lemma_walk_in_range(s, i, (a - 1) as nat);
        if let Some(j) = walk(s, i, (a - 1) as nat) {
            lemma_candidate_in_range(s, j);
        }
    }
}

proof fn lemma_walk_add(s: Seq<ProcessRecord>, i: int, a: nat, t: nat, j: int)
    requires
        walk(s, i, a) == Some(j),
    ensures
        walk(s, i, a + t) == walk(s, j, t),
    decreases t,
{
    if t > 0 {
        lemma_walk_add(s, i, a, (t - 1) as nat, j);
        assert((a + t - 1) as nat == a + (t - 1) as nat);
    }
}

proof fn lemma_first_return(s: Seq<ProcessRecord>, i: int, k: nat) -> (k0: nat)
    requires
        k >= 1,
        walk(s, i, k) == Some(i),
    ensures
        1 <= k0 <= k,
        walk(s, i, k0) == Some(i),
        forall|m: nat| 1 <= m < k0 ==> #[trigger] walk(s, i, m) != Some(i),
    decreases k,
{
    if exists|m: nat| 1 <= m < k && #[trigger] walk(s, i, m) == Some(i) {
        let m = choose|m: nat| 1 <= m < k && #[trigger] walk(s, i, m) == Some(i);
        lemma_first_return(s, i, m)
    } else {
        k
    }
}

/// A chain of candidate parents that comes back to its start does so within
/// as many steps as there are records.
proof fn lemma_return_within_len(s: Seq<ProcessRecord>, i: int, k: nat)
    requires
        0 <= i < s.len(),
        k >= 1,
        walk(s, i, k) == Some(i),
    ensures
        on_cycle(s, i),
{
    let k0 = lemma_first_return(s, i, k);
    assert forall|a: nat| a < k0 implies #[trigger] walk(s, i, a) is Some by {
        if walk(s, i, a) is None {
            lemma_walk_none_stays(s, i, a, k0);
        }
    }
    let q = Seq::new(k0, |a: int| walk(s, i, a as nat)->0);
    assert(q.no_duplicates()) by {
        assert forall|a: int, b: int| 0 <= a < q.len() && 0 <= b < q.len() && a != b implies q[a]
            != q[b] by {
            if q[a] == q[b] {
                let (lo, hi) = if a < b {
                    (a as nat, b as nat)
                } else {
                    (b as nat, a as nat)
                };
                let x = q[a];
                assert(walk(s, i, lo) is Some);
                assert(walk(s, i, hi) is Some);
                let t = (k0 - hi) as nat;
                lemma_walk_add(s, i, lo, t, x);
                lemma_walk_add(s, i, hi, t, x);
                assert(hi + t == k0);
                assert(walk(s, i, lo + t) == Some(i));
            }
        }
    }
    q.unique_seq_to_set();
    vstd::set_lib::lemma_int_range(0, s.len() as int);
    assert(q.to_set().subset_of(vstd::set_lib::set_int_range(0, s.len() as int))) by {
        assert forall|x: int| q.to_set().contains(x) implies vstd::set_lib::set_int_range(
            0,
            s.len() as int,
        ).contains(x) by {
            let a = choose|a: int| 0 <= a < q.len() && q[a] == x;
            assert(walk(s, i, a as nat) is Some);
            lemma_walk_in_range(s, i, a as nat);
        }
    }
    vstd::set_lib::lemma_len_subset(q.to_set(), vstd::set_lib::set_int_range(0, s.len() as int));
    assert(walk(s, i, k0) == Some(i));
}

/// The forest has no cycle: following parent links up from any node, for
/// any positive number of steps, never leads back to that node.
pub proof fn lemma_forest_acyclic(s: Seq<ProcessRecord>, i: int, k: nat)
    requires
        0 <= i < s.len(),
        k >= 1,
    ensures
        forest_walk(s, i, k) != Some(i),
{
    lemma_forest_walk_is_walk(s, i, k);
    if forest_walk(s, i, k) == Some(i) {
        lemma_return_within_len(s, i, k);
        reveal_with_fuel(forest_walk, 2);
        assert(forest_walk(s, i, 1) == None::<int>);
        lemma_forest_walk_none_stays(s, i, 1, k);
    }
}

proof fn lemma_forest_walk_add(s: Seq<ProcessRecord>, i: int, a: nat, t: nat, j: int)
    requires
        forest_walk(s, i, a) == Some(j),
    ensures
        forest_walk(s, i, a + t) == forest_walk(s, j, t),
    decreases t,
{
    if t > 0 {
        lemma_forest_walk_add(s, i, a, (t - 1) as nat, j);
        assert((a + t - 1) as nat == a + (t - 1) as nat);
    }
}

proof fn lemma_forest_walk_in_range(s: Seq<ProcessRecord>, i: int, a: nat)
    requires
        0 <= i < s.len(),
    ensures
        forest_walk(s, i, a) matches Some(x) ==> 0 <= x < s.len(),
    decreases a,
{
    if a > 0 {
        lemma_forest_walk_in_range(s, i, (a - 1) as nat);
        if let Some(j) = forest_walk(s, i, (a - 1) as nat) {
            lemma_candidate_in_range(s, j);
        }
    }
}

/// Every node is less than `s.len()` steps below a root: following parent
/// links up from it for `s.len()` steps runs out of parents.
pub proof fn lemma_forest_depth_bounded(s: Seq<ProcessRecord>, i: int)
    requires
        0 <= i < s.len(),
    ensures
        forest_walk(s, i, s.len()) == None::<int>,
{
    let n = s.len();
    if forest_walk(s, i, n) is Some {
        assert forall|a: nat| a <= n implies #[trigger] forest_walk(s, i, a) is Some by {
            if forest_walk(s, i, a) is None {
                lemma_forest_walk_none_stays(s, i, a, n);
            }
        }
        let q = Seq::new(n + 1, |a: int| forest_walk(s, i, a as nat)->0);
        if q.no_duplicates() {
            q.unique_seq_to_set();
            vstd::set_lib::lemma_int_range(0, n as int);
            assert(q.to_set().subset_of(vstd::set_lib::set_int_range(0, n as int))) by {
                assert forall|x: int| q.to_set().contains(x) implies vstd::set_lib::set_int_range(
                    0,
                    n as int,
                ).contains(x) by {
                    let a = choose|a: int| 0 <= a < q.len() && q[a] == x;
                    assert(forest_walk(s, i, a as nat) is Some);
                    lemma_forest_walk_in_range(s, i, a as nat);
                }
            }
            vstd::set_lib::lemma_len_subset(q.to_set(), vstd::set_lib::set_int_range(0, n as int));
        } else {
            let (a, b) = choose|a: int, b: int|
                0 <= a < q.len() && 0 <= b < q.len() && a != b && q[a] == q[b];
            let (lo, hi) = if a < b {
                (a as nat, b as nat)
            } else {
                (b as nat, a as nat)
            };
            let x = q[a];
            assert(forest_walk(s, i, lo) is Some);
            assert(forest_walk(s, i, hi) is Some);
            lemma_forest_walk_in_range(s, i, lo);
            let t = (hi - lo) as nat;
            lemma_forest_walk_add(s, i, lo, t, x);
            assert(lo + t == hi);
            lemma_forest_acyclic(s, x, t);
        }
    }
}

proof fn lemma_walk_none_stays(s: Seq<ProcessRecord>, i: int, k: nat, k2: nat)
    requires
        walk(s, i, k) == None::<int>,
        k <= k2,
    ensures
        walk(s, i, k2) == None::<int>,
    decreases k2,
{
    if k2 > k {
        lemma_walk_none_stays(s, i, k, (k2 - 1) as nat);
    }
}

/// The candidate parent of every record, found through one pass that maps
/// each pid to its first position.
fn candidate_parents(records: &Vec<ProcessRecord>) -> (r: Vec<Option<usize>>)
    ensures
        r@.len() == records@.len(),
        forall|i: int|
            0 <= i < records@.len() ==> opt_index(#[trigger] r@[i]) == candidate_parent(
                records@,
                i,
            ),
        forall|i: int|
            0 <= i < records@.len() ==> match #[trigger] r@[i] {
                Some(j) => j < records@.len(),
                None => true,
            },
{
    let ghost s = records@;
    let mut first: HashMap<u32, usize> = HashMap::new();
    let mut i: usize = 0;
    while i < records.len()
        invariant
            s == records@,
            i <= s.len(),
            forall|p: u32|
                #[trigger] first@.contains_key(p) <==> exists|j: int| 0 <= j < i && s[j].pid == p,
            forall|p: u32| #[trigger]
                first@.contains_key(p) ==> first@[p] < i && is_first_with_pid(
                    s,
                    p,
                    first@[p] as int,
                ),
        decreases s.len() - i,
    {
        let p = records[i].pid;
        if !first.contains_key(&p) {
            first.insert(p, i);
        }
        i = i + 1;
    }
    let mut r: Vec<Option<usize>> = Vec::new();
    let mut i: usize = 0;
    while i < records.len()
        invariant
            s == records@,
            i <= s.len(),
            r@.len() == i,
            forall|p: u32|
                #[trigger] first@.contains_key(p) <==> exists|j: int| 0 <= j < s.len() && s[j].pid == p,
            forall|p: u32| #[trigger]
                first@.contains_key(p) ==> first@[p] < s.len() && is_first_with_pid(
                    s,
                    p,
                    first@[p] as int,
                ),
            forall|k: int| 0 <= k < i ==> opt_index(#[trigger] r@[k]) == candidate_parent(s, k),
            forall|k: int|
                0 <= k < i ==> match #[trigger] r@[k] {
                    Some(j) => j < s.len(),
                    None => true,
                },
        decreases s.len() - i,
    {
        let c = match records[i].parent_pid {
            Some(pp) => match first.get(&pp) {
                Some(j) => {
                    proof {
                        assert(is_first_with_pid(s, pp, *j as int));
                        let c = choose|c: int| is_first_with_pid(s, pp, c);
                        assert(c == *j as int) by {
                            if c < *j as int {
                                assert(s[c].pid != pp);
                            } else if c > *j as int {
                                assert(s[*j as int].pid != pp);
                            }
                        }
                    }
                    Some(*j)
                },
                None => {
                    proof {
                        assert(!exists|j: int| is_first_with_pid(s, pp, j)) by {
                            if exists|j: int| is_first_with_pid(s, pp, j) {
                                let j = choose|j: int| is_first_with_pid(s, pp, j);
                                assert(s[j].pid == pp);
                            }
                        }
                    }
                    None
                },
            },
            None => None,
        };
        r.push(c);
        i = i + 1;
    }
    r
}

/// No duplicates among positions below `n` means at most `n` of them.
proof fn lemma_distinct_bound(p: Seq<usize>, n: nat)
    requires
        forall|a: int, b: int| 0 <= a < b < p.len() ==> p[a] != p[b],
        forall|a: int| 0 <= a < p.len() ==> p[a] < n,
    ensures
        p.len() <= n,
{
    let q = p.map_values(|x: usize| x as int);
    assert(q.no_duplicates()) by {
        assert forall|a: int, b: int| 0 <= a < q.len() && 0 <= b < q.len() && a != b implies q[a]
            != q[b] by {
            if a < b {
                assert(p[a] != p[b]);
            } else {
                assert(p[b] != p[a]);
            }
        }
    }
    q.unique_seq_to_set();
    vstd::set_lib::lemma_int_range(0, n as int);
    assert(q.to_set().subset_of(vstd::set_lib::set_int_range(0, n as int))) by {
        assert forall|x: int| q.to_set().contains(x) implies vstd::set_lib::set_int_range(
            0,
            n as int,
        ).contains(x) by {
            let a = choose|a: int| 0 <= a < q.len() && q[a] == x;
        }
    }
    vstd::set_lib::lemma_len_subset(q.to_set(), vstd::set_lib::set_int_range(0, n as int));
}

/// Done positions are closed under candidate parents.
pub open spec fn done_closed(s: Seq<ProcessRecord>, state: Seq<u8>) -> bool {
    forall|j: int|
        0 <= j < state.len() && #[trigger] state[j] == 2 ==> match candidate_parent(s, j) {
            Some(x) => state[x] == 2,
            None => true,
        }
}

proof fn lemma_walk_stays_done(s: Seq<ProcessRecord>, state: Seq<u8>, d: int, t: nat)
    requires
        state.len() == s.len(),
        0 <= d < s.len(),
        state[d] == 2,
        done_closed(s, state),
    ensures
        walk(s, d, t) matches Some(x) ==> 0 <= x < s.len() && state[x] == 2,
    decreases t,
{
    if t > 0 {
        lemma_walk_stays_done(s, state, d, (t - 1) as nat);
        if let Some(j) = walk(s, d, (t - 1) as nat) {
            lemma_candidate_in_range(s, j);
        }
    }
}

proof fn lemma_walk_stays_on_loop(s: Seq<ProcessRecord>, i: int, path: Seq<usize>, q: int, t: nat)
    requires
        0 <= q < path.len(),
        forall|k: int| 0 <= k < path.len() ==> walk(s, i, k as nat) == Some(#[trigger] path[k] as int),
        walk(s, i, path.len()) == Some(path[q] as int),
        t >= q,
    ensures
        exists|j: int| q <= j < path.len() && walk(s, i, t) == Some(#[trigger] path[j] as int),
    decreases t,
{
    if t == q {
        assert(walk(s, i, t) == Some(path[q] as int));
    } else {
        lemma_walk_stays_on_loop(s, i, path, q, (t - 1) as nat);
        let j = choose|j: int| q <= j < path.len() && walk(s, i, (t - 1) as nat) == Some(#[trigger] path[j] as int);
        if j + 1 < path.len() {
            assert(walk(s, i, (j + 1) as nat) == Some(path[j + 1] as int));
            assert(walk(s, i, (j + 1) as nat) == candidate_parent(s, path[j] as int));
        } else {
            assert(walk(s, i, path.len()) == candidate_parent(s, path[j] as int));
        }
    }
}

/// Marks, for every record, whether it lies on a cycle of candidate parents.
/// Each record is walked over once: a walk stops at a root, at a record
/// already decided, or on meeting its own path, whose tail is then a cycle.
fn cycle_flags(records: &Vec<ProcessRecord>, cands: &Vec<Option<usize>>) -> (r: Vec<bool>)
    requires
        cands@.len() == records@.len(),
        forall|k: int|
            0 <= k < records@.len() ==> opt_index(#[trigger] cands@[k]) == candidate_parent(
                records@,
                k,
            ),
        forall|k: int|
            0 <= k < records@.len() ==> match #[trigger] cands@[k] {
                Some(j) => j < records@.len(),
                None => true,
            },
    ensures
        r@.len() == records@.len(),
        forall|j: int| 0 <= j < r@.len() ==> #[trigger] r@[j] == on_cycle(records@, j),
{
    let ghost s = records@;
    let n = records.len();
    let mut state: Vec<u8> = Vec::new();
    let mut cyc: Vec<bool> = Vec::new();
    let mut pos: Vec<usize> = Vec::new();
    let mut k: usize = 0;
    while k < n
        invariant
            k <= n,
            state@.len() == k,
            cyc@.len() == k,
            pos@.len() == k,
            forall|j: int| 0 <= j < k ==> #[trigger] state@[j] == 0,
        decreases n - k,
    {
        state.push(0);
        cyc.push(false);
        pos.push(0);
        k = k + 1;
    }
    let mut i: usize = 0;
    while i < n
        invariant
            s == records@,
            n == s.len(),
            cands@.len() == n,
            forall|k: int| 0 <= k < n ==> opt_index(#[trigger] cands@[k]) == candidate_parent(s, k),
            forall|k: int|
                0 <= k < n ==> match #[trigger] cands@[k] {
                    Some(j) => j < n,
                    None => true,
                },
            i <= n,
            state@.len() == n,
            cyc@.len() == n,
            pos@.len() == n,
            forall|j: int| 0 <= j < n ==> #[trigger] state@[j] == 0 || state@[j] == 2,
            forall|j: int| 0 <= j < n && #[trigger] state@[j] == 2 ==> cyc@[j] == on_cycle(s, j),
            done_closed(s, state@),
            forall|j: int| 0 <= j < i ==> #[trigger] state@[j] == 2,
        decreases n - i,
    {
        if state[i] == 0 {
            let mut path: Vec<usize> = Vec::new();
            let mut cur: Option<usize> = Some(i);
            proof {
                reveal_with_fuel(walk, 1);
            }
            while cur.is_some() && state[cur.unwrap()] == 0
                invariant
                    s == records@,
                    n == s.len(),
                    i < n,
                    cands@.len() == n,
                    forall|k: int|
                        0 <= k < n ==> opt_index(#[trigger] cands@[k]) == candidate_parent(s, k),
                    forall|k: int|
                        0 <= k < n ==> match #[trigger] cands@[k] {
                            Some(j) => j < n,
                            None => true,
                        },
                    state@.len() == n,
                    cyc@.len() == n,
                    pos@.len() == n,
                    forall|j: int| 0 <= j < n ==> #[trigger] state@[j] <= 2,
                    forall|j: int| 0 <= j < n && #[trigger] state@[j] == 2 ==> cyc@[j] == on_cycle(s, j),
                    done_closed(s, state@),
                    forall|k: int| 0 <= k < path@.len() ==> (#[trigger] path@[k]) < n && state@[path@[k] as int] == 1
                        && pos@[path@[k] as int] == k && walk(s, i as int, k as nat) == Some(path@[k] as int),
                    forall|j: int| 0 <= j < n && #[trigger] state@[j] == 1 ==> pos@[j] < path@.len() && path@[pos@[j] as int] == j,
                    forall|a: int, b: int| 0 <= a < b < path@.len() ==> path@[a] != path@[b],
                    opt_index(cur) == walk(s, i as int, path@.len()),
                    cur matches Some(c) ==> c < n,
                    path@.len() <= n,
                    path@.len() == 0 ==> state@[i as int] == 0,
                    forall|j: int| 0 <= j < i ==> #[trigger] state@[j] == 2,
                decreases n - path@.len(),
            {
                let c = cur.unwrap();
                proof {
                    let p2 = path@.push(c);
                    assert forall|a: int, b: int| 0 <= a < b < p2.len() implies p2[a] != p2[b] by {
                        if b == path@.len() {
                            assert(state@[path@[a] as int] == 1);
                        }
                    }
                    lemma_distinct_bound(p2, n as nat);
                }
                state.set(c, 1);
                pos.set(c, path.len());
                path.push(c);
                cur = cands[c];
            }
            let len = path.len();
            assert(len > 0);
            let start: usize = match cur {
                Some(c) => if state[c] == 1 {
                    pos[c]
                } else {
                    len
                },
                None => len,
            };
            proof {
                let p = path@;
                assert forall|k: int| 0 <= k < len implies on_cycle(s, #[trigger] p[k] as int) == (k
                    >= start) by {
                    let x = p[k] as int;
                    if k >= start {
                        let m = (len - start) as nat;
                        lemma_walk_add(s, i as int, len as nat, (k - start) as nat, p[start as int] as int);
                        lemma_walk_add(s, i as int, start as nat, (k - start) as nat, p[start as int] as int);
                        lemma_walk_add(s, i as int, k as nat, m, x);
                        assert(k as nat + m == len as nat + (k - start) as nat);
                        assert(walk(s, x, m) == Some(x));
                    } else {
                        if on_cycle(s, x) {
                            let m = choose|m: nat| 1 <= m <= s.len() && #[trigger] walk(s, x, m) == Some(x);
                            lemma_walk_add(s, i as int, k as nat, m, x);
                            let t = (k + m) as nat;
                            assert(walk(s, i as int, t) == Some(x));
                            if t < len {
                                assert(p[t as int] != p[k]);
                            } else {
                                match cur {
                                    None => {
                                        lemma_walk_none_stays(s, i as int, len as nat, t);
                                    },
                                    Some(c) => {
                                        if state@[c as int] == 1 {
                                            lemma_walk_stays_on_loop(s, i as int, p, start as int, t);
                                            let j = choose|j: int| start <= j < len && walk(s, i as int, t) == Some(#[trigger] p[j] as int);
                                            assert(p[j] != p[k]);
                                        } else {
                                            lemma_walk_stays_done(s, state@, c as int, (t - len) as nat);
                                            lemma_walk_add(s, i as int, len as nat, (t - len) as nat, c as int);
                                            assert(state@[x] == 1);
                                        }
                                    },
                                }
                            }
                        }
                    }
                }
            }
            let mut k: usize = 0;
            while k < len
                invariant
                    s == records@,
                    n == s.len(),
                    i < n,
                    len == path@.len(),
                    start <= len,
                    state@.len() == n,
                    cyc@.len() == n,
                    pos@.len() == n,
                    k <= len,
                    forall|j: int| 0 <= j < n ==> #[trigger] state@[j] <= 2,
                    forall|j: int| 0 <= j < n && #[trigger] state@[j] == 2 ==> cyc@[j] == on_cycle(s, j),
                    forall|m: int| 0 <= m < len ==> (#[trigger] path@[m]) < n && on_cycle(s, path@[m] as int) == (m >= start),
                    forall|m: int| 0 <= m < len ==> walk(s, i as int, m as nat) == Some(#[trigger] path@[m] as int),
                    forall|m: int| k <= m < len ==> state@[#[trigger] path@[m] as int] == 1,
                    forall|a: int, b: int| 0 <= a < b < len ==> path@[a] != path@[b],
                    len > 0,
                    path@[0] == i,
                    forall|m: int| 0 <= m < k ==> state@[#[trigger] path@[m] as int] == 2,
                    forall|j: int| 0 <= j < n && #[trigger] state@[j] == 1 ==> exists|m: int| k <= m < len && path@[m] == j,
                    forall|j: int|
                        0 <= j < n && #[trigger] state@[j] == 2 ==> match candidate_parent(s, j) {
                            Some(x) => state@[x] == 2 || state@[x] == 1,
                            None => true,
                        },
                    opt_index(cur) == walk(s, i as int, len as nat),
                    cur matches Some(c) ==> c < n && state@[c as int] >= 1,
                    forall|j: int| 0 <= j < i ==> #[trigger] state@[j] == 2 || exists|m: int| 0 <= m < len && path@[m] == j,
                decreases len - k,
            {
                let x = path[k];
                proof {
                    assert(walk(s, i as int, (k + 1) as nat) == candidate_parent(s, x as int));
                    if k + 1 < len {
                        assert(walk(s, i as int, (k + 1) as nat) == Some(path@[k + 1] as int));
                    }
                }
                state.set(x, 2);
                cyc.set(x, k >= start);
                k = k + 1;
            }
        }
        proof {
            assert(state@[i as int] == 2);
        }
        i = i + 1;
    }
    assert forall|j: int| 0 <= j < cyc@.len() implies #[trigger] cyc@[j] == on_cycle(s, j) by {
        assert(state@[j] == 2);
    }
    cyc
}

/// Builds the forest of a snapshot: one node per record, in the given order,
/// each linked to its parent's position, or a root where the parent is absent
/// or the record lies on a cycle of parents.
pub fn build_tree(records: &Vec<ProcessRecord>) -> (r: Vec<TreeNode>)
    ensures
        is_forest_of(records@, r@),
{
    let ghost s = records@;
    let n = records.len();
    let cands = candidate_parents(records);
    let cyc = cycle_flags(records, &cands);
    let mut nodes: Vec<TreeNode> = Vec::new();
    let mut i: usize = 0;
    while i < n
        invariant
            s == records@,
            n == s.len(),
            i <= n,
            cands@.len() == n,
            cyc@.len() == n,
            forall|k: int| 0 <= k < n ==> opt_index(#[trigger] cands@[k]) == candidate_parent(s, k),
            forall|k: int| 0 <= k < n ==> #[trigger] cyc@[k] == on_cycle(s, k),
            nodes@.len() == i,
            forall|k: int|
                0 <= k < i ==> {
                    &&& (#[trigger] nodes@[k]).pid == s[k].pid
                    &&& nodes@[k].name@ == s[k].name@
                    &&& opt_index(nodes@[k].parent) == tree_parent(s, k)
                },
        decreases n - i,
    {
        let parent = if cyc[i] {
            None
        } else {
            cands[i]
        };
        nodes.push(TreeNode { pid: records[i].pid, name: records[i].name.clone(), parent });
        i = i + 1;
    }
    nodes
}

/// The positions of the nodes whose parent link is `parent`, in order: the
/// children of a node, or with `None` the roots.
pub open spec fn child_positions(nodes: Seq<TreeNode>, parent: Option<usize>) -> Seq<int> {
    Seq::new(nodes.len(), |i: int| i).filter(|i: int| nodes[i].parent == parent)
}

/// Lists the positions of the nodes linked to `parent`, in order; with
/// `None`, the roots.
pub fn children_of(nodes: &Vec<TreeNode>, parent: Option<usize>) -> (r: Vec<usize>)
    ensures
        r@.map_values(|u: usize| u as int) == child_positions(nodes@, parent),
{
    let mut r: Vec<usize> = Vec::new();
    let mut i: usize = 0;
    while i < nodes.len()
        invariant
            i <= nodes@.len(),
            r@.map_values(|u: usize| u as int) == Seq::new(i as nat, |k: int| k).filter(
                |k: int| nodes@[k].parent == parent,
            ),
        decreases nodes@.len() - i,
    {
        proof {
            reveal(Seq::filter);
            assert(Seq::new((i + 1) as nat, |k: int| k).drop_last() =~= Seq::new(
                i as nat,
                |k: int| k,
            ));
        }
        if nodes[i].parent == parent {
            let ghost before = r@;
            r.push(i);
            assert(r@.map_values(|u: usize| u as int) =~= before.map_values(|u: usize| u as int).push(
                i as int,
            ));
        }
        i = i + 1;
    }
    r
}

} // verus!
