//! Stable sorting of process records by one of four keys.

use vstd::prelude::*;
use vstd::string::*;

use crate::record::{well_formed, ProcessRecord};

verus! {

broadcast use vstd::seq_lib::group_seq_properties;

/// The orders in which a list of records can be shown.
#[derive(Clone, Copy, PartialEq, Eq, Structural, Debug)]
pub enum SortKey {
    /// CPU usage, highest first; invalid readings last.
    Cpu,
    /// Resident memory, largest first.
    Memory,
    /// Process identifier, smallest first.
    Pid,
    /// Name, in lexicographic order of code points.
    Name,
}

/// Lexicographic order on character sequences, by code point.
pub open spec fn lex_le(a: Seq<char>, b: Seq<char>) -> bool
    decreases a.len(),
{
    if a.len() == 0 {
        true
    } else if b.len() == 0 {
        false
    } else if a[0] != b[0] {
        a[0] < b[0]
    } else {
        lex_le(a.drop_first(), b.drop_first())
    }
}

/// `a` may stand before `b` in a list sorted by `key`.
pub open spec fn key_le(key: SortKey, a: ProcessRecord, b: ProcessRecord) -> bool {
    match key {
        SortKey::Cpu => match (a.cpu_centi, b.cpu_centi) {
            (Some(x), Some(y)) => x >= y,
            (None, Some(_)) => false,
            (_, None) => true,
        },
        SortKey::Memory => a.memory_kb >= b.memory_kb,
        SortKey::Pid => a.pid <= b.pid,
        SortKey::Name => lex_le(a.name@, b.name@),
    }
}

/// `a` and `b` have the same sort key.
pub open spec fn same_key(key: SortKey, a: ProcessRecord, b: ProcessRecord) -> bool {
    match key {
        SortKey::Cpu => a.cpu_centi == b.cpu_centi,
        SortKey::Memory => a.memory_kb == b.memory_kb,
        SortKey::Pid => a.pid == b.pid,
        SortKey::Name => a.name@ == b.name@,
    }
}

/// The records of `s` whose key equals that of `y`, in their order in `s`.
pub open spec fn key_class(key: SortKey, y: ProcessRecord, s: Seq<ProcessRecord>) -> Seq<
    ProcessRecord,
> {
    s.filter(|z: ProcessRecord| same_key(key, y, z))
}

/// `s` is ordered by `key`.
pub open spec fn sorted_by(key: SortKey, s: Seq<ProcessRecord>) -> bool {
    forall|i: int, j: int| 0 <= i < j < s.len() ==> key_le(key, #[trigger] s[i], #[trigger] s[j])
}

/// `out` is the stable sort of `s` by `key`: a permutation of `s`, ordered
/// by the key, in which the records that share a key keep their relative
/// order of `s`.
pub open spec fn is_stable_sort(key: SortKey, s: Seq<ProcessRecord>, out: Seq<ProcessRecord>) -> bool {
    &&& out.to_multiset() == s.to_multiset()
    &&& sorted_by(key, out)
    &&& forall|y: ProcessRecord| #[trigger] key_class(key, y, out) == key_class(key, y, s)
}

/// Sorting by memory is stable: it returns a permutation of its input,
/// ordered by memory, largest first, and for every memory size the records
/// of that size come out in their order of the input.
pub proof fn lemma_memory_sort_stable(s: Seq<ProcessRecord>, out: Seq<ProcessRecord>, m: u64)
    requires
        is_stable_sort(SortKey::Memory, s, out),
    ensures
        out.to_multiset() == s.to_multiset(),
        forall|i: int, j: int|
            0 <= i < j < out.len() ==> (#[trigger] out[i]).memory_kb >= (#[trigger] out[j]).memory_kb,
        out.filter(|x: ProcessRecord| x.memory_kb == m) == s.filter(
            |x: ProcessRecord| x.memory_kb == m,
        ),
{
    let y = ProcessRecord { memory_kb: m, ..arbitrary() };
    assert(key_class(SortKey::Memory, y, out) == key_class(SortKey::Memory, y, s));
    assert((|z: ProcessRecord| same_key(SortKey::Memory, y, z)) =~= (|x: ProcessRecord|
        x.memory_kb == m));
}

/// Sorting a well-formed snapshot by pid gives strictly increasing pids.
pub proof fn lemma_pid_sort_strict(s: Seq<ProcessRecord>, out: Seq<ProcessRecord>)
    requires
        well_formed(s),
        is_stable_sort(SortKey::Pid, s, out),
    ensures
        forall|i: int, j: int| 0 <= i < j < out.len() ==> (#[trigger] out[i]).pid < (#[trigger] out[j]).pid,
{
    broadcast use vstd::seq_lib::group_to_multiset_ensures;
    broadcast use vstd::multiset::group_multiset_axioms;

    assert forall|i: int, j: int| 0 <= i < j < out.len() implies (#[trigger] out[i]).pid < (
    #[trigger] out[j]).pid by {
        assert(key_le(SortKey::Pid, out[i], out[j]));
        if out[i].pid == out[j].pid {
            let rest = out.remove(j);
            assert(rest[i] == out[i]);
            assert(rest.contains(out[i]));
            assert(rest.to_multiset().count(out[i]) > 0);
            assert(out.contains(out[j]));
            assert(s.to_multiset().count(out[j]) > 0);
            assert(s.contains(out[j]));
            let a = choose|a: int| 0 <= a < s.len() && s[a] == out[j];
            let srest = s.remove(a);
            assert(srest.to_multiset() == s.to_multiset().remove(out[j]));
            assert(out.to_multiset().remove(out[j]) == rest.to_multiset());
            assert(srest.to_multiset().count(out[i]) > 0);
            assert(srest.contains(out[i]));
            let b = choose|b: int| 0 <= b < srest.len() && srest[b] == out[i];
            if b < a {
                assert(s[b] == out[i]);
                assert(s[b].pid != s[a].pid);
            } else {
                assert(s[b + 1] == out[i]);
                assert(s[a].pid != s[b + 1].pid);
            }
        }
    }
}

proof fn lemma_lex_refl(a: Seq<char>)
    ensures
        lex_le(a, a),
    decreases a.len(),
{
    if a.len() > 0 {
        lemma_lex_refl(a.drop_first());
    }
}

proof fn lemma_lex_total(a: Seq<char>, b: Seq<char>)
    ensures
        lex_le(a, b) || lex_le(b, a),
    decreases a.len(),
{
    if a.len() > 0 && b.len() > 0 && a[0] == b[0] {
        lemma_lex_total(a.drop_first(), b.drop_first());
    } else if a.len() > 0 && b.len() > 0 {
    }
}

proof fn lemma_lex_trans(a: Seq<char>, b: Seq<char>, c: Seq<char>)
    requires
        lex_le(a, b),
        lex_le(b, c),
    ensures
        lex_le(a, c),
    decreases a.len(),
{
    if a.len() > 0 && b.len() > 0 && c.len() > 0 && a[0] == b[0] && b[0] == c[0] {
        lemma_lex_trans(a.drop_first(), b.drop_first(), c.drop_first());
    } else if a.len() > 0 && b.len() > 0 && c.len() > 0 {
    }
}

proof fn lemma_key_le_total(key: SortKey, a: ProcessRecord, b: ProcessRecord)
    ensures
        key_le(key, a, b) || key_le(key, b, a),
{
    if key == SortKey::Name {
        lemma_lex_total(a.name@, b.name@);
    }
}

proof fn lemma_key_le_trans(key: SortKey, a: ProcessRecord, b: ProcessRecord, c: ProcessRecord)
    requires
        key_le(key, a, b),
        key_le(key, b, c),
    ensures
        key_le(key, a, c),
{
    if key == SortKey::Name {
        lemma_lex_trans(a.name@, b.name@, c.name@);
    }
}

proof fn lemma_same_key_le(key: SortKey, a: ProcessRecord, b: ProcessRecord)
    requires
        same_key(key, a, b),
    ensures
        key_le(key, a, b),
        key_le(key, b, a),
{
    if key == SortKey::Name {
        lemma_lex_refl(a.name@);
    }
}

proof fn lemma_class_push(key: SortKey, y: ProcessRecord, s: Seq<ProcessRecord>, x: ProcessRecord)
    ensures
        key_class(key, y, s.push(x)) == if same_key(key, y, x) {
            key_class(key, y, s).push(x)
        } else {
            key_class(key, y, s)
        },
{
    reveal(Seq::filter);
    assert(s.push(x).drop_last() =~= s);
}

proof fn lemma_class_none(key: SortKey, y: ProcessRecord, s: Seq<ProcessRecord>)
    requires
        forall|k: int| 0 <= k < s.len() ==> !same_key(key, y, #[trigger] s[k]),
    ensures
        key_class(key, y, s) == Seq::<ProcessRecord>::empty(),
    decreases s.len(),
{
    reveal(Seq::filter);
    if s.len() > 0 {
        lemma_class_none(key, y, s.drop_last());
    }
}

/// Decides `key_le` on two records.
fn record_le(key: SortKey, a: &ProcessRecord, b: &ProcessRecord) -> (r: bool)
    ensures
        r == key_le(key, *a, *b),
{
    match key {
        SortKey::Cpu => match (a.cpu_centi, b.cpu_centi) {
            (Some(x), Some(y)) => x >= y,
            (None, Some(_)) => false,
            (_, None) => true,
        },
        SortKey::Memory => a.memory_kb >= b.memory_kb,
        SortKey::Pid => a.pid <= b.pid,
        SortKey::Name => name_le(&a.name, &b.name),
    }
}

/// Compares two names in lexicographic order of code points.
pub fn name_le(a: &String, b: &String) -> (r: bool)
    ensures
        r == lex_le(a@, b@),
{
    let sa = a.as_str();
    let sb = b.as_str();
    let la = sa.unicode_len();
    let lb = sb.unicode_len();
    let mut i: usize = 0;
    while i < la && i < lb
        invariant
            la == a@.len(),
            lb == b@.len(),
            sa@ == a@,
            sb@ == b@,
            i <= la,
            i <= lb,
            lex_le(a@, b@) == lex_le(a@.skip(i as int), b@.skip(i as int)),
        decreases la - i,
    {
        let ca = sa.get_char(i);
        let cb = sb.get_char(i);
        if ca != cb {
            return ca < cb;
        }
        assert(a@.skip(i as int).drop_first() =~= a@.skip(i + 1));
        assert(b@.skip(i as int).drop_first() =~= b@.skip(i + 1));
        i = i + 1;
    }
    i == la
}

/// Sorts records by `key`, keeping the given order among records with equal
/// keys.
pub fn sort_records(records: &Vec<ProcessRecord>, key: SortKey) -> (r: Vec<ProcessRecord>)
    ensures
        is_stable_sort(key, records@, r@),
{
    let mut out: Vec<ProcessRecord> = Vec::new();
    let mut i: usize = 0;
    proof {
        assert forall|y: ProcessRecord| #[trigger]
            key_class(key, y, out@) == key_class(key, y, records@.take(0)) by {
            lemma_class_none(key, y, out@);
            lemma_class_none(key, y, records@.take(0));
        }
        assert(out@ =~= records@.take(0));
    }
    while i < records.len()
        invariant
            i <= records@.len(),
            out@.len() == i,
            is_stable_sort(key, records@.take(i as int), out@),
        decreases records@.len() - i,
    {
        let x = records[i].clone();
        let mut p: usize = out.len();
        while p > 0 && !record_le(key, &out[p - 1], &x)
            invariant
                p <= out@.len(),
                forall|k: int| p <= k < out@.len() ==> !key_le(key, #[trigger] out@[k], x),
            decreases p,
        {
            p = p - 1;
        }
        let ghost old_out = out@;
        let ghost s = records@.take(i as int);
        proof {
            assert forall|k: int| 0 <= k < p implies key_le(key, #[trigger] old_out[k], x) by {
                if k < p - 1 {
                    lemma_key_le_trans(key, old_out[k], old_out[p - 1], x);
                }
            }
        }
        out.insert(p, x);
        proof {
            let new_out = out@;
            vstd::seq_lib::to_multiset_insert(old_out, p as int, x);
            vstd::seq_lib::to_multiset_build(s, x);
            assert(new_out =~= old_out.take(p as int).push(x) + old_out.skip(p as int));
            assert(old_out =~= old_out.take(p as int) + old_out.skip(p as int));
            assert(records@.take(i + 1) =~= s.push(x));
            assert forall|a: int, b: int| 0 <= a < b < new_out.len() implies key_le(
                key,
                #[trigger] new_out[a],
                #[trigger] new_out[b],
            ) by {
                if b == p {
                } else if a == p {
                    lemma_key_le_total(key, x, old_out[b - 1]);
                } else if a < p && b > p {
                    lemma_key_le_total(key, x, old_out[b - 1]);
                    lemma_key_le_trans(key, old_out[a], x, old_out[b - 1]);
                } else if a > p {
                    assert(key_le(key, old_out[a - 1], old_out[b - 1]));
                }
            }
            assert forall|y: ProcessRecord| #[trigger]
                key_class(key, y, new_out) == key_class(key, y, records@.take(i + 1)) by {
                let pre = old_out.take(p as int);
                let post = old_out.skip(p as int);
                lemma_class_push(key, y, pre, x);
                lemma_class_push(key, y, s, x);
                assert(key_class(key, y, old_out) == key_class(key, y, s));
                if same_key(key, y, x) {
                    assert forall|k: int| 0 <= k < post.len() implies !same_key(
                        key,
                        y,
                        #[trigger] post[k],
                    ) by {
                        if same_key(key, y, post[k]) {
                            lemma_same_key_le(key, post[k], x);
                            assert(old_out[p + k] == post[k]);
                        }
                    }
                    lemma_class_none(key, y, post);
                }
            }
        }
        i = i + 1;
    }
    assert(records@.take(records@.len() as int) =~= records@);
    out
}

} // verus!
