//! Name and owner filters over process records, and the combined query.

use vstd::prelude::*;
use vstd::string::*;

use crate::record::ProcessRecord;
use crate::sort::{is_stable_sort, sort_records, SortKey};

verus! {

broadcast use vstd::seq_lib::group_seq_properties;

/// What `str::to_lowercase` returns for a string with the characters `s`.
pub uninterp spec fn lower_of(s: Seq<char>) -> Seq<char>;

/// Relies on `str::to_lowercase`: its result depends on the characters
/// alone, and the empty string stays empty.
#[verifier::external_body]
fn lowercase(s: &str) -> (r: String)
    ensures
        r@ == lower_of(s@),
        s@.len() == 0 ==> r@.len() == 0,
{
    s.to_lowercase()
}

/// `needle` occurs in `hay` as a contiguous run of characters.
pub open spec fn contains_seq(hay: Seq<char>, needle: Seq<char>) -> bool {
    exists|k: int|
        0 <= k && k + needle.len() <= hay.len() && #[trigger] hay.subrange(k, k + needle.len())
            == needle
}

/// A process name matches a name query when the query occurs in the name,
/// both taken in lower case.
pub open spec fn name_matches(name: Seq<char>, query: Seq<char>) -> bool {
    contains_seq(lower_of(name), lower_of(query))
}

/// A record matches an owner query when its owner is resolved and is exactly
/// the query.
pub open spec fn owner_matches(owner: Option<String>, query: Seq<char>) -> bool {
    match owner {
        Some(o) => o@ == query,
        None => false,
    }
}

/// The records of `s` whose name matches `query`, in their order in `s`.
pub open spec fn name_filtered(s: Seq<ProcessRecord>, query: Seq<char>) -> Seq<ProcessRecord> {
    s.filter(|x: ProcessRecord| name_matches(x.name@, query))
}

/// The records of `s` owned by `query`, in their order in `s`.
pub open spec fn owner_filtered(s: Seq<ProcessRecord>, query: Seq<char>) -> Seq<ProcessRecord> {
    s.filter(|x: ProcessRecord| owner_matches(x.owner, query))
}

/// A name filter is exact: every record it keeps has a name that contains
/// the query, ignoring case, and every record of the input whose name
/// contains the query is kept.
pub proof fn lemma_name_filter_exact(s: Seq<ProcessRecord>, query: Seq<char>)
    ensures
        forall|i: int|
            0 <= i < name_filtered(s, query).len() ==> name_matches(
                (#[trigger] name_filtered(s, query)[i]).name@,
                query,
            ),
        forall|i: int|
            0 <= i < s.len() && name_matches((#[trigger] s[i]).name@, query) ==> name_filtered(
                s,
                query,
            ).contains(s[i]),
{
    let p = |x: ProcessRecord| name_matches(x.name@, query);
    assert forall|i: int| 0 <= i < name_filtered(s, query).len() implies name_matches(
        (#[trigger] name_filtered(s, query)[i]).name@,
        query,
    ) by {
        s.lemma_filter_pred(p, i);
    }
    assert forall|i: int| 0 <= i < s.len() && name_matches((#[trigger] s[i]).name@, query) implies name_filtered(
        s,
        query,
    ).contains(s[i]) by {
        s.lemma_filter_contains(p, i);
    }
}

/// Tells whether `folded_query` occurs in `folded_name`; both are expected
/// in lower case already.
pub fn matches_folded(folded_name: &str, folded_query: &str) -> (r: bool)
    ensures
        r == contains_seq(folded_name@, folded_query@),
{
    let n = folded_name.unicode_len();
    let m = folded_query.unicode_len();
    if m > n {
        return false;
    }
    let ghost hay = folded_name@;
    let ghost needle = folded_query@;
    let mut k: usize = 0;
    while k <= n - m
        invariant
            hay == folded_name@,
            needle == folded_query@,
            n == hay.len(),
            m == needle.len(),
            m <= n,
            k <= n - m + 1,
            forall|j: int| 0 <= j < k ==> #[trigger] hay.subrange(j, j + m) != needle,
        decreases n - m + 1 - k,
    {
        let mut t: usize = 0;
        while t < m && folded_name.get_char(k + t) == folded_query.get_char(t)
            invariant
                n == hay.len(),
                m == needle.len(),
                hay == folded_name@,
                needle == folded_query@,
                t <= m,
                k + m <= n,
                forall|u: int| 0 <= u < t ==> hay[k + u] == needle[u],
            decreases m - t,
        {
            t = t + 1;
        }
        if t == m {
            assert(hay.subrange(k as int, k + m) =~= needle);
            return true;
        }
        assert(hay.subrange(k as int, k + m)[t as int] != needle[t as int]);
        k = k + 1;
    }
    false
}

/// The records whose name contains `substring`, ignoring case, in their
/// given order. An empty substring keeps every record.
pub fn filter_by_name(records: &Vec<ProcessRecord>, substring: &str) -> (r: Vec<ProcessRecord>)
    ensures
        r@ == name_filtered(records@, substring@),
        substring@.len() == 0 ==> r@ == records@,
{
    let query = lowercase(substring);
    let mut r: Vec<ProcessRecord> = Vec::new();
    let mut i: usize = 0;
    while i < records.len()
        invariant
            i <= records@.len(),
            query@ == lower_of(substring@),
            substring@.len() == 0 ==> query@.len() == 0,
            r@ == name_filtered(records@.take(i as int), substring@),
            substring@.len() == 0 ==> r@ == records@.take(i as int),
        decreases records@.len() - i,
    {
        let name = lowercase(records[i].name.as_str());
        proof {
            reveal(Seq::filter);
            assert(records@.take(i + 1).drop_last() =~= records@.take(i as int));
            assert(records@.take(i + 1) =~= records@.take(i as int).push(records@[i as int]));
            if substring@.len() == 0 {
                assert(name@.subrange(0, 0 + query@.len() as int) =~= query@);
            }
        }
        if matches_folded(name.as_str(), query.as_str()) {
            r.push(records[i].clone());
        }
        i = i + 1;
    }
    assert(records@.take(records@.len() as int) =~= records@);
    r
}

/// The records whose owner is resolved and equals `owner`, in their given
/// order.
pub fn filter_by_owner(records: &Vec<ProcessRecord>, owner: &str) -> (r: Vec<ProcessRecord>)
    ensures
        r@ == owner_filtered(records@, owner@),
{
    let query = String::from_str(owner);
    let mut r: Vec<ProcessRecord> = Vec::new();
    let mut i: usize = 0;
    while i < records.len()
        invariant
            i <= records@.len(),
            query@ == owner@,
            r@ == owner_filtered(records@.take(i as int), owner@),
        decreases records@.len() - i,
    {
        proof {
            reveal(Seq::filter);
            assert(records@.take(i + 1).drop_last() =~= records@.take(i as int));
        }
        let hit = match &records[i].owner {
            Some(o) => o.eq(&query),
            None => false,
        };
        if hit {
            r.push(records[i].clone());
        }
        i = i + 1;
    }
    assert(records@.take(records@.len() as int) =~= records@);
    r
}

/// What a query with the given optional parts selects: the name filter,
/// then the owner filter, each where given.
pub open spec fn query_selected(
    s: Seq<ProcessRecord>,
    name_filter: Option<Seq<char>>,
    owner_filter: Option<Seq<char>>,
) -> Seq<ProcessRecord> {
    let by_name = match name_filter {
        Some(q) => name_filtered(s, q),
        None => s,
    };
    match owner_filter {
        Some(q) => owner_filtered(by_name, q),
        None => by_name,
    }
}

/// Filters by name and owner where a filter is given, then sorts stably by
/// `sort_key` where one is given.
pub fn query(
    records: &Vec<ProcessRecord>,
    name_filter: Option<&str>,
    owner_filter: Option<&str>,
    sort_key: Option<SortKey>,
) -> (r: Vec<ProcessRecord>)
    ensures
        ({
            let sel = query_selected(
                records@,
                match name_filter {
                    Some(q) => Some(q@),
                    None => None,
                },
                match owner_filter {
                    Some(q) => Some(q@),
                    None => None,
                },
            );
            match sort_key {
                Some(k) => is_stable_sort(k, sel, r@),
                None => r@ == sel,
            }
        }),
{
    let by_name = match name_filter {
        Some(q) => filter_by_name(records, q),
        None => crate::record::copy_records(records),
    };
    let by_owner = match owner_filter {
        Some(q) => filter_by_owner(&by_name, q),
        None => by_name,
    };
    match sort_key {
        Some(k) => sort_records(&by_owner, k),
        None => by_owner,
    }
}

} // verus!
