//! Promises of the crates.io client that span its functions: the latest
//! release counts as up to date, and a search never lists a crate twice.
use vstd::prelude::*;
use crate::crates_client::{SpecItem, new_results, names_of, popular_items};
use crate::popular_crates::{
    popular_list, popular_search, select, match_kind, law_popular_names_distinct,
};
use crate::text::lowercase;
use crate::versions::{
    SpecVersionInfo, SpecVersionStatus, version_status, latest_index, clean_requirement,
    listed_in_order, entry_order, semver_order,
};
use crate::server::{latest_offered_from, offered};
use crate::hover::hint_of;
use crate::position::Position;

verus! {

/// A dependency that asks for exactly the latest release is up to date, and
/// its hint is the check mark. (A version whose text has surrounding blanks
/// or quotes, or is empty, is read otherwise and left out.)
pub proof fn law_latest_release_is_up_to_date(vs: Seq<SpecVersionInfo>, i: int, at: Position)
    requires
        latest_index(vs) == Some(i),
        vs[i].version.len() > 0,
        clean_requirement(vs[i].version) == vs[i].version,
    ensures
        version_status(vs[i].version, vs) == (SpecVersionStatus::UpToDate {
            current: vs[i].version,
            latest: vs[i].version,
        }),
        hint_of(at, version_status(vs[i].version, vs)) matches Some(h) && h.label == " ✓"@,
{
}

/// Whether no two search results have the same name.
pub open spec fn distinct_names(s: Seq<SpecItem>) -> bool {
    forall|i: int, j: int| 0 <= i < j < s.len() ==> s[i].name != s[j].name
}

proof fn lemma_new_results(seen: Seq<Seq<char>>, api: Seq<SpecItem>)
    ensures
        distinct_names(new_results(seen, api)),
        forall|k: int|
            0 <= k < new_results(seen, api).len() ==> !seen.contains(
                (#[trigger] new_results(seen, api)[k]).name,
            ),
    decreases api.len(),
{
    if api.len() > 0 {
        let n0 = api[0].name;
        if seen.contains(n0) {
            lemma_new_results(seen, api.drop_first());
        } else {
            let seen2 = seen.push(n0);
            let rest = new_results(seen2, api.drop_first());
            lemma_new_results(seen2, api.drop_first());
            let all = seq![api[0]] + rest;
            assert(new_results(seen, api) == all);
            assert forall|k: int| 0 <= k < rest.len() implies !seen.contains(
                (#[trigger] rest[k]).name,
            ) && rest[k].name != n0 by {
                assert(!seen2.contains(rest[k].name));
                if seen.contains(rest[k].name) {
                    let w = choose|w: int| 0 <= w < seen.len() && seen[w] == rest[k].name;
                    assert(seen2[w] == rest[k].name);
                }
                assert(seen2[seen.len() as int] == n0);
            }
            assert forall|k: int| 0 <= k < all.len() implies !seen.contains(
                (#[trigger] all[k]).name,
            ) by {
                if k > 0 {
                    assert(all[k] == rest[k - 1]);
                }
            }
            assert forall|a: int, b: int| 0 <= a < b < all.len() implies all[a].name
                != all[b].name by {
                assert(all[b] == rest[b - 1]);
                if a > 0 {
                    assert(all[a] == rest[a - 1]);
                }
            }
        }
    }
}

/// A search lists each crate once: when the popular results name each crate
/// once, adding the crates.io results (those not yet listed) keeps it so.
pub proof fn law_search_lists_each_crate_once(results: Seq<SpecItem>, api: Seq<SpecItem>)
    requires
        distinct_names(results),
    ensures
        distinct_names(results + new_results(names_of(results), api)),
{
    let added = new_results(names_of(results), api);
    let all = results + added;
    lemma_new_results(names_of(results), api);
    assert forall|a: int, b: int| 0 <= a < b < all.len() implies all[a].name != all[b].name by {
        if b >= results.len() {
            assert(all[b] == added[b - results.len()]);
            if a < results.len() {
                assert(names_of(results)[a] == results[a].name);
                assert(!names_of(results).contains(added[b - results.len()].name));
            } else {
                assert(all[a] == added[a - results.len()]);
            }
        }
    }
}

/// Whether no two crates of a list have the same name.
pub open spec fn pairs_distinct(s: Seq<(Seq<char>, Seq<char>)>) -> bool {
    forall|i: int, j: int| 0 <= i < j < s.len() ==> s[i].0 != s[j].0
}

/// What `select` keeps is taken from the list, with the kind asked for; and
/// a list without repeated names gives a selection without repeated names.
pub(crate) proof fn lemma_select(list: Seq<(Seq<char>, Seq<char>)>, q: Seq<char>, kind: int)
    ensures
        forall|k: int|
            0 <= k < select(list, q, kind).len() ==> exists|i: int|
                0 <= i < list.len() && #[trigger] select(list, q, kind)[k] == list[i]
                    && match_kind(list[i], q) == kind,
        pairs_distinct(list) ==> pairs_distinct(select(list, q, kind)),
    decreases list.len(),
{
    if list.len() > 0 {
        let init = list.drop_last();
        lemma_select(init, q, kind);
        let rest = select(init, q, kind);
        let sel = select(list, q, kind);
        assert forall|k: int| 0 <= k < sel.len() implies exists|i: int|
            0 <= i < list.len() && #[trigger] sel[k] == list[i] && match_kind(list[i], q)
                == kind by {
            if k < rest.len() {
                assert(sel[k] == rest[k]);
                let i = choose|i: int|
                    0 <= i < init.len() && #[trigger] rest[k] == init[i] && match_kind(init[i], q)
                        == kind;
                assert(list[i] == init[i]);
            } else {
                assert(match_kind(list.last(), q) == kind);
                assert(sel == rest.push(list.last()));
                assert(sel[k] == list[list.len() - 1]);
            }
        }
        if pairs_distinct(list) {
            assert(pairs_distinct(init)) by {
                assert forall|i: int, j: int| 0 <= i < j < init.len() implies init[i].0
                    != init[j].0 by {
                    assert(init[i] == list[i] && init[j] == list[j]);
                }
            }
            if match_kind(list.last(), q) == kind {
                assert forall|a: int, b: int| 0 <= a < b < sel.len() implies sel[a].0
                    != sel[b].0 by {
                    assert(sel[a] == rest[a]);
                    if b < rest.len() {
                        assert(sel[b] == rest[b]);
                    } else {
                        let i = choose|i: int|
                            0 <= i < init.len() && #[trigger] rest[a] == init[i] && match_kind(
                                init[i],
                                q,
                            ) == kind;
                        assert(list[i] == init[i]);
                        assert(sel[b] == list[list.len() - 1]);
                    }
                }
            }
        }
    }
}

/// The popular crates that match a query name each crate once: exact
/// matches, prefix matches and other matches are taken from the curated list,
/// whose names are all different, without repeats, and no crate is in two of
/// them.
pub proof fn law_popular_search_distinct(q: Seq<char>)
    ensures
        pairs_distinct(popular_search(q)),
        distinct_names(popular_items(q)),
{
    law_popular_names_distinct();
    let list = popular_list();
    let l = lowercase(q);
    let s0 = select(list, l, 0);
    let s1 = select(list, l, 1);
    let s2 = select(list, l, 2);
    lemma_select(list, l, 0);
    lemma_select(list, l, 1);
    lemma_select(list, l, 2);
    let all = s0 + s1 + s2;
    assert(popular_search(q) == all);
    assert forall|a: int, b: int| 0 <= a < b < all.len() implies all[a].0 != all[b].0 by {
        let (ka, ia) = if a < s0.len() {
            assert(all[a] == s0[a]);
            (0int, choose|i: int| 0 <= i < list.len() && #[trigger] s0[a] == list[i] && match_kind(list[i], l) == 0)
        } else if a < s0.len() + s1.len() {
            assert(all[a] == s1[a - s0.len()]);
            (1int, choose|i: int| 0 <= i < list.len() && #[trigger] s1[a - s0.len()] == list[i] && match_kind(list[i], l) == 1)
        } else {
            assert(all[a] == s2[a - s0.len() - s1.len()]);
            (2int, choose|i: int| 0 <= i < list.len() && #[trigger] s2[a - s0.len() - s1.len()] == list[i] && match_kind(list[i], l) == 2)
        };
        let (kb, ib) = if b < s0.len() {
            assert(all[b] == s0[b]);
            (0int, choose|i: int| 0 <= i < list.len() && #[trigger] s0[b] == list[i] && match_kind(list[i], l) == 0)
        } else if b < s0.len() + s1.len() {
            assert(all[b] == s1[b - s0.len()]);
            (1int, choose|i: int| 0 <= i < list.len() && #[trigger] s1[b - s0.len()] == list[i] && match_kind(list[i], l) == 1)
        } else {
            assert(all[b] == s2[b - s0.len() - s1.len()]);
            (2int, choose|i: int| 0 <= i < list.len() && #[trigger] s2[b - s0.len() - s1.len()] == list[i] && match_kind(list[i], l) == 2)
        };
        assert(all[a] == list[ia] && match_kind(list[ia], l) == ka);
        assert(all[b] == list[ib] && match_kind(list[ib], l) == kb);
        if ka == kb {
            if a < s0.len() && b < s0.len() {
                assert(s0[a].0 != s0[b].0);
            } else if s0.len() <= a && b < s0.len() + s1.len() {
                assert(s1[a - s0.len()].0 != s1[b - s0.len()].0);
            } else if s0.len() + s1.len() <= a {
                assert(s2[a - s0.len() - s1.len()].0 != s2[b - s0.len() - s1.len()].0);
            }
        } else {
            assert(ia != ib);
            if ia < ib {
                assert(list[ia].0 != list[ib].0);
            } else {
                assert(list[ib].0 != list[ia].0);
            }
        }
    }
    let items = popular_items(q);
    assert forall|i: int, j: int| 0 <= i < j < items.len() implies items[i].name != items[j].name by {
        assert(items[i].name == all[i].0);
        assert(items[j].name == all[j].0);
    }
}

/// A search for a query lists each crate once, the popular ones first: the
/// crates.io results added are those not listed yet.
pub proof fn law_search_for_query_lists_each_crate_once(q: Seq<char>, api: Seq<SpecItem>)
    ensures
        distinct_names(popular_items(q) + new_results(names_of(popular_items(q)), api)),
{
    law_popular_search_distinct(q);
    law_search_lists_each_crate_once(popular_items(q), api);
}

/// The first offered, released, stable version from index `i` on, when one
/// stands at or before `j`: the search stops at the first such index.
proof fn lemma_latest_offered_from(vs: Seq<SpecVersionInfo>, prefix: Seq<char>, i: int, j: int)
    requires
        0 <= i <= j < vs.len(),
        offered(vs[j], prefix),
        !vs[j].yanked,
        !vs[j].is_prerelease,
    ensures
        latest_offered_from(vs, prefix, i) matches Some(l) && i <= l <= j && !vs[l].yanked,
    decreases j - i,
{
    if !(offered(vs[i], prefix) && !vs[i].yanked && !vs[i].is_prerelease) {
        lemma_latest_offered_from(vs, prefix, i + 1, j);
    }
}

/// Versions listed in order (as the sparse index is read) put the newest
/// stable release first among the completions: no other offered, released,
/// stable version that parses is newer than the one completion offers first.
pub proof fn law_first_completion_is_newest_stable(
    vs: Seq<SpecVersionInfo>,
    prefix: Seq<char>,
    j: int,
)
    requires
        listed_in_order(vs),
        0 <= j < vs.len(),
        offered(vs[j], prefix),
        !vs[j].yanked,
        !vs[j].is_prerelease,
        vs[j].parsed is Some,
    ensures
        latest_offered_from(vs, prefix, 0) matches Some(l) && vs[l].parsed is Some && (l == j
            || semver_order(vs[j].parsed->0, vs[l].parsed->0) <= 0),
{
    lemma_latest_offered_from(vs, prefix, 0, j);
    let l = latest_offered_from(vs, prefix, 0)->0;
    if l < j {
        assert(entry_order(vs[l], vs[j]) <= 0);
    }
}

} // verus!
