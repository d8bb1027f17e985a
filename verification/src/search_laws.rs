//! What a search of the popular crates finds, and in which order.
use vstd::prelude::*;
use crate::popular_crates::{popular_list, popular_search, select, match_kind};
use crate::text::{lowercase, starts_with, contains_seq};
use crate::client_laws::lemma_select;

verus! {

/// A crate of the list that matches in the way `kind` is kept by `select`.
proof fn lemma_select_keeps(list: Seq<(Seq<char>, Seq<char>)>, q: Seq<char>, kind: int, i: int)
    requires
        0 <= i < list.len(),
        match_kind(list[i], q) == kind,
    ensures
        select(list, q, kind).contains(list[i]),
    decreases list.len(),
{
    let init = list.drop_last();
    let rest = select(init, q, kind);
    if i == list.len() - 1 {
        assert(select(list, q, kind) == rest.push(list[i]));
        assert(select(list, q, kind)[rest.len() as int] == list[i]);
    } else {
        lemma_select_keeps(init, q, kind, i);
        assert(init[i] == list[i]);
        let k = choose|k: int| 0 <= k < rest.len() && rest[k] == list[i];
        if match_kind(list.last(), q) == kind {
            assert(select(list, q, kind)[k] == rest.push(list.last())[k]);
        }
        assert(select(list, q, kind)[k] == list[i]);
    }
}

/// How a crate meets a query, by its lowercase name and description against
/// the lowercase query: 0 for the same name, 1 for a name that starts with
/// the query, 2 for a name or description that contains it, 3 for none.
pub open spec fn meets(c: (Seq<char>, Seq<char>), q: Seq<char>) -> int {
    let name = lowercase(c.0);
    let l = lowercase(q);
    if name == l {
        0
    } else if starts_with(name, l) {
        1
    } else if contains_seq(name, l) || contains_seq(lowercase(c.1), l) {
        2
    } else {
        3
    }
}

/// A popular crate is found by a query exactly when its lowercase name is the
/// lowercase query, starts with it or contains it, or its lowercase
/// description contains it; and the results come in groups: same names first,
/// then names that start with the query, then the other matches.
pub proof fn law_popular_search_finds(q: Seq<char>)
    ensures
        forall|i: int|
            0 <= i < popular_list().len() ==> (popular_search(q).contains(
                #[trigger] popular_list()[i],
            ) <==> ({
                let c = popular_list()[i];
                let name = lowercase(c.0);
                let l = lowercase(q);
                name == l || starts_with(name, l) || contains_seq(name, l) || contains_seq(
                    lowercase(c.1),
                    l,
                )
            })),
        forall|a: int, b: int|
            0 <= a < b < popular_search(q).len() ==> meets(#[trigger] popular_search(q)[a], q)
                <= meets(#[trigger] popular_search(q)[b], q),
        forall|a: int| 0 <= a < popular_search(q).len() ==> meets(#[trigger] popular_search(q)[a], q) < 3,
{
    let list = popular_list();
    let l = lowercase(q);
    let s0 = select(list, l, 0);
    let s1 = select(list, l, 1);
    let s2 = select(list, l, 2);
    lemma_select(list, l, 0);
    lemma_select(list, l, 1);
    lemma_select(list, l, 2);
    let all = s0 + s1 + s2;
    assert(popular_search(q) == all);
    assert forall|k: int| 0 <= k < all.len() implies meets(#[trigger] all[k], q) == if k < s0.len() {
        0int
    } else if k < s0.len() + s1.len() {
        1int
    } else {
        2int
    } by {
        if k < s0.len() {
            assert(all[k] == s0[k]);
        } else if k < s0.len() + s1.len() {
            assert(all[k] == s1[k - s0.len()]);
        } else {
            assert(all[k] == s2[k - s0.len() - s1.len()]);
        }
    }
    assert forall|i: int| 0 <= i < list.len() implies (all.contains(#[trigger] list[i]) <==> meets(
        list[i],
        q,
    ) < 3) by {
        let c = list[i];
        if meets(c, q) < 3 {
            let kind = meets(c, q);
            lemma_select_keeps(list, l, kind, i);
            let sk = select(list, l, kind);
            let k = choose|k: int| 0 <= k < sk.len() && sk[k] == c;
            if kind == 0 {
                assert(all[k] == c);
            } else if kind == 1 {
                assert(all[s0.len() + k] == c);
            } else {
                assert(all[s0.len() + s1.len() + k] == c);
            }
        } else if all.contains(c) {
            let k = choose|k: int| 0 <= k < all.len() && all[k] == c;
            assert(meets(all[k], q) < 3);
        }
    }
}

} // verus!
