//! Laws that relate the three readings of a vault: the tree, the lookup by
//! identifier and the search.
use crate::kdbx::{kdbx_well_formed, nests_within, KdbxContents};
use crate::text::{is_substring, lemma_uuid_text_injective, uuid_text};
use crate::vault::{
    all_entries, depth_limit, entry_at, entry_matches, entry_model, entry_node, entry_order,
    find_model, first_with_uuid, group_model, group_node, group_of, matching,
    order_under, search_model, tree_model, EntryView, GroupView, NodeView,
};
use vstd::prelude::*;

verus! {

broadcast use vstd::seq_lib::group_seq_properties;

/// Whether entry `e` stands somewhere in the tree under group `g`.
pub open spec fn in_tree(g: GroupView, e: EntryView) -> bool
    decreases g,
{
    exists|i: int|
        0 <= i < g.children.len() && match #[trigger] g.children[i] {
            NodeView::Entry(x) => x == e,
            NodeView::Group(h) => in_tree(h, e),
        }
}

/// The entries of a tree node, in the tree's order.
pub open spec fn node_entries(n: NodeView) -> Seq<EntryView>
    decreases n, 2nat,
{
    match n {
        NodeView::Entry(e) => seq![e],
        NodeView::Group(g) => tree_entries(g),
    }
}

/// The entries of each child of group `g`, child by child.
pub open spec fn children_entries(g: GroupView) -> Seq<Seq<EntryView>>
    decreases g, 0nat,
{
    Seq::new(
        g.children.len(),
        |i: int|
            if 0 <= i < g.children.len() {
                node_entries(g.children[i])
            } else {
                Seq::empty()
            },
    )
}

/// The entries anywhere under group `g`, in the tree's order.
pub open spec fn tree_entries(g: GroupView) -> Seq<EntryView>
    decreases g, 1nat,
{
    children_entries(g).flatten()
}

pub open spec fn sub_entries(c: KdbxContents, d: nat) -> spec_fn(u128) -> Seq<EntryView> {
    |s: u128| tree_entries(group_model(c, s, d))
}

pub open spec fn one_entry(c: KdbxContents) -> spec_fn(u128) -> Seq<EntryView> {
    |e: u128| seq![entry_model(c, e)]
}

/// Whether some key in `keys` stands for entry `e`.
pub open spec fn keys_hold(c: KdbxContents, keys: Seq<u128>, e: EntryView) -> bool {
    exists|x: u128| keys.contains(x) && entry_model(c, x) == e
}

proof fn lemma_in_flat_map(s: Seq<u128>, f: spec_fn(u128) -> Seq<u128>, x: u128)
    ensures
        s.flat_map(f).contains(x) <==> exists|i: int| 0 <= i < s.len() && #[trigger] f(s[i]).contains(x),
    decreases s.len(),
{
    if s.len() == 0 {
        assert(s.flat_map(f) =~= Seq::<u128>::empty());
    } else {
        assert(s.map_values(f).drop_first() =~= s.drop_first().map_values(f));
        assert(s.flat_map(f) == f(s[0]) + s.drop_first().flat_map(f));
        lemma_in_flat_map(s.drop_first(), f, x);
        if s.flat_map(f).contains(x) {
            if !f(s[0]).contains(x) {
                let i = choose|i: int| 0 <= i < s.drop_first().len() && #[trigger] f(s.drop_first()[i]).contains(x);
                assert(f(s[i + 1]).contains(x));
            }
        }
        if exists|i: int| 0 <= i < s.len() && #[trigger] f(s[i]).contains(x) {
            let i = choose|i: int| 0 <= i < s.len() && #[trigger] f(s[i]).contains(x);
            if i > 0 {
                assert(f(s.drop_first()[i - 1]).contains(x));
            }
        }
    }
}

/// The tree under a group holds exactly the entries that the search order
/// under it holds.
pub proof fn lemma_tree_holds_order(c: KdbxContents, k: u128, d: nat, e: EntryView)
    ensures
        in_tree(group_model(c, k, d), e) <==> keys_hold(c, entry_order(c, k, d), e),
    decreases d,
{
    let g = group_of(c, k);
    let t = group_model(c, k, d);
    let order = entry_order(c, k, d);
    let subs = if d == 0 { Seq::<NodeView>::empty() } else { g.groups.map_values(group_node(c, (d - 1) as nat)) };
    let ents = g.entries.map_values(entry_node(c));
    assert(t.children == subs + ents);
    let rest = if d == 0 { Seq::<u128>::empty() } else { g.groups.flat_map(order_under(c, (d - 1) as nat)) };
    assert(order =~= g.entries + rest);
    if in_tree(t, e) {
        let i = choose|i: int|
            0 <= i < t.children.len() && match #[trigger] t.children[i] {
                NodeView::Entry(x) => x == e,
                NodeView::Group(h) => in_tree(h, e),
            };
        if i < subs.len() {
            let s = g.groups[i];
            assert(t.children[i] == NodeView::Group(group_model(c, s, (d - 1) as nat)));
            lemma_tree_holds_order(c, s, (d - 1) as nat, e);
            let x = choose|x: u128| entry_order(c, s, (d - 1) as nat).contains(x) && entry_model(c, x) == e;
            lemma_in_flat_map(g.groups, order_under(c, (d - 1) as nat), x);
            assert(order_under(c, (d - 1) as nat)(g.groups[i]).contains(x));
            assert(rest.contains(x));
            let j = choose|j: int| 0 <= j < rest.len() && rest[j] == x;
            assert(order[g.entries.len() + j] == x);
        } else {
            let j = i - subs.len();
            assert(t.children[i] == ents[j]);
            assert(order[j] == g.entries[j]);
            assert(order.contains(g.entries[j]));
        }
    }
    if keys_hold(c, order, e) {
        let x = choose|x: u128| order.contains(x) && entry_model(c, x) == e;
        let j = choose|j: int| 0 <= j < order.len() && order[j] == x;
        if j < g.entries.len() {
            let i = subs.len() + j;
            assert(t.children[i] == NodeView::Entry(entry_model(c, g.entries[j])));
        } else {
            assert(rest[j - g.entries.len()] == x);
            assert(rest.contains(x));
            lemma_in_flat_map(g.groups, order_under(c, (d - 1) as nat), x);
            let i = choose|i: int| 0 <= i < g.groups.len() && #[trigger] order_under(c, (d - 1) as nat)(g.groups[i]).contains(x);
            let s = g.groups[i];
            lemma_tree_holds_order(c, s, (d - 1) as nat, e);
            assert(t.children[i] == NodeView::Group(group_model(c, s, (d - 1) as nat)));
        }
    }
}

proof fn lemma_filter_within(s: Seq<EntryView>, p: spec_fn(EntryView) -> bool, e: EntryView)
    ensures
        s.filter(p).contains(e) ==> s.contains(e) && p(e),
    decreases s.len(),
{
    reveal(Seq::filter);
    if s.len() > 0 && s.filter(p).contains(e) {
        let sub = s.drop_last().filter(p);
        lemma_filter_within(s.drop_last(), p, e);
        let j = choose|j: int| 0 <= j < s.filter(p).len() && s.filter(p)[j] == e;
        if p(s.last()) {
            assert(s.filter(p) == sub.push(s.last()));
            if j < sub.len() {
                assert(sub[j] == e);
                let i = choose|i: int| 0 <= i < s.drop_last().len() && s.drop_last()[i] == e;
                assert(s[i] == e);
            } else {
                assert(s[s.len() - 1] == e);
            }
        } else {
            assert(sub[j] == e);
            let i = choose|i: int| 0 <= i < s.drop_last().len() && s.drop_last()[i] == e;
            assert(s[i] == e);
        }
    }
}

proof fn lemma_first_found(s: Seq<u128>, u: Seq<char>)
    ensures
        first_with_uuid(s, u) matches Some(k) ==> s.contains(k) && uuid_text(k) == u,
        (exists|x: u128| s.contains(x) && uuid_text(x) == u) ==> first_with_uuid(s, u) is Some,
    decreases s.len(),
{
    if s.len() > 0 {
        lemma_first_found(s.drop_first(), u);
        if first_with_uuid(s.drop_first(), u) is Some {
            let k = first_with_uuid(s.drop_first(), u)->0;
            let j = choose|j: int| 0 <= j < s.drop_first().len() && s.drop_first()[j] == k;
            assert(s[j + 1] == k);
        }
        if exists|x: u128| s.contains(x) && uuid_text(x) == u {
            let x = choose|x: u128| s.contains(x) && uuid_text(x) == u;
            let j = choose|j: int| 0 <= j < s.len() && s[j] == x;
            if j > 0 {
                assert(s.drop_first()[j - 1] == x);
            }
        }
    }
}

/// A lookup by identifier agrees with the tree: what it finds is an entry of
/// the tree with that identifier, and it finds one whenever the tree holds an
/// entry with that identifier.
pub proof fn law_find_agrees_with_tree(c: KdbxContents, u: Seq<char>)
    ensures
        find_model(c, u) matches Some(e) ==> e.uuid == u && in_tree(tree_model(c), e),
        (exists|e: EntryView| in_tree(tree_model(c), e) && e.uuid == u) ==> find_model(c, u) is Some,
{
    let order = all_entries(c);
    lemma_first_found(order, u);
    if first_with_uuid(order, u) is Some {
        let k = first_with_uuid(order, u)->0;
        lemma_tree_holds_order(c, c.root, depth_limit(c), entry_model(c, k));
    }
    if exists|e: EntryView| in_tree(tree_model(c), e) && e.uuid == u {
        let e = choose|e: EntryView| in_tree(tree_model(c), e) && e.uuid == u;
        lemma_tree_holds_order(c, c.root, depth_limit(c), e);
        let x = choose|x: u128| order.contains(x) && entry_model(c, x) == e;
        assert(uuid_text(x) == u);
    }
}

/// A search agrees with the tree: it gives exactly the entries of the tree
/// that match the query.
pub proof fn law_search_agrees_with_tree(c: KdbxContents, q: Seq<char>, e: EntryView)
    ensures
        search_model(c, q).contains(e) <==> (in_tree(tree_model(c), e) && entry_matches(e, q)),
{
    let order = all_entries(c);
    let mapped = order.map_values(entry_at(c));
    lemma_tree_holds_order(c, c.root, depth_limit(c), e);
    lemma_filter_within(mapped, matching(q), e);
    if search_model(c, q).contains(e) {
        assert(mapped.contains(e));
        let i = choose|i: int| 0 <= i < mapped.len() && mapped[i] == e;
        assert(order.contains(order[i]));
    }
    if in_tree(tree_model(c), e) && entry_matches(e, q) {
        let x = choose|x: u128| order.contains(x) && entry_model(c, x) == e;
        let i = choose|i: int| 0 <= i < order.len() && order[i] == x;
        assert(mapped[i] == e);
        mapped.lemma_filter_contains(matching(q), i);
    }
}

proof fn lemma_one_level_deeper(c: KdbxContents, k: u128, d: nat)
    requires
        nests_within(c, k, d),
    ensures
        group_model(c, k, d + 1) == group_model(c, k, d),
        entry_order(c, k, d + 1) == entry_order(c, k, d),
        nests_within(c, k, d + 1),
    decreases d,
{
    let g = group_of(c, k);
    if !c.groups.contains_key(k) || d == 0 {
        assert(g.groups.len() == 0);
        assert(g.groups.map_values(group_node(c, d)) =~= Seq::<NodeView>::empty());
        assert(g.groups.map_values(order_under(c, d)) =~= Seq::<Seq<u128>>::empty());
        assert(g.groups.flat_map(order_under(c, d)) =~= Seq::<u128>::empty());
        assert(group_model(c, k, d + 1).children =~= group_model(c, k, d).children);
        assert(entry_order(c, k, d + 1) =~= entry_order(c, k, d));
    } else {
        let e = (d - 1) as nat;
        assert forall|i: int| 0 <= i < g.groups.len() implies group_model(c, #[trigger] g.groups[i], d) == group_model(c, g.groups[i], e)
            && entry_order(c, g.groups[i], d) == entry_order(c, g.groups[i], e)
            && nests_within(c, g.groups[i], d) by {
            lemma_one_level_deeper(c, g.groups[i], e);
        }
        assert(g.groups.map_values(group_node(c, d)) =~= g.groups.map_values(group_node(c, e)));
        assert(g.groups.map_values(order_under(c, d)) =~= g.groups.map_values(order_under(c, e)));
        assert(group_model(c, k, d + 1).children =~= group_model(c, k, d).children);
        assert(entry_order(c, k, d + 1) =~= entry_order(c, k, d));
    }
}

proof fn lemma_any_deeper(c: KdbxContents, k: u128, d: nat, m: nat)
    requires
        nests_within(c, k, d),
        d <= m,
    ensures
        group_model(c, k, m) == group_model(c, k, d),
        entry_order(c, k, m) == entry_order(c, k, d),
    decreases m - d,
{
    if d < m {
        lemma_one_level_deeper(c, k, d);
        lemma_any_deeper(c, k, d + 1, m);
    }
}

/// Reading a vault's tree no deeper than it has groups cuts nothing off: in
/// a database of the shape `keepass` opens, reading any deeper gives the
/// same tree and the same search order.
pub proof fn law_depth_limit_cuts_nothing(c: KdbxContents, m: nat)
    requires
        kdbx_well_formed(c),
        m >= depth_limit(c),
    ensures
        group_model(c, c.root, m) == tree_model(c),
        entry_order(c, c.root, m) == all_entries(c),
{
    lemma_any_deeper(c, c.root, depth_limit(c), m);
}

/// What a lookup finds is the tree's entry with that identifier: wherever
/// the tree holds an entry whose identifier's text is `u`, the lookup of `u`
/// gives that very entry, all fields alike.
pub proof fn law_found_entry_is_tree_entry(c: KdbxContents, u: Seq<char>, y: EntryView)
    requires
        in_tree(tree_model(c), y),
        y.uuid == u,
    ensures
        find_model(c, u) == Some(y),
{
    let order = all_entries(c);
    lemma_tree_holds_order(c, c.root, depth_limit(c), y);
    let x = choose|x: u128| order.contains(x) && entry_model(c, x) == y;
    lemma_first_found(order, u);
    let k = first_with_uuid(order, u)->0;
    lemma_uuid_text_injective(k, x);
}

proof fn lemma_flatten_ones(c: KdbxContents, ents: Seq<u128>)
    ensures
        ents.map_values(one_entry(c)).flatten() == ents.map_values(entry_at(c)),
    decreases ents.len(),
{
    if ents.len() > 0 {
        let init = ents.drop_last();
        lemma_flatten_ones(c, init);
        assert(ents.map_values(one_entry(c)) =~= init.map_values(one_entry(c)).push(seq![entry_model(c, ents.last())]));
        init.map_values(one_entry(c)).lemma_flatten_push(seq![entry_model(c, ents.last())]);
        assert(ents.map_values(entry_at(c)) =~= init.map_values(entry_at(c)) + seq![entry_model(c, ents.last())]);
    } else {
        assert(ents.map_values(one_entry(c)) =~= Seq::<Seq<EntryView>>::empty());
        assert(ents.map_values(one_entry(c)).flatten() =~= Seq::<EntryView>::empty());
    }
}

proof fn lemma_subtrees_match(c: KdbxContents, subs: Seq<u128>, d: nat)
    requires
        forall|i: int| 0 <= i < subs.len() ==> (#[trigger] sub_entries(c, d)(subs[i])).to_multiset()
            == order_under(c, d)(subs[i]).map_values(entry_at(c)).to_multiset(),
    ensures
        subs.map_values(sub_entries(c, d)).flatten().to_multiset() == subs.flat_map(order_under(c, d)).map_values(
            entry_at(c),
        ).to_multiset(),
    decreases subs.len(),
{
    broadcast use vstd::seq_lib::lemma_multiset_commutative;
    if subs.len() == 0 {
        assert(subs.map_values(sub_entries(c, d)) =~= Seq::<Seq<EntryView>>::empty());
        assert(subs.map_values(sub_entries(c, d)).flatten() =~= Seq::<EntryView>::empty());
        assert(subs.flat_map(order_under(c, d)) =~= Seq::<u128>::empty());
        assert(subs.flat_map(order_under(c, d)).map_values(entry_at(c)) =~= Seq::<EntryView>::empty());
    } else {
        let init = subs.drop_last();
        let last = subs.last();
        assert forall|i: int| 0 <= i < init.len() implies (#[trigger] sub_entries(c, d)(init[i])).to_multiset()
            == order_under(c, d)(init[i]).map_values(entry_at(c)).to_multiset() by {
            assert(init[i] == subs[i]);
        }
        lemma_subtrees_match(c, init, d);
        assert(subs.map_values(sub_entries(c, d)) =~= init.map_values(sub_entries(c, d)).push(sub_entries(c, d)(last)));
        init.map_values(sub_entries(c, d)).lemma_flatten_push(sub_entries(c, d)(last));
        assert(subs =~= init.push(last));
        init.lemma_flat_map_push(order_under(c, d), last);
        let x = init.flat_map(order_under(c, d));
        let y = order_under(c, d)(last);
        assert((x + y).map_values(entry_at(c)) =~= x.map_values(entry_at(c)) + y.map_values(entry_at(c)));
        assert(sub_entries(c, d)(subs[subs.len() - 1]).to_multiset() == y.map_values(entry_at(c)).to_multiset());
    }
}

/// The tree under a group holds the same entries as the search order under
/// it, each as many times.
pub proof fn lemma_tree_entries_match_order(c: KdbxContents, k: u128, d: nat)
    ensures
        tree_entries(group_model(c, k, d)).to_multiset() == entry_order(c, k, d).map_values(entry_at(c)).to_multiset(),
    decreases d,
{
    broadcast use vstd::seq_lib::lemma_multiset_commutative;
    let g = group_of(c, k);
    let t = group_model(c, k, d);
    let subs = if d == 0 { Seq::<u128>::empty() } else { g.groups };
    let dd: nat = if d == 0 { 0 } else { (d - 1) as nat };
    let sub_nodes = if d == 0 { Seq::<NodeView>::empty() } else { g.groups.map_values(group_node(c, dd)) };
    assert(sub_nodes =~= subs.map_values(group_node(c, dd)));
    let inner = children_entries(t);
    assert(inner =~= subs.map_values(sub_entries(c, dd)) + g.entries.map_values(one_entry(c)));
    vstd::seq_lib::lemma_flatten_concat(subs.map_values(sub_entries(c, dd)), g.entries.map_values(one_entry(c)));
    lemma_flatten_ones(c, g.entries);
    assert forall|i: int| 0 <= i < subs.len() implies (#[trigger] sub_entries(c, dd)(subs[i])).to_multiset()
        == order_under(c, dd)(subs[i]).map_values(entry_at(c)).to_multiset() by {
        lemma_tree_entries_match_order(c, subs[i], dd);
    }
    lemma_subtrees_match(c, subs, dd);
    let rest = subs.flat_map(order_under(c, dd));
    if d == 0 {
        assert(rest =~= Seq::<u128>::empty());
    }
    assert(entry_order(c, k, d) =~= g.entries + rest);
    assert((g.entries + rest).map_values(entry_at(c)) =~= g.entries.map_values(entry_at(c)) + rest.map_values(entry_at(c)));
    assert(tree_entries(t) == inner.flatten());
}

proof fn lemma_filter_all(s: Seq<EntryView>, p: spec_fn(EntryView) -> bool)
    requires
        forall|x: EntryView| #[trigger] p(x),
    ensures
        s.filter(p) == s,
    decreases s.len(),
{
    reveal(Seq::filter);
    if s.len() > 0 {
        lemma_filter_all(s.drop_last(), p);
        assert(s.drop_last().push(s.last()) =~= s);
    }
}

/// The empty query matches every entry: its search gives every entry of the
/// vault once, in search order, and as many of each as the tree holds.
pub proof fn law_empty_search_gives_every_entry(c: KdbxContents)
    ensures
        search_model(c, Seq::empty()) == all_entries(c).map_values(entry_at(c)),
        search_model(c, Seq::empty()).to_multiset() == tree_entries(tree_model(c)).to_multiset(),
        search_model(c, Seq::empty()).len() == tree_entries(tree_model(c)).len(),
{
    assert forall|e: EntryView| #[trigger] matching(Seq::<char>::empty())(e) by {
        let q = Seq::<char>::empty();
        assert(e.title.subrange(0, 0 + q.len() as int) =~= q);
        assert(is_substring(q, e.title));
    }
    lemma_filter_all(all_entries(c).map_values(entry_at(c)), matching(Seq::empty()));
    lemma_tree_entries_match_order(c, c.root, depth_limit(c));
    search_model(c, Seq::empty()).to_multiset_ensures();
    tree_entries(tree_model(c)).to_multiset_ensures();
}

/// Every entry that a search gives can be looked up by its identifier.
pub proof fn law_searched_entries_can_be_found(c: KdbxContents, q: Seq<char>, e: EntryView)
    requires
        search_model(c, q).contains(e),
    ensures
        find_model(c, e.uuid) is Some,
{
    law_search_agrees_with_tree(c, q, e);
    law_find_agrees_with_tree(c, e.uuid);
}

proof fn lemma_substring_within(a: Seq<char>, b: Seq<char>, t: Seq<char>)
    requires
        is_substring(a, b),
        is_substring(b, t),
    ensures
        is_substring(a, t),
{
    let i = choose|i: int| 0 <= i && i + a.len() <= b.len() && #[trigger] b.subrange(i, i + a.len()) == a;
    let j = choose|j: int| 0 <= j && j + b.len() <= t.len() && #[trigger] t.subrange(j, j + b.len()) == b;
    assert(t.subrange(j + i, j + i + a.len()) =~= a) by {
        assert forall|x: int| 0 <= x < a.len() implies t.subrange(j + i, j + i + a.len())[x] == a[x] by {
            assert(b.subrange(i, i + a.len())[x] == b[i + x]);
            assert(t.subrange(j, j + b.len())[i + x] == t[j + i + x]);
        }
    }
}

proof fn lemma_filter_refines(s: Seq<EntryView>, p1: spec_fn(EntryView) -> bool, p2: spec_fn(EntryView) -> bool)
    requires
        forall|x: EntryView| #[trigger] p2(x) ==> p1(x),
    ensures
        s.filter(p2) == s.filter(p1).filter(p2),
    decreases s.len(),
{
    reveal(Seq::filter);
    if s.len() > 0 {
        let a = s.drop_last().filter(p1);
        lemma_filter_refines(s.drop_last(), p1, p2);
        if p1(s.last()) {
            a.lemma_filter_push(s.last(), p2);
        }
    }
}

/// A longer query narrows a search: where `q1` occurs in `q2`, the search
/// for `q2` gives those entries of the search for `q1` that match `q2`, in
/// the same order, and so never more of them.
pub proof fn law_longer_query_narrows_search(c: KdbxContents, q1: Seq<char>, q2: Seq<char>)
    requires
        is_substring(q1, q2),
    ensures
        search_model(c, q2) == search_model(c, q1).filter(matching(q2)),
        search_model(c, q2).len() <= search_model(c, q1).len(),
{
    assert forall|e: EntryView| #[trigger] matching(q2)(e) implies matching(q1)(e) by {
        if is_substring(q2, e.title) {
            lemma_substring_within(q1, q2, e.title);
        } else {
            let i = choose|i: int| 0 <= i < e.tags.len() && is_substring(q2, #[trigger] e.tags[i]);
            lemma_substring_within(q1, q2, e.tags[i]);
        }
    }
    let mapped = all_entries(c).map_values(entry_at(c));
    lemma_filter_refines(mapped, matching(q1), matching(q2));
    search_model(c, q1).lemma_filter_len(matching(q2));
}


/// Every group of the tree carries its database group's name and
/// identifier: for any group `k` of the database read to any depth, the tree
/// node has `k`'s name and the text of its identifier, whether or not the
/// group holds entries or child groups; and with depth to spare it lists
/// one child for each of its child groups and entries.
pub proof fn law_tree_groups_keep_their_names(c: KdbxContents, k: u128, d: nat)
    requires
        c.groups.contains_key(k),
    ensures
        group_model(c, k, d).name == c.groups[k].name,
        group_model(c, k, d).uuid == uuid_text(k),
        d > 0 ==> group_model(c, k, d).children.len() == c.groups[k].groups.len() + c.groups[k].entries.len(),
{
}

/// A search finds an entry of the vault exactly where the query occurs in
/// its title or in any one of its tags, however many tags it has; what it
/// gives holds nothing else.
pub proof fn law_search_matches_title_or_any_tag(c: KdbxContents, q: Seq<char>, e: EntryView, i: int)
    ensures
        in_tree(tree_model(c), e) && is_substring(q, e.title) ==> search_model(c, q).contains(e),
        in_tree(tree_model(c), e) && 0 <= i < e.tags.len() && is_substring(q, e.tags[i])
            ==> search_model(c, q).contains(e),
        search_model(c, q).contains(e) ==> in_tree(tree_model(c), e) && (is_substring(q, e.title)
            || exists|j: int| 0 <= j < e.tags.len() && is_substring(q, #[trigger] e.tags[j])),
{
    law_search_agrees_with_tree(c, q, e);
}

} // verus!
