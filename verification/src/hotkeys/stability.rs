//! The conflict report does not depend on the order in which mappings are listed.

use vstd::prelude::*;
use vstd::relations::*;
use vstd::seq_lib::*;

use crate::hotkeys::conflicts::{
    ConflictView, all_vertices, analysis, conflict_order, cycle_conflict_of, cycle_conflicts,
    cycle_leaders, duplicate_conflicts, first_with_trigger, has_edge, is_active, is_path,
    is_vertex, lemma_conflict_order_total, lemma_is_vertex, reaches, same_component,
    trigger_ids, component_ids, in_component, leads_component, emits_to, ConflictCode,
    ConflictSeverity,
};
use crate::hotkeys::compiler::{
    blocking_conflicts, compiled_entries, enabled_mapping, entry_pair, keymap_lookup,
    lemma_compiled_lookup_finds_enabled,
};
use crate::hotkeys::domain::{ChordView, MappingView};
use crate::ordering::{lemma_sorted_ids_permutation, sorted_ids};

verus! {

broadcast use {vstd::seq_lib::group_to_multiset_ensures, vstd::multiset::group_multiset_axioms};

// ---------------------------------------------------------------------------------------
// Permutations, filters and maps.
// ---------------------------------------------------------------------------------------
/// Filtering a sequence filters its multiset.
proof fn lemma_filter_multiset<A>(s: Seq<A>, p: spec_fn(A) -> bool)
    ensures
        s.filter(p).to_multiset() == s.to_multiset().filter(p),
    decreases s.len(),
{
    broadcast use Seq::lemma_filter_push;

    if s.len() == 0 {
        assert(s.filter(p) =~= Seq::<A>::empty()) by {
            reveal(Seq::filter);
        }
        assert(s.filter(p).to_multiset() =~= s.to_multiset().filter(p));
    } else {
        let init = s.drop_last();
        let x = s.last();
        assert(init.push(x) =~= s);
        lemma_filter_multiset(init, p);
        assert(s.filter(p).to_multiset() =~= s.to_multiset().filter(p));
    }
}

/// The number of times `y` occurs among the images of `s` under `f`.
proof fn lemma_map_multiset_count<A, B>(s: Seq<A>, f: spec_fn(A) -> B, y: B)
    ensures
        s.map_values(f).to_multiset().count(y) == s.filter(|x: A| f(x) == y).len(),
    decreases s.len(),
{
    broadcast use Seq::lemma_filter_push;

    if s.len() == 0 {
        assert(s.filter(|x: A| f(x) == y) =~= Seq::<A>::empty()) by {
            reveal(Seq::filter);
        }
        assert(s.map_values(f) =~= Seq::<B>::empty());
    } else {
        let init = s.drop_last();
        let x = s.last();
        assert(init.push(x) =~= s);
        assert(s.map_values(f) =~= init.map_values(f).push(f(x)));
        lemma_map_multiset_count(init, f, y);
    }
}

/// Two orderings of the same elements keep the same elements under a map.
proof fn lemma_permuted_map<A, B>(a: Seq<A>, b: Seq<A>, f: spec_fn(A) -> B)
    requires
        a.to_multiset() == b.to_multiset(),
    ensures
        a.map_values(f).to_multiset() == b.map_values(f).to_multiset(),
{
    assert forall|y: B| #[trigger] a.map_values(f).to_multiset().count(y) == b.map_values(
        f,
    ).to_multiset().count(y) by {
        let q = |x: A| f(x) == y;
        lemma_map_multiset_count(a, f, y);
        lemma_map_multiset_count(b, f, y);
        lemma_filter_multiset(a, q);
        lemma_filter_multiset(b, q);
        a.filter(q).to_multiset_ensures();
        b.filter(q).to_multiset_ensures();
    }
    assert(a.map_values(f).to_multiset() =~= b.map_values(f).to_multiset());
}

/// Two orderings of the same elements keep the same elements under a filter and a map.
pub proof fn lemma_permuted_filter_map<A, B>(
    first: Seq<A>,
    second: Seq<A>,
    p: spec_fn(A) -> bool,
    f: spec_fn(A) -> B,
)
    requires
        first.to_multiset() == second.to_multiset(),
    ensures
        first.filter(p).map_values(f).to_multiset() == second.filter(p).map_values(f).to_multiset(),
{
    lemma_filter_multiset(first, p);
    lemma_filter_multiset(second, p);
    lemma_permuted_map(first.filter(p), second.filter(p), f);
}

/// Two sequences without repetitions that hold the same elements are orderings of each other.
pub proof fn lemma_same_elements_permuted<A>(first: Seq<A>, second: Seq<A>)
    requires
        first.no_duplicates(),
        second.no_duplicates(),
        forall|x: A| first.contains(x) <==> second.contains(x),
    ensures
        first.to_multiset() == second.to_multiset(),
{
    first.lemma_multiset_has_no_duplicates();
    second.lemma_multiset_has_no_duplicates();
    assert forall|x: A| #[trigger] first.to_multiset().count(x) == second.to_multiset().count(x) by {
        to_multiset_contains(first, x);
        to_multiset_contains(second, x);
    }
    assert(first.to_multiset() =~= second.to_multiset());
}


// ---------------------------------------------------------------------------------------
// What two lists with the same enabled mappings share.
// ---------------------------------------------------------------------------------------
/// `first` and `second` hold the same enabled mappings, each as often, in any order;
/// disabled mappings may differ.
pub open spec fn same_enabled(first: Seq<MappingView>, second: Seq<MappingView>) -> bool {
    first.to_multiset().filter(enabled_mapping()) == second.to_multiset().filter(enabled_mapping())
}

proof fn lemma_same_enabled_members(first: Seq<MappingView>, second: Seq<MappingView>)
    requires
        same_enabled(first, second),
    ensures
        forall|m: MappingView| m.enabled ==> (first.contains(m) <==> second.contains(m)),
{
    assert forall|m: MappingView| m.enabled implies (first.contains(m) <==> second.contains(m)) by {
        to_multiset_contains(first, m);
        to_multiset_contains(second, m);
        assert(first.to_multiset().filter(enabled_mapping()).count(m) == first.to_multiset().count(m));
        assert(second.to_multiset().filter(enabled_mapping()).count(m) == second.to_multiset().count(m));
    }
}

/// A position in `second` holding the enabled mapping at position `i` of `first`.
proof fn lemma_matching_index(first: Seq<MappingView>, second: Seq<MappingView>, i: int) -> (j: int)
    requires
        forall|m: MappingView| m.enabled ==> (first.contains(m) <==> second.contains(m)),
        is_active(first, i),
    ensures
        is_active(second, j),
        second[j] == first[i],
{
    assert(first.contains(first[i]));
    choose|j: int| 0 <= j < second.len() && second[j] == first[i]
}

/// Two orderings of the same mappings hold the same enabled mappings.
proof fn lemma_permuted_same_enabled(first: Seq<MappingView>, second: Seq<MappingView>)
    requires
        first.to_multiset() == second.to_multiset(),
    ensures
        same_enabled(first, second),
{
}

proof fn lemma_vertex_shared(first: Seq<MappingView>, second: Seq<MappingView>, a: u128)
    requires
        forall|m: MappingView| m.enabled ==> (first.contains(m) <==> second.contains(m)),
    ensures
        is_vertex(first, a) ==> is_vertex(second, a),
{
    if is_vertex(first, a) {
        let i = choose|i: int| is_active(first, i) && first[i].id == a;
        let j = lemma_matching_index(first, second, i);
        assert(is_active(second, j) && second[j].id == a);
    }
}

proof fn lemma_edge_shared(first: Seq<MappingView>, second: Seq<MappingView>, a: u128, b: u128)
    requires
        forall|m: MappingView| m.enabled ==> (first.contains(m) <==> second.contains(m)),
    ensures
        has_edge(first, a, b) ==> has_edge(second, a, b),
{
    if has_edge(first, a, b) {
        let (i, j) = choose|i: int, j: int|
            #[trigger] emits_to(first, i, j) && first[i].id == a && first[j].id == b;
        let x = lemma_matching_index(first, second, i);
        let y = lemma_matching_index(first, second, j);
        assert(emits_to(second, x, y));
    }
}

proof fn lemma_graph_shared(first: Seq<MappingView>, second: Seq<MappingView>)
    requires
        same_enabled(first, second),
    ensures
        forall|a: u128| #[trigger] is_vertex(first, a) == is_vertex(second, a),
        forall|a: u128, b: u128| #[trigger] has_edge(first, a, b) == has_edge(second, a, b),
        forall|a: u128, b: u128| #[trigger] reaches(first, a, b) == reaches(second, a, b),
{
    lemma_same_enabled_members(first, second);
    assert forall|a: u128| #[trigger] is_vertex(first, a) == is_vertex(second, a) by {
        lemma_vertex_shared(first, second, a);
        lemma_vertex_shared(second, first, a);
    }
    assert forall|a: u128, b: u128| #[trigger] has_edge(first, a, b) == has_edge(second, a, b) by {
        lemma_edge_shared(first, second, a, b);
        lemma_edge_shared(second, first, a, b);
    }
    assert forall|p: Seq<u128>| #[trigger] is_path(first, p) == is_path(second, p) by {
        if is_path(first, p) {
            assert forall|k: int| 0 <= k < p.len() - 1 implies #[trigger] has_edge(second, p[k], p[k + 1]) by {
                assert(has_edge(first, p[k], p[k + 1]));
            }
        }
        if is_path(second, p) {
            assert forall|k: int| 0 <= k < p.len() - 1 implies #[trigger] has_edge(first, p[k], p[k + 1]) by {
                assert(has_edge(second, p[k], p[k + 1]));
            }
        }
    }
    assert forall|a: u128, b: u128| #[trigger] reaches(first, a, b) == reaches(second, a, b) by {
        if reaches(first, a, b) {
            let p = choose|p: Seq<u128>| is_path(first, p) && p[0] == a && p.last() == b;
            assert(is_path(second, p));
        }
        if reaches(second, a, b) {
            let p = choose|p: Seq<u128>| is_path(second, p) && p[0] == a && p.last() == b;
            assert(is_path(first, p));
        }
    }
}

/// The cycle conflicts of two lists with the same enabled mappings are orderings of each
/// other.
proof fn lemma_cycle_conflicts_shared(first: Seq<MappingView>, second: Seq<MappingView>)
    requires
        same_enabled(first, second),
    ensures
        cycle_conflicts(first).to_multiset() == cycle_conflicts(second).to_multiset(),
{
    lemma_graph_shared(first, second);
    let v1 = all_vertices(first);
    let v2 = all_vertices(second);
    assert forall|a: u128| v1.contains(a) <==> v2.contains(a) by {
        lemma_is_vertex(first, a);
        lemma_is_vertex(second, a);
    }
    lemma_is_vertex(first, 0);
    lemma_is_vertex(second, 0);
    lemma_same_elements_permuted(v1, v2);
    assert forall|a: u128| #[trigger] in_component(first, a) == in_component(second, a) by {
        assert forall|b: u128| #[trigger] in_component(first, a)(b) == in_component(second, a)(b) by {
            assert(reaches(first, a, b) == reaches(second, a, b));
            assert(reaches(first, b, a) == reaches(second, b, a));
        }
        assert(in_component(first, a) =~= in_component(second, a));
    }
    assert forall|a: u128| #[trigger] component_ids(first, a).to_multiset() == component_ids(
        second,
        a,
    ).to_multiset() by {
        lemma_filter_multiset(v1, in_component(first, a));
        lemma_filter_multiset(v2, in_component(second, a));
        assert(in_component(first, a) == in_component(second, a));
    }
    assert forall|a: u128| #[trigger] cycle_conflict_of(first)(a) == cycle_conflict_of(second)(a) by {
        let c1 = component_ids(first, a);
        let c2 = component_ids(second, a);
        assert(c1.to_multiset() == c2.to_multiset());
        c1.to_multiset_ensures();
        c2.to_multiset_ensures();
        lemma_sorted_ids_permutation(c1, c2);
    }
    assert forall|a: u128| #[trigger] cycle_leaders(first)(a) == cycle_leaders(second)(a) by {
        let c1 = component_ids(first, a);
        let c2 = component_ids(second, a);
        assert(c1.to_multiset() == c2.to_multiset());
        c1.to_multiset_ensures();
        c2.to_multiset_ensures();
        assert(has_edge(first, a, a) == has_edge(second, a, a));
        assert forall|b: u128| #[trigger] same_component(first, a, b) == same_component(second, a, b) by {
            assert(reaches(first, a, b) == reaches(second, a, b));
            assert(reaches(first, b, a) == reaches(second, b, a));
        }
        if leads_component(first, a) {
            assert forall|b: u128| #[trigger] same_component(second, a, b) implies a <= b by {
                assert(same_component(first, a, b));
            }
        }
        if leads_component(second, a) {
            assert forall|b: u128| #[trigger] same_component(first, a, b) implies a <= b by {
                assert(same_component(second, a, b));
            }
        }
    }
    assert(cycle_leaders(first) =~= cycle_leaders(second));
    assert(cycle_conflict_of(first) =~= cycle_conflict_of(second));
    lemma_permuted_filter_map(v1, v2, cycle_leaders(first), cycle_conflict_of(first));
}

// ---------------------------------------------------------------------------------------
// Duplicate-trigger conflicts, one per shared trigger.
// ---------------------------------------------------------------------------------------
/// The distinct triggers of enabled mappings among the first `n`, in order of first use.
pub open spec fn trigger_keys(ms: Seq<MappingView>, n: int) -> Seq<ChordView>
    decreases n,
{
    if n <= 0 {
        Seq::empty()
    } else {
        let earlier = trigger_keys(ms, n - 1);
        if first_with_trigger(ms, n - 1) {
            earlier.push(ms[n - 1].trigger)
        } else {
            earlier
        }
    }
}

/// Several enabled mappings use trigger `t`.
pub open spec fn shared_trigger(ms: Seq<MappingView>) -> spec_fn(ChordView) -> bool {
    |t: ChordView| trigger_ids(ms, t, ms.len() as int).len() > 1
}

/// The conflict reported for trigger `t`.
pub open spec fn duplicate_conflict_of(ms: Seq<MappingView>) -> spec_fn(ChordView) -> ConflictView {
    |t: ChordView|
        ConflictView {
            code: ConflictCode::DuplicateEnabledTrigger,
            severity: ConflictSeverity::Error,
            mapping_ids: sorted_ids(trigger_ids(ms, t, ms.len() as int)),
        }
}

pub open spec fn uses_trigger(t: ChordView) -> spec_fn(MappingView) -> bool {
    |m: MappingView| m.enabled && m.trigger == t
}

pub open spec fn mapping_id() -> spec_fn(MappingView) -> u128 {
    |m: MappingView| m.id
}

proof fn lemma_trigger_keys(ms: Seq<MappingView>, n: int)
    requires
        0 <= n <= ms.len(),
    ensures
        trigger_keys(ms, n).no_duplicates(),
        forall|t: ChordView|
            trigger_keys(ms, n).contains(t) <==> exists|i: int|
                0 <= i < n && is_active(ms, i) && ms[i].trigger == t,
    decreases n,
{
    if n > 0 {
        lemma_trigger_keys(ms, n - 1);
        let earlier = trigger_keys(ms, n - 1);
        let now = trigger_keys(ms, n);
        assert forall|t: ChordView|
            now.contains(t) <==> exists|i: int| 0 <= i < n && is_active(ms, i) && ms[i].trigger == t by {
            if first_with_trigger(ms, n - 1) {
                assert(now == earlier.push(ms[n - 1].trigger));
                if now.contains(t) {
                    let k = choose|k: int| 0 <= k < now.len() && now[k] == t;
                    if k < earlier.len() {
                        assert(earlier.contains(t));
                    } else {
                        assert(is_active(ms, n - 1) && ms[n - 1].trigger == t);
                    }
                }
                if exists|i: int| 0 <= i < n && is_active(ms, i) && ms[i].trigger == t {
                    let i = choose|i: int| 0 <= i < n && is_active(ms, i) && ms[i].trigger == t;
                    if i < n - 1 {
                        assert(earlier.contains(t));
                        let k = choose|k: int| 0 <= k < earlier.len() && earlier[k] == t;
                        assert(now[k] == t);
                    } else {
                        assert(now[earlier.len() as int] == t);
                    }
                }
            } else {
                if exists|i: int| 0 <= i < n && is_active(ms, i) && ms[i].trigger == t {
                    let i = choose|i: int| 0 <= i < n && is_active(ms, i) && ms[i].trigger == t;
                    if i == n - 1 {
                        let j = choose|j: int|
                            0 <= j < n - 1 && is_active(ms, j) && ms[j].trigger == ms[n - 1].trigger;
                        assert(0 <= j < n - 1 && is_active(ms, j) && ms[j].trigger == t);
                    }
                }
            }
        }
        if first_with_trigger(ms, n - 1) {
            assert(!earlier.contains(ms[n - 1].trigger));
        }
    }
}

proof fn lemma_trigger_ids_filter(ms: Seq<MappingView>, t: ChordView, n: int)
    requires
        0 <= n <= ms.len(),
    ensures
        trigger_ids(ms, t, n) == ms.take(n).filter(uses_trigger(t)).map_values(mapping_id()),
    decreases n,
{
    broadcast use Seq::lemma_filter_push;

    if n == 0 {
        assert(ms.take(0) =~= Seq::<MappingView>::empty());
        assert(ms.take(0).filter(uses_trigger(t)) =~= Seq::<MappingView>::empty()) by {
            reveal(Seq::filter);
        }
        assert(trigger_ids(ms, t, n) =~= ms.take(n).filter(uses_trigger(t)).map_values(
            mapping_id(),
        ));
    } else {
        lemma_trigger_ids_filter(ms, t, n - 1);
        assert(ms.take(n) =~= ms.take(n - 1).push(ms[n - 1]));
        let before = ms.take(n - 1).filter(uses_trigger(t));
        if uses_trigger(t)(ms[n - 1]) {
            assert(before.push(ms[n - 1]).map_values(mapping_id()) =~= before.map_values(
                mapping_id(),
            ).push(ms[n - 1].id));
        }
    }
}

proof fn lemma_duplicate_conflicts_by_trigger(ms: Seq<MappingView>, n: int)
    requires
        0 <= n <= ms.len(),
    ensures
        duplicate_conflicts(ms, n) == trigger_keys(ms, n).filter(shared_trigger(ms)).map_values(
            duplicate_conflict_of(ms),
        ),
    decreases n,
{
    broadcast use Seq::lemma_filter_push;

    if n == 0 {
        assert(trigger_keys(ms, 0).filter(shared_trigger(ms)) =~= Seq::<ChordView>::empty()) by {
            reveal(Seq::filter);
        }
        assert(duplicate_conflicts(ms, n) =~= trigger_keys(ms, n).filter(
            shared_trigger(ms),
        ).map_values(duplicate_conflict_of(ms)));
    } else {
        lemma_duplicate_conflicts_by_trigger(ms, n - 1);
        let before = trigger_keys(ms, n - 1).filter(shared_trigger(ms));
        let t = ms[n - 1].trigger;
        if first_with_trigger(ms, n - 1) && shared_trigger(ms)(t) {
            assert(before.push(t).map_values(duplicate_conflict_of(ms)) =~= before.map_values(
                duplicate_conflict_of(ms),
            ).push(duplicate_conflict_of(ms)(t)));
        }
    }
}

/// The mappings using trigger `t` in two lists with the same enabled mappings are the same.
proof fn lemma_trigger_users_shared(first: Seq<MappingView>, second: Seq<MappingView>, t: ChordView)
    requires
        same_enabled(first, second),
    ensures
        first.filter(uses_trigger(t)).to_multiset() == second.filter(uses_trigger(t)).to_multiset(),
{
    lemma_filter_multiset(first, uses_trigger(t));
    lemma_filter_multiset(second, uses_trigger(t));
    assert forall|m: MappingView| #[trigger] first.to_multiset().filter(uses_trigger(t)).count(m)
        == second.to_multiset().filter(uses_trigger(t)).count(m) by {
        assert(first.to_multiset().filter(enabled_mapping()).count(m) == second.to_multiset().filter(
            enabled_mapping(),
        ).count(m));
    }
    assert(first.to_multiset().filter(uses_trigger(t)) =~= second.to_multiset().filter(
        uses_trigger(t),
    ));
}

/// The duplicate-trigger conflicts of two lists with the same enabled mappings are
/// orderings of each other.
proof fn lemma_duplicate_conflicts_shared(first: Seq<MappingView>, second: Seq<MappingView>)
    requires
        same_enabled(first, second),
    ensures
        duplicate_conflicts(first, first.len() as int).to_multiset() == duplicate_conflicts(
            second,
            second.len() as int,
        ).to_multiset(),
{
    lemma_same_enabled_members(first, second);
    let n1 = first.len() as int;
    let n2 = second.len() as int;
    assert(first.take(n1) =~= first);
    assert(second.take(n2) =~= second);
    assert forall|t: ChordView| #[trigger] trigger_ids(first, t, n1).to_multiset() == trigger_ids(
        second,
        t,
        n2,
    ).to_multiset() by {
        lemma_trigger_ids_filter(first, t, n1);
        lemma_trigger_ids_filter(second, t, n2);
        lemma_trigger_users_shared(first, second, t);
        lemma_permuted_map(first.filter(uses_trigger(t)), second.filter(uses_trigger(t)), mapping_id());
    }
    assert forall|t: ChordView| #[trigger] shared_trigger(first)(t) == shared_trigger(second)(t) by {
        assert(trigger_ids(first, t, n1).to_multiset() == trigger_ids(second, t, n2).to_multiset());
        trigger_ids(first, t, n1).to_multiset_ensures();
        trigger_ids(second, t, n2).to_multiset_ensures();
    }
    assert forall|t: ChordView| #[trigger] duplicate_conflict_of(first)(t)
        == duplicate_conflict_of(second)(t) by {
        assert(trigger_ids(first, t, n1).to_multiset() == trigger_ids(second, t, n2).to_multiset());
        lemma_sorted_ids_permutation(trigger_ids(first, t, n1), trigger_ids(second, t, n2));
    }
    assert(shared_trigger(first) =~= shared_trigger(second));
    assert(duplicate_conflict_of(first) =~= duplicate_conflict_of(second));
    lemma_trigger_keys(first, n1);
    lemma_trigger_keys(second, n2);
    let k1 = trigger_keys(first, n1);
    let k2 = trigger_keys(second, n2);
    assert forall|t: ChordView| k1.contains(t) <==> k2.contains(t) by {
        if k1.contains(t) {
            let i = choose|i: int| 0 <= i < n1 && is_active(first, i) && first[i].trigger == t;
            let j = lemma_matching_index(first, second, i);
            assert(0 <= j < n2 && is_active(second, j) && second[j].trigger == t);
        }
        if k2.contains(t) {
            let j = choose|j: int| 0 <= j < n2 && is_active(second, j) && second[j].trigger == t;
            let i = lemma_matching_index(second, first, j);
            assert(0 <= i < n1 && is_active(first, i) && first[i].trigger == t);
        }
    }
    lemma_same_elements_permuted(k1, k2);
    lemma_duplicate_conflicts_by_trigger(first, n1);
    lemma_duplicate_conflicts_by_trigger(second, n2);
    lemma_permuted_filter_map(k1, k2, shared_trigger(first), duplicate_conflict_of(first));
}

/// Two lists with the same enabled mappings get the same conflict report.
proof fn lemma_analysis_shared(first: Seq<MappingView>, second: Seq<MappingView>)
    requires
        same_enabled(first, second),
    ensures
        analysis(first) == analysis(second),
{
    lemma_duplicate_conflicts_shared(first, second);
    lemma_cycle_conflicts_shared(first, second);
    let all1 = duplicate_conflicts(first, first.len() as int) + cycle_conflicts(first);
    let all2 = duplicate_conflicts(second, second.len() as int) + cycle_conflicts(second);
    lemma_multiset_commutative(duplicate_conflicts(first, first.len() as int), cycle_conflicts(first));
    lemma_multiset_commutative(
        duplicate_conflicts(second, second.len() as int),
        cycle_conflicts(second),
    );
    assert(all1.to_multiset() == all2.to_multiset());
    lemma_conflict_order_total();
    all1.lemma_sort_by_ensures(conflict_order());
    all2.lemma_sort_by_ensures(conflict_order());
    lemma_sorted_unique(all1.sort_by(conflict_order()), all2.sort_by(conflict_order()), conflict_order());
}

/// The conflict report does not depend on the order in which the mappings are listed: two
/// lists holding the same mappings, in any order, get the same report.
pub proof fn lemma_analysis_order_independent(first: Seq<MappingView>, second: Seq<MappingView>)
    requires
        first.to_multiset() == second.to_multiset(),
    ensures
        analysis(first) == analysis(second),
{
    lemma_permuted_same_enabled(first, second);
    lemma_analysis_shared(first, second);
}

/// Disabled mappings take no part in the conflict report: the report of a list is that of
/// its enabled mappings alone. A mapping whose action is `Disable` emits nothing, so it is
/// the source of no edge of the emit graph.
pub proof fn lemma_analysis_ignores_disabled(ms: Seq<MappingView>)
    ensures
        analysis(ms) == analysis(ms.filter(enabled_mapping())),
        forall|i: int, j: int| #[trigger] emits_to(ms, i, j) ==> ms[i].action !is Disable,
{
    let en = ms.filter(enabled_mapping());
    lemma_filter_multiset(ms, enabled_mapping());
    assert(en.to_multiset().filter(enabled_mapping()) =~= ms.to_multiset().filter(
        enabled_mapping(),
    ));
    lemma_analysis_shared(ms, en);
}

/// Every compiled entry comes from an enabled mapping with that trigger.
proof fn lemma_entry_has_source(ms: Seq<MappingView>, chord: ChordView)
    requires
        exists|k: int|
            0 <= k < compiled_entries(ms).len() && #[trigger] compiled_entries(ms)[k].0 == chord,
    ensures
        exists|i: int| is_active(ms, i) && ms[i].trigger == chord,
{
    broadcast use vstd::seq_lib::group_filter_ensures;

    let entries = compiled_entries(ms);
    let fl = ms.filter(enabled_mapping());
    let k = choose|k: int| 0 <= k < entries.len() && #[trigger] entries[k].0 == chord;
    assert(entries[k] == entry_pair()(fl[k]));
    assert(fl.contains(fl[k]));
    ms.lemma_filter_contains_rev(enabled_mapping(), fl[k]);
    let j = choose|j: int| 0 <= j < ms.len() && ms[j] == fl[k];
    assert(is_active(ms, j) && ms[j].trigger == chord);
}

/// The compiled keymap does not depend on the order in which the mappings are listed: two
/// lists holding the same mappings are refused with the same blocking conflicts, or both
/// compile to keymaps that answer every chord alike.
pub proof fn lemma_compile_order_independent(
    first: Seq<MappingView>,
    second: Seq<MappingView>,
    chord: ChordView,
)
    requires
        first.to_multiset() == second.to_multiset(),
    ensures
        blocking_conflicts(first) == blocking_conflicts(second),
        blocking_conflicts(first).len() == 0 ==> keymap_lookup(compiled_entries(first), chord)
            == keymap_lookup(compiled_entries(second), chord),
{
    lemma_analysis_order_independent(first, second);
    if blocking_conflicts(first).len() == 0 {
        lemma_permuted_same_enabled(first, second);
        lemma_same_enabled_members(first, second);
        let e1 = compiled_entries(first);
        let e2 = compiled_entries(second);
        if exists|k: int| 0 <= k < e1.len() && #[trigger] e1[k].0 == chord {
            lemma_entry_has_source(first, chord);
            let i = choose|i: int| is_active(first, i) && first[i].trigger == chord;
            let j = lemma_matching_index(first, second, i);
            lemma_compiled_lookup_finds_enabled(first, i);
            lemma_compiled_lookup_finds_enabled(second, j);
        } else if exists|k: int| 0 <= k < e2.len() && #[trigger] e2[k].0 == chord {
            lemma_entry_has_source(second, chord);
            let j = choose|j: int| is_active(second, j) && second[j].trigger == chord;
            let i = lemma_matching_index(second, first, j);
            lemma_compiled_lookup_finds_enabled(first, i);
        }
    }
}

} // verus!
