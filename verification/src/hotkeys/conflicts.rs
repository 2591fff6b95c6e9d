//! Conflict analysis over a list of mappings: duplicate enabled triggers, and cycles among
//! `EmitShortcut` actions (a mapping whose emitted chord triggers an enabled mapping).

use vstd::prelude::*;
use vstd::multiset::Multiset;
use vstd::relations::*;
use vstd::seq_lib::*;

use crate::hotkeys::domain::{Action, ActionView, Chord, ChordView, Mapping, MappingView, mapping_views};
use crate::hotkeys::graph;
use crate::ordering::{sort_ids, sorted_ids};

verus! {

broadcast use {vstd::seq_lib::group_to_multiset_ensures, vstd::multiset::group_multiset_axioms};

#[derive(Clone, Copy, Debug, PartialEq, Eq, Structural, PartialOrd, Ord, Hash)]
pub enum ConflictSeverity {
    Warning,
    Error,
}

#[derive(Clone, Copy, Debug, PartialEq, Eq, Structural, PartialOrd, Ord, Hash)]
pub enum ConflictCode {
    DirectSelfMap,
    DuplicateEnabledTrigger,
    EmitShortcutCycle,
}

/// The abstract value of a conflict.
pub struct ConflictView {
    pub code: ConflictCode,
    pub severity: ConflictSeverity,
    pub mapping_ids: Seq<u128>,
}

#[derive(Clone, Debug, PartialEq, Eq)]
pub struct Conflict {
    pub code: ConflictCode,
    pub severity: ConflictSeverity,
    pub mapping_ids: Vec<u128>,
}

impl View for Conflict {
    type V = ConflictView;

    open spec fn view(&self) -> ConflictView {
        ConflictView { code: self.code, severity: self.severity, mapping_ids: self.mapping_ids@ }
    }
}

pub open spec fn conflict_views(conflicts: Seq<Conflict>) -> Seq<ConflictView> {
    conflicts.map_values(|conflict: Conflict| conflict@)
}

// ---------------------------------------------------------------------------------------
// What the analysis reports.
// ---------------------------------------------------------------------------------------
/// Mapping `i` exists and is enabled.
pub open spec fn is_active(ms: Seq<MappingView>, i: int) -> bool {
    0 <= i < ms.len() && ms[i].enabled
}

/// Mapping `i` is the first enabled mapping with its trigger.
pub open spec fn first_with_trigger(ms: Seq<MappingView>, i: int) -> bool {
    is_active(ms, i) && forall|j: int|
        0 <= j < i && is_active(ms, j) ==> ms[j].trigger != ms[i].trigger
}

/// Identifiers of the enabled mappings among the first `n` whose trigger is `trigger`.
pub open spec fn trigger_ids(ms: Seq<MappingView>, trigger: ChordView, n: int) -> Seq<u128>
    decreases n,
{
    if n <= 0 {
        Seq::empty()
    } else {
        let earlier = trigger_ids(ms, trigger, n - 1);
        if is_active(ms, n - 1) && ms[n - 1].trigger == trigger {
            earlier.push(ms[n - 1].id)
        } else {
            earlier
        }
    }
}

/// One `DuplicateEnabledTrigger` conflict for each trigger shared by several enabled
/// mappings among the first `n`, in order of the trigger's first enabled use.
pub open spec fn duplicate_conflicts(ms: Seq<MappingView>, n: int) -> Seq<ConflictView>
    decreases n,
{
    if n <= 0 {
        Seq::empty()
    } else {
        let earlier = duplicate_conflicts(ms, n - 1);
        let ids = trigger_ids(ms, ms[n - 1].trigger, ms.len() as int);
        if first_with_trigger(ms, n - 1) && ids.len() > 1 {
            earlier.push(
                ConflictView {
                    code: ConflictCode::DuplicateEnabledTrigger,
                    severity: ConflictSeverity::Error,
                    mapping_ids: sorted_ids(ids),
                },
            )
        } else {
            earlier
        }
    }
}

/// `a` identifies an enabled mapping: a vertex of the emit graph.
pub open spec fn is_vertex(ms: Seq<MappingView>, a: u128) -> bool {
    exists|i: int| is_active(ms, i) && ms[i].id == a
}

/// Enabled mapping `i` emits the trigger of enabled mapping `j`.
pub open spec fn emits_to(ms: Seq<MappingView>, i: int, j: int) -> bool {
    is_active(ms, i) && is_active(ms, j) && ms[i].action == ActionView::EmitShortcut(ms[j].trigger)
}

/// An edge of the emit graph: some mapping identified by `a` emits the trigger of some
/// mapping identified by `b`.
pub open spec fn has_edge(ms: Seq<MappingView>, a: u128, b: u128) -> bool {
    exists|i: int, j: int| #[trigger] emits_to(ms, i, j) && ms[i].id == a && ms[j].id == b
}

pub open spec fn is_path(ms: Seq<MappingView>, p: Seq<u128>) -> bool {
    &&& p.len() > 0
    &&& is_vertex(ms, p[0])
    &&& forall|k: int| 0 <= k < p.len() - 1 ==> #[trigger] has_edge(ms, p[k], p[k + 1])
}

pub open spec fn reaches(ms: Seq<MappingView>, a: u128, b: u128) -> bool {
    exists|p: Seq<u128>| is_path(ms, p) && p[0] == a && p.last() == b
}

/// `a` and `b` lie in one strongly connected component of the emit graph.
pub open spec fn same_component(ms: Seq<MappingView>, a: u128, b: u128) -> bool {
    reaches(ms, a, b) && reaches(ms, b, a)
}

/// Mapping `i` is the first enabled mapping with its identifier.
pub open spec fn first_with_id(ms: Seq<MappingView>, i: int) -> bool {
    is_active(ms, i) && forall|j: int| 0 <= j < i && is_active(ms, j) ==> ms[j].id != ms[i].id
}

/// The distinct identifiers of enabled mappings among the first `n`, in order of first use.
pub open spec fn vertex_ids(ms: Seq<MappingView>, n: int) -> Seq<u128>
    decreases n,
{
    if n <= 0 {
        Seq::empty()
    } else {
        let earlier = vertex_ids(ms, n - 1);
        if first_with_id(ms, n - 1) {
            earlier.push(ms[n - 1].id)
        } else {
            earlier
        }
    }
}

pub open spec fn all_vertices(ms: Seq<MappingView>) -> Seq<u128> {
    vertex_ids(ms, ms.len() as int)
}

/// The identifiers in the component of `a`, in order of first use.
pub open spec fn in_component(ms: Seq<MappingView>, a: u128) -> spec_fn(u128) -> bool {
    |b: u128| same_component(ms, a, b)
}

pub open spec fn component_ids(ms: Seq<MappingView>, a: u128) -> Seq<u128> {
    all_vertices(ms).filter(in_component(ms, a))
}

/// `a` is the least identifier of its component.
pub open spec fn leads_component(ms: Seq<MappingView>, a: u128) -> bool {
    forall|b: u128| #[trigger] same_component(ms, a, b) ==> a <= b
}

/// The component of `a` is a cycle: several members, or one with an edge to itself.
pub open spec fn is_cyclic(ms: Seq<MappingView>, a: u128) -> bool {
    component_ids(ms, a).len() > 1 || has_edge(ms, a, a)
}

pub open spec fn cycle_conflict(ms: Seq<MappingView>, a: u128) -> ConflictView {
    ConflictView {
        code: if component_ids(ms, a).len() == 1 {
            ConflictCode::DirectSelfMap
        } else {
            ConflictCode::EmitShortcutCycle
        },
        severity: ConflictSeverity::Error,
        mapping_ids: sorted_ids(component_ids(ms, a)),
    }
}

pub open spec fn is_cycle_leader(ms: Seq<MappingView>, a: u128) -> bool {
    leads_component(ms, a) && is_cyclic(ms, a)
}

pub open spec fn cycle_leaders(ms: Seq<MappingView>) -> spec_fn(u128) -> bool {
    |a: u128| is_cycle_leader(ms, a)
}

pub open spec fn cycle_conflict_of(ms: Seq<MappingView>) -> spec_fn(u128) -> ConflictView {
    |a: u128| cycle_conflict(ms, a)
}

/// One conflict per cyclic component, in order of its least identifier's first use.
pub open spec fn cycle_conflicts(ms: Seq<MappingView>) -> Seq<ConflictView> {
    all_vertices(ms).filter(cycle_leaders(ms)).map_values(cycle_conflict_of(ms))
}

// ---------------------------------------------------------------------------------------
// The order of the report.
// ---------------------------------------------------------------------------------------
pub open spec fn code_rank(code: ConflictCode) -> int {
    match code {
        ConflictCode::DirectSelfMap => 0,
        ConflictCode::DuplicateEnabledTrigger => 1,
        ConflictCode::EmitShortcutCycle => 2,
    }
}

pub open spec fn severity_rank(severity: ConflictSeverity) -> int {
    match severity {
        ConflictSeverity::Warning => 0,
        ConflictSeverity::Error => 1,
    }
}

/// Lexicographic order on identifier lists (a proper prefix comes first).
pub open spec fn ids_le(a: Seq<u128>, b: Seq<u128>) -> bool
    decreases a.len(),
{
    if a.len() == 0 {
        true
    } else if b.len() == 0 {
        false
    } else if a[0] != b[0] {
        a[0] < b[0]
    } else {
        ids_le(a.drop_first(), b.drop_first())
    }
}

/// Conflicts are ordered by code, then by identifier list, then by severity.
pub open spec fn conflict_le(x: ConflictView, y: ConflictView) -> bool {
    if x.code != y.code {
        code_rank(x.code) < code_rank(y.code)
    } else if x.mapping_ids != y.mapping_ids {
        ids_le(x.mapping_ids, y.mapping_ids)
    } else {
        severity_rank(x.severity) <= severity_rank(y.severity)
    }
}

pub open spec fn conflict_order() -> spec_fn(ConflictView, ConflictView) -> bool {
    |x: ConflictView, y: ConflictView| conflict_le(x, y)
}

/// The report of `analyze`: duplicate-trigger and cycle conflicts, in conflict order.
pub open spec fn analysis(ms: Seq<MappingView>) -> Seq<ConflictView> {
    (duplicate_conflicts(ms, ms.len() as int) + cycle_conflicts(ms)).sort_by(conflict_order())
}

// ---------------------------------------------------------------------------------------
// Properties of the order.
// ---------------------------------------------------------------------------------------
proof fn lemma_ids_le_reflexive(a: Seq<u128>)
    ensures
        ids_le(a, a),
    decreases a.len(),
{
    if a.len() > 0 {
        lemma_ids_le_reflexive(a.drop_first());
    }
}

proof fn lemma_ids_le_antisymmetric(a: Seq<u128>, b: Seq<u128>)
    requires
        ids_le(a, b),
        ids_le(b, a),
    ensures
        a == b,
    decreases a.len(),
{
    if a.len() > 0 && b.len() > 0 {
        lemma_ids_le_antisymmetric(a.drop_first(), b.drop_first());
        assert(a == seq![a[0]] + a.drop_first());
        assert(b == seq![b[0]] + b.drop_first());
    }
}

proof fn lemma_ids_le_transitive(a: Seq<u128>, b: Seq<u128>, c: Seq<u128>)
    requires
        ids_le(a, b),
        ids_le(b, c),
    ensures
        ids_le(a, c),
    decreases a.len(),
{
    if a.len() > 0 && b.len() > 0 && c.len() > 0 && a[0] == b[0] && b[0] == c[0] {
        lemma_ids_le_transitive(a.drop_first(), b.drop_first(), c.drop_first());
    }
}

proof fn lemma_ids_le_total(a: Seq<u128>, b: Seq<u128>)
    ensures
        ids_le(a, b) || ids_le(b, a),
    decreases a.len(),
{
    if a.len() > 0 && b.len() > 0 && a[0] == b[0] {
        lemma_ids_le_total(a.drop_first(), b.drop_first());
    }
}

pub proof fn lemma_conflict_order_total()
    ensures
        total_ordering(conflict_order()),
{
    assert forall|x: ConflictView| #[trigger] conflict_order()(x, x) by {
        lemma_ids_le_reflexive(x.mapping_ids);
    }
    assert forall|x: ConflictView, y: ConflictView|
        #[trigger] conflict_order()(x, y) && #[trigger] conflict_order()(y, x) implies x == y by {
        if x.code == y.code && x.mapping_ids != y.mapping_ids {
            lemma_ids_le_antisymmetric(x.mapping_ids, y.mapping_ids);
        }
    }
    assert forall|x: ConflictView, y: ConflictView, z: ConflictView|
        #[trigger] conflict_order()(x, y) && #[trigger] conflict_order()(y, z) implies conflict_order()(
        x,
        z,
    ) by {
        if x.code == y.code && y.code == z.code {
            if x.mapping_ids != y.mapping_ids && y.mapping_ids != z.mapping_ids {
                lemma_ids_le_transitive(x.mapping_ids, y.mapping_ids, z.mapping_ids);
                if x.mapping_ids == z.mapping_ids {
                    lemma_ids_le_antisymmetric(x.mapping_ids, y.mapping_ids);
                }
            }
        }
    }
    assert forall|x: ConflictView, y: ConflictView|
        #[trigger] conflict_order()(x, y) || #[trigger] conflict_order()(y, x) by {
        lemma_ids_le_total(x.mapping_ids, y.mapping_ids);
    }
}

proof fn lemma_ids_le_skip(a: Seq<u128>, b: Seq<u128>, i: int)
    requires
        0 <= i <= a.len(),
        i <= b.len(),
        forall|k: int| 0 <= k < i ==> a[k] == b[k],
    ensures
        ids_le(a, b) == ids_le(a.skip(i), b.skip(i)),
    decreases i,
{
    if i == 0 {
        assert(a.skip(0) == a);
        assert(b.skip(0) == b);
    } else {
        lemma_ids_le_skip(a.drop_first(), b.drop_first(), i - 1);
        assert(a.drop_first().skip(i - 1) == a.skip(i));
        assert(b.drop_first().skip(i - 1) == b.skip(i));
    }
}

/// Compares identifier lists lexicographically.
fn ids_less_or_equal(a: &Vec<u128>, b: &Vec<u128>) -> (le: bool)
    ensures
        le == ids_le(a@, b@),
{
    let mut i: usize = 0;
    while i < a.len() && i < b.len() && a[i] == b[i]
        invariant
            0 <= i <= a@.len(),
            i <= b@.len(),
            forall|k: int| 0 <= k < i ==> a@[k] == b@[k],
        decreases a@.len() - i,
    {
        i += 1;
    }
    proof {
        lemma_ids_le_skip(a@, b@, i as int);
    }
    if i == a.len() {
        true
    } else if i == b.len() {
        false
    } else {
        a[i] < b[i]
    }
}

fn same_ids(a: &Vec<u128>, b: &Vec<u128>) -> (same: bool)
    ensures
        same == (a@ == b@),
{
    if a.len() != b.len() {
        return false;
    }
    let mut i: usize = 0;
    while i < a.len()
        invariant
            a@.len() == b@.len(),
            0 <= i <= a@.len(),
            forall|k: int| 0 <= k < i ==> a@[k] == b@[k],
        decreases a@.len() - i,
    {
        if a[i] != b[i] {
            return false;
        }
        i += 1;
    }
    proof {
        assert(a@ == b@);
    }
    true
}

fn code_order(code: ConflictCode) -> (rank: u8)
    ensures
        rank == code_rank(code),
{
    match code {
        ConflictCode::DirectSelfMap => 0,
        ConflictCode::DuplicateEnabledTrigger => 1,
        ConflictCode::EmitShortcutCycle => 2,
    }
}

fn severity_order(severity: ConflictSeverity) -> (rank: u8)
    ensures
        rank == severity_rank(severity),
{
    match severity {
        ConflictSeverity::Warning => 0,
        ConflictSeverity::Error => 1,
    }
}

fn conflict_less_or_equal(x: &Conflict, y: &Conflict) -> (le: bool)
    ensures
        le == conflict_le(x@, y@),
{
    if x.code != y.code {
        code_order(x.code) < code_order(y.code)
    } else if !same_ids(&x.mapping_ids, &y.mapping_ids) {
        ids_less_or_equal(&x.mapping_ids, &y.mapping_ids)
    } else {
        severity_order(x.severity) <= severity_order(y.severity)
    }
}

/// Sorts conflicts into conflict order.
fn sort_conflicts(conflicts: Vec<Conflict>) -> (sorted: Vec<Conflict>)
    ensures
        conflict_views(sorted@) == conflict_views(conflicts@).sort_by(conflict_order()),
{
    let ghost input = conflict_views(conflicts@);
    let mut sorted: Vec<Conflict> = Vec::new();
    let mut rest = conflicts;
    while rest.len() > 0
        invariant
            sorted_by(conflict_views(sorted@), conflict_order()),
            conflict_views(sorted@).to_multiset().add(conflict_views(rest@).to_multiset())
                == input.to_multiset(),
        decreases rest@.len(),
    {
        let ghost rest_before = rest@;
        let x = rest.pop().unwrap();
        proof {
            assert(rest_before == rest@.push(x));
            assert(conflict_views(rest_before) == conflict_views(rest@).push(x@));
        }
        let mut k: usize = 0;
        while k < sorted.len() && conflict_less_or_equal(&sorted[k], &x)
            invariant
                0 <= k <= sorted@.len(),
                forall|j: int| 0 <= j < k ==> conflict_le(sorted@[j]@, x@),
            decreases sorted@.len() - k,
        {
            k += 1;
        }
        let ghost before = conflict_views(sorted@);
        sorted.insert(k, x);
        proof {
            lemma_conflict_order_total();
            let after = conflict_views(sorted@);
            assert(after == before.insert(k as int, x@));
            assert forall|a: int, b: int| 0 <= a < b < after.len() implies #[trigger] conflict_order()(
                after[a],
                after[b],
            ) by {
                if b < k {
                    assert(conflict_order()(before[a], before[b]));
                } else if a < k && b == k {
                    assert(conflict_le(sorted@[a]@, x@));
                } else if a < k && b > k {
                    assert(conflict_order()(before[a], before[b - 1]));
                } else if a == k {
                    assert(!conflict_le(before[k as int], x@));
                    assert(conflict_order()(before[k as int], x@) || conflict_order()(x@, before[k as int]));
                    assert(conflict_order()(x@, before[k as int]));
                    if b - 1 > k {
                        assert(conflict_order()(before[k as int], before[b - 1]));
                    }
                } else {
                    assert(conflict_order()(before[a - 1], before[b - 1]));
                }
            }
        }
    }
    proof {
        assert(conflict_views(rest@) == Seq::<ConflictView>::empty());
        assert(conflict_views(rest@).to_multiset() =~= Multiset::<ConflictView>::empty());
        assert(conflict_views(sorted@).to_multiset() =~= input.to_multiset());
        lemma_conflict_order_total();
        input.lemma_sort_by_ensures(conflict_order());
        lemma_sorted_unique(conflict_views(sorted@), input.sort_by(conflict_order()), conflict_order());
    }
    sorted
}

// ---------------------------------------------------------------------------------------
// Computing the report.
// ---------------------------------------------------------------------------------------
/// `c` is the index of the first enabled mapping whose trigger is that of mapping `i`.
pub open spec fn is_trigger_class(ms: Seq<MappingView>, i: int, c: int) -> bool {
    &&& is_active(ms, c)
    &&& c <= i
    &&& ms[c].trigger == ms[i].trigger
    &&& forall|j: int| 0 <= j < c && is_active(ms, j) ==> ms[j].trigger != ms[i].trigger
}

pub open spec fn classes_valid(ms: Seq<MappingView>, class: Seq<usize>) -> bool {
    &&& class.len() == ms.len()
    &&& forall|i: int| #[trigger] is_active(ms, i) ==> is_trigger_class(ms, i, class[i] as int)
}

/// Two enabled mappings share a trigger exactly when they share a class.
proof fn lemma_class_matches_trigger(ms: Seq<MappingView>, class: Seq<usize>, i: int, j: int)
    requires
        classes_valid(ms, class),
        is_active(ms, i),
        is_active(ms, j),
    ensures
        (class[i] == class[j]) == (ms[i].trigger == ms[j].trigger),
{
    assert(is_trigger_class(ms, i, class[i] as int));
    assert(is_trigger_class(ms, j, class[j] as int));
    if ms[i].trigger == ms[j].trigger {
        let ci = class[i] as int;
        let cj = class[j] as int;
        if ci < cj {
            assert(is_active(ms, ci));
        } else if cj < ci {
            assert(is_active(ms, cj));
        }
    }
}

/// A mapping is first with its trigger exactly when it is its own class.
proof fn lemma_first_with_trigger_class(ms: Seq<MappingView>, class: Seq<usize>, i: int)
    requires
        classes_valid(ms, class),
        0 <= i < ms.len(),
    ensures
        first_with_trigger(ms, i) == (is_active(ms, i) && class[i] == i),
{
    if is_active(ms, i) {
        assert(is_trigger_class(ms, i, class[i] as int));
        if first_with_trigger(ms, i) && class[i] < i {
            assert(is_active(ms, class[i] as int));
        }
    }
}

fn trigger_classes(mappings: &[Mapping]) -> (class: Vec<usize>)
    ensures
        classes_valid(mapping_views(mappings@), class@),
{
    let ghost ms = mapping_views(mappings@);
    let n = mappings.len();
    let mut class: Vec<usize> = Vec::new();
    let mut i: usize = 0;
    while i < n
        invariant
            ms == mapping_views(mappings@),
            n == ms.len(),
            0 <= i <= n,
            class@.len() == i,
            forall|k: int| 0 <= k < i && #[trigger] is_active(ms, k) ==> is_trigger_class(
                ms,
                k,
                class@[k] as int,
            ),
        decreases n - i,
    {
        if mappings[i].enabled {
            let trigger = mappings[i].trigger.chord();
            let mut c: usize = 0;
            while c < i && !(mappings[c].enabled && mappings[c].trigger.chord().same_as(trigger))
                invariant
                    ms == mapping_views(mappings@),
                    n == ms.len(),
                    i < n,
                    0 <= c <= i,
                    trigger@ == ms[i as int].trigger,
                    forall|j: int| 0 <= j < c && is_active(ms, j) ==> ms[j].trigger != ms[i as int].trigger,
                decreases i - c,
            {
                c += 1;
            }
            class.push(c);
        } else {
            class.push(i);
        }
        i += 1;
    }
    class
}

/// Identifiers of the enabled mappings whose trigger is that of mapping `first`.
fn trigger_group(mappings: &[Mapping], class: &Vec<usize>, first: usize) -> (ids: Vec<u128>)
    requires
        classes_valid(mapping_views(mappings@), class@),
        first_with_trigger(mapping_views(mappings@), first as int),
    ensures
        ids@ == trigger_ids(
            mapping_views(mappings@),
            mapping_views(mappings@)[first as int].trigger,
            mappings@.len() as int,
        ),
{
    let ghost ms = mapping_views(mappings@);
    let ghost trigger = ms[first as int].trigger;
    let n = mappings.len();
    let mut ids: Vec<u128> = Vec::new();
    let mut j: usize = 0;
    proof {
        lemma_first_with_trigger_class(ms, class@, first as int);
    }
    while j < n
        invariant
            ms == mapping_views(mappings@),
            n == ms.len(),
            classes_valid(ms, class@),
            is_active(ms, first as int),
            class@[first as int] == first,
            trigger == ms[first as int].trigger,
            0 <= j <= n,
            ids@ == trigger_ids(ms, trigger, j as int),
        decreases n - j,
    {
        proof {
            if is_active(ms, j as int) {
                lemma_class_matches_trigger(ms, class@, j as int, first as int);
            }
        }
        if mappings[j].enabled && class[j] == first {
            ids.push(mappings[j].id);
        }
        j += 1;
    }
    ids
}

/// The duplicate-trigger conflicts, in order of each trigger's first enabled use.
fn duplicate_trigger_conflicts(mappings: &[Mapping], class: &Vec<usize>) -> (conflicts: Vec<
    Conflict,
>)
    requires
        classes_valid(mapping_views(mappings@), class@),
    ensures
        conflict_views(conflicts@) == duplicate_conflicts(
            mapping_views(mappings@),
            mappings@.len() as int,
        ),
{
    let ghost ms = mapping_views(mappings@);
    let n = mappings.len();
    let mut conflicts: Vec<Conflict> = Vec::new();
    let mut i: usize = 0;
    while i < n
        invariant
            ms == mapping_views(mappings@),
            n == ms.len(),
            classes_valid(ms, class@),
            0 <= i <= n,
            conflict_views(conflicts@) == duplicate_conflicts(ms, i as int),
        decreases n - i,
    {
        proof {
            lemma_first_with_trigger_class(ms, class@, i as int);
        }
        if mappings[i].enabled && class[i] == i {
            let ids = trigger_group(mappings, class, i);
            if ids.len() > 1 {
                let sorted = sort_ids(&ids);
                conflicts.push(
                    Conflict {
                        code: ConflictCode::DuplicateEnabledTrigger,
                        severity: ConflictSeverity::Error,
                        mapping_ids: sorted,
                    },
                );
            }
        }
        proof {
            assert(conflict_views(conflicts@) == duplicate_conflicts(ms, i + 1));
        }
        i += 1;
    }
    conflicts
}

/// The identifiers of enabled mappings among the first `n` are those of `vertex_ids`, once each.
proof fn lemma_vertex_ids(ms: Seq<MappingView>, n: int)
    requires
        0 <= n <= ms.len(),
    ensures
        vertex_ids(ms, n).no_duplicates(),
        forall|a: u128|
            vertex_ids(ms, n).contains(a) <==> exists|i: int|
                0 <= i < n && is_active(ms, i) && ms[i].id == a,
    decreases n,
{
    if n > 0 {
        lemma_vertex_ids(ms, n - 1);
        let earlier = vertex_ids(ms, n - 1);
        assert forall|a: u128|
            vertex_ids(ms, n).contains(a) <==> exists|i: int|
                0 <= i < n && is_active(ms, i) && ms[i].id == a by {
            if first_with_id(ms, n - 1) {
                assert(vertex_ids(ms, n) == earlier.push(ms[n - 1].id));
                if vertex_ids(ms, n).contains(a) {
                    let k = choose|k: int| 0 <= k < vertex_ids(ms, n).len() && vertex_ids(ms, n)[k] == a;
                    if k < earlier.len() {
                        assert(earlier.contains(a));
                    } else {
                        assert(is_active(ms, n - 1) && ms[n - 1].id == a);
                    }
                }
                if exists|i: int| 0 <= i < n && is_active(ms, i) && ms[i].id == a {
                    let i = choose|i: int| 0 <= i < n && is_active(ms, i) && ms[i].id == a;
                    if i < n - 1 {
                        assert(earlier.contains(a));
                        let k = choose|k: int| 0 <= k < earlier.len() && earlier[k] == a;
                        assert(vertex_ids(ms, n)[k] == a);
                    } else {
                        assert(vertex_ids(ms, n)[earlier.len() as int] == a);
                    }
                }
            } else {
                if exists|i: int| 0 <= i < n && is_active(ms, i) && ms[i].id == a {
                    let i = choose|i: int| 0 <= i < n && is_active(ms, i) && ms[i].id == a;
                    if i == n - 1 {
                        let j = choose|j: int| 0 <= j < n - 1 && is_active(ms, j) && ms[j].id == ms[n - 1].id;
                        assert(0 <= j < n - 1 && is_active(ms, j) && ms[j].id == a);
                    }
                }
            }
        }
        if first_with_id(ms, n - 1) {
            assert(!earlier.contains(ms[n - 1].id));
        }
    }
}

/// `a` is a vertex exactly when it is one of `all_vertices`.
pub(crate) proof fn lemma_is_vertex(ms: Seq<MappingView>, a: u128)
    ensures
        is_vertex(ms, a) == all_vertices(ms).contains(a),
        all_vertices(ms).no_duplicates(),
{
    lemma_vertex_ids(ms, ms.len() as int);
}

pub open spec fn slots_valid(ms: Seq<MappingView>, verts: Seq<u128>, slot: Seq<usize>) -> bool {
    &&& verts == all_vertices(ms)
    &&& verts.no_duplicates()
    &&& slot.len() == ms.len()
    &&& forall|i: int|
        #[trigger] is_active(ms, i) ==> slot[i] < verts.len() && verts[slot[i] as int] == ms[i].id
}

/// The distinct identifiers of enabled mappings, and for each enabled mapping the position
/// of its identifier among them.
fn vertex_table(mappings: &[Mapping]) -> (table: (Vec<u128>, Vec<usize>))
    ensures
        slots_valid(mapping_views(mappings@), table.0@, table.1@),
{
    let ghost ms = mapping_views(mappings@);
    let n = mappings.len();
    let mut verts: Vec<u128> = Vec::new();
    let mut slot: Vec<usize> = Vec::new();
    let mut i: usize = 0;
    while i < n
        invariant
            ms == mapping_views(mappings@),
            n == ms.len(),
            0 <= i <= n,
            verts@ == vertex_ids(ms, i as int),
            slot@.len() == i,
            forall|k: int|
                0 <= k < i && #[trigger] is_active(ms, k) ==> slot@[k] < verts@.len()
                    && verts@[slot@[k] as int] == ms[k].id,
        decreases n - i,
    {
        proof {
            lemma_vertex_ids(ms, i as int);
            lemma_vertex_ids(ms, i + 1);
        }
        if mappings[i].enabled {
            let id = mappings[i].id;
            let mut v: usize = 0;
            while v < verts.len() && verts[v] != id
                invariant
                    0 <= v <= verts@.len(),
                    forall|k: int| 0 <= k < v ==> verts@[k] != id,
                decreases verts@.len() - v,
            {
                v += 1;
            }
            if v < verts.len() {
                proof {
                    assert(verts@.contains(id));
                    let j = choose|j: int| 0 <= j < i && is_active(ms, j) && ms[j].id == id;
                    assert(!first_with_id(ms, i as int));
                }
                slot.push(v);
            } else {
                proof {
                    assert(!verts@.contains(id));
                    assert(first_with_id(ms, i as int));
                }
                slot.push(verts.len());
                verts.push(id);
            }
        } else {
            slot.push(0);
        }
        i += 1;
    }
    proof {
        lemma_vertex_ids(ms, n as int);
    }
    (verts, slot)
}

/// Among mappings before `i`, one identified by `a` emits the trigger of one identified by `b`.
pub open spec fn emits_before(ms: Seq<MappingView>, i: int, a: u128, b: u128) -> bool {
    exists|i2: int, j: int|
        0 <= i2 < i && #[trigger] emits_to(ms, i2, j) && ms[i2].id == a && ms[j].id == b
}

/// Some enabled mapping has trigger `trigger` and identifier `b`.
pub open spec fn triggers_with_id(ms: Seq<MappingView>, trigger: ChordView, b: u128) -> bool {
    exists|j: int| #[trigger] is_active(ms, j) && ms[j].trigger == trigger && ms[j].id == b
}

/// The first enabled mapping whose trigger is `chord`, or `mappings.len()` if there is none.
fn first_enabled_with_trigger(mappings: &[Mapping], chord: &Chord) -> (t: usize)
    ensures
        t <= mappings@.len(),
        t < mappings@.len() ==> first_with_trigger(mapping_views(mappings@), t as int)
            && mapping_views(mappings@)[t as int].trigger == chord@,
        t == mappings@.len() ==> forall|k: int|
            #[trigger] is_active(mapping_views(mappings@), k) ==> mapping_views(mappings@)[k].trigger
                != chord@,
{
    let ghost ms = mapping_views(mappings@);
    let n = mappings.len();
    let mut t: usize = 0;
    while t < n && !(mappings[t].enabled && mappings[t].trigger.chord().same_as(chord))
        invariant
            ms == mapping_views(mappings@),
            n == ms.len(),
            0 <= t <= n,
            forall|k: int| 0 <= k < t && is_active(ms, k) ==> ms[k].trigger != chord@,
        decreases n - t,
    {
        t += 1;
    }
    t
}

/// Some enabled mapping before `j` has trigger `trigger` and identifier `b`.
pub open spec fn triggers_with_id_before(ms: Seq<MappingView>, trigger: ChordView, b: u128, j: int) -> bool {
    exists|j2: int| 0 <= j2 < j && #[trigger] is_active(ms, j2) && ms[j2].trigger == trigger && ms[j2].id == b
}

proof fn lemma_triggers_with_id_before_step(ms: Seq<MappingView>, trigger: ChordView, b: u128, j: int)
    requires
        0 <= j < ms.len(),
    ensures
        triggers_with_id_before(ms, trigger, b, j + 1) == (triggers_with_id_before(ms, trigger, b, j)
            || (is_active(ms, j) && ms[j].trigger == trigger && ms[j].id == b)),
{
    if triggers_with_id_before(ms, trigger, b, j + 1) {
        let j2 = choose|j2: int| 0 <= j2 < j + 1 && #[trigger] is_active(ms, j2) && ms[j2].trigger == trigger && ms[j2].id == b;
        if j2 < j {
            assert(triggers_with_id_before(ms, trigger, b, j));
        }
    }
    if triggers_with_id_before(ms, trigger, b, j) {
        let j2 = choose|j2: int| 0 <= j2 < j && #[trigger] is_active(ms, j2) && ms[j2].trigger == trigger && ms[j2].id == b;
        assert(triggers_with_id_before(ms, trigger, b, j + 1));
    }
    if is_active(ms, j) && ms[j].trigger == trigger && ms[j].id == b {
        assert(triggers_with_id_before(ms, trigger, b, j + 1));
    }
}

proof fn lemma_triggers_with_id_before_all(ms: Seq<MappingView>, trigger: ChordView, b: u128)
    ensures
        triggers_with_id_before(ms, trigger, b, ms.len() as int) == triggers_with_id(ms, trigger, b),
{
    if triggers_with_id(ms, trigger, b) {
        let j = choose|j: int| #[trigger] is_active(ms, j) && ms[j].trigger == trigger && ms[j].id == b;
        assert(triggers_with_id_before(ms, trigger, b, ms.len() as int));
    }
    if triggers_with_id_before(ms, trigger, b, ms.len() as int) {
        let j = choose|j: int| 0 <= j < ms.len() && #[trigger] is_active(ms, j) && ms[j].trigger == trigger && ms[j].id == b;
        assert(triggers_with_id(ms, trigger, b));
    }
}

/// `row` holds the positions in `start`, and those of identifiers of enabled mappings before
/// `j` with trigger `trigger`.
pub open spec fn row_collects(
    row: Seq<usize>,
    start: Seq<usize>,
    ms: Seq<MappingView>,
    trigger: ChordView,
    verts: Seq<u128>,
    j: int,
) -> bool {
    forall|b: usize| #![trigger row.contains(b)]
        b < verts.len() ==> (row.contains(b) <==> (start.contains(b) || triggers_with_id_before(
            ms,
            trigger,
            verts[b as int],
            j,
        )))
}

/// Appends the positions of the identifiers of enabled mappings that share the trigger of
/// mapping `t`.
fn append_trigger_targets(
    mappings: &[Mapping],
    class: &Vec<usize>,
    verts: &Vec<u128>,
    slot: &Vec<usize>,
    t: usize,
    row: &mut Vec<usize>,
)
    requires
        classes_valid(mapping_views(mappings@), class@),
        slots_valid(mapping_views(mappings@), verts@, slot@),
        first_with_trigger(mapping_views(mappings@), t as int),
        forall|k: int| 0 <= k < old(row)@.len() ==> #[trigger] old(row)@[k] < verts@.len(),
    ensures
        forall|k: int| 0 <= k < final(row)@.len() ==> #[trigger] final(row)@[k] < verts@.len(),
        forall|b: usize| #![trigger final(row)@.contains(b)]
            0 <= b < verts@.len() ==> (final(row)@.contains(b) <==> (old(row)@.contains(b) || triggers_with_id(
                mapping_views(mappings@),
                mapping_views(mappings@)[t as int].trigger,
                verts@[b as int],
            ))),
{
    let ghost ms = mapping_views(mappings@);
    let ghost trigger = ms[t as int].trigger;
    let ghost start = row@;
    proof {
        lemma_first_with_trigger_class(ms, class@, t as int);
    }
    let n = mappings.len();
    let mut j: usize = 0;
    while j < n
        invariant
            ms == mapping_views(mappings@),
            n == ms.len(),
            classes_valid(ms, class@),
            slots_valid(ms, verts@, slot@),
            is_active(ms, t as int),
            class@[t as int] == t,
            trigger == ms[t as int].trigger,
            0 <= j <= n,
            forall|k: int| 0 <= k < row@.len() ==> #[trigger] row@[k] < verts@.len(),
            row_collects(row@, start, ms, trigger, verts@, j as int),
        decreases n - j,
    {
        proof {
            if is_active(ms, j as int) {
                lemma_class_matches_trigger(ms, class@, j as int, t as int);
            }
        }
        let ghost before = row@;
        let matches = mappings[j].enabled && class[j] == t;
        if matches {
            row.push(slot[j]);
        }
        proof {
            assert forall|b: usize| #![trigger row@.contains(b)] 0 <= b < verts@.len() implies (row@.contains(b) <==> (
            start.contains(b) || triggers_with_id_before(ms, trigger, verts@[b as int], j + 1))) by {
                assert(row_collects(before, start, ms, trigger, verts@, j as int));
                assert(before.contains(b) <==> (start.contains(b) || triggers_with_id_before(ms, trigger, verts@[b as int], j as int)));
                lemma_triggers_with_id_before_step(ms, trigger, verts@[b as int], j as int);
                if matches {
                    assert(is_active(ms, j as int));
                    assert(row@ == before.push(slot@[j as int]));
                    assert(verts@[slot@[j as int] as int] == ms[j as int].id);
                    if before.contains(b) {
                        let k = choose|k: int| 0 <= k < before.len() && before[k] == b;
                        assert(row@[k] == b);
                    }
                    if row@.contains(b) && !before.contains(b) {
                        let k = choose|k: int| 0 <= k < row@.len() && row@[k] == b;
                        if k < before.len() {
                            assert(before[k] == b);
                        }
                        assert(row@[before.len() as int] == slot@[j as int]);
                        assert(slot@[j as int] == b);
                    }
                    if ms[j as int].id == verts@[b as int] {
                        assert(verts@[slot@[j as int] as int] == verts@[b as int]);
                        assert(slot@[j as int] == b);
                        assert(row@[before.len() as int] == b);
                    }
                } else {
                    assert(row@ == before);
                }
            }
        }
        j += 1;
    }
    proof {
        assert forall|b: usize| #![trigger row@.contains(b)]
            0 <= b < verts@.len() implies (row@.contains(b) <==> (start.contains(b)
            || triggers_with_id(ms, trigger, verts@[b as int]))) by {
            lemma_triggers_with_id_before_all(ms, trigger, verts@[b as int]);
        }
    }
}

/// Mapping `i`, identified by `a`, emits `chord`: the edges from `a` gain the mappings that
/// chord triggers.
proof fn lemma_emits_before_step_emit(ms: Seq<MappingView>, i: int, a: u128, chord: ChordView)
    requires
        is_active(ms, i),
        ms[i].id == a,
        ms[i].action == ActionView::EmitShortcut(chord),
    ensures
        forall|x: u128|
            #[trigger] emits_before(ms, i + 1, a, x) == (emits_before(ms, i, a, x)
                || triggers_with_id(ms, chord, x)),
{
    assert forall|x: u128|
        #[trigger] emits_before(ms, i + 1, a, x) == (emits_before(ms, i, a, x) || triggers_with_id(
            ms,
            chord,
            x,
        )) by {
        if emits_before(ms, i + 1, a, x) {
            let (i2, j2) = choose|i2: int, j2: int|
                0 <= i2 < i + 1 && #[trigger] emits_to(ms, i2, j2) && ms[i2].id == a && ms[j2].id
                    == x;
            if i2 < i {
                assert(emits_before(ms, i, a, x));
            } else {
                assert(is_active(ms, j2));
            }
        }
        if emits_before(ms, i, a, x) {
            let (i2, j2) = choose|i2: int, j2: int|
                0 <= i2 < i && #[trigger] emits_to(ms, i2, j2) && ms[i2].id == a && ms[j2].id == x;
            assert(emits_before(ms, i + 1, a, x));
        }
        if triggers_with_id(ms, chord, x) {
            let j = choose|j: int|
                #[trigger] is_active(ms, j) && ms[j].trigger == chord && ms[j].id == x;
            assert(emits_to(ms, i, j));
            assert(emits_before(ms, i + 1, a, x));
        }
    }
}

/// The successors of vertex `a` in the emit graph, as vertex positions.
fn emit_row(
    mappings: &[Mapping],
    class: &Vec<usize>,
    verts: &Vec<u128>,
    slot: &Vec<usize>,
    a: usize,
) -> (row: Vec<usize>)
    requires
        classes_valid(mapping_views(mappings@), class@),
        slots_valid(mapping_views(mappings@), verts@, slot@),
        a < verts@.len(),
    ensures
        forall|k: int| 0 <= k < row@.len() ==> #[trigger] row@[k] < verts@.len(),
        forall|b: usize| #![trigger row@.contains(b)]
            0 <= b < verts@.len() ==> (row@.contains(b) <==> has_edge(
                mapping_views(mappings@),
                verts@[a as int],
                verts@[b as int],
            )),
{
    let ghost ms = mapping_views(mappings@);
    let ghost va = verts@[a as int];
    let n = mappings.len();
    let mut row: Vec<usize> = Vec::new();
    let mut i: usize = 0;
    while i < n
        invariant
            ms == mapping_views(mappings@),
            n == ms.len(),
            classes_valid(ms, class@),
            slots_valid(ms, verts@, slot@),
            a < verts@.len(),
            va == verts@[a as int],
            0 <= i <= n,
            forall|k: int| 0 <= k < row@.len() ==> #[trigger] row@[k] < verts@.len(),
            forall|b: usize| #![trigger row@.contains(b)]
                0 <= b < verts@.len() ==> (row@.contains(b) <==> emits_before(
                    ms,
                    i as int,
                    va,
                    verts@[b as int],
                )),
        decreases n - i,
    {
        if mappings[i].enabled && slot[i] == a {
            proof {
                assert(is_active(ms, i as int));
                assert(ms[i as int].id == va);
            }
            match &mappings[i].action {
                Action::EmitShortcut { chord } => {
                    proof {
                        lemma_emits_before_step_emit(ms, i as int, va, chord@);
                    }
                    let t = first_enabled_with_trigger(mappings, chord);
                    if t < n {
                        append_trigger_targets(mappings, class, verts, slot, t, &mut row);
                    } else {
                        proof {
                            assert forall|b: usize| 0 <= b < verts@.len() implies !#[trigger] triggers_with_id(ms, chord@, verts@[b as int]) by {
                                if triggers_with_id(ms, chord@, verts@[b as int]) {
                                    let j = choose|j: int| #[trigger] is_active(ms, j) && ms[j].trigger == chord@ && ms[j].id == verts@[b as int];
                                }
                            }
                        }
                    }
                },
                Action::Disable => {
                    proof {
                        lemma_emits_before_step_none(ms, i as int, va);
                    }
                },
            }
        } else {
            proof {
                if is_active(ms, i as int) {
                    assert(ms[i as int].id != va) by {
                        if ms[i as int].id == va {
                            assert(verts@[slot@[i as int] as int] == verts@[a as int]);
                        }
                    }
                }
                lemma_emits_before_step_none(ms, i as int, va);
            }
        }
        i += 1;
    }
    proof {
        assert forall|b: usize| #![trigger row@.contains(b)]
            0 <= b < verts@.len() implies (row@.contains(b) <==> has_edge(
            ms,
            va,
            verts@[b as int],
        )) by {
            if has_edge(ms, va, verts@[b as int]) {
                let (i2, j2) = choose|i2: int, j2: int|
                    #[trigger] emits_to(ms, i2, j2) && ms[i2].id == va && ms[j2].id == verts@[b as int];
                assert(emits_before(ms, n as int, va, verts@[b as int]));
            }
        }
    }
    row
}

/// Mapping `i` adds no edge from `a`: it is disabled, identified otherwise, or emits nothing.
proof fn lemma_emits_before_step_none(ms: Seq<MappingView>, i: int, a: u128)
    requires
        0 <= i < ms.len(),
        !is_active(ms, i) || ms[i].id != a || ms[i].action == ActionView::Disable,
    ensures
        forall|x: u128| #[trigger] emits_before(ms, i + 1, a, x) == emits_before(ms, i, a, x),
{
    assert forall|x: u128| #[trigger] emits_before(ms, i + 1, a, x) == emits_before(ms, i, a, x) by {
        if emits_before(ms, i + 1, a, x) {
            let (i2, j2) = choose|i2: int, j2: int|
                0 <= i2 < i + 1 && #[trigger] emits_to(ms, i2, j2) && ms[i2].id == a && ms[j2].id
                    == x;
            assert(i2 != i);
        }
        if emits_before(ms, i, a, x) {
            let (i2, j2) = choose|i2: int, j2: int|
                0 <= i2 < i && #[trigger] emits_to(ms, i2, j2) && ms[i2].id == a && ms[j2].id == x;
            assert(emits_before(ms, i + 1, a, x));
        }
    }
}

/// The emit graph over vertex positions: there is an edge from `a` to `b` exactly when
/// `has_edge` holds between the identifiers at positions `a` and `b`.
fn emit_graph(mappings: &[Mapping], class: &Vec<usize>, verts: &Vec<u128>, slot: &Vec<usize>) -> (adj: Vec<Vec<usize>>)
    requires
        classes_valid(mapping_views(mappings@), class@),
        slots_valid(mapping_views(mappings@), verts@, slot@),
    ensures
        edges_match(mapping_views(mappings@), verts@, graph::successors(adj@)),
{
    let mut adj: Vec<Vec<usize>> = Vec::new();
    let mut a: usize = 0;
    while a < verts.len()
        invariant
            classes_valid(mapping_views(mappings@), class@),
            slots_valid(mapping_views(mappings@), verts@, slot@),
            0 <= a <= verts@.len(),
            adj@.len() == a,
            forall|x: int, k: int|
                0 <= x < a && 0 <= k < adj@[x]@.len() ==> #[trigger] adj@[x]@[k] < verts@.len(),
            forall|x: int, b: usize|
                0 <= x < a && b < verts@.len() ==> (#[trigger] adj@[x]@.contains(b) <==> has_edge(
                    mapping_views(mappings@),
                    verts@[x],
                    verts@[b as int],
                )),
        decreases verts@.len() - a,
    {
        let row = emit_row(mappings, class, verts, slot, a);
        adj.push(row);
        a += 1;
    }
    proof {
        let g = graph::successors(adj@);
        assert forall|x: int, k: int| 0 <= x < g.len() && 0 <= k < g[x].len() implies #[trigger] g[x][k] < g.len() by {
            assert(g[x] == adj@[x]@);
        }
        assert forall|x: int, b: int|
            0 <= x < verts@.len() && 0 <= b < verts@.len() implies (graph::edge(g, x, b) <==> has_edge(
            mapping_views(mappings@),
            verts@[x],
            verts@[b],
        )) by {
            assert(g[x] == adj@[x]@);
            let bu = b as usize;
            assert(adj@[x]@.contains(bu) <==> has_edge(mapping_views(mappings@), verts@[x], verts@[b]));
            if graph::edge(g, x, b) {
                let k = choose|k: int| 0 <= k < g[x].len() && g[x][k] as int == b;
                assert(adj@[x]@[k] == bu);
            }
            if adj@[x]@.contains(bu) {
                let k = choose|k: int| 0 <= k < adj@[x]@.len() && adj@[x]@[k] == bu;
                assert(g[x][k] as int == b);
            }
        }
    }
    adj
}

/// The graph over vertex positions matches the emit graph over identifiers.
pub open spec fn edges_match(ms: Seq<MappingView>, verts: Seq<u128>, g: Seq<Seq<usize>>) -> bool {
    &&& g.len() == verts.len()
    &&& graph::well_formed(g)
    &&& forall|a: int, b: int|
        0 <= a < verts.len() && 0 <= b < verts.len() ==> (graph::edge(g, a, b) <==> has_edge(
            ms,
            verts[a],
            verts[b],
        ))
}

/// The edge relation over vertex positions.
pub open spec fn table_valid(ms: Seq<MappingView>, verts: Seq<u128>, g: Seq<Seq<usize>>) -> bool {
    &&& verts == all_vertices(ms)
    &&& verts.no_duplicates()
    &&& edges_match(ms, verts, g)
}

/// The endpoint of an edge is a vertex.
proof fn lemma_edge_target_is_vertex(ms: Seq<MappingView>, a: u128, b: u128)
    requires
        has_edge(ms, a, b),
    ensures
        is_vertex(ms, a),
        is_vertex(ms, b),
{
    let (i, j) = choose|i: int, j: int| #[trigger] emits_to(ms, i, j) && ms[i].id == a && ms[j].id == b;
    assert(is_active(ms, i));
    assert(is_active(ms, j));
}

/// The position of vertex `x` among `verts`.
spec fn position_of(verts: Seq<u128>, x: u128) -> int {
    choose|i: int| 0 <= i < verts.len() && verts[i] == x
}

/// Reachability over positions is reachability over identifiers.
proof fn lemma_reaches_positions(ms: Seq<MappingView>, verts: Seq<u128>, g: Seq<Seq<usize>>, s: int, t: int)
    requires
        table_valid(ms, verts, g),
        0 <= s < verts.len(),
        0 <= t < verts.len(),
    ensures
        graph::reaches(g, s, t) == reaches(ms, verts[s], verts[t]),
{
    lemma_is_vertex(ms, verts[s]);
    assert(verts.contains(verts[s]));
    if graph::reaches(g, s, t) {
        let p = choose|p: Seq<int>| graph::is_walk(g, p) && p[0] == s && p.last() == t;
        let q = Seq::new(p.len(), |k: int| verts[p[k]]);
        assert forall|k: int| 0 <= k < q.len() - 1 implies #[trigger] has_edge(ms, q[k], q[k + 1]) by {
            assert(graph::edge(g, p[k], p[k + 1]));
        }
        assert(is_path(ms, q));
        assert(q[0] == verts[s] && q.last() == verts[t]);
    }
    if reaches(ms, verts[s], verts[t]) {
        let q = choose|q: Seq<u128>| is_path(ms, q) && q[0] == verts[s] && q.last() == verts[t];
        assert forall|k: int| 0 <= k < q.len() implies #[trigger] verts.contains(q[k]) by {
            if k == 0 {
            } else {
                assert(has_edge(ms, q[k - 1], q[(k - 1) + 1]));
                lemma_edge_target_is_vertex(ms, q[k - 1], q[k]);
                lemma_is_vertex(ms, q[k]);
            }
        }
        let p = Seq::new(q.len(), |k: int| position_of(verts, q[k]));
        assert forall|k: int| 0 <= k < p.len() implies 0 <= #[trigger] p[k] < g.len() && verts[p[k]] == q[k] by {
            assert(verts.contains(q[k]));
        }
        assert forall|k: int| 0 <= k < p.len() - 1 implies #[trigger] graph::edge(g, p[k], p[k + 1]) by {
            assert(verts.contains(q[k]));
            assert(verts.contains(q[k + 1]));
            assert(has_edge(ms, q[k], q[k + 1]));
            assert(has_edge(ms, verts[p[k]], verts[p[k + 1]]));
        }
        assert(graph::is_walk(g, p));
        assert(verts.contains(q[0]));
        assert(verts.contains(q[q.len() - 1]));
        assert(p[0] == s);
        assert(p.last() == t);
    }
}

/// For every pair of vertex positions, whether the first reaches the second.
fn reach_table(adj: &Vec<Vec<usize>>) -> (reach: Vec<Vec<bool>>)
    requires
        graph::well_formed(graph::successors(adj@)),
    ensures
        reach@.len() == adj@.len(),
        forall|s: int| 0 <= s < adj@.len() ==> (#[trigger] reach@[s])@.len() == adj@.len(),
        forall|s: int, t: int|
            0 <= s < adj@.len() && 0 <= t < adj@.len() ==> (#[trigger] reach@[s]@[t]) == graph::reaches(
                graph::successors(adj@),
                s,
                t,
            ),
{
    let mut reach: Vec<Vec<bool>> = Vec::new();
    let mut s: usize = 0;
    while s < adj.len()
        invariant
            graph::well_formed(graph::successors(adj@)),
            0 <= s <= adj@.len(),
            reach@.len() == s,
            forall|x: int| 0 <= x < s ==> (#[trigger] reach@[x])@.len() == adj@.len(),
            forall|x: int, t: int|
                0 <= x < s && 0 <= t < adj@.len() ==> (#[trigger] reach@[x]@[t]) == graph::reaches(
                    graph::successors(adj@),
                    x,
                    t,
                ),
        decreases adj@.len() - s,
    {
        let row = graph::reachable_from(adj, s);
        reach.push(row);
        s += 1;
    }
    reach
}

pub open spec fn reach_valid(g: Seq<Seq<usize>>, reach: Seq<Vec<bool>>) -> bool {
    &&& reach.len() == g.len()
    &&& forall|s: int| 0 <= s < g.len() ==> (#[trigger] reach[s])@.len() == g.len()
    &&& forall|s: int, t: int|
        0 <= s < g.len() && 0 <= t < g.len() ==> (#[trigger] reach[s]@[t]) == graph::reaches(g, s, t)
}

/// A reached identifier is a vertex.
proof fn lemma_reached_is_vertex(ms: Seq<MappingView>, a: u128, b: u128)
    requires
        reaches(ms, a, b),
    ensures
        is_vertex(ms, b),
{
    let q = choose|q: Seq<u128>| is_path(ms, q) && q[0] == a && q.last() == b;
    if q.len() > 1 {
        let k = q.len() - 2;
        assert(has_edge(ms, q[k], q[k + 1]));
        lemma_edge_target_is_vertex(ms, q[k], q[k + 1]);
    }
}

/// The identifiers in the component of the vertex at position `v`, in order of first use.
fn component_members(
    mappings: &[Mapping],
    verts: &Vec<u128>,
    adj: &Vec<Vec<usize>>,
    reach: &Vec<Vec<bool>>,
    v: usize,
) -> (members: Vec<u128>)
    requires
        table_valid(mapping_views(mappings@), verts@, graph::successors(adj@)),
        reach_valid(graph::successors(adj@), reach@),
        v < verts@.len(),
    ensures
        members@ == component_ids(mapping_views(mappings@), verts@[v as int]),
{
    let ghost ms = mapping_views(mappings@);
    let ghost g = graph::successors(adj@);
    let ghost a = verts@[v as int];
    let mut members: Vec<u128> = Vec::new();
    let mut b: usize = 0;
    while b < verts.len()
        invariant
            ms == mapping_views(mappings@),
            g == graph::successors(adj@),
            table_valid(ms, verts@, g),
            reach_valid(g, reach@),
            v < verts@.len(),
            a == verts@[v as int],
            0 <= b <= verts@.len(),
            members@ == verts@.subrange(0, b as int).filter(in_component(ms, a)),
        decreases verts@.len() - b,
    {
        proof {
            lemma_reaches_positions(ms, verts@, g, v as int, b as int);
            lemma_reaches_positions(ms, verts@, g, b as int, v as int);
            assert(verts@.subrange(0, b + 1) == verts@.subrange(0, b as int).push(verts@[b as int]));
            verts@.subrange(0, b as int).lemma_filter_push(verts@[b as int], in_component(ms, a));
        }
        if reach[v][b] && reach[b][v] {
            members.push(verts[b]);
        }
        b += 1;
    }
    proof {
        assert(verts@.subrange(0, verts@.len() as int) == verts@);
    }
    members
}

/// Whether position `v` lists itself as a successor.
fn has_self_edge(adj: &Vec<Vec<usize>>, v: usize) -> (self_edge: bool)
    requires
        v < adj@.len(),
    ensures
        self_edge == graph::edge(graph::successors(adj@), v as int, v as int),
{
    let ghost g = graph::successors(adj@);
    let row = &adj[v];
    let mut k: usize = 0;
    while k < row.len()
        invariant
            g == graph::successors(adj@),
            v < adj@.len(),
            row@ == g[v as int],
            0 <= k <= row@.len(),
            forall|j: int| 0 <= j < k ==> row@[j] != v,
        decreases row@.len() - k,
    {
        if row[k] == v {
            proof {
                assert(g[v as int][k as int] as int == v as int);
            }
            return true;
        }
        k += 1;
    }
    false
}

/// The cycle conflicts, one per cyclic component, in order of its least identifier.
fn cycle_conflicts_of(mappings: &[Mapping], verts: &Vec<u128>, adj: &Vec<Vec<usize>>) -> (conflicts: Vec<Conflict>)
    requires
        table_valid(mapping_views(mappings@), verts@, graph::successors(adj@)),
    ensures
        conflict_views(conflicts@) == cycle_conflicts(mapping_views(mappings@)),
{
    let ghost ms = mapping_views(mappings@);
    let ghost g = graph::successors(adj@);
    let reach = reach_table(adj);
    let mut conflicts: Vec<Conflict> = Vec::new();
    let mut v: usize = 0;
    while v < verts.len()
        invariant
            ms == mapping_views(mappings@),
            g == graph::successors(adj@),
            table_valid(ms, verts@, g),
            reach_valid(g, reach@),
            0 <= v <= verts@.len(),
            conflict_views(conflicts@) == verts@.subrange(0, v as int).filter(cycle_leaders(ms)).map_values(
                cycle_conflict_of(ms),
            ),
        decreases verts@.len() - v,
    {
        let ghost a = verts@[v as int];
        let members = component_members(mappings, verts, adj, &reach, v);
        let mut leads = true;
        let mut k: usize = 0;
        while k < members.len()
            invariant
                0 <= k <= members@.len(),
                leads == (forall|j: int| 0 <= j < k ==> a <= #[trigger] members@[j]),
                a == verts@[v as int],
                v < verts@.len(),
            decreases members@.len() - k,
        {
            if members[k] < verts[v] {
                leads = false;
            }
            k += 1;
        }
        let self_edge = has_self_edge(adj, v);
        let cyclic = members.len() > 1 || self_edge;
        proof {
            lemma_edge_iff(ms, verts@, g, v as int);
            broadcast use vstd::seq_lib::group_filter_ensures;
            assert(leads == leads_component(ms, a)) by {
                if leads {
                    assert forall|b: u128| #[trigger] same_component(ms, a, b) implies a <= b by {
                        lemma_reached_is_vertex(ms, a, b);
                        lemma_is_vertex(ms, b);
                        let i = choose|i: int| 0 <= i < verts@.len() && verts@[i] == b;
                        assert(in_component(ms, a)(verts@[i]));
                        assert(members@.contains(b));
                        let j = choose|j: int| 0 <= j < members@.len() && members@[j] == b;
                    }
                } else {
                    let j = choose|j: int| 0 <= j < members@.len() && !(a <= #[trigger] members@[j]);
                    assert(in_component(ms, a)(members@[j]));
                }
            }
            assert(cyclic == is_cyclic(ms, a));
            assert(verts@.subrange(0, v + 1) == verts@.subrange(0, v as int).push(a));
            verts@.subrange(0, v as int).lemma_filter_push(a, cycle_leaders(ms));
        }
        if leads && cyclic {
            let ids = sort_ids(&members);
            let code = if members.len() == 1 {
                ConflictCode::DirectSelfMap
            } else {
                ConflictCode::EmitShortcutCycle
            };
            let ghost before = conflicts@;
            conflicts.push(Conflict { code, severity: ConflictSeverity::Error, mapping_ids: ids });
            proof {
                assert(conflicts@ == before.push(conflicts@[conflicts@.len() - 1]));
                assert(conflict_views(conflicts@) == conflict_views(before).push(cycle_conflict(ms, a)));
            }
        }
        v += 1;
    }
    proof {
        assert(verts@.subrange(0, verts@.len() as int) == verts@);
    }
    conflicts
}

/// Position `v` has an edge to itself exactly when its identifier does.
proof fn lemma_edge_iff(ms: Seq<MappingView>, verts: Seq<u128>, g: Seq<Seq<usize>>, v: int)
    requires
        table_valid(ms, verts, g),
        0 <= v < verts.len(),
    ensures
        graph::edge(g, v, v) == has_edge(ms, verts[v], verts[v]),
{
}

/// Reports the conflicts among `mappings`: each trigger shared by several enabled mappings
/// (`DuplicateEnabledTrigger`), and each group of enabled mappings whose emitted shortcuts
/// trigger one another in a cycle (`DirectSelfMap` for a mapping that triggers itself,
/// `EmitShortcutCycle` otherwise). All are errors; each lists its identifiers in ascending
/// order, and the list is in conflict order, whatever the order of `mappings`.
pub fn analyze(mappings: &[Mapping]) -> (conflicts: Vec<Conflict>)
    ensures
        conflict_views(conflicts@) == analysis(mapping_views(mappings@)),
{
    let ghost ms = mapping_views(mappings@);
    let class = trigger_classes(mappings);
    let mut conflicts = duplicate_trigger_conflicts(mappings, &class);
    let (verts, slot) = vertex_table(mappings);
    let adj = emit_graph(mappings, &class, &verts, &slot);
    let mut cycles = cycle_conflicts_of(mappings, &verts, &adj);
    let ghost first = conflicts@;
    let ghost second = cycles@;
    conflicts.append(&mut cycles);
    proof {
        assert(conflict_views(conflicts@) == conflict_views(first) + conflict_views(second));
    }
    sort_conflicts(conflicts)
}

/// `ms` without the mappings identified like `candidate`, then `candidate` enabled.
pub open spec fn with_candidate(ms: Seq<MappingView>, candidate: MappingView) -> Seq<MappingView> {
    ms.filter(|m: MappingView| m.id != candidate.id).push(
        MappingView { enabled: true, ..candidate },
    )
}

/// The conflicts that `candidate`, enabled, would take part in among `existing`, where it
/// replaces any existing mapping with its identifier.
pub fn analyze_candidate(existing: &[Mapping], candidate: &Mapping) -> (conflicts: Vec<Conflict>)
    ensures
        conflict_views(conflicts@) == analysis(
            with_candidate(mapping_views(existing@), candidate@),
        ),
{
    let ghost ms = mapping_views(existing@);
    let ghost keep = |m: MappingView| m.id != candidate.id;
    let mut list: Vec<Mapping> = Vec::new();
    let mut i: usize = 0;
    while i < existing.len()
        invariant
            ms == mapping_views(existing@),
            keep == (|m: MappingView| m.id != candidate.id),
            0 <= i <= existing@.len(),
            mapping_views(list@) == ms.subrange(0, i as int).filter(keep),
        decreases existing@.len() - i,
    {
        proof {
            assert(ms.subrange(0, i + 1) == ms.subrange(0, i as int).push(ms[i as int]));
            ms.subrange(0, i as int).lemma_filter_push(ms[i as int], keep);
        }
        if existing[i].id != candidate.id {
            let copy = existing[i].duplicate();
            let ghost before = list@;
            list.push(copy);
            proof {
                assert(mapping_views(list@) == mapping_views(before).push(copy@));
            }
        }
        i += 1;
    }
    let mut chosen = candidate.duplicate();
    chosen.enabled = true;
    let ghost before = list@;
    list.push(chosen);
    proof {
        assert(ms.subrange(0, ms.len() as int) == ms);
        assert(chosen@ == (MappingView { enabled: true, ..candidate@ }));
        assert(mapping_views(list@) == mapping_views(before).push(chosen@));
    }
    analyze(list.as_slice())
}

} // verus!
