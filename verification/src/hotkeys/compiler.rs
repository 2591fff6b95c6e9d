//! Immutable keymap compilation: enabled mappings by trigger, refused on blocking conflicts.

use vstd::prelude::*;

use crate::hotkeys::conflicts::{
    Conflict, ConflictSeverity, ConflictView, analysis, analyze, conflict_views, cycle_conflicts,
    duplicate_conflicts, first_with_trigger, is_active, trigger_ids,
};
use crate::hotkeys::domain::{Action, ActionView, Chord, ChordView, Mapping, MappingView, mapping_views};

verus! {

broadcast use {vstd::seq_lib::group_to_multiset_ensures, vstd::multiset::group_multiset_axioms};

/// The abstract value of a compiled entry.
pub struct CompiledEntryView {
    pub mapping_id: u128,
    pub action: ActionView,
}

#[derive(Clone, Debug, PartialEq, Eq)]
pub struct CompiledEntry {
    pub mapping_id: u128,
    pub action: Action,
}

impl View for CompiledEntry {
    type V = CompiledEntryView;

    open spec fn view(&self) -> CompiledEntryView {
        CompiledEntryView { mapping_id: self.mapping_id, action: self.action@ }
    }
}

/// The entry that an enabled mapping compiles to.
pub open spec fn entry_of(m: MappingView) -> CompiledEntryView {
    CompiledEntryView { mapping_id: m.id, action: m.action }
}

pub open spec fn enabled_mapping() -> spec_fn(MappingView) -> bool {
    |m: MappingView| m.enabled
}

pub open spec fn entry_pair() -> spec_fn(MappingView) -> (ChordView, CompiledEntryView) {
    |m: MappingView| (m.trigger, entry_of(m))
}

/// The trigger and entry of each enabled mapping, in input order.
pub open spec fn compiled_entries(ms: Seq<MappingView>) -> Seq<(ChordView, CompiledEntryView)> {
    ms.filter(enabled_mapping()).map_values(entry_pair())
}

/// What a keymap with `entries` answers for `chord`.
pub open spec fn keymap_lookup(entries: Seq<(ChordView, CompiledEntryView)>, chord: ChordView) -> Option<
    CompiledEntryView,
> {
    if exists|k: int| 0 <= k < entries.len() && entries[k].0 == chord {
        Some(entries[choose|k: int| 0 <= k < entries.len() && entries[k].0 == chord].1)
    } else {
        None
    }
}

pub open spec fn is_blocking(conflict: ConflictView) -> bool {
    conflict.severity == ConflictSeverity::Error
}

pub open spec fn blocking_conflict() -> spec_fn(ConflictView) -> bool {
    |c: ConflictView| is_blocking(c)
}

/// The conflicts of `ms` that refuse compilation.
pub open spec fn blocking_conflicts(ms: Seq<MappingView>) -> Seq<ConflictView> {
    analysis(ms).filter(blocking_conflict())
}

/// The abstract value of a keymap: its entries and its warnings.
pub struct KeymapView {
    pub entries: Seq<(ChordView, CompiledEntryView)>,
    pub warnings: Seq<ConflictView>,
}

/// Enabled mappings keyed by trigger chord, with the non-blocking conflicts.
#[derive(Debug)]
pub struct CompiledKeymap {
    chords: Vec<Chord>,
    entries: Vec<CompiledEntry>,
    warnings: Vec<Conflict>,
}

pub open spec fn pair_views(chords: Seq<Chord>, entries: Seq<CompiledEntry>) -> Seq<(ChordView, CompiledEntryView)> {
    Seq::new(chords.len(), |k: int| (chords[k]@, entries[k]@))
}

/// No chord appears twice.
pub open spec fn distinct_chords(entries: Seq<(ChordView, CompiledEntryView)>) -> bool {
    forall|a: int, b: int| 0 <= a < b < entries.len() ==> entries[a].0 != entries[b].0
}

impl View for CompiledKeymap {
    type V = KeymapView;

    closed spec fn view(&self) -> KeymapView {
        KeymapView {
            entries: pair_views(self.chords@, self.entries@),
            warnings: conflict_views(self.warnings@),
        }
    }
}

impl CompiledKeymap {
    #[verifier::type_invariant]
    closed spec fn inv(self) -> bool {
        self.chords@.len() == self.entries@.len() && distinct_chords(
            pair_views(self.chords@, self.entries@),
        )
    }

    /// The entry whose trigger is `chord`, if any.
    pub fn lookup(&self, chord: &Chord) -> (entry: Option<&CompiledEntry>)
        ensures
            match entry {
                Some(found) => keymap_lookup(self@.entries, chord@) == Some(found@),
                None => keymap_lookup(self@.entries, chord@) == None::<CompiledEntryView>,
            },
    {
        proof {
            use_type_invariant(self);
        }
        let ghost pairs = pair_views(self.chords@, self.entries@);
        let mut k: usize = 0;
        while k < self.chords.len()
            invariant
                pairs == pair_views(self.chords@, self.entries@),
                self.chords@.len() == self.entries@.len(),
                0 <= k <= self.chords@.len(),
                forall|j: int| 0 <= j < k ==> pairs[j].0 != chord@,
                distinct_chords(pairs),
            decreases self.chords@.len() - k,
        {
            if self.chords[k].same_as(chord) {
                proof {
                    assert(pairs[k as int] == (self.chords@[k as int]@, self.entries@[k as int]@));
                    assert(pairs[k as int].0 == chord@);
                    let c = choose|j: int| 0 <= j < pairs.len() && pairs[j].0 == chord@;
                    assert(c == k) by {
                        if c != k {
                            assert(distinct_chords(pairs));
                            if c < k {
                            } else {
                                assert(pairs[k as int].0 != pairs[c].0);
                            }
                        }
                    }
                }
                return Some(&self.entries[k]);
            }
            k += 1;
        }
        None
    }

    /// A keymap with the same entries and warnings.
    pub fn duplicate(&self) -> (copy: CompiledKeymap)
        ensures
            copy@ == self@,
    {
        proof {
            use_type_invariant(self);
        }
        let mut chords: Vec<Chord> = Vec::new();
        let mut entries: Vec<CompiledEntry> = Vec::new();
        let mut k: usize = 0;
        while k < self.chords.len()
            invariant
                self.chords@.len() == self.entries@.len(),
                0 <= k <= self.chords@.len(),
                chords@.len() == k,
                entries@.len() == k,
                forall|j: int| 0 <= j < k ==> chords@[j]@ == self.chords@[j]@ && entries@[j]@ == self.entries@[j]@,
            decreases self.chords@.len() - k,
        {
            chords.push(self.chords[k].duplicate());
            entries.push(
                CompiledEntry {
                    mapping_id: self.entries[k].mapping_id,
                    action: self.entries[k].action.duplicate(),
                },
            );
            k += 1;
        }
        let mut warnings: Vec<Conflict> = Vec::new();
        let mut w: usize = 0;
        while w < self.warnings.len()
            invariant
                0 <= w <= self.warnings@.len(),
                warnings@.len() == w,
                forall|j: int| 0 <= j < w ==> warnings@[j]@ == self.warnings@[j]@,
            decreases self.warnings@.len() - w,
        {
            warnings.push(
                Conflict {
                    code: self.warnings[w].code,
                    severity: self.warnings[w].severity,
                    mapping_ids: copy_ids(&self.warnings[w].mapping_ids),
                },
            );
            w += 1;
        }
        proof {
            assert(pair_views(chords@, entries@) == pair_views(self.chords@, self.entries@));
            assert(conflict_views(warnings@) == conflict_views(self.warnings@));
        }
        CompiledKeymap { chords, entries, warnings }
    }

    /// The non-blocking conflicts found while compiling.
    pub fn warnings(&self) -> (warnings: &[Conflict])
        ensures
            conflict_views(warnings@) == self@.warnings,
    {
        self.warnings.as_slice()
    }

    pub fn len(&self) -> (count: usize)
        ensures
            count == self@.entries.len(),
    {
        self.chords.len()
    }

    pub fn is_empty(&self) -> (empty: bool)
        ensures
            empty == (self@.entries.len() == 0),
    {
        self.chords.len() == 0
    }
}

impl Clone for CompiledKeymap {
    fn clone(&self) -> (copy: CompiledKeymap)
        ensures
            copy@ == self@,
    {
        self.duplicate()
    }
}

#[derive(Clone, Debug, PartialEq, Eq)]
pub struct CompileError {
    pub conflicts: Vec<Conflict>,
}

/// Compiles the enabled mappings into a keymap. Any blocking conflict refuses compilation
/// with all the blocking conflicts; otherwise each enabled mapping's trigger maps to its
/// identifier and action, and the keymap keeps the remaining conflicts as warnings.
pub fn compile(mappings: &[Mapping]) -> (result: Result<CompiledKeymap, CompileError>)
    ensures
        match result {
            Ok(keymap) => {
                &&& blocking_conflicts(mapping_views(mappings@)).len() == 0
                &&& keymap@.entries == compiled_entries(mapping_views(mappings@))
                &&& keymap@.warnings == analysis(mapping_views(mappings@))
            },
            Err(error) => {
                &&& blocking_conflicts(mapping_views(mappings@)).len() > 0
                &&& conflict_views(error.conflicts@) == blocking_conflicts(
                    mapping_views(mappings@),
                )
            },
        },
{
    let ghost ms = mapping_views(mappings@);
    let conflicts = analyze(mappings);
    let ghost report = conflict_views(conflicts@);
    let ghost blocking_pred = blocking_conflict();
    let mut blocking: Vec<Conflict> = Vec::new();
    let mut i: usize = 0;
    while i < conflicts.len()
        invariant
            report == conflict_views(conflicts@),
            blocking_pred == blocking_conflict(),
            0 <= i <= conflicts@.len(),
            conflict_views(blocking@) == report.subrange(0, i as int).filter(blocking_pred),
        decreases conflicts@.len() - i,
    {
        proof {
            assert(report.subrange(0, i + 1) == report.subrange(0, i as int).push(report[i as int]));
            report.subrange(0, i as int).lemma_filter_push(report[i as int], blocking_pred);
        }
        if conflicts[i].severity == ConflictSeverity::Error {
            let copy = Conflict {
                code: conflicts[i].code,
                severity: conflicts[i].severity,
                mapping_ids: copy_ids(&conflicts[i].mapping_ids),
            };
            let ghost before = blocking@;
            blocking.push(copy);
            proof {
                assert(conflict_views(blocking@) == conflict_views(before).push(copy@));
            }
        }
        i += 1;
    }
    proof {
        assert(report.subrange(0, report.len() as int) == report);
    }
    if blocking.len() > 0 {
        return Err(CompileError { conflicts: blocking });
    }
    proof {
        lemma_no_blocking_means_distinct_triggers(ms);
    }
    let ghost enabled_pred = enabled_mapping();
    let mut chords: Vec<Chord> = Vec::new();
    let mut entries: Vec<CompiledEntry> = Vec::new();
    let ghost mut origin: Seq<int> = Seq::empty();
    let mut j: usize = 0;
    while j < mappings.len()
        invariant
            ms == mapping_views(mappings@),
            enabled_pred == enabled_mapping(),
            0 <= j <= mappings@.len(),
            chords@.len() == entries@.len(),
            pair_views(chords@, entries@) == ms.subrange(0, j as int).filter(enabled_pred).map_values(
                entry_pair(),
            ),
            forall|a: int, b: int|
                0 <= a < b < ms.len() && is_active(ms, a) && is_active(ms, b) ==> ms[a].trigger
                    != ms[b].trigger,
            origin.len() == chords@.len(),
            forall|k: int|
                0 <= k < chords@.len() ==> 0 <= #[trigger] origin[k] < j && is_active(ms, origin[k])
                    && ms[origin[k]].trigger == chords@[k]@,
            distinct_chords(pair_views(chords@, entries@)),
        decreases mappings@.len() - j,
    {
        let ghost prefix = ms.subrange(0, j as int);
        proof {
            assert(ms.subrange(0, j + 1) == prefix.push(ms[j as int]));
            prefix.lemma_filter_push(ms[j as int], enabled_pred);
        }
        if mappings[j].enabled {
            let ghost before = pair_views(chords@, entries@);
            let chord = mappings[j].trigger.chord().duplicate();
            let entry = CompiledEntry {
                mapping_id: mappings[j].id,
                action: mappings[j].action.duplicate(),
            };
            let ghost old_chords = chords@;
            chords.push(chord);
            entries.push(entry);
            proof {
                assert(pair_views(chords@, entries@) == before.push((chord@, entry@)));
                assert(prefix.push(ms[j as int]).filter(enabled_pred) == prefix.filter(enabled_pred).push(ms[j as int]));
                origin = origin.push(j as int);
                assert forall|k: int| 0 <= k < chords@.len() implies 0 <= #[trigger] origin[k] < j + 1
                    && is_active(ms, origin[k]) && ms[origin[k]].trigger == chords@[k]@ by {
                    if k < old_chords.len() {
                        assert(chords@[k] == old_chords[k]);
                    }
                }
                assert forall|a: int, b: int| 0 <= a < b < chords@.len() implies pair_views(chords@, entries@)[a].0 != pair_views(chords@, entries@)[b].0 by {
                    if b == chords@.len() - 1 {
                        assert(chords@[a] == old_chords[a]);
                        assert(origin[a] < j);
                        assert(is_active(ms, j as int));
                    } else {
                        assert(before[a].0 != before[b].0);
                    }
                }
            }
        }
        j += 1;
    }
    proof {
        assert(ms.subrange(0, ms.len() as int) == ms);
        assert(blocking@.len() == 0);
        assert(conflict_views(blocking@).len() == 0);
    }
    Ok(CompiledKeymap { chords, entries, warnings: conflicts })
}

/// A copy of a list of identifiers.
fn copy_ids(ids: &Vec<u128>) -> (copy: Vec<u128>)
    ensures
        copy@ == ids@,
{
    let mut copy: Vec<u128> = Vec::new();
    let mut i: usize = 0;
    while i < ids.len()
        invariant
            0 <= i <= ids@.len(),
            copy@ == ids@.subrange(0, i as int),
        decreases ids@.len() - i,
    {
        copy.push(ids[i]);
        proof {
            assert(ids@.subrange(0, i + 1) == ids@.subrange(0, i as int).push(ids@[i as int]));
        }
        i += 1;
    }
    proof {
        assert(ids@.subrange(0, ids@.len() as int) == ids@);
    }
    copy
}

// ---------------------------------------------------------------------------------------
// Why a compiled keymap has one entry per trigger.
// ---------------------------------------------------------------------------------------
proof fn lemma_trigger_ids_monotone(ms: Seq<MappingView>, t: ChordView, m: int, n: int)
    requires
        0 <= m <= n,
    ensures
        trigger_ids(ms, t, m).len() <= trigger_ids(ms, t, n).len(),
    decreases n - m,
{
    if m < n {
        lemma_trigger_ids_monotone(ms, t, m, n - 1);
    }
}

proof fn lemma_trigger_ids_two(ms: Seq<MappingView>, a: int, b: int)
    requires
        0 <= a < b < ms.len(),
        is_active(ms, a),
        is_active(ms, b),
        ms[a].trigger == ms[b].trigger,
    ensures
        trigger_ids(ms, ms[a].trigger, ms.len() as int).len() >= 2,
{
    let t = ms[a].trigger;
    lemma_trigger_ids_monotone(ms, t, a + 1, b);
    lemma_trigger_ids_monotone(ms, t, b + 1, ms.len() as int);
}

/// Every enabled mapping shares its trigger with a first enabled mapping with that trigger.
proof fn lemma_first_with_trigger_exists(ms: Seq<MappingView>, j: int)
    requires
        is_active(ms, j),
    ensures
        exists|c: int| 0 <= c <= j && first_with_trigger(ms, c) && ms[c].trigger == ms[j].trigger,
    decreases j,
{
    if !first_with_trigger(ms, j) {
        let k = choose|k: int| 0 <= k < j && is_active(ms, k) && ms[k].trigger == ms[j].trigger;
        lemma_first_with_trigger_exists(ms, k);
    } else {
        assert(first_with_trigger(ms, j) && ms[j].trigger == ms[j].trigger);
    }
}

proof fn lemma_duplicate_conflicts_empty(ms: Seq<MappingView>, n: int, i: int)
    requires
        0 <= i < n <= ms.len(),
        duplicate_conflicts(ms, n).len() == 0,
        first_with_trigger(ms, i),
    ensures
        trigger_ids(ms, ms[i].trigger, ms.len() as int).len() <= 1,
    decreases n,
{
    if i < n - 1 {
        lemma_duplicate_conflicts_empty(ms, n - 1, i);
    }
}

/// Without blocking conflicts, no two enabled mappings share a trigger.
pub proof fn lemma_no_blocking_means_distinct_triggers(ms: Seq<MappingView>)
    requires
        blocking_conflicts(ms).len() == 0,
    ensures
        forall|a: int, b: int|
            0 <= a < b < ms.len() && is_active(ms, a) && is_active(ms, b) ==> ms[a].trigger
                != ms[b].trigger,
{
    lemma_analysis_all_blocking(ms);
    let all = duplicate_conflicts(ms, ms.len() as int) + cycle_conflicts(ms);
    assert(analysis(ms).len() == 0);
    assert(all.len() == 0) by {
        crate::hotkeys::conflicts::lemma_conflict_order_total();
        all.lemma_sort_by_ensures(crate::hotkeys::conflicts::conflict_order());
        if all.len() > 0 {
            assert(all.to_multiset().contains(all[0]));
            assert(analysis(ms).to_multiset().contains(all[0]));
        }
    }
    assert forall|a: int, b: int|
        0 <= a < b < ms.len() && is_active(ms, a) && is_active(ms, b) implies ms[a].trigger
        != ms[b].trigger by {
        if ms[a].trigger == ms[b].trigger {
            lemma_first_with_trigger_exists(ms, a);
            let c = choose|c: int| 0 <= c <= a && first_with_trigger(ms, c) && ms[c].trigger == ms[a].trigger;
            lemma_duplicate_conflicts_empty(ms, ms.len() as int, c);
            lemma_trigger_ids_two(ms, a, b);
        }
    }
}

/// Every conflict that `analyze` reports is blocking.
pub proof fn lemma_analysis_all_blocking(ms: Seq<MappingView>)
    ensures
        blocking_conflicts(ms) == analysis(ms),
{
    let all = duplicate_conflicts(ms, ms.len() as int) + cycle_conflicts(ms);
    lemma_duplicate_conflicts_blocking(ms, ms.len() as int);
    crate::hotkeys::conflicts::lemma_conflict_order_total();
    all.lemma_sort_by_ensures(crate::hotkeys::conflicts::conflict_order());
    assert forall|k: int| 0 <= k < all.len() implies is_blocking(#[trigger] all[k]) by {
        if k < duplicate_conflicts(ms, ms.len() as int).len() {
        } else {
            let c = cycle_conflicts(ms);
            assert(c[k - duplicate_conflicts(ms, ms.len() as int).len()] == all[k]);
        }
    }
    let sorted = analysis(ms);
    assert forall|k: int| 0 <= k < sorted.len() implies is_blocking(#[trigger] sorted[k]) by {
        assert(sorted.to_multiset().contains(sorted[k]));
        assert(all.to_multiset().contains(sorted[k]));
        assert(all.contains(sorted[k]));
    }
    lemma_filter_all(sorted);
}

proof fn lemma_duplicate_conflicts_blocking(ms: Seq<MappingView>, n: int)
    ensures
        forall|k: int| 0 <= k < duplicate_conflicts(ms, n).len() ==> is_blocking(
            #[trigger] duplicate_conflicts(ms, n)[k],
        ),
    decreases n,
{
    if n > 0 {
        lemma_duplicate_conflicts_blocking(ms, n - 1);
        let earlier = duplicate_conflicts(ms, n - 1);
        let d = duplicate_conflicts(ms, n);
        assert forall|k: int| 0 <= k < d.len() implies is_blocking(#[trigger] d[k]) by {
            if k < earlier.len() {
                assert(d[k] == earlier[k]);
            }
        }
    }
}

proof fn lemma_filter_all(s: Seq<ConflictView>)
    requires
        forall|k: int| 0 <= k < s.len() ==> is_blocking(#[trigger] s[k]),
    ensures
        s.filter(blocking_conflict()) == s,
    decreases s.len(),
{
    reveal(Seq::filter);
    if s.len() > 0 {
        lemma_filter_all(s.drop_last());
        assert(s.drop_last().push(s.last()) == s);
    }
}

/// Once compiled, the keymap answers each enabled mapping's trigger with that mapping's
/// identifier and action.
pub proof fn lemma_compiled_lookup_finds_enabled(ms: Seq<MappingView>, i: int)
    requires
        blocking_conflicts(ms).len() == 0,
        is_active(ms, i),
    ensures
        keymap_lookup(compiled_entries(ms), ms[i].trigger) == Some(entry_of(ms[i])),
{
    lemma_no_blocking_means_distinct_triggers(ms);
    broadcast use vstd::seq_lib::group_filter_ensures;
    let fl = ms.filter(enabled_mapping());
    let entries = compiled_entries(ms);
    assert(enabled_mapping()(ms[i]));
    assert(fl.contains(ms[i]));
    let k0 = choose|k: int| 0 <= k < fl.len() && fl[k] == ms[i];
    assert(entries.len() == fl.len());
    assert(entries[k0] == entry_pair()(fl[k0]));
    assert(entries[k0].0 == ms[i].trigger);
    assert(exists|k: int| 0 <= k < entries.len() && entries[k].0 == ms[i].trigger);
    assert forall|k: int| 0 <= k < entries.len() && entries[k].0 == ms[i].trigger implies entries[k].1
        == entry_of(ms[i]) by {
        assert(entries[k] == entry_pair()(fl[k]));
        assert(fl[k].trigger == ms[i].trigger);
        assert(enabled_mapping()(fl[k]));
        assert(fl.contains(fl[k]));
        ms.lemma_filter_contains_rev(enabled_mapping(), fl[k]);
        let j = choose|j: int| 0 <= j < ms.len() && ms[j] == fl[k];
        assert(is_active(ms, j));
        assert(j == i) by {
            if j < i {
                assert(ms[j].trigger != ms[i].trigger);
            } else if j > i {
                assert(ms[i].trigger != ms[j].trigger);
            }
        }
    }
}

/// The compiled keymap answers the trigger of every enabled mapping with that mapping's own
/// identifier and its own action, unchanged, whenever compilation succeeds: an emitting
/// mapping still emits its shortcut and a disabling mapping still swallows its key.
pub proof fn lemma_compiled_entry_keeps_the_mapping(ms: Seq<MappingView>, i: int)
    requires
        blocking_conflicts(ms).len() == 0,
        0 <= i < ms.len(),
        ms[i].enabled,
    ensures
        keymap_lookup(compiled_entries(ms), ms[i].trigger) matches Some(entry) && entry.mapping_id
            == ms[i].id && entry.action == ms[i].action,
{
    lemma_compiled_lookup_finds_enabled(ms, i);
}

} // verus!
