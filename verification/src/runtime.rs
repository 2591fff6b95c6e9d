//! In-process registration and lifecycle tracking for compile-time features.

use vstd::prelude::*;
use vstd::string::*;

use crate::feature_api::{
    FeatureDescriptor, FeatureId, FeatureLifecycleState, RuntimeMode, StartupPolicy,
};

verus! {

/// A core-owned request to activate a feature surface.
#[derive(Clone, Copy, Debug, PartialEq, Eq, Structural)]
pub enum ActivationIntent {
    OpenControlWindow,
}

/// The mathematical content of a [`FeatureSummary`].
pub struct SummaryView {
    pub id: Seq<char>,
    pub display_name_key: Seq<char>,
    pub description_key: Seq<char>,
    pub runtime_mode: RuntimeMode,
    pub startup_policy: StartupPolicy,
    pub lifecycle_state: FeatureLifecycleState,
}

/// A stable, display-safe projection of a registered feature and its current status.
#[derive(Debug, PartialEq, Eq)]
pub struct FeatureSummary {
    pub id: FeatureId,
    pub display_name_key: &'static str,
    pub description_key: &'static str,
    pub runtime_mode: RuntimeMode,
    pub startup_policy: StartupPolicy,
    pub lifecycle_state: FeatureLifecycleState,
}

impl View for FeatureSummary {
    type V = SummaryView;

    open spec fn view(&self) -> SummaryView {
        SummaryView {
            id: self.id@,
            display_name_key: self.display_name_key@,
            description_key: self.description_key@,
            runtime_mode: self.runtime_mode,
            startup_policy: self.startup_policy,
            lifecycle_state: self.lifecycle_state,
        }
    }
}

impl Clone for FeatureSummary {
    fn clone(&self) -> (copy: FeatureSummary)
        ensures
            copy@ == self@,
    {
        FeatureSummary {
            id: self.id.duplicate(),
            display_name_key: self.display_name_key,
            description_key: self.description_key,
            runtime_mode: self.runtime_mode,
            startup_policy: self.startup_policy,
            lifecycle_state: self.lifecycle_state,
        }
    }
}

/// The summary of `descriptor` registered in `state`.
pub open spec fn summary_of(descriptor: FeatureDescriptor, state: FeatureLifecycleState) -> SummaryView {
    SummaryView {
        id: descriptor.id@,
        display_name_key: descriptor.display_name_key@,
        description_key: descriptor.description_key@,
        runtime_mode: descriptor.runtime_mode,
        startup_policy: descriptor.startup_policy,
        lifecycle_state: state,
    }
}

#[derive(Debug)]
struct FeatureEntry {
    descriptor: FeatureDescriptor,
    state: FeatureLifecycleState,
}

impl FeatureSummary {
    fn from_entry(entry: &FeatureEntry) -> (summary: FeatureSummary)
        ensures
            summary@ == summary_of(entry.descriptor, entry.state),
    {
        FeatureSummary {
            id: entry.descriptor.id.duplicate(),
            display_name_key: entry.descriptor.display_name_key,
            description_key: entry.descriptor.description_key,
            runtime_mode: entry.descriptor.runtime_mode,
            startup_policy: entry.descriptor.startup_policy,
            lifecycle_state: entry.state,
        }
    }
}

/// Errors raised while registering feature metadata.
#[derive(Clone, Debug, PartialEq, Eq)]
pub enum RegistrationError {
    DuplicateFeatureId { id: FeatureId },
    InvalidInitialState { state: FeatureLifecycleState },
}

/// Errors raised while updating a feature lifecycle state.
#[derive(Clone, Debug, PartialEq, Eq)]
pub enum FeatureStateError {
    UnknownFeature { id: FeatureId },
}

/// The name of a lifecycle state as it appears in messages.
pub open spec fn lifecycle_state_name(state: FeatureLifecycleState) -> Seq<char> {
    match state {
        FeatureLifecycleState::Unavailable => "Unavailable"@,
        FeatureLifecycleState::Disabled => "Disabled"@,
        FeatureLifecycleState::Starting => "Starting"@,
        FeatureLifecycleState::Running => "Running"@,
        FeatureLifecycleState::Degraded => "Degraded"@,
        FeatureLifecycleState::Stopping => "Stopping"@,
        FeatureLifecycleState::Failed => "Failed"@,
    }
}

fn state_name(state: FeatureLifecycleState) -> (name: &'static str)
    ensures
        name@ == lifecycle_state_name(state),
{
    match state {
        FeatureLifecycleState::Unavailable => "Unavailable",
        FeatureLifecycleState::Disabled => "Disabled",
        FeatureLifecycleState::Starting => "Starting",
        FeatureLifecycleState::Running => "Running",
        FeatureLifecycleState::Degraded => "Degraded",
        FeatureLifecycleState::Stopping => "Stopping",
        FeatureLifecycleState::Failed => "Failed",
    }
}

impl RegistrationError {
    /// The human-readable explanation of the error.
    pub fn message(&self) -> (text: String)
        ensures
            match self {
                RegistrationError::DuplicateFeatureId { id } => text@ == "feature `"@ + id@
                    + "` is already registered"@,
                RegistrationError::InvalidInitialState { state } => text@
                    == "feature cannot be registered in initial state "@ + lifecycle_state_name(
                    *state,
                ),
            },
    {
        match self {
            RegistrationError::DuplicateFeatureId { id } => {
                let mut text = String::from_str("feature `");
                text.append(id.as_str());
                text.append("` is already registered");
                text
            },
            RegistrationError::InvalidInitialState { state } => {
                let mut text = String::from_str("feature cannot be registered in initial state ");
                text.append(state_name(*state));
                text
            },
        }
    }
}

impl FeatureStateError {
    /// The human-readable explanation of the error.
    pub fn message(&self) -> (text: String)
        ensures
            match self {
                FeatureStateError::UnknownFeature { id } => text@ == "feature `"@ + id@
                    + "` is not registered"@,
            },
    {
        match self {
            FeatureStateError::UnknownFeature { id } => {
                let mut text = String::from_str("feature `");
                text.append(id.as_str());
                text.append("` is not registered");
                text
            },
        }
    }
}

/// No two summaries share an identifier.
pub open spec fn distinct_ids(s: Seq<SummaryView>) -> bool {
    forall|i: int, j: int| 0 <= i < j < s.len() ==> #[trigger] s[i].id != #[trigger] s[j].id
}

/// Some summary in `s` has identifier `id`.
pub open spec fn registered(s: Seq<SummaryView>, id: Seq<char>) -> bool {
    exists|i: int| 0 <= i < s.len() && #[trigger] s[i].id == id
}

/// The summary with identifier `id`, if any.
pub open spec fn lookup(s: Seq<SummaryView>, id: Seq<char>) -> Option<SummaryView> {
    if registered(s, id) {
        Some(s[choose|i: int| 0 <= i < s.len() && #[trigger] s[i].id == id])
    } else {
        None
    }
}

/// `s` with the lifecycle state of the summary identified by `id` set to `state`.
pub open spec fn with_state(s: Seq<SummaryView>, id: Seq<char>, state: FeatureLifecycleState) -> Seq<
    SummaryView,
> {
    s.map_values(
        |v: SummaryView|
            if v.id == id {
                SummaryView { lifecycle_state: state, ..v }
            } else {
                v
            },
    )
}

/// The states in which a feature may be registered.
pub open spec fn valid_initial_state(state: FeatureLifecycleState) -> bool {
    state == FeatureLifecycleState::Disabled || state == FeatureLifecycleState::Unavailable
}

/// An ordered registry of feature metadata and independently managed lifecycle state.
#[derive(Debug)]
pub struct FeatureRegistry {
    entries: Vec<FeatureEntry>,
}

impl View for FeatureRegistry {
    type V = Seq<SummaryView>;

    /// The summaries of the registered features, in registration order.
    closed spec fn view(&self) -> Seq<SummaryView> {
        self.entries@.map_values(|e: FeatureEntry| summary_of(e.descriptor, e.state))
    }
}

impl FeatureRegistry {
    #[verifier::type_invariant]
    closed spec fn inv(self) -> bool {
        distinct_ids(self@)
    }

    pub fn new() -> (registry: FeatureRegistry)
        ensures
            registry@ == Seq::<SummaryView>::empty(),
    {
        let registry = FeatureRegistry { entries: Vec::new() };
        assert(registry@ =~= Seq::<SummaryView>::empty());
        registry
    }

    pub fn is_empty(&self) -> (empty: bool)
        ensures
            empty == (self@.len() == 0),
    {
        self.entries.len() == 0
    }

    pub fn len(&self) -> (length: usize)
        ensures
            length == self@.len(),
    {
        self.entries.len()
    }

    fn position(&self, id: &FeatureId) -> (found: Option<usize>)
        ensures
            match found {
                Some(i) => i < self@.len() && self@[i as int].id == id@ && lookup(self@, id@)
                    == Some(self@[i as int]),
                None => !registered(self@, id@) && lookup(self@, id@) is None,
            },
    {
        proof {
            use_type_invariant(self);
        }
        let mut i: usize = 0;
        while i < self.entries.len()
            invariant
                0 <= i <= self.entries@.len(),
                self@.len() == self.entries@.len(),
                distinct_ids(self@),
                forall|j: int| 0 <= j < i ==> #[trigger] self@[j].id != id@,
            decreases self.entries@.len() - i,
        {
            if self.entries[i].descriptor.id.same_as(id) {
                proof {
                    assert(self@[i as int].id == id@);
                    let k = choose|k: int| 0 <= k < self@.len() && #[trigger] self@[k].id == id@;
                    assert(k == i) by {
                        if k < i {
                            assert(self@[k].id != self@[i as int].id);
                        } else if k > i {
                            assert(self@[i as int].id != self@[k].id);
                        }
                    }
                }
                return Some(i);
            }
            i = i + 1;
        }
        None
    }

    /// Registers a feature in the disabled state.
    pub fn register(&mut self, descriptor: FeatureDescriptor) -> (result: Result<(), RegistrationError>)
        ensures
            registered(old(self)@, descriptor.id@) ==> (result matches Err(
                RegistrationError::DuplicateFeatureId { id },
            ) && id@ == descriptor.id@) && final(self)@ == old(self)@,
            !registered(old(self)@, descriptor.id@) ==> result is Ok && final(self)@ == old(
                self,
            )@.push(summary_of(descriptor, FeatureLifecycleState::Disabled)),
    {
        self.register_with_state(descriptor, FeatureLifecycleState::Disabled)
    }

    /// Registers a feature with an explicitly resolved initial availability state.
    pub fn register_with_state(
        &mut self,
        descriptor: FeatureDescriptor,
        initial_state: FeatureLifecycleState,
    ) -> (result: Result<(), RegistrationError>)
        ensures
            !valid_initial_state(initial_state) ==> result == Err::<(), RegistrationError>(
                RegistrationError::InvalidInitialState { state: initial_state },
            ) && final(self)@ == old(self)@,
            valid_initial_state(initial_state) && registered(old(self)@, descriptor.id@) ==> (
            result matches Err(RegistrationError::DuplicateFeatureId { id }) && id@
                == descriptor.id@) && final(self)@ == old(self)@,
            valid_initial_state(initial_state) && !registered(old(self)@, descriptor.id@)
                ==> result is Ok && final(self)@ == old(self)@.push(
                summary_of(descriptor, initial_state),
            ),
    {
        proof {
            use_type_invariant(&*self);
        }
        if !(initial_state == FeatureLifecycleState::Disabled || initial_state
            == FeatureLifecycleState::Unavailable) {
            return Err(RegistrationError::InvalidInitialState { state: initial_state });
        }
        match self.position(&descriptor.id) {
            Some(_) => {
                let id = descriptor.id.duplicate();
                Err(RegistrationError::DuplicateFeatureId { id })
            },
            None => {
                let ghost before = self@;
                let entry = FeatureEntry { descriptor, state: initial_state };
                let mut entries = Vec::new();
                std::mem::swap(&mut entries, &mut self.entries);
                entries.push(entry);
                proof {
                    let after = entries@.map_values(
                        |e: FeatureEntry| summary_of(e.descriptor, e.state),
                    );
                    assert(after =~= before.push(summary_of(descriptor, initial_state)));
                    assert forall|i: int, j: int| 0 <= i < j < after.len() implies #[trigger] after[i].id
                        != #[trigger] after[j].id by {
                        if j == after.len() - 1 {
                            assert(before[i].id == after[i].id);
                        }
                    }
                }
                self.entries = entries;
                Ok(())
            },
        }
    }

    /// The summary of the feature identified by `id`, if it is registered.
    pub fn summary(&self, id: &FeatureId) -> (summary: Option<FeatureSummary>)
        ensures
            match lookup(self@, id@) {
                Some(v) => summary matches Some(s) && s@ == v,
                None => summary is None,
            },
    {
        match self.position(id) {
            Some(i) => Some(FeatureSummary::from_entry(&self.entries[i])),
            None => None,
        }
    }

    /// Returns summaries in deterministic registration order.
    pub fn summaries(&self) -> (summaries: Vec<FeatureSummary>)
        ensures
            summaries@.len() == self@.len(),
            forall|i: int| 0 <= i < self@.len() ==> #[trigger] summaries@[i]@ == self@[i],
    {
        let mut summaries: Vec<FeatureSummary> = Vec::new();
        let mut i: usize = 0;
        while i < self.entries.len()
            invariant
                0 <= i <= self.entries@.len(),
                self@.len() == self.entries@.len(),
                summaries@.len() == i,
                forall|j: int| 0 <= j < i ==> #[trigger] summaries@[j]@ == self@[j],
            decreases self.entries@.len() - i,
        {
            summaries.push(FeatureSummary::from_entry(&self.entries[i]));
            i = i + 1;
        }
        summaries
    }

    /// The lifecycle state of the feature identified by `id`, if it is registered.
    pub fn lifecycle_state(&self, id: &FeatureId) -> (state: Option<FeatureLifecycleState>)
        ensures
            match lookup(self@, id@) {
                Some(v) => state == Some(v.lifecycle_state),
                None => state is None,
            },
    {
        match self.position(id) {
            Some(i) => Some(self.entries[i].state),
            None => None,
        }
    }

    /// Updates a registered feature's lifecycle state; any state may follow any other.
    pub fn set_lifecycle_state(&mut self, id: &FeatureId, state: FeatureLifecycleState) -> (result:
        Result<(), FeatureStateError>)
        ensures
            registered(old(self)@, id@) ==> result is Ok && final(self)@ == with_state(
                old(self)@,
                id@,
                state,
            ),
            !registered(old(self)@, id@) ==> (result matches Err(
                FeatureStateError::UnknownFeature { id: unknown },
            ) && unknown@ == id@) && final(self)@ == old(self)@,
    {
        proof {
            use_type_invariant(&*self);
        }
        match self.position(id) {
            Some(i) => {
                let ghost before = self@;
                let mut entries = Vec::new();
                std::mem::swap(&mut entries, &mut self.entries);
                let mut entry = entries.remove(i);
                entry.state = state;
                entries.insert(i, entry);
                proof {
                    let after = entries@.map_values(
                        |e: FeatureEntry| summary_of(e.descriptor, e.state),
                    );
                    assert forall|k: int| 0 <= k < before.len() implies #[trigger] after[k]
                        == with_state(before, id@, state)[k] by {
                        if k != i {
                            assert(before[k].id != before[i as int].id);
                        }
                    }
                    assert(after =~= with_state(before, id@, state));
                    assert forall|a: int, b: int| 0 <= a < b < after.len() implies #[trigger] after[a].id
                        != #[trigger] after[b].id by {
                        assert(before[a].id != before[b].id);
                    }
                }
                self.entries = entries;
                Ok(())
            },
            None => Err(FeatureStateError::UnknownFeature { id: id.duplicate() }),
        }
    }
}

impl Default for FeatureRegistry {
    fn default() -> (registry: FeatureRegistry)
        ensures
            registry@ == Seq::<SummaryView>::empty(),
    {
        FeatureRegistry::new()
    }
}

/// Reading a feature back after setting its state gives the new state and leaves every
/// other feature's summary as it was.
pub proof fn lemma_set_state_then_read(
    s: Seq<SummaryView>,
    id: Seq<char>,
    state: FeatureLifecycleState,
    other: Seq<char>,
)
    requires
        distinct_ids(s),
        registered(s, id),
    ensures
        distinct_ids(with_state(s, id, state)),
        lookup(with_state(s, id, state), id) == Some(
            SummaryView { lifecycle_state: state, ..lookup(s, id).unwrap() },
        ),
        other != id ==> lookup(with_state(s, id, state), other) == lookup(s, other),
        with_state(s, id, state).len() == s.len(),
{
    let t = with_state(s, id, state);
    let i = choose|i: int| 0 <= i < s.len() && #[trigger] s[i].id == id;
    assert(t[i].id == id);
    let k = choose|k: int| 0 <= k < t.len() && #[trigger] t[k].id == id;
    assert(k == i) by {
        if k != i {
            assert(s[k].id == t[k].id);
        }
    }
    if other != id {
        if registered(s, other) {
            let a = choose|a: int| 0 <= a < s.len() && #[trigger] s[a].id == other;
            assert(t[a].id == other);
            let b = choose|b: int| 0 <= b < t.len() && #[trigger] t[b].id == other;
            assert(s[b].id == t[b].id);
            assert(a == b) by {
                if a < b {
                    assert(s[a].id != s[b].id);
                } else if a > b {
                    assert(s[b].id != s[a].id);
                }
            }
        } else {
            assert forall|b: int| 0 <= b < t.len() implies #[trigger] t[b].id != other by {
                assert(s[b].id == t[b].id);
            }
        }
    }
}

/// A newly registered feature is found under its identifier with the registered summary,
/// and every earlier feature is found as before.
pub proof fn lemma_register_then_read(s: Seq<SummaryView>, v: SummaryView, other: Seq<char>)
    requires
        distinct_ids(s),
        !registered(s, v.id),
    ensures
        distinct_ids(s.push(v)),
        lookup(s.push(v), v.id) == Some(v),
        other != v.id ==> lookup(s.push(v), other) == lookup(s, other),
{
    let t = s.push(v);
    assert(t[s.len() as int].id == v.id);
    assert forall|i: int, j: int| 0 <= i < j < t.len() implies #[trigger] t[i].id
        != #[trigger] t[j].id by {
        if j == s.len() {
            assert(t[i].id == s[i].id);
        } else {
            assert(t[i] == s[i] && t[j] == s[j]);
        }
    }
    let k = choose|k: int| 0 <= k < t.len() && #[trigger] t[k].id == v.id;
    assert(k == s.len()) by {
        if k < s.len() {
            assert(t[k] == s[k]);
        }
    }
    if other != v.id {
        if registered(s, other) {
            let a = choose|a: int| 0 <= a < s.len() && #[trigger] s[a].id == other;
            assert(t[a] == s[a]);
            let b = choose|b: int| 0 <= b < t.len() && #[trigger] t[b].id == other;
            assert(b < s.len());
            assert(t[b] == s[b]);
            assert(a == b) by {
                if a < b {
                    assert(s[a].id != s[b].id);
                } else if a > b {
                    assert(s[b].id != s[a].id);
                }
            }
        } else {
            assert forall|b: int| 0 <= b < t.len() implies #[trigger] t[b].id != other by {
                if b < s.len() {
                    assert(t[b] == s[b]);
                }
            }
        }
    }
}

} // verus!
