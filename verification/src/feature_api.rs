//! Typed metadata contracts for Qbit features.

use vstd::prelude::*;
use vstd::string::*;

use crate::text::{same_text, text_len};

verus! {

/// Reasons a feature identifier failed validation.
#[derive(Clone, Copy, Debug, PartialEq, Eq, Structural)]
pub enum FeatureIdError {
    MissingPrefix,
    EmptySlug,
    InvalidStart,
    TrailingHyphen,
    InvalidCharacter,
}

impl FeatureIdError {
    /// The human-readable explanation of the error.
    pub fn message(&self) -> (text: &'static str)
        ensures
            text@ == feature_id_error_message(*self),
    {
        match self {
            FeatureIdError::MissingPrefix => "feature id must start with `qbit.`",
            FeatureIdError::EmptySlug => "feature id slug cannot be empty",
            FeatureIdError::InvalidStart => "feature id slug must start with a lowercase ASCII letter",
            FeatureIdError::TrailingHyphen => "feature id slug cannot end with a hyphen",
            FeatureIdError::InvalidCharacter => "feature id slug may contain only lowercase ASCII letters, digits, and hyphens",
        }
    }
}

pub open spec fn feature_id_error_message(error: FeatureIdError) -> Seq<char> {
    match error {
        FeatureIdError::MissingPrefix => "feature id must start with `qbit.`"@,
        FeatureIdError::EmptySlug => "feature id slug cannot be empty"@,
        FeatureIdError::InvalidStart => "feature id slug must start with a lowercase ASCII letter"@,
        FeatureIdError::TrailingHyphen => "feature id slug cannot end with a hyphen"@,
        FeatureIdError::InvalidCharacter => "feature id slug may contain only lowercase ASCII letters, digits, and hyphens"@,
    }
}

/// The namespace every feature identifier starts with: `qbit.`.
pub open spec fn id_prefix() -> Seq<char> {
    seq!['q', 'b', 'i', 't', '.']
}

pub open spec fn has_id_prefix(text: Seq<char>) -> bool {
    text.len() >= 5 && text.subrange(0, 5) == id_prefix()
}

pub open spec fn is_slug_start(c: char) -> bool {
    'a' <= c && c <= 'z'
}

pub open spec fn is_slug_char(c: char) -> bool {
    is_slug_start(c) || ('0' <= c && c <= '9') || c == '-'
}

/// The first rule that `text` breaks, checked in the order prefix, empty slug, first slug
/// character, trailing hyphen, slug characters; `None` when `text` is a valid identifier.
pub open spec fn feature_id_check(text: Seq<char>) -> Option<FeatureIdError> {
    if !has_id_prefix(text) {
        Some(FeatureIdError::MissingPrefix)
    } else if text.len() == 5 {
        Some(FeatureIdError::EmptySlug)
    } else if !is_slug_start(text[5]) {
        Some(FeatureIdError::InvalidStart)
    } else if text.last() == '-' {
        Some(FeatureIdError::TrailingHyphen)
    } else if exists|i: int| 5 <= i < text.len() && !#[trigger] is_slug_char(text[i]) {
        Some(FeatureIdError::InvalidCharacter)
    } else {
        None
    }
}

/// Text of the form `qbit.<slug>`: the slug starts with a lowercase ASCII letter, holds only
/// lowercase ASCII letters, digits and hyphens, and does not end with a hyphen.
pub open spec fn valid_feature_id(text: Seq<char>) -> bool {
    feature_id_check(text) is None
}

/// A validated, namespaced identifier for a Qbit feature.
#[derive(Debug, PartialEq, Eq, Hash, PartialOrd, Ord)]
pub struct FeatureId(String);

impl View for FeatureId {
    type V = Seq<char>;

    closed spec fn view(&self) -> Seq<char> {
        self.0@
    }
}

fn slug_start(c: char) -> (b: bool)
    ensures
        b == is_slug_start(c),
{
    'a' <= c && c <= 'z'
}

fn slug_char(c: char) -> (b: bool)
    ensures
        b == is_slug_char(c),
{
    ('a' <= c && c <= 'z') || ('0' <= c && c <= '9') || c == '-'
}

impl FeatureId {
    /// The namespace every feature identifier starts with.
    pub const PREFIX: &'static str = "qbit.";

    #[verifier::type_invariant]
    closed spec fn inv(self) -> bool {
        valid_feature_id(self.0@)
    }

    /// Validates `value` against the `qbit.<slug>` form and reports the first rule it breaks.
    pub fn new(value: &str) -> (result: Result<FeatureId, FeatureIdError>)
        ensures
            match feature_id_check(value@) {
                Some(error) => result == Err::<FeatureId, FeatureIdError>(error),
                None => result matches Ok(id) && id@ == value@,
            },
    {
        let length = text_len(value);
        if length < 5 {
            return Err(FeatureIdError::MissingPrefix);
        }
        let prefix = value.substring_char(0, 5);
        if !same_text(prefix, FeatureId::PREFIX) {
            proof {
                reveal_strlit("qbit.");
                assert(value@.subrange(0, 5) != id_prefix()) by {
                    if value@.subrange(0, 5) == id_prefix() {
                        assert(prefix@ =~= "qbit."@);
                    }
                }
            }
            return Err(FeatureIdError::MissingPrefix);
        }
        proof {
            reveal_strlit("qbit.");
            assert(value@.subrange(0, 5) =~= id_prefix());
        }
        if length == 5 {
            return Err(FeatureIdError::EmptySlug);
        }
        if !slug_start(value.get_char(5)) {
            return Err(FeatureIdError::InvalidStart);
        }
        if value.get_char(length - 1) == '-' {
            return Err(FeatureIdError::TrailingHyphen);
        }
        let mut i: usize = 5;
        while i < length
            invariant
                5 <= i <= length,
                length == value@.len(),
                has_id_prefix(value@),
                length > 5,
                is_slug_start(value@[5]),
                value@.last() != '-',
                forall|j: int| 5 <= j < i ==> #[trigger] is_slug_char(value@[j]),
            decreases length - i,
        {
            if !slug_char(value.get_char(i)) {
                assert(!is_slug_char(value@[i as int]));
                return Err(FeatureIdError::InvalidCharacter);
            }
            i = i + 1;
        }
        Ok(FeatureId(value.to_owned()))
    }

    /// An identifier for text already known to be valid.
    pub(crate) fn from_valid(value: &str) -> (id: FeatureId)
        requires
            valid_feature_id(value@),
        ensures
            id@ == value@,
    {
        FeatureId(value.to_owned())
    }

    pub fn as_str(&self) -> (text: &str)
        ensures
            text@ == self@,
            valid_feature_id(text@),
    {
        proof {
            use_type_invariant(self);
        }
        self.0.as_str()
    }

    /// Returns an identifier with the same text.
    pub fn duplicate(&self) -> (copy: FeatureId)
        ensures
            copy@ == self@,
    {
        proof {
            use_type_invariant(self);
        }
        FeatureId(self.0.clone())
    }

    pub fn same_as(&self, other: &FeatureId) -> (same: bool)
        ensures
            same == (self@ == other@),
    {
        self.0 == other.0
    }
}

impl Clone for FeatureId {
    fn clone(&self) -> (copy: FeatureId)
        ensures
            copy@ == self@,
    {
        self.duplicate()
    }
}

impl AsRef<str> for FeatureId {
    fn as_ref(&self) -> (text: &str)
        ensures
            text@ == self@,
    {
        self.as_str()
    }
}

impl std::str::FromStr for FeatureId {
    type Err = FeatureIdError;

    fn from_str(value: &str) -> (result: Result<FeatureId, FeatureIdError>)
        ensures
            match feature_id_check(value@) {
                Some(error) => result == Err::<FeatureId, FeatureIdError>(error),
                None => result matches Ok(id) && id@ == value@,
            },
    {
        FeatureId::new(value)
    }
}

/// Operating systems on which a feature may be supported.
#[derive(Clone, Copy, Debug, PartialEq, Eq, Hash, Structural)]
pub enum SupportedPlatform {
    Windows,
    MacOs,
    Linux,
}

/// The execution environment a feature expects.
#[derive(Clone, Copy, Debug, PartialEq, Eq, Hash, Structural)]
pub enum RuntimeMode {
    EmbeddedBackground,
    EmbeddedOnDemand,
    IsolatedWorker,
}

/// When a feature should start.
#[derive(Clone, Copy, Debug, PartialEq, Eq, Hash, Structural)]
pub enum StartupPolicy {
    Manual,
    OnApplicationStart,
}

/// The observable lifecycle state of a feature.
#[derive(Clone, Copy, Debug, PartialEq, Eq, Hash, Structural)]
pub enum FeatureLifecycleState {
    Unavailable,
    Disabled,
    Starting,
    Running,
    Degraded,
    Stopping,
    Failed,
}

/// A declarative capability required by a feature.
#[derive(Clone, Copy, Debug, PartialEq, Eq, Hash)]
pub struct CapabilityRequirement {
    pub name: &'static str,
    pub required: bool,
}

/// The architecture-defined class of storage a feature may require.
#[derive(Clone, Copy, Debug, PartialEq, Eq, Hash, Structural)]
pub enum StorageClass {
    CoreRelationalState,
    FeatureRelationalState,
    FeatureBlobData,
    Cache,
    Secrets,
}

/// A declarative storage need for a feature.
#[derive(Clone, Copy, Debug, PartialEq, Eq, Hash)]
pub struct StorageRequirement {
    pub class: StorageClass,
    pub required: bool,
    pub purpose: &'static str,
}

/// Version metadata for a feature implementation and its persisted schema.
#[derive(Clone, Copy, Debug, PartialEq, Eq, Hash)]
pub struct FeatureVersion {
    pub implementation: &'static str,
    pub schema: Option<u32>,
}

/// The degree to which a feature needs background execution.
#[derive(Clone, Copy, Debug, PartialEq, Eq, Hash, Structural)]
pub enum BackgroundRequirement {
    /// No background execution.
    Never,
    OnDemand,
    Continuous,
}

/// The kind of contract a feature dependency represents.
#[derive(Clone, Copy, Debug, PartialEq, Eq, Hash, Structural)]
pub enum FeatureDependencyKind {
    CoreCapability,
    FeatureContract,
}

/// A contract or capability required by a feature.
#[derive(Clone, Copy, Debug, PartialEq, Eq, Hash)]
pub struct FeatureDependency {
    pub kind: FeatureDependencyKind,
    pub id: &'static str,
}

/// UI integration metadata for a feature.
#[derive(Clone, Copy, Debug, PartialEq, Eq, Hash)]
pub struct FeatureUiMetadata {
    pub route: &'static str,
}

/// Diagnostics integration metadata for a feature.
#[derive(Clone, Copy, Debug, PartialEq, Eq, Hash)]
pub struct FeatureDiagnosticsMetadata {
    pub component: &'static str,
}

/// Static metadata describing a feature and its runtime requirements.
#[derive(Debug, PartialEq, Eq)]
pub struct FeatureDescriptor {
    pub id: FeatureId,
    pub display_name_key: &'static str,
    pub description_key: &'static str,
    pub version: Option<FeatureVersion>,
    pub supported_platforms: &'static [SupportedPlatform],
    pub runtime_mode: RuntimeMode,
    pub startup_policy: StartupPolicy,
    pub capabilities: &'static [CapabilityRequirement],
    pub storage: &'static [StorageRequirement],
    pub background_requirement: BackgroundRequirement,
    pub dependencies: &'static [FeatureDependency],
    pub ui: Option<FeatureUiMetadata>,
    pub diagnostics: FeatureDiagnosticsMetadata,
}

/// Some capability in `capabilities` is required and named `name`.
pub open spec fn requires_named(capabilities: Seq<CapabilityRequirement>, name: Seq<char>) -> bool {
    exists|i: int|
        0 <= i < capabilities.len() && #[trigger] capabilities[i].required && capabilities[i].name@
            == name
}

impl FeatureDescriptor {
    /// Whether `platform` is among the supported platforms.
    pub fn supports(&self, platform: SupportedPlatform) -> (supported: bool)
        ensures
            supported == self.supported_platforms@.contains(platform),
    {
        let platforms = self.supported_platforms;
        let mut i: usize = 0;
        while i < platforms.len()
            invariant
                0 <= i <= platforms@.len(),
                platforms == self.supported_platforms,
                forall|j: int| 0 <= j < i ==> platforms@[j] != platform,
            decreases platforms@.len() - i,
        {
            if platforms[i] == platform {
                assert(platforms@[i as int] == platform);
                return true;
            }
            i = i + 1;
        }
        false
    }

    /// Whether a capability named `name` is declared as required.
    pub fn requires_capability(&self, name: &str) -> (required: bool)
        ensures
            required == requires_named(self.capabilities@, name@),
    {
        let capabilities = self.capabilities;
        let mut i: usize = 0;
        while i < capabilities.len()
            invariant
                0 <= i <= capabilities@.len(),
                capabilities == self.capabilities,
                forall|j: int|
                    0 <= j < i ==> !(#[trigger] capabilities@[j].required && capabilities@[j].name@
                        == name@),
            decreases capabilities@.len() - i,
        {
            let capability = capabilities[i];
            if capability.required && same_text(capability.name, name) {
                assert(capabilities@[i as int].required && capabilities@[i as int].name@ == name@);
                return true;
            }
            i = i + 1;
        }
        false
    }

    /// Returns a descriptor with the same metadata.
    pub fn duplicate(&self) -> (copy: FeatureDescriptor)
        ensures
            copy.id@ == self.id@,
            copy.display_name_key == self.display_name_key,
            copy.description_key == self.description_key,
            copy.version == self.version,
            copy.supported_platforms == self.supported_platforms,
            copy.runtime_mode == self.runtime_mode,
            copy.startup_policy == self.startup_policy,
            copy.capabilities == self.capabilities,
            copy.storage == self.storage,
            copy.background_requirement == self.background_requirement,
            copy.dependencies == self.dependencies,
            copy.ui == self.ui,
            copy.diagnostics == self.diagnostics,
    {
        FeatureDescriptor {
            id: self.id.duplicate(),
            display_name_key: self.display_name_key,
            description_key: self.description_key,
            version: self.version,
            supported_platforms: self.supported_platforms,
            runtime_mode: self.runtime_mode,
            startup_policy: self.startup_policy,
            capabilities: self.capabilities,
            storage: self.storage,
            background_requirement: self.background_requirement,
            dependencies: self.dependencies,
            ui: self.ui,
            diagnostics: self.diagnostics,
        }
    }
}

impl Clone for FeatureDescriptor {
    fn clone(&self) -> (copy: FeatureDescriptor)
        ensures
            copy.id@ == self.id@,
    {
        self.duplicate()
    }
}

/// A feature identifier is accepted exactly when it is `qbit.` followed by a slug that starts
/// with a lowercase ASCII letter, holds only lowercase ASCII letters, digits and hyphens, and
/// does not end with a hyphen.
pub proof fn lemma_feature_id_form(slug: Seq<char>)
    ensures
        valid_feature_id(seq!['q', 'b', 'i', 't', '.'] + slug) <==> {
            &&& slug.len() > 0
            &&& 'a' <= slug[0] <= 'z'
            &&& slug.last() != '-'
            &&& forall|i: int|
                0 <= i < slug.len() ==> ('a' <= #[trigger] slug[i] <= 'z') || ('0' <= slug[i]
                    <= '9') || slug[i] == '-'
        },
{
    let text = seq!['q', 'b', 'i', 't', '.'] + slug;
    assert(text.subrange(0, 5) =~= id_prefix());
    assert(has_id_prefix(text));
    assert forall|i: int| 0 <= i < slug.len() implies text[i + 5] == slug[i] by {}
    if slug.len() > 0 {
        assert(text[5] == slug[0]);
        assert(text.last() == slug.last());
    }
    if valid_feature_id(text) && slug.len() > 0 {
        assert forall|i: int| 0 <= i < slug.len() implies ('a' <= #[trigger] slug[i] <= 'z') || (
        '0' <= slug[i] <= '9') || slug[i] == '-' by {
            assert(is_slug_char(text[i + 5]));
        }
    }
    if slug.len() > 0 && 'a' <= slug[0] <= 'z' && slug.last() != '-' && (forall|i: int|
        0 <= i < slug.len() ==> ('a' <= #[trigger] slug[i] <= 'z') || ('0' <= slug[i] <= '9')
            || slug[i] == '-') {
        assert forall|i: int| 5 <= i < text.len() implies #[trigger] is_slug_char(text[i]) by {
            assert(text[i] == slug[i - 5]);
        }
    }
}

} // verus!
