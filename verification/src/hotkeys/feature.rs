//! The Hotkeys feature's static metadata.

use vstd::prelude::*;
use vstd::string::*;

use crate::feature_api::{
    feature_id_check, id_prefix, is_slug_char, BackgroundRequirement, CapabilityRequirement,
    FeatureDescriptor, FeatureDiagnosticsMetadata, FeatureId, FeatureUiMetadata, FeatureVersion,
    RuntimeMode, StartupPolicy, StorageClass, StorageRequirement, SupportedPlatform,
};

verus! {

/// The Hotkeys feature identifier.
pub const FEATURE_ID: &'static str = "qbit.hotkeys";

/// The version of the Hotkeys feature's persisted schema.
pub const FEATURE_SCHEMA_VERSION: u32 = 1;

/// The version of this implementation of the Hotkeys feature.
pub const IMPLEMENTATION_VERSION: &'static str = "0.1.0";

/// Static metadata only; host registration is deliberately deferred.
pub fn descriptor() -> (descriptor: FeatureDescriptor)
    ensures
        descriptor.id@ == FEATURE_ID@,
        descriptor.display_name_key@ == "features.hotkeys.name"@,
        descriptor.description_key@ == "features.hotkeys.description"@,
        descriptor.version matches Some(v) && v.implementation@ == IMPLEMENTATION_VERSION@
            && v.schema == Some(FEATURE_SCHEMA_VERSION),
        descriptor.supported_platforms@ == seq![SupportedPlatform::Windows],
        descriptor.runtime_mode == RuntimeMode::EmbeddedBackground,
        descriptor.startup_policy == StartupPolicy::OnApplicationStart,
        descriptor.capabilities@.len() == 2,
        descriptor.capabilities@[0].name@ == "keyboard.global-interception"@,
        descriptor.capabilities@[0].required,
        descriptor.capabilities@[1].name@ == "input.emission"@,
        descriptor.capabilities@[1].required,
        descriptor.storage@.len() == 1,
        descriptor.storage@[0].class == StorageClass::FeatureRelationalState,
        descriptor.storage@[0].required,
        descriptor.storage@[0].purpose@ == "hotkey mappings and settings"@,
        descriptor.background_requirement == BackgroundRequirement::Continuous,
        descriptor.dependencies@.len() == 0,
        descriptor.ui matches Some(ui) && ui.route@ == "/features/hotkeys"@,
        descriptor.diagnostics.component@ == "feature.hotkeys"@,
{
    proof {
        reveal_strlit("qbit.hotkeys");
        let text = FEATURE_ID@;
        assert(text.subrange(0, 5) =~= id_prefix());
        assert forall|i: int| 5 <= i < text.len() implies #[trigger] is_slug_char(text[i]) by {}
        assert(feature_id_check(text) is None);
    }
    let supported_platforms: &'static [SupportedPlatform] = &[SupportedPlatform::Windows];
    let capabilities: &'static [CapabilityRequirement] = &[
        CapabilityRequirement { name: "keyboard.global-interception", required: true },
        CapabilityRequirement { name: "input.emission", required: true },
    ];
    let storage: &'static [StorageRequirement] = &[
        StorageRequirement {
            class: StorageClass::FeatureRelationalState,
            required: true,
            purpose: "hotkey mappings and settings",
        },
    ];
    let dependencies: &'static [crate::feature_api::FeatureDependency] = &[];
    let descriptor = FeatureDescriptor {
        id: FeatureId::from_valid(FEATURE_ID),
        display_name_key: "features.hotkeys.name",
        description_key: "features.hotkeys.description",
        version: Some(
            FeatureVersion {
                implementation: IMPLEMENTATION_VERSION,
                schema: Some(FEATURE_SCHEMA_VERSION),
            },
        ),
        supported_platforms,
        runtime_mode: RuntimeMode::EmbeddedBackground,
        startup_policy: StartupPolicy::OnApplicationStart,
        capabilities,
        storage,
        background_requirement: BackgroundRequirement::Continuous,
        dependencies,
        ui: Some(FeatureUiMetadata { route: "/features/hotkeys" }),
        diagnostics: FeatureDiagnosticsMetadata { component: "feature.hotkeys" },
    };
    assert(descriptor.supported_platforms@ =~= seq![SupportedPlatform::Windows]);
    descriptor
}

} // verus!
