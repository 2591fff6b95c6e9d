use qbit_toolbox::feature_api::{
    BackgroundRequirement, CapabilityRequirement, FeatureDependency, FeatureDependencyKind,
    FeatureDescriptor, FeatureDiagnosticsMetadata, FeatureId, FeatureLifecycleState,
    FeatureUiMetadata, FeatureVersion, RuntimeMode, StartupPolicy, StorageClass,
    StorageRequirement, SupportedPlatform,
};
use qbit_toolbox::runtime::{
    ActivationIntent, FeatureRegistry, FeatureStateError, FeatureSummary, RegistrationError,
};

fn descriptor(id: &str) -> FeatureDescriptor {
    FeatureDescriptor {
        id: FeatureId::new(id).unwrap(),
        display_name_key: "features.example.display-name",
        description_key: "features.example.description",
        version: Some(FeatureVersion {
            implementation: "1.0.0",
            schema: Some(1),
        }),
        supported_platforms: &[SupportedPlatform::Windows],
        runtime_mode: RuntimeMode::EmbeddedBackground,
        startup_policy: StartupPolicy::Manual,
        capabilities: &[CapabilityRequirement {
            name: "test",
            required: false,
        }],
        storage: &[StorageRequirement {
            class: StorageClass::Cache,
            required: false,
            purpose: "test data",
        }],
        background_requirement: BackgroundRequirement::OnDemand,
        dependencies: &[FeatureDependency {
            kind: FeatureDependencyKind::CoreCapability,
            id: "test",
        }],
        ui: Some(FeatureUiMetadata {
            route: "/features/example",
        }),
        diagnostics: FeatureDiagnosticsMetadata {
            component: "feature.example",
        },
    }
}

#[test]
fn empty_registry_is_valid() {
    let registry = FeatureRegistry::new();
    assert!(registry.is_empty());
    assert_eq!(registry.len(), 0);
    assert!(registry.summaries().is_empty());
}

#[test]
fn duplicate_registration_has_a_typed_error() {
    let mut registry = FeatureRegistry::new();
    registry.register(descriptor("qbit.example")).unwrap();

    assert_eq!(
        registry.register(descriptor("qbit.example")),
        Err(RegistrationError::DuplicateFeatureId {
            id: FeatureId::new("qbit.example").unwrap(),
        })
    );
}

#[test]
fn active_initial_state_is_rejected_without_mutating_the_registry() {
    let mut registry = FeatureRegistry::new();

    assert_eq!(
        registry.register_with_state(descriptor("qbit.example"), FeatureLifecycleState::Running),
        Err(RegistrationError::InvalidInitialState {
            state: FeatureLifecycleState::Running
        })
    );
    assert!(registry.is_empty());
}

#[test]
fn summaries_preserve_registration_order() {
    let mut registry = FeatureRegistry::new();
    registry.register(descriptor("qbit.first")).unwrap();
    registry.register(descriptor("qbit.second")).unwrap();

    let ids: Vec<_> = registry
        .summaries()
        .into_iter()
        .map(|summary| summary.id)
        .collect();
    assert_eq!(
        ids,
        vec![
            FeatureId::new("qbit.first").unwrap(),
            FeatureId::new("qbit.second").unwrap()
        ]
    );
}

#[test]
fn summary_preserves_localization_keys() {
    let mut registry = FeatureRegistry::new();
    let id = FeatureId::new("qbit.example").unwrap();
    registry.register(descriptor("qbit.example")).unwrap();

    assert_eq!(
        registry.summary(&id),
        Some(FeatureSummary {
            id,
            display_name_key: "features.example.display-name",
            description_key: "features.example.description",
            runtime_mode: RuntimeMode::EmbeddedBackground,
            startup_policy: StartupPolicy::Manual,
            lifecycle_state: FeatureLifecycleState::Disabled,
        })
    );
}

#[test]
fn open_control_window_is_a_stable_typed_activation_intent() {
    assert_eq!(
        ActivationIntent::OpenControlWindow,
        ActivationIntent::OpenControlWindow
    );
}

#[test]
fn lifecycle_state_can_be_updated_without_transition_policy() {
    let mut registry = FeatureRegistry::new();
    let id = FeatureId::new("qbit.example").unwrap();
    registry.register(descriptor("qbit.example")).unwrap();
    registry
        .set_lifecycle_state(&id, FeatureLifecycleState::Running)
        .unwrap();
    assert_eq!(
        registry.lifecycle_state(&id),
        Some(FeatureLifecycleState::Running)
    );
}

#[test]
fn unknown_feature_state_update_does_not_mutate_registry() {
    let mut registry = FeatureRegistry::new();
    registry.register(descriptor("qbit.example")).unwrap();
    let unknown_id = FeatureId::new("qbit.unknown").unwrap();

    assert_eq!(
        registry.set_lifecycle_state(&unknown_id, FeatureLifecycleState::Running),
        Err(FeatureStateError::UnknownFeature { id: unknown_id })
    );
    assert_eq!(registry.len(), 1);
    assert_eq!(
        registry.lifecycle_state(&FeatureId::new("qbit.example").unwrap()),
        Some(FeatureLifecycleState::Disabled)
    );
}

#[test]
fn unavailable_is_an_accepted_initial_state() {
    let mut registry = FeatureRegistry::new();
    registry
        .register_with_state(descriptor("qbit.example"), FeatureLifecycleState::Unavailable)
        .unwrap();
    assert_eq!(
        registry.lifecycle_state(&FeatureId::new("qbit.example").unwrap()),
        Some(FeatureLifecycleState::Unavailable)
    );
    for state in [
        FeatureLifecycleState::Starting,
        FeatureLifecycleState::Degraded,
        FeatureLifecycleState::Stopping,
        FeatureLifecycleState::Failed,
    ] {
        assert_eq!(
            registry.register_with_state(descriptor("qbit.other"), state),
            Err(RegistrationError::InvalidInitialState { state })
        );
    }
    assert_eq!(registry.len(), 1);
}

#[test]
fn setting_one_state_leaves_the_others_unchanged() {
    let mut registry = FeatureRegistry::new();
    registry.register(descriptor("qbit.first")).unwrap();
    registry.register(descriptor("qbit.second")).unwrap();
    registry.register(descriptor("qbit.third")).unwrap();
    let second = FeatureId::new("qbit.second").unwrap();
    registry
        .set_lifecycle_state(&second, FeatureLifecycleState::Failed)
        .unwrap();
    registry
        .set_lifecycle_state(&second, FeatureLifecycleState::Stopping)
        .unwrap();
    let states: Vec<_> = registry
        .summaries()
        .iter()
        .map(|summary| summary.lifecycle_state)
        .collect();
    assert_eq!(
        states,
        vec![
            FeatureLifecycleState::Disabled,
            FeatureLifecycleState::Stopping,
            FeatureLifecycleState::Disabled
        ]
    );
    assert_eq!(registry.summary(&FeatureId::new("qbit.fourth").unwrap()), None);
    assert_eq!(
        registry.lifecycle_state(&FeatureId::new("qbit.fourth").unwrap()),
        None
    );
}

#[test]
fn registry_errors_explain_themselves() {
    assert_eq!(
        RegistrationError::DuplicateFeatureId {
            id: FeatureId::new("qbit.example").unwrap()
        }
        .message(),
        "feature `qbit.example` is already registered"
    );
    assert_eq!(
        RegistrationError::InvalidInitialState {
            state: FeatureLifecycleState::Running
        }
        .message(),
        "feature cannot be registered in initial state Running"
    );
    assert_eq!(
        FeatureStateError::UnknownFeature {
            id: FeatureId::new("qbit.unknown").unwrap()
        }
        .message(),
        "feature `qbit.unknown` is not registered"
    );
}

#[test]
fn default_registry_is_empty() {
    let registry = FeatureRegistry::default();
    assert!(registry.is_empty());
    assert!(registry.summaries().is_empty());
}
