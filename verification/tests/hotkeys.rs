use qbit_toolbox::feature_api::{
    BackgroundRequirement, RuntimeMode, StartupPolicy, StorageClass, SupportedPlatform,
};
use qbit_toolbox::hotkeys::compiler::compile;
use qbit_toolbox::hotkeys::conflicts::{
    analyze, analyze_candidate, Conflict, ConflictCode, ConflictSeverity,
};
use qbit_toolbox::hotkeys::domain::{
    Action, Chord, DomainError, KeyIdentity, KeyToken, Mapping, MappingBehavior,
    MappingMetadata, Modifier, Scope, Trigger,
};
use qbit_toolbox::hotkeys::feature::{descriptor, FEATURE_ID, FEATURE_SCHEMA_VERSION};

fn chord(key: &str) -> Chord {
    Chord::new(&[], KeyIdentity::Logical(KeyToken::new(key).unwrap())).unwrap()
}

fn mapping(id: u128, enabled: bool, trigger: &str, action: Action) -> Mapping {
    Mapping::with_id(
        id,
        enabled,
        Trigger::Chord {
            chord: chord(trigger),
        },
        action,
        Scope::Global,
        MappingBehavior::default(),
        MappingMetadata::default(),
    )
}

fn four_item_permutation(mut selector: usize) -> [usize; 4] {
    let mut remaining = vec![0, 1, 2, 3];
    let first = remaining.remove(selector / 6);
    selector %= 6;
    let second = remaining.remove(selector / 2);
    selector %= 2;
    let third = remaining.remove(selector);
    [first, second, third, remaining[0]]
}

#[test]
fn domain_invariants_and_serde_validation_hold() {
    for invalid in ["", " ", "Key A", "\n", "é"] {
        assert!(matches!(
            KeyToken::new(invalid),
            Err(DomainError::InvalidKeyToken)
        ));
    }
    assert!(matches!(
        KeyToken::new(&"a".repeat(65)),
        Err(DomainError::KeyTokenTooLong)
    ));
    assert_ne!(
        KeyIdentity::Logical(KeyToken::new("KeyA").unwrap()),
        KeyIdentity::Physical(KeyToken::new("KeyA").unwrap())
    );
    let zero_modifier = chord("KeyA");
    assert!(zero_modifier.modifiers().is_empty());
    assert_eq!(
        Chord::new(
            &[Modifier::RightCtrl, Modifier::LeftShift],
            KeyIdentity::Logical(KeyToken::new("KeyA").unwrap())
        )
        .unwrap()
        .modifiers(),
        vec![Modifier::RightCtrl, Modifier::LeftShift]
    );
    assert!(matches!(
        Chord::new(
            &[Modifier::Ctrl, Modifier::Ctrl],
            KeyIdentity::Logical(KeyToken::new("KeyA").unwrap())
        ),
        Err(DomainError::DuplicateModifier(Modifier::Ctrl))
    ));
    assert!(matches!(
        Chord::new(
            &[Modifier::Ctrl, Modifier::LeftCtrl],
            KeyIdentity::Logical(KeyToken::new("KeyA").unwrap())
        ),
        Err(DomainError::AmbiguousModifierFamily(_))
    ));
    let ctrl_primary =
        Chord::new(&[], KeyIdentity::Logical(KeyToken::new("Ctrl").unwrap())).unwrap();
    assert!(ctrl_primary.modifiers().is_empty());
    assert_eq!(
        ctrl_primary.primary(),
        &KeyIdentity::Logical(KeyToken::new("Ctrl").unwrap())
    );
    assert!(matches!(
        Chord::new(
            &[Modifier::Ctrl],
            KeyIdentity::Logical(KeyToken::new("Ctrl").unwrap())
        ),
        Err(DomainError::ModifierAsPrimaryKey)
    ));
    assert!(MappingMetadata::new(Some(String::new())).is_err());
    assert!(MappingMetadata::new(Some("x".repeat(121))).is_err());
}

#[test]
fn conflicts_are_stable_and_report_complete_sccs() {
    let first = mapping(1, true, "KeyA", Action::EmitShortcut { chord: chord("KeyB") });
    let second = mapping(2, true, "KeyB", Action::EmitShortcut { chord: chord("KeyC") });
    let third = mapping(3, true, "KeyC", Action::EmitShortcut { chord: chord("KeyA") });
    let conflicts = analyze(&[third.clone(), first.clone(), second.clone()]);
    assert_eq!(conflicts.len(), 1);
    assert_eq!(conflicts[0].code, ConflictCode::EmitShortcutCycle);
    assert_eq!(conflicts[0].mapping_ids, vec![first.id, second.id, third.id]);
    assert_eq!(conflicts, analyze(&[first, second, third]));
}

#[test]
fn disabled_and_disable_actions_do_not_create_edges() {
    let enabled = mapping(1, true, "KeyA", Action::EmitShortcut { chord: chord("KeyB") });
    let disabled = mapping(2, false, "KeyB", Action::EmitShortcut { chord: chord("KeyA") });
    let disable = mapping(3, true, "KeyB", Action::Disable);
    assert!(analyze(&[enabled.clone(), disabled]).is_empty());
    assert!(analyze(&[enabled, disable]).is_empty());
}

#[test]
fn self_maps_duplicates_candidates_and_compilation_are_blocking() {
    let self_map = mapping(1, true, "KeyA", Action::EmitShortcut { chord: chord("KeyA") });
    assert!(matches!(
        analyze(std::slice::from_ref(&self_map)).as_slice(),
        [conflict] if conflict.code == ConflictCode::DirectSelfMap
    ));
    assert!(compile(&[self_map]).is_err());

    let existing = mapping(2, true, "KeyB", Action::Disable);
    let candidate = mapping(2, false, "KeyB", Action::Disable);
    assert!(matches!(
        analyze_candidate(&[existing], &candidate).as_slice(),
        []
    ));
}

#[test]
fn duplicate_enabled_triggers_are_blocking_and_ignore_disabled_mappings() {
    let first = mapping(1, true, "KeyA", Action::Disable);
    let second = mapping(2, true, "KeyA", Action::EmitShortcut { chord: chord("KeyB") });
    let disabled = mapping(3, false, "KeyA", Action::Disable);

    assert_eq!(
        analyze(&[second.clone(), disabled.clone(), first.clone()]),
        vec![Conflict {
            code: ConflictCode::DuplicateEnabledTrigger,
            severity: ConflictSeverity::Error,
            mapping_ids: vec![first.id, second.id],
        }]
    );
    assert!(compile(&[first.clone(), second]).is_err());
    assert!(analyze(&[first, disabled]).is_empty());
}

#[test]
fn compiler_rejects_two_node_emit_shortcut_cycles() {
    let first = mapping(1, true, "KeyA", Action::EmitShortcut { chord: chord("KeyB") });
    let second = mapping(2, true, "KeyB", Action::EmitShortcut { chord: chord("KeyA") });

    assert!(matches!(
        analyze(&[first.clone(), second.clone()]).as_slice(),
        [conflict] if conflict.code == ConflictCode::EmitShortcutCycle
            && conflict.mapping_ids == vec![first.id, second.id]
    ));
    assert!(compile(&[first, second]).is_err());
}

#[test]
fn complex_emit_shortcut_scc_is_reported_once_with_sorted_ids() {
    let first = mapping(1, true, "KeyA", Action::EmitShortcut { chord: chord("KeyB") });
    let second = mapping(2, true, "KeyB", Action::EmitShortcut { chord: chord("KeyC") });
    let third = mapping(3, true, "KeyC", Action::EmitShortcut { chord: chord("KeyA") });
    let fourth = mapping(4, true, "KeyB", Action::EmitShortcut { chord: chord("KeyA") });
    let conflicts = analyze(&[third.clone(), first.clone(), fourth.clone(), second.clone()]);

    let cycles: Vec<_> = conflicts
        .iter()
        .filter(|conflict| conflict.code == ConflictCode::EmitShortcutCycle)
        .collect();
    assert_eq!(cycles.len(), 1);
    assert_eq!(
        cycles[0].mapping_ids,
        vec![first.id, second.id, third.id, fourth.id]
    );
}

#[test]
fn analyze_candidate_replaces_same_id_and_enables_candidate_for_conflict_checks() {
    let existing = mapping(2, true, "KeyB", Action::Disable);
    let replacement = mapping(2, false, "KeyB", Action::Disable);
    assert!(analyze_candidate(&[existing], &replacement).is_empty());

    let active = mapping(1, true, "KeyA", Action::Disable);
    let disabled_candidate = mapping(3, false, "KeyA", Action::Disable);
    assert!(matches!(
        analyze_candidate(std::slice::from_ref(&active), &disabled_candidate).as_slice(),
        [conflict] if conflict.code == ConflictCode::DuplicateEnabledTrigger
            && conflict.mapping_ids == vec![active.id, disabled_candidate.id]
    ));
}

#[test]
fn large_acyclic_chain_does_not_depend_on_call_stack_depth() {
    let mapping_count: u128 = 4096;
    let mappings: Vec<_> = (0..mapping_count)
        .map(|index| {
            let trigger = format!("K{index}");
            let action = if index + 1 == mapping_count {
                Action::Disable
            } else {
                Action::EmitShortcut {
                    chord: chord(&format!("K{}", index + 1)),
                }
            };
            mapping(index + 1, true, &trigger, action)
        })
        .collect();

    assert!(analyze(&mappings).is_empty());
}

#[test]
fn descriptor_matches_hotkeys_feature_contract() {
    let descriptor = descriptor();
    assert_eq!(descriptor.id.as_str(), FEATURE_ID);
    assert!(descriptor.supports(SupportedPlatform::Windows));
    assert!(!descriptor.supports(SupportedPlatform::MacOs));
    assert!(!descriptor.supports(SupportedPlatform::Linux));
    assert_eq!(descriptor.runtime_mode, RuntimeMode::EmbeddedBackground);
    assert_eq!(descriptor.startup_policy, StartupPolicy::OnApplicationStart);
    assert_eq!(
        descriptor.background_requirement,
        BackgroundRequirement::Continuous
    );
    assert_eq!(descriptor.version.unwrap().implementation, "0.1.0");
    assert_eq!(
        descriptor.version.unwrap().schema,
        Some(FEATURE_SCHEMA_VERSION)
    );
    assert!(descriptor.storage.iter().any(|storage| {
        storage.class == StorageClass::FeatureRelationalState && storage.required
    }));
    assert_eq!(descriptor.ui.unwrap().route, "/features/hotkeys");
    assert_eq!(descriptor.diagnostics.component, "feature.hotkeys");
    assert!(descriptor.requires_capability("keyboard.global-interception"));
    assert!(descriptor.requires_capability("input.emission"));
    assert!(descriptor.dependencies.is_empty());
}

#[test]
fn compiler_excludes_disabled_and_uses_chord_lookup() {
    let enabled = mapping(1, true, "KeyA", Action::Disable);
    let disabled = mapping(2, false, "KeyB", Action::Disable);
    let compiled = compile(&[enabled.clone(), disabled]).unwrap();
    assert_eq!(compiled.len(), 1);
    assert!(!compiled.is_empty());
    assert_eq!(
        compiled.lookup(&chord("KeyA")).unwrap().mapping_id,
        enabled.id
    );
    assert!(compiled.lookup(&chord("KeyB")).is_none());
}

#[test]
fn modifier_normalization_is_permutation_independent() {
    let family_modifiers = [
        [Modifier::Ctrl, Modifier::LeftCtrl, Modifier::RightCtrl],
        [Modifier::Shift, Modifier::LeftShift, Modifier::RightShift],
        [Modifier::Alt, Modifier::LeftAlt, Modifier::RightAlt],
        [Modifier::Meta, Modifier::LeftMeta, Modifier::RightMeta],
    ];
    for code in 0..625usize {
        let families = [code % 5, (code / 5) % 5, (code / 25) % 5, (code / 125) % 5];
        let mut modifiers = Vec::new();
        for (selection, group) in families.iter().zip(family_modifiers.iter()) {
            match selection {
                0 => {}
                1 => modifiers.push(group[0]),
                2 => modifiers.push(group[1]),
                3 => modifiers.push(group[2]),
                _ => {
                    modifiers.push(group[1]);
                    modifiers.push(group[2]);
                }
            }
        }
        let primary = KeyIdentity::Logical(KeyToken::new("KeyA").unwrap());
        let first = Chord::new(&modifiers, primary.clone()).unwrap();
        let mut reversed = modifiers;
        reversed.reverse();
        assert_eq!(first, Chord::new(&reversed, primary).unwrap());
    }
}

#[test]
fn conflicts_are_invariant_under_mapping_insertion_order() {
    let mappings = [
        mapping(1, true, "KeyA", Action::EmitShortcut { chord: chord("KeyB") }),
        mapping(2, true, "KeyB", Action::EmitShortcut { chord: chord("KeyC") }),
        mapping(3, true, "KeyC", Action::EmitShortcut { chord: chord("KeyA") }),
        mapping(4, true, "KeyD", Action::Disable),
    ];
    let canonical = analyze(&mappings);
    for selector in 0..24usize {
        let order = four_item_permutation(selector);
        let reordered: Vec<_> = order.into_iter().map(|index| mappings[index].clone()).collect();
        assert_eq!(analyze(&reordered), canonical);
    }
}

#[test]
fn conflict_report_is_sorted_by_code_then_ids() {
    let self_map = mapping(9, true, "KeyZ", Action::EmitShortcut { chord: chord("KeyZ") });
    let dup_a = mapping(5, true, "KeyQ", Action::Disable);
    let dup_b = mapping(4, true, "KeyQ", Action::Disable);
    let cycle_a = mapping(7, true, "KeyX", Action::EmitShortcut { chord: chord("KeyY") });
    let cycle_b = mapping(6, true, "KeyY", Action::EmitShortcut { chord: chord("KeyX") });
    let report = analyze(&[cycle_a, dup_a, self_map, cycle_b, dup_b]);
    let codes: Vec<_> = report.iter().map(|conflict| conflict.code).collect();
    assert_eq!(
        codes,
        vec![
            ConflictCode::DirectSelfMap,
            ConflictCode::DuplicateEnabledTrigger,
            ConflictCode::EmitShortcutCycle
        ]
    );
    assert_eq!(report[0].mapping_ids, vec![9]);
    assert_eq!(report[1].mapping_ids, vec![4, 5]);
    assert_eq!(report[2].mapping_ids, vec![6, 7]);
}

#[test]
fn chord_errors_report_the_first_problem() {
    let primary = || KeyIdentity::Physical(KeyToken::new("KeyA").unwrap());
    assert!(matches!(
        Chord::new(&[Modifier::Shift, Modifier::Alt, Modifier::Shift], primary()),
        Err(DomainError::DuplicateModifier(Modifier::Shift))
    ));
    assert!(matches!(
        Chord::new(&[Modifier::Alt, Modifier::RightAlt, Modifier::Meta, Modifier::LeftMeta], primary()),
        Err(DomainError::AmbiguousModifierFamily(_))
    ));
    let both_sides = Chord::new(&[Modifier::RightShift, Modifier::LeftShift], primary()).unwrap();
    assert_eq!(both_sides.modifiers(), vec![Modifier::LeftShift, Modifier::RightShift]);
    assert!(matches!(
        Chord::new(&[Modifier::LeftMeta], KeyIdentity::Logical(KeyToken::new("LeftMeta").unwrap())),
        Err(DomainError::ModifierAsPrimaryKey)
    ));
    assert_eq!(Modifier::LeftAlt.token(), "LeftAlt");
    assert!(Modifier::Meta.is_generic());
    assert!(!Modifier::RightCtrl.is_generic());
}

#[test]
fn domain_errors_explain_themselves() {
    assert_eq!(
        DomainError::DuplicateModifier(Modifier::LeftAlt).message(),
        "hotkeys domain invariant failed: DuplicateModifier(LeftAlt)"
    );
    assert_eq!(
        DomainError::InvalidLabel.message(),
        "hotkeys domain invariant failed: InvalidLabel"
    );
    match Chord::new(
        &[Modifier::Shift, Modifier::LeftShift],
        KeyIdentity::Logical(KeyToken::new("KeyA").unwrap()),
    ) {
        Err(error) => assert_eq!(
            error.message(),
            "hotkeys domain invariant failed: AmbiguousModifierFamily(Shift)"
        ),
        Ok(_) => panic!("an ambiguous family was accepted"),
    }
}

#[test]
fn new_mappings_get_fresh_identifiers() {
    let make = || {
        Mapping::new(
            true,
            Trigger::Chord { chord: chord("KeyA") },
            Action::Disable,
            Scope::Global,
            MappingBehavior::default(),
            MappingMetadata::default(),
        )
    };
    let first = make();
    let second = make();
    assert_ne!(first.id, second.id);
    assert!(first.enabled);
    assert_eq!(first.trigger, second.trigger);
}

#[test]
fn compiled_keymap_does_not_depend_on_listing_order() {
    let a = mapping(1, true, "KeyA", Action::EmitShortcut { chord: chord("KeyZ") });
    let b = mapping(2, true, "KeyB", Action::Disable);
    let c = mapping(3, false, "KeyC", Action::Disable);
    let forward = compile(&[a.clone(), b.clone(), c.clone()]).unwrap();
    let backward = compile(&[c, b, a]).unwrap();
    for key in ["KeyA", "KeyB", "KeyC", "KeyZ"] {
        assert_eq!(
            forward.lookup(&chord(key)).map(|entry| entry.mapping_id),
            backward.lookup(&chord(key)).map(|entry| entry.mapping_id)
        );
    }
    assert_eq!(forward.len(), 2);
    assert_eq!(forward.warnings(), backward.warnings());
}

#[test]
fn disabled_mappings_take_no_part_in_the_report() {
    let mappings = vec![
        mapping(1, true, "KeyA", Action::EmitShortcut { chord: chord("KeyB") }),
        mapping(2, false, "KeyB", Action::EmitShortcut { chord: chord("KeyA") }),
        mapping(3, true, "KeyB", Action::EmitShortcut { chord: chord("KeyA") }),
        mapping(4, false, "KeyA", Action::Disable),
        mapping(5, true, "KeyC", Action::Disable),
        mapping(6, true, "KeyC", Action::Disable),
    ];
    let enabled: Vec<_> = mappings.iter().filter(|m| m.enabled).cloned().collect();
    let report = analyze(&mappings);
    assert_eq!(report, analyze(&enabled));
    assert_eq!(report.len(), 2);
}

#[test]
fn new_mapping_identifiers_have_the_version_four_form() {
    for _ in 0..32 {
        let fresh = Mapping::new(
            false,
            Trigger::Chord { chord: chord("KeyA") },
            Action::Disable,
            Scope::Global,
            MappingBehavior::default(),
            MappingMetadata::default(),
        );
        assert_eq!((fresh.id >> 76) & 0xf, 4);
        assert_eq!((fresh.id >> 62) & 0x3, 2);
    }
}
