use aicontext::engineering::{
    detect, origin_label, ComponentDoc, ContractFile, EngineeringDetection, ManifestDoc, MapDoc, SurfaceDoc,
};

fn s(x: &str) -> Option<String> {
    Some(x.to_string())
}

fn manifest(schema: i64) -> ManifestDoc {
    ManifestDoc {
        schema_version: Some(schema),
        version_text: Some(schema.to_string()),
        project: s("demo"),
        recipe: s("GP-99"),
        recipe_version: None,
        catalog_version: s("1.1.0"),
        database_profile: None,
        plan_fingerprint: s("abc123"),
        components: Some(vec![ComponentDoc {
            surface: s("web"),
            boilerplate: s("some-bp"),
            pin: s("deadbeef"),
            destination: s("apps/web"),
        }]),
    }
}

fn map(schema: i64) -> MapDoc {
    MapDoc {
        schema_version: Some(schema),
        version_text: Some(schema.to_string()),
        surfaces: Some(vec![SurfaceDoc {
            key: "web".to_string(),
            path: s("apps/web"),
            provider: s("some-bp"),
            instructions: s("apps/web/AGENTS.md"),
        }]),
        relationships_is_array: true,
    }
}

fn reason_of(d: EngineeringDetection) -> String {
    match d {
        EngineeringDetection::Unsupported { reason, .. } => reason,
        other => panic!("expected unsupported, got {other:?}"),
    }
}

#[test]
fn absent_without_contracts() {
    let d = detect(&ContractFile::Missing, &ContractFile::Missing, false);
    assert!(matches!(d, EngineeringDetection::Absent));
    assert_eq!(origin_label(&d), "standalone");
    assert!(!d.is_engineering_managed());
}

#[test]
fn supported_with_both_contracts() {
    match detect(&ContractFile::Parsed(manifest(2)), &ContractFile::Parsed(map(1)), true) {
        EngineeringDetection::Supported(info) => {
            assert_eq!(info.recipe, "GP-99");
            assert_eq!(info.declared_paths(), vec!["apps/web".to_string()]);
            assert!(info.provenance_present);
            assert_eq!(info.manifest_schema_version, 2);
        }
        other => panic!("expected supported, got {other:?}"),
    }
}

#[test]
fn unsupported_partial_presence() {
    let d = detect(&ContractFile::Parsed(manifest(2)), &ContractFile::Missing, false);
    assert_eq!(origin_label(&d), "engineering-platform (unsupported)");
    assert!(d.is_engineering_managed());
    assert!(reason_of(d).starts_with("incomplete Engineering metadata: .engineering/project.json present"));
}

#[test]
fn unsupported_future_manifest() {
    let d = detect(&ContractFile::Parsed(manifest(99)), &ContractFile::Parsed(map(1)), false);
    match d {
        EngineeringDetection::Unsupported { reason, manifest_version, map_version } => {
            assert!(reason.contains(".engineering/project.json schema_version 99 is not supported (supported: 1, 2)"), "{reason}");
            assert_eq!(manifest_version.as_deref(), Some("99"));
            assert_eq!(map_version.as_deref(), Some("1"));
        }
        other => panic!("expected unsupported, got {other:?}"),
    }
}

#[test]
fn unsupported_contracts_fail_closed() {
    let not_json = detect(&ContractFile::NotJson("expected value".to_string()), &ContractFile::Parsed(map(1)), false);
    assert_eq!(reason_of(not_json), ".engineering/project.json is not valid JSON (expected value)");
    let unreadable = detect(&ContractFile::Parsed(manifest(1)), &ContractFile::Unreadable("denied".to_string()), false);
    assert_eq!(reason_of(unreadable), ".engineering/project-map.json is unreadable (denied)");
    let mut escaping = manifest(1);
    escaping.components = Some(vec![ComponentDoc {
        surface: s("web"),
        boilerplate: s("bp"),
        pin: s("p"),
        destination: s("../outside"),
    }]);
    let d = detect(&ContractFile::Parsed(escaping), &ContractFile::Parsed(map(1)), false);
    assert!(matches!(d, EngineeringDetection::Unsupported { .. }), "an escaping destination is never routed");
    let mut blank = map(1);
    blank.relationships_is_array = false;
    let d = detect(&ContractFile::Parsed(manifest(1)), &ContractFile::Parsed(blank), false);
    assert!(matches!(d, EngineeringDetection::Unsupported { .. }));
    assert!(d.info().is_none());
}
