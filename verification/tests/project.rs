use miden_logic::project::{
    MasmSourceProvider, PackageBuildSettings, ProjectSourceProvider, RegisteredProvider,
    SourceProviderRegistry,
};

#[derive(Debug, Clone, Copy, PartialEq)]
struct Provider {
    ext: &'static str,
    id: u32,
}

impl ProjectSourceProvider for Provider {
    fn file_type(&self) -> &'static str {
        self.ext
    }
}

fn custom_id(r: Option<&RegisteredProvider<Provider>>) -> Option<u32> {
    match r {
        Some(RegisteredProvider::Custom(p)) => Some(p.id),
        _ => None,
    }
}

#[test]
fn masm_provider_is_registered_by_default() {
    let registry = SourceProviderRegistry::<Provider>::new(vec![]);
    assert!(matches!(registry.get_provider("masm"), Some(RegisteredProvider::Masm(_))));
    assert!(registry.get_provider("rs").is_none());
    assert_eq!(MasmSourceProvider.file_type(), "masm");
}

#[test]
fn later_providers_replace_earlier_ones() {
    let registry = SourceProviderRegistry::new(vec![
        Provider { ext: "wat", id: 1 },
        Provider { ext: "rs", id: 2 },
        Provider { ext: "wat", id: 3 },
    ]);
    assert_eq!(custom_id(registry.get_provider("wat")), Some(3));
    assert_eq!(custom_id(registry.get_provider("rs")), Some(2));
    assert!(matches!(registry.get_provider("masm"), Some(RegisteredProvider::Masm(_))));
}

#[test]
fn a_user_masm_provider_replaces_the_default() {
    let registry = SourceProviderRegistry::new(vec![Provider { ext: "masm", id: 7 }]);
    assert_eq!(custom_id(registry.get_provider("masm")), Some(7));
}

#[test]
fn with_source_provider_replaces_by_file_type() {
    let mut registry = SourceProviderRegistry::new(vec![Provider { ext: "rs", id: 1 }]);
    registry.with_source_provider(Provider { ext: "rs", id: 2 });
    registry.with_source_provider(Provider { ext: "masm", id: 3 });
    registry.with_source_provider(Provider { ext: "c", id: 4 });
    assert_eq!(custom_id(registry.get_provider("rs")), Some(2));
    assert_eq!(custom_id(registry.get_provider("masm")), Some(3));
    assert_eq!(custom_id(registry.get_provider("c")), Some(4));
    assert_eq!(registry.get_provider("masm").unwrap().file_type(), "masm");
}

#[test]
fn legacy_build_settings() {
    assert!(PackageBuildSettings::legacy().is_legacy());
    assert!(PackageBuildSettings::from_profile(true, false).is_legacy());
    assert!(!PackageBuildSettings::from_profile(true, true).is_legacy());
    assert!(!PackageBuildSettings::from_profile(false, false).is_legacy());
}

#[test]
fn keyed_registry_follows_the_given_file_types() {
    let registry = SourceProviderRegistry::from_keyed(vec![
        ("a", Provider { ext: "ignored", id: 1 }),
        ("b", Provider { ext: "ignored", id: 2 }),
        ("a", Provider { ext: "ignored", id: 3 }),
    ]);
    assert_eq!(custom_id(registry.get_provider("a")), Some(3));
    assert_eq!(custom_id(registry.get_provider("b")), Some(2));
    assert!(matches!(registry.get_provider("masm"), Some(RegisteredProvider::Masm(_))));
    assert!(registry.get_provider("ignored").is_none());
}

#[test]
fn with_source_provider_returns_the_registry() {
    let mut registry = SourceProviderRegistry::<Provider>::new(vec![]);
    registry
        .with_source_provider(Provider { ext: "rs", id: 1 })
        .with_source_provider(Provider { ext: "wat", id: 2 });
    assert_eq!(custom_id(registry.get_provider("rs")), Some(1));
    assert_eq!(custom_id(registry.get_provider("wat")), Some(2));
    assert!(matches!(registry.get_provider("masm"), Some(RegisteredProvider::Masm(_))));
}
