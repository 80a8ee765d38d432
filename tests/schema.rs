use helixlauncher_meta::component::{
    Arch, ConditionFeature, ConditionalClasspathEntry, MinecraftArgument, OsName, Platform,
    Trait, TraitSet,
};
use helixlauncher_meta::component::{Component, ComponentDependency, ReleaseTime};
use helixlauncher_meta::util::GradleSpecifier;

fn coord(text: &str) -> GradleSpecifier {
    GradleSpecifier::parse(text).unwrap()
}

#[test]
fn hash_renders_for_diagnostics() {
    assert_eq!(helixlauncher_meta::component::Hash::SHA1("abc".to_string()).to_string(), "SHA1 hash abc");
    assert_eq!(helixlauncher_meta::component::Hash::SHA256("0f".to_string()).to_string(), "SHA256 hash 0f");
}

#[test]
fn traits_listed_in_fixed_order() {
    let mut a = TraitSet::new();
    a.insert(Trait::SupportsQuickPlayWorld);
    a.insert(Trait::MacStartOnFirstThread);
    a.insert(Trait::SupportsCustomResolution);
    let mut b = TraitSet::new();
    b.insert(Trait::SupportsCustomResolution);
    b.insert(Trait::SupportsQuickPlayWorld);
    b.insert(Trait::MacStartOnFirstThread);
    b.insert(Trait::SupportsQuickPlayWorld);
    assert_eq!(a, b);
    assert_eq!(
        a.to_vec(),
        vec![
            Trait::MacStartOnFirstThread,
            Trait::SupportsCustomResolution,
            Trait::SupportsQuickPlayWorld
        ]
    );
    assert_eq!(a.to_vec(), b.to_vec());
}

#[test]
fn trait_set_from_vec_drops_duplicates() {
    let s = TraitSet::from_vec(&vec![
        Trait::SupportsQuickPlayServer,
        Trait::SupportsQuickPlayServerLegacy,
        Trait::SupportsQuickPlayServer,
    ]);
    assert_eq!(
        s.to_vec(),
        vec![Trait::SupportsQuickPlayServerLegacy, Trait::SupportsQuickPlayServer]
    );
    assert!(s.contains(Trait::SupportsQuickPlayServer));
    assert!(!s.contains(Trait::SupportsQuickPlayWorld));
    assert!(!s.is_empty());
    assert!(TraitSet::new().is_empty());
    assert!(TraitSet::new().to_vec().is_empty());
}

#[test]
fn empty_os_list_means_every_os() {
    let p = Platform { os: vec![], arch: None };
    assert!(p.applies_to(OsName::Linux, Arch::X86_64));
    assert!(p.applies_to(OsName::Windows, Arch::Arm64));
    assert!(p.applies_to(OsName::Osx, Arch::X86));
}

#[test]
fn platform_narrows_os_and_arch() {
    let p = Platform { os: vec![OsName::Osx, OsName::Linux], arch: Some(Arch::Arm64) };
    assert!(p.applies_to(OsName::Linux, Arch::Arm64));
    assert!(p.applies_to(OsName::Osx, Arch::Arm64));
    assert!(!p.applies_to(OsName::Windows, Arch::Arm64));
    assert!(!p.applies_to(OsName::Linux, Arch::X86_64));
    let q = Platform { os: vec![OsName::Windows], arch: None };
    assert!(q.applies_to(OsName::Windows, Arch::X86));
    assert!(!q.applies_to(OsName::Linux, Arch::X86));
}

#[test]
fn classpath_entries_by_platform() {
    let all = ConditionalClasspathEntry::All(coord("org.ow2.asm:asm:9.3"));
    let windows_only = ConditionalClasspathEntry::PlatformSpecific {
        name: coord("org.lwjgl:lwjgl:3.3.1:natives-windows"),
        platform: Platform { os: vec![OsName::Windows], arch: None },
    };
    assert!(all.applies_to(OsName::Linux, Arch::X86_64));
    assert!(windows_only.applies_to(OsName::Windows, Arch::X86_64));
    assert!(!windows_only.applies_to(OsName::Linux, Arch::X86_64));
    assert_eq!(all.name().artifact, "asm");
    assert_eq!(windows_only.name().classifier.as_deref(), Some("natives-windows"));
}

#[test]
fn arguments_by_feature() {
    let always = MinecraftArgument::Always("--username".to_string());
    let demo = MinecraftArgument::Conditional {
        value: "--demo".to_string(),
        feature: ConditionFeature::Demo,
    };
    assert!(always.is_included(&vec![]));
    assert!(!demo.is_included(&vec![]));
    assert!(!demo.is_included(&vec![ConditionFeature::Fullscreen]));
    assert!(demo.is_included(&vec![ConditionFeature::Fullscreen, ConditionFeature::Demo]));
    assert_eq!(demo.value(), "--demo");
    assert_eq!(always.value(), "--username");
}

#[test]
fn release_time_bounds_nanos() {
    let t = ReleaseTime::new(1686576351, 0).unwrap();
    assert_eq!(t.seconds(), 1686576351);
    assert_eq!(t.nanos(), 0);
    assert!(ReleaseTime::new(0, 1_999_999_999).is_some());
    assert!(ReleaseTime::new(0, 2_000_000_000).is_none());
}

#[test]
fn component_holds_its_fields() {
    let mut traits = TraitSet::new();
    traits.insert(Trait::SupportsQuickPlayWorld);
    let component = Component {
        format_version: 1,
        id: "org.quiltmc.quilt-loader".to_string(),
        version: "0.20.0".to_string(),
        requires: vec![ComponentDependency { id: "net.minecraft".to_string(), version: None }],
        conflicts: vec![],
        before: vec![],
        after: vec![],
        provides: vec![],
        traits,
        assets: None,
        downloads: vec![],
        jarmods: vec![],
        game_jar: None,
        main_class: Some("org.quiltmc.loader.impl.launch.knot.KnotClient".to_string()),
        game_arguments: vec![MinecraftArgument::Always("--demo".to_string())],
        classpath: vec![ConditionalClasspathEntry::All(coord("org.quiltmc:quilt-loader:0.20.0"))],
        natives: vec![],
        release_time: ReleaseTime::new(1686576351, 0).unwrap(),
    };
    assert_eq!(component.release_time.seconds(), 1686576351);
    assert_eq!(component.traits.to_vec(), vec![Trait::SupportsQuickPlayWorld]);
    assert_eq!(component.classpath[0].name().to_string(), "org.quiltmc:quilt-loader:0.20.0");
    assert!(component.requires[0].version.is_none());
}
