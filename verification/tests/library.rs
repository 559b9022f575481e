use mercurio_sysml::lowering::bundle::MappingBundle;
use mercurio_sysml::lowering::emit::{kerml_construct_seed, kerml_emission_seed};
use mercurio_sysml::lowering::library::{
    LibraryElement, add_compat_stdlib_alias, build_stdlib_alias_map, build_stdlib_feature_index,
};
use mercurio_sysml::lowering::semantic_defaults::SemanticDefaultsSeed;
use mercurio_sysml::strmap::StrMap;

fn bundle() -> MappingBundle {
    MappingBundle::from_seeds(kerml_construct_seed(), kerml_emission_seed(), None, SemanticDefaultsSeed::default())
        .unwrap()
}

fn element(id: &str, short: Option<&str>, types: &[&str], specializes: &[&str]) -> LibraryElement {
    LibraryElement {
        id: id.to_string(),
        kind: "LibraryThing".to_string(),
        types: types.iter().map(|s| s.to_string()).collect(),
        specializes: specializes.iter().map(|s| s.to_string()).collect(),
        declared_short_name: short.map(|s| s.to_string()),
    }
}

#[test]
fn alias_map_uses_short_names_and_compatibility_aliases() {
    let stdlib = vec![
        element("ScalarValues::Real", Some("R"), &[], &[]),
        element("Other::Real2", Some("R"), &[], &[]),
        element("ISQ::mass", Some("m"), &[], &[]),
        element("ISQ::mass2", Some("m"), &[], &[]),
        element("ISQSpaceTime::width", None, &[], &[]),
        element("NoNamespace", Some("n"), &[], &[]),
    ];
    let aliases = build_stdlib_alias_map(&stdlib, &bundle());
    assert_eq!(aliases.get("ScalarValues::R"), Some(&"ScalarValues::Real".to_string()));
    assert_eq!(aliases.get("Other::R"), Some(&"Other::Real2".to_string()));
    assert_eq!(aliases.get("ISQ::m"), Some(&"ISQ::mass".to_string()));
    assert_eq!(aliases.get("R"), None);
    assert_eq!(aliases.get("m"), None);
    assert_eq!(aliases.get("n"), None);
    assert_eq!(aliases.get("breadth"), Some(&"ISQSpaceTime::width".to_string()));
    assert_eq!(aliases.get("ISQSpaceTime::breadth"), Some(&"ISQSpaceTime::width".to_string()));
    assert_eq!(aliases.get("Parts::Part"), None);
}

#[test]
fn bare_short_names_resolve_when_unique() {
    let stdlib = vec![element("ISQ::mass", Some("m"), &[], &[]), element("ISQ::mass", Some("m"), &[], &[])];
    let aliases = build_stdlib_alias_map(&stdlib, &bundle());
    assert_eq!(aliases.get("m"), Some(&"ISQ::mass".to_string()));
}

#[test]
fn compatibility_aliases_need_their_target() {
    let mut aliases = StrMap::new();
    aliases.insert("taken".to_string(), "x".to_string());
    let stdlib = vec![element("sysml.Part", None, &[], &[])];
    add_compat_stdlib_alias(&mut aliases, &stdlib, "Parts::Part", "sysml.Part");
    add_compat_stdlib_alias(&mut aliases, &stdlib, "taken", "sysml.Part");
    add_compat_stdlib_alias(&mut aliases, &stdlib, "Items::Item", "sysml.Item");
    assert_eq!(aliases.get("Parts::Part"), Some(&"sysml.Part".to_string()));
    assert_eq!(aliases.get("taken"), Some(&"x".to_string()));
    assert_eq!(aliases.get("Items::Item"), None);
}

#[test]
fn feature_index_inherits_through_specialization_and_types() {
    let stdlib = vec![
        element("Base::Anything", None, &[], &[]),
        element("Base::Anything::self", None, &[], &[]),
        element("Parts::Part", None, &[], &["Base::Anything"]),
        element("Parts::Part::mass", None, &[], &[]),
        element("Vehicle::wheel", None, &["Parts::Part"], &[]),
    ];
    let index = build_stdlib_feature_index(&stdlib, &bundle());
    let part = index.get("Parts::Part").unwrap();
    assert_eq!(part.get("mass"), Some(&"Parts::Part::mass".to_string()));
    assert_eq!(part.get("self"), Some(&"Base::Anything::self".to_string()));
    let wheel = index.get("Vehicle::wheel").unwrap();
    assert_eq!(wheel.get("mass"), Some(&"Parts::Part::mass".to_string()));
    assert_eq!(wheel.get("self"), Some(&"Base::Anything::self".to_string()));
    // Only library elements get an entry; a namespace that is no element has none.
    assert!(index.get("Base").is_none());
    assert!(index.get("Parts::Part::mass").unwrap().len() == 0);
}
