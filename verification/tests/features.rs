use mercurio_sysml::kerml::ast::QualifiedName;
use mercurio_sysml::kerml::token::SourceSpan;
use mercurio_sysml::lowering::collect::ImportAliases;
use mercurio_sysml::lowering::features::{
    resolve_local_feature_name, resolve_owner_feature_name, resolve_stdlib_owned_feature_reference,
};
use mercurio_sysml::strmap::StrMap;

fn qn(segments: &[&str]) -> QualifiedName {
    QualifiedName {
        segments: segments.iter().map(|s| s.to_string()).collect(),
        span: SourceSpan { start_line: 1, start_col: 1, end_line: 1, end_col: 1 },
    }
}

fn index(entries: &[(&str, &[(&str, &str)])]) -> StrMap<StrMap<String>> {
    let mut idx = StrMap::new();
    for (owner, features) in entries {
        let mut m = StrMap::new();
        for (k, v) in features.iter() {
            m.insert(k.to_string(), v.to_string());
        }
        idx.insert(owner.to_string(), m);
    }
    idx
}

#[test]
fn local_feature_names_resolve_through_imports_and_suffixes() {
    let lfi = index(&[
        ("P.Car", &[("speed", "P.Car.speed"), ("mass", "P.Car.mass")]),
        ("P.Bike", &[("speed", "P.Bike.speed")]),
    ]);
    let la = StrMap::new();
    let mut imports = ImportAliases::default();
    imports.value_aliases.insert("v".to_string(), "feature.P.Car.speed".to_string());
    imports.value_aliases.insert("t".to_string(), "type.P.Car".to_string());
    imports.namespace_aliases.insert("C".to_string(), qn(&["Car"]));
    let r = |n: &[&str]| resolve_local_feature_name(&qn(n), &la, &imports, &lfi);
    assert_eq!(r(&["mass"]), Some("P.Car.mass".to_string()));
    assert_eq!(r(&["speed"]), None);
    assert_eq!(r(&["Car", "speed"]), Some("P.Car.speed".to_string()));
    assert_eq!(r(&["C", "speed"]), Some("P.Car.speed".to_string()));
    assert_eq!(r(&["v"]), Some("P.Car.speed".to_string()));
    assert_eq!(r(&["t"]), None);
}

#[test]
fn owner_feature_names_look_only_at_the_owner() {
    let lfi = index(&[("P.Car", &[("speed", "P.Car.speed")])]);
    let la = StrMap::new();
    let imports = ImportAliases::default();
    assert_eq!(
        resolve_owner_feature_name("P.Car", &qn(&["speed"]), &la, &imports, &lfi),
        Some("P.Car.speed".to_string())
    );
    assert_eq!(
        resolve_owner_feature_name("P.Car", &qn(&["P", "Car", "speed"]), &la, &imports, &lfi),
        Some("P.Car.speed".to_string())
    );
    assert_eq!(resolve_owner_feature_name("P.Car", &qn(&["Car", "speed"]), &la, &imports, &lfi), None);
    assert_eq!(resolve_owner_feature_name("P.Bike", &qn(&["speed"]), &la, &imports, &lfi), None);
}

#[test]
fn library_features_are_found_by_owner_type() {
    let sfi = index(&[("Parts::Part", &[("mass", "Parts::Part::mass")])]);
    let r = |owner: &str, n: &[&str]| resolve_stdlib_owned_feature_reference(owner, &qn(n), &sfi);
    assert_eq!(r("type.Parts::Part", &["mass"]), Some("Parts::Part::mass".to_string()));
    assert_eq!(r("feature.Parts::Part", &["mass"]), Some("Parts::Part::mass".to_string()));
    assert_eq!(r("Parts::Part", &["mass"]), Some("Parts::Part::mass".to_string()));
    assert_eq!(r("Parts::Part", &["Part", "mass"]), None);
    assert_eq!(r("Other", &["mass"]), None);
}
