use mercurio_sysml::kerml::token::SourceSpan;
use mercurio_sysml::lowering::collect::ImportAliases;
use mercurio_sysml::lowering::imports::{
    add_wildcard_import_aliases, bind_namespace_alias, bind_owner_qualified_value_aliases, bind_value_alias,
    build_import_alias_map, kerml_resolve_policy, strict_resolve_policy,
};
use mercurio_sysml::lowering::ir::{ResolvedImport, ResolvedPackage};
use mercurio_sysml::kerml::ast::QualifiedName;
use mercurio_sysml::strmap::StrMap;

fn span() -> SourceSpan {
    SourceSpan { start_line: 3, start_col: 5, end_line: 3, end_col: 20 }
}

fn import(owner: Option<&str>, target: &str, imported_name: Option<&str>, ordinal: usize) -> ResolvedImport {
    ResolvedImport {
        owner_package_qualified_name: owner.map(|o| o.to_string()),
        target_id: target.to_string(),
        imported_name: imported_name.map(|n| n.to_string()),
        docs: Vec::new(),
        span: span(),
        ordinal,
    }
}

fn package(owner: Option<&str>, name: &str) -> ResolvedPackage {
    ResolvedPackage {
        owner_package_qualified_name: owner.map(|o| o.to_string()),
        qualified_name: name.to_string(),
        declared_name: name.rsplit('.').next().unwrap().to_string(),
        docs: Vec::new(),
        span: span(),
    }
}

fn strings(v: &[&str]) -> Vec<String> {
    v.iter().map(|s| s.to_string()).collect()
}

fn value(a: &ImportAliases, k: &str) -> Option<String> {
    a.value_aliases.get(k).cloned()
}

#[test]
fn value_aliases_become_ambiguous_on_conflict() {
    let mut a = ImportAliases::default();
    let p = strict_resolve_policy();
    assert!(bind_value_alias(&mut a, "Real", "A::Real".to_string(), &span(), p).is_ok());
    assert!(bind_value_alias(&mut a, "Real", "A::Real".to_string(), &span(), p).is_ok());
    assert_eq!(value(&a, "Real"), Some("A::Real".to_string()));
    bind_value_alias(&mut a, "Real", "B::Real".to_string(), &span(), p).unwrap();
    assert_eq!(value(&a, "Real"), None);
    assert!(a.ambiguous_value_aliases.contains_key("Real"));
    bind_value_alias(&mut a, "Real", "A::Real".to_string(), &span(), p).unwrap();
    assert_eq!(value(&a, "Real"), None);
}

#[test]
fn namespace_aliases_tolerate_matching_names() {
    let mut a = ImportAliases::default();
    let p = kerml_resolve_policy();
    let q = |s: &[&str]| QualifiedName { segments: strings(s), span: span() };
    bind_namespace_alias(&mut a, "V", q(&["P", "Vehicles"]), &span(), p).unwrap();
    bind_namespace_alias(&mut a, "V", q(&["Vehicles"]), &span(), p).unwrap();
    assert!(a.namespace_aliases.get("V").is_some());
    bind_namespace_alias(&mut a, "V", q(&["Other"]), &span(), p).unwrap();
    assert!(a.namespace_aliases.get("V").is_none());
    assert!(a.ambiguous_namespace_aliases.contains_key("V"));
}

#[test]
fn owner_qualified_aliases_cover_every_enclosing_name() {
    let mut a = ImportAliases::default();
    bind_owner_qualified_value_aliases(&mut a, "P.Q.R", "x", "lib::x".to_string(), &span(), strict_resolve_policy())
        .unwrap();
    assert_eq!(value(&a, "P.Q.R.x"), Some("lib::x".to_string()));
    assert_eq!(value(&a, "Q.R.x"), Some("lib::x".to_string()));
    assert_eq!(value(&a, "R.x"), Some("lib::x".to_string()));
    assert_eq!(a.value_aliases.len(), 3);
    let mut b = ImportAliases::default();
    bind_owner_qualified_value_aliases(&mut b, "", "x", "lib::x".to_string(), &span(), strict_resolve_policy())
        .unwrap();
    assert_eq!(b.value_aliases.len(), 0);
}

#[test]
fn library_wildcard_imports_bind_direct_children() {
    let mut a = ImportAliases::default();
    let ids = strings(&["ScalarValues::Real", "ScalarValues::Sub::Deep", "Other::Thing"]);
    let mut sa = StrMap::new();
    sa.insert("ScalarValues::Num".to_string(), "ScalarValues::NumericalValue".to_string());
    sa.insert("ScalarValues::A::B".to_string(), "x".to_string());
    add_wildcard_import_aliases(
        "ScalarValues",
        "",
        &None,
        &[],
        &[],
        &[],
        &ids,
        &sa,
        &mut a,
        &span(),
        strict_resolve_policy(),
    )
    .unwrap();
    assert_eq!(a.namespace_aliases.get("ScalarValues").unwrap().segments, strings(&["ScalarValues"]));
    assert_eq!(value(&a, "Real"), Some("ScalarValues::Real".to_string()));
    assert_eq!(value(&a, "Num"), Some("ScalarValues::NumericalValue".to_string()));
    assert_eq!(value(&a, "Deep"), None);
    assert_eq!(value(&a, "B"), None);
    assert_eq!(value(&a, "Thing"), None);
}

#[test]
fn module_imports_bind_values_and_local_namespaces() {
    let packages = vec![package(None, "P"), package(Some("P"), "P.Vehicles")];
    let imports = vec![
        import(Some("P"), "Vehicles::*", None, 0),
        import(Some("P"), "ScalarValues::Real", None, 1),
        import(None, "ISQ::mass", Some("m"), 2),
    ];
    let defs = strings(&["P.Vehicles.Car"]);
    let usages = strings(&["P.Vehicles.car1"]);
    let ids = strings(&["ScalarValues::Real"]);
    let sa = StrMap::new();
    let a = build_import_alias_map(&imports, &packages, &defs, &usages, &ids, &sa, strict_resolve_policy()).unwrap();
    assert_eq!(a.namespace_aliases.get("Vehicles").unwrap().segments, strings(&["P", "Vehicles"]));
    assert_eq!(value(&a, "Car"), Some("type.P.Vehicles.Car".to_string()));
    assert_eq!(value(&a, "P.Car"), Some("type.P.Vehicles.Car".to_string()));
    assert_eq!(value(&a, "car1"), Some("feature.P.Vehicles.car1".to_string()));
    assert_eq!(value(&a, "Real"), Some("ScalarValues::Real".to_string()));
    assert_eq!(value(&a, "P.Real"), Some("ScalarValues::Real".to_string()));
    assert_eq!(value(&a, "m"), Some("ISQ::mass".to_string()));
    assert_eq!(value(&a, "mass"), None);
}
