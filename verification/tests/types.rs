use mercurio_sysml::kerml::ast::QualifiedName;
use mercurio_sysml::kerml::token::SourceSpan;
use mercurio_sysml::lowering::collect::ImportAliases;
use mercurio_sysml::lowering::types::{
    resolve_explicit_type_reference, resolve_import_target, resolve_qualified_reference,
    resolve_scoped_import_value_alias, resolve_scoped_local_type_reference, resolve_type_reference,
    resolve_type_reference_in_scope, resolve_visible_type_reference, unique_local_alias_suffix_match,
};
use mercurio_sysml::strmap::StrMap;

fn qn(segments: &[&str]) -> QualifiedName {
    QualifiedName {
        segments: segments.iter().map(|s| s.to_string()).collect(),
        span: SourceSpan { start_line: 1, start_col: 1, end_line: 1, end_col: 1 },
    }
}

fn strings(entries: &[(&str, &str)]) -> StrMap<String> {
    let mut m = StrMap::new();
    for (k, v) in entries {
        m.insert(k.to_string(), v.to_string());
    }
    m
}

fn names(entries: &[(&str, &[&str])]) -> StrMap<QualifiedName> {
    let mut m = StrMap::new();
    for (k, v) in entries {
        m.insert(k.to_string(), qn(v));
    }
    m
}

fn ids(v: &[&str]) -> Vec<String> {
    v.iter().map(|s| s.to_string()).collect()
}

#[test]
fn simple_type_names_resolve_locally_first() {
    let defs = strings(&[("Car", "type.P.Car")]);
    let aliases = names(&[("Auto", &["Car"])]);
    let imports = ImportAliases::default();
    let lib = ids(&["ScalarValues::Real"]);
    let sa = strings(&[("Boolean", "ScalarValues::Boolean")]);
    let r = |n: &[&str]| resolve_type_reference(&qn(n), &lib, &sa, &defs, &aliases, &imports);
    assert_eq!(r(&["Car"]), Some("type.P.Car".to_string()));
    assert_eq!(r(&["~Car"]), Some("type.P.Car".to_string()));
    assert_eq!(r(&["Auto"]), Some("type.P.Car".to_string()));
    assert_eq!(r(&["Boolean"]), Some("ScalarValues::Boolean".to_string()));
    assert_eq!(r(&["Real"]), Some("ScalarValues::Real".to_string()));
    assert_eq!(r(&["Missing"]), None);
}

#[test]
fn qualified_type_names_expand_namespaces_and_aliases() {
    let defs = strings(&[("P.Q.Car", "type.P.Q.Car")]);
    let aliases = names(&[("P.Vehicles", &["P", "Q"])]);
    let mut imports = ImportAliases::default();
    imports.namespace_aliases.insert("SV".to_string(), qn(&["ScalarValues"]));
    imports.value_aliases.insert("Ext.Thing".to_string(), "lib.Thing".to_string());
    let lib = ids(&["ScalarValues::Real"]);
    let sa = StrMap::new();
    let r = |n: &[&str]| resolve_type_reference(&qn(n), &lib, &sa, &defs, &aliases, &imports);
    assert_eq!(r(&["SV", "Real"]), Some("ScalarValues::Real".to_string()));
    assert_eq!(r(&["Q", "Car"]), Some("type.P.Q.Car".to_string()));
    assert_eq!(r(&["Ext", "Thing"]), Some("lib.Thing".to_string()));
    assert_eq!(r(&["Vehicles"]), None);
    assert_eq!(r(&["Nowhere", "Car"]), None);
}

#[test]
fn scoped_type_names_search_enclosing_scopes() {
    let defs = strings(&[("P.Inner.X", "type.P.Inner.X"), ("X", "type.X")]);
    let mut imports = ImportAliases::default();
    imports.value_aliases.insert("P.Y".to_string(), "lib.Y".to_string());
    let lib: Vec<String> = Vec::new();
    let sa = StrMap::new();
    let la = StrMap::new();
    assert_eq!(
        resolve_scoped_local_type_reference(&qn(&["X"]), "P.Inner.Deep", &defs),
        Some("type.P.Inner.X".to_string())
    );
    assert_eq!(resolve_scoped_local_type_reference(&qn(&["X"]), "Other", &defs), None);
    assert_eq!(
        resolve_scoped_import_value_alias(&qn(&["Y"]), "P.Z", &imports),
        Some("lib.Y".to_string())
    );
    assert_eq!(resolve_scoped_import_value_alias(&qn(&["P", "Y"]), "P.Z", &imports), None);
    let r = |n: &[&str], owner: &str| {
        resolve_type_reference_in_scope(&qn(n), owner, &lib, &sa, &defs, &la, &imports)
    };
    assert_eq!(r(&["X"], "P.Inner.Deep"), Some("type.P.Inner.X".to_string()));
    assert_eq!(r(&["~X"], "P.Inner"), Some("type.P.Inner.X".to_string()));
    assert_eq!(r(&["Y"], "P.Z"), Some("lib.Y".to_string()));
    // Visible names do not look at local definitions by their simple name.
    assert_eq!(r(&["X"], "Q"), None);
}

#[test]
fn visible_and_explicit_type_names() {
    let defs = strings(&[("P.Car", "type.P.Car")]);
    let lib = ids(&["Base::Anything"]);
    let sa = strings(&[("Base::Thing", "Base::Anything")]);
    let la = names(&[("T", &["Base", "Thing"])]);
    let imports = ImportAliases::default();
    assert_eq!(
        resolve_explicit_type_reference(&qn(&["Base", "Thing"]), &lib, &sa, &defs),
        Some("Base::Anything".to_string())
    );
    assert_eq!(
        resolve_explicit_type_reference(&qn(&["Base", "Anything"]), &lib, &sa, &defs),
        Some("Base::Anything".to_string())
    );
    assert_eq!(resolve_explicit_type_reference(&qn(&["P", "Car"]), &lib, &sa, &defs), Some("type.P.Car".to_string()));
    assert_eq!(
        resolve_visible_type_reference(&qn(&["T"]), &lib, &sa, &defs, &la, &imports),
        Some("Base::Anything".to_string())
    );
    assert_eq!(
        resolve_visible_type_reference(&qn(&["Anything"]), &lib, &sa, &defs, &la, &imports),
        Some("Base::Anything".to_string())
    );
}

#[test]
fn qualified_references_and_import_targets() {
    let defs = strings(&[("P.Car", "type.P.Car")]);
    let lib = ids(&["ScalarValues::Real", "Other::Real"]);
    let sa = StrMap::new();
    let la = names(&[("P.V", &["P", "Car"])]);
    assert_eq!(resolve_qualified_reference(&qn(&["V"]), &lib, &sa, &defs, &la), Some("type.P.Car".to_string()));
    assert_eq!(resolve_qualified_reference(&qn(&["Real"]), &lib, &sa, &defs, &la), None);
    assert_eq!(
        resolve_import_target(&qn(&["ScalarValues", "*"]), &lib, &sa, &defs, &la),
        Some("ScalarValues::*".to_string())
    );
    assert_eq!(
        resolve_import_target(&qn(&["ScalarValues", "Real"]), &lib, &sa, &defs, &la),
        Some("ScalarValues::Real".to_string())
    );
    let one = ids(&["ScalarValues::Real"]);
    assert_eq!(
        resolve_import_target(&qn(&["Lib", "Real"]), &one, &sa, &defs, &la),
        Some("ScalarValues::Real".to_string())
    );
    assert_eq!(resolve_import_target(&qn(&["Real"]), &lib, &sa, &defs, &la), None);
}

#[test]
fn alias_suffix_matches_must_be_unique() {
    let la = names(&[("P.A.X", &["One"]), ("P.B.X", &["Two"]), ("P.C.Y", &["Three"])]);
    assert!(unique_local_alias_suffix_match("X", &la).is_none());
    assert_eq!(unique_local_alias_suffix_match("Y", &la).unwrap().segments, vec!["Three".to_string()]);
    assert_eq!(unique_local_alias_suffix_match("A.X", &la).unwrap().segments, vec!["One".to_string()]);
}
