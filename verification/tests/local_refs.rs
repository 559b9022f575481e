use mercurio_sysml::kerml::ast::{ImportDecl, ParsedModule, QualifiedName};
use mercurio_sysml::kerml::parser::parse_kerml_tokens;
use mercurio_sysml::kerml::token::{Diagnostic, SourceSpan, Token, TokenKind};
use mercurio_sysml::lowering::bundle::MappingBundle;
use mercurio_sysml::lowering::collect::{CollectedDefinition, CollectedImport, CollectedUsage, ImportAliases};
use mercurio_sysml::lowering::collect_walk::collect_module;
use mercurio_sysml::lowering::emit::{kerml_construct_seed, kerml_emission_seed};
use mercurio_sysml::lowering::indexes::{build_local_definition_map, build_local_feature_index, build_local_usage_map};
use mercurio_sysml::lowering::local_refs::{
    collected_usage_element_id, infer_named_definition_type_ref, is_self_feature_reference,
    resolve_comment_annotation_target, resolve_imports, resolve_local_usage_qualified_name,
    unique_definition_owned_feature_match_excluding, unique_feature_modifier_alias_match_excluding,
};
use mercurio_sysml::lowering::semantic_defaults::{DefinitionCompanionPolicySeed, SemanticDefaultsSeed};
use mercurio_sysml::strmap::StrMap;

/// Splits KerML text into tokens the way the language lexer does for the
/// constructs these tests use.
fn lex(input: &str) -> Vec<Token> {
    let chars: Vec<char> = input.chars().collect();
    let mut tokens = Vec::new();
    let mut i = 0;
    let mut line = 1;
    let mut col = 1;
    while i < chars.len() {
        let c = chars[i];
        if c == '\n' {
            line += 1;
            col = 1;
            i += 1;
            continue;
        }
        if c.is_whitespace() {
            col += 1;
            i += 1;
            continue;
        }
        let start = i;
        let kind = if c.is_alphabetic() || c == '_' {
            while i < chars.len() && (chars[i].is_alphanumeric() || chars[i] == '_') {
                i += 1;
            }
            let word: String = chars[start..i].iter().collect();
            match word.as_str() {
                "package" => TokenKind::Package,
                "import" => TokenKind::Import,
                "def" => TokenKind::Def,
                _ => TokenKind::Identifier(word),
            }
        } else {
            let rest: String = chars[i..chars.len().min(i + 3)].iter().collect();
            let (kind, len) = if rest.starts_with(":>>") {
                (TokenKind::Redefines, 3)
            } else if rest.starts_with(":>") {
                (TokenKind::Specializes, 2)
            } else if rest.starts_with("::") {
                (TokenKind::ScopeSep, 2)
            } else if rest.starts_with("**") {
                (TokenKind::DoubleStar, 2)
            } else {
                let k = match c {
                    ':' => TokenKind::Colon,
                    ';' => TokenKind::Semicolon,
                    '{' => TokenKind::LBrace,
                    '}' => TokenKind::RBrace,
                    '(' => TokenKind::LParen,
                    ')' => TokenKind::RParen,
                    '[' => TokenKind::LBracket,
                    ']' => TokenKind::RBracket,
                    '<' => TokenKind::LAngle,
                    '>' => TokenKind::RAngle,
                    ',' => TokenKind::Comma,
                    '=' => TokenKind::Equals,
                    '.' => TokenKind::Dot,
                    '*' => TokenKind::Star,
                    '@' => TokenKind::At,
                    '#' => TokenKind::Hash,
                    '$' => TokenKind::Dollar,
                    _ => TokenKind::Other,
                };
                (k, 1)
            };
            i += len;
            kind
        };
        let width = i - start;
        tokens.push(Token {
            kind,
            span: SourceSpan {
                start_line: line,
                start_col: col,
                end_line: line,
                end_col: col + width,
            },
        });
        col += width;
    }
    tokens.push(Token {
        kind: TokenKind::Eof,
        span: SourceSpan { start_line: line, start_col: col, end_line: line, end_col: col },
    });
    tokens
}

fn parse_kerml(input: &str) -> Result<ParsedModule, Diagnostic> {
    parse_kerml_tokens(lex(input))
}

fn kerml_bundle() -> MappingBundle {
    MappingBundle::from_seeds(kerml_construct_seed(), kerml_emission_seed(), None, SemanticDefaultsSeed::default())
        .unwrap()
}

fn span(line: usize, col: usize) -> SourceSpan {
    SourceSpan { start_line: line, start_col: col, end_line: line, end_col: col + 1 }
}

fn name(segments: &[&str]) -> QualifiedName {
    QualifiedName { segments: segments.iter().map(|s| s.to_string()).collect(), span: span(1, 1) }
}

fn usage(construct: &str, owner: &str, declared: &str, modifiers: &[&str]) -> CollectedUsage {
    CollectedUsage {
        construct: construct.to_string(),
        owner_construct: "Package".to_string(),
        owner_qualified_name: owner.to_string(),
        qualified_name: if owner == "root" { declared.to_string() } else { format!("{}.{}", owner, declared) },
        declared_name: declared.to_string(),
        is_implicit_name: false,
        ty: None,
        additional_types: Vec::new(),
        reference_target: None,
        allocation_source: None,
        allocation_target: None,
        metadata_properties: StrMap::new(),
        multiplicity: None,
        specializes: Vec::new(),
        subsets: Vec::new(),
        redefines: Vec::new(),
        members: Vec::new(),
        modifiers: modifiers.iter().map(|s| s.to_string()).collect(),
        docs: Vec::new(),
        span: span(3, 7),
    }
}

fn definition(construct: &str, qualified_name: &str) -> CollectedDefinition {
    CollectedDefinition {
        construct: construct.to_string(),
        qualified_name: qualified_name.to_string(),
        declared_name: qualified_name.rsplit('.').next().unwrap().to_string(),
        is_abstract: false,
        specializes: Vec::new(),
        members: Vec::new(),
        docs: Vec::new(),
        span: span(1, 1),
    }
}

fn usage_map(usages: &[CollectedUsage]) -> StrMap<CollectedUsage> {
    let mut m = StrMap::new();
    for u in usages {
        m.insert(u.qualified_name.clone(), u.duplicate());
    }
    m
}

fn strings(pairs: &[(&str, &str)]) -> StrMap<String> {
    let mut m = StrMap::new();
    for (k, v) in pairs {
        m.insert(k.to_string(), v.to_string());
    }
    m
}

#[test]
fn local_definition_map_keeps_qualified_and_unique_simple_names() {
    let definitions = vec![definition("Classifier", "P.A"), definition("Classifier", "P.B"), definition("Classifier", "P.Q.A")];
    let map = build_local_definition_map(&definitions, &kerml_bundle()).unwrap();
    assert_eq!(map.get("P.A").map(String::as_str), Some("type.P.A"));
    assert_eq!(map.get("P.Q.A").map(String::as_str), Some("type.P.Q.A"));
    assert_eq!(map.get("B").map(String::as_str), Some("type.P.B"));
    assert!(map.get("A").is_none());
    assert_eq!(map.len(), 4);
}

#[test]
fn local_definition_map_adds_conjugated_companions() {
    let mut defaults = SemanticDefaultsSeed::default();
    defaults.definition_companion_policies.insert(
        "PortDefinition".to_string(),
        DefinitionCompanionPolicySeed { generated_companion_construct: Some("ConjugatedPortDefinition".to_string()) },
    );
    let mappings = MappingBundle::from_seeds(kerml_construct_seed(), kerml_emission_seed(), None, defaults).unwrap();
    let map = build_local_definition_map(&[definition("PortDefinition", "P.Port")], &mappings).unwrap();
    assert_eq!(map.get("~Port").map(String::as_str), Some("type.P.Port.~Port"));
    assert_eq!(map.get("P.~Port").map(String::as_str), Some("type.P.Port.~Port"));
    assert_eq!(map.get("Port").map(String::as_str), Some("type.P.Port"));
}

#[test]
fn local_usage_map_and_feature_index_cover_member_trees() {
    let module = parse_kerml(
        "package P {
            classifier V {
                feature e {
                    feature x;
                }
            }
            feature s;
        }",
    )
    .unwrap();
    let collected = collect_module(&module, &kerml_bundle()).unwrap();
    let usages = build_local_usage_map(&collected.definitions, &collected.usages);
    let mut keys: Vec<&str> = Vec::new();
    for i in 0..usages.len() {
        keys.push(usages.key_at(i).as_str());
    }
    assert_eq!(keys, vec!["P.V.e", "P.V.e.x", "P.s"]);
    assert_eq!(usages.get("P.V.e.x").unwrap().owner_qualified_name, "P.V.e");

    let index = build_local_feature_index(&collected.definitions, &collected.usages);
    assert_eq!(index.get("P.V").unwrap().get("e").map(String::as_str), Some("P.V.e"));
    assert_eq!(index.get("P.V.e").unwrap().get("x").map(String::as_str), Some("P.V.e.x"));
    assert_eq!(index.get("P").unwrap().get("s").map(String::as_str), Some("P.s"));
    assert_eq!(index.len(), 3);
}

#[test]
fn imports_resolve_in_order_or_fail_at_the_first_unresolved() {
    let wildcard = CollectedImport {
        owner_package_qualified_name: Some("P".to_string()),
        decl: ImportDecl { path: name(&["Domain", "Vehicles", "*"]), docs: vec!["doc".to_string()], modifiers: Vec::new(), span: span(2, 3) },
    };
    let resolved = resolve_imports(&[wildcard], &[], &StrMap::new(), &StrMap::new(), &StrMap::new()).unwrap();
    assert_eq!(resolved.len(), 1);
    assert_eq!(resolved[0].target_id, "Domain::Vehicles::*");
    assert_eq!(resolved[0].imported_name, None);
    assert_eq!(resolved[0].ordinal, 1);
    assert_eq!(resolved[0].owner_package_qualified_name.as_deref(), Some("P"));
    assert_eq!(resolved[0].docs, vec!["doc".to_string()]);

    let local = CollectedImport {
        owner_package_qualified_name: None,
        decl: ImportDecl { path: name(&["Lib", "Thing"]), docs: Vec::new(), modifiers: Vec::new(), span: span(4, 1) },
    };
    let stdlib_ids = vec!["Lib::Thing".to_string()];
    let resolved = resolve_imports(&[local], &stdlib_ids, &StrMap::new(), &StrMap::new(), &StrMap::new()).unwrap();
    assert_eq!(resolved[0].target_id, "Lib::Thing");
    assert_eq!(resolved[0].imported_name.as_deref(), Some("Thing"));

    let missing = CollectedImport {
        owner_package_qualified_name: None,
        decl: ImportDecl { path: name(&["Nope", "X"]), docs: Vec::new(), modifiers: Vec::new(), span: span(5, 2) },
    };
    let err = resolve_imports(&[missing], &[], &StrMap::new(), &StrMap::new(), &StrMap::new()).unwrap_err();
    assert_eq!(err.message, "unresolved import `Nope::X`");
    assert_eq!(err.span, Some(span(5, 2)));
}

#[test]
fn element_ids_of_comments_and_features() {
    assert_eq!(collected_usage_element_id(&usage("CommentUsage", "P.V", "note", &[])), "comment.P.V.note.3.7");
    assert_eq!(collected_usage_element_id(&usage("FeatureUsage", "P.V", "e", &[])), "feature.P.V.e");
}

#[test]
fn annotation_targets_prefer_the_innermost_scope() {
    let usages = usage_map(&[usage("FeatureUsage", "P.V", "e", &[]), usage("FeatureUsage", "P", "e", &[])]);
    let definitions = strings(&[("P.W", "type.P.W")]);
    let comment = usage("CommentUsage", "P.V", "note", &[]);
    assert_eq!(
        resolve_comment_annotation_target(&comment, &name(&["e"]), &definitions, &usages).as_deref(),
        Some("feature.P.V.e")
    );
    assert_eq!(
        resolve_comment_annotation_target(&comment, &name(&["W"]), &definitions, &usages).as_deref(),
        Some("type.P.W")
    );
    assert_eq!(resolve_comment_annotation_target(&comment, &name(&["P"]), &definitions, &usages).as_deref(), Some("pkg.P"));
    assert_eq!(resolve_comment_annotation_target(&comment, &name(&["Z"]), &definitions, &usages), None);
}

#[test]
fn self_references_and_named_definition_types() {
    let u = usage("ActionUsage", "P", "drive", &[]);
    assert!(is_self_feature_reference(&u, &name(&["drive"])));
    assert!(is_self_feature_reference(&u, &name(&["P", "drive"])));
    assert!(!is_self_feature_reference(&u, &name(&["other"])));

    let definitions = strings(&[("Drive", "type.P.Drive")]);
    assert_eq!(infer_named_definition_type_ref(&u, &definitions).as_deref(), Some("type.P.Drive"));
    let exact = strings(&[("drive", "type.P.drive")]);
    assert_eq!(infer_named_definition_type_ref(&u, &exact).as_deref(), Some("type.P.drive"));
    let not_action = usage("FeatureUsage", "P", "drive", &[]);
    assert_eq!(infer_named_definition_type_ref(&not_action, &definitions), None);
    let mut typed = usage("ActionUsage", "P", "drive", &[]);
    typed.ty = Some(name(&["T"]));
    assert_eq!(infer_named_definition_type_ref(&typed, &definitions), None);
}

#[test]
fn unique_matches_by_modifier_and_definition_owner() {
    let usages = usage_map(&[
        usage("PartUsage", "P.C", "a", &["end", "end-source"]),
        usage("PartUsage", "P.C", "b", &["end", "end-target"]),
        usage("PartUsage", "P.D", "c", &["end", "end-target"]),
    ]);
    let empty: StrMap<StrMap<String>> = StrMap::new();
    assert_eq!(unique_feature_modifier_alias_match_excluding("end-source", &empty, &usages, "X").as_deref(), Some("P.C.a"));
    assert_eq!(unique_feature_modifier_alias_match_excluding("end-source", &empty, &usages, "P.C.a"), None);
    assert_eq!(unique_feature_modifier_alias_match_excluding("end-target", &empty, &usages, "X"), None);
    assert_eq!(unique_feature_modifier_alias_match_excluding("end-target", &empty, &usages, "P.D.c").as_deref(), Some("P.C.b"));

    let mut index: StrMap<StrMap<String>> = StrMap::new();
    index.insert("P.C".to_string(), strings(&[("speed", "P.C.speed")]));
    index.insert("P.u".to_string(), strings(&[("speed", "P.u.speed")]));
    let mut definitions: StrMap<CollectedDefinition> = StrMap::new();
    definitions.insert("P.C".to_string(), definition("Classifier", "P.C"));
    assert_eq!(
        unique_definition_owned_feature_match_excluding("speed", &index, &definitions, "none").as_deref(),
        Some("P.C.speed")
    );
    assert_eq!(unique_definition_owned_feature_match_excluding("speed", &index, &definitions, "P.C.speed"), None);
}

#[test]
fn local_usage_names_follow_namespace_aliases() {
    let usages = usage_map(&[usage("FeatureUsage", "P.V", "e", &[])]);
    let mut aliases: StrMap<QualifiedName> = StrMap::new();
    aliases.insert("Short".to_string(), name(&["P", "V"]));
    let imports = ImportAliases {
        value_aliases: StrMap::new(),
        namespace_aliases: StrMap::new(),
        ambiguous_value_aliases: StrMap::new(),
        ambiguous_namespace_aliases: StrMap::new(),
    };
    assert_eq!(resolve_local_usage_qualified_name(&name(&["P", "V", "e"]), &aliases, &imports, &usages).as_deref(), Some("P.V.e"));
    assert_eq!(resolve_local_usage_qualified_name(&name(&["Short", "e"]), &aliases, &imports, &usages).as_deref(), Some("P.V.e"));
    assert_eq!(resolve_local_usage_qualified_name(&name(&["Short", "f"]), &aliases, &imports, &usages), None);
}
