use mercurio_sysml::kerml::ast::{
    Declaration, GenericDefinitionDecl, GenericUsageDecl, PackageDecl, ParsedModule, QualifiedName,
};
use mercurio_sysml::kerml::parser::parse_kerml_tokens;
use mercurio_sysml::kerml::token::{Diagnostic, SourceSpan, Token, TokenKind};
use mercurio_sysml::lowering::bundle::MappingBundle;
use mercurio_sysml::lowering::collect::{
    collect_generic_definition, collect_generic_usage, definition_specializations_with_default,
};
use mercurio_sysml::lowering::collect_walk::{collect_module, collect_modules};
use mercurio_sysml::lowering::emit::{kerml_construct_seed, kerml_emission_seed};
use mercurio_sysml::lowering::rules::{
    LoweringAstPattern, LoweringCollectRule, LoweringElaborationRule, LoweringEmitRule, LoweringPilotSources,
    LoweringRule, LoweringRuleSeed,
};
use mercurio_sysml::lowering::semantic_defaults::SemanticDefaultsSeed;
use mercurio_sysml::strmap::StrMap;

/// Splits KerML text into tokens the way the language lexer does for the
/// constructs these tests use.
fn lex(input: &str) -> Vec<Token> {
    let chars: Vec<char> = input.chars().collect();
    let mut tokens = Vec::new();
    let mut i = 0;
    let mut line = 1;
    let mut col = 1;
    while i < chars.len() {
        let c = chars[i];
        if c == '\n' {
            line += 1;
            col = 1;
            i += 1;
            continue;
        }
        if c.is_whitespace() {
            col += 1;
            i += 1;
            continue;
        }
        let start = i;
        let kind = if c.is_alphabetic() || c == '_' {
            while i < chars.len() && (chars[i].is_alphanumeric() || chars[i] == '_') {
                i += 1;
            }
            let word: String = chars[start..i].iter().collect();
            match word.as_str() {
                "package" => TokenKind::Package,
                "import" => TokenKind::Import,
                "def" => TokenKind::Def,
                _ => TokenKind::Identifier(word),
            }
        } else {
            let rest: String = chars[i..chars.len().min(i + 3)].iter().collect();
            let (kind, len) = if rest.starts_with(":>>") {
                (TokenKind::Redefines, 3)
            } else if rest.starts_with(":>") {
                (TokenKind::Specializes, 2)
            } else if rest.starts_with("::") {
                (TokenKind::ScopeSep, 2)
            } else if rest.starts_with("**") {
                (TokenKind::DoubleStar, 2)
            } else {
                let k = match c {
                    ':' => TokenKind::Colon,
                    ';' => TokenKind::Semicolon,
                    '{' => TokenKind::LBrace,
                    '}' => TokenKind::RBrace,
                    '(' => TokenKind::LParen,
                    ')' => TokenKind::RParen,
                    '[' => TokenKind::LBracket,
                    ']' => TokenKind::RBracket,
                    '<' => TokenKind::LAngle,
                    '>' => TokenKind::RAngle,
                    ',' => TokenKind::Comma,
                    '=' => TokenKind::Equals,
                    '.' => TokenKind::Dot,
                    '*' => TokenKind::Star,
                    '@' => TokenKind::At,
                    '#' => TokenKind::Hash,
                    '$' => TokenKind::Dollar,
                    _ => TokenKind::Other,
                };
                (k, 1)
            };
            i += len;
            kind
        };
        let width = i - start;
        tokens.push(Token {
            kind,
            span: SourceSpan {
                start_line: line,
                start_col: col,
                end_line: line,
                end_col: col + width,
            },
        });
        col += width;
    }
    tokens.push(Token {
        kind: TokenKind::Eof,
        span: SourceSpan { start_line: line, start_col: col, end_line: line, end_col: col },
    });
    tokens
}

fn parse_kerml(input: &str) -> Result<ParsedModule, Diagnostic> {
    parse_kerml_tokens(lex(input))
}


fn kerml_bundle() -> MappingBundle {
    MappingBundle::from_seeds(kerml_construct_seed(), kerml_emission_seed(), None, SemanticDefaultsSeed::default())
        .unwrap()
}

fn bundle_with_rules(rules: Vec<LoweringRule>) -> MappingBundle {
    MappingBundle::from_seeds(
        kerml_construct_seed(),
        kerml_emission_seed(),
        Some(LoweringRuleSeed { schema_version: 1, source: StrMap::new(), rules }),
        SemanticDefaultsSeed::default(),
    )
    .unwrap()
}

fn rule(construct: &str, node: &str, keyword: &str, name: &str, fields: &[(&str, &str)], steps: &[&str]) -> LoweringRule {
    let mut field_map = StrMap::new();
    for (k, v) in fields {
        field_map.insert(k.to_string(), v.to_string());
    }
    LoweringRule {
        construct: construct.to_string(),
        metaclass: "KerML::Classifier".to_string(),
        status: None,
        ast: LoweringAstPattern { node: node.to_string(), keyword: Some(keyword.to_string()) },
        collect: LoweringCollectRule {
            element: "definition".to_string(),
            name: name.to_string(),
            owner: "$scope.package".to_string(),
            fields: field_map,
        },
        elaborate: steps
            .iter()
            .map(|id| LoweringElaborationRule { id: id.to_string(), when: None, set: StrMap::new(), note: None })
            .collect(),
        emit: LoweringEmitRule { id_template: "type.{qualified_name}".to_string(), properties: StrMap::new() },
        pilot_sources: LoweringPilotSources::default(),
    }
}

fn span() -> SourceSpan {
    SourceSpan { start_line: 1, start_col: 1, end_line: 1, end_col: 2 }
}

fn name(segments: &[&str]) -> QualifiedName {
    QualifiedName { segments: segments.iter().map(|s| s.to_string()).collect(), span: span() }
}

fn usage_decl(keyword: &str, name: &str, modifiers: &[&str]) -> GenericUsageDecl {
    GenericUsageDecl {
        keyword: keyword.to_string(),
        name: name.to_string(),
        is_implicit_name: false,
        ty: None,
        reference_target: None,
        allocation_source: None,
        allocation_target: None,
        additional_types: Vec::new(),
        specializes: Vec::new(),
        subsets: Vec::new(),
        redefines: Vec::new(),
        metadata_properties: StrMap::new(),
        multiplicity: None,
        body_members: Vec::new(),
        docs: Vec::new(),
        modifiers: modifiers.iter().map(|s| s.to_string()).collect(),
        span: span(),
    }
}

fn definition_decl(keyword: &str, name: &str, members: Vec<Declaration>) -> GenericDefinitionDecl {
    GenericDefinitionDecl {
        keyword: keyword.to_string(),
        name: name.to_string(),
        specializes: Vec::new(),
        members,
        docs: Vec::new(),
        modifiers: Vec::new(),
        span: span(),
    }
}

fn segments_of(q: &QualifiedName) -> Vec<&str> {
    q.segments.iter().map(|s| s.as_str()).collect()
}

const SOURCE: &str = "package Demo {
    import Domain::Vehicles::*;
    abstract classifier Vehicle {
        feature engine : Engine;
        alias E for engine;
    }
    feature speed;
    alias V for Vehicle;
    package Inner {
        classifier Part;
    }
}";

#[test]
fn collect_module_gathers_declarations_in_source_order() {
    let module = parse_kerml(SOURCE).unwrap();
    let collected = collect_module(&module, &kerml_bundle()).unwrap();

    let packages: Vec<(&str, Option<&str>, &str)> = collected
        .packages
        .iter()
        .map(|p| (p.qualified_name.as_str(), p.owner_package_qualified_name.as_deref(), p.declared_name.as_str()))
        .collect();
    assert_eq!(packages, vec![("Demo", None, "Demo"), ("Demo.Inner", Some("Demo"), "Inner")]);

    assert_eq!(collected.imports.len(), 1);
    assert_eq!(collected.imports[0].owner_package_qualified_name.as_deref(), Some("Demo"));
    assert_eq!(segments_of(&collected.imports[0].decl.path), vec!["Domain", "Vehicles", "*"]);

    let definitions: Vec<(&str, &str, bool)> = collected
        .definitions
        .iter()
        .map(|d| (d.qualified_name.as_str(), d.construct.as_str(), d.is_abstract))
        .collect();
    // The KerML grammar reads a classifier's modifiers but does not keep them.
    assert_eq!(definitions, vec![("Demo.Vehicle", "Classifier", false), ("Demo.Inner.Part", "Classifier", false)]);

    let vehicle = &collected.definitions[0];
    assert_eq!(vehicle.members.len(), 1);
    let engine = &vehicle.members[0];
    assert_eq!(engine.construct, "FeatureUsage");
    assert_eq!(engine.owner_construct, "Classifier");
    assert_eq!(engine.owner_qualified_name, "Demo.Vehicle");
    assert_eq!(engine.qualified_name, "Demo.Vehicle.engine");
    assert_eq!(segments_of(engine.ty.as_ref().unwrap()), vec!["Engine"]);

    assert_eq!(collected.usages.len(), 1);
    assert_eq!(collected.usages[0].qualified_name, "Demo.speed");
    assert_eq!(collected.usages[0].owner_qualified_name, "Demo");
    assert_eq!(collected.usages[0].owner_construct, "Package");

    let aliases: Vec<(&str, &str, Vec<&str>)> = collected
        .aliases
        .iter()
        .map(|a| (a.qualified_name.as_str(), a.declared_name.as_str(), segments_of(&a.target)))
        .collect();
    assert_eq!(
        aliases,
        vec![
            ("Demo.V", "V", vec!["Demo", "Vehicle"]),
            ("Demo.Vehicle.E", "E", vec!["Demo", "Vehicle", "engine"]),
        ]
    );
}

#[test]
fn root_level_members_are_owned_by_the_root() {
    let module = parse_kerml("feature top; classifier C;").unwrap();
    let collected = collect_module(&module, &kerml_bundle()).unwrap();
    assert!(collected.packages.is_empty());
    assert_eq!(collected.usages[0].qualified_name, "top");
    assert_eq!(collected.usages[0].owner_qualified_name, "root");
    assert_eq!(collected.definitions[0].qualified_name, "C");
}

#[test]
fn collect_modules_concatenates_in_order() {
    let a = parse_kerml("package A { classifier X; }").unwrap();
    let b = parse_kerml("package B { classifier Y; }").unwrap();
    let collected = collect_modules(&[a, b], &kerml_bundle()).unwrap();
    let names: Vec<&str> = collected.definitions.iter().map(|d| d.qualified_name.as_str()).collect();
    assert_eq!(names, vec!["A.X", "B.Y"]);
    let packages: Vec<&str> = collected.packages.iter().map(|p| p.qualified_name.as_str()).collect();
    assert_eq!(packages, vec!["A", "B"]);
}

#[test]
fn definitions_get_semantic_default_specializations() {
    let mut seed = kerml_construct_seed();
    seed.semantic_specialization_defaults
        .definitions
        .insert("Classifier".to_string(), vec!["Base::Anything".to_string()]);
    let mappings = MappingBundle::from_seeds(seed, kerml_emission_seed(), None, SemanticDefaultsSeed::default()).unwrap();
    let defaults = definition_specializations_with_default("Classifier", &Vec::new(), &mappings);
    assert_eq!(defaults.len(), 1);
    assert_eq!(segments_of(&defaults[0]), vec!["Base", "Anything"]);
    assert_eq!(defaults[0].span, SourceSpan { start_line: 0, start_col: 0, end_line: 0, end_col: 0 });
    let explicit = definition_specializations_with_default("Classifier", &vec![name(&["Own"])], &mappings);
    assert_eq!(segments_of(&explicit[0]), vec!["Own"]);

    let mut abstract_decl = definition_decl("classifier", "C", Vec::new());
    abstract_decl.modifiers.push("abstract".to_string());
    let c = collect_generic_definition(&abstract_decl, &["P".to_string()], &mappings).unwrap();
    assert_eq!(segments_of(&c.specializes[0]), vec!["Base", "Anything"]);
    assert_eq!(c.qualified_name, "P.C");
    assert!(c.is_abstract);

    let explicit_only = MappingBundle::from_seeds(
        {
            let mut seed = kerml_construct_seed();
            seed.semantic_specialization_defaults
                .definitions
                .insert("Classifier".to_string(), vec!["Base::Anything".to_string()]);
            seed
        },
        kerml_emission_seed(),
        Some(LoweringRuleSeed {
            schema_version: 1,
            source: StrMap::new(),
            rules: vec![rule(
                "Classifier",
                "GenericDefinitionDecl",
                "classifier",
                "$ast.name",
                &[("specializes", "$ast.specializes")],
                &[],
            )],
        }),
        SemanticDefaultsSeed::default(),
    )
    .unwrap();
    let c = collect_generic_definition(&definition_decl("classifier", "C", Vec::new()), &["P".to_string()], &explicit_only)
        .unwrap();
    assert!(c.specializes.is_empty());
}

#[test]
fn rules_with_unsupported_collect_expressions_are_reported() {
    let bad_name = bundle_with_rules(vec![rule("Classifier", "GenericDefinitionDecl", "classifier", "$ast.other", &[], &[])]);
    let err = collect_module(&parse_kerml("package P { classifier C; }").unwrap(), &bad_name).unwrap_err();
    assert_eq!(err.message, "lowering rule `Classifier` collect expression `$ast.other` in `name` is not executable here");

    let bad_field = bundle_with_rules(vec![rule(
        "Classifier",
        "GenericDefinitionDecl",
        "classifier",
        "$ast.name",
        &[("docs", "$ast.docs"), ("weird", "$ast.unknown")],
        &[],
    )]);
    let err = collect_generic_definition(&definition_decl("classifier", "C", Vec::new()), &[], &bad_field).unwrap_err();
    assert_eq!(err.message, "lowering rule `Classifier` collect expression `$ast.unknown` in `weird` is not executable here");
    assert!(err.span.is_none());
}

#[test]
fn usage_rules_add_end_and_name_reference_targets() {
    let mappings = bundle_with_rules(vec![rule(
        "FeatureUsage",
        "GenericUsageDecl",
        "feature",
        "$ast.name",
        &[("modifiers", "$ast.modifiers + end"), ("reference_target", "$ast.reference_target or $ast.name")],
        &[],
    )]);
    let u = collect_generic_usage(&usage_decl("feature", "port", &["in"]), "P.Conn", "Classifier", &mappings).unwrap();
    assert_eq!(u.construct, "FeatureUsage");
    assert_eq!(u.qualified_name, "P.Conn.port");
    assert_eq!(u.modifiers, vec!["in", "end"]);
    assert_eq!(segments_of(u.reference_target.as_ref().unwrap()), vec!["port"]);

    let already_end = collect_generic_usage(&usage_decl("feature", "p", &["end"]), "root", "Package", &mappings).unwrap();
    assert_eq!(already_end.modifiers, vec!["end"]);
    assert_eq!(already_end.qualified_name, "p");

    let plain = collect_generic_usage(&usage_decl("feature", "q", &[]), "P", "Package", &kerml_bundle()).unwrap();
    assert!(plain.modifiers.is_empty());
    assert!(plain.reference_target.is_none());
}

#[test]
fn connection_definitions_mark_their_end_directions() {
    let mappings = bundle_with_rules(vec![rule(
        "ConnectionDefinition",
        "GenericDefinitionDecl",
        "connection",
        "$ast.name",
        &[],
        &["connection-end-direction"],
    )]);
    let members = vec![
        Declaration::GenericUsage(usage_decl("part", "a", &["end"])),
        Declaration::GenericUsage(usage_decl("part", "mid", &[])),
        Declaration::GenericUsage(usage_decl("part", "b", &["end"])),
        Declaration::GenericUsage(usage_decl("part", "c", &["end"])),
    ];
    let module = ParsedModule {
        package: None,
        imports: Vec::new(),
        members: vec![Declaration::Package(PackageDecl {
            name: name(&["P"]),
            members: vec![Declaration::GenericDefinition(definition_decl("connection", "Link", members))],
            imports: Vec::new(),
            definitions: Vec::new(),
            docs: Vec::new(),
            modifiers: Vec::new(),
            span: span(),
        })],
    };
    let collected = collect_module(&module, &mappings).unwrap();
    let link = &collected.definitions[0];
    assert_eq!(link.construct, "ConnectionDefinition");
    let modifiers: Vec<Vec<String>> = link.members.iter().map(|m| m.modifiers.clone()).collect();
    assert_eq!(
        modifiers,
        vec![
            vec!["end".to_string(), "end-source".to_string()],
            Vec::<String>::new(),
            vec!["end".to_string(), "end-target".to_string()],
            vec!["end".to_string(), "end-target".to_string()],
        ]
    );
    assert_eq!(link.members[0].construct, "PartUsage");
}
