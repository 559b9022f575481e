use mercurio_sysml::kerml::ast::{ParsedModule, QualifiedName};
use mercurio_sysml::kerml::parser::parse_kerml_tokens;
use mercurio_sysml::kerml::token::{Diagnostic, SourceSpan, Token, TokenKind};
use mercurio_sysml::lowering::bundle::MappingBundle;
use mercurio_sysml::lowering::collect::ImportAliases;
use mercurio_sysml::lowering::context::ResolverContext;
use mercurio_sysml::lowering::emit::{kerml_construct_seed, kerml_emission_seed};
use mercurio_sysml::lowering::feature_refs::Tables;
use mercurio_sysml::lowering::feature_search::{
    infer_usage_type_from_feature_id, resolve_feature_reference, resolve_redefinition_feature_reference,
    resolve_reference_usage_target,
};
use mercurio_sysml::lowering::imports::{kerml_resolve_policy, strict_resolve_policy};
use mercurio_sysml::lowering::semantic_defaults::SemanticDefaultsSeed;
use mercurio_sysml::lowering::usage_resolution::{resolve_definition, resolve_usage, unresolved_or_error};
use mercurio_sysml::strmap::StrMap;

/// Splits KerML text into tokens the way the language lexer does for the
/// constructs these tests use.
fn lex(input: &str) -> Vec<Token> {
    let chars: Vec<char> = input.chars().collect();
    let mut tokens = Vec::new();
    let mut i = 0;
    let mut line = 1;
    let mut col = 1;
    while i < chars.len() {
        let c = chars[i];
        if c == '\n' {
            line += 1;
            col = 1;
            i += 1;
            continue;
        }
        if c.is_whitespace() {
            col += 1;
            i += 1;
            continue;
        }
        let start = i;
        let kind = if c.is_alphabetic() || c == '_' {
            while i < chars.len() && (chars[i].is_alphanumeric() || chars[i] == '_') {
                i += 1;
            }
            let word: String = chars[start..i].iter().collect();
            match word.as_str() {
                "package" => TokenKind::Package,
                "import" => TokenKind::Import,
                "def" => TokenKind::Def,
                _ => TokenKind::Identifier(word),
            }
        } else {
            let rest: String = chars[i..chars.len().min(i + 3)].iter().collect();
            let (kind, len) = if rest.starts_with(":>>") {
                (TokenKind::Redefines, 3)
            } else if rest.starts_with(":>") {
                (TokenKind::Specializes, 2)
            } else if rest.starts_with("::") {
                (TokenKind::ScopeSep, 2)
            } else if rest.starts_with("**") {
                (TokenKind::DoubleStar, 2)
            } else {
                let k = match c {
                    ':' => TokenKind::Colon,
                    ';' => TokenKind::Semicolon,
                    '{' => TokenKind::LBrace,
                    '}' => TokenKind::RBrace,
                    '(' => TokenKind::LParen,
                    ')' => TokenKind::RParen,
                    '[' => TokenKind::LBracket,
                    ']' => TokenKind::RBracket,
                    '<' => TokenKind::LAngle,
                    '>' => TokenKind::RAngle,
                    ',' => TokenKind::Comma,
                    '=' => TokenKind::Equals,
                    '.' => TokenKind::Dot,
                    '*' => TokenKind::Star,
                    '@' => TokenKind::At,
                    '#' => TokenKind::Hash,
                    '$' => TokenKind::Dollar,
                    _ => TokenKind::Other,
                };
                (k, 1)
            };
            i += len;
            kind
        };
        let width = i - start;
        tokens.push(Token {
            kind,
            span: SourceSpan {
                start_line: line,
                start_col: col,
                end_line: line,
                end_col: col + width,
            },
        });
        col += width;
    }
    tokens.push(Token {
        kind: TokenKind::Eof,
        span: SourceSpan { start_line: line, start_col: col, end_line: line, end_col: col },
    });
    tokens
}

fn parse_kerml(input: &str) -> Result<ParsedModule, Diagnostic> {
    parse_kerml_tokens(lex(input))
}

fn kerml_bundle() -> MappingBundle {
    MappingBundle::from_seeds(kerml_construct_seed(), kerml_emission_seed(), None, SemanticDefaultsSeed::default())
        .unwrap()
}

fn name(segments: &[&str]) -> QualifiedName {
    QualifiedName {
        segments: segments.iter().map(|s| s.to_string()).collect(),
        span: SourceSpan { start_line: 1, start_col: 1, end_line: 1, end_col: 2 },
    }
}

const VEHICLES: &str = "package P {
    classifier Vehicle {
        feature mass;
    }
    classifier Car :> Vehicle {
        feature wheels;
    }
    feature car : Car {
        feature m :>> mass;
        feature p;
    }
    feature broken : Nope;
}";

fn context() -> ResolverContext {
    let module = parse_kerml(VEHICLES).unwrap();
    ResolverContext::from_modules(&[module], &[], &kerml_bundle()).unwrap()
}

fn no_imports() -> ImportAliases {
    ImportAliases {
        value_aliases: StrMap::new(),
        namespace_aliases: StrMap::new(),
        ambiguous_value_aliases: StrMap::new(),
        ambiguous_namespace_aliases: StrMap::new(),
    }
}

fn with_tables<R>(context: &ResolverContext, f: impl FnOnce(&Tables) -> R) -> R {
    let aliases = StrMap::new();
    let imports = no_imports();
    let tables = Tables {
        stdlib_ids: &context.library_indexes.ids,
        stdlib_feature_index: &context.library_indexes.feature_index,
        stdlib_aliases: &context.library_indexes.aliases,
        local_definitions: &context.local_definitions,
        local_aliases: &aliases,
        import_aliases: &imports,
        definition_index: &context.definition_index,
        local_feature_index: &context.local_feature_index,
        local_usage_map: &context.local_usage_map,
    };
    f(&tables)
}

#[test]
fn a_usage_resolves_its_type_and_its_members_redefinitions() {
    let context = context();
    let bundle = kerml_bundle();
    let usage = context.local_usage_map.get("P.car").unwrap();
    let resolved = with_tables(&context, |t| resolve_usage(t, usage, &bundle, strict_resolve_policy())).unwrap();
    assert_eq!(resolved.qualified_name, "P.car");
    assert_eq!(resolved.type_ref.as_deref(), Some("type.P.Car"));
    assert!(resolved.has_explicit_type);
    assert!(!resolved.is_derived);
    assert!(resolved.expression.is_none());
    assert_eq!(resolved.members.len(), 2);
    assert_eq!(resolved.members[0].qualified_name, "P.car.m");
    assert_eq!(resolved.members[0].redefined_features, vec!["feature.P.Vehicle.mass".to_string()]);
    assert!(!resolved.members[0].has_explicit_type);
    assert!(resolved.members[1].redefined_features.is_empty());
}

#[test]
fn an_unresolved_type_fails_a_strict_resolution() {
    let context = context();
    let bundle = kerml_bundle();
    let usage = context.local_usage_map.get("P.broken").unwrap();
    let failure = with_tables(&context, |t| resolve_usage(t, usage, &bundle, strict_resolve_policy())).unwrap_err();
    assert_eq!(failure.message, "unresolved type `Nope`");
    assert!(failure.span.is_some());
}

#[test]
fn an_unresolved_type_is_kept_as_written_by_the_kerml_policy() {
    let context = context();
    let bundle = kerml_bundle();
    let usage = context.local_usage_map.get("P.broken").unwrap();
    let resolved = with_tables(&context, |t| resolve_usage(t, usage, &bundle, kerml_resolve_policy())).unwrap();
    assert_eq!(resolved.type_ref.as_deref(), Some("Nope"));
}

#[test]
fn a_definition_resolves_its_specializations_and_members() {
    let context = context();
    let bundle = kerml_bundle();
    let definition = context.definition_index.get("P.Car").unwrap();
    let resolved = with_tables(&context, |t| resolve_definition(t, definition, &bundle, strict_resolve_policy())).unwrap();
    assert_eq!(resolved.specializes, vec!["type.P.Vehicle".to_string()]);
    assert_eq!(resolved.members.len(), 1);
    assert_eq!(resolved.members[0].qualified_name, "P.Car.wheels");
}

#[test]
fn unresolved_references_are_kept_or_reported_by_policy() {
    let n = name(&["A", "B"]);
    assert_eq!(unresolved_or_error(Some("type.X".to_string()), &n, "type", strict_resolve_policy()).unwrap(), "type.X");
    assert_eq!(unresolved_or_error(None, &n, "type", kerml_resolve_policy()).unwrap(), "A::B");
    let e = unresolved_or_error(None, &n, "subset target", strict_resolve_policy()).unwrap_err();
    assert_eq!(e.message, "unresolved subset target `A::B`");
}

#[test]
fn a_usage_that_resolves_strictly_resolves_alike_when_keeping_unresolved_references() {
    let context = context();
    let bundle = kerml_bundle();
    let usage = context.local_usage_map.get("P.car").unwrap();
    let strict = with_tables(&context, |t| resolve_usage(t, usage, &bundle, strict_resolve_policy())).unwrap();
    let kept = with_tables(&context, |t| resolve_usage(t, usage, &bundle, kerml_resolve_policy())).unwrap();
    assert_eq!(strict.type_ref, kept.type_ref);
    assert_eq!(strict.members.len(), kept.members.len());
    assert_eq!(strict.members[0].redefined_features, kept.members[0].redefined_features);
    assert_eq!(strict.specialized_features, kept.specialized_features);
}
