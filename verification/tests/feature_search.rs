use mercurio_sysml::kerml::ast::{ParsedModule, QualifiedName};
use mercurio_sysml::kerml::parser::parse_kerml_tokens;
use mercurio_sysml::kerml::token::{Diagnostic, SourceSpan, Token, TokenKind};
use mercurio_sysml::lowering::bundle::MappingBundle;
use mercurio_sysml::lowering::collect::ImportAliases;
use mercurio_sysml::lowering::context::ResolverContext;
use mercurio_sysml::lowering::emit::{kerml_construct_seed, kerml_emission_seed};
use mercurio_sysml::lowering::feature_refs::Tables;
use mercurio_sysml::lowering::feature_search::{
    infer_usage_type_from_feature_id, resolve_feature_reference, resolve_redefinition_feature_reference,
    resolve_reference_usage_target,
};
use mercurio_sysml::lowering::semantic_defaults::SemanticDefaultsSeed;
use mercurio_sysml::strmap::StrMap;

/// Splits KerML text into tokens the way the language lexer does for the
/// constructs these tests use.
fn lex(input: &str) -> Vec<Token> {
    let chars: Vec<char> = input.chars().collect();
    let mut tokens = Vec::new();
    let mut i = 0;
    let mut line = 1;
    let mut col = 1;
    while i < chars.len() {
        let c = chars[i];
        if c == '\n' {
            line += 1;
            col = 1;
            i += 1;
            continue;
        }
        if c.is_whitespace() {
            col += 1;
            i += 1;
            continue;
        }
        let start = i;
        let kind = if c.is_alphabetic() || c == '_' {
            while i < chars.len() && (chars[i].is_alphanumeric() || chars[i] == '_') {
                i += 1;
            }
            let word: String = chars[start..i].iter().collect();
            match word.as_str() {
                "package" => TokenKind::Package,
                "import" => TokenKind::Import,
                "def" => TokenKind::Def,
                _ => TokenKind::Identifier(word),
            }
        } else {
            let rest: String = chars[i..chars.len().min(i + 3)].iter().collect();
            let (kind, len) = if rest.starts_with(":>>") {
                (TokenKind::Redefines, 3)
            } else if rest.starts_with(":>") {
                (TokenKind::Specializes, 2)
            } else if rest.starts_with("::") {
                (TokenKind::ScopeSep, 2)
            } else if rest.starts_with("**") {
                (TokenKind::DoubleStar, 2)
            } else {
                let k = match c {
                    ':' => TokenKind::Colon,
                    ';' => TokenKind::Semicolon,
                    '{' => TokenKind::LBrace,
                    '}' => TokenKind::RBrace,
                    '(' => TokenKind::LParen,
                    ')' => TokenKind::RParen,
                    '[' => TokenKind::LBracket,
                    ']' => TokenKind::RBracket,
                    '<' => TokenKind::LAngle,
                    '>' => TokenKind::RAngle,
                    ',' => TokenKind::Comma,
                    '=' => TokenKind::Equals,
                    '.' => TokenKind::Dot,
                    '*' => TokenKind::Star,
                    '@' => TokenKind::At,
                    '#' => TokenKind::Hash,
                    '$' => TokenKind::Dollar,
                    _ => TokenKind::Other,
                };
                (k, 1)
            };
            i += len;
            kind
        };
        let width = i - start;
        tokens.push(Token {
            kind,
            span: SourceSpan {
                start_line: line,
                start_col: col,
                end_line: line,
                end_col: col + width,
            },
        });
        col += width;
    }
    tokens.push(Token {
        kind: TokenKind::Eof,
        span: SourceSpan { start_line: line, start_col: col, end_line: line, end_col: col },
    });
    tokens
}

fn parse_kerml(input: &str) -> Result<ParsedModule, Diagnostic> {
    parse_kerml_tokens(lex(input))
}

fn kerml_bundle() -> MappingBundle {
    MappingBundle::from_seeds(kerml_construct_seed(), kerml_emission_seed(), None, SemanticDefaultsSeed::default())
        .unwrap()
}

fn name(segments: &[&str]) -> QualifiedName {
    QualifiedName {
        segments: segments.iter().map(|s| s.to_string()).collect(),
        span: SourceSpan { start_line: 1, start_col: 1, end_line: 1, end_col: 2 },
    }
}

const VEHICLES: &str = "package P {
    classifier Vehicle {
        feature mass;
        feature engine {
            feature power;
        }
    }
    classifier Car :> Vehicle {
        feature wheels;
    }
    feature car : Car {
        feature m :>> mass;
        feature p;
    }
}";

fn context() -> ResolverContext {
    let module = parse_kerml(VEHICLES).unwrap();
    ResolverContext::from_modules(&[module], &[], &kerml_bundle()).unwrap()
}

fn no_imports() -> ImportAliases {
    ImportAliases {
        value_aliases: StrMap::new(),
        namespace_aliases: StrMap::new(),
        ambiguous_value_aliases: StrMap::new(),
        ambiguous_namespace_aliases: StrMap::new(),
    }
}

fn with_tables<R>(context: &ResolverContext, f: impl FnOnce(&Tables) -> R) -> R {
    let aliases = StrMap::new();
    let imports = no_imports();
    let tables = Tables {
        stdlib_ids: &context.library_indexes.ids,
        stdlib_feature_index: &context.library_indexes.feature_index,
        stdlib_aliases: &context.library_indexes.aliases,
        local_definitions: &context.local_definitions,
        local_aliases: &aliases,
        import_aliases: &imports,
        definition_index: &context.definition_index,
        local_feature_index: &context.local_feature_index,
        local_usage_map: &context.local_usage_map,
    };
    f(&tables)
}

#[test]
fn a_simple_name_resolves_to_the_one_feature_so_named() {
    let context = context();
    let usage = context.local_usage_map.get("P.car.m").unwrap();
    let found = with_tables(&context, |t| resolve_feature_reference(t, usage, &name(&["mass"])));
    assert_eq!(found.as_deref(), Some("feature.P.Vehicle.mass"));
}

#[test]
fn a_longer_name_resolves_through_a_feature_the_owner_inherits() {
    let context = context();
    let usage = context.local_usage_map.get("P.car.p").unwrap();
    let found = with_tables(&context, |t| resolve_feature_reference(t, usage, &name(&["engine", "power"])));
    assert_eq!(found.as_deref(), Some("feature.P.Vehicle.engine.power"));
}

#[test]
fn an_unknown_name_does_not_resolve() {
    let context = context();
    let usage = context.local_usage_map.get("P.car.p").unwrap();
    let found = with_tables(&context, |t| resolve_feature_reference(t, usage, &name(&["nothing", "here"])));
    assert_eq!(found, None);
}

#[test]
fn a_redefinition_resolves_to_the_inherited_feature() {
    let context = context();
    let usage = context.local_usage_map.get("P.car.m").unwrap();
    let found = with_tables(&context, |t| resolve_redefinition_feature_reference(t, usage, &name(&["mass"])));
    assert_eq!(found.as_deref(), Some("feature.P.Vehicle.mass"));
}

#[test]
fn a_reference_target_resolves_from_the_enclosing_scope() {
    let context = context();
    let usage = context.local_usage_map.get("P.car.p").unwrap();
    let found = with_tables(&context, |t| resolve_reference_usage_target(t, usage, &name(&["wheels"])));
    assert_eq!(found.as_deref(), Some("feature.P.Car.wheels"));
}

#[test]
fn the_type_of_a_feature_is_its_usage_type() {
    let context = context();
    let found = with_tables(&context, |t| infer_usage_type_from_feature_id(t, "feature.P.car"));
    assert_eq!(found.as_deref(), Some("type.P.Car"));
    let untyped = with_tables(&context, |t| infer_usage_type_from_feature_id(t, "feature.P.car.p"));
    assert_eq!(untyped, None);
    let not_a_feature = with_tables(&context, |t| infer_usage_type_from_feature_id(t, "type.P.Car"));
    assert_eq!(not_a_feature, None);
}
