use mercurio_sysml::kerml::ast::{Declaration, ParsedModule};
use mercurio_sysml::kerml::module::KermlLanguageModule;
use mercurio_sysml::kerml::parser::{
    is_definition_keyword, is_modifier, is_relation_keyword_name, parse_kerml_tokens,
};
use mercurio_sysml::kerml::token::{Diagnostic, SourceSpan, Token, TokenKind};

/// Splits KerML text into tokens the way the language lexer does for the
/// constructs these tests use.
fn lex(input: &str) -> Vec<Token> {
    let chars: Vec<char> = input.chars().collect();
    let mut tokens = Vec::new();
    let mut i = 0;
    let mut line = 1;
    let mut col = 1;
    while i < chars.len() {
        let c = chars[i];
        if c == '\n' {
            line += 1;
            col = 1;
            i += 1;
            continue;
        }
        if c.is_whitespace() {
            col += 1;
            i += 1;
            continue;
        }
        let start = i;
        let kind = if c.is_alphabetic() || c == '_' {
            while i < chars.len() && (chars[i].is_alphanumeric() || chars[i] == '_') {
                i += 1;
            }
            let word: String = chars[start..i].iter().collect();
            match word.as_str() {
                "package" => TokenKind::Package,
                "import" => TokenKind::Import,
                "def" => TokenKind::Def,
                _ => TokenKind::Identifier(word),
            }
        } else {
            let rest: String = chars[i..chars.len().min(i + 3)].iter().collect();
            let (kind, len) = if rest.starts_with(":>>") {
                (TokenKind::Redefines, 3)
            } else if rest.starts_with(":>") {
                (TokenKind::Specializes, 2)
            } else if rest.starts_with("::") {
                (TokenKind::ScopeSep, 2)
            } else if rest.starts_with("**") {
                (TokenKind::DoubleStar, 2)
            } else {
                let k = match c {
                    ':' => TokenKind::Colon,
                    ';' => TokenKind::Semicolon,
                    '{' => TokenKind::LBrace,
                    '}' => TokenKind::RBrace,
                    '(' => TokenKind::LParen,
                    ')' => TokenKind::RParen,
                    '[' => TokenKind::LBracket,
                    ']' => TokenKind::RBracket,
                    '<' => TokenKind::LAngle,
                    '>' => TokenKind::RAngle,
                    ',' => TokenKind::Comma,
                    '=' => TokenKind::Equals,
                    '.' => TokenKind::Dot,
                    '*' => TokenKind::Star,
                    '@' => TokenKind::At,
                    '#' => TokenKind::Hash,
                    '$' => TokenKind::Dollar,
                    _ => TokenKind::Other,
                };
                (k, 1)
            };
            i += len;
            kind
        };
        let width = i - start;
        tokens.push(Token {
            kind,
            span: SourceSpan {
                start_line: line,
                start_col: col,
                end_line: line,
                end_col: col + width,
            },
        });
        col += width;
    }
    tokens.push(Token {
        kind: TokenKind::Eof,
        span: SourceSpan { start_line: line, start_col: col, end_line: line, end_col: col },
    });
    tokens
}

fn parse_kerml(input: &str) -> Result<ParsedModule, Diagnostic> {
    parse_kerml_tokens(lex(input))
}

#[test]
fn facade_parses_minimal_kerml() {
    let module = parse_kerml("package Demo { classifier Vehicle; }").unwrap();

    assert!(module.package.is_some());
}

#[test]
fn parses_minimal_classifier_and_feature() {
    let module = parse_kerml(
        "package Demo {
            classifier Vehicle {
                feature engine : Engine;
            }
            classifier Engine;
        }",
    )
    .unwrap();

    let package = module.package.unwrap();
    assert_eq!(package.name.as_dot_string(), "Demo");
    assert_eq!(package.members.len(), 2);
}

#[test]
fn parses_wildcard_imports() {
    let module = parse_kerml(
        "package Demo {
            import Domain::Vehicles::*;
            import Domain.Analysis.**;
        }",
    )
    .unwrap();

    let package = module.package.unwrap();
    let imports = package.imports;
    assert_eq!(imports[0].path.as_dot_string(), "Domain.Vehicles.*");
    assert_eq!(imports[1].path.as_dot_string(), "Domain.Analysis.**");
}

#[test]
fn parses_feature_relationship_tails() {
    let module = parse_kerml(
        "package Demo {
            classifier Vehicle {
                feature base;
                feature engine : Engine :> poweredFeature subsets base redefines oldEngine;
            }
            classifier Engine;
        }",
    )
    .unwrap();

    let package = module.package.unwrap();
    let classifier = match &package.members[0] {
        Declaration::GenericDefinition(definition) => definition,
        _ => panic!("expected classifier"),
    };
    let feature = match &classifier.members[1] {
        Declaration::GenericUsage(usage) => usage,
        _ => panic!("expected feature"),
    };
    assert_eq!(feature.name, "engine");
    assert_eq!(feature.specializes[0].as_dot_string(), "poweredFeature");
    assert_eq!(feature.subsets[0].as_dot_string(), "base");
    assert_eq!(feature.redefines[0].as_dot_string(), "oldEngine");
}

#[test]
fn module_imports_and_package_come_from_members() {
    let module = parse_kerml("import Base::*; package Demo { classifier A; } package Other;").unwrap();
    assert_eq!(module.imports.len(), 1);
    assert_eq!(module.imports[0].path.as_dot_string(), "Base.*");
    assert_eq!(module.package.unwrap().name.as_dot_string(), "Demo");
    assert_eq!(module.members.len(), 3);
}

#[test]
fn feature_type_and_body_members_are_kept() {
    let module = parse_kerml(
        "package Demo { classifier Car { feature wheel : Wheel { feature hub; } } }",
    )
    .unwrap();
    let package = module.package.unwrap();
    let car = match &package.members[0] {
        Declaration::GenericDefinition(definition) => definition,
        _ => panic!("expected classifier"),
    };
    let wheel = match &car.members[0] {
        Declaration::GenericUsage(usage) => usage,
        _ => panic!("expected feature"),
    };
    assert_eq!(wheel.ty.as_ref().unwrap().as_dot_string(), "Wheel");
    assert_eq!(wheel.body_members.len(), 1);
}

#[test]
fn unterminated_package_is_an_error() {
    assert!(parse_kerml("package Demo {").is_err());
}

#[test]
fn keyword_tables() {
    assert!(is_definition_keyword("classifier"));
    assert!(is_definition_keyword("struct"));
    assert!(!is_definition_keyword("feature"));
    assert!(is_modifier("abstract"));
    assert!(!is_modifier("classifier"));
    assert!(is_relation_keyword_name("subsets"));
    assert!(is_relation_keyword_name("featured"));
    assert!(!is_relation_keyword_name("by"));
}

#[test]
fn kerml_language_module_identifies_kerml() {
    let module = KermlLanguageModule;
    assert_eq!(module.language_id(), "kerml");
    assert_eq!(module.extensions(), &["kerml"]);
}
