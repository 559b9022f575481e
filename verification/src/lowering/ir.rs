//! The resolved intermediate representation that resolution hands to
//! emission.
use vstd::prelude::*;

pub use crate::kerml::ast::MultiplicityRange;
use crate::kerml::token::SourceSpan;
use crate::strmap::StrMap;

verus! {

/// A resolved package.
#[derive(Debug, Clone)]
pub struct ResolvedPackage {
    pub owner_package_qualified_name: Option<String>,
    pub qualified_name: String,
    pub declared_name: String,
    pub docs: Vec<String>,
    pub span: SourceSpan,
}

/// A resolved import.
#[derive(Debug, Clone)]
pub struct ResolvedImport {
    pub owner_package_qualified_name: Option<String>,
    pub target_id: String,
    pub imported_name: Option<String>,
    pub docs: Vec<String>,
    pub span: SourceSpan,
    pub ordinal: usize,
}

/// One step of a feature path in an expression: the name written and the
/// feature it resolved to.
#[derive(Debug, Clone, PartialEq, Eq)]
pub struct ResolvedPathSegment {
    pub name: String,
    pub feature_id: String,
}


/// A resolved module: its packages, imports, definitions and top-level
/// usages.
#[derive(Debug)]
pub struct ResolvedModule {
    pub packages: Vec<ResolvedPackage>,
    pub imports: Vec<ResolvedImport>,
    pub definitions: Vec<ResolvedDefinition>,
    pub usages: Vec<ResolvedUsage>,
}

/// A resolved definition and its member usages.
#[derive(Debug)]
pub struct ResolvedDefinition {
    pub construct: String,
    pub qualified_name: String,
    pub declared_name: String,
    pub is_abstract: bool,
    pub specializes: Vec<String>,
    pub members: Vec<ResolvedUsage>,
    pub docs: Vec<String>,
    pub span: SourceSpan,
}

/// A resolved usage: what it is, where it is, what it references and
/// specializes, and its members.
#[derive(Debug)]
pub struct ResolvedUsage {
    pub construct: String,
    pub owner_construct: String,
    pub owner_qualified_name: String,
    pub qualified_name: String,
    pub declared_name: String,
    pub is_implicit_name: bool,
    pub has_explicit_type: bool,
    pub type_ref: Option<String>,
    pub additional_type_refs: Vec<String>,
    pub reference_target: Option<String>,
    pub allocation_source: Option<String>,
    pub allocation_target: Option<String>,
    pub metadata_properties: StrMap<String>,
    pub multiplicity: Option<MultiplicityRange>,
    pub expression: Option<ResolvedExpr>,
    pub is_derived: bool,
    pub specializes: Vec<String>,
    pub specialized_features: Vec<String>,
    pub subsetted_features: Vec<String>,
    pub redefined_features: Vec<String>,
    pub members: Vec<ResolvedUsage>,
    pub modifiers: Vec<String>,
    pub docs: Vec<String>,
    pub span: SourceSpan,
}

/// A unary operator of an expression.
#[derive(Debug, Clone, Copy, PartialEq, Eq, Structural)]
pub enum UnaryOp {
    Negate,
    Not,
}

/// A binary operator of an expression.
#[derive(Debug, Clone, Copy, PartialEq, Eq, Structural)]
pub enum BinaryOp {
    Add,
    Subtract,
    Multiply,
    Divide,
    Power,
    Equal,
    NotEqual,
    Less,
    LessEqual,
    Greater,
    GreaterEqual,
    And,
    Or,
}

/// A resolved expression.
#[derive(Debug)]
pub enum ResolvedExpr {
    Literal(serde_json::Value),
    SelfRef,
    Tuple { items: Vec<ResolvedExpr> },
    FeaturePath { segments: Vec<ResolvedPathSegment> },
    Unary { op: UnaryOp, expr: Box<ResolvedExpr> },
    Binary { left: Box<ResolvedExpr>, op: BinaryOp, right: Box<ResolvedExpr> },
    Call { function: String, args: Vec<ResolvedExpr> },
}

} // verus!
