//! Input and output data model of the derivation engine.
//!
//! The input is the already-parsed declaration surface: one canonical record
//! (name, ordered field list, record-level annotations) plus the list of
//! declared variant names. The output is the derived family: one record per
//! variant, one capability interface per field, and the conversions between
//! every ordered pair of variants.

use vstd::prelude::*;

verus! {

// ---------------------------------------------------------------------------
// Input surface
// ---------------------------------------------------------------------------

/// One argument of a parenthesized directive: a string literal, or an
/// argument of any other shape (which no recognized directive accepts).
pub enum DirectiveArg {
    Str(String),
    Other,
}

/// One directive-shaped annotation: a name, either bare (`default`) or with
/// a parenthesized argument list (`only_in("A", "B")`).
pub struct Directive {
    pub name: String,
    pub args: Option<Vec<DirectiveArg>>,
}

/// One raw annotation as it stands on a field or on the record: either a
/// directive addressed to this engine, or plain decoration text that is kept
/// verbatim in the output.
pub enum RawAttr {
    Directive(Directive),
    Plain(String),
}

/// One field of the canonical record, as declared: a name, a declared type
/// (kept as opaque text), and its raw annotation list.
pub struct FieldInput {
    pub name: String,
    pub ty: String,
    pub attrs: Vec<RawAttr>,
}

/// The whole input of one derivation: the canonical record and the declared
/// extra variant names, in declaration order.
pub struct CanonicalRecord {
    pub name: String,
    pub attrs: Vec<RawAttr>,
    pub fields: Vec<FieldInput>,
    pub variants: Vec<String>,
}

// ---------------------------------------------------------------------------
// Errors
// ---------------------------------------------------------------------------

/// Why a derivation was rejected. Every error aborts the whole derivation;
/// the payload names the offending directive or variant.
#[derive(Debug)]
pub enum DeriveError {
    /// An annotation does not match any recognized directive shape; holds
    /// the directive name.
    MalformedAnnotation(String),
    /// More than one of the mutually exclusive inclusion directives stands
    /// on one field; holds the name of the later directive.
    ConflictingDirective(String),
    /// A directive references a variant name that was never declared; holds
    /// that name.
    UnknownVariant(String),
    /// A field lacks a name.
    UnnamedField,
}

/// The mathematical shadow of `DeriveError`, over character sequences.
pub enum ErrModel {
    Malformed(Seq<char>),
    Conflicting(Seq<char>),
    Unknown(Seq<char>),
    Unnamed,
}

impl View for DeriveError {
    type V = ErrModel;

    open spec fn view(&self) -> ErrModel {
        match self {
            DeriveError::MalformedAnnotation(s) => ErrModel::Malformed(s@),
            DeriveError::ConflictingDirective(s) => ErrModel::Conflicting(s@),
            DeriveError::UnknownVariant(s) => ErrModel::Unknown(s@),
            DeriveError::UnnamedField => ErrModel::Unnamed,
        }
    }
}

// ---------------------------------------------------------------------------
// Fields and variants
// ---------------------------------------------------------------------------

/// One field of a derived record: its name, declared type, the annotations
/// kept verbatim (the engine's own directives are stripped), and whether a
/// missing-field conversion may synthesize it from its type's fallback value.
pub struct FieldSpec {
    pub name: String,
    pub ty: String,
    pub decorations: Vec<String>,
    pub default: bool,
}

/// The mathematical view of a `FieldSpec`.
pub struct FieldModel {
    pub name: Seq<char>,
    pub ty: Seq<char>,
    pub decorations: Seq<Seq<char>>,
    pub default: bool,
}

impl View for FieldSpec {
    type V = FieldModel;

    open spec fn view(&self) -> FieldModel {
        FieldModel {
            name: self.name@,
            ty: self.ty@,
            decorations: self.decorations.deep_view(),
            default: self.default,
        }
    }
}

/// The views of a field list, in order.
pub open spec fn field_views(s: Seq<FieldSpec>) -> Seq<FieldModel> {
    s.map_values(|f: FieldSpec| f@)
}

/// The names of a (viewed) field list, in order.
pub open spec fn field_names(s: Seq<FieldModel>) -> Seq<Seq<char>> {
    s.map_values(|f: FieldModel| f.name)
}

/// One derived record: a name, record-level decorations, and the field list
/// the distributor assigned to it (a subsequence of the canonical order).
pub struct Variant {
    pub name: String,
    pub decorations: Vec<String>,
    pub fields: Vec<FieldSpec>,
}

/// The mathematical view of a `Variant`.
pub struct VariantModel {
    pub name: Seq<char>,
    pub decorations: Seq<Seq<char>>,
    pub fields: Seq<FieldModel>,
}

impl View for Variant {
    type V = VariantModel;

    open spec fn view(&self) -> VariantModel {
        VariantModel {
            name: self.name@,
            decorations: self.decorations.deep_view(),
            fields: field_views(self.fields@),
        }
    }
}

/// The names of a variant list, in order.
pub open spec fn variant_names(vs: Seq<Variant>) -> Seq<Seq<char>> {
    vs.map_values(|v: Variant| v.name@)
}

// ---------------------------------------------------------------------------
// Output surface
// ---------------------------------------------------------------------------

/// The accessor capability of one canonical field: the interface name, its
/// paired absence marker, the setter name, and which variants implement
/// which of the two.
pub struct Capability {
    pub field_name: String,
    pub ty: String,
    pub trait_name: String,
    pub neg_trait_name: String,
    pub setter_name: String,
    pub implementors: Vec<String>,
    pub absentees: Vec<String>,
}

/// An unconditional source-to-target conversion: every copied field comes
/// from the source, every defaulted field from its type's fallback value.
pub struct FromConversion {
    pub copied: Vec<String>,
    pub defaulted: Vec<String>,
}

/// A named conversion method on the source: copies the common fields, fills
/// the `defaulted` fields from fallback values, and takes one argument per
/// field in `args` (in canonical field order).
pub struct MethodConversion {
    pub method: String,
    pub copied: Vec<String>,
    pub defaulted: Vec<String>,
    pub args: Vec<FieldSpec>,
}

/// Everything synthesized for one ordered pair of distinct variants.
pub struct PairConversions {
    pub source: String,
    pub target: String,
    pub from: Option<FromConversion>,
    pub into_all: Option<MethodConversion>,
    pub into_defaults: Option<MethodConversion>,
}

/// The assembled output of one derivation.
pub struct Derivation {
    pub canonical: String,
    pub variants: Vec<Variant>,
    pub capabilities: Vec<Capability>,
    pub conversions: Vec<PairConversions>,
}

} // verus!
