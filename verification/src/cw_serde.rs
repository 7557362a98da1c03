//! The normaliser: attaches the standard annotation bundle to a data-type
//! definition.

use vstd::prelude::*;

verus! {

/// What kind of data type a definition declares.
#[derive(Clone, Copy, Debug, PartialEq, Eq, Structural)]
pub enum DataKind {
    Struct,
    Enum,
    Union,
}

/// A capability that a `derive` annotation asks for.
#[derive(Clone, Copy, Debug, PartialEq, Eq, Structural)]
pub enum Capability {
    Serialize,
    Deserialize,
    CloneValue,
    DebugPrint,
    CompareEqual,
    JsonSchema,
}

/// An annotation on a definition.
#[derive(Clone, Debug, PartialEq, Eq)]
pub enum Annotation {
    /// Derive the listed capabilities.
    Derive(Vec<Capability>),
    /// Let the definition compare for equality without being a total
    /// equivalence.
    AllowPartialEqWithoutEq,
    /// The serialisation policy: whether undeclared fields are refused, and
    /// whether variants are renamed to snake case.
    Serde { deny_unknown_fields: bool, rename_all_snake_case: bool },
    /// Any other annotation (documentation among them), as written.
    Other(String),
}

/// A data-type definition: its annotations and what it declares.
#[derive(Clone, Debug, PartialEq, Eq)]
pub struct TypeDefinition {
    pub annotations: Vec<Annotation>,
    pub visibility: String,
    pub name: String,
    pub generics: Vec<String>,
    pub kind: DataKind,
    /// The fields of a struct or union, the variants of an enum, as written.
    pub members: Vec<String>,
}

/// The capabilities of the standard bundle, in order.
pub open spec fn capabilities() -> Seq<Capability> {
    seq![
        Capability::Serialize,
        Capability::Deserialize,
        Capability::CloneValue,
        Capability::DebugPrint,
        Capability::CompareEqual,
        Capability::JsonSchema,
    ]
}

/// Whether `bundle` is the standard bundle for a definition of `kind`: the
/// six capabilities, the lint allowance, and the serialisation policy that
/// refuses unknown fields and renames to snake case for an enum alone.
pub open spec fn is_bundle(bundle: Seq<Annotation>, kind: DataKind) -> bool {
    &&& bundle.len() == 3
    &&& bundle[0] matches Annotation::Derive(caps) && caps@ == capabilities()
    &&& bundle[1] == Annotation::AllowPartialEqWithoutEq
    &&& bundle[2] == (Annotation::Serde {
        deny_unknown_fields: true,
        rename_all_snake_case: kind == DataKind::Enum,
    })
}

/// The definition with the standard bundle in front of its annotations.
/// Nothing else changes. A union has no bundle.
pub fn cw_serde_impl(input: TypeDefinition) -> (out: TypeDefinition)
    requires
        input.kind != DataKind::Union,
    ensures
        out.visibility == input.visibility,
        out.name == input.name,
        out.generics == input.generics,
        out.kind == input.kind,
        out.members == input.members,
        out.annotations@.len() == input.annotations@.len() + 3,
        is_bundle(out.annotations@.take(3), input.kind),
        out.annotations@.skip(3) == input.annotations@,
{
    let derive = Annotation::Derive(
        vec![
            Capability::Serialize,
            Capability::Deserialize,
            Capability::CloneValue,
            Capability::DebugPrint,
            Capability::CompareEqual,
            Capability::JsonSchema,
        ],
    );
    let serde = match input.kind {
        DataKind::Enum => Annotation::Serde { deny_unknown_fields: true, rename_all_snake_case: true },
        _ => Annotation::Serde { deny_unknown_fields: true, rename_all_snake_case: false },
    };
    let TypeDefinition { annotations, visibility, name, generics, kind, members } = input;
    let mut annotations = annotations;
    annotations.insert(0, serde);
    annotations.insert(0, Annotation::AllowPartialEqWithoutEq);
    annotations.insert(0, derive);
    proof {
        assert(derive matches Annotation::Derive(caps) && caps@ =~= capabilities());
        assert(annotations@.skip(3) =~= input.annotations@);
    }
    TypeDefinition { annotations, visibility, name, generics, kind, members }
}

} // verus!
