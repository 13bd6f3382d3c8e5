//! The schema model: the variants of an enum, their field slots, kind tags
//! and per-language templates, built from what the front end read.
use vstd::prelude::*;
use crate::template::{names_view, Unresolved};
use crate::text::{decimal, decimal_string};

verus! {

/// A variant as the front end read it: its name, the names of its fields
/// (`None` for an unnamed field), and its `kind`, `en` and `ja` attributes.
#[derive(Debug, Clone, PartialEq, Eq)]
pub struct RawVariant {
    pub name: String,
    pub fields: Vec<Option<String>>,
    pub kind: Option<String>,
    pub en: Option<String>,
    pub ja: Option<String>,
}

/// The shape of the annotated type: an enum with its variants, or anything
/// else.
#[derive(Debug, Clone, PartialEq, Eq)]
pub enum TypeShape {
    Enum(Vec<RawVariant>),
    Other,
}

/// One variant of the schema, with its field slot names in declaration order.
#[derive(Debug, Clone, PartialEq, Eq)]
pub struct VariantDescriptor {
    pub name: String,
    pub slots: Vec<String>,
    pub kind: Option<String>,
    pub en: Option<String>,
    pub ja: Option<String>,
}

/// The annotated type's name and its variants, in declaration order.
#[derive(Debug, Clone, PartialEq, Eq)]
pub struct SchemaModel {
    pub enum_name: String,
    pub variants: Vec<VariantDescriptor>,
}

/// Why a schema does not compile.
#[derive(Debug, Clone, PartialEq, Eq)]
pub enum CompileError {
    /// The annotated type is not an enum.
    NotAnEnum { enum_name: String },
    /// A placeholder of a template names no field slot of its variant.
    PlaceholderResolution {
        variant: String,
        placeholder: String,
        slot: Option<usize>,
        fields: Vec<String>,
    },
    /// A variant has a template but no kind tag.
    MissingKind { variant: String },
}

/// `CompileError` over views.
pub enum Failure {
    NotAnEnum(Seq<char>),
    PlaceholderResolution { variant: Seq<char>, at: Unresolved, fields: Seq<Seq<char>> },
    MissingKind(Seq<char>),
}

impl CompileError {
    pub open spec fn view(&self) -> Failure {
        match self {
            CompileError::NotAnEnum { enum_name } => Failure::NotAnEnum(enum_name@),
            CompileError::PlaceholderResolution { variant, placeholder, slot, fields } => {
                Failure::PlaceholderResolution {
                    variant: variant@,
                    at: Unresolved {
                        placeholder: placeholder@,
                        slot: match slot {
                            Some(k) => Some(*k as nat),
                            None => None,
                        },
                    },
                    fields: names_view(fields@),
                }
            },
            CompileError::MissingKind { variant } => Failure::MissingKind(variant@),
        }
    }
}

/// The view of an optional string.
pub open spec fn opt_view(o: Option<String>) -> Option<Seq<char>> {
    match o {
        Some(s) => Some(s@),
        None => None,
    }
}

/// The slot name of field `i`: its declared name, else `v` and its position.
pub open spec fn slot_name(field: Option<Seq<char>>, i: nat) -> Seq<char> {
    match field {
        Some(n) => n,
        None => seq!['v'] + decimal(i),
    }
}

/// The slot names of a field list.
pub open spec fn slot_names(fields: Seq<Option<String>>) -> Seq<Seq<char>> {
    Seq::new(fields.len(), |i: int| slot_name(opt_view(fields[i]), i as nat))
}

/// `t::n`, the qualified name of variant `n` of type `t`.
pub open spec fn qualified(t: Seq<char>, n: Seq<char>) -> Seq<char> {
    t + seq![':', ':'] + n
}

/// The descriptor that the raw variant `r` gives.
pub open spec fn describes(v: VariantDescriptor, r: RawVariant) -> bool {
    &&& v.name@ == r.name@
    &&& names_view(v.slots@) == slot_names(r.fields@)
    &&& opt_view(v.kind) == opt_view(r.kind)
    &&& opt_view(v.en) == opt_view(r.en)
    &&& opt_view(v.ja) == opt_view(r.ja)
}

/// A copy of an optional string.
pub(crate) fn clone_opt(o: &Option<String>) -> (r: Option<String>)
    ensures
        opt_view(r) == opt_view(*o),
{
    match o {
        Some(s) => Some(s.clone()),
        None => None,
    }
}

/// Writes `t::n`.
pub fn qualified_name(t: &str, n: &str) -> (r: String)
    ensures
        r@ == qualified(t@, n@),
{
    let mut r = String::from_str(t);
    r.append("::");
    r.append(n);
    proof {
        reveal_strlit("::");
    }
    assert(r@ =~= qualified(t@, n@));
    r
}

/// The slot names of a variant's fields, in declaration order: a field's
/// declared name, or `v0`, `v1`, ... by position where it has none.
pub fn field_slots(fields: &Vec<Option<String>>) -> (r: Vec<String>)
    ensures
        names_view(r@) == slot_names(fields@),
{
    let mut r: Vec<String> = Vec::new();
    let mut i: usize = 0;
    while i < fields.len()
        invariant
            i <= fields@.len(),
            r@.len() == i,
            forall|j: int| 0 <= j < i ==> (#[trigger] r@[j])@ == slot_name(opt_view(fields@[j]), j as nat),
        decreases fields.len() - i,
    {
        let name = match &fields[i] {
            Some(n) => n.clone(),
            None => {
                let mut s = String::from_str("v");
                s.append(decimal_string(i).as_str());
                proof {
                    reveal_strlit("v");
                }
                assert(s@ =~= seq!['v'] + decimal(i as nat));
                s
            },
        };
        r.push(name);
        i = i + 1;
    }
    assert(names_view(r@) =~= slot_names(fields@));
    r
}

/// Builds the schema model of an annotated type: for an enum, one descriptor
/// per variant, in order; anything else is a structural error.
pub fn build_model(enum_name: &str, shape: &TypeShape) -> (r: Result<SchemaModel, CompileError>)
    ensures
        match shape {
            TypeShape::Other => r is Err && r->Err_0.view() == Failure::NotAnEnum(enum_name@),
            TypeShape::Enum(raw) => r is Ok && r->Ok_0.enum_name@ == enum_name@
                && r->Ok_0.variants@.len() == raw@.len() && forall|i: int|
                0 <= i < raw@.len() ==> describes(#[trigger] r->Ok_0.variants@[i], raw@[i]),
        },
{
    match shape {
        TypeShape::Other => Err(CompileError::NotAnEnum { enum_name: String::from_str(enum_name) }),
        TypeShape::Enum(raw) => {
            let mut variants: Vec<VariantDescriptor> = Vec::new();
            let mut i: usize = 0;
            while i < raw.len()
                invariant
                    i <= raw@.len(),
                    variants@.len() == i,
                    forall|j: int| 0 <= j < i ==> describes(#[trigger] variants@[j], raw@[j]),
                decreases raw.len() - i,
            {
                let rv = &raw[i];
                variants.push(
                    VariantDescriptor {
                        name: rv.name.clone(),
                        slots: field_slots(&rv.fields),
                        kind: clone_opt(&rv.kind),
                        en: clone_opt(&rv.en),
                        ja: clone_opt(&rv.ja),
                    },
                );
                i = i + 1;
            }
            Ok(SchemaModel { enum_name: String::from_str(enum_name), variants })
        },
    }
}


/// Names separated by `, `.
pub open spec fn joined(names: Seq<Seq<char>>) -> Seq<char>
    decreases names.len(),
{
    if names.len() == 0 {
        Seq::empty()
    } else if names.len() == 1 {
        names[0]
    } else {
        joined(names.drop_last()) + ", "@ + names.last()
    }
}

/// The report of a failure.
pub open spec fn report(f: Failure) -> Seq<char> {
    match f {
        Failure::NotAnEnum(e) => "`"@ + e + "` is not an enum: only enums have translations."@,
        Failure::PlaceholderResolution { variant, at, fields } => "Format argument `"@
            + at.placeholder + "` of `"@ + variant + "` is invalid"@ + match at.slot {
            Some(k) => " (no field slot `v"@ + decimal(k) + "`)"@,
            None => Seq::empty(),
        } + "; its fields are ["@ + joined(fields) + "]."@,
        Failure::MissingKind(variant) => "Console log `"@ + variant + "` has no kind."@,
    }
}

/// Writes `names` separated by `, `.
fn join_names(names: &Vec<String>) -> (r: String)
    ensures
        r@ == joined(names_view(names@)),
{
    let ghost v = names_view(names@);
    let mut r = String::new();
    let mut i: usize = 0;
    while i < names.len()
        invariant
            i <= names@.len(),
            v == names_view(names@),
            r@ == joined(v.subrange(0, i as int)),
        decreases names.len() - i,
    {
        let ghost pre = v.subrange(0, i as int);
        assert(v.subrange(0, i + 1).drop_last() =~= pre);
        assert(v.subrange(0, i + 1).last() == names@[i as int]@);
        if i > 0 {
            r.append(", ");
        } else {
            assert(r@ =~= Seq::<char>::empty());
            assert(Seq::<char>::empty() + names@[0]@ =~= names@[0]@);
        }
        r.append(names[i].as_str());
        i = i + 1;
    }
    assert(v.subrange(0, i as int) =~= v);
    r
}

impl CompileError {
    /// A report of the failure for the author of the schema: what failed,
    /// and in which variant.
    pub fn message(&self) -> (r: String)
        ensures
            r@ == report(self.view()),
    {
        match self {
            CompileError::NotAnEnum { enum_name } => {
                let mut r = String::from_str("`");
                r.append(enum_name.as_str());
                r.append("` is not an enum: only enums have translations.");
                r
            },
            CompileError::PlaceholderResolution { variant, placeholder, slot, fields } => {
                let mut r = String::from_str("Format argument `");
                r.append(placeholder.as_str());
                r.append("` of `");
                r.append(variant.as_str());
                r.append("` is invalid");
                match slot {
                    Some(k) => {
                        r.append(" (no field slot `v");
                        r.append(decimal_string(*k).as_str());
                        r.append("`)");
                    },
                    None => {},
                }
                r.append("; its fields are [");
                r.append(join_names(fields).as_str());
                r.append("].");
                r
            },
            CompileError::MissingKind { variant } => {
                let mut r = String::from_str("Console log `");
                r.append(variant.as_str());
                r.append("` has no kind.");
                r
            },
        }
    }
}

} // verus!
