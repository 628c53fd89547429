//! The exportable description of a declared type.
//!
//! A [`TypeDefinition`] is the structural shape of one declared input or output
//! type: its name, generic parameters, fields or variants, and the declaration
//! site kept for diagnostics. Two definitions are *structurally identical* when
//! everything but the declaration site agrees; the export pipeline merges such
//! definitions silently and rejects same-named definitions that differ.

use crate::order::str_eq;
use vstd::prelude::*;

verus! {

/// Build-local identifier of a declared type; not stable across builds.
pub type TypeId = u64;

/// One field of a struct shape or of an enum variant.
#[derive(Debug)]
pub struct Field {
    pub name: String,
    pub ty: String,
}

/// One variant of an enum shape.
#[derive(Debug)]
pub struct Variant {
    pub name: String,
    pub fields: Vec<Field>,
}

/// The structural shape of a declared type: a set of fields or a set of variants.
#[derive(Debug)]
pub enum TypeShape {
    Struct { fields: Vec<Field> },
    Enum { variants: Vec<Variant> },
}

/// The declaration site of a type, kept for diagnostics only.
#[derive(Debug)]
pub struct Location {
    pub file: String,
    pub line: u64,
}

/// The exportable definition of one declared type.
#[derive(Debug)]
pub struct TypeDefinition {
    pub name: String,
    pub generics: Vec<String>,
    pub shape: TypeShape,
    pub location: Location,
}

/// Mathematical view of a [`Field`].
#[verifier::ext_equal]
pub struct FieldV {
    pub name: Seq<char>,
    pub ty: Seq<char>,
}

/// Mathematical view of a [`Variant`].
#[verifier::ext_equal]
pub struct VariantV {
    pub name: Seq<char>,
    pub fields: Seq<FieldV>,
}

/// Mathematical view of a [`TypeShape`].
#[verifier::ext_equal]
pub enum ShapeV {
    Struct { fields: Seq<FieldV> },
    Enum { variants: Seq<VariantV> },
}

/// The structural part of a definition: everything but the declaration site.
#[verifier::ext_equal]
pub struct StructuralV {
    pub name: Seq<char>,
    pub generics: Seq<Seq<char>>,
    pub shape: ShapeV,
}

/// Mathematical view of a [`Location`].
#[verifier::ext_equal]
pub struct LocationV {
    pub file: Seq<char>,
    pub line: u64,
}

/// Mathematical view of a [`TypeDefinition`].
#[verifier::ext_equal]
pub struct DefV {
    pub structural: StructuralV,
    pub location: LocationV,
}

pub open spec fn fields_v(fs: Seq<Field>) -> Seq<FieldV> {
    fs.map_values(|f: Field| f@)
}

pub open spec fn variants_v(vs: Seq<Variant>) -> Seq<VariantV> {
    vs.map_values(|v: Variant| v@)
}

pub open spec fn strings_v(ss: Seq<String>) -> Seq<Seq<char>> {
    ss.map_values(|s: String| s@)
}

impl View for Field {
    type V = FieldV;

    open spec fn view(&self) -> FieldV {
        FieldV { name: self.name@, ty: self.ty@ }
    }
}

impl View for Variant {
    type V = VariantV;

    open spec fn view(&self) -> VariantV {
        VariantV { name: self.name@, fields: fields_v(self.fields@) }
    }
}

impl View for TypeShape {
    type V = ShapeV;

    open spec fn view(&self) -> ShapeV {
        match self {
            TypeShape::Struct { fields } => (ShapeV::Struct { fields: fields_v(fields@) }),
            TypeShape::Enum { variants } => (ShapeV::Enum { variants: variants_v(variants@) }),
        }
    }
}

impl View for Location {
    type V = LocationV;

    open spec fn view(&self) -> LocationV {
        LocationV { file: self.file@, line: self.line }
    }
}

impl View for TypeDefinition {
    type V = DefV;

    open spec fn view(&self) -> DefV {
        DefV {
            structural: StructuralV {
                name: self.name@,
                generics: strings_v(self.generics@),
                shape: self.shape@,
            },
            location: self.location@,
        }
    }
}

/// Field-by-field equality of two fields.
pub fn field_eq(a: &Field, b: &Field) -> (r: bool)
    ensures
        r == (a@ == b@),
{
    let r = str_eq(&a.name, &b.name) && str_eq(&a.ty, &b.ty);
    proof {
        if r {
            assert(a@ =~= b@);
        }
    }
    r
}

/// Pointwise equality of two field lists.
pub fn fields_eq(a: &Vec<Field>, b: &Vec<Field>) -> (r: bool)
    ensures
        r == (fields_v(a@) == fields_v(b@)),
{
    if a.len() != b.len() {
        assert(fields_v(a@).len() != fields_v(b@).len());
        return false;
    }
    let n = a.len();
    let mut i: usize = 0;
    while i < n
        invariant
            0 <= i <= n,
            n == a@.len() == b@.len(),
            forall|j: int| 0 <= j < i ==> fields_v(a@)[j] == fields_v(b@)[j],
        decreases n - i,
    {
        if !field_eq(&a[i], &b[i]) {
            assert(fields_v(a@)[i as int] != fields_v(b@)[i as int]);
            return false;
        }
        i = i + 1;
    }
    proof {
        assert(fields_v(a@) =~= fields_v(b@));
    }
    true
}

/// Pointwise equality of two generic-parameter lists.
pub fn strings_eq(a: &Vec<String>, b: &Vec<String>) -> (r: bool)
    ensures
        r == (strings_v(a@) == strings_v(b@)),
{
    if a.len() != b.len() {
        assert(strings_v(a@).len() != strings_v(b@).len());
        return false;
    }
    let n = a.len();
    let mut i: usize = 0;
    while i < n
        invariant
            0 <= i <= n,
            n == a@.len() == b@.len(),
            forall|j: int| 0 <= j < i ==> strings_v(a@)[j] == strings_v(b@)[j],
        decreases n - i,
    {
        if !str_eq(&a[i], &b[i]) {
            assert(strings_v(a@)[i as int] != strings_v(b@)[i as int]);
            return false;
        }
        i = i + 1;
    }
    proof {
        assert(strings_v(a@) =~= strings_v(b@));
    }
    true
}

/// Field-by-field equality of two variants.
pub fn variant_eq(a: &Variant, b: &Variant) -> (r: bool)
    ensures
        r == (a@ == b@),
{
    let r = str_eq(&a.name, &b.name) && fields_eq(&a.fields, &b.fields);
    proof {
        if r {
            assert(a@ =~= b@);
        }
    }
    r
}

/// Pointwise equality of two variant lists.
pub fn variants_eq(a: &Vec<Variant>, b: &Vec<Variant>) -> (r: bool)
    ensures
        r == (variants_v(a@) == variants_v(b@)),
{
    if a.len() != b.len() {
        assert(variants_v(a@).len() != variants_v(b@).len());
        return false;
    }
    let n = a.len();
    let mut i: usize = 0;
    while i < n
        invariant
            0 <= i <= n,
            n == a@.len() == b@.len(),
            forall|j: int| 0 <= j < i ==> variants_v(a@)[j] == variants_v(b@)[j],
        decreases n - i,
    {
        if !variant_eq(&a[i], &b[i]) {
            assert(variants_v(a@)[i as int] != variants_v(b@)[i as int]);
            return false;
        }
        i = i + 1;
    }
    proof {
        assert(variants_v(a@) =~= variants_v(b@));
    }
    true
}

/// Equality of two shapes.
pub fn shape_eq(a: &TypeShape, b: &TypeShape) -> (r: bool)
    ensures
        r == (a@ == b@),
{
    match (a, b) {
        (TypeShape::Struct { fields: fa }, TypeShape::Struct { fields: fb }) => {
            let r = fields_eq(fa, fb);
            proof {
                if r {
                    assert(a@ =~= b@);
                }
            }
            r
        },
        (TypeShape::Enum { variants: va }, TypeShape::Enum { variants: vb }) => {
            let r = variants_eq(va, vb);
            proof {
                if r {
                    assert(a@ =~= b@);
                }
            }
            r
        },
        _ => false,
    }
}

/// Are two definitions structurally identical (the declaration site aside)?
pub fn structural_eq(a: &TypeDefinition, b: &TypeDefinition) -> (r: bool)
    ensures
        r == (a@.structural == b@.structural),
{
    let r = str_eq(&a.name, &b.name) && strings_eq(&a.generics, &b.generics) && shape_eq(
        &a.shape,
        &b.shape,
    );
    proof {
        if r {
            assert(a@.structural =~= b@.structural);
        }
    }
    r
}

/// Are two definitions identical, the declaration site included?
pub fn def_eq(a: &TypeDefinition, b: &TypeDefinition) -> (r: bool)
    ensures
        r == (a@ == b@),
{
    let r = structural_eq(a, b) && str_eq(&a.location.file, &b.location.file) && a.location.line
        == b.location.line;
    proof {
        if r {
            assert(a@ =~= b@);
        }
    }
    r
}

} // verus!
