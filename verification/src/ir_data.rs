//! Data declarations of the high-level representation: classes with fields
//! and methods, and enums with payload-carrying variants.
use vstd::prelude::*;

use crate::ir_type::{Type, TypeView, types_view_rec};
use crate::qualifiedname::{QualifiedName, QualifiedNameView};

verus! {

/// One field of a class.
#[derive(Debug)]
pub struct Field {
    pub name: String,
    pub ty: Type,
}

/// One method entry: its short name and its fully-qualified name.
#[derive(Debug)]
pub struct MethodInfo {
    pub name: String,
    pub fullName: QualifiedName,
}

/// A class declaration.
#[derive(Debug)]
pub struct Class {
    pub name: QualifiedName,
    pub ty: Type,
    pub fields: Vec<Field>,
    pub methods: Vec<MethodInfo>,
}

impl Class {
    /// A class with the given name and type and no fields or methods yet.
    pub fn new(name: QualifiedName, ty: Type) -> (r: Class)
        ensures
            r.name@ == name@,
            r.ty@ == ty@,
            r.fields@.len() == 0,
            r.methods@.len() == 0,
    {
        Class { name, ty, fields: Vec::new(), methods: Vec::new() }
    }
}

/// The mathematical shape of a `Variant`: its name and the views of its
/// payload item types.
pub ghost struct VariantView {
    pub name: QualifiedNameView,
    pub items: Seq<TypeView>,
}

/// One variant of an enum, with its ordered payload item types.
#[derive(Debug)]
pub struct Variant {
    pub name: QualifiedName,
    pub items: Vec<Type>,
}

impl View for Variant {
    type V = VariantView;

    open spec fn view(&self) -> VariantView {
        VariantView { name: self.name@, items: types_view_rec(self.items@) }
    }
}

/// The mathematical shape of an `Enum`: its name and its ordered variants.
pub ghost struct EnumView {
    pub name: QualifiedNameView,
    pub variants: Seq<VariantView>,
}

/// An enum declaration: a name, a type, and ordered variants.
#[derive(Debug)]
pub struct Enum {
    pub name: QualifiedName,
    pub ty: Type,
    pub variants: Vec<Variant>,
    pub methods: Vec<MethodInfo>,
}

impl View for Enum {
    type V = EnumView;

    open spec fn view(&self) -> EnumView {
        EnumView {
            name: self.name@,
            variants: Seq::new(self.variants@.len(), |i: int| self.variants@[i]@),
        }
    }
}

impl Enum {
    /// An enum with the given name and type and no variants or methods yet.
    pub fn new(name: QualifiedName, ty: Type) -> (r: Enum)
        ensures
            r@.name == name@,
            r@.variants.len() == 0,
            r.ty@ == ty@,
            r.methods@.len() == 0,
    {
        Enum { name, ty, variants: Vec::new(), methods: Vec::new() }
    }
}

} // verus!
