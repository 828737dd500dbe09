//! Types of the mid-level representation: machine scalars, named structs
//! and unions, and pointers.
use vstd::prelude::*;

verus! {

/// The mathematical shape of a mid-level type.
pub ghost enum TypeView {
    Void,
    Int8,
    Int16,
    Int32,
    Int64,
    Char,
    Struct(Seq<char>),
    Union(Seq<char>),
    Ptr(Box<TypeView>),
}

/// A type of the mid-level representation.
#[derive(Debug)]
pub enum Type {
    Void,
    Int8,
    Int16,
    Int32,
    Int64,
    Char,
    Struct(String),
    Union(String),
    Ptr(Box<Type>),
}

pub open spec fn type_view(t: Type) -> TypeView
    decreases t,
{
    match t {
        Type::Void => TypeView::Void,
        Type::Int8 => TypeView::Int8,
        Type::Int16 => TypeView::Int16,
        Type::Int32 => TypeView::Int32,
        Type::Int64 => TypeView::Int64,
        Type::Char => TypeView::Char,
        Type::Struct(n) => TypeView::Struct(n@),
        Type::Union(n) => TypeView::Union(n@),
        Type::Ptr(p) => TypeView::Ptr(Box::new(type_view(*p))),
    }
}

impl View for Type {
    type V = TypeView;

    open spec fn view(&self) -> TypeView {
        type_view(*self)
    }
}

/// A type is simple when it is a scalar: void, a machine integer or a
/// character; structs, unions and pointers are not.
pub open spec fn is_simple(t: TypeView) -> bool {
    match t {
        TypeView::Void => true,
        TypeView::Int8 => true,
        TypeView::Int16 => true,
        TypeView::Int32 => true,
        TypeView::Int64 => true,
        TypeView::Char => true,
        TypeView::Struct(_) => false,
        TypeView::Union(_) => false,
        TypeView::Ptr(_) => false,
    }
}

impl Type {
    /// Whether this type is a scalar.
    pub fn isSimple(&self) -> (r: bool)
        ensures
            r == is_simple(self@),
    {
        match self {
            Type::Void => true,
            Type::Int8 => true,
            Type::Int16 => true,
            Type::Int32 => true,
            Type::Int64 => true,
            Type::Char => true,
            Type::Struct(_) => false,
            Type::Union(_) => false,
            Type::Ptr(_) => false,
        }
    }
}

} // verus!
