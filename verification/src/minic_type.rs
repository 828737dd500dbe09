//! Types of the low-level C-like representation: machine integers, named
//! structs, pointers and sized arrays.
use vstd::prelude::*;

verus! {

/// The mathematical shape of a low-level type.
pub ghost enum TypeView {
    Void,
    Int8,
    Int16,
    Int32,
    Int64,
    Struct(Seq<char>),
    Ptr(Box<TypeView>),
    Array(u32, u32),
}

/// A type of the low-level representation. An array carries its element
/// count and element size.
#[derive(Debug)]
pub enum Type {
    Void,
    Int8,
    Int16,
    Int32,
    Int64,
    Struct(String),
    Ptr(Box<Type>),
    Array(u32, u32),
}

pub open spec fn type_view(t: Type) -> TypeView
    decreases t,
{
    match t {
        Type::Void => TypeView::Void,
        Type::Int8 => TypeView::Int8,
        Type::Int16 => TypeView::Int16,
        Type::Int32 => TypeView::Int32,
        Type::Int64 => TypeView::Int64,
        Type::Struct(n) => TypeView::Struct(n@),
        Type::Ptr(p) => TypeView::Ptr(Box::new(type_view(*p))),
        Type::Array(n, s) => TypeView::Array(n, s),
    }
}

impl View for Type {
    type V = TypeView;

    open spec fn view(&self) -> TypeView {
        type_view(*self)
    }
}

/// The name a type carries: the struct name of a struct, found through any
/// chain of pointers; nothing otherwise.
pub open spec fn name_of(t: TypeView) -> Option<Seq<char>>
    decreases t,
{
    match t {
        TypeView::Struct(n) => Some(n),
        TypeView::Ptr(p) => name_of(*p),
        _ => None,
    }
}

impl Type {
    /// Whether this is a pointer type.
    pub fn isPtr(&self) -> (r: bool)
        ensures
            r == (self@ is Ptr),
    {
        match self {
            Type::Ptr(_) => true,
            _ => false,
        }
    }

    /// Whether this is an array type.
    pub fn isArray(&self) -> (r: bool)
        ensures
            r == (self@ is Array),
    {
        match self {
            Type::Array(_, _) => true,
            _ => false,
        }
    }

    /// The element count of an array type.
    pub fn getArraySize(&self) -> (r: u32)
        requires
            self@ is Array,
        ensures
            r == self@->Array_0,
    {
        match self {
            Type::Array(s, _) => *s,
            _ => {
                proof {
                    assert(false);
                }
                0
            },
        }
    }

    /// The struct name this type carries, through any chain of pointers.
    pub fn getName(&self) -> (r: Option<String>)
        ensures
            match r {
                Some(n) => name_of(self@) == Some(n@),
                None => name_of(self@) is None,
            },
        decreases *self,
    {
        match self {
            Type::Struct(n) => Some(n.clone()),
            Type::Ptr(p) => p.getName(),
            _ => None,
        }
    }
}

} // verus!
