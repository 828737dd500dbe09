//! Types of the high-level intermediate representation: named applications,
//! tuples, function types, inference variables and `Self`.
use vstd::prelude::*;

use crate::qualifiedname::{QualifiedName, QualifiedNameView, item_name};

verus! {

/// The mathematical shape of a `TypeVar`.
pub ghost enum TypeVarView {
    Var(u64),
    Named(Seq<char>),
}

/// A type variable: numbered (fresh from the allocator) or named (written
/// in the source).
#[derive(Debug)]
pub enum TypeVar {
    Var(u64),
    Named(String),
}

impl View for TypeVar {
    type V = TypeVarView;

    open spec fn view(&self) -> TypeVarView {
        match self {
            TypeVar::Var(v) => TypeVarView::Var(*v),
            TypeVar::Named(n) => TypeVarView::Named(n@),
        }
    }
}

impl Clone for TypeVar {
    fn clone(&self) -> (r: TypeVar)
        ensures
            r == *self,
    {
        match self {
            TypeVar::Var(v) => TypeVar::Var(*v),
            TypeVar::Named(n) => TypeVar::Named(n.clone()),
        }
    }
}

/// The mathematical shape of a `Type`.
pub ghost enum TypeView {
    Named(QualifiedNameView, Seq<TypeView>),
    Tuple(Seq<TypeView>),
    Function(Seq<TypeView>, Box<TypeView>),
    Var(TypeVarView),
    SelfType,
}

/// A type of the high-level representation.
#[derive(Debug)]
pub enum Type {
    Named(QualifiedName, Vec<Type>),
    Tuple(Vec<Type>),
    Function(Vec<Type>, Box<Type>),
    Var(TypeVar),
    SelfType,
}

pub open spec fn type_view(t: Type) -> TypeView
    decreases t,
{
    match t {
        Type::Named(n, args) => TypeView::Named(n@, types_view_rec(args@)),
        Type::Tuple(args) => TypeView::Tuple(types_view_rec(args@)),
        Type::Function(args, res) => TypeView::Function(
            types_view_rec(args@),
            Box::new(type_view(*res)),
        ),
        Type::Var(v) => TypeView::Var(v@),
        Type::SelfType => TypeView::SelfType,
    }
}

pub open spec fn types_view_rec(args: Seq<Type>) -> Seq<TypeView>
    decreases args,
{
    if args.len() == 0 {
        Seq::empty()
    } else {
        types_view_rec(args.drop_last()).push(type_view(args.last()))
    }
}

pub broadcast proof fn types_view_rec_is_map(args: Seq<Type>)
    ensures
        #[trigger] types_view_rec(args) == Seq::new(args.len(), |i: int| args[i]@),
    decreases args.len(),
{
    if args.len() > 0 {
        types_view_rec_is_map(args.drop_last());
        assert(types_view_rec(args) =~= Seq::new(args.len(), |i: int| args[i]@));
    } else {
        assert(types_view_rec(args) =~= Seq::new(args.len(), |i: int| args[i]@));
    }
}

impl View for Type {
    type V = TypeView;

    open spec fn view(&self) -> TypeView {
        type_view(*self)
    }
}

fn cloneTypes(args: &Vec<Type>) -> (r: Vec<Type>)
    ensures
        r@.len() == args@.len(),
        forall|i: int| 0 <= i < args@.len() ==> r@[i]@ == args@[i]@,
    decreases *args,
{
    let mut r: Vec<Type> = Vec::new();
    let n = args.len();
    for i in 0..n
        invariant
            n == args@.len(),
            r@.len() == i,
            forall|j: int| 0 <= j < i ==> r@[j]@ == args@[j]@,
        decreases n - i,
    {
        r.push(args[i].clone());
    }
    r
}

impl Clone for Type {
    fn clone(&self) -> (r: Type)
        ensures
            r@ == self@,
        decreases *self,
    {
        match self {
            Type::Named(n, args) => {
                let cloned_args = cloneTypes(args);
                let r = Type::Named(n.clone(), cloned_args);
                proof {
                    broadcast use types_view_rec_is_map;

                    assert(types_view_rec(cloned_args@) =~= types_view_rec(args@));
                }
                r
            },
            Type::Tuple(args) => {
                let cloned_args = cloneTypes(args);
                let r = Type::Tuple(cloned_args);
                proof {
                    broadcast use types_view_rec_is_map;

                    assert(types_view_rec(cloned_args@) =~= types_view_rec(args@));
                }
                r
            },
            Type::Function(args, res) => {
                let cloned_args = cloneTypes(args);
                let r = Type::Function(cloned_args, Box::new((**res).clone()));
                proof {
                    broadcast use types_view_rec_is_map;

                    assert(types_view_rec(cloned_args@) =~= types_view_rec(args@));
                }
                r
            },
            Type::Var(v) => Type::Var(v.clone()),
            Type::SelfType => Type::SelfType,
        }
    }
}

/// The type variables of `t`, in left-to-right traversal order, with
/// repetitions kept.
pub open spec fn collected_vars(t: TypeView) -> Seq<TypeVarView>
    decreases t,
{
    match t {
        TypeView::Named(_, args) => collected_vars_list(args),
        TypeView::Tuple(args) => collected_vars_list(args),
        TypeView::Function(args, res) => collected_vars_list(args) + collected_vars(*res),
        TypeView::Var(v) => seq![v],
        TypeView::SelfType => Seq::empty(),
    }
}

pub open spec fn collected_vars_list(args: Seq<TypeView>) -> Seq<TypeVarView>
    decreases args,
{
    if args.len() == 0 {
        Seq::empty()
    } else {
        collected_vars_list(args.drop_last()) + collected_vars(args.last())
    }
}

/// The views of the elements of a type-variable vector, in order.
pub open spec fn type_vars_view(vars: Seq<TypeVar>) -> Seq<TypeVarView> {
    Seq::new(vars.len(), |i: int| vars[i]@)
}

impl Type {
    /// Split a function type into its argument list and result.
    pub fn splitFnType(self) -> (r: (Vec<Type>, Type))
        requires
            self@ is Function,
        ensures
            self@ == TypeView::Function(types_view_rec(r.0@), Box::new(r.1@)),
    {
        match self {
            Type::Function(args, result) => (args, *result),
            _ => {
                proof {
                    assert(false);
                }
                (Vec::new(), Type::SelfType)
            },
        }
    }

    /// Append every type variable of `self`, in traversal order, to `vars`.
    pub fn collectVars(&self, vars: Vec<TypeVar>) -> (r: Vec<TypeVar>)
        ensures
            type_vars_view(r@) == type_vars_view(vars@) + collected_vars(self@),
        decreases *self,
    {
        match self {
            Type::Named(_, args) => Self::collectVarsList(args, vars),
            Type::Tuple(args) => Self::collectVarsList(args, vars),
            Type::Function(args, res) => {
                let ghost vars0 = vars@;
                let after_args = Self::collectVarsList(args, vars);
                let r = res.collectVars(after_args);
                proof {
                    assert(type_vars_view(r@) =~= type_vars_view(vars0) + collected_vars(self@));
                }
                r
            },
            Type::Var(v) => {
                let ghost vars0 = vars@;
                let mut vars = vars;
                vars.push(v.clone());
                proof {
                    assert(type_vars_view(vars@) =~= type_vars_view(vars0) + collected_vars(
                        self@,
                    ));
                }
                vars
            },
            Type::SelfType => {
                proof {
                    assert(type_vars_view(vars@) =~= type_vars_view(vars@) + collected_vars(
                        self@,
                    ));
                }
                vars
            },
        }
    }

    fn collectVarsList(args: &Vec<Type>, vars: Vec<TypeVar>) -> (r: Vec<TypeVar>)
        ensures
            type_vars_view(r@) == type_vars_view(vars@) + collected_vars_list(
                types_view_rec(args@),
            ),
        decreases *args,
    {
        let ghost vars0 = vars@;
        let mut vars = vars;
        let n = args.len();
        for i in 0..n
            invariant
                n == args@.len(),
                type_vars_view(vars@) == type_vars_view(vars0) + collected_vars_list(
                    types_view_rec(args@.subrange(0, i as int)),
                ),
            decreases n - i,
        {
            vars = args[i].collectVars(vars);
            proof {
                let pre = args@.subrange(0, i as int);
                let cur = args@.subrange(0, i + 1);
                assert(cur.drop_last() =~= pre);
                assert(cur.last() == args@[i as int]);
                assert(types_view_rec(cur) == types_view_rec(pre).push(args@[i as int]@));
                assert(types_view_rec(cur).drop_last() =~= types_view_rec(pre));
                assert(types_view_rec(cur).last() == args@[i as int]@);
                assert(collected_vars_list(types_view_rec(cur)) == collected_vars_list(
                    types_view_rec(pre),
                ) + collected_vars(args@[i as int]@));
                assert(type_vars_view(vars@) =~= type_vars_view(vars0) + collected_vars_list(
                    types_view_rec(cur),
                ));
            }
        }
        proof {
            assert(args@.subrange(0, n as int) =~= args@);
        }
        vars
    }

    /// The builtin boolean type `Bool.Bool`.
    pub fn getBoolType() -> (r: Type)
        ensures
            r@ == TypeView::Named(item_name("Bool"@, "Bool"@), Seq::<TypeView>::empty()),
    {
        let name = crate::qualifiedname::build("Bool", "Bool");
        let r = Type::Named(name, Vec::new());
        proof {
            assert(types_view_rec(Seq::<Type>::empty()) =~= Seq::<TypeView>::empty());
        }
        r
    }

    /// The unit type: the empty tuple.
    pub fn getUnitType() -> (r: Type)
        ensures
            r@ == TypeView::Tuple(Seq::<TypeView>::empty()),
    {
        let r = Type::Tuple(Vec::new());
        proof {
            assert(types_view_rec(Seq::<Type>::empty()) =~= Seq::<TypeView>::empty());
        }
        r
    }
}

} // verus!
