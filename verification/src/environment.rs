//! Lexical scope environments of the expression resolver: a chain of
//! scopes, each mapping source names to the argument or value they denote,
//! with inner entries shadowing outer ones.
use vstd::prelude::*;

use crate::matchcompiler::assoc;

verus! {

/// The mathematical shape of a `Variable`.
pub ghost struct VariableView {
    pub value: Seq<char>,
}

/// A named value produced while resolving a function body.
#[derive(Debug)]
pub struct Variable {
    pub value: String,
}

impl View for Variable {
    type V = VariableView;

    open spec fn view(&self) -> VariableView {
        VariableView { value: self.value@ }
    }
}

impl Clone for Variable {
    fn clone(&self) -> (r: Variable)
        ensures
            r@ == self@,
    {
        Variable { value: self.value.clone() }
    }
}

/// The mathematical shape of a `ValueKind`.
pub ghost enum ValueKindView {
    Arg(Seq<char>, i64),
    Value(VariableView),
}

/// What a source name denotes: a function argument with its position, or a
/// resolved value.
#[derive(Debug)]
pub enum ValueKind {
    Arg(String, i64),
    Value(Variable),
}

impl View for ValueKind {
    type V = ValueKindView;

    open spec fn view(&self) -> ValueKindView {
        match self {
            ValueKind::Arg(n, i) => ValueKindView::Arg(n@, *i),
            ValueKind::Value(v) => ValueKindView::Value(v@),
        }
    }
}

impl Clone for ValueKind {
    fn clone(&self) -> (r: ValueKind)
        ensures
            r@ == self@,
    {
        match self {
            ValueKind::Arg(n, i) => ValueKind::Arg(n.clone(), *i),
            ValueKind::Value(v) => ValueKind::Value(v.clone()),
        }
    }
}

/// The mathematical shape of an `Environment`: the bindings of this scope,
/// newest first, and the enclosing scope, if any.
pub ghost struct EnvironmentView {
    pub values: Seq<(Seq<char>, ValueKindView)>,
    pub parent: Option<Box<EnvironmentView>>,
}

/// One scope of the resolver: its own bindings and the scope it nests in.
/// A child scope snapshots its parent at creation; the symbol tables the
/// resolver works with are frozen, so the snapshot is never stale.
pub struct Environment {
    pub values: Vec<(String, ValueKind)>,
    pub parent: Option<Box<Environment>>,
}

pub open spec fn environment_view(env: Environment) -> EnvironmentView
    decreases env,
{
    EnvironmentView {
        values: Seq::new(env.values@.len(), |i: int| (env.values@[i].0@, env.values@[i].1@)),
        parent: match env.parent {
            Some(p) => Some(Box::new(environment_view(*p))),
            None => None,
        },
    }
}

impl View for Environment {
    type V = EnvironmentView;

    open spec fn view(&self) -> EnvironmentView {
        environment_view(*self)
    }
}

/// What a name resolves to: the newest binding of this scope, else whatever
/// the enclosing scopes resolve it to.
pub open spec fn resolve_spec(env: EnvironmentView, name: Seq<char>) -> Option<ValueKindView>
    decreases env,
{
    match assoc(env.values, name) {
        Some(v) => Some(v),
        None => match env.parent {
            Some(p) => resolve_spec(*p, name),
            None => None,
        },
    }
}

fn cloneValues(values: &Vec<(String, ValueKind)>) -> (r: Vec<(String, ValueKind)>)
    ensures
        r@.len() == values@.len(),
        forall|i: int|
            0 <= i < values@.len() ==> r@[i].0@ == values@[i].0@ && r@[i].1@ == values@[i].1@,
{
    let mut r: Vec<(String, ValueKind)> = Vec::new();
    let n = values.len();
    for i in 0..n
        invariant
            n == values@.len(),
            r@.len() == i,
            forall|j: int| 0 <= j < i ==> r@[j].0@ == values@[j].0@ && r@[j].1@ == values@[j].1@,
    {
        let (k, v) = &values[i];
        r.push((k.clone(), v.clone()));
    }
    r
}

impl Clone for Environment {
    fn clone(&self) -> (r: Environment)
        ensures
            r@ == self@,
        decreases *self,
    {
        let values = cloneValues(&self.values);
        let parent = match &self.parent {
            Some(p) => Some(Box::new((**p).clone())),
            None => None,
        };
        let r = Environment { values, parent };
        proof {
            assert(r@.values =~= self@.values);
        }
        r
    }
}

impl Environment {
    /// The empty outermost scope.
    pub fn new() -> (r: Environment)
        ensures
            r@.values == Seq::<(Seq<char>, ValueKindView)>::empty(),
            r@.parent is None,
    {
        let r = Environment { values: Vec::new(), parent: None };
        proof {
            assert(r@.values =~= Seq::<(Seq<char>, ValueKindView)>::empty());
        }
        r
    }

    /// A fresh scope nested in `parent`.
    pub fn child(parent: &Environment) -> (r: Environment)
        ensures
            r@.values == Seq::<(Seq<char>, ValueKindView)>::empty(),
            r@.parent == Some(Box::new(parent@)),
    {
        let r = Environment { values: Vec::new(), parent: Some(Box::new(parent.clone())) };
        proof {
            assert(r@.values =~= Seq::<(Seq<char>, ValueKindView)>::empty());
        }
        r
    }

    /// Bind `arg` to the function argument at `index`, shadowing any older
    /// binding of the same name in this scope.
    pub fn addArg(&mut self, arg: String, index: i64)
        ensures
            final(self)@.values == seq![(arg@, ValueKindView::Arg(arg@, index))] + old(
                self,
            )@.values,
            final(self)@.parent == old(self)@.parent,
    {
        let key = arg.clone();
        self.values.insert(0, (key, ValueKind::Arg(arg, index)));
        proof {
            assert(self@.values =~= seq![(arg@, ValueKindView::Arg(arg@, index))] + old(
                self,
            )@.values);
        }
    }

    /// Bind the source name `name` to the resolved variable `new`.
    pub fn addValue(&mut self, name: String, new: Variable)
        ensures
            final(self)@.values == seq![(name@, ValueKindView::Value(new@))] + old(self)@.values,
            final(self)@.parent == old(self)@.parent,
    {
        self.values.insert(0, (name, ValueKind::Value(new)));
        proof {
            assert(self@.values =~= seq![(name@, ValueKindView::Value(new@))] + old(self)@.values);
        }
    }

    /// Bind a synthesized variable under its own name.
    pub fn addTmpValue(&mut self, name: Variable)
        ensures
            final(self)@.values == seq![(name@.value, ValueKindView::Value(name@))] + old(
                self,
            )@.values,
            final(self)@.parent == old(self)@.parent,
    {
        let key = name.value.clone();
        self.values.insert(0, (key, ValueKind::Value(name)));
        proof {
            assert(self@.values =~= seq![(name@.value, ValueKindView::Value(name@))] + old(
                self,
            )@.values);
        }
    }

    /// What `value` resolves to in this scope chain, innermost binding
    /// first.
    pub fn resolve(&self, value: &String) -> (r: Option<ValueKind>)
        ensures
            match r {
                Some(v) => resolve_spec(self@, value@) == Some(v@),
                None => resolve_spec(self@, value@) is None,
            },
        decreases *self,
    {
        let n = self.values.len();
        proof {
            assert(self@.values.skip(0) =~= self@.values);
        }
        for i in 0..n
            invariant
                n == self.values@.len(),
                assoc(self@.values, value@) == assoc(self@.values.skip(i as int), value@),
        {
            proof {
                assert(self@.values.skip(i as int)[0] == (
                    self.values@[i as int].0@,
                    self.values@[i as int].1@,
                ));
                assert(self@.values.skip(i as int).drop_first() =~= self@.values.skip(i + 1));
            }
            if self.values[i].0 == *value {
                return Some(self.values[i].1.clone());
            }
        }
        proof {
            assert(self@.values.skip(n as int) =~= Seq::<(Seq<char>, ValueKindView)>::empty());
        }
        match &self.parent {
            Some(parent) => parent.resolve(value),
            None => None,
        }
    }
}

} // verus!
