//! The path algebra of the match compiler: a `DataPath` names one position
//! inside the scrutinee reached by structural decisions, a `DecisionPath` is
//! the ordered sequence of such decisions a pattern requires, and a
//! `DataType` is the structural shape inferred for a position.
use vstd::prelude::*;

use crate::qualifiedname::{QualifiedName, QualifiedNameView};

verus! {

/// The mathematical shape of a `DataPath`.
pub ghost enum DataPathView {
    Root,
    Tuple(Box<DataPathView>, usize),
    TupleIndex(Box<DataPathView>, usize),
    Variant(Box<DataPathView>, QualifiedNameView, QualifiedNameView),
    IntegerLiteral(Box<DataPathView>, Seq<char>),
    StringLiteral(Box<DataPathView>, Seq<char>),
    Class(Box<DataPathView>, QualifiedNameView),
    Wildcard(Box<DataPathView>),
}

/// One position within the scrutinee: the root, a tuple annotation or
/// projection, a variant-tag assertion, a literal-equality assertion, a
/// nominal-class assertion, or an unconstrained position.
#[derive(Debug)]
pub enum DataPath {
    Root,
    Tuple(Box<DataPath>, usize),
    TupleIndex(Box<DataPath>, usize),
    Variant(Box<DataPath>, QualifiedName, QualifiedName),
    IntegerLiteral(Box<DataPath>, String),
    StringLiteral(Box<DataPath>, String),
    Class(Box<DataPath>, QualifiedName),
    Wildcard(Box<DataPath>),
}

pub open spec fn data_path_view(p: DataPath) -> DataPathView
    decreases p,
{
    match p {
        DataPath::Root => DataPathView::Root,
        DataPath::Tuple(q, n) => DataPathView::Tuple(Box::new(data_path_view(*q)), n),
        DataPath::TupleIndex(q, n) => DataPathView::TupleIndex(Box::new(data_path_view(*q)), n),
        DataPath::Variant(q, v, e) => DataPathView::Variant(Box::new(data_path_view(*q)), v@, e@),
        DataPath::IntegerLiteral(q, s) => DataPathView::IntegerLiteral(
            Box::new(data_path_view(*q)),
            s@,
        ),
        DataPath::StringLiteral(q, s) => DataPathView::StringLiteral(
            Box::new(data_path_view(*q)),
            s@,
        ),
        DataPath::Class(q, c) => DataPathView::Class(Box::new(data_path_view(*q)), c@),
        DataPath::Wildcard(q) => DataPathView::Wildcard(Box::new(data_path_view(*q))),
    }
}

impl View for DataPath {
    type V = DataPathView;

    open spec fn view(&self) -> DataPathView {
        data_path_view(*self)
    }
}

impl Clone for DataPath {
    fn clone(&self) -> (r: DataPath)
        ensures
            r == *self,
        decreases *self,
    {
        match self {
            DataPath::Root => DataPath::Root,
            DataPath::Tuple(q, n) => DataPath::Tuple(Box::new((**q).clone()), *n),
            DataPath::TupleIndex(q, n) => DataPath::TupleIndex(Box::new((**q).clone()), *n),
            DataPath::Variant(q, v, e) => DataPath::Variant(
                Box::new((**q).clone()),
                v.clone(),
                e.clone(),
            ),
            DataPath::IntegerLiteral(q, s) => DataPath::IntegerLiteral(
                Box::new((**q).clone()),
                s.clone(),
            ),
            DataPath::StringLiteral(q, s) => DataPath::StringLiteral(
                Box::new((**q).clone()),
                s.clone(),
            ),
            DataPath::Class(q, c) => DataPath::Class(Box::new((**q).clone()), c.clone()),
            DataPath::Wildcard(q) => DataPath::Wildcard(Box::new((**q).clone())),
        }
    }
}

impl PartialEq for DataPath {
    fn eq(&self, other: &DataPath) -> (r: bool)
        decreases *self,
    {
        match (self, other) {
            (DataPath::Root, DataPath::Root) => true,
            (DataPath::Tuple(q1, n1), DataPath::Tuple(q2, n2)) => *n1 == *n2 && **q1 == **q2,
            (DataPath::TupleIndex(q1, n1), DataPath::TupleIndex(q2, n2)) => *n1 == *n2 && **q1
                == **q2,
            (DataPath::Variant(q1, v1, e1), DataPath::Variant(q2, v2, e2)) => *v1 == *v2 && *e1
                == *e2 && **q1 == **q2,
            (DataPath::IntegerLiteral(q1, s1), DataPath::IntegerLiteral(q2, s2)) => *s1 == *s2
                && **q1 == **q2,
            (DataPath::StringLiteral(q1, s1), DataPath::StringLiteral(q2, s2)) => *s1 == *s2 && **q1
                == **q2,
            (DataPath::Class(q1, c1), DataPath::Class(q2, c2)) => *c1 == *c2 && **q1 == **q2,
            (DataPath::Wildcard(q1), DataPath::Wildcard(q2)) => **q1 == **q2,
            _ => false,
        }
    }
}

impl Eq for DataPath {

}

impl vstd::std_specs::cmp::PartialEqSpecImpl for DataPath {
    open spec fn obeys_eq_spec() -> bool {
        true
    }

    open spec fn eq_spec(&self, other: &DataPath) -> bool {
        self@ == other@
    }
}

impl DataPathView {
    /// The position one structural step up; the root is its own parent.
    pub open spec fn parent(self) -> DataPathView {
        match self {
            DataPathView::Root => DataPathView::Root,
            DataPathView::Tuple(p, _) => *p,
            DataPathView::TupleIndex(p, _) => *p,
            DataPathView::Variant(p, _, _) => *p,
            DataPathView::IntegerLiteral(p, _) => *p,
            DataPathView::StringLiteral(p, _) => *p,
            DataPathView::Class(p, _) => *p,
            DataPathView::Wildcard(p) => *p,
        }
    }

    /// Walk the parent chain of `sp` looking for `target`; the walk stops
    /// when it reaches the root without having met `target`.
    pub open spec fn chain_reaches(sp: DataPathView, target: DataPathView) -> bool
        decreases sp,
    {
        if sp == target {
            true
        } else {
            match sp {
                DataPathView::Root => false,
                DataPathView::Tuple(p, _) => Self::chain_reaches(*p, target),
                DataPathView::TupleIndex(p, _) => Self::chain_reaches(*p, target),
                DataPathView::Variant(p, _, _) => Self::chain_reaches(*p, target),
                DataPathView::IntegerLiteral(p, _) => Self::chain_reaches(*p, target),
                DataPathView::StringLiteral(p, _) => Self::chain_reaches(*p, target),
                DataPathView::Class(p, _) => Self::chain_reaches(*p, target),
                DataPathView::Wildcard(p) => Self::chain_reaches(*p, target),
            }
        }
    }

    /// `self` lies strictly below `ancestor`, except that the root counts
    /// as an ancestor of every position (itself included).
    pub open spec fn is_child_of(self, ancestor: DataPathView) -> bool {
        Self::chain_reaches(self.parent(), ancestor)
    }
}

impl DataPath {
    fn chainCheck(&self, target: &DataPath) -> (r: bool)
        ensures
            r == DataPathView::chain_reaches(self@, target@),
        decreases *self,
    {
        if *self == *target {
            true
        } else {
            match self {
                DataPath::Root => false,
                DataPath::Tuple(p, _) => p.chainCheck(target),
                DataPath::TupleIndex(p, _) => p.chainCheck(target),
                DataPath::Variant(p, _, _) => p.chainCheck(target),
                DataPath::IntegerLiteral(p, _) => p.chainCheck(target),
                DataPath::StringLiteral(p, _) => p.chainCheck(target),
                DataPath::Class(p, _) => p.chainCheck(target),
                DataPath::Wildcard(p) => p.chainCheck(target),
            }
        }
    }

    /// Whether `ancestor` occurs on the strict parent chain of `self`
    /// (the root is reported as an ancestor of every position).
    pub fn isChild(&self, ancestor: &DataPath) -> (r: bool)
        ensures
            r == self@.is_child_of(ancestor@),
    {
        let parent = self.getParent();
        parent.chainCheck(ancestor)
    }

    /// The position one structural step up; the root is its own parent.
    pub fn getParent(&self) -> (r: DataPath)
        ensures
            r@ == self@.parent(),
    {
        match self {
            DataPath::Root => DataPath::Root,
            DataPath::Tuple(p, _) => (**p).clone(),
            DataPath::TupleIndex(p, _) => (**p).clone(),
            DataPath::Variant(p, _, _) => (**p).clone(),
            DataPath::IntegerLiteral(p, _) => (**p).clone(),
            DataPath::StringLiteral(p, _) => (**p).clone(),
            DataPath::Class(p, _) => (**p).clone(),
            DataPath::Wildcard(p) => (**p).clone(),
        }
    }
}

/// The mathematical shape of a `DataType`.
pub ghost enum DataTypeView {
    Class(QualifiedNameView),
    Enum(QualifiedNameView),
    Tuple(usize),
    Integer,
    String,
}

/// The structural kind inferred for one scrutinee position.
#[derive(Debug)]
pub enum DataType {
    Class(QualifiedName),
    Enum(QualifiedName),
    Tuple(usize),
    Integer,
    String,
}

impl View for DataType {
    type V = DataTypeView;

    open spec fn view(&self) -> DataTypeView {
        match self {
            DataType::Class(n) => DataTypeView::Class(n@),
            DataType::Enum(n) => DataTypeView::Enum(n@),
            DataType::Tuple(n) => DataTypeView::Tuple(*n),
            DataType::Integer => DataTypeView::Integer,
            DataType::String => DataTypeView::String,
        }
    }
}

impl Clone for DataType {
    fn clone(&self) -> (r: DataType)
        ensures
            r == *self,
    {
        match self {
            DataType::Class(n) => DataType::Class(n.clone()),
            DataType::Enum(n) => DataType::Enum(n.clone()),
            DataType::Tuple(n) => DataType::Tuple(*n),
            DataType::Integer => DataType::Integer,
            DataType::String => DataType::String,
        }
    }
}

impl PartialEq for DataType {
    fn eq(&self, other: &DataType) -> (r: bool) {
        match (self, other) {
            (DataType::Class(a), DataType::Class(b)) => *a == *b,
            (DataType::Enum(a), DataType::Enum(b)) => *a == *b,
            (DataType::Tuple(a), DataType::Tuple(b)) => *a == *b,
            (DataType::Integer, DataType::Integer) => true,
            (DataType::String, DataType::String) => true,
            _ => false,
        }
    }
}

impl Eq for DataType {

}

impl vstd::std_specs::cmp::PartialEqSpecImpl for DataType {
    open spec fn obeys_eq_spec() -> bool {
        true
    }

    open spec fn eq_spec(&self, other: &DataType) -> bool {
        self@ == other@
    }
}

/// The ordered sequence of structural assertions a pattern requires.
#[derive(Debug)]
pub struct DecisionPath {
    pub decisions: Vec<DataPath>,
}

impl View for DecisionPath {
    type V = Seq<DataPathView>;

    open spec fn view(&self) -> Seq<DataPathView> {
        Seq::new(self.decisions@.len(), |i: int| self.decisions@[i]@)
    }
}

impl Clone for DecisionPath {
    fn clone(&self) -> (r: DecisionPath)
        ensures
            r@ == self@,
    {
        let decisions = self.decisions.clone();
        proof {
            assert forall|i: int| 0 <= i < self.decisions@.len() implies decisions@[i]@
                == self.decisions@[i]@ by {
                assert(cloned::<DataPath>(self.decisions@[i], decisions@[i]));
            }
            assert(Seq::new(decisions@.len(), |i: int| decisions@[i]@) =~= Seq::new(
                self.decisions@.len(),
                |i: int| self.decisions@[i]@,
            ));
        }
        DecisionPath { decisions }
    }
}

impl DecisionPath {
    /// The empty decision path: no assertion made yet.
    pub fn new() -> (r: DecisionPath)
        ensures
            r@ == Seq::<DataPathView>::empty(),
    {
        let r = DecisionPath { decisions: Vec::new() };
        proof {
            assert(r@ =~= Seq::<DataPathView>::empty());
        }
        r
    }

    /// This path extended by one more decision.
    pub fn add(&self, path: DataPath) -> (r: DecisionPath)
        ensures
            r@ == self@.push(path@),
    {
        let mut d = self.clone();
        d.decisions.push(path);
        proof {
            assert(d@ =~= self@.push(path@));
        }
        d
    }

    /// The number of decisions on this path.
    pub fn len(&self) -> (r: usize)
        ensures
            r == self@.len(),
    {
        self.decisions.len()
    }

    /// Whether this path begins with every decision of `prefix`, in order.
    pub fn startsWith(&self, prefix: &DecisionPath) -> (r: bool)
        ensures
            r == (prefix@.is_prefix_of(self@)),
    {
        if prefix.decisions.len() > self.decisions.len() {
            proof {
                assert(!prefix@.is_prefix_of(self@));
            }
            return false;
        }
        let n = prefix.decisions.len();
        for i in 0..n
            invariant
                n == prefix.decisions@.len(),
                n <= self.decisions@.len(),
                forall|j: int| 0 <= j < i ==> self@[j] == prefix@[j],
        {
            if !(self.decisions[i] == prefix.decisions[i]) {
                proof {
                    assert(self@[i as int] != prefix@[i as int]);
                    assert(!prefix@.is_prefix_of(self@));
                }
                return false;
            }
        }
        proof {
            assert(prefix@ =~= self@.subrange(0, prefix@.len() as int));
        }
        true
    }
}

} // verus!
