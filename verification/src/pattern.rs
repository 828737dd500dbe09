//! Source-level patterns: the tree a `match` branch is written as, after
//! parsing. Constructor names are qualified names; the canonicalizer
//! (`MatchCompiler::resolve`) rewrites them into fully-qualified form.
use vstd::prelude::*;

use crate::qualifiedname::{QualifiedName, QualifiedNameView};

verus! {

/// The mathematical shape of a `Pattern`.
pub ghost enum PatternView {
    Named(QualifiedNameView, Seq<PatternView>),
    Bind(Seq<char>, bool),
    Tuple(Seq<PatternView>),
    IntegerLiteral(Seq<char>),
    StringLiteral(Seq<char>),
    Wildcard,
}

/// One pattern: a constructor applied to sub-patterns, a binding, a tuple,
/// a literal, or a wildcard.
#[derive(Debug)]
pub enum Pattern {
    Named(QualifiedName, Vec<Pattern>),
    Bind(String, bool),
    Tuple(Vec<Pattern>),
    IntegerLiteral(String),
    StringLiteral(String),
    Wildcard,
}

pub open spec fn pattern_view(p: Pattern) -> PatternView
    decreases p,
{
    match p {
        Pattern::Named(n, args) => PatternView::Named(n@, patterns_view_rec(args@)),
        Pattern::Bind(n, m) => PatternView::Bind(n@, m),
        Pattern::Tuple(args) => PatternView::Tuple(patterns_view_rec(args@)),
        Pattern::IntegerLiteral(v) => PatternView::IntegerLiteral(v@),
        Pattern::StringLiteral(v) => PatternView::StringLiteral(v@),
        Pattern::Wildcard => PatternView::Wildcard,
    }
}

pub open spec fn patterns_view_rec(args: Seq<Pattern>) -> Seq<PatternView>
    decreases args,
{
    if args.len() == 0 {
        Seq::empty()
    } else {
        patterns_view_rec(args.drop_last()).push(pattern_view(args.last()))
    }
}

pub broadcast proof fn patterns_view_rec_is_map(args: Seq<Pattern>)
    ensures
        #[trigger] patterns_view_rec(args) == Seq::new(args.len(), |i: int| args[i]@),
    decreases args.len(),
{
    if args.len() > 0 {
        patterns_view_rec_is_map(args.drop_last());
        assert(patterns_view_rec(args) =~= Seq::new(args.len(), |i: int| args[i]@));
    } else {
        assert(patterns_view_rec(args) =~= Seq::new(args.len(), |i: int| args[i]@));
    }
}

impl View for Pattern {
    type V = PatternView;

    open spec fn view(&self) -> PatternView {
        pattern_view(*self)
    }
}

/// The views of the elements of a pattern vector, in order.
pub open spec fn patterns_view(args: Seq<Pattern>) -> Seq<PatternView> {
    Seq::new(args.len(), |i: int| args[i]@)
}

fn clonePatterns(args: &Vec<Pattern>) -> (r: Vec<Pattern>)
    ensures
        patterns_view(r@) == patterns_view(args@),
    decreases *args,
{
    let mut r: Vec<Pattern> = Vec::new();
    let n = args.len();
    for i in 0..n
        invariant
            n == args@.len(),
            r@.len() == i,
            forall|j: int| 0 <= j < i ==> r@[j]@ == args@[j]@,
        decreases n - i,
    {
        r.push(args[i].clone());
    }
    proof {
        assert(patterns_view(r@) =~= patterns_view(args@));
    }
    r
}

impl Clone for Pattern {
    fn clone(&self) -> (r: Pattern)
        ensures
            r@ == self@,
        decreases *self,
    {
        match self {
            Pattern::Named(n, args) => {
                let cloned_args = clonePatterns(args);
                let r = Pattern::Named(n.clone(), cloned_args);
                proof {
                    broadcast use patterns_view_rec_is_map;

                    assert(patterns_view_rec(cloned_args@) == patterns_view_rec(args@));
                }
                r
            },
            Pattern::Bind(n, m) => Pattern::Bind(n.clone(), *m),
            Pattern::Tuple(args) => {
                let cloned_args = clonePatterns(args);
                let r = Pattern::Tuple(cloned_args);
                proof {
                    broadcast use patterns_view_rec_is_map;

                    assert(patterns_view_rec(cloned_args@) == patterns_view_rec(args@));
                }
                r
            },
            Pattern::IntegerLiteral(v) => Pattern::IntegerLiteral(v.clone()),
            Pattern::StringLiteral(v) => Pattern::StringLiteral(v.clone()),
            Pattern::Wildcard => Pattern::Wildcard,
        }
    }
}

} // verus!
