//! The pattern-match compiler: canonicalizes branch patterns, extracts the
//! decision path and bindings of each branch, synthesizes alternative
//! patterns for every nearby value shape, infers the structural shape of
//! every scrutinee position, builds a total decision tree, and resolves each
//! terminal to the branch that wins there under first-match-wins semantics.
use vstd::prelude::*;

use crate::ir_data::{Enum, EnumView};
use crate::path::{DataPath, DataPathView, DataType, DataTypeView, DecisionPath};
use crate::pattern::{Pattern, PatternView, patterns_view_rec};
use crate::qualifiedname::{QualifiedName, QualifiedNameView};

verus! {

broadcast use crate::pattern::patterns_view_rec_is_map, crate::ir_type::types_view_rec_is_map;

/// First match in an association list, searching from the front.
pub open spec fn assoc<K, V>(s: Seq<(K, V)>, k: K) -> Option<V>
    decreases s.len(),
{
    if s.len() == 0 {
        None
    } else if s[0].0 == k {
        Some(s[0].1)
    } else {
        assoc(s.drop_first(), k)
    }
}

/// Where a match entry came from: one of the user's branches, identified by
/// its source-order rank, or a synthesized alternative.
#[derive(Debug, Clone, Copy, PartialEq, Eq, Structural)]
pub enum MatchKind {
    UserDefined(i64),
    Alternative,
}

/// The variable bindings of one pattern: each entry maps the decision-path
/// prefix at the moment of binding to the bound name.
pub struct Bindings {
    pub bindings: Vec<(DecisionPath, String)>,
}

impl View for Bindings {
    type V = Seq<(Seq<DataPathView>, Seq<char>)>;

    open spec fn view(&self) -> Seq<(Seq<DataPathView>, Seq<char>)> {
        Seq::new(self.bindings@.len(), |i: int| (self.bindings@[i].0@, self.bindings@[i].1@))
    }
}

impl Bindings {
    /// No bindings yet.
    pub fn new() -> (r: Bindings)
        ensures
            r@ == Seq::<(Seq<DataPathView>, Seq<char>)>::empty(),
    {
        let r = Bindings { bindings: Vec::new() };
        proof {
            assert(r@ =~= Seq::<(Seq<DataPathView>, Seq<char>)>::empty());
        }
        r
    }
}

impl Clone for Bindings {
    fn clone(&self) -> (r: Bindings)
        ensures
            r@ == self@,
    {
        let mut bindings: Vec<(DecisionPath, String)> = Vec::new();
        let n = self.bindings.len();
        for i in 0..n
            invariant
                n == self.bindings@.len(),
                bindings@.len() == i,
                forall|j: int|
                    0 <= j < i ==> bindings@[j].0@ == self.bindings@[j].0@ && bindings@[j].1@
                        == self.bindings@[j].1@,
        {
            let (d, s) = &self.bindings[i];
            bindings.push((d.clone(), s.clone()));
        }
        let r = Bindings { bindings };
        proof {
            assert(r@ =~= self@);
        }
        r
    }
}

/// The mathematical shape of a `Match`.
pub ghost struct MatchView {
    pub kind: MatchKind,
    pub pattern: PatternView,
    pub decisionPath: Seq<DataPathView>,
    pub bindings: Seq<(Seq<DataPathView>, Seq<char>)>,
}

/// One entry of the working set: a canonical pattern together with its
/// origin, its decision path and its bindings.
pub struct Match {
    pub kind: MatchKind,
    pub pattern: Pattern,
    pub decisionPath: DecisionPath,
    pub bindings: Bindings,
}

impl View for Match {
    type V = MatchView;

    open spec fn view(&self) -> MatchView {
        MatchView {
            kind: self.kind,
            pattern: self.pattern@,
            decisionPath: self.decisionPath@,
            bindings: self.bindings@,
        }
    }
}

impl Clone for Match {
    fn clone(&self) -> (r: Match)
        ensures
            r@ == self@,
    {
        Match {
            kind: self.kind,
            pattern: self.pattern.clone(),
            decisionPath: self.decisionPath.clone(),
            bindings: self.bindings.clone(),
        }
    }
}

/// The views of the elements of a match vector, in order.
pub open spec fn matches_view(ms: Seq<Match>) -> Seq<MatchView> {
    Seq::new(ms.len(), |i: int| ms[i]@)
}

/// The mathematical shape of the symbol table.
pub ghost struct SymbolTableView {
    pub names: Seq<(QualifiedNameView, QualifiedNameView)>,
    pub variants: Seq<(QualifiedNameView, QualifiedNameView)>,
    pub enums: Seq<(QualifiedNameView, EnumView)>,
}

/// The read-only symbol tables the match compiler consults: the name
/// resolver (surface name to fully-qualified name), the variant table
/// (variant name to owning enum), and the enum declarations.
pub struct SymbolTable {
    pub names: Vec<(QualifiedName, QualifiedName)>,
    pub variants: Vec<(QualifiedName, QualifiedName)>,
    pub enums: Vec<(QualifiedName, Enum)>,
}

impl View for SymbolTable {
    type V = SymbolTableView;

    open spec fn view(&self) -> SymbolTableView {
        SymbolTableView {
            names: Seq::new(self.names@.len(), |i: int| (self.names@[i].0@, self.names@[i].1@)),
            variants: Seq::new(
                self.variants@.len(),
                |i: int| (self.variants@[i].0@, self.variants@[i].1@),
            ),
            enums: Seq::new(self.enums@.len(), |i: int| (self.enums@[i].0@, self.enums@[i].1@)),
        }
    }
}

impl SymbolTable {
    /// The fully-qualified name a surface name resolves to, if any.
    /// Lookup in the name table, front to back.
    pub fn resolverName(&self, name: &QualifiedName) -> (r: Option<QualifiedName>)
        ensures
            match r {
                Some(q) => assoc(self@.names, name@) == Some(q@),
                None => assoc(self@.names, name@) is None,
            },
    {
        let n = self.names.len();
        proof {
            assert(self@.names.skip(0) =~= self@.names);
        }
        for i in 0..n
            invariant
                n == self.names@.len(),
                assoc(self@.names, name@) == assoc(self@.names.skip(i as int), name@),
        {
            proof {
                assert(self@.names.skip(i as int).drop_first() =~= self@.names.skip(i + 1));
            }
            if self.names[i].0 == *name {
                return Some(self.names[i].1.clone());
            }
        }
        proof {
            assert(self@.names.skip(n as int) =~= Seq::<
                (QualifiedNameView, QualifiedNameView),
            >::empty());
        }
        None
    }

    /// The enum a variant name belongs to, if the name is a variant.
    pub fn variantEnum(&self, name: &QualifiedName) -> (r: Option<QualifiedName>)
        ensures
            match r {
                Some(q) => assoc(self@.variants, name@) == Some(q@),
                None => assoc(self@.variants, name@) is None,
            },
    {
        let n = self.variants.len();
        proof {
            assert(self@.variants.skip(0) =~= self@.variants);
        }
        for i in 0..n
            invariant
                n == self.variants@.len(),
                assoc(self@.variants, name@) == assoc(self@.variants.skip(i as int), name@),
        {
            proof {
                assert(self@.variants.skip(i as int).drop_first() =~= self@.variants.skip(i + 1));
            }
            if self.variants[i].0 == *name {
                return Some(self.variants[i].1.clone());
            }
        }
        proof {
            assert(self@.variants.skip(n as int) =~= Seq::<
                (QualifiedNameView, QualifiedNameView),
            >::empty());
        }
        None
    }

    /// The declaration of the named enum, if declared.
    pub fn lookupEnum(&self, name: &QualifiedName) -> (r: Option<&Enum>)
        ensures
            match r {
                Some(e) => assoc(self@.enums, name@) == Some(e@),
                None => assoc(self@.enums, name@) is None,
            },
    {
        let n = self.enums.len();
        proof {
            assert(self@.enums.skip(0) =~= self@.enums);
        }
        for i in 0..n
            invariant
                n == self.enums@.len(),
                assoc(self@.enums, name@) == assoc(self@.enums.skip(i as int), name@),
        {
            proof {
                assert(self@.enums.skip(i as int).drop_first() =~= self@.enums.skip(i + 1));
            }
            if self.enums[i].0 == *name {
                return Some(&self.enums[i].1);
            }
        }
        proof {
            assert(self@.enums.skip(n as int) =~= Seq::<(QualifiedNameView, EnumView)>::empty());
        }
        None
    }
}

/// The mathematical shape of a `MatchError`.
pub ghost enum MatchErrorView {
    ResolutionError(QualifiedNameView),
    ArityMismatch(QualifiedNameView, nat, nat),
    ShapeConflict(DataPathView),
    ClassUnsupported(DataPathView),
    UndeclaredEnum(QualifiedNameView),
}

/// Why compilation of a match expression failed: a pattern name that does
/// not resolve, a constructor applied to the wrong number of sub-patterns
/// (expected, then found), conflicting shapes inferred at one position
/// (an internal-consistency failure of an earlier pass), or a nominal-class
/// pattern at a decided position, which the decision-tree builder does not
/// support.
#[derive(Debug)]
pub enum MatchError {
    ResolutionError(QualifiedName),
    ArityMismatch(QualifiedName, usize, usize),
    ShapeConflict(DataPath),
    ClassUnsupported(DataPath),
    UndeclaredEnum(QualifiedName),
}

impl View for MatchError {
    type V = MatchErrorView;

    open spec fn view(&self) -> MatchErrorView {
        match self {
            MatchError::ResolutionError(q) => MatchErrorView::ResolutionError(q@),
            MatchError::ArityMismatch(q, want, got) => MatchErrorView::ArityMismatch(
                q@,
                *want as nat,
                *got as nat,
            ),
            MatchError::ShapeConflict(p) => MatchErrorView::ShapeConflict(p@),
            MatchError::ClassUnsupported(p) => MatchErrorView::ClassUnsupported(p@),
            MatchError::UndeclaredEnum(q) => MatchErrorView::UndeclaredEnum(q@),
        }
    }
}

/// Canonicalization of one pattern: rewrite every constructor name through
/// the resolver table; fails exactly when some constructor name has no
/// entry there.
pub open spec fn resolve_spec(
    names: Seq<(QualifiedNameView, QualifiedNameView)>,
    p: PatternView,
) -> Result<PatternView, MatchErrorView>
    decreases p,
{
    match p {
        PatternView::Named(id, args) => match assoc(names, id) {
            None => Err(MatchErrorView::ResolutionError(id)),
            Some(full) => match resolve_list_spec(names, args) {
                Ok(rargs) => Ok(PatternView::Named(full, rargs)),
                Err(e) => Err(e),
            },
        },
        PatternView::Tuple(args) => match resolve_list_spec(names, args) {
            Ok(rargs) => Ok(PatternView::Tuple(rargs)),
            Err(e) => Err(e),
        },
        _ => Ok(p),
    }
}

pub open spec fn resolve_list_spec(
    names: Seq<(QualifiedNameView, QualifiedNameView)>,
    args: Seq<PatternView>,
) -> Result<Seq<PatternView>, MatchErrorView>
    decreases args,
{
    if args.len() == 0 {
        Ok(Seq::empty())
    } else {
        match resolve_spec(names, args[0]) {
            Err(e) => Err(e),
            Ok(r0) => match resolve_list_spec(names, args.drop_first()) {
                Ok(rest) => Ok(seq![r0] + rest),
                Err(e) => Err(e),
            },
        }
    }
}

/// Arity check of one canonical pattern: every constructor that is a known
/// variant must carry exactly as many sub-patterns as the variant's
/// declared payload arity.
pub open spec fn arity_ok_spec(tbl: SymbolTableView, p: PatternView) -> Result<
    (),
    MatchErrorView,
>
    decreases p,
{
    match p {
        PatternView::Named(name, args) => match assoc(tbl.variants, name) {
            Some(enumName) => match variant_arity(tbl, name, enumName) {
                Some(arity) => if args.len() != arity {
                    Err(MatchErrorView::ArityMismatch(name, arity, args.len()))
                } else {
                    arity_ok_list_spec(tbl, args)
                },
                None => arity_ok_list_spec(tbl, args),
            },
            None => arity_ok_list_spec(tbl, args),
        },
        PatternView::Tuple(args) => arity_ok_list_spec(tbl, args),
        _ => Ok(()),
    }
}

pub open spec fn arity_ok_list_spec(tbl: SymbolTableView, args: Seq<PatternView>) -> Result<
    (),
    MatchErrorView,
>
    decreases args,
{
    if args.len() == 0 {
        Ok(())
    } else {
        match arity_ok_spec(tbl, args[0]) {
            Err(e) => Err(e),
            Ok(_) => arity_ok_list_spec(tbl, args.drop_first()),
        }
    }
}

/// The declared payload arity of variant `name` of enum `enumName`, if both
/// are declared.
pub open spec fn variant_arity(
    tbl: SymbolTableView,
    name: QualifiedNameView,
    enumName: QualifiedNameView,
) -> Option<nat> {
    match assoc(tbl.enums, enumName) {
        None => None,
        Some(e) => variant_arity_in(e.variants, name),
    }
}

pub open spec fn variant_arity_in(
    variants: Seq<crate::ir_data::VariantView>,
    name: QualifiedNameView,
) -> Option<nat>
    decreases variants.len(),
{
    if variants.len() == 0 {
        None
    } else if variants[0].name == name {
        Some(variants[0].items.len())
    } else {
        variant_arity_in(variants.drop_first(), name)
    }
}

/// The match compiler for one `match` expression: the branch patterns in
/// source order, and read access to the frozen symbol tables.
pub struct MatchCompiler {
    pub symbols: SymbolTable,
    pub branches: Vec<Pattern>,
}

impl MatchCompiler {
    /// A compiler for one match expression over the given branches.
    pub fn new(symbols: SymbolTable, branches: Vec<Pattern>) -> (r: MatchCompiler)
        ensures
            r.symbols@ == symbols@,
            crate::pattern::patterns_view(r.branches@) == crate::pattern::patterns_view(branches@),
    {
        MatchCompiler { symbols, branches }
    }

    /// Canonicalize one pattern: rewrite every constructor name through the
    /// resolver; recurse into sub-patterns; all other pattern forms pass
    /// through unchanged. Fails exactly when a constructor name does not
    /// resolve.
    pub fn resolve(&self, pattern: &Pattern) -> (r: Result<Pattern, MatchError>)
        ensures
            match r {
                Ok(p) => resolve_spec(self@.names, pattern@) == Ok::<PatternView, MatchErrorView>(
                    p@,
                ),
                Err(e) => resolve_spec(self@.names, pattern@) == Err::<
                    PatternView,
                    MatchErrorView,
                >(e@),
            },
        decreases *pattern,
    {
        match pattern {
            Pattern::Named(id, args) => {
                match self.symbols.resolverName(id) {
                    None => Err(MatchError::ResolutionError(id.clone())),
                    Some(full) => {
                        match self.resolveList(args) {
                            Ok(rargs) => Ok(Pattern::Named(full, rargs)),
                            Err(e) => Err(e),
                        }
                    },
                }
            },
            Pattern::Tuple(args) => {
                match self.resolveList(args) {
                    Ok(rargs) => Ok(Pattern::Tuple(rargs)),
                    Err(e) => Err(e),
                }
            },
            Pattern::Bind(n, m) => Ok(Pattern::Bind(n.clone(), *m)),
            Pattern::IntegerLiteral(v) => Ok(Pattern::IntegerLiteral(v.clone())),
            Pattern::StringLiteral(v) => Ok(Pattern::StringLiteral(v.clone())),
            Pattern::Wildcard => Ok(Pattern::Wildcard),
        }
    }

    fn resolveList(&self, args: &Vec<Pattern>) -> (r: Result<Vec<Pattern>, MatchError>)
        ensures
            match r {
                Ok(ps) => resolve_list_spec(self@.names, patterns_view_rec(args@)) == Ok::<
                    Seq<PatternView>,
                    MatchErrorView,
                >(patterns_view_rec(ps@)),
                Err(e) => resolve_list_spec(self@.names, patterns_view_rec(args@)) == Err::<
                    Seq<PatternView>,
                    MatchErrorView,
                >(e@),
            },
        decreases *args,
    {
        let mut out: Vec<Pattern> = Vec::new();
        let n = args.len();
        proof {
            let full = patterns_view_rec(args@);
            assert(full.skip(0) =~= full);
            assert(patterns_view_rec(out@) =~= Seq::<PatternView>::empty());
            if resolve_list_spec(self@.names, full) is Ok {
                let rest = resolve_list_spec(self@.names, full)->Ok_0;
                assert(patterns_view_rec(out@) + rest =~= rest);
            }
        }
        for i in 0..n
            invariant
                n == args@.len(),
                out@.len() == i,
                resolve_list_spec(self@.names, patterns_view_rec(args@)) == (match resolve_list_spec(
                    self@.names,
                    patterns_view_rec(args@).skip(i as int),
                ) {
                    Ok(rest) => Ok::<Seq<PatternView>, MatchErrorView>(
                        patterns_view_rec(out@) + rest,
                    ),
                    Err(e) => Err::<Seq<PatternView>, MatchErrorView>(e),
                }),
        {
            proof {
                assert(patterns_view_rec(args@).skip(i as int)[0] == args@[i as int]@);
            }
            match self.resolve(&args[i]) {
                Ok(p) => {
                    let ghost out_old = out@;
                    let ghost pv = p@;
                    out.push(p);
                    proof {
                        let names = self@.names;
                        let full = patterns_view_rec(args@);
                        assert(full.skip(i as int).drop_first() =~= full.skip(i + 1));
                        assert(resolve_list_spec(names, full.skip(i as int)) == (
                        match resolve_list_spec(names, full.skip(i + 1)) {
                            Ok(rest) => Ok::<Seq<PatternView>, MatchErrorView>(seq![pv] + rest),
                            Err(e) => Err::<Seq<PatternView>, MatchErrorView>(e),
                        }));
                        if resolve_list_spec(names, full.skip(i + 1)) is Ok {
                            let rest = resolve_list_spec(names, full.skip(i + 1))->Ok_0;
                            assert(patterns_view_rec(out@) + rest =~= patterns_view_rec(out_old) + (
                            seq![pv] + rest));
                        }
                    }
                },
                Err(e) => {
                    proof {
                        let full = patterns_view_rec(args@);
                        assert(resolve_list_spec(self@.names, full.skip(i as int)) == Err::<
                            Seq<PatternView>,
                            MatchErrorView,
                        >(e@));
                    }
                    return Err(e);
                },
            }
        }
        proof {
            let full = patterns_view_rec(args@);
            assert(full.skip(n as int) =~= Seq::<PatternView>::empty());
            assert(patterns_view_rec(out@) + Seq::<PatternView>::empty() =~= patterns_view_rec(
                out@,
            ));
        }
        Ok(out)
    }
}

impl View for MatchCompiler {
    type V = SymbolTableView;

    open spec fn view(&self) -> SymbolTableView {
        self.symbols@
    }
}

/// The bindings of one pattern as a sequence of (prefix, name) entries.
pub type BindingsSpec = Seq<(Seq<DataPathView>, Seq<char>)>;

/// Decision and binding extraction from one canonical pattern: the decision
/// path grows by the assertions the pattern requires, and every binding
/// pattern records the decision prefix at its position.
pub open spec fn generate_decisions_spec(
    variants: Seq<(QualifiedNameView, QualifiedNameView)>,
    p: PatternView,
    parent: DataPathView,
    decision: Seq<DataPathView>,
    bindings: BindingsSpec,
) -> (Seq<DataPathView>, BindingsSpec)
    decreases p,
{
    match p {
        PatternView::Named(name, args) => match assoc(variants, name) {
            Some(enumName) => {
                let path = DataPathView::Variant(Box::new(parent), name, enumName);
                gen_decisions_args(variants, args, path, decision.push(path), bindings)
            },
            None => (decision.push(DataPathView::Class(Box::new(parent), name)), bindings),
        },
        PatternView::Bind(name, _) => (
            decision.push(DataPathView::Wildcard(Box::new(parent))),
            bindings.push((decision.push(parent), name)),
        ),
        PatternView::Tuple(args) => gen_decisions_tuple(
            variants,
            args,
            parent,
            0,
            decision.push(DataPathView::Tuple(Box::new(parent), args.len() as usize)),
            bindings,
        ),
        PatternView::IntegerLiteral(v) => (
            decision.push(DataPathView::IntegerLiteral(Box::new(parent), v)),
            bindings,
        ),
        PatternView::StringLiteral(v) => (
            decision.push(DataPathView::StringLiteral(Box::new(parent), v)),
            bindings,
        ),
        PatternView::Wildcard => (decision.push(DataPathView::Wildcard(Box::new(parent))), bindings),
    }
}

/// Fold of `generate_decisions_spec` over the sub-patterns of a constructor,
/// all at the constructor's payload position.
pub open spec fn gen_decisions_args(
    variants: Seq<(QualifiedNameView, QualifiedNameView)>,
    args: Seq<PatternView>,
    parent: DataPathView,
    decision: Seq<DataPathView>,
    bindings: BindingsSpec,
) -> (Seq<DataPathView>, BindingsSpec)
    decreases args,
{
    if args.len() == 0 {
        (decision, bindings)
    } else {
        let (d, b) = generate_decisions_spec(variants, args[0], parent, decision, bindings);
        gen_decisions_args(variants, args.drop_first(), parent, d, b)
    }
}

/// Fold of `generate_decisions_spec` over the elements of a tuple, each at
/// its own projected field position.
pub open spec fn gen_decisions_tuple(
    variants: Seq<(QualifiedNameView, QualifiedNameView)>,
    args: Seq<PatternView>,
    base: DataPathView,
    idx: usize,
    decision: Seq<DataPathView>,
    bindings: BindingsSpec,
) -> (Seq<DataPathView>, BindingsSpec)
    decreases args,
{
    if args.len() == 0 {
        (decision, bindings)
    } else {
        let path = DataPathView::TupleIndex(Box::new(base), idx);
        let (d, b) = generate_decisions_spec(variants, args[0], path, decision, bindings);
        gen_decisions_tuple(
            variants,
            args.drop_first(),
            base,
            (idx + 1) as usize,
            d,
            b,
        )
    }
}

/// `n` wildcard patterns.
pub open spec fn wildcards(n: nat) -> Seq<PatternView> {
    Seq::new(n, |i: int| PatternView::Wildcard)
}

/// Every variant whose enum is named in the variant table is also declared
/// in the enum table.
pub open spec fn variants_closed(tbl: SymbolTableView) -> bool {
    forall|name: QualifiedNameView|
        (#[trigger] assoc(tbl.variants, name)) is Some ==> assoc(
            tbl.enums,
            assoc(tbl.variants, name)->Some_0,
        ) is Some
}

/// A fully-wildcarded constructor pattern for every variant other than
/// `name`, in declaration order.
pub open spec fn other_variant_patterns(
    variants: Seq<crate::ir_data::VariantView>,
    name: QualifiedNameView,
) -> Seq<PatternView>
    decreases variants.len(),
{
    if variants.len() == 0 {
        Seq::empty()
    } else {
        let rest = other_variant_patterns(variants.drop_first(), name);
        if variants[0].name == name {
            rest
        } else {
            seq![PatternView::Named(variants[0].name, wildcards(variants[0].items.len()))] + rest
        }
    }
}

/// Each choice of position `idx` spliced back into a constructor pattern:
/// earlier positions keep their sub-patterns, later ones go to wildcard.
pub open spec fn map_spliced_named(
    name: QualifiedNameView,
    args: Seq<PatternView>,
    idx: int,
    choices: Seq<PatternView>,
) -> Seq<PatternView> {
    Seq::new(
        choices.len(),
        |j: int|
            PatternView::Named(
                name,
                args.take(idx) + seq![choices[j]] + wildcards((args.len() - idx - 1) as nat),
            ),
    )
}

/// Each choice of position `idx` spliced back into a tuple pattern.
pub open spec fn map_spliced_tuple(
    args: Seq<PatternView>,
    idx: int,
    choices: Seq<PatternView>,
) -> Seq<PatternView> {
    Seq::new(
        choices.len(),
        |j: int|
            PatternView::Tuple(
                args.take(idx) + seq![choices[j]] + wildcards((args.len() - idx - 1) as nat),
            ),
    )
}

/// The spliced choices of every position of a constructor pattern from
/// `idx` on, in position order.
pub open spec fn splice_choices_named(
    tbl: SymbolTableView,
    name: QualifiedNameView,
    args: Seq<PatternView>,
    idx: int,
) -> Seq<PatternView>
    decreases args, (args.len() - idx),
{
    if idx < 0 || idx >= args.len() {
        Seq::empty()
    } else {
        map_spliced_named(name, args, idx, generate_choices_spec_at(tbl, args, idx))
            + splice_choices_named(tbl, name, args, idx + 1)
    }
}

/// The spliced choices of every position of a tuple pattern from `idx` on.
pub open spec fn splice_choices_tuple(
    tbl: SymbolTableView,
    args: Seq<PatternView>,
    idx: int,
) -> Seq<PatternView>
    decreases args, (args.len() - idx),
{
    if idx < 0 || idx >= args.len() {
        Seq::empty()
    } else {
        map_spliced_tuple(args, idx, generate_choices_spec_at(tbl, args, idx))
            + splice_choices_tuple(tbl, args, idx + 1)
    }
}

/// The choices of the `idx`-th element of `args`.
pub open spec fn generate_choices_spec_at(
    tbl: SymbolTableView,
    args: Seq<PatternView>,
    idx: int,
) -> Seq<PatternView>
    decreases args, (args.len() - idx), 0int,
{
    if 0 <= idx < args.len() {
        generate_choices_spec(tbl, args[idx])
    } else {
        Seq::empty()
    }
}

/// Alternative generation for one canonical pattern (see
/// `MatchCompiler::generateChoices`).
pub open spec fn generate_choices_spec(tbl: SymbolTableView, p: PatternView) -> Seq<PatternView>
    decreases p, 0int, 0int,
{
    match p {
        PatternView::Named(name, args) => match assoc(tbl.variants, name) {
            Some(enumName) => {
                let others = match assoc(tbl.enums, enumName) {
                    Some(e) => other_variant_patterns(e.variants, name),
                    None => Seq::empty(),
                };
                others + splice_choices_named(tbl, name, args, 0)
            },
            None => Seq::empty(),
        },
        PatternView::Bind(_, _) => Seq::empty(),
        PatternView::Tuple(args) => splice_choices_tuple(tbl, args, 0),
        PatternView::IntegerLiteral(_) => seq![PatternView::Wildcard],
        PatternView::StringLiteral(_) => seq![PatternView::Wildcard],
        PatternView::Wildcard => Seq::empty(),
    }
}

/// `n` wildcard patterns, as a vector.
fn wildcardVec(n: usize) -> (r: Vec<Pattern>)
    ensures
        patterns_view_rec(r@) == wildcards(n as nat),
{
    let mut r: Vec<Pattern> = Vec::new();
    for i in 0..n
        invariant
            r@.len() == i,
            forall|j: int| 0 <= j < i ==> r@[j]@ == PatternView::Wildcard,
    {
        r.push(Pattern::Wildcard);
    }
    proof {
        assert(patterns_view_rec(r@) =~= wildcards(n as nat));
    }
    r
}

/// `args` with position `index` replaced by `choice` and every later
/// position replaced by a wildcard.
fn splicedArgs(args: &Vec<Pattern>, index: usize, choice: &Pattern) -> (r: Vec<Pattern>)
    requires
        index < args@.len(),
    ensures
        patterns_view_rec(r@) == patterns_view_rec(args@).take(index as int) + seq![choice@]
            + wildcards((args@.len() - index - 1) as nat),
{
    let mut r: Vec<Pattern> = Vec::new();
    for i in 0..index
        invariant
            index < args@.len(),
            r@.len() == i,
            forall|j: int| 0 <= j < i ==> r@[j]@ == args@[j]@,
    {
        r.push(args[i].clone());
    }
    r.push(choice.clone());
    let n = args.len();
    for i in (index + 1)..n
        invariant
            n == args@.len(),
            index < args@.len(),
            r@.len() == i,
            forall|j: int| 0 <= j < index ==> r@[j]@ == args@[j]@,
            r@[index as int]@ == choice@,
            forall|j: int| index < j < i ==> r@[j]@ == PatternView::Wildcard,
    {
        r.push(Pattern::Wildcard);
    }
    proof {
        assert(patterns_view_rec(r@) =~= patterns_view_rec(args@).take(index as int) + seq![choice@]
            + wildcards((args@.len() - index - 1) as nat));
    }
    r
}

/// Whether `this` structurally subsumes `other`: equal constructors and
/// literals match, wildcards and bindings match anything.
pub open spec fn is_match_spec(this: PatternView, other: PatternView) -> bool
    decreases this,
{
    match (this, other) {
        (PatternView::Named(id1, args1), PatternView::Named(id2, args2)) => id1 == id2
            && args1.len() == args2.len() && is_match_list(args1, args2),
        (PatternView::Wildcard, _) => true,
        (PatternView::Bind(_, _), _) => true,
        (PatternView::Tuple(args1), PatternView::Tuple(args2)) => args1.len() == args2.len()
            && is_match_list(args1, args2),
        (PatternView::StringLiteral(v1), PatternView::StringLiteral(v2)) => v1 == v2,
        (PatternView::IntegerLiteral(v1), PatternView::IntegerLiteral(v2)) => v1 == v2,
        _ => false,
    }
}

pub open spec fn is_match_list(a: Seq<PatternView>, b: Seq<PatternView>) -> bool
    decreases a,
{
    if a.len() == 0 {
        true
    } else {
        is_match_spec(a[0], b[0]) && is_match_list(a.drop_first(), b.drop_first())
    }
}

impl MatchCompiler {
    /// The declared payload arity of variant `name` of enum `enumName`.
    fn variantArity(&self, name: &QualifiedName, enumName: &QualifiedName) -> (r: Option<usize>)
        ensures
            match r {
                Some(a) => variant_arity(self@, name@, enumName@) == Some(a as nat),
                None => variant_arity(self@, name@, enumName@) is None,
            },
    {
        match self.symbols.lookupEnum(enumName) {
            None => None,
            Some(e) => {
                let n = e.variants.len();
                proof {
                    assert(e@.variants.skip(0) =~= e@.variants);
                }
                for i in 0..n
                    invariant
                        n == e.variants@.len(),
                        assoc(self@.enums, enumName@) == Some(e@),
                        variant_arity_in(e@.variants, name@) == variant_arity_in(
                            e@.variants.skip(i as int),
                            name@,
                        ),
                {
                    proof {
                        assert(e@.variants.skip(i as int).drop_first() =~= e@.variants.skip(i + 1));
                        assert(e@.variants.skip(i as int)[0] == e.variants@[i as int]@);
                    }
                    if e.variants[i].name == *name {
                        return Some(e.variants[i].items.len());
                    }
                }
                proof {
                    assert(e@.variants.skip(n as int) =~= Seq::<
                        crate::ir_data::VariantView,
                    >::empty());
                }
                None
            },
        }
    }

    /// Check that every constructor in `pattern` that names a known variant
    /// carries exactly the variant's declared payload arity.
    pub fn checkArities(&self, pattern: &Pattern) -> (r: Result<(), MatchError>)
        ensures
            match r {
                Ok(_) => arity_ok_spec(self@, pattern@) is Ok,
                Err(e) => arity_ok_spec(self@, pattern@) == Err::<(), MatchErrorView>(e@),
            },
        decreases *pattern,
    {
        match pattern {
            Pattern::Named(name, args) => {
                match self.symbols.variantEnum(name) {
                    Some(enumName) => {
                        match self.variantArity(name, &enumName) {
                            Some(arity) => {
                                proof {
                                    assert(patterns_view_rec(args@).len() == args@.len());
                                }
                                if args.len() != arity {
                                    Err(MatchError::ArityMismatch(name.clone(), arity, args.len()))
                                } else {
                                    self.checkAritiesList(args)
                                }
                            },
                            None => self.checkAritiesList(args),
                        }
                    },
                    None => self.checkAritiesList(args),
                }
            },
            Pattern::Tuple(args) => self.checkAritiesList(args),
            Pattern::Bind(_, _) => Ok(()),
            Pattern::IntegerLiteral(_) => Ok(()),
            Pattern::StringLiteral(_) => Ok(()),
            Pattern::Wildcard => Ok(()),
        }
    }

    fn checkAritiesList(&self, args: &Vec<Pattern>) -> (r: Result<(), MatchError>)
        ensures
            match r {
                Ok(_) => arity_ok_list_spec(self@, patterns_view_rec(args@)) is Ok,
                Err(e) => arity_ok_list_spec(self@, patterns_view_rec(args@)) == Err::<
                    (),
                    MatchErrorView,
                >(e@),
            },
        decreases *args,
    {
        let n = args.len();
        proof {
            assert(patterns_view_rec(args@).skip(0) =~= patterns_view_rec(args@));
        }
        for i in 0..n
            invariant
                n == args@.len(),
                arity_ok_list_spec(self@, patterns_view_rec(args@)) == arity_ok_list_spec(
                    self@,
                    patterns_view_rec(args@).skip(i as int),
                ),
        {
            proof {
                let full = patterns_view_rec(args@);
                assert(full.skip(i as int)[0] == args@[i as int]@);
                assert(full.skip(i as int).drop_first() =~= full.skip(i + 1));
            }
            match self.checkArities(&args[i]) {
                Ok(_) => (),
                Err(e) => {
                    return Err(e);
                },
            }
        }
        proof {
            assert(patterns_view_rec(args@).skip(n as int) =~= Seq::<PatternView>::empty());
        }
        Ok(())
    }

    /// Extract the decision path and the bindings of one canonical pattern:
    /// append the assertions the pattern requires at `parentData` to
    /// `decision`, and record a binding for every binding pattern met.
    #[verifier::loop_isolation(false)]
    pub fn generateDecisions(
        &self,
        pattern: &Pattern,
        parentData: &DataPath,
        decision: &DecisionPath,
        bindings: Bindings,
    ) -> (r: (DecisionPath, Bindings))
        ensures
            ({
                let (d, b) = generate_decisions_spec(
                    self@.variants,
                    pattern@,
                    parentData@,
                    decision@,
                    bindings@,
                );
                r.0@ == d && r.1@ == b
            }),
        decreases *pattern,
    {
        match pattern {
            Pattern::Named(name, args) => {
                match self.symbols.variantEnum(name) {
                    Some(enumName) => {
                        let path = DataPath::Variant(
                            Box::new(parentData.clone()),
                            name.clone(),
                            enumName,
                        );
                        let mut decision = decision.add(path.clone());
                        let mut bindings = bindings;
                        let ghost d0 = decision@;
                        let ghost b0 = bindings@;
                        let ghost full = patterns_view_rec(args@);
                        let n = args.len();
                        proof {
                            assert(full.skip(0) =~= full);
                        }
                        for i in 0..n
                            invariant
                                n == args@.len(),
                                full == patterns_view_rec(args@),
                                gen_decisions_args(
                                    self@.variants,
                                    full.skip(i as int),
                                    path@,
                                    decision@,
                                    bindings@,
                                ) == gen_decisions_args(self@.variants, full, path@, d0, b0),
                        {
                            proof {
                                assert(full.skip(i as int)[0] == args@[i as int]@);
                                assert(full.skip(i as int).drop_first() =~= full.skip(i + 1));
                            }
                            proof {
                                assert(decreases_to!(*args => args@[i as int]));
                            }
                            let step = self.generateDecisions(&args[i], &path, &decision, bindings);
                            decision = step.0;
                            bindings = step.1;
                        }
                        proof {
                            assert(full.skip(n as int) =~= Seq::<PatternView>::empty());
                        }
                        (decision, bindings)
                    },
                    None => (
                        decision.add(
                            DataPath::Class(Box::new(parentData.clone()), name.clone()),
                        ),
                        bindings,
                    ),
                }
            },
            Pattern::Bind(name, _) => {
                let ghost b0 = bindings@;
                let mut bindings = bindings;
                bindings.bindings.push((decision.add(parentData.clone()), name.clone()));
                proof {
                    assert(bindings@ =~= b0.push((decision@.push(parentData@), name@)));
                }
                (decision.add(DataPath::Wildcard(Box::new(parentData.clone()))), bindings)
            },
            Pattern::Tuple(args) => {
                let mut decision = decision.add(
                    DataPath::Tuple(Box::new(parentData.clone()), args.len()),
                );
                let mut bindings = bindings;
                let ghost d0 = decision@;
                let ghost b0 = bindings@;
                let ghost full = patterns_view_rec(args@);
                let n = args.len();
                proof {
                    assert(full.skip(0) =~= full);
                }
                for i in 0..n
                    invariant
                        n == args@.len(),
                        full == patterns_view_rec(args@),
                        gen_decisions_tuple(
                            self@.variants,
                            full.skip(i as int),
                            parentData@,
                            i,
                            decision@,
                            bindings@,
                        ) == gen_decisions_tuple(self@.variants, full, parentData@, 0, d0, b0),
                {
                    proof {
                        assert(full.skip(i as int)[0] == args@[i as int]@);
                        assert(full.skip(i as int).drop_first() =~= full.skip(i + 1));
                    }
                    let path = DataPath::TupleIndex(Box::new(parentData.clone()), i);
                    proof {
                        assert(decreases_to!(*args => args@[i as int]));
                    }
                    let step = self.generateDecisions(&args[i], &path, &decision, bindings);
                    decision = step.0;
                    bindings = step.1;
                }
                proof {
                    assert(full.skip(n as int) =~= Seq::<PatternView>::empty());
                }
                (decision, bindings)
            },
            Pattern::IntegerLiteral(v) => (
                decision.add(
                    DataPath::IntegerLiteral(Box::new(parentData.clone()), v.clone()),
                ),
                bindings,
            ),
            Pattern::StringLiteral(v) => (
                decision.add(
                    DataPath::StringLiteral(Box::new(parentData.clone()), v.clone()),
                ),
                bindings,
            ),
            Pattern::Wildcard => (
                decision.add(DataPath::Wildcard(Box::new(parentData.clone()))),
                bindings,
            ),
        }
    }

    /// Whether pattern `this` structurally subsumes `other`.
    pub fn isMatch(&self, this: &Pattern, other: &Pattern) -> (r: bool)
        ensures
            r == is_match_spec(this@, other@),
        decreases *this,
    {
        match (this, other) {
            (Pattern::Named(id1, args1), Pattern::Named(id2, args2)) => {
                proof {
                    assert(patterns_view_rec(args1@).len() == args1@.len());
                    assert(patterns_view_rec(args2@).len() == args2@.len());
                    assert(this@ == PatternView::Named(id1@, patterns_view_rec(args1@)));
                    assert(other@ == PatternView::Named(id2@, patterns_view_rec(args2@)));
                }
                if !(*id1 == *id2) {
                    return false;
                }
                if args1.len() != args2.len() {
                    return false;
                }
                self.isMatchList(args1, args2)
            },
            (Pattern::Wildcard, _) => true,
            (Pattern::Bind(_, _), _) => true,
            (Pattern::Tuple(args1), Pattern::Tuple(args2)) => {
                proof {
                    assert(patterns_view_rec(args1@).len() == args1@.len());
                    assert(patterns_view_rec(args2@).len() == args2@.len());
                }
                if args1.len() != args2.len() {
                    return false;
                }
                self.isMatchList(args1, args2)
            },
            (Pattern::StringLiteral(v1), Pattern::StringLiteral(v2)) => *v1 == *v2,
            (Pattern::IntegerLiteral(v1), Pattern::IntegerLiteral(v2)) => *v1 == *v2,
            _ => false,
        }
    }

    /// Synthesize the sibling patterns of one canonical pattern: for a
    /// variant constructor, a fully-wildcarded pattern for every other
    /// variant of its enum, and, for every sub-pattern position, each of the
    /// sub-pattern's own choices spliced back in with all sibling positions
    /// held at wildcard; literals yield one wildcard choice; bindings and
    /// wildcards yield none.
    #[verifier::loop_isolation(false)]
    #[verifier::rlimit(100)]
    pub fn generateChoices(&self, pattern: &Pattern) -> (r: Vec<Pattern>)
        requires
            variants_closed(self@),
        ensures
            crate::pattern::patterns_view(r@) == generate_choices_spec(self@, pattern@),
        decreases *pattern,
    {
        match pattern {
            Pattern::Named(name, args) => {
                match self.symbols.variantEnum(name) {
                    Some(enumName) => {
                        let mut result: Vec<Pattern> = Vec::new();
                        let e = match self.symbols.lookupEnum(&enumName) {
                            Some(e) => e,
                            None => vstd::pervasive::unreached(),
                        };
                        let ghost others = other_variant_patterns(e@.variants, name@);
                        let ghost argviews = patterns_view_rec(args@);
                        let nv = e.variants.len();
                        proof {
                            assert(e@.variants.skip(0) =~= e@.variants);
                            assert(crate::pattern::patterns_view(result@) + others =~= others);
                        }
                        for vi in 0..nv
                            invariant
                                others == crate::pattern::patterns_view(result@)
                                    + other_variant_patterns(e@.variants.skip(vi as int), name@),
                        {
                            proof {
                                assert(e@.variants.skip(vi as int)[0] == e.variants@[vi as int]@);
                                assert(e@.variants.skip(vi as int).drop_first() =~= e@.variants.skip(
                                    vi + 1,
                                ));
                            }
                            if !(e.variants[vi].name == *name) {
                                let ghost r0 = result@;
                                let wargs = wildcardVec(e.variants[vi].items.len());
                                result.push(
                                    Pattern::Named(e.variants[vi].name.clone(), wargs),
                                );
                                proof {
                                    assert(crate::pattern::patterns_view(result@)
                                        =~= crate::pattern::patterns_view(r0) + seq![
                                        result@.last()@,
                                    ]);
                                    assert(result@.last()@ == PatternView::Named(
                                        e@.variants[vi as int].name,
                                        wildcards(e@.variants[vi as int].items.len()),
                                    ));
                                    assert(crate::pattern::patterns_view(result@)
                                        + other_variant_patterns(
                                        e@.variants.skip(vi + 1),
                                        name@,
                                    ) =~= crate::pattern::patterns_view(r0) + (seq![
                                        result@.last()@,
                                    ] + other_variant_patterns(e@.variants.skip(vi + 1), name@)));
                                }
                            }
                        }
                        proof {
                            assert(e@.variants.skip(nv as int) =~= Seq::<
                                crate::ir_data::VariantView,
                            >::empty());
                            assert(crate::pattern::patterns_view(result@) =~= others);
                        }
                        let na = args.len();
                        for index in 0..na
                            invariant
                                na == args@.len(),
                                generate_choices_spec(self@, pattern@)
                                    == crate::pattern::patterns_view(result@)
                                    + splice_choices_named(self@, name@, argviews, index as int),
                        {
                            proof {
                                assert(decreases_to!(*args => args@[index as int]));
                                assert(argviews[index as int] == args@[index as int]@);
                            }
                            let choices = self.generateChoices(&args[index]);
                            let ghost spliced = map_spliced_named(
                                name@,
                                argviews,
                                index as int,
                                crate::pattern::patterns_view(choices@),
                            );
                            let nc = choices.len();
                            proof {
                                assert(spliced.skip(0) =~= spliced);
                                assert(generate_choices_spec_at(self@, argviews, index as int)
                                    == crate::pattern::patterns_view(choices@));
                                assert(splice_choices_named(self@, name@, argviews, index as int)
                                    == spliced + splice_choices_named(
                                    self@,
                                    name@,
                                    argviews,
                                    index as int + 1,
                                ));
                                assert(crate::pattern::patterns_view(result@) + spliced
                                    + splice_choices_named(self@, name@, argviews, index as int + 1)
                                    =~= crate::pattern::patterns_view(result@) + (spliced
                                + splice_choices_named(self@, name@, argviews, index as int + 1)));
                            }
                            for ci in 0..nc
                                invariant
                                    nc == choices@.len(),
                                    generate_choices_spec(self@, pattern@)
                                        == crate::pattern::patterns_view(result@) + spliced.skip(
                                        ci as int,
                                    ) + splice_choices_named(
                                        self@,
                                        name@,
                                        argviews,
                                        index as int + 1,
                                    ),
                            {
                                let ghost r0 = result@;
                                let choiceArgs = splicedArgs(args, index, &choices[ci]);
                                result.push(Pattern::Named(name.clone(), choiceArgs));
                                proof {
                                    assert(result@.last()@ == spliced[ci as int]);
                                    assert(spliced.skip(ci as int) =~= seq![spliced[ci as int]]
                                        + spliced.skip(ci as int + 1));
                                    assert(crate::pattern::patterns_view(result@)
                                        =~= crate::pattern::patterns_view(r0) + seq![
                                        spliced[ci as int],
                                    ]);
                                    assert(crate::pattern::patterns_view(result@) + spliced.skip(
                                        ci as int + 1,
                                    ) + splice_choices_named(
                                        self@,
                                        name@,
                                        argviews,
                                        index as int + 1,
                                    ) =~= crate::pattern::patterns_view(r0) + spliced.skip(
                                        ci as int,
                                    ) + splice_choices_named(
                                        self@,
                                        name@,
                                        argviews,
                                        index as int + 1,
                                    ));
                                }
                            }
                            proof {
                                assert(spliced.skip(nc as int) =~= Seq::<PatternView>::empty());
                                assert(crate::pattern::patterns_view(result@) + spliced.skip(
                                    nc as int,
                                ) =~= crate::pattern::patterns_view(result@));
                            }
                        }
                        proof {
                            assert(splice_choices_named(self@, name@, argviews, na as int) =~= Seq::<
                                PatternView,
                            >::empty());
                            assert(crate::pattern::patterns_view(result@) + splice_choices_named(
                                self@,
                                name@,
                                argviews,
                                na as int,
                            ) =~= crate::pattern::patterns_view(result@));
                        }
                        result
                    },
                    None => {
                        let r: Vec<Pattern> = Vec::new();
                        proof {
                            assert(crate::pattern::patterns_view(r@) =~= Seq::<
                                PatternView,
                            >::empty());
                        }
                        r
                    },
                }
            },
            Pattern::Tuple(args) => {
                let mut result: Vec<Pattern> = Vec::new();
                let ghost argviews = patterns_view_rec(args@);
                proof {
                    assert(crate::pattern::patterns_view(result@) =~= Seq::<PatternView>::empty());
                }
                let na = args.len();
                for index in 0..na
                    invariant
                        na == args@.len(),
                        generate_choices_spec(self@, pattern@) == crate::pattern::patterns_view(
                            result@,
                        ) + splice_choices_tuple(self@, argviews, index as int),
                {
                    proof {
                        assert(decreases_to!(*args => args@[index as int]));
                        assert(argviews[index as int] == args@[index as int]@);
                    }
                    let choices = self.generateChoices(&args[index]);
                    let ghost spliced = map_spliced_tuple(
                        argviews,
                        index as int,
                        crate::pattern::patterns_view(choices@),
                    );
                    let nc = choices.len();
                    proof {
                        assert(spliced.skip(0) =~= spliced);
                        assert(generate_choices_spec_at(self@, argviews, index as int)
                            == crate::pattern::patterns_view(choices@));
                        assert(splice_choices_tuple(self@, argviews, index as int) == spliced
                            + splice_choices_tuple(self@, argviews, index as int + 1));
                        assert(crate::pattern::patterns_view(result@) + spliced
                            + splice_choices_tuple(self@, argviews, index as int + 1)
                            =~= crate::pattern::patterns_view(result@) + (spliced
                        + splice_choices_tuple(self@, argviews, index as int + 1)));
                    }
                    for ci in 0..nc
                        invariant
                            nc == choices@.len(),
                            generate_choices_spec(self@, pattern@) == crate::pattern::patterns_view(
                                result@,
                            ) + spliced.skip(ci as int) + splice_choices_tuple(
                                self@,
                                argviews,
                                index as int + 1,
                            ),
                    {
                        let ghost r0 = result@;
                        let choiceArgs = splicedArgs(args, index, &choices[ci]);
                        result.push(Pattern::Tuple(choiceArgs));
                        proof {
                            assert(result@.last()@ == spliced[ci as int]);
                            assert(spliced.skip(ci as int) =~= seq![spliced[ci as int]]
                                + spliced.skip(ci as int + 1));
                            assert(crate::pattern::patterns_view(result@)
                                =~= crate::pattern::patterns_view(r0) + seq![spliced[ci as int]]);
                            assert(crate::pattern::patterns_view(result@) + spliced.skip(
                                ci as int + 1,
                            ) + splice_choices_tuple(self@, argviews, index as int + 1)
                                =~= crate::pattern::patterns_view(r0) + spliced.skip(ci as int)
                                + splice_choices_tuple(self@, argviews, index as int + 1));
                        }
                    }
                    proof {
                        assert(spliced.skip(nc as int) =~= Seq::<PatternView>::empty());
                        assert(crate::pattern::patterns_view(result@) + spliced.skip(nc as int)
                            =~= crate::pattern::patterns_view(result@));
                    }
                }
                proof {
                    assert(splice_choices_tuple(self@, argviews, na as int) =~= Seq::<
                        PatternView,
                    >::empty());
                    assert(crate::pattern::patterns_view(result@) + splice_choices_tuple(
                        self@,
                        argviews,
                        na as int,
                    ) =~= crate::pattern::patterns_view(result@));
                }
                result
            },
            Pattern::Bind(_, _) => {
                let r: Vec<Pattern> = Vec::new();
                proof {
                    assert(crate::pattern::patterns_view(r@) =~= Seq::<PatternView>::empty());
                }
                r
            },
            Pattern::Wildcard => {
                let r: Vec<Pattern> = Vec::new();
                proof {
                    assert(crate::pattern::patterns_view(r@) =~= Seq::<PatternView>::empty());
                }
                r
            },
            Pattern::IntegerLiteral(_) => {
                let mut r: Vec<Pattern> = Vec::new();
                r.push(Pattern::Wildcard);
                proof {
                    assert(crate::pattern::patterns_view(r@) =~= seq![PatternView::Wildcard]);
                }
                r
            },
            Pattern::StringLiteral(_) => {
                let mut r: Vec<Pattern> = Vec::new();
                r.push(Pattern::Wildcard);
                proof {
                    assert(crate::pattern::patterns_view(r@) =~= seq![PatternView::Wildcard]);
                }
                r
            },
        }
    }

    fn isMatchList(&self, a: &Vec<Pattern>, b: &Vec<Pattern>) -> (r: bool)
        requires
            a@.len() == b@.len(),
        ensures
            r == is_match_list(patterns_view_rec(a@), patterns_view_rec(b@)),
        decreases *a,
    {
        let n = a.len();
        proof {
            assert(patterns_view_rec(a@).skip(0) =~= patterns_view_rec(a@));
            assert(patterns_view_rec(b@).skip(0) =~= patterns_view_rec(b@));
        }
        for i in 0..n
            invariant
                n == a@.len(),
                a@.len() == b@.len(),
                is_match_list(patterns_view_rec(a@), patterns_view_rec(b@)) == is_match_list(
                    patterns_view_rec(a@).skip(i as int),
                    patterns_view_rec(b@).skip(i as int),
                ),
        {
            proof {
                let fa = patterns_view_rec(a@);
                let fb = patterns_view_rec(b@);
                assert(fa.skip(i as int)[0] == a@[i as int]@);
                assert(fb.skip(i as int)[0] == b@[i as int]@);
                assert(fa.skip(i as int).drop_first() =~= fa.skip(i + 1));
                assert(fb.skip(i as int).drop_first() =~= fb.skip(i + 1));
            }
            if !self.isMatch(&a[i], &b[i]) {
                return false;
            }
        }
        proof {
            assert(patterns_view_rec(a@).skip(n as int) =~= Seq::<PatternView>::empty());
        }
        true
    }
}

/// The views of the elements of a path vector, in order.
pub open spec fn paths_view(s: Seq<DataPath>) -> Seq<DataPathView> {
    Seq::new(s.len(), |i: int| s[i]@)
}

/// The views of the entries of a shape table, in order.
pub open spec fn shape_pairs_view(s: Seq<(DataPath, DataType)>) -> Seq<(DataPathView, DataTypeView)> {
    Seq::new(s.len(), |i: int| (s[i].0@, s[i].1@))
}

/// The mathematical shape of a `Case`.
pub ghost enum CaseView {
    Variant(QualifiedNameView),
    Integer(Seq<char>),
    String(Seq<char>),
    Default,
}

/// One case label of a `Switch` node: a variant tag, a literal value, or
/// the catch-all.
#[derive(Debug)]
pub enum Case {
    Variant(QualifiedName),
    Integer(String),
    String(String),
    Default,
}

impl View for Case {
    type V = CaseView;

    open spec fn view(&self) -> CaseView {
        match self {
            Case::Variant(n) => CaseView::Variant(n@),
            Case::Integer(v) => CaseView::Integer(v@),
            Case::String(v) => CaseView::String(v@),
            Case::Default => CaseView::Default,
        }
    }
}

/// An unconditional tuple decomposition node.
#[derive(Debug)]
pub struct Tuple {
    pub next: Box<Node>,
}

/// A branching node: one sub-tree per case, in the order the cases were
/// generated (variants in declaration order; literals in first-occurrence
/// order with the catch-all last).
#[derive(Debug)]
pub struct Switch {
    pub cases: Vec<(Case, Node)>,
}

/// A terminal node carrying the decision path accumulated on the way down.
#[derive(Debug)]
pub struct End {
    pub decisionPath: DecisionPath,
}

/// One node of the compiled decision tree.
#[derive(Debug)]
pub enum Node {
    Tuple(Tuple),
    Switch(Switch),
    End(End),
}

/// The mathematical shape of a `Node`.
pub ghost enum NodeView {
    Tuple(Box<NodeView>),
    Switch(Seq<(CaseView, NodeView)>),
    End(Seq<DataPathView>),
}

pub open spec fn node_view(n: Node) -> NodeView
    decreases n,
{
    match n {
        Node::Tuple(t) => NodeView::Tuple(Box::new(node_view(*t.next))),
        Node::Switch(sw) => NodeView::Switch(cases_view_rec(sw.cases@)),
        Node::End(e) => NodeView::End(e.decisionPath@),
    }
}

pub open spec fn cases_view_rec(cs: Seq<(Case, Node)>) -> Seq<(CaseView, NodeView)>
    decreases cs,
{
    if cs.len() == 0 {
        Seq::empty()
    } else {
        cases_view_rec(cs.drop_last()).push((cs.last().0@, node_view(cs.last().1)))
    }
}

pub broadcast proof fn cases_view_rec_is_map(cs: Seq<(Case, Node)>)
    ensures
        #[trigger] cases_view_rec(cs) == Seq::new(cs.len(), |i: int| (cs[i].0@, cs[i].1@)),
    decreases cs.len(),
{
    if cs.len() > 0 {
        cases_view_rec_is_map(cs.drop_last());
        assert(cases_view_rec(cs) =~= Seq::new(cs.len(), |i: int| (cs[i].0@, cs[i].1@)));
    } else {
        assert(cases_view_rec(cs) =~= Seq::new(cs.len(), |i: int| (cs[i].0@, cs[i].1@)));
    }
}

impl View for Node {
    type V = NodeView;

    open spec fn view(&self) -> NodeView {
        node_view(*self)
    }
}

/// The views of a case vector, in order.
pub open spec fn cases_view(cs: Seq<(Case, Node)>) -> Seq<(CaseView, NodeView)> {
    Seq::new(cs.len(), |i: int| (cs[i].0@, cs[i].1@))
}

/// How many structural steps from the root a position lies.
pub open spec fn path_depth(p: DataPathView) -> nat
    decreases p,
{
    match p {
        DataPathView::Root => 0,
        DataPathView::Tuple(q, _) => 1 + path_depth(*q),
        DataPathView::TupleIndex(q, _) => 1 + path_depth(*q),
        DataPathView::Variant(q, _, _) => 1 + path_depth(*q),
        DataPathView::IntegerLiteral(q, _) => 1 + path_depth(*q),
        DataPathView::StringLiteral(q, _) => 1 + path_depth(*q),
        DataPathView::Class(q, _) => 1 + path_depth(*q),
        DataPathView::Wildcard(q) => 1 + path_depth(*q),
    }
}

/// The greatest depth of a key of the shape table.
pub open spec fn shapes_depth(shapes: Seq<(DataPathView, DataTypeView)>) -> nat
    decreases shapes.len(),
{
    if shapes.len() == 0 {
        0
    } else {
        let d0 = path_depth(shapes[0].0);
        let rest = shapes_depth(shapes.drop_first());
        if d0 >= rest {
            d0
        } else {
            rest
        }
    }
}

/// Everything the decision-tree builder consults besides the pending
/// positions: the enum declarations, the inferred shapes, and the literal
/// values that occur anywhere in the match set.
pub ghost struct BuildCtx {
    pub enums: Seq<(QualifiedNameView, EnumView)>,
    pub shapes: Seq<(DataPathView, DataTypeView)>,
    pub int_lits: Seq<Seq<char>>,
    pub str_lits: Seq<Seq<char>>,
}

/// The literal value a decision step tests, if it tests one of the wanted
/// kind.
pub open spec fn lit_step_value(d: DataPathView, isInt: bool) -> Option<Seq<char>> {
    if isInt {
        match d {
            DataPathView::IntegerLiteral(_, v) => Some(v),
            _ => None,
        }
    } else {
        match d {
            DataPathView::StringLiteral(_, v) => Some(v),
            _ => None,
        }
    }
}

/// Every literal value of the wanted kind on one decision path, in order.
pub open spec fn lits_of_path(d: Seq<DataPathView>, isInt: bool) -> Seq<Seq<char>>
    decreases d.len(),
{
    if d.len() == 0 {
        Seq::empty()
    } else {
        (match lit_step_value(d[0], isInt) {
            Some(v) => seq![v],
            None => Seq::empty(),
        }) + lits_of_path(d.drop_first(), isInt)
    }
}

/// Every literal value of the wanted kind in any match's decision path.
pub open spec fn all_lits(ms: Seq<MatchView>, isInt: bool) -> Seq<Seq<char>>
    decreases ms.len(),
{
    if ms.len() == 0 {
        Seq::empty()
    } else {
        lits_of_path(ms[0].decisionPath, isInt) + all_lits(ms.drop_first(), isInt)
    }
}

/// The context the decision-tree builder runs in, determined by the symbol
/// table, the inferred shapes and the match set.
pub open spec fn build_ctx(
    tbl: SymbolTableView,
    shapes: Seq<(DataPathView, DataTypeView)>,
    ms: Seq<MatchView>,
) -> BuildCtx {
    BuildCtx { enums: tbl.enums, shapes, int_lits: all_lits(ms, true), str_lits: all_lits(ms, false) }
}

/// The variant-test positions one step below `p` for an enum's variants.
pub open spec fn variant_children(
    p: DataPathView,
    e: QualifiedNameView,
    variants: Seq<crate::ir_data::VariantView>,
) -> Seq<DataPathView> {
    Seq::new(variants.len(), |i: int| DataPathView::Variant(Box::new(p), variants[i].name, e))
}

/// The field positions one step below a tuple position of arity `n`.
pub open spec fn tuple_children(p: DataPathView, n: usize) -> Seq<DataPathView> {
    Seq::new(n as nat, |i: int| DataPathView::TupleIndex(Box::new(p), i as usize))
}

/// The literal-test positions one step below `p`, plus the catch-all.
pub open spec fn lit_children(
    p: DataPathView,
    int_lits: Seq<Seq<char>>,
    str_lits: Seq<Seq<char>>,
) -> Seq<DataPathView> {
    Seq::new(int_lits.len(), |i: int| DataPathView::IntegerLiteral(Box::new(p), int_lits[i]))
        + Seq::new(str_lits.len(), |i: int| DataPathView::StringLiteral(Box::new(p), str_lits[i]))
        + seq![DataPathView::Wildcard(Box::new(p))]
}

/// Every position the builder could visit one step below a position of the
/// given shape.
pub open spec fn shape_children(ctx: BuildCtx, p: DataPathView, ty: DataTypeView) -> Seq<
    DataPathView,
> {
    match ty {
        DataTypeView::Class(_) => Seq::empty(),
        DataTypeView::Enum(e) => match assoc(ctx.enums, e) {
            Some(ev) => variant_children(p, e, ev.variants),
            None => Seq::empty(),
        },
        DataTypeView::Tuple(n) => tuple_children(p, n),
        DataTypeView::Integer => lit_children(p, ctx.int_lits, ctx.str_lits),
        DataTypeView::String => lit_children(p, ctx.int_lits, ctx.str_lits),
    }
}

/// The termination measure of one pending position: positions deeper than
/// every shape-table key count 1; a position with a shape counts 1 plus the
/// measures of all positions one step below it.
pub open spec fn fuel_msr(ctx: BuildCtx, p: DataPathView) -> nat {
    if path_depth(p) <= shapes_depth(ctx.shapes) {
        (shapes_depth(ctx.shapes) + 1 - path_depth(p)) as nat
    } else {
        0
    }
}

pub open spec fn node_fuel(ctx: BuildCtx, p: DataPathView) -> nat
    decreases fuel_msr(ctx, p), 1int, 0int,
{
    if path_depth(p) > shapes_depth(ctx.shapes) {
        1
    } else {
        match assoc(ctx.shapes, p) {
            None => 1,
            Some(ty) => 1 + children_fuel(ctx, p, ty, 0),
        }
    }
}

/// The summed measures of the children of `p` from index `k` on.
pub open spec fn children_fuel(ctx: BuildCtx, p: DataPathView, ty: DataTypeView, k: int) -> nat
    decreases fuel_msr(ctx, p), 0int, shape_children(ctx, p, ty).len() - k,
{
    if path_depth(p) > shapes_depth(ctx.shapes) || k < 0 || k >= shape_children(ctx, p, ty).len() {
        0
    } else {
        node_fuel(ctx, shape_children(ctx, p, ty)[k]) + children_fuel(ctx, p, ty, k + 1)
    }
}

/// The summed measures of a pending queue.
pub open spec fn pending_fuel(ctx: BuildCtx, pending: Seq<DataPathView>) -> nat
    decreases pending.len(),
{
    if pending.len() == 0 {
        0
    } else {
        node_fuel(ctx, pending[0]) + pending_fuel(ctx, pending.drop_first())
    }
}

pub proof fn lemma_node_fuel_pos(ctx: BuildCtx, p: DataPathView)
    ensures
        node_fuel(ctx, p) >= 1,
{
}

pub proof fn lemma_assoc_shapes_depth(shapes: Seq<(DataPathView, DataTypeView)>, p: DataPathView)
    requires
        assoc(shapes, p) is Some,
    ensures
        path_depth(p) <= shapes_depth(shapes),
    decreases shapes.len(),
{
    if shapes.len() > 0 {
        if !(shapes[0].0 == p) {
            lemma_assoc_shapes_depth(shapes.drop_first(), p);
        }
    }
}

proof fn lemma_children_fuel_ge(ctx: BuildCtx, p: DataPathView, ty: DataTypeView, k: int, i: int)
    requires
        path_depth(p) <= shapes_depth(ctx.shapes),
        0 <= k <= i < shape_children(ctx, p, ty).len(),
    ensures
        children_fuel(ctx, p, ty, k) >= node_fuel(ctx, shape_children(ctx, p, ty)[i]),
    decreases i - k,
{
    if k < i {
        lemma_children_fuel_ge(ctx, p, ty, k + 1, i);
    }
}

pub proof fn lemma_child_fuel(ctx: BuildCtx, p: DataPathView, ty: DataTypeView, i: int)
    requires
        assoc(ctx.shapes, p) == Some(ty),
        0 <= i < shape_children(ctx, p, ty).len(),
    ensures
        node_fuel(ctx, shape_children(ctx, p, ty)[i]) < node_fuel(ctx, p),
{
    lemma_assoc_shapes_depth(ctx.shapes, p);
    lemma_children_fuel_ge(ctx, p, ty, 0, i);
}

pub proof fn lemma_pf_split(ctx: BuildCtx, a: Seq<DataPathView>, b: Seq<DataPathView>)
    ensures
        pending_fuel(ctx, a + b) == pending_fuel(ctx, a) + pending_fuel(ctx, b),
    decreases a.len(),
{
    if a.len() == 0 {
        assert(a + b =~= b);
    } else {
        assert((a + b).drop_first() =~= a.drop_first() + b);
        assert((a + b)[0] == a[0]);
        lemma_pf_split(ctx, a.drop_first(), b);
    }
}

proof fn lemma_pf_children(ctx: BuildCtx, p: DataPathView, ty: DataTypeView, k: int)
    requires
        path_depth(p) <= shapes_depth(ctx.shapes),
        0 <= k <= shape_children(ctx, p, ty).len(),
    ensures
        pending_fuel(ctx, shape_children(ctx, p, ty).skip(k)) == children_fuel(ctx, p, ty, k),
    decreases shape_children(ctx, p, ty).len() - k,
{
    let cs = shape_children(ctx, p, ty);
    if k == cs.len() {
        assert(cs.skip(k) =~= Seq::<DataPathView>::empty());
    } else {
        lemma_pf_children(ctx, p, ty, k + 1);
        assert(cs.skip(k)[0] == cs[k]);
        assert(cs.skip(k).drop_first() =~= cs.skip(k + 1));
    }
}

pub proof fn lemma_tuple_children_fuel(ctx: BuildCtx, p: DataPathView, n: usize)
    requires
        assoc(ctx.shapes, p) == Some(DataTypeView::Tuple(n)),
    ensures
        pending_fuel(ctx, tuple_children(p, n)) < node_fuel(ctx, p),
{
    lemma_assoc_shapes_depth(ctx.shapes, p);
    lemma_pf_children(ctx, p, DataTypeView::Tuple(n), 0);
    assert(shape_children(ctx, p, DataTypeView::Tuple(n)).skip(0) =~= tuple_children(p, n));
}

pub proof fn lemma_variant_child_fuel(
    ctx: BuildCtx,
    p: DataPathView,
    e: QualifiedNameView,
    ev: EnumView,
    vi: int,
)
    requires
        assoc(ctx.shapes, p) == Some(DataTypeView::Enum(e)),
        assoc(ctx.enums, e) == Some(ev),
        0 <= vi < ev.variants.len(),
    ensures
        node_fuel(ctx, DataPathView::Variant(Box::new(p), ev.variants[vi].name, e)) < node_fuel(
            ctx,
            p,
        ),
{
    let ty = DataTypeView::Enum(e);
    assert(shape_children(ctx, p, ty)[vi] == DataPathView::Variant(
        Box::new(p),
        ev.variants[vi].name,
        e,
    ));
    lemma_child_fuel(ctx, p, ty, vi);
}

pub proof fn lemma_lit_child_fuel(
    ctx: BuildCtx,
    p: DataPathView,
    ty: DataTypeView,
    v: Seq<char>,
    isInt: bool,
)
    requires
        assoc(ctx.shapes, p) == Some(ty),
        ty is Integer || ty is String,
        isInt ==> ctx.int_lits.contains(v),
        !isInt ==> ctx.str_lits.contains(v),
    ensures
        isInt ==> node_fuel(ctx, DataPathView::IntegerLiteral(Box::new(p), v)) < node_fuel(ctx, p),
        !isInt ==> node_fuel(ctx, DataPathView::StringLiteral(Box::new(p), v)) < node_fuel(ctx, p),
{
    if isInt {
        let j = choose|j: int| 0 <= j < ctx.int_lits.len() && ctx.int_lits[j] == v;
        assert(shape_children(ctx, p, ty)[j] == DataPathView::IntegerLiteral(Box::new(p), v));
        lemma_child_fuel(ctx, p, ty, j);
    } else {
        let j = choose|j: int| 0 <= j < ctx.str_lits.len() && ctx.str_lits[j] == v;
        assert(shape_children(ctx, p, ty)[ctx.int_lits.len() + j] == DataPathView::StringLiteral(
            Box::new(p),
            v,
        ));
        lemma_child_fuel(ctx, p, ty, ctx.int_lits.len() + j);
    }
}

pub proof fn lemma_wildcard_child_fuel(ctx: BuildCtx, p: DataPathView, ty: DataTypeView)
    requires
        assoc(ctx.shapes, p) == Some(ty),
        ty is Integer || ty is String,
    ensures
        node_fuel(ctx, DataPathView::Wildcard(Box::new(p))) < node_fuel(ctx, p),
{
    let j = ctx.int_lits.len() + ctx.str_lits.len();
    assert(shape_children(ctx, p, ty)[j as int] == DataPathView::Wildcard(Box::new(p)));
    lemma_child_fuel(ctx, p, ty, j as int);
}

/// The distinct literal values of the wanted kind that appear as the
/// immediate next decision among all matches whose decision path extends
/// `current`, in first-occurrence order.
pub open spec fn collect_acc(
    ms: Seq<MatchView>,
    current: Seq<DataPathView>,
    isInt: bool,
    acc: Seq<Seq<char>>,
) -> Seq<Seq<char>>
    decreases ms.len(),
{
    if ms.len() == 0 {
        acc
    } else {
        let acc2 = if current.is_prefix_of(ms[0].decisionPath) && ms[0].decisionPath.len()
            >= current.len() + 1 {
            match lit_step_value(ms[0].decisionPath[current.len() as int], isInt) {
                Some(v) => if acc.contains(v) {
                    acc
                } else {
                    acc.push(v)
                },
                None => acc,
            }
        } else {
            acc
        };
        collect_acc(ms.drop_first(), current, isInt, acc2)
    }
}

proof fn lemma_path_lit_contains(d: Seq<DataPathView>, k: int, isInt: bool)
    requires
        0 <= k < d.len(),
        lit_step_value(d[k], isInt) is Some,
    ensures
        lits_of_path(d, isInt).contains(lit_step_value(d[k], isInt)->Some_0),
    decreases k,
{
    if k == 0 {
        assert(lits_of_path(d, isInt)[0] == lit_step_value(d[0], isInt)->Some_0);
    } else {
        lemma_path_lit_contains(d.drop_first(), k - 1, isInt);
        let v = lit_step_value(d[k], isInt)->Some_0;
        let j = choose|j: int|
            0 <= j < lits_of_path(d.drop_first(), isInt).len() && lits_of_path(
                d.drop_first(),
                isInt,
            )[j] == v;
        let pre = (match lit_step_value(d[0], isInt) {
            Some(v0) => seq![v0],
            None => Seq::<Seq<char>>::empty(),
        });
        assert(lits_of_path(d, isInt)[pre.len() + j] == v);
    }
}

/// Everything collected is a literal that occurs somewhere in the match set
/// (or was already in the accumulator).
pub proof fn lemma_collect_contained(
    ms: Seq<MatchView>,
    current: Seq<DataPathView>,
    isInt: bool,
    acc: Seq<Seq<char>>,
)
    ensures
        forall|j: int|
            0 <= j < collect_acc(ms, current, isInt, acc).len() ==> acc.contains(
                #[trigger] collect_acc(ms, current, isInt, acc)[j],
            ) || all_lits(ms, isInt).contains(collect_acc(ms, current, isInt, acc)[j]),
    decreases ms.len(),
{
    if ms.len() > 0 {
        let acc2 = if current.is_prefix_of(ms[0].decisionPath) && ms[0].decisionPath.len()
            >= current.len() + 1 {
            match lit_step_value(ms[0].decisionPath[current.len() as int], isInt) {
                Some(v) => if acc.contains(v) {
                    acc
                } else {
                    acc.push(v)
                },
                None => acc,
            }
        } else {
            acc
        };
        lemma_collect_contained(ms.drop_first(), current, isInt, acc2);
        let full = all_lits(ms, isInt);
        let first = lits_of_path(ms[0].decisionPath, isInt);
        let rest = all_lits(ms.drop_first(), isInt);
        assert(full == first + rest);
        assert forall|v: Seq<char>| rest.contains(v) implies full.contains(v) by {
            let j = choose|j: int| 0 <= j < rest.len() && rest[j] == v;
            assert(full[first.len() + j] == v);
        }
        assert forall|v: Seq<char>| acc2.contains(v) implies acc.contains(v) || full.contains(
            v,
        ) by {
            if !acc.contains(v) {
                let k = current.len() as int;
                assert(lit_step_value(ms[0].decisionPath[k], isInt) == Some(v));
                lemma_path_lit_contains(ms[0].decisionPath, k, isInt);
                let j = choose|j: int| 0 <= j < first.len() && first[j] == v;
                assert(full[j] == v);
            }
        }
        let out = collect_acc(ms, current, isInt, acc);
        assert(out == collect_acc(ms.drop_first(), current, isInt, acc2));
        assert forall|j: int| 0 <= j < out.len() implies acc.contains(#[trigger] out[j])
            || full.contains(out[j]) by {
            let v = collect_acc(ms.drop_first(), current, isInt, acc2)[j];
            assert(acc2.contains(v) || rest.contains(v));
            if acc2.contains(v) {
                assert(acc.contains(v) || full.contains(v));
            } else {
                assert(full.contains(v));
            }
        }
    }
}

/// The decision tree built from the head pending position on: a `Switch`
/// over every variant where the head has an enum shape, an unconditional
/// decomposition where it has a tuple shape, a `Switch` over the occurring
/// literals plus a mandatory catch-all where it has a literal shape, and a
/// terminal once nothing is pending. A position with no inferred shape is
/// dropped.
///
/// Each recursive step is guarded by the strict decrease of its fuel
/// measure, which keeps this function total; `buildNode` discharges every
/// guard on the inputs it passes, so the guarded form and the built tree
/// agree wherever the builder runs.
pub open spec fn build_node_spec(
    ctx: BuildCtx,
    matches: Seq<MatchView>,
    pending: Seq<DataPathView>,
    current: Seq<DataPathView>,
) -> NodeView
    decreases pending_fuel(ctx, pending), 1int, 0int,
{
    if pending.len() == 0 {
        NodeView::End(current)
    } else {
        let head = pending[0];
        let rest = pending.drop_first();
        if path_depth(head) > shapes_depth(ctx.shapes) {
            if pending_fuel(ctx, rest) < pending_fuel(ctx, pending) {
                build_node_spec(ctx, matches, rest, current)
            } else {
                NodeView::End(current)
            }
        } else {
            match assoc(ctx.shapes, head) {
                None => if pending_fuel(ctx, rest) < pending_fuel(ctx, pending) {
                    build_node_spec(ctx, matches, rest, current)
                } else {
                    NodeView::End(current)
                },
                Some(ty) => match ty {
                    DataTypeView::Class(_) => NodeView::End(current),
                    DataTypeView::Enum(e) => match assoc(ctx.enums, e) {
                        Some(ev) => NodeView::Switch(
                            build_enum_cases(ctx, matches, head, rest, current, e, ev.variants, 0),
                        ),
                        None => NodeView::End(current),
                    },
                    DataTypeView::Tuple(n) => {
                        let pending2 = tuple_children(head, n) + rest;
                        let current2 = current.push(DataPathView::Tuple(Box::new(head), n));
                        if pending_fuel(ctx, pending2) < pending_fuel(ctx, pending) {
                            NodeView::Tuple(
                                Box::new(build_node_spec(ctx, matches, pending2, current2)),
                            )
                        } else {
                            NodeView::End(current2)
                        }
                    },
                    DataTypeView::Integer => {
                        let values = collect_acc(matches, current, true, Seq::empty());
                        NodeView::Switch(
                            build_lit_cases(ctx, matches, head, rest, current, values, 0, true)
                                + seq![
                                (
                                    CaseView::Default,
                                    build_default_node(ctx, matches, head, rest, current),
                                ),
                            ],
                        )
                    },
                    DataTypeView::String => {
                        let values = collect_acc(matches, current, false, Seq::empty());
                        NodeView::Switch(
                            build_lit_cases(ctx, matches, head, rest, current, values, 0, false)
                                + seq![
                                (
                                    CaseView::Default,
                                    build_default_node(ctx, matches, head, rest, current),
                                ),
                            ],
                        )
                    },
                },
            }
        }
    }
}

/// One case per variant of the head's enum, in declaration order, each
/// built with the variant's payload position prepended to the pending queue.
pub open spec fn build_enum_cases(
    ctx: BuildCtx,
    matches: Seq<MatchView>,
    head: DataPathView,
    rest: Seq<DataPathView>,
    current: Seq<DataPathView>,
    e: QualifiedNameView,
    variants: Seq<crate::ir_data::VariantView>,
    vi: int,
) -> Seq<(CaseView, NodeView)>
    decreases node_fuel(ctx, head) + pending_fuel(ctx, rest), 0int, variants.len() - vi,
{
    if vi < 0 || vi >= variants.len() {
        Seq::empty()
    } else {
        let casePath = DataPathView::Variant(Box::new(head), variants[vi].name, e);
        let pending2 = seq![casePath] + rest;
        let current2 = current.push(casePath);
        let node = if pending_fuel(ctx, pending2) < node_fuel(ctx, head) + pending_fuel(
            ctx,
            rest,
        ) {
            build_node_spec(ctx, matches, pending2, current2)
        } else {
            NodeView::End(current2)
        };
        seq![(CaseView::Variant(variants[vi].name), node)] + build_enum_cases(
            ctx,
            matches,
            head,
            rest,
            current,
            e,
            variants,
            vi + 1,
        )
    }
}

/// One case per collected literal value, in first-occurrence order.
pub open spec fn build_lit_cases(
    ctx: BuildCtx,
    matches: Seq<MatchView>,
    head: DataPathView,
    rest: Seq<DataPathView>,
    current: Seq<DataPathView>,
    values: Seq<Seq<char>>,
    vi: int,
    isInt: bool,
) -> Seq<(CaseView, NodeView)>
    decreases node_fuel(ctx, head) + pending_fuel(ctx, rest), 0int, values.len() - vi,
{
    if vi < 0 || vi >= values.len() {
        Seq::empty()
    } else {
        let casePath = if isInt {
            DataPathView::IntegerLiteral(Box::new(head), values[vi])
        } else {
            DataPathView::StringLiteral(Box::new(head), values[vi])
        };
        let pending2 = seq![casePath] + rest;
        let current2 = current.push(casePath);
        let node = if pending_fuel(ctx, pending2) < node_fuel(ctx, head) + pending_fuel(
            ctx,
            rest,
        ) {
            build_node_spec(ctx, matches, pending2, current2)
        } else {
            NodeView::End(current2)
        };
        let case = if isInt {
            CaseView::Integer(values[vi])
        } else {
            CaseView::String(values[vi])
        };
        seq![(case, node)] + build_lit_cases(
            ctx,
            matches,
            head,
            rest,
            current,
            values,
            vi + 1,
            isInt,
        )
    }
}

/// The sub-tree behind the mandatory catch-all case of a literal switch.
pub open spec fn build_default_node(
    ctx: BuildCtx,
    matches: Seq<MatchView>,
    head: DataPathView,
    rest: Seq<DataPathView>,
    current: Seq<DataPathView>,
) -> NodeView
    decreases node_fuel(ctx, head) + pending_fuel(ctx, rest), 0int, 0int,
{
    let casePath = DataPathView::Wildcard(Box::new(head));
    let pending2 = seq![casePath] + rest;
    let current2 = current.push(casePath);
    if pending_fuel(ctx, pending2) < node_fuel(ctx, head) + pending_fuel(ctx, rest) {
        build_node_spec(ctx, matches, pending2, current2)
    } else {
        NodeView::End(current2)
    }
}

/// The views of a string vector, in order.
pub open spec fn strings_view(s: Seq<String>) -> Seq<Seq<char>> {
    Seq::new(s.len(), |i: int| s[i]@)
}

/// The shape one decision step assigns to its parent position, if any:
/// tuple annotations, variant tests, literal tests and class tests classify
/// their parent; projections and wildcards classify nothing.
pub open spec fn step_shape(d: DataPathView) -> Option<(DataPathView, DataTypeView)> {
    match d {
        DataPathView::Tuple(parent, n) => Some((*parent, DataTypeView::Tuple(n))),
        DataPathView::Variant(parent, _, e) => Some((*parent, DataTypeView::Enum(e))),
        DataPathView::IntegerLiteral(parent, _) => Some((*parent, DataTypeView::Integer)),
        DataPathView::StringLiteral(parent, _) => Some((*parent, DataTypeView::String)),
        DataPathView::Class(parent, c) => Some((*parent, DataTypeView::Class(c))),
        DataPathView::Root => None,
        DataPathView::TupleIndex(_, _) => None,
        DataPathView::Wildcard(_) => None,
    }
}

/// Record one inferred shape: a new position is added, a repeated equal
/// shape is kept, and a conflicting shape is an internal-consistency error.
pub open spec fn shapes_insert(
    shapes: Seq<(DataPathView, DataTypeView)>,
    p: DataPathView,
    t: DataTypeView,
) -> Result<Seq<(DataPathView, DataTypeView)>, MatchErrorView> {
    match assoc(shapes, p) {
        None => Ok(shapes.push((p, t))),
        Some(t0) => if t0 == t {
            Ok(shapes)
        } else {
            Err(MatchErrorView::ShapeConflict(p))
        },
    }
}

pub open spec fn infer_steps(
    shapes: Seq<(DataPathView, DataTypeView)>,
    d: Seq<DataPathView>,
) -> Result<Seq<(DataPathView, DataTypeView)>, MatchErrorView>
    decreases d.len(),
{
    if d.len() == 0 {
        Ok(shapes)
    } else {
        match step_shape(d[0]) {
            None => infer_steps(shapes, d.drop_first()),
            Some((p, t)) => match shapes_insert(shapes, p, t) {
                Ok(s2) => infer_steps(s2, d.drop_first()),
                Err(e) => Err(e),
            },
        }
    }
}

pub open spec fn infer_all(
    shapes: Seq<(DataPathView, DataTypeView)>,
    ms: Seq<MatchView>,
) -> Result<Seq<(DataPathView, DataTypeView)>, MatchErrorView>
    decreases ms.len(),
{
    if ms.len() == 0 {
        Ok(shapes)
    } else {
        match infer_steps(shapes, ms[0].decisionPath) {
            Ok(s2) => infer_all(s2, ms.drop_first()),
            Err(e) => Err(e),
        }
    }
}

/// Shape inference over the whole match set: classify every position by the
/// decision kinds that constrain it, failing on any conflict.
pub open spec fn infer_shapes_spec(ms: Seq<MatchView>) -> Result<
    Seq<(DataPathView, DataTypeView)>,
    MatchErrorView,
> {
    infer_all(Seq::empty(), ms)
}

/// Lookup of an inferred shape, front to back.
pub fn lookupShape<'a>(dataTypes: &'a Vec<(DataPath, DataType)>, p: &DataPath) -> (r: Option<
    &'a DataType,
>)
    ensures
        match r {
            Some(t) => assoc(shape_pairs_view(dataTypes@), p@) == Some(t@),
            None => assoc(shape_pairs_view(dataTypes@), p@) is None,
        },
{
    let ghost sv = shape_pairs_view(dataTypes@);
    let n = dataTypes.len();
    proof {
        assert(sv.skip(0) =~= sv);
    }
    for i in 0..n
        invariant
            n == dataTypes@.len(),
            sv == shape_pairs_view(dataTypes@),
            assoc(sv, p@) == assoc(sv.skip(i as int), p@),
    {
        proof {
            assert(sv.skip(i as int).drop_first() =~= sv.skip(i + 1));
            assert(sv.skip(i as int)[0] == (dataTypes@[i as int].0@, dataTypes@[i as int].1@));
        }
        if dataTypes[i].0 == *p {
            return Some(&dataTypes[i].1);
        }
    }
    proof {
        assert(sv.skip(n as int) =~= Seq::<(DataPathView, DataTypeView)>::empty());
    }
    None
}

/// The shape one decision step assigns, as executable data.
fn stepShape(d: &DataPath) -> (r: Option<(DataPath, DataType)>)
    ensures
        match r {
            Some(pr) => step_shape(d@) == Some((pr.0@, pr.1@)),
            None => step_shape(d@) is None,
        },
{
    match d {
        DataPath::Tuple(parent, n) => Some(((**parent).clone(), DataType::Tuple(*n))),
        DataPath::Variant(parent, _, e) => Some(((**parent).clone(), DataType::Enum(e.clone()))),
        DataPath::IntegerLiteral(parent, _) => Some(((**parent).clone(), DataType::Integer)),
        DataPath::StringLiteral(parent, _) => Some(((**parent).clone(), DataType::String)),
        DataPath::Class(parent, c) => Some(((**parent).clone(), DataType::Class(c.clone()))),
        DataPath::Root => None,
        DataPath::TupleIndex(_, _) => None,
        DataPath::Wildcard(_) => None,
    }
}

/// Infer the shape of every constrained position across the match set.
/// Returns the shape table, or the position at which two different shapes
/// were inferred (an internal-consistency failure of an earlier pass).
#[verifier::loop_isolation(false)]
pub fn inferShapes(allMatches: &Vec<Match>) -> (r: Result<Vec<(DataPath, DataType)>, MatchError>)
    ensures
        match r {
            Ok(v) => infer_shapes_spec(matches_view(allMatches@)) == Ok::<
                Seq<(DataPathView, DataTypeView)>,
                MatchErrorView,
            >(shape_pairs_view(v@)),
            Err(e) => infer_shapes_spec(matches_view(allMatches@)) == Err::<
                Seq<(DataPathView, DataTypeView)>,
                MatchErrorView,
            >(e@),
        },
{
    let ghost msv = matches_view(allMatches@);
    let ghost target = infer_shapes_spec(msv);
    let mut shapes: Vec<(DataPath, DataType)> = Vec::new();
    let nm = allMatches.len();
    proof {
        assert(msv.skip(0) =~= msv);
        assert(shape_pairs_view(shapes@) =~= Seq::<(DataPathView, DataTypeView)>::empty());
    }
    for i in 0..nm
        invariant
            nm == allMatches@.len(),
            infer_all(shape_pairs_view(shapes@), msv.skip(i as int)) == target,
    {
        proof {
            assert(msv.skip(i as int)[0] == allMatches@[i as int]@);
            assert(msv.skip(i as int).drop_first() =~= msv.skip(i + 1));
        }
        let d = &allMatches[i].decisionPath.decisions;
        let ghost dv = allMatches@[i as int]@.decisionPath;
        let nd = d.len();
        proof {
            assert(dv.skip(0) =~= dv);
        }
        for k in 0..nd
            invariant
                nd == d@.len(),
                dv == allMatches@[i as int]@.decisionPath,
                i < allMatches@.len(),
                (match infer_steps(shape_pairs_view(shapes@), dv.skip(k as int)) {
                    Ok(s2) => infer_all(s2, msv.skip(i + 1)),
                    Err(e) => Err::<Seq<(DataPathView, DataTypeView)>, MatchErrorView>(e),
                }) == target,
        {
            proof {
                assert(dv.skip(k as int)[0] == d@[k as int]@);
                assert(dv.skip(k as int).drop_first() =~= dv.skip(k + 1));
            }
            match stepShape(&d[k]) {
                None => (),
                Some((parent, ty)) => {
                    let ghost s0 = shape_pairs_view(shapes@);
                    match lookupShape(&shapes, &parent) {
                        None => {
                            shapes.push((parent, ty));
                            proof {
                                assert(shape_pairs_view(shapes@) =~= s0.push((parent@, ty@)));
                            }
                        },
                        Some(t0) => {
                            if !(*t0 == ty) {
                                return Err(MatchError::ShapeConflict(parent));
                            }
                        },
                    }
                },
            }
        }
        proof {
            assert(dv.skip(nd as int) =~= Seq::<DataPathView>::empty());
        }
    }
    proof {
        assert(msv.skip(nm as int) =~= Seq::<MatchView>::empty());
    }
    Ok(shapes)
}

/// A copy of a path vector.
fn clonePaths(v: &Vec<DataPath>) -> (r: Vec<DataPath>)
    ensures
        r@ == v@,
{
    let r = v.clone();
    proof {
        assert forall|i: int| 0 <= i < v@.len() implies r@[i] == v@[i] by {
            assert(cloned::<DataPath>(v@[i], r@[i]));
        }
        assert(r@ =~= v@);
    }
    r
}

/// Whether `v` already occurs in `values`.
fn containsString(values: &Vec<String>, v: &String) -> (r: bool)
    ensures
        r == strings_view(values@).contains(v@),
{
    let n = values.len();
    for i in 0..n
        invariant
            n == values@.len(),
            forall|j: int| 0 <= j < i ==> strings_view(values@)[j] != v@,
    {
        if values[i] == *v {
            proof {
                assert(strings_view(values@)[i as int] == v@);
            }
            return true;
        }
    }
    proof {
        if strings_view(values@).contains(v@) {
            let j = choose|j: int|
                0 <= j < strings_view(values@).len() && strings_view(values@)[j] == v@;
            assert(false);
        }
    }
    false
}

/// The distinct literal values of the wanted kind that appear as the next
/// decision after `current` among the matches, in first-occurrence order.
#[verifier::loop_isolation(false)]
fn collectValues(allMatches: &Vec<Match>, current: &DecisionPath, isInt: bool) -> (r: Vec<String>)
    ensures
        strings_view(r@) == collect_acc(
            matches_view(allMatches@),
            current@,
            isInt,
            Seq::empty(),
        ),
{
    let ghost msv = matches_view(allMatches@);
    let ghost target = collect_acc(msv, current@, isInt, Seq::empty());
    let mut values: Vec<String> = Vec::new();
    let nm = allMatches.len();
    proof {
        assert(msv.skip(0) =~= msv);
        assert(strings_view(values@) =~= Seq::<Seq<char>>::empty());
    }
    for i in 0..nm
        invariant
            nm == allMatches@.len(),
            collect_acc(msv.skip(i as int), current@, isInt, strings_view(values@)) == target,
    {
        proof {
            assert(msv.skip(i as int)[0] == allMatches@[i as int]@);
            assert(msv.skip(i as int).drop_first() =~= msv.skip(i + 1));
        }
        let m = &allMatches[i];
        if m.decisionPath.startsWith(current) && m.decisionPath.len() > current.len() {
            let k = current.len();
            let ghost v0 = strings_view(values@);
            if isInt {
                match &m.decisionPath.decisions[k] {
                    DataPath::IntegerLiteral(_, value) => {
                        if !containsString(&values, value) {
                            values.push(value.clone());
                            proof {
                                assert(strings_view(values@) =~= v0.push(value@));
                            }
                        }
                    },
                    _ => (),
                }
            } else {
                match &m.decisionPath.decisions[k] {
                    DataPath::StringLiteral(_, value) => {
                        if !containsString(&values, value) {
                            values.push(value.clone());
                            proof {
                                assert(strings_view(values@) =~= v0.push(value@));
                            }
                        }
                    },
                    _ => (),
                }
            }
        }
    }
    proof {
        assert(msv.skip(nm as int) =~= Seq::<MatchView>::empty());
    }
    values
}

/// The shape table is fit for tree building: no position has a nominal
/// class shape, and every enum shape names a declared enum.
pub open spec fn shapes_wf(ctx: BuildCtx) -> bool {
    forall|p: DataPathView|
        (#[trigger] assoc(ctx.shapes, p)) matches Some(t) ==> !(t is Class) && (t matches
        DataTypeView::Enum(e) ==> assoc(ctx.enums, e) is Some)
}

pub proof fn lemma_pf_single(ctx: BuildCtx, x: DataPathView)
    ensures
        pending_fuel(ctx, seq![x]) == node_fuel(ctx, x),
{
    assert(seq![x].drop_first() =~= Seq::<DataPathView>::empty());
    assert(pending_fuel(ctx, Seq::<DataPathView>::empty()) == 0);
}

impl MatchCompiler {
    /// Build the decision tree for the pending positions: a `Switch` with
    /// one case per variant where the head position has an enum shape, an
    /// unconditional `Tuple` decomposition where it has a tuple shape, a
    /// `Switch` over the occurring literals plus a mandatory `Default` case
    /// where it has a literal shape, and a terminal carrying the
    /// accumulated decision path once nothing decided remains.
    #[verifier::loop_isolation(false)]
    #[verifier::rlimit(100)]
    pub fn buildNode(
        &self,
        pendingPaths: Vec<DataPath>,
        currentDecision: &DecisionPath,
        dataTypes: &Vec<(DataPath, DataType)>,
        allMatches: &Vec<Match>,
    ) -> (r: Node)
        requires
            shapes_wf(
                build_ctx(self@, shape_pairs_view(dataTypes@), matches_view(allMatches@)),
            ),
        ensures
            r@ == build_node_spec(
                build_ctx(self@, shape_pairs_view(dataTypes@), matches_view(allMatches@)),
                matches_view(allMatches@),
                paths_view(pendingPaths@),
                currentDecision@,
            ),
        decreases pending_fuel(
            build_ctx(self@, shape_pairs_view(dataTypes@), matches_view(allMatches@)),
            paths_view(pendingPaths@),
        ), 1int,
    {
        let ghost ctx = build_ctx(self@, shape_pairs_view(dataTypes@), matches_view(allMatches@));
        let ghost msv = matches_view(allMatches@);
        let ghost pviews = paths_view(pendingPaths@);
        if pendingPaths.is_empty() {
            proof {
                assert(pviews.len() == 0);
            }
            return Node::End(End { decisionPath: currentDecision.clone() });
        }
        let mut pendingPaths = pendingPaths;
        let currentPath = pendingPaths.remove(0);
        let ghost head = currentPath@;
        let ghost rest = paths_view(pendingPaths@);
        proof {
            assert(rest =~= pviews.drop_first());
            assert(pviews[0] == head);
            assert(pending_fuel(ctx, pviews) == node_fuel(ctx, head) + pending_fuel(ctx, rest));
        }
        match lookupShape(dataTypes, &currentPath) {
            None => {
                proof {
                    lemma_node_fuel_pos(ctx, head);
                }
                self.buildNode(pendingPaths, currentDecision, dataTypes, allMatches)
            },
            Some(ty) => {
                proof {
                    lemma_assoc_shapes_depth(ctx.shapes, head);
                }
                match ty {
                    DataType::Class(_) => {
                        proof {
                            assert(false);
                        }
                        vstd::pervasive::unreached()
                    },
                    DataType::Enum(enumName) => {
                        let name = enumName.clone();
                        self.buildEnumSwitch(
                            currentPath,
                            pendingPaths,
                            currentDecision,
                            dataTypes,
                            allMatches,
                            name,
                        )
                    },
                    DataType::Tuple(size) => {
                        let size = *size;
                        let currentDecision2 = currentDecision.add(
                            DataPath::Tuple(Box::new(currentPath.clone()), size),
                        );
                        let mut pendings: Vec<DataPath> = Vec::new();
                        for index in 0..size
                            invariant
                                pendings@.len() == index,
                                paths_view(pendings@) =~= tuple_children(head, size).take(
                                    index as int,
                                ),
                        {
                            pendings.push(
                                DataPath::TupleIndex(Box::new(currentPath.clone()), index),
                            );
                            proof {
                                assert(paths_view(pendings@) =~= tuple_children(head, size).take(
                                    index + 1,
                                ));
                            }
                        }
                        let mut restPaths = pendingPaths;
                        pendings.append(&mut restPaths);
                        proof {
                            assert(tuple_children(head, size).take(size as int) =~= tuple_children(
                                head,
                                size,
                            ));
                            assert(paths_view(pendings@) =~= tuple_children(head, size) + rest);
                            lemma_tuple_children_fuel(ctx, head, size);
                            lemma_pf_split(ctx, tuple_children(head, size), rest);
                        }
                        let node = self.buildNode(
                            pendings,
                            &currentDecision2,
                            dataTypes,
                            allMatches,
                        );
                        Node::Tuple(Tuple { next: Box::new(node) })
                    },
                    DataType::Integer => {
                        self.buildLitSwitch(
                            currentPath,
                            pendingPaths,
                            currentDecision,
                            dataTypes,
                            allMatches,
                            true,
                        )
                    },
                    DataType::String => {
                        self.buildLitSwitch(
                            currentPath,
                            pendingPaths,
                            currentDecision,
                            dataTypes,
                            allMatches,
                            false,
                        )
                    },
                }
            },
        }
    }

    /// The `Switch` node for a position with an enum shape: one case per
    /// variant, in declaration order.
    #[verifier::loop_isolation(false)]
    #[verifier::rlimit(100)]
    fn buildEnumSwitch(
        &self,
        currentPath: DataPath,
        pendingRest: Vec<DataPath>,
        currentDecision: &DecisionPath,
        dataTypes: &Vec<(DataPath, DataType)>,
        allMatches: &Vec<Match>,
        enumName: QualifiedName,
    ) -> (r: Node)
        requires
            shapes_wf(
                build_ctx(self@, shape_pairs_view(dataTypes@), matches_view(allMatches@)),
            ),
            assoc(shape_pairs_view(dataTypes@), currentPath@) == Some(
                DataTypeView::Enum(enumName@),
            ),
        ensures
            r@ == NodeView::Switch(
                build_enum_cases(
                    build_ctx(self@, shape_pairs_view(dataTypes@), matches_view(allMatches@)),
                    matches_view(allMatches@),
                    currentPath@,
                    paths_view(pendingRest@),
                    currentDecision@,
                    enumName@,
                    (assoc(
                        build_ctx(
                            self@,
                            shape_pairs_view(dataTypes@),
                            matches_view(allMatches@),
                        ).enums,
                        enumName@,
                    )->Some_0).variants,
                    0,
                ),
            ),
        decreases (node_fuel(
            build_ctx(self@, shape_pairs_view(dataTypes@), matches_view(allMatches@)),
            currentPath@,
        ) + pending_fuel(
            build_ctx(self@, shape_pairs_view(dataTypes@), matches_view(allMatches@)),
            paths_view(pendingRest@),
        )), 0int,
    {
        broadcast use cases_view_rec_is_map;

        let ghost ctx = build_ctx(self@, shape_pairs_view(dataTypes@), matches_view(allMatches@));
        let ghost msv = matches_view(allMatches@);
        let ghost head = currentPath@;
        let ghost rest = paths_view(pendingRest@);
        proof {
            lemma_assoc_shapes_depth(ctx.shapes, head);
        }
        let e = match self.symbols.lookupEnum(&enumName) {
            Some(e) => e,
            None => vstd::pervasive::unreached(),
        };
        let ghost ev = e@;
        let ghost target = build_enum_cases(
            ctx,
            msv,
            head,
            rest,
            currentDecision@,
            enumName@,
            ev.variants,
            0,
        );
        let mut cases: Vec<(Case, Node)> = Vec::new();
        let nv = e.variants.len();
        proof {
            assert(cases_view(cases@) + target =~= target);
        }
        for vi in 0..nv
            invariant
                nv == e.variants@.len(),
                cases_view(cases@) + build_enum_cases(
                    ctx,
                    msv,
                    head,
                    rest,
                    currentDecision@,
                    enumName@,
                    ev.variants,
                    vi as int,
                ) == target,
        {
            let casePath = DataPath::Variant(
                Box::new(currentPath.clone()),
                e.variants[vi].name.clone(),
                enumName.clone(),
            );
            let ghost cpv = casePath@;
            let currentDecision2 = currentDecision.add(casePath.clone());
            let mut pendings = clonePaths(&pendingRest);
            pendings.insert(0, casePath);
            proof {
                assert(ev.variants[vi as int].name == e.variants@[vi as int].name@);
                assert(cpv == DataPathView::Variant(
                    Box::new(head),
                    ev.variants[vi as int].name,
                    enumName@,
                ));
                assert(paths_view(pendings@) =~= seq![cpv] + rest);
                lemma_variant_child_fuel(ctx, head, enumName@, ev, vi as int);
                lemma_pf_split(ctx, seq![cpv], rest);
                lemma_pf_single(ctx, cpv);
            }
            let node = self.buildNode(pendings, &currentDecision2, dataTypes, allMatches);
            let ghost c0 = cases_view(cases@);
            let ghost nodev = node@;
            cases.push((Case::Variant(e.variants[vi].name.clone()), node));
            proof {
                assert(cases_view(cases@) =~= c0.push(
                    (CaseView::Variant(ev.variants[vi as int].name), nodev),
                ));
                assert(cases_view(cases@) + build_enum_cases(
                    ctx,
                    msv,
                    head,
                    rest,
                    currentDecision@,
                    enumName@,
                    ev.variants,
                    vi as int + 1,
                ) =~= c0 + (seq![(CaseView::Variant(ev.variants[vi as int].name), nodev)]
                    + build_enum_cases(
                    ctx,
                    msv,
                    head,
                    rest,
                    currentDecision@,
                    enumName@,
                    ev.variants,
                    vi as int + 1,
                )));
            }
        }
        proof {
            assert(cases_view(cases@) + Seq::<(CaseView, NodeView)>::empty() =~= cases_view(
                cases@,
            ));
            assert(cases_view_rec(cases@) == cases_view(cases@));
            assert(cases_view(cases@) == target);
        }
        Node::Switch(Switch { cases })
    }

    /// The `Switch` node for a position with a literal shape: one case per
    /// literal value occurring as the next decision, in first-occurrence
    /// order, then the mandatory `Default` case.
    #[verifier::loop_isolation(false)]
    #[verifier::rlimit(100)]
    fn buildLitSwitch(
        &self,
        currentPath: DataPath,
        pendingRest: Vec<DataPath>,
        currentDecision: &DecisionPath,
        dataTypes: &Vec<(DataPath, DataType)>,
        allMatches: &Vec<Match>,
        isInt: bool,
    ) -> (r: Node)
        requires
            shapes_wf(
                build_ctx(self@, shape_pairs_view(dataTypes@), matches_view(allMatches@)),
            ),
            isInt ==> assoc(shape_pairs_view(dataTypes@), currentPath@) == Some(
                DataTypeView::Integer,
            ),
            !isInt ==> assoc(shape_pairs_view(dataTypes@), currentPath@) == Some(
                DataTypeView::String,
            ),
        ensures
            r@ == NodeView::Switch(
                build_lit_cases(
                    build_ctx(self@, shape_pairs_view(dataTypes@), matches_view(allMatches@)),
                    matches_view(allMatches@),
                    currentPath@,
                    paths_view(pendingRest@),
                    currentDecision@,
                    collect_acc(
                        matches_view(allMatches@),
                        currentDecision@,
                        isInt,
                        Seq::empty(),
                    ),
                    0,
                    isInt,
                ) + seq![
                    (
                        CaseView::Default,
                        build_default_node(
                            build_ctx(
                                self@,
                                shape_pairs_view(dataTypes@),
                                matches_view(allMatches@),
                            ),
                            matches_view(allMatches@),
                            currentPath@,
                            paths_view(pendingRest@),
                            currentDecision@,
                        ),
                    ),
                ],
            ),
        decreases (node_fuel(
            build_ctx(self@, shape_pairs_view(dataTypes@), matches_view(allMatches@)),
            currentPath@,
        ) + pending_fuel(
            build_ctx(self@, shape_pairs_view(dataTypes@), matches_view(allMatches@)),
            paths_view(pendingRest@),
        )), 0int,
    {
        broadcast use cases_view_rec_is_map;

        let ghost ctx = build_ctx(self@, shape_pairs_view(dataTypes@), matches_view(allMatches@));
        let ghost msv = matches_view(allMatches@);
        let ghost head = currentPath@;
        let ghost rest = paths_view(pendingRest@);
        let ghost ty = if isInt {
            DataTypeView::Integer
        } else {
            DataTypeView::String
        };
        proof {
            lemma_assoc_shapes_depth(ctx.shapes, head);
        }
        let values = collectValues(allMatches, currentDecision, isInt);
        let ghost valuesv = strings_view(values@);
        let ghost target = build_lit_cases(
            ctx,
            msv,
            head,
            rest,
            currentDecision@,
            valuesv,
            0,
            isInt,
        );
        let mut cases: Vec<(Case, Node)> = Vec::new();
        let nv = values.len();
        proof {
            assert(cases_view(cases@) + target =~= target);
            lemma_collect_contained(msv, currentDecision@, isInt, Seq::empty());
        }
        for vi in 0..nv
            invariant
                nv == values@.len(),
                cases_view(cases@) + build_lit_cases(
                    ctx,
                    msv,
                    head,
                    rest,
                    currentDecision@,
                    valuesv,
                    vi as int,
                    isInt,
                ) == target,
        {
            let value = values[vi].clone();
            let casePath = if isInt {
                DataPath::IntegerLiteral(Box::new(currentPath.clone()), value)
            } else {
                DataPath::StringLiteral(Box::new(currentPath.clone()), value)
            };
            let ghost cpv = casePath@;
            let currentDecision2 = currentDecision.add(casePath.clone());
            let mut pendings = clonePaths(&pendingRest);
            pendings.insert(0, casePath);
            proof {
                assert(valuesv[vi as int] == values@[vi as int]@);
                if isInt {
                    assert(ctx.int_lits.contains(valuesv[vi as int]));
                    assert(cpv == DataPathView::IntegerLiteral(
                        Box::new(head),
                        valuesv[vi as int],
                    ));
                } else {
                    assert(ctx.str_lits.contains(valuesv[vi as int]));
                    assert(cpv == DataPathView::StringLiteral(Box::new(head), valuesv[vi as int]));
                }
                assert(paths_view(pendings@) =~= seq![cpv] + rest);
                lemma_lit_child_fuel(ctx, head, ty, valuesv[vi as int], isInt);
                lemma_pf_split(ctx, seq![cpv], rest);
                lemma_pf_single(ctx, cpv);
            }
            let node = self.buildNode(pendings, &currentDecision2, dataTypes, allMatches);
            let ghost c0 = cases_view(cases@);
            let ghost nodev = node@;
            let case = if isInt {
                Case::Integer(values[vi].clone())
            } else {
                Case::String(values[vi].clone())
            };
            let ghost casev = case@;
            cases.push((case, node));
            proof {
                assert(cases_view(cases@) =~= c0.push((casev, nodev)));
                assert(cases_view(cases@) + build_lit_cases(
                    ctx,
                    msv,
                    head,
                    rest,
                    currentDecision@,
                    valuesv,
                    vi as int + 1,
                    isInt,
                ) =~= c0 + (seq![(casev, nodev)] + build_lit_cases(
                    ctx,
                    msv,
                    head,
                    rest,
                    currentDecision@,
                    valuesv,
                    vi as int + 1,
                    isInt,
                )));
            }
        }
        proof {
            assert(cases_view(cases@) + Seq::<(CaseView, NodeView)>::empty() =~= cases_view(
                cases@,
            ));
        }
        let casePath = DataPath::Wildcard(Box::new(currentPath.clone()));
        let ghost cpv = casePath@;
        let currentDecision2 = currentDecision.add(casePath.clone());
        let mut pendings = clonePaths(&pendingRest);
        pendings.insert(0, casePath);
        proof {
            assert(paths_view(pendings@) =~= seq![cpv] + rest);
            lemma_wildcard_child_fuel(ctx, head, ty);
            lemma_pf_split(ctx, seq![cpv], rest);
            lemma_pf_single(ctx, cpv);
        }
        let node = self.buildNode(pendings, &currentDecision2, dataTypes, allMatches);
        let ghost c0 = cases_view(cases@);
        let ghost nodev = node@;
        cases.push((Case::Default, node));
        proof {
            assert(nodev == build_default_node(ctx, msv, head, rest, currentDecision@));
            assert(cases_view(cases@) =~= c0.push((CaseView::Default, nodev)));
            assert(cases_view(cases@) =~= target + seq![(CaseView::Default, nodev)]);
            assert(cases_view_rec(cases@) == cases_view(cases@));
        }
        Node::Switch(Switch { cases })
    }
}

/// Strip matching leading steps off a terminal's decision path: a step
/// equal to `path` is consumed, and any step structurally below the parent
/// of a wildcard `path` is consumed; the first step that matches neither
/// stops the walk.
pub open spec fn remove_paths_spec(path: DataPathView, node: Seq<DataPathView>) -> Seq<
    DataPathView,
>
    decreases node.len(),
{
    if node.len() == 0 {
        node
    } else {
        let remove = match path {
            DataPathView::Wildcard(parent) => node[0].is_child_of(*parent),
            _ => path == node[0],
        };
        if remove {
            remove_paths_spec(path, node.drop_first())
        } else {
            node
        }
    }
}

/// Whether a match's decision path covers a terminal's decision path:
/// consuming the match's steps one by one empties the terminal's path
/// exactly when the match's path runs out.
pub open spec fn match_decisions_spec(node: Seq<DataPathView>, m: Seq<DataPathView>) -> bool
    decreases m.len(),
{
    if m.len() == 0 {
        node.len() == 0
    } else {
        match_decisions_spec(remove_paths_spec(m[0], node), m.drop_first())
    }
}

/// Whether match `m` covers the terminal at `end`.
pub open spec fn covers(m: MatchView, end: Seq<DataPathView>) -> bool {
    match_decisions_spec(end, m.decisionPath)
}

fn shouldRemove(path: &DataPath, nodePath: &DataPath) -> (r: bool)
    ensures
        r == (match path@ {
            DataPathView::Wildcard(parent) => nodePath@.is_child_of(*parent),
            _ => path@ == nodePath@,
        }),
{
    match path {
        DataPath::Wildcard(parent) => nodePath.isChild(parent),
        _ => *path == *nodePath,
    }
}

/// Strip the leading steps of `nodeDecisionPath` that `path` accounts for.
pub fn removePaths(path: &DataPath, nodeDecisionPath: DecisionPath) -> (r: DecisionPath)
    ensures
        r@ == remove_paths_spec(path@, nodeDecisionPath@),
{
    let mut node = nodeDecisionPath;
    while node.decisions.len() > 0 && shouldRemove(path, &node.decisions[0])
        invariant
            remove_paths_spec(path@, node@) == remove_paths_spec(path@, nodeDecisionPath@),
        decreases node@.len(),
    {
        let ghost prev = node@;
        node.decisions.remove(0);
        proof {
            assert(node@ =~= prev.drop_first());
        }
    }
    node
}

/// Whether the match's decision path covers the terminal's decision path.
pub fn matchDecisions(nodeDecisionPath: DecisionPath, matchDecisionPath: DecisionPath) -> (r: bool)
    ensures
        r == match_decisions_spec(nodeDecisionPath@, matchDecisionPath@),
{
    let mut node = nodeDecisionPath;
    let mut m = matchDecisionPath;
    while m.decisions.len() > 0
        invariant
            match_decisions_spec(node@, m@) == match_decisions_spec(
                nodeDecisionPath@,
                matchDecisionPath@,
            ),
        decreases m@.len(),
    {
        let ghost prevm = m@;
        let path = m.decisions.remove(0);
        proof {
            assert(m@ =~= prevm.drop_first());
            assert(path@ == prevm[0]);
        }
        node = removePaths(&path, node);
    }
    node.decisions.len() == 0
}

/// Whether the candidate `newKind` outranks the held `localKind`: a user
/// branch outranks an alternative, and a lower source-order rank outranks a
/// higher one.
pub open spec fn replaces(localKind: MatchKind, newKind: MatchKind) -> bool {
    match (localKind, newKind) {
        (MatchKind::Alternative, MatchKind::UserDefined(_)) => true,
        (MatchKind::UserDefined(i1), MatchKind::UserDefined(i2)) => i2 < i1,
        _ => false,
    }
}

/// Walk the candidates in order, keeping the best coverer seen so far.
pub open spec fn select_from(
    ms: Seq<MatchView>,
    end: Seq<DataPathView>,
    acc: Option<MatchView>,
) -> Option<MatchView>
    decreases ms.len(),
{
    if ms.len() == 0 {
        acc
    } else {
        let acc2 = if covers(ms[0], end) {
            match acc {
                None => Some(ms[0]),
                Some(l) => if replaces(l.kind, ms[0].kind) {
                    Some(ms[0])
                } else {
                    acc
                },
            }
        } else {
            acc
        };
        select_from(ms.drop_first(), end, acc2)
    }
}

/// The match that wins at the terminal `end`: among the covering
/// candidates, a user branch always outranks an alternative, the lowest
/// source-order rank wins among user branches, and the first-seen candidate
/// wins any remaining tie. `None` exactly when no candidate covers `end`.
pub open spec fn select_winner(ms: Seq<MatchView>, end: Seq<DataPathView>) -> Option<MatchView> {
    select_from(ms, end, None)
}

pub open spec fn option_match_view(o: Option<Match>) -> Option<MatchView> {
    match o {
        Some(m) => Some(m@),
        None => None,
    }
}

/// Resolve the winner at terminal `end` among `matches`.
pub fn resolveWinner(end: &DecisionPath, matches: &Vec<Match>) -> (r: Option<Match>)
    ensures
        option_match_view(r) == select_winner(matches_view(matches@), end@),
{
    let ghost msv = matches_view(matches@);
    let mut localMatch: Option<Match> = None;
    let n = matches.len();
    proof {
        assert(msv.skip(0) =~= msv);
    }
    for i in 0..n
        invariant
            n == matches@.len(),
            msv == matches_view(matches@),
            select_from(msv.skip(i as int), end@, option_match_view(localMatch)) == select_winner(
                msv,
                end@,
            ),
    {
        proof {
            assert(msv.skip(i as int)[0] == matches@[i as int]@);
            assert(msv.skip(i as int).drop_first() =~= msv.skip(i + 1));
        }
        let m = &matches[i];
        if matchDecisions(end.clone(), m.decisionPath.clone()) {
            match &localMatch {
                Some(local) => {
                    match (&local.kind, &m.kind) {
                        (MatchKind::Alternative, MatchKind::UserDefined(_)) => {
                            localMatch = Some(m.clone());
                        },
                        (MatchKind::UserDefined(i1), MatchKind::UserDefined(i2)) => {
                            if *i2 < *i1 {
                                localMatch = Some(m.clone());
                            }
                        },
                        _ => (),
                    }
                },
                None => {
                    localMatch = Some(m.clone());
                },
            }
        }
    }
    proof {
        assert(msv.skip(n as int) =~= Seq::<MatchView>::empty());
    }
    localMatch
}

/// The decision paths of every terminal of a tree, in left-to-right order.
pub open spec fn terminals_spec(n: NodeView) -> Seq<Seq<DataPathView>>
    decreases n,
{
    match n {
        NodeView::Tuple(next) => terminals_spec(*next),
        NodeView::Switch(cases) => terminals_list(cases),
        NodeView::End(d) => seq![d],
    }
}

pub open spec fn terminals_list(cases: Seq<(CaseView, NodeView)>) -> Seq<Seq<DataPathView>>
    decreases cases,
{
    if cases.len() == 0 {
        Seq::empty()
    } else {
        terminals_list(cases.drop_last()) + terminals_spec(cases.last().1)
    }
}

/// The views of a vector of decision paths, in order.
pub open spec fn decision_paths_view(s: Seq<DecisionPath>) -> Seq<Seq<DataPathView>> {
    Seq::new(s.len(), |i: int| s[i]@)
}

impl Node {
    /// Every terminal of this tree, reached by picking one case at every
    /// `Switch` and following every `Tuple` decomposition, in order.
    #[verifier::loop_isolation(false)]
    pub fn terminals(&self) -> (r: Vec<DecisionPath>)
        ensures
            decision_paths_view(r@) == terminals_spec(self@),
        decreases *self,
    {
        match self {
            Node::Tuple(t) => {
                let r = t.next.terminals();
                proof {
                    let ghost tv = (*t.next)@;
                    assert(decision_paths_view(r@) == terminals_spec(tv));
                    assert(node_view(*self) == NodeView::Tuple(Box::new(tv)));
                    assert(terminals_spec(NodeView::Tuple(Box::new(tv))) == terminals_spec(tv));
                    assert(self@ == node_view(*self));
                    assert(decision_paths_view(r@) == terminals_spec(self@));
                }
                r
            },
            Node::Switch(sw) => {
                broadcast use cases_view_rec_is_map;

                let ghost casesv = cases_view(sw.cases@);
                let mut out: Vec<DecisionPath> = Vec::new();
                let n = sw.cases.len();
                proof {
                    assert(terminals_list(casesv.take(0)) =~= Seq::<Seq<DataPathView>>::empty());
                    assert(decision_paths_view(out@) =~= Seq::<Seq<DataPathView>>::empty());
                }
                for i in 0..n
                    invariant
                        n == sw.cases@.len(),
                        decision_paths_view(out@) == terminals_list(casesv.take(i as int)),
                    decreases n - i,
                {
                    proof {
                        assert(decreases_to!(sw.cases => sw.cases@[i as int]));
                    }
                    let mut sub = sw.cases[i].1.terminals();
                    let ghost out0 = decision_paths_view(out@);
                    let ghost subv = decision_paths_view(sub@);
                    out.append(&mut sub);
                    proof {
                        assert(decision_paths_view(out@) =~= out0 + subv);
                        assert(casesv.take(i + 1).drop_last() =~= casesv.take(i as int));
                        assert(casesv.take(i + 1).last() == casesv[i as int]);
                        assert(casesv[i as int].1 == sw.cases@[i as int].1@);
                    }
                }
                proof {
                    assert(casesv.take(n as int) =~= casesv);
                    assert(self@ == NodeView::Switch(cases_view_rec(sw.cases@)));
                    assert(cases_view_rec(sw.cases@) == casesv);
                    assert(terminals_spec(self@) == terminals_list(casesv));
                }
                out
            },
            Node::End(e) => {
                let mut out: Vec<DecisionPath> = Vec::new();
                out.push(e.decisionPath.clone());
                proof {
                    assert(decision_paths_view(out@) =~= seq![e.decisionPath@]);
                    assert(self@ == NodeView::End(e.decisionPath@));
                    assert(terminals_spec(self@) == seq![e.decisionPath@]);
                }
                out
            },
        }
    }
}

/// One alternative `Match` per synthesized choice, in order.
pub open spec fn alts_of(tbl: SymbolTableView, choices: Seq<PatternView>, j: int) -> Seq<MatchView>
    decreases choices.len() - j,
{
    if j < 0 || j >= choices.len() {
        Seq::empty()
    } else {
        let (d, b) = generate_decisions_spec(
            tbl.variants,
            choices[j],
            DataPathView::Root,
            Seq::empty(),
            Seq::empty(),
        );
        seq![
            MatchView { kind: MatchKind::Alternative, pattern: choices[j], decisionPath: d, bindings: b },
        ] + alts_of(tbl, choices, j + 1)
    }
}

/// The working set built from the branches: for each branch in source
/// order, its canonicalized `Match` followed by one alternative `Match` per
/// synthesized choice. Fails on the first branch whose canonicalization or
/// arity check fails.
pub open spec fn build_matches_from(
    tbl: SymbolTableView,
    branches: Seq<PatternView>,
    i: int,
    acc: Seq<MatchView>,
) -> Result<Seq<MatchView>, MatchErrorView>
    decreases branches.len() - i,
{
    if i < 0 || i >= branches.len() {
        Ok(acc)
    } else {
        match resolve_spec(tbl.names, branches[i]) {
            Err(e) => Err(e),
            Ok(p) => match arity_ok_spec(tbl, p) {
                Err(e) => Err(e),
                Ok(_) => {
                    let (d, b) = generate_decisions_spec(
                        tbl.variants,
                        p,
                        DataPathView::Root,
                        Seq::empty(),
                        Seq::empty(),
                    );
                    let user = MatchView {
                        kind: MatchKind::UserDefined(i as i64),
                        pattern: p,
                        decisionPath: d,
                        bindings: b,
                    };
                    let alts = alts_of(tbl, generate_choices_spec(tbl, p), 0);
                    build_matches_from(tbl, branches, i + 1, acc + seq![user] + alts)
                },
            },
        }
    }
}

pub open spec fn build_matches_spec(tbl: SymbolTableView, branches: Seq<PatternView>) -> Result<
    Seq<MatchView>,
    MatchErrorView,
> {
    build_matches_from(tbl, branches, 0, Seq::empty())
}

/// Scan the inferred shapes for kinds the tree builder does not support: a
/// nominal-class shape, or an enum shape whose enum is not declared.
pub open spec fn shapes_check(
    enums: Seq<(QualifiedNameView, EnumView)>,
    shapes: Seq<(DataPathView, DataTypeView)>,
    i: int,
) -> Result<(), MatchErrorView>
    decreases shapes.len() - i,
{
    if i < 0 || i >= shapes.len() {
        Ok(())
    } else {
        match shapes[i].1 {
            DataTypeView::Class(_) => Err(MatchErrorView::ClassUnsupported(shapes[i].0)),
            DataTypeView::Enum(e) => if assoc(enums, e) is None {
                Err(MatchErrorView::UndeclaredEnum(e))
            } else {
                shapes_check(enums, shapes, i + 1)
            },
            _ => shapes_check(enums, shapes, i + 1),
        }
    }
}

/// The full compilation of one match expression: build the working set,
/// infer the shapes, check them, and build the decision tree from the root.
pub open spec fn compile_spec(tbl: SymbolTableView, branches: Seq<PatternView>) -> Result<
    (Seq<MatchView>, Seq<(DataPathView, DataTypeView)>, NodeView),
    MatchErrorView,
> {
    match build_matches_spec(tbl, branches) {
        Err(e) => Err(e),
        Ok(ms) => match infer_shapes_spec(ms) {
            Err(e) => Err(e),
            Ok(shapes) => match shapes_check(tbl.enums, shapes, 0) {
                Err(e) => Err(e),
                Ok(_) => Ok(
                    (
                        ms,
                        shapes,
                        build_node_spec(
                            build_ctx(tbl, shapes, ms),
                            ms,
                            seq![DataPathView::Root],
                            Seq::empty(),
                        ),
                    ),
                ),
            },
        },
    }
}

proof fn lemma_assoc_entry(
    shapes: Seq<(DataPathView, DataTypeView)>,
    p: DataPathView,
    t: DataTypeView,
)
    requires
        assoc(shapes, p) == Some(t),
    ensures
        exists|i: int| 0 <= i < shapes.len() && shapes[i] == (p, t),
    decreases shapes.len(),
{
    if shapes.len() > 0 {
        if shapes[0].0 == p {
            assert(shapes[0] == (p, t));
        } else {
            lemma_assoc_entry(shapes.drop_first(), p, t);
            let i = choose|i: int|
                0 <= i < shapes.drop_first().len() && shapes.drop_first()[i] == (p, t);
            assert(shapes[i + 1] == (p, t));
        }
    }
}

/// A shape table that passes `shapes_check` is fit for tree building.
pub proof fn lemma_shapes_check_wf(ctx: BuildCtx)
    requires
        shapes_check(ctx.enums, ctx.shapes, 0) is Ok,
    ensures
        shapes_wf(ctx),
{
    assert forall|i: int| 0 <= i < ctx.shapes.len() implies !((#[trigger] ctx.shapes[i]).1
        is Class) && (ctx.shapes[i].1 matches DataTypeView::Enum(e) ==> assoc(ctx.enums, e)
        is Some) by {
        lemma_shapes_check_entry(ctx.enums, ctx.shapes, 0, i);
    }
    assert forall|p: DataPathView| (#[trigger] assoc(ctx.shapes, p)) is Some implies !(assoc(
        ctx.shapes,
        p,
    )->Some_0 is Class) && (assoc(ctx.shapes, p)->Some_0 matches DataTypeView::Enum(e) ==> assoc(
        ctx.enums,
        e,
    ) is Some) by {
        lemma_assoc_entry(ctx.shapes, p, assoc(ctx.shapes, p)->Some_0);
    }
}

proof fn lemma_shapes_check_entry(
    enums: Seq<(QualifiedNameView, EnumView)>,
    shapes: Seq<(DataPathView, DataTypeView)>,
    k: int,
    i: int,
)
    requires
        shapes_check(enums, shapes, k) is Ok,
        0 <= k <= i < shapes.len(),
    ensures
        !(shapes[i].1 is Class),
        shapes[i].1 matches DataTypeView::Enum(e) ==> assoc(enums, e) is Some,
    decreases i - k,
{
    if k < i {
        lemma_shapes_check_entry(enums, shapes, k + 1, i);
    }
}

/// The compiled form of one match expression: the working set of matches,
/// the inferred shape table, and the decision tree.
pub struct CompiledMatch {
    pub matches: Vec<Match>,
    pub dataTypes: Vec<(DataPath, DataType)>,
    pub node: Node,
}

impl MatchCompiler {
    /// Compile the match expression: canonicalize every branch, extract its
    /// decisions and bindings, synthesize its alternatives, infer the shape
    /// of every position, and build the decision tree from the root.
    /// Returns the first error met: an unresolved constructor name, an
    /// arity mismatch, a shape conflict, or an unsupported shape.
    #[verifier::loop_isolation(false)]
    #[verifier::rlimit(100)]
    pub fn compile(&self) -> (r: Result<CompiledMatch, MatchError>)
        requires
            variants_closed(self@),
            self.branches@.len() <= i64::MAX,
        ensures
            match r {
                Ok(c) => compile_spec(self@, crate::pattern::patterns_view(self.branches@)) == Ok::<
                    _,
                    MatchErrorView,
                >((matches_view(c.matches@), shape_pairs_view(c.dataTypes@), c.node@)),
                Err(e) => compile_spec(self@, crate::pattern::patterns_view(self.branches@))
                    == Err::<(Seq<MatchView>, Seq<(DataPathView, DataTypeView)>, NodeView), _>(e@),
            },
    {
        let ghost tbl = self@;
        let ghost branchviews = crate::pattern::patterns_view(self.branches@);
        let ghost target = build_matches_spec(tbl, branchviews);
        let mut matches: Vec<Match> = Vec::new();
        let nb = self.branches.len();
        proof {
            assert(matches_view(matches@) =~= Seq::<MatchView>::empty());
        }
        for index in 0..nb
            invariant
                nb == self.branches@.len(),
                build_matches_from(tbl, branchviews, index as int, matches_view(matches@))
                    == target,
        {
            let branch = match self.resolve(&self.branches[index]) {
                Ok(b) => b,
                Err(e) => {
                    return Err(e);
                },
            };
            match self.checkArities(&branch) {
                Ok(_) => (),
                Err(e) => {
                    return Err(e);
                },
            }
            let root = DataPath::Root;
            let empty_decision = DecisionPath::new();
            let step = self.generateDecisions(&branch, &root, &empty_decision, Bindings::new());
            let decision = step.0;
            let bindings = step.1;
            let choices = self.generateChoices(&branch);
            let ghost choicesv = crate::pattern::patterns_view(choices@);
            let ghost m0 = matches_view(matches@);
            let ghost branchv = branch@;
            let ghost dv = decision@;
            let ghost bv = bindings@;
            matches.push(
                Match {
                    kind: MatchKind::UserDefined(index as i64),
                    pattern: branch,
                    decisionPath: decision,
                    bindings,
                },
            );
            let ghost userv = MatchView {
                kind: MatchKind::UserDefined(index as i64),
                pattern: branchv,
                decisionPath: dv,
                bindings: bv,
            };
            proof {
                assert(matches_view(matches@) =~= m0 + seq![userv]);
                assert(matches_view(matches@) + alts_of(tbl, choicesv, 0) =~= (m0 + seq![userv])
                    + alts_of(tbl, choicesv, 0));
            }
            let nc = choices.len();
            for ci in 0..nc
                invariant
                    nc == choices@.len(),
                    matches_view(matches@) + alts_of(tbl, choicesv, ci as int) == (m0 + seq![userv])
                        + alts_of(tbl, choicesv, 0),
            {
                proof {
                    assert(choicesv[ci as int] == choices@[ci as int]@);
                }
                let choice = choices[ci].clone();
                let ghost choicev = choice@;
                let step = self.generateDecisions(&choice, &root, &empty_decision, Bindings::new());
                let ghost m1 = matches_view(matches@);
                let ghost dv2 = step.0@;
                let ghost bv2 = step.1@;
                matches.push(
                    Match {
                        kind: MatchKind::Alternative,
                        pattern: choice,
                        decisionPath: step.0,
                        bindings: step.1,
                    },
                );
                proof {
                    let altv = MatchView {
                        kind: MatchKind::Alternative,
                        pattern: choicev,
                        decisionPath: dv2,
                        bindings: bv2,
                    };
                    assert(matches_view(matches@) =~= m1.push(altv));
                    assert(matches_view(matches@) + alts_of(tbl, choicesv, ci as int + 1) =~= m1 + (
                    seq![altv] + alts_of(tbl, choicesv, ci as int + 1)));
                }
            }
            proof {
                assert(alts_of(tbl, choicesv, nc as int) =~= Seq::<MatchView>::empty());
                assert(matches_view(matches@) + Seq::<MatchView>::empty() =~= matches_view(
                    matches@,
                ));
                assert(matches_view(matches@) =~= (m0 + seq![userv]) + alts_of(tbl, choicesv, 0));
                assert(branchviews[index as int] == self.branches@[index as int]@);
            }
        }
        let ghost msv = matches_view(matches@);
        proof {
            assert(build_matches_spec(tbl, branchviews) == Ok::<Seq<MatchView>, MatchErrorView>(
                msv,
            ));
        }
        let dataTypes = match inferShapes(&matches) {
            Ok(v) => v,
            Err(e) => {
                return Err(e);
            },
        };
        let ghost shapesv = shape_pairs_view(dataTypes@);
        match shapesCheck(&self.symbols, &dataTypes) {
            Ok(_) => (),
            Err(e) => {
                return Err(e);
            },
        }
        proof {
            lemma_shapes_check_wf(build_ctx(tbl, shapesv, msv));
        }
        let mut pendingPaths: Vec<DataPath> = Vec::new();
        pendingPaths.push(DataPath::Root);
        proof {
            assert(paths_view(pendingPaths@) =~= seq![DataPathView::Root]);
        }
        let empty_decision = DecisionPath::new();
        let node = self.buildNode(pendingPaths, &empty_decision, &dataTypes, &matches);
        Ok(CompiledMatch { matches, dataTypes, node })
    }
}

/// Scan the shape table for kinds the tree builder does not support.
#[verifier::loop_isolation(false)]
pub fn shapesCheck(symbols: &SymbolTable, dataTypes: &Vec<(DataPath, DataType)>) -> (r: Result<
    (),
    MatchError,
>)
    ensures
        match r {
            Ok(_) => shapes_check(symbols@.enums, shape_pairs_view(dataTypes@), 0) is Ok,
            Err(e) => shapes_check(symbols@.enums, shape_pairs_view(dataTypes@), 0) == Err::<
                (),
                MatchErrorView,
            >(e@),
        },
{
    let ghost sv = shape_pairs_view(dataTypes@);
    let n = dataTypes.len();
    for i in 0..n
        invariant
            n == dataTypes@.len(),
            shapes_check(symbols@.enums, sv, i as int) is Ok ==> shapes_check(symbols@.enums, sv, 0)
                is Ok,
            forall|e: MatchErrorView|
                shapes_check(symbols@.enums, sv, i as int) == Err::<(), MatchErrorView>(e)
                    ==> shapes_check(symbols@.enums, sv, 0) == Err::<(), MatchErrorView>(e),
    {
        proof {
            assert(sv[i as int] == (dataTypes@[i as int].0@, dataTypes@[i as int].1@));
        }
        match &dataTypes[i].1 {
            DataType::Class(_) => {
                return Err(MatchError::ClassUnsupported(dataTypes[i].0.clone()));
            },
            DataType::Enum(e) => {
                match symbols.lookupEnum(e) {
                    None => {
                        return Err(MatchError::UndeclaredEnum(e.clone()));
                    },
                    Some(_) => (),
                }
            },
            _ => (),
        }
    }
    Ok(())
}

impl CompiledMatch {
    /// Every terminal of the compiled tree, in left-to-right order.
    pub fn terminals(&self) -> (r: Vec<DecisionPath>)
        ensures
            decision_paths_view(r@) == terminals_spec(self.node@),
    {
        self.node.terminals()
    }

    /// The match that wins at the given terminal.
    pub fn resolveTerminal(&self, end: &DecisionPath) -> (r: Option<Match>)
        ensures
            option_match_view(r) == select_winner(matches_view(self.matches@), end@),
    {
        resolveWinner(end, &self.matches)
    }
}

/// The terminals whose winner is a synthesized alternative: value shapes no
/// user branch handles (the missing-pattern diagnostic).
pub open spec fn missing_from(
    ms: Seq<MatchView>,
    ts: Seq<Seq<DataPathView>>,
) -> Seq<Seq<DataPathView>>
    decreases ts.len(),
{
    if ts.len() == 0 {
        Seq::empty()
    } else {
        (if select_winner(ms, ts[0]) matches Some(w) && w.kind is Alternative {
            seq![ts[0]]
        } else {
            Seq::empty()
        }) + missing_from(ms, ts.drop_first())
    }
}

/// Whether the user branch ranked `i` wins at least one of the terminals.
pub open spec fn wins_some_terminal(
    ms: Seq<MatchView>,
    ts: Seq<Seq<DataPathView>>,
    i: i64,
) -> bool {
    exists|j: int|
        0 <= j < ts.len() && ((#[trigger] select_winner(ms, ts[j])) matches Some(w) && w.kind
            == MatchKind::UserDefined(i))
}

/// The ranks of the user branches that win no terminal: branches always
/// shadowed by an earlier branch (the redundant-pattern diagnostic).
pub open spec fn redundant_from(ms: Seq<MatchView>, ts: Seq<Seq<DataPathView>>, k: int) -> Seq<i64>
    decreases ms.len() - k,
{
    if k < 0 || k >= ms.len() {
        Seq::empty()
    } else {
        (match ms[k].kind {
            MatchKind::UserDefined(i) => if !wins_some_terminal(ms, ts, i) {
                seq![i]
            } else {
                Seq::empty()
            },
            MatchKind::Alternative => Seq::empty(),
        }) + redundant_from(ms, ts, k + 1)
    }
}

impl CompiledMatch {
    /// Whether the user branch ranked `rank` wins at some terminal of the
    /// tree.
    #[verifier::loop_isolation(false)]
    fn winsSomewhere(&self, terminals: &Vec<DecisionPath>, rank: i64) -> (r: bool)
        ensures
            r == wins_some_terminal(
                matches_view(self.matches@),
                decision_paths_view(terminals@),
                rank,
            ),
    {
        let ghost msv = matches_view(self.matches@);
        let ghost tsv = decision_paths_view(terminals@);
        let n = terminals.len();
        for j in 0..n
            invariant
                n == terminals@.len(),
                forall|k: int|
                    0 <= k < j ==> !((#[trigger] select_winner(msv, tsv[k])) matches Some(w)
                        && w.kind == MatchKind::UserDefined(rank)),
        {
            match self.resolveTerminal(&terminals[j]) {
                Some(m) => {
                    match m.kind {
                        MatchKind::UserDefined(i) => {
                            if i == rank {
                                proof {
                                    assert(select_winner(msv, tsv[j as int]) matches Some(w)
                                        && w.kind == MatchKind::UserDefined(rank));
                                }
                                return true;
                            }
                        },
                        MatchKind::Alternative => (),
                    }
                },
                None => (),
            }
        }
        false
    }

    /// The missing-pattern diagnostics: the decision paths of every terminal
    /// that only a synthesized alternative covers — value shapes the user's
    /// branches do not handle.
    #[verifier::loop_isolation(false)]
    pub fn missingPaths(&self) -> (r: Vec<DecisionPath>)
        ensures
            decision_paths_view(r@) == missing_from(
                matches_view(self.matches@),
                terminals_spec(self.node@),
            ),
    {
        let ghost msv = matches_view(self.matches@);
        let terminals = self.terminals();
        let ghost tsv = decision_paths_view(terminals@);
        let mut out: Vec<DecisionPath> = Vec::new();
        let n = terminals.len();
        proof {
            assert(tsv.skip(0) =~= tsv);
            assert(decision_paths_view(out@) + missing_from(msv, tsv) =~= missing_from(msv, tsv));
        }
        for j in 0..n
            invariant
                n == terminals@.len(),
                decision_paths_view(out@) + missing_from(msv, tsv.skip(j as int)) == missing_from(
                    msv,
                    tsv,
                ),
        {
            proof {
                assert(tsv.skip(j as int)[0] == terminals@[j as int]@);
                assert(tsv.skip(j as int).drop_first() =~= tsv.skip(j + 1));
            }
            let mut keep = false;
            match self.resolveTerminal(&terminals[j]) {
                Some(m) => {
                    match m.kind {
                        MatchKind::Alternative => {
                            keep = true;
                        },
                        MatchKind::UserDefined(_) => (),
                    }
                },
                None => (),
            }
            if keep {
                let ghost o0 = decision_paths_view(out@);
                out.push(terminals[j].clone());
                proof {
                    assert(decision_paths_view(out@) =~= o0.push(tsv[j as int]));
                    assert(decision_paths_view(out@) + missing_from(msv, tsv.skip(j + 1)) =~= o0 + (
                    seq![tsv[j as int]] + missing_from(msv, tsv.skip(j + 1))));
                }
            }
        }
        proof {
            assert(tsv.skip(n as int) =~= Seq::<Seq<DataPathView>>::empty());
            assert(decision_paths_view(out@) + Seq::<Seq<DataPathView>>::empty()
                =~= decision_paths_view(out@));
        }
        out
    }

    /// The redundant-pattern diagnostics: the source-order ranks of the user
    /// branches that win no terminal — branches an earlier branch always
    /// shadows.
    #[verifier::loop_isolation(false)]
    pub fn redundantBranches(&self) -> (r: Vec<i64>)
        ensures
            r@ == redundant_from(
                matches_view(self.matches@),
                terminals_spec(self.node@),
                0,
            ),
    {
        let ghost msv = matches_view(self.matches@);
        let terminals = self.terminals();
        let ghost tsv = decision_paths_view(terminals@);
        let mut out: Vec<i64> = Vec::new();
        let nm = self.matches.len();
        proof {
            assert(out@ + redundant_from(msv, tsv, 0) =~= redundant_from(msv, tsv, 0));
        }
        for k in 0..nm
            invariant
                nm == self.matches@.len(),
                tsv == terminals_spec(self.node@),
                out@ + redundant_from(msv, tsv, k as int) == redundant_from(msv, tsv, 0),
        {
            proof {
                assert(msv[k as int] == self.matches@[k as int]@);
            }
            match &self.matches[k].kind {
                MatchKind::UserDefined(i) => {
                    if !self.winsSomewhere(&terminals, *i) {
                        let ghost o0 = out@;
                        out.push(*i);
                        proof {
                            assert(out@ =~= o0.push(*i));
                            assert(out@ + redundant_from(msv, tsv, k as int + 1) =~= o0 + (seq![*i]
                                + redundant_from(msv, tsv, k as int + 1)));
                        }
                    }
                },
                MatchKind::Alternative => (),
            }
        }
        proof {
            assert(redundant_from(msv, tsv, nm as int) =~= Seq::<i64>::empty());
            assert(out@ + Seq::<i64>::empty() =~= out@);
        }
        out
    }
}

} // verus!
