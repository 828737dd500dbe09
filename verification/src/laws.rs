//! Laws of the match compiler: what the winner resolver and the decision
//! tree promise, proved once and for all inputs.
use vstd::prelude::*;

use crate::ir_data::EnumView;
use crate::matchcompiler::{
    assoc, build_enum_cases, build_lit_cases, build_matches_from, build_node_spec, collect_acc,
    covers, lemma_assoc_shapes_depth, lemma_pf_split, lemma_tuple_children_fuel, node_fuel,
    pending_fuel, replaces, select_from, select_winner, BuildCtx, CaseView, MatchKind, MatchView,
    NodeView,
};
use crate::path::{DataPathView, DataTypeView};
use crate::qualifiedname::QualifiedNameView;

verus! {

/// How the winner resolver folds over the candidates: starting from a
/// covering (or absent) best-so-far, the result is `None` exactly when
/// nothing covers; any result covers the terminal; and whenever some
/// user-defined candidate covers, the result is a user-defined match whose
/// source-order rank is a lower bound over every covering user branch.
pub proof fn lemma_select_from(ms: Seq<MatchView>, end: Seq<DataPathView>, acc: Option<MatchView>)
    requires
        acc matches Some(a) ==> covers(a, end),
    ensures
        select_from(ms, end, acc) is None <==> (acc is None && (forall|i: int|
            0 <= i < ms.len() ==> !covers(#[trigger] ms[i], end))),
        select_from(ms, end, acc) matches Some(w) ==> covers(w, end),
        forall|i: int|
            0 <= i < ms.len() && covers(#[trigger] ms[i], end) && ms[i].kind is UserDefined ==> {
                let r = select_from(ms, end, acc);
                r matches Some(w) && w.kind is UserDefined && w.kind->UserDefined_0
                    <= ms[i].kind->UserDefined_0
            },
        acc matches Some(a) ==> (a.kind is UserDefined ==> {
            let r = select_from(ms, end, acc);
            r matches Some(w) && w.kind is UserDefined && w.kind->UserDefined_0
                <= a.kind->UserDefined_0
        }),
    decreases ms.len(),
{
    if ms.len() > 0 {
        let acc2 = if covers(ms[0], end) {
            match acc {
                None => Some(ms[0]),
                Some(l) => if replaces(l.kind, ms[0].kind) {
                    Some(ms[0])
                } else {
                    acc
                },
            }
        } else {
            acc
        };
        lemma_select_from(ms.drop_first(), end, acc2);
        assert forall|i: int|
            0 <= i < ms.len() && covers(#[trigger] ms[i], end) && ms[i].kind
                is UserDefined implies {
            let r = select_from(ms, end, acc);
            r matches Some(w) && w.kind is UserDefined && w.kind->UserDefined_0
                <= ms[i].kind->UserDefined_0
        } by {
            if i > 0 {
                assert(ms.drop_first()[i - 1] == ms[i]);
            }
        }
        if select_from(ms, end, acc) is None {
            assert forall|i: int| 0 <= i < ms.len() implies !covers(#[trigger] ms[i], end) by {
                if i > 0 {
                    assert(ms.drop_first()[i - 1] == ms[i]);
                }
            }
        }
        if acc is None && (forall|i: int| 0 <= i < ms.len() ==> !covers(#[trigger] ms[i], end)) {
            assert(!covers(ms[0], end));
            assert forall|j: int| 0 <= j < ms.drop_first().len() implies !covers(
                #[trigger] ms.drop_first()[j],
                end,
            ) by {
                assert(ms.drop_first()[j] == ms[j + 1]);
            }
        }
    }
}

/// First-match-wins: whenever the user branch ranked `k` covers a terminal,
/// the terminal resolves to a user branch ranked at most `k` — the
/// first-written covering branch wins, however structurally specific a
/// later branch is, and no alternative can take a terminal a user branch
/// covers.
pub proof fn lemma_first_match_wins(ms: Seq<MatchView>, end: Seq<DataPathView>, i: int)
    requires
        0 <= i < ms.len(),
        covers(ms[i], end),
        ms[i].kind is UserDefined,
    ensures
        select_winner(ms, end) matches Some(w) && covers(w, end) && w.kind is UserDefined
            && w.kind->UserDefined_0 <= ms[i].kind->UserDefined_0,
{
    lemma_select_from(ms, end, None);
}

/// Winner resolution is total and deterministic over coverage: a terminal
/// resolves to some match exactly when some candidate covers it, and what
/// it resolves to covers it. Together with `lemma_first_match_wins` this is
/// the deterministic tie-break: the winner is the function of the candidate
/// list and the terminal defined by `select_winner`, never an arbitrary
/// choice among coverers.
pub proof fn lemma_winner_total(ms: Seq<MatchView>, end: Seq<DataPathView>)
    ensures
        select_winner(ms, end) is Some <==> (exists|i: int|
            0 <= i < ms.len() && covers(#[trigger] ms[i], end)),
        select_winner(ms, end) matches Some(w) ==> covers(w, end),
{
    lemma_select_from(ms, end, None);
    if select_winner(ms, end) is Some {
        if forall|i: int| 0 <= i < ms.len() ==> !covers(#[trigger] ms[i], end) {
            assert(select_winner(ms, end) is None);
        }
    }
}

proof fn lemma_chain_reaches_root(p: DataPathView)
    ensures
        DataPathView::chain_reaches(p, DataPathView::Root),
    decreases p,
{
    match p {
        DataPathView::Root => {},
        DataPathView::Tuple(q, _) => lemma_chain_reaches_root(*q),
        DataPathView::TupleIndex(q, _) => lemma_chain_reaches_root(*q),
        DataPathView::Variant(q, _, _) => lemma_chain_reaches_root(*q),
        DataPathView::IntegerLiteral(q, _) => lemma_chain_reaches_root(*q),
        DataPathView::StringLiteral(q, _) => lemma_chain_reaches_root(*q),
        DataPathView::Class(q, _) => lemma_chain_reaches_root(*q),
        DataPathView::Wildcard(q) => lemma_chain_reaches_root(*q),
    }
}

proof fn lemma_root_wildcard_absorbs(node: Seq<DataPathView>)
    ensures
        crate::matchcompiler::remove_paths_spec(
            DataPathView::Wildcard(Box::new(DataPathView::Root)),
            node,
        ).len() == 0,
    decreases node.len(),
{
    if node.len() > 0 {
        lemma_chain_reaches_root(node[0].parent());
        lemma_root_wildcard_absorbs(node.drop_first());
    }
}

/// A root catch-all covers everything: a match whose decision path is a
/// single unconstrained root position — what a wildcard or binding branch
/// extracts to — covers every terminal of every tree.
pub proof fn lemma_catch_all_covers(m: MatchView, end: Seq<DataPathView>)
    requires
        m.decisionPath == seq![DataPathView::Wildcard(Box::new(DataPathView::Root))],
    ensures
        covers(m, end),
{
    lemma_root_wildcard_absorbs(end);
    let w = DataPathView::Wildcard(Box::new(DataPathView::Root));
    assert(m.decisionPath[0] == w);
    assert(m.decisionPath.drop_first() =~= Seq::<DataPathView>::empty());
    let stripped = crate::matchcompiler::remove_paths_spec(w, end);
    assert(crate::matchcompiler::match_decisions_spec(
        stripped,
        Seq::<DataPathView>::empty(),
    ));
    assert(crate::matchcompiler::match_decisions_spec(end, m.decisionPath)
        == crate::matchcompiler::match_decisions_spec(stripped, m.decisionPath.drop_first()));
}

/// Totality behind a catch-all: a match set holding a root catch-all — as
/// any user wildcard or binding branch contributes — resolves every
/// terminal to some match, never to none.
pub proof fn lemma_catch_all_total(ms: Seq<MatchView>, end: Seq<DataPathView>, i: int)
    requires
        0 <= i < ms.len(),
        ms[i].decisionPath == seq![DataPathView::Wildcard(Box::new(DataPathView::Root))],
    ensures
        select_winner(ms, end) is Some,
{
    lemma_catch_all_covers(ms[i], end);
    lemma_winner_total(ms, end);
}

proof fn lemma_other_variants_differ(
    variants: Seq<crate::ir_data::VariantView>,
    name: QualifiedNameView,
    args: Seq<crate::pattern::PatternView>,
)
    ensures
        forall|j: int|
            0 <= j < crate::matchcompiler::other_variant_patterns(variants, name).len() ==> (
            #[trigger] crate::matchcompiler::other_variant_patterns(variants, name)[j])
                != crate::pattern::PatternView::Named(name, args),
    decreases variants.len(),
{
    if variants.len() > 0 {
        lemma_other_variants_differ(variants.drop_first(), name, args);
        let rest = crate::matchcompiler::other_variant_patterns(variants.drop_first(), name);
        let full = crate::matchcompiler::other_variant_patterns(variants, name);
        assert forall|j: int| 0 <= j < full.len() implies #[trigger] full[j]
            != crate::pattern::PatternView::Named(name, args) by {
            if !(variants[0].name == name) {
                if j > 0 {
                    assert(full[j] == rest[j - 1]);
                }
            }
        }
    }
}

proof fn lemma_splice_named_differs(
    tbl: crate::matchcompiler::SymbolTableView,
    name: QualifiedNameView,
    args: Seq<crate::pattern::PatternView>,
    idx: int,
)
    ensures
        forall|j: int|
            0 <= j < crate::matchcompiler::splice_choices_named(tbl, name, args, idx).len() ==> (
            #[trigger] crate::matchcompiler::splice_choices_named(tbl, name, args, idx)[j])
                != crate::pattern::PatternView::Named(name, args),
    decreases args, (args.len() - idx), 1int,
{
    if 0 <= idx < args.len() {
        let choices = crate::matchcompiler::generate_choices_spec_at(tbl, args, idx);
        let block = crate::matchcompiler::map_spliced_named(name, args, idx, choices);
        lemma_choices_never_duplicate(tbl, args[idx]);
        lemma_splice_named_differs(tbl, name, args, idx + 1);
        let rest = crate::matchcompiler::splice_choices_named(tbl, name, args, idx + 1);
        let full = crate::matchcompiler::splice_choices_named(tbl, name, args, idx);
        assert forall|j: int| 0 <= j < full.len() implies #[trigger] full[j]
            != crate::pattern::PatternView::Named(name, args) by {
            if j < block.len() {
                assert(full[j] == block[j]);
                let spliced_args = args.take(idx) + seq![choices[j]]
                    + crate::matchcompiler::wildcards((args.len() - idx - 1) as nat);
                assert(spliced_args[idx] == choices[j]);
                assert(choices[j] != args[idx]);
                assert(spliced_args != args);
            } else {
                assert(full[j] == rest[j - block.len()]);
            }
        }
    }
}

proof fn lemma_splice_tuple_differs(
    tbl: crate::matchcompiler::SymbolTableView,
    args: Seq<crate::pattern::PatternView>,
    idx: int,
)
    ensures
        forall|j: int|
            0 <= j < crate::matchcompiler::splice_choices_tuple(tbl, args, idx).len() ==> (
            #[trigger] crate::matchcompiler::splice_choices_tuple(tbl, args, idx)[j])
                != crate::pattern::PatternView::Tuple(args),
    decreases args, (args.len() - idx), 1int,
{
    if 0 <= idx < args.len() {
        let choices = crate::matchcompiler::generate_choices_spec_at(tbl, args, idx);
        let block = crate::matchcompiler::map_spliced_tuple(args, idx, choices);
        lemma_choices_never_duplicate(tbl, args[idx]);
        lemma_splice_tuple_differs(tbl, args, idx + 1);
        let rest = crate::matchcompiler::splice_choices_tuple(tbl, args, idx + 1);
        let full = crate::matchcompiler::splice_choices_tuple(tbl, args, idx);
        assert forall|j: int| 0 <= j < full.len() implies #[trigger] full[j]
            != crate::pattern::PatternView::Tuple(args) by {
            if j < block.len() {
                assert(full[j] == block[j]);
                let spliced_args = args.take(idx) + seq![choices[j]]
                    + crate::matchcompiler::wildcards((args.len() - idx - 1) as nat);
                assert(spliced_args[idx] == choices[j]);
                assert(choices[j] != args[idx]);
                assert(spliced_args != args);
            } else {
                assert(full[j] == rest[j - block.len()]);
            }
        }
    }
}

/// Generated choices never duplicate the pattern they were generated from:
/// every synthesized sibling differs from the original, so no alternative
/// can shadow the branch it was derived for.
pub proof fn lemma_choices_never_duplicate(
    tbl: crate::matchcompiler::SymbolTableView,
    p: crate::pattern::PatternView,
)
    ensures
        forall|j: int|
            0 <= j < crate::matchcompiler::generate_choices_spec(tbl, p).len() ==> (
            #[trigger] crate::matchcompiler::generate_choices_spec(tbl, p)[j]) != p,
    decreases p, 0int, 0int,
{
    match p {
        crate::pattern::PatternView::Named(name, args) => {
            match assoc(tbl.variants, name) {
                Some(enumName) => {
                    let others = match assoc(tbl.enums, enumName) {
                        Some(e) => crate::matchcompiler::other_variant_patterns(e.variants, name),
                        None => Seq::empty(),
                    };
                    match assoc(tbl.enums, enumName) {
                        Some(e) => {
                            lemma_other_variants_differ(e.variants, name, args);
                        },
                        None => {},
                    }
                    lemma_splice_named_differs(tbl, name, args, 0);
                    let spliced = crate::matchcompiler::splice_choices_named(tbl, name, args, 0);
                    let full = crate::matchcompiler::generate_choices_spec(tbl, p);
                    assert forall|j: int| 0 <= j < full.len() implies #[trigger] full[j] != p by {
                        if j < others.len() {
                            assert(full[j] == others[j]);
                        } else {
                            assert(full[j] == spliced[j - others.len()]);
                        }
                    }
                },
                None => {},
            }
        },
        crate::pattern::PatternView::Tuple(args) => {
            lemma_splice_tuple_differs(tbl, args, 0);
        },
        _ => {},
    }
}

proof fn lemma_matches_keep_acc(
    tbl: crate::matchcompiler::SymbolTableView,
    branches: Seq<crate::pattern::PatternView>,
    i: int,
    acc: Seq<MatchView>,
    n: int,
)
    requires
        build_matches_from(tbl, branches, i, acc) is Ok,
        0 <= n < acc.len(),
    ensures
        build_matches_from(tbl, branches, i, acc)->Ok_0.len() >= acc.len(),
        build_matches_from(tbl, branches, i, acc)->Ok_0[n] == acc[n],
    decreases branches.len() - i,
{
    if 0 <= i < branches.len() {
        let p = crate::matchcompiler::resolve_spec(tbl.names, branches[i])->Ok_0;
        let (d, b) = crate::matchcompiler::generate_decisions_spec(
            tbl.variants,
            p,
            DataPathView::Root,
            Seq::empty(),
            Seq::empty(),
        );
        let user = MatchView {
            kind: MatchKind::UserDefined(i as i64),
            pattern: p,
            decisionPath: d,
            bindings: b,
        };
        let alts = crate::matchcompiler::alts_of(
            tbl,
            crate::matchcompiler::generate_choices_spec(tbl, p),
            0,
        );
        lemma_matches_keep_acc(tbl, branches, i + 1, acc + seq![user] + alts, n);
        assert((acc + seq![user] + alts)[n] == acc[n]);
    }
}

proof fn lemma_catch_all_branch(
    tbl: crate::matchcompiler::SymbolTableView,
    branches: Seq<crate::pattern::PatternView>,
    i: int,
    acc: Seq<MatchView>,
    j: int,
)
    requires
        build_matches_from(tbl, branches, i, acc) is Ok,
        0 <= i <= j < branches.len(),
        branches[j] is Wildcard || branches[j] is Bind,
    ensures
        exists|k: int|
            0 <= k < build_matches_from(tbl, branches, i, acc)->Ok_0.len() && (
            #[trigger] build_matches_from(tbl, branches, i, acc)->Ok_0[k]).decisionPath == seq![
                DataPathView::Wildcard(Box::new(DataPathView::Root)),
            ],
    decreases branches.len() - i,
{
    let p = crate::matchcompiler::resolve_spec(tbl.names, branches[i])->Ok_0;
    let (d, b) = crate::matchcompiler::generate_decisions_spec(
        tbl.variants,
        p,
        DataPathView::Root,
        Seq::empty(),
        Seq::empty(),
    );
    let user = MatchView {
        kind: MatchKind::UserDefined(i as i64),
        pattern: p,
        decisionPath: d,
        bindings: b,
    };
    let alts = crate::matchcompiler::alts_of(
        tbl,
        crate::matchcompiler::generate_choices_spec(tbl, p),
        0,
    );
    let acc2 = acc + seq![user] + alts;
    if i == j {
        assert(p == branches[j]);
        assert(d =~= seq![DataPathView::Wildcard(Box::new(DataPathView::Root))]);
        assert(acc2[acc.len() as int] == user);
        lemma_matches_keep_acc(tbl, branches, i + 1, acc2, acc.len() as int);
    } else {
        lemma_catch_all_branch(tbl, branches, i + 1, acc2, j);
    }
}

/// Totality behind a written catch-all, end to end: where compilation
/// succeeds and some branch is a wildcard or a binding, every decision path
/// — in particular every terminal of the compiled tree — resolves to some
/// match of the compiled working set, never to none.
pub proof fn lemma_compile_catch_all_total(
    tbl: crate::matchcompiler::SymbolTableView,
    branches: Seq<crate::pattern::PatternView>,
    j: int,
    end: Seq<DataPathView>,
)
    requires
        crate::matchcompiler::compile_spec(tbl, branches) is Ok,
        0 <= j < branches.len(),
        branches[j] is Wildcard || branches[j] is Bind,
    ensures
        select_winner(crate::matchcompiler::compile_spec(tbl, branches)->Ok_0.0, end) is Some,
{
    let ms = crate::matchcompiler::compile_spec(tbl, branches)->Ok_0.0;
    assert(crate::matchcompiler::build_matches_spec(tbl, branches) == Ok::<
        Seq<MatchView>,
        crate::matchcompiler::MatchErrorView,
    >(ms));
    lemma_catch_all_branch(tbl, branches, 0, Seq::empty(), j);
    let k = choose|k: int|
        0 <= k < ms.len() && (#[trigger] ms[k]).decisionPath == seq![
            DataPathView::Wildcard(Box::new(DataPathView::Root)),
        ];
    lemma_catch_all_total(ms, end, k);
}

proof fn lemma_enum_cases_shape(
    ctx: BuildCtx,
    matches: Seq<MatchView>,
    head: DataPathView,
    rest: Seq<DataPathView>,
    current: Seq<DataPathView>,
    e: QualifiedNameView,
    variants: Seq<crate::ir_data::VariantView>,
    vi: int,
)
    requires
        0 <= vi <= variants.len(),
    ensures
        build_enum_cases(ctx, matches, head, rest, current, e, variants, vi).len() == variants.len()
            - vi,
        forall|j: int|
            0 <= j < variants.len() - vi ==> (#[trigger] build_enum_cases(
                ctx,
                matches,
                head,
                rest,
                current,
                e,
                variants,
                vi,
            )[j]).0 == CaseView::Variant(variants[vi + j].name),
    decreases variants.len() - vi,
{
    if vi < variants.len() {
        lemma_enum_cases_shape(ctx, matches, head, rest, current, e, variants, vi + 1);
    }
}

/// Enum closure: at a position with an enum shape the compiled tree is a
/// `Switch` with exactly one case per declared variant of that enum, in
/// declaration order — no variant is omitted and no default is added, even
/// where the source branches mention only some variants.
pub proof fn lemma_enum_closure(
    ctx: BuildCtx,
    matches: Seq<MatchView>,
    pending: Seq<DataPathView>,
    current: Seq<DataPathView>,
    e: QualifiedNameView,
    ev: EnumView,
)
    requires
        pending.len() > 0,
        assoc(ctx.shapes, pending[0]) == Some(DataTypeView::Enum(e)),
        assoc(ctx.enums, e) == Some(ev),
    ensures
        build_node_spec(ctx, matches, pending, current) matches NodeView::Switch(cases)
            && cases.len() == ev.variants.len() && (forall|j: int|
            0 <= j < cases.len() ==> (#[trigger] cases[j]).0 == CaseView::Variant(
                ev.variants[j].name,
            )),
{
    lemma_assoc_shapes_depth(ctx.shapes, pending[0]);
    lemma_enum_cases_shape(
        ctx,
        matches,
        pending[0],
        pending.drop_first(),
        current,
        e,
        ev.variants,
        0,
    );
}

/// Tuple decomposition is unconditional: at a position with a tuple shape
/// the compiled tree never branches — the node is a `TupleDecompose`, never
/// a `Switch`, whatever the branches look like.
pub proof fn lemma_tuple_unconditional(
    ctx: BuildCtx,
    matches: Seq<MatchView>,
    pending: Seq<DataPathView>,
    current: Seq<DataPathView>,
    n: usize,
)
    requires
        pending.len() > 0,
        assoc(ctx.shapes, pending[0]) == Some(DataTypeView::Tuple(n)),
    ensures
        build_node_spec(ctx, matches, pending, current) is Tuple,
{
    let head = pending[0];
    let rest = pending.drop_first();
    lemma_assoc_shapes_depth(ctx.shapes, head);
    lemma_tuple_children_fuel(ctx, head, n);
    lemma_pf_split(ctx, crate::matchcompiler::tuple_children(head, n), rest);
    assert(pending_fuel(ctx, pending) == node_fuel(ctx, head) + pending_fuel(ctx, rest));
}

proof fn lemma_lit_cases_shape(
    ctx: BuildCtx,
    matches: Seq<MatchView>,
    head: DataPathView,
    rest: Seq<DataPathView>,
    current: Seq<DataPathView>,
    values: Seq<Seq<char>>,
    vi: int,
    isInt: bool,
)
    requires
        0 <= vi <= values.len(),
    ensures
        build_lit_cases(ctx, matches, head, rest, current, values, vi, isInt).len() == values.len()
            - vi,
        forall|j: int|
            0 <= j < values.len() - vi ==> (#[trigger] build_lit_cases(
                ctx,
                matches,
                head,
                rest,
                current,
                values,
                vi,
                isInt,
            )[j]).0 == (if isInt {
                CaseView::Integer(values[vi + j])
            } else {
                CaseView::String(values[vi + j])
            }),
    decreases values.len() - vi,
{
    if vi < values.len() {
        lemma_lit_cases_shape(ctx, matches, head, rest, current, values, vi + 1, isInt);
    }
}

/// Literal domains require a default: at a position with an integer or
/// string shape the compiled tree is a `Switch` with one case per literal
/// value that occurs as the next decision, in first-occurrence order, and a
/// mandatory final `Default` case — present even when no source branch is a
/// catch-all, fed then only by generated alternatives.
pub proof fn lemma_literal_default(
    ctx: BuildCtx,
    matches: Seq<MatchView>,
    pending: Seq<DataPathView>,
    current: Seq<DataPathView>,
    isInt: bool,
)
    requires
        pending.len() > 0,
        isInt ==> assoc(ctx.shapes, pending[0]) == Some(DataTypeView::Integer),
        !isInt ==> assoc(ctx.shapes, pending[0]) == Some(DataTypeView::String),
    ensures
        ({
            let values = collect_acc(matches, current, isInt, Seq::empty());
            build_node_spec(ctx, matches, pending, current) matches NodeView::Switch(cases)
                && cases.len() == values.len() + 1 && cases.last().0 == CaseView::Default && (
            forall|j: int|
                0 <= j < values.len() ==> (#[trigger] cases[j]).0 == (if isInt {
                    CaseView::Integer(values[j])
                } else {
                    CaseView::String(values[j])
                }))
        }),
{
    let head = pending[0];
    let rest = pending.drop_first();
    lemma_assoc_shapes_depth(ctx.shapes, head);
    let values = collect_acc(matches, current, isInt, Seq::empty());
    lemma_lit_cases_shape(ctx, matches, head, rest, current, values, 0, isInt);
}

} // verus!
