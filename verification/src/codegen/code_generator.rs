//! Statement and function emission. The exact output is pinned by the
//! specification functions `spec_emit_stmt`, `spec_emit_scope`, `spec_emit_chain`,
//! `spec_emit_func` and `spec_emit_program`, which thread an `EmitState` —
//! lines emitted, scope frames, tracked depth, label counter — through the
//! walk of the AST.

use vstd::prelude::*;
use crate::assembly::{
    has_label, labels_bounded, labels_distinct, line_effect, seq_effect, view_lines, AsmLine, Reg,
    SpecAsmLine,
};
use crate::codegen::code_gen_expr::{expr_ok, spec_emit_expr, spec_emit_op, spec_emit_term, term_ok};
use crate::codegen::code_gen_structs::{
    frames_slots_le, spec_lookup, Frames, Generator, Var,
};
use crate::errors::CompileError;
use crate::lexical::Token;
use crate::parsing::{NodeElse, NodeExpr, NodeFunc, NodeRoot, NodeScope, NodeStmt, NodeTermExpr};

verus! {

/// The generator's state as the specification functions thread it: the lines
/// emitted so far, the scope frames, the tracked depth, and the label
/// counter.
pub struct EmitState {
    pub lines: Seq<SpecAsmLine>,
    pub frames: Frames,
    pub depth: int,
    pub labels: int,
}

/// How many labels emitting a statement allocates.
pub open spec fn label_weight_stmt(s: NodeStmt) -> nat
    decreases s,
{
    match s {
        NodeStmt::If { expr, scope, chain } => 2 + label_weight_stmts(scope.0@)
            + label_weight_chain(chain),
        NodeStmt::Scope { scope } => label_weight_stmts(scope.0@),
        _ => 0,
    }
}

/// How many labels emitting a statement list allocates.
pub open spec fn label_weight_stmts(ss: Seq<NodeStmt>) -> nat
    decreases ss,
{
    if ss.len() == 0 {
        0
    } else {
        label_weight_stmt(ss[0]) + label_weight_stmts(ss.drop_first())
    }
}

/// How many labels emitting an else-chain allocates.
pub open spec fn label_weight_chain(c: Option<NodeElse>) -> nat
    decreases c,
{
    match c {
        None => 0,
        Some(NodeElse::ElseIf { expr, scope, chain }) => 1 + label_weight_stmts(scope.0@)
            + label_weight_chain(*chain),
        Some(NodeElse::Else(scope)) => label_weight_stmts(scope.0@),
    }
}

/// How many labels emitting a whole program allocates.
pub open spec fn label_weight_funcs(fs: Seq<NodeFunc>) -> nat
    decreases fs,
{
    if fs.len() == 0 {
        0
    } else {
        label_weight_stmts(fs[0].stmts@) + label_weight_funcs(fs.drop_first())
    }
}

/// The state after emitting one statement, or `None` where emission fails:
/// a `let` of a name already visible or with a malformed identifier token, a
/// use of an unbound identifier, or a re-assignment to an unbound name.
pub open spec fn spec_emit_stmt(s: NodeStmt, st: EmitState, is_main: bool) -> Option<EmitState>
    decreases s,
{
    match s {
        NodeStmt::Let { ident, expr } => {
            if !(ident.token is Ident) {
                None
            } else {
                let name = ident.token->Ident_0@;
                if crate::codegen::code_gen_structs::scope_as_map(st.frames.last()).contains_key(
                    name,
                ) {
                    None
                } else if !expr_ok(expr, st.frames) {
                    None
                } else {
                    Some(
                        EmitState {
                            lines: st.lines + spec_emit_expr(expr, st.frames, st.depth),
                            frames: st.frames.update(
                                st.frames.len() - 1,
                                st.frames.last().push(
                                    (
                                        name,
                                        Var {
                                            stack_location: (st.depth + 1) as usize,
                                            line_number: ident.line,
                                        },
                                    ),
                                ),
                            ),
                            depth: st.depth + 1,
                            labels: st.labels,
                        },
                    )
                }
            }
        },
        NodeStmt::Return { expr } => {
            if !expr_ok(expr, st.frames) {
                None
            } else {
                Some(
                    EmitState {
                        lines: st.lines + spec_emit_expr(expr, st.frames, st.depth) + seq![
                            SpecAsmLine::Pop(Reg::X0),
                        ] + (if is_main {
                            seq![SpecAsmLine::MovX16One, SpecAsmLine::Svc]
                        } else {
                            Seq::empty()
                        }),
                        frames: st.frames,
                        depth: st.depth,
                        labels: st.labels,
                    },
                )
            }
        },
        NodeStmt::Scope { scope } => spec_emit_scope(scope, st, is_main),
        NodeStmt::If { expr, scope, chain } => {
            if !expr_ok(expr, st.frames) {
                None
            } else {
                let normal = st.labels;
                let next = st.labels + 1;
                let st1 = EmitState {
                    lines: st.lines + spec_emit_expr(expr, st.frames, st.depth) + seq![
                        SpecAsmLine::Pop(Reg::X1),
                        SpecAsmLine::CmpX1Zero,
                        SpecAsmLine::BranchEq(next),
                    ],
                    frames: st.frames,
                    depth: st.depth,
                    labels: st.labels + 2,
                };
                match spec_emit_scope(scope, st1, is_main) {
                    None => None,
                    Some(st2) => {
                        let st3 = EmitState {
                            lines: st2.lines + seq![
                                SpecAsmLine::MovX2Zero,
                                SpecAsmLine::CmpX2Zero,
                                SpecAsmLine::BranchEq(normal),
                                SpecAsmLine::LabelDef(next),
                            ],
                            frames: st2.frames,
                            depth: st2.depth,
                            labels: st2.labels,
                        };
                        match spec_emit_chain(chain, st3, normal, is_main) {
                            None => None,
                            Some(st4) => Some(
                                EmitState {
                                    lines: st4.lines + seq![SpecAsmLine::LabelDef(normal)],
                                    frames: st4.frames,
                                    depth: st4.depth,
                                    labels: st4.labels,
                                },
                            ),
                        }
                    },
                }
            }
        },
        NodeStmt::ReAssign { expr, ident } => {
            if !(ident.token is Ident) {
                None
            } else {
                let name = ident.token->Ident_0@;
                match spec_lookup(st.frames, name) {
                    None => None,
                    Some(v) => {
                        if !expr_ok(expr, st.frames) {
                            None
                        } else {
                            Some(
                                EmitState {
                                    lines: st.lines + spec_emit_expr(expr, st.frames, st.depth)
                                        + seq![
                                        SpecAsmLine::Pop(Reg::X1),
                                        SpecAsmLine::StoreVar(st.depth - v.stack_location),
                                    ],
                                    frames: st.frames,
                                    depth: st.depth,
                                    labels: st.labels,
                                },
                            )
                        }
                    },
                }
            }
        },
    }
}

/// The state after emitting a statement list, front to back.
pub open spec fn spec_emit_stmts(ss: Seq<NodeStmt>, st: EmitState, is_main: bool) -> Option<
    EmitState,
>
    decreases ss,
{
    if ss.len() == 0 {
        Some(st)
    } else {
        match spec_emit_stmt(ss[0], st, is_main) {
            None => None,
            Some(st1) => spec_emit_stmts(ss.drop_first(), st1, is_main),
        }
    }
}

/// The state after emitting a braced block: a fresh scope frame, the body,
/// one teardown that releases exactly the slots the body pushed, and the
/// frame dropped again.
pub open spec fn spec_emit_scope(sc: NodeScope, st: EmitState, is_main: bool) -> Option<EmitState>
    decreases sc,
{
    let st1 = EmitState {
        lines: st.lines,
        frames: st.frames.push(Seq::empty()),
        depth: st.depth,
        labels: st.labels,
    };
    match spec_emit_stmts(sc.0@, st1, is_main) {
        None => None,
        Some(st2) => Some(
            EmitState {
                lines: st2.lines + seq![SpecAsmLine::ReleaseSlots(st2.depth - st.depth)],
                frames: st2.frames.drop_last(),
                depth: st.depth,
                labels: st2.labels,
            },
        ),
    }
}

/// The state after emitting the continuation of an `if`; `normal` is the
/// label placed after the whole chain.
pub open spec fn spec_emit_chain(
    c: Option<NodeElse>,
    st: EmitState,
    normal: int,
    is_main: bool,
) -> Option<EmitState>
    decreases c,
{
    match c {
        None => Some(st),
        Some(NodeElse::ElseIf { expr, scope, chain }) => {
            if !expr_ok(expr, st.frames) {
                None
            } else {
                let label = st.labels;
                let st1 = EmitState {
                    lines: st.lines + spec_emit_expr(expr, st.frames, st.depth) + seq![
                        SpecAsmLine::Pop(Reg::X1),
                        SpecAsmLine::CmpX1Zero,
                        SpecAsmLine::BranchEq(label),
                    ],
                    frames: st.frames,
                    depth: st.depth,
                    labels: st.labels + 1,
                };
                match spec_emit_scope(scope, st1, is_main) {
                    None => None,
                    Some(st2) => {
                        let st3 = EmitState {
                            lines: st2.lines + seq![
                                SpecAsmLine::MovX2Zero,
                                SpecAsmLine::CmpX2Zero,
                                SpecAsmLine::BranchEq(normal),
                                SpecAsmLine::LabelDef(label),
                            ],
                            frames: st2.frames,
                            depth: st2.depth,
                            labels: st2.labels,
                        };
                        spec_emit_chain(*chain, st3, normal, is_main)
                    },
                }
            }
        },
        Some(NodeElse::Else(scope)) => spec_emit_scope(scope, st, is_main),
    }
}

/// The lines a whole function adds after `already`, and the label counter
/// it leaves: its entry label (`_start:` for `main`), its body starting at
/// depth zero in a fresh scope, one teardown for all of its slots, and —
/// for any function but `main` — a final `RET`.
pub open spec fn spec_emit_func(f: NodeFunc, labels: int, already: Seq<SpecAsmLine>) -> Option<
    (Seq<SpecAsmLine>, int),
> {
    let is_main = f.f_name@ == "main"@;
    let head = if is_main {
        seq![SpecAsmLine::StartLabel]
    } else {
        seq![SpecAsmLine::FuncLabel(f.f_name@)]
    };
    let st0 = EmitState {
        lines: already + head,
        frames: seq![Seq::<(Seq<char>, Var)>::empty()],
        depth: 0,
        labels,
    };
    match spec_emit_stmts(f.stmts@, st0, is_main) {
        None => None,
        Some(st1) => Some(
            (
                st1.lines + seq![SpecAsmLine::ReleaseSlots(st1.depth)] + (if is_main {
                    Seq::empty()
                } else {
                    seq![SpecAsmLine::Ret]
                }),
                st1.labels,
            ),
        ),
    }
}

/// The lines of all functions, in order.
pub open spec fn spec_emit_funcs(fs: Seq<NodeFunc>, labels: int, already: Seq<SpecAsmLine>) -> Option<
    (Seq<SpecAsmLine>, int),
>
    decreases fs,
{
    if fs.len() == 0 {
        Some((already, labels))
    } else {
        match spec_emit_func(fs[0], labels, already) {
            None => None,
            Some((lines1, labels1)) => spec_emit_funcs(fs.drop_first(), labels1, lines1),
        }
    }
}

/// The whole output of the code generator: the prologue, then every
/// function.
pub open spec fn spec_emit_program(root: NodeRoot) -> Option<Seq<SpecAsmLine>> {
    match spec_emit_funcs(root.funcs@, 0, seq![SpecAsmLine::Global, SpecAsmLine::Align]) {
        None => None,
        Some((lines, labels)) => Some(lines),
    }
}

/// No line of `s` defines a label.
pub open spec fn no_labels(s: Seq<SpecAsmLine>) -> bool {
    forall|i: int| 0 <= i < s.len() ==> !((#[trigger] s[i]) is LabelDef)
}

pub proof fn lemma_no_labels_concat(a: Seq<SpecAsmLine>, b: Seq<SpecAsmLine>)
    requires
        no_labels(a),
        no_labels(b),
    ensures
        no_labels(a + b),
{
    assert forall|i: int| 0 <= i < (a + b).len() implies !((#[trigger] (a + b)[i]) is LabelDef) by {
        if i < a.len() {
            assert((a + b)[i] == a[i]);
        } else {
            assert((a + b)[i] == b[i - a.len()]);
        }
    }
}

pub proof fn lemma_emit_op_no_labels(op: crate::parsing::NodeBiOp)
    ensures
        no_labels(spec_emit_op(op)),
{
}

pub proof fn lemma_emit_expr_no_labels(e: NodeExpr, frames: Frames, depth: int)
    ensures
        no_labels(spec_emit_expr(e, frames, depth)),
    decreases e,
{
    match e {
        NodeExpr::BinaryExpr(b) => {
            lemma_emit_expr_no_labels(b.lhs, frames, depth);
            lemma_emit_expr_no_labels(b.rhs, frames, depth + 1);
            lemma_emit_op_no_labels(b.op);
            lemma_no_labels_concat(
                spec_emit_expr(b.lhs, frames, depth),
                spec_emit_expr(b.rhs, frames, depth + 1),
            );
            lemma_no_labels_concat(
                spec_emit_expr(b.lhs, frames, depth) + spec_emit_expr(b.rhs, frames, depth + 1),
                seq![SpecAsmLine::Pop(Reg::X2), SpecAsmLine::Pop(Reg::X1)],
            );
            lemma_no_labels_concat(
                spec_emit_expr(b.lhs, frames, depth) + spec_emit_expr(b.rhs, frames, depth + 1)
                    + seq![SpecAsmLine::Pop(Reg::X2), SpecAsmLine::Pop(Reg::X1)],
                spec_emit_op(b.op),
            );
        },
        NodeExpr::Term(t) => {
            lemma_emit_term_no_labels(t, frames, depth);
        },
        NodeExpr::Call(_) => {},
    }
}

pub proof fn lemma_emit_term_no_labels(t: NodeTermExpr, frames: Frames, depth: int)
    ensures
        no_labels(spec_emit_term(t, frames, depth)),
    decreases t,
{
    match t {
        NodeTermExpr::Expression(inner) => {
            lemma_emit_expr_no_labels(*inner, frames, depth);
        },
        _ => {},
    }
}

/// Lines whose labels are bounded away from `n` do not define `n`.
pub proof fn lemma_bounded_not_has(s: Seq<SpecAsmLine>, lo: int, hi: int, n: int)
    requires
        labels_bounded(s, lo, hi),
        n < lo || n >= hi,
    ensures
        !has_label(s, n),
{
}

/// Label-free lines define no label.
pub proof fn lemma_no_labels_not_has(s: Seq<SpecAsmLine>, n: int)
    requires
        no_labels(s),
    ensures
        !has_label(s, n),
{
}

pub proof fn lemma_has_label_concat(a: Seq<SpecAsmLine>, b: Seq<SpecAsmLine>, n: int)
    ensures
        has_label(a + b, n) <==> has_label(a, n) || has_label(b, n),
{
    if has_label(a, n) {
        let i = choose|i: int| 0 <= i < a.len() && (#[trigger] a[i]) is LabelDef && a[i]->LabelDef_0
            == n;
        assert((a + b)[i] == a[i]);
    }
    if has_label(b, n) {
        let i = choose|i: int| 0 <= i < b.len() && (#[trigger] b[i]) is LabelDef && b[i]->LabelDef_0
            == n;
        assert((a + b)[a.len() + i] == b[i]);
    }
    if has_label(a + b, n) {
        let i = choose|i: int|
            0 <= i < (a + b).len() && (#[trigger] (a + b)[i]) is LabelDef && (a + b)[i]->LabelDef_0
                == n;
        if i < a.len() {
            assert(a[i] == (a + b)[i]);
        } else {
            assert(b[i - a.len()] == (a + b)[i]);
        }
    }
}

/// Labels bounded inside a narrower window are bounded inside a wider one.
pub proof fn lemma_bounded_widen(s: Seq<SpecAsmLine>, lo: int, hi: int, lo2: int, hi2: int)
    requires
        labels_bounded(s, lo, hi),
        lo2 <= lo,
        hi <= hi2,
    ensures
        labels_bounded(s, lo2, hi2),
{
}

pub proof fn lemma_bounded_concat(a: Seq<SpecAsmLine>, b: Seq<SpecAsmLine>, lo: int, hi: int)
    requires
        labels_bounded(a, lo, hi),
        labels_bounded(b, lo, hi),
    ensures
        labels_bounded(a + b, lo, hi),
{
    assert forall|i: int|
        0 <= i < (a + b).len() && (#[trigger] (a + b)[i]) is LabelDef implies lo <= (a + b)[i]
        ->LabelDef_0 < hi by {
        if i < a.len() {
            assert((a + b)[i] == a[i]);
        } else {
            assert((a + b)[i] == b[i - a.len()]);
        }
    }
}

/// Label-free lines are bounded in any window.
pub proof fn lemma_no_labels_bounded(s: Seq<SpecAsmLine>, lo: int, hi: int)
    requires
        no_labels(s),
    ensures
        labels_bounded(s, lo, hi),
{
}

/// Extending an extension: prefix preservation and appended-label bounds
/// compose.
pub proof fn lemma_extend_compose(
    a: Seq<SpecAsmLine>,
    b: Seq<SpecAsmLine>,
    c: Seq<SpecAsmLine>,
    la: int,
    lb: int,
    lc: int,
)
    requires
        a.len() <= b.len() <= c.len(),
        b.take(a.len() as int) == a,
        c.take(b.len() as int) == b,
        labels_bounded(b.skip(a.len() as int), la, lb),
        labels_bounded(c.skip(b.len() as int), la, lc),
        la <= lb <= lc,
    ensures
        c.take(a.len() as int) == a,
        labels_bounded(c.skip(a.len() as int), la, lc),
{
    assert(c.take(a.len() as int) =~= b.take(a.len() as int));
    assert(c.skip(a.len() as int) =~= b.skip(a.len() as int) + c.skip(b.len() as int));
    lemma_bounded_widen(b.skip(a.len() as int), la, lb, la, lc);
    lemma_bounded_concat(b.skip(a.len() as int), c.skip(b.len() as int), la, lc);
}

/// Emission allocates exactly its label weight (statement case).
pub proof fn lemma_emit_stmt_labels(s: NodeStmt, st: EmitState, is_main: bool)
    ensures
        spec_emit_stmt(s, st, is_main) matches Some(st2) ==> st2.labels == st.labels
            + label_weight_stmt(s),
    decreases s,
{
    match s {
        NodeStmt::Scope { scope } => {
            lemma_emit_scope_labels(scope, st, is_main);
        },
        NodeStmt::If { expr, scope, chain } => {
            if expr_ok(expr, st.frames) {
                let normal = st.labels;
                let next = st.labels + 1;
                let st1 = EmitState {
                    lines: st.lines + spec_emit_expr(expr, st.frames, st.depth) + seq![
                        SpecAsmLine::Pop(Reg::X1),
                        SpecAsmLine::CmpX1Zero,
                        SpecAsmLine::BranchEq(next),
                    ],
                    frames: st.frames,
                    depth: st.depth,
                    labels: st.labels + 2,
                };
                lemma_emit_scope_labels(scope, st1, is_main);
                match spec_emit_scope(scope, st1, is_main) {
                    None => {},
                    Some(st2) => {
                        let st3 = EmitState {
                            lines: st2.lines + seq![
                                SpecAsmLine::MovX2Zero,
                                SpecAsmLine::CmpX2Zero,
                                SpecAsmLine::BranchEq(normal),
                                SpecAsmLine::LabelDef(next),
                            ],
                            frames: st2.frames,
                            depth: st2.depth,
                            labels: st2.labels,
                        };
                        lemma_emit_chain_labels(chain, st3, normal, is_main);
                    },
                }
            }
        },
        _ => {},
    }
}

/// Emission allocates exactly its label weight (statement-list case).
pub proof fn lemma_emit_stmts_labels(ss: Seq<NodeStmt>, st: EmitState, is_main: bool)
    ensures
        spec_emit_stmts(ss, st, is_main) matches Some(st2) ==> st2.labels == st.labels
            + label_weight_stmts(ss),
    decreases ss,
{
    if ss.len() > 0 {
        lemma_emit_stmt_labels(ss[0], st, is_main);
        match spec_emit_stmt(ss[0], st, is_main) {
            None => {},
            Some(st1) => {
                lemma_emit_stmts_labels(ss.drop_first(), st1, is_main);
            },
        }
    }
}

/// Emission allocates exactly its label weight (block case).
pub proof fn lemma_emit_scope_labels(sc: NodeScope, st: EmitState, is_main: bool)
    ensures
        spec_emit_scope(sc, st, is_main) matches Some(st2) ==> st2.labels == st.labels
            + label_weight_stmts(sc.0@),
    decreases sc,
{
    let st1 = EmitState {
        lines: st.lines,
        frames: st.frames.push(Seq::empty()),
        depth: st.depth,
        labels: st.labels,
    };
    lemma_emit_stmts_labels(sc.0@, st1, is_main);
}

/// Emission allocates exactly its label weight (else-chain case).
pub proof fn lemma_emit_chain_labels(c: Option<NodeElse>, st: EmitState, normal: int, is_main: bool)
    ensures
        spec_emit_chain(c, st, normal, is_main) matches Some(st2) ==> st2.labels == st.labels
            + label_weight_chain(c),
    decreases c,
{
    match c {
        None => {},
        Some(NodeElse::ElseIf { expr, scope, chain }) => {
            if expr_ok(expr, st.frames) {
                let label = st.labels;
                let st1 = EmitState {
                    lines: st.lines + spec_emit_expr(expr, st.frames, st.depth) + seq![
                        SpecAsmLine::Pop(Reg::X1),
                        SpecAsmLine::CmpX1Zero,
                        SpecAsmLine::BranchEq(label),
                    ],
                    frames: st.frames,
                    depth: st.depth,
                    labels: st.labels + 1,
                };
                lemma_emit_scope_labels(scope, st1, is_main);
                match spec_emit_scope(scope, st1, is_main) {
                    None => {},
                    Some(st2) => {
                        let st3 = EmitState {
                            lines: st2.lines + seq![
                                SpecAsmLine::MovX2Zero,
                                SpecAsmLine::CmpX2Zero,
                                SpecAsmLine::BranchEq(normal),
                                SpecAsmLine::LabelDef(label),
                            ],
                            frames: st2.frames,
                            depth: st2.depth,
                            labels: st2.labels,
                        };
                        lemma_emit_chain_labels(*chain, st3, normal, is_main);
                    },
                }
            }
        },
        Some(NodeElse::Else(scope)) => {
            lemma_emit_scope_labels(scope, st, is_main);
        },
    }
}

proof fn lemma_effect1(a: SpecAsmLine)
    ensures
        seq_effect(seq![a]) == line_effect(a),
{
    assert(seq![a] =~= Seq::<SpecAsmLine>::empty().push(a));
    crate::assembly::lemma_seq_effect_push(Seq::empty(), a);
}

proof fn lemma_effect2(a: SpecAsmLine, b: SpecAsmLine)
    ensures
        seq_effect(seq![a, b]) == line_effect(a) + line_effect(b),
{
    assert(seq![a, b] =~= seq![a].push(b));
    crate::assembly::lemma_seq_effect_push(seq![a], b);
    lemma_effect1(a);
}

proof fn lemma_effect3(a: SpecAsmLine, b: SpecAsmLine, c: SpecAsmLine)
    ensures
        seq_effect(seq![a, b, c]) == line_effect(a) + line_effect(b) + line_effect(c),
{
    assert(seq![a, b, c] =~= seq![a, b].push(c));
    crate::assembly::lemma_seq_effect_push(seq![a, b], c);
    lemma_effect2(a, b);
}

proof fn lemma_effect_all_zero(s: Seq<SpecAsmLine>)
    requires
        forall|i: int| 0 <= i < s.len() ==> line_effect(#[trigger] s[i]) == 0,
    ensures
        seq_effect(s) == 0,
    decreases s.len(),
{
    if s.len() > 0 {
        assert(forall|i: int| 0 <= i < s.len() - 1 ==> s.drop_last()[i] == s[i]);
        lemma_effect_all_zero(s.drop_last());
    }
}

proof fn lemma_effect_zero_then_push(s: Seq<SpecAsmLine>)
    requires
        s.len() >= 1,
        forall|i: int| 0 <= i < s.len() - 1 ==> line_effect(#[trigger] s[i]) == 0,
        line_effect(s.last()) == 1,
    ensures
        seq_effect(s) == 1,
{
    assert(forall|i: int| 0 <= i < s.len() - 1 ==> s.drop_last()[i] == s[i]);
    lemma_effect_all_zero(s.drop_last());
}

proof fn lemma_emit_op_effect(op: crate::parsing::NodeBiOp)
    ensures
        seq_effect(spec_emit_op(op)) == 1,
{
    lemma_effect_zero_then_push(spec_emit_op(op));
}

/// Every expression's code leaves exactly one more slot pushed.
pub proof fn lemma_emit_expr_effect(e: NodeExpr, frames: Frames, depth: int)
    requires
        expr_ok(e, frames),
    ensures
        seq_effect(spec_emit_expr(e, frames, depth)) == 1,
    decreases e,
{
    match e {
        NodeExpr::BinaryExpr(b) => {
            lemma_emit_expr_effect(b.lhs, frames, depth);
            lemma_emit_expr_effect(b.rhs, frames, depth + 1);
            lemma_emit_op_effect(b.op);
            let a1 = spec_emit_expr(b.lhs, frames, depth);
            let a2 = spec_emit_expr(b.rhs, frames, depth + 1);
            let pops = seq![SpecAsmLine::Pop(Reg::X2), SpecAsmLine::Pop(Reg::X1)];
            crate::assembly::lemma_seq_effect_concat(a1, a2);
            crate::assembly::lemma_seq_effect_concat(a1 + a2, pops);
            crate::assembly::lemma_seq_effect_concat(a1 + a2 + pops, spec_emit_op(b.op));
            lemma_effect2(SpecAsmLine::Pop(Reg::X2), SpecAsmLine::Pop(Reg::X1));
            assert(seq_effect(pops) == -2);
        },
        NodeExpr::Term(t) => {
            lemma_emit_term_effect(t, frames, depth);
        },
        NodeExpr::Call(_) => {
            lemma_effect_zero_then_push(spec_emit_expr(e, frames, depth));
        },
    }
}

/// Every term's code leaves exactly one more slot pushed.
pub proof fn lemma_emit_term_effect(t: NodeTermExpr, frames: Frames, depth: int)
    requires
        term_ok(t, frames),
    ensures
        seq_effect(spec_emit_term(t, frames, depth)) == 1,
    decreases t,
{
    match t {
        NodeTermExpr::Expression(inner) => {
            lemma_emit_expr_effect(*inner, frames, depth);
        },
        _ => {
            lemma_effect_zero_then_push(spec_emit_term(t, frames, depth));
        },
    }
}

/// Depth ledger, statement level: the tracked depth moves by exactly the
/// net stack movement of the lines a statement appends.
pub proof fn lemma_emit_stmt_effect(s: NodeStmt, st: EmitState, is_main: bool)
    ensures
        spec_emit_stmt(s, st, is_main) matches Some(st2) ==> st.lines.len() <= st2.lines.len()
            && st2.lines.take(st.lines.len() as int) == st.lines && seq_effect(
            st2.lines.skip(st.lines.len() as int),
        ) == st2.depth - st.depth,
    decreases s,
{
    match s {
        NodeStmt::Let { ident, expr } => {
            if spec_emit_stmt(s, st, is_main) is Some {
                let name = ident.token->Ident_0@;
                lemma_emit_expr_effect(expr, st.frames, st.depth);
                let st2 = spec_emit_stmt(s, st, is_main)->Some_0;
                assert(st2.lines.take(st.lines.len() as int) =~= st.lines);
                assert(st2.lines.skip(st.lines.len() as int) =~= spec_emit_expr(
                    expr,
                    st.frames,
                    st.depth,
                ));
            }
        },
        NodeStmt::Return { expr } => {
            if spec_emit_stmt(s, st, is_main) is Some {
                lemma_emit_expr_effect(expr, st.frames, st.depth);
                let st2 = spec_emit_stmt(s, st, is_main)->Some_0;
                let a1 = spec_emit_expr(expr, st.frames, st.depth);
                let tail = seq![SpecAsmLine::Pop(Reg::X0)] + (if is_main {
                    seq![SpecAsmLine::MovX16One, SpecAsmLine::Svc]
                } else {
                    Seq::<SpecAsmLine>::empty()
                });
                assert(st2.lines.take(st.lines.len() as int) =~= st.lines);
                assert(st2.lines.skip(st.lines.len() as int) =~= a1 + tail);
                crate::assembly::lemma_seq_effect_concat(a1, tail);
                assert(seq_effect(tail) == -1) by {
                    if is_main {
                        assert(tail =~= seq![
                            SpecAsmLine::Pop(Reg::X0),
                            SpecAsmLine::MovX16One,
                            SpecAsmLine::Svc,
                        ]);
                        lemma_effect3(
                            SpecAsmLine::Pop(Reg::X0),
                            SpecAsmLine::MovX16One,
                            SpecAsmLine::Svc,
                        );
                    } else {
                        assert(tail =~= seq![SpecAsmLine::Pop(Reg::X0)]);
                        lemma_effect1(SpecAsmLine::Pop(Reg::X0));
                    }
                }
            }
        },
        NodeStmt::Scope { scope } => {
            lemma_emit_scope_effect(scope, st, is_main);
        },
        NodeStmt::If { expr, scope, chain } => {
            if spec_emit_stmt(s, st, is_main) is Some {
                lemma_emit_expr_effect(expr, st.frames, st.depth);
                let a1 = spec_emit_expr(expr, st.frames, st.depth);
                let three = seq![
                    SpecAsmLine::Pop(Reg::X1),
                    SpecAsmLine::CmpX1Zero,
                    SpecAsmLine::BranchEq(st.labels + 1),
                ];
                let st1 = EmitState {
                    lines: st.lines + a1 + three,
                    frames: st.frames,
                    depth: st.depth,
                    labels: st.labels + 2,
                };
                assert(seq_effect(three) == -1) by {
                    lemma_effect3(
                        SpecAsmLine::Pop(Reg::X1),
                        SpecAsmLine::CmpX1Zero,
                        SpecAsmLine::BranchEq(st.labels + 1),
                    );
                }
                lemma_emit_scope_effect(scope, st1, is_main);
                let st2 = spec_emit_scope(scope, st1, is_main)->Some_0;
                let four = seq![
                    SpecAsmLine::MovX2Zero,
                    SpecAsmLine::CmpX2Zero,
                    SpecAsmLine::BranchEq(st.labels),
                    SpecAsmLine::LabelDef(st.labels + 1),
                ];
                let st3 = EmitState {
                    lines: st2.lines + four,
                    frames: st2.frames,
                    depth: st2.depth,
                    labels: st2.labels,
                };
                assert(seq_effect(four) == 0) by {
                    lemma_effect_all_zero(four);
                }
                lemma_emit_chain_effect(chain, st3, st.labels, is_main);
                let st4 = spec_emit_chain(chain, st3, st.labels, is_main)->Some_0;
                let st2f = spec_emit_stmt(s, st, is_main)->Some_0;
                assert(st2f.lines =~= st4.lines + seq![SpecAsmLine::LabelDef(st.labels)]);
                // compose the effects of the five pieces
                let app1 = a1 + three;
                assert(st1.lines.skip(st.lines.len() as int) =~= app1);
                crate::assembly::lemma_seq_effect_concat(a1, three);
                let app2 = st2.lines.skip(st1.lines.len() as int);
                let app3 = st4.lines.skip(st3.lines.len() as int);
                let whole = st2f.lines.skip(st.lines.len() as int);
                assert(st2.lines =~= st1.lines + app2);
                assert(st4.lines =~= st3.lines + app3);
                assert(whole =~= app1 + app2 + four + app3 + seq![
                    SpecAsmLine::LabelDef(st.labels),
                ]);
                crate::assembly::lemma_seq_effect_concat(app1, app2);
                crate::assembly::lemma_seq_effect_concat(app1 + app2, four);
                crate::assembly::lemma_seq_effect_concat(app1 + app2 + four, app3);
                crate::assembly::lemma_seq_effect_concat(
                    app1 + app2 + four + app3,
                    seq![SpecAsmLine::LabelDef(st.labels)],
                );
                assert(seq_effect(seq![SpecAsmLine::LabelDef(st.labels)]) == 0) by {
                    lemma_effect_all_zero(seq![SpecAsmLine::LabelDef(st.labels)]);
                }
            }
        },
        NodeStmt::ReAssign { expr, ident } => {
            if spec_emit_stmt(s, st, is_main) is Some {
                lemma_emit_expr_effect(expr, st.frames, st.depth);
                let name = ident.token->Ident_0@;
                let v = spec_lookup(st.frames, name)->Some_0;
                let st2 = spec_emit_stmt(s, st, is_main)->Some_0;
                let a1 = spec_emit_expr(expr, st.frames, st.depth);
                let two = seq![
                    SpecAsmLine::Pop(Reg::X1),
                    SpecAsmLine::StoreVar(st.depth - v.stack_location),
                ];
                assert(st2.lines.take(st.lines.len() as int) =~= st.lines);
                assert(st2.lines.skip(st.lines.len() as int) =~= a1 + two);
                crate::assembly::lemma_seq_effect_concat(a1, two);
                assert(seq_effect(two) == -1) by {
                    lemma_effect2(
                        SpecAsmLine::Pop(Reg::X1),
                        SpecAsmLine::StoreVar(st.depth - v.stack_location),
                    );
                }
            }
        },
    }
}

/// Depth ledger, statement-list level.
pub proof fn lemma_emit_stmts_effect(ss: Seq<NodeStmt>, st: EmitState, is_main: bool)
    ensures
        spec_emit_stmts(ss, st, is_main) matches Some(st2) ==> st.lines.len() <= st2.lines.len()
            && st2.lines.take(st.lines.len() as int) == st.lines && seq_effect(
            st2.lines.skip(st.lines.len() as int),
        ) == st2.depth - st.depth,
    decreases ss,
{
    if ss.len() == 0 {
        if spec_emit_stmts(ss, st, is_main) is Some {
            assert(st.lines.take(st.lines.len() as int) =~= st.lines);
            assert(st.lines.skip(st.lines.len() as int) =~= Seq::<SpecAsmLine>::empty());
        }
    } else {
        lemma_emit_stmt_effect(ss[0], st, is_main);
        match spec_emit_stmt(ss[0], st, is_main) {
            None => {},
            Some(st1) => {
                lemma_emit_stmts_effect(ss.drop_first(), st1, is_main);
                match spec_emit_stmts(ss.drop_first(), st1, is_main) {
                    None => {},
                    Some(st2) => {
                        assert(st2.lines.take(st.lines.len() as int) =~= st1.lines.take(
                            st.lines.len() as int,
                        ));
                        assert(st2.lines.skip(st.lines.len() as int) =~= st1.lines.skip(
                            st.lines.len() as int,
                        ) + st2.lines.skip(st1.lines.len() as int));
                        crate::assembly::lemma_seq_effect_concat(
                            st1.lines.skip(st.lines.len() as int),
                            st2.lines.skip(st1.lines.len() as int),
                        );
                    },
                }
            },
        }
    }
}

/// Depth ledger, block level: a block's code is stack-neutral — its one
/// teardown releases exactly the slots its statements pushed.
pub proof fn lemma_emit_scope_effect(sc: NodeScope, st: EmitState, is_main: bool)
    ensures
        spec_emit_scope(sc, st, is_main) matches Some(st2) ==> st.lines.len() <= st2.lines.len()
            && st2.lines.take(st.lines.len() as int) == st.lines && seq_effect(
            st2.lines.skip(st.lines.len() as int),
        ) == 0 && st2.depth == st.depth,
    decreases sc,
{
    let st1 = EmitState {
        lines: st.lines,
        frames: st.frames.push(Seq::empty()),
        depth: st.depth,
        labels: st.labels,
    };
    lemma_emit_stmts_effect(sc.0@, st1, is_main);
    match spec_emit_stmts(sc.0@, st1, is_main) {
        None => {},
        Some(stb) => {
            let stf = spec_emit_scope(sc, st, is_main)->Some_0;
            let rel = seq![SpecAsmLine::ReleaseSlots(stb.depth - st.depth)];
            assert(stf.lines.take(st.lines.len() as int) =~= stb.lines.take(
                st.lines.len() as int,
            ));
            assert(stf.lines.skip(st.lines.len() as int) =~= stb.lines.skip(
                st.lines.len() as int,
            ) + rel);
            crate::assembly::lemma_seq_effect_concat(stb.lines.skip(st.lines.len() as int), rel);
            assert(seq_effect(rel) == st.depth - stb.depth) by {
                lemma_effect1(SpecAsmLine::ReleaseSlots(stb.depth - st.depth));
                assert(rel =~= seq![SpecAsmLine::ReleaseSlots(stb.depth - st.depth)]);
            }
        },
    }
}

/// Depth ledger, else-chain level: the chain's code is stack-neutral.
pub proof fn lemma_emit_chain_effect(c: Option<NodeElse>, st: EmitState, normal: int, is_main: bool)
    ensures
        spec_emit_chain(c, st, normal, is_main) matches Some(st2) ==> st.lines.len()
            <= st2.lines.len() && st2.lines.take(st.lines.len() as int) == st.lines && seq_effect(
            st2.lines.skip(st.lines.len() as int),
        ) == 0 && st2.depth == st.depth,
    decreases c,
{
    match c {
        None => {
            if spec_emit_chain(c, st, normal, is_main) is Some {
                assert(st.lines.take(st.lines.len() as int) =~= st.lines);
                assert(st.lines.skip(st.lines.len() as int) =~= Seq::<SpecAsmLine>::empty());
            }
        },
        Some(NodeElse::Else(scope)) => {
            lemma_emit_scope_effect(scope, st, is_main);
        },
        Some(NodeElse::ElseIf { expr, scope, chain }) => {
            if expr_ok(expr, st.frames) {
                lemma_emit_expr_effect(expr, st.frames, st.depth);
                let a1 = spec_emit_expr(expr, st.frames, st.depth);
                let three = seq![
                    SpecAsmLine::Pop(Reg::X1),
                    SpecAsmLine::CmpX1Zero,
                    SpecAsmLine::BranchEq(st.labels),
                ];
                let st1 = EmitState {
                    lines: st.lines + a1 + three,
                    frames: st.frames,
                    depth: st.depth,
                    labels: st.labels + 1,
                };
                assert(seq_effect(three) == -1) by {
                    lemma_effect3(
                        SpecAsmLine::Pop(Reg::X1),
                        SpecAsmLine::CmpX1Zero,
                        SpecAsmLine::BranchEq(st.labels),
                    );
                }
                lemma_emit_scope_effect(scope, st1, is_main);
                match spec_emit_scope(scope, st1, is_main) {
                    None => {},
                    Some(st2) => {
                        let four = seq![
                            SpecAsmLine::MovX2Zero,
                            SpecAsmLine::CmpX2Zero,
                            SpecAsmLine::BranchEq(normal),
                            SpecAsmLine::LabelDef(st.labels),
                        ];
                        let st3 = EmitState {
                            lines: st2.lines + four,
                            frames: st2.frames,
                            depth: st2.depth,
                            labels: st2.labels,
                        };
                        assert(seq_effect(four) == 0) by {
                            lemma_effect_all_zero(four);
                        }
                        lemma_emit_chain_effect(*chain, st3, normal, is_main);
                        match spec_emit_chain(*chain, st3, normal, is_main) {
                            None => {},
                            Some(stf) => {
                                let app1 = a1 + three;
                                crate::assembly::lemma_seq_effect_concat(a1, three);
                                let app2 = st2.lines.skip(st1.lines.len() as int);
                                let app3 = stf.lines.skip(st3.lines.len() as int);
                                let whole = stf.lines.skip(st.lines.len() as int);
                                assert(st2.lines =~= st1.lines + app2);
                                assert(stf.lines =~= st3.lines + app3);
                                assert(whole =~= app1 + app2 + four + app3);
                                crate::assembly::lemma_seq_effect_concat(app1, app2);
                                crate::assembly::lemma_seq_effect_concat(app1 + app2, four);
                                crate::assembly::lemma_seq_effect_concat(
                                    app1 + app2 + four,
                                    app3,
                                );
                                assert(stf.lines.take(st.lines.len() as int) =~= st.lines);
                            },
                        }
                    },
                }
            }
        },
    }
}

/// Depth ledger consistency, the whole-function law: after emitting any
/// function, the code between its entry label and its teardown is
/// stack-neutral statement by statement, and the one `ADD SP, SP, #k`
/// teardown the function ends with releases exactly the function's net
/// pushes — so the function's whole emission is stack-neutral.
pub proof fn lemma_depth_ledger(f: NodeFunc, labels: int, already: Seq<SpecAsmLine>)
    ensures
        spec_emit_func(f, labels, already) matches Some(p) ==> seq_effect(
            p.0.skip(already.len() as int),
        ) == 0,
{
    let is_main = f.f_name@ == "main"@;
    let head = if is_main {
        seq![SpecAsmLine::StartLabel]
    } else {
        seq![SpecAsmLine::FuncLabel(f.f_name@)]
    };
    let st0 = EmitState {
        lines: already + head,
        frames: seq![Seq::<(Seq<char>, Var)>::empty()],
        depth: 0,
        labels,
    };
    lemma_emit_stmts_effect(f.stmts@, st0, is_main);
    match spec_emit_stmts(f.stmts@, st0, is_main) {
        None => {},
        Some(st1) => {
            let p = spec_emit_func(f, labels, already)->Some_0;
            let body = st1.lines.skip(st0.lines.len() as int);
            let rel = seq![SpecAsmLine::ReleaseSlots(st1.depth)];
            let tail = if is_main {
                Seq::<SpecAsmLine>::empty()
            } else {
                seq![SpecAsmLine::Ret]
            };
            assert(st1.lines =~= st0.lines + body);
            assert(p.0 =~= st1.lines + rel + tail);
            assert(p.0.skip(already.len() as int) =~= head + body + rel + tail);
            crate::assembly::lemma_seq_effect_concat(head, body);
            crate::assembly::lemma_seq_effect_concat(head + body, rel);
            crate::assembly::lemma_seq_effect_concat(head + body + rel, tail);
            lemma_effect_all_zero(head);
            lemma_effect_all_zero(tail);
            assert(seq_effect(rel) == -st1.depth) by {
                lemma_effect1(SpecAsmLine::ReleaseSlots(st1.depth));
                assert(rel =~= seq![SpecAsmLine::ReleaseSlots(st1.depth)]);
            }
        },
    }
}

/// Integer round-trip, the emission half: a program whose single function
/// is `fn main() -> i32 { return N; }` compiles to exactly the prologue,
/// the `_start` label, the literal moved into `X1` and pushed, the value
/// popped into `X0`, the exit system call, and an empty teardown. Running
/// the assembled file therefore exits with `N` (truncated to a byte by the
/// operating system, which is outside this library).
pub proof fn lemma_exit_program(root: NodeRoot, lit: String)
    requires
        root.funcs@.len() == 1,
        root.funcs@[0].f_name@ == "main"@,
        root.funcs@[0].stmts@.len() == 1,
        root.funcs@[0].stmts@[0] == (NodeStmt::Return {
            expr: NodeExpr::Term(NodeTermExpr::IntLiteral(lit)),
        }),
    ensures
        spec_emit_program(root) == Some(
            seq![
                SpecAsmLine::Global,
                SpecAsmLine::Align,
                SpecAsmLine::StartLabel,
                SpecAsmLine::MovInt(lit@),
                SpecAsmLine::Push(Reg::X1),
                SpecAsmLine::Pop(Reg::X0),
                SpecAsmLine::MovX16One,
                SpecAsmLine::Svc,
                SpecAsmLine::ReleaseSlots(0),
            ],
        ),
{
    let fs = root.funcs@;
    let f = fs[0];
    let ss = f.stmts@;
    assert(fs.drop_first() =~= Seq::<NodeFunc>::empty());
    assert(ss.drop_first() =~= Seq::<NodeStmt>::empty());
    let already = seq![SpecAsmLine::Global, SpecAsmLine::Align];
    let st0 = EmitState {
        lines: already + seq![SpecAsmLine::StartLabel],
        frames: seq![Seq::<(Seq<char>, Var)>::empty()],
        depth: 0,
        labels: 0,
    };
    let expr = NodeExpr::Term(NodeTermExpr::IntLiteral(lit));
    assert(term_ok(NodeTermExpr::IntLiteral(lit), st0.frames));
    assert(expr_ok(expr, st0.frames));
    assert(spec_emit_term(NodeTermExpr::IntLiteral(lit), st0.frames, 0) =~= seq![
        SpecAsmLine::MovInt(lit@),
        SpecAsmLine::Push(Reg::X1),
    ]);
    assert(spec_emit_expr(expr, st0.frames, 0) =~= seq![
        SpecAsmLine::MovInt(lit@),
        SpecAsmLine::Push(Reg::X1),
    ]);
    assert(ss[0] == (NodeStmt::Return { expr }));
    match spec_emit_stmt(ss[0], st0, true) {
        None => {
            assert(false);
        },
        Some(st1) => {
            assert(st1.depth == 0);
            assert(st1.lines =~= seq![
                SpecAsmLine::Global,
                SpecAsmLine::Align,
                SpecAsmLine::StartLabel,
                SpecAsmLine::MovInt(lit@),
                SpecAsmLine::Push(Reg::X1),
                SpecAsmLine::Pop(Reg::X0),
                SpecAsmLine::MovX16One,
                SpecAsmLine::Svc,
            ]);
            assert(spec_emit_stmts(ss.drop_first(), st1, true) == Some(st1));
            assert(spec_emit_stmts(ss, st0, true) == Some(st1));
            let p = spec_emit_func(f, 0, already)->Some_0;
            assert(spec_emit_func(f, 0, already) == Some(
                (
                    st1.lines + seq![SpecAsmLine::ReleaseSlots(st1.depth)]
                        + Seq::<SpecAsmLine>::empty(),
                    st1.labels,
                ),
            ));
            assert(p.0 =~= seq![
                SpecAsmLine::Global,
                SpecAsmLine::Align,
                SpecAsmLine::StartLabel,
                SpecAsmLine::MovInt(lit@),
                SpecAsmLine::Push(Reg::X1),
                SpecAsmLine::Pop(Reg::X0),
                SpecAsmLine::MovX16One,
                SpecAsmLine::Svc,
                SpecAsmLine::ReleaseSlots(0),
            ]);
            assert(spec_emit_funcs(fs.drop_first(), p.1, p.0) == Some((p.0, p.1)));
            assert(spec_emit_funcs(fs, 0, already) == Some((p.0, p.1)));
            assert(spec_emit_program(root) == Some(p.0));
        },
    }
}

/// A generator's state, as the specification functions see it.
pub open spec fn gen_state(g: Generator) -> EmitState {
    EmitState {
        lines: g.lines(),
        frames: g.frames(),
        depth: g.depth(),
        labels: g.label_index as int,
    }
}

impl Generator {
    /// Allocates a fresh label number, or fails when the counter is
    /// exhausted.
    pub(crate) fn create_label(&mut self) -> (r: Result<usize, CompileError>)
        requires
            old(self).wf(),
        ensures
            final(self).wf(),
            final(self).buffer == old(self).buffer,
            final(self).locals == old(self).locals,
            final(self).m_func_name == old(self).m_func_name,
            r is Ok <==> old(self).label_index < usize::MAX,
            r matches Ok(n) ==> n == old(self).label_index && final(self).label_index == old(self).label_index + 1,
            r is Err ==> final(self).label_index == old(self).label_index,
            r matches Err(e) ==> e is TooManyLabels,
    {
        if self.label_index == usize::MAX {
            return Err(CompileError::TooManyLabels);
        }
        let label = self.label_index;
        self.label_index = self.label_index + 1;
        Ok(label)
    }

    /// Emits one statement. On success the output, the scopes, the tracked
    /// depth and the label counter advance exactly as `spec_emit_stmt` says.
    #[verifier::rlimit(100)]
    #[verifier::spinoff_prover]
    pub(crate) fn generate_stmt(&mut self, ele: &NodeStmt, is_main: bool) -> (r: Result<
        (),
        CompileError,
    >)
        requires
            old(self).wf(),
        ensures
            final(self).wf(),
            final(self).m_func_name == old(self).m_func_name,
            old(self).label_index <= final(self).label_index,
            r is Ok <==> (spec_emit_stmt(*ele, gen_state(*old(self)), is_main) is Some && old(self).label_index + label_weight_stmt(*ele) <= usize::MAX),
            r is Ok ==> spec_emit_stmt(*ele, gen_state(*old(self)), is_main) == Some(
                gen_state(*final(self)),
            ),
            r is Ok ==> old(self).lines().len() <= final(self).lines().len() && final(self).lines().take(old(self).lines().len() as int) == old(self).lines()
                && labels_bounded(
                final(self).lines().skip(old(self).lines().len() as int),
                old(self).label_index as int,
                final(self).label_index as int,
            ),
            r is Ok ==> final(self).depth() >= old(self).depth() && final(self).frames().len()
                == old(self).frames().len() && (forall|k: int|
                0 <= k < final(self).frames().len() - 1 ==> final(self).frames()[k] == old(self).frames()[k]),
            r matches Err(e) ==> (e is AlreadyDefined || e is UndefinedVariable || e is NotDeclared
                || e is ExpectedIdentifier || e is TooManyLabels),
            (*ele is Let && ele->Let_ident.token is Ident
                && crate::codegen::code_gen_structs::scope_as_map(
                old(self).frames().last(),
            ).contains_key(ele->Let_ident.token->Ident_0@)) ==> (r matches Err(
                CompileError::AlreadyDefined { name, line },
            ) && name@ == ele->Let_ident.token->Ident_0@ && line
                == crate::codegen::code_gen_structs::scope_as_map(old(self).frames().last())[
                ele->Let_ident.token->Ident_0@
            ].line_number),
            (*ele is ReAssign && ele->ReAssign_ident.token is Ident && spec_lookup(
                old(self).frames(),
                ele->ReAssign_ident.token->Ident_0@,
            ) is None) ==> (r matches Err(CompileError::NotDeclared { name, line }) && name@
                == ele->ReAssign_ident.token->Ident_0@ && line == ele->ReAssign_ident.line),
        decreases *ele,
    {
        let ghost st = gen_state(*old(self));
        match ele {
            NodeStmt::Let { expr, ident } => {
                let name = match &ident.token {
                    Token::Ident(n) => n,
                    _ => {
                        return Err(CompileError::ExpectedIdentifier { line: ident.line });
                    },
                };
                match self.locals.get_in_current(name) {
                    Some(variable) => {
                        return Err(CompileError::AlreadyDefined {
                            name: name.clone(),
                            line: variable.line_number,
                        });
                    },
                    None => {},
                }
                match self.parse_expr(expr) {
                    Err(e) => {
                        return Err(e);
                    },
                    Ok(()) => {},
                }
                self.insert_ident(name, ident.line);
                proof {
                    let st2 = gen_state(*self);
                    assert(spec_emit_stmt(*ele, st, is_main) == Some(st2)) by {
                        assert(st2.frames =~~= st.frames.update(
                            st.frames.len() - 1,
                            st.frames.last().push(
                                (
                                    name@,
                                    Var {
                                        stack_location: (st.depth + 1) as usize,
                                        line_number: ident.line,
                                    },
                                ),
                            ),
                        ));
                    }
                    lemma_emit_expr_no_labels(*expr, st.frames, st.depth);
                    assert(final(self).lines().take(old(self).lines().len() as int) =~= old(self).lines());
                    assert(final(self).lines().skip(old(self).lines().len() as int)
                        =~= spec_emit_expr(*expr, st.frames, st.depth));
                    lemma_no_labels_bounded(
                        spec_emit_expr(*expr, st.frames, st.depth),
                        old(self).label_index as int,
                        final(self).label_index as int,
                    );
                }
                Ok(())
            },
            NodeStmt::Return { expr } => {
                match self.parse_expr(expr) {
                    Err(e) => {
                        return Err(e);
                    },
                    Ok(()) => {},
                }
                proof {
                    assert(frames_slots_le(self.frames(), self.depth() - 1));
                }
                self.pop(Reg::X0);
                if is_main {
                    self.buffer_push(AsmLine::MovX16One);
                    self.buffer_push(AsmLine::Svc);
                }
                proof {
                    let st2 = gen_state(*self);
                    assert(st2.lines =~= st.lines + spec_emit_expr(*expr, st.frames, st.depth)
                        + seq![SpecAsmLine::Pop(Reg::X0)] + (if is_main {
                        seq![SpecAsmLine::MovX16One, SpecAsmLine::Svc]
                    } else {
                        Seq::<SpecAsmLine>::empty()
                    }));
                    assert(spec_emit_stmt(*ele, st, is_main) == Some(st2));
                    lemma_emit_expr_no_labels(*expr, st.frames, st.depth);
                    assert(final(self).lines().take(old(self).lines().len() as int) =~= old(self).lines());
                    let app = final(self).lines().skip(old(self).lines().len() as int);
                    assert(no_labels(app)) by {
                        assert(forall|i: int|
                            0 <= i < spec_emit_expr(*expr, st.frames, st.depth).len() ==> app[i]
                                == spec_emit_expr(*expr, st.frames, st.depth)[i]);
                    }
                    lemma_no_labels_bounded(
                        app,
                        old(self).label_index as int,
                        final(self).label_index as int,
                    );
                }
                Ok(())
            },
            NodeStmt::Scope { scope } => {
                let r = self.generate_scope(scope, is_main);
                match r {
                    Err(e) => Err(e),
                    Ok(()) => Ok(()),
                }
            },
            NodeStmt::If { expr, scope, chain } => {
                let normal_label = match self.create_label() {
                    Err(e) => {
                        proof {
                            assert(label_weight_stmt(*ele) >= 2);
                        }
                        return Err(e);
                    },
                    Ok(n) => n,
                };
                let next_label = match self.create_label() {
                    Err(e) => {
                        proof {
                            assert(label_weight_stmt(*ele) >= 2);
                        }
                        return Err(e);
                    },
                    Ok(n) => n,
                };
                match self.parse_expr(expr) {
                    Err(e) => {
                        proof {
                            assert(spec_emit_stmt(*ele, st, is_main) is None);
                        }
                        return Err(e);
                    },
                    Ok(()) => {},
                }
                proof {
                    assert(frames_slots_le(self.frames(), self.depth() - 1));
                }
                self.pop(Reg::X1);
                self.buffer_push(AsmLine::CmpX1Zero);
                self.buffer_push(AsmLine::BranchEq(next_label));
                let ghost st1 = EmitState {
                    lines: st.lines + spec_emit_expr(*expr, st.frames, st.depth) + seq![
                        SpecAsmLine::Pop(Reg::X1),
                        SpecAsmLine::CmpX1Zero,
                        SpecAsmLine::BranchEq(next_label as int),
                    ],
                    frames: st.frames,
                    depth: st.depth,
                    labels: st.labels + 2,
                };
                proof {
                    assert(gen_state(*self).lines =~= st1.lines);
                    assert(gen_state(*self) == st1);
                }
                let ghost mid1 = *self;
                match self.generate_scope(scope, is_main) {
                    Err(e) => {
                        proof {
                            if spec_emit_stmt(*ele, st, is_main) is Some && st.labels
                                + label_weight_stmt(*ele) <= usize::MAX {
                                assert(spec_emit_scope(*scope, st1, is_main) is Some);
                                assert(st1.labels + label_weight_stmts(scope.0@) <= usize::MAX);
                            }
                        }
                        return Err(e);
                    },
                    Ok(()) => {},
                }
                let ghost st2 = gen_state(*self);
                let ghost mid2 = *self;
                self.buffer_push(AsmLine::MovX2Zero);
                self.buffer_push(AsmLine::CmpX2Zero);
                self.buffer_push(AsmLine::BranchEq(normal_label));
                proof {
                    lemma_emit_expr_no_labels(*expr, st.frames, st.depth);
                    assert(!has_label(st1.lines, next_label as int)) by {
                        lemma_bounded_not_has(st.lines, 0, st.labels, next_label as int);
                        lemma_has_label_concat(
                            st.lines,
                            spec_emit_expr(*expr, st.frames, st.depth),
                            next_label as int,
                        );
                        lemma_has_label_concat(
                            st.lines + spec_emit_expr(*expr, st.frames, st.depth),
                            seq![
                                SpecAsmLine::Pop(Reg::X1),
                                SpecAsmLine::CmpX1Zero,
                                SpecAsmLine::BranchEq(next_label as int),
                            ],
                            next_label as int,
                        );
                        lemma_no_labels_not_has(
                            spec_emit_expr(*expr, st.frames, st.depth),
                            next_label as int,
                        );
                        lemma_no_labels_not_has(
                            seq![
                                SpecAsmLine::Pop(Reg::X1),
                                SpecAsmLine::CmpX1Zero,
                                SpecAsmLine::BranchEq(next_label as int),
                            ],
                            next_label as int,
                        );
                    }
                    assert(!has_label(self.lines(), next_label as int)) by {
                        lemma_bounded_not_has(
                            mid2.lines().skip(st1.lines.len() as int),
                            st1.labels,
                            mid2.label_index as int,
                            next_label as int,
                        );
                        lemma_has_label_concat(
                            st1.lines,
                            mid2.lines().skip(st1.lines.len() as int),
                            next_label as int,
                        );
                        assert(mid2.lines() =~= st1.lines + mid2.lines().skip(
                            st1.lines.len() as int,
                        ));
                        lemma_no_labels_not_has(
                            seq![
                                SpecAsmLine::MovX2Zero,
                                SpecAsmLine::CmpX2Zero,
                                SpecAsmLine::BranchEq(normal_label as int),
                            ],
                            next_label as int,
                        );
                        lemma_has_label_concat(
                            mid2.lines(),
                            seq![
                                SpecAsmLine::MovX2Zero,
                                SpecAsmLine::CmpX2Zero,
                                SpecAsmLine::BranchEq(normal_label as int),
                            ],
                            next_label as int,
                        );
                        assert(self.lines() =~= mid2.lines() + seq![
                            SpecAsmLine::MovX2Zero,
                            SpecAsmLine::CmpX2Zero,
                            SpecAsmLine::BranchEq(normal_label as int),
                        ]);
                    }
                }
                self.place_label(next_label);
                let ghost st3 = EmitState {
                    lines: st2.lines + seq![
                        SpecAsmLine::MovX2Zero,
                        SpecAsmLine::CmpX2Zero,
                        SpecAsmLine::BranchEq(normal_label as int),
                        SpecAsmLine::LabelDef(next_label as int),
                    ],
                    frames: st2.frames,
                    depth: st2.depth,
                    labels: st2.labels,
                };
                proof {
                    assert(gen_state(*self).lines =~= st3.lines);
                    assert(gen_state(*self) == st3);
                }
                let ghost mid3 = *self;
                match self.generate_node_else(chain, normal_label, is_main) {
                    Err(e) => {
                        proof {
                            lemma_emit_scope_labels(*scope, st1, is_main);
                            if spec_emit_stmt(*ele, st, is_main) is Some && st.labels
                                + label_weight_stmt(*ele) <= usize::MAX {
                                assert(spec_emit_chain(
                                    *chain,
                                    st3,
                                    normal_label as int,
                                    is_main,
                                ) is Some);
                                assert(st3.labels + label_weight_chain(*chain) <= usize::MAX);
                            }
                        }
                        return Err(e);
                    },
                    Ok(()) => {},
                }
                let ghost st4 = gen_state(*self);
                let ghost mid4 = *self;
                proof {
                    assert(!has_label(self.lines(), normal_label as int)) by {
                        lemma_bounded_not_has(st.lines, 0, st.labels, normal_label as int);
                        lemma_no_labels_not_has(
                            spec_emit_expr(*expr, st.frames, st.depth),
                            normal_label as int,
                        );
                        lemma_no_labels_not_has(
                            seq![
                                SpecAsmLine::Pop(Reg::X1),
                                SpecAsmLine::CmpX1Zero,
                                SpecAsmLine::BranchEq(next_label as int),
                            ],
                            normal_label as int,
                        );
                        lemma_has_label_concat(
                            st.lines,
                            spec_emit_expr(*expr, st.frames, st.depth),
                            normal_label as int,
                        );
                        lemma_has_label_concat(
                            st.lines + spec_emit_expr(*expr, st.frames, st.depth),
                            seq![
                                SpecAsmLine::Pop(Reg::X1),
                                SpecAsmLine::CmpX1Zero,
                                SpecAsmLine::BranchEq(next_label as int),
                            ],
                            normal_label as int,
                        );
                        lemma_bounded_not_has(
                            mid2.lines().skip(st1.lines.len() as int),
                            st1.labels,
                            mid2.label_index as int,
                            normal_label as int,
                        );
                        lemma_has_label_concat(
                            st1.lines,
                            mid2.lines().skip(st1.lines.len() as int),
                            normal_label as int,
                        );
                        assert(mid2.lines() =~= st1.lines + mid2.lines().skip(
                            st1.lines.len() as int,
                        ));
                        lemma_no_labels_not_has(
                            seq![
                                SpecAsmLine::MovX2Zero,
                                SpecAsmLine::CmpX2Zero,
                                SpecAsmLine::BranchEq(normal_label as int),
                                SpecAsmLine::LabelDef(next_label as int),
                            ].drop_last(),
                            normal_label as int,
                        );
                        assert(st3.lines =~= mid2.lines() + seq![
                            SpecAsmLine::MovX2Zero,
                            SpecAsmLine::CmpX2Zero,
                            SpecAsmLine::BranchEq(normal_label as int),
                            SpecAsmLine::LabelDef(next_label as int),
                        ]);
                        assert(!has_label(
                            seq![
                                SpecAsmLine::MovX2Zero,
                                SpecAsmLine::CmpX2Zero,
                                SpecAsmLine::BranchEq(normal_label as int),
                                SpecAsmLine::LabelDef(next_label as int),
                            ],
                            normal_label as int,
                        ));
                        lemma_has_label_concat(
                            mid2.lines(),
                            seq![
                                SpecAsmLine::MovX2Zero,
                                SpecAsmLine::CmpX2Zero,
                                SpecAsmLine::BranchEq(normal_label as int),
                                SpecAsmLine::LabelDef(next_label as int),
                            ],
                            normal_label as int,
                        );
                        lemma_bounded_not_has(
                            mid4.lines().skip(st3.lines.len() as int),
                            st3.labels,
                            mid4.label_index as int,
                            normal_label as int,
                        );
                        lemma_has_label_concat(
                            st3.lines,
                            mid4.lines().skip(st3.lines.len() as int),
                            normal_label as int,
                        );
                        assert(mid4.lines() =~= st3.lines + mid4.lines().skip(
                            st3.lines.len() as int,
                        ));
                    }
                }
                self.place_label(normal_label);
                proof {
                    let stf = gen_state(*self);
                    assert(stf.lines =~= st4.lines + seq![
                        SpecAsmLine::LabelDef(normal_label as int),
                    ]);
                    assert(spec_emit_stmt(*ele, st, is_main) == Some(stf));
                    lemma_emit_scope_labels(*scope, st1, is_main);
                    lemma_emit_chain_labels(*chain, st3, normal_label as int, is_main);
                    // prefix and appended label bounds, piece by piece
                    assert(st1.lines.take(st.lines.len() as int) =~= st.lines);
                    assert(no_labels(st1.lines.skip(st.lines.len() as int))) by {
                        lemma_no_labels_concat(
                            spec_emit_expr(*expr, st.frames, st.depth),
                            seq![
                                SpecAsmLine::Pop(Reg::X1),
                                SpecAsmLine::CmpX1Zero,
                                SpecAsmLine::BranchEq(next_label as int),
                            ],
                        );
                        assert(st1.lines.skip(st.lines.len() as int) =~= spec_emit_expr(
                            *expr,
                            st.frames,
                            st.depth,
                        ) + seq![
                            SpecAsmLine::Pop(Reg::X1),
                            SpecAsmLine::CmpX1Zero,
                            SpecAsmLine::BranchEq(next_label as int),
                        ]);
                    }
                    lemma_no_labels_bounded(
                        st1.lines.skip(st.lines.len() as int),
                        st.labels,
                        st1.labels,
                    );
                    lemma_extend_compose(
                        st.lines,
                        st1.lines,
                        st2.lines,
                        st.labels,
                        st1.labels,
                        st2.labels,
                    );
                    assert(st3.lines.take(st2.lines.len() as int) =~= st2.lines);
                    assert(st3.lines.skip(st2.lines.len() as int) =~= seq![
                        SpecAsmLine::MovX2Zero,
                        SpecAsmLine::CmpX2Zero,
                        SpecAsmLine::BranchEq(normal_label as int),
                        SpecAsmLine::LabelDef(next_label as int),
                    ]);
                    assert(labels_bounded(
                        st3.lines.skip(st2.lines.len() as int),
                        st.labels,
                        st3.labels,
                    ));
                    lemma_extend_compose(
                        st.lines,
                        st2.lines,
                        st3.lines,
                        st.labels,
                        st2.labels,
                        st3.labels,
                    );
                    lemma_extend_compose(
                        st.lines,
                        st3.lines,
                        st4.lines,
                        st.labels,
                        st3.labels,
                        st4.labels,
                    );
                    assert(stf.lines.take(st4.lines.len() as int) =~= st4.lines);
                    assert(stf.lines.skip(st4.lines.len() as int) =~= seq![
                        SpecAsmLine::LabelDef(normal_label as int),
                    ]);
                    assert(labels_bounded(
                        stf.lines.skip(st4.lines.len() as int),
                        st.labels,
                        stf.labels,
                    ));
                    lemma_extend_compose(
                        st.lines,
                        st4.lines,
                        stf.lines,
                        st.labels,
                        st4.labels,
                        stf.labels,
                    );
                }
                Ok(())
            },
            NodeStmt::ReAssign { expr, ident } => {
                let name = match &ident.token {
                    Token::Ident(n) => n,
                    _ => {
                        return Err(CompileError::ExpectedIdentifier { line: ident.line });
                    },
                };
                let variable = match self.get_variable(name) {
                    None => {
                        return Err(CompileError::NotDeclared {
                            name: name.clone(),
                            line: ident.line,
                        });
                    },
                    Some(v) => v,
                };
                proof {
                    crate::codegen::code_gen_structs::lemma_lookup_slot_bound(
                        old(self).frames(),
                        name@,
                        old(self).depth(),
                    );
                }
                let offset = self.current_stack_pointer() - variable.stack_location;
                match self.parse_expr(expr) {
                    Err(e) => {
                        return Err(e);
                    },
                    Ok(()) => {},
                }
                proof {
                    assert(frames_slots_le(self.frames(), self.depth() - 1));
                }
                self.pop(Reg::X1);
                self.buffer_push(AsmLine::StoreVar(offset));
                proof {
                    let st2 = gen_state(*self);
                    assert(st2.lines =~= st.lines + spec_emit_expr(*expr, st.frames, st.depth)
                        + seq![
                        SpecAsmLine::Pop(Reg::X1),
                        SpecAsmLine::StoreVar(st.depth - variable.stack_location),
                    ]);
                    assert(spec_emit_stmt(*ele, st, is_main) == Some(st2));
                    lemma_emit_expr_no_labels(*expr, st.frames, st.depth);
                    assert(final(self).lines().take(old(self).lines().len() as int) =~= old(self).lines());
                    let app = final(self).lines().skip(old(self).lines().len() as int);
                    assert(no_labels(app)) by {
                        assert(forall|i: int|
                            0 <= i < spec_emit_expr(*expr, st.frames, st.depth).len() ==> app[i]
                                == spec_emit_expr(*expr, st.frames, st.depth)[i]);
                    }
                    lemma_no_labels_bounded(
                        app,
                        old(self).label_index as int,
                        final(self).label_index as int,
                    );
                }
                Ok(())
            },
        }
    }

    /// Emits a braced block: a fresh scope, the statements, one teardown
    /// that releases exactly what the block pushed, and the scope dropped.
    #[verifier::rlimit(100)]
    #[verifier::spinoff_prover]
    pub(crate) fn generate_scope(&mut self, scope: &NodeScope, is_main: bool) -> (r: Result<
        (),
        CompileError,
    >)
        requires
            old(self).wf(),
        ensures
            final(self).wf(),
            final(self).m_func_name == old(self).m_func_name,
            old(self).label_index <= final(self).label_index,
            r is Ok <==> (spec_emit_scope(*scope, gen_state(*old(self)), is_main) is Some && old(self).label_index + label_weight_stmts(scope.0@) <= usize::MAX),
            r is Ok ==> spec_emit_scope(*scope, gen_state(*old(self)), is_main) == Some(
                gen_state(*final(self)),
            ),
            r is Ok ==> old(self).lines().len() <= final(self).lines().len() && final(self).lines().take(old(self).lines().len() as int) == old(self).lines()
                && labels_bounded(
                final(self).lines().skip(old(self).lines().len() as int),
                old(self).label_index as int,
                final(self).label_index as int,
            ),
            r is Ok ==> final(self).frames() == old(self).frames() && final(self).depth() == old(self).depth(),
            r matches Err(e) ==> (e is AlreadyDefined || e is UndefinedVariable || e is NotDeclared
                || e is ExpectedIdentifier || e is TooManyLabels),
        decreases *scope,
    {
        let ghost st = gen_state(*old(self));
        self.begin_scope();
        let ghost st1 = EmitState {
            lines: st.lines,
            frames: st.frames.push(Seq::empty()),
            depth: st.depth,
            labels: st.labels,
        };
        proof {
            assert(gen_state(*self) == st1);
            assert(scope.0@.skip(0) =~= scope.0@);
        }
        let begin_stack_pointer = self.current_stack_pointer();
        let n = scope.0.len();
        let mut i: usize = 0;
        while i < n
            invariant
                self.wf(),
                n == scope.0@.len(),
                i <= n,
                self.m_func_name == old(self).m_func_name,
                st1.labels <= self.label_index as int,
                st1.lines.len() <= self.lines().len(),
                self.lines().take(st1.lines.len() as int) == st1.lines,
                labels_bounded(
                    self.lines().skip(st1.lines.len() as int),
                    st1.labels,
                    self.label_index as int,
                ),
                spec_emit_stmts(scope.0@, st1, is_main) == spec_emit_stmts(
                    scope.0@.skip(i as int),
                    gen_state(*self),
                    is_main,
                ),
                st1.labels + label_weight_stmts(scope.0@) == self.label_index as int
                    + label_weight_stmts(scope.0@.skip(i as int)),
                self.frames().len() == st1.frames.len(),
                forall|k: int|
                    0 <= k < self.frames().len() - 1 ==> self.frames()[k] == st1.frames[k],
                self.depth() >= st1.depth,
                st1.depth == old(self).depth(),
                begin_stack_pointer as int == st1.depth,
            decreases n - i,
        {
            let ghost pre = gen_state(*self);
            let ghost mid_pre = *self;
            proof {
                assert(scope.0@.skip(i as int)[0] == scope.0@[i as int]);
                assert(scope.0@.skip(i as int).drop_first() =~= scope.0@.skip(i as int + 1));
                assert(label_weight_stmts(scope.0@.skip(i as int)) == label_weight_stmt(
                    scope.0@[i as int],
                ) + label_weight_stmts(scope.0@.skip(i as int + 1)));
                assert(decreases_to!(*scope => scope.0@[i as int]));
            }
            match self.generate_stmt(&scope.0[i], is_main) {
                Err(e) => {
                    return Err(e);
                },
                Ok(()) => {},
            }
            proof {
                lemma_emit_stmt_labels(scope.0@[i as int], pre, is_main);
                lemma_extend_compose(
                    st1.lines,
                    mid_pre.lines(),
                    self.lines(),
                    st1.labels,
                    mid_pre.label_index as int,
                    self.label_index as int,
                );
            }
            i += 1;
        }
        proof {
            assert(scope.0@.skip(n as int) =~= Seq::<NodeStmt>::empty());
            lemma_emit_stmts_labels(scope.0@, st1, is_main);
        }
        let ghost st2 = gen_state(*self);
        let current_stack_pointer = self.current_stack_pointer();
        let difference = current_stack_pointer - begin_stack_pointer;
        self.end_scope();
        proof {
            assert forall|k: int| 0 <= k < self.frames().len() implies (#[trigger] self.frames()[
                k
            ]) == st.frames[k] by {
                assert(self.frames()[k] == st2.frames[k]);
                assert(st2.frames[k] == st1.frames[k]);
                assert(st1.frames[k] == st.frames[k]);
            }
            assert(frames_slots_le(self.frames(), st1.depth));
        }
        self.clear_stack(difference);
        proof {
            let stf = gen_state(*self);
            assert(stf.frames =~~= st2.frames.drop_last());
            assert(stf.lines =~= st2.lines + seq![
                SpecAsmLine::ReleaseSlots(st2.depth - st.depth),
            ]);
            assert(spec_emit_scope(*scope, st, is_main) == Some(stf));
            assert(stf.frames =~~= st.frames);
            assert(stf.lines.take(st2.lines.len() as int) =~= st2.lines);
            lemma_extend_compose(
                st.lines,
                st2.lines,
                stf.lines,
                st.labels,
                st2.labels,
                stf.labels,
            );
        }
        Ok(())
    }

    /// Emits the continuation of an `if`: each `elif` tests and branches to
    /// its own next label, every taken branch jumps to `normal_label`, and a
    /// final `else` emits its block directly.
    #[verifier::rlimit(100)]
    #[verifier::spinoff_prover]
    pub(crate) fn generate_node_else(
        &mut self,
        node_else: &Option<NodeElse>,
        normal_label: usize,
        is_main: bool,
    ) -> (r: Result<(), CompileError>)
        requires
            old(self).wf(),
        ensures
            final(self).wf(),
            final(self).m_func_name == old(self).m_func_name,
            old(self).label_index <= final(self).label_index,
            r is Ok <==> (spec_emit_chain(
                *node_else,
                gen_state(*old(self)),
                normal_label as int,
                is_main,
            ) is Some && old(self).label_index + label_weight_chain(*node_else) <= usize::MAX),
            r is Ok ==> spec_emit_chain(
                *node_else,
                gen_state(*old(self)),
                normal_label as int,
                is_main,
            ) == Some(gen_state(*final(self))),
            r is Ok ==> old(self).lines().len() <= final(self).lines().len() && final(self).lines().take(old(self).lines().len() as int) == old(self).lines()
                && labels_bounded(
                final(self).lines().skip(old(self).lines().len() as int),
                old(self).label_index as int,
                final(self).label_index as int,
            ),
            r is Ok ==> final(self).frames() == old(self).frames() && final(self).depth() == old(self).depth(),
            r matches Err(e) ==> (e is AlreadyDefined || e is UndefinedVariable || e is NotDeclared
                || e is ExpectedIdentifier || e is TooManyLabels),
        decreases *node_else,
    {
        let ghost st = gen_state(*old(self));
        match node_else {
            None => {
                proof {
                    assert(final(self).lines().take(old(self).lines().len() as int) =~= old(self).lines());
                    assert(labels_bounded(
                        final(self).lines().skip(old(self).lines().len() as int),
                        old(self).label_index as int,
                        final(self).label_index as int,
                    ));
                }
                Ok(())
            },
            Some(NodeElse::Else(scope)) => {
                match self.generate_scope(scope, is_main) {
                    Err(e) => Err(e),
                    Ok(()) => Ok(()),
                }
            },
            Some(NodeElse::ElseIf { expr, scope, chain }) => {
                match self.parse_expr(expr) {
                    Err(e) => {
                        proof {
                            assert(spec_emit_chain(
                                *node_else,
                                st,
                                normal_label as int,
                                is_main,
                            ) is None);
                        }
                        return Err(e);
                    },
                    Ok(()) => {},
                }
                proof {
                    assert(frames_slots_le(self.frames(), self.depth() - 1));
                }
                self.pop(Reg::X1);
                let label = match self.create_label() {
                    Err(e) => {
                        proof {
                            assert(label_weight_chain(*node_else) >= 1);
                        }
                        return Err(e);
                    },
                    Ok(n) => n,
                };
                self.buffer_push(AsmLine::CmpX1Zero);
                self.buffer_push(AsmLine::BranchEq(label));
                let ghost st1 = EmitState {
                    lines: st.lines + spec_emit_expr(*expr, st.frames, st.depth) + seq![
                        SpecAsmLine::Pop(Reg::X1),
                        SpecAsmLine::CmpX1Zero,
                        SpecAsmLine::BranchEq(label as int),
                    ],
                    frames: st.frames,
                    depth: st.depth,
                    labels: st.labels + 1,
                };
                proof {
                    assert(gen_state(*self).lines =~= st1.lines);
                    assert(gen_state(*self) == st1);
                }
                match self.generate_scope(scope, is_main) {
                    Err(e) => {
                        proof {
                            if spec_emit_chain(*node_else, st, normal_label as int, is_main)
                                is Some && st.labels + label_weight_chain(*node_else)
                                <= usize::MAX {
                                assert(spec_emit_scope(*scope, st1, is_main) is Some);
                                assert(st1.labels + label_weight_stmts(scope.0@) <= usize::MAX);
                            }
                        }
                        return Err(e);
                    },
                    Ok(()) => {},
                }
                let ghost st2 = gen_state(*self);
                let ghost mid2 = *self;
                self.buffer_push(AsmLine::MovX2Zero);
                self.buffer_push(AsmLine::CmpX2Zero);
                self.buffer_push(AsmLine::BranchEq(normal_label));
                proof {
                    lemma_emit_expr_no_labels(*expr, st.frames, st.depth);
                    assert(!has_label(self.lines(), label as int)) by {
                        lemma_bounded_not_has(st.lines, 0, st.labels, label as int);
                        lemma_no_labels_not_has(
                            spec_emit_expr(*expr, st.frames, st.depth),
                            label as int,
                        );
                        lemma_no_labels_not_has(
                            seq![
                                SpecAsmLine::Pop(Reg::X1),
                                SpecAsmLine::CmpX1Zero,
                                SpecAsmLine::BranchEq(label as int),
                            ],
                            label as int,
                        );
                        lemma_has_label_concat(
                            st.lines,
                            spec_emit_expr(*expr, st.frames, st.depth),
                            label as int,
                        );
                        lemma_has_label_concat(
                            st.lines + spec_emit_expr(*expr, st.frames, st.depth),
                            seq![
                                SpecAsmLine::Pop(Reg::X1),
                                SpecAsmLine::CmpX1Zero,
                                SpecAsmLine::BranchEq(label as int),
                            ],
                            label as int,
                        );
                        lemma_bounded_not_has(
                            mid2.lines().skip(st1.lines.len() as int),
                            st1.labels,
                            mid2.label_index as int,
                            label as int,
                        );
                        lemma_has_label_concat(
                            st1.lines,
                            mid2.lines().skip(st1.lines.len() as int),
                            label as int,
                        );
                        assert(mid2.lines() =~= st1.lines + mid2.lines().skip(
                            st1.lines.len() as int,
                        ));
                        lemma_no_labels_not_has(
                            seq![
                                SpecAsmLine::MovX2Zero,
                                SpecAsmLine::CmpX2Zero,
                                SpecAsmLine::BranchEq(normal_label as int),
                            ],
                            label as int,
                        );
                        lemma_has_label_concat(
                            mid2.lines(),
                            seq![
                                SpecAsmLine::MovX2Zero,
                                SpecAsmLine::CmpX2Zero,
                                SpecAsmLine::BranchEq(normal_label as int),
                            ],
                            label as int,
                        );
                        assert(self.lines() =~= mid2.lines() + seq![
                            SpecAsmLine::MovX2Zero,
                            SpecAsmLine::CmpX2Zero,
                            SpecAsmLine::BranchEq(normal_label as int),
                        ]);
                    }
                }
                self.place_label(label);
                let ghost st3 = EmitState {
                    lines: st2.lines + seq![
                        SpecAsmLine::MovX2Zero,
                        SpecAsmLine::CmpX2Zero,
                        SpecAsmLine::BranchEq(normal_label as int),
                        SpecAsmLine::LabelDef(label as int),
                    ],
                    frames: st2.frames,
                    depth: st2.depth,
                    labels: st2.labels,
                };
                proof {
                    assert(gen_state(*self).lines =~= st3.lines);
                    assert(gen_state(*self) == st3);
                }
                let ghost mid3 = *self;
                match self.generate_node_else(chain, normal_label, is_main) {
                    Err(e) => {
                        proof {
                            lemma_emit_scope_labels(*scope, st1, is_main);
                            if spec_emit_chain(*node_else, st, normal_label as int, is_main)
                                is Some && st.labels + label_weight_chain(*node_else)
                                <= usize::MAX {
                                assert(spec_emit_chain(
                                    **chain,
                                    st3,
                                    normal_label as int,
                                    is_main,
                                ) is Some);
                                assert(st3.labels + label_weight_chain(**chain) <= usize::MAX);
                            }
                        }
                        return Err(e);
                    },
                    Ok(()) => {},
                }
                proof {
                    let stf = gen_state(*self);
                    assert(spec_emit_chain(*node_else, st, normal_label as int, is_main) == Some(
                        stf,
                    ));
                    lemma_emit_scope_labels(*scope, st1, is_main);
                    lemma_emit_chain_labels(**chain, st3, normal_label as int, is_main);
                    // prefix and label bounds composition
                    assert(st1.lines.take(st.lines.len() as int) =~= st.lines);
                    assert(no_labels(st1.lines.skip(st.lines.len() as int))) by {
                        lemma_no_labels_concat(
                            spec_emit_expr(*expr, st.frames, st.depth),
                            seq![
                                SpecAsmLine::Pop(Reg::X1),
                                SpecAsmLine::CmpX1Zero,
                                SpecAsmLine::BranchEq(label as int),
                            ],
                        );
                        assert(st1.lines.skip(st.lines.len() as int) =~= spec_emit_expr(
                            *expr,
                            st.frames,
                            st.depth,
                        ) + seq![
                            SpecAsmLine::Pop(Reg::X1),
                            SpecAsmLine::CmpX1Zero,
                            SpecAsmLine::BranchEq(label as int),
                        ]);
                    }
                    lemma_no_labels_bounded(
                        st1.lines.skip(st.lines.len() as int),
                        st.labels,
                        st1.labels,
                    );
                    lemma_extend_compose(
                        st.lines,
                        st1.lines,
                        st2.lines,
                        st.labels,
                        st1.labels,
                        st2.labels,
                    );
                    assert(st3.lines.take(st2.lines.len() as int) =~= st2.lines);
                    assert(labels_bounded(
                        st3.lines.skip(st2.lines.len() as int),
                        st.labels,
                        st3.labels,
                    ));
                    lemma_extend_compose(
                        st.lines,
                        st2.lines,
                        st3.lines,
                        st.labels,
                        st2.labels,
                        st3.labels,
                    );
                    lemma_extend_compose(
                        st.lines,
                        st3.lines,
                        stf.lines,
                        st.labels,
                        st3.labels,
                        stf.labels,
                    );
                }
                Ok(())
            },
        }
    }

    /// Emits one whole function: entry label, body, one teardown for all of
    /// its slots, and a final `RET` unless it is `main`.
    #[verifier::rlimit(100)]
    #[verifier::spinoff_prover]
    pub(crate) fn gen_func(&mut self, func: &NodeFunc) -> (r: Result<(), CompileError>)
        requires
            old(self).wf(),
        ensures
            final(self).wf(),
            old(self).label_index <= final(self).label_index,
            r is Ok <==> (spec_emit_func(*func, old(self).label_index as int, old(self).lines())
                is Some && old(self).label_index + label_weight_stmts(func.stmts@) <= usize::MAX),
            r is Ok ==> spec_emit_func(*func, old(self).label_index as int, old(self).lines())
                == Some((final(self).lines(), final(self).label_index as int)),
            r matches Err(e) ==> (e is AlreadyDefined || e is UndefinedVariable || e is NotDeclared
                || e is ExpectedIdentifier || e is TooManyLabels),
    {
        let main_name: String = String::from_str("main");
        let is_main = func.f_name == main_name;
        self.begin_func(func.f_name.clone());
        if is_main {
            self.buffer_push(AsmLine::StartLabel);
        } else {
            self.buffer_push(AsmLine::FuncLabel(func.f_name.clone()));
        }
        let ghost st0 = EmitState {
            lines: old(self).lines() + (if is_main {
                seq![SpecAsmLine::StartLabel]
            } else {
                seq![SpecAsmLine::FuncLabel(func.f_name@)]
            }),
            frames: seq![Seq::<(Seq<char>, Var)>::empty()],
            depth: 0,
            labels: old(self).label_index as int,
        };
        proof {
            assert(gen_state(*self).lines =~= st0.lines);
            assert(gen_state(*self) == st0);
            assert(func.stmts@.skip(0) =~= func.stmts@);
        }
        let n = func.stmts.len();
        let mut i: usize = 0;
        while i < n
            invariant
                self.wf(),
                n == func.stmts@.len(),
                i <= n,
                spec_emit_stmts(func.stmts@, st0, is_main) == spec_emit_stmts(
                    func.stmts@.skip(i as int),
                    gen_state(*self),
                    is_main,
                ),
                st0.labels + label_weight_stmts(func.stmts@) == self.label_index as int
                    + label_weight_stmts(func.stmts@.skip(i as int)),
                st0.labels <= self.label_index as int,
            decreases n - i,
        {
            let ghost pre = gen_state(*self);
            proof {
                assert(func.stmts@.skip(i as int)[0] == func.stmts@[i as int]);
                assert(func.stmts@.skip(i as int).drop_first() =~= func.stmts@.skip(i as int + 1));
                assert(label_weight_stmts(func.stmts@.skip(i as int)) == label_weight_stmt(
                    func.stmts@[i as int],
                ) + label_weight_stmts(func.stmts@.skip(i as int + 1)));
            }
            match self.generate_stmt(&func.stmts[i], is_main) {
                Err(e) => {
                    return Err(e);
                },
                Ok(()) => {},
            }
            proof {
                lemma_emit_stmt_labels(func.stmts@[i as int], pre, is_main);
            }
            i += 1;
        }
        proof {
            assert(func.stmts@.skip(n as int) =~= Seq::<NodeStmt>::empty());
            lemma_emit_stmts_labels(func.stmts@, st0, is_main);
        }
        let ghost st1 = gen_state(*self);
        self.end_func();
        if !is_main {
            self.buffer_push(AsmLine::Ret);
        }
        proof {
            assert(final(self).lines() =~= st1.lines + seq![
                SpecAsmLine::ReleaseSlots(st1.depth),
            ] + (if is_main {
                Seq::<SpecAsmLine>::empty()
            } else {
                seq![SpecAsmLine::Ret]
            }));
            assert(spec_emit_func(*func, old(self).label_index as int, old(self).lines()) == Some(
                (final(self).lines(), final(self).label_index as int),
            ));
        }
        Ok(())
    }
}

/// Exact label accounting at function level.
pub proof fn lemma_emit_func_labels(f: NodeFunc, labels: int, already: Seq<SpecAsmLine>)
    ensures
        spec_emit_func(f, labels, already) matches Some(p) ==> p.1 == labels + label_weight_stmts(
            f.stmts@,
        ),
{
    let is_main = f.f_name@ == "main"@;
    let head = if is_main {
        seq![SpecAsmLine::StartLabel]
    } else {
        seq![SpecAsmLine::FuncLabel(f.f_name@)]
    };
    let st0 = EmitState {
        lines: already + head,
        frames: seq![Seq::<(Seq<char>, Var)>::empty()],
        depth: 0,
        labels,
    };
    lemma_emit_stmts_labels(f.stmts@, st0, is_main);
}

/// Walks the AST and emits the whole program as structured assembly lines:
/// the prologue, then each function in order. On success the output is
/// exactly `spec_emit_program`, and every label it defines is unique.
pub fn generate_code(node_root: &NodeRoot) -> (r: Result<Vec<AsmLine>, CompileError>)
    ensures
        r is Ok <==> (spec_emit_program(*node_root) is Some && label_weight_funcs(
            node_root.funcs@,
        ) <= usize::MAX),
        r matches Ok(v) ==> spec_emit_program(*node_root) == Some(view_lines(v@))
            && labels_distinct(view_lines(v@)),
        r matches Err(e) ==> (e is AlreadyDefined || e is UndefinedVariable || e is NotDeclared
            || e is ExpectedIdentifier || e is TooManyLabels),
{
    let mut generator = Generator::new();
    generator.buffer_push(AsmLine::Global);
    generator.buffer_push(AsmLine::Align);
    let ghost lines0 = seq![SpecAsmLine::Global, SpecAsmLine::Align];
    proof {
        assert(generator.lines() =~= lines0);
        assert(node_root.funcs@.skip(0) =~= node_root.funcs@);
    }
    let n = node_root.funcs.len();
    let mut i: usize = 0;
    while i < n
        invariant
            generator.wf(),
            n == node_root.funcs@.len(),
            i <= n,
            spec_emit_funcs(node_root.funcs@, 0, lines0) == spec_emit_funcs(
                node_root.funcs@.skip(i as int),
                generator.label_index as int,
                generator.lines(),
            ),
            label_weight_funcs(node_root.funcs@) == generator.label_index as int
                + label_weight_funcs(node_root.funcs@.skip(i as int)),
        decreases n - i,
    {
        let ghost pre = generator;
        proof {
            assert(node_root.funcs@.skip(i as int)[0] == node_root.funcs@[i as int]);
            assert(node_root.funcs@.skip(i as int).drop_first() =~= node_root.funcs@.skip(
                i as int + 1,
            ));
            assert(label_weight_funcs(node_root.funcs@.skip(i as int)) == label_weight_stmts(
                node_root.funcs@[i as int].stmts@,
            ) + label_weight_funcs(node_root.funcs@.skip(i as int + 1)));
        }
        match generator.gen_func(&node_root.funcs[i]) {
            Err(e) => {
                return Err(e);
            },
            Ok(()) => {},
        }
        proof {
            lemma_emit_func_labels(
                node_root.funcs@[i as int],
                pre.label_index as int,
                pre.lines(),
            );
        }
        i += 1;
    }
    proof {
        assert(node_root.funcs@.skip(n as int) =~= Seq::<NodeFunc>::empty());
    }
    Ok(generator.buffer)
}

} // verus!
