//! Expression emission. Code is emitted post-order and always leaves the
//! expression's value pushed on top of the simulated stack, so every
//! successful emission raises the tracked depth by exactly one. The exact
//! lines are pinned by the specification functions `spec_emit_expr` and
//! `spec_emit_term`.

use vstd::prelude::*;
use crate::assembly::{AsmLine, CondCode, Reg, SpecAsmLine};
use crate::codegen::code_gen_structs::{frames_slots_le, spec_lookup, Frames, Generator};
use crate::errors::CompileError;
use crate::parsing::{NodeBiExpr, NodeBiOp, NodeExpr, NodeTermExpr};

verus! {

/// Whether every identifier an expression reads is visible in `frames`.
pub open spec fn expr_ok(e: NodeExpr, frames: Frames) -> bool
    decreases e,
{
    match e {
        NodeExpr::BinaryExpr(b) => expr_ok(b.lhs, frames) && expr_ok(b.rhs, frames),
        NodeExpr::Term(t) => term_ok(t, frames),
        NodeExpr::Call(_) => true,
    }
}

/// Whether every identifier a term reads is visible in `frames`.
pub open spec fn term_ok(t: NodeTermExpr, frames: Frames) -> bool
    decreases t,
{
    match t {
        NodeTermExpr::Identifier(s) => spec_lookup(frames, s@) is Some,
        NodeTermExpr::Expression(inner) => expr_ok(*inner, frames),
        _ => true,
    }
}

/// The first identifier, in evaluation order, that an expression reads
/// without a visible binding; meaningful only when `!expr_ok(e, frames)`.
pub open spec fn expr_first_undef(e: NodeExpr, frames: Frames) -> Seq<char>
    decreases e,
{
    match e {
        NodeExpr::BinaryExpr(b) => if !expr_ok(b.lhs, frames) {
            expr_first_undef(b.lhs, frames)
        } else {
            expr_first_undef(b.rhs, frames)
        },
        NodeExpr::Term(t) => term_first_undef(t, frames),
        NodeExpr::Call(_) => Seq::empty(),
    }
}

/// The first unbound identifier of a term.
pub open spec fn term_first_undef(t: NodeTermExpr, frames: Frames) -> Seq<char>
    decreases t,
{
    match t {
        NodeTermExpr::Identifier(s) => s@,
        NodeTermExpr::Expression(inner) => expr_first_undef(*inner, frames),
        _ => Seq::empty(),
    }
}

/// The lines that compute a binary operator over `X1` (left) and `X2`
/// (right) and push the result.
pub open spec fn spec_emit_op(op: NodeBiOp) -> Seq<SpecAsmLine> {
    match op {
        NodeBiOp::Add => seq![SpecAsmLine::AddOp, SpecAsmLine::Push(Reg::X1)],
        NodeBiOp::Multiply => seq![SpecAsmLine::MulOp, SpecAsmLine::Push(Reg::X1)],
        NodeBiOp::Subtract => seq![SpecAsmLine::SubOp, SpecAsmLine::Push(Reg::X1)],
        NodeBiOp::Division => seq![SpecAsmLine::DivOp, SpecAsmLine::Push(Reg::X1)],
        NodeBiOp::Equality => seq![
            SpecAsmLine::SubOp,
            SpecAsmLine::Cset(CondCode::Eq),
            SpecAsmLine::Push(Reg::X1),
        ],
        NodeBiOp::Or => seq![
            SpecAsmLine::MovX0Zero,
            SpecAsmLine::CmnX1X2,
            SpecAsmLine::CsetX0Ne,
            SpecAsmLine::OrrX0,
            SpecAsmLine::Push(Reg::X0),
        ],
        NodeBiOp::And => seq![
            SpecAsmLine::MovX3Zero,
            SpecAsmLine::MovX4Zero,
            SpecAsmLine::CmnX1X2,
            SpecAsmLine::CsetX3Ne,
            SpecAsmLine::CmnX1X1,
            SpecAsmLine::CsetX4Ne,
            SpecAsmLine::AndX3,
            SpecAsmLine::Push(Reg::X3),
        ],
        NodeBiOp::GreaterThan => seq![
            SpecAsmLine::CmpOp,
            SpecAsmLine::Cset(CondCode::Gt),
            SpecAsmLine::Push(Reg::X1),
        ],
        NodeBiOp::LessThan => seq![
            SpecAsmLine::CmpOp,
            SpecAsmLine::Cset(CondCode::Lt),
            SpecAsmLine::Push(Reg::X1),
        ],
        NodeBiOp::LessThanEqual => seq![
            SpecAsmLine::CmpOp,
            SpecAsmLine::Cset(CondCode::Le),
            SpecAsmLine::Push(Reg::X1),
        ],
        NodeBiOp::GreaterThanEqual => seq![
            SpecAsmLine::CmpOp,
            SpecAsmLine::Cset(CondCode::Ge),
            SpecAsmLine::Push(Reg::X1),
        ],
    }
}

/// The lines that evaluate an expression at tracked depth `depth` under
/// `frames` and leave its value pushed. Meaningful only when
/// `expr_ok(e, frames)` holds.
pub open spec fn spec_emit_expr(e: NodeExpr, frames: Frames, depth: int) -> Seq<SpecAsmLine>
    decreases e,
{
    match e {
        NodeExpr::BinaryExpr(b) => spec_emit_expr(b.lhs, frames, depth) + spec_emit_expr(
            b.rhs,
            frames,
            depth + 1,
        ) + seq![SpecAsmLine::Pop(Reg::X2), SpecAsmLine::Pop(Reg::X1)] + spec_emit_op(b.op),
        NodeExpr::Term(t) => spec_emit_term(t, frames, depth),
        NodeExpr::Call(name) => seq![
            SpecAsmLine::CallSaveLink,
            SpecAsmLine::Bl(name@),
            SpecAsmLine::CallRestoreLink,
            SpecAsmLine::Push(Reg::X0),
        ],
    }
}

/// The lines that evaluate a term.
pub open spec fn spec_emit_term(t: NodeTermExpr, frames: Frames, depth: int) -> Seq<SpecAsmLine>
    decreases t,
{
    match t {
        NodeTermExpr::IntLiteral(s) => seq![
            SpecAsmLine::MovInt(s@),
            SpecAsmLine::Push(Reg::X1),
        ],
        NodeTermExpr::BooleanLiteral(b) => seq![
            SpecAsmLine::MovBool(b),
            SpecAsmLine::Push(Reg::X1),
        ],
        NodeTermExpr::Identifier(s) => match spec_lookup(frames, s@) {
            Some(v) => seq![
                SpecAsmLine::LoadVar(depth - v.stack_location),
                SpecAsmLine::Push(Reg::X1),
            ],
            None => Seq::empty(),
        },
        NodeTermExpr::Expression(inner) => spec_emit_expr(*inner, frames, depth),
    }
}

impl Generator {
    /// Emits the code of one expression: on success the tracked depth rises
    /// by one and the appended lines are exactly `spec_emit_expr`.
    pub fn parse_expr(&mut self, expr: &NodeExpr) -> (r: Result<(), CompileError>)
        requires
            old(self).wf(),
        ensures
            final(self).wf(),
            final(self).label_index == old(self).label_index,
            final(self).m_func_name == old(self).m_func_name,
            final(self).frames() == old(self).frames(),
            r is Ok <==> expr_ok(*expr, old(self).frames()),
            r is Ok ==> final(self).depth() == old(self).depth() + 1 && final(self).lines() == old(
                self,
            ).lines() + spec_emit_expr(*expr, old(self).frames(), old(self).depth()),
            r matches Err(e) ==> e matches CompileError::UndefinedVariable { name } && name@
                == expr_first_undef(*expr, old(self).frames()),
        decreases *expr, 1int,
    {
        match expr {
            NodeExpr::BinaryExpr(binary_expr) => self.parse_binary_expr(binary_expr),
            NodeExpr::Term(rhs_term) => self.parse_term(rhs_term),
            NodeExpr::Call(f_name) => {
                let ghost l0 = old(self).lines();
                self.buffer_push(AsmLine::CallSaveLink);
                self.buffer_push(AsmLine::Bl(f_name.clone()));
                self.buffer_push(AsmLine::CallRestoreLink);
                self.push(Reg::X0);
                proof {
                    assert(final(self).lines() =~= l0 + spec_emit_expr(
                        *expr,
                        old(self).frames(),
                        old(self).depth(),
                    ));
                }
                Ok(())
            },
        }
    }

    /// Emits a binary expression: left operand, right operand one slot
    /// deeper, both popped, then the operator's lines.
    fn parse_binary_expr(&mut self, binary_expr: &NodeBiExpr) -> (r: Result<(), CompileError>)
        requires
            old(self).wf(),
        ensures
            final(self).wf(),
            final(self).label_index == old(self).label_index,
            final(self).m_func_name == old(self).m_func_name,
            final(self).frames() == old(self).frames(),
            r is Ok <==> expr_ok(binary_expr.lhs, old(self).frames()) && expr_ok(
                binary_expr.rhs,
                old(self).frames(),
            ),
            r is Ok ==> final(self).depth() == old(self).depth() + 1 && final(self).lines() == old(
                self,
            ).lines() + (spec_emit_expr(binary_expr.lhs, old(self).frames(), old(self).depth())
                + spec_emit_expr(binary_expr.rhs, old(self).frames(), old(self).depth() + 1)
                + seq![SpecAsmLine::Pop(Reg::X2), SpecAsmLine::Pop(Reg::X1)] + spec_emit_op(
                binary_expr.op,
            )),
            r matches Err(e) ==> e matches CompileError::UndefinedVariable { name } && name@ == (
            if !expr_ok(binary_expr.lhs, old(self).frames()) {
                expr_first_undef(binary_expr.lhs, old(self).frames())
            } else {
                expr_first_undef(binary_expr.rhs, old(self).frames())
            }),
        decreases *binary_expr, 0int,
    {
        let ghost l0 = old(self).lines();
        let ghost f0 = old(self).frames();
        let ghost d0 = old(self).depth();
        match self.parse_expr(&binary_expr.lhs) {
            Err(e) => {
                return Err(e);
            },
            Ok(()) => {},
        }
        match self.parse_expr(&binary_expr.rhs) {
            Err(e) => {
                return Err(e);
            },
            Ok(()) => {},
        }
        proof {
            assert(frames_slots_le(f0, d0));
        }
        self.pop(Reg::X2);
        self.pop(Reg::X1);
        let ghost before_op = self.lines();
        match binary_expr.op {
            NodeBiOp::Add => {
                self.buffer_push(AsmLine::AddOp);
                self.push(Reg::X1);
            },
            NodeBiOp::Multiply => {
                self.buffer_push(AsmLine::MulOp);
                self.push(Reg::X1);
            },
            NodeBiOp::Subtract => {
                self.buffer_push(AsmLine::SubOp);
                self.push(Reg::X1);
            },
            NodeBiOp::Division => {
                self.buffer_push(AsmLine::DivOp);
                self.push(Reg::X1);
            },
            NodeBiOp::Equality => {
                self.buffer_push(AsmLine::SubOp);
                self.buffer_push(AsmLine::Cset(CondCode::Eq));
                self.push(Reg::X1);
            },
            NodeBiOp::Or => {
                self.buffer_push(AsmLine::MovX0Zero);
                self.buffer_push(AsmLine::CmnX1X2);
                self.buffer_push(AsmLine::CsetX0Ne);
                self.buffer_push(AsmLine::OrrX0);
                self.push(Reg::X0);
            },
            NodeBiOp::And => {
                self.buffer_push(AsmLine::MovX3Zero);
                self.buffer_push(AsmLine::MovX4Zero);
                self.buffer_push(AsmLine::CmnX1X2);
                self.buffer_push(AsmLine::CsetX3Ne);
                self.buffer_push(AsmLine::CmnX1X1);
                self.buffer_push(AsmLine::CsetX4Ne);
                self.buffer_push(AsmLine::AndX3);
                self.push(Reg::X3);
            },
            NodeBiOp::GreaterThan => {
                self.buffer_push(AsmLine::CmpOp);
                self.buffer_push(AsmLine::Cset(CondCode::Gt));
                self.push(Reg::X1);
            },
            NodeBiOp::LessThan => {
                self.buffer_push(AsmLine::CmpOp);
                self.buffer_push(AsmLine::Cset(CondCode::Lt));
                self.push(Reg::X1);
            },
            NodeBiOp::LessThanEqual => {
                self.buffer_push(AsmLine::CmpOp);
                self.buffer_push(AsmLine::Cset(CondCode::Le));
                self.push(Reg::X1);
            },
            NodeBiOp::GreaterThanEqual => {
                self.buffer_push(AsmLine::CmpOp);
                self.buffer_push(AsmLine::Cset(CondCode::Ge));
                self.push(Reg::X1);
            },
        }
        proof {
            assert(self.lines() =~= before_op + spec_emit_op(binary_expr.op));
            assert(self.lines() =~= l0 + (spec_emit_expr(binary_expr.lhs, f0, d0) + spec_emit_expr(
                binary_expr.rhs,
                f0,
                d0 + 1,
            ) + seq![SpecAsmLine::Pop(Reg::X2), SpecAsmLine::Pop(Reg::X1)] + spec_emit_op(
                binary_expr.op,
            )));
        }
        Ok(())
    }

    /// Emits one term. An identifier is loaded from its slot: the byte
    /// offset is the distance between the current depth and the slot the
    /// innermost visible binding records, times 16.
    fn parse_term(&mut self, term: &NodeTermExpr) -> (r: Result<(), CompileError>)
        requires
            old(self).wf(),
        ensures
            final(self).wf(),
            final(self).label_index == old(self).label_index,
            final(self).m_func_name == old(self).m_func_name,
            final(self).frames() == old(self).frames(),
            r is Ok <==> term_ok(*term, old(self).frames()),
            r is Ok ==> final(self).depth() == old(self).depth() + 1 && final(self).lines() == old(
                self,
            ).lines() + spec_emit_term(*term, old(self).frames(), old(self).depth()),
            r matches Err(e) ==> e matches CompileError::UndefinedVariable { name } && name@
                == term_first_undef(*term, old(self).frames()),
        decreases *term, 0int,
    {
        let ghost l0 = old(self).lines();
        match term {
            NodeTermExpr::IntLiteral(value) => {
                self.buffer_push(AsmLine::MovInt(value.clone()));
                self.push(Reg::X1);
                proof {
                    assert(final(self).lines() =~= l0 + spec_emit_term(
                        *term,
                        old(self).frames(),
                        old(self).depth(),
                    ));
                }
                Ok(())
            },
            NodeTermExpr::BooleanLiteral(value) => {
                self.buffer_push(AsmLine::MovBool(*value));
                self.push(Reg::X1);
                proof {
                    assert(final(self).lines() =~= l0 + spec_emit_term(
                        *term,
                        old(self).frames(),
                        old(self).depth(),
                    ));
                }
                Ok(())
            },
            NodeTermExpr::Identifier(value) => {
                let map_value = match self.get_variable(value) {
                    None => {
                        return Err(CompileError::UndefinedVariable { name: value.clone() });
                    },
                    Some(v) => v,
                };
                proof {
                    crate::codegen::code_gen_structs::lemma_lookup_slot_bound(
                        old(self).frames(),
                        value@,
                        old(self).depth(),
                    );
                }
                let m_stack = self.current_stack_pointer();
                let offset = m_stack - map_value.stack_location;
                self.buffer_push(AsmLine::LoadVar(offset));
                self.push(Reg::X1);
                proof {
                    assert(final(self).lines() =~= l0 + spec_emit_term(
                        *term,
                        old(self).frames(),
                        old(self).depth(),
                    ));
                }
                Ok(())
            },
            NodeTermExpr::Expression(expr) => self.parse_expr(expr),
        }
    }
}

} // verus!
