//! The stack primitives of the code generator. Each works in whole 16-byte
//! slots and keeps the tracked depth equal to the net movement of the
//! emitted code.

use vstd::prelude::*;
use crate::assembly::{AsmLine, Reg, SpecAsmLine};
use crate::codegen::code_gen_structs::{frames_slots_le, Generator};

verus! {

impl Generator {
    /// Pushes a register onto the runtime stack: one `STP` and one tracked
    /// slot.
    pub fn push(&mut self, value: Reg)
        requires
            old(self).wf(),
        ensures
            final(self).wf(),
            final(self).lines() == old(self).lines().push(SpecAsmLine::Push(value)),
            final(self).label_index == old(self).label_index,
            final(self).m_func_name == old(self).m_func_name,
            final(self).frames() == old(self).frames(),
            final(self).depth() == old(self).depth() + 1,
    {
        self.buffer_push(AsmLine::Push(value));
        proof {
            assert(self.buffer@.len() == self.lines().len());
            assert(self.lines().len() == old(self).lines().len() + 1);
            assert(old(self).lines().len() == old(self).buffer@.len());
        }
        self.increase_stack_pointer();
    }

    /// Pops the top slot into a register: one `LDP` and one tracked slot
    /// less. Only temporaries may be popped: every variable's slot must lie
    /// below the new depth.
    pub fn pop(&mut self, register: Reg)
        requires
            old(self).wf(),
            old(self).depth() >= 1,
            frames_slots_le(old(self).frames(), old(self).depth() - 1),
        ensures
            final(self).wf(),
            final(self).lines() == old(self).lines().push(SpecAsmLine::Pop(register)),
            final(self).label_index == old(self).label_index,
            final(self).m_func_name == old(self).m_func_name,
            final(self).frames() == old(self).frames(),
            final(self).depth() == old(self).depth() - 1,
    {
        self.buffer_push(AsmLine::Pop(register));
        self.decrease_stack_pointer();
    }

    /// Releases `offset` slots at once: one `ADD SP` teardown and that many
    /// tracked slots less.
    pub fn clear_stack(&mut self, offset: usize)
        requires
            old(self).wf(),
            offset <= old(self).depth(),
            frames_slots_le(old(self).frames(), old(self).depth() - offset),
        ensures
            final(self).wf(),
            final(self).lines() == old(self).lines().push(SpecAsmLine::ReleaseSlots(offset as int)),
            final(self).label_index == old(self).label_index,
            final(self).m_func_name == old(self).m_func_name,
            final(self).frames() == old(self).frames(),
            final(self).depth() == old(self).depth() - offset,
    {
        self.buffer_push(AsmLine::ReleaseSlots(offset));
        self.locals.m_stack_pointer = self.locals.m_stack_pointer - offset;
    }

    /// Reads the value `offset` slots up into a register, then releases
    /// everything up to and including it.
    pub fn pop_with_offset(&mut self, register: Reg, offset: usize)
        requires
            old(self).wf(),
            offset <= old(self).depth(),
            frames_slots_le(old(self).frames(), old(self).depth() - offset),
        ensures
            final(self).wf(),
            final(self).lines() == old(self).lines().push(
                SpecAsmLine::PopAt(register, offset as int),
            ).push(SpecAsmLine::ReleaseSlots(offset as int)),
            final(self).label_index == old(self).label_index,
            final(self).m_func_name == old(self).m_func_name,
            final(self).frames() == old(self).frames(),
            final(self).depth() == old(self).depth() - offset,
    {
        self.buffer_push(AsmLine::PopAt(register, offset));
        self.clear_stack(offset);
    }
}

} // verus!
