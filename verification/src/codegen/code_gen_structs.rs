//! The code generator's state: the structured output buffer, the label
//! counter, and the per-function symbol table — a stack of lexical scopes
//! mapping identifiers to simulated stack slots.

use vstd::prelude::*;
use crate::assembly::{
    has_label, labels_bounded, labels_distinct, lemma_view_lines_push, render_lines, view_lines,
    AsmLine, SpecAsmLine,
};

verus! {

/// A variable: the 16-byte stack slot it lives in (counted from the
/// function's entry, so the slot equals the tracked depth right after the
/// initializer's value was pushed) and the line of its declaration.
#[derive(Debug, Clone, Copy, PartialEq, Eq, Structural)]
pub struct Var {
    pub stack_location: usize,
    pub line_number: i32,
}

/// The spec-level image of the scope stack: for each scope, its bindings in
/// insertion order.
pub type Frames = Seq<Seq<(Seq<char>, Var)>>;

/// One scope's bindings as a map; a later binding of the same name wins,
/// though the generator never inserts a visible name twice.
pub open spec fn scope_as_map(entries: Seq<(Seq<char>, Var)>) -> Map<Seq<char>, Var>
    decreases entries.len(),
{
    if entries.len() == 0 {
        Map::empty()
    } else {
        scope_as_map(entries.drop_last()).insert(entries.last().0, entries.last().1)
    }
}

/// Innermost-first lookup: the entry of the innermost enclosing scope that
/// binds `name`, if any. This is the shadowing rule.
pub open spec fn spec_lookup(frames: Frames, name: Seq<char>) -> Option<Var>
    decreases frames.len(),
{
    if frames.len() == 0 {
        None
    } else if scope_as_map(frames.last()).contains_key(name) {
        Some(scope_as_map(frames.last())[name])
    } else {
        spec_lookup(frames.drop_last(), name)
    }
}

/// Every slot recorded anywhere in `frames` is at most `bound`.
pub open spec fn frames_slots_le(frames: Frames, bound: int) -> bool {
    forall|k: int, j: int|
        0 <= k < frames.len() && 0 <= j < frames[k].len() ==> (#[trigger] frames[k][j]).1.stack_location
            <= bound
}

/// No scope binds the same name twice.
pub open spec fn frames_unique(frames: Frames) -> bool {
    forall|k: int, j1: int, j2: int|
        0 <= k < frames.len() && 0 <= j1 < j2 < frames[k].len() ==> (#[trigger] frames[k][j1]).0
            != (#[trigger] frames[k][j2]).0
}

proof fn lemma_scope_map_entry(entries: Seq<(Seq<char>, Var)>, j: int, name: Seq<char>)
    requires
        0 <= j < entries.len(),
        entries[j].0 == name,
        forall|m: int| j < m < entries.len() ==> (#[trigger] entries[m]).0 != name,
    ensures
        scope_as_map(entries).contains_key(name),
        scope_as_map(entries)[name] == entries[j].1,
    decreases entries.len(),
{
    if j == entries.len() - 1 {
    } else {
        assert(entries.drop_last()[j] == entries[j]);
        lemma_scope_map_entry(entries.drop_last(), j, name);
    }
}

proof fn lemma_scope_map_absent(entries: Seq<(Seq<char>, Var)>, name: Seq<char>)
    requires
        forall|m: int| 0 <= m < entries.len() ==> (#[trigger] entries[m]).0 != name,
    ensures
        !scope_as_map(entries).contains_key(name),
    decreases entries.len(),
{
    if entries.len() > 0 {
        lemma_scope_map_absent(entries.drop_last(), name);
    }
}

proof fn lemma_scope_map_some_entry(entries: Seq<(Seq<char>, Var)>, j: int, name: Seq<char>)
    requires
        0 <= j < entries.len(),
        entries[j].0 == name,
    ensures
        scope_as_map(entries).contains_key(name),
    decreases entries.len(),
{
    if j == entries.len() - 1 {
    } else {
        assert(entries.drop_last()[j] == entries[j]);
        lemma_scope_map_some_entry(entries.drop_last(), j, name);
    }
}

/// The symbol table of one function being compiled: a stack of scopes and
/// the tracked stack depth, in 16-byte slots, of the code emitted so far.
#[derive(Debug)]
pub struct LocalScopes {
    pub scopes: Vec<Vec<(String, Var)>>,
    pub m_stack_pointer: usize,
}

impl LocalScopes {
    /// The scope stack, as mathematical frames.
    pub open spec fn frames(&self) -> Frames {
        self.scopes@.map_values(
            |f: Vec<(String, Var)>| f@.map_values(|e: (String, Var)| (e.0@, e.1)),
        )
    }

    /// Well-formed: at least the function's base scope; every recorded slot
    /// lies at or below the tracked depth; no scope binds a name twice.
    pub open spec fn wf(&self) -> bool {
        &&& self.scopes@.len() >= 1
        &&& frames_slots_le(self.frames(), self.m_stack_pointer as int)
        &&& frames_unique(self.frames())
    }

    /// A fresh table: one empty base scope, depth zero.
    pub fn new() -> (r: LocalScopes)
        ensures
            r.frames() == seq![Seq::<(Seq<char>, Var)>::empty()],
            r.m_stack_pointer == 0,
            r.wf(),
    {
        let mut scopes: Vec<Vec<(String, Var)>> = Vec::new();
        scopes.push(Vec::new());
        let r = LocalScopes { scopes, m_stack_pointer: 0 };
        proof {
            assert(r.frames() =~~= seq![Seq::<(Seq<char>, Var)>::empty()]);
        }
        r
    }

    /// Scope shadowing: the returned entry is the one of the innermost
    /// enclosing scope that binds the identifier.
    pub fn get_variable(&self, identifier: &String) -> (r: Option<Var>)
        ensures
            r == spec_lookup(self.frames(), identifier@),
    {
        let ghost fs = self.frames();
        let ghost name = identifier@;
        let nf = self.scopes.len();
        let mut k = nf;
        proof {
            assert(fs.take(nf as int) =~= fs);
        }
        while k > 0
            invariant
                k <= nf,
                nf == self.scopes@.len(),
                spec_lookup(fs, name) == spec_lookup(fs.take(k as int), name),
            decreases k,
        {
            k -= 1;
            let frame = &self.scopes[k];
            let ghost fv = fs[k as int];
            let mut j = frame.len();
            while j > 0
                invariant
                    j <= frame@.len(),
                    fv == fs[k as int],
                    k < nf == self.scopes@.len(),
                    frame == self.scopes@[k as int],
                    fv.len() == frame@.len(),
                    forall|m: int| j <= m < fv.len() ==> (#[trigger] fv[m]).0 != name,
                decreases j,
            {
                j -= 1;
                let e = &frame[j];
                if e.0 == *identifier {
                    proof {
                        assert(fv[j as int].0 == name && fv[j as int].1 == e.1);
                        lemma_scope_map_entry(fv, j as int, name);
                        assert(fs.take(k as int + 1).last() == fv);
                        assert(fs.take(k as int + 1).drop_last() =~= fs.take(k as int));
                    }
                    return Some(e.1);
                }
                proof {
                    assert(fv[j as int].0 != name);
                }
            }
            proof {
                lemma_scope_map_absent(fv, name);
                assert(fs.take(k as int + 1).last() == fv);
                assert(fs.take(k as int + 1).drop_last() =~= fs.take(k as int));
            }
        }
        proof {
            assert(fs.take(0) =~= Seq::<Seq<(Seq<char>, Var)>>::empty());
        }
        None
    }

    /// The binding of `identifier` in the innermost scope alone; outer
    /// scopes are not consulted. This is what a `let` checks: shadowing an
    /// outer binding is allowed, rebinding within the same scope is not.
    pub fn get_in_current(&self, identifier: &String) -> (r: Option<Var>)
        requires
            self.scopes@.len() >= 1,
        ensures
            r == (if scope_as_map(self.frames().last()).contains_key(identifier@) {
                Some(scope_as_map(self.frames().last())[identifier@])
            } else {
                None
            }),
    {
        let ghost fv = self.frames().last();
        let ghost name = identifier@;
        let k = self.scopes.len() - 1;
        let frame = &self.scopes[k];
        let mut j = frame.len();
        while j > 0
            invariant
                j <= frame@.len(),
                fv == self.frames().last(),
                k == self.scopes@.len() - 1,
                frame == self.scopes@[k as int],
                fv.len() == frame@.len(),
                forall|m: int| j <= m < fv.len() ==> (#[trigger] fv[m]).0 != name,
            decreases j,
        {
            j -= 1;
            let e = &frame[j];
            if e.0 == *identifier {
                proof {
                    assert(fv[j as int].0 == name && fv[j as int].1 == e.1);
                    lemma_scope_map_entry(fv, j as int, name);
                }
                return Some(e.1);
            }
            proof {
                assert(fv[j as int].0 != name);
            }
        }
        proof {
            lemma_scope_map_absent(fv, name);
        }
        None
    }

    /// Binds `identifier` in the innermost scope to the slot
    /// `m_stack_pointer`.
    pub fn put_identifier(&mut self, identifier: &String, line_number: i32, m_stack_pointer: usize)
        requires
            old(self).scopes@.len() >= 1,
            !scope_as_map(old(self).frames().last()).contains_key(identifier@),
        ensures
            final(self).m_stack_pointer == old(self).m_stack_pointer,
            final(self).frames() == old(self).frames().update(
                old(self).frames().len() - 1,
                old(self).frames().last().push(
                    (identifier@, Var { stack_location: m_stack_pointer, line_number }),
                ),
            ),
    {
        let ghost fs = old(self).frames();
        let ghost name = identifier@;
        let frame_opt = self.scopes.pop();
        let mut frame = match frame_opt {
            Some(f) => f,
            None => {
                proof {
                    assert(false);
                }
                vstd::pervasive::unreached()
            },
        };
        frame.push((identifier.clone(), Var { stack_location: m_stack_pointer, line_number }));
        self.scopes.push(frame);
        proof {
            assert(final(self).frames() =~~= fs.update(
                fs.len() - 1,
                fs.last().push((name, Var { stack_location: m_stack_pointer, line_number })),
            ));
        }
    }
}

/// The code generator: the structured output buffer, the global label
/// counter, the symbol table of the function being compiled, and that
/// function's name.
#[derive(Debug)]
pub struct Generator {
    pub buffer: Vec<AsmLine>,
    pub label_index: usize,
    pub locals: LocalScopes,
    pub m_func_name: String,
}

impl Generator {
    /// The emitted lines, as their mathematical images.
    pub open spec fn lines(&self) -> Seq<SpecAsmLine> {
        view_lines(self.buffer@)
    }

    /// The tracked stack depth, in slots.
    pub open spec fn depth(&self) -> int {
        self.locals.m_stack_pointer as int
    }

    /// The scope stack of the current function.
    pub open spec fn frames(&self) -> Frames {
        self.locals.frames()
    }

    /// Well-formed: the symbol table is; every label defined so far is
    /// unique and below the counter; and the tracked depth never exceeds the
    /// number of emitted lines (each push emits one line).
    pub open spec fn wf(&self) -> bool {
        &&& self.locals.wf()
        &&& labels_distinct(self.lines())
        &&& labels_bounded(self.lines(), 0, self.label_index as int)
        &&& self.locals.m_stack_pointer <= self.buffer@.len()
    }

    /// A fresh generator: empty buffer, label counter zero, empty table.
    pub fn new() -> (r: Generator)
        ensures
            r.lines() == Seq::<SpecAsmLine>::empty(),
            r.label_index == 0,
            r.depth() == 0,
            r.frames() == seq![Seq::<(Seq<char>, Var)>::empty()],
            r.m_func_name@ == Seq::<char>::empty(),
            r.wf(),
    {
        let r = Generator {
            buffer: Vec::new(),
            label_index: 0,
            locals: LocalScopes::new(),
            m_func_name: String::new(),
        };
        proof {
            assert(r.lines() =~= Seq::<SpecAsmLine>::empty());
        }
        r
    }

    /// Appends one non-label line to the output.
    pub fn buffer_push(&mut self, value: AsmLine)
        requires
            old(self).wf(),
            !(value@ is LabelDef),
        ensures
            final(self).wf(),
            final(self).lines() == old(self).lines().push(value@),
            final(self).label_index == old(self).label_index,
            final(self).locals == old(self).locals,
            final(self).m_func_name == old(self).m_func_name,
    {
        let ghost b0 = self.buffer@;
        let ghost v = value@;
        self.buffer.push(value);
        proof {
            lemma_view_lines_push(b0, self.buffer@.last());
            assert(final(self).lines() =~= old(self).lines().push(v));
        }
    }

    /// Defines a label allocated earlier and not yet placed.
    pub(crate) fn place_label(&mut self, n: usize)
        requires
            old(self).wf(),
            n < old(self).label_index,
            !has_label(old(self).lines(), n as int),
        ensures
            final(self).wf(),
            final(self).lines() == old(self).lines().push(SpecAsmLine::LabelDef(n as int)),
            final(self).label_index == old(self).label_index,
            final(self).locals == old(self).locals,
            final(self).m_func_name == old(self).m_func_name,
    {
        let ghost b0 = self.buffer@;
        self.buffer.push(AsmLine::LabelDef(n));
        proof {
            lemma_view_lines_push(b0, self.buffer@.last());
            let s = final(self).lines();
            assert(s =~= old(self).lines().push(SpecAsmLine::LabelDef(n as int)));
            assert forall|i: int, j: int|
                0 <= i < j < s.len() && (#[trigger] s[i]) is LabelDef && (#[trigger] s[j])
                    is LabelDef implies s[i]->LabelDef_0 != s[j]->LabelDef_0 by {
                if j < s.len() - 1 {
                    assert(s[i] == old(self).lines()[i] && s[j] == old(self).lines()[j]);
                } else {
                    assert(s[i] == old(self).lines()[i]);
                }
            }
        }
    }

    /// Appends a comment line.
    pub fn comment(&mut self, comment: &str)
        requires
            old(self).wf(),
        ensures
            final(self).wf(),
            final(self).lines() == old(self).lines().push(SpecAsmLine::Comment(comment@)),
            final(self).label_index == old(self).label_index,
            final(self).locals == old(self).locals,
            final(self).m_func_name == old(self).m_func_name,
    {
        self.buffer_push(AsmLine::Comment(comment.to_owned()));
    }

    /// Renders the whole output, one text line per emitted line.
    pub fn finalize(self) -> (r: Vec<String>)
        ensures
            r@.len() == self.lines().len(),
            forall|i: int| 0 <= i < self.lines().len() ==> (#[trigger] r@[i])@ == crate::assembly::line_text(
                self.lines()[i],
            ),
    {
        render_lines(&self.buffer)
    }

    /// Innermost-first lookup in the current function's scopes.
    pub fn get_variable(&self, identifier: &String) -> (r: Option<Var>)
        ensures
            r == spec_lookup(self.frames(), identifier@),
    {
        self.locals.get_variable(identifier)
    }

    /// Enters a function: names it and resets the symbol table.
    pub fn begin_func(&mut self, c_func_name: String)
        requires
            old(self).wf(),
        ensures
            final(self).wf(),
            final(self).buffer == old(self).buffer,
            final(self).label_index == old(self).label_index,
            final(self).m_func_name == c_func_name,
            final(self).frames() == seq![Seq::<(Seq<char>, Var)>::empty()],
            final(self).depth() == 0,
    {
        self.m_func_name = c_func_name;
        self.locals = LocalScopes::new();
    }

    /// Leaves a function: releases all of its slots in one teardown and
    /// discards its symbol table.
    pub fn end_func(&mut self)
        requires
            old(self).wf(),
        ensures
            final(self).wf(),
            final(self).lines() == old(self).lines().push(
                SpecAsmLine::ReleaseSlots(old(self).depth()),
            ),
            final(self).label_index == old(self).label_index,
            final(self).m_func_name == old(self).m_func_name,
            final(self).frames() == seq![Seq::<(Seq<char>, Var)>::empty()],
            final(self).depth() == 0,
    {
        let d = self.locals.m_stack_pointer;
        self.buffer_push(AsmLine::ReleaseSlots(d));
        self.locals = LocalScopes::new();
    }

    /// Binds an identifier, not visible anywhere yet, to the slot at the
    /// current depth.
    pub fn insert_ident(&mut self, identifier: &String, line_number: i32)
        requires
            old(self).wf(),
            !scope_as_map(old(self).frames().last()).contains_key(identifier@),
        ensures
            final(self).wf(),
            final(self).buffer == old(self).buffer,
            final(self).label_index == old(self).label_index,
            final(self).m_func_name == old(self).m_func_name,
            final(self).depth() == old(self).depth(),
            final(self).frames() == old(self).frames().update(
                old(self).frames().len() - 1,
                old(self).frames().last().push(
                    (
                        identifier@,
                        Var {
                            stack_location: old(self).locals.m_stack_pointer,
                            line_number,
                        },
                    ),
                ),
            ),
    {
        let ghost fs = old(self).frames();
        let ghost name = identifier@;
        let sp = self.locals.m_stack_pointer;
        proof {
            assert forall|j: int| 0 <= j < fs.last().len() implies (#[trigger] fs.last()[j]).0
                != name by {
                if fs.last()[j].0 == name {
                    lemma_scope_map_some_entry(fs.last(), j, name);
                }
            }
            assert(forall|j: int|
                0 <= j < fs[fs.len() - 1].len() ==> (#[trigger] fs[fs.len() - 1][j]).0 != name);
        }
        self.locals.put_identifier(identifier, line_number, sp);
        proof {
            let fs2 = final(self).frames();
            assert forall|k: int, j: int|
                0 <= k < fs2.len() && 0 <= j < fs2[k].len() implies (#[trigger] fs2[k][j]).1.stack_location
                <= final(self).locals.m_stack_pointer as int by {
                if !(k == fs2.len() - 1 && j == fs2[k].len() - 1) {
                    assert(fs2[k][j] == fs[k][j]);
                }
            }
            assert forall|k: int, j1: int, j2: int|
                0 <= k < fs2.len() && 0 <= j1 < j2 < fs2[k].len() implies (#[trigger] fs2[k][j1]).0
                != (#[trigger] fs2[k][j2]).0 by {
                if k == fs2.len() - 1 && j2 == fs2[k].len() - 1 {
                    assert(fs2[k][j1] == fs[k][j1]);
                } else {
                    assert(fs2[k][j1] == fs[k][j1] && fs2[k][j2] == fs[k][j2]);
                }
            }
        }
    }

    /// Opens a nested lexical scope.
    pub fn begin_scope(&mut self)
        requires
            old(self).wf(),
        ensures
            final(self).wf(),
            final(self).buffer == old(self).buffer,
            final(self).label_index == old(self).label_index,
            final(self).m_func_name == old(self).m_func_name,
            final(self).depth() == old(self).depth(),
            final(self).frames() == old(self).frames().push(Seq::empty()),
    {
        self.locals.scopes.push(Vec::new());
        proof {
            assert(final(self).frames() =~~= old(self).frames().push(Seq::empty()));
            let fs2 = final(self).frames();
            let fs = old(self).frames();
            assert forall|k: int, j: int|
                0 <= k < fs2.len() && 0 <= j < fs2[k].len() implies (#[trigger] fs2[k][j]).1.stack_location
                <= final(self).locals.m_stack_pointer as int by {
                assert(fs2[k] == fs[k]);
            }
            assert forall|k: int, j1: int, j2: int|
                0 <= k < fs2.len() && 0 <= j1 < j2 < fs2[k].len() implies (#[trigger] fs2[k][j1]).0
                != (#[trigger] fs2[k][j2]).0 by {
                assert(fs2[k] == fs[k]);
            }
        }
    }

    /// Closes the innermost lexical scope; its bindings become unreachable.
    pub fn end_scope(&mut self)
        requires
            old(self).wf(),
            old(self).frames().len() >= 2,
        ensures
            final(self).wf(),
            final(self).buffer == old(self).buffer,
            final(self).label_index == old(self).label_index,
            final(self).m_func_name == old(self).m_func_name,
            final(self).depth() == old(self).depth(),
            final(self).frames() == old(self).frames().drop_last(),
    {
        let _ = self.scopes_pop();
        proof {
            let fs2 = final(self).frames();
            let fs = old(self).frames();
            assert(fs2 =~~= fs.drop_last());
            assert forall|k: int, j: int|
                0 <= k < fs2.len() && 0 <= j < fs2[k].len() implies (#[trigger] fs2[k][j]).1.stack_location
                <= final(self).locals.m_stack_pointer as int by {
                assert(fs2[k] == fs[k]);
            }
            assert forall|k: int, j1: int, j2: int|
                0 <= k < fs2.len() && 0 <= j1 < j2 < fs2[k].len() implies (#[trigger] fs2[k][j1]).0
                != (#[trigger] fs2[k][j2]).0 by {
                assert(fs2[k] == fs[k]);
            }
        }
    }

    /// Removes and returns the innermost scope.
    fn scopes_pop(&mut self) -> (r: Vec<(String, Var)>)
        requires
            old(self).locals.scopes@.len() >= 1,
        ensures
            final(self).locals.scopes@ == old(self).locals.scopes@.drop_last(),
            final(self).locals.m_stack_pointer == old(self).locals.m_stack_pointer,
            final(self).buffer == old(self).buffer,
            final(self).label_index == old(self).label_index,
            final(self).m_func_name == old(self).m_func_name,
    {
        match self.locals.scopes.pop() {
            Some(f) => f,
            None => {
                proof {
                    assert(false);
                }
                vstd::pervasive::unreached()
            },
        }
    }

    /// Raises the tracked depth by one slot.
    pub fn increase_stack_pointer(&mut self)
        requires
            old(self).wf(),
            old(self).locals.m_stack_pointer < old(self).buffer@.len(),
        ensures
            final(self).wf(),
            final(self).buffer == old(self).buffer,
            final(self).label_index == old(self).label_index,
            final(self).m_func_name == old(self).m_func_name,
            final(self).frames() == old(self).frames(),
            final(self).depth() == old(self).depth() + 1,
    {
        let n = self.buffer.len();
        self.locals.m_stack_pointer = self.locals.m_stack_pointer + 1;
    }

    /// Lowers the tracked depth by one slot; no surviving variable may live
    /// above the new depth.
    pub fn decrease_stack_pointer(&mut self)
        requires
            old(self).wf(),
            old(self).locals.m_stack_pointer >= 1,
            frames_slots_le(old(self).frames(), old(self).depth() - 1),
        ensures
            final(self).wf(),
            final(self).buffer == old(self).buffer,
            final(self).label_index == old(self).label_index,
            final(self).m_func_name == old(self).m_func_name,
            final(self).frames() == old(self).frames(),
            final(self).depth() == old(self).depth() - 1,
    {
        self.locals.m_stack_pointer = self.locals.m_stack_pointer - 1;
    }

    /// The tracked depth, in slots.
    pub fn current_stack_pointer(&self) -> (r: usize)
        ensures
            r == self.locals.m_stack_pointer,
    {
        self.locals.m_stack_pointer
    }
}

proof fn lemma_scope_map_value_is_entry(entries: Seq<(Seq<char>, Var)>, name: Seq<char>)
    requires
        scope_as_map(entries).contains_key(name),
    ensures
        exists|j: int|
            0 <= j < entries.len() && (#[trigger] entries[j]).0 == name && scope_as_map(entries)[
                name
            ] == entries[j].1,
    decreases entries.len(),
{
    if entries.last().0 == name {
        assert(entries[entries.len() - 1].0 == name);
    } else {
        lemma_scope_map_value_is_entry(entries.drop_last(), name);
        let j = choose|j: int|
            0 <= j < entries.drop_last().len() && (#[trigger] entries.drop_last()[j]).0 == name
                && scope_as_map(entries.drop_last())[name] == entries.drop_last()[j].1;
        assert(entries[j] == entries.drop_last()[j]);
    }
}

/// A successful lookup returns a slot within the frames' slot bound.
pub proof fn lemma_lookup_slot_bound(frames: Frames, name: Seq<char>, bound: int)
    requires
        frames_slots_le(frames, bound),
        spec_lookup(frames, name) is Some,
    ensures
        spec_lookup(frames, name)->Some_0.stack_location <= bound,
    decreases frames.len(),
{
    if frames.len() > 0 {
        if scope_as_map(frames.last()).contains_key(name) {
            lemma_scope_map_value_is_entry(frames.last(), name);
            let j = choose|j: int|
                0 <= j < frames.last().len() && (#[trigger] frames.last()[j]).0 == name
                    && scope_as_map(frames.last())[name] == frames.last()[j].1;
            assert(frames[frames.len() - 1][j].1.stack_location <= bound);
        } else {
            assert(frames_slots_le(frames.drop_last(), bound)) by {
                assert(forall|k: int|
                    0 <= k < frames.len() - 1 ==> frames.drop_last()[k] == frames[k]);
            }
            lemma_lookup_slot_bound(frames.drop_last(), name, bound);
        }
    }
}

/// Scope shadowing. A name bound in the innermost scope resolves to that
/// scope's entry, whatever the outer scopes bind; and once the innermost
/// scope is exited, its bindings are unreachable — lookup consults only the
/// remaining scopes.
pub proof fn lemma_scope_shadowing(frames: Frames, name: Seq<char>)
    requires
        frames.len() > 0,
    ensures
        scope_as_map(frames.last()).contains_key(name) ==> spec_lookup(frames, name) == Some(
            scope_as_map(frames.last())[name],
        ),
        !scope_as_map(frames.last()).contains_key(name) ==> spec_lookup(frames, name)
            == spec_lookup(frames.drop_last(), name),
{
}

} // verus!
